//! Relay tickets, which the rendezvous server signs and the relays check.
use crate::bytes::{append_bytes, append_str, bits_of_i64, field};
use crate::masterdesk_security::{is_signed, sign_payload, verify_payload, RELAY_TICKET_CONTEXT};
use crate::sodium::{
    ed25519_signature, is_key_pair, is_signature, public_key_bytes, secret_key_bytes,
    starts_neutral,
};
use crate::wire::{
    has_full_length, message_bytes, put_enum, put_int64, put_string, put_uint32, put_uint64,
    FieldValue,
};
use sodiumoxide::crypto::sign;
use vstd::prelude::*;
use vstd::utf8::encode_utf8;

verus! {

/// The connection type of an ordinary remote session.
pub const DEFAULT_CONN: i32 = 0;

/// A permission to use a relay, for one side of one session.
///
/// On the wire the fields are numbered from one, in this order, up to the signature, which is
/// field 15.
#[derive(Clone, Debug)]
pub struct RelayTicket {
    pub version: u32,
    pub key_id: String,
    pub ticket_id: String,
    pub relay_session_id: String,
    pub role: String,
    pub device_id: String,
    pub controller_id: String,
    pub controlled_id: String,
    pub relay_server: String,
    pub issued_at: i64,
    pub expires_at: i64,
    pub conn_type: i32,
    pub max_bytes: u64,
    pub max_seconds: u32,
    pub signature: Vec<u8>,
    /// The fields of later versions, as they are written on the wire.
    pub unknown_fields: Vec<u8>,
}

/// A ticket cannot be written on the wire.
#[derive(Clone, Copy, Debug, PartialEq, Eq, Structural)]
pub enum TicketError {
    Encoding,
}

/// The fields that the signature of a ticket covers, in the order of their numbers.
pub open spec fn ticket_fields(ticket: RelayTicket) -> Seq<FieldValue> {
    seq![
        FieldValue::Number(ticket.version as nat),
        FieldValue::Text(ticket.key_id@),
        FieldValue::Text(ticket.ticket_id@),
        FieldValue::Text(ticket.relay_session_id@),
        FieldValue::Text(ticket.role@),
        FieldValue::Text(ticket.device_id@),
        FieldValue::Text(ticket.controller_id@),
        FieldValue::Text(ticket.controlled_id@),
        FieldValue::Text(ticket.relay_server@),
        FieldValue::Number(bits_of_i64(ticket.issued_at)),
        FieldValue::Number(bits_of_i64(ticket.expires_at)),
        FieldValue::Number(bits_of_i64(ticket.conn_type as i64)),
        FieldValue::Number(ticket.max_bytes as nat),
        FieldValue::Number(ticket.max_seconds as nat),
    ]
}

/// The ticket on the wire, without its signature.
pub open spec fn unsigned_bytes(ticket: RelayTicket) -> Seq<u8> {
    message_bytes(ticket_fields(ticket), 0, ticket.unknown_fields@)
}

/// What the signature of a ticket covers.
pub open spec fn ticket_payload(ticket: RelayTicket) -> Seq<u8> {
    field(encode_utf8(RELAY_TICKET_CONTEXT@)) + field(unsigned_bytes(ticket))
}

/// The ticket is signed.
pub open spec fn is_valid_ticket(ticket: RelayTicket, public_key: Seq<u8>) -> bool {
    is_signed(ticket_payload(ticket), ticket.signature@, public_key)
}

/// Two tickets say the same, whatever their signatures.
pub open spec fn same_grant(a: RelayTicket, b: RelayTicket) -> bool {
    &&& a.version == b.version
    &&& a.key_id@ == b.key_id@
    &&& a.ticket_id@ == b.ticket_id@
    &&& a.relay_session_id@ == b.relay_session_id@
    &&& a.role@ == b.role@
    &&& a.device_id@ == b.device_id@
    &&& a.controller_id@ == b.controller_id@
    &&& a.controlled_id@ == b.controlled_id@
    &&& a.relay_server@ == b.relay_server@
    &&& a.issued_at == b.issued_at
    &&& a.expires_at == b.expires_at
    &&& a.conn_type == b.conn_type
    &&& a.max_bytes == b.max_bytes
    &&& a.max_seconds == b.max_seconds
    &&& a.unknown_fields@ == b.unknown_fields@
}

impl RelayTicket {
    /// The lengths in a ticket fit in 32 bits, and the unknown fields have higher numbers than
    /// the known ones.
    pub open spec fn is_plain(self) -> bool {
        &&& forall|i: int|
            0 <= i < ticket_fields(self).len() ==> has_full_length(#[trigger] ticket_fields(self)[i])
        &&& self.unknown_fields@.len() > 0 ==> self.unknown_fields@[0] >= 128
        &&& unsigned_bytes(self).len() <= u32::MAX
    }
}

impl Default for RelayTicket {
    /// A ticket whose fields are all zero or empty.
    fn default() -> (ticket: RelayTicket)
        ensures
            ticket.version == 0,
            ticket.key_id@.len() == 0,
            ticket.ticket_id@.len() == 0,
            ticket.relay_session_id@.len() == 0,
            ticket.role@.len() == 0,
            ticket.device_id@.len() == 0,
            ticket.controller_id@.len() == 0,
            ticket.controlled_id@.len() == 0,
            ticket.relay_server@.len() == 0,
            ticket.issued_at == 0,
            ticket.expires_at == 0,
            ticket.conn_type == DEFAULT_CONN,
            ticket.max_bytes == 0,
            ticket.max_seconds == 0,
            ticket.signature@.len() == 0,
            ticket.unknown_fields@.len() == 0,
    {
        RelayTicket {
            version: 0,
            key_id: String::new(),
            ticket_id: String::new(),
            relay_session_id: String::new(),
            role: String::new(),
            device_id: String::new(),
            controller_id: String::new(),
            controlled_id: String::new(),
            relay_server: String::new(),
            issued_at: 0,
            expires_at: 0,
            conn_type: DEFAULT_CONN,
            max_bytes: 0,
            max_seconds: 0,
            signature: Vec::new(),
            unknown_fields: Vec::new(),
        }
    }
}

/// One more field of a message is written.
proof fn lemma_written(fields: Seq<FieldValue>, from: int, rest: Seq<u8>, out: Seq<u8>, more: Seq<
    u8,
>)
    requires
        0 <= from < fields.len(),
        more == out + crate::wire::field_bytes((from + 1) as nat, fields[from]),
    ensures
        more + message_bytes(fields, from + 1, rest) == out + message_bytes(fields, from, rest),
{
    assert(more + message_bytes(fields, from + 1, rest) =~= out + message_bytes(
        fields,
        from,
        rest,
    ));
}

/// The fields of a ticket on the wire, up to the numbers at its end.
fn encode_texts(ticket: &RelayTicket) -> (encoded: Result<Vec<u8>, protobuf::Error>)
    ensures
        encoded matches Ok(out) && out@ + message_bytes(
            ticket_fields(*ticket),
            9,
            ticket.unknown_fields@,
        ) == unsigned_bytes(*ticket),
{
    let ghost fields = ticket_fields(*ticket);
    let ghost rest = ticket.unknown_fields@;
    let mut out: Vec<u8> = Vec::new();
    let ghost start = out@;
    assert(start + message_bytes(fields, 0, rest) =~= unsigned_bytes(*ticket));
    put_uint32(&mut out, 1, ticket.version)?;
    let ghost s1 = out@;
    put_string(&mut out, 2, ticket.key_id.as_str())?;
    let ghost s2 = out@;
    put_string(&mut out, 3, ticket.ticket_id.as_str())?;
    let ghost s3 = out@;
    put_string(&mut out, 4, ticket.relay_session_id.as_str())?;
    let ghost s4 = out@;
    put_string(&mut out, 5, ticket.role.as_str())?;
    let ghost s5 = out@;
    put_string(&mut out, 6, ticket.device_id.as_str())?;
    let ghost s6 = out@;
    put_string(&mut out, 7, ticket.controller_id.as_str())?;
    let ghost s7 = out@;
    put_string(&mut out, 8, ticket.controlled_id.as_str())?;
    let ghost s8 = out@;
    put_string(&mut out, 9, ticket.relay_server.as_str())?;
    proof {
        lemma_written(fields, 0, rest, start, s1);
        lemma_written(fields, 1, rest, s1, s2);
        lemma_written(fields, 2, rest, s2, s3);
        lemma_written(fields, 3, rest, s3, s4);
        lemma_written(fields, 4, rest, s4, s5);
        lemma_written(fields, 5, rest, s5, s6);
        lemma_written(fields, 6, rest, s6, s7);
        lemma_written(fields, 7, rest, s7, s8);
        lemma_written(fields, 8, rest, s8, out@);
    }
    Ok(out)
}

/// A ticket on the wire, without its signature.
fn encode_unsigned(ticket: &RelayTicket) -> (encoded: Result<Vec<u8>, protobuf::Error>)
    ensures
        encoded matches Ok(out) && out@ == unsigned_bytes(*ticket),
{
    let ghost fields = ticket_fields(*ticket);
    let ghost rest = ticket.unknown_fields@;
    let mut out: Vec<u8> = encode_texts(ticket)?;
    let ghost s9 = out@;
    put_int64(&mut out, 10, ticket.issued_at)?;
    let ghost s10 = out@;
    put_int64(&mut out, 11, ticket.expires_at)?;
    let ghost s11 = out@;
    put_enum(&mut out, 12, ticket.conn_type)?;
    let ghost s12 = out@;
    put_uint64(&mut out, 13, ticket.max_bytes)?;
    let ghost s13 = out@;
    put_uint32(&mut out, 14, ticket.max_seconds)?;
    proof {
        lemma_written(fields, 9, rest, s9, s10);
        lemma_written(fields, 10, rest, s10, s11);
        lemma_written(fields, 11, rest, s11, s12);
        lemma_written(fields, 12, rest, s12, s13);
        lemma_written(fields, 13, rest, s13, out@);
    }
    out.extend_from_slice(ticket.unknown_fields.as_slice());
    assert(message_bytes(fields, 14, rest) == rest);
    Ok(out)
}

/// What the signature of a ticket covers.
pub fn relay_ticket_payload(ticket: &RelayTicket) -> (payload: Result<Vec<u8>, TicketError>)
    ensures
        payload matches Ok(bytes) && bytes@ == ticket_payload(*ticket),
{
    let encoded: Vec<u8> = match encode_unsigned(ticket) {
        Ok(encoded) => encoded,
        Err(_) => return Err(TicketError::Encoding),
    };
    let mut payload: Vec<u8> = Vec::new();
    append_str(&mut payload, RELAY_TICKET_CONTEXT);
    append_bytes(&mut payload, encoded.as_slice());
    assert(payload@ =~= ticket_payload(*ticket));
    Ok(payload)
}

/// Signs a ticket. Everything else in it stays as it is.
pub fn sign_relay_ticket(ticket: &mut RelayTicket, secret_key: &sign::SecretKey) -> (signed: Result<
    (),
    TicketError,
>)
    ensures
        signed is Ok,
        same_grant(*final(ticket), *old(ticket)),
        is_signature(final(ticket).signature@),
        final(ticket).signature@ == ed25519_signature(
            ticket_payload(*old(ticket)),
            secret_key_bytes(*secret_key),
        ),
        forall|public_key: Seq<u8>|
            is_key_pair(public_key, secret_key_bytes(*secret_key)) && !starts_neutral(
                final(ticket).signature@,
            ) ==> #[trigger] is_valid_ticket(*final(ticket), public_key),
{
    match relay_ticket_payload(ticket) {
        Ok(payload) => {
            let signature: Vec<u8> = sign_payload(payload.as_slice(), secret_key);
            ticket.signature = signature;
            proof {
                lemma_signature_is_not_signed(*ticket, *old(ticket));
            }
            Ok(())
        },
        Err(error) => Err(error),
    }
}

/// Whether a ticket is signed.
pub fn verify_relay_ticket(ticket: &RelayTicket, public_key: &sign::PublicKey) -> (valid: bool)
    ensures
        valid == is_valid_ticket(*ticket, public_key_bytes(*public_key)),
{
    match relay_ticket_payload(ticket) {
        Ok(payload) => verify_payload(
            payload.as_slice(),
            ticket.signature.as_slice(),
            public_key,
        ),
        Err(_) => false,
    }
}

/// The signature of a ticket covers all of the ticket but the signature itself: tickets that say
/// the same have the same payload.
pub proof fn lemma_signature_is_not_signed(a: RelayTicket, b: RelayTicket)
    requires
        same_grant(a, b),
    ensures
        ticket_payload(a) == ticket_payload(b),
{
    assert(ticket_fields(a) =~= ticket_fields(b));
}

/// The signed bytes never encode two tickets: tickets with one payload say the same, where their
/// lengths fit in 32 bits and their unknown fields have higher numbers than the known ones.
pub proof fn lemma_ticket_payload_binds(a: RelayTicket, b: RelayTicket)
    requires
        a.is_plain(),
        b.is_plain(),
        ticket_payload(a) == ticket_payload(b),
    ensures
        same_grant(a, b),
{
    let context = field(encode_utf8(RELAY_TICKET_CONTEXT@));
    let none = Seq::<u8>::empty();
    assert(field(unsigned_bytes(a)) =~= ticket_payload(a).skip(context.len() as int));
    assert(field(unsigned_bytes(b)) =~= ticket_payload(b).skip(context.len() as int));
    assert(field(unsigned_bytes(a)) + none =~= field(unsigned_bytes(b)) + none);
    crate::bytes::lemma_field_read_back(unsigned_bytes(a), none, unsigned_bytes(b), none);
    let x = ticket_fields(a);
    let y = ticket_fields(b);
    crate::wire::lemma_message_read_back(x, a.unknown_fields@, y, b.unknown_fields@, 0);
    assert(x[0] == y[0] && x[1] == y[1] && x[2] == y[2] && x[3] == y[3] && x[4] == y[4]);
    assert(x[5] == y[5] && x[6] == y[6] && x[7] == y[7] && x[8] == y[8] && x[9] == y[9]);
    assert(x[10] == y[10] && x[11] == y[11] && x[12] == y[12] && x[13] == y[13]);
}

} // verus!
