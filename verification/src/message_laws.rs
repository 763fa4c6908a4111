//! How signed messages are laid out, when they are valid, and how errors are told.
use crate::bytes::{be_bytes, bits_of_i64, field, i32_field, i64_field};
use crate::masterdesk_security::{
    auth_payload, is_signed, is_valid_auth, is_valid_lease, is_valid_rotation, lease_payload,
    nonce_after, pairs_accept, rotation_payload, takes_nonce, DeviceLease, IdentityRotation, RelayAuth,
};
use crate::relay_ticket::{
    is_valid_ticket, ticket_fields, ticket_payload, unsigned_bytes, RelayTicket,
};
use crate::route_error::{error_text, failure_text, text_views, RouteError};
use crate::sodium::{ed25519_accepts, is_key_pair, starts_neutral};
use crate::text::{decimal, join};
use crate::wire::{field_bytes, message_bytes, varint, FieldValue};
use vstd::prelude::*;
use vstd::utf8::encode_utf8;

verus! {

/// Four bytes in network order: the highest first.
pub proof fn lemma_four_bytes_in_network_order(n: nat)
    ensures
        be_bytes(n, 4) == seq![
            (n / 0x100_0000 % 256) as u8,
            (n / 0x1_0000 % 256) as u8,
            (n / 0x100 % 256) as u8,
            (n % 256) as u8,
        ],
{
    reveal_with_fuel(be_bytes, 5);
    assert(n / 256 / 256 == n / 0x1_0000);
    assert(n / 256 / 256 / 256 == n / 0x100_0000);
    assert(be_bytes(n, 4) =~= seq![
        (n / 0x100_0000 % 256) as u8,
        (n / 0x1_0000 % 256) as u8,
        (n / 0x100 % 256) as u8,
        (n % 256) as u8,
    ]);
}

/// Eight bytes in network order: the higher four, then the lower four.
pub proof fn lemma_eight_bytes_in_network_order(n: nat)
    ensures
        be_bytes(n, 8) == be_bytes(n / 0x1_0000_0000, 4) + be_bytes(n, 4),
{
    reveal_with_fuel(be_bytes, 9);
    assert(n / 256 / 256 / 256 / 256 == n / 0x1_0000_0000);
    assert(be_bytes(n, 8) =~= be_bytes(n / 0x1_0000_0000, 4) + be_bytes(n, 4));
}

/// A field starts with its length in four bytes, or with four bytes of ones where the length does
/// not fit; its bytes follow, all of them.
pub proof fn lemma_fields_start_with_their_length(value: Seq<u8>)
    ensures
        value.len() <= 0xffff_ffff ==> field(value) == be_bytes(value.len(), 4) + value,
        value.len() > 0xffff_ffff ==> field(value) == seq![255u8, 255u8, 255u8, 255u8] + value,
{
    if value.len() > 0xffff_ffff {
        lemma_four_bytes_in_network_order(0xffff_ffff);
        assert(field(value) =~= seq![255u8, 255u8, 255u8, 255u8] + value);
    }
}

/// Signed numbers are written in two's complement.
pub proof fn lemma_signed_numbers_are_twos_complements(n: i64, m: i32)
    ensures
        n >= 0 ==> i64_field(n) == be_bytes(n as nat, 8),
        n < 0 ==> i64_field(n) == be_bytes((0x1_0000_0000_0000_0000 + n) as nat, 8),
        m >= 0 ==> i32_field(m) == be_bytes(m as nat, 4),
        m < 0 ==> i32_field(m) == be_bytes((0x1_0000_0000 + m) as nat, 4),
{
}

/// What the signature of a device lease covers, part by part.
pub proof fn lemma_lease_layout(
    id: Seq<char>,
    installation_id: Seq<u8>,
    session_nonce: Seq<u8>,
    timestamp: i64,
)
    ensures
        lease_payload(id, installation_id, session_nonce, timestamp) == field(
            encode_utf8("masterdesk-device-lease-v1"@),
        ) + field(encode_utf8(id)) + field(installation_id) + field(session_nonce) + i64_field(
            timestamp,
        ),
{
}

/// What the signature of an identity rotation covers, part by part.
pub proof fn lemma_rotation_layout(
    id: Seq<char>,
    session_nonce: Seq<u8>,
    issued_at: i64,
    nonce: Seq<u8>,
)
    ensures
        rotation_payload(id, session_nonce, issued_at, nonce) == field(
            encode_utf8("masterdesk-identity-rotation-v1"@),
        ) + field(encode_utf8(id)) + field(session_nonce) + i64_field(issued_at) + field(nonce),
{
}

/// What the signature of a relay authorisation covers, part by part.
pub proof fn lemma_auth_layout(
    target_id: Seq<char>,
    uuid: Seq<char>,
    relay_server: Seq<char>,
    conn_type: i32,
    requester_id: Seq<char>,
    session_nonce: Seq<u8>,
    timestamp: i64,
)
    ensures
        auth_payload(
            target_id,
            uuid,
            relay_server,
            conn_type,
            requester_id,
            session_nonce,
            timestamp,
        ) == field(encode_utf8("masterdesk-relay-auth-v1"@)) + field(encode_utf8(target_id)) + field(
            encode_utf8(uuid),
        ) + field(encode_utf8(relay_server)) + i32_field(conn_type) + field(
            encode_utf8(requester_id),
        ) + field(session_nonce) + i64_field(timestamp),
{
}

/// What the signature of a ticket covers: the context and the whole unsigned ticket, each with its
/// length.
pub proof fn lemma_ticket_layout(ticket: RelayTicket)
    ensures
        ticket_payload(ticket) == field(encode_utf8("masterdesk-relay-ticket-v1"@)) + field(
            unsigned_bytes(ticket),
        ),
{
}

/// A signature is taken exactly where it has 64 bytes, the last one below 32, and Ed25519 accepts
/// it for the payload under the public key.
pub proof fn lemma_signatures_are_taken_by_ed25519(
    payload: Seq<u8>,
    signature: Seq<u8>,
    public_key: Seq<u8>,
)
    ensures
        is_signed(payload, signature, public_key) <==> signature.len() == 64 && signature[63] < 32
            && ed25519_accepts(signature, payload, public_key),
{
}

/// A device lease is valid exactly where Ed25519 accepts its signature for the identifier, the
/// installation, the session and the time in it, and nothing else has a say.
pub proof fn lemma_valid_leases_are_signed(
    id: Seq<char>,
    lease: DeviceLease,
    public_key: Seq<u8>,
)
    ensures
        is_valid_lease(id, lease, public_key) <==> lease.signature@.len() == 64
            && lease.signature@[63] < 32 && ed25519_accepts(
            lease.signature@,
            lease_payload(id, lease.installation_id@, lease.session_nonce@, lease.timestamp),
            public_key,
        ),
{
}

/// An identity rotation is valid exactly where Ed25519 accepts its signature for the identifier, the
/// session, the time and the nonce in it, and nothing else has a say.
pub proof fn lemma_valid_rotations_are_signed(
    id: Seq<char>,
    rotation: IdentityRotation,
    public_key: Seq<u8>,
)
    ensures
        is_valid_rotation(id, rotation, public_key) <==> rotation.signature@.len() == 64
            && rotation.signature@[63] < 32 && ed25519_accepts(
            rotation.signature@,
            rotation_payload(id, rotation.session_nonce@, rotation.issued_at, rotation.nonce@),
            public_key,
        ),
{
}

/// A relay authorisation is valid exactly where Ed25519 accepts its signature for the connection and
/// for the requester, the session and the time in it, and nothing else has a say.
pub proof fn lemma_valid_auths_are_signed(
    target_id: Seq<char>,
    uuid: Seq<char>,
    relay_server: Seq<char>,
    conn_type: i32,
    auth: RelayAuth,
    public_key: Seq<u8>,
)
    ensures
        is_valid_auth(target_id, uuid, relay_server, conn_type, auth, public_key)
            <==> auth.signature@.len() == 64 && auth.signature@[63] < 32 && ed25519_accepts(
            auth.signature@,
            auth_payload(
                target_id,
                uuid,
                relay_server,
                conn_type,
                auth.requester_id@,
                auth.session_nonce@,
                auth.timestamp,
            ),
            public_key,
        ),
{
}

/// A ticket is valid exactly where Ed25519 accepts its signature for what it says, and nothing else
/// has a say.
pub proof fn lemma_valid_tickets_are_signed(ticket: RelayTicket, public_key: Seq<u8>)
    ensures
        is_valid_ticket(ticket, public_key) <==> ticket.signature@.len() == 64
            && ticket.signature@[63] < 32 && ed25519_accepts(
            ticket.signature@,
            ticket_payload(ticket),
            public_key,
        ),
{
}

/// A key pair is a seed and its public key, followed by that public key once more.
pub proof fn lemma_key_pairs_end_in_the_public_key(public_key: Seq<u8>, secret_key: Seq<u8>)
    requires
        is_key_pair(public_key, secret_key),
    ensures
        secret_key.len() == 64,
        public_key.len() == 32,
        secret_key == secret_key.take(32) + public_key,
        crate::sodium::ed25519_public_key(secret_key.take(32)) == public_key,
{
    assert(secret_key =~= secret_key.take(32) + secret_key.skip(32));
}

/// A process without a nonce takes every nonce of 16 bytes or more, and one with a nonce takes that
/// one again; a shorter nonce is never taken.
pub proof fn lemma_nonces_that_are_taken(offered: Seq<u8>, current: Option<Seq<u8>>)
    ensures
        offered.len() >= 16 ==> takes_nonce(None, offered) && nonce_after(None, offered) == Some(
            offered,
        ),
        offered.len() >= 16 ==> takes_nonce(Some(offered), offered),
        offered.len() < 16 ==> !takes_nonce(current, offered) && nonce_after(current, offered)
            == current,
        current is Some && current != Some(offered) ==> !takes_nonce(current, offered),
{
}

/// One more text is joined to the ones before it with the separator between them.
pub proof fn lemma_one_more_is_joined(parts: Seq<Seq<char>>, part: Seq<char>, sep: Seq<char>)
    ensures
        parts.len() == 0 ==> join(parts.push(part), sep) == part,
        parts.len() > 0 ==> join(parts.push(part), sep) == join(parts, sep) + sep + part,
{
    assert(parts.push(part).drop_last() =~= parts);
}

/// Where no interface connected, the error names the target as it was asked for and tells what went
/// wrong on every interface, in the order of the failures.
pub proof fn lemma_every_failure_is_told(target: String, failures: Vec<String>)
    ensures
        error_text(RouteError::NotConnected { target, failures })
            == "Direct-server bypass failed to connect to "@ + target@ + ": "@ + join(
            text_views(failures@),
            "; "@,
        ),
        text_views(failures@).len() == failures@.len(),
        forall|i: int|
            0 <= i < failures@.len() ==> #[trigger] text_views(failures@)[i] == failures@[i]@,
{
}

/// What went wrong on an interface is told with its name and its index.
pub proof fn lemma_failures_name_their_interface(name: Seq<char>, index: u32, error: Seq<char>)
    ensures
        failure_text(name, index, error) == name + " (index "@ + decimal(index as nat) + "): "@
            + error,
{
}

/// The other errors name the target, or say what is missing.
pub proof fn lemma_errors_name_their_target(target: String, reason: String)
    ensures
        error_text(RouteError::NoInterface)
            == "Direct-server bypass found no connected physical or external Hyper-V IPv4 interface with a gateway"@,
        error_text(RouteError::NoIpv4 { target })
            == "Direct-server bypass failed to resolve an IPv4 address for "@ + target@,
        error_text(RouteError::NoIpv6) == "Failed to get ipv6 from nip.io"@,
        error_text(RouteError::NoAddress { target }) == "Failed to look up host for "@ + target@,
        error_text(RouteError::NotAnAddress { reason }) == reason@,
{
}

/// Only one first half of a signature is excepted: the byte one and 31 zeros.
pub proof fn lemma_one_first_half_is_excepted(a: Seq<u8>, b: Seq<u8>)
    requires
        a.len() == 64,
        b.len() == 64,
        starts_neutral(a),
    ensures
        starts_neutral(b) <==> a.take(32) == b.take(32),
        a[0] == 1,
        a.subrange(1, 32) == Seq::new(31, |i: int| 0u8),
{
    assert(a.subrange(1, 32) =~= Seq::new(31, |i: int| 0u8));
    if starts_neutral(b) {
        assert(a.take(32) =~= b.take(32));
    }
    if a.take(32) == b.take(32) {
        assert(a.take(32)[0] == b.take(32)[0]);
        assert forall|i: int| 1 <= i < 32 implies #[trigger] b[i] == 0 by {
            assert(a.take(32)[i] == b.take(32)[i]);
            assert(a[i] == 0);
        }
    }
}

/// What was signed with a secret key the public key of the pair takes, with that one exception.
pub proof fn lemma_pairs_take_their_signatures(
    payload: Seq<u8>,
    signature: Seq<u8>,
    public_key: Seq<u8>,
    secret_key: Seq<u8>,
)
    requires
        pairs_accept(payload, signature, secret_key),
        is_key_pair(public_key, secret_key),
        signature[0] != 1,
    ensures
        ed25519_accepts(signature, payload, public_key),
{
    assert(is_signed(payload, signature, public_key));
}

/// A number on the wire has seven bits in each byte, the lowest first, and the high bit of a byte
/// says that more follow.
pub proof fn lemma_numbers_on_the_wire(n: nat)
    ensures
        n < 128 ==> varint(n) == seq![n as u8],
        n >= 128 ==> varint(n) == seq![(128 + n % 128) as u8] + varint(n / 128),
{
}

/// A field that is zero or empty is not written; any other is written with its number, its kind and
/// all that it holds.
pub proof fn lemma_fields_on_the_wire(number: nat, value: nat, text: Seq<char>)
    ensures
        field_bytes(number, FieldValue::Number(0)).len() == 0,
        field_bytes(number, FieldValue::Text(Seq::empty())).len() == 0,
        value > 0 ==> field_bytes(number, FieldValue::Number(value)) == varint(number * 8) + varint(
            value,
        ),
        text.len() > 0 && encode_utf8(text).len() <= 0xffff_ffff ==> field_bytes(
            number,
            FieldValue::Text(text),
        ) == varint(number * 8 + 2) + varint(encode_utf8(text).len()) + encode_utf8(text),
{
}

/// A ticket on the wire is its fields in the order of their numbers, without the signature, and then
/// the fields of later versions.
pub proof fn lemma_tickets_on_the_wire(ticket: RelayTicket)
    ensures
        ({
            let fields_13 = field_bytes(13, FieldValue::Number(ticket.max_bytes as nat)) + (field_bytes(
                14,
                FieldValue::Number(ticket.max_seconds as nat),
            ) + ticket.unknown_fields@);
            let fields_12 = field_bytes(12, FieldValue::Number(bits_of_i64(ticket.conn_type as i64))) + fields_13;
            let fields_11 = field_bytes(11, FieldValue::Number(bits_of_i64(ticket.expires_at))) + fields_12;
            let fields_10 = field_bytes(10, FieldValue::Number(bits_of_i64(ticket.issued_at))) + fields_11;
            let fields_9 = field_bytes(9, FieldValue::Text(ticket.relay_server@)) + fields_10;
            let fields_8 = field_bytes(8, FieldValue::Text(ticket.controlled_id@)) + fields_9;
            let fields_7 = field_bytes(7, FieldValue::Text(ticket.controller_id@)) + fields_8;
            let fields_6 = field_bytes(6, FieldValue::Text(ticket.device_id@)) + fields_7;
            let fields_5 = field_bytes(5, FieldValue::Text(ticket.role@)) + fields_6;
            let fields_4 = field_bytes(4, FieldValue::Text(ticket.relay_session_id@)) + fields_5;
            let fields_3 = field_bytes(3, FieldValue::Text(ticket.ticket_id@)) + fields_4;
            let fields_2 = field_bytes(2, FieldValue::Text(ticket.key_id@)) + fields_3;
            unsigned_bytes(ticket) == field_bytes(1, FieldValue::Number(ticket.version as nat)) + fields_2
        }),
{
    let fields = ticket_fields(ticket);
    let rest = ticket.unknown_fields@;
    assert(message_bytes(fields, 14, rest) == rest);
    assert(message_bytes(fields, 13, rest) == field_bytes(14, fields[13]) + message_bytes(
        fields,
        14,
        rest,
    ));
    assert(message_bytes(fields, 12, rest) == field_bytes(13, fields[12]) + message_bytes(
        fields,
        13,
        rest,
    ));
    assert(message_bytes(fields, 11, rest) == field_bytes(12, fields[11]) + message_bytes(
        fields,
        12,
        rest,
    ));
    assert(message_bytes(fields, 10, rest) == field_bytes(11, fields[10]) + message_bytes(
        fields,
        11,
        rest,
    ));
    assert(message_bytes(fields, 9, rest) == field_bytes(10, fields[9]) + message_bytes(
        fields,
        10,
        rest,
    ));
    assert(message_bytes(fields, 8, rest) == field_bytes(9, fields[8]) + message_bytes(
        fields,
        9,
        rest,
    ));
    assert(message_bytes(fields, 7, rest) == field_bytes(8, fields[7]) + message_bytes(
        fields,
        8,
        rest,
    ));
    assert(message_bytes(fields, 6, rest) == field_bytes(7, fields[6]) + message_bytes(
        fields,
        7,
        rest,
    ));
    assert(message_bytes(fields, 5, rest) == field_bytes(6, fields[5]) + message_bytes(
        fields,
        6,
        rest,
    ));
    assert(message_bytes(fields, 4, rest) == field_bytes(5, fields[4]) + message_bytes(
        fields,
        5,
        rest,
    ));
    assert(message_bytes(fields, 3, rest) == field_bytes(4, fields[3]) + message_bytes(
        fields,
        4,
        rest,
    ));
    assert(message_bytes(fields, 2, rest) == field_bytes(3, fields[2]) + message_bytes(
        fields,
        3,
        rest,
    ));
    assert(message_bytes(fields, 1, rest) == field_bytes(2, fields[1]) + message_bytes(
        fields,
        2,
        rest,
    ));
    assert(message_bytes(fields, 0, rest) == field_bytes(1, fields[0]) + message_bytes(
        fields,
        1,
        rest,
    ));
}

} // verus!
