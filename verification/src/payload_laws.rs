//! What signed bytes encode: one kind of message, and one message of that kind.
use crate::bytes::{
    field, i32_field, i64_field, lemma_field_read_back, lemma_i32_read_back, lemma_i64_read_back,
    lemma_utf8_read_back,
};
use crate::masterdesk_security::{
    auth_payload, lease_payload, rotation_payload, DEVICE_LEASE_CONTEXT,
    IDENTITY_ROTATION_CONTEXT, RELAY_AUTH_CONTEXT, RELAY_TICKET_CONTEXT,
};
use crate::relay_ticket::{ticket_payload, unsigned_bytes, RelayTicket};
use vstd::prelude::*;
use vstd::utf8::{encode_utf8, is_ascii_chars_encode_utf8};

verus! {

/// The length of a field fits in its prefix.
pub open spec fn fits(value: Seq<u8>) -> bool {
    value.len() <= u32::MAX
}

/// The signed bytes of a device lease encode one identifier, installation, session and time and no
/// other, where the lengths fit in 32 bits.
pub proof fn lemma_lease_payload_binds(
    id: Seq<char>,
    installation_id: Seq<u8>,
    session_nonce: Seq<u8>,
    timestamp: i64,
    other_id: Seq<char>,
    other_installation_id: Seq<u8>,
    other_session_nonce: Seq<u8>,
    other_timestamp: i64,
)
    requires
        fits(encode_utf8(id)),
        fits(installation_id),
        fits(session_nonce),
        fits(encode_utf8(other_id)),
        fits(other_installation_id),
        fits(other_session_nonce),
        lease_payload(id, installation_id, session_nonce, timestamp) == lease_payload(
            other_id,
            other_installation_id,
            other_session_nonce,
            other_timestamp,
        ),
    ensures
        id == other_id,
        installation_id == other_installation_id,
        session_nonce == other_session_nonce,
        timestamp == other_timestamp,
{
    let context = field(encode_utf8(DEVICE_LEASE_CONTEXT@));
    let none = Seq::<u8>::empty();
    let a3 = i64_field(timestamp) + none;
    let a2 = field(session_nonce) + a3;
    let a1 = field(installation_id) + a2;
    let a = field(encode_utf8(id)) + a1;
    let b3 = i64_field(other_timestamp) + none;
    let b2 = field(other_session_nonce) + b3;
    let b1 = field(other_installation_id) + b2;
    let b = field(encode_utf8(other_id)) + b1;
    let left = lease_payload(id, installation_id, session_nonce, timestamp);
    let right = lease_payload(
        other_id,
        other_installation_id,
        other_session_nonce,
        other_timestamp,
    );
    assert(a =~= left.skip(context.len() as int));
    assert(b =~= right.skip(context.len() as int));
    lemma_field_read_back(encode_utf8(id), a1, encode_utf8(other_id), b1);
    lemma_field_read_back(installation_id, a2, other_installation_id, b2);
    lemma_field_read_back(session_nonce, a3, other_session_nonce, b3);
    lemma_i64_read_back(timestamp, none, other_timestamp, none);
    lemma_utf8_read_back(id, other_id);
}

/// The signed bytes of an identity rotation encode one identifier, session, time and nonce and no
/// other, where the lengths fit in 32 bits.
pub proof fn lemma_rotation_payload_binds(
    id: Seq<char>,
    session_nonce: Seq<u8>,
    issued_at: i64,
    nonce: Seq<u8>,
    other_id: Seq<char>,
    other_session_nonce: Seq<u8>,
    other_issued_at: i64,
    other_nonce: Seq<u8>,
)
    requires
        fits(encode_utf8(id)),
        fits(session_nonce),
        fits(nonce),
        fits(encode_utf8(other_id)),
        fits(other_session_nonce),
        fits(other_nonce),
        rotation_payload(id, session_nonce, issued_at, nonce) == rotation_payload(
            other_id,
            other_session_nonce,
            other_issued_at,
            other_nonce,
        ),
    ensures
        id == other_id,
        session_nonce == other_session_nonce,
        issued_at == other_issued_at,
        nonce == other_nonce,
{
    let context = field(encode_utf8(IDENTITY_ROTATION_CONTEXT@));
    let none = Seq::<u8>::empty();
    let a3 = field(nonce) + none;
    let a2 = i64_field(issued_at) + a3;
    let a1 = field(session_nonce) + a2;
    let a = field(encode_utf8(id)) + a1;
    let b3 = field(other_nonce) + none;
    let b2 = i64_field(other_issued_at) + b3;
    let b1 = field(other_session_nonce) + b2;
    let b = field(encode_utf8(other_id)) + b1;
    let left = rotation_payload(id, session_nonce, issued_at, nonce);
    let right = rotation_payload(other_id, other_session_nonce, other_issued_at, other_nonce);
    assert(a =~= left.skip(context.len() as int));
    assert(b =~= right.skip(context.len() as int));
    lemma_field_read_back(encode_utf8(id), a1, encode_utf8(other_id), b1);
    lemma_field_read_back(session_nonce, a2, other_session_nonce, b2);
    lemma_i64_read_back(issued_at, a3, other_issued_at, b3);
    lemma_field_read_back(nonce, none, other_nonce, none);
    lemma_utf8_read_back(id, other_id);
}

/// Where the brackets stand makes no difference to a concatenation.
proof fn lemma_assoc(a: Seq<u8>, b: Seq<u8>, c: Seq<u8>)
    ensures
        (a + b) + c == a + (b + c),
{
    assert((a + b) + c =~= a + (b + c));
}

/// Eight parts, one after the other, are the first part and the rest.
proof fn lemma_eight_parts(
    a: Seq<u8>,
    b: Seq<u8>,
    c: Seq<u8>,
    d: Seq<u8>,
    e: Seq<u8>,
    f: Seq<u8>,
    g: Seq<u8>,
    h: Seq<u8>,
)
    ensures
        a + b + c + d + e + f + g + h == a + (b + (c + (d + (e + (f + (g + (h + Seq::<
            u8,
        >::empty()))))))),
{
    let tail = h + Seq::<u8>::empty();
    assert(tail =~= h);
    lemma_assoc(a + b + c + d + e + f, g, h);
    lemma_assoc(a + b + c + d + e, f, g + h);
    lemma_assoc(a + b + c + d, e, f + (g + h));
    lemma_assoc(a + b + c, d, e + (f + (g + h)));
    lemma_assoc(a + b, c, d + (e + (f + (g + h))));
    lemma_assoc(a, b, c + (d + (e + (f + (g + h)))));
}

/// What follows one start is the same where the whole is.
proof fn lemma_same_rest(start: Seq<u8>, a: Seq<u8>, b: Seq<u8>)
    requires
        start + a == start + b,
    ensures
        a == b,
{
    assert(a =~= (start + a).skip(start.len() as int));
    assert(b =~= (start + b).skip(start.len() as int));
}

/// The signed bytes of a relay authorisation encode one connection, requester, session and time and
/// no other, where the lengths fit in 32 bits.
pub proof fn lemma_auth_payload_binds(
    target_id: Seq<char>,
    uuid: Seq<char>,
    relay_server: Seq<char>,
    conn_type: i32,
    requester_id: Seq<char>,
    session_nonce: Seq<u8>,
    timestamp: i64,
    other_target_id: Seq<char>,
    other_uuid: Seq<char>,
    other_relay_server: Seq<char>,
    other_conn_type: i32,
    other_requester_id: Seq<char>,
    other_session_nonce: Seq<u8>,
    other_timestamp: i64,
)
    requires
        fits(encode_utf8(target_id)),
        fits(encode_utf8(uuid)),
        fits(encode_utf8(relay_server)),
        fits(encode_utf8(requester_id)),
        fits(session_nonce),
        fits(encode_utf8(other_target_id)),
        fits(encode_utf8(other_uuid)),
        fits(encode_utf8(other_relay_server)),
        fits(encode_utf8(other_requester_id)),
        fits(other_session_nonce),
        auth_payload(
            target_id,
            uuid,
            relay_server,
            conn_type,
            requester_id,
            session_nonce,
            timestamp,
        ) == auth_payload(
            other_target_id,
            other_uuid,
            other_relay_server,
            other_conn_type,
            other_requester_id,
            other_session_nonce,
            other_timestamp,
        ),
    ensures
        target_id == other_target_id,
        uuid == other_uuid,
        relay_server == other_relay_server,
        conn_type == other_conn_type,
        requester_id == other_requester_id,
        session_nonce == other_session_nonce,
        timestamp == other_timestamp,
{
    let context = field(encode_utf8(RELAY_AUTH_CONTEXT@));
    let none = Seq::<u8>::empty();
    let a6 = i64_field(timestamp) + none;
    let a5 = field(session_nonce) + a6;
    let a4 = field(encode_utf8(requester_id)) + a5;
    let a3 = i32_field(conn_type) + a4;
    let a2 = field(encode_utf8(relay_server)) + a3;
    let a1 = field(encode_utf8(uuid)) + a2;
    let a = field(encode_utf8(target_id)) + a1;
    let b6 = i64_field(other_timestamp) + none;
    let b5 = field(other_session_nonce) + b6;
    let b4 = field(encode_utf8(other_requester_id)) + b5;
    let b3 = i32_field(other_conn_type) + b4;
    let b2 = field(encode_utf8(other_relay_server)) + b3;
    let b1 = field(encode_utf8(other_uuid)) + b2;
    let b = field(encode_utf8(other_target_id)) + b1;
    lemma_eight_parts(
        context,
        field(encode_utf8(target_id)),
        field(encode_utf8(uuid)),
        field(encode_utf8(relay_server)),
        i32_field(conn_type),
        field(encode_utf8(requester_id)),
        field(session_nonce),
        i64_field(timestamp),
    );
    lemma_eight_parts(
        context,
        field(encode_utf8(other_target_id)),
        field(encode_utf8(other_uuid)),
        field(encode_utf8(other_relay_server)),
        i32_field(other_conn_type),
        field(encode_utf8(other_requester_id)),
        field(other_session_nonce),
        i64_field(other_timestamp),
    );
    lemma_same_rest(context, a, b);
    lemma_field_read_back(encode_utf8(target_id), a1, encode_utf8(other_target_id), b1);
    lemma_field_read_back(encode_utf8(uuid), a2, encode_utf8(other_uuid), b2);
    lemma_field_read_back(encode_utf8(relay_server), a3, encode_utf8(other_relay_server), b3);
    lemma_i32_read_back(conn_type, a4, other_conn_type, b4);
    lemma_field_read_back(encode_utf8(requester_id), a5, encode_utf8(other_requester_id), b5);
    lemma_field_read_back(session_nonce, a6, other_session_nonce, b6);
    lemma_i64_read_back(timestamp, none, other_timestamp, none);
    lemma_utf8_read_back(target_id, other_target_id);
    lemma_utf8_read_back(uuid, other_uuid);
    lemma_utf8_read_back(relay_server, other_relay_server);
    lemma_utf8_read_back(requester_id, other_requester_id);
}

/// The contexts differ from each other and are short.
proof fn lemma_contexts_differ()
    ensures
        fits(encode_utf8(DEVICE_LEASE_CONTEXT@)),
        fits(encode_utf8(IDENTITY_ROTATION_CONTEXT@)),
        fits(encode_utf8(RELAY_AUTH_CONTEXT@)),
        fits(encode_utf8(RELAY_TICKET_CONTEXT@)),
        encode_utf8(DEVICE_LEASE_CONTEXT@) != encode_utf8(IDENTITY_ROTATION_CONTEXT@),
        encode_utf8(DEVICE_LEASE_CONTEXT@) != encode_utf8(RELAY_AUTH_CONTEXT@),
        encode_utf8(DEVICE_LEASE_CONTEXT@) != encode_utf8(RELAY_TICKET_CONTEXT@),
        encode_utf8(IDENTITY_ROTATION_CONTEXT@) != encode_utf8(RELAY_AUTH_CONTEXT@),
        encode_utf8(IDENTITY_ROTATION_CONTEXT@) != encode_utf8(RELAY_TICKET_CONTEXT@),
        encode_utf8(RELAY_AUTH_CONTEXT@) != encode_utf8(RELAY_TICKET_CONTEXT@),
{
    reveal_strlit("masterdesk-device-lease-v1");
    reveal_strlit("masterdesk-identity-rotation-v1");
    reveal_strlit("masterdesk-relay-auth-v1");
    reveal_strlit("masterdesk-relay-ticket-v1");
    is_ascii_chars_encode_utf8(DEVICE_LEASE_CONTEXT@);
    is_ascii_chars_encode_utf8(IDENTITY_ROTATION_CONTEXT@);
    is_ascii_chars_encode_utf8(RELAY_AUTH_CONTEXT@);
    is_ascii_chars_encode_utf8(RELAY_TICKET_CONTEXT@);
    assert(DEVICE_LEASE_CONTEXT@[11] == 'd');
    assert(RELAY_TICKET_CONTEXT@[11] == 'r');
    assert(encode_utf8(DEVICE_LEASE_CONTEXT@)[11] != encode_utf8(RELAY_TICKET_CONTEXT@)[11]);
}

/// Payloads with different contexts differ.
proof fn lemma_context_tells(a: Seq<u8>, a_rest: Seq<u8>, b: Seq<u8>, b_rest: Seq<u8>)
    requires
        fits(a),
        fits(b),
        a != b,
    ensures
        field(a) + a_rest != field(b) + b_rest,
{
    if field(a) + a_rest == field(b) + b_rest {
        lemma_field_read_back(a, a_rest, b, b_rest);
    }
}

/// The signed bytes of a message of one kind encode no message of another kind: payloads of
/// different kinds differ, whatever they hold.
pub proof fn lemma_payload_kinds_differ(
    lease: (Seq<char>, Seq<u8>, Seq<u8>, i64),
    rotation: (Seq<char>, Seq<u8>, i64, Seq<u8>),
    auth: (Seq<char>, Seq<char>, Seq<char>, i32, Seq<char>, Seq<u8>, i64),
    ticket: RelayTicket,
)
    ensures
        ({
            let leased = lease_payload(lease.0, lease.1, lease.2, lease.3);
            let rotated = rotation_payload(rotation.0, rotation.1, rotation.2, rotation.3);
            let authorised = auth_payload(
                auth.0,
                auth.1,
                auth.2,
                auth.3,
                auth.4,
                auth.5,
                auth.6,
            );
            let ticketed = ticket_payload(ticket);
            &&& leased != rotated
            &&& leased != authorised
            &&& leased != ticketed
            &&& rotated != authorised
            &&& rotated != ticketed
            &&& authorised != ticketed
        }),
{
    lemma_contexts_differ();
    let leased = lease_payload(lease.0, lease.1, lease.2, lease.3);
    let rotated = rotation_payload(rotation.0, rotation.1, rotation.2, rotation.3);
    let authorised = auth_payload(auth.0, auth.1, auth.2, auth.3, auth.4, auth.5, auth.6);
    let ticketed = ticket_payload(ticket);
    let c = encode_utf8(DEVICE_LEASE_CONTEXT@);
    let d = encode_utf8(IDENTITY_ROTATION_CONTEXT@);
    let e = encode_utf8(RELAY_AUTH_CONTEXT@);
    let f = encode_utf8(RELAY_TICKET_CONTEXT@);
    let c_rest = leased.skip(field(c).len() as int);
    let d_rest = rotated.skip(field(d).len() as int);
    let e_rest = authorised.skip(field(e).len() as int);
    let f_rest = field(unsigned_bytes(ticket));
    assert(leased =~= field(c) + c_rest);
    assert(rotated =~= field(d) + d_rest);
    assert(authorised =~= field(e) + e_rest);
    lemma_context_tells(c, c_rest, d, d_rest);
    lemma_context_tells(c, c_rest, e, e_rest);
    lemma_context_tells(c, c_rest, f, f_rest);
    lemma_context_tells(d, d_rest, e, e_rest);
    lemma_context_tells(d, d_rest, f, f_rest);
    lemma_context_tells(e, e_rest, f, f_rest);
}

} // verus!
