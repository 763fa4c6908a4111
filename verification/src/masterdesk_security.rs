//! Signed messages between devices, the rendezvous server and the relays.
//!
//! What is signed starts with a context that names the kind of message, and every part of
//! variable length carries its length, so that the signed bytes never encode two messages as long
//! as the lengths fit in 32 bits.
use crate::bytes::{append_bytes, append_i32, append_i64, append_str, field, i32_field, i64_field};
use crate::clock::is_clock_reading;
pub use crate::clock::{timestamp_from_elapsed, timestamp_is_fresh, unix_timestamp_secs};
use crate::sodium::{
    ed25519_accepts, ed25519_public_key, ed25519_signature, is_key_pair, is_signature,
    public_key_bytes, secret_key_bytes, signature_to_vec, starts_neutral,
};
use crate::text::same_bytes;
use sodiumoxide::crypto::sign;
use sodiumoxide::randombytes::randombytes;
use vstd::prelude::*;
use vstd::slice::slice_to_vec;
use vstd::utf8::encode_utf8;

verus! {

/// The context of a device lease.
pub const DEVICE_LEASE_CONTEXT: &'static str = "masterdesk-device-lease-v1";

/// The context of an identity rotation.
pub const IDENTITY_ROTATION_CONTEXT: &'static str = "masterdesk-identity-rotation-v1";

/// The context of a relay authorisation.
pub const RELAY_AUTH_CONTEXT: &'static str = "masterdesk-relay-auth-v1";

/// The context of a relay ticket.
pub const RELAY_TICKET_CONTEXT: &'static str = "masterdesk-relay-ticket-v1";

/// Random bytes, at most as many as libsodium gives at once on every platform.
pub fn random_nonce(length: usize) -> (nonce: Vec<u8>)
    requires
        length <= isize::MAX,
        length <= 0xffff_ffff,
    ensures
        nonce@.len() == length,
{
    randombytes(length)
}

/// The runtime nonce of a process, which is set at most once and has at least 16 bytes.
pub struct SessionNonce {
    nonce: Option<Vec<u8>>,
}

impl View for SessionNonce {
    type V = Option<Seq<u8>>;

    closed spec fn view(&self) -> Option<Seq<u8>> {
        match self.nonce {
            Some(nonce) => Some(nonce@),
            None => None,
        }
    }
}

impl SessionNonce {
    /// A nonce that is set has at least 16 bytes.
    #[verifier::type_invariant]
    spec fn is_long_enough(self) -> bool {
        self.nonce matches Some(nonce) ==> nonce@.len() >= 16
    }

    /// The nonce of a process that has not used one yet.
    pub fn new() -> (cell: SessionNonce)
        ensures
            cell@ is None,
    {
        SessionNonce { nonce: None }
    }
}

/// A process with the nonce `current` takes `offered` for its nonce: it is long enough, and no
/// other nonce is set.
pub open spec fn takes_nonce(current: Option<Seq<u8>>, offered: Seq<u8>) -> bool {
    offered.len() >= 16 && (current is None || current == Some(offered))
}

/// The nonce of a process with the nonce `current` to which `offered` was offered.
pub open spec fn nonce_after(current: Option<Seq<u8>>, offered: Seq<u8>) -> Option<Seq<u8>> {
    if takes_nonce(current, offered) {
        Some(offered)
    } else {
        current
    }
}

/// Once a nonce is set it cannot be replaced.
pub proof fn lemma_nonce_is_never_replaced(current: Seq<u8>, offered: Seq<u8>)
    ensures
        nonce_after(Some(current), offered) == Some(current),
        takes_nonce(Some(current), offered) ==> offered == current,
{
}

/// The nonce that a process took it takes again, and a nonce that it refused changes nothing.
pub proof fn lemma_nonce_offers_repeat(current: Option<Seq<u8>>, offered: Seq<u8>)
    ensures
        takes_nonce(current, offered) ==> takes_nonce(nonce_after(current, offered), offered),
        !takes_nonce(current, offered) ==> nonce_after(current, offered) == current,
        nonce_after(nonce_after(current, offered), offered) == nonce_after(current, offered),
{
}

/// The runtime nonce of this process: the one that is set, or else one of 32 random bytes, which
/// is set from then on.
pub fn process_session_nonce(cell: &mut SessionNonce) -> (nonce: &[u8])
    ensures
        final(cell)@ == Some(nonce@),
        old(cell)@ matches Some(current) ==> nonce@ == current,
        old(cell)@ is None ==> nonce@.len() == 32,
        nonce@.len() >= 16,
{
    proof {
        use_type_invariant(&*cell);
    }
    if cell.nonce.is_none() {
        cell.nonce = Some(random_nonce(32));
    }
    cell.nonce.as_ref().unwrap().as_slice()
}

/// Initializes this process with the nonce owned by the installed service.
///
/// MasterDesk is multi-process on Windows: the service can replace `--server` during a
/// console/RDP handoff, while one or more GUI processes keep running. Those processes must use
/// one runtime nonce or the server will correctly interpret them as cloned installations. This
/// remains fail-closed: once any code has consumed a locally generated nonce it cannot be
/// replaced.
pub fn initialize_process_session_nonce(cell: &mut SessionNonce, session_nonce: Vec<u8>) -> (set:
    bool)
    ensures
        set == takes_nonce(old(cell)@, session_nonce@),
        final(cell)@ == nonce_after(old(cell)@, session_nonce@),
        final(cell)@ matches Some(current) ==> current.len() >= 16,
{
    proof {
        use_type_invariant(&*cell);
    }
    if session_nonce.len() < 16 {
        return false;
    }
    if let Some(current) = &cell.nonce {
        return same_bytes(current.as_slice(), session_nonce.as_slice());
    }
    cell.nonce = Some(session_nonce);
    true
}

/// The secret key with the given bytes, if there are as many as a secret key has.
pub fn secret_key_from_bytes(value: &[u8]) -> (key: Option<sign::SecretKey>)
    ensures
        key is Some <==> value@.len() == 64,
        key matches Some(k) ==> secret_key_bytes(k) == value@,
{
    sign::SecretKey::from_slice(value)
}

/// The public key with the given bytes, if there are as many as a public key has.
pub fn public_key_from_bytes(value: &[u8]) -> (key: Option<sign::PublicKey>)
    ensures
        key is Some <==> value@.len() == 32,
        key matches Some(k) ==> public_key_bytes(k) == value@,
{
    sign::PublicKey::from_slice(value)
}

/// What a Base64 text with the standard alphabet and padding decodes to, if it is one.
pub uninterp spec fn base64_decoded(text: Seq<char>) -> Option<Seq<u8>>;

/// The error type of `base64`.
#[verifier::external_type_specification]
#[verifier::external_body]
pub struct ExDecodeError(base64::DecodeError);

/// `base64::decode` decodes a text with the standard alphabet and canonical padding. What it gives
/// is a function of the text.
#[allow(deprecated)]
#[verifier::external_body]
fn decode_base64(value: &str) -> (decoded: Result<Vec<u8>, base64::DecodeError>)
    ensures
        match decoded {
            Ok(bytes) => base64_decoded(value@) == Some(bytes@),
            Err(_) => base64_decoded(value@) is None,
        },
{
    base64::decode(value)
}

/// The public key whose bytes a Base64 text gives.
pub fn public_key_from_base64(value: &str) -> (key: Option<sign::PublicKey>)
    ensures
        key is Some <==> (base64_decoded(value@) matches Some(bytes) && bytes.len() == 32),
        key matches Some(k) ==> base64_decoded(value@) == Some(public_key_bytes(k)),
{
    match decode_base64(value) {
        Ok(bytes) => public_key_from_bytes(bytes.as_slice()),
        Err(_) => None,
    }
}

/// The key pair that is derived from a seed of 32 bytes.
pub fn key_pair_from_seed(seed: &[u8]) -> (pair: Option<(sign::PublicKey, sign::SecretKey)>)
    ensures
        pair is Some <==> seed@.len() == 32,
        pair matches Some((public_key, secret_key)) ==> {
            &&& public_key_bytes(public_key) == ed25519_public_key(seed@)
            &&& secret_key_bytes(secret_key) == seed@ + public_key_bytes(public_key)
            &&& is_key_pair(public_key_bytes(public_key), secret_key_bytes(secret_key))
        },
{
    match sign::Seed::from_slice(seed) {
        Some(s) => {
            let pair = sign::keypair_from_seed(&s);
            assert(secret_key_bytes(pair.1).take(32) =~= seed@);
            assert(secret_key_bytes(pair.1).skip(32) =~= public_key_bytes(pair.0));
            Some(pair)
        },
        None => None,
    }
}

/// A signature that a verifier with the public key `public_key` takes for `payload`.
pub open spec fn is_signed(payload: Seq<u8>, signature: Seq<u8>, public_key: Seq<u8>) -> bool {
    is_signature(signature) && ed25519_accepts(signature, payload, public_key)
}

/// Every public key that makes a pair with `secret_key` takes `signature` for `payload`, unless
/// its first half is the neutral element.
pub open spec fn pairs_accept(payload: Seq<u8>, signature: Seq<u8>, secret_key: Seq<u8>) -> bool {
    forall|public_key: Seq<u8>|
        is_key_pair(public_key, secret_key) && !starts_neutral(signature) ==> #[trigger] is_signed(
            payload,
            signature,
            public_key,
        )
}

/// The signature of a payload.
pub fn sign_payload(payload: &[u8], secret_key: &sign::SecretKey) -> (signature: Vec<u8>)
    ensures
        signature@ == ed25519_signature(payload@, secret_key_bytes(*secret_key)),
        is_signature(signature@),
        pairs_accept(payload@, signature@, secret_key_bytes(*secret_key)),
{
    let signature: sign::Signature = sign::sign_detached(payload, secret_key);
    signature_to_vec(&signature)
}

/// Whether bytes are a signature that is valid for a payload.
pub fn verify_payload(payload: &[u8], signature: &[u8], public_key: &sign::PublicKey) -> (valid:
    bool)
    ensures
        valid == is_signed(payload@, signature@, public_key_bytes(*public_key)),
        valid <==> signature@.len() == 64 && signature@[63] < 32 && ed25519_accepts(
            signature@,
            payload@,
            public_key_bytes(*public_key),
        ),
{
    match sign::Signature::from_bytes(signature) {
        Ok(signature) => sign::verify_detached(&signature, payload, public_key),
        Err(_) => false,
    }
}

/// A device's claim to its identifier for one session.
#[derive(Clone, Debug)]
pub struct DeviceLease {
    pub installation_id: Vec<u8>,
    pub session_nonce: Vec<u8>,
    pub timestamp: i64,
    pub signature: Vec<u8>,
}

/// What the signature of a device lease covers.
pub open spec fn lease_payload(
    id: Seq<char>,
    installation_id: Seq<u8>,
    session_nonce: Seq<u8>,
    timestamp: i64,
) -> Seq<u8> {
    field(encode_utf8(DEVICE_LEASE_CONTEXT@)) + field(encode_utf8(id)) + field(installation_id)
        + field(session_nonce) + i64_field(timestamp)
}

/// The device lease is signed for the identifier `id`.
pub open spec fn is_valid_lease(id: Seq<char>, lease: DeviceLease, public_key: Seq<u8>) -> bool {
    is_signed(
        lease_payload(id, lease.installation_id@, lease.session_nonce@, lease.timestamp),
        lease.signature@,
        public_key,
    )
}

/// What the signature of a device lease covers.
pub fn device_lease_payload(
    id: &str,
    installation_id: &[u8],
    session_nonce: &[u8],
    timestamp: i64,
) -> (payload: Vec<u8>)
    ensures
        payload@ == lease_payload(id@, installation_id@, session_nonce@, timestamp),
{
    let mut payload: Vec<u8> = Vec::new();
    append_str(&mut payload, DEVICE_LEASE_CONTEXT);
    append_str(&mut payload, id);
    append_bytes(&mut payload, installation_id);
    append_bytes(&mut payload, session_nonce);
    append_i64(&mut payload, timestamp);
    assert(payload@ =~= lease_payload(id@, installation_id@, session_nonce@, timestamp));
    payload
}

/// A device lease that is signed at the given time.
pub fn device_lease_at(
    id: &str,
    installation_id: &[u8],
    session_nonce: &[u8],
    timestamp: i64,
    secret_key: &sign::SecretKey,
) -> (lease: DeviceLease)
    ensures
        lease.installation_id@ == installation_id@,
        lease.session_nonce@ == session_nonce@,
        lease.timestamp == timestamp,
        is_signature(lease.signature@),
        lease.signature@ == ed25519_signature(
            lease_payload(id@, installation_id@, session_nonce@, timestamp),
            secret_key_bytes(*secret_key),
        ),
        forall|public_key: Seq<u8>|
            is_key_pair(public_key, secret_key_bytes(*secret_key)) && !starts_neutral(
                lease.signature@,
            ) ==> #[trigger] is_valid_lease(id@, lease, public_key),
{
    let payload: Vec<u8> = device_lease_payload(id, installation_id, session_nonce, timestamp);
    DeviceLease {
        installation_id: slice_to_vec(installation_id),
        session_nonce: slice_to_vec(session_nonce),
        timestamp,
        signature: sign_payload(payload.as_slice(), secret_key),
    }
}

/// A device lease that is signed now.
pub fn new_device_lease(
    id: &str,
    installation_id: &[u8],
    session_nonce: &[u8],
    secret_key: &sign::SecretKey,
) -> (lease: DeviceLease)
    ensures
        lease.installation_id@ == installation_id@,
        lease.session_nonce@ == session_nonce@,
        is_clock_reading(lease.timestamp),
        lease.timestamp >= 0,
        is_signature(lease.signature@),
        lease.signature@ == ed25519_signature(
            lease_payload(id@, installation_id@, session_nonce@, lease.timestamp),
            secret_key_bytes(*secret_key),
        ),
        forall|public_key: Seq<u8>|
            is_key_pair(public_key, secret_key_bytes(*secret_key)) && !starts_neutral(
                lease.signature@,
            ) ==> #[trigger] is_valid_lease(id@, lease, public_key),
{
    device_lease_at(id, installation_id, session_nonce, unix_timestamp_secs(), secret_key)
}

/// Whether a device lease is signed for the identifier `id`.
pub fn verify_device_lease(id: &str, lease: &DeviceLease, public_key: &sign::PublicKey) -> (valid:
    bool)
    ensures
        valid == is_valid_lease(id@, *lease, public_key_bytes(*public_key)),
{
    let payload: Vec<u8> = device_lease_payload(
        id,
        lease.installation_id.as_slice(),
        lease.session_nonce.as_slice(),
        lease.timestamp,
    );
    verify_payload(payload.as_slice(), lease.signature.as_slice(), public_key)
}

/// A device's request for a new identity.
#[derive(Clone, Debug)]
pub struct IdentityRotation {
    pub session_nonce: Vec<u8>,
    pub issued_at: i64,
    pub nonce: Vec<u8>,
    pub signature: Vec<u8>,
}

/// What the signature of an identity rotation covers.
pub open spec fn rotation_payload(
    id: Seq<char>,
    session_nonce: Seq<u8>,
    issued_at: i64,
    nonce: Seq<u8>,
) -> Seq<u8> {
    field(encode_utf8(IDENTITY_ROTATION_CONTEXT@)) + field(encode_utf8(id)) + field(session_nonce)
        + i64_field(issued_at) + field(nonce)
}

/// The identity rotation is signed for the identifier `id`.
pub open spec fn is_valid_rotation(
    id: Seq<char>,
    rotation: IdentityRotation,
    public_key: Seq<u8>,
) -> bool {
    is_signed(
        rotation_payload(id, rotation.session_nonce@, rotation.issued_at, rotation.nonce@),
        rotation.signature@,
        public_key,
    )
}

/// What the signature of an identity rotation covers.
pub fn identity_rotation_payload(
    id: &str,
    session_nonce: &[u8],
    issued_at: i64,
    nonce: &[u8],
) -> (payload: Vec<u8>)
    ensures
        payload@ == rotation_payload(id@, session_nonce@, issued_at, nonce@),
{
    let mut payload: Vec<u8> = Vec::new();
    append_str(&mut payload, IDENTITY_ROTATION_CONTEXT);
    append_str(&mut payload, id);
    append_bytes(&mut payload, session_nonce);
    append_i64(&mut payload, issued_at);
    append_bytes(&mut payload, nonce);
    assert(payload@ =~= rotation_payload(id@, session_nonce@, issued_at, nonce@));
    payload
}

/// An identity rotation that is signed at the given time, with the given nonce.
pub fn identity_rotation_at(
    id: &str,
    session_nonce: &[u8],
    issued_at: i64,
    nonce: Vec<u8>,
    secret_key: &sign::SecretKey,
) -> (rotation: IdentityRotation)
    ensures
        rotation.session_nonce@ == session_nonce@,
        rotation.issued_at == issued_at,
        rotation.nonce@ == nonce@,
        is_signature(rotation.signature@),
        rotation.signature@ == ed25519_signature(
            rotation_payload(id@, session_nonce@, issued_at, nonce@),
            secret_key_bytes(*secret_key),
        ),
        forall|public_key: Seq<u8>|
            is_key_pair(public_key, secret_key_bytes(*secret_key)) && !starts_neutral(
                rotation.signature@,
            ) ==> #[trigger] is_valid_rotation(id@, rotation, public_key),
{
    let payload: Vec<u8> = identity_rotation_payload(
        id,
        session_nonce,
        issued_at,
        nonce.as_slice(),
    );
    IdentityRotation {
        session_nonce: slice_to_vec(session_nonce),
        issued_at,
        nonce,
        signature: sign_payload(payload.as_slice(), secret_key),
    }
}

/// An identity rotation that is signed now, with a nonce of 24 random bytes.
pub fn new_identity_rotation(
    id: &str,
    session_nonce: &[u8],
    secret_key: &sign::SecretKey,
) -> (rotation: IdentityRotation)
    ensures
        rotation.session_nonce@ == session_nonce@,
        is_clock_reading(rotation.issued_at),
        rotation.issued_at >= 0,
        rotation.nonce@.len() == 24,
        is_signature(rotation.signature@),
        rotation.signature@ == ed25519_signature(
            rotation_payload(id@, session_nonce@, rotation.issued_at, rotation.nonce@),
            secret_key_bytes(*secret_key),
        ),
        forall|public_key: Seq<u8>|
            is_key_pair(public_key, secret_key_bytes(*secret_key)) && !starts_neutral(
                rotation.signature@,
            ) ==> #[trigger] is_valid_rotation(id@, rotation, public_key),
{
    let issued_at: i64 = unix_timestamp_secs();
    let nonce: Vec<u8> = random_nonce(24);
    identity_rotation_at(id, session_nonce, issued_at, nonce, secret_key)
}

/// Whether an identity rotation is signed for the identifier `id`.
pub fn verify_identity_rotation(
    id: &str,
    rotation: &IdentityRotation,
    public_key: &sign::PublicKey,
) -> (valid: bool)
    ensures
        valid == is_valid_rotation(id@, *rotation, public_key_bytes(*public_key)),
{
    let payload: Vec<u8> = identity_rotation_payload(
        id,
        rotation.session_nonce.as_slice(),
        rotation.issued_at,
        rotation.nonce.as_slice(),
    );
    verify_payload(payload.as_slice(), rotation.signature.as_slice(), public_key)
}

/// A controller's request to reach a device through a relay.
#[derive(Clone, Debug)]
pub struct RelayAuth {
    pub requester_id: String,
    pub session_nonce: Vec<u8>,
    pub timestamp: i64,
    pub signature: Vec<u8>,
}

/// What the signature of a relay authorisation covers.
pub open spec fn auth_payload(
    target_id: Seq<char>,
    uuid: Seq<char>,
    relay_server: Seq<char>,
    conn_type: i32,
    requester_id: Seq<char>,
    session_nonce: Seq<u8>,
    timestamp: i64,
) -> Seq<u8> {
    field(encode_utf8(RELAY_AUTH_CONTEXT@)) + field(encode_utf8(target_id)) + field(
        encode_utf8(uuid),
    ) + field(encode_utf8(relay_server)) + i32_field(conn_type) + field(encode_utf8(requester_id))
        + field(session_nonce) + i64_field(timestamp)
}

/// The relay authorisation is signed for this connection.
pub open spec fn is_valid_auth(
    target_id: Seq<char>,
    uuid: Seq<char>,
    relay_server: Seq<char>,
    conn_type: i32,
    auth: RelayAuth,
    public_key: Seq<u8>,
) -> bool {
    is_signed(
        auth_payload(
            target_id,
            uuid,
            relay_server,
            conn_type,
            auth.requester_id@,
            auth.session_nonce@,
            auth.timestamp,
        ),
        auth.signature@,
        public_key,
    )
}

/// What the signature of a relay authorisation covers.
pub fn relay_auth_payload(
    target_id: &str,
    uuid: &str,
    relay_server: &str,
    conn_type: i32,
    requester_id: &str,
    session_nonce: &[u8],
    timestamp: i64,
) -> (payload: Vec<u8>)
    ensures
        payload@ == auth_payload(
            target_id@,
            uuid@,
            relay_server@,
            conn_type,
            requester_id@,
            session_nonce@,
            timestamp,
        ),
{
    let mut payload: Vec<u8> = Vec::new();
    append_str(&mut payload, RELAY_AUTH_CONTEXT);
    append_str(&mut payload, target_id);
    append_str(&mut payload, uuid);
    append_str(&mut payload, relay_server);
    append_i32(&mut payload, conn_type);
    append_str(&mut payload, requester_id);
    append_bytes(&mut payload, session_nonce);
    append_i64(&mut payload, timestamp);
    assert(payload@ =~= auth_payload(
        target_id@,
        uuid@,
        relay_server@,
        conn_type,
        requester_id@,
        session_nonce@,
        timestamp,
    ));
    payload
}

/// A relay authorisation that is signed at the given time.
pub fn relay_auth_at(
    target_id: &str,
    uuid: &str,
    relay_server: &str,
    conn_type: i32,
    requester_id: &str,
    session_nonce: &[u8],
    timestamp: i64,
    secret_key: &sign::SecretKey,
) -> (auth: RelayAuth)
    ensures
        auth.requester_id@ == requester_id@,
        auth.session_nonce@ == session_nonce@,
        auth.timestamp == timestamp,
        is_signature(auth.signature@),
        auth.signature@ == ed25519_signature(
            auth_payload(
                target_id@,
                uuid@,
                relay_server@,
                conn_type,
                requester_id@,
                session_nonce@,
                timestamp,
            ),
            secret_key_bytes(*secret_key),
        ),
        forall|public_key: Seq<u8>|
            is_key_pair(public_key, secret_key_bytes(*secret_key)) && !starts_neutral(
                auth.signature@,
            ) ==> #[trigger] is_valid_auth(
                target_id@,
                uuid@,
                relay_server@,
                conn_type,
                auth,
                public_key,
            ),
{
    let payload: Vec<u8> = relay_auth_payload(
        target_id,
        uuid,
        relay_server,
        conn_type,
        requester_id,
        session_nonce,
        timestamp,
    );
    RelayAuth {
        requester_id: requester_id.to_owned(),
        session_nonce: slice_to_vec(session_nonce),
        timestamp,
        signature: sign_payload(payload.as_slice(), secret_key),
    }
}

/// A relay authorisation that is signed now.
pub fn new_relay_auth(
    target_id: &str,
    uuid: &str,
    relay_server: &str,
    conn_type: i32,
    requester_id: &str,
    session_nonce: &[u8],
    secret_key: &sign::SecretKey,
) -> (auth: RelayAuth)
    ensures
        auth.requester_id@ == requester_id@,
        auth.session_nonce@ == session_nonce@,
        is_clock_reading(auth.timestamp),
        auth.timestamp >= 0,
        is_signature(auth.signature@),
        auth.signature@ == ed25519_signature(
            auth_payload(
                target_id@,
                uuid@,
                relay_server@,
                conn_type,
                requester_id@,
                session_nonce@,
                auth.timestamp,
            ),
            secret_key_bytes(*secret_key),
        ),
        forall|public_key: Seq<u8>|
            is_key_pair(public_key, secret_key_bytes(*secret_key)) && !starts_neutral(
                auth.signature@,
            ) ==> #[trigger] is_valid_auth(
                target_id@,
                uuid@,
                relay_server@,
                conn_type,
                auth,
                public_key,
            ),
{
    relay_auth_at(
        target_id,
        uuid,
        relay_server,
        conn_type,
        requester_id,
        session_nonce,
        unix_timestamp_secs(),
        secret_key,
    )
}

/// Whether a relay authorisation is signed for this connection.
pub fn verify_relay_auth(
    target_id: &str,
    uuid: &str,
    relay_server: &str,
    conn_type: i32,
    auth: &RelayAuth,
    public_key: &sign::PublicKey,
) -> (valid: bool)
    ensures
        valid == is_valid_auth(
            target_id@,
            uuid@,
            relay_server@,
            conn_type,
            *auth,
            public_key_bytes(*public_key),
        ),
{
    let payload: Vec<u8> = relay_auth_payload(
        target_id,
        uuid,
        relay_server,
        conn_type,
        auth.requester_id.as_str(),
        auth.session_nonce.as_slice(),
        auth.timestamp,
    );
    verify_payload(payload.as_slice(), auth.signature.as_slice(), public_key)
}

} // verus!
