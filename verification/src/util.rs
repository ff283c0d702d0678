use vstd::prelude::*;

use vstd::string::StrSliceExecFns;

verus! {

broadcast use vstd::std_specs::vec::group_vec_axioms;

/// What HMAC-SHA-256 computes on a key and a message: a fixed function of
/// the two byte strings alone, the same in every process and on every
/// machine.
pub uninterp spec fn hmac_sha256(key: Seq<u8>, msg: Seq<u8>) -> Seq<u8>;

/// Relies on hmac's `Hmac<Sha256>`: the MAC accepts keys of any length,
/// its digest depends on the key and message bytes alone, and a SHA-256
/// digest is 32 bytes long.
#[verifier::external_body]
fn hmac_sha256_digest(key: &[u8], msg: &[u8]) -> (r: Vec<u8>)
    ensures
        r@ == hmac_sha256(key@, msg@),
        r@.len() == 32,
{
    let mut h = <hmac::Hmac<sha2::Sha256> as hmac::KeyInit>::new_from_slice(key)
        .expect("HMAC accepts keys of any length");
    hmac::Mac::update(&mut h, msg);
    hmac::Mac::finalize(h).into_bytes().to_vec()
}

/// What base32 encoding with the Crockford alphabet produces on a byte
/// string: a fixed function of the input alone.
pub uninterp spec fn base32_crockford(data: Seq<u8>) -> Seq<char>;

/// Relies on base32's `encode` with `Alphabet::Crockford`: the encoding
/// depends on the input bytes alone, and without padding it emits one
/// character per 5 bits of input, rounded up.
#[verifier::external_body]
fn base32_crockford_encode(data: &[u8]) -> (r: String)
    ensures
        r@ == base32_crockford(data@),
        r@.len() == (data@.len() * 8 + 4) / 5,
{
    base32::encode(base32::Alphabet::Crockford, data)
}

/// What base64 encoding with the URL-safe alphabet and no padding
/// produces on a byte string: a fixed function of the input alone.
pub uninterp spec fn base64_url_nopad(data: Seq<u8>) -> Seq<char>;

/// Relies on base64's `URL_SAFE_NO_PAD` engine: the encoding depends on
/// the input bytes alone, and without padding it emits one character per
/// 6 bits of input, rounded up.
#[verifier::external_body]
fn base64_url_nopad_encode(data: &[u8]) -> (r: String)
    ensures
        r@ == base64_url_nopad(data@),
        r@.len() == (data@.len() * 4 + 2) / 3,
{
    base64::Engine::encode(&base64::engine::general_purpose::URL_SAFE_NO_PAD, data)
}

/// The message over which a device credential digest is computed: the
/// purpose tag, one zero byte as a separator, then the 6-byte hardware
/// address.
pub open spec fn credential_msg(purpose: Seq<u8>, mac: Seq<u8>) -> Seq<u8> {
    purpose + seq![0u8] + mac
}

/// The HMAC-SHA-256 digest binding a device's hardware address to a
/// purpose tag under the fleet secret.
pub fn hmac_bytes(secret: &[u8], mac: &[u8; 6], purpose: &[u8]) -> (r: Vec<u8>)
    ensures
        r@ == hmac_sha256(secret@, credential_msg(purpose@, mac@)),
        r@.len() == 32,
{
    let mut msg: Vec<u8> = Vec::new();
    msg.extend_from_slice(purpose);
    msg.push(0u8);
    msg.extend_from_slice(vstd::array::array_as_slice(mac));
    proof {
        assert(msg@ =~= credential_msg(purpose@, mac@));
    }
    hmac_sha256_digest(secret, msg.as_slice())
}

/// The purpose tag of the device identifier: the bytes of `"id"`.
pub open spec fn id_purpose() -> Seq<u8> {
    seq![105u8, 100u8]
}

/// The purpose tag of the device password: the bytes of `"pw"`.
pub open spec fn pw_purpose() -> Seq<u8> {
    seq![112u8, 119u8]
}

/// Derives a device's network identifier and password from its hardware
/// address and the fleet secret: the identifier is the first 8 characters
/// of the Crockford-base32 form of one purpose-bound digest, the password
/// the first 12 characters of the URL-safe base64 form of another.
pub fn mac_to_id_and_pass(secret: &[u8], mac: [u8; 6]) -> (r: (String, String))
    ensures
        r.0@ == base32_crockford(hmac_sha256(secret@, credential_msg(id_purpose(), mac@))).take(8),
        r.1@ == base64_url_nopad(hmac_sha256(secret@, credential_msg(pw_purpose(), mac@))).take(
            12,
        ),
{
    let mut id_tag: Vec<u8> = Vec::new();
    id_tag.push(105u8);
    id_tag.push(100u8);
    proof {
        assert(id_tag@ =~= id_purpose());
    }
    let id_digest = hmac_bytes(secret, &mac, id_tag.as_slice());
    let id_full = base32_crockford_encode(id_digest.as_slice());
    let id = id_full.as_str().substring_char(0, 8).to_owned();
    proof {
        assert(id@ =~= base32_crockford(
            hmac_sha256(secret@, credential_msg(id_purpose(), mac@)),
        ).take(8));
    }
    let mut pw_tag: Vec<u8> = Vec::new();
    pw_tag.push(112u8);
    pw_tag.push(119u8);
    proof {
        assert(pw_tag@ =~= pw_purpose());
    }
    let pw_digest = hmac_bytes(secret, &mac, pw_tag.as_slice());
    let pw_full = base64_url_nopad_encode(pw_digest.as_slice());
    let pass = pw_full.as_str().substring_char(0, 12).to_owned();
    proof {
        assert(pass@ =~= base64_url_nopad(
            hmac_sha256(secret@, credential_msg(pw_purpose(), mac@)),
        ).take(12));
    }
    (id, pass)
}

} // verus!
