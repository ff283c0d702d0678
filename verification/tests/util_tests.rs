use base64::Engine;
use hmac::{KeyInit, Mac};
use loom_storage::exchange::{exchange_posts, exchange_users};
use loom_storage::util::{hmac_bytes, mac_to_id_and_pass};

const SECRET: &[u8] = b"test-fleet-secret";
const MAC: [u8; 6] = [0x12, 0x34, 0x56, 0x78, 0x9A, 0xBC];

fn reference_hmac(key: &[u8], msg: &[u8]) -> Vec<u8> {
    let mut h = <hmac::Hmac<sha2::Sha256> as KeyInit>::new_from_slice(key).unwrap();
    h.update(msg);
    h.finalize().into_bytes().to_vec()
}

#[test]
fn hmac_bytes_binds_purpose_separator_and_mac() {
    let digest = hmac_bytes(SECRET, &MAC, b"id");
    let mut msg = Vec::new();
    msg.extend_from_slice(b"id");
    msg.push(0u8);
    msg.extend_from_slice(&MAC);
    assert_eq!(digest, reference_hmac(SECRET, &msg));
    assert_eq!(digest.len(), 32);
}

#[test]
fn hmac_bytes_depends_on_purpose() {
    let id = hmac_bytes(SECRET, &MAC, b"id");
    let pw = hmac_bytes(SECRET, &MAC, b"pw");
    assert_ne!(id, pw);
}

#[test]
fn mac_to_id_and_pass_matches_reference_derivation() {
    let (id, pass) = mac_to_id_and_pass(SECRET, MAC);

    let mut id_msg = Vec::new();
    id_msg.extend_from_slice(b"id");
    id_msg.push(0u8);
    id_msg.extend_from_slice(&MAC);
    let id_full = base32::encode(base32::Alphabet::Crockford, &reference_hmac(SECRET, &id_msg));
    assert_eq!(id, id_full[..8]);

    let mut pw_msg = Vec::new();
    pw_msg.extend_from_slice(b"pw");
    pw_msg.push(0u8);
    pw_msg.extend_from_slice(&MAC);
    let pw_full = base64::engine::general_purpose::URL_SAFE_NO_PAD
        .encode(reference_hmac(SECRET, &pw_msg));
    assert_eq!(pass, pw_full[..12]);
}

#[test]
fn mac_to_id_and_pass_has_fixed_lengths() {
    let (id, pass) = mac_to_id_and_pass(SECRET, MAC);
    assert_eq!(id.len(), 8);
    assert_eq!(pass.len(), 12);
}

#[test]
fn different_macs_get_different_credentials() {
    let (id_a, pass_a) = mac_to_id_and_pass(SECRET, MAC);
    let (id_b, pass_b) = mac_to_id_and_pass(SECRET, [1, 2, 3, 4, 5, 6]);
    assert_ne!(id_a, id_b);
    assert_ne!(pass_a, pass_b);
}

fn strings(items: &[&str]) -> Vec<String> {
    items.iter().map(|s| s.to_string()).collect()
}

#[test]
fn exchange_users_reports_both_directions() {
    let remote = strings(&["u1", "u2", "u3"]);
    let local = strings(&["u2", "u4"]);
    let (unknown_locally, unknown_remotely) = exchange_users(remote, local);
    assert_eq!(unknown_locally, strings(&["u1", "u3"]));
    assert_eq!(unknown_remotely, strings(&["u4"]));
}

#[test]
fn exchange_users_with_identical_sets_reports_nothing() {
    let remote = strings(&["a", "b"]);
    let local = strings(&["a", "b"]);
    let (unknown_locally, unknown_remotely) = exchange_users(remote, local);
    assert!(unknown_locally.is_empty());
    assert!(unknown_remotely.is_empty());
}

#[test]
fn exchange_posts_keeps_original_order() {
    let remote = strings(&["p9", "p1", "p5"]);
    let local = strings(&["p1"]);
    let (unknown_locally, unknown_remotely) = exchange_posts(remote, local);
    assert_eq!(unknown_locally, strings(&["p9", "p5"]));
    assert!(unknown_remotely.is_empty());
}

#[test]
fn exchange_with_empty_sides() {
    let (a, b) = exchange_users(strings(&["x"]), Vec::new());
    assert_eq!(a, strings(&["x"]));
    assert!(b.is_empty());
    let (c, d) = exchange_users(Vec::new(), strings(&["y"]));
    assert!(c.is_empty());
    assert_eq!(d, strings(&["y"]));
}
