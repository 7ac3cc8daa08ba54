use instpay::phonekey::{gen_keypair_from_phone, get_phone_pub_address, Network};
use ripemd::Digest;

#[test]
fn derivation_is_deterministic() {
    let phone = b"+1-555-0123".to_vec();
    let kp1 = gen_keypair_from_phone(&phone).expect("derivation should succeed");
    let kp2 = gen_keypair_from_phone(&phone).expect("derivation should succeed");
    assert_eq!(kp1.secret, kp2.secret);
    assert_eq!(kp1.public, kp2.public);
    assert_eq!(kp1.network, kp2.network);
    assert_eq!(kp1.compressed, kp2.compressed);
    let a1 = get_phone_pub_address(&phone).expect("address should derive");
    let a2 = get_phone_pub_address(&phone).expect("address should derive");
    assert_eq!(a1, a2);
}

#[test]
fn keypair_shape_matches_design() {
    let phone = b"5550100".to_vec();
    let kp = gen_keypair_from_phone(&phone).expect("derivation should succeed");
    assert_eq!(kp.secret.len(), 32);
    assert_eq!(kp.public.len(), 65);
    // An uncompressed public key starts with the 0x04 marker.
    assert_eq!(kp.public[0], 0x04);
    assert_eq!(kp.network, Network::Testnet);
    assert!(!kp.compressed);
}

#[test]
fn secret_is_sha512_prefix_of_phone() {
    let phone = b"5550123".to_vec();
    let kp = gen_keypair_from_phone(&phone).expect("derivation should succeed");
    let digest = ring::digest::digest(&ring::digest::SHA512, &phone);
    assert_eq!(kp.secret.as_slice(), &digest.as_ref()[0..32]);
}

#[test]
fn distinct_phones_give_distinct_addresses() {
    let mut addresses = std::collections::BTreeSet::new();
    let mut count = 0usize;
    for i in 0..200u32 {
        let phone = format!("+1-555-{:04}", i).into_bytes();
        let addr = get_phone_pub_address(&phone).expect("address should derive");
        addresses.insert(addr);
        count += 1;
    }
    assert_eq!(addresses.len(), count);
}

#[test]
fn address_matches_base58_check_of_key_hash() {
    let phone = b"+44 20 7946 0958".to_vec();
    let kp = gen_keypair_from_phone(&phone).expect("derivation should succeed");
    let addr = get_phone_pub_address(&phone).expect("address should derive");

    // Rebuild the expected encoding directly from the outside crates.
    let sha = ring::digest::digest(&ring::digest::SHA256, &kp.public);
    let hash160 = ripemd::Ripemd160::digest(sha.as_ref());
    let mut payload = vec![111u8];
    payload.extend_from_slice(&hash160);
    let c1 = ring::digest::digest(&ring::digest::SHA256, &payload);
    let c2 = ring::digest::digest(&ring::digest::SHA256, c1.as_ref());
    payload.extend_from_slice(&c2.as_ref()[0..4]);
    let expected = bs58::encode(&payload).into_string();
    assert_eq!(addr, expected);
}

#[test]
fn address_hash_is_twenty_bytes() {
    let phone = b"18005550199".to_vec();
    let kp = gen_keypair_from_phone(&phone).expect("derivation should succeed");
    let addr = kp.address();
    assert_eq!(addr.hash.len(), 20);
    assert_eq!(addr.network, Network::Testnet);
}
