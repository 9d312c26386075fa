use ate::crypto::{AteHash, EncryptKey, InitializationVector, KeyDerivation, PrivateSignKey};
use ed25519_dalek::Verifier;

#[test]
fn hash_matches_blake3_truncation() {
    let input = b"the chain of trust".to_vec();
    let h = AteHash::from_bytes(&input);
    let full = blake3::hash(&input);
    let mut first16 = [0u8; 16];
    first16.copy_from_slice(&full.as_bytes()[0..16]);
    assert_eq!(h.val, u128::from_le_bytes(first16));
    // digesting is not the identity and differs between inputs
    let h2 = AteHash::from_bytes(&b"the chain of trusT".to_vec());
    assert_ne!(h.val, h2.val);
}

#[test]
fn cipher_round_trips_and_scrambles() {
    let key = EncryptKey { val: 0x0123_4567_89AB_CDEF_0011_2233_4455_6677 };
    let iv = InitializationVector { bytes: vec![7u8; 16] };
    let data: Vec<u8> = (0..100u8).collect();
    let enc = key.encrypt_with_iv(&iv, &data);
    assert_eq!(enc.len(), data.len());
    assert_ne!(enc, data);
    let dec = key.decrypt(&iv, &enc);
    assert_eq!(dec, data);
    // a different key does not decrypt
    let other = EncryptKey { val: 1 };
    assert_ne!(other.decrypt(&iv, &enc), data);
}

#[test]
fn derivation_differs_from_base_key() {
    let base = EncryptKey { val: 1234 };
    let d = KeyDerivation { salt: 99 };
    let derived = d.transmute(&base);
    assert_ne!(derived.val, base.val);
    // deterministic
    assert_eq!(d.transmute(&base).val, derived.val);
}

#[test]
fn signing_key_matches_outside_verifier() {
    let seed = vec![3u8; 32];
    let sk = PrivateSignKey::new(seed.clone());
    let msg = b"sign me".to_vec();
    let sig = sk.sign(&msg);
    assert_eq!(sig.len(), 64);
    // the public half and the signature verify under ed25519 directly
    let dalek_sk = ed25519_dalek::SigningKey::from_bytes(&[3u8; 32]);
    let vk = dalek_sk.verifying_key();
    assert_eq!(sk.as_public_key().bytes, vk.to_bytes().to_vec());
    let sig_arr: [u8; 64] = sig.clone().try_into().unwrap();
    vk.verify(&msg, &ed25519_dalek::Signature::from_bytes(&sig_arr)).expect("verifies");
}

#[test]
fn fresh_nonces_differ() {
    let a = InitializationVector::generate();
    let b = InitializationVector::generate();
    assert_eq!(a.bytes.len(), 16);
    assert_ne!(a.bytes, b.bytes);
}
