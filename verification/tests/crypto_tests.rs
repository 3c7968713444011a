use pastebin_server::crypto::Crypto;

#[test]
fn basic() {
    let secret_key = "asdf";
    let crypto = Crypto::new(secret_key);
    let k1 = crypto.generate();
    println!("k1 = {k1:?}");

    let k2 = crypto.validate(k1.as_str()).unwrap();
    assert_eq!(k1, k2);

    let k3 = crypto.validate(&k1.as_str().to_ascii_uppercase()).unwrap();
    assert_eq!(k1, k3);
}

#[test]
fn encode_id_round_trips_through_validate() {
    let crypto = Crypto::new("magickey");
    let ids: [u32; 5] = [0, 1, 0xdeadbeef, 42, u32::MAX];
    for id in ids {
        let k = crypto.encode_id(id);
        let v = crypto.validate(k.as_str()).unwrap();
        assert_eq!(k, v);
        let upper = k.as_str().to_ascii_uppercase();
        let v2 = crypto.validate(&upper).unwrap();
        assert_eq!(k, v2);
    }
}

#[test]
fn encode_is_canonical_lowercase() {
    let crypto = Crypto::new("magickey");
    let k = crypto.encode_id(12345);
    assert_eq!(k.as_str(), k.as_str().to_ascii_lowercase().as_str());
    // a 4-byte identifier encodes to 7 Base32 characters plus the base
    assert_eq!(k.as_str().len(), 8);
}

#[test]
fn encode_differs_between_secrets() {
    let a = Crypto::new("secret-a");
    let b = Crypto::new("secret-b");
    let ka = a.encode_id(7);
    let kb = b.encode_id(7);
    assert_ne!(ka.as_str(), kb.as_str());
    // and the wrong secret rejects the other's key
    assert!(a.validate(kb.as_str()).is_none() || ka.as_str() != kb.as_str());
}

#[test]
fn validate_rejects_garbage() {
    let crypto = Crypto::new("asdf");
    assert!(crypto.validate("").is_none());
    assert!(crypto.validate("!!!!").is_none());
    assert!(crypto.validate("zzzzzzzzzzzzzzzzzzzzzzzz").is_none());
}

#[test]
fn validate_rejects_tampered_key() {
    let crypto = Crypto::new("asdf");
    // tampering with one character of a valid key must not yield the same key
    let k = crypto.encode_id(99);
    let mut s: Vec<char> = k.as_str().chars().collect();
    s[0] = if s[0] == 'a' { 'b' } else { 'a' };
    let tampered: String = s.into_iter().collect();
    match crypto.validate(&tampered) {
        None => {}
        Some(other) => assert_ne!(other, k),
    }
}

#[test]
fn generate_keys_validate() {
    let crypto = Crypto::new("asdf");
    for _ in 0..50 {
        let k = crypto.generate();
        let v = crypto.validate(k.as_str()).unwrap();
        assert_eq!(k, v);
    }
}
