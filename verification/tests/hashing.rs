use ed448_rust::hash::digest;
use ed448_rust::{shake256, Ed448Error, PreHash, PrivateKey};

#[test]
fn pure_variant_signs_the_message_itself() {
    assert_eq!(digest(b"abc", PreHash::False), b"abc".to_vec());
    assert_eq!(digest(b"", PreHash::False), Vec::<u8>::new());
}

#[test]
fn pre_hash_is_shake256_to_64_bytes() {
    assert_eq!(
        digest(b"abc", PreHash::True),
        hex::decode(
            "483366601360a8771c6863080cc4114d8db44530f8f1e1ee4f94ea37e78b5739\
             d5a15bef186a5386c75744c0527e1faa9f8726e462a12a4feb06bd8801e751e4"
        )
        .unwrap()
    );
    assert_eq!(
        digest(b"", PreHash::True),
        hex::decode(
            "46b9dd2b0ba88d13233b3feb743eeb243fcd52ea62b81b82b50c27646ed5762f\
             d75dc4ddd8c0f200cb05019d67b592f6fc821c49479ab48640292eacb3b7c4be"
        )
        .unwrap()
    );
}

#[test]
fn hash_with_context_and_buffers() {
    let out = shake256(vec![&b"ab"[..], &b"cd"[..]], b"foo", PreHash::False).unwrap();
    assert_eq!(
        out,
        hex::decode(
            "c261abe10840992bd9b939e5a10df0cc714a7d6862983dc30c8918625abdd2be23064672ba8c80db5de81dd4\
             82d8b2c92a920307cde734f3f8e8c673e2f6eebc1e340d58e30eb4b0e4fb584f61a0a6439b8d7a4c19acba26\
             1688266589f931ff7f7f7ac5cbe8a167b7f3c7c95f4af7081c22"
        )
        .unwrap()
    );
    // how the input is cut into buffers does not matter
    let whole = shake256(vec![&b"abcd"[..]], b"foo", PreHash::False).unwrap();
    assert_eq!(whole, out);
    let pieces = shake256(vec![&b"a"[..], &b""[..], &b"bcd"[..]], b"foo", PreHash::False).unwrap();
    assert_eq!(pieces, out);
}

#[test]
fn hash_of_the_pre_hashed_variant() {
    let out = shake256(vec![&b"xyz"[..]], b"", PreHash::True).unwrap();
    assert_eq!(out.len(), 114);
    assert_eq!(
        out,
        hex::decode(
            "4e9555eeb7104f683f07c1dbb5b7721a5463c68a0a06d0a95611362c5c707ab1e068a44e32641b8fe04364cb\
             c086bbddcc50c9ca978988c86a593fc2b5d3f957652b239a0d0ebe58d1a67ccad2cd2b5a9108a04e58175a04\
             d2b63a959e9291485309c4fe35842dad01aef29c9861ec4bba40"
        )
        .unwrap()
    );
    let pure = shake256(vec![&b"xyz"[..]], b"", PreHash::False).unwrap();
    assert_ne!(pure, out);
}

#[test]
fn hash_refuses_a_long_context() {
    assert_eq!(shake256(vec![], &[0u8; 256], PreHash::False), Err(Ed448Error::ContextTooLong));
    assert_eq!(shake256(vec![], &[0u8; 300], PreHash::True), Err(Ed448Error::ContextTooLong));
    assert_eq!(shake256(vec![], &[0u8; 255], PreHash::False).unwrap().len(), 114);
}

#[test]
fn seed_expansion() {
    let mut seed = [0u8; 57];
    for (i, b) in seed.iter_mut().enumerate() {
        *b = i as u8;
    }
    let key = PrivateKey::from(seed);
    assert_eq!(key.as_bytes(), &seed);
    let (s, prefix) = key.expand();
    assert_eq!(
        s.to_bytes().to_vec(),
        hex::decode("0411d38f9076da316fb9addcfe25f7c4d9403d125f3ef899409bed928bb9a30aeb9769b3b47ceba0d14ed5d7563ec01147fd18ab67cca29500").unwrap()
    );
    assert_eq!(
        prefix.to_vec(),
        hex::decode("7e18098f333493569bd1e9d0c27deeaea25206b44674c6ee8520adbe3bfb5b8a1b72a2af0bb1be3b0f304d4f3b6589c6f73631bd83cabcb6fc").unwrap()
    );
}
