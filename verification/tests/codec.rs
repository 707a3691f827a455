use postchain::address::{address_list_size, Address, IpAddress, ADDRESS_SIZE};
use postchain::message::{message_ping_size, Message};
use postchain::post::{hash_score, Body, Post, BODY_SIZE, POST_SIZE};
use postchain::seredere::{Deser, DeserError, Ser, VecU8Iterator};
use postchain::word::{Word, WORD_SIZE};

fn word_from_u64(x: u64) -> Word {
    let mut bytes = vec![0u8; WORD_SIZE];
    bytes[..8].copy_from_slice(&x.to_le_bytes());
    Word::from_le_bytes(bytes)
}

fn hex_bytes(s: &str) -> Vec<u8> {
    (0..s.len() / 2)
        .map(|i| u8::from_str_radix(&s[2 * i..2 * i + 2], 16).unwrap())
        .collect()
}

fn sample_addresses() -> Vec<Address> {
    // The endpoints 2804:d45:e0e5:8100:a42e:8a4:3e95:deaf and
    // 200.137.85.200, each with port 42000.
    vec![
        Address::IP(
            IpAddress::V6(0x2804, 0x0d45, 0xe0e5, 0x8100, 0xa42e, 0x08a4, 0x3e95, 0xdeaf),
            42000,
        ),
        Address::IP(IpAddress::V4(200, 137, 85, 200), 42000),
    ]
}

#[test]
fn test_u256_ser() {
    let bytes: Vec<u8> = vec![
        0, 1, 2, 3, 4, 5, 6, 7, 8, 9, 10, 11, 12, 13, 14, 15, 16, 17, 18, 19, 20, 21, 22, 23, 24,
        25, 26, 27, 28, 29, 30, 31,
    ];
    let v = Word::from_le_bytes(bytes);
    let iter = v.ser_iter().unwrap();
    for (i, b) in iter.iter().enumerate() {
        println!("{:2}: {:x}", i, b);
    }
    let encoded: Vec<u8> = v.ser_iter().unwrap();
    assert_eq!(encoded.len(), WORD_SIZE);

    let mut stream = VecU8Iterator::new(encoded);
    let result = Word::deser_from_iter(&mut stream);
    let reconstructed = result.unwrap();
    assert!(reconstructed.eq(&v));
}

#[test]
fn post_seredere() {
    let prev_arr: [u8; 32] = rand::random();
    let prev = Word::from_le_bytes(prev_arr.to_vec());

    let work = word_from_u64(0x04050607);
    let body = Body::new(vec![0x42; BODY_SIZE]);

    let post = Post::new(&prev, &work, &body);
    println!("POST: {:?}", post);

    let encoded: Vec<u8> = post.ser_iter().unwrap();

    println!("LEN: {:?}", encoded.len());
    assert_eq!(encoded.len(), POST_SIZE);

    println!("ENCODED:");
    for i in 0..encoded.len() {
        println!("{:4}: {:#04x}", i, encoded[i]);
    }

    let mut stream = VecU8Iterator::new(encoded);
    let reconstructed = Post::deser_from_iter(&mut stream).unwrap();
    assert_eq!(post, reconstructed);
    assert_eq!(post.hash(), post.hash());
    assert!(!stream.next().is_some());
}

#[test]
fn base_post_hash_score() {
    let prev = Word::from_le_bytes(vec![
        0, 1, 2, 3, 4, 5, 6, 7, 8, 9, 10, 11, 12, 13, 14, 15, 16, 17, 18, 19, 20, 21, 22, 23, 24,
        25, 26, 27, 28, 29, 30, 31,
    ]);
    let work = word_from_u64(0x04050607);
    let body = Body::new(vec![0x42; BODY_SIZE]);

    let post = Post::new(&prev, &work, &body);
    let hash = post.hash();
    println!("HASH: {:?}", hash);
    println!("SCORE: {:?}", hash_score(&hash));
}

#[test]
fn common_post_hash_score() {
    let prev = Word::from_le_bytes(vec![
        0, 1, 2, 3, 4, 5, 6, 7, 8, 9, 10, 11, 12, 13, 14, 15, 16, 17, 18, 19, 20, 21, 22, 23, 24,
        25, 26, 27, 28, 29, 30, 31,
    ]);
    let work = word_from_u64(0x04050607);
    let body = Body::new(vec![0x42; BODY_SIZE]);

    let post = Post::new(&prev, &work, &body);
    let hash = post.hash();
    println!("HASH: {:?}", hash);
    println!("SCORE: {:?}", hash_score(&hash));
}

#[test]
fn genesis_post_hash_is_zero() {
    let genesis = Post::default();
    assert_eq!(genesis.hash(), Word::zero());
}

#[test]
fn addresses_ser() {
    let addrs = sample_addresses();

    let encoded: Vec<u8> = addrs.ser_iter().unwrap();

    for i in 0..encoded.len() {
        println!("{:4}: {}", i, encoded[i]);
    }
    println!();

    assert_eq!(
        encoded,
        hex_bytes("0228040d45e0e58100a42e08a43e95deaf10a400000000000000000000ffffc88955c810a4")
    );

    let mut stream = VecU8Iterator::new(encoded);
    let reconstructed = Vec::<Address>::deser_from_iter(&mut stream).unwrap();

    assert_eq!(addrs, reconstructed);
}

#[test]
fn message_ping() {
    let addrs = sample_addresses();
    let message = Message::Ping(addrs);
    let encoded: Vec<u8> = message.ser_iter().unwrap();
    for i in 0..encoded.len() {
        println!("{:4}: {}", i, encoded[i]);
    }
    assert_eq!(encoded.len(), message_ping_size(2));
    assert_eq!(
        encoded,
        hex_bytes(
            "000228040d45e0e58100a42e08a43e95deaf10a400000000000000000000ffffc88955c810a4"
        )
    );
}

#[test]
fn address_list_two_entries_is_37_bytes() {
    let addrs = sample_addresses();
    let encoded = addrs.ser_iter().unwrap();
    assert_eq!(encoded.len(), 37);
    assert_eq!(encoded.len(), address_list_size(2));
    assert_eq!(encoded[0], 0x02);
}

#[test]
fn empty_address_list_round_trip() {
    let addrs: Vec<Address> = vec![];
    let encoded = addrs.ser_iter().unwrap();
    assert_eq!(encoded, vec![0u8]);
    let mut stream = VecU8Iterator::new(encoded);
    let reconstructed = Vec::<Address>::deser_from_iter(&mut stream).unwrap();
    assert!(reconstructed.is_empty());
}

#[test]
fn v4_address_round_trip_stays_v4() {
    let a = Address::IP(IpAddress::V4(127, 0, 0, 1), 8080);
    let encoded = a.ser_iter().unwrap();
    assert_eq!(encoded.len(), ADDRESS_SIZE);
    let mut stream = VecU8Iterator::new(encoded);
    let back = Address::deser_from_iter(&mut stream).unwrap();
    assert_eq!(a, back);
}

#[test]
fn v6_address_round_trip() {
    let a = Address::IP(IpAddress::V6(0xfe80, 0, 0, 0, 0x1234, 0x5678, 0x9abc, 0xdef0), 65535);
    let encoded = a.ser_iter().unwrap();
    let mut stream = VecU8Iterator::new(encoded);
    let back = Address::deser_from_iter(&mut stream).unwrap();
    assert_eq!(a, back);
}

#[test]
fn v4_mapped_v6_decodes_to_v4() {
    // A v6 value that carries the v4-mapped pattern comes back as the v4
    // address inside it: the canonical form.
    let a = Address::IP(IpAddress::V6(0, 0, 0, 0, 0, 0xffff, 0x0a00, 0x0001), 80);
    let encoded = a.ser_iter().unwrap();
    let mut stream = VecU8Iterator::new(encoded);
    let back = Address::deser_from_iter(&mut stream).unwrap();
    assert_eq!(back, Address::IP(IpAddress::V4(10, 0, 0, 1), 80));
}

#[test]
fn truncated_word_fails() {
    let mut stream = VecU8Iterator::new(vec![0u8; WORD_SIZE - 1]);
    assert_eq!(Word::deser_from_iter(&mut stream), Err(DeserError::UnexpectedEnd));
}

#[test]
fn truncated_post_fails() {
    let mut stream = VecU8Iterator::new(vec![0u8; POST_SIZE - 1]);
    assert!(matches!(Post::deser_from_iter(&mut stream), Err(DeserError::UnexpectedEnd)));
}

#[test]
fn truncated_address_fails() {
    let mut stream = VecU8Iterator::new(vec![0u8; ADDRESS_SIZE - 1]);
    assert!(matches!(Address::deser_from_iter(&mut stream), Err(DeserError::UnexpectedEnd)));
}

#[test]
fn truncated_address_list_fails() {
    // Count byte promises two addresses; only one follows.
    let mut bytes = vec![2u8];
    bytes.extend_from_slice(&[0u8; 18]);
    let mut stream = VecU8Iterator::new(bytes);
    assert!(matches!(
        Vec::<Address>::deser_from_iter(&mut stream),
        Err(DeserError::UnexpectedEnd)
    ));
}

#[test]
fn empty_message_fails() {
    let mut stream = VecU8Iterator::new(vec![]);
    assert!(matches!(Message::deser_from_iter(&mut stream), Err(DeserError::UnexpectedEnd)));
}

#[test]
fn unknown_discriminant_fails() {
    let mut stream = VecU8Iterator::new(vec![3u8, 0, 0, 0]);
    assert!(matches!(
        Message::deser_from_iter(&mut stream),
        Err(DeserError::InvalidDiscriminant)
    ));
}

#[test]
fn oversized_address_list_fails() {
    let addrs: Vec<Address> = (0..256)
        .map(|i| Address::IP(IpAddress::V4(10, 0, 0, (i % 256) as u8), 1))
        .collect();
    assert_eq!(addrs.ser_iter(), Err(DeserError::SizeExceeded));
    let message = Message::Ping(addrs);
    assert!(matches!(message.ser_iter(), Err(DeserError::SizeExceeded)));
}

#[test]
fn message_request_post_round_trip() {
    let hash = word_from_u64(0xdeadbeef);
    let message = Message::RequestPost(hash.clone());
    let encoded = message.ser_iter().unwrap();
    assert_eq!(encoded.len(), 1 + WORD_SIZE);
    assert_eq!(encoded[0], 1);
    let mut stream = VecU8Iterator::new(encoded);
    match Message::deser_from_iter(&mut stream).unwrap() {
        Message::RequestPost(w) => assert_eq!(w, hash),
        other => panic!("wrong variant: {:?}", other),
    }
}

#[test]
fn message_share_post_round_trip() {
    let post = Post::new(
        &word_from_u64(7),
        &word_from_u64(11),
        &Body::new(vec![0xab; BODY_SIZE]),
    );
    let message = Message::SharePost(post.clone());
    let encoded = message.ser_iter().unwrap();
    assert_eq!(encoded.len(), 1 + POST_SIZE);
    assert_eq!(encoded[0], 2);
    let mut stream = VecU8Iterator::new(encoded);
    match Message::deser_from_iter(&mut stream).unwrap() {
        Message::SharePost(p) => assert_eq!(p, post),
        other => panic!("wrong variant: {:?}", other),
    }
}

#[test]
fn message_ping_round_trip() {
    let addrs = sample_addresses();
    let message = Message::Ping(addrs.clone());
    let encoded = message.ser_iter().unwrap();
    assert_eq!(encoded[0], 0);
    let mut stream = VecU8Iterator::new(encoded);
    match Message::deser_from_iter(&mut stream).unwrap() {
        Message::Ping(l) => assert_eq!(l, addrs),
        other => panic!("wrong variant: {:?}", other),
    }
}
