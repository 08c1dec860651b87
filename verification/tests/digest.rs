use sha_1::sha::SHA1;

fn digest_of(data: &[u8]) -> String {
    SHA1::from_bytes(data.to_vec())
}

#[test]
fn empty_input_known_answer() {
    assert_eq!(digest_of(b""), "da39a3ee5e6b4b0d3255bfef95601890afd80709");
}

#[test]
fn abc_known_answer() {
    assert_eq!(digest_of(b"abc"), "a9993e364706816aba3e25717850c26c9cd0d89d");
}

#[test]
fn quick_brown_fox_known_answer() {
    assert_eq!(
        digest_of(b"The quick brown fox jumps over the lazy dog"),
        "2fd4e1c67a2d28fced849ee1bb76e7391b93eb12"
    );
}

#[test]
fn input_of_56_mod_64_bytes_takes_second_padding_block() {
    let msg = b"abcdbcdecdefdefgefghfghighijhijkijkljklmklmnlmnomnopnopq";
    assert_eq!(msg.len() % 64, 56);
    assert_eq!(digest_of(msg), "84983e441c3bd26ebaae4aa1f95129e5e54670f1");
}

#[test]
fn chunking_invariance_concrete() {
    let data: Vec<u8> = (0u32..200).map(|i| (i % 251) as u8).collect();
    let one_shot = digest_of(&data);

    let mut sha = SHA1::new();
    sha.process_chunk(&data[..64]);
    sha.process_chunk(&data[64..128]);
    sha.handle_message_end(data[128..].to_vec());
    assert_eq!(sha.prepare_final_hash(), one_shot);

    let mut sha2 = SHA1::new();
    sha2.process_chunk(&data[..128]);
    sha2.handle_message_end(data[128..].to_vec());
    assert_eq!(sha2.prepare_final_hash(), one_shot);
}

#[test]
fn full_block_input_still_gets_whole_extra_padding_block() {
    let data = vec![0x61u8; 64];
    let one_shot = digest_of(&data);

    let mut sha = SHA1::new();
    sha.process_chunk(&data);
    sha.handle_message_end(Vec::new());
    assert_eq!(sha.prepare_final_hash(), one_shot);
}

#[test]
fn digest_has_40_lowercase_hex_chars() {
    let d = digest_of(b"some input bytes");
    assert_eq!(d.len(), 40);
    assert!(d.chars().all(|c| c.is_ascii_hexdigit() && !c.is_ascii_uppercase()));
}

#[test]
fn digest_deterministic_across_streams() {
    assert_eq!(digest_of(b"twice fed"), digest_of(b"twice fed"));
}
