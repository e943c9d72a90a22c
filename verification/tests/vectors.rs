use chaskey::{Context, KeyData};

fn counting(n: usize) -> Vec<u8> {
    let mut m: Vec<u8> = Vec::new();
    let mut i: usize = 0;
    while i < n {
        m.push((i % 256) as u8);
        i += 1;
    }
    m
}

fn tag_of(key: KeyData, msg: &[u8]) -> [u8; 16] {
    let mut c: Context = Context::from_key(key);
    c.process(msg);
    c.commit();
    *c.tag()
}

const KEY: KeyData = [0x833d3433, 0x009f389f, 0x2398e64f, 0x417acf39];
const SECOND_KEY: KeyData = [0x833d3433, 0x009669a2, 0xe0fa72b4, 0x68067688];

#[test]
fn key_message_of_0_bytes() {
    let expected: [u8; 16] = [0x41, 0x1f, 0xcb, 0x43, 0xc2, 0xa0, 0xeb, 0x51, 0xc3, 0x8a, 0x0a, 0xff, 0x42, 0xf6, 0xe3, 0x7e];
    assert_eq!(tag_of(KEY, &counting(0)), expected);
}

#[test]
fn key_message_of_1_bytes() {
    let expected: [u8; 16] = [0x67, 0x20, 0xac, 0xf9, 0x46, 0xa8, 0x35, 0x9c, 0x3d, 0xad, 0x1a, 0x44, 0x30, 0x73, 0x7b, 0x77];
    assert_eq!(tag_of(KEY, &counting(1)), expected);
}

#[test]
fn key_message_of_15_bytes() {
    let expected: [u8; 16] = [0x4b, 0xb4, 0xcf, 0x03, 0x63, 0x81, 0x3c, 0x28, 0x48, 0x14, 0xa7, 0xfc, 0xea, 0x0a, 0x0a, 0xc4];
    assert_eq!(tag_of(KEY, &counting(15)), expected);
}

#[test]
fn key_message_of_16_bytes() {
    let expected: [u8; 16] = [0xa9, 0xe2, 0xd0, 0x5d, 0x8c, 0xac, 0x5e, 0xfb, 0x2e, 0x39, 0x3a, 0x63, 0xf3, 0x36, 0x0c, 0x50];
    assert_eq!(tag_of(KEY, &counting(16)), expected);
}

#[test]
fn key_message_of_17_bytes() {
    let expected: [u8; 16] = [0x5a, 0x6d, 0x5f, 0x8b, 0xf6, 0x14, 0x23, 0x20, 0x68, 0x23, 0x09, 0x22, 0x06, 0xe6, 0x39, 0x96];
    assert_eq!(tag_of(KEY, &counting(17)), expected);
}

#[test]
fn key_message_of_31_bytes() {
    let expected: [u8; 16] = [0xb1, 0x30, 0x3d, 0x1d, 0xca, 0x4f, 0xd7, 0x01, 0x4c, 0xb5, 0x2e, 0x3b, 0xb4, 0x36, 0xcd, 0xd8];
    assert_eq!(tag_of(KEY, &counting(31)), expected);
}

#[test]
fn key_message_of_32_bytes() {
    let expected: [u8; 16] = [0x84, 0x27, 0x96, 0x77, 0xfa, 0x47, 0xc6, 0x07, 0x0f, 0x2c, 0x75, 0xdd, 0x99, 0xa7, 0xf5, 0xd2];
    assert_eq!(tag_of(KEY, &counting(32)), expected);
}

#[test]
fn key_message_of_33_bytes() {
    let expected: [u8; 16] = [0x67, 0xb8, 0x4b, 0xd7, 0x3a, 0xfb, 0x0d, 0x2c, 0xcd, 0xe9, 0x97, 0xb6, 0xda, 0xed, 0x58, 0x56];
    assert_eq!(tag_of(KEY, &counting(33)), expected);
}

#[test]
fn key_message_of_48_bytes() {
    let expected: [u8; 16] = [0x8b, 0x74, 0x6e, 0xf3, 0x7f, 0x67, 0x34, 0x8f, 0x1b, 0xba, 0x00, 0x1e, 0x6d, 0xa4, 0x7d, 0xdd];
    assert_eq!(tag_of(KEY, &counting(48)), expected);
}

#[test]
fn key_message_of_64_bytes() {
    let expected: [u8; 16] = [0xbd, 0x9e, 0xdb, 0x9f, 0x2c, 0x55, 0x17, 0x54, 0x23, 0x60, 0x75, 0xbe, 0x2b, 0xd1, 0x95, 0xf9];
    assert_eq!(tag_of(KEY, &counting(64)), expected);
}

#[test]
fn key_message_of_100_bytes() {
    let expected: [u8; 16] = [0xcf, 0xfc, 0x23, 0xa4, 0x53, 0x37, 0x72, 0x75, 0x5c, 0xe8, 0x94, 0xb1, 0x80, 0xbc, 0xb3, 0x98];
    assert_eq!(tag_of(KEY, &counting(100)), expected);
}

#[test]
fn second_key_message_of_0_bytes() {
    let expected: [u8; 16] = [0xb9, 0xd0, 0xc2, 0xff, 0xd0, 0xd8, 0x7e, 0x4c, 0x70, 0x38, 0x4f, 0xcb, 0x22, 0x6e, 0xd0, 0x67];
    assert_eq!(tag_of(SECOND_KEY, &counting(0)), expected);
}

#[test]
fn second_key_message_of_1_bytes() {
    let expected: [u8; 16] = [0xd2, 0x45, 0x63, 0xf9, 0x0f, 0xb8, 0x9b, 0xa7, 0x88, 0x37, 0x85, 0xf9, 0x0f, 0xfd, 0x09, 0x54];
    assert_eq!(tag_of(SECOND_KEY, &counting(1)), expected);
}

#[test]
fn second_key_message_of_15_bytes() {
    let expected: [u8; 16] = [0xba, 0xc9, 0x4c, 0x1e, 0xdf, 0x07, 0x9a, 0xad, 0xfa, 0x2a, 0xf9, 0xdc, 0xee, 0x91, 0x07, 0xf1];
    assert_eq!(tag_of(SECOND_KEY, &counting(15)), expected);
}

#[test]
fn second_key_message_of_16_bytes() {
    let expected: [u8; 16] = [0x0d, 0x75, 0xd5, 0xa9, 0x66, 0x3c, 0xe5, 0x59, 0xcc, 0x8e, 0x41, 0xb6, 0x1c, 0xdf, 0x2b, 0x29];
    assert_eq!(tag_of(SECOND_KEY, &counting(16)), expected);
}

#[test]
fn second_key_message_of_17_bytes() {
    let expected: [u8; 16] = [0x66, 0xe8, 0xd6, 0xbf, 0x2b, 0x28, 0x5b, 0x37, 0xa1, 0x34, 0xbf, 0x1b, 0x7f, 0xf2, 0x17, 0x6c];
    assert_eq!(tag_of(SECOND_KEY, &counting(17)), expected);
}

#[test]
fn second_key_message_of_31_bytes() {
    let expected: [u8; 16] = [0xf6, 0xa4, 0xe0, 0x56, 0x04, 0x70, 0x20, 0x8e, 0xf0, 0xed, 0xe6, 0x2e, 0xda, 0x3a, 0x7c, 0xb4];
    assert_eq!(tag_of(SECOND_KEY, &counting(31)), expected);
}

#[test]
fn second_key_message_of_32_bytes() {
    let expected: [u8; 16] = [0x9a, 0x11, 0x95, 0xcf, 0x9a, 0xee, 0xdf, 0x7f, 0x9f, 0x3f, 0xae, 0xeb, 0x21, 0xb2, 0xb1, 0x61];
    assert_eq!(tag_of(SECOND_KEY, &counting(32)), expected);
}

#[test]
fn second_key_message_of_33_bytes() {
    let expected: [u8; 16] = [0x58, 0x91, 0x61, 0xe3, 0xe6, 0x56, 0x3f, 0x65, 0x09, 0xfe, 0xc4, 0xdb, 0xe3, 0x5c, 0x25, 0xc2];
    assert_eq!(tag_of(SECOND_KEY, &counting(33)), expected);
}

#[test]
fn second_key_message_of_48_bytes() {
    let expected: [u8; 16] = [0xdd, 0xea, 0x18, 0xe0, 0x98, 0x02, 0xbf, 0x92, 0x9d, 0x36, 0x7b, 0x51, 0x3f, 0x52, 0x83, 0x34];
    assert_eq!(tag_of(SECOND_KEY, &counting(48)), expected);
}

#[test]
fn second_key_message_of_64_bytes() {
    let expected: [u8; 16] = [0xd4, 0x91, 0x8d, 0xe2, 0x03, 0x57, 0xa2, 0x3c, 0x48, 0x36, 0x02, 0x2f, 0x9f, 0x6d, 0xcd, 0xd7];
    assert_eq!(tag_of(SECOND_KEY, &counting(64)), expected);
}

#[test]
fn second_key_message_of_100_bytes() {
    let expected: [u8; 16] = [0x0a, 0x43, 0x4c, 0x81, 0xda, 0x6f, 0xc1, 0x54, 0x70, 0x66, 0x27, 0x50, 0xcc, 0x41, 0x3a, 0x11];
    assert_eq!(tag_of(SECOND_KEY, &counting(100)), expected);
}

#[test]
fn empty_message_under_zero_key() {
    let expected: [u8; 16] = [0x7b, 0xc9, 0x2e, 0x6f, 0xf6, 0xa1, 0x65, 0x08, 0x95, 0xcd, 0x4e, 0x9e, 0xff, 0x94, 0x1d, 0x53];
    assert_eq!(tag_of([0, 0, 0, 0], &[]), expected);
}

#[test]
fn empty_message_differs_from_its_padding_byte() {
    let one: [u8; 16] = [0xc2, 0x62, 0x82, 0xb5, 0x63, 0x06, 0xd4, 0x15, 0xec, 0xb4, 0x91, 0xe7, 0x66, 0xe1, 0x30, 0x15];
    assert_eq!(tag_of([0, 0, 0, 0], &[0x01]), one);
    assert_ne!(tag_of([0, 0, 0, 0], &[]), one);
}

#[test]
fn one_block_differs_from_two_blocks_with_the_same_start() {
    let first: Vec<u8> = counting(16);
    let mut both: Vec<u8> = counting(16);
    both.extend_from_slice(&[0xaa; 16]);
    let expected: [u8; 16] = [0xdc, 0x13, 0xff, 0x6d, 0x70, 0x91, 0x28, 0x7c, 0x59, 0xf5, 0xb8, 0x89, 0x2b, 0xc0, 0x48, 0xd6];
    assert_eq!(tag_of(KEY, &both), expected);
    assert_ne!(tag_of(KEY, &first), tag_of(KEY, &both));
    assert_ne!(tag_of(KEY, &counting(16)), tag_of(KEY, &counting(32)));
}

#[test]
fn different_keys_give_different_tags() {
    let lengths: [usize; 6] = [0, 1, 16, 17, 32, 100];
    for n in lengths {
        assert_ne!(tag_of(KEY, &counting(n)), tag_of(SECOND_KEY, &counting(n)));
    }
    let near: KeyData = [0x833d3432, 0x009f389f, 0x2398e64f, 0x417acf39];
    assert_ne!(tag_of(KEY, &counting(5)), tag_of(near, &counting(5)));
}

#[test]
fn same_key_and_message_give_the_same_tag() {
    let lengths: [usize; 6] = [0, 1, 16, 17, 32, 100];
    for n in lengths {
        assert_eq!(tag_of(KEY, &counting(n)), tag_of(KEY, &counting(n)));
    }
}

#[test]
fn tag_before_any_input_is_the_key() {
    let c: Context = Context::from_key(KEY);
    let expected: [u8; 16] = [0x33, 0x34, 0x3d, 0x83, 0x9f, 0x38, 0x9f, 0x00, 0x4f, 0xe6, 0x98, 0x23, 0x39, 0xcf, 0x7a, 0x41];
    assert_eq!(*c.tag(), expected);
}

#[test]
fn tags_of_all_lengths_up_to_300_bytes() {
    let mut all: Vec<u8> = Vec::new();
    let mut n: usize = 0;
    while n <= 300 {
        all.extend_from_slice(&tag_of(KEY, &counting(n)));
        n += 1;
    }
    assert_eq!(all.len(), 301 * 16);
    let expected: [u8; 16] = [0x7f, 0x00, 0x16, 0x1a, 0xe8, 0x07, 0x1c, 0xfb, 0x65, 0xc0, 0xb4, 0x4b, 0xb3, 0xea, 0xf7, 0xfd];
    assert_eq!(tag_of(KEY, &all), expected);
}
