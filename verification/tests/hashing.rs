use libpascalc::hashing::{PascalcHashMap, PascalcHashSet, PascalcHasher};
use std::hash::Hasher;

fn by_width(wide: u64, narrow: u64) -> u64 {
    if usize::BITS == 64 {
        wide
    } else {
        narrow
    }
}

fn digest(bytes: &[u8]) -> u64 {
    let mut hasher = PascalcHasher::default();
    hasher.write(bytes);
    hasher.finish()
}

#[test]
fn new_hasher_yields_zero() {
    assert_eq!(PascalcHasher::default().finish(), 0);
}

#[test]
fn nothing_written_hashes_to_zero() {
    assert_eq!(digest(b""), 0);
    assert_eq!(digest(&[]), digest(b""));
}

#[test]
fn one_word_is_multiplied_by_the_constant() {
    let mut hasher = PascalcHasher::default();
    hasher.write_u8(1);
    assert_eq!(hasher.finish(), by_width(0x517c_c1b7_2722_0a95, 0x9e37_79b9));
}

#[test]
fn second_word_is_mixed_into_the_rotated_state() {
    let mut hasher = PascalcHasher::default();
    hasher.write_u8(1);
    hasher.write_u8(2);
    assert_eq!(hasher.finish(), by_width(0x6a4b_e67f_f98f_abc8, 0xed7c_0b69));
}

#[test]
fn short_slice_is_taken_two_bytes_then_one() {
    assert_eq!(digest(b"abc"), by_width(0xc360_d759_17ea_8923, 0xcb1d_9396));
}

#[test]
fn seven_bytes_are_taken_four_two_one() {
    assert_eq!(digest(b"program"), by_width(0xb907_10f8_20a6_4733, 0x82c6_dcda));
}

#[test]
fn ten_bytes_are_a_word_and_a_tail() {
    assert_eq!(digest(b"HelloWorld"), by_width(0xae93_4f8e_4316_6ceb, 0xe97d_3a93));
}

#[test]
fn fifteen_bytes_use_every_width() {
    let bytes: Vec<u8> = (1..16).collect();
    assert_eq!(digest(&bytes), by_width(0x6e8b_5d1d_34f0_8a49, 0xe7c3_dd07));
}

#[test]
fn whole_words_leave_no_tail() {
    let bytes: Vec<u8> = (1..17).collect();
    assert_eq!(digest(&bytes), by_width(0x20cf_a482_6d88_e8c4, 0x57c2_b365));
}

#[test]
fn integers_are_taken_as_words() {
    let mut hasher = PascalcHasher::default();
    hasher.write_u32(0xdead_beef);
    assert_eq!(hasher.finish(), by_width(0x67f3_c037_2953_771b, 0x9226_f1b7));

    let mut hasher = PascalcHasher::default();
    hasher.write_usize(0xdead_beef);
    assert_eq!(hasher.finish(), by_width(0x67f3_c037_2953_771b, 0x9226_f1b7));

    let mut hasher = PascalcHasher::default();
    hasher.write(b"abc");
    hasher.write_u16(0xbeef);
    assert_eq!(hasher.finish(), by_width(0xcb1c_a597_2996_dfe3, 0xc255_1906));
}

#[test]
fn wide_integer_is_one_word_or_two_halves() {
    let mut hasher = PascalcHasher::default();
    hasher.write_u64(0x0123_4567_89ab_cdef);
    assert_eq!(hasher.finish(), by_width(0x56cc_4aad_99c8_321b, 0x29d1_1f01));
}

#[test]
fn same_bytes_hash_alike() {
    let first = String::from("writeln");
    let second = String::from("writeln");
    assert_eq!(digest(first.as_bytes()), digest(second.as_bytes()));
    assert_ne!(digest(b"writeln"), digest(b"writelm"));
}

#[test]
fn written_bytes_change_the_state() {
    let mut hasher = PascalcHasher::default();
    hasher.write(b"begin");
    let before = hasher.finish();
    hasher.write(b"end");
    assert_ne!(hasher.finish(), before);
    assert_ne!(before, 0);
}

#[test]
fn tables_take_the_hasher() {
    let mut spans: PascalcHashMap<String, u32> = PascalcHashMap::default();
    spans.insert(String::from("HelloWorld"), 8);
    spans.insert(String::from("writeln"), 29);
    assert_eq!(spans.get("HelloWorld"), Some(&8));
    assert_eq!(spans.get("writeln"), Some(&29));
    assert_eq!(spans.get("readln"), None);

    let mut names: PascalcHashSet<&str> = PascalcHashSet::default();
    assert!(names.insert("begin"));
    assert!(!names.insert("begin"));
    assert!(names.contains("begin"));
}
