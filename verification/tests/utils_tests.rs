use trpfs_extractor::error::Error;
use trpfs_extractor::utils::build_hash_index;
use trpfs_extractor::utils::file_read_abs_offsets;
use trpfs_extractor::utils::file_read_bytes;
use trpfs_extractor::utils::file_read_string;
use trpfs_extractor::utils::file_read_u32;
use trpfs_extractor::utils::file_read_u64;
use trpfs_extractor::utils::file_read_vec_u32;
use trpfs_extractor::utils::file_read_vec_u64;
use trpfs_extractor::utils::fnv1a64_hash;
use trpfs_extractor::utils::Cursor;
use trpfs_extractor::utils::FNV_BASIS;
use trpfs_extractor::utils::FNV_PRIME;
use trpfs_extractor::utils::MAX_TABLE_START;

fn le32(x: u32) -> Vec<u8> {
    x.to_le_bytes().to_vec()
}

fn le64(x: u64) -> Vec<u8> {
    x.to_le_bytes().to_vec()
}

#[test]
fn hash_of_empty_input_is_the_basis() {
    assert_eq!(fnv1a64_hash(b""), 0xcbf29ce484222645);
    assert_eq!(fnv1a64_hash(b""), FNV_BASIS);
}

#[test]
fn hash_is_deterministic() {
    assert_eq!(fnv1a64_hash(b"abc"), fnv1a64_hash(b"abc"));
}

#[test]
fn hash_is_order_sensitive() {
    assert_ne!(fnv1a64_hash(b"abc"), fnv1a64_hash(b"acb"));
}

#[test]
fn hash_known_values() {
    assert_eq!(fnv1a64_hash(b"a"), 0xaf66bc4c8606cf2c);
    assert_eq!(fnv1a64_hash(b"b"), 0xaf66bf4c8606d445);
    assert_eq!(fnv1a64_hash(b"abc"), 0xcd8882271f85feeb);
    assert_eq!(fnv1a64_hash(b"acb"), 0xcd8bab271f887a6d);
    assert_eq!(fnv1a64_hash(b"hello"), 0x9a95705ce4d33eab);
}

#[test]
fn hash_of_one_byte_is_one_round() {
    let expected = (FNV_BASIS ^ 0x61).wrapping_mul(FNV_PRIME);
    assert_eq!(fnv1a64_hash(&[0x61]), expected);
    assert_eq!(FNV_PRIME, 0x0000_0100_0000_01B3);
}

#[test]
fn read_u32_is_little_endian() {
    let data = [0x78, 0x56, 0x34, 0x12, 0xff];
    let mut c = Cursor::new(&data);
    assert_eq!(file_read_u32(&mut c), Ok(0x1234_5678));
    assert_eq!(c.position(), 4);
}

#[test]
fn read_u32_largest_value() {
    let data = [0xff, 0xff, 0xff, 0xff];
    let mut c = Cursor::new(&data);
    assert_eq!(file_read_u32(&mut c), Ok(u32::MAX));
}

#[test]
fn read_u64_is_little_endian() {
    let data = [0xef, 0xcd, 0xab, 0x89, 0x67, 0x45, 0x23, 0x01];
    let mut c = Cursor::new(&data);
    assert_eq!(file_read_u64(&mut c), Ok(0x0123_4567_89ab_cdef));
    assert_eq!(c.position(), 8);
}

#[test]
fn read_u64_largest_value() {
    let data = [0xff; 8];
    let mut c = Cursor::new(&data);
    assert_eq!(file_read_u64(&mut c), Ok(u64::MAX));
}

#[test]
fn read_u32_truncated() {
    let data = [1, 2, 3];
    let mut c = Cursor::new(&data);
    assert_eq!(file_read_u32(&mut c), Err(Error::TruncatedInput));
    assert_eq!(c.position(), 0);
}

#[test]
fn read_u64_truncated_leaves_the_cursor() {
    let data = [0u8; 9];
    let mut c = Cursor::new(&data);
    c.seek(2);
    assert_eq!(file_read_u64(&mut c), Err(Error::TruncatedInput));
    assert_eq!(c.position(), 2);
}

#[test]
fn read_beyond_the_end_fails() {
    let data = [0u8; 4];
    let mut c = Cursor::new(&data);
    c.seek(100);
    assert_eq!(file_read_u32(&mut c), Err(Error::TruncatedInput));
    assert_eq!(c.position(), 100);
    c.seek(u64::MAX);
    assert_eq!(file_read_u32(&mut c), Err(Error::TruncatedInput));
}

#[test]
fn reads_advance_in_sequence() {
    let mut data = le32(7);
    data.extend(le64(9));
    data.extend(le32(11));
    let mut c = Cursor::new(&data);
    assert_eq!(file_read_u32(&mut c), Ok(7));
    assert_eq!(file_read_u64(&mut c), Ok(9));
    assert_eq!(file_read_u32(&mut c), Ok(11));
    assert_eq!(c.position(), 16);
    assert_eq!(file_read_u32(&mut c), Err(Error::TruncatedInput));
}

#[test]
fn has_counts_the_bytes_that_remain() {
    let data = [0u8; 10];
    let mut c = Cursor::new(&data);
    c.seek(4);
    assert!(c.has(6));
    assert!(!c.has(7));
    assert!(c.has(0));
    c.seek(11);
    assert!(c.has(0));
    assert!(!c.has(1));
}

#[test]
fn seek_past_moves_or_fails() {
    let data = [0u8; 10];
    let mut c = Cursor::new(&data);
    assert_eq!(c.seek_past(3, 4), Ok(()));
    assert_eq!(c.position(), 7);
    assert_eq!(c.seek_past(u64::MAX, 1), Err(Error::TruncatedInput));
    assert_eq!(c.position(), 7);
    assert_eq!(c.seek_past(u64::MAX - 1, 1), Ok(()));
    assert_eq!(c.position(), u64::MAX);
}

#[test]
fn read_bytes_copies_the_range() {
    let data = [1, 2, 3, 4, 5];
    let mut c = Cursor::new(&data);
    c.seek(1);
    assert_eq!(file_read_bytes(&mut c, 3), Ok(vec![2, 3, 4]));
    assert_eq!(c.position(), 4);
    assert_eq!(file_read_bytes(&mut c, 2), Err(Error::TruncatedInput));
    assert_eq!(c.position(), 4);
    assert_eq!(file_read_bytes(&mut c, 1), Ok(vec![5]));
}

#[test]
fn read_no_bytes_always_succeeds() {
    let data = [1, 2];
    let mut c = Cursor::new(&data);
    c.seek(50);
    assert_eq!(file_read_bytes(&mut c, 0), Ok(vec![]));
    assert_eq!(c.position(), 50);
}

#[test]
fn read_string_reads_the_text() {
    let mut data = le32(3);
    data.extend(b"abcdef");
    let mut c = Cursor::new(&data);
    assert_eq!(file_read_string(&mut c), Ok(String::from("abc")));
    assert_eq!(c.position(), 7);
}

#[test]
fn read_string_empty() {
    let data = le32(0);
    let mut c = Cursor::new(&data);
    assert_eq!(file_read_string(&mut c), Ok(String::new()));
    assert_eq!(c.position(), 4);
}

#[test]
fn read_string_multibyte_text() {
    let text = "p\u{e9}ch\u{e9} \u{1f600}";
    let mut data = le32(text.len() as u32);
    data.extend(text.as_bytes());
    let mut c = Cursor::new(&data);
    assert_eq!(file_read_string(&mut c), Ok(String::from(text)));
    assert_eq!(c.position(), 4 + text.len() as u64);
}

#[test]
fn read_string_invalid_text_is_a_decode_error() {
    let mut data = le32(2);
    data.extend([0xff, 0xfe]);
    let mut c = Cursor::new(&data);
    assert_eq!(file_read_string(&mut c), Err(Error::DecodeError));
    assert_eq!(c.position(), 0);
}

#[test]
fn read_string_cut_inside_a_character_is_a_decode_error() {
    let mut data = le32(1);
    data.extend("\u{e9}".as_bytes());
    let mut c = Cursor::new(&data);
    assert_eq!(file_read_string(&mut c), Err(Error::DecodeError));
}

#[test]
fn read_string_truncated() {
    let mut data = le32(5);
    data.extend(b"abcd");
    let mut c = Cursor::new(&data);
    assert_eq!(file_read_string(&mut c), Err(Error::TruncatedInput));
    assert_eq!(c.position(), 0);
    let short = [3u8, 0];
    let mut c = Cursor::new(&short);
    assert_eq!(file_read_string(&mut c), Err(Error::TruncatedInput));
}

#[test]
fn read_vec_u32_reads_count_then_values() {
    let mut data = le32(3);
    data.extend(le32(10));
    data.extend(le32(20));
    data.extend(le32(0xffff_ffff));
    data.extend(le32(99));
    let mut c = Cursor::new(&data);
    assert_eq!(file_read_vec_u32(&mut c), Ok(vec![10, 20, 0xffff_ffff]));
    assert_eq!(c.position(), 16);
}

#[test]
fn read_vec_u32_empty() {
    let data = le32(0);
    let mut c = Cursor::new(&data);
    assert_eq!(file_read_vec_u32(&mut c), Ok(vec![]));
    assert_eq!(c.position(), 4);
}

#[test]
fn read_vec_u32_truncated() {
    let mut data = le32(3);
    data.extend(le32(10));
    data.extend(le32(20));
    data.extend([1, 2, 3]);
    let mut c = Cursor::new(&data);
    assert_eq!(file_read_vec_u32(&mut c), Err(Error::TruncatedInput));
    assert_eq!(c.position(), 0);
}

#[test]
fn read_vec_with_a_huge_count_is_truncated() {
    let data = le32(0xffff_ffff);
    let mut c = Cursor::new(&data);
    assert_eq!(file_read_vec_u32(&mut c), Err(Error::TruncatedInput));
    let mut c = Cursor::new(&data);
    assert_eq!(file_read_vec_u64(&mut c), Err(Error::TruncatedInput));
}

#[test]
fn read_vec_u64_reads_count_then_values() {
    let mut data = vec![0xaa];
    data.extend(le32(2));
    data.extend(le64(0x1_0000_0000));
    data.extend(le64(u64::MAX));
    let mut c = Cursor::new(&data);
    c.seek(1);
    assert_eq!(file_read_vec_u64(&mut c), Ok(vec![0x1_0000_0000, u64::MAX]));
    assert_eq!(c.position(), 21);
}

#[test]
fn read_vec_u64_truncated() {
    let mut data = le32(2);
    data.extend(le64(1));
    data.extend([0u8; 7]);
    let mut c = Cursor::new(&data);
    assert_eq!(file_read_vec_u64(&mut c), Err(Error::TruncatedInput));
    assert_eq!(c.position(), 0);
}

#[test]
fn abs_offsets_of_the_table_at_100() {
    let mut data = vec![0u8; 100];
    data.extend(le32(2));
    data.extend(le32(0));
    data.extend(le32(10));
    let mut c = Cursor::new(&data);
    c.seek(100);
    assert_eq!(
        file_read_abs_offsets(&mut c, 100),
        Ok(vec![100 + 4 + 4 * 0 + 0, 100 + 4 + 4 * 1 + 10])
    );
    let mut c = Cursor::new(&data);
    c.seek(100);
    assert_eq!(file_read_abs_offsets(&mut c, 100), Ok(vec![104, 118]));
    assert_eq!(c.position(), 112);
}

#[test]
fn abs_offsets_of_an_empty_table() {
    let data = le32(0);
    let mut c = Cursor::new(&data);
    assert_eq!(file_read_abs_offsets(&mut c, 0), Ok(vec![]));
    assert_eq!(c.position(), 4);
}

#[test]
fn abs_offsets_are_relative_to_the_given_base() {
    let mut data = le32(3);
    data.extend(le32(5));
    data.extend(le32(0));
    data.extend(le32(0xffff_ffff));
    let mut c = Cursor::new(&data);
    assert_eq!(
        file_read_abs_offsets(&mut c, 1000),
        Ok(vec![1000 + 4 + 5, 1000 + 4 + 4, 1000 + 4 + 8 + 0xffff_ffff])
    );
}

#[test]
fn abs_offsets_at_the_largest_base() {
    let mut data = le32(1);
    data.extend(le32(7));
    let mut c = Cursor::new(&data);
    assert_eq!(
        file_read_abs_offsets(&mut c, MAX_TABLE_START),
        Ok(vec![MAX_TABLE_START + 4 + 7])
    );
}

#[test]
fn abs_offsets_truncated() {
    let mut data = le32(2);
    data.extend(le32(0));
    let mut c = Cursor::new(&data);
    assert_eq!(file_read_abs_offsets(&mut c, 0), Err(Error::TruncatedInput));
    assert_eq!(c.position(), 0);
}

#[test]
fn hash_index_keeps_the_last_position() {
    let m = build_hash_index(&vec![5, 7, 5, 9]);
    assert_eq!(m.len(), 3);
    assert_eq!(m.get(&5), Some(&2));
    assert_eq!(m.get(&7), Some(&1));
    assert_eq!(m.get(&9), Some(&3));
    assert_eq!(m.get(&6), None);
}

#[test]
fn hash_index_of_nothing_is_empty() {
    let m = build_hash_index(&vec![]);
    assert!(m.is_empty());
}
