use trpfs_extractor::error::Error;
use trpfs_extractor::trpfd::Trpfd;
use trpfs_extractor::utils::fnv1a64_hash;

fn put_u32(buf: &mut Vec<u8>, x: u32) {
    buf.extend_from_slice(&x.to_le_bytes());
}

fn put_u64(buf: &mut Vec<u8>, x: u64) {
    buf.extend_from_slice(&x.to_le_bytes());
}

fn set_u32(buf: &mut Vec<u8>, at: usize, x: u32) {
    buf[at..at + 4].copy_from_slice(&x.to_le_bytes());
}

/// Appends a self-relative offset table and the records it points to.
fn put_table(buf: &mut Vec<u8>, records: &[Vec<u8>]) {
    let start = buf.len();
    put_u32(buf, records.len() as u32);
    let mut record_pos = start + 4 + 4 * records.len();
    for (i, record) in records.iter().enumerate() {
        let entry_pos = start + 4 + 4 * i;
        put_u32(buf, (record_pos - entry_pos) as u32);
        record_pos += record.len();
    }
    for record in records {
        buf.extend_from_slice(record);
    }
}

fn pack_record(size: u64, num_files: u64) -> Vec<u8> {
    let mut r = Vec::new();
    put_u32(&mut r, 0xdead_beef);
    put_u64(&mut r, size);
    put_u64(&mut r, num_files);
    put_u32(&mut r, 0xdead_beef);
    r
}

fn file_record(pack_id: Option<u64>) -> Vec<u8> {
    let mut r = Vec::new();
    put_u32(&mut r, 0xdead_beef);
    match pack_id {
        Some(id) => {
            put_u32(&mut r, 12);
            put_u64(&mut r, id);
        }
        None => put_u32(&mut r, 4),
    }
    r
}

fn name_record(name: &[u8]) -> Vec<u8> {
    let mut r = Vec::new();
    put_u32(&mut r, name.len() as u32);
    r.extend_from_slice(name);
    r
}

/// The bytes of an index file with the given tables.
fn build_index(
    packs: &[(u64, u64)],
    names: &[&[u8]],
    files: &[Option<u64>],
    hashes: &[u64],
) -> Vec<u8> {
    let mut buf = vec![0u8; 40];
    let at = buf.len();
    set_u32(&mut buf, 36, (at - 0x24) as u32);
    let records: Vec<Vec<u8>> = packs.iter().map(|p| pack_record(p.0, p.1)).collect();
    put_table(&mut buf, &records);

    let at = buf.len();
    set_u32(&mut buf, 32, (at - 0x20) as u32);
    let records: Vec<Vec<u8>> = files.iter().map(|f| file_record(*f)).collect();
    put_table(&mut buf, &records);

    let at = buf.len();
    set_u32(&mut buf, 28, (at - 0x1c) as u32);
    let records: Vec<Vec<u8>> = names.iter().map(|n| name_record(n)).collect();
    put_table(&mut buf, &records);

    let at = buf.len();
    set_u32(&mut buf, 24, (at - 0x18) as u32);
    put_u32(&mut buf, hashes.len() as u32);
    for h in hashes {
        put_u64(&mut buf, *h);
    }
    buf
}

fn sample_index() -> Vec<u8> {
    build_index(
        &[(1000, 2), (2000, 1)],
        &[b"alpha", b"beta"],
        &[Some(0), Some(1), None],
        &[fnv1a64_hash(b"one"), fnv1a64_hash(b"two"), fnv1a64_hash(b"three")],
    )
}

fn open_err(data: &[u8], load_file_info: bool) -> Error {
    match Trpfd::open(data, load_file_info) {
        Ok(_) => panic!("the index was accepted"),
        Err(e) => e,
    }
}

#[test]
fn open_reads_the_packs() {
    let t = Trpfd::open(&sample_index(), true).unwrap();
    assert_eq!(t.num_packs(), 2);
    let a = t.pack_info_at(0);
    assert_eq!(a.name, "alpha");
    assert_eq!(a.size, 1000);
    assert_eq!(a.num_files, 2);
    assert_eq!(a.hash, fnv1a64_hash(b"alpha"));
    let b = t.pack_info_at(1);
    assert_eq!(b.name, "beta");
    assert_eq!(b.size, 2000);
    assert_eq!(b.num_files, 1);
    assert_eq!(b.hash, fnv1a64_hash(b"beta"));
}

#[test]
fn open_reads_the_files() {
    let t = Trpfd::open(&sample_index(), true).unwrap();
    assert_eq!(t.num_files(), 3);
    assert_eq!(t.file_info_at(0).pack_id, 0);
    assert_eq!(t.file_info_at(0).hash, fnv1a64_hash(b"one"));
    assert_eq!(t.file_info_at(1).pack_id, 1);
    assert_eq!(t.file_info_at(1).hash, fnv1a64_hash(b"two"));
    assert_eq!(t.file_info_at(2).hash, fnv1a64_hash(b"three"));
}

#[test]
fn file_record_without_a_pack_id_belongs_to_pack_zero() {
    let t = Trpfd::open(&sample_index(), true).unwrap();
    assert_eq!(t.file_info_at(2).pack_id, 0);
}

#[test]
fn open_without_file_info_has_no_files() {
    let t = Trpfd::open(&sample_index(), false).unwrap();
    assert_eq!(t.num_packs(), 2);
    assert_eq!(t.num_files(), 0);
    assert!(t.lookup_file("one").is_none());
}

#[test]
fn open_without_file_info_does_not_read_the_file_tables() {
    let mut data = build_index(&[(1, 1)], &[b"a"], &[], &[]);
    set_u32(&mut data, 32, 0xffff_0000);
    set_u32(&mut data, 24, 0xffff_0000);
    let t = Trpfd::open(&data, false).unwrap();
    assert_eq!(t.num_packs(), 1);
    assert_eq!(open_err(&data, true), Error::TruncatedInput);
}

#[test]
fn pack_count_equals_both_table_lengths() {
    for n in 0..5usize {
        let packs: Vec<(u64, u64)> = (0..n).map(|i| (i as u64, 0)).collect();
        let names: Vec<Vec<u8>> = (0..n).map(|i| vec![b'a' + i as u8]).collect();
        let name_refs: Vec<&[u8]> = names.iter().map(|v| v.as_slice()).collect();
        let t = Trpfd::open(&build_index(&packs, &name_refs, &[], &[]), false).unwrap();
        assert_eq!(t.num_packs(), n);
    }
}

#[test]
fn differing_pack_and_name_counts_are_a_decode_error() {
    let data = build_index(&[(1, 1), (2, 2)], &[b"only"], &[], &[]);
    assert_eq!(open_err(&data, false), Error::DecodeError);
    assert_eq!(open_err(&data, true), Error::DecodeError);
    let data = build_index(&[(1, 1)], &[b"a", b"b"], &[], &[]);
    assert_eq!(open_err(&data, false), Error::DecodeError);
}

#[test]
fn differing_file_and_hash_counts_are_a_decode_error() {
    let data = build_index(&[(1, 1)], &[b"a"], &[Some(0), Some(0)], &[7]);
    assert_eq!(open_err(&data, true), Error::DecodeError);
    let data = build_index(&[(1, 1)], &[b"a"], &[Some(0)], &[7, 8]);
    assert_eq!(open_err(&data, true), Error::DecodeError);
    assert!(Trpfd::open(&data, false).is_ok());
}

#[test]
fn an_empty_index_is_valid() {
    let t = Trpfd::open(&build_index(&[], &[], &[], &[]), true).unwrap();
    assert_eq!(t.num_packs(), 0);
    assert_eq!(t.num_files(), 0);
}

#[test]
fn open_truncated_header() {
    assert_eq!(open_err(&[], true), Error::TruncatedInput);
    assert_eq!(open_err(&[0u8; 39], false), Error::TruncatedInput);
}

#[test]
fn open_truncated_tables() {
    let data = sample_index();
    assert_eq!(open_err(&data[..data.len() - 1], true), Error::TruncatedInput);
    assert_eq!(open_err(&data[..41], false), Error::TruncatedInput);
    for cut in 40..data.len() {
        assert_eq!(open_err(&data[..cut], true), Error::TruncatedInput);
    }
}

#[test]
fn open_truncated_pack_record() {
    let mut data = vec![0u8; 40];
    set_u32(&mut data, 36, 40 - 0x24);
    put_u32(&mut data, 1);
    put_u32(&mut data, 4);
    data.extend_from_slice(&[0u8; 23]);
    assert_eq!(open_err(&data, false), Error::TruncatedInput);
}

#[test]
fn a_name_that_is_not_text_is_a_decode_error() {
    let data = build_index(&[(1, 1)], &[&[0xc3, 0x28]], &[], &[]);
    assert_eq!(open_err(&data, false), Error::DecodeError);
}

#[test]
fn the_first_failing_name_decides_the_error() {
    let mut data = build_index(&[(1, 1), (2, 2)], &[&[0xff], b"abcdef"], &[], &[]);
    let cut = data.len() - 4 - 3;
    data.truncate(cut);
    assert_eq!(open_err(&data, false), Error::DecodeError);
    let mut data = build_index(&[(1, 1), (2, 2)], &[b"abcdef", &[0xff]], &[], &[]);
    let at = data.len() - 4 - 5 - 10;
    set_u32(&mut data, at, 600);
    assert_eq!(open_err(&data, false), Error::TruncatedInput);
}

#[test]
fn lookup_file_finds_the_pack() {
    let t = Trpfd::open(&sample_index(), true).unwrap();
    let (pack, hash) = t.lookup_file("two").unwrap();
    assert_eq!(pack.name, "beta");
    assert_eq!(hash, fnv1a64_hash(b"two"));
    let (pack, hash) = t.lookup_file("three").unwrap();
    assert_eq!(pack.name, "alpha");
    assert_eq!(hash, fnv1a64_hash(b"three"));
}

#[test]
fn lookup_file_of_an_unknown_name() {
    let t = Trpfd::open(&sample_index(), true).unwrap();
    assert!(t.lookup_file("four").is_none());
    assert!(t.lookup_file("").is_none());
}

#[test]
fn lookup_file_takes_the_last_file_with_the_hash() {
    let h = fnv1a64_hash(b"twice");
    let data = build_index(&[(1, 1), (2, 2)], &[b"a", b"b"], &[Some(0), Some(1)], &[h, h]);
    let t = Trpfd::open(&data, true).unwrap();
    let (pack, hash) = t.lookup_file("twice").unwrap();
    assert_eq!(pack.name, "b");
    assert_eq!(hash, h);
}

#[test]
fn lookup_file_with_a_pack_id_out_of_range() {
    let h = fnv1a64_hash(b"lost");
    let data = build_index(&[(1, 1)], &[b"a"], &[Some(1)], &[h]);
    let t = Trpfd::open(&data, true).unwrap();
    assert!(t.lookup_file("lost").is_none());
}

#[test]
fn save_pack_info_writes_the_table() {
    let data = build_index(&[(1000, 2), (0, 18446744073709551615)], &[b"alpha", b"b"], &[], &[]);
    let t = Trpfd::open(&data, false).unwrap();
    let mut out = String::new();
    t.save_pack_info(&mut out);
    let expected = format!(
        "id,size,num_files,name,hash\n0,1000,2,alpha,{:016x}\n1,0,18446744073709551615,b,af66bf4c8606d445\n",
        fnv1a64_hash(b"alpha")
    );
    assert_eq!(out, expected);
}

#[test]
fn save_pack_info_appends() {
    let t = Trpfd::open(&build_index(&[], &[], &[], &[]), false).unwrap();
    let mut out = String::from("# ");
    t.save_pack_info(&mut out);
    assert_eq!(out, "# id,size,num_files,name,hash\n");
}

#[test]
fn save_file_info_writes_the_table() {
    let data = build_index(&[(1, 1)], &[b"a"], &[Some(0), None, Some(12)], &[0xff, 0, u64::MAX]);
    let t = Trpfd::open(&data, true).unwrap();
    let mut out = String::new();
    t.save_file_info(&mut out);
    assert_eq!(
        out,
        "id,pack_id,hash\n0,0,00000000000000ff\n1,0,0000000000000000\n2,12,ffffffffffffffff\n"
    );
}
