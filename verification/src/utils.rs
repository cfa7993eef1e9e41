use crate::error::Error;
use std::collections::BTreeMap;
use vstd::prelude::*;
use vstd::slice::slice_subrange;
use vstd::slice::slice_to_vec;
use vstd::utf8::decode_utf8;
use vstd::utf8::valid_utf8;

verus! {

/// Multiplier of the content hash.
pub const FNV_PRIME: u64 = 0x00000100000001B3;

/// Initial state of the content hash.
pub const FNV_BASIS: u64 = 0xcbf29ce484222645;

/// One round of the content hash: the byte is xored into the low bits of the
/// state, and the state is then multiplied by the prime modulo 2^64.
pub open spec fn fnv1a64_step(h: u64, c: u8) -> u64 {
    (((h ^ (c as u64)) as int * FNV_PRIME as int) % 0x1_0000_0000_0000_0000) as u64
}

/// The content hash of a byte string: the rounds applied from the first byte
/// to the last, starting from the basis.
pub open spec fn fnv1a64(buf: Seq<u8>) -> u64
    decreases buf.len(),
{
    if buf.len() == 0 {
        FNV_BASIS
    } else {
        fnv1a64_step(fnv1a64(buf.drop_last()), buf.last())
    }
}

/// The content hash of the empty byte string is the basis.
pub proof fn lemma_fnv1a64_empty()
    ensures
        fnv1a64(Seq::empty()) == FNV_BASIS,
{
}

/// Hashing one more byte is one more round on the hash of what came before.
pub proof fn lemma_fnv1a64_push(buf: Seq<u8>, c: u8)
    ensures
        fnv1a64(buf.push(c)) == fnv1a64_step(fnv1a64(buf), c),
{
    assert(buf.push(c).drop_last() =~= buf);
}

/// Computes the 64-bit content hash of `buf`.
pub fn fnv1a64_hash(buf: &[u8]) -> (h: u64)
    ensures
        h == fnv1a64(buf@),
{
    let mut h: u64 = FNV_BASIS;
    let mut i: usize = 0;
    while i < buf.len()
        invariant
            i <= buf@.len(),
            h == fnv1a64(buf@.take(i as int)),
        decreases buf@.len() - i,
    {
        proof {
            assert(buf@.take(i + 1).drop_last() =~= buf@.take(i as int));
        }
        h = (h ^ (buf[i] as u64)).wrapping_mul(FNV_PRIME);
        i = i + 1;
    }
    proof {
        assert(buf@.take(i as int) =~= buf@);
    }
    h
}

/// A read position over the bytes of a file. The position may lie beyond the
/// end of the data; reading there fails.
pub struct Cursor<'a> {
    pub data: &'a [u8],
    pub pos: u64,
}

/// The number of bytes of `data` at and after `pos`.
pub open spec fn remaining(data: Seq<u8>, pos: int) -> int {
    if 0 <= pos <= data.len() {
        data.len() - pos
    } else {
        0
    }
}

/// Whether `n` bytes can be read from `data` at `pos`.
pub open spec fn fits(data: Seq<u8>, pos: int, n: int) -> bool {
    0 <= pos && 0 <= n <= remaining(data, pos)
}

/// The little-endian value of the four bytes of `data` at `pos`.
pub open spec fn le_u32(data: Seq<u8>, pos: int) -> u32 {
    (data[pos] as int + 0x100 * data[pos + 1] as int + 0x1_0000 * data[pos + 2] as int
        + 0x100_0000 * data[pos + 3] as int) as u32
}

/// The little-endian value of the eight bytes of `data` at `pos`.
pub open spec fn le_u64(data: Seq<u8>, pos: int) -> u64 {
    (le_u32(data, pos) as int + 0x1_0000_0000 * le_u32(data, pos + 4) as int) as u64
}

/// Reading a 32-bit integer from `data` at `pos`.
pub open spec fn read_u32(data: Seq<u8>, pos: int) -> Result<u32, Error> {
    if fits(data, pos, 4) {
        Ok(le_u32(data, pos))
    } else {
        Err(Error::TruncatedInput)
    }
}

/// Reading a 64-bit integer from `data` at `pos`.
pub open spec fn read_u64(data: Seq<u8>, pos: int) -> Result<u64, Error> {
    if fits(data, pos, 8) {
        Ok(le_u64(data, pos))
    } else {
        Err(Error::TruncatedInput)
    }
}

/// Reading `n` raw bytes from `data` at `pos`.
pub open spec fn read_bytes(data: Seq<u8>, pos: int, n: int) -> Result<Seq<u8>, Error> {
    if n == 0 {
        Ok(Seq::empty())
    } else if fits(data, pos, n) {
        Ok(data.subrange(pos, pos + n))
    } else {
        Err(Error::TruncatedInput)
    }
}

impl<'a> Cursor<'a> {
    /// A cursor at the start of `data`.
    pub fn new(data: &'a [u8]) -> (c: Self)
        ensures
            c.data == data,
            c.pos == 0,
    {
        Cursor { data, pos: 0 }
    }

    /// The current position.
    pub fn position(&self) -> (pos: u64)
        ensures
            pos == self.pos,
    {
        self.pos
    }

    /// Moves the cursor to `pos`, which may lie beyond the end of the data.
    pub fn seek(&mut self, pos: u64)
        ensures
            final(self).data == old(self).data,
            final(self).pos == pos,
    {
        self.pos = pos;
    }

    /// Moves the cursor to the position `n` bytes after `base`. Where that
    /// position cannot be expressed it lies beyond the end of the data: the
    /// cursor then stays where it was, and the error is that of a read there.
    pub fn seek_past(&mut self, base: u64, n: u64) -> (res: Result<(), Error>)
        ensures
            final(self).data == old(self).data,
            base + n <= u64::MAX ==> res is Ok && final(self).pos == base + n,
            base + n > u64::MAX ==> {
                &&& res == Err::<(), Error>(Error::TruncatedInput)
                &&& final(self).pos == old(self).pos
                &&& old(self).data@.len() < base + n
            },
    {
        proof {
            assert(self.data@.len() == self.data.len());
        }
        match base.checked_add(n) {
            Some(pos) => {
                self.pos = pos;
                Ok(())
            },
            None => Err(Error::TruncatedInput),
        }
    }

    /// Whether `n` bytes can be read at the current position.
    pub fn has(&self, n: u64) -> (b: bool)
        ensures
            b == fits(self.data@, self.pos as int, n as int),
            self.data@.len() <= usize::MAX,
    {
        let len: u64 = self.data.len() as u64;
        n == 0 || (self.pos <= len && n <= len - self.pos)
    }
}

/// The little-endian value of the four bytes of `data` at `p`.
fn u32_at(data: &[u8], p: usize) -> (v: u32)
    requires
        p + 4 <= data@.len(),
    ensures
        v == le_u32(data@, p as int),
{
    let b0: u32 = data[p] as u32;
    let b1: u32 = data[p + 1] as u32;
    let b2: u32 = data[p + 2] as u32;
    let b3: u32 = data[p + 3] as u32;
    b0 + 0x100 * b1 + 0x1_0000 * b2 + 0x100_0000 * b3
}

/// The little-endian value of the eight bytes of `data` at `p`.
fn u64_at(data: &[u8], p: usize) -> (v: u64)
    requires
        p + 8 <= data@.len(),
    ensures
        v == le_u64(data@, p as int),
{
    proof {
        assert(data@.len() == data.len());
    }
    let lo: u32 = u32_at(data, p);
    let hi: u32 = u32_at(data, p + 4);
    lo as u64 + 0x1_0000_0000 * (hi as u64)
}

/// Reads a little-endian 32-bit integer and advances the cursor past it. On
/// failure the cursor stays where it was.
pub fn file_read_u32(file: &mut Cursor) -> (res: Result<u32, Error>)
    ensures
        res == read_u32(old(file).data@, old(file).pos as int),
        final(file).data == old(file).data,
        final(file).pos == if res is Ok { old(file).pos + 4 } else { old(file).pos as int },
{
    if !file.has(4) {
        return Err(Error::TruncatedInput);
    }
    let v: u32 = u32_at(file.data, file.pos as usize);
    file.pos = file.pos + 4;
    Ok(v)
}

/// Reads a little-endian 64-bit integer and advances the cursor past it. On
/// failure the cursor stays where it was.
pub fn file_read_u64(file: &mut Cursor) -> (res: Result<u64, Error>)
    ensures
        res == read_u64(old(file).data@, old(file).pos as int),
        final(file).data == old(file).data,
        final(file).pos == if res is Ok { old(file).pos + 8 } else { old(file).pos as int },
{
    if !file.has(8) {
        return Err(Error::TruncatedInput);
    }
    let v: u64 = u64_at(file.data, file.pos as usize);
    file.pos = file.pos + 8;
    Ok(v)
}

/// Reading a length-prefixed sequence of 32-bit integers: a 32-bit count,
/// then that many values.
pub open spec fn read_vec_u32(data: Seq<u8>, pos: int) -> Result<Seq<u32>, Error> {
    match read_u32(data, pos) {
        Err(e) => Err(e),
        Ok(n) => if fits(data, pos + 4, 4 * n) {
            Ok(Seq::new(n as nat, |i: int| le_u32(data, pos + 4 + 4 * i)))
        } else {
            Err(Error::TruncatedInput)
        },
    }
}

/// Reading a length-prefixed sequence of 64-bit integers: a 32-bit count,
/// then that many values.
pub open spec fn read_vec_u64(data: Seq<u8>, pos: int) -> Result<Seq<u64>, Error> {
    match read_u32(data, pos) {
        Err(e) => Err(e),
        Ok(n) => if fits(data, pos + 4, 8 * n) {
            Ok(Seq::new(n as nat, |i: int| le_u64(data, pos + 4 + 8 * i)))
        } else {
            Err(Error::TruncatedInput)
        },
    }
}

/// Reading a length-prefixed text field: a 32-bit length, then that many
/// bytes of UTF-8.
pub open spec fn read_string(data: Seq<u8>, pos: int) -> Result<Seq<char>, Error> {
    match read_u32(data, pos) {
        Err(e) => Err(e),
        Ok(n) => match read_bytes(data, pos + 4, n as int) {
            Err(e) => Err(e),
            Ok(bytes) => if valid_utf8(bytes) {
                Ok(decode_utf8(bytes))
            } else {
                Err(Error::DecodeError)
            },
        },
    }
}

/// The absolute offset that entry `i` of a self-relative offset table at
/// `table_start` stands for, where `v` is the value stored in the entry.
pub open spec fn abs_offset(table_start: int, i: int, v: int) -> int {
    table_start + 4 + 4 * i + v
}

/// Reading at `pos` a self-relative offset table whose entries are relative
/// to `table_start`.
pub open spec fn read_abs_offsets(data: Seq<u8>, pos: int, table_start: int) -> Result<
    Seq<u64>,
    Error,
> {
    match read_vec_u32(data, pos) {
        Err(e) => Err(e),
        Ok(rel) => Ok(
            Seq::new(rel.len(), |i: int| abs_offset(table_start, i, rel[i] as int) as u64),
        ),
    }
}

/// The largest base of an offset table for which every absolute offset fits
/// in 64 bits, whatever the table holds.
pub const MAX_TABLE_START: u64 = 0xffff_fffb_0000_0004;

/// Reads `n` bytes and advances the cursor past them. On failure the cursor
/// stays where it was.
pub fn file_read_bytes(file: &mut Cursor, n: usize) -> (res: Result<Vec<u8>, Error>)
    ensures
        match res {
            Ok(v) => read_bytes(old(file).data@, old(file).pos as int, n as int) == Ok::<
                Seq<u8>,
                Error,
            >(v@),
            Err(e) => read_bytes(old(file).data@, old(file).pos as int, n as int) == Err::<
                Seq<u8>,
                Error,
            >(e),
        },
        final(file).data == old(file).data,
        final(file).pos == if res is Ok { old(file).pos + n } else { old(file).pos as int },
{
    if n == 0 {
        return Ok(Vec::new());
    }
    if !file.has(n as u64) {
        return Err(Error::TruncatedInput);
    }
    let p: usize = file.pos as usize;
    let v: Vec<u8> = slice_to_vec(slice_subrange(file.data, p, p + n));
    file.pos = file.pos + n as u64;
    Ok(v)
}

/// `String::from_utf8` of std: the bytes become a string exactly when they
/// are valid UTF-8, and the string then holds the characters they encode.
#[verifier::external_body]
fn string_from_utf8(bytes: Vec<u8>) -> (res: Option<String>)
    ensures
        res is Some <==> valid_utf8(bytes@),
        res matches Some(s) ==> s@ == decode_utf8(bytes@),
{
    String::from_utf8(bytes).ok()
}

/// Reads a length-prefixed text field and advances the cursor past it. On
/// failure the cursor stays where it was.
pub fn file_read_string(file: &mut Cursor) -> (res: Result<String, Error>)
    ensures
        match res {
            Ok(s) => read_string(old(file).data@, old(file).pos as int) == Ok::<Seq<char>, Error>(
                s@,
            ),
            Err(e) => read_string(old(file).data@, old(file).pos as int) == Err::<
                Seq<char>,
                Error,
            >(e),
        },
        final(file).data == old(file).data,
        final(file).pos == if res is Ok {
            old(file).pos + 4 + le_u32(old(file).data@, old(file).pos as int)
        } else {
            old(file).pos as int
        },
{
    let start: u64 = file.pos;
    let len: u32 = file_read_u32(file)?;
    let bytes: Vec<u8> = match file_read_bytes(file, len as usize) {
        Ok(v) => v,
        Err(e) => {
            file.pos = start;
            return Err(e);
        },
    };
    match string_from_utf8(bytes) {
        Some(s) => Ok(s),
        None => {
            file.pos = start;
            Err(Error::DecodeError)
        },
    }
}

/// Reads a length-prefixed sequence of 32-bit integers and advances the
/// cursor past it. On failure the cursor stays where it was.
pub fn file_read_vec_u32(file: &mut Cursor) -> (res: Result<Vec<u32>, Error>)
    ensures
        match res {
            Ok(v) => read_vec_u32(old(file).data@, old(file).pos as int) == Ok::<Seq<u32>, Error>(
                v@,
            ),
            Err(e) => read_vec_u32(old(file).data@, old(file).pos as int) == Err::<
                Seq<u32>,
                Error,
            >(e),
        },
        final(file).data == old(file).data,
        final(file).pos == if res is Ok {
            old(file).pos + 4 + 4 * le_u32(old(file).data@, old(file).pos as int)
        } else {
            old(file).pos as int
        },
{
    let start: u64 = file.pos;
    let len: u32 = file_read_u32(file)?;
    if !file.has(4 * (len as u64)) {
        file.pos = start;
        return Err(Error::TruncatedInput);
    }
    let mut v: Vec<u32> = Vec::new();
    if len == 0 {
        assert(v@ =~= Seq::new(0, |j: int| le_u32(file.data@, start + 4 + 4 * j)));
        return Ok(v);
    }
    let data: &[u8] = file.data;
    let first: usize = file.pos as usize;
    let mut i: usize = 0;
    while i < len as usize
        invariant
            i <= len,
            first == start + 4,
            data@.len() <= usize::MAX,
            first + 4 * len <= data@.len(),
            v@ == Seq::new(i as nat, |j: int| le_u32(data@, first + 4 * j)),
        decreases len - i,
    {
        v.push(u32_at(data, first + 4 * i));
        i = i + 1;
        assert(v@ =~= Seq::new(i as nat, |j: int| le_u32(data@, first + 4 * j)));
    }
    file.pos = file.pos + 4 * (len as u64);
    assert(v@ =~= Seq::new(len as nat, |j: int| le_u32(data@, start + 4 + 4 * j)));
    Ok(v)
}

/// Reads a length-prefixed sequence of 64-bit integers and advances the
/// cursor past it. On failure the cursor stays where it was.
pub fn file_read_vec_u64(file: &mut Cursor) -> (res: Result<Vec<u64>, Error>)
    ensures
        match res {
            Ok(v) => read_vec_u64(old(file).data@, old(file).pos as int) == Ok::<Seq<u64>, Error>(
                v@,
            ),
            Err(e) => read_vec_u64(old(file).data@, old(file).pos as int) == Err::<
                Seq<u64>,
                Error,
            >(e),
        },
        final(file).data == old(file).data,
        final(file).pos == if res is Ok {
            old(file).pos + 4 + 8 * le_u32(old(file).data@, old(file).pos as int)
        } else {
            old(file).pos as int
        },
{
    let start: u64 = file.pos;
    let len: u32 = file_read_u32(file)?;
    if !file.has(8 * (len as u64)) {
        file.pos = start;
        return Err(Error::TruncatedInput);
    }
    let mut v: Vec<u64> = Vec::new();
    if len == 0 {
        assert(v@ =~= Seq::new(0, |j: int| le_u64(file.data@, start + 4 + 8 * j)));
        return Ok(v);
    }
    let data: &[u8] = file.data;
    let first: usize = file.pos as usize;
    let mut i: usize = 0;
    while i < len as usize
        invariant
            i <= len,
            first == start + 4,
            data@.len() <= usize::MAX,
            first + 8 * len <= data@.len(),
            v@ == Seq::new(i as nat, |j: int| le_u64(data@, first + 8 * j)),
        decreases len - i,
    {
        v.push(u64_at(data, first + 8 * i));
        i = i + 1;
        assert(v@ =~= Seq::new(i as nat, |j: int| le_u64(data@, first + 8 * j)));
    }
    file.pos = file.pos + 8 * (len as u64);
    assert(v@ =~= Seq::new(len as nat, |j: int| le_u64(data@, start + 4 + 8 * j)));
    Ok(v)
}

/// Reads a self-relative offset table at the cursor and resolves its entries
/// against `offsets_start`: entry `i` with value `v` stands for the absolute
/// offset `offsets_start + 4 + 4 * i + v`. On failure the cursor stays where
/// it was.
pub fn file_read_abs_offsets(file: &mut Cursor, offsets_start: u64) -> (res: Result<
    Vec<u64>,
    Error,
>)
    requires
        offsets_start <= MAX_TABLE_START,
    ensures
        match res {
            Ok(v) => read_abs_offsets(
                old(file).data@,
                old(file).pos as int,
                offsets_start as int,
            ) == Ok::<Seq<u64>, Error>(v@),
            Err(e) => read_abs_offsets(
                old(file).data@,
                old(file).pos as int,
                offsets_start as int,
            ) == Err::<Seq<u64>, Error>(e),
        },
        final(file).data == old(file).data,
        final(file).pos == if res is Ok {
            old(file).pos + 4 + 4 * le_u32(old(file).data@, old(file).pos as int)
        } else {
            old(file).pos as int
        },
{
    let rel: Vec<u32> = file_read_vec_u32(file)?;
    let mut v: Vec<u64> = Vec::new();
    let mut i: usize = 0;
    while i < rel.len()
        invariant
            i <= rel.len(),
            offsets_start <= MAX_TABLE_START,
            rel@.len() <= u32::MAX,
            v@ == Seq::new(
                i as nat,
                |j: int| abs_offset(offsets_start as int, j, rel@[j] as int) as u64,
            ),
        decreases rel.len() - i,
    {
        v.push(offsets_start + 4 + 4 * (i as u64) + rel[i] as u64);
        i = i + 1;
        assert(v@ =~= Seq::new(
            i as nat,
            |j: int| abs_offset(offsets_start as int, j, rel@[j] as int) as u64,
        ));
    }
    Ok(v)
}

/// Parsing one item at each of the first `n` offsets, in order. The first
/// item that fails ends the reading with its error.
pub open spec fn read_each<T>(
    offsets: Seq<u64>,
    n: nat,
    item: spec_fn(int) -> Result<T, Error>,
) -> Result<Seq<T>, Error>
    decreases n,
{
    if n == 0 {
        Ok(Seq::empty())
    } else {
        match read_each(offsets, (n - 1) as nat, item) {
            Err(e) => Err(e),
            Ok(items) => match item(offsets[n - 1] as int) {
                Err(e) => Err(e),
                Ok(x) => Ok(items.push(x)),
            },
        }
    }
}

/// Reading a table of items: a self-relative offset table at `start`, and
/// one item at each absolute offset that it gives.
pub open spec fn read_table<T>(
    data: Seq<u8>,
    start: int,
    item: spec_fn(int) -> Result<T, Error>,
) -> Result<Seq<T>, Error> {
    match read_abs_offsets(data, start, start) {
        Err(e) => Err(e),
        Ok(offsets) => read_each(offsets, offsets.len(), item),
    }
}

/// Reading each item succeeds exactly when every item parses, and then gives
/// the items in the order of their offsets; otherwise it gives the error of
/// the first item that does not parse.
pub proof fn lemma_read_each<T>(offsets: Seq<u64>, n: nat, item: spec_fn(int) -> Result<T, Error>)
    ensures
        match read_each(offsets, n, item) {
            Ok(items) => {
                &&& items.len() == n
                &&& forall|i: int|
                    0 <= i < n ==> item(#[trigger] offsets[i] as int) == Ok::<T, Error>(items[i])
            },
            Err(e) => exists|k: int|
                {
                    &&& 0 <= k < n
                    &&& #[trigger] item(offsets[k] as int) == Err::<T, Error>(e)
                    &&& forall|i: int| 0 <= i < k ==> item(#[trigger] offsets[i] as int) is Ok
                },
        },
    decreases n,
{
    if n > 0 {
        lemma_read_each(offsets, (n - 1) as nat, item);
        match read_each(offsets, (n - 1) as nat, item) {
            Err(e) => {},
            Ok(items) => {
                match item(offsets[n - 1] as int) {
                    Err(e) => {
                        assert(item(offsets[n - 1] as int) == Err::<T, Error>(e));
                    },
                    Ok(x) => {},
                }
            },
        }
    }
}

/// Once an item fails after all the items before it parsed, reading each
/// item of any longer prefix gives that item's error.
pub proof fn lemma_read_each_fails<T>(
    offsets: Seq<u64>,
    k: nat,
    n: nat,
    item: spec_fn(int) -> Result<T, Error>,
)
    requires
        k < n,
        read_each(offsets, k, item) is Ok,
        item(offsets[k as int] as int) is Err,
    ensures
        read_each(offsets, n, item) == Err::<Seq<T>, Error>(item(offsets[k as int] as int)->Err_0),
    decreases n,
{
    if n > k + 1 {
        lemma_read_each_fails(offsets, k, (n - 1) as nat, item);
    }
}

/// The index of the last occurrence of `h` in `hashes`, or -1 where it does
/// not occur.
pub open spec fn last_index_of(hashes: Seq<u64>, h: u64) -> int
    decreases hashes.len(),
{
    if hashes.len() == 0 {
        -1
    } else if hashes.last() == h {
        hashes.len() - 1
    } else {
        last_index_of(hashes.drop_last(), h)
    }
}

/// The reverse lookup table of a sequence of hashes: each hash that occurs
/// is mapped to the index of its last occurrence.
pub open spec fn hash_index(hashes: Seq<u64>) -> Map<u64, usize> {
    Map::new(|h: u64| last_index_of(hashes, h) >= 0, |h: u64| last_index_of(hashes, h) as usize)
}

/// `last_index_of` is -1 exactly for a hash that does not occur; otherwise
/// it is an index that holds the hash, and no later index does.
pub proof fn lemma_last_index_of(hashes: Seq<u64>, h: u64)
    ensures
        -1 <= last_index_of(hashes, h) < hashes.len(),
        last_index_of(hashes, h) >= 0 <==> hashes.contains(h),
        last_index_of(hashes, h) >= 0 ==> hashes[last_index_of(hashes, h)] == h,
        forall|j: int| last_index_of(hashes, h) < j < hashes.len() ==> hashes[j] != h,
    decreases hashes.len(),
{
    if hashes.len() > 0 {
        lemma_last_index_of(hashes.drop_last(), h);
        if hashes.last() != h {
            if hashes.contains(h) {
                let i = choose|i: int| 0 <= i < hashes.len() && hashes[i] == h;
                assert(hashes.drop_last()[i] == h);
            }
            if hashes.drop_last().contains(h) {
                let i = choose|i: int| 0 <= i < hashes.len() - 1 && hashes.drop_last()[i] == h;
                assert(hashes[i] == h);
            }
            assert forall|j: int| last_index_of(hashes, h) < j < hashes.len() implies hashes[j]
                != h by {
                if j < hashes.len() - 1 {
                    assert(hashes.drop_last()[j] == hashes[j]);
                }
            }
        } else {
            assert(hashes[hashes.len() - 1] == h);
        }
    }
}

/// The reverse lookup table holds exactly the hashes that occur, sends each
/// to a position that holds it, and sends no two hashes to one position.
pub proof fn lemma_hash_index(hashes: Seq<u64>, h1: u64, h2: u64)
    requires
        hashes.len() <= usize::MAX,
    ensures
        hash_index(hashes).contains_key(h1) <==> hashes.contains(h1),
        hash_index(hashes).contains_key(h1) ==> hash_index(hashes)[h1] < hashes.len()
            && hashes[hash_index(hashes)[h1] as int] == h1,
        hash_index(hashes).contains_key(h1) && hash_index(hashes).contains_key(h2) && h1 != h2
            ==> hash_index(hashes)[h1] != hash_index(hashes)[h2],
{
    lemma_last_index_of(hashes, h1);
    lemma_last_index_of(hashes, h2);
}

/// Builds the reverse lookup table of `hashes`. Where a hash occurs more
/// than once, its last index stays.
pub fn build_hash_index(hashes: &Vec<u64>) -> (m: BTreeMap<u64, usize>)
    ensures
        m@ == hash_index(hashes@),
{
    let mut m: BTreeMap<u64, usize> = BTreeMap::new();
    let mut i: usize = 0;
    assert(m@ =~= hash_index(hashes@.take(0)));
    while i < hashes.len()
        invariant
            i <= hashes.len(),
            m@ == hash_index(hashes@.take(i as int)),
        decreases hashes.len() - i,
    {
        let ghost before = hashes@.take(i as int);
        let ghost after = hashes@.take(i + 1);
        m.insert(hashes[i], i);
        proof {
            assert(after.drop_last() =~= before);
            assert(after.last() == hashes@[i as int]);
            assert forall|h: u64| last_index_of(after, h) >= -1 && last_index_of(before, h) < i by {
                lemma_last_index_of(after, h);
                lemma_last_index_of(before, h);
            }
            assert(m@ =~= hash_index(after));
        }
        i = i + 1;
    }
    assert(hashes@.take(i as int) =~= hashes@);
    m
}

/// Looks `h` up in the reverse lookup table `m` of `hashes`.
pub(crate) fn find_hash(m: &BTreeMap<u64, usize>, hashes: Ghost<Seq<u64>>, h: u64) -> (res: Option<
    usize,
>)
    requires
        m@ == hash_index(hashes@),
        hashes@.len() <= usize::MAX,
    ensures
        match res {
            Some(i) => i == last_index_of(hashes@, h) && i < hashes@.len(),
            None => last_index_of(hashes@, h) == -1,
        },
{
    proof {
        lemma_last_index_of(hashes@, h);
    }
    match m.get(&h) {
        Some(i) => Some(*i),
        None => None,
    }
}

/// The digit that stands for a value below sixteen: `0` to `9`, then `a` to
/// `f`.
pub open spec fn digit_char(d: nat) -> char {
    if d < 10 {
        ('0' as nat + d) as char
    } else {
        ('a' as nat + d - 10) as char
    }
}

/// The `n` lowest hexadecimal digits of `h`, the most significant first.
pub open spec fn hex_digits(h: nat, n: nat) -> Seq<char>
    decreases n,
{
    if n == 0 {
        Seq::empty()
    } else {
        hex_digits(h / 16, (n - 1) as nat).push(digit_char(h % 16))
    }
}

/// A 64-bit value as sixteen lower-case hexadecimal digits. A file is
/// written out under this form of its content hash.
pub open spec fn hex16(h: u64) -> Seq<char> {
    hex_digits(h as nat, 16)
}

/// The decimal digits of `n`, the most significant first and without
/// leading zeros.
pub open spec fn dec_digits(n: nat) -> Seq<char>
    decreases n,
{
    if n < 10 {
        seq![digit_char(n)]
    } else {
        dec_digits(n / 10).push(digit_char(n % 10))
    }
}

/// `format!` of std with `{:016x}`: the number as sixteen lower-case
/// hexadecimal digits, padded with zeros in front.
#[verifier::external_body]
pub(crate) fn format_hex16(h: u64) -> (s: String)
    ensures
        s@ == hex16(h),
{
    format!("{:016x}", h)
}

/// `format!` of std with `{}` on an unsigned integer: the number in decimal.
#[verifier::external_body]
pub(crate) fn format_dec(n: u64) -> (s: String)
    ensures
        s@ == dec_digits(n as nat),
{
    format!("{}", n)
}

} // verus!
