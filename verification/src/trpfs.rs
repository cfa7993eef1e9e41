use crate::error::Error;
use crate::kraken::KrakenJob;
use crate::kraken::KrakenJobView;
use crate::trpfd::Trpfd;
use crate::trpfd::TrpfdView;
use crate::utils::build_hash_index;
use crate::utils::Cursor;
use crate::utils::file_read_abs_offsets;
use crate::utils::file_read_bytes;
use crate::utils::file_read_u32;
use crate::utils::file_read_u64;
use crate::utils::file_read_vec_u64;
use crate::utils::find_hash;
use crate::utils::fits;
use crate::utils::format_hex16;
use crate::utils::hash_index;
use crate::utils::hex16;
use crate::utils::last_index_of;
use crate::utils::le_u32;
use crate::utils::le_u64;
use crate::utils::lemma_last_index_of;
use crate::utils::read_abs_offsets;
use crate::utils::read_bytes;
use crate::utils::read_u32;
use crate::utils::read_u64;
use crate::utils::read_vec_u64;
use std::collections::BTreeMap;
use vstd::prelude::*;

verus! {

/// The ceiling on the compressed and on the uncompressed size of an entry:
/// one gibibyte.
pub const MAX_SIZE: u32 = 0x4000_0000;

/// The compression tag of an entry compressed with Kraken.
pub const COMP_KRAKEN: u32 = 0x0403_0000;

/// The compression tag of an entry stored as it is.
pub const COMP_NONE: u32 = 0xff00_0000;

/// What reading one entry of a pack yields.
pub enum Extraction {
    /// The entry is stored uncompressed: these are the bytes of the file.
    Stored(Vec<u8>),
    /// The entry is compressed: the decompressor is to be run on this job.
    Kraken(KrakenJob),
}

/// What reading one entry yields, with its byte strings as sequences.
pub enum ExtractionView {
    Stored(Seq<u8>),
    Kraken(KrakenJobView),
}

impl View for Extraction {
    type V = ExtractionView;

    open spec fn view(&self) -> ExtractionView {
        match self {
            Extraction::Stored(bytes) => ExtractionView::Stored(bytes@),
            Extraction::Kraken(job) => ExtractionView::Kraken(job@),
        }
    }
}

/// One file of a pack: its content hash, the name under which it is written
/// out, and what reading its entry gave.
pub struct ExtractedFile {
    pub hash: u64,
    /// The hash as sixteen lower-case hexadecimal digits.
    pub name: String,
    pub result: Result<Extraction, Error>,
}

/// One file of a pack, with its name and bytes as sequences.
pub struct ExtractedFileView {
    pub hash: u64,
    pub name: Seq<char>,
    pub result: Result<ExtractionView, Error>,
}

impl View for ExtractedFile {
    type V = ExtractedFileView;

    open spec fn view(&self) -> ExtractedFileView {
        ExtractedFileView {
            hash: self.hash,
            name: self.name@,
            result: match self.result {
                Ok(x) => Ok(x@),
                Err(e) => Err(e),
            },
        }
    }
}

/// The header of one entry of a pack. It is read, checked and then dropped:
/// nothing of it is kept once the entry has been read.
#[derive(Clone, Copy, Debug, PartialEq, Eq, Structural)]
pub struct EntryHeader {
    /// The compression tag.
    pub comp_type: u32,
    /// The header size that the entry declares.
    pub header_size: u32,
    /// The size of the file once decompressed.
    pub uncomp_size: u32,
    /// The size of the payload.
    pub comp_size: u32,
}

/// The uncompressed size that the entry at `pos` declares: the low 32 bits
/// of its 64-bit size field.
pub open spec fn entry_uncomp_size(data: Seq<u8>, pos: int) -> u32 {
    (le_u64(data, pos + 12) % 0x1_0000_0000) as u32
}

/// The header of the entry at `pos`. Its fixed part holds four unused bytes,
/// the compression tag, the header size and the uncompressed size. The
/// compressed size stands `header_size - 12` bytes after the fixed part.
pub open spec fn entry_header(data: Seq<u8>, pos: int) -> Result<EntryHeader, Error> {
    if !fits(data, pos, 20) {
        Err(Error::TruncatedInput)
    } else {
        let header_size = le_u32(data, pos + 8);
        match read_u32(data, pos + 8 + header_size) {
            Err(e) => Err(e),
            Ok(comp_size) => Ok(
                EntryHeader {
                    comp_type: le_u32(data, pos + 4),
                    header_size,
                    uncomp_size: entry_uncomp_size(data, pos),
                    comp_size,
                },
            ),
        }
    }
}

/// The guards on a header: both sizes are held to the ceiling, and then the
/// compression tag must be one of the two that are known.
pub open spec fn check_header(h: EntryHeader) -> Result<(), Error> {
    if h.comp_size > MAX_SIZE || h.uncomp_size > MAX_SIZE {
        Err(Error::OversizedField)
    } else if h.comp_type != COMP_KRAKEN && h.comp_type != COMP_NONE {
        Err(Error::UnsupportedCompression)
    } else {
        Ok(())
    }
}

/// The position of the payload of the entry at `pos` with header `h`.
pub open spec fn payload_start(pos: int, h: EntryHeader) -> int {
    pos + 12 + h.header_size
}

/// The position behind the payload of the entry at `pos` with header `h`.
pub open spec fn entry_end(pos: int, h: EntryHeader) -> int {
    payload_start(pos, h) + h.comp_size
}

/// Reading the entry at `pos`: its header is read and checked, and only
/// then its payload. A stored entry yields the payload as the bytes of the
/// file, a compressed one the job of decompressing the payload.
pub open spec fn extract_entry(data: Seq<u8>, pos: int) -> Result<ExtractionView, Error> {
    match entry_header(data, pos) {
        Err(e) => Err(e),
        Ok(h) => match check_header(h) {
            Err(e) => Err(e),
            Ok(_) => match read_bytes(data, payload_start(pos, h), h.comp_size as int) {
                Err(e) => Err(e),
                Ok(payload) => if h.comp_type == COMP_NONE {
                    Ok(ExtractionView::Stored(payload))
                } else {
                    Ok(ExtractionView::Kraken(KrakenJobView { src: payload, uncomp_size: h.uncomp_size }))
                },
            },
        },
    }
}

/// Whether `tag` is the magic tag that a container starts with: the
/// letters `ONEPACK` and a zero byte.
pub open spec fn is_magic(tag: Seq<u8>) -> bool {
    &&& tag.len() == 8
    &&& tag[0] == 0x4f
    &&& tag[1] == 0x4e
    &&& tag[2] == 0x45
    &&& tag[3] == 0x50
    &&& tag[4] == 0x41
    &&& tag[5] == 0x43
    &&& tag[6] == 0x4b
    &&& tag[7] == 0x00
}

/// The pack tables that the bytes of a container hold for an index of
/// `num_packs` packs: the byte offset of each pack and, in the same order,
/// the content hash of each pack.
pub open spec fn parse_trpfs(data: Seq<u8>, num_packs: nat) -> Result<(Seq<u64>, Seq<u64>), Error> {
    match read_bytes(data, 0, 8) {
        Err(e) => Err(e),
        Ok(tag) => if !is_magic(tag) {
            Err(Error::InvalidFormat)
        } else {
            match read_u64(data, 8) {
                Err(e) => Err(e),
                Ok(offsets_start) => match read_vec_u64(data, offsets_start + 28) {
                    Err(e) => Err(e),
                    Ok(pack_offsets) => match read_vec_u64(
                        data,
                        offsets_start + 28 + 4 + 8 * pack_offsets.len() + 4,
                    ) {
                        Err(e) => Err(e),
                        Ok(pack_hashes) => if pack_offsets.len() != num_packs || pack_hashes.len()
                            != num_packs {
                            Err(Error::DecodeError)
                        } else {
                            Ok((pack_offsets, pack_hashes))
                        },
                    },
                },
            }
        },
    }
}

/// The file tables of the pack that starts at `pack_start` and holds
/// `num_files` files: the offset of each entry from the start of the pack
/// and, in the same order, the content hash of each file.
pub open spec fn pack_files(data: Seq<u8>, pack_start: int, num_files: int) -> Result<
    (Seq<u64>, Seq<u64>),
    Error,
> {
    match read_u32(data, pack_start) {
        Err(e) => Err(e),
        Ok(header_size) => match read_u32(data, pack_start + 4 + header_size) {
            Err(e) => Err(e),
            Ok(rel) => match read_abs_offsets(
                data,
                pack_start + header_size + 12,
                header_size + 12,
            ) {
                Err(e) => Err(e),
                Ok(offsets) => if offsets.len() != num_files {
                    Err(Error::DecodeError)
                } else {
                    match read_vec_u64(data, pack_start + rel + header_size + 4) {
                        Err(e) => Err(e),
                        Ok(hashes) => if hashes.len() != num_files {
                            Err(Error::DecodeError)
                        } else {
                            Ok((offsets, hashes))
                        },
                    }
                },
            },
        },
    }
}

/// The contents of an opened container: the index it was opened with, the
/// pack tables and the bytes of the file.
pub struct TrpfsView {
    pub index: TrpfdView,
    pub pack_offsets: Seq<u64>,
    pub pack_hashes: Seq<u64>,
    pub data: Seq<u8>,
}

/// The byte offset in the container of the pack with id `pack_id`. The pack
/// is found by the content hash of its name, at the last position that holds
/// this hash. There is none where the container does not hold the hash.
pub open spec fn find_pack(c: TrpfsView, pack_id: int) -> Option<u64> {
    let idx = last_index_of(c.pack_hashes, c.index.packs[pack_id].hash);
    if idx < 0 {
        None
    } else {
        Some(c.pack_offsets[idx])
    }
}

/// Extracting the pack with id `pack_id`. Each of its files is read on its
/// own: one that fails leaves the others as they are.
pub open spec fn extract_pack(c: TrpfsView, pack_id: int) -> Result<Seq<ExtractedFileView>, Error> {
    match find_pack(c, pack_id) {
        None => Err(Error::PackNotFound),
        Some(pack_start) => match pack_files(
            c.data,
            pack_start as int,
            c.index.packs[pack_id].num_files as int,
        ) {
            Err(e) => Err(e),
            Ok((offsets, hashes)) => Ok(
                Seq::new(
                    offsets.len(),
                    |i: int|
                        ExtractedFileView {
                            hash: hashes[i],
                            name: hex16(hashes[i]),
                            result: extract_entry(c.data, pack_start + offsets[i]),
                        },
                ),
            ),
        },
    }
}

/// An index and a container that do not belong together: where the
/// container holds no pack with the hash of any pack of the index, the
/// extraction of every pack fails, and fails with `PackNotFound`.
pub proof fn lemma_mismatched_pairing(c: TrpfsView, pack_id: int)
    requires
        0 <= pack_id < c.index.packs.len(),
        forall|i: int, j: int|
            0 <= i < c.index.packs.len() && 0 <= j < c.pack_hashes.len() ==> c.index.packs[i].hash
                != c.pack_hashes[j],
    ensures
        extract_pack(c, pack_id) == Err::<Seq<ExtractedFileView>, Error>(Error::PackNotFound),
{
    lemma_last_index_of(c.pack_hashes, c.index.packs[pack_id].hash);
}

/// A container that is accepted for an index holds one byte offset and one
/// content hash for each pack of the index.
pub proof fn lemma_pack_tables_match_index(data: Seq<u8>, num_packs: nat)
    requires
        parse_trpfs(data, num_packs) is Ok,
    ensures
        parse_trpfs(data, num_packs)->Ok_0.0.len() == num_packs,
        parse_trpfs(data, num_packs)->Ok_0.1.len() == num_packs,
{
}

/// Once a pack is found and its file tables are read, the extraction of the
/// pack succeeds and gives one result for each file that the index counts,
/// whatever the entries hold: a file whose entry cannot be read carries its
/// own failure and leaves the results of the others as they are.
pub proof fn lemma_failures_stay_with_their_file(c: TrpfsView, pack_id: int)
    requires
        0 <= pack_id < c.index.packs.len(),
        find_pack(c, pack_id) is Some,
        pack_files(
            c.data,
            find_pack(c, pack_id)->Some_0 as int,
            c.index.packs[pack_id].num_files as int,
        ) is Ok,
    ensures
        ({
            let pack_start = find_pack(c, pack_id)->Some_0;
            let offsets = pack_files(
                c.data,
                pack_start as int,
                c.index.packs[pack_id].num_files as int,
            )->Ok_0.0;
            &&& extract_pack(c, pack_id) matches Ok(files)
            &&& files.len() == c.index.packs[pack_id].num_files
            &&& forall|i: int|
                0 <= i < files.len() ==> (#[trigger] files[i]).result == extract_entry(
                    c.data,
                    pack_start + offsets[i],
                )
        }),
{
}

/// A pack is found in the container exactly when the container holds its
/// hash. It is then read at the offset that stands at the last position of
/// that hash.
pub proof fn lemma_pack_resolution(c: TrpfsView, pack_id: int)
    requires
        0 <= pack_id < c.index.packs.len(),
    ensures
        extract_pack(c, pack_id) == Err::<Seq<ExtractedFileView>, Error>(Error::PackNotFound)
            <==> !c.pack_hashes.contains(c.index.packs[pack_id].hash),
{
    lemma_last_index_of(c.pack_hashes, c.index.packs[pack_id].hash);
    if let Some(pack_start) = find_pack(c, pack_id) {
        lemma_pack_files_errors(c.data, pack_start as int, c.index.packs[pack_id].num_files as int);
    }
}

/// Reading the file tables of a pack fails only as truncated or malformed.
pub proof fn lemma_pack_files_errors(data: Seq<u8>, pack_start: int, num_files: int)
    ensures
        pack_files(data, pack_start, num_files) matches Err(e) ==> e == Error::TruncatedInput || e
            == Error::DecodeError,
{
}

/// A header that declares an uncompressed or a compressed size above the
/// ceiling is refused as oversized, whatever its compression tag; no other
/// header is.
pub proof fn lemma_oversized_header(h: EntryHeader)
    ensures
        check_header(h) == Err::<(), Error>(Error::OversizedField) <==> h.comp_size > MAX_SIZE
            || h.uncomp_size > MAX_SIZE,
{
}

/// An entry whose header can be read and declares an uncompressed or a
/// compressed size above the ceiling is refused as oversized: no payload is
/// read for it and no decompression job is made.
pub proof fn lemma_oversized_entry(data: Seq<u8>, pos: int)
    requires
        entry_header(data, pos) matches Ok(h) && (h.comp_size > MAX_SIZE || h.uncomp_size
            > MAX_SIZE),
    ensures
        extract_entry(data, pos) == Err::<ExtractionView, Error>(Error::OversizedField),
{
}

/// Every decompression job that reading an entry yields is for an output
/// and a payload within the ceiling.
pub proof fn lemma_job_within_ceiling(data: Seq<u8>, pos: int)
    requires
        extract_entry(data, pos) matches Ok(ExtractionView::Kraken(_)),
    ensures
        extract_entry(data, pos) matches Ok(ExtractionView::Kraken(job)) && job.uncomp_size
            <= MAX_SIZE && job.src.len() <= MAX_SIZE,
{
}

/// A stored entry whose header passes the guards and whose payload is all
/// there yields the payload as it stands in the file.
pub proof fn lemma_stored_entry(data: Seq<u8>, pos: int)
    requires
        entry_header(data, pos) matches Ok(h) && check_header(h) is Ok && h.comp_type == COMP_NONE
            && fits(data, payload_start(pos, h), h.comp_size as int),
    ensures
        ({
            let h = entry_header(data, pos)->Ok_0;
            extract_entry(data, pos) == Ok::<ExtractionView, Error>(
                ExtractionView::Stored(data.subrange(payload_start(pos, h), entry_end(pos, h))),
            )
        }),
{
    let h = entry_header(data, pos)->Ok_0;
    assert(data.subrange(payload_start(pos, h), payload_start(pos, h) + 0) =~= Seq::<u8>::empty());
}

/// The reader of one entry of a pack.
pub struct TrpfsCompression;

impl TrpfsCompression {
    /// Reads the header of the entry at the cursor. The cursor ends at the
    /// payload, or where it was if the header cannot be read.
    pub fn read_header(file: &mut Cursor) -> (res: Result<EntryHeader, Error>)
        ensures
            final(file).data == old(file).data,
            res == entry_header(old(file).data@, old(file).pos as int),
            final(file).pos == match res {
                Ok(h) => payload_start(old(file).pos as int, h),
                Err(_) => old(file).pos as int,
            },
    {
        let start: u64 = file.pos;
        if !file.has(20) {
            return Err(Error::TruncatedInput);
        }
        file.seek(start + 4);
        let comp_type: u32 = file_read_u32(file)?;
        let header_size: u32 = file_read_u32(file)?;
        let uncomp_size: u32 = file_read_u32(file)?;
        if file.seek_past(start + 8, header_size as u64).is_err() {
            file.seek(start);
            return Err(Error::TruncatedInput);
        }
        let comp_size: u32 = match file_read_u32(file) {
            Ok(size) => size,
            Err(e) => {
                file.seek(start);
                return Err(e);
            },
        };
        Ok(EntryHeader { comp_type, header_size, uncomp_size, comp_size })
    }

    /// Holds a header to the guards.
    pub fn check(header: &EntryHeader) -> (res: Result<(), Error>)
        ensures
            res == check_header(*header),
    {
        if header.comp_size > MAX_SIZE || header.uncomp_size > MAX_SIZE {
            return Err(Error::OversizedField);
        }
        if header.comp_type != COMP_KRAKEN && header.comp_type != COMP_NONE {
            return Err(Error::UnsupportedCompression);
        }
        Ok(())
    }

    /// Reads the entry at the cursor: its header, and its payload where the
    /// header passes the guards. A stored entry yields the bytes of the
    /// file, a compressed one the job for the decompressor. The cursor ends
    /// behind the payload, or where it was if the entry is refused.
    pub fn extract(file: &mut Cursor) -> (res: Result<Extraction, Error>)
        ensures
            final(file).data == old(file).data,
            match res {
                Ok(x) => extract_entry(old(file).data@, old(file).pos as int) == Ok::<
                    ExtractionView,
                    Error,
                >(x@),
                Err(e) => extract_entry(old(file).data@, old(file).pos as int) == Err::<
                    ExtractionView,
                    Error,
                >(e),
            },
            final(file).pos == match res {
                Ok(_) => entry_end(
                    old(file).pos as int,
                    entry_header(old(file).data@, old(file).pos as int)->Ok_0,
                ),
                Err(_) => old(file).pos as int,
            },
    {
        let start: u64 = file.pos;
        let header: EntryHeader = Self::read_header(file)?;
        if let Err(e) = Self::check(&header) {
            file.seek(start);
            return Err(e);
        }
        let comp_data: Vec<u8> = match file_read_bytes(file, header.comp_size as usize) {
            Ok(bytes) => bytes,
            Err(e) => {
                file.seek(start);
                return Err(e);
            },
        };
        if header.comp_type == COMP_KRAKEN {
            Ok(Extraction::Kraken(KrakenJob::new(comp_data, header.uncomp_size)))
        } else {
            Ok(Extraction::Stored(comp_data))
        }
    }
}

/// An opened container file together with the index that describes it.
pub struct Trpfs {
    trpfd: Trpfd,
    pack_offsets: Vec<u64>,
    pack_hashes: Vec<u64>,
    pack_hash_to_id: BTreeMap<u64, usize>,
    file: Vec<u8>,
}

impl View for Trpfs {
    type V = TrpfsView;

    closed spec fn view(&self) -> TrpfsView {
        TrpfsView {
            index: self.trpfd@,
            pack_offsets: self.pack_offsets@,
            pack_hashes: self.pack_hashes@,
            data: self.file@,
        }
    }
}

impl Trpfs {
    /// The container holds one offset and one hash for each pack of the
    /// index, and the lookup table is that of the hashes.
    #[verifier::type_invariant]
    spec fn inv(&self) -> bool {
        &&& self.pack_offsets@.len() == self.trpfd@.packs.len()
        &&& self.pack_hashes@.len() == self.trpfd@.packs.len()
        &&& self.pack_hash_to_id@ == hash_index(self.pack_hashes@)
    }

    /// Parses the pack tables of a container file and checks them against
    /// the index: the container must hold as many packs as the index.
    pub fn open(file: Vec<u8>, trpfd: Trpfd) -> (res: Result<Self, Error>)
        ensures
            match res {
                Ok(c) => {
                    &&& c@.index == trpfd@
                    &&& c@.data == file@
                    &&& parse_trpfs(file@, trpfd@.packs.len()) == Ok::<(Seq<u64>, Seq<u64>), Error>(
                        (c@.pack_offsets, c@.pack_hashes),
                    )
                },
                Err(e) => parse_trpfs(file@, trpfd@.packs.len()) == Err::<
                    (Seq<u64>, Seq<u64>),
                    Error,
                >(e),
            },
    {
        let mut cursor = Cursor::new(file.as_slice());
        let tag: Vec<u8> = file_read_bytes(&mut cursor, 8)?;
        if tag[0] != 0x4f || tag[1] != 0x4e || tag[2] != 0x45 || tag[3] != 0x50 || tag[4] != 0x41
            || tag[5] != 0x43 || tag[6] != 0x4b || tag[7] != 0x00 {
            return Err(Error::InvalidFormat);
        }
        let offsets_start: u64 = file_read_u64(&mut cursor)?;

        cursor.seek_past(offsets_start, 28)?;
        let pack_offsets: Vec<u64> = file_read_vec_u64(&mut cursor)?;
        cursor.seek_past(cursor.position(), 4)?;
        let pack_hashes: Vec<u64> = file_read_vec_u64(&mut cursor)?;
        if pack_offsets.len() != trpfd.num_packs() || pack_hashes.len() != trpfd.num_packs() {
            return Err(Error::DecodeError);
        }
        let pack_hash_to_id: BTreeMap<u64, usize> = build_hash_index(&pack_hashes);

        Ok(Trpfs { trpfd, pack_offsets, pack_hashes, pack_hash_to_id, file })
    }

    /// The index that the container was opened with.
    pub fn trpfd(&self) -> (index: &Trpfd)
        ensures
            index@ == self@.index,
    {
        &self.trpfd
    }

    /// Reads the file tables of the pack at `pack_start`: the offsets of its
    /// entries and the hashes of its files, `num_files` of each.
    fn read_pack_files(file: &mut Cursor, pack_start: u64, num_files: u64) -> (res: Result<
        (Vec<u64>, Vec<u64>),
        Error,
    >)
        ensures
            final(file).data == old(file).data,
            match res {
                Ok((offsets, hashes)) => pack_files(
                    old(file).data@,
                    pack_start as int,
                    num_files as int,
                ) == Ok::<(Seq<u64>, Seq<u64>), Error>((offsets@, hashes@)),
                Err(e) => pack_files(old(file).data@, pack_start as int, num_files as int) == Err::<
                    (Seq<u64>, Seq<u64>),
                    Error,
                >(e),
            },
    {
        file.seek(pack_start);
        let header_size: u32 = file_read_u32(file)?;
        file.seek_past(file.position(), header_size as u64)?;
        let rel: u32 = file_read_u32(file)?;
        let hashes_start: u64 = rel as u64 + header_size as u64 + 4;

        file.seek_past(file.position(), 4)?;
        let file_offsets: Vec<u64> = file_read_abs_offsets(file, header_size as u64 + 12)?;
        if file_offsets.len() as u64 != num_files {
            return Err(Error::DecodeError);
        }
        file.seek_past(pack_start, hashes_start)?;
        let hashes: Vec<u64> = file_read_vec_u64(file)?;
        if hashes.len() as u64 != num_files {
            return Err(Error::DecodeError);
        }
        Ok((file_offsets, hashes))
    }

    /// Reads every file of the pack with id `pack_id`. The pack is found in
    /// the container by its content hash; where the container has none with
    /// that hash, the index and the container do not belong together. A file
    /// whose entry cannot be read carries its own error and does not stop
    /// the others.
    pub fn extract(&self, pack_id: usize) -> (res: Result<Vec<ExtractedFile>, Error>)
        requires
            pack_id < self@.index.packs.len(),
        ensures
            match res {
                Ok(files) => {
                    &&& extract_pack(self@, pack_id as int) matches Ok(extracted)
                    &&& extracted.len() == files@.len()
                    &&& forall|i: int| 0 <= i < files@.len() ==> (#[trigger] files@[i])@ == extracted[i]
                },
                Err(e) => extract_pack(self@, pack_id as int) == Err::<Seq<ExtractedFileView>, Error>(
                    e,
                ),
            },
    {
        proof {
            use_type_invariant(self);
        }
        let pack_info = self.trpfd.pack_info_at(pack_id);
        assert(self.pack_hashes@.len() == self.pack_hashes.len());
        let idx: usize = match find_hash(
            &self.pack_hash_to_id,
            Ghost(self.pack_hashes@),
            pack_info.hash,
        ) {
            Some(idx) => idx,
            None => { return Err(Error::PackNotFound); },
        };
        let pack_start: u64 = self.pack_offsets[idx];
        let num_files: u64 = pack_info.num_files;

        let mut cursor = Cursor::new(self.file.as_slice());
        let (file_offsets, hashes) = Self::read_pack_files(&mut cursor, pack_start, num_files)?;
        let ghost data = self.file@;

        let mut files: Vec<ExtractedFile> = Vec::new();
        let mut i: usize = 0;
        while i < file_offsets.len()
            invariant
                i <= file_offsets.len(),
                file_offsets.len() == hashes.len(),
                cursor.data@ == data,
                files@.len() == i,
                forall|j: int|
                    0 <= j < i ==> (#[trigger] files@[j])@ == (ExtractedFileView {
                        hash: hashes@[j],
                        name: hex16(hashes@[j]),
                        result: extract_entry(data, pack_start + file_offsets@[j]),
                    }),
            decreases file_offsets.len() - i,
        {
            let result: Result<Extraction, Error> = match cursor.seek_past(
                pack_start,
                file_offsets[i],
            ) {
                Ok(()) => TrpfsCompression::extract(&mut cursor),
                Err(e) => Err(e),
            };
            files.push(ExtractedFile { hash: hashes[i], name: format_hex16(hashes[i]), result });
            i = i + 1;
        }
        Ok(files)
    }
}

} // verus!
