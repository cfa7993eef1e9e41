use crate::error::Error;
use crate::utils::build_hash_index;
use crate::utils::Cursor;
use crate::utils::dec_digits;
use crate::utils::file_read_abs_offsets;
use crate::utils::file_read_string;
use crate::utils::file_read_u32;
use crate::utils::file_read_u64;
use crate::utils::file_read_vec_u64;
use crate::utils::find_hash;
use crate::utils::fits;
use crate::utils::fnv1a64;
use crate::utils::fnv1a64_hash;
use crate::utils::format_dec;
use crate::utils::format_hex16;
use crate::utils::hash_index;
use crate::utils::hex16;
use crate::utils::last_index_of;
use crate::utils::le_u32;
use crate::utils::le_u64;
use crate::utils::lemma_read_each;
use crate::utils::lemma_read_each_fails;
use crate::utils::MAX_TABLE_START;
use crate::utils::read_abs_offsets;
use crate::utils::read_each;
use crate::utils::read_string;
use crate::utils::read_table;
use crate::utils::read_u64;
use crate::utils::read_vec_u64;
use std::collections::BTreeMap;
use vstd::prelude::*;
use vstd::string::StringExecFns;
use vstd::utf8::encode_utf8;

verus! {

/// What the index records of one pack.
pub struct PackInfo {
    /// The pack's name.
    pub name: String,
    /// The size of the pack in the container, as the index declares it.
    pub size: u64,
    /// The number of files in the pack.
    pub num_files: u64,
    /// The content hash of the name's bytes: the key of the pack in the
    /// container.
    pub hash: u64,
}

/// A pack record with its name as a sequence of characters.
pub struct PackInfoView {
    pub name: Seq<char>,
    pub size: u64,
    pub num_files: u64,
    pub hash: u64,
}

impl View for PackInfo {
    type V = PackInfoView;

    open spec fn view(&self) -> PackInfoView {
        PackInfoView { name: self.name@, size: self.size, num_files: self.num_files, hash: self.hash }
    }
}

/// What the index records of one file.
#[derive(Clone, Copy, Debug)]
pub struct FileInfo {
    /// The id of the pack that holds the file's bytes.
    pub pack_id: u64,
    /// The content hash that names the file.
    pub hash: u64,
}

/// The contents of an index: its packs by pack id and its files by file id.
pub struct TrpfdView {
    pub packs: Seq<PackInfoView>,
    pub files: Seq<FileInfo>,
}

impl TrpfdView {
    /// The content hashes of the files, by file id.
    pub open spec fn file_hashes(self) -> Seq<u64> {
        self.files.map_values(|f: FileInfo| f.hash)
    }

    /// The pack that holds the file named `file_name`, and the file's hash.
    /// The file is the last one recorded under that hash. There is none
    /// where no file has the hash, or where the file's pack id names no pack.
    pub open spec fn lookup(self, file_name: Seq<char>) -> Option<(PackInfoView, u64)> {
        let hash = fnv1a64(encode_utf8(file_name));
        let id = last_index_of(self.file_hashes(), hash);
        if id >= 0 && self.files[id].pack_id < self.packs.len() {
            Some((self.packs[self.files[id].pack_id as int], hash))
        } else {
            None
        }
    }
}

/// The line of the pack table for the pack with id `id`: the id, the size
/// and the file count in decimal, the name, and the hash as sixteen
/// hexadecimal digits, separated by commas.
pub open spec fn pack_row(id: nat, pack: PackInfoView) -> Seq<char> {
    dec_digits(id) + ","@ + dec_digits(pack.size as nat) + ","@ + dec_digits(pack.num_files as nat)
        + ","@ + pack.name + ","@ + hex16(pack.hash) + "\n"@
}

/// The lines of the first `n` packs.
pub open spec fn pack_rows(packs: Seq<PackInfoView>, n: nat) -> Seq<char>
    decreases n,
{
    if n == 0 {
        Seq::empty()
    } else {
        pack_rows(packs, (n - 1) as nat) + pack_row((n - 1) as nat, packs[n - 1])
    }
}

/// The line of the file table for the file with id `id`: the id and the
/// pack id in decimal and the hash as sixteen hexadecimal digits, separated
/// by commas.
pub open spec fn file_row(id: nat, file: FileInfo) -> Seq<char> {
    dec_digits(id) + ","@ + dec_digits(file.pack_id as nat) + ","@ + hex16(file.hash) + "\n"@
}

/// The lines of the first `n` files.
pub open spec fn file_rows(files: Seq<FileInfo>, n: nat) -> Seq<char>
    decreases n,
{
    if n == 0 {
        Seq::empty()
    } else {
        file_rows(files, (n - 1) as nat) + file_row((n - 1) as nat, files[n - 1])
    }
}

/// The pack table as comma-separated text: a heading and one line for each
/// pack.
pub open spec fn pack_table(t: TrpfdView) -> Seq<char> {
    "id,size,num_files,name,hash\n"@ + pack_rows(t.packs, t.packs.len())
}

/// The file table as comma-separated text: a heading and one line for each
/// file.
pub open spec fn file_table(t: TrpfdView) -> Seq<char> {
    "id,pack_id,hash\n"@ + file_rows(t.files, t.files.len())
}

/// The position of the file-hash array. Like the three that follow, it is
/// stored in the header relative to the position of the field that holds it.
pub open spec fn hashes_offset(data: Seq<u8>) -> int {
    0x18 + le_u32(data, 24)
}

/// The position of the offset table of the pack names.
pub open spec fn pack_names_start(data: Seq<u8>) -> int {
    0x1C + le_u32(data, 28)
}

/// The position of the offset table of the file records.
pub open spec fn file_infos_start(data: Seq<u8>) -> int {
    0x20 + le_u32(data, 32)
}

/// The position of the offset table of the pack records.
pub open spec fn pack_infos_start(data: Seq<u8>) -> int {
    0x24 + le_u32(data, 36)
}

/// A pack record at `pos`: four unused bytes, the size, the file count and
/// four more unused bytes. It gives the size and the file count.
pub open spec fn pack_record(data: Seq<u8>, pos: int) -> Result<(u64, u64), Error> {
    if fits(data, pos, 24) {
        Ok((le_u64(data, pos + 4), le_u64(data, pos + 12)))
    } else {
        Err(Error::TruncatedInput)
    }
}

/// A file record at `pos`: four unused bytes and a length tag, followed by
/// the pack id where the tag is above four. It gives the pack id, which is
/// zero where none is stored.
pub open spec fn file_record(data: Seq<u8>, pos: int) -> Result<u64, Error> {
    if !fits(data, pos, 8) {
        Err(Error::TruncatedInput)
    } else if le_u32(data, pos + 4) > 4 {
        read_u64(data, pos + 8)
    } else {
        Ok(0)
    }
}

/// The reader of a pack record at a position of `data`.
pub open spec fn pack_record_at(data: Seq<u8>) -> spec_fn(int) -> Result<(u64, u64), Error> {
    |pos: int| pack_record(data, pos)
}

/// The reader of a file record at a position of `data`.
pub open spec fn file_record_at(data: Seq<u8>) -> spec_fn(int) -> Result<u64, Error> {
    |pos: int| file_record(data, pos)
}

/// The reader of a text field at a position of `data`.
pub open spec fn string_at(data: Seq<u8>) -> spec_fn(int) -> Result<Seq<char>, Error> {
    |pos: int| read_string(data, pos)
}

/// The pack records of the table at `start`, as pairs of size and file count.
pub open spec fn read_pack_infos(data: Seq<u8>, start: int) -> Result<Seq<(u64, u64)>, Error> {
    read_table(data, start, pack_record_at(data))
}

/// The pack ids of the file records of the table at `start`.
pub open spec fn read_file_infos(data: Seq<u8>, start: int) -> Result<Seq<u64>, Error> {
    read_table(data, start, file_record_at(data))
}

/// The pack names of the table at `start`.
pub open spec fn read_pack_names(data: Seq<u8>, start: int) -> Result<Seq<Seq<char>>, Error> {
    read_table(data, start, string_at(data))
}

/// The pack record that the index holds for a pack of the given size, file
/// count and name. Its hash is the content hash of the name's bytes.
pub open spec fn pack_info(record: (u64, u64), name: Seq<char>) -> PackInfoView {
    PackInfoView {
        name,
        size: record.0,
        num_files: record.1,
        hash: fnv1a64(encode_utf8(name)),
    }
}

/// The index built from its four tables. The pack records and the pack
/// names must be equally many, and so must the file records and the file
/// hashes.
pub open spec fn assemble(
    records: Seq<(u64, u64)>,
    pack_ids: Seq<u64>,
    names: Seq<Seq<char>>,
    hashes: Seq<u64>,
) -> Result<TrpfdView, Error> {
    if records.len() != names.len() || hashes.len() != pack_ids.len() {
        Err(Error::DecodeError)
    } else {
        Ok(
            TrpfdView {
                packs: Seq::new(records.len(), |i: int| pack_info(records[i], names[i])),
                files: Seq::new(
                    pack_ids.len(),
                    |i: int| FileInfo { pack_id: pack_ids[i], hash: hashes[i] },
                ),
            },
        )
    }
}

/// The index that the bytes of an index file hold. The tables are read in
/// the order pack records, file records, pack names, file hashes, and the
/// first failure is the result. Without `load_file_info` the file records
/// and the file hashes are not read, and the index has no files.
pub open spec fn parse_trpfd(data: Seq<u8>, load_file_info: bool) -> Result<TrpfdView, Error> {
    if !fits(data, 24, 16) {
        Err(Error::TruncatedInput)
    } else {
        match read_pack_infos(data, pack_infos_start(data)) {
            Err(e) => Err(e),
            Ok(records) => match (if load_file_info {
                read_file_infos(data, file_infos_start(data))
            } else {
                Ok(Seq::empty())
            }) {
                Err(e) => Err(e),
                Ok(pack_ids) => match read_pack_names(data, pack_names_start(data)) {
                    Err(e) => Err(e),
                    Ok(names) => match (if load_file_info {
                        read_vec_u64(data, hashes_offset(data))
                    } else {
                        Ok(Seq::empty())
                    }) {
                        Err(e) => Err(e),
                        Ok(hashes) => assemble(records, pack_ids, names, hashes),
                    },
                },
            },
        }
    }
}

/// In every index that parses, the pack-record table and the pack-name table
/// hold equally many entries, and that number is the number of packs.
pub proof fn lemma_pack_counts_agree(data: Seq<u8>, load_file_info: bool)
    requires
        parse_trpfd(data, load_file_info) is Ok,
    ensures
        read_pack_infos(data, pack_infos_start(data)) matches Ok(records) && records.len()
            == parse_trpfd(data, load_file_info)->Ok_0.packs.len(),
        read_pack_names(data, pack_names_start(data)) matches Ok(names) && names.len()
            == parse_trpfd(data, load_file_info)->Ok_0.packs.len(),
{
}

/// Where every table parses and the pack-record table and the pack-name
/// table hold different numbers of entries, the index is refused as
/// malformed.
pub proof fn lemma_pack_count_mismatch(data: Seq<u8>, load_file_info: bool)
    requires
        fits(data, 24, 16),
        read_pack_infos(data, pack_infos_start(data)) is Ok,
        read_pack_names(data, pack_names_start(data)) is Ok,
        load_file_info ==> read_file_infos(data, file_infos_start(data)) is Ok,
        load_file_info ==> read_vec_u64(data, hashes_offset(data)) is Ok,
        read_pack_infos(data, pack_infos_start(data))->Ok_0.len() != read_pack_names(
            data,
            pack_names_start(data),
        )->Ok_0.len(),
    ensures
        parse_trpfd(data, load_file_info) == Err::<TrpfdView, Error>(Error::DecodeError),
{
}

/// Opening an index fails in two ways only: the input is truncated, or it is
/// malformed.
pub proof fn lemma_open_errors(data: Seq<u8>, load_file_info: bool)
    ensures
        parse_trpfd(data, load_file_info) matches Err(e) ==> e == Error::TruncatedInput || e
            == Error::DecodeError,
{
    let records = read_abs_offsets(data, pack_infos_start(data), pack_infos_start(data));
    if records is Ok {
        lemma_read_each(records->Ok_0, records->Ok_0.len(), pack_record_at(data));
    }
    let files = read_abs_offsets(data, file_infos_start(data), file_infos_start(data));
    if files is Ok {
        lemma_read_each(files->Ok_0, files->Ok_0.len(), file_record_at(data));
    }
    let names = read_abs_offsets(data, pack_names_start(data), pack_names_start(data));
    if names is Ok {
        lemma_read_each(names->Ok_0, names->Ok_0.len(), string_at(data));
    }
}

/// In every index that parses, each pack's hash is the content hash of the
/// bytes of its name, the files are as many as the file hashes, and each
/// file carries the hash at its own position of the hash array.
pub proof fn lemma_index_hashes(data: Seq<u8>, load_file_info: bool)
    requires
        parse_trpfd(data, load_file_info) is Ok,
    ensures
        ({
            let t = parse_trpfd(data, load_file_info)->Ok_0;
            &&& forall|i: int|
                0 <= i < t.packs.len() ==> (#[trigger] t.packs[i]).hash == fnv1a64(
                    encode_utf8(t.packs[i].name),
                )
            &&& load_file_info ==> read_vec_u64(data, hashes_offset(data)) == Ok::<Seq<u64>, Error>(
                t.file_hashes(),
            )
            &&& !load_file_info ==> t.files.len() == 0
        }),
{
    let t = parse_trpfd(data, load_file_info)->Ok_0;
    if load_file_info {
        assert(t.file_hashes() =~= read_vec_u64(data, hashes_offset(data))->Ok_0);
    }
}

/// A parsed index file: the packs of an archive and, where they were asked
/// for, its files.
pub struct Trpfd {
    pack_infos: Vec<PackInfo>,
    file_infos: Vec<FileInfo>,
    file_hash_to_id: BTreeMap<u64, usize>,
}

impl View for Trpfd {
    type V = TrpfdView;

    closed spec fn view(&self) -> TrpfdView {
        TrpfdView {
            packs: Seq::new(self.pack_infos@.len(), |i: int| self.pack_infos@[i]@),
            files: self.file_infos@,
        }
    }
}

impl Trpfd {
    /// The lookup table is that of the file hashes, and each pack carries
    /// the content hash of its name.
    #[verifier::type_invariant]
    spec fn inv(&self) -> bool {
        &&& self.file_hash_to_id@ == hash_index(self@.file_hashes())
        &&& forall|i: int|
            0 <= i < self.pack_infos@.len() ==> (#[trigger] self.pack_infos@[i]).hash == fnv1a64(
                encode_utf8(self.pack_infos@[i].name@),
            )
    }

    /// Reads the table of pack records at `offsets_start`.
    fn read_pack_infos(file: &mut Cursor, offsets_start: u64) -> (res: Result<
        Vec<(u64, u64)>,
        Error,
    >)
        requires
            offsets_start <= MAX_TABLE_START,
        ensures
            final(file).data == old(file).data,
            match res {
                Ok(v) => read_pack_infos(old(file).data@, offsets_start as int) == Ok::<
                    Seq<(u64, u64)>,
                    Error,
                >(v@),
                Err(e) => read_pack_infos(old(file).data@, offsets_start as int) == Err::<
                    Seq<(u64, u64)>,
                    Error,
                >(e),
            },
    {
        let ghost data = file.data@;
        file.seek(offsets_start);
        let offsets: Vec<u64> = file_read_abs_offsets(file, offsets_start)?;
        let mut infos: Vec<(u64, u64)> = Vec::new();
        let mut i: usize = 0;
        while i < offsets.len()
            invariant
                i <= offsets.len(),
                file.data@ == data,
                file.data == old(file).data,
                read_abs_offsets(data, offsets_start as int, offsets_start as int) == Ok::<
                    Seq<u64>,
                    Error,
                >(offsets@),
                read_each(offsets@, i as nat, pack_record_at(data)) == Ok::<
                    Seq<(u64, u64)>,
                    Error,
                >(infos@),
            decreases offsets.len() - i,
        {
            file.seek(offsets[i]);
            if !file.has(24) {
                proof {
                    lemma_read_each_fails(
                        offsets@,
                        i as nat,
                        offsets@.len(),
                        pack_record_at(data),
                    );
                }
                return Err(Error::TruncatedInput);
            }
            let _ = file_read_u32(file)?;
            let size: u64 = file_read_u64(file)?;
            let num_files: u64 = file_read_u64(file)?;
            let _ = file_read_u32(file)?;
            infos.push((size, num_files));
            i = i + 1;
        }
        Ok(infos)
    }

    /// Reads the table of pack names at `offsets_start`.
    fn read_pack_names(file: &mut Cursor, offsets_start: u64) -> (res: Result<Vec<String>, Error>)
        requires
            offsets_start <= MAX_TABLE_START,
        ensures
            final(file).data == old(file).data,
            match res {
                Ok(v) => {
                    &&& read_pack_names(old(file).data@, offsets_start as int) matches Ok(names)
                    &&& names.len() == v@.len()
                    &&& forall|i: int| 0 <= i < v@.len() ==> (#[trigger] v@[i])@ == names[i]
                },
                Err(e) => read_pack_names(old(file).data@, offsets_start as int) == Err::<
                    Seq<Seq<char>>,
                    Error,
                >(e),
            },
    {
        let ghost data = file.data@;
        file.seek(offsets_start);
        let offsets: Vec<u64> = file_read_abs_offsets(file, offsets_start)?;
        let mut names: Vec<String> = Vec::new();
        let mut i: usize = 0;
        while i < offsets.len()
            invariant
                i <= offsets.len(),
                file.data@ == data,
                file.data == old(file).data,
                read_abs_offsets(data, offsets_start as int, offsets_start as int) == Ok::<
                    Seq<u64>,
                    Error,
                >(offsets@),
                names@.len() == i,
                read_each(offsets@, i as nat, string_at(data)) matches Ok(read) && read.len() == i
                    && forall|j: int| 0 <= j < i ==> (#[trigger] names@[j])@ == read[j],
            decreases offsets.len() - i,
        {
            file.seek(offsets[i]);
            let name: String = match file_read_string(file) {
                Ok(name) => name,
                Err(e) => {
                    proof {
                        lemma_read_each_fails(
                            offsets@,
                            i as nat,
                            offsets@.len(),
                            string_at(data),
                        );
                    }
                    return Err(e);
                },
            };
            names.push(name);
            i = i + 1;
        }
        Ok(names)
    }

    /// Reads the table of file records at `offsets_start`.
    fn read_file_infos(file: &mut Cursor, offsets_start: u64) -> (res: Result<Vec<u64>, Error>)
        requires
            offsets_start <= MAX_TABLE_START,
        ensures
            final(file).data == old(file).data,
            match res {
                Ok(v) => read_file_infos(old(file).data@, offsets_start as int) == Ok::<
                    Seq<u64>,
                    Error,
                >(v@),
                Err(e) => read_file_infos(old(file).data@, offsets_start as int) == Err::<
                    Seq<u64>,
                    Error,
                >(e),
            },
    {
        let ghost data = file.data@;
        file.seek(offsets_start);
        let offsets: Vec<u64> = file_read_abs_offsets(file, offsets_start)?;
        let mut infos: Vec<u64> = Vec::new();
        let mut i: usize = 0;
        while i < offsets.len()
            invariant
                i <= offsets.len(),
                file.data@ == data,
                file.data == old(file).data,
                read_abs_offsets(data, offsets_start as int, offsets_start as int) == Ok::<
                    Seq<u64>,
                    Error,
                >(offsets@),
                read_each(offsets@, i as nat, file_record_at(data)) == Ok::<Seq<u64>, Error>(
                    infos@,
                ),
            decreases offsets.len() - i,
        {
            file.seek(offsets[i]);
            if !file.has(8) {
                proof {
                    lemma_read_each_fails(
                        offsets@,
                        i as nat,
                        offsets@.len(),
                        file_record_at(data),
                    );
                }
                return Err(Error::TruncatedInput);
            }
            let _ = file_read_u32(file)?;
            let len: u32 = file_read_u32(file)?;
            let pack_id: u64 = if len > 4 {
                match file_read_u64(file) {
                    Ok(id) => id,
                    Err(e) => {
                        proof {
                            lemma_read_each_fails(
                                offsets@,
                                i as nat,
                                offsets@.len(),
                                file_record_at(data),
                            );
                        }
                        return Err(e);
                    },
                }
            } else {
                0
            };
            infos.push(pack_id);
            i = i + 1;
        }
        Ok(infos)
    }

    /// Parses the bytes of an index file. The file records and file hashes
    /// are read only with `load_file_info`.
    pub fn open(data: &[u8], load_file_info: bool) -> (res: Result<Self, Error>)
        ensures
            match res {
                Ok(t) => parse_trpfd(data@, load_file_info) == Ok::<TrpfdView, Error>(t@),
                Err(e) => parse_trpfd(data@, load_file_info) == Err::<TrpfdView, Error>(e),
            },
    {
        let mut file = Cursor::new(data);
        file.seek(24);
        if !file.has(16) {
            return Err(Error::TruncatedInput);
        }
        let hashes_offset: u64 = 0x18 + file_read_u32(&mut file)? as u64;
        let packname_offsets_start: u64 = 0x1C + file_read_u32(&mut file)? as u64;
        let fileinfo_offsets_start: u64 = 0x20 + file_read_u32(&mut file)? as u64;
        let packinfo_offsets_start: u64 = 0x24 + file_read_u32(&mut file)? as u64;

        let records: Vec<(u64, u64)> = Self::read_pack_infos(&mut file, packinfo_offsets_start)?;
        let pack_ids: Vec<u64> = if load_file_info {
            Self::read_file_infos(&mut file, fileinfo_offsets_start)?
        } else {
            Vec::new()
        };
        let names: Vec<String> = Self::read_pack_names(&mut file, packname_offsets_start)?;
        let hashes: Vec<u64> = if load_file_info {
            file.seek(hashes_offset);
            file_read_vec_u64(&mut file)?
        } else {
            Vec::new()
        };

        if records.len() != names.len() || hashes.len() != pack_ids.len() {
            return Err(Error::DecodeError);
        }
        let ghost spec_names = read_pack_names(data@, pack_names_start(data@))->Ok_0;
        let ghost parsed = assemble(records@, pack_ids@, spec_names, hashes@)->Ok_0;

        let mut pack_infos: Vec<PackInfo> = Vec::new();
        let mut i: usize = 0;
        while i < names.len()
            invariant
                i <= names.len(),
                records.len() == names.len(),
                spec_names.len() == names@.len(),
                forall|j: int| 0 <= j < names@.len() ==> (#[trigger] names@[j])@ == spec_names[j],
                pack_infos@.len() == i,
                forall|j: int|
                    0 <= j < i ==> (#[trigger] pack_infos@[j])@ == pack_info(
                        records@[j],
                        spec_names[j],
                    ),
            decreases names.len() - i,
        {
            let name: String = names[i].clone();
            let hash: u64 = fnv1a64_hash(name.as_str().as_bytes());
            pack_infos.push(
                PackInfo { name, size: records[i].0, num_files: records[i].1, hash },
            );
            i = i + 1;
        }

        let mut file_infos: Vec<FileInfo> = Vec::new();
        let mut k: usize = 0;
        while k < hashes.len()
            invariant
                k <= hashes.len(),
                hashes.len() == pack_ids.len(),
                file_infos@.len() == k,
                forall|j: int|
                    0 <= j < k ==> #[trigger] file_infos@[j] == (FileInfo {
                        pack_id: pack_ids@[j],
                        hash: hashes@[j],
                    }),
            decreases hashes.len() - k,
        {
            file_infos.push(FileInfo { pack_id: pack_ids[k], hash: hashes[k] });
            k = k + 1;
        }
        let file_hash_to_id: BTreeMap<u64, usize> = build_hash_index(&hashes);

        proof {
            assert(file_infos@ =~= parsed.files);
            assert(parsed.file_hashes() =~= hashes@);
        }
        let t = Trpfd { pack_infos, file_infos, file_hash_to_id };
        proof {
            assert(t@.packs =~= parsed.packs);
        }
        Ok(t)
    }

    /// The number of packs.
    pub fn num_packs(&self) -> (n: usize)
        ensures
            n == self@.packs.len(),
    {
        self.pack_infos.len()
    }

    /// The number of files. It is zero where the index was opened without
    /// file information.
    pub fn num_files(&self) -> (n: usize)
        ensures
            n == self@.files.len(),
    {
        self.file_infos.len()
    }

    /// The record of the pack with the given id.
    pub fn pack_info_at(&self, id: usize) -> (info: &PackInfo)
        requires
            id < self@.packs.len(),
        ensures
            info@ == self@.packs[id as int],
            info.hash == fnv1a64(encode_utf8(info.name@)),
    {
        proof {
            use_type_invariant(self);
        }
        &self.pack_infos[id]
    }

    /// The record of the file with the given id.
    pub fn file_info_at(&self, id: usize) -> (info: FileInfo)
        requires
            id < self@.files.len(),
        ensures
            info == self@.files[id as int],
    {
        self.file_infos[id]
    }

    /// Appends the pack table to `out` as comma-separated text.
    pub fn save_pack_info(&self, out: &mut String)
        ensures
            final(out)@ == old(out)@ + pack_table(self@),
    {
        out.append("id,size,num_files,name,hash\n");
        let mut i: usize = 0;
        while i < self.pack_infos.len()
            invariant
                i <= self.pack_infos.len(),
                out@ == old(out)@ + "id,size,num_files,name,hash\n"@ + pack_rows(
                    self@.packs,
                    i as nat,
                ),
            decreases self.pack_infos.len() - i,
        {
            let info = &self.pack_infos[i];
            let ghost before = out@;
            out.append(format_dec(i as u64).as_str());
            out.append(",");
            out.append(format_dec(info.size).as_str());
            out.append(",");
            out.append(format_dec(info.num_files).as_str());
            out.append(",");
            out.append(info.name.as_str());
            out.append(",");
            out.append(format_hex16(info.hash).as_str());
            out.append("\n");
            assert(out@ =~= before + pack_row(i as nat, self@.packs[i as int]));
            i = i + 1;
            assert(out@ =~= old(out)@ + "id,size,num_files,name,hash\n"@ + pack_rows(
                self@.packs,
                i as nat,
            ));
        }
        assert(out@ =~= old(out)@ + pack_table(self@));
    }

    /// Appends the file table to `out` as comma-separated text.
    pub fn save_file_info(&self, out: &mut String)
        ensures
            final(out)@ == old(out)@ + file_table(self@),
    {
        out.append("id,pack_id,hash\n");
        let mut i: usize = 0;
        while i < self.file_infos.len()
            invariant
                i <= self.file_infos.len(),
                out@ == old(out)@ + "id,pack_id,hash\n"@ + file_rows(self@.files, i as nat),
            decreases self.file_infos.len() - i,
        {
            let info = &self.file_infos[i];
            let ghost before = out@;
            out.append(format_dec(i as u64).as_str());
            out.append(",");
            out.append(format_dec(info.pack_id).as_str());
            out.append(",");
            out.append(format_hex16(info.hash).as_str());
            out.append("\n");
            assert(out@ =~= before + file_row(i as nat, self@.files[i as int]));
            i = i + 1;
            assert(out@ =~= old(out)@ + "id,pack_id,hash\n"@ + file_rows(self@.files, i as nat));
        }
        assert(out@ =~= old(out)@ + file_table(self@));
    }

    /// Finds the file named `file_name` by the content hash of the name, and
    /// gives the pack that holds it together with the hash.
    pub fn lookup_file(&self, file_name: &str) -> (res: Option<(&PackInfo, u64)>)
        ensures
            match res {
                Some((pack, hash)) => self@.lookup(file_name@) == Some((pack@, hash)),
                None => self@.lookup(file_name@) is None,
            },
    {
        proof {
            use_type_invariant(self);
        }
        let hash: u64 = fnv1a64_hash(file_name.as_bytes());
        assert(self@.file_hashes().len() == self.file_infos.len());
        let file_id: usize = find_hash(&self.file_hash_to_id, Ghost(self@.file_hashes()), hash)?;
        let pack_id: u64 = self.file_infos[file_id].pack_id;
        if pack_id >= self.pack_infos.len() as u64 {
            return None;
        }
        Some((&self.pack_infos[pack_id as usize], hash))
    }
}

} // verus!
