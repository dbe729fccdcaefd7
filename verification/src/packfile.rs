use vstd::prelude::*;
use vstd::utf8::*;
use vstd::string::*;
use vstd::slice::slice_to_vec;
use crate::byte_order::{encode_uint, lemma_uint_bytes_len, uint_bytes};
use crate::collectible_database::{count32, len32};
use crate::error::{Error, Fault};
use crate::file_manipulator::{gap_to_multiple, start_of, zeros, Cursor, EndianType, FileManipulator, WriteMode};
use crate::text::{
    append_bytes,
    backslashes_to_slashes,
    bytes_eq,
    lowercase,
    reversed,
    rsplit_once_slash,
    slashed,
    str_eq,
    string_from_utf8,
    to_lowercase,
};
use crate::zlib::{deflate, inflate, zlib_deflated, zlib_inflated};

verus! {

broadcast use {decode_utf8_encode_utf8, encode_utf8_decode_utf8, encode_utf8_valid_utf8};

/// A four-byte token that is stored reversed in little-endian files.
#[derive(Debug, PartialEq, Eq)]
pub struct EndianDependentString {
    pub text: String,
}

/// A file inside an archive.
#[derive(Debug, PartialEq, Eq)]
pub struct VirtualFile {
    /// The type tag (not the extension of the path).
    pub type_: EndianDependentString,
    /// Whether the data is stored compressed.
    pub compress: bool,
    /// The zlib level, 0 to 9.
    pub compression_level: u32,
    /// The path, with forward slashes.
    pub path: String,
    /// The data, uncompressed.
    pub data: Vec<u8>,
}

/// An archive of virtual files.
#[derive(Debug, PartialEq, Eq)]
pub struct Packfile {
    /// The magic, `" KAP"` in canonical order.
    pub magic: EndianDependentString,
    /// The version, 2.
    pub version: u32,
    /// The files, in the order of their records.
    pub files: Vec<VirtualFile>,
}

/// The mathematical value of a [`VirtualFile`].
pub struct VirtualFileModel {
    pub type_: Seq<char>,
    pub compress: bool,
    pub compression_level: u32,
    pub path: Seq<char>,
    pub data: Seq<u8>,
}

/// The mathematical value of a [`Packfile`].
pub struct PackfileModel {
    pub magic: Seq<char>,
    pub version: u32,
    pub files: Seq<VirtualFileModel>,
}

impl DeepView for EndianDependentString {
    type V = Seq<char>;

    open spec fn deep_view(&self) -> Seq<char> {
        self.text@
    }
}

impl DeepView for VirtualFile {
    type V = VirtualFileModel;

    open spec fn deep_view(&self) -> VirtualFileModel {
        VirtualFileModel {
            type_: self.type_.text@,
            compress: self.compress,
            compression_level: self.compression_level,
            path: self.path@,
            data: self.data@,
        }
    }
}

impl DeepView for Packfile {
    type V = PackfileModel;

    open spec fn deep_view(&self) -> PackfileModel {
        PackfileModel { magic: self.magic.text@, version: self.version, files: self.files.deep_view() }
    }
}

/// `b` without the zero bytes at its end.
pub open spec fn trim_trailing_nuls(b: Seq<u8>) -> Seq<u8>
    decreases b.len(),
{
    if b.len() > 0 && b.last() == 0 {
        trim_trailing_nuls(b.drop_last())
    } else {
        b
    }
}

/// Bytes in canonical order, as a file of the given byte order holds them:
/// as they are in a big-endian file, reversed in a little-endian one.
pub open spec fn in_order(endian: EndianType, b: Seq<u8>) -> Seq<u8> {
    match endian {
        EndianType::BIG => b,
        EndianType::LITTLE => b.reverse(),
    }
}

/// A four-byte token read at the cursor: the bytes, put in canonical order,
/// without the zero bytes at their end, as UTF-8 text.
pub open spec fn parse_tag(c: Cursor) -> Result<(Seq<char>, Cursor), Fault> {
    match c.read(4) {
        Err(e) => Err(e),
        Ok((b, c1)) => {
            let t = trim_trailing_nuls(in_order(c.endian, b));
            if valid_utf8(t) {
                Ok((decode_utf8(t), c1))
            } else {
                Err(Fault::BadEncoding)
            }
        },
    }
}

/// The bytes of a token: its text, zero-padded to four bytes, in the order
/// of the file.
pub open spec fn tag_bytes(text: Seq<char>, endian: EndianType) -> Seq<u8> {
    in_order(endian, encode_utf8(text) + zeros(4 - encode_utf8(text).len()))
}

/// The offset of the last slash of a path, or -1 where it has none.
pub open spec fn last_slash(path: Seq<char>) -> int
    decreases path.len(),
{
    if path.len() == 0 {
        -1
    } else if path.last() == '/' {
        path.len() - 1
    } else {
        last_slash(path.drop_last())
    }
}

/// What stands before the last slash of a path; nothing without a slash.
pub open spec fn folder_of(path: Seq<char>) -> Seq<char> {
    if last_slash(path) < 0 {
        Seq::<char>::empty()
    } else {
        path.subrange(0, last_slash(path))
    }
}

/// What stands behind the last slash of a path; all of it without a slash.
pub open spec fn filename_of(path: Seq<char>) -> Seq<char> {
    path.subrange(last_slash(path) + 1, path.len() as int)
}

/// The path of a file in `folder`: the name alone where the folder is
/// empty, else folder, slash and name.
pub open spec fn joined_path(folder: Seq<char>, name: Seq<char>) -> Seq<char> {
    if folder.len() == 0 {
        name
    } else {
        folder + seq!['/'] + name
    }
}

/// The bytes under which a file is stored: its data, or the zlib stream of
/// it where it is compressed. `None` where the compressor fails.
pub open spec fn stored_bytes(f: VirtualFileModel) -> Option<Seq<u8>> {
    if f.compress {
        zlib_deflated(f.data, f.compression_level)
    } else {
        Some(f.data)
    }
}

/// Stored bytes with zero bytes behind them up to a multiple of 32.
pub open spec fn assembled_bytes(stored: Seq<u8>) -> Seq<u8> {
    stored + zeros(gap_to_multiple(stored.len() as int, 32))
}

/// A path without a slash has no last slash.
pub proof fn lemma_last_slash_none(path: Seq<char>)
    requires
        !path.contains('/'),
    ensures
        last_slash(path) == -1,
    decreases path.len(),
{
    if path.len() > 0 {
        assert(path.last() == path[path.len() - 1]);
        let head = path.drop_last();
        assert forall|i: int| 0 <= i < head.len() implies head[i] != '/' by {
            assert(head[i] == path[i]);
        }
        lemma_last_slash_none(head);
    }
}

/// In `a`, slash, `b` with no slash in `b`, the last slash stands behind
/// `a`.
pub proof fn lemma_last_slash_split(a: Seq<char>, b: Seq<char>)
    requires
        !b.contains('/'),
    ensures
        last_slash(a + seq!['/'] + b) == a.len(),
        folder_of(a + seq!['/'] + b) == a,
        filename_of(a + seq!['/'] + b) == b,
    decreases b.len(),
{
    let s = a + seq!['/'] + b;
    if b.len() == 0 {
        assert(s.last() == '/');
    } else {
        assert(s.last() == b.last());
        assert(b.last() == b[b.len() - 1]);
        let head = b.drop_last();
        assert forall|i: int| 0 <= i < head.len() implies head[i] != '/' by {
            assert(head[i] == b[i]);
        }
        assert(!head.contains('/'));
        lemma_last_slash_split(a, head);
        assert(s.drop_last() =~= a + seq!['/'] + head);
    }
    assert(s.subrange(0, a.len() as int) =~= a);
    assert(s.subrange(a.len() as int + 1, s.len() as int) =~= b);
}

/// The token's bytes in canonical order: zero-padded to four bytes.
fn padded_tag(text: &str) -> (out: Vec<u8>)
    ensures
        out@ == encode_utf8(text@) + zeros(4 - encode_utf8(text@).len()),
{
    let mut out = text.as_bytes_vec();
    let ghost base = out@;
    while out.len() < 4
        invariant
            base == encode_utf8(text@),
            out@ == base + zeros(out@.len() - base.len()),
            out@.len() >= base.len(),
            out@.len() <= 4 || out@.len() == base.len(),
        decreases 4 - out@.len(),
    {
        out.push(0);
        assert(out@ =~= base + zeros(out@.len() - base.len()));
    }
    assert(out@ =~= base + zeros(4 - base.len()));
    out
}

/// Appends zero bytes up to a multiple of 32.
fn pad_to_32(out: &mut Vec<u8>)
    ensures
        final(out)@ == assembled_bytes(old(out)@),
{
    let ghost stored = out@;
    while out.len() % 32 != 0
        invariant
            out@.len() >= stored.len(),
            out@ == stored + zeros(out@.len() - stored.len()),
            out@.len() - stored.len() <= gap_to_multiple(stored.len() as int, 32),
        decreases gap_to_multiple(stored.len() as int, 32) - (out@.len() - stored.len()),
    {
        out.push(0);
        assert(out@ =~= stored + zeros(out@.len() - stored.len()));
    }
}

/// Appends `count` zero bytes.
fn push_zeros(out: &mut Vec<u8>, count: usize)
    ensures
        final(out)@ == old(out)@ + zeros(count as int),
{
    let mut i: usize = 0;
    while i < count
        invariant
            i <= count,
            out@ == old(out)@ + zeros(i as int),
        decreases count - i,
    {
        out.push(0);
        i += 1;
        assert(out@ =~= old(out)@ + zeros(i as int));
    }
    assert(old(out)@ + zeros(0) =~= old(out)@);
}

/// Appends the four bytes of `x` in the given byte order.
fn push_u32(v: &mut Vec<u8>, x: u32, endian: EndianType)
    ensures
        final(v)@ == old(v)@ + uint_bytes(endian, x as nat, 4),
        final(v)@.len() == old(v)@.len() + 4,
{
    let bytes = encode_uint(x as u128, 4, endian);
    append_bytes(v, bytes.as_slice());
}

impl EndianDependentString {
    pub fn new(text: String) -> (s: Self)
        ensures
            s.text == text,
    {
        Self { text }
    }

    /// Reads a token at the cursor into `self`: four bytes, put in canonical
    /// order, without the zero bytes at their end. On a failure neither
    /// `self` nor the cursor has changed.
    pub fn unpack(&mut self, fm: &mut FileManipulator) -> (res: Result<(), Error>)
        requires
            old(fm).wf(),
        ensures
            final(fm).wf(),
            final(fm)@.same_buffer(old(fm)@),
            match res {
                Ok(_) => parse_tag(old(fm)@) == Ok::<(Seq<char>, Cursor), Fault>((final(self).text@, final(fm)@)),
                Err(e) => parse_tag(old(fm)@) == Err::<(Seq<char>, Cursor), Fault>(e@) && final(fm)@ == old(
                    fm,
                )@ && *final(self) == *old(self),
            },
    {
        let start: usize = fm.pos;
        let raw = fm.read(4)?;
        let mut bytes = match fm.endian {
            EndianType::BIG => raw,
            EndianType::LITTLE => reversed(&raw),
        };
        let ghost ordered = bytes@;
        while bytes.len() > 0 && bytes[bytes.len() - 1] == 0
            invariant
                trim_trailing_nuls(bytes@) == trim_trailing_nuls(ordered),
            decreases bytes@.len(),
        {
            let ghost before = bytes@;
            bytes.pop();
            assert(bytes@ =~= before.drop_last());
        }
        match string_from_utf8(bytes) {
            Some(s) => {
                self.text = s;
                Ok(())
            },
            None => {
                fm.pos = start;
                Err(Error::BadEncoding)
            },
        }
    }

    /// The bytes of the token in a file of the given byte order.
    pub fn pack(&self, endian_type: EndianType) -> (out: Vec<u8>)
        ensures
            out@ == tag_bytes(self.text@, endian_type),
    {
        let padded = padded_tag(self.text.as_str());
        match endian_type {
            EndianType::BIG => padded,
            EndianType::LITTLE => reversed(&padded),
        }
    }

    pub fn clone(&self) -> (s: Self)
        ensures
            s.text@ == self.text@,
    {
        EndianDependentString::new(self.text.clone())
    }
}

impl VirtualFile {
    /// The compression level is one that zlib knows and the type tag fits
    /// four bytes.
    pub open spec fn wf(&self) -> bool {
        self.compression_level <= 9 && encode_utf8(self.type_.text@).len() <= 4
    }

    pub fn new(
        type_: EndianDependentString,
        compress: bool,
        compression_level: u32,
        path: String,
        data: Vec<u8>,
    ) -> (f: Self)
        ensures
            f.type_ == type_,
            f.compress == compress,
            f.compression_level == compression_level,
            f.path == path,
            f.data == data,
    {
        Self { type_, compress, compression_level, path, data }
    }

    /// The bytes under which the file is stored: its data, or the zlib
    /// stream of it where it is compressed.
    pub fn get_compressed_data(&self) -> (res: Result<Vec<u8>, Error>)
        requires
            self.compression_level <= 9,
        ensures
            match res {
                Ok(v) => stored_bytes(self.deep_view()) == Some(v@),
                Err(e) => stored_bytes(self.deep_view()) is None && e@ == Fault::Io,
            },
    {
        if self.compress {
            match deflate(self.data.as_slice(), self.compression_level) {
                Ok(v) => Ok(v),
                Err(_) => Err(Error::Io),
            }
        } else {
            Ok(slice_to_vec(self.data.as_slice()))
        }
    }

    /// The stored bytes, zero-padded to a multiple of 32.
    pub fn get_assembled_data(&self) -> (res: Result<Vec<u8>, Error>)
        requires
            self.compression_level <= 9,
        ensures
            match res {
                Ok(v) => stored_bytes(self.deep_view()) matches Some(s) && v@ == assembled_bytes(s),
                Err(e) => stored_bytes(self.deep_view()) is None && e@ == Fault::Io,
            },
    {
        let mut out = self.get_compressed_data()?;
        pad_to_32(&mut out);
        Ok(out)
    }

    /// The length of the data, on 32 bits.
    pub fn get_real_data_size(&self) -> (n: u32)
        ensures
            n == count32(self.data@.len()),
    {
        len32(self.data.len())
    }

    /// The length of the stored bytes, on 32 bits.
    pub fn get_compressed_data_size(&self) -> (res: Result<u32, Error>)
        requires
            self.compression_level <= 9,
        ensures
            match res {
                Ok(n) => stored_bytes(self.deep_view()) matches Some(s) && n == count32(s.len()),
                Err(e) => stored_bytes(self.deep_view()) is None && e@ == Fault::Io,
            },
    {
        let stored = self.get_compressed_data()?;
        Ok(len32(stored.len()))
    }

    /// The length of the padded stored bytes, on 32 bits.
    pub fn get_aligned_data_size(&self) -> (res: Result<u32, Error>)
        requires
            self.compression_level <= 9,
        ensures
            match res {
                Ok(n) => stored_bytes(self.deep_view()) matches Some(s) && n == count32(
                    assembled_bytes(s).len(),
                ),
                Err(e) => stored_bytes(self.deep_view()) is None && e@ == Fault::Io,
            },
    {
        let assembled = self.get_assembled_data()?;
        Ok(len32(assembled.len()))
    }

    /// The path in two parts: the folder, which is what stands before the
    /// last slash, and the file name behind it.
    pub fn get_split_path(&self) -> (parts: Vec<String>)
        ensures
            parts@.len() == 2,
            parts@[0]@ == folder_of(self.path@),
            parts@[1]@ == filename_of(self.path@),
    {
        let mut parts: Vec<String> = Vec::new();
        match rsplit_once_slash(self.path.as_str()) {
            Some((folder, name)) => {
                proof {
                    lemma_last_slash_split(folder@, name@);
                }
                parts.push(folder);
                parts.push(name);
            },
            None => {
                proof {
                    lemma_last_slash_none(self.path@);
                    assert(self.path@.subrange(0, self.path@.len() as int) =~= self.path@);
                }
                parts.push(String::new());
                parts.push(self.path.clone());
            },
        }
        parts
    }
}

/// The string pool of an archive while it is built: its bytes, and the
/// offset of each folder and of each file name that it holds. The two
/// kinds are kept apart: a string that is both stands in the pool twice.
pub struct PoolModel {
    pub bytes: Seq<u8>,
    pub folders: Map<Seq<char>, nat>,
    pub names: Map<Seq<char>, nat>,
}

/// A pool after the folder was added, unless it holds it already: the
/// folder's offset is the length of the pool before, on 32 bits, and its
/// text stands there with a zero byte behind.
pub open spec fn pool_with_folder(p: PoolModel, folder: Seq<char>) -> PoolModel {
    if p.folders.contains_key(folder) {
        p
    } else {
        PoolModel {
            bytes: p.bytes + encode_utf8(folder) + seq![0u8],
            folders: p.folders.insert(folder, count32(p.bytes.len())),
            names: p.names,
        }
    }
}

/// A pool after the file name was added, unless it holds it already.
pub open spec fn pool_with_name(p: PoolModel, name: Seq<char>) -> PoolModel {
    if p.names.contains_key(name) {
        p
    } else {
        PoolModel {
            bytes: p.bytes + encode_utf8(name) + seq![0u8],
            folders: p.folders,
            names: p.names.insert(name, count32(p.bytes.len())),
        }
    }
}

/// The pool of the files, built in their order: for each file its folder,
/// then its name.
pub open spec fn pool_of(files: Seq<VirtualFileModel>) -> PoolModel
    decreases files.len(),
{
    if files.len() == 0 {
        PoolModel { bytes: Seq::<u8>::empty(), folders: Map::empty(), names: Map::empty() }
    } else {
        pool_with_name(
            pool_with_folder(pool_of(files.drop_last()), folder_of(files.last().path)),
            filename_of(files.last().path),
        )
    }
}

/// The pool offset of the folder of file `i`: the one the folder has once
/// the files up to `i` are in the pool.
pub open spec fn folder_pointer(files: Seq<VirtualFileModel>, i: int) -> nat {
    pool_of(files.subrange(0, i + 1)).folders[folder_of(files[i].path)]
}

/// The pool offset of the name of file `i`.
pub open spec fn name_pointer(files: Seq<VirtualFileModel>, i: int) -> nat {
    pool_of(files.subrange(0, i + 1)).names[filename_of(files[i].path)]
}

/// Every file has stored bytes: no compression fails.
pub open spec fn all_stored(files: Seq<VirtualFileModel>) -> bool {
    forall|i: int| 0 <= i < files.len() ==> (#[trigger] stored_bytes(files[i])) is Some
}

/// The 24-byte record of file `i`.
pub open spec fn record_bytes(files: Seq<VirtualFileModel>, i: int, endian: EndianType) -> Seq<u8> {
    let stored = stored_bytes(files[i])->Some_0;
    uint_bytes(endian, count32(files[i].data.len()), 4) + uint_bytes(endian, count32(stored.len()), 4)
        + uint_bytes(endian, count32(assembled_bytes(stored).len()), 4) + uint_bytes(
        endian,
        folder_pointer(files, i),
        4,
    ) + tag_bytes(files[i].type_, endian) + uint_bytes(endian, name_pointer(files, i), 4)
}

/// The records of the first `n` files.
pub open spec fn records_bytes(files: Seq<VirtualFileModel>, n: nat, endian: EndianType) -> Seq<u8>
    decreases n,
{
    if n == 0 {
        Seq::<u8>::empty()
    } else {
        records_bytes(files, (n - 1) as nat, endian) + record_bytes(files, n - 1, endian)
    }
}

/// The padded stored bytes of the first `n` files.
pub open spec fn data_bytes(files: Seq<VirtualFileModel>, n: nat) -> Seq<u8>
    decreases n,
{
    if n == 0 {
        Seq::<u8>::empty()
    } else {
        data_bytes(files, (n - 1) as nat) + assembled_bytes(stored_bytes(files[n - 1])->Some_0)
    }
}

/// The offset of the data region: the first multiple of 32 at or behind
/// the header, the count, `n` records and the pool.
pub open spec fn data_pointer(n: int, pool_len: int) -> int {
    36 + 24 * n + pool_len + gap_to_multiple(36 + 24 * n + pool_len, 32)
}

/// The bytes of an archive in the given byte order: the magic, the
/// version, a zero, the header size 32 and the offset of the data region
/// behind the header; zero bytes up to 32; the count of files and their
/// records; the string pool; zero bytes up to the data region; the padded
/// stored bytes of the files.
pub open spec fn packfile_bytes(m: PackfileModel, endian: EndianType) -> Seq<u8> {
    let n = m.files.len();
    let pool = pool_of(m.files).bytes;
    let dp = data_pointer(n as int, pool.len() as int);
    tag_bytes(m.magic, endian) + uint_bytes(endian, m.version as nat, 4) + uint_bytes(endian, 0, 4)
        + uint_bytes(endian, 32, 4) + uint_bytes(endian, count32((dp - 32) as nat), 4) + zeros(12)
        + uint_bytes(endian, count32(n), 4) + records_bytes(m.files, n, endian) + pool + zeros(
        gap_to_multiple((36 + 24 * n + pool.len()) as int, 32),
    ) + data_bytes(m.files, n)
}

/// The records of `n` files whose type tags fit four bytes take 24 bytes
/// each.
pub proof fn lemma_records_len(files: Seq<VirtualFileModel>, n: nat, endian: EndianType)
    requires
        n <= files.len(),
        forall|i: int| 0 <= i < files.len() ==> encode_utf8(#[trigger] files[i].type_).len() <= 4,
    ensures
        records_bytes(files, n, endian).len() == 24 * n,
    decreases n,
{
    if n > 0 {
        lemma_records_len(files, (n - 1) as nat, endian);
        let i = n - 1;
        let stored = stored_bytes(files[i])->Some_0;
        lemma_uint_bytes_len(endian, count32(files[i].data.len()), 4);
        lemma_uint_bytes_len(endian, count32(stored.len()), 4);
        lemma_uint_bytes_len(endian, count32(assembled_bytes(stored).len()), 4);
        lemma_uint_bytes_len(endian, folder_pointer(files, i), 4);
        lemma_uint_bytes_len(endian, name_pointer(files, i), 4);
        assert(files[i].type_ == files[i].type_);
    }
}

/// The table holds the pairs of the map and no others.
pub open spec fn agrees(table: Seq<(String, u32)>, m: Map<Seq<char>, nat>) -> bool {
    &&& forall|i: int|
        #![trigger table[i]]
        0 <= i < table.len() ==> m.contains_key(table[i].0@) && m[table[i].0@] == table[i].1
    &&& forall|k: Seq<char>| #[trigger]
        m.contains_key(k) ==> exists|i: int| #![trigger table[i]] 0 <= i < table.len() && table[i].0@ == k
}

/// The offset under `key` in the table.
fn lookup(table: &Vec<(String, u32)>, key: &str) -> (r: Option<u32>)
    ensures
        match r {
            Some(v) => exists|i: int| #![trigger table@[i]] 0 <= i < table@.len() && table@[i].0@ == key@ && table@[i].1 == v,
            None => forall|i: int| #![trigger table@[i]] 0 <= i < table@.len() ==> table@[i].0@ != key@,
        },
{
    let mut i: usize = 0;
    while i < table.len()
        invariant
            i <= table@.len(),
            forall|j: int| #![trigger table@[j]] 0 <= j < i ==> table@[j].0@ != key@,
        decreases table@.len() - i,
    {
        if str_eq(table[i].0.as_str(), key) {
            return Some(table[i].1);
        }
        i += 1;
    }
    None
}

/// The offset of `key` in the pool, which gets the key where it lacks it.
fn intern(pool: &mut Vec<u8>, table: &mut Vec<(String, u32)>, key: String, Ghost(m): Ghost<Map<Seq<char>, nat>>) -> (r: u32)
    requires
        agrees(old(table)@, m),
    ensures
        m.contains_key(key@) ==> r == m[key@] && final(pool)@ == old(pool)@ && agrees(final(table)@, m),
        !m.contains_key(key@) ==> r == count32(old(pool)@.len()) && final(pool)@ == old(pool)@ + encode_utf8(
            key@,
        ) + seq![0u8] && agrees(final(table)@, m.insert(key@, count32(old(pool)@.len()))),
{
    match lookup(table, key.as_str()) {
        Some(v) => v,
        None => {
            let offset = len32(pool.len());
            append_bytes(pool, key.as_str().as_bytes());
            pool.push(0);
            assert(pool@ =~= old(pool)@ + encode_utf8(key@) + seq![0u8]);
            let ghost before = table@;
            table.push((key, offset));
            proof {
                let m2 = m.insert(key@, offset as nat);
                assert forall|i: int| #![trigger table@[i]] 0 <= i < table@.len() implies m2.contains_key(
                    table@[i].0@,
                ) && m2[table@[i].0@] == table@[i].1 by {
                    if i < before.len() {
                        assert(table@[i] == before[i]);
                        assert(m.contains_key(before[i].0@));
                    }
                }
                assert forall|k: Seq<char>| #[trigger] m2.contains_key(k) implies exists|i: int|
                    #![trigger table@[i]]
                    0 <= i < table@.len() && table@[i].0@ == k by {
                    if k == key@ {
                        assert(table@[before.len() as int].0@ == k);
                    } else {
                        assert(m.contains_key(k));
                        let i = choose|i: int| #![trigger before[i]] 0 <= i < before.len() && before[i].0@ == k;
                        assert(table@[i] == before[i]);
                    }
                }
            }
            offset
        },
    }
}

/// The fields of a file record.
pub struct RecordModel {
    pub real_size: nat,
    pub stored_size: nat,
    pub aligned_size: nat,
    pub folder_offset: nat,
    pub type_: Seq<char>,
    pub filename_offset: nat,
}

/// A file record read at the cursor: three sizes, of which the third must
/// be a multiple of 32, the offset of the folder, the type tag and the
/// offset of the file name.
pub open spec fn parse_record(c: Cursor) -> Result<(RecordModel, Cursor), Fault> {
    match c.r_uint(4) {
        Err(e) => Err(e),
        Ok((real_size, c1)) => match c1.r_uint(4) {
            Err(e) => Err(e),
            Ok((stored_size, c2)) => match c2.r_uint(4) {
                Err(e) => Err(e),
                Ok((aligned_size, c3)) => if aligned_size % 32 != 0 {
                    Err(Fault::BadAlignment { got: aligned_size as u32 })
                } else {
                    match c3.r_uint(4) {
                        Err(e) => Err(e),
                        Ok((folder_offset, c4)) => match parse_tag(c4) {
                            Err(e) => Err(e),
                            Ok((type_, c5)) => match c5.r_uint(4) {
                                Err(e) => Err(e),
                                Ok((filename_offset, c6)) => Ok(
                                    (
                                        RecordModel {
                                            real_size,
                                            stored_size,
                                            aligned_size,
                                            folder_offset,
                                            type_,
                                            filename_offset,
                                        },
                                        c6,
                                    ),
                                ),
                            },
                        },
                    }
                },
            },
        },
    }
}

/// The file that a record stands for: its folder and name from the string
/// pool at `pool_base`, its stored bytes from `data_pos`. Where the stored
/// size differs from the real size the bytes are a zlib stream and the
/// file is marked compressed. The level is set to 6.
pub open spec fn load_file(c: Cursor, r: RecordModel, pool_base: int, data_pos: int) -> Result<
    VirtualFileModel,
    Fault,
> {
    match c.str_null_at(pool_base + r.folder_offset) {
        Err(e) => Err(e),
        Ok(folder) => match c.str_null_at(pool_base + r.filename_offset) {
            Err(e) => Err(e),
            Ok(name) => match c.read_at(data_pos, r.stored_size as int) {
                Err(e) => Err(e),
                Ok(raw) => if r.stored_size != r.real_size {
                    match zlib_inflated(raw) {
                        None => Err(Fault::Io),
                        Some(data) => Ok(
                            VirtualFileModel {
                                type_: r.type_,
                                compress: true,
                                compression_level: 6,
                                path: joined_path(folder, name),
                                data,
                            },
                        ),
                    }
                } else {
                    Ok(
                        VirtualFileModel {
                            type_: r.type_,
                            compress: false,
                            compression_level: 6,
                            path: joined_path(folder, name),
                            data: raw,
                        },
                    )
                },
            },
        },
    }
}

/// `n` records read one behind the other, each with its file; the data of
/// the first file stands at `data_start`, that of each other file behind
/// the aligned size of the one before. Gives the files, the cursor behind
/// the records and the offset behind the last file's data.
pub open spec fn parse_files(c: Cursor, n: nat, pool_base: int, data_start: int) -> Result<
    (Seq<VirtualFileModel>, Cursor, int),
    Fault,
>
    decreases n,
{
    if n == 0 {
        Ok((Seq::<VirtualFileModel>::empty(), c, data_start))
    } else {
        match parse_files(c, (n - 1) as nat, pool_base, data_start) {
            Err(e) => Err(e),
            Ok((files, c1, pos)) => match parse_record(c1) {
                Err(e) => Err(e),
                Ok((r, c2)) => match load_file(c2, r, pool_base, pos) {
                    Err(e) => Err(e),
                    Ok(f) => Ok((files.push(f), c2, pos + r.aligned_size)),
                },
            },
        }
    }
}

/// A failure while reading the first `k` files is the failure of reading
/// any larger number of them.
pub proof fn lemma_parse_files_fails(c: Cursor, k: nat, n: nat, pool_base: int, data_start: int)
    requires
        k <= n,
        parse_files(c, k, pool_base, data_start) is Err,
    ensures
        parse_files(c, n, pool_base, data_start) == parse_files(c, k, pool_base, data_start),
    decreases n,
{
    if k < n {
        lemma_parse_files_fails(c, k, (n - 1) as nat, pool_base, data_start);
    }
}

/// The magic of an archive, in canonical order.
pub open spec fn magic_text() -> Seq<char> {
    " KAP"@
}

/// The magic as a little-endian file holds it.
pub open spec fn magic_text_reversed() -> Seq<char> {
    "PAK "@
}

/// An archive read at the cursor in the cursor's byte order: the magic,
/// which must read `" KAP"`, the version, which must be 2, a field that is
/// passed over, the header size and the offset of the data behind it; at
/// the header size, the count of files and their records; behind the
/// records, the string pool.
pub open spec fn parse_packfile(c: Cursor) -> Result<(PackfileModel, Cursor), Fault> {
    match parse_tag(c) {
        Err(e) => Err(e),
        Ok((magic, c1)) => if magic != magic_text() {
            Err(Fault::BadMagic { got: c.peek(4), expected: encode_utf8(magic_text()) })
        } else {
            match c1.r_uint(4) {
                Err(e) => Err(e),
                Ok((version, c2)) => if version != 2 {
                    Err(Fault::BadVersion { got: version as u32 })
                } else {
                    match c2.r_uint(4) {
                        Err(e) => Err(e),
                        Ok((_, c3)) => match c3.r_uint(4) {
                            Err(e) => Err(e),
                            Ok((header_size, c4)) => match c4.r_uint(4) {
                                Err(e) => Err(e),
                                Ok((data_rel, c5)) => match c5.jump(header_size as int).r_uint(4) {
                                    Err(e) => Err(e),
                                    Ok((n, c6)) => match parse_files(
                                        c6,
                                        n,
                                        (24 * n + header_size + 4) as int,
                                        (header_size + data_rel) as int,
                                    ) {
                                        Err(e) => Err(e),
                                        Ok((files, c7, _)) => Ok(
                                            (PackfileModel { magic, version: 2, files }, c7),
                                        ),
                                    },
                                },
                            },
                        },
                    }
                },
            }
        },
    }
}

/// The byte order that the first four bytes of an archive show: `"PAK "`
/// for little, `" KAP"` for big.
pub open spec fn detect_endian(data: Seq<u8>) -> Result<EndianType, Fault> {
    if data.len() < 4 {
        Err(Fault::UnexpectedEof { at: 0, need: 4 })
    } else if data.subrange(0, 4) == encode_utf8(magic_text_reversed()) {
        Ok(EndianType::LITTLE)
    } else if data.subrange(0, 4) == encode_utf8(magic_text()) {
        Ok(EndianType::BIG)
    } else {
        Err(Fault::BadMagic { got: data.subrange(0, 4), expected: encode_utf8(magic_text()) })
    }
}

/// The form under which paths are compared: backslashes as slashes, in
/// lower case.
pub open spec fn path_key(path: Seq<char>) -> Seq<char> {
    lowercase(slashed(path))
}

/// The file at `i` is the first whose path in lower case is `key`.
pub open spec fn is_first_match(files: Seq<VirtualFileModel>, key: Seq<char>, i: int) -> bool {
    &&& 0 <= i < files.len()
    &&& lowercase(files[i].path) == key
    &&& forall|j: int| 0 <= j < i ==> lowercase(#[trigger] files[j].path) != key
}

/// No file has a path that in lower case is `key`.
pub open spec fn no_match(files: Seq<VirtualFileModel>, key: Seq<char>) -> bool {
    forall|j: int| 0 <= j < files.len() ==> lowercase(#[trigger] files[j].path) != key
}

/// A file record, as it was read.
struct Record {
    real_size: u32,
    stored_size: u32,
    aligned_size: u32,
    folder_offset: u32,
    type_: EndianDependentString,
    filename_offset: u32,
}

impl Record {
    spec fn model(&self) -> RecordModel {
        RecordModel {
            real_size: self.real_size as nat,
            stored_size: self.stored_size as nat,
            aligned_size: self.aligned_size as nat,
            folder_offset: self.folder_offset as nat,
            type_: self.type_.text@,
            filename_offset: self.filename_offset as nat,
        }
    }
}

impl Packfile {
    pub fn new(magic: EndianDependentString, version: u32, files: Vec<VirtualFile>) -> (p: Self)
        ensures
            p.magic == magic,
            p.version == version,
            p.files == files,
    {
        Self { magic, version, files }
    }

    /// Reads one file record at the cursor.
    fn read_record(fm: &mut FileManipulator) -> (res: Result<Record, Error>)
        requires
            old(fm).wf(),
        ensures
            final(fm).wf(),
            final(fm)@.same_buffer(old(fm)@),
            match res {
                Ok(r) => parse_record(old(fm)@) == Ok::<(RecordModel, Cursor), Fault>((r.model(), final(fm)@)),
                Err(e) => parse_record(old(fm)@) == Err::<(RecordModel, Cursor), Fault>(e@),
            },
    {
        let real_size = fm.r_u32()?;
        let stored_size = fm.r_u32()?;
        let aligned_size = fm.r_u32()?;
        if aligned_size % 32 != 0 {
            return Err(Error::BadAlignment { got: aligned_size });
        }
        let folder_offset = fm.r_u32()?;
        let mut type_ = EndianDependentString::new(String::new());
        type_.unpack(fm)?;
        let filename_offset = fm.r_u32()?;
        Ok(Record { real_size, stored_size, aligned_size, folder_offset, type_, filename_offset })
    }

    /// Loads the file that a record stands for.
    fn load(fm: &mut FileManipulator, r: Record, pool_base: u128, data_pos: u128) -> (res: Result<
        VirtualFile,
        Error,
    >)
        requires
            old(fm).wf(),
            pool_base <= 0x1_0000_0000_0000_0000_0000,
        ensures
            final(fm)@ == old(fm)@,
            match res {
                Ok(f) => load_file(old(fm)@, r.model(), pool_base as int, data_pos as int) == Ok::<
                    VirtualFileModel,
                    Fault,
                >(f.deep_view()),
                Err(e) => load_file(old(fm)@, r.model(), pool_base as int, data_pos as int) == Err::<
                    VirtualFileModel,
                    Fault,
                >(e@),
            },
    {
        let folder = fm.str_null_at(pool_base + r.folder_offset as u128)?;
        let name = fm.str_null_at(pool_base + r.filename_offset as u128)?;
        let raw = fm.read_at(data_pos, r.stored_size as usize)?;
        let path = if folder.as_str().is_empty() {
            name
        } else {
            proof {
                reveal_strlit("/");
                assert("/"@ =~= seq!['/']);
            }
            folder.concat("/").concat(name.as_str())
        };
        if r.stored_size != r.real_size {
            match inflate(raw.as_slice()) {
                Ok(data) => Ok(VirtualFile::new(r.type_, true, 6, path, data)),
                Err(_) => Err(Error::Io),
            }
        } else {
            Ok(VirtualFile::new(r.type_, false, 6, path, raw))
        }
    }

    /// Reads `n` records one behind the other, each with its file.
    fn read_files(fm: &mut FileManipulator, n: u32, pool_base: u128, data_start: u128) -> (res: Result<
        Vec<VirtualFile>,
        Error,
    >)
        requires
            old(fm).wf(),
            pool_base <= 0x1_0000_0000_0000_0000_0000,
            data_start <= 0x1_0000_0000_0000,
        ensures
            final(fm).wf(),
            final(fm)@.same_buffer(old(fm)@),
            match res {
                Ok(v) => parse_files(old(fm)@, n as nat, pool_base as int, data_start as int) matches Ok(
                    (files, c, _),
                ) && files == v.deep_view() && c == final(fm)@,
                Err(e) => parse_files(old(fm)@, n as nat, pool_base as int, data_start as int) matches Err(f)
                    && f == e@,
            },
    {
        let mut files: Vec<VirtualFile> = Vec::new();
        assert(files.deep_view() =~= Seq::<VirtualFileModel>::empty());
        let mut data_pos: u128 = data_start;
        let mut i: u32 = 0;
        while i < n
            invariant
                i <= n,
                fm.wf(),
                fm@.same_buffer(old(fm)@),
                pool_base <= 0x1_0000_0000_0000_0000_0000,
                data_pos <= data_start + i * 0x1_0000_0000,
                data_start <= 0x1_0000_0000_0000,
                parse_files(old(fm)@, i as nat, pool_base as int, data_start as int) == Ok::<
                    (Seq<VirtualFileModel>, Cursor, int),
                    Fault,
                >((files.deep_view(), fm@, data_pos as int)),
            decreases n - i,
        {
            let r = match Packfile::read_record(fm) {
                Ok(r) => r,
                Err(e) => {
                    proof {
                        lemma_parse_files_fails(
                            old(fm)@,
                            (i + 1) as nat,
                            n as nat,
                            pool_base as int,
                            data_start as int,
                        );
                    }
                    return Err(e);
                },
            };
            let aligned_size: u32 = r.aligned_size;
            let file = match Packfile::load(fm, r, pool_base, data_pos) {
                Ok(f) => f,
                Err(e) => {
                    proof {
                        lemma_parse_files_fails(
                            old(fm)@,
                            (i + 1) as nat,
                            n as nat,
                            pool_base as int,
                            data_start as int,
                        );
                    }
                    return Err(e);
                },
            };
            let ghost before = files.deep_view();
            files.push(file);
            assert(files.deep_view() =~= before.push(file.deep_view()));
            data_pos = data_pos + aligned_size as u128;
            i += 1;
        }
        Ok(files)
    }

    /// Reads a whole archive at the cursor.
    fn read_archive(fm: &mut FileManipulator) -> (res: Result<Packfile, Error>)
        requires
            old(fm).wf(),
        ensures
            final(fm).wf(),
            final(fm)@.same_buffer(old(fm)@),
            match res {
                Ok(p) => parse_packfile(old(fm)@) == Ok::<(PackfileModel, Cursor), Fault>(
                    (p.deep_view(), final(fm)@),
                ),
                Err(e) => parse_packfile(old(fm)@) matches Err(f) && f == e@,
            },
    {
        let first = fm.read_at(fm.pos as u128, 4);
        let mut magic = EndianDependentString::new(String::new());
        magic.unpack(fm)?;
        if !str_eq(magic.text.as_str(), " KAP") {
            let got = match first {
                Ok(v) => v,
                Err(_) => Vec::new(),
            };
            return Err(Error::BadMagic { got, expected: " KAP".as_bytes_vec() });
        }
        let version = fm.r_u32()?;
        if version != 2 {
            return Err(Error::BadVersion { got: version });
        }
        let _zero = fm.r_u32()?;
        let header_size = fm.r_u32()?;
        let data_rel = fm.r_u32()?;
        let n = fm.r_u32_at(header_size)?;
        let pool_base: u128 = 24 * (n as u128) + header_size as u128 + 4;
        let data_start: u128 = header_size as u128 + data_rel as u128;
        let files = Packfile::read_files(fm, n, pool_base, data_start)?;
        Ok(Packfile::new(magic, version, files))
    }

    /// Reads an archive at the cursor, in the cursor's byte order: magic and
    /// version replace those of `self`, the files are added behind those
    /// that `self` holds. On a failure neither `self` nor the cursor has
    /// changed.
    pub fn unpack(&mut self, fm: &mut FileManipulator) -> (res: Result<(), Error>)
        requires
            old(fm).wf(),
        ensures
            final(fm).wf(),
            final(fm)@.same_buffer(old(fm)@),
            match res {
                Ok(_) => parse_packfile(old(fm)@) matches Ok((m, c)) && c == final(fm)@ && final(self).deep_view()
                    == (PackfileModel {
                    magic: m.magic,
                    version: m.version,
                    files: old(self).files.deep_view() + m.files,
                }),
                Err(e) => parse_packfile(old(fm)@) matches Err(f) && f == e@ && final(fm)@ == old(fm)@
                    && *final(self) == *old(self),
            },
    {
        let start: usize = fm.pos;
        match Packfile::read_archive(fm) {
            Ok(p) => {
                let ghost old_files = self.files.deep_view();
                let ghost new_files = p.files.deep_view();
                let mut files = p.files;
                self.magic = p.magic;
                self.version = p.version;
                self.files.append(&mut files);
                assert(self.files.deep_view() =~= old_files + new_files);
                Ok(())
            },
            Err(e) => {
                fm.pos = start;
                Err(e)
            },
        }
    }

    /// The archive that `data` holds, in the byte order that its first four
    /// bytes show.
    pub fn from_binary(data: Vec<u8>) -> (res: Result<Self, Error>)
        ensures
            match detect_endian(data@) {
                Err(f) => res matches Err(e) && e@ == f,
                Ok(endian) => match res {
                    Ok(p) => parse_packfile(start_of(data@, endian)) matches Ok((m, _)) && p.deep_view() == m,
                    Err(e) => parse_packfile(start_of(data@, endian)) matches Err(f) && f == e@,
                },
            },
    {
        if data.len() < 4 {
            return Err(Error::UnexpectedEof { at: 0, need: 4 });
        }
        let first = slice_to_vec(vstd::slice::slice_subrange(data.as_slice(), 0, 4));
        let endian_type = if bytes_eq(first.as_slice(), "PAK ".as_bytes()) {
            EndianType::LITTLE
        } else if bytes_eq(first.as_slice(), " KAP".as_bytes()) {
            EndianType::BIG
        } else {
            return Err(Error::BadMagic { got: first, expected: " KAP".as_bytes_vec() });
        };
        let mut fm = FileManipulator::new(data, endian_type, WriteMode::OVERWRITE);
        Packfile::read_archive(&mut fm)
    }

    /// The magic fits four bytes and every file has a level that zlib
    /// knows.
    pub open spec fn wf(&self) -> bool {
        &&& encode_utf8(self.magic.text@).len() <= 4
        &&& forall|i: int| 0 <= i < self.files@.len() ==> (#[trigger] self.files@[i]).wf()
    }

    /// The string pool of the files and, for each file, the pool offsets of
    /// its folder and of its name.
    fn build_pool(&self) -> (out: (Vec<u8>, Vec<(u32, u32)>))
        ensures
            out.0@ == pool_of(self.files.deep_view()).bytes,
            out.1@.len() == self.files@.len(),
            forall|k: int|
                0 <= k < self.files@.len() ==> (#[trigger] out.1@[k]).0 == folder_pointer(
                    self.files.deep_view(),
                    k,
                ) && out.1@[k].1 == name_pointer(self.files.deep_view(), k),
    {
        let ghost all = self.files.deep_view();
        let mut pool: Vec<u8> = Vec::new();
        let mut folders: Vec<(String, u32)> = Vec::new();
        let mut names: Vec<(String, u32)> = Vec::new();
        let mut pointers: Vec<(u32, u32)> = Vec::new();
        let ghost mut cur = pool_of(all.subrange(0, 0));
        let mut i: usize = 0;
        while i < self.files.len()
            invariant
                i <= self.files@.len(),
                all == self.files.deep_view(),
                cur == pool_of(all.subrange(0, i as int)),
                pool@ == cur.bytes,
                agrees(folders@, cur.folders),
                agrees(names@, cur.names),
                pointers@.len() == i,
                forall|k: int|
                    0 <= k < i ==> (#[trigger] pointers@[k]).0 == folder_pointer(all, k) && pointers@[k].1
                        == name_pointer(all, k),
            decreases self.files@.len() - i,
        {
            let mut parts = self.files[i].get_split_path();
            let name = match parts.pop() {
                Some(s) => s,
                None => String::new(),
            };
            let folder = match parts.pop() {
                Some(s) => s,
                None => String::new(),
            };
            assert(folder@ == folder_of(all[i as int].path));
            assert(name@ == filename_of(all[i as int].path));
            let ghost p1 = pool_with_folder(cur, folder@);
            let ghost p2 = pool_with_name(p1, name@);
            let fp = intern(&mut pool, &mut folders, folder, Ghost(cur.folders));
            let np = intern(&mut pool, &mut names, name, Ghost(p1.names));
            proof {
                assert(all.subrange(0, i + 1).drop_last() =~= all.subrange(0, i as int));
                assert(all.subrange(0, i + 1).last() == all[i as int]);
                assert(pool_of(all.subrange(0, i + 1)) == p2);
                cur = p2;
            }
            let ghost before = pointers@;
            pointers.push((fp, np));
            assert forall|k: int| 0 <= k < i + 1 implies (#[trigger] pointers@[k]).0 == folder_pointer(all, k)
                && pointers@[k].1 == name_pointer(all, k) by {
                if k < i {
                    assert(pointers@[k] == before[k]);
                }
            }
            i += 1;
        }
        assert(all.subrange(0, i as int) =~= all);
        (pool, pointers)
    }

    /// The records of the files and their padded stored bytes.
    fn build_records(&self, pointers: &Vec<(u32, u32)>, endian_type: EndianType) -> (res: Result<
        (Vec<u8>, Vec<u8>),
        Error,
    >)
        requires
            self.wf(),
            pointers@.len() == self.files@.len(),
            forall|k: int|
                0 <= k < self.files@.len() ==> (#[trigger] pointers@[k]).0 == folder_pointer(
                    self.files.deep_view(),
                    k,
                ) && pointers@[k].1 == name_pointer(self.files.deep_view(), k),
        ensures
            match res {
                Ok(out) => all_stored(self.files.deep_view()) && out.0@ == records_bytes(
                    self.files.deep_view(),
                    self.files@.len(),
                    endian_type,
                ) && out.0@.len() == 24 * self.files@.len() && out.1@ == data_bytes(
                    self.files.deep_view(),
                    self.files@.len(),
                ),
                Err(e) => !all_stored(self.files.deep_view()) && e@ == Fault::Io,
            },
    {
        let ghost all = self.files.deep_view();
        let mut records: Vec<u8> = Vec::new();
        let mut data: Vec<u8> = Vec::new();
        let mut i: usize = 0;
        while i < self.files.len()
            invariant
                i <= self.files@.len(),
                self.wf(),
                all == self.files.deep_view(),
                pointers@.len() == self.files@.len(),
                forall|k: int|
                    0 <= k < self.files@.len() ==> (#[trigger] pointers@[k]).0 == folder_pointer(all, k)
                        && pointers@[k].1 == name_pointer(all, k),
                forall|k: int| 0 <= k < i ==> (#[trigger] stored_bytes(all[k])) is Some,
                records@ == records_bytes(all, i as nat, endian_type),
                data@ == data_bytes(all, i as nat),
            decreases self.files@.len() - i,
        {
            let file = &self.files[i];
            assert(self.files@[i as int].wf());
            assert(all[i as int] == file.deep_view());
            let mut stored = match file.get_compressed_data() {
                Ok(v) => v,
                Err(e) => {
                    assert(stored_bytes(all[i as int]) is None);
                    return Err(e);
                },
            };
            let stored_size = len32(stored.len());
            pad_to_32(&mut stored);
            let aligned_size = len32(stored.len());
            let tag = file.type_.pack(endian_type);
            let ghost r0 = records@;
            push_u32(&mut records, file.get_real_data_size(), endian_type);
            push_u32(&mut records, stored_size, endian_type);
            push_u32(&mut records, aligned_size, endian_type);
            push_u32(&mut records, pointers[i].0, endian_type);
            append_bytes(&mut records, tag.as_slice());
            push_u32(&mut records, pointers[i].1, endian_type);
            assert(records@ =~= r0 + record_bytes(all, i as int, endian_type));
            append_bytes(&mut data, stored.as_slice());
            i += 1;
        }
        proof {
            assert forall|k: int| 0 <= k < all.len() implies encode_utf8(#[trigger] all[k].type_).len() <= 4 by {
                assert(self.files@[k].wf());
            }
            lemma_records_len(all, all.len(), endian_type);
        }
        Ok((records, data))
    }

    /// The bytes of the archive in the given byte order, or the failure of
    /// the compressor on one of the files.
    pub fn pack(&self, endian_type: EndianType) -> (res: Result<Vec<u8>, Error>)
        requires
            self.wf(),
        ensures
            match res {
                Ok(v) => all_stored(self.files.deep_view()) && v@ == packfile_bytes(
                    self.deep_view(),
                    endian_type,
                ),
                Err(e) => !all_stored(self.files.deep_view()) && e@ == Fault::Io,
            },
    {
        proof {
            reveal(count32);
        }
        let (pool, pointers) = self.build_pool();
        let (records, data) = self.build_records(&pointers, endian_type)?;
        let n: usize = self.files.len();
        let raw: u128 = 36 + 24 * (n as u128) + pool.len() as u128;
        let gap: u128 = if raw % 32 == 0 { 0 } else { 32 - raw % 32 };
        let data_pointer: u128 = raw + gap;
        let mut out = self.magic.pack(endian_type);
        push_u32(&mut out, self.version, endian_type);
        push_u32(&mut out, 0, endian_type);
        push_u32(&mut out, 32, endian_type);
        push_u32(&mut out, ((data_pointer - 32) % 0x1_0000_0000) as u32, endian_type);
        push_zeros(&mut out, 12);
        push_u32(&mut out, len32(n), endian_type);
        append_bytes(&mut out, records.as_slice());
        append_bytes(&mut out, pool.as_slice());
        push_zeros(&mut out, gap as usize);
        append_bytes(&mut out, data.as_slice());
        assert(out@ =~= packfile_bytes(self.deep_view(), endian_type));
        Ok(out)
    }

    /// The bytes of the archive in the given byte order, or the failure of
    /// the compressor on one of the files.
    pub fn to_binary(&self, endian_type: EndianType) -> (res: Result<Vec<u8>, Error>)
        requires
            self.wf(),
        ensures
            match res {
                Ok(v) => all_stored(self.files.deep_view()) && v@ == packfile_bytes(
                    self.deep_view(),
                    endian_type,
                ),
                Err(e) => !all_stored(self.files.deep_view()) && e@ == Fault::Io,
            },
    {
        self.pack(endian_type)
    }

    /// The offset of the first file whose path matches `key` in lower case.
    fn find(&self, key: &str) -> (res: Option<usize>)
        ensures
            match res {
                Some(i) => is_first_match(self.files.deep_view(), key@, i as int),
                None => no_match(self.files.deep_view(), key@),
            },
    {
        let mut i: usize = 0;
        while i < self.files.len()
            invariant
                i <= self.files@.len(),
                forall|j: int| 0 <= j < i ==> lowercase(#[trigger] self.files.deep_view()[j].path) != key@,
            decreases self.files@.len() - i,
        {
            let lowered = to_lowercase(self.files[i].path.as_str());
            if str_eq(lowered.as_str(), key) {
                return Some(i);
            }
            i += 1;
        }
        None
    }

    /// The data of the first file whose path is `path`, compared without
    /// regard to case and with backslashes read as slashes.
    pub fn get_data_from_path(&self, path: String) -> (res: Result<Vec<u8>, Error>)
        ensures
            match res {
                Ok(d) => exists|i: int|
                    #![trigger is_first_match(self.files.deep_view(), path_key(path@), i)]
                    is_first_match(self.files.deep_view(), path_key(path@), i) && d@
                        == self.files.deep_view()[i].data,
                Err(e) => no_match(self.files.deep_view(), path_key(path@)) && e@ == (Fault::NotFound {
                    path: path@,
                }),
            },
    {
        let key = to_lowercase(backslashes_to_slashes(path.as_str()).as_str());
        match self.find(key.as_str()) {
            Some(i) => {
                let d = slice_to_vec(self.files[i].data.as_slice());
                assert(is_first_match(self.files.deep_view(), path_key(path@), i as int) && d@
                    == self.files.deep_view()[i as int].data);
                Ok(d)
            },
            None => Err(Error::NotFound { path }),
        }
    }

    /// Replaces the data of the first file whose path is `path`, compared
    /// without regard to case and with backslashes read as slashes.
    pub fn set_data_from_path(&mut self, path: String, data: Vec<u8>) -> (res: Result<(), Error>)
        ensures
            final(self).magic == old(self).magic,
            final(self).version == old(self).version,
            match res {
                Ok(_) => exists|i: int|
                    #![trigger is_first_match(old(self).files.deep_view(), path_key(path@), i)]
                    is_first_match(old(self).files.deep_view(), path_key(path@), i) && final(self).files.deep_view()
                        == old(self).files.deep_view().update(
                        i,
                        VirtualFileModel { data: data@, ..old(self).files.deep_view()[i] },
                    ),
                Err(e) => no_match(old(self).files.deep_view(), path_key(path@)) && e@ == (Fault::NotFound {
                    path: path@,
                }) && *final(self) == *old(self),
            },
    {
        let key = to_lowercase(backslashes_to_slashes(path.as_str()).as_str());
        match self.find(key.as_str()) {
            Some(i) => {
                let ghost before = self.files.deep_view();
                let mut file = self.files.remove(i);
                file.data = data;
                self.files.insert(i, file);
                assert(self.files.deep_view() =~= before.update(
                    i as int,
                    VirtualFileModel { data: data@, ..before[i as int] },
                ));
                assert(is_first_match(before, path_key(path@), i as int));
                Ok(())
            },
            None => Err(Error::NotFound { path }),
        }
    }
}

} // verus!
