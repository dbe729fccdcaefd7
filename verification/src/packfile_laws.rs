use vstd::prelude::*;
use vstd::utf8::*;
use crate::byte_order::lemma_reverse_twice;
use crate::catalog_laws::holds_at;
use crate::collectible_database::{count32, lemma_count32_small};
use crate::error::Fault;
use crate::file_manipulator::{zeros, Cursor, EndianType};
use crate::packfile::{
    detect_endian,
    filename_of,
    folder_of,
    in_order,
    magic_text,
    magic_text_reversed,
    packfile_bytes,
    parse_tag,
    pool_of,
    pool_with_folder,
    pool_with_name,
    tag_bytes,
    trim_trailing_nuls,
    PackfileModel,
    PoolModel,
    VirtualFileModel,
};

verus! {

/// The bytes of the two magics: `" KAP"` and, reversed, `"PAK "`.
pub proof fn lemma_magic_bytes()
    ensures
        encode_utf8(magic_text()) == seq![0x20u8, 0x4Bu8, 0x41u8, 0x50u8],
        encode_utf8(magic_text_reversed()) == seq![0x50u8, 0x41u8, 0x4Bu8, 0x20u8],
{
    reveal_strlit(" KAP");
    reveal_strlit("PAK ");
    let a = " KAP"@;
    let b = "PAK "@;
    assert(is_ascii_chars(a));
    assert(is_ascii_chars(b));
    is_ascii_chars_encode_utf8(a);
    is_ascii_chars_encode_utf8(b);
    assert(encode_utf8(a) =~= seq![0x20u8, 0x4Bu8, 0x41u8, 0x50u8]);
    assert(encode_utf8(b) =~= seq![0x50u8, 0x41u8, 0x4Bu8, 0x20u8]);
}

/// Zero padding behind bytes that do not end in a zero byte is trimmed
/// away.
pub proof fn lemma_trim_padding(b: Seq<u8>, k: int)
    requires
        k >= 0,
        b.len() > 0 ==> b.last() != 0,
    ensures
        trim_trailing_nuls(b + zeros(k)) == b,
    decreases k,
{
    let padded = b + zeros(k);
    if k > 0 {
        assert(padded.last() == 0);
        assert(padded.drop_last() =~= b + zeros(k - 1));
        lemma_trim_padding(b, k - 1);
    } else {
        assert(padded =~= b);
    }
}

/// A token survives its bytes in either byte order: where the bytes of a
/// token of at most four bytes that does not end in a zero byte stand at
/// the cursor, in the cursor's byte order, reading a token gives it back.
pub proof fn tag_round_trip(c: Cursor, text: Seq<char>)
    requires
        holds_at(c.data, c.pos, tag_bytes(text, c.endian)),
        encode_utf8(text).len() <= 4,
        encode_utf8(text).len() > 0 ==> encode_utf8(text).last() != 0,
    ensures
        parse_tag(c) == Ok::<(Seq<char>, Cursor), Fault>((text, c.skip(4))),
{
    reveal(holds_at);
    let b = encode_utf8(text);
    let padded = b + zeros(4 - b.len());
    lemma_reverse_twice(padded);
    lemma_trim_padding(b, 4 - b.len());
    encode_utf8_decode_utf8(text);
    encode_utf8_valid_utf8(text);
    assert(in_order(c.endian, tag_bytes(text, c.endian)) == padded);
}

/// The bytes of an archive tell the byte order in which they were written:
/// an archive whose magic is `" KAP"` starts with `" KAP"` in big endian
/// and with `"PAK "` in little endian, and is told apart by that.
pub proof fn magic_tells_byte_order(m: PackfileModel, endian: EndianType)
    requires
        m.magic == magic_text(),
    ensures
        detect_endian(packfile_bytes(m, endian)) == Ok::<EndianType, Fault>(endian),
{
    lemma_magic_bytes();
    let magic = encode_utf8(magic_text());
    let tag = tag_bytes(m.magic, endian);
    assert(magic + zeros(0) =~= magic);
    assert(tag.len() == 4);
    let bytes = packfile_bytes(m, endian);
    assert(bytes.subrange(0, 4) =~= tag);
    match endian {
        EndianType::BIG => {
            assert(tag =~= magic);
            assert(tag[0] != encode_utf8(magic_text_reversed())[0]);
        },
        EndianType::LITTLE => {
            assert(tag =~= encode_utf8(magic_text_reversed()));
        },
    }
}

/// What stands in a buffer still stands there when more is appended.
pub proof fn lemma_holds_extend(data: Seq<u8>, pos: int, bytes: Seq<u8>, more: Seq<u8>)
    requires
        holds_at(data, pos, bytes),
    ensures
        holds_at(data + more, pos, bytes),
{
    reveal(holds_at);
    assert((data + more).subrange(pos, pos + bytes.len()) =~= data.subrange(pos, pos + bytes.len()));
}

/// Bytes that were appended stand at the old end.
pub proof fn lemma_holds_appended(data: Seq<u8>, more: Seq<u8>)
    ensures
        holds_at(data + more, data.len() as int, more),
{
    reveal(holds_at);
    assert((data + more).subrange(data.len() as int, (data.len() + more.len()) as int) =~= more);
}

/// Every string of the table stands in the pool at its offset, with a
/// zero byte behind it.
pub open spec fn table_stands(bytes: Seq<u8>, table: Map<Seq<char>, nat>) -> bool {
    forall|k: Seq<char>| #[trigger]
        table.contains_key(k) ==> holds_at(bytes, table[k] as int, encode_utf8(k) + seq![0u8])
}

/// Both tables of the pool stand in its bytes.
pub open spec fn pool_stands(p: PoolModel) -> bool {
    table_stands(p.bytes, p.folders) && table_stands(p.bytes, p.names)
}

/// A table that stands in the pool still stands there when a string is
/// appended to the pool.
pub proof fn lemma_table_extends(bytes: Seq<u8>, table: Map<Seq<char>, nat>, more: Seq<u8>)
    requires
        table_stands(bytes, table),
    ensures
        table_stands(bytes + more, table),
{
    assert forall|k: Seq<char>| #[trigger] table.contains_key(k) implies holds_at(
        bytes + more,
        table[k] as int,
        encode_utf8(k) + seq![0u8],
    ) by {
        lemma_holds_extend(bytes, table[k] as int, encode_utf8(k) + seq![0u8], more);
    }
}

/// A table that stands in the pool, with a new string that was appended
/// to the pool under the old length, stands in the new pool.
pub proof fn lemma_table_grows(bytes: Seq<u8>, table: Map<Seq<char>, nat>, key: Seq<char>)
    requires
        table_stands(bytes, table),
        bytes.len() < 0x1_0000_0000,
    ensures
        table_stands(bytes + encode_utf8(key) + seq![0u8], table.insert(key, count32(bytes.len()))),
{
    let more = encode_utf8(key) + seq![0u8];
    let grown = bytes + encode_utf8(key) + seq![0u8];
    assert(grown =~= bytes + more);
    lemma_count32_small(bytes.len());
    lemma_table_extends(bytes, table, more);
    lemma_holds_appended(bytes, more);
    let t2 = table.insert(key, count32(bytes.len()));
    assert forall|k: Seq<char>| #[trigger] t2.contains_key(k) implies holds_at(
        grown,
        t2[k] as int,
        encode_utf8(k) + seq![0u8],
    ) by {
        if k != key {
            assert(table.contains_key(k));
        }
    }
}

/// The pool of an archive holds every folder and every file name of its
/// files, each where its table says: a string that occurs in several paths
/// stands in the pool once for its kind, at the offset that every record
/// with that string gets.
pub proof fn pool_holds_each_string(files: Seq<VirtualFileModel>)
    requires
        pool_of(files).bytes.len() < 0x1_0000_0000,
    ensures
        pool_stands(pool_of(files)),
        forall|i: int|
            0 <= i < files.len() ==> pool_of(files).folders.contains_key(folder_of(#[trigger] files[i].path))
                && pool_of(files).names.contains_key(filename_of(files[i].path)),
    decreases files.len(),
{
    if files.len() > 0 {
        let head = files.drop_last();
        let last = files.last();
        let p0 = pool_of(head);
        let folder = folder_of(last.path);
        let name = filename_of(last.path);
        let p1 = pool_with_folder(p0, folder);
        let p2 = pool_with_name(p1, name);
        assert(pool_of(files) == p2);
        assert(p0.bytes.len() <= p1.bytes.len() <= p2.bytes.len());
        pool_holds_each_string(head);
        if !p0.folders.contains_key(folder) {
            let more = encode_utf8(folder) + seq![0u8];
            assert(p1.bytes =~= p0.bytes + more);
            lemma_table_grows(p0.bytes, p0.folders, folder);
            lemma_table_extends(p0.bytes, p0.names, more);
        }
        assert(pool_stands(p1));
        if !p1.names.contains_key(name) {
            let more = encode_utf8(name) + seq![0u8];
            assert(p2.bytes =~= p1.bytes + more);
            lemma_table_grows(p1.bytes, p1.names, name);
            lemma_table_extends(p1.bytes, p1.folders, more);
        }
        assert(pool_stands(p2));
        assert forall|i: int| 0 <= i < files.len() implies p2.folders.contains_key(
            folder_of(#[trigger] files[i].path),
        ) && p2.names.contains_key(filename_of(files[i].path)) by {
            if i < files.len() - 1 {
                assert(head[i] == files[i]);
            }
        }
    }
}

} // verus!
