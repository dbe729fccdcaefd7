use vstd::prelude::*;
use vstd::utf8::*;
use crate::byte_order::{lemma_pow256_widths, lemma_uint_bytes_len, lemma_uint_round_trip, uint_bytes};
use crate::collectible_database::{
    collectible_bytes,
    collectible_encoder,
    collectible_parser,
    count32,
    database_bytes,
    lemma_count32_small,
    extra_bytes,
    extra_encoder,
    extra_parser,
    parse_collectible,
    parse_database,
    parse_extra,
    CollectibleModel,
    DatabaseModel,
    ExtraModel,
};
use crate::cursor_laws::lemma_first_nul;
use crate::error::Fault;
use crate::file_manipulator::{jps_bytes, lemma_jps_bytes_len, start_of, Cursor, EndianType};
use crate::framing::{concat_map, parse_many};

verus! {

/// `bytes` stand in `data` from offset `pos` on.
#[verifier::opaque]
pub open spec fn holds_at(data: Seq<u8>, pos: int, bytes: Seq<u8>) -> bool {
    0 <= pos && pos + bytes.len() <= data.len() && data.subrange(pos, pos + bytes.len()) == bytes
}

/// The text does not encode to a zero byte, which would end its frame
/// early.
#[verifier::opaque]
pub open spec fn clean(s: Seq<char>) -> bool {
    !encode_utf8(s).contains(0u8)
}

/// No string of the collectible encodes to a zero byte.
pub open spec fn clean_collectible(c: CollectibleModel) -> bool {
    clean(c.type_) && clean(c.dev_name) && clean(c.icon_path)
}

/// No string of the extra encodes to a zero byte.
pub open spec fn clean_extra(x: ExtraModel) -> bool {
    clean(x.global_state) && clean(x.type_) && clean(x.thumbnail_path) && clean(x.asset_path)
}

/// A catalog that its bytes can carry: both counts fit 32 bits and no
/// string encodes to a zero byte.
pub open spec fn storable(db: DatabaseModel) -> bool {
    &&& db.collectibles.len() < 0x1_0000_0000
    &&& db.extras.len() < 0x1_0000_0000
    &&& forall|i: int| 0 <= i < db.collectibles.len() ==> clean_collectible(#[trigger] db.collectibles[i])
    &&& forall|i: int| 0 <= i < db.extras.len() ==> clean_extra(#[trigger] db.extras[i])
}

/// Where two byte strings stand one behind the other, each stands at its
/// place.
pub proof fn lemma_holds_split(data: Seq<u8>, pos: int, a: Seq<u8>, b: Seq<u8>)
    requires
        holds_at(data, pos, a + b),
    ensures
        holds_at(data, pos, a),
        holds_at(data, pos + a.len(), b),
{
    reveal(holds_at);
    let ab = a + b;
    assert(data.subrange(pos, pos + a.len()) =~= ab.subrange(0, a.len() as int));
    assert(ab.subrange(0, a.len() as int) =~= a);
    assert(data.subrange(pos + a.len(), pos + a.len() + b.len()) =~= ab.subrange(a.len() as int, ab.len() as int));
    assert(ab.subrange(a.len() as int, ab.len() as int) =~= b);
}

/// `x` is a multiple of 4.
#[verifier::opaque]
pub open spec fn aligned(x: int) -> bool {
    x % 4 == 0
}

/// The sum of two multiples of 4 is one, and so are 0 and 4.
pub proof fn lemma_aligned_sum(a: int, b: int)
    ensures
        aligned(a) && aligned(b) ==> aligned(a + b),
        aligned(0),
        aligned(4),
{
    reveal(aligned);
}

/// The frame of a string.
#[verifier::opaque]
pub open spec fn frame_of(s: Seq<char>) -> Seq<u8> {
    jps_bytes(encode_utf8(s))
}

/// Reading a framed string at `c` gives `s` and leaves the cursor at `c2`.
#[verifier::opaque]
pub open spec fn reads_frame(c: Cursor, s: Seq<char>, c2: Cursor) -> bool {
    c.r_str_jps() == Ok::<(Seq<char>, Cursor), Fault>((s, c2))
}

/// Reading a 32-bit number at `c` gives `v` and leaves the cursor at `c2`.
#[verifier::opaque]
pub open spec fn reads_number(c: Cursor, v: nat, c2: Cursor) -> bool {
    c.r_uint(4) == Ok::<(nat, Cursor), Fault>((v, c2))
}

/// Reading a catalog at `c` gives `db` and leaves the cursor at `c2`.
#[verifier::opaque]
pub open spec fn reads_database(c: Cursor, db: DatabaseModel, c2: Cursor) -> bool {
    parse_database(c) == Ok::<(DatabaseModel, Cursor), Fault>((db, c2))
}

/// A frame that stands at a cursor on a multiple of 4 reads back as its
/// string, and the cursor comes to stand behind the frame.
pub proof fn lemma_read_frame(c: Cursor, s: Seq<char>)
    requires
        aligned(c.pos),
        holds_at(c.data, c.pos, frame_of(s)),
        clean(s),
    ensures
        reads_frame(c, s, c.skip(frame_of(s).len() as int)),
        aligned(frame_of(s).len() as int),
{
    reveal(frame_of);
    reveal(reads_frame);
    reveal(holds_at);
    reveal(clean);
    reveal(aligned);
    let text = encode_utf8(s);
    let n = text.len() as int;
    let frame = jps_bytes(text);
    lemma_jps_bytes_len(text);
    encode_utf8_decode_utf8(s);
    encode_utf8_valid_utf8(s);
    assert forall|j: int| 0 <= j < frame.len() implies c.data[c.pos + j] == frame[j] by {
        assert(c.data.subrange(c.pos, c.pos + frame.len())[j] == frame[j]);
    }
    assert forall|i: int| c.pos + 2 <= i < c.pos + 2 + n implies c.data[i] != 0 by {
        assert(c.data[i] == frame[i - c.pos]);
        assert(frame[i - c.pos] == text[i - c.pos - 2]);
        assert(text.contains(text[i - c.pos - 2]));
    }
    assert(c.data[c.pos + 2 + n] == frame[2 + n]);
    lemma_first_nul(c.data, c.pos + 2, c.pos + 2 + n);
    assert forall|j: int| 0 <= j < n implies c.data.subrange(c.pos + 2, c.pos + 2 + n)[j] == text[j] by {
        assert(c.data[c.pos + 2 + j] == frame[2 + j]);
        assert(frame[2 + j] == text[j]);
    }
    assert(c.data.subrange(c.pos + 2, c.pos + 2 + n) =~= text);
    assert(c.skip(1).skip(1).skip(n + 1) == c.skip(n + 3));
}

/// A 32-bit number that stands at the cursor reads back.
pub proof fn lemma_read_number(c: Cursor, v: nat)
    requires
        holds_at(c.data, c.pos, uint_bytes(c.endian, v, 4)),
        v < 0x1_0000_0000,
    ensures
        reads_number(c, v, c.skip(4)),
{
    reveal(holds_at);
    reveal(reads_number);
    lemma_pow256_widths();
    lemma_uint_round_trip(c.endian, v, 4);
}

/// Reading collectible at `c` gives `m` and leaves the cursor at `c2`.
#[verifier::opaque]
pub open spec fn reads_collectible(c: Cursor, m: CollectibleModel, c2: Cursor) -> bool {
    parse_collectible(c) == Ok::<(CollectibleModel, Cursor), Fault>((m, c2))
}

/// The strings of collectible, read one behind the other, make up the record.
pub proof fn lemma_frames_make_collectible(c: Cursor, m: CollectibleModel, c1: Cursor, c2: Cursor, c3: Cursor)
    requires
        reads_frame(c, m.type_, c1),
        reads_frame(c1, m.dev_name, c2),
        reads_frame(c2, m.icon_path, c3),
    ensures
        reads_collectible(c, m, c3),
{
    reveal(reads_frame);
    reveal(reads_collectible);
}

/// The record of collectible reads back from its bytes.
pub proof fn lemma_read_collectible(c: Cursor, m: CollectibleModel)
    requires
        aligned(c.pos),
        holds_at(c.data, c.pos, collectible_bytes(m)),
        clean_collectible(m),
    ensures
        reads_collectible(c, m, c.skip(collectible_bytes(m).len() as int)),
        aligned(collectible_bytes(m).len() as int),
{
    let f1 = frame_of(m.type_);
    let f2 = frame_of(m.dev_name);
    let f3 = frame_of(m.icon_path);
    assert(collectible_bytes(m) == f1 + f2 + f3) by {
        reveal(frame_of);
    }
    lemma_holds_split(c.data, c.pos, f1 + f2, f3);
    lemma_holds_split(c.data, c.pos, f1, f2);
    lemma_read_frame(c, m.type_);
    let c1 = c.skip(f1.len() as int);
    lemma_aligned_sum(c.pos, f1.len() as int);
    lemma_read_frame(c1, m.dev_name);
    let c2 = c1.skip(f2.len() as int);
    lemma_aligned_sum(c1.pos, f2.len() as int);
    lemma_read_frame(c2, m.icon_path);
    let c3 = c2.skip(f3.len() as int);
    lemma_aligned_sum(c2.pos, f3.len() as int);
    lemma_frames_make_collectible(c, m, c1, c2, c3);
    lemma_aligned_sum(f1.len() as int, f2.len() as int);
    lemma_aligned_sum((f1 + f2).len() as int, f3.len() as int);
    assert(c3 == c.skip((f1 + f2 + f3).len() as int));
}

/// Reading the records at `c` gives `items` and leaves the cursor at `c2`.
#[verifier::opaque]
pub open spec fn reads_collectibles(c: Cursor, items: Seq<CollectibleModel>, c2: Cursor) -> bool {
    parse_many(c, items.len(), collectible_parser()) == Ok::<(Seq<CollectibleModel>, Cursor), Fault>((items, c2))
}

/// No record is read where none is asked for.
pub proof fn lemma_no_collectibles(c: Cursor)
    ensures
        reads_collectibles(c, Seq::<CollectibleModel>::empty(), c),
{
    reveal(reads_collectibles);
}

/// One more record behind a list that reads back makes a list that reads
/// back.
pub proof fn lemma_one_more_collectible(c: Cursor, head: Seq<CollectibleModel>, last: CollectibleModel, c1: Cursor, c2: Cursor)
    requires
        reads_collectibles(c, head, c1),
        reads_collectible(c1, last, c2),
    ensures
        reads_collectibles(c, head.push(last), c2),
{
    reveal(reads_collectibles);
    reveal(reads_collectible);
    assert(head.push(last).len() - 1 == head.len());
}

/// A list of records reads back from its bytes.
pub proof fn lemma_read_collectibles(c: Cursor, items: Seq<CollectibleModel>)
    requires
        aligned(c.pos),
        holds_at(c.data, c.pos, concat_map(items, collectible_encoder())),
        forall|i: int| 0 <= i < items.len() ==> clean_collectible(#[trigger] items[i]),
    ensures
        reads_collectibles(c, items, c.skip(concat_map(items, collectible_encoder()).len() as int)),
        aligned(concat_map(items, collectible_encoder()).len() as int),
    decreases items.len(),
{
    if items.len() == 0 {
        assert(items =~= Seq::<CollectibleModel>::empty());
        assert(c.skip(0) == c);
        lemma_no_collectibles(c);
        lemma_aligned_sum(0, 0);
    } else {
        let head = items.drop_last();
        let last = items.last();
        let a = concat_map(head, collectible_encoder());
        let b = collectible_bytes(last);
        lemma_holds_split(c.data, c.pos, a, b);
        assert forall|i: int| 0 <= i < head.len() implies clean_collectible(#[trigger] head[i]) by {
            assert(head[i] == items[i]);
        }
        lemma_read_collectibles(c, head);
        let c1 = c.skip(a.len() as int);
        lemma_aligned_sum(c.pos, a.len() as int);
        lemma_read_collectible(c1, last);
        lemma_aligned_sum(a.len() as int, b.len() as int);
        let c2 = c1.skip(b.len() as int);
        lemma_one_more_collectible(c, head, last, c1, c2);
        assert(c2 == c.skip((a + b).len() as int));
        assert(head.push(last) =~= items);
    }
}

/// Reading extra at `c` gives `m` and leaves the cursor at `c2`.
#[verifier::opaque]
pub open spec fn reads_extra(c: Cursor, m: ExtraModel, c2: Cursor) -> bool {
    parse_extra(c) == Ok::<(ExtraModel, Cursor), Fault>((m, c2))
}

/// The strings of extra, read one behind the other, make up the record.
pub proof fn lemma_frames_make_extra(c: Cursor, m: ExtraModel, c1: Cursor, c2: Cursor, c3: Cursor, c4: Cursor)
    requires
        reads_frame(c, m.global_state, c1),
        reads_frame(c1, m.type_, c2),
        reads_frame(c2, m.thumbnail_path, c3),
        reads_frame(c3, m.asset_path, c4),
    ensures
        reads_extra(c, m, c4),
{
    reveal(reads_frame);
    reveal(reads_extra);
}

/// The record of extra reads back from its bytes.
pub proof fn lemma_read_extra(c: Cursor, m: ExtraModel)
    requires
        aligned(c.pos),
        holds_at(c.data, c.pos, extra_bytes(m)),
        clean_extra(m),
    ensures
        reads_extra(c, m, c.skip(extra_bytes(m).len() as int)),
        aligned(extra_bytes(m).len() as int),
{
    let f1 = frame_of(m.global_state);
    let f2 = frame_of(m.type_);
    let f3 = frame_of(m.thumbnail_path);
    let f4 = frame_of(m.asset_path);
    assert(extra_bytes(m) == f1 + f2 + f3 + f4) by {
        reveal(frame_of);
    }
    lemma_holds_split(c.data, c.pos, f1 + f2 + f3, f4);
    lemma_holds_split(c.data, c.pos, f1 + f2, f3);
    lemma_holds_split(c.data, c.pos, f1, f2);
    lemma_read_frame(c, m.global_state);
    let c1 = c.skip(f1.len() as int);
    lemma_aligned_sum(c.pos, f1.len() as int);
    lemma_read_frame(c1, m.type_);
    let c2 = c1.skip(f2.len() as int);
    lemma_aligned_sum(c1.pos, f2.len() as int);
    lemma_read_frame(c2, m.thumbnail_path);
    let c3 = c2.skip(f3.len() as int);
    lemma_aligned_sum(c2.pos, f3.len() as int);
    lemma_read_frame(c3, m.asset_path);
    let c4 = c3.skip(f4.len() as int);
    lemma_aligned_sum(c3.pos, f4.len() as int);
    lemma_frames_make_extra(c, m, c1, c2, c3, c4);
    lemma_aligned_sum(f1.len() as int, f2.len() as int);
    lemma_aligned_sum((f1 + f2).len() as int, f3.len() as int);
    lemma_aligned_sum((f1 + f2 + f3).len() as int, f4.len() as int);
    assert(c4 == c.skip((f1 + f2 + f3 + f4).len() as int));
}

/// Reading the records at `c` gives `items` and leaves the cursor at `c2`.
#[verifier::opaque]
pub open spec fn reads_extras(c: Cursor, items: Seq<ExtraModel>, c2: Cursor) -> bool {
    parse_many(c, items.len(), extra_parser()) == Ok::<(Seq<ExtraModel>, Cursor), Fault>((items, c2))
}

/// No record is read where none is asked for.
pub proof fn lemma_no_extras(c: Cursor)
    ensures
        reads_extras(c, Seq::<ExtraModel>::empty(), c),
{
    reveal(reads_extras);
}

/// One more record behind a list that reads back makes a list that reads
/// back.
pub proof fn lemma_one_more_extra(c: Cursor, head: Seq<ExtraModel>, last: ExtraModel, c1: Cursor, c2: Cursor)
    requires
        reads_extras(c, head, c1),
        reads_extra(c1, last, c2),
    ensures
        reads_extras(c, head.push(last), c2),
{
    reveal(reads_extras);
    reveal(reads_extra);
    assert(head.push(last).len() - 1 == head.len());
}

/// A list of records reads back from its bytes.
pub proof fn lemma_read_extras(c: Cursor, items: Seq<ExtraModel>)
    requires
        aligned(c.pos),
        holds_at(c.data, c.pos, concat_map(items, extra_encoder())),
        forall|i: int| 0 <= i < items.len() ==> clean_extra(#[trigger] items[i]),
    ensures
        reads_extras(c, items, c.skip(concat_map(items, extra_encoder()).len() as int)),
        aligned(concat_map(items, extra_encoder()).len() as int),
    decreases items.len(),
{
    if items.len() == 0 {
        assert(items =~= Seq::<ExtraModel>::empty());
        assert(c.skip(0) == c);
        lemma_no_extras(c);
        lemma_aligned_sum(0, 0);
    } else {
        let head = items.drop_last();
        let last = items.last();
        let a = concat_map(head, extra_encoder());
        let b = extra_bytes(last);
        lemma_holds_split(c.data, c.pos, a, b);
        assert forall|i: int| 0 <= i < head.len() implies clean_extra(#[trigger] head[i]) by {
            assert(head[i] == items[i]);
        }
        lemma_read_extras(c, head);
        let c1 = c.skip(a.len() as int);
        lemma_aligned_sum(c.pos, a.len() as int);
        lemma_read_extra(c1, last);
        lemma_aligned_sum(a.len() as int, b.len() as int);
        let c2 = c1.skip(b.len() as int);
        lemma_one_more_extra(c, head, last, c1, c2);
        assert(c2 == c.skip((a + b).len() as int));
        assert(head.push(last) =~= items);
    }
}

/// The parts of a catalog, read one behind the other, make up the catalog.
pub proof fn lemma_parts_make_database(
    c: Cursor,
    db: DatabaseModel,
    c1: Cursor,
    c2: Cursor,
    c3: Cursor,
    c4: Cursor,
    c5: Cursor,
)
    requires
        reads_number(c, db.version as nat, c1),
        reads_number(c1, db.collectibles.len(), c2),
        reads_collectibles(c2, db.collectibles, c3),
        reads_number(c3, db.extras.len(), c4),
        reads_extras(c4, db.extras, c5),
    ensures
        reads_database(c, db, c5),
{
    reveal(reads_number);
    reveal(reads_collectibles);
    reveal(reads_extras);
    reveal(reads_database);
}

/// The bytes of a storable catalog read back as the catalog, up to their
/// end.
pub proof fn lemma_read_database(db: DatabaseModel, endian: EndianType)
    requires
        storable(db),
    ensures
        reads_database(
            start_of(database_bytes(db, endian), endian),
            db,
            start_of(database_bytes(db, endian), endian).skip(database_bytes(db, endian).len() as int),
        ),
{
    let bytes = database_bytes(db, endian);
    let c = start_of(bytes, endian);
    let a = uint_bytes(endian, db.version as nat, 4);
    let b = uint_bytes(endian, count32(db.collectibles.len()), 4);
    let cs = concat_map(db.collectibles, collectible_encoder());
    let d = uint_bytes(endian, count32(db.extras.len()), 4);
    let xs = concat_map(db.extras, extra_encoder());
    assert(holds_at(bytes, 0, a + b + cs + d + xs)) by {
        reveal(holds_at);
        assert(bytes.subrange(0, bytes.len() as int) =~= bytes);
    }
    lemma_count32_small(db.collectibles.len());
    lemma_count32_small(db.extras.len());
    lemma_holds_split(bytes, 0, a + b + cs + d, xs);
    lemma_holds_split(bytes, 0, a + b + cs, d);
    lemma_holds_split(bytes, 0, a + b, cs);
    lemma_holds_split(bytes, 0, a, b);
    lemma_uint_bytes_len(endian, db.version as nat, 4);
    lemma_uint_bytes_len(endian, count32(db.collectibles.len()), 4);
    lemma_uint_bytes_len(endian, count32(db.extras.len()), 4);
    lemma_read_number(c, db.version as nat);
    let c1 = c.skip(4);
    lemma_read_number(c1, db.collectibles.len());
    let c2 = c1.skip(4);
    lemma_aligned_sum(4, 4);
    lemma_read_collectibles(c2, db.collectibles);
    let c3 = c2.skip(cs.len() as int);
    lemma_aligned_sum(8, cs.len() as int);
    lemma_read_number(c3, db.extras.len());
    let c4 = c3.skip(4);
    lemma_aligned_sum(8 + cs.len() as int, 4);
    lemma_read_extras(c4, db.extras);
    let c5 = c4.skip(xs.len() as int);
    lemma_parts_make_database(c, db, c1, c2, c3, c4, c5);
    assert(c5 == c.skip(bytes.len() as int));
}

/// A catalog survives its bytes: reading the bytes of a storable catalog,
/// in the byte order in which they were written, gives the catalog back
/// and uses up all the bytes.
pub proof fn catalog_round_trip(db: DatabaseModel, endian: EndianType)
    requires
        storable(db),
    ensures
        parse_database(start_of(database_bytes(db, endian), endian)) == Ok::<(DatabaseModel, Cursor), Fault>(
            (db, start_of(database_bytes(db, endian), endian).skip(database_bytes(db, endian).len() as int)),
        ),
{
    lemma_read_database(db, endian);
    reveal(reads_database);
}

/// Writing a catalog that was read and reading it again gives the same
/// catalog: where bytes read as a storable catalog, the bytes of that
/// catalog read as the same catalog.
pub proof fn catalog_rewrite_round_trip(bytes: Seq<u8>, endian: EndianType)
    requires
        parse_database(start_of(bytes, endian)) matches Ok((m, _)) && storable(m),
    ensures
        parse_database(start_of(bytes, endian)) matches Ok((m, _)) && (parse_database(
            start_of(database_bytes(m, endian), endian),
        ) matches Ok((back, _)) && back == m),
{
    let m = parse_database(start_of(bytes, endian))->Ok_0.0;
    catalog_round_trip(m, endian);
}

} // verus!
