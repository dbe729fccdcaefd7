use vstd::prelude::*;
use vstd::utf8::*;
use crate::byte_order::{lemma_uint_bytes_len, uint_bytes};
use crate::catalog_laws::{clean, holds_at, lemma_holds_split, lemma_read_number, reads_number};
use crate::collectible_database::{count32, lemma_count32_small};
use crate::cursor_laws::lemma_first_nul;
use crate::dct::{
    dct_bytes,
    dct_header,
    dialog_parser,
    dialog_record,
    dialog_records,
    dialog_text_bytes,
    dialog_text_encoder,
    footer_count,
    footer_parser,
    footer_record,
    footer_records,
    footer_text_bytes,
    footer_text_encoder,
    le4,
    offset_field,
    parse_dct,
    parse_dialog,
    parse_footer,
    parse_header,
    terminator,
    DctModel,
    HeaderModel,
    DialogModel,
    FooterModel,
};
use crate::framing::{concat_map, parse_many};
use crate::error::Fault;
use crate::file_manipulator::{start_of, zeros, Cursor, EndianType};
use crate::format_laws::placeholder_record_reads_back;

verus! {

/// Reading a dialog record at `c` gives `e` and leaves the cursor at `c2`.
#[verifier::opaque]
pub open spec fn reads_dialog(c: Cursor, e: DialogModel, c2: Cursor) -> bool {
    parse_dialog(c) == Ok::<(DialogModel, Cursor), Fault>((e, c2))
}

/// Reading a footer record at `c` gives `e` and leaves the cursor at `c2`.
#[verifier::opaque]
pub open spec fn reads_footer(c: Cursor, e: FooterModel, c2: Cursor) -> bool {
    parse_footer(c) == Ok::<(FooterModel, Cursor), Fault>((e, c2))
}

/// The text at offset `off` reads as `s`.
#[verifier::opaque]
pub open spec fn reads_text_at(c: Cursor, off: int, s: Seq<char>) -> bool {
    c.str_null_at(off) == Ok::<Seq<char>, Fault>(s)
}

/// A dialog entry that its record can carry: a placeholder has no text;
/// the text of any other entry does not encode to a zero byte.
pub open spec fn storable_dialog(e: DialogModel) -> bool {
    if e.hashed_key == 0 {
        e.text.len() == 0
    } else {
        clean(e.text)
    }
}

/// An offset field that does not wrap holds the distance less one.
pub proof fn lemma_offset_field(target: int, field_pos: int)
    requires
        0 <= target - field_pos - 1 < 0x1_0000_0000,
    ensures
        offset_field(target, field_pos) == target - field_pos - 1,
{
}

/// A text with its terminator that stands at `off` reads back from there.
pub proof fn lemma_read_text_at(c: Cursor, off: int, s: Seq<char>)
    requires
        holds_at(c.data, off, encode_utf8(s) + seq![0u8]),
        clean(s),
    ensures
        reads_text_at(c, off, s),
{
    reveal(holds_at);
    reveal(clean);
    reveal(reads_text_at);
    let text = encode_utf8(s);
    let n = text.len() as int;
    let stored = text + seq![0u8];
    encode_utf8_decode_utf8(s);
    encode_utf8_valid_utf8(s);
    assert forall|j: int| 0 <= j < stored.len() implies c.data[off + j] == stored[j] by {
        assert(c.data.subrange(off, off + stored.len())[j] == stored[j]);
    }
    assert forall|i: int| off <= i < off + n implies c.data[i] != 0 by {
        assert(c.data[i] == stored[i - off]);
        assert(stored[i - off] == text[i - off]);
        assert(text.contains(text[i - off]));
    }
    assert(c.data[off + n] == stored[n]);
    lemma_first_nul(c.data, off, off + n);
    assert forall|j: int| 0 <= j < n implies c.data.subrange(off, off + n)[j] == text[j] by {
        assert(c.data[off + j] == stored[j]);
    }
    assert(c.data.subrange(off, off + n) =~= text);
}

/// The fields of a dialog record with a key, read one behind the other,
/// and its text make up the entry.
pub proof fn lemma_fields_make_dialog(c: Cursor, e: DialogModel, c1: Cursor, c2: Cursor, c3: Cursor, rel: nat)
    requires
        e.hashed_key != 0,
        reads_number(c, e.hashed_key as nat, c1),
        reads_number(c1, rel, c2),
        reads_number(c2, 0, c3),
        reads_text_at(c3, c1.pos + rel + 1, e.text),
    ensures
        reads_dialog(c, e, c3),
{
    reveal(reads_number);
    reveal(reads_text_at);
    reveal(reads_dialog);
}

/// The fields of a footer record, read one behind the other, and its text
/// make up the entry.
pub proof fn lemma_fields_make_footer(c: Cursor, e: FooterModel, c1: Cursor, c2: Cursor, rel: nat)
    requires
        reads_number(c, rel, c1),
        reads_number(c1, e.number as nat, c2),
        reads_text_at(c2, c.pos + rel + 1, e.text),
    ensures
        reads_footer(c, e, c2),
{
    reveal(reads_number);
    reveal(reads_text_at);
    reveal(reads_footer);
}

/// A dialog entry survives its record: where the record of a storable
/// entry stands at a little-endian cursor and, for an entry with a key,
/// its text with a terminator stands where the record points, reading the
/// record gives the entry and leaves the cursor behind the record. A
/// placeholder comes back as a placeholder.
pub proof fn dialog_record_round_trip(c: Cursor, e: DialogModel, text_pos: int)
    requires
        c.wf(),
        c.endian == EndianType::LITTLE,
        storable_dialog(e),
        holds_at(c.data, c.pos, dialog_record(e, c.pos, text_pos)),
        e.hashed_key != 0 ==> holds_at(c.data, text_pos, encode_utf8(e.text) + seq![0u8]),
        e.hashed_key != 0 ==> 0 <= text_pos - c.pos - 5 < 0x1_0000_0000,
    ensures
        reads_dialog(c, e, c.skip(12)),
{
    lemma_uint_bytes_len(EndianType::LITTLE, 0, 4);
    if e.hashed_key == 0 {
        assert(c.can_read(12) && c.peek(12) == dialog_record(e, c.pos, text_pos)) by {
            reveal(holds_at);
        }
        placeholder_record_reads_back(c, e.text, c.pos, text_pos);
        assert(e.text =~= Seq::<char>::empty());
        reveal(reads_dialog);
    } else {
        let rel = offset_field(text_pos, c.pos + 4);
        lemma_offset_field(text_pos, c.pos + 4);
        let a = le4(e.hashed_key as nat);
        let b = le4(rel);
        let z = le4(0);
        lemma_uint_bytes_len(EndianType::LITTLE, e.hashed_key as nat, 4);
        lemma_uint_bytes_len(EndianType::LITTLE, rel, 4);
        lemma_holds_split(c.data, c.pos, a + b, z);
        lemma_holds_split(c.data, c.pos, a, b);
        lemma_read_number(c, e.hashed_key as nat);
        let c1 = c.skip(4);
        lemma_read_number(c1, rel);
        let c2 = c1.skip(4);
        lemma_read_number(c2, 0);
        let c3 = c2.skip(4);
        lemma_read_text_at(c3, text_pos, e.text);
        lemma_fields_make_dialog(c, e, c1, c2, c3, rel);
        assert(c3 == c.skip(12));
    }
}

/// A footer entry survives its record: where the record of an entry whose
/// text does not encode to a zero byte stands at a little-endian cursor
/// and its text with a terminator stands where the record points, reading
/// the record gives the entry and leaves the cursor behind the record.
pub proof fn footer_record_round_trip(c: Cursor, e: FooterModel, text_pos: int)
    requires
        c.wf(),
        c.endian == EndianType::LITTLE,
        clean(e.text),
        holds_at(c.data, c.pos, footer_record(e, c.pos, text_pos)),
        holds_at(c.data, text_pos, encode_utf8(e.text) + seq![0u8]),
        0 <= text_pos - c.pos - 1 < 0x1_0000_0000,
    ensures
        reads_footer(c, e, c.skip(8)),
{
    let rel = offset_field(text_pos, c.pos);
    lemma_offset_field(text_pos, c.pos);
    let a = le4(rel);
    let b = le4(e.number as nat);
    lemma_uint_bytes_len(EndianType::LITTLE, rel, 4);
    lemma_uint_bytes_len(EndianType::LITTLE, e.number as nat, 4);
    lemma_holds_split(c.data, c.pos, a, b);
    lemma_read_number(c, rel);
    let c1 = c.skip(4);
    lemma_read_number(c1, e.number as nat);
    let c2 = c1.skip(4);
    lemma_read_text_at(c2, text_pos, e.text);
    lemma_fields_make_footer(c, e, c1, c2, rel);
    assert(c2 == c.skip(8));
}

/// What stands in a buffer stands inside it.
pub proof fn lemma_holds_bounds(data: Seq<u8>, pos: int, bytes: Seq<u8>)
    requires
        holds_at(data, pos, bytes),
    ensures
        0 <= pos,
        pos + bytes.len() <= data.len(),
{
    reveal(holds_at);
}

/// A dialog record takes 12 bytes.
pub proof fn lemma_dialog_record_len(e: DialogModel, record_pos: int, text_pos: int)
    ensures
        dialog_record(e, record_pos, text_pos).len() == 12,
{
    lemma_uint_bytes_len(EndianType::LITTLE, 0, 4);
    lemma_uint_bytes_len(EndianType::LITTLE, e.hashed_key as nat, 4);
    lemma_uint_bytes_len(EndianType::LITTLE, offset_field(text_pos, record_pos + 4), 4);
}

/// A footer record takes 8 bytes.
pub proof fn lemma_footer_record_len(e: FooterModel, record_pos: int, text_pos: int)
    ensures
        footer_record(e, record_pos, text_pos).len() == 8,
{
    lemma_uint_bytes_len(EndianType::LITTLE, e.number as nat, 4);
    lemma_uint_bytes_len(EndianType::LITTLE, offset_field(text_pos, record_pos), 4);
}

/// A footer entry that its record can carry: its text does not encode to a
/// zero byte.
pub open spec fn storable_footer(e: FooterModel) -> bool {
    clean(e.text)
}

/// The records of `n` entries take 12 bytes each.
pub proof fn lemma_dialog_records_len(entries: Seq<DialogModel>, base: int, text_start: int)
    ensures
        dialog_records(entries, base, text_start).len() == 12 * entries.len(),
    decreases entries.len(),
{
    if entries.len() > 0 {
        lemma_dialog_records_len(entries.drop_last(), base, text_start);
        lemma_uint_bytes_len(EndianType::LITTLE, 0, 4);
        let e = entries.last();
        let head = entries.drop_last();
        let record_pos = base + 12 * head.len();
        let text_pos = text_start + concat_map(head, dialog_text_encoder()).len();
        lemma_dialog_record_len(e, record_pos, text_pos);
    }
}

/// Reading the records at `c` gives `entries` and leaves the cursor at
/// `c2`.
#[verifier::opaque]
pub open spec fn reads_dialogs(c: Cursor, entries: Seq<DialogModel>, c2: Cursor) -> bool {
    parse_many(c, entries.len(), dialog_parser()) == Ok::<(Seq<DialogModel>, Cursor), Fault>((entries, c2))
}

/// No record is read where none is asked for.
pub proof fn lemma_no_dialogs(c: Cursor)
    ensures
        reads_dialogs(c, Seq::<DialogModel>::empty(), c),
{
    reveal(reads_dialogs);
}

/// One more record behind a list that reads back makes a list that reads
/// back.
pub proof fn lemma_one_more_dialog(c: Cursor, head: Seq<DialogModel>, last: DialogModel, c1: Cursor, c2: Cursor)
    requires
        reads_dialogs(c, head, c1),
        reads_dialog(c1, last, c2),
    ensures
        reads_dialogs(c, head.push(last), c2),
{
    reveal(reads_dialogs);
    reveal(reads_dialog);
    assert(head.push(last).len() - 1 == head.len());
}

/// A list of entries survives its records: where the records stand at a
/// little-endian cursor and the texts stand one behind the other from
/// `text_start` on, behind the records and below 4 GiB, reading as many
/// records as there are entries gives the entries.
pub proof fn dialog_records_round_trip(c: Cursor, entries: Seq<DialogModel>, text_start: int)
    requires
        c.wf(),
        c.endian == EndianType::LITTLE,
        forall|i: int| 0 <= i < entries.len() ==> storable_dialog(#[trigger] entries[i]),
        holds_at(c.data, c.pos, dialog_records(entries, c.pos, text_start)),
        concat_map(entries, dialog_text_encoder()).len() > 0 ==> holds_at(
            c.data,
            text_start,
            concat_map(entries, dialog_text_encoder()),
        ),
        c.pos + 12 * entries.len() + 5 <= text_start,
        text_start + concat_map(entries, dialog_text_encoder()).len() < 0x1_0000_0000,
    ensures
        reads_dialogs(c, entries, c.skip((12 * entries.len()) as int)),
    decreases entries.len(),
{
    if entries.len() == 0 {
        assert(entries =~= Seq::<DialogModel>::empty());
        assert(c.skip(0) == c);
        lemma_no_dialogs(c);
    } else {
        let head = entries.drop_last();
        let last = entries.last();
        let records_head = dialog_records(head, c.pos, text_start);
        let texts_head = concat_map(head, dialog_text_encoder());
        let text_pos = text_start + texts_head.len();
        let record_pos = c.pos + 12 * head.len();
        let record = dialog_record(last, record_pos, text_pos);
        let stored = dialog_text_bytes(last);
        lemma_dialog_records_len(head, c.pos, text_start);
        lemma_holds_split(c.data, c.pos, records_head, record);
        if concat_map(entries, dialog_text_encoder()).len() > 0 {
            lemma_holds_split(c.data, text_start, texts_head, stored);
        }
        assert forall|i: int| 0 <= i < head.len() implies storable_dialog(#[trigger] head[i]) by {
            assert(head[i] == entries[i]);
        }
        dialog_records_round_trip(c, head, text_start);
        let c1 = c.skip((12 * head.len()) as int);
        lemma_holds_bounds(c.data, record_pos, record);
        dialog_record_round_trip(c1, last, text_pos);
        let c2 = c1.skip(12);
        lemma_one_more_dialog(c, head, last, c1, c2);
        assert(c2 == c.skip((12 * entries.len()) as int));
        assert(head.push(last) =~= entries);
    }
}

/// The records of `n` entries take 8 bytes each.
pub proof fn lemma_footer_records_len(entries: Seq<FooterModel>, base: int, text_start: int)
    ensures
        footer_records(entries, base, text_start).len() == 8 * entries.len(),
    decreases entries.len(),
{
    if entries.len() > 0 {
        lemma_footer_records_len(entries.drop_last(), base, text_start);
        lemma_uint_bytes_len(EndianType::LITTLE, 0, 4);
        let e = entries.last();
        let head = entries.drop_last();
        let record_pos = base + 8 * head.len();
        let text_pos = text_start + concat_map(head, footer_text_encoder()).len();
        lemma_footer_record_len(e, record_pos, text_pos);
    }
}

/// Reading the records at `c` gives `entries` and leaves the cursor at
/// `c2`.
#[verifier::opaque]
pub open spec fn reads_footers(c: Cursor, entries: Seq<FooterModel>, c2: Cursor) -> bool {
    parse_many(c, entries.len(), footer_parser()) == Ok::<(Seq<FooterModel>, Cursor), Fault>((entries, c2))
}

/// No record is read where none is asked for.
pub proof fn lemma_no_footers(c: Cursor)
    ensures
        reads_footers(c, Seq::<FooterModel>::empty(), c),
{
    reveal(reads_footers);
}

/// One more record behind a list that reads back makes a list that reads
/// back.
pub proof fn lemma_one_more_footer(c: Cursor, head: Seq<FooterModel>, last: FooterModel, c1: Cursor, c2: Cursor)
    requires
        reads_footers(c, head, c1),
        reads_footer(c1, last, c2),
    ensures
        reads_footers(c, head.push(last), c2),
{
    reveal(reads_footers);
    reveal(reads_footer);
    assert(head.push(last).len() - 1 == head.len());
}

/// A list of entries survives its records: where the records stand at a
/// little-endian cursor and the texts stand one behind the other from
/// `text_start` on, behind the records and below 4 GiB, reading as many
/// records as there are entries gives the entries.
pub proof fn footer_records_round_trip(c: Cursor, entries: Seq<FooterModel>, text_start: int)
    requires
        c.wf(),
        c.endian == EndianType::LITTLE,
        forall|i: int| 0 <= i < entries.len() ==> storable_footer(#[trigger] entries[i]),
        holds_at(c.data, c.pos, footer_records(entries, c.pos, text_start)),
        concat_map(entries, footer_text_encoder()).len() > 0 ==> holds_at(
            c.data,
            text_start,
            concat_map(entries, footer_text_encoder()),
        ),
        c.pos + 8 * entries.len() + 5 <= text_start,
        text_start + concat_map(entries, footer_text_encoder()).len() < 0x1_0000_0000,
    ensures
        reads_footers(c, entries, c.skip((8 * entries.len()) as int)),
    decreases entries.len(),
{
    if entries.len() == 0 {
        assert(entries =~= Seq::<FooterModel>::empty());
        assert(c.skip(0) == c);
        lemma_no_footers(c);
    } else {
        let head = entries.drop_last();
        let last = entries.last();
        let records_head = footer_records(head, c.pos, text_start);
        let texts_head = concat_map(head, footer_text_encoder());
        let text_pos = text_start + texts_head.len();
        let record_pos = c.pos + 8 * head.len();
        let record = footer_record(last, record_pos, text_pos);
        let stored = footer_text_bytes(last);
        lemma_footer_records_len(head, c.pos, text_start);
        lemma_holds_split(c.data, c.pos, records_head, record);
        if concat_map(entries, footer_text_encoder()).len() > 0 {
            lemma_holds_split(c.data, text_start, texts_head, stored);
        }
        assert forall|i: int| 0 <= i < head.len() implies storable_footer(#[trigger] head[i]) by {
            assert(head[i] == entries[i]);
        }
        footer_records_round_trip(c, head, text_start);
        let c1 = c.skip((8 * head.len()) as int);
        lemma_holds_bounds(c.data, record_pos, record);
        footer_record_round_trip(c1, last, text_pos);
        let c2 = c1.skip(8);
        lemma_one_more_footer(c, head, last, c1, c2);
        assert(c2 == c.skip((8 * entries.len()) as int));
        assert(head.push(last) =~= entries);
    }
}

/// Reading a four-byte magic at `c` gives `s` and leaves the cursor at
/// `c2`.
#[verifier::opaque]
pub open spec fn reads_magic(c: Cursor, s: Seq<char>, c2: Cursor) -> bool {
    c.r_str(4) == Ok::<(Seq<char>, Cursor), Fault>((s, c2))
}

/// Passing over four bytes at `c` leaves the cursor at `c2`.
#[verifier::opaque]
pub open spec fn passes_field(c: Cursor, c2: Cursor) -> bool {
    c.move_pos(4) == Ok::<Cursor, Fault>(c2)
}

/// Reading a header at `c` gives `h` and leaves the cursor at `c2`.
#[verifier::opaque]
pub open spec fn reads_header(c: Cursor, h: HeaderModel, c2: Cursor) -> bool {
    parse_header(c) == Ok::<(HeaderModel, Cursor), Fault>((h, c2))
}

/// Reading a table at `c` gives `m` and leaves the cursor at `c2`.
#[verifier::opaque]
pub open spec fn reads_table(c: Cursor, m: DctModel, c2: Cursor) -> bool {
    parse_dct(c) == Ok::<(DctModel, Cursor), Fault>((m, c2))
}

/// The number of footer records that are read: those that start before
/// `end` where the switch is on, none where it is off.
#[verifier::opaque]
pub open spec fn footer_slots(pos: int, end: int, on: bool) -> nat {
    if on {
        footer_count(pos, end)
    } else {
        0
    }
}

/// Where `n` footer records stand between the cursor and the end of the
/// footer region, `n` are read; with the switch off, none.
pub proof fn lemma_footer_slots(pos: int, n: nat, end: int)
    ensures
        n > 0 && end == pos + 8 * n ==> footer_slots(pos, end, true) == n,
        footer_slots(pos, end, false) == 0,
{
    reveal(footer_slots);
}

/// The field that holds the length of the records less one, where that
/// does not wrap.
pub proof fn lemma_end_field(records_len: int)
    requires
        1 <= records_len < 0x1_0000_0000,
    ensures
        ((records_len - 1) % 0x1_0000_0000) as nat == records_len - 1,
{
}

/// A magic of four bytes that stands at the cursor reads back.
pub proof fn lemma_read_magic(c: Cursor, s: Seq<char>)
    requires
        holds_at(c.data, c.pos, encode_utf8(s)),
        encode_utf8(s).len() == 4,
    ensures
        reads_magic(c, s, c.skip(4)),
{
    reveal(holds_at);
    reveal(reads_magic);
    encode_utf8_decode_utf8(s);
    encode_utf8_valid_utf8(s);
}

/// Four bytes that stand at the cursor can be passed over.
pub proof fn lemma_pass_field(c: Cursor, bytes: Seq<u8>)
    requires
        holds_at(c.data, c.pos, bytes),
        bytes.len() == 4,
    ensures
        passes_field(c, c.skip(4)),
{
    reveal(holds_at);
    reveal(passes_field);
}

/// The fields of a header, read one behind the other, make up the header.
pub proof fn lemma_fields_make_header(
    c: Cursor,
    h: HeaderModel,
    rel: nat,
    switch: nat,
    c1: Cursor,
    c2: Cursor,
    c3: Cursor,
    c4: Cursor,
    c5: Cursor,
    c6: Cursor,
    c7: Cursor,
    c8: Cursor,
)
    requires
        reads_magic(c, h.magic, c1),
        reads_number(c1, h.version1 as nat, c2),
        reads_number(c2, h.hash_seed as nat, c3),
        reads_number(c3, h.version2 as nat, c4),
        reads_number(c4, h.num_dialog, c5),
        passes_field(c5, c6),
        reads_number(c6, rel, c7),
        reads_number(c7, switch, c8),
        h.footer_end == c6.pos + rel + 9,
        h.has_footer == (switch == 1),
    ensures
        reads_header(c, h, c8),
{
    reveal(reads_magic);
    reveal(reads_number);
    reveal(passes_field);
    reveal(reads_header);
}

/// The header and the two lists of entries, read one behind the other,
/// make up the table.
pub proof fn lemma_parts_make_table(c: Cursor, m: DctModel, h: HeaderModel, c1: Cursor, c2: Cursor, c3: Cursor)
    requires
        reads_header(c, h, c1),
        h.magic == m.magic,
        h.version1 == m.version1,
        h.hash_seed == m.hash_seed,
        h.version2 == m.version2,
        h.num_dialog == m.dialog_entries.len(),
        reads_dialogs(c1, m.dialog_entries, c2),
        footer_slots(c2.pos, h.footer_end, h.has_footer) == m.footer_entries.len(),
        reads_footers(c2, m.footer_entries, c3),
    ensures
        reads_table(c, m, c3),
{
    reveal(reads_header);
    reveal(reads_dialogs);
    reveal(reads_footers);
    reveal(footer_slots);
    reveal(reads_table);
}

/// A table that its bytes can carry: the magic takes four bytes, the bytes
/// stay below 4 GiB, and every entry can be carried by its record.
pub open spec fn storable_table(m: DctModel) -> bool {
    &&& encode_utf8(m.magic).len() == 4
    &&& dct_bytes(m).len() + 17 < 0x1_0000_0000
    &&& forall|i: int| 0 <= i < m.dialog_entries.len() ==> storable_dialog(#[trigger] m.dialog_entries[i])
    &&& forall|i: int| 0 <= i < m.footer_entries.len() ==> storable_footer(#[trigger] m.footer_entries[i])
}

/// The header of a table whose magic takes four bytes takes 32 bytes.
pub proof fn lemma_header_len(m: DctModel)
    requires
        encode_utf8(m.magic).len() == 4,
    ensures
        dct_header(m).len() == 32,
{
    let nd = m.dialog_entries.len() as int;
    let nf = m.footer_entries.len() as int;
    lemma_uint_bytes_len(EndianType::LITTLE, m.version1 as nat, 4);
    lemma_uint_bytes_len(EndianType::LITTLE, m.hash_seed as nat, 4);
    lemma_uint_bytes_len(EndianType::LITTLE, m.version2 as nat, 4);
    lemma_uint_bytes_len(EndianType::LITTLE, count32(nd as nat), 4);
    lemma_uint_bytes_len(EndianType::LITTLE, 1, 4);
    lemma_uint_bytes_len(EndianType::LITTLE, ((12 * nd + 8 * nf - 1) % 0x1_0000_0000) as nat, 4);
    lemma_uint_bytes_len(EndianType::LITTLE, if nf > 0 { 1 } else { 0 }, 4);
}

/// The sixteen bytes that close the footer records are sixteen.
pub proof fn lemma_terminator_len()
    ensures
        terminator().len() == 16,
{
    lemma_uint_bytes_len(EndianType::LITTLE, 11, 4);
    lemma_uint_bytes_len(EndianType::LITTLE, 12, 4);
    lemma_uint_bytes_len(EndianType::LITTLE, 0, 4);
}

/// The header of a storable table reads back from the start of the
/// table's bytes, and the cursor comes to stand behind it.
pub proof fn lemma_read_header(data: Seq<u8>, m: DctModel) -> (h: HeaderModel)
    requires
        encode_utf8(m.magic).len() == 4,
        holds_at(data, 0, dct_header(m)),
        12 * m.dialog_entries.len() + 8 * m.footer_entries.len() < 0x1_0000_0000,
    ensures
        reads_header(start_of(data, EndianType::LITTLE), h, start_of(data, EndianType::LITTLE).skip(32)),
        h.magic == m.magic,
        h.version1 == m.version1,
        h.hash_seed == m.hash_seed,
        h.version2 == m.version2,
        h.num_dialog == m.dialog_entries.len(),
        h.has_footer == (m.footer_entries.len() > 0),
        m.footer_entries.len() > 0 ==> h.footer_end == 32 + 12 * m.dialog_entries.len() + 8
            * m.footer_entries.len(),
{
    let c = start_of(data, EndianType::LITTLE);
    let nd = m.dialog_entries.len() as int;
    let nf = m.footer_entries.len() as int;
    let rel = ((12 * nd + 8 * nf - 1) % 0x1_0000_0000) as nat;
    let switch: nat = if nf > 0 { 1 } else { 0 };
    let f0 = encode_utf8(m.magic);
    let f1 = le4(m.version1 as nat);
    let f2 = le4(m.hash_seed as nat);
    let f3 = le4(m.version2 as nat);
    let f4 = le4(count32(nd as nat));
    let f5 = le4(1);
    let f6 = le4(rel);
    let f7 = le4(switch);
    lemma_count32_small(nd as nat);
    if nf > 0 {
        lemma_end_field(12 * nd + 8 * nf);
    }
    lemma_uint_bytes_len(EndianType::LITTLE, m.version1 as nat, 4);
    lemma_uint_bytes_len(EndianType::LITTLE, m.hash_seed as nat, 4);
    lemma_uint_bytes_len(EndianType::LITTLE, m.version2 as nat, 4);
    lemma_uint_bytes_len(EndianType::LITTLE, count32(nd as nat), 4);
    lemma_uint_bytes_len(EndianType::LITTLE, 1, 4);
    lemma_uint_bytes_len(EndianType::LITTLE, rel, 4);
    lemma_uint_bytes_len(EndianType::LITTLE, switch, 4);
    assert(dct_header(m) == f0 + f1 + f2 + f3 + f4 + f5 + f6 + f7);
    lemma_holds_split(data, 0, f0 + f1 + f2 + f3 + f4 + f5 + f6, f7);
    lemma_holds_split(data, 0, f0 + f1 + f2 + f3 + f4 + f5, f6);
    lemma_holds_split(data, 0, f0 + f1 + f2 + f3 + f4, f5);
    lemma_holds_split(data, 0, f0 + f1 + f2 + f3, f4);
    lemma_holds_split(data, 0, f0 + f1 + f2, f3);
    lemma_holds_split(data, 0, f0 + f1, f2);
    lemma_holds_split(data, 0, f0, f1);
    lemma_read_magic(c, m.magic);
    let c1 = c.skip(4);
    lemma_read_number(c1, m.version1 as nat);
    let c2 = c1.skip(4);
    lemma_read_number(c2, m.hash_seed as nat);
    let c3 = c2.skip(4);
    lemma_read_number(c3, m.version2 as nat);
    let c4 = c3.skip(4);
    lemma_read_number(c4, nd as nat);
    let c5 = c4.skip(4);
    lemma_pass_field(c5, f5);
    let c6 = c5.skip(4);
    lemma_read_number(c6, rel);
    let c7 = c6.skip(4);
    lemma_read_number(c7, switch);
    let c8 = c7.skip(4);
    let h = HeaderModel {
        magic: m.magic,
        version1: m.version1,
        hash_seed: m.hash_seed,
        version2: m.version2,
        num_dialog: nd as nat,
        footer_end: c6.pos + rel + 9,
        has_footer: switch == 1,
    };
    lemma_fields_make_header(c, h, rel, switch, c1, c2, c3, c4, c5, c6, c7, c8);
    assert(c8 == c.skip(32));
    h
}

/// The bytes of a storable table read back as the table; the cursor comes
/// to stand behind the records.
pub proof fn lemma_read_table(m: DctModel)
    requires
        storable_table(m),
    ensures
        reads_table(
            start_of(dct_bytes(m), EndianType::LITTLE),
            m,
            start_of(dct_bytes(m), EndianType::LITTLE).skip(
                (32 + 12 * m.dialog_entries.len() + 8 * m.footer_entries.len()) as int,
            ),
        ),
{
    let data = dct_bytes(m);
    let c = start_of(data, EndianType::LITTLE);
    let nd = m.dialog_entries.len() as int;
    let nf = m.footer_entries.len() as int;
    let records_len = 12 * nd + 8 * nf;
    let text_start = records_len + 49;
    let head = dct_header(m);
    let t1 = concat_map(m.dialog_entries, dialog_text_encoder());
    let t2 = concat_map(m.footer_entries, footer_text_encoder());
    let texts = t1 + t2;
    let r1 = dialog_records(m.dialog_entries, 32, text_start);
    let r2 = footer_records(m.footer_entries, 32 + 12 * nd, text_start + t1.len());
    let tail: Seq<u8> = if nf > 0 {
        terminator() + zeros(1) + texts
    } else if texts.len() > 0 {
        zeros(17) + texts
    } else {
        Seq::<u8>::empty()
    };
    lemma_header_len(m);
    lemma_terminator_len();
    lemma_dialog_records_len(m.dialog_entries, 32, text_start);
    lemma_footer_records_len(m.footer_entries, 32 + 12 * nd, text_start + t1.len());
    assert(data == head + (r1 + r2) + tail);
    assert(holds_at(data, 0, head + (r1 + r2) + tail)) by {
        reveal(holds_at);
        assert(data.subrange(0, data.len() as int) =~= data);
    }
    lemma_holds_split(data, 0, head + (r1 + r2), tail);
    lemma_holds_split(data, 0, head, r1 + r2);
    lemma_holds_split(data, 32, r1, r2);
    if nf > 0 {
        lemma_holds_split(data, 32 + records_len, terminator() + zeros(1), texts);
        lemma_holds_split(data, text_start, t1, t2);
    } else if texts.len() > 0 {
        lemma_holds_split(data, 32 + records_len, zeros(17), texts);
        lemma_holds_split(data, text_start, t1, t2);
    }
    let h = lemma_read_header(data, m);
    let c1 = c.skip(32);
    dialog_records_round_trip(c1, m.dialog_entries, text_start);
    let c2 = c1.skip(12 * nd);
    footer_records_round_trip(c2, m.footer_entries, text_start + t1.len());
    let c3 = c2.skip(8 * nf);
    lemma_footer_slots(c2.pos, nf as nat, h.footer_end);
    lemma_parts_make_table(c, m, h, c1, c2, c3);
    assert(c3 == c.skip(32 + 12 * nd + 8 * nf));
}

/// A dialog table survives its bytes: reading the bytes of a storable
/// table gives the table back, every placeholder in its place.
pub proof fn table_round_trip(m: DctModel)
    requires
        storable_table(m),
    ensures
        parse_dct(start_of(dct_bytes(m), EndianType::LITTLE)) matches Ok((back, _)) && back == m,
{
    lemma_read_table(m);
    reveal(reads_table);
}

/// Writing a table that was read and reading it again gives the same
/// table: where bytes read as a storable table, the bytes of that table
/// read as the same table.
pub proof fn table_rewrite_round_trip(bytes: Seq<u8>)
    requires
        parse_dct(start_of(bytes, EndianType::LITTLE)) matches Ok((m, _)) && storable_table(m),
    ensures
        parse_dct(start_of(bytes, EndianType::LITTLE)) matches Ok((m, _)) && (parse_dct(
            start_of(dct_bytes(m), EndianType::LITTLE),
        ) matches Ok((back, _)) && back == m),
{
    let m = parse_dct(start_of(bytes, EndianType::LITTLE))->Ok_0.0;
    table_round_trip(m);
}

} // verus!
