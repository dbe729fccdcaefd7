use vstd::prelude::*;
use vstd::utf8::*;
use vstd::string::*;
use crate::byte_order::{encode_uint, uint_bytes};
use crate::text::append_bytes;
use crate::collectible_database::{count32, len32};
use crate::error::{Error, Fault};
use crate::file_manipulator::{start_of, zeros, Cursor, EndianType, FileManipulator, WriteMode};
use crate::framing::{concat_map, lemma_concat_map_push, lemma_parse_many_fails, lemma_write_at_end, parse_many};

verus! {

broadcast use {lemma_write_at_end, decode_utf8_encode_utf8};

/// One line of dialog under its hashed key. Key 0 marks a placeholder,
/// which has no text.
#[derive(Debug, Clone, PartialEq, Eq)]
pub struct DialogEntry {
    pub hashed_key: u32,
    pub text: String,
}

/// One footer line under its number.
#[derive(Debug, Clone, PartialEq, Eq)]
pub struct FooterEntry {
    pub number: u32,
    pub text: String,
}

/// A dialog table.
#[derive(Debug, Clone, PartialEq, Eq)]
pub struct DCT {
    pub magic: String,
    pub version1: u32,
    pub hash_seed: u32,
    pub version2: u32,
    pub dialog_entries: Vec<DialogEntry>,
    pub footer_entries: Vec<FooterEntry>,
}

/// What is merged onto a dialog table: header fields to take over where
/// they are given, dialog lines to set and footer lines to add.
#[derive(Debug, Clone, PartialEq, Eq)]
pub struct DCTPatch {
    pub magic: Option<String>,
    pub version1: Option<u32>,
    pub hash_seed: Option<u32>,
    pub version2: Option<u32>,
    pub dialog_entries: Vec<DialogEntry>,
    pub footer_entries: Vec<FooterEntry>,
}

/// The mathematical value of a [`DialogEntry`].
pub struct DialogModel {
    pub hashed_key: u32,
    pub text: Seq<char>,
}

/// The mathematical value of a [`FooterEntry`].
pub struct FooterModel {
    pub number: u32,
    pub text: Seq<char>,
}

/// The mathematical value of a [`DCT`].
pub struct DctModel {
    pub magic: Seq<char>,
    pub version1: u32,
    pub hash_seed: u32,
    pub version2: u32,
    pub dialog_entries: Seq<DialogModel>,
    pub footer_entries: Seq<FooterModel>,
}

impl DeepView for DialogEntry {
    type V = DialogModel;

    open spec fn deep_view(&self) -> DialogModel {
        DialogModel { hashed_key: self.hashed_key, text: self.text@ }
    }
}

impl DeepView for FooterEntry {
    type V = FooterModel;

    open spec fn deep_view(&self) -> FooterModel {
        FooterModel { number: self.number, text: self.text@ }
    }
}

impl DeepView for DCT {
    type V = DctModel;

    open spec fn deep_view(&self) -> DctModel {
        DctModel {
            magic: self.magic@,
            version1: self.version1,
            hash_seed: self.hash_seed,
            version2: self.version2,
            dialog_entries: self.dialog_entries.deep_view(),
            footer_entries: self.footer_entries.deep_view(),
        }
    }
}

/// The length of the fixed header: the magic and seven 32-bit fields.
pub open spec fn header_len() -> int {
    32
}

/// The distance from the end of the header to the first text, less the
/// length of the records: the text region starts this far behind them,
/// counted from the start of the buffer.
pub open spec fn text_gap() -> int {
    49
}

/// What is added to a footer end field and the offset of that field to
/// reach the end of the footer records.
pub open spec fn footer_end_bias() -> int {
    9
}

/// Four bytes, least significant first.
pub open spec fn le4(v: nat) -> Seq<u8> {
    uint_bytes(EndianType::LITTLE, v, 4)
}

/// The value of an offset field at `field_pos` that points at `target`:
/// the distance less one, on 32 bits.
pub open spec fn offset_field(target: int, field_pos: int) -> nat {
    ((target - field_pos - 1) % 0x1_0000_0000) as nat
}

/// The bytes that a dialog entry adds to the text region: its text and a
/// zero byte, or nothing for a placeholder.
pub open spec fn dialog_text_bytes(e: DialogModel) -> Seq<u8> {
    if e.hashed_key == 0 {
        Seq::<u8>::empty()
    } else {
        encode_utf8(e.text) + seq![0u8]
    }
}

/// The bytes that a footer entry adds to the text region.
pub open spec fn footer_text_bytes(e: FooterModel) -> Seq<u8> {
    encode_utf8(e.text) + seq![0u8]
}

/// [`dialog_text_bytes`] as a function value.
pub open spec fn dialog_text_encoder() -> spec_fn(DialogModel) -> Seq<u8> {
    |e: DialogModel| dialog_text_bytes(e)
}

/// [`footer_text_bytes`] as a function value.
pub open spec fn footer_text_encoder() -> spec_fn(FooterModel) -> Seq<u8> {
    |e: FooterModel| footer_text_bytes(e)
}

/// The 12-byte record of a dialog entry that stands at `record_pos` and
/// whose text stands at `text_pos`. A placeholder is three zero fields.
pub open spec fn dialog_record(e: DialogModel, record_pos: int, text_pos: int) -> Seq<u8> {
    if e.hashed_key == 0 {
        le4(0) + le4(0) + le4(0)
    } else {
        le4(e.hashed_key as nat) + le4(offset_field(text_pos, record_pos + 4)) + le4(0)
    }
}

/// The 8-byte record of a footer entry that stands at `record_pos` and
/// whose text stands at `text_pos`.
pub open spec fn footer_record(e: FooterModel, record_pos: int, text_pos: int) -> Seq<u8> {
    le4(offset_field(text_pos, record_pos)) + le4(e.number as nat)
}

/// The records of the dialog entries, the first at `base`, their texts one
/// behind the other from `text_start` on.
pub open spec fn dialog_records(entries: Seq<DialogModel>, base: int, text_start: int) -> Seq<u8>
    decreases entries.len(),
{
    if entries.len() == 0 {
        Seq::<u8>::empty()
    } else {
        let head = entries.drop_last();
        dialog_records(head, base, text_start) + dialog_record(
            entries.last(),
            base + 12 * head.len(),
            text_start + concat_map(head, dialog_text_encoder()).len(),
        )
    }
}

/// The records of the footer entries, the first at `base`, their texts one
/// behind the other from `text_start` on.
pub open spec fn footer_records(entries: Seq<FooterModel>, base: int, text_start: int) -> Seq<u8>
    decreases entries.len(),
{
    if entries.len() == 0 {
        Seq::<u8>::empty()
    } else {
        let head = entries.drop_last();
        footer_records(head, base, text_start) + footer_record(
            entries.last(),
            base + 8 * head.len(),
            text_start + concat_map(head, footer_text_encoder()).len(),
        )
    }
}

/// The sixteen bytes that close the footer records.
pub open spec fn terminator() -> Seq<u8> {
    seq![0xDFu8, 0xFFu8, 0xFFu8, 0xFFu8] + le4(11) + le4(12) + le4(0)
}

/// The 32 bytes of the header: the magic, the two versions round the seed,
/// the count of dialog entries, a one, the length of the records less one,
/// and the footer switch.
pub open spec fn dct_header(m: DctModel) -> Seq<u8> {
    let nd = m.dialog_entries.len() as int;
    let nf = m.footer_entries.len() as int;
    encode_utf8(m.magic) + le4(m.version1 as nat) + le4(m.hash_seed as nat) + le4(m.version2 as nat) + le4(
        count32(nd as nat),
    ) + le4(1) + le4(((12 * nd + 8 * nf - 1) % 0x1_0000_0000) as nat) + le4(if nf > 0 { 1 } else { 0 })
}

/// The bytes of a dialog table: the header, the dialog records and the
/// footer records, then the texts, which start 49 bytes behind the length
/// of the records. With footers the terminator stands behind the records.
pub open spec fn dct_bytes(m: DctModel) -> Seq<u8> {
    let nd = m.dialog_entries.len() as int;
    let nf = m.footer_entries.len() as int;
    let records_len = 12 * nd + 8 * nf;
    let text_start = records_len + text_gap();
    let dialog_texts = concat_map(m.dialog_entries, dialog_text_encoder());
    let texts = dialog_texts + concat_map(m.footer_entries, footer_text_encoder());
    let records = dialog_records(m.dialog_entries, header_len(), text_start) + footer_records(
        m.footer_entries,
        header_len() + 12 * nd,
        text_start + dialog_texts.len(),
    );
    let gap = text_start - header_len() - records_len;
    let tail = if nf > 0 {
        terminator() + zeros(gap - 16) + texts
    } else if texts.len() > 0 {
        zeros(gap) + texts
    } else {
        Seq::<u8>::empty()
    };
    dct_header(m) + records + tail
}

/// Appends the four bytes of `x`, least significant first.
pub fn push_le4(v: &mut Vec<u8>, x: u32)
    ensures
        final(v)@ == old(v)@ + le4(x as nat),
        final(v)@.len() == old(v)@.len() + 4,
{
    let bytes = encode_uint(x as u128, 4, EndianType::LITTLE);
    append_bytes(v, bytes.as_slice());
}

/// A dialog record read at the cursor, with its text. A record whose key
/// is 0 is a placeholder: its two other fields are passed over unread.
pub open spec fn parse_dialog(c: Cursor) -> Result<(DialogModel, Cursor), Fault> {
    match c.r_uint(4) {
        Err(e) => Err(e),
        Ok((key, c1)) => if key == 0 {
            match c1.move_pos(8) {
                Err(e) => Err(e),
                Ok(c2) => Ok((DialogModel { hashed_key: 0, text: Seq::<char>::empty() }, c2)),
            }
        } else {
            match c1.r_uint(4) {
                Err(e) => Err(e),
                Ok((rel, c2)) => match c2.r_uint(4) {
                    Err(e) => Err(e),
                    Ok((_, c3)) => match c3.str_null_at(c1.pos + rel + 1) {
                        Err(e) => Err(e),
                        Ok(text) => Ok((DialogModel { hashed_key: key as u32, text }, c3)),
                    },
                },
            }
        },
    }
}

/// A footer record read at the cursor, with its text.
pub open spec fn parse_footer(c: Cursor) -> Result<(FooterModel, Cursor), Fault> {
    match c.r_uint(4) {
        Err(e) => Err(e),
        Ok((rel, c1)) => match c1.r_uint(4) {
            Err(e) => Err(e),
            Ok((number, c2)) => match c2.str_null_at(c.pos + rel + 1) {
                Err(e) => Err(e),
                Ok(text) => Ok((FooterModel { number: number as u32, text }, c2)),
            },
        },
    }
}

/// [`parse_dialog`] as a function value.
pub open spec fn dialog_parser() -> spec_fn(Cursor) -> Result<(DialogModel, Cursor), Fault> {
    |c: Cursor| parse_dialog(c)
}

/// [`parse_footer`] as a function value.
pub open spec fn footer_parser() -> spec_fn(Cursor) -> Result<(FooterModel, Cursor), Fault> {
    |c: Cursor| parse_footer(c)
}

/// The number of 8-byte footer records that start before `end`, counted
/// from `pos`.
pub open spec fn footer_count(pos: int, end: int) -> nat {
    if end > pos {
        ((end - pos + 7) / 8) as nat
    } else {
        0
    }
}

/// The fixed fields of a dialog table.
pub struct HeaderModel {
    pub magic: Seq<char>,
    pub version1: u32,
    pub hash_seed: u32,
    pub version2: u32,
    pub num_dialog: nat,
    pub footer_end: int,
    pub has_footer: bool,
}

/// The header read at the cursor: the magic, three numbers, the count of
/// dialog records, a field that is passed over, the end of the footer
/// records (its field's own offset, its value and 9) and the footer switch.
pub open spec fn parse_header(c: Cursor) -> Result<(HeaderModel, Cursor), Fault> {
    match c.r_str(4) {
        Err(e) => Err(e),
        Ok((magic, c1)) => match c1.r_uint(4) {
            Err(e) => Err(e),
            Ok((v1, c2)) => match c2.r_uint(4) {
                Err(e) => Err(e),
                Ok((seed, c3)) => match c3.r_uint(4) {
                    Err(e) => Err(e),
                    Ok((v2, c4)) => match c4.r_uint(4) {
                        Err(e) => Err(e),
                        Ok((n, c5)) => match c5.move_pos(4) {
                            Err(e) => Err(e),
                            Ok(c6) => match c6.r_uint(4) {
                                Err(e) => Err(e),
                                Ok((rel, c7)) => match c7.r_uint(4) {
                                    Err(e) => Err(e),
                                    Ok((switch, c8)) => Ok(
                                        (
                                            HeaderModel {
                                                magic,
                                                version1: v1 as u32,
                                                hash_seed: seed as u32,
                                                version2: v2 as u32,
                                                num_dialog: n,
                                                footer_end: c6.pos + rel + footer_end_bias(),
                                                has_footer: switch == 1,
                                            },
                                            c8,
                                        ),
                                    ),
                                },
                            },
                        },
                    },
                },
            },
        },
    }
}

/// A dialog table read at the cursor: the header, the dialog records and,
/// where the switch is on, the footer records up to their end.
pub open spec fn parse_dct(c: Cursor) -> Result<(DctModel, Cursor), Fault> {
    match parse_header(c) {
        Err(e) => Err(e),
        Ok((h, c1)) => match parse_many(c1, h.num_dialog, dialog_parser()) {
            Err(e) => Err(e),
            Ok((dialog_entries, c2)) => match parse_many(
                c2,
                if h.has_footer { footer_count(c2.pos, h.footer_end) } else { 0 },
                footer_parser(),
            ) {
                Err(e) => Err(e),
                Ok((footer_entries, c3)) => Ok(
                    (
                        DctModel {
                            magic: h.magic,
                            version1: h.version1,
                            hash_seed: h.hash_seed,
                            version2: h.version2,
                            dialog_entries,
                            footer_entries,
                        },
                        c3,
                    ),
                ),
            },
        },
    }
}

/// The entries after the line under `key` was set to `text`: the first
/// entry with the key gets the text; without one, a new entry comes last.
/// Key 0 changes nothing.
pub open spec fn with_line(entries: Seq<DialogModel>, key: u32, text: Seq<char>) -> Seq<DialogModel>
    decreases entries.len(),
{
    if key == 0 {
        entries
    } else if entries.len() == 0 {
        seq![DialogModel { hashed_key: key, text }]
    } else if entries[0].hashed_key == key {
        entries.update(0, DialogModel { hashed_key: key, text })
    } else {
        seq![entries[0]] + with_line(entries.drop_first(), key, text)
    }
}

/// The entries after each line of the patch was set, one after the other.
pub open spec fn with_lines(entries: Seq<DialogModel>, patch: Seq<DialogModel>) -> Seq<DialogModel>
    decreases patch.len(),
{
    if patch.len() == 0 {
        entries
    } else {
        with_line(with_lines(entries, patch.drop_last()), patch.last().hashed_key, patch.last().text)
    }
}

impl DialogEntry {
    pub fn new(hashed_key: u32, text: String) -> (e: DialogEntry)
        ensures
            e.hashed_key == hashed_key,
            e.text == text,
    {
        DialogEntry { hashed_key, text }
    }
}

impl FooterEntry {
    pub fn new(number: u32, text: String) -> (e: FooterEntry)
        ensures
            e.number == number,
            e.text == text,
    {
        FooterEntry { number, text }
    }
}

/// Where the first entry with the key stands at `i`, setting the line
/// replaces that entry.
pub proof fn lemma_with_line_found(entries: Seq<DialogModel>, key: u32, text: Seq<char>, i: int)
    requires
        key != 0,
        0 <= i < entries.len(),
        entries[i].hashed_key == key,
        forall|j: int| 0 <= j < i ==> entries[j].hashed_key != key,
    ensures
        with_line(entries, key, text) == entries.update(i, DialogModel { hashed_key: key, text }),
    decreases i,
{
    if i > 0 {
        let rest = entries.drop_first();
        assert forall|j: int| 0 <= j < i - 1 implies rest[j].hashed_key != key by {
            assert(rest[j] == entries[j + 1]);
        }
        lemma_with_line_found(rest, key, text, i - 1);
        assert(seq![entries[0]] + rest.update(i - 1, DialogModel { hashed_key: key, text })
            =~= entries.update(i, DialogModel { hashed_key: key, text }));
    }
}

/// Where no entry has the key, setting the line adds an entry behind the
/// others.
pub proof fn lemma_with_line_missing(entries: Seq<DialogModel>, key: u32, text: Seq<char>)
    requires
        key != 0,
        forall|j: int| 0 <= j < entries.len() ==> entries[j].hashed_key != key,
    ensures
        with_line(entries, key, text) == entries.push(DialogModel { hashed_key: key, text }),
    decreases entries.len(),
{
    if entries.len() > 0 {
        let rest = entries.drop_first();
        assert forall|j: int| 0 <= j < rest.len() implies rest[j].hashed_key != key by {
            assert(rest[j] == entries[j + 1]);
        }
        lemma_with_line_missing(rest, key, text);
        assert(seq![entries[0]] + rest.push(DialogModel { hashed_key: key, text }) =~= entries.push(
            DialogModel { hashed_key: key, text },
        ));
    } else {
        assert(seq![DialogModel { hashed_key: key, text }] =~= entries.push(
            DialogModel { hashed_key: key, text },
        ));
    }
}

/// The records of a list with one more entry are the records of the list
/// and the record of the entry behind them.
pub proof fn lemma_dialog_records_push(entries: Seq<DialogModel>, e: DialogModel, base: int, text_start: int)
    ensures
        dialog_records(entries.push(e), base, text_start) == dialog_records(entries, base, text_start)
            + dialog_record(
            e,
            base + 12 * entries.len(),
            text_start + concat_map(entries, dialog_text_encoder()).len(),
        ),
{
    assert(entries.push(e).drop_last() =~= entries);
}

/// The records of a list with one more entry are the records of the list
/// and the record of the entry behind them.
pub proof fn lemma_footer_records_push(entries: Seq<FooterModel>, e: FooterModel, base: int, text_start: int)
    ensures
        footer_records(entries.push(e), base, text_start) == footer_records(entries, base, text_start)
            + footer_record(
            e,
            base + 8 * entries.len(),
            text_start + concat_map(entries, footer_text_encoder()).len(),
        ),
{
    assert(entries.push(e).drop_last() =~= entries);
}

/// The fixed fields of a dialog table, as they were read.
struct Header {
    magic: String,
    version1: u32,
    hash_seed: u32,
    version2: u32,
    num_dialog: u32,
    footer_end: u128,
    has_footer: bool,
}

impl Header {
    spec fn model(&self) -> HeaderModel {
        HeaderModel {
            magic: self.magic@,
            version1: self.version1,
            hash_seed: self.hash_seed,
            version2: self.version2,
            num_dialog: self.num_dialog as nat,
            footer_end: self.footer_end as int,
            has_footer: self.has_footer,
        }
    }
}

impl DCT {
    /// The magic takes four bytes.
    pub open spec fn wf(&self) -> bool {
        encode_utf8(self.magic@).len() == 4
    }

    pub fn new(
        magic: String,
        version1: u32,
        hash_seed: u32,
        version2: u32,
        dialog_entries: Vec<DialogEntry>,
        footer_entries: Vec<FooterEntry>,
    ) -> (dct: DCT)
        ensures
            dct.magic == magic,
            dct.version1 == version1,
            dct.hash_seed == hash_seed,
            dct.version2 == version2,
            dct.dialog_entries == dialog_entries,
            dct.footer_entries == footer_entries,
    {
        DCT { magic, version1, hash_seed, version2, dialog_entries, footer_entries }
    }

    /// Reads the header at the cursor.
    fn read_header(fm: &mut FileManipulator) -> (res: Result<Header, Error>)
        requires
            old(fm).wf(),
        ensures
            final(fm).wf(),
            final(fm)@.same_buffer(old(fm)@),
            match res {
                Ok(h) => parse_header(old(fm)@) == Ok::<(HeaderModel, Cursor), Fault>((h.model(), final(fm)@))
                    && h.footer_end <= usize::MAX + 0x1_0000_0008,
                Err(e) => parse_header(old(fm)@) == Err::<(HeaderModel, Cursor), Fault>(e@),
            },
    {
        let magic = fm.r_str(4)?;
        let version1 = fm.r_u32()?;
        let hash_seed = fm.r_u32()?;
        let version2 = fm.r_u32()?;
        let num_dialog = fm.r_u32()?;
        fm.move_pos(4)?;
        let field_pos: usize = fm.tell();
        let rel = fm.r_u32()?;
        let footer_end: u128 = field_pos as u128 + rel as u128 + 9;
        let switch = fm.r_u32()?;
        Ok(Header { magic, version1, hash_seed, version2, num_dialog, footer_end, has_footer: switch == 1 })
    }

    /// Reads one dialog record at the cursor, with its text.
    fn read_dialog(fm: &mut FileManipulator) -> (res: Result<DialogEntry, Error>)
        requires
            old(fm).wf(),
        ensures
            final(fm).wf(),
            final(fm)@.same_buffer(old(fm)@),
            match res {
                Ok(d) => parse_dialog(old(fm)@) == Ok::<(DialogModel, Cursor), Fault>(
                    (d.deep_view(), final(fm)@),
                ),
                Err(e) => parse_dialog(old(fm)@) == Err::<(DialogModel, Cursor), Fault>(e@),
            },
    {
        let hashed_key = fm.r_u32()?;
        if hashed_key == 0 {
            fm.move_pos(8)?;
            return Ok(DialogEntry::new(0, String::new()));
        }
        let field_pos: usize = fm.tell();
        let rel = fm.r_u32()?;
        let _zero = fm.r_u32()?;
        let text = fm.str_null_at(field_pos as u128 + rel as u128 + 1)?;
        Ok(DialogEntry::new(hashed_key, text))
    }

    /// Reads one footer record at the cursor, with its text.
    fn read_footer(fm: &mut FileManipulator) -> (res: Result<FooterEntry, Error>)
        requires
            old(fm).wf(),
        ensures
            final(fm).wf(),
            final(fm)@.same_buffer(old(fm)@),
            match res {
                Ok(d) => parse_footer(old(fm)@) == Ok::<(FooterModel, Cursor), Fault>(
                    (d.deep_view(), final(fm)@),
                ),
                Err(e) => parse_footer(old(fm)@) == Err::<(FooterModel, Cursor), Fault>(e@),
            },
    {
        let field_pos: usize = fm.tell();
        let rel = fm.r_u32()?;
        let number = fm.r_u32()?;
        let text = fm.str_null_at(field_pos as u128 + rel as u128 + 1)?;
        Ok(FooterEntry::new(number, text))
    }

    /// Reads `n` dialog records one behind the other.
    fn read_dialogs(fm: &mut FileManipulator, n: u32) -> (res: Result<Vec<DialogEntry>, Error>)
        requires
            old(fm).wf(),
        ensures
            final(fm).wf(),
            final(fm)@.same_buffer(old(fm)@),
            match res {
                Ok(v) => parse_many(old(fm)@, n as nat, dialog_parser()) == Ok::<
                    (Seq<DialogModel>, Cursor),
                    Fault,
                >((v.deep_view(), final(fm)@)),
                Err(e) => parse_many(old(fm)@, n as nat, dialog_parser()) == Err::<
                    (Seq<DialogModel>, Cursor),
                    Fault,
                >(e@),
            },
    {
        let mut items: Vec<DialogEntry> = Vec::new();
        assert(items.deep_view() =~= Seq::<DialogModel>::empty());
        let mut i: u32 = 0;
        while i < n
            invariant
                i <= n,
                fm.wf(),
                fm@.same_buffer(old(fm)@),
                parse_many(old(fm)@, i as nat, dialog_parser()) == Ok::<(Seq<DialogModel>, Cursor), Fault>(
                    (items.deep_view(), fm@),
                ),
            decreases n - i,
        {
            let item = match DCT::read_dialog(fm) {
                Ok(item) => item,
                Err(e) => {
                    proof {
                        lemma_parse_many_fails(old(fm)@, (i + 1) as nat, n as nat, dialog_parser());
                    }
                    return Err(e);
                },
            };
            let ghost before = items.deep_view();
            items.push(item);
            assert(items.deep_view() =~= before.push(item.deep_view()));
            i += 1;
        }
        Ok(items)
    }

    /// Reads `n` footer records one behind the other.
    fn read_footers(fm: &mut FileManipulator, n: u128) -> (res: Result<Vec<FooterEntry>, Error>)
        requires
            old(fm).wf(),
        ensures
            final(fm).wf(),
            final(fm)@.same_buffer(old(fm)@),
            match res {
                Ok(v) => parse_many(old(fm)@, n as nat, footer_parser()) == Ok::<
                    (Seq<FooterModel>, Cursor),
                    Fault,
                >((v.deep_view(), final(fm)@)),
                Err(e) => parse_many(old(fm)@, n as nat, footer_parser()) == Err::<
                    (Seq<FooterModel>, Cursor),
                    Fault,
                >(e@),
            },
    {
        let mut items: Vec<FooterEntry> = Vec::new();
        assert(items.deep_view() =~= Seq::<FooterModel>::empty());
        let mut i: u128 = 0;
        while i < n
            invariant
                i <= n,
                fm.wf(),
                fm@.same_buffer(old(fm)@),
                parse_many(old(fm)@, i as nat, footer_parser()) == Ok::<(Seq<FooterModel>, Cursor), Fault>(
                    (items.deep_view(), fm@),
                ),
            decreases n - i,
        {
            let item = match DCT::read_footer(fm) {
                Ok(item) => item,
                Err(e) => {
                    proof {
                        lemma_parse_many_fails(old(fm)@, (i + 1) as nat, n as nat, footer_parser());
                    }
                    return Err(e);
                },
            };
            let ghost before = items.deep_view();
            items.push(item);
            assert(items.deep_view() =~= before.push(item.deep_view()));
            i += 1;
        }
        Ok(items)
    }

    /// Reads a whole table at the cursor.
    fn read_table(fm: &mut FileManipulator) -> (res: Result<DCT, Error>)
        requires
            old(fm).wf(),
        ensures
            final(fm).wf(),
            final(fm)@.same_buffer(old(fm)@),
            match res {
                Ok(d) => parse_dct(old(fm)@) == Ok::<(DctModel, Cursor), Fault>((d.deep_view(), final(fm)@))
                    && d.wf(),
                Err(e) => parse_dct(old(fm)@) == Err::<(DctModel, Cursor), Fault>(e@),
            },
    {
        let h = DCT::read_header(fm)?;
        let dialog_entries = DCT::read_dialogs(fm, h.num_dialog)?;
        let pos: u128 = fm.tell() as u128;
        let count: u128 = if h.has_footer && h.footer_end > pos {
            (h.footer_end - pos + 7) / 8
        } else {
            0
        };
        let footer_entries = DCT::read_footers(fm, count)?;
        Ok(DCT::new(h.magic, h.version1, h.hash_seed, h.version2, dialog_entries, footer_entries))
    }

    /// Reads a table at the cursor into `self`, whose entries it replaces.
    /// The byte order is that of the cursor. On a failure neither `self`
    /// nor the cursor has changed.
    pub fn unpack(&mut self, fm: &mut FileManipulator) -> (res: Result<(), Error>)
        requires
            old(fm).wf(),
        ensures
            final(fm).wf(),
            final(fm)@.same_buffer(old(fm)@),
            match res {
                Ok(_) => parse_dct(old(fm)@) == Ok::<(DctModel, Cursor), Fault>(
                    (final(self).deep_view(), final(fm)@),
                ) && final(self).wf(),
                Err(e) => parse_dct(old(fm)@) == Err::<(DctModel, Cursor), Fault>(e@) && final(fm)@ == old(
                    fm,
                )@ && *final(self) == *old(self),
            },
    {
        let start: usize = fm.pos;
        match DCT::read_table(fm) {
            Ok(d) => {
                *self = d;
                Ok(())
            },
            Err(e) => {
                fm.pos = start;
                Err(e)
            },
        }
    }

    /// The 32 bytes of the header.
    fn header_bytes(&self) -> (out: Vec<u8>)
        requires
            self.wf(),
        ensures
            out@ == dct_header(self.deep_view()),
            out@.len() == 32,
    {
        let nd: usize = self.dialog_entries.len();
        let nf: usize = self.footer_entries.len();
        let records_len: u128 = 12 * (nd as u128) + 8 * (nf as u128);
        let mut out = self.magic.as_str().as_bytes_vec();
        push_le4(&mut out, self.version1);
        push_le4(&mut out, self.hash_seed);
        push_le4(&mut out, self.version2);
        push_le4(&mut out, len32(nd));
        push_le4(&mut out, 1);
        push_le4(&mut out, ((records_len + 0xFFFF_FFFF) % 0x1_0000_0000) as u32);
        push_le4(&mut out, if nf > 0 { 1 } else { 0 });
        out
    }

    /// The records of the dialog entries and their texts.
    fn dialog_part(&self, text_start: u128) -> (out: (Vec<u8>, Vec<u8>))
        requires
            text_start == 12 * self.dialog_entries@.len() + 8 * self.footer_entries@.len() + 49,
            text_start <= 0x1_0000_0000_0000_0000_0000,
        ensures
            out.0@ == dialog_records(self.deep_view().dialog_entries, 32, text_start as int),
            out.0@.len() == 12 * self.dialog_entries@.len(),
            out.1@ == concat_map(self.deep_view().dialog_entries, dialog_text_encoder()),
    {
        let nd: usize = self.dialog_entries.len();
        let ghost all = self.dialog_entries.deep_view();
        let mut records: Vec<u8> = Vec::new();
        let mut texts: Vec<u8> = Vec::new();
        let mut i: usize = 0;
        while i < nd
            invariant
                i <= nd,
                nd == self.dialog_entries@.len(),
                all == self.dialog_entries.deep_view(),
                text_start == 12 * nd + 8 * self.footer_entries@.len() + 49,
                text_start <= 0x1_0000_0000_0000_0000_0000,
                records@ == dialog_records(all.subrange(0, i as int), 32, text_start as int),
                records@.len() == 12 * i,
                texts@ == concat_map(all.subrange(0, i as int), dialog_text_encoder()),
            decreases nd - i,
        {
            let entry = &self.dialog_entries[i];
            let ghost prefix = all.subrange(0, i as int);
            proof {
                lemma_dialog_records_push(prefix, entry.deep_view(), 32, text_start as int);
                lemma_concat_map_push(prefix, entry.deep_view(), dialog_text_encoder());
                assert(all.subrange(0, i + 1) =~= prefix.push(entry.deep_view()));
            }
            let ghost r0 = records@;
            let ghost t0 = texts@;
            if entry.hashed_key == 0 {
                push_le4(&mut records, 0);
                push_le4(&mut records, 0);
                push_le4(&mut records, 0);
                assert(records@ =~= r0 + dialog_record(entry.deep_view(), 32 + 12 * i, text_start + t0.len()));
                assert(texts@ =~= t0 + dialog_text_bytes(entry.deep_view()));
            } else {
                let record_pos: u128 = 32 + 12 * (i as u128);
                let text_pos: u128 = text_start + texts.len() as u128;
                let field: u32 = ((text_pos - record_pos - 5) % 0x1_0000_0000) as u32;
                push_le4(&mut records, entry.hashed_key);
                push_le4(&mut records, field);
                push_le4(&mut records, 0);
                append_bytes(&mut texts, entry.text.as_str().as_bytes());
                texts.push(0);
                assert(records@ =~= r0 + dialog_record(entry.deep_view(), 32 + 12 * i, text_start + t0.len()));
                assert(texts@ =~= t0 + dialog_text_bytes(entry.deep_view()));
            }
            i += 1;
        }
        assert(all.subrange(0, nd as int) =~= all);
        (records, texts)
    }

    /// The records of the footer entries, the first at `base`, and their
    /// texts, the first at `text_start`.
    fn footer_part(&self, base: u128, text_start: u128) -> (out: (Vec<u8>, Vec<u8>))
        requires
            base == 32 + 12 * self.dialog_entries@.len(),
            text_start >= base + 8 * self.footer_entries@.len() + 17,
            text_start <= 0x1_0000_0000_0000_0000_0000,
        ensures
            out.0@ == footer_records(self.deep_view().footer_entries, base as int, text_start as int),
            out.0@.len() == 8 * self.footer_entries@.len(),
            out.1@ == concat_map(self.deep_view().footer_entries, footer_text_encoder()),
    {
        let nf: usize = self.footer_entries.len();
        let ghost all = self.footer_entries.deep_view();
        let mut records: Vec<u8> = Vec::new();
        let mut texts: Vec<u8> = Vec::new();
        let mut j: usize = 0;
        while j < nf
            invariant
                j <= nf,
                nf == self.footer_entries@.len(),
                all == self.footer_entries.deep_view(),
                base == 32 + 12 * self.dialog_entries@.len(),
                text_start >= base + 8 * nf + 17,
                text_start <= 0x1_0000_0000_0000_0000_0000,
                records@ == footer_records(all.subrange(0, j as int), base as int, text_start as int),
                records@.len() == 8 * j,
                texts@ == concat_map(all.subrange(0, j as int), footer_text_encoder()),
            decreases nf - j,
        {
            let entry = &self.footer_entries[j];
            let ghost prefix = all.subrange(0, j as int);
            proof {
                lemma_footer_records_push(prefix, entry.deep_view(), base as int, text_start as int);
                lemma_concat_map_push(prefix, entry.deep_view(), footer_text_encoder());
                assert(all.subrange(0, j + 1) =~= prefix.push(entry.deep_view()));
            }
            let ghost r0 = records@;
            let ghost t0 = texts@;
            let record_pos: u128 = base + 8 * (j as u128);
            let text_pos: u128 = text_start + texts.len() as u128;
            let field: u32 = ((text_pos - record_pos - 1) % 0x1_0000_0000) as u32;
            push_le4(&mut records, field);
            push_le4(&mut records, entry.number);
            append_bytes(&mut texts, entry.text.as_str().as_bytes());
            texts.push(0);
            assert(records@ =~= r0 + footer_record(entry.deep_view(), base + 8 * j, text_start + t0.len()));
            assert(texts@ =~= t0 + footer_text_bytes(entry.deep_view()));
            j += 1;
        }
        assert(all.subrange(0, nf as int) =~= all);
        (records, texts)
    }

    /// The bytes of the table, in little endian.
    pub fn pack(&self) -> (out: Vec<u8>)
        requires
            self.wf(),
        ensures
            out@ == dct_bytes(self.deep_view()),
    {
        let nd: usize = self.dialog_entries.len();
        let nf: usize = self.footer_entries.len();
        let records_len: u128 = 12 * (nd as u128) + 8 * (nf as u128);
        let text_start: u128 = records_len + 49;
        let mut out = self.header_bytes();
        let (dialog_records, dialog_texts) = self.dialog_part(text_start);
        let (footer_records, footer_texts) = self.footer_part(
            32 + 12 * (nd as u128),
            text_start + dialog_texts.len() as u128,
        );
        append_bytes(&mut out, dialog_records.as_slice());
        append_bytes(&mut out, footer_records.as_slice());
        if nf > 0 {
            out.push(0xDF);
            out.push(0xFF);
            out.push(0xFF);
            out.push(0xFF);
            push_le4(&mut out, 11);
            push_le4(&mut out, 12);
            push_le4(&mut out, 0);
            out.push(0);
            append_bytes(&mut out, dialog_texts.as_slice());
            append_bytes(&mut out, footer_texts.as_slice());
            assert(out@ =~= dct_bytes(self.deep_view()));
        } else if dialog_texts.len() > 0 || footer_texts.len() > 0 {
            let mut k: usize = 0;
            let ghost base = out@;
            while k < 17
                invariant
                    k <= 17,
                    out@ == base + zeros(k as int),
                decreases 17 - k,
            {
                out.push(0);
                k += 1;
                assert(out@ =~= base + zeros(k as int));
            }
            append_bytes(&mut out, dialog_texts.as_slice());
            append_bytes(&mut out, footer_texts.as_slice());
            assert(out@ =~= dct_bytes(self.deep_view()));
        } else {
            assert(out@ =~= dct_bytes(self.deep_view()));
        }
        out
    }

    /// The bytes of the table, in little endian.
    pub fn to_binary(&self) -> (out: Vec<u8>)
        requires
            self.wf(),
        ensures
            out@ == dct_bytes(self.deep_view()),
    {
        self.pack()
    }

    /// The table that `data` holds, read from its first byte in little
    /// endian.
    pub fn from_binary(data: Vec<u8>) -> (res: Result<DCT, Error>)
        ensures
            match res {
                Ok(d) => parse_dct(start_of(data@, EndianType::LITTLE)) matches Ok((m, _)) && d.deep_view()
                    == m && d.wf(),
                Err(e) => parse_dct(start_of(data@, EndianType::LITTLE)) matches Err(f) && f == e@,
            },
    {
        let mut fm = FileManipulator::new(data, EndianType::LITTLE, WriteMode::OVERWRITE);
        DCT::read_table(&mut fm)
    }

    /// Merges a patch into the table: the header fields that the patch
    /// gives replace those of the table; each dialog line of the patch is
    /// set as [`DCT::set_line_from_hash`] sets it; the footer lines of the
    /// patch come behind those of the table.
    pub fn merge_in_dict(&mut self, patch: DCTPatch)
        ensures
            final(self).magic@ == (match patch.magic {
                Some(m) => m@,
                None => old(self).magic@,
            }),
            final(self).version1 == (match patch.version1 {
                Some(v) => v,
                None => old(self).version1,
            }),
            final(self).hash_seed == (match patch.hash_seed {
                Some(v) => v,
                None => old(self).hash_seed,
            }),
            final(self).version2 == (match patch.version2 {
                Some(v) => v,
                None => old(self).version2,
            }),
            final(self).dialog_entries.deep_view() == with_lines(
                old(self).dialog_entries.deep_view(),
                patch.dialog_entries.deep_view(),
            ),
            final(self).footer_entries.deep_view() == old(self).footer_entries.deep_view()
                + patch.footer_entries.deep_view(),
    {
        let ghost lines = patch.dialog_entries.deep_view();
        let ghost footers0 = self.footer_entries.deep_view();
        let ghost footers = patch.footer_entries.deep_view();
        let ghost dialog0 = self.dialog_entries.deep_view();
        match patch.magic {
            Some(m) => {
                self.magic = m;
            },
            None => {},
        }
        match patch.version1 {
            Some(v) => {
                self.version1 = v;
            },
            None => {},
        }
        match patch.hash_seed {
            Some(v) => {
                self.hash_seed = v;
            },
            None => {},
        }
        match patch.version2 {
            Some(v) => {
                self.version2 = v;
            },
            None => {},
        }
        let ghost head = *self;
        let mut i: usize = 0;
        assert(lines.subrange(0, 0) =~= Seq::<DialogModel>::empty());
        while i < patch.dialog_entries.len()
            invariant
                i <= patch.dialog_entries@.len(),
                lines == patch.dialog_entries.deep_view(),
                self.magic == head.magic,
                self.version1 == head.version1,
                self.hash_seed == head.hash_seed,
                self.version2 == head.version2,
                self.footer_entries == head.footer_entries,
                self.dialog_entries.deep_view() == with_lines(dialog0, lines.subrange(0, i as int)),
            decreases patch.dialog_entries@.len() - i,
        {
            proof {
                assert(lines.subrange(0, i + 1).drop_last() =~= lines.subrange(0, i as int));
                assert(lines.subrange(0, i + 1).last() == lines[i as int]);
            }
            let key: u32 = patch.dialog_entries[i].hashed_key;
            let text = patch.dialog_entries[i].text.clone();
            self.set_line_from_hash(key, text);
            i += 1;
        }
        assert(lines.subrange(0, i as int) =~= lines);
        let mut more = patch.footer_entries;
        self.footer_entries.append(&mut more);
        assert(self.footer_entries.deep_view() =~= footers0 + footers);
    }

    /// Sets the line under `hashed_key`: the first entry with the key gets
    /// the text; without one, a new entry comes last. Key 0 is ignored.
    #[verifier::loop_isolation(false)]
    pub fn set_line_from_hash(&mut self, hashed_key: u32, text: String)
        ensures
            final(self).dialog_entries.deep_view() == with_line(
                old(self).dialog_entries.deep_view(),
                hashed_key,
                text@,
            ),
            final(self).magic == old(self).magic,
            final(self).version1 == old(self).version1,
            final(self).hash_seed == old(self).hash_seed,
            final(self).version2 == old(self).version2,
            final(self).footer_entries == old(self).footer_entries,
    {
        if hashed_key == 0 {
            return ;
        }
        let ghost before = self.dialog_entries.deep_view();
        let ghost fresh = DialogModel { hashed_key, text: text@ };
        let mut i: usize = 0;
        while i < self.dialog_entries.len()
            invariant
                i <= self.dialog_entries@.len(),
                *self == *old(self),
                before == self.dialog_entries.deep_view(),
                forall|j: int| 0 <= j < i ==> before[j].hashed_key != hashed_key,
            decreases self.dialog_entries@.len() - i,
        {
            if self.dialog_entries[i].hashed_key == hashed_key {
                proof {
                    lemma_with_line_found(before, hashed_key, text@, i as int);
                }
                self.dialog_entries.set(i, DialogEntry::new(hashed_key, text));
                assert(self.dialog_entries.deep_view() =~= before.update(i as int, fresh));
                return ;
            }
            i += 1;
        }
        proof {
            lemma_with_line_missing(before, hashed_key, text@);
        }
        self.dialog_entries.push(DialogEntry::new(hashed_key, text));
        assert(self.dialog_entries.deep_view() =~= before.push(fresh));
    }
}

} // verus!
