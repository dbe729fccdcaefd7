use vstd::prelude::*;
use crate::error::{Error, Fault};
use vstd::utf8::*;
use vstd::string::*;
use crate::byte_order::{decode_uint, encode_uint, lemma_pow256_widths, signed, uint_bytes, uint_value, unsigned};
use crate::text::{append_bytes, str_eq, string_from_utf8};

verus! {

/// Byte order of the multi-byte values in a buffer.
#[derive(Clone, Copy, PartialEq, Eq, Structural, Debug)]
pub enum EndianType {
    BIG,
    LITTLE,
}

/// What a write does to the bytes that already stand at the cursor.
#[derive(Clone, Copy, PartialEq, Eq, Structural, Debug)]
pub enum WriteMode {
    OVERWRITE,
    INSERT,
}

/// `n` zero bytes.
pub open spec fn zeros(n: int) -> Seq<u8> {
    Seq::new(if n > 0 { n as nat } else { 0 }, |i: int| 0u8)
}

/// `data`, lengthened with zero bytes to `len` where it is shorter.
pub open spec fn zero_extended(data: Seq<u8>, len: int) -> Seq<u8> {
    data + zeros(len - data.len())
}

/// The distance from `pos` up to the next multiple of `n` (zero on a multiple).
pub open spec fn gap_to_multiple(pos: int, n: int) -> int {
    if pos % n == 0 { 0 } else { n - pos % n }
}

/// The mathematical value of a [`FileManipulator`]: the bytes, the cursor
/// and the two modes.
pub struct Cursor {
    pub data: Seq<u8>,
    pub pos: int,
    pub endian: EndianType,
    pub write_mode: WriteMode,
}

impl Cursor {
    /// The cursor stands inside the buffer or at its end.
    pub open spec fn wf(self) -> bool {
        0 <= self.pos <= self.data.len()
    }

    /// The same bytes and modes; the cursor may stand elsewhere.
    pub open spec fn same_buffer(self, other: Cursor) -> bool {
        self.data == other.data && self.endian == other.endian && self.write_mode == other.write_mode
    }

    /// The cursor placed at `p`, the buffer zero-extended up to there.
    pub open spec fn seek(self, p: int) -> Cursor {
        Cursor { data: zero_extended(self.data, p), pos: p, ..self }
    }

    /// The cursor moved by `n` over bytes that are left as they are.
    pub open spec fn skip(self, n: int) -> Cursor {
        Cursor { pos: self.pos + n, ..self }
    }

    /// `n` bytes are left at and after the cursor.
    pub open spec fn can_read(self, n: int) -> bool {
        self.pos + n <= self.data.len()
    }

    /// The `n` bytes at and after the cursor.
    pub open spec fn peek(self, n: int) -> Seq<u8> {
        self.data.subrange(self.pos, self.pos + n)
    }

    /// The bytes after a write of `buf` at the cursor.
    pub open spec fn written(self, buf: Seq<u8>) -> Seq<u8> {
        match self.write_mode {
            WriteMode::OVERWRITE => {
                let ext = zero_extended(self.data, self.pos + buf.len());
                ext.subrange(0, self.pos) + buf + ext.subrange(self.pos + buf.len(), ext.len() as int)
            },
            WriteMode::INSERT => {
                self.data.subrange(0, self.pos) + buf + self.data.subrange(self.pos, self.data.len() as int)
            },
        }
    }

    /// The state after a write of `buf`: the bytes stand at the old cursor
    /// and the cursor behind them.
    pub open spec fn write(self, buf: Seq<u8>) -> Cursor {
        Cursor { data: self.written(buf), pos: self.pos + buf.len(), ..self }
    }
}


impl Cursor {
    /// The failure of a read of `n` bytes at the cursor.
    pub open spec fn eof(self, n: int) -> Fault {
        Fault::UnexpectedEof { at: self.pos, need: n }
    }

    /// A read of `n` bytes: the bytes and the cursor behind them, or the
    /// failure where fewer are left.
    pub open spec fn read(self, n: int) -> Result<(Seq<u8>, Cursor), Fault> {
        if self.can_read(n) {
            Ok((self.peek(n), self.skip(n)))
        } else {
            Err(self.eof(n))
        }
    }

    /// A relative move that stays inside the buffer, or the failure.
    pub open spec fn move_pos(self, n: int) -> Result<Cursor, Fault> {
        if 0 <= self.pos + n <= self.data.len() {
            Ok(self.skip(n))
        } else {
            Err(Fault::BadPosition { requested: self.pos + n })
        }
    }

    /// The move up to the next multiple of `n`.
    pub open spec fn align(self, n: int) -> Result<Cursor, Fault> {
        self.move_pos(gap_to_multiple(self.pos, n))
    }
}

/// The state of a reader that was just made over `data`: at the first byte,
/// in overwrite mode.
pub open spec fn start_of(data: Seq<u8>, endian: EndianType) -> Cursor {
    Cursor { data, pos: 0, endian, write_mode: WriteMode::OVERWRITE }
}

/// The other byte order.
pub open spec fn flipped_endian(endian: EndianType) -> EndianType {
    match endian {
        EndianType::BIG => EndianType::LITTLE,
        EndianType::LITTLE => EndianType::BIG,
    }
}


/// The offset of the first zero byte at or after `from`, or the length of
/// `data` where there is none.
pub open spec fn first_nul(data: Seq<u8>, from: int) -> int
    decreases data.len() - from,
{
    if from < 0 || from >= data.len() {
        data.len() as int
    } else if data[from] == 0 {
        from
    } else {
        first_nul(data, from + 1)
    }
}

/// The length byte of a framed string whose text takes `n` bytes: the text
/// and its terminator, or zero for an empty text.
pub open spec fn jps_text_length(n: int) -> int {
    if n > 0 { n + 1 } else { 0 }
}

/// The size of the frame of a string whose text takes `n` bytes: the two
/// header bytes and the length byte's count, rounded up to a multiple of 4.
pub open spec fn jps_size(n: int) -> int {
    jps_text_length(n) + 2 + gap_to_multiple(jps_text_length(n) + 2, 4)
}

/// The number of zero bytes behind the terminator of a framed string.
pub open spec fn jps_padding(n: int) -> int {
    if n > 0 { jps_size(n) - jps_text_length(n) - 2 } else { 1 }
}

/// The frame of a string whose text is `text`: size byte, length byte, the
/// text, a terminator and zero padding. The two header bytes keep the low
/// eight bits of their numbers.
pub open spec fn jps_bytes(text: Seq<u8>) -> Seq<u8> {
    seq![(jps_size(text.len() as int) % 256) as u8, (jps_text_length(text.len() as int) % 256) as u8] + text
        + seq![0u8] + zeros(jps_padding(text.len() as int))
}

/// The four bytes of a boolean.
pub open spec fn bool_bytes(value: bool) -> Seq<u8> {
    if value { seq![255u8, 255u8, 255u8, 255u8] } else { seq![0u8, 0u8, 0u8, 0u8] }
}

/// The filler byte of a padded 16-bit integer: `0xCD` in mode 0, `0xFF` in
/// mode 1.
pub open spec fn jps_filler(mode: i32) -> u8 {
    if mode == 0 { 0xCDu8 } else { 0xFFu8 }
}

impl Cursor {
    /// A read of an unsigned integer of `n` bytes in the byte order in force.
    pub open spec fn r_uint(self, n: int) -> Result<(nat, Cursor), Fault> {
        match self.read(n) {
            Ok((b, c)) => Ok((uint_value(self.endian, b), c)),
            Err(e) => Err(e),
        }
    }

    /// A read of a two's-complement integer of `n` bytes.
    pub open spec fn r_int(self, n: int) -> Result<(int, Cursor), Fault> {
        match self.read(n) {
            Ok((b, c)) => Ok((signed(uint_value(self.endian, b), n as nat), c)),
            Err(e) => Err(e),
        }
    }

    /// A write of the `n` low bytes of `v` in the byte order in force.
    pub open spec fn w_uint(self, v: nat, n: nat) -> Cursor {
        self.write(uint_bytes(self.endian, v, n))
    }

    /// A write of `v` as a two's-complement integer of `n` bytes.
    pub open spec fn w_int(self, v: int, n: nat) -> Cursor {
        self.write(uint_bytes(self.endian, unsigned(v, n), n))
    }

    /// A read of a 16-bit unsigned integer and of the two filler bytes
    /// behind it.
    pub open spec fn r_uint_jps(self) -> Result<(nat, Cursor), Fault> {
        match self.r_uint(2) {
            Ok((v, c)) => match c.move_pos(2) {
                Ok(c2) => Ok((v, c2)),
                Err(e) => Err(e),
            },
            Err(e) => Err(e),
        }
    }

    /// A read of a 16-bit signed integer and of the two filler bytes behind
    /// it.
    pub open spec fn r_int_jps(self) -> Result<(int, Cursor), Fault> {
        match self.r_int(2) {
            Ok((v, c)) => match c.move_pos(2) {
                Ok(c2) => Ok((v, c2)),
                Err(e) => Err(e),
            },
            Err(e) => Err(e),
        }
    }

    /// A read of a boolean: four bytes, true where all four are `0xFF`.
    pub open spec fn r_bool(self) -> Result<(bool, Cursor), Fault> {
        match self.read(4) {
            Ok((b, c)) => Ok((b == bool_bytes(true), c)),
            Err(e) => Err(e),
        }
    }

    /// A read of `n` bytes of UTF-8 text.
    pub open spec fn r_str(self, n: int) -> Result<(Seq<char>, Cursor), Fault> {
        match self.read(n) {
            Ok((b, c)) => if valid_utf8(b) {
                Ok((decode_utf8(b), c))
            } else {
                Err(Fault::BadEncoding)
            },
            Err(e) => Err(e),
        }
    }

    /// A read of UTF-8 text up to a zero byte, which is consumed too.
    pub open spec fn r_str_null(self) -> Result<(Seq<char>, Cursor), Fault> {
        let z = first_nul(self.data, self.pos);
        if z >= self.data.len() {
            Err(Fault::UnexpectedEof { at: self.data.len() as int, need: 1 })
        } else if !valid_utf8(self.data.subrange(self.pos, z)) {
            Err(Fault::BadEncoding)
        } else {
            Ok((decode_utf8(self.data.subrange(self.pos, z)), self.skip(z + 1 - self.pos)))
        }
    }

    /// A read of a framed string: the size byte and the length byte, which
    /// are passed over, the text up to its terminator, and the move to the
    /// next multiple of 4.
    pub open spec fn r_str_jps(self) -> Result<(Seq<char>, Cursor), Fault> {
        match self.read(1) {
            Err(e) => Err(e),
            Ok((_, c1)) => match c1.read(1) {
                Err(e) => Err(e),
                Ok((_, c2)) => match c2.r_str_null() {
                    Err(e) => Err(e),
                    Ok((s, c3)) => match c3.align(4) {
                        Err(e) => Err(e),
                        Ok(c4) => Ok((s, c4)),
                    },
                },
            },
        }
    }

    /// The zero-terminated text that starts at offset `off`, read without
    /// moving the cursor. An offset behind the end fails as a read at the
    /// end does.
    pub open spec fn str_null_at(self, off: int) -> Result<Seq<char>, Fault> {
        if off > self.data.len() {
            Err(Fault::UnexpectedEof { at: self.data.len() as int, need: 1 })
        } else {
            match (Cursor { pos: off, ..self }).r_str_null() {
                Ok((s, _)) => Ok(s),
                Err(e) => Err(e),
            }
        }
    }

    /// The framed string that starts at offset `off`, read without moving
    /// the cursor. An offset behind the end fails as a read at the end does.
    pub open spec fn str_jps_at(self, off: int) -> Result<Seq<char>, Fault> {
        if off > self.data.len() {
            Err(Fault::UnexpectedEof { at: self.data.len() as int, need: 1 })
        } else {
            match (Cursor { pos: off, ..self }).r_str_jps() {
                Ok((s, _)) => Ok(s),
                Err(e) => Err(e),
            }
        }
    }

    /// The `n` bytes that start at offset `off`, read without moving the
    /// cursor. The failure names the offset, or the end of the buffer where
    /// the offset lies behind it.
    pub open spec fn read_at(self, off: int, n: int) -> Result<Seq<u8>, Fault> {
        if off + n <= self.data.len() {
            Ok(self.data.subrange(off, off + n))
        } else {
            Err(Fault::UnexpectedEof { at: if off <= self.data.len() { off } else { self.data.len() as int }, need: n })
        }
    }

    /// The cursor placed at `p`, the buffer left as it is.
    pub open spec fn jump(self, p: int) -> Cursor {
        Cursor { pos: p, ..self }
    }

    /// The cursor placed at `p` where that lies inside the buffer or at its
    /// end; the failure of a position outside it.
    pub open spec fn goto(self, p: int) -> Result<Cursor, Fault> {
        if 0 <= p <= self.data.len() {
            Ok(self.jump(p))
        } else {
            Err(Fault::BadPosition { requested: p })
        }
    }

    /// A write of the UTF-8 bytes of `s`.
    pub open spec fn w_str(self, s: Seq<char>) -> Cursor {
        self.write(encode_utf8(s))
    }

    /// A write of the UTF-8 bytes of `s` and of a zero byte behind them.
    pub open spec fn w_str_null(self, s: Seq<char>) -> Cursor {
        self.write(encode_utf8(s) + seq![0u8])
    }

    /// A write of the frame of `s`.
    pub open spec fn w_str_jps(self, s: Seq<char>) -> Cursor {
        self.write(jps_bytes(encode_utf8(s)))
    }
}

/// A positioned byte buffer that grows on demand, with typed readers and
/// writers that honour its byte order.
pub struct FileManipulator {
    pub endian: EndianType,
    pub write_mode: WriteMode,
    pub data: Vec<u8>,
    pub pos: usize,
}

impl View for FileManipulator {
    type V = Cursor;

    open spec fn view(&self) -> Cursor {
        Cursor { data: self.data@, pos: self.pos as int, endian: self.endian, write_mode: self.write_mode }
    }
}

impl FileManipulator {
    /// The cursor stands inside the buffer or at its end.
    pub open spec fn wf(&self) -> bool {
        self@.wf()
    }

    pub fn new(data: Vec<u8>, endian: EndianType, write_mode: WriteMode) -> (fm: FileManipulator)
        ensures
            fm@ == (Cursor { data: data@, pos: 0, endian, write_mode }),
            fm.wf(),
    {
        FileManipulator { endian, write_mode, data, pos: 0 }
    }

    /// The cursor's offset.
    pub fn tell(&self) -> (p: usize)
        ensures
            p == self.pos,
    {
        self.pos
    }

    /// Places the cursor at `pos`; a buffer that ends before it is
    /// lengthened with zero bytes up to it.
    pub fn seek(&mut self, pos: usize)
        ensures
            final(self)@ == old(self)@.seek(pos as int),
            final(self).wf(),
            pos <= old(self).data@.len() ==> final(self).data@ == old(self).data@,
            pos > old(self).data@.len() ==> final(self).data@.len() == pos && final(self).data@.subrange(
                0,
                old(self).data@.len() as int,
            ) == old(self).data@ && forall|i: int|
                old(self).data@.len() <= i < pos ==> final(self).data@[i] == 0,
    {
        while self.data.len() < pos
            invariant
                self.data@ == zero_extended(old(self).data@, self.data@.len() as int),
                self.data@.len() >= old(self).data@.len(),
                self.data@.len() == old(self).data@.len() || self.data@.len() <= pos,
                self.endian == old(self).endian,
                self.write_mode == old(self).write_mode,
            decreases pos - self.data.len(),
        {
            self.data.push(0);
            assert(self.data@ =~= zero_extended(old(self).data@, self.data@.len() as int));
        }
        assert(self.data@ =~= zero_extended(old(self).data@, pos as int));
        assert(pos > old(self).data@.len() ==> self.data@.subrange(0, old(self).data@.len() as int)
            =~= old(self).data@);
        self.pos = pos;
    }

    /// Moves the cursor by `amount`, which may be negative. A target outside
    /// the buffer is refused and the cursor stays.
    pub fn move_pos(&mut self, amount: isize) -> (res: Result<(), Error>)
        ensures
            match res {
                Ok(_) => old(self)@.move_pos(amount as int) == Ok::<Cursor, Fault>(final(self)@),
                Err(e) => old(self)@.move_pos(amount as int) == Err::<Cursor, Fault>(e@) && final(self)@ == old(
                    self,
                )@,
            },
    {
        let new_pos: i128 = self.pos as i128 + amount as i128;
        if new_pos < 0 || new_pos > self.data.len() as i128 {
            return Err(Error::BadPosition { requested: new_pos });
        }
        self.pos = new_pos as usize;
        Ok(())
    }

    /// The number of bytes in the buffer.
    pub fn size(&self) -> (n: usize)
        ensures
            n == self.data@.len(),
    {
        self.data.len()
    }

    /// The number of bytes in the buffer.
    pub fn get_size(&self) -> (n: usize)
        ensures
            n == self.data@.len(),
    {
        self.data.len()
    }

    /// The buffer.
    pub fn get_data(&self) -> (d: &Vec<u8>)
        ensures
            d@ == self.data@,
    {
        &self.data
    }

    /// The byte order in force.
    pub fn get_endian(&self) -> (e: &EndianType)
        ensures
            *e == self.endian,
    {
        &self.endian
    }

    /// Switches to the other byte order.
    pub fn flip_endian(&mut self)
        ensures
            final(self)@ == (Cursor { endian: flipped_endian(old(self).endian), ..old(self)@ }),
    {
        self.endian = match self.endian {
            EndianType::BIG => EndianType::LITTLE,
            EndianType::LITTLE => EndianType::BIG,
        };
    }

    /// Sets the byte order from its name, `"big"` or `"little"`.
    pub fn set_endian(&mut self, endian: &str)
        requires
            endian@ == "big"@ || endian@ == "little"@,
        ensures
            final(self)@ == (Cursor {
                endian: if endian@ == "big"@ { EndianType::BIG } else { EndianType::LITTLE },
                ..old(self)@
            }),
    {
        if str_eq(endian, "big") {
            self.endian = EndianType::BIG;
        } else {
            self.endian = EndianType::LITTLE;
        }
    }

    /// The byte-order mark of struct format strings: `">"` for big, `"<"`
    /// for little.
    pub fn get_struct_order_prefix(&self) -> (p: &str)
        ensures
            p@ == (if self.endian == EndianType::BIG { ">"@ } else { "<"@ }),
    {
        match self.endian {
            EndianType::BIG => ">",
            EndianType::LITTLE => "<",
        }
    }

    /// Advances the cursor to the next multiple of `num` over bytes that are
    /// left as they are; on a multiple it stays. A target behind the end of
    /// the buffer is refused.
    pub fn align(&mut self, num: usize) -> (res: Result<(), Error>)
        requires
            old(self).wf(),
            num > 0,
        ensures
            match res {
                Ok(_) => old(self)@.align(num as int) == Ok::<Cursor, Fault>(final(self)@),
                Err(e) => old(self)@.align(num as int) == Err::<Cursor, Fault>(e@) && final(self)@ == old(self)@,
            },
            final(self).wf(),
    {
        let rem: usize = self.pos % num;
        if rem != 0 {
            let target: u128 = self.pos as u128 + (num - rem) as u128;
            if target > self.data.len() as u128 {
                return Err(Error::BadPosition { requested: target as i128 });
            }
            self.pos = target as usize;
        } else {
            assert(self@ == old(self)@.skip(0));
        }
        Ok(())
    }

    /// Writes `buffer` at the cursor and moves the cursor behind it. In
    /// overwrite mode the bytes replace what stands there, after the buffer
    /// was zero-extended where it is too short; in insert mode they are
    /// spliced in and what follows shifts right.
    pub fn write(&mut self, buffer: &[u8])
        requires
            old(self).wf(),
        ensures
            final(self)@ == old(self)@.write(buffer@),
            final(self).wf(),
    {
        let pos: usize = self.pos;
        let n: usize = buffer.len();
        let tail_start: usize = match self.write_mode {
            WriteMode::OVERWRITE => if n <= self.data.len() - pos { pos + n } else { self.data.len() },
            WriteMode::INSERT => pos,
        };
        let mut tail = self.data.split_off(tail_start);
        self.data.truncate(pos);
        append_bytes(&mut self.data, buffer);
        self.data.append(&mut tail);
        let grown: usize = self.data.len();
        assert(pos + n <= grown);
        self.pos = pos + n;
        assert(self.data@ =~= old(self)@.written(buffer@));
    }

    /// Writes one byte at the cursor, as [`FileManipulator::write`] does.
    pub fn write_byte(&mut self, byte: u8)
        requires
            old(self).wf(),
        ensures
            final(self)@ == old(self)@.write(seq![byte]),
            final(self).wf(),
    {
        let buf: [u8; 1] = [byte];
        assert(buf@ =~= seq![byte]);
        self.write(buf.as_slice());
    }

    /// Writes zero bytes up to the next multiple of `amount`; on a multiple,
    /// a full `amount` of them.
    pub fn pad(&mut self, amount: usize)
        requires
            old(self).wf(),
            amount > 0,
        ensures
            final(self)@ == old(self)@.write(zeros(amount - old(self).pos % amount)),
            final(self).wf(),
    {
        let padding: usize = amount - self.pos % amount;
        self.pad_zeros(padding);
    }

    /// Writes `count` zero bytes at the cursor.
    pub fn pad_zeros(&mut self, count: usize)
        requires
            old(self).wf(),
        ensures
            final(self)@ == old(self)@.write(zeros(count as int)),
            final(self).wf(),
    {
        let mut buf: Vec<u8> = Vec::new();
        let mut i: usize = 0;
        while i < count
            invariant
                i <= count,
                buf@ == zeros(i as int),
            decreases count - i,
        {
            buf.push(0);
            i += 1;
            assert(buf@ =~= zeros(i as int));
        }
        self.write(buf.as_slice());
    }

    /// Reads `length` bytes at the cursor and moves the cursor behind them.
    pub fn read(&mut self, length: usize) -> (res: Result<Vec<u8>, Error>)
        requires
            old(self).wf(),
        ensures
            match res {
                Ok(v) => old(self)@.read(length as int) == Ok::<(Seq<u8>, Cursor), Fault>((v@, final(self)@)),
                Err(e) => old(self)@.read(length as int) == Err::<(Seq<u8>, Cursor), Fault>(e@)
                    && final(self)@ == old(self)@,
            },
            final(self).wf(),
    {
        if length > self.data.len() - self.pos {
            return Err(Error::UnexpectedEof { at: self.pos, need: length });
        }
        let mut out: Vec<u8> = Vec::new();
        let mut i: usize = 0;
        while i < length
            invariant
                i <= length,
                self.pos + length <= self.data@.len() <= usize::MAX,
                self@ == old(self)@,
                out@ == self.data@.subrange(self.pos as int, self.pos + i),
            decreases length - i,
        {
            out.push(self.data[self.pos + i]);
            i += 1;
            assert(out@ =~= self.data@.subrange(self.pos as int, self.pos + i));
        }
        self.pos = self.pos + length;
        Ok(out)
    }

    /// Reads the byte at the cursor and moves the cursor behind it.
    pub fn read_byte(&mut self) -> (res: Result<u8, Error>)
        requires
            old(self).wf(),
        ensures
            match res {
                Ok(b) => old(self)@.read(1) == Ok::<(Seq<u8>, Cursor), Fault>((seq![b], final(self)@)),
                Err(e) => old(self)@.read(1) == Err::<(Seq<u8>, Cursor), Fault>(e@) && final(self)@ == old(
                    self,
                )@,
            },
            final(self).wf(),
    {
        if self.pos >= self.data.len() {
            return Err(Error::UnexpectedEof { at: self.pos, need: 1 });
        }
        let b: u8 = self.data[self.pos];
        assert(self@.peek(1) =~= seq![b]);
        self.pos = self.pos + 1;
        Ok(b)
    }

    /// Reads the `length` bytes that stand before the cursor, in buffer
    /// order, and moves the cursor in front of them.
    pub fn read_backwards(&mut self, length: usize) -> (res: Result<Vec<u8>, Error>)
        requires
            old(self).wf(),
        ensures
            length <= old(self).pos ==> res is Ok && res->Ok_0@ == old(self).data@.subrange(
                old(self).pos - length,
                old(self).pos as int,
            ) && final(self)@ == old(self)@.skip(-(length as int)),
            length > old(self).pos ==> res is Err && res->Err_0@ == (Fault::BadPosition { requested: -1 })
                && final(self)@ == old(self)@,
            final(self).wf(),
    {
        if length > self.pos {
            return Err(Error::BadPosition { requested: -1 });
        }
        let start: usize = self.pos - length;
        let mut out: Vec<u8> = Vec::new();
        let mut i: usize = 0;
        while i < length
            invariant
                i <= length,
                start + length == self.pos,
                self.pos <= self.data@.len(),
                self@ == old(self)@,
                out@ == self.data@.subrange(start as int, start + i),
            decreases length - i,
        {
            out.push(self.data[start + i]);
            i += 1;
            assert(out@ =~= self.data@.subrange(start as int, start + i));
        }
        self.pos = start;
        Ok(out)
    }

    /// Reads an unsigned integer of 1 byte in the byte order in force.
    pub fn r_u8(&mut self) -> (res: Result<u8, Error>)
        requires
            old(self).wf(),
        ensures
            match res {
                Ok(v) => old(self)@.r_uint(1) == Ok::<(nat, Cursor), Fault>((v as nat, final(self)@)),
                Err(e) => old(self)@.r_uint(1) == Err::<(nat, Cursor), Fault>(e@) && final(self)@ == old(
                    self,
                )@,
            },
            final(self).wf(),
    {
        let bytes = self.read(1)?;
        proof {
            lemma_pow256_widths();
        }
        Ok(decode_uint(bytes.as_slice(), self.endian) as u8)
    }

    /// Reads a two's-complement integer of 1 byte in the byte order in force.
    pub fn r_s8(&mut self) -> (res: Result<i8, Error>)
        requires
            old(self).wf(),
        ensures
            match res {
                Ok(v) => old(self)@.r_int(1) == Ok::<(int, Cursor), Fault>((v as int, final(self)@)),
                Err(e) => old(self)@.r_int(1) == Err::<(int, Cursor), Fault>(e@) && final(self)@ == old(
                    self,
                )@,
            },
            final(self).wf(),
    {
        let bytes = self.read(1)?;
        proof {
            lemma_pow256_widths();
        }
        let u: u128 = decode_uint(bytes.as_slice(), self.endian);
        if u < 0x80 {
            Ok(u as i8)
        } else {
            Ok((u as i128 - 0x100) as i8)
        }
    }

    /// Writes `data` on 1 byte in the byte order in force.
    pub fn w_u8(&mut self, data: u8)
        requires
            old(self).wf(),
        ensures
            final(self)@ == old(self)@.w_uint(data as nat, 1),
            final(self).wf(),
    {
        let bytes = encode_uint(data as u128, 1, self.endian);
        self.write(bytes.as_slice());
    }

    /// Writes `data` in two's complement on 1 byte in the byte order in force.
    pub fn w_s8(&mut self, data: i8)
        requires
            old(self).wf(),
        ensures
            final(self)@ == old(self)@.w_int(data as int, 1),
            final(self).wf(),
    {
        proof {
            lemma_pow256_widths();
        }
        let u: u128 = if data >= 0 {
            data as u128
        } else {
            (data as i128 + 0x100) as u128
        };
        let bytes = encode_uint(u, 1, self.endian);
        self.write(bytes.as_slice());
    }

    /// Reads an unsigned integer of 2 bytes in the byte order in force.
    pub fn r_u16(&mut self) -> (res: Result<u16, Error>)
        requires
            old(self).wf(),
        ensures
            match res {
                Ok(v) => old(self)@.r_uint(2) == Ok::<(nat, Cursor), Fault>((v as nat, final(self)@)),
                Err(e) => old(self)@.r_uint(2) == Err::<(nat, Cursor), Fault>(e@) && final(self)@ == old(
                    self,
                )@,
            },
            final(self).wf(),
    {
        let bytes = self.read(2)?;
        proof {
            lemma_pow256_widths();
        }
        Ok(decode_uint(bytes.as_slice(), self.endian) as u16)
    }

    /// Reads a two's-complement integer of 2 bytes in the byte order in force.
    pub fn r_s16(&mut self) -> (res: Result<i16, Error>)
        requires
            old(self).wf(),
        ensures
            match res {
                Ok(v) => old(self)@.r_int(2) == Ok::<(int, Cursor), Fault>((v as int, final(self)@)),
                Err(e) => old(self)@.r_int(2) == Err::<(int, Cursor), Fault>(e@) && final(self)@ == old(
                    self,
                )@,
            },
            final(self).wf(),
    {
        let bytes = self.read(2)?;
        proof {
            lemma_pow256_widths();
        }
        let u: u128 = decode_uint(bytes.as_slice(), self.endian);
        if u < 0x8000 {
            Ok(u as i16)
        } else {
            Ok((u as i128 - 0x1_0000) as i16)
        }
    }

    /// Writes `data` on 2 bytes in the byte order in force.
    pub fn w_u16(&mut self, data: u16)
        requires
            old(self).wf(),
        ensures
            final(self)@ == old(self)@.w_uint(data as nat, 2),
            final(self).wf(),
    {
        let bytes = encode_uint(data as u128, 2, self.endian);
        self.write(bytes.as_slice());
    }

    /// Writes `data` in two's complement on 2 bytes in the byte order in force.
    pub fn w_s16(&mut self, data: i16)
        requires
            old(self).wf(),
        ensures
            final(self)@ == old(self)@.w_int(data as int, 2),
            final(self).wf(),
    {
        proof {
            lemma_pow256_widths();
        }
        let u: u128 = if data >= 0 {
            data as u128
        } else {
            (data as i128 + 0x1_0000) as u128
        };
        let bytes = encode_uint(u, 2, self.endian);
        self.write(bytes.as_slice());
    }

    /// Reads an unsigned integer of 4 bytes in the byte order in force.
    pub fn r_u32(&mut self) -> (res: Result<u32, Error>)
        requires
            old(self).wf(),
        ensures
            match res {
                Ok(v) => old(self)@.r_uint(4) == Ok::<(nat, Cursor), Fault>((v as nat, final(self)@)),
                Err(e) => old(self)@.r_uint(4) == Err::<(nat, Cursor), Fault>(e@) && final(self)@ == old(
                    self,
                )@,
            },
            final(self).wf(),
    {
        let bytes = self.read(4)?;
        proof {
            lemma_pow256_widths();
        }
        Ok(decode_uint(bytes.as_slice(), self.endian) as u32)
    }

    /// Reads a two's-complement integer of 4 bytes in the byte order in force.
    pub fn r_s32(&mut self) -> (res: Result<i32, Error>)
        requires
            old(self).wf(),
        ensures
            match res {
                Ok(v) => old(self)@.r_int(4) == Ok::<(int, Cursor), Fault>((v as int, final(self)@)),
                Err(e) => old(self)@.r_int(4) == Err::<(int, Cursor), Fault>(e@) && final(self)@ == old(
                    self,
                )@,
            },
            final(self).wf(),
    {
        let bytes = self.read(4)?;
        proof {
            lemma_pow256_widths();
        }
        let u: u128 = decode_uint(bytes.as_slice(), self.endian);
        if u < 0x8000_0000 {
            Ok(u as i32)
        } else {
            Ok((u as i128 - 0x1_0000_0000) as i32)
        }
    }

    /// Writes `data` on 4 bytes in the byte order in force.
    pub fn w_u32(&mut self, data: u32)
        requires
            old(self).wf(),
        ensures
            final(self)@ == old(self)@.w_uint(data as nat, 4),
            final(self).wf(),
    {
        let bytes = encode_uint(data as u128, 4, self.endian);
        self.write(bytes.as_slice());
    }

    /// Writes `data` in two's complement on 4 bytes in the byte order in force.
    pub fn w_s32(&mut self, data: i32)
        requires
            old(self).wf(),
        ensures
            final(self)@ == old(self)@.w_int(data as int, 4),
            final(self).wf(),
    {
        proof {
            lemma_pow256_widths();
        }
        let u: u128 = if data >= 0 {
            data as u128
        } else {
            (data as i128 + 0x1_0000_0000) as u128
        };
        let bytes = encode_uint(u, 4, self.endian);
        self.write(bytes.as_slice());
    }

    /// Reads an unsigned integer of 8 bytes in the byte order in force.
    pub fn r_u64(&mut self) -> (res: Result<u64, Error>)
        requires
            old(self).wf(),
        ensures
            match res {
                Ok(v) => old(self)@.r_uint(8) == Ok::<(nat, Cursor), Fault>((v as nat, final(self)@)),
                Err(e) => old(self)@.r_uint(8) == Err::<(nat, Cursor), Fault>(e@) && final(self)@ == old(
                    self,
                )@,
            },
            final(self).wf(),
    {
        let bytes = self.read(8)?;
        proof {
            lemma_pow256_widths();
        }
        Ok(decode_uint(bytes.as_slice(), self.endian) as u64)
    }

    /// Reads a two's-complement integer of 8 bytes in the byte order in force.
    pub fn r_s64(&mut self) -> (res: Result<i64, Error>)
        requires
            old(self).wf(),
        ensures
            match res {
                Ok(v) => old(self)@.r_int(8) == Ok::<(int, Cursor), Fault>((v as int, final(self)@)),
                Err(e) => old(self)@.r_int(8) == Err::<(int, Cursor), Fault>(e@) && final(self)@ == old(
                    self,
                )@,
            },
            final(self).wf(),
    {
        let bytes = self.read(8)?;
        proof {
            lemma_pow256_widths();
        }
        let u: u128 = decode_uint(bytes.as_slice(), self.endian);
        if u < 0x8000_0000_0000_0000 {
            Ok(u as i64)
        } else {
            Ok((u as i128 - 0x1_0000_0000_0000_0000) as i64)
        }
    }

    /// Writes `data` on 8 bytes in the byte order in force.
    pub fn w_u64(&mut self, data: u64)
        requires
            old(self).wf(),
        ensures
            final(self)@ == old(self)@.w_uint(data as nat, 8),
            final(self).wf(),
    {
        let bytes = encode_uint(data as u128, 8, self.endian);
        self.write(bytes.as_slice());
    }

    /// Writes `data` in two's complement on 8 bytes in the byte order in force.
    pub fn w_s64(&mut self, data: i64)
        requires
            old(self).wf(),
        ensures
            final(self)@ == old(self)@.w_int(data as int, 8),
            final(self).wf(),
    {
        proof {
            lemma_pow256_widths();
        }
        let u: u128 = if data >= 0 {
            data as u128
        } else {
            (data as i128 + 0x1_0000_0000_0000_0000) as u128
        };
        let bytes = encode_uint(u, 8, self.endian);
        self.write(bytes.as_slice());
    }

    /// Reads an unsigned integer of 16 bytes in the byte order in force.
    pub fn r_u128(&mut self) -> (res: Result<u128, Error>)
        requires
            old(self).wf(),
        ensures
            match res {
                Ok(v) => old(self)@.r_uint(16) == Ok::<(nat, Cursor), Fault>((v as nat, final(self)@)),
                Err(e) => old(self)@.r_uint(16) == Err::<(nat, Cursor), Fault>(e@) && final(self)@ == old(
                    self,
                )@,
            },
            final(self).wf(),
    {
        let bytes = self.read(16)?;
        proof {
            lemma_pow256_widths();
        }
        Ok(decode_uint(bytes.as_slice(), self.endian) as u128)
    }

    /// Reads a two's-complement integer of 16 bytes in the byte order in force.
    pub fn r_s128(&mut self) -> (res: Result<i128, Error>)
        requires
            old(self).wf(),
        ensures
            match res {
                Ok(v) => old(self)@.r_int(16) == Ok::<(int, Cursor), Fault>((v as int, final(self)@)),
                Err(e) => old(self)@.r_int(16) == Err::<(int, Cursor), Fault>(e@) && final(self)@ == old(
                    self,
                )@,
            },
            final(self).wf(),
    {
        let bytes = self.read(16)?;
        proof {
            lemma_pow256_widths();
        }
        let u: u128 = decode_uint(bytes.as_slice(), self.endian);
        if u < 0x8000_0000_0000_0000_0000_0000_0000_0000 {
            Ok(u as i128)
        } else {
            Ok(((u - 0x8000_0000_0000_0000_0000_0000_0000_0000) as i128 + i128::MIN) as i128)
        }
    }

    /// Writes `data` on 16 bytes in the byte order in force.
    pub fn w_u128(&mut self, data: u128)
        requires
            old(self).wf(),
        ensures
            final(self)@ == old(self)@.w_uint(data as nat, 16),
            final(self).wf(),
    {
        let bytes = encode_uint(data as u128, 16, self.endian);
        self.write(bytes.as_slice());
    }

    /// Writes `data` in two's complement on 16 bytes in the byte order in force.
    pub fn w_s128(&mut self, data: i128)
        requires
            old(self).wf(),
        ensures
            final(self)@ == old(self)@.w_int(data as int, 16),
            final(self).wf(),
    {
        proof {
            lemma_pow256_widths();
        }
        let u: u128 = if data >= 0 {
            data as u128
        } else {
            (data - i128::MIN) as u128 + 0x8000_0000_0000_0000_0000_0000_0000_0000
        };
        let bytes = encode_uint(u, 16, self.endian);
        self.write(bytes.as_slice());
    }

    /// Reads the four bytes of a single-precision float and gives its bit
    /// pattern.
    pub fn r_float(&mut self) -> (res: Result<u32, Error>)
        requires
            old(self).wf(),
        ensures
            match res {
                Ok(v) => old(self)@.r_uint(4) == Ok::<(nat, Cursor), Fault>((v as nat, final(self)@)),
                Err(e) => old(self)@.r_uint(4) == Err::<(nat, Cursor), Fault>(e@) && final(self)@ == old(
                    self,
                )@,
            },
            final(self).wf(),
    {
        self.r_u32()
    }

    /// Writes the four bytes of the single-precision float whose bit pattern
    /// is `bits`.
    pub fn w_float(&mut self, bits: u32)
        requires
            old(self).wf(),
        ensures
            final(self)@ == old(self)@.w_uint(bits as nat, 4),
            final(self).wf(),
    {
        self.w_u32(bits);
    }

    /// Reads a 16-bit unsigned integer and passes over the two filler bytes
    /// behind it.
    pub fn r_u16_jps(&mut self) -> (res: Result<u16, Error>)
        requires
            old(self).wf(),
        ensures
            match res {
                Ok(v) => old(self)@.r_uint_jps() == Ok::<(nat, Cursor), Fault>((v as nat, final(self)@)),
                Err(e) => old(self)@.r_uint_jps() == Err::<(nat, Cursor), Fault>(e@) && final(self)@ == old(
                    self,
                )@,
            },
            final(self).wf(),
    {
        let start: usize = self.pos;
        let value = self.r_u16()?;
        match self.move_pos(2) {
            Ok(_) => Ok(value),
            Err(e) => {
                self.pos = start;
                Err(e)
            },
        }
    }

    /// Reads a 16-bit signed integer and passes over the two filler bytes
    /// behind it.
    pub fn r_s16_jps(&mut self) -> (res: Result<i16, Error>)
        requires
            old(self).wf(),
        ensures
            match res {
                Ok(v) => old(self)@.r_int_jps() == Ok::<(int, Cursor), Fault>((v as int, final(self)@)),
                Err(e) => old(self)@.r_int_jps() == Err::<(int, Cursor), Fault>(e@) && final(self)@ == old(
                    self,
                )@,
            },
            final(self).wf(),
    {
        let start: usize = self.pos;
        let value = self.r_s16()?;
        match self.move_pos(2) {
            Ok(_) => Ok(value),
            Err(e) => {
                self.pos = start;
                Err(e)
            },
        }
    }

    /// Writes a 16-bit unsigned integer and two filler bytes behind it:
    /// `0xCD` in mode 0, `0xFF` in mode 1.
    pub fn w_u16_jps(&mut self, data: u16, mode: i32)
        requires
            old(self).wf(),
            mode == 0 || mode == 1,
        ensures
            final(self)@ == old(self)@.write(
                uint_bytes(old(self).endian, data as nat, 2) + seq![jps_filler(mode), jps_filler(mode)],
            ),
            final(self).wf(),
    {
        let filler: u8 = if mode == 0 { 0xCD } else { 0xFF };
        let mut bytes = encode_uint(data as u128, 2, self.endian);
        bytes.push(filler);
        bytes.push(filler);
        assert(bytes@ =~= uint_bytes(self.endian, data as nat, 2) + seq![filler, filler]);
        self.write(bytes.as_slice());
    }

    /// Writes a 16-bit signed integer and two filler bytes behind it: `0xCD`
    /// in mode 0, `0xFF` in mode 1.
    pub fn w_s16_jps(&mut self, data: i16, mode: i32)
        requires
            old(self).wf(),
            mode == 0 || mode == 1,
        ensures
            final(self)@ == old(self)@.write(
                uint_bytes(old(self).endian, unsigned(data as int, 2), 2) + seq![
                    jps_filler(mode),
                    jps_filler(mode),
                ],
            ),
            final(self).wf(),
    {
        proof {
            lemma_pow256_widths();
        }
        let filler: u8 = if mode == 0 { 0xCD } else { 0xFF };
        let u: u128 = if data >= 0 { data as u128 } else { (data as i128 + 0x1_0000) as u128 };
        let mut bytes = encode_uint(u, 2, self.endian);
        bytes.push(filler);
        bytes.push(filler);
        assert(bytes@ =~= uint_bytes(self.endian, unsigned(data as int, 2), 2) + seq![filler, filler]);
        self.write(bytes.as_slice());
    }

    /// Reads a boolean: four bytes, true where all four are `0xFF`, false
    /// for anything else.
    pub fn r_bool(&mut self) -> (res: Result<bool, Error>)
        requires
            old(self).wf(),
        ensures
            match res {
                Ok(v) => old(self)@.r_bool() == Ok::<(bool, Cursor), Fault>((v, final(self)@)),
                Err(e) => old(self)@.r_bool() == Err::<(bool, Cursor), Fault>(e@) && final(self)@ == old(
                    self,
                )@,
            },
            final(self).wf(),
    {
        let bytes = self.read(4)?;
        let v: bool = bytes[0] == 255 && bytes[1] == 255 && bytes[2] == 255 && bytes[3] == 255;
        proof {
            if v {
                assert(bytes@ =~= bool_bytes(true));
            } else {
                assert(bool_bytes(true)[0] == 255 && bool_bytes(true)[1] == 255 && bool_bytes(true)[2] == 255
                    && bool_bytes(true)[3] == 255);
            }
        }
        Ok(v)
    }

    /// Writes a boolean: four bytes `0xFF` for true, four zero bytes for
    /// false.
    pub fn w_bool(&mut self, value: bool)
        requires
            old(self).wf(),
        ensures
            final(self)@ == old(self)@.write(bool_bytes(value)),
            final(self).wf(),
    {
        let num: u8 = if value { 255 } else { 0 };
        let buf: [u8; 4] = [num, num, num, num];
        assert(buf@ =~= bool_bytes(value));
        self.write(buf.as_slice());
    }

    /// A copy of the bytes from offset `from` up to `to`.
    fn copy_range(&self, from: usize, to: usize) -> (out: Vec<u8>)
        requires
            from <= to <= self.data@.len(),
        ensures
            out@ == self.data@.subrange(from as int, to as int),
    {
        let mut out: Vec<u8> = Vec::new();
        let mut i: usize = from;
        while i < to
            invariant
                from <= i <= to <= self.data@.len(),
                out@ == self.data@.subrange(from as int, i as int),
            decreases to - i,
        {
            out.push(self.data[i]);
            i += 1;
            assert(out@ =~= self.data@.subrange(from as int, i as int));
        }
        out
    }

    /// Reads `length` bytes of UTF-8 text.
    pub fn r_str(&mut self, length: usize) -> (res: Result<String, Error>)
        requires
            old(self).wf(),
        ensures
            match res {
                Ok(v) => old(self)@.r_str(length as int) == Ok::<(Seq<char>, Cursor), Fault>(
                    (v@, final(self)@),
                ),
                Err(e) => old(self)@.r_str(length as int) == Err::<(Seq<char>, Cursor), Fault>(e@)
                    && final(self)@ == old(self)@,
            },
            final(self).wf(),
    {
        let start: usize = self.pos;
        let bytes = self.read(length)?;
        match string_from_utf8(bytes) {
            Some(s) => Ok(s),
            None => {
                self.pos = start;
                Err(Error::BadEncoding)
            },
        }
    }

    /// Reads UTF-8 text up to a zero byte and passes over that byte.
    pub fn r_str_null(&mut self) -> (res: Result<String, Error>)
        requires
            old(self).wf(),
        ensures
            match res {
                Ok(v) => old(self)@.r_str_null() == Ok::<(Seq<char>, Cursor), Fault>((v@, final(self)@)),
                Err(e) => old(self)@.r_str_null() == Err::<(Seq<char>, Cursor), Fault>(e@) && final(self)@
                    == old(self)@,
            },
            final(self).wf(),
    {
        let start: usize = self.pos;
        let len: usize = self.data.len();
        let mut end: usize = start;
        while end < len && self.data[end] != 0
            invariant
                self@ == old(self)@,
                len == self.data@.len(),
                start == self.pos,
                start <= end <= len,
                first_nul(self.data@, start as int) == first_nul(self.data@, end as int),
            decreases len - end,
        {
            end += 1;
        }
        if end >= len {
            return Err(Error::UnexpectedEof { at: len, need: 1 });
        }
        let bytes = self.copy_range(start, end);
        match string_from_utf8(bytes) {
            Some(s) => {
                self.pos = end + 1;
                Ok(s)
            },
            None => Err(Error::BadEncoding),
        }
    }

    /// Reads a framed string: passes over the size byte and the length
    /// byte, reads the text up to its terminator and moves to the next
    /// multiple of 4.
    pub fn r_str_jps(&mut self) -> (res: Result<String, Error>)
        requires
            old(self).wf(),
        ensures
            match res {
                Ok(v) => old(self)@.r_str_jps() == Ok::<(Seq<char>, Cursor), Fault>((v@, final(self)@)),
                Err(e) => old(self)@.r_str_jps() == Err::<(Seq<char>, Cursor), Fault>(e@) && final(self)@
                    == old(self)@,
            },
            final(self).wf(),
    {
        let start: usize = self.pos;
        let _size = self.read_byte()?;
        match self.read_byte() {
            Ok(_) => {},
            Err(e) => {
                self.pos = start;
                return Err(e);
            },
        }
        let text = match self.r_str_null() {
            Ok(t) => t,
            Err(e) => {
                self.pos = start;
                return Err(e);
            },
        };
        match self.align(4) {
            Ok(_) => Ok(text),
            Err(e) => {
                self.pos = start;
                Err(e)
            },
        }
    }

    /// Reads the zero-terminated text that starts at `offset` and leaves the
    /// cursor where it stands.
    pub fn str_null_at(&mut self, offset: u128) -> (res: Result<String, Error>)
        requires
            old(self).wf(),
        ensures
            final(self)@ == old(self)@,
            match res {
                Ok(v) => old(self)@.str_null_at(offset as int) == Ok::<Seq<char>, Fault>(v@),
                Err(e) => old(self)@.str_null_at(offset as int) == Err::<Seq<char>, Fault>(e@),
            },
    {
        let len: usize = self.data.len();
        if offset > len as u128 {
            return Err(Error::UnexpectedEof { at: len, need: 1 });
        }
        let back: usize = self.pos;
        self.pos = offset as usize;
        let res = self.r_str_null();
        self.pos = back;
        res
    }

    /// Reads the framed string that starts at `offset` and leaves the cursor
    /// where it stands.
    pub fn str_jps_at(&mut self, offset: u128) -> (res: Result<String, Error>)
        requires
            old(self).wf(),
        ensures
            final(self)@ == old(self)@,
            match res {
                Ok(v) => old(self)@.str_jps_at(offset as int) == Ok::<Seq<char>, Fault>(v@),
                Err(e) => old(self)@.str_jps_at(offset as int) == Err::<Seq<char>, Fault>(e@),
            },
    {
        let len: usize = self.data.len();
        if offset > len as u128 {
            return Err(Error::UnexpectedEof { at: len, need: 1 });
        }
        let back: usize = self.pos;
        self.pos = offset as usize;
        let res = self.r_str_jps();
        self.pos = back;
        res
    }

    /// Reads the `length` bytes that start at `offset` and leaves the cursor
    /// where it stands.
    pub fn read_at(&self, offset: u128, length: usize) -> (res: Result<Vec<u8>, Error>)
        ensures
            match res {
                Ok(v) => self@.read_at(offset as int, length as int) == Ok::<Seq<u8>, Fault>(v@),
                Err(e) => self@.read_at(offset as int, length as int) == Err::<Seq<u8>, Fault>(e@),
            },
    {
        let len: usize = self.data.len();
        if offset > len as u128 {
            return Err(Error::UnexpectedEof { at: len, need: length });
        }
        let from: usize = offset as usize;
        if length > len - from {
            return Err(Error::UnexpectedEof { at: from, need: length });
        }
        Ok(self.copy_range(from, from + length))
    }

    /// Reads a 32-bit unsigned integer at `offset` and leaves the cursor
    /// behind it. An offset from which four bytes cannot be read fails and
    /// leaves the cursor where it stands.
    pub fn r_u32_at(&mut self, offset: u32) -> (res: Result<u32, Error>)
        requires
            old(self).wf(),
        ensures
            final(self).wf(),
            final(self)@.same_buffer(old(self)@),
            match res {
                Ok(v) => old(self)@.jump(offset as int).r_uint(4) == Ok::<(nat, Cursor), Fault>(
                    (v as nat, final(self)@),
                ),
                Err(e) => old(self)@.jump(offset as int).r_uint(4) == Err::<(nat, Cursor), Fault>(e@)
                    && final(self)@ == old(self)@,
            },
    {
        let len: usize = self.data.len();
        if offset as u128 > len as u128 {
            return Err(Error::UnexpectedEof { at: offset as usize, need: 4 });
        }
        let back: usize = self.pos;
        self.pos = offset as usize;
        match self.r_u32() {
            Ok(v) => Ok(v),
            Err(e) => {
                self.pos = back;
                Err(e)
            },
        }
    }

    /// Places the cursor at `offset`, which must lie inside the buffer or at
    /// its end; the buffer is never lengthened.
    pub fn goto(&mut self, offset: u64) -> (res: Result<(), Error>)
        requires
            old(self).wf(),
        ensures
            final(self).wf(),
            match res {
                Ok(_) => old(self)@.goto(offset as int) == Ok::<Cursor, Fault>(final(self)@),
                Err(e) => old(self)@.goto(offset as int) == Err::<Cursor, Fault>(e@) && final(self)@ == old(
                    self,
                )@,
            },
    {
        if offset as u128 > self.data.len() as u128 {
            return Err(Error::BadPosition { requested: offset as i128 });
        }
        self.pos = offset as usize;
        Ok(())
    }

    /// Writes the UTF-8 bytes of `text`.
    pub fn w_str(&mut self, text: &str)
        requires
            old(self).wf(),
        ensures
            final(self)@ == old(self)@.w_str(text@),
            final(self).wf(),
    {
        self.write(text.as_bytes());
    }

    /// Writes the UTF-8 bytes of `text` and a zero byte behind them.
    pub fn w_str_null(&mut self, text: &str)
        requires
            old(self).wf(),
        ensures
            final(self)@ == old(self)@.w_str_null(text@),
            final(self).wf(),
    {
        let mut bytes = text.as_bytes_vec();
        bytes.push(0);
        assert(bytes@ =~= encode_utf8(text@) + seq![0u8]);
        self.write(bytes.as_slice());
    }

    /// Writes `text` as a framed string: size byte, length byte, the text,
    /// a terminator and zero padding up to the size.
    pub fn w_str_jps(&mut self, text: &str)
        requires
            old(self).wf(),
        ensures
            final(self)@ == old(self)@.w_str_jps(text@),
            final(self).wf(),
    {
        let bytes = jps_frame(text);
        self.write(bytes.as_slice());
    }
}

/// The frame of a string has the length that its size byte counts, a
/// multiple of 4.
pub proof fn lemma_jps_bytes_len(text: Seq<u8>)
    ensures
        jps_bytes(text).len() == jps_size(text.len() as int),
        jps_bytes(text).len() % 4 == 0,
        text.len() + 3 <= jps_bytes(text).len() <= text.len() + 6,
{
}

/// The frame of `text`: size byte, length byte, the text, a terminator and
/// zero padding.
pub fn jps_frame(text: &str) -> (out: Vec<u8>)
    ensures
        out@ == jps_bytes(encode_utf8(text@)),
{
    let raw = text.as_bytes();
    let mut out: Vec<u8> = Vec::new();
    out.push(0);
    out.push(0);
    append_bytes(&mut out, raw);
    out.push(0);
    let n: usize = out.len() - 3;
    let rem: usize = (n + 3) % 4;
    let padding: usize = if n == 0 { 1 } else if rem == 0 { 0 } else { 4 - rem };
    let ghost base = out@;
    let mut i: usize = 0;
    while i < padding
        invariant
            i <= padding,
            out@ == base + zeros(i as int),
        decreases padding - i,
    {
        out.push(0);
        i += 1;
        assert(out@ =~= base + zeros(i as int));
    }
    let size: usize = out.len();
    let text_length: usize = if n > 0 { n + 1 } else { 0 };
    out.set(0, (size % 256) as u8);
    out.set(1, (text_length % 256) as u8);
    assert(out@ =~= jps_bytes(encode_utf8(text@)));
    out
}

} // verus!
