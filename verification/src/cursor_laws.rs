use vstd::prelude::*;
use vstd::utf8::*;
use crate::byte_order::{lemma_signed_round_trip, lemma_uint_round_trip, pow256, uint_bytes, unsigned};
use crate::file_manipulator::{first_nul, jps_bytes, jps_size, lemma_jps_bytes_len, Cursor};

verus! {

broadcast use {encode_utf8_decode_utf8, encode_utf8_valid_utf8};

/// Bytes that were written are read back: after a write of `b`, a move
/// back by its length and a read of that many bytes, the bytes read are
/// `b` and the cursor stands where it stood after the write. This holds in
/// both write modes.
pub proof fn write_then_read_gives_back(c: Cursor, b: Seq<u8>)
    requires
        c.wf(),
    ensures
        c.write(b).wf(),
        c.write(b).move_pos(-(b.len() as int)) matches Ok(c1) && c1.read(b.len() as int) matches Ok((v, c2))
            && v == b && c2 == c.write(b),
{
    let w = c.write(b);
    let c1 = w.skip(-(b.len() as int));
    assert(c1.peek(b.len() as int) =~= b);
}

/// Where no byte from `from` up to `to` is zero and the byte at `to` is,
/// the first zero byte from `from` on stands at `to`.
pub proof fn lemma_first_nul(data: Seq<u8>, from: int, to: int)
    requires
        0 <= from <= to < data.len(),
        data[to] == 0,
        forall|i: int| from <= i < to ==> data[i] != 0,
    ensures
        first_nul(data, from) == to,
    decreases to - from,
{
    if from < to {
        lemma_first_nul(data, from + 1, to);
    }
}

/// A framed string that was written is read back: after a write of the
/// frame of `s` at a cursor on a multiple of 4 and a seek back to where the
/// frame starts, reading a framed string gives `s` and leaves the cursor
/// behind the frame, on a multiple of 4. The text must not encode to a
/// zero byte, which would end it early.
pub proof fn framed_string_round_trip(c: Cursor, s: Seq<char>)
    requires
        c.wf(),
        c.pos % 4 == 0,
        !encode_utf8(s).contains(0u8),
    ensures
        c.w_str_jps(s).seek(c.pos).r_str_jps() matches Ok((t, c2)) && t == s && c2.pos % 4 == 0 && c2.pos
            == c.pos + jps_size(encode_utf8(s).len() as int) && c2.same_buffer(c.w_str_jps(s)),
{
    let text = encode_utf8(s);
    let n = text.len() as int;
    let frame = jps_bytes(text);
    lemma_jps_bytes_len(text);
    let w = c.w_str_jps(s);
    let r0 = w.seek(c.pos);
    assert(r0.data =~= w.data);
    assert(r0.data.subrange(c.pos, c.pos + frame.len()) =~= frame);
    let c1 = r0.skip(1);
    let c2 = c1.skip(1);
    assert forall|i: int| c.pos + 2 <= i < c.pos + 2 + n implies r0.data[i] != 0 by {
        assert(r0.data[i] == frame[i - c.pos]);
        assert(frame[i - c.pos] == text[i - c.pos - 2]);
        assert(text.contains(text[i - c.pos - 2]));
    }
    assert(r0.data[c.pos + 2 + n] == frame[2 + n]);
    lemma_first_nul(r0.data, c.pos + 2, c.pos + 2 + n);
    assert(r0.data.subrange(c.pos + 2, c.pos + 2 + n) =~= text);
}

/// A number that was written is read back: after a write of `v` on `n`
/// bytes and a seek back to where it starts, reading `n` bytes in the same
/// byte order gives `v`, for every `v` that `n` bytes hold.
pub proof fn number_round_trip(c: Cursor, v: nat, n: nat)
    requires
        c.wf(),
        v < pow256(n),
    ensures
        c.w_uint(v, n).seek(c.pos).r_uint(n as int) matches Ok((r, c2)) && r == v && c2.pos == c.pos + n,
{
    let bytes = uint_bytes(c.endian, v, n);
    lemma_uint_round_trip(c.endian, v, n);
    let w = c.write(bytes);
    let r0 = w.seek(c.pos);
    assert(r0.data =~= w.data);
    assert(r0.peek(n as int) =~= bytes);
}

/// A signed number that was written is read back: after a write of `i` in
/// two's complement on `n` bytes and a seek back to where it starts,
/// reading `n` bytes in the same byte order gives `i`, for every `i` that
/// `n` bytes hold.
pub proof fn signed_number_round_trip(c: Cursor, i: int, n: nat)
    requires
        c.wf(),
        n > 0,
        -(pow256(n) as int) <= 2 * i < pow256(n),
    ensures
        c.w_int(i, n).seek(c.pos).r_int(n as int) matches Ok((r, c2)) && r == i && c2.pos == c.pos + n,
{
    lemma_signed_round_trip(i, n);
    let u = unsigned(i, n);
    let bytes = uint_bytes(c.endian, u, n);
    lemma_uint_round_trip(c.endian, u, n);
    let w = c.write(bytes);
    let r0 = w.seek(c.pos);
    assert(r0.data =~= w.data);
    assert(r0.peek(n as int) =~= bytes);
}

} // verus!
