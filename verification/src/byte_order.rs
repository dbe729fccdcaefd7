use vstd::prelude::*;
use crate::file_manipulator::EndianType;
use crate::text::reversed;

verus! {

/// 256 to the power `n`: the number of values that `n` bytes can hold.
pub open spec fn pow256(n: nat) -> nat
    decreases n,
{
    if n == 0 {
        1
    } else {
        256 * pow256((n - 1) as nat)
    }
}

/// The number that `bytes` spell with the least significant byte first.
pub open spec fn le_value(bytes: Seq<u8>) -> nat
    decreases bytes.len(),
{
    if bytes.len() == 0 {
        0
    } else {
        bytes[0] as nat + 256 * le_value(bytes.drop_first())
    }
}

/// The number that `bytes` spell in the given byte order.
pub open spec fn uint_value(endian: EndianType, bytes: Seq<u8>) -> nat {
    match endian {
        EndianType::LITTLE => le_value(bytes),
        EndianType::BIG => le_value(bytes.reverse()),
    }
}

/// The `n` low bytes of `v`, least significant first.
pub open spec fn le_bytes(v: nat, n: nat) -> Seq<u8>
    decreases n,
{
    if n == 0 {
        Seq::<u8>::empty()
    } else {
        seq![(v % 256) as u8] + le_bytes(v / 256, (n - 1) as nat)
    }
}

/// The `n` low bytes of `v` in the given byte order.
pub open spec fn uint_bytes(endian: EndianType, v: nat, n: nat) -> Seq<u8> {
    match endian {
        EndianType::LITTLE => le_bytes(v, n),
        EndianType::BIG => le_bytes(v, n).reverse(),
    }
}

/// The two's-complement reading of an `n`-byte number.
pub open spec fn signed(u: nat, n: nat) -> int {
    if 2 * u < pow256(n) {
        u as int
    } else {
        u - pow256(n)
    }
}

/// The `n`-byte number whose two's-complement reading is `i`.
pub open spec fn unsigned(i: int, n: nat) -> nat {
    if i >= 0 {
        i as nat
    } else {
        (i + pow256(n)) as nat
    }
}

/// The powers of 256 at the widths of the integer types.
pub proof fn lemma_pow256_widths()
    ensures
        pow256(0) == 1,
        pow256(1) == 0x100,
        pow256(2) == 0x1_0000,
        pow256(4) == 0x1_0000_0000,
        pow256(8) == 0x1_0000_0000_0000_0000,
        pow256(16) == 0x1_0000_0000_0000_0000_0000_0000_0000_0000,
{
    reveal_with_fuel(pow256, 17);
}

/// Powers of 256 grow with the exponent.
pub proof fn lemma_pow256_monotone(a: nat, b: nat)
    requires
        a <= b,
    ensures
        0 < pow256(a) <= pow256(b),
    decreases b,
{
    if b > 0 {
        if a < b {
            lemma_pow256_monotone(a, (b - 1) as nat);
        } else {
            lemma_pow256_monotone((a - 1) as nat, (b - 1) as nat);
        }
    }
}

/// `le_bytes` gives `n` bytes.
pub proof fn lemma_le_bytes_len(v: nat, n: nat)
    ensures
        le_bytes(v, n).len() == n,
    decreases n,
{
    if n > 0 {
        lemma_le_bytes_len(v / 256, (n - 1) as nat);
    }
}

/// `uint_bytes` gives `n` bytes.
pub proof fn lemma_uint_bytes_len(endian: EndianType, v: nat, n: nat)
    ensures
        uint_bytes(endian, v, n).len() == n,
{
    lemma_le_bytes_len(v, n);
}

/// Reading back the `n` bytes written for a number below 256 to the power
/// `n` gives the number.
pub proof fn lemma_le_round_trip(v: nat, n: nat)
    requires
        v < pow256(n),
    ensures
        le_value(le_bytes(v, n)) == v,
    decreases n,
{
    if n > 0 {
        let rest = le_bytes(v / 256, (n - 1) as nat);
        let all = le_bytes(v, n);
        assert(all.drop_first() =~= rest);
        assert(v / 256 < pow256((n - 1) as nat)) by {
            assert(v < 256 * pow256((n - 1) as nat));
        }
        lemma_le_round_trip(v / 256, (n - 1) as nat);
    }
}

/// Reversing twice gives the sequence back.
pub proof fn lemma_reverse_twice(s: Seq<u8>)
    ensures
        s.reverse().reverse() == s,
{
    assert(s.reverse().reverse() =~= s);
}

/// A number below 256 to the power `n`, written in either byte order on `n`
/// bytes and read back in the same order, is unchanged.
pub proof fn lemma_uint_round_trip(endian: EndianType, v: nat, n: nat)
    requires
        v < pow256(n),
    ensures
        uint_value(endian, uint_bytes(endian, v, n)) == v,
        uint_bytes(endian, v, n).len() == n,
{
    lemma_le_round_trip(v, n);
    lemma_le_bytes_len(v, n);
    lemma_reverse_twice(le_bytes(v, n));
}

/// A signed number that fits `n` bytes survives the change to its unsigned
/// form and back.
pub proof fn lemma_signed_round_trip(i: int, n: nat)
    requires
        n > 0,
        -(pow256(n) as int) <= 2 * i < pow256(n),
    ensures
        unsigned(i, n) < pow256(n),
        signed(unsigned(i, n), n) == i,
{
}

/// The number that `bytes` spell in the given byte order.
pub fn decode_uint(bytes: &[u8], endian: EndianType) -> (v: u128)
    requires
        bytes@.len() <= 16,
    ensures
        v == uint_value(endian, bytes@),
        v < pow256(bytes@.len()),
{
    let n: usize = bytes.len();
    let ghost s = match endian {
        EndianType::LITTLE => bytes@,
        EndianType::BIG => bytes@.reverse(),
    };
    let mut acc: u128 = 0;
    let mut i: usize = 0;
    proof {
        lemma_pow256_widths();
        assert(s.subrange(n as int, n as int) =~= Seq::<u8>::empty());
    }
    while i < n
        invariant
            n == bytes@.len(),
            n <= 16,
            i <= n,
            s.len() == n,
            s == (match endian {
                EndianType::LITTLE => bytes@,
                EndianType::BIG => bytes@.reverse(),
            }),
            acc == le_value(s.subrange(n - i, n as int)),
            acc < pow256(i as nat),
        decreases n - i,
    {
        let idx: usize = match endian {
            EndianType::BIG => i,
            EndianType::LITTLE => n - 1 - i,
        };
        let b: u8 = bytes[idx];
        proof {
            let sub = s.subrange(n - i - 1, n as int);
            assert(sub.drop_first() =~= s.subrange(n - i, n as int));
            assert(sub[0] == b);
            lemma_pow256_monotone((i + 1) as nat, 16);
            lemma_pow256_widths();
            assert(pow256((i + 1) as nat) == 256 * pow256(i as nat));
        }
        acc = acc * 256 + b as u128;
        i += 1;
    }
    assert(s.subrange(0, n as int) =~= s);
    acc
}

/// The `n` low bytes of `v` in the given byte order.
pub fn encode_uint(v: u128, n: usize, endian: EndianType) -> (out: Vec<u8>)
    ensures
        out@ == uint_bytes(endian, v as nat, n as nat),
        out@.len() == n,
{
    let mut le: Vec<u8> = Vec::new();
    let mut cur: u128 = v;
    let mut i: usize = 0;
    while i < n
        invariant
            i <= n,
            le@.len() == i,
            le@ + le_bytes(cur as nat, (n - i) as nat) == le_bytes(v as nat, n as nat),
        decreases n - i,
    {
        let ghost before = le@;
        le.push((cur % 256) as u8);
        proof {
            assert(le_bytes(cur as nat, (n - i) as nat) == seq![(cur % 256) as u8] + le_bytes(
                (cur / 256) as nat,
                (n - i - 1) as nat,
            ));
            assert(le@ + le_bytes((cur / 256) as nat, (n - i - 1) as nat) =~= before + le_bytes(
                cur as nat,
                (n - i) as nat,
            ));
        }
        cur = cur / 256;
        i += 1;
    }
    assert(le@ =~= le_bytes(v as nat, n as nat));
    match endian {
        EndianType::LITTLE => le,
        EndianType::BIG => reversed(&le),
    }
}

} // verus!
