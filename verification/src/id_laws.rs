use vstd::prelude::*;
use vstd::arithmetic::div_mod::lemma_div_denominator;
use crate::error::Fault;
use crate::scene_id::{
    digit,
    hex_digit_char,
    hex_digit_value,
    hex_len,
    id_limit,
    id_of_text,
    lemma_pow16_positive,
    pair_text,
    pow16,
    scan_id,
    short_id_text,
    text_width,
    without_leader,
    IdScan,
};

verus! {

/// The number that the first `k` pairs of the 16-pair text of `id` spell.
pub open spec fn prefix_value(id: nat, k: int) -> nat {
    id / pow16((32 - 2 * k) as nat)
}

/// A number below 16 to the power `n` has at most `n` digits.
pub proof fn lemma_hex_len_bound(v: nat, n: nat)
    requires
        n >= 1,
        v < pow16(n),
    ensures
        hex_len(v) <= n,
    decreases n,
{
    reveal_with_fuel(pow16, 2);
    if v >= 16 {
        assert(pow16(n) == 16 * pow16((n - 1) as nat));
        lemma_hex_len_bound(v / 16, (n - 1) as nat);
    }
}

/// The character of a digit has the digit as its value, is no comma, and
/// is `'0'` for zero only.
pub proof fn lemma_digit_chars(d: nat)
    requires
        d < 16,
    ensures
        hex_digit_value(hex_digit_char(d)) == Some(d),
        hex_digit_char(d) != ',',
        (hex_digit_char(d) == '0') == (d == 0),
{
}

/// Reading one more digit of a part.
pub proof fn lemma_scan_push_digit(t: Seq<char>, s: IdScan, d: nat)
    requires
        scan_id(t) == Ok::<IdScan, Fault>(s),
        d < 16,
        s.len < 2,
    ensures
        scan_id(t.push(hex_digit_char(d))) == Ok::<IdScan, Fault>(
            IdScan { acc: s.acc, cur: s.cur * 16 + d, len: s.len + 1 },
        ),
{
    lemma_digit_chars(d);
    assert(t.push(hex_digit_char(d)).drop_last() =~= t);
}

/// Reading the comma behind a part.
pub proof fn lemma_scan_push_comma(t: Seq<char>, s: IdScan)
    requires
        scan_id(t) == Ok::<IdScan, Fault>(s),
        s.acc * 256 + s.cur < id_limit(),
    ensures
        scan_id(t.push(',')) == Ok::<IdScan, Fault>(IdScan { acc: s.acc * 256 + s.cur, cur: 0, len: 0 }),
{
    assert(t.push(',').drop_last() =~= t);
}

/// The two digits of pair `k` carry the number of the first `k` pairs on to
/// that of the first `k + 1`.
pub proof fn lemma_pair_step(id: nat, k: int)
    requires
        0 <= k < 16,
    ensures
        digit(id, 31 - 2 * k) < 16,
        digit(id, 30 - 2 * k) < 16,
        prefix_value(id, k) * 256 + 16 * digit(id, 31 - 2 * k) + digit(id, 30 - 2 * k) == prefix_value(
            id,
            k + 1,
        ),
        prefix_value(id, k + 1) <= id,
{
    let e = (30 - 2 * k) as nat;
    let p = pow16(e);
    lemma_pow16_positive(e);
    reveal_with_fuel(pow16, 3);
    assert(pow16(e + 1) == 16 * p);
    assert(pow16(e + 2) == 256 * p);
    lemma_div_denominator(id as int, p as int, 16);
    lemma_div_denominator(id as int, p as int, 256);
    assert(p * 16 == 16 * p && p * 256 == 256 * p);
    let q = id / p;
    assert(q <= id) by (nonlinear_arith)
        requires
            q == id / p,
            p >= 1,
    ;
    assert((32 - 2 * k) as nat == e + 2);
    assert((31 - 2 * k) as nat == e + 1);
    assert(prefix_value(id, k) == q / 256);
    assert(digit(id, 31 - 2 * k) == (q / 16) % 16);
    assert(digit(id, 30 - 2 * k) == q % 16);
}

/// The text of an identifier that 128 bits hold has 32 digits on 16 pairs,
/// and nothing stands before its first pair.
pub proof fn lemma_width(id: nat)
    requires
        id < id_limit(),
    ensures
        text_width(id, 16) == 32,
        prefix_value(id, 0) == 0,
{
    reveal_with_fuel(pow16, 33);
    assert(pow16(32) == id_limit());
    lemma_hex_len_bound(id, 32);
    let p = pow16(32);
    assert(id / p == 0) by (nonlinear_arith)
        requires
            id < p,
    ;
    assert((32 - 2 * 0) as nat == 32);
}

/// After the first `k` pairs of the short text of `id`, the reader holds
/// the number of the pairs before the last as finished and the last pair
/// as the part under way.
pub proof fn lemma_scan_short_text(id: nat, k: nat)
    requires
        id < id_limit(),
        1 <= k <= 16,
    ensures
        scan_id(short_id_text(id, 16, k)) matches Ok(s) && s.acc == prefix_value(id, k - 1) && s.acc * 256
            + s.cur == prefix_value(id, k as int),
    decreases k,
{
    lemma_width(id);
    let i = k - 1;
    let hi = digit(id, 31 - 2 * i);
    let lo = digit(id, 30 - 2 * i);
    lemma_pair_step(id, i);
    lemma_digit_chars(hi);
    lemma_digit_chars(lo);
    let pair = pair_text(id, 16, i);
    assert(pair =~= seq![hex_digit_char(hi), hex_digit_char(lo)]);
    let before: Seq<char> = if k == 1 {
        Seq::<char>::empty()
    } else {
        short_id_text(id, 16, (k - 1) as nat).push(',')
    };
    let s0 = IdScan { acc: prefix_value(id, i), cur: 0, len: 0 };
    if k == 1 {
    } else {
        lemma_scan_short_text(id, (k - 1) as nat);
        lemma_pair_step(id, i - 1);
        let prev = scan_id(short_id_text(id, 16, (k - 1) as nat))->Ok_0;
        lemma_scan_push_comma(short_id_text(id, 16, (k - 1) as nat), prev);
    }
    assert(scan_id(before) == Ok::<IdScan, Fault>(s0));
    if hi == 0 {
        assert(without_leader(pair) =~= seq![hex_digit_char(lo)]);
        lemma_scan_push_digit(before, s0, lo);
        assert(short_id_text(id, 16, k) =~= before.push(hex_digit_char(lo)));
    } else {
        assert(without_leader(pair) =~= pair);
        lemma_scan_push_digit(before, s0, hi);
        let s1 = IdScan { acc: s0.acc, cur: hi, len: 1 };
        lemma_scan_push_digit(before.push(hex_digit_char(hi)), s1, lo);
        assert(short_id_text(id, 16, k) =~= before.push(hex_digit_char(hi)).push(hex_digit_char(lo)));
    }
}

/// An identifier survives its text: the identifier that the short text of
/// `id` on 16 byte pairs spells is `id`, for every `id` that 128 bits hold.
pub proof fn id_text_round_trip(id: nat)
    requires
        id < id_limit(),
    ensures
        id_of_text(short_id_text(id, 16, 16)) == Ok::<nat, Fault>(id),
{
    lemma_scan_short_text(id, 16);
    assert(pow16(0) == 1);
    assert((32 - 2 * 16) as nat == 0);
    assert(id / 1 == id);
    assert(prefix_value(id, 16) == id);
}

} // verus!
