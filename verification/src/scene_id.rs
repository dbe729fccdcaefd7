use vstd::prelude::*;
use vstd::string::*;
use vstd::arithmetic::div_mod::lemma_div_denominator;
use crate::error::{Error, Fault};

verus! {

/// A 128-bit identifier.
#[derive(Debug, Clone, Copy, PartialEq, Eq, Structural)]
pub struct ID {
    pub id: u128,
}

impl DeepView for ID {
    type V = ID;

    open spec fn deep_view(&self) -> ID {
        *self
    }
}

/// 16 to the power `n`.
pub open spec fn pow16(n: nat) -> nat
    decreases n,
{
    if n == 0 {
        1
    } else {
        16 * pow16((n - 1) as nat)
    }
}

/// The number of hexadecimal digits of `v`, one for zero.
pub open spec fn hex_len(v: nat) -> nat
    decreases v,
{
    if v < 16 {
        1
    } else {
        1 + hex_len(v / 16)
    }
}

/// The hexadecimal digit of `id` at place `k`, counted from the least
/// significant.
pub open spec fn digit(id: nat, k: int) -> nat {
    if k < 0 {
        0
    } else {
        (id / pow16(k as nat)) % 16
    }
}

/// The lower-case character of a hexadecimal digit.
pub open spec fn hex_digit_char(d: nat) -> char {
    if d == 0 {
        '0'
    } else if d == 1 {
        '1'
    } else if d == 2 {
        '2'
    } else if d == 3 {
        '3'
    } else if d == 4 {
        '4'
    } else if d == 5 {
        '5'
    } else if d == 6 {
        '6'
    } else if d == 7 {
        '7'
    } else if d == 8 {
        '8'
    } else if d == 9 {
        '9'
    } else if d == 10 {
        'a'
    } else if d == 11 {
        'b'
    } else if d == 12 {
        'c'
    } else if d == 13 {
        'd'
    } else if d == 14 {
        'e'
    } else {
        'f'
    }
}

/// The value of a hexadecimal digit in either case.
pub open spec fn hex_digit_value(c: char) -> Option<nat> {
    if c == '0' {
        Some(0nat)
    } else if c == '1' {
        Some(1nat)
    } else if c == '2' {
        Some(2nat)
    } else if c == '3' {
        Some(3nat)
    } else if c == '4' {
        Some(4nat)
    } else if c == '5' {
        Some(5nat)
    } else if c == '6' {
        Some(6nat)
    } else if c == '7' {
        Some(7nat)
    } else if c == '8' {
        Some(8nat)
    } else if c == '9' {
        Some(9nat)
    } else if c == 'a' || c == 'A' {
        Some(10nat)
    } else if c == 'b' || c == 'B' {
        Some(11nat)
    } else if c == 'c' || c == 'C' {
        Some(12nat)
    } else if c == 'd' || c == 'D' {
        Some(13nat)
    } else if c == 'e' || c == 'E' {
        Some(14nat)
    } else if c == 'f' || c == 'F' {
        Some(15nat)
    } else {
        None
    }
}

/// The number of digits of the text of `id` on `num_bytes` byte pairs: two
/// for each pair, or the digits of `id` where it has more.
pub open spec fn text_width(id: nat, num_bytes: nat) -> nat {
    if hex_len(id) > 2 * num_bytes {
        hex_len(id)
    } else {
        2 * num_bytes
    }
}

/// Pair `i` of the text of `id`, counted from the most significant: two
/// digits.
pub open spec fn pair_text(id: nat, num_bytes: nat, i: int) -> Seq<char> {
    let w = text_width(id, num_bytes) as int;
    seq![hex_digit_char(digit(id, w - 1 - 2 * i)), hex_digit_char(digit(id, w - 2 - 2 * i))]
}

/// A pair without its leading zero.
pub open spec fn without_leader(pair: Seq<char>) -> Seq<char> {
    if pair.len() > 0 && pair[0] == '0' {
        pair.subrange(1, pair.len() as int)
    } else {
        pair
    }
}

/// The first `count` pairs of the text of `id`, with commas between them.
pub open spec fn id_text(id: nat, num_bytes: nat, count: nat) -> Seq<char>
    decreases count,
{
    if count == 0 {
        Seq::<char>::empty()
    } else if count == 1 {
        pair_text(id, num_bytes, 0)
    } else {
        id_text(id, num_bytes, (count - 1) as nat) + seq![','] + pair_text(id, num_bytes, count - 1)
    }
}

/// The first `count` pairs of the text of `id`, each without its leading
/// zero, with commas between them.
pub open spec fn short_id_text(id: nat, num_bytes: nat, count: nat) -> Seq<char>
    decreases count,
{
    if count == 0 {
        Seq::<char>::empty()
    } else if count == 1 {
        without_leader(pair_text(id, num_bytes, 0))
    } else {
        short_id_text(id, num_bytes, (count - 1) as nat) + seq![','] + without_leader(
            pair_text(id, num_bytes, count - 1),
        )
    }
}

/// What is known of an identifier while its text is read: the number that
/// the finished parts spell, the number that the part under way spells,
/// and how many digits that part has.
pub struct IdScan {
    pub acc: nat,
    pub cur: nat,
    pub len: nat,
}

/// The smallest number that 128 bits cannot hold.
pub open spec fn id_limit() -> nat {
    (u128::MAX as nat) + 1
}

/// The text of an identifier read from the left: parts of at most two
/// hexadecimal digits in either case, with commas between them; each part
/// is one digit of a number in base 256, the first the most significant.
/// An empty part counts as zero. Another character or a third digit is
/// refused as bad encoding; a number that 128 bits cannot hold, as an
/// overflow.
pub open spec fn scan_id(text: Seq<char>) -> Result<IdScan, Fault>
    decreases text.len(),
{
    if text.len() == 0 {
        Ok(IdScan { acc: 0, cur: 0, len: 0 })
    } else {
        match scan_id(text.drop_last()) {
            Err(e) => Err(e),
            Ok(s) => if text.last() == ',' {
                if s.acc * 256 + s.cur >= id_limit() {
                    Err(Fault::IdOverflow)
                } else {
                    Ok(IdScan { acc: s.acc * 256 + s.cur, cur: 0, len: 0 })
                }
            } else {
                match hex_digit_value(text.last()) {
                    None => Err(Fault::BadEncoding),
                    Some(d) => if s.len >= 2 {
                        Err(Fault::BadEncoding)
                    } else {
                        Ok(IdScan { acc: s.acc, cur: s.cur * 16 + d, len: s.len + 1 })
                    },
                }
            },
        }
    }
}

/// The identifier that a text spells.
pub open spec fn id_of_text(text: Seq<char>) -> Result<nat, Fault> {
    match scan_id(text) {
        Err(e) => Err(e),
        Ok(s) => if s.acc * 256 + s.cur >= id_limit() {
            Err(Fault::IdOverflow)
        } else {
            Ok(s.acc * 256 + s.cur)
        },
    }
}

/// A failure on a part of a text is the failure on the whole text.
pub proof fn lemma_scan_id_fails(text: Seq<char>, k: int)
    requires
        0 <= k <= text.len(),
        scan_id(text.subrange(0, k)) is Err,
    ensures
        scan_id(text) == scan_id(text.subrange(0, k)),
    decreases text.len() - k,
{
    if k < text.len() {
        assert(text.subrange(0, k + 1).drop_last() =~= text.subrange(0, k));
        lemma_scan_id_fails(text, k + 1);
    } else {
        assert(text.subrange(0, k) =~= text);
    }
}

/// Appends the lower-case character of a hexadecimal digit.
fn push_hex(s: &mut String, d: u8)
    requires
        d < 16,
    ensures
        final(s)@ == old(s)@.push(hex_digit_char(d as nat)),
{
    match d {
        0 => {
            proof {
                reveal_strlit("0");
                assert("0"@ =~= seq!['0']);
            }
            s.append("0");
        },
        1 => {
            proof {
                reveal_strlit("1");
                assert("1"@ =~= seq!['1']);
            }
            s.append("1");
        },
        2 => {
            proof {
                reveal_strlit("2");
                assert("2"@ =~= seq!['2']);
            }
            s.append("2");
        },
        3 => {
            proof {
                reveal_strlit("3");
                assert("3"@ =~= seq!['3']);
            }
            s.append("3");
        },
        4 => {
            proof {
                reveal_strlit("4");
                assert("4"@ =~= seq!['4']);
            }
            s.append("4");
        },
        5 => {
            proof {
                reveal_strlit("5");
                assert("5"@ =~= seq!['5']);
            }
            s.append("5");
        },
        6 => {
            proof {
                reveal_strlit("6");
                assert("6"@ =~= seq!['6']);
            }
            s.append("6");
        },
        7 => {
            proof {
                reveal_strlit("7");
                assert("7"@ =~= seq!['7']);
            }
            s.append("7");
        },
        8 => {
            proof {
                reveal_strlit("8");
                assert("8"@ =~= seq!['8']);
            }
            s.append("8");
        },
        9 => {
            proof {
                reveal_strlit("9");
                assert("9"@ =~= seq!['9']);
            }
            s.append("9");
        },
        10 => {
            proof {
                reveal_strlit("a");
                assert("a"@ =~= seq!['a']);
            }
            s.append("a");
        },
        11 => {
            proof {
                reveal_strlit("b");
                assert("b"@ =~= seq!['b']);
            }
            s.append("b");
        },
        12 => {
            proof {
                reveal_strlit("c");
                assert("c"@ =~= seq!['c']);
            }
            s.append("c");
        },
        13 => {
            proof {
                reveal_strlit("d");
                assert("d"@ =~= seq!['d']);
            }
            s.append("d");
        },
        14 => {
            proof {
                reveal_strlit("e");
                assert("e"@ =~= seq!['e']);
            }
            s.append("e");
        },
        _ => {
            proof {
                reveal_strlit("f");
                assert("f"@ =~= seq!['f']);
            }
            s.append("f");
        },
    }
    assert(s@ =~= old(s)@.push(hex_digit_char(d as nat)));
}

/// The value of a hexadecimal digit in either case.
fn hex_value(c: char) -> (r: Option<u8>)
    ensures
        match r {
            Some(d) => hex_digit_value(c) == Some(d as nat) && d < 16,
            None => hex_digit_value(c) is None,
        },
{
    if c == '0' {
        Some(0)
    } else if c == '1' {
        Some(1)
    } else if c == '2' {
        Some(2)
    } else if c == '3' {
        Some(3)
    } else if c == '4' {
        Some(4)
    } else if c == '5' {
        Some(5)
    } else if c == '6' {
        Some(6)
    } else if c == '7' {
        Some(7)
    } else if c == '8' {
        Some(8)
    } else if c == '9' {
        Some(9)
    } else if c == 'a' || c == 'A' {
        Some(10)
    } else if c == 'b' || c == 'B' {
        Some(11)
    } else if c == 'c' || c == 'C' {
        Some(12)
    } else if c == 'd' || c == 'D' {
        Some(13)
    } else if c == 'e' || c == 'E' {
        Some(14)
    } else if c == 'f' || c == 'F' {
        Some(15)
    } else {
        None
    }
}

impl ID {
    pub fn new(id: u128) -> (r: ID)
        ensures
            r.id == id,
    {
        ID { id }
    }

    pub fn from_u32(id: u32) -> (r: ID)
        ensures
            r.id == id,
    {
        ID::new(id as u128)
    }

    /// The identifier on 32 bits, where it fits.
    pub fn to_u32(&self) -> (res: Result<u32, Error>)
        ensures
            match res {
                Ok(v) => v == self.id,
                Err(e) => self.id > u32::MAX && e@ == Fault::IdOverflow,
            },
    {
        if self.id > u32::MAX as u128 {
            return Err(Error::IdOverflow);
        }
        Ok(self.id as u32)
    }

    pub fn from_u128(id: u128) -> (r: ID)
        ensures
            r.id == id,
    {
        ID::new(id)
    }

    pub fn to_u128(&self) -> (v: u128)
        ensures
            v == self.id,
    {
        self.id
    }

    /// The hexadecimal digits of the identifier, least significant first,
    /// at least `2 * num_bytes` of them.
    fn digits(&self, num_bytes: u8) -> (out: Vec<u8>)
        ensures
            out@.len() == text_width(self.id as nat, num_bytes as nat),
            forall|k: int| 0 <= k < out@.len() ==> out@[k] == digit(self.id as nat, k),
    {
        let mut out: Vec<u8> = Vec::new();
        let mut cur: u128 = self.id;
        let ghost id = self.id as nat;
        assert(pow16(0) == 1);
        assert(out@.len() == 0);
        assert(id / pow16(out@.len()) == id);
        loop
            invariant_except_break
                cur == id / pow16(out@.len()),
                hex_len(id) == out@.len() + hex_len(cur as nat),
                forall|k: int| 0 <= k < out@.len() ==> out@[k] == digit(id, k),
            ensures
                cur < 16,
                cur == id / pow16((out@.len() - 1) as nat),
                out@.len() == hex_len(id),
                forall|k: int| 0 <= k < out@.len() ==> out@[k] == digit(id, k),
            decreases cur,
        {
            out.push((cur % 16) as u8);
            if cur < 16 {
                break ;
            }
            proof {
                lemma_pow16_positive((out@.len() - 1) as nat);
                lemma_div_denominator(id as int, pow16((out@.len() - 1) as nat) as int, 16);
                assert(pow16(out@.len()) == 16 * pow16((out@.len() - 1) as nat));
                assert(pow16((out@.len() - 1) as nat) * 16 == 16 * pow16((out@.len() - 1) as nat));
            }
            cur = cur / 16;
        }
        proof {
            lemma_pow16_positive((out@.len() - 1) as nat);
            lemma_div_denominator(id as int, pow16((out@.len() - 1) as nat) as int, 16);
            assert(pow16(out@.len()) == 16 * pow16((out@.len() - 1) as nat));
            assert(pow16((out@.len() - 1) as nat) * 16 == 16 * pow16((out@.len() - 1) as nat));
        }
        while out.len() < 2 * (num_bytes as usize)
            invariant
                out@.len() >= hex_len(id),
                out@.len() == hex_len(id) || out@.len() <= 2 * num_bytes,
                id / pow16(out@.len()) == 0,
                forall|k: int| 0 <= k < out@.len() ==> out@[k] == digit(id, k),
            decreases 2 * num_bytes - out@.len(),
        {
            proof {
                lemma_pow16_positive(out@.len());
                lemma_div_denominator(id as int, pow16(out@.len()) as int, 16);
                assert(pow16(out@.len() + 1) == 16 * pow16(out@.len()));
                assert(pow16(out@.len()) * 16 == 16 * pow16(out@.len()));
            }
            out.push(0);
        }
        out
    }

    /// The text of the identifier on `num_bytes` byte pairs: two lower-case
    /// hexadecimal digits each, the most significant pair first, commas
    /// between them. Where the identifier has more digits than that, the
    /// pairs are the leading ones of all its digits.
    pub fn to_string(&self, num_bytes: u8) -> (s: String)
        ensures
            s@ == id_text(self.id as nat, num_bytes as nat, num_bytes as nat),
    {
        let digits = self.digits(num_bytes);
        let w: usize = digits.len();
        let mut s = String::new();
        let mut i: usize = 0;
        while i < num_bytes as usize
            invariant
                i <= num_bytes,
                w == digits@.len(),
                w == text_width(self.id as nat, num_bytes as nat),
                forall|k: int| 0 <= k < digits@.len() ==> digits@[k] == digit(self.id as nat, k),
                s@ == id_text(self.id as nat, num_bytes as nat, i as nat),
            decreases num_bytes - i,
        {
            let ghost before = s@;
            if i > 0 {
                proof {
                    reveal_strlit(",");
                    assert(","@ =~= seq![',']);
                }
                s.append(",");
            }
            push_hex(&mut s, digits[w - 1 - 2 * i]);
            push_hex(&mut s, digits[w - 2 - 2 * i]);
            assert(s@ =~= id_text(self.id as nat, num_bytes as nat, (i + 1) as nat));
            i += 1;
        }
        s
    }

    /// The text of the identifier on `num_bytes` byte pairs, as
    /// [`ID::to_string`] gives it, with the leading zero of each pair left
    /// out.
    pub fn to_string_no_leaders(&self, num_bytes: u8) -> (s: String)
        ensures
            s@ == short_id_text(self.id as nat, num_bytes as nat, num_bytes as nat),
    {
        let digits = self.digits(num_bytes);
        let w: usize = digits.len();
        let mut s = String::new();
        let mut i: usize = 0;
        while i < num_bytes as usize
            invariant
                i <= num_bytes,
                w == digits@.len(),
                w == text_width(self.id as nat, num_bytes as nat),
                forall|k: int| 0 <= k < digits@.len() ==> digits@[k] == digit(self.id as nat, k),
                s@ == short_id_text(self.id as nat, num_bytes as nat, i as nat),
            decreases num_bytes - i,
        {
            if i > 0 {
                proof {
                    reveal_strlit(",");
                    assert(","@ =~= seq![',']);
                }
                s.append(",");
            }
            let high: u8 = digits[w - 1 - 2 * i];
            let ghost pair = pair_text(self.id as nat, num_bytes as nat, i as int);
            if high != 0 {
                push_hex(&mut s, high);
            } else {
                assert(without_leader(pair) =~= seq![pair[1]]);
            }
            push_hex(&mut s, digits[w - 2 - 2 * i]);
            assert(s@ =~= short_id_text(self.id as nat, num_bytes as nat, (i + 1) as nat));
            i += 1;
        }
        s
    }

    /// The identifier that a text spells: parts of at most two hexadecimal
    /// digits with commas between them, the most significant first.
    pub fn from_string(string: &str) -> (res: Result<ID, Error>)
        ensures
            match res {
                Ok(r) => id_of_text(string@) == Ok::<nat, Fault>(r.id as nat),
                Err(e) => id_of_text(string@) == Err::<nat, Fault>(e@),
            },
    {
        let n: usize = string.unicode_len();
        let mut acc: u128 = 0;
        let mut cur: u128 = 0;
        let mut len: u8 = 0;
        let mut i: usize = 0;
        while i < n
            invariant
                i <= n,
                n == string@.len(),
                cur < 256,
                len <= 2,
                len == 0 ==> cur == 0,
                len == 1 ==> cur < 16,
                scan_id(string@.subrange(0, i as int)) == Ok::<IdScan, Fault>(
                    IdScan { acc: acc as nat, cur: cur as nat, len: len as nat },
                ),
            decreases n - i,
        {
            let c = string.get_char(i);
            proof {
                assert(string@.subrange(0, i + 1).drop_last() =~= string@.subrange(0, i as int));
                assert(string@.subrange(0, i + 1).last() == c);
            }
            if c == ',' {
                if acc > 0x00FF_FFFF_FFFF_FFFF_FFFF_FFFF_FFFF_FFFF {
                    proof {
                        lemma_scan_id_fails(string@, i + 1);
                    }
                    return Err(Error::IdOverflow);
                }
                acc = acc * 256 + cur;
                cur = 0;
                len = 0;
            } else {
                match hex_value(c) {
                    None => {
                        proof {
                            lemma_scan_id_fails(string@, i + 1);
                        }
                        return Err(Error::BadEncoding);
                    },
                    Some(d) => {
                        if len >= 2 {
                            proof {
                                lemma_scan_id_fails(string@, i + 1);
                            }
                            return Err(Error::BadEncoding);
                        }
                        cur = cur * 16 + d as u128;
                        len = len + 1;
                    },
                }
            }
            i += 1;
        }
        assert(string@.subrange(0, n as int) =~= string@);
        if acc > 0x00FF_FFFF_FFFF_FFFF_FFFF_FFFF_FFFF_FFFF {
            return Err(Error::IdOverflow);
        }
        Ok(ID::new(acc * 256 + cur))
    }
}

/// Powers of 16 are positive.
pub proof fn lemma_pow16_positive(n: nat)
    ensures
        pow16(n) > 0,
    decreases n,
{
    if n > 0 {
        lemma_pow16_positive((n - 1) as nat);
    }
}

} // verus!
