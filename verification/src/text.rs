use vstd::prelude::*;
use vstd::utf8::*;
use vstd::string::*;

verus! {

broadcast use {encode_utf8_decode_utf8, encode_utf8_valid_utf8};

/// Calls `String::from_utf8`, which gives back the string that the bytes
/// encode when they are well-formed UTF-8 and refuses them otherwise. A
/// refusal comes back as `None`.
#[verifier::external_body]
pub(crate) fn string_from_utf8(bytes: Vec<u8>) -> (res: Option<String>)
    ensures
        res is Some <==> valid_utf8(bytes@),
        res matches Some(s) ==> s@ == decode_utf8(bytes@),
{
    match String::from_utf8(bytes) {
        Ok(s) => Some(s),
        Err(_) => None,
    }
}

/// Whether two byte strings are the same.
pub fn bytes_eq(a: &[u8], b: &[u8]) -> (r: bool)
    ensures
        r == (a@ == b@),
{
    if a.len() != b.len() {
        return false;
    }
    let mut i: usize = 0;
    while i < a.len()
        invariant
            a@.len() == b@.len(),
            i <= a@.len(),
            forall|j: int| 0 <= j < i ==> a@[j] == b@[j],
        decreases a@.len() - i,
    {
        if a[i] != b[i] {
            return false;
        }
        i += 1;
    }
    assert(a@ =~= b@);
    true
}

/// Whether two strings hold the same characters.
pub fn str_eq(a: &str, b: &str) -> (r: bool)
    ensures
        r == (a@ == b@),
{
    let r = bytes_eq(a.as_bytes(), b.as_bytes());
    proof {
        if r {
            assert(decode_utf8(encode_utf8(a@)) == a@);
            assert(decode_utf8(encode_utf8(b@)) == b@);
        }
    }
    r
}

/// A copy of `v` with its items in the opposite order.
pub fn reversed(v: &Vec<u8>) -> (r: Vec<u8>)
    ensures
        r@ == v@.reverse(),
{
    let mut r: Vec<u8> = Vec::new();
    let n: usize = v.len();
    let mut i: usize = 0;
    while i < n
        invariant
            n == v@.len(),
            i <= n,
            r@.len() == i,
            forall|j: int| 0 <= j < i ==> r@[j] == v@[n - 1 - j],
        decreases n - i,
    {
        r.push(v[n - 1 - i]);
        i += 1;
    }
    assert(r@ =~= v@.reverse());
    r
}

/// Appends `buf` to `v`.
pub fn append_bytes(v: &mut Vec<u8>, buf: &[u8])
    ensures
        final(v)@ == old(v)@ + buf@,
{
    let mut i: usize = 0;
    while i < buf.len()
        invariant
            i <= buf@.len(),
            v@ == old(v)@ + buf@.subrange(0, i as int),
        decreases buf@.len() - i,
    {
        v.push(buf[i]);
        i += 1;
        assert(v@ =~= old(v)@ + buf@.subrange(0, i as int));
    }
    assert(buf@.subrange(0, buf@.len() as int) =~= buf@);
}

/// The lower-case form of a string, as the standard library gives it.
pub uninterp spec fn lowercase(s: Seq<char>) -> Seq<char>;

/// Calls `str::to_lowercase`. The result is named, not described: it
/// follows the Unicode case tables.
#[verifier::external_body]
pub(crate) fn to_lowercase(s: &str) -> (r: String)
    ensures
        r@ == lowercase(s@),
{
    s.to_lowercase()
}

/// A path with each backslash turned into a slash.
pub open spec fn slashed(s: Seq<char>) -> Seq<char> {
    s.map_values(|c: char| if c == '\\' { '/' } else { c })
}

/// Calls `str::replace` with the patterns `"\\"` and `"/"`, which puts a
/// slash in the place of each backslash and leaves the rest.
#[verifier::external_body]
pub(crate) fn backslashes_to_slashes(s: &str) -> (r: String)
    ensures
        r@ == slashed(s@),
{
    s.replace("\\", "/")
}

/// Calls `str::rsplit_once` with the pattern `'/'`, which parts the string
/// at its last slash into what stands before and what stands behind, and
/// gives `None` where it has no slash.
#[verifier::external_body]
pub(crate) fn rsplit_once_slash(s: &str) -> (r: Option<(String, String)>)
    ensures
        match r {
            Some((a, b)) => s@ == a@ + seq!['/'] + b@ && !b@.contains('/'),
            None => !s@.contains('/'),
        },
{
    match s.rsplit_once('/') {
        Some((a, b)) => Some((a.to_string(), b.to_string())),
        None => None,
    }
}

} // verus!
