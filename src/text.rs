//! Conversions between strings and their characters, and whitespace trimming.
use vstd::prelude::*;

verus! {

/// Unicode `White_Space`: the characters that `char::is_whitespace` accepts.
pub open spec fn is_space(c: char) -> bool {
    let u = c as u32;
    u == 0x20 || (0x09 <= u && u <= 0x0D) || u == 0x85 || u == 0xA0 || u == 0x1680
        || (0x2000 <= u && u <= 0x200A) || u == 0x2028 || u == 0x2029 || u == 0x202F
        || u == 0x205F || u == 0x3000
}

/// Characters that take no room when rendered: the soft hyphen, the
/// zero-width space, non-joiner and joiner, the word joiner and the
/// byte-order mark.
pub open spec fn is_invisible(c: char) -> bool {
    let u = c as u32;
    u == 0xAD || u == 0x200B || u == 0x200C || u == 0x200D || u == 0x2060 || u == 0xFEFF
}

pub fn is_space_char(c: char) -> (r: bool)
    ensures
        r == is_space(c),
{
    let u = c as u32;
    u == 0x20 || (0x09 <= u && u <= 0x0D) || u == 0x85 || u == 0xA0 || u == 0x1680
        || (0x2000 <= u && u <= 0x200A) || u == 0x2028 || u == 0x2029 || u == 0x202F
        || u == 0x205F || u == 0x3000
}

pub fn is_invisible_char(c: char) -> (r: bool)
    ensures
        r == is_invisible(c),
{
    let u = c as u32;
    u == 0xAD || u == 0x200B || u == 0x200C || u == 0x200D || u == 0x2060 || u == 0xFEFF
}

/// Number of leading characters of `s` that are whitespace.
pub open spec fn leading_spaces(s: Seq<char>) -> nat
    decreases s.len(),
{
    if s.len() > 0 && is_space(s[0]) {
        1 + leading_spaces(s.drop_first())
    } else {
        0
    }
}

/// Number of trailing characters of `s` that are whitespace.
pub open spec fn trailing_spaces(s: Seq<char>) -> nat
    decreases s.len(),
{
    if s.len() > 0 && is_space(s.last()) {
        1 + trailing_spaces(s.drop_last())
    } else {
        0
    }
}

/// `s` without its leading and trailing whitespace, as `str::trim` gives it.
pub open spec fn trimmed(s: Seq<char>) -> Seq<char> {
    let t = s.skip(leading_spaces(s) as int);
    t.take(t.len() - trailing_spaces(t))
}

/// `s` without its leading and trailing whitespace.
pub fn trim_text(s: &str) -> (r: String)
    ensures
        r@ == trimmed(s@),
{
    let chars = chars_of(s);
    let n = chars.len();
    let mut lead: usize = 0;
    assert(chars@.skip(0) =~= chars@);
    while lead < n && is_space_char(chars[lead])
        invariant
            lead <= n == chars@.len(),
            leading_spaces(chars@) == lead + leading_spaces(chars@.skip(lead as int)),
        decreases n - lead,
    {
        assert(chars@.skip(lead as int).drop_first() =~= chars@.skip(lead as int + 1));
        lead = lead + 1;
    }
    let ghost t = chars@.skip(lead as int);
    assert(leading_spaces(t) == 0);
    let mut trail: usize = 0;
    assert(t.take(t.len() as int) =~= t);
    while trail < n - lead && is_space_char(chars[n - 1 - trail])
        invariant
            lead <= n == chars@.len(),
            trail <= n - lead,
            t == chars@.skip(lead as int),
            trailing_spaces(t) == trail + trailing_spaces(t.take(t.len() - trail)),
        decreases n - lead - trail,
    {
        assert(t.take(t.len() - trail).drop_last() =~= t.take(t.len() - trail - 1));
        assert(t.take(t.len() - trail).last() == chars@[n - 1 - trail]);
        trail = trail + 1;
    }
    assert(trailing_spaces(t.take(t.len() - trail)) == 0) by {
        if trail < n - lead {
            assert(t.take(t.len() - trail).last() == chars@[n - 1 - trail]);
        }
    }
    let mut out: Vec<char> = Vec::new();
    let mut k: usize = lead;
    while k < n - trail
        invariant
            lead <= k <= n - trail,
            trail <= n - lead,
            n == chars@.len(),
            out@ == chars@.subrange(lead as int, k as int),
        decreases n - trail - k,
    {
        out.push(chars[k]);
        k = k + 1;
        assert(out@ =~= chars@.subrange(lead as int, k as int));
    }
    assert(out@ =~= trimmed(s@));
    string_of(out.as_slice())
}

/// Relies on `str::chars`: the characters of a string, in order.
#[verifier::external_body]
pub(crate) fn chars_of(s: &str) -> (r: Vec<char>)
    ensures
        r@ == s@,
{
    s.chars().collect()
}

/// Relies on `String: FromIterator<&char>`: the string made of the given characters.
#[verifier::external_body]
pub(crate) fn string_of(chars: &[char]) -> (r: String)
    ensures
        r@ == chars@,
{
    chars.iter().collect()
}

} // verus!
