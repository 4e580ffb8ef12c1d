//! Canonical form of arcade names.
//!
//! Names are compared byte for byte once canonicalised, so two spellings that
//! render alike (extra blanks, a no-break space, a zero-width joiner) must
//! collapse to one key.
use vstd::prelude::*;
use crate::text::{is_space, is_invisible, is_space_char, is_invisible_char, chars_of, string_of};

verus! {

/// Drops invisible characters, turns every whitespace character into a plain
/// space and keeps one space of each run of them.
pub open spec fn fold_spaces(s: Seq<char>) -> Seq<char>
    decreases s.len(),
{
    if s.len() == 0 {
        seq![]
    } else {
        let prev = fold_spaces(s.drop_last());
        let c = s.last();
        if is_invisible(c) {
            prev
        } else if is_space(c) {
            if prev.len() > 0 && prev.last() == ' ' {
                prev
            } else {
                prev.push(' ')
            }
        } else {
            prev.push(c)
        }
    }
}

/// Removes one space at each end.
pub open spec fn strip_edge_spaces(t: Seq<char>) -> Seq<char> {
    let a = if t.len() > 0 && t[0] == ' ' { t.drop_first() } else { t };
    if a.len() > 0 && a.last() == ' ' { a.drop_last() } else { a }
}

/// The canonical form of a name.
pub open spec fn normalize(s: Seq<char>) -> Seq<char> {
    strip_edge_spaces(fold_spaces(s))
}

/// No invisible character, no whitespace but single plain spaces, none at
/// either end.
pub open spec fn is_normalized(t: Seq<char>) -> bool {
    &&& forall|i: int| 0 <= i < t.len() ==> !is_invisible(#[trigger] t[i])
    &&& forall|i: int| 0 <= i < t.len() && is_space(#[trigger] t[i]) ==> t[i] == ' '
    &&& forall|i: int| 0 <= i < t.len() && #[trigger] t[i] == ' ' ==> 0 < i < t.len() - 1
        && t[i - 1] != ' '
}

/// What `fold_spaces` leaves: no invisible character, whitespace only as
/// single plain spaces.
pub open spec fn is_folded(t: Seq<char>) -> bool {
    &&& forall|i: int| 0 <= i < t.len() ==> !is_invisible(#[trigger] t[i])
    &&& forall|i: int| 0 <= i < t.len() && is_space(#[trigger] t[i]) ==> t[i] == ' '
    &&& forall|i: int| 0 < i < t.len() && #[trigger] t[i] == ' ' ==> t[i - 1] != ' '
}

proof fn lemma_fold_is_folded(s: Seq<char>)
    ensures
        is_folded(fold_spaces(s)),
    decreases s.len(),
{
    if s.len() > 0 {
        lemma_fold_is_folded(s.drop_last());
    }
}

proof fn lemma_fold_of_folded(t: Seq<char>)
    requires
        is_folded(t),
    ensures
        fold_spaces(t) == t,
    decreases t.len(),
{
    if t.len() > 0 {
        let p = t.drop_last();
        assert(is_folded(p)) by {
            assert forall|i: int| 0 < i < p.len() && #[trigger] p[i] == ' ' implies p[i - 1] != ' ' by {
                assert(t[i] == p[i]);
            }
            assert forall|i: int| 0 <= i < p.len() implies !is_invisible(#[trigger] p[i]) by {
                assert(t[i] == p[i]);
            }
            assert forall|i: int| 0 <= i < p.len() && is_space(#[trigger] p[i]) implies p[i] == ' ' by {
                assert(t[i] == p[i]);
            }
        }
        lemma_fold_of_folded(p);
        let c = t.last();
        assert(!is_invisible(t[t.len() - 1]));
        if is_space(c) {
            assert(t[t.len() - 1] == ' ');
            if t.len() > 1 {
                assert(t[t.len() - 2] != ' ');
            }
        }
        assert(p.push(c) =~= t);
    }
}

proof fn lemma_strip_normalizes(t: Seq<char>)
    requires
        is_folded(t),
    ensures
        is_normalized(strip_edge_spaces(t)),
{
    let a = if t.len() > 0 && t[0] == ' ' { t.drop_first() } else { t };
    let b = if a.len() > 0 && a.last() == ' ' { a.drop_last() } else { a };
    let off: int = if t.len() > 0 && t[0] == ' ' { 1 } else { 0 };
    assert forall|i: int| 0 <= i < a.len() implies #[trigger] a[i] == t[i + off] by {}
    assert forall|i: int| 0 <= i < b.len() implies #[trigger] b[i] == t[i + off] by {}
    assert forall|i: int| 0 <= i < b.len() && #[trigger] b[i] == ' ' implies 0 < i < b.len() - 1
        && b[i - 1] != ' ' by {
        assert(t[i + off] == ' ');
        if i == 0 {
            if off == 1 {
                assert(t[1] == ' ');
                assert(t[0] == ' ');
            } else {
                assert(t[0] == ' ');
            }
        }
        if i == b.len() - 1 {
            assert(a.len() > 0);
            assert(a.last() == a[a.len() - 1]);
            if a.last() == ' ' {
                assert(b.len() == a.len() - 1);
                assert(a[i + 1] == ' ');
                assert(t[i + 1 + off] == ' ');
            } else {
                assert(b.len() == a.len());
            }
        }
        if i > 0 {
            assert(t[i + off - 1] != ' ');
        }
    }
}

proof fn lemma_strip_of_normalized(t: Seq<char>)
    requires
        is_normalized(t),
    ensures
        strip_edge_spaces(t) == t,
{
    if t.len() > 0 {
        if t[0] == ' ' {
        }
        if t[t.len() - 1] == ' ' {
        }
    }
}

/// The canonical form is in normal form, and a name in normal form is its own
/// canonical form.
pub proof fn lemma_normalize_characterized(s: Seq<char>)
    ensures
        is_normalized(normalize(s)),
        is_normalized(s) ==> normalize(s) == s,
{
    lemma_fold_is_folded(s);
    lemma_strip_normalizes(fold_spaces(s));
    if is_normalized(s) {
        assert(is_folded(s)) by {
            assert forall|i: int| 0 < i < s.len() && #[trigger] s[i] == ' ' implies s[i - 1] != ' ' by {}
        }
        lemma_fold_of_folded(s);
        lemma_strip_of_normalized(s);
    }
}

/// Canonicalising twice gives what canonicalising once gives.
pub proof fn lemma_normalize_idempotent(s: Seq<char>)
    ensures
        normalize(normalize(s)) == normalize(s),
{
    lemma_normalize_characterized(s);
    lemma_normalize_characterized(normalize(s));
}

/// Canonical form of a raw scraped name: invisible formatting characters are
/// dropped, each run of whitespace becomes one plain space, and the ends are
/// trimmed.
pub fn normalize_name(raw: &str) -> (r: String)
    ensures
        r@ == normalize(raw@),
        is_normalized(r@),
{
    let chars = chars_of(raw);
    let mut folded: Vec<char> = Vec::new();
    let mut i: usize = 0;
    while i < chars.len()
        invariant
            i <= chars@.len(),
            folded@ == fold_spaces(chars@.take(i as int)),
        decreases chars@.len() - i,
    {
        let c = chars[i];
        assert(chars@.take(i as int + 1).drop_last() =~= chars@.take(i as int));
        if is_invisible_char(c) {
        } else if is_space_char(c) {
            if folded.len() == 0 || folded[folded.len() - 1] != ' ' {
                folded.push(' ');
            }
        } else {
            folded.push(c);
        }
        i = i + 1;
    }
    assert(chars@.take(chars@.len() as int) =~= raw@);
    let n = folded.len();
    let start: usize = if n > 0 && folded[0] == ' ' { 1 } else { 0 };
    let end: usize = if n > start && folded[n - 1] == ' ' { n - 1 } else { n };
    let mut out: Vec<char> = Vec::new();
    let mut j: usize = start;
    while j < end
        invariant
            start <= j <= end <= n == folded@.len(),
            out@ == folded@.subrange(start as int, j as int),
        decreases end - j,
    {
        out.push(folded[j]);
        j = j + 1;
        assert(out@ =~= folded@.subrange(start as int, j as int));
    }
    assert(out@ =~= strip_edge_spaces(folded@));
    proof {
        lemma_normalize_characterized(raw@);
    }
    string_of(out.as_slice())
}

} // verus!
