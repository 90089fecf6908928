//! Character-level primitives: decoding a string into its characters, testing
//! for a literal at a position, and searching for the first occurrence of a
//! literal.

use vstd::prelude::*;
use vstd::std_specs::iter::IteratorSpec;

verus! {

/// `lit` stands in `s` at position `at`.
pub open spec fn occurs_at(s: Seq<char>, lit: Seq<char>, at: int) -> bool {
    &&& 0 <= at
    &&& at + lit.len() <= s.len()
    &&& s.subrange(at, at + lit.len()) == lit
}

/// The least position at or after `from` at which `lit` stands in `s`, if
/// there is one.
pub open spec fn first_occurrence(s: Seq<char>, lit: Seq<char>, from: int) -> Option<int>
    decreases s.len() + 1 - from,
{
    if from < 0 || from + lit.len() > s.len() {
        None
    } else if occurs_at(s, lit, from) {
        Some(from)
    } else {
        first_occurrence(s, lit, from + 1)
    }
}

/// `first_occurrence` gives a position at which the literal stands and before
/// which, from `from` on, it does not; it gives none exactly when the literal
/// stands nowhere from `from` on.
pub proof fn lemma_first_occurrence(s: Seq<char>, lit: Seq<char>, from: int)
    requires
        0 <= from,
    ensures
        first_occurrence(s, lit, from) matches Some(i) ==> {
            &&& from <= i
            &&& occurs_at(s, lit, i)
            &&& forall|j: int| from <= j < i ==> !occurs_at(s, lit, j)
        },
        first_occurrence(s, lit, from) is None ==> forall|j: int|
            from <= j ==> !occurs_at(s, lit, j),
    decreases s.len() + 1 - from,
{
    if from + lit.len() <= s.len() && !occurs_at(s, lit, from) {
        lemma_first_occurrence(s, lit, from + 1);
    }
}

/// The characters of `s`, in order.
pub(crate) fn decode(s: &str) -> (chars: Vec<char>)
    ensures
        chars@ == s@,
{
    broadcast use vstd::string::group_string_axioms;

    let mut chars: Vec<char> = Vec::new();
    for c in it: s.chars()
        invariant
            it.seq() == s@,
            chars@ == s@.take(it.index()),
    {
        chars.push(c);
    }
    chars
}

/// Tests whether `lit` stands in `subject` at `at`, and gives the position
/// just past it if so.
pub(crate) fn match_literal(subject: &[char], at: usize, lit: &str) -> (end: Option<usize>)
    ensures
        end is Some <==> occurs_at(subject@, lit@, at as int),
        end matches Some(e) ==> e == at + lit@.len(),
{
    broadcast use vstd::string::group_string_axioms;

    if at > subject.len() {
        return None;
    }
    let mut pos: usize = at;
    for c in it: lit.chars()
        invariant
            it.seq() == lit@,
            pos == at + it.index(),
            pos <= subject@.len(),
            subject@.subrange(at as int, pos as int) == lit@.take(it.index()),
    {
        if pos >= subject.len() || subject[pos] != c {
            return None;
        }
        pos += 1;
    }
    assert(lit@.take(lit@.len() as int) == lit@);
    Some(pos)
}

/// Searches `subject` from `from` on for the first place at which `lit`
/// stands, trying each position in turn, and gives the position just past
/// that occurrence.
pub(crate) fn find_literal(subject: &[char], from: usize, lit: &str) -> (end: Option<usize>)
    ensures
        match first_occurrence(subject@, lit@, from as int) {
            Some(i) => end matches Some(e) && e == i + lit@.len() && e <= subject@.len(),
            None => end is None,
        },
{
    if from > subject.len() {
        return None;
    }
    let mut start: usize = from;
    loop
        invariant
            from <= start <= subject@.len(),
            first_occurrence(subject@, lit@, from as int) == first_occurrence(
                subject@,
                lit@,
                start as int,
            ),
        decreases subject@.len() - start,
    {
        if let Some(e) = match_literal(subject, start, lit) {
            return Some(e);
        }
        if start >= subject.len() {
            assert(first_occurrence(subject@, lit@, start + 1) is None);
            return None;
        }
        start += 1;
    }
}

} // verus!
