//! Matching a subject against a compiled pattern: what a pattern accepts, and
//! the scan that decides it.

use crate::fold::{to_uppercase, uppercase};
use crate::pattern::{
    build_glob_pattern, compiled, segment_views, GlobPattern, Multipart, PatternView, SegmentView,
};
use crate::text::{decode, find_literal, first_occurrence, match_literal, occurs_at};
use vstd::prelude::*;
use vstd::string::StrSliceExecFns;

verus! {

/// `lit` ends `s`, and does so without reaching back before `at`.
pub open spec fn closes(s: Seq<char>, lit: Seq<char>, at: int) -> bool {
    at + lit.len() <= s.len() && lit.is_suffix_of(s)
}

/// The segments from the `k`-th on accept what is left of `s` from `at` on.
///
/// Each segment takes the first place at which it fits and the scan never
/// goes back on that choice. A segment other than `AnyEnd` finds nothing in
/// a subject that is used up. Where no segment is left the scan has succeeded.
pub open spec fn segments_accept(segs: Seq<SegmentView>, k: int, s: Seq<char>, at: int) -> bool
    decreases segs.len() - k,
{
    if k < 0 || k >= segs.len() {
        true
    } else {
        match segs[k] {
            SegmentView::AnyEnd => true,
            SegmentView::ExactStart(lit) => {
                &&& at < s.len()
                &&& occurs_at(s, lit, at)
                &&& segments_accept(segs, k + 1, s, at + lit.len())
            },
            SegmentView::AnyUntil(lit) => {
                &&& at < s.len()
                &&& first_occurrence(s, lit, at) matches Some(i)
                &&& segments_accept(segs, k + 1, s, i + lit.len())
            },
            SegmentView::AnyUntilExactEnd(lit) => at < s.len() && closes(s, lit, at),
        }
    }
}

/// The pattern accepts the subject.
pub open spec fn accepts(pattern: PatternView, s: Seq<char>) -> bool {
    match pattern {
        PatternView::MatchAny => true,
        PatternView::Multipart(segs) => segs.len() > 0 && segments_accept(segs, 0, s, 0),
        PatternView::MatchEnd(end) => end.is_suffix_of(s),
        PatternView::MatchStart(start) => start.is_prefix_of(s),
        PatternView::MatchBothEnds(start, end) => start.is_prefix_of(s) && end.is_suffix_of(s),
        PatternView::MatchFull(full) => s == full,
    }
}

/// Tests whether `lit` begins `subject`.
fn starts_with(subject: &[char], lit: &str) -> (yes: bool)
    ensures
        yes == lit@.is_prefix_of(subject@),
{
    match_literal(subject, 0, lit).is_some()
}

/// Tests whether `lit` ends `subject` without reaching back before `at`. Of
/// all the places at which the literal may stand only the one that ends the
/// subject counts, so that place alone is tested.
fn ends_with_from(subject: &[char], at: usize, lit: &str) -> (yes: bool)
    ensures
        yes == closes(subject@, lit@, at as int),
{
    let len: usize = lit.unicode_len();
    if at > subject.len() || len > subject.len() - at {
        return false;
    }
    match_literal(subject, subject.len() - len, lit).is_some()
}

/// Runs the segments of a pattern over the subject, left to right, with one
/// cursor into the segments and one into the subject. The cursor into the
/// subject only moves forward.
fn match_segments(segs: &Vec<Multipart>, subject: &[char]) -> (yes: bool)
    ensures
        yes == (segs@.len() > 0 && segments_accept(segment_views(segs@), 0, subject@, 0)),
{
    if segs.len() == 0 {
        return false;
    }
    let ghost views = segment_views(segs@);
    let mut at: usize = 0;
    let mut k: usize = 0;
    while k < segs.len()
        invariant
            views == segment_views(segs@),
            k <= segs@.len(),
            at <= subject@.len(),
            segments_accept(views, 0, subject@, 0) == segments_accept(
                views,
                k as int,
                subject@,
                at as int,
            ),
        decreases segs@.len() - k,
    {
        if let Multipart::AnyEnd = &segs[k] {
            return true;
        }
        if at >= subject.len() {
            return false;
        }
        match &segs[k] {
            Multipart::ExactStart(lit) => {
                match match_literal(subject, at, lit.as_str()) {
                    Some(end) => {
                        at = end;
                    },
                    None => {
                        return false;
                    },
                }
            },
            Multipart::AnyUntil(lit) => {
                match find_literal(subject, at, lit.as_str()) {
                    Some(end) => {
                        at = end;
                    },
                    None => {
                        return false;
                    },
                }
            },
            Multipart::AnyUntilExactEnd(lit) => {
                return ends_with_from(subject, at, lit.as_str());
            },
            Multipart::AnyEnd => {
                return true;
            },
        }
        k += 1;
    }
    true
}

/// Matches decoded characters against a compiled pattern.
pub(crate) fn match_chars(pattern: &GlobPattern, subject: &[char]) -> (matched: bool)
    ensures
        matched == accepts(pattern@, subject@),
{
    match pattern {
        GlobPattern::MatchAny => true,
        GlobPattern::MatchEnd(end) => ends_with_from(subject, 0, end.as_str()),
        GlobPattern::MatchStart(start) => starts_with(subject, start.as_str()),
        GlobPattern::MatchBothEnds(start, end) => starts_with(subject, start.as_str())
            && ends_with_from(subject, 0, end.as_str()),
        GlobPattern::MatchFull(full) => {
            let end = match_literal(subject, 0, full.as_str());
            assert(subject@.subrange(0, subject@.len() as int) == subject@);
            match end {
                Some(e) => e == subject.len(),
                None => false,
            }
        },
        GlobPattern::Multipart(segs) => match_segments(segs, subject),
    }
}

/// Matches a subject against a compiled pattern.
pub fn glob_match_prebuilt(pattern: &GlobPattern, value: &str) -> (matched: bool)
    ensures
        matched == accepts(pattern@, value@),
{
    if let GlobPattern::MatchAny = pattern {
        return true;
    }
    let subject = decode(value);
    match_chars(pattern, subject.as_slice())
}

/// Some pattern of `patterns` accepts `s`.
pub open spec fn any_accepts(patterns: Seq<PatternView>, s: Seq<char>) -> bool {
    exists|i: int| 0 <= i < patterns.len() && accepts(#[trigger] patterns[i], s)
}

/// Every pattern of `patterns` accepts `s`.
pub open spec fn all_accept(patterns: Seq<PatternView>, s: Seq<char>) -> bool {
    forall|i: int| 0 <= i < patterns.len() ==> accepts(#[trigger] patterns[i], s)
}

/// The views of a sequence of compiled patterns.
pub open spec fn pattern_views(patterns: Seq<GlobPattern>) -> Seq<PatternView> {
    patterns.map_values(|p: GlobPattern| p@)
}

/// Tests whether at least one of the patterns matches the subject. No
/// pattern of an empty list does.
pub fn glob_match_any_prebuilt(patterns: &[GlobPattern], value: &str) -> (matched: bool)
    ensures
        matched == any_accepts(pattern_views(patterns@), value@),
{
    let subject = decode(value);
    let mut i: usize = 0;
    while i < patterns.len()
        invariant
            i <= patterns@.len(),
            subject@ == value@,
            forall|j: int| 0 <= j < i ==> !accepts(#[trigger] pattern_views(patterns@)[j], value@),
        decreases patterns@.len() - i,
    {
        if match_chars(&patterns[i], subject.as_slice()) {
            assert(accepts(pattern_views(patterns@)[i as int], value@));
            return true;
        }
        i += 1;
    }
    false
}

/// Tests whether every one of the patterns matches the subject. Every
/// pattern of an empty list does.
pub fn glob_match_all_prebuilt(patterns: &[GlobPattern], value: &str) -> (matched: bool)
    ensures
        matched == all_accept(pattern_views(patterns@), value@),
{
    let subject = decode(value);
    let mut i: usize = 0;
    while i < patterns.len()
        invariant
            i <= patterns@.len(),
            subject@ == value@,
            forall|j: int| 0 <= j < i ==> accepts(#[trigger] pattern_views(patterns@)[j], value@),
        decreases patterns@.len() - i,
    {
        if !match_chars(&patterns[i], subject.as_slice()) {
            assert(!accepts(pattern_views(patterns@)[i as int], value@));
            return false;
        }
        i += 1;
    }
    true
}

/// What matching `value` against the pattern string `pattern` gives: the
/// compiler's error, or whether the compiled pattern accepts the subject.
pub open spec fn match_of(pattern: Seq<char>, value: Seq<char>) -> Result<bool, ()> {
    match compiled(pattern) {
        Ok(p) => Ok(accepts(p, value)),
        Err(e) => Err(e),
    }
}

/// Compiles `pattern` and matches `value` against it, case mattering.
pub fn glob_match_case_sensitive(pattern: &str, value: &str) -> (result: Result<bool, ()>)
    ensures
        result == match_of(pattern@, value@),
{
    match build_glob_pattern(pattern) {
        Ok(compiled) => Ok(glob_match_prebuilt(&compiled, value)),
        Err(e) => Err(e),
    }
}

/// Compiles `pattern` and matches `value` against it without regard to
/// case: both are folded to upper case first.
pub fn glob_match(pattern: &str, value: &str) -> (result: Result<bool, ()>)
    ensures
        result == match_of(uppercase(pattern@), uppercase(value@)),
{
    let folded_pattern = to_uppercase(pattern);
    match build_glob_pattern(folded_pattern.as_str()) {
        Ok(compiled) => {
            let folded_value = to_uppercase(value);
            Ok(glob_match_prebuilt(&compiled, folded_value.as_str()))
        },
        Err(e) => Err(e),
    }
}

} // verus!
