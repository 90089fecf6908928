//! Compiled patterns: the data model, its mathematical view, and the compiler
//! that turns a pattern string into a [`GlobPattern`].

use crate::text::decode;
use vstd::prelude::*;

verus! {

/// One piece of a pattern with two or more wildcards.
#[derive(Debug, Clone)]
pub enum Multipart {
    /// The subject begins with this literal.
    ExactStart(String),
    /// This literal occurs somewhere from the current position on.
    AnyUntil(String),
    /// This literal ends the subject.
    AnyUntilExactEnd(String),
    /// Whatever is left of the subject is accepted.
    AnyEnd,
}

/// A compiled pattern.
#[derive(Debug, Clone)]
pub enum GlobPattern {
    /// The pattern `*`.
    MatchAny,
    /// A pattern with two or more wildcards, piece by piece.
    Multipart(Vec<Multipart>),
    /// The pattern `*suffix`.
    MatchEnd(String),
    /// The pattern `prefix*`.
    MatchStart(String),
    /// The pattern `prefix*suffix`: (prefix, suffix).
    MatchBothEnds(String, String),
    /// A pattern without a wildcard.
    MatchFull(String),
}

/// What a [`Multipart`] stands for, over character sequences.
pub enum SegmentView {
    ExactStart(Seq<char>),
    AnyUntil(Seq<char>),
    AnyUntilExactEnd(Seq<char>),
    AnyEnd,
}

/// What a [`GlobPattern`] stands for, over character sequences.
pub enum PatternView {
    MatchAny,
    Multipart(Seq<SegmentView>),
    MatchEnd(Seq<char>),
    MatchStart(Seq<char>),
    MatchBothEnds(Seq<char>, Seq<char>),
    MatchFull(Seq<char>),
}

impl View for Multipart {
    type V = SegmentView;

    open spec fn view(&self) -> SegmentView {
        match self {
            Multipart::ExactStart(s) => SegmentView::ExactStart(s@),
            Multipart::AnyUntil(s) => SegmentView::AnyUntil(s@),
            Multipart::AnyUntilExactEnd(s) => SegmentView::AnyUntilExactEnd(s@),
            Multipart::AnyEnd => SegmentView::AnyEnd,
        }
    }
}

impl View for GlobPattern {
    type V = PatternView;

    open spec fn view(&self) -> PatternView {
        match self {
            GlobPattern::MatchAny => PatternView::MatchAny,
            GlobPattern::Multipart(parts) => PatternView::Multipart(segment_views(parts@)),
            GlobPattern::MatchEnd(s) => PatternView::MatchEnd(s@),
            GlobPattern::MatchStart(s) => PatternView::MatchStart(s@),
            GlobPattern::MatchBothEnds(a, b) => PatternView::MatchBothEnds(a@, b@),
            GlobPattern::MatchFull(s) => PatternView::MatchFull(s@),
        }
    }
}

/// The wildcard character.
pub open spec fn is_wildcard(c: char) -> bool {
    c == '*'
}

/// The literal pieces of a pattern, in order: what stands before the first
/// wildcard, between each two neighbouring wildcards, and after the last. A
/// pattern with `n` wildcards has `n + 1` pieces, some of which may be empty.
pub open spec fn split(p: Seq<char>) -> Seq<Seq<char>>
    decreases p.len(),
{
    if p.len() == 0 {
        seq![Seq::empty()]
    } else {
        let before = split(p.drop_last());
        if is_wildcard(p.last()) {
            before.push(Seq::empty())
        } else {
            before.drop_last().push(before.last().push(p.last()))
        }
    }
}

/// A pattern always has at least one piece.
pub proof fn lemma_split_nonempty(p: Seq<char>)
    ensures
        split(p).len() >= 1,
    decreases p.len(),
{
    if p.len() > 0 {
        lemma_split_nonempty(p.drop_last());
    }
}

/// The segments that open a pattern with two or more wildcards: those made
/// from the first `k` of its pieces. A first piece that is empty gives no
/// segment, since the pattern then begins with a wildcard.
pub open spec fn leading_segments(parts: Seq<Seq<char>>, k: int) -> Seq<SegmentView> {
    if k <= 0 {
        Seq::empty()
    } else {
        let head = if parts[0].len() == 0 {
            Seq::empty()
        } else {
            seq![SegmentView::ExactStart(parts[0])]
        };
        head + Seq::new((k - 1) as nat, |j: int| SegmentView::AnyUntil(parts[j + 1]))
    }
}

/// The segment that closes a pattern with two or more wildcards, made from
/// its last piece.
pub open spec fn closing_segment(last: Seq<char>) -> SegmentView {
    if last.len() == 0 {
        SegmentView::AnyEnd
    } else {
        SegmentView::AnyUntilExactEnd(last)
    }
}

/// The segments of a pattern with two or more wildcards, from its pieces.
pub open spec fn segments(parts: Seq<Seq<char>>) -> Seq<SegmentView>
    recommends
        parts.len() >= 3,
{
    leading_segments(parts, parts.len() - 1).push(closing_segment(parts.last()))
}

/// Some piece between two wildcards is empty: two wildcards stand side by
/// side.
pub open spec fn has_empty_interior(parts: Seq<Seq<char>>) -> bool {
    exists|k: int| 0 < k < parts.len() - 1 && #[trigger] parts[k].len() == 0
}

/// What a pattern compiles to, or an error where it cannot be compiled.
pub open spec fn compiled(p: Seq<char>) -> Result<PatternView, ()> {
    let parts = split(p);
    if parts.len() <= 1 {
        Ok(PatternView::MatchFull(p))
    } else if parts.len() == 2 {
        let (before, after) = (parts[0], parts[1]);
        if before.len() == 0 && after.len() == 0 {
            Ok(PatternView::MatchAny)
        } else if before.len() == 0 {
            Ok(PatternView::MatchEnd(after))
        } else if after.len() == 0 {
            Ok(PatternView::MatchStart(before))
        } else {
            Ok(PatternView::MatchBothEnds(before, after))
        }
    } else if has_empty_interior(parts) {
        Err(())
    } else {
        Ok(PatternView::Multipart(segments(parts)))
    }
}

/// `result` is what compiling `p` gives.
pub open spec fn compiles_to(p: Seq<char>, result: Result<GlobPattern, ()>) -> bool {
    match compiled(p) {
        Ok(v) => result matches Ok(g) && g@ == v,
        Err(_) => result is Err,
    }
}

impl SegmentView {
    /// The segment's literal is not empty; `AnyEnd` has none.
    pub open spec fn has_text(self) -> bool {
        match self {
            SegmentView::ExactStart(lit) => lit.len() > 0,
            SegmentView::AnyUntil(lit) => lit.len() > 0,
            SegmentView::AnyUntilExactEnd(lit) => lit.len() > 0,
            SegmentView::AnyEnd => true,
        }
    }

    /// The segment closes a pattern: it is `AnyEnd` or `AnyUntilExactEnd`.
    pub open spec fn is_closing(self) -> bool {
        self is AnyEnd || self is AnyUntilExactEnd
    }
}

impl PatternView {
    /// The shape that every compiled pattern has. A segment list is not
    /// empty; its last segment, and no other, is `AnyEnd` or
    /// `AnyUntilExactEnd`; only its first segment may be `ExactStart`; and no
    /// literal in it is empty.
    pub open spec fn well_formed(self) -> bool {
        match self {
            PatternView::Multipart(segs) => {
                &&& segs.len() > 0
                &&& forall|i: int|
                    0 <= i < segs.len() ==> (#[trigger] segs[i].is_closing() <==> i == segs.len()
                        - 1)
                &&& forall|i: int| 0 < i < segs.len() ==> !(#[trigger] segs[i] is ExactStart)
                &&& forall|i: int| 0 <= i < segs.len() ==> #[trigger] segs[i].has_text()
            },
            _ => true,
        }
    }
}

/// The number of wildcards in a pattern.
pub open spec fn wildcard_count(p: Seq<char>) -> nat
    decreases p.len(),
{
    if p.len() == 0 {
        0
    } else {
        wildcard_count(p.drop_last()) + if is_wildcard(p.last()) {
            1nat
        } else {
            0nat
        }
    }
}

/// Two wildcards stand side by side somewhere in the pattern.
pub open spec fn has_adjacent_wildcards(p: Seq<char>) -> bool {
    exists|i: int| 0 <= i < p.len() - 1 && is_wildcard(#[trigger] p[i]) && is_wildcard(p[i + 1])
}

/// The pieces put together again, with a wildcard between each two.
pub open spec fn join(parts: Seq<Seq<char>>) -> Seq<char>
    decreases parts.len(),
{
    if parts.len() == 0 {
        Seq::empty()
    } else if parts.len() == 1 {
        parts[0]
    } else {
        join(parts.drop_last()).push('*') + parts.last()
    }
}

/// No piece holds a wildcard.
pub open spec fn wildcard_free(parts: Seq<Seq<char>>) -> bool {
    forall|k: int, j: int|
        0 <= k < parts.len() && 0 <= j < parts[k].len() ==> !is_wildcard(#[trigger] parts[k][j])
}

/// A pattern has one piece more than it has wildcards.
pub proof fn lemma_split_counts_wildcards(p: Seq<char>)
    ensures
        split(p).len() == wildcard_count(p) + 1,
    decreases p.len(),
{
    if p.len() > 0 {
        lemma_split_counts_wildcards(p.drop_last());
    }
}

/// Splitting loses nothing and leaves no wildcard behind: the pieces hold no
/// wildcard, and joined by wildcards they give the pattern back.
pub proof fn lemma_split_rejoins(p: Seq<char>)
    ensures
        wildcard_free(split(p)),
        join(split(p)) == p,
    decreases p.len(),
{
    if p.len() > 0 {
        let q = p.drop_last();
        let before = split(q);
        let now = split(p);
        lemma_split_rejoins(q);
        lemma_split_nonempty(q);
        if is_wildcard(p.last()) {
            assert(now.drop_last() == before);
        } else {
            // The last piece grows by one character; the others stay as they are.
            let grown = before.last().push(p.last());
            assert(now.drop_last() == before.drop_last());
            if before.len() > 1 {
                let stem = join(before.drop_last()).push('*');
                assert(stem + grown == (stem + before.last()).push(p.last()));
            }
        }
        assert(wildcard_free(now));
    }
}

/// The last piece is empty exactly when the pattern is empty or ends with a
/// wildcard.
pub proof fn lemma_last_piece_empty(p: Seq<char>)
    ensures
        split(p).len() >= 1,
        split(p).last().len() == 0 <==> (p.len() == 0 || is_wildcard(p.last())),
{
    lemma_split_nonempty(p);
    if p.len() > 0 {
        lemma_split_nonempty(p.drop_last());
    }
}

/// A piece between two wildcards is empty exactly where two wildcards stand
/// side by side.
pub proof fn lemma_empty_interior_is_adjacency(p: Seq<char>)
    ensures
        has_empty_interior(split(p)) <==> has_adjacent_wildcards(p),
    decreases p.len(),
{
    if p.len() > 0 {
        let q = p.drop_last();
        let before = split(q);
        let now = split(p);
        lemma_empty_interior_is_adjacency(q);
        lemma_last_piece_empty(q);
        lemma_split_counts_wildcards(q);
        if has_adjacent_wildcards(p) {
            let i = choose|i: int|
                0 <= i < p.len() - 1 && is_wildcard(#[trigger] p[i]) && is_wildcard(p[i + 1]);
            if i < q.len() - 1 {
                // The two wildcards stood side by side before the last character came.
                assert(is_wildcard(q[i]) && is_wildcard(q[i + 1]));
                let k = choose|k: int| 0 < k < before.len() - 1 && #[trigger] before[k].len() == 0;
                assert(now[k].len() == 0);
            } else {
                // The last character is the second of them: the piece that was
                // last is empty and now stands between two wildcards.
                assert(now[before.len() - 1].len() == 0);
            }
        }
    }
}

/// A pattern is rejected exactly when two wildcards stand side by side in
/// it.
pub proof fn lemma_rejected_iff_adjacent_wildcards(p: Seq<char>)
    ensures
        compiled(p) is Err <==> has_adjacent_wildcards(p),
{
    lemma_empty_interior_is_adjacency(p);
}

/// Whatever a pattern compiles to is well formed.
pub proof fn lemma_compiled_well_formed(p: Seq<char>)
    ensures
        compiled(p) matches Ok(v) ==> v.well_formed(),
{
    let parts = split(p);
    if parts.len() >= 3 && !has_empty_interior(parts) {
        let segs = segments(parts);
        assert forall|i: int| 0 <= i < segs.len() implies (#[trigger] segs[i].is_closing() <==> i
            == segs.len() - 1) && segs[i].has_text() && (i > 0 ==> !(segs[i] is ExactStart)) by {}
    }
}

/// The views of a vector of segments.
pub open spec fn segment_views(parts: Seq<Multipart>) -> Seq<SegmentView> {
    parts.map_values(|m: Multipart| m@)
}

/// The views of a vector of strings.
pub open spec fn string_views(parts: Seq<String>) -> Seq<Seq<char>> {
    parts.map_values(|s: String| s@)
}

/// Splits a pattern at its wildcards.
pub(crate) fn split_pattern(pattern: &str) -> (parts: Vec<String>)
    ensures
        string_views(parts@) == split(pattern@),
{
    let chars = decode(pattern);
    let mut parts: Vec<String> = Vec::new();
    let mut start: usize = 0;
    let mut i: usize = 0;
    proof {
        assert(pattern@.subrange(0, 0) == Seq::<char>::empty());
    }
    while i < chars.len()
        invariant
            chars@ == pattern@,
            start <= i <= chars@.len(),
            string_views(parts@).push(pattern@.subrange(start as int, i as int)) == split(
                pattern@.take(i as int),
            ),
        decreases chars@.len() - i,
    {
        proof {
            // One character more either closes the current piece or lengthens it.
            let piece = pattern@.subrange(start as int, i as int);
            assert(pattern@.take(i + 1).drop_last() == pattern@.take(i as int));
            assert(piece.push(chars@[i as int]) == pattern@.subrange(start as int, i + 1));
        }
        if chars[i] == '*' {
            let piece = pattern.substring_char(start, i);
            parts.push(String::from_str(piece));
            start = i + 1;
            assert(pattern@.subrange(start as int, start as int) == Seq::<char>::empty());
        }
        i += 1;
    }
    let piece = pattern.substring_char(start, i);
    parts.push(String::from_str(piece));
    assert(pattern@.take(i as int) == pattern@);
    parts
}

/// Builds the segments of a pattern with two or more wildcards from its
/// pieces, and rejects it where a piece between two wildcards is empty.
fn build_multipart(parts: Vec<String>) -> (result: Result<Vec<Multipart>, ()>)
    requires
        parts@.len() >= 3,
    ensures
        match result {
            Ok(segs) => !has_empty_interior(string_views(parts@)) && segment_views(segs@) == segments(
                string_views(parts@),
            ),
            Err(_) => has_empty_interior(string_views(parts@)),
        },
{
    let ghost pieces = string_views(parts@);
    let mut segs: Vec<Multipart> = Vec::with_capacity(parts.len());
    let mut rest = parts;
    let closing = rest.pop().unwrap();
    let mut k: usize = 0;
    for part in it: rest
        invariant
            pieces == string_views(parts@),
            3 <= pieces.len() <= usize::MAX,
            string_views(it.seq()) == pieces.drop_last(),
            k == it.index(),
            k <= pieces.len() - 1,
            forall|j: int| 0 < j < k ==> #[trigger] pieces[j].len() > 0,
            segment_views(segs@) == leading_segments(pieces, k as int),
    {
        assert(k < it.seq().len() == string_views(it.seq()).len() == pieces.len() - 1);
        assert(part@ == pieces[k as int]) by {
            assert(pieces.drop_last()[k as int] == pieces[k as int]);
        }
        let ghost old_segs = segs@;
        if k == 0 {
            if !part.as_str().is_empty() {
                segs.push(Multipart::ExactStart(part));
            }
        } else {
            if part.as_str().is_empty() {
                return Err(());
            }
            segs.push(Multipart::AnyUntil(part));
            assert(segment_views(segs@) == segment_views(old_segs).push(
                SegmentView::AnyUntil(pieces[k as int]),
            ));
        }
        k += 1;
    }
    if closing.as_str().is_empty() {
        segs.push(Multipart::AnyEnd);
    } else {
        segs.push(Multipart::AnyUntilExactEnd(closing));
    }
    Ok(segs)
}

/// Compiles a pattern. A pattern without a wildcard must be matched in
/// full; one with a single wildcard fixes the start, the end or both ends of
/// the subject; one with more is taken apart into segments. A pattern in
/// which two wildcards stand side by side is rejected.
pub fn build_glob_pattern(pattern: &str) -> (result: Result<GlobPattern, ()>)
    ensures
        compiles_to(pattern@, result),
        result is Err <==> has_adjacent_wildcards(pattern@),
        result matches Ok(g) ==> g@.well_formed(),
{
    let mut parts = split_pattern(pattern);
    proof {
        lemma_split_nonempty(pattern@);
        lemma_rejected_iff_adjacent_wildcards(pattern@);
        lemma_compiled_well_formed(pattern@);
    }
    if parts.len() == 1 {
        return Ok(GlobPattern::MatchFull(String::from_str(pattern)));
    }
    if parts.len() == 2 {
        let after = parts.pop().unwrap();
        let before = parts.pop().unwrap();
        return Ok(
            if before.as_str().is_empty() && after.as_str().is_empty() {
                GlobPattern::MatchAny
            } else if before.as_str().is_empty() {
                GlobPattern::MatchEnd(after)
            } else if after.as_str().is_empty() {
                GlobPattern::MatchStart(before)
            } else {
                GlobPattern::MatchBothEnds(before, after)
            },
        );
    }
    match build_multipart(parts) {
        Ok(segs) => Ok(GlobPattern::Multipart(segs)),
        Err(e) => Err(e),
    }
}

} // verus!
