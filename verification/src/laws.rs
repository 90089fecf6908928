//! What holds of compiling and matching in general, proved from the
//! definitions that the contracts of the library are stated in.

use crate::fold::uppercase;
use crate::list::{combined, GlobListView};
use crate::matcher::{accepts, all_accept, any_accepts, closes, match_of, segments_accept};
use crate::pattern::{
    compiled, compiles_to, is_wildcard, join, lemma_compiled_well_formed,
    lemma_split_counts_wildcards, lemma_split_nonempty, lemma_split_rejoins, split,
    wildcard_count, wildcard_free, GlobPattern, PatternView, SegmentView,
};
use crate::text::{first_occurrence, lemma_first_occurrence, occurs_at};
use vstd::prelude::*;

verus! {

/// A pattern without a wildcard compiles to `MatchFull` of itself, and so
/// matches a subject exactly when the subject equals the pattern.
pub proof fn law_plain_pattern_is_equality(p: Seq<char>, s: Seq<char>)
    requires
        wildcard_count(p) == 0,
    ensures
        compiled(p) == Ok::<PatternView, ()>(PatternView::MatchFull(p)),
        match_of(p, s) == Ok::<bool, ()>(s == p),
{
    lemma_split_counts_wildcards(p);
}

/// The pattern `*` compiles to `MatchAny`, which accepts every subject, the
/// empty one too.
pub proof fn law_lone_wildcard_accepts_all(s: Seq<char>)
    ensures
        compiled(seq!['*']) == Ok::<PatternView, ()>(PatternView::MatchAny),
        accepts(PatternView::MatchAny, s),
        match_of(seq!['*'], s) == Ok::<bool, ()>(true),
{
    let p = seq!['*'];
    assert(split(p.drop_last()) == seq![Seq::<char>::empty()]);
    assert(split(p) == seq![Seq::<char>::empty(), Seq::<char>::empty()]);
}

/// By the number of its wildcards: a pattern with none must be matched in
/// full, one with a single wildcard fixes the start, the end or both ends
/// (or nothing, where it is the wildcard alone), and one with more is
/// rejected or taken apart into segments.
pub proof fn law_kind_by_wildcard_count(p: Seq<char>)
    ensures
        wildcard_count(p) == 0 ==> (compiled(p) matches Ok(v) && v is MatchFull),
        wildcard_count(p) == 1 ==> (compiled(p) matches Ok(v) && (v is MatchAny || v is MatchEnd
            || v is MatchStart || v is MatchBothEnds)),
        wildcard_count(p) >= 2 ==> (compiled(p) matches Ok(v) ==> v is Multipart),
{
    lemma_split_counts_wildcards(p);
}

/// A pattern with one wildcard is the literal before it, the wildcard, and
/// the literal after it; it compiles to a test of those two literals against
/// the two ends of the subject.
pub proof fn law_single_wildcard(p: Seq<char>, s: Seq<char>)
    requires
        wildcard_count(p) == 1,
    ensures
        split(p).len() == 2,
        p == split(p)[0].push('*') + split(p)[1],
        match_of(p, s) == Ok::<bool, ()>(
            split(p)[0].is_prefix_of(s) && split(p)[1].is_suffix_of(s),
        ),
{
    lemma_split_counts_wildcards(p);
    lemma_split_rejoins(p);
    let parts = split(p);
    assert(join(parts.drop_last()) == parts[0]);
}

/// Characters other than wildcards, put behind a pattern, lengthen its last
/// piece and change no other.
pub proof fn lemma_split_append_plain(p: Seq<char>, tail: Seq<char>)
    requires
        forall|j: int| 0 <= j < tail.len() ==> !is_wildcard(#[trigger] tail[j]),
    ensures
        split(p).len() >= 1,
        split(p + tail) == split(p).drop_last().push(split(p).last() + tail),
    decreases tail.len(),
{
    lemma_split_nonempty(p);
    let pieces = split(p);
    if tail.len() == 0 {
        assert(p + tail == p);
        assert(pieces.last() + tail == pieces.last());
    } else {
        let shorter = tail.drop_last();
        lemma_split_append_plain(p, shorter);
        assert((p + tail).drop_last() == p + shorter);
        assert((pieces.last() + shorter).push(tail.last()) == pieces.last() + tail);
    }
}

/// Pieces without a wildcard are the pieces of what they join to. Together
/// with `lemma_split_rejoins` this says that splitting at the wildcards and
/// joining with wildcards undo each other.
pub proof fn law_split_inverts_join(parts: Seq<Seq<char>>)
    requires
        parts.len() >= 1,
        wildcard_free(parts),
    ensures
        split(join(parts)) == parts,
    decreases parts.len(),
{
    let last = parts.last();
    assert forall|j: int| 0 <= j < last.len() implies !is_wildcard(#[trigger] last[j]) by {}
    if parts.len() == 1 {
        let nothing = Seq::<char>::empty();
        lemma_split_append_plain(nothing, last);
        assert(nothing + last == last);
    } else {
        let init = parts.drop_last();
        assert(wildcard_free(init)) by {
            assert forall|k: int, j: int|
                0 <= k < init.len() && 0 <= j < init[k].len() implies !is_wildcard(
                #[trigger] init[k][j],
            ) by {}
        }
        law_split_inverts_join(init);
        // What is joined so far, closed by a wildcard, has one more, empty, piece.
        let stem = join(init).push('*');
        assert(stem.drop_last() == join(init));
        assert(split(stem) == init.push(Seq::<char>::empty()));
        lemma_split_append_plain(stem, last);
        assert(init.push(last) == parts);
    }
}

/// An empty list matches no subject with `any_match` and every subject with
/// `all_match`.
pub proof fn law_empty_list(s: Seq<char>)
    ensures
        !GlobListView::empty().any_match(s),
        GlobListView::empty().all_match(s),
{
}

/// Patterns put behind others are asked as well: some pattern of the whole
/// accepts a subject exactly when some pattern of either part does, and
/// every pattern of the whole exactly when every pattern of both parts does.
pub proof fn lemma_accepts_over_concat(a: Seq<PatternView>, b: Seq<PatternView>, s: Seq<char>)
    ensures
        any_accepts(a + b, s) <==> any_accepts(a, s) || any_accepts(b, s),
        all_accept(a + b, s) <==> all_accept(a, s) && all_accept(b, s),
{
    let whole = a + b;
    if any_accepts(a, s) {
        let i = choose|i: int| 0 <= i < a.len() && accepts(#[trigger] a[i], s);
        assert(accepts(whole[i], s));
    }
    if any_accepts(b, s) {
        let i = choose|i: int| 0 <= i < b.len() && accepts(#[trigger] b[i], s);
        assert(accepts(whole[a.len() + i], s));
    }
    if any_accepts(whole, s) {
        let i = choose|i: int| 0 <= i < whole.len() && accepts(#[trigger] whole[i], s);
        if i < a.len() {
            assert(accepts(a[i], s));
        } else {
            assert(accepts(b[i - a.len()], s));
        }
    }
    if all_accept(whole, s) {
        assert forall|i: int| 0 <= i < a.len() implies accepts(#[trigger] a[i], s) by {
            assert(accepts(whole[i], s));
        }
        assert forall|i: int| 0 <= i < b.len() implies accepts(#[trigger] b[i], s) by {
            assert(accepts(whole[a.len() + i], s));
        }
    }
    if all_accept(a, s) && all_accept(b, s) {
        assert forall|i: int| 0 <= i < whole.len() implies accepts(#[trigger] whole[i], s) by {
            if i < a.len() {
                assert(accepts(a[i], s));
            } else {
                assert(accepts(b[i - a.len()], s));
            }
        }
    }
}

/// A combined list matches with `any_match` exactly when one of the lists
/// does, and with `all_match` exactly when all of them do.
pub proof fn law_combined_list(lists: Seq<GlobListView>, s: Seq<char>)
    ensures
        combined(lists).any_match(s) <==> exists|i: int|
            0 <= i < lists.len() && (#[trigger] lists[i]).any_match(s),
        combined(lists).all_match(s) <==> forall|i: int|
            0 <= i < lists.len() ==> (#[trigger] lists[i]).all_match(s),
    decreases lists.len(),
{
    if lists.len() > 0 {
        let init = lists.drop_last();
        let last = lists.last();
        let before = combined(init);
        law_combined_list(init, s);
        lemma_accepts_over_concat(before.ignore_case, last.ignore_case, uppercase(s));
        lemma_accepts_over_concat(before.case_sensitive, last.case_sensitive, s);
        if exists|i: int| 0 <= i < init.len() && (#[trigger] init[i]).any_match(s) {
            let i = choose|i: int| 0 <= i < init.len() && (#[trigger] init[i]).any_match(s);
            assert(lists[i].any_match(s));
        }
        if last.any_match(s) {
            assert(lists[lists.len() - 1].any_match(s));
        }
        if exists|i: int| 0 <= i < lists.len() && (#[trigger] lists[i]).any_match(s) {
            let i = choose|i: int| 0 <= i < lists.len() && (#[trigger] lists[i]).any_match(s);
            if i < init.len() {
                assert(init[i].any_match(s));
            }
        }
        if forall|i: int| 0 <= i < lists.len() ==> (#[trigger] lists[i]).all_match(s) {
            assert(lists[lists.len() - 1].all_match(s));
            assert forall|i: int| 0 <= i < init.len() implies (#[trigger] init[i]).all_match(
                s,
            ) by {
                assert(lists[i].all_match(s));
            }
        }
        if combined(lists).all_match(s) {
            assert forall|i: int| 0 <= i < lists.len() implies (#[trigger] lists[i]).all_match(
                s,
            ) by {
                if i < init.len() {
                    assert(init[i].all_match(s));
                }
            }
        }
    }
}

/// Compiling is a function of the pattern string: two results of compiling
/// one string fail together or hold patterns with the same view. Matching is
/// a function of that view and the subject.
pub proof fn law_compiling_is_a_function(
    p: Seq<char>,
    first: Result<GlobPattern, ()>,
    second: Result<GlobPattern, ()>,
    s: Seq<char>,
)
    requires
        compiles_to(p, first),
        compiles_to(p, second),
    ensures
        first is Err <==> second is Err,
        first matches Ok(a) ==> (second matches Ok(b) && a@ == b@ && accepts(a@, s) == accepts(
            b@,
            s,
        )),
{
}

/// The segments from the `k`-th on can be placed in `s` from `at` on: each
/// `AnyUntil` literal at some place, none before the end of the one before
/// it; an `ExactStart` literal at `at` itself; an `AnyUntilExactEnd` literal
/// at the end of the subject.
pub open spec fn placeable(segs: Seq<SegmentView>, k: int, s: Seq<char>, at: int) -> bool
    decreases segs.len() - k,
{
    if k < 0 || k >= segs.len() {
        true
    } else {
        match segs[k] {
            SegmentView::AnyEnd => true,
            SegmentView::ExactStart(lit) => occurs_at(s, lit, at) && placeable(
                segs,
                k + 1,
                s,
                at + lit.len(),
            ),
            SegmentView::AnyUntil(lit) => exists|i: int|
                at <= i && #[trigger] occurs_at(s, lit, i) && placeable(
                    segs,
                    k + 1,
                    s,
                    i + lit.len(),
                ),
            SegmentView::AnyUntilExactEnd(lit) => closes(s, lit, at),
        }
    }
}

/// Segments that can be placed from some position on can be placed from any
/// earlier one, unless the first of them is an `ExactStart`.
pub proof fn lemma_placeable_from_earlier(
    segs: Seq<SegmentView>,
    k: int,
    s: Seq<char>,
    at: int,
    later: int,
)
    requires
        PatternView::Multipart(segs).well_formed(),
        0 < k <= segs.len(),
        at <= later,
        placeable(segs, k, s, later),
    ensures
        placeable(segs, k, s, at),
{
    if k < segs.len() {
        match segs[k] {
            SegmentView::AnyUntil(lit) => {
                let i = choose|i: int|
                    later <= i && #[trigger] occurs_at(s, lit, i) && placeable(
                        segs,
                        k + 1,
                        s,
                        i + lit.len(),
                    );
                // What fits from `later` on fits from `at` on, at the same place.
                assert(at <= i && occurs_at(s, lit, i));
            },
            _ => {},
        }
    }
}

/// Taking the first place at which each segment fits loses nothing: a well
/// formed segment list is accepted by the scan exactly when its segments
/// can be placed in the subject at all.
pub proof fn law_first_fit_is_complete(segs: Seq<SegmentView>, k: int, s: Seq<char>, at: int)
    requires
        PatternView::Multipart(segs).well_formed(),
        0 <= k <= segs.len(),
        0 <= at,
    ensures
        segments_accept(segs, k, s, at) == placeable(segs, k, s, at),
    decreases segs.len() - k,
{
    if k < segs.len() {
        assert(segs[k].has_text());
        match segs[k] {
            SegmentView::AnyEnd => {},
            SegmentView::ExactStart(lit) => {
                law_first_fit_is_complete(segs, k + 1, s, at + lit.len());
            },
            SegmentView::AnyUntil(lit) => {
                lemma_first_occurrence(s, lit, at);
                match first_occurrence(s, lit, at) {
                    Some(first) => {
                        law_first_fit_is_complete(segs, k + 1, s, first + lit.len());
                        if placeable(segs, k, s, at) {
                            let i = choose|i: int|
                                at <= i && #[trigger] occurs_at(s, lit, i) && placeable(
                                    segs,
                                    k + 1,
                                    s,
                                    i + lit.len(),
                                );
                            // The first place is no later than the chosen one, so what
                            // follows the chosen one also follows the first.
                            assert(first <= i);
                            lemma_placeable_from_earlier(
                                segs,
                                k + 1,
                                s,
                                first + lit.len(),
                                i + lit.len(),
                            );
                        }
                    },
                    None => {},
                }
            },
            SegmentView::AnyUntilExactEnd(lit) => {},
        }
    }
}

/// A pattern with two or more wildcards that compiles accepts a subject
/// exactly when its segments can be placed in it, one after the other.
pub proof fn law_multipart_accepts_what_fits(p: Seq<char>, s: Seq<char>)
    requires
        compiled(p) is Ok,
        wildcard_count(p) >= 2,
    ensures
        compiled(p) matches Ok(PatternView::Multipart(segs)) && (accepts(
            PatternView::Multipart(segs),
            s,
        ) <==> placeable(segs, 0, s, 0)),
{
    lemma_split_counts_wildcards(p);
    lemma_compiled_well_formed(p);
    match compiled(p) {
        Ok(PatternView::Multipart(segs)) => {
            law_first_fit_is_complete(segs, 0, s, 0);
        },
        _ => {},
    }
}

/// What matters of an `AnyUntilExactEnd` literal is where the subject ends:
/// it closes the subject from `at` on exactly when it stands somewhere at
/// or after `at` and ends where the subject ends.
pub proof fn law_closes_is_anchored_occurrence(s: Seq<char>, lit: Seq<char>, at: int)
    requires
        0 <= at,
    ensures
        closes(s, lit, at) <==> exists|i: int|
            at <= i && #[trigger] occurs_at(s, lit, i) && i + lit.len() == s.len(),
{
    if closes(s, lit, at) {
        assert(occurs_at(s, lit, s.len() - lit.len()));
    }
}

} // verus!
