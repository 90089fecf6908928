//! Patterns bound to a way of treating case, and lists of such patterns that
//! are asked whether any or all of their patterns match a subject.

use crate::fold::{to_uppercase, uppercase};
use crate::matcher::{accepts, all_accept, any_accepts, glob_match_prebuilt, match_chars};
use crate::pattern::{build_glob_pattern, compiled, string_views, GlobPattern, PatternView};
use crate::text::decode;
use vstd::prelude::*;

verus! {

/// A compiled pattern that is matched with case mattering.
#[derive(Debug, Clone)]
pub struct GlobCaseSensitive(GlobPattern);

/// A compiled pattern that is matched without regard to case: it was
/// compiled from the upper-case form of its pattern string, and subjects are
/// folded to upper case before they are matched.
#[derive(Debug, Clone)]
pub struct GlobIgnoreCase(GlobPattern);

impl View for GlobCaseSensitive {
    type V = PatternView;

    closed spec fn view(&self) -> PatternView {
        self.0@
    }
}

impl View for GlobIgnoreCase {
    type V = PatternView;

    closed spec fn view(&self) -> PatternView {
        self.0@
    }
}

impl GlobCaseSensitive {
    /// Compiles `pattern` as it stands.
    pub fn build(pattern: &str) -> (result: Result<GlobCaseSensitive, ()>)
        ensures
            match compiled(pattern@) {
                Ok(v) => result matches Ok(g) && g@ == v,
                Err(_) => result is Err,
            },
            result matches Ok(g) ==> g@.well_formed(),
    {
        match build_glob_pattern(pattern) {
            Ok(p) => Ok(GlobCaseSensitive(p)),
            Err(e) => Err(e),
        }
    }

    /// Tests whether the pattern accepts `value` as it stands.
    pub fn is_match(&self, value: &str) -> (matched: bool)
        ensures
            matched == accepts(self@, value@),
    {
        glob_match_prebuilt(&self.0, value)
    }
}

impl GlobIgnoreCase {
    /// Compiles the upper-case form of `pattern`.
    pub fn build(pattern: &str) -> (result: Result<GlobIgnoreCase, ()>)
        ensures
            match compiled(uppercase(pattern@)) {
                Ok(v) => result matches Ok(g) && g@ == v,
                Err(_) => result is Err,
            },
            result matches Ok(g) ==> g@.well_formed(),
    {
        let folded = to_uppercase(pattern);
        match build_glob_pattern(folded.as_str()) {
            Ok(p) => Ok(GlobIgnoreCase(p)),
            Err(e) => Err(e),
        }
    }

    /// Tests whether the pattern accepts the upper-case form of `value`.
    pub fn is_match(&self, value: &str) -> (matched: bool)
        ensures
            matched == accepts(self@, uppercase(value@)),
    {
        let folded = to_uppercase(value);
        glob_match_prebuilt(&self.0, folded.as_str())
    }
}

/// The views of a sequence of case-sensitive patterns.
pub open spec fn sensitive_views(patterns: Seq<GlobCaseSensitive>) -> Seq<PatternView> {
    patterns.map_values(|p: GlobCaseSensitive| p@)
}

/// The views of a sequence of case-insensitive patterns.
pub open spec fn ignore_case_views(patterns: Seq<GlobIgnoreCase>) -> Seq<PatternView> {
    patterns.map_values(|p: GlobIgnoreCase| p@)
}

/// A list of patterns, some matched with case mattering and some without.
#[derive(Debug, Clone)]
pub struct GlobList {
    ignore_case_patterns: Vec<GlobIgnoreCase>,
    case_sensitive_patterns: Vec<GlobCaseSensitive>,
}

/// What a [`GlobList`] holds: its patterns, in the order in which they were
/// added, in two groups.
pub struct GlobListView {
    pub ignore_case: Seq<PatternView>,
    pub case_sensitive: Seq<PatternView>,
}

impl View for GlobList {
    type V = GlobListView;

    closed spec fn view(&self) -> GlobListView {
        GlobListView {
            ignore_case: ignore_case_views(self.ignore_case_patterns@),
            case_sensitive: sensitive_views(self.case_sensitive_patterns@),
        }
    }
}

impl GlobListView {
    /// The list without a pattern.
    pub open spec fn empty() -> GlobListView {
        GlobListView { ignore_case: Seq::empty(), case_sensitive: Seq::empty() }
    }

    /// Neither group holds a pattern.
    pub open spec fn is_empty(self) -> bool {
        self.ignore_case.len() == 0 && self.case_sensitive.len() == 0
    }

    /// Some pattern of the list accepts `value`: a case-sensitive one as it
    /// stands, or a case-insensitive one in its upper-case form.
    pub open spec fn any_match(self, value: Seq<char>) -> bool {
        any_accepts(self.ignore_case, uppercase(value)) || any_accepts(self.case_sensitive, value)
    }

    /// Every pattern of the list accepts `value`: the case-sensitive ones as
    /// it stands, the case-insensitive ones in its upper-case form.
    pub open spec fn all_match(self, value: Seq<char>) -> bool {
        all_accept(self.ignore_case, uppercase(value)) && all_accept(self.case_sensitive, value)
    }

    /// This list followed by `other`, group by group.
    pub open spec fn concat(self, other: GlobListView) -> GlobListView {
        GlobListView {
            ignore_case: self.ignore_case + other.ignore_case,
            case_sensitive: self.case_sensitive + other.case_sensitive,
        }
    }
}

/// What compiling every pattern string of `patterns` gives: the compiled
/// patterns in order, or an error where one of them cannot be compiled.
pub open spec fn compiled_all(patterns: Seq<Seq<char>>) -> Result<Seq<PatternView>, ()> {
    if exists|i: int| 0 <= i < patterns.len() && compiled(#[trigger] patterns[i]) is Err {
        Err(())
    } else {
        Ok(Seq::new(patterns.len(), |i: int| compiled(patterns[i])->Ok_0))
    }
}

/// The upper-case forms of a sequence of strings.
pub open spec fn uppercase_all(patterns: Seq<Seq<char>>) -> Seq<Seq<char>> {
    patterns.map_values(|p: Seq<char>| uppercase(p))
}

/// The views of a sequence of lists.
pub open spec fn list_views(lists: Seq<GlobList>) -> Seq<GlobListView> {
    lists.map_values(|l: GlobList| l@)
}

/// The lists of `lists` one after the other.
pub open spec fn combined(lists: Seq<GlobListView>) -> GlobListView
    decreases lists.len(),
{
    if lists.len() == 0 {
        GlobListView::empty()
    } else {
        combined(lists.drop_last()).concat(lists.last())
    }
}

impl Default for GlobList {
    /// A list without a pattern.
    fn default() -> (list: GlobList)
        ensures
            list@ == GlobListView::empty(),
    {
        GlobList::new()
    }
}

/// Tests whether some pattern of `patterns` accepts the decoded subject.
fn any_case_sensitive(patterns: &Vec<GlobCaseSensitive>, subject: &[char]) -> (matched: bool)
    ensures
        matched == any_accepts(sensitive_views(patterns@), subject@),
{
    let mut i: usize = 0;
    while i < patterns.len()
        invariant
            i <= patterns@.len(),
            forall|j: int|
                0 <= j < i ==> !accepts(#[trigger] sensitive_views(patterns@)[j], subject@),
        decreases patterns@.len() - i,
    {
        if match_chars(&patterns[i].0, subject) {
            assert(accepts(sensitive_views(patterns@)[i as int], subject@));
            return true;
        }
        i += 1;
    }
    false
}

/// Tests whether some pattern of `patterns` accepts the decoded, folded
/// subject.
fn any_ignore_case(patterns: &Vec<GlobIgnoreCase>, subject: &[char]) -> (matched: bool)
    ensures
        matched == any_accepts(ignore_case_views(patterns@), subject@),
{
    let mut i: usize = 0;
    while i < patterns.len()
        invariant
            i <= patterns@.len(),
            forall|j: int|
                0 <= j < i ==> !accepts(#[trigger] ignore_case_views(patterns@)[j], subject@),
        decreases patterns@.len() - i,
    {
        if match_chars(&patterns[i].0, subject) {
            assert(accepts(ignore_case_views(patterns@)[i as int], subject@));
            return true;
        }
        i += 1;
    }
    false
}

/// Tests whether every pattern of `patterns` accepts the decoded subject.
fn all_case_sensitive(patterns: &Vec<GlobCaseSensitive>, subject: &[char]) -> (matched: bool)
    ensures
        matched == all_accept(sensitive_views(patterns@), subject@),
{
    let mut i: usize = 0;
    while i < patterns.len()
        invariant
            i <= patterns@.len(),
            forall|j: int|
                0 <= j < i ==> accepts(#[trigger] sensitive_views(patterns@)[j], subject@),
        decreases patterns@.len() - i,
    {
        if !match_chars(&patterns[i].0, subject) {
            assert(!accepts(sensitive_views(patterns@)[i as int], subject@));
            return false;
        }
        i += 1;
    }
    true
}

/// Tests whether every pattern of `patterns` accepts the decoded, folded
/// subject.
fn all_ignore_case(patterns: &Vec<GlobIgnoreCase>, subject: &[char]) -> (matched: bool)
    ensures
        matched == all_accept(ignore_case_views(patterns@), subject@),
{
    let mut i: usize = 0;
    while i < patterns.len()
        invariant
            i <= patterns@.len(),
            forall|j: int|
                0 <= j < i ==> accepts(#[trigger] ignore_case_views(patterns@)[j], subject@),
        decreases patterns@.len() - i,
    {
        if !match_chars(&patterns[i].0, subject) {
            assert(!accepts(ignore_case_views(patterns@)[i as int], subject@));
            return false;
        }
        i += 1;
    }
    true
}

impl GlobList {
    /// A list without a pattern.
    pub fn new() -> (list: GlobList)
        ensures
            list@ == GlobListView::empty(),
    {
        let list = GlobList {
            ignore_case_patterns: Vec::new(),
            case_sensitive_patterns: Vec::new(),
        };
        assert(list@.ignore_case == Seq::<PatternView>::empty());
        assert(list@.case_sensitive == Seq::<PatternView>::empty());
        list
    }

    /// Compiles every pattern string of `patterns`, in order, into a list
    /// that matches with case mattering. One pattern that cannot be
    /// compiled fails the whole list.
    pub fn build(patterns: &[String]) -> (result: Result<GlobList, ()>)
        ensures
            match compiled_all(string_views(patterns@)) {
                Ok(vs) => result matches Ok(list) && list@ == (GlobListView {
                    ignore_case: Seq::empty(),
                    case_sensitive: vs,
                }),
                Err(_) => result is Err,
            },
    {
        let ghost sources = string_views(patterns@);
        let mut built: Vec<GlobCaseSensitive> = Vec::with_capacity(patterns.len());
        let mut i: usize = 0;
        while i < patterns.len()
            invariant
                sources == string_views(patterns@),
                i <= patterns@.len(),
                built@.len() == i,
                forall|j: int|
                    0 <= j < i ==> compiled(#[trigger] sources[j]) == Ok::<PatternView, ()>(
                        built@[j]@,
                    ),
            decreases patterns@.len() - i,
        {
            match GlobCaseSensitive::build(patterns[i].as_str()) {
                Ok(p) => {
                    built.push(p);
                },
                Err(e) => {
                    assert(compiled(sources[i as int]) is Err);
                    return Err(e);
                },
            }
            i += 1;
        }
        let list = GlobList { ignore_case_patterns: Vec::new(), case_sensitive_patterns: built };
        assert(list@.ignore_case == Seq::<PatternView>::empty());
        assert(list@.case_sensitive == compiled_all(sources)->Ok_0);
        Ok(list)
    }

    /// Compiles the upper-case form of every pattern string of `patterns`,
    /// in order, into a list that matches without regard to case. One
    /// pattern that cannot be compiled fails the whole list.
    pub fn build_ignore_case(patterns: &[String]) -> (result: Result<GlobList, ()>)
        ensures
            match compiled_all(uppercase_all(string_views(patterns@))) {
                Ok(vs) => result matches Ok(list) && list@ == (GlobListView {
                    ignore_case: vs,
                    case_sensitive: Seq::empty(),
                }),
                Err(_) => result is Err,
            },
    {
        let ghost sources = uppercase_all(string_views(patterns@));
        let mut built: Vec<GlobIgnoreCase> = Vec::with_capacity(patterns.len());
        let mut i: usize = 0;
        while i < patterns.len()
            invariant
                sources == uppercase_all(string_views(patterns@)),
                i <= patterns@.len(),
                built@.len() == i,
                forall|j: int|
                    0 <= j < i ==> compiled(#[trigger] sources[j]) == Ok::<PatternView, ()>(
                        built@[j]@,
                    ),
            decreases patterns@.len() - i,
        {
            match GlobIgnoreCase::build(patterns[i].as_str()) {
                Ok(p) => {
                    built.push(p);
                },
                Err(e) => {
                    assert(compiled(sources[i as int]) is Err);
                    return Err(e);
                },
            }
            i += 1;
        }
        let list = GlobList { ignore_case_patterns: built, case_sensitive_patterns: Vec::new() };
        assert(list@.case_sensitive == Seq::<PatternView>::empty());
        assert(list@.ignore_case == compiled_all(sources)->Ok_0);
        Ok(list)
    }

    /// Adds a case-insensitive pattern at the end of its group.
    pub fn add_ignore_case(&mut self, pattern: GlobIgnoreCase)
        ensures
            final(self)@ == (GlobListView {
                ignore_case: old(self)@.ignore_case.push(pattern@),
                case_sensitive: old(self)@.case_sensitive,
            }),
    {
        self.ignore_case_patterns.push(pattern);
        assert(self@.ignore_case == old(self)@.ignore_case.push(pattern@));
    }

    /// Adds a case-sensitive pattern at the end of its group.
    pub fn add_case_sensitive(&mut self, pattern: GlobCaseSensitive)
        ensures
            final(self)@ == (GlobListView {
                ignore_case: old(self)@.ignore_case,
                case_sensitive: old(self)@.case_sensitive.push(pattern@),
            }),
    {
        self.case_sensitive_patterns.push(pattern);
        assert(self@.case_sensitive == old(self)@.case_sensitive.push(pattern@));
    }

    /// A list of the given patterns, in their order.
    pub fn from_patterns(
        case_sensitive: Vec<GlobCaseSensitive>,
        ignore_case: Vec<GlobIgnoreCase>,
    ) -> (list: GlobList)
        ensures
            list@ == (GlobListView {
                ignore_case: ignore_case_views(ignore_case@),
                case_sensitive: sensitive_views(case_sensitive@),
            }),
    {
        GlobList { ignore_case_patterns: ignore_case, case_sensitive_patterns: case_sensitive }
    }

    /// One list that holds the patterns of all of `glob_lists`, list after
    /// list.
    pub fn combine(glob_lists: Vec<GlobList>) -> (list: GlobList)
        ensures
            list@ == combined(list_views(glob_lists@)),
    {
        let ghost sources = list_views(glob_lists@);
        let mut acc = GlobList::new();
        for item in it: glob_lists
            invariant
                sources == list_views(glob_lists@),
                it.seq() == glob_lists@,
                acc@ == combined(sources.take(it.index())),
        {
            let ghost before = acc@;
            let ghost added = item@;
            let mut item = item;
            proof {
                let k = it.index();
                assert(sources.take(k + 1).drop_last() == sources.take(k));
            }
            acc.ignore_case_patterns.append(&mut item.ignore_case_patterns);
            acc.case_sensitive_patterns.append(&mut item.case_sensitive_patterns);
            assert(acc@.ignore_case == before.ignore_case + added.ignore_case);
            assert(acc@.case_sensitive == before.case_sensitive + added.case_sensitive);
        }
        assert(sources.take(sources.len() as int) == sources);
        acc
    }

    /// Tests whether the list holds no pattern.
    pub fn is_empty(&self) -> (empty: bool)
        ensures
            empty == self@.is_empty(),
    {
        self.ignore_case_patterns.is_empty() && self.case_sensitive_patterns.is_empty()
    }

    /// Tests whether at least one pattern of the list matches `value`. An
    /// empty list matches nothing.
    pub fn any_match(&self, value: &str) -> (matched: bool)
        ensures
            matched == self@.any_match(value@),
    {
        if !self.ignore_case_patterns.is_empty() {
            let folded = to_uppercase(value);
            let subject = decode(folded.as_str());
            if any_ignore_case(&self.ignore_case_patterns, subject.as_slice()) {
                return true;
            }
        }
        if self.case_sensitive_patterns.is_empty() {
            return false;
        }
        let subject = decode(value);
        any_case_sensitive(&self.case_sensitive_patterns, subject.as_slice())
    }

    /// Tests whether every pattern of the list matches `value`. An empty
    /// list matches everything.
    pub fn all_match(&self, value: &str) -> (matched: bool)
        ensures
            matched == self@.all_match(value@),
    {
        if !self.ignore_case_patterns.is_empty() {
            let folded = to_uppercase(value);
            let subject = decode(folded.as_str());
            if !all_ignore_case(&self.ignore_case_patterns, subject.as_slice()) {
                return false;
            }
        }
        if self.case_sensitive_patterns.is_empty() {
            return true;
        }
        let subject = decode(value);
        all_case_sensitive(&self.case_sensitive_patterns, subject.as_slice())
    }
}

} // verus!
