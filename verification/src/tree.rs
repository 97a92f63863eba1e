//! Multi-character sequence resolution by leftmost-longest matching.
//!
//! [`LigatureTree`] wraps an Aho-Corasick automaton (from the `aho_corasick` crate) built with
//! leftmost-longest semantics: at any position of the input, the longest registered sequence
//! wins, and the search resumes *after* the matched region. A ligature like `->` therefore takes
//! precedence over its prefix `-`, and no character is consumed by more than one match.
//!
//! Matching works on the UTF-8 bytes of the input and of the patterns.
use vstd::prelude::*;

use aho_corasick::{AhoCorasick, BuildError, Input, MatchKind};

verus! {

// ----------------------------------------------------------------------------------------------
// Match semantics
// ----------------------------------------------------------------------------------------------

/// Whether pattern `p` occurs in `h` starting at byte `i`.
pub open spec fn occurs_at(p: Seq<u8>, h: Seq<u8>, i: int) -> bool {
    0 <= i && i + p.len() <= h.len() && h.subrange(i, i + p.len()) == p
}

/// Whether some pattern occurs in `h` starting at byte `i`.
pub open spec fn any_occurs_at(ps: Seq<Seq<u8>>, h: Seq<u8>, i: int) -> bool {
    exists|k: int| 0 <= k < ps.len() && #[trigger] occurs_at(ps[k], h, i)
}

/// The first position at or after `i` (and at most `h.len()`) where some pattern occurs.
pub open spec fn first_match_start(ps: Seq<Seq<u8>>, h: Seq<u8>, i: int) -> Option<int>
    decreases h.len() + 1 - i,
{
    if i < 0 || i > h.len() {
        None
    } else if any_occurs_at(ps, h, i) {
        Some(i)
    } else {
        first_match_start(ps, h, i + 1)
    }
}

/// Among the first `n` patterns, the index of a longest one occurring at `i`; between patterns of
/// equal length the one added first wins.
pub open spec fn longest_at(ps: Seq<Seq<u8>>, h: Seq<u8>, i: int, n: nat) -> Option<nat>
    decreases n,
{
    if n == 0 {
        None
    } else {
        let prev = longest_at(ps, h, i, (n - 1) as nat);
        let k = (n - 1) as nat;
        if occurs_at(ps[k as int], h, i) && (prev is None || ps[prev->0 as int].len()
            < ps[k as int].len()) {
            Some(k)
        } else {
            prev
        }
    }
}

/// The leftmost-longest match of the patterns in `h` at or after `start`, as
/// `(pattern index, match start, match end)`.
pub open spec fn leftmost_longest(ps: Seq<Seq<u8>>, h: Seq<u8>, start: int) -> Option<
    (int, int, int),
> {
    match first_match_start(ps, h, start) {
        None => None,
        Some(i) => match longest_at(ps, h, i, ps.len()) {
            Some(k) => Some((k as int, i, i + ps[k as int].len())),
            None => None,
        },
    }
}

/// One step of iterating over non-overlapping matches from `start`: an empty match that ends
/// where the previous match ended is skipped by searching again one byte later.
pub open spec fn match_step(
    ps: Seq<Seq<u8>>,
    h: Seq<u8>,
    start: int,
    last_end: Option<int>,
) -> Option<(int, int, int)> {
    match leftmost_longest(ps, h, start) {
        None => None,
        Some(m) => if m.1 == m.2 && last_end == Some(m.2) {
            leftmost_longest(ps, h, start + 1)
        } else {
            Some(m)
        },
    }
}

/// The measure that decreases along the iteration of `all_matches`.
pub open spec fn iteration_measure(h: Seq<u8>, start: int, last_end: Option<int>) -> int {
    (h.len() + 2 - start) * 2 + if last_end == Some(start) {
        0int
    } else {
        1int
    }
}

/// All non-overlapping leftmost-longest matches of the patterns in `h`, from `start`, in order.
pub open spec fn all_matches(ps: Seq<Seq<u8>>, h: Seq<u8>, start: int, last_end: Option<int>) -> Seq<
    (int, int, int),
>
    decreases iteration_measure(h, start, last_end),
{
    if start < 0 || start > h.len() {
        seq![]
    } else {
        match match_step(ps, h, start, last_end) {
            None => seq![],
            Some(m) => {
                proof {
                    lemma_match_step_bounds(ps, h, start, last_end);
                }
                seq![m] + all_matches(ps, h, m.2, Some(m.2))
            },
        }
    }
}

pub proof fn lemma_first_match_start_bounds(ps: Seq<Seq<u8>>, h: Seq<u8>, i: int)
    ensures
        first_match_start(ps, h, i) matches Some(j) ==> i <= j <= h.len() && any_occurs_at(
            ps,
            h,
            j,
        ),
    decreases h.len() + 1 - i,
{
    if i >= 0 && i <= h.len() && !any_occurs_at(ps, h, i) {
        lemma_first_match_start_bounds(ps, h, i + 1);
    }
}

pub proof fn lemma_longest_at_bounds(ps: Seq<Seq<u8>>, h: Seq<u8>, i: int, n: nat)
    requires
        n <= ps.len(),
    ensures
        longest_at(ps, h, i, n) matches Some(k) ==> k < n && occurs_at(ps[k as int], h, i),
        (exists|k: int| 0 <= k < n && #[trigger] occurs_at(ps[k], h, i)) ==> longest_at(
            ps,
            h,
            i,
            n,
        ) is Some,
    decreases n,
{
    if n > 0 {
        lemma_longest_at_bounds(ps, h, i, (n - 1) as nat);
        if exists|k: int| 0 <= k < n && #[trigger] occurs_at(ps[k], h, i) {
            let k = choose|k: int| 0 <= k < n && #[trigger] occurs_at(ps[k], h, i);
            if k < n - 1 {
                assert(longest_at(ps, h, i, (n - 1) as nat) is Some);
            }
        }
    }
}

/// The pattern chosen by `longest_at` is at least as long as every other pattern occurring there.
pub proof fn lemma_longest_at_max(ps: Seq<Seq<u8>>, h: Seq<u8>, i: int, n: nat)
    requires
        n <= ps.len(),
    ensures
        longest_at(ps, h, i, n) matches Some(k) ==> forall|m: int|
            0 <= m < n && #[trigger] occurs_at(ps[m], h, i) ==> ps[m].len() <= ps[k as int].len(),
    decreases n,
{
    if n > 0 {
        lemma_longest_at_max(ps, h, i, (n - 1) as nat);
        lemma_longest_at_bounds(ps, h, i, (n - 1) as nat);
    }
}

/// With no pattern given twice, a pattern given on its own as input is matched whole.
pub proof fn lemma_whole_pattern_resolves(ps: Seq<Seq<u8>>, k: int)
    requires
        0 <= k < ps.len(),
        ps.no_duplicates(),
    ensures
        leftmost_longest(ps, ps[k], 0) == Some((k, 0int, ps[k].len() as int)),
{
    let h = ps[k];
    assert(h.subrange(0, h.len() as int) =~= h);
    assert(occurs_at(ps[k], h, 0));
    assert(any_occurs_at(ps, h, 0));
    lemma_longest_at_bounds(ps, h, 0, ps.len());
    lemma_longest_at_max(ps, h, 0, ps.len());
    let j = longest_at(ps, h, 0, ps.len())->0 as int;
    assert(ps[j] =~= h.subrange(0, ps[j].len() as int));
    assert(ps[j] =~= h);
}

/// A leftmost-longest match lies within the searched part of the haystack and is an occurrence
/// of the reported pattern.
pub proof fn lemma_leftmost_longest_bounds(ps: Seq<Seq<u8>>, h: Seq<u8>, start: int)
    ensures
        leftmost_longest(ps, h, start) matches Some((k, s, e)) ==> {
            &&& 0 <= k < ps.len()
            &&& start <= s <= e <= h.len()
            &&& e == s + ps[k].len()
            &&& occurs_at(ps[k], h, s)
        },
        (first_match_start(ps, h, start) is Some) == (leftmost_longest(ps, h, start) is Some),
{
    lemma_first_match_start_bounds(ps, h, start);
    if let Some(i) = first_match_start(ps, h, start) {
        lemma_longest_at_bounds(ps, h, i, ps.len());
    }
}

pub proof fn lemma_match_step_bounds(ps: Seq<Seq<u8>>, h: Seq<u8>, start: int, last_end: Option<int>)
    requires
        0 <= start <= h.len(),
    ensures
        match_step(ps, h, start, last_end) matches Some(m) ==> {
            &&& 0 <= m.0 < ps.len()
            &&& start <= m.1 <= m.2 <= h.len()
            &&& occurs_at(ps[m.0], h, m.1)
            &&& m.2 == m.1 + ps[m.0].len()
            &&& iteration_measure(h, m.2, Some(m.2)) < iteration_measure(h, start, last_end)
        },
{
    lemma_leftmost_longest_bounds(ps, h, start);
    lemma_leftmost_longest_bounds(ps, h, start + 1);
}

/// Matches found by iteration follow one another without overlapping.
pub proof fn lemma_all_matches_ordered(
    ps: Seq<Seq<u8>>,
    h: Seq<u8>,
    start: int,
    last_end: Option<int>,
)
    ensures
        forall|i: int|
            0 <= i < all_matches(ps, h, start, last_end).len() ==> {
                let m = #[trigger] all_matches(ps, h, start, last_end)[i];
                &&& start <= m.1 <= m.2 <= h.len()
                &&& 0 <= m.0 < ps.len()
                &&& occurs_at(ps[m.0], h, m.1)
            },
        forall|i: int|
            0 <= i < all_matches(ps, h, start, last_end).len() - 1 ==> (#[trigger] all_matches(
                ps,
                h,
                start,
                last_end,
            )[i]).2 <= all_matches(ps, h, start, last_end)[i + 1].1,
    decreases iteration_measure(h, start, last_end),
{
    if 0 <= start <= h.len() {
        lemma_match_step_bounds(ps, h, start, last_end);
        if let Some(m) = match_step(ps, h, start, last_end) {
            lemma_all_matches_ordered(ps, h, m.2, Some(m.2));
            let rest = all_matches(ps, h, m.2, Some(m.2));
            let all = all_matches(ps, h, start, last_end);
            assert(all == seq![m] + rest);
            assert forall|i: int| 0 <= i < all.len() implies {
                let x = #[trigger] all[i];
                &&& start <= x.1 <= x.2 <= h.len()
                &&& 0 <= x.0 < ps.len()
                &&& occurs_at(ps[x.0], h, x.1)
            } by {
                if i > 0 {
                    assert(all[i] == rest[i - 1]);
                }
            }
            assert forall|i: int| 0 <= i < all.len() - 1 implies (#[trigger] all[i]).2 <= all[i
                + 1].1 by {
                assert(all[i + 1] == rest[i]);
                if i > 0 {
                    assert(all[i] == rest[i - 1]);
                }
            }
        }
    }
}

/// With no empty pattern, the iteration is repeated leftmost-longest search: the first match
/// is the leftmost-longest one at or after `start`, each next one is the leftmost-longest one
/// at or after the end of the one before, and none is left after the last.
pub proof fn lemma_all_matches_iterate(
    ps: Seq<Seq<u8>>,
    h: Seq<u8>,
    start: int,
    last_end: Option<int>,
)
    requires
        forall|k: int| 0 <= k < ps.len() ==> (#[trigger] ps[k]).len() > 0,
        0 <= start <= h.len(),
    ensures
        ({
            let ms = all_matches(ps, h, start, last_end);
            &&& (ms.len() == 0) == (leftmost_longest(ps, h, start) is None)
            &&& ms.len() > 0 ==> Some(ms[0]) == leftmost_longest(ps, h, start)
            &&& forall|i: int|
                0 <= i < ms.len() - 1 ==> Some(ms[i + 1]) == leftmost_longest(
                    ps,
                    h,
                    (#[trigger] ms[i]).2,
                )
            &&& ms.len() > 0 ==> leftmost_longest(ps, h, ms.last().2) is None
        }),
    decreases iteration_measure(h, start, last_end),
{
    lemma_leftmost_longest_bounds(ps, h, start);
    lemma_match_step_bounds(ps, h, start, last_end);
    let ms = all_matches(ps, h, start, last_end);
    if let Some(m) = leftmost_longest(ps, h, start) {
        assert(m.1 < m.2);
        assert(match_step(ps, h, start, last_end) == Some(m));
        lemma_all_matches_iterate(ps, h, m.2, Some(m.2));
        let rest = all_matches(ps, h, m.2, Some(m.2));
        assert(ms == seq![m] + rest);
        assert forall|i: int| 0 <= i < ms.len() - 1 implies Some(ms[i + 1]) == leftmost_longest(
            ps,
            h,
            (#[trigger] ms[i]).2,
        ) by {
            assert(ms[i + 1] == rest[i]);
            if i > 0 {
                assert(ms[i] == rest[i - 1]);
            }
        }
        if rest.len() > 0 {
            assert(ms.last() == rest.last());
        }
    }
}

/// The match `find` reports is the first match of the iteration `valid` performs, and there is
/// none exactly when the iteration finds nothing.
pub proof fn lemma_find_is_first_valid(ps: Seq<Seq<u8>>, h: Seq<u8>)
    ensures
        match leftmost_longest(ps, h, 0) {
            Some(m) => all_matches(ps, h, 0, None).len() > 0 && all_matches(ps, h, 0, None)[0] == m,
            None => all_matches(ps, h, 0, None).len() == 0,
        },
{
    lemma_match_step_bounds(ps, h, 0, None);
}

// ----------------------------------------------------------------------------------------------
// The automaton (aho_corasick)
// ----------------------------------------------------------------------------------------------

#[verifier::external_type_specification]
#[verifier::external_body]
pub struct ExAhoCorasick(AhoCorasick);

#[verifier::external_type_specification]
#[verifier::external_body]
pub struct ExBuildError(BuildError);

/// The patterns an automaton was built from, in the order they were given.
pub uninterp spec fn automaton_patterns(a: AhoCorasick) -> Seq<Seq<u8>>;

/// Whether the automaton builder accepts the given patterns (it refuses pattern sets too large
/// for its internal identifiers).
pub uninterp spec fn automaton_builds(patterns: Seq<Seq<u8>>) -> bool;

/// The byte contents of a list of byte slices.
pub open spec fn slices_view(ps: Seq<&[u8]>) -> Seq<Seq<u8>> {
    ps.map_values(|p: &[u8]| p@)
}

/// `AhoCorasick::builder().match_kind(MatchKind::LeftmostLongest).build(patterns)`.
///
/// Claims: the build succeeds exactly when `automaton_builds` holds of the patterns (a function of
/// the patterns alone), and the automaton it returns holds the patterns in the given order.
#[verifier::external_body]
fn build_automaton(patterns: &Vec<&[u8]>) -> (r: Result<AhoCorasick, BuildError>)
    ensures
        (r is Ok) == automaton_builds(slices_view(patterns@)),
        r matches Ok(a) ==> automaton_patterns(a) == slices_view(patterns@),
{
    AhoCorasick::builder().match_kind(MatchKind::LeftmostLongest).build(patterns.iter())
}

/// `AhoCorasick::find` on `Input::new(haystack).range(start..)`, returning the match as
/// `(pattern index, start, end)`.
///
/// Claims: for an automaton built with leftmost-longest semantics, the result is the
/// leftmost-longest match at or after `start` (longest pattern at the leftmost position; between
/// equal patterns the one added first), as the `aho_corasick` documentation of
/// `MatchKind::LeftmostLongest` describes. The search cannot fail: the automaton supports
/// unanchored searches, which is what an `Input` asks for by default.
#[verifier::external_body]
fn automaton_find(a: &AhoCorasick, haystack: &[u8], start: usize) -> (r: Option<
    (usize, usize, usize),
>)
    requires
        start <= haystack@.len(),
    ensures
        match r {
            None => leftmost_longest(automaton_patterns(*a), haystack@, start as int) is None,
            Some((k, s, e)) => leftmost_longest(automaton_patterns(*a), haystack@, start as int)
                == Some((k as int, s as int, e as int)),
        },
{
    match a.find(Input::new(haystack).range(start..)) {
        Some(m) => Some((m.pattern().as_usize(), m.start(), m.end())),
        None => None,
    }
}

/// Matches as `(pattern index, start, end)` values.
pub open spec fn matches_view(v: Seq<(usize, usize, usize)>) -> Seq<(int, int, int)> {
    v.map_values(|m: (usize, usize, usize)| (m.0 as int, m.1 as int, m.2 as int))
}

/// `AhoCorasick::find_iter` over the whole haystack, each match as `(pattern index, start, end)`.
///
/// Claims: for an automaton built with leftmost-longest semantics, the matches are the
/// non-overlapping leftmost-longest matches in order, as `all_matches` states: each search
/// resumes at the end of the previous match, and an empty match that ends where the previous
/// match ended is dropped by searching again one byte further (`FindIter::next` and
/// `handle_overlapping_empty_match` in the crate's `automaton.rs`). The iteration cannot fail:
/// the automaton supports the unanchored searches an `Input` asks for by default.
#[verifier::external_body]
fn automaton_find_all(a: &AhoCorasick, haystack: &[u8]) -> (r: Vec<(usize, usize, usize)>)
    ensures
        matches_view(r@) == all_matches(automaton_patterns(*a), haystack@, 0, None),
{
    a.find_iter(haystack).map(|m| (m.pattern().as_usize(), m.start(), m.end())).collect()
}

/// `BuildError`'s `Display` text. Nothing is claimed of the message.
#[verifier::external_body]
fn build_error_message(e: &BuildError) -> String {
    format!("{}", e)
}

/// Why a [`LigatureTree`] could not be built: the automaton builder refused the patterns.
#[derive(Clone, Debug, PartialEq, Eq)]
pub struct LigatureBindingError {
    /// The builder's description of the failure.
    pub message: String,
}

// ----------------------------------------------------------------------------------------------
// Patterns
// ----------------------------------------------------------------------------------------------

/// Values that can serve as a match pattern: anything with a byte representation.
pub trait PatternBytes {
    /// The bytes of the pattern.
    spec fn pattern_view(&self) -> Seq<u8>;

    /// The bytes of the pattern.
    fn pattern_bytes(&self) -> (r: &[u8])
        ensures
            r@ == self.pattern_view(),
    ;
}

impl<'a> PatternBytes for &'a str {
    open spec fn pattern_view(&self) -> Seq<u8> {
        vstd::utf8::encode_utf8((*self)@)
    }

    fn pattern_bytes(&self) -> (r: &[u8]) {
        (*self).as_bytes()
    }
}

impl PatternBytes for crate::token::Sequence {
    open spec fn pattern_view(&self) -> Seq<u8> {
        vstd::utf8::encode_utf8(self@)
    }

    fn pattern_bytes(&self) -> (r: &[u8]) {
        self.bytes()
    }
}

/// The pattern bytes of a list of bindings.
pub open spec fn binding_patterns<S: PatternBytes, V>(b: Seq<(S, V)>) -> Seq<Seq<u8>> {
    b.map_values(|p: (S, V)| p.0.pattern_view())
}

/// The values of a list of bindings.
pub open spec fn binding_values<S, V>(b: Seq<(S, V)>) -> Seq<V> {
    b.map_values(|p: (S, V)| p.1)
}

// ----------------------------------------------------------------------------------------------
// LigatureTree
// ----------------------------------------------------------------------------------------------

/// A leftmost-longest matcher from byte patterns to values.
///
/// Built once from `(sequence, value)` bindings; each pattern is identified by its position in
/// the bindings, and a match of pattern `k` resolves to the `k`-th value.
#[derive(Debug)]
pub struct LigatureTree<V> {
    aho: AhoCorasick,
    ligatures: Vec<V>,
}

impl<V> LigatureTree<V> {
    #[verifier::type_invariant]
    spec fn well_formed(self) -> bool {
        automaton_patterns(self.aho).len() == self.ligatures@.len()
    }

    /// The patterns, in the order they were bound.
    pub closed spec fn patterns(&self) -> Seq<Seq<u8>> {
        automaton_patterns(self.aho)
    }

    /// The values, in the order they were bound.
    pub closed spec fn values(&self) -> Seq<V> {
        self.ligatures@
    }

    /// Builds a tree from `(pattern, value)` bindings.
    pub fn try_from_bindings<S: PatternBytes>(bindings: Vec<(S, V)>) -> (r: Result<
        Self,
        LigatureBindingError,
    >)
        ensures
            (r is Ok) == automaton_builds(binding_patterns(bindings@)),
            r matches Ok(t) ==> t.patterns() == binding_patterns(bindings@) && t.values()
                == binding_values(bindings@),
    {
        let ghost b = bindings@;
        let mut keys: Vec<S> = Vec::new();
        let mut ligatures: Vec<V> = Vec::new();
        let n = bindings.len();
        let mut rest = bindings;
        while rest.len() > 0
            invariant
                rest@.len() + keys@.len() == n,
                n == b.len(),
                keys@.len() == ligatures@.len(),
                rest@ == b.skip(keys@.len() as int),
                forall|i: int|
                    0 <= i < keys@.len() ==> (#[trigger] keys@[i]).pattern_view()
                        == b[i].0.pattern_view() && ligatures@[i] == b[i].1,
            decreases rest@.len(),
        {
            let ghost before = rest@;
            let (k, v) = rest.remove(0);
            assert(before[0] == b[keys@.len() as int]);
            assert(rest@ =~= b.skip(keys@.len() as int + 1));
            keys.push(k);
            ligatures.push(v);
        }
        let mut patterns: Vec<&[u8]> = Vec::new();
        let mut i: usize = 0;
        while i < keys.len()
            invariant
                i <= keys@.len(),
                patterns@.len() == i,
                forall|j: int| 0 <= j < i ==> (#[trigger] patterns@[j])@ == keys@[j].pattern_view(),
            decreases keys.len() - i,
        {
            patterns.push(keys[i].pattern_bytes());
            i = i + 1;
        }
        assert(slices_view(patterns@) =~= binding_patterns(b)) by {
            assert forall|j: int| 0 <= j < n implies slices_view(patterns@)[j]
                == binding_patterns(b)[j] by {
                assert(keys@[j].pattern_view() == b[j].0.pattern_view());
            }
        }
        assert(ligatures@ =~= binding_values(b)) by {
            assert forall|j: int| 0 <= j < n implies ligatures@[j] == binding_values(b)[j] by {
                assert(keys@[j].pattern_view() == b[j].0.pattern_view());
                assert(ligatures@[j] == b[j].1);
            }
        }
        match build_automaton(&patterns) {
            Ok(aho) => Ok(LigatureTree { aho, ligatures }),
            Err(e) => Err(LigatureBindingError { message: build_error_message(&e) }),
        }
    }

    /// The value bound to the `pattern_index`-th pattern, if there is one.
    pub fn get_by_pattern_index(&self, pattern_index: usize) -> (r: Option<&V>)
        ensures
            r is Some <==> pattern_index < self.values().len(),
            r matches Some(v) ==> *v == self.values()[pattern_index as int],
    {
        if pattern_index < self.ligatures.len() {
            Some(&self.ligatures[pattern_index])
        } else {
            None
        }
    }

    /// The value of the leftmost-longest match in `input`, if any.
    pub fn find(&self, input: &str) -> (r: Option<&V>)
        ensures
            match leftmost_longest(self.patterns(), vstd::utf8::encode_utf8(input@), 0) {
                None => r is None,
                Some((k, _, _)) => r matches Some(v) && *v == self.values()[k],
            },
    {
        proof {
            use_type_invariant(self);
        }
        let h = input.as_bytes();
        match automaton_find(&self.aho, h, 0) {
            Some((k, _s, _e)) => {
                proof {
                    lemma_leftmost_longest_bounds(self.patterns(), h@, 0);
                }
                self.get_by_pattern_index(k)
            },
            None => None,
        }
    }

    /// An iterator over the values of all non-overlapping leftmost-longest matches in `input`,
    /// in the order they appear; unmatched input is skipped.
    pub fn valid(&self, input: &str) -> (r: LigatureIter<'_, V>)
        ensures
            r.pending() == all_matches(self.patterns(), vstd::utf8::encode_utf8(input@), 0, None),
            r.patterns() == self.patterns(),
            r.values() == self.values(),
    {
        proof {
            use_type_invariant(self);
        }
        let h = input.as_bytes();
        let matches = automaton_find_all(&self.aho, h);
        proof {
            lemma_all_matches_ordered(self.patterns(), h@, 0, None);
            assert forall|i: int| 0 <= i < matches@.len() implies (#[trigger] matches@[i]).0
                < self.values().len() by {
                assert(matches_view(matches@)[i].0 == matches@[i].0 as int);
            }
            assert(matches_view(matches@).skip(0) =~= matches_view(matches@));
        }
        LigatureIter { tree: self, matches, pos: 0 }
    }
}

/// Iterator over the values of the matches of a [`LigatureTree`] in an input.
///
/// The matches are those of the automaton's non-overlapping leftmost-longest search, in order;
/// unrecognised input between matches is skipped.
pub struct LigatureIter<'l, V> {
    tree: &'l LigatureTree<V>,
    matches: Vec<(usize, usize, usize)>,
    pos: usize,
}

impl<'l, V> LigatureIter<'l, V> {
    #[verifier::type_invariant]
    spec fn well_formed(self) -> bool {
        &&& self.pos <= self.matches@.len()
        &&& forall|i: int|
            0 <= i < self.matches@.len() ==> (#[trigger] self.matches@[i]).0 < self.tree.values().len()
    }

    /// The patterns of the tree being searched.
    pub closed spec fn patterns(&self) -> Seq<Seq<u8>> {
        self.tree.patterns()
    }

    /// The values of the tree being searched.
    pub closed spec fn values(&self) -> Seq<V> {
        self.tree.values()
    }

    /// The matches that remain to be reported, as `(pattern index, start, end)`.
    pub closed spec fn pending(&self) -> Seq<(int, int, int)> {
        matches_view(self.matches@).skip(self.pos as int)
    }

    /// The value of the next match, if any.
    pub fn next(&mut self) -> (r: Option<&'l V>)
        ensures
            final(self).patterns() == old(self).patterns(),
            final(self).values() == old(self).values(),
            old(self).pending().len() == 0 ==> r is None && final(self).pending().len() == 0,
            old(self).pending().len() > 0 ==> {
                &&& r matches Some(v) && *v == old(self).values()[old(self).pending()[0].0]
                &&& final(self).pending() == old(self).pending().drop_first()
            },
    {
        proof {
            use_type_invariant(&*self);
        }
        if self.pos >= self.matches.len() {
            return None;
        }
        let (k, _s, _e) = self.matches[self.pos];
        assert(matches_view(self.matches@).skip(self.pos as int)[0].0 == k as int);
        assert(matches_view(self.matches@).skip(self.pos as int + 1) =~= matches_view(
            self.matches@,
        ).skip(self.pos as int).drop_first());
        self.pos = self.pos + 1;
        self.tree.get_by_pattern_index(k)
    }

    /// The values of all remaining matches, in order.
    pub fn collect_all(self) -> (r: Vec<&'l V>)
        ensures
            r@.len() == self.pending().len(),
            forall|i: int| 0 <= i < r@.len() ==> *r@[i] == self.values()[self.pending()[i].0],
    {
        let ghost all = self.pending();
        let ghost vals = self.values();
        let mut it = self;
        assert(it.pending() == all);
        let mut out: Vec<&'l V> = Vec::new();
        loop
            invariant
                all == self.pending(),
                vals == self.values(),
                it.values() == vals,
                out@.len() + it.pending().len() == all.len(),
                it.pending() == all.skip(out@.len() as int),
                forall|i: int| 0 <= i < out@.len() ==> *out@[i] == vals[all[i].0],
            decreases it.pending().len(),
        {
            let ghost before = it.pending();
            match it.next() {
                Some(v) => {
                    assert(before[0] == all[out@.len() as int]);
                    out.push(v);
                    assert(all.skip(out@.len() as int) =~= before.drop_first());
                },
                None => {
                    assert(before.len() == 0);
                    assert(out@.len() == all.len());
                    return out;
                },
            }
        }
    }
}

// ----------------------------------------------------------------------------------------------
// Resolution traits
// ----------------------------------------------------------------------------------------------

/// Types that can provide access to an internal [`LigatureTree`].
pub trait AsLigatureTree<T> {
    /// The tree this value resolves input with.
    spec fn spec_tree(&self) -> &LigatureTree<T>;

    fn as_ligature_tree(&self) -> (r: &LigatureTree<T>)
        ensures
            r == self.spec_tree(),
    ;
}

/// How a value bound in the ligature tree (e.g. an atlas index) turns into the value used for
/// rendering (e.g. a glyph).
pub trait MapLigature<T>: AsLigatureTree<T> {
    type Output;

    /// The rendering value of a tree value.
    spec fn spec_map_ligature(&self, value: T) -> Self::Output;

    fn map_ligature(&self, value: &T) -> (r: Self::Output)
        ensures
            r == self.spec_map_ligature(*value),
    ;
}

/// Input resolution for anything that has a ligature tree and maps its values to glyphs.
pub trait InputResolver<T>: AsLigatureTree<T> + MapLigature<T> {
    /// The glyph of the value bound to the `pattern_index`-th pattern, if there is one.
    fn get_by_pattern_index(&self, pattern_index: usize) -> (r: Option<Self::Output>)
        ensures
            pattern_index < self.spec_tree().values().len() ==> r == Some(
                self.spec_map_ligature(self.spec_tree().values()[pattern_index as int]),
            ),
            pattern_index >= self.spec_tree().values().len() ==> r is None,
    {
        match self.as_ligature_tree().get_by_pattern_index(pattern_index) {
            Some(v) => Some(self.map_ligature(v)),
            None => None,
        }
    }

    /// The glyph of the leftmost-longest match in `input`, if any.
    fn find(&self, input: &str) -> (r: Option<Self::Output>)
        ensures
            match leftmost_longest(
                self.spec_tree().patterns(),
                vstd::utf8::encode_utf8(input@),
                0,
            ) {
                None => r is None,
                Some((k, _, _)) => r == Some(
                    self.spec_map_ligature(self.spec_tree().values()[k]),
                ),
            },
    {
        match self.as_ligature_tree().find(input) {
            Some(v) => Some(self.map_ligature(v)),
            None => None,
        }
    }

    /// The glyphs of all non-overlapping leftmost-longest matches in `input`, in order;
    /// unmatched input is skipped.
    fn valid(&self, input: &str) -> (r: Vec<Self::Output>)
        ensures
            r@.len() == all_matches(
                self.spec_tree().patterns(),
                vstd::utf8::encode_utf8(input@),
                0,
                None,
            ).len(),
            forall|i: int|
                0 <= i < r@.len() ==> #[trigger] r@[i] == self.spec_map_ligature(
                    self.spec_tree().values()[all_matches(
                        self.spec_tree().patterns(),
                        vstd::utf8::encode_utf8(input@),
                        0,
                        None,
                    )[i].0],
                ),
    {
        let tree = self.as_ligature_tree();
        let found = tree.valid(input).collect_all();
        let mut out: Vec<Self::Output> = Vec::new();
        let mut i: usize = 0;
        while i < found.len()
            invariant
                i <= found@.len(),
                out@.len() == i,
                forall|j: int| 0 <= j < i ==> #[trigger] out@[j] == self.spec_map_ligature(*found@[j]),
            decreases found.len() - i,
        {
            out.push(self.map_ligature(found[i]));
            i = i + 1;
        }
        out
    }
}

impl<T, U: AsLigatureTree<T> + MapLigature<T>> InputResolver<T> for U {

}

} // verus!
