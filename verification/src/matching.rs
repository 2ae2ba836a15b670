//! Deciding whether candidate text-directive contexts are consistent with
//! match contexts, and batch-filtering many candidates against many
//! matches.
//!
//! The batch scan fans out over the candidates on a worker pool; every
//! input is read-only during the scan and the output is aligned with the
//! candidate order, so the parallel run returns exactly what the
//! sequential per-candidate function computes.

use vstd::prelude::*;

use rayon::iter::IndexedParallelIterator;
use rayon::iter::IntoParallelRefIterator;
use rayon::iter::ParallelIterator;

use crate::bytes::{ends_with_bytes, seq_ends_with, seq_starts_with, starts_with_bytes};

verus! {

/// The context strings of one candidate or match: for each of the four
/// directive parts the full surrounding content and the part being tested,
/// plus the matching mode shared by both sides of a comparison.
pub struct TextDirectiveCandidateContents {
    pub full_prefix_content: Vec<u8>,
    pub full_start_content: Vec<u8>,
    pub full_end_content: Vec<u8>,
    pub full_suffix_content: Vec<u8>,
    pub prefix_content: Vec<u8>,
    pub start_content: Vec<u8>,
    pub end_content: Vec<u8>,
    pub suffix_content: Vec<u8>,
    pub use_exact_matching: bool,
}

/// The mathematical value of a context bundle.
#[verifier::ext_equal]
pub ghost struct ContextView {
    pub full_prefix: Seq<u8>,
    pub full_start: Seq<u8>,
    pub full_end: Seq<u8>,
    pub full_suffix: Seq<u8>,
    pub prefix: Seq<u8>,
    pub start: Seq<u8>,
    pub end: Seq<u8>,
    pub suffix: Seq<u8>,
    pub exact: bool,
}

impl View for TextDirectiveCandidateContents {
    type V = ContextView;

    open spec fn view(&self) -> ContextView {
        ContextView {
            full_prefix: self.full_prefix_content@,
            full_start: self.full_start_content@,
            full_end: self.full_end_content@,
            full_suffix: self.full_suffix_content@,
            prefix: self.prefix_content@,
            start: self.start_content@,
            end: self.end_content@,
            suffix: self.suffix_content@,
            exact: self.use_exact_matching,
        }
    }
}

/// Whether the match context `m` is consistent with the candidate context
/// `c`: the candidate's prefix must end the match's full prefix and the
/// candidate's suffix must begin the match's full suffix; under fuzzy
/// matching the candidate's start must begin the match's full start and
/// its end must end the match's full end, while exact matching skips those
/// two checks.
pub open spec fn matches_spec(m: ContextView, c: ContextView) -> bool {
    seq_ends_with(m.full_prefix, c.prefix) && seq_starts_with(m.full_suffix, c.suffix) && (c.exact
        || (seq_starts_with(m.full_start, c.start) && seq_ends_with(m.full_end, c.end)))
}

impl TextDirectiveCandidateContents {
    /// Decides whether all context terms of `candidate` are contained in
    /// the fully expanded terms of `self`. Both sides must share one
    /// matching mode; comparing across modes is a caller error.
    pub fn matches_candidate(&self, candidate: &Self) -> (r: bool)
        requires
            self.use_exact_matching == candidate.use_exact_matching,
        ensures
            r == matches_spec(self@, candidate@),
    {
        if !ends_with_bytes(&self.full_prefix_content, &candidate.prefix_content) {
            return false;
        }
        if !starts_with_bytes(&self.full_suffix_content, &candidate.suffix_content) {
            return false;
        }
        if !candidate.use_exact_matching {
            if !starts_with_bytes(&self.full_start_content, &candidate.start_content) {
                return false;
            }
            if !ends_with_bytes(&self.full_end_content, &candidate.end_content) {
                return false;
            }
        }
        true
    }
}

/// The views of a sequence of context bundles.
pub open spec fn context_views(s: Seq<TextDirectiveCandidateContents>) -> Seq<ContextView> {
    s.map_values(|c: TextDirectiveCandidateContents| c@)
}

/// The indices below `n` of the matches consistent with candidate `c`, in
/// ascending order.
pub open spec fn matching_indices_upto(ms: Seq<ContextView>, c: ContextView, n: int) -> Seq<usize>
    decreases n,
{
    if n <= 0 {
        Seq::empty()
    } else {
        matching_indices_upto(ms, c, n - 1) + if matches_spec(ms[n - 1], c) {
            seq![(n - 1) as usize]
        } else {
            Seq::empty()
        }
    }
}

/// The indices of all matches consistent with candidate `c`, in ascending
/// order.
pub open spec fn matching_indices_spec(ms: Seq<ContextView>, c: ContextView) -> Seq<usize> {
    matching_indices_upto(ms, c, ms.len() as int)
}

/// The shape of a per-candidate result: every listed index is a match
/// index, the indices are strictly ascending, and an index is listed
/// exactly when its match is consistent with the candidate.
pub proof fn lemma_matching_indices_shape(ms: Seq<ContextView>, c: ContextView, n: int)
    requires
        0 <= n <= ms.len(),
        n <= usize::MAX,
    ensures
        forall|t: int|
            0 <= t < matching_indices_upto(ms, c, n).len() ==> (#[trigger] matching_indices_upto(
                ms,
                c,
                n,
            )[t]) < n,
        forall|t1: int, t2: int|
            0 <= t1 < t2 < matching_indices_upto(ms, c, n).len() ==> #[trigger] matching_indices_upto(
                ms,
                c,
                n,
            )[t1] < #[trigger] matching_indices_upto(ms, c, n)[t2],
        forall|j: usize|
            matching_indices_upto(ms, c, n).contains(j) <==> (j < n && matches_spec(
                ms[j as int],
                c,
            )),
    decreases n,
{
    if n <= 0 {
    } else {
        lemma_matching_indices_shape(ms, c, n - 1);
        let prev = matching_indices_upto(ms, c, n - 1);
        let cur = matching_indices_upto(ms, c, n);
        if matches_spec(ms[n - 1], c) {
            assert(cur == prev + seq![(n - 1) as usize]);
            assert((n - 1) as usize == n - 1);
            assert forall|t1: int, t2: int| 0 <= t1 < t2 < cur.len() implies cur[t1] < cur[t2] by {
                assert(cur[t1] == prev[t1]);
                if t2 < prev.len() {
                    assert(cur[t2] == prev[t2]);
                } else {
                    assert(cur[t2] == (n - 1) as usize);
                    assert(prev[t1] < n - 1);
                }
            }
            assert forall|j: usize| cur.contains(j) implies (j < n && matches_spec(
                ms[j as int],
                c,
            )) by {
                let t = choose|t: int| 0 <= t < cur.len() && cur[t] == j;
                if t < prev.len() {
                    assert(prev[t] == j);
                    assert(prev.contains(j));
                } else {
                    assert(j == (n - 1) as usize);
                }
            }
            assert forall|j: usize| (j < n && matches_spec(ms[j as int], c)) implies cur.contains(
                j,
            ) by {
                if (j as int) < n - 1 {
                    assert(prev.contains(j));
                    let t = choose|t: int| 0 <= t < prev.len() && prev[t] == j;
                    assert(cur[t] == j);
                } else {
                    assert(cur[cur.len() - 1] == j);
                }
            }
        } else {
            assert(cur =~= prev);
            assert forall|j: usize| cur.contains(j) implies (j < n && matches_spec(
                ms[j as int],
                c,
            )) by {
                assert(prev.contains(j));
            }
            assert forall|j: usize| (j < n && matches_spec(ms[j as int], c)) implies cur.contains(
                j,
            ) by {
                if (j as int) < n - 1 {
                    assert(prev.contains(j));
                } else {
                    assert(!matches_spec(ms[n - 1], c));
                }
            }
        }
    }
}

/// Collects the indices of all matches consistent with `candidate`, in
/// ascending order.
pub fn matching_indices(
    candidate: &TextDirectiveCandidateContents,
    matches: &Vec<TextDirectiveCandidateContents>,
) -> (r: Vec<usize>)
    requires
        forall|j: int|
            0 <= j < matches@.len() ==> (#[trigger] matches@[j]).use_exact_matching
                == candidate.use_exact_matching,
    ensures
        r@ == matching_indices_spec(context_views(matches@), candidate@),
{
    let ghost ms = context_views(matches@);
    let mut r: Vec<usize> = Vec::new();
    let mut j: usize = 0;
    proof {
        assert(r@ =~= matching_indices_upto(ms, candidate@, 0));
    }
    while j < matches.len()
        invariant
            j <= matches@.len(),
            ms == context_views(matches@),
            forall|k: int|
                0 <= k < matches@.len() ==> (#[trigger] matches@[k]).use_exact_matching
                    == candidate.use_exact_matching,
            r@ == matching_indices_upto(ms, candidate@, j as int),
        decreases matches@.len() - j,
    {
        proof {
            assert(ms[j as int] == matches@[j as int]@);
        }
        if matches[j].matches_candidate(candidate) {
            r.push(j);
            proof {
                assert(r@ =~= matching_indices_upto(ms, candidate@, j as int) + seq![j]);
            }
        } else {
            proof {
                assert(r@ + Seq::<usize>::empty() =~= r@);
            }
        }
        j = j + 1;
    }
    r
}

/// Runs the per-candidate scan over all candidates on a worker pool.
///
/// Relies on rayon's `par_iter().map(..).collect_into_vec(..)`: the
/// parallel iterator over a slice is indexed, `map` applies the closure to
/// every element, and `collect_into_vec` clears the target and stores one
/// result per input element in input order, however the workers are
/// scheduled. The closure only calls the verified `matching_indices`.
#[verifier::external_body]
fn matching_indices_batch(
    candidates: &Vec<TextDirectiveCandidateContents>,
    matches: &Vec<TextDirectiveCandidateContents>,
) -> (r: Vec<Vec<usize>>)
    requires
        forall|i: int, j: int|
            0 <= i < candidates@.len() && 0 <= j < matches@.len() ==> (
            #[trigger] matches@[j]).use_exact_matching == (
            #[trigger] candidates@[i]).use_exact_matching,
    ensures
        r@.len() == candidates@.len(),
        forall|i: int|
            0 <= i < candidates@.len() ==> (#[trigger] r@[i])@ == matching_indices_spec(
                context_views(matches@),
                candidates@[i]@,
            ),
{
    let mut out: Vec<Vec<usize>> = Vec::new();
    candidates.par_iter().map(|candidate| matching_indices(candidate, matches)).collect_into_vec(
        &mut out,
    );
    out
}

/// Matches all `candidates` against all `matches`, in parallel across the
/// candidates. The result holds one entry per candidate, in candidate
/// order; each entry lists, in ascending order, the indices of exactly
/// those matches whose context is consistent with the candidate. All
/// contexts must share one matching mode.
pub fn fragment_directive_filter_non_matching_candidates(
    candidates: &Vec<TextDirectiveCandidateContents>,
    matches: &Vec<TextDirectiveCandidateContents>,
) -> (r: Vec<Vec<usize>>)
    requires
        forall|i: int, j: int|
            0 <= i < candidates@.len() && 0 <= j < matches@.len() ==> (
            #[trigger] matches@[j]).use_exact_matching == (
            #[trigger] candidates@[i]).use_exact_matching,
    ensures
        r@.len() == candidates@.len(),
        forall|i: int|
            0 <= i < candidates@.len() ==> (#[trigger] r@[i])@ == matching_indices_spec(
                context_views(matches@),
                candidates@[i]@,
            ),
        forall|i: int, t: int|
            0 <= i < candidates@.len() && 0 <= t < r@[i]@.len() ==> (#[trigger] r@[i]@[t]) < matches@.len(),
        forall|i: int, t1: int, t2: int|
            0 <= i < candidates@.len() && 0 <= t1 < t2 < r@[i]@.len() ==> (#[trigger] r@[i]@[t1])
                < (#[trigger] r@[i]@[t2]),
        forall|i: int, j: usize|
            0 <= i < candidates@.len() ==> ((#[trigger] r@[i]@.contains(j)) <==> (j
                < matches@.len() && matches_spec(context_views(matches@)[j as int], candidates@[i]@))),
{
    let r = matching_indices_batch(candidates, matches);
    let m_len = matches.len();
    proof {
        let ms = context_views(matches@);
        assert(ms.len() == m_len);
        assert forall|i: int, t: int|
            0 <= i < candidates@.len() && 0 <= t < r@[i]@.len() implies (#[trigger] r@[i]@[t])
            < matches@.len() by {
            lemma_matching_indices_shape(ms, candidates@[i]@, ms.len() as int);
        }
        assert forall|i: int, t1: int, t2: int|
            0 <= i < candidates@.len() && 0 <= t1 < t2 < r@[i]@.len() implies (
        #[trigger] r@[i]@[t1]) < (#[trigger] r@[i]@[t2]) by {
            lemma_matching_indices_shape(ms, candidates@[i]@, ms.len() as int);
        }
        assert forall|i: int, j: usize|
            0 <= i < candidates@.len() implies ((#[trigger] r@[i]@.contains(j)) <==> (j
            < matches@.len() && matches_spec(ms[j as int], candidates@[i]@))) by {
            lemma_matching_indices_shape(ms, candidates@[i]@, ms.len() as int);
        }
    }
    r
}

/// Under exact matching, consistency is decided by the prefix and suffix
/// containment checks alone: the start and end contexts play no part.
pub proof fn lemma_exact_mode_ignores_start_end(m: ContextView, c: ContextView)
    requires
        m.exact,
        c.exact,
    ensures
        matches_spec(m, c) == (seq_ends_with(m.full_prefix, c.prefix) && seq_starts_with(
            m.full_suffix,
            c.suffix,
        )),
{
}

/// Under fuzzy matching, consistency requires all four containment checks:
/// prefix, suffix, start and end.
pub proof fn lemma_fuzzy_mode_checks_all(m: ContextView, c: ContextView)
    requires
        !m.exact,
        !c.exact,
    ensures
        matches_spec(m, c) == (seq_ends_with(m.full_prefix, c.prefix) && seq_starts_with(
            m.full_suffix,
            c.suffix,
        ) && seq_starts_with(m.full_start, c.start) && seq_ends_with(m.full_end, c.end)),
{
}

} // verus!
