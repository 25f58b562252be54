//! Deterministic candidate ordering for the greedy resolver.
//!
//! Candidates are ordered primarily by descending score; ties are broken by
//! a fixed secondary key — shorter span first, then lower start index, then
//! lower label index — so that conflict resolution is reproducible across
//! runs given identical scores.

use vstd::prelude::*;
use vstd::seq_lib::group_to_multiset_ensures;
use vstd::seq_lib::lemma_multiset_commutative;
use vstd::multiset::group_multiset_axioms;
use vstd::multiset::Multiset;
use crate::span::{Span, SpanV, SpanOutput};
use crate::pipeline::{Stage, StageError};

verus! {

/// Token width of a span (inclusive bounds).
pub open spec fn spec_span_width(sp: SpanV) -> int {
    sp.end - sp.start
}

/// Strict "comes before" order: higher score first; on equal scores the
/// shorter span, then the lower start index, then the lower label index.
/// Two spans with equal keys are tied (neither comes before the other).
pub open spec fn spec_before(a: SpanV, b: SpanV) -> bool {
    ||| a.probability > b.probability
    ||| (a.probability == b.probability && spec_span_width(a) < spec_span_width(b))
    ||| (a.probability == b.probability && spec_span_width(a) == spec_span_width(b) && a.start
        < b.start)
    ||| (a.probability == b.probability && spec_span_width(a) == spec_span_width(b) && a.start
        == b.start && a.class_index < b.class_index)
}

/// A candidate list is sorted when no later element comes strictly before
/// an earlier one.
pub open spec fn spec_sorted(s: Seq<SpanV>) -> bool {
    forall|i: int, j: int| 0 <= i < j < s.len() ==> !spec_before(#[trigger] s[j], #[trigger] s[i])
}

/// Stable insertion: `x` goes in front of the first element it comes
/// strictly before, after every element it is tied with.
pub open spec fn spec_insert(s: Seq<SpanV>, x: SpanV) -> Seq<SpanV>
    decreases s.len(),
{
    if s.len() == 0 {
        seq![x]
    } else if spec_before(x, s[0]) {
        seq![x] + s
    } else {
        seq![s[0]] + spec_insert(s.drop_first(), x)
    }
}

/// Stable insertion sort: inserting each candidate, in input order, into
/// the sorted list of those before it.
pub open spec fn spec_sort(s: Seq<SpanV>) -> Seq<SpanV>
    decreases s.len(),
{
    if s.len() == 0 {
        Seq::empty()
    } else {
        spec_insert(spec_sort(s.drop_last()), s.last())
    }
}

/// Inserting into a sorted list keeps it sorted, adds exactly the new
/// element to its contents, and grows it by one.
pub proof fn lemma_insert_props(s: Seq<SpanV>, x: SpanV)
    requires
        spec_sorted(s),
    ensures
        spec_sorted(spec_insert(s, x)),
        spec_insert(s, x).to_multiset() =~= s.to_multiset().insert(x),
        spec_insert(s, x).len() == s.len() + 1,
    decreases s.len(),
{
    broadcast use group_to_multiset_ensures;
    broadcast use group_multiset_axioms;

    if s.len() == 0 {
        assert(seq![x] =~= Seq::<SpanV>::empty().push(x));
        assert(seq![x].to_multiset() =~= s.to_multiset().insert(x));
    } else if spec_before(x, s[0]) {
        let r = seq![x] + s;
        assert forall|i: int, j: int| 0 <= i < j < r.len() implies !spec_before(r[j], r[i]) by {
            if i == 0 {
                assert(!spec_before(s[j - 1], s[0]) || j - 1 == 0);
            } else {
                assert(!spec_before(s[j - 1], s[i - 1]));
            }
        }
        lemma_multiset_commutative(seq![x], s);
        assert(seq![x] =~= Seq::<SpanV>::empty().push(x));
        assert(seq![x].to_multiset() =~= Multiset::<SpanV>::empty().insert(x));
        assert(r.to_multiset() =~= s.to_multiset().insert(x));
    } else {
        let tail = s.drop_first();
        assert forall|i: int, j: int| 0 <= i < j < tail.len() implies !spec_before(
            tail[j],
            tail[i],
        ) by {
            assert(!spec_before(s[j + 1], s[i + 1]));
        }
        lemma_insert_props(tail, x);
        let it = spec_insert(tail, x);
        let r = seq![s[0]] + it;
        assert(spec_insert(s, x) == r);
        // Every element of the inserted tail is either x, which is not
        // before s[0], or a tail element, which is not before s[0] because
        // s is sorted.
        assert forall|j: int| 0 <= j < it.len() implies !spec_before(it[j], s[0]) by {
            assert(it.to_multiset().contains(it[j]));
            if it[j] != x {
                assert(tail.to_multiset().contains(it[j]));
                let idx = choose|idx: int| 0 <= idx < tail.len() && tail[idx] == it[j];
                assert(!spec_before(s[idx + 1], s[0]));
            }
        }
        assert forall|i: int, j: int| 0 <= i < j < r.len() implies !spec_before(r[j], r[i]) by {
            if i > 0 {
                assert(!spec_before(it[j - 1], it[i - 1]));
            } else {
                assert(!spec_before(it[j - 1], s[0]));
            }
        }
        lemma_multiset_commutative(seq![s[0]], it);
        lemma_multiset_commutative(seq![s[0]], tail);
        assert(seq![s[0]] + tail =~= s);
        assert(r.to_multiset() =~= s.to_multiset().insert(x));
    }
}

/// The sorter's guarantee, stated of the mathematical sort: its result is
/// sorted and is a permutation of its input.
pub proof fn lemma_sort_props(s: Seq<SpanV>)
    ensures
        spec_sorted(spec_sort(s)),
        spec_sort(s).to_multiset() =~= s.to_multiset(),
        spec_sort(s).len() == s.len(),
    decreases s.len(),
{
    broadcast use group_to_multiset_ensures;
    broadcast use group_multiset_axioms;

    if s.len() == 0 {
    } else {
        lemma_sort_props(s.drop_last());
        lemma_insert_props(spec_sort(s.drop_last()), s.last());
        assert(s.drop_last().push(s.last()) =~= s);
        assert(s.drop_last().push(s.last()).to_multiset() =~= s.drop_last().to_multiset().insert(
            s.last(),
        ));
    }
}

/// Exec comparison mirroring [`spec_before`].
pub fn span_before(a: &Span, b: &Span) -> (r: bool)
    ensures
        r == spec_before(a@, b@),
{
    if a.probability != b.probability {
        return a.probability > b.probability;
    }
    // a.end - a.start < b.end - b.start, avoiding underflow and overflow.
    let wa = (a.end as u128) + (b.start as u128);
    let wb = (b.end as u128) + (a.start as u128);
    if wa != wb {
        return wa < wb;
    }
    if a.start != b.start {
        return a.start < b.start;
    }
    a.class_index < b.class_index
}

/// Inserts `x` into `out` at its stable position.
fn insert_sorted(out: &mut Vec<Span>, x: Span)
    ensures
        final(out).deep_view() == spec_insert(old(out).deep_view(), x@),
{
    let ghost olddv = out.deep_view();
    let mut idx: usize = 0;
    loop
        invariant
            idx <= out@.len(),
            *out == *old(out),
            olddv == out.deep_view(),
            forall|i: int| 0 <= i < idx ==> !spec_before(x@, #[trigger] olddv[i]),
        ensures
            idx <= out@.len(),
            *out == *old(out),
            forall|i: int| 0 <= i < idx ==> !spec_before(x@, #[trigger] olddv[i]),
            idx < out@.len() ==> spec_before(x@, olddv[idx as int]),
        decreases out@.len() - idx,
    {
        if idx == out.len() {
            break ;
        }
        proof {
            assert(out.deep_view()[idx as int] == out@[idx as int].deep_view());
        }
        if span_before(&x, &out[idx]) {
            break ;
        }
        idx = idx + 1;
    }
    proof {
        lemma_insert_at(olddv, x@, idx as int);
    }
    let ghost gx = x@;
    out.insert(idx, x);
    proof {
        assert forall|i: int| 0 <= i < out@.len() implies out.deep_view()[i] == (olddv.subrange(
            0,
            idx as int,
        ) + seq![gx] + olddv.subrange(idx as int, olddv.len() as int))[i] by {
            assert(out.deep_view()[i] == out@[i].deep_view());
            if i < idx {
                assert(out@[i] == old(out)@[i]);
                assert(olddv[i] == old(out)@[i].deep_view());
            } else if i > idx {
                assert(out@[i] == old(out)@[i - 1]);
                assert(olddv[i - 1] == old(out)@[i - 1].deep_view());
            }
        }
        assert(out.deep_view() =~= olddv.subrange(0, idx as int) + seq![gx] + olddv.subrange(
            idx as int,
            olddv.len() as int,
        ));
    }
}

/// Positional characterization of [`spec_insert`]: inserting at the first
/// index whose element `x` comes strictly before splits the list there.
proof fn lemma_insert_at(s: Seq<SpanV>, x: SpanV, idx: int)
    requires
        0 <= idx <= s.len(),
        forall|i: int| 0 <= i < idx ==> !spec_before(x, #[trigger] s[i]),
        idx < s.len() ==> spec_before(x, s[idx]),
    ensures
        spec_insert(s, x) == s.subrange(0, idx) + seq![x] + s.subrange(idx, s.len() as int),
    decreases s.len(),
{
    if s.len() == 0 {
        assert(spec_insert(s, x) =~= s.subrange(0, idx) + seq![x] + s.subrange(
            idx,
            s.len() as int,
        ));
    } else if idx == 0 {
        assert(spec_before(x, s[0]));
        assert(spec_insert(s, x) =~= s.subrange(0, idx) + seq![x] + s.subrange(
            idx,
            s.len() as int,
        ));
    } else {
        let tail = s.drop_first();
        assert forall|i: int| 0 <= i < idx - 1 implies !spec_before(x, #[trigger] tail[i]) by {
            assert(tail[i] == s[i + 1]);
        }
        lemma_insert_at(tail, x, idx - 1);
        assert(spec_insert(s, x) == seq![s[0]] + spec_insert(tail, x));
        assert(spec_insert(s, x) =~= s.subrange(0, idx) + seq![x] + s.subrange(
            idx,
            s.len() as int,
        ));
    }
}

/// Sorts one sequence's candidate list.
pub fn sort_spans(spans: Vec<Span>) -> (r: Vec<Span>)
    ensures
        r.deep_view() == spec_sort(spans.deep_view()),
{
    let ghost orig = spans.deep_view();
    let total = spans.len();
    let mut rest = spans;
    let mut out: Vec<Span> = Vec::new();
    let mut i: usize = 0;
    while rest.len() > 0
        invariant
            i + rest@.len() == orig.len(),
            i <= orig.len() == total,
            forall|j: int| 0 <= j < rest@.len() ==> #[trigger] rest.deep_view()[j] == orig[i + j],
            out.deep_view() == spec_sort(orig.subrange(0, i as int)),
        decreases rest@.len(),
    {
        let ghost restv = rest@;
        let ghost restdv = rest.deep_view();
        let x = rest.remove(0);
        proof {
            restv.remove_ensures(0);
            assert(restdv[0] == restv[0].deep_view());
            assert(restdv[0] == orig[i as int]);
            assert(restdv[0] == x@);
            assert forall|j: int| 0 <= j < rest@.len() implies #[trigger] rest.deep_view()[j]
                == orig[i + 1 + j] by {
                assert(rest@[j] == restv[j + 1]);
                assert(rest.deep_view()[j] == rest@[j].deep_view());
                assert(restdv[j + 1] == restv[j + 1].deep_view());
                assert(restdv[j + 1] == orig[i + 1 + j]);
            }
        }
        insert_sorted(&mut out, x);
        proof {
            assert(orig.subrange(0, i + 1).drop_last() =~= orig.subrange(0, i as int));
            assert(orig.subrange(0, i + 1).last() == orig[i as int]);
        }
        i = i + 1;
    }
    proof {
        assert(orig.subrange(0, orig.len() as int) =~= orig);
    }
    out
}

/// The sorting stage: orders every sequence's candidate list by
/// [`spec_before`], stably, leaving texts and vocabulary untouched.
pub struct SpanSort {}

impl SpanSort {
    /// A sorter; it carries no configuration.
    pub fn new() -> (r: SpanSort)
        ensures
            r == (SpanSort {  }),
    {
        SpanSort {  }
    }
}

impl Default for SpanSort {
    fn default() -> (r: SpanSort)
        ensures
            r == (SpanSort {  }),
    {
        SpanSort {  }
    }
}

impl Stage for SpanSort {
    type Input = SpanOutput;

    type Output = SpanOutput;

    /// Sorting works on any decoded output.
    open spec fn pre(&self, input: &SpanOutput) -> bool {
        true
    }

    /// Each sequence's list is replaced by its stable sort; texts and
    /// vocabulary are echoed unchanged.
    open spec fn post(&self, input: &SpanOutput, output: &SpanOutput) -> bool {
        &&& output.texts == input.texts
        &&& output.entities == input.entities
        &&& output.spans.deep_view().len() == input.spans.deep_view().len()
        &&& forall|s: int| 0 <= s < input.spans.deep_view().len() ==> #[trigger] output
            .spans.deep_view()[s] == spec_sort(input.spans.deep_view()[s])
    }

    /// Sorting is a pure transformation: it cannot fail.
    open spec fn may_fail(&self, input: &SpanOutput) -> bool {
        false
    }

    fn apply(&self, input: SpanOutput) -> (r: Result<SpanOutput, StageError>) {
        let SpanOutput { texts, entities, spans } = input;
        let ghost orig = spans.deep_view();
        let total = spans.len();
        let mut rest = spans;
        let mut out: Vec<Vec<Span>> = Vec::new();
        let mut i: usize = 0;
        while rest.len() > 0
            invariant
                i + rest@.len() == orig.len(),
                i <= orig.len() == total,
                out@.len() == i,
                forall|j: int| 0 <= j < rest@.len() ==> #[trigger] rest.deep_view()[j] == orig[i
                    + j],
                forall|j: int| 0 <= j < i ==> #[trigger] out.deep_view()[j] == spec_sort(orig[j]),
            decreases rest@.len(),
        {
            let ghost restv = rest@;
            let ghost restdv = rest.deep_view();
            let lst = rest.remove(0);
            proof {
                restv.remove_ensures(0);
                assert(restdv[0] == restv[0].deep_view());
                assert(restdv[0] == orig[i as int]);
                assert(restdv[0] == lst.deep_view());
                assert forall|j: int| 0 <= j < rest@.len() implies #[trigger] rest.deep_view()[j]
                    == orig[i + 1 + j] by {
                    assert(rest@[j] == restv[j + 1]);
                    assert(rest.deep_view()[j] == rest@[j].deep_view());
                    assert(restdv[j + 1] == restv[j + 1].deep_view());
                    assert(restdv[j + 1] == orig[i + 1 + j]);
                }
            }
            let sorted = sort_spans(lst);
            let ghost sorteddv = sorted.deep_view();
            let ghost outv = out@;
            let ghost outdv = out.deep_view();
            out.push(sorted);
            proof {
                assert forall|j: int| 0 <= j < i + 1 implies #[trigger] out.deep_view()[j]
                    == spec_sort(orig[j]) by {
                    assert(out.deep_view()[j] == out@[j].deep_view());
                    if j < i {
                        assert(out@[j] == outv[j]);
                        assert(outdv[j] == outv[j].deep_view());
                        assert(outdv[j] == spec_sort(orig[j]));
                    } else {
                        assert(out@[j].deep_view() == sorteddv);
                    }
                }
            }
            i = i + 1;
        }
        Ok(SpanOutput { texts, entities, spans: out })
    }
}

} // verus!
