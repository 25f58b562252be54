//! Greedy conflict resolution.
//!
//! Candidates arrive sorted by descending score (see [`crate::sort`]); the
//! resolver walks them in that order, keeping a running accepted set, and
//! accepts a candidate exactly when no already-accepted span bars it under
//! the three policies:
//!
//! * `flat_ner` — overlapping spans with different boundaries may not
//!   coexist;
//! * `dup_label` — spans with identical boundaries but different labels may
//!   coexist;
//! * `multi_label` — one boundary may keep more than one surviving label;
//!   when false, only the top-scoring label survives regardless of
//!   `dup_label`.
//!
//! This greedy, score-first strategy is a fast deterministic heuristic for
//! the (NP-hard) maximum-weight independent set over the overlap conflict
//! graph; exactness is explicitly not guaranteed and not attempted.

use vstd::prelude::*;
use crate::span::{Span, SpanV, SpanOutput};
use crate::pipeline::{Stage, StageError};

verus! {

/// Inclusive token ranges of the two spans intersect.
pub open spec fn spec_overlaps(a: SpanV, b: SpanV) -> bool {
    a.start <= b.end && b.start <= a.end
}

/// The two spans have exactly the same token boundaries.
pub open spec fn spec_same_boundary(a: SpanV, b: SpanV) -> bool {
    a.start == b.start && a.end == b.end
}

/// Whether the already-accepted span `a` bars candidate `c`.
///
/// Identical boundaries coexist only for different labels and only when
/// both `dup_label` and `multi_label` allow it; overlapping spans with
/// different boundaries are barred exactly under `flat_ner`; disjoint
/// spans never conflict.
pub open spec fn spec_conflicts(
    a: SpanV,
    c: SpanV,
    flat_ner: bool,
    dup_label: bool,
    multi_label: bool,
) -> bool {
    if spec_same_boundary(a, c) {
        a.class == c.class || !(dup_label && multi_label)
    } else if spec_overlaps(a, c) {
        flat_ner
    } else {
        false
    }
}

/// A candidate is accepted when no accepted span bars it.
pub open spec fn spec_accepts(
    accepted: Seq<SpanV>,
    c: SpanV,
    flat_ner: bool,
    dup_label: bool,
    multi_label: bool,
) -> bool {
    forall|i: int| 0 <= i < accepted.len() ==> !spec_conflicts(
        #[trigger] accepted[i],
        c,
        flat_ner,
        dup_label,
        multi_label,
    )
}

/// Processes `cands` front to back, starting from the accepted list
/// `accepted`, appending each accepted candidate in arrival order.
pub open spec fn spec_resolve_from(
    accepted: Seq<SpanV>,
    cands: Seq<SpanV>,
    flat_ner: bool,
    dup_label: bool,
    multi_label: bool,
) -> Seq<SpanV>
    decreases cands.len(),
{
    if cands.len() == 0 {
        accepted
    } else {
        let c = cands[0];
        let next = if spec_accepts(accepted, c, flat_ner, dup_label, multi_label) {
            accepted.push(c)
        } else {
            accepted
        };
        spec_resolve_from(next, cands.drop_first(), flat_ner, dup_label, multi_label)
    }
}

/// The resolver's result on a sorted candidate list.
pub open spec fn spec_resolve(
    cands: Seq<SpanV>,
    flat_ner: bool,
    dup_label: bool,
    multi_label: bool,
) -> Seq<SpanV> {
    spec_resolve_from(Seq::empty(), cands, flat_ner, dup_label, multi_label)
}

/// No span in `s` bars any later span in `s`.
pub open spec fn spec_compatible(
    s: Seq<SpanV>,
    flat_ner: bool,
    dup_label: bool,
    multi_label: bool,
) -> bool {
    forall|i: int, j: int| 0 <= i < j < s.len() ==> !spec_conflicts(
        #[trigger] s[i],
        #[trigger] s[j],
        flat_ner,
        dup_label,
        multi_label,
    )
}

/// Resolver determinism: the output is a function of the sorted candidate
/// list and the policy flags alone, so two runs on the same input are
/// identical in contents and order.
pub proof fn lemma_resolver_deterministic(
    cands: Seq<SpanV>,
    flat_ner: bool,
    dup_label: bool,
    multi_label: bool,
    r1: Seq<SpanV>,
    r2: Seq<SpanV>,
)
    requires
        r1 == spec_resolve(cands, flat_ner, dup_label, multi_label),
        r2 == spec_resolve(cands, flat_ner, dup_label, multi_label),
    ensures
        r1 == r2,
{
}

/// The resolver's output is policy-compliant: no accepted span bars any
/// other accepted after it.
pub proof fn lemma_resolve_compatible(
    accepted: Seq<SpanV>,
    cands: Seq<SpanV>,
    flat_ner: bool,
    dup_label: bool,
    multi_label: bool,
)
    requires
        spec_compatible(accepted, flat_ner, dup_label, multi_label),
    ensures
        spec_compatible(
            spec_resolve_from(accepted, cands, flat_ner, dup_label, multi_label),
            flat_ner,
            dup_label,
            multi_label,
        ),
    decreases cands.len(),
{
    if cands.len() == 0 {
    } else {
        let c = cands[0];
        if spec_accepts(accepted, c, flat_ner, dup_label, multi_label) {
            let next = accepted.push(c);
            assert forall|i: int, j: int| 0 <= i < j < next.len() implies !spec_conflicts(
                #[trigger] next[i],
                #[trigger] next[j],
                flat_ner,
                dup_label,
                multi_label,
            ) by {
                if j < next.len() - 1 {
                    assert(!spec_conflicts(
                        accepted[i],
                        accepted[j],
                        flat_ner,
                        dup_label,
                        multi_label,
                    ));
                } else {
                    assert(!spec_conflicts(accepted[i], c, flat_ner, dup_label, multi_label));
                }
            }
            lemma_resolve_compatible(next, cands.drop_first(), flat_ner, dup_label, multi_label);
        } else {
            lemma_resolve_compatible(
                accepted,
                cands.drop_first(),
                flat_ner,
                dup_label,
                multi_label,
            );
        }
    }
}

/// The resolver invents nothing: every span in its output comes from the
/// starting accepted list or from the candidate list.
pub proof fn lemma_resolve_subset(
    accepted: Seq<SpanV>,
    cands: Seq<SpanV>,
    flat_ner: bool,
    dup_label: bool,
    multi_label: bool,
)
    ensures
        forall|i: int|
            0 <= i < spec_resolve_from(accepted, cands, flat_ner, dup_label, multi_label).len()
                ==> accepted.contains(
                #[trigger] spec_resolve_from(accepted, cands, flat_ner, dup_label, multi_label)[i],
            ) || cands.contains(
                spec_resolve_from(accepted, cands, flat_ner, dup_label, multi_label)[i],
            ),
    decreases cands.len(),
{
    if cands.len() == 0 {
    } else {
        let c = cands[0];
        let next = if spec_accepts(accepted, c, flat_ner, dup_label, multi_label) {
            accepted.push(c)
        } else {
            accepted
        };
        lemma_resolve_subset(next, cands.drop_first(), flat_ner, dup_label, multi_label);
        let r = spec_resolve_from(accepted, cands, flat_ner, dup_label, multi_label);
        assert forall|i: int| 0 <= i < r.len() implies accepted.contains(#[trigger] r[i])
            || cands.contains(r[i]) by {
            assert(spec_resolve_from(next, cands.drop_first(), flat_ner, dup_label, multi_label)[i]
                == r[i]);
            if next.contains(r[i]) {
                let k = choose|k: int| 0 <= k < next.len() && next[k] == r[i];
                if k < accepted.len() {
                    assert(accepted[k] == r[i]);
                    assert(accepted.contains(r[i]));
                } else {
                    assert(r[i] == c);
                    assert(cands[0] == r[i]);
                    assert(cands.contains(r[i]));
                }
            } else {
                let k = choose|k: int| 0 <= k < cands.drop_first().len() && cands.drop_first()[k]
                    == r[i];
                assert(cands.drop_first()[k] == cands[k + 1]);
                assert(cands.contains(r[i]));
            }
        }
    }
}

/// With `flat_ner` and without duplicate or multiple labels, two
/// conflicting candidates — overlapping in any way — leave only the
/// higher-scoring one, which arrives first in sorted order.
pub proof fn lemma_flat_single_winner(c1: SpanV, c2: SpanV)
    requires
        spec_overlaps(c1, c2),
    ensures
        spec_resolve(seq![c1, c2], true, false, false) == seq![c1],
{
    reveal_with_fuel(spec_resolve_from, 4);
    let empty = Seq::<SpanV>::empty();
    assert(spec_accepts(empty, c1, true, false, false));
    assert(seq![c1, c2].drop_first() =~= seq![c2]);
    assert(spec_conflicts(c1, c2, true, false, false));
    assert(empty.push(c1) =~= seq![c1]);
    assert(!spec_accepts(seq![c1], c2, true, false, false)) by {
        assert(seq![c1][0] == c1 && spec_conflicts(seq![c1][0], c2, true, false, false));
    }
    assert(seq![c2].drop_first() =~= Seq::<SpanV>::empty());
    assert(spec_resolve(seq![c1, c2], true, false, false) == seq![c1]);
}

/// Without `flat_ner`, two overlapping candidates with different
/// boundaries both survive, whatever the label policies say.
pub proof fn lemma_nested_coexist(c1: SpanV, c2: SpanV, dup_label: bool, multi_label: bool)
    requires
        !spec_same_boundary(c1, c2),
    ensures
        spec_resolve(seq![c1, c2], false, dup_label, multi_label) == seq![c1, c2],
{
    reveal_with_fuel(spec_resolve_from, 4);
    let empty = Seq::<SpanV>::empty();
    assert(spec_accepts(empty, c1, false, dup_label, multi_label));
    assert(seq![c1, c2].drop_first() =~= seq![c2]);
    assert(empty.push(c1) =~= seq![c1]);
    assert(!spec_conflicts(c1, c2, false, dup_label, multi_label));
    assert(spec_accepts(seq![c1], c2, false, dup_label, multi_label)) by {
        assert(seq![c1][0] == c1);
    }
    assert(seq![c2].drop_first() =~= Seq::<SpanV>::empty());
    assert(seq![c1].push(c2) =~= seq![c1, c2]);
    assert(spec_resolve(seq![c1, c2], false, dup_label, multi_label) == seq![c1, c2]);
}

/// Exec mirror of [`spec_conflicts`].
pub fn conflicts(a: &Span, c: &Span, flat_ner: bool, dup_label: bool, multi_label: bool) -> (r:
    bool)
    ensures
        r == spec_conflicts(a@, c@, flat_ner, dup_label, multi_label),
{
    if a.start == c.start && a.end == c.end {
        a.class.eq(&c.class) || !(dup_label && multi_label)
    } else if a.start <= c.end && c.start <= a.end {
        flat_ner
    } else {
        false
    }
}

/// The greedy resolution stage, configured by the three policies.
pub struct GreedySearch {
    pub flat_ner: bool,
    pub dup_label: bool,
    pub multi_label: bool,
}

impl GreedySearch {
    /// A resolver with the given policy flags.
    pub fn new(flat_ner: bool, dup_label: bool, multi_label: bool) -> (r: GreedySearch)
        ensures
            r.flat_ner == flat_ner,
            r.dup_label == dup_label,
            r.multi_label == multi_label,
    {
        GreedySearch { flat_ner, dup_label, multi_label }
    }

    /// Whether the accepted list admits candidate `c`.
    fn accepts(&self, accepted: &Vec<Span>, c: &Span) -> (r: bool)
        ensures
            r == spec_accepts(
                accepted.deep_view(),
                c@,
                self.flat_ner,
                self.dup_label,
                self.multi_label,
            ),
    {
        let mut i: usize = 0;
        while i < accepted.len()
            invariant
                i <= accepted@.len(),
                forall|j: int| 0 <= j < i ==> !spec_conflicts(
                    #[trigger] accepted.deep_view()[j],
                    c@,
                    self.flat_ner,
                    self.dup_label,
                    self.multi_label,
                ),
            decreases accepted@.len() - i,
        {
            proof {
                assert(accepted.deep_view()[i as int] == accepted@[i as int].deep_view());
            }
            if conflicts(&accepted[i], c, self.flat_ner, self.dup_label, self.multi_label) {
                return false;
            }
            i = i + 1;
        }
        true
    }

    /// Resolves one sequence's sorted candidate list into its accepted
    /// span list, in arrival (score) order.
    pub fn resolve(&self, cands: Vec<Span>) -> (r: Vec<Span>)
        ensures
            r.deep_view() == spec_resolve(
                cands.deep_view(),
                self.flat_ner,
                self.dup_label,
                self.multi_label,
            ),
    {
        let ghost orig = cands.deep_view();
        let mut rest = cands;
        let mut accepted: Vec<Span> = Vec::new();
        proof {
            assert(accepted.deep_view() =~= Seq::<SpanV>::empty());
            assert(rest.deep_view() =~= orig);
        }
        while rest.len() > 0
            invariant
                spec_resolve(orig, self.flat_ner, self.dup_label, self.multi_label)
                    == spec_resolve_from(
                    accepted.deep_view(),
                    rest.deep_view(),
                    self.flat_ner,
                    self.dup_label,
                    self.multi_label,
                ),
            decreases rest@.len(),
        {
            let ghost restv = rest@;
            let ghost restdv = rest.deep_view();
            let ghost accdv = accepted.deep_view();
            let c = rest.remove(0);
            proof {
                restv.remove_ensures(0);
                assert(restdv[0] == restv[0].deep_view());
                assert(restdv[0] == c@);
                assert forall|j: int| 0 <= j < rest@.len() implies #[trigger] rest.deep_view()[j]
                    == restdv[j + 1] by {
                    assert(rest@[j] == restv[j + 1]);
                    assert(rest.deep_view()[j] == rest@[j].deep_view());
                    assert(restdv[j + 1] == restv[j + 1].deep_view());
                }
                assert(rest.deep_view() =~= restdv.drop_first());
            }
            if self.accepts(&accepted, &c) {
                let ghost accv = accepted@;
                accepted.push(c);
                proof {
                    assert forall|j: int| 0 <= j < accepted@.len() implies #[trigger] accepted
                        .deep_view()[j] == accdv.push(restdv[0])[j] by {
                        assert(accepted.deep_view()[j] == accepted@[j].deep_view());
                        if j < accv.len() {
                            assert(accepted@[j] == accv[j]);
                            assert(accdv[j] == accv[j].deep_view());
                        }
                    }
                    assert(accepted.deep_view() =~= accdv.push(restdv[0]));
                }
            }
        }
        proof {
            assert(rest.deep_view() =~= Seq::<SpanV>::empty());
        }
        accepted
    }
}

impl Stage for GreedySearch {
    type Input = SpanOutput;

    type Output = SpanOutput;

    /// Resolution works on any candidate lists; it assumes they are
    /// sorted only for its determinism story, not for safety.
    open spec fn pre(&self, input: &SpanOutput) -> bool {
        true
    }

    /// Each sequence's list is replaced by its greedy resolution; texts
    /// and vocabulary are echoed unchanged.
    open spec fn post(&self, input: &SpanOutput, output: &SpanOutput) -> bool {
        &&& output.texts == input.texts
        &&& output.entities == input.entities
        &&& output.spans.deep_view().len() == input.spans.deep_view().len()
        &&& forall|s: int| 0 <= s < input.spans.deep_view().len() ==> #[trigger] output
            .spans.deep_view()[s] == spec_resolve(
            input.spans.deep_view()[s],
            self.flat_ner,
            self.dup_label,
            self.multi_label,
        )
    }

    /// Resolution is a pure transformation: it cannot fail.
    open spec fn may_fail(&self, input: &SpanOutput) -> bool {
        false
    }

    fn apply(&self, input: SpanOutput) -> (r: Result<SpanOutput, StageError>) {
        let SpanOutput { texts, entities, spans } = input;
        let ghost orig = spans.deep_view();
        let total = spans.len();
        let mut rest = spans;
        let mut out: Vec<Vec<Span>> = Vec::new();
        let mut i: usize = 0;
        while rest.len() > 0
            invariant
                i + rest@.len() == orig.len(),
                i <= orig.len() == total,
                out@.len() == i,
                forall|j: int| 0 <= j < rest@.len() ==> #[trigger] rest.deep_view()[j] == orig[i
                    + j],
                forall|j: int| 0 <= j < i ==> #[trigger] out.deep_view()[j] == spec_resolve(
                    orig[j],
                    self.flat_ner,
                    self.dup_label,
                    self.multi_label,
                ),
            decreases rest@.len(),
        {
            let ghost restv = rest@;
            let ghost restdv = rest.deep_view();
            let lst = rest.remove(0);
            proof {
                restv.remove_ensures(0);
                assert(restdv[0] == restv[0].deep_view());
                assert(restdv[0] == orig[i as int]);
                assert(restdv[0] == lst.deep_view());
                assert forall|j: int| 0 <= j < rest@.len() implies #[trigger] rest.deep_view()[j]
                    == orig[i + 1 + j] by {
                    assert(rest@[j] == restv[j + 1]);
                    assert(rest.deep_view()[j] == rest@[j].deep_view());
                    assert(restdv[j + 1] == restv[j + 1].deep_view());
                    assert(restdv[j + 1] == orig[i + 1 + j]);
                }
            }
            let resolved = self.resolve(lst);
            let ghost resolveddv = resolved.deep_view();
            let ghost outv = out@;
            let ghost outdv = out.deep_view();
            out.push(resolved);
            proof {
                assert forall|j: int| 0 <= j < i + 1 implies #[trigger] out.deep_view()[j]
                    == spec_resolve(orig[j], self.flat_ner, self.dup_label, self.multi_label) by {
                    assert(out.deep_view()[j] == out@[j].deep_view());
                    if j < i {
                        assert(out@[j] == outv[j]);
                        assert(outdv[j] == outv[j].deep_view());
                        assert(outdv[j] == spec_resolve(
                            orig[j],
                            self.flat_ner,
                            self.dup_label,
                            self.multi_label,
                        ));
                    } else {
                        assert(out@[j].deep_view() == resolveddv);
                    }
                }
            }
            i = i + 1;
        }
        Ok(SpanOutput { texts, entities, spans: out })
    }
}

} // verus!
