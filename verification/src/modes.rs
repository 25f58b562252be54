//! Pre-assembled decoding chains, one per model mode.
//!
//! Both modes share the same tail — deterministic sorting followed by
//! greedy conflict resolution — and differ only in the decoding stage in
//! front.  The chains are built with [`Composed`], so a stage whose output
//! type does not match its successor's input type fails to build rather
//! than at run time.

use vstd::prelude::*;
use vstd::seq_lib::group_to_multiset_ensures;
use vstd::multiset::group_multiset_axioms;
use crate::score::Score;
use crate::context::EntityContext;
use crate::span::{SpanV, span_wf};
use crate::sort::{SpanSort, spec_sort, lemma_sort_props};
use crate::greedy::{
    GreedySearch,
    spec_resolve,
    spec_compatible,
    lemma_resolve_subset,
    lemma_resolve_compatible,
};
use crate::decode::span::{spec_decode_all, spec_expected_shape, lemma_decode_all_sound};
use crate::tensor::spec_product;
use crate::pipeline::Composed;

verus! {

/// Which decoding strategy a model configuration selects.
#[derive(Debug, PartialEq, Eq, Structural)]
pub enum Mode {
    SpanLevel,
    TokenLevel,
}

/// Selects the decoding mode from a model configuration's span-mode
/// value: exactly the value `"token_level"` selects token mode, anything
/// else (or no value at all) selects span mode.
pub fn select_mode(span_mode: Option<&String>) -> (r: Mode)
    ensures
        r == Mode::TokenLevel <==> (span_mode matches Some(v) && v@ == "token_level"@),
{
    match span_mode {
        Some(v) => {
            if v.eq(&String::from_str("token_level")) {
                Mode::TokenLevel
            } else {
                Mode::SpanLevel
            }
        },
        None => Mode::SpanLevel,
    }
}

/// The span-mode post-processing chain: decode the span grid, sort each
/// sequence's candidates, then resolve conflicts greedily.
pub fn span_post_processor(
    threshold: Score,
    max_width: usize,
    flat_ner: bool,
    dup_label: bool,
    multi_label: bool,
) -> (r: Composed<Composed<crate::decode::span::TensorsToDecoded, SpanSort>, GreedySearch>)
    ensures
        r.first.first.threshold == threshold,
        r.first.first.max_width == max_width,
        r.second.flat_ner == flat_ner,
        r.second.dup_label == dup_label,
        r.second.multi_label == multi_label,
{
    Composed::new(
        Composed::new(
            crate::decode::span::TensorsToDecoded::new(threshold, max_width),
            SpanSort::new(),
        ),
        GreedySearch::new(flat_ner, dup_label, multi_label),
    )
}

/// The token-mode post-processing chain: decode the boundary grids, sort
/// each sequence's candidates, then resolve conflicts greedily.  It is the
/// drop-in alternative to [`span_post_processor`], selected by model
/// configuration.
pub fn token_post_processor(
    threshold: Score,
    flat_ner: bool,
    dup_label: bool,
    multi_label: bool,
) -> (r: Composed<Composed<crate::decode::token::TensorsToDecoded, SpanSort>, GreedySearch>)
    ensures
        r.first.first.threshold == threshold,
        r.second.flat_ner == flat_ner,
        r.second.dup_label == dup_label,
        r.second.multi_label == multi_label,
{
    Composed::new(
        Composed::new(crate::decode::token::TensorsToDecoded::new(threshold), SpanSort::new()),
        GreedySearch::new(flat_ner, dup_label, multi_label),
    )
}

/// End-to-end soundness of the span-mode chain: whatever the decode, sort
/// and resolve stages produced from a well-formed score tensor, every span
/// of the final output is well formed — token range inside the sequence's
/// real token count, label from the vocabulary, score a probability — and
/// every sequence's output is policy-compliant: no accepted span bars
/// another.
pub proof fn lemma_span_chain_sound(
    ctx: &EntityContext,
    data: Seq<Score>,
    threshold: Score,
    max_width: usize,
    decoded: Seq<Seq<SpanV>>,
    sorted: Seq<Seq<SpanV>>,
    resolved: Seq<Seq<SpanV>>,
    flat_ner: bool,
    dup_label: bool,
    multi_label: bool,
)
    requires
        forall|i: int| 0 <= i < data.len() ==> crate::score::valid_score(#[trigger] data[i]),
        data.len() == spec_product(spec_expected_shape(ctx, max_width)),
        decoded == spec_decode_all(ctx, data, threshold, max_width as int),
        sorted.len() == decoded.len(),
        forall|s: int| 0 <= s < decoded.len() ==> #[trigger] sorted[s] == spec_sort(decoded[s]),
        resolved.len() == sorted.len(),
        forall|s: int| 0 <= s < sorted.len() ==> #[trigger] resolved[s] == spec_resolve(
            sorted[s],
            flat_ner,
            dup_label,
            multi_label,
        ),
    ensures
        resolved.len() == ctx.spec_num_sequences(),
        forall|s: int, i: int|
            0 <= s < resolved.len() && 0 <= i < resolved[s].len() ==> span_wf(
                ctx,
                #[trigger] resolved[s][i],
            ),
        forall|s: int| 0 <= s < resolved.len() ==> spec_compatible(
            #[trigger] resolved[s],
            flat_ner,
            dup_label,
            multi_label,
        ),
{
    broadcast use group_to_multiset_ensures;
    broadcast use group_multiset_axioms;

    lemma_decode_all_sound(ctx, data, threshold, max_width);
    let empty = Seq::<SpanV>::empty();
    assert forall|s: int, i: int|
        0 <= s < resolved.len() && 0 <= i < resolved[s].len() implies span_wf(
        ctx,
        #[trigger] resolved[s][i],
    ) by {
        let e = resolved[s][i];
        lemma_resolve_subset(empty, sorted[s], flat_ner, dup_label, multi_label);
        assert(spec_resolve(sorted[s], flat_ner, dup_label, multi_label)[i] == e);
        assert(!empty.contains(e));
        assert(sorted[s].contains(e));
        lemma_sort_props(decoded[s]);
        assert(sorted[s].to_multiset().contains(e));
        assert(decoded[s].to_multiset().contains(e));
        assert(decoded[s].contains(e));
        let idx = choose|idx: int| 0 <= idx < decoded[s].len() && decoded[s][idx] == e;
        assert(span_wf(ctx, spec_decode_all(ctx, data, threshold, max_width as int)[s][idx]));
    }
    assert forall|s: int| 0 <= s < resolved.len() implies spec_compatible(
        #[trigger] resolved[s],
        flat_ner,
        dup_label,
        multi_label,
    ) by {
        assert(spec_compatible(empty, flat_ner, dup_label, multi_label));
        lemma_resolve_compatible(empty, sorted[s], flat_ner, dup_label, multi_label);
    }
}

} // verus!
