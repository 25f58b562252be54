//! Token-boundary decoding: per-token start and end scores.
//!
//! The scorer emits two tensors, `start_logits` and `end_logits`, each of
//! shape `(batch, num_words, num_classes)`: how strongly each token opens,
//! respectively closes, a span of each class.  A candidate `start ..= end`
//! with class `c` is emitted when both boundary tokens lie inside the
//! sequence's real token count and the weaker of its two boundary scores
//! still reaches the threshold (inclusive) — the same threshold and
//! invariants as span mode, so the two decoders are drop-in alternatives
//! selected by model configuration.

use vstd::prelude::*;
use vstd::arithmetic::div_mod::{
    lemma_div_pos_is_pos,
    lemma_mod_division_less_than_divisor,
    lemma_multiply_divide_lt,
};
use crate::score::Score;
use crate::context::EntityContext;
use crate::span::{Span, SpanV, SpanOutput, spec_make_span, span_wf};
use crate::tensor::{ScoreTensor, TensorOutput, spec_find_tensor, spec_product};
use crate::pipeline::{Stage, StageError};

verus! {

/// Name of the start-boundary tensor.
pub fn start_logits_name() -> (r: &'static str)
    ensures
        r@ == "start_logits"@,
{
    "start_logits"
}

/// Name of the end-boundary tensor.
pub fn end_logits_name() -> (r: &'static str)
    ensures
        r@ == "end_logits"@,
{
    "end_logits"
}

/// The smaller of two scores: a span is only as strong as its weaker
/// boundary.
pub open spec fn spec_min_score(a: Score, b: Score) -> Score {
    if a <= b {
        a
    } else {
        b
    }
}

/// The boundary-tensor shape the decoder demands:
/// `(batch, num_words, num_classes)`.
pub open spec fn spec_boundary_shape(ctx: &EntityContext) -> Seq<usize> {
    seq![ctx.texts@.len() as usize, ctx.num_words, ctx.entities@.len() as usize]
}

/// Index of the boundary score of token `t`, class `class`, sequence `s`.
pub open spec fn spec_boundary_index(ctx: &EntityContext, s: int, t: int, class: int) -> int {
    ((s * (ctx.num_words as int)) + t) * (ctx.seq_entities().len() as int) + class
}

/// Flat size of one sequence's candidate grid:
/// `num_words * num_words * num_classes`.
pub open spec fn spec_token_block(ctx: &EntityContext) -> int {
    ((ctx.num_words as int) * (ctx.num_words as int)) * (ctx.seq_entities().len() as int)
}

/// The candidate spans of sequence `s` decoded from grid cells with flat
/// in-sequence index below `k`, in index order.  Cell `j` decomposes into
/// `start = j / (num_words * num_classes)`,
/// `end = (j / num_classes) % num_words` and `class = j % num_classes`;
/// it is emitted exactly when `start <= end`, `end` lies inside the real
/// token count, and the weaker boundary score reaches the threshold
/// (inclusive).
pub open spec fn spec_token_decode_upto(
    ctx: &EntityContext,
    starts: Seq<Score>,
    ends: Seq<Score>,
    threshold: Score,
    s: int,
    k: int,
) -> Seq<SpanV>
    decreases k,
{
    let nw = ctx.num_words as int;
    let nc = ctx.seq_entities().len() as int;
    if k <= 0 || nc <= 0 || nw <= 0 {
        Seq::empty()
    } else {
        let prev = spec_token_decode_upto(ctx, starts, ends, threshold, s, k - 1);
        let j = k - 1;
        let start = j / (nw * nc);
        let end = (j / nc) % nw;
        let class = j % nc;
        let score = spec_min_score(
            starts[spec_boundary_index(ctx, s, start, class)],
            ends[spec_boundary_index(ctx, s, end, class)],
        );
        if start <= end && end < ctx.spec_num_tokens(s) && score >= threshold {
            prev.push(spec_make_span(ctx, s, start, end, class, score))
        } else {
            prev
        }
    }
}

/// All candidate spans of sequence `s` in token mode.
pub open spec fn spec_token_decode_seq(
    ctx: &EntityContext,
    starts: Seq<Score>,
    ends: Seq<Score>,
    threshold: Score,
    s: int,
) -> Seq<SpanV> {
    spec_token_decode_upto(ctx, starts, ends, threshold, s, spec_token_block(ctx))
}

/// The whole batch's token-mode candidate lists, one per input text.
pub open spec fn spec_token_decode_all(
    ctx: &EntityContext,
    starts: Seq<Score>,
    ends: Seq<Score>,
    threshold: Score,
) -> Seq<Seq<SpanV>> {
    Seq::new(
        ctx.texts@.len(),
        |s: int| spec_token_decode_seq(ctx, starts, ends, threshold, s),
    )
}

/// Token-mode decoding stage.
pub struct TensorsToDecoded {
    pub threshold: Score,
}

impl TensorsToDecoded {
    /// A token-mode decoder accepting scores at or above `threshold`.
    pub fn new(threshold: Score) -> (r: Self)
        ensures
            r.threshold == threshold,
    {
        Self { threshold }
    }

    /// The tensor names this decoder expects from the scorer.
    pub fn outputs() -> (r: Vec<String>)
        ensures
            r.deep_view() =~= seq!["start_logits"@, "end_logits"@],
    {
        let mut v: Vec<String> = Vec::new();
        v.push(String::from_str(start_logits_name()));
        v.push(String::from_str(end_logits_name()));
        v
    }

    /// Checks a boundary tensor's shape against the context.
    pub fn check_shape(&self, tensor: &ScoreTensor, ctx: &EntityContext) -> (r: bool)
        ensures
            r <==> tensor.shape@ =~= spec_boundary_shape(ctx),
    {
        if tensor.shape.len() != 3 {
            return false;
        }
        tensor.shape[0] == ctx.texts.len() && tensor.shape[1] == ctx.num_words && tensor.shape[2]
            == ctx.entities.len()
    }

    /// Builds the expected-shape vector, for error reporting.
    fn expected_shape(&self, ctx: &EntityContext) -> (r: Vec<usize>)
        ensures
            r@ =~= spec_boundary_shape(ctx),
    {
        let mut v: Vec<usize> = Vec::new();
        v.push(ctx.texts.len());
        v.push(ctx.num_words);
        v.push(ctx.entities.len());
        v
    }

    /// Decodes the two boundary grids into one unsorted candidate span
    /// list per input text.  Fails fatally when either tensor is missing
    /// or misshapen; otherwise the result is exactly
    /// [`spec_token_decode_all`].
    pub fn decode(&self, input: &TensorOutput) -> (r: Result<Vec<Vec<Span>>, StageError>)
        requires
            input.wf(),
            input.context.wf(),
        ensures
            match r {
                Ok(spans) => (spec_find_tensor(input.tensors@, "start_logits"@) matches Some(st)
                    && spec_find_tensor(input.tensors@, "end_logits"@) matches Some(et)
                    && st.shape@ == spec_boundary_shape(&input.context) && et.shape@
                    == spec_boundary_shape(&input.context) && spans.deep_view()
                    == spec_token_decode_all(&input.context, st.data@, et.data@, self.threshold)),
                Err(StageError::MissingTensor { name }) => (name@ == "start_logits"@
                    && spec_find_tensor(input.tensors@, "start_logits"@) is None) || (name@
                    == "end_logits"@ && spec_find_tensor(input.tensors@, "end_logits"@) is None),
                Err(StageError::ShapeMismatch { name, expected, actual }) => {
                    &&& expected@ == spec_boundary_shape(&input.context)
                    &&& name@ == "start_logits"@ || name@ == "end_logits"@
                    &&& (spec_find_tensor(input.tensors@, name@) matches Some(t) && actual@
                        == t.shape@ && t.shape@ != spec_boundary_shape(&input.context))
                },
            },
    {
        let ctx = &input.context;
        let start_name = String::from_str(start_logits_name());
        let end_name = String::from_str(end_logits_name());
        let starts = match input.get_tensor(&start_name) {
            Some(t) => t,
            None => {
                return Err(StageError::MissingTensor { name: start_name });
            },
        };
        let ends = match input.get_tensor(&end_name) {
            Some(t) => t,
            None => {
                return Err(StageError::MissingTensor { name: end_name });
            },
        };
        if !self.check_shape(starts, ctx) {
            return Err(
                StageError::ShapeMismatch {
                    name: start_name,
                    expected: self.expected_shape(ctx),
                    actual: copy_shape(&starts.shape),
                },
            );
        }
        if !self.check_shape(ends, ctx) {
            return Err(
                StageError::ShapeMismatch {
                    name: end_name,
                    expected: self.expected_shape(ctx),
                    actual: copy_shape(&ends.shape),
                },
            );
        }
        let batch = ctx.texts.len();
        let num_words = ctx.num_words;
        let nc = ctx.entities.len();
        let sdlen = starts.data.len();
        let edlen = ends.data.len();
        let ghost gstarts = starts.data@;
        let ghost gends = ends.data@;
        let ghost p = spec_product(starts.shape@);
        proof {
            input.lemma_found_tensor_wf("start_logits"@);
            input.lemma_found_tensor_wf("end_logits"@);
            lemma_product_shape3(batch, num_words, nc);
            assert(starts.shape@ =~= seq![batch, num_words, nc]);
            assert(ends.shape@ =~= seq![batch, num_words, nc]);
        }

        let mut result: Vec<Vec<Span>> = Vec::new();
        if batch == 0 {
            proof {
                assert(result.deep_view() =~= spec_token_decode_all(
                    ctx,
                    gstarts,
                    gends,
                    self.threshold,
                ));
            }
            return Ok(result);
        }

        // With a non-empty batch, the per-sequence boundary row and the
        // candidate grid both fit in usize arithmetic because the whole
        // data length does; the grid is iterated but never allocated.
        let row: usize;
        let nwnc: usize;
        if num_words == 0 || nc == 0 {
            row = 0;
            nwnc = 0;
            proof {
                assert(spec_token_block(ctx) == 0 && p == (batch as int) * 0 && (ctx.num_words as int)
                    * (ctx.seq_entities().len() as int) == 0) by (nonlinear_arith)
                    requires
                        num_words == 0 || nc == 0,
                        num_words == ctx.num_words,
                        nc == ctx.seq_entities().len(),
                        spec_token_block(ctx) == ((ctx.num_words as int) * (ctx.num_words as int))
                            * (ctx.seq_entities().len() as int),
                        p == ((batch as int) * (num_words as int)) * (nc as int),
                {}
            }
        } else {
            proof {
                assert((num_words as int) * (nc as int) <= p && (num_words as int) * (nc as int)
                    >= 1) by (nonlinear_arith)
                    requires
                        batch >= 1,
                        num_words >= 1,
                        nc >= 1,
                        p == ((batch as int) * (num_words as int)) * (nc as int),
                        p <= usize::MAX as int,
                {}
            }
            nwnc = num_words * nc;
            row = nwnc;
            proof {
                assert(p == (batch as int) * (row as int)) by (nonlinear_arith)
                    requires
                        p == ((batch as int) * (num_words as int)) * (nc as int),
                        row == (num_words as int) * (nc as int),
                {}
            }
        }

        let mut s: usize = 0;
        while s < batch
            invariant
                s <= batch,
                batch == ctx.texts@.len(),
                input.wf(),
                ctx.wf(),
                ctx == &input.context,
                starts.wf(),
                ends.wf(),
                gstarts == starts.data@,
                gends == ends.data@,
                gstarts.len() == p,
                gends.len() == p,
                p == ((batch as int) * (num_words as int)) * (nc as int),
                p == (batch as int) * (row as int),
                p <= usize::MAX,
                num_words == ctx.num_words,
                nc == ctx.entities@.len(),
                row > 0 ==> nwnc == (num_words as int) * (nc as int) && nwnc >= 1 && num_words >= 1
                    && nc >= 1 && row == nwnc,
                row == 0 ==> num_words == 0 || nc == 0,
                result@.len() == s,
                forall|i: int| 0 <= i < s ==> #[trigger] result.deep_view()[i]
                    == spec_token_decode_seq(ctx, gstarts, gends, self.threshold, i),
            decreases batch - s,
        {
            let num_tokens = ctx.num_tokens(s);
            let mut spans: Vec<Span> = Vec::new();
            if row > 0 {
                proof {
                    assert((s as int) * (row as int) >= 0 && (s as int) * (row as int) + (
                    row as int) <= p && (num_words as int) * ((num_words as int) * (nc as int))
                        >= (num_words as int) * (nc as int)) by (nonlinear_arith)
                        requires
                            0 <= s < batch,
                            row >= 1,
                            num_words >= 1,
                            nc >= 1,
                            p == (batch as int) * (row as int),
                    {}
                }
                let base = s * nwnc;
                // The candidate grid of one sequence has num_words *
                // num_words * num_classes cells; iterate it by flat index.
                let ghost block = spec_token_block(ctx);
                proof {
                    assert(block == (num_words as int) * ((num_words as int) * (nc as int))
                        && ((num_words as int) * (nc as int)) * (num_words as int) == block)
                        by (nonlinear_arith)
                        requires
                            num_words == ctx.num_words,
                            nc == ctx.seq_entities().len(),
                            block == ((ctx.num_words as int) * (ctx.num_words as int)) * (
                            ctx.seq_entities().len() as int),
                    {}
                }
                let mut start: usize = 0;
                let ghost mut k: int = 0;
                while start < num_words
                    invariant
                        start <= num_words,
                        k == (start as int) * (nwnc as int),
                        0 < nwnc == (num_words as int) * (nc as int),
                        num_words >= 1,
                        nc >= 1,
                        row == nwnc,
                        base == (s as int) * (nwnc as int),
                        base + row <= p,
                        base >= 0,
                        s < batch,
                        batch == ctx.texts@.len(),
                        input.wf(),
                        ctx.wf(),
                        ctx == &input.context,
                        starts.wf(),
                        ends.wf(),
                        gstarts == starts.data@,
                        gends == ends.data@,
                        gstarts.len() == p,
                        gends.len() == p,
                        p == (batch as int) * (row as int),
                        p <= usize::MAX,
                        num_tokens == ctx.spec_num_tokens(s as int),
                        nc == ctx.entities@.len(),
                        num_words == ctx.num_words,
                        block == spec_token_block(ctx),
                        block == ((num_words as int) * (nc as int)) * (num_words as int),
                        spans.deep_view() =~= spec_token_decode_upto(
                            ctx,
                            gstarts,
                            gends,
                            self.threshold,
                            s as int,
                            k,
                        ),
                    decreases num_words - start,
                {
                    proof {
                        assert(k == ((start as int) * (num_words as int) + 0) * (nc as int))
                            by (nonlinear_arith)
                            requires
                                k == (start as int) * (nwnc as int),
                                nwnc == (num_words as int) * (nc as int),
                        {}
                    }
                    let mut end: usize = 0;
                    while end < num_words
                        invariant
                            start < num_words,
                            end <= num_words,
                            k == ((start as int) * (num_words as int) + end) * (nc as int),
                            0 < nwnc == (num_words as int) * (nc as int),
                            num_words >= 1,
                            nc >= 1,
                            row == nwnc,
                            base == (s as int) * (nwnc as int),
                            base + row <= p,
                            base >= 0,
                            s < batch,
                            batch == ctx.texts@.len(),
                            input.wf(),
                            ctx.wf(),
                            ctx == &input.context,
                            starts.wf(),
                            ends.wf(),
                            gstarts == starts.data@,
                            gends == ends.data@,
                            gstarts.len() == p,
                            gends.len() == p,
                            p == (batch as int) * (row as int),
                            p <= usize::MAX,
                            num_tokens == ctx.spec_num_tokens(s as int),
                            nc == ctx.entities@.len(),
                            num_words == ctx.num_words,
                            block == spec_token_block(ctx),
                            block == ((num_words as int) * (nc as int)) * (num_words as int),
                            spans.deep_view() =~= spec_token_decode_upto(
                                ctx,
                                gstarts,
                                gends,
                                self.threshold,
                                s as int,
                                k,
                            ),
                        decreases num_words - end,
                    {
                        let mut class: usize = 0;
                        while class < nc
                            invariant
                                start < num_words,
                                end < num_words,
                                class <= nc,
                                k == ((start as int) * (num_words as int) + end) * (nc as int)
                                    + class,
                                0 < nwnc == (num_words as int) * (nc as int),
                                num_words >= 1,
                                nc >= 1,
                                row == nwnc,
                                base == (s as int) * (nwnc as int),
                                base + row <= p,
                                base >= 0,
                                s < batch,
                                batch == ctx.texts@.len(),
                                input.wf(),
                                ctx.wf(),
                                ctx == &input.context,
                                starts.wf(),
                                ends.wf(),
                                gstarts == starts.data@,
                                gends == ends.data@,
                                gstarts.len() == p,
                                gends.len() == p,
                                p == (batch as int) * (row as int),
                                p <= usize::MAX,
                                num_tokens == ctx.spec_num_tokens(s as int),
                                nc == ctx.entities@.len(),
                                num_words == ctx.num_words,
                                block == spec_token_block(ctx),
                                block == ((num_words as int) * (nc as int)) * (num_words as int),
                                spans.deep_view() =~= spec_token_decode_upto(
                                    ctx,
                                    gstarts,
                                    gends,
                                    self.threshold,
                                    s as int,
                                    k,
                                ),
                            decreases nc - class,
                        {
                            proof {
                                lemma_token_cell(
                                    num_words as int,
                                    nc as int,
                                    start as int,
                                    end as int,
                                    class as int,
                                    k,
                                    block,
                                );
                                assert((s as int) * ((num_words as int) * (nc as int)) + ((
                                start as int) * (nc as int) + class) < p && (s as int) * ((
                                num_words as int) * (nc as int)) + ((end as int) * (nc as int)
                                    + class) < p && (start as int) * (nc as int) + class < row
                                    && (end as int) * (nc as int) + class < row)
                                    by (nonlinear_arith)
                                    requires
                                        0 <= start < num_words,
                                        0 <= end < num_words,
                                        0 <= class < nc,
                                        nc >= 1,
                                        num_words >= 1,
                                        row == (num_words as int) * (nc as int),
                                        base == (s as int) * ((num_words as int) * (nc as int)),
                                        base + row <= p,
                                        base >= 0,
                                {}
                                assert(spec_boundary_index(ctx, s as int, start as int, class as int)
                                    == base + ((start as int) * (nc as int) + class)
                                    && spec_boundary_index(ctx, s as int, end as int, class as int)
                                    == base + ((end as int) * (nc as int) + class))
                                    by (nonlinear_arith)
                                    requires
                                        num_words == ctx.num_words,
                                        nc == ctx.seq_entities().len(),
                                        base == (s as int) * ((num_words as int) * (nc as int)),
                                        spec_boundary_index(ctx, s as int, start as int, class as int)
                                            == ((s as int) * (ctx.num_words as int) + start) * (
                                        ctx.seq_entities().len() as int) + class,
                                        spec_boundary_index(ctx, s as int, end as int, class as int)
                                            == ((s as int) * (ctx.num_words as int) + end) * (
                                        ctx.seq_entities().len() as int) + class,
                                {}
                            }
                            let s_score = starts.data[base + (start * nc + class)];
                            let e_score = ends.data[base + (end * nc + class)];
                            let score = if s_score <= e_score {
                                s_score
                            } else {
                                e_score
                            };
                            if start <= end && end < num_tokens && score >= self.threshold {
                                let sp = ctx.create_span(s, start, end, class, score);
                                spans.push(sp);
                                proof {
                                    assert(spans.deep_view() =~= spec_token_decode_upto(
                                        ctx,
                                        gstarts,
                                        gends,
                                        self.threshold,
                                        s as int,
                                        k + 1,
                                    ));
                                }
                            } else {
                                proof {
                                    assert(spans.deep_view() =~= spec_token_decode_upto(
                                        ctx,
                                        gstarts,
                                        gends,
                                        self.threshold,
                                        s as int,
                                        k + 1,
                                    ));
                                }
                            }
                            proof {
                                k = k + 1;
                            }
                            class = class + 1;
                        }
                        end = end + 1;
                        proof {
                            assert(k == ((start as int) * (num_words as int) + end) * (nc as int))
                                by (nonlinear_arith)
                                requires
                                    k == ((start as int) * (num_words as int) + end - 1) * (
                                    nc as int) + nc,
                            {}
                        }
                    }
                    start = start + 1;
                    proof {
                        assert(k == (start as int) * (nwnc as int)) by (nonlinear_arith)
                            requires
                                k == ((start as int - 1) * (num_words as int) + num_words) * (
                                nc as int),
                                nwnc == (num_words as int) * (nc as int),
                        {}
                    }
                }
                proof {
                    assert((num_words as int) * (nwnc as int) == block) by (nonlinear_arith)
                        requires
                            nwnc == (num_words as int) * (nc as int),
                            block == ((num_words as int) * (nc as int)) * (num_words as int),
                    {}
                }
            }
            proof {
                assert(spans.deep_view() =~= spec_token_decode_seq(
                    ctx,
                    gstarts,
                    gends,
                    self.threshold,
                    s as int,
                ));
            }
            let ghost gspans = spans.deep_view();
            let ghost oldr = result@;
            let ghost olddv = result.deep_view();
            result.push(spans);
            proof {
                assert(result.deep_view()[s as int] == gspans);
                assert forall|i: int| 0 <= i < s implies result.deep_view()[i]
                    == spec_token_decode_seq(ctx, gstarts, gends, self.threshold, i) by {
                    assert(result@[i] == oldr[i]);
                    assert(result.deep_view()[i] == result@[i].deep_view());
                    assert(olddv[i] == oldr[i].deep_view());
                    assert(olddv[i] == spec_token_decode_seq(
                        ctx,
                        gstarts,
                        gends,
                        self.threshold,
                        i,
                    ));
                }
            }
            s = s + 1;
        }
        proof {
            assert forall|i: int| 0 <= i < batch implies result.deep_view()[i]
                == spec_token_decode_all(ctx, gstarts, gends, self.threshold)[i] by {}
            assert(result.deep_view() =~= spec_token_decode_all(
                ctx,
                gstarts,
                gends,
                self.threshold,
            ));
        }
        Ok(result)
    }
}

/// Soundness of one sequence's token-mode decode: with well-formed
/// boundary tensors of the expected shape, every candidate span emitted
/// for sequence `s` is well formed.
pub proof fn lemma_token_decode_sound(
    ctx: &EntityContext,
    starts: Seq<Score>,
    ends: Seq<Score>,
    threshold: Score,
    s: int,
    k: int,
)
    requires
        0 <= s < ctx.spec_num_sequences(),
        forall|i: int| 0 <= i < starts.len() ==> crate::score::valid_score(#[trigger] starts[i]),
        forall|i: int| 0 <= i < ends.len() ==> crate::score::valid_score(#[trigger] ends[i]),
        starts.len() == ((ctx.spec_num_sequences() * (ctx.num_words as int)) * (
        ctx.seq_entities().len() as int)),
        ends.len() == starts.len(),
        k <= spec_token_block(ctx),
    ensures
        forall|i: int|
            0 <= i < spec_token_decode_upto(ctx, starts, ends, threshold, s, k).len() ==> span_wf(
                ctx,
                #[trigger] spec_token_decode_upto(ctx, starts, ends, threshold, s, k)[i],
            ),
    decreases k,
{
    let nw = ctx.num_words as int;
    let nc = ctx.seq_entities().len() as int;
    let b = ctx.spec_num_sequences();
    if k <= 0 || nc <= 0 || nw <= 0 {
    } else {
        lemma_token_decode_sound(ctx, starts, ends, threshold, s, k - 1);
        let prev = spec_token_decode_upto(ctx, starts, ends, threshold, s, k - 1);
        let j = k - 1;
        let nwnc = nw * nc;
        assert(nwnc >= 1 && j < nwnc * nw) by (nonlinear_arith)
            requires
                nw >= 1,
                nc >= 1,
                nwnc == nw * nc,
                j < (nw * nw) * nc,
        {}
        lemma_div_pos_is_pos(j, nwnc);
        lemma_multiply_divide_lt(j, nwnc, nw);
        lemma_div_pos_is_pos(j, nc);
        lemma_mod_division_less_than_divisor(j / nc, nw);
        lemma_mod_division_less_than_divisor(j, nc);
        let start = j / nwnc;
        let end = (j / nc) % nw;
        let class = j % nc;
        assert(0 <= ((s * nw) + start) * nc + class < (b * nw) * nc && 0 <= ((s * nw) + end) * nc
            + class < (b * nw) * nc) by (nonlinear_arith)
            requires
                0 <= s < b,
                0 <= start < nw,
                0 <= end < nw,
                0 <= class < nc,
        {}
        let score = spec_min_score(
            starts[spec_boundary_index(ctx, s, start, class)],
            ends[spec_boundary_index(ctx, s, end, class)],
        );
        if start <= end && end < ctx.spec_num_tokens(s) && score >= threshold {
            assert(span_wf(ctx, spec_make_span(ctx, s, start, end, class, score)));
        }
    }
}

/// Flat in-sequence index of the token-grid cell `(start, end, class)`.
pub open spec fn spec_token_cell_key(
    ctx: &EntityContext,
    start: int,
    end: int,
    class: int,
) -> int {
    (start * (ctx.num_words as int) + end) * (ctx.seq_entities().len() as int) + class
}

/// Completeness: every in-range token-grid cell with an ordered span
/// inside the real token count whose weaker boundary score reaches the
/// threshold (inclusive) contributes its span to the decoded list.
pub proof fn lemma_token_decode_complete(
    ctx: &EntityContext,
    starts: Seq<Score>,
    ends: Seq<Score>,
    threshold: Score,
    s: int,
    k: int,
    start: int,
    end: int,
    class: int,
)
    requires
        ctx.num_words >= 1,
        ctx.seq_entities().len() >= 1,
        0 <= start <= end < ctx.num_words,
        0 <= class < ctx.seq_entities().len(),
        spec_token_cell_key(ctx, start, end, class) < k,
        end < ctx.spec_num_tokens(s),
        spec_min_score(
            starts[spec_boundary_index(ctx, s, start, class)],
            ends[spec_boundary_index(ctx, s, end, class)],
        ) >= threshold,
    ensures
        spec_token_decode_upto(ctx, starts, ends, threshold, s, k).contains(
            spec_make_span(
                ctx,
                s,
                start,
                end,
                class,
                spec_min_score(
                    starts[spec_boundary_index(ctx, s, start, class)],
                    ends[spec_boundary_index(ctx, s, end, class)],
                ),
            ),
        ),
    decreases k,
{
    let nw = ctx.num_words as int;
    let nc = ctx.seq_entities().len() as int;
    let key = spec_token_cell_key(ctx, start, end, class);
    lemma_token_cell(nw, nc, start, end, class, key, (nw * nc) * nw);
    let score = spec_min_score(
        starts[spec_boundary_index(ctx, s, start, class)],
        ends[spec_boundary_index(ctx, s, end, class)],
    );
    let sp = spec_make_span(ctx, s, start, end, class, score);
    let prev = spec_token_decode_upto(ctx, starts, ends, threshold, s, k - 1);
    let here = spec_token_decode_upto(ctx, starts, ends, threshold, s, k);
    if k - 1 == key {
        assert(here == prev.push(sp));
        assert(here[here.len() - 1] == sp);
        assert(here.contains(sp));
    } else {
        lemma_token_decode_complete(ctx, starts, ends, threshold, s, k - 1, start, end, class);
        let idx = choose|idx: int| 0 <= idx < prev.len() && prev[idx] == sp;
        assert(here[idx] == sp);
        assert(here.contains(sp));
    }
}

/// Spans come only from their own cells: every decoded token-mode span is
/// the span of the grid cell its fields name, and that cell's weaker
/// boundary score reaches the threshold.
pub proof fn lemma_token_decode_cells(
    ctx: &EntityContext,
    starts: Seq<Score>,
    ends: Seq<Score>,
    threshold: Score,
    s: int,
    k: int,
)
    requires
        ctx.num_words >= 1,
        ctx.seq_entities().len() >= 1,
    ensures
        forall|i: int|
            0 <= i < spec_token_decode_upto(ctx, starts, ends, threshold, s, k).len() ==> {
                let sp = #[trigger] spec_token_decode_upto(ctx, starts, ends, threshold, s, k)[i];
                let score = spec_min_score(
                    starts[spec_boundary_index(ctx, s, sp.start, sp.class_index)],
                    ends[spec_boundary_index(ctx, s, sp.end, sp.class_index)],
                );
                &&& 0 <= sp.start <= sp.end < ctx.spec_num_tokens(s)
                &&& 0 <= sp.class_index < ctx.seq_entities().len()
                &&& spec_token_cell_key(ctx, sp.start, sp.end, sp.class_index) < k
                &&& sp == spec_make_span(ctx, s, sp.start, sp.end, sp.class_index, score)
                &&& score >= threshold
            },
    decreases k,
{
    let nw = ctx.num_words as int;
    let nc = ctx.seq_entities().len() as int;
    if k <= 0 {
    } else {
        lemma_token_decode_cells(ctx, starts, ends, threshold, s, k - 1);
        let prev = spec_token_decode_upto(ctx, starts, ends, threshold, s, k - 1);
        let here = spec_token_decode_upto(ctx, starts, ends, threshold, s, k);
        let j = k - 1;
        assert(nw * nc >= 1) by (nonlinear_arith)
            requires
                nw >= 1,
                nc >= 1,
        {}
        lemma_div_pos_is_pos(j, nw * nc);
        lemma_div_pos_is_pos(j, nc);
        lemma_mod_division_less_than_divisor(j / nc, nw);
        lemma_mod_division_less_than_divisor(j, nc);
        let start = j / (nw * nc);
        let end = (j / nc) % nw;
        let class = j % nc;
        let score = spec_min_score(
            starts[spec_boundary_index(ctx, s, start, class)],
            ends[spec_boundary_index(ctx, s, end, class)],
        );
        if start <= end && end < ctx.spec_num_tokens(s) && score >= threshold {
            let sp = spec_make_span(ctx, s, start, end, class, score);
            assert(here == prev.push(sp));
            lemma_token_cell_conv(nw, nc, j);
            assert(spec_token_cell_key(ctx, sp.start, sp.end, sp.class_index) == j);
        }
    }
}

/// Rebuilding a token-grid cell key from the decomposition of `j` gives
/// back `j`.
proof fn lemma_token_cell_conv(nw: int, nc: int, j: int)
    requires
        nw >= 1,
        nc >= 1,
        j >= 0,
    ensures
        ((j / (nw * nc)) * nw + (j / nc) % nw) * nc + j % nc == j,
{
    vstd::arithmetic::div_mod::lemma_fundamental_div_mod(j, nc);
    vstd::arithmetic::div_mod::lemma_fundamental_div_mod(j / nc, nw);
    lemma_div_pos_is_pos(j, nc);
    assert(j / (nw * nc) == (j / nc) / nw) by {
        vstd::arithmetic::div_mod::lemma_div_denominator(j, nc, nw);
        assert(nc * nw == nw * nc) by (nonlinear_arith);
    }
    assert((((j / nc) / nw) * nw + (j / nc) % nw) * nc + j % nc == j) by (nonlinear_arith)
        requires
            j == nc * (j / nc) + j % nc,
            j / nc == nw * ((j / nc) / nw) + (j / nc) % nw,
    {}
}

/// In the token grid, the flat cell index of `(start, end, class)`
/// decomposes back into its coordinates.
proof fn lemma_token_cell(nw: int, nc: int, start: int, end: int, class: int, k: int, block: int)
    requires
        nw >= 1,
        nc >= 1,
        0 <= start < nw,
        0 <= end < nw,
        0 <= class < nc,
        k == (start * nw + end) * nc + class,
        block == (nw * nc) * nw,
    ensures
        0 <= k < block,
        k / (nw * nc) == start,
        (k / nc) % nw == end,
        k % nc == class,
{
    let q = start * nw + end;
    assert(0 <= q && q < nw * nw && k == q * nc + class && k < (nw * nw) * nc && (nw * nw) * nc
        == block && nw * nc > 0) by (nonlinear_arith)
        requires
            nw >= 1,
            nc >= 1,
            0 <= start < nw,
            0 <= end < nw,
            0 <= class < nc,
            q == start * nw + end,
            k == q * nc + class,
            block == (nw * nc) * nw,
    {}
    vstd::arithmetic::div_mod::lemma_fundamental_div_mod_converse(k, nc, q, class);
    assert(k / nc == q && k % nc == class);
    vstd::arithmetic::div_mod::lemma_fundamental_div_mod_converse(q, nw, start, end);
    assert(q / nw == start && q % nw == end);
    assert((k / nc) % nw == end);
    assert(k / (nw * nc) == (k / nc) / nw) by {
        vstd::arithmetic::div_mod::lemma_div_denominator(k, nc, nw);
        assert(nc * nw == nw * nc) by (nonlinear_arith);
    }
    assert((k / nc) / nw == start);
}

/// Copies a shape vector, for error reporting.
fn copy_shape(v: &Vec<usize>) -> (r: Vec<usize>)
    ensures
        r@ =~= v@,
{
    let mut r: Vec<usize> = Vec::new();
    let mut i: usize = 0;
    while i < v.len()
        invariant
            i <= v@.len(),
            r@ =~= v@.subrange(0, i as int),
        decreases v@.len() - i,
    {
        r.push(v[i]);
        i = i + 1;
    }
    r
}

/// The product of a three-dimensional shape, written out.
proof fn lemma_product_shape3(b: usize, w: usize, nc: usize)
    ensures
        spec_product(seq![b, w, nc]) == ((b as int) * (w as int)) * (nc as int),
{
    let s3 = seq![b, w, nc];
    let s2 = seq![b, w];
    let s1 = seq![b];
    assert(s3.drop_last() =~= s2);
    assert(s2.drop_last() =~= s1);
    assert(s1.drop_last() =~= Seq::<usize>::empty());
    assert(spec_product(Seq::<usize>::empty()) == 1);
    assert(spec_product(s1) == (b as int));
    assert(spec_product(s2) == (b as int) * (w as int));
}

impl Stage for TensorsToDecoded {
    type Input = TensorOutput;

    type Output = SpanOutput;

    /// The decoder demands well-formed tensors and a well-formed context.
    open spec fn pre(&self, input: &TensorOutput) -> bool {
        input.wf() && input.context.wf()
    }

    /// Success means both boundary tensors were present with the expected
    /// shape and the grid decoded exactly to [`spec_token_decode_all`],
    /// texts and vocabulary echoed unchanged.
    open spec fn post(&self, input: &TensorOutput, output: &SpanOutput) -> bool {
        &&& (spec_find_tensor(input.tensors@, "start_logits"@) matches Some(st) && spec_find_tensor(
            input.tensors@,
            "end_logits"@,
        ) matches Some(et) && st.shape@ == spec_boundary_shape(&input.context) && et.shape@
            == spec_boundary_shape(&input.context) && output.spans.deep_view()
            == spec_token_decode_all(&input.context, st.data@, et.data@, self.threshold))
        &&& output.texts == input.context.texts
        &&& output.entities == input.context.entities
    }

    /// The decoder fails only on a missing or misshapen boundary tensor.
    open spec fn may_fail(&self, input: &TensorOutput) -> bool {
        ||| spec_find_tensor(input.tensors@, "start_logits"@) is None
        ||| spec_find_tensor(input.tensors@, "end_logits"@) is None
        ||| (spec_find_tensor(input.tensors@, "start_logits"@) matches Some(t) && t.shape@
            != spec_boundary_shape(&input.context))
        ||| (spec_find_tensor(input.tensors@, "end_logits"@) matches Some(t) && t.shape@
            != spec_boundary_shape(&input.context))
    }

    fn apply(&self, input: TensorOutput) -> (r: Result<SpanOutput, StageError>) {
        let decoded = match self.decode(&input) {
            Ok(d) => d,
            Err(e) => {
                return Err(e);
            },
        };
        let TensorOutput { context, .. } = input;
        let crate::context::EntityContext { texts, entities, .. } = context;
        Ok(SpanOutput::new(texts, entities, decoded))
    }
}

} // verus!
