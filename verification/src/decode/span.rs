//! Span-mode decoding: one score per `(start, width, class)` grid cell.
//!
//! The scorer emits a tensor named `logits` of shape
//! `(batch, num_words, max_width, num_classes)`.  For each in-range cell the
//! candidate span `start ..= start + width` with the class's label is
//! emitted when its score reaches the threshold (inclusive) and the span
//! lies inside the sequence's real token count; grid cells beyond the real
//! token count only exist because of padding and are discarded.

use vstd::prelude::*;
use vstd::arithmetic::div_mod::{
    lemma_div_pos_is_pos,
    lemma_mod_division_less_than_divisor,
    lemma_multiply_divide_lt,
};
use crate::score::Score;
use crate::context::EntityContext;
use crate::span::{Span, SpanV, SpanOutput, spec_make_span, span_wf};
use crate::tensor::{ScoreTensor, TensorOutput, spec_find_tensor, spec_product};
use crate::pipeline::{Stage, StageError};

verus! {

/// Name of the scorer output tensor this decoder consumes.
pub fn logits_name() -> (r: &'static str)
    ensures
        r@ == "logits"@,
{
    "logits"
}

/// Flat size of one sequence's score block: `num_words * max_width *
/// num_classes`.
pub open spec fn spec_block(ctx: &EntityContext, max_width: int) -> int {
    ((ctx.num_words as int) * max_width) * (ctx.seq_entities().len() as int)
}

/// The tensor shape the decoder demands:
/// `(batch, num_words, max_width, num_classes)`.
pub open spec fn spec_expected_shape(ctx: &EntityContext, max_width: usize) -> Seq<usize> {
    seq![
        ctx.texts@.len() as usize,
        ctx.num_words,
        max_width,
        ctx.entities@.len() as usize,
    ]
}

/// The candidate spans of sequence `s` decoded from the grid cells with
/// flat in-sequence index below `k`, in index order.  `base` is where the
/// sequence's block starts in the flat tensor data.  Cell `j` decomposes
/// into `start = j / (max_width * num_classes)`,
/// `width = (j / num_classes) % max_width` and `class = j % num_classes`;
/// the cell is emitted exactly when `start + width` is still inside the
/// sequence's real token count and its score reaches the threshold
/// (inclusive).
pub open spec fn spec_decode_seq_upto(
    ctx: &EntityContext,
    data: Seq<Score>,
    threshold: Score,
    max_width: int,
    s: int,
    base: int,
    k: int,
) -> Seq<SpanV>
    decreases k,
{
    let nc = ctx.seq_entities().len() as int;
    if k <= 0 || nc <= 0 || max_width <= 0 {
        Seq::empty()
    } else {
        let prev = spec_decode_seq_upto(ctx, data, threshold, max_width, s, base, k - 1);
        let j = k - 1;
        let start = j / (max_width * nc);
        let width = (j / nc) % max_width;
        let class = j % nc;
        let score = data[base + j];
        if start + width < ctx.spec_num_tokens(s) && score >= threshold {
            prev.push(spec_make_span(ctx, s, start, start + width, class, score))
        } else {
            prev
        }
    }
}

/// All candidate spans of sequence `s`.
pub open spec fn spec_decode_seq(
    ctx: &EntityContext,
    data: Seq<Score>,
    threshold: Score,
    max_width: int,
    s: int,
) -> Seq<SpanV> {
    spec_decode_seq_upto(
        ctx,
        data,
        threshold,
        max_width,
        s,
        s * spec_block(ctx, max_width),
        spec_block(ctx, max_width),
    )
}

/// The whole batch's decoded candidate lists, one per input text.
pub open spec fn spec_decode_all(
    ctx: &EntityContext,
    data: Seq<Score>,
    threshold: Score,
    max_width: int,
) -> Seq<Seq<SpanV>> {
    Seq::new(
        ctx.texts@.len(),
        |s: int| spec_decode_seq(ctx, data, threshold, max_width, s),
    )
}

/// Span-mode decoding stage: turns the scorer's `logits` grid into
/// unsorted candidate span lists, one per input text.
pub struct TensorsToDecoded {
    pub threshold: Score,
    pub max_width: usize,
}

impl TensorsToDecoded {
    /// A decoder accepting scores at or above `threshold`, for a model
    /// scoring spans up to `max_width` tokens wide.
    pub fn new(threshold: Score, max_width: usize) -> (r: Self)
        ensures
            r.threshold == threshold,
            r.max_width == max_width,
    {
        Self { threshold, max_width }
    }

    /// The tensor names this decoder expects from the scorer.
    pub fn outputs() -> (r: Vec<String>)
        ensures
            r.deep_view() =~= seq!["logits"@],
    {
        let mut v: Vec<String> = Vec::new();
        v.push(String::from_str(logits_name()));
        v
    }

    /// Checks that the tensor's shape is exactly the one derived from the
    /// batch context.
    pub fn check_shape(&self, tensor: &ScoreTensor, ctx: &EntityContext) -> (r: bool)
        ensures
            r <==> tensor.shape@ =~= spec_expected_shape(ctx, self.max_width),
    {
        if tensor.shape.len() != 4 {
            return false;
        }
        let ok = tensor.shape[0] == ctx.texts.len() && tensor.shape[1] == ctx.num_words
            && tensor.shape[2] == self.max_width && tensor.shape[3] == ctx.entities.len();
        ok
    }

    /// Builds the expected-shape vector, for error reporting.
    fn expected_shape(&self, ctx: &EntityContext) -> (r: Vec<usize>)
        ensures
            r@ =~= spec_expected_shape(ctx, self.max_width),
    {
        let mut v: Vec<usize> = Vec::new();
        v.push(ctx.texts.len());
        v.push(ctx.num_words);
        v.push(self.max_width);
        v.push(ctx.entities.len());
        v
    }

    /// Decodes the `logits` grid into one unsorted candidate span list per
    /// input text.  Fails fatally when the tensor is missing or its shape
    /// disagrees with the context; otherwise the result is exactly
    /// [`spec_decode_all`] over the tensor data.
    pub fn decode(&self, input: &TensorOutput) -> (r: Result<Vec<Vec<Span>>, StageError>)
        requires
            input.wf(),
            input.context.wf(),
        ensures
            match r {
                Ok(spans) => spec_find_tensor(input.tensors@, "logits"@) matches Some(t)
                    && t.shape@ == spec_expected_shape(&input.context, self.max_width)
                    && spans.deep_view() == spec_decode_all(
                    &input.context,
                    t.data@,
                    self.threshold,
                    self.max_width as int,
                ),
                Err(StageError::MissingTensor { name }) => name@ == "logits"@
                    && spec_find_tensor(input.tensors@, "logits"@) is None,
                Err(StageError::ShapeMismatch { name, expected, actual }) => {
                    &&& name@ == "logits"@
                    &&& expected@ == spec_expected_shape(&input.context, self.max_width)
                    &&& (spec_find_tensor(input.tensors@, "logits"@) matches Some(t)
                        && actual@ == t.shape@ && t.shape@ != spec_expected_shape(
                        &input.context,
                        self.max_width,
                    ))
                },
            },
    {
        let ctx = &input.context;
        let name = String::from_str(logits_name());
        let logits = match input.get_tensor(&name) {
            Some(t) => t,
            None => {
                return Err(StageError::MissingTensor { name });
            },
        };
        if !self.check_shape(logits, ctx) {
            return Err(
                StageError::ShapeMismatch {
                    name,
                    expected: self.expected_shape(ctx),
                    actual: copy_shape(&logits.shape),
                },
            );
        }
        let batch = ctx.texts.len();
        let num_words = ctx.num_words;
        let mw = self.max_width;
        let nc = ctx.entities.len();
        let ghost gdata = logits.data@;
        let ghost p = spec_product(logits.shape@);
        proof {
            input.lemma_found_tensor_wf("logits"@);
            lemma_product_shape(batch, num_words, mw, nc);
            assert(logits.shape@ =~= seq![batch, num_words, mw, nc]);
        }

        let mut result: Vec<Vec<Span>> = Vec::new();
        if batch == 0 {
            proof {
                assert(result.deep_view() =~= spec_decode_all(
                    ctx,
                    gdata,
                    self.threshold,
                    mw as int,
                ));
            }
            return Ok(result);
        }

        // With a non-empty batch, the per-sequence block size fits in usize
        // because the whole data length does.
        let dlen = logits.data.len();
        let block: usize;
        let mwnc: usize;
        if num_words == 0 || mw == 0 || nc == 0 {
            block = 0;
            mwnc = 0;
            proof {
                assert(spec_block(ctx, mw as int) == 0 && p == (batch as int) * 0)
                    by (nonlinear_arith)
                    requires
                        num_words == 0 || mw == 0 || nc == 0,
                        num_words == ctx.num_words,
                        nc == ctx.seq_entities().len(),
                        spec_block(ctx, mw as int) == ((ctx.num_words as int) * (mw as int)) * (
                        ctx.seq_entities().len() as int),
                        p == (((batch as int) * (num_words as int)) * (mw as int)) * (nc as int),
                {}
            }
        } else {
            proof {
                assert((mw as int) * (nc as int) <= p && (mw as int) * (nc as int) >= 1 && (
                num_words as int) * ((mw as int) * (nc as int)) <= p) by (nonlinear_arith)
                    requires
                        batch >= 1,
                        num_words >= 1,
                        mw >= 1,
                        nc >= 1,
                        p == (((batch as int) * (num_words as int)) * (mw as int)) * (nc as int),
                        p <= usize::MAX as int,
                {}
            }
            mwnc = mw * nc;
            block = num_words * mwnc;
            proof {
                assert(block == spec_block(ctx, mw as int) && p == (batch as int) * (block as int)
                    && (mwnc as int) * (num_words as int) == block as int) by (nonlinear_arith)
                    requires
                        num_words == ctx.num_words,
                        nc == ctx.seq_entities().len(),
                        spec_block(ctx, mw as int) == ((ctx.num_words as int) * (mw as int)) * (
                        ctx.seq_entities().len() as int),
                        p == (((batch as int) * (num_words as int)) * (mw as int)) * (nc as int),
                        mwnc == (mw as int) * (nc as int),
                        block == (num_words as int) * (mwnc as int),
                {}
            }
        }

        let mut s: usize = 0;
        while s < batch
            invariant
                s <= batch,
                batch == ctx.texts@.len(),
                input.wf(),
                ctx.wf(),
                ctx == &input.context,
                spec_find_tensor(input.tensors@, "logits"@) == Some(*logits),
                logits.wf(),
                gdata == logits.data@,
                p == spec_product(logits.shape@),
                gdata.len() == p,
                p == (((batch as int) * (num_words as int)) * (mw as int)) * (nc as int),
                num_words == ctx.num_words,
                mw == self.max_width,
                nc == ctx.entities@.len(),
                block == spec_block(ctx, mw as int),
                p == (batch as int) * (block as int),
                p <= usize::MAX,
                block > 0 ==> mwnc == (mw as int) * (nc as int) && mwnc >= 1 && mw >= 1 && nc >= 1
                    && num_words >= 1 && (mwnc as int) * (num_words as int) == block as int,
                result@.len() == s,
                forall|i: int| 0 <= i < s ==> #[trigger] result.deep_view()[i] == spec_decode_seq(
                    ctx,
                    gdata,
                    self.threshold,
                    mw as int,
                    i,
                ),
            decreases batch - s,
        {
            let num_tokens = ctx.num_tokens(s);
            proof {
                assert((s as int) * (block as int) + (block as int) <= p && (s as int) * (
                block as int) >= 0) by (nonlinear_arith)
                    requires
                        0 <= s < batch,
                        block >= 0,
                        p == (batch as int) * (block as int),
                    {}
            }
            let base = s * block;
            let mut spans: Vec<Span> = Vec::new();
            if block > 0 {
                let mut k: usize = 0;
                while k < block
                    invariant
                        k <= block,
                        0 < block,
                        mwnc == (mw as int) * (nc as int),
                        mwnc >= 1,
                        mw >= 1,
                        nc >= 1,
                        num_words >= 1,
                        (mwnc as int) * (num_words as int) == block as int,
                        base == (s as int) * (block as int),
                        base + block <= p,
                        base >= 0,
                        s < batch,
                        batch == ctx.texts@.len(),
                        input.wf(),
                        ctx.wf(),
                        ctx == &input.context,
                        logits.wf(),
                        gdata == logits.data@,
                        gdata.len() == p,
                        p <= usize::MAX,
                        num_tokens == ctx.spec_num_tokens(s as int),
                        mw == self.max_width,
                        nc == ctx.entities@.len(),
                        num_words == ctx.num_words,
                        spans.deep_view() =~= spec_decode_seq_upto(
                            ctx,
                            gdata,
                            self.threshold,
                            mw as int,
                            s as int,
                            base as int,
                            k as int,
                        ),
                    decreases block - k,
                {
                    proof {
                        lemma_div_pos_is_pos(k as int, mwnc as int);
                        lemma_multiply_divide_lt(k as int, mwnc as int, num_words as int);
                        lemma_div_pos_is_pos(k as int, nc as int);
                        lemma_mod_division_less_than_divisor((k as int) / (nc as int), mw as int);
                        lemma_mod_division_less_than_divisor(k as int, nc as int);
                        assert((num_words as int) + (mw as int) <= block as int + 2)
                            by (nonlinear_arith)
                            requires
                                num_words >= 1,
                                mw >= 1,
                                mwnc >= 1,
                                nc >= 1,
                                mwnc == (mw as int) * (nc as int),
                                (mwnc as int) * (num_words as int) == block as int,
                        {}
                    }
                    let start = k / mwnc;
                    let width = (k / nc) % mw;
                    let score = logits.data[base + k];
                    if start + width < num_tokens && score >= self.threshold {
                        let class = k % nc;
                        let sp = ctx.create_span(s, start, start + width, class, score);
                        spans.push(sp);
                        proof {
                            assert(spans.deep_view() =~= spec_decode_seq_upto(
                                ctx,
                                gdata,
                                self.threshold,
                                mw as int,
                                s as int,
                                base as int,
                                k + 1,
                            ));
                        }
                    } else {
                        proof {
                            assert(spans.deep_view() =~= spec_decode_seq_upto(
                                ctx,
                                gdata,
                                self.threshold,
                                mw as int,
                                s as int,
                                base as int,
                                k + 1,
                            ));
                        }
                    }
                    k = k + 1;
                }
            }
            proof {
                assert(spans.deep_view() =~= spec_decode_seq(
                    ctx,
                    gdata,
                    self.threshold,
                    mw as int,
                    s as int,
                ));
            }
            let ghost gspans = spans.deep_view();
            let ghost oldr = result@;
            let ghost olddv = result.deep_view();
            result.push(spans);
            proof {
                assert(result.deep_view()[s as int] == gspans);
                assert forall|i: int| 0 <= i < s implies result.deep_view()[i] == spec_decode_seq(
                    ctx,
                    gdata,
                    self.threshold,
                    mw as int,
                    i,
                ) by {
                    assert(result@[i] == oldr[i]);
                    assert(result.deep_view()[i] == result@[i].deep_view());
                    assert(olddv[i] == oldr[i].deep_view());
                    assert(olddv[i] == spec_decode_seq(ctx, gdata, self.threshold, mw as int, i));
                }
            }
            s = s + 1;
        }
        proof {
            assert forall|i: int| 0 <= i < batch implies result.deep_view()[i] == spec_decode_all(
                ctx,
                gdata,
                self.threshold,
                mw as int,
            )[i] by {}
            assert(result.deep_view() =~= spec_decode_all(ctx, gdata, self.threshold, mw as int));
        }
        Ok(result)
    }
}

impl Stage for TensorsToDecoded {
    type Input = TensorOutput;

    type Output = SpanOutput;

    /// The decoder demands well-formed tensors and a well-formed context.
    open spec fn pre(&self, input: &TensorOutput) -> bool {
        input.wf() && input.context.wf()
    }

    /// Success means the `logits` tensor was present with the expected
    /// shape, its grid decoded exactly to [`spec_decode_all`], and the
    /// input texts and label vocabulary are echoed unchanged.
    open spec fn post(&self, input: &TensorOutput, output: &SpanOutput) -> bool {
        &&& (spec_find_tensor(input.tensors@, "logits"@) matches Some(t) && t.shape@
            == spec_expected_shape(&input.context, self.max_width)
            && output.spans.deep_view() == spec_decode_all(
            &input.context,
            t.data@,
            self.threshold,
            self.max_width as int,
        ))
        &&& output.texts == input.context.texts
        &&& output.entities == input.context.entities
    }

    /// The decoder fails only when the `logits` tensor is missing or its
    /// shape disagrees with the context.
    open spec fn may_fail(&self, input: &TensorOutput) -> bool {
        ||| spec_find_tensor(input.tensors@, "logits"@) is None
        ||| (spec_find_tensor(input.tensors@, "logits"@) matches Some(t) && t.shape@
            != spec_expected_shape(&input.context, self.max_width))
    }

    fn apply(&self, input: TensorOutput) -> (r: Result<SpanOutput, StageError>) {
        let ghost input0 = input;
        let decoded = match self.decode(&input) {
            Ok(d) => d,
            Err(e) => {
                return Err(e);
            },
        };
        let TensorOutput { context, .. } = input;
        let crate::context::EntityContext { texts, entities, .. } = context;
        Ok(SpanOutput::new(texts, entities, decoded))
    }
}

/// Every candidate a well-formed score tensor decodes to is itself well
/// formed: its token range lies inside the sequence's real token count,
/// its label is a vocabulary entry, and its score is a probability.
pub proof fn lemma_decode_seq_sound(
    ctx: &EntityContext,
    data: Seq<Score>,
    threshold: Score,
    max_width: int,
    s: int,
    base: int,
    k: int,
)
    requires
        0 <= s < ctx.spec_num_sequences(),
        forall|i: int| 0 <= i < data.len() ==> crate::score::valid_score(#[trigger] data[i]),
        0 <= base,
        base + k <= data.len(),
    ensures
        forall|i: int|
            0 <= i < spec_decode_seq_upto(ctx, data, threshold, max_width, s, base, k).len()
                ==> span_wf(
                ctx,
                #[trigger] spec_decode_seq_upto(ctx, data, threshold, max_width, s, base, k)[i],
            ),
    decreases k,
{
    let nc = ctx.seq_entities().len() as int;
    if k <= 0 || nc <= 0 || max_width <= 0 {
    } else {
        lemma_decode_seq_sound(ctx, data, threshold, max_width, s, base, k - 1);
        let prev = spec_decode_seq_upto(ctx, data, threshold, max_width, s, base, k - 1);
        let j = k - 1;
        let mwnc = max_width * nc;
        assert(mwnc > 0) by (nonlinear_arith)
            requires
                max_width >= 1,
                nc >= 1,
                mwnc == max_width * nc,
        {}
        lemma_div_pos_is_pos(j, mwnc);
        lemma_div_pos_is_pos(j, nc);
        lemma_mod_division_less_than_divisor(j / nc, max_width);
        lemma_mod_division_less_than_divisor(j, nc);
        let start = j / mwnc;
        let width = (j / nc) % max_width;
        let class = j % nc;
        let score = data[base + j];
        if start + width < ctx.spec_num_tokens(s) && score >= threshold {
            let sp = spec_make_span(ctx, s, start, start + width, class, score);
            assert(span_wf(ctx, sp));
            assert(spec_decode_seq_upto(ctx, data, threshold, max_width, s, base, k) == prev.push(
                sp,
            ));
        }
    }
}

/// Batch-level soundness: with a well-formed `logits` tensor of the
/// expected shape, every candidate span of every sequence is well formed —
/// `0 <= start <= end <` the sequence's real token count, the label is a
/// vocabulary entry, and the score is a probability.
pub proof fn lemma_decode_all_sound(
    ctx: &EntityContext,
    data: Seq<Score>,
    threshold: Score,
    max_width: usize,
)
    requires
        forall|i: int| 0 <= i < data.len() ==> crate::score::valid_score(#[trigger] data[i]),
        data.len() == spec_product(spec_expected_shape(ctx, max_width)),
    ensures
        forall|s: int, i: int|
            0 <= s < ctx.spec_num_sequences() && 0 <= i < spec_decode_all(
                ctx,
                data,
                threshold,
                max_width as int,
            )[s].len() ==> span_wf(
                ctx,
                #[trigger] spec_decode_all(ctx, data, threshold, max_width as int)[s][i],
            ),
{
    let b = ctx.texts@.len() as int;
    let w = ctx.num_words as int;
    let mw = max_width as int;
    let nc = ctx.seq_entities().len() as int;
    assert(ctx.texts.len() == ctx.texts@.len());
    assert(ctx.entities.len() == ctx.entities@.len());
    lemma_product_shape(
        ctx.texts@.len() as usize,
        ctx.num_words,
        max_width,
        ctx.entities@.len() as usize,
    );
    assert(spec_expected_shape(ctx, max_width) =~= seq![
        ctx.texts@.len() as usize,
        ctx.num_words,
        max_width,
        ctx.entities@.len() as usize,
    ]);
    assert forall|s: int, i: int|
        0 <= s < ctx.spec_num_sequences() && 0 <= i < spec_decode_all(
            ctx,
            data,
            threshold,
            mw,
        )[s].len() implies span_wf(
        ctx,
        #[trigger] spec_decode_all(ctx, data, threshold, mw)[s][i],
    ) by {
        let block = spec_block(ctx, mw);
        assert(0 <= s * block && s * block + block <= data.len()) by (nonlinear_arith)
            requires
                0 <= s < b,
                block == (w * mw) * nc,
                data.len() == ((b * w) * mw) * nc,
        {}
        lemma_decode_seq_sound(ctx, data, threshold, mw, s, s * block, block);
    }
}

/// Flat in-sequence index of the grid cell `(start, width, class)`.
pub open spec fn spec_cell_key(
    ctx: &EntityContext,
    max_width: int,
    start: int,
    width: int,
    class: int,
) -> int {
    (start * max_width + width) * (ctx.seq_entities().len() as int) + class
}

/// A cell key decomposes back into its coordinates.
proof fn lemma_span_cell(mw: int, nc: int, start: int, width: int, class: int, k: int)
    requires
        mw >= 1,
        nc >= 1,
        0 <= start,
        0 <= width < mw,
        0 <= class < nc,
        k == (start * mw + width) * nc + class,
    ensures
        k >= 0,
        k / (mw * nc) == start,
        (k / nc) % mw == width,
        k % nc == class,
{
    let q = start * mw + width;
    assert(0 <= q && k == q * nc + class && mw * nc >= 1) by (nonlinear_arith)
        requires
            mw >= 1,
            nc >= 1,
            0 <= start,
            0 <= width < mw,
            0 <= class < nc,
            q == start * mw + width,
            k == (start * mw + width) * nc + class,
    {}
    vstd::arithmetic::div_mod::lemma_fundamental_div_mod_converse(k, nc, q, class);
    vstd::arithmetic::div_mod::lemma_fundamental_div_mod_converse(q, mw, start, width);
    assert(k / nc == q && k % nc == class && q / mw == start && q % mw == width);
    assert(k / (mw * nc) == (k / nc) / mw) by {
        vstd::arithmetic::div_mod::lemma_div_denominator(k, nc, mw);
        assert(nc * mw == mw * nc) by (nonlinear_arith);
    }
}

/// Completeness: every in-range grid cell whose span fits inside the real
/// token count and whose score reaches the threshold (inclusive)
/// contributes its span to the decoded list.
pub proof fn lemma_decode_complete(
    ctx: &EntityContext,
    data: Seq<Score>,
    threshold: Score,
    max_width: int,
    s: int,
    base: int,
    k: int,
    start: int,
    width: int,
    class: int,
)
    requires
        max_width >= 1,
        ctx.seq_entities().len() >= 1,
        0 <= start,
        0 <= width < max_width,
        0 <= class < ctx.seq_entities().len(),
        spec_cell_key(ctx, max_width, start, width, class) < k,
        start + width < ctx.spec_num_tokens(s),
        data[base + spec_cell_key(ctx, max_width, start, width, class)] >= threshold,
    ensures
        spec_decode_seq_upto(ctx, data, threshold, max_width, s, base, k).contains(
            spec_make_span(
                ctx,
                s,
                start,
                start + width,
                class,
                data[base + spec_cell_key(ctx, max_width, start, width, class)],
            ),
        ),
    decreases k,
{
    let nc = ctx.seq_entities().len() as int;
    let key = spec_cell_key(ctx, max_width, start, width, class);
    lemma_span_cell(max_width, nc, start, width, class, key);
    let sp = spec_make_span(ctx, s, start, start + width, class, data[base + key]);
    let prev = spec_decode_seq_upto(ctx, data, threshold, max_width, s, base, k - 1);
    let here = spec_decode_seq_upto(ctx, data, threshold, max_width, s, base, k);
    if k - 1 == key {
        assert(here == prev.push(sp));
        assert(here[here.len() - 1] == sp);
        assert(here.contains(sp));
    } else {
        lemma_decode_complete(
            ctx,
            data,
            threshold,
            max_width,
            s,
            base,
            k - 1,
            start,
            width,
            class,
        );
        let idx = choose|idx: int| 0 <= idx < prev.len() && prev[idx] == sp;
        assert(here[idx] == sp);
        assert(here.contains(sp));
    }
}

/// Spans come only from their own cells: every decoded span is the span of
/// the grid cell its fields name, that cell's score reaches the threshold,
/// and the span fits inside the real token count.
pub proof fn lemma_decode_cells(
    ctx: &EntityContext,
    data: Seq<Score>,
    threshold: Score,
    max_width: int,
    s: int,
    base: int,
    k: int,
)
    requires
        max_width >= 1,
        ctx.seq_entities().len() >= 1,
    ensures
        forall|i: int|
            0 <= i < spec_decode_seq_upto(ctx, data, threshold, max_width, s, base, k).len()
                ==> {
                let sp = #[trigger] spec_decode_seq_upto(
                    ctx,
                    data,
                    threshold,
                    max_width,
                    s,
                    base,
                    k,
                )[i];
                let key = spec_cell_key(ctx, max_width, sp.start, sp.end - sp.start, sp.class_index);
                &&& 0 <= sp.start <= sp.end < ctx.spec_num_tokens(s)
                &&& sp.end - sp.start < max_width
                &&& 0 <= sp.class_index < ctx.seq_entities().len()
                &&& key < k
                &&& sp == spec_make_span(ctx, s, sp.start, sp.end, sp.class_index, data[base + key])
                &&& data[base + key] >= threshold
            },
    decreases k,
{
    let nc = ctx.seq_entities().len() as int;
    if k <= 0 {
    } else {
        lemma_decode_cells(ctx, data, threshold, max_width, s, base, k - 1);
        let prev = spec_decode_seq_upto(ctx, data, threshold, max_width, s, base, k - 1);
        let here = spec_decode_seq_upto(ctx, data, threshold, max_width, s, base, k);
        let j = k - 1;
        assert(max_width * nc >= 1) by (nonlinear_arith)
            requires
                max_width >= 1,
                nc >= 1,
        {}
        lemma_div_pos_is_pos(j, max_width * nc);
        lemma_div_pos_is_pos(j, nc);
        lemma_mod_division_less_than_divisor(j / nc, max_width);
        lemma_mod_division_less_than_divisor(j, nc);
        let start = j / (max_width * nc);
        let width = (j / nc) % max_width;
        let class = j % nc;
        if start + width < ctx.spec_num_tokens(s) && data[base + j] >= threshold {
            let sp = spec_make_span(ctx, s, start, start + width, class, data[base + j]);
            assert(here == prev.push(sp));
            lemma_span_cell_conv(max_width, nc, j);
            assert(spec_cell_key(ctx, max_width, sp.start, sp.end - sp.start, sp.class_index)
                == j);
        }
    }
}

/// Rebuilding a cell key from the decomposition of `j` gives back `j`.
proof fn lemma_span_cell_conv(mw: int, nc: int, j: int)
    requires
        mw >= 1,
        nc >= 1,
        j >= 0,
    ensures
        ((j / (mw * nc)) * mw + (j / nc) % mw) * nc + j % nc == j,
{
    vstd::arithmetic::div_mod::lemma_fundamental_div_mod(j, nc);
    vstd::arithmetic::div_mod::lemma_fundamental_div_mod(j / nc, mw);
    lemma_div_pos_is_pos(j, nc);
    assert(j / (mw * nc) == (j / nc) / mw) by {
        vstd::arithmetic::div_mod::lemma_div_denominator(j, nc, mw);
        assert(nc * mw == mw * nc) by (nonlinear_arith);
    }
    assert((((j / nc) / mw) * mw + (j / nc) % mw) * nc + j % nc == j) by (nonlinear_arith)
        requires
            j == nc * (j / nc) + j % nc,
            j / nc == mw * ((j / nc) / mw) + (j / nc) % mw,
    {}
}

/// Inclusive threshold semantics at a single grid cell `j` of sequence
/// `s`: when the span fits inside the real token count, a score exactly at
/// the threshold is emitted, and a score below it never is.
pub proof fn lemma_threshold_inclusive(
    ctx: &EntityContext,
    data: Seq<Score>,
    threshold: Score,
    max_width: int,
    s: int,
    base: int,
    j: int,
)
    requires
        0 <= j,
        ctx.seq_entities().len() > 0,
        max_width > 0,
    ensures
        ({
            let nc = ctx.seq_entities().len() as int;
            let start = j / (max_width * nc);
            let width = (j / nc) % max_width;
            let with_cell = spec_decode_seq_upto(ctx, data, threshold, max_width, s, base, j + 1);
            let without_cell = spec_decode_seq_upto(ctx, data, threshold, max_width, s, base, j);
            &&& (start + width < ctx.spec_num_tokens(s) && data[base + j] >= threshold)
                ==> with_cell == without_cell.push(
                spec_make_span(ctx, s, start, start + width, j % nc, data[base + j]),
            )
            &&& (data[base + j] < threshold) ==> with_cell == without_cell
        }),
{
}

/// Copies a shape vector, for error reporting.
fn copy_shape(v: &Vec<usize>) -> (r: Vec<usize>)
    ensures
        r@ =~= v@,
{
    let mut r: Vec<usize> = Vec::new();
    let mut i: usize = 0;
    while i < v.len()
        invariant
            i <= v@.len(),
            r@ =~= v@.subrange(0, i as int),
        decreases v@.len() - i,
    {
        r.push(v[i]);
        i = i + 1;
    }
    r
}

/// The product of a four-dimensional shape, written out.
proof fn lemma_product_shape(b: usize, w: usize, mw: usize, nc: usize)
    ensures
        spec_product(seq![b, w, mw, nc]) == (((b as int) * (w as int)) * (mw as int)) * (nc as int),
{
    let s4 = seq![b, w, mw, nc];
    let s3 = seq![b, w, mw];
    let s2 = seq![b, w];
    let s1 = seq![b];
    assert(s4.drop_last() =~= s3);
    assert(s3.drop_last() =~= s2);
    assert(s2.drop_last() =~= s1);
    assert(s1.drop_last() =~= Seq::<usize>::empty());
    assert(spec_product(Seq::<usize>::empty()) == 1);
    assert(spec_product(s1) == (b as int));
    assert(spec_product(s2) == (b as int) * (w as int));
    assert(spec_product(s3) == ((b as int) * (w as int)) * (mw as int));
}

} // verus!
