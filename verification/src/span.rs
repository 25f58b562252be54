//! Scored candidate spans and the decoded per-batch span output.

use vstd::prelude::*;
use crate::score::{Score, valid_score};
use crate::context::{EntityContext, spec_joined_text};

verus! {

/// A labeled, scored token range within one input sequence.
///
/// `start` and `end` are token indices, both inclusive; `offset_start` and
/// `offset_end` are the character offsets of the spanned text within the
/// input sequence; `probability` is the fixed-point score assigned by the
/// scorer (sigmoid applied exactly once, before the core sees the value).
pub struct Span {
    pub sequence: usize,
    pub start: usize,
    pub end: usize,
    pub class_index: usize,
    pub class: String,
    pub text: String,
    pub offset_start: usize,
    pub offset_end: usize,
    pub probability: Score,
}

/// Mathematical model of a [`Span`].
pub struct SpanV {
    pub sequence: int,
    pub start: int,
    pub end: int,
    pub class_index: int,
    pub class: Seq<char>,
    pub text: Seq<char>,
    pub offset_start: int,
    pub offset_end: int,
    pub probability: Score,
}

impl View for Span {
    type V = SpanV;

    open spec fn view(&self) -> SpanV {
        SpanV {
            sequence: self.sequence as int,
            start: self.start as int,
            end: self.end as int,
            class_index: self.class_index as int,
            class: self.class@,
            text: self.text@,
            offset_start: self.offset_start as int,
            offset_end: self.offset_end as int,
            probability: self.probability,
        }
    }
}

impl DeepView for Span {
    type V = SpanV;

    open spec fn deep_view(&self) -> SpanV {
        self.view()
    }
}

impl Span {
    /// Class label of the span.
    pub fn class(&self) -> (r: &str)
        ensures
            r@ == self@.class,
    {
        self.class.as_str()
    }

    /// Surface text of the span.
    pub fn text(&self) -> (r: &str)
        ensures
            r@ == self@.text,
    {
        self.text.as_str()
    }

    /// Character offsets of the span within its input sequence.
    pub fn offsets(&self) -> (r: (usize, usize))
        ensures
            r.0 == self.offset_start,
            r.1 == self.offset_end,
    {
        (self.offset_start, self.offset_end)
    }

    /// Index of the input sequence the span belongs to.
    pub fn sequence(&self) -> (r: usize)
        ensures
            r == self.sequence,
    {
        self.sequence
    }

    /// Fixed-point probability score of the span.
    pub fn probability(&self) -> (r: Score)
        ensures
            r == self.probability,
    {
        self.probability
    }
}

/// A span is well formed for context `ctx` when its token range lies inside
/// the real token count of its sequence, its label is the vocabulary entry
/// at `class_index`, its text and character offsets are the ones derived
/// from the token boundaries, and its score is a probability.
pub open spec fn span_wf(ctx: &EntityContext, sp: SpanV) -> bool {
    &&& 0 <= sp.sequence < ctx.spec_num_sequences()
    &&& 0 <= sp.start <= sp.end < ctx.spec_num_tokens(sp.sequence)
    &&& 0 <= sp.class_index < ctx.seq_entities().len()
    &&& sp.class == ctx.seq_entities()[sp.class_index]
    &&& sp.text == spec_joined_text(ctx.seq_tokens(sp.sequence), sp.start, sp.end)
    &&& sp.offset_start == ctx.seq_tokens(sp.sequence)[sp.start].start
    &&& sp.offset_end == ctx.seq_tokens(sp.sequence)[sp.end].end
    &&& valid_score(sp.probability)
}

/// The span assembled from sequence `s`, token range `start ..= end`, label
/// index `class` and score `score`, as the decoders emit it.
pub open spec fn spec_make_span(
    ctx: &EntityContext,
    s: int,
    start: int,
    end: int,
    class: int,
    score: Score,
) -> SpanV {
    SpanV {
        sequence: s,
        start: start,
        end: end,
        class_index: class,
        class: ctx.seq_entities()[class],
        text: spec_joined_text(ctx.seq_tokens(s), start, end),
        offset_start: ctx.seq_tokens(s)[start].start,
        offset_end: ctx.seq_tokens(s)[end].end,
        probability: score,
    }
}

impl EntityContext {
    /// Materializes the span for sequence `s`, token range `start ..= end`
    /// and label index `class`, carrying score `score`.
    pub fn create_span(&self, s: usize, start: usize, end: usize, class: usize, score: Score) -> (r: Span)
        requires
            s < self.tokens@.len(),
            start <= end < self.spec_num_tokens(s as int),
            class < self.entities@.len(),
        ensures
            r@ == spec_make_span(self, s as int, start as int, end as int, class as int, score),
    {
        let toks = &self.tokens[s];
        Span {
            sequence: s,
            start: start,
            end: end,
            class_index: class,
            class: self.entities[class].clone(),
            text: crate::context::joined_text(toks, start, end),
            offset_start: toks[start].start,
            offset_end: toks[end].end,
            probability: score,
        }
    }
}

/// Decoded output of one batch: the input texts and label vocabulary echoed
/// for downstream stages, and one candidate span list per input text.
pub struct SpanOutput {
    pub texts: Vec<String>,
    pub entities: Vec<String>,
    pub spans: Vec<Vec<Span>>,
}

impl SpanOutput {
    /// Packages decoded spans with the texts and vocabulary they refer to.
    pub fn new(texts: Vec<String>, entities: Vec<String>, spans: Vec<Vec<Span>>) -> (r: SpanOutput)
        ensures
            r.texts == texts,
            r.entities == entities,
            r.spans == spans,
    {
        SpanOutput { texts, entities, spans }
    }
}

} // verus!
