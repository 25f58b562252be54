//! Immutable per-batch metadata shared by every pipeline stage.
//!
//! A batch consists of input texts; for each text, the ordered list of its
//! tokens (surface form plus character offsets); the requested label
//! vocabulary; and the padded word count the scorer was run with.  The
//! context is built once per batch and only read afterwards.

use vstd::prelude::*;

verus! {

/// One token of an input text: its surface form and its character offsets
/// within the text (`start` inclusive, `end` exclusive).
pub struct TokenSpan {
    pub text: String,
    pub start: usize,
    pub end: usize,
}

/// Mathematical model of a [`TokenSpan`].
pub struct TokenSpanV {
    pub text: Seq<char>,
    pub start: int,
    pub end: int,
}

impl View for TokenSpan {
    type V = TokenSpanV;

    open spec fn view(&self) -> TokenSpanV {
        TokenSpanV { text: self.text@, start: self.start as int, end: self.end as int }
    }
}

impl DeepView for TokenSpan {
    type V = TokenSpanV;

    open spec fn deep_view(&self) -> TokenSpanV {
        self.view()
    }
}

/// Per-batch metadata: the input texts, their token boundary lists, the
/// requested label vocabulary, and the padded per-sequence word count used
/// by the scorer.
pub struct EntityContext {
    pub texts: Vec<String>,
    pub tokens: Vec<Vec<TokenSpan>>,
    pub entities: Vec<String>,
    pub num_words: usize,
}

impl EntityContext {
    /// A context is well formed when it carries one token list per text.
    pub open spec fn wf(&self) -> bool {
        self.tokens@.len() == self.texts@.len()
    }

    /// Number of sequences (input texts) in the batch.
    pub open spec fn spec_num_sequences(&self) -> int {
        self.texts@.len() as int
    }

    /// Token list of sequence `s`, as a mathematical sequence.
    pub open spec fn seq_tokens(&self, s: int) -> Seq<TokenSpanV> {
        self.tokens.deep_view()[s]
    }

    /// Real (unpadded) token count of sequence `s`.
    pub open spec fn spec_num_tokens(&self, s: int) -> int {
        self.seq_tokens(s).len() as int
    }

    /// Label vocabulary, as a sequence of character sequences.
    pub open spec fn seq_entities(&self) -> Seq<Seq<char>> {
        self.entities.deep_view()
    }

    /// Real token count of sequence `s`.
    pub fn num_tokens(&self, s: usize) -> (n: usize)
        requires
            s < self.tokens@.len(),
        ensures
            n == self.spec_num_tokens(s as int),
    {
        self.tokens[s].len()
    }
}

/// The surface text spanned by tokens `start ..= end` of `toks`: the token
/// texts joined by single spaces.
pub open spec fn spec_joined_text(toks: Seq<TokenSpanV>, start: int, end: int) -> Seq<char>
    decreases end - start,
{
    if start < 0 || start > end || end >= toks.len() {
        Seq::empty()
    } else if start == end {
        toks[start].text
    } else {
        spec_joined_text(toks, start, end - 1) + seq![' '] + toks[end].text
    }
}

/// Builds the surface text of the token range `start ..= end`.
pub fn joined_text(toks: &Vec<TokenSpan>, start: usize, end: usize) -> (r: String)
    requires
        start <= end < toks@.len(),
    ensures
        r@ == spec_joined_text(toks.deep_view(), start as int, end as int),
{
    let n = toks.len();
    let mut r: String = toks[start].text.clone();
    let mut i: usize = start + 1;
    while i <= end
        invariant
            start < i <= end + 1,
            end < n == toks@.len(),
            r@ == spec_joined_text(toks.deep_view(), start as int, i - 1),
        decreases end + 1 - i,
    {
        r.append(" ");
        r.append(toks[i].text.as_str());
        proof {
            reveal_strlit(" ");
            assert(r@ == spec_joined_text(toks.deep_view(), start as int, i as int));
        }
        i = i + 1;
    }
    r
}

} // verus!
