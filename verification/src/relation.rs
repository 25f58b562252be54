//! Relation decoding and validation.
//!
//! A second scorer pass emits spans whose class labels encode a subject
//! and a relation class as `"<SUBJECT_TEXT> <> <RELATION_CLASS>"`.  This
//! module decodes those labels, rebuilds subject and object entities by
//! dictionary lookup over surface text, and keeps only the relations the
//! declared [`crate::schema::RelationSchema`] admits.  Format and schema
//! failures are per-relation: the offending relation is dropped (and
//! reported to an optional sink), never the batch.

use vstd::prelude::*;
use vstd::string::StrSliceExecFns;
use vstd::string::StringExecFns;
use crate::score::Score;
use crate::span::{Span, SpanV, SpanOutput};
use crate::schema::{RelationSchema, spec_lookup};
use crate::pipeline::{Stage, StageError};

verus! {

/// Per-entity knowledge gathered from the first extraction pass: for each
/// entity surface text, the labels it was extracted under and its
/// character offsets.  Lookups are by surface text, first match first —
/// a deliberately broad key: repeated surface strings collide, and the
/// first declared entry wins.
pub struct RelationContext {
    pub entity_labels: Vec<(String, Vec<String>)>,
    pub entity_offsets: Vec<(String, (usize, usize))>,
}

/// First-match lookup of an entity's label list by surface text.
pub open spec fn spec_lookup_labels(
    entries: Seq<(String, Vec<String>)>,
    text: Seq<char>,
) -> Option<Vec<String>>
    decreases entries.len(),
{
    if entries.len() == 0 {
        None
    } else if entries[0].0@ == text {
        Some(entries[0].1)
    } else {
        spec_lookup_labels(entries.drop_first(), text)
    }
}

/// First-match lookup of an entity's character offsets by surface text.
pub open spec fn spec_lookup_offsets(
    entries: Seq<(String, (usize, usize))>,
    text: Seq<char>,
) -> Option<(usize, usize)>
    decreases entries.len(),
{
    if entries.len() == 0 {
        None
    } else if entries[0].0@ == text {
        Some(entries[0].1)
    } else {
        spec_lookup_offsets(entries.drop_first(), text)
    }
}

/// The label assigned to an entity text: the first label of its first
/// entry, or the empty string when the text is unknown or has no labels.
pub open spec fn spec_first_label(ctx: &RelationContext, text: Seq<char>) -> Seq<char> {
    match spec_lookup_labels(ctx.entity_labels@, text) {
        Some(labels) => if labels@.len() > 0 {
            labels@[0]@
        } else {
            Seq::empty()
        },
        None => Seq::empty(),
    }
}

/// The offsets assigned to an entity text, with the carrier span's own
/// offsets as the fallback when the text is unknown.
pub open spec fn spec_entity_offsets(
    ctx: &RelationContext,
    text: Seq<char>,
    fallback: (int, int),
) -> (int, int) {
    match spec_lookup_offsets(ctx.entity_offsets@, text) {
        Some(off) => (off.0 as int, off.1 as int),
        None => fallback,
    }
}

impl RelationContext {
    /// A context with no known entities.
    pub fn new() -> (r: RelationContext)
        ensures
            r.entity_labels@.len() == 0,
            r.entity_offsets@.len() == 0,
    {
        RelationContext { entity_labels: Vec::new(), entity_offsets: Vec::new() }
    }

    /// Returns the label list recorded for `text`, if any.
    pub fn lookup_labels<'a>(&'a self, text: &String) -> (r: Option<&'a Vec<String>>)
        ensures
            match r {
                Some(v) => spec_lookup_labels(self.entity_labels@, text@) == Some(*v),
                None => spec_lookup_labels(self.entity_labels@, text@) is None,
            },
    {
        let mut i: usize = 0;
        proof {
            assert(self.entity_labels@.skip(0) =~= self.entity_labels@);
        }
        while i < self.entity_labels.len()
            invariant
                i <= self.entity_labels@.len(),
                spec_lookup_labels(self.entity_labels@, text@) == spec_lookup_labels(
                    self.entity_labels@.skip(i as int),
                    text@,
                ),
            decreases self.entity_labels@.len() - i,
        {
            proof {
                assert(self.entity_labels@.skip(i as int).drop_first() =~= self.entity_labels@.skip(
                    i + 1,
                ));
            }
            if self.entity_labels[i].0.eq(text) {
                return Some(&self.entity_labels[i].1);
            }
            i = i + 1;
        }
        None
    }

    /// Returns the character offsets recorded for `text`, if any.
    pub fn lookup_offsets(&self, text: &String) -> (r: Option<(usize, usize)>)
        ensures
            spec_lookup_offsets(self.entity_offsets@, text@) == r,
    {
        let mut i: usize = 0;
        proof {
            assert(self.entity_offsets@.skip(0) =~= self.entity_offsets@);
        }
        while i < self.entity_offsets.len()
            invariant
                i <= self.entity_offsets@.len(),
                spec_lookup_offsets(self.entity_offsets@, text@) == spec_lookup_offsets(
                    self.entity_offsets@.skip(i as int),
                    text@,
                ),
            decreases self.entity_offsets@.len() - i,
        {
            proof {
                assert(self.entity_offsets@.skip(i as int).drop_first()
                    =~= self.entity_offsets@.skip(i + 1));
            }
            if self.entity_offsets[i].0.eq(text) {
                return Some((self.entity_offsets[i].1.0, self.entity_offsets[i].1.1));
            }
            i = i + 1;
        }
        None
    }
}

/// A per-relation failure: the span's class label does not parse as a
/// relation encoding, or names an undeclared relation class.  Dropping the
/// relation, never the batch, is the prescribed reaction.
#[derive(Debug, Clone)]
pub struct RelationFormatError {
    pub message: String,
}

impl RelationFormatError {
    /// An error describing the offending label.
    pub fn new(span_label: &str) -> (r: Self)
        ensures
            r.message@ == "unexpected relation label format: "@ + span_label@,
    {
        Self { message: String::from_str("unexpected relation label format: ").concat(span_label) }
    }

    /// Wraps the error as the `Err` case of any result type.
    pub fn err<T>(self) -> (r: Result<T, RelationFormatError>)
        ensures
            r matches Err(e) && e == self,
    {
        Err(self)
    }
}

/// The literal separator between the encoded subject text and relation
/// class.
pub open spec fn spec_separator() -> Seq<char> {
    seq![' ', '<', '>', ' ']
}

/// The separator occurs at position `i` of `s`.
pub open spec fn spec_sep_at(s: Seq<char>, i: int) -> bool {
    0 <= i && i + 4 <= s.len() && s.subrange(i, i + 4) == spec_separator()
}

/// Index of the first separator occurrence at or after `i`, if any.
pub open spec fn spec_find_sep(s: Seq<char>, i: int) -> Option<int>
    decreases s.len() - i,
{
    if i < 0 || i + 4 > s.len() {
        None
    } else if spec_sep_at(s, i) {
        Some(i)
    } else {
        spec_find_sep(s, i + 1)
    }
}

/// Decoding an encoded relation label: it must split on the literal
/// separator into exactly two parts — the subject text and the relation
/// class.  No separator, or more than one, is a format error.
pub open spec fn spec_decode_label(s: Seq<char>) -> Option<(Seq<char>, Seq<char>)> {
    match spec_find_sep(s, 0) {
        None => None,
        Some(i) => {
            let before = s.subrange(0, i);
            let after = s.subrange(i + 4, s.len() as int);
            if spec_find_sep(after, 0) is Some {
                None
            } else {
                Some((before, after))
            }
        },
    }
}

/// Whether the separator stands at position `i` of `s`.
fn sep_at(s: &str, i: usize, n: usize) -> (r: bool)
    requires
        n == s@.len(),
        i + 4 <= n,
    ensures
        r == spec_sep_at(s@, i as int),
{
    let r = s.get_char(i) == ' ' && s.get_char(i + 1) == '<' && s.get_char(i + 2) == '>'
        && s.get_char(i + 3) == ' ';
    proof {
        if r {
            assert(s@.subrange(i as int, i + 4) =~= spec_separator());
        } else {
            assert(s@.subrange(i as int, i + 4) != spec_separator()) by {
                if s@.subrange(i as int, i + 4) == spec_separator() {
                    assert(s@.subrange(i as int, i + 4)[0] == ' ');
                    assert(s@.subrange(i as int, i + 4)[1] == '<');
                    assert(s@.subrange(i as int, i + 4)[2] == '>');
                    assert(s@.subrange(i as int, i + 4)[3] == ' ');
                }
            }
        }
    }
    r
}

/// Finds the first separator occurrence in `s`, if any.
fn find_sep(s: &str) -> (r: Option<usize>)
    ensures
        match r {
            Some(i) => spec_find_sep(s@, 0) == Some(i as int),
            None => spec_find_sep(s@, 0) is None,
        },
{
    let n = s.unicode_len();
    if n < 4 {
        return None;
    }
    let mut i: usize = 0;
    while i <= n - 4
        invariant
            4 <= n == s@.len(),
            i <= n,
            spec_find_sep(s@, 0) == spec_find_sep(s@, i as int),
        decreases n - i,
    {
        if sep_at(s, i, n) {
            return Some(i);
        }
        i = i + 1;
    }
    None
}

/// An entity participating in a relation: its surface text, resolved
/// label, character offsets and score.
#[derive(Debug, Clone)]
pub struct RelationEntity {
    pub text: String,
    pub label: String,
    pub start: usize,
    pub end: usize,
    pub probability: Score,
}

/// Mathematical model of a [`RelationEntity`].
pub struct RelationEntityV {
    pub text: Seq<char>,
    pub label: Seq<char>,
    pub start: int,
    pub end: int,
    pub probability: Score,
}

impl View for RelationEntity {
    type V = RelationEntityV;

    open spec fn view(&self) -> RelationEntityV {
        RelationEntityV {
            text: self.text@,
            label: self.label@,
            start: self.start as int,
            end: self.end as int,
            probability: self.probability,
        }
    }
}

impl RelationEntity {
    /// Packages the fields of one relation entity.
    pub fn new(text: String, label: String, start: usize, end: usize, probability: Score) -> (r:
        Self)
        ensures
            r.text == text,
            r.label == label,
            r.start == start,
            r.end == end,
            r.probability == probability,
    {
        RelationEntity { text, label, start, end, probability }
    }
}

/// A validated subject-relation-object triple: the relation class, both
/// entities, the originating sequence, the carrier span's character
/// offsets and the aggregate probability.
#[derive(Debug)]
pub struct Relation {
    pub class: String,
    pub subject: RelationEntity,
    pub object: RelationEntity,
    pub sequence: usize,
    pub start: usize,
    pub end: usize,
    pub probability: Score,
}

/// Mathematical model of a [`Relation`].
pub struct RelationV {
    pub class: Seq<char>,
    pub subject: RelationEntityV,
    pub object: RelationEntityV,
    pub sequence: int,
    pub start: int,
    pub end: int,
    pub probability: Score,
}

impl View for Relation {
    type V = RelationV;

    open spec fn view(&self) -> RelationV {
        RelationV {
            class: self.class@,
            subject: self.subject@,
            object: self.object@,
            sequence: self.sequence as int,
            start: self.start as int,
            end: self.end as int,
            probability: self.probability,
        }
    }
}

impl DeepView for Relation {
    type V = RelationV;

    open spec fn deep_view(&self) -> RelationV {
        self.view()
    }
}

/// The relation decoded from carrier span `sp` under `ctx`, meaningful
/// when the span's class label decodes: the subject text comes from the
/// label, the object text from the carrier span itself; both labels and
/// offsets are resolved by surface-text lookup, offsets falling back to
/// the carrier span's own.
pub open spec fn spec_relation_of(ctx: &RelationContext, sp: SpanV) -> RelationV {
    match spec_decode_label(sp.class) {
        Some((subj_text, cls)) => {
            let carrier = (sp.offset_start, sp.offset_end);
            let soff = spec_entity_offsets(ctx, subj_text, carrier);
            let ooff = spec_entity_offsets(ctx, sp.text, carrier);
            RelationV {
                class: cls,
                subject: RelationEntityV {
                    text: subj_text,
                    label: spec_first_label(ctx, subj_text),
                    start: soff.0,
                    end: soff.1,
                    probability: sp.probability,
                },
                object: RelationEntityV {
                    text: sp.text,
                    label: spec_first_label(ctx, sp.text),
                    start: ooff.0,
                    end: ooff.1,
                    probability: sp.probability,
                },
                sequence: sp.sequence,
                start: sp.offset_start,
                end: sp.offset_end,
                probability: sp.probability,
            }
        },
        None => RelationV {
            class: Seq::empty(),
            subject: RelationEntityV {
                text: Seq::empty(),
                label: Seq::empty(),
                start: 0,
                end: 0,
                probability: 0,
            },
            object: RelationEntityV {
                text: Seq::empty(),
                label: Seq::empty(),
                start: 0,
                end: 0,
                probability: 0,
            },
            sequence: 0,
            start: 0,
            end: 0,
            probability: 0,
        },
    }
}

/// Resolves the first label recorded for `text`, or the empty string.
fn first_label(ctx: &RelationContext, text: &String) -> (r: String)
    ensures
        r@ == spec_first_label(ctx, text@),
{
    match ctx.lookup_labels(text) {
        Some(labels) => {
            if labels.len() > 0 {
                labels[0].clone()
            } else {
                String::new()
            }
        },
        None => String::new(),
    }
}

/// Resolves the offsets recorded for `text`, falling back to the carrier
/// span's own offsets.
fn entity_offsets(ctx: &RelationContext, text: &String, fallback: (usize, usize)) -> (r: (
    usize,
    usize,
))
    ensures
        (r.0 as int, r.1 as int) == spec_entity_offsets(
            ctx,
            text@,
            (fallback.0 as int, fallback.1 as int),
        ),
{
    match ctx.lookup_offsets(text) {
        Some(off) => off,
        None => fallback,
    }
}

impl Relation {
    /// Decodes the carrier span into a relation.  The span's class label
    /// must decode as `"<SUBJECT_TEXT> <> <RELATION_CLASS>"`; any other
    /// shape is a per-relation format error.
    pub fn from(span: Span, context: &RelationContext) -> (r: Result<Relation, RelationFormatError>)
        ensures
            match r {
                Ok(rel) => spec_decode_label(span@.class) is Some && rel@ == spec_relation_of(
                    context,
                    span@,
                ),
                Err(e) => spec_decode_label(span@.class) is None && e.message@
                    == "unexpected relation label format: "@ + span@.class,
            },
    {
        let parts = match Relation::decode(span.class()) {
            Ok(p) => p,
            Err(e) => {
                return Err(e);
            },
        };
        let (subject_text, class) = parts;
        let object_text = String::from_str(span.text());
        let probability = span.probability();
        let carrier = span.offsets();

        let subject_label = first_label(context, &subject_text);
        let subject_offsets = entity_offsets(context, &subject_text, carrier);
        let object_label = first_label(context, &object_text);
        let object_offsets = entity_offsets(context, &object_text, carrier);

        let subject = RelationEntity::new(
            subject_text,
            subject_label,
            subject_offsets.0,
            subject_offsets.1,
            probability,
        );
        let object = RelationEntity::new(
            object_text,
            object_label,
            object_offsets.0,
            object_offsets.1,
            probability,
        );

        Ok(
            Relation {
                class,
                subject,
                object,
                sequence: span.sequence(),
                start: carrier.0,
                end: carrier.1,
                probability,
            },
        )
    }

    /// The relation class of the triple.
    pub fn class(&self) -> (r: &str)
        ensures
            r@ == self@.class,
    {
        self.class.as_str()
    }

    /// The subject entity.
    pub fn subject(&self) -> (r: &RelationEntity)
        ensures
            r == &self.subject,
    {
        &self.subject
    }

    /// The object entity.
    pub fn object(&self) -> (r: &RelationEntity)
        ensures
            r == &self.object,
    {
        &self.object
    }

    /// The originating sequence index.
    pub fn sequence(&self) -> (r: usize)
        ensures
            r == self.sequence,
    {
        self.sequence
    }

    /// The carrier span's character offsets.
    pub fn offsets(&self) -> (r: (usize, usize))
        ensures
            r.0 == self.start,
            r.1 == self.end,
    {
        (self.start, self.end)
    }

    /// The aggregate probability of the triple.
    pub fn probability(&self) -> (r: Score)
        ensures
            r == self.probability,
    {
        self.probability
    }

    /// Splits an encoded relation label into subject text and relation
    /// class, exactly when the literal separator occurs exactly once.
    pub fn decode(rel_class: &str) -> (r: Result<(String, String), RelationFormatError>)
        ensures
            match r {
                Ok(parts) => spec_decode_label(rel_class@) == Some((parts.0@, parts.1@)),
                Err(e) => spec_decode_label(rel_class@) is None && e.message@
                    == "unexpected relation label format: "@ + rel_class@,
            },
    {
        let n = rel_class.unicode_len();
        let i = match find_sep(rel_class) {
            Some(i) => i,
            None => {
                return RelationFormatError::new(rel_class).err();
            },
        };
        proof {
            lemma_find_sep_in_range(rel_class@, 0, i as int);
        }
        let before = rel_class.substring_char(0, i);
        let after = rel_class.substring_char(i + 4, n);
        match find_sep(after) {
            Some(_) => RelationFormatError::new(rel_class).err(),
            None => Ok((String::from_str(before), String::from_str(after))),
        }
    }
}

/// A found separator index lies in range.
proof fn lemma_find_sep_in_range(s: Seq<char>, from: int, i: int)
    requires
        spec_find_sep(s, from) == Some(i),
        0 <= from,
    ensures
        from <= i,
        i + 4 <= s.len(),
    decreases s.len() - from,
{
    if from + 4 > s.len() {
    } else if spec_sep_at(s, from) {
    } else {
        lemma_find_sep_in_range(s, from + 1, i);
    }
}

/// Why a span was dropped during relation decoding.
#[derive(Debug)]
pub enum RejectionReason {
    /// The class label does not decode as a relation encoding.
    BadFormat,
    /// The decoded relation class is not declared in the schema.
    UnknownClass,
    /// The object's labels are not admitted by the schema entry.
    SchemaMismatch,
}

/// A structured record of one dropped relation, for observability.
#[derive(Debug)]
pub struct Rejection {
    /// The originating sequence index.
    pub sequence: usize,
    /// The carrier span's raw class label.
    pub label: String,
    /// The decoded relation, when decoding succeeded.
    pub relation: Option<Relation>,
    /// Why the relation was dropped.
    pub reason: RejectionReason,
}

/// An injected observability channel: the decoder hands every dropped
/// relation to the sink and otherwise ignores it.  Implementations decide
/// whether to discard, collect or print the records.
pub trait RejectionSink {
    /// Receives one rejection record.
    fn report(&mut self, rejection: Rejection);
}

/// The silent sink: rejections are discarded with no overhead.
pub struct NullSink {}

impl RejectionSink for NullSink {
    fn report(&mut self, rejection: Rejection) {
    }
}

/// A sink that collects every rejection record.
pub struct VecSink {
    pub rejections: Vec<Rejection>,
}

impl VecSink {
    /// An empty collector.
    pub fn new() -> (r: VecSink)
        ensures
            r.rejections@.len() == 0,
    {
        VecSink { rejections: Vec::new() }
    }
}

impl RejectionSink for VecSink {
    fn report(&mut self, rejection: Rejection) {
        self.rejections.push(rejection);
    }
}

/// Decoded relation lists echoing the batch's texts and entity-label
/// vocabulary.
pub struct RelationOutput {
    pub texts: Vec<String>,
    pub entities: Vec<String>,
    pub relations: Vec<Vec<Relation>>,
}

/// Whether the span survives relation decoding and schema validation: its
/// label decodes, the decoded class is declared, and the object's labels
/// intersect the schema's allowed object labels — falling back, when the
/// object text is unknown to the context, to the single resolved object
/// label (the empty string for an unknown text).
pub open spec fn spec_keep(schema: &RelationSchema, ctx: &RelationContext, sp: SpanV) -> bool {
    match spec_decode_label(sp.class) {
        None => false,
        Some((subj_text, cls)) => match spec_lookup(schema.entries@, cls) {
            None => false,
            Some(rspec) => match spec_lookup_labels(ctx.entity_labels@, sp.text) {
                Some(labels) => exists|j: int|
                    0 <= j < labels.deep_view().len() && rspec.spec_allows_object(
                        #[trigger] labels.deep_view()[j],
                    ),
                None => rspec.spec_allows_object(spec_first_label(ctx, sp.text)),
            },
        },
    }
}

/// The relations decoded and kept from one sequence's span list, in span
/// order.
pub open spec fn spec_decode_relations(
    schema: &RelationSchema,
    ctx: &RelationContext,
    spans: Seq<SpanV>,
) -> Seq<RelationV>
    decreases spans.len(),
{
    if spans.len() == 0 {
        Seq::empty()
    } else {
        let rest = spec_decode_relations(schema, ctx, spans.drop_first());
        if spec_keep(schema, ctx, spans[0]) {
            seq![spec_relation_of(ctx, spans[0])] + rest
        } else {
            rest
        }
    }
}

/// The relation-validation stage, guarding decoded relations with a
/// declared schema.
pub struct SpanOutputToRelationOutput<'a> {
    pub schema: &'a RelationSchema,
}

impl<'a> SpanOutputToRelationOutput<'a> {
    /// A validator against the given schema.
    pub fn new(schema: &'a RelationSchema) -> (r: Self)
        ensures
            r.schema == schema,
    {
        Self { schema }
    }

    /// Validates one decoded relation against the schema: an undeclared
    /// relation class is an error; otherwise the verdict is whether the
    /// object's labels (or, unknown to the context, its single resolved
    /// label) intersect the allowed object labels.
    pub fn is_valid(&self, relation: &Relation, context: &RelationContext) -> (r: Result<
        bool,
        RelationFormatError,
    >)
        ensures
            match r {
                Ok(b) => spec_lookup(self.schema.entries@, relation.class@) matches Some(rspec)
                    && b == (match spec_lookup_labels(
                    context.entity_labels@,
                    relation.object.text@,
                ) {
                    Some(labels) => exists|j: int|
                        0 <= j < labels.deep_view().len() && rspec.spec_allows_object(
                            #[trigger] labels.deep_view()[j],
                        ),
                    None => rspec.spec_allows_object(relation.object.label@),
                }),
                Err(e) => spec_lookup(self.schema.entries@, relation.class@) is None && e.message@
                    == "unexpected relation label format: "@ + relation.class@,
            },
    {
        let rspec = match self.schema.get(&relation.class) {
            Some(sp) => sp,
            None => {
                return RelationFormatError::new(relation.class.as_str()).err();
            },
        };
        match context.lookup_labels(&relation.object.text) {
            Some(labels) => Ok(rspec.allows_one_of_objects(labels)),
            None => Ok(rspec.allows_object(&relation.object.label)),
        }
    }

    /// Decodes and validates every span list of the batch, reporting each
    /// dropped relation to `sink`.  The kept relations of sequence `s`
    /// are exactly [`spec_decode_relations`] of its span list; texts and
    /// vocabulary are echoed unchanged.
    pub fn convert<S: RejectionSink>(
        &self,
        input: (SpanOutput, RelationContext),
        sink: &mut S,
    ) -> (r: RelationOutput)
        ensures
            ({
                let (spanout, ctx) = input;
                &&& r.texts == spanout.texts
                &&& r.entities == spanout.entities
                &&& r.relations.deep_view().len() == spanout.spans.deep_view().len()
                &&& forall|s: int| 0 <= s < spanout.spans.deep_view().len() ==> #[trigger] r
                    .relations.deep_view()[s] == spec_decode_relations(
                    self.schema,
                    &ctx,
                    spanout.spans.deep_view()[s],
                )
            }),
    {
        let (spanout, ctx) = input;
        let SpanOutput { texts, entities, spans } = spanout;
        let ghost orig = spans.deep_view();
        let total = spans.len();
        let mut rest = spans;
        let mut out: Vec<Vec<Relation>> = Vec::new();
        let mut i: usize = 0;
        while rest.len() > 0
            invariant
                i + rest@.len() == orig.len(),
                i <= orig.len() == total,
                out@.len() == i,
                forall|j: int| 0 <= j < rest@.len() ==> #[trigger] rest.deep_view()[j] == orig[i
                    + j],
                forall|j: int| 0 <= j < i ==> #[trigger] out.deep_view()[j]
                    == spec_decode_relations(self.schema, &ctx, orig[j]),
            decreases rest@.len(),
        {
            let ghost restv = rest@;
            let ghost restdv = rest.deep_view();
            let lst = rest.remove(0);
            proof {
                restv.remove_ensures(0);
                assert(restdv[0] == restv[0].deep_view());
                assert(restdv[0] == orig[i as int]);
                assert(restdv[0] == lst.deep_view());
                assert forall|j: int| 0 <= j < rest@.len() implies #[trigger] rest.deep_view()[j]
                    == orig[i + 1 + j] by {
                    assert(rest@[j] == restv[j + 1]);
                    assert(rest.deep_view()[j] == rest@[j].deep_view());
                    assert(restdv[j + 1] == restv[j + 1].deep_view());
                    assert(restdv[j + 1] == orig[i + 1 + j]);
                }
            }
            let relations = self.convert_sequence(lst, &ctx, sink);
            let ghost reldv = relations.deep_view();
            let ghost outv = out@;
            let ghost outdv = out.deep_view();
            out.push(relations);
            proof {
                assert forall|j: int| 0 <= j < i + 1 implies #[trigger] out.deep_view()[j]
                    == spec_decode_relations(self.schema, &ctx, orig[j]) by {
                    assert(out.deep_view()[j] == out@[j].deep_view());
                    if j < i {
                        assert(out@[j] == outv[j]);
                        assert(outdv[j] == outv[j].deep_view());
                        assert(outdv[j] == spec_decode_relations(self.schema, &ctx, orig[j]));
                    } else {
                        assert(out@[j].deep_view() == reldv);
                    }
                }
            }
            i = i + 1;
        }
        RelationOutput { texts, entities, relations: out }
    }

    /// Decodes and validates one sequence's span list.
    fn convert_sequence<S: RejectionSink>(
        &self,
        spans: Vec<Span>,
        ctx: &RelationContext,
        sink: &mut S,
    ) -> (r: Vec<Relation>)
        ensures
            r.deep_view() == spec_decode_relations(self.schema, ctx, spans.deep_view()),
    {
        let ghost orig = spans.deep_view();
        let mut rest = spans;
        let mut kept: Vec<Relation> = Vec::new();
        proof {
            assert(kept.deep_view() =~= Seq::<RelationV>::empty());
            assert(kept.deep_view() + spec_decode_relations(self.schema, ctx, orig)
                =~= spec_decode_relations(self.schema, ctx, orig));
        }
        while rest.len() > 0
            invariant
                spec_decode_relations(self.schema, ctx, orig) == kept.deep_view()
                    + spec_decode_relations(self.schema, ctx, rest.deep_view()),
            decreases rest@.len(),
        {
            let ghost restv = rest@;
            let ghost restdv = rest.deep_view();
            let ghost keptv = kept@;
            let ghost keptdv = kept.deep_view();
            let sp = rest.remove(0);
            proof {
                restv.remove_ensures(0);
                assert(restdv[0] == restv[0].deep_view());
                assert(restdv[0] == sp@);
                assert forall|j: int| 0 <= j < rest@.len() implies #[trigger] rest.deep_view()[j]
                    == restdv[j + 1] by {
                    assert(rest@[j] == restv[j + 1]);
                    assert(rest.deep_view()[j] == rest@[j].deep_view());
                    assert(restdv[j + 1] == restv[j + 1].deep_view());
                }
                assert(rest.deep_view() =~= restdv.drop_first());
            }
            let raw_label = String::from_str(sp.class());
            let sequence = sp.sequence();
            let ghost gsp = sp@;
            match Relation::from(sp, ctx) {
                Err(_) => {
                    proof {
                        assert(!spec_keep(self.schema, ctx, gsp));
                        assert(kept.deep_view() + spec_decode_relations(
                            self.schema,
                            ctx,
                            rest.deep_view(),
                        ) =~= keptdv + spec_decode_relations(self.schema, ctx, restdv));
                    }
                    sink.report(
                        Rejection {
                            sequence,
                            label: raw_label,
                            relation: None,
                            reason: RejectionReason::BadFormat,
                        },
                    );
                },
                Ok(relation) => {
                    let ghost grel = relation@;
                    match self.is_valid(&relation, ctx) {
                        Ok(true) => {
                            proof {
                                assert(grel.object.text == gsp.text);
                                assert(grel.object.label == spec_first_label(ctx, gsp.text));
                                assert(spec_keep(self.schema, ctx, gsp));
                            }
                            kept.push(relation);
                            proof {
                                assert forall|j: int| 0 <= j < kept@.len() implies #[trigger] kept
                                    .deep_view()[j] == keptdv.push(grel)[j] by {
                                    assert(kept.deep_view()[j] == kept@[j].deep_view());
                                    if j < keptdv.len() {
                                        assert(kept@[j] == keptv[j]);
                                        assert(keptdv[j] == keptv[j].deep_view());
                                    }
                                }
                                assert(kept.deep_view() =~= keptdv.push(grel));
                                assert(keptdv.push(grel) + spec_decode_relations(
                                    self.schema,
                                    ctx,
                                    restdv.drop_first(),
                                ) =~= keptdv + (seq![grel] + spec_decode_relations(
                                    self.schema,
                                    ctx,
                                    restdv.drop_first(),
                                )));
                            }
                        },
                        Ok(false) => {
                            proof {
                                assert(grel.object.text == gsp.text);
                                assert(grel.object.label == spec_first_label(ctx, gsp.text));
                                assert(!spec_keep(self.schema, ctx, gsp));
                                assert(kept.deep_view() + spec_decode_relations(
                                    self.schema,
                                    ctx,
                                    rest.deep_view(),
                                ) =~= keptdv + spec_decode_relations(self.schema, ctx, restdv));
                            }
                            sink.report(
                                Rejection {
                                    sequence,
                                    label: raw_label,
                                    relation: Some(relation),
                                    reason: RejectionReason::SchemaMismatch,
                                },
                            );
                        },
                        Err(_) => {
                            proof {
                                assert(grel.class == spec_decode_label(gsp.class)->Some_0.1);
                                assert(!spec_keep(self.schema, ctx, gsp));
                                assert(kept.deep_view() + spec_decode_relations(
                                    self.schema,
                                    ctx,
                                    rest.deep_view(),
                                ) =~= keptdv + spec_decode_relations(self.schema, ctx, restdv));
                            }
                            sink.report(
                                Rejection {
                                    sequence,
                                    label: raw_label,
                                    relation: Some(relation),
                                    reason: RejectionReason::UnknownClass,
                                },
                            );
                        },
                    }
                },
            }
        }
        proof {
            assert(rest.deep_view() =~= Seq::<SpanV>::empty());
            assert(kept.deep_view() + Seq::<RelationV>::empty() =~= kept.deep_view());
        }
        kept
    }
}

impl<'a> Stage for SpanOutputToRelationOutput<'a> {
    type Input = (SpanOutput, RelationContext);

    type Output = RelationOutput;

    /// Relation validation works on any resolved span output.
    open spec fn pre(&self, input: &(SpanOutput, RelationContext)) -> bool {
        true
    }

    /// Each sequence's relations are exactly the decoded, schema-admitted
    /// ones of its spans; texts and vocabulary are echoed unchanged.
    open spec fn post(&self, input: &(SpanOutput, RelationContext), output: &RelationOutput) -> bool {
        &&& output.texts == input.0.texts
        &&& output.entities == input.0.entities
        &&& output.relations.deep_view().len() == input.0.spans.deep_view().len()
        &&& forall|s: int| 0 <= s < input.0.spans.deep_view().len() ==> #[trigger] output
            .relations.deep_view()[s] == spec_decode_relations(
            self.schema,
            &input.1,
            input.0.spans.deep_view()[s],
        )
    }

    /// Per-relation failures are dropped, never propagated: the stage
    /// itself cannot fail.
    open spec fn may_fail(&self, input: &(SpanOutput, RelationContext)) -> bool {
        false
    }

    fn apply(&self, input: (SpanOutput, RelationContext)) -> (r: Result<
        RelationOutput,
        StageError,
    >) {
        let mut sink = NullSink {  };
        Ok(self.convert(input, &mut sink))
    }
}

} // verus!
