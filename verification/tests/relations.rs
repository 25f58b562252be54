use fast_gliner::relation::{
    Relation, RelationContext, RelationFormatError, Rejection, RejectionReason,
    SpanOutputToRelationOutput, VecSink,
};
use fast_gliner::schema::RelationSchema;
use fast_gliner::span::{Span, SpanOutput};

fn carrier(class: &str, text: &str, score: u32) -> Span {
    Span {
        sequence: 0,
        start: 0,
        end: 1,
        class_index: 0,
        class: class.to_string(),
        text: text.to_string(),
        offset_start: 12,
        offset_end: 18,
        probability: score,
    }
}

fn paris_relation_context() -> RelationContext {
    RelationContext {
        entity_labels: vec![
            ("Paris".to_string(), vec!["City".to_string()]),
            ("France".to_string(), vec!["Country".to_string()]),
        ],
        entity_offsets: vec![
            ("Paris".to_string(), (0, 5)),
            ("France".to_string(), (12, 18)),
        ],
    }
}

fn located_in_schema(objects: &[&str]) -> RelationSchema {
    let mut schema = RelationSchema::new();
    schema.push_with_allowed_labels(
        "locatedIn",
        vec!["City".to_string()],
        objects.iter().map(|s| s.to_string()).collect(),
    );
    schema
}

#[test]
fn relation_label_decodes_into_subject_and_class() {
    let (subject, class) = Relation::decode("Paris <> locatedIn").expect("label decodes");
    assert_eq!(subject, "Paris");
    assert_eq!(class, "locatedIn");
}

#[test]
fn label_without_separator_is_a_format_error() {
    assert!(Relation::decode("Paris-locatedIn").is_err());
}

#[test]
fn label_with_two_separators_is_a_format_error() {
    assert!(Relation::decode("a <> b <> c").is_err());
}

#[test]
fn format_error_message_names_the_offending_label() {
    let err = RelationFormatError::new("Paris-locatedIn");
    assert_eq!(err.message, "unexpected relation label format: Paris-locatedIn");
}

#[test]
fn relation_round_trip_builds_both_entities() {
    let context = paris_relation_context();
    let relation = Relation::from(carrier("Paris <> locatedIn", "France", 800_000_000), &context)
        .expect("relation decodes");
    assert_eq!(relation.class(), "locatedIn");
    assert_eq!(relation.subject().text, "Paris");
    assert_eq!(relation.subject().label, "City");
    assert_eq!((relation.subject().start, relation.subject().end), (0, 5));
    assert_eq!(relation.object().text, "France");
    assert_eq!(relation.object().label, "Country");
    assert_eq!((relation.object().start, relation.object().end), (12, 18));
    assert_eq!(relation.sequence(), 0);
    assert_eq!(relation.offsets(), (12, 18));
    assert_eq!(relation.probability(), 800_000_000);
}

#[test]
fn unknown_entity_offsets_fall_back_to_the_carrier_span() {
    let context = RelationContext { entity_labels: vec![], entity_offsets: vec![] };
    let relation = Relation::from(carrier("Paris <> locatedIn", "France", 800_000_000), &context)
        .expect("relation decodes");
    assert_eq!((relation.subject().start, relation.subject().end), (12, 18));
    assert_eq!(relation.subject().label, "");
}

#[test]
fn schema_admits_a_matching_object_label() {
    let schema = located_in_schema(&["Country"]);
    let context = paris_relation_context();
    let output = SpanOutput {
        texts: vec!["Paris is in France".to_string()],
        entities: vec!["City".to_string(), "Country".to_string()],
        spans: vec![vec![carrier("Paris <> locatedIn", "France", 800_000_000)]],
    };
    let mut sink = VecSink::new();
    let result = SpanOutputToRelationOutput::new(&schema).convert((output, context), &mut sink);
    assert_eq!(result.relations.len(), 1);
    assert_eq!(result.relations[0].len(), 1);
    assert_eq!(result.relations[0][0].class(), "locatedIn");
    assert_eq!(sink.rejections.len(), 0);
}

#[test]
fn schema_rejects_a_disallowed_object_label() {
    let schema = located_in_schema(&["Person"]);
    let context = paris_relation_context();
    let output = SpanOutput {
        texts: vec!["Paris is in France".to_string()],
        entities: vec!["City".to_string(), "Country".to_string()],
        spans: vec![vec![carrier("Paris <> locatedIn", "France", 800_000_000)]],
    };
    let mut sink = VecSink::new();
    let result = SpanOutputToRelationOutput::new(&schema).convert((output, context), &mut sink);
    assert_eq!(result.relations[0].len(), 0);
    assert_eq!(sink.rejections.len(), 1);
    assert!(matches!(sink.rejections[0].reason, RejectionReason::SchemaMismatch));
}

#[test]
fn undeclared_relation_class_is_dropped_not_fatal() {
    let schema = located_in_schema(&["Country"]);
    let context = paris_relation_context();
    let output = SpanOutput {
        texts: vec!["Paris is in France".to_string()],
        entities: vec!["City".to_string(), "Country".to_string()],
        spans: vec![vec![carrier("Paris <> bornIn", "France", 800_000_000)]],
    };
    let mut sink = VecSink::new();
    let result = SpanOutputToRelationOutput::new(&schema).convert((output, context), &mut sink);
    assert_eq!(result.relations[0].len(), 0);
    assert_eq!(sink.rejections.len(), 1);
    assert!(matches!(sink.rejections[0].reason, RejectionReason::UnknownClass));
}

#[test]
fn bad_format_drops_the_relation_and_keeps_the_batch() {
    let schema = located_in_schema(&["Country"]);
    let context = paris_relation_context();
    let output = SpanOutput {
        texts: vec!["Paris is in France".to_string()],
        entities: vec!["City".to_string(), "Country".to_string()],
        spans: vec![vec![
            carrier("Paris-locatedIn", "France", 700_000_000),
            carrier("Paris <> locatedIn", "France", 800_000_000),
        ]],
    };
    let mut sink = VecSink::new();
    let result = SpanOutputToRelationOutput::new(&schema).convert((output, context), &mut sink);
    assert_eq!(result.relations[0].len(), 1);
    assert_eq!(result.relations[0][0].probability(), 800_000_000);
    assert_eq!(sink.rejections.len(), 1);
    let rejection: &Rejection = &sink.rejections[0];
    assert!(matches!(rejection.reason, RejectionReason::BadFormat));
    assert_eq!(rejection.label, "Paris-locatedIn");
}

#[test]
fn empty_batch_produces_zero_relation_lists() {
    let schema = located_in_schema(&["Country"]);
    let context = RelationContext { entity_labels: vec![], entity_offsets: vec![] };
    let output = SpanOutput {
        texts: vec![],
        entities: vec![],
        spans: vec![],
    };
    let mut sink = VecSink::new();
    let result = SpanOutputToRelationOutput::new(&schema).convert((output, context), &mut sink);
    assert_eq!(result.relations.len(), 0);
    assert_eq!(result.texts.len(), 0);
    assert_eq!(sink.rejections.len(), 0);
}

#[test]
fn duplicate_schema_entries_overwrite_rather_than_merge() {
    let mut schema = RelationSchema::new();
    schema.push_with_allowed_labels(
        "locatedIn",
        vec!["City".to_string()],
        vec!["Person".to_string()],
    );
    schema.push_with_allowed_labels(
        "locatedIn",
        vec!["City".to_string()],
        vec!["Country".to_string()],
    );
    let entry = schema.get(&"locatedIn".to_string()).expect("entry exists");
    assert!(entry.allows_object(&"Country".to_string()));
    assert!(!entry.allows_object(&"Person".to_string()));
}

#[test]
fn schema_lookup_misses_undeclared_classes() {
    let schema = located_in_schema(&["Country"]);
    assert!(schema.get(&"bornIn".to_string()).is_none());
}

#[test]
fn object_label_set_intersection_decides_validity() {
    let schema = located_in_schema(&["Country", "Region"]);
    let entry = schema.get(&"locatedIn".to_string()).expect("entry exists");
    assert!(entry.allows_one_of_objects(&vec!["City".to_string(), "Region".to_string()]));
    assert!(!entry.allows_one_of_objects(&vec!["City".to_string(), "Person".to_string()]));
    assert!(entry.allows_subject(&"City".to_string()));
    assert!(!entry.allows_subject(&"Country".to_string()));
}
