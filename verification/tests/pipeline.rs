use fast_gliner::context::{EntityContext, TokenSpan};
use fast_gliner::modes::{select_mode, span_post_processor, token_post_processor, Mode};
use fast_gliner::pipeline::Stage;
use fast_gliner::tensor::{ScoreTensor, TensorOutput};

fn token(text: &str, start: usize, end: usize) -> TokenSpan {
    TokenSpan { text: text.to_string(), start, end }
}

fn paris_context() -> EntityContext {
    EntityContext {
        texts: vec!["Paris is in France".to_string()],
        tokens: vec![vec![
            token("Paris", 0, 5),
            token("is", 6, 8),
            token("in", 9, 11),
            token("France", 12, 18),
        ]],
        entities: vec!["City".to_string(), "Country".to_string()],
        num_words: 4,
    }
}

const THRESHOLD: u32 = 500_000_000;

#[test]
fn span_chain_decodes_sorts_and_resolves() {
    // Two candidates overlap on token 0: "Paris" as City (strong) and
    // "Paris is" as Country (weaker).  Under flat_ner only the stronger
    // survives the full chain.
    let mut data = vec![0u32; 16];
    data[((0 * 2) + 0) * 2 + 0] = 900_000_000; // (start 0, width 0, City)
    data[((0 * 2) + 1) * 2 + 1] = 800_000_000; // (start 0, width 1, Country)
    let logits = ScoreTensor::new(vec![1, 4, 2, 2], data).expect("well-formed tensor");
    let chain = span_post_processor(THRESHOLD, 2, true, false, false);
    let input = TensorOutput {
        tensors: vec![("logits".to_string(), logits)],
        context: paris_context(),
    };
    let resolved = chain.apply(input).expect("the chain succeeds");
    assert_eq!(resolved.texts, vec!["Paris is in France".to_string()]);
    assert_eq!(resolved.spans.len(), 1);
    assert_eq!(resolved.spans[0].len(), 1);
    assert_eq!(resolved.spans[0][0].text, "Paris");
    assert_eq!(resolved.spans[0][0].class, "City");
}

#[test]
fn span_chain_keeps_nested_spans_without_flat_ner() {
    let mut data = vec![0u32; 16];
    data[((0 * 2) + 0) * 2 + 0] = 900_000_000;
    data[((0 * 2) + 1) * 2 + 1] = 800_000_000;
    let logits = ScoreTensor::new(vec![1, 4, 2, 2], data).expect("well-formed tensor");
    let chain = span_post_processor(THRESHOLD, 2, false, false, false);
    let input = TensorOutput {
        tensors: vec![("logits".to_string(), logits)],
        context: paris_context(),
    };
    let resolved = chain.apply(input).expect("the chain succeeds");
    assert_eq!(resolved.spans[0].len(), 2);
}

#[test]
fn token_chain_is_a_drop_in_alternative() {
    let mut starts = vec![0u32; 8];
    let mut ends = vec![0u32; 8];
    starts[0 * 2 + 0] = 900_000_000; // token 0 opens a City span
    ends[0 * 2 + 0] = 900_000_000; // token 0 closes it
    let start_logits = ScoreTensor::new(vec![1, 4, 2], starts).expect("well-formed tensor");
    let end_logits = ScoreTensor::new(vec![1, 4, 2], ends).expect("well-formed tensor");
    let chain = token_post_processor(THRESHOLD, true, false, false);
    let input = TensorOutput {
        tensors: vec![
            ("start_logits".to_string(), start_logits),
            ("end_logits".to_string(), end_logits),
        ],
        context: paris_context(),
    };
    let resolved = chain.apply(input).expect("the chain succeeds");
    assert_eq!(resolved.spans[0].len(), 1);
    assert_eq!(resolved.spans[0][0].text, "Paris");
}

#[test]
fn chain_failure_short_circuits_with_the_first_stage_error() {
    let logits = ScoreTensor::new(vec![1, 1, 1, 1], vec![0]).expect("well-formed tensor");
    let chain = span_post_processor(THRESHOLD, 2, true, false, false);
    let input = TensorOutput {
        tensors: vec![("logits".to_string(), logits)],
        context: paris_context(),
    };
    assert!(chain.apply(input).is_err());
}

#[test]
fn model_configuration_selects_the_decoding_mode() {
    assert_eq!(select_mode(Some(&"token_level".to_string())), Mode::TokenLevel);
    assert_eq!(select_mode(Some(&"span_level".to_string())), Mode::SpanLevel);
    assert_eq!(select_mode(None), Mode::SpanLevel);
}

#[test]
fn empty_batch_flows_through_the_whole_chain() {
    let context = EntityContext {
        texts: vec![],
        tokens: vec![],
        entities: vec!["City".to_string()],
        num_words: 0,
    };
    let logits = ScoreTensor::new(vec![0, 0, 2, 1], vec![]).expect("well-formed tensor");
    let chain = span_post_processor(THRESHOLD, 2, true, false, false);
    let input = TensorOutput { tensors: vec![("logits".to_string(), logits)], context };
    let resolved = chain.apply(input).expect("the chain succeeds");
    assert_eq!(resolved.spans.len(), 0);
    assert_eq!(resolved.texts.len(), 0);
}
