use fast_gliner::context::{EntityContext, TokenSpan};
use fast_gliner::decode::span::TensorsToDecoded;
use fast_gliner::decode::token::TensorsToDecoded as TokenTensorsToDecoded;
use fast_gliner::pipeline::{check_expected_names, Stage, StageError};
use fast_gliner::score::SCORE_ONE;
use fast_gliner::span::Span;
use fast_gliner::tensor::{ScoreTensor, TensorOutput};

fn token(text: &str, start: usize, end: usize) -> TokenSpan {
    TokenSpan { text: text.to_string(), start, end }
}

/// "Paris is in France": four tokens, labels City and Country.
fn paris_context(num_words: usize) -> EntityContext {
    EntityContext {
        texts: vec!["Paris is in France".to_string()],
        tokens: vec![vec![
            token("Paris", 0, 5),
            token("is", 6, 8),
            token("in", 9, 11),
            token("France", 12, 18),
        ]],
        entities: vec!["City".to_string(), "Country".to_string()],
        num_words,
    }
}

const THRESHOLD: u32 = 500_000_000;

/// Span-mode grid (1, 4, 2, 2): index ((start * 2) + width) * 2 + class.
fn span_grid(cells: &[(usize, usize, usize, u32)]) -> ScoreTensor {
    let mut data = vec![0u32; 16];
    for &(start, width, class, score) in cells {
        data[((start * 2) + width) * 2 + class] = score;
    }
    ScoreTensor::new(vec![1, 4, 2, 2], data).expect("well-formed tensor")
}

fn named(name: &str, t: ScoreTensor) -> (String, ScoreTensor) {
    (name.to_string(), t)
}

fn decode_spans(cells: &[(usize, usize, usize, u32)]) -> Vec<Vec<Span>> {
    let output = TensorOutput {
        tensors: vec![named("logits", span_grid(cells))],
        context: paris_context(4),
    };
    TensorsToDecoded::new(THRESHOLD, 2)
        .decode(&output)
        .expect("decoding succeeds")
}

#[test]
fn span_mode_emits_expected_candidates() {
    let spans = decode_spans(&[(0, 0, 0, 900_000_000), (3, 0, 1, 800_000_000)]);
    assert_eq!(spans.len(), 1);
    assert_eq!(spans[0].len(), 2);
    let paris = &spans[0][0];
    assert_eq!(paris.sequence, 0);
    assert_eq!(paris.start, 0);
    assert_eq!(paris.end, 0);
    assert_eq!(paris.class, "City");
    assert_eq!(paris.text, "Paris");
    assert_eq!((paris.offset_start, paris.offset_end), (0, 5));
    assert_eq!(paris.probability, 900_000_000);
    let france = &spans[0][1];
    assert_eq!(france.class, "Country");
    assert_eq!(france.text, "France");
    assert_eq!((france.start, france.end), (3, 3));
    assert_eq!((france.offset_start, france.offset_end), (12, 18));
}

#[test]
fn emitted_spans_are_always_in_bounds_with_scores_in_range() {
    // Fill every grid cell with an accepting score: only in-range spans
    // may come out, each with a probability within [0, 1].
    let mut cells = Vec::new();
    for start in 0..4 {
        for width in 0..2 {
            for class in 0..2 {
                cells.push((start, width, class, SCORE_ONE));
            }
        }
    }
    let spans = decode_spans(&cells);
    for span in &spans[0] {
        assert!(span.start <= span.end);
        assert!(span.end < 4);
        assert!(span.probability <= SCORE_ONE);
    }
    // Cells whose end would pass the real token count are discarded:
    // start 3 with width 1 must not appear.
    assert!(spans[0].iter().all(|s| !(s.start == 3 && s.end == 4)));
}

#[test]
fn padding_cells_beyond_the_real_token_count_are_discarded() {
    // The scorer ran with six padded word positions, but the sequence only
    // has four real tokens: cells opening at positions 4 and 5 exist only
    // because of padding and must not be emitted.
    let context = paris_context(6);
    let mut data = vec![0u32; 24];
    data[((0 * 2) + 0) * 2 + 0] = SCORE_ONE; // real token 0
    data[((4 * 2) + 0) * 2 + 0] = SCORE_ONE; // padding position 4
    data[((5 * 2) + 1) * 2 + 1] = SCORE_ONE; // padding position 5
    let logits = ScoreTensor::new(vec![1, 6, 2, 2], data).expect("well-formed tensor");
    let output = TensorOutput { tensors: vec![named("logits", logits)], context };
    let spans = TensorsToDecoded::new(THRESHOLD, 2).decode(&output).expect("decoding succeeds");
    assert_eq!(spans[0].len(), 1);
    assert_eq!(spans[0][0].text, "Paris");
}

#[test]
fn threshold_is_inclusive() {
    let spans = decode_spans(&[(1, 0, 0, THRESHOLD)]);
    assert_eq!(spans[0].len(), 1);
    assert_eq!(spans[0][0].probability, THRESHOLD);
}

#[test]
fn score_just_below_threshold_is_rejected() {
    let spans = decode_spans(&[(1, 0, 0, THRESHOLD - 1)]);
    assert_eq!(spans[0].len(), 0);
}

#[test]
fn missing_logits_tensor_is_a_fatal_error() {
    let output = TensorOutput { tensors: vec![], context: paris_context(4) };
    match TensorsToDecoded::new(THRESHOLD, 2).decode(&output) {
        Err(StageError::MissingTensor { name }) => assert_eq!(name, "logits"),
        _ => panic!("expected a missing-tensor error"),
    }
}

#[test]
fn wrong_shape_is_a_fatal_error() {
    let bad = ScoreTensor::new(vec![1, 3, 2, 2], vec![0u32; 12]).expect("well-formed tensor");
    let output = TensorOutput { tensors: vec![named("logits", bad)], context: paris_context(4) };
    match TensorsToDecoded::new(THRESHOLD, 2).decode(&output) {
        Err(StageError::ShapeMismatch { name, expected, actual }) => {
            assert_eq!(name, "logits");
            assert_eq!(expected, vec![1, 4, 2, 2]);
            assert_eq!(actual, vec![1, 3, 2, 2]);
        }
        _ => panic!("expected a shape-mismatch error"),
    }
}

#[test]
fn empty_batch_decodes_to_zero_output_lists() {
    let context = EntityContext {
        texts: vec![],
        tokens: vec![],
        entities: vec!["City".to_string(), "Country".to_string()],
        num_words: 0,
    };
    let logits = ScoreTensor::new(vec![0, 0, 2, 2], vec![]).expect("well-formed tensor");
    let output = TensorOutput { tensors: vec![named("logits", logits)], context };
    let spans = TensorsToDecoded::new(THRESHOLD, 2).decode(&output).expect("decoding succeeds");
    assert_eq!(spans.len(), 0);
}

#[test]
fn tensor_new_rejects_out_of_range_scores_and_bad_sizes() {
    assert!(ScoreTensor::new(vec![2, 2], vec![0, 0, 0, SCORE_ONE + 1]).is_none());
    assert!(ScoreTensor::new(vec![2, 2], vec![0, 0, 0]).is_none());
    assert!(ScoreTensor::new(vec![2, 2], vec![0, 0, 0, 0]).is_some());
}

/// Boundary grid (1, 4, 2): index (token * 2) + class.
fn boundary_grid(cells: &[(usize, usize, u32)]) -> ScoreTensor {
    let mut data = vec![0u32; 8];
    for &(token_index, class, score) in cells {
        data[token_index * 2 + class] = score;
    }
    ScoreTensor::new(vec![1, 4, 2], data).expect("well-formed tensor")
}

#[test]
fn token_mode_takes_the_weaker_boundary_score() {
    let starts = boundary_grid(&[(0, 0, 900_000_000), (3, 1, 700_000_000)]);
    let ends = boundary_grid(&[(0, 0, 850_000_000), (3, 1, 900_000_000)]);
    let output = TensorOutput {
        tensors: vec![named("start_logits", starts), named("end_logits", ends)],
        context: paris_context(4),
    };
    let spans = TokenTensorsToDecoded::new(THRESHOLD).decode(&output).expect("decoding succeeds");
    assert_eq!(spans[0].len(), 2);
    assert_eq!(spans[0][0].text, "Paris");
    assert_eq!(spans[0][0].class, "City");
    assert_eq!(spans[0][0].probability, 850_000_000);
    assert_eq!(spans[0][1].text, "France");
    assert_eq!(spans[0][1].class, "Country");
    assert_eq!(spans[0][1].probability, 700_000_000);
}

#[test]
fn token_mode_reports_the_missing_tensor_by_name() {
    let starts = boundary_grid(&[]);
    let output = TensorOutput {
        tensors: vec![named("start_logits", starts)],
        context: paris_context(4),
    };
    match TokenTensorsToDecoded::new(THRESHOLD).decode(&output) {
        Err(StageError::MissingTensor { name }) => assert_eq!(name, "end_logits"),
        _ => panic!("expected a missing-tensor error"),
    }
}

#[test]
fn expected_tensor_names_are_validated_before_any_data_flows() {
    let expected = TensorsToDecoded::outputs();
    let provided = vec!["logits".to_string(), "extra".to_string()];
    assert!(check_expected_names(&expected, &provided).is_ok());
    match check_expected_names(&expected, &vec!["extra".to_string()]) {
        Err(StageError::MissingTensor { name }) => assert_eq!(name, "logits"),
        _ => panic!("expected a missing-tensor error"),
    }
}

#[test]
fn decode_stage_echoes_texts_and_vocabulary() {
    let output = TensorOutput {
        tensors: vec![named("logits", span_grid(&[(0, 0, 0, 900_000_000)]))],
        context: paris_context(4),
    };
    let decoded = TensorsToDecoded::new(THRESHOLD, 2).apply(output).expect("stage succeeds");
    assert_eq!(decoded.texts, vec!["Paris is in France".to_string()]);
    assert_eq!(decoded.entities, vec!["City".to_string(), "Country".to_string()]);
    assert_eq!(decoded.spans.len(), 1);
    assert_eq!(decoded.spans[0].len(), 1);
}
