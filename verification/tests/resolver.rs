use fast_gliner::greedy::GreedySearch;
use fast_gliner::sort::{sort_spans, span_before, SpanSort};
use fast_gliner::pipeline::Stage;
use fast_gliner::span::{Span, SpanOutput};

fn span(start: usize, end: usize, class_index: usize, class: &str, score: u32) -> Span {
    Span {
        sequence: 0,
        start,
        end,
        class_index,
        class: class.to_string(),
        text: String::new(),
        offset_start: 0,
        offset_end: 0,
        probability: score,
    }
}

fn same_span(a: &Span, b: &Span) -> bool {
    a.sequence == b.sequence && a.start == b.start && a.end == b.end
        && a.class_index == b.class_index && a.class == b.class && a.text == b.text
        && a.offset_start == b.offset_start && a.offset_end == b.offset_end
        && a.probability == b.probability
}

#[test]
fn sorter_orders_by_descending_score_then_width_then_start() {
    let sorted = sort_spans(vec![
        span(2, 2, 0, "A", 500_000_000),
        span(0, 1, 0, "A", 900_000_000),
        span(1, 1, 0, "A", 900_000_000),
        span(0, 0, 1, "B", 900_000_000),
    ]);
    // Highest score first; among the 900M spans, the width-0 ones come
    // before the width-1 one, lower start first.
    assert_eq!(sorted.len(), 4);
    assert!(same_span(&sorted[0], &span(0, 0, 1, "B", 900_000_000)));
    assert!(same_span(&sorted[1], &span(1, 1, 0, "A", 900_000_000)));
    assert!(same_span(&sorted[2], &span(0, 1, 0, "A", 900_000_000)));
    assert!(same_span(&sorted[3], &span(2, 2, 0, "A", 500_000_000)));
}

#[test]
fn sorter_is_deterministic_across_runs() {
    let make = || {
        vec![
            span(0, 2, 0, "A", 700_000_000),
            span(1, 1, 1, "B", 700_000_000),
            span(3, 3, 0, "A", 900_000_000),
        ]
    };
    let first = sort_spans(make());
    let second = sort_spans(make());
    assert_eq!(first.len(), second.len());
    for (a, b) in first.iter().zip(second.iter()) {
        assert!(same_span(a, b));
    }
}

#[test]
fn span_before_breaks_ties_by_class_index() {
    let a = span(0, 0, 0, "A", 500_000_000);
    let b = span(0, 0, 1, "B", 500_000_000);
    assert!(span_before(&a, &b));
    assert!(!span_before(&b, &a));
}

#[test]
fn flat_ner_keeps_only_the_highest_scoring_of_two_overlapping() {
    let resolver = GreedySearch::new(true, false, false);
    let kept = resolver.resolve(vec![
        span(0, 2, 0, "A", 900_000_000),
        span(1, 3, 1, "B", 800_000_000),
    ]);
    assert_eq!(kept.len(), 1);
    assert!(same_span(&kept[0], &span(0, 2, 0, "A", 900_000_000)));
}

#[test]
fn same_boundary_different_label_keeps_top_label_without_dup_label() {
    let resolver = GreedySearch::new(true, false, false);
    let kept = resolver.resolve(vec![
        span(0, 2, 0, "A", 900_000_000),
        span(0, 2, 1, "B", 800_000_000),
    ]);
    assert_eq!(kept.len(), 1);
    assert_eq!(kept[0].class, "A");
}

#[test]
fn same_boundary_different_label_coexists_with_dup_and_multi_label() {
    let resolver = GreedySearch::new(true, true, true);
    let kept = resolver.resolve(vec![
        span(0, 2, 0, "A", 900_000_000),
        span(0, 2, 1, "B", 800_000_000),
    ]);
    assert_eq!(kept.len(), 2);
}

#[test]
fn without_multi_label_a_boundary_keeps_one_label_despite_dup_label() {
    let resolver = GreedySearch::new(true, true, false);
    let kept = resolver.resolve(vec![
        span(0, 2, 0, "A", 900_000_000),
        span(0, 2, 1, "B", 800_000_000),
    ]);
    assert_eq!(kept.len(), 1);
    assert_eq!(kept[0].class, "A");
}

#[test]
fn nested_mode_keeps_overlapping_spans_with_different_boundaries() {
    let resolver = GreedySearch::new(false, false, false);
    let kept = resolver.resolve(vec![
        span(0, 2, 0, "A", 900_000_000),
        span(1, 3, 1, "B", 800_000_000),
    ]);
    assert_eq!(kept.len(), 2);
    assert!(same_span(&kept[0], &span(0, 2, 0, "A", 900_000_000)));
    assert!(same_span(&kept[1], &span(1, 3, 1, "B", 800_000_000)));
}

#[test]
fn disjoint_spans_always_coexist() {
    let resolver = GreedySearch::new(true, false, false);
    let kept = resolver.resolve(vec![
        span(0, 0, 0, "A", 900_000_000),
        span(2, 3, 1, "B", 800_000_000),
    ]);
    assert_eq!(kept.len(), 2);
}

#[test]
fn resolver_is_deterministic_across_runs() {
    let make = || {
        vec![
            span(0, 2, 0, "A", 900_000_000),
            span(0, 2, 1, "B", 850_000_000),
            span(1, 3, 1, "B", 800_000_000),
            span(3, 3, 0, "A", 700_000_000),
        ]
    };
    let resolver = GreedySearch::new(true, false, false);
    let first = resolver.resolve(make());
    let second = resolver.resolve(make());
    assert_eq!(first.len(), second.len());
    for (a, b) in first.iter().zip(second.iter()) {
        assert!(same_span(a, b));
    }
}

#[test]
fn resolver_stage_processes_each_sequence_independently() {
    let output = SpanOutput {
        texts: vec!["a".to_string(), "b".to_string()],
        entities: vec!["A".to_string(), "B".to_string()],
        spans: vec![
            vec![span(0, 2, 0, "A", 900_000_000), span(1, 3, 1, "B", 800_000_000)],
            vec![span(0, 0, 0, "A", 600_000_000)],
        ],
    };
    let resolver = GreedySearch::new(true, false, false);
    let resolved = resolver.apply(output).expect("resolution cannot fail");
    assert_eq!(resolved.spans.len(), 2);
    assert_eq!(resolved.spans[0].len(), 1);
    assert_eq!(resolved.spans[1].len(), 1);
    assert_eq!(resolved.texts, vec!["a".to_string(), "b".to_string()]);
}

#[test]
fn sort_stage_orders_every_sequence() {
    let output = SpanOutput {
        texts: vec!["a".to_string()],
        entities: vec!["A".to_string()],
        spans: vec![vec![
            span(0, 0, 0, "A", 500_000_000),
            span(1, 1, 0, "A", 900_000_000),
        ]],
    };
    let sorted = SpanSort::new().apply(output).expect("sorting cannot fail");
    assert_eq!(sorted.spans[0][0].probability, 900_000_000);
    assert_eq!(sorted.spans[0][1].probability, 500_000_000);
}

#[test]
fn empty_candidate_lists_resolve_to_empty_output() {
    let resolver = GreedySearch::new(true, false, false);
    let kept = resolver.resolve(vec![]);
    assert_eq!(kept.len(), 0);
}
