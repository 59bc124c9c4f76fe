//! The output-span model and its composition law.

use view_tree::{aggregate_spans, NodeSpan};

#[test]
fn span_counts_match_the_variants() {
    assert_eq!(NodeSpan::Empty.count(), 0);
    assert_eq!(NodeSpan::Single(7).count(), 1);
    assert_eq!(NodeSpan::Sequence(vec![3, 4, 5]).count(), 3);
}

#[test]
fn span_to_vec_lists_primitives_in_order() {
    assert_eq!(NodeSpan::Empty.to_vec(), Vec::<usize>::new());
    assert_eq!(NodeSpan::Single(7).to_vec(), vec![7]);
    assert_eq!(NodeSpan::Sequence(vec![3, 4, 5]).to_vec(), vec![3, 4, 5]);
}

#[test]
fn same_ids_compares_primitive_sequences() {
    assert!(NodeSpan::Single(4).same_ids(&NodeSpan::Sequence(vec![4])));
    assert!(NodeSpan::Empty.same_ids(&NodeSpan::Sequence(vec![])));
    assert!(!NodeSpan::Single(4).same_ids(&NodeSpan::Single(5)));
    assert!(!NodeSpan::Sequence(vec![1, 2]).same_ids(&NodeSpan::Sequence(vec![2, 1])));
}

#[test]
fn aggregation_concatenates_children_in_order() {
    let children = vec![
        NodeSpan::Single(1),
        NodeSpan::Sequence(vec![2, 3]),
        NodeSpan::Single(4),
    ];
    let parent = aggregate_spans(&children);
    assert_eq!(parent.to_vec(), vec![1, 2, 3, 4]);
}

#[test]
fn empty_spans_contribute_nothing_to_aggregation() {
    let with_empties = vec![
        NodeSpan::Empty,
        NodeSpan::Single(1),
        NodeSpan::Empty,
        NodeSpan::Sequence(vec![2, 3]),
        NodeSpan::Empty,
    ];
    let without = vec![NodeSpan::Single(1), NodeSpan::Sequence(vec![2, 3])];
    assert_eq!(
        aggregate_spans(&with_empties).to_vec(),
        aggregate_spans(&without).to_vec()
    );
}

#[test]
fn aggregating_no_children_yields_an_empty_sequence() {
    let parent = aggregate_spans(&Vec::new());
    assert_eq!(parent.count(), 0);
}
