use circuit_sim::wiring::{canonical_node_ids, compact_ids, node_classes};

#[test]
fn unwired_nodes_keep_their_own_ids() {
    let (ids, count) = canonical_node_ids(3, &vec![]);
    assert_eq!(ids, vec![0, 1, 2]);
    assert_eq!(count, 3);
}

#[test]
fn wires_merge_nodes_into_contiguous_ids() {
    // Six drawn nodes: 0-3 and 3-5 form one net, 1-4 another, 2 stays alone.
    let (ids, count) = canonical_node_ids(6, &vec![(0, 3), (1, 4), (5, 3)]);
    assert_eq!(count, 3);
    assert_eq!(ids, vec![0, 1, 2, 0, 1, 0]);
}

#[test]
fn chained_wires_join_transitively() {
    let (ids, count) = canonical_node_ids(4, &vec![(0, 1), (2, 3), (1, 2)]);
    assert_eq!(count, 1);
    assert_eq!(ids, vec![0, 0, 0, 0]);
}

#[test]
fn wire_to_itself_changes_nothing() {
    let (ids, count) = canonical_node_ids(2, &vec![(1, 1)]);
    assert_eq!(ids, vec![0, 1]);
    assert_eq!(count, 2);
}

#[test]
fn no_nodes_give_no_ids() {
    let (ids, count) = canonical_node_ids(0, &vec![]);
    assert!(ids.is_empty());
    assert_eq!(count, 0);
}

#[test]
fn classes_share_labels_exactly_when_joined() {
    let labels = node_classes(5, &vec![(4, 0), (2, 4)]);
    assert_eq!(labels[0], labels[4]);
    assert_eq!(labels[2], labels[4]);
    assert_ne!(labels[1], labels[0]);
    assert_ne!(labels[3], labels[0]);
    assert_ne!(labels[1], labels[3]);
}

#[test]
fn compaction_numbers_in_order_of_first_appearance() {
    let (ids, count) = compact_ids(&vec![3, 3, 0, 1, 0]);
    assert_eq!(ids, vec![0, 0, 1, 2, 1]);
    assert_eq!(count, 3);
}
