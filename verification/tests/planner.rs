use qk::node::TraverseOperation::{FirstChild, NextSibling};
use qk::node::{PlanStep, TraverseNode};

fn leaf(id: usize) -> TraverseNode {
    TraverseNode { id, next: None, child: None }
}

fn moves(tree: &TraverseNode) -> Vec<PlanStep> {
    let mut out = Vec::new();
    tree.emit(7, &mut out);
    out
}

#[test]
fn a_lone_root_needs_no_move() {
    let tree = leaf(0).insert(0, &vec![], 0);
    assert!(moves(&tree).is_empty());
}

#[test]
fn one_path_moves_one_handle_in_place() {
    let tree = leaf(0).insert(1, &vec![FirstChild, NextSibling, NextSibling], 0);
    assert_eq!(
        moves(&tree),
        vec![
            PlanStep::Copy { root: 7, from: 0, to: 1 },
            PlanStep::FirstChild { root: 7, id: 1 },
            PlanStep::NextSibling { root: 7, id: 1 },
            PlanStep::NextSibling { root: 7, id: 1 },
        ]
    );
}

#[test]
fn a_path_that_is_there_adds_nothing() {
    let path = vec![FirstChild, NextSibling];
    let once = leaf(0).insert(1, &path, 0);
    let before = moves(&once);
    let twice = once.insert(2, &path, 0);
    assert_eq!(moves(&twice), before);
}

#[test]
fn siblings_share_the_way_down() {
    let tree = leaf(0)
        .insert(1, &vec![FirstChild], 0)
        .insert(2, &vec![FirstChild, NextSibling], 0)
        .insert(3, &vec![FirstChild, NextSibling, NextSibling], 0);
    let plan = moves(&tree);
    assert_eq!(
        plan,
        vec![
            PlanStep::Copy { root: 7, from: 0, to: 1 },
            PlanStep::FirstChild { root: 7, id: 1 },
            PlanStep::Copy { root: 7, from: 1, to: 2 },
            PlanStep::NextSibling { root: 7, id: 2 },
            PlanStep::Copy { root: 7, from: 2, to: 3 },
            PlanStep::NextSibling { root: 7, id: 3 },
        ]
    );
}

#[test]
fn insert_starts_where_it_is_told() {
    let path = vec![NextSibling, NextSibling, FirstChild];
    let tree = leaf(0).insert(1, &path, 2);
    assert_eq!(
        moves(&tree),
        vec![PlanStep::Copy { root: 7, from: 0, to: 1 }, PlanStep::FirstChild { root: 7, id: 1 }]
    );
}
