use marpa::asf::factoring::{or_node_factorings, symch_factorings_limited};
use marpa::asf::intset::{canonicalize, same_items};
use marpa::asf::nidset::Nidset;
use marpa::asf::symch::{nid_sort_ix, symch_groups, SORT_IX_END_OF_DATA};
use marpa::forest::{AndNode, Forest, OrNode, NONE};
use marpa::nid::{and_node_to_nid, nid_to_and_node, NID_LEAF_BASE};
use marpa::result::Fault;

fn token(predecessor: i32, symbol: i32) -> AndNode {
    AndNode { predecessor, cause: NONE, symbol }
}

fn caused(predecessor: i32, cause: i32) -> AndNode {
    AndNode { predecessor, cause, symbol: NONE }
}

/// `S -> A A` with two rules for `A`, over an input that can be cut in two
/// places.
fn forest() -> Forest {
    Forest {
        top: 5,
        or_nodes: vec![
            // 0, 1: A by rule 1 and by rule 2, first half
            OrNode { rule: 1, position: 1, and_nodes: vec![0] },
            OrNode { rule: 2, position: 1, and_nodes: vec![1] },
            // 2: S -> A . A
            OrNode { rule: 0, position: 1, and_nodes: vec![2, 3] },
            // 3: A by rule 1, second half
            OrNode { rule: 1, position: 1, and_nodes: vec![4] },
            // 4: S -> A A .
            OrNode { rule: 0, position: 2, and_nodes: vec![5, 6] },
            // 5: the rule that the engine added
            OrNode { rule: NONE, position: 1, and_nodes: vec![7] },
        ],
        and_nodes: vec![
            token(NONE, 0),
            token(NONE, 1),
            caused(NONE, 0),
            caused(NONE, 1),
            token(NONE, 0),
            caused(2, 3),
            token(2, 1),
            caused(NONE, 4),
        ],
        tokens: vec![20, 21],
    }
}

fn index(forest: &Forest) -> Vec<Nidset> {
    (0..forest.or_nodes.len())
        .map(|o| Nidset { id: o, nids: forest.or_node_and_node_ids(o) })
        .collect()
}

#[test]
fn nids_of_and_nodes() {
    assert_eq!(NID_LEAF_BASE, -43);
    assert_eq!(and_node_to_nid(0), -43);
    assert_eq!(and_node_to_nid(1), -44);
    assert_eq!(and_node_to_nid(100), -143);
    assert_eq!(nid_to_and_node(-43), 0);
    assert_eq!(nid_to_and_node(-143), 100);
    for a in [0, 1, 2, 57, 1 << 20, i32::MAX - 42] {
        assert_eq!(nid_to_and_node(and_node_to_nid(a)), a);
        assert!(and_node_to_nid(a) <= NID_LEAF_BASE);
    }
}

#[test]
fn forest_answers_for_its_nodes() {
    let f = forest();
    assert!(f.is_well_formed());
    assert!(!f.null());
    assert_eq!(f.top_or_node(), Ok(5));
    assert_eq!(f.and_node_cause(5), Ok(3));
    assert_eq!(f.and_node_cause(6), Ok(NONE));
    assert_eq!(f.and_node_cause(8), Err(Fault::NoSuchAndNode(8)));
    assert_eq!(f.and_node_cause(-1), Err(Fault::NoSuchAndNode(-1)));
    assert_eq!(f.and_node_predecessor(5), Some(2));
    assert_eq!(f.and_node_predecessor(0), None);
    assert_eq!(f.and_node_predecessor(8), None);
    assert_eq!(f.and_node_symbol(6), Ok(1));
    assert_eq!(f.and_node_symbol(5), Ok(NONE));
    assert_eq!(f.and_node_symbol(-3), Err(Fault::NoSuchAndNode(-3)));
    assert_eq!(f.or_node_rule_source(4), Ok(0));
    assert_eq!(f.or_node_rule_source(5), Ok(NONE));
    assert_eq!(f.or_node_rule_source(6), Err(Fault::NoSuchOrNode(6)));
    assert_eq!(f.source_token_id(1), Ok(21));
    assert_eq!(f.source_token_id(2), Err(Fault::NoSuchSymbol(2)));
    assert_eq!(f.source_token_id(NONE), Err(Fault::NoSuchSymbol(NONE)));
    assert_eq!(f.or_node_and_node_ids(2), vec![2, 3]);
    assert_eq!(f.or_node_and_node_ids(6), Vec::<i32>::new());
    let mut no_top = forest();
    no_top.top = 6;
    assert_eq!(no_top.top_or_node(), Err(Fault::NoSuchOrNode(6)));
    assert!(!no_top.is_well_formed());
}

#[test]
fn factorings_follow_the_and_nodes() {
    let f = forest();
    let ix = index(&f);
    assert_eq!(or_node_factorings(&f, &ix, 0, 10), vec![vec![-43]]);
    assert_eq!(or_node_factorings(&f, &ix, 2, 10), vec![vec![0], vec![1]]);
    assert_eq!(
        or_node_factorings(&f, &ix, 4, 10),
        vec![vec![0, 3], vec![1, 3], vec![0, -49], vec![1, -49]]
    );
    assert_eq!(or_node_factorings(&f, &ix, 4, 3), vec![vec![0, 3], vec![1, 3], vec![0, -49]]);
    assert_eq!(or_node_factorings(&f, &ix, 4, 1), vec![vec![0, 3]]);
    assert_eq!(or_node_factorings(&f, &ix, 4, 0), Vec::<Vec<i32>>::new());
    assert_eq!(
        symch_factorings_limited(&f, &ix, &vec![2, 4], 4),
        vec![vec![0], vec![1], vec![0, 3], vec![1, 3]]
    );
    assert_eq!(symch_factorings_limited(&f, &ix, &vec![2, 4], 100).len(), 6);
    assert_eq!(symch_factorings_limited(&f, &ix, &vec![], 100).len(), 0);
}

#[test]
fn nids_are_grouped_by_sort_index() {
    let f = forest();
    assert_eq!(nid_sort_ix(&f, 0), Ok(1));
    assert_eq!(nid_sort_ix(&f, 4), Ok(0));
    assert_eq!(nid_sort_ix(&f, -43), Ok(-23));
    assert_eq!(nid_sort_ix(&f, -44), Ok(-24));
    assert_eq!(SORT_IX_END_OF_DATA, -2);
    let (keys, groups) = symch_groups(&f, &vec![-49, -47, -44, -43, 0, 1, 2, 3, 4]);
    assert_eq!(keys, vec![-24, -23, 0, 1, 2]);
    assert_eq!(
        groups,
        vec![vec![-49, -44], vec![-47, -43], vec![2, 4], vec![0, 3], vec![1]]
    );
    let (keys, groups) = symch_groups(&f, &vec![3]);
    assert_eq!(keys, vec![1]);
    assert_eq!(groups, vec![vec![3]]);
    let (keys, groups) = symch_groups(&f, &vec![]);
    assert!(keys.is_empty());
    assert!(groups.is_empty());
}

#[test]
fn canonical_form_sorts_and_drops_repeats() {
    assert_eq!(canonicalize(&vec![3, -1, 3, 2, -1]), vec![-1, 2, 3]);
    assert_eq!(canonicalize(&Vec::<i32>::new()), Vec::<i32>::new());
    assert_eq!(canonicalize(&vec![7usize, 7, 7]), vec![7]);
    assert_eq!(canonicalize(&vec![i32::MAX, i32::MIN, 0]), vec![i32::MIN, 0, i32::MAX]);
    assert!(same_items(&vec![1, 2], &vec![1, 2]));
    assert!(!same_items(&vec![1, 2], &vec![2, 1]));
    assert!(!same_items(&vec![1, 2], &vec![1, 2, 3]));
    assert!(same_items(&Vec::<usize>::new(), &Vec::<usize>::new()));
}
