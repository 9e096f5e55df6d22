use marpa::asf::glade::Glade;
use marpa::asf::symch::TOKEN_RULE_ID;
use marpa::asf::{Traverser, ASF, FACTORING_MAX};
use marpa::forest::{AndNode, Forest, OrNode, NONE};
use marpa::result::Fault;

fn token(symbol: i32) -> AndNode {
    AndNode { predecessor: NONE, cause: NONE, symbol }
}

fn token_after(predecessor: i32, symbol: i32) -> AndNode {
    AndNode { predecessor, cause: NONE, symbol }
}

fn caused_by(cause: i32) -> AndNode {
    AndNode { predecessor: NONE, cause, symbol: NONE }
}

fn or_node(rule: i32, position: i32, and_nodes: Vec<i32>) -> OrNode {
    OrNode { rule, position, and_nodes }
}

/// The forest of the grammar `S -> 'a' 'b'` over the input "ab".
fn forest_ab() -> Forest {
    Forest {
        top: 2,
        or_nodes: vec![
            or_node(0, 1, vec![0]),
            or_node(0, 2, vec![1]),
            or_node(NONE, 1, vec![2]),
        ],
        and_nodes: vec![token(0), token_after(0, 1), caused_by(1)],
        tokens: vec![97, 98],
    }
}

/// The forest of the grammar `NP -> N | Adj N`, written with one rule for
/// the choice, over an input that both sides match.
fn forest_np() -> Forest {
    Forest {
        top: 4,
        or_nodes: vec![
            // 0: NP -> choice
            or_node(0, 1, vec![0, 1]),
            // 1: choice -> N
            or_node(1, 1, vec![2]),
            // 2: choice -> Adj . N
            or_node(2, 1, vec![3]),
            // 3: choice -> Adj N
            or_node(2, 2, vec![4]),
            // 4: the rule that the engine added
            or_node(NONE, 1, vec![5]),
        ],
        and_nodes: vec![
            caused_by(1),
            caused_by(3),
            token(0),
            token(1),
            token_after(2, 0),
            caused_by(0),
        ],
        tokens: vec![10, 11],
    }
}

/// A forest whose start rule has `count` derivations, each by one token.
fn forest_wide(count: i32) -> Forest {
    let mut and_nodes: Vec<AndNode> = (0..count).map(|_| token(0)).collect();
    and_nodes.push(caused_by(0));
    Forest {
        top: 1,
        or_nodes: vec![
            or_node(0, 1, (0..count).collect()),
            or_node(NONE, 1, vec![count]),
        ],
        and_nodes,
        tokens: vec![5],
    }
}

/// A forest whose start rule has two symbols: `first` ways for the first and
/// `second` ways for the second.
fn forest_product(first: i32, second: i32) -> Forest {
    let mut and_nodes: Vec<AndNode> = (0..first).map(|_| token(0)).collect();
    for _ in 0..second {
        and_nodes.push(token_after(0, 1));
    }
    and_nodes.push(caused_by(1));
    Forest {
        top: 2,
        or_nodes: vec![
            or_node(0, 1, (0..first).collect()),
            or_node(0, 2, (first..first + second).collect()),
            or_node(NONE, 1, vec![first + second]),
        ],
        and_nodes,
        tokens: vec![5, 6],
    }
}

fn obtained(asf: &mut ASF, id: usize) -> Glade {
    asf.glade_obtain(id).unwrap().clone()
}

fn nids_of(asf: &ASF, id: usize) -> Vec<i32> {
    asf.nidset(id).unwrap().nids.clone()
}

#[test]
fn set_equal_lists_get_the_same_id() {
    let mut asf = ASF::new(forest_ab()).unwrap();
    let a = asf.obtain_nidset(vec![3, 1, 2]).id;
    let b = asf.obtain_nidset(vec![2, 3, 1, 1, 3]).id;
    let c = asf.obtain_nidset(vec![1, 2, 3]).id;
    assert_eq!(a, b);
    assert_eq!(a, c);
    assert_eq!(nids_of(&asf, a), vec![1, 2, 3]);
    let n = asf.obtain_nidset(vec![-44, 7, -43, 7]).clone();
    assert_eq!(n.nids, vec![-44, -43, 7]);
    assert_eq!(n.count(), 3);
    assert_eq!(n.get_nid(0), -44);
    assert_eq!(n.get_nid(2), 7);
}

#[test]
fn ids_are_unique_and_never_reused() {
    let mut asf = ASF::new(forest_ab()).unwrap();
    let one = asf.obtain_nidset(vec![5]).id;
    let two = asf.obtain_nidset(vec![6]).id;
    let empty = asf.obtain_nidset(vec![]).id;
    let three = asf.obtain_nidset(vec![5, 6]).id;
    assert_eq!((one, two, empty, three), (1, 2, 3, 4));
    assert_eq!(asf.obtain_nidset(vec![5]).id, 1);
    assert_eq!(asf.obtain_nidset(vec![6, 5]).id, 4);
    assert_eq!(asf.obtain_nidset(vec![]).id, 3);
    assert_eq!(nids_of(&asf, 1), vec![5]);
    assert_eq!(nids_of(&asf, 2), vec![6]);
    assert_eq!(nids_of(&asf, 3), Vec::<i32>::new());
    assert_eq!(nids_of(&asf, 4), vec![5, 6]);
    assert!(asf.nidset(0).is_none());
    assert!(asf.nidset(5).is_none());
    let (id, sorted) = asf.intset_id(vec![9, 8, 9]);
    assert_eq!(id, 5);
    assert_eq!(sorted, vec![8, 9]);
}

#[test]
fn powersets_are_canonical_too() {
    let mut asf = ASF::new(forest_ab()).unwrap();
    let p = asf.obtain_powerset(vec![4, 2, 4, 9]);
    assert_eq!(p.symches, vec![2, 4, 9]);
    assert_eq!(p.count(), 3);
    assert_eq!(p.id, 1);
    let q = asf.obtain_powerset(vec![9, 4, 2]);
    assert_eq!(q.id, 1);
    let r = asf.obtain_powerset(vec![2, 4]);
    assert_eq!(r.id, 2);
    assert_eq!(asf.obtain_powerset(vec![]).id, 3);
}

#[test]
fn symches_are_computed_once() {
    let mut asf = ASF::new(forest_ab()).unwrap();
    assert_eq!(asf.symch_computations(), 0);
    let peak = asf.peak().unwrap();
    assert_eq!(asf.symch_computations(), 1);
    let first = obtained(&mut asf, peak);
    assert_eq!(asf.symch_computations(), 1);
    let second = obtained(&mut asf, peak);
    assert_eq!(asf.symch_computations(), 1);
    assert_eq!(first, second);
    assert_eq!(asf.peak().unwrap(), peak);
    assert_eq!(asf.symch_computations(), 1);
    let child = first.symches.as_ref().unwrap()[0].factorings[0][0];
    obtained(&mut asf, child);
    assert_eq!(asf.symch_computations(), 2);
    obtained(&mut asf, child);
    assert_eq!(asf.symch_computations(), 2);
}

fn factoring_counts(count: i32) -> (usize, bool) {
    let mut asf = ASF::new(forest_wide(count)).unwrap();
    let peak = asf.peak().unwrap();
    let glade = obtained(&mut asf, peak);
    let symches = glade.symches.unwrap();
    assert_eq!(symches.len(), 1);
    (symches[0].factoring_count(), symches[0].factorings_omitted())
}

#[test]
fn factorings_are_capped() {
    assert_eq!(FACTORING_MAX, 42);
    assert_eq!(factoring_counts(1), (1, false));
    assert_eq!(factoring_counts(41), (41, false));
    assert_eq!(factoring_counts(42), (42, false));
    assert_eq!(factoring_counts(43), (42, true));
    assert_eq!(factoring_counts(50), (42, true));
    assert_eq!(factoring_counts(500), (42, true));
}

#[test]
fn capped_factorings_are_the_first_ones() {
    let mut asf = ASF::new(forest_wide(50)).unwrap();
    assert_eq!(asf.factoring_max(), 42);
    let peak = asf.peak().unwrap();
    let glade = obtained(&mut asf, peak);
    let symch = &glade.symches.as_ref().unwrap()[0];
    for (j, factoring) in symch.factorings.iter().enumerate() {
        assert_eq!(factoring.len(), 1);
        assert_eq!(nids_of(&asf, factoring[0]), vec![-43 - j as i32]);
        assert!(asf.glade_is_registered(factoring[0]));
    }
}

#[test]
fn factorings_multiply() {
    let mut asf = ASF::new(forest_product(3, 2)).unwrap();
    let peak = asf.peak().unwrap();
    let glade = obtained(&mut asf, peak);
    let symch = &glade.symches.as_ref().unwrap()[0];
    assert!(!symch.omitted);
    let found: Vec<Vec<i32>> = symch
        .factorings
        .iter()
        .map(|f| f.iter().map(|g| nids_of(&asf, *g)[0]).collect())
        .collect();
    assert_eq!(
        found,
        vec![
            vec![-43, -46],
            vec![-44, -46],
            vec![-45, -46],
            vec![-43, -47],
            vec![-44, -47],
            vec![-45, -47],
        ]
    );
}

#[test]
fn products_are_capped() {
    let mut asf = ASF::new(forest_product(10, 5)).unwrap();
    let peak = asf.peak().unwrap();
    let glade = obtained(&mut asf, peak);
    let symch = &glade.symches.as_ref().unwrap()[0];
    assert!(symch.omitted);
    assert_eq!(symch.factorings.len(), 42);
    let last = &symch.factorings[41];
    // the 42nd factoring: the second way for the first symbol, the fifth
    // for the second
    assert_eq!(nids_of(&asf, last[0]), vec![-44]);
    assert_eq!(nids_of(&asf, last[1]), vec![-43 - 14]);
    let mut exact = ASF::new(forest_product(7, 6)).unwrap();
    let peak = exact.peak().unwrap();
    let glade = obtained(&mut exact, peak);
    let symch = &glade.symches.as_ref().unwrap()[0];
    assert!(!symch.omitted);
    assert_eq!(symch.factorings.len(), 42);
}

#[test]
fn null_parse_has_no_forest() {
    let empty = Forest { top: 0, or_nodes: vec![], and_nodes: vec![], tokens: vec![] };
    assert!(matches!(ASF::new(empty), Err(Fault::NullParse)));
    let no_top = Forest { top: NONE, or_nodes: vec![], and_nodes: vec![token(3)], tokens: vec![] };
    assert!(matches!(ASF::new(no_top), Err(Fault::NullParse)));
}

#[test]
fn malformed_forest_is_refused() {
    let mut dangling = forest_ab();
    dangling.and_nodes[1].predecessor = 9;
    assert!(matches!(ASF::new(dangling), Err(Fault::MalformedForest)));
    let mut looping = forest_ab();
    looping.and_nodes[0].predecessor = 1;
    assert!(matches!(ASF::new(looping), Err(Fault::MalformedForest)));
    let mut no_top = forest_ab();
    no_top.top = 3;
    assert!(matches!(ASF::new(no_top), Err(Fault::MalformedForest)));
    let mut token_top = forest_ab();
    token_top.and_nodes[2] = token(0);
    assert!(matches!(ASF::new(token_top), Err(Fault::MalformedForest)));
    let mut bad_token = forest_ab();
    bad_token.tokens[1] = -5;
    assert!(matches!(ASF::new(bad_token), Err(Fault::MalformedForest)));
    let mut childless = forest_ab();
    childless.or_nodes[0].and_nodes.clear();
    assert!(matches!(ASF::new(childless), Err(Fault::MalformedForest)));
    assert!(forest_ab().is_well_formed());
    assert!(forest_np().is_well_formed());
}

#[test]
fn unambiguous_parse_has_one_factoring() {
    let mut asf = ASF::new(forest_ab()).unwrap();
    let peak = asf.peak().unwrap();
    assert_eq!(nids_of(&asf, peak), vec![1]);
    assert!(asf.glade_is_registered(peak));
    let glade = obtained(&mut asf, peak);
    assert_eq!(glade.rule_id(), peak);
    assert_eq!(glade.symbol_id(), NONE);
    assert_eq!(glade.symch_count(), 1);
    let symches = glade.symches.unwrap();
    assert_eq!(symches.len(), 1);
    assert_eq!(symches[0].rule_id(), 0);
    assert_eq!(nids_of(&asf, symches[0].nidset), vec![1]);
    assert!(!symches[0].omitted);
    assert_eq!(symches[0].factorings.len(), 1);
    let factoring = symches[0].factorings[0].clone();
    assert_eq!(factoring.len(), 2);
    assert_eq!(nids_of(&asf, factoring[0]), vec![-43]);
    assert_eq!(nids_of(&asf, factoring[1]), vec![-44]);

    let a = obtained(&mut asf, factoring[0]);
    assert_eq!(a.symbol_id(), 97);
    let a_symches = a.symches.unwrap();
    assert_eq!(a_symches.len(), 1);
    assert_eq!(a_symches[0].rule_id, TOKEN_RULE_ID);
    assert!(!a_symches[0].omitted);
    assert_eq!(a_symches[0].factorings, vec![vec![factoring[0]]]);
    let b = obtained(&mut asf, factoring[1]);
    assert_eq!(b.symbol_id(), 98);
    assert_eq!(b.symches.unwrap()[0].factorings, vec![vec![factoring[1]]]);
}

struct Counter;

impl Traverser for Counter {
    type ParseTree = usize;
    type ParseState = Vec<usize>;

    fn traverse_glade(
        &self,
        asf: &mut ASF,
        glade: usize,
        state: Vec<usize>,
    ) -> Result<(usize, Vec<usize>), Fault> {
        let mut seen = state;
        let here = asf.glade_obtain(glade)?.clone();
        asf.glade_visited(glade);
        seen.push(glade);
        for symch in here.symches.unwrap() {
            if symch.rule_id == TOKEN_RULE_ID {
                continue;
            }
            for factoring in symch.factorings {
                for child in factoring {
                    if !asf.glade_is_visited(child) {
                        let (_, next) = self.traverse_glade(asf, child, seen)?;
                        seen = next;
                    }
                }
            }
        }
        Ok((seen.len(), seen))
    }
}

#[test]
fn traversal_of_unambiguous_parse_visits_three_glades() {
    let mut asf = ASF::new(forest_ab()).unwrap();
    let (count, seen) = asf.traverse(Vec::new(), Counter).unwrap();
    assert_eq!(count, 3);
    assert_eq!(seen.len(), 3);
    let mut nids: Vec<Vec<i32>> = seen.iter().map(|g| nids_of(&asf, *g)).collect();
    nids.sort();
    assert_eq!(nids, vec![vec![-44], vec![-43], vec![1]]);
    assert_eq!(asf.symch_computations(), 3);
    for g in seen {
        assert!(asf.glade_is_visited(g));
    }
    assert!(!asf.glade_is_visited(0));
    assert!(!asf.glade_is_visited(99));
}

struct Exhaustive;

impl Traverser for Exhaustive {
    type ParseTree = Vec<String>;
    type ParseState = usize;

    fn traverse_glade(
        &self,
        asf: &mut ASF,
        glade: usize,
        state: usize,
    ) -> Result<(Vec<String>, usize), Fault> {
        let here = asf.glade_obtain(glade)?.clone();
        let mut visits = state + 1;
        let mut results = Vec::new();
        for symch in here.symches.unwrap() {
            if symch.rule_id == TOKEN_RULE_ID {
                results.push(format!("t{}", here.symbol_id));
                continue;
            }
            for factoring in symch.factorings {
                let mut combos = vec![String::new()];
                for child in factoring {
                    let (texts, next) = self.traverse_glade(asf, child, visits)?;
                    visits = next;
                    let mut longer = Vec::new();
                    for combo in &combos {
                        for text in &texts {
                            longer.push(format!("{} {}", combo, text));
                        }
                    }
                    combos = longer;
                }
                for combo in combos {
                    results.push(format!("(r{}{})", symch.rule_id, combo));
                }
            }
        }
        Ok((results, visits))
    }
}

struct Pruning;

impl Traverser for Pruning {
    type ParseTree = Vec<String>;
    type ParseState = usize;

    fn traverse_glade(
        &self,
        asf: &mut ASF,
        glade: usize,
        state: usize,
    ) -> Result<(Vec<String>, usize), Fault> {
        let here = asf.glade_obtain(glade)?.clone();
        let mut visits = state + 1;
        let symches = here.symches.unwrap();
        let symch = &symches[0];
        if symch.rule_id == TOKEN_RULE_ID {
            return Ok((vec![format!("t{}", here.symbol_id)], visits));
        }
        let mut text = String::new();
        for child in &symch.factorings[0] {
            let (texts, next) = self.traverse_glade(asf, *child, visits)?;
            visits = next;
            text = format!("{} {}", text, texts[0]);
        }
        Ok((vec![format!("(r{}{})", symch.rule_id, text)], visits))
    }
}

#[test]
fn ambiguous_parse_has_two_factorings() {
    let mut asf = ASF::new(forest_np()).unwrap();
    let peak = asf.peak().unwrap();
    assert_eq!(nids_of(&asf, peak), vec![0]);
    let glade = obtained(&mut asf, peak);
    let symches = glade.symches.unwrap();
    assert_eq!(symches.len(), 1);
    assert_eq!(symches[0].rule_id, 0);
    assert_eq!(symches[0].factorings.len(), 2);
    assert!(!symches[0].omitted);
    assert_eq!(nids_of(&asf, symches[0].factorings[0][0]), vec![1]);
    assert_eq!(nids_of(&asf, symches[0].factorings[1][0]), vec![3]);
}

#[test]
fn exhaustive_visitor_reports_both_parses() {
    let mut asf = ASF::new(forest_np()).unwrap();
    let (results, _) = asf.traverse(0, Exhaustive).unwrap();
    assert_eq!(results, vec!["(r0 (r1 t10))".to_string(), "(r0 (r2 t11 t10))".to_string()]);
    assert_ne!(results[0], results[1]);
}

#[test]
fn pruning_visitor_reports_one_parse() {
    let mut asf = ASF::new(forest_np()).unwrap();
    let (results, visits) = asf.traverse(0, Pruning).unwrap();
    assert_eq!(results, vec!["(r0 (r1 t10))".to_string()]);
    assert_eq!(visits, 3);
}

#[test]
fn shared_glades_are_expanded_once() {
    // both sides of the choice end in the same kind of token, but every
    // leaf has its glade; the visitor comes to five glades in six visits
    let mut asf = ASF::new(forest_np()).unwrap();
    let (_, visits) = asf.traverse(0, Exhaustive).unwrap();
    assert_eq!(visits, 6);
    assert_eq!(asf.symch_computations(), 6);
    let (_, again) = asf.traverse(0, Exhaustive).unwrap();
    assert_eq!(again, 6);
    assert_eq!(asf.symch_computations(), 6);
}

#[test]
fn sort_index_of_nids() {
    let asf = ASF::new(forest_ab()).unwrap();
    assert_eq!(asf.nid_sort_ix(0), Ok(0));
    assert_eq!(asf.nid_sort_ix(1), Ok(0));
    assert_eq!(asf.nid_sort_ix(2), Ok(NONE));
    assert_eq!(asf.nid_sort_ix(-43), Ok(-97 - 3));
    assert_eq!(asf.nid_sort_ix(-44), Ok(-98 - 3));
    assert_eq!(asf.nid_sort_ix(3), Err(Fault::NoSuchOrNode(3)));
    assert_eq!(asf.nid_sort_ix(-45), Err(Fault::NoSuchSymbol(NONE)));
    assert_eq!(asf.nid_sort_ix(-46), Err(Fault::NoSuchAndNode(3)));
    assert_eq!(asf.nid_sort_ix(-1), Err(Fault::NoSuchAndNode(-42)));
    assert_eq!(asf.nid_sort_ix(-42), Err(Fault::NoSuchAndNode(-1)));
    assert_eq!(asf.nid_sort_ix(i32::MIN), Err(Fault::NoSuchAndNode(2147483605)));
}

#[test]
fn visited_mark_is_for_the_visitor() {
    let mut asf = ASF::new(forest_ab()).unwrap();
    let peak = asf.peak().unwrap();
    assert!(!asf.glade_is_visited(peak));
    let before = obtained(&mut asf, peak);
    asf.glade_visited(peak);
    assert!(asf.glade_is_visited(peak));
    asf.glade_visited(77);
    let after = obtained(&mut asf, peak);
    assert_eq!(before.symches, after.symches);
    assert!(after.visited);
    assert_eq!(asf.symch_computations(), 1);
    let other = asf.obtain_nidset(vec![0]).id;
    assert!(!asf.glade_is_registered(other));
    assert!(!asf.glade_is_registered(0));
    assert!(!asf.glade_is_registered(100));
}

#[test]
fn default_glade_is_blank() {
    let g = Glade::default();
    assert_eq!(g.rule_id(), 0);
    assert_eq!(g.symbol_id(), -1);
    assert!(!g.registered);
    assert!(!g.visited);
    assert!(g.symches.is_none());
    assert_eq!(g.symch_count(), 0);
}
