use marpa::result::{Fault, ERR_NOT_A_SEQUENCE, ERR_NO_SUCH_RULE_ID, ERR_NO_SUCH_SYMBOL_ID};
use marpa::thin::{Grammar, Symbol};

fn new_grammar() -> Grammar {
    Grammar::new().unwrap()
}

#[test]
fn test_create_grammar() {
    let _ = Grammar::new();
}

#[test]
fn create_grammar() {
    let grammar = Grammar::new();
    assert!(grammar.is_ok());
    assert_eq!(grammar.unwrap().num_symbols(), Ok(0));
}

#[test]
fn thin_create_grammar() {
    new_grammar();
}

#[test]
fn grammar_create_grammar() {
    new_grammar();
}

#[test]
fn thin_iter_syms() {
    let mut g = new_grammar();
    for _ in 0..5 {
        g.new_symbol().unwrap();
    }
    let ids: Vec<i32> = vec![0, 1, 2, 3, 4];
    assert!(g.symbols().unwrap().collect::<Vec<Symbol>>() == ids);
}

#[test]
fn grammar_iter_syms() {
    let mut g = new_grammar();
    for _ in 0..5 {
        g.new_symbol().unwrap();
    }
    let ids: Vec<i32> = vec![0, 1, 2, 3, 4];
    assert!(g.symbols().unwrap().collect::<Vec<Symbol>>() == ids);
}

#[test]
fn test_set_start() {
    let mut g: Grammar = Grammar::new().unwrap();

    let sym: Symbol = g.new_symbol().unwrap();
    assert!(g.set_start_symbol(sym).unwrap() == sym);

    assert!(g.get_start_symbol().unwrap() == sym);
}

#[test]
fn start_symbol_must_exist() {
    let mut g = new_grammar();
    assert_eq!(g.get_start_symbol(), Err(Fault::Code(ERR_NO_SUCH_SYMBOL_ID)));
    assert_eq!(g.set_start_symbol(0), Err(Fault::Code(ERR_NO_SUCH_SYMBOL_ID)));
    assert_eq!(g.set_start_symbol(-1), Err(Fault::Code(ERR_NO_SUCH_SYMBOL_ID)));
    g.new_symbol().unwrap();
    assert_eq!(g.set_start_symbol(0), Ok(0));
    assert_eq!(g.get_start_symbol(), Ok(0));
}

#[test]
fn rules_get_ids_in_order() {
    let mut g = new_grammar();
    for _ in 0..6 {
        g.new_symbol().unwrap();
    }
    assert_eq!(g.new_rule(0, &[1, 2]), Ok(0));
    assert_eq!(g.new_rule(1, &[3, 4]), Ok(1));
    assert_eq!(g.new_rule(2, &[]), Ok(2));
    let ids: Vec<i32> = vec![0, 1, 2];
    assert!(g.rules().unwrap().collect::<Vec<i32>>() == ids);
    assert_eq!(g.rule_lhs(1), Ok(1));
    assert_eq!(g.rule_length(0), Ok(2));
    assert_eq!(g.rule_length(2), Ok(0));
    assert_eq!(g.rule_rhs_ix(0, 1), Ok(2));
    assert_eq!(g.rule_rhs(1), Ok(vec![3, 4]));
    assert_eq!(g.rule_rhs(2), Ok(vec![]));
    assert_eq!(g.num_symbols(), Ok(6));
}

#[test]
fn rule_of_unknown_symbol_is_refused() {
    let mut g = new_grammar();
    g.new_symbol().unwrap();
    g.new_symbol().unwrap();
    assert_eq!(g.new_rule(0, &[1, 2]), Err(Fault::Code(ERR_NO_SUCH_SYMBOL_ID)));
    assert_eq!(g.new_rule(2, &[0]), Err(Fault::Code(ERR_NO_SUCH_SYMBOL_ID)));
    assert_eq!(g.new_rule(0, &[-1]), Err(Fault::Code(ERR_NO_SUCH_SYMBOL_ID)));
    assert_eq!(g.rules().unwrap().count(), 0);
    assert_eq!(g.new_rule(0, &[1]), Ok(0));
}

#[test]
fn unknown_rule_is_reported() {
    let mut g = new_grammar();
    g.new_symbol().unwrap();
    g.new_rule(0, &[0]).unwrap();
    assert_eq!(g.rule_lhs(1), Err(Fault::Code(ERR_NO_SUCH_RULE_ID)));
    assert_eq!(g.rule_lhs(-1), Err(Fault::Code(ERR_NO_SUCH_RULE_ID)));
    assert_eq!(g.rule_length(7), Err(Fault::Code(ERR_NO_SUCH_RULE_ID)));
    assert_eq!(g.rule_rhs(7), Err(Fault::Code(ERR_NO_SUCH_RULE_ID)));
    assert_eq!(g.rule_rhs_ix(3, 0), Err(Fault::Code(ERR_NO_SUCH_RULE_ID)));
    assert_eq!(
        g.rule_rhs_ix(0, 1),
        Err(Fault::Message("error getting rhs ix".to_string()))
    );
    assert_eq!(g.rule_is_sequence(2), Err(Fault::Code(ERR_NO_SUCH_RULE_ID)));
    assert!(g.rule_def(1).is_none());
}

#[test]
fn sequence_rules_keep_their_kind() {
    let mut g = new_grammar();
    for _ in 0..3 {
        g.new_symbol().unwrap();
    }
    assert_eq!(g.new_rule(0, &[1]), Ok(0));
    assert_eq!(g.new_sequence(0, 1, 2, true, true), Ok(1));
    assert_eq!(g.new_sequence(0, 1, -1, false, false), Ok(2));
    assert_eq!(g.rule_is_sequence(0), Ok(false));
    assert_eq!(g.rule_is_sequence(1), Ok(true));
    assert_eq!(g.sequence_min(1), Ok(1));
    assert_eq!(g.sequence_min(2), Ok(0));
    assert_eq!(g.sequence_separator(1), Ok(2));
    assert_eq!(
        g.sequence_separator(2),
        Err(Fault::Message("Rule has no separator".to_string()))
    );
    assert_eq!(g.sequence_min(9), Err(Fault::Code(ERR_NO_SUCH_RULE_ID)));
    assert_eq!(g.sequence_separator(9), Err(Fault::Code(ERR_NO_SUCH_RULE_ID)));
    assert_eq!(g.sequence_min(0), Err(Fault::Code(ERR_NOT_A_SEQUENCE)));
    assert_eq!(g.sequence_separator(0), Err(Fault::Code(ERR_NOT_A_SEQUENCE)));
    assert_eq!(g.rule_rhs(1), Ok(vec![1]));
    assert_eq!(
        g.new_sequence(0, 1, 3, true, true),
        Err(Fault::Code(ERR_NO_SUCH_SYMBOL_ID))
    );
    assert_eq!(g.new_sequence(0, 1, 2, true, false), Ok(3));
    assert_eq!(g.sequence_min(3), Ok(1));
    assert!(!g.rule_def(3).unwrap().sequence.unwrap().proper);
    assert_eq!(g.new_sequence(0, 1, 2, false, true), Ok(4));
    assert_eq!(g.sequence_min(4), Ok(0));
    assert!(g.rule_def(4).unwrap().sequence.unwrap().proper);
    let def = g.rule_def(1).unwrap();
    assert_eq!(def.lhs, 0);
    assert!(def.sequence.unwrap().proper);
}

#[test]
fn error_or_gives_the_words() {
    let g = new_grammar();
    let r: Result<i32, Fault> = g.error_or("no luck");
    assert_eq!(r, Err(Fault::Message("no luck".to_string())));
}
