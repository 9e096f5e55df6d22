use marpa::grammar::{bytes_to_items, bytes_to_symbols, low_byte, string_to_items, Grammar, Item};
use marpa::result::{Fault, ERR_NO_SUCH_SYMBOL_ID};
use marpa::thin;

fn rules_of(g: &thin::Grammar) -> Vec<(i32, Vec<i32>)> {
    g.rules()
        .unwrap()
        .map(|r| (g.rule_lhs(r).unwrap(), g.rule_rhs(r).unwrap()))
        .collect()
}

#[test]
fn new_grammar_has_the_bytes() {
    let g = Grammar::new().unwrap();
    assert_eq!(g.symbol(Item::Symbol(65)), 65);
    let table = g.unwrap();
    assert_eq!(table.num_symbols(), Ok(256));
    assert_eq!(table.rules().unwrap().count(), 0);
    assert_eq!(table.get_start_symbol(), Err(Fault::Code(ERR_NO_SUCH_SYMBOL_ID)));
}

#[test]
fn items_name_symbols() {
    assert_eq!(Item::Rule(7).rule(), 7);
    assert_eq!(Item::Symbol(9).symbol(), 9);
    let mut g = Grammar::new().unwrap();
    assert_eq!(g.new_symbol(), Ok(Item::Symbol(256)));
    assert_eq!(g.new_symbol(), Ok(Item::Symbol(257)));
    let r = g.rule(Some(Item::Symbol(256)), &[Item::Symbol(257), Item::Symbol(1)]).unwrap();
    assert_eq!(r, Item::Rule(0));
    assert_eq!(g.symbol(r), 256);
    assert!(g.knows_item(r));
    assert!(g.knows_item(Item::Symbol(-9)));
    assert!(!g.knows_item(Item::Rule(1)));
    assert_eq!(g.symbols(&[r, Item::Symbol(3), r]), vec![256, 3, 256]);
    let again = g.rule(Some(r), &[r]).unwrap();
    assert_eq!(again, Item::Rule(1));
    assert_eq!(g.symbol(again), 256);
    assert_eq!(g.set_start(r), Ok(r));
    let table = g.unwrap();
    assert_eq!(table.get_start_symbol(), Ok(256));
    assert_eq!(rules_of(&table), vec![(256, vec![257, 1]), (256, vec![256])]);
}

#[test]
fn literal_string_spells_the_bytes() {
    let mut g = Grammar::new().unwrap();
    let sep = g.literal_string(None, "::=").unwrap();
    assert_eq!(sep, Item::Rule(0));
    let e = g.literal_string(Some(sep), "é").unwrap();
    assert_eq!(e, Item::Rule(1));
    let empty = g.literal_string(None, "").unwrap();
    let table = g.unwrap();
    assert_eq!(table.num_symbols(), Ok(258));
    assert_eq!(
        rules_of(&table),
        vec![(256, vec![58, 58, 61]), (256, vec![0xc3, 0xa9]), (257, vec![])]
    );
    assert_eq!(empty, Item::Rule(2));
}

#[test]
fn alternative_adds_one_rule_for_each_side() {
    let mut g = Grammar::new().unwrap();
    let ws = g.string_set(None, "\t\n\r ").unwrap();
    assert_eq!(ws, Item::Rule(4));
    assert_eq!(g.symbol(ws), 256);
    let both = g.alternative(None, &[ws, Item::Symbol(65)]).unwrap();
    assert_eq!(both, Item::Rule(7));
    let none = g.alternative(Some(both), &[]).unwrap();
    assert_eq!(none, Item::Rule(8));
    let table = g.unwrap();
    assert_eq!(table.num_symbols(), Ok(261));
    assert_eq!(
        rules_of(&table),
        vec![
            (257, vec![9]),
            (257, vec![10]),
            (257, vec![13]),
            (257, vec![32]),
            (256, vec![257]),
            (259, vec![256]),
            (259, vec![65]),
            (258, vec![259]),
            (258, vec![260]),
        ]
    );
}

#[test]
fn ranges_and_sets_of_bytes() {
    let mut g = Grammar::new().unwrap();
    let digit = g.char_range(None, '0', '3').unwrap();
    assert_eq!(digit, Item::Rule(4));
    let one = g.byte_range(None, 7, 7).unwrap();
    assert_eq!(one, Item::Rule(6));
    let none = g.byte_range(None, 9, 8).unwrap();
    assert_eq!(none, Item::Rule(7));
    let set = g.byte_set(None, &[5, 5, 250]).unwrap();
    assert_eq!(set, Item::Rule(11));
    let table = g.unwrap();
    assert_eq!(
        rules_of(&table),
        vec![
            (257, vec![48]),
            (257, vec![49]),
            (257, vec![50]),
            (257, vec![51]),
            (256, vec![257]),
            (259, vec![7]),
            (258, vec![259]),
            (260, vec![261]),
            (263, vec![5]),
            (263, vec![5]),
            (263, vec![250]),
            (262, vec![263]),
        ]
    );
}

#[test]
fn whole_byte_range() {
    let mut g = Grammar::new().unwrap();
    let all = g.byte_range(None, 0, 255).unwrap();
    assert_eq!(all, Item::Rule(256));
    let table = g.unwrap();
    assert_eq!(table.rule_rhs(0), Ok(vec![0]));
    assert_eq!(table.rule_rhs(255), Ok(vec![255]));
    assert_eq!(table.rule_rhs(256), Ok(vec![257]));
    assert_eq!(table.rule_lhs(256), Ok(256));
}

#[test]
fn inverse_sets_leave_the_bytes_out() {
    let mut g = Grammar::new().unwrap();
    let not_quote = g.inverse_string_set(None, "\"").unwrap();
    assert_eq!(not_quote, Item::Rule(255));
    let few = g.inverse_byte_set(None, &(2..=255).collect::<Vec<u8>>()).unwrap();
    assert_eq!(few, Item::Rule(258));
    let table = g.unwrap();
    let rules = rules_of(&table);
    assert_eq!(rules.len(), 259);
    for b in 0..34 {
        assert_eq!(rules[b], (257, vec![b as i32]));
    }
    for b in 35..256 {
        assert_eq!(rules[b - 1], (257, vec![b as i32]));
    }
    assert_eq!(rules[255], (256, vec![257]));
    assert_eq!(rules[256], (259, vec![0]));
    assert_eq!(rules[257], (259, vec![1]));
    assert_eq!(rules[258], (258, vec![259]));
}

#[test]
fn repetitions() {
    let mut g = Grammar::new().unwrap();
    let a = Item::Symbol(97);
    let plus = g.plus(None, a).unwrap();
    assert_eq!(plus, Item::Rule(3));
    let star = g.star(Some(plus), a).unwrap();
    assert_eq!(star, Item::Rule(7));
    let maybe = g.maybe(None, star).unwrap();
    assert_eq!(maybe, Item::Rule(10));
    let table = g.unwrap();
    assert_eq!(table.num_symbols(), Ok(256 + 3 + 2 + 2));
    assert_eq!(
        rules_of(&table),
        vec![
            (257, vec![97]),
            (258, vec![257]),
            (258, vec![258, 257]),
            (256, vec![258]),
            (259, vec![97]),
            (260, vec![]),
            (260, vec![260, 259]),
            (256, vec![260]),
            (262, vec![]),
            (262, vec![256]),
            (261, vec![262]),
        ]
    );
}

#[test]
fn sequences() {
    let mut g = Grammar::new().unwrap();
    let item = g.literal_string(None, "ab").unwrap();
    let comma = g.literal_string(None, ",").unwrap();
    let list = g.sequence(None, item, comma, true, false).unwrap();
    assert_eq!(list, Item::Rule(2));
    assert_eq!(g.symbol(list), 258);
    let table = g.unwrap();
    assert_eq!(table.rule_is_sequence(2), Ok(true));
    assert_eq!(table.rule_is_sequence(1), Ok(false));
    assert_eq!(table.rule_lhs(2), Ok(258));
    assert_eq!(table.rule_rhs(2), Ok(vec![256]));
    assert_eq!(table.sequence_separator(2), Ok(257));
    assert_eq!(table.sequence_min(2), Ok(1));
    assert!(!table.rule_def(2).unwrap().sequence.unwrap().proper);
}

#[test]
fn unknown_symbols_are_refused() {
    let mut g = Grammar::new().unwrap();
    assert_eq!(
        g.rule(None, &[Item::Symbol(300)]),
        Err(Fault::Code(ERR_NO_SUCH_SYMBOL_ID))
    );
    assert_eq!(
        g.rule(Some(Item::Symbol(-2)), &[Item::Symbol(1)]),
        Err(Fault::Code(ERR_NO_SUCH_SYMBOL_ID))
    );
    assert!(g.plus(None, Item::Symbol(1000)).is_err());
    assert!(g.star(Some(Item::Symbol(1000)), Item::Symbol(1)).is_err());
    assert!(g.maybe(None, Item::Symbol(-1)).is_err());
    assert!(g.alternative(None, &[Item::Symbol(1), Item::Symbol(5000)]).is_err());
    assert!(g.sequence(None, Item::Symbol(1), Item::Symbol(5000), true, true).is_err());
    assert!(g.set_start(Item::Symbol(5000)).is_err());
    // what was added before the failure stays: eleven symbols and five
    // rules
    assert_eq!(g.table_symbols(), 267);
    // a symbol that the construct itself adds can be named before it is
    // there
    assert_eq!(g.rule(None, &[Item::Symbol(267)]).map(|i| i.rule()), Ok(5));
    let table = g.unwrap();
    assert_eq!(table.rule_lhs(5), Ok(267));
    assert_eq!(table.rule_rhs(5), Ok(vec![267]));
}

#[test]
fn bytes_become_items() {
    assert_eq!(bytes_to_symbols(&[0, 7, 255]), vec![0, 7, 255]);
    assert_eq!(
        bytes_to_items(&[0, 255]),
        vec![Item::Symbol(0), Item::Symbol(255)]
    );
    assert_eq!(string_to_items("a;"), vec![Item::Symbol(97), Item::Symbol(59)]);
    assert_eq!(string_to_items(""), vec![]);
    assert_eq!(low_byte('a'), 97);
    assert_eq!(low_byte('\u{141}'), 0x41);
}
