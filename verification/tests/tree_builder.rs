use marpa::lexer::byte_scanner::ByteToken;
use marpa::result::Fault;
use marpa::stack::processor::Processor;
use marpa::stack::{proc_value, Stack};
use marpa::thin::step::{RawStep, Step, STEP_INITIAL, STEP_RULE};
use marpa::tree_builder::builder::{rollup_rule, rollup_token, TreeBuilder};
use marpa::tree_builder::tree::{Handle, Node};

fn leaf(b: u8) -> Handle<ByteToken> {
    Handle::new(Node::leaf(ByteToken(b)))
}

fn tree(rule: i32, children: Vec<Handle<ByteToken>>) -> Handle<ByteToken> {
    Handle::new(Node::tree(rule, children))
}

#[test]
fn builder_remembers_the_rules() {
    let mut b = TreeBuilder::new();
    assert!(!b.is_token(3));
    assert!(!b.is_rule(3));
    assert!(!b.is_discard(3));
    b.token(3);
    b.rule(4);
    b.discard(5);
    b.rule(3);
    assert!(b.is_token(3));
    assert!(b.is_rule(3));
    assert!(b.is_rule(4));
    assert!(b.is_discard(5));
    assert!(!b.is_token(4));
    assert!(!b.is_discard(4));
    let mut d = TreeBuilder::default();
    assert!(!d.is_token(3) && !d.is_rule(4) && !d.is_discard(5));
}

#[test]
fn nodes_render_as_text() {
    assert_eq!(Node::<ByteToken>::null(7).render(), "Null(7)");
    assert_eq!(Node::<ByteToken>::default().render(), "Null(-1)");
    assert_eq!(Handle::<ByteToken>::default().render(), "Null(-1)");
    assert_eq!(Node::leaf(ByteToken(b'a')).render(), "Leaf('a')");
    assert_eq!(Node::leaf(ByteToken(0xe9)).render(), "Leaf(e9)");
    assert_eq!(ByteToken(b'\'').render(), "'''");
    assert_eq!(ByteToken(0x80).render(), "80");
    assert_eq!(ByteToken(0xff).render(), "ff");
    assert_eq!(ByteToken(0x0f).render(), "'\u{f}'");
    assert_eq!(Node::<ByteToken>::token(12, b"test".to_vec()).render(), "Token(12, \"test\")");
    assert_eq!(Node::<ByteToken>::token(-3, vec![255, 1]).render(), "Token(-3, [255, 1])");
    assert_eq!(Node::<ByteToken>::token(0, vec![]).render(), "Token(0, \"\")");
    assert_eq!(Node::<ByteToken>::tree(5, vec![]).render(), "Tree(5,)");
    let inner = tree(2, vec![leaf(b'x'), Handle::new(Node::null(9))]);
    let outer = Node::rule(1, vec![inner, Handle::new(Node::token(4, b"ab".to_vec()))]);
    assert_eq!(outer.render(), "Rule(1, Tree(2, Leaf('x') Null(9)) Token(4, \"ab\"))");
}

#[test]
fn token_rollup_collects_the_bytes() {
    let children = vec![
        leaf(b'a'),
        Handle::new(Node::null(1)),
        tree(2, vec![leaf(b'b'), tree(3, vec![leaf(b'c')])]),
        leaf(b'd'),
    ];
    assert_eq!(rollup_token(&children), Ok(b"abcd".to_vec()));
    assert_eq!(rollup_token(&[]), Ok(vec![]));
    let with_token = vec![leaf(b'a'), Handle::new(Node::token(1, vec![]))];
    assert_eq!(rollup_token(&with_token), Err(Fault::MarkedNodeInToken));
    let with_rule = vec![tree(1, vec![Handle::new(Node::rule(2, vec![]))]), leaf(b'z')];
    assert_eq!(rollup_token(&with_rule), Err(Fault::MarkedNodeInToken));
}

#[test]
fn rule_rollup_collects_the_marked_nodes() {
    let children = vec![
        leaf(b'a'),
        Handle::new(Node::token(1, b"x".to_vec())),
        tree(2, vec![Handle::new(Node::rule(3, vec![leaf(b'q')])), Handle::new(Node::null(4))]),
        Handle::new(Node::token(5, b"y".to_vec())),
    ];
    let kept: Vec<String> = rollup_rule(&children).iter().map(|h| h.render()).collect();
    assert_eq!(kept, vec!["Token(1, \"x\")", "Rule(3, Leaf('q'))", "Token(5, \"y\")"]);
    assert!(rollup_rule(&[leaf(b'a')]).is_empty());
}

#[test]
fn builder_makes_what_it_was_told() {
    let mut b = TreeBuilder::new();
    b.token(1);
    b.rule(2);
    b.discard(3);
    let children = vec![leaf(b'h'), tree(9, vec![leaf(b'i')])];
    assert_eq!(b.proc_rule(1, &children).unwrap().render(), "Token(1, \"hi\")");
    assert_eq!(b.build_rule(1, &children).unwrap().render(), "Token(1, \"hi\")");
    let word = b.proc_rule(1, &children).unwrap();
    assert_eq!(b.proc_rule(2, &[leaf(b'x'), word.clone()]).unwrap().render(), "Rule(2, Token(1, \"hi\"))");
    assert_eq!(b.proc_rule(3, &children).unwrap().render(), "Null(0)");
    assert_eq!(
        b.proc_rule(4, &children).unwrap().render(),
        "Tree(4, Leaf('h') Tree(9, Leaf('i')))"
    );
    assert_eq!(b.proc_rule(1, &[word]).map(|h| h.render()), Err(Fault::MarkedNodeInToken));
    assert_eq!(b.proc_token(ByteToken(b'z')).unwrap().render(), "Leaf('z')");
    assert_eq!(b.proc_null(6).unwrap().render(), "Null(6)");
    match word_node(&b.proc_null(6).unwrap()) {
        Node::Null(6) => {}
        _ => panic!("not the empty node"),
    }
}

fn word_node(h: &Handle<ByteToken>) -> &Node<ByteToken> {
    h.node()
}

fn steps_for_ab() -> Vec<Step> {
    vec![
        Step::token(b'a' as i32, 0, b'a' as i32 + 1),
        Step::token(b'b' as i32, 1, b'b' as i32 + 1),
        Step::rule(1, 0, 1),
        Step::nulling_symbol(300, 1),
        Step::rule(2, 0, 1),
    ]
}

#[test]
fn evaluation_builds_the_tree() {
    let mut b = TreeBuilder::new();
    b.token(1);
    b.rule(2);
    let tree = proc_value(b, steps_for_ab()).unwrap();
    assert_eq!(tree.render(), "Rule(2, Token(1, \"ab\"))");
    let plain = proc_value(TreeBuilder::new(), steps_for_ab()).unwrap();
    assert_eq!(plain.render(), "Tree(2, Tree(1, Leaf('a') Leaf('b')) Null(300))");
    let nothing = proc_value(TreeBuilder::new(), vec![]).unwrap();
    assert_eq!(nothing.render(), "Null(-1)");
}

#[test]
fn evaluation_refuses_bad_steps() {
    assert!(matches!(
        proc_value(TreeBuilder::new(), vec![Step::Inactive]),
        Err(Fault::InvalidStep)
    ));
    assert!(matches!(
        proc_value(TreeBuilder::new(), vec![Step::token(1, 0, 2), Step::Initial]),
        Err(Fault::InvalidStep)
    ));
    assert!(matches!(
        proc_value(TreeBuilder::new(), vec![Step::token(1, -1, 2)]),
        Err(Fault::InvalidStep)
    ));
    assert!(matches!(
        proc_value(TreeBuilder::new(), vec![Step::rule(1, 2, 1)]),
        Err(Fault::InvalidStep)
    ));
    assert!(matches!(
        proc_value(TreeBuilder::new(), vec![Step::nulling_symbol(1, -5)]),
        Err(Fault::InvalidStep)
    ));
    let mut b = TreeBuilder::new();
    b.token(1);
    b.token(2);
    let nested = vec![Step::token(65, 0, 66), Step::rule(1, 0, 0), Step::rule(2, 0, 0)];
    assert!(matches!(proc_value(b, nested), Err(Fault::MarkedNodeInToken)));
}

#[test]
fn stack_grows_with_the_steps() {
    let mut stack = Stack::new(TreeBuilder::new());
    stack.size_stack(3);
    assert_eq!(stack.step(Step::token(65, 5, 66)), Ok(()));
    assert_eq!(stack.step(Step::rule(7, 4, 5)), Ok(()));
    assert_eq!(stack.step(Step::Inactive), Err(Fault::InvalidStep));
    let top = stack.proc_value(&vec![Step::rule(8, 0, 4)]).unwrap();
    assert_eq!(
        top.render(),
        "Tree(8, Null(-1) Null(-1) Null(-1) Null(-1) Tree(7, Null(-1) Leaf('A')))"
    );
}

#[test]
fn steps_are_read_from_the_engine() {
    let raw = RawStep { kind: STEP_RULE, rule_id: 4, token_id: 5, token_value: 6, result: 1, arg_n: 3 };
    assert_eq!(Step::from_raw(raw), Some(Step::Rule(4, 1, 3)));
    assert_eq!(Step::from_raw(RawStep { kind: 2, ..raw }), Some(Step::Token(5, 1, 6)));
    assert_eq!(Step::from_raw(RawStep { kind: 3, ..raw }), Some(Step::NullingSymbol(5, 1)));
    assert_eq!(Step::from_raw(RawStep { kind: 5, ..raw }), Some(Step::Inactive));
    assert_eq!(Step::from_raw(RawStep { kind: STEP_INITIAL, ..raw }), Some(Step::Initial));
    for kind in [0, 4, 6, 8, -1] {
        assert_eq!(Step::from_raw(RawStep { kind, ..raw }), None);
    }
    assert!(Step::Rule(1, 2, 3).is_work());
    assert!(!Step::Initial.is_work());
    assert!(!Step::Inactive.is_work());
}
