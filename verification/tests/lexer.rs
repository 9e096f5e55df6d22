use marpa::lexer::lex::{LexGen, Token};
use marpa::lexer::pattern::{parse_expr, print_expr, remove_captures, remove_captures_expr, Expr, Grouping};
use marpa::result::Fault;

#[test]
fn asdf() {
    let input = "this is a test";
    let mut lex = {
        let mut gen = LexGen::new();
        for i in vec![r"is", r"test", r"this", r"a|b", r" "] {
            gen.new_re(i).unwrap();
        }
        gen.compile().unwrap()
    };

    while let Some(_) = lex.next_token(input) {}

    let types: Vec<usize> = lex.tokens().iter().map(|t| t.ty).collect();
    let texts: Vec<&str> = lex.tokens().iter().map(|t| lex.token_text(*t, input)).collect();

    assert!(types == vec![2, 4, 0, 4, 3, 4, 1,]);
    assert!(texts == vec!["this", " ", "is", " ", "a", " ", "test",]);
}

#[test]
fn tokens_are_numbered_from_one() {
    let mut gen = LexGen::new();
    gen.new_re("a+").unwrap();
    gen.new_re("b").unwrap();
    assert_eq!(gen.pattern(), "(^a+)|(^b)");
    let mut lex = gen.compile().unwrap();
    assert_eq!(lex.remaining_text("aab"), Some("aab"));
    assert_eq!(lex.next_token("aab"), Some((Token { start: 0, end: 2, ty: 0 }, 1)));
    assert_eq!(lex.remaining_text("aab"), Some("b"));
    assert_eq!(lex.next_token("aab"), Some((Token { start: 2, end: 3, ty: 1 }, 2)));
    assert_eq!(lex.remaining_text("aab"), Some(""));
    assert_eq!(lex.next_token("aab"), None);
    assert_eq!(lex.next_token("aab"), None);
    assert_eq!(lex.token(1), Some(Token { start: 0, end: 2, ty: 0 }));
    assert_eq!(lex.token(2), Some(Token { start: 2, end: 3, ty: 1 }));
    assert_eq!(lex.token(3), None);
    assert_eq!(lex.tokens().len(), 2);
    assert_eq!(lex.token_text(Token { start: 1, end: 3, ty: 0 }, "aab"), "ab");
    // the input has ended before the place of the next token
    assert_eq!(lex.remaining_text("aa"), None);
    assert_eq!(lex.next_token("aa"), None);
}

#[test]
fn lexer_stops_where_nothing_matches() {
    let mut gen = LexGen::new();
    gen.new_re("x").unwrap();
    let mut lex = gen.compile().unwrap();
    assert_eq!(lex.next_token("xy"), Some((Token { start: 0, end: 1, ty: 0 }, 1)));
    assert_eq!(lex.next_token("xy"), None);
    assert_eq!(lex.tokens().len(), 1);
}

#[test]
fn lexer_keeps_to_characters() {
    let mut gen = LexGen::new();
    gen.new_re("é").unwrap();
    gen.new_re("x").unwrap();
    let mut lex = gen.compile().unwrap();
    assert_eq!(lex.next_token("éx"), Some((Token { start: 0, end: 2, ty: 0 }, 1)));
    assert_eq!(lex.token_text(Token { start: 0, end: 2, ty: 0 }, "éx"), "é");
    assert!(lex.has_text(Token { start: 0, end: 2, ty: 0 }, "éx"));
    assert!(!lex.has_text(Token { start: 1, end: 2, ty: 0 }, "éx"));
    assert!(!lex.has_text(Token { start: 2, end: 0, ty: 0 }, "éx"));
    assert!(!lex.has_text(Token { start: 0, end: 4, ty: 0 }, "éx"));
    // in this input the place of the next token lies inside a character
    assert_eq!(lex.remaining_text("xé"), None);
    assert_eq!(lex.next_token("xé"), None);
    assert_eq!(lex.next_token("éx"), Some((Token { start: 2, end: 3, ty: 1 }, 2)));
}

#[test]
fn lexer_without_patterns_finds_nothing() {
    let gen = LexGen::new();
    assert_eq!(gen.pattern(), "");
    let mut lex = gen.compile().unwrap();
    assert_eq!(lex.next_token("abc"), None);
    assert_eq!(lex.next_token(""), None);
}

#[test]
fn captures_are_taken_out() {
    assert_eq!(remove_captures("is"), Ok("is".to_string()));
    assert_eq!(remove_captures("a|b"), Ok("a|b".to_string()));
    assert_eq!(remove_captures("(a)"), Ok("(?:a)".to_string()));
    assert_eq!(remove_captures("(a)(?P<n>b)(?:c)"), Ok("(?:a)(?:b)(?:c)".to_string()));
    assert_eq!(remove_captures("(?<n>b)"), Ok("(?:b)".to_string()));
    assert_eq!(remove_captures("((a)|(b))*x?"), Ok("(?:(?:a)|(?:b))*x?".to_string()));
    assert_eq!(remove_captures("(?i:(a)+?)"), Ok("(?i:(?:a)+?)".to_string()));
    assert_eq!(remove_captures("[a-z]{2,3}\\d"), Ok("[a-z]{2,3}\\d".to_string()));
    assert_eq!(remove_captures(""), Ok("".to_string()));
}

#[test]
fn bad_pattern_is_refused() {
    assert!(matches!(remove_captures("(a"), Err(Fault::Pattern(_))));
    assert!(matches!(remove_captures("a)"), Err(Fault::Pattern(_))));
    assert!(matches!(parse_expr("[a"), Err(Fault::Pattern(_))));
    let mut gen = LexGen::new();
    gen.new_re("ok").unwrap();
    assert!(matches!(gen.new_re("*"), Err(Fault::Pattern(_))));
    assert_eq!(gen.pattern(), "(^ok)");
}

#[test]
fn captured_patterns_keep_their_types() {
    let mut gen = LexGen::new();
    gen.new_re("(a)(b)").unwrap();
    gen.new_re("(c)").unwrap();
    assert_eq!(gen.pattern(), "(^(?:a)(?:b))|(^(?:c))");
    let mut lex = gen.compile().unwrap();
    assert_eq!(lex.next_token("abc"), Some((Token { start: 0, end: 2, ty: 0 }, 1)));
    assert_eq!(lex.next_token("abc"), Some((Token { start: 2, end: 3, ty: 1 }, 2)));
}

#[test]
fn pattern_tree_shows_the_groups() {
    let expr = parse_expr("(a)|b").unwrap();
    match &expr {
        Expr::Alternate(sides) => {
            assert_eq!(sides.len(), 2);
            assert!(matches!(
                &sides[0],
                Expr::Group { kind: Grouping::CaptureIndex(1), .. }
            ));
            assert!(matches!(&sides[1], Expr::Other(_)));
        }
        _ => panic!("not a choice"),
    }
    let plain = remove_captures_expr(expr);
    match &plain {
        Expr::Alternate(sides) => {
            assert!(matches!(&sides[0], Expr::Group { kind: Grouping::NonCapturing(_), .. }));
        }
        _ => panic!("not a choice"),
    }
    assert_eq!(print_expr(plain), "(?:a)|b");
    let named = parse_expr("(?P<word>x)").unwrap();
    assert!(matches!(
        &named,
        Expr::Group { kind: Grouping::CaptureName { starts_with_p: true, index: 1, .. }, .. }
    ));
    assert_eq!(print_expr(named), "(?P<word>x)");
    assert_eq!(print_expr(parse_expr("a{2}(b)c").unwrap()), "a{2}(b)c");
}
