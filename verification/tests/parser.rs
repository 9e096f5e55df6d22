use marpa::asf::{Traverser, ASF};
use marpa::forest::{AndNode, Forest, OrNode, NONE};
use marpa::lexer::byte_scanner::ByteToken;
use marpa::parser::symbol::Symbol;
use marpa::parser::{MarpaState, Parser, Phase, Reply, Request};
use marpa::result::{
    err, err_code, err_norule, err_nosym, err_notaseq, err_rnotstarted, Fault,
};
use marpa::thin::event::Event;
use marpa::thin::progress::{progress_report, ProgressItem};
use marpa::thin::Grammar;

/// An engine that does what it is asked and counts the tokens it is offered.
struct Engine {
    tokens: Vec<(i32, i32)>,
    next: usize,
    exhausted_after: usize,
    offered: Vec<(i32, i32, i32)>,
    log: Vec<Request>,
}

impl Engine {
    fn new(text: &str, exhausted_after: usize) -> Engine {
        Engine {
            tokens: text.bytes().map(|b| (b as i32, b as i32 + 1)).collect(),
            next: 0,
            exhausted_after,
            offered: Vec::new(),
            log: Vec::new(),
        }
    }

    fn perform(&mut self, request: Request) -> Reply {
        self.log.push(request);
        match request {
            Request::IsExhausted => Reply::Exhausted(self.offered.len() >= self.exhausted_after),
            Request::NextToken => {
                let token = self.tokens.get(self.next).copied();
                self.next += 1;
                Reply::Token(token)
            }
            Request::Alternative(sym, value, len) => {
                self.offered.push((sym, value, len));
                Reply::Done
            }
            _ => Reply::Done,
        }
    }
}

#[test]
fn parser_starts_at_the_grammar() {
    let p = Parser::new();
    assert_eq!(p.state(), MarpaState::G);
    assert_eq!(p.request(), Request::PrecomputeAndRecognize);
    assert_eq!(p.grammar().num_symbols(), Ok(0));
    let mut g = Grammar::new().unwrap();
    g.new_symbol().unwrap();
    let q = Parser::with_grammar(g);
    assert_eq!(q.state(), MarpaState::G);
    assert_eq!(q.grammar().num_symbols(), Ok(1));
    assert_eq!(Parser::default().state(), MarpaState::G);
    assert_eq!(MarpaState::new(), MarpaState::G);
    assert_eq!(MarpaState::default(), MarpaState::G);
}

#[test]
fn engine_goes_round_its_stages() {
    let mut p = Parser::new();
    let mut seen = Vec::new();
    for _ in 0..7 {
        seen.push((p.state(), p.request()));
        assert_eq!(p.adv_marpa(Ok(())), Ok(()));
    }
    assert_eq!(
        seen,
        vec![
            (MarpaState::G, Request::PrecomputeAndRecognize),
            (MarpaState::R, Request::MakeBocage),
            (MarpaState::B, Request::MakeOrder),
            (MarpaState::O, Request::MakeTree),
            (MarpaState::T, Request::Release),
            (MarpaState::GReady, Request::Recognize),
            (MarpaState::R, Request::MakeBocage),
        ]
    );
    assert_eq!(p.adv_marpa(Err(Fault::Code(29))), Err(Fault::Code(29)));
    assert_eq!(p.state(), MarpaState::B);
}

#[test]
fn reading_offers_every_token() {
    let mut p = Parser::new();
    let mut engine = Engine::new("ab", 10);
    let mut reply = Reply::Begin;
    loop {
        match p.read(reply).unwrap() {
            Request::Finished => break,
            request => reply = engine.perform(request),
        }
    }
    assert_eq!(p.state(), MarpaState::R);
    assert_eq!(engine.offered, vec![(97, 98, 1), (98, 99, 1)]);
    assert_eq!(
        engine.log,
        vec![
            Request::PrecomputeAndRecognize,
            Request::StartInput,
            Request::IsExhausted,
            Request::NextToken,
            Request::Alternative(97, 98, 1),
            Request::EarlemeComplete,
            Request::IsExhausted,
            Request::NextToken,
            Request::Alternative(98, 99, 1),
            Request::EarlemeComplete,
            Request::IsExhausted,
            Request::NextToken,
        ]
    );
}

#[test]
fn reading_stops_when_the_recognizer_is_exhausted() {
    let mut p = Parser::new();
    let mut engine = Engine::new("abc", 1);
    let mut reply = Reply::Begin;
    loop {
        match p.read(reply).unwrap() {
            Request::Finished => break,
            request => reply = engine.perform(request),
        }
    }
    assert_eq!(engine.offered, vec![(97, 98, 1)]);
    assert_eq!(engine.log.last(), Some(&Request::IsExhausted));
}

#[test]
fn running_the_recognizer_ends_at_the_tree() {
    let mut p = Parser::new();
    let mut engine = Engine::new("a", 10);
    let mut reply = Reply::Begin;
    loop {
        match p.run_recognizer(reply).unwrap() {
            Request::Finished => break,
            request => reply = engine.perform(request),
        }
    }
    assert_eq!(p.state(), MarpaState::T);
    let tail: Vec<Request> = engine.log[engine.log.len() - 3..].to_vec();
    assert_eq!(tail, vec![Request::MakeBocage, Request::MakeOrder, Request::MakeTree]);
    // the next run goes back through the grammar
    let mut engine = Engine::new("", 10);
    let mut reply = Reply::Begin;
    loop {
        match p.run_recognizer(reply).unwrap() {
            Request::Finished => break,
            request => reply = engine.perform(request),
        }
    }
    assert_eq!(p.state(), MarpaState::T);
    assert_eq!(engine.log[0], Request::Release);
    assert_eq!(engine.log[1], Request::Recognize);
    assert_eq!(engine.log[2], Request::StartInput);
}

#[test]
fn failures_of_the_engine_come_back() {
    let mut p = Parser::new();
    assert_eq!(p.read(Reply::Begin), Ok(Request::PrecomputeAndRecognize));
    assert_eq!(p.read(Reply::Failed(Fault::Code(17))), Err(Fault::Code(17)));
    assert_eq!(p.state(), MarpaState::G);
    assert_eq!(p.read(Reply::Begin), Ok(Request::PrecomputeAndRecognize));
    assert_eq!(p.read(Reply::Done), Ok(Request::StartInput));
    assert_eq!(p.read(Reply::Done), Ok(Request::IsExhausted));
    assert_eq!(p.read(Reply::Token(None)), Err(Fault::UnexpectedReply));
    assert_eq!(p.read(Reply::Done), Err(Fault::UnexpectedReply));
    assert_eq!(p.state(), MarpaState::R);
    assert_eq!(p.read(Reply::Begin), Ok(Request::StartInput));
    assert_eq!(p.run_recognizer(Reply::Done), Ok(Request::IsExhausted));
    assert_eq!(p.run_recognizer(Reply::Exhausted(true)), Ok(Request::MakeBocage));
    assert_eq!(p.run_recognizer(Reply::Exhausted(true)), Err(Fault::UnexpectedReply));
    assert_eq!(p.state(), MarpaState::R);
}

#[test]
fn tokens_are_offered_with_length_one() {
    assert_eq!(Parser::consume_tok(&ByteToken(7)), Request::Alternative(7, 8, 1));
    assert_eq!(Phase::Idle, Phase::Idle);
}

struct First;

impl Traverser for First {
    type ParseTree = usize;
    type ParseState = u8;

    fn traverse_glade(&self, asf: &mut ASF, glade: usize, state: u8) -> Result<(usize, u8), Fault> {
        let here = asf.glade_obtain(glade)?;
        Ok((here.symch_count(), state + 1))
    }
}

#[test]
fn parser_walks_the_forest_of_the_recognizer() {
    let forest = Forest {
        top: 1,
        or_nodes: vec![
            OrNode { rule: 0, position: 1, and_nodes: vec![0] },
            OrNode { rule: NONE, position: 1, and_nodes: vec![1] },
        ],
        and_nodes: vec![
            AndNode { predecessor: NONE, cause: NONE, symbol: 0 },
            AndNode { predecessor: NONE, cause: 0, symbol: NONE },
        ],
        tokens: vec![1],
    };
    let mut p = Parser::new();
    p.adv_marpa(Ok(())).unwrap();
    assert_eq!(p.state(), MarpaState::R);
    assert_eq!(p.parse_and_traverse_forest(forest, 4, First), Ok((1, 5)));
    assert_eq!(p.state(), MarpaState::GReady);
    p.adv_marpa(Ok(())).unwrap();
    let empty = Forest { top: 0, or_nodes: vec![], and_nodes: vec![], tokens: vec![] };
    assert_eq!(p.parse_and_traverse_forest(empty, 4, First), Err(Fault::NullParse));
    assert_eq!(p.state(), MarpaState::GReady);
}

#[test]
fn symbols_of_a_string() {
    assert_eq!(Symbol::from_str("test"), vec![Symbol(116), Symbol(101), Symbol(115), Symbol(116)]);
    assert_eq!(Symbol::from_str(""), vec![]);
    assert_eq!(Symbol::from_str("é"), vec![Symbol(0xc3), Symbol(0xa9)]);
    let s: Symbol = 40u8.into();
    assert_eq!(s, Symbol(40));
    assert_eq!(s.id(), 40);
    let t: Symbol = 300.into();
    assert_eq!(t.id(), 300);
    let r: marpa::parser::rule::Rule = 5.into();
    assert_eq!(r.id(), 5);
}

#[test]
fn failed_results() {
    let a: Result<u8, Fault> = err("no");
    assert_eq!(a, Err(Fault::Message("no".to_string())));
    let b: Result<u8, Fault> = err_code(29);
    assert_eq!(b, Err(Fault::Code(29)));
    let c: Result<(), Fault> = err_nosym();
    assert_eq!(c, Err(Fault::Code(90)));
    let d: Result<(), Fault> = err_norule();
    assert_eq!(d, Err(Fault::Code(89)));
    let e: Result<(), Fault> = err_notaseq();
    assert_eq!(e, Err(Fault::Code(99)));
    let f: Result<(), Fault> = err_rnotstarted();
    assert_eq!(f, Err(Fault::Code(61)));
}

#[test]
fn events_are_read_from_the_engine() {
    assert_eq!(Event::from_code(0, 5), Some(Event::NoEvent));
    assert_eq!(Event::from_code(1, 5), Some(Event::CountedNullable(5)));
    assert_eq!(Event::from_code(2, 5), Some(Event::EarleyItemThreshold(5)));
    assert_eq!(Event::from_code(3, 5), Some(Event::Exhausted));
    assert_eq!(Event::from_code(4, 5), Some(Event::LoopRules(5)));
    assert_eq!(Event::from_code(5, 5), Some(Event::NullingTerminal(5)));
    assert_eq!(Event::from_code(6, 5), Some(Event::SymbolCompleted(5)));
    assert_eq!(Event::from_code(7, 5), Some(Event::SymbolExpected(5)));
    assert_eq!(Event::from_code(8, 5), Some(Event::SymbolNulled(5)));
    assert_eq!(Event::from_code(9, 5), Some(Event::SymbolPredicted(5)));
    assert_eq!(Event::from_code(10, 5), None);
    assert_eq!(Event::from_code(-1, 5), None);
}

#[test]
fn progress_report_keeps_the_first_failure() {
    let a = ProgressItem { rule: 1, pos: 0, origin: 0 };
    let b = ProgressItem { rule: 2, pos: 1, origin: 0 };
    assert_eq!(progress_report(vec![Ok(a), Ok(b)], Ok(())), Ok(vec![a, b]));
    assert_eq!(progress_report(vec![], Ok(())), Ok(vec![]));
    assert_eq!(
        progress_report(vec![Ok(a), Err(Fault::Code(7)), Ok(b), Err(Fault::Code(8))], Ok(())),
        Err(Fault::Code(7))
    );
    assert_eq!(
        progress_report(vec![Ok(a), Err(Fault::Code(7))], Err(Fault::Code(9))),
        Err(Fault::Code(9))
    );
    assert_eq!(progress_report(vec![Ok(a)], Err(Fault::Code(9))), Err(Fault::Code(9)));
}
