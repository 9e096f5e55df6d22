//! The course of a parse.
//!
//! The engine does the parsing; the parser decides what the engine is asked
//! to do next.  It is driven by a loop that carries out each request and
//! comes back with the reply of the engine: the parser takes the reply and
//! hands out the next request, until it hands out `Finished` or fails.
//!
//! The engine goes through its stages in one order: from the grammar to a
//! recognizer, which reads the tokens, to a bocage, an ordering and a tree,
//! and from there back to the grammar, which is then ready for the next
//! input.

pub mod rule;
pub mod symbol;

use vstd::prelude::*;
use crate::asf::{traversed, Traverser, ASF};
use crate::forest::Forest;
use crate::lexer::token::Token;
use crate::result::Fault;
use crate::thin::{Grammar, Symbol};

verus! {

/// The stage at which the engine stands.
#[derive(Debug, Clone, Copy, PartialEq, Eq)]
pub enum MarpaState {
    /// There is a grammar that has not been precomputed.
    G,
    /// There is a precomputed grammar.
    GReady,
    /// There is a recognizer.
    R,
    /// There is a bocage.
    B,
    /// There is an ordering.
    O,
    /// There is a tree.
    T,
}

impl MarpaState {
    /// The first stage.
    pub fn new() -> (s: MarpaState)
        ensures
            s == MarpaState::G,
    {
        MarpaState::G
    }

    /// The stage that follows this one.
    pub open spec fn next(self) -> MarpaState {
        match self {
            MarpaState::G => MarpaState::R,
            MarpaState::GReady => MarpaState::R,
            MarpaState::R => MarpaState::B,
            MarpaState::B => MarpaState::O,
            MarpaState::O => MarpaState::T,
            MarpaState::T => MarpaState::GReady,
        }
    }

    /// What the engine has to do to reach the stage that follows.
    pub open spec fn request(self) -> Request {
        match self {
            MarpaState::G => Request::PrecomputeAndRecognize,
            MarpaState::GReady => Request::Recognize,
            MarpaState::R => Request::MakeBocage,
            MarpaState::B => Request::MakeOrder,
            MarpaState::O => Request::MakeTree,
            MarpaState::T => Request::Release,
        }
    }
}

impl Default for MarpaState {
    fn default() -> (s: MarpaState)
        ensures
            s == MarpaState::G,
    {
        MarpaState::new()
    }
}

/// What the engine is asked to do.
#[derive(Debug, Clone, Copy, PartialEq, Eq)]
pub enum Request {
    /// Precompute the grammar and make a recognizer for it.
    PrecomputeAndRecognize,
    /// Make a recognizer for the precomputed grammar.
    Recognize,
    /// Make the bocage of the recognizer.
    MakeBocage,
    /// Make the ordering of the bocage.
    MakeOrder,
    /// Make the tree of the ordering.
    MakeTree,
    /// Let go of the tree.
    Release,
    /// Start the input.
    StartInput,
    /// Tell whether the recognizer can take no more input.
    IsExhausted,
    /// Fetch the next token from the source.
    NextToken,
    /// Offer a token: its symbol, its value, and its length in the input.
    Alternative(Symbol, i32, i32),
    /// Complete the current place in the input.
    EarlemeComplete,
    /// Nothing more: the work is done.
    Finished,
}

/// What the engine, or the source of tokens, replied to the last request.
#[derive(Debug, Clone, PartialEq, Eq)]
pub enum Reply {
    /// Nothing has been asked yet.
    Begin,
    /// The engine did what it was asked.
    Done,
    /// The engine failed.
    Failed(Fault),
    /// Whether the recognizer can take no more input.
    Exhausted(bool),
    /// The next token, by symbol and value, if there is one.
    Token(Option<(Symbol, i32)>),
}

/// What the parser is in the middle of.
#[derive(Debug, Clone, Copy, PartialEq, Eq)]
pub enum Phase {
    /// Nothing.
    Idle,
    /// Bringing the engine to the recognizer.
    Preparing,
    /// Starting the input.
    Starting,
    /// Asking whether the recognizer is exhausted.
    Asking,
    /// Fetching a token.
    Fetching,
    /// Offering a token.
    Offering,
    /// Completing a place in the input.
    Completing,
    /// The tokens have been read.
    Read,
    /// Bringing the engine to the tree.
    Advancing,
}

/// A parser: a grammar, and where the engine stands with it.
pub struct Parser {
    grammar: Grammar,
    state: MarpaState,
    phase: Phase,
}

/// The length that every token has in the input.
pub const TOKEN_LENGTH: i32 = 1;

/// One step of reading: where the parser stands after `reply`, what it is
/// in the middle of then, and what it asks for or how it fails.  A reply
/// that does not answer what was asked is a failure.
pub open spec fn read_step(state: MarpaState, phase: Phase, reply: Reply) -> (
    MarpaState,
    Phase,
    Result<Request, Fault>,
) {
    match (phase, reply) {
        (Phase::Idle, Reply::Begin) | (Phase::Read, Reply::Begin) => enter(state),
        (Phase::Preparing, Reply::Done) => enter(state.next()),
        (Phase::Starting, Reply::Done) => (state, Phase::Asking, Ok(Request::IsExhausted)),
        (Phase::Asking, Reply::Exhausted(true)) => (state, Phase::Read, Ok(Request::Finished)),
        (Phase::Asking, Reply::Exhausted(false)) => (state, Phase::Fetching, Ok(Request::NextToken)),
        (Phase::Fetching, Reply::Token(None)) => (state, Phase::Read, Ok(Request::Finished)),
        (Phase::Fetching, Reply::Token(Some(tok))) => (
            state,
            Phase::Offering,
            Ok(Request::Alternative(tok.0, tok.1, TOKEN_LENGTH)),
        ),
        (Phase::Offering, Reply::Done) => (state, Phase::Completing, Ok(Request::EarlemeComplete)),
        (Phase::Completing, Reply::Done) => (state, Phase::Asking, Ok(Request::IsExhausted)),
        (_, Reply::Failed(e)) => (state, Phase::Idle, Err(e)),
        _ => (state, Phase::Idle, Err(Fault::UnexpectedReply)),
    }
}

/// Reading begins, or goes on, at stage `state`: at the recognizer the
/// input is started, and at every other stage the engine is asked to move
/// on.
pub open spec fn enter(state: MarpaState) -> (MarpaState, Phase, Result<Request, Fault>) {
    if state == MarpaState::R {
        (state, Phase::Starting, Ok(Request::StartInput))
    } else {
        (state, Phase::Preparing, Ok(state.request()))
    }
}

/// One step of running the recognizer: the tokens are read, and then the
/// engine is asked to move on until there is a tree.
pub open spec fn run_step(state: MarpaState, phase: Phase, reply: Reply) -> (
    MarpaState,
    Phase,
    Result<Request, Fault>,
) {
    match (phase, reply) {
        (Phase::Advancing, Reply::Done) => if state.next() == MarpaState::T {
            (state.next(), Phase::Idle, Ok(Request::Finished))
        } else {
            (state.next(), Phase::Advancing, Ok(state.next().request()))
        },
        (Phase::Advancing, Reply::Failed(e)) => (state, Phase::Idle, Err(e)),
        (Phase::Advancing, _) => (state, Phase::Idle, Err(Fault::UnexpectedReply)),
        _ => {
            let read = read_step(state, phase, reply);
            if read.2 == Ok::<Request, Fault>(Request::Finished) {
                (read.0, Phase::Advancing, Ok(read.0.request()))
            } else {
                read
            }
        },
    }
}

impl Parser {
    /// The stage at which the engine stands.
    pub closed spec fn stage(self) -> MarpaState {
        self.state
    }

    /// What the parser is in the middle of.
    pub closed spec fn phase(self) -> Phase {
        self.phase
    }

    /// The grammar of the parser.
    pub closed spec fn table(self) -> Grammar {
        self.grammar
    }

    /// A parser for the empty grammar.
    pub fn new() -> (p: Parser)
        ensures
            p.stage() == MarpaState::G,
            p.phase() == Phase::Idle,
            p.table()@.wf(),
            p.table()@.symbol_count == 0,
            p.table()@.rules.len() == 0,
    {
        match Grammar::new() {
            Ok(grammar) => Parser { state: MarpaState::new(), grammar, phase: Phase::Idle },
            Err(_) => vstd::pervasive::unreached(),
        }
    }

    /// A parser for `grammar`.
    pub fn with_grammar(grammar: Grammar) -> (p: Parser)
        ensures
            p.stage() == MarpaState::G,
            p.phase() == Phase::Idle,
            p.table() == grammar,
    {
        Parser { state: MarpaState::G, grammar, phase: Phase::Idle }
    }

    /// The grammar, for the engine.
    pub fn grammar(&self) -> (g: &Grammar)
        ensures
            *g == self.table(),
    {
        &self.grammar
    }

    /// The stage at which the engine stands.
    pub fn state(&self) -> (s: MarpaState)
        ensures
            s == self.stage(),
    {
        self.state
    }

    /// What the engine has to do to reach the next stage.
    pub fn request(&self) -> (r: Request)
        ensures
            r == self.stage().request(),
    {
        match self.state {
            MarpaState::G => Request::PrecomputeAndRecognize,
            MarpaState::GReady => Request::Recognize,
            MarpaState::R => Request::MakeBocage,
            MarpaState::B => Request::MakeOrder,
            MarpaState::O => Request::MakeTree,
            MarpaState::T => Request::Release,
        }
    }

    /// Moves to the next stage, where the engine did what the stage asks;
    /// where the engine failed, the parser stays and fails as the engine
    /// did.
    pub fn adv_marpa(&mut self, done: Result<(), Fault>) -> (r: Result<(), Fault>)
        ensures
            done is Ok ==> r is Ok,
            done matches Err(e) ==> (r matches Err(f) && f == e),
            final(self).table() == old(self).table(),
            final(self).phase() == old(self).phase(),
            done is Ok ==> final(self).stage() == old(self).stage().next(),
            done is Err ==> final(self).stage() == old(self).stage(),
    {
        match done {
            Ok(()) => {
                self.state = match self.state {
                    MarpaState::G => MarpaState::R,
                    MarpaState::GReady => MarpaState::R,
                    MarpaState::R => MarpaState::B,
                    MarpaState::B => MarpaState::O,
                    MarpaState::O => MarpaState::T,
                    MarpaState::T => MarpaState::GReady,
                };
                Ok(())
            },
            Err(e) => Err(e),
        }
    }

    /// What is asked of the engine for the token `tok`.
    pub fn consume_tok<U: Token>(tok: &U) -> (r: Request)
        ensures
            r matches Request::Alternative(sym, value, len) && tok.is_sym(sym) && tok.is_value(
                value,
            ) && len == TOKEN_LENGTH,
    {
        Request::Alternative(tok.sym(), tok.value(), TOKEN_LENGTH)
    }

    fn enter(&mut self) -> (r: Result<Request, Fault>)
        ensures
            final(self).table() == old(self).table(),
            (final(self).stage(), final(self).phase(), r) == enter(old(self).stage()),
    {
        match self.state {
            MarpaState::R => {
                self.phase = Phase::Starting;
                Ok(Request::StartInput)
            },
            _ => {
                self.phase = Phase::Preparing;
                Ok(self.request())
            },
        }
    }

    /// One step of reading the tokens.  Begun with `Reply::Begin`, the
    /// parser brings the engine to the recognizer, starts the input, and
    /// then offers token after token, until the recognizer is exhausted or
    /// the tokens have run out.
    pub fn read(&mut self, reply: Reply) -> (r: Result<Request, Fault>)
        ensures
            final(self).table() == old(self).table(),
            (final(self).stage(), final(self).phase(), r) == read_step(
                old(self).stage(),
                old(self).phase(),
                reply,
            ),
    {
        match reply {
            Reply::Failed(e) => {
                self.phase = Phase::Idle;
                Err(e)
            },
            Reply::Begin => match self.phase {
                Phase::Idle => self.enter(),
                Phase::Read => self.enter(),
                _ => self.unexpected(),
            },
            Reply::Done => match self.phase {
                Phase::Preparing => {
                    let _ = self.adv_marpa(Ok(()));
                    self.enter()
                },
                Phase::Starting => self.ask(),
                Phase::Offering => {
                    self.phase = Phase::Completing;
                    Ok(Request::EarlemeComplete)
                },
                Phase::Completing => self.ask(),
                _ => self.unexpected(),
            },
            Reply::Exhausted(exhausted) => match self.phase {
                Phase::Asking => {
                    if exhausted {
                        self.phase = Phase::Read;
                        Ok(Request::Finished)
                    } else {
                        self.phase = Phase::Fetching;
                        Ok(Request::NextToken)
                    }
                },
                _ => self.unexpected(),
            },
            Reply::Token(token) => match self.phase {
                Phase::Fetching => match token {
                    None => {
                        self.phase = Phase::Read;
                        Ok(Request::Finished)
                    },
                    Some(tok) => {
                        self.phase = Phase::Offering;
                        Ok(Request::Alternative(tok.0, tok.1, TOKEN_LENGTH))
                    },
                },
                _ => self.unexpected(),
            },
        }
    }

    fn ask(&mut self) -> (r: Result<Request, Fault>)
        ensures
            final(self).table() == old(self).table(),
            final(self).stage() == old(self).stage(),
            final(self).phase() == Phase::Asking,
            r == Ok::<Request, Fault>(Request::IsExhausted),
    {
        self.phase = Phase::Asking;
        Ok(Request::IsExhausted)
    }

    fn unexpected(&mut self) -> (r: Result<Request, Fault>)
        ensures
            final(self).table() == old(self).table(),
            final(self).stage() == old(self).stage(),
            final(self).phase() == Phase::Idle,
            r == Err::<Request, Fault>(Fault::UnexpectedReply),
    {
        self.phase = Phase::Idle;
        Err(Fault::UnexpectedReply)
    }

    /// One step of running the recognizer.  Begun with `Reply::Begin`, the
    /// parser reads the tokens and then brings the engine to the tree.
    pub fn run_recognizer(&mut self, reply: Reply) -> (r: Result<Request, Fault>)
        ensures
            final(self).table() == old(self).table(),
            (final(self).stage(), final(self).phase(), r) == run_step(
                old(self).stage(),
                old(self).phase(),
                reply,
            ),
    {
        match self.phase {
            Phase::Advancing => match reply {
                Reply::Done => {
                    let _ = self.adv_marpa(Ok(()));
                    match self.state {
                        MarpaState::T => {
                            self.phase = Phase::Idle;
                            Ok(Request::Finished)
                        },
                        _ => Ok(self.request()),
                    }
                },
                Reply::Failed(e) => {
                    self.phase = Phase::Idle;
                    Err(e)
                },
                _ => self.unexpected(),
            },
            _ => {
                match self.read(reply) {
                    Ok(Request::Finished) => {
                        self.phase = Phase::Advancing;
                        Ok(self.request())
                    },
                    other => other,
                }
            },
        }
    }

    /// Walks the forest of what the recognizer has read.  The engine must
    /// stand at the recognizer, which the parser lets go of, and `forest`
    /// must be the forest of that recognizer.
    pub fn parse_and_traverse_forest<V: Traverser>(
        &mut self,
        forest: Forest,
        init_state: V::ParseState,
        traverser: V,
    ) -> (r: Result<(V::ParseTree, V::ParseState), Fault>)
        requires
            old(self).stage() == MarpaState::R,
        ensures
            final(self).table() == old(self).table(),
            final(self).stage() == MarpaState::GReady,
            final(self).phase() == Phase::Idle,
            forest.is_null() ==> (r matches Err(e) && e == Fault::NullParse),
            !forest.is_null() && !forest.wf() ==> (r matches Err(e) && e == Fault::MalformedForest),
            !forest.is_null() && forest.wf() ==> exists|before: ASF, after: ASF|
                #![trigger before.wf(), after.wf()]
                before.wf() && before@.forest == forest && before@.nidsets.len() == 0
                    && after.wf() && traversed(traverser, before@, init_state, after@, r),
    {
        self.state = MarpaState::GReady;
        self.phase = Phase::Idle;
        let mut asf = match ASF::new(forest) {
            Ok(asf) => asf,
            Err(e) => {
                return Err(e);
            },
        };
        let ghost before = asf;
        let r = asf.traverse(init_state, traverser);
        proof {
            assert(before.wf() && asf.wf());
        }
        r
    }
}

impl Default for Parser {
    fn default() -> (p: Parser)
        ensures
            p.stage() == MarpaState::G,
            p.phase() == Phase::Idle,
    {
        Parser::new()
    }
}

} // verus!
