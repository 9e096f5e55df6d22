//! A lexer over several patterns.
//!
//! The patterns are tried together at the place where the last token ended.
//! The type of a token is the number of the pattern that matched it, in the
//! order in which the patterns were given.

use vstd::prelude::*;
use vstd::string::{StringExecFns, StringSliceAdditionalSpecFns};
use vstd::utf8::is_char_boundary;
use crate::lexer::pattern::{pattern_parses, remove_captures};
use crate::result::Fault;

verus! {

/// A lexed token: where it starts and ends in the input, and its type.
#[derive(Copy, Clone, Debug, PartialEq, Eq)]
pub struct Token {
    /// The place of the first byte.
    pub start: usize,
    /// The place after the last byte.
    pub end: usize,
    /// The number of the pattern that matched.
    pub ty: usize,
}

/// The patterns of a lexer that is being put together.
pub struct LexGen {
    re_strings: Vec<String>,
}

/// A lexer: the patterns as one, the tokens found so far, and the place in
/// the input where the next token starts.
pub struct Lexer {
    re: regex::Regex,
    tokens: Vec<Token>,
    pos: usize,
}

/// The one pattern that tries the first `n` of `res`: each in a group of its
/// own, tied to the start of the text, with bars between the groups.
pub open spec fn joined(res: Seq<String>, n: int) -> Seq<char>
    decreases n,
{
    if n <= 0 || n > res.len() {
        Seq::empty()
    } else if n == 1 {
        "("@ + "^"@ + res[0]@ + ")"@
    } else {
        joined(res, n - 1) + "|"@ + "("@ + "^"@ + res[n - 1]@ + ")"@
    }
}

/// The first group after the whole match that took part in the match.
pub open spec fn first_group(spans: Seq<Option<(usize, usize)>>, upto: int) -> Option<int>
    decreases upto,
{
    if upto <= 1 || upto > spans.len() {
        None
    } else {
        match first_group(spans, upto - 1) {
            Some(i) => Some(i),
            None => if spans[upto - 1] is Some {
                Some(upto - 1)
            } else {
                None
            },
        }
    }
}

/// Where group `i` of a match ends, or 0 where it took no part.
pub open spec fn span_end(spans: Seq<Option<(usize, usize)>>, i: int) -> usize {
    match spans[i] {
        Some(span) => span.1,
        None => 0,
    }
}

/// Compiles a pattern, by `regex::Regex::new`.
#[verifier::external_body]
fn compile_pattern(pattern: &str) -> Result<regex::Regex, regex::Error> {
    regex::Regex::new(pattern)
}

/// The words of a failure to compile, as `regex::Error` displays itself.
#[verifier::external_body]
fn describe(error: &regex::Error) -> String {
    format!("{}", error)
}

/// Where the groups of the leftmost match of `re` in `text` start and end,
/// by `Regex::captures`, with `Match::start` and `Match::end` for every
/// group of `Captures::iter`; nothing where there is no match.  There is at
/// least the group of the whole match, which always took part; a group that
/// took part starts no later than it ends and lies within the text.
#[verifier::external_body]
fn group_spans(re: &regex::Regex, text: &str) -> (r: Option<Vec<Option<(usize, usize)>>>)
    ensures
        r matches Some(spans) ==> spans@.len() >= 1 && spans@[0] is Some && forall|i: int|
            0 <= i < spans@.len() ==> (#[trigger] spans@[i] matches Some(span) ==> span.0 <= span.1
                <= text.spec_bytes().len()),
{
    re.captures(text).map(|caps| caps.iter().map(|m| m.map(|m| (m.start(), m.end()))).collect())
}

/// The part of `text` from byte `start` up to byte `end`, by `str::get`:
/// there is such a part where the two places are in order, within the text
/// and between characters, and nowhere else.
#[verifier::external_body]
fn slice_text<'a>(text: &'a str, start: usize, end: usize) -> (r: Option<&'a str>)
    ensures
        r is Some <==> text_has(text, start, end),
        r matches Some(part) ==> part.spec_bytes() == text.spec_bytes().subrange(
            start as int,
            end as int,
        ),
{
    text.get(start..end)
}

/// Whether `text` has a part from byte `start` up to byte `end`.
pub open spec fn text_has(text: &str, start: usize, end: usize) -> bool {
    &&& start <= end <= text.spec_bytes().len()
    &&& is_char_boundary(text.spec_bytes(), start as int)
    &&& is_char_boundary(text.spec_bytes(), end as int)
}

impl LexGen {
    /// The patterns given so far.
    pub closed spec fn patterns(self) -> Seq<String> {
        self.re_strings@
    }

    /// A lexer without patterns.
    pub fn new() -> (g: LexGen)
        ensures
            g.patterns() == Seq::<String>::empty(),
    {
        LexGen { re_strings: Vec::new() }
    }

    /// Adds the pattern `s`, with its captures taken out.  Fails, with
    /// nothing added, where `s` is not a pattern.
    pub fn new_re(&mut self, s: &str) -> (r: Result<(), Fault>)
        ensures
            r is Ok <==> pattern_parses(s@),
            r is Ok ==> final(self).patterns().len() == old(self).patterns().len() + 1 && final(self).patterns().subrange(0, old(self).patterns().len() as int) == old(self).patterns(),
            r matches Err(e) ==> e is Pattern && final(self).patterns() == old(self).patterns(),
    {
        match remove_captures(s) {
            Ok(plain) => {
                self.re_strings.push(plain);
                proof {
                    assert(self.patterns().subrange(0, old(self).patterns().len() as int)
                        =~= old(self).patterns());
                }
                Ok(())
            },
            Err(e) => Err(e),
        }
    }

    /// The one pattern that tries all the patterns given.
    pub fn pattern(&self) -> (p: String)
        ensures
            p@ == joined(self.patterns(), self.patterns().len() as int),
    {
        let mut re_buf = String::new();
        let mut i: usize = 0;
        while i < self.re_strings.len()
            invariant
                i <= self.re_strings@.len(),
                re_buf@ == joined(self.re_strings@, i as int),
            decreases self.re_strings@.len() - i,
        {
            if i > 0 {
                re_buf.append("|");
            }
            re_buf.append("(");
            re_buf.append("^");
            re_buf.append(self.re_strings[i].as_str());
            re_buf.append(")");
            proof {
                assert(re_buf@ =~= joined(self.re_strings@, i as int + 1));
            }
            i += 1;
        }
        re_buf
    }

    /// The lexer for the patterns given.  Fails where the patterns together
    /// are more than the compiler of patterns takes.
    pub fn compile(&self) -> (r: Result<Lexer, Fault>)
        ensures
            r matches Ok(lexer) ==> lexer.found() == Seq::<Token>::empty() && lexer.position() == 0,
            r matches Err(e) ==> e is Pattern,
    {
        let re_buf = self.pattern();
        match compile_pattern(re_buf.as_str()) {
            Ok(re) => Ok(Lexer { re, tokens: Vec::new(), pos: 0 }),
            Err(e) => Err(Fault::Pattern(describe(&e))),
        }
    }
}

impl Lexer {
    /// The tokens found so far.
    pub closed spec fn found(self) -> Seq<Token> {
        self.tokens@
    }

    /// The place in the input where the next token starts.
    pub closed spec fn position(self) -> nat {
        self.pos as nat
    }

    /// The token with the number `ix`, counted from one.
    pub fn token(&self, ix: usize) -> (r: Option<Token>)
        requires
            ix >= 1,
        ensures
            ix <= self.found().len() ==> r == Some(self.found()[ix - 1]),
            ix > self.found().len() ==> r is None,
    {
        if ix - 1 < self.tokens.len() {
            Some(self.tokens[ix - 1])
        } else {
            None
        }
    }

    /// The tokens found so far.
    pub fn tokens(&self) -> (r: &Vec<Token>)
        ensures
            r@ == self.found(),
    {
        &self.tokens
    }

    /// Whether `input` has a text for the token `tok`: whether the token
    /// lies within it and between characters.
    pub fn has_text(&self, tok: Token, input: &str) -> (b: bool)
        ensures
            b == text_has(input, tok.start, tok.end),
    {
        slice_text(input, tok.start, tok.end).is_some()
    }

    /// The text of the token `tok` in `input`.
    pub fn token_text<'a>(&self, tok: Token, input: &'a str) -> (r: &'a str)
        requires
            text_has(input, tok.start, tok.end),
        ensures
            r.spec_bytes() == input.spec_bytes().subrange(tok.start as int, tok.end as int),
    {
        match slice_text(input, tok.start, tok.end) {
            Some(text) => text,
            None => vstd::pervasive::unreached(),
        }
    }

    /// The text of `input` from where the next token starts, where there is
    /// such a text.
    pub fn remaining_text<'a>(&self, input: &'a str) -> (r: Option<&'a str>)
        ensures
            r is Some <==> self.position() <= input.spec_bytes().len() && is_char_boundary(
                input.spec_bytes(),
                self.position() as int,
            ),
            r matches Some(rest) ==> rest.spec_bytes() == input.spec_bytes().subrange(
                self.position() as int,
                input.spec_bytes().len() as int,
            ),
    {
        let len = input.as_bytes().len();
        proof {
            vstd::utf8::encode_utf8_valid_utf8(input@);
            vstd::utf8::is_char_boundary_start_end_of_seq(input.spec_bytes());
        }
        slice_text(input, self.pos, len)
    }

    /// Records a token of type `ty` that is `len` bytes long and starts
    /// where the last one ended.  Returns the token and its number.
    pub fn new_token(&mut self, len: usize, ty: usize) -> (r: (Token, usize))
        requires
            old(self).position() + len <= usize::MAX,
        ensures
            r.0 == (Token {
                start: old(self).position() as usize,
                end: (old(self).position() + len) as usize,
                ty,
            }),
            r.1 == old(self).found().len() + 1,
            final(self).found() == old(self).found().push(r.0),
            final(self).position() == old(self).position() + len,
    {
        let start = self.pos;
        self.pos += len;
        let tok = Token { start, end: self.pos, ty };
        self.tokens.push(tok);
        (tok, self.tokens.len())
    }

    /// What the lexer makes of a match: the first group after the whole
    /// match that took part tells the type of the token, and where the group
    /// ends tells its length.  A match in which no such group took part
    /// gives no token.
    pub fn token_from_spans(&mut self, spans: &Vec<Option<(usize, usize)>>) -> (r: Option<
        (Token, usize),
    >)
        requires
            forall|i: int|
                0 <= i < spans@.len() ==> (#[trigger] spans@[i] matches Some(span) ==> old(self).position() + span.1 <= usize::MAX),
        ensures
            match first_group(spans@, spans@.len() as int) {
                Some(i) => r matches Some(found) && found.0 == (Token {
                    start: old(self).position() as usize,
                    end: (old(self).position() + span_end(spans@, i)) as usize,
                    ty: (i - 1) as usize,
                }) && found.1 == old(self).found().len() + 1 && final(self).found() == old(self).found().push(found.0) && final(self).position() == old(self).position()
                    + span_end(spans@, i),
                None => r is None && final(self).found() == old(self).found() && final(self).position() == old(self).position(),
            },
    {
        let mut i: usize = 1;
        while i < spans.len()
            invariant
                1 <= i,
                first_group(spans@, if i <= spans@.len() {
                    i as int
                } else {
                    spans@.len() as int
                }) is None,
                *self == *old(self),
                forall|k: int|
                    0 <= k < spans@.len() ==> (#[trigger] spans@[k] matches Some(span) ==> old(self).position() + span.1 <= usize::MAX),
            decreases spans@.len() - i,
        {
            match spans[i] {
                Some(span) => {
                    proof {
                        lemma_first_group_found(spans@, i as int + 1, spans@.len() as int);
                    }
                    return Some(self.new_token(span.1, i - 1));
                },
                None => {},
            }
            i += 1;
        }
        None
    }

    /// Maybe the next token.  Where the patterns match at or after the
    /// place where the last token ended, the token is recorded and returned
    /// with its number; otherwise nothing is returned and nothing changes.
    pub fn next_token(&mut self, input: &str) -> (r: Option<(Token, usize)>)
        ensures
            r is None ==> final(self).found() == old(self).found() && final(self).position() == old(self).position(),
            r matches Some(found) ==> found.0.start == old(self).position() && found.0.end == final(self).position() && old(self).position() <= final(self).position()
                <= input.spec_bytes().len() && final(self).found() == old(self).found().push(
                found.0,
            ) && found.1 == final(self).found().len(),
    {
        let text = match self.remaining_text(input) {
            Some(t) => t,
            None => {
                return None;
            },
        };
        let len = input.as_bytes().len();
        match group_spans(&self.re, text) {
            Some(spans) => {
                proof {
                    lemma_first_group_is_some(spans@, spans@.len() as int);
                    assert(text.spec_bytes().len() == len - self.pos);
                    assert forall|i: int| 0 <= i < spans@.len() implies (
                    #[trigger] spans@[i] matches Some(span) ==> self.position() + span.1
                        <= usize::MAX) by {}
                }
                self.token_from_spans(&spans)
            },
            None => None,
        }
    }
}

/// Once a group that took part has been found, it stays the first.
pub proof fn lemma_first_group_found(spans: Seq<Option<(usize, usize)>>, k: int, n: int)
    requires
        1 < k <= n <= spans.len(),
        first_group(spans, k - 1) is None,
        spans[k - 1] is Some,
    ensures
        first_group(spans, n) == Some(k - 1),
    decreases n - k,
{
    if k < n {
        lemma_first_group_found(spans, k, n - 1);
    }
}

/// The first group that took part is a group that took part.
pub proof fn lemma_first_group_is_some(spans: Seq<Option<(usize, usize)>>, n: int)
    requires
        0 <= n <= spans.len(),
    ensures
        first_group(spans, n) matches Some(i) ==> 1 <= i < n && spans[i] is Some,
    decreases n,
{
    if n > 1 {
        lemma_first_group_is_some(spans, n - 1);
    }
}

} // verus!
