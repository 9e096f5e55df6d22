//! A scanner that makes one token of every byte it reads.

use vstd::prelude::*;
use vstd::std_specs::convert::FromSpecImpl;
use crate::lexer::token::Token;
use crate::thin::Symbol;

verus! {

/// The size of the buffer of a scanner that was made without one.
pub const DEFAULT_CAPACITY: usize = 256;

/// A token that stands for one byte.  Its symbol is the byte, and its value
/// is one more than that, so that no token has the value zero.
#[derive(Default, PartialEq, Eq, PartialOrd, Debug, Copy, Clone)]
pub struct ByteToken(pub u8);

impl From<(Symbol, i32)> for ByteToken {
    fn from(pair: (Symbol, i32)) -> (r: Self) {
        ByteToken(low_byte_of(pair.0))
    }
}

impl FromSpecImpl<(Symbol, i32)> for ByteToken {
    open spec fn obeys_from_spec() -> bool {
        true
    }

    open spec fn from_spec(pair: (Symbol, i32)) -> Self {
        ByteToken(symbol_byte(pair.0))
    }
}

/// The byte that a symbol stands for: its lowest eight bits.
pub open spec fn symbol_byte(sym: Symbol) -> u8 {
    (sym as int % 256) as u8
}

/// The lowest eight bits of a symbol.
pub fn low_byte_of(sym: Symbol) -> (b: u8)
    ensures
        b == symbol_byte(sym),
{
    let r = sym % 256;
    if r < 0 {
        (r + 256) as u8
    } else {
        r as u8
    }
}

impl Token for ByteToken {
    open spec fn is_sym(&self, s: Symbol) -> bool {
        s == self.0
    }

    open spec fn is_value(&self, v: i32) -> bool {
        v == self.0 + 1
    }

    fn sym(&self) -> (s: Symbol) {
        self.0 as i32
    }

    fn value(&self) -> (v: i32) {
        self.0 as i32 + 1
    }
}

impl ByteToken {
    /// The byte that the token stands for.
    pub fn byte(&self) -> (b: u8)
        ensures
            b == self.0,
    {
        self.0
    }
}

/// A scanner of bytes.  It takes a buffer of bytes at a time from whoever
/// reads the input, and hands the bytes out one by one, each once and in
/// the order in which they were taken.
pub struct ByteScanner {
    buffer: Vec<u8>,
    idx: usize,
    end: usize,
}

/// The tokens of the bytes `bytes`, one for one.
pub open spec fn byte_tokens(bytes: Seq<u8>) -> Seq<ByteToken> {
    Seq::new(bytes.len(), |i: int| ByteToken(bytes[i]))
}

impl ByteScanner {
    /// Well-formedness: the bytes that are still to be handed out lie in the
    /// buffer.
    pub closed spec fn wf(self) -> bool {
        self.idx <= self.end <= self.buffer@.len()
    }

    /// The bytes that have been taken and not yet handed out, in order.
    pub closed spec fn pending(self) -> Seq<u8> {
        self.buffer@.subrange(self.idx as int, self.end as int)
    }

    /// The size of the buffer: how many bytes the scanner takes at a time.
    pub closed spec fn capacity(self) -> nat {
        self.buffer@.len()
    }

    /// A scanner with a buffer of the usual size and nothing in it.
    pub fn new() -> (s: ByteScanner)
        ensures
            s.wf(),
            s.pending() == Seq::<u8>::empty(),
            s.capacity() == DEFAULT_CAPACITY,
    {
        ByteScanner::with_capacity(DEFAULT_CAPACITY)
    }

    /// A scanner with a buffer of `cap` bytes and nothing in it.
    pub fn with_capacity(cap: usize) -> (s: ByteScanner)
        ensures
            s.wf(),
            s.pending() == Seq::<u8>::empty(),
            s.capacity() == cap,
    {
        let s = ByteScanner { buffer: vec![0u8; cap], idx: 0, end: 0 };
        proof {
            assert(s.pending() =~= Seq::<u8>::empty());
        }
        s
    }

    /// How many bytes the scanner takes at a time.
    pub fn buffer_size(&self) -> (n: usize)
        ensures
            n == self.capacity(),
    {
        self.buffer.len()
    }

    /// How many bytes `fill_buffer` takes of `offered` bytes: as many as
    /// the buffer holds, and none while bytes are still to be handed out.
    pub open spec fn takes(self, offered: nat) -> nat {
        if self.pending().len() > 0 {
            0
        } else if offered <= self.capacity() {
            offered
        } else {
            self.capacity()
        }
    }

    /// Takes bytes into the buffer, from the front of `bytes`, and returns
    /// how many were taken.  The bytes taken are then the ones to be handed
    /// out.  While bytes are still to be handed out, none are taken.
    pub fn fill_buffer(&mut self, bytes: &[u8]) -> (taken: usize)
        requires
            old(self).wf(),
        ensures
            final(self).wf(),
            final(self).capacity() == old(self).capacity(),
            taken == old(self).takes(bytes@.len()),
            old(self).pending().len() > 0 ==> final(self).pending() == old(self).pending(),
            old(self).pending().len() == 0 ==> final(self).pending() == bytes@.subrange(
                0,
                taken as int,
            ),
    {
        if self.idx < self.end {
            proof {
                assert(self.pending().len() > 0);
            }
            return 0;
        }
        proof {
            assert(self.pending().len() == 0);
        }
        let taken = if bytes.len() <= self.buffer.len() {
            bytes.len()
        } else {
            self.buffer.len()
        };
        let mut i: usize = 0;
        while i < taken
            invariant
                i <= taken,
                taken <= bytes@.len(),
                taken <= self.buffer@.len(),
                self.buffer@.len() == old(self).buffer@.len(),
                forall|k: int| 0 <= k < i ==> self.buffer@[k] == bytes@[k],
            decreases taken - i,
        {
            self.buffer[i] = bytes[i];
            i += 1;
        }
        proof {
            assert(self.buffer@.subrange(0, taken as int) =~= bytes@.subrange(0, taken as int));
        }
        self.idx = 0;
        self.end = taken;
        taken
    }

    /// The next byte, where one is still to be handed out.  Where none is,
    /// nothing changes: the scanner has to be filled first.
    pub fn read_byte(&mut self) -> (byte: Option<u8>)
        requires
            old(self).wf(),
        ensures
            final(self).wf(),
            final(self).capacity() == old(self).capacity(),
            old(self).pending().len() > 0 ==> byte == Some(old(self).pending()[0]) && final(self).pending() == old(self).pending().subrange(1, old(self).pending().len() as int),
            old(self).pending().len() == 0 ==> byte is None && final(self).pending() == old(self).pending(),
    {
        if self.idx >= self.end {
            return None;
        }
        self.idx += 1;
        proof {
            assert(self.pending() =~= old(self).pending().subrange(
                1,
                old(self).pending().len() as int,
            ));
        }
        Some(self.buffer[self.idx - 1])
    }

    /// The next token: the token of the next byte.
    pub fn next_token(&mut self) -> (token: Option<ByteToken>)
        requires
            old(self).wf(),
        ensures
            final(self).wf(),
            final(self).capacity() == old(self).capacity(),
            old(self).pending().len() > 0 ==> token == Some(ByteToken(old(self).pending()[0]))
                && final(self).pending() == old(self).pending().subrange(
                1,
                old(self).pending().len() as int,
            ),
            old(self).pending().len() == 0 ==> token is None && final(self).pending() == old(self).pending(),
    {
        match self.read_byte() {
            Some(byte) => Some(ByteToken(byte)),
            None => None,
        }
    }
}

/// Scans `input` with a buffer of `cap` bytes: the scanner is filled from
/// the input again and again, and every token it hands out is collected.
/// Every byte of the input gives one token, in the order of the input, none
/// left out and none twice, however the input falls into buffers.  A scanner
/// without a buffer takes nothing and gives no tokens.
pub fn scan_bytes(input: &[u8], cap: usize) -> (tokens: Vec<ByteToken>)
    ensures
        cap > 0 ==> tokens@ == byte_tokens(input@),
        cap == 0 ==> tokens@.len() == 0,
{
    let mut scanner = ByteScanner::with_capacity(cap);
    let mut tokens: Vec<ByteToken> = Vec::new();
    let mut pos: usize = 0;
    proof {
        assert(tokens@ + byte_tokens(scanner.pending()) =~= byte_tokens(input@.subrange(0, 0)));
    }
    loop
        invariant_except_break
            scanner.wf(),
            scanner.capacity() == cap,
            pos <= input@.len(),
            tokens@ + byte_tokens(scanner.pending()) == byte_tokens(input@.subrange(0, pos as int)),
            cap == 0 ==> tokens@.len() == 0,
        ensures
            cap > 0 ==> tokens@ == byte_tokens(input@),
            cap == 0 ==> tokens@.len() == 0,
        decreases input@.len() - pos, scanner.pending().len(),
    {
        let ghost before = scanner.pending();
        let ghost done = tokens@;
        match scanner.next_token() {
            Some(token) => {
                tokens.push(token);
                proof {
                    assert(tokens@ + byte_tokens(scanner.pending()) =~= done + byte_tokens(before));
                    assert(cap > 0);
                }
            },
            None => {
                proof {
                    assert(before.len() == 0);
                    assert(tokens@ =~= byte_tokens(input@.subrange(0, pos as int)));
                }
                if pos >= input.len() {
                    proof {
                        assert(input@.subrange(0, pos as int) =~= input@);
                    }
                    break ;
                }
                let rest = vstd::slice::slice_subrange(input, pos, input.len());
                let taken = scanner.fill_buffer(rest);
                if taken == 0 {
                    proof {
                        assert(cap == 0);
                    }
                    break ;
                }
                proof {
                    assert(scanner.pending() =~= input@.subrange(pos as int, pos + taken));
                    assert(tokens@ + byte_tokens(scanner.pending()) =~= byte_tokens(
                        input@.subrange(0, pos + taken),
                    ));
                }
                pos += taken;
            },
        }
    }
    tokens
}

} // verus!
