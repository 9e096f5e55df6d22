use marpa::lexer::byte_scanner::{scan_bytes, ByteScanner, ByteToken};
use marpa::lexer::token::Token;
use marpa::lexer::token_source::TokenSource;
use std::io::Cursor;
use std::io::Read;

/// A scanner over a reader: the reader fills a buffer, and the scanner takes
/// the bytes from it.
struct Tokens<R: Read> {
    rd: R,
    chunk: Vec<u8>,
    scanner: ByteScanner,
}

impl<R: Read> Tokens<R> {
    fn new(rd: R) -> Tokens<R> {
        let scanner = ByteScanner::new();
        Tokens { rd, chunk: vec![0; scanner.buffer_size()], scanner }
    }

    fn with_capacity(rd: R, cap: usize) -> Tokens<R> {
        Tokens { rd, chunk: vec![0; cap], scanner: ByteScanner::with_capacity(cap) }
    }
}

impl<R: Read> Iterator for Tokens<R> {
    type Item = ByteToken;

    fn next(&mut self) -> Option<ByteToken> {
        if let Some(token) = self.scanner.next_token() {
            return Some(token);
        }
        let size = self.rd.read(&mut self.chunk).ok()?;
        if size == 0 || size > self.chunk.len() {
            return None;
        }
        self.scanner.fill_buffer(&self.chunk[..size]);
        self.scanner.next_token()
    }
}

fn must_compile<T: TokenSource<ByteToken>>(_: &T) {}

#[test]
fn byte_scanner_test_byte_scanner() {
    let input = Cursor::new("Hello, world!");
    let scanner = Tokens::new(input);
    must_compile(&scanner);

    let toks: Vec<ByteToken> = scanner.collect();
    assert!(
        toks == vec![
            ByteToken(72),
            ByteToken(101),
            ByteToken(108),
            ByteToken(108),
            ByteToken(111),
            ByteToken(44),
            ByteToken(32),
            ByteToken(119),
            ByteToken(111),
            ByteToken(114),
            ByteToken(108),
            ByteToken(100),
            ByteToken(33),
        ]
    );
}

#[test]
fn test_byte_scanner() {
    let input = Cursor::new("Hello, world!");
    let scanner = Tokens::new(input);
    must_compile(&scanner);

    let toks: Vec<(i32, i32)> = scanner.map(|t| (t.sym(), t.value())).collect();
    assert!(
        toks == vec![
            (72, 73),
            (101, 102),
            (108, 109),
            (108, 109),
            (111, 112),
            (44, 45),
            (32, 33),
            (119, 120),
            (111, 112),
            (114, 115),
            (108, 109),
            (100, 101),
            (33, 34),
        ]
    );
}

#[test]
fn scanner_refills_a_small_buffer() {
    let tokens = Tokens::with_capacity(Cursor::new("abcdefg"), 3);
    let bytes: Vec<u8> = tokens.map(|t| t.byte()).collect();
    assert_eq!(bytes, b"abcdefg".to_vec());
    let tokens = Tokens::with_capacity(Cursor::new("abcdefg"), 1);
    let bytes: Vec<u8> = tokens.map(|t| t.byte()).collect();
    assert_eq!(bytes, b"abcdefg".to_vec());
}

#[test]
fn scanner_hands_out_what_it_took() {
    let mut scanner = ByteScanner::with_capacity(3);
    assert_eq!(scanner.buffer_size(), 3);
    assert_eq!(scanner.read_byte(), None);
    assert_eq!(scanner.fill_buffer(b"abcde"), 3);
    assert_eq!(scanner.read_byte(), Some(b'a'));
    // nothing is taken while bytes are still to be handed out
    assert_eq!(scanner.fill_buffer(b"xyz"), 0);
    assert_eq!(scanner.read_byte(), Some(b'b'));
    assert_eq!(scanner.next_token(), Some(ByteToken(b'c')));
    assert_eq!(scanner.read_byte(), None);
    assert_eq!(scanner.read_byte(), None);
    assert_eq!(scanner.fill_buffer(b"de"), 2);
    assert_eq!(scanner.read_byte(), Some(b'd'));
    assert_eq!(scanner.read_byte(), Some(b'e'));
    assert_eq!(scanner.next_token(), None);
    assert_eq!(scanner.fill_buffer(b""), 0);
    assert_eq!(scanner.read_byte(), None);
    assert_eq!(ByteScanner::new().buffer_size(), 256);
}

#[test]
fn scanning_gives_every_byte_once() {
    let input: Vec<u8> = (0..=255).chain(0..=255).collect();
    for cap in [1, 2, 3, 7, 256, 511, 512, 1000] {
        let tokens = scan_bytes(&input, cap);
        let bytes: Vec<u8> = tokens.iter().map(|t| t.byte()).collect();
        assert_eq!(bytes, input);
    }
    assert_eq!(scan_bytes(b"ab", 1), vec![ByteToken(b'a'), ByteToken(b'b')]);
    assert_eq!(scan_bytes(b"", 4), vec![]);
    assert_eq!(scan_bytes(b"abc", 0), vec![]);
}

#[test]
fn scanner_of_empty_input_has_no_byte() {
    let mut tokens = Tokens::new(Cursor::new(""));
    assert_eq!(tokens.next(), None);
    assert_eq!(tokens.next(), None);
}

#[test]
fn scanner_without_buffer_reads_nothing() {
    let mut tokens = Tokens::with_capacity(Cursor::new("abc"), 0);
    assert_eq!(tokens.next(), None);
}

#[test]
fn byte_token_from_symbol_and_value() {
    let t: ByteToken = (65, 66).into();
    assert_eq!(t, ByteToken(65));
    assert_eq!(t.byte(), 65);
    assert_eq!(t.sym(), 65);
    assert_eq!(t.value(), 66);
    let high: ByteToken = (255, 0).into();
    assert_eq!(high.value(), 256);
    let wrapped: ByteToken = (256 + 7, 0).into();
    assert_eq!(wrapped, ByteToken(7));
    let negative: ByteToken = (-1, 0).into();
    assert_eq!(negative, ByteToken(255));
}
