//! Syntax trees as text.
//!
//! Numbers are written as the standard library formats them: in decimal
//! with a minus sign for a negative number, a byte in hexadecimal with small
//! letters and no zero in front, and a list of bytes in square brackets with
//! a comma and a blank between two.
//!
//! A node is written as its kind with what it holds in brackets: the rule
//! and then the children of a kept or plain node, each after a blank; the
//! rule and the bytes of a token, as text in quotes where they are text and
//! as a list of numbers where they are not; the token of a leaf, as its
//! character in quotes or, where the byte is no character, in hexadecimal;
//! the symbol of an empty node.

use vstd::prelude::*;
use vstd::string::StringExecFns;
use vstd::utf8::{decode_utf8, valid_utf8};
use crate::lexer::byte_scanner::ByteToken;
use crate::tree_builder::tree::{Handle, Node};

verus! {

/// The text of one decimal digit.
pub open spec fn digit_text(d: int) -> Seq<char> {
    if d == 0 {
        "0"@
    } else if d == 1 {
        "1"@
    } else if d == 2 {
        "2"@
    } else if d == 3 {
        "3"@
    } else if d == 4 {
        "4"@
    } else if d == 5 {
        "5"@
    } else if d == 6 {
        "6"@
    } else if d == 7 {
        "7"@
    } else if d == 8 {
        "8"@
    } else {
        "9"@
    }
}

/// The text of one hexadecimal digit, in small letters.
pub open spec fn hex_digit_text(d: int) -> Seq<char> {
    if d < 10 {
        digit_text(d)
    } else if d == 10 {
        "a"@
    } else if d == 11 {
        "b"@
    } else if d == 12 {
        "c"@
    } else if d == 13 {
        "d"@
    } else if d == 14 {
        "e"@
    } else {
        "f"@
    }
}

/// The text of a number that is not negative, in decimal: its digits from
/// the highest to the lowest, without zeros in front.
pub open spec fn nat_text(n: int) -> Seq<char>
    decreases n,
{
    if n < 10 {
        digit_text(n)
    } else {
        nat_text(n / 10) + digit_text(n % 10)
    }
}

/// The text of a number in decimal, with a minus sign in front where it is
/// negative.
pub open spec fn decimal_text(n: i32) -> Seq<char> {
    if n < 0 {
        "-"@ + nat_text(-(n as int))
    } else {
        nat_text(n as int)
    }
}

/// The text of a byte in hexadecimal: one digit or two, in small letters.
pub open spec fn hex_text(b: u8) -> Seq<char> {
    if b < 16 {
        hex_digit_text(b as int)
    } else {
        hex_digit_text(b as int / 16) + hex_digit_text(b as int % 16)
    }
}

/// The text of the first `n` of `bytes` as a list: each in decimal, with a
/// comma and a blank between two.
pub open spec fn items_text(bytes: Seq<u8>, n: int) -> Seq<char>
    decreases n,
{
    if n <= 0 || n > bytes.len() {
        Seq::empty()
    } else if n == 1 {
        nat_text(bytes[0] as int)
    } else {
        items_text(bytes, n - 1) + ", "@ + nat_text(bytes[n - 1] as int)
    }
}

/// The text of a list of bytes: the bytes in decimal, in square brackets.
pub open spec fn list_text(bytes: Seq<u8>) -> Seq<char> {
    "["@ + items_text(bytes, bytes.len() as int) + "]"@
}

/// One decimal digit.
fn digit(d: u64) -> (s: &'static str)
    requires
        d < 10,
    ensures
        s@ == digit_text(d as int),
{
    if d == 0 {
        "0"
    } else if d == 1 {
        "1"
    } else if d == 2 {
        "2"
    } else if d == 3 {
        "3"
    } else if d == 4 {
        "4"
    } else if d == 5 {
        "5"
    } else if d == 6 {
        "6"
    } else if d == 7 {
        "7"
    } else if d == 8 {
        "8"
    } else {
        "9"
    }
}

/// One hexadecimal digit.
fn hex_digit(d: u8) -> (s: &'static str)
    requires
        d < 16,
    ensures
        s@ == hex_digit_text(d as int),
{
    if d < 10 {
        digit(d as u64)
    } else if d == 10 {
        "a"
    } else if d == 11 {
        "b"
    } else if d == 12 {
        "c"
    } else if d == 13 {
        "d"
    } else if d == 14 {
        "e"
    } else {
        "f"
    }
}

/// A number that is not negative, in decimal.
fn natural(n: u64) -> (s: String)
    ensures
        s@ == nat_text(n as int),
    decreases n,
{
    if n < 10 {
        String::from_str(digit(n))
    } else {
        let mut s = natural(n / 10);
        s.append(digit(n % 10));
        s
    }
}

/// A number in decimal.
pub fn decimal(n: i32) -> (s: String)
    ensures
        s@ == decimal_text(n),
{
    if n < 0 {
        let mut s = String::from_str("-");
        s.append(natural((-(n as i64)) as u64).as_str());
        s
    } else {
        natural(n as u64)
    }
}

/// A byte in hexadecimal.
pub fn hex(b: u8) -> (s: String)
    ensures
        s@ == hex_text(b),
{
    if b < 16 {
        String::from_str(hex_digit(b))
    } else {
        let mut s = String::from_str(hex_digit(b / 16));
        s.append(hex_digit(b % 16));
        s
    }
}

/// A list of bytes.
pub fn list(bytes: &[u8]) -> (s: String)
    ensures
        s@ == list_text(bytes@),
{
    let mut s = String::from_str("[");
    let mut i: usize = 0;
    proof {
        assert(s@ =~= "["@ + items_text(bytes@, 0));
    }
    while i < bytes.len()
        invariant
            i <= bytes@.len(),
            s@ == "["@ + items_text(bytes@, i as int),
        decreases bytes@.len() - i,
    {
        if i > 0 {
            s.append(", ");
        }
        s.append(natural(bytes[i] as u64).as_str());
        proof {
            assert(s@ =~= "["@ + items_text(bytes@, i as int + 1));
        }
        i += 1;
    }
    s.append("]");
    s
}

/// The text that the bytes encode, by `std::str::from_utf8`: there is one
/// where the bytes are well-formed UTF-8, and it is what they decode to.
#[verifier::external_body]
fn utf8(bytes: &[u8]) -> (r: Option<String>)
    ensures
        r is Some <==> valid_utf8(bytes@),
        r matches Some(s) ==> s@ == decode_utf8(bytes@),
{
    std::str::from_utf8(bytes).ok().map(|s| s.to_owned())
}

/// The text of a token.
pub open spec fn token_text(tok: ByteToken) -> Seq<char> {
    if valid_utf8(seq![tok.0]) {
        "'"@ + decode_utf8(seq![tok.0]) + "'"@
    } else {
        hex_text(tok.0)
    }
}

/// The text of the bytes of a token node.
pub open spec fn bytes_text(bytes: Seq<u8>) -> Seq<char> {
    if valid_utf8(bytes) {
        "\""@ + decode_utf8(bytes) + "\""@
    } else {
        list_text(bytes)
    }
}

/// The text of the first `n` of `handles`, each after a blank.
pub open spec fn children_text(handles: Seq<Handle<ByteToken>>, n: int) -> Seq<char>
    decreases handles, n,
{
    if n <= 0 || n > handles.len() {
        Seq::empty()
    } else {
        children_text(handles, n - 1) + " "@ + match *handles[n - 1].0 {
            Node::Tree(rule, chs) => "Tree("@ + decimal_text(rule) + ","@ + children_text(
                chs@,
                chs@.len() as int,
            ) + ")"@,
            Node::Rule(rule, chs) => "Rule("@ + decimal_text(rule) + ","@ + children_text(
                chs@,
                chs@.len() as int,
            ) + ")"@,
            Node::Token(ty, val) => "Token("@ + decimal_text(ty) + ", "@ + bytes_text(val@) + ")"@,
            Node::Leaf(tok) => "Leaf("@ + token_text(tok) + ")"@,
            Node::Null(sym) => "Null("@ + decimal_text(sym) + ")"@,
        }
    }
}

/// The text of a node.
pub open spec fn node_text(node: Node<ByteToken>) -> Seq<char> {
    match node {
        Node::Tree(rule, chs) => "Tree("@ + decimal_text(rule) + ","@ + children_text(
            chs@,
            chs@.len() as int,
        ) + ")"@,
        Node::Rule(rule, chs) => "Rule("@ + decimal_text(rule) + ","@ + children_text(
            chs@,
            chs@.len() as int,
        ) + ")"@,
        Node::Token(ty, val) => "Token("@ + decimal_text(ty) + ", "@ + bytes_text(val@) + ")"@,
        Node::Leaf(tok) => "Leaf("@ + token_text(tok) + ")"@,
        Node::Null(sym) => "Null("@ + decimal_text(sym) + ")"@,
    }
}

impl ByteToken {
    /// The token as text.
    pub fn render(&self) -> (s: String)
        ensures
            s@ == token_text(*self),
    {
        let mut one: Vec<u8> = Vec::new();
        one.push(self.0);
        proof {
            assert(one@ =~= seq![self.0]);
        }
        match utf8(one.as_slice()) {
            Some(text) => {
                let mut s = String::from_str("'");
                s.append(text.as_str());
                s.append("'");
                s
            },
            None => hex(self.0),
        }
    }
}

/// Writes the children `handles` after `out`, each after a blank.
fn render_children(handles: &Vec<Handle<ByteToken>>, out: &mut String)
    ensures
        final(out)@ == old(out)@ + children_text(handles@, handles@.len() as int),
    decreases handles@,
{
    let mut i: usize = 0;
    proof {
        assert(out@ =~= old(out)@ + children_text(handles@, 0));
    }
    while i < handles.len()
        invariant
            i <= handles@.len(),
            out@ == old(out)@ + children_text(handles@, i as int),
        decreases handles@.len() - i,
    {
        let ghost before = children_text(handles@, i as int);
        out.append(" ");
        let ghost blank = out@;
        render_node(handles[i].node(), out);
        proof {
            assert(blank =~= old(out)@ + before + " "@);
            assert(node_text(*handles@[i as int].0) == out@.subrange(
                blank.len() as int,
                out@.len() as int,
            )) by {
                assert(out@ == blank + node_text(*handles@[i as int].0));
                assert(out@.subrange(blank.len() as int, out@.len() as int) =~= node_text(
                    *handles@[i as int].0,
                ));
            }
            assert(out@ =~= old(out)@ + children_text(handles@, i as int + 1));
        }
        i += 1;
    }
}

/// Writes the node `node` after `out`.
fn render_node(node: &Node<ByteToken>, out: &mut String)
    ensures
        final(out)@ == old(out)@ + node_text(*node),
    decreases node,
{
    match node {
        Node::Tree(rule, children) => {
            out.append("Tree(");
            out.append(decimal(*rule).as_str());
            out.append(",");
            let ghost head = out@;
            render_children(children, out);
            out.append(")");
            proof {
                assert(head =~= old(out)@ + "Tree("@ + decimal_text(*rule) + ","@);
                assert(out@ =~= old(out)@ + node_text(*node));
            }
        },
        Node::Rule(rule, children) => {
            out.append("Rule(");
            out.append(decimal(*rule).as_str());
            out.append(",");
            let ghost head = out@;
            render_children(children, out);
            out.append(")");
            proof {
                assert(head =~= old(out)@ + "Rule("@ + decimal_text(*rule) + ","@);
                assert(out@ =~= old(out)@ + node_text(*node));
            }
        },
        Node::Token(ty, val) => {
            out.append("Token(");
            out.append(decimal(*ty).as_str());
            out.append(", ");
            match utf8(val.as_slice()) {
                Some(text) => {
                    out.append("\"");
                    out.append(text.as_str());
                    out.append("\"");
                },
                None => {
                    out.append(list(val.as_slice()).as_str());
                },
            }
            out.append(")");
            proof {
                assert(out@ =~= old(out)@ + node_text(*node));
            }
        },
        Node::Leaf(tok) => {
            out.append("Leaf(");
            out.append(tok.render().as_str());
            out.append(")");
            proof {
                assert(out@ =~= old(out)@ + node_text(*node));
            }
        },
        Node::Null(sym) => {
            out.append("Null(");
            out.append(decimal(*sym).as_str());
            out.append(")");
            proof {
                assert(out@ =~= old(out)@ + node_text(*node));
            }
        },
    }
}

impl Node<ByteToken> {
    /// The node as text.
    pub fn render(&self) -> (s: String)
        ensures
            s@ == node_text(*self),
    {
        let mut out = String::new();
        render_node(self, &mut out);
        proof {
            assert(out@ =~= node_text(*self));
        }
        out
    }
}

impl Handle<ByteToken> {
    /// The tree as text.
    pub fn render(&self) -> (s: String)
        ensures
            s@ == node_text(*self.0),
    {
        self.node().render()
    }
}

} // verus!
