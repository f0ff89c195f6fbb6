//! Tokens, and the reasons for which scanning fails.

use crate::chars::{
    AMPERSAND, BAR, CARET, CURLY_CLOSE, CURLY_OPEN, DASH, DOT, EQUALS, GREATER, HASH, LESS,
    PAREN_CLOSE, PAREN_OPEN, PERCENT, PLUS, SLASH, SQUARE_CLOSE, SQUARE_OPEN, STAR, TILDE,
};
use vstd::prelude::*;
use vstd::string::*;

verus! {

/// One lexical unit. Identifiers, keywords, comments and the text of a
/// floating-point literal are pieces of the source; a string literal owns its
/// decoded bytes.
#[derive(Debug, PartialEq, Eq)]
pub enum Token<'a> {
    Identifier(&'a str),
    Keyword(&'a str),
    /// A line comment, from its two dashes to the end of the line.
    Comment(&'a str),
    /// The bytes of a quoted string, escapes decoded.
    String(Vec<u8>),
    Int(i64),
    /// A literal with a fraction or an exponent, as it is written; turning
    /// the text into a binary floating-point number is left to the consumer.
    Double(&'a str),
    Add,
    Sub,
    Mul,
    Pow,
    Div,
    Idiv,
    Mod,
    Band,
    Bor,
    /// `~`: bitwise not, and exclusive or between two operands.
    Bnot,
    Shl,
    Shr,
    Lt,
    Gt,
    Le,
    Ge,
    Concat,
    Dot,
    Varg,
    Neq,
    Eq,
    Len,
    Open,
    Close,
    SquareOpen,
    SquareClose,
    CurlyOpen,
    CurlyClose,
    Assign,
    Eof,
}

/// A token as a value: source pieces and decoded bytes as byte sequences,
/// an integer literal as the number it denotes.
pub enum TokenView {
    Identifier(Seq<u8>),
    Keyword(Seq<u8>),
    Comment(Seq<u8>),
    String(Seq<u8>),
    Int(int),
    Double(Seq<u8>),
    Add,
    Sub,
    Mul,
    Pow,
    Div,
    Idiv,
    Mod,
    Band,
    Bor,
    Bnot,
    Shl,
    Shr,
    Lt,
    Gt,
    Le,
    Ge,
    Concat,
    Dot,
    Varg,
    Neq,
    Eq,
    Len,
    Open,
    Close,
    SquareOpen,
    SquareClose,
    CurlyOpen,
    CurlyClose,
    Assign,
    Eof,
}

impl<'a> View for Token<'a> {
    type V = TokenView;

    open spec fn view(&self) -> TokenView {
        match *self {
            Token::Identifier(text) => TokenView::Identifier(text.spec_bytes()),
            Token::Keyword(text) => TokenView::Keyword(text.spec_bytes()),
            Token::Comment(text) => TokenView::Comment(text.spec_bytes()),
            Token::String(data) => TokenView::String(data@),
            Token::Int(value) => TokenView::Int(value as int),
            Token::Double(text) => TokenView::Double(text.spec_bytes()),
            Token::Add => TokenView::Add,
            Token::Sub => TokenView::Sub,
            Token::Mul => TokenView::Mul,
            Token::Pow => TokenView::Pow,
            Token::Div => TokenView::Div,
            Token::Idiv => TokenView::Idiv,
            Token::Mod => TokenView::Mod,
            Token::Band => TokenView::Band,
            Token::Bor => TokenView::Bor,
            Token::Bnot => TokenView::Bnot,
            Token::Shl => TokenView::Shl,
            Token::Shr => TokenView::Shr,
            Token::Lt => TokenView::Lt,
            Token::Gt => TokenView::Gt,
            Token::Le => TokenView::Le,
            Token::Ge => TokenView::Ge,
            Token::Concat => TokenView::Concat,
            Token::Dot => TokenView::Dot,
            Token::Varg => TokenView::Varg,
            Token::Neq => TokenView::Neq,
            Token::Eq => TokenView::Eq,
            Token::Len => TokenView::Len,
            Token::Open => TokenView::Open,
            Token::Close => TokenView::Close,
            Token::SquareOpen => TokenView::SquareOpen,
            Token::SquareClose => TokenView::SquareClose,
            Token::CurlyOpen => TokenView::CurlyOpen,
            Token::CurlyClose => TokenView::CurlyClose,
            Token::Assign => TokenView::Assign,
            Token::Eof => TokenView::Eof,
        }
    }
}

impl TokenView {
    /// The source bytes that spell the token: the piece of the source that
    /// it is, or the one way in which an operator is written. A string or an
    /// integer literal has none: several spellings give the same value.
    pub open spec fn text(self) -> Option<Seq<u8>> {
        match self {
            TokenView::Identifier(text) => Some(text),
            TokenView::Keyword(text) => Some(text),
            TokenView::Comment(text) => Some(text),
            TokenView::String(_) => None,
            TokenView::Int(_) => None,
            TokenView::Double(text) => Some(text),
            TokenView::Add => Some(seq![PLUS]),
            TokenView::Sub => Some(seq![DASH]),
            TokenView::Mul => Some(seq![STAR]),
            TokenView::Pow => Some(seq![CARET]),
            TokenView::Div => Some(seq![SLASH]),
            TokenView::Idiv => Some(seq![SLASH, SLASH]),
            TokenView::Mod => Some(seq![PERCENT]),
            TokenView::Band => Some(seq![AMPERSAND]),
            TokenView::Bor => Some(seq![BAR]),
            TokenView::Bnot => Some(seq![TILDE]),
            TokenView::Shl => Some(seq![LESS, LESS]),
            TokenView::Shr => Some(seq![GREATER, GREATER]),
            TokenView::Lt => Some(seq![LESS]),
            TokenView::Gt => Some(seq![GREATER]),
            TokenView::Le => Some(seq![LESS, EQUALS]),
            TokenView::Ge => Some(seq![GREATER, EQUALS]),
            TokenView::Concat => Some(seq![DOT, DOT]),
            TokenView::Dot => Some(seq![DOT]),
            TokenView::Varg => Some(seq![DOT, DOT, DOT]),
            TokenView::Neq => Some(seq![TILDE, EQUALS]),
            TokenView::Eq => Some(seq![EQUALS, EQUALS]),
            TokenView::Len => Some(seq![HASH]),
            TokenView::Open => Some(seq![PAREN_OPEN]),
            TokenView::Close => Some(seq![PAREN_CLOSE]),
            TokenView::SquareOpen => Some(seq![SQUARE_OPEN]),
            TokenView::SquareClose => Some(seq![SQUARE_CLOSE]),
            TokenView::CurlyOpen => Some(seq![CURLY_OPEN]),
            TokenView::CurlyClose => Some(seq![CURLY_CLOSE]),
            TokenView::Assign => Some(seq![EQUALS]),
            TokenView::Eof => Some(Seq::empty()),
        }
    }
}

/// Why scanning failed.
#[derive(Debug, Clone, Copy, PartialEq, Eq, Structural)]
pub enum Reason {
    /// The input ended inside a quoted string.
    UnterminatedString,
    /// A backslash in a string is followed by a byte that names no escape.
    InvalidEscape,
    /// No token starts with this byte.
    UnrecognizedByte,
    /// A numeric literal has a second decimal point, an exponent without
    /// digits, or, having neither fraction nor exponent, a value that no
    /// 64-bit signed integer holds.
    MalformedNumber,
}

} // verus!
