//! What the scanner recognises, as functions of the bytes that lie at and
//! after the first byte of a token.

use crate::chars::{
    lemma_run_end, run_end, spec_is_digit, spec_is_iden, ByteClass, AMPERSAND, APOSTROPHE,
    BACKSLASH, BAR, CARET, CURLY_CLOSE, CURLY_OPEN, DASH, DOT, EQUALS, GREATER, HASH, LESS,
    LOWER_E, PAREN_CLOSE, PAREN_OPEN, PERCENT, PLUS, QUOTE, SLASH, SQUARE_CLOSE, SQUARE_OPEN,
    STAR, TILDE, UPPER_E, ZERO,
};
use crate::token::{Reason, TokenView};
use vstd::prelude::*;
use vstd::string::*;

verus! {

/// The result of scanning one token.
pub enum Scan {
    /// A token, and the number of source bytes it spans.
    Token { token: TokenView, len: nat },
    /// A failure, and the position of the offending byte, counted from the
    /// first byte of the token: the byte with which no token starts, the
    /// delimiter that opens a string without end, the byte after a backslash
    /// that names no escape, the second decimal point of a number, the
    /// exponent marker that no digit follows, the digit with which an integer
    /// grows too large.
    Failure { reason: Reason, at: nat },
}

/// Whether position `i` of `s` holds the byte `b`.
pub open spec fn follows(s: Seq<u8>, i: int, b: u8) -> bool {
    0 <= i < s.len() && s[i] == b
}

/// The reserved words.
pub const KEYWORDS: [&'static str; 22] = [
    "and",
    "break",
    "do",
    "else",
    "elseif",
    "end",
    "false",
    "for",
    "function",
    "goto",
    "if",
    "in",
    "local",
    "nil",
    "not",
    "or",
    "repeat",
    "return",
    "then",
    "true",
    "until",
    "while",
];

/// Whether `word` is, byte for byte, one of the reserved words.
pub open spec fn is_keyword(word: Seq<u8>) -> bool {
    exists|i: int| 0 <= i < KEYWORDS@.len() && (#[trigger] KEYWORDS@[i]).spec_bytes() == word
}

/// The token that consists of the byte `b` alone, whatever follows it.
pub open spec fn single(b: u8) -> Option<TokenView> {
    if b == PAREN_OPEN {
        Some(TokenView::Open)
    } else if b == PAREN_CLOSE {
        Some(TokenView::Close)
    } else if b == SQUARE_OPEN {
        Some(TokenView::SquareOpen)
    } else if b == SQUARE_CLOSE {
        Some(TokenView::SquareClose)
    } else if b == CURLY_OPEN {
        Some(TokenView::CurlyOpen)
    } else if b == CURLY_CLOSE {
        Some(TokenView::CurlyClose)
    } else if b == PLUS {
        Some(TokenView::Add)
    } else if b == STAR {
        Some(TokenView::Mul)
    } else if b == CARET {
        Some(TokenView::Pow)
    } else if b == PERCENT {
        Some(TokenView::Mod)
    } else if b == BAR {
        Some(TokenView::Bor)
    } else if b == HASH {
        Some(TokenView::Len)
    } else if b == AMPERSAND {
        Some(TokenView::Band)
    } else {
        None
    }
}

/// The operator that starts with the first byte of `s` and is told from its
/// neighbours by the bytes that follow: the longest one that the input
/// spells. Two dashes are no operator; they open a comment.
pub open spec fn operator(s: Seq<u8>) -> Option<(TokenView, nat)>
    recommends
        s.len() > 0,
{
    let lead = s[0];
    if lead == DOT {
        if follows(s, 1, DOT) {
            if follows(s, 2, DOT) {
                Some((TokenView::Varg, 3))
            } else {
                Some((TokenView::Concat, 2))
            }
        } else {
            Some((TokenView::Dot, 1))
        }
    } else if lead == GREATER {
        if follows(s, 1, GREATER) {
            Some((TokenView::Shr, 2))
        } else if follows(s, 1, EQUALS) {
            Some((TokenView::Ge, 2))
        } else {
            Some((TokenView::Gt, 1))
        }
    } else if lead == LESS {
        if follows(s, 1, LESS) {
            Some((TokenView::Shl, 2))
        } else if follows(s, 1, EQUALS) {
            Some((TokenView::Le, 2))
        } else {
            Some((TokenView::Lt, 1))
        }
    } else if lead == TILDE {
        if follows(s, 1, EQUALS) {
            Some((TokenView::Neq, 2))
        } else {
            Some((TokenView::Bnot, 1))
        }
    } else if lead == EQUALS {
        if follows(s, 1, EQUALS) {
            Some((TokenView::Eq, 2))
        } else {
            Some((TokenView::Assign, 1))
        }
    } else if lead == SLASH {
        if follows(s, 1, SLASH) {
            Some((TokenView::Idiv, 2))
        } else {
            Some((TokenView::Div, 1))
        }
    } else if lead == DASH && !follows(s, 1, DASH) {
        Some((TokenView::Sub, 1))
    } else {
        None
    }
}

/// A line comment: the two dashes and all that follows up to, and without,
/// the end of the line.
pub open spec fn comment(s: Seq<u8>) -> Scan {
    let end = run_end(s, 2, ByteClass::Text);
    Scan::Token { token: TokenView::Comment(s.subrange(0, end)), len: end as nat }
}

/// An identifier or a keyword: the longest run of identifier bytes.
pub open spec fn word(s: Seq<u8>) -> Scan {
    let end = run_end(s, 1, ByteClass::Word);
    let text = s.subrange(0, end);
    if is_keyword(text) {
        Scan::Token { token: TokenView::Keyword(text), len: end as nat }
    } else {
        Scan::Token { token: TokenView::Identifier(text), len: end as nat }
    }
}

/// The byte that the escape character `b` stands for: `a`, `b`, `f`, `n`,
/// `t` and `v` stand for bell, backspace, form feed, line feed, tab and
/// vertical tab; no other byte names an escape.
pub open spec fn unescape(b: u8) -> Option<u8> {
    if b == 0x61 {
        Some(7u8)
    } else if b == 0x62 {
        Some(8u8)
    } else if b == 0x66 {
        Some(12u8)
    } else if b == 0x6e {
        Some(10u8)
    } else if b == 0x74 {
        Some(9u8)
    } else if b == 0x76 {
        Some(11u8)
    } else {
        None
    }
}

/// The rest of a quoted string: `s` from position `i` on, where `data` holds
/// what the bytes before `i` gave. The string ends at the first `quote` that
/// no backslash precedes.
pub open spec fn string_rest(s: Seq<u8>, i: int, quote: u8, data: Seq<u8>) -> Scan
    decreases s.len() - i,
{
    if i < 0 || i >= s.len() {
        Scan::Failure { reason: Reason::UnterminatedString, at: 0 }
    } else if s[i] == quote {
        Scan::Token { token: TokenView::String(data), len: (i + 1) as nat }
    } else if s[i] == BACKSLASH {
        if i + 1 >= s.len() {
            Scan::Failure { reason: Reason::UnterminatedString, at: 0 }
        } else {
            match unescape(s[i + 1]) {
                Some(b) => string_rest(s, i + 2, quote, data.push(b)),
                None => Scan::Failure { reason: Reason::InvalidEscape, at: (i + 1) as nat },
            }
        }
    } else {
        string_rest(s, i + 1, quote, data.push(s[i]))
    }
}

/// A quoted string, closed by the delimiter that opens it.
pub open spec fn string(s: Seq<u8>) -> Scan
    recommends
        s.len() > 0,
{
    string_rest(s, 1, s[0], Seq::empty())
}

/// The number that a run of decimal digits denotes.
pub open spec fn decimal(digits: Seq<u8>) -> nat
    decreases digits.len(),
{
    if digits.len() == 0 {
        0
    } else {
        (decimal(digits.drop_last()) * 10 + (digits.last() - ZERO)) as nat
    }
}

/// The first position in `i..end` at which the digits of `s` up to and with
/// that position denote more than an `i64` holds; `end` where there is none.
pub open spec fn int_limit(s: Seq<u8>, i: int, end: int) -> int
    decreases end - i,
{
    if i < 0 || i >= end {
        end
    } else if decimal(s.subrange(0, i + 1)) > i64::MAX {
        i
    } else {
        int_limit(s, i + 1, end)
    }
}

/// A numeric literal: digits, then at most one decimal point with the digits
/// after it, then at most one exponent, which is `e` or `E`, an optional
/// sign, and at least one digit. Digits alone are an integer, where an `i64`
/// holds it; anything more is a floating-point literal, handed on as text. A
/// decimal point right after the literal, an exponent without digits, and an
/// integer too large are malformed.
pub open spec fn number(s: Seq<u8>) -> Scan {
    let int_end = run_end(s, 0, ByteClass::Digit);
    let has_dot = follows(s, int_end, DOT);
    let frac_end = if has_dot {
        run_end(s, int_end + 1, ByteClass::Digit)
    } else {
        int_end
    };
    let has_exp = follows(s, frac_end, LOWER_E) || follows(s, frac_end, UPPER_E);
    let exp_from = if follows(s, frac_end + 1, PLUS) || follows(s, frac_end + 1, DASH) {
        frac_end + 2
    } else {
        frac_end + 1
    };
    let exp_end = run_end(s, exp_from, ByteClass::Digit);
    let end = if has_exp {
        exp_end
    } else {
        frac_end
    };
    if has_exp && exp_end == exp_from {
        Scan::Failure { reason: Reason::MalformedNumber, at: frac_end as nat }
    } else if follows(s, end, DOT) {
        Scan::Failure { reason: Reason::MalformedNumber, at: end as nat }
    } else if has_dot || has_exp {
        Scan::Token { token: TokenView::Double(s.subrange(0, end)), len: end as nat }
    } else if decimal(s.subrange(0, end)) <= i64::MAX {
        Scan::Token { token: TokenView::Int(decimal(s.subrange(0, end)) as int), len: end as nat }
    } else {
        Scan::Failure { reason: Reason::MalformedNumber, at: int_limit(s, 0, end) as nat }
    }
}

/// The token that starts at the first byte of `s`, which is no white space.
pub open spec fn scan(s: Seq<u8>) -> Scan {
    if s.len() == 0 {
        Scan::Token { token: TokenView::Eof, len: 0 }
    } else if single(s[0]) is Some {
        Scan::Token { token: single(s[0])->0, len: 1 }
    } else if let Some((token, len)) = operator(s) {
        Scan::Token { token, len }
    } else if s[0] == DASH {
        comment(s)
    } else if s[0] == QUOTE || s[0] == APOSTROPHE {
        string(s)
    } else if spec_is_iden(s[0], true) {
        word(s)
    } else if spec_is_digit(s[0]) {
        number(s)
    } else {
        Scan::Failure { reason: Reason::UnrecognizedByte, at: 0 }
    }
}

/// Whether `found` keeps the rules that hold of every scan of `s`: a token
/// lies inside the input and is empty only as the end of input; where it has
/// a spelling, the input starts with it; an integer is the number that its
/// digits denote, and an `i64` holds it; a string stands between two equal
/// delimiters; a failure is found at a byte of the input.
pub open spec fn spelled(s: Seq<u8>, found: Scan) -> bool {
    match found {
        Scan::Token { token, len } => {
            &&& len <= s.len()
            &&& len == 0 <==> token == TokenView::Eof
            &&& token.text() matches Some(text) ==> text == s.subrange(0, len as int)
            &&& token matches TokenView::Int(value) ==> 0 <= value <= i64::MAX && value
                == decimal(s.subrange(0, len as int)) && forall|i: int|
                0 <= i < len ==> spec_is_digit(#[trigger] s[i])
            &&& token is String ==> len >= 2 && s[len - 1] == s[0] && (s[0] == QUOTE || s[0]
                == APOSTROPHE)
        },
        Scan::Failure { reason, at } => at < s.len(),
    }
}

/// `spelled`, kept folded while the cases of `scan` are told apart.
#[verifier::opaque]
spec fn checked(s: Seq<u8>, found: Scan) -> bool {
    spelled(s, found)
}

proof fn lemma_single_spelled(s: Seq<u8>)
    requires
        s.len() > 0,
    ensures
        single(s[0]) matches Some(token) ==> checked(s, Scan::Token { token, len: 1 }),
{
    reveal(checked);
    if let Some(token) = single(s[0]) {
        assert(token.text()->0 =~= s.subrange(0, 1));
    }
}

proof fn lemma_operator_spelled(s: Seq<u8>)
    requires
        s.len() > 0,
    ensures
        operator(s) matches Some((token, len)) ==> checked(s, Scan::Token { token, len }),
{
    reveal(checked);
    if let Some((token, len)) = operator(s) {
        assert(token.text()->0 =~= s.subrange(0, len as int));
    }
}

proof fn lemma_comment_spelled(s: Seq<u8>)
    requires
        follows(s, 0, DASH),
        follows(s, 1, DASH),
    ensures
        checked(s, comment(s)),
{
    reveal(checked);
    lemma_run_end(s, 2, ByteClass::Text);
}

proof fn lemma_word_spelled(s: Seq<u8>)
    requires
        s.len() > 0,
    ensures
        checked(s, word(s)),
{
    reveal(checked);
    lemma_run_end(s, 1, ByteClass::Word);
}

proof fn lemma_string_spelled(s: Seq<u8>)
    requires
        s.len() > 0,
        s[0] == QUOTE || s[0] == APOSTROPHE,
    ensures
        checked(s, string(s)),
{
    reveal(checked);
    lemma_string_rest(s, 1, s[0], Seq::empty());
}

proof fn lemma_number_spelled(s: Seq<u8>)
    requires
        s.len() > 0,
        spec_is_digit(s[0]),
    ensures
        checked(s, number(s)),
{
    reveal(checked);
    lemma_number(s);
}

proof fn lemma_end_spelled(s: Seq<u8>)
    requires
        s.len() == 0,
    ensures
        checked(s, Scan::Token { token: TokenView::Eof, len: 0 }),
{
    reveal(checked);
    assert(TokenView::Eof.text()->0 =~= s.subrange(0, 0));
}

proof fn lemma_failure_spelled(s: Seq<u8>)
    requires
        s.len() > 0,
    ensures
        checked(s, Scan::Failure { reason: Reason::UnrecognizedByte, at: 0 }),
{
    reveal(checked);
}

proof fn lemma_scan_checked(s: Seq<u8>)
    ensures
        checked(s, scan(s)),
{
    if s.len() == 0 {
        lemma_end_spelled(s);
    } else if single(s[0]) is Some {
        lemma_single_spelled(s);
    } else if operator(s) is Some {
        lemma_operator_spelled(s);
    } else if s[0] == DASH {
        lemma_comment_spelled(s);
    } else if s[0] == QUOTE || s[0] == APOSTROPHE {
        lemma_string_spelled(s);
    } else if spec_is_iden(s[0], true) {
        lemma_word_spelled(s);
    } else if spec_is_digit(s[0]) {
        lemma_number_spelled(s);
    } else {
        lemma_failure_spelled(s);
    }
}

/// What holds of every scan: see `spelled`.
pub proof fn lemma_scan_spelling(s: Seq<u8>)
    ensures
        spelled(s, scan(s)),
{
    lemma_scan_checked(s);
    reveal(checked);
}

/// A quoted string ends inside the input with its delimiter, behind the
/// place where its rest began; a failure is found at a byte of the input.
pub proof fn lemma_string_rest(s: Seq<u8>, i: int, quote: u8, data: Seq<u8>)
    requires
        0 <= i,
        s.len() > 0,
    ensures
        match string_rest(s, i, quote, data) {
            Scan::Token { token, len } => i < len <= s.len() && token is String && s[len - 1]
                == quote,
            Scan::Failure { reason, at } => at < s.len(),
        },
    decreases s.len() - i,
{
    if i < s.len() && s[i] != quote {
        if s[i] == BACKSLASH {
            if i + 1 < s.len() {
                if let Some(b) = unescape(s[i + 1]) {
                    lemma_string_rest(s, i + 2, quote, data.push(b));
                }
            }
        } else {
            lemma_string_rest(s, i + 1, quote, data.push(s[i]));
        }
    }
}

/// A numeric literal ends inside the input. An integer consists of digits
/// and is the number that they denote, which an `i64` holds; a floating-point
/// literal is its own text. A failure is found at a byte of the input.
pub proof fn lemma_number(s: Seq<u8>)
    requires
        s.len() > 0,
        spec_is_digit(s[0]),
    ensures
        match number(s) {
            Scan::Token { token, len } => {
                &&& 0 < len <= s.len()
                &&& token matches TokenView::Int(value) ==> 0 <= value <= i64::MAX && value
                    == decimal(s.subrange(0, len as int)) && forall|i: int|
                    0 <= i < len ==> spec_is_digit(#[trigger] s[i])
                &&& token matches TokenView::Double(text) ==> text == s.subrange(0, len as int)
                &&& token is Int || token is Double
            },
            Scan::Failure { reason, at } => at < s.len() && reason == Reason::MalformedNumber,
        },
{
    let int_end = run_end(s, 0, ByteClass::Digit);
    lemma_run_end(s, 0, ByteClass::Digit);
    if follows(s, int_end, DOT) {
        lemma_run_end(s, int_end + 1, ByteClass::Digit);
    }
    let frac_end = if follows(s, int_end, DOT) {
        run_end(s, int_end + 1, ByteClass::Digit)
    } else {
        int_end
    };
    let has_exp = follows(s, frac_end, LOWER_E) || follows(s, frac_end, UPPER_E);
    if has_exp {
        let exp_from = if follows(s, frac_end + 1, PLUS) || follows(s, frac_end + 1, DASH) {
            frac_end + 2
        } else {
            frac_end + 1
        };
        lemma_run_end(s, exp_from, ByteClass::Digit);
    }
    assert(s.subrange(0, 0).len() == 0);
    lemma_int_limit(s, 0, int_end);
}

/// Of a run of digits, a longer start denotes no less than a shorter one.
pub proof fn lemma_decimal_grows(s: Seq<u8>, shorter: int, longer: int)
    requires
        0 <= shorter <= longer <= s.len(),
        forall|i: int| 0 <= i < longer ==> spec_is_digit(#[trigger] s[i]),
    ensures
        decimal(s.subrange(0, shorter)) <= decimal(s.subrange(0, longer)),
    decreases longer - shorter,
{
    if shorter < longer {
        lemma_decimal_grows(s, shorter, longer - 1);
        assert(s.subrange(0, longer).drop_last() =~= s.subrange(0, longer - 1));
    }
}

/// Where the digits before `end` denote more than an `i64` holds,
/// `int_limit` finds the digit with which they first do; where they do not,
/// it finds none.
pub proof fn lemma_int_limit(s: Seq<u8>, i: int, end: int)
    requires
        0 <= i <= end <= s.len(),
        forall|i: int| 0 <= i < end ==> spec_is_digit(#[trigger] s[i]),
        decimal(s.subrange(0, i)) <= i64::MAX,
    ensures
        i <= int_limit(s, i, end) <= end,
        int_limit(s, i, end) == end <==> decimal(s.subrange(0, end)) <= i64::MAX,
        decimal(s.subrange(0, int_limit(s, i, end))) <= i64::MAX,
        int_limit(s, i, end) < end ==> decimal(s.subrange(0, int_limit(s, i, end) + 1))
            > i64::MAX,
    decreases end - i,
{
    if i < end {
        if decimal(s.subrange(0, i + 1)) <= i64::MAX {
            lemma_int_limit(s, i + 1, end);
        } else {
            lemma_decimal_grows(s, i + 1, end);
        }
    }
}

} // verus!
