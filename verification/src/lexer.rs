//! The scanner: a cursor over source text that hands out one token per call.

use crate::chars::{
    is_digit, is_iden, lemma_run_end, lemma_run_end_shift, lemma_run_through, run_end, scan_run,
    spec_is_space, ByteClass, AMPERSAND, APOSTROPHE, BACKSLASH, BAR, CARET, CURLY_CLOSE,
    CURLY_OPEN, DASH, DOT, EQUALS, GREATER, HASH, LESS, LOWER_E, PAREN_CLOSE, PAREN_OPEN, PERCENT,
    PLUS, QUOTE, SLASH, SQUARE_CLOSE, SQUARE_OPEN, STAR, TILDE, UPPER_E, ZERO,
};
use crate::grammar::{
    comment, decimal, follows, int_limit, is_keyword, lemma_decimal_grows, lemma_scan_spelling,
    number, operator, scan, single, string, string_rest, unescape, word, Scan, KEYWORDS,
};
use crate::runtime::{line_at, line_of, RuntimeError};
use crate::text::{piece, same_bytes};
use crate::token::{Reason, Token, TokenView};
use vstd::prelude::*;
use vstd::slice::slice_subrange;
use vstd::string::*;

verus! {

/// A scanner as a value: the bytes of its source and the place of its cursor.
pub struct LexerView {
    pub source: Seq<u8>,
    pub offset: nat,
}

impl LexerView {
    /// The cursor lies in the source or at its end.
    pub open spec fn wf(self) -> bool {
        self.offset <= self.source.len()
    }

    /// Where the next token starts: the cursor, moved over white space.
    pub open spec fn token_start(self) -> nat {
        run_end(self.source, self.offset as int, ByteClass::Space) as nat
    }

    /// The source from the start of the next token on.
    pub open spec fn pending(self) -> Seq<u8> {
        self.source.subrange(self.token_start() as int, self.source.len() as int)
    }

    /// What scanning the next token gives.
    pub open spec fn outcome(self) -> Scan {
        scan(self.pending())
    }

    /// The scanner with its cursor `len` bytes on, though never past the end.
    pub open spec fn advance(self, len: nat) -> LexerView {
        LexerView {
            source: self.source,
            offset: if self.offset + len <= self.source.len() {
                self.offset + len
            } else {
                self.source.len()
            },
        }
    }
}

/// White space before a token changes neither the token nor its length, nor
/// a failure and its place: it only moves the start along.
pub proof fn lemma_leading_space(space: Seq<u8>, rest: Seq<u8>)
    requires
        forall|i: int| 0 <= i < space.len() ==> spec_is_space(#[trigger] space[i]),
    ensures
        ({
            let padded = LexerView { source: space + rest, offset: 0 };
            let bare = LexerView { source: rest, offset: 0 };
            &&& padded.token_start() == space.len() + bare.token_start()
            &&& padded.outcome() == bare.outcome()
        }),
{
    let padded = LexerView { source: space + rest, offset: 0 };
    let bare = LexerView { source: rest, offset: 0 };
    assert forall|i: int| 0 <= i < space.len() implies ByteClass::Space.contains(
        #[trigger] (space + rest)[i],
    ) by {
        assert((space + rest)[i] == space[i]);
    }
    lemma_run_through(space + rest, 0, space.len() as int, ByteClass::Space);
    lemma_run_end_shift(space, rest, 0, ByteClass::Space);
    lemma_run_end(rest, 0, ByteClass::Space);
    assert(padded.pending() =~= bare.pending());
}

/// Nothing but white space is passed over before a token: every byte between
/// the cursor and the start of the token is white space, and the token starts
/// at a byte that is none, or where the source ends.
pub proof fn lemma_space_passed(lexer: LexerView)
    requires
        lexer.wf(),
    ensures
        lexer.offset <= lexer.token_start() <= lexer.source.len(),
        forall|i: int|
            lexer.offset <= i < lexer.token_start() ==> spec_is_space(#[trigger] lexer.source[i]),
        lexer.token_start() < lexer.source.len() ==> !spec_is_space(
            lexer.source[lexer.token_start() as int],
        ),
        lexer.pending().len() > 0 ==> !spec_is_space(lexer.pending()[0]),
{
    lemma_run_end(lexer.source, lexer.offset as int, ByteClass::Space);
}

/// The source from a token's first byte, cut at the token's length, spells
/// the token: it is the identifier, the keyword, the comment or the
/// floating-point literal itself, and the one spelling of an operator. The
/// token ends inside the source, and only the end of input is empty.
pub proof fn lemma_token_text(lexer: LexerView)
    requires
        lexer.wf(),
    ensures
        lexer.offset <= lexer.token_start() <= lexer.source.len(),
        match lexer.outcome() {
            Scan::Token { token, len } => {
                &&& lexer.token_start() + len <= lexer.source.len()
                &&& len == 0 <==> token == TokenView::Eof
                &&& token.text() matches Some(text) ==> text == lexer.source.subrange(
                    lexer.token_start() as int,
                    (lexer.token_start() + len) as int,
                )
            },
            Scan::Failure { reason, at } => lexer.token_start() + at < lexer.source.len(),
        },
{
    lemma_run_end(lexer.source, lexer.offset as int, ByteClass::Space);
    lemma_scan_spelling(lexer.pending());
    match lexer.outcome() {
        Scan::Token { token, len } => {
            assert(lexer.pending().subrange(0, len as int) =~= lexer.source.subrange(
                lexer.token_start() as int,
                (lexer.token_start() + len) as int,
            ));
        },
        Scan::Failure { reason, at } => {},
    }
}

/// Scanning keeps no state but the source and the cursor: two scanners that
/// agree in both find the same, and a scanner that has found a token finds
/// it again until the cursor is moved.
pub proof fn lemma_rescan(first: LexerView, second: LexerView)
    requires
        first.source == second.source,
        first.offset == second.offset,
    ensures
        first.token_start() == second.token_start(),
        first.outcome() == second.outcome(),
        ({
            let stopped = LexerView { source: first.source, offset: first.token_start() };
            stopped.token_start() == first.token_start() && stopped.outcome() == first.outcome()
        }),
{
    if first.offset <= first.source.len() {
        lemma_run_end(first.source, first.offset as int, ByteClass::Space);
    }
}

pub struct Lexer<'a> {
    source: &'a str,
    offset: usize,
}

impl<'a> View for Lexer<'a> {
    type V = LexerView;

    closed spec fn view(&self) -> LexerView {
        LexerView { source: self.source.spec_bytes(), offset: self.offset as nat }
    }
}

/// Whether a scanner's answer is what `scan` describes: the same token with
/// the same length, or the same reason at the same place.
spec fn agrees<'a>(
    found: Result<(Token<'a>, usize), (Reason, usize)>,
    scan: Scan,
) -> bool {
    match scan {
        Scan::Token { token, len } => found matches Ok((t, n)) && t@ == token && n == len,
        Scan::Failure { reason, at } => found matches Err((r, p)) && r == reason && p == at,
    }
}

/// Whether `word` is one of the reserved words.
pub fn reserved(word: &[u8]) -> (reserved: bool)
    ensures
        reserved == is_keyword(word@),
{
    let mut i: usize = 0;
    while i < KEYWORDS.len()
        invariant
            i <= KEYWORDS@.len(),
            forall|j: int| 0 <= j < i ==> (#[trigger] KEYWORDS@[j]).spec_bytes() != word@,
        decreases KEYWORDS@.len() - i,
    {
        if same_bytes(KEYWORDS[i].as_bytes(), word) {
            return true;
        }
        i = i + 1;
    }
    false
}

/// Whether position `i` of `s` holds the byte `b`.
fn next_is(s: &[u8], i: usize, b: u8) -> (found: bool)
    ensures
        found == follows(s@, i as int, b),
{
    i < s.len() && s[i] == b
}

/// The token that is the byte `b` alone, if there is one.
fn scan_single<'a>(b: u8) -> (found: Option<Token<'a>>)
    ensures
        match single(b) {
            Some(token) => found matches Some(t) && t@ == token,
            None => found is None,
        },
{
    if b == PAREN_OPEN {
        Some(Token::Open)
    } else if b == PAREN_CLOSE {
        Some(Token::Close)
    } else if b == SQUARE_OPEN {
        Some(Token::SquareOpen)
    } else if b == SQUARE_CLOSE {
        Some(Token::SquareClose)
    } else if b == CURLY_OPEN {
        Some(Token::CurlyOpen)
    } else if b == CURLY_CLOSE {
        Some(Token::CurlyClose)
    } else if b == PLUS {
        Some(Token::Add)
    } else if b == STAR {
        Some(Token::Mul)
    } else if b == CARET {
        Some(Token::Pow)
    } else if b == PERCENT {
        Some(Token::Mod)
    } else if b == BAR {
        Some(Token::Bor)
    } else if b == HASH {
        Some(Token::Len)
    } else if b == AMPERSAND {
        Some(Token::Band)
    } else {
        None
    }
}

/// The operator at the start of `s` that its following bytes decide.
fn scan_operator<'a>(s: &[u8]) -> (found: Option<(Token<'a>, usize)>)
    requires
        s@.len() > 0,
    ensures
        match operator(s@) {
            Some((token, len)) => found matches Some((t, n)) && t@ == token && n == len && n
                <= s@.len(),
            None => found is None,
        },
{
    let lead = s[0];
    if lead == DOT {
        if next_is(s, 1, DOT) {
            if next_is(s, 2, DOT) {
                Some((Token::Varg, 3))
            } else {
                Some((Token::Concat, 2))
            }
        } else {
            Some((Token::Dot, 1))
        }
    } else if lead == GREATER {
        if next_is(s, 1, GREATER) {
            Some((Token::Shr, 2))
        } else if next_is(s, 1, EQUALS) {
            Some((Token::Ge, 2))
        } else {
            Some((Token::Gt, 1))
        }
    } else if lead == LESS {
        if next_is(s, 1, LESS) {
            Some((Token::Shl, 2))
        } else if next_is(s, 1, EQUALS) {
            Some((Token::Le, 2))
        } else {
            Some((Token::Lt, 1))
        }
    } else if lead == TILDE {
        if next_is(s, 1, EQUALS) {
            Some((Token::Neq, 2))
        } else {
            Some((Token::Bnot, 1))
        }
    } else if lead == EQUALS {
        if next_is(s, 1, EQUALS) {
            Some((Token::Eq, 2))
        } else {
            Some((Token::Assign, 1))
        }
    } else if lead == SLASH {
        if next_is(s, 1, SLASH) {
            Some((Token::Idiv, 2))
        } else {
            Some((Token::Div, 1))
        }
    } else if lead == DASH && !next_is(s, 1, DASH) {
        Some((Token::Sub, 1))
    } else {
        None
    }
}

/// The line comment that starts `s`.
fn scan_comment<'a>(source: &'a str, start: usize, s: &[u8]) -> (found: (Token<'a>, usize))
    requires
        start <= source.spec_bytes().len(),
        s@ == source.spec_bytes().subrange(start as int, source.spec_bytes().len() as int),
        follows(s@, 0, DASH),
        follows(s@, 1, DASH),
    ensures
        agrees(Ok(found), comment(s@)),
        found.1 <= s@.len(),
{
    let end = scan_run(s, 2, ByteClass::Text);
    proof {
        lemma_run_end(s@, 2, ByteClass::Text);
    }
    let text = piece(source, start, end);
    proof {
        assert(text.spec_bytes() =~= s@.subrange(0, end as int));
    }
    (Token::Comment(text), end)
}

/// The identifier or keyword that starts `s`.
fn scan_word<'a>(source: &'a str, start: usize, s: &[u8]) -> (found: (Token<'a>, usize))
    requires
        start <= source.spec_bytes().len(),
        s@ == source.spec_bytes().subrange(start as int, source.spec_bytes().len() as int),
        s@.len() > 0,
        is_iden(s@[0], true),
    ensures
        agrees(Ok(found), word(s@)),
        found.1 <= s@.len(),
{
    let end = scan_run(s, 1, ByteClass::Word);
    proof {
        lemma_run_end(s@, 1, ByteClass::Word);
        assert(ByteClass::Word.contains(s@[end - 1]));
    }
    let text = piece(source, start, end);
    proof {
        assert(text.spec_bytes() =~= s@.subrange(0, end as int));
    }
    if reserved(text.as_bytes()) {
        (Token::Keyword(text), end)
    } else {
        (Token::Identifier(text), end)
    }
}

/// The byte that the escape character `b` stands for.
fn decode_escape(b: u8) -> (byte: Option<u8>)
    ensures
        byte == unescape(b),
{
    if b == 0x61 {
        Some(7)
    } else if b == 0x62 {
        Some(8)
    } else if b == 0x66 {
        Some(12)
    } else if b == 0x6e {
        Some(10)
    } else if b == 0x74 {
        Some(9)
    } else if b == 0x76 {
        Some(11)
    } else {
        None
    }
}

/// The quoted string that starts `s`.
fn scan_string<'a>(s: &[u8]) -> (found: Result<(Token<'a>, usize), (Reason, usize)>)
    requires
        s@.len() > 0,
    ensures
        agrees(found, string(s@)),
        match found {
            Ok((_, n)) => n <= s@.len(),
            Err((_, p)) => p < s@.len(),
        },
{
    let quote = s[0];
    let mut data: Vec<u8> = Vec::new();
    let mut i: usize = 1;
    while i < s.len()
        invariant
            1 <= i <= s@.len(),
            string(s@) == string_rest(s@, i as int, quote, data@),
        decreases s@.len() - i,
    {
        let b = s[i];
        if b == quote {
            return Ok((Token::String(data), i + 1));
        }
        if b == BACKSLASH {
            if i + 1 >= s.len() {
                return Err((Reason::UnterminatedString, 0));
            }
            match decode_escape(s[i + 1]) {
                Some(byte) => {
                    data.push(byte);
                    i = i + 2;
                },
                None => {
                    return Err((Reason::InvalidEscape, i + 1));
                },
            }
        } else {
            data.push(b);
            i = i + 1;
        }
    }
    Err((Reason::UnterminatedString, 0))
}

/// The value of the digits `s[..end]`, or the place of the first digit with
/// which they denote more than an `i64` holds.
fn scan_int(s: &[u8], end: usize) -> (found: Result<i64, usize>)
    requires
        end <= s@.len(),
        forall|i: int| 0 <= i < end ==> is_digit(#[trigger] s@[i]),
    ensures
        match found {
            Ok(value) => value == decimal(s@.subrange(0, end as int)),
            Err(at) => at < end && at == int_limit(s@, 0, end as int) && decimal(
                s@.subrange(0, end as int),
            ) > i64::MAX,
        },
{
    let mut value: i64 = 0;
    let mut i: usize = 0;
    while i < end
        invariant
            i <= end <= s@.len(),
            forall|i: int| 0 <= i < end ==> is_digit(#[trigger] s@[i]),
            value == decimal(s@.subrange(0, i as int)),
            int_limit(s@, 0, end as int) == int_limit(s@, i as int, end as int),
        decreases end - i,
    {
        let digit: i64 = (s[i] - ZERO) as i64;
        proof {
            assert(s@.subrange(0, i + 1).drop_last() =~= s@.subrange(0, i as int));
            assert(decimal(s@.subrange(0, i + 1)) == value * 10 + digit);
        }
        if value > (i64::MAX - digit) / 10 {
            proof {
                lemma_decimal_grows(s@, i + 1, end as int);
            }
            return Err(i);
        }
        value = value * 10 + digit;
        i = i + 1;
    }
    proof {
        assert(s@.subrange(0, 0).len() == 0);
    }
    Ok(value)
}

/// The numeric literal that starts `s`.
fn scan_number<'a>(source: &'a str, start: usize, s: &[u8]) -> (found: Result<
    (Token<'a>, usize),
    (Reason, usize),
>)
    requires
        start <= source.spec_bytes().len(),
        s@ == source.spec_bytes().subrange(start as int, source.spec_bytes().len() as int),
        s@.len() > 0,
        is_digit(s@[0]),
    ensures
        agrees(found, number(s@)),
        match found {
            Ok((_, n)) => n <= s@.len(),
            Err((_, p)) => p < s@.len(),
        },
{
    let int_end = scan_run(s, 0, ByteClass::Digit);
    let has_dot = next_is(s, int_end, DOT);
    let frac_end = if has_dot {
        scan_run(s, int_end + 1, ByteClass::Digit)
    } else {
        int_end
    };
    let has_exp = next_is(s, frac_end, LOWER_E) || next_is(s, frac_end, UPPER_E);
    let mut end = frac_end;
    if has_exp {
        let exp_from = if next_is(s, frac_end + 1, PLUS) || next_is(s, frac_end + 1, DASH) {
            frac_end + 2
        } else {
            frac_end + 1
        };
        end = scan_run(s, exp_from, ByteClass::Digit);
        if end == exp_from {
            return Err((Reason::MalformedNumber, frac_end));
        }
        proof {
            lemma_run_end(s@, exp_from as int, ByteClass::Digit);
            assert(ByteClass::Digit.contains(s@[end - 1]));
        }
    }
    if next_is(s, end, DOT) {
        return Err((Reason::MalformedNumber, end));
    }
    proof {
        lemma_run_end(s@, 0, ByteClass::Digit);
        if has_dot {
            lemma_run_end(s@, int_end + 1, ByteClass::Digit);
        }
    }
    if has_dot || has_exp {
        proof {
            if !has_exp && end > int_end + 1 {
                assert(ByteClass::Digit.contains(s@[end - 1]));
            }
        }
        let text = piece(source, start, end);
        proof {
            assert(text.spec_bytes() =~= s@.subrange(0, end as int));
        }
        Ok((Token::Double(text), end))
    } else {
        match scan_int(s, end) {
            Ok(value) => Ok((Token::Int(value), end)),
            Err(at) => Err((Reason::MalformedNumber, at)),
        }
    }
}

/// The token that starts `s`, the source from `start` on.
fn scan_token<'a>(source: &'a str, start: usize, s: &[u8]) -> (found: Result<
    (Token<'a>, usize),
    (Reason, usize),
>)
    requires
        start <= source.spec_bytes().len(),
        s@ == source.spec_bytes().subrange(start as int, source.spec_bytes().len() as int),
    ensures
        agrees(found, scan(s@)),
        match found {
            Ok((_, n)) => n <= s@.len(),
            Err((_, p)) => p < s@.len(),
        },
{
    if s.len() == 0 {
        return Ok((Token::Eof, 0));
    }
    let lead = s[0];
    if let Some(token) = scan_single(lead) {
        return Ok((token, 1));
    }
    if let Some(found) = scan_operator(s) {
        return Ok(found);
    }
    if lead == DASH {
        Ok(scan_comment(source, start, s))
    } else if lead == QUOTE || lead == APOSTROPHE {
        scan_string(s)
    } else if is_iden(lead, true) {
        Ok(scan_word(source, start, s))
    } else if is_digit(lead) {
        scan_number(source, start, s)
    } else {
        Err((Reason::UnrecognizedByte, 0))
    }
}

impl<'a> Lexer<'a> {
    #[verifier::type_invariant]
    spec fn inv(self) -> bool {
        self.offset <= self.source.spec_bytes().len()
    }

    /// A scanner at the start of `source`.
    pub fn new(source: &'a str) -> (lexer: Lexer<'a>)
        ensures
            lexer@ == (LexerView { source: source.spec_bytes(), offset: 0 }),
    {
        Lexer { source: source, offset: 0 }
    }

    /// The place of the cursor.
    pub fn offset(&self) -> (offset: usize)
        ensures
            offset == self@.offset,
            self@.wf(),
    {
        proof {
            use_type_invariant(self);
        }
        self.offset
    }

    /// The source from the cursor on.
    pub fn bytes(&self) -> (rest: &'a [u8])
        ensures
            self@.wf(),
            rest@ == self@.source.subrange(self@.offset as int, self@.source.len() as int),
    {
        proof {
            use_type_invariant(self);
        }
        let bytes = self.source.as_bytes();
        slice_subrange(bytes, self.offset, bytes.len())
    }

    /// Scans the token that starts at or after the cursor. White space before
    /// it is passed over and the cursor left at the token's first byte: the
    /// token is not consumed, and its length is returned with it. Where no
    /// token can be read the cursor is left at the offending byte.
    pub fn read_token(&mut self) -> (found: Result<(Token<'a>, usize), Reason>)
        ensures
            final(self)@.wf(),
            final(self)@.source == old(self)@.source,
            old(self)@.offset <= final(self)@.offset,
            match old(self)@.outcome() {
                Scan::Token { token, len } => {
                    &&& found matches Ok((t, n)) && t@ == token && n == len
                    &&& final(self)@.offset == old(self)@.token_start()
                    &&& final(self)@.offset + len <= final(self)@.source.len()
                },
                Scan::Failure { reason, at } => {
                    &&& found == Err::<(Token<'a>, usize), Reason>(reason)
                    &&& final(self)@.offset == old(self)@.token_start() + at
                    &&& final(self)@.offset < final(self)@.source.len()
                },
            },
    {
        proof {
            use_type_invariant(&*self);
        }
        let source = self.source;
        let start = scan_run(source.as_bytes(), self.offset, ByteClass::Space);
        self.offset = start;
        let s = self.bytes();
        match scan_token(source, start, s) {
            Ok(found) => Ok(found),
            Err((reason, at)) => {
                self.offset = start + at;
                Err(reason)
            },
        }
    }

    /// The error by which the runtime reports `reason` for the place where
    /// the cursor stands: its message, and the line of the cursor.
    pub fn diagnose(&self, reason: Reason) -> (error: RuntimeError<'static>)
        ensures
            error matches RuntimeError::LexerError { message, line } && message@
                == reason.spec_message() && line == if line_of(
                self@.source,
                self@.offset as int,
            ) <= usize::MAX {
                line_of(self@.source, self@.offset as int)
            } else {
                usize::MAX as nat
            },
    {
        proof {
            use_type_invariant(self);
        }
        RuntimeError::LexerError {
            message: reason.message(),
            line: line_at(self.source.as_bytes(), self.offset),
        }
    }

    /// Moves the cursor `len` bytes on; it stops at the end of the source.
    pub fn advance(&mut self, len: usize)
        ensures
            final(self)@ == old(self)@.advance(len as nat),
            final(self)@.wf(),
            old(self)@.offset <= final(self)@.offset,
    {
        proof {
            use_type_invariant(&*self);
        }
        let end = self.source.as_bytes().len();
        if len <= end - self.offset {
            self.offset = self.offset + len;
        } else {
            self.offset = end;
        }
    }
}

} // verus!
