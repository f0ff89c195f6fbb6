//! Byte classes of the scanner, and the bytes it knows by name.

use vstd::prelude::*;

verus! {

/// The line feed, which ends a line.
pub const LINE_FEED: u8 = 0x0a;

/// The carriage return, which ends a line too.
pub const CARRIAGE_RETURN: u8 = 0x0d;

/// `"`
pub const QUOTE: u8 = 0x22;

/// `#`
pub const HASH: u8 = 0x23;

/// `%`
pub const PERCENT: u8 = 0x25;

/// `&`
pub const AMPERSAND: u8 = 0x26;

/// `'`
pub const APOSTROPHE: u8 = 0x27;

/// `(`
pub const PAREN_OPEN: u8 = 0x28;

/// `)`
pub const PAREN_CLOSE: u8 = 0x29;

/// `*`
pub const STAR: u8 = 0x2a;

/// `+`
pub const PLUS: u8 = 0x2b;

/// `-`
pub const DASH: u8 = 0x2d;

/// `.`
pub const DOT: u8 = 0x2e;

/// `/`
pub const SLASH: u8 = 0x2f;

/// `0`
pub const ZERO: u8 = 0x30;

/// `9`
pub const NINE: u8 = 0x39;

/// `<`
pub const LESS: u8 = 0x3c;

/// `=`
pub const EQUALS: u8 = 0x3d;

/// `>`
pub const GREATER: u8 = 0x3e;

/// `E`
pub const UPPER_E: u8 = 0x45;

/// `[`
pub const SQUARE_OPEN: u8 = 0x5b;

/// `\`
pub const BACKSLASH: u8 = 0x5c;

/// `]`
pub const SQUARE_CLOSE: u8 = 0x5d;

/// `^`
pub const CARET: u8 = 0x5e;

/// `e`
pub const LOWER_E: u8 = 0x65;

/// `{`
pub const CURLY_OPEN: u8 = 0x7b;

/// `|`
pub const BAR: u8 = 0x7c;

/// `}`
pub const CURLY_CLOSE: u8 = 0x7d;

/// `~`
pub const TILDE: u8 = 0x7e;

/// Whether `b` may stand in an identifier: a letter or an underscore, or,
/// anywhere but first, a digit.
pub open spec fn spec_is_iden(b: u8, is_first: bool) -> bool {
    ||| !is_first && 0x30 <= b <= 0x39
    ||| 0x61 <= b <= 0x7a
    ||| 0x41 <= b <= 0x5a
    ||| b == 0x5f
}

/// Whether `b` is one of tab, line feed, vertical tab, form feed, carriage
/// return or space.
pub open spec fn spec_is_space(b: u8) -> bool {
    9 <= b <= 13 || b == 32
}

/// Whether `b` is a decimal digit.
pub open spec fn spec_is_digit(b: u8) -> bool {
    ZERO <= b <= NINE
}

/// Whether `b` may stand in an identifier, first in it or later.
#[verifier::when_used_as_spec(spec_is_iden)]
pub fn is_iden(b: u8, is_first: bool) -> (r: bool)
    ensures
        r == spec_is_iden(b, is_first),
{
    !is_first && b >= 0x30 && b <= 0x39 || b >= 0x61 && b <= 0x7a || b >= 0x41 && b <= 0x5a || b
        == 0x5f
}

/// Whether `b` is white space.
#[verifier::when_used_as_spec(spec_is_space)]
pub fn is_space(b: u8) -> (r: bool)
    ensures
        r == spec_is_space(b),
{
    b >= 9 && b <= 13 || b == 32
}

/// Whether `b` is a decimal digit.
#[verifier::when_used_as_spec(spec_is_digit)]
pub fn is_digit(b: u8) -> (r: bool)
    ensures
        r == spec_is_digit(b),
{
    b >= ZERO && b <= NINE
}

/// The classes of bytes that the scanner consumes in runs.
#[derive(Debug, Clone, Copy, PartialEq, Eq, Structural)]
pub enum ByteClass {
    /// White space between tokens.
    Space,
    /// Decimal digits.
    Digit,
    /// What may follow the first byte of an identifier.
    Word,
    /// Anything but the end of a line.
    Text,
}

impl ByteClass {
    /// Whether `b` belongs to the class.
    pub open spec fn spec_contains(self, b: u8) -> bool {
        match self {
            ByteClass::Space => spec_is_space(b),
            ByteClass::Digit => spec_is_digit(b),
            ByteClass::Word => spec_is_iden(b, false),
            ByteClass::Text => b != LINE_FEED && b != CARRIAGE_RETURN,
        }
    }

    /// Whether `b` belongs to the class.
    #[verifier::when_used_as_spec(spec_contains)]
    pub fn contains(self, b: u8) -> (r: bool)
        ensures
            r == self.spec_contains(b),
    {
        match self {
            ByteClass::Space => is_space(b),
            ByteClass::Digit => is_digit(b),
            ByteClass::Word => is_iden(b, false),
            ByteClass::Text => b != LINE_FEED && b != CARRIAGE_RETURN,
        }
    }
}

/// Where the run of bytes of `class` that starts at `from` ends: the first
/// position at or after `from` that holds no byte of the class.
pub open spec fn run_end(s: Seq<u8>, from: int, class: ByteClass) -> int
    decreases s.len() - from,
{
    if 0 <= from < s.len() && class.contains(s[from]) {
        run_end(s, from + 1, class)
    } else {
        from
    }
}

/// A run ends inside the input, lies wholly in its class, and stops at a
/// byte outside the class or at the end.
pub proof fn lemma_run_end(s: Seq<u8>, from: int, class: ByteClass)
    requires
        0 <= from <= s.len(),
    ensures
        from <= run_end(s, from, class) <= s.len(),
        forall|i: int| from <= i < run_end(s, from, class) ==> class.contains(#[trigger] s[i]),
        run_end(s, from, class) < s.len() ==> !class.contains(s[run_end(s, from, class)]),
    decreases s.len() - from,
{
    if from < s.len() && class.contains(s[from]) {
        lemma_run_end(s, from + 1, class);
    }
}

/// A run that starts among bytes of its class goes on through them.
pub proof fn lemma_run_through(s: Seq<u8>, from: int, to: int, class: ByteClass)
    requires
        0 <= from <= to <= s.len(),
        forall|i: int| from <= i < to ==> class.contains(#[trigger] s[i]),
    ensures
        run_end(s, from, class) == run_end(s, to, class),
    decreases to - from,
{
    if from < to {
        lemma_run_through(s, from + 1, to, class);
    }
}

/// Bytes put before the input move a run along and change nothing else.
pub proof fn lemma_run_end_shift(before: Seq<u8>, s: Seq<u8>, from: int, class: ByteClass)
    requires
        0 <= from <= s.len(),
    ensures
        run_end(before + s, before.len() + from, class) == before.len() + run_end(s, from, class),
    decreases s.len() - from,
{
    if from < s.len() {
        assert((before + s)[before.len() + from] == s[from]);
        if class.contains(s[from]) {
            lemma_run_end_shift(before, s, from + 1, class);
        }
    }
}

/// The end of the run of bytes of `class` in `s` that starts at `from`.
pub fn scan_run(s: &[u8], from: usize, class: ByteClass) -> (end: usize)
    ensures
        end == run_end(s@, from as int, class),
        from <= end,
        from <= s@.len() ==> end <= s@.len(),
        s@.len() <= usize::MAX,
{
    let mut end: usize = from;
    while end < s.len() && class.contains(s[end])
        invariant
            from <= end,
            from <= s@.len() ==> end <= s@.len(),
            run_end(s@, from as int, class) == run_end(s@, end as int, class),
        decreases s@.len() - end,
    {
        end = end + 1;
    }
    end
}

} // verus!
