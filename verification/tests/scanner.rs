use luafront::chars::{is_iden, is_space};
use luafront::lexer::Lexer;
use luafront::runtime::RuntimeError;
use luafront::token::{Reason, Token};

fn first(source: &str) -> Result<(Token<'_>, usize), Reason> {
    Lexer::new(source).read_token()
}

fn all(source: &str) -> Vec<(Token<'_>, usize, usize)> {
    let mut lexer = Lexer::new(source);
    let mut found = Vec::new();
    loop {
        let (token, len) = lexer.read_token().expect("a token");
        let at = lexer.offset();
        let end = token == Token::Eof;
        found.push((token, at, len));
        if end {
            return found;
        }
        lexer.advance(len);
    }
}

#[test]
fn identifier_bytes() {
    for b in 0..=255u8 {
        let letter = b.is_ascii_alphabetic() || b == b'_';
        assert_eq!(is_iden(b, true), letter, "first byte {}", b);
        assert_eq!(is_iden(b, false), letter || b.is_ascii_digit(), "later byte {}", b);
    }
}

#[test]
fn space_bytes() {
    for b in 0..=255u8 {
        let space = matches!(b, 9 | 10 | 11 | 12 | 13 | 32);
        assert_eq!(is_space(b), space, "byte {}", b);
    }
}

#[test]
fn empty_source_is_end_of_input() {
    assert_eq!(first(""), Ok((Token::Eof, 0)));
}

#[test]
fn white_space_alone_is_end_of_input() {
    let mut lexer = Lexer::new(" \t\r\n\x0b\x0c ");
    assert_eq!(lexer.read_token(), Ok((Token::Eof, 0)));
    assert_eq!(lexer.offset(), 7);
}

#[test]
fn single_byte_tokens() {
    let table = [
        ("(", Token::Open),
        (")", Token::Close),
        ("[", Token::SquareOpen),
        ("]", Token::SquareClose),
        ("{", Token::CurlyOpen),
        ("}", Token::CurlyClose),
        ("+", Token::Add),
        ("*", Token::Mul),
        ("^", Token::Pow),
        ("%", Token::Mod),
        ("|", Token::Bor),
        ("#", Token::Len),
        ("&", Token::Band),
    ];
    for (source, token) in table {
        let doubled = format!("{}{}", source, source);
        assert_eq!(first(source), first(&doubled), "{}", source);
        assert_eq!(first(&doubled), Ok((token, 1)), "{}", doubled);
    }
}

#[test]
fn operators_by_their_following_bytes() {
    let table = [
        (".", Token::Dot, 1),
        (".x", Token::Dot, 1),
        ("..", Token::Concat, 2),
        ("..x", Token::Concat, 2),
        ("...", Token::Varg, 3),
        ("....", Token::Varg, 3),
        (">", Token::Gt, 1),
        (">=", Token::Ge, 2),
        (">>", Token::Shr, 2),
        ("> =", Token::Gt, 1),
        ("<", Token::Lt, 1),
        ("<=", Token::Le, 2),
        ("<<", Token::Shl, 2),
        ("<>", Token::Lt, 1),
        ("~", Token::Bnot, 1),
        ("~=", Token::Neq, 2),
        ("~~", Token::Bnot, 1),
        ("=", Token::Assign, 1),
        ("==", Token::Eq, 2),
        ("=>", Token::Assign, 1),
        ("/", Token::Div, 1),
        ("//", Token::Idiv, 2),
        ("/=", Token::Div, 1),
        ("-", Token::Sub, 1),
        ("-1", Token::Sub, 1),
        ("- -", Token::Sub, 1),
    ];
    for (source, token, len) in table {
        assert_eq!(first(source), Ok((token, len)), "{}", source);
    }
}

#[test]
fn longest_match_of_greater_or_equal() {
    let found = all(">=");
    assert_eq!(found, vec![(Token::Ge, 0, 2), (Token::Eof, 2, 0)]);
}

#[test]
fn dot_family() {
    assert_eq!(all("."), vec![(Token::Dot, 0, 1), (Token::Eof, 1, 0)]);
    assert_eq!(all(".."), vec![(Token::Concat, 0, 2), (Token::Eof, 2, 0)]);
    assert_eq!(all("..."), vec![(Token::Varg, 0, 3), (Token::Eof, 3, 0)]);
}

#[test]
fn keyword_prefix_of_an_identifier() {
    let found = all("for1");
    assert_eq!(found, vec![(Token::Identifier("for1"), 0, 4), (Token::Eof, 4, 0)]);
}

#[test]
fn every_keyword() {
    let words = [
        "and", "break", "do", "else", "elseif", "end", "false", "for", "function", "goto", "if",
        "in", "local", "nil", "not", "or", "repeat", "return", "then", "true", "until", "while",
    ];
    assert_eq!(words.len(), 22);
    for word in words {
        assert_eq!(first(word), Ok((Token::Keyword(word), word.len())), "{}", word);
        let longer = format!("{}_", word);
        assert_eq!(first(&longer), Ok((Token::Identifier(&longer), longer.len())));
        let upper = word.to_uppercase();
        assert_eq!(first(&upper), Ok((Token::Identifier(&upper), upper.len())));
    }
}

#[test]
fn identifiers() {
    assert_eq!(first("x"), Ok((Token::Identifier("x"), 1)));
    assert_eq!(first("_"), Ok((Token::Identifier("_"), 1)));
    assert_eq!(first("_a9Z rest"), Ok((Token::Identifier("_a9Z"), 4)));
    assert_eq!(first("a.b"), Ok((Token::Identifier("a"), 1)));
    assert_eq!(first("fo"), Ok((Token::Identifier("fo"), 2)));
    assert_eq!(first("a\u{e9}"), Ok((Token::Identifier("a"), 1)));
}

#[test]
fn comment_then_keyword() {
    let found = all("-- note\nlocal");
    assert_eq!(
        found,
        vec![
            (Token::Comment("-- note"), 0, 7),
            (Token::Keyword("local"), 8, 5),
            (Token::Eof, 13, 0)
        ]
    );
}

#[test]
fn comments_end_with_the_line() {
    assert_eq!(first("--"), Ok((Token::Comment("--"), 2)));
    assert_eq!(first("--\n"), Ok((Token::Comment("--"), 2)));
    assert_eq!(first("--x\ry"), Ok((Token::Comment("--x"), 3)));
    assert_eq!(first("---- a -- b"), Ok((Token::Comment("---- a -- b"), 11)));
    assert_eq!(first("-- caf\u{e9}\nx"), Ok((Token::Comment("-- caf\u{e9}"), 8)));
    assert_eq!(first("-- \u{e9}"), Ok((Token::Comment("-- \u{e9}"), 5)));
}

#[test]
fn string_with_an_escape() {
    assert_eq!(first("\"a\\nb\""), Ok((Token::String(vec![b'a', 10, b'b']), 6)));
}

#[test]
fn strings() {
    assert_eq!(first("\"\""), Ok((Token::String(vec![]), 2)));
    assert_eq!(first("''"), Ok((Token::String(vec![]), 2)));
    assert_eq!(first("'abc' x"), Ok((Token::String(b"abc".to_vec()), 5)));
    assert_eq!(first("'say \"hi\"'"), Ok((Token::String(b"say \"hi\"".to_vec()), 10)));
    assert_eq!(first("\"it's\""), Ok((Token::String(b"it's".to_vec()), 6)));
    assert_eq!(
        first("'\\a\\b\\f\\n\\t\\v'"),
        Ok((Token::String(vec![7, 8, 12, 10, 9, 11]), 14))
    );
    assert_eq!(first("'x\\ty\\n'"), Ok((Token::String(vec![b'x', 9, b'y', 10]), 8)));
    assert_eq!(first("'\u{e9}'"), Ok((Token::String(vec![0xc3, 0xa9]), 4)));
    assert_eq!(first("'a\nb'"), Ok((Token::String(vec![b'a', 10, b'b']), 5)));
    assert_eq!(first("'a''b'"), Ok((Token::String(vec![b'a']), 3)));
}

#[test]
fn unterminated_strings() {
    let sources =
        [("\"", 0), ("'abc", 0), ("\"abc'", 0), ("'a\\", 0), ("  'a\\n", 2), ("x = 'a", 4)];
    for (source, end) in sources {
        let mut lexer = Lexer::new(source);
        let mut found = lexer.read_token();
        while let Ok((_, len)) = found {
            lexer.advance(len);
            found = lexer.read_token();
        }
        assert_eq!(found, Err(Reason::UnterminatedString), "{}", source);
        assert_eq!(lexer.offset(), end, "{}", source);
    }
}

#[test]
fn invalid_escapes() {
    let sources = [
        ("'\\q'", 2),
        ("'ab\\\\'", 4),
        ("'\\''", 2),
        ("\"\\\"\"", 2),
        (" 'a\\0'", 4),
        ("'\\\n'", 2),
    ];
    for (source, at) in sources {
        let mut lexer = Lexer::new(source);
        assert_eq!(lexer.read_token(), Err(Reason::InvalidEscape), "{}", source);
        assert_eq!(lexer.offset(), at, "{}", source);
    }
}

#[test]
fn unrecognized_bytes() {
    let sources = [
        ("@", 0),
        ("  $x", 2),
        ("!", 0),
        ("\u{e9}", 0),
        ("\n\n`", 2),
        ("\0", 0),
        (":", 0),
        (",", 0),
        (";", 0),
    ];
    for (source, at) in sources {
        let mut lexer = Lexer::new(source);
        assert_eq!(lexer.read_token(), Err(Reason::UnrecognizedByte), "{}", source);
        assert_eq!(lexer.offset(), at, "{}", source);
        assert_eq!(lexer.read_token(), Err(Reason::UnrecognizedByte), "{}", source);
        assert_eq!(lexer.offset(), at, "{}", source);
    }
}

#[test]
fn integers() {
    assert_eq!(first("0"), Ok((Token::Int(0), 1)));
    assert_eq!(first("42"), Ok((Token::Int(42), 2)));
    assert_eq!(first("007"), Ok((Token::Int(7), 3)));
    assert_eq!(first("12+3"), Ok((Token::Int(12), 2)));
    assert_eq!(first("12abc"), Ok((Token::Int(12), 2)));
    assert_eq!(first("9223372036854775807"), Ok((Token::Int(i64::MAX), 19)));
    assert_eq!(first("0000000000000000000000009"), Ok((Token::Int(9), 25)));
}

#[test]
fn integers_out_of_range() {
    for (source, at) in [
        ("9223372036854775808", 18),
        ("9223372036854775810", 18),
        ("10000000000000000000", 19),
        ("99999999999999999999999", 18),
        (" 092233720368547758070", 21),
    ] {
        let mut lexer = Lexer::new(source);
        assert_eq!(lexer.read_token(), Err(Reason::MalformedNumber), "{}", source);
        assert_eq!(lexer.offset(), at, "{}", source);
    }
}

#[test]
fn floating_point_literals() {
    for (source, text) in [
        ("3.14", "3.14"),
        ("2.", "2."),
        ("1e10", "1e10"),
        ("1E10", "1E10"),
        ("1e+10", "1e+10"),
        ("1e-5", "1e-5"),
        ("1.5e3", "1.5e3"),
        ("1.e3", "1.e3"),
        ("0.5)", "0.5"),
        ("1e5x", "1e5"),
        ("1e5e6", "1e5"),
        ("6.02e23 ", "6.02e23"),
        ("99999999999999999999.0", "99999999999999999999.0"),
    ] {
        assert_eq!(first(source), Ok((Token::Double(text), text.len())), "{}", source);
        assert!(text.parse::<f64>().is_ok(), "{}", text);
    }
    assert_eq!("1.5e3".parse::<f64>(), Ok(1500.0));
}

#[test]
fn malformed_numbers() {
    for (source, at) in [
        ("1.2.3", 3),
        ("1..2", 2),
        ("1e", 1),
        ("1e+", 1),
        ("1e-x", 1),
        ("1ex", 1),
        ("1.5e", 3),
        ("1e5.3", 3),
        ("  7E+ 1", 3),
        ("1.e", 2),
    ] {
        let mut lexer = Lexer::new(source);
        assert_eq!(lexer.read_token(), Err(Reason::MalformedNumber), "{}", source);
        assert_eq!(lexer.offset(), at, "{}", source);
    }
}

#[test]
fn white_space_before_a_token_is_not_counted() {
    for space in ["", " ", "\t", "\n", "\x0b", "\x0c", "\r", " \t\n\x0b\x0c\r  "] {
        for (rest, token, len) in [
            ("foo", Token::Identifier("foo"), 3),
            ("while x", Token::Keyword("while"), 5),
            ("...", Token::Varg, 3),
            ("'a\\tb'", Token::String(vec![b'a', 9, b'b']), 6),
            ("12", Token::Int(12), 2),
            ("1.5 ", Token::Double("1.5"), 3),
            ("-- c", Token::Comment("-- c"), 4),
            ("", Token::Eof, 0),
        ] {
            let source = format!("{}{}", space, rest);
            let mut lexer = Lexer::new(&source);
            let found = lexer.read_token();
            assert_eq!(found.as_ref().map(|f| f.1), Ok(len), "{:?}", source);
            assert_eq!(format!("{:?}", found.unwrap().0), format!("{:?}", token));
            assert_eq!(lexer.offset(), space.len(), "{:?}", source);
        }
        let source = format!("{}?", space);
        let mut lexer = Lexer::new(&source);
        assert_eq!(lexer.read_token(), Err(Reason::UnrecognizedByte));
        assert_eq!(lexer.offset(), space.len());
    }
}

#[test]
fn source_slice_spells_the_token() {
    let source = "local x1 = y >= 0x -- done\r\n  return f(...)..'s' // 2.5e+3 ~= {}[#t]";
    let mut lexer = Lexer::new(source);
    let mut count = 0;
    loop {
        let (token, len) = lexer.read_token().expect("a token");
        let at = lexer.offset();
        let slice = &source[at..at + len];
        match &token {
            Token::Identifier(text) | Token::Keyword(text) | Token::Comment(text)
            | Token::Double(text) => assert_eq!(*text, slice),
            Token::String(data) => assert_eq!(data.as_slice(), &slice.as_bytes()[1..len - 1]),
            Token::Int(value) => assert_eq!(value.to_string(), slice),
            Token::Eof => {
                assert_eq!(len, 0);
                assert_eq!(at, source.len());
                break;
            },
            _ => assert!(len >= 1 && len <= 3),
        }
        count += 1;
        lexer.advance(len);
    }
    assert_eq!(count, 24);
}

#[test]
fn a_statement_token_by_token() {
    let found = all("if a<=b then\n\treturn 'x'..t[1] end -- ok");
    let expected = vec![
        (Token::Keyword("if"), 0, 2),
        (Token::Identifier("a"), 3, 1),
        (Token::Le, 4, 2),
        (Token::Identifier("b"), 6, 1),
        (Token::Keyword("then"), 8, 4),
        (Token::Keyword("return"), 14, 6),
        (Token::String(vec![b'x']), 21, 3),
        (Token::Concat, 24, 2),
        (Token::Identifier("t"), 26, 1),
        (Token::SquareOpen, 27, 1),
        (Token::Int(1), 28, 1),
        (Token::SquareClose, 29, 1),
        (Token::Keyword("end"), 31, 3),
        (Token::Comment("-- ok"), 35, 5),
        (Token::Eof, 40, 0),
    ];
    assert_eq!(found, expected);
}

#[test]
fn rescanning_gives_the_same_tokens() {
    let source = "x = 'a' .. 12 -- c\n y";
    assert_eq!(all(source), all(source));
    let copy = String::from(source);
    assert_eq!(format!("{:?}", all(source)), format!("{:?}", all(&copy)));
}

#[test]
fn reading_does_not_consume() {
    let mut lexer = Lexer::new("  alpha beta");
    assert_eq!(lexer.offset(), 0);
    assert_eq!(lexer.read_token(), Ok((Token::Identifier("alpha"), 5)));
    assert_eq!(lexer.offset(), 2);
    assert_eq!(lexer.read_token(), Ok((Token::Identifier("alpha"), 5)));
    assert_eq!(lexer.offset(), 2);
    lexer.advance(5);
    assert_eq!(lexer.offset(), 7);
    assert_eq!(lexer.read_token(), Ok((Token::Identifier("beta"), 4)));
    assert_eq!(lexer.offset(), 8);
}

#[test]
fn advance_stops_at_the_end() {
    let mut lexer = Lexer::new("abc");
    lexer.advance(0);
    assert_eq!(lexer.offset(), 0);
    lexer.advance(2);
    assert_eq!(lexer.offset(), 2);
    assert_eq!(lexer.bytes(), b"c");
    lexer.advance(5);
    assert_eq!(lexer.offset(), 3);
    lexer.advance(usize::MAX);
    assert_eq!(lexer.offset(), 3);
    assert_eq!(lexer.bytes(), b"");
    assert_eq!(lexer.read_token(), Ok((Token::Eof, 0)));
}

#[test]
fn bytes_are_the_source_from_the_cursor() {
    let mut lexer = Lexer::new("a \u{e9}");
    assert_eq!(lexer.bytes(), "a \u{e9}".as_bytes());
    lexer.advance(3);
    assert_eq!(lexer.bytes(), &[0xa9]);
}

#[test]
fn recovery_after_a_failure() {
    let mut lexer = Lexer::new("a @ b");
    assert_eq!(lexer.read_token(), Ok((Token::Identifier("a"), 1)));
    lexer.advance(1);
    assert_eq!(lexer.read_token(), Err(Reason::UnrecognizedByte));
    assert_eq!(lexer.offset(), 2);
    lexer.advance(1);
    assert_eq!(lexer.read_token(), Ok((Token::Identifier("b"), 1)));
    assert_eq!(lexer.offset(), 4);
}

#[test]
fn messages() {
    assert_eq!(Reason::UnterminatedString.message(), "unterminated string");
    assert_eq!(Reason::InvalidEscape.message(), "invalid escape sequence");
    assert_eq!(Reason::UnrecognizedByte.message(), "unrecognized byte");
    assert_eq!(Reason::MalformedNumber.message(), "malformed number");
}

#[test]
fn failures_carry_their_line() {
    let mut lexer = Lexer::new("a = 1\nb = 'x\\n'\n\n  c = 1.2.3\n");
    loop {
        match lexer.read_token() {
            Ok((_, len)) => lexer.advance(len),
            Err(reason) => {
                assert_eq!(reason, Reason::MalformedNumber);
                assert_eq!(
                    lexer.diagnose(reason),
                    RuntimeError::LexerError { message: "malformed number", line: 4 }
                );
                break;
            },
        }
    }
    let mut lexer = Lexer::new("\n\n'never closed\n\n");
    let reason = lexer.read_token().unwrap_err();
    assert_eq!(
        lexer.diagnose(reason),
        RuntimeError::LexerError { message: "unterminated string", line: 3 }
    );
    let mut lexer = Lexer::new("\r\r?");
    let reason = lexer.read_token().unwrap_err();
    assert_eq!(
        lexer.diagnose(reason),
        RuntimeError::LexerError { message: "unrecognized byte", line: 1 }
    );
    let lexer = Lexer::new("");
    assert_eq!(
        lexer.diagnose(Reason::InvalidEscape),
        RuntimeError::LexerError { message: "invalid escape sequence", line: 1 }
    );
}
