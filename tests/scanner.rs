use vinal::lexer::{scan, Lexer, TType, Token};

fn tokens(input: &str) -> Vec<Token> {
    match scan(input) {
        Ok(v) => v,
        Err(e) => panic!("unexpected scan errors: {:?}", e),
    }
}

fn only(input: &str) -> Token {
    let mut v = tokens(input);
    assert_eq!(v.len(), 1);
    v.remove(0)
}

#[test]
fn integer_literal() {
    let t = only("42");
    assert!(matches!(t.ttype, TType::Number(42)));
    assert_eq!((t.line, t.column), (1, 2));
}

#[test]
fn float_literal() {
    let t = only("3.14");
    match t.ttype {
        TType::Float(text) => {
            assert_eq!(text, "3.14");
            assert_eq!(text.parse::<f32>().unwrap(), 3.14f32);
        }
        other => panic!("expected a float, got {:?}", other),
    }
}

#[test]
fn leading_zeros_are_an_integer() {
    assert!(matches!(only("007").ttype, TType::Number(7)));
}

#[test]
fn integer_too_large_is_a_float() {
    match only("99999999999").ttype {
        TType::Float(text) => assert_eq!(text, "99999999999"),
        other => panic!("expected a float, got {:?}", other),
    }
    assert!(matches!(only("2147483647").ttype, TType::Number(2147483647)));
}

#[test]
fn trailing_dot_is_a_float() {
    match only("3.").ttype {
        TType::Float(text) => assert_eq!(text, "3."),
        other => panic!("expected a float, got {:?}", other),
    }
}

#[test]
fn escaped_quote_in_string() {
    let t = only("\"a\\\"b\"");
    match t.ttype {
        TType::String(s) => assert_eq!(s, "a\"b"),
        other => panic!("expected a string, got {:?}", other),
    }
    assert_eq!((t.line, t.column), (1, 6));
}

#[test]
fn empty_string() {
    match only("\"\"").ttype {
        TType::String(s) => assert_eq!(s, ""),
        other => panic!("expected a string, got {:?}", other),
    }
}

#[test]
fn unterminated_string_is_reported() {
    match scan("(foo \"bar") {
        Ok(v) => panic!("expected an error, got {:?}", v),
        Err(e) => {
            assert_eq!(e.len(), 1);
            assert!(e[0].contains("Unterminated String"));
            assert_eq!(e[0], "1:9 | Unterminated String.");
        }
    }
}

#[test]
fn call_form_positions() {
    let v = tokens("(set x 1)");
    assert_eq!(v.len(), 5);
    assert!(matches!(v[0].ttype, TType::LParen));
    assert!(matches!(&v[1].ttype, TType::Ident(s) if s == "set"));
    assert!(matches!(&v[2].ttype, TType::Ident(s) if s == "x"));
    assert!(matches!(v[3].ttype, TType::Number(1)));
    assert!(matches!(v[4].ttype, TType::RParen));
    let pos: Vec<(usize, usize)> = v.iter().map(|t| (t.line, t.column)).collect();
    assert_eq!(pos, vec![(1, 1), (1, 4), (1, 6), (1, 8), (1, 9)]);
}

#[test]
fn newline_advances_line() {
    let v = tokens("(a)\n(b)");
    let pos: Vec<(usize, usize)> = v.iter().map(|t| (t.line, t.column)).collect();
    assert_eq!(pos, vec![(1, 1), (1, 2), (1, 3), (2, 1), (2, 2), (2, 3)]);
}

#[test]
fn newline_inside_string() {
    let t = only("\"a\nb\" ");
    match &t.ttype {
        TType::String(s) => assert_eq!(s, "a\nb"),
        other => panic!("expected a string, got {:?}", other),
    }
    assert_eq!((t.line, t.column), (2, 3));
}

#[test]
fn comment_is_discarded() {
    let t = only("; a comment (\"\n42");
    assert!(matches!(t.ttype, TType::Number(42)));
    assert_eq!((t.line, t.column), (2, 2));
}

#[test]
fn quote_and_brackets() {
    let v = tokens("'x [y]");
    assert_eq!(v.len(), 4);
    assert!(matches!(v[0].ttype, TType::Quote));
    assert!(matches!(&v[1].ttype, TType::Ident(s) if s == "x"));
    assert!(matches!(v[2].ttype, TType::LBracket));
    assert!(matches!(&v[3].ttype, TType::Ident(s) if s == "y]"));
}

#[test]
fn identifier_ends_only_at_parens_and_space() {
    let v = tokens("a\tb(c)");
    assert_eq!(v.len(), 4);
    assert!(matches!(&v[0].ttype, TType::Ident(s) if s == "a\tb"));
    assert!(matches!(v[1].ttype, TType::LParen));
}

#[test]
fn empty_and_blank_inputs() {
    assert_eq!(tokens("").len(), 0);
    assert_eq!(tokens(" \t\r\n").len(), 0);
}

#[test]
fn every_piece_yields_at_most_one_token() {
    let input = "(let x \"a b\") ; c\n'y [1 2.5]";
    let v = tokens(input);
    assert_eq!(v.len(), 11);
    assert!(v.len() <= input.chars().count());
}

#[test]
fn lexer_hands_out_tokens() {
    let mut lexer = Lexer::new("()");
    let v = lexer.proc_tokens().unwrap();
    assert_eq!(v.len(), 2);
    assert!(matches!(v[1].ttype, TType::RParen));
    let again = lexer.proc_tokens().unwrap();
    assert_eq!(again.len(), 2);
    assert_eq!((again[1].line, again[1].column), (1, 2));
    let copy = again[0].copy();
    assert!(matches!(copy.ttype, TType::LParen));
}

#[test]
fn token_type_names() {
    assert_eq!(TType::LParen.get_type(), "Opening Parenthese");
    assert_eq!(TType::RBracket.get_type(), "Closing Bracket");
    assert_eq!(TType::Ident("a".to_string()).get_type(), "Identifier");
    assert_eq!(TType::Number(1).get_type(), "Number");
    let t = Token::new(TType::Quote, 3, 4);
    assert_eq!((t.line, t.column), (3, 4));
    assert_eq!(t.ttype.get_type(), "Quote");
}
