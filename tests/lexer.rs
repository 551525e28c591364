use lanner::{tokenise, Error, LexError, TokenType};

fn types(src: &str) -> Vec<TokenType> {
    tokenise(src).unwrap().into_iter().map(|t| t.token_type).collect()
}

#[test]
fn lexemes() {
    assert_eq!(tokenise(r"!*+-/=<> <= >= == === !==").unwrap().len(), 19);
}

#[test]
fn string_literals() {
    let tok = tokenise("\"This is a test.\"").unwrap();
    assert_eq!(tok.len(), 2);

    let lex = tok.get(0).unwrap();
    if let TokenType::String(s) = lex.token_type.clone() {
        assert_eq!(s, "This is a test.");
    } else {
        assert!(false);
    }
}

#[test]
fn integer_literals() {
    let int = tokenise("12").unwrap();

    assert_eq!(int.len(), 2);

    let int_lex = int.get(0).unwrap();

    if let TokenType::Number(n) = int_lex.token_type.clone() {
        assert_eq!(n.parse::<f64>().unwrap(), 12.0);
    } else {
        assert!(false)
    }
}

#[test]
fn float_literals() {
    let fp = tokenise("12.2").unwrap();

    assert_eq!(fp.len(), 2);

    let fp_lex = fp.get(0).unwrap();

    if let TokenType::Number(n) = fp_lex.token_type.clone() {
        assert_eq!(n.parse::<f64>().unwrap(), 12.2);
    } else {
        assert!(false)
    }
}

#[test]
fn valid_identifiers() {
    let valid = tokenise("aAzA__").unwrap();

    assert_eq!(valid.len(), 2);

    let lex = valid.get(0).unwrap();

    if let TokenType::Identifier(i) = lex.token_type.clone() {
        assert_eq!(i, String::from("aAzA__"));
    } else {
        assert!(false)
    }
}

#[test]
fn keyword_identifiers() {
    let invalid = tokenise("and").unwrap();

    assert_eq!(invalid.len(), 2);

    let lex = invalid.get(0).unwrap();

    if let TokenType::And = lex.token_type.clone() {
        assert!(true);
    } else {
        assert!(false)
    }
}

#[test]
fn comment_tests() {}

#[test]
fn doc_comment_tests() {
    let doc_comment = tokenise("/// This is a doc comment ///").unwrap();
    assert_eq!(doc_comment.len(), 2);

    let lex = doc_comment.get(0).unwrap();

    if let TokenType::DocComment(doc) = lex.token_type.clone() {
        assert_eq!(doc, " This is a doc comment ");
    } else {
        assert!(false);
    }
}

#[test]
fn operators_take_the_longest_match() {
    assert_eq!(types("==="), vec![TokenType::StrictComparisonEqual, TokenType::EOI]);
    assert_eq!(types("!=="), vec![TokenType::NotStrictEqual, TokenType::EOI]);
    assert_eq!(types("!="), vec![TokenType::NotEqual, TokenType::EOI]);
    assert_eq!(types("=="), vec![TokenType::ComparisonEqual, TokenType::EOI]);
    assert_eq!(types(">=<="), vec![TokenType::GreaterThanEqualTo, TokenType::LessThanEqualTo, TokenType::EOI]);
    assert_eq!(types("= ="), vec![TokenType::Equal, TokenType::Whitespace, TokenType::Equal, TokenType::EOI]);
    assert_eq!(types("!"), vec![TokenType::Not, TokenType::EOI]);
    assert_eq!(types("===="), vec![TokenType::StrictComparisonEqual, TokenType::Equal, TokenType::EOI]);
}

#[test]
fn punctuation_maps_to_its_kind() {
    assert_eq!(
        types("(){},.+-*/;"),
        vec![
            TokenType::LParen,
            TokenType::RParen,
            TokenType::LBrace,
            TokenType::RBrace,
            TokenType::Comma,
            TokenType::Period,
            TokenType::Plus,
            TokenType::Minus,
            TokenType::Asterisk,
            TokenType::Slash,
            TokenType::Semicolon,
            TokenType::EOI,
        ]
    );
}

#[test]
fn string_literal_then_end_of_input() {
    assert_eq!(types("\"abc\""), vec![TokenType::String("abc".to_string()), TokenType::EOI]);
    assert_eq!(types("`a\nb`"), vec![TokenType::String("a\nb".to_string()), TokenType::EOI]);
}

#[test]
fn unterminated_string_is_reported() {
    let err = tokenise("\"abc").unwrap_err();
    assert_eq!(err.message, Error::LexError(LexError::UnterminatedString));
    assert_eq!((err.line, err.column, err.len), (0, 0, 4));
    assert_eq!(err.source_text, "\"abc");
}

#[test]
fn number_forms() {
    assert_eq!(types("12"), vec![TokenType::Number("12".to_string()), TokenType::EOI]);
    assert_eq!(types("12.2"), vec![TokenType::Number("12.2".to_string()), TokenType::EOI]);
    // a point with no digit after it is not part of the number
    assert_eq!(types("12."), vec![TokenType::Number("12".to_string()), TokenType::Period, TokenType::EOI]);
}

#[test]
fn non_ascii_digits_are_an_invalid_number() {
    let err = tokenise("x = 12\u{663}").unwrap_err();
    assert_eq!(err.message, Error::LexError(LexError::InvalidNumber));
    assert_eq!((err.line, err.column, err.len), (0, 4, 3));
}

#[test]
fn keyword_and_longer_identifier() {
    assert_eq!(types("and"), vec![TokenType::And, TokenType::EOI]);
    assert_eq!(types("android"), vec![TokenType::Identifier("android".to_string()), TokenType::EOI]);
    assert_eq!(
        types("let const fn return true false or match enum struct"),
        vec![
            TokenType::Let,
            TokenType::Whitespace,
            TokenType::Const,
            TokenType::Whitespace,
            TokenType::Fn,
            TokenType::Whitespace,
            TokenType::Return,
            TokenType::Whitespace,
            TokenType::True,
            TokenType::Whitespace,
            TokenType::False,
            TokenType::Whitespace,
            TokenType::Or,
            TokenType::Whitespace,
            TokenType::Match,
            TokenType::Whitespace,
            TokenType::Enum,
            TokenType::Whitespace,
            TokenType::Struct,
            TokenType::EOI,
        ]
    );
}

#[test]
fn identifiers_continue_with_unicode_letters() {
    assert_eq!(types("caf\u{e9}"), vec![TokenType::Identifier("caf\u{e9}".to_string()), TokenType::EOI]);
    assert_eq!(types("a1"), vec![TokenType::Identifier("a".to_string()), TokenType::Number("1".to_string()), TokenType::EOI]);
}

#[test]
fn doc_comment_strips_delimiters() {
    assert_eq!(types("/// doc ///"), vec![TokenType::DocComment(" doc ".to_string()), TokenType::EOI]);
    assert_eq!(
        types("/// doc\nx"),
        vec![
            TokenType::DocComment(" doc".to_string()),
            TokenType::Whitespace,
            TokenType::Identifier("x".to_string()),
            TokenType::EOI,
        ]
    );
}

#[test]
fn unterminated_doc_comment_is_reported() {
    let err = tokenise("a\n/// open").unwrap_err();
    assert_eq!(err.message, Error::LexError(LexError::UnterminatedComment));
    assert_eq!((err.line, err.column, err.len), (1, 0, 8));
    assert_eq!(err.source_text, "/// open");
}

#[test]
fn line_comment_runs_to_the_line_break() {
    let toks = tokenise("// note\n1").unwrap();
    assert_eq!(toks[0].token_type, TokenType::Comment);
    assert_eq!(toks[0].span, (0, 7));
    assert_eq!(toks[1].token_type, TokenType::Whitespace);
    assert_eq!(toks[2].token_type, TokenType::Number("1".to_string()));
}

#[test]
fn unknown_characters_become_unknown_tokens() {
    assert_eq!(types("@"), vec![TokenType::Unknown, TokenType::EOI]);
}

#[test]
fn spans_are_contiguous_and_end_with_one_end_of_input() {
    let src = "let x = \"hi\";";
    let toks = tokenise(src).unwrap();
    let mut at = 0;
    for t in &toks {
        assert_eq!(t.span.0, at);
        assert!(t.span.1 >= t.span.0);
        assert_eq!(t.source, src);
        at = t.span.1;
    }
    assert_eq!(toks.last().unwrap().token_type, TokenType::EOI);
    assert_eq!(toks.last().unwrap().span, (13, 13));
    assert_eq!(toks.iter().filter(|t| t.token_type == TokenType::EOI).count(), 1);
}

#[test]
fn lexing_twice_gives_the_same_tokens() {
    let src = "let t = (1 + 2) * x; /// d ///";
    assert_eq!(tokenise(src).unwrap(), tokenise(src).unwrap());
}
