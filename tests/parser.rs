use lanner::{parse, tokenise, Error, Node, Op, ParseError, Parser, TokenType, Var};

fn num(s: &str) -> Node {
    Node::Number(s.to_string())
}

fn ident(s: &str) -> Node {
    Node::Identifier(s.to_string())
}

fn bin(op: Op, lhs: Node, rhs: Node) -> Node {
    Node::BinaryExpr { operation: op, lhs: Box::new(lhs), rhs: Box::new(rhs) }
}

fn ast(src: &str) -> Vec<Node> {
    parse(tokenise(src).unwrap()).unwrap()
}

fn parse_error(src: &str) -> lanner::ErrorMessage {
    parse(tokenise(src).unwrap()).unwrap_err()
}

#[test]
fn test_plus_generates_proper_ast() {
    let ast = parse(tokenise("2+2").unwrap()).unwrap();
    assert_eq!(ast.len(), 2);
    assert_eq!(ast[0], bin(Op::Add, num("2"), num("2")));
    assert_eq!(ast[1], Node::EOI);
}

#[test]
fn test_minus_generates_proper_ast() {
    let ast = parse(tokenise("2-2").unwrap()).unwrap();
    assert_eq!(ast.len(), 2);
    assert_eq!(ast[0], bin(Op::Subtract, num("2"), num("2")));
}

#[test]
fn test_multiply_generates_proper_ast() {
    let ast = parse(tokenise("2*2").unwrap()).unwrap();
    assert_eq!(ast.len(), 2);
    assert_eq!(ast[0], bin(Op::Multiply, num("2"), num("2")));
}

#[test]
fn test_divide_generates_proper_ast() {
    let ast = parse(tokenise("2/2").unwrap()).unwrap();
    assert_eq!(ast.len(), 2);
    assert_eq!(ast[0], bin(Op::Divide, num("2"), num("2")));
}

#[test]
fn let_binding_generates_proper_ast() {
    let ast = parse(tokenise("let t = 2+2").unwrap()).unwrap();
    println!("{:#?}", ast);
    assert_eq!(
        ast,
        vec![
            Node::Variable {
                variable_type: Var::Let,
                identifier: Box::new(ident("t")),
                value: Box::new(bin(Op::Add, num("2"), num("2"))),
            },
            Node::EOI,
        ]
    );
}

#[test]
fn let_statement_with_semicolon() {
    assert_eq!(
        ast("let t = 2+2;"),
        vec![
            Node::Variable {
                variable_type: Var::Let,
                identifier: Box::new(ident("t")),
                value: Box::new(bin(Op::Add, num("2"), num("2"))),
            },
            Node::EOI,
        ]
    );
}

#[test]
fn const_binding_and_following_statement() {
    assert_eq!(
        ast("const k = \"s\"; k"),
        vec![
            Node::Variable {
                variable_type: Var::Const,
                identifier: Box::new(ident("k")),
                value: Box::new(Node::String("s".to_string())),
            },
            ident("k"),
            Node::EOI,
        ]
    );
}

#[test]
fn primaries_are_whole_expressions() {
    assert_eq!(ast("true"), vec![Node::Boolean(true), Node::EOI]);
    assert_eq!(ast("false;"), vec![Node::Boolean(false), Node::EOI]);
    assert_eq!(ast("x"), vec![ident("x"), Node::EOI]);
    assert_eq!(ast("12.5"), vec![num("12.5"), Node::EOI]);
}

#[test]
fn multiplication_binds_tighter_than_addition() {
    assert_eq!(ast("1+2*3"), vec![bin(Op::Add, num("1"), bin(Op::Multiply, num("2"), num("3"))), Node::EOI]);
    assert_eq!(ast("1-2-3"), vec![bin(Op::Subtract, bin(Op::Subtract, num("1"), num("2")), num("3")), Node::EOI]);
}

#[test]
fn parentheses_group_first() {
    assert_eq!(ast("(1+2)*3"), vec![bin(Op::Multiply, bin(Op::Add, num("1"), num("2")), num("3")), Node::EOI]);
}

#[test]
fn comparisons_take_the_neighbouring_operands() {
    assert_eq!(ast("a >= b"), vec![bin(Op::GreaterThanEqualTo, ident("a"), ident("b")), Node::EOI]);
    assert_eq!(ast("a !== 1 + 2"), vec![bin(Op::NotStrictEqual, ident("a"), bin(Op::Add, num("1"), num("2"))), Node::EOI]);
    assert_eq!(ast("a === b"), vec![bin(Op::StrictComparisonEqual, ident("a"), ident("b")), Node::EOI]);
}

#[test]
fn not_wraps_the_following_expression() {
    assert_eq!(
        ast("!true"),
        vec![Node::UnaryExpr { operation: TokenType::Not, body: Box::new(Node::Boolean(true)) }, Node::EOI]
    );
}

#[test]
fn comments_and_whitespace_are_ignored() {
    assert_eq!(ast("/// about x ///\n1 // one\n+ 2"), vec![bin(Op::Add, num("1"), num("2")), Node::EOI]);
}

#[test]
fn binding_needs_an_identifier() {
    let err = parse_error("let 5 = 2;");
    assert_eq!(err.message, Error::ParseError(ParseError::InvalidIdentifier));
    assert_eq!((err.line, err.column, err.len), (0, 4, 1));
    assert_eq!(err.source_text, "let 5 = 2;");
}

#[test]
fn binding_needs_an_equals_sign() {
    let err = parse_error("let x 2");
    assert_eq!(err.message, Error::ParseError(ParseError::UnexpectedToken));
    assert_eq!(err.column, 6);
    let err = parse_error("let x");
    assert_eq!(err.message, Error::ParseError(ParseError::UnexpectedTermination));
    assert_eq!((err.column, err.len), (5, 0));
}

#[test]
fn missing_operand_is_unexpected_termination() {
    let err = parse_error("1 +\n");
    assert_eq!(err.message, Error::ParseError(ParseError::UnexpectedTermination));
    assert_eq!((err.line, err.column), (1, 0));
}

#[test]
fn stray_token_is_unexpected() {
    let err = parse_error("x\n  2 )");
    assert_eq!(err.message, Error::ParseError(ParseError::UnexpectedToken));
    assert_eq!((err.line, err.column, err.len), (1, 4, 1));
    assert_eq!(err.source_text, "  2 )");
    let err = parse_error("(1 + 2");
    assert_eq!(err.message, Error::ParseError(ParseError::UnexpectedTermination));
    let err = parse_error("@");
    assert_eq!(err.message, Error::ParseError(ParseError::UnexpectedToken));
}

#[test]
fn primary_without_operator_is_a_complete_expression() {
    assert_eq!(ast("x 2"), vec![ident("x"), num("2"), Node::EOI]);
    assert_eq!(ast("1 + 2 \"s\""), vec![bin(Op::Add, num("1"), num("2")), Node::String("s".to_string()), Node::EOI]);
}

#[test]
fn statement_past_the_last_token_is_unexpected_termination() {
    let parser = Parser::new(vec![]);
    assert_eq!(parser.expr(0), Err((ParseError::UnexpectedTermination, 0)));
}

#[test]
fn tokens_and_nodes_clone_to_equal_values() {
    let toks = tokenise("let t = 2;").unwrap();
    for t in &toks {
        assert_eq!(t.clone(), *t);
    }
    let nodes = ast("let t = (1 + 2) * !x; f");
    for n in &nodes {
        assert_eq!(n.clone(), *n);
    }
    let call = Node::FnCall { function: Box::new(ident("f")), args: vec![num("1"), ident("y")] };
    assert_eq!(call.clone(), call);
}

#[test]
fn parsing_twice_gives_the_same_tree() {
    let src = "let t = (1 + 2) * x; !y";
    assert_eq!(ast(src), ast(src));
}

#[test]
fn diagnostic_renders_three_lines() {
    let err = parse_error("x\n\n\n\n\n\n\n\n\n\n\n\n  2 )");
    assert_eq!(err.render(), "line 12:4\n  2 )\nunexpected token");
    assert!(!err.message.is_internal());
}

#[test]
fn error_message_keeps_its_fields() {
    let e = lanner::ErrorMessage::new(3, 7, 2, "abc", Error::ICE(lanner::Ice));
    assert_eq!((e.line, e.column, e.len), (3, 7, 2));
    assert_eq!(e.source_text, "abc");
    assert!(e.message.is_internal());
    assert_eq!(e.render(), "line 3:7\nabc\ninternal compiler error");
}
