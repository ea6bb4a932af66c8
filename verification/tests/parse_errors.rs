use front::ast::{Expr, Program, Stmt};
use front::ident::id;
use front::lex::{Token, TokenKind};
use front::parse::{parse, parse_literal, ParseError, Parser};

fn message(input: &str) -> String {
    match parse(input) {
        Ok(p) => panic!("parsed: {:?}", p),
        Err(e) => e.0,
    }
}

#[test]
fn error_at_the_end_of_input() {
    assert_eq!(message("$print"), "Unexpected end of input.");
    assert_eq!(message("$print + x"), "Unexpected end of input.");
    assert_eq!(message("$print ~"), "Unexpected end of input.");
    assert_eq!(message("$if"), "Unexpected end of input.");
    // A block that is not closed runs into the end of the input.
    assert_eq!(message("$if x {} {"), "Unexpected end of input.");
    assert_eq!(message("$if x {$read y"), "Unexpected end of input.");
}

#[test]
fn error_for_a_missing_token_of_a_kind() {
    assert_eq!(
        message("$read"),
        "Expected a token with kind Id but reached the end of input."
    );
    assert_eq!(
        message(":="),
        "Expected a token with kind Id but reached the end of input."
    );
    assert_eq!(
        message("$if x {}"),
        "Expected a token with kind LBrace but reached the end of input."
    );
}

#[test]
fn error_for_a_token_of_the_wrong_kind() {
    assert_eq!(
        message(":= 3 x"),
        "Expected a token with kind Id, found a token with kind Num and text `3`."
    );
    assert_eq!(
        message("$read $print"),
        "Expected a token with kind Id, found a token with kind Print and text `$print`."
    );
    assert_eq!(
        message("$if x y {}"),
        "Expected a token with kind LBrace, found a token with kind Id and text `y`."
    );
    assert_eq!(
        message("$if x {} }"),
        "Expected a token with kind LBrace, found a token with kind RBrace and text `}`."
    );
}

#[test]
fn error_for_a_token_that_starts_nothing() {
    assert_eq!(message("x"), "Expected start of a statement, found x");
    assert_eq!(message("0"), "Expected start of a statement, found 0");
    assert_eq!(message("<"), "Expected start of a statement, found <");
    assert_eq!(message("$print 3 + x"), "Expected start of a statement, found +");
    assert_eq!(message(":= x y + z t"), "Expected start of a statement, found +");
    assert_eq!(message("$print {"), "Expected start of a statement, found {");
    assert_eq!(message("$print :="), "Expected start of a statement, found :=");
    assert_eq!(message("$print ?"), "Expected start of a statement, found ?");
    assert_eq!(message("}"), "Expected start of a statement, found }");
    assert_eq!(message("$if {} {}"), "Expected start of a statement, found {");
}

#[test]
fn error_for_a_number_that_is_too_large() {
    assert_eq!(
        parse("$print 9223372036854775807").unwrap().stmts,
        vec![Stmt::Print(Expr::Const(i64::MAX))]
    );
    assert_eq!(
        message("$print 9223372036854775808"),
        "Expected a number that fits in 64 bits, found 9223372036854775808"
    );
    assert_eq!(
        message(":= x 123456789012345678901234567890"),
        "Expected a number that fits in 64 bits, found 123456789012345678901234567890"
    );
}

#[test]
fn the_first_error_is_reported() {
    assert_eq!(
        message("$read x $read 1 $read 2"),
        "Expected a token with kind Id, found a token with kind Num and text `1`."
    );
    assert_eq!(
        message("$if x {$print} {}"),
        "Expected start of a statement, found }"
    );
}

#[test]
fn error_as_shown() {
    assert_eq!(
        ParseError(String::from("Unexpected end of input.")).to_text(),
        "Parse error: Unexpected end of input."
    );
    assert_eq!(
        parse("$print").unwrap_err().to_text(),
        "Parse error: Unexpected end of input."
    );
}

#[test]
fn literals() {
    assert_eq!(parse_literal("0"), Some(0));
    assert_eq!(parse_literal("7"), Some(7));
    assert_eq!(parse_literal("007"), Some(7));
    assert_eq!(parse_literal("1234567890"), Some(1234567890));
    assert_eq!(parse_literal("9223372036854775807"), Some(i64::MAX));
    assert_eq!(parse_literal("09223372036854775807"), Some(i64::MAX));
    assert_eq!(parse_literal("9223372036854775808"), None);
    assert_eq!(parse_literal("9223372036854775810"), None);
    assert_eq!(parse_literal("92233720368547758070"), None);
    assert_eq!(parse_literal(""), None);
    assert_eq!(parse_literal("-1"), None);
    assert_eq!(parse_literal("+1"), None);
    assert_eq!(parse_literal("12a"), None);
    assert_eq!(parse_literal("1 2"), None);
}

#[test]
fn leading_zeros_are_dropped() {
    assert_eq!(
        parse(":= x 0042").unwrap().stmts,
        vec![Stmt::Assign(id("x"), Expr::Const(42))]
    );
}

#[test]
fn parser_steps() {
    let mut p = Parser::new("$read x }");
    assert_eq!(p.tokens.len(), 3);
    assert_eq!(p.peek(), Some(Token { kind: TokenKind::Read, text: "$read" }));
    assert!(p.next_is(TokenKind::Read));
    assert!(!p.next_is(TokenKind::Id));
    assert!(!p.eat(TokenKind::Id));
    assert_eq!(p.tokens.len(), 3);
    assert!(p.eat(TokenKind::Read));
    assert_eq!(p.tokens.len(), 2);
    // A failed expectation takes nothing.
    assert_eq!(
        p.expect(TokenKind::Num),
        Err(ParseError(String::from(
            "Expected a token with kind Num, found a token with kind Id and text `x`."
        )))
    );
    assert_eq!(p.tokens.len(), 2);
    assert_eq!(p.expect(TokenKind::Id), Ok(Token { kind: TokenKind::Id, text: "x" }));
    assert_eq!(p.next(), Ok(Token { kind: TokenKind::RBrace, text: "}" }));
    assert_eq!(p.peek(), None);
    assert!(!p.next_is(TokenKind::RBrace));
    assert!(!p.eat(TokenKind::RBrace));
    assert_eq!(
        p.next(),
        Err(ParseError(String::from("Unexpected end of input.")))
    );
    assert_eq!(
        p.expect(TokenKind::RBrace),
        Err(ParseError(String::from(
            "Expected a token with kind RBrace but reached the end of input."
        )))
    );
}

#[test]
fn parser_parts() {
    let mut p = Parser::new("x + 1 y {$read a $read b} rest");
    assert_eq!(p.parse_id(), Ok(id("x")));
    assert_eq!(
        p.parse_expr(),
        Ok(Expr::BinOp {
            op: front::ast::BOp::Add,
            lhs: Box::new(Expr::Const(1)),
            rhs: Box::new(Expr::Var(id("y"))),
        })
    );
    assert_eq!(
        p.parse_block(),
        Ok(vec![Stmt::Read(id("a")), Stmt::Read(id("b"))])
    );
    assert_eq!(p.tokens.len(), 1);
    let mut q = Parser::new("x y");
    assert_eq!(
        q.parse_binop(front::ast::BOp::Lt),
        Ok(Expr::BinOp {
            op: front::ast::BOp::Lt,
            lhs: Box::new(Expr::Var(id("x"))),
            rhs: Box::new(Expr::Var(id("y"))),
        })
    );
    let mut r = Parser::new("$read a $print a");
    assert_eq!(r.parse_stmt(), Ok(Stmt::Read(id("a"))));
    assert_eq!(
        r.parse_program(),
        Ok(Program { stmts: vec![Stmt::Print(Expr::Var(id("a")))] })
    );
    assert_eq!(r.tokens.len(), 0);
}

#[test]
fn nested_blocks() {
    assert_eq!(
        parse("$if a {$if b {} {$read c}} {} $print c").unwrap().stmts,
        vec![
            Stmt::If {
                guard: Expr::Var(id("a")),
                tt: vec![Stmt::If {
                    guard: Expr::Var(id("b")),
                    tt: vec![],
                    ff: vec![Stmt::Read(id("c"))],
                }],
                ff: vec![],
            },
            Stmt::Print(Expr::Var(id("c"))),
        ]
    );
}
