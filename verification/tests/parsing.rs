use front::ast::BOp::{Add, Div, Lt, Mul, Sub};
use front::ast::Expr::{BinOp, Const, Negate, Var};
use front::ast::Stmt::{Assign, If, Print, Read};
use front::ast::{BOp, Expr};
use front::ident::id;
use front::parse::parse;

// SECTION: helpers

// Move a value to the heap
fn b<T>(x: T) -> Box<T> {
    Box::new(x)
}

// Build a binary operation expression
fn bop(op: BOp, lhs: Expr, rhs: Expr) -> Expr {
    BinOp {
        op,
        lhs: b(lhs),
        rhs: b(rhs),
    }
}

// Build a negation expression
fn negate(inner: Expr) -> Expr {
    Negate(b(inner))
}

// Build a variable node
fn var(name: &str) -> Expr {
    Var(id(name))
}

// SECTION: tests

#[test]
fn empty() {
    assert_eq!(parse("").unwrap().stmts, vec![]);
}

#[test]
fn print() {
    assert_eq!(parse("$print 0").unwrap().stmts, vec![Print(Const(0))]);
}

#[test]
fn read() {
    assert_eq!(parse("$read x").unwrap().stmts, vec![Read(id("x"))]);
}

#[test]
fn var_test() {
    assert_eq!(parse("$print x").unwrap().stmts, vec![Print(var("x"))]);
}

#[test]
fn binop() {
    assert_eq!(
        parse("$print + x x").unwrap().stmts,
        vec![Print(bop(Add, var("x"), var("x")))]
    );
    assert_eq!(
        parse("$print * x x").unwrap().stmts,
        vec![Print(bop(Mul, var("x"), var("x")))]
    );
    assert_eq!(
        parse("$print / x x").unwrap().stmts,
        vec![Print(bop(Div, var("x"), var("x")))]
    );
    assert_eq!(
        parse("$print - x x").unwrap().stmts,
        vec![Print(bop(Sub, var("x"), var("x")))]
    );
    assert_eq!(
        parse("$print < x x").unwrap().stmts,
        vec![Print(bop(Lt, var("x"), var("x")))]
    );
}

#[test]
fn negate_test() {
    assert_eq!(
        parse("$print ~ x").unwrap().stmts,
        vec![Print(negate(var("x")))]
    );
}

#[test]
fn complex_expr() {
    assert_eq!(
        parse("$print * + x 3 / ~ 7 y").unwrap().stmts,
        vec![Print(bop(
            Mul,
            bop(Add, var("x"), Const(3)),
            bop(Div, negate(Const(7)), var("y"))
        ))]
    );
}

#[test]
fn assign() {
    assert_eq!(
        parse(":= x 3").unwrap().stmts,
        vec![Assign(id("x"), Const(3))]
    );
    assert_eq!(
        parse(":= x + x 3").unwrap().stmts,
        vec![Assign(id("x"), bop(Add, var("x"), Const(3)))]
    );
}

#[test]
fn if_test() {
    assert_eq!(
        parse("$if x {} {}").unwrap().stmts,
        vec![If {
            guard: var("x"),
            tt: vec![],
            ff: vec![]
        }]
    );
    assert_eq!(
        parse("$if x {$print 0} {:= x 3}").unwrap().stmts,
        vec![If {
            guard: var("x"),
            tt: vec![Print(Const(0))],
            ff: vec![Assign(id("x"), Const(3))]
        }]
    );
    assert_eq!(
        parse("$if x {$print 0 $read x} {:= x 3 := y x}")
            .unwrap()
            .stmts,
        vec![If {
            guard: var("x"),
            tt: vec![Print(Const(0)), Read(id("x"))],
            ff: vec![Assign(id("x"), Const(3)), Assign(id("y"), var("x"))]
        }]
    );
    assert_eq!(
        parse("$if < x y {$print 0} {:= x 3}").unwrap().stmts,
        vec![If {
            guard: bop(Lt, var("x"), var("y")),
            tt: vec![Print(Const(0))],
            ff: vec![Assign(id("x"), Const(3))]
        }]
    );
}

#[test]
fn death_test1() {
    // illegal tokens to start a program
    assert!(parse("x").is_err());
    assert!(parse("0").is_err());
    assert!(parse("<").is_err());

    // extra lexemes after a statement
    assert!(parse(":= x y + z").is_err());
    assert!(parse(":= x y + z t").is_err());
}

#[test]
fn death_test_print() {
    assert!(parse("$print").is_err());
}

#[test]
fn death_test_read() {
    assert!(parse("$read").is_err());
}

#[test]
fn death_test_assign() {
    assert!(parse(":=").is_err());
    assert!(parse(":= x").is_err());
    assert!(parse(":= 3 x").is_err());
}

#[test]
fn death_test_if() {
    assert!(parse("$if").is_err());
    assert!(parse("$if x {}").is_err());
    assert!(parse("$if {} {}").is_err());
    assert!(parse("$if x y {}").is_err());
    assert!(parse("$if x $print x {}").is_err());
}

#[test]
fn death_test_expr() {
    assert!(parse("$print 3 + x").is_err());
    assert!(parse("$print + x").is_err());
    assert!(parse("$print - x").is_err());
    assert!(parse("$print * x").is_err());
    assert!(parse("$print / x").is_err());
    assert!(parse("$print < x").is_err());
    assert!(parse("$print ~").is_err());
    assert!(parse("$print ~ x y").is_err());
    assert!(parse("$print + + x y").is_err());
    assert!(parse("$print < y").is_err());
    assert!(parse("$print < - y z").is_err());
}
