//! The syntax tree handed over by the parser.

use vstd::prelude::*;
use crate::ident::Id;

verus! {

/// Binary operators.
#[derive(Debug, Clone, Copy, PartialEq, Eq, Structural)]
pub enum BOp {
    Add,
    Sub,
    Mul,
    Div,
    Lt,
}

/// Expressions over integers.
#[derive(Debug, PartialEq, Eq)]
pub enum Expr {
    Var(Id),
    Const(i64),
    BinOp { op: BOp, lhs: Box<Expr>, rhs: Box<Expr> },
    Negate(Box<Expr>),
}

/// Statements.
#[derive(Debug, PartialEq, Eq)]
pub enum Stmt {
    Assign(Id, Expr),
    Print(Expr),
    Read(Id),
    If { guard: Expr, tt: Vec<Stmt>, ff: Vec<Stmt> },
}

/// A program: statements in the order in which they run.
#[derive(Debug, PartialEq, Eq)]
pub struct Program {
    pub stmts: Vec<Stmt>,
}

/// The mathematical value of an [`Expr`]: names are their texts.
pub enum ExprView {
    Var(Seq<char>),
    Const(int),
    BinOp { op: BOp, lhs: Box<ExprView>, rhs: Box<ExprView> },
    Negate(Box<ExprView>),
}

/// The mathematical value of a [`Stmt`].
pub enum StmtView {
    Assign(Seq<char>, ExprView),
    Print(ExprView),
    Read(Seq<char>),
    If { guard: ExprView, tt: Seq<StmtView>, ff: Seq<StmtView> },
}

/// The mathematical value of a [`Program`].
pub struct ProgramView {
    pub stmts: Seq<StmtView>,
}

/// The value of an expression.
pub open spec fn expr_view(e: Expr) -> ExprView
    decreases e,
{
    match e {
        Expr::Var(x) => ExprView::Var(x@),
        Expr::Const(n) => ExprView::Const(n as int),
        Expr::BinOp { op, lhs, rhs } => ExprView::BinOp {
            op,
            lhs: Box::new(expr_view(*lhs)),
            rhs: Box::new(expr_view(*rhs)),
        },
        Expr::Negate(inner) => ExprView::Negate(Box::new(expr_view(*inner))),
    }
}

/// The value of a statement.
pub open spec fn stmt_view(s: Stmt) -> StmtView
    decreases s,
{
    match s {
        Stmt::Assign(x, e) => StmtView::Assign(x@, expr_view(e)),
        Stmt::Print(e) => StmtView::Print(expr_view(e)),
        Stmt::Read(x) => StmtView::Read(x@),
        Stmt::If { guard, tt, ff } => StmtView::If {
            guard: expr_view(guard),
            tt: Seq::new(
                tt@.len(),
                |i: int|
                    if 0 <= i < tt@.len() {
                        stmt_view(tt@[i])
                    } else {
                        StmtView::Read(Seq::empty())
                    },
            ),
            ff: Seq::new(
                ff@.len(),
                |i: int|
                    if 0 <= i < ff@.len() {
                        stmt_view(ff@[i])
                    } else {
                        StmtView::Read(Seq::empty())
                    },
            ),
        },
    }
}

/// The values of the statements of `stmts`, in order.
pub open spec fn stmts_view(stmts: Seq<Stmt>) -> Seq<StmtView> {
    Seq::new(stmts.len(), |i: int| stmt_view(stmts[i]))
}

/// The branches of a conditional's value are the values of its branches.
pub proof fn lemma_if_view(s: Stmt)
    requires
        s is If,
    ensures
        s@ == (StmtView::If {
            guard: s->guard@,
            tt: stmts_view(s->tt@),
            ff: stmts_view(s->ff@),
        }),
{
    assert(s@->tt =~= stmts_view(s->tt@));
    assert(s@->ff =~= stmts_view(s->ff@));
}

impl View for Expr {
    type V = ExprView;

    open spec fn view(&self) -> ExprView {
        expr_view(*self)
    }
}

impl View for Stmt {
    type V = StmtView;

    open spec fn view(&self) -> StmtView {
        stmt_view(*self)
    }
}

impl View for Program {
    type V = ProgramView;

    open spec fn view(&self) -> ProgramView {
        ProgramView { stmts: stmts_view(self.stmts@) }
    }
}

} // verus!
