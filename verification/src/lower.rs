//! Lowering of the syntax tree into the three-address representation.
//!
//! One walk over the tree appends labels, instructions and terminators to a
//! translation vector and collects the declared variables; the vector is
//! then grouped into blocks.

use vstd::prelude::*;
use crate::ast::{
    BOp,
    Expr,
    ExprView,
    Program,
    ProgramView,
    Stmt,
    StmtView,
    lemma_if_view,
    stmts_view,
};
use crate::cfg::{cfg_labels, cfg_of, construct_cfg};
use crate::fresh::program_if_count;
use crate::graph::{lemma_block_count, lemma_entry_block, program_vector};
use crate::shape::labels_of;
use crate::ident::{Id, id};
use crate::idset::IdSet;
use crate::names::{
    arith_prefix,
    const_prefix,
    entry_name,
    label_name,
    make_label_name,
    make_temp_name,
    temp_name,
};
use crate::tir;
use crate::tir::{Instruction, InstructionView, Terminator, TerminatorView};
use crate::tv::{TvEntry, TvEntryView, tv_view};

verus! {

/// The expression that a negation stands for: `0 - e`.
pub open spec fn desugar_negate(e: ExprView) -> ExprView {
    ExprView::BinOp {
        op: BOp::Sub,
        lhs: Box::new(ExprView::Const(0)),
        rhs: Box::new(e),
    }
}

/// A measure of an expression under which the expression that a negation
/// stands for is smaller than the negation.
pub open spec fn expr_weight(e: ExprView) -> nat
    decreases e,
{
    match e {
        ExprView::Var(_) => 1,
        ExprView::Const(_) => 1,
        ExprView::BinOp { op: _, lhs, rhs } => 1 + expr_weight(*lhs) + expr_weight(*rhs),
        ExprView::Negate(inner) => 3 + expr_weight(*inner),
    }
}

/// The subtraction that a negation stands for weighs less than the
/// negation.
pub proof fn lemma_desugar_weight(e: ExprView)
    ensures
        expr_weight(desugar_negate(e)) == 2 + expr_weight(e),
        expr_weight(desugar_negate(e)) < expr_weight(ExprView::Negate(Box::new(e))),
{
    reveal_with_fuel(expr_weight, 3);
}

/// The state of a lowering run as a mathematical value.
pub struct LowerView {
    /// The variables declared so far.
    pub decl: Set<Seq<char>>,
    /// The translation vector so far.
    pub tv: Seq<TvEntryView>,
    /// The number of temporaries made so far.
    pub fresh_ctr: nat,
    /// The number of labels made so far.
    pub bb_ctr: nat,
}

impl LowerView {
    /// The state in which a run starts.
    pub open spec fn start() -> LowerView {
        LowerView { decl: Set::empty(), tv: Seq::empty(), fresh_ctr: 0, bb_ctr: 0 }
    }

    /// The state after `x` is declared.
    pub open spec fn add_decl(self, x: Seq<char>) -> LowerView {
        LowerView { decl: self.decl.insert(x), ..self }
    }

    /// The state after `entry` is appended to the translation vector.
    pub open spec fn emit(self, entry: TvEntryView) -> LowerView {
        LowerView { tv: self.tv.push(entry), ..self }
    }

    /// The state after a temporary is made, and its name: the next number
    /// under `prefix`. The temporary is declared.
    pub open spec fn mk_var(self, prefix: Seq<char>) -> (LowerView, Seq<char>) {
        let name = temp_name(prefix, self.fresh_ctr + 1);
        (LowerView { decl: self.decl.insert(name), fresh_ctr: self.fresh_ctr + 1, ..self }, name)
    }

    /// The state after a label is made, and its name: the next number.
    pub open spec fn mk_label(self) -> (LowerView, Seq<char>) {
        (LowerView { bb_ctr: self.bb_ctr + 1, ..self }, label_name(self.bb_ctr + 1))
    }

    /// The state after `e` is lowered, and the name that holds its value.
    ///
    /// A variable is declared and is its own result. A literal is put in a
    /// new temporary. An operation lowers its left side, then its right
    /// side, and puts the result in a new temporary. A negation is lowered
    /// as the subtraction that it stands for.
    pub open spec fn lower_expr(self, e: ExprView) -> (LowerView, Seq<char>)
        decreases expr_weight(e),
    {
        match e {
            ExprView::Var(x) => (self.add_decl(x), x),
            ExprView::Const(n) => {
                let (s1, dst) = self.mk_var(const_prefix());
                (s1.emit(TvEntryView::Inner(InstructionView::Const { dst, src: n })), dst)
            },
            ExprView::BinOp { op, lhs, rhs } => {
                let (s1, l) = self.lower_expr(*lhs);
                let (s2, r) = s1.lower_expr(*rhs);
                let (s3, dst) = s2.mk_var(arith_prefix());
                (
                    s3.emit(TvEntryView::Inner(InstructionView::Arith { op, dst, lhs: l, rhs: r })),
                    dst,
                )
            },
            ExprView::Negate(inner) => {
                proof {
                    lemma_desugar_weight(*inner);
                }
                self.lower_expr(desugar_negate(*inner))
            },
        }
    }

    /// The state after `s` is lowered.
    ///
    /// A conditional makes three labels, for the true branch, the false
    /// branch and the join, in that order; lowers the guard; ends the
    /// current block with a branch; lowers each branch into a block of its
    /// own that jumps to the join; and leaves the join block open.
    pub open spec fn lower_stmt(self, s: StmtView) -> LowerView
        decreases s, 0nat,
    {
        match s {
            StmtView::Assign(dst, e) => {
                let (s1, src) = self.add_decl(dst).lower_expr(e);
                s1.emit(TvEntryView::Inner(InstructionView::Copy { dst, src }))
            },
            StmtView::Print(e) => {
                let (s1, x) = self.lower_expr(e);
                s1.emit(TvEntryView::Inner(InstructionView::Print(x)))
            },
            StmtView::Read(x) => self.add_decl(x).emit(
                TvEntryView::Inner(InstructionView::Read(x)),
            ),
            StmtView::If { guard, tt, ff } => {
                let (s1, lbl_tt) = self.mk_label();
                let (s2, lbl_ff) = s1.mk_label();
                let (s3, lbl_join) = s2.mk_label();
                let (s4, g) = s3.lower_expr(guard);
                let s5 = s4.emit(
                    TvEntryView::Term(TerminatorView::Branch { guard: g, tt: lbl_tt, ff: lbl_ff }),
                ).emit(TvEntryView::Label(lbl_tt));
                let s6 = s5.lower_stmts(tt, tt.len()).emit(
                    TvEntryView::Term(TerminatorView::Jump(lbl_join)),
                ).emit(TvEntryView::Label(lbl_ff));
                s6.lower_stmts(ff, ff.len()).emit(
                    TvEntryView::Term(TerminatorView::Jump(lbl_join)),
                ).emit(TvEntryView::Label(lbl_join))
            },
        }
    }

    /// The state after the first `n` statements of `ss` are lowered in
    /// order.
    pub open spec fn lower_stmts(self, ss: Seq<StmtView>, n: nat) -> LowerView
        decreases ss, n,
    {
        if n == 0 || n > ss.len() {
            self
        } else {
            self.lower_stmts(ss, (n - 1) as nat).lower_stmt(ss[n - 1])
        }
    }

    /// The state after `p` is lowered: the block `entry` is opened, the
    /// statements are lowered, and the last open block is ended with an
    /// exit.
    pub open spec fn finish(self, p: ProgramView) -> LowerView {
        self.emit(TvEntryView::Label(entry_name())).lower_stmts(p.stmts, p.stmts.len()).emit(
            TvEntryView::Term(TerminatorView::Exit),
        )
    }

    /// The state at the end of the run on `p`.
    pub open spec fn lower_program(p: ProgramView) -> LowerView {
        LowerView::start().finish(p)
    }
}

/// The lowered form of `p`: the variables declared during the run, and the
/// blocks that its translation vector forms.
pub open spec fn lower_spec(p: ProgramView) -> tir::ProgramView {
    let end = LowerView::lower_program(p);
    tir::ProgramView { decl: end.decl, block: cfg_of(end.tv) }
}

/// How far a counter may be ahead of the translation vector at the start of
/// a run: half the range of the counters.
pub const COUNTER_ROOM: u128 = 0x8000_0000_0000_0000_0000_0000_0000_0000;

/// The state of a lowering run.
pub struct Lower {
    /// The variables declared so far.
    pub decl: IdSet,
    /// The translation vector so far.
    pub tv: Vec<TvEntry>,
    /// The number of temporaries made so far.
    pub fresh_ctr: u128,
    /// The number of labels made so far.
    pub bb_ctr: u128,
}

impl View for Lower {
    type V = LowerView;

    open spec fn view(&self) -> LowerView {
        LowerView {
            decl: self.decl@,
            tv: tv_view(self.tv@),
            fresh_ctr: self.fresh_ctr as nat,
            bb_ctr: self.bb_ctr as nat,
        }
    }
}

impl Lower {
    /// The declared set is well formed, and the counter of temporaries has
    /// room: it exceeds the length of the translation vector by no more
    /// than `COUNTER_ROOM`. Each temporary is made for an instruction that
    /// is appended at once, so a run keeps this, and the counter cannot
    /// overflow before the vector is full.
    pub open spec fn temps_ok(&self) -> bool {
        &&& self.decl.wf()
        &&& self.fresh_ctr <= self.tv@.len() + COUNTER_ROOM
    }

    /// Both counters have room. A conditional makes three labels and
    /// appends at least two entries before anything else makes a label, so
    /// a run keeps the counter of labels within three times the length of
    /// the vector and `COUNTER_ROOM`.
    pub open spec fn wf(&self) -> bool {
        &&& self.temps_ok()
        &&& self.bb_ctr <= 3 * self.tv@.len() + COUNTER_ROOM
    }

    /// The state in which a run starts: nothing declared, nothing emitted,
    /// both counters at zero.
    pub fn new() -> (r: Lower)
        ensures
            r.wf(),
            r@ == LowerView::start(),
    {
        let r = Lower { decl: IdSet::new(), tv: Vec::new(), fresh_ctr: 0, bb_ctr: 0 };
        assert(r@.tv =~= Seq::<TvEntryView>::empty());
        r
    }

    /// Adds `var` to the declared variables.
    pub fn add_decl(&mut self, var: Id)
        requires
            old(self).decl.wf(),
        ensures
            final(self).decl.wf(),
            final(self)@ == old(self)@.add_decl(var@),
            final(self).tv == old(self).tv,
    {
        self.decl.insert(var);
    }

    /// Appends `entry` to the translation vector.
    pub fn emit(&mut self, entry: TvEntry)
        ensures
            final(self)@ == old(self)@.emit(entry@),
            final(self).decl == old(self).decl,
            final(self).tv@ == old(self).tv@.push(entry),
    {
        self.tv.push(entry);
        assert(tv_view(self.tv@) =~= tv_view(old(self).tv@).push(entry@));
    }

    /// Makes a temporary: the next number under `prefix`, declared at once.
    pub fn mk_var(&mut self, prefix: &str) -> (r: Id)
        requires
            old(self).decl.wf(),
            old(self).fresh_ctr < u128::MAX,
        ensures
            final(self).decl.wf(),
            final(self)@ == old(self)@.mk_var(prefix@).0,
            r@ == old(self)@.mk_var(prefix@).1,
            final(self).tv == old(self).tv,
    {
        self.fresh_ctr += 1;
        let x = Id { name: make_temp_name(prefix, self.fresh_ctr) };
        self.decl.insert(x.clone());
        x
    }

    /// Makes a block label: the next number.
    pub fn mk_label(&mut self) -> (r: Id)
        requires
            old(self).bb_ctr < u128::MAX,
        ensures
            final(self)@ == old(self)@.mk_label().0,
            r@ == old(self)@.mk_label().1,
            final(self).decl == old(self).decl,
            final(self).tv == old(self).tv,
    {
        self.bb_ctr += 1;
        Id { name: make_label_name(self.bb_ctr) }
    }

    /// Lowers a literal: puts it in a new temporary.
    fn lower_const(&mut self, n: i64) -> (r: Id)
        requires
            old(self).temps_ok(),
        ensures
            final(self).temps_ok(),
            final(self)@ == old(self)@.lower_expr(ExprView::Const(n as int)).0,
            r@ == old(self)@.lower_expr(ExprView::Const(n as int)).1,
            final(self).bb_ctr == old(self).bb_ctr,
            final(self).tv@.len() == old(self).tv@.len() + 1,
    {
        proof {
            reveal_strlit("_const");
            assert(self.tv@.len() == self.tv.len());
        }
        let dst = self.mk_var("_const");
        assert("_const"@ =~= const_prefix());
        self.emit(TvEntry::Inner(Instruction::Const { dst: dst.clone(), src: n }));
        dst
    }

    /// Emits the operation `op` on `lhs` and `rhs` into a new temporary.
    fn lower_arith(&mut self, op: BOp, lhs: Id, rhs: Id) -> (r: Id)
        requires
            old(self).temps_ok(),
        ensures
            final(self).temps_ok(),
            final(self)@ == old(self)@.mk_var(arith_prefix()).0.emit(
                TvEntryView::Inner(
                    InstructionView::Arith {
                        op,
                        dst: old(self)@.mk_var(arith_prefix()).1,
                        lhs: lhs@,
                        rhs: rhs@,
                    },
                ),
            ),
            r@ == old(self)@.mk_var(arith_prefix()).1,
            final(self).bb_ctr == old(self).bb_ctr,
            final(self).tv@.len() == old(self).tv@.len() + 1,
    {
        proof {
            reveal_strlit("_t");
            assert(self.tv@.len() == self.tv.len());
        }
        let dst = self.mk_var("_t");
        assert("_t"@ =~= arith_prefix());
        self.emit(TvEntry::Inner(Instruction::Arith { op, dst: dst.clone(), lhs, rhs }));
        dst
    }

    /// Lowers `e` and returns the name that holds its value.
    pub fn lower_expr(&mut self, e: &Expr) -> (r: Id)
        requires
            old(self).temps_ok(),
        ensures
            final(self).temps_ok(),
            final(self)@ == old(self)@.lower_expr(e@).0,
            r@ == old(self)@.lower_expr(e@).1,
            final(self).bb_ctr == old(self).bb_ctr,
            final(self).tv@.len() >= old(self).tv@.len(),
        decreases e,
    {
        match e {
            Expr::Var(x) => {
                self.add_decl(x.clone());
                x.clone()
            },
            Expr::Const(n) => self.lower_const(*n),
            Expr::BinOp { op, lhs, rhs } => {
                let lhs = self.lower_expr(lhs);
                let rhs = self.lower_expr(rhs);
                self.lower_arith(*op, lhs, rhs)
            },
            Expr::Negate(inner) => {
                proof {
                    reveal_with_fuel(LowerView::lower_expr, 3);
                }
                let lhs = self.lower_const(0);
                let rhs = self.lower_expr(inner);
                self.lower_arith(BOp::Sub, lhs, rhs)
            },
        }
    }

    /// Lowers `stmt`.
    pub fn lower_stmt(&mut self, stmt: &Stmt)
        requires
            old(self).wf(),
        ensures
            final(self).wf(),
            final(self)@ == old(self)@.lower_stmt(stmt@),
            final(self).tv@.len() >= old(self).tv@.len(),
        decreases stmt,
    {
        match stmt {
            Stmt::Assign(dst, e) => {
                self.add_decl(dst.clone());
                let src = self.lower_expr(e);
                self.emit(TvEntry::Inner(Instruction::Copy { dst: dst.clone(), src }));
            },
            Stmt::Print(e) => {
                let x = self.lower_expr(e);
                self.emit(TvEntry::Inner(Instruction::Print(x)));
            },
            Stmt::Read(x) => {
                self.add_decl(x.clone());
                self.emit(TvEntry::Inner(Instruction::Read(x.clone())));
            },
            Stmt::If { guard, tt, ff } => {
                proof {
                    lemma_if_view(*stmt);
                    assert(self.tv@.len() == self.tv.len());
                }
                let lbl_tt = self.mk_label();
                let lbl_ff = self.mk_label();
                let lbl_join = self.mk_label();
                let guard = self.lower_expr(guard);
                self.emit(
                    TvEntry::Term(
                        Terminator::Branch { guard, tt: lbl_tt.clone(), ff: lbl_ff.clone() },
                    ),
                );
                self.emit(TvEntry::Label(lbl_tt));
                self.lower_stmts(tt);
                self.emit(TvEntry::Term(Terminator::Jump(lbl_join.clone())));
                self.emit(TvEntry::Label(lbl_ff));
                self.lower_stmts(ff);
                self.emit(TvEntry::Term(Terminator::Jump(lbl_join.clone())));
                self.emit(TvEntry::Label(lbl_join));
            },
        }
    }

    /// Lowers the statements of `stmts` in order.
    pub fn lower_stmts(&mut self, stmts: &Vec<Stmt>)
        requires
            old(self).wf(),
        ensures
            final(self).wf(),
            final(self)@ == old(self)@.lower_stmts(stmts_view(stmts@), stmts@.len()),
            final(self).tv@.len() >= old(self).tv@.len(),
        decreases stmts,
    {
        let mut i: usize = 0;
        while i < stmts.len()
            invariant
                i <= stmts.len(),
                self.wf(),
                self@ == old(self)@.lower_stmts(stmts_view(stmts@), i as nat),
                self.tv@.len() >= old(self).tv@.len(),
            decreases stmts.len() - i,
        {
            self.lower_stmt(&stmts[i]);
            i += 1;
        }
    }

    /// Lowers `program`: opens the block `entry`, lowers the statements,
    /// ends the last open block with an exit, and forms the blocks.
    pub fn lower_program(self, program: &Program) -> (r: tir::Program)
        requires
            self.wf(),
        ensures
            r.decl.wf(),
            r.block.wf(),
            r.decl@ == self@.finish(program@).decl,
            r.block@ == cfg_of(self@.finish(program@).tv),
            r.block.labels() == cfg_labels(self@.finish(program@).tv),
    {
        proof {
            reveal_strlit("entry");
        }
        let mut state = self;
        let entry = id("entry");
        assert(entry@ =~= entry_name());
        state.emit(TvEntry::Label(entry));
        state.lower_stmts(&program.stmts);
        state.emit(TvEntry::Term(Terminator::Exit));
        tir::Program { decl: state.decl, block: construct_cfg(state.tv) }
    }
}

/// Lowers `program` into its control-flow graph.
///
/// The graph is the one that the run on `program` describes. Its blocks
/// stand in the order of the labels of the translation vector: `entry`
/// first, and three more for each conditional of the program.
pub fn lower(program: Program) -> (r: tir::Program)
    ensures
        r.decl.wf(),
        r.block.wf(),
        r@ == lower_spec(program@),
        r.block.labels() == labels_of(program_vector(program@)),
        r.block@.contains_key(entry_name()),
        r.block.labels()[0] == entry_name(),
        r.block.labels().len() == 1 + 3 * program_if_count(program@),
{
    proof {
        lemma_entry_block(program@);
        lemma_block_count(program@);
    }
    let lower = Lower::new();
    lower.lower_program(&program)
}

} // verus!
