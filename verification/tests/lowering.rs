use front::ast::{BOp, Expr, Program, Stmt};
use front::blockmap::BlockMap;
use front::cfg::construct_cfg;
use front::ident::{id, Id};
use front::idset::IdSet;
use front::lower::{lower, Lower};
use front::names::{make_label_name, make_temp_name, push_decimal};
use front::tir::{Block, Instruction, Terminator};
use front::tv::TvEntry;

fn var(name: &str) -> Expr {
    Expr::Var(id(name))
}

fn bop(op: BOp, lhs: Expr, rhs: Expr) -> Expr {
    Expr::BinOp { op, lhs: Box::new(lhs), rhs: Box::new(rhs) }
}

fn program(stmts: Vec<Stmt>) -> Program {
    Program { stmts }
}

fn block<'a>(p: &'a front::tir::Program, label: &str) -> &'a Block {
    p.block.get(&id(label)).unwrap()
}

fn labels(p: &front::tir::Program) -> Vec<Id> {
    p.block.entries.iter().map(|e| e.0.clone()).collect()
}

#[test]
fn print_literal_makes_one_block() {
    let p = lower(program(vec![Stmt::Print(Expr::Const(0))]));
    assert_eq!(p.block.len(), 1);
    let entry = block(&p, "entry");
    assert_eq!(
        entry.insn,
        vec![
            Instruction::Const { dst: id("_const1"), src: 0 },
            Instruction::Print(id("_const1")),
        ]
    );
    assert_eq!(entry.term, Terminator::Exit);
    assert_eq!(p.decl.len(), 1);
    assert!(p.decl.contains(&id("_const1")));
}

#[test]
fn assign_of_sum() {
    let p = lower(program(vec![Stmt::Assign(
        id("x"),
        bop(BOp::Add, var("y"), Expr::Const(3)),
    )]));
    assert_eq!(p.block.len(), 1);
    let entry = block(&p, "entry");
    assert_eq!(
        entry.insn,
        vec![
            Instruction::Const { dst: id("_const1"), src: 3 },
            Instruction::Arith {
                op: BOp::Add,
                dst: id("_t2"),
                lhs: id("y"),
                rhs: id("_const1"),
            },
            Instruction::Copy { dst: id("x"), src: id("_t2") },
        ]
    );
    assert_eq!(entry.term, Terminator::Exit);
    assert_eq!(p.decl.len(), 4);
    assert!(p.decl.contains(&id("x")));
    assert!(p.decl.contains(&id("y")));
    assert!(p.decl.contains(&id("_const1")));
    assert!(p.decl.contains(&id("_t2")));
}

#[test]
fn conditional_makes_four_blocks() {
    let p = lower(program(vec![Stmt::If {
        guard: var("x"),
        tt: vec![Stmt::Print(Expr::Const(1))],
        ff: vec![],
    }]));
    assert_eq!(p.block.len(), 4);
    assert_eq!(labels(&p), vec![id("entry"), id("lbl1"), id("lbl2"), id("lbl3")]);
    let entry = block(&p, "entry");
    assert_eq!(entry.insn, vec![]);
    assert_eq!(
        entry.term,
        Terminator::Branch { guard: id("x"), tt: id("lbl1"), ff: id("lbl2") }
    );
    let tt = block(&p, "lbl1");
    assert_eq!(
        tt.insn,
        vec![
            Instruction::Const { dst: id("_const1"), src: 1 },
            Instruction::Print(id("_const1")),
        ]
    );
    assert_eq!(tt.term, Terminator::Jump(id("lbl3")));
    let ff = block(&p, "lbl2");
    assert_eq!(ff.insn, vec![]);
    assert_eq!(ff.term, Terminator::Jump(id("lbl3")));
    let join = block(&p, "lbl3");
    assert_eq!(join.insn, vec![]);
    assert_eq!(join.term, Terminator::Exit);
    assert!(p.decl.contains(&id("x")));
}

#[test]
fn empty_program_is_one_empty_block() {
    let p = lower(program(vec![]));
    assert_eq!(p.block.len(), 1);
    let entry = block(&p, "entry");
    assert_eq!(entry.insn, vec![]);
    assert_eq!(entry.term, Terminator::Exit);
    assert_eq!(p.decl.len(), 0);
}

#[test]
fn empty_conditional_still_makes_three_blocks() {
    let p = lower(program(vec![Stmt::If { guard: var("c"), tt: vec![], ff: vec![] }]));
    assert_eq!(p.block.len(), 4);
    assert_eq!(block(&p, "lbl1").term, Terminator::Jump(id("lbl3")));
    assert_eq!(block(&p, "lbl2").term, Terminator::Jump(id("lbl3")));
    assert_eq!(block(&p, "lbl3").term, Terminator::Exit);
}

#[test]
fn nested_conditionals_make_three_blocks_each() {
    let inner = Stmt::If {
        guard: var("b"),
        tt: vec![Stmt::Read(id("r"))],
        ff: vec![Stmt::If { guard: var("c"), tt: vec![], ff: vec![] }],
    };
    let p = lower(program(vec![
        Stmt::If { guard: var("a"), tt: vec![inner], ff: vec![] },
        Stmt::Print(var("r")),
    ]));
    assert_eq!(p.block.len(), 1 + 3 * 3);
    // The outer conditional takes the first three labels, the one nested in
    // its true branch the next three, and so on.
    assert_eq!(
        block(&p, "entry").term,
        Terminator::Branch { guard: id("a"), tt: id("lbl1"), ff: id("lbl2") }
    );
    assert_eq!(
        block(&p, "lbl1").term,
        Terminator::Branch { guard: id("b"), tt: id("lbl4"), ff: id("lbl5") }
    );
    assert_eq!(block(&p, "lbl4").insn, vec![Instruction::Read(id("r"))]);
    assert_eq!(block(&p, "lbl4").term, Terminator::Jump(id("lbl6")));
    assert_eq!(
        block(&p, "lbl5").term,
        Terminator::Branch { guard: id("c"), tt: id("lbl7"), ff: id("lbl8") }
    );
    assert_eq!(block(&p, "lbl7").term, Terminator::Jump(id("lbl9")));
    assert_eq!(block(&p, "lbl8").term, Terminator::Jump(id("lbl9")));
    assert_eq!(block(&p, "lbl9").term, Terminator::Jump(id("lbl6")));
    assert_eq!(block(&p, "lbl6").term, Terminator::Jump(id("lbl3")));
    assert_eq!(block(&p, "lbl2").term, Terminator::Jump(id("lbl3")));
    // What follows the conditional goes into its join block.
    assert_eq!(block(&p, "lbl3").insn, vec![Instruction::Print(id("r"))]);
    assert_eq!(block(&p, "lbl3").term, Terminator::Exit);
    // The blocks stand in the order in which their labels were opened.
    assert_eq!(
        labels(&p),
        vec![
            id("entry"),
            id("lbl1"),
            id("lbl4"),
            id("lbl5"),
            id("lbl7"),
            id("lbl8"),
            id("lbl9"),
            id("lbl6"),
            id("lbl2"),
            id("lbl3"),
        ]
    );
}

#[test]
fn guard_is_lowered_into_the_block_that_branches() {
    let p = lower(program(vec![Stmt::If {
        guard: bop(BOp::Lt, var("x"), Expr::Const(10)),
        tt: vec![],
        ff: vec![Stmt::Assign(id("x"), Expr::Const(0))],
    }]));
    let entry = block(&p, "entry");
    assert_eq!(
        entry.insn,
        vec![
            Instruction::Const { dst: id("_const1"), src: 10 },
            Instruction::Arith {
                op: BOp::Lt,
                dst: id("_t2"),
                lhs: id("x"),
                rhs: id("_const1"),
            },
        ]
    );
    assert_eq!(
        entry.term,
        Terminator::Branch { guard: id("_t2"), tt: id("lbl1"), ff: id("lbl2") }
    );
    assert_eq!(
        block(&p, "lbl2").insn,
        vec![
            Instruction::Const { dst: id("_const3"), src: 0 },
            Instruction::Copy { dst: id("x"), src: id("_const3") },
        ]
    );
}

#[test]
fn straight_line_program_counts_literals() {
    let p = lower(program(vec![
        Stmt::Read(id("a")),
        Stmt::Assign(id("b"), Expr::Const(7)),
        Stmt::Assign(id("c"), var("a")),
        Stmt::Print(var("b")),
        Stmt::Print(Expr::Const(2)),
    ]));
    assert_eq!(p.block.len(), 1);
    let entry = block(&p, "entry");
    assert_eq!(entry.term, Terminator::Exit);
    assert_eq!(entry.insn.len(), 5 + 2);
    assert_eq!(
        entry.insn,
        vec![
            Instruction::Read(id("a")),
            Instruction::Const { dst: id("_const1"), src: 7 },
            Instruction::Copy { dst: id("b"), src: id("_const1") },
            Instruction::Copy { dst: id("c"), src: id("a") },
            Instruction::Print(id("b")),
            Instruction::Const { dst: id("_const2"), src: 2 },
            Instruction::Print(id("_const2")),
        ]
    );
}

#[test]
fn negation_is_subtraction_from_zero() {
    let mut a = Lower::new();
    let ra = a.lower_expr(&Expr::Negate(Box::new(var("x"))));
    let mut b = Lower::new();
    let rb = b.lower_expr(&bop(BOp::Sub, Expr::Const(0), var("x")));
    assert_eq!(ra, rb);
    assert_eq!(a.tv, b.tv);
    assert_eq!(a.decl, b.decl);
    assert_eq!(ra, id("_t2"));
    assert_eq!(
        a.tv,
        vec![
            TvEntry::Inner(Instruction::Const { dst: id("_const1"), src: 0 }),
            TvEntry::Inner(Instruction::Arith {
                op: BOp::Sub,
                dst: id("_t2"),
                lhs: id("_const1"),
                rhs: id("x"),
            }),
        ]
    );
}

#[test]
fn negation_of_a_compound_expression() {
    let p = lower(program(vec![Stmt::Print(Expr::Negate(Box::new(Expr::Negate(
        Box::new(Expr::Const(5)),
    ))))]));
    assert_eq!(
        block(&p, "entry").insn,
        vec![
            Instruction::Const { dst: id("_const1"), src: 0 },
            Instruction::Const { dst: id("_const2"), src: 0 },
            Instruction::Const { dst: id("_const3"), src: 5 },
            Instruction::Arith {
                op: BOp::Sub,
                dst: id("_t4"),
                lhs: id("_const2"),
                rhs: id("_const3"),
            },
            Instruction::Arith {
                op: BOp::Sub,
                dst: id("_t5"),
                lhs: id("_const1"),
                rhs: id("_t4"),
            },
            Instruction::Print(id("_t5")),
        ]
    );
}

#[test]
fn reading_an_undeclared_variable_declares_it() {
    let p = lower(program(vec![Stmt::Print(var("never_assigned"))]));
    assert!(p.decl.contains(&id("never_assigned")));
    assert_eq!(block(&p, "entry").insn, vec![Instruction::Print(id("never_assigned"))]);
}

#[test]
fn operands_are_lowered_left_to_right() {
    let p = lower(program(vec![Stmt::Print(bop(
        BOp::Mul,
        Expr::Const(1),
        bop(BOp::Div, Expr::Const(2), Expr::Const(3)),
    ))]));
    assert_eq!(
        block(&p, "entry").insn,
        vec![
            Instruction::Const { dst: id("_const1"), src: 1 },
            Instruction::Const { dst: id("_const2"), src: 2 },
            Instruction::Const { dst: id("_const3"), src: 3 },
            Instruction::Arith {
                op: BOp::Div,
                dst: id("_t4"),
                lhs: id("_const2"),
                rhs: id("_const3"),
            },
            Instruction::Arith {
                op: BOp::Mul,
                dst: id("_t5"),
                lhs: id("_const1"),
                rhs: id("_t4"),
            },
            Instruction::Print(id("_t5")),
        ]
    );
}

#[test]
fn temporaries_and_labels_are_never_reused() {
    let mut state = Lower::new();
    let mut temps: Vec<Id> = vec![];
    let mut made: Vec<Id> = vec![];
    for _ in 0..12 {
        temps.push(state.mk_var("_const"));
        temps.push(state.mk_var("_t"));
        made.push(state.mk_label());
    }
    for i in 0..temps.len() {
        for j in 0..i {
            assert_ne!(temps[i], temps[j]);
        }
    }
    for i in 0..made.len() {
        for j in 0..i {
            assert_ne!(made[i], made[j]);
        }
    }
    assert_eq!(temps[0], id("_const1"));
    assert_eq!(temps[1], id("_t2"));
    assert_eq!(temps[23], id("_t24"));
    assert_eq!(made[0], id("lbl1"));
    assert_eq!(made[11], id("lbl12"));
    assert_eq!(state.fresh_ctr, 24);
    assert_eq!(state.bb_ctr, 12);
    assert_eq!(state.decl.len(), 24);
}

#[test]
fn a_user_variable_may_collide_with_a_temporary() {
    let p = lower(program(vec![Stmt::Assign(id("_const1"), Expr::Const(4))]));
    assert_eq!(p.decl.len(), 1);
    assert_eq!(
        block(&p, "entry").insn,
        vec![
            Instruction::Const { dst: id("_const1"), src: 4 },
            Instruction::Copy { dst: id("_const1"), src: id("_const1") },
        ]
    );
}

#[test]
fn names_are_prefix_and_decimal_counter() {
    assert_eq!(make_temp_name("_const", 1), "_const1");
    assert_eq!(make_temp_name("_t", 10), "_t10");
    assert_eq!(make_temp_name("", 0), "0");
    assert_eq!(make_label_name(7), "lbl7");
    assert_eq!(make_label_name(1234567890), "lbl1234567890");
    assert_eq!(
        make_label_name(u128::MAX),
        "lbl340282366920938463463374607431768211455"
    );
    let mut s = String::from("n=");
    push_decimal(&mut s, 907);
    assert_eq!(s, "n=907");
}

#[test]
fn get_inner_gives_the_instruction_only() {
    assert_eq!(
        TvEntry::Inner(Instruction::Read(id("x"))).get_inner(),
        Some(Instruction::Read(id("x")))
    );
    assert_eq!(TvEntry::Label(id("entry")).get_inner(), None);
    assert_eq!(TvEntry::Term(Terminator::Exit).get_inner(), None);
}

#[test]
fn block_formation_of_degenerate_vectors() {
    assert_eq!(construct_cfg(vec![]).len(), 0);
    assert_eq!(
        construct_cfg(vec![
            TvEntry::Inner(Instruction::Read(id("x"))),
            TvEntry::Term(Terminator::Exit),
        ])
        .len(),
        0
    );
    assert_eq!(
        construct_cfg(vec![TvEntry::Term(Terminator::Exit), TvEntry::Label(id("a"))]).len(),
        0
    );
    // A label that no terminator follows forms no block.
    assert_eq!(
        construct_cfg(vec![
            TvEntry::Label(id("a")),
            TvEntry::Inner(Instruction::Read(id("x"))),
        ])
        .len(),
        0
    );
}

#[test]
fn block_formation_gives_a_block_to_the_latest_label() {
    // Two labels with no terminator between them: the instructions since
    // the last terminator all go to the later label.
    let g = construct_cfg(vec![
        TvEntry::Label(id("a")),
        TvEntry::Inner(Instruction::Read(id("x"))),
        TvEntry::Label(id("b")),
        TvEntry::Inner(Instruction::Print(id("x"))),
        TvEntry::Term(Terminator::Exit),
    ]);
    assert_eq!(g.len(), 1);
    assert!(!g.contains_key(&id("a")));
    let b = g.get(&id("b")).unwrap();
    assert_eq!(b.insn, vec![Instruction::Read(id("x")), Instruction::Print(id("x"))]);
    assert_eq!(b.term, Terminator::Exit);
}

#[test]
fn block_formation_replaces_a_block_stored_twice() {
    let g = construct_cfg(vec![
        TvEntry::Label(id("a")),
        TvEntry::Inner(Instruction::Read(id("x"))),
        TvEntry::Term(Terminator::Jump(id("a"))),
        TvEntry::Inner(Instruction::Print(id("x"))),
        TvEntry::Term(Terminator::Exit),
    ]);
    assert_eq!(g.len(), 1);
    let a = g.get(&id("a")).unwrap();
    assert_eq!(a.insn, vec![Instruction::Print(id("x"))]);
    assert_eq!(a.term, Terminator::Exit);
}

#[test]
fn id_set_keeps_each_name_once() {
    let mut s = IdSet::new();
    assert_eq!(s.len(), 0);
    assert!(s.insert(id("a")));
    assert!(s.insert(id("b")));
    assert!(!s.insert(id("a")));
    assert_eq!(s.len(), 2);
    assert!(s.contains(&id("a")));
    assert!(s.contains(&id("b")));
    assert!(!s.contains(&id("c")));
}

#[test]
fn block_map_insert_and_get() {
    let mut m = BlockMap::new();
    assert_eq!(m.len(), 0);
    assert_eq!(m.get(&id("a")), None);
    m.insert(id("a"), Block { insn: vec![], term: Terminator::Exit });
    m.insert(id("b"), Block { insn: vec![], term: Terminator::Jump(id("a")) });
    m.insert(id("a"), Block { insn: vec![Instruction::Read(id("x"))], term: Terminator::Exit });
    assert_eq!(m.len(), 2);
    assert_eq!(
        m.get(&id("a")),
        Some(&Block { insn: vec![Instruction::Read(id("x"))], term: Terminator::Exit })
    );
    assert_eq!(m.get(&id("b")).unwrap().term, Terminator::Jump(id("a")));
    assert!(m.contains_key(&id("b")));
    assert!(!m.contains_key(&id("c")));
}

#[test]
fn identifiers_compare_by_text() {
    assert!(id("x").same(&id("x")));
    assert!(!id("x").same(&id("y")));
    assert_eq!(id("x"), id("x").clone());
    assert_eq!(id("hello").as_str(), "hello");
}
