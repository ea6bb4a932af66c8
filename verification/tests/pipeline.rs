use front::ast::BOp;
use front::ident::id;
use front::lower::lower;
use front::parse::parse;
use front::tir::{Instruction, Terminator};

#[test]
fn parse_then_lower() {
    let p = lower(parse(":= x ~ 7 $if < x 0 {$print x} {$read x} $print x").unwrap());
    assert_eq!(p.block.len(), 4);
    let entry = p.block.get(&id("entry")).unwrap();
    assert_eq!(
        entry.insn,
        vec![
            Instruction::Const { dst: id("_const1"), src: 0 },
            Instruction::Const { dst: id("_const2"), src: 7 },
            Instruction::Arith {
                op: BOp::Sub,
                dst: id("_t3"),
                lhs: id("_const1"),
                rhs: id("_const2"),
            },
            Instruction::Copy { dst: id("x"), src: id("_t3") },
            Instruction::Const { dst: id("_const4"), src: 0 },
            Instruction::Arith {
                op: BOp::Lt,
                dst: id("_t5"),
                lhs: id("x"),
                rhs: id("_const4"),
            },
        ]
    );
    assert_eq!(
        entry.term,
        Terminator::Branch { guard: id("_t5"), tt: id("lbl1"), ff: id("lbl2") }
    );
    assert_eq!(p.block.get(&id("lbl1")).unwrap().insn, vec![Instruction::Print(id("x"))]);
    assert_eq!(p.block.get(&id("lbl2")).unwrap().insn, vec![Instruction::Read(id("x"))]);
    assert_eq!(p.block.get(&id("lbl3")).unwrap().insn, vec![Instruction::Print(id("x"))]);
    assert_eq!(p.block.get(&id("lbl3")).unwrap().term, Terminator::Exit);
    assert_eq!(p.decl.len(), 6);
}

fn instruction_vars(i: &Instruction) -> Vec<front::ident::Id> {
    match i {
        Instruction::Copy { dst, src } => vec![dst.clone(), src.clone()],
        Instruction::Print(x) => vec![x.clone()],
        Instruction::Read(x) => vec![x.clone()],
        Instruction::Const { dst, .. } => vec![dst.clone()],
        Instruction::Arith { dst, lhs, rhs, .. } => vec![dst.clone(), lhs.clone(), rhs.clone()],
    }
}

#[test]
fn every_variable_of_the_graph_is_declared() {
    let p = lower(
        parse("$read a := b + a ~ c $if < b 3 {$print d := e * 2 f} {$if g {} {$read h}}")
            .unwrap(),
    );
    assert_eq!(p.block.len(), 7);
    let mut seen = 0;
    for (_, block) in p.block.entries.iter() {
        for i in block.insn.iter() {
            for x in instruction_vars(i) {
                assert!(p.decl.contains(&x), "{:?} is not declared", x);
                seen += 1;
            }
        }
        if let Terminator::Branch { guard, .. } = &block.term {
            assert!(p.decl.contains(guard));
            seen += 1;
        }
    }
    assert!(seen > 0);
    for name in ["a", "b", "c", "d", "e", "f", "g", "h"] {
        assert!(p.decl.contains(&id(name)));
    }
}

#[test]
fn temporaries_of_a_graph_are_distinct() {
    let p = lower(
        parse(":= x + 1 2 $if < x 3 {:= y * x 4} {:= y ~ x} $print + y 5").unwrap(),
    );
    let mut temps: Vec<front::ident::Id> = vec![];
    for (_, block) in p.block.entries.iter() {
        for i in block.insn.iter() {
            match i {
                Instruction::Const { dst, .. } => temps.push(dst.clone()),
                Instruction::Arith { dst, .. } => temps.push(dst.clone()),
                _ => {}
            }
        }
    }
    assert_eq!(temps.len(), 11);
    for i in 0..temps.len() {
        for j in 0..i {
            assert_ne!(temps[i], temps[j]);
        }
    }
    let labels: Vec<&front::ident::Id> = p.block.entries.iter().map(|e| &e.0).collect();
    for i in 0..labels.len() {
        for j in 0..i {
            assert_ne!(labels[i], labels[j]);
        }
    }
}
