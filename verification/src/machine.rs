//! A model of the AArch64 instructions that binary operators compile to: the
//! registers they use, what each instruction does to them, and how each is
//! written in assembly text. With it the emitted operator code is proved to
//! compute the C meaning of its operator.
use vstd::prelude::*;
use crate::codegen::{Emitted, cast_line, gen_addr_spec, gen_expr_spec, load_lines, op_lines, pop_line, push_line, store_lines};
use crate::diag::CompileErrorV;
use crate::text::{dec_int, dec_nat};
use crate::types::{NodeKindV, NodeV, TypeKindV, TypeV, Var};

verus! {

/// A general-purpose register used by operator code.
pub enum Reg {
    X0,
    X1,
    X2,
    /// The frame pointer.
    X29,
}

/// The second operand of `cmp` or of `mov`: a register or the immediate zero.
pub enum Src {
    R(Reg),
    Zero,
}

/// A condition of `cset`, read after a signed `cmp`.
pub enum Cond {
    Eq,
    Ne,
    Lt,
    Le,
    Gt,
    Ge,
}

/// A three-register instruction `op d, a, b` that sets `d` from `a` and `b`.
pub enum Alu {
    Add,
    Sub,
    Mul,
    Sdiv,
    And,
    Eor,
    Orr,
}

/// One instruction.
pub enum Ins {
    /// `op d, a, b`.
    Op3 { op: Alu, d: Reg, a: Reg, b: Reg },
    /// `msub d, a, b, c`: `d = c - a * b`.
    Msub { d: Reg, a: Reg, b: Reg, c: Reg },
    /// `cmp a, s`: remembers both values for a later `cset`.
    Compare { a: Reg, s: Src },
    /// `cset d, cond`: `d` is 1 when the last comparison meets `cond`, else 0.
    Cset { d: Reg, cond: Cond },
    /// `mov d, 0`.
    MovZero { d: Reg },
    /// `add d, a, imm`.
    AddImm { d: Reg, a: Reg, imm: nat },
    /// `mov d, val` for a signed immediate.
    MovImm { d: Reg, val: int },
    /// `neg d, a`.
    Neg { d: Reg, a: Reg },
    /// `str x0, [sp, -16]!`: pushes `x0` on the stack.
    Push,
    /// `ldr x1, [sp], 16`: pops the top of the stack into `x1`.
    PopX1,
}

/// The machine state that operator code reads and writes: three registers and
/// the two values of the last comparison.
pub struct Regs {
    pub x0: i64,
    pub x1: i64,
    pub x2: i64,
    pub x29: i64,
    pub stack: Seq<i64>,
    pub flag_l: i64,
    pub flag_r: i64,
}

pub open spec fn reg_val(m: Regs, r: Reg) -> i64 {
    match r {
        Reg::X0 => m.x0,
        Reg::X1 => m.x1,
        Reg::X2 => m.x2,
        Reg::X29 => m.x29,
    }
}

pub open spec fn src_val(m: Regs, s: Src) -> i64 {
    match s {
        Src::R(r) => reg_val(m, r),
        Src::Zero => 0,
    }
}

pub open spec fn set_reg(m: Regs, r: Reg, v: i64) -> Regs {
    match r {
        Reg::X0 => Regs { x0: v, ..m },
        Reg::X1 => Regs { x1: v, ..m },
        Reg::X2 => Regs { x2: v, ..m },
        Reg::X29 => Regs { x29: v, ..m },
    }
}

pub open spec fn mag(a: int) -> int {
    if a < 0 {
        -a
    } else {
        a
    }
}

/// Signed division rounded toward zero; division by zero gives zero, as
/// `sdiv` does.
pub open spec fn trunc_div(a: int, b: int) -> int {
    if b == 0 {
        0
    } else {
        let q = mag(a) / mag(b);
        if (a < 0) != (b < 0) {
            -q
        } else {
            q
        }
    }
}

pub open spec fn cond_holds(c: Cond, l: i64, r: i64) -> bool {
    match c {
        Cond::Eq => l == r,
        Cond::Ne => l != r,
        Cond::Lt => l < r,
        Cond::Le => l <= r,
        Cond::Gt => l > r,
        Cond::Ge => l >= r,
    }
}

/// What `op` computes from two 64-bit values, wrapping as the machine does.
pub open spec fn alu_val(op: Alu, a: i64, b: i64) -> i64 {
    match op {
        Alu::Add => (a + b) as i64,
        Alu::Sub => (a - b) as i64,
        Alu::Mul => (a * b) as i64,
        Alu::Sdiv => trunc_div(a as int, b as int) as i64,
        Alu::And => a & b,
        Alu::Eor => a ^ b,
        Alu::Orr => a | b,
    }
}

/// What one instruction does to the machine state.
pub open spec fn step(i: Ins, m: Regs) -> Regs {
    match i {
        Ins::Op3 { op, d, a, b } => set_reg(m, d, alu_val(op, reg_val(m, a), reg_val(m, b))),
        Ins::Msub { d, a, b, c } => set_reg(
            m,
            d,
            (reg_val(m, c) - reg_val(m, a) * reg_val(m, b)) as i64,
        ),
        Ins::Compare { a, s } => Regs { flag_l: reg_val(m, a), flag_r: src_val(m, s), ..m },
        Ins::Cset { d, cond } => set_reg(m, d, if cond_holds(cond, m.flag_l, m.flag_r) { 1 } else { 0 }),
        Ins::MovZero { d } => set_reg(m, d, 0),
        Ins::AddImm { d, a, imm } => set_reg(m, d, (reg_val(m, a) + imm) as i64),
        Ins::MovImm { d, val } => set_reg(m, d, val as i64),
        Ins::Neg { d, a } => set_reg(m, d, (-reg_val(m, a)) as i64),
        Ins::Push => Regs { stack: m.stack.push(m.x0), ..m },
        Ins::PopX1 => Regs { x1: m.stack.last(), stack: m.stack.drop_last(), ..m },
    }
}

/// The state after running the instructions in order.
pub open spec fn run(p: Seq<Ins>, m: Regs) -> Regs
    decreases p.len(),
{
    if p.len() == 0 {
        m
    } else {
        run(p.drop_first(), step(p[0], m))
    }
}

pub open spec fn reg_text(r: Reg) -> Seq<char> {
    match r {
        Reg::X0 => "x0"@,
        Reg::X1 => "x1"@,
        Reg::X2 => "x2"@,
        Reg::X29 => "x29"@,
    }
}

pub open spec fn cond_text(c: Cond) -> Seq<char> {
    match c {
        Cond::Eq => "eq"@,
        Cond::Ne => "ne"@,
        Cond::Lt => "lt"@,
        Cond::Le => "le"@,
        Cond::Gt => "gt"@,
        Cond::Ge => "ge"@,
    }
}

pub open spec fn alu_text(op: Alu) -> Seq<char> {
    match op {
        Alu::Add => "add"@,
        Alu::Sub => "sub"@,
        Alu::Mul => "mul"@,
        Alu::Sdiv => "sdiv"@,
        Alu::And => "and"@,
        Alu::Eor => "eor"@,
        Alu::Orr => "orr"@,
    }
}

/// An instruction as a line of assembly: indented, the mnemonic, then the
/// operands separated by `, `.
pub open spec fn ins_text(i: Ins) -> Seq<char> {
    match i {
        Ins::Op3 { op, d, a, b } => "      "@ + alu_text(op) + " "@ + reg_text(d) + ", "@ + reg_text(a) + ", "@
            + reg_text(b),
        Ins::Msub { d, a, b, c } => "      msub "@ + reg_text(d) + ", "@ + reg_text(a) + ", "@ + reg_text(b)
            + ", "@ + reg_text(c),
        Ins::Compare { a, s } => "      cmp "@ + reg_text(a) + ", "@ + match s {
            Src::R(r) => reg_text(r),
            Src::Zero => "0"@,
        },
        Ins::Cset { d, cond } => "      cset "@ + reg_text(d) + ", "@ + cond_text(cond),
        Ins::MovZero { d } => "      mov "@ + reg_text(d) + ", 0"@,
        Ins::AddImm { d, a, imm } => "      add "@ + reg_text(d) + ", "@ + reg_text(a) + ", "@ + dec_nat(imm),
        Ins::MovImm { d, val } => "      mov "@ + reg_text(d) + ", "@ + dec_int(val),
        Ins::Neg { d, a } => "      neg "@ + reg_text(d) + ", "@ + reg_text(a),
        Ins::Push => "      str x0, [sp, -16]!  // push"@,
        Ins::PopX1 => "      ldr x1, [sp], 16 // pop"@,
    }
}

pub open spec fn ins_texts(p: Seq<Ins>) -> Seq<Seq<char>> {
    p.map_values(|i: Ins| ins_text(i))
}

/// The C meaning of binary operator number `op` on 64-bit operands `l` and
/// `r`: `+ - * / %`, `== != < <= > >=` (1 or 0), `&& ||` (1 or 0), `& ^ |`.
pub open spec fn c_op_val(op: u8, l: i64, r: i64) -> i64 {
    if op == 0 {
        (l + r) as i64
    } else if op == 1 {
        (l - r) as i64
    } else if op == 2 {
        (l * r) as i64
    } else if op == 3 {
        trunc_div(l as int, r as int) as i64
    } else if op == 4 {
        (l - (trunc_div(l as int, r as int) as i64) * r) as i64
    } else if op <= 10 {
        let holds = if op == 5 {
            l == r
        } else if op == 6 {
            l != r
        } else if op == 7 {
            l < r
        } else if op == 8 {
            l <= r
        } else if op == 9 {
            l > r
        } else {
            l >= r
        };
        if holds {
            1
        } else {
            0
        }
    } else if op == 11 {
        if l != 0 && r != 0 {
            1
        } else {
            0
        }
    } else if op == 12 {
        if l != 0 || r != 0 {
            1
        } else {
            0
        }
    } else if op == 13 {
        l & r
    } else if op == 14 {
        l ^ r
    } else {
        l | r
    }
}

pub open spec fn op3(op: Alu, d: Reg, a: Reg, b: Reg) -> Ins {
    Ins::Op3 { op, d, a, b }
}

pub open spec fn compare_ins(a: Reg, s: Src) -> Ins {
    Ins::Compare { a, s }
}

pub open spec fn cset_ins(d: Reg, cond: Cond) -> Ins {
    Ins::Cset { d, cond }
}

proof fn lemma_op_texts()
    ensures
        ins_text(op3(Alu::Add, Reg::X0, Reg::X1, Reg::X0)) == "      add x0, x1, x0"@,
        ins_text(op3(Alu::Sub, Reg::X0, Reg::X1, Reg::X0)) == "      sub x0, x1, x0"@,
        ins_text(op3(Alu::Mul, Reg::X0, Reg::X1, Reg::X0)) == "      mul x0, x1, x0"@,
        ins_text(op3(Alu::Sdiv, Reg::X0, Reg::X1, Reg::X0)) == "      sdiv x0, x1, x0"@,
        ins_text(op3(Alu::Sdiv, Reg::X2, Reg::X1, Reg::X0)) == "      sdiv x2, x1, x0"@,
        ins_text(Ins::Msub { d: Reg::X0, a: Reg::X2, b: Reg::X0, c: Reg::X1 }) == "      msub x0, x2, x0, x1"@,
        ins_text(compare_ins(Reg::X0, Src::R(Reg::X1))) == "      cmp x0, x1"@,
        ins_text(compare_ins(Reg::X1, Src::R(Reg::X0))) == "      cmp x1, x0"@,
        ins_text(cset_ins(Reg::X0, Cond::Eq)) == "      cset x0, eq"@,
        ins_text(cset_ins(Reg::X0, Cond::Ne)) == "      cset x0, ne"@,
        ins_text(cset_ins(Reg::X0, Cond::Lt)) == "      cset x0, lt"@,
        ins_text(cset_ins(Reg::X0, Cond::Le)) == "      cset x0, le"@,
        ins_text(cset_ins(Reg::X0, Cond::Gt)) == "      cset x0, gt"@,
        ins_text(cset_ins(Reg::X0, Cond::Ge)) == "      cset x0, ge"@,
        ins_text(Ins::MovZero { d: Reg::X2 }) == "      mov x2, 0"@,
        ins_text(compare_ins(Reg::X1, Src::Zero)) == "      cmp x1, 0"@,
        ins_text(cset_ins(Reg::X2, Cond::Ne)) == "      cset x2, ne"@,
        ins_text(compare_ins(Reg::X0, Src::Zero)) == "      cmp x0, 0"@,
        ins_text(op3(Alu::And, Reg::X0, Reg::X0, Reg::X2)) == "      and x0, x0, x2"@,
        ins_text(op3(Alu::Orr, Reg::X0, Reg::X0, Reg::X2)) == "      orr x0, x0, x2"@,
        ins_text(op3(Alu::And, Reg::X0, Reg::X1, Reg::X0)) == "      and x0, x1, x0"@,
        ins_text(op3(Alu::Eor, Reg::X0, Reg::X1, Reg::X0)) == "      eor x0, x1, x0"@,
        ins_text(op3(Alu::Orr, Reg::X0, Reg::X1, Reg::X0)) == "      orr x0, x1, x0"@,
{
    reveal_strlit("x0");
    reveal_strlit("x1");
    reveal_strlit("x2");
    reveal_strlit("eq");
    reveal_strlit("ne");
    reveal_strlit("lt");
    reveal_strlit("le");
    reveal_strlit("gt");
    reveal_strlit("ge");
    reveal_strlit("add");
    reveal_strlit("sub");
    reveal_strlit("mul");
    reveal_strlit("sdiv");
    reveal_strlit("and");
    reveal_strlit("eor");
    reveal_strlit("orr");
    reveal_strlit("      ");
    reveal_strlit(" ");
    reveal_strlit(", ");
    reveal_strlit("0");
    reveal_strlit(", 0");
    reveal_strlit("      msub ");
    reveal_strlit("      cmp ");
    reveal_strlit("      cset ");
    reveal_strlit("      mov ");
    reveal_strlit("      add x0, x1, x0");
    reveal_strlit("      sub x0, x1, x0");
    reveal_strlit("      mul x0, x1, x0");
    reveal_strlit("      sdiv x0, x1, x0");
    reveal_strlit("      sdiv x2, x1, x0");
    reveal_strlit("      msub x0, x2, x0, x1");
    reveal_strlit("      cmp x0, x1");
    reveal_strlit("      cmp x1, x0");
    reveal_strlit("      cset x0, eq");
    reveal_strlit("      cset x0, ne");
    reveal_strlit("      cset x0, lt");
    reveal_strlit("      cset x0, le");
    reveal_strlit("      cset x0, gt");
    reveal_strlit("      cset x0, ge");
    reveal_strlit("      mov x2, 0");
    reveal_strlit("      cmp x1, 0");
    reveal_strlit("      cset x2, ne");
    reveal_strlit("      cmp x0, 0");
    reveal_strlit("      and x0, x0, x2");
    reveal_strlit("      orr x0, x0, x2");
    reveal_strlit("      and x0, x1, x0");
    reveal_strlit("      eor x0, x1, x0");
    reveal_strlit("      orr x0, x1, x0");
    assert(ins_text(op3(Alu::Add, Reg::X0, Reg::X1, Reg::X0)) =~= "      add x0, x1, x0"@);
    assert(ins_text(op3(Alu::Sub, Reg::X0, Reg::X1, Reg::X0)) =~= "      sub x0, x1, x0"@);
    assert(ins_text(op3(Alu::Mul, Reg::X0, Reg::X1, Reg::X0)) =~= "      mul x0, x1, x0"@);
    assert(ins_text(op3(Alu::Sdiv, Reg::X0, Reg::X1, Reg::X0)) =~= "      sdiv x0, x1, x0"@);
    assert(ins_text(op3(Alu::Sdiv, Reg::X2, Reg::X1, Reg::X0)) =~= "      sdiv x2, x1, x0"@);
    assert(ins_text(Ins::Msub { d: Reg::X0, a: Reg::X2, b: Reg::X0, c: Reg::X1 }) =~= "      msub x0, x2, x0, x1"@);
    assert(ins_text(compare_ins(Reg::X0, Src::R(Reg::X1))) =~= "      cmp x0, x1"@);
    assert(ins_text(compare_ins(Reg::X1, Src::R(Reg::X0))) =~= "      cmp x1, x0"@);
    assert(ins_text(cset_ins(Reg::X0, Cond::Eq)) =~= "      cset x0, eq"@);
    assert(ins_text(cset_ins(Reg::X0, Cond::Ne)) =~= "      cset x0, ne"@);
    assert(ins_text(cset_ins(Reg::X0, Cond::Lt)) =~= "      cset x0, lt"@);
    assert(ins_text(cset_ins(Reg::X0, Cond::Le)) =~= "      cset x0, le"@);
    assert(ins_text(cset_ins(Reg::X0, Cond::Gt)) =~= "      cset x0, gt"@);
    assert(ins_text(cset_ins(Reg::X0, Cond::Ge)) =~= "      cset x0, ge"@);
    assert(ins_text(Ins::MovZero { d: Reg::X2 }) =~= "      mov x2, 0"@);
    assert(ins_text(compare_ins(Reg::X1, Src::Zero)) =~= "      cmp x1, 0"@);
    assert(ins_text(cset_ins(Reg::X2, Cond::Ne)) =~= "      cset x2, ne"@);
    assert(ins_text(compare_ins(Reg::X0, Src::Zero)) =~= "      cmp x0, 0"@);
    assert(ins_text(op3(Alu::And, Reg::X0, Reg::X0, Reg::X2)) =~= "      and x0, x0, x2"@);
    assert(ins_text(op3(Alu::Orr, Reg::X0, Reg::X0, Reg::X2)) =~= "      orr x0, x0, x2"@);
    assert(ins_text(op3(Alu::And, Reg::X0, Reg::X1, Reg::X0)) =~= "      and x0, x1, x0"@);
    assert(ins_text(op3(Alu::Eor, Reg::X0, Reg::X1, Reg::X0)) =~= "      eor x0, x1, x0"@);
    assert(ins_text(op3(Alu::Orr, Reg::X0, Reg::X1, Reg::X0)) =~= "      orr x0, x1, x0"@);
}

/// The program that operator number `op` compiles to.
spec fn op_program(op: u8) -> Seq<Ins> {
    let (x0, x1, x2) = (Reg::X0, Reg::X1, Reg::X2);
    if op == 0 {
        seq![op3(Alu::Add, x0, x1, x0)]
    } else if op == 1 {
        seq![op3(Alu::Sub, x0, x1, x0)]
    } else if op == 2 {
        seq![op3(Alu::Mul, x0, x1, x0)]
    } else if op == 3 {
        seq![op3(Alu::Sdiv, x0, x1, x0)]
    } else if op == 4 {
        seq![op3(Alu::Sdiv, x2, x1, x0), Ins::Msub { d: x0, a: x2, b: x0, c: x1 }]
    } else if op == 5 {
        seq![compare_ins(x0, Src::R(x1)), cset_ins(x0, Cond::Eq)]
    } else if op == 6 {
        seq![compare_ins(x0, Src::R(x1)), cset_ins(x0, Cond::Ne)]
    } else if op == 7 {
        seq![compare_ins(x1, Src::R(x0)), cset_ins(x0, Cond::Lt)]
    } else if op == 8 {
        seq![compare_ins(x1, Src::R(x0)), cset_ins(x0, Cond::Le)]
    } else if op == 9 {
        seq![compare_ins(x1, Src::R(x0)), cset_ins(x0, Cond::Gt)]
    } else if op == 10 {
        seq![compare_ins(x1, Src::R(x0)), cset_ins(x0, Cond::Ge)]
    } else if op == 11 || op == 12 {
        seq![
            Ins::MovZero { d: x2 },
            compare_ins(x1, Src::Zero),
            cset_ins(x2, Cond::Ne),
            compare_ins(x0, Src::Zero),
            cset_ins(x0, Cond::Ne),
            op3(if op == 11 { Alu::And } else { Alu::Orr }, x0, x0, x2),
        ]
    } else if op == 13 {
        seq![op3(Alu::And, x0, x1, x0)]
    } else if op == 14 {
        seq![op3(Alu::Eor, x0, x1, x0)]
    } else {
        seq![op3(Alu::Orr, x0, x1, x0)]
    }
}

proof fn lemma_op_program(op: u8)
    requires
        op < 16,
    ensures
        ins_texts(op_program(op)) == op_lines(op),
        forall|m: Regs| (#[trigger] run(op_program(op), m)).x0 == c_op_val(op, m.x1, m.x0) && run(op_program(op), m).stack
            == m.stack,
{
    let p = op_program(op);
    lemma_op_texts();
    assert(ins_texts(p) =~= op_lines(op));
    assert forall|m: Regs| (#[trigger] run(p, m)).x0 == c_op_val(op, m.x1, m.x0) && run(p, m).stack == m.stack by {
        reveal_with_fuel(run, 7);
        if op == 11 || op == 12 {
            assert((1i64 & 1i64) == 1i64 && (1i64 & 0i64) == 0i64 && (0i64 & 1i64) == 0i64 && (0i64 & 0i64) == 0i64)
                by (bit_vector);
            assert((1i64 | 1i64) == 1i64 && (1i64 | 0i64) == 1i64 && (0i64 | 1i64) == 1i64 && (0i64 | 0i64) == 0i64)
                by (bit_vector);
        }
    }
}

/// The code of every binary operator computes its C meaning: the lines that
/// are emitted for operator number `op` are the text of a program that, run
/// with the left operand in `x1` and the right one in `x0`, leaves in `x0`
/// the value of `left op right` (for a comparison, 1 exactly when it holds
/// of the signed operands, else 0).
pub proof fn law_operator_code_computes_the_operator(op: u8)
    requires
        op < 16,
    ensures
        exists|p: Seq<Ins>| #[trigger] ins_texts(p) == op_lines(op)
            && forall|m: Regs| (#[trigger] run(p, m)).x0 == c_op_val(op, m.x1, m.x0),
{
    lemma_op_program(op);
    let p = op_program(op);
    assert(ins_texts(p) == op_lines(op));
}

/// The width suffix of a load, store or sign extension: a byte, a halfword,
/// a word, or none (the width of the register).
pub enum Width {
    B,
    H,
    W,
    Full,
}

pub open spec fn width_text(w: Width) -> Seq<char> {
    match w {
        Width::B => "b"@,
        Width::H => "h"@,
        Width::W => "w"@,
        Width::Full => ""@,
    }
}

/// The bytes that an access of width `w` moves into or out of a register
/// that is 64 bits wide when `wide`, else 32.
pub open spec fn access_bytes(w: Width, wide: bool) -> nat {
    match w {
        Width::B => 1,
        Width::H => 2,
        Width::W => 4,
        Width::Full => if wide {
            8
        } else {
            4
        },
    }
}

pub open spec fn size_reg_text(wide: bool) -> Seq<char> {
    if wide {
        "x0"@
    } else {
        "w0"@
    }
}

/// `ldr<s><w> r0, [x0]`: a load from the address in `x0`, sign-extending
/// when `signed`.
pub open spec fn load_text(w: Width, signed: bool, wide: bool) -> Seq<char> {
    "      ldr"@ + (if signed {
        "s"@
    } else {
        ""@
    }) + width_text(w) + " "@ + size_reg_text(wide) + ", [x0]"@
}

/// `str<w> r0, [x1]`: a store of the value in register 0 to the address in
/// `x1`.
pub open spec fn store_text(w: Width, wide: bool) -> Seq<char> {
    "      str"@ + width_text(w) + " "@ + size_reg_text(wide) + ", [x1]"@
}

/// `sxt<w> r0, w0`: the value of the low `w` part of register 0,
/// sign-extended.
pub open spec fn extend_text(w: Width, wide: bool) -> Seq<char> {
    "      sxt"@ + width_text(w) + " "@ + size_reg_text(wide) + ", w0"@
}

/// A scalar type of one of the language's widths.
pub open spec fn scalar_ok(t: TypeV) -> bool {
    !(t.kind is Array || t.kind is Struct || t.kind is Union) && (t.size == 1 || t.size == 2 || t.size == 4
        || t.size == 8)
}

/// Loads and stores move exactly the bytes of their type: for a scalar type,
/// the value is loaded by one load from the address in `x0` into register 0,
/// sign-extended, and stored by one store from register 0 to the address in
/// `x1`, each of as many bytes as the type is long.
pub proof fn law_loads_and_stores_move_the_type_size(t: TypeV)
    requires
        scalar_ok(t),
    ensures
        exists|w: Width, s: bool, wide: bool| #[trigger] load_text(w, s, wide) == load_lines(t)[0]
            && load_lines(t).len() == 1 && access_bytes(w, wide) == t.size && (s || access_bytes(w, wide) >= 4),
        exists|w: Width, wide: bool| #[trigger] store_text(w, wide) == store_lines(t)[0] && store_lines(t).len() == 1
            && access_bytes(w, wide) == t.size,
{
    reveal_strlit("      ldr");
    reveal_strlit("      str");
    reveal_strlit("s");
    reveal_strlit("");
    reveal_strlit("b");
    reveal_strlit("h");
    reveal_strlit("w");
    reveal_strlit(" ");
    reveal_strlit("x0");
    reveal_strlit("w0");
    reveal_strlit(", [x0]");
    reveal_strlit(", [x1]");
    reveal_strlit("      ldrsb x0, [x0]");
    reveal_strlit("      ldrsh w0, [x0]");
    reveal_strlit("      ldr w0, [x0]");
    reveal_strlit("      ldr x0, [x0]");
    reveal_strlit("      strb w0, [x1]");
    reveal_strlit("      strh w0, [x1]");
    reveal_strlit("      str w0, [x1]");
    reveal_strlit("      str x0, [x1]");
    if t.size == 1 {
        assert(load_text(Width::B, true, true) =~= load_lines(t)[0]);
        assert(store_text(Width::B, false) =~= store_lines(t)[0]);
    } else if t.size == 2 {
        assert(load_text(Width::H, true, false) =~= load_lines(t)[0]);
        assert(store_text(Width::H, false) =~= store_lines(t)[0]);
    } else if t.size == 4 {
        assert(load_text(Width::Full, false, false) =~= load_lines(t)[0]);
        assert(store_text(Width::Full, false) =~= store_lines(t)[0]);
    } else {
        assert(load_text(Width::Full, false, true) =~= load_lines(t)[0]);
        assert(store_text(Width::Full, true) =~= store_lines(t)[0]);
    }
}

/// An integer type of the language with its width: `char` 1, `short` 2,
/// `int` 4, `long` 8 bytes.
pub open spec fn std_int(t: TypeV) -> bool {
    match t.kind {
        TypeKindV::Char => t.size == 1,
        TypeKindV::Short => t.size == 2,
        TypeKindV::Int => t.size == 4,
        TypeKindV::Long => t.size == 8,
        _ => false,
    }
}

pub open spec fn min_nat(a: nat, b: nat) -> nat {
    if a <= b {
        a
    } else {
        b
    }
}

/// A conversion between integer types keeps the low bytes that both types
/// hold, sign-extended: between different types it is one sign extension
/// from as many bytes as the narrower of the two types; a type converted to
/// itself needs no instruction.
pub proof fn law_integer_casts_extend_from_the_narrower(from: TypeV, to: TypeV)
    requires
        std_int(from),
        std_int(to),
    ensures
        from.kind == to.kind ==> cast_line(from, to) == Some(""@),
        from.kind != to.kind ==> exists|w: Width, wide: bool| Some(#[trigger] extend_text(w, wide)) == cast_line(
            from,
            to,
        ) && access_bytes(w, wide) == min_nat(from.size as nat, to.size as nat),
{
    reveal_strlit("      sxt");
    reveal_strlit("b");
    reveal_strlit("h");
    reveal_strlit("w");
    reveal_strlit(" ");
    reveal_strlit("x0");
    reveal_strlit("w0");
    reveal_strlit(", w0");
    reveal_strlit("      sxtb w0, w0");
    reveal_strlit("      sxtb x0, w0");
    reveal_strlit("      sxth w0, w0");
    reveal_strlit("      sxth x0, w0");
    reveal_strlit("      sxtw x0, w0");
    assert(extend_text(Width::B, false) =~= "      sxtb w0, w0"@);
    assert(extend_text(Width::B, true) =~= "      sxtb x0, w0"@);
    assert(extend_text(Width::H, false) =~= "      sxth w0, w0"@);
    assert(extend_text(Width::H, true) =~= "      sxth x0, w0"@);
    assert(extend_text(Width::W, true) =~= "      sxtw x0, w0"@);
}

/// Running one more instruction after a program.
pub proof fn lemma_run_push(p: Seq<Ins>, i: Ins, m: Regs)
    ensures
        run(p.push(i), m) == step(i, run(p, m)),
    decreases p.len(),
{
    if p.len() > 0 {
        assert(p.push(i).drop_first() =~= p.drop_first().push(i));
        assert(p.push(i)[0] == p[0]);
        lemma_run_push(p.drop_first(), i, step(p[0], m));
    } else {
        assert(p.push(i).drop_first() =~= Seq::<Ins>::empty());
        assert(p.push(i)[0] == i);
        assert(run(Seq::<Ins>::empty(), step(i, m)) == step(i, m));
    }
}

/// Where a local variable, or a chain of member accesses into one, lies:
/// its byte offset from the frame pointer (the variable's offset plus the
/// offset of each member taken).
pub open spec fn frame_offset(n: NodeV, vars: Seq<Var>) -> Option<nat>
    decreases n,
{
    match n.kind {
        NodeKindV::Var { var } => if var < vars.len() && vars[var as int].is_local {
            Some(vars[var as int].offset as nat)
        } else {
            None
        },
        NodeKindV::Member { lhs, member } => match frame_offset(*lhs, vars) {
            Some(o) => Some(o + member.offset as nat),
            None => None,
        },
        _ => None,
    }
}

/// The address of a local variable, or of a member of one, is the frame
/// pointer plus its offset: the code emitted for the address is the text of
/// a program that leaves in `x0` the value of `x29` plus that offset
/// (wherever the sum fits 64 bits).
pub proof fn law_local_address_is_frame_plus_offset(n: NodeV, vars: Seq<Var>, f: Seq<char>, li: usize, lf: usize)
    requires
        frame_offset(n, vars) is Some,
    ensures
        gen_addr_spec(n, vars, f, li, lf) matches Ok((ls, i, j)) && exists|p: Seq<Ins>| #[trigger] ins_texts(p) == ls
            && forall|m: Regs| m.x29 + frame_offset(n, vars)->0 <= i64::MAX ==> (#[trigger] run(p, m)).x0 == m.x29
            + frame_offset(n, vars)->0,
    decreases n,
{
    reveal_strlit("      add ");
    reveal_strlit("x0");
    reveal_strlit("x29");
    reveal_strlit(", ");
    reveal_strlit("      add x0, x29, ");
    reveal_strlit("      add x0, x0, ");
    match n.kind {
        NodeKindV::Var { var } => {
            let v = vars[var as int];
            let ins = Ins::AddImm { d: Reg::X0, a: Reg::X29, imm: v.offset as nat };
            let p = seq![ins];
            assert(ins_text(ins) =~= "      add x0, x29, "@ + dec_nat(v.offset as nat));
            assert(ins_texts(p) =~= seq!["      add x0, x29, "@ + dec_nat(v.offset as nat)]);
            assert forall|m: Regs| m.x29 + frame_offset(n, vars)->0 <= i64::MAX implies (#[trigger] run(p, m)).x0
                == m.x29 + frame_offset(n, vars)->0 by {
                reveal_with_fuel(run, 2);
            }
        },
        NodeKindV::Member { lhs, member } => {
            law_local_address_is_frame_plus_offset(*lhs, vars, f, li, lf);
            let (a, i1, j1) = gen_addr_spec(*lhs, vars, f, li, lf)->Ok_0;
            let p0 = choose|p: Seq<Ins>| #[trigger] ins_texts(p) == a
                && forall|m: Regs| m.x29 + frame_offset(*lhs, vars)->0 <= i64::MAX ==> (#[trigger] run(p, m)).x0 == m.x29
                + frame_offset(*lhs, vars)->0;
            let ins = Ins::AddImm { d: Reg::X0, a: Reg::X0, imm: member.offset as nat };
            let p = p0.push(ins);
            assert(ins_text(ins) =~= "      add x0, x0, "@ + dec_nat(member.offset as nat));
            assert(ins_texts(p) =~= a.push("      add x0, x0, "@ + dec_nat(member.offset as nat)));
            assert forall|m: Regs| m.x29 + frame_offset(n, vars)->0 <= i64::MAX implies (#[trigger] run(p, m)).x0
                == m.x29 + frame_offset(n, vars)->0 by {
                lemma_run_push(p0, ins, m);
                assert(run(p0, m).x0 == m.x29 + frame_offset(*lhs, vars)->0);
            }
        },
        _ => {},
    }
}

/// Running two programs one after the other.
pub proof fn lemma_run_append(p: Seq<Ins>, q: Seq<Ins>, m: Regs)
    ensures
        run(p + q, m) == run(q, run(p, m)),
    decreases p.len(),
{
    if p.len() > 0 {
        assert((p + q).drop_first() =~= p.drop_first() + q);
        assert((p + q)[0] == p[0]);
        lemma_run_append(p.drop_first(), q, step(p[0], m));
    } else {
        assert(p + q =~= q);
    }
}

pub proof fn lemma_texts_append(p: Seq<Ins>, q: Seq<Ins>)
    ensures
        ins_texts(p + q) == ins_texts(p) + ins_texts(q),
        forall|i: Ins| #[trigger] ins_texts(p.push(i)) == ins_texts(p).push(ins_text(i)),
{
    assert(ins_texts(p + q) =~= ins_texts(p) + ins_texts(q));
    assert forall|i: Ins| #[trigger] ins_texts(p.push(i)) == ins_texts(p).push(ins_text(i)) by {
        assert(ins_texts(p.push(i)) =~= ins_texts(p).push(ins_text(i)));
    }
}

pub open spec fn both_val(a: Option<i64>, b: Option<i64>, op: u8) -> Option<i64> {
    match (a, b) {
        (Some(x), Some(y)) => Some(c_op_val(op, x, y)),
        _ => None,
    }
}

/// The 64-bit value of an expression built from integer literals, negation
/// and the binary operators, by the C meaning of each operator (`+` is
/// operator 0, `-` 1, `*` 2, `/` 3, `%` 4, `==` 5, `!=` 6, `<` 7, `<=` 8,
/// `>` 9, `>=` 10, `&&` 11, `||` 12, `&` 13, `^` 14, `|` 15).
pub open spec fn const_val(n: NodeV) -> Option<i64>
    decreases n,
{
    match n.kind {
        NodeKindV::Num { val } => Some(val as i64),
        NodeKindV::Neg { lhs } => match const_val(*lhs) {
            Some(v) => Some((-v) as i64),
            None => None,
        },
        NodeKindV::Add { lhs, rhs } => both_val(const_val(*lhs), const_val(*rhs), 0u8),
        NodeKindV::Sub { lhs, rhs } => both_val(const_val(*lhs), const_val(*rhs), 1u8),
        NodeKindV::Mul { lhs, rhs } => both_val(const_val(*lhs), const_val(*rhs), 2u8),
        NodeKindV::Div { lhs, rhs } => both_val(const_val(*lhs), const_val(*rhs), 3u8),
        NodeKindV::Mod { lhs, rhs } => both_val(const_val(*lhs), const_val(*rhs), 4u8),
        NodeKindV::Eq { lhs, rhs } => both_val(const_val(*lhs), const_val(*rhs), 5u8),
        NodeKindV::Ne { lhs, rhs } => both_val(const_val(*lhs), const_val(*rhs), 6u8),
        NodeKindV::Lt { lhs, rhs } => both_val(const_val(*lhs), const_val(*rhs), 7u8),
        NodeKindV::Le { lhs, rhs } => both_val(const_val(*lhs), const_val(*rhs), 8u8),
        NodeKindV::Gt { lhs, rhs } => both_val(const_val(*lhs), const_val(*rhs), 9u8),
        NodeKindV::Ge { lhs, rhs } => both_val(const_val(*lhs), const_val(*rhs), 10u8),
        NodeKindV::And { lhs, rhs } => both_val(const_val(*lhs), const_val(*rhs), 11u8),
        NodeKindV::Or { lhs, rhs } => both_val(const_val(*lhs), const_val(*rhs), 12u8),
        NodeKindV::BitAnd { lhs, rhs } => both_val(const_val(*lhs), const_val(*rhs), 13u8),
        NodeKindV::BitXor { lhs, rhs } => both_val(const_val(*lhs), const_val(*rhs), 14u8),
        NodeKindV::BitOr { lhs, rhs } => both_val(const_val(*lhs), const_val(*rhs), 15u8),
        _ => None,
    }
}

/// Lines of assembly that are the text of a program which leaves `v` in `x0`
/// and the stack as it found it, from any machine state.
pub open spec fn computes(ls: Seq<Seq<char>>, v: i64) -> bool {
    exists|p: Seq<Ins>| #[trigger] ins_texts(p) == ls && forall|m: Regs| (#[trigger] run(p, m)).x0 == v && run(p, m).stack
        == m.stack
}

/// The code of an expression, kept folded while the proof below walks the
/// tree.
#[verifier::opaque]
spec fn code_of(n: NodeV, vars: Seq<Var>, f: Seq<char>, li: usize, lf: usize) -> Emitted {
    gen_expr_spec(n, vars, f, li, lf)
}

/// The operands of a binary node and the number of its operator in the
/// code generator's table.
spec fn bin_parts(n: NodeV) -> Option<(NodeV, NodeV, u8)> {
    match n.kind {
        NodeKindV::Add { lhs, rhs } => Some((*lhs, *rhs, 0u8)),
        NodeKindV::Sub { lhs, rhs } => Some((*lhs, *rhs, 1u8)),
        NodeKindV::Mul { lhs, rhs } => Some((*lhs, *rhs, 2u8)),
        NodeKindV::Div { lhs, rhs } => Some((*lhs, *rhs, 3u8)),
        NodeKindV::Mod { lhs, rhs } => Some((*lhs, *rhs, 4u8)),
        NodeKindV::Eq { lhs, rhs } => Some((*lhs, *rhs, 5u8)),
        NodeKindV::Ne { lhs, rhs } => Some((*lhs, *rhs, 6u8)),
        NodeKindV::Lt { lhs, rhs } => Some((*lhs, *rhs, 7u8)),
        NodeKindV::Le { lhs, rhs } => Some((*lhs, *rhs, 8u8)),
        NodeKindV::Gt { lhs, rhs } => Some((*lhs, *rhs, 9u8)),
        NodeKindV::Ge { lhs, rhs } => Some((*lhs, *rhs, 10u8)),
        NodeKindV::And { lhs, rhs } => Some((*lhs, *rhs, 11u8)),
        NodeKindV::Or { lhs, rhs } => Some((*lhs, *rhs, 12u8)),
        NodeKindV::BitAnd { lhs, rhs } => Some((*lhs, *rhs, 13u8)),
        NodeKindV::BitXor { lhs, rhs } => Some((*lhs, *rhs, 14u8)),
        NodeKindV::BitOr { lhs, rhs } => Some((*lhs, *rhs, 15u8)),
        _ => None,
    }
}

/// The code of a binary operation over folded operand code.
spec fn bin_code(l: NodeV, r: NodeV, op: u8, vars: Seq<Var>, f: Seq<char>, li: usize, lf: usize) -> Emitted {
    match code_of(l, vars, f, li, lf) {
        Err(e) => Err(e),
        Ok((a, i1, j1)) => match code_of(r, vars, f, i1, j1) {
            Err(e) => Err(e),
            Ok((b, i2, j2)) => Ok((a.push(push_line()) + b.push(pop_line()) + op_lines(op), i2, j2)),
        },
    }
}

#[verifier::spinoff_prover]
proof fn lemma_code_bin(n: NodeV, vars: Seq<Var>, f: Seq<char>, li: usize, lf: usize)
    requires
        bin_parts(n) is Some,
    ensures
        ({
            let (l, r, op) = bin_parts(n)->0;
            code_of(n, vars, f, li, lf) == bin_code(l, r, op, vars, f, li, lf)
        }),
{
    reveal(code_of);
}

proof fn lemma_code_leaf(n: NodeV, vars: Seq<Var>, f: Seq<char>, li: usize, lf: usize)
    ensures
        n.kind matches NodeKindV::Num { val } ==> code_of(n, vars, f, li, lf) == Ok::<(Seq<Seq<char>>, usize, usize), CompileErrorV>(
            (seq!["      mov x0, "@ + dec_int(val as int)], li, lf),
        ),
        n.kind matches NodeKindV::Neg { lhs } ==> code_of(n, vars, f, li, lf) == match code_of(*lhs, vars, f, li, lf) {
            Ok((a, i, j)) => Ok((a.push("      neg x0, x0"@), i, j)),
            Err(e) => Err(e),
        },
{
    reveal(code_of);
}

proof fn lemma_bin_code(l: NodeV, r: NodeV, op: u8, vars: Seq<Var>, f: Seq<char>, li: usize, lf: usize)
    requires
        op < 16,
        const_val(l) is Some,
        const_val(r) is Some,
        code_of(l, vars, f, li, lf) matches Ok((a, i1, j1)) && computes(a, const_val(l)->0) && (code_of(
            r,
            vars,
            f,
            i1,
            j1,
        ) matches Ok((b, i2, j2)) && computes(b, const_val(r)->0)),
    ensures
        bin_code(l, r, op, vars, f, li, lf) matches Ok((ls, i, j)) && computes(
            ls,
            c_op_val(op, const_val(l)->0, const_val(r)->0),
        ),
{
    let (a, i1, j1) = code_of(l, vars, f, li, lf)->Ok_0;
    let (b, i2, j2) = code_of(r, vars, f, i1, j1)->Ok_0;
    let x = const_val(l)->0;
    let y = const_val(r)->0;
    let pa = choose|p: Seq<Ins>| #[trigger] ins_texts(p) == a && forall|m: Regs| (#[trigger] run(p, m)).x0 == x
        && run(p, m).stack == m.stack;
    let pb = choose|p: Seq<Ins>| #[trigger] ins_texts(p) == b && forall|m: Regs| (#[trigger] run(p, m)).x0 == y
        && run(p, m).stack == m.stack;
    let po = op_program(op);
    lemma_op_program(op);
    let p1 = pa.push(Ins::Push);
    let p2 = pb.push(Ins::PopX1);
    let p = p1 + p2 + po;
    lemma_texts_append(pa, pb);
    lemma_texts_append(pb, po);
    lemma_texts_append(p1, p2);
    lemma_texts_append(p1 + p2, po);
    assert(ins_text(Ins::Push) == push_line());
    assert(ins_text(Ins::PopX1) == pop_line());
    assert(ins_texts(p) == a.push(push_line()) + b.push(pop_line()) + op_lines(op));
    assert forall|m: Regs| (#[trigger] run(p, m)).x0 == c_op_val(op, x, y) && run(p, m).stack == m.stack by {
        lemma_run_append(p1 + p2, po, m);
        lemma_run_append(p1, p2, m);
        lemma_run_push(pa, Ins::Push, m);
        let m1 = run(p1, m);
        assert(m1.stack == m.stack.push(x));
        lemma_run_push(pb, Ins::PopX1, m1);
        let m2 = run(p2, m1);
        assert(m.stack.push(x).last() == x);
        assert(m.stack.push(x).drop_last() =~= m.stack);
        assert(m2.x1 == x && m2.x0 == y && m2.stack == m.stack);
    }
}

#[verifier::spinoff_prover]
proof fn lemma_code_computes(n: NodeV, vars: Seq<Var>, f: Seq<char>, li: usize, lf: usize)
    requires
        const_val(n) is Some,
    ensures
        code_of(n, vars, f, li, lf) matches Ok((ls, i, j)) && computes(ls, const_val(n)->0),
    decreases n,
{
    lemma_code_leaf(n, vars, f, li, lf);
    match n.kind {
        NodeKindV::Num { val } => {
            reveal_strlit("      mov ");
            reveal_strlit("x0");
            reveal_strlit(", ");
            reveal_strlit("      mov x0, ");
            let ins = Ins::MovImm { d: Reg::X0, val: val as int };
            let p = seq![ins];
            assert(ins_text(ins) =~= "      mov x0, "@ + dec_int(val as int));
            assert(ins_texts(p) =~= seq!["      mov x0, "@ + dec_int(val as int)]);
            assert forall|m: Regs| (#[trigger] run(p, m)).x0 == const_val(n)->0 && run(p, m).stack == m.stack by {
                reveal_with_fuel(run, 2);
            }
        },
        NodeKindV::Neg { lhs } => {
            reveal_strlit("      neg ");
            reveal_strlit("x0");
            reveal_strlit(", ");
            reveal_strlit("      neg x0, x0");
            lemma_code_computes(*lhs, vars, f, li, lf);
            let (a, i1, j1) = code_of(*lhs, vars, f, li, lf)->Ok_0;
            let x = const_val(*lhs)->0;
            let pa = choose|p: Seq<Ins>| #[trigger] ins_texts(p) == a && forall|m: Regs| (#[trigger] run(p, m)).x0 == x
                && run(p, m).stack == m.stack;
            let ins = Ins::Neg { d: Reg::X0, a: Reg::X0 };
            let p = pa.push(ins);
            lemma_texts_append(pa, pa);
            assert(ins_text(ins) =~= "      neg x0, x0"@);
            assert(ins_texts(p) == a.push("      neg x0, x0"@));
            assert forall|m: Regs| (#[trigger] run(p, m)).x0 == const_val(n)->0 && run(p, m).stack == m.stack by {
                lemma_run_push(pa, ins, m);
            }
        },
        NodeKindV::Add { lhs, rhs } => {
            lemma_code_computes(*lhs, vars, f, li, lf);
            let (a, i1, j1) = code_of(*lhs, vars, f, li, lf)->Ok_0;
            lemma_code_computes(*rhs, vars, f, i1, j1);
            lemma_code_bin(n, vars, f, li, lf);
            lemma_bin_code(*lhs, *rhs, 0u8, vars, f, li, lf);
        },
        NodeKindV::Sub { lhs, rhs } => {
            lemma_code_computes(*lhs, vars, f, li, lf);
            let (a, i1, j1) = code_of(*lhs, vars, f, li, lf)->Ok_0;
            lemma_code_computes(*rhs, vars, f, i1, j1);
            lemma_code_bin(n, vars, f, li, lf);
            lemma_bin_code(*lhs, *rhs, 1u8, vars, f, li, lf);
        },
        NodeKindV::Mul { lhs, rhs } => {
            lemma_code_computes(*lhs, vars, f, li, lf);
            let (a, i1, j1) = code_of(*lhs, vars, f, li, lf)->Ok_0;
            lemma_code_computes(*rhs, vars, f, i1, j1);
            lemma_code_bin(n, vars, f, li, lf);
            lemma_bin_code(*lhs, *rhs, 2u8, vars, f, li, lf);
        },
        NodeKindV::Div { lhs, rhs } => {
            lemma_code_computes(*lhs, vars, f, li, lf);
            let (a, i1, j1) = code_of(*lhs, vars, f, li, lf)->Ok_0;
            lemma_code_computes(*rhs, vars, f, i1, j1);
            lemma_code_bin(n, vars, f, li, lf);
            lemma_bin_code(*lhs, *rhs, 3u8, vars, f, li, lf);
        },
        NodeKindV::Mod { lhs, rhs } => {
            lemma_code_computes(*lhs, vars, f, li, lf);
            let (a, i1, j1) = code_of(*lhs, vars, f, li, lf)->Ok_0;
            lemma_code_computes(*rhs, vars, f, i1, j1);
            lemma_code_bin(n, vars, f, li, lf);
            lemma_bin_code(*lhs, *rhs, 4u8, vars, f, li, lf);
        },
        NodeKindV::Eq { lhs, rhs } => {
            lemma_code_computes(*lhs, vars, f, li, lf);
            let (a, i1, j1) = code_of(*lhs, vars, f, li, lf)->Ok_0;
            lemma_code_computes(*rhs, vars, f, i1, j1);
            lemma_code_bin(n, vars, f, li, lf);
            lemma_bin_code(*lhs, *rhs, 5u8, vars, f, li, lf);
        },
        NodeKindV::Ne { lhs, rhs } => {
            lemma_code_computes(*lhs, vars, f, li, lf);
            let (a, i1, j1) = code_of(*lhs, vars, f, li, lf)->Ok_0;
            lemma_code_computes(*rhs, vars, f, i1, j1);
            lemma_code_bin(n, vars, f, li, lf);
            lemma_bin_code(*lhs, *rhs, 6u8, vars, f, li, lf);
        },
        NodeKindV::Lt { lhs, rhs } => {
            lemma_code_computes(*lhs, vars, f, li, lf);
            let (a, i1, j1) = code_of(*lhs, vars, f, li, lf)->Ok_0;
            lemma_code_computes(*rhs, vars, f, i1, j1);
            lemma_code_bin(n, vars, f, li, lf);
            lemma_bin_code(*lhs, *rhs, 7u8, vars, f, li, lf);
        },
        NodeKindV::Le { lhs, rhs } => {
            lemma_code_computes(*lhs, vars, f, li, lf);
            let (a, i1, j1) = code_of(*lhs, vars, f, li, lf)->Ok_0;
            lemma_code_computes(*rhs, vars, f, i1, j1);
            lemma_code_bin(n, vars, f, li, lf);
            lemma_bin_code(*lhs, *rhs, 8u8, vars, f, li, lf);
        },
        NodeKindV::Gt { lhs, rhs } => {
            lemma_code_computes(*lhs, vars, f, li, lf);
            let (a, i1, j1) = code_of(*lhs, vars, f, li, lf)->Ok_0;
            lemma_code_computes(*rhs, vars, f, i1, j1);
            lemma_code_bin(n, vars, f, li, lf);
            lemma_bin_code(*lhs, *rhs, 9u8, vars, f, li, lf);
        },
        NodeKindV::Ge { lhs, rhs } => {
            lemma_code_computes(*lhs, vars, f, li, lf);
            let (a, i1, j1) = code_of(*lhs, vars, f, li, lf)->Ok_0;
            lemma_code_computes(*rhs, vars, f, i1, j1);
            lemma_code_bin(n, vars, f, li, lf);
            lemma_bin_code(*lhs, *rhs, 10u8, vars, f, li, lf);
        },
        NodeKindV::And { lhs, rhs } => {
            lemma_code_computes(*lhs, vars, f, li, lf);
            let (a, i1, j1) = code_of(*lhs, vars, f, li, lf)->Ok_0;
            lemma_code_computes(*rhs, vars, f, i1, j1);
            lemma_code_bin(n, vars, f, li, lf);
            lemma_bin_code(*lhs, *rhs, 11u8, vars, f, li, lf);
        },
        NodeKindV::Or { lhs, rhs } => {
            lemma_code_computes(*lhs, vars, f, li, lf);
            let (a, i1, j1) = code_of(*lhs, vars, f, li, lf)->Ok_0;
            lemma_code_computes(*rhs, vars, f, i1, j1);
            lemma_code_bin(n, vars, f, li, lf);
            lemma_bin_code(*lhs, *rhs, 12u8, vars, f, li, lf);
        },
        NodeKindV::BitAnd { lhs, rhs } => {
            lemma_code_computes(*lhs, vars, f, li, lf);
            let (a, i1, j1) = code_of(*lhs, vars, f, li, lf)->Ok_0;
            lemma_code_computes(*rhs, vars, f, i1, j1);
            lemma_code_bin(n, vars, f, li, lf);
            lemma_bin_code(*lhs, *rhs, 13u8, vars, f, li, lf);
        },
        NodeKindV::BitXor { lhs, rhs } => {
            lemma_code_computes(*lhs, vars, f, li, lf);
            let (a, i1, j1) = code_of(*lhs, vars, f, li, lf)->Ok_0;
            lemma_code_computes(*rhs, vars, f, i1, j1);
            lemma_code_bin(n, vars, f, li, lf);
            lemma_bin_code(*lhs, *rhs, 14u8, vars, f, li, lf);
        },
        NodeKindV::BitOr { lhs, rhs } => {
            lemma_code_computes(*lhs, vars, f, li, lf);
            let (a, i1, j1) = code_of(*lhs, vars, f, li, lf)->Ok_0;
            lemma_code_computes(*rhs, vars, f, i1, j1);
            lemma_code_bin(n, vars, f, li, lf);
            lemma_bin_code(*lhs, *rhs, 15u8, vars, f, li, lf);
        },
        _ => {},
    }
}

/// The code of an expression computes its value: for an expression built
/// from integer literals, negation and the binary operators, the code that
/// is emitted for it is the text of a program that leaves the expression's
/// C value in `x0` and the stack as it found it.
pub proof fn law_expression_code_computes_its_value(n: NodeV, vars: Seq<Var>, f: Seq<char>, li: usize, lf: usize)
    requires
        const_val(n) is Some,
    ensures
        gen_expr_spec(n, vars, f, li, lf) matches Ok((ls, i, j)) && computes(ls, const_val(n)->0),
{
    lemma_code_computes(n, vars, f, li, lf);
    reveal(code_of);
}

} // verus!
