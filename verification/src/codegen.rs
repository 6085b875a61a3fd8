//! The AArch64 assembly emitter.
//!
//! The emitter appends lines of assembly text to a buffer. Its output is
//! given by spec functions that say, line by line, what each construct
//! becomes; expressions leave their value in `x0` and use the stack for
//! intermediate values.
use vstd::prelude::*;
use crate::diag::{CompileError, CompileErrorV, abort};
use crate::layout::{align_fits, align_spec, align_to};
use crate::symbols::{ctx_wf, fn_ok, scope_ok};
use crate::text::{dec_int, dec_nat, push_isize, push_str, push_string, push_usize, string_of};
use crate::type_utils::{all_nvars_ok, lemma_all_nvars_ok, nvars_ok};
use crate::types::{Ctx, Function, InitGval, Member, Node, NodeKind, NodeKindV, NodeV, Scope, Type, TypeKind, TypeKindV, TypeV, Var, lemma_nodesv_len, nodesv, nodev, optnv, optyv};

verus! {

/// The assembly emitter's state: the lines emitted so far, the next `if`
/// label number, the next loop label number, and the function being emitted.
pub struct Gen {
    pub out: Vec<String>,
    pub ifidx: usize,
    pub foridx: usize,
    pub func_name: String,
}

pub struct GenV {
    pub out: Seq<Seq<char>>,
    pub ifidx: usize,
    pub foridx: usize,
    pub func_name: Seq<char>,
}

/// The text of each line.
pub open spec fn linesv(v: Seq<String>) -> Seq<Seq<char>> {
    v.map_values(|s: String| s@)
}

impl View for Gen {
    type V = GenV;

    open spec fn view(&self) -> GenV {
        GenV { out: linesv(self.out@), ifidx: self.ifidx, foridx: self.foridx, func_name: self.func_name@ }
    }
}

/// What emitting a construct gives: the lines and the next `if` and loop
/// label numbers, or the error that stops code generation.
pub type Emitted = Result<(Seq<Seq<char>>, usize, usize), CompileErrorV>;

/// The emitter went from `a` to `b` as `s` says: on success it appended the
/// lines of `s` and took its label numbers; on failure it returned the error
/// of `s`.
pub open spec fn emitted(a: GenV, b: GenV, r: Result<(), CompileError>, s: Emitted) -> bool {
    &&& b.func_name == a.func_name
    &&& match s {
        Ok((ls, i, f)) => r is Ok && b.out == a.out + ls && b.ifidx == i && b.foridx == f,
        Err(e) => r matches Err(x) && x@ == e,
    }
}

/// The lines that `e` holds, if any.
pub open spec fn out_lines(e: Emitted) -> Seq<Seq<char>> {
    match e {
        Ok((ls, _, _)) => ls,
        Err(_) => seq![],
    }
}

/// The next `if` label number that `e` holds.
pub open spec fn next_if(e: Emitted) -> usize {
    match e {
        Ok((_, i, _)) => i,
        Err(_) => 0,
    }
}

/// The next loop label number that `e` holds.
pub open spec fn next_for(e: Emitted) -> usize {
    match e {
        Ok((_, _, j)) => j,
        Err(_) => 0,
    }
}

pub open spec fn push_line() -> Seq<char> {
    "      str x0, [sp, -16]!  // push"@
}

pub open spec fn pop_line() -> Seq<char> {
    "      ldr x1, [sp], 16 // pop"@
}

/// Loading the value of type `t` at the address in `x0` into `x0`; arrays,
/// structs and unions stay addresses.
pub open spec fn load_lines(t: TypeV) -> Seq<Seq<char>> {
    match t.kind {
        TypeKindV::Array { .. } | TypeKindV::Struct { .. } | TypeKindV::Union { .. } => seq![],
        _ => if t.size == 1 {
            seq!["      ldrsb x0, [x0]"@]
        } else if t.size == 2 {
            seq!["      ldrsh w0, [x0]"@]
        } else if t.size == 4 {
            seq!["      ldr w0, [x0]"@]
        } else {
            seq!["      ldr x0, [x0]"@]
        },
    }
}

/// Copying `n` bytes from the address in `x0` to the address in `x1`, one
/// byte at a time.
pub open spec fn byte_copy_lines(n: nat) -> Seq<Seq<char>>
    decreases n,
{
    if n == 0 {
        seq![]
    } else {
        let i = dec_nat((n - 1) as nat);
        byte_copy_lines((n - 1) as nat) + seq![
            "      ldrb w2, [x0, "@ + i + "]"@,
            "      strb w2, [x1, "@ + i + "]"@,
        ]
    }
}

/// Storing the value in `x0`, of type `t`, at the address in `x1`; a struct
/// or union is copied byte by byte from the address in `x0`.
pub open spec fn store_lines(t: TypeV) -> Seq<Seq<char>> {
    match t.kind {
        TypeKindV::Struct { .. } | TypeKindV::Union { .. } => byte_copy_lines(t.size as nat),
        _ => if t.size == 1 {
            seq!["      strb w0, [x1]"@]
        } else if t.size == 2 {
            seq!["      strh w0, [x1]"@]
        } else if t.size == 4 {
            seq!["      str w0, [x1]"@]
        } else {
            seq!["      str x0, [x1]"@]
        },
    }
}

/// The line that converts the value in `x0` between two integer types: a
/// sign extension, or an empty line for the same type; other conversions
/// are refused.
pub open spec fn cast_line(from: TypeV, to: TypeV) -> Option<Seq<char>> {
    match (from.kind, to.kind) {
        (TypeKindV::Char, TypeKindV::Short) => Some("      sxtb w0, w0"@),
        (TypeKindV::Char, TypeKindV::Int) => Some("      sxtb w0, w0"@),
        (TypeKindV::Char, TypeKindV::Long) => Some("      sxtb x0, w0"@),
        (TypeKindV::Char, TypeKindV::Char) => Some(""@),
        (TypeKindV::Short, TypeKindV::Char) => Some("      sxtb w0, w0"@),
        (TypeKindV::Short, TypeKindV::Int) => Some("      sxth w0, w0"@),
        (TypeKindV::Short, TypeKindV::Long) => Some("      sxth x0, w0"@),
        (TypeKindV::Short, TypeKindV::Short) => Some(""@),
        (TypeKindV::Int, TypeKindV::Char) => Some("      sxtb w0, w0"@),
        (TypeKindV::Int, TypeKindV::Short) => Some("      sxth w0, w0"@),
        (TypeKindV::Int, TypeKindV::Long) => Some("      sxtw x0, w0"@),
        (TypeKindV::Int, TypeKindV::Int) => Some(""@),
        (TypeKindV::Long, TypeKindV::Char) => Some("      sxtb w0, w0"@),
        (TypeKindV::Long, TypeKindV::Short) => Some("      sxth w0, w0"@),
        (TypeKindV::Long, TypeKindV::Int) => Some("      sxtw x0, w0"@),
        (TypeKindV::Long, TypeKindV::Long) => Some(""@),
        _ => None,
    }
}

pub open spec fn cast_err() -> CompileErrorV {
    CompileErrorV::Abort { msg: "not supported cast type"@ }
}

pub open spec fn node_err() -> CompileErrorV {
    CompileErrorV::Abort { msg: "not expected node"@ }
}

pub open spec fn untyped_err() -> CompileErrorV {
    CompileErrorV::Abort { msg: "no type information"@ }
}

pub open spec fn labels_err() -> CompileErrorV {
    CompileErrorV::Abort { msg: "too many labels"@ }
}

proof fn lemma_linesv_push(v: Seq<String>, s: String)
    ensures
        linesv(v.push(s)) == linesv(v).push(s@),
{
    assert(linesv(v.push(s)) =~= linesv(v).push(s@));
}

impl Gen {
    /// An emitter with no output, whose labels start at zero.
    pub fn new() -> (g: Gen)
        ensures
            g@.out.len() == 0,
            g@.ifidx == 0,
            g@.foridx == 0,
            g@.func_name.len() == 0,
    {
        let g = Gen { out: Vec::new(), ifidx: 0, foridx: 0, func_name: String::new() };
        proof {
            assert(g@.out =~= Seq::<Seq<char>>::empty());
        }
        g
    }

    /// Appends the line `s`.
    fn emit(&mut self, s: String)
        ensures
            final(self)@ == (GenV { out: old(self)@.out.push(s@), ..old(self)@ }),
    {
        proof {
            lemma_linesv_push(self.out@, s);
        }
        self.out.push(s);
    }

    /// Appends the line `s`.
    fn emit_str(&mut self, s: &str)
        ensures
            final(self)@ == (GenV { out: old(self)@.out.push(s@), ..old(self)@ }),
    {
        self.emit(string_of(s));
    }

    /// Appends the line `a` followed by the number `n`.
    fn emit_num(&mut self, a: &str, n: usize)
        ensures
            final(self)@ == (GenV { out: old(self)@.out.push(a@ + dec_nat(n as nat)), ..old(self)@ }),
    {
        let mut s = string_of(a);
        push_usize(&mut s, n);
        self.emit(s);
    }

    /// Appends the line `a` followed by the number `n`, then `b`.
    fn emit_num_sfx(&mut self, a: &str, n: usize, b: &str)
        ensures
            final(self)@ == (GenV { out: old(self)@.out.push(a@ + dec_nat(n as nat) + b@), ..old(self)@ }),
    {
        let mut s = string_of(a);
        push_usize(&mut s, n);
        push_str(&mut s, b);
        self.emit(s);
    }

    /// Appends the line `a` followed by the signed number `v`.
    fn emit_int(&mut self, a: &str, v: isize)
        ensures
            final(self)@ == (GenV { out: old(self)@.out.push(a@ + dec_int(v as int)), ..old(self)@ }),
    {
        let mut s = string_of(a);
        push_isize(&mut s, v);
        self.emit(s);
    }

    /// Appends the line `a` followed by the text `t`.
    fn emit_text(&mut self, a: &str, t: &String)
        ensures
            final(self)@ == (GenV { out: old(self)@.out.push(a@ + t@), ..old(self)@ }),
    {
        let mut s = string_of(a);
        push_string(&mut s, t);
        self.emit(s);
    }

    /// Appends the line `a` followed by the text `t`, then `b`.
    fn emit_text_sfx(&mut self, a: &str, t: &String, b: &str)
        ensures
            final(self)@ == (GenV { out: old(self)@.out.push(a@ + t@ + b@), ..old(self)@ }),
    {
        let mut s = string_of(a);
        push_string(&mut s, t);
        push_str(&mut s, b);
        self.emit(s);
    }

    fn push16(&mut self)
        ensures
            final(self)@ == (GenV { out: old(self)@.out.push(push_line()), ..old(self)@ }),
    {
        self.emit_str("      str x0, [sp, -16]!  // push");
    }

    fn pop16(&mut self)
        ensures
            final(self)@ == (GenV { out: old(self)@.out.push(pop_line()), ..old(self)@ }),
    {
        self.emit_str("      ldr x1, [sp], 16 // pop");
    }

    /// Loads the value of type `ty` at the address in `x0`.
    fn load(&mut self, ty: &Type)
        ensures
            final(self)@ == (GenV { out: old(self)@.out + load_lines(ty@), ..old(self)@ }),
    {
        match ty.kind {
            TypeKind::Array { .. } | TypeKind::Struct { .. } | TypeKind::Union { .. } => {
                proof {
                    assert(self@.out + load_lines(ty@) =~= self@.out);
                }
                return ;
            },
            _ => {},
        }
        let ghost o = self@.out;
        if ty.size == 1 {
            self.emit_str("      ldrsb x0, [x0]");
        } else if ty.size == 2 {
            self.emit_str("      ldrsh w0, [x0]");
        } else if ty.size == 4 {
            self.emit_str("      ldr w0, [x0]");
        } else {
            self.emit_str("      ldr x0, [x0]");
        }
        proof {
            assert(self@.out =~= o + load_lines(ty@));
        }
    }

    /// Stores the value in `x0`, of type `ty`, at the address in `x1`.
    fn store(&mut self, ty: &Type)
        ensures
            final(self)@ == (GenV { out: old(self)@.out + store_lines(ty@), ..old(self)@ }),
    {
        let ghost o = self@.out;
        let aggregate = match ty.kind {
            TypeKind::Struct { .. } | TypeKind::Union { .. } => true,
            _ => false,
        };
        if aggregate {
            let mut i: usize = 0;
            proof {
                assert(o + byte_copy_lines(0) =~= o);
            }
            while i < ty.size
                invariant
                    i <= ty.size,
                    self@ == (GenV { out: o + byte_copy_lines(i as nat), ..old(self)@ }),
                decreases ty.size - i,
            {
                self.emit_num_sfx("      ldrb w2, [x0, ", i, "]");
                self.emit_num_sfx("      strb w2, [x1, ", i, "]");
                proof {
                    assert(self@.out =~= o + byte_copy_lines(i as nat) + seq![
                        "      ldrb w2, [x0, "@ + dec_nat(i as nat) + "]"@,
                        "      strb w2, [x1, "@ + dec_nat(i as nat) + "]"@,
                    ]);
                    assert(o + byte_copy_lines((i + 1) as nat) =~= o + byte_copy_lines(i as nat) + seq![
                        "      ldrb w2, [x0, "@ + dec_nat(i as nat) + "]"@,
                        "      strb w2, [x1, "@ + dec_nat(i as nat) + "]"@,
                    ]);
                }
                i += 1;
            }
            return ;
        }
        if ty.size == 1 {
            self.emit_str("      strb w0, [x1]");
        } else if ty.size == 2 {
            self.emit_str("      strh w0, [x1]");
        } else if ty.size == 4 {
            self.emit_str("      str w0, [x1]");
        } else {
            self.emit_str("      str x0, [x1]");
        }
        proof {
            assert(self@.out =~= o + store_lines(ty@));
        }
    }
}

impl Gen {
    /// Converts the value in `x0` from type `from` to type `to`.
    fn cast(&mut self, from: &Type, to: &Type) -> (r: Result<(), CompileError>)
        ensures
            match cast_line(from@, to@) {
                Some(l) => r is Ok && final(self)@ == (GenV { out: old(self)@.out.push(l), ..old(self)@ }),
                None => r matches Err(e) && e@ == cast_err() && final(self)@ == old(self)@,
            },
    {
        let line = match (&from.kind, &to.kind) {
            (TypeKind::Char, TypeKind::Short) => "      sxtb w0, w0",
            (TypeKind::Char, TypeKind::Int) => "      sxtb w0, w0",
            (TypeKind::Char, TypeKind::Long) => "      sxtb x0, w0",
            (TypeKind::Char, TypeKind::Char) => "",
            (TypeKind::Short, TypeKind::Char) => "      sxtb w0, w0",
            (TypeKind::Short, TypeKind::Int) => "      sxth w0, w0",
            (TypeKind::Short, TypeKind::Long) => "      sxth x0, w0",
            (TypeKind::Short, TypeKind::Short) => "",
            (TypeKind::Int, TypeKind::Char) => "      sxtb w0, w0",
            (TypeKind::Int, TypeKind::Short) => "      sxth w0, w0",
            (TypeKind::Int, TypeKind::Long) => "      sxtw x0, w0",
            (TypeKind::Int, TypeKind::Int) => "",
            (TypeKind::Long, TypeKind::Char) => "      sxtb w0, w0",
            (TypeKind::Long, TypeKind::Short) => "      sxth w0, w0",
            (TypeKind::Long, TypeKind::Int) => "      sxtw x0, w0",
            (TypeKind::Long, TypeKind::Long) => "",
            _ => {
                return Err(abort("not supported cast type"));
            },
        };
        self.emit_str(line);
        Ok(())
    }
}

/// The instructions that combine the left operand in `x1` with the right
/// operand in `x0` into `x0`, for operator number `op` (in the order `+ - *
/// / % == != < <= > >= && || & ^ |`).
pub open spec fn op_lines(op: u8) -> Seq<Seq<char>> {
    if op == 0 {
        seq!["      add x0, x1, x0"@]
    } else if op == 1 {
        seq!["      sub x0, x1, x0"@]
    } else if op == 2 {
        seq!["      mul x0, x1, x0"@]
    } else if op == 3 {
        seq!["      sdiv x0, x1, x0"@]
    } else if op == 4 {
        seq!["      sdiv x2, x1, x0"@, "      msub x0, x2, x0, x1"@]
    } else if op == 5 {
        seq!["      cmp x0, x1"@, "      cset x0, eq"@]
    } else if op == 6 {
        seq!["      cmp x0, x1"@, "      cset x0, ne"@]
    } else if op == 7 {
        seq!["      cmp x1, x0"@, "      cset x0, lt"@]
    } else if op == 8 {
        seq!["      cmp x1, x0"@, "      cset x0, le"@]
    } else if op == 9 {
        seq!["      cmp x1, x0"@, "      cset x0, gt"@]
    } else if op == 10 {
        seq!["      cmp x1, x0"@, "      cset x0, ge"@]
    } else if op == 11 {
        seq!["      mov x2, 0"@, "      cmp x1, 0"@, "      cset x2, ne"@, "      cmp x0, 0"@, "      cset x0, ne"@, "      and x0, x0, x2"@]
    } else if op == 12 {
        seq!["      mov x2, 0"@, "      cmp x1, 0"@, "      cset x2, ne"@, "      cmp x0, 0"@, "      cset x0, ne"@, "      orr x0, x0, x2"@]
    } else if op == 13 {
        seq!["      and x0, x1, x0"@]
    } else if op == 14 {
        seq!["      eor x0, x1, x0"@]
    } else {
        seq!["      orr x0, x1, x0"@]
    }
}

/// The lines of a binary operation: the left operand, pushed; the right
/// operand; the left one popped into `x1`; then the operator's instructions.
pub open spec fn bin_spec(l: NodeV, r: NodeV, op: u8, vars: Seq<Var>, f: Seq<char>, li: usize, lf: usize) -> Emitted {
    match gen_expr_spec(l, vars, f, li, lf) {
        Err(e) => Err(e),
        Ok((a, i1, j1)) => match gen_expr_spec(r, vars, f, i1, j1) {
            Err(e) => Err(e),
            Ok((b, i2, j2)) => Ok((a.push(push_line()) + b.push(pop_line()) + op_lines(op), i2, j2)),
        },
    }
}

/// The pops of pushed call arguments into `x(hi-1)` down to `x(lo)`.
pub open spec fn pops_below(hi: nat, lo: nat) -> Seq<Seq<char>>
    decreases hi - lo,
{
    if hi <= lo {
        seq![]
    } else {
        pops_below(hi, lo + 1) + seq![
            "      ldr x"@ + dec_nat(lo) + ", [sp], 16 // pop for function arg"@,
        ]
    }
}

/// The pops of `n` pushed call arguments into `x(n-1)` down to `x0`.
pub open spec fn arg_pops(n: nat) -> Seq<Seq<char>> {
    pops_below(n, 0)
}

/// The lines that put the address of the lvalue `n` in `x0`.
pub open spec fn gen_addr_spec(n: NodeV, vars: Seq<Var>, f: Seq<char>, li: usize, lf: usize) -> Emitted
    decreases n, 1nat,
{
    match n.kind {
        NodeKindV::Var { var } => {
            let v = vars[var as int];
            if v.is_local {
                Ok((seq!["      add x0, x29, "@ + dec_nat(v.offset as nat)], li, lf))
            } else {
                Ok(
                    (
                        seq!["      adrp x0, "@ + v.name@ + "@PAGE"@, "      add x0, x0, "@ + v.name@ + "@PAGEOFF;"@],
                        li,
                        lf,
                    ),
                )
            }
        },
        NodeKindV::Deref { lhs, .. } => gen_expr_spec(*lhs, vars, f, li, lf),
        NodeKindV::Member { lhs, member } => match gen_addr_spec(*lhs, vars, f, li, lf) {
            Ok((a, i, j)) => Ok((a.push("      add x0, x0, "@ + dec_nat(member.offset as nat)), i, j)),
            Err(e) => Err(e),
        },
        _ => Err(node_err()),
    }
}

/// The node is a binary operation.
pub open spec fn binary_kind(k: NodeKindV) -> bool {
    match k {
        NodeKindV::Add { .. } => true,
        NodeKindV::Sub { .. } => true,
        NodeKindV::Mul { .. } => true,
        NodeKindV::Div { .. } => true,
        NodeKindV::Mod { .. } => true,
        NodeKindV::Eq { .. } => true,
        NodeKindV::Ne { .. } => true,
        NodeKindV::Lt { .. } => true,
        NodeKindV::Le { .. } => true,
        NodeKindV::Gt { .. } => true,
        NodeKindV::Ge { .. } => true,
        NodeKindV::And { .. } => true,
        NodeKindV::Or { .. } => true,
        NodeKindV::BitAnd { .. } => true,
        NodeKindV::BitXor { .. } => true,
        NodeKindV::BitOr { .. } => true,
        _ => false,
    }
}

/// The lines that compute the value of the expression `n` into `x0`.
pub open spec fn gen_expr_spec(n: NodeV, vars: Seq<Var>, f: Seq<char>, li: usize, lf: usize) -> Emitted
    decreases n, 2nat,
{
    match n.kind {
        NodeKindV::Num { val } => Ok((seq!["      mov x0, "@ + dec_int(val as int)], li, lf)),
        NodeKindV::Var { var } => match gen_addr_spec(n, vars, f, li, lf) {
            Ok((a, i, j)) => Ok((a + load_lines(vars[var as int].ty@), i, j)),
            Err(e) => Err(e),
        },
        NodeKindV::Cas { lhs } => if n.ty is None || lhs.ty is None {
            Err(untyped_err())
        } else {
            match gen_expr_spec(*lhs, vars, f, li, lf) {
                Ok((a, i, j)) => match cast_line(lhs.ty->0, n.ty->0) {
                    Some(c) => Ok((a.push(c), i, j)),
                    None => Err(cast_err()),
                },
                Err(e) => Err(e),
            }
        },
        NodeKindV::Member { .. } => if n.ty is None {
            Err(untyped_err())
        } else {
            match gen_addr_spec(n, vars, f, li, lf) {
                Ok((a, i, j)) => Ok((a + load_lines(n.ty->0), i, j)),
                Err(e) => Err(e),
            }
        },
        NodeKindV::Add { lhs, rhs } => match gen_expr_spec(*lhs, vars, f, li, lf) {
            Err(e) => Err(e),
            Ok((a, i1, j1)) => match gen_expr_spec(*rhs, vars, f, i1, j1) {
                Err(e) => Err(e),
                Ok((b, i2, j2)) => Ok((a.push(push_line()) + b.push(pop_line()) + op_lines(0u8), i2, j2)),
            },
        },
        NodeKindV::Sub { lhs, rhs } => match gen_expr_spec(*lhs, vars, f, li, lf) {
            Err(e) => Err(e),
            Ok((a, i1, j1)) => match gen_expr_spec(*rhs, vars, f, i1, j1) {
                Err(e) => Err(e),
                Ok((b, i2, j2)) => Ok((a.push(push_line()) + b.push(pop_line()) + op_lines(1u8), i2, j2)),
            },
        },
        NodeKindV::Mul { lhs, rhs } => match gen_expr_spec(*lhs, vars, f, li, lf) {
            Err(e) => Err(e),
            Ok((a, i1, j1)) => match gen_expr_spec(*rhs, vars, f, i1, j1) {
                Err(e) => Err(e),
                Ok((b, i2, j2)) => Ok((a.push(push_line()) + b.push(pop_line()) + op_lines(2u8), i2, j2)),
            },
        },
        NodeKindV::Div { lhs, rhs } => match gen_expr_spec(*lhs, vars, f, li, lf) {
            Err(e) => Err(e),
            Ok((a, i1, j1)) => match gen_expr_spec(*rhs, vars, f, i1, j1) {
                Err(e) => Err(e),
                Ok((b, i2, j2)) => Ok((a.push(push_line()) + b.push(pop_line()) + op_lines(3u8), i2, j2)),
            },
        },
        NodeKindV::Mod { lhs, rhs } => match gen_expr_spec(*lhs, vars, f, li, lf) {
            Err(e) => Err(e),
            Ok((a, i1, j1)) => match gen_expr_spec(*rhs, vars, f, i1, j1) {
                Err(e) => Err(e),
                Ok((b, i2, j2)) => Ok((a.push(push_line()) + b.push(pop_line()) + op_lines(4u8), i2, j2)),
            },
        },
        NodeKindV::Eq { lhs, rhs } => match gen_expr_spec(*lhs, vars, f, li, lf) {
            Err(e) => Err(e),
            Ok((a, i1, j1)) => match gen_expr_spec(*rhs, vars, f, i1, j1) {
                Err(e) => Err(e),
                Ok((b, i2, j2)) => Ok((a.push(push_line()) + b.push(pop_line()) + op_lines(5u8), i2, j2)),
            },
        },
        NodeKindV::Ne { lhs, rhs } => match gen_expr_spec(*lhs, vars, f, li, lf) {
            Err(e) => Err(e),
            Ok((a, i1, j1)) => match gen_expr_spec(*rhs, vars, f, i1, j1) {
                Err(e) => Err(e),
                Ok((b, i2, j2)) => Ok((a.push(push_line()) + b.push(pop_line()) + op_lines(6u8), i2, j2)),
            },
        },
        NodeKindV::Lt { lhs, rhs } => match gen_expr_spec(*lhs, vars, f, li, lf) {
            Err(e) => Err(e),
            Ok((a, i1, j1)) => match gen_expr_spec(*rhs, vars, f, i1, j1) {
                Err(e) => Err(e),
                Ok((b, i2, j2)) => Ok((a.push(push_line()) + b.push(pop_line()) + op_lines(7u8), i2, j2)),
            },
        },
        NodeKindV::Le { lhs, rhs } => match gen_expr_spec(*lhs, vars, f, li, lf) {
            Err(e) => Err(e),
            Ok((a, i1, j1)) => match gen_expr_spec(*rhs, vars, f, i1, j1) {
                Err(e) => Err(e),
                Ok((b, i2, j2)) => Ok((a.push(push_line()) + b.push(pop_line()) + op_lines(8u8), i2, j2)),
            },
        },
        NodeKindV::Gt { lhs, rhs } => match gen_expr_spec(*lhs, vars, f, li, lf) {
            Err(e) => Err(e),
            Ok((a, i1, j1)) => match gen_expr_spec(*rhs, vars, f, i1, j1) {
                Err(e) => Err(e),
                Ok((b, i2, j2)) => Ok((a.push(push_line()) + b.push(pop_line()) + op_lines(9u8), i2, j2)),
            },
        },
        NodeKindV::Ge { lhs, rhs } => match gen_expr_spec(*lhs, vars, f, li, lf) {
            Err(e) => Err(e),
            Ok((a, i1, j1)) => match gen_expr_spec(*rhs, vars, f, i1, j1) {
                Err(e) => Err(e),
                Ok((b, i2, j2)) => Ok((a.push(push_line()) + b.push(pop_line()) + op_lines(10u8), i2, j2)),
            },
        },
        NodeKindV::And { lhs, rhs } => match gen_expr_spec(*lhs, vars, f, li, lf) {
            Err(e) => Err(e),
            Ok((a, i1, j1)) => match gen_expr_spec(*rhs, vars, f, i1, j1) {
                Err(e) => Err(e),
                Ok((b, i2, j2)) => Ok((a.push(push_line()) + b.push(pop_line()) + op_lines(11u8), i2, j2)),
            },
        },
        NodeKindV::Or { lhs, rhs } => match gen_expr_spec(*lhs, vars, f, li, lf) {
            Err(e) => Err(e),
            Ok((a, i1, j1)) => match gen_expr_spec(*rhs, vars, f, i1, j1) {
                Err(e) => Err(e),
                Ok((b, i2, j2)) => Ok((a.push(push_line()) + b.push(pop_line()) + op_lines(12u8), i2, j2)),
            },
        },
        NodeKindV::BitAnd { lhs, rhs } => match gen_expr_spec(*lhs, vars, f, li, lf) {
            Err(e) => Err(e),
            Ok((a, i1, j1)) => match gen_expr_spec(*rhs, vars, f, i1, j1) {
                Err(e) => Err(e),
                Ok((b, i2, j2)) => Ok((a.push(push_line()) + b.push(pop_line()) + op_lines(13u8), i2, j2)),
            },
        },
        NodeKindV::BitXor { lhs, rhs } => match gen_expr_spec(*lhs, vars, f, li, lf) {
            Err(e) => Err(e),
            Ok((a, i1, j1)) => match gen_expr_spec(*rhs, vars, f, i1, j1) {
                Err(e) => Err(e),
                Ok((b, i2, j2)) => Ok((a.push(push_line()) + b.push(pop_line()) + op_lines(14u8), i2, j2)),
            },
        },
        NodeKindV::BitOr { lhs, rhs } => match gen_expr_spec(*lhs, vars, f, li, lf) {
            Err(e) => Err(e),
            Ok((a, i1, j1)) => match gen_expr_spec(*rhs, vars, f, i1, j1) {
                Err(e) => Err(e),
                Ok((b, i2, j2)) => Ok((a.push(push_line()) + b.push(pop_line()) + op_lines(15u8), i2, j2)),
            },
        },
        NodeKindV::Neg { lhs } => match gen_expr_spec(*lhs, vars, f, li, lf) {
            Ok((a, i, j)) => Ok((a.push("      neg x0, x0"@), i, j)),
            Err(e) => Err(e),
        },
        NodeKindV::NdAssign { lhs, rhs } => match gen_addr_spec(*lhs, vars, f, li, lf) {
            Err(e) => Err(e),
            Ok((a, i1, j1)) => match gen_expr_spec(*rhs, vars, f, i1, j1) {
                Err(e) => Err(e),
                Ok((b, i2, j2)) => if n.ty is None {
                    Err(untyped_err())
                } else {
                    Ok((a.push(push_line()) + b.push(pop_line()) + store_lines(n.ty->0), i2, j2))
                },
            },
        },
        NodeKindV::Addr { lhs } => gen_addr_spec(*lhs, vars, f, li, lf),
        NodeKindV::Deref { lhs, .. } => match gen_expr_spec(*lhs, vars, f, li, lf) {
            Ok((a, i, j)) => if n.ty is None {
                Err(untyped_err())
            } else {
                Ok((a + load_lines(n.ty->0), i, j))
            },
            Err(e) => Err(e),
        },
        NodeKindV::FuncCall { name, args } => match gen_args_spec(args, vars, f, li, lf) {
            Ok((a, i, j)) => Ok((a + arg_pops(args.len()) + seq!["      bl _"@ + name], i, j)),
            Err(e) => Err(e),
        },
        NodeKindV::GNUStmtExpr { body } => gen_stmts_spec(body, vars, f, li, lf),
        _ => Err(node_err()),
    }
}

/// The lines of call arguments, each computed and pushed, in order.
pub open spec fn gen_args_spec(args: Seq<NodeV>, vars: Seq<Var>, f: Seq<char>, li: usize, lf: usize) -> Emitted
    decreases args, 0nat,
{
    if args.len() == 0 {
        Ok((seq![], li, lf))
    } else {
        match gen_args_spec(args.drop_last(), vars, f, li, lf) {
            Err(e) => Err(e),
            Ok((a, i1, j1)) => match gen_expr_spec(args.last(), vars, f, i1, j1) {
                Err(e) => Err(e),
                Ok((b, i2, j2)) => Ok((a + b.push(push_line()), i2, j2)),
            },
        }
    }
}

/// The lines of a list of statements, in order.
pub open spec fn gen_stmts_spec(body: Seq<NodeV>, vars: Seq<Var>, f: Seq<char>, li: usize, lf: usize) -> Emitted
    decreases body, 0nat,
{
    if body.len() == 0 {
        Ok((seq![], li, lf))
    } else {
        match gen_stmts_spec(body.drop_last(), vars, f, li, lf) {
            Err(e) => Err(e),
            Ok((a, i1, j1)) => match gen_stmt_spec(body.last(), vars, f, i1, j1) {
                Err(e) => Err(e),
                Ok((b, i2, j2)) => Ok((a + b, i2, j2)),
            },
        }
    }
}

/// The lines of the statement `n`; `return` jumps to the end of the
/// function `f`. An `if` takes the next `if` label number, a loop the next
/// loop label number.
pub open spec fn gen_stmt_spec(n: NodeV, vars: Seq<Var>, f: Seq<char>, li: usize, lf: usize) -> Emitted
    decreases n, 0nat,
{
    match n.kind {
        NodeKindV::ExprStmt { lhs } => gen_expr_spec(*lhs, vars, f, li, lf),
        NodeKindV::Return { lhs } => match gen_expr_spec(*lhs, vars, f, li, lf) {
            Ok((a, i, j)) => Ok((a.push("      b end."@ + f), i, j)),
            Err(e) => Err(e),
        },
        NodeKindV::Block { body } => gen_stmts_spec(body, vars, f, li, lf),
        NodeKindV::If { cond, then, els } => if li == usize::MAX {
            Err(labels_err())
        } else {
            let idx = dec_nat(li as nat);
            match gen_expr_spec(*cond, vars, f, (li + 1) as usize, lf) {
                Err(e) => Err(e),
                Ok((c, i1, j1)) => match gen_stmt_spec(*then, vars, f, i1, j1) {
                    Err(e) => Err(e),
                    Ok((t, i2, j2)) => match els {
                        Some(el) => match gen_stmt_spec(*el, vars, f, i2, j2) {
                            Err(e) => Err(e),
                            Ok((x, i3, j3)) => Ok(
                                (
                                    c + seq!["      cmp x0, 1"@, "      b.ne else."@ + idx] + t + seq![
                                        "      b endif."@ + idx,
                                        "else."@ + idx + ":"@,
                                    ] + x + seq!["endif."@ + idx + ":"@],
                                    i3,
                                    j3,
                                ),
                            ),
                        },
                        None => Ok(
                            (
                                c + seq!["      cmp x0, 1"@, "      b.ne endif."@ + idx] + t + seq![
                                    "endif."@ + idx + ":"@,
                                ],
                                i2,
                                j2,
                            ),
                        ),
                    },
                },
            }
        },
        NodeKindV::For { init, cond, inc, body } => if lf == usize::MAX {
            Err(labels_err())
        } else {
            let idx = dec_nat(lf as nat);
            match gen_stmt_spec(*init, vars, f, li, (lf + 1) as usize) {
                Err(e) => Err(e),
                Ok((a, i1, j1)) => match gen_stmt_spec(*body, vars, f, i1, j1) {
                    Err(e) => Err(e),
                    Ok((b, i2, j2)) => match (match inc {
                        Some(x) => gen_expr_spec(*x, vars, f, i2, j2),
                        None => Ok((seq![], i2, j2)),
                    }) {
                        Err(e) => Err(e),
                        Ok((c, i3, j3)) => match (match cond {
                            Some(x) => match gen_expr_spec(*x, vars, f, i3, j3) {
                                Ok((d, i4, j4)) => Ok(
                                    (d + seq!["      cmp x0, 1"@, "      b.ne endfor."@ + idx], i4, j4),
                                ),
                                Err(e) => Err(e),
                            },
                            None => Ok((seq![], i3, j3)),
                        }) {
                            Err(e) => Err(e),
                            Ok((d, i4, j4)) => Ok(
                                (
                                    a + seq!["      b cond."@ + idx, "startfor."@ + idx + ":"@] + b + c
                                        + seq!["cond."@ + idx + ":"@] + d + seq![
                                        "      b startfor."@ + idx,
                                        "endfor."@ + idx + ":"@,
                                    ],
                                    i4,
                                    j4,
                                ),
                            ),
                        },
                    },
                },
            }
        },
        NodeKindV::While { cond, body } => if lf == usize::MAX {
            Err(labels_err())
        } else {
            let idx = dec_nat(lf as nat);
            match gen_expr_spec(*cond, vars, f, li, (lf + 1) as usize) {
                Err(e) => Err(e),
                Ok((c, i1, j1)) => match gen_stmt_spec(*body, vars, f, i1, j1) {
                    Err(e) => Err(e),
                    Ok((b, i2, j2)) => Ok(
                        (
                            seq!["startwhile."@ + idx + ":"@] + c + seq![
                                "      cmp x0, 1"@,
                                "      b.ne endwhile."@ + idx,
                            ] + b + seq!["      b startwhile."@ + idx, "endwhile."@ + idx + ":"@],
                            i2,
                            j2,
                        ),
                    ),
                },
            }
        },
        _ => Err(node_err()),
    }
}

impl Gen {
    /// Emits the instructions of operator number `op`.
    fn emit_op(&mut self, op: u8)
        requires
            op < 16,
        ensures
            final(self)@ == (GenV { out: old(self)@.out + op_lines(op), ..old(self)@ }),
    {
        let ghost o = self@.out;
        if op == 0 {
            self.emit_str("      add x0, x1, x0");
        } else if op == 1 {
            self.emit_str("      sub x0, x1, x0");
        } else if op == 2 {
            self.emit_str("      mul x0, x1, x0");
        } else if op == 3 {
            self.emit_str("      sdiv x0, x1, x0");
        } else if op == 4 {
            self.emit_str("      sdiv x2, x1, x0");
            self.emit_str("      msub x0, x2, x0, x1");
        } else if op == 5 {
            self.emit_str("      cmp x0, x1");
            self.emit_str("      cset x0, eq");
        } else if op == 6 {
            self.emit_str("      cmp x0, x1");
            self.emit_str("      cset x0, ne");
        } else if op == 7 {
            self.emit_str("      cmp x1, x0");
            self.emit_str("      cset x0, lt");
        } else if op == 8 {
            self.emit_str("      cmp x1, x0");
            self.emit_str("      cset x0, le");
        } else if op == 9 {
            self.emit_str("      cmp x1, x0");
            self.emit_str("      cset x0, gt");
        } else if op == 10 {
            self.emit_str("      cmp x1, x0");
            self.emit_str("      cset x0, ge");
        } else if op == 11 {
            self.emit_str("      mov x2, 0");
            self.emit_str("      cmp x1, 0");
            self.emit_str("      cset x2, ne");
            self.emit_str("      cmp x0, 0");
            self.emit_str("      cset x0, ne");
            self.emit_str("      and x0, x0, x2");
        } else if op == 12 {
            self.emit_str("      mov x2, 0");
            self.emit_str("      cmp x1, 0");
            self.emit_str("      cset x2, ne");
            self.emit_str("      cmp x0, 0");
            self.emit_str("      cset x0, ne");
            self.emit_str("      orr x0, x0, x2");
        } else if op == 13 {
            self.emit_str("      and x0, x1, x0");
        } else if op == 14 {
            self.emit_str("      eor x0, x1, x0");
        } else {
            self.emit_str("      orr x0, x1, x0");
        }
        proof {
            assert(self@.out =~= o + op_lines(op));
        }
    }

    /// Emits the address of the lvalue `node` into `x0`.
    fn gen_addr(&mut self, node: &Node, vars: &Vec<Var>) -> (r: Result<(), CompileError>)
        requires
            nvars_ok(node@, vars@.len()),
        ensures
            emitted(
                old(self)@,
                final(self)@,
                r,
                gen_addr_spec(node@, vars@, old(self)@.func_name, old(self)@.ifidx, old(self)@.foridx),
            ),
        decreases *node, 2nat,
    {
        let ghost o = self@.out;
        match &node.kind {
            NodeKind::Var { var } => {
                let v = &vars[*var];
                if v.is_local {
                    self.emit_num("      add x0, x29, ", v.offset);
                } else {
                    self.emit_text_sfx("      adrp x0, ", &v.name, "@PAGE");
                    self.emit_text_sfx("      add x0, x0, ", &v.name, "@PAGEOFF;");
                }
                proof {
                    assert(self@.out =~= o + out_lines(gen_addr_spec(node@, vars@, self@.func_name, self@.ifidx, self@.foridx)));
                }
                Ok(())
            },
            NodeKind::Deref { lhs, .. } => self.gen_expr(lhs, vars),
            NodeKind::Member { lhs, member } => {
                self.gen_addr(lhs, vars)?;
                self.emit_num("      add x0, x0, ", member.offset);
                Ok(())
            },
            _ => Err(abort("not expected node")),
        }
    }

    /// Emits a binary operation on `lhs` and `rhs`, operator number `op`.
    fn gen_bin(&mut self, lhs: &Box<Node>, rhs: &Box<Node>, op: u8, vars: &Vec<Var>, Ghost(parent): Ghost<Node>) -> (r: Result<(), CompileError>)
        requires
            op < 16,
            nvars_ok(lhs@, vars@.len()),
            nvars_ok(rhs@, vars@.len()),
            decreases_to!(parent => **lhs),
            decreases_to!(parent => **rhs),
        ensures
            emitted(
                old(self)@,
                final(self)@,
                r,
                bin_spec(lhs@, rhs@, op, vars@, old(self)@.func_name, old(self)@.ifidx, old(self)@.foridx),
            ),
        decreases parent, 1nat,
    {
        let ghost o = self@.out;
        self.gen_expr(lhs, vars)?;
        let ghost a = self@.out;
        self.push16();
        self.gen_expr(rhs, vars)?;
        let ghost b = self@.out;
        self.pop16();
        self.emit_op(op);
        proof {
            let ra = gen_expr_spec(lhs@, vars@, self@.func_name, old(self)@.ifidx, old(self)@.foridx);
            let rb = gen_expr_spec(rhs@, vars@, self@.func_name, next_if(ra), next_for(ra));
            assert(a == o + out_lines(ra));
            assert(b == a.push(push_line()) + out_lines(rb));
            assert(self@.out =~= o + (out_lines(ra).push(push_line()) + out_lines(rb).push(pop_line()) + op_lines(op)));
        }
        Ok(())
    }

    /// Emits the value of the expression `node` into `x0`.
    fn gen_expr(&mut self, node: &Node, vars: &Vec<Var>) -> (r: Result<(), CompileError>)
        requires
            nvars_ok(node@, vars@.len()),
        ensures
            emitted(
                old(self)@,
                final(self)@,
                r,
                gen_expr_spec(node@, vars@, old(self)@.func_name, old(self)@.ifidx, old(self)@.foridx),
            ),
        decreases *node, 4nat,
    {
        let ghost g = *node;
        let ghost o = self@.out;
        match &node.kind {
            NodeKind::Add { lhs, rhs } => self.gen_bin(lhs, rhs, 0, vars, Ghost(g)),
            NodeKind::Sub { lhs, rhs } => self.gen_bin(lhs, rhs, 1, vars, Ghost(g)),
            NodeKind::Mul { lhs, rhs } => self.gen_bin(lhs, rhs, 2, vars, Ghost(g)),
            NodeKind::Div { lhs, rhs } => self.gen_bin(lhs, rhs, 3, vars, Ghost(g)),
            NodeKind::Mod { lhs, rhs } => self.gen_bin(lhs, rhs, 4, vars, Ghost(g)),
            NodeKind::Eq { lhs, rhs } => self.gen_bin(lhs, rhs, 5, vars, Ghost(g)),
            NodeKind::Ne { lhs, rhs } => self.gen_bin(lhs, rhs, 6, vars, Ghost(g)),
            NodeKind::Lt { lhs, rhs } => self.gen_bin(lhs, rhs, 7, vars, Ghost(g)),
            NodeKind::Le { lhs, rhs } => self.gen_bin(lhs, rhs, 8, vars, Ghost(g)),
            NodeKind::Gt { lhs, rhs } => self.gen_bin(lhs, rhs, 9, vars, Ghost(g)),
            NodeKind::Ge { lhs, rhs } => self.gen_bin(lhs, rhs, 10, vars, Ghost(g)),
            NodeKind::And { lhs, rhs } => self.gen_bin(lhs, rhs, 11, vars, Ghost(g)),
            NodeKind::Or { lhs, rhs } => self.gen_bin(lhs, rhs, 12, vars, Ghost(g)),
            NodeKind::BitAnd { lhs, rhs } => self.gen_bin(lhs, rhs, 13, vars, Ghost(g)),
            NodeKind::BitXor { lhs, rhs } => self.gen_bin(lhs, rhs, 14, vars, Ghost(g)),
            NodeKind::BitOr { lhs, rhs } => self.gen_bin(lhs, rhs, 15, vars, Ghost(g)),
            _ => self.gen_expr_rest(node, vars),
        }
    }

    /// Emits the value of an expression that is not a binary operation.
    fn gen_expr_rest(&mut self, node: &Node, vars: &Vec<Var>) -> (r: Result<(), CompileError>)
        requires
            nvars_ok(node@, vars@.len()),
            !binary_kind(node@.kind),
        ensures
            emitted(
                old(self)@,
                final(self)@,
                r,
                gen_expr_spec(node@, vars@, old(self)@.func_name, old(self)@.ifidx, old(self)@.foridx),
            ),
        decreases *node, 3nat,
    {
        let ghost g = *node;
        let ghost o = self@.out;
        match &node.kind {
            NodeKind::Num { val } => {
                self.emit_int("      mov x0, ", *val);
                proof {
                    assert(self@.out =~= o + seq!["      mov x0, "@ + dec_int(*val as int)]);
                }
                Ok(())
            },
            NodeKind::Var { var } => {
                self.gen_addr(node, vars)?;
                self.load(&vars[*var].ty);
                proof {
                    assert(self@.out =~= o + (out_lines(gen_addr_spec(node@, vars@, self@.func_name, old(self)@.ifidx, old(self)@.foridx)) + load_lines(vars@[*var as int].ty@)));
                }
                Ok(())
            },
            NodeKind::Cas { lhs } => {
                match (&lhs.ty, &node.ty) {
                    (Some(from), Some(to)) => {
                        self.gen_expr(lhs, vars)?;
                        self.cast(from, to)?;
                        proof {
                            let ra = gen_expr_spec(lhs@, vars@, self@.func_name, old(self)@.ifidx, old(self)@.foridx);
                            assert(self@.out =~= o + out_lines(ra).push(cast_line(from@, to@)->0));
                        }
                        Ok(())
                    },
                    _ => Err(abort("no type information")),
                }
            },
            NodeKind::Member { .. } => {
                match &node.ty {
                    Some(ty) => {
                        self.gen_addr(node, vars)?;
                        self.load(ty);
                        proof {
                            assert(self@.out =~= o + (out_lines(gen_addr_spec(node@, vars@, self@.func_name, old(self)@.ifidx, old(self)@.foridx)) + load_lines(ty@)));
                        }
                        Ok(())
                    },
                    None => Err(abort("no type information")),
                }
            },
            NodeKind::Neg { lhs } => {
                self.gen_expr(lhs, vars)?;
                self.emit_str("      neg x0, x0");
                proof {
                    let ra = gen_expr_spec(lhs@, vars@, self@.func_name, old(self)@.ifidx, old(self)@.foridx);
                    assert(self@.out =~= o + out_lines(ra).push("      neg x0, x0"@));
                }
                Ok(())
            },
            NodeKind::NdAssign { lhs, rhs } => self.gen_assign(lhs, rhs, &node.ty, vars, Ghost(g)),
            NodeKind::Addr { lhs } => self.gen_addr(lhs, vars),
            NodeKind::Deref { lhs, .. } => {
                self.gen_expr(lhs, vars)?;
                match &node.ty {
                    Some(ty) => {
                        self.load(ty);
                        proof {
                            let ra = gen_expr_spec(lhs@, vars@, self@.func_name, old(self)@.ifidx, old(self)@.foridx);
                            assert(self@.out =~= o + (out_lines(ra) + load_lines(ty@)));
                        }
                        Ok(())
                    },
                    None => Err(abort("no type information")),
                }
            },
            NodeKind::FuncCall { name, args } => self.gen_call(name, args, vars, Ghost(g)),
            NodeKind::GNUStmtExpr { body } => self.gen_stmts(body, vars, Ghost(g)),
            _ => Err(abort("not expected node")),
        }
    }

    /// Emits `lhs = rhs`, whose type is `ty`.
    fn gen_assign(&mut self, lhs: &Box<Node>, rhs: &Box<Node>, ty: &Option<Type>, vars: &Vec<Var>, Ghost(parent): Ghost<Node>) -> (r: Result<(), CompileError>)
        requires
            parent@ == (NodeV { kind: NodeKindV::NdAssign { lhs: Box::new(lhs@), rhs: Box::new(rhs@) }, ty: optyv(*ty) }),
            nvars_ok(parent@, vars@.len()),
            decreases_to!(parent => **lhs),
            decreases_to!(parent => **rhs),
        ensures
            emitted(
                old(self)@,
                final(self)@,
                r,
                gen_expr_spec(parent@, vars@, old(self)@.func_name, old(self)@.ifidx, old(self)@.foridx),
            ),
        decreases parent, 2nat,
    {
        let ghost o = self@.out;
        self.gen_addr(lhs, vars)?;
        let ghost a = self@.out;
        self.push16();
        self.gen_expr(rhs, vars)?;
        let ghost b = self@.out;
        self.pop16();
        match ty {
            Some(ty) => {
                self.store(ty);
                proof {
                    let ra = gen_addr_spec(lhs@, vars@, self@.func_name, old(self)@.ifidx, old(self)@.foridx);
                    let rb = gen_expr_spec(rhs@, vars@, self@.func_name, next_if(ra), next_for(ra));
                    assert(a == o + out_lines(ra));
                    assert(b == a.push(push_line()) + out_lines(rb));
                    assert(self@.out =~= o + (out_lines(ra).push(push_line()) + out_lines(rb).push(pop_line()) + store_lines(ty@)));
                }
                Ok(())
            },
            None => Err(abort("no type information")),
        }
    }

    /// Emits a call of `name` with the arguments `args`.
    fn gen_call(&mut self, name: &String, args: &Vec<Node>, vars: &Vec<Var>, Ghost(parent): Ghost<Node>) -> (r: Result<(), CompileError>)
        requires
            parent@.kind == (NodeKindV::FuncCall { name: name@, args: nodesv(args@) }),
            nvars_ok(parent@, vars@.len()),
            decreases_to!(parent => *args),
        ensures
            emitted(
                old(self)@,
                final(self)@,
                r,
                gen_expr_spec(parent@, vars@, old(self)@.func_name, old(self)@.ifidx, old(self)@.foridx),
            ),
        decreases parent, 2nat,
    {
        let ghost o = self@.out;
        self.gen_args(args, vars, Ghost(parent))?;
        let ghost mid = self@;
        let mut i = args.len();
        proof {
            assert(mid.out + pops_below(args@.len() as nat, args@.len() as nat) =~= mid.out);
        }
        while i > 0
            invariant
                i <= args@.len(),
                self@ == (GenV { out: mid.out + pops_below(args@.len() as nat, i as nat), ..mid }),
            decreases i,
        {
            self.emit_num_sfx("      ldr x", i - 1, ", [sp], 16 // pop for function arg");
            proof {
                assert(mid.out + pops_below(args@.len() as nat, (i - 1) as nat) =~= (mid.out + pops_below(
                    args@.len() as nat,
                    i as nat,
                )).push("      ldr x"@ + dec_nat((i - 1) as nat) + ", [sp], 16 // pop for function arg"@));
            }
            i -= 1;
        }
        self.emit_text("      bl _", name);
        proof {
            lemma_nodesv_len(args@);
            let ra = gen_args_spec(nodesv(args@), vars@, self@.func_name, old(self)@.ifidx, old(self)@.foridx);
            assert(mid.out == o + out_lines(ra));
            assert(self@.out =~= o + (out_lines(ra) + arg_pops(nodesv(args@).len()) + seq!["      bl _"@ + name@]));
        }
        Ok(())
    }
}

/// An error in the code of some first arguments is the error of the code of
/// all of them.
proof fn lemma_args_err(ns: Seq<NodeV>, k: int, vars: Seq<Var>, f: Seq<char>, li: usize, lf: usize)
    requires
        0 <= k <= ns.len(),
        gen_args_spec(ns.take(k), vars, f, li, lf) is Err,
    ensures
        gen_args_spec(ns, vars, f, li, lf) == gen_args_spec(ns.take(k), vars, f, li, lf),
    decreases ns.len() - k,
{
    if k < ns.len() {
        assert(ns.take(k + 1).drop_last() =~= ns.take(k));
        lemma_args_err(ns, k + 1, vars, f, li, lf);
    } else {
        assert(ns.take(k) =~= ns);
    }
}

/// An error in the code of some first statements is the error of the code
/// of all of them.
proof fn lemma_stmts_err(ns: Seq<NodeV>, k: int, vars: Seq<Var>, f: Seq<char>, li: usize, lf: usize)
    requires
        0 <= k <= ns.len(),
        gen_stmts_spec(ns.take(k), vars, f, li, lf) is Err,
    ensures
        gen_stmts_spec(ns, vars, f, li, lf) == gen_stmts_spec(ns.take(k), vars, f, li, lf),
    decreases ns.len() - k,
{
    if k < ns.len() {
        assert(ns.take(k + 1).drop_last() =~= ns.take(k));
        lemma_stmts_err(ns, k + 1, vars, f, li, lf);
    } else {
        assert(ns.take(k) =~= ns);
    }
}

impl Gen {
    /// Emits each call argument's value and pushes it, in order.
    fn gen_args(&mut self, args: &Vec<Node>, vars: &Vec<Var>, Ghost(parent): Ghost<Node>) -> (r: Result<(), CompileError>)
        requires
            all_nvars_ok(nodesv(args@), vars@.len()),
            decreases_to!(parent => *args),
        ensures
            emitted(
                old(self)@,
                final(self)@,
                r,
                gen_args_spec(nodesv(args@), vars@, old(self)@.func_name, old(self)@.ifidx, old(self)@.foridx),
            ),
        decreases parent, 1nat,
    {
        let ghost ns = nodesv(args@);
        let ghost o = self@.out;
        let ghost f = self@.func_name;
        let ghost li = self@.ifidx;
        let ghost lf = self@.foridx;
        let ghost mut acc: Seq<Seq<char>> = seq![];
        proof {
            lemma_nodesv_len(args@);
            lemma_all_nvars_ok(ns, vars@.len());
            assert(ns.take(0) =~= Seq::<NodeV>::empty());
            assert(o + acc =~= o);
        }
        let mut i: usize = 0;
        while i < args.len()
            invariant
                i <= args@.len(),
                ns == nodesv(args@),
                ns.len() == args@.len(),
                forall|k: int| 0 <= k < args@.len() ==> #[trigger] ns[k] == nodev(args@[k]),
                forall|k: int| 0 <= k < ns.len() ==> nvars_ok(#[trigger] ns[k], vars@.len()),
                decreases_to!(parent => *args),
                self@.func_name == f,
                f == old(self)@.func_name,
                li == old(self)@.ifidx,
                lf == old(self)@.foridx,
                self@.out == o + acc,
                gen_args_spec(ns.take(i as int), vars@, f, li, lf) == Ok::<
                    (Seq<Seq<char>>, usize, usize),
                    CompileErrorV,
                >((acc, self@.ifidx, self@.foridx)),
            decreases args.len() - i,
        {
            proof {
                assert(decreases_to!(*args => args@[i as int]));
                assert(ns.take(i + 1).drop_last() =~= ns.take(i as int));
                assert(ns.take(i + 1).last() == ns[i as int]);
            }
            let ghost s0 = self@;
            match self.gen_expr(&args[i], vars) {
                Ok(()) => {},
                Err(e) => {
                    proof {
                        lemma_args_err(ns, i + 1, vars@, f, li, lf);
                    }
                    return Err(e);
                },
            }
            self.push16();
            proof {
                let e = out_lines(gen_expr_spec(ns[i as int], vars@, f, s0.ifidx, s0.foridx));
                acc = acc + e.push(push_line());
                assert(self@.out =~= o + acc);
            }
            i += 1;
        }
        proof {
            assert(ns.take(args@.len() as int) =~= ns);
        }
        Ok(())
    }

    /// Emits each statement of `body`, in order.
    fn gen_stmts(&mut self, body: &Vec<Node>, vars: &Vec<Var>, Ghost(parent): Ghost<Node>) -> (r: Result<(), CompileError>)
        requires
            all_nvars_ok(nodesv(body@), vars@.len()),
            decreases_to!(parent => *body),
        ensures
            emitted(
                old(self)@,
                final(self)@,
                r,
                gen_stmts_spec(nodesv(body@), vars@, old(self)@.func_name, old(self)@.ifidx, old(self)@.foridx),
            ),
        decreases parent, 1nat,
    {
        let ghost ns = nodesv(body@);
        let ghost o = self@.out;
        let ghost f = self@.func_name;
        let ghost li = self@.ifidx;
        let ghost lf = self@.foridx;
        let ghost mut acc: Seq<Seq<char>> = seq![];
        proof {
            lemma_nodesv_len(body@);
            lemma_all_nvars_ok(ns, vars@.len());
            assert(ns.take(0) =~= Seq::<NodeV>::empty());
            assert(o + acc =~= o);
        }
        let mut i: usize = 0;
        while i < body.len()
            invariant
                i <= body@.len(),
                ns == nodesv(body@),
                ns.len() == body@.len(),
                forall|k: int| 0 <= k < body@.len() ==> #[trigger] ns[k] == nodev(body@[k]),
                forall|k: int| 0 <= k < ns.len() ==> nvars_ok(#[trigger] ns[k], vars@.len()),
                decreases_to!(parent => *body),
                self@.func_name == f,
                f == old(self)@.func_name,
                li == old(self)@.ifidx,
                lf == old(self)@.foridx,
                self@.out == o + acc,
                gen_stmts_spec(ns.take(i as int), vars@, f, li, lf) == Ok::<
                    (Seq<Seq<char>>, usize, usize),
                    CompileErrorV,
                >((acc, self@.ifidx, self@.foridx)),
            decreases body.len() - i,
        {
            proof {
                assert(decreases_to!(*body => body@[i as int]));
                assert(ns.take(i + 1).drop_last() =~= ns.take(i as int));
                assert(ns.take(i + 1).last() == ns[i as int]);
            }
            let ghost s0 = self@;
            match self.gen_stmt(&body[i], vars) {
                Ok(()) => {},
                Err(e) => {
                    proof {
                        lemma_stmts_err(ns, i + 1, vars@, f, li, lf);
                    }
                    return Err(e);
                },
            }
            proof {
                let e = out_lines(gen_stmt_spec(ns[i as int], vars@, f, s0.ifidx, s0.foridx));
                acc = acc + e;
                assert(self@.out =~= o + acc);
            }
            i += 1;
        }
        proof {
            assert(ns.take(body@.len() as int) =~= ns);
        }
        Ok(())
    }

    /// Emits the statement `node`.
    fn gen_stmt(&mut self, node: &Node, vars: &Vec<Var>) -> (r: Result<(), CompileError>)
        requires
            nvars_ok(node@, vars@.len()),
        ensures
            emitted(
                old(self)@,
                final(self)@,
                r,
                gen_stmt_spec(node@, vars@, old(self)@.func_name, old(self)@.ifidx, old(self)@.foridx),
            ),
        decreases *node, 2nat,
    {
        let ghost g = *node;
        let ghost o = self@.out;
        match &node.kind {
            NodeKind::ExprStmt { lhs } => self.gen_expr(lhs, vars),
            NodeKind::Return { lhs } => {
                self.gen_expr(lhs, vars)?;
                let f = self.func_name.clone();
                self.emit_text("      b end.", &f);
                Ok(())
            },
            NodeKind::Block { body } => self.gen_stmts(body, vars, Ghost(g)),
            NodeKind::If { cond, then, els } => self.gen_if(cond, then, els, vars, Ghost(g)),
            NodeKind::For { init, cond, inc, body } => self.gen_for(init, cond, inc, body, vars, Ghost(g)),
            NodeKind::While { cond, body } => self.gen_while(cond, body, vars, Ghost(g)),
            _ => Err(abort("not expected node")),
        }
    }
}

impl Gen {
    /// Emits `if (cond) then else els`.
    fn gen_if(
        &mut self,
        cond: &Box<Node>,
        then: &Box<Node>,
        els: &Option<Box<Node>>,
        vars: &Vec<Var>,
        Ghost(parent): Ghost<Node>,
    ) -> (r: Result<(), CompileError>)
        requires
            parent@.kind == (NodeKindV::If { cond: Box::new(cond@), then: Box::new(then@), els: optnv(*els) }),
            nvars_ok(parent@, vars@.len()),
            decreases_to!(parent => **cond),
            decreases_to!(parent => **then),
            els matches Some(e) ==> decreases_to!(parent => *e),
        ensures
            emitted(
                old(self)@,
                final(self)@,
                r,
                gen_stmt_spec(parent@, vars@, old(self)@.func_name, old(self)@.ifidx, old(self)@.foridx),
            ),
        decreases parent, 1nat,
    {
        let ghost o = self@.out;
        let ghost s0 = self@;
        if self.ifidx == usize::MAX {
            return Err(abort("too many labels"));
        }
        let idx = self.ifidx;
        self.ifidx = self.ifidx + 1;
        let ghost f = self@.func_name;
        let ghost rc = gen_expr_spec(cond@, vars@, f, (s0.ifidx + 1) as usize, s0.foridx);
        self.gen_expr(cond, vars)?;
        let ghost c = self@.out;
        self.emit_str("      cmp x0, 1");
        match els {
            Some(el) => {
                self.emit_num("      b.ne else.", idx);
                let ghost s1 = self@;
                let ghost rt = gen_stmt_spec(then@, vars@, f, next_if(rc), next_for(rc));
                self.gen_stmt(then, vars)?;
                let ghost t = self@.out;
                self.emit_num("      b endif.", idx);
                self.emit_num_sfx("else.", idx, ":");
                let ghost s2 = self@;
                let ghost rx = gen_stmt_spec(el@, vars@, f, next_if(rt), next_for(rt));
                self.gen_stmt(el, vars)?;
                let ghost x = self@.out;
                self.emit_num_sfx("endif.", idx, ":");
                proof {
                    let i = dec_nat(idx as nat);
                    assert(c == o + out_lines(rc));
                    assert(t == s1.out + out_lines(rt));
                    assert(x == s2.out + out_lines(rx));
                    assert(self@.out =~= o + (out_lines(rc) + seq!["      cmp x0, 1"@, "      b.ne else."@ + i] + out_lines(rt)
                        + seq!["      b endif."@ + i, "else."@ + i + ":"@] + out_lines(rx) + seq!["endif."@ + i + ":"@]));
                }
            },
            None => {
                self.emit_num("      b.ne endif.", idx);
                let ghost s1 = self@;
                let ghost rt = gen_stmt_spec(then@, vars@, f, next_if(rc), next_for(rc));
                self.gen_stmt(then, vars)?;
                let ghost t = self@.out;
                self.emit_num_sfx("endif.", idx, ":");
                proof {
                    let i = dec_nat(idx as nat);
                    assert(c == o + out_lines(rc));
                    assert(t == s1.out + out_lines(rt));
                    assert(self@.out =~= o + (out_lines(rc) + seq!["      cmp x0, 1"@, "      b.ne endif."@ + i] + out_lines(rt)
                        + seq!["endif."@ + i + ":"@]));
                }
            },
        }
        Ok(())
    }

    /// Emits `while (cond) body`.
    fn gen_while(&mut self, cond: &Box<Node>, body: &Box<Node>, vars: &Vec<Var>, Ghost(parent): Ghost<Node>) -> (r: Result<(), CompileError>)
        requires
            parent@.kind == (NodeKindV::While { cond: Box::new(cond@), body: Box::new(body@) }),
            nvars_ok(parent@, vars@.len()),
            decreases_to!(parent => **cond),
            decreases_to!(parent => **body),
        ensures
            emitted(
                old(self)@,
                final(self)@,
                r,
                gen_stmt_spec(parent@, vars@, old(self)@.func_name, old(self)@.ifidx, old(self)@.foridx),
            ),
        decreases parent, 1nat,
    {
        let ghost o = self@.out;
        let ghost s0 = self@;
        if self.foridx == usize::MAX {
            return Err(abort("too many labels"));
        }
        let idx = self.foridx;
        self.foridx = self.foridx + 1;
        let ghost f = self@.func_name;
        self.emit_num_sfx("startwhile.", idx, ":");
        let ghost s1 = self@;
        let ghost rc = gen_expr_spec(cond@, vars@, f, s0.ifidx, (s0.foridx + 1) as usize);
        self.gen_expr(cond, vars)?;
        let ghost c = self@.out;
        self.emit_str("      cmp x0, 1");
        self.emit_num("      b.ne endwhile.", idx);
        let ghost s2 = self@;
        let ghost rb = gen_stmt_spec(body@, vars@, f, next_if(rc), next_for(rc));
        self.gen_stmt(body, vars)?;
        let ghost b = self@.out;
        self.emit_num("      b startwhile.", idx);
        self.emit_num_sfx("endwhile.", idx, ":");
        proof {
            let i = dec_nat(idx as nat);
            assert(c == s1.out + out_lines(rc));
            assert(b == s2.out + out_lines(rb));
            assert(self@.out =~= o + (seq!["startwhile."@ + i + ":"@] + out_lines(rc) + seq!["      cmp x0, 1"@, "      b.ne endwhile."@ + i]
                + out_lines(rb) + seq!["      b startwhile."@ + i, "endwhile."@ + i + ":"@]));
        }
        Ok(())
    }

    /// Emits `for (init cond; inc) body`.
    #[verifier::spinoff_prover]
    #[verifier::rlimit(60)]
    fn gen_for(
        &mut self,
        init: &Box<Node>,
        cond: &Option<Box<Node>>,
        inc: &Option<Box<Node>>,
        body: &Box<Node>,
        vars: &Vec<Var>,
        Ghost(parent): Ghost<Node>,
    ) -> (r: Result<(), CompileError>)
        requires
            parent@.kind == (NodeKindV::For {
                init: Box::new(init@),
                cond: optnv(*cond),
                inc: optnv(*inc),
                body: Box::new(body@),
            }),
            nvars_ok(parent@, vars@.len()),
            decreases_to!(parent => **init),
            decreases_to!(parent => **body),
            cond matches Some(e) ==> decreases_to!(parent => *e),
            inc matches Some(e) ==> decreases_to!(parent => *e),
        ensures
            emitted(
                old(self)@,
                final(self)@,
                r,
                gen_stmt_spec(parent@, vars@, old(self)@.func_name, old(self)@.ifidx, old(self)@.foridx),
            ),
        decreases parent, 1nat,
    {
        let ghost o = self@.out;
        let ghost s0 = self@;
        if self.foridx == usize::MAX {
            return Err(abort("too many labels"));
        }
        let idx = self.foridx;
        self.foridx = self.foridx + 1;
        let ghost f = self@.func_name;
        let ghost ra = gen_stmt_spec(init@, vars@, f, s0.ifidx, (s0.foridx + 1) as usize);
        self.gen_stmt(init, vars)?;
        let ghost a = self@.out;
        self.emit_num("      b cond.", idx);
        self.emit_num_sfx("startfor.", idx, ":");
        let ghost s1 = self@;
        let ghost rb = gen_stmt_spec(body@, vars@, f, next_if(ra), next_for(ra));
        self.gen_stmt(body, vars)?;
        let ghost b = self@.out;
        let ghost rc: Emitted = match inc {
            Some(x) => gen_expr_spec(x@, vars@, f, next_if(rb), next_for(rb)),
            None => Ok((seq![], next_if(rb), next_for(rb))),
        };
        match inc {
            Some(x) => {
                self.gen_expr(x, vars)?;
            },
            None => {},
        }
        let ghost c = self@.out;
        self.emit_num_sfx("cond.", idx, ":");
        let ghost s2 = self@;
        let ghost rd: Emitted = match cond {
            Some(x) => match gen_expr_spec(x@, vars@, f, next_if(rc), next_for(rc)) {
                Ok((d, i4, j4)) => Ok((d + seq!["      cmp x0, 1"@, "      b.ne endfor."@ + dec_nat(idx as nat)], i4, j4)),
                Err(e) => Err(e),
            },
            None => Ok((seq![], next_if(rc), next_for(rc))),
        };
        match cond {
            Some(x) => {
                self.gen_expr(x, vars)?;
                self.emit_str("      cmp x0, 1");
                self.emit_num("      b.ne endfor.", idx);
            },
            None => {},
        }
        let ghost d = self@.out;
        self.emit_num("      b startfor.", idx);
        self.emit_num_sfx("endfor.", idx, ":");
        proof {
            let i = dec_nat(idx as nat);
            assert(a == o + out_lines(ra));
            assert(b == s1.out + out_lines(rb));
            assert(c =~= b + out_lines(rc));
            assert(d =~= s2.out + out_lines(rd));
            assert(self@.out =~= o + (out_lines(ra) + seq!["      b cond."@ + i, "startfor."@ + i + ":"@] + out_lines(rb) + out_lines(rc)
                + seq!["cond."@ + i + ":"@] + out_lines(rd) + seq!["      b startfor."@ + i, "endfor."@ + i + ":"@]));
        }
        Ok(())
    }
}

//
// the data section
//

/// The text without its trailing NUL characters.
pub open spec fn trim_nuls(s: Seq<char>) -> Seq<char>
    decreases s.len(),
{
    if s.len() > 0 && s.last() == '\0' {
        trim_nuls(s.drop_last())
    } else {
        s
    }
}

/// The data-section lines of the global variable `v`: zeroed storage of
/// its size, or its string (without trailing NULs) in the C-string section,
/// or its number.
pub open spec fn data_lines(v: Var) -> Seq<Seq<char>> {
    match v.init_gval {
        None => seq![
            ".data"@,
            ".global "@ + v.name@,
            v.name@ + ":"@,
            "      .zero "@ + dec_nat(v.ty.size as nat),
        ],
        Some(InitGval::Str(text)) => {
            let t = trim_nuls(text@);
            seq![
                ".text"@,
                ".cstring"@,
                ".align 3"@,
                v.name@ + ":"@,
                if t.len() == 0 {
                    "      .asciz \"\""@
                } else {
                    "      .asciz \""@ + t + "\""@
                },
            ]
        },
        Some(InitGval::Num(val)) => seq![
            ".data"@,
            ".global "@ + v.name@,
            v.name@ + ":"@,
            "      .xword "@ + dec_int(val as int),
        ],
    }
}

/// The data section: the lines of each global variable, in order.
pub open spec fn data_spec(gvars: Seq<usize>, vars: Seq<Var>) -> Seq<Seq<char>>
    decreases gvars.len(),
{
    if gvars.len() == 0 {
        seq![]
    } else {
        data_spec(gvars.drop_last(), vars) + data_lines(vars[gvars.last() as int])
    }
}

/// A copy of `s` without its trailing NUL characters.
fn trimmed(s: &String) -> (r: String)
    ensures
        r@ == trim_nuls(s@),
{
    let t = s.as_str();
    let mut n = t.unicode_len();
    proof {
        assert(s@.subrange(0, n as int) =~= s@);
    }
    while n > 0 && t.get_char(n - 1) == '\0'
        invariant
            n <= s@.len(),
            t@ == s@,
            trim_nuls(s@) == trim_nuls(s@.subrange(0, n as int)),
        decreases n,
    {
        proof {
            assert(s@.subrange(0, n as int).drop_last() =~= s@.subrange(0, n - 1));
        }
        n -= 1;
    }
    string_of(t.substring_char(0, n))
}

impl Gen {
    /// Emits the data-section lines of the global variable `v`.
    fn data_var(&mut self, v: &Var)
        ensures
            final(self)@ == (GenV { out: old(self)@.out + data_lines(*v), ..old(self)@ }),
    {
        let ghost o = self@.out;
        match &v.init_gval {
            None => {
                self.emit_str(".data");
                self.emit_text(".global ", &v.name);
                self.emit_text_sfx("", &v.name, ":");
                self.emit_num("      .zero ", v.ty.size);
            },
            Some(InitGval::Str(text)) => {
                let t = trimmed(text);
                self.emit_str(".text");
                self.emit_str(".cstring");
                self.emit_str(".align 3");
                self.emit_text_sfx("", &v.name, ":");
                if t.as_str().unicode_len() == 0 {
                    self.emit_str("      .asciz \"\"");
                } else {
                    self.emit_text_sfx("      .asciz \"", &t, "\"");
                }
            },
            Some(InitGval::Num(val)) => {
                self.emit_str(".data");
                self.emit_text(".global ", &v.name);
                self.emit_text_sfx("", &v.name, ":");
                self.emit_int("      .xword ", *val);
            },
        }
        proof {
            reveal_strlit("");
            assert(""@ + v.name@ =~= v.name@);
            assert(self@.out =~= o + data_lines(*v));
        }
    }

    /// Emits the data section: every global variable, in order.
    pub fn handle_data(&mut self, ctx: &Ctx)
        requires
            forall|k: int| 0 <= k < ctx.gvars@.len() ==> #[trigger] ctx.gvars@[k] < ctx.vars@.len(),
        ensures
            final(self)@ == (GenV { out: old(self)@.out + data_spec(ctx.gvars@, ctx.vars@), ..old(self)@ }),
    {
        let ghost o = self@.out;
        let mut i: usize = 0;
        proof {
            assert(ctx.gvars@.take(0) =~= Seq::<usize>::empty());
            assert(o + data_spec(Seq::<usize>::empty(), ctx.vars@) =~= o);
        }
        while i < ctx.gvars.len()
            invariant
                i <= ctx.gvars@.len(),
                forall|k: int| 0 <= k < ctx.gvars@.len() ==> #[trigger] ctx.gvars@[k] < ctx.vars@.len(),
                self@ == (GenV { out: o + data_spec(ctx.gvars@.take(i as int), ctx.vars@), ..old(self)@ }),
            decreases ctx.gvars.len() - i,
        {
            let id = ctx.gvars[i];
            self.data_var(&ctx.vars[id]);
            proof {
                assert(ctx.gvars@.take(i + 1).drop_last() =~= ctx.gvars@.take(i as int));
                assert(self@.out =~= o + data_spec(ctx.gvars@.take(i + 1), ctx.vars@));
            }
            i += 1;
        }
        proof {
            assert(ctx.gvars@.take(i as int) =~= ctx.gvars@);
        }
    }
}

//
// the text section
//

/// The indices of the variables of the scopes, scope by scope.
pub open spec fn scope_var_ids(scopes: Seq<Scope>) -> Seq<usize>
    decreases scopes.len(),
{
    if scopes.len() == 0 {
        seq![]
    } else {
        scope_var_ids(scopes.drop_last()) + scopes.last().variables@
    }
}

/// Lays out the stack frame: from offset `start` on, each variable in
/// `ids` gets the next offset aligned to its type's alignment, and the
/// following one starts after it. Gives the variables with their offsets
/// and the end of the frame, or nothing when an offset does not fit.
pub open spec fn lay_frame(ids: Seq<usize>, vars: Seq<Var>, start: usize) -> Option<(Seq<Var>, usize)>
    decreases ids.len(),
{
    if ids.len() == 0 {
        Some((vars, start))
    } else {
        match lay_frame(ids.drop_last(), vars, start) {
            None => None,
            Some((vs, end)) => {
                let v = vs[ids.last() as int];
                if !align_fits(end, v.ty.align) || align_spec(end, v.ty.align) + v.ty.size > usize::MAX {
                    None
                } else {
                    let off = align_spec(end, v.ty.align);
                    Some((vs.update(ids.last() as int, Var { offset: off, ..v }), (off + v.ty.size) as usize))
                }
            },
        }
    }
}

pub open spec fn frame_err() -> CompileErrorV {
    CompileErrorV::Abort { msg: "stack frame too large"@ }
}

/// The lines that store the incoming argument registers into the
/// parameters `args`: the first is kept in `x9` while its address is
/// computed.
pub open spec fn store_args_spec(args: Seq<NodeV>, vars: Seq<Var>, f: Seq<char>, li: usize, lf: usize) -> Emitted
    decreases args.len(),
{
    if args.len() == 0 {
        Ok((seq![], li, lf))
    } else {
        let k = (args.len() - 1) as nat;
        match store_args_spec(args.drop_last(), vars, f, li, lf) {
            Err(e) => Err(e),
            Ok((a, i1, j1)) => match gen_addr_spec(args.last(), vars, f, i1, j1) {
                Err(e) => Err(e),
                Ok((b, i2, j2)) => Ok(
                    (
                        if k == 0 {
                            a + seq!["      mov x9, x0"@] + b + seq!["      str x9, [x0]"@]
                        } else {
                            a + b + seq!["      str x"@ + dec_nat(k) + ", [x0]"@]
                        },
                        i2,
                        j2,
                    ),
                ),
            },
        }
    }
}

/// The code of a defined function: the frame laid out over the variables
/// of its closed scopes from offset 16 (below it the frame and link
/// registers) and rounded up to 16; the prologue; the parameters stored;
/// the body; the epilogue at `end.<name>`. Gives the lines, the variables
/// with their offsets, and the next label numbers.
pub open spec fn func_text(f: Function, vars: Seq<Var>, li: usize, lf: usize) -> Result<
    (Seq<Seq<char>>, Seq<Var>, usize, usize),
    CompileErrorV,
> {
    match lay_frame(scope_var_ids(f.exited_scope@), vars, 16) {
        None => Err(frame_err()),
        Some((vs, end)) => if !align_fits(end, 16) {
            Err(frame_err())
        } else {
            let size = dec_nat(align_spec(end, 16) as nat);
            let name = f.name@;
            let pro = seq![
                ".text"@,
                ".align 2"@,
                ".global _"@ + name,
                "_"@ + name + ":"@,
                "      sub sp, sp, "@ + size,
                "      stp x29, x30, [sp]"@,
                "      mov x29, sp"@,
            ];
            let epi = seq![
                "end."@ + name + ":"@,
                "      ldp x29, x30, [sp]"@,
                "      add sp, sp, "@ + size,
                "      ret"@,
            ];
            match store_args_spec(nodesv(f.args@), vs, name, li, lf) {
                Err(e) => Err(e),
                Ok((a, i1, j1)) => match (match f.body {
                    Some(b) => gen_stmt_spec(b@, vs, name, i1, j1),
                    None => Ok((seq![], i1, j1)),
                }) {
                    Err(e) => Err(e),
                    Ok((b, i2, j2)) => Ok((pro + a + b + epi, vs, i2, j2)),
                },
            }
        },
    }
}

/// The lines that a function's or the text section's code holds, if any.
pub open spec fn text_lines(r: Result<(Seq<Seq<char>>, Seq<Var>, usize, usize), CompileErrorV>) -> Seq<Seq<char>> {
    match r {
        Ok((ls, _, _, _)) => ls,
        Err(_) => seq![],
    }
}

/// The text section: the code of each defined function, in order; a
/// function that is only declared has none.
pub open spec fn text_spec(fs: Seq<Function>, vars: Seq<Var>, li: usize, lf: usize) -> Result<
    (Seq<Seq<char>>, Seq<Var>, usize, usize),
    CompileErrorV,
>
    decreases fs.len(),
{
    if fs.len() == 0 {
        Ok((seq![], vars, li, lf))
    } else {
        match text_spec(fs.drop_last(), vars, li, lf) {
            Err(e) => Err(e),
            Ok((a, vs, i1, j1)) => if !fs.last().is_def {
                Ok((a, vs, i1, j1))
            } else {
                match func_text(fs.last(), vs, i1, j1) {
                    Err(e) => Err(e),
                    Ok((b, vs2, i2, j2)) => Ok((a + b, vs2, i2, j2)),
                }
            },
        }
    }
}

/// The whole assembly program: the data section, then the text section,
/// with labels numbered from zero.
pub open spec fn codegen_spec(ctx: Ctx) -> Result<Seq<Seq<char>>, CompileErrorV> {
    match text_spec(ctx.functions@, ctx.vars@, 0, 0) {
        Ok((t, _, _, _)) => Ok(data_spec(ctx.gvars@, ctx.vars@) + t),
        Err(e) => Err(e),
    }
}

/// When the frame of some first variables cannot be laid out, neither can
/// the frame of all of them.
proof fn lemma_frame_none(ids: Seq<usize>, k: int, vars: Seq<Var>, start: usize)
    requires
        0 <= k <= ids.len(),
        lay_frame(ids.take(k), vars, start) is None,
    ensures
        lay_frame(ids, vars, start) is None,
    decreases ids.len() - k,
{
    if k < ids.len() {
        assert(ids.take(k + 1).drop_last() =~= ids.take(k));
        lemma_frame_none(ids, k + 1, vars, start);
    } else {
        assert(ids.take(k) =~= ids);
    }
}

/// When the frame of some first variables cannot be laid out, neither can
/// the frame of any longer list that starts with them.
proof fn lemma_frame_none_prefix(a: Seq<usize>, b: Seq<usize>, vars: Seq<Var>, start: usize)
    requires
        a.is_prefix_of(b),
        lay_frame(a, vars, start) is None,
    ensures
        lay_frame(b, vars, start) is None,
{
    assert(b.take(a.len() as int) =~= a);
    lemma_frame_none(b, a.len() as int, vars, start);
}

/// The variables of some first scopes come first among those of all scopes.
proof fn lemma_scope_ids_prefix(scopes: Seq<Scope>, k: int)
    requires
        0 <= k <= scopes.len(),
    ensures
        scope_var_ids(scopes.take(k)).is_prefix_of(scope_var_ids(scopes)),
    decreases scopes.len() - k,
{
    if k < scopes.len() {
        lemma_scope_ids_prefix(scopes, k + 1);
        assert(scopes.take(k + 1).drop_last() =~= scopes.take(k));
        let a = scope_var_ids(scopes.take(k));
        let m = scope_var_ids(scopes.take(k + 1));
        let b = scope_var_ids(scopes);
        assert(m =~= a + scopes[k].variables@);
        assert(b.subrange(0, a.len() as int) =~= m.subrange(0, a.len() as int));
        assert(m.subrange(0, a.len() as int) =~= a);
    } else {
        assert(scopes.take(k) =~= scopes);
    }
}

/// An error in storing some first parameters is the error of storing all
/// of them.
proof fn lemma_store_args_err(ns: Seq<NodeV>, k: int, vars: Seq<Var>, f: Seq<char>, li: usize, lf: usize)
    requires
        0 <= k <= ns.len(),
        store_args_spec(ns.take(k), vars, f, li, lf) is Err,
    ensures
        store_args_spec(ns, vars, f, li, lf) == store_args_spec(ns.take(k), vars, f, li, lf),
    decreases ns.len() - k,
{
    if k < ns.len() {
        assert(ns.take(k + 1).drop_last() =~= ns.take(k));
        lemma_store_args_err(ns, k + 1, vars, f, li, lf);
    } else {
        assert(ns.take(k) =~= ns);
    }
}

/// Gives each variable of the closed scopes its offset in the frame, as
/// `lay_frame` from offset 16 says, and returns the end of the frame.
#[verifier::loop_isolation(false)]
fn lay_out_frame(scopes: &Vec<Scope>, vars: &mut Vec<Var>) -> (r: Result<usize, CompileError>)
    requires
        forall|k: int| 0 <= k < scopes@.len() ==> scope_ok(#[trigger] scopes@[k], old(vars)@.len()),
    ensures
        final(vars)@.len() == old(vars)@.len(),
        match lay_frame(scope_var_ids(scopes@), old(vars)@, 16) {
            Some((vs, end)) => r == Ok::<usize, CompileError>(end) && final(vars)@ == vs,
            None => r matches Err(e) && e@ == frame_err(),
        },
{
    let ghost v0 = vars@;
    let ghost ids = scope_var_ids(scopes@);
    let mut stack: usize = 16;
    let mut k: usize = 0;
    proof {
        assert(scopes@.take(0) =~= Seq::<Scope>::empty());
    }
    while k < scopes.len()
        invariant
            k <= scopes@.len(),
            vars@.len() == v0.len(),
            forall|q: int| 0 <= q < scopes@.len() ==> scope_ok(#[trigger] scopes@[q], v0.len()),
            lay_frame(scope_var_ids(scopes@.take(k as int)), v0, 16) == Some((vars@, stack)),
        decreases scopes.len() - k,
    {
        let ids_k = &scopes[k].variables;
        let ghost pre = scope_var_ids(scopes@.take(k as int));
        proof {
            assert(scopes@.take(k + 1).drop_last() =~= scopes@.take(k as int));
            assert(scopes@.take(k + 1).last() == scopes@[k as int]);
            assert(pre + ids_k@.take(0) =~= pre);
            assert(scope_ok(scopes@[k as int], v0.len()));
            lemma_scope_ids_prefix(scopes@, k + 1);
            assert(scope_var_ids(scopes@.take(k + 1)) =~= pre + ids_k@);
        }
        let mut j: usize = 0;
        while j < ids_k.len()
            invariant
                j <= ids_k@.len(),
                vars@.len() == v0.len(),
                forall|q: int| 0 <= q < ids_k@.len() ==> #[trigger] ids_k@[q] < v0.len(),
                lay_frame(pre + ids_k@.take(j as int), v0, 16) == Some((vars@, stack)),
            decreases ids_k.len() - j,
        {
            let id = ids_k[j];
            let ghost p = pre + ids_k@.take(j as int);
            proof {
                assert((pre + ids_k@.take(j + 1)).drop_last() =~= p);
                assert((pre + ids_k@.take(j + 1)).last() == id);
            }
            let align = vars[id].ty.align;
            let size = vars[id].ty.size;
            if !(align == 0 || stack as u128 + align as u128 - 1 <= usize::MAX as u128) {
                proof {
                    let q = pre + ids_k@.take(j + 1);
                    assert(q.is_prefix_of(pre + ids_k@));
                    assert(q.is_prefix_of(ids));
                    lemma_frame_none_prefix(q, ids, v0, 16);
                }
                return Err(abort("stack frame too large"));
            }
            let off = align_to(stack, align);
            if off as u128 + size as u128 > usize::MAX as u128 {
                proof {
                    let q = pre + ids_k@.take(j + 1);
                    assert(q.is_prefix_of(pre + ids_k@));
                    assert(q.is_prefix_of(ids));
                    lemma_frame_none_prefix(q, ids, v0, 16);
                }
                return Err(abort("stack frame too large"));
            }
            vars[id].offset = off;
            stack = off + size;
            j += 1;
        }
        proof {
            assert(ids_k@.take(j as int) =~= ids_k@);
            assert(scope_var_ids(scopes@.take(k + 1)) =~= pre + ids_k@);
        }
        k += 1;
    }
    proof {
        assert(scopes@.take(k as int) =~= scopes@);
    }
    Ok(stack)
}

impl Gen {
    /// Stores the incoming argument registers into the parameters `args`.
    fn store_args(&mut self, args: &Vec<Node>, vars: &Vec<Var>) -> (r: Result<(), CompileError>)
        requires
            all_nvars_ok(nodesv(args@), vars@.len()),
        ensures
            emitted(
                old(self)@,
                final(self)@,
                r,
                store_args_spec(nodesv(args@), vars@, old(self)@.func_name, old(self)@.ifidx, old(self)@.foridx),
            ),
    {
        let ghost ns = nodesv(args@);
        let ghost o = self@.out;
        let ghost f = self@.func_name;
        let ghost li = self@.ifidx;
        let ghost lf = self@.foridx;
        let ghost mut acc: Seq<Seq<char>> = seq![];
        proof {
            lemma_nodesv_len(args@);
            lemma_all_nvars_ok(ns, vars@.len());
            assert(ns.take(0) =~= Seq::<NodeV>::empty());
            assert(o + acc =~= o);
        }
        let mut i: usize = 0;
        while i < args.len()
            invariant
                i <= args@.len(),
                ns == nodesv(args@),
                ns.len() == args@.len(),
                forall|k: int| 0 <= k < args@.len() ==> #[trigger] ns[k] == nodev(args@[k]),
                forall|k: int| 0 <= k < ns.len() ==> nvars_ok(#[trigger] ns[k], vars@.len()),
                self@.func_name == f,
                f == old(self)@.func_name,
                li == old(self)@.ifidx,
                lf == old(self)@.foridx,
                self@.out == o + acc,
                store_args_spec(ns.take(i as int), vars@, f, li, lf) == Ok::<
                    (Seq<Seq<char>>, usize, usize),
                    CompileErrorV,
                >((acc, self@.ifidx, self@.foridx)),
            decreases args.len() - i,
        {
            proof {
                assert(ns.take(i + 1).drop_last() =~= ns.take(i as int));
                assert(ns.take(i + 1).last() == ns[i as int]);
            }
            let ghost s0 = self@;
            if i == 0 {
                self.emit_str("      mov x9, x0");
            }
            let ghost s1 = self@;
            match self.gen_addr(&args[i], vars) {
                Ok(()) => {},
                Err(e) => {
                    proof {
                        lemma_store_args_err(ns, i + 1, vars@, f, li, lf);
                    }
                    return Err(e);
                },
            }
            if i == 0 {
                self.emit_str("      str x9, [x0]");
            } else {
                self.emit_num_sfx("      str x", i, ", [x0]");
            }
            proof {
                let b = out_lines(gen_addr_spec(ns[i as int], vars@, f, s0.ifidx, s0.foridx));
                assert(s1.out == s0.out + (if i == 0 { seq!["      mov x9, x0"@] } else { seq![] }));
                if i == 0 {
                    acc = acc + seq!["      mov x9, x0"@] + b + seq!["      str x9, [x0]"@];
                } else {
                    acc = acc + b + seq!["      str x"@ + dec_nat(i as nat) + ", [x0]"@];
                }
                assert(self@.out =~= o + acc);
            }
            i += 1;
        }
        proof {
            assert(ns.take(args@.len() as int) =~= ns);
        }
        Ok(())
    }

    /// Emits the code of the defined function `f`, laying out its frame
    /// over `vars`.
    fn func_code(&mut self, f: &Function, vars: &mut Vec<Var>) -> (r: Result<(), CompileError>)
        requires
            fn_ok(*f, old(vars)@.len()),
        ensures
            final(vars)@.len() == old(vars)@.len(),
            match func_text(*f, old(vars)@, old(self)@.ifidx, old(self)@.foridx) {
                Ok((ls, vs, i, j)) => r is Ok && final(self)@ == (GenV {
                    out: old(self)@.out + ls,
                    ifidx: i,
                    foridx: j,
                    func_name: f.name@,
                }) && final(vars)@ == vs,
                Err(e) => r matches Err(x) && x@ == e,
            },
    {
        let ghost o = self@.out;
        self.func_name = f.name.clone();
        let end = lay_out_frame(&f.exited_scope, vars)?;
        if end > usize::MAX - 15 {
            return Err(abort("stack frame too large"));
        }
        let size = align_to(end, 16);
        self.emit_str(".text");
        self.emit_str(".align 2");
        self.emit_text(".global _", &f.name);
        self.emit_text_sfx("_", &f.name, ":");
        self.emit_num("      sub sp, sp, ", size);
        self.emit_str("      stp x29, x30, [sp]");
        self.emit_str("      mov x29, sp");
        let ghost s1 = self@;
        self.store_args(&f.args, vars)?;
        let ghost s2 = self@;
        match &f.body {
            Some(b) => {
                self.gen_stmt(b, vars)?;
            },
            None => {},
        }
        let ghost s3 = self@;
        self.emit_text_sfx("end.", &f.name, ":");
        self.emit_str("      ldp x29, x30, [sp]");
        self.emit_num("      add sp, sp, ", size);
        self.emit_str("      ret");
        proof {
            let name = f.name@;
            let sz = dec_nat(size as nat);
            let pro = seq![
                ".text"@,
                ".align 2"@,
                ".global _"@ + name,
                "_"@ + name + ":"@,
                "      sub sp, sp, "@ + sz,
                "      stp x29, x30, [sp]"@,
                "      mov x29, sp"@,
            ];
            let epi = seq![
                "end."@ + name + ":"@,
                "      ldp x29, x30, [sp]"@,
                "      add sp, sp, "@ + sz,
                "      ret"@,
            ];
            let ra = store_args_spec(nodesv(f.args@), vars@, name, old(self)@.ifidx, old(self)@.foridx);
            let rb: Emitted = match &f.body {
                Some(b) => gen_stmt_spec(b@, vars@, name, next_if(ra), next_for(ra)),
                None => Ok((seq![], next_if(ra), next_for(ra))),
            };
            assert(s1.out =~= o + pro);
            assert(s2.out == s1.out + out_lines(ra));
            assert(s3.out =~= s2.out + out_lines(rb));
            assert(self@.out =~= o + (pro + out_lines(ra) + out_lines(rb) + epi));
        }
        Ok(())
    }

    /// Emits the text section: the code of every defined function, in order.
    pub fn handle_text(&mut self, fs: &Vec<Function>, vars: &mut Vec<Var>) -> (r: Result<(), CompileError>)
        requires
            forall|i: int| 0 <= i < fs@.len() ==> fn_ok(#[trigger] fs@[i], old(vars)@.len()),
        ensures
            match text_spec(fs@, old(vars)@, old(self)@.ifidx, old(self)@.foridx) {
                Ok((ls, vs, i, j)) => r is Ok && final(self)@.out == old(self)@.out + ls && final(vars)@ == vs,
                Err(e) => r matches Err(x) && x@ == e,
            },
    {
        let ghost o = self@.out;
        let ghost v0 = vars@;
        let ghost li = self@.ifidx;
        let ghost lf = self@.foridx;
        let ghost mut acc: Seq<Seq<char>> = seq![];
        proof {
            assert(fs@.take(0) =~= Seq::<Function>::empty());
            assert(o + acc =~= o);
        }
        let mut i: usize = 0;
        while i < fs.len()
            invariant
                i <= fs@.len(),
                vars@.len() == v0.len(),
                forall|k: int| 0 <= k < fs@.len() ==> fn_ok(#[trigger] fs@[k], v0.len()),
                v0 == old(vars)@,
                li == old(self)@.ifidx,
                lf == old(self)@.foridx,
                o == old(self)@.out,
                self@.out == o + acc,
                text_spec(fs@.take(i as int), v0, li, lf) == Ok::<
                    (Seq<Seq<char>>, Seq<Var>, usize, usize),
                    CompileErrorV,
                >((acc, vars@, self@.ifidx, self@.foridx)),
            decreases fs.len() - i,
        {
            proof {
                assert(fs@.take(i + 1).drop_last() =~= fs@.take(i as int));
                assert(fs@.take(i + 1).last() == fs@[i as int]);
            }
            if fs[i].is_def {
                let ghost s0 = self@;
                let ghost vs0 = vars@;
                match self.func_code(&fs[i], vars) {
                    Ok(()) => {},
                    Err(e) => {
                        proof {
                            lemma_text_err(fs@, i + 1, v0, li, lf);
                        }
                        return Err(e);
                    },
                }
                proof {
                    acc = acc + text_lines(func_text(fs@[i as int], vs0, s0.ifidx, s0.foridx));
                    assert(self@.out =~= o + acc);
                }
            }
            i += 1;
        }
        proof {
            assert(fs@.take(fs@.len() as int) =~= fs@);
        }
        Ok(())
    }
}

/// An error in the code of some first functions is the error of the code of
/// all of them.
proof fn lemma_text_err(fs: Seq<Function>, k: int, vars: Seq<Var>, li: usize, lf: usize)
    requires
        0 <= k <= fs.len(),
        text_spec(fs.take(k), vars, li, lf) is Err,
    ensures
        text_spec(fs, vars, li, lf) == text_spec(fs.take(k), vars, li, lf),
    decreases fs.len() - k,
{
    if k < fs.len() {
        assert(fs.take(k + 1).drop_last() =~= fs.take(k));
        lemma_text_err(fs, k + 1, vars, li, lf);
    } else {
        assert(fs.take(k) =~= fs);
    }
}

/// The assembly program for a parsed context: its lines, as `codegen_spec`
/// says, or the error that stops code generation.
pub fn codegen(ctx: Ctx) -> (r: Result<Vec<String>, CompileError>)
    requires
        ctx_wf(ctx),
    ensures
        match codegen_spec(ctx) {
            Ok(ls) => r matches Ok(out) && linesv(out@) == ls,
            Err(e) => r matches Err(x) && x@ == e,
        },
{
    let mut g = Gen::new();
    g.handle_data(&ctx);
    let ghost c = ctx;
    let Ctx { functions, vars, .. } = ctx;
    let mut vars = vars;
    g.handle_text(&functions, &mut vars)?;
    proof {
        assert(g@.out =~= data_spec(c.gvars@, c.vars@) + match text_spec(c.functions@, c.vars@, 0, 0) {
            Ok((t, _, _, _)) => t,
            Err(_) => seq![],
        });
    }
    Ok(g.out)
}

} // verus!
