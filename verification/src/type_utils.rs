//! Type constructors, type predicates and the typing of syntax-tree nodes.
use vstd::prelude::*;
use crate::diag::{CompileError, CompileErrorV, abort, err_at};
use crate::types::{Ctx, Enum, Member, Node, NodeKind, NodeKindV, NodeV, Token, TokenV, Type, TypeKind, TypeKindV, TypeV, Var, dup_opt_type, lemma_nodesv_len, nodesv, tyv};


verus! {

pub open spec fn int_tv() -> TypeV {
    TypeV { kind: TypeKindV::Int, size: 4, align: 4 }
}

pub open spec fn short_tv() -> TypeV {
    TypeV { kind: TypeKindV::Short, size: 2, align: 2 }
}

pub open spec fn long_tv() -> TypeV {
    TypeV { kind: TypeKindV::Long, size: 8, align: 8 }
}

pub open spec fn char_tv() -> TypeV {
    TypeV { kind: TypeKindV::Char, size: 1, align: 1 }
}

pub open spec fn ptr_tv(t: TypeV) -> TypeV {
    TypeV { kind: TypeKindV::Ptr { ptr_to: Box::new(t) }, size: 8, align: 8 }
}

pub open spec fn array_tv(t: TypeV, len: usize) -> TypeV {
    TypeV {
        kind: TypeKindV::Array { ptr_to: Box::new(t), len },
        size: (t.size * len) as usize,
        align: t.align,
    }
}

/// The type of an arithmetic result: a pointer type when the left operand is
/// a pointer, `long` when either operand is eight bytes long, else `int`.
pub open spec fn common_tv(t1: TypeV, t2: TypeV) -> TypeV {
    match t1.kind {
        TypeKindV::Ptr { ptr_to } => ptr_tv(*ptr_to),
        _ => if t1.size == 8 || t2.size == 8 {
            long_tv()
        } else {
            int_tv()
        },
    }
}

pub open spec fn is_integer_tv(t: TypeV) -> bool {
    t.kind is Int || t.kind is Short || t.kind is Char || t.kind is Long || t.kind is Enum
}

pub open spec fn is_pointer_tv(t: TypeV) -> bool {
    t.kind is Ptr || t.kind is Array
}

/// The type that a pointer or array type points to.
pub open spec fn pointee_tv(t: TypeV) -> TypeV {
    match t.kind {
        TypeKindV::Ptr { ptr_to } => *ptr_to,
        TypeKindV::Array { ptr_to, .. } => *ptr_to,
        _ => t,
    }
}

pub fn new_ptr_to(ty: Type) -> (r: Type)
    ensures
        r@ == ptr_tv(ty@),
{
    Type { kind: TypeKind::Ptr { ptr_to: Box::new(ty) }, size: 8, align: 8 }
}

pub fn new_short() -> (r: Type)
    ensures
        r@ == short_tv(),
{
    Type { kind: TypeKind::Short, size: 2, align: 2 }
}

pub fn new_int_ty() -> (r: Type)
    ensures
        r@ == int_tv(),
{
    Type { kind: TypeKind::Int, size: 4, align: 4 }
}

pub fn new_long_ty() -> (r: Type)
    ensures
        r@ == long_tv(),
{
    Type { kind: TypeKind::Long, size: 8, align: 8 }
}

pub fn new_char_ty() -> (r: Type)
    ensures
        r@ == char_tv(),
{
    Type { kind: TypeKind::Char, size: 1, align: 1 }
}

/// An array of `len` elements of type `ty`.
pub fn new_array_ty(ty: Type, len: usize) -> (r: Type)
    requires
        ty.size * len <= usize::MAX,
    ensures
        r@ == array_tv(ty@, len),
{
    let size = ty.size * len;
    let align = ty.align;
    Type { kind: TypeKind::Array { ptr_to: Box::new(ty), len }, size, align }
}

pub fn get_common_type(ty1: Type, ty2: Type) -> (r: Type)
    ensures
        r@ == common_tv(ty1@, ty2@),
{
    match ty1.kind {
        TypeKind::Ptr { ptr_to } => {
            return new_ptr_to(*ptr_to);
        },
        _ => {},
    }
    if ty1.size == 8 || ty2.size == 8 {
        return new_long_ty();
    }
    new_int_ty()
}

pub fn is_integer_node(node: &Node) -> (r: bool)
    ensures
        r == (node.ty matches Some(t) && is_integer_tv(t@)),
{
    match &node.ty {
        Some(ty) => match ty.kind {
            TypeKind::Int | TypeKind::Short | TypeKind::Char | TypeKind::Long | TypeKind::Enum {
                ..
            } => true,
            _ => false,
        },
        None => false,
    }
}

pub fn is_pointer_node(node: &Node) -> (r: bool)
    ensures
        r == (node.ty matches Some(t) && is_pointer_tv(t@)),
{
    match &node.ty {
        Some(ty) => match ty.kind {
            TypeKind::Ptr { .. } | TypeKind::Array { .. } => true,
            _ => false,
        },
        None => false,
    }
}

pub fn is_integer(ty: &Type) -> (r: bool)
    ensures
        r == (ty@.kind is Int || ty@.kind is Short || ty@.kind is Long),
{
    match ty.kind {
        TypeKind::Int | TypeKind::Short | TypeKind::Long => true,
        _ => false,
    }
}

pub fn is_pointer(ty: &Type) -> (r: bool)
    ensures
        r == (ty@.kind is Ptr),
{
    match ty.kind {
        TypeKind::Ptr { .. } => true,
        _ => false,
    }
}

/// The size of what a pointer or array node points to.
pub fn get_pointer_or_array_size(node: &Node) -> (r: usize)
    requires
        node.ty matches Some(t) && is_pointer_tv(t@),
    ensures
        r == pointee_tv(node.ty->0@).size,
{
    match &node.ty {
        Some(ty) => match &ty.kind {
            TypeKind::Ptr { ptr_to } => {
                assert(tyv(**ptr_to).size == ptr_to.size);
                ptr_to.size
            },
            TypeKind::Array { ptr_to, .. } => {
                assert(tyv(**ptr_to).size == ptr_to.size);
                ptr_to.size
            },
            _ => 0,
        },
        None => 0,
    }
}

/// A copy of the node's type.
pub fn copy_type(node: &Node) -> (r: Type)
    requires
        node.ty is Some,
    ensures
        r@ == node.ty->0@,
{
    match &node.ty {
        Some(t) => t.dup(),
        None => new_int_ty(),
    }
}

/// A copy of the variable's type.
pub fn copy_var_type(var: &Var) -> (r: Type)
    ensures
        r@ == var.ty@,
{
    var.ty.dup()
}

//
// typing of nodes
//

/// Every variable that the node names is in a table of `nv` variables.
pub open spec fn nvars_ok(n: NodeV, nv: nat) -> bool
    decreases n,
{
    match n.kind {
        NodeKindV::Add { lhs, rhs } => nvars_ok(*lhs, nv) && nvars_ok(*rhs, nv),
        NodeKindV::Sub { lhs, rhs } => nvars_ok(*lhs, nv) && nvars_ok(*rhs, nv),
        NodeKindV::Mul { lhs, rhs } => nvars_ok(*lhs, nv) && nvars_ok(*rhs, nv),
        NodeKindV::Div { lhs, rhs } => nvars_ok(*lhs, nv) && nvars_ok(*rhs, nv),
        NodeKindV::Mod { lhs, rhs } => nvars_ok(*lhs, nv) && nvars_ok(*rhs, nv),
        NodeKindV::Neg { lhs } => nvars_ok(*lhs, nv),
        NodeKindV::Eq { lhs, rhs } => nvars_ok(*lhs, nv) && nvars_ok(*rhs, nv),
        NodeKindV::Ne { lhs, rhs } => nvars_ok(*lhs, nv) && nvars_ok(*rhs, nv),
        NodeKindV::Lt { lhs, rhs } => nvars_ok(*lhs, nv) && nvars_ok(*rhs, nv),
        NodeKindV::Le { lhs, rhs } => nvars_ok(*lhs, nv) && nvars_ok(*rhs, nv),
        NodeKindV::Gt { lhs, rhs } => nvars_ok(*lhs, nv) && nvars_ok(*rhs, nv),
        NodeKindV::Ge { lhs, rhs } => nvars_ok(*lhs, nv) && nvars_ok(*rhs, nv),
        NodeKindV::And { lhs, rhs } => nvars_ok(*lhs, nv) && nvars_ok(*rhs, nv),
        NodeKindV::Or { lhs, rhs } => nvars_ok(*lhs, nv) && nvars_ok(*rhs, nv),
        NodeKindV::ExprStmt { lhs } => nvars_ok(*lhs, nv),
        NodeKindV::Num { .. } => true,
        NodeKindV::NdAssign { lhs, rhs } => nvars_ok(*lhs, nv) && nvars_ok(*rhs, nv),
        NodeKindV::Var { var } => var < nv,
        NodeKindV::Return { lhs } => nvars_ok(*lhs, nv),
        NodeKindV::Block { body } => all_nvars_ok(body, nv),
        NodeKindV::If { cond, then, els } => nvars_ok(*cond, nv) && nvars_ok(*then, nv) && match els {
            Some(e) => nvars_ok(*e, nv),
            None => true,
        },
        NodeKindV::For { init, cond, inc, body } => nvars_ok(*init, nv) && nvars_ok(*body, nv)
            && match cond {
            Some(c) => nvars_ok(*c, nv),
            None => true,
        } && match inc {
            Some(c) => nvars_ok(*c, nv),
            None => true,
        },
        NodeKindV::While { cond, body } => nvars_ok(*cond, nv) && nvars_ok(*body, nv),
        NodeKindV::Addr { lhs } => nvars_ok(*lhs, nv),
        NodeKindV::Deref { lhs, .. } => nvars_ok(*lhs, nv),
        NodeKindV::FuncCall { args, .. } => all_nvars_ok(args, nv),
        NodeKindV::GNUStmtExpr { body } => all_nvars_ok(body, nv),
        NodeKindV::BitAnd { lhs, rhs } => nvars_ok(*lhs, nv) && nvars_ok(*rhs, nv),
        NodeKindV::BitXor { lhs, rhs } => nvars_ok(*lhs, nv) && nvars_ok(*rhs, nv),
        NodeKindV::BitOr { lhs, rhs } => nvars_ok(*lhs, nv) && nvars_ok(*rhs, nv),
        NodeKindV::Member { lhs, .. } => nvars_ok(*lhs, nv),
        NodeKindV::Cas { lhs } => nvars_ok(*lhs, nv),
    }
}

pub open spec fn all_nvars_ok(s: Seq<NodeV>, nv: nat) -> bool
    decreases s,
{
    if s.len() == 0 {
        true
    } else {
        nvars_ok(s[0], nv) && all_nvars_ok(s.drop_first(), nv)
    }
}

pub proof fn lemma_all_nvars_ok(s: Seq<NodeV>, nv: nat)
    ensures
        all_nvars_ok(s, nv) <==> forall|i: int| 0 <= i < s.len() ==> nvars_ok(#[trigger] s[i], nv),
    decreases s.len(),
{
    if s.len() > 0 {
        lemma_all_nvars_ok(s.drop_first(), nv);
        if forall|i: int| 0 <= i < s.len() ==> nvars_ok(#[trigger] s[i], nv) {
            assert forall|i: int| 0 <= i < s.drop_first().len() implies nvars_ok(
                #[trigger] s.drop_first()[i],
                nv,
            ) by {
                assert(s.drop_first()[i] == s[i + 1]);
            }
        }
        if all_nvars_ok(s, nv) {
            assert forall|i: int| 0 <= i < s.len() implies nvars_ok(#[trigger] s[i], nv) by {
                if i > 0 {
                    assert(s.drop_first()[i - 1] == s[i]);
                }
            }
        }
    }
}

pub proof fn lemma_nvars_ok_mono(n: NodeV, a: nat, b: nat)
    requires
        nvars_ok(n, a),
        a <= b,
    ensures
        nvars_ok(n, b),
    decreases n,
{
    match n.kind {
        NodeKindV::Add { lhs, rhs } | NodeKindV::Sub { lhs, rhs } | NodeKindV::Mul { lhs, rhs }
        | NodeKindV::Div { lhs, rhs } | NodeKindV::Mod { lhs, rhs } | NodeKindV::Eq { lhs, rhs }
        | NodeKindV::Ne { lhs, rhs } | NodeKindV::Lt { lhs, rhs } | NodeKindV::Le { lhs, rhs }
        | NodeKindV::Gt { lhs, rhs } | NodeKindV::Ge { lhs, rhs } | NodeKindV::And { lhs, rhs }
        | NodeKindV::Or { lhs, rhs } | NodeKindV::NdAssign { lhs, rhs } | NodeKindV::BitAnd {
            lhs,
            rhs,
        } | NodeKindV::BitXor { lhs, rhs } | NodeKindV::BitOr { lhs, rhs } => {
            lemma_nvars_ok_mono(*lhs, a, b);
            lemma_nvars_ok_mono(*rhs, a, b);
        },
        NodeKindV::Neg { lhs } | NodeKindV::ExprStmt { lhs } | NodeKindV::Return { lhs }
        | NodeKindV::Addr { lhs } | NodeKindV::Deref { lhs, .. } | NodeKindV::Member { lhs, .. }
        | NodeKindV::Cas { lhs } => {
            lemma_nvars_ok_mono(*lhs, a, b);
        },
        NodeKindV::Block { body } | NodeKindV::GNUStmtExpr { body } | NodeKindV::FuncCall {
            args: body,
            ..
        } => {
            lemma_all_nvars_ok_mono(body, a, b);
        },
        NodeKindV::If { cond, then, els } => {
            lemma_nvars_ok_mono(*cond, a, b);
            lemma_nvars_ok_mono(*then, a, b);
            if let Some(e) = els {
                lemma_nvars_ok_mono(*e, a, b);
            }
        },
        NodeKindV::For { init, cond, inc, body } => {
            lemma_nvars_ok_mono(*init, a, b);
            lemma_nvars_ok_mono(*body, a, b);
            if let Some(e) = cond {
                lemma_nvars_ok_mono(*e, a, b);
            }
            if let Some(e) = inc {
                lemma_nvars_ok_mono(*e, a, b);
            }
        },
        NodeKindV::While { cond, body } => {
            lemma_nvars_ok_mono(*cond, a, b);
            lemma_nvars_ok_mono(*body, a, b);
        },
        _ => {},
    }
}

pub proof fn lemma_all_nvars_ok_mono(s: Seq<NodeV>, a: nat, b: nat)
    requires
        all_nvars_ok(s, a),
        a <= b,
    ensures
        all_nvars_ok(s, b),
    decreases s,
{
    if s.len() > 0 {
        lemma_nvars_ok_mono(s[0], a, b);
        lemma_all_nvars_ok_mono(s.drop_first(), a, b);
    }
}

pub open spec fn no_type_err() -> CompileErrorV {
    CompileErrorV::Abort { msg: "no type information"@ }
}

pub open spec fn not_pointer_err(tok: TokenV) -> CompileErrorV {
    CompileErrorV::AtToken { start: tok.start, len: tok.len, msg: "not a pointer or array"@ }
}

pub open spec fn empty_stmt_expr_err() -> CompileErrorV {
    CompileErrorV::Abort { msg: "empty statement expression"@ }
}

/// A node that converts `n` to type `t`.
pub open spec fn cast_nv(n: NodeV, t: TypeV) -> NodeV {
    NodeV { kind: NodeKindV::Cas { lhs: Box::new(n) }, ty: Some(t) }
}

/// The type of an integer literal: `int` when the value fits 32 bits, else `long`.
pub open spec fn num_tv(val: isize) -> TypeV {
    if i32::MIN <= val <= i32::MAX {
        int_tv()
    } else {
        long_tv()
    }
}

pub open spec fn both_typed(
    l: Result<NodeV, CompileErrorV>,
    r: Result<NodeV, CompileErrorV>,
) -> Result<(NodeV, NodeV), CompileErrorV> {
    match l {
        Err(e) => Err(e),
        Ok(l) => match r {
            Err(e) => Err(e),
            Ok(r) => if l.ty is Some && r.ty is Some {
                Ok((l, r))
            } else {
                Err(no_type_err())
            },
        },
    }
}

pub open spec fn both_res(
    l: Result<NodeV, CompileErrorV>,
    r: Result<NodeV, CompileErrorV>,
) -> Result<(NodeV, NodeV), CompileErrorV> {
    match l {
        Err(e) => Err(e),
        Ok(l) => match r {
            Err(e) => Err(e),
            Ok(r) => Ok((l, r)),
        },
    }
}

pub open spec fn arith_ty(l: NodeV, r: NodeV) -> Option<TypeV> {
    Some(common_tv(l.ty->0, r.ty->0))
}

/// Comparison and logical operators convert both operands to the common
/// type of the left operand with itself, and have type `int`.
pub open spec fn conv_lhs_ty(l: NodeV) -> TypeV {
    common_tv(l.ty->0, l.ty->0)
}

/// What typing a node gives: the node with its type (and the types of the
/// operands it types first) filled in, or the error that stops it. A node
/// that already has a type is left as it is.
pub open spec fn spec_add_type(n: NodeV, vars: Seq<Var>) -> Result<NodeV, CompileErrorV>
    decreases n,
{
    if n.ty is Some {
        Ok(n)
    } else {
        match n.kind {
            NodeKindV::Add { lhs, rhs } => match both_typed(
                spec_add_type(*lhs, vars),
                spec_add_type(*rhs, vars),
            ) {
                Err(e) => Err(e),
                Ok((l, r)) => Ok(
                    NodeV {
                        kind: NodeKindV::Add { lhs: Box::new(l), rhs: Box::new(r) },
                        ty: arith_ty(l, r),
                    },
                ),
            },
            NodeKindV::Sub { lhs, rhs } => match both_typed(
                spec_add_type(*lhs, vars),
                spec_add_type(*rhs, vars),
            ) {
                Err(e) => Err(e),
                Ok((l, r)) => Ok(
                    NodeV {
                        kind: NodeKindV::Sub { lhs: Box::new(l), rhs: Box::new(r) },
                        ty: arith_ty(l, r),
                    },
                ),
            },
            NodeKindV::Mul { lhs, rhs } => match both_typed(
                spec_add_type(*lhs, vars),
                spec_add_type(*rhs, vars),
            ) {
                Err(e) => Err(e),
                Ok((l, r)) => Ok(
                    NodeV {
                        kind: NodeKindV::Mul { lhs: Box::new(l), rhs: Box::new(r) },
                        ty: arith_ty(l, r),
                    },
                ),
            },
            NodeKindV::Div { lhs, rhs } => match both_typed(
                spec_add_type(*lhs, vars),
                spec_add_type(*rhs, vars),
            ) {
                Err(e) => Err(e),
                Ok((l, r)) => Ok(
                    NodeV {
                        kind: NodeKindV::Div { lhs: Box::new(l), rhs: Box::new(r) },
                        ty: arith_ty(l, r),
                    },
                ),
            },
            NodeKindV::Mod { lhs, rhs } => match both_typed(
                spec_add_type(*lhs, vars),
                spec_add_type(*rhs, vars),
            ) {
                Err(e) => Err(e),
                Ok((l, r)) => Ok(
                    NodeV {
                        kind: NodeKindV::Mod { lhs: Box::new(l), rhs: Box::new(r) },
                        ty: arith_ty(l, r),
                    },
                ),
            },
            NodeKindV::NdAssign { lhs, rhs } => match both_res(
                spec_add_type(*lhs, vars),
                spec_add_type(*rhs, vars),
            ) {
                Err(e) => Err(e),
                Ok((l, r)) => Ok(
                    NodeV {
                        kind: NodeKindV::NdAssign { lhs: Box::new(l), rhs: Box::new(r) },
                        ty: l.ty,
                    },
                ),
            },
            NodeKindV::Eq { lhs, rhs } => if lhs.ty is Some {
                Ok(
                    NodeV {
                        kind: NodeKindV::Eq {
                            lhs: Box::new(cast_nv(*lhs, conv_lhs_ty(*lhs))),
                            rhs: Box::new(cast_nv(*rhs, conv_lhs_ty(*lhs))),
                        },
                        ty: Some(int_tv()),
                    },
                )
            } else {
                Err(no_type_err())
            },
            NodeKindV::Ne { lhs, rhs } => if lhs.ty is Some {
                Ok(
                    NodeV {
                        kind: NodeKindV::Ne {
                            lhs: Box::new(cast_nv(*lhs, conv_lhs_ty(*lhs))),
                            rhs: Box::new(cast_nv(*rhs, conv_lhs_ty(*lhs))),
                        },
                        ty: Some(int_tv()),
                    },
                )
            } else {
                Err(no_type_err())
            },
            NodeKindV::Lt { lhs, rhs } => if lhs.ty is Some {
                Ok(
                    NodeV {
                        kind: NodeKindV::Lt {
                            lhs: Box::new(cast_nv(*lhs, conv_lhs_ty(*lhs))),
                            rhs: Box::new(cast_nv(*rhs, conv_lhs_ty(*lhs))),
                        },
                        ty: Some(int_tv()),
                    },
                )
            } else {
                Err(no_type_err())
            },
            NodeKindV::Le { lhs, rhs } => if lhs.ty is Some {
                Ok(
                    NodeV {
                        kind: NodeKindV::Le {
                            lhs: Box::new(cast_nv(*lhs, conv_lhs_ty(*lhs))),
                            rhs: Box::new(cast_nv(*rhs, conv_lhs_ty(*lhs))),
                        },
                        ty: Some(int_tv()),
                    },
                )
            } else {
                Err(no_type_err())
            },
            NodeKindV::Gt { lhs, rhs } => if lhs.ty is Some {
                Ok(
                    NodeV {
                        kind: NodeKindV::Gt {
                            lhs: Box::new(cast_nv(*lhs, conv_lhs_ty(*lhs))),
                            rhs: Box::new(cast_nv(*rhs, conv_lhs_ty(*lhs))),
                        },
                        ty: Some(int_tv()),
                    },
                )
            } else {
                Err(no_type_err())
            },
            NodeKindV::Ge { lhs, rhs } => if lhs.ty is Some {
                Ok(
                    NodeV {
                        kind: NodeKindV::Ge {
                            lhs: Box::new(cast_nv(*lhs, conv_lhs_ty(*lhs))),
                            rhs: Box::new(cast_nv(*rhs, conv_lhs_ty(*lhs))),
                        },
                        ty: Some(int_tv()),
                    },
                )
            } else {
                Err(no_type_err())
            },
            NodeKindV::And { lhs, rhs } => if lhs.ty is Some {
                Ok(
                    NodeV {
                        kind: NodeKindV::And {
                            lhs: Box::new(cast_nv(*lhs, conv_lhs_ty(*lhs))),
                            rhs: Box::new(cast_nv(*rhs, conv_lhs_ty(*lhs))),
                        },
                        ty: Some(int_tv()),
                    },
                )
            } else {
                Err(no_type_err())
            },
            NodeKindV::Or { lhs, rhs } => if lhs.ty is Some {
                Ok(
                    NodeV {
                        kind: NodeKindV::Or {
                            lhs: Box::new(cast_nv(*lhs, conv_lhs_ty(*lhs))),
                            rhs: Box::new(cast_nv(*rhs, conv_lhs_ty(*lhs))),
                        },
                        ty: Some(int_tv()),
                    },
                )
            } else {
                Err(no_type_err())
            },
            NodeKindV::Num { val } => Ok(NodeV { kind: n.kind, ty: Some(num_tv(val)) }),
            NodeKindV::Var { var } => Ok(NodeV { kind: n.kind, ty: Some(vars[var as int].ty@) }),
            NodeKindV::Addr { lhs } => match spec_add_type(*lhs, vars) {
                Err(e) => Err(e),
                Ok(l) => Ok(
                    NodeV {
                        kind: NodeKindV::Addr { lhs: Box::new(l) },
                        ty: match l.ty {
                            Some(t) => Some(ptr_tv(t)),
                            None => None,
                        },
                    },
                ),
            },
            NodeKindV::Deref { lhs, tok } => match spec_add_type(*lhs, vars) {
                Err(e) => Err(e),
                Ok(l) => match l.ty {
                    None => Err(no_type_err()),
                    Some(t) => if is_pointer_tv(t) {
                        Ok(
                            NodeV {
                                kind: NodeKindV::Deref { lhs: Box::new(l), tok },
                                ty: Some(pointee_tv(t)),
                            },
                        )
                    } else {
                        Err(not_pointer_err(tok))
                    },
                },
            },
            NodeKindV::Neg { lhs } => match spec_add_type(*lhs, vars) {
                Err(e) => Err(e),
                Ok(l) => Ok(NodeV { kind: NodeKindV::Neg { lhs: Box::new(l) }, ty: l.ty }),
            },
            NodeKindV::Return { lhs } => match spec_add_type(*lhs, vars) {
                Err(e) => Err(e),
                Ok(l) => Ok(NodeV { kind: NodeKindV::Return { lhs: Box::new(l) }, ty: l.ty }),
            },
            NodeKindV::ExprStmt { lhs } => match spec_add_type(*lhs, vars) {
                Err(e) => Err(e),
                Ok(l) => Ok(NodeV { kind: NodeKindV::ExprStmt { lhs: Box::new(l) }, ty: l.ty }),
            },
            NodeKindV::GNUStmtExpr { body } => if body.len() == 0 {
                Err(empty_stmt_expr_err())
            } else {
                Ok(NodeV { kind: n.kind, ty: body.last().ty })
            },
            NodeKindV::Member { member, .. } => Ok(NodeV { kind: n.kind, ty: Some(member.ty) }),
            _ => Ok(n),
        }
    }
}

/// The view of a result that holds a node.
pub open spec fn res_nv(r: Result<Node, CompileError>) -> Result<NodeV, CompileErrorV> {
    match r {
        Ok(n) => Ok(n@),
        Err(e) => Err(e@),
    }
}

fn placeholder() -> (r: Node)
    ensures
        r@ == (NodeV { kind: NodeKindV::Num { val: 0 }, ty: None }),
{
    Node { kind: NodeKind::Num { val: 0 }, ty: None }
}

impl Ctx {
    /// Fills in the type of `node` and of the operands it depends on.
    pub fn add_type(&self, node: &mut Node) -> (r: Result<(), CompileError>)
        requires
            nvars_ok(old(node)@, self.vars@.len()),
        ensures
            match r {
                Ok(()) => spec_add_type(old(node)@, self.vars@) == Ok::<NodeV, CompileErrorV>(
                    final(node)@,
                ),
                Err(e) => spec_add_type(old(node)@, self.vars@) == Err::<NodeV, CompileErrorV>(
                    e@,
                ),
            },
            r is Ok ==> nvars_ok(final(node)@, self.vars@.len()),
    {
        let mut n = placeholder();
        std::mem::swap(&mut n, node);
        let t = self.typed(n);
        match t {
            Ok(t) => {
                *node = t;
                Ok(())
            },
            Err(e) => Err(e),
        }
    }

    fn typed_child(&self, b: Box<Node>, Ghost(parent): Ghost<Node>) -> (r: Result<Box<Node>, CompileError>)
        requires
            nvars_ok(b@, self.vars@.len()),
            decreases_to!(parent => *b),
        ensures
            match r {
                Ok(n) => spec_add_type(b@, self.vars@) == Ok::<NodeV, CompileErrorV>(n@)
                    && nvars_ok(n@, self.vars@.len()),
                Err(e) => spec_add_type(b@, self.vars@) == Err::<NodeV, CompileErrorV>(e@),
            },
        decreases parent, 0nat,
    {
        match self.typed(*b) {
            Ok(n) => Ok(Box::new(n)),
            Err(e) => Err(e),
        }
    }

    /// The node `n` with its type filled in (`add_type` on an owned node).
    fn typed(&self, n: Node) -> (r: Result<Node, CompileError>)
        requires
            nvars_ok(n@, self.vars@.len()),
        ensures
            res_nv(r) == spec_add_type(n@, self.vars@),
            r matches Ok(m) ==> nvars_ok(m@, self.vars@.len()),
        decreases n, 2nat,
    {
        if n.ty.is_some() {
            return Ok(n);
        }
        let ghost g = n;
        match n.kind {
            NodeKind::Add { lhs, rhs } => self.typed_add(lhs, rhs, Ghost(g)),
            NodeKind::Sub { lhs, rhs } => self.typed_sub(lhs, rhs, Ghost(g)),
            NodeKind::Mul { lhs, rhs } => self.typed_mul(lhs, rhs, Ghost(g)),
            NodeKind::Div { lhs, rhs } => self.typed_div(lhs, rhs, Ghost(g)),
            NodeKind::Mod { lhs, rhs } => self.typed_mod(lhs, rhs, Ghost(g)),
            NodeKind::NdAssign { lhs, rhs } => self.typed_assign(lhs, rhs, Ghost(g)),
            NodeKind::Eq { lhs, rhs } => self.typed_eq(lhs, rhs),
            NodeKind::Ne { lhs, rhs } => self.typed_ne(lhs, rhs),
            NodeKind::Lt { lhs, rhs } => self.typed_lt(lhs, rhs),
            NodeKind::Le { lhs, rhs } => self.typed_le(lhs, rhs),
            NodeKind::Gt { lhs, rhs } => self.typed_gt(lhs, rhs),
            NodeKind::Ge { lhs, rhs } => self.typed_ge(lhs, rhs),
            NodeKind::And { lhs, rhs } => self.typed_and(lhs, rhs),
            NodeKind::Or { lhs, rhs } => self.typed_or(lhs, rhs),
            NodeKind::Num { val } => Ok(self.typed_num(val)),
            NodeKind::Var { var } => Ok(self.typed_var(var)),
            NodeKind::Addr { lhs } => self.typed_addr(lhs, Ghost(g)),
            NodeKind::Deref { lhs, tok } => self.typed_deref(lhs, tok, Ghost(g)),
            NodeKind::Neg { lhs } => self.typed_neg(lhs, Ghost(g)),
            NodeKind::Return { lhs } => self.typed_return(lhs, Ghost(g)),
            NodeKind::ExprStmt { lhs } => self.typed_exprstmt(lhs, Ghost(g)),
            NodeKind::GNUStmtExpr { body } => self.typed_stmt_expr(body),
            NodeKind::Member { lhs, member } => Ok(self.typed_member(lhs, member)),
            kind => Ok(Node { kind, ty: None }),
        }
    }

    fn typed_add(&self, lhs: Box<Node>, rhs: Box<Node>, Ghost(parent): Ghost<Node>) -> (r: Result<Node, CompileError>)
        requires
            nvars_ok(lhs@, self.vars@.len()),
            decreases_to!(parent => *lhs),
            nvars_ok(rhs@, self.vars@.len()),
            decreases_to!(parent => *rhs),
        ensures
            res_nv(r) == spec_add_type(NodeV { kind: NodeKindV::Add { lhs: Box::new(lhs@), rhs: Box::new(rhs@) }, ty: None }, self.vars@),
            r matches Ok(m) ==> nvars_ok(m@, self.vars@.len()),
        decreases parent, 1nat,
    {
        let l = self.typed_child(lhs, Ghost(parent))?;
        let r = self.typed_child(rhs, Ghost(parent))?;
        if l.ty.is_none() || r.ty.is_none() {
            return Err(abort("no type information"));
        }
        let ty = get_common_type(copy_type(&l), copy_type(&r));
        Ok(Node { kind: NodeKind::Add { lhs: l, rhs: r }, ty: Some(ty) })
    }

    fn typed_sub(&self, lhs: Box<Node>, rhs: Box<Node>, Ghost(parent): Ghost<Node>) -> (r: Result<Node, CompileError>)
        requires
            nvars_ok(lhs@, self.vars@.len()),
            decreases_to!(parent => *lhs),
            nvars_ok(rhs@, self.vars@.len()),
            decreases_to!(parent => *rhs),
        ensures
            res_nv(r) == spec_add_type(NodeV { kind: NodeKindV::Sub { lhs: Box::new(lhs@), rhs: Box::new(rhs@) }, ty: None }, self.vars@),
            r matches Ok(m) ==> nvars_ok(m@, self.vars@.len()),
        decreases parent, 1nat,
    {
        let l = self.typed_child(lhs, Ghost(parent))?;
        let r = self.typed_child(rhs, Ghost(parent))?;
        if l.ty.is_none() || r.ty.is_none() {
            return Err(abort("no type information"));
        }
        let ty = get_common_type(copy_type(&l), copy_type(&r));
        Ok(Node { kind: NodeKind::Sub { lhs: l, rhs: r }, ty: Some(ty) })
    }

    fn typed_mul(&self, lhs: Box<Node>, rhs: Box<Node>, Ghost(parent): Ghost<Node>) -> (r: Result<Node, CompileError>)
        requires
            nvars_ok(lhs@, self.vars@.len()),
            decreases_to!(parent => *lhs),
            nvars_ok(rhs@, self.vars@.len()),
            decreases_to!(parent => *rhs),
        ensures
            res_nv(r) == spec_add_type(NodeV { kind: NodeKindV::Mul { lhs: Box::new(lhs@), rhs: Box::new(rhs@) }, ty: None }, self.vars@),
            r matches Ok(m) ==> nvars_ok(m@, self.vars@.len()),
        decreases parent, 1nat,
    {
        let l = self.typed_child(lhs, Ghost(parent))?;
        let r = self.typed_child(rhs, Ghost(parent))?;
        if l.ty.is_none() || r.ty.is_none() {
            return Err(abort("no type information"));
        }
        let ty = get_common_type(copy_type(&l), copy_type(&r));
        Ok(Node { kind: NodeKind::Mul { lhs: l, rhs: r }, ty: Some(ty) })
    }

    fn typed_div(&self, lhs: Box<Node>, rhs: Box<Node>, Ghost(parent): Ghost<Node>) -> (r: Result<Node, CompileError>)
        requires
            nvars_ok(lhs@, self.vars@.len()),
            decreases_to!(parent => *lhs),
            nvars_ok(rhs@, self.vars@.len()),
            decreases_to!(parent => *rhs),
        ensures
            res_nv(r) == spec_add_type(NodeV { kind: NodeKindV::Div { lhs: Box::new(lhs@), rhs: Box::new(rhs@) }, ty: None }, self.vars@),
            r matches Ok(m) ==> nvars_ok(m@, self.vars@.len()),
        decreases parent, 1nat,
    {
        let l = self.typed_child(lhs, Ghost(parent))?;
        let r = self.typed_child(rhs, Ghost(parent))?;
        if l.ty.is_none() || r.ty.is_none() {
            return Err(abort("no type information"));
        }
        let ty = get_common_type(copy_type(&l), copy_type(&r));
        Ok(Node { kind: NodeKind::Div { lhs: l, rhs: r }, ty: Some(ty) })
    }

    fn typed_mod(&self, lhs: Box<Node>, rhs: Box<Node>, Ghost(parent): Ghost<Node>) -> (r: Result<Node, CompileError>)
        requires
            nvars_ok(lhs@, self.vars@.len()),
            decreases_to!(parent => *lhs),
            nvars_ok(rhs@, self.vars@.len()),
            decreases_to!(parent => *rhs),
        ensures
            res_nv(r) == spec_add_type(NodeV { kind: NodeKindV::Mod { lhs: Box::new(lhs@), rhs: Box::new(rhs@) }, ty: None }, self.vars@),
            r matches Ok(m) ==> nvars_ok(m@, self.vars@.len()),
        decreases parent, 1nat,
    {
        let l = self.typed_child(lhs, Ghost(parent))?;
        let r = self.typed_child(rhs, Ghost(parent))?;
        if l.ty.is_none() || r.ty.is_none() {
            return Err(abort("no type information"));
        }
        let ty = get_common_type(copy_type(&l), copy_type(&r));
        Ok(Node { kind: NodeKind::Mod { lhs: l, rhs: r }, ty: Some(ty) })
    }

    fn typed_assign(&self, lhs: Box<Node>, rhs: Box<Node>, Ghost(parent): Ghost<Node>) -> (r: Result<Node, CompileError>)
        requires
            nvars_ok(lhs@, self.vars@.len()),
            decreases_to!(parent => *lhs),
            nvars_ok(rhs@, self.vars@.len()),
            decreases_to!(parent => *rhs),
        ensures
            res_nv(r) == spec_add_type(NodeV { kind: NodeKindV::NdAssign { lhs: Box::new(lhs@), rhs: Box::new(rhs@) }, ty: None }, self.vars@),
            r matches Ok(m) ==> nvars_ok(m@, self.vars@.len()),
        decreases parent, 1nat,
    {
        let l = self.typed_child(lhs, Ghost(parent))?;
        let r = self.typed_child(rhs, Ghost(parent))?;
        let ty = dup_opt_type(&l.ty);
        Ok(Node { kind: NodeKind::NdAssign { lhs: l, rhs: r }, ty })
    }

    fn typed_eq(&self, lhs: Box<Node>, rhs: Box<Node>) -> (r: Result<Node, CompileError>)
        requires
            nvars_ok(lhs@, self.vars@.len()),
            nvars_ok(rhs@, self.vars@.len()),
        ensures
            res_nv(r) == spec_add_type(NodeV { kind: NodeKindV::Eq { lhs: Box::new(lhs@), rhs: Box::new(rhs@) }, ty: None }, self.vars@),
            r matches Ok(m) ==> nvars_ok(m@, self.vars@.len()),
    {
        let (l, r) = self.conv_pair(lhs, rhs)?;
        Ok(Node { kind: NodeKind::Eq { lhs: l, rhs: r }, ty: Some(new_int_ty()) })
    }

    fn typed_ne(&self, lhs: Box<Node>, rhs: Box<Node>) -> (r: Result<Node, CompileError>)
        requires
            nvars_ok(lhs@, self.vars@.len()),
            nvars_ok(rhs@, self.vars@.len()),
        ensures
            res_nv(r) == spec_add_type(NodeV { kind: NodeKindV::Ne { lhs: Box::new(lhs@), rhs: Box::new(rhs@) }, ty: None }, self.vars@),
            r matches Ok(m) ==> nvars_ok(m@, self.vars@.len()),
    {
        let (l, r) = self.conv_pair(lhs, rhs)?;
        Ok(Node { kind: NodeKind::Ne { lhs: l, rhs: r }, ty: Some(new_int_ty()) })
    }

    fn typed_lt(&self, lhs: Box<Node>, rhs: Box<Node>) -> (r: Result<Node, CompileError>)
        requires
            nvars_ok(lhs@, self.vars@.len()),
            nvars_ok(rhs@, self.vars@.len()),
        ensures
            res_nv(r) == spec_add_type(NodeV { kind: NodeKindV::Lt { lhs: Box::new(lhs@), rhs: Box::new(rhs@) }, ty: None }, self.vars@),
            r matches Ok(m) ==> nvars_ok(m@, self.vars@.len()),
    {
        let (l, r) = self.conv_pair(lhs, rhs)?;
        Ok(Node { kind: NodeKind::Lt { lhs: l, rhs: r }, ty: Some(new_int_ty()) })
    }

    fn typed_le(&self, lhs: Box<Node>, rhs: Box<Node>) -> (r: Result<Node, CompileError>)
        requires
            nvars_ok(lhs@, self.vars@.len()),
            nvars_ok(rhs@, self.vars@.len()),
        ensures
            res_nv(r) == spec_add_type(NodeV { kind: NodeKindV::Le { lhs: Box::new(lhs@), rhs: Box::new(rhs@) }, ty: None }, self.vars@),
            r matches Ok(m) ==> nvars_ok(m@, self.vars@.len()),
    {
        let (l, r) = self.conv_pair(lhs, rhs)?;
        Ok(Node { kind: NodeKind::Le { lhs: l, rhs: r }, ty: Some(new_int_ty()) })
    }

    fn typed_gt(&self, lhs: Box<Node>, rhs: Box<Node>) -> (r: Result<Node, CompileError>)
        requires
            nvars_ok(lhs@, self.vars@.len()),
            nvars_ok(rhs@, self.vars@.len()),
        ensures
            res_nv(r) == spec_add_type(NodeV { kind: NodeKindV::Gt { lhs: Box::new(lhs@), rhs: Box::new(rhs@) }, ty: None }, self.vars@),
            r matches Ok(m) ==> nvars_ok(m@, self.vars@.len()),
    {
        let (l, r) = self.conv_pair(lhs, rhs)?;
        Ok(Node { kind: NodeKind::Gt { lhs: l, rhs: r }, ty: Some(new_int_ty()) })
    }

    fn typed_ge(&self, lhs: Box<Node>, rhs: Box<Node>) -> (r: Result<Node, CompileError>)
        requires
            nvars_ok(lhs@, self.vars@.len()),
            nvars_ok(rhs@, self.vars@.len()),
        ensures
            res_nv(r) == spec_add_type(NodeV { kind: NodeKindV::Ge { lhs: Box::new(lhs@), rhs: Box::new(rhs@) }, ty: None }, self.vars@),
            r matches Ok(m) ==> nvars_ok(m@, self.vars@.len()),
    {
        let (l, r) = self.conv_pair(lhs, rhs)?;
        Ok(Node { kind: NodeKind::Ge { lhs: l, rhs: r }, ty: Some(new_int_ty()) })
    }

    fn typed_and(&self, lhs: Box<Node>, rhs: Box<Node>) -> (r: Result<Node, CompileError>)
        requires
            nvars_ok(lhs@, self.vars@.len()),
            nvars_ok(rhs@, self.vars@.len()),
        ensures
            res_nv(r) == spec_add_type(NodeV { kind: NodeKindV::And { lhs: Box::new(lhs@), rhs: Box::new(rhs@) }, ty: None }, self.vars@),
            r matches Ok(m) ==> nvars_ok(m@, self.vars@.len()),
    {
        let (l, r) = self.conv_pair(lhs, rhs)?;
        Ok(Node { kind: NodeKind::And { lhs: l, rhs: r }, ty: Some(new_int_ty()) })
    }

    fn typed_or(&self, lhs: Box<Node>, rhs: Box<Node>) -> (r: Result<Node, CompileError>)
        requires
            nvars_ok(lhs@, self.vars@.len()),
            nvars_ok(rhs@, self.vars@.len()),
        ensures
            res_nv(r) == spec_add_type(NodeV { kind: NodeKindV::Or { lhs: Box::new(lhs@), rhs: Box::new(rhs@) }, ty: None }, self.vars@),
            r matches Ok(m) ==> nvars_ok(m@, self.vars@.len()),
    {
        let (l, r) = self.conv_pair(lhs, rhs)?;
        Ok(Node { kind: NodeKind::Or { lhs: l, rhs: r }, ty: Some(new_int_ty()) })
    }

    fn typed_num(&self, val: isize) -> (r: Node)
        ensures
            Ok::<NodeV, CompileErrorV>(r@) == spec_add_type(NodeV { kind: NodeKindV::Num { val }, ty: None }, self.vars@),
            nvars_ok(r@, self.vars@.len()),
    {
        let ty = if i32::MIN as isize <= val && val <= i32::MAX as isize {
            new_int_ty()
        } else {
            new_long_ty()
        };
        Node { kind: NodeKind::Num { val }, ty: Some(ty) }
    }

    fn typed_var(&self, var: usize) -> (r: Node)
        requires
            var < self.vars@.len(),
        ensures
            Ok::<NodeV, CompileErrorV>(r@) == spec_add_type(NodeV { kind: NodeKindV::Var { var }, ty: None }, self.vars@),
            nvars_ok(r@, self.vars@.len()),
    {
        let ty = self.vars[var].ty.dup();
        Node { kind: NodeKind::Var { var }, ty: Some(ty) }
    }

    fn typed_addr(&self, lhs: Box<Node>, Ghost(parent): Ghost<Node>) -> (r: Result<Node, CompileError>)
        requires
            nvars_ok(lhs@, self.vars@.len()),
            decreases_to!(parent => *lhs),
        ensures
            res_nv(r) == spec_add_type(NodeV { kind: NodeKindV::Addr { lhs: Box::new(lhs@) }, ty: None }, self.vars@),
            r matches Ok(m) ==> nvars_ok(m@, self.vars@.len()),
        decreases parent, 1nat,
    {
        let l = self.typed_child(lhs, Ghost(parent))?;
        let ty = match &l.ty {
            Some(t) => Some(new_ptr_to(t.dup())),
            None => None,
        };
        Ok(Node { kind: NodeKind::Addr { lhs: l }, ty })
    }

    fn typed_deref(&self, lhs: Box<Node>, tok: Token, Ghost(parent): Ghost<Node>) -> (r: Result<Node, CompileError>)
        requires
            nvars_ok(lhs@, self.vars@.len()),
            decreases_to!(parent => *lhs),
        ensures
            res_nv(r) == spec_add_type(NodeV { kind: NodeKindV::Deref { lhs: Box::new(lhs@), tok: tok@ }, ty: None }, self.vars@),
            r matches Ok(m) ==> nvars_ok(m@, self.vars@.len()),
        decreases parent, 1nat,
    {
        let l = self.typed_child(lhs, Ghost(parent))?;
        let ty = match &l.ty {
            Some(t) => match &t.kind {
                TypeKind::Ptr { ptr_to } => ptr_to.dup(),
                TypeKind::Array { ptr_to, .. } => ptr_to.dup(),
                _ => {
                    return Err(err_at(tok.start, tok.len, "not a pointer or array"));
                },
            },
            None => {
                return Err(abort("no type information"));
            },
        };
        Ok(Node { kind: NodeKind::Deref { lhs: l, tok }, ty: Some(ty) })
    }

    fn typed_neg(&self, lhs: Box<Node>, Ghost(parent): Ghost<Node>) -> (r: Result<Node, CompileError>)
        requires
            nvars_ok(lhs@, self.vars@.len()),
            decreases_to!(parent => *lhs),
        ensures
            res_nv(r) == spec_add_type(NodeV { kind: NodeKindV::Neg { lhs: Box::new(lhs@) }, ty: None }, self.vars@),
            r matches Ok(m) ==> nvars_ok(m@, self.vars@.len()),
        decreases parent, 1nat,
    {
        let l = self.typed_child(lhs, Ghost(parent))?;
        let ty = dup_opt_type(&l.ty);
        Ok(Node { kind: NodeKind::Neg { lhs: l }, ty })
    }

    fn typed_return(&self, lhs: Box<Node>, Ghost(parent): Ghost<Node>) -> (r: Result<Node, CompileError>)
        requires
            nvars_ok(lhs@, self.vars@.len()),
            decreases_to!(parent => *lhs),
        ensures
            res_nv(r) == spec_add_type(NodeV { kind: NodeKindV::Return { lhs: Box::new(lhs@) }, ty: None }, self.vars@),
            r matches Ok(m) ==> nvars_ok(m@, self.vars@.len()),
        decreases parent, 1nat,
    {
        let l = self.typed_child(lhs, Ghost(parent))?;
        let ty = dup_opt_type(&l.ty);
        Ok(Node { kind: NodeKind::Return { lhs: l }, ty })
    }

    fn typed_exprstmt(&self, lhs: Box<Node>, Ghost(parent): Ghost<Node>) -> (r: Result<Node, CompileError>)
        requires
            nvars_ok(lhs@, self.vars@.len()),
            decreases_to!(parent => *lhs),
        ensures
            res_nv(r) == spec_add_type(NodeV { kind: NodeKindV::ExprStmt { lhs: Box::new(lhs@) }, ty: None }, self.vars@),
            r matches Ok(m) ==> nvars_ok(m@, self.vars@.len()),
        decreases parent, 1nat,
    {
        let l = self.typed_child(lhs, Ghost(parent))?;
        let ty = dup_opt_type(&l.ty);
        Ok(Node { kind: NodeKind::ExprStmt { lhs: l }, ty })
    }

    fn typed_stmt_expr(&self, body: Vec<Node>) -> (r: Result<Node, CompileError>)
        requires
            all_nvars_ok(nodesv(body@), self.vars@.len()),
        ensures
            res_nv(r) == spec_add_type(NodeV { kind: NodeKindV::GNUStmtExpr { body: nodesv(body@) }, ty: None }, self.vars@),
            r matches Ok(m) ==> nvars_ok(m@, self.vars@.len()),
    {
        if body.len() == 0 {
            proof {
                assert(nodesv(body@) =~= Seq::empty());
            }
            return Err(abort("empty statement expression"));
        }
        let ty = dup_opt_type(&body[body.len() - 1].ty);
        proof {
            lemma_nodesv_len(body@);
        }
        Ok(Node { kind: NodeKind::GNUStmtExpr { body }, ty })
    }

    fn typed_member(&self, lhs: Box<Node>, member: Member) -> (r: Node)
        requires
            nvars_ok(lhs@, self.vars@.len()),
        ensures
            Ok::<NodeV, CompileErrorV>(r@) == spec_add_type(NodeV { kind: NodeKindV::Member { lhs: Box::new(lhs@), member: member@ }, ty: None }, self.vars@),
            nvars_ok(r@, self.vars@.len()),
    {
        let ty = member.ty.dup();
        Node { kind: NodeKind::Member { lhs, member }, ty: Some(ty) }
    }

    /// Typing of a comparison's operands: both are converted to the common
    /// type of the left operand with itself.
    fn conv_pair(&self, lhs: Box<Node>, rhs: Box<Node>) -> (r: Result<
        (Box<Node>, Box<Node>),
        CompileError,
    >)
        requires
            nvars_ok(lhs@, self.vars@.len()),
            nvars_ok(rhs@, self.vars@.len()),
        ensures
            r matches Ok((l, r)) ==> nvars_ok(l@, self.vars@.len()) && nvars_ok(r@, self.vars@.len()),
            match r {
                Ok((l, r)) => lhs.ty is Some && l@ == cast_nv(lhs@, conv_lhs_ty(lhs@)) && r@
                    == cast_nv(rhs@, conv_lhs_ty(lhs@)),
                Err(e) => lhs.ty is None && e@ == no_type_err(),
            },
    {
        let mut l = *lhs;
        let mut r = *rhs;
        match self.usual_arith_conv(&mut l, &mut r) {
            Ok(()) => Ok((Box::new(l), Box::new(r))),
            Err(e) => Err(e),
        }
    }

    /// Converts both operands to the common type of the left operand with
    /// itself.
    pub fn usual_arith_conv(&self, lhs: &mut Node, rhs: &mut Node) -> (r: Result<(), CompileError>)
        ensures
            match r {
                Ok(()) => old(lhs).ty is Some && final(lhs)@ == cast_nv(
                    old(lhs)@,
                    conv_lhs_ty(old(lhs)@),
                ) && final(rhs)@ == cast_nv(old(rhs)@, conv_lhs_ty(old(lhs)@)),
                Err(e) => old(lhs).ty is None && e@ == no_type_err(),
            },
    {
        if lhs.ty.is_none() {
            return Err(abort("no type information"));
        }
        let ty = get_common_type(copy_type(lhs), copy_type(lhs));
        let mut l = placeholder();
        std::mem::swap(&mut l, lhs);
        let mut r = placeholder();
        std::mem::swap(&mut r, rhs);
        *lhs = self.new_cast(l, ty.dup());
        *rhs = self.new_cast(r, ty);
        Ok(())
    }
}

} // verus!
