//! Constructors of syntax-tree nodes. Each builds the node and types it.
use vstd::prelude::*;
use crate::diag::{CompileError};
use crate::text::{string_of};
use crate::type_utils::{cast_nv, int_tv, long_tv, new_int_ty, new_long_ty, nvars_ok, res_nv, spec_add_type};
use crate::types::{Ctx, Function, Node, NodeKind, NodeKindV, NodeV, Token, Type, Var, nodesv, nodev, optnv};


verus! {

impl Ctx {
    /// A function named `name` returning `ty`, with one open scope to come
    /// (`scope_idx` is `-1` until `enter_scope`).
    pub fn create_func(&self, name: &str, ty: Type) -> (r: Function)
        ensures
            r.name@ == name@,
            r.args@.len() == 0,
            r.body is None,
            r.ty == ty,
            r.scopes@.len() == 0,
            r.scope_idx == -1,
            r.exited_scope@.len() == 0,
            r.is_def,
    {
        Function {
            name: crate::text::string_of(name),
            args: Vec::new(),
            body: None,
            ty,
            scopes: Vec::new(),
            scope_idx: -1,
            exited_scope: Vec::new(),
            is_def: true,
        }
    }

    pub fn new_if(&self, cond: Node, then: Node, els: Option<Node>) -> (r: Node)
        ensures
            r@ == (NodeV {
                kind: NodeKindV::If {
                    cond: Box::new(cond@),
                    then: Box::new(then@),
                    els: match els {
                        Some(e) => Some(Box::new(e@)),
                        None => None,
                    },
                },
                ty: None,
            }),
    {
        let els = match els {
            Some(e) => Some(Box::new(e)),
            None => None,
        };
        let ghost g = els;
        let r = Node { kind: NodeKind::If { cond: Box::new(cond), then: Box::new(then), els }, ty: None };
        proof {
            if let Some(e) = g {
                assert(optnv(g) == Some(Box::new(nodev(*e))));
            }
        }
        r
    }

    pub fn new_for(&self, init: Node, cond: Option<Node>, inc: Option<Node>, body: Node) -> (r:
        Node)
        ensures
            r@ == (NodeV {
                kind: NodeKindV::For {
                    init: Box::new(init@),
                    cond: match cond {
                        Some(e) => Some(Box::new(e@)),
                        None => None,
                    },
                    inc: match inc {
                        Some(e) => Some(Box::new(e@)),
                        None => None,
                    },
                    body: Box::new(body@),
                },
                ty: None,
            }),
    {
        let cond = match cond {
            Some(e) => Some(Box::new(e)),
            None => None,
        };
        let inc = match inc {
            Some(e) => Some(Box::new(e)),
            None => None,
        };
        let ghost gc = cond;
        let ghost gi = inc;
        let r = Node {
            kind: NodeKind::For { init: Box::new(init), cond, inc, body: Box::new(body) },
            ty: None,
        };
        proof {
            if let Some(e) = gc {
                assert(optnv(gc) == Some(Box::new(nodev(*e))));
            }
            if let Some(e) = gi {
                assert(optnv(gi) == Some(Box::new(nodev(*e))));
            }
        }
        r
    }

    pub fn new_while(&self, cond: Node, body: Node) -> (r: Node)
        ensures
            r@ == (NodeV {
                kind: NodeKindV::While { cond: Box::new(cond@), body: Box::new(body@) },
                ty: None,
            }),
    {
        Node { kind: NodeKind::While { cond: Box::new(cond), body: Box::new(body) }, ty: None }
    }

    pub fn new_block(&self, body: Vec<Node>) -> (r: Node)
        ensures
            r@ == (NodeV { kind: NodeKindV::Block { body: nodesv(body@) }, ty: None }),
    {
        Node { kind: NodeKind::Block { body }, ty: None }
    }

    /// The empty statement: a block with no statements.
    pub fn null_stmt(&self) -> (r: Node)
        ensures
            r@ == (NodeV { kind: NodeKindV::Block { body: Seq::empty() }, ty: None }),
    {
        let body: Vec<Node> = Vec::new();
        proof {
            assert(nodesv(body@) =~= Seq::empty());
        }
        Node { kind: NodeKind::Block { body }, ty: None }
    }

    /// An integer literal typed `int`.
    pub fn new_num(&self, val: isize) -> (r: Node)
        ensures
            r@ == (NodeV { kind: NodeKindV::Num { val }, ty: Some(int_tv()) }),
    {
        Node { kind: NodeKind::Num { val }, ty: Some(new_int_ty()) }
    }

    /// An integer literal typed `long`.
    pub fn new_long(&self, val: isize) -> (r: Node)
        ensures
            r@ == (NodeV { kind: NodeKindV::Num { val }, ty: Some(long_tv()) }),
    {
        Node { kind: NodeKind::Num { val }, ty: Some(new_long_ty()) }
    }

    /// A reference to the variable with index `var`, typed as that variable.
    pub fn new_var(&self, var: usize) -> (r: Node)
        requires
            var < self.vars@.len(),
        ensures
            r@ == (NodeV { kind: NodeKindV::Var { var }, ty: Some(self.vars@[var as int].ty@) }),
    {
        let ty = self.vars[var].ty.dup();
        Node { kind: NodeKind::Var { var }, ty: Some(ty) }
    }

    /// A conversion of `lhs` to `ty`.
    pub fn new_cast(&self, lhs: Node, ty: Type) -> (r: Node)
        ensures
            r@ == cast_nv(lhs@, ty@),
    {
        Node { kind: NodeKind::Cas { lhs: Box::new(lhs) }, ty: Some(ty) }
    }

    pub fn new_eq(&self, lhs: Node, rhs: Node) -> (r: Result<Node, CompileError>)
        requires
            nvars_ok(lhs@, self.vars@.len()),
            nvars_ok(rhs@, self.vars@.len()),
        ensures
            res_nv(r) == spec_add_type(
                NodeV {
                    kind: NodeKindV::Eq { lhs: Box::new(lhs@), rhs: Box::new(rhs@) },
                    ty: None,
                },
                self.vars@,
            ),
            r matches Ok(n) ==> nvars_ok(n@, self.vars@.len()),
    {
        let mut node = Node { kind: NodeKind::Eq { lhs: Box::new(lhs), rhs: Box::new(rhs) }, ty: None };
        match self.add_type(&mut node) {
            Ok(()) => Ok(node),
            Err(e) => Err(e),
        }
    }

    pub fn new_ne(&self, lhs: Node, rhs: Node) -> (r: Result<Node, CompileError>)
        requires
            nvars_ok(lhs@, self.vars@.len()),
            nvars_ok(rhs@, self.vars@.len()),
        ensures
            res_nv(r) == spec_add_type(
                NodeV {
                    kind: NodeKindV::Ne { lhs: Box::new(lhs@), rhs: Box::new(rhs@) },
                    ty: None,
                },
                self.vars@,
            ),
            r matches Ok(n) ==> nvars_ok(n@, self.vars@.len()),
    {
        let mut node = Node { kind: NodeKind::Ne { lhs: Box::new(lhs), rhs: Box::new(rhs) }, ty: None };
        match self.add_type(&mut node) {
            Ok(()) => Ok(node),
            Err(e) => Err(e),
        }
    }

    pub fn new_lt(&self, lhs: Node, rhs: Node) -> (r: Result<Node, CompileError>)
        requires
            nvars_ok(lhs@, self.vars@.len()),
            nvars_ok(rhs@, self.vars@.len()),
        ensures
            res_nv(r) == spec_add_type(
                NodeV {
                    kind: NodeKindV::Lt { lhs: Box::new(lhs@), rhs: Box::new(rhs@) },
                    ty: None,
                },
                self.vars@,
            ),
            r matches Ok(n) ==> nvars_ok(n@, self.vars@.len()),
    {
        let mut node = Node { kind: NodeKind::Lt { lhs: Box::new(lhs), rhs: Box::new(rhs) }, ty: None };
        match self.add_type(&mut node) {
            Ok(()) => Ok(node),
            Err(e) => Err(e),
        }
    }

    pub fn new_le(&self, lhs: Node, rhs: Node) -> (r: Result<Node, CompileError>)
        requires
            nvars_ok(lhs@, self.vars@.len()),
            nvars_ok(rhs@, self.vars@.len()),
        ensures
            res_nv(r) == spec_add_type(
                NodeV {
                    kind: NodeKindV::Le { lhs: Box::new(lhs@), rhs: Box::new(rhs@) },
                    ty: None,
                },
                self.vars@,
            ),
            r matches Ok(n) ==> nvars_ok(n@, self.vars@.len()),
    {
        let mut node = Node { kind: NodeKind::Le { lhs: Box::new(lhs), rhs: Box::new(rhs) }, ty: None };
        match self.add_type(&mut node) {
            Ok(()) => Ok(node),
            Err(e) => Err(e),
        }
    }

    pub fn new_gt(&self, lhs: Node, rhs: Node) -> (r: Result<Node, CompileError>)
        requires
            nvars_ok(lhs@, self.vars@.len()),
            nvars_ok(rhs@, self.vars@.len()),
        ensures
            res_nv(r) == spec_add_type(
                NodeV {
                    kind: NodeKindV::Gt { lhs: Box::new(lhs@), rhs: Box::new(rhs@) },
                    ty: None,
                },
                self.vars@,
            ),
            r matches Ok(n) ==> nvars_ok(n@, self.vars@.len()),
    {
        let mut node = Node { kind: NodeKind::Gt { lhs: Box::new(lhs), rhs: Box::new(rhs) }, ty: None };
        match self.add_type(&mut node) {
            Ok(()) => Ok(node),
            Err(e) => Err(e),
        }
    }

    pub fn new_ge(&self, lhs: Node, rhs: Node) -> (r: Result<Node, CompileError>)
        requires
            nvars_ok(lhs@, self.vars@.len()),
            nvars_ok(rhs@, self.vars@.len()),
        ensures
            res_nv(r) == spec_add_type(
                NodeV {
                    kind: NodeKindV::Ge { lhs: Box::new(lhs@), rhs: Box::new(rhs@) },
                    ty: None,
                },
                self.vars@,
            ),
            r matches Ok(n) ==> nvars_ok(n@, self.vars@.len()),
    {
        let mut node = Node { kind: NodeKind::Ge { lhs: Box::new(lhs), rhs: Box::new(rhs) }, ty: None };
        match self.add_type(&mut node) {
            Ok(()) => Ok(node),
            Err(e) => Err(e),
        }
    }

    pub fn new_and(&self, lhs: Node, rhs: Node) -> (r: Result<Node, CompileError>)
        requires
            nvars_ok(lhs@, self.vars@.len()),
            nvars_ok(rhs@, self.vars@.len()),
        ensures
            res_nv(r) == spec_add_type(
                NodeV {
                    kind: NodeKindV::And { lhs: Box::new(lhs@), rhs: Box::new(rhs@) },
                    ty: None,
                },
                self.vars@,
            ),
            r matches Ok(n) ==> nvars_ok(n@, self.vars@.len()),
    {
        let mut node = Node { kind: NodeKind::And { lhs: Box::new(lhs), rhs: Box::new(rhs) }, ty: None };
        match self.add_type(&mut node) {
            Ok(()) => Ok(node),
            Err(e) => Err(e),
        }
    }

    pub fn new_or(&self, lhs: Node, rhs: Node) -> (r: Result<Node, CompileError>)
        requires
            nvars_ok(lhs@, self.vars@.len()),
            nvars_ok(rhs@, self.vars@.len()),
        ensures
            res_nv(r) == spec_add_type(
                NodeV {
                    kind: NodeKindV::Or { lhs: Box::new(lhs@), rhs: Box::new(rhs@) },
                    ty: None,
                },
                self.vars@,
            ),
            r matches Ok(n) ==> nvars_ok(n@, self.vars@.len()),
    {
        let mut node = Node { kind: NodeKind::Or { lhs: Box::new(lhs), rhs: Box::new(rhs) }, ty: None };
        match self.add_type(&mut node) {
            Ok(()) => Ok(node),
            Err(e) => Err(e),
        }
    }

    pub fn new_mul(&self, lhs: Node, rhs: Node) -> (r: Result<Node, CompileError>)
        requires
            nvars_ok(lhs@, self.vars@.len()),
            nvars_ok(rhs@, self.vars@.len()),
        ensures
            res_nv(r) == spec_add_type(
                NodeV {
                    kind: NodeKindV::Mul { lhs: Box::new(lhs@), rhs: Box::new(rhs@) },
                    ty: None,
                },
                self.vars@,
            ),
            r matches Ok(n) ==> nvars_ok(n@, self.vars@.len()),
    {
        let mut node = Node { kind: NodeKind::Mul { lhs: Box::new(lhs), rhs: Box::new(rhs) }, ty: None };
        match self.add_type(&mut node) {
            Ok(()) => Ok(node),
            Err(e) => Err(e),
        }
    }

    pub fn new_div(&self, lhs: Node, rhs: Node) -> (r: Result<Node, CompileError>)
        requires
            nvars_ok(lhs@, self.vars@.len()),
            nvars_ok(rhs@, self.vars@.len()),
        ensures
            res_nv(r) == spec_add_type(
                NodeV {
                    kind: NodeKindV::Div { lhs: Box::new(lhs@), rhs: Box::new(rhs@) },
                    ty: None,
                },
                self.vars@,
            ),
            r matches Ok(n) ==> nvars_ok(n@, self.vars@.len()),
    {
        let mut node = Node { kind: NodeKind::Div { lhs: Box::new(lhs), rhs: Box::new(rhs) }, ty: None };
        match self.add_type(&mut node) {
            Ok(()) => Ok(node),
            Err(e) => Err(e),
        }
    }

    pub fn new_mod(&self, lhs: Node, rhs: Node) -> (r: Result<Node, CompileError>)
        requires
            nvars_ok(lhs@, self.vars@.len()),
            nvars_ok(rhs@, self.vars@.len()),
        ensures
            res_nv(r) == spec_add_type(
                NodeV {
                    kind: NodeKindV::Mod { lhs: Box::new(lhs@), rhs: Box::new(rhs@) },
                    ty: None,
                },
                self.vars@,
            ),
            r matches Ok(n) ==> nvars_ok(n@, self.vars@.len()),
    {
        let mut node = Node { kind: NodeKind::Mod { lhs: Box::new(lhs), rhs: Box::new(rhs) }, ty: None };
        match self.add_type(&mut node) {
            Ok(()) => Ok(node),
            Err(e) => Err(e),
        }
    }

    pub fn new_assign(&self, lhs: Node, rhs: Node) -> (r: Result<Node, CompileError>)
        requires
            nvars_ok(lhs@, self.vars@.len()),
            nvars_ok(rhs@, self.vars@.len()),
        ensures
            res_nv(r) == spec_add_type(
                NodeV {
                    kind: NodeKindV::NdAssign { lhs: Box::new(lhs@), rhs: Box::new(rhs@) },
                    ty: None,
                },
                self.vars@,
            ),
            r matches Ok(n) ==> nvars_ok(n@, self.vars@.len()),
    {
        let mut node = Node { kind: NodeKind::NdAssign { lhs: Box::new(lhs), rhs: Box::new(rhs) }, ty: None };
        match self.add_type(&mut node) {
            Ok(()) => Ok(node),
            Err(e) => Err(e),
        }
    }

    /// The node `lhs BitAnd rhs`; bitwise operators are left untyped.
    pub fn new_bit_and(&self, lhs: Node, rhs: Node) -> (r: Node)
        ensures
            r@ == (NodeV {
                kind: NodeKindV::BitAnd { lhs: Box::new(lhs@), rhs: Box::new(rhs@) },
                ty: None,
            }),
    {
        Node { kind: NodeKind::BitAnd { lhs: Box::new(lhs), rhs: Box::new(rhs) }, ty: None }
    }

    /// The node `lhs BitXor rhs`; bitwise operators are left untyped.
    pub fn new_bit_xor(&self, lhs: Node, rhs: Node) -> (r: Node)
        ensures
            r@ == (NodeV {
                kind: NodeKindV::BitXor { lhs: Box::new(lhs@), rhs: Box::new(rhs@) },
                ty: None,
            }),
    {
        Node { kind: NodeKind::BitXor { lhs: Box::new(lhs), rhs: Box::new(rhs) }, ty: None }
    }

    /// The node `lhs BitOr rhs`; bitwise operators are left untyped.
    pub fn new_bit_or(&self, lhs: Node, rhs: Node) -> (r: Node)
        ensures
            r@ == (NodeV {
                kind: NodeKindV::BitOr { lhs: Box::new(lhs@), rhs: Box::new(rhs@) },
                ty: None,
            }),
    {
        Node { kind: NodeKind::BitOr { lhs: Box::new(lhs), rhs: Box::new(rhs) }, ty: None }
    }

    pub fn new_neg(&self, lhs: Node) -> (r: Result<Node, CompileError>)
        requires
            nvars_ok(lhs@, self.vars@.len()),
        ensures
            res_nv(r) == spec_add_type(
                NodeV { kind: NodeKindV::Neg { lhs: Box::new(lhs@) }, ty: None },
                self.vars@,
            ),
            r matches Ok(n) ==> nvars_ok(n@, self.vars@.len()),
    {
        let mut node = Node { kind: NodeKind::Neg { lhs: Box::new(lhs) }, ty: None };
        match self.add_type(&mut node) {
            Ok(()) => Ok(node),
            Err(e) => Err(e),
        }
    }

    pub fn new_addr(&self, lhs: Node) -> (r: Result<Node, CompileError>)
        requires
            nvars_ok(lhs@, self.vars@.len()),
        ensures
            res_nv(r) == spec_add_type(
                NodeV { kind: NodeKindV::Addr { lhs: Box::new(lhs@) }, ty: None },
                self.vars@,
            ),
            r matches Ok(n) ==> nvars_ok(n@, self.vars@.len()),
    {
        let mut node = Node { kind: NodeKind::Addr { lhs: Box::new(lhs) }, ty: None };
        match self.add_type(&mut node) {
            Ok(()) => Ok(node),
            Err(e) => Err(e),
        }
    }

    pub fn new_expr_stmt(&self, lhs: Node) -> (r: Result<Node, CompileError>)
        requires
            nvars_ok(lhs@, self.vars@.len()),
        ensures
            res_nv(r) == spec_add_type(
                NodeV { kind: NodeKindV::ExprStmt { lhs: Box::new(lhs@) }, ty: None },
                self.vars@,
            ),
            r matches Ok(n) ==> nvars_ok(n@, self.vars@.len()),
    {
        let mut node = Node { kind: NodeKind::ExprStmt { lhs: Box::new(lhs) }, ty: None };
        match self.add_type(&mut node) {
            Ok(()) => Ok(node),
            Err(e) => Err(e),
        }
    }

    pub fn new_return(&self, lhs: Node) -> (r: Result<Node, CompileError>)
        requires
            nvars_ok(lhs@, self.vars@.len()),
        ensures
            res_nv(r) == spec_add_type(
                NodeV { kind: NodeKindV::Return { lhs: Box::new(lhs@) }, ty: None },
                self.vars@,
            ),
            r matches Ok(n) ==> nvars_ok(n@, self.vars@.len()),
    {
        let mut node = Node { kind: NodeKind::Return { lhs: Box::new(lhs) }, ty: None };
        match self.add_type(&mut node) {
            Ok(()) => Ok(node),
            Err(e) => Err(e),
        }
    }

    /// `*lhs`; `tok` is where a diagnostic points when `lhs` is not a pointer.
    pub fn new_deref(&self, lhs: Node, tok: Token) -> (r: Result<Node, CompileError>)
        requires
            nvars_ok(lhs@, self.vars@.len()),
        ensures
            res_nv(r) == spec_add_type(
                NodeV { kind: NodeKindV::Deref { lhs: Box::new(lhs@), tok: tok@ }, ty: None },
                self.vars@,
            ),
            r matches Ok(n) ==> nvars_ok(n@, self.vars@.len()),
    {
        let mut node = Node { kind: NodeKind::Deref { lhs: Box::new(lhs), tok }, ty: None };
        match self.add_type(&mut node) {
            Ok(()) => Ok(node),
            Err(e) => Err(e),
        }
    }
}

} // verus!
