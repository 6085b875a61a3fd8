use jff::diag::CompileError;
use jff::types::{Ctx, Node, NodeKind, TypeKind};

fn parsed(src: &str) -> Ctx {
    let mut ctx = Ctx::new(src.chars().collect(), "shapes.c".to_string());
    ctx.parse().unwrap();
    ctx
}

fn main_body(ctx: &Ctx) -> &Vec<Node> {
    let f = ctx.functions.iter().find(|f| f.name == "main").unwrap();
    match &f.body.as_ref().unwrap().kind {
        NodeKind::Block { body } => body,
        _ => panic!("body is not a block"),
    }
}

fn expr_of(stmt: &Node) -> &Node {
    match &stmt.kind {
        NodeKind::ExprStmt { lhs } => lhs,
        other => panic!("not an expression statement: {:?}", other),
    }
}

fn var_named<'a>(ctx: &'a Ctx, name: &str) -> (usize, &'a jff::types::Var) {
    ctx.vars.iter().enumerate().find(|(_, v)| v.name == name).unwrap()
}

#[test]
fn empty_statements_and_literals() {
    let ctx = parsed("int main() { int; ; 7; return 8; }");
    let body = main_body(&ctx);
    assert_eq!(body.len(), 4);
    assert!(matches!(&body[0].kind, NodeKind::Block { body } if body.is_empty()));
    assert!(matches!(&body[1].kind, NodeKind::Block { body } if body.is_empty()));
    assert!(matches!(expr_of(&body[2]).kind, NodeKind::Num { val: 7 }));
    match &body[3].kind {
        NodeKind::Return { lhs } => assert!(matches!(lhs.kind, NodeKind::Num { val: 8 })),
        other => panic!("not a return: {:?}", other),
    }
}

#[test]
fn one_variable_declaration() {
    let ctx = parsed("int main() { int x; return 0; }");
    let body = main_body(&ctx);
    let (id, x) = var_named(&ctx, "x");
    assert!(x.is_local && !x.is_param);
    assert_eq!(x.ty.size, 4);
    match &body[0].kind {
        NodeKind::Block { body } => {
            assert_eq!(body.len(), 1);
            assert!(matches!(expr_of(&body[0]).kind, NodeKind::Var { var } if var == id));
        },
        other => panic!("not a block: {:?}", other),
    }
}

#[test]
fn binary_operators_pick_their_nodes() {
    let ctx = parsed("int main() { 1 < 2; 3 * 4; 5 - 6; 1 & 2; 1 || 0; 9 % 4; 2 != 3; }");
    let body = main_body(&ctx);
    assert!(matches!(expr_of(&body[0]).kind, NodeKind::Lt { .. }));
    assert!(matches!(expr_of(&body[1]).kind, NodeKind::Mul { .. }));
    assert!(matches!(expr_of(&body[2]).kind, NodeKind::Sub { .. }));
    assert!(matches!(expr_of(&body[3]).kind, NodeKind::BitAnd { .. }));
    assert!(expr_of(&body[3]).ty.is_none() || matches!(expr_of(&body[3]).ty.as_ref().unwrap().kind, TypeKind::Int));
    assert!(matches!(expr_of(&body[4]).kind, NodeKind::Or { .. }));
    assert!(matches!(expr_of(&body[5]).kind, NodeKind::Mod { .. }));
    assert!(matches!(expr_of(&body[6]).kind, NodeKind::Ne { .. }));
}

#[test]
fn call_without_arguments() {
    let ctx = parsed("int main() { f(); return 0; }");
    let body = main_body(&ctx);
    match &expr_of(&body[0]).kind {
        NodeKind::FuncCall { name, args } => {
            assert_eq!(name, "f");
            assert!(args.is_empty());
        },
        other => panic!("not a call: {:?}", other),
    }
    assert!(matches!(expr_of(&body[0]).ty.as_ref().unwrap().kind, TypeKind::Long));
}

#[test]
fn empty_member_lists() {
    let ctx = parsed("int main() { struct {} s; union {} u; enum {} e; return 0; }");
    let (_, s) = var_named(&ctx, "s");
    assert!(matches!(&s.ty.kind, TypeKind::Struct { members } if members.is_empty()));
    assert_eq!((s.ty.size, s.ty.align), (0, 0));
    let (_, u) = var_named(&ctx, "u");
    assert!(matches!(&u.ty.kind, TypeKind::Union { members } if members.is_empty()));
    assert_eq!((u.ty.size, u.ty.align), (0, 0));
    let (_, e) = var_named(&ctx, "e");
    assert!(matches!(&e.ty.kind, TypeKind::Enum { members } if members.is_empty()));
    assert_eq!((e.ty.size, e.ty.align), (4, 4));
}

#[test]
fn declarators_build_array_and_pointer_types() {
    let ctx = parsed("int main() { int a[2][3]; char **p; return sizeof(int *[4]); }");
    let (_, a) = var_named(&ctx, "a");
    assert_eq!(a.ty.size, 24);
    match &a.ty.kind {
        TypeKind::Array { ptr_to, len } => {
            assert_eq!(*len, 2);
            assert!(matches!(&ptr_to.kind, TypeKind::Array { len: 3, .. }));
        },
        other => panic!("not an array: {:?}", other),
    }
    let (_, p) = var_named(&ctx, "p");
    match &p.ty.kind {
        TypeKind::Ptr { ptr_to } => assert!(matches!(&ptr_to.kind, TypeKind::Ptr { .. })),
        other => panic!("not a pointer: {:?}", other),
    }
    let body = main_body(&ctx);
    match &body[2].kind {
        NodeKind::Return { lhs } => assert!(matches!(lhs.kind, NodeKind::Num { val: 32 })),
        other => panic!("not a return: {:?}", other),
    }
}

#[test]
fn unknown_struct_tag_is_refused() {
    let mut ctx = Ctx::new("int main() { struct s x; return 0; }".chars().collect(), "shapes.c".to_string());
    match ctx.parse() {
        Err(CompileError::AtToken { msg, .. }) => assert_eq!(msg, "unknown struct type"),
        other => panic!("unexpected: {:?}", other),
    }
}

#[test]
fn missing_member_is_refused() {
    let mut ctx = Ctx::new(
        "int main() { struct { int m; } v; v.z; return 0; }".chars().collect(),
        "shapes.c".to_string(),
    );
    match ctx.parse() {
        Err(CompileError::AtToken { msg, .. }) => assert_eq!(msg, "no such member"),
        other => panic!("unexpected: {:?}", other),
    }
}

#[test]
fn struct_member_access_is_typed_as_the_member() {
    let ctx = parsed("int main() { struct { char c; long l; } v; v.l; return 0; }");
    let body = main_body(&ctx);
    let e = expr_of(&body[1]);
    match &e.kind {
        NodeKind::Member { member, .. } => {
            assert_eq!(member.name, "l");
            assert_eq!(member.offset, 8);
        },
        other => panic!("not a member access: {:?}", other),
    }
    assert_eq!(e.ty.as_ref().unwrap().size, 8);
}

#[test]
fn enum_values_count_up_from_the_last_given() {
    let ctx = parsed("int main() { enum { A, B = 5, C, D = 1, E } x; return C + E; }");
    let (_, x) = var_named(&ctx, "x");
    match &x.ty.kind {
        TypeKind::Enum { members } => {
            let got: Vec<(String, isize)> = members.iter().map(|m| (m.name.clone(), m.val)).collect();
            let want: Vec<(String, isize)> =
                vec![("A".to_string(), 0), ("B".to_string(), 5), ("C".to_string(), 6), ("D".to_string(), 1), ("E".to_string(), 2)];
            assert_eq!(got, want);
        },
        other => panic!("not an enum: {:?}", other),
    }
}

#[test]
fn plain_struct_members_keep_their_order_and_types() {
    let ctx = parsed("int main() { struct { int a; char b; long c; } v; return 0; }");
    let (_, v) = var_named(&ctx, "v");
    match &v.ty.kind {
        TypeKind::Struct { members } => {
            let got: Vec<(String, usize)> = members.iter().map(|m| (m.name.clone(), m.ty.size)).collect();
            assert_eq!(got, vec![("a".to_string(), 4), ("b".to_string(), 1), ("c".to_string(), 8)]);
        },
        other => panic!("not a struct: {:?}", other),
    }
}

#[test]
fn call_with_number_arguments_keeps_their_order() {
    let ctx = parsed("int main() { return f(1, 2 3); }");
    let body = main_body(&ctx);
    match &body[0].kind {
        NodeKind::Return { lhs } => match &lhs.kind {
            NodeKind::FuncCall { name, args } => {
                assert_eq!(name, "f");
                let vals: Vec<isize> = args
                    .iter()
                    .map(|a| match a.kind {
                        NodeKind::Num { val } => val,
                        _ => panic!("not a number"),
                    })
                    .collect();
                assert_eq!(vals, vec![1, 2, 3]);
            },
            other => panic!("not a call: {:?}", other),
        },
        other => panic!("not a return: {:?}", other),
    }
}

#[test]
fn call_with_nine_arguments_is_refused() {
    let mut ctx = Ctx::new(
        "int main() { return f(1, 2, 3, 4, 5, 6, 7, 8, 9); }".chars().collect(),
        "shapes.c".to_string(),
    );
    match ctx.parse() {
        Err(CompileError::AtToken { msg, .. }) => {
            assert_eq!(msg, "too many arguments. 8 arguments are allowed at most")
        },
        other => panic!("unexpected: {:?}", other),
    }
}

#[test]
fn unary_operators_and_casts_on_numbers() {
    let ctx = parsed("int main() { -3; +4; (char)5; return 0; }");
    let body = main_body(&ctx);
    match &expr_of(&body[0]).kind {
        NodeKind::Neg { lhs } => assert!(matches!(lhs.kind, NodeKind::Num { val: 3 })),
        other => panic!("not a negation: {:?}", other),
    }
    assert!(matches!(expr_of(&body[1]).kind, NodeKind::Num { val: 4 }));
    let c = expr_of(&body[2]);
    match &c.kind {
        NodeKind::Cas { lhs } => assert!(matches!(lhs.kind, NodeKind::Num { val: 5 })),
        other => panic!("not a cast: {:?}", other),
    }
    assert!(matches!(c.ty.as_ref().unwrap().kind, TypeKind::Char));
}

#[test]
fn block_of_simple_statements() {
    let ctx = parsed("int main() { ; 5; return 6; }");
    let body = main_body(&ctx);
    assert_eq!(body.len(), 3);
    assert!(matches!(&body[0].kind, NodeKind::Block { body } if body.is_empty()));
    assert!(matches!(expr_of(&body[1]).kind, NodeKind::Num { val: 5 }));
    match &body[2].kind {
        NodeKind::Return { lhs } => assert!(matches!(lhs.kind, NodeKind::Num { val: 6 })),
        other => panic!("not a return: {:?}", other),
    }
}

#[test]
fn compound_assignment_is_assignment_of_the_operation() {
    let ctx = parsed("int main() { int a; a += 2; a -= 3; return sizeof(int); }");
    let body = main_body(&ctx);
    match &expr_of(&body[1]).kind {
        NodeKind::NdAssign { lhs, rhs } => {
            assert!(matches!(lhs.kind, NodeKind::Var { .. }));
            match &rhs.kind {
                NodeKind::Add { lhs: l, rhs: r } => {
                    assert!(matches!(l.kind, NodeKind::Var { .. }));
                    assert!(matches!(r.kind, NodeKind::Num { val: 2 }));
                },
                other => panic!("not a sum: {:?}", other),
            }
        },
        other => panic!("not an assignment: {:?}", other),
    }
    match &expr_of(&body[2]).kind {
        NodeKind::NdAssign { rhs, .. } => assert!(matches!(rhs.kind, NodeKind::Sub { .. })),
        other => panic!("not an assignment: {:?}", other),
    }
    match &body[3].kind {
        NodeKind::Return { lhs } => assert!(matches!(lhs.kind, NodeKind::Num { val: 4 })),
        other => panic!("not a return: {:?}", other),
    }
}

#[test]
fn prototype_records_its_parameters() {
    let ctx = parsed("int f(int a, char b); int main() { return 0; }");
    let f = ctx.functions.iter().find(|f| f.name == "f").unwrap();
    assert!(!f.is_def);
    assert!(f.body.is_none());
    assert_eq!(f.args.len(), 2);
    let (ia, a) = var_named(&ctx, "a");
    let (ib, b) = var_named(&ctx, "b");
    assert!(a.is_param && b.is_param);
    assert_eq!((a.ty.size, b.ty.size), (4, 1));
    assert!(matches!(f.args[0].kind, NodeKind::Var { var } if var == ia));
    assert!(matches!(f.args[1].kind, NodeKind::Var { var } if var == ib));
}

#[test]
fn number_conditions_keep_both_branches() {
    let ctx = parsed("int main() { if (1) return 2; else 3; while (0) ; return 0; }");
    let body = main_body(&ctx);
    match &body[0].kind {
        NodeKind::If { cond, then, els } => {
            assert!(matches!(cond.kind, NodeKind::Num { val: 1 }));
            match &then.kind {
                NodeKind::Return { lhs } => assert!(matches!(lhs.kind, NodeKind::Num { val: 2 })),
                other => panic!("not a return: {:?}", other),
            }
            let e = els.as_ref().unwrap();
            assert!(matches!(expr_of(e).kind, NodeKind::Num { val: 3 }));
        },
        other => panic!("not an if: {:?}", other),
    }
    match &body[1].kind {
        NodeKind::While { cond, body } => {
            assert!(matches!(cond.kind, NodeKind::Num { val: 0 }));
            assert!(matches!(&body.kind, NodeKind::Block { body } if body.is_empty()));
        },
        other => panic!("not a while: {:?}", other),
    }
}
