use jff::codegen::codegen;
use jff::layout::{align_to, struct_layout, union_layout};
use jff::type_utils::{new_char_ty, new_int_ty, new_long_ty, new_ptr_to, new_short};
use jff::types::{Ctx, Member, NodeKind, TypeKind};

/// A context in which the function `f` is being parsed, with one open scope.
fn ctx_in_function() -> Ctx {
    let mut ctx = Ctx::new("".chars().collect(), "t.c".to_string());
    let f = ctx.create_func("f", new_int_ty());
    ctx.functions.push(f);
    ctx.cur_func = "f".to_string();
    ctx.enter_scope().unwrap();
    ctx
}

fn member(name: &str, ty: jff::types::Type) -> Member {
    Member { name: name.to_string(), ty, offset: 0 }
}

#[test]
fn leave_scope_undoes_enter_scope() {
    let mut ctx = ctx_in_function();
    assert_eq!(ctx.functions[0].scopes.len(), 1);
    assert_eq!(ctx.functions[0].scope_idx, 0);
    ctx.enter_scope().unwrap();
    assert_eq!(ctx.functions[0].scopes.len(), 2);
    assert_eq!(ctx.functions[0].scope_idx, 1);
    ctx.leave_scope().unwrap();
    assert_eq!(ctx.functions[0].scopes.len(), 1);
    assert_eq!(ctx.functions[0].scope_idx, 0);
    assert_eq!(ctx.functions[0].exited_scope.len(), 1);
    assert!(ctx.functions[0].exited_scope[0].variables.is_empty());
}

#[test]
fn scopes_need_a_function() {
    let mut ctx = Ctx::new("".chars().collect(), "t.c".to_string());
    assert!(ctx.enter_scope().is_err());
    assert!(ctx.find_tag(&"s".to_string()).is_err());
}

#[test]
fn tag_is_found_after_declaration() {
    let mut ctx = ctx_in_function();
    assert!(ctx.find_tag(&"s".to_string()).unwrap().is_none());
    ctx.push_tag("s".to_string(), new_long_ty()).unwrap();
    let t = ctx.find_tag(&"s".to_string()).unwrap().unwrap();
    assert_eq!((t.size, t.align), (8, 8));
    // An inner scope's declaration hides the outer one.
    ctx.enter_scope().unwrap();
    ctx.push_tag("s".to_string(), new_char_ty()).unwrap();
    let t = ctx.find_tag(&"s".to_string()).unwrap().unwrap();
    assert_eq!(t.size, 1);
    ctx.leave_scope().unwrap();
    let t = ctx.find_tag(&"s".to_string()).unwrap().unwrap();
    assert_eq!(t.size, 8);
}

#[test]
fn redeclared_tag_in_same_scope_keeps_first() {
    let mut ctx = ctx_in_function();
    ctx.push_tag("s".to_string(), new_long_ty()).unwrap();
    ctx.push_tag("s".to_string(), new_char_ty()).unwrap();
    let t = ctx.find_tag(&"s".to_string()).unwrap().unwrap();
    assert_eq!(t.size, 8);
}

#[test]
fn local_variable_is_found_after_creation() {
    let mut ctx = ctx_in_function();
    let node = ctx.create_lvar("x".to_string(), new_int_ty(), false).unwrap();
    let id = match node.kind {
        NodeKind::Var { var } => var,
        _ => panic!("not a variable"),
    };
    assert_eq!(ctx.find_var(&"x".to_string()).unwrap(), Some(id));
    assert_eq!(ctx.find_var(&"y".to_string()).unwrap(), None);
    assert!(ctx.vars[id].is_local);
}

#[test]
fn parameters_are_limited_to_eight() {
    let mut ctx = ctx_in_function();
    ctx.consumed_tokens.clear();
    for i in 0..8 {
        ctx.create_lvar(format!("p{}", i), new_int_ty(), true).unwrap();
    }
    assert_eq!(ctx.functions[0].args.len(), 8);
    assert!(ctx.create_lvar("p8".to_string(), new_int_ty(), true).is_err());
}

#[test]
fn align_to_rounds_up_to_multiples() {
    assert_eq!(align_to(0, 8), 0);
    assert_eq!(align_to(1, 8), 8);
    assert_eq!(align_to(8, 8), 8);
    assert_eq!(align_to(9, 4), 12);
    assert_eq!(align_to(5, 0), 5);
    assert_eq!(align_to(17, 16), 32);
}

#[test]
fn struct_members_are_laid_out_in_order() {
    let mut ms = vec![
        member("a", new_char_ty()),
        member("b", new_int_ty()),
        member("c", new_short()),
        member("d", new_ptr_to(new_int_ty())),
    ];
    let (size, align) = struct_layout(&mut ms).unwrap();
    let offsets: Vec<usize> = ms.iter().map(|m| m.offset).collect();
    assert_eq!(offsets, vec![0, 4, 8, 16]);
    assert_eq!((size, align), (24, 8));
}

#[test]
fn empty_struct_has_size_zero() {
    let mut ms: Vec<Member> = Vec::new();
    assert_eq!(struct_layout(&mut ms).unwrap(), (0, 0));
}

#[test]
fn union_is_as_large_as_its_largest_member() {
    let ms = vec![member("a", new_char_ty()), member("b", new_long_ty()), member("c", new_short())];
    assert_eq!(union_layout(&ms).unwrap(), (8, 8));
    let ms = vec![member("a", new_char_ty()), member("b", new_short())];
    assert_eq!(union_layout(&ms).unwrap(), (2, 2));
}

#[test]
fn labels_are_never_shared() {
    let mut ctx = Ctx::new(
        "int main() { if (1) 1; if (2) 2; while (0) 0; for (;;) 0; return 0; }".chars().collect(),
        "t.c".to_string(),
    );
    ctx.parse().unwrap();
    let out = codegen(ctx).unwrap();
    for l in ["endif.0:", "endif.1:", "startwhile.0:", "startfor.1:", "endfor.1:"] {
        assert_eq!(out.iter().filter(|x| x.as_str() == l).count(), 1, "{}", l);
    }
}

#[test]
fn frame_offsets_do_not_overlap() {
    let mut ctx = Ctx::new(
        "int main() { char c; long l; short s; return 0; }".chars().collect(),
        "t.c".to_string(),
    );
    ctx.parse().unwrap();
    let out = codegen(ctx).unwrap();
    // c at 16, l at 24, s at 32; the frame ends at 34 and is rounded to 48.
    assert!(out.contains(&"      sub sp, sp, 48".to_string()));
    let mut ctx = Ctx::new(
        "int main() { char c; long l; short s; return c + l + s; }".chars().collect(),
        "t.c".to_string(),
    );
    ctx.parse().unwrap();
    let out = codegen(ctx).unwrap();
    for l in ["      add x0, x29, 16", "      add x0, x29, 24", "      add x0, x29, 32"] {
        assert!(out.contains(&l.to_string()), "{}", l);
    }
}

#[test]
fn struct_type_from_source() {
    let mut ctx = Ctx::new(
        "int main() { struct s { char a; long b; } x; return sizeof(x); }".chars().collect(),
        "t.c".to_string(),
    );
    ctx.parse().unwrap();
    let out = codegen(ctx).unwrap();
    assert!(out.contains(&"      mov x0, 16".to_string()));
    let _ = TypeKind::Int;
}

#[test]
fn every_scope_is_closed_after_parsing() {
    let mut ctx = Ctx::new(
        "int f(int a) { { int b; } for (int i = 0; i < 3; i = i + 1) { int c; } return a; } int g();"
            .chars()
            .collect(),
        "t.c".to_string(),
    );
    ctx.parse().unwrap();
    assert_eq!(ctx.functions.len(), 2);
    for f in &ctx.functions {
        assert!(f.scopes.is_empty());
        assert_eq!(f.scope_idx, -1);
    }
    // f: the block, the loop body, the loop, the body, the parameters.
    assert_eq!(ctx.functions[0].exited_scope.len(), 5);
    assert!(ctx.tokens.is_empty());
}

#[test]
fn pushes_and_pops_balance() {
    let mut ctx = Ctx::new(
        "int main() { int a; a = f(1 + 2, 3 * (4 - 5)) == 6 && (7 < 8); while (a) a = a - 1; return a; }"
            .chars()
            .collect(),
        "t.c".to_string(),
    );
    ctx.parse().unwrap();
    let out = codegen(ctx).unwrap();
    let pushes = out.iter().filter(|l| l.as_str() == "      str x0, [sp, -16]!  // push").count();
    let pops = out
        .iter()
        .filter(|l| l.as_str() == "      ldr x1, [sp], 16 // pop" || l.ends_with(", [sp], 16 // pop for function arg"))
        .count();
    assert!(pushes > 0);
    assert_eq!(pushes, pops);
}
