use jff::codegen::codegen;
use jff::diag::CompileError;
use jff::types::{Ctx, TokenKind};

fn ctx_of(src: &str) -> Ctx {
    Ctx::new(src.chars().collect(), "test.c".to_string())
}

fn compile(src: &str) -> Result<Vec<String>, CompileError> {
    let mut ctx = ctx_of(src);
    ctx.parse()?;
    codegen(ctx)
}

fn lines(v: &[&str]) -> Vec<String> {
    v.iter().map(|s| s.to_string()).collect()
}

fn prologue(name: &str, size: usize) -> Vec<String> {
    vec![
        ".text".to_string(),
        ".align 2".to_string(),
        format!(".global _{}", name),
        format!("_{}:", name),
        format!("      sub sp, sp, {}", size),
        "      stp x29, x30, [sp]".to_string(),
        "      mov x29, sp".to_string(),
    ]
}

fn epilogue(name: &str, size: usize) -> Vec<String> {
    vec![
        format!("end.{}:", name),
        "      ldp x29, x30, [sp]".to_string(),
        format!("      add sp, sp, {}", size),
        "      ret".to_string(),
    ]
}

#[test]
fn return_constant() {
    let out = compile("int main() { return 42; }").unwrap();
    let mut want = prologue("main", 16);
    want.extend(lines(&["      mov x0, 42", "      b end.main"]));
    want.extend(epilogue("main", 16));
    assert_eq!(out, want);
}

#[test]
fn local_variable_assignment() {
    let out = compile("int main() { int a; a = 3; return a; }").unwrap();
    let mut want = prologue("main", 32);
    want.extend(lines(&[
        "      add x0, x29, 16",
        "      ldr w0, [x0]",
        "      add x0, x29, 16",
        "      str x0, [sp, -16]!  // push",
        "      mov x0, 3",
        "      ldr x1, [sp], 16 // pop",
        "      str w0, [x1]",
        "      add x0, x29, 16",
        "      ldr w0, [x0]",
        "      b end.main",
    ]));
    want.extend(epilogue("main", 32));
    assert_eq!(out, want);
}

#[test]
fn arithmetic_and_comparison() {
    // Both operands of `==` are converted to the left operand's type; a
    // conversion between equal types is an empty line.
    let out = compile("int main() { return 1 + 2 * 3 == 7; }").unwrap();
    let mut want = prologue("main", 16);
    want.extend(lines(&[
        "      mov x0, 1",
        "      str x0, [sp, -16]!  // push",
        "      mov x0, 2",
        "      str x0, [sp, -16]!  // push",
        "      mov x0, 3",
        "      ldr x1, [sp], 16 // pop",
        "      mul x0, x1, x0",
        "      ldr x1, [sp], 16 // pop",
        "      add x0, x1, x0",
        "",
        "      str x0, [sp, -16]!  // push",
        "      mov x0, 7",
        "",
        "      ldr x1, [sp], 16 // pop",
        "      cmp x0, x1",
        "      cset x0, eq",
        "      b end.main",
    ]));
    want.extend(epilogue("main", 16));
    assert_eq!(out, want);
}

#[test]
fn if_else_labels() {
    let out = compile("int main() { if (1) return 2; else return 3; }").unwrap();
    let mut want = prologue("main", 16);
    want.extend(lines(&[
        "      mov x0, 1",
        "      cmp x0, 1",
        "      b.ne else.0",
        "      mov x0, 2",
        "      b end.main",
        "      b endif.0",
        "else.0:",
        "      mov x0, 3",
        "      b end.main",
        "endif.0:",
    ]));
    want.extend(epilogue("main", 16));
    assert_eq!(out, want);
}

#[test]
fn while_loop_labels() {
    let out = compile("int main() { while (0) 1; return 0; }").unwrap();
    let mut want = prologue("main", 16);
    want.extend(lines(&[
        "startwhile.0:",
        "      mov x0, 0",
        "      cmp x0, 1",
        "      b.ne endwhile.0",
        "      mov x0, 1",
        "      b startwhile.0",
        "endwhile.0:",
        "      mov x0, 0",
        "      b end.main",
    ]));
    want.extend(epilogue("main", 16));
    assert_eq!(out, want);
}

#[test]
fn for_loop_labels() {
    let out = compile("int main() { for (;;) return 1; }").unwrap();
    let mut want = prologue("main", 16);
    want.extend(lines(&[
        "      b cond.0",
        "startfor.0:",
        "      mov x0, 1",
        "      b end.main",
        "cond.0:",
        "      b startfor.0",
        "endfor.0:",
    ]));
    want.extend(epilogue("main", 16));
    assert_eq!(out, want);
}

#[test]
fn function_call_arguments() {
    let out = compile("int main() { return f(1, 2); }").unwrap();
    let mut want = prologue("main", 16);
    want.extend(lines(&[
        "      mov x0, 1",
        "      str x0, [sp, -16]!  // push",
        "      mov x0, 2",
        "      str x0, [sp, -16]!  // push",
        "      ldr x1, [sp], 16 // pop for function arg",
        "      ldr x0, [sp], 16 // pop for function arg",
        "      bl _f",
        "      b end.main",
    ]));
    want.extend(epilogue("main", 16));
    assert_eq!(out, want);
}

#[test]
fn parameters_are_stored() {
    let out = compile("int add(int a, long b) { return a; }").unwrap();
    // a: int at 16, b: long at 24, end 32.
    let mut want = prologue("add", 32);
    want.extend(lines(&[
        "      mov x9, x0",
        "      add x0, x29, 16",
        "      str x9, [x0]",
        "      add x0, x29, 24",
        "      str x1, [x0]",
        "      add x0, x29, 16",
        "      ldr w0, [x0]",
        "      b end.add",
    ]));
    want.extend(epilogue("add", 32));
    assert_eq!(out, want);
}

#[test]
fn declaration_only_has_no_code() {
    let out = compile("int f(); int main() { return 0; }").unwrap();
    let mut want = prologue("main", 16);
    want.extend(lines(&["      mov x0, 0", "      b end.main"]));
    want.extend(epilogue("main", 16));
    assert_eq!(out, want);
}

#[test]
fn global_variables_and_strings() {
    let out = compile("int g; int main() { char *s; s = \"hi\"; return g; }").unwrap();
    let want_data = lines(&[
        ".data",
        ".global g",
        "g:",
        "      .zero 4",
        ".text",
        ".cstring",
        ".align 3",
        "lC1:",
        "      .asciz \"hi\"",
    ]);
    assert_eq!(out[..9].to_vec(), want_data);
    assert!(out.contains(&"      adrp x0, lC1@PAGE".to_string()));
    assert!(out.contains(&"      add x0, x0, g@PAGEOFF;".to_string()));
}

#[test]
fn pointer_arithmetic_scales() {
    let out = compile("int main() { int *p; return *(p + 2); }").unwrap();
    assert!(out.contains(&"      mov x0, 4".to_string()));
    assert!(out.contains(&"      mul x0, x1, x0".to_string()));
}

#[test]
fn struct_member_offsets() {
    let out = compile("int main() { struct { char a; int b; } x; return x.b; }").unwrap();
    // x: size 8 align 4 at 16; b at offset 4.
    assert!(out.contains(&"      add x0, x0, 4".to_string()));
    assert!(out.contains(&"      sub sp, sp, 32".to_string()));
}

#[test]
fn sizeof_types() {
    let out = compile("int main() { return sizeof(long) + sizeof(int); }").unwrap();
    assert!(out.contains(&"      mov x0, 8".to_string()));
    assert!(out.contains(&"      mov x0, 4".to_string()));
}

#[test]
fn enum_members_have_values() {
    let out = compile("int main() { enum { A, B = 5, C }; return C; }").unwrap();
    assert!(out.contains(&"      mov x0, 6".to_string()));
}

#[test]
fn cast_between_integers() {
    let out = compile("int main() { return (char)300; }").unwrap();
    assert!(out.contains(&"      sxtb w0, w0".to_string()));
}

#[test]
fn undefined_variable_is_reported() {
    match compile("int main() { return x; }") {
        Err(CompileError::AtToken { start, len, msg }) => {
            assert_eq!(start, 20);
            assert_eq!(len, 1);
            assert_eq!(msg, "undefined variable");
        }
        other => panic!("unexpected: {:?}", other),
    }
}

#[test]
fn missing_semicolon_is_reported() {
    match compile("int main() { return 1 }") {
        Err(CompileError::AtToken { start, len, msg }) => {
            assert_eq!(start, 22);
            assert_eq!(len, 1);
            assert_eq!(msg, "expected ';'");
        }
        other => panic!("unexpected: {:?}", other),
    }
}

#[test]
fn unterminated_comment_is_reported() {
    assert!(compile("int main() { /* open").is_err());
}

#[test]
fn invalid_character_is_reported() {
    match compile("int main() { return 1 ? 2 : 3; }") {
        Err(CompileError::AtInput { pos, msg }) => {
            assert_eq!(pos, 22);
            assert_eq!(msg, "invalid input: ?");
        }
        other => panic!("unexpected: {:?}", other),
    }
}

#[test]
fn tokens_of_source() {
    let mut ctx = ctx_of("a1 == 42; \"s\"");
    let toks = ctx.tokenize().unwrap();
    assert_eq!(toks.len(), 5);
    assert!(matches!(&toks[0].kind, TokenKind::Ident { name } if name == "a1"));
    assert!(matches!(&toks[1].kind, TokenKind::Punct { str } if str == "=="));
    assert!(matches!(&toks[2].kind, TokenKind::Num { val: 42 }));
    assert_eq!((toks[2].start, toks[2].len), (6, 2));
    assert!(matches!(&toks[3].kind, TokenKind::Punct { str } if str == ";"));
    assert!(matches!(&toks[4].kind, TokenKind::Str { str } if str == "s\0"));
}

#[test]
fn keywords_are_converted() {
    let mut ctx = ctx_of("int x return");
    let toks = ctx.tokenize().unwrap();
    ctx.tokens = toks;
    ctx.convert_keywords();
    assert!(matches!(&ctx.tokens[0].kind, TokenKind::Keyword { name } if name == "int"));
    assert!(matches!(&ctx.tokens[1].kind, TokenKind::Ident { name } if name == "x"));
    assert!(matches!(&ctx.tokens[2].kind, TokenKind::Keyword { name } if name == "return"));
}

#[test]
fn error_report_points_at_token() {
    let ctx = ctx_of("int a;\nint b = c;\n");
    let e = CompileError::AtToken { start: 15, len: 1, msg: "undefined variable".to_string() };
    let rep = ctx.report(&e);
    assert_eq!(
        rep,
        lines(&[
            "test.c:2: error",
            "",
            "|",
            "|int a;",
            "|int b = c;",
            "|        ^ undefined variable",
            "|",
            "",
        ])
    );
}

#[test]
fn input_error_report() {
    let ctx = ctx_of("a ? b");
    let e = CompileError::AtInput { pos: 2, msg: "invalid input: ?".to_string() };
    let rep = ctx.report(&e);
    assert_eq!(rep, lines(&["a ? b", "  ^", "jff_error: invalid input: ?"]));
}

#[test]
fn logical_and_takes_an_additive_operand() {
    // `&&` and `||` take an additive expression on their right, so a
    // comparison there is left over.
    match compile("int main() { return 6 && 7 < 8; }") {
        Err(CompileError::AtToken { msg, .. }) => assert_eq!(msg, "expected ';'"),
        other => panic!("unexpected: {:?}", other),
    }
    assert!(compile("int main() { return 6 && (7 < 8); }").is_ok());
}

#[test]
fn division_ends_a_term() {
    match compile("int main() { return 8 / 2 * 2; }") {
        Err(CompileError::AtToken { msg, .. }) => assert_eq!(msg, "expected ';'"),
        other => panic!("unexpected: {:?}", other),
    }
    let out = compile("int main() { return 2 * 8 / 2; }").unwrap();
    assert!(out.contains(&"      sdiv x0, x1, x0".to_string()));
}

#[test]
fn line_comment_runs_to_the_end_of_its_line() {
    assert!(compile("int main() { //\n return 1; }").is_ok());
    assert!(compile("int main() { // x\n return 1; }").is_ok());
    assert!(compile("int main() { return 1; } // the end").is_ok());
}

#[test]
fn end_of_input_is_reported() {
    match compile("int main() { return 1") {
        Err(CompileError::Abort { msg }) => assert_eq!(msg, "unexpected end of input"),
        other => panic!("unexpected: {:?}", other),
    }
}

#[test]
fn unknown_struct_tag_is_reported() {
    match compile("int main() { struct nope x; return 0; }") {
        Err(CompileError::AtToken { msg, .. }) => assert_eq!(msg, "unknown struct type"),
        other => panic!("unexpected: {:?}", other),
    }
}

#[test]
fn too_many_call_arguments_are_refused() {
    match compile("int main() { return f(1, 2, 3, 4, 5, 6, 7, 8, 9); }") {
        Err(CompileError::AtToken { msg, .. }) => {
            assert_eq!(msg, "too many arguments. 8 arguments are allowed at most")
        }
        other => panic!("unexpected: {:?}", other),
    }
}

#[test]
fn enum_member_of_outermost_scope_wins() {
    let out = compile("int main() { enum { A = 1 }; { enum { A = 2 }; return A; } }").unwrap();
    assert!(out.contains(&"      mov x0, 1".to_string()));
}

#[test]
fn typedef_names_a_type() {
    let out = compile("int main() { typedef long L; L x; return sizeof(x); }").unwrap();
    assert!(out.contains(&"      mov x0, 8".to_string()));
}

#[test]
fn array_subscript_scales_by_element_size() {
    let out = compile("int main() { long a[3]; return a[2]; }").unwrap();
    // a: 24 bytes at 16; a[2] is *(a + 2 * 8).
    assert!(out.contains(&"      sub sp, sp, 48".to_string()));
    assert!(out.contains(&"      mov x0, 8".to_string()));
}
