//! What the tokenizer, the type rules, pointer arithmetic and the data
//! section mean, stated over all inputs and proved from the contracts of the
//! operations.
use vstd::prelude::*;
use crate::codegen::data_lines;
use crate::machine::{mag, trunc_div};
use crate::diag::CompileErrorV;
use crate::parse::{add_spec, int_nv, lit_nv, ptr_nv, sub_spec};
use crate::text::{dec_nat, digit_char};
use crate::tokenize::{cons_tok, digits_end, digits_val, is_digit, lex_from};
use crate::type_utils::{common_tv, int_tv, is_integer_tv, long_tv, num_tv, pointee_tv, spec_add_type};
use crate::types::{NodeKindV, NodeV, Token, TokenKindV, TokenV, TypeKindV, TypeV, Var};

verus! {

/// The two-character operators of the language.
pub open spec fn two_char_operators() -> Seq<Seq<char>> {
    seq![
        "=="@, "!="@, "<="@, ">="@, "&&"@, "||"@, "+="@, "-="@, "*="@, "/="@, "%="@, "&="@, "^="@,
        "|="@, "->"@, "++"@, "--"@,
    ]
}

/// Where the source holds a two-character operator, the tokenizer reads it as
/// one punctuator token of length two at that position, and goes on after it.
pub proof fn law_two_char_operator_is_one_token(s: Seq<char>, p: nat, k: int)
    requires
        0 <= k < two_char_operators().len(),
        p + 2 <= s.len(),
        s.subrange(p as int, p + 2int) == two_char_operators()[k],
    ensures
        lex_from(s, p) == cons_tok(
            TokenV { kind: TokenKindV::Punct { str: two_char_operators()[k] }, start: p as usize, len: 2 },
            lex_from(s, p + 2),
        ),
{
    reveal_strlit("==");
    reveal_strlit("!=");
    reveal_strlit("<=");
    reveal_strlit(">=");
    reveal_strlit("&&");
    reveal_strlit("||");
    reveal_strlit("+=");
    reveal_strlit("-=");
    reveal_strlit("*=");
    reveal_strlit("/=");
    reveal_strlit("%=");
    reveal_strlit("&=");
    reveal_strlit("^=");
    reveal_strlit("|=");
    reveal_strlit("->");
    reveal_strlit("++");
    reveal_strlit("--");
    let op = two_char_operators()[k];
    let w = s.subrange(p as int, p + 2int);
    assert(w[0] == s[p as int] && w[1] == s[p + 1int]);
    assert(op.len() == 2);
    assert(seq![s[p as int], s[p + 1int]] =~= op);
}

/// An integer type of one of the language's widths: 1, 2, 4 or 8 bytes.
pub open spec fn int_width_ok(t: TypeV) -> bool {
    is_integer_tv(t) && (t.size == 1 || t.size == 2 || t.size == 4 || t.size == 8)
}

/// Arithmetic on two integers never narrows: the result type is at least as
/// wide as either operand; it is `long` exactly when either operand is eight
/// bytes long, and `int` (four bytes) otherwise.
pub proof fn law_common_type_never_narrows(t1: TypeV, t2: TypeV)
    requires
        int_width_ok(t1),
        int_width_ok(t2),
    ensures
        common_tv(t1, t2).size >= t1.size,
        common_tv(t1, t2).size >= t2.size,
        is_integer_tv(common_tv(t1, t2)),
        (common_tv(t1, t2).kind is Long) == (t1.size == 8 || t2.size == 8),
        !(t1.size == 8 || t2.size == 8) ==> common_tv(t1, t2).kind is Int && common_tv(t1, t2).size == 4,
        common_tv(t1, t2) == common_tv(t2, t1),
{
}

pub open spec fn all_digits(d: Seq<char>) -> bool {
    forall|i: int| 0 <= i < d.len() ==> is_digit(#[trigger] d[i])
}

/// The bytes that one data-section line reserves: `n` for a zero-fill
/// directive `.zero n` with `n` in decimal, none for any other line.
pub open spec fn zero_fill(l: Seq<char>) -> nat {
    if l.len() > 12 && l.subrange(0, 12) == "      .zero "@ && all_digits(l.skip(12)) {
        digits_val(l.skip(12))
    } else {
        0
    }
}

/// The bytes that data-section lines reserve together.
pub open spec fn reserved(ls: Seq<Seq<char>>) -> nat
    decreases ls.len(),
{
    if ls.len() == 0 {
        0
    } else {
        reserved(ls.drop_last()) + zero_fill(ls.last())
    }
}

/// Decimal text reads back as the number it was written from.
pub proof fn lemma_dec_nat_reads_back(n: nat)
    ensures
        all_digits(dec_nat(n)),
        digits_val(dec_nat(n)) == n,
    decreases n,
{
    assert(is_digit(digit_char(n % 10)));
    assert((digit_char(n % 10) as u32) - 48 == n % 10);
    if n >= 10 {
        lemma_dec_nat_reads_back(n / 10);
        let d = dec_nat(n);
        assert(d.drop_last() =~= dec_nat(n / 10));
        assert(d.last() == digit_char(n % 10));
        assert(n == (n / 10) * 10 + n % 10) by (nonlinear_arith);
        assert(digits_val(d) == digits_val(d.drop_last()) * 10 + ((d.last() as u32) - 48) as nat);
        assert forall|i: int| 0 <= i < d.len() implies is_digit(#[trigger] d[i]) by {
            if i < d.len() - 1 {
                assert(d[i] == dec_nat(n / 10)[i]);
            }
        }
    } else {
        let d = dec_nat(n);
        assert(d.drop_last() =~= Seq::<char>::empty());
        assert(d.last() == digit_char(n));
        assert(digits_val(d) == digits_val(d.drop_last()) * 10 + ((d.last() as u32) - 48) as nat);
        assert(digits_val(d.drop_last()) == 0);
    }
}

/// An uninitialised global variable is given zeroed storage of exactly the
/// size of its type: the data lines emitted for it reserve `size` bytes.
pub proof fn law_global_storage_is_its_size(v: Var)
    requires
        v.init_gval is None,
        v.name@.len() > 0,
        v.name@[0] != ' ',
    ensures
        reserved(data_lines(v)) == v.ty.size,
{
    reveal_strlit("      .zero ");
    reveal_strlit(".data");
    reveal_strlit(".global ");
    reveal_strlit(":");
    let ls = data_lines(v);
    let n = v.ty.size as nat;
    let z = "      .zero "@ + dec_nat(n);
    lemma_dec_nat_reads_back(n);
    assert(z.subrange(0, 12) =~= "      .zero "@);
    assert(z.skip(12) =~= dec_nat(n));
    crate::text::lemma_dec_nat_len(n);
    assert(zero_fill(z) == n);
    let l0 = ".data"@;
    let l1 = ".global "@ + v.name@;
    let l2 = v.name@ + ":"@;
    if l1.len() > 12 {
        assert(l1.subrange(0, 12)[0] == l1[0]);
        assert(l1[0] != "      .zero "@[0]);
    }
    if l2.len() > 12 {
        assert(l2.subrange(0, 12)[0] == l2[0]);
        assert(l2[0] != "      .zero "@[0]);
    }
    assert(zero_fill(l0) == 0);
    assert(zero_fill(l1) == 0);
    assert(zero_fill(l2) == 0);
    assert(ls =~= seq![l0, l1, l2, z]);
    assert(ls.drop_last() =~= seq![l0, l1, l2]);
    assert(ls.drop_last().drop_last() =~= seq![l0, l1]);
    assert(ls.drop_last().drop_last().drop_last() =~= seq![l0]);
    assert(ls.drop_last().drop_last().drop_last().drop_last() =~= Seq::<Seq<char>>::empty());
    reveal_with_fuel(reserved, 5);
}

/// The value of an arithmetic tree on unbounded integers: literals, sums,
/// differences, products and quotients (rounded toward zero) are computed; every other node (a variable, a
/// load, a call) has the value that `leaf` gives it.
pub open spec fn arith_val(n: NodeV, leaf: spec_fn(NodeV) -> int) -> int
    decreases n,
{
    match n.kind {
        NodeKindV::Num { val } => val as int,
        NodeKindV::Add { lhs, rhs } => arith_val(*lhs, leaf) + arith_val(*rhs, leaf),
        NodeKindV::Sub { lhs, rhs } => arith_val(*lhs, leaf) - arith_val(*rhs, leaf),
        NodeKindV::Mul { lhs, rhs } => arith_val(*lhs, leaf) * arith_val(*rhs, leaf),
        NodeKindV::Div { lhs, rhs } => trunc_div(arith_val(*lhs, leaf), arith_val(*rhs, leaf)),
        _ => leaf(n),
    }
}

/// Pointer arithmetic moves by whole elements. For a pointer or array `p`
/// and an integer `i`, both `p + i` and `p - i` are accepted; their address
/// is that of `p` plus or minus `i` times the size of the type that `p`
/// points to; and `(p + i) - i` is the address of `p` again, whatever the
/// values of the variables in them. `i + p` is the same address as `p + i`.
pub proof fn law_pointer_offsets_scale_by_the_element(
    p: NodeV,
    i: NodeV,
    vars: Seq<Var>,
    ts: Seq<Token>,
    leaf: spec_fn(NodeV) -> int,
)
    requires
        ptr_nv(p),
        int_nv(i),
        pointee_tv(p.ty->0).size <= isize::MAX,
    ensures
        add_spec(p, i, vars, ts) matches Ok(a) && arith_val(a, leaf) == arith_val(p, leaf) + arith_val(i, leaf)
            * pointee_tv(p.ty->0).size,
        sub_spec(p, i, vars, ts) matches Ok(d) && arith_val(d, leaf) == arith_val(p, leaf) - arith_val(i, leaf)
            * pointee_tv(p.ty->0).size,
        add_spec(p, i, vars, ts) matches Ok(a) && sub_spec(a, i, vars, ts) matches Ok(b) && arith_val(b, leaf)
            == arith_val(p, leaf),
        add_spec(i, p, vars, ts) matches Ok(a) && a.ty == p.ty && arith_val(a, leaf) == arith_val(p, leaf)
            + arith_val(i, leaf) * pointee_tv(p.ty->0).size,
{
    let size = pointee_tv(p.ty->0).size;
    let ls = lit_nv(size as isize, long_tv());
    let li = lit_nv(size as isize, int_tv());
    assert(spec_add_type(p, vars) == Ok::<NodeV, CompileErrorV>(p));
    assert(spec_add_type(i, vars) == Ok::<NodeV, CompileErrorV>(i));
    assert(spec_add_type(ls, vars) == Ok::<NodeV, CompileErrorV>(ls));
    assert(spec_add_type(li, vars) == Ok::<NodeV, CompileErrorV>(li));
    assert(!int_nv(p) && !ptr_nv(i));
    let ml = NodeV { kind: NodeKindV::Mul { lhs: Box::new(i), rhs: Box::new(ls) }, ty: None };
    let mi = NodeV { kind: NodeKindV::Mul { lhs: Box::new(i), rhs: Box::new(li) }, ty: None };
    assert(spec_add_type(ml, vars) is Ok);
    assert(spec_add_type(mi, vars) is Ok);
    let a = add_spec(p, i, vars, ts)->Ok_0;
    assert(!ptr_nv(i) && !int_nv(p));
    assert(add_spec(i, p, vars, ts) is Ok);
    reveal_with_fuel(arith_val, 3);
    assert((size as isize) as int == size as int);
    assert(arith_val(ls, leaf) == size && arith_val(li, leaf) == size);
    assert(add_spec(p, i, vars, ts) is Ok);
    assert(a.ty == p.ty);
    assert(arith_val(a, leaf) == arith_val(p, leaf) + arith_val(i, leaf) * size);
    assert(sub_spec(p, i, vars, ts) is Ok);
    assert(spec_add_type(a, vars) == Ok::<NodeV, CompileErrorV>(a));
    assert(sub_spec(a, i, vars, ts) is Ok);
    let b = sub_spec(a, i, vars, ts)->Ok_0;
    assert(arith_val(b, leaf) == arith_val(a, leaf) - arith_val(i, leaf) * size);
}

/// Dividing a multiple of a positive number by it, rounding toward zero,
/// gives back the factor.
pub proof fn lemma_trunc_div_multiple(x: int, s: int)
    requires
        s > 0,
    ensures
        trunc_div(x * s, s) == x,
{
    assert(mag(x * s) == mag(x) * s) by (nonlinear_arith)
        requires s > 0;
    assert(mag(x) * s / s == mag(x)) by (nonlinear_arith)
        requires s > 0;
    assert((x * s < 0) == (x < 0)) by (nonlinear_arith)
        requires s > 0;
}

/// The difference of two pointers counts elements: for a pointer `p` to a
/// type of positive size and an integer `i`, `(p + i) - p` is accepted, has
/// type `int`, and its value is `i`, whatever the values of the variables in
/// it.
pub proof fn law_pointer_difference_counts_elements(
    p: NodeV,
    i: NodeV,
    vars: Seq<Var>,
    ts: Seq<Token>,
    leaf: spec_fn(NodeV) -> int,
)
    requires
        p.ty matches Some(t) && t.kind is Ptr,
        int_nv(i),
        0 < pointee_tv(p.ty->0).size <= isize::MAX,
    ensures
        add_spec(p, i, vars, ts) matches Ok(a) && sub_spec(a, p, vars, ts) matches Ok(d) && d.ty == Some(int_tv())
            && arith_val(d, leaf) == arith_val(i, leaf),
{
    let size = pointee_tv(p.ty->0).size;
    law_pointer_offsets_scale_by_the_element(p, i, vars, ts, leaf);
    let a = add_spec(p, i, vars, ts)->Ok_0;
    assert(a.ty == p.ty);
    let dl = lit_nv(size as isize, long_tv());
    assert(spec_add_type(a, vars) == Ok::<NodeV, CompileErrorV>(a));
    assert(spec_add_type(p, vars) == Ok::<NodeV, CompileErrorV>(p));
    assert(spec_add_type(dl, vars) == Ok::<NodeV, CompileErrorV>(dl));
    let sd = NodeV { kind: NodeKindV::Sub { lhs: Box::new(a), rhs: Box::new(p) }, ty: None };
    let sdt = spec_add_type(sd, vars)->Ok_0;
    assert(spec_add_type(sd, vars) is Ok);
    assert(spec_add_type(sdt, vars) == Ok::<NodeV, CompileErrorV>(sdt));
    let q = NodeV { kind: NodeKindV::Div { lhs: Box::new(sdt), rhs: Box::new(dl) }, ty: None };
    assert(spec_add_type(q, vars) is Ok);
    assert(sub_spec(a, p, vars, ts) is Ok);
    let d = sub_spec(a, p, vars, ts)->Ok_0;
    reveal_with_fuel(arith_val, 3);
    assert((size as isize) as int == size as int);
    assert(arith_val(dl, leaf) == size);
    assert(arith_val(sdt, leaf) == arith_val(i, leaf) * size);
    lemma_trunc_div_multiple(arith_val(i, leaf), size as int);
}

/// A run of digits ends where the first character that is not a digit stands.
proof fn lemma_digits_run_end(s: Seq<char>, p: nat, e: nat)
    requires
        p <= e <= s.len(),
        forall|j: int| p <= j < e ==> is_digit(#[trigger] s[j]),
        e == s.len() || !is_digit(s[e as int]),
    ensures
        digits_end(s, p) == e,
    decreases e - p,
{
    if p < e {
        lemma_digits_run_end(s, p + 1, e);
    }
}

/// A number written in decimal reads back as one number token: where the
/// source holds the decimal text of `n` (at most `isize::MAX`) at `p`, not
/// followed by another digit, the tokenizer gives a number token of value `n`
/// covering that text, and goes on after it.
pub proof fn law_decimal_number_reads_back(s: Seq<char>, p: nat, n: nat)
    requires
        n <= isize::MAX,
        p + dec_nat(n).len() <= s.len(),
        s.subrange(p as int, p + dec_nat(n).len() as int) == dec_nat(n),
        p + dec_nat(n).len() == s.len() || !is_digit(s[p + dec_nat(n).len() as int]),
    ensures
        lex_from(s, p) == cons_tok(
            TokenV { kind: TokenKindV::Num { val: n as isize }, start: p as usize, len: dec_nat(n).len() as usize },
            lex_from(s, p + dec_nat(n).len()),
        ),
{
    let d = dec_nat(n);
    let e = (p + d.len()) as nat;
    lemma_dec_nat_reads_back(n);
    crate::text::lemma_dec_nat_len(n);
    assert forall|j: int| p <= j < e implies is_digit(#[trigger] s[j]) by {
        assert(s[j] == s.subrange(p as int, e as int)[j - p]);
    }
    lemma_digits_run_end(s, p, e);
    assert(s[p as int] == d[0]);
    assert(is_digit(s[p as int]));
}

/// Taking an address and loading through it gives back the type: for a typed
/// node `x`, `*&x` is accepted and has the type of `x`, and `&x` has the type
/// of a pointer to it.
pub proof fn law_deref_of_address_keeps_the_type(x: NodeV, tok: TokenV, vars: Seq<Var>)
    requires
        x.ty is Some,
    ensures
        ({
            let a = NodeV { kind: NodeKindV::Addr { lhs: Box::new(x) }, ty: None };
            let d = NodeV { kind: NodeKindV::Deref { lhs: Box::new(a), tok }, ty: None };
            &&& spec_add_type(a, vars) matches Ok(ta) && ta.ty matches Some(t) && t.kind == (TypeKindV::Ptr {
                ptr_to: Box::new(x.ty->0),
            }) && t.size == 8
            &&& spec_add_type(d, vars) matches Ok(td) && td.ty == x.ty
        }),
{
    let a = NodeV { kind: NodeKindV::Addr { lhs: Box::new(x) }, ty: None };
    assert(spec_add_type(x, vars) == Ok::<NodeV, CompileErrorV>(x));
    assert(spec_add_type(a, vars) is Ok);
}

/// An integer literal's type holds its value: it is `int` (four bytes) when
/// the value fits 32 bits, and `long` (eight bytes) only when it does not.
pub proof fn law_literal_type_holds_its_value(val: isize)
    ensures
        is_integer_tv(num_tv(val)),
        num_tv(val).size == 4 <==> (i32::MIN <= val <= i32::MAX),
        num_tv(val).size == 8 <==> !(i32::MIN <= val <= i32::MAX),
{
}

} // verus!
