//! Properties of the compiler that span several of its operations or hold
//! of all their results, proved over the contracts of those operations.
use vstd::prelude::*;
use crate::codegen::{Emitted, arg_pops, bin_spec, byte_copy_lines, cast_line, gen_addr_spec, gen_args_spec, gen_expr_spec, gen_stmt_spec, gen_stmts_spec, lay_frame, load_lines, op_lines, pop_line, pops_below, push_line, store_lines};
use crate::diag::{CompileErrorV};
use crate::layout::{align_fits, align_spec, cap8, is_pow2_small, lay, lemma_align_pow2, max_align, max_size, size_aligns, struct_layout_spec, union_layout_spec};
use crate::symbols::{ctx_wf, cur_fn, enum_in, fn_ok, lemma_fn_index, lemma_fn_index_names, lemma_same_fns_index, lookup_enum, lookup_tag, lookup_typedef, lookup_var, same_but_functions, same_but_top, same_fns_but, scope_empty, scope_entered, scope_left, scope_ok, tag_in, top, top_scope_changed, typedef_in, var_in};
use crate::text::{dec_int, dec_nat, lemma_dec_nat_len};
use crate::tokenize::{at2, comment_end, cons_tok, digits_end, digits_val, ident_end, is_digit, is_ident1, is_punct1, is_punct2, kw_tok, lemma_comment_end, lemma_dec_len_le, lemma_digits_end, lemma_ident_end, lemma_line_end, lemma_str_body, lex_from, num_tok, line_end, str_body};
use crate::type_utils::{spec_add_type};
use crate::types::{Ctx, Enum, Member, NodeKindV, NodeV, StructTag, TokenKindV, TokenV, Type, TypeKindV, TypeV, TypedefType, Var};

verus! {

/// Leaving a scope right after entering it gives back the scopes that were
/// open; the scope entered, which declares nothing, joins the closed ones;
/// the function being parsed stays the same.
pub proof fn law_leave_undoes_enter(a: Ctx, b: Ctx, c: Ctx)
    requires
        ctx_wf(a),
        same_but_functions(b, a),
        scope_entered(a, b),
        same_but_functions(c, b),
        scope_left(b, c),
    ensures
        same_but_functions(c, a),
        cur_fn(c) == cur_fn(a),
        cur_fn(a) matches Some(fi) && {
            let fa = a.functions@[fi];
            let fc = c.functions@[fi];
            &&& same_fns_but(a.functions@, c.functions@, fi)
            &&& fc.scopes@ == fa.scopes@
            &&& fc.exited_scope@.drop_last() == fa.exited_scope@
            &&& fc.exited_scope@.len() == fa.exited_scope@.len() + 1
            &&& scope_empty(fc.exited_scope@.last())
        },
{
    let fi = cur_fn(a)->0;
    lemma_fn_index(a.functions@, a.cur_func@);
    lemma_same_fns_index(a.functions@, b.functions@, fi, a.cur_func@);
    lemma_same_fns_index(b.functions@, c.functions@, fi, a.cur_func@);
    let fa = a.functions@[fi];
    let fb = b.functions@[fi];
    let fc = c.functions@[fi];
    assert(fc.scopes@ =~= fa.scopes@);
    assert(fc.exited_scope@.drop_last() =~= fa.exited_scope@);
}

/// A tag pushed onto a list of tags that does not hold it is found with the
/// pushed type.
proof fn lemma_tag_in_push(ts: Seq<StructTag>, t: StructTag)
    requires
        tag_in(ts, t.tag@) is None,
    ensures
        tag_in(ts.push(t), t.tag@) == Some(t.ty@),
    decreases ts.len(),
{
    if ts.len() > 0 {
        assert(ts.push(t).drop_first() =~= ts.drop_first().push(t));
        lemma_tag_in_push(ts.drop_first(), t);
    }
}

/// A struct or union tag declared in the current innermost scope, where it
/// was not declared before, is found with the type it was declared with.
pub proof fn law_tag_found(a: Ctx, b: Ctx, tag: String, ty: Type)
    requires
        ctx_wf(a),
        cur_fn(a) matches Some(fi) && top_scope_changed(a, b, fi) && top(b.functions@[fi]).tags@
            == top(a.functions@[fi]).tags@.push(StructTag { tag, ty }),
        tag_in(top(a.functions@[cur_fn(a)->0]).tags@, tag@) is None,
    ensures
        cur_fn(b) == cur_fn(a),
        lookup_tag(b.functions@[cur_fn(b)->0].scopes@, tag@) == Some(ty@),
{
    let fi = cur_fn(a)->0;
    lemma_fn_index(a.functions@, a.cur_func@);
    lemma_same_fns_index(a.functions@, b.functions@, fi, a.cur_func@);
    lemma_tag_in_push(top(a.functions@[fi]).tags@, StructTag { tag, ty });
}

proof fn lemma_typedef_in_push(ts: Seq<TypedefType>, t: TypedefType)
    requires
        typedef_in(ts, t.name@) is None,
    ensures
        typedef_in(ts.push(t), t.name@) == Some(t.ty@),
    decreases ts.len(),
{
    if ts.len() > 0 {
        assert(ts.push(t).drop_first() =~= ts.drop_first().push(t));
        lemma_typedef_in_push(ts.drop_first(), t);
    }
}

/// A typedef name declared in the current innermost scope, where it was not
/// declared before, stands for the type it was declared with.
pub proof fn law_typedef_found(a: Ctx, b: Ctx, deftype: TypedefType)
    requires
        ctx_wf(a),
        cur_fn(a) matches Some(fi) && top_scope_changed(a, b, fi) && top(b.functions@[fi]).types@
            == top(a.functions@[fi]).types@.push(deftype),
        typedef_in(top(a.functions@[cur_fn(a)->0]).types@, deftype.name@) is None,
    ensures
        cur_fn(b) == cur_fn(a),
        lookup_typedef(b.functions@[cur_fn(b)->0].scopes@, deftype.name@) == Some(deftype.ty@),
{
    let fi = cur_fn(a)->0;
    lemma_fn_index(a.functions@, a.cur_func@);
    lemma_same_fns_index(a.functions@, b.functions@, fi, a.cur_func@);
    lemma_typedef_in_push(top(a.functions@[fi]).types@, deftype);
}

proof fn lemma_enum_in_push(es: Seq<Enum>, e: Enum)
    requires
        enum_in(es, e.tag@) is None,
    ensures
        enum_in(es.push(e), e.tag@) == Some(e.ty@),
    decreases es.len(),
{
    if es.len() > 0 {
        assert(es.push(e).drop_first() =~= es.drop_first().push(e));
        lemma_enum_in_push(es.drop_first(), e);
    }
}

/// An enum declared in the current innermost scope, where its tag was not
/// declared before, is found with the type it was declared with.
pub proof fn law_enum_found(a: Ctx, b: Ctx, name: String, ty: Type)
    requires
        ctx_wf(a),
        cur_fn(a) matches Some(fi) && top_scope_changed(a, b, fi) && top(b.functions@[fi]).enums@
            == top(a.functions@[fi]).enums@.push(Enum { tag: name, ty }),
        enum_in(top(a.functions@[cur_fn(a)->0]).enums@, name@) is None,
    ensures
        cur_fn(b) == cur_fn(a),
        lookup_enum(b.functions@[cur_fn(b)->0].scopes@, name@) == Some(ty@),
{
    let fi = cur_fn(a)->0;
    lemma_fn_index(a.functions@, a.cur_func@);
    lemma_same_fns_index(a.functions@, b.functions@, fi, a.cur_func@);
    lemma_enum_in_push(top(a.functions@[fi]).enums@, Enum { tag: name, ty });
}

/// Adding a variable to the table does not change what a list of existing
/// variables finds.
proof fn lemma_var_in_more(ids: Seq<usize>, vars: Seq<Var>, v: Var, name: Seq<char>)
    requires
        forall|k: int| 0 <= k < ids.len() ==> #[trigger] ids[k] < vars.len(),
    ensures
        var_in(ids, vars.push(v), name) == var_in(ids, vars, name),
    decreases ids.len(),
{
    if ids.len() > 0 {
        assert(vars.push(v)[ids[0] as int] == vars[ids[0] as int]);
        assert forall|k: int| 0 <= k < ids.drop_first().len() implies #[trigger] ids.drop_first()[k]
            < vars.len() by {
            assert(ids.drop_first()[k] == ids[k + 1]);
        }
        lemma_var_in_more(ids.drop_first(), vars, v, name);
    }
}

/// The new variable at the end of a list that finds no variable of its name
/// is found.
proof fn lemma_var_in_push(ids: Seq<usize>, vars: Seq<Var>, id: usize, name: Seq<char>)
    requires
        var_in(ids, vars, name) is None,
        id < vars.len(),
        vars[id as int].name@ == name,
    ensures
        var_in(ids.push(id), vars, name) == Some(id),
    decreases ids.len(),
{
    if ids.len() > 0 {
        assert(ids.push(id).drop_first() =~= ids.drop_first().push(id));
        lemma_var_in_push(ids.drop_first(), vars, id, name);
    }
}

/// A local variable created in the current innermost scope, where no
/// variable of its name was declared before, is what its name refers to.
pub proof fn law_local_found(a: Ctx, b: Ctx, name: String, ty: Type, is_def_arg: bool)
    requires
        ctx_wf(a),
        b.vars@ == a.vars@.push(
            Var { name, offset: 0, ty, is_param: is_def_arg, is_local: true, init_gval: None },
        ),
        cur_fn(a) matches Some(fi) && {
            let id = a.vars@.len() as usize;
            let fa = a.functions@[fi];
            let fb = b.functions@[fi];
            &&& b.gvars == a.gvars
            &&& b.cur_func == a.cur_func
            &&& b.functions@.len() == a.functions@.len()
            &&& forall|j: int| 0 <= j < a.functions@.len() && j != fi ==> #[trigger] b.functions@[j] == a.functions@[j]
            &&& same_but_top(fa, fb)
            &&& fb.name == fa.name
            &&& top(fb).variables@ == top(fa).variables@.push(id)
        },
        var_in(top(a.functions@[cur_fn(a)->0]).variables@, a.vars@, name@) is None,
    ensures
        cur_fn(b) == cur_fn(a),
        lookup_var(b, b.functions@[cur_fn(b)->0], name@) == Some(a.vars@.len() as usize),
{
    let fi = cur_fn(a)->0;
    let id = a.vars@.len() as usize;
    let v = Var { name, offset: 0, ty, is_param: is_def_arg, is_local: true, init_gval: None };
    lemma_fn_index(a.functions@, a.cur_func@);
    assert forall|i: int| 0 <= i < a.functions@.len() implies #[trigger] a.functions@[i].name@
        == b.functions@[i].name@ by {
        if i != fi {
            assert(b.functions@[i] == a.functions@[i]);
        }
    }
    lemma_fn_index_names(a.functions@, b.functions@, a.cur_func@);
    let fa = a.functions@[fi];
    let ids = top(fa).variables@;
    assert(fn_ok(fa, a.vars@.len()));
    assert(scope_ok(fa.scopes@[fa.scopes@.len() - 1], a.vars@.len()));
    lemma_var_in_more(ids, a.vars@, v, name@);
    assert(a.vars.len() == a.vars@.len());
    assert(b.vars@[id as int] == v);
    lemma_var_in_push(ids, b.vars@, id, name@);
}

//
// layout
//

/// An alignment the compiler's types have: none (zero) or a power of two up
/// to 16.
pub open spec fn align_ok(a: usize) -> bool {
    a == 0 || is_pow2_small(a)
}

/// Aligning to an alignment the compiler's types have never moves back and
/// gives a multiple of the alignment.
proof fn lemma_align_ok(n: usize, a: usize)
    requires
        align_ok(a),
        align_fits(n, a),
    ensures
        n <= align_spec(n, a),
        a != 0 ==> align_spec(n, a) % a == 0,
        a != 0 ==> align_spec(n, a) < n + a,
        a == 0 ==> align_spec(n, a) == n,
{
    if a != 0 {
        lemma_align_pow2(n, a);
    }
}

/// Laying out members one after the other from offset `off`: each starts
/// after `off` and after the end of every member before it, at a multiple
/// of its alignment, and ends by the end of the layout; the greatest
/// alignment is `ma` or one of the members'.
proof fn lemma_lay(sa: Seq<(usize, usize)>, off: usize, ma: usize)
    requires
        forall|i: int| 0 <= i < sa.len() ==> align_ok(#[trigger] sa[i].1),
        align_ok(ma),
    ensures
        lay(sa, off, ma) matches Some((os, e, m)) ==> {
            &&& os.len() == sa.len()
            &&& off <= e
            &&& align_ok(m)
            &&& ma <= m
            &&& forall|i: int| 0 <= i < sa.len() ==> #[trigger] sa[i].1 <= m
            &&& forall|i: int| 0 <= i < sa.len() ==> off <= #[trigger] os[i] && os[i] + sa[i].0 <= e
            &&& forall|i: int, j: int| 0 <= i < j < sa.len() ==> #[trigger] os[i] + sa[i].0 <= #[trigger] os[j]
            &&& forall|i: int| 0 <= i < sa.len() && sa[i].1 != 0 ==> #[trigger] os[i] % sa[i].1 == 0
        },
    decreases sa.len(),
{
    if sa.len() > 0 && lay(sa, off, ma) is Some {
        let sz = sa[0].0;
        let al = sa[0].1;
        assert(align_ok(sa[0].1));
        lemma_align_ok(off, al);
        let o = align_spec(off, al);
        let m1 = if ma >= al {
            ma
        } else {
            al
        };
        let rest = sa.drop_first();
        assert forall|i: int| 0 <= i < rest.len() implies align_ok(#[trigger] rest[i].1) by {
            assert(rest[i] == sa[i + 1]);
            assert(align_ok(sa[i + 1].1));
        }
        lemma_lay(rest, (o + sz) as usize, m1);
        let (os1, e, m) = lay(rest, (o + sz) as usize, m1)->0;
        let (os, e0, m0) = lay(sa, off, ma)->0;
        assert(os == seq![o] + os1);
        assert forall|i: int| 0 <= i < sa.len() implies #[trigger] sa[i].1 <= m by {
            if i > 0 {
                assert(sa[i] == rest[i - 1]);
            }
        }
        assert forall|i: int| 0 <= i < sa.len() implies off <= #[trigger] os[i] && os[i] + sa[i].0 <= e by {
            if i > 0 {
                assert(sa[i] == rest[i - 1]);
                assert(os[i] == os1[i - 1]);
            }
        }
        assert forall|i: int, j: int| 0 <= i < j < sa.len() implies #[trigger] os[i] + sa[i].0 <= #[trigger] os[j] by {
            assert(sa[j] == rest[j - 1]);
            assert(os[j] == os1[j - 1]);
            if i > 0 {
                assert(sa[i] == rest[i - 1]);
                assert(os[i] == os1[i - 1]);
            }
        }
        assert forall|i: int| 0 <= i < sa.len() && sa[i].1 != 0 implies #[trigger] os[i] % sa[i].1 == 0 by {
            if i > 0 {
                assert(sa[i] == rest[i - 1]);
                assert(os[i] == os1[i - 1]);
            }
        }
    }
}

/// The alignment of a struct or union is at most 8 and one the compiler's
/// types have.
proof fn lemma_cap8(a: usize)
    requires
        align_ok(a),
    ensures
        align_ok(cap8(a)),
        cap8(a) <= 8,
{
}

/// The members of a struct whose types have the compiler's alignments are
/// laid out in order without overlapping: each starts at a multiple of its
/// alignment and ends within the struct. The struct's alignment is at most
/// 8 and its size is a multiple of it.
pub proof fn law_struct_layout(ms: Seq<Member>)
    requires
        forall|i: int| 0 <= i < ms.len() ==> align_ok(#[trigger] ms[i].ty.align),
    ensures
        struct_layout_spec(ms) matches Some((os, size, al)) ==> {
            &&& os.len() == ms.len()
            &&& al <= 8
            &&& al != 0 ==> size % al == 0
            &&& forall|i: int| 0 <= i < ms.len() ==> #[trigger] os[i] + ms[i].ty.size <= size
            &&& forall|i: int, j: int| 0 <= i < j < ms.len() ==> #[trigger] os[i] + ms[i].ty.size <= #[trigger] os[j]
            &&& forall|i: int| 0 <= i < ms.len() && ms[i].ty.align != 0 ==> #[trigger] os[i] % ms[i].ty.align == 0
        },
{
    let sa = size_aligns(ms);
    assert forall|i: int| 0 <= i < sa.len() implies align_ok(#[trigger] sa[i].1) by {
        assert(sa[i] == (ms[i].ty.size, ms[i].ty.align));
    }
    lemma_lay(sa, 0, 0);
    if struct_layout_spec(ms) is Some {
        let (os, e, m) = lay(sa, 0, 0)->0;
        lemma_cap8(m);
        lemma_align_ok(e, cap8(m));
        assert forall|i: int| 0 <= i < ms.len() implies #[trigger] os[i] + ms[i].ty.size <= align_spec(e, cap8(m)) by {
            assert(sa[i] == (ms[i].ty.size, ms[i].ty.align));
        }
        assert forall|i: int, j: int| 0 <= i < j < ms.len() implies #[trigger] os[i] + ms[i].ty.size <= #[trigger] os[j] by {
            assert(sa[i] == (ms[i].ty.size, ms[i].ty.align));
        }
        assert forall|i: int| 0 <= i < ms.len() && ms[i].ty.align != 0 implies #[trigger] os[i] % ms[i].ty.align == 0 by {
            assert(sa[i] == (ms[i].ty.size, ms[i].ty.align));
        }
    }
}

proof fn lemma_max_size(ms: Seq<Member>)
    ensures
        forall|i: int| 0 <= i < ms.len() ==> #[trigger] ms[i].ty.size <= max_size(ms),
    decreases ms.len(),
{
    if ms.len() > 0 {
        lemma_max_size(ms.drop_last());
        assert forall|i: int| 0 <= i < ms.len() implies #[trigger] ms[i].ty.size <= max_size(ms) by {
            if i < ms.len() - 1 {
                assert(ms.drop_last()[i] == ms[i]);
            }
        }
    }
}

proof fn lemma_max_align(ms: Seq<Member>)
    requires
        forall|i: int| 0 <= i < ms.len() ==> align_ok(#[trigger] ms[i].ty.align),
    ensures
        align_ok(max_align(ms)),
    decreases ms.len(),
{
    if ms.len() > 0 {
        assert forall|i: int| 0 <= i < ms.drop_last().len() implies align_ok(#[trigger] ms.drop_last()[i].ty.align) by {
            assert(ms.drop_last()[i] == ms[i]);
        }
        lemma_max_align(ms.drop_last());
        assert(align_ok(ms[ms.len() - 1].ty.align));
    }
}

/// A union whose members' types have the compiler's alignments is as large
/// as each member; its alignment is at most 8 and its size is a multiple of
/// it.
pub proof fn law_union_layout(ms: Seq<Member>)
    requires
        forall|i: int| 0 <= i < ms.len() ==> align_ok(#[trigger] ms[i].ty.align),
    ensures
        union_layout_spec(ms) matches Some((size, al)) ==> {
            &&& al <= 8
            &&& al != 0 ==> size % al == 0
            &&& forall|i: int| 0 <= i < ms.len() ==> #[trigger] ms[i].ty.size <= size
        },
{
    lemma_max_size(ms);
    lemma_max_align(ms);
    lemma_cap8(max_align(ms));
    if union_layout_spec(ms) is Some {
        lemma_align_ok(max_size(ms), cap8(max_align(ms)));
    }
}

/// The stack frame laid out from offset `start` over distinct variables
/// whose types have the compiler's alignments: each variable gets an offset
/// at or after `start` that is a multiple of its alignment and ends by the
/// end of the frame; no two of them overlap; nothing but their offsets
/// changes. The frame, rounded up to 16, still holds them all.
pub proof fn law_frame_layout(ids: Seq<usize>, vars: Seq<Var>, start: usize)
    requires
        ids.no_duplicates(),
        forall|k: int| 0 <= k < ids.len() ==> #[trigger] ids[k] < vars.len(),
        forall|i: int| 0 <= i < vars.len() ==> align_ok(#[trigger] vars[i].ty.align),
    ensures
        lay_frame(ids, vars, start) matches Some((vs, end)) ==> {
            &&& vs.len() == vars.len()
            &&& start <= end
            &&& forall|i: int| 0 <= i < vars.len() ==> #[trigger] vs[i] == (Var { offset: vs[i].offset, ..vars[i] })
            &&& forall|i: int| 0 <= i < vars.len() && !ids.contains(i as usize) ==> #[trigger] vs[i] == vars[i]
            &&& forall|k: int|
                0 <= k < ids.len() ==> start <= #[trigger] vs[ids[k] as int].offset && vs[ids[k] as int].offset
                    + vs[ids[k] as int].ty.size <= end
            &&& forall|k: int|
                0 <= k < ids.len() && vs[ids[k] as int].ty.align != 0 ==> #[trigger] vs[ids[k] as int].offset
                    % vs[ids[k] as int].ty.align == 0
            &&& forall|k: int, l: int|
                0 <= k < l < ids.len() ==> #[trigger] vs[ids[k] as int].offset + vs[ids[k] as int].ty.size
                    <= #[trigger] vs[ids[l] as int].offset
            &&& align_fits(end, 16) ==> end <= align_spec(end, 16) && align_spec(end, 16) % 16 == 0
        },
    decreases ids.len(),
{
    if let Some((vs, end)) = lay_frame(ids, vars, start) {
        if ids.len() == 0 {
        } else {
            let p = ids.drop_last();
            let x = ids.last();
            assert forall|k: int| 0 <= k < p.len() implies #[trigger] p[k] < vars.len() by {
                assert(p[k] == ids[k]);
            }
            assert(p.no_duplicates()) by {
                assert forall|a: int, b: int| 0 <= a < p.len() && 0 <= b < p.len() && a != b implies p[a] != p[b] by {
                    assert(p[a] == ids[a] && p[b] == ids[b]);
                }
            }
            law_frame_layout(p, vars, start);
            let (vs1, end1) = lay_frame(p, vars, start)->0;
            let v = vs1[x as int];
            assert(v.ty == vars[x as int].ty);
            assert(align_ok(vars[x as int].ty.align));
            lemma_align_ok(end1, v.ty.align);
            let off = align_spec(end1, v.ty.align);
            assert(vs == vs1.update(x as int, Var { offset: off, ..v }));
            assert forall|k: int| 0 <= k < p.len() implies ids[k] != x by {
                assert(ids[k] != ids[ids.len() - 1]);
            }
            assert forall|i: int| 0 <= i < vars.len() implies #[trigger] vs[i] == (Var { offset: vs[i].offset, ..vars[i] }) by {
                assert(vs1[i] == (Var { offset: vs1[i].offset, ..vars[i] }));
            }
            assert forall|i: int| 0 <= i < vars.len() && !ids.contains(i as usize) implies #[trigger] vs[i] == vars[i] by {
                assert(i as usize != x);
                if p.contains(i as usize) {
                    let k = choose|k: int| 0 <= k < p.len() && p[k] == i as usize;
                    assert(ids[k] == i as usize);
                }
            }
            assert forall|k: int| 0 <= k < ids.len() implies start <= #[trigger] vs[ids[k] as int].offset && vs[ids[k] as int].offset
                + vs[ids[k] as int].ty.size <= end by {
                if k < p.len() {
                    assert(ids[k] == p[k]);
                }
            }
            assert forall|k: int| 0 <= k < ids.len() && vs[ids[k] as int].ty.align != 0 implies #[trigger] vs[ids[k] as int].offset
                % vs[ids[k] as int].ty.align == 0 by {
                if k < p.len() {
                    assert(ids[k] == p[k]);
                }
            }
            assert forall|k: int, l: int| 0 <= k < l < ids.len() implies #[trigger] vs[ids[k] as int].offset + vs[ids[k] as int].ty.size
                <= #[trigger] vs[ids[l] as int].offset by {
                assert(ids[k] == p[k]);
                if l < p.len() {
                    assert(ids[l] == p[l]);
                }
            }
        }
        if align_fits(end, 16) {
            lemma_align_pow2(end, 16);
        }
    }
}

//
// code generation
//

/// The code of an lvalue's address takes label numbers only forward.
pub proof fn law_labels_addr(n: NodeV, vars: Seq<Var>, f: Seq<char>, li: usize, lf: usize)
    ensures
        gen_addr_spec(n, vars, f, li, lf) matches Ok((_, i, j)) ==> li <= i && lf <= j,
    decreases n, 1nat,
{
    match n.kind {
        NodeKindV::Deref { lhs, .. } => law_labels_expr(*lhs, vars, f, li, lf),
        NodeKindV::Member { lhs, .. } => law_labels_addr(*lhs, vars, f, li, lf),
        _ => {},
    }
}

/// The code of an expression takes label numbers only forward, so that no
/// two `if`s and no two loops share a label.
#[verifier::spinoff_prover]
#[verifier::rlimit(80)]
pub proof fn law_labels_expr(n: NodeV, vars: Seq<Var>, f: Seq<char>, li: usize, lf: usize)
    ensures
        gen_expr_spec(n, vars, f, li, lf) matches Ok((_, i, j)) ==> li <= i && lf <= j,
    decreases n, 2nat,
{
    match n.kind {
        NodeKindV::Var { .. } => law_labels_addr(n, vars, f, li, lf),
        NodeKindV::Member { .. } => law_labels_addr(n, vars, f, li, lf),
        NodeKindV::Cas { lhs } => law_labels_expr(*lhs, vars, f, li, lf),
        NodeKindV::Add { lhs, rhs } => {
            law_labels_expr(*lhs, vars, f, li, lf);
            if let Ok((_, i1, j1)) = gen_expr_spec(*lhs, vars, f, li, lf) {
                law_labels_expr(*rhs, vars, f, i1, j1);
            }
        },
        NodeKindV::Sub { lhs, rhs } => {
            law_labels_expr(*lhs, vars, f, li, lf);
            if let Ok((_, i1, j1)) = gen_expr_spec(*lhs, vars, f, li, lf) {
                law_labels_expr(*rhs, vars, f, i1, j1);
            }
        },
        NodeKindV::Mul { lhs, rhs } => {
            law_labels_expr(*lhs, vars, f, li, lf);
            if let Ok((_, i1, j1)) = gen_expr_spec(*lhs, vars, f, li, lf) {
                law_labels_expr(*rhs, vars, f, i1, j1);
            }
        },
        NodeKindV::Div { lhs, rhs } => {
            law_labels_expr(*lhs, vars, f, li, lf);
            if let Ok((_, i1, j1)) = gen_expr_spec(*lhs, vars, f, li, lf) {
                law_labels_expr(*rhs, vars, f, i1, j1);
            }
        },
        NodeKindV::Mod { lhs, rhs } => {
            law_labels_expr(*lhs, vars, f, li, lf);
            if let Ok((_, i1, j1)) = gen_expr_spec(*lhs, vars, f, li, lf) {
                law_labels_expr(*rhs, vars, f, i1, j1);
            }
        },
        NodeKindV::Eq { lhs, rhs } => {
            law_labels_expr(*lhs, vars, f, li, lf);
            if let Ok((_, i1, j1)) = gen_expr_spec(*lhs, vars, f, li, lf) {
                law_labels_expr(*rhs, vars, f, i1, j1);
            }
        },
        NodeKindV::Ne { lhs, rhs } => {
            law_labels_expr(*lhs, vars, f, li, lf);
            if let Ok((_, i1, j1)) = gen_expr_spec(*lhs, vars, f, li, lf) {
                law_labels_expr(*rhs, vars, f, i1, j1);
            }
        },
        NodeKindV::Lt { lhs, rhs } => {
            law_labels_expr(*lhs, vars, f, li, lf);
            if let Ok((_, i1, j1)) = gen_expr_spec(*lhs, vars, f, li, lf) {
                law_labels_expr(*rhs, vars, f, i1, j1);
            }
        },
        NodeKindV::Le { lhs, rhs } => {
            law_labels_expr(*lhs, vars, f, li, lf);
            if let Ok((_, i1, j1)) = gen_expr_spec(*lhs, vars, f, li, lf) {
                law_labels_expr(*rhs, vars, f, i1, j1);
            }
        },
        NodeKindV::Gt { lhs, rhs } => {
            law_labels_expr(*lhs, vars, f, li, lf);
            if let Ok((_, i1, j1)) = gen_expr_spec(*lhs, vars, f, li, lf) {
                law_labels_expr(*rhs, vars, f, i1, j1);
            }
        },
        NodeKindV::Ge { lhs, rhs } => {
            law_labels_expr(*lhs, vars, f, li, lf);
            if let Ok((_, i1, j1)) = gen_expr_spec(*lhs, vars, f, li, lf) {
                law_labels_expr(*rhs, vars, f, i1, j1);
            }
        },
        NodeKindV::And { lhs, rhs } => {
            law_labels_expr(*lhs, vars, f, li, lf);
            if let Ok((_, i1, j1)) = gen_expr_spec(*lhs, vars, f, li, lf) {
                law_labels_expr(*rhs, vars, f, i1, j1);
            }
        },
        NodeKindV::Or { lhs, rhs } => {
            law_labels_expr(*lhs, vars, f, li, lf);
            if let Ok((_, i1, j1)) = gen_expr_spec(*lhs, vars, f, li, lf) {
                law_labels_expr(*rhs, vars, f, i1, j1);
            }
        },
        NodeKindV::BitAnd { lhs, rhs } => {
            law_labels_expr(*lhs, vars, f, li, lf);
            if let Ok((_, i1, j1)) = gen_expr_spec(*lhs, vars, f, li, lf) {
                law_labels_expr(*rhs, vars, f, i1, j1);
            }
        },
        NodeKindV::BitXor { lhs, rhs } => {
            law_labels_expr(*lhs, vars, f, li, lf);
            if let Ok((_, i1, j1)) = gen_expr_spec(*lhs, vars, f, li, lf) {
                law_labels_expr(*rhs, vars, f, i1, j1);
            }
        },
        NodeKindV::BitOr { lhs, rhs } => {
            law_labels_expr(*lhs, vars, f, li, lf);
            if let Ok((_, i1, j1)) = gen_expr_spec(*lhs, vars, f, li, lf) {
                law_labels_expr(*rhs, vars, f, i1, j1);
            }
        },
        NodeKindV::Neg { lhs } => law_labels_expr(*lhs, vars, f, li, lf),
        NodeKindV::NdAssign { lhs, rhs } => {
            law_labels_addr(*lhs, vars, f, li, lf);
            if let Ok((_, i1, j1)) = gen_addr_spec(*lhs, vars, f, li, lf) {
                law_labels_expr(*rhs, vars, f, i1, j1);
            }
        },
        NodeKindV::Addr { lhs } => law_labels_addr(*lhs, vars, f, li, lf),
        NodeKindV::Deref { lhs, .. } => law_labels_expr(*lhs, vars, f, li, lf),
        NodeKindV::FuncCall { args, .. } => law_labels_args(args, vars, f, li, lf),
        NodeKindV::GNUStmtExpr { body } => law_labels_stmts(body, vars, f, li, lf),
        _ => {},
    }
}

/// The code of call arguments takes label numbers only forward.
pub proof fn law_labels_args(args: Seq<NodeV>, vars: Seq<Var>, f: Seq<char>, li: usize, lf: usize)
    ensures
        gen_args_spec(args, vars, f, li, lf) matches Ok((_, i, j)) ==> li <= i && lf <= j,
    decreases args, 0nat,
{
    if args.len() > 0 {
        law_labels_args(args.drop_last(), vars, f, li, lf);
        if let Ok((_, i1, j1)) = gen_args_spec(args.drop_last(), vars, f, li, lf) {
            law_labels_expr(args.last(), vars, f, i1, j1);
        }
    }
}

/// The code of a list of statements takes label numbers only forward.
pub proof fn law_labels_stmts(body: Seq<NodeV>, vars: Seq<Var>, f: Seq<char>, li: usize, lf: usize)
    ensures
        gen_stmts_spec(body, vars, f, li, lf) matches Ok((_, i, j)) ==> li <= i && lf <= j,
    decreases body, 0nat,
{
    if body.len() > 0 {
        law_labels_stmts(body.drop_last(), vars, f, li, lf);
        if let Ok((_, i1, j1)) = gen_stmts_spec(body.drop_last(), vars, f, li, lf) {
            law_labels_stmt(body.last(), vars, f, i1, j1);
        }
    }
}

/// The code of a statement takes label numbers only forward; an `if` takes
/// the next `if` number and a loop the next loop number before the code of
/// their parts.
pub proof fn law_labels_stmt(n: NodeV, vars: Seq<Var>, f: Seq<char>, li: usize, lf: usize)
    ensures
        gen_stmt_spec(n, vars, f, li, lf) matches Ok((_, i, j)) ==> li <= i && lf <= j,
        n.kind is If ==> (gen_stmt_spec(n, vars, f, li, lf) matches Ok((_, i, j)) ==> li < i),
        (n.kind is For || n.kind is While) ==> (gen_stmt_spec(n, vars, f, li, lf) matches Ok((_, i, j)) ==> lf < j),
    decreases n, 0nat,
{
    match n.kind {
        NodeKindV::ExprStmt { lhs } => law_labels_expr(*lhs, vars, f, li, lf),
        NodeKindV::Return { lhs } => law_labels_expr(*lhs, vars, f, li, lf),
        NodeKindV::Block { body } => law_labels_stmts(body, vars, f, li, lf),
        NodeKindV::If { cond, then, els } => {
            if li < usize::MAX {
                let l1 = (li + 1) as usize;
                law_labels_expr(*cond, vars, f, l1, lf);
                if let Ok((_, i1, j1)) = gen_expr_spec(*cond, vars, f, l1, lf) {
                    law_labels_stmt(*then, vars, f, i1, j1);
                    if let Ok((_, i2, j2)) = gen_stmt_spec(*then, vars, f, i1, j1) {
                        if let Some(el) = els {
                            law_labels_stmt(*el, vars, f, i2, j2);
                        }
                    }
                }
            }
        },
        NodeKindV::For { init, cond, inc, body } => {
            if lf < usize::MAX {
                let f1 = (lf + 1) as usize;
                law_labels_stmt(*init, vars, f, li, f1);
                if let Ok((_, i1, j1)) = gen_stmt_spec(*init, vars, f, li, f1) {
                    law_labels_stmt(*body, vars, f, i1, j1);
                    if let Ok((_, i2, j2)) = gen_stmt_spec(*body, vars, f, i1, j1) {
                        if let Some(x) = inc {
                            law_labels_expr(*x, vars, f, i2, j2);
                        }
                        let r3: Emitted = match inc {
                            Some(x) => gen_expr_spec(*x, vars, f, i2, j2),
                            None => Ok((seq![], i2, j2)),
                        };
                        if let Ok((_, i3, j3)) = r3 {
                            if let Some(x) = cond {
                                law_labels_expr(*x, vars, f, i3, j3);
                            }
                        }
                    }
                }
            }
        },
        NodeKindV::While { cond, body } => {
            if lf < usize::MAX {
                let f1 = (lf + 1) as usize;
                law_labels_expr(*cond, vars, f, li, f1);
                if let Ok((_, i1, j1)) = gen_expr_spec(*cond, vars, f, li, f1) {
                    law_labels_stmt(*body, vars, f, i1, j1);
                }
            }
        },
        _ => {},
    }
}

//
// the stack discipline of the emitted code
//

/// The line that pops a pushed call argument into register `x<k>`.
pub open spec fn arg_pop_line(k: nat) -> Seq<char> {
    "      ldr x"@ + dec_nat(k) + ", [sp], 16 // pop for function arg"@
}

pub open spec fn is_arg_pop(l: Seq<char>) -> bool {
    exists|k: nat| l == arg_pop_line(k)
}

/// How a line moves the stack: a push grows it by one slot, a pop (of an
/// operand or of a call argument) shrinks it by one, any other line leaves
/// it.
pub open spec fn line_effect(l: Seq<char>) -> int {
    if l == push_line() {
        1
    } else if l == pop_line() || is_arg_pop(l) {
        -1
    } else {
        0
    }
}

/// How a run of lines moves the stack, in slots.
pub open spec fn stack_effect(ls: Seq<Seq<char>>) -> int
    decreases ls.len(),
{
    if ls.len() == 0 {
        0
    } else {
        stack_effect(ls.drop_last()) + line_effect(ls.last())
    }
}

proof fn lemma_effect_add(a: Seq<Seq<char>>, b: Seq<Seq<char>>)
    ensures
        stack_effect(a + b) == stack_effect(a) + stack_effect(b),
    decreases b.len(),
{
    if b.len() == 0 {
        assert(a + b =~= a);
    } else {
        assert((a + b).drop_last() =~= a + b.drop_last());
        lemma_effect_add(a, b.drop_last());
    }
}

proof fn lemma_effect_neutral(ls: Seq<Seq<char>>)
    requires
        forall|i: int| 0 <= i < ls.len() ==> line_effect(#[trigger] ls[i]) == 0,
    ensures
        stack_effect(ls) == 0,
    decreases ls.len(),
{
    if ls.len() > 0 {
        assert forall|i: int| 0 <= i < ls.drop_last().len() implies line_effect(#[trigger] ls.drop_last()[i]) == 0 by {
            assert(ls.drop_last()[i] == ls[i]);
        }
        lemma_effect_neutral(ls.drop_last());
    }
}

proof fn lemma_stack_lines()
    ensures
        push_line().len() == 33,
        pop_line().len() == 29,
        forall|k: nat| #[trigger] arg_pop_line(k).len() >= 46,
        forall|k: nat, i: int| 0 <= i <= 10 ==> #[trigger] arg_pop_line(k)[i] == pop_line()[i],
        line_effect(push_line()) == 1,
        line_effect(pop_line()) == -1,
        forall|k: nat| line_effect(#[trigger] arg_pop_line(k)) == -1,
{
    reveal_strlit("      str x0, [sp, -16]!  // push");
    reveal_strlit("      ldr x1, [sp], 16 // pop");
    reveal_strlit("      ldr x");
    reveal_strlit(", [sp], 16 // pop for function arg");
    assert forall|k: nat| #[trigger] arg_pop_line(k).len() >= 46 by {
        lemma_dec_nat_len(k);
    }
    assert(push_line()[6] != pop_line()[6]);
    assert forall|k: nat, i: int| 0 <= i <= 10 implies #[trigger] arg_pop_line(k)[i] == pop_line()[i] by {
        lemma_dec_nat_len(k);
    }
    assert forall|k: nat| line_effect(#[trigger] arg_pop_line(k)) == -1 by {
        lemma_dec_nat_len(k);
        assert(arg_pop_line(k)[6] != push_line()[6]);
        assert(is_arg_pop(arg_pop_line(k)));
    }
}

/// A line shorter than any push or pop leaves the stack.
proof fn lemma_neutral_short(l: Seq<char>)
    requires
        l.len() < 29,
    ensures
        line_effect(l) == 0,
{
    lemma_stack_lines();
    if is_arg_pop(l) {
        let k = choose|k: nat| l == arg_pop_line(k);
        assert(arg_pop_line(k).len() >= 46);
    }
}

/// A line that differs from every push and pop within its first eleven
/// characters leaves the stack.
proof fn lemma_neutral_at(l: Seq<char>, i: int)
    requires
        0 <= i <= 10,
        i < l.len(),
        l[i] != push_line()[i],
        l[i] != pop_line()[i],
    ensures
        line_effect(l) == 0,
{
    lemma_stack_lines();
    if is_arg_pop(l) {
        let k = choose|k: nat| l == arg_pop_line(k);
        assert(arg_pop_line(k)[i] == pop_line()[i]);
    }
}

proof fn lemma_load_effect(t: TypeV)
    ensures
        stack_effect(load_lines(t)) == 0,
{
    reveal_strlit("      ldrsb x0, [x0]");
    reveal_strlit("      ldrsh w0, [x0]");
    reveal_strlit("      ldr w0, [x0]");
    reveal_strlit("      ldr x0, [x0]");
    let ls = load_lines(t);
    assert forall|i: int| 0 <= i < ls.len() implies line_effect(#[trigger] ls[i]) == 0 by {
        lemma_neutral_short(ls[i]);
    }
    lemma_effect_neutral(ls);
}

proof fn lemma_byte_copy_effect(n: nat)
    ensures
        stack_effect(byte_copy_lines(n)) == 0,
    decreases n,
{
    if n > 0 {
        lemma_byte_copy_effect((n - 1) as nat);
        reveal_strlit("      ldrb w2, [x0, ");
        reveal_strlit("      strb w2, [x1, ");
        lemma_stack_lines();
        reveal_strlit("      str x0, [sp, -16]!  // push");
        reveal_strlit("      ldr x1, [sp], 16 // pop");
        let i = dec_nat((n - 1) as nat);
        let a = "      ldrb w2, [x0, "@ + i + "]"@;
        let b = "      strb w2, [x1, "@ + i + "]"@;
        lemma_neutral_at(a, 9);
        lemma_neutral_at(b, 9);
        lemma_effect_neutral(seq![a, b]);
        lemma_effect_add(byte_copy_lines((n - 1) as nat), seq![a, b]);
    }
}

proof fn lemma_store_effect(t: TypeV)
    ensures
        stack_effect(store_lines(t)) == 0,
{
    reveal_strlit("      strb w0, [x1]");
    reveal_strlit("      strh w0, [x1]");
    reveal_strlit("      str w0, [x1]");
    reveal_strlit("      str x0, [x1]");
    match t.kind {
        TypeKindV::Struct { .. } | TypeKindV::Union { .. } => {
            lemma_byte_copy_effect(t.size as nat);
        },
        _ => {
            let ls = store_lines(t);
            assert forall|i: int| 0 <= i < ls.len() implies line_effect(#[trigger] ls[i]) == 0 by {
                lemma_neutral_short(ls[i]);
            }
            lemma_effect_neutral(ls);
        },
    }
}

proof fn lemma_cast_effect(from: TypeV, to: TypeV)
    ensures
        cast_line(from, to) matches Some(l) ==> line_effect(l) == 0,
{
    reveal_strlit("      sxtb w0, w0");
    reveal_strlit("      sxtb x0, w0");
    reveal_strlit("      sxth w0, w0");
    reveal_strlit("      sxth x0, w0");
    reveal_strlit("      sxtw x0, w0");
    reveal_strlit("");
    if let Some(l) = cast_line(from, to) {
        lemma_neutral_short(l);
    }
}

proof fn lemma_op_effect(op: u8)
    ensures
        stack_effect(op_lines(op)) == 0,
{
    reveal_strlit("      add x0, x1, x0");
    reveal_strlit("      sub x0, x1, x0");
    reveal_strlit("      mul x0, x1, x0");
    reveal_strlit("      sdiv x0, x1, x0");
    reveal_strlit("      sdiv x2, x1, x0");
    reveal_strlit("      msub x0, x2, x0, x1");
    reveal_strlit("      cmp x0, x1");
    reveal_strlit("      cset x0, eq");
    reveal_strlit("      cset x0, ne");
    reveal_strlit("      cmp x1, x0");
    reveal_strlit("      cset x0, lt");
    reveal_strlit("      cset x0, le");
    reveal_strlit("      cset x0, gt");
    reveal_strlit("      cset x0, ge");
    reveal_strlit("      mov x2, 0");
    reveal_strlit("      cmp x1, 0");
    reveal_strlit("      cset x2, ne");
    reveal_strlit("      cmp x0, 0");
    reveal_strlit("      and x0, x0, x2");
    reveal_strlit("      orr x0, x0, x2");
    reveal_strlit("      and x0, x1, x0");
    reveal_strlit("      eor x0, x1, x0");
    reveal_strlit("      orr x0, x1, x0");
    let ls = op_lines(op);
    assert forall|i: int| 0 <= i < ls.len() implies line_effect(#[trigger] ls[i]) == 0 by {
        lemma_neutral_short(ls[i]);
    }
    lemma_effect_neutral(ls);
}

/// The lines of text that the emitter writes around code, which leave the
/// stack: each differs from every push and pop in its first characters.
proof fn lemma_neutral_texts(x: Seq<char>)
    ensures
        line_effect("      add x0, x29, "@ + x) == 0,
        line_effect("      adrp x0, "@ + x) == 0,
        line_effect("      add x0, x0, "@ + x) == 0,
        line_effect("      mov x0, "@ + x) == 0,
        line_effect("      neg x0, x0"@ + x) == 0,
        line_effect("      bl _"@ + x) == 0,
        line_effect("      b end."@ + x) == 0,
        line_effect("      cmp x0, 1"@ + x) == 0,
        line_effect("      b.ne else."@ + x) == 0,
        line_effect("      b.ne endif."@ + x) == 0,
        line_effect("      b endif."@ + x) == 0,
        line_effect("else."@ + x) == 0,
        line_effect("endif."@ + x) == 0,
        line_effect("      b cond."@ + x) == 0,
        line_effect("startfor."@ + x) == 0,
        line_effect("cond."@ + x) == 0,
        line_effect("      b.ne endfor."@ + x) == 0,
        line_effect("      b startfor."@ + x) == 0,
        line_effect("endfor."@ + x) == 0,
        line_effect("startwhile."@ + x) == 0,
        line_effect("      b.ne endwhile."@ + x) == 0,
        line_effect("      b startwhile."@ + x) == 0,
        line_effect("endwhile."@ + x) == 0,
{
    reveal_strlit("      add x0, x29, ");
    reveal_strlit("      adrp x0, ");
    reveal_strlit("      add x0, x0, ");
    reveal_strlit("      mov x0, ");
    reveal_strlit("      neg x0, x0");
    reveal_strlit("      bl _");
    reveal_strlit("      b end.");
    reveal_strlit("      cmp x0, 1");
    reveal_strlit("      b.ne else.");
    reveal_strlit("      b.ne endif.");
    reveal_strlit("      b endif.");
    reveal_strlit("else.");
    reveal_strlit("endif.");
    reveal_strlit("      b cond.");
    reveal_strlit("startfor.");
    reveal_strlit("cond.");
    reveal_strlit("      b.ne endfor.");
    reveal_strlit("      b startfor.");
    reveal_strlit("endfor.");
    reveal_strlit("startwhile.");
    reveal_strlit("      b.ne endwhile.");
    reveal_strlit("      b startwhile.");
    reveal_strlit("endwhile.");
    reveal_strlit("      str x0, [sp, -16]!  // push");
    reveal_strlit("      ldr x1, [sp], 16 // pop");
    lemma_neutral_at("      add x0, x29, "@ + x, 6);
    lemma_neutral_at("      adrp x0, "@ + x, 6);
    lemma_neutral_at("      add x0, x0, "@ + x, 6);
    lemma_neutral_at("      mov x0, "@ + x, 6);
    lemma_neutral_at("      neg x0, x0"@ + x, 6);
    lemma_neutral_at("      bl _"@ + x, 6);
    lemma_neutral_at("      b end."@ + x, 6);
    lemma_neutral_at("      cmp x0, 1"@ + x, 6);
    lemma_neutral_at("      b.ne else."@ + x, 6);
    lemma_neutral_at("      b.ne endif."@ + x, 6);
    lemma_neutral_at("      b endif."@ + x, 6);
    lemma_neutral_at("else."@ + x, 0);
    lemma_neutral_at("endif."@ + x, 0);
    lemma_neutral_at("      b cond."@ + x, 6);
    lemma_neutral_at("startfor."@ + x, 0);
    lemma_neutral_at("cond."@ + x, 0);
    lemma_neutral_at("      b.ne endfor."@ + x, 6);
    lemma_neutral_at("      b startfor."@ + x, 6);
    lemma_neutral_at("endfor."@ + x, 0);
    lemma_neutral_at("startwhile."@ + x, 0);
    lemma_neutral_at("      b.ne endwhile."@ + x, 6);
    lemma_neutral_at("      b startwhile."@ + x, 6);
    lemma_neutral_at("endwhile."@ + x, 0);
}

/// Pops of call arguments shrink the stack by one slot each.
proof fn lemma_pops_effect(hi: nat, lo: nat)
    ensures
        stack_effect(pops_below(hi, lo)) == if hi <= lo { 0 } else { lo - hi },
    decreases hi - lo,
{
    if hi > lo {
        lemma_pops_effect(hi, lo + 1);
        lemma_stack_lines();
        assert(line_effect(arg_pop_line(lo)) == -1);
        assert(seq!["      ldr x"@ + dec_nat(lo) + ", [sp], 16 // pop for function arg"@] =~= seq![arg_pop_line(lo)]);
        lemma_effect_add(pops_below(hi, lo + 1), seq![arg_pop_line(lo)]);
        lemma_effect_one(arg_pop_line(lo));
    }
}

/// The effect of a single line.
proof fn lemma_effect_one(l: Seq<char>)
    ensures
        stack_effect(seq![l]) == line_effect(l),
{
    assert(seq![l].drop_last() =~= Seq::<Seq<char>>::empty());
    assert(stack_effect(Seq::<Seq<char>>::empty()) == 0);
    assert(seq![l].last() == l);
}

/// Appending a line adds its effect.
proof fn lemma_effect_push(a: Seq<Seq<char>>, l: Seq<char>)
    ensures
        stack_effect(a.push(l)) == stack_effect(a) + line_effect(l),
{
    assert(a.push(l).drop_last() =~= a);
}

/// The code of an lvalue's address leaves the stack as it found it.
pub proof fn law_stack_addr(n: NodeV, vars: Seq<Var>, f: Seq<char>, li: usize, lf: usize)
    ensures
        gen_addr_spec(n, vars, f, li, lf) matches Ok((ls, _, _)) ==> stack_effect(ls) == 0,
    decreases n, 1nat,
{
    match n.kind {
        NodeKindV::Var { var } => {
            let v = vars[var as int];
            lemma_neutral_texts(dec_nat(v.offset as nat));
            lemma_neutral_texts(v.name@ + "@PAGE"@);
            lemma_neutral_texts(v.name@ + "@PAGEOFF;"@);
            assert("      adrp x0, "@ + v.name@ + "@PAGE"@ == "      adrp x0, "@ + (v.name@ + "@PAGE"@));
            assert("      add x0, x0, "@ + v.name@ + "@PAGEOFF;"@ == "      add x0, x0, "@ + (v.name@ + "@PAGEOFF;"@));
            if v.is_local {
                lemma_effect_one("      add x0, x29, "@ + dec_nat(v.offset as nat));
            } else {
                let ls = seq!["      adrp x0, "@ + v.name@ + "@PAGE"@, "      add x0, x0, "@ + v.name@ + "@PAGEOFF;"@];
                lemma_effect_neutral(ls);
            }
        },
        NodeKindV::Deref { lhs, .. } => law_stack_expr(*lhs, vars, f, li, lf),
        NodeKindV::Member { lhs, member } => {
            law_stack_addr(*lhs, vars, f, li, lf);
            if let Ok((a, _, _)) = gen_addr_spec(*lhs, vars, f, li, lf) {
                let l = "      add x0, x0, "@ + dec_nat(member.offset as nat);
                lemma_neutral_texts(dec_nat(member.offset as nat));
                lemma_effect_one(l);
                lemma_effect_add(a, seq![l]);
                assert(a.push(l) =~= a + seq![l]);
            }
        },
        _ => {},
    }
}

/// The code of an expression leaves the stack as it found it: every
/// operand it pushes it pops again.
#[verifier::spinoff_prover]
#[verifier::rlimit(80)]
pub proof fn law_stack_expr(n: NodeV, vars: Seq<Var>, f: Seq<char>, li: usize, lf: usize)
    ensures
        gen_expr_spec(n, vars, f, li, lf) matches Ok((ls, _, _)) ==> stack_effect(ls) == 0,
    decreases n, 2nat,
{
    lemma_stack_lines();
    match n.kind {
        NodeKindV::Num { val } => {
            lemma_neutral_texts(dec_int(val as int));
            lemma_effect_one("      mov x0, "@ + dec_int(val as int));
        },
        NodeKindV::Var { var } => {
            law_stack_addr(n, vars, f, li, lf);
            if let Ok((a, _, _)) = gen_addr_spec(n, vars, f, li, lf) {
                lemma_load_effect(vars[var as int].ty@);
                lemma_effect_add(a, load_lines(vars[var as int].ty@));
            }
        },
        NodeKindV::Cas { lhs } => {
            law_stack_expr(*lhs, vars, f, li, lf);
            if lhs.ty is Some && n.ty is Some {
                if let Ok((a, _, _)) = gen_expr_spec(*lhs, vars, f, li, lf) {
                    lemma_cast_effect(lhs.ty->0, n.ty->0);
                    if let Some(c) = cast_line(lhs.ty->0, n.ty->0) {
                        lemma_effect_one(c);
                        lemma_effect_add(a, seq![c]);
                        assert(a.push(c) =~= a + seq![c]);
                    }
                }
            }
        },
        NodeKindV::Member { .. } => {
            law_stack_addr(n, vars, f, li, lf);
            if n.ty is Some {
                if let Ok((a, _, _)) = gen_addr_spec(n, vars, f, li, lf) {
                    lemma_load_effect(n.ty->0);
                    lemma_effect_add(a, load_lines(n.ty->0));
                }
            }
        },
        NodeKindV::Add { lhs, rhs } => {
            lemma_stack_bin(*lhs, *rhs, 0u8, vars, f, li, lf);
            law_stack_expr(*lhs, vars, f, li, lf);
            if let Ok((_, i1, j1)) = gen_expr_spec(*lhs, vars, f, li, lf) {
                law_stack_expr(*rhs, vars, f, i1, j1);
            }
        },
        NodeKindV::Sub { lhs, rhs } => {
            lemma_stack_bin(*lhs, *rhs, 1u8, vars, f, li, lf);
            law_stack_expr(*lhs, vars, f, li, lf);
            if let Ok((_, i1, j1)) = gen_expr_spec(*lhs, vars, f, li, lf) {
                law_stack_expr(*rhs, vars, f, i1, j1);
            }
        },
        NodeKindV::Mul { lhs, rhs } => {
            lemma_stack_bin(*lhs, *rhs, 2u8, vars, f, li, lf);
            law_stack_expr(*lhs, vars, f, li, lf);
            if let Ok((_, i1, j1)) = gen_expr_spec(*lhs, vars, f, li, lf) {
                law_stack_expr(*rhs, vars, f, i1, j1);
            }
        },
        NodeKindV::Div { lhs, rhs } => {
            lemma_stack_bin(*lhs, *rhs, 3u8, vars, f, li, lf);
            law_stack_expr(*lhs, vars, f, li, lf);
            if let Ok((_, i1, j1)) = gen_expr_spec(*lhs, vars, f, li, lf) {
                law_stack_expr(*rhs, vars, f, i1, j1);
            }
        },
        NodeKindV::Mod { lhs, rhs } => {
            lemma_stack_bin(*lhs, *rhs, 4u8, vars, f, li, lf);
            law_stack_expr(*lhs, vars, f, li, lf);
            if let Ok((_, i1, j1)) = gen_expr_spec(*lhs, vars, f, li, lf) {
                law_stack_expr(*rhs, vars, f, i1, j1);
            }
        },
        NodeKindV::Eq { lhs, rhs } => {
            lemma_stack_bin(*lhs, *rhs, 5u8, vars, f, li, lf);
            law_stack_expr(*lhs, vars, f, li, lf);
            if let Ok((_, i1, j1)) = gen_expr_spec(*lhs, vars, f, li, lf) {
                law_stack_expr(*rhs, vars, f, i1, j1);
            }
        },
        NodeKindV::Ne { lhs, rhs } => {
            lemma_stack_bin(*lhs, *rhs, 6u8, vars, f, li, lf);
            law_stack_expr(*lhs, vars, f, li, lf);
            if let Ok((_, i1, j1)) = gen_expr_spec(*lhs, vars, f, li, lf) {
                law_stack_expr(*rhs, vars, f, i1, j1);
            }
        },
        NodeKindV::Lt { lhs, rhs } => {
            lemma_stack_bin(*lhs, *rhs, 7u8, vars, f, li, lf);
            law_stack_expr(*lhs, vars, f, li, lf);
            if let Ok((_, i1, j1)) = gen_expr_spec(*lhs, vars, f, li, lf) {
                law_stack_expr(*rhs, vars, f, i1, j1);
            }
        },
        NodeKindV::Le { lhs, rhs } => {
            lemma_stack_bin(*lhs, *rhs, 8u8, vars, f, li, lf);
            law_stack_expr(*lhs, vars, f, li, lf);
            if let Ok((_, i1, j1)) = gen_expr_spec(*lhs, vars, f, li, lf) {
                law_stack_expr(*rhs, vars, f, i1, j1);
            }
        },
        NodeKindV::Gt { lhs, rhs } => {
            lemma_stack_bin(*lhs, *rhs, 9u8, vars, f, li, lf);
            law_stack_expr(*lhs, vars, f, li, lf);
            if let Ok((_, i1, j1)) = gen_expr_spec(*lhs, vars, f, li, lf) {
                law_stack_expr(*rhs, vars, f, i1, j1);
            }
        },
        NodeKindV::Ge { lhs, rhs } => {
            lemma_stack_bin(*lhs, *rhs, 10u8, vars, f, li, lf);
            law_stack_expr(*lhs, vars, f, li, lf);
            if let Ok((_, i1, j1)) = gen_expr_spec(*lhs, vars, f, li, lf) {
                law_stack_expr(*rhs, vars, f, i1, j1);
            }
        },
        NodeKindV::And { lhs, rhs } => {
            lemma_stack_bin(*lhs, *rhs, 11u8, vars, f, li, lf);
            law_stack_expr(*lhs, vars, f, li, lf);
            if let Ok((_, i1, j1)) = gen_expr_spec(*lhs, vars, f, li, lf) {
                law_stack_expr(*rhs, vars, f, i1, j1);
            }
        },
        NodeKindV::Or { lhs, rhs } => {
            lemma_stack_bin(*lhs, *rhs, 12u8, vars, f, li, lf);
            law_stack_expr(*lhs, vars, f, li, lf);
            if let Ok((_, i1, j1)) = gen_expr_spec(*lhs, vars, f, li, lf) {
                law_stack_expr(*rhs, vars, f, i1, j1);
            }
        },
        NodeKindV::BitAnd { lhs, rhs } => {
            lemma_stack_bin(*lhs, *rhs, 13u8, vars, f, li, lf);
            law_stack_expr(*lhs, vars, f, li, lf);
            if let Ok((_, i1, j1)) = gen_expr_spec(*lhs, vars, f, li, lf) {
                law_stack_expr(*rhs, vars, f, i1, j1);
            }
        },
        NodeKindV::BitXor { lhs, rhs } => {
            lemma_stack_bin(*lhs, *rhs, 14u8, vars, f, li, lf);
            law_stack_expr(*lhs, vars, f, li, lf);
            if let Ok((_, i1, j1)) = gen_expr_spec(*lhs, vars, f, li, lf) {
                law_stack_expr(*rhs, vars, f, i1, j1);
            }
        },
        NodeKindV::BitOr { lhs, rhs } => {
            lemma_stack_bin(*lhs, *rhs, 15u8, vars, f, li, lf);
            law_stack_expr(*lhs, vars, f, li, lf);
            if let Ok((_, i1, j1)) = gen_expr_spec(*lhs, vars, f, li, lf) {
                law_stack_expr(*rhs, vars, f, i1, j1);
            }
        },
        NodeKindV::Neg { lhs } => {
            law_stack_expr(*lhs, vars, f, li, lf);
            if let Ok((a, _, _)) = gen_expr_spec(*lhs, vars, f, li, lf) {
                lemma_neutral_texts(seq![]);
                assert("      neg x0, x0"@ + seq![] =~= "      neg x0, x0"@);
                lemma_effect_one("      neg x0, x0"@);
                lemma_effect_add(a, seq!["      neg x0, x0"@]);
                assert(a.push("      neg x0, x0"@) =~= a + seq!["      neg x0, x0"@]);
            }
        },
        NodeKindV::NdAssign { lhs, rhs } => {
            law_stack_addr(*lhs, vars, f, li, lf);
            if let Ok((a, i1, j1)) = gen_addr_spec(*lhs, vars, f, li, lf) {
                law_stack_expr(*rhs, vars, f, i1, j1);
                if let Ok((b, _, _)) = gen_expr_spec(*rhs, vars, f, i1, j1) {
                    if n.ty is Some {
                        lemma_store_effect(n.ty->0);
                        lemma_pair_effect(a, b, store_lines(n.ty->0));
                    }
                }
            }
        },
        NodeKindV::Addr { lhs } => law_stack_addr(*lhs, vars, f, li, lf),
        NodeKindV::Deref { lhs, .. } => {
            law_stack_expr(*lhs, vars, f, li, lf);
            if n.ty is Some {
                if let Ok((a, _, _)) = gen_expr_spec(*lhs, vars, f, li, lf) {
                    lemma_load_effect(n.ty->0);
                    lemma_effect_add(a, load_lines(n.ty->0));
                }
            }
        },
        NodeKindV::FuncCall { name, args } => {
            law_stack_args(args, vars, f, li, lf);
            if let Ok((a, _, _)) = gen_args_spec(args, vars, f, li, lf) {
                lemma_pops_effect(args.len(), 0);
                lemma_neutral_texts(name);
                lemma_effect_one("      bl _"@ + name);
                lemma_effect_add(a, arg_pops(args.len()));
                lemma_effect_add(a + arg_pops(args.len()), seq!["      bl _"@ + name]);
            }
        },
        NodeKindV::GNUStmtExpr { body } => law_stack_stmts(body, vars, f, li, lf),
        _ => {},
    }
}

/// Pushing `a`'s value, computing `b`, popping, then `c`: as `a`, `b` and
/// `c` together.
proof fn lemma_pair_effect(a: Seq<Seq<char>>, b: Seq<Seq<char>>, c: Seq<Seq<char>>)
    ensures
        stack_effect(a.push(push_line()) + b.push(pop_line()) + c) == stack_effect(a) + stack_effect(b)
            + stack_effect(c),
{
    lemma_stack_lines();
    lemma_effect_add(a.push(push_line()) + b.push(pop_line()), c);
    lemma_effect_add(a.push(push_line()), b.push(pop_line()));
    lemma_effect_push(a, push_line());
    lemma_effect_push(b, pop_line());
}

/// The binary operations' code leaves the stack when its operands' code does.
proof fn lemma_stack_bin(l: NodeV, r: NodeV, op: u8, vars: Seq<Var>, f: Seq<char>, li: usize, lf: usize)
    ensures
        (gen_expr_spec(l, vars, f, li, lf) matches Ok((a, i1, j1)) && stack_effect(a) == 0 && (gen_expr_spec(
            r,
            vars,
            f,
            i1,
            j1,
        ) matches Ok((b, _, _)) ==> stack_effect(b) == 0)) ==> (bin_spec(l, r, op, vars, f, li, lf) matches Ok((
            ls,
            _,
            _,
        )) ==> stack_effect(ls) == 0),
{
    lemma_op_effect(op);
    if let Ok((a, i1, j1)) = gen_expr_spec(l, vars, f, li, lf) {
        if let Ok((b, _, _)) = gen_expr_spec(r, vars, f, i1, j1) {
            lemma_pair_effect(a, b, op_lines(op));
        }
    }
}

/// The code of call arguments leaves one pushed slot per argument.
pub proof fn law_stack_args(args: Seq<NodeV>, vars: Seq<Var>, f: Seq<char>, li: usize, lf: usize)
    ensures
        gen_args_spec(args, vars, f, li, lf) matches Ok((ls, _, _)) ==> stack_effect(ls) == args.len(),
    decreases args, 0nat,
{
    if args.len() > 0 {
        law_stack_args(args.drop_last(), vars, f, li, lf);
        if let Ok((a, i1, j1)) = gen_args_spec(args.drop_last(), vars, f, li, lf) {
            law_stack_expr(args.last(), vars, f, i1, j1);
            if let Ok((b, _, _)) = gen_expr_spec(args.last(), vars, f, i1, j1) {
                lemma_stack_lines();
                lemma_effect_add(a, b.push(push_line()));
                lemma_effect_push(b, push_line());
            }
        }
    }
}

/// The code of a list of statements leaves the stack as it found it.
pub proof fn law_stack_stmts(body: Seq<NodeV>, vars: Seq<Var>, f: Seq<char>, li: usize, lf: usize)
    ensures
        gen_stmts_spec(body, vars, f, li, lf) matches Ok((ls, _, _)) ==> stack_effect(ls) == 0,
    decreases body, 0nat,
{
    if body.len() > 0 {
        law_stack_stmts(body.drop_last(), vars, f, li, lf);
        if let Ok((a, i1, j1)) = gen_stmts_spec(body.drop_last(), vars, f, li, lf) {
            law_stack_stmt(body.last(), vars, f, i1, j1);
            if let Ok((b, _, _)) = gen_stmt_spec(body.last(), vars, f, i1, j1) {
                lemma_effect_add(a, b);
            }
        }
    }
}

/// The code of a statement leaves the stack as it found it.
#[verifier::spinoff_prover]
#[verifier::rlimit(80)]
pub proof fn law_stack_stmt(n: NodeV, vars: Seq<Var>, f: Seq<char>, li: usize, lf: usize)
    ensures
        gen_stmt_spec(n, vars, f, li, lf) matches Ok((ls, _, _)) ==> stack_effect(ls) == 0,
    decreases n, 0nat,
{
    match n.kind {
        NodeKindV::ExprStmt { lhs } => law_stack_expr(*lhs, vars, f, li, lf),
        NodeKindV::Return { lhs } => {
            law_stack_expr(*lhs, vars, f, li, lf);
            if let Ok((a, _, _)) = gen_expr_spec(*lhs, vars, f, li, lf) {
                lemma_neutral_texts(f);
                lemma_effect_one("      b end."@ + f);
                lemma_effect_add(a, seq!["      b end."@ + f]);
                assert(a.push("      b end."@ + f) =~= a + seq!["      b end."@ + f]);
            }
        },
        NodeKindV::Block { body } => law_stack_stmts(body, vars, f, li, lf),
        NodeKindV::If { cond, then, els } => {
            if li < usize::MAX {
                let l1 = (li + 1) as usize;
                let idx = dec_nat(li as nat);
                lemma_neutral_texts(idx);
                lemma_neutral_texts(idx + ":"@);
                lemma_neutral_texts(seq!['1']);
                law_stack_expr(*cond, vars, f, l1, lf);
                if let Ok((c, i1, j1)) = gen_expr_spec(*cond, vars, f, l1, lf) {
                    law_stack_stmt(*then, vars, f, i1, j1);
                    if let Ok((t, i2, j2)) = gen_stmt_spec(*then, vars, f, i1, j1) {
                        assert("else."@ + idx + ":"@ == "else."@ + (idx + ":"@));
                        assert("endif."@ + idx + ":"@ == "endif."@ + (idx + ":"@));
                        reveal_strlit("      cmp x0, 1");
                        reveal_strlit("      cmp x0, ");
                        assert("      cmp x0, 1"@ =~= "      cmp x0, "@ + seq!['1']) by {
                            reveal_strlit("1");
                        }
                        let s1 = seq!["      cmp x0, 1"@, "      b.ne else."@ + idx];
                        let s2 = seq!["      b endif."@ + idx, "else."@ + idx + ":"@];
                        let s3 = seq!["endif."@ + idx + ":"@];
                        let s1n = seq!["      cmp x0, 1"@, "      b.ne endif."@ + idx];
                        lemma_neutral_test_line();
                        lemma_effect_neutral(s1);
                        lemma_effect_neutral(s2);
                        lemma_effect_neutral(s3);
                        lemma_effect_neutral(s1n);
                        match els {
                            Some(el) => {
                                law_stack_stmt(*el, vars, f, i2, j2);
                                if let Ok((x, _, _)) = gen_stmt_spec(*el, vars, f, i2, j2) {
                                    lemma_effect_add(c, s1);
                                    lemma_effect_add(c + s1, t);
                                    lemma_effect_add(c + s1 + t, s2);
                                    lemma_effect_add(c + s1 + t + s2, x);
                                    lemma_effect_add(c + s1 + t + s2 + x, s3);
                                }
                            },
                            None => {
                                lemma_effect_add(c, s1n);
                                lemma_effect_add(c + s1n, t);
                                lemma_effect_add(c + s1n + t, s3);
                            },
                        }
                    }
                }
            }
        },
        NodeKindV::For { init, cond, inc, body } => {
            if lf < usize::MAX {
                let f1 = (lf + 1) as usize;
                let idx = dec_nat(lf as nat);
                lemma_neutral_texts(idx);
                lemma_neutral_texts(idx + ":"@);
                lemma_neutral_test_line();
                assert("startfor."@ + idx + ":"@ == "startfor."@ + (idx + ":"@));
                assert("cond."@ + idx + ":"@ == "cond."@ + (idx + ":"@));
                assert("endfor."@ + idx + ":"@ == "endfor."@ + (idx + ":"@));
                let s1 = seq!["      b cond."@ + idx, "startfor."@ + idx + ":"@];
                let s2 = seq!["cond."@ + idx + ":"@];
                let s3 = seq!["      b startfor."@ + idx, "endfor."@ + idx + ":"@];
                let s4 = seq!["      cmp x0, 1"@, "      b.ne endfor."@ + idx];
                lemma_effect_neutral(s1);
                lemma_effect_neutral(s2);
                lemma_effect_neutral(s3);
                lemma_effect_neutral(s4);
                law_stack_stmt(*init, vars, f, li, f1);
                if let Ok((a, i1, j1)) = gen_stmt_spec(*init, vars, f, li, f1) {
                    law_stack_stmt(*body, vars, f, i1, j1);
                    if let Ok((b, i2, j2)) = gen_stmt_spec(*body, vars, f, i1, j1) {
                        let rc: Emitted = match inc {
                            Some(x) => gen_expr_spec(*x, vars, f, i2, j2),
                            None => Ok((seq![], i2, j2)),
                        };
                        if let Some(x) = inc {
                            law_stack_expr(*x, vars, f, i2, j2);
                        }
                        if let Ok((c, i3, j3)) = rc {
                            let rd: Emitted = match cond {
                                Some(x) => match gen_expr_spec(*x, vars, f, i3, j3) {
                                    Ok((d, i4, j4)) => Ok((d + s4, i4, j4)),
                                    Err(e) => Err(e),
                                },
                                None => Ok((seq![], i3, j3)),
                            };
                            if let Some(x) = cond {
                                law_stack_expr(*x, vars, f, i3, j3);
                                if let Ok((d, _, _)) = gen_expr_spec(*x, vars, f, i3, j3) {
                                    lemma_effect_add(d, s4);
                                }
                            }
                            if let Ok((d, _, _)) = rd {
                                lemma_effect_add(a, s1);
                                lemma_effect_add(a + s1, b);
                                lemma_effect_add(a + s1 + b, c);
                                lemma_effect_add(a + s1 + b + c, s2);
                                lemma_effect_add(a + s1 + b + c + s2, d);
                                lemma_effect_add(a + s1 + b + c + s2 + d, s3);
                            }
                        }
                    }
                }
            }
        },
        NodeKindV::While { cond, body } => {
            if lf < usize::MAX {
                let f1 = (lf + 1) as usize;
                let idx = dec_nat(lf as nat);
                lemma_neutral_texts(idx);
                lemma_neutral_texts(idx + ":"@);
                lemma_neutral_test_line();
                assert("startwhile."@ + idx + ":"@ == "startwhile."@ + (idx + ":"@));
                assert("endwhile."@ + idx + ":"@ == "endwhile."@ + (idx + ":"@));
                let s1 = seq!["startwhile."@ + idx + ":"@];
                let s2 = seq!["      cmp x0, 1"@, "      b.ne endwhile."@ + idx];
                let s3 = seq!["      b startwhile."@ + idx, "endwhile."@ + idx + ":"@];
                lemma_effect_neutral(s1);
                lemma_effect_neutral(s2);
                lemma_effect_neutral(s3);
                law_stack_expr(*cond, vars, f, li, f1);
                if let Ok((c, i1, j1)) = gen_expr_spec(*cond, vars, f, li, f1) {
                    law_stack_stmt(*body, vars, f, i1, j1);
                    if let Ok((b, _, _)) = gen_stmt_spec(*body, vars, f, i1, j1) {
                        lemma_effect_add(s1, c);
                        lemma_effect_add(s1 + c, s2);
                        lemma_effect_add(s1 + c + s2, b);
                        lemma_effect_add(s1 + c + s2 + b, s3);
                    }
                }
            }
        },
        _ => {},
    }
}

/// The comparison with 1 that a condition ends with leaves the stack.
proof fn lemma_neutral_test_line()
    ensures
        line_effect("      cmp x0, 1"@) == 0,
{
    reveal_strlit("      cmp x0, 1");
    lemma_neutral_short("      cmp x0, 1"@);
}

//
// typing
//

/// Typing a node that typing gave changes nothing: `add_type` may be
/// applied again to what it returned.
pub proof fn law_typing_idempotent(n: NodeV, vars: Seq<Var>)
    ensures
        spec_add_type(n, vars) matches Ok(m) ==> spec_add_type(m, vars) == Ok::<NodeV, CompileErrorV>(m),
    decreases n,
{
    if n.ty is None {
        match n.kind {
            NodeKindV::NdAssign { lhs, rhs } => {
                law_typing_idempotent(*lhs, vars);
                law_typing_idempotent(*rhs, vars);
            },
            NodeKindV::Addr { lhs } => law_typing_idempotent(*lhs, vars),
            NodeKindV::Neg { lhs } => law_typing_idempotent(*lhs, vars),
            NodeKindV::Return { lhs } => law_typing_idempotent(*lhs, vars),
            NodeKindV::ExprStmt { lhs } => law_typing_idempotent(*lhs, vars),
            _ => {},
        }
    }
}

//
// tokens
//

/// The token lies within the source `s`, and a punctuator, identifier or
/// keyword is the source text at its position.
pub open spec fn tok_in_source(s: Seq<char>, t: TokenV) -> bool {
    &&& t.start + t.len <= s.len()
    &&& match t.kind {
        TokenKindV::Punct { str } => s.subrange(t.start as int, t.start + t.len) == str,
        TokenKindV::Ident { name } => s.subrange(t.start as int, t.start + t.len) == name,
        TokenKindV::Keyword { name } => s.subrange(t.start as int, t.start + t.len) == name,
        _ => true,
    }
}

proof fn lemma_cons_in_source(s: Seq<char>, t: TokenV, r: Result<Seq<TokenV>, CompileErrorV>)
    requires
        tok_in_source(s, t),
        r matches Ok(ts) ==> forall|i: int| 0 <= i < ts.len() ==> tok_in_source(s, #[trigger] ts[i]),
    ensures
        cons_tok(t, r) matches Ok(ts) ==> forall|i: int| 0 <= i < ts.len() ==> tok_in_source(s, #[trigger] ts[i]),
{
    if let Ok(ts) = r {
        assert forall|i: int| 0 <= i < (seq![t] + ts).len() implies tok_in_source(s, #[trigger] (seq![t] + ts)[i]) by {
            if i > 0 {
                assert((seq![t] + ts)[i] == ts[i - 1]);
            }
        }
    }
}

/// Diagnostics point at the right text: every token that the tokenizer gives
/// lies within the source, and every punctuator or identifier is the source
/// text at its position.
#[verifier::spinoff_prover]
#[verifier::rlimit(60)]
pub proof fn law_tokens_in_source(s: Seq<char>, p: nat)
    requires
        s.len() <= usize::MAX,
    ensures
        lex_from(s, p) matches Ok(ts) ==> forall|i: int| 0 <= i < ts.len() ==> tok_in_source(s, #[trigger] ts[i]),
    decreases s.len() - p,
{
    if p < s.len() {
        let c = s[p as int];
        if c == ' ' || c == '\n' {
            law_tokens_in_source(s, p + 1);
        } else if at2(s, p as int, '/', '/') {
            lemma_line_end(s, p + 2);
            law_tokens_in_source(s, line_end(s, p + 2));
        } else if at2(s, p as int, '/', '*') {
            lemma_comment_end(s, p + 2);
            if let Some(q) = comment_end(s, p + 2) {
                law_tokens_in_source(s, q + 2);
            }
        } else if is_digit(c) {
            lemma_digits_end(s, p);
            let q = digits_end(s, p);
            let d = s.subrange(p as int, q as int);
            assert forall|i: int| 0 <= i < d.len() implies is_digit(#[trigger] d[i]) by {
                assert(d[i] == s[p + i]);
            }
            lemma_dec_len_le(d);
            law_tokens_in_source(s, q);
            let v = digits_val(d);
            if v <= isize::MAX {
                lemma_cons_in_source(s, num_tok(v, q), lex_from(s, q));
            }
        } else if p + 1 < s.len() && is_punct2(c, s[p + 1int]) {
            let t = TokenV { kind: TokenKindV::Punct { str: seq![c, s[p + 1int]] }, start: p as usize, len: 2 };
            assert(s.subrange(p as int, p + 2int) =~= seq![c, s[p + 1int]]);
            law_tokens_in_source(s, p + 2);
            lemma_cons_in_source(s, t, lex_from(s, p + 2));
        } else if is_punct1(c) {
            let t = TokenV { kind: TokenKindV::Punct { str: seq![c] }, start: p as usize, len: 1 };
            assert(s.subrange(p as int, p + 1int) =~= seq![c]);
            law_tokens_in_source(s, p + 1);
            lemma_cons_in_source(s, t, lex_from(s, p + 1));
        } else if c == '"' {
            lemma_str_body(s, p + 1);
            if let Some((q, b)) = str_body(s, p + 1) {
                let t = TokenV {
                    kind: TokenKindV::Str { str: b.push('\0') },
                    start: (q + 1 - (b.len() + 1)) as usize,
                    len: (b.len() + 1) as usize,
                };
                law_tokens_in_source(s, q + 1);
                lemma_cons_in_source(s, t, lex_from(s, q + 1));
            }
        } else if is_ident1(c) {
            lemma_ident_end(s, p);
            let q = ident_end(s, p);
            let t = TokenV {
                kind: TokenKindV::Ident { name: s.subrange(p as int, q as int) },
                start: p as usize,
                len: (q - p) as usize,
            };
            law_tokens_in_source(s, q);
            lemma_cons_in_source(s, t, lex_from(s, q));
        }
    }
}

/// Turning identifiers into keywords keeps tokens at their text.
pub proof fn law_keywords_in_source(s: Seq<char>, t: TokenV)
    requires
        tok_in_source(s, t),
    ensures
        tok_in_source(s, kw_tok(t)),
{
}

} // verus!
