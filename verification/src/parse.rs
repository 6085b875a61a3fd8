//! The recursive-descent parser: declarations, statements and expressions.
//!
//! Every parsing function keeps the context well formed, only moves tokens
//! from the front of the untaken tokens to the end of the taken ones, and
//! returns syntax trees whose variables exist.
use vstd::prelude::*;
use vstd::string::*;
use crate::diag::{CompileError, CompileErrorV, abort, err_at};
use crate::layout::{size_aligns, struct_layout, union_layout};
use crate::symbols::{ctx_wf, cur_fn, fn_index, fn_ok, lemma_fn_index, lemma_fn_index_at, lemma_fn_index_names, lemma_same_fns_index, lookup_enum, lookup_enum_member, lookup_tag, lookup_typedef, lookup_var, same_but_functions, scope_entered, scope_left};
use crate::text::{dec_nat, push_usize, str_eq, string_eq, string_of};
use crate::tokenize::{all_ascii, at_tok_err, eof_err, equal, kw_tok, lex_from, same_but_tokens, stream, tok_is};
use crate::type_utils::{all_nvars_ok, array_tv, cast_nv, char_tv, copy_type, copy_var_type, get_pointer_or_array_size, int_tv, is_integer_node, is_integer_tv, is_pointer_node, is_pointer_tv, lemma_all_nvars_ok, lemma_all_nvars_ok_mono, lemma_nvars_ok_mono, long_tv, new_array_ty, new_char_ty, new_int_ty, new_long_ty, new_ptr_to, new_short, nvars_ok, pointee_tv, ptr_tv, res_nv, short_tv, spec_add_type};
use crate::types::{Ctx, Enum, EnumMember, Function, enmsv, lemma_enmsv_len, InitGval, Member, MemberV, EnumMemberV, Node, NodeKind, NodeKindV, NodeV, Token, TokenKind, TokenKindV, TokenV, Type, TypeKind, TypeKindV, TypeV, TypedefType, Var, dup_opt_type, lemma_memsv_len, lemma_nodesv_len, lemma_nodesv_push, memsv, memv, nodesv, toksv, tyv};

verus! {

/// What every parsing step keeps: the context stays well formed, the tokens
/// taken and still to take form the same stream, no token is given back, the
/// source and the current function stay, no variable is removed, and the
/// functions keep their names and order.
pub open spec fn step(a: Ctx, b: Ctx) -> bool {
    &&& ctx_wf(b)
    &&& stream(b) == stream(a)
    &&& b.tokens@.len() <= a.tokens@.len()
    &&& b.input == a.input
    &&& b.pos == a.pos
    &&& b.cur_func == a.cur_func
    &&& b.cur_file == a.cur_file
    &&& a.vars@.len() <= b.vars@.len()
    &&& names_kept(a, b)
}

/// The same functions, by name, in the same order.
pub open spec fn names_kept(a: Ctx, b: Ctx) -> bool {
    &&& b.functions@.len() == a.functions@.len()
    &&& forall|j: int| 0 <= j < a.functions@.len() ==> #[trigger] b.functions@[j].name == a.functions@[j].name
}

/// Every function has as many open scopes in `b` as in `a`: a construct
/// that parsed closes every scope it opened.
pub open spec fn scopes_kept(a: Ctx, b: Ctx) -> bool {
    forall|j: int| 0 <= j < a.functions@.len() ==> #[trigger] b.functions@[j].scopes@.len() == a.functions@[j].scopes@.len()
}

/// Entering a scope, parsing what keeps the open scopes, then leaving the
/// scope keeps the open scopes.
#[verifier::spinoff_prover]
proof fn lemma_enter_leave_kept(a: Ctx, b: Ctx, c: Ctx, d: Ctx)
    requires
        ctx_wf(a),
        same_but_functions(b, a),
        scope_entered(a, b),
        names_kept(b, c),
        scopes_kept(b, c),
        c.cur_func == b.cur_func,
        same_but_functions(d, c),
        scope_left(c, d),
    ensures
        scopes_kept(a, d),
        names_kept(a, d),
{
    let fi = cur_fn(a)->0;
    lemma_fn_index(a.functions@, a.cur_func@);
    lemma_same_fns_index(a.functions@, b.functions@, fi, a.cur_func@);
    lemma_fn_index_names(b.functions@, c.functions@, a.cur_func@);
    assert(cur_fn(c) == Some(fi));
    lemma_same_fns_index(c.functions@, d.functions@, fi, a.cur_func@);
    assert forall|j: int| 0 <= j < a.functions@.len() implies #[trigger] d.functions@[j].scopes@.len()
        == a.functions@[j].scopes@.len() by {
        if j != fi {
            assert(b.functions@[j] == a.functions@[j]);
            assert(d.functions@[j] == c.functions@[j]);
        }
    }
    assert forall|j: int| 0 <= j < a.functions@.len() implies #[trigger] d.functions@[j].name == a.functions@[j].name by {
        if j != fi {
            assert(b.functions@[j] == a.functions@[j]);
            assert(d.functions@[j] == c.functions@[j]);
        }
    }
}

pub open spec fn node_ok(n: Node, c: Ctx) -> bool {
    nvars_ok(n@, c.vars@.len())
}

pub open spec fn nodes_ok(ns: Seq<Node>, c: Ctx) -> bool {
    all_nvars_ok(nodesv(ns), c.vars@.len())
}

/// The error for a token `t` with message `msg`, or the end-of-input error
/// when there is no token.
pub open spec fn tok_err(ts: Seq<Token>, msg: Seq<char>) -> CompileErrorV {
    if ts.len() == 0 {
        eof_err()
    } else {
        at_tok_err(ts[0]@, msg)
    }
}

proof fn lemma_node_mono(n: Node, a: Ctx, b: Ctx)
    requires
        node_ok(n, a),
        a.vars@.len() <= b.vars@.len(),
    ensures
        node_ok(n, b),
{
    lemma_nvars_ok_mono(n@, a.vars@.len(), b.vars@.len());
}

proof fn lemma_nodes_mono(ns: Seq<Node>, a: Ctx, b: Ctx)
    requires
        nodes_ok(ns, a),
        a.vars@.len() <= b.vars@.len(),
    ensures
        nodes_ok(ns, b),
{
    lemma_all_nvars_ok_mono(nodesv(ns), a.vars@.len(), b.vars@.len());
}

proof fn lemma_nodes_push(ns: Seq<Node>, n: Node, c: Ctx)
    requires
        nodes_ok(ns, c),
        node_ok(n, c),
    ensures
        nodes_ok(ns.push(n), c),
{
    lemma_nodesv_push(ns, n);
    lemma_nodesv_len(ns);
    lemma_nodesv_len(ns.push(n));
    lemma_all_nvars_ok(nodesv(ns), c.vars@.len());
    lemma_all_nvars_ok(nodesv(ns.push(n)), c.vars@.len());
    assert forall|i: int| 0 <= i < nodesv(ns.push(n)).len() implies nvars_ok(
        #[trigger] nodesv(ns.push(n))[i],
        c.vars@.len(),
    ) by {
        if i < ns.len() {
            assert(nodesv(ns.push(n))[i] == nodesv(ns)[i]);
        }
    }
}

proof fn lemma_nodes_empty(c: Ctx)
    ensures
        nodes_ok(Seq::<Node>::empty(), c),
{
    assert(nodesv(Seq::<Node>::empty()) =~= Seq::empty());
}

/// The error that stops the parser when a token is missing at the end.
fn eof() -> (e: CompileError)
    ensures
        e@ == eof_err(),
{
    abort("unexpected end of input")
}

/// The diagnostic `msg` at the next token, or the end-of-input error.
fn err_tok0(ts: &Vec<Token>, msg: &str) -> (e: CompileError)
    ensures
        e@ == tok_err(ts@, msg@),
{
    if ts.len() == 0 {
        eof()
    } else {
        err_at(ts[0].start, ts[0].len, msg)
    }
}

/// The members of a struct or union type.
pub open spec fn members_of(t: TypeV) -> Option<Seq<MemberV>> {
    match t.kind {
        TypeKindV::Struct { members } => Some(members),
        TypeKindV::Union { members } => Some(members),
        _ => None,
    }
}

/// The first member named `name`.
pub open spec fn first_member(ms: Seq<MemberV>, name: Seq<char>) -> Option<MemberV>
    decreases ms.len(),
{
    if ms.len() == 0 {
        None
    } else if ms[0].name == name {
        Some(ms[0])
    } else {
        first_member(ms.drop_first(), name)
    }
}

/// A copy of the first member named `name`.
fn find_member(members: &Vec<Member>, name: &String) -> (r: Option<Member>)
    ensures
        match first_member(memsv(members@), name@) {
            Some(m) => r matches Some(x) && x@ == m,
            None => r is None,
        },
{
    let ghost ms = memsv(members@);
    proof {
        lemma_memsv_len(members@);
        assert(ms.skip(0) =~= ms);
    }
    let mut i: usize = 0;
    while i < members.len()
        invariant
            i <= members@.len(),
            ms == memsv(members@),
            ms.len() == members@.len(),
            forall|k: int| 0 <= k < members@.len() ==> #[trigger] ms[k] == memv(members@[k]),
            first_member(ms, name@) == first_member(ms.skip(i as int), name@),
        decreases members.len() - i,
    {
        proof {
            assert(ms.skip(i as int)[0] == ms[i as int]);
            assert(ms.skip(i as int).drop_first() =~= ms.skip(i + 1));
        }
        if string_eq(&members[i].name, name) {
            return Some(members[i].dup());
        }
        i += 1;
    }
    None
}

/// The tag that a `struct`, `union` or `enum` specifier refers to without
/// declaring members: an identifier not followed by `{`.
pub open spec fn tag_named(ts: Seq<Token>) -> Option<Seq<char>> {
    if ts.len() > 1 {
        match ts[0].kind {
            TokenKind::Ident { name } => if name@.len() > 0 && !tok_is(ts[1]@, "{"@) {
                Some(name@)
            } else {
                None
            },
            _ => None,
        }
    } else {
        None
    }
}

/// The name of an identifier token.
pub open spec fn ident_name(t: Token) -> Seq<char> {
    match t.kind {
        TokenKind::Ident { name } => name@,
        _ => Seq::empty(),
    }
}

/// Each member's name and type.
pub open spec fn mem_pairs(ms: Seq<Member>) -> Seq<(Seq<char>, TypeV)> {
    ms.map_values(|m: Member| (m.name@, m.ty@))
}

/// The members that declarations of the plain shape `keyword ident ;` list
/// up to the closing `}`, each with the type the keyword names, and how
/// many tokens they take with the `}`; `None` where the tokens are not of
/// that shape.
pub open spec fn plain_members(ts: Seq<Token>) -> Option<(Seq<(Seq<char>, TypeV)>, int)>
    decreases ts.len(),
{
    if ts.len() == 0 {
        None
    } else if tok_is(ts[0]@, "}"@) {
        Some((Seq::empty(), 1))
    } else if ts.len() > 2 && kw_type(ts[0]@) is Some && ts[1].kind is Ident && tok_is(ts[2]@, ";"@) {
        match plain_members(ts.skip(3)) {
            Some((ms, n)) => Some((seq![(ident_name(ts[1]), kw_type(ts[0]@)->0)] + ms, n + 3)),
            None => None,
        }
    } else {
        None
    }
}

//
// struct, union and enum
//

impl Ctx {
    fn need(&self) -> (r: Result<(), CompileError>)
        ensures
            r is Ok <==> self.tokens@.len() > 0,
            r matches Err(e) ==> e@ == eof_err(),
    {
        if self.tokens.len() == 0 {
            Err(eof())
        } else {
            Ok(())
        }
    }

    /// The tag after `struct` or `union`, taken when there is one.
    fn take_tag(&mut self) -> (r: Result<String, CompileError>)
        requires
            ctx_wf(*old(self)),
        ensures
            step(*old(self), *final(self)),
            r is Ok ==> scopes_kept(*old(self), *final(self)),
            same_but_tokens(*final(self), *old(self)),
            match r {
                Ok(t) => match old(self).tokens@[0].kind {
                    TokenKind::Ident { name } => t == name && final(self).tokens@ == old(
                        self,
                    ).tokens@.drop_first(),
                    _ => t@.len() == 0 && final(self).tokens == old(self).tokens,
                },
                Err(e) => old(self).tokens@.len() == 0 && e@ == eof_err(),
            },
    {
        self.need()?;
        let tag = match &self.tokens[0].kind {
            TokenKind::Ident { name } => name.clone(),
            _ => String::new(),
        };
        match &self.tokens[0].kind {
            TokenKind::Ident { .. } => {
                self.advance(1);
            },
            _ => {},
        }
        Ok(tag)
    }

    /// `union tag? { members }`: the union type, declared under its tag; or
    /// the type a tag names when no member list follows.
    fn union_decl(&mut self) -> (r: Result<Type, CompileError>)
        requires
            ctx_wf(*old(self)),
        ensures
            step(*old(self), *final(self)),
            r is Ok ==> scopes_kept(*old(self), *final(self)),
            r matches Ok(t) ==> match tag_named(old(self).tokens@) {
                Some(name) => cur_fn(*old(self)) matches Some(fi) && lookup_tag(old(self).functions@[fi].scopes@, name)
                    == Some(t@),
                None => t@.kind is Union,
            },
            tag_named(old(self).tokens@) matches Some(name) ==> match cur_fn(*old(self)) {
                None => r is Err,
                Some(fi) => match lookup_tag(old(self).functions@[fi].scopes@, name) {
                    Some(t) => r matches Ok(x) && x@ == t && final(self).tokens@ == old(self).tokens@.drop_first(),
                    None => r matches Err(e) && e@ == tok_err(old(self).tokens@.drop_first(), "unknown struct type"@),
                },
            },
            empty_body(old(self).tokens@) ==> (r matches Ok(x) && x@ == (TypeV {
                kind: TypeKindV::Union { members: Seq::empty() },
                size: 0,
                align: 0,
            }) && final(self).tokens@ == old(self).tokens@.skip(2)),
        decreases old(self).tokens@.len(), 6nat,
    {
        let tag = self.take_tag()?;
        self.need()?;
        if !tag.as_str().is_empty() && !self.hequal("{") {
            match self.find_tag(&tag)? {
                Some(ty) => {
                    return Ok(ty);
                },
                None => {
                    return Err(err_tok0(&self.tokens, "unknown struct type"));
                },
            }
        }
        self.skip("{")?;
        let members = self.struct_members()?;
        proof {
            lemma_memsv_len(members@);
            if empty_body(old(self).tokens@) {
                assert(memsv(members@) =~= Seq::empty());
                assert(size_aligns(members@) =~= Seq::empty());
                assert(self.tokens@ =~= old(self).tokens@.skip(2));
            }
        }
        let (size, align) = union_layout(&members)?;
        let ty = Type { kind: TypeKind::Union { members }, size, align };
        if !tag.as_str().is_empty() {
            self.push_tag(tag, ty.dup())?;
        }
        Ok(ty)
    }

    /// `struct tag? { members }`: the struct type with its members laid out,
    /// declared under its tag; or the type a tag names when no member list
    /// follows.
    fn struct_decl(&mut self) -> (r: Result<Type, CompileError>)
        requires
            ctx_wf(*old(self)),
        ensures
            step(*old(self), *final(self)),
            r is Ok ==> scopes_kept(*old(self), *final(self)),
            r matches Ok(t) ==> match tag_named(old(self).tokens@) {
                Some(name) => cur_fn(*old(self)) matches Some(fi) && lookup_tag(old(self).functions@[fi].scopes@, name)
                    == Some(t@),
                None => t@.kind is Struct,
            },
            tag_named(old(self).tokens@) matches Some(name) ==> match cur_fn(*old(self)) {
                None => r is Err,
                Some(fi) => match lookup_tag(old(self).functions@[fi].scopes@, name) {
                    Some(t) => r matches Ok(x) && x@ == t && final(self).tokens@ == old(self).tokens@.drop_first(),
                    None => r matches Err(e) && e@ == tok_err(old(self).tokens@.drop_first(), "unknown struct type"@),
                },
            },
            empty_body(old(self).tokens@) ==> (r matches Ok(x) && x@ == (TypeV {
                kind: TypeKindV::Struct { members: Seq::empty() },
                size: 0,
                align: 0,
            }) && final(self).tokens@ == old(self).tokens@.skip(2)),
        decreases old(self).tokens@.len(), 6nat,
    {
        let tag = self.take_tag()?;
        self.need()?;
        if !tag.as_str().is_empty() && !self.hequal("{") {
            match self.find_tag(&tag)? {
                Some(ty) => {
                    return Ok(ty);
                },
                None => {
                    return Err(err_tok0(&self.tokens, "unknown struct type"));
                },
            }
        }
        self.skip("{")?;
        let mut members = self.struct_members()?;
        proof {
            lemma_memsv_len(members@);
            if empty_body(old(self).tokens@) {
                assert(memsv(members@) =~= Seq::empty());
                assert(size_aligns(members@) =~= Seq::empty());
                assert(self.tokens@ =~= old(self).tokens@.skip(2));
            }
        }
        let (size, align) = struct_layout(&mut members)?;
        proof {
            lemma_memsv_len(members@);
            if empty_body(old(self).tokens@) {
                assert(memsv(members@) =~= Seq::empty());
            }
        }
        let ty = Type { kind: TypeKind::Struct { members }, size, align };
        if !tag.as_str().is_empty() {
            self.push_tag(tag, ty.dup())?;
        }
        Ok(ty)
    }

    /// Member declarations up to the closing `}`; offsets are left at zero.
    fn struct_members(&mut self) -> (r: Result<Vec<Member>, CompileError>)
        requires
            ctx_wf(*old(self)),
        ensures
            step(*old(self), *final(self)),
            r is Ok ==> scopes_kept(*old(self), *final(self)),
            r matches Ok(ms) ==> forall|i: int| 0 <= i < ms@.len() ==> (#[trigger] ms@[i]).offset == 0,
            brace_first(old(self).tokens@) ==> (r matches Ok(ms) && ms@.len() == 0 && final(self).tokens@
                == old(self).tokens@.drop_first()),
            plain_members(old(self).tokens@) matches Some((ms, n)) ==> (r matches Ok(v) && mem_pairs(v@) == ms
                && final(self).tokens@ == old(self).tokens@.skip(n)),
        decreases old(self).tokens@.len(), 7nat,
    {
        let mut members: Vec<Member> = Vec::new();
        let ghost mut c: int = 0;
        proof {
            assert(old(self).tokens@.skip(0) =~= old(self).tokens@);
            assert(mem_pairs(members@) =~= Seq::empty());
            if let Some((rest, n)) = plain_members(self.tokens@) {
                assert(mem_pairs(members@) + rest =~= rest);
            }
        }
        loop
            invariant_except_break
                brace_first(old(self).tokens@) ==> (self.tokens == old(self).tokens && members@.len() == 0),
                plain_members(old(self).tokens@) is Some ==> (0 <= c <= old(self).tokens@.len() && self.tokens@
                    == old(self).tokens@.skip(c) && plain_members(old(self).tokens@) == match plain_members(
                    self.tokens@,
                ) {
                    Some((rest, n)) => Some((mem_pairs(members@) + rest, c + n)),
                    None => None,
                }),
            invariant
                step(*old(self), *self),
                scopes_kept(*old(self), *self),
                forall|i: int| 0 <= i < members@.len() ==> (#[trigger] members@[i]).offset == 0,
            ensures
                step(*old(self), *self),
                scopes_kept(*old(self), *self),
                forall|i: int| 0 <= i < members@.len() ==> (#[trigger] members@[i]).offset == 0,
                brace_first(old(self).tokens@) ==> (self.tokens@ == old(self).tokens@.drop_first()
                    && members@.len() == 0),
                plain_members(old(self).tokens@) matches Some((ms, n)) ==> (mem_pairs(members@) == ms
                    && self.tokens@ == old(self).tokens@.skip(n)),
            decreases self.tokens@.len(),
        {
            let ghost t = self.tokens@;
            self.need()?;
            if self.consume("}") {
                proof {
                    assert(mem_pairs(members@) + Seq::<(Seq<char>, TypeV)>::empty() =~= mem_pairs(members@));
                    if plain_members(old(self).tokens@) is Some {
                        assert(old(self).tokens@.skip(c).drop_first() =~= old(self).tokens@.skip(c + 1));
                    }
                }
                break;
            }
            let ghost t0 = self.tokens@.len();
            let ghost before = members@;
            let base_ty = self.declspec()?;
            loop
                invariant_except_break
                    plain_members(old(self).tokens@) is Some ==> (plain_members(t) is Some && !brace_first(t)
                        && base_ty@ == kw_type(t[0]@)->0 && ((self.tokens@ == t.drop_first() && members@ == before)
                        || (self.tokens@ == t.skip(2) && mem_pairs(members@) == mem_pairs(before).push(
                        (ident_name(t[1]), kw_type(t[0]@)->0),
                    )))),
                invariant
                    step(*old(self), *self),
                    scopes_kept(*old(self), *self),
                    self.tokens@.len() <= t0,
                    forall|i: int| 0 <= i < members@.len() ==> (#[trigger] members@[i]).offset == 0,
                    !brace_first(old(self).tokens@),
                ensures
                    step(*old(self), *self),
                    scopes_kept(*old(self), *self),
                    !brace_first(old(self).tokens@),
                    self.tokens@.len() < t0,
                    forall|i: int| 0 <= i < members@.len() ==> (#[trigger] members@[i]).offset == 0,
                    plain_members(old(self).tokens@) is Some ==> (self.tokens@ == t.skip(3) && mem_pairs(members@)
                        == mem_pairs(before).push((ident_name(t[1]), kw_type(t[0]@)->0))),
                decreases self.tokens@.len(),
            {
                self.need()?;
                if self.consume(";") {
                    proof {
                        if plain_members(old(self).tokens@) is Some {
                            assert(t.skip(2).drop_first() =~= t.skip(3));
                        }
                    }
                    break;
                }
                proof {
                    if plain_members(old(self).tokens@) is Some {
                        lemma_semi_ends_expr(t[2]@);
                        assert(self.tokens@[0] == t[1]);
                        assert(self.tokens@.skip(1) =~= t.skip(2));
                        assert(self.tokens@.skip(1)[0] == t[2]);
                        assert(stars(self.tokens@) == 0);
                        assert(ptr_n(base_ty@, 0) == base_ty@);
                    }
                }
                let (ty, name, _) = self.declarator(base_ty.dup())?;
                let ghost m0 = members@;
                members.push(Member { name, ty, offset: 0 });
                proof {
                    assert(mem_pairs(members@) =~= mem_pairs(m0).push((members@.last().name@, members@.last().ty@)));
                    if plain_members(old(self).tokens@) is Some {
                        assert(self.tokens@ =~= t.skip(2));
                    }
                }
                self.need()?;
                if self.hequal(",") {
                    self.advance(1);
                    continue;
                }
            }
            proof {
                if plain_members(old(self).tokens@) is Some {
                    assert(t.skip(3) =~= old(self).tokens@.skip(c + 3));
                    if let Some((ms, n)) = plain_members(t.skip(3)) {
                        assert(mem_pairs(before) + (seq![(ident_name(t[1]), kw_type(t[0]@)->0)] + ms)
                            =~= mem_pairs(members@) + ms);
                    }
                }
                c = c + 3;
            }
        }
        Ok(members)
    }

    /// The member `name` of a struct or union type: its first member of
    /// that name.
    fn get_struct_member(&self, ty: &Type, name: &String) -> (r: Result<Member, CompileError>)
        ensures
            match members_of(ty@) {
                Some(ms) => match first_member(ms, name@) {
                    Some(m) => r matches Ok(x) && x@ == m,
                    None => r matches Err(e) && e@ == tok_err(self.tokens@, "no such member"@),
                },
                None => r matches Err(e) && e@ == tok_err(self.tokens@, "no such member"@),
            },
    {
        let found = match &ty.kind {
            TypeKind::Struct { members } => find_member(members, name),
            TypeKind::Union { members } => find_member(members, name),
            _ => None,
        };
        match found {
            Some(m) => Ok(m),
            None => Err(err_tok0(&self.tokens, "no such member")),
        }
    }

    /// `lhs . ident`: the member access node, typed as the member.
    fn struct_ref(&mut self, lhs: Node) -> (r: Result<Node, CompileError>)
        requires
            ctx_wf(*old(self)),
            node_ok(lhs, *old(self)),
        ensures
            step(*old(self), *final(self)),
            r is Ok ==> scopes_kept(*old(self), *final(self)),
            same_but_tokens(*final(self), *old(self)),
            r matches Ok(n) ==> node_ok(n, *final(self)) && n@.ty is Some,
            match spec_add_type(lhs@, old(self).vars@) {
                Err(e) => r matches Err(x) && x@ == e,
                Ok(l) => match l.ty {
                    None => r is Err,
                    Some(t) => match members_of(t) {
                        None => r matches Err(e) && e@ == tok_err(old(self).tokens@, "not a struct nor union"@),
                        Some(ms) => if old(self).tokens@.len() == 0 {
                            r matches Err(e) && e@ == eof_err()
                        } else {
                            match old(self).tokens@[0].kind {
                                TokenKind::Ident { name } => match first_member(ms, name@) {
                                    Some(m) => r matches Ok(n) && n@ == (NodeV {
                                        kind: NodeKindV::Member { lhs: Box::new(l), member: m },
                                        ty: Some(m.ty),
                                    }) && final(self).tokens@ == old(self).tokens@.drop_first(),
                                    None => r matches Err(e) && e@ == tok_err(
                                        old(self).tokens@.drop_first(),
                                        "no such member"@,
                                    ),
                                },
                                _ => r matches Err(e) && e@ == tok_err(
                                    old(self).tokens@.drop_first(),
                                    "expected identifier"@,
                                ),
                            }
                        },
                    },
                },
            },
    {
        let mut lhs = lhs;
        self.add_type(&mut lhs)?;
        let is_aggregate = match &lhs.ty {
            Some(t) => match &t.kind {
                TypeKind::Struct { .. } | TypeKind::Union { .. } => true,
                _ => false,
            },
            None => false,
        };
        if !is_aggregate {
            if lhs.ty.is_none() {
                return Err(abort("no type information"));
            }
            return Err(err_tok0(&self.tokens, "not a struct nor union"));
        }
        self.need()?;
        let tok = self.advance(1);
        proof {
            assert(self.tokens@ =~= old(self).tokens@.drop_first());
        }
        let name = match tok.kind {
            TokenKind::Ident { name } => name,
            _ => {
                return Err(err_tok0(&self.tokens, "expected identifier"));
            },
        };
        let member = self.get_struct_member(&copy_type(&lhs), &name)?;
        let ty = member.ty.dup();
        Ok(Node { kind: NodeKind::Member { lhs: Box::new(lhs), member }, ty: Some(ty) })
    }

    /// `enum tag? { members }`: the enum type (size and alignment 4), declared
    /// under its tag (or the empty tag); or the type a tag names when no
    /// member list follows.
    fn enum_decl(&mut self) -> (r: Result<Type, CompileError>)
        requires
            ctx_wf(*old(self)),
        ensures
            step(*old(self), *final(self)),
            r is Ok ==> scopes_kept(*old(self), *final(self)),
            r matches Ok(t) ==> t@.kind is Enum,
            r matches Ok(t) ==> (tag_named(old(self).tokens@) matches Some(name) ==> cur_fn(*old(self)) matches Some(fi)
                && lookup_enum(old(self).functions@[fi].scopes@, name) == Some(t@)),
            tag_named(old(self).tokens@) matches Some(name) ==> match cur_fn(*old(self)) {
                None => r is Err,
                Some(fi) => match lookup_enum(old(self).functions@[fi].scopes@, name) {
                    Some(t) => if t.kind is Enum {
                        r matches Ok(x) && x@ == t && final(self).tokens@ == old(self).tokens@.drop_first()
                    } else {
                        r matches Err(e) && e@ == (CompileErrorV::Abort { msg: "not an enum"@ })
                    },
                    None => r matches Err(e) && e@ == tok_err(old(self).tokens@.drop_first(), "unknown enum type"@),
                },
            },
            (cur_fn(*old(self)) matches Some(fi) && empty_body(old(self).tokens@) && old(self).functions@[fi].scopes@.len()
                > 0) ==> (r matches Ok(x) && x@ == (TypeV {
                kind: TypeKindV::Enum { members: Seq::empty() },
                size: 4,
                align: 4,
            }) && final(self).tokens@ == old(self).tokens@.skip(2)),
            (cur_fn(*old(self)) matches Some(fi) && old(self).tokens@.len() > 0 && tok_is(old(self).tokens@[0]@, "{"@)
                && old(self).functions@[fi].scopes@.len() > 0) ==> match enum_list(old(self).tokens@.drop_first(), 0) {
                Some((ms, n)) => r matches Ok(t) && enum_type_is(t@, ms) && final(self).tokens@ == old(self).tokens@.skip(
                    n + 1,
                ),
                None => r is Err,
            },
        decreases old(self).tokens@.len(), 6nat,
    {
        let tag = self.take_tag()?;
        self.need()?;
        if !tag.as_str().is_empty() && !self.hequal("{") {
            match self.find_enum(&tag)? {
                Some(enm) => {
                    if !is_enum_type(&enm.ty) {
                        return Err(abort("not an enum"));
                    }
                    return Ok(enm.ty);
                },
                None => {
                    return Err(err_tok0(&self.tokens, "unknown enum type"));
                },
            }
        }
        self.skip("{")?;
        let members = self.enum_members()?;
        proof {
            lemma_enmsv_len(members@);
            assert(enmsv(members@).map_values(|e: EnumMemberV| (e.name, e.val)) =~= em_pairs(members@));
            lemma_enum_list_len(old(self).tokens@.drop_first(), 0);
            if let Some((ms, n)) = enum_list(old(self).tokens@.drop_first(), 0) {
                assert(old(self).tokens@.drop_first().skip(n) =~= old(self).tokens@.skip(n + 1));
            }
            if empty_body(old(self).tokens@) {
                assert(enmsv(members@) =~= Seq::empty());
                assert(self.tokens@ =~= old(self).tokens@.skip(2));
            }
        }
        let ty = Type { kind: TypeKind::Enum { members }, size: 4, align: 4 };
        self.push_enum(tag, ty.dup())?;
        Ok(ty)
    }

    /// `ident ("=" num)? ","?` up to `}`: each member's value is the number
    /// given, else one more than the previous member's (zero for the first).
    fn enum_members(&mut self) -> (r: Result<Vec<EnumMember>, CompileError>)
        requires
            ctx_wf(*old(self)),
        ensures
            step(*old(self), *final(self)),
            r is Ok ==> scopes_kept(*old(self), *final(self)),
            same_but_tokens(*final(self), *old(self)),
            r matches Ok(ms) ==> forall|i: int| 0 <= i < ms@.len() ==> (#[trigger] ms@[i])@.ty == int_tv(),
            brace_first(old(self).tokens@) ==> (r matches Ok(ms) && ms@.len() == 0 && final(self).tokens@
                == old(self).tokens@.drop_first()),
            match enum_list(old(self).tokens@, 0) {
                Some((ms, n)) => r matches Ok(v) && em_pairs(v@) == ms && final(self).tokens@ == old(
                    self,
                ).tokens@.skip(n),
                None => r is Err,
            },
    {
        let mut members: Vec<EnumMember> = Vec::new();
        let mut i: isize = 0;
        let ghost mut c: int = 0;
        proof {
            assert(old(self).tokens@.skip(0) =~= old(self).tokens@);
            assert(em_pairs(members@) =~= Seq::empty());
            if let Some((rest, n)) = enum_list(self.tokens@, i) {
                assert(em_pairs(members@) + rest =~= rest);
            }
        }
        loop
            invariant_except_break
                0 <= c <= old(self).tokens@.len(),
                self.tokens@ == old(self).tokens@.skip(c),
                enum_list(old(self).tokens@, 0) == match enum_list(self.tokens@, i) {
                    Some((rest, n)) => Some((em_pairs(members@) + rest, c + n)),
                    None => None,
                },
            invariant
                step(*old(self), *self),
                scopes_kept(*old(self), *self),
                same_but_tokens(*self, *old(self)),
                forall|k: int| 0 <= k < members@.len() ==> (#[trigger] members@[k])@.ty == int_tv(),
            ensures
                step(*old(self), *self),
                scopes_kept(*old(self), *self),
                same_but_tokens(*self, *old(self)),
                forall|k: int| 0 <= k < members@.len() ==> (#[trigger] members@[k])@.ty == int_tv(),
                match enum_list(old(self).tokens@, 0) {
                    Some((ms, n)) => em_pairs(members@) == ms && self.tokens@ == old(self).tokens@.skip(n),
                    None => false,
                },
            decreases self.tokens@.len(),
        {
            let ghost t = self.tokens@;
            self.need()?;
            if self.consume("}") {
                proof {
                    assert(em_pairs(members@) + Seq::<(Seq<char>, isize)>::empty() =~= em_pairs(members@));
                    assert(old(self).tokens@.skip(c).drop_first() =~= old(self).tokens@.skip(c + 1));
                }
                break;
            }
            let name = self.get_ident()?;
            self.need()?;
            let ghost k: int;
            if self.consume("=") {
                i = self.get_num()?;
                proof {
                    k = 3;
                }
            } else {
                proof {
                    k = 1;
                }
            }
            proof {
                assert(t.len() > 1);
                assert(self.tokens@ =~= t.skip(k));
            }
            members.push(EnumMember { name, ty: new_int_ty(), val: i });
            if i == isize::MAX {
                return Err(abort("enum value too large"));
            }
            i += 1;
            self.need()?;
            let ghost k2: int = if tok_is(self.tokens@[0]@, ","@) {
                k + 1
            } else {
                k
            };
            let comma = self.consume(",");
            proof {
                assert(self.tokens@ =~= t.skip(k2));
                assert(t.skip(k2) =~= old(self).tokens@.skip(c + k2));
                let m = members@.last();
                assert(em_pairs(members@) =~= em_pairs(members@.drop_last()).push((m.name@, m.val)));
                if let Some((rest, n)) = enum_list(t.skip(k2), i) {
                    assert(em_pairs(members@.drop_last()) + (seq![(m.name@, m.val)] + rest) =~= em_pairs(members@)
                        + rest);
                }
                c = c + k2;
            }
            if comma {
                continue;
            }
        }
        Ok(members)
    }
}

/// Each enum member's name and value.
pub open spec fn em_pairs(ms: Seq<EnumMember>) -> Seq<(Seq<char>, isize)> {
    ms.map_values(|m: EnumMember| (m.name@, m.val))
}

/// The value of the enum member named at the front and how many tokens
/// it takes: `name = num` gives the number, `name` alone gives `next`.
pub open spec fn enum_value(ts: Seq<Token>, next: isize) -> Option<(isize, int)> {
    if ts.len() <= 1 {
        None
    } else if tok_is(ts[1]@, "="@) {
        if ts.len() > 2 {
            match ts[2].kind {
                TokenKind::Num { val } => Some((val, 3)),
                _ => None,
            }
        } else {
            None
        }
    } else {
        Some((next, 1))
    }
}

/// The enum members that the tokens list up to the closing `}`, each with
/// its value (the number given, else one more than the previous, `next`
/// for the first), and how many tokens they take with the `}`; `None`
/// where the parser refuses them.
pub open spec fn enum_list(ts: Seq<Token>, next: isize) -> Option<(Seq<(Seq<char>, isize)>, int)>
    decreases ts.len(),
{
    if ts.len() == 0 {
        None
    } else if tok_is(ts[0]@, "}"@) {
        Some((Seq::empty(), 1))
    } else {
        match ts[0].kind {
            TokenKind::Ident { name } => match enum_value(ts, next) {
                None => None,
                Some((val, k)) => if val == isize::MAX || ts.len() <= k {
                    None
                } else {
                    let k2 = if tok_is(ts[k]@, ","@) {
                        k + 1
                    } else {
                        k
                    };
                    match enum_list(ts.skip(k2), (val + 1) as isize) {
                        None => None,
                        Some((ms, n)) => Some((seq![(name@, val)] + ms, k2 + n)),
                    }
                },
            },
            _ => None,
        }
    }
}

proof fn lemma_enum_list_len(ts: Seq<Token>, next: isize)
    ensures
        enum_list(ts, next) matches Some((ms, n)) ==> 1 <= n <= ts.len(),
    decreases ts.len(),
{
    if ts.len() > 0 && !tok_is(ts[0]@, "}"@) {
        if let Some((val, k)) = enum_value(ts, next) {
            if val != isize::MAX && ts.len() > k {
                let k2 = if tok_is(ts[k]@, ","@) {
                    k + 1
                } else {
                    k
                };
                lemma_enum_list_len(ts.skip(k2), (val + 1) as isize);
            }
        }
    }
}

/// The enum type of size and alignment 4 whose members, each an `int`,
/// have the names and values `ms`.
pub open spec fn enum_type_is(t: TypeV, ms: Seq<(Seq<char>, isize)>) -> bool {
    &&& t.size == 4 && t.align == 4
    &&& match t.kind {
        TypeKindV::Enum { members } => members.map_values(|e: EnumMemberV| (e.name, e.val)) == ms && forall|i: int|
            0 <= i < members.len() ==> (#[trigger] members[i]).ty == int_tv(),
        _ => false,
    }
}

fn is_enum_type(t: &Type) -> (r: bool)
    ensures
        r == (t@.kind is Enum),
{
    match t.kind {
        TypeKind::Enum { .. } => true,
        _ => false,
    }
}

//
// declarations
//

/// What `("[" num "]")*` makes of the type `t` at the front of the tokens:
/// the array type (the innermost dimension last), how many tokens it takes,
/// and whether a `(` follows where there is no dimension; `None` where the
/// parser refuses the tokens (no token left, a malformed dimension, a
/// negative length or a size that does not fit in `usize`).
pub open spec fn suffix_ty(ts: Seq<Token>, t: TypeV) -> Option<(TypeV, int, bool)>
    decreases ts.len(),
{
    if ts.len() == 0 {
        None
    } else if !tok_is(ts[0]@, "["@) {
        Some((t, 0, tok_is(ts[0]@, "("@)))
    } else if ts.len() > 2 && tok_is(ts[2]@, "]"@) {
        match ts[1].kind {
            TokenKind::Num { val } => match suffix_ty(ts.skip(3), t) {
                Some((inner, k, _)) => if val < 0 || inner.size * val > usize::MAX {
                    None
                } else {
                    Some((array_tv(inner, val as usize), k + 3, false))
                },
                None => None,
            },
            _ => None,
        }
    } else {
        None
    }
}

/// The number of `*` tokens at the front.
pub open spec fn stars(ts: Seq<Token>) -> nat
    decreases ts.len(),
{
    if ts.len() > 0 && tok_is(ts[0]@, "*"@) {
        1 + stars(ts.drop_first())
    } else {
        0
    }
}

/// The type `t` under `k` levels of pointer.
pub open spec fn ptr_n(t: TypeV, k: nat) -> TypeV
    decreases k,
{
    if k == 0 {
        t
    } else {
        ptr_tv(ptr_n(t, (k - 1) as nat))
    }
}

/// What `"*"* ("[" num "]")*` makes of the type `t`, and how many tokens it
/// takes.
pub open spec fn abstract_decl(ts: Seq<Token>, t: TypeV) -> Option<(TypeV, int)> {
    let k = stars(ts);
    match suffix_ty(ts.skip(k as int), ptr_n(t, k)) {
        Some((u, j, _)) => Some((u, k + j)),
        None => None,
    }
}

proof fn lemma_suffix_len(ts: Seq<Token>, t: TypeV)
    ensures
        suffix_ty(ts, t) matches Some((u, k, f)) ==> 0 <= k <= ts.len(),
    decreases ts.len(),
{
    if ts.len() > 2 {
        lemma_suffix_len(ts.skip(3), t);
    }
}

proof fn lemma_stars_len(ts: Seq<Token>)
    ensures
        stars(ts) <= ts.len(),
    decreases ts.len(),
{
    if ts.len() > 0 {
        lemma_stars_len(ts.drop_first());
    }
}

proof fn lemma_abstract_decl_len(ts: Seq<Token>, t: TypeV)
    ensures
        abstract_decl(ts, t) matches Some((u, n)) ==> 0 <= n <= ts.len(),
{
    let k = stars(ts);
    lemma_stars_len(ts);
    lemma_suffix_len(ts.skip(k as int), ptr_n(t, k));
}

/// The tokens start with a type keyword and `;`: a declaration that
/// declares nothing.
pub open spec fn bare_decl(ts: Seq<Token>) -> bool {
    ts.len() > 1 && kw_type(ts[0]@) is Some && tok_is(ts[1]@, ";"@)
}

/// The tokens start with a type keyword, an identifier and `;`: the
/// declaration of one variable with no initial value.
pub open spec fn one_var_decl(ts: Seq<Token>) -> bool {
    ts.len() > 2 && kw_type(ts[0]@) is Some && ts[1].kind is Ident && tok_is(ts[2]@, ";"@)
}

/// One variable is declared where a scope is open to hold it.
pub open spec fn one_var_ok(c: Ctx) -> bool {
    cur_fn(c) matches Some(fi) && one_var_decl(c.tokens@) && c.functions@[fi].scopes@.len() > 0
}

/// `b` has the variable that `a`'s tokens declare as its newest: a local of
/// the type the keyword names, under the identifier's name.
pub open spec fn declared_one(a: Ctx, b: Ctx) -> bool {
    let id = a.vars@.len() as int;
    &&& b.vars@.len() == a.vars@.len() + 1
    &&& b.vars@[id].ty@ == kw_type(a.tokens@[0]@)->0
    &&& a.tokens@[1].kind == (TokenKind::Ident { name: b.vars@[id].name })
    &&& b.vars@[id].is_local
    &&& !b.vars@[id].is_param
}

/// The statement that evaluates the variable `id` of type `t`.
pub open spec fn var_stmt_nv(id: usize, t: TypeV) -> NodeV {
    NodeV {
        kind: NodeKindV::ExprStmt { lhs: Box::new(NodeV { kind: NodeKindV::Var { var: id }, ty: Some(t) }) },
        ty: Some(t),
    }
}

/// The type that a type keyword names.
pub open spec fn kw_type(t: TokenV) -> Option<TypeV> {
    if tok_is(t, "int"@) {
        Some(int_tv())
    } else if tok_is(t, "short"@) {
        Some(short_tv())
    } else if tok_is(t, "long"@) {
        Some(long_tv())
    } else if tok_is(t, "char"@) {
        Some(char_tv())
    } else {
        None
    }
}

impl Ctx {
    /// `"*"* type_suffix`: the type of a cast or `sizeof`.
    fn only_type_declarator(&mut self, ty: Type) -> (r: Result<Type, CompileError>)
        requires
            ctx_wf(*old(self)),
        ensures
            step(*old(self), *final(self)),
            r is Ok ==> scopes_kept(*old(self), *final(self)),
            same_but_tokens(*final(self), *old(self)),
            match abstract_decl(old(self).tokens@, ty@) {
                Some((t, n)) => r matches Ok(x) && x@ == t && final(self).tokens@ == old(self).tokens@.skip(n),
                None => r is Err,
            },
        decreases old(self).tokens@.len(), 4nat,
    {
        let ghost ts = self.tokens@;
        let ghost ty0 = ty@;
        let ghost mut i: nat = 0;
        let mut ty = ty;
        proof {
            assert(ts.skip(0) =~= ts);
        }
        loop
            invariant
                step(*old(self), *self),
                scopes_kept(*old(self), *self),
                same_but_tokens(*self, *old(self)),
                ts == old(self).tokens@,
                i <= ts.len(),
                self.tokens@ == ts.skip(i as int),
                stars(ts) == i + stars(self.tokens@),
                ty@ == ptr_n(ty0, i),
            ensures
                step(*old(self), *self),
                scopes_kept(*old(self), *self),
                same_but_tokens(*self, *old(self)),
                self.tokens@ == ts.skip(stars(ts) as int),
                ty@ == ptr_n(ty0, stars(ts)),
            decreases self.tokens@.len(),
        {
            self.need()?;
            if !self.consume("*") {
                break;
            }
            ty = new_ptr_to(ty);
            proof {
                assert(ts.skip(i as int).drop_first() =~= ts.skip(i as int + 1));
                i = i + 1;
            }
        }
        let (ty, _) = self.type_suffix(ty)?;
        proof {
            let k = stars(ts);
            lemma_stars_len(ts);
            lemma_suffix_len(ts.skip(k as int), ptr_n(ty0, k));
            if let Some((u, j, f)) = suffix_ty(ts.skip(k as int), ptr_n(ty0, k)) {
                assert(ts.skip(k as int).skip(j) =~= ts.skip(k + j));
            }
        }
        Ok(ty)
    }

    /// The base type of a declaration: a type keyword, a struct, union or
    /// enum, or a typedef name; `int` right after `typedef`.
    fn declspec(&mut self) -> (r: Result<Type, CompileError>)
        requires
            ctx_wf(*old(self)),
        ensures
            step(*old(self), *final(self)),
            r is Ok ==> scopes_kept(*old(self), *final(self)),
            old(self).tokens@.len() > 0 ==> {
                let t = old(self).tokens@[0]@;
                &&& tok_is(t, "int"@) ==> (r matches Ok(ty) && ty@ == int_tv()
                    && final(self).tokens@ == old(self).tokens@.drop_first())
                &&& tok_is(t, "short"@) ==> (r matches Ok(ty) && ty@ == short_tv()
                    && final(self).tokens@ == old(self).tokens@.drop_first())
                &&& tok_is(t, "long"@) ==> (r matches Ok(ty) && ty@ == long_tv()
                    && final(self).tokens@ == old(self).tokens@.drop_first())
                &&& tok_is(t, "char"@) ==> (r matches Ok(ty) && ty@ == char_tv()
                    && final(self).tokens@ == old(self).tokens@.drop_first())
                &&& kw_type(t) is Some ==> same_but_tokens(*final(self), *old(self))
            },
        decreases old(self).tokens@.len(), 5nat,
    {
        self.need()?;
        proof {
            reveal_strlit("int");
            reveal_strlit("short");
            reveal_strlit("long");
            reveal_strlit("char");
            assert("int"@.len() == 3);
            assert("short"@.len() == 5);
            assert("long"@.len() == 4 && "long"@[0] == 'l');
            assert("char"@.len() == 4 && "char"@[0] == 'c');
            assert("int"@ != "short"@ && "int"@ != "long"@ && "int"@ != "char"@);
            assert("short"@ != "long"@ && "short"@ != "char"@ && "long"@ != "char"@);
        }
        if self.consume("int") {
            return Ok(new_int_ty());
        } else if self.consume("short") {
            return Ok(new_short());
        } else if self.consume("long") {
            return Ok(new_long_ty());
        } else if self.consume("char") {
            return Ok(new_char_ty());
        } else if self.consume("struct") {
            return self.struct_decl();
        } else if self.consume("union") {
            return self.union_decl();
        } else if self.consume("enum") {
            return self.enum_decl();
        }
        let tn = match &self.tokens[0].kind {
            TokenKind::Ident { name } => Some(name.clone()),
            _ => None,
        };
        if let Some(name) = tn {
            if let Some(ty) = self.find_type(&name)? {
                self.advance(1);
                return Ok(ty);
            }
        }
        if self.consumed_tokens.len() > 0 {
            let last = self.consumed_tokens.len() - 1;
            match &self.consumed_tokens[last].kind {
                TokenKind::Keyword { name } => {
                    if str_eq(name, "typedef") {
                        return Ok(new_int_ty());
                    }
                },
                _ => {},
            }
        }
        Err(err_tok0(&self.tokens, "type expected"))
    }

    /// `"*"* ident type_suffix`: the declared type, the name, and whether a
    /// parameter list follows.
    fn declarator(&mut self, ty: Type) -> (r: Result<(Type, String, bool), CompileError>)
        requires
            ctx_wf(*old(self)),
        ensures
            step(*old(self), *final(self)),
            r is Ok ==> scopes_kept(*old(self), *final(self)),
            same_but_tokens(*final(self), *old(self)),
            r is Ok ==> final(self).tokens@.len() < old(self).tokens@.len(),
            ({
                let ts = old(self).tokens@;
                let k = stars(ts) as int;
                if ts.len() > k && ts[k].kind is Ident {
                    match suffix_ty(ts.skip(k + 1), ptr_n(ty@, stars(ts))) {
                        Some((t, j, f)) => r matches Ok((x, n, g)) && x@ == t && ts[k].kind == (
                        TokenKind::Ident { name: n }) && g == f && final(self).tokens@ == ts.skip(
                            k + 1 + j,
                        ),
                        None => r is Err,
                    }
                } else {
                    r is Err
                }
            }),
        decreases old(self).tokens@.len(), 4nat,
    {
        let ghost ts = self.tokens@;
        let ghost ty0 = ty@;
        let ghost mut i: nat = 0;
        let mut ty = ty;
        proof {
            assert(ts.skip(0) =~= ts);
        }
        loop
            invariant
                step(*old(self), *self),
                scopes_kept(*old(self), *self),
                same_but_tokens(*self, *old(self)),
                ts == old(self).tokens@,
                i <= ts.len(),
                self.tokens@ == ts.skip(i as int),
                stars(ts) == i + stars(self.tokens@),
                ty@ == ptr_n(ty0, i),
            ensures
                step(*old(self), *self),
                scopes_kept(*old(self), *self),
                same_but_tokens(*self, *old(self)),
                self.tokens@ == ts.skip(stars(ts) as int),
                ty@ == ptr_n(ty0, stars(ts)),
            decreases self.tokens@.len(),
        {
            self.need()?;
            if !self.consume("*") {
                break;
            }
            ty = new_ptr_to(ty);
            proof {
                assert(ts.skip(i as int).drop_first() =~= ts.skip(i as int + 1));
                i = i + 1;
            }
        }
        proof {
            lemma_stars_len(ts);
            assert(self.tokens@.len() > 0 ==> self.tokens@[0] == ts[stars(ts) as int]);
        }
        let name = self.get_ident()?;
        proof {
            let k = stars(ts) as int;
            assert(self.tokens@ =~= ts.skip(k + 1));
        }
        let (ty, is_func) = self.type_suffix(ty)?;
        proof {
            let k = stars(ts) as int;
            lemma_suffix_len(ts.skip(k + 1), ptr_n(ty0, stars(ts)));
            if let Some((u, j, f)) = suffix_ty(ts.skip(k + 1), ptr_n(ty0, stars(ts))) {
                assert(ts.skip(k + 1).skip(j) =~= ts.skip(k + 1 + j));
            }
        }
        Ok((ty, name, is_func))
    }

    /// `("[" num "]")*`: the array type; `true` when a `(` follows instead.
    fn type_suffix(&mut self, ty: Type) -> (r: Result<(Type, bool), CompileError>)
        requires
            ctx_wf(*old(self)),
        ensures
            step(*old(self), *final(self)),
            r is Ok ==> scopes_kept(*old(self), *final(self)),
            same_but_tokens(*final(self), *old(self)),
            r matches Ok((t, f)) ==> (old(self).tokens@.len() > 0 && tok_is(
                old(self).tokens@[0]@,
                "("@,
            ) ==> f && t@ == ty@ && final(self).tokens == old(self).tokens),
            match suffix_ty(old(self).tokens@, ty@) {
                Some((t, k, f)) => r matches Ok((x, g)) && x@ == t && g == f && final(self).tokens@
                    == old(self).tokens@.skip(k),
                None => r is Err,
            },
        decreases old(self).tokens@.len(), 3nat,
    {
        let ghost ts = self.tokens@;
        let ghost ty0 = ty@;
        self.need()?;
        proof {
            reveal_strlit("[");
            reveal_strlit("(");
            assert("["@[0] != "("@[0]);
            assert(ts.skip(0) =~= ts);
        }
        if self.hequal("[") {
            self.advance(1);
            let size = self.get_and_skip_number()?;
            self.skip("]")?;
            proof {
                assert(self.tokens@ =~= ts.skip(3));
            }
            let (ty, _) = self.type_suffix(ty)?;
            proof {
                lemma_suffix_len(ts.skip(3), ty0);
                if let Some((u, k, f)) = suffix_ty(ts.skip(3), ty0) {
                    assert(ts.skip(3).skip(k) =~= ts.skip(k + 3));
                }
            }
            if size < 0 || ty.size.checked_mul(size as usize).is_none() {
                return Err(abort("array too large"));
            }
            return Ok((new_array_ty(ty, size as usize), false));
        }
        if self.hequal("(") {
            return Ok((ty, true));
        }
        Ok((ty, false))
    }

    /// `declspec (declarator ("=" expr)? ","?)* ";"`: a block of expression
    /// statements, one per declared variable, each assigning its initial
    /// value when one is given.
    #[verifier::spinoff_prover]
    fn declaration(&mut self) -> (r: Result<Node, CompileError>)
        requires
            ctx_wf(*old(self)),
        ensures
            step(*old(self), *final(self)),
            r is Ok ==> scopes_kept(*old(self), *final(self)),
            r matches Ok(n) ==> node_ok(n, *final(self)) && n@.kind is Block,
            r is Ok ==> final(self).tokens@.len() < old(self).tokens@.len(),
            bare_decl(old(self).tokens@) ==> (r matches Ok(n) && n@ == (NodeV {
                kind: NodeKindV::Block { body: Seq::empty() },
                ty: None,
            }) && final(self).tokens@ == old(self).tokens@.skip(2)),
            one_var_ok(*old(self)) ==> (r matches Ok(n) && n@ == (NodeV {
                kind: NodeKindV::Block {
                    body: seq![
                        var_stmt_nv(old(self).vars@.len() as usize, kw_type(old(self).tokens@[0]@)->0),
                    ],
                },
                ty: None,
            }) && declared_one(*old(self), *final(self)) && final(self).tokens@ == old(self).tokens@.skip(3)),
        decreases old(self).tokens@.len(), 35nat,
    {
        let base_ty = self.declspec()?;
        let mut body: Vec<Node> = Vec::new();
        proof {
            lemma_nodes_empty(*self);
        }
        loop
            invariant_except_break
                bare_decl(old(self).tokens@) ==> (self.tokens@ == old(self).tokens@.drop_first() && body@.len() == 0),
                one_var_ok(*old(self)) ==> ((self.tokens@ == old(self).tokens@.drop_first() && body@.len() == 0
                    && self.vars == old(self).vars && self.functions == old(self).functions && base_ty@ == kw_type(
                    old(self).tokens@[0]@,
                )->0) || (self.tokens@ == old(self).tokens@.skip(2) && body@.len() == 1 && body@[0]@ == var_stmt_nv(
                    old(self).vars@.len() as usize,
                    kw_type(old(self).tokens@[0]@)->0,
                ) && declared_one(*old(self), *self))),
            invariant
                step(*old(self), *self),
                scopes_kept(*old(self), *self),
                nodes_ok(body@, *self),
            ensures
                step(*old(self), *self),
                scopes_kept(*old(self), *self),
                nodes_ok(body@, *self),
                self.tokens@.len() < old(self).tokens@.len(),
                bare_decl(old(self).tokens@) ==> (self.tokens@ == old(self).tokens@.skip(2) && body@.len() == 0),
                one_var_ok(*old(self)) ==> (self.tokens@ == old(self).tokens@.skip(3) && body@.len() == 1
                    && body@[0]@ == var_stmt_nv(old(self).vars@.len() as usize, kw_type(old(self).tokens@[0]@)->0)
                    && declared_one(*old(self), *self)),
            decreases self.tokens@.len(),
        {
            self.need()?;
            if self.consume(";") {
                proof {
                    if bare_decl(old(self).tokens@) {
                        assert(self.tokens@ =~= old(self).tokens@.skip(2));
                    }
                    if one_var_ok(*old(self)) {
                        assert(self.tokens@ =~= old(self).tokens@.skip(3));
                    }
                }
                break;
            }
            proof {
                if one_var_ok(*old(self)) {
                    lemma_semi_ends_expr(old(self).tokens@[2]@);
                    assert(self.tokens@[0] == old(self).tokens@[1]);
                    assert(self.tokens@.skip(1) =~= old(self).tokens@.skip(2));
                    assert(self.tokens@.skip(1)[0] == old(self).tokens@[2]);
                    assert(stars(self.tokens@) == 0);
                    assert(ptr_n(base_ty@, 0) == base_ty@);
                }
            }
            let (ty, name, _) = self.declarator(base_ty.dup())?;
            let ghost c1 = *self;
            let mut node = self.create_lvar(name, ty, false)?;
            proof {
                lemma_nodes_mono(body@, c1, *self);
                if one_var_ok(*old(self)) {
                    assert(self.tokens@ =~= old(self).tokens@.skip(2));
                    assert(spec_add_type(node@, self.vars@) == Ok::<NodeV, CompileErrorV>(node@));
                }
            }
            self.need()?;
            if self.hequal("=") {
                self.advance(1);
                let ghost c2 = *self;
                let rhs = self.expr()?;
                proof {
                    lemma_node_mono(node, c2, *self);
                    lemma_nodes_mono(body@, c2, *self);
                }
                node = self.new_assign(node, rhs)?;
            }
            let node = self.new_expr_stmt(node)?;
            proof {
                lemma_nodes_push(body@, node, *self);
            }
            body.push(node);
            self.need()?;
            if self.hequal(",") {
                self.advance(1);
                continue;
            }
        }
        proof {
            if body@.len() == 0 {
                lemma_nodesv_len(body@);
                assert(nodesv(body@) =~= Seq::empty());
            }
            if body@.len() == 1 {
                assert(body@.drop_first() =~= Seq::<Node>::empty());
                assert(nodesv(body@.drop_first()) =~= Seq::empty());
                assert(nodesv(body@) =~= seq![body@[0]@]);
            }
        }
        Ok(self.new_block(body))
    }

    /// `declspec only_type_declarator`: the type named in a cast or `sizeof`.
    fn typename(&mut self) -> (r: Result<Type, CompileError>)
        requires
            ctx_wf(*old(self)),
        ensures
            step(*old(self), *final(self)),
            r is Ok ==> scopes_kept(*old(self), *final(self)),
            old(self).tokens@.len() > 0 ==> (kw_type(old(self).tokens@[0]@) matches Some(bt) ==> match abstract_decl(
                old(self).tokens@.drop_first(),
                bt,
            ) {
                Some((t, n)) => r matches Ok(x) && x@ == t && final(self).tokens@ == old(self).tokens@.skip(n + 1),
                None => r is Err,
            }),
        decreases old(self).tokens@.len(), 6nat,
    {
        let base_ty = self.declspec()?;
        let ghost ts1 = self.tokens@;
        let r = self.only_type_declarator(base_ty);
        proof {
            lemma_abstract_decl_len(ts1, base_ty@);
            if let Some((t, n)) = abstract_decl(ts1, base_ty@) {
                if old(self).tokens@.len() > 0 && kw_type(old(self).tokens@[0]@) is Some {
                    assert(ts1.skip(n) =~= old(self).tokens@.skip(n + 1));
                }
            }
        }
        r
    }

    /// The token starts a type name: a type keyword or a typedef name.
    fn is_typename(&self, tok: &Token) -> (r: Result<bool, CompileError>)
        ensures
            match tok@.kind {
                TokenKindV::Keyword { name } => r == Ok::<bool, CompileError>(
                    name == "int"@ || name == "short"@ || name == "long"@ || name == "char"@ || name
                        == "struct"@ || name == "union"@ || name == "enum"@,
                ),
                TokenKindV::Ident { name } => match r {
                    Ok(b) => cur_fn(*self) matches Some(fi) && b == (lookup_typedef(
                        self.functions@[fi].scopes@,
                        name,
                    ) is Some),
                    Err(e) => cur_fn(*self) is None,
                },
                _ => r == Ok::<bool, CompileError>(false),
            },
    {
        match &tok.kind {
            TokenKind::Keyword { name } => Ok(str_eq(name, "int") || str_eq(name, "short") || str_eq(
                name,
                "long",
            ) || str_eq(name, "char") || str_eq(name, "struct") || str_eq(name, "union")
                || str_eq(name, "enum")),
            TokenKind::Ident { name } => {
                let t = self.find_type(name)?;
                Ok(t.is_some())
            },
            _ => Ok(false),
        }
    }

    /// Takes the identifier at the front and returns its name.
    fn get_ident(&mut self) -> (r: Result<String, CompileError>)
        requires
            ctx_wf(*old(self)),
        ensures
            step(*old(self), *final(self)),
            r is Ok ==> scopes_kept(*old(self), *final(self)),
            same_but_tokens(*final(self), *old(self)),
            match r {
                Ok(n) => old(self).tokens@.len() > 0 && old(self).tokens@[0].kind == (TokenKind::Ident {
                    name: n,
                }) && final(self).tokens@ == old(self).tokens@.drop_first(),
                Err(e) => e@ == tok_err(old(self).tokens@, "expected identifier"@) && final(self).tokens
                    == old(self).tokens && !(old(self).tokens@.len() > 0 && old(self).tokens@[0].kind is Ident),
            },
    {
        if self.tokens.len() == 0 {
            return Err(eof());
        }
        let n = match &self.tokens[0].kind {
            TokenKind::Ident { name } => name.clone(),
            _ => {
                return Err(err_tok0(&self.tokens, "expected identifier"));
            },
        };
        self.advance(1);
        Ok(n)
    }

    /// Takes the number at the front and returns its value.
    fn get_num(&mut self) -> (r: Result<isize, CompileError>)
        requires
            ctx_wf(*old(self)),
        ensures
            step(*old(self), *final(self)),
            r is Ok ==> scopes_kept(*old(self), *final(self)),
            same_but_tokens(*final(self), *old(self)),
            match r {
                Ok(v) => old(self).tokens@.len() > 0 && old(self).tokens@[0].kind == (TokenKind::Num {
                    val: v,
                }) && final(self).tokens@ == old(self).tokens@.drop_first(),
                Err(e) => e@ == tok_err(old(self).tokens@, "expected number"@) && final(self).tokens
                    == old(self).tokens && !(old(self).tokens@.len() > 0 && old(self).tokens@[0].kind is Num),
            },
    {
        if self.tokens.len() == 0 {
            return Err(eof());
        }
        let n = match &self.tokens[0].kind {
            TokenKind::Num { val } => *val,
            _ => {
                return Err(err_tok0(&self.tokens, "expected number"));
            },
        };
        self.advance(1);
        Ok(n)
    }
}

//
// pointer arithmetic
//

/// The node has an integer type.
pub open spec fn int_nv(n: NodeV) -> bool {
    n.ty matches Some(t) && is_integer_tv(t)
}

/// The node has a pointer or array type.
pub open spec fn ptr_nv(n: NodeV) -> bool {
    n.ty matches Some(t) && is_pointer_tv(t)
}

/// An integer literal of type `ty`.
pub open spec fn lit_nv(val: isize, ty: TypeV) -> NodeV {
    NodeV { kind: NodeKindV::Num { val }, ty: Some(ty) }
}

/// `p + i` for a pointer `p`: the offset `i` is scaled by the size of what
/// `p` points to, and the sum has the type of `p`.
pub open spec fn scaled_add(p: NodeV, i: NodeV, vars: Seq<Var>) -> Result<NodeV, CompileErrorV> {
    let size = lit_nv(pointee_tv(p.ty->0).size as isize, long_tv());
    match spec_add_type(
        NodeV { kind: NodeKindV::Mul { lhs: Box::new(i), rhs: Box::new(size) }, ty: None },
        vars,
    ) {
        Ok(m) => Ok(NodeV { kind: NodeKindV::Add { lhs: Box::new(p), rhs: Box::new(m) }, ty: p.ty }),
        Err(e) => Err(e),
    }
}

/// What `lhs + rhs` parses to: an integer sum, or a pointer plus a scaled
/// offset (with the pointer put first); two pointers, or operands of other
/// types, are refused at the next token.
pub open spec fn add_spec(lhs: NodeV, rhs: NodeV, vars: Seq<Var>, ts: Seq<Token>) -> Result<
    NodeV,
    CompileErrorV,
> {
    match spec_add_type(lhs, vars) {
        Err(e) => Err(e),
        Ok(l) => match spec_add_type(rhs, vars) {
            Err(e) => Err(e),
            Ok(r) => if int_nv(l) && int_nv(r) {
                spec_add_type(
                    NodeV { kind: NodeKindV::Add { lhs: Box::new(l), rhs: Box::new(r) }, ty: None },
                    vars,
                )
            } else if ptr_nv(l) && ptr_nv(r) {
                Err(tok_err(ts, "cannot add pointers to pointers"@))
            } else if ptr_nv(l) && int_nv(r) {
                scaled_add(l, r, vars)
            } else if int_nv(l) && ptr_nv(r) {
                scaled_add(r, l, vars)
            } else {
                Err(tok_err(ts, "invalid operands"@))
            },
        },
    }
}

/// The divisor of a pointer difference: the size of what the right operand
/// points to, or 8 when it is an array.
pub open spec fn ptr_div_size(r: NodeV) -> usize {
    match r.ty->0.kind {
        TypeKindV::Ptr { ptr_to } => ptr_to.size,
        _ => 8,
    }
}

/// What `lhs - rhs` parses to: an integer difference; a pointer minus a
/// scaled offset; or, for two pointers, their difference divided by the size
/// of what the right one points to (8 for an array), typed `int`. Operands
/// of other types are refused at the next token.
pub open spec fn sub_spec(lhs: NodeV, rhs: NodeV, vars: Seq<Var>, ts: Seq<Token>) -> Result<
    NodeV,
    CompileErrorV,
> {
    match spec_add_type(lhs, vars) {
        Err(e) => Err(e),
        Ok(l) => match spec_add_type(rhs, vars) {
            Err(e) => Err(e),
            Ok(r) => if int_nv(l) && int_nv(r) {
                spec_add_type(
                    NodeV { kind: NodeKindV::Sub { lhs: Box::new(l), rhs: Box::new(r) }, ty: None },
                    vars,
                )
            } else if ptr_nv(l) && int_nv(r) {
                let size = lit_nv(pointee_tv(l.ty->0).size as isize, int_tv());
                match spec_add_type(
                    NodeV { kind: NodeKindV::Mul { lhs: Box::new(r), rhs: Box::new(size) }, ty: None },
                    vars,
                ) {
                    Ok(m) => Ok(
                        NodeV { kind: NodeKindV::Sub { lhs: Box::new(l), rhs: Box::new(m) }, ty: l.ty },
                    ),
                    Err(e) => Err(e),
                }
            } else if ptr_nv(l) && ptr_nv(r) {
                let div_size = ptr_div_size(r);
                match spec_add_type(
                    NodeV { kind: NodeKindV::Sub { lhs: Box::new(l), rhs: Box::new(r) }, ty: None },
                    vars,
                ) {
                    Err(e) => Err(e),
                    Ok(d) => match spec_add_type(
                        NodeV {
                            kind: NodeKindV::Div {
                                lhs: Box::new(d),
                                rhs: Box::new(lit_nv(div_size as isize, long_tv())),
                            },
                            ty: None,
                        },
                        vars,
                    ) {
                        Err(e) => Err(e),
                        Ok(q) => Ok(NodeV { kind: q.kind, ty: Some(int_tv()) }),
                    },
                }
            } else {
                Err(tok_err(ts, "invalid operands"@))
            },
        },
    }
}

impl Ctx {
    /// `lhs + rhs`, with pointer arithmetic.
    pub fn new_add(&self, lhs: Node, rhs: Node) -> (r: Result<Node, CompileError>)
        requires
            nvars_ok(lhs@, self.vars@.len()),
            nvars_ok(rhs@, self.vars@.len()),
        ensures
            res_nv(r) == add_spec(lhs@, rhs@, self.vars@, self.tokens@),
            r matches Ok(n) ==> nvars_ok(n@, self.vars@.len()),
    {
        let mut lhs = lhs;
        let mut rhs = rhs;
        match self.add_type(&mut lhs) {
            Ok(()) => {},
            Err(e) => {
                return Err(e);
            },
        }
        match self.add_type(&mut rhs) {
            Ok(()) => {},
            Err(e) => {
                return Err(e);
            },
        }
        if is_integer_node(&lhs) && is_integer_node(&rhs) {
            let mut node = Node { kind: NodeKind::Add { lhs: Box::new(lhs), rhs: Box::new(rhs) }, ty: None };
            return match self.add_type(&mut node) {
                Ok(()) => Ok(node),
                Err(e) => Err(e),
            };
        }
        if is_pointer_node(&lhs) && is_pointer_node(&rhs) {
            return Err(err_tok0(&self.tokens, "cannot add pointers to pointers"));
        }
        if is_integer_node(&lhs) && is_pointer_node(&rhs) {
            std::mem::swap(&mut lhs, &mut rhs);
        }
        if is_pointer_node(&lhs) && is_integer_node(&rhs) {
            let size = get_pointer_or_array_size(&lhs);
            let num = self.new_long(size as isize);
            let r = match self.new_mul(rhs, num) {
                Ok(m) => m,
                Err(e) => {
                    return Err(e);
                },
            };
            let ty = dup_opt_type(&lhs.ty);
            return Ok(Node { kind: NodeKind::Add { lhs: Box::new(lhs), rhs: Box::new(r) }, ty });
        }
        Err(err_tok0(&self.tokens, "invalid operands"))
    }

    /// `lhs - rhs`, with pointer arithmetic.
    pub fn new_sub(&self, lhs: Node, rhs: Node) -> (r: Result<Node, CompileError>)
        requires
            nvars_ok(lhs@, self.vars@.len()),
            nvars_ok(rhs@, self.vars@.len()),
        ensures
            res_nv(r) == sub_spec(lhs@, rhs@, self.vars@, self.tokens@),
            r matches Ok(n) ==> nvars_ok(n@, self.vars@.len()),
    {
        let mut lhs = lhs;
        let mut rhs = rhs;
        match self.add_type(&mut lhs) {
            Ok(()) => {},
            Err(e) => {
                return Err(e);
            },
        }
        match self.add_type(&mut rhs) {
            Ok(()) => {},
            Err(e) => {
                return Err(e);
            },
        }
        if is_integer_node(&lhs) && is_integer_node(&rhs) {
            let mut node = Node { kind: NodeKind::Sub { lhs: Box::new(lhs), rhs: Box::new(rhs) }, ty: None };
            return match self.add_type(&mut node) {
                Ok(()) => Ok(node),
                Err(e) => Err(e),
            };
        }
        if is_pointer_node(&lhs) && is_integer_node(&rhs) {
            let size = get_pointer_or_array_size(&lhs);
            let num = self.new_num(size as isize);
            let r = match self.new_mul(rhs, num) {
                Ok(m) => m,
                Err(e) => {
                    return Err(e);
                },
            };
            let ty = dup_opt_type(&lhs.ty);
            return Ok(Node { kind: NodeKind::Sub { lhs: Box::new(lhs), rhs: Box::new(r) }, ty });
        }
        if is_pointer_node(&lhs) && is_pointer_node(&rhs) {
            let div_size: usize = match &rhs.ty {
                Some(t) => match &t.kind {
                    TypeKind::Ptr { ptr_to } => ptr_to.size,
                    _ => 8,
                },
                None => 8,
            };
            proof {
                let t = rhs.ty->0;
                if let TypeKind::Ptr { ptr_to } = t.kind {
                    assert(tyv(t).kind == TypeKindV::Ptr { ptr_to: Box::new(tyv(*ptr_to)) });
                }
                assert(div_size == ptr_div_size(rhs@));
            }
            let mut n = Node { kind: NodeKind::Sub { lhs: Box::new(lhs), rhs: Box::new(rhs) }, ty: None };
            match self.add_type(&mut n) {
                Ok(()) => {},
                Err(e) => {
                    return Err(e);
                },
            }
            let num = self.new_long(div_size as isize);
            let mut node = match self.new_div(n, num) {
                Ok(d) => d,
                Err(e) => {
                    return Err(e);
                },
            };
            node.ty = Some(new_int_ty());
            return Ok(node);
        }
        Err(err_tok0(&self.tokens, "invalid operands"))
    }
}

/// The value of the number that starts the tokens when a `;` follows it.
pub open spec fn lone_num(ts: Seq<Token>) -> Option<isize> {
    if ts.len() > 1 && tok_is(ts[1]@, ";"@) {
        match ts[0].kind {
            TokenKind::Num { val } => Some(val),
            _ => None,
        }
    } else {
        None
    }
}

/// The value of the number that starts the tokens, when a token follows it.
pub open spec fn num_first(ts: Seq<Token>) -> Option<isize> {
    if ts.len() > 1 {
        match ts[0].kind {
            TokenKind::Num { val } => Some(val),
            _ => None,
        }
    } else {
        None
    }
}

/// The token continues no postfix expression.
pub open spec fn ends_postfix(t: TokenV) -> bool {
    !tok_is(t, "["@) && !tok_is(t, "."@) && !tok_is(t, "->"@) && !tok_is(t, "++"@)
}

/// The token continues no term.
pub open spec fn ends_mul(t: TokenV) -> bool {
    ends_postfix(t) && !tok_is(t, "*"@) && !tok_is(t, "/"@) && !tok_is(t, "%"@)
}

/// The token continues no sum.
pub open spec fn ends_add(t: TokenV) -> bool {
    ends_mul(t) && !tok_is(t, "+"@) && !tok_is(t, "-"@)
}

/// The token continues no comparison.
pub open spec fn ends_rel(t: TokenV) -> bool {
    ends_add(t) && !tok_is(t, "<"@) && !tok_is(t, "<="@) && !tok_is(t, ">"@) && !tok_is(t, ">="@)
}

/// The token continues no equality or logical expression.
pub open spec fn ends_eq(t: TokenV) -> bool {
    ends_rel(t) && !tok_is(t, "||"@) && !tok_is(t, "&&"@) && !tok_is(t, "=="@) && !tok_is(t, "!="@)
}

/// The token continues no bitwise expression.
pub open spec fn ends_bit(t: TokenV) -> bool {
    ends_eq(t) && !tok_is(t, "&"@) && !tok_is(t, "^"@) && !tok_is(t, "|"@)
}

/// The token continues no expression at all.
pub open spec fn ends_assign(t: TokenV) -> bool {
    &&& ends_bit(t)
    &&& !tok_is(t, "="@) && !tok_is(t, "+="@) && !tok_is(t, "-="@) && !tok_is(t, "*="@) && !tok_is(t, "/="@)
    &&& !tok_is(t, "%="@) && !tok_is(t, "&="@) && !tok_is(t, "^="@) && !tok_is(t, "|="@)
}

/// A number whose next token continues nothing at this level (`ends`)
/// parses to that number as an `int` literal; only the number is taken and
/// nothing else changes.
pub open spec fn num_alone(a: Ctx, b: Ctx, r: Result<Node, CompileError>, ends: bool) -> bool {
    num_first(a.tokens@) matches Some(v) ==> (ends ==> (r matches Ok(n) && n@ == lit_nv(v, int_tv())
        && b.tokens@ == a.tokens@.drop_first() && same_but_tokens(b, a)))
}

/// What holds while an operator loop has seen only such a number.
pub open spec fn still_alone(a: Ctx, b: Ctx, n: Node, ends: bool) -> bool {
    num_first(a.tokens@) matches Some(v) ==> (ends ==> (b.tokens@ == a.tokens@.drop_first() && n@ == lit_nv(
        v,
        int_tv(),
    ) && same_but_tokens(b, a)))
}

/// The tokens are `x op y ;` for numbers `x` and `y`: the two numbers and
/// the operator token.
pub open spec fn num_op_num(ts: Seq<Token>) -> Option<(isize, TokenV, isize)> {
    if ts.len() > 3 && tok_is(ts[3]@, ";"@) {
        match ts[0].kind {
            TokenKind::Num { val: x } => match ts[2].kind {
                TokenKind::Num { val: y } => Some((x, ts[1]@, y)),
                _ => None,
            },
            _ => None,
        }
    } else {
        None
    }
}

/// The typing of the operator node `kind` whose operands are not typed yet.
pub open spec fn typed_op(kind: NodeKindV, vars: Seq<Var>) -> Option<Result<NodeV, CompileErrorV>> {
    Some(spec_add_type(NodeV { kind, ty: None }, vars))
}

/// `x op y ;` parses to the expected result `e` (where one is given), and
/// the three tokens before the `;` are taken.
pub open spec fn bin_parsed(
    a: Ctx,
    b: Ctx,
    r: Result<Node, CompileError>,
    e: Option<Result<NodeV, CompileErrorV>>,
) -> bool {
    e matches Some(x) ==> (res_nv(r) == x && b.tokens@ == a.tokens@.skip(3))
}

/// What holds while an operator loop works on `x op y ;` whose result is
/// `e`: before the operator, the number `x`; after `y`, the result.
pub open spec fn bin_state(a: Ctx, b: Ctx, n: Node, x: isize, e: Option<Result<NodeV, CompileErrorV>>) -> bool {
    e matches Some(res) ==> ((b.tokens@ == a.tokens@.drop_first() && n@ == lit_nv(x, int_tv())
        && same_but_tokens(b, a)) || (b.tokens@ == a.tokens@.skip(3) && res == Ok::<
        NodeV,
        CompileErrorV,
    >(n@)))
}

/// After an operator loop on `x op y ;`: the result, with `y` taken.
pub open spec fn bin_done(a: Ctx, b: Ctx, n: Node, e: Option<Result<NodeV, CompileErrorV>>) -> bool {
    e matches Some(res) ==> (b.tokens@ == a.tokens@.skip(3) && res == Ok::<NodeV, CompileErrorV>(n@))
}

/// `x op y` for a relational operator.
pub open spec fn rel_res(op: TokenV, x: isize, y: isize, vars: Seq<Var>) -> Option<Result<NodeV, CompileErrorV>> {
    let l = Box::new(lit_nv(x, int_tv()));
    let r = Box::new(lit_nv(y, int_tv()));
    if tok_is(op, "<"@) {
        typed_op(NodeKindV::Lt { lhs: l, rhs: r }, vars)
    } else if tok_is(op, "<="@) {
        typed_op(NodeKindV::Le { lhs: l, rhs: r }, vars)
    } else if tok_is(op, ">"@) {
        typed_op(NodeKindV::Gt { lhs: l, rhs: r }, vars)
    } else if tok_is(op, ">="@) {
        typed_op(NodeKindV::Ge { lhs: l, rhs: r }, vars)
    } else {
        None
    }
}

/// `x op y` for a logical or equality operator.
pub open spec fn eq_res(op: TokenV, x: isize, y: isize, vars: Seq<Var>) -> Option<Result<NodeV, CompileErrorV>> {
    let l = Box::new(lit_nv(x, int_tv()));
    let r = Box::new(lit_nv(y, int_tv()));
    if tok_is(op, "||"@) {
        typed_op(NodeKindV::Or { lhs: l, rhs: r }, vars)
    } else if tok_is(op, "&&"@) {
        typed_op(NodeKindV::And { lhs: l, rhs: r }, vars)
    } else if tok_is(op, "=="@) {
        typed_op(NodeKindV::Eq { lhs: l, rhs: r }, vars)
    } else if tok_is(op, "!="@) {
        typed_op(NodeKindV::Ne { lhs: l, rhs: r }, vars)
    } else {
        None
    }
}

/// `x op y` for a multiplicative operator.
pub open spec fn mul_res(op: TokenV, x: isize, y: isize, vars: Seq<Var>) -> Option<Result<NodeV, CompileErrorV>> {
    let l = Box::new(lit_nv(x, int_tv()));
    let r = Box::new(lit_nv(y, int_tv()));
    if tok_is(op, "*"@) {
        typed_op(NodeKindV::Mul { lhs: l, rhs: r }, vars)
    } else if tok_is(op, "/"@) {
        typed_op(NodeKindV::Div { lhs: l, rhs: r }, vars)
    } else if tok_is(op, "%"@) {
        typed_op(NodeKindV::Mod { lhs: l, rhs: r }, vars)
    } else {
        None
    }
}

/// `x op y` for an additive operator, with the tokens after `y`.
pub open spec fn add_res(op: TokenV, x: isize, y: isize, vars: Seq<Var>, rest: Seq<Token>) -> Option<
    Result<NodeV, CompileErrorV>,
> {
    if tok_is(op, "+"@) {
        Some(add_spec(lit_nv(x, int_tv()), lit_nv(y, int_tv()), vars, rest))
    } else if tok_is(op, "-"@) {
        Some(sub_spec(lit_nv(x, int_tv()), lit_nv(y, int_tv()), vars, rest))
    } else {
        None
    }
}

/// `x op y` for a bitwise operator: the node is left untyped.
pub open spec fn bit_res(op: TokenV, x: isize, y: isize) -> Option<Result<NodeV, CompileErrorV>> {
    let l = Box::new(lit_nv(x, int_tv()));
    let r = Box::new(lit_nv(y, int_tv()));
    if tok_is(op, "&"@) {
        Some(Ok(NodeV { kind: NodeKindV::BitAnd { lhs: l, rhs: r }, ty: None }))
    } else if tok_is(op, "^"@) {
        Some(Ok(NodeV { kind: NodeKindV::BitXor { lhs: l, rhs: r }, ty: None }))
    } else if tok_is(op, "|"@) {
        Some(Ok(NodeV { kind: NodeKindV::BitOr { lhs: l, rhs: r }, ty: None }))
    } else {
        None
    }
}

/// `x op y` for an assignment operator: `x = y`, or `x = x o y` for
/// `x o= y`; `rest` is what follows `y`.
pub open spec fn assign_res(op: TokenV, x: isize, y: isize, vars: Seq<Var>, rest: Seq<Token>) -> Option<
    Result<NodeV, CompileErrorV>,
> {
    let l = lit_nv(x, int_tv());
    let r = lit_nv(y, int_tv());
    let v: Option<Result<NodeV, CompileErrorV>> = if tok_is(op, "="@) {
        Some(Ok(r))
    } else if tok_is(op, "+="@) {
        Some(add_spec(l, r, vars, rest))
    } else if tok_is(op, "-="@) {
        Some(sub_spec(l, r, vars, rest))
    } else if tok_is(op, "*="@) {
        Some(spec_add_type(NodeV { kind: NodeKindV::Mul { lhs: Box::new(l), rhs: Box::new(r) }, ty: None }, vars))
    } else if tok_is(op, "/="@) {
        Some(spec_add_type(NodeV { kind: NodeKindV::Div { lhs: Box::new(l), rhs: Box::new(r) }, ty: None }, vars))
    } else if tok_is(op, "%="@) {
        Some(spec_add_type(NodeV { kind: NodeKindV::Mod { lhs: Box::new(l), rhs: Box::new(r) }, ty: None }, vars))
    } else if tok_is(op, "&="@) {
        Some(Ok(NodeV { kind: NodeKindV::BitAnd { lhs: Box::new(l), rhs: Box::new(r) }, ty: None }))
    } else if tok_is(op, "^="@) {
        Some(Ok(NodeV { kind: NodeKindV::BitXor { lhs: Box::new(l), rhs: Box::new(r) }, ty: None }))
    } else if tok_is(op, "|="@) {
        Some(Ok(NodeV { kind: NodeKindV::BitOr { lhs: Box::new(l), rhs: Box::new(r) }, ty: None }))
    } else {
        None
    };
    match v {
        Some(Ok(val)) => typed_op(NodeKindV::NdAssign { lhs: Box::new(l), rhs: Box::new(val) }, vars),
        Some(Err(e)) => Some(Err(e)),
        None => None,
    }
}

/// The punctuators of expressions, character by character.
proof fn lemma_op_chars()
    ensures
        ";"@.len() == 1 && ";"@[0] == ';',
        ")"@.len() == 1 && ")"@[0] == ')',
        ","@.len() == 1 && ","@[0] == ',',
        "["@.len() == 1 && "["@[0] == '[',
        "."@.len() == 1 && "."@[0] == '.',
        "->"@.len() == 2 && "->"@[0] == '-' && "->"@[1] == '>',
        "++"@.len() == 2 && "++"@[0] == '+' && "++"@[1] == '+',
        "*"@.len() == 1 && "*"@[0] == '*',
        "/"@.len() == 1 && "/"@[0] == '/',
        "%"@.len() == 1 && "%"@[0] == '%',
        "+"@.len() == 1 && "+"@[0] == '+',
        "-"@.len() == 1 && "-"@[0] == '-',
        "<"@.len() == 1 && "<"@[0] == '<',
        "<="@.len() == 2 && "<="@[0] == '<' && "<="@[1] == '=',
        ">"@.len() == 1 && ">"@[0] == '>',
        ">="@.len() == 2 && ">="@[0] == '>' && ">="@[1] == '=',
        "||"@.len() == 2 && "||"@[0] == '|' && "||"@[1] == '|',
        "&&"@.len() == 2 && "&&"@[0] == '&' && "&&"@[1] == '&',
        "=="@.len() == 2 && "=="@[0] == '=' && "=="@[1] == '=',
        "!="@.len() == 2 && "!="@[0] == '!' && "!="@[1] == '=',
        "&"@.len() == 1 && "&"@[0] == '&',
        "^"@.len() == 1 && "^"@[0] == '^',
        "|"@.len() == 1 && "|"@[0] == '|',
        "="@.len() == 1 && "="@[0] == '=',
        "+="@.len() == 2 && "+="@[0] == '+' && "+="@[1] == '=',
        "-="@.len() == 2 && "-="@[0] == '-' && "-="@[1] == '=',
        "*="@.len() == 2 && "*="@[0] == '*' && "*="@[1] == '=',
        "/="@.len() == 2 && "/="@[0] == '/' && "/="@[1] == '=',
        "%="@.len() == 2 && "%="@[0] == '%' && "%="@[1] == '=',
        "&="@.len() == 2 && "&="@[0] == '&' && "&="@[1] == '=',
        "^="@.len() == 2 && "^="@[0] == '^' && "^="@[1] == '=',
        "|="@.len() == 2 && "|="@[0] == '|' && "|="@[1] == '=',
{
    reveal_strlit(";");
    reveal_strlit(")");
    reveal_strlit(",");
    reveal_strlit("[");
    reveal_strlit(".");
    reveal_strlit("->");
    reveal_strlit("++");
    reveal_strlit("*");
    reveal_strlit("/");
    reveal_strlit("%");
    reveal_strlit("+");
    reveal_strlit("-");
    reveal_strlit("<");
    reveal_strlit("<=");
    reveal_strlit(">");
    reveal_strlit(">=");
    reveal_strlit("||");
    reveal_strlit("&&");
    reveal_strlit("==");
    reveal_strlit("!=");
    reveal_strlit("&");
    reveal_strlit("^");
    reveal_strlit("|");
    reveal_strlit("=");
    reveal_strlit("+=");
    reveal_strlit("-=");
    reveal_strlit("*=");
    reveal_strlit("/=");
    reveal_strlit("%=");
    reveal_strlit("&=");
    reveal_strlit("^=");
    reveal_strlit("|=");
}

/// A `;` is none of the operators that continue an expression.
proof fn lemma_semi_ends_expr(t: TokenV)
    requires
        tok_is(t, ";"@),
    ensures
        !tok_is(t, "="@) && !tok_is(t, "+="@) && !tok_is(t, "-="@) && !tok_is(t, "*="@),
        !tok_is(t, "/="@) && !tok_is(t, "%="@) && !tok_is(t, "&="@) && !tok_is(t, "^="@),
        !tok_is(t, "|="@) && !tok_is(t, "&"@) && !tok_is(t, "^"@) && !tok_is(t, "|"@),
        !tok_is(t, "||"@) && !tok_is(t, "&&"@) && !tok_is(t, "=="@) && !tok_is(t, "!="@),
        !tok_is(t, "<"@) && !tok_is(t, "<="@) && !tok_is(t, ">"@) && !tok_is(t, ">="@),
        !tok_is(t, "+"@) && !tok_is(t, "-"@) && !tok_is(t, "*"@) && !tok_is(t, "/"@),
        !tok_is(t, "%"@) && !tok_is(t, "["@) && !tok_is(t, "."@) && !tok_is(t, "->"@),
        !tok_is(t, "++"@) && !tok_is(t, ","@),
{
    reveal_strlit(";");
    reveal_strlit(",");
    reveal_strlit("=");
    reveal_strlit("+=");
    reveal_strlit("-=");
    reveal_strlit("*=");
    reveal_strlit("/=");
    reveal_strlit("%=");
    reveal_strlit("&=");
    reveal_strlit("^=");
    reveal_strlit("|=");
    reveal_strlit("&");
    reveal_strlit("^");
    reveal_strlit("|");
    reveal_strlit("||");
    reveal_strlit("&&");
    reveal_strlit("==");
    reveal_strlit("!=");
    reveal_strlit("<");
    reveal_strlit("<=");
    reveal_strlit(">");
    reveal_strlit(">=");
    reveal_strlit("+");
    reveal_strlit("-");
    reveal_strlit("*");
    reveal_strlit("/");
    reveal_strlit("%");
    reveal_strlit("[");
    reveal_strlit(".");
    reveal_strlit("->");
    reveal_strlit("++");
    assert(";"@.len() == 1 && ";"@[0] == ';');
    assert("+="@.len() == 2 && "-="@.len() == 2 && "*="@.len() == 2 && "/="@.len() == 2);
    assert("%="@.len() == 2 && "&="@.len() == 2 && "^="@.len() == 2 && "|="@.len() == 2);
    assert("||"@.len() == 2 && "&&"@.len() == 2 && "=="@.len() == 2 && "!="@.len() == 2);
    assert("<="@.len() == 2 && ">="@.len() == 2 && "->"@.len() == 2 && "++"@.len() == 2);
    assert("="@[0] == '=' && "&"@[0] == '&' && "^"@[0] == '^' && "|"@[0] == '|');
    assert("<"@[0] == '<' && ">"@[0] == '>' && "+"@[0] == '+' && "-"@[0] == '-');
    assert("*"@[0] == '*' && "/"@[0] == '/' && "%"@[0] == '%' && "["@[0] == '[');
    assert("."@[0] == '.' && ","@[0] == ',');
}

/// The tokens start with `{` `}`: a member list with nothing in it.
pub open spec fn empty_body(ts: Seq<Token>) -> bool {
    ts.len() > 1 && tok_is(ts[0]@, "{"@) && tok_is(ts[1]@, "}"@)
}

/// The tokens are `op v x` for a number `v` whose next token `x` continues
/// no postfix expression: the operator token and the number.
pub open spec fn unary_num(ts: Seq<Token>) -> Option<(TokenV, isize)> {
    if ts.len() > 2 && ends_postfix(ts[2]@) {
        match ts[1].kind {
            TokenKind::Num { val } => Some((ts[0]@, val)),
            _ => None,
        }
    } else {
        None
    }
}

/// What a unary operator makes of the number `v`: `+` leaves it, `-`
/// negates it, `&` takes its address and `*` dereferences it (`next` being
/// the token that follows); each typed.
pub open spec fn unary_res(op: TokenV, v: isize, vars: Seq<Var>, next: TokenV) -> Option<
    Result<NodeV, CompileErrorV>,
> {
    let l = Box::new(lit_nv(v, int_tv()));
    if tok_is(op, "+"@) {
        Some(Ok(lit_nv(v, int_tv())))
    } else if tok_is(op, "-"@) {
        typed_op(NodeKindV::Neg { lhs: l }, vars)
    } else if tok_is(op, "&"@) {
        typed_op(NodeKindV::Addr { lhs: l }, vars)
    } else if tok_is(op, "*"@) {
        typed_op(NodeKindV::Deref { lhs: l, tok: next }, vars)
    } else {
        None
    }
}

/// The tokens are `( keyword ) v x` for a number `v` whose next token `x`
/// continues no postfix expression: the type the keyword names and the
/// number.
pub open spec fn cast_num(ts: Seq<Token>) -> Option<(TypeV, isize)> {
    if ts.len() > 4 && tok_is(ts[0]@, "("@) && ts[1].kind is Keyword && kw_type(ts[1]@) is Some && tok_is(
        ts[2]@,
        ")"@,
    ) && ends_postfix(ts[4]@) {
        match ts[3].kind {
            TokenKind::Num { val } => Some((kw_type(ts[1]@)->0, val)),
            _ => None,
        }
    } else {
        None
    }
}

/// The statement `return v;` for a number `v`.
pub open spec fn return_num_nv(v: isize) -> NodeV {
    NodeV { kind: NodeKindV::Return { lhs: Box::new(lit_nv(v, int_tv())) }, ty: Some(int_tv()) }
}

/// The statement that starts the tokens when it is `;`, `v;` or `return
/// v;` for a number `v`: its node and how many tokens it takes.
pub open spec fn simple_stmt(ts: Seq<Token>) -> Option<(NodeV, int)> {
    if semi_first(ts) {
        Some((NodeV { kind: NodeKindV::Block { body: Seq::empty() }, ty: None }, 1))
    } else {
        match lone_num(ts) {
            Some(v) => Some((num_stmt_nv(v), 2)),
            None => match return_num(ts) {
                Some(v) => Some((return_num_nv(v), 3)),
                None => None,
            },
        }
    }
}

/// The statements up to the closing `}` when each is of the shape that
/// `simple_stmt` describes, and how many tokens they take with the `}`;
/// `None` where the tokens are not of that shape.
pub open spec fn simple_stmts(ts: Seq<Token>) -> Option<(Seq<NodeV>, int)>
    decreases ts.len(),
{
    if ts.len() == 0 {
        None
    } else if tok_is(ts[0]@, "}"@) {
        Some((Seq::empty(), 1))
    } else {
        match simple_stmt(ts) {
            Some((n, k)) => if 0 < k <= ts.len() {
                match simple_stmts(ts.skip(k)) {
                    Some((ns, m)) => Some((seq![n] + ns, k + m)),
                    None => None,
                }
            } else {
                None
            },
            None => None,
        }
    }
}

/// `kw ( v ) S` for a number `v` and a simple statement `S` from the fifth
/// token on: the number, the statement and the tokens the statement takes.
pub open spec fn head_num(ts: Seq<Token>, kw: Seq<char>) -> Option<(isize, NodeV, int)> {
    if ts.len() > 4 && tok_is(ts[0]@, kw) && tok_is(ts[1]@, "("@) && tok_is(ts[3]@, ")"@) {
        match ts[2].kind {
            TokenKind::Num { val } => match simple_stmt(ts.skip(4)) {
                Some((st, k)) => Some((val, st, k)),
                None => None,
            },
            _ => None,
        }
    } else {
        None
    }
}

/// `if (v) S1` with an optional `else S2`, and `while (v) S`, for a number
/// `v` and simple statements: the tree, with every branch kept, and the
/// tokens taken.
pub open spec fn simple_cond_stmt(ts: Seq<Token>) -> Option<(NodeV, int)> {
    match head_num(ts, "if"@) {
        Some((v, s1, k1)) => {
            let rest = ts.skip(4 + k1);
            if rest.len() == 0 {
                None
            } else if tok_is(rest[0]@, "else"@) {
                match simple_stmt(rest.drop_first()) {
                    Some((s2, k2)) => Some(
                        (
                            NodeV {
                                kind: NodeKindV::If {
                                    cond: Box::new(lit_nv(v, int_tv())),
                                    then: Box::new(s1),
                                    els: Some(Box::new(s2)),
                                },
                                ty: None,
                            },
                            5 + k1 + k2,
                        ),
                    ),
                    None => None,
                }
            } else {
                Some(
                    (
                        NodeV {
                            kind: NodeKindV::If { cond: Box::new(lit_nv(v, int_tv())), then: Box::new(s1), els: None },
                            ty: None,
                        },
                        4 + k1,
                    ),
                )
            }
        },
        None => match head_num(ts, "while"@) {
            Some((v, st, k)) => Some(
                (
                    NodeV {
                        kind: NodeKindV::While { cond: Box::new(lit_nv(v, int_tv())), body: Box::new(st) },
                        ty: None,
                    },
                    4 + k,
                ),
            ),
            None => None,
        },
    }
}

/// A block of simple statements in a function with room for one more scope.
pub open spec fn simple_block(c: Ctx) -> bool {
    cur_fn(c) matches Some(fi) && c.functions@[fi].scopes@.len() < isize::MAX - 1 && simple_stmts(c.tokens@) is Some
}

/// None of the words that start a simple statement names a type.
proof fn lemma_stmt_words()
    ensures
        "return"@ != "int"@ && "return"@ != "short"@ && "return"@ != "long"@ && "return"@ != "char"@,
        "return"@ != "struct"@ && "return"@ != "union"@ && "return"@ != "enum"@,
        "return"@ != "typedef"@ && ";"@ != "typedef"@,
        ";"@ != "int"@ && ";"@ != "short"@ && ";"@ != "long"@ && ";"@ != "char"@,
        ";"@ != "struct"@ && ";"@ != "union"@ && ";"@ != "enum"@,
{
    reveal_strlit("return");
    reveal_strlit("int");
    reveal_strlit("short");
    reveal_strlit("long");
    reveal_strlit("char");
    reveal_strlit("struct");
    reveal_strlit("union");
    reveal_strlit("enum");
    reveal_strlit("typedef");
    reveal_strlit(";");
    assert("return"@.len() == 6 && "return"@[0] == 'r' && "int"@.len() == 3 && "short"@.len() == 5);
    assert("long"@.len() == 4 && "char"@.len() == 4 && "struct"@[0] == 's' && "union"@.len() == 5);
    assert("enum"@.len() == 4 && "typedef"@.len() == 7 && ";"@.len() == 1);
}

/// The tokens start with `}`.
pub open spec fn brace_first(ts: Seq<Token>) -> bool {
    ts.len() > 0 && tok_is(ts[0]@, "}"@)
}

/// The tokens start with `;`.
pub open spec fn semi_first(ts: Seq<Token>) -> bool {
    ts.len() > 0 && tok_is(ts[0]@, ";"@)
}

/// The statement `v;` for a number `v`.
pub open spec fn num_stmt_nv(v: isize) -> NodeV {
    NodeV { kind: NodeKindV::ExprStmt { lhs: Box::new(lit_nv(v, int_tv())) }, ty: Some(int_tv()) }
}

/// The value `v` when the tokens start with `return v ;` for a number `v`.
pub open spec fn return_num(ts: Seq<Token>) -> Option<isize> {
    if ts.len() > 0 && tok_is(ts[0]@, "return"@) {
        lone_num(ts.drop_first())
    } else {
        None
    }
}

/// A parsing step that, when it succeeds, took at least one token and gives
/// a syntax tree whose variables exist.
pub open spec fn parsed(a: Ctx, b: Ctx, r: Result<Node, CompileError>) -> bool {
    &&& step(a, b)
    &&& r matches Ok(n) ==> node_ok(n, b) && b.tokens@.len() < a.tokens@.len() && scopes_kept(a, b)
}

//
// expressions
//

impl Ctx {
    /// `expr = assign`.
    fn expr(&mut self) -> (r: Result<Node, CompileError>)
        requires
            ctx_wf(*old(self)),
        ensures
            parsed(*old(self), *final(self), r),
            num_alone(*old(self), *final(self), r, ends_assign(old(self).tokens@[1]@)),
        decreases old(self).tokens@.len(), 20nat,
    {
        self.assign()
    }

    /// `assign = bit (assign-op assign)*`, right associative; `a op= b`
    /// becomes `a = a op b`.
    #[verifier::spinoff_prover]
    fn assign(&mut self) -> (r: Result<Node, CompileError>)
        requires
            ctx_wf(*old(self)),
        ensures
            parsed(*old(self), *final(self), r),
            num_alone(*old(self), *final(self), r, ends_assign(old(self).tokens@[1]@)),
            match num_op_num(old(self).tokens@) {
                Some((x, op, y)) => bin_parsed(*old(self), *final(self), r, assign_res(op, x, y, old(self).vars@, old(self).tokens@.skip(3))),
                None => true,
            },
        decreases old(self).tokens@.len(), 19nat,
    {
        proof {
            lemma_op_chars();
        }
        let mut node = self.bit()?;
        loop
            invariant
                step(*old(self), *self),
                scopes_kept(*old(self), *self),
                self.tokens@.len() < old(self).tokens@.len(),
                node_ok(node, *self),
                still_alone(*old(self), *self, node, ends_assign(old(self).tokens@[1]@)),
                match num_op_num(old(self).tokens@) {
                    Some((x, op, y)) => bin_state(*old(self), *self, node, x, assign_res(op, x, y, old(self).vars@, old(self).tokens@.skip(3))),
                    None => true,
                },
            ensures
                step(*old(self), *self),
                scopes_kept(*old(self), *self),
                self.tokens@.len() < old(self).tokens@.len(),
                node_ok(node, *self),
                still_alone(*old(self), *self, node, ends_assign(old(self).tokens@[1]@)),
                match num_op_num(old(self).tokens@) {
                    Some((x, op, y)) => bin_done(*old(self), *self, node, assign_res(op, x, y, old(self).vars@, old(self).tokens@.skip(3))),
                    None => true,
                },
            decreases self.tokens@.len(),
        {
            if self.tokens.len() == 0 {
                break;
            }
            proof {
                if num_first(old(self).tokens@) is Some && self.tokens@ == old(self).tokens@.drop_first() {
                    assert(self.tokens@[0] == old(self).tokens@[1]);
                }
                lemma_op_chars();
                if num_op_num(old(self).tokens@) is Some && self.tokens@ == old(self).tokens@.skip(3) {
                    assert(self.tokens@[0] == old(self).tokens@[3]);
                    lemma_semi_ends_expr(self.tokens@[0]@);
                }
                if num_op_num(old(self).tokens@) is Some && self.tokens@ == old(self).tokens@.drop_first() {
                    assert(self.tokens@[0] == old(self).tokens@[1]);
                }
            }
            let op: usize = if self.hequal("=") {
                0
            } else if self.hequal("+=") {
                1
            } else if self.hequal("-=") {
                2
            } else if self.hequal("*=") {
                3
            } else if self.hequal("/=") {
                4
            } else if self.hequal("%=") {
                5
            } else if self.hequal("&=") {
                6
            } else if self.hequal("^=") {
                7
            } else if self.hequal("|=") {
                8
            } else {
                break;
            };
            self.advance(1);
            proof {
                if num_op_num(old(self).tokens@) is Some {
                    assert(old(self).tokens@.drop_first().skip(1) =~= old(self).tokens@.skip(2));
                    assert(old(self).tokens@.skip(2).drop_first() =~= old(self).tokens@.skip(3));
                }
            }
            let ghost c = *self;
            let rhs = self.assign()?;
            proof {
                lemma_node_mono(node, c, *self);
            }
            let value = if op == 0 {
                rhs
            } else if op == 1 {
                self.new_add(node.dup(), rhs)?
            } else if op == 2 {
                self.new_sub(node.dup(), rhs)?
            } else if op == 3 {
                self.new_mul(node.dup(), rhs)?
            } else if op == 4 {
                self.new_div(node.dup(), rhs)?
            } else if op == 5 {
                self.new_mod(node.dup(), rhs)?
            } else if op == 6 {
                self.new_bit_and(node.dup(), rhs)
            } else if op == 7 {
                self.new_bit_xor(node.dup(), rhs)
            } else {
                self.new_bit_or(node.dup(), rhs)
            };
            node = self.new_assign(node, value)?;
        }
        Ok(node)
    }

    /// `bit = equality (("&" | "^" | "|") equality)*`, left associative.
    fn bit(&mut self) -> (r: Result<Node, CompileError>)
        requires
            ctx_wf(*old(self)),
        ensures
            parsed(*old(self), *final(self), r),
            num_alone(*old(self), *final(self), r, ends_bit(old(self).tokens@[1]@)),
            match num_op_num(old(self).tokens@) {
                Some((x, op, y)) => bin_parsed(*old(self), *final(self), r, bit_res(op, x, y)),
                None => true,
            },
        decreases old(self).tokens@.len(), 18nat,
    {
        proof {
            lemma_op_chars();
        }
        let mut node = self.equality()?;
        loop
            invariant
                step(*old(self), *self),
                scopes_kept(*old(self), *self),
                self.tokens@.len() < old(self).tokens@.len(),
                node_ok(node, *self),
                still_alone(*old(self), *self, node, ends_bit(old(self).tokens@[1]@)),
                match num_op_num(old(self).tokens@) {
                    Some((x, op, y)) => bin_state(*old(self), *self, node, x, bit_res(op, x, y)),
                    None => true,
                },
            ensures
                step(*old(self), *self),
                scopes_kept(*old(self), *self),
                self.tokens@.len() < old(self).tokens@.len(),
                node_ok(node, *self),
                still_alone(*old(self), *self, node, ends_bit(old(self).tokens@[1]@)),
                match num_op_num(old(self).tokens@) {
                    Some((x, op, y)) => bin_done(*old(self), *self, node, bit_res(op, x, y)),
                    None => true,
                },
            decreases self.tokens@.len(),
        {
            if self.tokens.len() == 0 {
                break;
            }
            proof {
                if num_first(old(self).tokens@) is Some && self.tokens@ == old(self).tokens@.drop_first() {
                    assert(self.tokens@[0] == old(self).tokens@[1]);
                }
                lemma_op_chars();
                if num_op_num(old(self).tokens@) is Some && self.tokens@ == old(self).tokens@.skip(3) {
                    assert(self.tokens@[0] == old(self).tokens@[3]);
                    lemma_semi_ends_expr(self.tokens@[0]@);
                }
                if num_op_num(old(self).tokens@) is Some && self.tokens@ == old(self).tokens@.drop_first() {
                    assert(self.tokens@[0] == old(self).tokens@[1]);
                }
            }
            let op: usize = if self.hequal("&") {
                0
            } else if self.hequal("^") {
                1
            } else if self.hequal("|") {
                2
            } else {
                break;
            };
            self.advance(1);
            proof {
                if num_op_num(old(self).tokens@) is Some {
                    assert(old(self).tokens@.drop_first().skip(1) =~= old(self).tokens@.skip(2));
                    assert(old(self).tokens@.skip(2).drop_first() =~= old(self).tokens@.skip(3));
                }
            }
            let ghost c = *self;
            let rhs = self.equality()?;
            proof {
                lemma_node_mono(node, c, *self);
            }
            node = if op == 0 {
                self.new_bit_and(node, rhs)
            } else if op == 1 {
                self.new_bit_xor(node, rhs)
            } else {
                self.new_bit_or(node, rhs)
            };
        }
        Ok(node)
    }

    /// `equality = relational (("||" | "&&") add | ("==" | "!=") relational)*`,
    /// left associative.
    fn equality(&mut self) -> (r: Result<Node, CompileError>)
        requires
            ctx_wf(*old(self)),
        ensures
            parsed(*old(self), *final(self), r),
            num_alone(*old(self), *final(self), r, ends_eq(old(self).tokens@[1]@)),
            match num_op_num(old(self).tokens@) {
                Some((x, op, y)) => bin_parsed(*old(self), *final(self), r, eq_res(op, x, y, old(self).vars@)),
                None => true,
            },
        decreases old(self).tokens@.len(), 17nat,
    {
        proof {
            lemma_op_chars();
        }
        let mut node = self.relational()?;
        loop
            invariant
                step(*old(self), *self),
                scopes_kept(*old(self), *self),
                self.tokens@.len() < old(self).tokens@.len(),
                node_ok(node, *self),
                still_alone(*old(self), *self, node, ends_eq(old(self).tokens@[1]@)),
                match num_op_num(old(self).tokens@) {
                    Some((x, op, y)) => bin_state(*old(self), *self, node, x, eq_res(op, x, y, old(self).vars@)),
                    None => true,
                },
            ensures
                step(*old(self), *self),
                scopes_kept(*old(self), *self),
                self.tokens@.len() < old(self).tokens@.len(),
                node_ok(node, *self),
                still_alone(*old(self), *self, node, ends_eq(old(self).tokens@[1]@)),
                match num_op_num(old(self).tokens@) {
                    Some((x, op, y)) => bin_done(*old(self), *self, node, eq_res(op, x, y, old(self).vars@)),
                    None => true,
                },
            decreases self.tokens@.len(),
        {
            if self.tokens.len() == 0 {
                break;
            }
            proof {
                if num_first(old(self).tokens@) is Some && self.tokens@ == old(self).tokens@.drop_first() {
                    assert(self.tokens@[0] == old(self).tokens@[1]);
                }
                lemma_op_chars();
                if num_op_num(old(self).tokens@) is Some && self.tokens@ == old(self).tokens@.skip(3) {
                    assert(self.tokens@[0] == old(self).tokens@[3]);
                    lemma_semi_ends_expr(self.tokens@[0]@);
                }
                if num_op_num(old(self).tokens@) is Some && self.tokens@ == old(self).tokens@.drop_first() {
                    assert(self.tokens@[0] == old(self).tokens@[1]);
                }
            }
            let op: usize = if self.hequal("||") {
                0
            } else if self.hequal("&&") {
                1
            } else if self.hequal("==") {
                2
            } else if self.hequal("!=") {
                3
            } else {
                break;
            };
            self.advance(1);
            proof {
                if num_op_num(old(self).tokens@) is Some {
                    assert(old(self).tokens@.drop_first().skip(1) =~= old(self).tokens@.skip(2));
                    assert(old(self).tokens@.skip(2).drop_first() =~= old(self).tokens@.skip(3));
                }
            }
            let ghost c = *self;
            let rhs = if op <= 1 {
                self.add()?
            } else {
                self.relational()?
            };
            proof {
                lemma_node_mono(node, c, *self);
            }
            node = if op == 0 {
                self.new_or(node, rhs)?
            } else if op == 1 {
                self.new_and(node, rhs)?
            } else if op == 2 {
                self.new_eq(node, rhs)?
            } else {
                self.new_ne(node, rhs)?
            };
        }
        Ok(node)
    }

    /// `relational = add (("<" | "<=" | ">" | ">=") add)*`, left associative.
    fn relational(&mut self) -> (r: Result<Node, CompileError>)
        requires
            ctx_wf(*old(self)),
        ensures
            parsed(*old(self), *final(self), r),
            num_alone(*old(self), *final(self), r, ends_rel(old(self).tokens@[1]@)),
            match num_op_num(old(self).tokens@) {
                Some((x, op, y)) => bin_parsed(*old(self), *final(self), r, rel_res(op, x, y, old(self).vars@)),
                None => true,
            },
        decreases old(self).tokens@.len(), 16nat,
    {
        proof {
            lemma_op_chars();
        }
        let mut node = self.add()?;
        loop
            invariant
                step(*old(self), *self),
                scopes_kept(*old(self), *self),
                self.tokens@.len() < old(self).tokens@.len(),
                node_ok(node, *self),
                still_alone(*old(self), *self, node, ends_rel(old(self).tokens@[1]@)),
                match num_op_num(old(self).tokens@) {
                    Some((x, op, y)) => bin_state(*old(self), *self, node, x, rel_res(op, x, y, old(self).vars@)),
                    None => true,
                },
            ensures
                step(*old(self), *self),
                scopes_kept(*old(self), *self),
                self.tokens@.len() < old(self).tokens@.len(),
                node_ok(node, *self),
                still_alone(*old(self), *self, node, ends_rel(old(self).tokens@[1]@)),
                match num_op_num(old(self).tokens@) {
                    Some((x, op, y)) => bin_done(*old(self), *self, node, rel_res(op, x, y, old(self).vars@)),
                    None => true,
                },
            decreases self.tokens@.len(),
        {
            if self.tokens.len() == 0 {
                break;
            }
            proof {
                if num_first(old(self).tokens@) is Some && self.tokens@ == old(self).tokens@.drop_first() {
                    assert(self.tokens@[0] == old(self).tokens@[1]);
                }
                lemma_op_chars();
                if num_op_num(old(self).tokens@) is Some && self.tokens@ == old(self).tokens@.skip(3) {
                    assert(self.tokens@[0] == old(self).tokens@[3]);
                    lemma_semi_ends_expr(self.tokens@[0]@);
                }
                if num_op_num(old(self).tokens@) is Some && self.tokens@ == old(self).tokens@.drop_first() {
                    assert(self.tokens@[0] == old(self).tokens@[1]);
                }
            }
            let op: usize = if self.hequal("<") {
                0
            } else if self.hequal("<=") {
                1
            } else if self.hequal(">") {
                2
            } else if self.hequal(">=") {
                3
            } else {
                break;
            };
            self.advance(1);
            proof {
                if num_op_num(old(self).tokens@) is Some {
                    assert(old(self).tokens@.drop_first().skip(1) =~= old(self).tokens@.skip(2));
                    assert(old(self).tokens@.skip(2).drop_first() =~= old(self).tokens@.skip(3));
                }
            }
            let ghost c = *self;
            let rhs = self.add()?;
            proof {
                lemma_node_mono(node, c, *self);
            }
            node = if op == 0 {
                self.new_lt(node, rhs)?
            } else if op == 1 {
                self.new_le(node, rhs)?
            } else if op == 2 {
                self.new_gt(node, rhs)?
            } else {
                self.new_ge(node, rhs)?
            };
        }
        Ok(node)
    }

    /// `add = mul (("+" | "-") mul)*`, left associative.
    #[verifier::spinoff_prover]
    #[verifier::rlimit(30)]
    fn add(&mut self) -> (r: Result<Node, CompileError>)
        requires
            ctx_wf(*old(self)),
        ensures
            parsed(*old(self), *final(self), r),
            num_alone(*old(self), *final(self), r, ends_add(old(self).tokens@[1]@)),
            match num_op_num(old(self).tokens@) {
                Some((x, op, y)) => bin_parsed(*old(self), *final(self), r, add_res(op, x, y, old(self).vars@, old(self).tokens@.skip(3))),
                None => true,
            },
        decreases old(self).tokens@.len(), 15nat,
    {
        proof {
            lemma_op_chars();
        }
        let mut node = self.mul()?;
        loop
            invariant
                step(*old(self), *self),
                scopes_kept(*old(self), *self),
                self.tokens@.len() < old(self).tokens@.len(),
                node_ok(node, *self),
                still_alone(*old(self), *self, node, ends_add(old(self).tokens@[1]@)),
                match num_op_num(old(self).tokens@) {
                    Some((x, op, y)) => bin_state(*old(self), *self, node, x, add_res(op, x, y, old(self).vars@, old(self).tokens@.skip(3))),
                    None => true,
                },
            ensures
                step(*old(self), *self),
                scopes_kept(*old(self), *self),
                self.tokens@.len() < old(self).tokens@.len(),
                node_ok(node, *self),
                still_alone(*old(self), *self, node, ends_add(old(self).tokens@[1]@)),
                match num_op_num(old(self).tokens@) {
                    Some((x, op, y)) => bin_done(*old(self), *self, node, add_res(op, x, y, old(self).vars@, old(self).tokens@.skip(3))),
                    None => true,
                },
            decreases self.tokens@.len(),
        {
            if self.tokens.len() == 0 {
                break;
            }
            proof {
                if num_first(old(self).tokens@) is Some && self.tokens@ == old(self).tokens@.drop_first() {
                    assert(self.tokens@[0] == old(self).tokens@[1]);
                }
                lemma_op_chars();
                if num_op_num(old(self).tokens@) is Some && self.tokens@ == old(self).tokens@.skip(3) {
                    assert(self.tokens@[0] == old(self).tokens@[3]);
                    lemma_semi_ends_expr(self.tokens@[0]@);
                }
                if num_op_num(old(self).tokens@) is Some && self.tokens@ == old(self).tokens@.drop_first() {
                    assert(self.tokens@[0] == old(self).tokens@[1]);
                }
            }
            let plus = if self.hequal("+") {
                true
            } else if self.hequal("-") {
                false
            } else {
                break;
            };
            self.advance(1);
            proof {
                if num_op_num(old(self).tokens@) is Some {
                    assert(old(self).tokens@.drop_first().skip(1) =~= old(self).tokens@.skip(2));
                    assert(old(self).tokens@.skip(2).drop_first() =~= old(self).tokens@.skip(3));
                }
            }
            let ghost c = *self;
            let rhs = self.mul()?;
            proof {
                lemma_node_mono(node, c, *self);
            }
            node = if plus {
                self.new_add(node, rhs)?
            } else {
                self.new_sub(node, rhs)?
            };
        }
        Ok(node)
    }

    /// `mul = cast ("*" cast)* (("/" | "%") cast)?`: a division or remainder
    /// ends the term.
    fn mul(&mut self) -> (r: Result<Node, CompileError>)
        requires
            ctx_wf(*old(self)),
        ensures
            parsed(*old(self), *final(self), r),
            num_alone(*old(self), *final(self), r, ends_mul(old(self).tokens@[1]@)),
            match num_op_num(old(self).tokens@) {
                Some((x, op, y)) => bin_parsed(*old(self), *final(self), r, mul_res(op, x, y, old(self).vars@)),
                None => true,
            },
        decreases old(self).tokens@.len(), 14nat,
    {
        proof {
            lemma_op_chars();
        }
        let mut node = self.cast()?;
        loop
            invariant
                step(*old(self), *self),
                scopes_kept(*old(self), *self),
                self.tokens@.len() < old(self).tokens@.len(),
                node_ok(node, *self),
                still_alone(*old(self), *self, node, ends_mul(old(self).tokens@[1]@)),
                match num_op_num(old(self).tokens@) {
                    Some((x, op, y)) => bin_state(*old(self), *self, node, x, mul_res(op, x, y, old(self).vars@)),
                    None => true,
                },
            ensures
                step(*old(self), *self),
                scopes_kept(*old(self), *self),
                self.tokens@.len() < old(self).tokens@.len(),
                node_ok(node, *self),
                still_alone(*old(self), *self, node, ends_mul(old(self).tokens@[1]@)),
                match num_op_num(old(self).tokens@) {
                    Some((x, op, y)) => bin_done(*old(self), *self, node, mul_res(op, x, y, old(self).vars@)),
                    None => true,
                },
            decreases self.tokens@.len(),
        {
            if self.tokens.len() == 0 {
                break;
            }
            proof {
                if num_first(old(self).tokens@) is Some && self.tokens@ == old(self).tokens@.drop_first() {
                    assert(self.tokens@[0] == old(self).tokens@[1]);
                }
                lemma_op_chars();
                if num_op_num(old(self).tokens@) is Some && self.tokens@ == old(self).tokens@.skip(3) {
                    assert(self.tokens@[0] == old(self).tokens@[3]);
                    lemma_semi_ends_expr(self.tokens@[0]@);
                }
                if num_op_num(old(self).tokens@) is Some && self.tokens@ == old(self).tokens@.drop_first() {
                    assert(self.tokens@[0] == old(self).tokens@[1]);
                }
            }
            let op: usize = if self.hequal("*") {
                0
            } else if self.hequal("/") {
                1
            } else if self.hequal("%") {
                2
            } else {
                break;
            };
            self.advance(1);
            proof {
                if num_op_num(old(self).tokens@) is Some {
                    assert(old(self).tokens@.drop_first().skip(1) =~= old(self).tokens@.skip(2));
                    assert(old(self).tokens@.skip(2).drop_first() =~= old(self).tokens@.skip(3));
                }
            }
            let ghost c = *self;
            let rhs = self.cast()?;
            proof {
                lemma_node_mono(node, c, *self);
            }
            if op == 1 {
                return self.new_div(node, rhs);
            }
            if op == 2 {
                return self.new_mod(node, rhs);
            }
            node = self.new_mul(node, rhs)?;
        }
        Ok(node)
    }

    /// `cast = "(" typename ")" cast | unary`.
    fn cast(&mut self) -> (r: Result<Node, CompileError>)
        requires
            ctx_wf(*old(self)),
        ensures
            parsed(*old(self), *final(self), r),
            num_alone(*old(self), *final(self), r, ends_postfix(old(self).tokens@[1]@)),
            cast_num(old(self).tokens@) matches Some((t, v)) ==> (r matches Ok(n) && n@ == cast_nv(
                lit_nv(v, int_tv()),
                t,
            ) && final(self).tokens@ == old(self).tokens@.skip(4)),
        decreases old(self).tokens@.len(), 13nat,
    {
        self.need()?;
        if self.hequal("(") {
            if self.tokens.len() < 2 {
                return Err(eof());
            }
            if self.is_typename(&self.tokens[1])? {
                self.skip("(")?;
                proof {
                    lemma_op_chars();
                    if cast_num(old(self).tokens@) is Some {
                        let ts = old(self).tokens@;
                        assert(self.tokens@ =~= ts.drop_first());
                        assert(ts.drop_first().drop_first() =~= ts.skip(2));
                        assert(ts.skip(2)[0] == ts[2]);
                        assert(stars(ts.skip(2)) == 0);
                        assert(ptr_n(kw_type(ts[1]@)->0, 0) == kw_type(ts[1]@)->0);
                        assert(ts.skip(2).skip(0) =~= ts.skip(2));
                    }
                }
                let ty = self.typename()?;
                proof {
                    if cast_num(old(self).tokens@) is Some {
                        let ts = old(self).tokens@;
                        assert(ts.drop_first().skip(1) =~= ts.skip(2));
                    }
                }
                self.skip(")")?;
                proof {
                    if cast_num(old(self).tokens@) is Some {
                        let ts = old(self).tokens@;
                        assert(self.tokens@ =~= ts.skip(3));
                        assert(ts.skip(3).drop_first() =~= ts.skip(4));
                    }
                }
                let inner = self.cast()?;
                return Ok(self.new_cast(inner, ty));
            }
        }
        self.unary()
    }

    /// `unary = ("+" | "-" | "&" | "*") cast | postfix`.
    fn unary(&mut self) -> (r: Result<Node, CompileError>)
        requires
            ctx_wf(*old(self)),
        ensures
            parsed(*old(self), *final(self), r),
            num_alone(*old(self), *final(self), r, ends_postfix(old(self).tokens@[1]@)),
            match unary_num(old(self).tokens@) {
                Some((op, v)) => match unary_res(op, v, old(self).vars@, old(self).tokens@[2]@) {
                    Some(e) => res_nv(r) == e && final(self).tokens@ == old(self).tokens@.skip(2),
                    None => true,
                },
                None => true,
            },
        decreases old(self).tokens@.len(), 12nat,
    {
        self.need()?;
        proof {
            lemma_op_chars();
            if unary_num(old(self).tokens@) is Some {
                assert(old(self).tokens@.skip(1)[0] == old(self).tokens@[1]);
                assert(old(self).tokens@.skip(1)[1] == old(self).tokens@[2]);
                assert(old(self).tokens@.skip(1).drop_first() =~= old(self).tokens@.skip(2));
            }
        }
        if self.hequal("+") {
            self.advance(1);
            return self.cast();
        }
        if self.hequal("-") {
            self.advance(1);
            let n = self.cast()?;
            return self.new_neg(n);
        }
        if self.hequal("&") {
            self.advance(1);
            let n = self.cast()?;
            return self.new_addr(n);
        }
        if self.hequal("*") {
            self.advance(1);
            let n = self.cast()?;
            self.need()?;
            let tok = self.tokens[0].dup();
            return self.new_deref(n, tok);
        }
        self.postfix()
    }

    /// `postfix = primary ("[" expr "]" | "." ident | "->" ident)* "++"?`;
    /// `a[i]` is `*(a + i)` and `p->m` is `(*p).m`.
    fn postfix(&mut self) -> (r: Result<Node, CompileError>)
        requires
            ctx_wf(*old(self)),
        ensures
            parsed(*old(self), *final(self), r),
            num_alone(*old(self), *final(self), r, ends_postfix(old(self).tokens@[1]@)),
        decreases old(self).tokens@.len(), 11nat,
    {
        let mut node = self.primary()?;
        loop
            invariant
                step(*old(self), *self),
                scopes_kept(*old(self), *self),
                self.tokens@.len() < old(self).tokens@.len(),
                node_ok(node, *self),
                still_alone(*old(self), *self, node, ends_postfix(old(self).tokens@[1]@)),
            decreases self.tokens@.len(),
        {
            self.need()?;
            proof {
                if num_first(old(self).tokens@) is Some && self.tokens@ == old(self).tokens@.drop_first() {
                    assert(self.tokens@[0] == old(self).tokens@[1]);
                }
            }
            if self.hequal("[") {
                self.advance(1);
                let ghost c = *self;
                let idx = self.expr()?;
                proof {
                    lemma_node_mono(node, c, *self);
                }
                self.skip("]")?;
                let sum = self.new_add(node, idx)?;
                self.need()?;
                let tok = self.tokens[0].dup();
                node = self.new_deref(sum, tok)?;
                continue;
            }
            if self.hequal(".") {
                self.advance(1);
                node = self.struct_ref(node)?;
                continue;
            }
            if self.hequal("->") {
                let tok = self.advance(1);
                let d = self.new_deref(node, tok)?;
                node = self.struct_ref(d)?;
                continue;
            }
            if self.hequal("++") {
                self.advance(1);
            }
            break;
        }
        self.add_type(&mut node)?;
        Ok(node)
    }
}

/// The tokens are `sizeof ( T )` for a type name `T` made of a type
/// keyword, pointers and array dimensions: that type and the tokens taken.
pub open spec fn sizeof_type(ts: Seq<Token>) -> Option<(TypeV, int)> {
    if ts.len() > 3 && tok_is(ts[0]@, "sizeof"@) && tok_is(ts[1]@, "("@) && ts[2].kind is Keyword && kw_type(
        ts[2]@,
    ) is Some {
        match abstract_decl(ts.skip(3), kw_type(ts[2]@)->0) {
            Some((t, n)) => if n + 3 < ts.len() && tok_is(ts[n + 3]@, ")"@) {
                Some((t, n + 4))
            } else {
                None
            },
            None => None,
        }
    } else {
        None
    }
}

/// What a primary expression is, by its first token: a number is an `int`
/// literal of its value; a string literal becomes a new global variable
/// named `lC` and the number of globals before it, a `char` array that holds
/// the text, and the primary refers to it; an identifier followed by `(` is a
/// call of that name; any other identifier is the variable it refers to, or
/// else the value of the enum member of that name, or else it is refused.
pub open spec fn primary_shape(a: Ctx, b: Ctx, r: Result<Node, CompileError>) -> bool {
    match a.tokens@[0].kind {
        TokenKind::Num { val } => r matches Ok(n) && n@ == (NodeV { kind: NodeKindV::Num { val }, ty: Some(int_tv()) }),
        TokenKind::Str { str } => r matches Ok(n) ==> {
            let v = b.vars@[a.vars@.len() as int];
            &&& b.vars@.len() == a.vars@.len() + 1
            &&& n@.kind == (NodeKindV::Var { var: a.vars@.len() as usize })
            &&& v.name@ == "lC"@ + dec_nat(a.gvars@.len() as nat)
            &&& v.ty@ == array_tv(char_tv(), str@.len() as usize)
            &&& v.init_gval == Some(InitGval::Str(str))
            &&& !v.is_local
        },
        TokenKind::Ident { name } => if a.tokens@.len() > 1 && tok_is(a.tokens@[1]@, "("@) {
            r matches Ok(n) ==> (n@.kind matches NodeKindV::FuncCall { name: f, .. } && f == name@)
        } else {
            a.tokens@.len() > 1 ==> match cur_fn(a) {
                None => r is Err,
                Some(fi) => match lookup_var(a, a.functions@[fi], name@) {
                    Some(v) => r matches Ok(n) && n@ == (NodeV {
                        kind: NodeKindV::Var { var: v },
                        ty: Some(a.vars@[v as int].ty@),
                    }),
                    None => match lookup_enum_member(a.functions@[fi].scopes@, name@) {
                        Some(val) => r matches Ok(n) && n@ == (NodeV {
                            kind: NodeKindV::Num { val },
                            ty: Some(int_tv()),
                        }),
                        None => r matches Err(e) && e@ == at_tok_err(a.tokens@[0]@, "undefined variable"@),
                    },
                },
            }
        },
        _ => true,
    }
}

/// A call's parentheses hold nothing: the tokens are `(` `)` and more.
pub open spec fn no_args(ts: Seq<Token>) -> bool {
    ts.len() > 1 && tok_is(ts[1]@, ")"@)
}

/// Integer literals of the values `vs`, in order.
pub open spec fn lits(vs: Seq<isize>) -> Seq<NodeV> {
    vs.map_values(|v: isize| lit_nv(v, int_tv()))
}

/// The numbers that a call's arguments are when each is a number literal
/// (commas between them are optional), after the `(`, and how many tokens
/// they take with the `)`; `None` where the arguments are not of that shape.
pub open spec fn num_args(ts: Seq<Token>) -> Option<(Seq<isize>, int)>
    decreases ts.len(),
{
    if ts.len() == 0 {
        None
    } else if tok_is(ts[0]@, ")"@) {
        Some((Seq::empty(), 1))
    } else {
        let k: int = if tok_is(ts[0]@, ","@) {
            1
        } else {
            0
        };
        if ts.len() > k + 1 && (tok_is(ts[k + 1]@, ","@) || tok_is(ts[k + 1]@, ")"@)) {
            match ts[k].kind {
                TokenKind::Num { val } => match num_args(ts.skip(k + 1)) {
                    Some((vs, n)) => Some((seq![val] + vs, k + 1 + n)),
                    None => None,
                },
                _ => None,
            }
        } else {
            None
        }
    }
}

proof fn lemma_num_args_len(ts: Seq<Token>)
    ensures
        num_args(ts) matches Some((vs, n)) ==> 0 <= n <= ts.len(),
    decreases ts.len(),
{
    if ts.len() > 1 {
        let k: int = if tok_is(ts[0]@, ","@) {
            1
        } else {
            0
        };
        lemma_num_args_len(ts.skip(k + 1));
    }
}

impl Ctx {
    /// `primary = num | "(" "{" stmt* "}" ")" | "(" expr ")" | "sizeof" ...
    /// | str | ident funcargs? `.
    fn primary(&mut self) -> (r: Result<Node, CompileError>)
        requires
            ctx_wf(*old(self)),
        ensures
            parsed(*old(self), *final(self), r),
            num_alone(*old(self), *final(self), r, true),
            old(self).tokens@.len() > 0 ==> primary_shape(*old(self), *final(self), r),
            sizeof_type(old(self).tokens@) matches Some((t, n)) ==> (r matches Ok(x) && x@ == lit_nv(
                t.size as isize,
                int_tv(),
            ) && final(self).tokens@ == old(self).tokens@.skip(n)),
        decreases old(self).tokens@.len(), 10nat,
    {
        self.need()?;
        proof {
            reveal_strlit("sizeof");
            reveal_strlit("(");
            assert("sizeof"@.len() == 6 && "("@.len() == 1);
            lemma_abstract_decl_len(old(self).tokens@.skip(3), kw_type(old(self).tokens@[2]@)->0);
        }
        let is_num = match &self.tokens[0].kind {
            TokenKind::Num { .. } => true,
            _ => false,
        };
        if is_num {
            let v = self.get_and_skip_number()?;
            let n = self.new_num(v);
            return Ok(n);
        }
        if self.hequal("(") {
            if self.tokens.len() >= 2 && equal(&self.tokens[1], "{") {
                self.advance(2);
                let block = self.compound_stmt()?;
                let body = match block.kind {
                    NodeKind::Block { body } => body,
                    _ => {
                        return Err(abort("statement expression body is not a block"));
                    },
                };
                let mut node = Node { kind: NodeKind::GNUStmtExpr { body }, ty: None };
                self.add_type(&mut node)?;
                self.skip(")")?;
                return Ok(node);
            }
            self.advance(1);
            let node = self.expr()?;
            self.skip(")")?;
            return Ok(node);
        }
        if self.hequal("sizeof") {
            self.advance(1);
            self.need()?;
            if self.hequal("(") && self.tokens.len() >= 2 {
                if self.is_typename(&self.tokens[1])? {
                    self.advance(1);
                    proof {
                        let ts = old(self).tokens@;
                        assert(self.tokens@ =~= ts.skip(2));
                        assert(ts.skip(2).drop_first() =~= ts.skip(3));
                    }
                    let ty = self.typename()?;
                    proof {
                        let ts = old(self).tokens@;
                        if let Some((t, n)) = sizeof_type(ts) {
                            let j = n - 4;
                            assert(ts.skip(2).skip(j + 1) =~= ts.skip(j + 3));
                            assert(ts.skip(j + 3).drop_first() =~= ts.skip(n));
                        }
                    }
                    self.skip(")")?;
                    return Ok(self.new_num(ty.size as isize));
                }
            }
            let mut node = self.unary()?;
            self.add_type(&mut node)?;
            if node.ty.is_none() {
                return Err(abort("no type information"));
            }
            let size = copy_type(&node).size;
            return Ok(self.new_num(size as isize));
        }
        let lit = match &self.tokens[0].kind {
            TokenKind::Str { str } => Some(str.clone()),
            _ => None,
        };
        if let Some(text) = lit {
            let mut name = string_of("lC");
            push_usize(&mut name, self.gvars.len());
            let len = text.as_str().unicode_len();
            let var = self.create_gvar(name, new_array_ty(new_char_ty(), len), Some(InitGval::Str(text)));
            self.advance(1);
            return Ok(var);
        }
        let ident = match &self.tokens[0].kind {
            TokenKind::Ident { name } => Some(name.clone()),
            _ => None,
        };
        if let Some(name) = ident {
            let ghost c0 = *self;
            self.advance(1);
            self.need()?;
            proof {
                assert(self.tokens@[0] == c0.tokens@[1]);
            }
            if self.hequal("(") {
                return self.funccall(name);
            }
            if let Some(v) = self.find_var(&name)? {
                let ty = copy_var_type(&self.vars[v]);
                return Ok(Node { kind: NodeKind::Var { var: v }, ty: Some(ty) });
            }
            if let Some(n) = self.find_enum_member(&name)? {
                return Ok(n);
            }
            let last = self.consumed_tokens.len() - 1;
            return Err(err_at(self.consumed_tokens[last].start, self.consumed_tokens[last].len, "undefined variable"));
        }
        Err(err_tok0(&self.tokens, "expected a value-returning expression. Maybe a \"}\" was left out? "))
    }

    /// `funcargs = "(" (assign ("," assign)*)? ")"`: a call of `name`,
    /// typed `long`, with at most eight arguments.
    fn funccall(&mut self, name: String) -> (r: Result<Node, CompileError>)
        requires
            ctx_wf(*old(self)),
            old(self).tokens@.len() > 0,
        ensures
            parsed(*old(self), *final(self), r),
            r matches Ok(n) ==> (n@.kind matches NodeKindV::FuncCall { name: f, args } && f == name@
                && args.len() <= 8 && n@.ty == Some(long_tv())),
            no_args(old(self).tokens@) ==> (r matches Ok(n) && n@ == (NodeV {
                kind: NodeKindV::FuncCall { name: name@, args: Seq::empty() },
                ty: Some(long_tv()),
            }) && final(self).tokens@ == old(self).tokens@.skip(2)),
            match num_args(old(self).tokens@.drop_first()) {
                Some((vs, n)) => if vs.len() <= 8 {
                    r matches Ok(x) && x@ == (NodeV {
                        kind: NodeKindV::FuncCall { name: name@, args: lits(vs) },
                        ty: Some(long_tv()),
                    }) && final(self).tokens@ == old(self).tokens@.skip(n + 1)
                } else {
                    r is Err
                },
                None => true,
            },
        decreases old(self).tokens@.len(), 9nat,
    {
        self.advance(1);
        let mut args: Vec<Node> = Vec::new();
        let ghost ts1 = old(self).tokens@.drop_first();
        let ghost mut used: int = 0;
        let ghost mut done: Seq<isize> = Seq::empty();
        proof {
            lemma_nodes_empty(*self);
            assert(self.tokens@ =~= old(self).tokens@.drop_first());
            assert(ts1.skip(0) =~= ts1);
            assert(lits(done) =~= Seq::empty());
            if let Some((vs, n)) = num_args(ts1) {
                assert(done + vs =~= vs);
            }
        }
        loop
            invariant_except_break
                no_args(old(self).tokens@) ==> (self.tokens@ == old(self).tokens@.drop_first() && args@.len() == 0),
                num_args(ts1) is Some ==> (0 <= used <= ts1.len() && self.tokens@ == ts1.skip(used) && nodesv(args@)
                    == lits(done) && num_args(ts1) == match num_args(self.tokens@) {
                    Some((vs, n)) => Some((done + vs, used + n)),
                    None => None,
                }),
            invariant
                step(*old(self), *self),
                scopes_kept(*old(self), *self),
                self.tokens@.len() < old(self).tokens@.len(),
                nodes_ok(args@, *self),
                ts1 == old(self).tokens@.drop_first(),
            ensures
                step(*old(self), *self),
                scopes_kept(*old(self), *self),
                self.tokens@.len() < old(self).tokens@.len(),
                nodes_ok(args@, *self),
                no_args(old(self).tokens@) ==> (self.tokens@ == old(self).tokens@.skip(2) && args@.len() == 0),
                num_args(ts1) matches Some((vs, n)) ==> (nodesv(args@) == lits(vs) && self.tokens@ == ts1.skip(n)),
            decreases self.tokens@.len(),
        {
            let ghost t = self.tokens@;
            self.need()?;
            if self.consume(")") {
                proof {
                    if no_args(old(self).tokens@) {
                        assert(self.tokens@ =~= old(self).tokens@.skip(2));
                    }
                    assert(done + Seq::<isize>::empty() =~= done);
                    if num_args(ts1) is Some {
                        assert(ts1.skip(used).drop_first() =~= ts1.skip(used + 1));
                    }
                }
                break;
            }
            let ghost k: int = if tok_is(t[0]@, ","@) {
                1
            } else {
                0
            };
            if self.hequal(",") {
                self.advance(1);
            }
            proof {
                lemma_op_chars();
                assert(self.tokens@ =~= t.skip(k));
            }
            let ghost c = *self;
            let arg = self.assign()?;
            proof {
                lemma_nodes_mono(args@, c, *self);
                lemma_nodes_push(args@, arg, *self);
                lemma_nodesv_push(args@, arg);
            }
            args.push(arg);
            proof {
                if num_args(ts1) is Some {
                    let v = arg@.kind->Num_val;
                    assert(self.tokens@ =~= t.skip(k + 1));
                    assert(t.skip(k + 1) =~= ts1.skip(used + k + 1));
                    assert(lits(done.push(v)) =~= lits(done).push(lit_nv(v, int_tv())));
                    if let Some((vs, n)) = num_args(t.skip(k + 1)) {
                        assert(done + (seq![v] + vs) =~= done.push(v) + vs);
                    }
                    done = done.push(v);
                    used = used + k + 1;
                }
            }
        }
        proof {
            lemma_nodesv_len(args@);
            lemma_num_args_len(ts1);
        }
        if args.len() > 8 {
            let last = self.consumed_tokens.len() - 1;
            return Err(err_at(
                self.consumed_tokens[last].start,
                self.consumed_tokens[last].len,
                "too many arguments. 8 arguments are allowed at most",
            ));
        }
        proof {
            lemma_nodesv_len(args@);
            if args@.len() == 0 {
                assert(nodesv(args@) =~= Seq::empty());
            }
            if let Some((vs, n)) = num_args(ts1) {
                assert(ts1.skip(n) =~= old(self).tokens@.skip(n + 1));
            }
        }
        Ok(Node { kind: NodeKind::FuncCall { name, args }, ty: Some(new_long_ty()) })
    }
}

//
// statements
//

impl Ctx {
    /// `stmt = "return" expr ";" | "if" "(" expr ")" stmt ("else" stmt)?
    /// | "for" "(" (declaration | expr_stmt) expr? ";" expr? ")" stmt
    /// | "while" "(" expr ")" stmt | "{" compound_stmt | expr_stmt`.
    #[verifier::spinoff_prover]
    #[verifier::rlimit(60)]
    fn stmt(&mut self) -> (r: Result<Node, CompileError>)
        requires
            ctx_wf(*old(self)),
        ensures
            parsed(*old(self), *final(self), r),
            r matches Ok(n) ==> {
                let t = old(self).tokens@[0]@;
                &&& tok_is(t, "return"@) ==> n@.kind is Return
                &&& tok_is(t, "if"@) ==> n@.kind is If
                &&& tok_is(t, "for"@) ==> n@.kind is For
                &&& tok_is(t, "while"@) ==> n@.kind is While
                &&& tok_is(t, "{"@) ==> n@.kind is Block
                &&& tok_is(t, ";"@) ==> n@ == (NodeV { kind: NodeKindV::Block { body: Seq::empty() }, ty: None })
            },
            semi_first(old(self).tokens@) ==> (r matches Ok(n) && n@ == (NodeV {
                kind: NodeKindV::Block { body: Seq::empty() },
                ty: None,
            }) && final(self).tokens@ == old(self).tokens@.drop_first() && same_but_tokens(*final(self), *old(self))),
            lone_num(old(self).tokens@) matches Some(v) ==> (r matches Ok(n) && n@ == num_stmt_nv(v)
                && final(self).tokens@ == old(self).tokens@.skip(2) && same_but_tokens(*final(self), *old(self))),
            return_num(old(self).tokens@) matches Some(v) ==> (r matches Ok(n) && n@ == (NodeV {
                kind: NodeKindV::Return { lhs: Box::new(lit_nv(v, int_tv())) },
                ty: Some(int_tv()),
            }) && final(self).tokens@ == old(self).tokens@.skip(3) && same_but_tokens(*final(self), *old(self))),
            simple_cond_stmt(old(self).tokens@) matches Some((n, k)) ==> (r matches Ok(x) && x@ == n
                && final(self).tokens@ == old(self).tokens@.skip(k)),
        decreases old(self).tokens@.len(), 30nat,
    {
        self.need()?;
        proof {
            reveal_strlit("return");
            reveal_strlit("if");
            reveal_strlit("for");
            reveal_strlit("while");
            reveal_strlit("{");
            reveal_strlit(";");
            assert("return"@.len() == 6 && "if"@.len() == 2 && "for"@.len() == 3);
            assert("while"@.len() == 5 && "{"@.len() == 1 && ";"@.len() == 1);
            assert("{"@[0] != ";"@[0]);
        }
        if self.hequal("return") {
            self.advance(1);
            proof {
                assert(self.tokens@ =~= old(self).tokens@.drop_first());
                if return_num(old(self).tokens@) is Some {
                    lemma_semi_ends_expr(old(self).tokens@[2]@);
                }
            }
            let e = self.expr()?;
            proof {
                if return_num(old(self).tokens@) is Some {
                    assert(spec_add_type(e@, self.vars@) == Ok::<NodeV, CompileErrorV>(e@));
                    assert(self.tokens@[0] == old(self).tokens@[2]);
                }
            }
            let node = self.new_return(e)?;
            self.skip(";")?;
            proof {
                if return_num(old(self).tokens@) is Some {
                    assert(self.tokens@ =~= old(self).tokens@.skip(3));
                }
            }
            return Ok(node);
        }
        let ghost hd = if tok_is(old(self).tokens@[0]@, "if"@) {
            head_num(old(self).tokens@, "if"@)
        } else {
            head_num(old(self).tokens@, "while"@)
        };
        proof {
            let ts = old(self).tokens@;
            if hd is Some {
                lemma_op_chars();
                assert(ts.skip(2)[0] == ts[2] && ts.skip(2)[1] == ts[3]);
            }
        }
        if self.hequal("if") {
            self.advance(1);
            self.skip("(")?;
            proof {
                let ts = old(self).tokens@;
                assert(self.tokens@ =~= ts.skip(2));
            }
            let cond = self.expr()?;
            proof {
                let ts = old(self).tokens@;
                if hd is Some {
                    assert(self.tokens@ =~= ts.skip(3));
                }
            }
            self.skip(")")?;
            proof {
                let ts = old(self).tokens@;
                if hd is Some {
                    assert(self.tokens@ =~= ts.skip(4));
                }
            }
            let ghost c1 = *self;
            let then = self.stmt()?;
            let ghost k1: int = match hd {
                Some((_, _, k)) => k,
                None => 0,
            };
            proof {
                lemma_node_mono(cond, c1, *self);
                let ts = old(self).tokens@;
                if hd is Some {
                    assert(self.tokens@ =~= ts.skip(4 + k1));
                }
            }
            self.need()?;
            proof {
                let ts = old(self).tokens@;
                if hd is Some {
                    assert(ts.skip(4 + k1).drop_first() =~= ts.skip(5 + k1));
                }
            }
            let mut els: Option<Node> = None;
            if self.hequal("else") {
                self.advance(1);
                let ghost c2 = *self;
                let e = self.stmt()?;
                proof {
                    let ts = old(self).tokens@;
                    if hd is Some {
                        if let Some((s2, k2)) = simple_stmt(ts.skip(5 + k1)) {
                            assert(ts.skip(5 + k1).skip(k2) =~= ts.skip(5 + k1 + k2));
                        }
                    }
                }
                proof {
                    lemma_node_mono(cond, c2, *self);
                    lemma_node_mono(then, c2, *self);
                }
                els = Some(e);
            }
            return Ok(self.new_if(cond, then, els));
        }
        if self.hequal("for") {
            self.advance(1);
            let ghost c0 = *self;
            self.enter_scope()?;
            let ghost ce = *self;
            self.skip("(")?;
            self.need()?;
            let init = if self.is_typename(&self.tokens[0])? {
                self.declaration()?
            } else {
                self.expr_stmt()?
            };
            let ghost c1 = *self;
            self.need()?;
            let mut cond: Option<Node> = None;
            if !self.hequal(";") {
                cond = Some(self.expr()?);
            }
            self.skip(";")?;
            let ghost c2 = *self;
            self.need()?;
            let mut inc: Option<Node> = None;
            if !self.hequal(")") {
                inc = Some(self.expr()?);
            }
            self.skip(")")?;
            let ghost c3 = *self;
            let body = self.stmt()?;
            proof {
                lemma_node_mono(init, c1, *self);
                if cond is Some {
                    lemma_node_mono(cond->0, c2, *self);
                }
                if inc is Some {
                    lemma_node_mono(inc->0, c3, *self);
                }
            }
            let node = self.new_for(init, cond, inc, body);
            let ghost cl = *self;
            self.leave_scope()?;
            proof {
                lemma_enter_leave_kept(c0, ce, cl, *self);
            }
            return Ok(node);
        }
        if self.hequal("while") {
            self.advance(1);
            self.skip("(")?;
            proof {
                let ts = old(self).tokens@;
                assert(self.tokens@ =~= ts.skip(2));
            }
            let cond = self.expr()?;
            proof {
                let ts = old(self).tokens@;
                if hd is Some {
                    assert(self.tokens@ =~= ts.skip(3));
                }
            }
            self.skip(")")?;
            proof {
                let ts = old(self).tokens@;
                if hd is Some {
                    assert(self.tokens@ =~= ts.skip(4));
                }
            }
            let ghost c1 = *self;
            let body = self.stmt()?;
            proof {
                lemma_node_mono(cond, c1, *self);
                let ts = old(self).tokens@;
                if let Some((_, _, k)) = hd {
                    assert(self.tokens@ =~= ts.skip(4 + k));
                }
            }
            return Ok(self.new_while(cond, body));
        }
        if self.hequal("{") {
            self.advance(1);
            return self.compound_stmt();
        }
        self.expr_stmt()
    }

    /// `compound_stmt = (declaration | "typedef" declspec declarator ";"
    /// | stmt)* "}"`, in a scope of its own; each statement is typed.
    fn compound_stmt(&mut self) -> (r: Result<Node, CompileError>)
        requires
            ctx_wf(*old(self)),
        ensures
            parsed(*old(self), *final(self), r),
            r matches Ok(n) ==> n@.kind is Block,
            cur_fn(*old(self)) is None ==> r is Err,
            (cur_fn(*old(self)) matches Some(fi) && brace_first(old(self).tokens@) && old(self).functions@[fi].scopes@.len()
                < isize::MAX - 1) ==> (r matches Ok(n) && n@ == (NodeV {
                kind: NodeKindV::Block { body: Seq::empty() },
                ty: None,
            }) && final(self).tokens@ == old(self).tokens@.drop_first()),
            simple_block(*old(self)) ==> match simple_stmts(old(self).tokens@) {
                Some((ns, n)) => r matches Ok(b) && b@ == (NodeV { kind: NodeKindV::Block { body: ns }, ty: None })
                    && final(self).tokens@ == old(self).tokens@.skip(n),
                None => true,
            },
        decreases old(self).tokens@.len(), 40nat,
    {
        let mut body: Vec<Node> = Vec::new();
        self.enter_scope()?;
        let ghost c1 = *self;
        let ghost mut c: int = 0;
        proof {
            lemma_nodes_empty(*self);
            lemma_stmt_words();
            assert(old(self).tokens@.skip(0) =~= old(self).tokens@);
            assert(nodesv(body@) =~= Seq::empty());
            if let Some((ns, n)) = simple_stmts(old(self).tokens@) {
                assert(nodesv(body@) + ns =~= ns);
            }
        }
        loop
            invariant_except_break
                brace_first(old(self).tokens@) ==> (self.tokens == c1.tokens && self.functions == c1.functions
                    && body@.len() == 0),
                simple_block(*old(self)) ==> (0 <= c <= old(self).tokens@.len() && self.tokens@ == old(self).tokens@.skip(c)
                    && self.functions == c1.functions && simple_stmts(old(self).tokens@) == match simple_stmts(
                    self.tokens@,
                ) {
                    Some((ns, m)) => Some((nodesv(body@) + ns, c + m)),
                    None => None,
                }),
            invariant
                step(*old(self), *self),
                scopes_kept(c1, *self),
                names_kept(c1, *self),
                nodes_ok(body@, *self),
                c1.tokens == old(self).tokens,
            ensures
                step(*old(self), *self),
                scopes_kept(c1, *self),
                names_kept(c1, *self),
                nodes_ok(body@, *self),
                self.tokens@.len() < old(self).tokens@.len(),
                brace_first(old(self).tokens@) ==> (self.tokens@ == old(self).tokens@.drop_first()
                    && self.functions == c1.functions && body@.len() == 0),
                simple_block(*old(self)) ==> (self.functions == c1.functions && match simple_stmts(old(self).tokens@) {
                    Some((ns, n)) => nodesv(body@) == ns && self.tokens@ == old(self).tokens@.skip(n),
                    None => false,
                }),
            decreases self.tokens@.len(),
        {
            let ghost t = self.tokens@;
            self.need()?;
            if self.consume("}") {
                proof {
                    assert(nodesv(body@) + Seq::<NodeV>::empty() =~= nodesv(body@));
                    if simple_block(*old(self)) {
                        assert(old(self).tokens@.skip(c).drop_first() =~= old(self).tokens@.skip(c + 1));
                    }
                }
                break;
            }
            proof {
                lemma_stmt_words();
            }
            let ghost cc = *self;
            if self.is_typename(&self.tokens[0])? {
                let mut node = self.declaration()?;
                self.add_type(&mut node)?;
                proof {
                    lemma_nodes_mono(body@, cc, *self);
                    lemma_nodes_push(body@, node, *self);
                }
                body.push(node);
            } else if self.hequal("typedef") {
                self.advance(1);
                let base_ty = self.declspec()?;
                let (ty, name, _) = self.declarator(base_ty)?;
                self.push_type(TypedefType { name, ty })?;
                self.skip(";")?;
                proof {
                    lemma_nodes_mono(body@, cc, *self);
                }
            } else {
                let mut node = self.stmt()?;
                let ghost n0 = node@;
                self.add_type(&mut node)?;
                proof {
                    lemma_nodes_mono(body@, cc, *self);
                    lemma_nodes_push(body@, node, *self);
                    lemma_nodesv_push(body@, node);
                }
                let ghost b0 = body@;
                body.push(node);
                proof {
                    if simple_block(*old(self)) {
                        let (nd, k) = simple_stmt(t)->0;
                        assert(node@ == nd);
                        assert(self.tokens@ =~= old(self).tokens@.skip(c + k));
                        assert(t.skip(k) =~= old(self).tokens@.skip(c + k));
                        if let Some((ns, m)) = simple_stmts(t.skip(k)) {
                            assert(nodesv(b0) + (seq![nd] + ns) =~= nodesv(body@) + ns);
                        }
                        c = c + k;
                    }
                }
            }
        }
        let ghost c2 = *self;
        proof {
            if brace_first(old(self).tokens@) || simple_block(*old(self)) {
                let fi = cur_fn(*old(self))->0;
                lemma_fn_index(old(self).functions@, old(self).cur_func@);
                lemma_same_fns_index(old(self).functions@, c1.functions@, fi, old(self).cur_func@);
                assert(cur_fn(c2) == Some(fi));
            }
        }
        self.leave_scope()?;
        proof {
            lemma_enter_leave_kept(*old(self), c1, c2, *self);
            if body@.len() == 0 {
                assert(nodesv(body@) =~= Seq::empty());
            }
        }
        let r = self.new_block(body);
        Ok(r)
    }

    /// `expr_stmt = ";" | expr ";"`; the empty statement is an empty block.
    fn expr_stmt(&mut self) -> (r: Result<Node, CompileError>)
        requires
            ctx_wf(*old(self)),
        ensures
            parsed(*old(self), *final(self), r),
            r matches Ok(n) ==> if tok_is(old(self).tokens@[0]@, ";"@) {
                n@ == (NodeV { kind: NodeKindV::Block { body: Seq::empty() }, ty: None })
            } else {
                n@.kind is ExprStmt
            },
            semi_first(old(self).tokens@) ==> (r matches Ok(n) && n@ == (NodeV {
                kind: NodeKindV::Block { body: Seq::empty() },
                ty: None,
            }) && final(self).tokens@ == old(self).tokens@.drop_first() && same_but_tokens(*final(self), *old(self))),
            lone_num(old(self).tokens@) matches Some(v) ==> (r matches Ok(n) && n@ == num_stmt_nv(v)
                && final(self).tokens@ == old(self).tokens@.skip(2) && same_but_tokens(*final(self), *old(self))),
        decreases old(self).tokens@.len(), 25nat,
    {
        self.need()?;
        if self.hequal(";") {
            self.advance(1);
            let n = self.null_stmt();
            proof {
                lemma_nodes_empty(*self);
                assert(old(self).tokens@.skip(1) =~= old(self).tokens@.drop_first());
            }
            return Ok(n);
        }
        proof {
            if lone_num(old(self).tokens@) is Some {
                lemma_semi_ends_expr(old(self).tokens@[1]@);
            }
        }
        let e = self.expr()?;
        proof {
            if lone_num(old(self).tokens@) is Some {
                assert(spec_add_type(e@, self.vars@) == Ok::<NodeV, CompileErrorV>(e@));
                assert(self.tokens@[0] == old(self).tokens@[1]);
            }
        }
        let node = self.new_expr_stmt(e)?;
        self.skip(";")?;
        proof {
            if lone_num(old(self).tokens@) is Some {
                assert(self.tokens@ =~= old(self).tokens@.skip(2));
            }
        }
        Ok(node)
    }
}

//
// functions, global variables and the whole program
//

impl Ctx {
    /// Makes `f` the function of its name: it replaces a function of the same
    /// name, else it is appended.
    fn install_func(&mut self, f: Function)
        requires
            ctx_wf(*old(self)),
            fn_ok(f, old(self).vars@.len()),
        ensures
            ctx_wf(*final(self)),
            same_but_functions(*final(self), *old(self)),
            fn_index(final(self).functions@, f.name@) matches Some(i) && final(self).functions@[i] == f
                && forall|j: int| 0 <= j < final(self).functions@.len() && j != i ==> j < old(self).functions@.len()
                && #[trigger] final(self).functions@[j] == old(self).functions@[j],
    {
        let ghost name = f.name@;
        let mut i: usize = 0;
        proof {
            assert(self.functions@.skip(0) =~= self.functions@);
        }
        while i < self.functions.len()
            invariant
                i <= self.functions@.len(),
                fn_index(self.functions@, name) == match fn_index(self.functions@.skip(i as int), name) {
                    Some(k) => Some(k + i),
                    None => None,
                },
                forall|k: int| 0 <= k < i ==> #[trigger] self.functions@[k].name@ != name,
                name == f.name@,
            ensures
                i <= self.functions@.len(),
                forall|k: int| 0 <= k < i ==> #[trigger] self.functions@[k].name@ != name,
                i < self.functions@.len() ==> self.functions@[i as int].name@ == name,
            decreases self.functions.len() - i,
        {
            proof {
                assert(self.functions@.skip(i as int)[0] == self.functions@[i as int]);
                assert(self.functions@.skip(i as int).drop_first() =~= self.functions@.skip(i + 1));
            }
            if string_eq(&self.functions[i].name, &f.name) {
                break;
            }
            i += 1;
        }
        let ghost fs0 = self.functions@;
        let ghost nv = self.vars@.len();
        if i < self.functions.len() {
            self.functions.set(i, f);
            proof {
                assert forall|k: int, j: int|
                    0 <= k < self.functions@.len() && 0 <= j < self.functions@.len() && k != j implies #[trigger] self.functions@[k].name@
                    != #[trigger] self.functions@[j].name@ by {
                    if k != i && j != i {
                        assert(fs0[k].name@ != fs0[j].name@);
                    } else if k == i {
                        assert(fs0[j].name@ != fs0[i as int].name@);
                    } else {
                        assert(fs0[k].name@ != fs0[i as int].name@);
                    }
                }
                lemma_fn_index_at(self.functions@, name, i as int);
                assert forall|k: int| 0 <= k < self.functions@.len() implies fn_ok(#[trigger] self.functions@[k], nv) by {
                    if k != i {
                        assert(self.functions@[k] == fs0[k]);
                    }
                }
            }
        } else {
            self.functions.push(f);
            proof {
                assert forall|k: int, j: int|
                    0 <= k < self.functions@.len() && 0 <= j < self.functions@.len() && k != j implies #[trigger] self.functions@[k].name@
                    != #[trigger] self.functions@[j].name@ by {
                    if k != i && j != i {
                        assert(fs0[k].name@ != fs0[j].name@);
                    }
                }
                lemma_fn_index_at(self.functions@, name, i as int);
                assert forall|k: int| 0 <= k < self.functions@.len() implies fn_ok(#[trigger] self.functions@[k], nv) by {
                    if k != i {
                        assert(self.functions@[k] == fs0[k]);
                    }
                }
            }
        }
    }
}

/// Changing one function of a well-formed context, but not its name, keeps
/// the context well formed when the changed function is.
proof fn lemma_wf_fn_update(a: Ctx, b: Ctx, fi: int)
    requires
        ctx_wf(a),
        0 <= fi < a.functions@.len(),
        b.functions@.len() == a.functions@.len(),
        forall|j: int| 0 <= j < a.functions@.len() && j != fi ==> #[trigger] b.functions@[j] == a.functions@[j],
        b.functions@[fi].name == a.functions@[fi].name,
        fn_ok(b.functions@[fi], b.vars@.len()),
        b.vars == a.vars,
        b.gvars == a.gvars,
        b.pos == a.pos,
        b.input == a.input,
    ensures
        ctx_wf(b),
{
    assert forall|i: int, j: int|
        0 <= i < b.functions@.len() && 0 <= j < b.functions@.len() && i != j implies #[trigger] b.functions@[i].name@
        != #[trigger] b.functions@[j].name@ by {
        assert(a.functions@[i].name@ != a.functions@[j].name@);
    }
    assert forall|i: int| 0 <= i < b.functions@.len() implies fn_ok(#[trigger] b.functions@[i], b.vars@.len()) by {
        if i != fi {
            assert(b.functions@[i] == a.functions@[i]);
        }
    }
}

/// The parameters of a function after its `(` when each is a type keyword
/// and a name, commas between them optional, up to `)`: their names and
/// types, and the tokens taken with the `)`; `None` where the parameters
/// are not of that shape.
pub open spec fn plain_params(ts: Seq<Token>) -> Option<(Seq<(Seq<char>, TypeV)>, int)>
    decreases ts.len(),
{
    if ts.len() == 0 {
        None
    } else if tok_is(ts[0]@, ")"@) {
        Some((Seq::empty(), 1))
    } else if ts.len() > 2 && kw_type(ts[0]@) is Some && ts[1].kind is Ident && (tok_is(ts[2]@, ","@)
        || tok_is(ts[2]@, ")"@)) {
        let k: int = if tok_is(ts[2]@, ","@) {
            3
        } else {
            2
        };
        match plain_params(ts.skip(k)) {
            Some((ps, n)) => Some((seq![(ident_name(ts[1]), kw_type(ts[0]@)->0)] + ps, n + k)),
            None => None,
        }
    } else {
        None
    }
}

/// The parameters `ps` are the variables from `v0` on, parameters and
/// locals of `f`, its arguments, and all that its one open scope holds.
pub open spec fn params_recorded(c: Ctx, f: Function, v0: int, ps: Seq<(Seq<char>, TypeV)>) -> bool {
    &&& c.vars@.len() == v0 + ps.len()
    &&& forall|i: int|
        0 <= i < ps.len() ==> {
            &&& c.vars@[v0 + i].name@ == (#[trigger] ps[i]).0
            &&& c.vars@[v0 + i].ty@ == ps[i].1
            &&& c.vars@[v0 + i].is_param
            &&& c.vars@[v0 + i].is_local
        }
    &&& nodesv(f.args@) == Seq::new(
        ps.len(),
        |i: int| NodeV { kind: NodeKindV::Var { var: (v0 + i) as usize }, ty: Some(ps[i].1) },
    )
    &&& f.scopes@.len() == 1
    &&& f.scopes@[0].variables@ == Seq::new(ps.len(), |i: int| (v0 + i) as usize)
}

/// A prototype `( params ) ;`: it succeeds and records the function as
/// declared only, with its parameters.
pub open spec fn proto_done(a: Ctx, b: Ctx, r: Result<(), CompileError>, ps: Seq<(Seq<char>, TypeV)>, n: int) -> bool {
    &&& r is Ok
    &&& cur_fn(b) is Some
    &&& !b.functions@[cur_fn(b)->0].is_def
    &&& b.functions@[cur_fn(b)->0].body is None
    &&& params_recorded(b, b.functions@[cur_fn(b)->0], a.vars@.len() as int, ps)
    &&& b.tokens@ == a.tokens@.skip(n + 2)
}

/// What `new_func` does with a parameter list of plain parameters (at most
/// eight) followed by `;`: a prototype.
pub open spec fn func_parsed(a: Ctx, b: Ctx, r: Result<(), CompileError>) -> bool {
    (a.tokens@.len() > 0 && tok_is(a.tokens@[0]@, "("@)) ==> match plain_params(a.tokens@.drop_first()) {
        Some((ps, n)) => ps.len() <= 8 ==> {
            let rest = a.tokens@.skip(n + 1);
            semi_first(rest) ==> proto_done(a, b, r, ps, n)
        },
        None => true,
    }
}

/// No function has an open scope.
pub open spec fn all_closed(c: Ctx) -> bool {
    forall|j: int| 0 <= j < c.functions@.len() ==> #[trigger] c.functions@[j].scopes@.len() == 0
}

/// What parsing a function's parameters and body leaves: it is the function
/// being parsed, with one scope open, that of its parameters; when no
/// function had an open scope before, no other function has one.
pub open spec fn func_opened(a: Ctx, b: Ctx) -> bool {
    cur_fn(b) matches Some(fi) && {
        &&& b.functions@[fi].scopes@.len() == 1
        &&& all_closed(a) ==> forall|j: int|
            0 <= j < b.functions@.len() && j != fi ==> #[trigger] b.functions@[j].scopes@.len() == 0
    }
}

/// A step of the top-level parser: like `step`, but the function being
/// parsed may change.
pub open spec fn top_step(a: Ctx, b: Ctx) -> bool {
    &&& ctx_wf(b)
    &&& stream(b) == stream(a)
    &&& b.tokens@.len() <= a.tokens@.len()
    &&& b.input == a.input
    &&& b.pos == a.pos
    &&& b.cur_file == a.cur_file
    &&& a.vars@.len() <= b.vars@.len()
}

impl Ctx {
    /// The function `name` returning `ty`, from its parameter list on: its
    /// parameters are declared in a new scope, which stays open; a `;`
    /// after the list makes it a declaration, else its body is parsed.
    #[verifier::loop_isolation(false)]
    #[verifier::spinoff_prover]
    #[verifier::rlimit(40)]
    pub fn new_func(&mut self, name: String, ty: Type) -> (r: Result<(), CompileError>)
        requires
            ctx_wf(*old(self)),
        ensures
            top_step(*old(self), *final(self)),
            final(self).cur_func@ == name@,
            r is Ok ==> func_opened(*old(self), *final(self)),
            func_parsed(*old(self), *final(self), r),
    {
        self.cur_func = name.clone();
        let func = self.create_func(name.as_str(), ty);
        self.install_func(func);
        let ghost c0 = *self;
        let ghost fi0 = fn_index(c0.functions@, name@)->0;
        proof {
            assert(cur_fn(c0) == Some(fi0));
            assert(c0.functions@[fi0].scopes@.len() == 0);
        }
        self.enter_scope()?;
        let ghost ce = *self;
        proof {
            assert(ce.functions@[fi0].scopes@.len() == 1);
            assert(forall|j: int| 0 <= j < ce.functions@.len() && j != fi0 ==> #[trigger] ce.functions@[j] == c0.functions@[j]);
        }
        let ghost ts1 = old(self).tokens@.drop_first();
        let ghost v0 = old(self).vars@.len() as int;
        let ghost pp = old(self).tokens@.len() > 0 && tok_is(old(self).tokens@[0]@, "("@) && (plain_params(ts1) matches Some(
            (ps, n),
        ) && ps.len() <= 8);
        let ghost mut used: int = 0;
        let ghost mut done: Seq<(Seq<char>, TypeV)> = Seq::empty();
        proof {
            assert(ts1.skip(0) =~= ts1);
            assert(ce.functions@[fi0].args@.len() == 0);
            lemma_nodesv_len(ce.functions@[fi0].args@);
            assert(nodesv(ce.functions@[fi0].args@) =~= Seq::new(
                0,
                |i: int| NodeV { kind: NodeKindV::Var { var: (v0 + i) as usize }, ty: Some(done[i].1) },
            ));
            assert(ce.functions@[fi0].scopes@[0].variables@ =~= Seq::new(0, |i: int| (v0 + i) as usize));
            if let Some((ps, n)) = plain_params(ts1) {
                assert(done + ps =~= ps);
            }
        }
        self.skip("(")?;
        proof {
            assert(self.tokens@ =~= ts1);
            lemma_fn_index_names(c0.functions@, ce.functions@, name@);
            assert(cur_fn(*self) == Some(fi0));
            assert(self.functions@[fi0] == ce.functions@[fi0]);
            assert(ce.functions@[fi0].scopes@[0] == ce.functions@[fi0].scopes@.last());
        }
        loop
            invariant
                step(c0, *self),
                scopes_kept(ce, *self),
                ce.functions@.len() == c0.functions@.len(),
                pp ==> (0 <= used <= ts1.len() && self.tokens@ == ts1.skip(used) && plain_params(ts1) == match plain_params(
                    self.tokens@,
                ) {
                    Some((rest, m)) => Some((done + rest, used + m)),
                    None => None,
                } && params_recorded(*self, self.functions@[fi0], v0, done) && cur_fn(*self) == Some(fi0)
                    && self.functions@[fi0].is_def && self.functions@[fi0].body is None),
            decreases self.tokens@.len(),
        {
            let ghost t = self.tokens@;
            self.need()?;
            if self.consume(")") {
                break;
            }
            proof {
                if pp {
                    lemma_op_chars();
                    assert(t[2] == t.drop_first().skip(1)[0]);
                    assert(t.drop_first()[0] == t[1]);
                    assert(stars(t.drop_first()) == 0);
                    assert(t.drop_first().skip(1) =~= t.skip(2));
                }
            }
            let base_ty = self.declspec()?;
            let ghost bt = base_ty@;
            proof {
                if pp {
                    assert(ptr_n(bt, 0) == bt);
                }
            }
            let (ty, pname, _) = self.declarator(base_ty)?;
            let ghost cl = *self;
            let ghost pn = pname@;
            proof {
                if pp {
                    assert(self.tokens@ =~= t.skip(2));
                    assert(done.len() < 8);
                }
            }
            proof {
                if pp {
                    lemma_nodesv_len(self.functions@[fi0].args@);
                    assert(cur_fn(*self) == Some(fi0));
                    assert(self.functions@[fi0].args@.len() == done.len());
                }
            }
            self.create_lvar(pname, ty, true)?;
            self.need()?;
            let ghost k: int = if tok_is(t[2]@, ","@) {
                3
            } else {
                2
            };
            self.consume(",");
            proof {
                if pp {
                    let f0 = cl.functions@[fi0];
                    let f1 = self.functions@[fi0];
                    let x = (pn, bt);
                    let nd = done.push(x);
                    assert(self.tokens@ =~= t.skip(k));
                    assert(t.skip(k) =~= ts1.skip(used + k));
                    assert(f1.scopes@[0] == f1.scopes@.last());
                    assert(f0.scopes@[0] == f0.scopes@.last());
                    assert(f1.scopes@[0].variables@ =~= Seq::new(nd.len(), |i: int| (v0 + i) as usize));
                    assert(nodesv(f1.args@) =~= Seq::new(
                        nd.len(),
                        |i: int| NodeV { kind: NodeKindV::Var { var: (v0 + i) as usize }, ty: Some(nd[i].1) },
                    ));
                    assert forall|i: int| 0 <= i < nd.len() implies {
                        &&& self.vars@[v0 + i].name@ == (#[trigger] nd[i]).0
                        &&& self.vars@[v0 + i].ty@ == nd[i].1
                        &&& self.vars@[v0 + i].is_param
                        &&& self.vars@[v0 + i].is_local
                    } by {
                        if i < done.len() {
                            assert(nd[i] == done[i]);
                            assert(self.vars@[v0 + i] == cl.vars@[v0 + i]);
                        }
                    }
                    if let Some((rest, m)) = plain_params(t.skip(k)) {
                        assert(done + (seq![x] + rest) =~= nd + rest);
                    }
                    assert(cur_fn(*self) == Some(fi0)) by {
                        lemma_fn_index_names(cl.functions@, self.functions@, self.cur_func@);
                    }
                }
                if pp {
                    assert(0 <= used + k <= ts1.len());
                    assert(params_recorded(*self, self.functions@[fi0], v0, done.push((pn, bt))));
                    assert(self.functions@[fi0].is_def && self.functions@[fi0].body is None);
                }
                done = done.push((pn, bt));
                used = used + k;
            }
        }
        proof {
            if pp {
                assert(done + Seq::<(Seq<char>, TypeV)>::empty() =~= done);
                assert(ts1.skip(used).drop_first() =~= ts1.skip(used + 1));
                assert(ts1.skip(used + 1) =~= old(self).tokens@.skip(used + 2));
            }
        }
        self.need()?;
        if self.consume(";") {
            let fi = self.get_func()?;
            let ghost c1 = *self;
            self.functions[fi].is_def = false;
            proof {
                lemma_wf_fn_update(c1, *self, fi as int);
                lemma_fn_index_names(c0.functions@, c1.functions@, name@);
                assert(fi as int == fi0);
                lemma_fn_index_names(c1.functions@, self.functions@, name@);
                assert(scopes_kept(ce, *self));
                if pp {
                    assert(old(self).tokens@.skip(used + 2).drop_first() =~= old(self).tokens@.skip(used + 3));
                    assert(self.functions@[fi0].args == c1.functions@[fi0].args);
                    assert(self.functions@[fi0].scopes == c1.functions@[fi0].scopes);
                }
            }
            return Ok(());
        }
        self.skip("{")?;
        let body = self.compound_stmt()?;

        let fi = self.get_func()?;
        let ghost c1 = *self;
        self.functions[fi].body = Some(body);
        proof {
            lemma_wf_fn_update(c1, *self, fi as int);
            lemma_fn_index_names(c0.functions@, c1.functions@, name@);
            assert(fi as int == fi0);
            lemma_fn_index_names(c1.functions@, self.functions@, name@);
            assert(scopes_kept(ce, *self));
        }
        Ok(())
    }

    /// Global variables of base type `base_ty`, the first already declared
    /// as `name` of type `ty`, up to the closing `;`.
    #[verifier::loop_isolation(false)]
    pub fn new_gvar(&mut self, name: String, base_ty: Type, ty: Type) -> (r: Result<(), CompileError>)
        requires
            ctx_wf(*old(self)),
        ensures
            step(*old(self), *final(self)),
            r is Ok ==> scopes_kept(*old(self), *final(self)),
            final(self).gvars@.len() > old(self).gvars@.len(),
            final(self).vars@.len() > old(self).vars@.len(),
            final(self).vars@[old(self).vars@.len() as int] == (Var {
                name,
                offset: old(self).gvars@.len() as usize,
                ty,
                is_param: false,
                is_local: false,
                init_gval: None,
            }),
            final(self).gvars@[old(self).gvars@.len() as int] == old(self).vars@.len() as usize,
    {
        let ghost first = Var {
            name: name,
            offset: self.gvars@.len() as usize,
            ty: ty,
            is_param: false,
            is_local: false,
            init_gval: None,
        };
        self.create_gvar(name, ty, None);
        loop
            invariant
                step(*old(self), *self),
                scopes_kept(*old(self), *self),
                self.gvars@.len() > old(self).gvars@.len(),
                self.vars@.len() > old(self).vars@.len(),
                self.vars@[old(self).vars@.len() as int] == first,
                self.gvars@[old(self).gvars@.len() as int] == old(self).vars@.len() as usize,
            decreases self.tokens@.len(),
        {
            self.need()?;
            if !self.consume(",") {
                break;
            }
            let (ty, name, _) = self.declarator(base_ty.dup())?;
            self.create_gvar(name, ty, None);
        }
        self.skip(";")?;
        Ok(())
    }

    /// Tokenizes the source and parses the whole program: global variables,
    /// function declarations and function definitions.
    #[verifier::loop_isolation(false)]
    pub fn parse(&mut self) -> (r: Result<(), CompileError>)
        requires
            ctx_wf(*old(self)),
            all_ascii(old(self).input@),
        ensures
            ctx_wf(*final(self)),
            match lex_from(old(self).input@, old(self).pos as nat) {
                Err(e) => r matches Err(x) && x@ == e,
                Ok(ts) => r is Ok ==> final(self).tokens@.len() == 0 && toksv(
                    final(self).consumed_tokens@,
                ) == toksv(old(self).consumed_tokens@) + ts.map_values(|t: TokenV| kw_tok(t)),
            },
            r is Ok && all_closed(*old(self)) ==> all_closed(*final(self)),
    {
        let ts = self.tokenize()?;
        self.tokens = ts;
        self.convert_keywords();
        let ghost c0 = *self;
        proof {
            assert(ctx_wf(*self));
        }
        while self.tokens.len() > 0
            invariant
                top_step(c0, *self),
                all_closed(*old(self)) ==> all_closed(*self),
            decreases self.tokens@.len(),
        {
            let base_ty = self.declspec()?;
            let (ty, name, is_func) = self.declarator(base_ty.dup())?;
            if !is_func {
                self.new_gvar(name, base_ty, ty)?;
                continue;
            }
            self.new_func(name, ty)?;
            let ghost c1 = *self;
            self.leave_scope()?;
            proof {
                if all_closed(*old(self)) {
                    let fi = cur_fn(c1)->0;
                    assert forall|j: int| 0 <= j < self.functions@.len() implies #[trigger] self.functions@[j].scopes@.len()
                        == 0 by {
                        if j != fi {
                            assert(self.functions@[j] == c1.functions@[j]);
                        }
                    }
                }
            }
        }
        proof {
            assert(toksv(stream(*self)) == toksv(self.consumed_tokens@));
            assert(stream(c0) == c0.consumed_tokens@ + c0.tokens@);
            assert(toksv(c0.consumed_tokens@ + c0.tokens@) =~= toksv(c0.consumed_tokens@) + toksv(c0.tokens@));
            assert(self.tokens@ =~= Seq::<Token>::empty());
            assert(stream(*self) =~= self.consumed_tokens@);
        }
        Ok(())
    }
}

} // verus!
