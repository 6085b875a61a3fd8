//! Functions, their block scopes, and the variables, struct tags, typedef
//! names and enums declared in them.
use vstd::prelude::*;
use crate::diag::{CompileError, CompileErrorV, abort, err_at};
use crate::parse::{parsed};
use crate::text::{string_eq};
use crate::type_utils::{all_nvars_ok, int_tv, lemma_all_nvars_ok, lemma_all_nvars_ok_mono, lemma_nvars_ok_mono, nvars_ok};
use crate::types::{Ctx, Enum, EnumMember, Function, InitGval, Node, NodeKindV, NodeV, Scope, StructTag, Type, TypeKind, TypeV, TypedefType, Var, lemma_nodesv_len, lemma_nodesv_push, nodesv};

verus! {

//
// well-formedness
//

/// Every variable of the scope is in a table of `nv` variables.
pub open spec fn scope_ok(sc: Scope, nv: nat) -> bool {
    forall|k: int| 0 <= k < sc.variables@.len() ==> #[trigger] sc.variables@[k] < nv
}

pub open spec fn fn_ok(f: Function, nv: nat) -> bool {
    &&& f.scope_idx == f.scopes@.len() - 1
    &&& f.scopes@.len() < isize::MAX
    &&& forall|k: int| 0 <= k < f.scopes@.len() ==> scope_ok(#[trigger] f.scopes@[k], nv)
    &&& forall|k: int| 0 <= k < f.exited_scope@.len() ==> scope_ok(#[trigger] f.exited_scope@[k], nv)
    &&& all_nvars_ok(nodesv(f.args@), nv)
    &&& (f.body matches Some(b) ==> nvars_ok(b@, nv))
}

pub open spec fn names_unique(fs: Seq<Function>) -> bool {
    forall|i: int, j: int|
        0 <= i < fs.len() && 0 <= j < fs.len() && i != j ==> #[trigger] fs[i].name@ != #[trigger] fs[j].name@
}

/// The invariant of a compilation context: every function's scope index
/// points at its innermost open scope, no two functions share a name, and
/// every variable that a scope, a global list or a syntax tree names exists.
pub open spec fn ctx_wf(c: Ctx) -> bool {
    &&& forall|i: int| 0 <= i < c.functions@.len() ==> fn_ok(#[trigger] c.functions@[i], c.vars@.len())
    &&& names_unique(c.functions@)
    &&& forall|k: int| 0 <= k < c.gvars@.len() ==> #[trigger] c.gvars@[k] < c.vars@.len()
    &&& c.pos <= c.input@.len()
}

//
// the current function
//

/// The position of the first function named `name`.
pub open spec fn fn_index(fs: Seq<Function>, name: Seq<char>) -> Option<int>
    decreases fs.len(),
{
    if fs.len() == 0 {
        None
    } else if fs[0].name@ == name {
        Some(0)
    } else {
        match fn_index(fs.drop_first(), name) {
            Some(i) => Some(i + 1),
            None => None,
        }
    }
}

/// The position of the function being parsed.
pub open spec fn cur_fn(c: Ctx) -> Option<int> {
    fn_index(c.functions@, c.cur_func@)
}

pub proof fn lemma_fn_index(fs: Seq<Function>, name: Seq<char>)
    ensures
        match fn_index(fs, name) {
            Some(i) => 0 <= i < fs.len() && fs[i].name@ == name && forall|j: int|
                0 <= j < i ==> fs[j].name@ != name,
            None => forall|j: int| 0 <= j < fs.len() ==> fs[j].name@ != name,
        },
    decreases fs.len(),
{
    if fs.len() > 0 {
        lemma_fn_index(fs.drop_first(), name);
        if fs[0].name@ != name {
            match fn_index(fs.drop_first(), name) {
                Some(i) => {
                    assert forall|j: int| 0 <= j < i + 1 implies fs[j].name@ != name by {
                        if j > 0 {
                            assert(fs.drop_first()[j - 1] == fs[j]);
                        }
                    }
                },
                None => {
                    assert forall|j: int| 0 <= j < fs.len() implies fs[j].name@ != name by {
                        if j > 0 {
                            assert(fs.drop_first()[j - 1] == fs[j]);
                        }
                    }
                },
            }
        }
    }
}

/// The position of the function named `name` is `i`.
pub proof fn lemma_fn_index_at(fs: Seq<Function>, name: Seq<char>, i: int)
    requires
        names_unique(fs),
        0 <= i < fs.len(),
        fs[i].name@ == name,
    ensures
        fn_index(fs, name) == Some(i),
{
    lemma_fn_index(fs, name);
}

/// Functions with the same names, in the same order, are found at the same
/// positions.
pub proof fn lemma_fn_index_names(fs: Seq<Function>, gs: Seq<Function>, name: Seq<char>)
    requires
        fs.len() == gs.len(),
        forall|i: int| 0 <= i < fs.len() ==> #[trigger] fs[i].name@ == gs[i].name@,
    ensures
        fn_index(fs, name) == fn_index(gs, name),
    decreases fs.len(),
{
    if fs.len() > 0 {
        assert(fs[0].name@ == gs[0].name@);
        assert forall|i: int| 0 <= i < fs.drop_first().len() implies #[trigger] fs.drop_first()[i].name@
            == gs.drop_first()[i].name@ by {
            assert(fs[i + 1].name@ == gs[i + 1].name@);
        }
        lemma_fn_index_names(fs.drop_first(), gs.drop_first(), name);
    }
}

/// Changing one function but not its name keeps every function where it is
/// found.
pub proof fn lemma_same_fns_index(fs: Seq<Function>, gs: Seq<Function>, fi: int, name: Seq<char>)
    requires
        0 <= fi < fs.len(),
        same_fns_but(fs, gs, fi),
    ensures
        fn_index(fs, name) == fn_index(gs, name),
{
    assert forall|i: int| 0 <= i < fs.len() implies #[trigger] fs[i].name@ == gs[i].name@ by {
        if i != fi {
            assert(gs[i] == fs[i]);
        }
    }
    lemma_fn_index_names(fs, gs, name);
}

//
// lookups: innermost scope first
//

pub open spec fn tag_in(ts: Seq<StructTag>, tag: Seq<char>) -> Option<TypeV>
    decreases ts.len(),
{
    if ts.len() == 0 {
        None
    } else if ts[0].tag@ == tag {
        Some(ts[0].ty@)
    } else {
        tag_in(ts.drop_first(), tag)
    }
}

/// The type of the struct or union tag `tag`: from the innermost scope that
/// declares it, the first declaration there.
pub open spec fn lookup_tag(scopes: Seq<Scope>, tag: Seq<char>) -> Option<TypeV>
    decreases scopes.len(),
{
    if scopes.len() == 0 {
        None
    } else {
        match tag_in(scopes.last().tags@, tag) {
            Some(t) => Some(t),
            None => lookup_tag(scopes.drop_last(), tag),
        }
    }
}

pub open spec fn typedef_in(ts: Seq<TypedefType>, name: Seq<char>) -> Option<TypeV>
    decreases ts.len(),
{
    if ts.len() == 0 {
        None
    } else if ts[0].name@ == name {
        Some(ts[0].ty@)
    } else {
        typedef_in(ts.drop_first(), name)
    }
}

/// The type that the typedef name `name` stands for.
pub open spec fn lookup_typedef(scopes: Seq<Scope>, name: Seq<char>) -> Option<TypeV>
    decreases scopes.len(),
{
    if scopes.len() == 0 {
        None
    } else {
        match typedef_in(scopes.last().types@, name) {
            Some(t) => Some(t),
            None => lookup_typedef(scopes.drop_last(), name),
        }
    }
}

pub open spec fn enum_in(es: Seq<Enum>, tag: Seq<char>) -> Option<TypeV>
    decreases es.len(),
{
    if es.len() == 0 {
        None
    } else if es[0].tag@ == tag {
        Some(es[0].ty@)
    } else {
        enum_in(es.drop_first(), tag)
    }
}

/// The type of the enum tagged `tag`.
pub open spec fn lookup_enum(scopes: Seq<Scope>, tag: Seq<char>) -> Option<TypeV>
    decreases scopes.len(),
{
    if scopes.len() == 0 {
        None
    } else {
        match enum_in(scopes.last().enums@, tag) {
            Some(t) => Some(t),
            None => lookup_enum(scopes.drop_last(), tag),
        }
    }
}

/// The value of the last member named `name`.
pub open spec fn member_val_last(ms: Seq<EnumMember>, name: Seq<char>) -> Option<isize>
    decreases ms.len(),
{
    if ms.len() == 0 {
        None
    } else if ms.last().name@ == name {
        Some(ms.last().val)
    } else {
        member_val_last(ms.drop_last(), name)
    }
}

/// The value of the member `name` in the last enum of `es` that has one.
pub open spec fn enum_member_in(es: Seq<Enum>, name: Seq<char>) -> Option<isize>
    decreases es.len(),
{
    if es.len() == 0 {
        None
    } else {
        match match es.last().ty.kind {
            TypeKind::Enum { members } => member_val_last(members@, name),
            _ => None,
        } {
            Some(v) => Some(v),
            None => enum_member_in(es.drop_last(), name),
        }
    }
}

/// The value of the enum member `name`. Every declaration in scope is
/// looked at, innermost scope first, and the last one seen wins: the
/// outermost scope that has one, and the last declaration there.
pub open spec fn lookup_enum_member(scopes: Seq<Scope>, name: Seq<char>) -> Option<isize>
    decreases scopes.len(),
{
    if scopes.len() == 0 {
        None
    } else {
        match enum_member_in(scopes[0].enums@, name) {
            Some(v) => Some(v),
            None => lookup_enum_member(scopes.drop_first(), name),
        }
    }
}

/// The first variable among `ids` named `name`.
pub open spec fn var_in(ids: Seq<usize>, vars: Seq<Var>, name: Seq<char>) -> Option<usize>
    decreases ids.len(),
{
    if ids.len() == 0 {
        None
    } else if vars[ids[0] as int].name@ == name {
        Some(ids[0])
    } else {
        var_in(ids.drop_first(), vars, name)
    }
}

pub open spec fn lookup_local(scopes: Seq<Scope>, vars: Seq<Var>, name: Seq<char>) -> Option<usize>
    decreases scopes.len(),
{
    if scopes.len() == 0 {
        None
    } else {
        match var_in(scopes.last().variables@, vars, name) {
            Some(v) => Some(v),
            None => lookup_local(scopes.drop_last(), vars, name),
        }
    }
}

/// The variable that `name` refers to in function `f`: a local of the
/// innermost scope that declares one, else the first global of that name.
pub open spec fn lookup_var(c: Ctx, f: Function, name: Seq<char>) -> Option<usize> {
    match lookup_local(f.scopes@, c.vars@, name) {
        Some(v) => Some(v),
        None => var_in(c.gvars@, c.vars@, name),
    }
}

//
// frames
//

/// The two contexts differ at most in their functions.
pub open spec fn same_but_functions(a: Ctx, b: Ctx) -> bool {
    &&& a.input == b.input
    &&& a.pos == b.pos
    &&& a.tokens == b.tokens
    &&& a.consumed_tokens == b.consumed_tokens
    &&& a.vars == b.vars
    &&& a.gvars == b.gvars
    &&& a.cur_func == b.cur_func
    &&& a.cur_file == b.cur_file
}

/// The two lists of functions differ at most at position `fi`.
pub open spec fn same_fns_but(a: Seq<Function>, b: Seq<Function>, fi: int) -> bool {
    &&& a.len() == b.len()
    &&& forall|j: int| 0 <= j < a.len() && j != fi ==> #[trigger] b[j] == a[j]
    &&& a[fi].name == b[fi].name
    &&& a[fi].body == b[fi].body
    &&& a[fi].args == b[fi].args
    &&& a[fi].ty == b[fi].ty
    &&& a[fi].is_def == b[fi].is_def
}

/// The function's innermost scope is `a`'s with `b`'s differing at most in
/// that scope, and the closed scopes are the same.
pub open spec fn same_but_top(a: Function, b: Function) -> bool {
    &&& a.scopes@.len() == b.scopes@.len()
    &&& a.scopes@.len() > 0
    &&& forall|k: int| 0 <= k < a.scopes@.len() - 1 ==> #[trigger] b.scopes@[k] == a.scopes@[k]
    &&& a.scope_idx == b.scope_idx
    &&& a.exited_scope == b.exited_scope
}

pub open spec fn top(f: Function) -> Scope {
    f.scopes@.last()
}

pub proof fn lemma_wf_more_vars(c: Ctx, nv: nat)
    requires
        ctx_wf(c),
        c.vars@.len() <= nv,
    ensures
        forall|i: int| 0 <= i < c.functions@.len() ==> fn_ok(#[trigger] c.functions@[i], nv),
{
    assert forall|i: int| 0 <= i < c.functions@.len() implies fn_ok(#[trigger] c.functions@[i], nv) by {
        let f = c.functions@[i];
        assert(fn_ok(f, c.vars@.len()));
        lemma_all_nvars_ok_mono(nodesv(f.args@), c.vars@.len(), nv);
        if let Some(b) = f.body {
            lemma_nvars_ok_mono(b@, c.vars@.len(), nv);
        }
    }
}

fn empty_scope() -> (r: Scope)
    ensures
        r.variables@.len() == 0,
        r.tags@.len() == 0,
        r.types@.len() == 0,
        r.enums@.len() == 0,
{
    Scope { variables: Vec::new(), tags: Vec::new(), types: Vec::new(), enums: Vec::new() }
}

/// The scope is empty: it declares nothing.
pub open spec fn scope_empty(sc: Scope) -> bool {
    &&& sc.variables@.len() == 0
    &&& sc.tags@.len() == 0
    &&& sc.types@.len() == 0
    &&& sc.enums@.len() == 0
}

/// `b` is `a` with a new, empty innermost scope in the current function.
pub open spec fn scope_entered(a: Ctx, b: Ctx) -> bool {
    cur_fn(a) matches Some(fi) && {
        let fa = a.functions@[fi];
        let fb = b.functions@[fi];
        &&& same_fns_but(a.functions@, b.functions@, fi)
        &&& fb.scopes@.drop_last() == fa.scopes@
        &&& fb.scopes@.len() == fa.scopes@.len() + 1
        &&& scope_empty(fb.scopes@.last())
        &&& fb.exited_scope == fa.exited_scope
        &&& fb.name == fa.name && fb.args == fa.args && fb.body == fa.body && fb.is_def == fa.is_def
    }
}

/// `b` is `a` with the current function's innermost scope closed: it is
/// no longer open and joins the closed scopes.
pub open spec fn scope_left(a: Ctx, b: Ctx) -> bool {
    cur_fn(a) matches Some(fi) && {
        let fa = a.functions@[fi];
        let fb = b.functions@[fi];
        &&& same_fns_but(a.functions@, b.functions@, fi)
        &&& fa.scopes@.len() > 0
        &&& fb.scopes@ == fa.scopes@.drop_last()
        &&& fb.exited_scope@ == fa.exited_scope@.push(fa.scopes@.last())
    }
}

impl Ctx {
    /// The position of the function being parsed.
    pub fn get_func(&self) -> (r: Result<usize, CompileError>)
        ensures
            match r {
                Ok(i) => cur_fn(*self) == Some(i as int) && i < self.functions@.len()
                    && self.functions@[i as int].name@ == self.cur_func@,
                Err(e) => cur_fn(*self) is None && e@ == no_func_err(),
            },
    {
        let mut i: usize = 0;
        proof {
            assert(self.functions@.skip(0) =~= self.functions@);
        }
        while i < self.functions.len()
            invariant
                i <= self.functions@.len(),
                fn_index(self.functions@, self.cur_func@) == match fn_index(
                    self.functions@.skip(i as int),
                    self.cur_func@,
                ) {
                    Some(k) => Some(k + i),
                    None => None,
                },
            decreases self.functions.len() - i,
        {
            proof {
                assert(self.functions@.skip(i as int)[0] == self.functions@[i as int]);
                assert(self.functions@.skip(i as int).drop_first() =~= self.functions@.skip(i + 1));
            }
            if string_eq(&self.functions[i].name, &self.cur_func) {
                return Ok(i);
            }
            i += 1;
        }
        proof {
            assert(self.functions@.skip(i as int).len() == 0);
        }
        Err(abort("no function is being parsed"))
    }

    /// Opens a new innermost scope in the current function.
    pub fn enter_scope(&mut self) -> (r: Result<(), CompileError>)
        requires
            ctx_wf(*old(self)),
        ensures
            ctx_wf(*final(self)),
            same_but_functions(*final(self), *old(self)),
            match r {
                Ok(()) => scope_entered(*old(self), *final(self)),
                Err(e) => final(self).functions == old(self).functions && (cur_fn(*old(self)) is None
                    || old(self).functions@[cur_fn(*old(self))->0].scopes@.len() >= isize::MAX - 1),
            },
    {
        let fi = self.get_func()?;
        if self.functions[fi].scopes.len() >= isize::MAX as usize - 1 {
            return Err(abort("too many nested scopes"));
        }
        self.functions[fi].scopes.push(empty_scope());
        self.functions[fi].scope_idx = self.functions[fi].scope_idx + 1;
        proof {
            let a = old(self).functions@[fi as int];
            let b = self.functions@[fi as int];
            assert(b.scopes@.drop_last() =~= a.scopes@);
            assert forall|i: int| 0 <= i < self.functions@.len() implies fn_ok(
                #[trigger] self.functions@[i],
                self.vars@.len(),
            ) by {
                if i == fi {
                    assert(fn_ok(a, self.vars@.len()));
                    assert forall|k: int| 0 <= k < b.scopes@.len() implies scope_ok(
                        #[trigger] b.scopes@[k],
                        self.vars@.len(),
                    ) by {
                        if k < a.scopes@.len() {
                            assert(b.scopes@[k] == a.scopes@[k]);
                        }
                    }
                } else {
                    assert(self.functions@[i] == old(self).functions@[i]);
                }
            }
            assert forall|i: int, j: int|
                0 <= i < self.functions@.len() && 0 <= j < self.functions@.len() && i != j implies #[trigger] self.functions@[i].name@
                != #[trigger] self.functions@[j].name@ by {
                assert(old(self).functions@[i].name@ != old(self).functions@[j].name@);
            }
        }
        Ok(())
    }

    /// Closes the current function's innermost scope; it joins the closed scopes.
    pub fn leave_scope(&mut self) -> (r: Result<(), CompileError>)
        requires
            ctx_wf(*old(self)),
        ensures
            ctx_wf(*final(self)),
            same_but_functions(*final(self), *old(self)),
            match r {
                Ok(()) => scope_left(*old(self), *final(self)),
                Err(e) => final(self).functions == old(self).functions && (cur_fn(*old(self)) is None
                    || old(self).functions@[cur_fn(*old(self))->0].scopes@.len() == 0),
            },
    {
        let fi = self.get_func()?;
        if self.functions[fi].scopes.len() == 0 {
            return Err(abort("no scope to leave"));
        }
        let poped_scope = self.functions[fi].scopes.pop();
        match poped_scope {
            Some(sc) => {
                self.functions[fi].exited_scope.push(sc);
            },
            None => {},
        }
        self.functions[fi].scope_idx = self.functions[fi].scope_idx - 1;
        proof {
            let a = old(self).functions@[fi as int];
            let b = self.functions@[fi as int];
            assert forall|i: int| 0 <= i < self.functions@.len() implies fn_ok(
                #[trigger] self.functions@[i],
                self.vars@.len(),
            ) by {
                if i == fi {
                    assert(fn_ok(a, self.vars@.len()));
                    assert forall|k: int| 0 <= k < b.scopes@.len() implies scope_ok(
                        #[trigger] b.scopes@[k],
                        self.vars@.len(),
                    ) by {
                        assert(b.scopes@[k] == a.scopes@[k]);
                    }
                    assert forall|k: int| 0 <= k < b.exited_scope@.len() implies scope_ok(
                        #[trigger] b.exited_scope@[k],
                        self.vars@.len(),
                    ) by {
                        if k < a.exited_scope@.len() {
                            assert(b.exited_scope@[k] == a.exited_scope@[k]);
                        } else {
                            assert(b.exited_scope@[k] == a.scopes@[a.scopes@.len() - 1]);
                        }
                    }
                } else {
                    assert(self.functions@[i] == old(self).functions@[i]);
                }
            }
            assert forall|i: int, j: int|
                0 <= i < self.functions@.len() && 0 <= j < self.functions@.len() && i != j implies #[trigger] self.functions@[i].name@
                != #[trigger] self.functions@[j].name@ by {
                assert(old(self).functions@[i].name@ != old(self).functions@[j].name@);
            }
        }
        Ok(())
    }
}

pub open spec fn no_func_err() -> CompileErrorV {
    CompileErrorV::Abort { msg: "no function is being parsed"@ }
}


/// Every part of the two contexts but the functions' innermost scopes is the
/// same, and so are all the functions but the current one.
pub open spec fn top_scope_changed(a: Ctx, b: Ctx, fi: int) -> bool {
    &&& same_but_functions(b, a)
    &&& 0 <= fi < a.functions@.len()
    &&& same_fns_but(a.functions@, b.functions@, fi)
    &&& same_but_top(a.functions@[fi], b.functions@[fi])
}

impl Ctx {
    /// Declares the struct or union tag `tag` in the current innermost scope.
    pub fn push_tag(&mut self, tag: String, ty: Type) -> (r: Result<(), CompileError>)
        requires
            ctx_wf(*old(self)),
        ensures
            ctx_wf(*final(self)),
            match r {
                Ok(()) => cur_fn(*old(self)) matches Some(fi) && top_scope_changed(*old(self), *final(self), fi) && {
                    let a = top(old(self).functions@[fi]);
                    let b = top(final(self).functions@[fi]);
                    &&& b.tags@ == a.tags@.push(StructTag { tag, ty })
                    &&& b.variables == a.variables
                    &&& b.types == a.types
                    &&& b.enums == a.enums
                },
                Err(e) => *final(self) == *old(self) && (cur_fn(*old(self)) is None || old(self).functions@[cur_fn(*old(self))->0].scopes@.len() == 0),
            },
    {
        let fi = self.get_func()?;
        let n = self.functions[fi].scopes.len();
        if n == 0 {
            return Err(abort("no open scope"));
        }
        self.functions[fi].scopes[n - 1].tags.push(StructTag { tag, ty });
        proof { lemma_top_changed(*old(self), *self, fi as int); }
        Ok(())
    }

    /// Declares the enum `name` in the current innermost scope.
    pub fn push_enum(&mut self, name: String, ty: Type) -> (r: Result<(), CompileError>)
        requires
            ctx_wf(*old(self)),
        ensures
            ctx_wf(*final(self)),
            match r {
                Ok(()) => cur_fn(*old(self)) matches Some(fi) && top_scope_changed(*old(self), *final(self), fi) && {
                    let a = top(old(self).functions@[fi]);
                    let b = top(final(self).functions@[fi]);
                    &&& b.enums@ == a.enums@.push(Enum { tag: name, ty })
                    &&& b.variables == a.variables
                    &&& b.types == a.types
                    &&& b.tags == a.tags
                },
                Err(e) => *final(self) == *old(self) && (cur_fn(*old(self)) is None || old(self).functions@[cur_fn(*old(self))->0].scopes@.len() == 0),
            },
    {
        let fi = self.get_func()?;
        let n = self.functions[fi].scopes.len();
        if n == 0 {
            return Err(abort("no open scope"));
        }
        self.functions[fi].scopes[n - 1].enums.push(Enum { tag: name, ty });
        proof { lemma_top_changed(*old(self), *self, fi as int); }
        Ok(())
    }

    /// Declares the typedef name `deftype.name` in the current innermost scope.
    pub fn push_type(&mut self, deftype: TypedefType) -> (r: Result<(), CompileError>)
        requires
            ctx_wf(*old(self)),
        ensures
            ctx_wf(*final(self)),
            match r {
                Ok(()) => cur_fn(*old(self)) matches Some(fi) && top_scope_changed(*old(self), *final(self), fi) && {
                    let a = top(old(self).functions@[fi]);
                    let b = top(final(self).functions@[fi]);
                    &&& b.types@ == a.types@.push(deftype)
                    &&& b.variables == a.variables
                    &&& b.enums == a.enums
                    &&& b.tags == a.tags
                },
                Err(e) => *final(self) == *old(self) && (cur_fn(*old(self)) is None || old(self).functions@[cur_fn(*old(self))->0].scopes@.len() == 0),
            },
    {
        let fi = self.get_func()?;
        let n = self.functions[fi].scopes.len();
        if n == 0 {
            return Err(abort("no open scope"));
        }
        self.functions[fi].scopes[n - 1].types.push(deftype);
        proof { lemma_top_changed(*old(self), *self, fi as int); }
        Ok(())
    }

    /// The type of the struct or union tag `tag`, innermost scope first.
    #[verifier::loop_isolation(false)]
    pub fn find_tag(&self, tag: &String) -> (r: Result<Option<Type>, CompileError>)
        ensures
            match r {
                Ok(o) => cur_fn(*self) matches Some(fi) && match o {
                    Some(t) => lookup_tag(self.functions@[fi].scopes@, tag@) == Some(t@),
                    None => lookup_tag(self.functions@[fi].scopes@, tag@) is None,
                },
                Err(e) => cur_fn(*self) is None && e@ == no_func_err(),
            },
    {
        let fi = self.get_func()?;
        let scopes = &self.functions[fi].scopes;
        let mut k = scopes.len();
        proof { assert(scopes@.take(k as int) =~= scopes@); }
        while k > 0
            invariant
                k <= scopes@.len(),
                lookup_tag(scopes@, tag@) == lookup_tag(scopes@.take(k as int), tag@),
            decreases k,
        {
            let ts = &scopes[k - 1].tags;
            let mut i: usize = 0;
            proof { assert(ts@.skip(0) =~= ts@); }
            while i < ts.len()
                invariant
                    i <= ts@.len(),
                    tag_in(ts@, tag@) == tag_in(ts@.skip(i as int), tag@),
                decreases ts.len() - i,
            {
                proof {
                    assert(ts@.skip(i as int)[0] == ts@[i as int]);
                    assert(ts@.skip(i as int).drop_first() =~= ts@.skip(i + 1));
                }
                if string_eq(&ts[i].tag, tag) {
                    let t = ts[i].ty.dup();
                    proof {
                        assert(scopes@.take(k as int).last() == scopes@[k - 1]);
                    }
                    return Ok(Some(t));
                }
                i += 1;
            }
            proof {
                assert(ts@.skip(i as int).len() == 0);
                assert(scopes@.take(k as int).last() == scopes@[k - 1]);
                assert(scopes@.take(k as int).drop_last() =~= scopes@.take(k - 1));
            }
            k -= 1;
        }
        Ok(None)
    }

    /// The type that the typedef name `name` stands for, innermost scope first.
    #[verifier::loop_isolation(false)]
    pub fn find_type(&self, name: &String) -> (r: Result<Option<Type>, CompileError>)
        ensures
            match r {
                Ok(o) => cur_fn(*self) matches Some(fi) && match o {
                    Some(t) => lookup_typedef(self.functions@[fi].scopes@, name@) == Some(t@),
                    None => lookup_typedef(self.functions@[fi].scopes@, name@) is None,
                },
                Err(e) => cur_fn(*self) is None && e@ == no_func_err(),
            },
    {
        let fi = self.get_func()?;
        let scopes = &self.functions[fi].scopes;
        let mut k = scopes.len();
        proof { assert(scopes@.take(k as int) =~= scopes@); }
        while k > 0
            invariant
                k <= scopes@.len(),
                lookup_typedef(scopes@, name@) == lookup_typedef(scopes@.take(k as int), name@),
            decreases k,
        {
            let ts = &scopes[k - 1].types;
            let mut i: usize = 0;
            proof { assert(ts@.skip(0) =~= ts@); }
            while i < ts.len()
                invariant
                    i <= ts@.len(),
                    typedef_in(ts@, name@) == typedef_in(ts@.skip(i as int), name@),
                decreases ts.len() - i,
            {
                proof {
                    assert(ts@.skip(i as int)[0] == ts@[i as int]);
                    assert(ts@.skip(i as int).drop_first() =~= ts@.skip(i + 1));
                }
                if string_eq(&ts[i].name, name) {
                    let t = ts[i].ty.dup();
                    proof {
                        assert(scopes@.take(k as int).last() == scopes@[k - 1]);
                    }
                    return Ok(Some(t));
                }
                i += 1;
            }
            proof {
                assert(ts@.skip(i as int).len() == 0);
                assert(scopes@.take(k as int).last() == scopes@[k - 1]);
                assert(scopes@.take(k as int).drop_last() =~= scopes@.take(k - 1));
            }
            k -= 1;
        }
        Ok(None)
    }

    /// The enum tagged `name`, innermost scope first.
    #[verifier::loop_isolation(false)]
    pub fn find_enum(&self, name: &String) -> (r: Result<Option<Enum>, CompileError>)
        ensures
            match r {
                Ok(o) => cur_fn(*self) matches Some(fi) && match o {
                    Some(e) => lookup_enum(self.functions@[fi].scopes@, name@) == Some(e.ty@) && e.tag@ == name@,
                    None => lookup_enum(self.functions@[fi].scopes@, name@) is None,
                },
                Err(e) => cur_fn(*self) is None && e@ == no_func_err(),
            },
    {
        let fi = self.get_func()?;
        let scopes = &self.functions[fi].scopes;
        let mut k = scopes.len();
        proof { assert(scopes@.take(k as int) =~= scopes@); }
        while k > 0
            invariant
                k <= scopes@.len(),
                lookup_enum(scopes@, name@) == lookup_enum(scopes@.take(k as int), name@),
            decreases k,
        {
            let ts = &scopes[k - 1].enums;
            let mut i: usize = 0;
            proof { assert(ts@.skip(0) =~= ts@); }
            while i < ts.len()
                invariant
                    i <= ts@.len(),
                    enum_in(ts@, name@) == enum_in(ts@.skip(i as int), name@),
                decreases ts.len() - i,
            {
                proof {
                    assert(ts@.skip(i as int)[0] == ts@[i as int]);
                    assert(ts@.skip(i as int).drop_first() =~= ts@.skip(i + 1));
                }
                if string_eq(&ts[i].tag, name) {
                    let e = Enum { tag: ts[i].tag.clone(), ty: ts[i].ty.dup() };
                    proof {
                        assert(scopes@.take(k as int).last() == scopes@[k - 1]);
                    }
                    return Ok(Some(e));
                }
                i += 1;
            }
            proof {
                assert(ts@.skip(i as int).len() == 0);
                assert(scopes@.take(k as int).last() == scopes@[k - 1]);
                assert(scopes@.take(k as int).drop_last() =~= scopes@.take(k - 1));
            }
            k -= 1;
        }
        Ok(None)
    }

    /// The value of the enum member `name` as an `int` literal node.
    #[verifier::loop_isolation(false)]
    pub fn find_enum_member(&self, name: &String) -> (r: Result<Option<Node>, CompileError>)
        ensures
            match r {
                Ok(o) => cur_fn(*self) matches Some(fi) && match o {
                    Some(n) => lookup_enum_member(self.functions@[fi].scopes@, name@) matches Some(v)
                        && n@ == (NodeV { kind: NodeKindV::Num { val: v }, ty: Some(int_tv()) }),
                    None => lookup_enum_member(self.functions@[fi].scopes@, name@) is None,
                },
                Err(e) => cur_fn(*self) is None && e@ == no_func_err(),
            },
    {
        let fi = self.get_func()?;
        let scopes = &self.functions[fi].scopes;
        let mut k: usize = 0;
        proof { assert(scopes@.skip(0) =~= scopes@); }
        while k < scopes.len()
            invariant
                k <= scopes@.len(),
                lookup_enum_member(scopes@, name@) == lookup_enum_member(scopes@.skip(k as int), name@),
            decreases scopes.len() - k,
        {
            proof {
                assert(scopes@.skip(k as int)[0] == scopes@[k as int]);
                assert(scopes@.skip(k as int).drop_first() =~= scopes@.skip(k + 1));
            }
            let es = &scopes[k].enums;
            let mut j = es.len();
            proof { assert(es@.take(j as int) =~= es@); }
            while j > 0
                invariant
                    j <= es@.len(),
                    enum_member_in(es@, name@) == enum_member_in(es@.take(j as int), name@),
                decreases j,
            {
                proof {
                    assert(es@.take(j as int).last() == es@[j - 1]);
                    assert(es@.take(j as int).drop_last() =~= es@.take(j - 1));
                }
                match &es[j - 1].ty.kind {
                    TypeKind::Enum { members } => {
                        let mut m = members.len();
                        proof { assert(members@.take(m as int) =~= members@); }
                        while m > 0
                            invariant
                                m <= members@.len(),
                                member_val_last(members@, name@) == member_val_last(members@.take(m as int), name@),
                            decreases m,
                        {
                            proof {
                                assert(members@.take(m as int).last() == members@[m - 1]);
                                assert(members@.take(m as int).drop_last() =~= members@.take(m - 1));
                            }
                            if string_eq(&members[m - 1].name, name) {
                                let n = self.new_num(members[m - 1].val);
                                return Ok(Some(n));
                            }
                            m -= 1;
                        }
                    },
                    _ => {},
                }
                j -= 1;
            }
            k += 1;
        }
        Ok(None)
    }

    /// The variable that `name` refers to: a local of the innermost scope
    /// that declares one, else the first global of that name.
    #[verifier::loop_isolation(false)]
    pub fn find_var(&self, name: &String) -> (r: Result<Option<usize>, CompileError>)
        requires
            ctx_wf(*self),
        ensures
            match r {
                Ok(o) => cur_fn(*self) matches Some(fi) && o == lookup_var(*self, self.functions@[fi], name@),
                Err(e) => cur_fn(*self) is None && e@ == no_func_err(),
            },
            r matches Ok(Some(v)) ==> v < self.vars@.len(),
    {
        let fi = self.get_func()?;
        let scopes = &self.functions[fi].scopes;
        let mut k = scopes.len();
        proof { assert(scopes@.take(k as int) =~= scopes@); }
        while k > 0
            invariant
                k <= scopes@.len(),
                lookup_local(scopes@, self.vars@, name@) == lookup_local(scopes@.take(k as int), self.vars@, name@),
                forall|q: int| 0 <= q < scopes@.len() ==> scope_ok(#[trigger] scopes@[q], self.vars@.len()),
                scopes == self.functions@[fi as int].scopes,
                fi < self.functions@.len(),
            decreases k,
        {
            let ids = &scopes[k - 1].variables;
            let mut i: usize = 0;
            proof { assert(ids@.skip(0) =~= ids@); }
            while i < ids.len()
                invariant
                    i <= ids@.len(),
                    var_in(ids@, self.vars@, name@) == var_in(ids@.skip(i as int), self.vars@, name@),
                    forall|q: int| 0 <= q < ids@.len() ==> #[trigger] ids@[q] < self.vars@.len(),
                decreases ids.len() - i,
            {
                proof {
                    assert(ids@.skip(i as int)[0] == ids@[i as int]);
                    assert(ids@.skip(i as int).drop_first() =~= ids@.skip(i + 1));
                }
                let id = ids[i];
                if string_eq(&self.vars[id].name, name) {
                    proof {
                        assert(scopes@.take(k as int).last() == scopes@[k - 1]);
                    }
                    return Ok(Some(id));
                }
                i += 1;
            }
            proof {
                assert(ids@.skip(i as int).len() == 0);
                assert(scopes@.take(k as int).last() == scopes@[k - 1]);
                assert(scopes@.take(k as int).drop_last() =~= scopes@.take(k - 1));
            }
            k -= 1;
        }
        let ids = &self.gvars;
        let mut i: usize = 0;
        proof { assert(ids@.skip(0) =~= ids@); }
        while i < ids.len()
            invariant
                i <= ids@.len(),
                var_in(ids@, self.vars@, name@) == var_in(ids@.skip(i as int), self.vars@, name@),
            decreases ids.len() - i,
        {
            proof {
                assert(ids@.skip(i as int)[0] == ids@[i as int]);
                assert(ids@.skip(i as int).drop_first() =~= ids@.skip(i + 1));
            }
            let id = ids[i];
            if string_eq(&self.vars[id].name, name) {
                return Ok(Some(id));
            }
            i += 1;
        }
        proof { assert(ids@.skip(i as int).len() == 0); }
        Ok(None)
    }

    /// Creates the global variable `name` of type `ty`, with its initial
    /// value, and returns a node that refers to it.
    pub fn create_gvar(&mut self, name: String, ty: Type, init_gval: Option<InitGval>) -> (r: Node)
        requires
            ctx_wf(*old(self)),
        ensures
            ctx_wf(*final(self)),
            final(self).vars@ == old(self).vars@.push(Var {
                name,
                offset: old(self).gvars@.len() as usize,
                ty,
                is_param: false,
                is_local: false,
                init_gval,
            }),
            final(self).gvars@ == old(self).gvars@.push(old(self).vars@.len() as usize),
            r@ == (NodeV { kind: NodeKindV::Var { var: old(self).vars@.len() as usize }, ty: Some(ty@) }),
            final(self).input == old(self).input,
            final(self).pos == old(self).pos,
            final(self).tokens == old(self).tokens,
            final(self).consumed_tokens == old(self).consumed_tokens,
            final(self).functions == old(self).functions,
            final(self).cur_func == old(self).cur_func,
            final(self).cur_file == old(self).cur_file,
    {
        let id = self.vars.len();
        let offset = self.gvars.len();
        self.vars.push(Var { name, offset, ty, is_param: false, is_local: false, init_gval });
        self.gvars.push(id);
        proof {
            lemma_wf_more_vars(*old(self), self.vars@.len());
        }
        self.new_var(id)
    }

    /// Creates the local variable `name` of type `ty` in the innermost scope
    /// of the current function and returns a node that refers to it; a
    /// parameter of the function is also appended to its arguments, of
    /// which there may be eight at most.
    pub fn create_lvar(&mut self, name: String, ty: Type, is_def_arg: bool) -> (r: Result<Node, CompileError>)
        requires
            ctx_wf(*old(self)),
        ensures
            ctx_wf(*final(self)),
            match r {
                Ok(n) => cur_fn(*old(self)) matches Some(fi) && {
                    let id = old(self).vars@.len() as usize;
                    let a = old(self).functions@[fi];
                    let b = final(self).functions@[fi];
                    &&& final(self).vars@ == old(self).vars@.push(Var {
                        name,
                        offset: 0,
                        ty,
                        is_param: is_def_arg,
                        is_local: true,
                        init_gval: None,
                    })
                    &&& n@ == (NodeV { kind: NodeKindV::Var { var: id }, ty: Some(ty@) })
                    &&& final(self).gvars == old(self).gvars
                    &&& final(self).functions@.len() == old(self).functions@.len()
                    &&& forall|j: int| 0 <= j < old(self).functions@.len() && j != fi ==> #[trigger] final(self).functions@[j] == old(self).functions@[j]
                    &&& same_but_top(a, b)
                    &&& b.name == a.name && b.body == a.body && b.ty == a.ty && b.is_def == a.is_def
                    &&& top(b).variables@ == top(a).variables@.push(id)
                    &&& top(b).tags == top(a).tags && top(b).types == top(a).types && top(b).enums == top(a).enums
                    &&& if is_def_arg {
                        a.args@.len() < 8 && nodesv(b.args@) == nodesv(a.args@).push(n@)
                    } else {
                        b.args == a.args
                    }
                },
                Err(e) => *final(self) == *old(self) && (cur_fn(*old(self)) is None
                    || old(self).functions@[cur_fn(*old(self))->0].scopes@.len() == 0
                    || (is_def_arg && old(self).functions@[cur_fn(*old(self))->0].args@.len() >= 8)),
            },
            final(self).input == old(self).input,
            final(self).pos == old(self).pos,
            final(self).tokens == old(self).tokens,
            final(self).consumed_tokens == old(self).consumed_tokens,
            final(self).cur_func == old(self).cur_func,
            final(self).cur_file == old(self).cur_file,
    {
        let fi = self.get_func()?;
        let n = self.functions[fi].scopes.len();
        if n == 0 {
            return Err(abort("no open scope"));
        }
        if is_def_arg && self.functions[fi].args.len() >= 8 {
            if self.consumed_tokens.len() == 0 {
                return Err(abort("too many arguments. 8 arguments are allowed at most"));
            }
            let last = self.consumed_tokens.len() - 1;
            return Err(err_at(
                self.consumed_tokens[last].start,
                self.consumed_tokens[last].len,
                "too many arguments. 8 arguments are allowed at most",
            ));
        }
        let id = self.vars.len();
        self.vars.push(Var { name, offset: 0, ty, is_param: is_def_arg, is_local: true, init_gval: None });
        self.functions[fi].scopes[n - 1].variables.push(id);
        let node = self.new_var(id);
        if is_def_arg {
            let copy = node.dup();
            self.functions[fi].args.push(copy);
            proof {
                lemma_nodesv_push(old(self).functions@[fi as int].args@, copy);
            }
        }
        proof {
            let nv = self.vars@.len();
            lemma_wf_more_vars(*old(self), nv);
            let a = old(self).functions@[fi as int];
            let b = self.functions@[fi as int];
            assert(fn_ok(a, nv));
            assert forall|k: int| 0 <= k < b.scopes@.len() implies scope_ok(#[trigger] b.scopes@[k], nv) by {
                if k < n - 1 {
                    assert(b.scopes@[k] == a.scopes@[k]);
                } else {
                    assert(scope_ok(a.scopes@[k], nv));
                    assert forall|q: int| 0 <= q < b.scopes@[k].variables@.len() implies #[trigger] b.scopes@[k].variables@[q] < nv by {
                        if q < a.scopes@[k].variables@.len() {
                            assert(b.scopes@[k].variables@[q] == a.scopes@[k].variables@[q]);
                        }
                    }
                }
            }
            if is_def_arg {
                lemma_all_nvars_ok(nodesv(a.args@), nv);
                lemma_all_nvars_ok(nodesv(b.args@), nv);
                lemma_nodesv_len(a.args@);
                lemma_nodesv_len(b.args@);
                assert forall|q: int| 0 <= q < nodesv(b.args@).len() implies nvars_ok(#[trigger] nodesv(b.args@)[q], nv) by {
                    if q < a.args@.len() {
                        assert(nodesv(b.args@)[q] == nodesv(a.args@)[q]);
                    }
                }
            }
            assert forall|i: int| 0 <= i < self.functions@.len() implies fn_ok(#[trigger] self.functions@[i], nv) by {
                if i != fi {
                    assert(self.functions@[i] == old(self).functions@[i]);
                }
            }
            assert forall|i: int, j: int|
                0 <= i < self.functions@.len() && 0 <= j < self.functions@.len() && i != j implies #[trigger] self.functions@[i].name@
                != #[trigger] self.functions@[j].name@ by {
                assert(old(self).functions@[i].name@ != old(self).functions@[j].name@);
            }
        }
        Ok(node)
    }
}

proof fn lemma_top_changed(a: Ctx, b: Ctx, fi: int)
    requires
        ctx_wf(a),
        same_but_functions(b, a),
        0 <= fi < a.functions@.len(),
        a.functions@.len() == b.functions@.len(),
        forall|j: int| 0 <= j < a.functions@.len() && j != fi ==> #[trigger] b.functions@[j] == a.functions@[j],
        ({
            let fa = a.functions@[fi];
            let fb = b.functions@[fi];
            &&& fa.name == fb.name && fa.body == fb.body && fa.args == fb.args && fa.ty == fb.ty && fa.is_def == fb.is_def
            &&& same_but_top(fa, fb)
            &&& top(fb).variables == top(fa).variables
        }),
    ensures
        ctx_wf(b),
        top_scope_changed(a, b, fi),
{
    let fa = a.functions@[fi];
    let fb = b.functions@[fi];
    assert(fn_ok(fa, a.vars@.len()));
    assert forall|k: int| 0 <= k < fb.scopes@.len() implies scope_ok(#[trigger] fb.scopes@[k], b.vars@.len()) by {
        if k < fb.scopes@.len() - 1 {
            assert(fb.scopes@[k] == fa.scopes@[k]);
        } else {
            assert(scope_ok(fa.scopes@[k], a.vars@.len()));
        }
    }
    assert forall|i: int| 0 <= i < b.functions@.len() implies fn_ok(#[trigger] b.functions@[i], b.vars@.len()) by {
        if i != fi {
            assert(b.functions@[i] == a.functions@[i]);
        }
    }
    assert forall|i: int, j: int|
        0 <= i < b.functions@.len() && 0 <= j < b.functions@.len() && i != j implies #[trigger] b.functions@[i].name@
        != #[trigger] b.functions@[j].name@ by {
        assert(a.functions@[i].name@ != a.functions@[j].name@);
    }
}

} // verus!
