//! The compiler's data: tokens, types, variables, syntax-tree nodes, scopes,
//! functions and the parsing context, together with their mathematical views.
//!
//! A view replaces every `Vec` by a `Seq`, every `String` by a `Seq<char>`
//! and every `Box` by a box of the view, so that two values that hold the
//! same data have equal views.
use vstd::prelude::*;

verus! {

//
// token
//

#[derive(Debug)]
pub enum TokenKind {
    Punct { str: String },
    Num { val: isize },
    Ident { name: String },
    Keyword { name: String },
    Str { str: String },
}

#[derive(Debug)]
pub struct Token {
    pub kind: TokenKind,
    pub start: usize,
    pub len: usize,
}

pub enum TokenKindV {
    Punct { str: Seq<char> },
    Num { val: isize },
    Ident { name: Seq<char> },
    Keyword { name: Seq<char> },
    Str { str: Seq<char> },
}

pub struct TokenV {
    pub kind: TokenKindV,
    pub start: usize,
    pub len: usize,
}

pub open spec fn tokkv(k: TokenKind) -> TokenKindV {
    match k {
        TokenKind::Punct { str } => TokenKindV::Punct { str: str@ },
        TokenKind::Num { val } => TokenKindV::Num { val },
        TokenKind::Ident { name } => TokenKindV::Ident { name: name@ },
        TokenKind::Keyword { name } => TokenKindV::Keyword { name: name@ },
        TokenKind::Str { str } => TokenKindV::Str { str: str@ },
    }
}

pub open spec fn tokv(t: Token) -> TokenV {
    TokenV { kind: tokkv(t.kind), start: t.start, len: t.len }
}

pub open spec fn toksv(ts: Seq<Token>) -> Seq<TokenV> {
    ts.map_values(|t: Token| tokv(t))
}

impl View for Token {
    type V = TokenV;

    open spec fn view(&self) -> TokenV {
        tokv(*self)
    }
}

impl Token {
    /// A copy of the token.
    pub fn dup(&self) -> (r: Token)
        ensures
            r == *self,
    {
        let kind = match &self.kind {
            TokenKind::Punct { str } => TokenKind::Punct { str: str.clone() },
            TokenKind::Num { val } => TokenKind::Num { val: *val },
            TokenKind::Ident { name } => TokenKind::Ident { name: name.clone() },
            TokenKind::Keyword { name } => TokenKind::Keyword { name: name.clone() },
            TokenKind::Str { str } => TokenKind::Str { str: str.clone() },
        };
        Token { kind, start: self.start, len: self.len }
    }
}

//
// type
//

#[derive(Debug)]
#[allow(inconsistent_fields)]
pub enum TypeKind {
    Int,
    Short,
    Long,
    Ptr { ptr_to: Box<Type> },
    Array { ptr_to: Box<Type>, len: usize },
    Char,
    Struct { members: Vec<Member> },
    Union { members: Vec<Member> },
    Enum { members: Vec<EnumMember> },
}

/// A member of a struct or union.
#[derive(Debug)]
pub struct Member {
    pub name: String,
    pub ty: Type,
    /// Offset from the start of the struct.
    pub offset: usize,
}

#[derive(Debug)]
pub struct EnumMember {
    pub name: String,
    pub ty: Type,
    pub val: isize,
}

#[derive(Debug)]
pub struct Type {
    pub kind: TypeKind,
    pub size: usize,
    pub align: usize,
}

#[allow(inconsistent_fields)]
pub enum TypeKindV {
    Int,
    Short,
    Long,
    Ptr { ptr_to: Box<TypeV> },
    Array { ptr_to: Box<TypeV>, len: usize },
    Char,
    Struct { members: Seq<MemberV> },
    Union { members: Seq<MemberV> },
    Enum { members: Seq<EnumMemberV> },
}

pub struct MemberV {
    pub name: Seq<char>,
    pub ty: TypeV,
    pub offset: usize,
}

pub struct EnumMemberV {
    pub name: Seq<char>,
    pub ty: TypeV,
    pub val: isize,
}

pub struct TypeV {
    pub kind: TypeKindV,
    pub size: usize,
    pub align: usize,
}

pub open spec fn tyv(t: Type) -> TypeV
    decreases t,
{
    TypeV {
        kind: match t.kind {
            TypeKind::Int => TypeKindV::Int,
            TypeKind::Short => TypeKindV::Short,
            TypeKind::Long => TypeKindV::Long,
            TypeKind::Ptr { ptr_to } => TypeKindV::Ptr { ptr_to: Box::new(tyv(*ptr_to)) },
            TypeKind::Array { ptr_to, len } => TypeKindV::Array {
                ptr_to: Box::new(tyv(*ptr_to)),
                len,
            },
            TypeKind::Char => TypeKindV::Char,
            TypeKind::Struct { members } => TypeKindV::Struct { members: memsv(members@) },
            TypeKind::Union { members } => TypeKindV::Union { members: memsv(members@) },
            TypeKind::Enum { members } => TypeKindV::Enum { members: enmsv(members@) },
        },
        size: t.size,
        align: t.align,
    }
}

pub open spec fn memsv(ms: Seq<Member>) -> Seq<MemberV>
    decreases ms,
{
    if ms.len() == 0 {
        Seq::empty()
    } else {
        seq![memv(ms[0])] + memsv(ms.drop_first())
    }
}

pub open spec fn memv(m: Member) -> MemberV
    decreases m,
{
    MemberV { name: m.name@, ty: tyv(m.ty), offset: m.offset }
}

pub open spec fn enmsv(ms: Seq<EnumMember>) -> Seq<EnumMemberV>
    decreases ms,
{
    if ms.len() == 0 {
        Seq::empty()
    } else {
        seq![enmv(ms[0])] + enmsv(ms.drop_first())
    }
}

pub open spec fn enmv(m: EnumMember) -> EnumMemberV
    decreases m,
{
    EnumMemberV { name: m.name@, ty: tyv(m.ty), val: m.val }
}

impl View for Type {
    type V = TypeV;

    open spec fn view(&self) -> TypeV {
        tyv(*self)
    }
}

impl View for Member {
    type V = MemberV;

    open spec fn view(&self) -> MemberV {
        memv(*self)
    }
}

impl View for EnumMember {
    type V = EnumMemberV;

    open spec fn view(&self) -> EnumMemberV {
        enmv(*self)
    }
}

pub proof fn lemma_memsv_len(ms: Seq<Member>)
    ensures
        memsv(ms).len() == ms.len(),
        forall|i: int| 0 <= i < ms.len() ==> #[trigger] memsv(ms)[i] == memv(ms[i]),
    decreases ms.len(),
{
    if ms.len() > 0 {
        lemma_memsv_len(ms.drop_first());
        assert forall|i: int| 0 <= i < ms.len() implies #[trigger] memsv(ms)[i] == memv(ms[i]) by {
            if i > 0 {
                assert(ms.drop_first()[i - 1] == ms[i]);
            }
        }
    }
}

pub proof fn lemma_memsv_eq(a: Seq<Member>, b: Seq<Member>)
    requires
        a.len() == b.len(),
        forall|j: int| 0 <= j < a.len() ==> memv(#[trigger] a[j]) == memv(b[j]),
    ensures
        memsv(a) == memsv(b),
    decreases a.len(),
{
    if a.len() > 0 {
        assert(memv(a[0]) == memv(b[0]));
        lemma_memsv_eq(a.drop_first(), b.drop_first());
    }
}

pub proof fn lemma_memsv_push(a: Seq<Member>, m: Member)
    ensures
        memsv(a.push(m)) == memsv(a).push(memv(m)),
    decreases a.len(),
{
    if a.len() == 0 {
        let l = a.push(m);
        assert(l.drop_first() =~= Seq::<Member>::empty());
        assert(memsv(l.drop_first()) =~= Seq::empty());
        assert(memsv(l) == seq![memv(l[0])] + memsv(l.drop_first()));
        assert(memsv(l) =~= memsv(a).push(memv(m)));
    } else {
        assert(a.push(m).drop_first() =~= a.drop_first().push(m));
        lemma_memsv_push(a.drop_first(), m);
        let l = a.push(m);
        assert(l[0] == a[0]);
        assert(memsv(l) == seq![memv(l[0])] + memsv(l.drop_first()));
        assert(memsv(a) == seq![memv(a[0])] + memsv(a.drop_first()));
        assert(memsv(l) =~= memsv(a).push(memv(m)));
    }
}

pub proof fn lemma_enmsv_len(ms: Seq<EnumMember>)
    ensures
        enmsv(ms).len() == ms.len(),
        forall|i: int| 0 <= i < ms.len() ==> #[trigger] enmsv(ms)[i] == enmv(ms[i]),
    decreases ms.len(),
{
    if ms.len() > 0 {
        lemma_enmsv_len(ms.drop_first());
        assert forall|i: int| 0 <= i < ms.len() implies #[trigger] enmsv(ms)[i] == enmv(ms[i]) by {
            if i > 0 {
                assert(ms.drop_first()[i - 1] == ms[i]);
            }
        }
    }
}

pub proof fn lemma_enmsv_eq(a: Seq<EnumMember>, b: Seq<EnumMember>)
    requires
        a.len() == b.len(),
        forall|j: int| 0 <= j < a.len() ==> enmv(#[trigger] a[j]) == enmv(b[j]),
    ensures
        enmsv(a) == enmsv(b),
    decreases a.len(),
{
    if a.len() > 0 {
        assert(enmv(a[0]) == enmv(b[0]));
        lemma_enmsv_eq(a.drop_first(), b.drop_first());
    }
}

pub proof fn lemma_enmsv_push(a: Seq<EnumMember>, m: EnumMember)
    ensures
        enmsv(a.push(m)) == enmsv(a).push(enmv(m)),
    decreases a.len(),
{
    if a.len() == 0 {
        let l = a.push(m);
        assert(l.drop_first() =~= Seq::<EnumMember>::empty());
        assert(enmsv(l.drop_first()) =~= Seq::empty());
        assert(enmsv(l) == seq![enmv(l[0])] + enmsv(l.drop_first()));
        assert(enmsv(l) =~= enmsv(a).push(enmv(m)));
    } else {
        assert(a.push(m).drop_first() =~= a.drop_first().push(m));
        lemma_enmsv_push(a.drop_first(), m);
        let l = a.push(m);
        assert(l[0] == a[0]);
        assert(enmsv(l) == seq![enmv(l[0])] + enmsv(l.drop_first()));
        assert(enmsv(a) == seq![enmv(a[0])] + enmsv(a.drop_first()));
        assert(enmsv(l) =~= enmsv(a).push(enmv(m)));
    }
}

impl Type {
    /// A copy of the type.
    pub fn dup(&self) -> (r: Type)
        ensures
            r@ == self@,
        decreases *self,
    {
        let kind = match &self.kind {
            TypeKind::Int => TypeKind::Int,
            TypeKind::Short => TypeKind::Short,
            TypeKind::Long => TypeKind::Long,
            TypeKind::Ptr { ptr_to } => TypeKind::Ptr { ptr_to: Box::new(ptr_to.dup()) },
            TypeKind::Array { ptr_to, len } => TypeKind::Array {
                ptr_to: Box::new(ptr_to.dup()),
                len: *len,
            },
            TypeKind::Char => TypeKind::Char,
            TypeKind::Struct { members } => TypeKind::Struct { members: dup_members(members) },
            TypeKind::Union { members } => TypeKind::Union { members: dup_members(members) },
            TypeKind::Enum { members } => TypeKind::Enum { members: dup_enum_members(members) },
        };
        Type { kind, size: self.size, align: self.align }
    }
}

impl Member {
    /// A copy of the member.
    pub fn dup(&self) -> (r: Member)
        ensures
            r@ == self@,
        decreases *self,
    {
        Member { name: self.name.clone(), ty: self.ty.dup(), offset: self.offset }
    }
}

impl EnumMember {
    /// A copy of the enum member.
    pub fn dup(&self) -> (r: EnumMember)
        ensures
            r@ == self@,
        decreases *self,
    {
        EnumMember { name: self.name.clone(), ty: self.ty.dup(), val: self.val }
    }
}

/// A copy of a list of members.
pub fn dup_members(ms: &Vec<Member>) -> (r: Vec<Member>)
    ensures
        memsv(r@) == memsv(ms@),
        r@.len() == ms@.len(),
        forall|j: int| 0 <= j < ms@.len() ==> #[trigger] r@[j]@ == ms@[j]@,
    decreases *ms,
{
    let mut v: Vec<Member> = Vec::new();
    let mut i: usize = 0;
    while i < ms.len()
        invariant
            i <= ms.len(),
            v@.len() == i,
            forall|j: int| 0 <= j < i ==> memv(#[trigger] v@[j]) == memv(ms@[j]),
        decreases ms.len() - i,
    {
        proof {
            assert(decreases_to!(*ms => ms@[i as int]));
        }
        v.push(ms[i].dup());
        i += 1;
    }
    proof {
        lemma_memsv_eq(v@, ms@);
    }
    v
}

/// A copy of a list of enum members.
pub fn dup_enum_members(ms: &Vec<EnumMember>) -> (r: Vec<EnumMember>)
    ensures
        enmsv(r@) == enmsv(ms@),
    decreases *ms,
{
    let mut v: Vec<EnumMember> = Vec::new();
    let mut i: usize = 0;
    while i < ms.len()
        invariant
            i <= ms.len(),
            v@.len() == i,
            forall|j: int| 0 <= j < i ==> enmv(#[trigger] v@[j]) == enmv(ms@[j]),
        decreases ms.len() - i,
    {
        proof {
            assert(decreases_to!(*ms => ms@[i as int]));
        }
        v.push(ms[i].dup());
        i += 1;
    }
    proof {
        lemma_enmsv_eq(v@, ms@);
    }
    v
}

//
// variable
//

#[derive(Debug)]
pub enum InitGval {
    Str(String),
    Num(isize),
}

/// A variable. Nodes and scopes refer to variables by their index in the
/// context's variable table (`Ctx::vars`), so that a stack offset given to a
/// variable is seen from every node that names it.
#[derive(Debug)]
pub struct Var {
    pub name: String,
    pub offset: usize,
    pub ty: Type,
    pub is_param: bool,
    pub is_local: bool,
    pub init_gval: Option<InitGval>,
}

pub enum InitGvalV {
    Str(Seq<char>),
    Num(isize),
}

pub struct VarV {
    pub name: Seq<char>,
    pub offset: usize,
    pub ty: TypeV,
    pub is_param: bool,
    pub is_local: bool,
    pub init_gval: Option<InitGvalV>,
}

pub open spec fn initv(g: InitGval) -> InitGvalV {
    match g {
        InitGval::Str(s) => InitGvalV::Str(s@),
        InitGval::Num(n) => InitGvalV::Num(n),
    }
}

pub open spec fn varv(v: Var) -> VarV {
    VarV {
        name: v.name@,
        offset: v.offset,
        ty: v.ty@,
        is_param: v.is_param,
        is_local: v.is_local,
        init_gval: match v.init_gval {
            Some(g) => Some(initv(g)),
            None => None,
        },
    }
}

impl View for Var {
    type V = VarV;

    open spec fn view(&self) -> VarV {
        varv(*self)
    }
}

//
// node
//

#[derive(Debug)]
#[allow(inconsistent_fields)]
pub enum NodeKind {
    Add { lhs: Box<Node>, rhs: Box<Node> },
    Sub { lhs: Box<Node>, rhs: Box<Node> },
    Mul { lhs: Box<Node>, rhs: Box<Node> },
    Div { lhs: Box<Node>, rhs: Box<Node> },
    Mod { lhs: Box<Node>, rhs: Box<Node> },
    Neg { lhs: Box<Node> },
    Eq { lhs: Box<Node>, rhs: Box<Node> },
    Ne { lhs: Box<Node>, rhs: Box<Node> },
    Lt { lhs: Box<Node>, rhs: Box<Node> },
    Le { lhs: Box<Node>, rhs: Box<Node> },
    Gt { lhs: Box<Node>, rhs: Box<Node> },
    Ge { lhs: Box<Node>, rhs: Box<Node> },
    And { lhs: Box<Node>, rhs: Box<Node> },
    Or { lhs: Box<Node>, rhs: Box<Node> },
    ExprStmt { lhs: Box<Node> },
    Num { val: isize },
    NdAssign { lhs: Box<Node>, rhs: Box<Node> },
    /// A variable, by its index in the context's variable table.
    Var { var: usize },
    Return { lhs: Box<Node> },
    Block { body: Vec<Node> },
    If { cond: Box<Node>, then: Box<Node>, els: Option<Box<Node>> },
    For { init: Box<Node>, cond: Option<Box<Node>>, inc: Option<Box<Node>>, body: Box<Node> },
    While { cond: Box<Node>, body: Box<Node> },
    Addr { lhs: Box<Node> },
    Deref { lhs: Box<Node>, tok: Token },
    FuncCall { name: String, args: Vec<Node> },
    GNUStmtExpr { body: Vec<Node> },
    BitAnd { lhs: Box<Node>, rhs: Box<Node> },
    BitXor { lhs: Box<Node>, rhs: Box<Node> },
    BitOr { lhs: Box<Node>, rhs: Box<Node> },
    Member { lhs: Box<Node>, member: Member },
    Cas { lhs: Box<Node> },
}

#[derive(Debug)]
pub struct Node {
    pub kind: NodeKind,
    pub ty: Option<Type>,
}

#[allow(inconsistent_fields)]
pub enum NodeKindV {
    Add { lhs: Box<NodeV>, rhs: Box<NodeV> },
    Sub { lhs: Box<NodeV>, rhs: Box<NodeV> },
    Mul { lhs: Box<NodeV>, rhs: Box<NodeV> },
    Div { lhs: Box<NodeV>, rhs: Box<NodeV> },
    Mod { lhs: Box<NodeV>, rhs: Box<NodeV> },
    Neg { lhs: Box<NodeV> },
    Eq { lhs: Box<NodeV>, rhs: Box<NodeV> },
    Ne { lhs: Box<NodeV>, rhs: Box<NodeV> },
    Lt { lhs: Box<NodeV>, rhs: Box<NodeV> },
    Le { lhs: Box<NodeV>, rhs: Box<NodeV> },
    Gt { lhs: Box<NodeV>, rhs: Box<NodeV> },
    Ge { lhs: Box<NodeV>, rhs: Box<NodeV> },
    And { lhs: Box<NodeV>, rhs: Box<NodeV> },
    Or { lhs: Box<NodeV>, rhs: Box<NodeV> },
    ExprStmt { lhs: Box<NodeV> },
    Num { val: isize },
    NdAssign { lhs: Box<NodeV>, rhs: Box<NodeV> },
    Var { var: usize },
    Return { lhs: Box<NodeV> },
    Block { body: Seq<NodeV> },
    If { cond: Box<NodeV>, then: Box<NodeV>, els: Option<Box<NodeV>> },
    For {
        init: Box<NodeV>,
        cond: Option<Box<NodeV>>,
        inc: Option<Box<NodeV>>,
        body: Box<NodeV>,
    },
    While { cond: Box<NodeV>, body: Box<NodeV> },
    Addr { lhs: Box<NodeV> },
    Deref { lhs: Box<NodeV>, tok: TokenV },
    FuncCall { name: Seq<char>, args: Seq<NodeV> },
    GNUStmtExpr { body: Seq<NodeV> },
    BitAnd { lhs: Box<NodeV>, rhs: Box<NodeV> },
    BitXor { lhs: Box<NodeV>, rhs: Box<NodeV> },
    BitOr { lhs: Box<NodeV>, rhs: Box<NodeV> },
    Member { lhs: Box<NodeV>, member: MemberV },
    Cas { lhs: Box<NodeV> },
}

pub struct NodeV {
    pub kind: NodeKindV,
    pub ty: Option<TypeV>,
}

pub open spec fn optyv(t: Option<Type>) -> Option<TypeV> {
    match t {
        Some(t) => Some(t@),
        None => None,
    }
}

pub open spec fn nodesv(ns: Seq<Node>) -> Seq<NodeV>
    decreases ns,
{
    if ns.len() == 0 {
        Seq::empty()
    } else {
        seq![nodev(ns[0])] + nodesv(ns.drop_first())
    }
}

pub open spec fn optnv(o: Option<Box<Node>>) -> Option<Box<NodeV>>
    decreases o,
{
    match o {
        Some(b) => Some(Box::new(nodev(*b))),
        None => None,
    }
}

pub open spec fn nodev(n: Node) -> NodeV
    decreases n,
{
    NodeV {
        kind: match n.kind {
            NodeKind::Add { lhs, rhs } => NodeKindV::Add {
                lhs: Box::new(nodev(*lhs)),
                rhs: Box::new(nodev(*rhs)),
            },
            NodeKind::Sub { lhs, rhs } => NodeKindV::Sub {
                lhs: Box::new(nodev(*lhs)),
                rhs: Box::new(nodev(*rhs)),
            },
            NodeKind::Mul { lhs, rhs } => NodeKindV::Mul {
                lhs: Box::new(nodev(*lhs)),
                rhs: Box::new(nodev(*rhs)),
            },
            NodeKind::Div { lhs, rhs } => NodeKindV::Div {
                lhs: Box::new(nodev(*lhs)),
                rhs: Box::new(nodev(*rhs)),
            },
            NodeKind::Mod { lhs, rhs } => NodeKindV::Mod {
                lhs: Box::new(nodev(*lhs)),
                rhs: Box::new(nodev(*rhs)),
            },
            NodeKind::Neg { lhs } => NodeKindV::Neg { lhs: Box::new(nodev(*lhs)) },
            NodeKind::Eq { lhs, rhs } => NodeKindV::Eq {
                lhs: Box::new(nodev(*lhs)),
                rhs: Box::new(nodev(*rhs)),
            },
            NodeKind::Ne { lhs, rhs } => NodeKindV::Ne {
                lhs: Box::new(nodev(*lhs)),
                rhs: Box::new(nodev(*rhs)),
            },
            NodeKind::Lt { lhs, rhs } => NodeKindV::Lt {
                lhs: Box::new(nodev(*lhs)),
                rhs: Box::new(nodev(*rhs)),
            },
            NodeKind::Le { lhs, rhs } => NodeKindV::Le {
                lhs: Box::new(nodev(*lhs)),
                rhs: Box::new(nodev(*rhs)),
            },
            NodeKind::Gt { lhs, rhs } => NodeKindV::Gt {
                lhs: Box::new(nodev(*lhs)),
                rhs: Box::new(nodev(*rhs)),
            },
            NodeKind::Ge { lhs, rhs } => NodeKindV::Ge {
                lhs: Box::new(nodev(*lhs)),
                rhs: Box::new(nodev(*rhs)),
            },
            NodeKind::And { lhs, rhs } => NodeKindV::And {
                lhs: Box::new(nodev(*lhs)),
                rhs: Box::new(nodev(*rhs)),
            },
            NodeKind::Or { lhs, rhs } => NodeKindV::Or {
                lhs: Box::new(nodev(*lhs)),
                rhs: Box::new(nodev(*rhs)),
            },
            NodeKind::ExprStmt { lhs } => NodeKindV::ExprStmt { lhs: Box::new(nodev(*lhs)) },
            NodeKind::Num { val } => NodeKindV::Num { val },
            NodeKind::NdAssign { lhs, rhs } => NodeKindV::NdAssign {
                lhs: Box::new(nodev(*lhs)),
                rhs: Box::new(nodev(*rhs)),
            },
            NodeKind::Var { var } => NodeKindV::Var { var },
            NodeKind::Return { lhs } => NodeKindV::Return { lhs: Box::new(nodev(*lhs)) },
            NodeKind::Block { body } => NodeKindV::Block { body: nodesv(body@) },
            NodeKind::If { cond, then, els } => NodeKindV::If {
                cond: Box::new(nodev(*cond)),
                then: Box::new(nodev(*then)),
                els: optnv(els),
            },
            NodeKind::For { init, cond, inc, body } => NodeKindV::For {
                init: Box::new(nodev(*init)),
                cond: optnv(cond),
                inc: optnv(inc),
                body: Box::new(nodev(*body)),
            },
            NodeKind::While { cond, body } => NodeKindV::While {
                cond: Box::new(nodev(*cond)),
                body: Box::new(nodev(*body)),
            },
            NodeKind::Addr { lhs } => NodeKindV::Addr { lhs: Box::new(nodev(*lhs)) },
            NodeKind::Deref { lhs, tok } => NodeKindV::Deref {
                lhs: Box::new(nodev(*lhs)),
                tok: tok@,
            },
            NodeKind::FuncCall { name, args } => NodeKindV::FuncCall {
                name: name@,
                args: nodesv(args@),
            },
            NodeKind::GNUStmtExpr { body } => NodeKindV::GNUStmtExpr { body: nodesv(body@) },
            NodeKind::BitAnd { lhs, rhs } => NodeKindV::BitAnd {
                lhs: Box::new(nodev(*lhs)),
                rhs: Box::new(nodev(*rhs)),
            },
            NodeKind::BitXor { lhs, rhs } => NodeKindV::BitXor {
                lhs: Box::new(nodev(*lhs)),
                rhs: Box::new(nodev(*rhs)),
            },
            NodeKind::BitOr { lhs, rhs } => NodeKindV::BitOr {
                lhs: Box::new(nodev(*lhs)),
                rhs: Box::new(nodev(*rhs)),
            },
            NodeKind::Member { lhs, member } => NodeKindV::Member {
                lhs: Box::new(nodev(*lhs)),
                member: member@,
            },
            NodeKind::Cas { lhs } => NodeKindV::Cas { lhs: Box::new(nodev(*lhs)) },
        },
        ty: optyv(n.ty),
    }
}

impl View for Node {
    type V = NodeV;

    open spec fn view(&self) -> NodeV {
        nodev(*self)
    }
}

pub proof fn lemma_nodesv_len(ns: Seq<Node>)
    ensures
        nodesv(ns).len() == ns.len(),
        forall|i: int| 0 <= i < ns.len() ==> #[trigger] nodesv(ns)[i] == nodev(ns[i]),
    decreases ns.len(),
{
    if ns.len() > 0 {
        lemma_nodesv_len(ns.drop_first());
        assert forall|i: int| 0 <= i < ns.len() implies #[trigger] nodesv(ns)[i] == nodev(ns[i]) by {
            if i > 0 {
                assert(ns.drop_first()[i - 1] == ns[i]);
            }
        }
    }
}

pub proof fn lemma_nodesv_eq(a: Seq<Node>, b: Seq<Node>)
    requires
        a.len() == b.len(),
        forall|j: int| 0 <= j < a.len() ==> nodev(#[trigger] a[j]) == nodev(b[j]),
    ensures
        nodesv(a) == nodesv(b),
    decreases a.len(),
{
    if a.len() > 0 {
        assert(nodev(a[0]) == nodev(b[0]));
        lemma_nodesv_eq(a.drop_first(), b.drop_first());
    }
}

pub proof fn lemma_nodesv_push(a: Seq<Node>, m: Node)
    ensures
        nodesv(a.push(m)) == nodesv(a).push(nodev(m)),
    decreases a.len(),
{
    if a.len() == 0 {
        let l = a.push(m);
        assert(l.drop_first() =~= Seq::<Node>::empty());
        assert(nodesv(l.drop_first()) =~= Seq::empty());
        assert(nodesv(l) == seq![nodev(l[0])] + nodesv(l.drop_first()));
        assert(nodesv(l) =~= nodesv(a).push(nodev(m)));
    } else {
        assert(a.push(m).drop_first() =~= a.drop_first().push(m));
        lemma_nodesv_push(a.drop_first(), m);
        let l = a.push(m);
        assert(l[0] == a[0]);
        assert(nodesv(l) == seq![nodev(l[0])] + nodesv(l.drop_first()));
        assert(nodesv(a) == seq![nodev(a[0])] + nodesv(a.drop_first()));
        assert(nodesv(l) =~= nodesv(a).push(nodev(m)));
    }
}

/// A copy of an optional type.
pub fn dup_opt_type(t: &Option<Type>) -> (r: Option<Type>)
    ensures
        optyv(r) == optyv(*t),
{
    match t {
        Some(t) => Some(t.dup()),
        None => None,
    }
}

fn dup_box(b: &Box<Node>) -> (r: Box<Node>)
    ensures
        nodev(*r) == nodev(**b),
    decreases **b, 1nat,
{
    Box::new((**b).dup())
}

fn dup_opt_box(o: &Option<Box<Node>>) -> (r: Option<Box<Node>>)
    ensures
        optnv(r) == optnv(*o),
    decreases *o, 1nat,
{
    match o {
        Some(b) => Some(Box::new((**b).dup())),
        None => None,
    }
}

/// A copy of a list of nodes.
pub fn dup_nodes(ns: &Vec<Node>) -> (r: Vec<Node>)
    ensures
        nodesv(r@) == nodesv(ns@),
    decreases *ns, 1nat,
{
    let mut v: Vec<Node> = Vec::new();
    let mut i: usize = 0;
    while i < ns.len()
        invariant
            i <= ns.len(),
            v@.len() == i,
            forall|j: int| 0 <= j < i ==> nodev(#[trigger] v@[j]) == nodev(ns@[j]),
        decreases ns.len() - i,
    {
        proof {
            assert(decreases_to!(*ns => ns@[i as int]));
        }
        v.push(ns[i].dup());
        i += 1;
    }
    proof {
        lemma_nodesv_eq(v@, ns@);
    }
    v
}

impl Node {
    /// A copy of the node and of the tree below it.
    pub fn dup(&self) -> (r: Node)
        ensures
            r@ == self@,
        decreases *self, 0nat,
    {
        let kind = match &self.kind {
            NodeKind::Add { lhs, rhs } => NodeKind::Add { lhs: dup_box(lhs), rhs: dup_box(rhs) },
            NodeKind::Sub { lhs, rhs } => NodeKind::Sub { lhs: dup_box(lhs), rhs: dup_box(rhs) },
            NodeKind::Mul { lhs, rhs } => NodeKind::Mul { lhs: dup_box(lhs), rhs: dup_box(rhs) },
            NodeKind::Div { lhs, rhs } => NodeKind::Div { lhs: dup_box(lhs), rhs: dup_box(rhs) },
            NodeKind::Mod { lhs, rhs } => NodeKind::Mod { lhs: dup_box(lhs), rhs: dup_box(rhs) },
            NodeKind::Neg { lhs } => NodeKind::Neg { lhs: dup_box(lhs) },
            NodeKind::Eq { lhs, rhs } => NodeKind::Eq { lhs: dup_box(lhs), rhs: dup_box(rhs) },
            NodeKind::Ne { lhs, rhs } => NodeKind::Ne { lhs: dup_box(lhs), rhs: dup_box(rhs) },
            NodeKind::Lt { lhs, rhs } => NodeKind::Lt { lhs: dup_box(lhs), rhs: dup_box(rhs) },
            NodeKind::Le { lhs, rhs } => NodeKind::Le { lhs: dup_box(lhs), rhs: dup_box(rhs) },
            NodeKind::Gt { lhs, rhs } => NodeKind::Gt { lhs: dup_box(lhs), rhs: dup_box(rhs) },
            NodeKind::Ge { lhs, rhs } => NodeKind::Ge { lhs: dup_box(lhs), rhs: dup_box(rhs) },
            NodeKind::And { lhs, rhs } => NodeKind::And { lhs: dup_box(lhs), rhs: dup_box(rhs) },
            NodeKind::Or { lhs, rhs } => NodeKind::Or { lhs: dup_box(lhs), rhs: dup_box(rhs) },
            NodeKind::ExprStmt { lhs } => NodeKind::ExprStmt { lhs: dup_box(lhs) },
            NodeKind::Num { val } => NodeKind::Num { val: *val },
            NodeKind::NdAssign { lhs, rhs } => NodeKind::NdAssign {
                lhs: dup_box(lhs),
                rhs: dup_box(rhs),
            },
            NodeKind::Var { var } => NodeKind::Var { var: *var },
            NodeKind::Return { lhs } => NodeKind::Return { lhs: dup_box(lhs) },
            NodeKind::Block { body } => NodeKind::Block { body: dup_nodes(body) },
            NodeKind::If { cond, then, els } => NodeKind::If {
                cond: dup_box(cond),
                then: dup_box(then),
                els: dup_opt_box(els),
            },
            NodeKind::For { init, cond, inc, body } => NodeKind::For {
                init: dup_box(init),
                cond: dup_opt_box(cond),
                inc: dup_opt_box(inc),
                body: dup_box(body),
            },
            NodeKind::While { cond, body } => NodeKind::While {
                cond: dup_box(cond),
                body: dup_box(body),
            },
            NodeKind::Addr { lhs } => NodeKind::Addr { lhs: dup_box(lhs) },
            NodeKind::Deref { lhs, tok } => NodeKind::Deref { lhs: dup_box(lhs), tok: tok.dup() },
            NodeKind::FuncCall { name, args } => NodeKind::FuncCall {
                name: name.clone(),
                args: dup_nodes(args),
            },
            NodeKind::GNUStmtExpr { body } => NodeKind::GNUStmtExpr { body: dup_nodes(body) },
            NodeKind::BitAnd { lhs, rhs } => NodeKind::BitAnd {
                lhs: dup_box(lhs),
                rhs: dup_box(rhs),
            },
            NodeKind::BitXor { lhs, rhs } => NodeKind::BitXor {
                lhs: dup_box(lhs),
                rhs: dup_box(rhs),
            },
            NodeKind::BitOr { lhs, rhs } => NodeKind::BitOr {
                lhs: dup_box(lhs),
                rhs: dup_box(rhs),
            },
            NodeKind::Member { lhs, member } => NodeKind::Member {
                lhs: dup_box(lhs),
                member: member.dup(),
            },
            NodeKind::Cas { lhs } => NodeKind::Cas { lhs: dup_box(lhs) },
        };
        Node { kind, ty: dup_opt_type(&self.ty) }
    }
}

//
// scopes, functions and the parsing context
//

#[derive(Debug)]
pub struct TypedefType {
    pub name: String,
    pub ty: Type,
}

#[derive(Debug)]
pub struct StructTag {
    pub tag: String,
    pub ty: Type,
}

#[derive(Debug)]
pub struct Enum {
    pub tag: String,
    pub ty: Type,
}

/// One block scope: the variables (by index in `Ctx::vars`), struct and union
/// tags, typedef names and enums declared in it, in declaration order.
#[derive(Debug)]
pub struct Scope {
    pub variables: Vec<usize>,
    pub tags: Vec<StructTag>,
    pub types: Vec<TypedefType>,
    pub enums: Vec<Enum>,
}

#[derive(Debug)]
pub struct Function {
    pub name: String,
    pub body: Option<Node>,
    pub args: Vec<Node>,
    pub ty: Type,
    /// The open scopes, outermost first.
    pub scopes: Vec<Scope>,
    /// The index of the innermost open scope (`-1` when none is open).
    pub scope_idx: isize,
    /// The scopes already closed, in the order they were closed.
    pub exited_scope: Vec<Scope>,
    pub is_def: bool,
}

/// The state of a compilation.
#[derive(Debug)]
pub struct Ctx {
    /// The whole source text.
    pub input: Vec<char>,
    /// How much of the source text the tokenizer has read.
    pub pos: usize,
    /// The tokens not yet parsed.
    pub tokens: Vec<Token>,
    /// The tokens already parsed, in order.
    pub consumed_tokens: Vec<Token>,
    /// The global variables, by index in `vars`, in order of creation.
    pub gvars: Vec<usize>,
    /// Every variable, local and global, in order of creation.
    pub vars: Vec<Var>,
    /// The name of the function being parsed.
    pub cur_func: String,
    pub cur_file: String,
    /// The functions declared or defined so far; no two have the same name.
    pub functions: Vec<Function>,
}

} // verus!
