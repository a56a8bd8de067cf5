//! Abstract syntax tree of Wispee source files, and its mathematical view.
//!
//! Every node has a view in which strings are `Seq<char>` and vectors are
//! `Seq`; the parser, the semantic analysis and the code generator are all
//! specified over these views.
use vstd::prelude::*;

verus! {

// ── Exec AST ─────────────────────────────────────────────────────────────────

/// Top-level items in a source file.
#[derive(Debug)]
pub enum Item {
    FnDef(FnDef),
    KernelDef(KernelDef),
    TypeAlias(TypeAlias),
    /// Agent identity/personality block — instructions injected into every context.
    SoulDef(SoulDef),
    /// Multi-step workflow, compiled like a `KernelDef`.
    SpellDef(SpellDef),
    /// Annotated capability function.
    SkillDef(SkillDef),
    /// Named persistent memory slot.
    MemoryDecl(MemoryDecl),
    /// External knowledge source stub.
    OracleDecl(OracleDecl),
    /// Named invariant guard block.
    ConstraintDef(ConstraintDef),
    /// Named static knowledge string.
    LoreDecl(LoreDecl),
    /// Module import.
    UseDecl(UseDecl),
    /// `struct Name { fields }` — named aggregate type.
    StructDef(StructDef),
    /// `enum Name { variants }` — tagged union type.
    EnumDef(EnumDef),
    /// `const NAME: Type = value;` — compile-time constant.
    ConstDef(ConstDef),
}

#[derive(Debug)]
pub struct FnDef {
    pub name: String,
    pub params: Vec<Param>,
    pub return_type: Option<TypeExpr>,
    pub body: Vec<Stmt>,
    pub is_pub: bool,
}

#[derive(Debug)]
pub struct KernelDef {
    pub name: String,
    pub params: Vec<Param>,
    pub return_type: TypeExpr,
    pub body: Vec<Stmt>,
    pub is_pub: bool,
}

#[derive(Debug)]
pub struct TypeAlias {
    pub name: String,
    pub def: TypeExpr,
    pub is_pub: bool,
}

/// `soul { stmt* }` — agent identity block.
#[derive(Debug)]
pub struct SoulDef {
    pub body: Vec<Stmt>,
}

/// `spell Name(params) -> T { body }`.
#[derive(Debug)]
pub struct SpellDef {
    pub name: String,
    pub params: Vec<Param>,
    pub ret: TypeExpr,
    pub body: Vec<Stmt>,
    pub is_pub: bool,
}

/// `[pub] skill Name(params) [-> T] { body }`.
#[derive(Debug)]
pub struct SkillDef {
    pub name: String,
    pub params: Vec<Param>,
    pub return_type: Option<TypeExpr>,
    pub body: Vec<Stmt>,
    pub is_pub: bool,
}

/// `memory Name: T = expr;`.
#[derive(Debug)]
pub struct MemoryDecl {
    pub name: String,
    pub ty: TypeExpr,
    pub init: Expr,
}

/// `oracle Name(params) -> T;`.
#[derive(Debug)]
pub struct OracleDecl {
    pub name: String,
    pub params: Vec<Param>,
    pub ret: TypeExpr,
    pub is_pub: bool,
}

/// `constraint Name { body }`.
#[derive(Debug)]
pub struct ConstraintDef {
    pub name: String,
    pub body: Vec<Stmt>,
    pub is_pub: bool,
}

/// `lore Name = "text";`.
#[derive(Debug)]
pub struct LoreDecl {
    pub name: String,
    pub value: String,
    pub is_pub: bool,
}

/// `use "path";`.
#[derive(Debug)]
pub struct UseDecl {
    pub path: String,
}

/// `struct Name { field: Type, ... }`.
#[derive(Debug)]
pub struct StructDef {
    pub name: String,
    pub fields: Vec<StructField>,
    pub is_pub: bool,
}

#[derive(Debug)]
pub struct StructField {
    pub name: String,
    pub ty: TypeExpr,
}

/// `enum Name { VariantA, VariantB(T), ... }`.
#[derive(Debug)]
pub struct EnumDef {
    pub name: String,
    pub variants: Vec<EnumVariant>,
    pub is_pub: bool,
}

#[derive(Debug)]
pub struct EnumVariant {
    pub name: String,
    pub payload: Option<TypeExpr>,
}

/// `const NAME: Type = value;`.
#[derive(Debug)]
pub struct ConstDef {
    pub name: String,
    pub ty: TypeExpr,
    pub value: Expr,
    pub is_pub: bool,
}

#[derive(Debug)]
pub struct Param {
    pub name: String,
    pub ty: TypeExpr,
}

#[derive(Debug)]
pub enum TypeExpr {
    Named(String),
    Semantic(Vec<String>),
    Primitive(PrimType),
    /// `Vec<T>` — dynamic array type.
    Vec(Box<TypeExpr>),
}

#[derive(Debug, Clone, Copy, PartialEq, Eq, Structural)]
pub enum PrimType {
    Str,
    Bool,
    U32,
    F32,
}

#[derive(Debug)]
pub enum Stmt {
    /// `let [mut] name [: type] = expr;` — name, type, initialiser, mutability.
    Let(String, Option<TypeExpr>, Option<Expr>, bool),
    Return(Expr),
    Expr(Expr),
    Branch(BranchStmt),
    /// An interruptible block — a safe interaction point the VM can checkpoint.
    Interruptible(Vec<Stmt>),
    /// Injects a literal string into the active context.
    Instruction(String),
    /// `apply ConstraintName;` — inline a named constraint body here.
    Apply(String),
    If { condition: Expr, then_branch: Vec<Stmt>, else_branch: Option<Vec<Stmt>> },
    Loop(Vec<Stmt>),
    While { condition: Expr, body: Vec<Stmt> },
    For { item: String, collection: Expr, body: Vec<Stmt> },
    /// `x = expr;` — reassignment of a mutable variable.
    Assign(String, Expr),
}

#[derive(Debug)]
pub struct BranchStmt {
    pub var: String,
    pub cases: Vec<BranchCase>,
    pub default: Option<Vec<Stmt>>,
}

/// One case of a probabilistic branch. The confidence threshold is kept as
/// the decimal literal written in the source (digits, a dot, digits; or
/// digits alone when it was written as an integer).
#[derive(Debug)]
pub struct BranchCase {
    pub label: String,
    pub confidence: String,
    pub body: Vec<Stmt>,
}

#[derive(Debug)]
pub enum Expr {
    Call(String, Vec<Expr>),
    Ident(String),
    StringLit(String),
    IntLit(u64),
    /// A decimal literal with a fractional part, kept as written.
    FloatLit(String),
    BoolLit(bool),
    BinOp(Box<Expr>, BinOp, Box<Expr>),
    Break,
    Continue,
    Tuple(Vec<Expr>),
    VecLit(Vec<Expr>),
    Index(Box<Expr>, Box<Expr>),
    FieldAccess(Box<Expr>, String),
    StructConstruct { name: String, fields: Vec<(String, Expr)> },
    EnumVariant { variant: String, payload: Option<Box<Expr>> },
}

#[derive(Debug, Clone, Copy, PartialEq, Eq, Structural)]
pub enum BinOp {
    NotEq,
    Eq,
    Gt,
    Lt,
    And,
    Or,
    Add,
    Sub,
    Mul,
    Div,
    Mod,
}

// ── Views ────────────────────────────────────────────────────────────────────

pub enum TypeExprV {
    Named(Seq<char>),
    Semantic(Seq<Seq<char>>),
    Primitive(PrimType),
    Vec(Box<TypeExprV>),
}

pub enum ExprV {
    Call(Seq<char>, Seq<ExprV>),
    Ident(Seq<char>),
    StringLit(Seq<char>),
    IntLit(u64),
    FloatLit(Seq<char>),
    BoolLit(bool),
    BinOp(Box<ExprV>, BinOp, Box<ExprV>),
    Break,
    Continue,
    Tuple(Seq<ExprV>),
    VecLit(Seq<ExprV>),
    Index(Box<ExprV>, Box<ExprV>),
    FieldAccess(Box<ExprV>, Seq<char>),
    StructConstruct { name: Seq<char>, fields: Seq<(Seq<char>, ExprV)> },
    EnumVariant { variant: Seq<char>, payload: Option<Box<ExprV>> },
}

pub struct BranchCaseV {
    pub label: Seq<char>,
    pub confidence: Seq<char>,
    pub body: Seq<StmtV>,
}

pub enum StmtV {
    Let(Seq<char>, Option<TypeExprV>, Option<ExprV>, bool),
    Return(ExprV),
    Expr(ExprV),
    Branch { var: Seq<char>, cases: Seq<BranchCaseV>, default: Option<Seq<StmtV>> },
    Interruptible(Seq<StmtV>),
    Instruction(Seq<char>),
    Apply(Seq<char>),
    If { condition: ExprV, then_branch: Seq<StmtV>, else_branch: Option<Seq<StmtV>> },
    Loop(Seq<StmtV>),
    While { condition: ExprV, body: Seq<StmtV> },
    For { item: Seq<char>, collection: ExprV, body: Seq<StmtV> },
    Assign(Seq<char>, ExprV),
}

pub struct ParamV {
    pub name: Seq<char>,
    pub ty: TypeExprV,
}

#[allow(inconsistent_fields)]
pub enum ItemV {
    FnDef { name: Seq<char>, params: Seq<ParamV>, return_type: Option<TypeExprV>, body: Seq<StmtV>, is_pub: bool },
    KernelDef { name: Seq<char>, params: Seq<ParamV>, return_type: TypeExprV, body: Seq<StmtV>, is_pub: bool },
    TypeAlias { name: Seq<char>, def: TypeExprV, is_pub: bool },
    SoulDef { body: Seq<StmtV> },
    SpellDef { name: Seq<char>, params: Seq<ParamV>, ret: TypeExprV, body: Seq<StmtV>, is_pub: bool },
    SkillDef { name: Seq<char>, params: Seq<ParamV>, return_type: Option<TypeExprV>, body: Seq<StmtV>, is_pub: bool },
    MemoryDecl { name: Seq<char>, ty: TypeExprV, init: ExprV },
    OracleDecl { name: Seq<char>, params: Seq<ParamV>, ret: TypeExprV, is_pub: bool },
    ConstraintDef { name: Seq<char>, body: Seq<StmtV>, is_pub: bool },
    LoreDecl { name: Seq<char>, value: Seq<char>, is_pub: bool },
    UseDecl { path: Seq<char> },
    StructDef { name: Seq<char>, fields: Seq<(Seq<char>, TypeExprV)>, is_pub: bool },
    EnumDef { name: Seq<char>, variants: Seq<(Seq<char>, Option<TypeExprV>)>, is_pub: bool },
    ConstDef { name: Seq<char>, ty: TypeExprV, value: ExprV, is_pub: bool },
}

pub open spec fn strings_view(s: Seq<String>) -> Seq<Seq<char>> {
    s.map_values(|x: String| x@)
}

pub open spec fn type_view(t: TypeExpr) -> TypeExprV
    decreases t,
{
    match t {
        TypeExpr::Named(n) => TypeExprV::Named(n@),
        TypeExpr::Semantic(ls) => TypeExprV::Semantic(strings_view(ls@)),
        TypeExpr::Primitive(p) => TypeExprV::Primitive(p),
        TypeExpr::Vec(inner) => TypeExprV::Vec(Box::new(type_view(*inner))),
    }
}

pub open spec fn opt_type_view(t: Option<TypeExpr>) -> Option<TypeExprV> {
    match t {
        Some(t) => Some(type_view(t)),
        None => None,
    }
}

pub open spec fn expr_view(e: Expr) -> ExprV
    decreases e,
{
    match e {
        Expr::Call(n, args) => ExprV::Call(n@, exprs_view(args@)),
        Expr::Ident(n) => ExprV::Ident(n@),
        Expr::StringLit(s) => ExprV::StringLit(s@),
        Expr::IntLit(n) => ExprV::IntLit(n),
        Expr::FloatLit(s) => ExprV::FloatLit(s@),
        Expr::BoolLit(b) => ExprV::BoolLit(b),
        Expr::BinOp(l, op, r) => ExprV::BinOp(Box::new(expr_view(*l)), op, Box::new(expr_view(*r))),
        Expr::Break => ExprV::Break,
        Expr::Continue => ExprV::Continue,
        Expr::Tuple(es) => ExprV::Tuple(exprs_view(es@)),
        Expr::VecLit(es) => ExprV::VecLit(exprs_view(es@)),
        Expr::Index(b, i) => ExprV::Index(Box::new(expr_view(*b)), Box::new(expr_view(*i))),
        Expr::FieldAccess(b, f) => ExprV::FieldAccess(Box::new(expr_view(*b)), f@),
        Expr::StructConstruct { name, fields } => ExprV::StructConstruct {
            name: name@,
            fields: fields_view(fields@),
        },
        Expr::EnumVariant { variant, payload } => ExprV::EnumVariant {
            variant: variant@,
            payload: match payload {
                Some(p) => Some(Box::new(expr_view(*p))),
                None => None,
            },
        },
    }
}

pub open spec fn exprs_view(es: Seq<Expr>) -> Seq<ExprV>
    decreases es,
{
    if es.len() == 0 {
        Seq::empty()
    } else {
        seq![expr_view(es[0])] + exprs_view(es.subrange(1, es.len() as int))
    }
}

pub open spec fn fields_view(fs: Seq<(String, Expr)>) -> Seq<(Seq<char>, ExprV)>
    decreases fs,
{
    if fs.len() == 0 {
        Seq::empty()
    } else {
        seq![(fs[0].0@, expr_view(fs[0].1))] + fields_view(fs.subrange(1, fs.len() as int))
    }
}

pub open spec fn stmt_view(s: Stmt) -> StmtV
    decreases s,
{
    match s {
        Stmt::Let(n, t, e, m) => StmtV::Let(
            n@,
            opt_type_view(t),
            match e {
                Some(e) => Some(expr_view(e)),
                None => None,
            },
            m,
        ),
        Stmt::Return(e) => StmtV::Return(expr_view(e)),
        Stmt::Expr(e) => StmtV::Expr(expr_view(e)),
        Stmt::Branch(b) => StmtV::Branch {
            var: b.var@,
            cases: cases_view(b.cases@),
            default: match b.default {
                Some(d) => Some(block_view(d@)),
                None => None,
            },
        },
        Stmt::Interruptible(b) => StmtV::Interruptible(block_view(b@)),
        Stmt::Instruction(t) => StmtV::Instruction(t@),
        Stmt::Apply(n) => StmtV::Apply(n@),
        Stmt::If { condition, then_branch, else_branch } => StmtV::If {
            condition: expr_view(condition),
            then_branch: block_view(then_branch@),
            else_branch: match else_branch {
                Some(b) => Some(block_view(b@)),
                None => None,
            },
        },
        Stmt::Loop(b) => StmtV::Loop(block_view(b@)),
        Stmt::While { condition, body } => StmtV::While {
            condition: expr_view(condition),
            body: block_view(body@),
        },
        Stmt::For { item, collection, body } => StmtV::For {
            item: item@,
            collection: expr_view(collection),
            body: block_view(body@),
        },
        Stmt::Assign(n, e) => StmtV::Assign(n@, expr_view(e)),
    }
}

pub open spec fn block_view(b: Seq<Stmt>) -> Seq<StmtV>
    decreases b,
{
    if b.len() == 0 {
        Seq::empty()
    } else {
        seq![stmt_view(b[0])] + block_view(b.subrange(1, b.len() as int))
    }
}

pub open spec fn cases_view(cs: Seq<BranchCase>) -> Seq<BranchCaseV>
    decreases cs,
{
    if cs.len() == 0 {
        Seq::empty()
    } else {
        seq![
            BranchCaseV {
                label: cs[0].label@,
                confidence: cs[0].confidence@,
                body: block_view(cs[0].body@),
            },
        ] + cases_view(cs.subrange(1, cs.len() as int))
    }
}

pub open spec fn params_view(ps: Seq<Param>) -> Seq<ParamV> {
    ps.map_values(|p: Param| ParamV { name: p.name@, ty: type_view(p.ty) })
}

pub open spec fn item_view(i: Item) -> ItemV {
    match i {
        Item::FnDef(f) => ItemV::FnDef {
            name: f.name@,
            params: params_view(f.params@),
            return_type: opt_type_view(f.return_type),
            body: block_view(f.body@),
            is_pub: f.is_pub,
        },
        Item::KernelDef(k) => ItemV::KernelDef {
            name: k.name@,
            params: params_view(k.params@),
            return_type: type_view(k.return_type),
            body: block_view(k.body@),
            is_pub: k.is_pub,
        },
        Item::TypeAlias(t) => ItemV::TypeAlias { name: t.name@, def: type_view(t.def), is_pub: t.is_pub },
        Item::SoulDef(s) => ItemV::SoulDef { body: block_view(s.body@) },
        Item::SpellDef(s) => ItemV::SpellDef {
            name: s.name@,
            params: params_view(s.params@),
            ret: type_view(s.ret),
            body: block_view(s.body@),
            is_pub: s.is_pub,
        },
        Item::SkillDef(s) => ItemV::SkillDef {
            name: s.name@,
            params: params_view(s.params@),
            return_type: opt_type_view(s.return_type),
            body: block_view(s.body@),
            is_pub: s.is_pub,
        },
        Item::MemoryDecl(m) => ItemV::MemoryDecl { name: m.name@, ty: type_view(m.ty), init: expr_view(m.init) },
        Item::OracleDecl(o) => ItemV::OracleDecl {
            name: o.name@,
            params: params_view(o.params@),
            ret: type_view(o.ret),
            is_pub: o.is_pub,
        },
        Item::ConstraintDef(c) => ItemV::ConstraintDef { name: c.name@, body: block_view(c.body@), is_pub: c.is_pub },
        Item::LoreDecl(l) => ItemV::LoreDecl { name: l.name@, value: l.value@, is_pub: l.is_pub },
        Item::UseDecl(u) => ItemV::UseDecl { path: u.path@ },
        Item::StructDef(s) => ItemV::StructDef {
            name: s.name@,
            fields: s.fields@.map_values(|f: StructField| (f.name@, type_view(f.ty))),
            is_pub: s.is_pub,
        },
        Item::EnumDef(e) => ItemV::EnumDef {
            name: e.name@,
            variants: e.variants@.map_values(|v: EnumVariant| (v.name@, opt_type_view(v.payload))),
            is_pub: e.is_pub,
        },
        Item::ConstDef(c) => ItemV::ConstDef {
            name: c.name@,
            ty: type_view(c.ty),
            value: expr_view(c.value),
            is_pub: c.is_pub,
        },
    }
}

pub open spec fn items_view(items: Seq<Item>) -> Seq<ItemV> {
    items.map_values(|i: Item| item_view(i))
}

// ── Lemmas on sequence views ─────────────────────────────────────────────────

pub proof fn lemma_exprs_view_push(s: Seq<Expr>, x: Expr)
    ensures
        exprs_view(s.push(x)) == exprs_view(s).push(expr_view(x)),
    decreases s.len(),
{
    if s.len() == 0 {
        assert(s.push(x).subrange(1, 1) =~= Seq::<Expr>::empty());
        assert(exprs_view(Seq::<Expr>::empty()) =~= Seq::empty());
        assert(s.push(x)[0] == x);
        assert(exprs_view(s.push(x)) =~= seq![expr_view(x)]);
    } else {
        assert(s.push(x).subrange(1, s.len() as int + 1) =~= s.subrange(1, s.len() as int).push(x));
        lemma_exprs_view_push(s.subrange(1, s.len() as int), x);
        assert(exprs_view(s.push(x)) =~= exprs_view(s).push(expr_view(x)));
    }
}

pub proof fn lemma_exprs_view_index(s: Seq<Expr>)
    ensures
        exprs_view(s).len() == s.len(),
        forall|i: int| 0 <= i < s.len() ==> #[trigger] exprs_view(s)[i] == expr_view(s[i]),
    decreases s.len(),
{
    if s.len() > 0 {
        lemma_exprs_view_index(s.subrange(1, s.len() as int));
        assert forall|i: int| 0 <= i < s.len() implies #[trigger] exprs_view(s)[i] == expr_view(s[i]) by {
            if i > 0 {
                assert(s.subrange(1, s.len() as int)[i - 1] == s[i]);
            }
        }
    }
}

pub proof fn lemma_fields_view_push(s: Seq<(String, Expr)>, x: (String, Expr))
    ensures
        fields_view(s.push(x)) == fields_view(s).push((x.0@, expr_view(x.1))),
    decreases s.len(),
{
    if s.len() == 0 {
        assert(s.push(x).subrange(1, 1) =~= Seq::<(String, Expr)>::empty());
        assert(fields_view(Seq::<(String, Expr)>::empty()) =~= Seq::empty());
        assert(s.push(x)[0] == x);
        assert(fields_view(s.push(x)) =~= seq![(x.0@, expr_view(x.1))]);
    } else {
        assert(s.push(x).subrange(1, s.len() as int + 1) =~= s.subrange(1, s.len() as int).push(x));
        lemma_fields_view_push(s.subrange(1, s.len() as int), x);
        assert(fields_view(s.push(x)) =~= fields_view(s).push((x.0@, expr_view(x.1))));
    }
}

pub proof fn lemma_block_view_push(s: Seq<Stmt>, x: Stmt)
    ensures
        block_view(s.push(x)) == block_view(s).push(stmt_view(x)),
    decreases s.len(),
{
    if s.len() == 0 {
        assert(s.push(x).subrange(1, 1) =~= Seq::<Stmt>::empty());
        assert(block_view(Seq::<Stmt>::empty()) =~= Seq::empty());
        assert(s.push(x)[0] == x);
        assert(block_view(s.push(x)) =~= seq![stmt_view(x)]);
    } else {
        assert(s.push(x).subrange(1, s.len() as int + 1) =~= s.subrange(1, s.len() as int).push(x));
        lemma_block_view_push(s.subrange(1, s.len() as int), x);
        assert(block_view(s.push(x)) =~= block_view(s).push(stmt_view(x)));
    }
}

pub proof fn lemma_block_view_index(s: Seq<Stmt>)
    ensures
        block_view(s).len() == s.len(),
        forall|i: int| 0 <= i < s.len() ==> #[trigger] block_view(s)[i] == stmt_view(s[i]),
    decreases s.len(),
{
    if s.len() > 0 {
        lemma_block_view_index(s.subrange(1, s.len() as int));
        assert forall|i: int| 0 <= i < s.len() implies #[trigger] block_view(s)[i] == stmt_view(s[i]) by {
            if i > 0 {
                assert(s.subrange(1, s.len() as int)[i - 1] == s[i]);
            }
        }
    }
}

pub proof fn lemma_cases_view_push(s: Seq<BranchCase>, x: BranchCase)
    ensures
        cases_view(s.push(x)) == cases_view(s).push(
            BranchCaseV { label: x.label@, confidence: x.confidence@, body: block_view(x.body@) },
        ),
    decreases s.len(),
{
    let xv = BranchCaseV { label: x.label@, confidence: x.confidence@, body: block_view(x.body@) };
    if s.len() == 0 {
        assert(s.push(x).subrange(1, 1) =~= Seq::<BranchCase>::empty());
        assert(cases_view(Seq::<BranchCase>::empty()) =~= Seq::empty());
        assert(s.push(x)[0] == x);
        assert(cases_view(s.push(x)) =~= seq![xv]);
    } else {
        assert(s.push(x).subrange(1, s.len() as int + 1) =~= s.subrange(1, s.len() as int).push(x));
        lemma_cases_view_push(s.subrange(1, s.len() as int), x);
        assert(cases_view(s.push(x)) =~= cases_view(s).push(xv));
    }
}

pub proof fn lemma_cases_view_index(s: Seq<BranchCase>)
    ensures
        cases_view(s).len() == s.len(),
        forall|i: int| 0 <= i < s.len() ==> #[trigger] cases_view(s)[i] == (BranchCaseV {
            label: s[i].label@,
            confidence: s[i].confidence@,
            body: block_view(s[i].body@),
        }),
    decreases s.len(),
{
    if s.len() > 0 {
        lemma_cases_view_index(s.subrange(1, s.len() as int));
        assert forall|i: int| 0 <= i < s.len() implies #[trigger] cases_view(s)[i] == (BranchCaseV {
            label: s[i].label@,
            confidence: s[i].confidence@,
            body: block_view(s[i].body@),
        }) by {
            if i > 0 {
                assert(s.subrange(1, s.len() as int)[i - 1] == s[i]);
            }
        }
    }
}

pub proof fn lemma_fields_view_index(s: Seq<(String, Expr)>)
    ensures
        fields_view(s).len() == s.len(),
        forall|i: int| 0 <= i < s.len() ==> #[trigger] fields_view(s)[i] == (s[i].0@, expr_view(s[i].1)),
    decreases s.len(),
{
    if s.len() > 0 {
        lemma_fields_view_index(s.subrange(1, s.len() as int));
        assert forall|i: int| 0 <= i < s.len() implies #[trigger] fields_view(s)[i] == (s[i].0@, expr_view(s[i].1)) by {
            if i > 0 {
                assert(s.subrange(1, s.len() as int)[i - 1] == s[i]);
            }
        }
    }
}

} // verus!
