//! Semantic analysis: name resolution, compile-time constants and the tables
//! that code generation reads.
//!
//! The `spec` functions below state the analysis over the view of the items;
//! [`analyze`] computes exactly that.
use vstd::prelude::*;
use crate::ast::{
    Item, Stmt, Expr, BinOp, TypeExpr, StructField, EnumVariant, Param, TypeExprV, ExprV, StmtV, BranchCaseV,
    ParamV, ItemV, type_view, expr_view, exprs_view, fields_view, stmt_view, block_view, cases_view, params_view,
    item_view, items_view, strings_view, lemma_exprs_view_index, lemma_fields_view_index, lemma_block_view_index,
    lemma_cases_view_index,
};
use crate::table::{Table, bindings_map};
use crate::text::str_eq;

verus! {

// ── Compile-time constants ───────────────────────────────────────────────────

/// A compile-time constant value. A decimal constant is kept as written.
#[derive(Debug)]
pub enum ConstValue {
    Int(i64),
    Float(String),
    Bool(bool),
    Str(String),
}

pub enum ConstV {
    Int(i64),
    Float(Seq<char>),
    Bool(bool),
    Str(Seq<char>),
}

pub open spec fn const_view(c: ConstValue) -> ConstV {
    match c {
        ConstValue::Int(n) => ConstV::Int(n),
        ConstValue::Float(s) => ConstV::Float(s@),
        ConstValue::Bool(b) => ConstV::Bool(b),
        ConstValue::Str(s) => ConstV::Str(s@),
    }
}

pub open spec fn const_map(t: Map<Seq<char>, ConstValue>) -> Map<Seq<char>, ConstV> {
    t.map_values(|c: ConstValue| const_view(c))
}

/// A binary operation on constants. Integer arithmetic that leaves the range
/// of `i64`, and every operation on decimal constants, gives no constant.
pub open spec fn const_binop(op: BinOp, l: ConstV, r: ConstV) -> Option<ConstV> {
    match l {
        ConstV::Int(a) => match r {
            ConstV::Int(b) => int_const_binop(op, a, b),
            _ => None,
        },
        ConstV::Bool(a) => match r {
            ConstV::Bool(b) => match op {
                BinOp::And => Some(ConstV::Bool(a && b)),
                BinOp::Or => Some(ConstV::Bool(a || b)),
                _ => None,
            },
            _ => None,
        },
        ConstV::Str(a) => match r {
            ConstV::Str(b) => match op {
                BinOp::Eq => Some(ConstV::Bool(a == b)),
                BinOp::NotEq => Some(ConstV::Bool(a != b)),
                _ => None,
            },
            _ => None,
        },
        ConstV::Float(_) => None,
    }
}

pub open spec fn int_const_binop(op: BinOp, a: i64, b: i64) -> Option<ConstV> {
    match op {
        BinOp::Add => match a.checked_add(b) {
            Some(c) => Some(ConstV::Int(c)),
            None => None,
        },
        BinOp::Sub => match a.checked_sub(b) {
            Some(c) => Some(ConstV::Int(c)),
            None => None,
        },
        BinOp::Mul => match a.checked_mul(b) {
            Some(c) => Some(ConstV::Int(c)),
            None => None,
        },
        BinOp::Div => match a.checked_div(b) {
            Some(c) => Some(ConstV::Int(c)),
            None => None,
        },
        BinOp::Mod => match a.checked_rem(b) {
            Some(c) => Some(ConstV::Int(c)),
            None => None,
        },
        BinOp::Eq => Some(ConstV::Bool(a == b)),
        BinOp::NotEq => Some(ConstV::Bool(a != b)),
        BinOp::Gt => Some(ConstV::Bool(a > b)),
        BinOp::Lt => Some(ConstV::Bool(a < b)),
        _ => None,
    }
}

/// The value of an expression at compile time, given the constants known so far.
pub open spec fn eval_const(e: ExprV, known: Map<Seq<char>, ConstV>) -> Option<ConstV>
    decreases e,
{
    match e {
        ExprV::IntLit(n) => Some(ConstV::Int(n as i64)),
        ExprV::FloatLit(s) => Some(ConstV::Float(s)),
        ExprV::BoolLit(b) => Some(ConstV::Bool(b)),
        ExprV::StringLit(s) => Some(ConstV::Str(s)),
        ExprV::Ident(n) => if known.contains_key(n) {
            Some(known[n])
        } else {
            None
        },
        ExprV::BinOp(l, op, r) => match eval_const(*l, known) {
            Some(a) => match eval_const(*r, known) {
                Some(b) => const_binop(op, a, b),
                None => None,
            },
            None => None,
        },
        _ => None,
    }
}

/// Constant evaluation of integers is integer arithmetic: when both operands
/// of a binary expression evaluate to integers `a` and `b`, `+`, `-` and `*`
/// give `a + b`, `a - b` and `a * b` whenever the result is a signed 64-bit
/// integer (and no value otherwise); `/` and `%` on a non-negative `a` and a
/// positive `b` give the quotient and remainder; `>`, `<`, `==` and `!=`
/// give whether `a` stands in that relation to `b`.
pub proof fn law_const_int_arithmetic(
    l: ExprV,
    op: BinOp,
    r: ExprV,
    known: Map<Seq<char>, ConstV>,
    a: i64,
    b: i64,
)
    requires
        eval_const(l, known) == Some(ConstV::Int(a)),
        eval_const(r, known) == Some(ConstV::Int(b)),
    ensures
        ({
            let v = eval_const(ExprV::BinOp(Box::new(l), op, Box::new(r)), known);
            let fits = |x: int| i64::MIN <= x <= i64::MAX;
            &&& op == BinOp::Add ==> v == if fits(a + b) { Some(ConstV::Int((a + b) as i64)) } else { None }
            &&& op == BinOp::Sub ==> v == if fits(a - b) { Some(ConstV::Int((a - b) as i64)) } else { None }
            &&& op == BinOp::Mul ==> v == if fits(a * b) { Some(ConstV::Int((a * b) as i64)) } else { None }
            &&& op == BinOp::Div && a >= 0 && b > 0 ==> v == Some(ConstV::Int(((a as int) / (b as int)) as i64))
            &&& op == BinOp::Mod && a >= 0 && b > 0 ==> v == Some(ConstV::Int(((a as int) % (b as int)) as i64))
            &&& op == BinOp::Gt ==> v == Some(ConstV::Bool(a > b))
            &&& op == BinOp::Lt ==> v == Some(ConstV::Bool(a < b))
            &&& op == BinOp::Eq ==> v == Some(ConstV::Bool(a == b))
            &&& op == BinOp::NotEq ==> v == Some(ConstV::Bool(a != b))
        }),
{
    if a >= 0 && b > 0 {
        let (x, d) = (a as int, b as int);
        assert(0 <= x / d <= x) by (nonlinear_arith)
            requires
                x >= 0,
                d > 0,
        ;
        assert(0 <= x % d < d) by (nonlinear_arith)
            requires
                x >= 0,
                d > 0,
        ;
        assert(x == 0 ==> x % d == 0 && x / d == 0) by (nonlinear_arith)
            requires
                x >= 0,
                d > 0,
        ;
    }
}

/// Constant evaluation of booleans: `&&` and `||` on booleans `a` and `b`
/// give `a && b` and `a || b`.
pub proof fn law_const_bool_logic(l: ExprV, op: BinOp, r: ExprV, known: Map<Seq<char>, ConstV>, a: bool, b: bool)
    requires
        eval_const(l, known) == Some(ConstV::Bool(a)),
        eval_const(r, known) == Some(ConstV::Bool(b)),
    ensures
        op == BinOp::And ==> eval_const(ExprV::BinOp(Box::new(l), op, Box::new(r)), known) == Some(ConstV::Bool(a && b)),
        op == BinOp::Or ==> eval_const(ExprV::BinOp(Box::new(l), op, Box::new(r)), known) == Some(ConstV::Bool(a || b)),
{
}

/// Constant evaluation of texts: `==` and `!=` on strings give whether they
/// are equal.
pub proof fn law_const_text_equality(
    l: ExprV,
    op: BinOp,
    r: ExprV,
    known: Map<Seq<char>, ConstV>,
    a: Seq<char>,
    b: Seq<char>,
)
    requires
        eval_const(l, known) == Some(ConstV::Str(a)),
        eval_const(r, known) == Some(ConstV::Str(b)),
    ensures
        op == BinOp::Eq ==> eval_const(ExprV::BinOp(Box::new(l), op, Box::new(r)), known) == Some(ConstV::Bool(a == b)),
        op == BinOp::NotEq ==> eval_const(ExprV::BinOp(Box::new(l), op, Box::new(r)), known) == Some(ConstV::Bool(a != b)),
{
}

/// One pass over the items from `i`: each `const` whose name is not known yet
/// and whose value can now be evaluated becomes known. Also tells whether one did.
pub open spec fn const_round(items: Seq<ItemV>, i: int, known: Map<Seq<char>, ConstV>) -> (
    Map<Seq<char>, ConstV>,
    bool,
)
    decreases items.len() - i,
{
    if i < 0 || i >= items.len() {
        (known, false)
    } else {
        match items[i] {
            ItemV::ConstDef { name, value, .. } => if !known.contains_key(name) && eval_const(value, known) is Some {
                let (k2, _) = const_round(items, i + 1, known.insert(name, eval_const(value, known)->0));
                (k2, true)
            } else {
                const_round(items, i + 1, known)
            },
            _ => const_round(items, i + 1, known),
        }
    }
}

/// Passes are repeated while one makes progress (at most `fuel` more times).
pub open spec fn const_fix(items: Seq<ItemV>, known: Map<Seq<char>, ConstV>, fuel: nat) -> Map<Seq<char>, ConstV>
    decreases fuel,
{
    let (k2, changed) = const_round(items, 0, known);
    if !changed || fuel == 0 {
        k2
    } else {
        const_fix(items, k2, (fuel - 1) as nat)
    }
}

/// The constants of a program. A pass that makes progress makes one more
/// `const` known, so `items.len()` repetitions are enough to reach the point
/// where a pass changes nothing.
pub open spec fn spec_consts(items: Seq<ItemV>) -> Map<Seq<char>, ConstV> {
    const_fix(items, Map::empty(), items.len())
}

// ── Declared names and tables ────────────────────────────────────────────────

#[derive(Clone, Copy)]
pub enum NameKind {
    /// `fn`, `kernel`, `skill`, `spell`, `oracle`, `struct` and `enum` names.
    Callable,
    Memory,
    Lore,
    Constraint,
    Const,
    Oracle,
}

pub open spec fn name_of_kind(i: ItemV, k: NameKind) -> Option<Seq<char>> {
    match k {
        NameKind::Callable => match i {
            ItemV::FnDef { name, .. } => Some(name),
            ItemV::KernelDef { name, .. } => Some(name),
            ItemV::SkillDef { name, .. } => Some(name),
            ItemV::SpellDef { name, .. } => Some(name),
            ItemV::OracleDecl { name, .. } => Some(name),
            ItemV::StructDef { name, .. } => Some(name),
            ItemV::EnumDef { name, .. } => Some(name),
            _ => None,
        },
        NameKind::Memory => match i {
            ItemV::MemoryDecl { name, .. } => Some(name),
            _ => None,
        },
        NameKind::Lore => match i {
            ItemV::LoreDecl { name, .. } => Some(name),
            _ => None,
        },
        NameKind::Constraint => match i {
            ItemV::ConstraintDef { name, .. } => Some(name),
            _ => None,
        },
        NameKind::Const => match i {
            ItemV::ConstDef { name, .. } => Some(name),
            _ => None,
        },
        NameKind::Oracle => match i {
            ItemV::OracleDecl { name, .. } => Some(name),
            _ => None,
        },
    }
}

/// The names of the given kind that the items declare, in order.
pub open spec fn names_of(items: Seq<ItemV>, k: NameKind) -> Seq<Seq<char>>
    decreases items.len(),
{
    if items.len() == 0 {
        Seq::empty()
    } else {
        match name_of_kind(items.last(), k) {
            Some(n) => names_of(items.drop_last(), k).push(n),
            None => names_of(items.drop_last(), k),
        }
    }
}

pub open spec fn declares(items: Seq<ItemV>, k: NameKind, n: Seq<char>) -> bool {
    names_of(items, k).contains(n)
}

/// Semantic type aliases: name → labels (a later alias of a name wins).
pub open spec fn spec_type_env(items: Seq<ItemV>) -> Map<Seq<char>, Seq<Seq<char>>>
    decreases items.len(),
{
    if items.len() == 0 {
        Map::empty()
    } else {
        let m = spec_type_env(items.drop_last());
        match items.last() {
            ItemV::TypeAlias { name, def: TypeExprV::Semantic(labels), .. } => m.insert(name, labels),
            _ => m,
        }
    }
}

/// Lore name → text.
pub open spec fn spec_lore_table(items: Seq<ItemV>) -> Map<Seq<char>, Seq<char>>
    decreases items.len(),
{
    if items.len() == 0 {
        Map::empty()
    } else {
        let m = spec_lore_table(items.drop_last());
        match items.last() {
            ItemV::LoreDecl { name, value, .. } => m.insert(name, value),
            _ => m,
        }
    }
}

/// Constraint name → index of its definition among the items.
pub open spec fn spec_constraint_index(items: Seq<ItemV>) -> Map<Seq<char>, usize>
    decreases items.len(),
{
    if items.len() == 0 {
        Map::empty()
    } else {
        let m = spec_constraint_index(items.drop_last());
        match items.last() {
            ItemV::ConstraintDef { name, .. } => m.insert(name, (items.len() - 1) as usize),
            _ => m,
        }
    }
}

/// Struct name → fields.
pub open spec fn spec_struct_table(items: Seq<ItemV>) -> Map<Seq<char>, Seq<(Seq<char>, TypeExprV)>>
    decreases items.len(),
{
    if items.len() == 0 {
        Map::empty()
    } else {
        let m = spec_struct_table(items.drop_last());
        match items.last() {
            ItemV::StructDef { name, fields, .. } => m.insert(name, fields),
            _ => m,
        }
    }
}

/// Enum name → variant names.
pub open spec fn spec_enum_table(items: Seq<ItemV>) -> Map<Seq<char>, Seq<Seq<char>>>
    decreases items.len(),
{
    if items.len() == 0 {
        Map::empty()
    } else {
        let m = spec_enum_table(items.drop_last());
        match items.last() {
            ItemV::EnumDef { name, variants, .. } => m.insert(
                name,
                variants.map_values(|v: (Seq<char>, Option<TypeExprV>)| v.0),
            ),
            _ => m,
        }
    }
}

// ── Name checking ────────────────────────────────────────────────────────────

/// What semantic analysis rejects.
#[derive(Debug)]
pub enum SemanticError {
    UndefinedVariable(String),
    UndefinedFunction(String),
    UndefinedConstraint(String),
    /// Assignment to a variable declared without `mut`.
    AssignToImmutable(String),
    /// Assignment to a built-in, callable, memory slot, lore entry or constant.
    AssignToNonVariable(String),
    ArithmeticOnString,
    LogicalOnNonBool,
}

pub enum SemErrV {
    UndefinedVariable(Seq<char>),
    UndefinedFunction(Seq<char>),
    UndefinedConstraint(Seq<char>),
    AssignToImmutable(Seq<char>),
    AssignToNonVariable(Seq<char>),
    ArithmeticOnString,
    LogicalOnNonBool,
}

pub open spec fn sem_err_view(e: SemanticError) -> SemErrV {
    match e {
        SemanticError::UndefinedVariable(n) => SemErrV::UndefinedVariable(n@),
        SemanticError::UndefinedFunction(n) => SemErrV::UndefinedFunction(n@),
        SemanticError::UndefinedConstraint(n) => SemErrV::UndefinedConstraint(n@),
        SemanticError::AssignToImmutable(n) => SemErrV::AssignToImmutable(n@),
        SemanticError::AssignToNonVariable(n) => SemErrV::AssignToNonVariable(n@),
        SemanticError::ArithmeticOnString => SemErrV::ArithmeticOnString,
        SemanticError::LogicalOnNonBool => SemErrV::LogicalOnNonBool,
    }
}

/// The names of the built-in functions, and `intent`, the built-in subject of
/// a `branch`.
pub open spec fn builtin_word(n: Seq<char>) -> bool {
    n == "println"@ || n == "ctx_alloc"@ || n == "ctx_free"@ || n == "ctx_append"@ || n == "ctx_resize"@ || n
        == "ctx_compress"@ || n == "ctx_share"@ || n == "observe"@ || n == "reason"@ || n == "act"@ || n
        == "verify"@ || n == "infer"@ || n == "memory_load"@ || n == "memory_save"@ || n == "memory_delete"@
        || n == "intent"@
}

/// A name that a call may use: a built-in, or a declared callable, memory
/// slot, lore entry or constant.
pub open spec fn global_name(items: Seq<ItemV>, n: Seq<char>) -> bool {
    builtin_word(n) || declares(items, NameKind::Callable, n) || declares(items, NameKind::Memory, n) || declares(
        items,
        NameKind::Lore,
        n,
    ) || declares(items, NameKind::Const, n)
}

pub open spec fn is_arith(op: BinOp) -> bool {
    op == BinOp::Add || op == BinOp::Sub || op == BinOp::Mul || op == BinOp::Div || op == BinOp::Mod
}

pub open spec fn is_logical(op: BinOp) -> bool {
    op == BinOp::And || op == BinOp::Or
}

pub open spec fn is_str_lit(e: ExprV) -> bool {
    e is StringLit
}

pub open spec fn is_non_bool_lit(e: ExprV) -> bool {
    e is IntLit || e is FloatLit || e is StringLit
}

/// The first error in an expression, with `scope` mapping local names to
/// whether they are mutable.
pub open spec fn chk_expr(e: ExprV, scope: Map<Seq<char>, bool>, items: Seq<ItemV>) -> Option<SemErrV>
    decreases e,
{
    match e {
        ExprV::Ident(n) => if global_name(items, n) || scope.contains_key(n) {
            None
        } else {
            Some(SemErrV::UndefinedVariable(n))
        },
        ExprV::Call(n, args) => if !global_name(items, n) {
            Some(SemErrV::UndefinedFunction(n))
        } else {
            chk_exprs(args, scope, items)
        },
        ExprV::BinOp(l, op, r) => match chk_expr(*l, scope, items) {
            Some(err) => Some(err),
            None => match chk_expr(*r, scope, items) {
                Some(err) => Some(err),
                None => if is_arith(op) && (is_str_lit(*l) || is_str_lit(*r)) {
                    Some(SemErrV::ArithmeticOnString)
                } else if is_logical(op) && (is_non_bool_lit(*l) || is_non_bool_lit(*r)) {
                    Some(SemErrV::LogicalOnNonBool)
                } else {
                    None
                },
            },
        },
        ExprV::Tuple(es) => chk_exprs(es, scope, items),
        ExprV::VecLit(es) => chk_exprs(es, scope, items),
        ExprV::Index(b, i) => match chk_expr(*b, scope, items) {
            Some(err) => Some(err),
            None => chk_expr(*i, scope, items),
        },
        ExprV::FieldAccess(b, _) => chk_expr(*b, scope, items),
        ExprV::StructConstruct { fields, .. } => chk_fields(fields, scope, items),
        ExprV::EnumVariant { payload, .. } => match payload {
            Some(p) => chk_expr(*p, scope, items),
            None => None,
        },
        _ => None,
    }
}

pub open spec fn chk_exprs(es: Seq<ExprV>, scope: Map<Seq<char>, bool>, items: Seq<ItemV>) -> Option<SemErrV>
    decreases es,
{
    if es.len() == 0 {
        None
    } else {
        match chk_expr(es[0], scope, items) {
            Some(err) => Some(err),
            None => chk_exprs(es.subrange(1, es.len() as int), scope, items),
        }
    }
}

pub open spec fn chk_fields(fs: Seq<(Seq<char>, ExprV)>, scope: Map<Seq<char>, bool>, items: Seq<ItemV>) -> Option<
    SemErrV,
>
    decreases fs,
{
    if fs.len() == 0 {
        None
    } else {
        match chk_expr(fs[0].1, scope, items) {
            Some(err) => Some(err),
            None => chk_fields(fs.subrange(1, fs.len() as int), scope, items),
        }
    }
}

/// `first` if it is an error, else `then`.
pub open spec fn or_then(first: Option<SemErrV>, then: Option<SemErrV>) -> Option<SemErrV> {
    match first {
        Some(err) => Some(err),
        None => then,
    }
}

/// The error that a statement itself raises (its inner blocks included, the
/// statements after it not).
pub open spec fn stmt_err(st: StmtV, scope: Map<Seq<char>, bool>, items: Seq<ItemV>) -> Option<SemErrV>
    decreases st,
{
    match st {
        StmtV::Let(_, _, e, _) => match e {
            Some(e) => chk_expr(e, scope, items),
            None => None,
        },
        StmtV::Return(e) => chk_expr(e, scope, items),
        StmtV::Expr(e) => chk_expr(e, scope, items),
        StmtV::Branch { var, cases, default } => or_then(
            chk_expr(ExprV::Ident(var), scope, items),
            or_then(
                chk_cases(cases, scope, items),
                match default {
                    Some(d) => chk_block(d, scope, items),
                    None => None,
                },
            ),
        ),
        StmtV::Interruptible(inner) => chk_block(inner, scope, items),
        StmtV::Instruction(_) => None,
        StmtV::Apply(n) => if !declares(items, NameKind::Constraint, n) {
            Some(SemErrV::UndefinedConstraint(n))
        } else {
            None
        },
        StmtV::Assign(n, e) => or_then(
            chk_expr(e, scope, items),
            if scope.contains_key(n) {
                if !scope[n] {
                    Some(SemErrV::AssignToImmutable(n))
                } else {
                    None
                }
            } else if global_name(items, n) {
                Some(SemErrV::AssignToNonVariable(n))
            } else {
                Some(SemErrV::UndefinedVariable(n))
            },
        ),
        StmtV::If { condition, then_branch, else_branch } => or_then(
            chk_expr(condition, scope, items),
            or_then(
                chk_block(then_branch, scope, items),
                match else_branch {
                    Some(eb) => chk_block(eb, scope, items),
                    None => None,
                },
            ),
        ),
        StmtV::Loop(body) => chk_block(body, scope, items),
        StmtV::While { condition, body } => or_then(chk_expr(condition, scope, items), chk_block(body, scope, items)),
        StmtV::For { item, collection, body } => or_then(
            chk_expr(collection, scope, items),
            chk_block(body, scope.insert(item, false), items),
        ),
    }
}

/// The scope after a statement: a `let` binds its name.
pub open spec fn stmt_scope(st: StmtV, scope: Map<Seq<char>, bool>) -> Map<Seq<char>, bool> {
    match st {
        StmtV::Let(n, _, _, m) => scope.insert(n, m),
        _ => scope,
    }
}

/// The first error in a block. A `let` binds its name for the rest of its
/// block; an inner block sees the names bound around it, and its own bindings
/// end with it.
pub open spec fn chk_block(b: Seq<StmtV>, scope: Map<Seq<char>, bool>, items: Seq<ItemV>) -> Option<SemErrV>
    decreases b,
{
    if b.len() == 0 {
        None
    } else {
        or_then(
            stmt_err(b[0], scope, items),
            chk_block(b.subrange(1, b.len() as int), stmt_scope(b[0], scope), items),
        )
    }
}

pub open spec fn chk_cases(cs: Seq<BranchCaseV>, scope: Map<Seq<char>, bool>, items: Seq<ItemV>) -> Option<SemErrV>
    decreases cs,
{
    if cs.len() == 0 {
        None
    } else {
        or_then(chk_block(cs[0].body, scope, items), chk_cases(cs.subrange(1, cs.len() as int), scope, items))
    }
}

/// Parameters are immutable locals.
pub open spec fn params_scope(ps: Seq<ParamV>) -> Map<Seq<char>, bool>
    decreases ps.len(),
{
    if ps.len() == 0 {
        Map::empty()
    } else {
        params_scope(ps.drop_last()).insert(ps.last().name, false)
    }
}

/// The first error in one item. Constraint bodies may use the locals of the
/// place that applies them, so they are not checked.
pub open spec fn chk_item(i: ItemV, items: Seq<ItemV>) -> Option<SemErrV> {
    match i {
        ItemV::FnDef { params, body, .. } => chk_block(body, params_scope(params), items),
        ItemV::KernelDef { params, body, .. } => chk_block(body, params_scope(params), items),
        ItemV::SkillDef { params, body, .. } => chk_block(body, params_scope(params), items),
        ItemV::SpellDef { params, body, .. } => chk_block(body, params_scope(params), items),
        ItemV::SoulDef { body } => chk_block(body, Map::empty(), items),
        ItemV::MemoryDecl { init, .. } => chk_expr(init, Map::empty(), items),
        _ => None,
    }
}

/// The first error among the items from `i` on.
pub open spec fn chk_items_from(items: Seq<ItemV>, i: int) -> Option<SemErrV>
    decreases items.len() - i,
{
    if i < 0 || i >= items.len() {
        None
    } else {
        or_then(chk_item(items[i], items), chk_items_from(items, i + 1))
    }
}

pub open spec fn chk_program(items: Seq<ItemV>) -> Option<SemErrV> {
    chk_items_from(items, 0)
}

// ── Exec: names ──────────────────────────────────────────────────────────────

/// Whether `name` is a built-in function (or `intent`).
pub fn is_builtin(name: &str) -> (r: bool)
    ensures
        r == builtin_word(name@),
{
    str_eq(name, "println") || str_eq(name, "ctx_alloc") || str_eq(name, "ctx_free") || str_eq(name, "ctx_append")
        || str_eq(name, "ctx_resize") || str_eq(name, "ctx_compress") || str_eq(name, "ctx_share") || str_eq(
        name,
        "observe",
    ) || str_eq(name, "reason") || str_eq(name, "act") || str_eq(name, "verify") || str_eq(name, "infer")
        || str_eq(name, "memory_load") || str_eq(name, "memory_save") || str_eq(name, "memory_delete") || str_eq(
        name,
        "intent",
    )
}

pub(crate) fn has_name(v: &Vec<String>, n: &str) -> (r: bool)
    ensures
        r == strings_view(v@).contains(n@),
{
    let mut i: usize = 0;
    while i < v.len()
        invariant
            i <= v.len(),
            forall|j: int| 0 <= j < i ==> v@[j]@ != n@,
        decreases v.len() - i,
    {
        if str_eq(v[i].as_str(), n) {
            assert(strings_view(v@)[i as int] == n@);
            return true;
        }
        i = i + 1;
    }
    proof {
        if strings_view(v@).contains(n@) {
            let j = choose|j: int| 0 <= j < strings_view(v@).len() && strings_view(v@)[j] == n@;
            assert(v@[j]@ == n@);
        }
    }
    false
}

fn item_name(i: &Item, k: NameKind) -> (r: Option<String>)
    ensures
        match r {
            Some(s) => name_of_kind(item_view(*i), k) == Some(s@),
            None => name_of_kind(item_view(*i), k) is None,
        },
{
    match k {
        NameKind::Callable => match i {
            Item::FnDef(x) => Some(x.name.clone()),
            Item::KernelDef(x) => Some(x.name.clone()),
            Item::SkillDef(x) => Some(x.name.clone()),
            Item::SpellDef(x) => Some(x.name.clone()),
            Item::OracleDecl(x) => Some(x.name.clone()),
            Item::StructDef(x) => Some(x.name.clone()),
            Item::EnumDef(x) => Some(x.name.clone()),
            _ => None,
        },
        NameKind::Memory => match i {
            Item::MemoryDecl(x) => Some(x.name.clone()),
            _ => None,
        },
        NameKind::Lore => match i {
            Item::LoreDecl(x) => Some(x.name.clone()),
            _ => None,
        },
        NameKind::Constraint => match i {
            Item::ConstraintDef(x) => Some(x.name.clone()),
            _ => None,
        },
        NameKind::Const => match i {
            Item::ConstDef(x) => Some(x.name.clone()),
            _ => None,
        },
        NameKind::Oracle => match i {
            Item::OracleDecl(x) => Some(x.name.clone()),
            _ => None,
        },
    }
}

/// The names of kind `k` that the items declare, in order.
fn collect_names(items: &Vec<Item>, k: NameKind) -> (r: Vec<String>)
    ensures
        strings_view(r@) == names_of(items_view(items@), k),
{
    let ghost iv = items_view(items@);
    let mut r: Vec<String> = Vec::new();
    let mut j: usize = 0;
    assert(strings_view(r@) =~= names_of(iv.subrange(0, 0), k));
    while j < items.len()
        invariant
            j <= items.len(),
            iv == items_view(items@),
            strings_view(r@) == names_of(iv.subrange(0, j as int), k),
        decreases items.len() - j,
    {
        let ghost pre = iv.subrange(0, j as int);
        assert(iv.subrange(0, j + 1).drop_last() =~= pre);
        if let Some(n) = item_name(&items[j], k) {
            let ghost before = strings_view(r@);
            r.push(n);
            assert(strings_view(r@) =~= before.push(n@));
        }
        j = j + 1;
    }
    assert(iv.subrange(0, items.len() as int) =~= iv);
    r
}

// ── Exec: tables ─────────────────────────────────────────────────────────────

pub open spec fn labels_map(m: Map<Seq<char>, Vec<String>>) -> Map<Seq<char>, Seq<Seq<char>>> {
    m.map_values(|v: Vec<String>| strings_view(v@))
}

pub open spec fn text_map(m: Map<Seq<char>, String>) -> Map<Seq<char>, Seq<char>> {
    m.map_values(|s: String| s@)
}

pub open spec fn fields_view_of(v: Seq<(String, TypeExpr)>) -> Seq<(Seq<char>, TypeExprV)> {
    v.map_values(|f: (String, TypeExpr)| (f.0@, type_view(f.1)))
}

pub open spec fn fields_map(m: Map<Seq<char>, Vec<(String, TypeExpr)>>) -> Map<Seq<char>, Seq<(Seq<char>, TypeExprV)>> {
    m.map_values(|v: Vec<(String, TypeExpr)>| fields_view_of(v@))
}

pub(crate) fn copy_strings(v: &Vec<String>) -> (r: Vec<String>)
    ensures
        r@ == v@,
{
    let mut r: Vec<String> = Vec::new();
    let mut i: usize = 0;
    while i < v.len()
        invariant
            i <= v.len(),
            r@ == v@.subrange(0, i as int),
        decreases v.len() - i,
    {
        r.push(v[i].clone());
        i = i + 1;
    }
    assert(v@.subrange(0, v.len() as int) =~= v@);
    r
}

/// A copy of a type expression.
pub fn copy_type(t: &TypeExpr) -> (r: TypeExpr)
    ensures
        type_view(r) == type_view(*t),
    decreases t,
{
    match t {
        TypeExpr::Named(n) => TypeExpr::Named(n.clone()),
        TypeExpr::Semantic(ls) => TypeExpr::Semantic(copy_strings(ls)),
        TypeExpr::Primitive(p) => TypeExpr::Primitive(*p),
        TypeExpr::Vec(inner) => TypeExpr::Vec(Box::new(copy_type(inner))),
    }
}

fn struct_fields(fs: &Vec<StructField>) -> (r: Vec<(String, TypeExpr)>)
    ensures
        fields_view_of(r@) == fs@.map_values(|f: StructField| (f.name@, type_view(f.ty))),
{
    let mut r: Vec<(String, TypeExpr)> = Vec::new();
    let mut i: usize = 0;
    while i < fs.len()
        invariant
            i <= fs.len(),
            fields_view_of(r@) == fs@.subrange(0, i as int).map_values(|f: StructField| (f.name@, type_view(f.ty))),
        decreases fs.len() - i,
    {
        let ghost before = fields_view_of(r@);
        r.push((fs[i].name.clone(), copy_type(&fs[i].ty)));
        assert(fields_view_of(r@) =~= before.push((fs@[i as int].name@, type_view(fs@[i as int].ty))));
        assert(fs@.subrange(0, i + 1).map_values(|f: StructField| (f.name@, type_view(f.ty))) =~= before.push(
            (fs@[i as int].name@, type_view(fs@[i as int].ty)),
        ));
        i = i + 1;
    }
    assert(fs@.subrange(0, fs.len() as int) =~= fs@);
    r
}

fn variant_names(vs: &Vec<EnumVariant>) -> (r: Vec<String>)
    ensures
        strings_view(r@) == vs@.map_values(|v: EnumVariant| (v.name@, crate::ast::opt_type_view(v.payload))).map_values(
            |v: (Seq<char>, Option<TypeExprV>)| v.0,
        ),
{
    let mut r: Vec<String> = Vec::new();
    let mut i: usize = 0;
    while i < vs.len()
        invariant
            i <= vs.len(),
            strings_view(r@) == vs@.subrange(0, i as int).map_values(|v: EnumVariant| v.name@),
        decreases vs.len() - i,
    {
        let ghost before = strings_view(r@);
        r.push(vs[i].name.clone());
        assert(strings_view(r@) =~= before.push(vs@[i as int].name@));
        assert(vs@.subrange(0, i + 1).map_values(|v: EnumVariant| v.name@) =~= before.push(vs@[i as int].name@));
        i = i + 1;
    }
    assert(vs@.subrange(0, vs.len() as int) =~= vs@);
    assert(strings_view(r@) =~= vs@.map_values(|v: EnumVariant| (v.name@, crate::ast::opt_type_view(v.payload))).map_values(
        |v: (Seq<char>, Option<TypeExprV>)| v.0,
    ));
    r
}

pub open spec fn tables_ok(
    type_env: Table<Vec<String>>,
    lore_table: Table<String>,
    constraint_bodies: Table<usize>,
    struct_table: Table<Vec<(String, TypeExpr)>>,
    enum_table: Table<Vec<String>>,
    items: Seq<ItemV>,
) -> bool {
    &&& labels_map(type_env@) == spec_type_env(items)
    &&& text_map(lore_table@) == spec_lore_table(items)
    &&& constraint_bodies@ == spec_constraint_index(items)
    &&& fields_map(struct_table@) == spec_struct_table(items)
    &&& labels_map(enum_table@) == spec_enum_table(items)
}

/// The tables that code generation reads: semantic aliases, lore, where each
/// constraint is defined, structs and enums.
fn build_tables(items: &Vec<Item>) -> (r: (
    Table<Vec<String>>,
    Table<String>,
    Table<usize>,
    Table<Vec<(String, TypeExpr)>>,
    Table<Vec<String>>,
))
    ensures
        tables_ok(r.0, r.1, r.2, r.3, r.4, items_view(items@)),
{
    let ghost iv = items_view(items@);
    let mut type_env: Table<Vec<String>> = Table::new();
    let mut lore_table: Table<String> = Table::new();
    let mut constraint_bodies: Table<usize> = Table::new();
    let mut struct_table: Table<Vec<(String, TypeExpr)>> = Table::new();
    let mut enum_table: Table<Vec<String>> = Table::new();
    let mut j: usize = 0;
    proof {
        assert(labels_map(type_env@) =~= Map::empty());
        assert(text_map(lore_table@) =~= Map::empty());
        assert(fields_map(struct_table@) =~= Map::empty());
        assert(labels_map(enum_table@) =~= Map::empty());
    }
    while j < items.len()
        invariant
            j <= items.len(),
            iv == items_view(items@),
            tables_ok(type_env, lore_table, constraint_bodies, struct_table, enum_table, iv.subrange(0, j as int)),
        decreases items.len() - j,
    {
        let ghost pre = iv.subrange(0, j as int);
        let ghost post = iv.subrange(0, j + 1);
        assert(post.drop_last() =~= pre);
        assert(post.last() == item_view(items@[j as int]));
        match &items[j] {
            Item::TypeAlias(ta) => {
                if let TypeExpr::Semantic(labels) = &ta.def {
                    let ghost before = labels_map(type_env@);
                    let ls = copy_strings(labels);
                    type_env.insert(ta.name.clone(), ls);
                    assert(labels_map(type_env@) =~= before.insert(ta.name@, strings_view(labels@)));
                }
            },
            Item::LoreDecl(l) => {
                let ghost before = text_map(lore_table@);
                lore_table.insert(l.name.clone(), l.value.clone());
                assert(text_map(lore_table@) =~= before.insert(l.name@, l.value@));
            },
            Item::ConstraintDef(c) => {
                constraint_bodies.insert(c.name.clone(), j);
            },
            Item::StructDef(s) => {
                let ghost before = fields_map(struct_table@);
                let fs = struct_fields(&s.fields);
                struct_table.insert(s.name.clone(), fs);
                assert(fields_map(struct_table@) =~= before.insert(
                    s.name@,
                    s.fields@.map_values(|f: StructField| (f.name@, type_view(f.ty))),
                ));
            },
            Item::EnumDef(e) => {
                let ghost before = labels_map(enum_table@);
                let vs = variant_names(&e.variants);
                enum_table.insert(e.name.clone(), vs);
                assert(labels_map(enum_table@) =~= before.insert(e.name@, strings_view(vs@)));
            },
            _ => {},
        }
        j = j + 1;
    }
    assert(iv.subrange(0, items.len() as int) =~= iv);
    (type_env, lore_table, constraint_bodies, struct_table, enum_table)
}

// ── Exec: constants ──────────────────────────────────────────────────────────

pub open spec fn opt_const_view(c: Option<ConstValue>) -> Option<ConstV> {
    match c {
        Some(c) => Some(const_view(c)),
        None => None,
    }
}

/// A copy of a constant.
pub fn copy_const(c: &ConstValue) -> (r: ConstValue)
    ensures
        const_view(r) == const_view(*c),
{
    match c {
        ConstValue::Int(n) => ConstValue::Int(*n),
        ConstValue::Float(s) => ConstValue::Float(s.clone()),
        ConstValue::Bool(b) => ConstValue::Bool(*b),
        ConstValue::Str(s) => ConstValue::Str(s.clone()),
    }
}

fn eval_const_binop(op: BinOp, l: &ConstValue, r: &ConstValue) -> (res: Option<ConstValue>)
    ensures
        opt_const_view(res) == const_binop(op, const_view(*l), const_view(*r)),
{
    match l {
        ConstValue::Int(a) => match r {
            ConstValue::Int(b) => int_binop(op, *a, *b),
            _ => None,
        },
        ConstValue::Bool(a) => match r {
            ConstValue::Bool(b) => match op {
                BinOp::And => Some(ConstValue::Bool(*a && *b)),
                BinOp::Or => Some(ConstValue::Bool(*a || *b)),
                _ => None,
            },
            _ => None,
        },
        ConstValue::Str(a) => match r {
            ConstValue::Str(b) => match op {
                BinOp::Eq => Some(ConstValue::Bool(str_eq(a.as_str(), b.as_str()))),
                BinOp::NotEq => Some(ConstValue::Bool(!str_eq(a.as_str(), b.as_str()))),
                _ => None,
            },
            _ => None,
        },
        ConstValue::Float(_) => None,
    }
}

fn int_binop(op: BinOp, a: i64, b: i64) -> (res: Option<ConstValue>)
    ensures
        opt_const_view(res) == int_const_binop(op, a, b),
{
    match op {
        BinOp::Add => match a.checked_add(b) {
            Some(c) => Some(ConstValue::Int(c)),
            None => None,
        },
        BinOp::Sub => match a.checked_sub(b) {
            Some(c) => Some(ConstValue::Int(c)),
            None => None,
        },
        BinOp::Mul => match a.checked_mul(b) {
            Some(c) => Some(ConstValue::Int(c)),
            None => None,
        },
        BinOp::Div => match a.checked_div(b) {
            Some(c) => Some(ConstValue::Int(c)),
            None => None,
        },
        BinOp::Mod => match a.checked_rem(b) {
            Some(c) => Some(ConstValue::Int(c)),
            None => None,
        },
        BinOp::Eq => Some(ConstValue::Bool(a == b)),
        BinOp::NotEq => Some(ConstValue::Bool(a != b)),
        BinOp::Gt => Some(ConstValue::Bool(a > b)),
        BinOp::Lt => Some(ConstValue::Bool(a < b)),
        _ => None,
    }
}

fn eval_const_expr(e: &Expr, known: &Table<ConstValue>) -> (r: Option<ConstValue>)
    ensures
        opt_const_view(r) == eval_const(expr_view(*e), const_map(known@)),
    decreases e,
{
    match e {
        Expr::IntLit(n) => Some(ConstValue::Int(*n as i64)),
        Expr::FloatLit(s) => Some(ConstValue::Float(s.clone())),
        Expr::BoolLit(b) => Some(ConstValue::Bool(*b)),
        Expr::StringLit(s) => Some(ConstValue::Str(s.clone())),
        Expr::Ident(n) => match known.get(n.as_str()) {
            Some(v) => Some(copy_const(v)),
            None => None,
        },
        Expr::BinOp(l, op, r) => {
            let a = match eval_const_expr(l, known) {
                Some(a) => a,
                None => {
                    return None;
                },
            };
            let b = match eval_const_expr(r, known) {
                Some(b) => b,
                None => {
                    return None;
                },
            };
            eval_const_binop(*op, &a, &b)
        },
        _ => None,
    }
}

/// One pass over the items; tells whether a constant became known.
fn const_pass(items: &Vec<Item>, known: &mut Table<ConstValue>) -> (changed: bool)
    ensures
        (const_map(final(known)@), changed) == const_round(items_view(items@), 0, const_map(old(known)@)),
{
    let ghost iv = items_view(items@);
    let mut changed = false;
    let mut j: usize = 0;
    while j < items.len()
        invariant
            j <= items.len(),
            iv == items_view(items@),
            const_round(iv, 0, const_map(old(known)@)) == (
                const_round(iv, j as int, const_map(known@)).0,
                const_round(iv, j as int, const_map(known@)).1 || changed,
            ),
        decreases items.len() - j,
    {
        assert(iv[j as int] == item_view(items@[j as int]));
        if let Item::ConstDef(c) = &items[j] {
            if !known.contains_key(c.name.as_str()) {
                if let Some(v) = eval_const_expr(&c.value, known) {
                    let ghost before = const_map(known@);
                    known.insert(c.name.clone(), v);
                    assert(const_map(known@) =~= before.insert(c.name@, const_view(v)));
                    changed = true;
                }
            }
        }
        j = j + 1;
    }
    changed
}

/// Evaluates the constants of the program, pass after pass, until a pass
/// makes no progress.
fn evaluate_consts(items: &Vec<Item>) -> (r: Table<ConstValue>)
    ensures
        const_map(r@) == spec_consts(items_view(items@)),
{
    let ghost iv = items_view(items@);
    let mut known: Table<ConstValue> = Table::new();
    assert(const_map(known@) =~= Map::<Seq<char>, ConstV>::empty());
    let mut fuel: usize = items.len();
    loop
        invariant_except_break
            spec_consts(iv) == const_fix(iv, const_map(known@), fuel as nat),
        invariant
            iv == items_view(items@),
        ensures
            spec_consts(iv) == const_map(known@),
        decreases fuel,
    {
        let changed = const_pass(items, &mut known);
        if !changed || fuel == 0 {
            break;
        }
        fuel = fuel - 1;
    }
    known
}

// ── Exec: checking ───────────────────────────────────────────────────────────

struct GlobalEnv {
    callable_names: Vec<String>,
    memory_names: Vec<String>,
    lore_names: Vec<String>,
    constraint_names: Vec<String>,
    const_names: Vec<String>,
}

spec fn env_ok(env: GlobalEnv, items: Seq<ItemV>) -> bool {
    &&& strings_view(env.callable_names@) == names_of(items, NameKind::Callable)
    &&& strings_view(env.memory_names@) == names_of(items, NameKind::Memory)
    &&& strings_view(env.lore_names@) == names_of(items, NameKind::Lore)
    &&& strings_view(env.constraint_names@) == names_of(items, NameKind::Constraint)
    &&& strings_view(env.const_names@) == names_of(items, NameKind::Const)
}

impl GlobalEnv {
    fn build(items: &Vec<Item>) -> (env: GlobalEnv)
        ensures
            env_ok(env, items_view(items@)),
    {
        GlobalEnv {
            callable_names: collect_names(items, NameKind::Callable),
            memory_names: collect_names(items, NameKind::Memory),
            lore_names: collect_names(items, NameKind::Lore),
            constraint_names: collect_names(items, NameKind::Constraint),
            const_names: collect_names(items, NameKind::Const),
        }
    }

    fn is_global(&self, n: &str, Ghost(items): Ghost<Seq<ItemV>>) -> (r: bool)
        requires
            env_ok(*self, items),
        ensures
            r == global_name(items, n@),
    {
        is_builtin(n) || has_name(&self.callable_names, n) || has_name(&self.memory_names, n) || has_name(
            &self.lore_names,
            n,
        ) || has_name(&self.const_names, n)
    }
}

pub open spec fn check_result(r: Result<(), SemanticError>, expected: Option<SemErrV>) -> bool {
    match r {
        Ok(_) => expected is None,
        Err(e) => expected == Some(sem_err_view(e)),
    }
}

fn check_expr(e: &Expr, scope: &Table<bool>, env: &GlobalEnv, Ghost(items): Ghost<Seq<ItemV>>) -> (r: Result<
    (),
    SemanticError,
>)
    requires
        env_ok(*env, items),
    ensures
        check_result(r, chk_expr(expr_view(*e), scope@, items)),
    decreases e,
{
    match e {
        Expr::Ident(name) => {
            if env.is_global(name.as_str(), Ghost(items)) || scope.contains_key(name.as_str()) {
                Ok(())
            } else {
                Err(SemanticError::UndefinedVariable(name.clone()))
            }
        },
        Expr::Call(name, args) => {
            if !env.is_global(name.as_str(), Ghost(items)) {
                Err(SemanticError::UndefinedFunction(name.clone()))
            } else {
                check_exprs(args, scope, env, Ghost(items))
            }
        },
        Expr::BinOp(l, op, r) => {
            match check_expr(l, scope, env, Ghost(items)) {
                Err(err) => {
                    return Err(err);
                },
                Ok(_) => {},
            }
            match check_expr(r, scope, env, Ghost(items)) {
                Err(err) => {
                    return Err(err);
                },
                Ok(_) => {},
            }
            let arith = matches!(op, BinOp::Add | BinOp::Sub | BinOp::Mul | BinOp::Div | BinOp::Mod);
            let logical = matches!(op, BinOp::And | BinOp::Or);
            let l_str = matches!(**l, Expr::StringLit(_));
            let r_str = matches!(**r, Expr::StringLit(_));
            let l_non_bool = matches!(**l, Expr::IntLit(_) | Expr::FloatLit(_) | Expr::StringLit(_));
            let r_non_bool = matches!(**r, Expr::IntLit(_) | Expr::FloatLit(_) | Expr::StringLit(_));
            if arith && (l_str || r_str) {
                Err(SemanticError::ArithmeticOnString)
            } else if logical && (l_non_bool || r_non_bool) {
                Err(SemanticError::LogicalOnNonBool)
            } else {
                Ok(())
            }
        },
        Expr::Tuple(es) => check_exprs(es, scope, env, Ghost(items)),
        Expr::VecLit(es) => check_exprs(es, scope, env, Ghost(items)),
        Expr::Index(b, i) => {
            match check_expr(b, scope, env, Ghost(items)) {
                Err(err) => {
                    return Err(err);
                },
                Ok(_) => {},
            }
            check_expr(i, scope, env, Ghost(items))
        },
        Expr::FieldAccess(b, _) => check_expr(b, scope, env, Ghost(items)),
        Expr::StructConstruct { fields, .. } => check_fields(fields, scope, env, Ghost(items)),
        Expr::EnumVariant { payload, .. } => match payload {
            Some(p) => check_expr(p, scope, env, Ghost(items)),
            None => Ok(()),
        },
        _ => Ok(()),
    }
}

fn check_exprs(es: &Vec<Expr>, scope: &Table<bool>, env: &GlobalEnv, Ghost(items): Ghost<Seq<ItemV>>) -> (r: Result<
    (),
    SemanticError,
>)
    requires
        env_ok(*env, items),
    ensures
        check_result(r, chk_exprs(exprs_view(es@), scope@, items)),
    decreases es,
{
    let ghost ev = exprs_view(es@);
    proof {
        lemma_exprs_view_index(es@);
    }
    let mut i: usize = 0;
    assert(ev.subrange(0, ev.len() as int) =~= ev);
    while i < es.len()
        invariant
            i <= es.len(),
            env_ok(*env, items),
            ev == exprs_view(es@),
            ev.len() == es.len(),
            forall|k: int| 0 <= k < es.len() ==> #[trigger] ev[k] == expr_view(es@[k]),
            chk_exprs(ev, scope@, items) == chk_exprs(ev.subrange(i as int, ev.len() as int), scope@, items),
        decreases es.len() - i,
    {
        let ghost tail = ev.subrange(i as int, ev.len() as int);
        assert(tail[0] == ev[i as int]);
        assert(tail.subrange(1, tail.len() as int) =~= ev.subrange(i + 1, ev.len() as int));
        proof {
            assert(decreases_to!(es => es@));
            assert(decreases_to!(es@ => es@[i as int]));
        }
        match check_expr(&es[i], scope, env, Ghost(items)) {
            Err(err) => {
                return Err(err);
            },
            Ok(_) => {},
        }
        i = i + 1;
    }
    Ok(())
}

fn check_fields(
    fs: &Vec<(String, Expr)>,
    scope: &Table<bool>,
    env: &GlobalEnv,
    Ghost(items): Ghost<Seq<ItemV>>,
) -> (r: Result<(), SemanticError>)
    requires
        env_ok(*env, items),
    ensures
        check_result(r, chk_fields(fields_view(fs@), scope@, items)),
    decreases fs,
{
    let ghost fv = fields_view(fs@);
    proof {
        crate::ast::lemma_fields_view_index(fs@);
    }
    let mut i: usize = 0;
    assert(fv.subrange(0, fv.len() as int) =~= fv);
    while i < fs.len()
        invariant
            i <= fs.len(),
            env_ok(*env, items),
            fv == fields_view(fs@),
            fv.len() == fs.len(),
            forall|k: int| 0 <= k < fs.len() ==> #[trigger] fv[k] == (fs@[k].0@, expr_view(fs@[k].1)),
            chk_fields(fv, scope@, items) == chk_fields(fv.subrange(i as int, fv.len() as int), scope@, items),
        decreases fs.len() - i,
    {
        let ghost tail = fv.subrange(i as int, fv.len() as int);
        assert(tail[0] == fv[i as int]);
        assert(tail.subrange(1, tail.len() as int) =~= fv.subrange(i + 1, fv.len() as int));
        proof {
            assert(decreases_to!(fs => fs@));
            assert(decreases_to!(fs@ => fs@[i as int]));
            assert(decreases_to!(fs@[i as int] => fs@[i as int].1));
        }
        match check_expr(&fs[i].1, scope, env, Ghost(items)) {
            Err(err) => {
                return Err(err);
            },
            Ok(_) => {},
        }
        i = i + 1;
    }
    Ok(())
}

fn check_block(b: &Vec<Stmt>, scope: &mut Table<bool>, env: &GlobalEnv, Ghost(items): Ghost<Seq<ItemV>>) -> (r:
    Result<(), SemanticError>)
    requires
        env_ok(*env, items),
    ensures
        check_result(r, chk_block(block_view(b@), old(scope)@, items)),
        final(scope).bindings() == old(scope).bindings(),
    decreases b,
{
    let m = scope.mark();
    let ghost bv = block_view(b@);
    proof {
        lemma_block_view_index(b@);
    }
    assert(bv.subrange(0, bv.len() as int) =~= bv);
    assert(scope.bindings().subrange(0, m as int) =~= old(scope).bindings());
    let mut i: usize = 0;
    while i < b.len()
        invariant
            i <= b.len(),
            env_ok(*env, items),
            bv == block_view(b@),
            bv.len() == b.len(),
            forall|k: int| 0 <= k < b.len() ==> #[trigger] bv[k] == stmt_view(b@[k]),
            m == old(scope).bindings().len(),
            m <= scope.bindings().len(),
            scope.bindings().subrange(0, m as int) == old(scope).bindings(),
            chk_block(bv, old(scope)@, items) == chk_block(bv.subrange(i as int, bv.len() as int), scope@, items),
        decreases b.len() - i,
    {
        let ghost tail = bv.subrange(i as int, bv.len() as int);
        assert(tail[0] == bv[i as int]);
        assert(tail.subrange(1, tail.len() as int) =~= bv.subrange(i + 1, bv.len() as int));
        proof {
            assert(decreases_to!(b => b@));
            assert(decreases_to!(b@ => b@[i as int]));
        }
        let ghost before = scope.bindings();
        match check_stmt(&b[i], scope, env, Ghost(items)) {
            Err(err) => {
                scope.restore(m);
                assert(scope.bindings() =~= old(scope).bindings());
                return Err(err);
            },
            Ok(_) => {},
        }
        assert(scope.bindings().subrange(0, m as int) =~= before.subrange(0, m as int));
        i = i + 1;
    }
    scope.restore(m);
    assert(scope.bindings() =~= old(scope).bindings());
    Ok(())
}

fn check_stmt(s: &Stmt, scope: &mut Table<bool>, env: &GlobalEnv, Ghost(items): Ghost<Seq<ItemV>>) -> (r: Result<
    (),
    SemanticError,
>)
    requires
        env_ok(*env, items),
    ensures
        check_result(r, stmt_err(stmt_view(*s), old(scope)@, items)),
        r is Ok ==> final(scope)@ == stmt_scope(stmt_view(*s), old(scope)@),
        old(scope).bindings().len() <= final(scope).bindings().len(),
        final(scope).bindings().subrange(0, old(scope).bindings().len() as int) == old(scope).bindings(),
    decreases s,
{
    proof {
        assert(old(scope).bindings().subrange(0, old(scope).bindings().len() as int) =~= old(scope).bindings());
    }
    match s {
        Stmt::Let(name, _, e, m) => {
            if let Some(e) = e {
                match check_expr(e, scope, env, Ghost(items)) {
                    Err(err) => {
                        return Err(err);
                    },
                    Ok(_) => {},
                }
            }
            scope.insert(name.clone(), *m);
            assert(scope.bindings().subrange(0, old(scope).bindings().len() as int) =~= old(scope).bindings());
            Ok(())
        },
        Stmt::Return(e) => check_expr(e, scope, env, Ghost(items)),
        Stmt::Expr(e) => check_expr(e, scope, env, Ghost(items)),
        Stmt::Branch(br) => check_branch(br, scope, env, Ghost(items)),
        Stmt::Interruptible(inner) => check_block(inner, scope, env, Ghost(items)),
        Stmt::Instruction(_) => Ok(()),
        Stmt::Apply(n) => {
            if !has_name(&env.constraint_names, n.as_str()) {
                Err(SemanticError::UndefinedConstraint(n.clone()))
            } else {
                Ok(())
            }
        },
        Stmt::Assign(n, e) => {
            match check_expr(e, scope, env, Ghost(items)) {
                Err(err) => {
                    return Err(err);
                },
                Ok(_) => {},
            }
            match scope.get(n.as_str()) {
                Some(is_mut) => if !*is_mut {
                    Err(SemanticError::AssignToImmutable(n.clone()))
                } else {
                    Ok(())
                },
                None => if env.is_global(n.as_str(), Ghost(items)) {
                    Err(SemanticError::AssignToNonVariable(n.clone()))
                } else {
                    Err(SemanticError::UndefinedVariable(n.clone()))
                },
            }
        },
        Stmt::If { condition, then_branch, else_branch } => {
            match check_expr(condition, scope, env, Ghost(items)) {
                Err(err) => {
                    return Err(err);
                },
                Ok(_) => {},
            }
            match check_block(then_branch, scope, env, Ghost(items)) {
                Err(err) => {
                    return Err(err);
                },
                Ok(_) => {},
            }
            match else_branch {
                Some(eb) => check_block(eb, scope, env, Ghost(items)),
                None => Ok(()),
            }
        },
        Stmt::Loop(body) => check_block(body, scope, env, Ghost(items)),
        Stmt::While { condition, body } => {
            match check_expr(condition, scope, env, Ghost(items)) {
                Err(err) => {
                    return Err(err);
                },
                Ok(_) => {},
            }
            check_block(body, scope, env, Ghost(items))
        },
        Stmt::For { item, collection, body } => {
            match check_expr(collection, scope, env, Ghost(items)) {
                Err(err) => {
                    return Err(err);
                },
                Ok(_) => {},
            }
            let mk = scope.mark();
            scope.insert(item.clone(), false);
            let r = check_block(body, scope, env, Ghost(items));
            scope.restore(mk);
            assert(scope.bindings() =~= old(scope).bindings());
            r
        },
    }
}

fn check_branch(
    br: &crate::ast::BranchStmt,
    scope: &mut Table<bool>,
    env: &GlobalEnv,
    Ghost(items): Ghost<Seq<ItemV>>,
) -> (r: Result<(), SemanticError>)
    requires
        env_ok(*env, items),
    ensures
        check_result(
            r,
            stmt_err(
                StmtV::Branch {
                    var: br.var@,
                    cases: cases_view(br.cases@),
                    default: match br.default {
                        Some(d) => Some(block_view(d@)),
                        None => None,
                    },
                },
                old(scope)@,
                items,
            ),
        ),
        final(scope).bindings() == old(scope).bindings(),
    decreases br,
{
    let subject = Expr::Ident(br.var.clone());
    match check_expr(&subject, scope, env, Ghost(items)) {
        Err(err) => {
            return Err(err);
        },
        Ok(_) => {},
    }
    let ghost cv = cases_view(br.cases@);
    proof {
        lemma_cases_view_index(br.cases@);
    }
    assert(cv.subrange(0, cv.len() as int) =~= cv);
    let mut i: usize = 0;
    while i < br.cases.len()
        invariant
            i <= br.cases.len(),
            env_ok(*env, items),
            cv == cases_view(br.cases@),
            cv.len() == br.cases.len(),
            forall|k: int| 0 <= k < br.cases.len() ==> #[trigger] cv[k] == (BranchCaseV {
                label: br.cases@[k].label@,
                confidence: br.cases@[k].confidence@,
                body: block_view(br.cases@[k].body@),
            }),
            scope.bindings() == old(scope).bindings(),
            chk_expr(ExprV::Ident(br.var@), old(scope)@, items) is None,
            chk_cases(cv, old(scope)@, items) == chk_cases(cv.subrange(i as int, cv.len() as int), old(scope)@, items),
        decreases br.cases.len() - i,
    {
        let ghost tail = cv.subrange(i as int, cv.len() as int);
        assert(tail[0] == cv[i as int]);
        assert(tail.subrange(1, tail.len() as int) =~= cv.subrange(i + 1, cv.len() as int));
        proof {
            assert(decreases_to!(br => br.cases));
            assert(decreases_to!(br.cases => br.cases@));
            assert(decreases_to!(br.cases@ => br.cases@[i as int]));
            assert(decreases_to!(br.cases@[i as int] => br.cases@[i as int].body));
        }
        assert(cv[i as int].body == block_view(br.cases@[i as int].body@));
        assert(chk_cases(tail, old(scope)@, items) == or_then(
            chk_block(cv[i as int].body, old(scope)@, items),
            chk_cases(tail.subrange(1, tail.len() as int), old(scope)@, items),
        ));
        match check_block(&br.cases[i].body, scope, env, Ghost(items)) {
            Err(err) => {
                return Err(err);
            },
            Ok(_) => {},
        }
        i = i + 1;
    }
    match &br.default {
        Some(d) => check_block(d, scope, env, Ghost(items)),
        None => Ok(()),
    }
}

fn params_table(ps: &Vec<Param>) -> (t: Table<bool>)
    ensures
        t@ == params_scope(params_view(ps@)),
{
    let ghost pv = params_view(ps@);
    let mut t: Table<bool> = Table::new();
    let mut i: usize = 0;
    assert(pv.subrange(0, 0) =~= Seq::<ParamV>::empty());
    while i < ps.len()
        invariant
            i <= ps.len(),
            pv == params_view(ps@),
            t@ == params_scope(pv.subrange(0, i as int)),
        decreases ps.len() - i,
    {
        assert(pv.subrange(0, i + 1).drop_last() =~= pv.subrange(0, i as int));
        t.insert(ps[i].name.clone(), false);
        i = i + 1;
    }
    assert(pv.subrange(0, ps.len() as int) =~= pv);
    t
}

fn check_item(it: &Item, env: &GlobalEnv, Ghost(items): Ghost<Seq<ItemV>>) -> (r: Result<(), SemanticError>)
    requires
        env_ok(*env, items),
    ensures
        check_result(r, chk_item(item_view(*it), items)),
{
    match it {
        Item::FnDef(f) => {
            let mut scope = params_table(&f.params);
            check_block(&f.body, &mut scope, env, Ghost(items))
        },
        Item::KernelDef(k) => {
            let mut scope = params_table(&k.params);
            check_block(&k.body, &mut scope, env, Ghost(items))
        },
        Item::SkillDef(k) => {
            let mut scope = params_table(&k.params);
            check_block(&k.body, &mut scope, env, Ghost(items))
        },
        Item::SpellDef(k) => {
            let mut scope = params_table(&k.params);
            check_block(&k.body, &mut scope, env, Ghost(items))
        },
        Item::SoulDef(s) => {
            let mut scope: Table<bool> = Table::new();
            check_block(&s.body, &mut scope, env, Ghost(items))
        },
        Item::MemoryDecl(m) => {
            let scope: Table<bool> = Table::new();
            check_expr(&m.init, &scope, env, Ghost(items))
        },
        _ => Ok(()),
    }
}

impl GlobalEnv {
    fn check_all(&self, items: &Vec<Item>) -> (r: Result<(), SemanticError>)
        requires
            env_ok(*self, items_view(items@)),
        ensures
            check_result(r, chk_program(items_view(items@))),
    {
        let ghost iv = items_view(items@);
        let mut j: usize = 0;
        while j < items.len()
            invariant
                j <= items.len(),
                iv == items_view(items@),
                env_ok(*self, iv),
                chk_program(iv) == chk_items_from(iv, j as int),
            decreases items.len() - j,
        {
            assert(iv[j as int] == item_view(items@[j as int]));
            match check_item(&items[j], self, Ghost(iv)) {
                Err(err) => {
                    return Err(err);
                },
                Ok(_) => {},
            }
            j = j + 1;
        }
        Ok(())
    }
}

/// The result of semantic analysis: the items, and the tables that code
/// generation reads.
pub struct TypedAst {
    pub items: Vec<Item>,
    /// `type Name = semantic(...)` aliases → their labels.
    pub type_env: Table<Vec<String>>,
    /// Names of the declared oracles, in order.
    pub oracle_names: Vec<String>,
    /// Lore name → text.
    pub lore_table: Table<String>,
    /// Constraint name → index in `items` of its definition.
    pub constraint_bodies: Table<usize>,
    /// Struct name → fields.
    pub struct_table: Table<Vec<(String, TypeExpr)>>,
    /// Enum name → variant names.
    pub enum_table: Table<Vec<String>>,
    /// Const name → compile-time value.
    pub const_table: Table<ConstValue>,
}

/// `t` holds the items `items` and their tables.
pub open spec fn typed_ok(t: TypedAst, items: Seq<ItemV>) -> bool {
    &&& items_view(t.items@) == items
    &&& tables_ok(t.type_env, t.lore_table, t.constraint_bodies, t.struct_table, t.enum_table, items)
    &&& strings_view(t.oracle_names@) == names_of(items, NameKind::Oracle)
    &&& const_map(t.const_table@) == spec_consts(items)
}

/// Semantic analysis: succeeds exactly when [`chk_program`] finds no error,
/// and then yields the items with their tables.
pub fn analyze(items: Vec<Item>) -> (r: Result<TypedAst, SemanticError>)
    ensures
        match r {
            Ok(t) => chk_program(items_view(items@)) is None && typed_ok(t, items_view(items@)),
            Err(e) => chk_program(items_view(items@)) == Some(sem_err_view(e)),
        },
{
    let env = GlobalEnv::build(&items);
    let (type_env, lore_table, constraint_bodies, struct_table, enum_table) = build_tables(&items);
    let oracle_names = collect_names(&items, NameKind::Oracle);
    let const_table = evaluate_consts(&items);
    match env.check_all(&items) {
        Err(e) => Err(e),
        Ok(_) => Ok(
            TypedAst {
                items,
                type_env,
                oracle_names,
                lore_table,
                constraint_bodies,
                struct_table,
                enum_table,
                const_table,
            },
        ),
    }
}

/// The text of the error.
pub open spec fn semantic_error_text(e: SemErrV) -> Seq<char> {
    match e {
        SemErrV::UndefinedVariable(x) => "undefined variable: `"@ + x + "`"@,
        SemErrV::UndefinedFunction(x) => "undefined function: `"@ + x + "`"@,
        SemErrV::UndefinedConstraint(x) => "undefined constraint: `"@ + x + "`"@,
        SemErrV::AssignToImmutable(x) => "cannot assign to immutable variable `"@ + x + "` — declare it with `let mut "@ + x + "`"@,
        SemErrV::AssignToNonVariable(x) => "cannot assign to builtin/callable/memory/lore/const `"@ + x + "`"@,
        SemErrV::ArithmeticOnString => "cannot perform arithmetic on strings"@,
        SemErrV::LogicalOnNonBool => "logical `&&`/`||` requires boolean operands"@,
    }
}

impl SemanticError {
    /// The error's text (see [`semantic_error_text`]).
    pub fn message(&self) -> (r: String)
        ensures
            r@ == semantic_error_text(sem_err_view(*self)),
    {
        match self {
            SemanticError::UndefinedVariable(x) => crate::text::concat3("undefined variable: `", x.as_str(), "`"),
            SemanticError::UndefinedFunction(x) => crate::text::concat3("undefined function: `", x.as_str(), "`"),
            SemanticError::UndefinedConstraint(x) => crate::text::concat3("undefined constraint: `", x.as_str(), "`"),
            SemanticError::AssignToImmutable(x) => crate::text::concat5("cannot assign to immutable variable `", x.as_str(), "` — declare it with `let mut ", x.as_str(), "`"),
            SemanticError::AssignToNonVariable(x) => crate::text::concat3("cannot assign to builtin/callable/memory/lore/const `", x.as_str(), "`"),
            SemanticError::ArithmeticOnString => String::from_str("cannot perform arithmetic on strings"),
            SemanticError::LogicalOnNonBool => String::from_str("logical `&&`/`||` requires boolean operands"),
        }
    }
}

} // verus!
