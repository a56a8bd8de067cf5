//! Parser: turns a token sequence into the abstract syntax tree.
//!
//! The grammar is a parsing expression grammar: alternatives are tried in
//! order and the first that succeeds wins; repetitions are greedy and give
//! back a partial repetition that fails. The `spec_*` functions state the
//! grammar over token views; each exec function computes its `spec_*`
//! counterpart, and [`parse`] succeeds exactly when [`spec_program`] does.
use vstd::prelude::*;
use crate::ast::{
    Item, FnDef, KernelDef, TypeAlias, SoulDef, SpellDef, SkillDef, MemoryDecl, OracleDecl, ConstraintDef,
    LoreDecl, UseDecl, StructDef, StructField, EnumDef, EnumVariant, ConstDef, Param, TypeExpr, PrimType, Stmt,
    BranchStmt, BranchCase, Expr, BinOp, TypeExprV, ExprV, StmtV, BranchCaseV, ParamV, ItemV, type_view,
    opt_type_view, expr_view, exprs_view, fields_view, stmt_view, block_view, cases_view, params_view,
    item_view, items_view, strings_view, lemma_exprs_view_push, lemma_exprs_view_index, lemma_fields_view_push,
    lemma_fields_view_index, lemma_block_view_push, lemma_block_view_index, lemma_cases_view_push,
    lemma_cases_view_index,
};
use crate::lexer::{Token, TokenV, token_view, tokens_view, string_tokens_ok};
use crate::text::{chars_of, chars_to_string, string_eq_lit, string_of, u64_to_string, nat_digits};

verus! {

// ── Token helpers ────────────────────────────────────────────────────────────

pub open spec fn at(t: Seq<TokenV>, p: int, k: TokenV) -> bool {
    0 <= p < t.len() && t[p] == k
}

pub open spec fn spec_ident(t: Seq<TokenV>, p: int) -> Option<Seq<char>> {
    if 0 <= p < t.len() {
        match t[p] {
            TokenV::Ident(s) => Some(s),
            _ => None,
        }
    } else {
        None
    }
}

/// The text between the quotes of a string literal token.
pub open spec fn spec_str_inner(t: Seq<TokenV>, p: int) -> Option<Seq<char>> {
    if 0 <= p < t.len() {
        match t[p] {
            TokenV::StringLit(s) => Some(s.subrange(1, s.len() - 1)),
            _ => None,
        }
    } else {
        None
    }
}

pub open spec fn tv(toks: &Vec<Token>) -> Seq<TokenV> {
    tokens_view(toks@)
}

fn ident(toks: &Vec<Token>, p: usize) -> (r: Option<String>)
    ensures
        match r {
            Some(s) => spec_ident(tv(toks), p as int) == Some(s@),
            None => spec_ident(tv(toks), p as int) is None,
        },
{
    if p < toks.len() {
        match &toks[p] {
            Token::Ident(s) => Some(s.clone()),
            _ => None,
        }
    } else {
        None
    }
}

fn str_inner(toks: &Vec<Token>, p: usize) -> (r: Option<String>)
    requires
        string_tokens_ok(tv(toks)),
    ensures
        match r {
            Some(s) => spec_str_inner(tv(toks), p as int) == Some(s@),
            None => spec_str_inner(tv(toks), p as int) is None,
        },
{
    if p < toks.len() {
        match &toks[p] {
            Token::StringLit(s) => {
                assert(tv(toks)[p as int] == TokenV::StringLit(s@));
                let v = chars_of(s.as_str());
                Some(chars_to_string(&v, 1, v.len() - 1))
            },
            _ => None,
        }
    } else {
        None
    }
}

// ── Type expressions ─────────────────────────────────────────────────────────

pub open spec fn spec_prim(t: Seq<TokenV>, p: int) -> Option<PrimType> {
    if at(t, p, TokenV::StrType) {
        Some(PrimType::Str)
    } else if at(t, p, TokenV::BoolType) {
        Some(PrimType::Bool)
    } else if at(t, p, TokenV::U32Type) {
        Some(PrimType::U32)
    } else if at(t, p, TokenV::F32Type) {
        Some(PrimType::F32)
    } else {
        None
    }
}

/// `str_inner ("," str_inner)*`, continuing after the labels in `acc`.
pub open spec fn spec_labels_rest(t: Seq<TokenV>, acc: Seq<Seq<char>>, p: int) -> (Seq<Seq<char>>, int)
    decreases t.len() - p,
{
    if p >= 0 && at(t, p, TokenV::Comma) && spec_str_inner(t, p + 1) is Some {
        spec_labels_rest(t, acc.push(spec_str_inner(t, p + 1)->0), p + 2)
    } else {
        (acc, p)
    }
}

/// Zero or more string literals separated by commas.
pub open spec fn spec_labels(t: Seq<TokenV>, p: int) -> (Seq<Seq<char>>, int) {
    match spec_str_inner(t, p) {
        Some(s) => spec_labels_rest(t, seq![s], p + 1),
        None => (Seq::empty(), p),
    }
}

pub open spec fn vec_word() -> Seq<char> {
    seq!['V', 'e', 'c']
}

/// `prim | "semantic" "(" labels ")" | "Vec" "<" type ">" | ident`.
pub open spec fn spec_type(t: Seq<TokenV>, p: int) -> Option<(TypeExprV, int)>
    decreases t.len() - p,
{
    if p < 0 || p >= t.len() {
        None
    } else if spec_prim(t, p) is Some {
        Some((TypeExprV::Primitive(spec_prim(t, p)->0), p + 1))
    } else if at(t, p, TokenV::Semantic) && at(t, p + 1, TokenV::LParen) && at(
        t,
        spec_labels(t, p + 2).1,
        TokenV::RParen,
    ) {
        Some((TypeExprV::Semantic(spec_labels(t, p + 2).0), spec_labels(t, p + 2).1 + 1))
    } else if spec_ident(t, p) == Some(vec_word()) && at(t, p + 1, TokenV::Lt) && (match spec_type(
        t,
        p + 2,
    ) {
        Some((inner, q)) => q > p + 2 && at(t, q, TokenV::Gt),
        None => false,
    }) {
        let (inner, q) = spec_type(t, p + 2)->0;
        Some((TypeExprV::Vec(Box::new(inner)), q + 1))
    } else if spec_ident(t, p) is Some {
        Some((TypeExprV::Named(spec_ident(t, p)->0), p + 1))
    } else {
        None
    }
}

fn prim(toks: &Vec<Token>, p: usize) -> (r: Option<PrimType>)
    ensures
        r == spec_prim(tv(toks), p as int),
{
    if p < toks.len() {
        match &toks[p] {
            Token::StrType => Some(PrimType::Str),
            Token::BoolType => Some(PrimType::Bool),
            Token::U32Type => Some(PrimType::U32),
            Token::F32Type => Some(PrimType::F32),
            _ => None,
        }
    } else {
        None
    }
}

fn is_tok_comma(toks: &Vec<Token>, p: usize) -> (r: bool)
    ensures
        r == at(tv(toks), p as int, TokenV::Comma),
{
    p < toks.len() && matches!(toks[p], Token::Comma)
}

fn labels(toks: &Vec<Token>, p: usize) -> (r: (Vec<String>, usize))
    requires
        string_tokens_ok(tv(toks)),
        p <= toks.len(),
    ensures
        spec_labels(tv(toks), p as int) == (strings_view(r.0@), r.1 as int),
        p <= r.1 <= toks.len(),
{
    let mut acc: Vec<String> = Vec::new();
    match str_inner(toks, p) {
        None => {
            assert(strings_view(acc@) =~= Seq::<Seq<char>>::empty());
            (acc, p)
        },
        Some(s) => {
            acc.push(s);
            assert(strings_view(acc@) =~= seq![spec_str_inner(tv(toks), p as int)->0]);
            let mut q = p + 1;
            while q < toks.len() && is_tok_comma(toks, q) && q + 1 < toks.len() && matches!(toks[q + 1], Token::StringLit(_))
                invariant
                    string_tokens_ok(tv(toks)),
                    p < q <= toks.len(),
                    spec_labels(tv(toks), p as int) == spec_labels_rest(tv(toks), strings_view(acc@), q as int),
                decreases toks.len() - q,
            {
                let s2 = str_inner(toks, q + 1).unwrap();
                let ghost before = strings_view(acc@);
                acc.push(s2);
                assert(strings_view(acc@) =~= before.push(s2@));
                q = q + 2;
            }
            proof {
                let t = tv(toks);
                if q < toks.len() && at(t, q as int, TokenV::Comma) && spec_str_inner(t, q + 1) is Some {
                    assert(q + 1 < toks.len());
                }
            }
            (acc, q)
        },
    }
}

fn is_vec_word(s: &String) -> (r: bool)
    ensures
        r == (s@ == vec_word()),
{
    let r = string_eq_lit(s, &['V', 'e', 'c']);
    assert(['V', 'e', 'c']@ =~= vec_word());
    r
}

fn parse_type(toks: &Vec<Token>, p: usize) -> (r: Option<(TypeExpr, usize)>)
    requires
        string_tokens_ok(tv(toks)),
        p <= toks.len(),
    ensures
        match r {
            Some((ty, q)) => spec_type(tv(toks), p as int) == Some((type_view(ty), q as int)) && p < q
                <= toks.len(),
            None => spec_type(tv(toks), p as int) is None,
        },
    decreases toks.len() - p,
{
    if p >= toks.len() {
        return None;
    }
    if let Some(pt) = prim(toks, p) {
        return Some((TypeExpr::Primitive(pt), p + 1));
    }
    if matches!(toks[p], Token::Semantic) && p + 1 < toks.len() && matches!(toks[p + 1], Token::LParen) {
        let (ls, q) = labels(toks, p + 2);
        if q < toks.len() && matches!(toks[q], Token::RParen) {
            return Some((TypeExpr::Semantic(ls), q + 1));
        }
    }
    if let Some(name) = ident(toks, p) {
        if is_vec_word(&name) && p + 1 < toks.len() && matches!(toks[p + 1], Token::Lt) {
            if let Some((inner, q)) = parse_type(toks, p + 2) {
                if q < toks.len() && matches!(toks[q], Token::Gt) {
                    return Some((TypeExpr::Vec(Box::new(inner)), q + 1));
                }
            }
        }
        return Some((TypeExpr::Named(name), p + 1));
    }
    None
}

/// The callee name that a built-in call keyword stands for.
pub open spec fn builtin_name(k: TokenV) -> Option<Seq<char>> {
    match k {
        TokenV::Println => Some(seq!['p', 'r', 'i', 'n', 't', 'l', 'n']),
        TokenV::CtxAlloc => Some(seq!['c', 't', 'x', '_', 'a', 'l', 'l', 'o', 'c']),
        TokenV::CtxFree => Some(seq!['c', 't', 'x', '_', 'f', 'r', 'e', 'e']),
        TokenV::CtxAppend => Some(seq!['c', 't', 'x', '_', 'a', 'p', 'p', 'e', 'n', 'd']),
        TokenV::CtxResize => Some(seq!['c', 't', 'x', '_', 'r', 'e', 's', 'i', 'z', 'e']),
        TokenV::CtxCompress => Some(seq!['c', 't', 'x', '_', 'c', 'o', 'm', 'p', 'r', 'e', 's', 's']),
        TokenV::CtxShare => Some(seq!['c', 't', 'x', '_', 's', 'h', 'a', 'r', 'e']),
        TokenV::Observe => Some(seq!['o', 'b', 's', 'e', 'r', 'v', 'e']),
        TokenV::Reason => Some(seq!['r', 'e', 'a', 's', 'o', 'n']),
        TokenV::Act => Some(seq!['a', 'c', 't']),
        TokenV::Verify => Some(seq!['v', 'e', 'r', 'i', 'f', 'y']),
        TokenV::Infer => Some(seq!['i', 'n', 'f', 'e', 'r']),
        TokenV::MemoryLoad => Some(seq!['m', 'e', 'm', 'o', 'r', 'y', '_', 'l', 'o', 'a', 'd']),
        TokenV::MemorySave => Some(seq!['m', 'e', 'm', 'o', 'r', 'y', '_', 's', 'a', 'v', 'e']),
        TokenV::MemoryDelete => Some(seq!['m', 'e', 'm', 'o', 'r', 'y', '_', 'd', 'e', 'l', 'e', 't', 'e']),
        _ => None,
    }
}

fn builtin_callee(t: &Token) -> (r: Option<String>)
    ensures
        match r {
            Some(s) => builtin_name(token_view(*t)) == Some(s@),
            None => builtin_name(token_view(*t)) is None,
        },
{
    match t {
        Token::Println => {
            let s = string_of(&['p', 'r', 'i', 'n', 't', 'l', 'n']);
            assert(['p', 'r', 'i', 'n', 't', 'l', 'n']@ =~= seq!['p', 'r', 'i', 'n', 't', 'l', 'n']);
            Some(s)
        },
        Token::CtxAlloc => {
            let s = string_of(&['c', 't', 'x', '_', 'a', 'l', 'l', 'o', 'c']);
            assert(['c', 't', 'x', '_', 'a', 'l', 'l', 'o', 'c']@ =~= seq!['c', 't', 'x', '_', 'a', 'l', 'l', 'o', 'c']);
            Some(s)
        },
        Token::CtxFree => {
            let s = string_of(&['c', 't', 'x', '_', 'f', 'r', 'e', 'e']);
            assert(['c', 't', 'x', '_', 'f', 'r', 'e', 'e']@ =~= seq!['c', 't', 'x', '_', 'f', 'r', 'e', 'e']);
            Some(s)
        },
        Token::CtxAppend => {
            let s = string_of(&['c', 't', 'x', '_', 'a', 'p', 'p', 'e', 'n', 'd']);
            assert(['c', 't', 'x', '_', 'a', 'p', 'p', 'e', 'n', 'd']@ =~= seq!['c', 't', 'x', '_', 'a', 'p', 'p', 'e', 'n', 'd']);
            Some(s)
        },
        Token::CtxResize => {
            let s = string_of(&['c', 't', 'x', '_', 'r', 'e', 's', 'i', 'z', 'e']);
            assert(['c', 't', 'x', '_', 'r', 'e', 's', 'i', 'z', 'e']@ =~= seq!['c', 't', 'x', '_', 'r', 'e', 's', 'i', 'z', 'e']);
            Some(s)
        },
        Token::CtxCompress => {
            let s = string_of(&['c', 't', 'x', '_', 'c', 'o', 'm', 'p', 'r', 'e', 's', 's']);
            assert(['c', 't', 'x', '_', 'c', 'o', 'm', 'p', 'r', 'e', 's', 's']@ =~= seq!['c', 't', 'x', '_', 'c', 'o', 'm', 'p', 'r', 'e', 's', 's']);
            Some(s)
        },
        Token::CtxShare => {
            let s = string_of(&['c', 't', 'x', '_', 's', 'h', 'a', 'r', 'e']);
            assert(['c', 't', 'x', '_', 's', 'h', 'a', 'r', 'e']@ =~= seq!['c', 't', 'x', '_', 's', 'h', 'a', 'r', 'e']);
            Some(s)
        },
        Token::Observe => {
            let s = string_of(&['o', 'b', 's', 'e', 'r', 'v', 'e']);
            assert(['o', 'b', 's', 'e', 'r', 'v', 'e']@ =~= seq!['o', 'b', 's', 'e', 'r', 'v', 'e']);
            Some(s)
        },
        Token::Reason => {
            let s = string_of(&['r', 'e', 'a', 's', 'o', 'n']);
            assert(['r', 'e', 'a', 's', 'o', 'n']@ =~= seq!['r', 'e', 'a', 's', 'o', 'n']);
            Some(s)
        },
        Token::Act => {
            let s = string_of(&['a', 'c', 't']);
            assert(['a', 'c', 't']@ =~= seq!['a', 'c', 't']);
            Some(s)
        },
        Token::Verify => {
            let s = string_of(&['v', 'e', 'r', 'i', 'f', 'y']);
            assert(['v', 'e', 'r', 'i', 'f', 'y']@ =~= seq!['v', 'e', 'r', 'i', 'f', 'y']);
            Some(s)
        },
        Token::Infer => {
            let s = string_of(&['i', 'n', 'f', 'e', 'r']);
            assert(['i', 'n', 'f', 'e', 'r']@ =~= seq!['i', 'n', 'f', 'e', 'r']);
            Some(s)
        },
        Token::MemoryLoad => {
            let s = string_of(&['m', 'e', 'm', 'o', 'r', 'y', '_', 'l', 'o', 'a', 'd']);
            assert(['m', 'e', 'm', 'o', 'r', 'y', '_', 'l', 'o', 'a', 'd']@ =~= seq!['m', 'e', 'm', 'o', 'r', 'y', '_', 'l', 'o', 'a', 'd']);
            Some(s)
        },
        Token::MemorySave => {
            let s = string_of(&['m', 'e', 'm', 'o', 'r', 'y', '_', 's', 'a', 'v', 'e']);
            assert(['m', 'e', 'm', 'o', 'r', 'y', '_', 's', 'a', 'v', 'e']@ =~= seq!['m', 'e', 'm', 'o', 'r', 'y', '_', 's', 'a', 'v', 'e']);
            Some(s)
        },
        Token::MemoryDelete => {
            let s = string_of(&['m', 'e', 'm', 'o', 'r', 'y', '_', 'd', 'e', 'l', 'e', 't', 'e']);
            assert(['m', 'e', 'm', 'o', 'r', 'y', '_', 'd', 'e', 'l', 'e', 't', 'e']@ =~= seq!['m', 'e', 'm', 'o', 'r', 'y', '_', 'd', 'e', 'l', 'e', 't', 'e']);
            Some(s)
        },
        _ => None,
    }
}

// ── Expressions ──────────────────────────────────────────────────────────────

pub open spec fn advances(p: int, q: int, n: int) -> bool {
    p < q <= n
}

/// The binary operator at `p` for precedence level `k`
/// (0: `||`, 1: `&&`, 2: `==` `!=`, 3: `>` `<`, 4: `+` `-`, 5: `*` `/` `%`).
pub open spec fn spec_op(t: Seq<TokenV>, p: int, k: int) -> Option<BinOp> {
    if !(0 <= p < t.len()) {
        None
    } else if k == 0 {
        if t[p] == TokenV::Or { Some(BinOp::Or) } else { None }
    } else if k == 1 {
        if t[p] == TokenV::And { Some(BinOp::And) } else { None }
    } else if k == 2 {
        if t[p] == TokenV::Eq { Some(BinOp::Eq) } else if t[p] == TokenV::NotEq { Some(BinOp::NotEq) } else { None }
    } else if k == 3 {
        if t[p] == TokenV::Gt { Some(BinOp::Gt) } else if t[p] == TokenV::Lt { Some(BinOp::Lt) } else { None }
    } else if k == 4 {
        if t[p] == TokenV::Plus { Some(BinOp::Add) } else if t[p] == TokenV::Minus { Some(BinOp::Sub) } else { None }
    } else if k == 5 {
        if t[p] == TokenV::Star {
            Some(BinOp::Mul)
        } else if t[p] == TokenV::Slash {
            Some(BinOp::Div)
        } else if t[p] == TokenV::Percent {
            Some(BinOp::Mod)
        } else {
            None
        }
    } else {
        None
    }
}

pub open spec fn level_rank(k: int) -> int {
    if k >= 6 { 3 } else { 9 - k }
}

pub open spec fn true_word() -> Seq<char> {
    seq!['t', 'r', 'u', 'e']
}

pub open spec fn false_word() -> Seq<char> {
    seq!['f', 'a', 'l', 's', 'e']
}

/// A trailing separator after a non-empty separated list.
pub open spec fn trailing(t: Seq<TokenV>, q: int, nonempty: bool) -> int {
    if nonempty && at(t, q, TokenV::Comma) { q + 1 } else { q }
}

/// An expression: `||` is the loosest operator, then `&&`, `==`/`!=`,
/// `>`/`<`, `+`/`-`, `*`/`/`/`%`; all associate to the left.
pub open spec fn spec_expr(t: Seq<TokenV>, p: int) -> Option<(ExprV, int)>
    decreases t.len() - p, 10int,
{
    spec_level(t, p, 0)
}

/// Level `k` of the precedence ladder; level 6 is a postfix expression.
pub open spec fn spec_level(t: Seq<TokenV>, p: int, k: int) -> Option<(ExprV, int)>
    decreases t.len() - p, level_rank(k),
{
    if k >= 6 {
        match spec_atom(t, p) {
            None => None,
            Some((b, p1)) => if advances(p, p1, t.len() as int) {
                Some(spec_postfix_rest(t, b, p1))
            } else {
                None
            },
        }
    } else {
        match spec_level(t, p, k + 1) {
            None => None,
            Some((l, p1)) => if advances(p, p1, t.len() as int) {
                Some(spec_bin_rest(t, k, l, p1))
            } else {
                None
            },
        }
    }
}

/// `(op operand)*` at level `k`, folded to the left onto `lhs`.
pub open spec fn spec_bin_rest(t: Seq<TokenV>, k: int, lhs: ExprV, p: int) -> (ExprV, int)
    decreases t.len() - p, 1int,
{
    match spec_op(t, p, k) {
        None => (lhs, p),
        Some(op) => match spec_level(t, p + 1, k + 1) {
            Some((r, p2)) => if advances(p + 1, p2, t.len() as int) {
                spec_bin_rest(t, k, ExprV::BinOp(Box::new(lhs), op, Box::new(r)), p2)
            } else {
                (lhs, p)
            },
            None => (lhs, p),
        },
    }
}

/// The additive operator a token spells, if any.
pub open spec fn additive_op(t: TokenV) -> Option<BinOp> {
    match t {
        TokenV::Plus => Some(BinOp::Add),
        TokenV::Minus => Some(BinOp::Sub),
        _ => None,
    }
}

/// The multiplicative operator a token spells, if any.
pub open spec fn multiplicative_op(t: TokenV) -> Option<BinOp> {
    match t {
        TokenV::Star => Some(BinOp::Mul),
        TokenV::Slash => Some(BinOp::Div),
        TokenV::Percent => Some(BinOp::Mod),
        _ => None,
    }
}

/// An integer literal at `p` followed by no postfix and by no operator of
/// level `k` or tighter is, at level `k`, the whole literal.
proof fn lemma_literal_level(t: Seq<TokenV>, p: int, n: u64, k: int)
    requires
        0 <= p < t.len(),
        0 <= k <= 6,
        t[p] == TokenV::IntLit(n),
        !at(t, p + 1, TokenV::LBracket),
        !at(t, p + 1, TokenV::Dot),
        forall|j: int| k <= j <= 6 ==> #[trigger] spec_op(t, p + 1, j) is None,
    ensures
        spec_level(t, p, k) == Some((ExprV::IntLit(n), p + 1)),
    decreases 6 - k,
{
    let lit = ExprV::IntLit(n);
    if k < 6 {
        lemma_literal_level(t, p, n, k + 1);
        assert(spec_op(t, p + 1, k) is None);
        assert(spec_bin_rest(t, k, lit, p + 1) == (lit, p + 1));
        assert(advances(p, p + 1, t.len() as int));
    } else {
        assert(spec_alt_builtin(t, p) is None);
        assert(spec_alt_user_call(t, p) is None);
        assert(spec_alt_lit(t, p) == Some((lit, p + 1)));
        assert(spec_atom(t, p) == Some((lit, p + 1)));
        assert(spec_postfix_rest(t, lit, p + 1) == (lit, p + 1));
        assert(advances(p, p + 1, t.len() as int));
    }
}

/// Multiplicative operators bind tighter than additive ones: `a + b * c`
/// (for any additive `+`/`-` and multiplicative `*`/`/`/`%`) parses with the
/// additive operator at the root and the product as its right operand, and
/// `a * b + c` with the product as the left operand.
pub proof fn law_multiplication_binds_tighter(a: u64, b: u64, c: u64, add: TokenV, mul: TokenV)
    requires
        additive_op(add) is Some,
        multiplicative_op(mul) is Some,
    ensures
        spec_expr(seq![TokenV::IntLit(a), add, TokenV::IntLit(b), mul, TokenV::IntLit(c)], 0) == Some((
            ExprV::BinOp(
                Box::new(ExprV::IntLit(a)),
                additive_op(add)->0,
                Box::new(ExprV::BinOp(Box::new(ExprV::IntLit(b)), multiplicative_op(mul)->0, Box::new(ExprV::IntLit(c)))),
            ),
            5int,
        )),
        spec_expr(seq![TokenV::IntLit(a), mul, TokenV::IntLit(b), add, TokenV::IntLit(c)], 0) == Some((
            ExprV::BinOp(
                Box::new(ExprV::BinOp(Box::new(ExprV::IntLit(a)), multiplicative_op(mul)->0, Box::new(ExprV::IntLit(b)))),
                additive_op(add)->0,
                Box::new(ExprV::IntLit(c)),
            ),
            5int,
        )),
{
    let (ao, mo) = (additive_op(add)->0, multiplicative_op(mul)->0);
    let (la, lb, lc) = (ExprV::IntLit(a), ExprV::IntLit(b), ExprV::IntLit(c));
    // a + b * c
    let t = seq![TokenV::IntLit(a), add, TokenV::IntLit(b), mul, TokenV::IntLit(c)];
    assert(spec_op(t, 1, 4) == Some(ao));
    assert(spec_op(t, 3, 5) == Some(mo));
    assert forall|j: int| 5 <= j <= 6 implies #[trigger] spec_op(t, 1, j) is None by {}
    assert forall|j: int| 6 <= j <= 6 implies #[trigger] spec_op(t, 3, j) is None by {}
    assert forall|j: int| 0 <= j <= 6 implies #[trigger] spec_op(t, 5, j) is None by {}
    lemma_literal_level(t, 4, c, 6);
    lemma_literal_level(t, 2, b, 6);
    lemma_literal_level(t, 0, a, 5);
    let bc = ExprV::BinOp(Box::new(lb), mo, Box::new(lc));
    assert(spec_bin_rest(t, 5, bc, 5) == (bc, 5int));
    assert(spec_bin_rest(t, 5, lb, 3) == (bc, 5int));
    assert(spec_level(t, 2, 5) == Some((bc, 5int)));
    let whole = ExprV::BinOp(Box::new(la), ao, Box::new(bc));
    assert(spec_bin_rest(t, 4, whole, 5) == (whole, 5int));
    assert(spec_bin_rest(t, 4, la, 1) == (whole, 5int));
    assert(spec_level(t, 0, 4) == Some((whole, 5int)));
    assert(spec_bin_rest(t, 3, whole, 5) == (whole, 5int));
    assert(spec_level(t, 0, 3) == Some((whole, 5int)));
    assert(spec_bin_rest(t, 2, whole, 5) == (whole, 5int));
    assert(spec_level(t, 0, 2) == Some((whole, 5int)));
    assert(spec_bin_rest(t, 1, whole, 5) == (whole, 5int));
    assert(spec_level(t, 0, 1) == Some((whole, 5int)));
    assert(spec_bin_rest(t, 0, whole, 5) == (whole, 5int));
    assert(spec_level(t, 0, 0) == Some((whole, 5int)));
    // a * b + c
    let u = seq![TokenV::IntLit(a), mul, TokenV::IntLit(b), add, TokenV::IntLit(c)];
    assert(spec_op(u, 1, 5) == Some(mo));
    assert(spec_op(u, 3, 4) == Some(ao));
    assert(spec_op(u, 3, 5) is None);
    assert forall|j: int| 6 <= j <= 6 implies #[trigger] spec_op(u, 1, j) is None by {}
    assert forall|j: int| 6 <= j <= 6 implies #[trigger] spec_op(u, 3, j) is None by {}
    assert forall|j: int| 0 <= j <= 6 implies #[trigger] spec_op(u, 5, j) is None by {}
    lemma_literal_level(u, 4, c, 5);
    lemma_literal_level(u, 2, b, 6);
    lemma_literal_level(u, 0, a, 6);
    let ab = ExprV::BinOp(Box::new(la), mo, Box::new(lb));
    assert(spec_bin_rest(u, 5, ab, 3) == (ab, 3int));
    assert(spec_bin_rest(u, 5, la, 1) == (ab, 3int));
    assert(spec_level(u, 0, 5) == Some((ab, 3int)));
    let whole2 = ExprV::BinOp(Box::new(ab), ao, Box::new(lc));
    assert(spec_bin_rest(u, 4, whole2, 5) == (whole2, 5int));
    assert(spec_bin_rest(u, 4, ab, 3) == (whole2, 5int));
    assert(spec_level(u, 0, 4) == Some((whole2, 5int)));
    assert(spec_bin_rest(u, 3, whole2, 5) == (whole2, 5int));
    assert(spec_level(u, 0, 3) == Some((whole2, 5int)));
    assert(spec_bin_rest(u, 2, whole2, 5) == (whole2, 5int));
    assert(spec_level(u, 0, 2) == Some((whole2, 5int)));
    assert(spec_bin_rest(u, 1, whole2, 5) == (whole2, 5int));
    assert(spec_level(u, 0, 1) == Some((whole2, 5int)));
    assert(spec_bin_rest(u, 0, whole2, 5) == (whole2, 5int));
    assert(spec_level(u, 0, 0) == Some((whole2, 5int)));
}

/// How tightly each binary operator binds, loosest first: `||`, `&&`,
/// `==`/`!=`, `>`/`<`, `+`/`-`, `*`/`/`/`%`.
pub open spec fn precedence(op: BinOp) -> int {
    match op {
        BinOp::Or => 0,
        BinOp::And => 1,
        BinOp::Eq | BinOp::NotEq => 2,
        BinOp::Gt | BinOp::Lt => 3,
        BinOp::Add | BinOp::Sub => 4,
        BinOp::Mul | BinOp::Div | BinOp::Mod => 5,
    }
}

/// The token that spells each binary operator.
pub open spec fn op_token(op: BinOp) -> TokenV {
    match op {
        BinOp::Or => TokenV::Or,
        BinOp::And => TokenV::And,
        BinOp::Eq => TokenV::Eq,
        BinOp::NotEq => TokenV::NotEq,
        BinOp::Gt => TokenV::Gt,
        BinOp::Lt => TokenV::Lt,
        BinOp::Add => TokenV::Plus,
        BinOp::Sub => TokenV::Minus,
        BinOp::Mul => TokenV::Star,
        BinOp::Div => TokenV::Slash,
        BinOp::Mod => TokenV::Percent,
    }
}

proof fn lemma_op_token_level(t: Seq<TokenV>, p: int, op: BinOp, k: int)
    requires
        0 <= p < t.len(),
        t[p] == op_token(op),
    ensures
        spec_op(t, p, k) == if k == precedence(op) { Some(op) } else { None::<BinOp> },
{
}

/// With nothing that binds at levels `k..j` after it, what level `j` reads
/// at `p` is also what every looser level `k` reads.
proof fn lemma_level_lift(t: Seq<TokenV>, p: int, e: ExprV, q: int, k: int, j: int)
    requires
        0 <= k <= j <= 6,
        p < q <= t.len(),
        spec_level(t, p, j) == Some((e, q)),
        forall|x: int| k <= x < j ==> #[trigger] spec_op(t, q, x) is None,
    ensures
        spec_level(t, p, k) == Some((e, q)),
    decreases j - k,
{
    if k < j {
        lemma_level_lift(t, p, e, q, k + 1, j);
        assert(spec_op(t, q, k) is None);
        assert(spec_bin_rest(t, k, e, q) == (e, q));
    }
}

/// Operators bind by their precedence and associate to the left: in
/// `a o1 b o2 c` the tighter operator takes its two neighbours first, and of
/// two operators that bind alike the left one does.
pub proof fn law_operator_precedence(a: u64, b: u64, c: u64, o1: BinOp, o2: BinOp)
    ensures
        ({
            let t = seq![TokenV::IntLit(a), op_token(o1), TokenV::IntLit(b), op_token(o2), TokenV::IntLit(c)];
            let (la, lb, lc) = (ExprV::IntLit(a), ExprV::IntLit(b), ExprV::IntLit(c));
            &&& precedence(o1) < precedence(o2) ==> spec_expr(t, 0) == Some((
                ExprV::BinOp(Box::new(la), o1, Box::new(ExprV::BinOp(Box::new(lb), o2, Box::new(lc)))),
                5int,
            ))
            &&& precedence(o1) >= precedence(o2) ==> spec_expr(t, 0) == Some((
                ExprV::BinOp(Box::new(ExprV::BinOp(Box::new(la), o1, Box::new(lb))), o2, Box::new(lc)),
                5int,
            ))
        }),
{
    let t = seq![TokenV::IntLit(a), op_token(o1), TokenV::IntLit(b), op_token(o2), TokenV::IntLit(c)];
    let (la, lb, lc) = (ExprV::IntLit(a), ExprV::IntLit(b), ExprV::IntLit(c));
    let (i, j) = (precedence(o1), precedence(o2));
    assert forall|x: int| #[trigger] spec_op(t, 1, x) == if x == i { Some(o1) } else { None::<BinOp> } by {
        lemma_op_token_level(t, 1, o1, x);
    }
    assert forall|x: int| #[trigger] spec_op(t, 3, x) == if x == j { Some(o2) } else { None::<BinOp> } by {
        lemma_op_token_level(t, 3, o2, x);
    }
    assert forall|x: int| #[trigger] spec_op(t, 5, x) is None by {}
    if i < j {
        lemma_literal_level(t, 4, c, j + 1);
        lemma_literal_level(t, 2, b, j + 1);
        let bc = ExprV::BinOp(Box::new(lb), o2, Box::new(lc));
        assert(spec_bin_rest(t, j, bc, 5) == (bc, 5int));
        assert(spec_bin_rest(t, j, lb, 3) == (bc, 5int));
        assert(spec_level(t, 2, j) == Some((bc, 5int)));
        lemma_level_lift(t, 2, bc, 5, i + 1, j);
        lemma_literal_level(t, 0, a, i + 1);
        let whole = ExprV::BinOp(Box::new(la), o1, Box::new(bc));
        assert(spec_bin_rest(t, i, whole, 5) == (whole, 5int));
        assert(spec_bin_rest(t, i, la, 1) == (whole, 5int));
        assert(spec_level(t, 0, i) == Some((whole, 5int)));
        lemma_level_lift(t, 0, whole, 5, 0, i);
    } else {
        lemma_literal_level(t, 0, a, i + 1);
        lemma_literal_level(t, 2, b, i + 1);
        let ab = ExprV::BinOp(Box::new(la), o1, Box::new(lb));
        if i == j {
            let whole = ExprV::BinOp(Box::new(ab), o2, Box::new(lc));
            lemma_literal_level(t, 4, c, i + 1);
            assert(spec_bin_rest(t, i, whole, 5) == (whole, 5int));
            assert(spec_bin_rest(t, i, ab, 3) == (whole, 5int));
            assert(spec_bin_rest(t, i, la, 1) == (whole, 5int));
            assert(spec_level(t, 0, i) == Some((whole, 5int)));
            lemma_level_lift(t, 0, whole, 5, 0, i);
        } else {
            assert(spec_bin_rest(t, i, ab, 3) == (ab, 3int));
            assert(spec_bin_rest(t, i, la, 1) == (ab, 3int));
            assert(spec_level(t, 0, i) == Some((ab, 3int)));
            lemma_level_lift(t, 0, ab, 3, j + 1, i);
            lemma_literal_level(t, 4, c, j + 1);
            let whole = ExprV::BinOp(Box::new(ab), o2, Box::new(lc));
            assert(spec_bin_rest(t, j, whole, 5) == (whole, 5int));
            assert(spec_bin_rest(t, j, ab, 3) == (whole, 5int));
            assert(spec_level(t, 0, j) == Some((whole, 5int)));
            lemma_level_lift(t, 0, whole, 5, 0, j);
        }
    }
}

/// The field named after a `.`: a tuple index or an identifier.
pub open spec fn spec_field_name(t: Seq<TokenV>, p: int) -> Option<Seq<char>> {
    if 0 <= p < t.len() {
        match t[p] {
            TokenV::IntLit(n) => Some(nat_digits(n as nat)),
            TokenV::Ident(s) => Some(s),
            _ => None,
        }
    } else {
        None
    }
}

/// `("[" expr "]" | "." field)*`, folded onto `b`.
pub open spec fn spec_postfix_rest(t: Seq<TokenV>, b: ExprV, p: int) -> (ExprV, int)
    decreases t.len() - p, 1int,
{
    if at(t, p, TokenV::LBracket) {
        match spec_expr(t, p + 1) {
            Some((i, p2)) => if advances(p + 1, p2, t.len() as int) && at(t, p2, TokenV::RBracket) {
                spec_postfix_rest(t, ExprV::Index(Box::new(b), Box::new(i)), p2 + 1)
            } else {
                (b, p)
            },
            None => (b, p),
        }
    } else if at(t, p, TokenV::Dot) && spec_field_name(t, p + 1) is Some {
        spec_postfix_rest(t, ExprV::FieldAccess(Box::new(b), spec_field_name(t, p + 1)->0), p + 2)
    } else {
        (b, p)
    }
}

pub open spec fn spec_exprs_rest(t: Seq<TokenV>, acc: Seq<ExprV>, p: int) -> (Seq<ExprV>, int)
    decreases t.len() - p, 1int,
{
    if at(t, p, TokenV::Comma) {
        match spec_expr(t, p + 1) {
            Some((e, p2)) => if advances(p + 1, p2, t.len() as int) {
                spec_exprs_rest(t, acc.push(e), p2)
            } else {
                (acc, p)
            },
            None => (acc, p),
        }
    } else {
        (acc, p)
    }
}

/// Zero or more expressions separated by commas.
pub open spec fn spec_exprs_sep(t: Seq<TokenV>, p: int) -> (Seq<ExprV>, int)
    decreases t.len() - p, 11int,
{
    match spec_expr(t, p) {
        Some((e, p1)) => if advances(p, p1, t.len() as int) {
            spec_exprs_rest(t, seq![e], p1)
        } else {
            (Seq::empty(), p)
        },
        None => (Seq::empty(), p),
    }
}

/// `"(" exprs ")"`.
pub open spec fn spec_args(t: Seq<TokenV>, p: int) -> Option<(Seq<ExprV>, int)>
    decreases t.len() - p, 1int,
{
    if at(t, p, TokenV::LParen) {
        let (es, q) = spec_exprs_sep(t, p + 1);
        if at(t, q, TokenV::RParen) {
            Some((es, q + 1))
        } else {
            None
        }
    } else {
        None
    }
}

/// `ident ":" expr`.
pub open spec fn spec_field_init(t: Seq<TokenV>, p: int) -> Option<((Seq<char>, ExprV), int)>
    decreases t.len() - p, 1int,
{
    match spec_ident(t, p) {
        Some(n) => if at(t, p + 1, TokenV::Colon) {
            match spec_expr(t, p + 2) {
                Some((e, q)) => if advances(p + 2, q, t.len() as int) {
                    Some(((n, e), q))
                } else {
                    None
                },
                None => None,
            }
        } else {
            None
        },
        None => None,
    }
}

pub open spec fn spec_fields_rest(t: Seq<TokenV>, acc: Seq<(Seq<char>, ExprV)>, p: int) -> (
    Seq<(Seq<char>, ExprV)>,
    int,
)
    decreases t.len() - p, 1int,
{
    if at(t, p, TokenV::Comma) {
        match spec_field_init(t, p + 1) {
            Some((f, q)) => if advances(p + 1, q, t.len() as int) {
                spec_fields_rest(t, acc.push(f), q)
            } else {
                (acc, p)
            },
            None => (acc, p),
        }
    } else {
        (acc, p)
    }
}

pub open spec fn spec_fields_sep(t: Seq<TokenV>, p: int) -> (Seq<(Seq<char>, ExprV)>, int)
    decreases t.len() - p, 2int,
{
    match spec_field_init(t, p) {
        Some((f, q)) => if advances(p, q, t.len() as int) {
            spec_fields_rest(t, seq![f], q)
        } else {
            (Seq::empty(), p)
        },
        None => (Seq::empty(), p),
    }
}

pub open spec fn spec_alt_builtin(t: Seq<TokenV>, p: int) -> Option<(ExprV, int)>
    decreases t.len() - p, 1int,
{
    if 0 <= p < t.len() && builtin_name(t[p]) is Some {
        match spec_args(t, p + 1) {
            Some((a, q)) => Some((ExprV::Call(builtin_name(t[p])->0, a), q)),
            None => None,
        }
    } else {
        None
    }
}

pub open spec fn spec_alt_user_call(t: Seq<TokenV>, p: int) -> Option<(ExprV, int)>
    decreases t.len() - p, 1int,
{
    match spec_ident(t, p) {
        Some(n) => match spec_args(t, p + 1) {
            Some((a, q)) => Some((ExprV::Call(n, a), q)),
            None => None,
        },
        None => None,
    }
}

pub open spec fn spec_alt_lit(t: Seq<TokenV>, p: int) -> Option<(ExprV, int)> {
    if 0 <= p < t.len() {
        match t[p] {
            TokenV::StringLit(s) => Some((ExprV::StringLit(s.subrange(1, s.len() - 1)), p + 1)),
            TokenV::FloatLit(s) => Some((ExprV::FloatLit(s), p + 1)),
            TokenV::IntLit(n) => Some((ExprV::IntLit(n), p + 1)),
            TokenV::Ident(s) => if s == true_word() {
                Some((ExprV::BoolLit(true), p + 1))
            } else if s == false_word() {
                Some((ExprV::BoolLit(false), p + 1))
            } else {
                None
            },
            TokenV::Break => Some((ExprV::Break, p + 1)),
            TokenV::Continue => Some((ExprV::Continue, p + 1)),
            _ => None,
        }
    } else {
        None
    }
}

pub open spec fn spec_alt_tuple(t: Seq<TokenV>, p: int) -> Option<(ExprV, int)>
    decreases t.len() - p, 1int,
{
    if at(t, p, TokenV::LParen) {
        let (es, q) = spec_exprs_sep(t, p + 1);
        if at(t, q, TokenV::RParen) {
            Some((if es.len() == 1 { es[0] } else { ExprV::Tuple(es) }, q + 1))
        } else {
            None
        }
    } else {
        None
    }
}

pub open spec fn spec_alt_vec(t: Seq<TokenV>, p: int) -> Option<(ExprV, int)>
    decreases t.len() - p, 1int,
{
    if at(t, p, TokenV::LBracket) {
        let (es, q) = spec_exprs_sep(t, p + 1);
        let q2 = trailing(t, q, es.len() > 0);
        if at(t, q2, TokenV::RBracket) {
            Some((ExprV::VecLit(es), q2 + 1))
        } else {
            None
        }
    } else {
        None
    }
}

pub open spec fn spec_alt_struct(t: Seq<TokenV>, p: int) -> Option<(ExprV, int)>
    decreases t.len() - p, 1int,
{
    match spec_ident(t, p) {
        Some(n) => if at(t, p + 1, TokenV::LBrace) {
            let (fs, q) = spec_fields_sep(t, p + 2);
            let q2 = trailing(t, q, fs.len() > 0);
            if at(t, q2, TokenV::RBrace) {
                Some((ExprV::StructConstruct { name: n, fields: fs }, q2 + 1))
            } else {
                None
            }
        } else {
            None
        },
        None => None,
    }
}

pub open spec fn spec_alt_enum(t: Seq<TokenV>, p: int) -> Option<(ExprV, int)>
    decreases t.len() - p, 1int,
{
    match spec_ident(t, p) {
        Some(v) => if at(t, p + 1, TokenV::LParen) {
            match spec_expr(t, p + 2) {
                Some((e, q)) => if advances(p + 2, q, t.len() as int) && at(t, q, TokenV::RParen) {
                    Some((ExprV::EnumVariant { variant: v, payload: Some(Box::new(e)) }, q + 1))
                } else {
                    None
                },
                None => None,
            }
        } else {
            None
        },
        None => None,
    }
}

/// An atom: built-in call, call, literal, `break`, `continue`, parenthesised
/// tuple, vector literal, struct construction, enum variant, identifier —
/// tried in this order.
pub open spec fn spec_atom(t: Seq<TokenV>, p: int) -> Option<(ExprV, int)>
    decreases t.len() - p, 2int,
{
    if spec_alt_builtin(t, p) is Some {
        spec_alt_builtin(t, p)
    } else if spec_alt_user_call(t, p) is Some {
        spec_alt_user_call(t, p)
    } else if spec_alt_lit(t, p) is Some {
        spec_alt_lit(t, p)
    } else if spec_alt_tuple(t, p) is Some {
        spec_alt_tuple(t, p)
    } else if spec_alt_vec(t, p) is Some {
        spec_alt_vec(t, p)
    } else if spec_alt_struct(t, p) is Some {
        spec_alt_struct(t, p)
    } else if spec_alt_enum(t, p) is Some {
        spec_alt_enum(t, p)
    } else {
        match spec_ident(t, p) {
            Some(n) => Some((ExprV::Ident(n), p + 1)),
            None => None,
        }
    }
}

// ── Expressions: exec ────────────────────────────────────────────────────────

fn op_at(toks: &Vec<Token>, p: usize, k: usize) -> (r: Option<BinOp>)
    ensures
        r == spec_op(tv(toks), p as int, k as int),
{
    if p >= toks.len() {
        return None;
    }
    let t = &toks[p];
    if k == 0 {
        if matches!(t, Token::Or) { Some(BinOp::Or) } else { None }
    } else if k == 1 {
        if matches!(t, Token::And) { Some(BinOp::And) } else { None }
    } else if k == 2 {
        if matches!(t, Token::Eq) { Some(BinOp::Eq) } else if matches!(t, Token::NotEq) { Some(BinOp::NotEq) } else { None }
    } else if k == 3 {
        if matches!(t, Token::Gt) { Some(BinOp::Gt) } else if matches!(t, Token::Lt) { Some(BinOp::Lt) } else { None }
    } else if k == 4 {
        if matches!(t, Token::Plus) { Some(BinOp::Add) } else if matches!(t, Token::Minus) { Some(BinOp::Sub) } else { None }
    } else if k == 5 {
        if matches!(t, Token::Star) {
            Some(BinOp::Mul)
        } else if matches!(t, Token::Slash) {
            Some(BinOp::Div)
        } else if matches!(t, Token::Percent) {
            Some(BinOp::Mod)
        } else {
            None
        }
    } else {
        None
    }
}

fn tok_is(toks: &Vec<Token>, p: usize, k: Ghost<TokenV>, b: bool) -> (r: bool)
    requires
        p < toks.len() ==> (b == (tv(toks)[p as int] == k@)),
    ensures
        r == at(tv(toks), p as int, k@),
{
    p < toks.len() && b
}

pub(crate) fn parse_expr(toks: &Vec<Token>, p: usize) -> (r: Option<(Expr, usize)>)
    requires
        string_tokens_ok(tv(toks)),
        p <= toks.len(),
    ensures
        match r {
            Some((e, q)) => spec_expr(tv(toks), p as int) == Some((expr_view(e), q as int)) && p < q
                <= toks.len(),
            None => spec_expr(tv(toks), p as int) is None,
        },
    decreases toks.len() - p, 10int,
{
    parse_level(toks, p, 0)
}

fn parse_level(toks: &Vec<Token>, p: usize, k: usize) -> (r: Option<(Expr, usize)>)
    requires
        string_tokens_ok(tv(toks)),
        p <= toks.len(),
        k <= 6,
    ensures
        match r {
            Some((e, q)) => spec_level(tv(toks), p as int, k as int) == Some((expr_view(e), q as int))
                && p < q <= toks.len(),
            None => spec_level(tv(toks), p as int, k as int) is None,
        },
    decreases toks.len() - p, level_rank(k as int),
{
    if k >= 6 {
        match parse_atom(toks, p) {
            None => None,
            Some((b, p1)) => Some(postfix_rest(toks, b, p1)),
        }
    } else {
        match parse_level(toks, p, k + 1) {
            None => None,
            Some((l, p1)) => Some(bin_rest(toks, k, l, p1)),
        }
    }
}

fn bin_rest(toks: &Vec<Token>, k: usize, lhs: Expr, p: usize) -> (r: (Expr, usize))
    requires
        string_tokens_ok(tv(toks)),
        p <= toks.len(),
        k < 6,
    ensures
        spec_bin_rest(tv(toks), k as int, expr_view(lhs), p as int) == (expr_view(r.0), r.1 as int),
        p <= r.1 <= toks.len(),
    decreases toks.len() - p, 1int,
{
    match op_at(toks, p, k) {
        None => (lhs, p),
        Some(op) => match parse_level(toks, p + 1, k + 1) {
            Some((rhs, p2)) => bin_rest(toks, k, Expr::BinOp(Box::new(lhs), op, Box::new(rhs)), p2),
            None => (lhs, p),
        },
    }
}

fn field_name(toks: &Vec<Token>, p: usize) -> (r: Option<String>)
    ensures
        match r {
            Some(s) => spec_field_name(tv(toks), p as int) == Some(s@),
            None => spec_field_name(tv(toks), p as int) is None,
        },
{
    if p < toks.len() {
        match &toks[p] {
            Token::IntLit(n) => Some(u64_to_string(*n)),
            Token::Ident(s) => Some(s.clone()),
            _ => None,
        }
    } else {
        None
    }
}

fn postfix_rest(toks: &Vec<Token>, b: Expr, p: usize) -> (r: (Expr, usize))
    requires
        string_tokens_ok(tv(toks)),
        p <= toks.len(),
    ensures
        spec_postfix_rest(tv(toks), expr_view(b), p as int) == (expr_view(r.0), r.1 as int),
        p <= r.1 <= toks.len(),
    decreases toks.len() - p, 1int,
{
    if p < toks.len() && matches!(toks[p], Token::LBracket) {
        match parse_expr(toks, p + 1) {
            Some((i, p2)) => {
                if p2 < toks.len() && matches!(toks[p2], Token::RBracket) {
                    postfix_rest(toks, Expr::Index(Box::new(b), Box::new(i)), p2 + 1)
                } else {
                    (b, p)
                }
            },
            None => (b, p),
        }
    } else if p < toks.len() && matches!(toks[p], Token::Dot) {
        match field_name(toks, p + 1) {
            Some(f) => postfix_rest(toks, Expr::FieldAccess(Box::new(b), f), p + 2),
            None => (b, p),
        }
    } else {
        (b, p)
    }
}

fn exprs_rest(toks: &Vec<Token>, acc: Vec<Expr>, p: usize) -> (r: (Vec<Expr>, usize))
    requires
        string_tokens_ok(tv(toks)),
        p <= toks.len(),
    ensures
        spec_exprs_rest(tv(toks), exprs_view(acc@), p as int) == (exprs_view(r.0@), r.1 as int),
        p <= r.1 <= toks.len(),
    decreases toks.len() - p, 1int,
{
    if p < toks.len() && matches!(toks[p], Token::Comma) {
        match parse_expr(toks, p + 1) {
            Some((e, p2)) => {
                let mut acc = acc;
                proof {
                    lemma_exprs_view_push(acc@, e);
                }
                acc.push(e);
                exprs_rest(toks, acc, p2)
            },
            None => (acc, p),
        }
    } else {
        (acc, p)
    }
}

fn exprs_sep(toks: &Vec<Token>, p: usize) -> (r: (Vec<Expr>, usize))
    requires
        string_tokens_ok(tv(toks)),
        p <= toks.len(),
    ensures
        spec_exprs_sep(tv(toks), p as int) == (exprs_view(r.0@), r.1 as int),
        p <= r.1 <= toks.len(),
    decreases toks.len() - p, 11int,
{
    match parse_expr(toks, p) {
        Some((e, p1)) => {
            let mut acc: Vec<Expr> = Vec::new();
            proof {
                lemma_exprs_view_push(acc@, e);
                assert(exprs_view(acc@) =~= Seq::<ExprV>::empty());
            }
            acc.push(e);
            assert(exprs_view(acc@) =~= seq![expr_view(e)]);
            exprs_rest(toks, acc, p1)
        },
        None => {
            let acc: Vec<Expr> = Vec::new();
            assert(exprs_view(acc@) =~= Seq::<ExprV>::empty());
            (acc, p)
        },
    }
}

fn parse_args(toks: &Vec<Token>, p: usize) -> (r: Option<(Vec<Expr>, usize)>)
    requires
        string_tokens_ok(tv(toks)),
        p <= toks.len(),
    ensures
        match r {
            Some((es, q)) => spec_args(tv(toks), p as int) == Some((exprs_view(es@), q as int)) && p < q
                <= toks.len(),
            None => spec_args(tv(toks), p as int) is None,
        },
    decreases toks.len() - p, 1int,
{
    if p < toks.len() && matches!(toks[p], Token::LParen) {
        let (es, q) = exprs_sep(toks, p + 1);
        if q < toks.len() && matches!(toks[q], Token::RParen) {
            Some((es, q + 1))
        } else {
            None
        }
    } else {
        None
    }
}

fn field_init(toks: &Vec<Token>, p: usize) -> (r: Option<((String, Expr), usize)>)
    requires
        string_tokens_ok(tv(toks)),
        p <= toks.len(),
    ensures
        match r {
            Some((f, q)) => spec_field_init(tv(toks), p as int) == Some(((f.0@, expr_view(f.1)), q as int))
                && p < q <= toks.len(),
            None => spec_field_init(tv(toks), p as int) is None,
        },
    decreases toks.len() - p, 1int,
{
    match ident(toks, p) {
        Some(n) => {
            if p + 1 < toks.len() && matches!(toks[p + 1], Token::Colon) {
                match parse_expr(toks, p + 2) {
                    Some((e, q)) => Some(((n, e), q)),
                    None => None,
                }
            } else {
                None
            }
        },
        None => None,
    }
}

fn fields_rest(toks: &Vec<Token>, acc: Vec<(String, Expr)>, p: usize) -> (r: (Vec<(String, Expr)>, usize))
    requires
        string_tokens_ok(tv(toks)),
        p <= toks.len(),
    ensures
        spec_fields_rest(tv(toks), fields_view(acc@), p as int) == (fields_view(r.0@), r.1 as int),
        p <= r.1 <= toks.len(),
    decreases toks.len() - p, 1int,
{
    if p < toks.len() && matches!(toks[p], Token::Comma) {
        match field_init(toks, p + 1) {
            Some((f, q)) => {
                let mut acc = acc;
                proof {
                    lemma_fields_view_push(acc@, f);
                }
                acc.push(f);
                fields_rest(toks, acc, q)
            },
            None => (acc, p),
        }
    } else {
        (acc, p)
    }
}

fn fields_sep(toks: &Vec<Token>, p: usize) -> (r: (Vec<(String, Expr)>, usize))
    requires
        string_tokens_ok(tv(toks)),
        p <= toks.len(),
    ensures
        spec_fields_sep(tv(toks), p as int) == (fields_view(r.0@), r.1 as int),
        p <= r.1 <= toks.len(),
    decreases toks.len() - p, 2int,
{
    let mut acc: Vec<(String, Expr)> = Vec::new();
    assert(fields_view(acc@) =~= Seq::<(Seq<char>, ExprV)>::empty());
    match field_init(toks, p) {
        Some((f, q)) => {
            proof {
                lemma_fields_view_push(acc@, f);
            }
            acc.push(f);
            assert(fields_view(acc@) =~= seq![(f.0@, expr_view(f.1))]);
            fields_rest(toks, acc, q)
        },
        None => (acc, p),
    }
}

fn trailing_comma(toks: &Vec<Token>, q: usize, nonempty: bool) -> (r: usize)
    requires
        q <= toks.len(),
    ensures
        r == trailing(tv(toks), q as int, nonempty),
        q <= r <= toks.len(),
{
    if nonempty && q < toks.len() && matches!(toks[q], Token::Comma) {
        q + 1
    } else {
        q
    }
}

fn is_word(s: &String, which: bool) -> (r: bool)
    ensures
        r == (s@ == (if which { true_word() } else { false_word() })),
{
    if which {
        let r = string_eq_lit(s, &['t', 'r', 'u', 'e']);
        assert(['t', 'r', 'u', 'e']@ =~= true_word());
        r
    } else {
        let r = string_eq_lit(s, &['f', 'a', 'l', 's', 'e']);
        assert(['f', 'a', 'l', 's', 'e']@ =~= false_word());
        r
    }
}

fn alt_lit(toks: &Vec<Token>, p: usize) -> (r: Option<(Expr, usize)>)
    requires
        string_tokens_ok(tv(toks)),
        p <= toks.len(),
    ensures
        match r {
            Some((e, q)) => spec_alt_lit(tv(toks), p as int) == Some((expr_view(e), q as int)) && p < q
                <= toks.len(),
            None => spec_alt_lit(tv(toks), p as int) is None,
        },
{
    if p >= toks.len() {
        return None;
    }
    match &toks[p] {
        Token::StringLit(_) => match str_inner(toks, p) {
            Some(s) => Some((Expr::StringLit(s), p + 1)),
            None => None,
        },
        Token::FloatLit(s) => Some((Expr::FloatLit(s.clone()), p + 1)),
        Token::IntLit(n) => Some((Expr::IntLit(*n), p + 1)),
        Token::Ident(s) => {
            if is_word(s, true) {
                Some((Expr::BoolLit(true), p + 1))
            } else if is_word(s, false) {
                Some((Expr::BoolLit(false), p + 1))
            } else {
                None
            }
        },
        Token::Break => Some((Expr::Break, p + 1)),
        Token::Continue => Some((Expr::Continue, p + 1)),
        _ => None,
    }
}

fn alt_call(toks: &Vec<Token>, p: usize) -> (r: Option<(Expr, usize)>)
    requires
        string_tokens_ok(tv(toks)),
        p < toks.len(),
    ensures
        match r {
            Some((e, q)) => (if spec_alt_builtin(tv(toks), p as int) is Some {
                spec_alt_builtin(tv(toks), p as int)
            } else {
                spec_alt_user_call(tv(toks), p as int)
            }) == Some((expr_view(e), q as int)) && p < q <= toks.len(),
            None => spec_alt_builtin(tv(toks), p as int) is None && spec_alt_user_call(tv(toks), p as int)
                is None,
        },
    decreases toks.len() - p, 1int,
{
    if let Some(name) = builtin_callee(&toks[p]) {
        return match parse_args(toks, p + 1) {
            Some((a, q)) => Some((Expr::Call(name, a), q)),
            None => None,
        };
    }
    match ident(toks, p) {
        Some(n) => match parse_args(toks, p + 1) {
            Some((a, q)) => Some((Expr::Call(n, a), q)),
            None => None,
        },
        None => None,
    }
}

fn alt_bracketed(toks: &Vec<Token>, p: usize) -> (r: Option<(Expr, usize)>)
    requires
        string_tokens_ok(tv(toks)),
        p < toks.len(),
    ensures
        match r {
            Some((e, q)) => (if spec_alt_tuple(tv(toks), p as int) is Some {
                spec_alt_tuple(tv(toks), p as int)
            } else {
                spec_alt_vec(tv(toks), p as int)
            }) == Some((expr_view(e), q as int)) && p < q <= toks.len(),
            None => spec_alt_tuple(tv(toks), p as int) is None && spec_alt_vec(tv(toks), p as int) is None,
        },
    decreases toks.len() - p, 1int,
{
    if matches!(toks[p], Token::LParen) {
        let (mut es, q) = exprs_sep(toks, p + 1);
        if q < toks.len() && matches!(toks[q], Token::RParen) {
            proof {
                lemma_exprs_view_index(es@);
            }
            if es.len() == 1 {
                let e = es.pop().unwrap();
                return Some((e, q + 1));
            }
            return Some((Expr::Tuple(es), q + 1));
        }
        return None;
    }
    if matches!(toks[p], Token::LBracket) {
        let (es, q) = exprs_sep(toks, p + 1);
        proof {
            lemma_exprs_view_index(es@);
        }
        let q2 = trailing_comma(toks, q, es.len() > 0);
        if q2 < toks.len() && matches!(toks[q2], Token::RBracket) {
            return Some((Expr::VecLit(es), q2 + 1));
        }
        return None;
    }
    None
}

fn alt_named(toks: &Vec<Token>, p: usize) -> (r: Option<(Expr, usize)>)
    requires
        string_tokens_ok(tv(toks)),
        p < toks.len(),
    ensures
        match r {
            Some((e, q)) => (if spec_alt_struct(tv(toks), p as int) is Some {
                spec_alt_struct(tv(toks), p as int)
            } else if spec_alt_enum(tv(toks), p as int) is Some {
                spec_alt_enum(tv(toks), p as int)
            } else {
                match spec_ident(tv(toks), p as int) {
                    Some(n) => Some((ExprV::Ident(n), p + 1)),
                    None => None,
                }
            }) == Some((expr_view(e), q as int)) && p < q <= toks.len(),
            None => spec_alt_struct(tv(toks), p as int) is None && spec_alt_enum(tv(toks), p as int) is None
                && spec_ident(tv(toks), p as int) is None,
        },
    decreases toks.len() - p, 1int,
{
    let n = match ident(toks, p) {
        Some(n) => n,
        None => {
            return None;
        },
    };
    if p + 1 < toks.len() && matches!(toks[p + 1], Token::LBrace) {
        let (fs, q) = fields_sep(toks, p + 2);
        proof {
            lemma_fields_view_index(fs@);
        }
        let q2 = trailing_comma(toks, q, fs.len() > 0);
        if q2 < toks.len() && matches!(toks[q2], Token::RBrace) {
            return Some((Expr::StructConstruct { name: n, fields: fs }, q2 + 1));
        }
    }
    if p + 1 < toks.len() && matches!(toks[p + 1], Token::LParen) {
        if let Some((e, q)) = parse_expr(toks, p + 2) {
            if q < toks.len() && matches!(toks[q], Token::RParen) {
                return Some((Expr::EnumVariant { variant: n, payload: Some(Box::new(e)) }, q + 1));
            }
        }
    }
    Some((Expr::Ident(n), p + 1))
}

fn parse_atom(toks: &Vec<Token>, p: usize) -> (r: Option<(Expr, usize)>)
    requires
        string_tokens_ok(tv(toks)),
        p <= toks.len(),
    ensures
        match r {
            Some((e, q)) => spec_atom(tv(toks), p as int) == Some((expr_view(e), q as int)) && p < q
                <= toks.len(),
            None => spec_atom(tv(toks), p as int) is None,
        },
    decreases toks.len() - p, 2int,
{
    if p >= toks.len() {
        return None;
    }
    if let Some(r) = alt_call(toks, p) {
        return Some(r);
    }
    if let Some(r) = alt_lit(toks, p) {
        return Some(r);
    }
    if let Some(r) = alt_bracketed(toks, p) {
        return Some(r);
    }
    alt_named(toks, p)
}

// ── Statements ───────────────────────────────────────────────────────────────

/// The subject of a `branch`: an identifier or the keyword `intent`.
pub open spec fn spec_name(t: Seq<TokenV>, p: int) -> Option<Seq<char>> {
    if 0 <= p < t.len() {
        match t[p] {
            TokenV::Ident(s) => Some(s),
            TokenV::Intent => Some(intent_word()),
            _ => None,
        }
    } else {
        None
    }
}

pub open spec fn intent_word() -> Seq<char> {
    seq!['i', 'n', 't', 'e', 'n', 't']
}

/// A branch threshold: a decimal literal, or an integer written as digits.
pub open spec fn spec_threshold(t: Seq<TokenV>, p: int) -> Option<Seq<char>> {
    if 0 <= p < t.len() {
        match t[p] {
            TokenV::FloatLit(s) => Some(s),
            TokenV::IntLit(n) => Some(nat_digits(n as nat)),
            _ => None,
        }
    } else {
        None
    }
}

/// A block: `"{" stmt* "}"`.
pub open spec fn spec_block(t: Seq<TokenV>, p: int) -> Option<(Seq<StmtV>, int)>
    decreases t.len() - p, 3int,
{
    if at(t, p, TokenV::LBrace) {
        spec_stmts(t, Seq::empty(), p + 1)
    } else {
        None
    }
}

/// `stmt* "}"`, continuing after the statements already in `acc`.
pub open spec fn spec_stmts(t: Seq<TokenV>, acc: Seq<StmtV>, p: int) -> Option<(Seq<StmtV>, int)>
    decreases t.len() - p, 2int,
{
    match spec_stmt(t, p) {
        Some((s, q)) => if advances(p, q, t.len() as int) {
            spec_stmts(t, acc.push(s), q)
        } else {
            None
        },
        None => if at(t, p, TokenV::RBrace) {
            Some((acc, p + 1))
        } else {
            None
        },
    }
}

/// A statement; the alternatives are tried in this order.
pub open spec fn spec_stmt(t: Seq<TokenV>, p: int) -> Option<(StmtV, int)>
    decreases t.len() - p, 1int,
{
    if spec_st_instruction(t, p) is Some {
        spec_st_instruction(t, p)
    } else if spec_st_apply(t, p) is Some {
        spec_st_apply(t, p)
    } else if spec_st_if(t, p) is Some {
        spec_st_if(t, p)
    } else if spec_st_loop(t, p) is Some {
        spec_st_loop(t, p)
    } else if spec_st_while(t, p) is Some {
        spec_st_while(t, p)
    } else if spec_st_for(t, p) is Some {
        spec_st_for(t, p)
    } else if spec_st_assign(t, p) is Some {
        spec_st_assign(t, p)
    } else if spec_st_let(t, p) is Some {
        spec_st_let(t, p)
    } else if spec_st_return(t, p) is Some {
        spec_st_return(t, p)
    } else if spec_st_branch(t, p) is Some {
        spec_st_branch(t, p)
    } else if spec_st_interruptible(t, p) is Some {
        spec_st_interruptible(t, p)
    } else {
        spec_st_expr(t, p)
    }
}

/// `instruction "text" ;`
pub open spec fn spec_st_instruction(t: Seq<TokenV>, p: int) -> Option<(StmtV, int)> {
    if at(t, p, TokenV::Instruction) && spec_str_inner(t, p + 1) is Some && at(t, p + 2, TokenV::Semi) {
        Some((StmtV::Instruction(spec_str_inner(t, p + 1)->0), p + 3))
    } else {
        None
    }
}

/// `apply Name ;`
pub open spec fn spec_st_apply(t: Seq<TokenV>, p: int) -> Option<(StmtV, int)> {
    if at(t, p, TokenV::Apply) && spec_ident(t, p + 1) is Some && at(t, p + 2, TokenV::Semi) {
        Some((StmtV::Apply(spec_ident(t, p + 1)->0), p + 3))
    } else {
        None
    }
}

/// `if expr block (else block)?`
pub open spec fn spec_st_if(t: Seq<TokenV>, p: int) -> Option<(StmtV, int)>
    decreases t.len() - p, 0int,
{
    if at(t, p, TokenV::If) {
        match spec_expr(t, p + 1) {
            Some((c, q)) => if advances(p + 1, q, t.len() as int) {
                match spec_block(t, q) {
                    Some((tb, q2)) => if advances(q, q2, t.len() as int) {
                        if at(t, q2, TokenV::Else) && spec_block(t, q2 + 1) is Some {
                            let (eb, q3) = spec_block(t, q2 + 1)->0;
                            Some((StmtV::If { condition: c, then_branch: tb, else_branch: Some(eb) }, q3))
                        } else {
                            Some((StmtV::If { condition: c, then_branch: tb, else_branch: None }, q2))
                        }
                    } else {
                        None
                    },
                    None => None,
                }
            } else {
                None
            },
            None => None,
        }
    } else {
        None
    }
}

/// `loop block`
pub open spec fn spec_st_loop(t: Seq<TokenV>, p: int) -> Option<(StmtV, int)>
    decreases t.len() - p, 0int,
{
    if at(t, p, TokenV::Loop) {
        match spec_block(t, p + 1) {
            Some((b, q)) => Some((StmtV::Loop(b), q)),
            None => None,
        }
    } else {
        None
    }
}

/// `while expr block`
pub open spec fn spec_st_while(t: Seq<TokenV>, p: int) -> Option<(StmtV, int)>
    decreases t.len() - p, 0int,
{
    if at(t, p, TokenV::While) {
        match spec_expr(t, p + 1) {
            Some((c, q)) => if advances(p + 1, q, t.len() as int) {
                match spec_block(t, q) {
                    Some((b, q2)) => Some((StmtV::While { condition: c, body: b }, q2)),
                    None => None,
                }
            } else {
                None
            },
            None => None,
        }
    } else {
        None
    }
}

/// `for ident in expr block`
pub open spec fn spec_st_for(t: Seq<TokenV>, p: int) -> Option<(StmtV, int)>
    decreases t.len() - p, 0int,
{
    if at(t, p, TokenV::For) && spec_ident(t, p + 1) is Some && at(t, p + 2, TokenV::In) {
        match spec_expr(t, p + 3) {
            Some((c, q)) => if advances(p + 3, q, t.len() as int) {
                match spec_block(t, q) {
                    Some((b, q2)) => Some((StmtV::For { item: spec_ident(t, p + 1)->0, collection: c, body: b }, q2)),
                    None => None,
                }
            } else {
                None
            },
            None => None,
        }
    } else {
        None
    }
}

/// `ident = expr ;`
pub open spec fn spec_st_assign(t: Seq<TokenV>, p: int) -> Option<(StmtV, int)> {
    if spec_ident(t, p) is Some && at(t, p + 1, TokenV::Assign) {
        match spec_expr(t, p + 2) {
            Some((e, q)) => if at(t, q, TokenV::Semi) {
                Some((StmtV::Assign(spec_ident(t, p)->0, e), q + 1))
            } else {
                None
            },
            None => None,
        }
    } else {
        None
    }
}

/// The optional `: type` of a `let`, starting at `p`.
pub open spec fn spec_let_type(t: Seq<TokenV>, p: int) -> (Option<TypeExprV>, int) {
    if at(t, p, TokenV::Colon) && spec_type(t, p + 1) is Some {
        (Some((spec_type(t, p + 1)->0).0), (spec_type(t, p + 1)->0).1)
    } else {
        (None, p)
    }
}

/// `let mut? ident (: type)? = expr ;`
pub open spec fn spec_st_let(t: Seq<TokenV>, p: int) -> Option<(StmtV, int)> {
    if at(t, p, TokenV::Let) {
        let m = at(t, p + 1, TokenV::Mut);
        let p1 = if m { p + 2 } else { p + 1 };
        match spec_ident(t, p1) {
            Some(n) => {
                let (ty, q) = spec_let_type(t, p1 + 1);
                if at(t, q, TokenV::Assign) {
                    match spec_expr(t, q + 1) {
                        Some((e, q2)) => if at(t, q2, TokenV::Semi) {
                            Some((StmtV::Let(n, ty, Some(e), m), q2 + 1))
                        } else {
                            None
                        },
                        None => None,
                    }
                } else {
                    None
                }
            },
            None => None,
        }
    } else {
        None
    }
}

/// `return expr ;`
pub open spec fn spec_st_return(t: Seq<TokenV>, p: int) -> Option<(StmtV, int)> {
    if at(t, p, TokenV::Return) {
        match spec_expr(t, p + 1) {
            Some((e, q)) => if at(t, q, TokenV::Semi) {
                Some((StmtV::Return(e), q + 1))
            } else {
                None
            },
            None => None,
        }
    } else {
        None
    }
}

/// `case "label" ( ident (>|<) threshold ) => block`
pub open spec fn spec_case(t: Seq<TokenV>, p: int) -> Option<(BranchCaseV, int)>
    decreases t.len() - p, 0int,
{
    if at(t, p, TokenV::Case) && spec_str_inner(t, p + 1) is Some && at(t, p + 2, TokenV::LParen) && spec_ident(
        t,
        p + 3,
    ) is Some && (at(t, p + 4, TokenV::Gt) || at(t, p + 4, TokenV::Lt)) && spec_threshold(t, p + 5) is Some
        && at(t, p + 6, TokenV::RParen) && at(t, p + 7, TokenV::FatArrow) {
        match spec_block(t, p + 8) {
            Some((b, q)) => Some(
                (
                    BranchCaseV {
                        label: spec_str_inner(t, p + 1)->0,
                        confidence: spec_threshold(t, p + 5)->0,
                        body: b,
                    },
                    q,
                ),
            ),
            None => None,
        }
    } else {
        None
    }
}

/// `case* (default => block)? "}"`, continuing after the cases in `acc`.
pub open spec fn spec_branch_body(t: Seq<TokenV>, acc: Seq<BranchCaseV>, p: int) -> Option<
    (Seq<BranchCaseV>, Option<Seq<StmtV>>, int),
>
    decreases t.len() - p, 1int,
{
    match spec_case(t, p) {
        Some((c, q)) => if advances(p, q, t.len() as int) {
            spec_branch_body(t, acc.push(c), q)
        } else {
            None
        },
        None => {
            let (d, q) = if at(t, p, TokenV::Default) && at(t, p + 1, TokenV::FatArrow) && spec_block(t, p + 2) is Some {
                (Some((spec_block(t, p + 2)->0).0), (spec_block(t, p + 2)->0).1)
            } else {
                (None, p)
            };
            if at(t, q, TokenV::RBrace) {
                Some((acc, d, q + 1))
            } else {
                None
            }
        },
    }
}

/// `branch name { case* (default => block)? }`
pub open spec fn spec_st_branch(t: Seq<TokenV>, p: int) -> Option<(StmtV, int)>
    decreases t.len() - p, 0int,
{
    if at(t, p, TokenV::Branch) && spec_name(t, p + 1) is Some && at(t, p + 2, TokenV::LBrace) {
        match spec_branch_body(t, Seq::empty(), p + 3) {
            Some((cs, d, q)) => Some((StmtV::Branch { var: spec_name(t, p + 1)->0, cases: cs, default: d }, q)),
            None => None,
        }
    } else {
        None
    }
}

/// `interruptible block`
pub open spec fn spec_st_interruptible(t: Seq<TokenV>, p: int) -> Option<(StmtV, int)>
    decreases t.len() - p, 0int,
{
    if at(t, p, TokenV::Interruptible) {
        match spec_block(t, p + 1) {
            Some((b, q)) => Some((StmtV::Interruptible(b), q)),
            None => None,
        }
    } else {
        None
    }
}

/// `expr ;`
pub open spec fn spec_st_expr(t: Seq<TokenV>, p: int) -> Option<(StmtV, int)> {
    match spec_expr(t, p) {
        Some((e, q)) => if at(t, q, TokenV::Semi) {
            Some((StmtV::Expr(e), q + 1))
        } else {
            None
        },
        None => None,
    }
}

// ── Statements: exec ─────────────────────────────────────────────────────────

fn name_at(toks: &Vec<Token>, p: usize) -> (r: Option<String>)
    ensures
        match r {
            Some(s) => spec_name(tv(toks), p as int) == Some(s@),
            None => spec_name(tv(toks), p as int) is None,
        },
{
    if p < toks.len() {
        match &toks[p] {
            Token::Ident(s) => Some(s.clone()),
            Token::Intent => {
                let s = string_of(&['i', 'n', 't', 'e', 'n', 't']);
                assert(['i', 'n', 't', 'e', 'n', 't']@ =~= intent_word());
                Some(s)
            },
            _ => None,
        }
    } else {
        None
    }
}

fn threshold_at(toks: &Vec<Token>, p: usize) -> (r: Option<String>)
    ensures
        match r {
            Some(s) => spec_threshold(tv(toks), p as int) == Some(s@),
            None => spec_threshold(tv(toks), p as int) is None,
        },
{
    if p < toks.len() {
        match &toks[p] {
            Token::FloatLit(s) => Some(s.clone()),
            Token::IntLit(n) => Some(u64_to_string(*n)),
            _ => None,
        }
    } else {
        None
    }
}

fn parse_block(toks: &Vec<Token>, p: usize) -> (r: Option<(Vec<Stmt>, usize)>)
    requires
        string_tokens_ok(tv(toks)),
        p <= toks.len(),
    ensures
        match r {
            Some((b, q)) => spec_block(tv(toks), p as int) == Some((block_view(b@), q as int)) && p < q
                <= toks.len(),
            None => spec_block(tv(toks), p as int) is None,
        },
    decreases toks.len() - p, 3int,
{
    if p < toks.len() && matches!(toks[p], Token::LBrace) {
        let acc: Vec<Stmt> = Vec::new();
        assert(block_view(acc@) =~= Seq::<StmtV>::empty());
        stmts_rest(toks, acc, p + 1)
    } else {
        None
    }
}

fn stmts_rest(toks: &Vec<Token>, acc: Vec<Stmt>, p: usize) -> (r: Option<(Vec<Stmt>, usize)>)
    requires
        string_tokens_ok(tv(toks)),
        p <= toks.len(),
    ensures
        match r {
            Some((b, q)) => spec_stmts(tv(toks), block_view(acc@), p as int) == Some((block_view(b@), q as int))
                && p < q <= toks.len(),
            None => spec_stmts(tv(toks), block_view(acc@), p as int) is None,
        },
    decreases toks.len() - p, 2int,
{
    match parse_stmt(toks, p) {
        Some((s, q)) => {
            let mut acc = acc;
            proof {
                lemma_block_view_push(acc@, s);
            }
            acc.push(s);
            stmts_rest(toks, acc, q)
        },
        None => {
            if p < toks.len() && matches!(toks[p], Token::RBrace) {
                Some((acc, p + 1))
            } else {
                None
            }
        },
    }
}

fn parse_stmt(toks: &Vec<Token>, p: usize) -> (r: Option<(Stmt, usize)>)
    requires
        string_tokens_ok(tv(toks)),
        p <= toks.len(),
    ensures
        match r {
            Some((s, q)) => spec_stmt(tv(toks), p as int) == Some((stmt_view(s), q as int)) && p < q
                <= toks.len(),
            None => spec_stmt(tv(toks), p as int) is None,
        },
    decreases toks.len() - p, 1int,
{
    if let Some(r) = st_simple(toks, p) {
        return Some(r);
    }
    if let Some(r) = st_if(toks, p) {
        return Some(r);
    }
    if let Some(r) = st_loop(toks, p) {
        return Some(r);
    }
    if let Some(r) = st_while(toks, p) {
        return Some(r);
    }
    if let Some(r) = st_for(toks, p) {
        return Some(r);
    }
    if let Some(r) = st_assign(toks, p) {
        return Some(r);
    }
    if let Some(r) = st_let(toks, p) {
        return Some(r);
    }
    if let Some(r) = st_return(toks, p) {
        return Some(r);
    }
    if let Some(r) = st_branch(toks, p) {
        return Some(r);
    }
    if let Some(r) = st_interruptible(toks, p) {
        return Some(r);
    }
    st_expr(toks, p)
}

/// `instruction "text";` or `apply Name;`.
fn st_simple(toks: &Vec<Token>, p: usize) -> (r: Option<(Stmt, usize)>)
    requires
        string_tokens_ok(tv(toks)),
        p <= toks.len(),
    ensures
        match r {
            Some((s, q)) => (if spec_st_instruction(tv(toks), p as int) is Some {
                spec_st_instruction(tv(toks), p as int)
            } else {
                spec_st_apply(tv(toks), p as int)
            }) == Some((stmt_view(s), q as int)) && p < q <= toks.len(),
            None => spec_st_instruction(tv(toks), p as int) is None && spec_st_apply(tv(toks), p as int) is None,
        },
{
    if toks.len() - p > 2 && matches!(toks[p], Token::Instruction) && matches!(toks[p + 2], Token::Semi) {
        if let Some(s) = str_inner(toks, p + 1) {
            return Some((Stmt::Instruction(s), p + 3));
        }
    }
    if toks.len() - p > 2 && matches!(toks[p], Token::Apply) && matches!(toks[p + 2], Token::Semi) {
        if let Some(n) = ident(toks, p + 1) {
            return Some((Stmt::Apply(n), p + 3));
        }
    }
    None
}

fn st_if(toks: &Vec<Token>, p: usize) -> (r: Option<(Stmt, usize)>)
    requires
        string_tokens_ok(tv(toks)),
        p <= toks.len(),
    ensures
        match r {
            Some((s, q)) => spec_st_if(tv(toks), p as int) == Some((stmt_view(s), q as int)) && p < q
                <= toks.len(),
            None => spec_st_if(tv(toks), p as int) is None,
        },
    decreases toks.len() - p, 0int,
{
    if !(p < toks.len() && matches!(toks[p], Token::If)) {
        return None;
    }
    let (c, q) = match parse_expr(toks, p + 1) {
        Some(x) => x,
        None => {
            return None;
        },
    };
    let (tb, q2) = match parse_block(toks, q) {
        Some(x) => x,
        None => {
            return None;
        },
    };
    if q2 < toks.len() && matches!(toks[q2], Token::Else) {
        if let Some((eb, q3)) = parse_block(toks, q2 + 1) {
            return Some((Stmt::If { condition: c, then_branch: tb, else_branch: Some(eb) }, q3));
        }
    }
    Some((Stmt::If { condition: c, then_branch: tb, else_branch: None }, q2))
}

fn st_loop(toks: &Vec<Token>, p: usize) -> (r: Option<(Stmt, usize)>)
    requires
        string_tokens_ok(tv(toks)),
        p <= toks.len(),
    ensures
        match r {
            Some((s, q)) => spec_st_loop(tv(toks), p as int) == Some((stmt_view(s), q as int)) && p < q
                <= toks.len(),
            None => spec_st_loop(tv(toks), p as int) is None,
        },
    decreases toks.len() - p, 0int,
{
    if !(p < toks.len() && matches!(toks[p], Token::Loop)) {
        return None;
    }
    match parse_block(toks, p + 1) {
        Some((b, q)) => Some((Stmt::Loop(b), q)),
        None => None,
    }
}

fn st_while(toks: &Vec<Token>, p: usize) -> (r: Option<(Stmt, usize)>)
    requires
        string_tokens_ok(tv(toks)),
        p <= toks.len(),
    ensures
        match r {
            Some((s, q)) => spec_st_while(tv(toks), p as int) == Some((stmt_view(s), q as int)) && p < q
                <= toks.len(),
            None => spec_st_while(tv(toks), p as int) is None,
        },
    decreases toks.len() - p, 0int,
{
    if !(p < toks.len() && matches!(toks[p], Token::While)) {
        return None;
    }
    let (c, q) = match parse_expr(toks, p + 1) {
        Some(x) => x,
        None => {
            return None;
        },
    };
    match parse_block(toks, q) {
        Some((b, q2)) => Some((Stmt::While { condition: c, body: b }, q2)),
        None => None,
    }
}

fn st_for(toks: &Vec<Token>, p: usize) -> (r: Option<(Stmt, usize)>)
    requires
        string_tokens_ok(tv(toks)),
        p <= toks.len(),
    ensures
        match r {
            Some((s, q)) => spec_st_for(tv(toks), p as int) == Some((stmt_view(s), q as int)) && p < q
                <= toks.len(),
            None => spec_st_for(tv(toks), p as int) is None,
        },
    decreases toks.len() - p, 0int,
{
    if !(toks.len() - p > 2 && matches!(toks[p], Token::For) && matches!(toks[p + 2], Token::In)) {
        return None;
    }
    let item = match ident(toks, p + 1) {
        Some(n) => n,
        None => {
            return None;
        },
    };
    let (c, q) = match parse_expr(toks, p + 3) {
        Some(x) => x,
        None => {
            return None;
        },
    };
    match parse_block(toks, q) {
        Some((b, q2)) => Some((Stmt::For { item, collection: c, body: b }, q2)),
        None => None,
    }
}

fn st_assign(toks: &Vec<Token>, p: usize) -> (r: Option<(Stmt, usize)>)
    requires
        string_tokens_ok(tv(toks)),
        p <= toks.len(),
    ensures
        match r {
            Some((s, q)) => spec_st_assign(tv(toks), p as int) == Some((stmt_view(s), q as int)) && p < q
                <= toks.len(),
            None => spec_st_assign(tv(toks), p as int) is None,
        },
{
    let n = match ident(toks, p) {
        Some(n) => n,
        None => {
            return None;
        },
    };
    if !(p + 1 < toks.len() && matches!(toks[p + 1], Token::Assign)) {
        return None;
    }
    match parse_expr(toks, p + 2) {
        Some((e, q)) => if q < toks.len() && matches!(toks[q], Token::Semi) {
            Some((Stmt::Assign(n, e), q + 1))
        } else {
            None
        },
        None => None,
    }
}

fn let_type(toks: &Vec<Token>, p: usize) -> (r: (Option<TypeExpr>, usize))
    requires
        string_tokens_ok(tv(toks)),
        p <= toks.len(),
    ensures
        spec_let_type(tv(toks), p as int) == (opt_type_view(r.0), r.1 as int),
        p <= r.1 <= toks.len(),
{
    if p < toks.len() && matches!(toks[p], Token::Colon) {
        if let Some((ty, q)) = parse_type(toks, p + 1) {
            return (Some(ty), q);
        }
    }
    (None, p)
}

fn st_let(toks: &Vec<Token>, p: usize) -> (r: Option<(Stmt, usize)>)
    requires
        string_tokens_ok(tv(toks)),
        p <= toks.len(),
    ensures
        match r {
            Some((s, q)) => spec_st_let(tv(toks), p as int) == Some((stmt_view(s), q as int)) && p < q
                <= toks.len(),
            None => spec_st_let(tv(toks), p as int) is None,
        },
{
    if !(p < toks.len() && matches!(toks[p], Token::Let)) {
        return None;
    }
    let m = p + 1 < toks.len() && matches!(toks[p + 1], Token::Mut);
    let p1 = if m { p + 2 } else { p + 1 };
    let n = match ident(toks, p1) {
        Some(n) => n,
        None => {
            return None;
        },
    };
    let (ty, q) = let_type(toks, p1 + 1);
    if !(q < toks.len() && matches!(toks[q], Token::Assign)) {
        return None;
    }
    match parse_expr(toks, q + 1) {
        Some((e, q2)) => if q2 < toks.len() && matches!(toks[q2], Token::Semi) {
            Some((Stmt::Let(n, ty, Some(e), m), q2 + 1))
        } else {
            None
        },
        None => None,
    }
}

fn st_return(toks: &Vec<Token>, p: usize) -> (r: Option<(Stmt, usize)>)
    requires
        string_tokens_ok(tv(toks)),
        p <= toks.len(),
    ensures
        match r {
            Some((s, q)) => spec_st_return(tv(toks), p as int) == Some((stmt_view(s), q as int)) && p < q
                <= toks.len(),
            None => spec_st_return(tv(toks), p as int) is None,
        },
{
    if !(p < toks.len() && matches!(toks[p], Token::Return)) {
        return None;
    }
    match parse_expr(toks, p + 1) {
        Some((e, q)) => if q < toks.len() && matches!(toks[q], Token::Semi) {
            Some((Stmt::Return(e), q + 1))
        } else {
            None
        },
        None => None,
    }
}

fn parse_case(toks: &Vec<Token>, p: usize) -> (r: Option<(BranchCase, usize)>)
    requires
        string_tokens_ok(tv(toks)),
        p <= toks.len(),
    ensures
        match r {
            Some((c, q)) => spec_case(tv(toks), p as int) == Some(
                (BranchCaseV { label: c.label@, confidence: c.confidence@, body: block_view(c.body@) }, q as int),
            ) && p < q <= toks.len(),
            None => spec_case(tv(toks), p as int) is None,
        },
    decreases toks.len() - p, 0int,
{
    if !(toks.len() - p > 7 && matches!(toks[p], Token::Case) && matches!(toks[p + 2], Token::LParen)
        && (matches!(toks[p + 4], Token::Gt) || matches!(toks[p + 4], Token::Lt)) && matches!(
        toks[p + 6],
        Token::RParen,
    ) && matches!(toks[p + 7], Token::FatArrow)) {
        return None;
    }
    let label = match str_inner(toks, p + 1) {
        Some(s) => s,
        None => {
            return None;
        },
    };
    if ident(toks, p + 3).is_none() {
        return None;
    }
    let confidence = match threshold_at(toks, p + 5) {
        Some(s) => s,
        None => {
            return None;
        },
    };
    match parse_block(toks, p + 8) {
        Some((body, q)) => Some((BranchCase { label, confidence, body }, q)),
        None => None,
    }
}

fn branch_body(toks: &Vec<Token>, acc: Vec<BranchCase>, p: usize) -> (r: Option<
    (Vec<BranchCase>, Option<Vec<Stmt>>, usize),
>)
    requires
        string_tokens_ok(tv(toks)),
        p <= toks.len(),
    ensures
        match r {
            Some((cs, d, q)) => spec_branch_body(tv(toks), cases_view(acc@), p as int) == Some(
                (
                    cases_view(cs@),
                    match d {
                        Some(b) => Some(block_view(b@)),
                        None => None,
                    },
                    q as int,
                ),
            ) && p < q <= toks.len(),
            None => spec_branch_body(tv(toks), cases_view(acc@), p as int) is None,
        },
    decreases toks.len() - p, 1int,
{
    match parse_case(toks, p) {
        Some((c, q)) => {
            let mut acc = acc;
            proof {
                lemma_cases_view_push(acc@, c);
            }
            acc.push(c);
            branch_body(toks, acc, q)
        },
        None => {
            let mut d: Option<Vec<Stmt>> = None;
            let mut q = p;
            if toks.len() - p > 1 && matches!(toks[p], Token::Default) && matches!(toks[p + 1], Token::FatArrow) {
                if let Some((b, q2)) = parse_block(toks, p + 2) {
                    d = Some(b);
                    q = q2;
                }
            }
            if q < toks.len() && matches!(toks[q], Token::RBrace) {
                Some((acc, d, q + 1))
            } else {
                None
            }
        },
    }
}

fn st_branch(toks: &Vec<Token>, p: usize) -> (r: Option<(Stmt, usize)>)
    requires
        string_tokens_ok(tv(toks)),
        p <= toks.len(),
    ensures
        match r {
            Some((s, q)) => spec_st_branch(tv(toks), p as int) == Some((stmt_view(s), q as int)) && p < q
                <= toks.len(),
            None => spec_st_branch(tv(toks), p as int) is None,
        },
    decreases toks.len() - p, 0int,
{
    if !(toks.len() - p > 2 && matches!(toks[p], Token::Branch) && matches!(toks[p + 2], Token::LBrace)) {
        return None;
    }
    let var = match name_at(toks, p + 1) {
        Some(n) => n,
        None => {
            return None;
        },
    };
    let acc: Vec<BranchCase> = Vec::new();
    assert(cases_view(acc@) =~= Seq::<BranchCaseV>::empty());
    match branch_body(toks, acc, p + 3) {
        Some((cases, default, q)) => Some((Stmt::Branch(BranchStmt { var, cases, default }), q)),
        None => None,
    }
}

fn st_interruptible(toks: &Vec<Token>, p: usize) -> (r: Option<(Stmt, usize)>)
    requires
        string_tokens_ok(tv(toks)),
        p <= toks.len(),
    ensures
        match r {
            Some((s, q)) => spec_st_interruptible(tv(toks), p as int) == Some((stmt_view(s), q as int)) && p < q
                <= toks.len(),
            None => spec_st_interruptible(tv(toks), p as int) is None,
        },
    decreases toks.len() - p, 0int,
{
    if !(p < toks.len() && matches!(toks[p], Token::Interruptible)) {
        return None;
    }
    match parse_block(toks, p + 1) {
        Some((b, q)) => Some((Stmt::Interruptible(b), q)),
        None => None,
    }
}

fn st_expr(toks: &Vec<Token>, p: usize) -> (r: Option<(Stmt, usize)>)
    requires
        string_tokens_ok(tv(toks)),
        p <= toks.len(),
    ensures
        match r {
            Some((s, q)) => spec_st_expr(tv(toks), p as int) == Some((stmt_view(s), q as int)) && p < q
                <= toks.len(),
            None => spec_st_expr(tv(toks), p as int) is None,
        },
{
    match parse_expr(toks, p) {
        Some((e, q)) => if q < toks.len() && matches!(toks[q], Token::Semi) {
            Some((Stmt::Expr(e), q + 1))
        } else {
            None
        },
        None => None,
    }
}

// ── Parameters and items ─────────────────────────────────────────────────────

/// `ident ":" type`.
pub open spec fn spec_param(t: Seq<TokenV>, p: int) -> Option<(ParamV, int)> {
    match spec_ident(t, p) {
        Some(n) => if at(t, p + 1, TokenV::Colon) {
            match spec_type(t, p + 2) {
                Some((ty, q)) => Some((ParamV { name: n, ty }, q)),
                None => None,
            }
        } else {
            None
        },
        None => None,
    }
}

pub open spec fn spec_params_rest(t: Seq<TokenV>, acc: Seq<ParamV>, p: int) -> (Seq<ParamV>, int)
    decreases t.len() - p,
{
    if at(t, p, TokenV::Comma) {
        match spec_param(t, p + 1) {
            Some((x, q)) => if advances(p + 1, q, t.len() as int) {
                spec_params_rest(t, acc.push(x), q)
            } else {
                (acc, p)
            },
            None => (acc, p),
        }
    } else {
        (acc, p)
    }
}

/// `"(" (param ("," param)*)? ")"`.
pub open spec fn spec_params(t: Seq<TokenV>, p: int) -> Option<(Seq<ParamV>, int)> {
    if at(t, p, TokenV::LParen) {
        let (ps, q) = match spec_param(t, p + 1) {
            Some((x, q1)) => spec_params_rest(t, seq![x], q1),
            None => (Seq::empty(), p + 1),
        };
        if at(t, q, TokenV::RParen) {
            Some((ps, q + 1))
        } else {
            None
        }
    } else {
        None
    }
}

/// An optional `-> type`.
pub open spec fn spec_opt_ret(t: Seq<TokenV>, p: int) -> (Option<TypeExprV>, int) {
    if at(t, p, TokenV::Arrow) && spec_type(t, p + 1) is Some {
        (Some((spec_type(t, p + 1)->0).0), (spec_type(t, p + 1)->0).1)
    } else {
        (None, p)
    }
}

/// A required `-> type`.
pub open spec fn spec_req_ret(t: Seq<TokenV>, p: int) -> Option<(TypeExprV, int)> {
    if at(t, p, TokenV::Arrow) {
        spec_type(t, p + 1)
    } else {
        None
    }
}

/// `name params (-> type)? block` after `fn` or `skill`; the item is built by `skill`.
pub open spec fn spec_callable(t: Seq<TokenV>, k: int) -> Option<
    (Seq<char>, Seq<ParamV>, Option<TypeExprV>, Seq<StmtV>, int),
> {
    match spec_ident(t, k) {
        Some(n) => match spec_params(t, k + 1) {
            Some((ps, q)) => {
                let (rt, q2) = spec_opt_ret(t, q);
                match spec_block(t, q2) {
                    Some((b, q3)) => Some((n, ps, rt, b, q3)),
                    None => None,
                }
            },
            None => None,
        },
        None => None,
    }
}

/// `name params -> type block` after `kernel` or `spell`.
pub open spec fn spec_typed_callable(t: Seq<TokenV>, k: int) -> Option<
    (Seq<char>, Seq<ParamV>, TypeExprV, Seq<StmtV>, int),
> {
    match spec_ident(t, k) {
        Some(n) => match spec_params(t, k + 1) {
            Some((ps, q)) => match spec_req_ret(t, q) {
                Some((rt, q2)) => match spec_block(t, q2) {
                    Some((b, q3)) => Some((n, ps, rt, b, q3)),
                    None => None,
                },
                None => None,
            },
            None => None,
        },
        None => None,
    }
}

/// `name = type ;` after `type`.
pub open spec fn spec_it_alias(t: Seq<TokenV>, k: int, is_pub: bool) -> Option<(ItemV, int)> {
    match spec_ident(t, k) {
        Some(n) => if at(t, k + 1, TokenV::Assign) {
            match spec_type(t, k + 2) {
                Some((ty, q)) => if at(t, q, TokenV::Semi) {
                    Some((ItemV::TypeAlias { name: n, def: ty, is_pub }, q + 1))
                } else {
                    None
                },
                None => None,
            }
        } else {
            None
        },
        None => None,
    }
}

/// `name : type = expr ;` after `memory` or `const`: name, type, value, end.
pub open spec fn spec_binding(t: Seq<TokenV>, k: int) -> Option<(Seq<char>, TypeExprV, ExprV, int)> {
    match spec_ident(t, k) {
        Some(n) => if at(t, k + 1, TokenV::Colon) {
            match spec_type(t, k + 2) {
                Some((ty, q)) => if at(t, q, TokenV::Assign) {
                    match spec_expr(t, q + 1) {
                        Some((e, q2)) => if at(t, q2, TokenV::Semi) {
                            Some((n, ty, e, q2 + 1))
                        } else {
                            None
                        },
                        None => None,
                    }
                } else {
                    None
                },
                None => None,
            }
        } else {
            None
        },
        None => None,
    }
}

/// `name params -> type ;` after `oracle`.
pub open spec fn spec_it_oracle(t: Seq<TokenV>, k: int, is_pub: bool) -> Option<(ItemV, int)> {
    match spec_ident(t, k) {
        Some(n) => match spec_params(t, k + 1) {
            Some((ps, q)) => match spec_req_ret(t, q) {
                Some((rt, q2)) => if at(t, q2, TokenV::Semi) {
                    Some((ItemV::OracleDecl { name: n, params: ps, ret: rt, is_pub }, q2 + 1))
                } else {
                    None
                },
                None => None,
            },
            None => None,
        },
        None => None,
    }
}

/// `name block` after `constraint`.
pub open spec fn spec_it_constraint(t: Seq<TokenV>, k: int, is_pub: bool) -> Option<(ItemV, int)> {
    match spec_ident(t, k) {
        Some(n) => match spec_block(t, k + 1) {
            Some((b, q)) => Some((ItemV::ConstraintDef { name: n, body: b, is_pub }, q)),
            None => None,
        },
        None => None,
    }
}

/// `name = "text" ;` after `lore`.
pub open spec fn spec_it_lore(t: Seq<TokenV>, k: int, is_pub: bool) -> Option<(ItemV, int)> {
    if spec_ident(t, k) is Some && at(t, k + 1, TokenV::Assign) && spec_str_inner(t, k + 2) is Some && at(
        t,
        k + 3,
        TokenV::Semi,
    ) {
        Some((ItemV::LoreDecl { name: spec_ident(t, k)->0, value: spec_str_inner(t, k + 2)->0, is_pub }, k + 4))
    } else {
        None
    }
}

/// `ident ":" type`, a struct field.
pub open spec fn spec_sfield(t: Seq<TokenV>, p: int) -> Option<((Seq<char>, TypeExprV), int)> {
    match spec_param(t, p) {
        Some((x, q)) => Some(((x.name, x.ty), q)),
        None => None,
    }
}

/// `ident ("(" type ")")?`, an enum variant.
pub open spec fn spec_variant(t: Seq<TokenV>, p: int) -> Option<((Seq<char>, Option<TypeExprV>), int)> {
    match spec_ident(t, p) {
        Some(n) => if at(t, p + 1, TokenV::LParen) && spec_type(t, p + 2) is Some && at(
            t,
            (spec_type(t, p + 2)->0).1,
            TokenV::RParen,
        ) {
            Some(((n, Some((spec_type(t, p + 2)->0).0)), (spec_type(t, p + 2)->0).1 + 1))
        } else {
            Some(((n, None), p + 1))
        },
        None => None,
    }
}

pub open spec fn spec_sfields_rest(t: Seq<TokenV>, acc: Seq<(Seq<char>, TypeExprV)>, p: int) -> (
    Seq<(Seq<char>, TypeExprV)>,
    int,
)
    decreases t.len() - p,
{
    if at(t, p, TokenV::Comma) {
        match spec_sfield(t, p + 1) {
            Some((x, q)) => if advances(p + 1, q, t.len() as int) {
                spec_sfields_rest(t, acc.push(x), q)
            } else {
                (acc, p)
            },
            None => (acc, p),
        }
    } else {
        (acc, p)
    }
}

pub open spec fn spec_variants_rest(t: Seq<TokenV>, acc: Seq<(Seq<char>, Option<TypeExprV>)>, p: int) -> (
    Seq<(Seq<char>, Option<TypeExprV>)>,
    int,
)
    decreases t.len() - p,
{
    if at(t, p, TokenV::Comma) {
        match spec_variant(t, p + 1) {
            Some((x, q)) => if advances(p + 1, q, t.len() as int) {
                spec_variants_rest(t, acc.push(x), q)
            } else {
                (acc, p)
            },
            None => (acc, p),
        }
    } else {
        (acc, p)
    }
}

/// `name "{" (field ("," field)* ","?)? "}"` after `struct`.
pub open spec fn spec_it_struct(t: Seq<TokenV>, k: int, is_pub: bool) -> Option<(ItemV, int)> {
    if spec_ident(t, k) is Some && at(t, k + 1, TokenV::LBrace) {
        let (fs, q) = match spec_sfield(t, k + 2) {
            Some((x, q1)) => spec_sfields_rest(t, seq![x], q1),
            None => (Seq::empty(), k + 2),
        };
        let q2 = trailing(t, q, fs.len() > 0);
        if at(t, q2, TokenV::RBrace) {
            Some((ItemV::StructDef { name: spec_ident(t, k)->0, fields: fs, is_pub }, q2 + 1))
        } else {
            None
        }
    } else {
        None
    }
}

/// `name "{" (variant ("," variant)* ","?)? "}"` after `enum`.
pub open spec fn spec_it_enum(t: Seq<TokenV>, k: int, is_pub: bool) -> Option<(ItemV, int)> {
    if spec_ident(t, k) is Some && at(t, k + 1, TokenV::LBrace) {
        let (vs, q) = match spec_variant(t, k + 2) {
            Some((x, q1)) => spec_variants_rest(t, seq![x], q1),
            None => (Seq::empty(), k + 2),
        };
        let q2 = trailing(t, q, vs.len() > 0);
        if at(t, q2, TokenV::RBrace) {
            Some((ItemV::EnumDef { name: spec_ident(t, k)->0, variants: vs, is_pub }, q2 + 1))
        } else {
            None
        }
    } else {
        None
    }
}

/// A top-level item. Every kind of item is told apart by its keyword, which
/// follows an optional `pub` (`soul`, `memory` and `use` take no `pub`).
pub open spec fn spec_item(t: Seq<TokenV>, p: int) -> Option<(ItemV, int)> {
    let is_pub = at(t, p, TokenV::Pub);
    let k = if is_pub { p + 1 } else { p };
    if at(t, k, TokenV::Type) {
        spec_it_alias(t, k + 1, is_pub)
    } else if at(t, k, TokenV::Kernel) || at(t, k, TokenV::Spell) {
        match spec_typed_callable(t, k + 1) {
            Some((n, ps, rt, b, q)) => Some(
                (
                    if at(t, k, TokenV::Kernel) {
                        ItemV::KernelDef { name: n, params: ps, return_type: rt, body: b, is_pub }
                    } else {
                        ItemV::SpellDef { name: n, params: ps, ret: rt, body: b, is_pub }
                    },
                    q,
                ),
            ),
            None => None,
        }
    } else if at(t, k, TokenV::Skill) || at(t, k, TokenV::Fn) {
        match spec_callable(t, k + 1) {
            Some((n, ps, rt, b, q)) => Some(
                (
                    if at(t, k, TokenV::Skill) {
                        ItemV::SkillDef { name: n, params: ps, return_type: rt, body: b, is_pub }
                    } else {
                        ItemV::FnDef { name: n, params: ps, return_type: rt, body: b, is_pub }
                    },
                    q,
                ),
            ),
            None => None,
        }
    } else if !is_pub && at(t, p, TokenV::Soul) {
        match spec_block(t, p + 1) {
            Some((b, q)) => Some((ItemV::SoulDef { body: b }, q)),
            None => None,
        }
    } else if (!is_pub && at(t, p, TokenV::Memory)) || at(t, k, TokenV::Const) {
        match spec_binding(t, k + 1) {
            Some((n, ty, e, q)) => Some(
                (
                    if at(t, k, TokenV::Memory) {
                        ItemV::MemoryDecl { name: n, ty, init: e }
                    } else {
                        ItemV::ConstDef { name: n, ty, value: e, is_pub }
                    },
                    q,
                ),
            ),
            None => None,
        }
    } else if at(t, k, TokenV::Oracle) {
        spec_it_oracle(t, k + 1, is_pub)
    } else if at(t, k, TokenV::Constraint) {
        spec_it_constraint(t, k + 1, is_pub)
    } else if at(t, k, TokenV::Lore) {
        spec_it_lore(t, k + 1, is_pub)
    } else if !is_pub && at(t, p, TokenV::Use) {
        if spec_str_inner(t, p + 1) is Some && at(t, p + 2, TokenV::Semi) {
            Some((ItemV::UseDecl { path: spec_str_inner(t, p + 1)->0 }, p + 3))
        } else {
            None
        }
    } else if at(t, k, TokenV::Struct) {
        spec_it_struct(t, k + 1, is_pub)
    } else if at(t, k, TokenV::Enum) {
        spec_it_enum(t, k + 1, is_pub)
    } else {
        None
    }
}

/// `item*` from `p`, continuing after the items in `acc`.
pub open spec fn spec_items(t: Seq<TokenV>, acc: Seq<ItemV>, p: int) -> (Seq<ItemV>, int)
    decreases t.len() - p,
{
    match spec_item(t, p) {
        Some((i, q)) => if advances(p, q, t.len() as int) {
            spec_items(t, acc.push(i), q)
        } else {
            (acc, p)
        },
        None => (acc, p),
    }
}

/// A whole program: items up to the end of the tokens.
pub open spec fn spec_program(t: Seq<TokenV>) -> Option<Seq<ItemV>> {
    let (is, q) = spec_items(t, Seq::empty(), 0);
    if q == t.len() {
        Some(is)
    } else {
        None
    }
}

// ── Parameters and items: exec ───────────────────────────────────────────────

fn parse_param(toks: &Vec<Token>, p: usize) -> (r: Option<(Param, usize)>)
    requires
        string_tokens_ok(tv(toks)),
        p <= toks.len(),
    ensures
        match r {
            Some((x, q)) => spec_param(tv(toks), p as int) == Some((ParamV { name: x.name@, ty: type_view(x.ty) }, q as int))
                && p < q <= toks.len(),
            None => spec_param(tv(toks), p as int) is None,
        },
{
    let n = match ident(toks, p) {
        Some(n) => n,
        None => {
            return None;
        },
    };
    if !(toks.len() - p > 1 && matches!(toks[p + 1], Token::Colon)) {
        return None;
    }
    match parse_type(toks, p + 2) {
        Some((ty, q)) => Some((Param { name: n, ty }, q)),
        None => None,
    }
}

fn parse_params(toks: &Vec<Token>, p: usize) -> (r: Option<(Vec<Param>, usize)>)
    requires
        string_tokens_ok(tv(toks)),
        p <= toks.len(),
    ensures
        match r {
            Some((ps, q)) => spec_params(tv(toks), p as int) == Some((params_view(ps@), q as int)) && p < q
                <= toks.len(),
            None => spec_params(tv(toks), p as int) is None,
        },
{
    if !(p < toks.len() && matches!(toks[p], Token::LParen)) {
        return None;
    }
    let mut ps: Vec<Param> = Vec::new();
    let mut q = p + 1;
    if let Some((x, q1)) = parse_param(toks, p + 1) {
        ps.push(x);
        q = q1;
        assert(params_view(ps@) =~= seq![ParamV { name: x.name@, ty: type_view(x.ty) }]);
        loop
            invariant
                string_tokens_ok(tv(toks)),
                p < q <= toks.len(),
                spec_params_rest(tv(toks), seq![ParamV { name: x.name@, ty: type_view(x.ty) }], q1 as int)
                    == spec_params_rest(tv(toks), params_view(ps@), q as int),
            ensures
                p < q <= toks.len(),
                spec_params_rest(tv(toks), seq![ParamV { name: x.name@, ty: type_view(x.ty) }], q1 as int)
                    == (params_view(ps@), q as int),
            decreases toks.len() - q,
        {
            if !(q < toks.len() && matches!(toks[q], Token::Comma)) {
                break;
            }
            match parse_param(toks, q + 1) {
                Some((y, q2)) => {
                    let ghost before = params_view(ps@);
                    ps.push(y);
                    assert(params_view(ps@) =~= before.push(ParamV { name: y.name@, ty: type_view(y.ty) }));
                    q = q2;
                },
                None => {
                    break;
                },
            }
        }
    } else {
        assert(params_view(ps@) =~= Seq::<ParamV>::empty());
    }
    if q < toks.len() && matches!(toks[q], Token::RParen) {
        Some((ps, q + 1))
    } else {
        None
    }
}

fn opt_ret(toks: &Vec<Token>, p: usize) -> (r: (Option<TypeExpr>, usize))
    requires
        string_tokens_ok(tv(toks)),
        p <= toks.len(),
    ensures
        spec_opt_ret(tv(toks), p as int) == (opt_type_view(r.0), r.1 as int),
        p <= r.1 <= toks.len(),
{
    if p < toks.len() && matches!(toks[p], Token::Arrow) {
        if let Some((ty, q)) = parse_type(toks, p + 1) {
            return (Some(ty), q);
        }
    }
    (None, p)
}

fn req_ret(toks: &Vec<Token>, p: usize) -> (r: Option<(TypeExpr, usize)>)
    requires
        string_tokens_ok(tv(toks)),
        p <= toks.len(),
    ensures
        match r {
            Some((ty, q)) => spec_req_ret(tv(toks), p as int) == Some((type_view(ty), q as int)) && p < q
                <= toks.len(),
            None => spec_req_ret(tv(toks), p as int) is None,
        },
{
    if p < toks.len() && matches!(toks[p], Token::Arrow) {
        parse_type(toks, p + 1)
    } else {
        None
    }
}

fn parse_callable(toks: &Vec<Token>, k: usize) -> (r: Option<(String, Vec<Param>, Option<TypeExpr>, Vec<Stmt>, usize)>)
    requires
        string_tokens_ok(tv(toks)),
        k <= toks.len(),
    ensures
        match r {
            Some((n, ps, rt, b, q)) => spec_callable(tv(toks), k as int) == Some(
                (n@, params_view(ps@), opt_type_view(rt), block_view(b@), q as int),
            ) && k < q <= toks.len(),
            None => spec_callable(tv(toks), k as int) is None,
        },
{
    let n = match ident(toks, k) {
        Some(n) => n,
        None => {
            return None;
        },
    };
    let (ps, q) = match parse_params(toks, k + 1) {
        Some(x) => x,
        None => {
            return None;
        },
    };
    let (rt, q2) = opt_ret(toks, q);
    match parse_block(toks, q2) {
        Some((b, q3)) => Some((n, ps, rt, b, q3)),
        None => None,
    }
}

fn parse_typed_callable(toks: &Vec<Token>, k: usize) -> (r: Option<(String, Vec<Param>, TypeExpr, Vec<Stmt>, usize)>)
    requires
        string_tokens_ok(tv(toks)),
        k <= toks.len(),
    ensures
        match r {
            Some((n, ps, rt, b, q)) => spec_typed_callable(tv(toks), k as int) == Some(
                (n@, params_view(ps@), type_view(rt), block_view(b@), q as int),
            ) && k < q <= toks.len(),
            None => spec_typed_callable(tv(toks), k as int) is None,
        },
{
    let n = match ident(toks, k) {
        Some(n) => n,
        None => {
            return None;
        },
    };
    let (ps, q) = match parse_params(toks, k + 1) {
        Some(x) => x,
        None => {
            return None;
        },
    };
    let (rt, q2) = match req_ret(toks, q) {
        Some(x) => x,
        None => {
            return None;
        },
    };
    match parse_block(toks, q2) {
        Some((b, q3)) => Some((n, ps, rt, b, q3)),
        None => None,
    }
}

fn it_alias(toks: &Vec<Token>, k: usize, is_pub: bool) -> (r: Option<(Item, usize)>)
    requires
        string_tokens_ok(tv(toks)),
        k <= toks.len(),
    ensures
        match r {
            Some((i, q)) => spec_it_alias(tv(toks), k as int, is_pub) == Some((item_view(i), q as int)) && k < q
                <= toks.len(),
            None => spec_it_alias(tv(toks), k as int, is_pub) is None,
        },
{
    let n = match ident(toks, k) {
        Some(n) => n,
        None => {
            return None;
        },
    };
    if !(toks.len() - k > 1 && matches!(toks[k + 1], Token::Assign)) {
        return None;
    }
    match parse_type(toks, k + 2) {
        Some((ty, q)) => if q < toks.len() && matches!(toks[q], Token::Semi) {
            Some((Item::TypeAlias(TypeAlias { name: n, def: ty, is_pub }), q + 1))
        } else {
            None
        },
        None => None,
    }
}

fn parse_binding(toks: &Vec<Token>, k: usize) -> (r: Option<(String, TypeExpr, Expr, usize)>)
    requires
        string_tokens_ok(tv(toks)),
        k <= toks.len(),
    ensures
        match r {
            Some((n, ty, e, q)) => spec_binding(tv(toks), k as int) == Some((n@, type_view(ty), expr_view(e), q as int))
                && k < q <= toks.len(),
            None => spec_binding(tv(toks), k as int) is None,
        },
{
    let n = match ident(toks, k) {
        Some(n) => n,
        None => {
            return None;
        },
    };
    if !(toks.len() - k > 1 && matches!(toks[k + 1], Token::Colon)) {
        return None;
    }
    let (ty, q) = match parse_type(toks, k + 2) {
        Some(x) => x,
        None => {
            return None;
        },
    };
    if !(q < toks.len() && matches!(toks[q], Token::Assign)) {
        return None;
    }
    match parse_expr(toks, q + 1) {
        Some((e, q2)) => if q2 < toks.len() && matches!(toks[q2], Token::Semi) {
            Some((n, ty, e, q2 + 1))
        } else {
            None
        },
        None => None,
    }
}

fn it_oracle(toks: &Vec<Token>, k: usize, is_pub: bool) -> (r: Option<(Item, usize)>)
    requires
        string_tokens_ok(tv(toks)),
        k <= toks.len(),
    ensures
        match r {
            Some((i, q)) => spec_it_oracle(tv(toks), k as int, is_pub) == Some((item_view(i), q as int)) && k < q
                <= toks.len(),
            None => spec_it_oracle(tv(toks), k as int, is_pub) is None,
        },
{
    let n = match ident(toks, k) {
        Some(n) => n,
        None => {
            return None;
        },
    };
    let (ps, q) = match parse_params(toks, k + 1) {
        Some(x) => x,
        None => {
            return None;
        },
    };
    let (rt, q2) = match req_ret(toks, q) {
        Some(x) => x,
        None => {
            return None;
        },
    };
    if q2 < toks.len() && matches!(toks[q2], Token::Semi) {
        Some((Item::OracleDecl(OracleDecl { name: n, params: ps, ret: rt, is_pub }), q2 + 1))
    } else {
        None
    }
}

fn it_constraint(toks: &Vec<Token>, k: usize, is_pub: bool) -> (r: Option<(Item, usize)>)
    requires
        string_tokens_ok(tv(toks)),
        k <= toks.len(),
    ensures
        match r {
            Some((i, q)) => spec_it_constraint(tv(toks), k as int, is_pub) == Some((item_view(i), q as int)) && k
                < q <= toks.len(),
            None => spec_it_constraint(tv(toks), k as int, is_pub) is None,
        },
{
    let n = match ident(toks, k) {
        Some(n) => n,
        None => {
            return None;
        },
    };
    match parse_block(toks, k + 1) {
        Some((b, q)) => Some((Item::ConstraintDef(ConstraintDef { name: n, body: b, is_pub }), q)),
        None => None,
    }
}

fn it_lore(toks: &Vec<Token>, k: usize, is_pub: bool) -> (r: Option<(Item, usize)>)
    requires
        string_tokens_ok(tv(toks)),
        k <= toks.len(),
    ensures
        match r {
            Some((i, q)) => spec_it_lore(tv(toks), k as int, is_pub) == Some((item_view(i), q as int)) && k < q
                <= toks.len(),
            None => spec_it_lore(tv(toks), k as int, is_pub) is None,
        },
{
    if !(toks.len() - k > 3 && matches!(toks[k + 1], Token::Assign) && matches!(toks[k + 3], Token::Semi)) {
        return None;
    }
    let n = match ident(toks, k) {
        Some(n) => n,
        None => {
            return None;
        },
    };
    match str_inner(toks, k + 2) {
        Some(v) => Some((Item::LoreDecl(LoreDecl { name: n, value: v, is_pub }), k + 4)),
        None => None,
    }
}

fn parse_sfields(toks: &Vec<Token>, p: usize) -> (r: (Vec<StructField>, usize))
    requires
        string_tokens_ok(tv(toks)),
        p <= toks.len(),
    ensures
        (match spec_sfield(tv(toks), p as int) {
            Some((x, q1)) => spec_sfields_rest(tv(toks), seq![x], q1),
            None => (Seq::empty(), p as int),
        }) == (r.0@.map_values(|f: StructField| (f.name@, type_view(f.ty))), r.1 as int),
        p <= r.1 <= toks.len(),
{
    let mut fs: Vec<StructField> = Vec::new();
    match parse_param(toks, p) {
        None => {
            assert(fs@.map_values(|f: StructField| (f.name@, type_view(f.ty))) =~= Seq::<(Seq<char>, TypeExprV)>::empty());
            (fs, p)
        },
        Some((x, q1)) => {
            let ghost first = (x.name@, type_view(x.ty));
            fs.push(StructField { name: x.name, ty: x.ty });
            assert(fs@.map_values(|f: StructField| (f.name@, type_view(f.ty))) =~= seq![first]);
            let mut q = q1;
            loop
                invariant
                    string_tokens_ok(tv(toks)),
                    p < q <= toks.len(),
                    spec_sfields_rest(tv(toks), seq![first], q1 as int) == spec_sfields_rest(
                        tv(toks),
                        fs@.map_values(|f: StructField| (f.name@, type_view(f.ty))),
                        q as int,
                    ),
                ensures
                    p < q <= toks.len(),
                    spec_sfields_rest(tv(toks), seq![first], q1 as int) == (
                        fs@.map_values(|f: StructField| (f.name@, type_view(f.ty))),
                        q as int,
                    ),
                decreases toks.len() - q,
            {
                if !(q < toks.len() && matches!(toks[q], Token::Comma)) {
                    break;
                }
                match parse_param(toks, q + 1) {
                    Some((y, q2)) => {
                        let ghost before = fs@.map_values(|f: StructField| (f.name@, type_view(f.ty)));
                        fs.push(StructField { name: y.name, ty: y.ty });
                        assert(fs@.map_values(|f: StructField| (f.name@, type_view(f.ty))) =~= before.push(
                            (y.name@, type_view(y.ty)),
                        ));
                        q = q2;
                    },
                    None => {
                        break;
                    },
                }
            }
            (fs, q)
        },
    }
}

fn parse_variant(toks: &Vec<Token>, p: usize) -> (r: Option<(EnumVariant, usize)>)
    requires
        string_tokens_ok(tv(toks)),
        p <= toks.len(),
    ensures
        match r {
            Some((v, q)) => spec_variant(tv(toks), p as int) == Some(((v.name@, opt_type_view(v.payload)), q as int))
                && p < q <= toks.len(),
            None => spec_variant(tv(toks), p as int) is None,
        },
{
    let n = match ident(toks, p) {
        Some(n) => n,
        None => {
            return None;
        },
    };
    if toks.len() - p > 1 && matches!(toks[p + 1], Token::LParen) {
        if let Some((ty, q)) = parse_type(toks, p + 2) {
            if q < toks.len() && matches!(toks[q], Token::RParen) {
                return Some((EnumVariant { name: n, payload: Some(ty) }, q + 1));
            }
        }
    }
    Some((EnumVariant { name: n, payload: None }, p + 1))
}

fn parse_variants(toks: &Vec<Token>, p: usize) -> (r: (Vec<EnumVariant>, usize))
    requires
        string_tokens_ok(tv(toks)),
        p <= toks.len(),
    ensures
        (match spec_variant(tv(toks), p as int) {
            Some((x, q1)) => spec_variants_rest(tv(toks), seq![x], q1),
            None => (Seq::empty(), p as int),
        }) == (r.0@.map_values(|v: EnumVariant| (v.name@, opt_type_view(v.payload))), r.1 as int),
        p <= r.1 <= toks.len(),
{
    let mut vs: Vec<EnumVariant> = Vec::new();
    match parse_variant(toks, p) {
        None => {
            assert(vs@.map_values(|v: EnumVariant| (v.name@, opt_type_view(v.payload))) =~= Seq::<
                (Seq<char>, Option<TypeExprV>),
            >::empty());
            (vs, p)
        },
        Some((x, q1)) => {
            let ghost first = (x.name@, opt_type_view(x.payload));
            vs.push(x);
            assert(vs@.map_values(|v: EnumVariant| (v.name@, opt_type_view(v.payload))) =~= seq![first]);
            let mut q = q1;
            loop
                invariant
                    string_tokens_ok(tv(toks)),
                    p < q <= toks.len(),
                    spec_variants_rest(tv(toks), seq![first], q1 as int) == spec_variants_rest(
                        tv(toks),
                        vs@.map_values(|v: EnumVariant| (v.name@, opt_type_view(v.payload))),
                        q as int,
                    ),
                ensures
                    p < q <= toks.len(),
                    spec_variants_rest(tv(toks), seq![first], q1 as int) == (
                        vs@.map_values(|v: EnumVariant| (v.name@, opt_type_view(v.payload))),
                        q as int,
                    ),
                decreases toks.len() - q,
            {
                if !(q < toks.len() && matches!(toks[q], Token::Comma)) {
                    break;
                }
                match parse_variant(toks, q + 1) {
                    Some((y, q2)) => {
                        let ghost before = vs@.map_values(|v: EnumVariant| (v.name@, opt_type_view(v.payload)));
                        let ghost yv = (y.name@, opt_type_view(y.payload));
                        vs.push(y);
                        assert(vs@.map_values(|v: EnumVariant| (v.name@, opt_type_view(v.payload))) =~= before.push(yv));
                        q = q2;
                    },
                    None => {
                        break;
                    },
                }
            }
            (vs, q)
        },
    }
}

fn it_struct(toks: &Vec<Token>, k: usize, is_pub: bool) -> (r: Option<(Item, usize)>)
    requires
        string_tokens_ok(tv(toks)),
        k <= toks.len(),
    ensures
        match r {
            Some((i, q)) => spec_it_struct(tv(toks), k as int, is_pub) == Some((item_view(i), q as int)) && k < q
                <= toks.len(),
            None => spec_it_struct(tv(toks), k as int, is_pub) is None,
        },
{
    if !(toks.len() - k > 1 && matches!(toks[k + 1], Token::LBrace)) {
        return None;
    }
    let n = match ident(toks, k) {
        Some(n) => n,
        None => {
            return None;
        },
    };
    let (fs, q) = parse_sfields(toks, k + 2);
    let q2 = trailing_comma(toks, q, fs.len() > 0);
    if q2 < toks.len() && matches!(toks[q2], Token::RBrace) {
        Some((Item::StructDef(StructDef { name: n, fields: fs, is_pub }), q2 + 1))
    } else {
        None
    }
}

fn it_enum(toks: &Vec<Token>, k: usize, is_pub: bool) -> (r: Option<(Item, usize)>)
    requires
        string_tokens_ok(tv(toks)),
        k <= toks.len(),
    ensures
        match r {
            Some((i, q)) => spec_it_enum(tv(toks), k as int, is_pub) == Some((item_view(i), q as int)) && k < q
                <= toks.len(),
            None => spec_it_enum(tv(toks), k as int, is_pub) is None,
        },
{
    if !(toks.len() - k > 1 && matches!(toks[k + 1], Token::LBrace)) {
        return None;
    }
    let n = match ident(toks, k) {
        Some(n) => n,
        None => {
            return None;
        },
    };
    let (vs, q) = parse_variants(toks, k + 2);
    let q2 = trailing_comma(toks, q, vs.len() > 0);
    if q2 < toks.len() && matches!(toks[q2], Token::RBrace) {
        Some((Item::EnumDef(EnumDef { name: n, variants: vs, is_pub }), q2 + 1))
    } else {
        None
    }
}

#[verifier::rlimit(80)]
#[verifier::spinoff_prover]
fn parse_item(toks: &Vec<Token>, p: usize) -> (r: Option<(Item, usize)>)
    requires
        string_tokens_ok(tv(toks)),
        p <= toks.len(),
    ensures
        match r {
            Some((i, q)) => spec_item(tv(toks), p as int) == Some((item_view(i), q as int)) && p < q <= toks.len(),
            None => spec_item(tv(toks), p as int) is None,
        },
{
    let is_pub = p < toks.len() && matches!(toks[p], Token::Pub);
    let k = if is_pub { p + 1 } else { p };
    if k >= toks.len() {
        return None;
    }
    match &toks[k] {
        Token::Type => it_alias(toks, k + 1, is_pub),
        Token::Kernel => match parse_typed_callable(toks, k + 1) {
            Some((name, params, return_type, body, q)) => Some(
                (Item::KernelDef(KernelDef { name, params, return_type, body, is_pub }), q),
            ),
            None => None,
        },
        Token::Spell => match parse_typed_callable(toks, k + 1) {
            Some((name, params, ret, body, q)) => Some((Item::SpellDef(SpellDef { name, params, ret, body, is_pub }), q)),
            None => None,
        },
        Token::Skill => match parse_callable(toks, k + 1) {
            Some((name, params, return_type, body, q)) => Some(
                (Item::SkillDef(SkillDef { name, params, return_type, body, is_pub }), q),
            ),
            None => None,
        },
        Token::Fn => match parse_callable(toks, k + 1) {
            Some((name, params, return_type, body, q)) => Some(
                (Item::FnDef(FnDef { name, params, return_type, body, is_pub }), q),
            ),
            None => None,
        },
        Token::Soul => if is_pub {
            None
        } else {
            match parse_block(toks, k + 1) {
                Some((body, q)) => Some((Item::SoulDef(SoulDef { body }), q)),
                None => None,
            }
        },
        Token::Memory => if is_pub {
            None
        } else {
            match parse_binding(toks, k + 1) {
                Some((name, ty, init, q)) => Some((Item::MemoryDecl(MemoryDecl { name, ty, init }), q)),
                None => None,
            }
        },
        Token::Const => match parse_binding(toks, k + 1) {
            Some((name, ty, value, q)) => Some((Item::ConstDef(ConstDef { name, ty, value, is_pub }), q)),
            None => None,
        },
        Token::Oracle => it_oracle(toks, k + 1, is_pub),
        Token::Constraint => it_constraint(toks, k + 1, is_pub),
        Token::Lore => it_lore(toks, k + 1, is_pub),
        Token::Use => if is_pub || toks.len() - k <= 2 || !matches!(toks[k + 2], Token::Semi) {
            None
        } else {
            match str_inner(toks, k + 1) {
                Some(path) => Some((Item::UseDecl(UseDecl { path }), k + 3)),
                None => None,
            }
        },
        Token::Struct => it_struct(toks, k + 1, is_pub),
        Token::Enum => it_enum(toks, k + 1, is_pub),
        _ => None,
    }
}

proof fn lemma_items_step(t: Seq<TokenV>, acc: Seq<ItemV>, p: int)
    ensures
        spec_items(t, acc, p) == match spec_item(t, p) {
            Some((i, q)) => if advances(p, q, t.len() as int) {
                spec_items(t, acc.push(i), q)
            } else {
                (acc, p)
            },
            None => (acc, p),
        },
{
}

/// Why a token sequence is no program: the items that parse end at
/// `position`, which is not the end of the tokens.
#[derive(Debug)]
pub struct ParseError {
    pub position: usize,
}

/// Parses a token sequence into the items of a program.
pub fn parse(tokens: Vec<Token>) -> (r: Result<Vec<Item>, ParseError>)
    requires
        string_tokens_ok(tokens_view(tokens@)),
    ensures
        match r {
            Ok(items) => spec_program(tokens_view(tokens@)) == Some(items_view(items@)),
            Err(e) => spec_program(tokens_view(tokens@)) is None && e.position == spec_items(
                tokens_view(tokens@),
                Seq::empty(),
                0,
            ).1,
        },
{
    let toks = &tokens;
    let mut items: Vec<Item> = Vec::new();
    let mut p: usize = 0;
    assert(items_view(items@) =~= Seq::<ItemV>::empty());
    loop
        invariant
            string_tokens_ok(tv(toks)),
            p <= toks.len(),
            spec_items(tv(toks), Seq::empty(), 0) == spec_items(tv(toks), items_view(items@), p as int),
        ensures
            p <= toks.len(),
            spec_items(tv(toks), Seq::empty(), 0) == (items_view(items@), p as int),
        decreases toks.len() - p,
    {
        match parse_item(toks, p) {
            Some((i, q)) => {
                let ghost before = items_view(items@);
                proof {
                    lemma_items_step(tv(toks), before, p as int);
                }
                items.push(i);
                assert(items_view(items@) =~= before.push(item_view(i)));
                p = q;
            },
            None => {
                proof {
                    lemma_items_step(tv(toks), items_view(items@), p as int);
                }
                break;
            },
        }
    }
    if p == toks.len() {
        Ok(items)
    } else {
        Err(ParseError { position: p })
    }
}

} // verus!
