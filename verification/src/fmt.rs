//! The pretty-printer: source text, normalised to four-space indentation,
//! for a parsed program.
use vstd::prelude::*;
use crate::ast::{
    BinOp, Expr, Item, Param, PrimType, Stmt, TypeExpr, BranchCase, StructField, EnumVariant, StructDef, EnumDef, ExprV, StmtV, TypeExprV, ItemV, ParamV,
    BranchCaseV, expr_view, exprs_view, fields_view, stmt_view, block_view, type_view, opt_type_view, params_view,
    item_view, items_view, cases_view, strings_view,
};
use crate::text::{nat_digits, u64_to_string};
use crate::lexer::{TokenV, lex_spec, lex_from, scan_at, symbol_at, is_blank, is_ident_start, is_digit};
use crate::parser::spec_op;

verus! {

// ── What the printer writes ──────────────────────────────────────────────────

pub open spec fn prim_text(p: PrimType) -> Seq<char> {
    match p {
        PrimType::Str => "str"@,
        PrimType::Bool => "bool"@,
        PrimType::U32 => "u32"@,
        PrimType::F32 => "f32"@,
    }
}

pub open spec fn op_text(op: BinOp) -> Seq<char> {
    match op {
        BinOp::NotEq => "!="@,
        BinOp::Eq => "=="@,
        BinOp::Gt => ">"@,
        BinOp::Lt => "<"@,
        BinOp::And => "&&"@,
        BinOp::Or => "||"@,
        BinOp::Add => "+"@,
        BinOp::Sub => "-"@,
        BinOp::Mul => "*"@,
        BinOp::Div => "/"@,
        BinOp::Mod => "%"@,
    }
}

/// The printed text of an operator, lexed and read back as an operator,
/// gives the operator again: `{}` is what the parser's operator table
/// makes of the one token the text lexes to.
pub proof fn law_operator_text_reads_back(op: BinOp)
    ensures
        lex_spec(op_text(op)) matches Some(ts) && ts.len() == 1 && exists|k: int|
            0 <= k <= 5 && #[trigger] spec_op(ts, 0, k) == Some(op),
{
    match op {
        BinOp::NotEq => {
            reveal_strlit("!=");
            lemma_symbol_reads_back(op_text(op));
            assert(spec_op(seq![(symbol_at(op_text(op), 0)->0).1], 0, 2) == Some(op));
        },
        BinOp::Eq => {
            reveal_strlit("==");
            lemma_symbol_reads_back(op_text(op));
            assert(spec_op(seq![(symbol_at(op_text(op), 0)->0).1], 0, 2) == Some(op));
        },
        BinOp::Gt => {
            reveal_strlit(">");
            lemma_symbol_reads_back(op_text(op));
            assert(spec_op(seq![(symbol_at(op_text(op), 0)->0).1], 0, 3) == Some(op));
        },
        BinOp::Lt => {
            reveal_strlit("<");
            lemma_symbol_reads_back(op_text(op));
            assert(spec_op(seq![(symbol_at(op_text(op), 0)->0).1], 0, 3) == Some(op));
        },
        BinOp::And => {
            reveal_strlit("&&");
            lemma_symbol_reads_back(op_text(op));
            assert(spec_op(seq![(symbol_at(op_text(op), 0)->0).1], 0, 1) == Some(op));
        },
        BinOp::Or => {
            reveal_strlit("||");
            lemma_symbol_reads_back(op_text(op));
            assert(spec_op(seq![(symbol_at(op_text(op), 0)->0).1], 0, 0) == Some(op));
        },
        BinOp::Add => {
            reveal_strlit("+");
            lemma_symbol_reads_back(op_text(op));
            assert(spec_op(seq![(symbol_at(op_text(op), 0)->0).1], 0, 4) == Some(op));
        },
        BinOp::Sub => {
            reveal_strlit("-");
            lemma_symbol_reads_back(op_text(op));
            assert(spec_op(seq![(symbol_at(op_text(op), 0)->0).1], 0, 4) == Some(op));
        },
        BinOp::Mul => {
            reveal_strlit("*");
            lemma_symbol_reads_back(op_text(op));
            assert(spec_op(seq![(symbol_at(op_text(op), 0)->0).1], 0, 5) == Some(op));
        },
        BinOp::Div => {
            reveal_strlit("/");
            lemma_symbol_reads_back(op_text(op));
            assert(spec_op(seq![(symbol_at(op_text(op), 0)->0).1], 0, 5) == Some(op));
        },
        BinOp::Mod => {
            reveal_strlit("%");
            lemma_symbol_reads_back(op_text(op));
            assert(spec_op(seq![(symbol_at(op_text(op), 0)->0).1], 0, 5) == Some(op));
        },
    }
}

/// A one- or two-character symbol lexes to the token `symbol_at` reads.
proof fn lemma_symbol_reads_back(s: Seq<char>)
    requires
        1 <= s.len() <= 2,
        !is_blank(s[0]),
        !is_ident_start(s[0]),
        !is_digit(s[0]),
        s[0] != '"',
        !(s[0] == '/' && s.len() > 1 && s[1] == '/'),
        symbol_at(s, 0) matches Some((n, _)) && n == s.len(),
    ensures
        lex_spec(s) == Some(seq![(symbol_at(s, 0)->0).1]),
{
    let (n, t) = symbol_at(s, 0)->0;
    assert(scan_at(s, 0) == Some((n, Some(t))));
    assert(lex_from(s, n) == Some(Seq::<TokenV>::empty()));
    assert(seq![t] + Seq::<TokenV>::empty() =~= seq![t]);
}

/// Each label quoted, separated by `, `.
pub open spec fn labels_text(ls: Seq<Seq<char>>) -> Seq<char>
    decreases ls.len(),
{
    if ls.len() == 0 {
        Seq::empty()
    } else if ls.len() == 1 {
        "\""@ + ls[0] + "\""@
    } else {
        labels_text(ls.drop_last()) + ", "@ + "\""@ + ls.last() + "\""@
    }
}

pub open spec fn type_text(t: TypeExprV) -> Seq<char>
    decreases t,
{
    match t {
        TypeExprV::Named(n) => n,
        TypeExprV::Primitive(p) => prim_text(p),
        TypeExprV::Semantic(ls) => "semantic("@ + labels_text(ls) + ")"@,
        TypeExprV::Vec(inner) => "Vec<"@ + type_text(*inner) + ">"@,
    }
}

pub open spec fn expr_text(e: ExprV) -> Seq<char>
    decreases e, 0int,
{
    match e {
        ExprV::StringLit(s) => "\""@ + s + "\""@,
        ExprV::IntLit(n) => nat_digits(n as nat),
        ExprV::FloatLit(s) => s,
        ExprV::BoolLit(b) => if b {
            "true"@
        } else {
            "false"@
        },
        ExprV::Ident(n) => n,
        ExprV::Call(n, args) => n + "("@ + exprs_text(args) + ")"@,
        ExprV::BinOp(l, op, r) => expr_text(*l) + " "@ + op_text(op) + " "@ + expr_text(*r),
        ExprV::Break => "break"@,
        ExprV::Continue => "continue"@,
        ExprV::Tuple(items) => "("@ + exprs_text(items) + ")"@,
        ExprV::VecLit(items) => "["@ + exprs_text(items) + "]"@,
        ExprV::Index(b, i) => expr_text(*b) + "["@ + expr_text(*i) + "]"@,
        ExprV::FieldAccess(b, f) => expr_text(*b) + "."@ + f,
        ExprV::StructConstruct { name, fields } => name + " { "@ + field_inits_text(fields) + " }"@,
        ExprV::EnumVariant { variant, payload } => match payload {
            Some(p) => variant + "("@ + expr_text(*p) + ")"@,
            None => variant,
        },
    }
}

/// The expressions, separated by `, `.
pub open spec fn exprs_text(es: Seq<ExprV>) -> Seq<char>
    decreases es, 1int,
{
    if es.len() == 0 {
        Seq::empty()
    } else if es.len() == 1 {
        expr_text(es[0])
    } else {
        exprs_text(es.drop_last()) + ", "@ + expr_text(es[es.len() - 1])
    }
}

/// `name: value` for each field, separated by `, `.
pub open spec fn field_inits_text(fs: Seq<(Seq<char>, ExprV)>) -> Seq<char>
    decreases fs, 1int,
{
    if fs.len() == 0 {
        Seq::empty()
    } else if fs.len() == 1 {
        fs[0].0 + ": "@ + expr_text(fs[0].1)
    } else {
        field_inits_text(fs.drop_last()) + ", "@ + fs[fs.len() - 1].0 + ": "@ + expr_text(fs[fs.len() - 1].1)
    }
}

/// `name: type` for each parameter, separated by `, `.
pub open spec fn params_text(ps: Seq<ParamV>) -> Seq<char>
    decreases ps.len(),
{
    if ps.len() == 0 {
        Seq::empty()
    } else if ps.len() == 1 {
        ps[0].name + ": "@ + type_text(ps[0].ty)
    } else {
        params_text(ps.drop_last()) + ", "@ + ps.last().name + ": "@ + type_text(ps.last().ty)
    }
}

/// A block whose closing brace stands after the prefix `pad`: `{}` when
/// empty, else each statement on a line of its own indented four spaces
/// deeper than `pad`.
pub open spec fn block_text(b: Seq<StmtV>, pad: Seq<char>) -> Seq<char>
    decreases b, 2int,
{
    if b.len() == 0 {
        "{}"@
    } else {
        "{\n"@ + stmts_text(b, pad + "    "@) + "\n"@ + pad + "}"@
    }
}

/// The statements, each after the prefix `pad`, separated by newlines.
pub open spec fn stmts_text(b: Seq<StmtV>, pad: Seq<char>) -> Seq<char>
    decreases b, 1int,
{
    if b.len() == 0 {
        Seq::empty()
    } else if b.len() == 1 {
        pad + stmt_text(b[0], pad)
    } else {
        stmts_text(b.drop_last(), pad) + "\n"@ + pad + stmt_text(b[b.len() - 1], pad)
    }
}

/// The cases of a branch, each on a line of its own after the prefix `pad`.
pub open spec fn cases_text(cs: Seq<BranchCaseV>, pad: Seq<char>) -> Seq<char>
    decreases cs, 1int,
{
    if cs.len() == 0 {
        Seq::empty()
    } else {
        let c = cs[cs.len() - 1];
        cases_text(cs.drop_last(), pad) + pad + "case \""@ + c.label + "\" (confidence > "@ + c.confidence
            + ") => "@ + block_text(c.body, pad) + "\n"@
    }
}

/// A statement whose line starts with the prefix `pad` (the prefix itself
/// is not part of the text).
pub open spec fn stmt_text(s: StmtV, pad: Seq<char>) -> Seq<char>
    decreases s, 0int,
{
    match s {
        StmtV::Let(name, ty, e, is_mut) => "let "@ + (if is_mut {
            "mut "@
        } else {
            Seq::empty()
        }) + name + match ty {
            Some(t) => ": "@ + type_text(t),
            None => Seq::empty(),
        } + match e {
            Some(e) => " = "@ + expr_text(e),
            None => Seq::empty(),
        } + ";"@,
        StmtV::Return(e) => "return "@ + expr_text(e) + ";"@,
        StmtV::Expr(e) => expr_text(e) + ";"@,
        StmtV::Instruction(t) => "instruction \""@ + t + "\";"@,
        StmtV::Apply(n) => "apply "@ + n + ";"@,
        StmtV::Branch { var, cases, default } => "branch "@ + var + " {\n"@ + cases_text(cases, pad + "    "@)
            + match default {
            Some(d) => pad + "    "@ + "default => "@ + block_text(d, pad + "    "@) + "\n"@,
            None => Seq::empty(),
        } + pad + "}"@,
        StmtV::Interruptible(b) => "interruptible "@ + block_text(b, pad),
        StmtV::If { condition, then_branch, else_branch } => "if "@ + expr_text(condition) + " "@ + block_text(
            then_branch,
            pad,
        ) + match else_branch {
            Some(e) => " else "@ + block_text(e, pad),
            None => Seq::empty(),
        },
        StmtV::Loop(b) => "loop "@ + block_text(b, pad),
        StmtV::While { condition, body } => "while "@ + expr_text(condition) + " "@ + block_text(body, pad),
        StmtV::For { item, collection, body } => "for "@ + item + " in "@ + expr_text(collection) + " "@ + block_text(
            body,
            pad,
        ),
        StmtV::Assign(n, e) => n + " = "@ + expr_text(e) + ";"@,
    }
}

pub open spec fn pub_text(is_pub: bool) -> Seq<char> {
    if is_pub {
        "pub "@
    } else {
        Seq::empty()
    }
}

pub open spec fn ret_text(t: Option<TypeExprV>) -> Seq<char> {
    match t {
        Some(t) => " -> "@ + type_text(t),
        None => Seq::empty(),
    }
}

/// The members of a struct or an enum, one per line at indentation one,
/// each followed by a comma.
pub open spec fn members_text(ms: Seq<Seq<char>>) -> Seq<char>
    decreases ms.len(),
{
    if ms.len() == 0 {
        Seq::empty()
    } else {
        members_text(ms.drop_last()) + "    "@ + ms.last() + ",\n"@
    }
}

pub open spec fn member_list_text(ms: Seq<Seq<char>>) -> Seq<char> {
    if ms.len() == 0 {
        "{}"@
    } else {
        "{\n"@ + members_text(ms) + "}"@
    }
}

/// A top-level item.
#[verifier::opaque]
pub open spec fn item_text(it: ItemV) -> Seq<char> {
    match it {
        ItemV::FnDef { name, params, return_type, body, is_pub } => pub_text(is_pub) + "fn "@ + name + "("@
            + params_text(params) + ")"@ + ret_text(return_type) + " "@ + block_text(body, Seq::empty()),
        ItemV::KernelDef { name, params, return_type, body, is_pub } => pub_text(is_pub) + "kernel "@ + name
            + "("@ + params_text(params) + ")"@ + " -> "@ + type_text(return_type) + " "@ + block_text(body, Seq::empty()),
        ItemV::TypeAlias { name, def, is_pub } => pub_text(is_pub) + "type "@ + name + " = "@ + type_text(def)
            + ";"@,
        ItemV::SoulDef { body } => "soul "@ + block_text(body, Seq::empty()),
        ItemV::SpellDef { name, params, ret, body, is_pub } => pub_text(is_pub) + "spell "@ + name + "("@
            + params_text(params) + ")"@ + " -> "@ + type_text(ret) + " "@ + block_text(body, Seq::empty()),
        ItemV::SkillDef { name, params, return_type, body, is_pub } => pub_text(is_pub) + "skill "@ + name + "("@
            + params_text(params) + ")"@ + ret_text(return_type) + " "@ + block_text(body, Seq::empty()),
        ItemV::MemoryDecl { name, ty, init } => "memory "@ + name + ": "@ + type_text(ty) + " = "@ + expr_text(
            init,
        ) + ";"@,
        ItemV::OracleDecl { name, params, ret, is_pub } => pub_text(is_pub) + "oracle "@ + name + "("@
            + params_text(params) + ")"@ + " -> "@ + type_text(ret) + ";"@,
        ItemV::ConstraintDef { name, body, is_pub } => pub_text(is_pub) + "constraint "@ + name + " "@
            + block_text(body, Seq::empty()),
        ItemV::LoreDecl { name, value, is_pub } => pub_text(is_pub) + "lore "@ + name + " = \""@ + value
            + "\";"@,
        ItemV::UseDecl { path } => "use \""@ + path + "\";"@,
        ItemV::StructDef { name, fields, is_pub } => pub_text(is_pub) + "struct "@ + name + " "@
            + member_list_text(fields.map_values(|f: (Seq<char>, TypeExprV)| f.0 + ": "@ + type_text(f.1))),
        ItemV::EnumDef { name, variants, is_pub } => pub_text(is_pub) + "enum "@ + name + " "@ + member_list_text(
            variants.map_values(
                |v: (Seq<char>, Option<TypeExprV>)|
                    v.0 + match v.1 {
                        Some(t) => "("@ + type_text(t) + ")"@,
                        None => Seq::empty(),
                    },
            ),
        ),
        ItemV::ConstDef { name, ty, value, is_pub } => pub_text(is_pub) + "const "@ + name + ": "@ + type_text(ty)
            + " = "@ + expr_text(value) + ";"@,
    }
}

/// The items, separated by newlines.
pub open spec fn items_text(items: Seq<ItemV>) -> Seq<char>
    decreases items.len(),
{
    if items.len() == 0 {
        Seq::empty()
    } else if items.len() == 1 {
        item_text(items[0])
    } else {
        items_text(items.drop_last()) + "\n"@ + item_text(items.last())
    }
}

// ── The printer ──────────────────────────────────────────────────────────────

fn prim_string(p: PrimType) -> (r: &'static str)
    ensures
        r@ == prim_text(p),
{
    match p {
        PrimType::Str => "str",
        PrimType::Bool => "bool",
        PrimType::U32 => "u32",
        PrimType::F32 => "f32",
    }
}

fn op_string(op: BinOp) -> (r: &'static str)
    ensures
        r@ == op_text(op),
{
    match op {
        BinOp::NotEq => "!=",
        BinOp::Eq => "==",
        BinOp::Gt => ">",
        BinOp::Lt => "<",
        BinOp::And => "&&",
        BinOp::Or => "||",
        BinOp::Add => "+",
        BinOp::Sub => "-",
        BinOp::Mul => "*",
        BinOp::Div => "/",
        BinOp::Mod => "%",
    }
}

/// A type (see [`type_text`]).
pub fn fmt_type(t: &TypeExpr) -> (r: String)
    ensures
        r@ == type_text(type_view(*t)),
    decreases t,
{
    match t {
        TypeExpr::Named(n) => n.clone(),
        TypeExpr::Primitive(p) => String::from_str(prim_string(*p)),
        TypeExpr::Semantic(ls) => {
            let ghost lv = strings_view(ls@);
            let mut out = String::from_str("semantic(");
            let ghost head = out@;
            let mut i: usize = 0;
            assert(lv.subrange(0, 0) =~= Seq::<Seq<char>>::empty());
            while i < ls.len()
                invariant
                    i <= ls.len(),
                    lv == strings_view(ls@),
                    head == "semantic("@,
                    out@ == head + labels_text(lv.subrange(0, i as int)),
                decreases ls.len() - i,
            {
                let ghost pre = lv.subrange(0, i as int);
                assert(lv.subrange(0, i + 1).drop_last() =~= pre);
                assert(lv.subrange(0, i + 1).last() == ls@[i as int]@);
                if i > 0 {
                    out.append(", ");
                } else {
                    assert(pre.len() == 0);
                }
                out.append("\"");
                out.append(ls[i].as_str());
                out.append("\"");
                proof {
                    if i == 0 {
                        assert(lv.subrange(0, 1)[0] == ls@[0]@);
                    }
                }
                i = i + 1;
            }
            assert(lv.subrange(0, ls.len() as int) =~= lv);
            out.append(")");
            out
        },
        TypeExpr::Vec(inner) => {
            let mut out = String::from_str("Vec<");
            let s = fmt_type(&**inner);
            out.append(s.as_str());
            out.append(">");
            out
        },
    }
}

/// `name: type` for each parameter, separated by `, ` (see [`params_text`]).
pub fn fmt_params(params: &Vec<Param>) -> (r: String)
    ensures
        r@ == params_text(params_view(params@)),
{
    let ghost pv = params_view(params@);
    let mut out = String::new();
    let mut i: usize = 0;
    assert(pv.subrange(0, 0) =~= Seq::<ParamV>::empty());
    while i < params.len()
        invariant
            i <= params.len(),
            pv == params_view(params@),
            out@ == params_text(pv.subrange(0, i as int)),
        decreases params.len() - i,
    {
        let ghost pre = pv.subrange(0, i as int);
        assert(pv.subrange(0, i + 1).drop_last() =~= pre);
        assert(pv.subrange(0, i + 1).last() == pv[i as int]);
        if i > 0 {
            out.append(", ");
        } else {
            assert(pre.len() == 0);
        }
        out.append(params[i].name.as_str());
        out.append(": ");
        let t = fmt_type(&params[i].ty);
        out.append(t.as_str());
        i = i + 1;
    }
    assert(pv.subrange(0, params.len() as int) =~= pv);
    out
}

/// An expression (see [`expr_text`]).
pub fn fmt_expr(e: &Expr) -> (r: String)
    ensures
        r@ == expr_text(expr_view(*e)),
    decreases e, 0int,
{
    match e {
        Expr::StringLit(s) => {
            let mut out = String::from_str("\"");
            out.append(s.as_str());
            out.append("\"");
            out
        },
        Expr::IntLit(n) => u64_to_string(*n),
        Expr::FloatLit(s) => s.clone(),
        Expr::BoolLit(b) => if *b {
            String::from_str("true")
        } else {
            String::from_str("false")
        },
        Expr::Ident(n) => n.clone(),
        Expr::Call(n, args) => {
            proof {
                assert(decreases_to!(e => args));
            }
            let inner = fmt_exprs(args);
            crate::text::concat4(n.as_str(), "(", inner.as_str(), ")")
        },
        Expr::BinOp(l, op, r) => {
            let a = fmt_expr(&**l);
            let b = fmt_expr(&**r);
            crate::text::concat5(a.as_str(), " ", op_string(*op), " ", b.as_str())
        },
        Expr::Break => String::from_str("break"),
        Expr::Continue => String::from_str("continue"),
        Expr::Tuple(items) => {
            proof {
                assert(decreases_to!(e => items));
            }
            let inner = fmt_exprs(items);
            crate::text::concat3("(", inner.as_str(), ")")
        },
        Expr::VecLit(items) => {
            proof {
                assert(decreases_to!(e => items));
            }
            let inner = fmt_exprs(items);
            crate::text::concat3("[", inner.as_str(), "]")
        },
        Expr::Index(b, i) => {
            let a = fmt_expr(&**b);
            let c = fmt_expr(&**i);
            crate::text::concat4(a.as_str(), "[", c.as_str(), "]")
        },
        Expr::FieldAccess(b, f) => {
            let a = fmt_expr(&**b);
            crate::text::concat3(a.as_str(), ".", f.as_str())
        },
        Expr::StructConstruct { name, fields } => {
            proof {
                assert(decreases_to!(e => fields));
            }
            let inner = fmt_field_inits(fields);
            crate::text::concat4(name.as_str(), " { ", inner.as_str(), " }")
        },
        Expr::EnumVariant { variant, payload } => match payload {
            Some(p) => {
                let a = fmt_expr(&**p);
                crate::text::concat4(variant.as_str(), "(", a.as_str(), ")")
            },
            None => variant.clone(),
        },
    }
}

fn fmt_exprs(es: &Vec<Expr>) -> (r: String)
    ensures
        r@ == exprs_text(exprs_view(es@)),
    decreases es, 1int,
{
    let ghost ev = exprs_view(es@);
    proof {
        crate::ast::lemma_exprs_view_index(es@);
    }
    let mut out = String::new();
    let mut i: usize = 0;
    assert(ev.subrange(0, 0) =~= Seq::<ExprV>::empty());
    while i < es.len()
        invariant
            i <= es.len(),
            ev == exprs_view(es@),
            ev.len() == es.len(),
            forall|k: int| 0 <= k < es.len() ==> #[trigger] ev[k] == expr_view(es@[k]),
            out@ == exprs_text(ev.subrange(0, i as int)),
        decreases es.len() - i,
    {
        proof {
            assert(decreases_to!(es => es@));
            assert(decreases_to!(es@ => es@[i as int]));
        }
        let ghost pre = ev.subrange(0, i as int);
        assert(ev.subrange(0, i + 1).drop_last() =~= pre);
        assert(ev.subrange(0, i + 1)[i as int] == ev[i as int]);
        let t = fmt_expr(&es[i]);
        if i > 0 {
            out.append(", ");
        } else {
            assert(pre.len() == 0);
        }
        out.append(t.as_str());
        i = i + 1;
    }
    assert(ev.subrange(0, es.len() as int) =~= ev);
    out
}

fn fmt_field_inits(fs: &Vec<(String, Expr)>) -> (r: String)
    ensures
        r@ == field_inits_text(fields_view(fs@)),
    decreases fs, 1int,
{
    let ghost fv = fields_view(fs@);
    proof {
        crate::ast::lemma_fields_view_index(fs@);
    }
    let mut out = String::new();
    let mut i: usize = 0;
    assert(fv.subrange(0, 0) =~= Seq::<(Seq<char>, ExprV)>::empty());
    while i < fs.len()
        invariant
            i <= fs.len(),
            fv == fields_view(fs@),
            fv.len() == fs.len(),
            forall|k: int| 0 <= k < fs.len() ==> #[trigger] fv[k] == (fs@[k].0@, expr_view(fs@[k].1)),
            out@ == field_inits_text(fv.subrange(0, i as int)),
        decreases fs.len() - i,
    {
        proof {
            assert(decreases_to!(fs => fs@));
            assert(decreases_to!(fs@ => fs@[i as int]));
            assert(decreases_to!(fs@[i as int] => fs@[i as int].1));
        }
        let ghost pre = fv.subrange(0, i as int);
        assert(fv.subrange(0, i + 1).drop_last() =~= pre);
        assert(fv.subrange(0, i + 1)[i as int] == fv[i as int]);
        let t = fmt_expr(&fs[i].1);
        if i > 0 {
            out.append(", ");
        } else {
            assert(pre.len() == 0);
        }
        out.append(fs[i].0.as_str());
        out.append(": ");
        out.append(t.as_str());
        i = i + 1;
    }
    assert(fv.subrange(0, fs.len() as int) =~= fv);
    out
}

/// A block (see [`block_text`]).
fn fmt_block(b: &Vec<Stmt>, pad: &str) -> (r: String)
    ensures
        r@ == block_text(block_view(b@), pad@),
    decreases b, 2int,
{
    proof {
        crate::ast::lemma_block_view_index(b@);
    }
    if b.len() == 0 {
        return String::from_str("{}");
    }
    let inner = crate::text::concat2(pad, "    ");
    let body = fmt_stmts(b, inner.as_str());
    let mut out = String::from_str("{\n");
    out.append(body.as_str());
    out.append("\n");
    out.append(pad);
    out.append("}");
    out
}

/// The statements of a block, one per line (see [`stmts_text`]).
fn fmt_stmts(b: &Vec<Stmt>, pad: &str) -> (r: String)
    ensures
        r@ == stmts_text(block_view(b@), pad@),
    decreases b, 1int,
{
    let ghost bv = block_view(b@);
    proof {
        crate::ast::lemma_block_view_index(b@);
    }
    let mut out = String::new();
    let mut i: usize = 0;
    assert(bv.subrange(0, 0) =~= Seq::<StmtV>::empty());
    while i < b.len()
        invariant
            i <= b.len(),
            bv == block_view(b@),
            bv.len() == b.len(),
            forall|k: int| 0 <= k < b.len() ==> #[trigger] bv[k] == stmt_view(b@[k]),
            out@ == stmts_text(bv.subrange(0, i as int), pad@),
        decreases b.len() - i,
    {
        proof {
            assert(decreases_to!(b => b@));
            assert(decreases_to!(b@ => b@[i as int]));
        }
        let ghost pre = bv.subrange(0, i as int);
        assert(bv.subrange(0, i + 1).drop_last() =~= pre);
        assert(bv.subrange(0, i + 1)[i as int] == bv[i as int]);
        let t = fmt_stmt(&b[i], pad);
        if i > 0 {
            out.append("\n");
        } else {
            assert(pre.len() == 0);
        }
        out.append(pad);
        out.append(t.as_str());
        i = i + 1;
    }
    assert(bv.subrange(0, b.len() as int) =~= bv);
    out
}

/// The cases of a branch (see [`cases_text`]).
fn fmt_cases(cs: &Vec<BranchCase>, pad: &str) -> (r: String)
    ensures
        r@ == cases_text(cases_view(cs@), pad@),
    decreases cs, 1int,
{
    let ghost cv = cases_view(cs@);
    proof {
        crate::ast::lemma_cases_view_index(cs@);
    }
    let mut out = String::new();
    let mut i: usize = 0;
    assert(cv.subrange(0, 0) =~= Seq::<BranchCaseV>::empty());
    while i < cs.len()
        invariant
            i <= cs.len(),
            cv == cases_view(cs@),
            cv.len() == cs.len(),
            forall|k: int| 0 <= k < cs.len() ==> #[trigger] cv[k] == (BranchCaseV {
                label: cs@[k].label@,
                confidence: cs@[k].confidence@,
                body: block_view(cs@[k].body@),
            }),
            out@ == cases_text(cv.subrange(0, i as int), pad@),
        decreases cs.len() - i,
    {
        proof {
            assert(decreases_to!(cs => cs@));
            assert(decreases_to!(cs@ => cs@[i as int]));
            assert(decreases_to!(cs@[i as int] => cs@[i as int].body));
        }
        let ghost pre = cv.subrange(0, i as int);
        assert(cv.subrange(0, i + 1).drop_last() =~= pre);
        assert(cv.subrange(0, i + 1)[i as int] == cv[i as int]);
        let c = &cs[i];
        let body = fmt_block(&c.body, pad);
        out.append(pad);
        out.append("case \"");
        out.append(c.label.as_str());
        out.append("\" (confidence > ");
        out.append(c.confidence.as_str());
        out.append(") => ");
        out.append(body.as_str());
        out.append("\n");
        i = i + 1;
    }
    assert(cv.subrange(0, cs.len() as int) =~= cv);
    out
}

/// A statement (see [`stmt_text`]).
fn fmt_stmt(st: &Stmt, pad: &str) -> (r: String)
    ensures
        r@ == stmt_text(stmt_view(*st), pad@),
    decreases st, 0int,
{
    match st {
        Stmt::Let(name, ty, e, is_mut) => {
            let mut out = String::from_str("let ");
            if *is_mut {
                out.append("mut ");
            }
            out.append(name.as_str());
            match ty {
                Some(t) => {
                    let ts = fmt_type(t);
                    out.append(": ");
                    out.append(ts.as_str());
                },
                None => {},
            }
            match e {
                Some(e) => {
                    let es = fmt_expr(e);
                    out.append(" = ");
                    out.append(es.as_str());
                },
                None => {},
            }
            out.append(";");
            out
        },
        Stmt::Return(e) => {
            let es = fmt_expr(e);
            crate::text::concat3("return ", es.as_str(), ";")
        },
        Stmt::Expr(e) => {
            let es = fmt_expr(e);
            crate::text::concat2(es.as_str(), ";")
        },
        Stmt::Instruction(t) => crate::text::concat3("instruction \"", t.as_str(), "\";"),
        Stmt::Apply(n) => crate::text::concat3("apply ", n.as_str(), ";"),
        Stmt::Branch(br) => {
            proof {
                assert(decreases_to!(st => br));
                assert(decreases_to!(br => br.cases));
            }
            let inner = crate::text::concat2(pad, "    ");
            let cases = fmt_cases(&br.cases, inner.as_str());
            let mut out = crate::text::concat3("branch ", br.var.as_str(), " {\n");
            out.append(cases.as_str());
            match &br.default {
                Some(d) => {
                    proof {
                        assert(decreases_to!(br => br.default));
                    }
                    let ds = fmt_block(d, inner.as_str());
                    out.append(inner.as_str());
                    out.append("default => ");
                    out.append(ds.as_str());
                    out.append("\n");
                },
                None => {},
            }
            out.append(pad);
            out.append("}");
            out
        },
        Stmt::Interruptible(b) => {
            let bs = fmt_block(b, pad);
            crate::text::concat2("interruptible ", bs.as_str())
        },
        Stmt::If { condition, then_branch, else_branch } => {
            let cs = fmt_expr(condition);
            let ts = fmt_block(then_branch, pad);
            let mut out = crate::text::concat4("if ", cs.as_str(), " ", ts.as_str());
            match else_branch {
                Some(eb) => {
                    let es = fmt_block(eb, pad);
                    out.append(" else ");
                    out.append(es.as_str());
                },
                None => {},
            }
            out
        },
        Stmt::Loop(b) => {
            let bs = fmt_block(b, pad);
            crate::text::concat2("loop ", bs.as_str())
        },
        Stmt::While { condition, body } => {
            let cs = fmt_expr(condition);
            let bs = fmt_block(body, pad);
            crate::text::concat4("while ", cs.as_str(), " ", bs.as_str())
        },
        Stmt::For { item, collection, body } => {
            let cs = fmt_expr(collection);
            let bs = fmt_block(body, pad);
            let mut out = crate::text::concat4("for ", item.as_str(), " in ", cs.as_str());
            out.append(" ");
            out.append(bs.as_str());
            out
        },
        Stmt::Assign(n, e) => {
            let es = fmt_expr(e);
            crate::text::concat4(n.as_str(), " = ", es.as_str(), ";")
        },
    }
}

/// The members of a struct or an enum, as `member_list_text` lays them out,
/// given each member's text.
fn fmt_members(ms: &Vec<String>) -> (r: String)
    ensures
        r@ == member_list_text(strings_view(ms@)),
{
    let ghost mv = strings_view(ms@);
    if ms.len() == 0 {
        return String::from_str("{}");
    }
    let mut out = String::from_str("{\n");
    let mut i: usize = 0;
    assert(mv.subrange(0, 0) =~= Seq::<Seq<char>>::empty());
    while i < ms.len()
        invariant
            i <= ms.len(),
            mv == strings_view(ms@),
            out@ == "{\n"@ + members_text(mv.subrange(0, i as int)),
        decreases ms.len() - i,
    {
        assert(mv.subrange(0, i + 1).drop_last() =~= mv.subrange(0, i as int));
        assert(mv.subrange(0, i + 1).last() == ms@[i as int]@);
        out.append("    ");
        out.append(ms[i].as_str());
        out.append(",\n");
        i = i + 1;
    }
    assert(mv.subrange(0, ms.len() as int) =~= mv);
    out.append("}");
    out
}

/// `pub ` for a public item, nothing otherwise.
fn pub_str(is_pub: bool) -> (r: &'static str)
    ensures
        r@ == pub_text(is_pub),
{
    if is_pub {
        "pub "
    } else {
        proof {
            reveal_strlit("");
        }
        ""
    }
}

/// ` -> T` for a declared return type, nothing otherwise.
fn fmt_ret(t: &Option<TypeExpr>) -> (r: String)
    ensures
        r@ == ret_text(opt_type_view(*t)),
{
    match t {
        Some(t) => {
            let ts = fmt_type(t);
            crate::text::concat2(" -> ", ts.as_str())
        },
        None => String::new(),
    }
}

/// `name(params)` as it follows an item's keyword.
fn fmt_signature(name: &String, params: &Vec<Param>) -> (r: String)
    ensures
        r@ == name@ + "("@ + params_text(params_view(params@)) + ")"@,
{
    let ps = fmt_params(params);
    crate::text::concat4(name.as_str(), "(", ps.as_str(), ")")
}

/// A struct definition (see [`item_text`]).
fn fmt_struct(sd: &StructDef) -> (r: String)
    ensures
        r@ == item_text(item_view(Item::StructDef(*sd))),
{
    proof {
        reveal(item_text);
        reveal_strlit("");
    }
    let ghost fs = sd.fields@.map_values(|f: StructField| (f.name@, type_view(f.ty)));
    let ghost texts = fs.map_values(|f: (Seq<char>, TypeExprV)| f.0 + ": "@ + type_text(f.1));
    let mut ms: Vec<String> = Vec::new();
    let mut i: usize = 0;
    while i < sd.fields.len()
        invariant
            i <= sd.fields.len(),
            fs == sd.fields@.map_values(|f: StructField| (f.name@, type_view(f.ty))),
            texts == fs.map_values(|f: (Seq<char>, TypeExprV)| f.0 + ": "@ + type_text(f.1)),
            strings_view(ms@) == texts.subrange(0, i as int),
            ms.len() == i,
        decreases sd.fields.len() - i,
    {
        let ty = fmt_type(&sd.fields[i].ty);
        let m = crate::text::concat3(sd.fields[i].name.as_str(), ": ", ty.as_str());
        ms.push(m);
        assert(strings_view(ms@) =~= texts.subrange(0, i + 1));
        i = i + 1;
    }
    assert(texts.subrange(0, sd.fields.len() as int) =~= texts);
    let members = fmt_members(&ms);
    let mut out = crate::text::concat3(pub_str(sd.is_pub), "struct ", sd.name.as_str());
    out.append(" ");
    out.append(members.as_str());
    out
}

/// An enum definition (see [`item_text`]).
fn fmt_enum(ed: &EnumDef) -> (r: String)
    ensures
        r@ == item_text(item_view(Item::EnumDef(*ed))),
{
    proof {
        reveal(item_text);
        reveal_strlit("");
    }
    let ghost vs = ed.variants@.map_values(|v: EnumVariant| (v.name@, opt_type_view(v.payload)));
    let ghost texts = vs.map_values(
        |v: (Seq<char>, Option<TypeExprV>)|
            v.0 + match v.1 {
                Some(t) => "("@ + type_text(t) + ")"@,
                None => Seq::empty(),
            },
    );
    let mut ms: Vec<String> = Vec::new();
    let mut i: usize = 0;
    while i < ed.variants.len()
        invariant
            i <= ed.variants.len(),
            vs == ed.variants@.map_values(|v: EnumVariant| (v.name@, opt_type_view(v.payload))),
            texts == vs.map_values(
                |v: (Seq<char>, Option<TypeExprV>)|
                    v.0 + match v.1 {
                        Some(t) => "("@ + type_text(t) + ")"@,
                        None => Seq::empty(),
                    },
            ),
            strings_view(ms@) == texts.subrange(0, i as int),
            ms.len() == i,
        decreases ed.variants.len() - i,
    {
        let v = &ed.variants[i];
        let m = match &v.payload {
            Some(t) => {
                let ts = fmt_type(t);
                crate::text::concat4(v.name.as_str(), "(", ts.as_str(), ")")
            },
            None => v.name.clone(),
        };
        assert(vs[i as int] == (v.name@, opt_type_view(v.payload)));
        assert(m@ == texts[i as int]);
        ms.push(m);
        assert(strings_view(ms@) =~= texts.subrange(0, i + 1));
        i = i + 1;
    }
    assert(texts.subrange(0, ed.variants.len() as int) =~= texts);
    let members = fmt_members(&ms);
    let mut out = crate::text::concat3(pub_str(ed.is_pub), "enum ", ed.name.as_str());
    out.append(" ");
    out.append(members.as_str());
    out
}

/// A top-level item (see [`item_text`]).
#[verifier::rlimit(60)]
#[verifier::spinoff_prover]
pub fn fmt_item(it: &Item) -> (r: String)
    ensures
        r@ == item_text(item_view(*it)),
{
    proof {
        reveal(item_text);
        reveal_strlit("");
    }
    match it {
        Item::FnDef(f) => {
            let sig = fmt_signature(&f.name, &f.params);
            let ret = fmt_ret(&f.return_type);
            let body = fmt_block(&f.body, "");
            let mut out = crate::text::concat3(pub_str(f.is_pub), "fn ", sig.as_str());
            out.append(ret.as_str());
            out.append(" ");
            out.append(body.as_str());
            assert(out@ =~= item_text(item_view(*it)));
            out
        },
        Item::KernelDef(k) => {
            let sig = fmt_signature(&k.name, &k.params);
            let ret = fmt_type(&k.return_type);
            let body = fmt_block(&k.body, "");
            let mut out = crate::text::concat3(pub_str(k.is_pub), "kernel ", sig.as_str());
            out.append(" -> ");
            out.append(ret.as_str());
            out.append(" ");
            out.append(body.as_str());
            assert(out@ =~= item_text(item_view(*it)));
            out
        },
        Item::TypeAlias(t) => {
            let def = fmt_type(&t.def);
            let mut out = crate::text::concat3(pub_str(t.is_pub), "type ", t.name.as_str());
            out.append(" = ");
            out.append(def.as_str());
            out.append(";");
            assert(out@ =~= item_text(item_view(*it)));
            out
        },
        Item::SoulDef(sd) => {
            let body = fmt_block(&sd.body, "");
            crate::text::concat2("soul ", body.as_str())
        },
        Item::SpellDef(sp) => {
            let sig = fmt_signature(&sp.name, &sp.params);
            let ret = fmt_type(&sp.ret);
            let body = fmt_block(&sp.body, "");
            let mut out = crate::text::concat3(pub_str(sp.is_pub), "spell ", sig.as_str());
            out.append(" -> ");
            out.append(ret.as_str());
            out.append(" ");
            out.append(body.as_str());
            assert(out@ =~= item_text(item_view(*it)));
            out
        },
        Item::SkillDef(sk) => {
            let sig = fmt_signature(&sk.name, &sk.params);
            let ret = fmt_ret(&sk.return_type);
            let body = fmt_block(&sk.body, "");
            let mut out = crate::text::concat3(pub_str(sk.is_pub), "skill ", sig.as_str());
            out.append(ret.as_str());
            out.append(" ");
            out.append(body.as_str());
            assert(out@ =~= item_text(item_view(*it)));
            out
        },
        Item::MemoryDecl(m) => {
            let ty = fmt_type(&m.ty);
            let init = fmt_expr(&m.init);
            let mut out = crate::text::concat4("memory ", m.name.as_str(), ": ", ty.as_str());
            out.append(" = ");
            out.append(init.as_str());
            out.append(";");
            assert(out@ =~= item_text(item_view(*it)));
            out
        },
        Item::OracleDecl(o) => {
            let sig = fmt_signature(&o.name, &o.params);
            let ret = fmt_type(&o.ret);
            let mut out = crate::text::concat3(pub_str(o.is_pub), "oracle ", sig.as_str());
            out.append(" -> ");
            out.append(ret.as_str());
            out.append(";");
            assert(out@ =~= item_text(item_view(*it)));
            out
        },
        Item::ConstraintDef(c) => {
            let body = fmt_block(&c.body, "");
            let mut out = crate::text::concat3(pub_str(c.is_pub), "constraint ", c.name.as_str());
            out.append(" ");
            out.append(body.as_str());
            assert(out@ =~= item_text(item_view(*it)));
            out
        },
        Item::LoreDecl(l) => {
            let mut out = crate::text::concat3(pub_str(l.is_pub), "lore ", l.name.as_str());
            out.append(" = \"");
            out.append(l.value.as_str());
            out.append("\";");
            assert(out@ =~= item_text(item_view(*it)));
            out
        },
        Item::UseDecl(u) => crate::text::concat3("use \"", u.path.as_str(), "\";"),
        Item::StructDef(sd) => fmt_struct(sd),
        Item::EnumDef(ed) => fmt_enum(ed),
        Item::ConstDef(c) => {
            let ty = fmt_type(&c.ty);
            let v = fmt_expr(&c.value);
            let mut out = crate::text::concat3(pub_str(c.is_pub), "const ", c.name.as_str());
            out.append(": ");
            out.append(ty.as_str());
            out.append(" = ");
            out.append(v.as_str());
            out.append(";");
            assert(out@ =~= item_text(item_view(*it)));
            out
        },
    }
}

/// The whole program as normalised source text: each item formatted, the
/// items separated by newlines (see [`items_text`]).
pub fn format_items(items: &Vec<Item>) -> (r: String)
    ensures
        r@ == items_text(items_view(items@)),
{
    let ghost iv = items_view(items@);
    let mut out = String::new();
    let mut i: usize = 0;
    assert(iv.subrange(0, 0) =~= Seq::<ItemV>::empty());
    while i < items.len()
        invariant
            i <= items.len(),
            iv == items_view(items@),
            out@ == items_text(iv.subrange(0, i as int)),
        decreases items.len() - i,
    {
        let ghost pre = iv.subrange(0, i as int);
        assert(iv.subrange(0, i + 1).drop_last() =~= pre);
        assert(iv.subrange(0, i + 1).last() == item_view(items@[i as int]));
        let t = fmt_item(&items[i]);
        if i > 0 {
            out.append("\n");
        } else {
            assert(pre.len() == 0);
        }
        out.append(t.as_str());
        i = i + 1;
    }
    assert(iv.subrange(0, items.len() as int) =~= iv);
    out
}

} // verus!
