//! Lexer: turns source text into a flat sequence of tokens.
//!
//! The lexical grammar is maximal munch: at each position the longest
//! lexeme wins, keywords win over identifiers of the same length, blanks
//! (`[ \t\n\r]+`) and line comments (`//` up to the end of the line) are
//! skipped. [`lex_spec`] states the grammar; [`tokenize`] implements it.
use vstd::prelude::*;

verus! {

/// Every token of the lexical grammar.
#[derive(Debug, PartialEq)]
pub enum Token {
    Fn,
    Kernel,
    Branch,
    Case,
    Default,
    Return,
    Type,
    Let,
    Pub,
    Use,
    Soul,
    Skill,
    Instruction,
    Spell,
    Memory,
    Oracle,
    Constraint,
    Lore,
    Observe,
    Reason,
    Act,
    Verify,
    Infer,
    CtxAlloc,
    CtxFree,
    CtxAppend,
    CtxResize,
    CtxCompress,
    CtxShare,
    LocalModelLoad,
    LocalModelInfer,
    LocalModelUnload,
    LocalModelList,
    Println,
    Semantic,
    Intent,
    Ask,
    StrType,
    BoolType,
    U32Type,
    F32Type,
    Interruptible,
    Apply,
    If,
    Else,
    Loop,
    While,
    For,
    In,
    Mut,
    Break,
    Continue,
    Struct,
    Enum,
    Const,
    MemoryLoad,
    MemorySave,
    MemoryDelete,
    LBrace,
    RBrace,
    LParen,
    RParen,
    LBracket,
    RBracket,
    Semi,
    Colon,
    Comma,
    Dot,
    Assign,
    FatArrow,
    Arrow,
    Bang,
    Gt,
    Lt,
    NotEq,
    Eq,
    And,
    Or,
    Plus,
    Minus,
    Star,
    Slash,
    Percent,
    /// A double-quoted string literal; the text includes the surrounding quotes.
    StringLit(String),
    /// A decimal literal with a fractional part (`[0-9]+\.[0-9]+`), as written.
    FloatLit(String),
    /// An unsigned integer literal.
    IntLit(u64),
    /// An identifier `[a-zA-Z_][a-zA-Z0-9_]*` that is not a keyword.
    Ident(String),
}

/// The mathematical view of a token.
pub enum TokenV {
    Fn,
    Kernel,
    Branch,
    Case,
    Default,
    Return,
    Type,
    Let,
    Pub,
    Use,
    Soul,
    Skill,
    Instruction,
    Spell,
    Memory,
    Oracle,
    Constraint,
    Lore,
    Observe,
    Reason,
    Act,
    Verify,
    Infer,
    CtxAlloc,
    CtxFree,
    CtxAppend,
    CtxResize,
    CtxCompress,
    CtxShare,
    LocalModelLoad,
    LocalModelInfer,
    LocalModelUnload,
    LocalModelList,
    Println,
    Semantic,
    Intent,
    Ask,
    StrType,
    BoolType,
    U32Type,
    F32Type,
    Interruptible,
    Apply,
    If,
    Else,
    Loop,
    While,
    For,
    In,
    Mut,
    Break,
    Continue,
    Struct,
    Enum,
    Const,
    MemoryLoad,
    MemorySave,
    MemoryDelete,
    LBrace,
    RBrace,
    LParen,
    RParen,
    LBracket,
    RBracket,
    Semi,
    Colon,
    Comma,
    Dot,
    Assign,
    FatArrow,
    Arrow,
    Bang,
    Gt,
    Lt,
    NotEq,
    Eq,
    And,
    Or,
    Plus,
    Minus,
    Star,
    Slash,
    Percent,
    StringLit(Seq<char>),
    FloatLit(Seq<char>),
    IntLit(u64),
    Ident(Seq<char>),
}

pub open spec fn token_view(t: Token) -> TokenV {
    match t {
        Token::Fn => TokenV::Fn,
        Token::Kernel => TokenV::Kernel,
        Token::Branch => TokenV::Branch,
        Token::Case => TokenV::Case,
        Token::Default => TokenV::Default,
        Token::Return => TokenV::Return,
        Token::Type => TokenV::Type,
        Token::Let => TokenV::Let,
        Token::Pub => TokenV::Pub,
        Token::Use => TokenV::Use,
        Token::Soul => TokenV::Soul,
        Token::Skill => TokenV::Skill,
        Token::Instruction => TokenV::Instruction,
        Token::Spell => TokenV::Spell,
        Token::Memory => TokenV::Memory,
        Token::Oracle => TokenV::Oracle,
        Token::Constraint => TokenV::Constraint,
        Token::Lore => TokenV::Lore,
        Token::Observe => TokenV::Observe,
        Token::Reason => TokenV::Reason,
        Token::Act => TokenV::Act,
        Token::Verify => TokenV::Verify,
        Token::Infer => TokenV::Infer,
        Token::CtxAlloc => TokenV::CtxAlloc,
        Token::CtxFree => TokenV::CtxFree,
        Token::CtxAppend => TokenV::CtxAppend,
        Token::CtxResize => TokenV::CtxResize,
        Token::CtxCompress => TokenV::CtxCompress,
        Token::CtxShare => TokenV::CtxShare,
        Token::LocalModelLoad => TokenV::LocalModelLoad,
        Token::LocalModelInfer => TokenV::LocalModelInfer,
        Token::LocalModelUnload => TokenV::LocalModelUnload,
        Token::LocalModelList => TokenV::LocalModelList,
        Token::Println => TokenV::Println,
        Token::Semantic => TokenV::Semantic,
        Token::Intent => TokenV::Intent,
        Token::Ask => TokenV::Ask,
        Token::StrType => TokenV::StrType,
        Token::BoolType => TokenV::BoolType,
        Token::U32Type => TokenV::U32Type,
        Token::F32Type => TokenV::F32Type,
        Token::Interruptible => TokenV::Interruptible,
        Token::Apply => TokenV::Apply,
        Token::If => TokenV::If,
        Token::Else => TokenV::Else,
        Token::Loop => TokenV::Loop,
        Token::While => TokenV::While,
        Token::For => TokenV::For,
        Token::In => TokenV::In,
        Token::Mut => TokenV::Mut,
        Token::Break => TokenV::Break,
        Token::Continue => TokenV::Continue,
        Token::Struct => TokenV::Struct,
        Token::Enum => TokenV::Enum,
        Token::Const => TokenV::Const,
        Token::MemoryLoad => TokenV::MemoryLoad,
        Token::MemorySave => TokenV::MemorySave,
        Token::MemoryDelete => TokenV::MemoryDelete,
        Token::LBrace => TokenV::LBrace,
        Token::RBrace => TokenV::RBrace,
        Token::LParen => TokenV::LParen,
        Token::RParen => TokenV::RParen,
        Token::LBracket => TokenV::LBracket,
        Token::RBracket => TokenV::RBracket,
        Token::Semi => TokenV::Semi,
        Token::Colon => TokenV::Colon,
        Token::Comma => TokenV::Comma,
        Token::Dot => TokenV::Dot,
        Token::Assign => TokenV::Assign,
        Token::FatArrow => TokenV::FatArrow,
        Token::Arrow => TokenV::Arrow,
        Token::Bang => TokenV::Bang,
        Token::Gt => TokenV::Gt,
        Token::Lt => TokenV::Lt,
        Token::NotEq => TokenV::NotEq,
        Token::Eq => TokenV::Eq,
        Token::And => TokenV::And,
        Token::Or => TokenV::Or,
        Token::Plus => TokenV::Plus,
        Token::Minus => TokenV::Minus,
        Token::Star => TokenV::Star,
        Token::Slash => TokenV::Slash,
        Token::Percent => TokenV::Percent,
        Token::StringLit(s) => TokenV::StringLit(s@),
        Token::FloatLit(s) => TokenV::FloatLit(s@),
        Token::IntLit(n) => TokenV::IntLit(n),
        Token::Ident(s) => TokenV::Ident(s@),
    }
}

pub open spec fn tokens_view(ts: Seq<Token>) -> Seq<TokenV> {
    ts.map_values(|t: Token| token_view(t))
}

/// The keyword spelled by `w`, if it is one.
pub open spec fn keyword_of(w: Seq<char>) -> Option<TokenV> {
    if w == seq!['f', 'n'] {
        Some(TokenV::Fn)
    }
    else if w == seq!['k', 'e', 'r', 'n', 'e', 'l'] {
        Some(TokenV::Kernel)
    }
    else if w == seq!['b', 'r', 'a', 'n', 'c', 'h'] {
        Some(TokenV::Branch)
    }
    else if w == seq!['c', 'a', 's', 'e'] {
        Some(TokenV::Case)
    }
    else if w == seq!['d', 'e', 'f', 'a', 'u', 'l', 't'] {
        Some(TokenV::Default)
    }
    else if w == seq!['r', 'e', 't', 'u', 'r', 'n'] {
        Some(TokenV::Return)
    }
    else if w == seq!['t', 'y', 'p', 'e'] {
        Some(TokenV::Type)
    }
    else if w == seq!['l', 'e', 't'] {
        Some(TokenV::Let)
    }
    else if w == seq!['p', 'u', 'b'] {
        Some(TokenV::Pub)
    }
    else if w == seq!['u', 's', 'e'] {
        Some(TokenV::Use)
    }
    else if w == seq!['s', 'o', 'u', 'l'] {
        Some(TokenV::Soul)
    }
    else if w == seq!['s', 'k', 'i', 'l', 'l'] {
        Some(TokenV::Skill)
    }
    else if w == seq!['i', 'n', 's', 't', 'r', 'u', 'c', 't', 'i', 'o', 'n'] {
        Some(TokenV::Instruction)
    }
    else if w == seq!['s', 'p', 'e', 'l', 'l'] {
        Some(TokenV::Spell)
    }
    else if w == seq!['m', 'e', 'm', 'o', 'r', 'y'] {
        Some(TokenV::Memory)
    }
    else if w == seq!['o', 'r', 'a', 'c', 'l', 'e'] {
        Some(TokenV::Oracle)
    }
    else if w == seq!['c', 'o', 'n', 's', 't', 'r', 'a', 'i', 'n', 't'] {
        Some(TokenV::Constraint)
    }
    else if w == seq!['l', 'o', 'r', 'e'] {
        Some(TokenV::Lore)
    }
    else if w == seq!['o', 'b', 's', 'e', 'r', 'v', 'e'] {
        Some(TokenV::Observe)
    }
    else if w == seq!['r', 'e', 'a', 's', 'o', 'n'] {
        Some(TokenV::Reason)
    }
    else if w == seq!['a', 'c', 't'] {
        Some(TokenV::Act)
    }
    else if w == seq!['v', 'e', 'r', 'i', 'f', 'y'] {
        Some(TokenV::Verify)
    }
    else if w == seq!['i', 'n', 'f', 'e', 'r'] {
        Some(TokenV::Infer)
    }
    else if w == seq!['c', 't', 'x', '_', 'a', 'l', 'l', 'o', 'c'] {
        Some(TokenV::CtxAlloc)
    }
    else if w == seq!['c', 't', 'x', '_', 'f', 'r', 'e', 'e'] {
        Some(TokenV::CtxFree)
    }
    else if w == seq!['c', 't', 'x', '_', 'a', 'p', 'p', 'e', 'n', 'd'] {
        Some(TokenV::CtxAppend)
    }
    else if w == seq!['c', 't', 'x', '_', 'r', 'e', 's', 'i', 'z', 'e'] {
        Some(TokenV::CtxResize)
    }
    else if w == seq!['c', 't', 'x', '_', 'c', 'o', 'm', 'p', 'r', 'e', 's', 's'] {
        Some(TokenV::CtxCompress)
    }
    else if w == seq!['c', 't', 'x', '_', 's', 'h', 'a', 'r', 'e'] {
        Some(TokenV::CtxShare)
    }
    else if w == seq!['l', 'o', 'c', 'a', 'l', '_', 'm', 'o', 'd', 'e', 'l', '_', 'l', 'o', 'a', 'd'] {
        Some(TokenV::LocalModelLoad)
    }
    else if w == seq!['l', 'o', 'c', 'a', 'l', '_', 'm', 'o', 'd', 'e', 'l', '_', 'i', 'n', 'f', 'e', 'r'] {
        Some(TokenV::LocalModelInfer)
    }
    else if w == seq!['l', 'o', 'c', 'a', 'l', '_', 'm', 'o', 'd', 'e', 'l', '_', 'u', 'n', 'l', 'o', 'a', 'd'] {
        Some(TokenV::LocalModelUnload)
    }
    else if w == seq!['l', 'o', 'c', 'a', 'l', '_', 'm', 'o', 'd', 'e', 'l', '_', 'l', 'i', 's', 't'] {
        Some(TokenV::LocalModelList)
    }
    else if w == seq!['p', 'r', 'i', 'n', 't', 'l', 'n'] {
        Some(TokenV::Println)
    }
    else if w == seq!['s', 'e', 'm', 'a', 'n', 't', 'i', 'c'] {
        Some(TokenV::Semantic)
    }
    else if w == seq!['i', 'n', 't', 'e', 'n', 't'] {
        Some(TokenV::Intent)
    }
    else if w == seq!['a', 's', 'k'] {
        Some(TokenV::Ask)
    }
    else if w == seq!['s', 't', 'r'] {
        Some(TokenV::StrType)
    }
    else if w == seq!['b', 'o', 'o', 'l'] {
        Some(TokenV::BoolType)
    }
    else if w == seq!['u', '3', '2'] {
        Some(TokenV::U32Type)
    }
    else if w == seq!['f', '3', '2'] {
        Some(TokenV::F32Type)
    }
    else if w == seq!['i', 'n', 't', 'e', 'r', 'r', 'u', 'p', 't', 'i', 'b', 'l', 'e'] {
        Some(TokenV::Interruptible)
    }
    else if w == seq!['a', 'p', 'p', 'l', 'y'] {
        Some(TokenV::Apply)
    }
    else if w == seq!['i', 'f'] {
        Some(TokenV::If)
    }
    else if w == seq!['e', 'l', 's', 'e'] {
        Some(TokenV::Else)
    }
    else if w == seq!['l', 'o', 'o', 'p'] {
        Some(TokenV::Loop)
    }
    else if w == seq!['w', 'h', 'i', 'l', 'e'] {
        Some(TokenV::While)
    }
    else if w == seq!['f', 'o', 'r'] {
        Some(TokenV::For)
    }
    else if w == seq!['i', 'n'] {
        Some(TokenV::In)
    }
    else if w == seq!['m', 'u', 't'] {
        Some(TokenV::Mut)
    }
    else if w == seq!['b', 'r', 'e', 'a', 'k'] {
        Some(TokenV::Break)
    }
    else if w == seq!['c', 'o', 'n', 't', 'i', 'n', 'u', 'e'] {
        Some(TokenV::Continue)
    }
    else if w == seq!['s', 't', 'r', 'u', 'c', 't'] {
        Some(TokenV::Struct)
    }
    else if w == seq!['e', 'n', 'u', 'm'] {
        Some(TokenV::Enum)
    }
    else if w == seq!['c', 'o', 'n', 's', 't'] {
        Some(TokenV::Const)
    }
    else if w == seq!['m', 'e', 'm', 'o', 'r', 'y', '_', 'l', 'o', 'a', 'd'] {
        Some(TokenV::MemoryLoad)
    }
    else if w == seq!['m', 'e', 'm', 'o', 'r', 'y', '_', 's', 'a', 'v', 'e'] {
        Some(TokenV::MemorySave)
    }
    else if w == seq!['m', 'e', 'm', 'o', 'r', 'y', '_', 'd', 'e', 'l', 'e', 't', 'e'] {
        Some(TokenV::MemoryDelete)
    }
 else {
        None
    }
}

/// Does `s[a..b]` spell `lit`?
fn eq_lit(s: &Vec<char>, a: usize, b: usize, lit: &[char]) -> (r: bool)
    requires
        a <= b <= s.len(),
    ensures
        r == (s@.subrange(a as int, b as int) == lit@),
{
    if b - a != lit.len() {
        proof {
            assert(s@.subrange(a as int, b as int).len() != lit@.len());
        }
        return false;
    }
    let mut k: usize = 0;
    while k < lit.len()
        invariant
            b - a == lit.len(),
            a <= b <= s.len(),
            k <= lit.len(),
            forall|j: int| 0 <= j < k ==> s@[a + j] == lit@[j],
        decreases lit.len() - k,
    {
        if s[a + k] != lit[k] {
            proof {
                assert(s@.subrange(a as int, b as int)[k as int] != lit@[k as int]);
            }
            return false;
        }
        k = k + 1;
    }
    assert(s@.subrange(a as int, b as int) =~= lit@);
    true
}

spec fn keyword_part0(w: Seq<char>) -> Option<TokenV> {
    if w == seq!['f', 'n'] {
        Some(TokenV::Fn)
    }
    else if w == seq!['k', 'e', 'r', 'n', 'e', 'l'] {
        Some(TokenV::Kernel)
    }
    else if w == seq!['b', 'r', 'a', 'n', 'c', 'h'] {
        Some(TokenV::Branch)
    }
    else if w == seq!['c', 'a', 's', 'e'] {
        Some(TokenV::Case)
    }
    else if w == seq!['d', 'e', 'f', 'a', 'u', 'l', 't'] {
        Some(TokenV::Default)
    }
    else if w == seq!['r', 'e', 't', 'u', 'r', 'n'] {
        Some(TokenV::Return)
    }
    else if w == seq!['t', 'y', 'p', 'e'] {
        Some(TokenV::Type)
    }
    else if w == seq!['l', 'e', 't'] {
        Some(TokenV::Let)
    }
    else if w == seq!['p', 'u', 'b'] {
        Some(TokenV::Pub)
    }
    else if w == seq!['u', 's', 'e'] {
        Some(TokenV::Use)
    }
 else {
        None
    }
}

fn keyword_exec0(s: &Vec<char>, a: usize, b: usize) -> (r: Option<Token>)
    requires
        a <= b <= s.len(),
    ensures
        match r {
            Some(t) => keyword_part0(s@.subrange(a as int, b as int)) == Some(token_view(t)),
            None => keyword_part0(s@.subrange(a as int, b as int)) is None,
        },
{
    let ghost w = s@.subrange(a as int, b as int);
    if eq_lit(s, a, b, &['f', 'n']) {
        assert(w == seq!['f', 'n']) by {
            assert(['f', 'n']@ =~= seq!['f', 'n']);
        }
        return Some(Token::Fn);
    }
    assert(w != seq!['f', 'n']) by {
        assert(['f', 'n']@ =~= seq!['f', 'n']);
    }
    if eq_lit(s, a, b, &['k', 'e', 'r', 'n', 'e', 'l']) {
        assert(w == seq!['k', 'e', 'r', 'n', 'e', 'l']) by {
            assert(['k', 'e', 'r', 'n', 'e', 'l']@ =~= seq!['k', 'e', 'r', 'n', 'e', 'l']);
        }
        return Some(Token::Kernel);
    }
    assert(w != seq!['k', 'e', 'r', 'n', 'e', 'l']) by {
        assert(['k', 'e', 'r', 'n', 'e', 'l']@ =~= seq!['k', 'e', 'r', 'n', 'e', 'l']);
    }
    if eq_lit(s, a, b, &['b', 'r', 'a', 'n', 'c', 'h']) {
        assert(w == seq!['b', 'r', 'a', 'n', 'c', 'h']) by {
            assert(['b', 'r', 'a', 'n', 'c', 'h']@ =~= seq!['b', 'r', 'a', 'n', 'c', 'h']);
        }
        return Some(Token::Branch);
    }
    assert(w != seq!['b', 'r', 'a', 'n', 'c', 'h']) by {
        assert(['b', 'r', 'a', 'n', 'c', 'h']@ =~= seq!['b', 'r', 'a', 'n', 'c', 'h']);
    }
    if eq_lit(s, a, b, &['c', 'a', 's', 'e']) {
        assert(w == seq!['c', 'a', 's', 'e']) by {
            assert(['c', 'a', 's', 'e']@ =~= seq!['c', 'a', 's', 'e']);
        }
        return Some(Token::Case);
    }
    assert(w != seq!['c', 'a', 's', 'e']) by {
        assert(['c', 'a', 's', 'e']@ =~= seq!['c', 'a', 's', 'e']);
    }
    if eq_lit(s, a, b, &['d', 'e', 'f', 'a', 'u', 'l', 't']) {
        assert(w == seq!['d', 'e', 'f', 'a', 'u', 'l', 't']) by {
            assert(['d', 'e', 'f', 'a', 'u', 'l', 't']@ =~= seq!['d', 'e', 'f', 'a', 'u', 'l', 't']);
        }
        return Some(Token::Default);
    }
    assert(w != seq!['d', 'e', 'f', 'a', 'u', 'l', 't']) by {
        assert(['d', 'e', 'f', 'a', 'u', 'l', 't']@ =~= seq!['d', 'e', 'f', 'a', 'u', 'l', 't']);
    }
    if eq_lit(s, a, b, &['r', 'e', 't', 'u', 'r', 'n']) {
        assert(w == seq!['r', 'e', 't', 'u', 'r', 'n']) by {
            assert(['r', 'e', 't', 'u', 'r', 'n']@ =~= seq!['r', 'e', 't', 'u', 'r', 'n']);
        }
        return Some(Token::Return);
    }
    assert(w != seq!['r', 'e', 't', 'u', 'r', 'n']) by {
        assert(['r', 'e', 't', 'u', 'r', 'n']@ =~= seq!['r', 'e', 't', 'u', 'r', 'n']);
    }
    if eq_lit(s, a, b, &['t', 'y', 'p', 'e']) {
        assert(w == seq!['t', 'y', 'p', 'e']) by {
            assert(['t', 'y', 'p', 'e']@ =~= seq!['t', 'y', 'p', 'e']);
        }
        return Some(Token::Type);
    }
    assert(w != seq!['t', 'y', 'p', 'e']) by {
        assert(['t', 'y', 'p', 'e']@ =~= seq!['t', 'y', 'p', 'e']);
    }
    if eq_lit(s, a, b, &['l', 'e', 't']) {
        assert(w == seq!['l', 'e', 't']) by {
            assert(['l', 'e', 't']@ =~= seq!['l', 'e', 't']);
        }
        return Some(Token::Let);
    }
    assert(w != seq!['l', 'e', 't']) by {
        assert(['l', 'e', 't']@ =~= seq!['l', 'e', 't']);
    }
    if eq_lit(s, a, b, &['p', 'u', 'b']) {
        assert(w == seq!['p', 'u', 'b']) by {
            assert(['p', 'u', 'b']@ =~= seq!['p', 'u', 'b']);
        }
        return Some(Token::Pub);
    }
    assert(w != seq!['p', 'u', 'b']) by {
        assert(['p', 'u', 'b']@ =~= seq!['p', 'u', 'b']);
    }
    if eq_lit(s, a, b, &['u', 's', 'e']) {
        assert(w == seq!['u', 's', 'e']) by {
            assert(['u', 's', 'e']@ =~= seq!['u', 's', 'e']);
        }
        return Some(Token::Use);
    }
    assert(w != seq!['u', 's', 'e']) by {
        assert(['u', 's', 'e']@ =~= seq!['u', 's', 'e']);
    }
    None
}

spec fn keyword_part1(w: Seq<char>) -> Option<TokenV> {
    if w == seq!['s', 'o', 'u', 'l'] {
        Some(TokenV::Soul)
    }
    else if w == seq!['s', 'k', 'i', 'l', 'l'] {
        Some(TokenV::Skill)
    }
    else if w == seq!['i', 'n', 's', 't', 'r', 'u', 'c', 't', 'i', 'o', 'n'] {
        Some(TokenV::Instruction)
    }
    else if w == seq!['s', 'p', 'e', 'l', 'l'] {
        Some(TokenV::Spell)
    }
    else if w == seq!['m', 'e', 'm', 'o', 'r', 'y'] {
        Some(TokenV::Memory)
    }
    else if w == seq!['o', 'r', 'a', 'c', 'l', 'e'] {
        Some(TokenV::Oracle)
    }
    else if w == seq!['c', 'o', 'n', 's', 't', 'r', 'a', 'i', 'n', 't'] {
        Some(TokenV::Constraint)
    }
    else if w == seq!['l', 'o', 'r', 'e'] {
        Some(TokenV::Lore)
    }
    else if w == seq!['o', 'b', 's', 'e', 'r', 'v', 'e'] {
        Some(TokenV::Observe)
    }
    else if w == seq!['r', 'e', 'a', 's', 'o', 'n'] {
        Some(TokenV::Reason)
    }
 else {
        None
    }
}

fn keyword_exec1(s: &Vec<char>, a: usize, b: usize) -> (r: Option<Token>)
    requires
        a <= b <= s.len(),
    ensures
        match r {
            Some(t) => keyword_part1(s@.subrange(a as int, b as int)) == Some(token_view(t)),
            None => keyword_part1(s@.subrange(a as int, b as int)) is None,
        },
{
    let ghost w = s@.subrange(a as int, b as int);
    if eq_lit(s, a, b, &['s', 'o', 'u', 'l']) {
        assert(w == seq!['s', 'o', 'u', 'l']) by {
            assert(['s', 'o', 'u', 'l']@ =~= seq!['s', 'o', 'u', 'l']);
        }
        return Some(Token::Soul);
    }
    assert(w != seq!['s', 'o', 'u', 'l']) by {
        assert(['s', 'o', 'u', 'l']@ =~= seq!['s', 'o', 'u', 'l']);
    }
    if eq_lit(s, a, b, &['s', 'k', 'i', 'l', 'l']) {
        assert(w == seq!['s', 'k', 'i', 'l', 'l']) by {
            assert(['s', 'k', 'i', 'l', 'l']@ =~= seq!['s', 'k', 'i', 'l', 'l']);
        }
        return Some(Token::Skill);
    }
    assert(w != seq!['s', 'k', 'i', 'l', 'l']) by {
        assert(['s', 'k', 'i', 'l', 'l']@ =~= seq!['s', 'k', 'i', 'l', 'l']);
    }
    if eq_lit(s, a, b, &['i', 'n', 's', 't', 'r', 'u', 'c', 't', 'i', 'o', 'n']) {
        assert(w == seq!['i', 'n', 's', 't', 'r', 'u', 'c', 't', 'i', 'o', 'n']) by {
            assert(['i', 'n', 's', 't', 'r', 'u', 'c', 't', 'i', 'o', 'n']@ =~= seq!['i', 'n', 's', 't', 'r', 'u', 'c', 't', 'i', 'o', 'n']);
        }
        return Some(Token::Instruction);
    }
    assert(w != seq!['i', 'n', 's', 't', 'r', 'u', 'c', 't', 'i', 'o', 'n']) by {
        assert(['i', 'n', 's', 't', 'r', 'u', 'c', 't', 'i', 'o', 'n']@ =~= seq!['i', 'n', 's', 't', 'r', 'u', 'c', 't', 'i', 'o', 'n']);
    }
    if eq_lit(s, a, b, &['s', 'p', 'e', 'l', 'l']) {
        assert(w == seq!['s', 'p', 'e', 'l', 'l']) by {
            assert(['s', 'p', 'e', 'l', 'l']@ =~= seq!['s', 'p', 'e', 'l', 'l']);
        }
        return Some(Token::Spell);
    }
    assert(w != seq!['s', 'p', 'e', 'l', 'l']) by {
        assert(['s', 'p', 'e', 'l', 'l']@ =~= seq!['s', 'p', 'e', 'l', 'l']);
    }
    if eq_lit(s, a, b, &['m', 'e', 'm', 'o', 'r', 'y']) {
        assert(w == seq!['m', 'e', 'm', 'o', 'r', 'y']) by {
            assert(['m', 'e', 'm', 'o', 'r', 'y']@ =~= seq!['m', 'e', 'm', 'o', 'r', 'y']);
        }
        return Some(Token::Memory);
    }
    assert(w != seq!['m', 'e', 'm', 'o', 'r', 'y']) by {
        assert(['m', 'e', 'm', 'o', 'r', 'y']@ =~= seq!['m', 'e', 'm', 'o', 'r', 'y']);
    }
    if eq_lit(s, a, b, &['o', 'r', 'a', 'c', 'l', 'e']) {
        assert(w == seq!['o', 'r', 'a', 'c', 'l', 'e']) by {
            assert(['o', 'r', 'a', 'c', 'l', 'e']@ =~= seq!['o', 'r', 'a', 'c', 'l', 'e']);
        }
        return Some(Token::Oracle);
    }
    assert(w != seq!['o', 'r', 'a', 'c', 'l', 'e']) by {
        assert(['o', 'r', 'a', 'c', 'l', 'e']@ =~= seq!['o', 'r', 'a', 'c', 'l', 'e']);
    }
    if eq_lit(s, a, b, &['c', 'o', 'n', 's', 't', 'r', 'a', 'i', 'n', 't']) {
        assert(w == seq!['c', 'o', 'n', 's', 't', 'r', 'a', 'i', 'n', 't']) by {
            assert(['c', 'o', 'n', 's', 't', 'r', 'a', 'i', 'n', 't']@ =~= seq!['c', 'o', 'n', 's', 't', 'r', 'a', 'i', 'n', 't']);
        }
        return Some(Token::Constraint);
    }
    assert(w != seq!['c', 'o', 'n', 's', 't', 'r', 'a', 'i', 'n', 't']) by {
        assert(['c', 'o', 'n', 's', 't', 'r', 'a', 'i', 'n', 't']@ =~= seq!['c', 'o', 'n', 's', 't', 'r', 'a', 'i', 'n', 't']);
    }
    if eq_lit(s, a, b, &['l', 'o', 'r', 'e']) {
        assert(w == seq!['l', 'o', 'r', 'e']) by {
            assert(['l', 'o', 'r', 'e']@ =~= seq!['l', 'o', 'r', 'e']);
        }
        return Some(Token::Lore);
    }
    assert(w != seq!['l', 'o', 'r', 'e']) by {
        assert(['l', 'o', 'r', 'e']@ =~= seq!['l', 'o', 'r', 'e']);
    }
    if eq_lit(s, a, b, &['o', 'b', 's', 'e', 'r', 'v', 'e']) {
        assert(w == seq!['o', 'b', 's', 'e', 'r', 'v', 'e']) by {
            assert(['o', 'b', 's', 'e', 'r', 'v', 'e']@ =~= seq!['o', 'b', 's', 'e', 'r', 'v', 'e']);
        }
        return Some(Token::Observe);
    }
    assert(w != seq!['o', 'b', 's', 'e', 'r', 'v', 'e']) by {
        assert(['o', 'b', 's', 'e', 'r', 'v', 'e']@ =~= seq!['o', 'b', 's', 'e', 'r', 'v', 'e']);
    }
    if eq_lit(s, a, b, &['r', 'e', 'a', 's', 'o', 'n']) {
        assert(w == seq!['r', 'e', 'a', 's', 'o', 'n']) by {
            assert(['r', 'e', 'a', 's', 'o', 'n']@ =~= seq!['r', 'e', 'a', 's', 'o', 'n']);
        }
        return Some(Token::Reason);
    }
    assert(w != seq!['r', 'e', 'a', 's', 'o', 'n']) by {
        assert(['r', 'e', 'a', 's', 'o', 'n']@ =~= seq!['r', 'e', 'a', 's', 'o', 'n']);
    }
    None
}

spec fn keyword_part2(w: Seq<char>) -> Option<TokenV> {
    if w == seq!['a', 'c', 't'] {
        Some(TokenV::Act)
    }
    else if w == seq!['v', 'e', 'r', 'i', 'f', 'y'] {
        Some(TokenV::Verify)
    }
    else if w == seq!['i', 'n', 'f', 'e', 'r'] {
        Some(TokenV::Infer)
    }
    else if w == seq!['c', 't', 'x', '_', 'a', 'l', 'l', 'o', 'c'] {
        Some(TokenV::CtxAlloc)
    }
    else if w == seq!['c', 't', 'x', '_', 'f', 'r', 'e', 'e'] {
        Some(TokenV::CtxFree)
    }
    else if w == seq!['c', 't', 'x', '_', 'a', 'p', 'p', 'e', 'n', 'd'] {
        Some(TokenV::CtxAppend)
    }
    else if w == seq!['c', 't', 'x', '_', 'r', 'e', 's', 'i', 'z', 'e'] {
        Some(TokenV::CtxResize)
    }
    else if w == seq!['c', 't', 'x', '_', 'c', 'o', 'm', 'p', 'r', 'e', 's', 's'] {
        Some(TokenV::CtxCompress)
    }
    else if w == seq!['c', 't', 'x', '_', 's', 'h', 'a', 'r', 'e'] {
        Some(TokenV::CtxShare)
    }
    else if w == seq!['l', 'o', 'c', 'a', 'l', '_', 'm', 'o', 'd', 'e', 'l', '_', 'l', 'o', 'a', 'd'] {
        Some(TokenV::LocalModelLoad)
    }
 else {
        None
    }
}

fn keyword_exec2(s: &Vec<char>, a: usize, b: usize) -> (r: Option<Token>)
    requires
        a <= b <= s.len(),
    ensures
        match r {
            Some(t) => keyword_part2(s@.subrange(a as int, b as int)) == Some(token_view(t)),
            None => keyword_part2(s@.subrange(a as int, b as int)) is None,
        },
{
    let ghost w = s@.subrange(a as int, b as int);
    if eq_lit(s, a, b, &['a', 'c', 't']) {
        assert(w == seq!['a', 'c', 't']) by {
            assert(['a', 'c', 't']@ =~= seq!['a', 'c', 't']);
        }
        return Some(Token::Act);
    }
    assert(w != seq!['a', 'c', 't']) by {
        assert(['a', 'c', 't']@ =~= seq!['a', 'c', 't']);
    }
    if eq_lit(s, a, b, &['v', 'e', 'r', 'i', 'f', 'y']) {
        assert(w == seq!['v', 'e', 'r', 'i', 'f', 'y']) by {
            assert(['v', 'e', 'r', 'i', 'f', 'y']@ =~= seq!['v', 'e', 'r', 'i', 'f', 'y']);
        }
        return Some(Token::Verify);
    }
    assert(w != seq!['v', 'e', 'r', 'i', 'f', 'y']) by {
        assert(['v', 'e', 'r', 'i', 'f', 'y']@ =~= seq!['v', 'e', 'r', 'i', 'f', 'y']);
    }
    if eq_lit(s, a, b, &['i', 'n', 'f', 'e', 'r']) {
        assert(w == seq!['i', 'n', 'f', 'e', 'r']) by {
            assert(['i', 'n', 'f', 'e', 'r']@ =~= seq!['i', 'n', 'f', 'e', 'r']);
        }
        return Some(Token::Infer);
    }
    assert(w != seq!['i', 'n', 'f', 'e', 'r']) by {
        assert(['i', 'n', 'f', 'e', 'r']@ =~= seq!['i', 'n', 'f', 'e', 'r']);
    }
    if eq_lit(s, a, b, &['c', 't', 'x', '_', 'a', 'l', 'l', 'o', 'c']) {
        assert(w == seq!['c', 't', 'x', '_', 'a', 'l', 'l', 'o', 'c']) by {
            assert(['c', 't', 'x', '_', 'a', 'l', 'l', 'o', 'c']@ =~= seq!['c', 't', 'x', '_', 'a', 'l', 'l', 'o', 'c']);
        }
        return Some(Token::CtxAlloc);
    }
    assert(w != seq!['c', 't', 'x', '_', 'a', 'l', 'l', 'o', 'c']) by {
        assert(['c', 't', 'x', '_', 'a', 'l', 'l', 'o', 'c']@ =~= seq!['c', 't', 'x', '_', 'a', 'l', 'l', 'o', 'c']);
    }
    if eq_lit(s, a, b, &['c', 't', 'x', '_', 'f', 'r', 'e', 'e']) {
        assert(w == seq!['c', 't', 'x', '_', 'f', 'r', 'e', 'e']) by {
            assert(['c', 't', 'x', '_', 'f', 'r', 'e', 'e']@ =~= seq!['c', 't', 'x', '_', 'f', 'r', 'e', 'e']);
        }
        return Some(Token::CtxFree);
    }
    assert(w != seq!['c', 't', 'x', '_', 'f', 'r', 'e', 'e']) by {
        assert(['c', 't', 'x', '_', 'f', 'r', 'e', 'e']@ =~= seq!['c', 't', 'x', '_', 'f', 'r', 'e', 'e']);
    }
    if eq_lit(s, a, b, &['c', 't', 'x', '_', 'a', 'p', 'p', 'e', 'n', 'd']) {
        assert(w == seq!['c', 't', 'x', '_', 'a', 'p', 'p', 'e', 'n', 'd']) by {
            assert(['c', 't', 'x', '_', 'a', 'p', 'p', 'e', 'n', 'd']@ =~= seq!['c', 't', 'x', '_', 'a', 'p', 'p', 'e', 'n', 'd']);
        }
        return Some(Token::CtxAppend);
    }
    assert(w != seq!['c', 't', 'x', '_', 'a', 'p', 'p', 'e', 'n', 'd']) by {
        assert(['c', 't', 'x', '_', 'a', 'p', 'p', 'e', 'n', 'd']@ =~= seq!['c', 't', 'x', '_', 'a', 'p', 'p', 'e', 'n', 'd']);
    }
    if eq_lit(s, a, b, &['c', 't', 'x', '_', 'r', 'e', 's', 'i', 'z', 'e']) {
        assert(w == seq!['c', 't', 'x', '_', 'r', 'e', 's', 'i', 'z', 'e']) by {
            assert(['c', 't', 'x', '_', 'r', 'e', 's', 'i', 'z', 'e']@ =~= seq!['c', 't', 'x', '_', 'r', 'e', 's', 'i', 'z', 'e']);
        }
        return Some(Token::CtxResize);
    }
    assert(w != seq!['c', 't', 'x', '_', 'r', 'e', 's', 'i', 'z', 'e']) by {
        assert(['c', 't', 'x', '_', 'r', 'e', 's', 'i', 'z', 'e']@ =~= seq!['c', 't', 'x', '_', 'r', 'e', 's', 'i', 'z', 'e']);
    }
    if eq_lit(s, a, b, &['c', 't', 'x', '_', 'c', 'o', 'm', 'p', 'r', 'e', 's', 's']) {
        assert(w == seq!['c', 't', 'x', '_', 'c', 'o', 'm', 'p', 'r', 'e', 's', 's']) by {
            assert(['c', 't', 'x', '_', 'c', 'o', 'm', 'p', 'r', 'e', 's', 's']@ =~= seq!['c', 't', 'x', '_', 'c', 'o', 'm', 'p', 'r', 'e', 's', 's']);
        }
        return Some(Token::CtxCompress);
    }
    assert(w != seq!['c', 't', 'x', '_', 'c', 'o', 'm', 'p', 'r', 'e', 's', 's']) by {
        assert(['c', 't', 'x', '_', 'c', 'o', 'm', 'p', 'r', 'e', 's', 's']@ =~= seq!['c', 't', 'x', '_', 'c', 'o', 'm', 'p', 'r', 'e', 's', 's']);
    }
    if eq_lit(s, a, b, &['c', 't', 'x', '_', 's', 'h', 'a', 'r', 'e']) {
        assert(w == seq!['c', 't', 'x', '_', 's', 'h', 'a', 'r', 'e']) by {
            assert(['c', 't', 'x', '_', 's', 'h', 'a', 'r', 'e']@ =~= seq!['c', 't', 'x', '_', 's', 'h', 'a', 'r', 'e']);
        }
        return Some(Token::CtxShare);
    }
    assert(w != seq!['c', 't', 'x', '_', 's', 'h', 'a', 'r', 'e']) by {
        assert(['c', 't', 'x', '_', 's', 'h', 'a', 'r', 'e']@ =~= seq!['c', 't', 'x', '_', 's', 'h', 'a', 'r', 'e']);
    }
    if eq_lit(s, a, b, &['l', 'o', 'c', 'a', 'l', '_', 'm', 'o', 'd', 'e', 'l', '_', 'l', 'o', 'a', 'd']) {
        assert(w == seq!['l', 'o', 'c', 'a', 'l', '_', 'm', 'o', 'd', 'e', 'l', '_', 'l', 'o', 'a', 'd']) by {
            assert(['l', 'o', 'c', 'a', 'l', '_', 'm', 'o', 'd', 'e', 'l', '_', 'l', 'o', 'a', 'd']@ =~= seq!['l', 'o', 'c', 'a', 'l', '_', 'm', 'o', 'd', 'e', 'l', '_', 'l', 'o', 'a', 'd']);
        }
        return Some(Token::LocalModelLoad);
    }
    assert(w != seq!['l', 'o', 'c', 'a', 'l', '_', 'm', 'o', 'd', 'e', 'l', '_', 'l', 'o', 'a', 'd']) by {
        assert(['l', 'o', 'c', 'a', 'l', '_', 'm', 'o', 'd', 'e', 'l', '_', 'l', 'o', 'a', 'd']@ =~= seq!['l', 'o', 'c', 'a', 'l', '_', 'm', 'o', 'd', 'e', 'l', '_', 'l', 'o', 'a', 'd']);
    }
    None
}

spec fn keyword_part3(w: Seq<char>) -> Option<TokenV> {
    if w == seq!['l', 'o', 'c', 'a', 'l', '_', 'm', 'o', 'd', 'e', 'l', '_', 'i', 'n', 'f', 'e', 'r'] {
        Some(TokenV::LocalModelInfer)
    }
    else if w == seq!['l', 'o', 'c', 'a', 'l', '_', 'm', 'o', 'd', 'e', 'l', '_', 'u', 'n', 'l', 'o', 'a', 'd'] {
        Some(TokenV::LocalModelUnload)
    }
    else if w == seq!['l', 'o', 'c', 'a', 'l', '_', 'm', 'o', 'd', 'e', 'l', '_', 'l', 'i', 's', 't'] {
        Some(TokenV::LocalModelList)
    }
    else if w == seq!['p', 'r', 'i', 'n', 't', 'l', 'n'] {
        Some(TokenV::Println)
    }
    else if w == seq!['s', 'e', 'm', 'a', 'n', 't', 'i', 'c'] {
        Some(TokenV::Semantic)
    }
    else if w == seq!['i', 'n', 't', 'e', 'n', 't'] {
        Some(TokenV::Intent)
    }
    else if w == seq!['a', 's', 'k'] {
        Some(TokenV::Ask)
    }
    else if w == seq!['s', 't', 'r'] {
        Some(TokenV::StrType)
    }
    else if w == seq!['b', 'o', 'o', 'l'] {
        Some(TokenV::BoolType)
    }
    else if w == seq!['u', '3', '2'] {
        Some(TokenV::U32Type)
    }
 else {
        None
    }
}

fn keyword_exec3(s: &Vec<char>, a: usize, b: usize) -> (r: Option<Token>)
    requires
        a <= b <= s.len(),
    ensures
        match r {
            Some(t) => keyword_part3(s@.subrange(a as int, b as int)) == Some(token_view(t)),
            None => keyword_part3(s@.subrange(a as int, b as int)) is None,
        },
{
    let ghost w = s@.subrange(a as int, b as int);
    if eq_lit(s, a, b, &['l', 'o', 'c', 'a', 'l', '_', 'm', 'o', 'd', 'e', 'l', '_', 'i', 'n', 'f', 'e', 'r']) {
        assert(w == seq!['l', 'o', 'c', 'a', 'l', '_', 'm', 'o', 'd', 'e', 'l', '_', 'i', 'n', 'f', 'e', 'r']) by {
            assert(['l', 'o', 'c', 'a', 'l', '_', 'm', 'o', 'd', 'e', 'l', '_', 'i', 'n', 'f', 'e', 'r']@ =~= seq!['l', 'o', 'c', 'a', 'l', '_', 'm', 'o', 'd', 'e', 'l', '_', 'i', 'n', 'f', 'e', 'r']);
        }
        return Some(Token::LocalModelInfer);
    }
    assert(w != seq!['l', 'o', 'c', 'a', 'l', '_', 'm', 'o', 'd', 'e', 'l', '_', 'i', 'n', 'f', 'e', 'r']) by {
        assert(['l', 'o', 'c', 'a', 'l', '_', 'm', 'o', 'd', 'e', 'l', '_', 'i', 'n', 'f', 'e', 'r']@ =~= seq!['l', 'o', 'c', 'a', 'l', '_', 'm', 'o', 'd', 'e', 'l', '_', 'i', 'n', 'f', 'e', 'r']);
    }
    if eq_lit(s, a, b, &['l', 'o', 'c', 'a', 'l', '_', 'm', 'o', 'd', 'e', 'l', '_', 'u', 'n', 'l', 'o', 'a', 'd']) {
        assert(w == seq!['l', 'o', 'c', 'a', 'l', '_', 'm', 'o', 'd', 'e', 'l', '_', 'u', 'n', 'l', 'o', 'a', 'd']) by {
            assert(['l', 'o', 'c', 'a', 'l', '_', 'm', 'o', 'd', 'e', 'l', '_', 'u', 'n', 'l', 'o', 'a', 'd']@ =~= seq!['l', 'o', 'c', 'a', 'l', '_', 'm', 'o', 'd', 'e', 'l', '_', 'u', 'n', 'l', 'o', 'a', 'd']);
        }
        return Some(Token::LocalModelUnload);
    }
    assert(w != seq!['l', 'o', 'c', 'a', 'l', '_', 'm', 'o', 'd', 'e', 'l', '_', 'u', 'n', 'l', 'o', 'a', 'd']) by {
        assert(['l', 'o', 'c', 'a', 'l', '_', 'm', 'o', 'd', 'e', 'l', '_', 'u', 'n', 'l', 'o', 'a', 'd']@ =~= seq!['l', 'o', 'c', 'a', 'l', '_', 'm', 'o', 'd', 'e', 'l', '_', 'u', 'n', 'l', 'o', 'a', 'd']);
    }
    if eq_lit(s, a, b, &['l', 'o', 'c', 'a', 'l', '_', 'm', 'o', 'd', 'e', 'l', '_', 'l', 'i', 's', 't']) {
        assert(w == seq!['l', 'o', 'c', 'a', 'l', '_', 'm', 'o', 'd', 'e', 'l', '_', 'l', 'i', 's', 't']) by {
            assert(['l', 'o', 'c', 'a', 'l', '_', 'm', 'o', 'd', 'e', 'l', '_', 'l', 'i', 's', 't']@ =~= seq!['l', 'o', 'c', 'a', 'l', '_', 'm', 'o', 'd', 'e', 'l', '_', 'l', 'i', 's', 't']);
        }
        return Some(Token::LocalModelList);
    }
    assert(w != seq!['l', 'o', 'c', 'a', 'l', '_', 'm', 'o', 'd', 'e', 'l', '_', 'l', 'i', 's', 't']) by {
        assert(['l', 'o', 'c', 'a', 'l', '_', 'm', 'o', 'd', 'e', 'l', '_', 'l', 'i', 's', 't']@ =~= seq!['l', 'o', 'c', 'a', 'l', '_', 'm', 'o', 'd', 'e', 'l', '_', 'l', 'i', 's', 't']);
    }
    if eq_lit(s, a, b, &['p', 'r', 'i', 'n', 't', 'l', 'n']) {
        assert(w == seq!['p', 'r', 'i', 'n', 't', 'l', 'n']) by {
            assert(['p', 'r', 'i', 'n', 't', 'l', 'n']@ =~= seq!['p', 'r', 'i', 'n', 't', 'l', 'n']);
        }
        return Some(Token::Println);
    }
    assert(w != seq!['p', 'r', 'i', 'n', 't', 'l', 'n']) by {
        assert(['p', 'r', 'i', 'n', 't', 'l', 'n']@ =~= seq!['p', 'r', 'i', 'n', 't', 'l', 'n']);
    }
    if eq_lit(s, a, b, &['s', 'e', 'm', 'a', 'n', 't', 'i', 'c']) {
        assert(w == seq!['s', 'e', 'm', 'a', 'n', 't', 'i', 'c']) by {
            assert(['s', 'e', 'm', 'a', 'n', 't', 'i', 'c']@ =~= seq!['s', 'e', 'm', 'a', 'n', 't', 'i', 'c']);
        }
        return Some(Token::Semantic);
    }
    assert(w != seq!['s', 'e', 'm', 'a', 'n', 't', 'i', 'c']) by {
        assert(['s', 'e', 'm', 'a', 'n', 't', 'i', 'c']@ =~= seq!['s', 'e', 'm', 'a', 'n', 't', 'i', 'c']);
    }
    if eq_lit(s, a, b, &['i', 'n', 't', 'e', 'n', 't']) {
        assert(w == seq!['i', 'n', 't', 'e', 'n', 't']) by {
            assert(['i', 'n', 't', 'e', 'n', 't']@ =~= seq!['i', 'n', 't', 'e', 'n', 't']);
        }
        return Some(Token::Intent);
    }
    assert(w != seq!['i', 'n', 't', 'e', 'n', 't']) by {
        assert(['i', 'n', 't', 'e', 'n', 't']@ =~= seq!['i', 'n', 't', 'e', 'n', 't']);
    }
    if eq_lit(s, a, b, &['a', 's', 'k']) {
        assert(w == seq!['a', 's', 'k']) by {
            assert(['a', 's', 'k']@ =~= seq!['a', 's', 'k']);
        }
        return Some(Token::Ask);
    }
    assert(w != seq!['a', 's', 'k']) by {
        assert(['a', 's', 'k']@ =~= seq!['a', 's', 'k']);
    }
    if eq_lit(s, a, b, &['s', 't', 'r']) {
        assert(w == seq!['s', 't', 'r']) by {
            assert(['s', 't', 'r']@ =~= seq!['s', 't', 'r']);
        }
        return Some(Token::StrType);
    }
    assert(w != seq!['s', 't', 'r']) by {
        assert(['s', 't', 'r']@ =~= seq!['s', 't', 'r']);
    }
    if eq_lit(s, a, b, &['b', 'o', 'o', 'l']) {
        assert(w == seq!['b', 'o', 'o', 'l']) by {
            assert(['b', 'o', 'o', 'l']@ =~= seq!['b', 'o', 'o', 'l']);
        }
        return Some(Token::BoolType);
    }
    assert(w != seq!['b', 'o', 'o', 'l']) by {
        assert(['b', 'o', 'o', 'l']@ =~= seq!['b', 'o', 'o', 'l']);
    }
    if eq_lit(s, a, b, &['u', '3', '2']) {
        assert(w == seq!['u', '3', '2']) by {
            assert(['u', '3', '2']@ =~= seq!['u', '3', '2']);
        }
        return Some(Token::U32Type);
    }
    assert(w != seq!['u', '3', '2']) by {
        assert(['u', '3', '2']@ =~= seq!['u', '3', '2']);
    }
    None
}

spec fn keyword_part4(w: Seq<char>) -> Option<TokenV> {
    if w == seq!['f', '3', '2'] {
        Some(TokenV::F32Type)
    }
    else if w == seq!['i', 'n', 't', 'e', 'r', 'r', 'u', 'p', 't', 'i', 'b', 'l', 'e'] {
        Some(TokenV::Interruptible)
    }
    else if w == seq!['a', 'p', 'p', 'l', 'y'] {
        Some(TokenV::Apply)
    }
    else if w == seq!['i', 'f'] {
        Some(TokenV::If)
    }
    else if w == seq!['e', 'l', 's', 'e'] {
        Some(TokenV::Else)
    }
    else if w == seq!['l', 'o', 'o', 'p'] {
        Some(TokenV::Loop)
    }
    else if w == seq!['w', 'h', 'i', 'l', 'e'] {
        Some(TokenV::While)
    }
    else if w == seq!['f', 'o', 'r'] {
        Some(TokenV::For)
    }
    else if w == seq!['i', 'n'] {
        Some(TokenV::In)
    }
    else if w == seq!['m', 'u', 't'] {
        Some(TokenV::Mut)
    }
 else {
        None
    }
}

fn keyword_exec4(s: &Vec<char>, a: usize, b: usize) -> (r: Option<Token>)
    requires
        a <= b <= s.len(),
    ensures
        match r {
            Some(t) => keyword_part4(s@.subrange(a as int, b as int)) == Some(token_view(t)),
            None => keyword_part4(s@.subrange(a as int, b as int)) is None,
        },
{
    let ghost w = s@.subrange(a as int, b as int);
    if eq_lit(s, a, b, &['f', '3', '2']) {
        assert(w == seq!['f', '3', '2']) by {
            assert(['f', '3', '2']@ =~= seq!['f', '3', '2']);
        }
        return Some(Token::F32Type);
    }
    assert(w != seq!['f', '3', '2']) by {
        assert(['f', '3', '2']@ =~= seq!['f', '3', '2']);
    }
    if eq_lit(s, a, b, &['i', 'n', 't', 'e', 'r', 'r', 'u', 'p', 't', 'i', 'b', 'l', 'e']) {
        assert(w == seq!['i', 'n', 't', 'e', 'r', 'r', 'u', 'p', 't', 'i', 'b', 'l', 'e']) by {
            assert(['i', 'n', 't', 'e', 'r', 'r', 'u', 'p', 't', 'i', 'b', 'l', 'e']@ =~= seq!['i', 'n', 't', 'e', 'r', 'r', 'u', 'p', 't', 'i', 'b', 'l', 'e']);
        }
        return Some(Token::Interruptible);
    }
    assert(w != seq!['i', 'n', 't', 'e', 'r', 'r', 'u', 'p', 't', 'i', 'b', 'l', 'e']) by {
        assert(['i', 'n', 't', 'e', 'r', 'r', 'u', 'p', 't', 'i', 'b', 'l', 'e']@ =~= seq!['i', 'n', 't', 'e', 'r', 'r', 'u', 'p', 't', 'i', 'b', 'l', 'e']);
    }
    if eq_lit(s, a, b, &['a', 'p', 'p', 'l', 'y']) {
        assert(w == seq!['a', 'p', 'p', 'l', 'y']) by {
            assert(['a', 'p', 'p', 'l', 'y']@ =~= seq!['a', 'p', 'p', 'l', 'y']);
        }
        return Some(Token::Apply);
    }
    assert(w != seq!['a', 'p', 'p', 'l', 'y']) by {
        assert(['a', 'p', 'p', 'l', 'y']@ =~= seq!['a', 'p', 'p', 'l', 'y']);
    }
    if eq_lit(s, a, b, &['i', 'f']) {
        assert(w == seq!['i', 'f']) by {
            assert(['i', 'f']@ =~= seq!['i', 'f']);
        }
        return Some(Token::If);
    }
    assert(w != seq!['i', 'f']) by {
        assert(['i', 'f']@ =~= seq!['i', 'f']);
    }
    if eq_lit(s, a, b, &['e', 'l', 's', 'e']) {
        assert(w == seq!['e', 'l', 's', 'e']) by {
            assert(['e', 'l', 's', 'e']@ =~= seq!['e', 'l', 's', 'e']);
        }
        return Some(Token::Else);
    }
    assert(w != seq!['e', 'l', 's', 'e']) by {
        assert(['e', 'l', 's', 'e']@ =~= seq!['e', 'l', 's', 'e']);
    }
    if eq_lit(s, a, b, &['l', 'o', 'o', 'p']) {
        assert(w == seq!['l', 'o', 'o', 'p']) by {
            assert(['l', 'o', 'o', 'p']@ =~= seq!['l', 'o', 'o', 'p']);
        }
        return Some(Token::Loop);
    }
    assert(w != seq!['l', 'o', 'o', 'p']) by {
        assert(['l', 'o', 'o', 'p']@ =~= seq!['l', 'o', 'o', 'p']);
    }
    if eq_lit(s, a, b, &['w', 'h', 'i', 'l', 'e']) {
        assert(w == seq!['w', 'h', 'i', 'l', 'e']) by {
            assert(['w', 'h', 'i', 'l', 'e']@ =~= seq!['w', 'h', 'i', 'l', 'e']);
        }
        return Some(Token::While);
    }
    assert(w != seq!['w', 'h', 'i', 'l', 'e']) by {
        assert(['w', 'h', 'i', 'l', 'e']@ =~= seq!['w', 'h', 'i', 'l', 'e']);
    }
    if eq_lit(s, a, b, &['f', 'o', 'r']) {
        assert(w == seq!['f', 'o', 'r']) by {
            assert(['f', 'o', 'r']@ =~= seq!['f', 'o', 'r']);
        }
        return Some(Token::For);
    }
    assert(w != seq!['f', 'o', 'r']) by {
        assert(['f', 'o', 'r']@ =~= seq!['f', 'o', 'r']);
    }
    if eq_lit(s, a, b, &['i', 'n']) {
        assert(w == seq!['i', 'n']) by {
            assert(['i', 'n']@ =~= seq!['i', 'n']);
        }
        return Some(Token::In);
    }
    assert(w != seq!['i', 'n']) by {
        assert(['i', 'n']@ =~= seq!['i', 'n']);
    }
    if eq_lit(s, a, b, &['m', 'u', 't']) {
        assert(w == seq!['m', 'u', 't']) by {
            assert(['m', 'u', 't']@ =~= seq!['m', 'u', 't']);
        }
        return Some(Token::Mut);
    }
    assert(w != seq!['m', 'u', 't']) by {
        assert(['m', 'u', 't']@ =~= seq!['m', 'u', 't']);
    }
    None
}

spec fn keyword_part5(w: Seq<char>) -> Option<TokenV> {
    if w == seq!['b', 'r', 'e', 'a', 'k'] {
        Some(TokenV::Break)
    }
    else if w == seq!['c', 'o', 'n', 't', 'i', 'n', 'u', 'e'] {
        Some(TokenV::Continue)
    }
    else if w == seq!['s', 't', 'r', 'u', 'c', 't'] {
        Some(TokenV::Struct)
    }
    else if w == seq!['e', 'n', 'u', 'm'] {
        Some(TokenV::Enum)
    }
    else if w == seq!['c', 'o', 'n', 's', 't'] {
        Some(TokenV::Const)
    }
    else if w == seq!['m', 'e', 'm', 'o', 'r', 'y', '_', 'l', 'o', 'a', 'd'] {
        Some(TokenV::MemoryLoad)
    }
    else if w == seq!['m', 'e', 'm', 'o', 'r', 'y', '_', 's', 'a', 'v', 'e'] {
        Some(TokenV::MemorySave)
    }
    else if w == seq!['m', 'e', 'm', 'o', 'r', 'y', '_', 'd', 'e', 'l', 'e', 't', 'e'] {
        Some(TokenV::MemoryDelete)
    }
 else {
        None
    }
}

fn keyword_exec5(s: &Vec<char>, a: usize, b: usize) -> (r: Option<Token>)
    requires
        a <= b <= s.len(),
    ensures
        match r {
            Some(t) => keyword_part5(s@.subrange(a as int, b as int)) == Some(token_view(t)),
            None => keyword_part5(s@.subrange(a as int, b as int)) is None,
        },
{
    let ghost w = s@.subrange(a as int, b as int);
    if eq_lit(s, a, b, &['b', 'r', 'e', 'a', 'k']) {
        assert(w == seq!['b', 'r', 'e', 'a', 'k']) by {
            assert(['b', 'r', 'e', 'a', 'k']@ =~= seq!['b', 'r', 'e', 'a', 'k']);
        }
        return Some(Token::Break);
    }
    assert(w != seq!['b', 'r', 'e', 'a', 'k']) by {
        assert(['b', 'r', 'e', 'a', 'k']@ =~= seq!['b', 'r', 'e', 'a', 'k']);
    }
    if eq_lit(s, a, b, &['c', 'o', 'n', 't', 'i', 'n', 'u', 'e']) {
        assert(w == seq!['c', 'o', 'n', 't', 'i', 'n', 'u', 'e']) by {
            assert(['c', 'o', 'n', 't', 'i', 'n', 'u', 'e']@ =~= seq!['c', 'o', 'n', 't', 'i', 'n', 'u', 'e']);
        }
        return Some(Token::Continue);
    }
    assert(w != seq!['c', 'o', 'n', 't', 'i', 'n', 'u', 'e']) by {
        assert(['c', 'o', 'n', 't', 'i', 'n', 'u', 'e']@ =~= seq!['c', 'o', 'n', 't', 'i', 'n', 'u', 'e']);
    }
    if eq_lit(s, a, b, &['s', 't', 'r', 'u', 'c', 't']) {
        assert(w == seq!['s', 't', 'r', 'u', 'c', 't']) by {
            assert(['s', 't', 'r', 'u', 'c', 't']@ =~= seq!['s', 't', 'r', 'u', 'c', 't']);
        }
        return Some(Token::Struct);
    }
    assert(w != seq!['s', 't', 'r', 'u', 'c', 't']) by {
        assert(['s', 't', 'r', 'u', 'c', 't']@ =~= seq!['s', 't', 'r', 'u', 'c', 't']);
    }
    if eq_lit(s, a, b, &['e', 'n', 'u', 'm']) {
        assert(w == seq!['e', 'n', 'u', 'm']) by {
            assert(['e', 'n', 'u', 'm']@ =~= seq!['e', 'n', 'u', 'm']);
        }
        return Some(Token::Enum);
    }
    assert(w != seq!['e', 'n', 'u', 'm']) by {
        assert(['e', 'n', 'u', 'm']@ =~= seq!['e', 'n', 'u', 'm']);
    }
    if eq_lit(s, a, b, &['c', 'o', 'n', 's', 't']) {
        assert(w == seq!['c', 'o', 'n', 's', 't']) by {
            assert(['c', 'o', 'n', 's', 't']@ =~= seq!['c', 'o', 'n', 's', 't']);
        }
        return Some(Token::Const);
    }
    assert(w != seq!['c', 'o', 'n', 's', 't']) by {
        assert(['c', 'o', 'n', 's', 't']@ =~= seq!['c', 'o', 'n', 's', 't']);
    }
    if eq_lit(s, a, b, &['m', 'e', 'm', 'o', 'r', 'y', '_', 'l', 'o', 'a', 'd']) {
        assert(w == seq!['m', 'e', 'm', 'o', 'r', 'y', '_', 'l', 'o', 'a', 'd']) by {
            assert(['m', 'e', 'm', 'o', 'r', 'y', '_', 'l', 'o', 'a', 'd']@ =~= seq!['m', 'e', 'm', 'o', 'r', 'y', '_', 'l', 'o', 'a', 'd']);
        }
        return Some(Token::MemoryLoad);
    }
    assert(w != seq!['m', 'e', 'm', 'o', 'r', 'y', '_', 'l', 'o', 'a', 'd']) by {
        assert(['m', 'e', 'm', 'o', 'r', 'y', '_', 'l', 'o', 'a', 'd']@ =~= seq!['m', 'e', 'm', 'o', 'r', 'y', '_', 'l', 'o', 'a', 'd']);
    }
    if eq_lit(s, a, b, &['m', 'e', 'm', 'o', 'r', 'y', '_', 's', 'a', 'v', 'e']) {
        assert(w == seq!['m', 'e', 'm', 'o', 'r', 'y', '_', 's', 'a', 'v', 'e']) by {
            assert(['m', 'e', 'm', 'o', 'r', 'y', '_', 's', 'a', 'v', 'e']@ =~= seq!['m', 'e', 'm', 'o', 'r', 'y', '_', 's', 'a', 'v', 'e']);
        }
        return Some(Token::MemorySave);
    }
    assert(w != seq!['m', 'e', 'm', 'o', 'r', 'y', '_', 's', 'a', 'v', 'e']) by {
        assert(['m', 'e', 'm', 'o', 'r', 'y', '_', 's', 'a', 'v', 'e']@ =~= seq!['m', 'e', 'm', 'o', 'r', 'y', '_', 's', 'a', 'v', 'e']);
    }
    if eq_lit(s, a, b, &['m', 'e', 'm', 'o', 'r', 'y', '_', 'd', 'e', 'l', 'e', 't', 'e']) {
        assert(w == seq!['m', 'e', 'm', 'o', 'r', 'y', '_', 'd', 'e', 'l', 'e', 't', 'e']) by {
            assert(['m', 'e', 'm', 'o', 'r', 'y', '_', 'd', 'e', 'l', 'e', 't', 'e']@ =~= seq!['m', 'e', 'm', 'o', 'r', 'y', '_', 'd', 'e', 'l', 'e', 't', 'e']);
        }
        return Some(Token::MemoryDelete);
    }
    assert(w != seq!['m', 'e', 'm', 'o', 'r', 'y', '_', 'd', 'e', 'l', 'e', 't', 'e']) by {
        assert(['m', 'e', 'm', 'o', 'r', 'y', '_', 'd', 'e', 'l', 'e', 't', 'e']@ =~= seq!['m', 'e', 'm', 'o', 'r', 'y', '_', 'd', 'e', 'l', 'e', 't', 'e']);
    }
    None
}

proof fn lemma_keyword_parts(w: Seq<char>)
    ensures
        keyword_of(w) == (
            if keyword_part0(w) is Some { keyword_part0(w) } else { if keyword_part1(w) is Some { keyword_part1(w) } else { if keyword_part2(w) is Some { keyword_part2(w) } else { if keyword_part3(w) is Some { keyword_part3(w) } else { if keyword_part4(w) is Some { keyword_part4(w) } else { keyword_part5(w) } } } } }
        ),
{
}

/// The keyword token spelled by `s[a..b]`, if it is one.
fn keyword_token(s: &Vec<char>, a: usize, b: usize) -> (r: Option<Token>)
    requires
        a <= b <= s.len(),
    ensures
        match r {
            Some(t) => keyword_of(s@.subrange(a as int, b as int)) == Some(token_view(t)),
            None => keyword_of(s@.subrange(a as int, b as int)) is None,
        },
{
    proof { lemma_keyword_parts(s@.subrange(a as int, b as int)); }
    if let Some(t) = keyword_exec0(s, a, b) {
        return Some(t);
    }
    if let Some(t) = keyword_exec1(s, a, b) {
        return Some(t);
    }
    if let Some(t) = keyword_exec2(s, a, b) {
        return Some(t);
    }
    if let Some(t) = keyword_exec3(s, a, b) {
        return Some(t);
    }
    if let Some(t) = keyword_exec4(s, a, b) {
        return Some(t);
    }
    if let Some(t) = keyword_exec5(s, a, b) {
        return Some(t);
    }
    None
}

// ── Character classes ────────────────────────────────────────────────────────

pub open spec fn is_blank(c: char) -> bool {
    c == ' ' || c == '\t' || c == '\n' || c == '\r'
}

pub open spec fn is_digit(c: char) -> bool {
    48 <= (c as u32) <= 57
}

pub open spec fn is_ident_start(c: char) -> bool {
    (97 <= (c as u32) <= 122) || (65 <= (c as u32) <= 90) || c == '_'
}

pub open spec fn is_ident_char(c: char) -> bool {
    is_ident_start(c) || is_digit(c)
}

fn blank(c: char) -> (r: bool)
    ensures
        r == is_blank(c),
{
    c == ' ' || c == '\t' || c == '\n' || c == '\r'
}

fn digit(c: char) -> (r: bool)
    ensures
        r == is_digit(c),
{
    let u = c as u32;
    48 <= u && u <= 57
}

fn ident_start(c: char) -> (r: bool)
    ensures
        r == is_ident_start(c),
{
    let u = c as u32;
    (97 <= u && u <= 122) || (65 <= u && u <= 90) || c == '_'
}

fn ident_char(c: char) -> (r: bool)
    ensures
        r == is_ident_char(c),
{
    ident_start(c) || digit(c)
}

// ── Runs ─────────────────────────────────────────────────────────────────────

/// End of the run of blanks starting at `i`.
pub open spec fn blank_end(s: Seq<char>, i: int) -> int
    decreases s.len() - i,
{
    if 0 <= i < s.len() && is_blank(s[i]) {
        blank_end(s, i + 1)
    } else {
        i
    }
}

/// End of the run of identifier characters starting at `i`.
pub open spec fn ident_end(s: Seq<char>, i: int) -> int
    decreases s.len() - i,
{
    if 0 <= i < s.len() && is_ident_char(s[i]) {
        ident_end(s, i + 1)
    } else {
        i
    }
}

/// End of the run of digits starting at `i`.
pub open spec fn digit_end(s: Seq<char>, i: int) -> int
    decreases s.len() - i,
{
    if 0 <= i < s.len() && is_digit(s[i]) {
        digit_end(s, i + 1)
    } else {
        i
    }
}

/// End of the line that contains `i` (the index of its `\n`, or the end).
pub open spec fn line_end(s: Seq<char>, i: int) -> int
    decreases s.len() - i,
{
    if 0 <= i < s.len() && s[i] != '\n' {
        line_end(s, i + 1)
    } else {
        i
    }
}

/// Index of the quote that closes a string literal whose body starts at `i`:
/// any character but `"` and `\`, or `\` followed by any character but a newline.
pub open spec fn string_end(s: Seq<char>, i: int) -> Option<int>
    decreases s.len() - i,
{
    if i < 0 || i >= s.len() {
        None
    } else if s[i] == '"' {
        Some(i)
    } else if s[i] == '\\' {
        if i + 1 < s.len() && s[i + 1] != '\n' {
            string_end(s, i + 2)
        } else {
            None
        }
    } else {
        string_end(s, i + 1)
    }
}

/// The value of a run of decimal digits.
pub open spec fn digits_value(d: Seq<char>) -> nat
    decreases d.len(),
{
    if d.len() == 0 {
        0
    } else {
        digits_value(d.drop_last()) * 10 + ((d.last() as u32) - 48) as nat
    }
}

/// The symbol token at `i`, with its length.
pub open spec fn symbol_at(s: Seq<char>, i: int) -> Option<(int, TokenV)> {
    let c = s[i];
    let next = if i + 1 < s.len() { Some(s[i + 1]) } else { None };
    if c == '{' { Some((1, TokenV::LBrace)) }
    else if c == '}' { Some((1, TokenV::RBrace)) }
    else if c == '(' { Some((1, TokenV::LParen)) }
    else if c == ')' { Some((1, TokenV::RParen)) }
    else if c == '[' { Some((1, TokenV::LBracket)) }
    else if c == ']' { Some((1, TokenV::RBracket)) }
    else if c == ';' { Some((1, TokenV::Semi)) }
    else if c == ':' { Some((1, TokenV::Colon)) }
    else if c == ',' { Some((1, TokenV::Comma)) }
    else if c == '.' { Some((1, TokenV::Dot)) }
    else if c == '+' { Some((1, TokenV::Plus)) }
    else if c == '*' { Some((1, TokenV::Star)) }
    else if c == '%' { Some((1, TokenV::Percent)) }
    else if c == '>' { Some((1, TokenV::Gt)) }
    else if c == '<' { Some((1, TokenV::Lt)) }
    else if c == '/' { Some((1, TokenV::Slash)) }
    else if c == '=' {
        if next == Some('>') { Some((2, TokenV::FatArrow)) }
        else if next == Some('=') { Some((2, TokenV::Eq)) }
        else { Some((1, TokenV::Assign)) }
    } else if c == '-' {
        if next == Some('>') { Some((2, TokenV::Arrow)) } else { Some((1, TokenV::Minus)) }
    } else if c == '!' {
        if next == Some('=') { Some((2, TokenV::NotEq)) } else { Some((1, TokenV::Bang)) }
    } else if c == '&' {
        if next == Some('&') { Some((2, TokenV::And)) } else { None }
    } else if c == '|' {
        if next == Some('|') { Some((2, TokenV::Or)) } else { None }
    } else {
        None
    }
}

/// The lexeme at `i`: its length, and the token it yields (`None` for
/// blanks and comments). `None` when no lexeme starts at `i`.
pub open spec fn scan_at(s: Seq<char>, i: int) -> Option<(int, Option<TokenV>)> {
    let c = s[i];
    if is_blank(c) {
        Some((blank_end(s, i) - i, None))
    } else if c == '/' && i + 1 < s.len() && s[i + 1] == '/' {
        Some((line_end(s, i) - i, None))
    } else if is_ident_start(c) {
        let e = ident_end(s, i + 1);
        let w = s.subrange(i, e);
        Some((
            e - i,
            Some(
                match keyword_of(w) {
                    Some(k) => k,
                    None => TokenV::Ident(w),
                },
            ),
        ))
    } else if is_digit(c) {
        let e = digit_end(s, i);
        if e + 1 < s.len() && s[e] == '.' && is_digit(s[e + 1]) {
            let f = digit_end(s, e + 1);
            Some((f - i, Some(TokenV::FloatLit(s.subrange(i, f)))))
        } else {
            let v = digits_value(s.subrange(i, e));
            if v <= u64::MAX {
                Some((e - i, Some(TokenV::IntLit(v as u64))))
            } else {
                None
            }
        }
    } else if c == '"' {
        match string_end(s, i + 1) {
            Some(j) => Some((j + 1 - i, Some(TokenV::StringLit(s.subrange(i, j + 1))))),
            None => None,
        }
    } else {
        match symbol_at(s, i) {
            Some((n, t)) => Some((n, Some(t))),
            None => None,
        }
    }
}

/// The tokens of `s[i..]`, or `None` when some part of it is no lexeme.
pub open spec fn lex_from(s: Seq<char>, i: int) -> Option<Seq<TokenV>>
    decreases s.len() - i,
{
    if i < 0 || i >= s.len() {
        Some(Seq::empty())
    } else {
        match scan_at(s, i) {
            None => None,
            Some((n, t)) => if n <= 0 || i + n > s.len() {
                None
            } else {
                match lex_from(s, i + n) {
                    None => None,
                    Some(rest) => Some(
                        match t {
                            Some(t) => seq![t] + rest,
                            None => rest,
                        },
                    ),
                }
            },
        }
    }
}

/// String literal tokens are at least two characters long and begin and end
/// with a one-byte character (the lexer makes them begin and end with `"`).
pub open spec fn string_tokens_ok(t: Seq<TokenV>) -> bool {
    forall|i: int|
        0 <= i < t.len() ==> match #[trigger] t[i] {
            TokenV::StringLit(s) => s.len() >= 2 && (s[0] as u32) < 128 && (s[s.len() - 1] as u32) < 128,
            _ => true,
        }
}

proof fn lemma_string_end(s: Seq<char>, i: int)
    requires
        string_end(s, i) is Some,
    ensures
        0 <= i <= string_end(s, i)->0 < s.len(),
        s[string_end(s, i)->0] == '"',
    decreases s.len() - i,
{
    if s[i] == '"' {
    } else if s[i] == '\\' {
        lemma_string_end(s, i + 2);
    } else {
        lemma_string_end(s, i + 1);
    }
}

/// Every string literal token that the lexer yields is quoted.
pub proof fn lemma_lex_strings_ok(s: Seq<char>, i: int)
    requires
        lex_from(s, i) is Some,
    ensures
        string_tokens_ok(lex_from(s, i)->0),
    decreases s.len() - i,
{
    if 0 <= i < s.len() {
        let (n, t) = scan_at(s, i)->0;
        lemma_lex_strings_ok(s, i + n);
        let rest = lex_from(s, i + n)->0;
        if let Some(tk) = t {
            if let TokenV::StringLit(x) = tk {
                assert(s[i] == '"') by {
                    if is_blank(s[i]) {
                    } else if s[i] == '/' && i + 1 < s.len() && s[i + 1] == '/' {
                    } else if is_ident_start(s[i]) {
                        let e = ident_end(s, i + 1);
                        let w = s.subrange(i, e);
                        assert(keyword_of(w) is Some ==> !(keyword_of(w)->0 is StringLit));
                    } else if is_digit(s[i]) {
                    } else if s[i] != '"' {
                        assert(symbol_at(s, i) is Some ==> !((symbol_at(s, i)->0).1 is StringLit));
                    }
                }
                lemma_string_end(s, i + 1);
            }
            let all = seq![tk] + rest;
            assert forall|j: int| 0 <= j < all.len() implies match #[trigger] all[j] {
                TokenV::StringLit(x) => x.len() >= 2 && (x[0] as u32) < 128 && (x[x.len() - 1] as u32) < 128,
                _ => true,
            } by {
                if j > 0 {
                    assert(all[j] == rest[j - 1]);
                }
            }
        }
    }
}

/// Where lexing from `i` on fails: the first position, reached lexeme by
/// lexeme, at which no lexeme starts.
pub open spec fn lex_fail_from(s: Seq<char>, i: int) -> int
    decreases s.len() - i,
{
    if i < 0 || i >= s.len() {
        i
    } else {
        match scan_at(s, i) {
            None => i,
            Some((n, _)) => if n <= 0 || i + n > s.len() {
                i
            } else {
                lex_fail_from(s, i + n)
            },
        }
    }
}

/// The tokens of a whole source text.
pub open spec fn lex_spec(s: Seq<char>) -> Option<Seq<TokenV>> {
    lex_from(s, 0)
}

// ── Exec scanning ────────────────────────────────────────────────────────────

fn run_blank(s: &Vec<char>, i: usize) -> (e: usize)
    requires
        i <= s.len(),
    ensures
        e == blank_end(s@, i as int),
        i <= e <= s.len(),
{
    let mut j = i;
    while j < s.len() && blank(s[j])
        invariant
            i <= j <= s.len(),
            blank_end(s@, i as int) == blank_end(s@, j as int),
        decreases s.len() - j,
    {
        j = j + 1;
    }
    j
}

fn run_ident(s: &Vec<char>, i: usize) -> (e: usize)
    requires
        i <= s.len(),
    ensures
        e == ident_end(s@, i as int),
        i <= e <= s.len(),
{
    let mut j = i;
    while j < s.len() && ident_char(s[j])
        invariant
            i <= j <= s.len(),
            ident_end(s@, i as int) == ident_end(s@, j as int),
        decreases s.len() - j,
    {
        j = j + 1;
    }
    j
}

fn run_digit(s: &Vec<char>, i: usize) -> (e: usize)
    requires
        i <= s.len(),
    ensures
        e == digit_end(s@, i as int),
        i <= e <= s.len(),
{
    let mut j = i;
    while j < s.len() && digit(s[j])
        invariant
            i <= j <= s.len(),
            digit_end(s@, i as int) == digit_end(s@, j as int),
        decreases s.len() - j,
    {
        j = j + 1;
    }
    j
}

fn run_line(s: &Vec<char>, i: usize) -> (e: usize)
    requires
        i <= s.len(),
    ensures
        e == line_end(s@, i as int),
        i <= e <= s.len(),
{
    let mut j = i;
    while j < s.len() && s[j] != '\n'
        invariant
            i <= j <= s.len(),
            line_end(s@, i as int) == line_end(s@, j as int),
        decreases s.len() - j,
    {
        j = j + 1;
    }
    j
}

fn run_string(s: &Vec<char>, i: usize) -> (r: Option<usize>)
    requires
        i <= s.len(),
    ensures
        match r {
            Some(j) => string_end(s@, i as int) == Some(j as int) && i <= j < s.len(),
            None => string_end(s@, i as int) is None,
        },
{
    let mut j = i;
    while j < s.len()
        invariant
            i <= j,
            j <= s.len() + 1,
            string_end(s@, i as int) == string_end(s@, j as int),
        decreases s.len() + 2 - j,
    {
        if s[j] == '"' {
            return Some(j);
        } else if s[j] == '\\' {
            if j + 1 < s.len() && s[j + 1] != '\n' {
                j = j + 2;
            } else {
                return None;
            }
        } else {
            j = j + 1;
        }
    }
    None
}

proof fn lemma_digits_value_prefix(d: Seq<char>, e: Seq<char>)
    ensures
        digits_value(d + e) >= digits_value(d),
    decreases e.len(),
{
    if e.len() > 0 {
        assert((d + e).drop_last() =~= d + e.drop_last());
        lemma_digits_value_prefix(d, e.drop_last());
    } else {
        assert(d + e =~= d);
    }
}

/// The value of `s[a..b]`, all digits, when it fits in a `u64`.
pub(crate) fn digits_u64(s: &Vec<char>, a: usize, b: usize) -> (r: Option<u64>)
    requires
        a <= b <= s.len(),
        forall|k: int| a <= k < b ==> is_digit(#[trigger] s@[k]),
    ensures
        match r {
            Some(v) => v == digits_value(s@.subrange(a as int, b as int)),
            None => digits_value(s@.subrange(a as int, b as int)) > u64::MAX,
        },
{
    let mut v: u64 = 0;
    let mut j = a;
    assert(s@.subrange(a as int, a as int) =~= Seq::<char>::empty());
    while j < b
        invariant
            a <= j <= b <= s.len(),
            forall|k: int| a <= k < b ==> is_digit(#[trigger] s@[k]),
            v == digits_value(s@.subrange(a as int, j as int)),
        decreases b - j,
    {
        assert(is_digit(s@[j as int]));
        let d = (s[j] as u32 - 48) as u64;
        let ghost next = s@.subrange(a as int, j + 1);
        assert(next.drop_last() =~= s@.subrange(a as int, j as int));
        assert(next.last() == s@[j as int]);
        assert(digits_value(next) == v * 10 + d);
        proof {
            assert(next + s@.subrange(j + 1, b as int) =~= s@.subrange(a as int, b as int));
            lemma_digits_value_prefix(next, s@.subrange(j + 1, b as int));
        }
        match v.checked_mul(10) {
            Some(m) => match m.checked_add(d) {
                Some(n) => {
                    v = n;
                },
                None => {
                    return None;
                },
            },
            None => {
                return None;
            },
        }
        j = j + 1;
    }
    Some(v)
}

} // verus!

verus! {

pub open spec fn opt_token_view(t: Option<Token>) -> Option<TokenV> {
    match t {
        Some(t) => Some(token_view(t)),
        None => None,
    }
}

/// Prefix a lexing outcome with tokens already produced.
pub open spec fn prefixed(p: Seq<TokenV>, r: Option<Seq<TokenV>>) -> Option<Seq<TokenV>> {
    match r {
        Some(x) => Some(p + x),
        None => None,
    }
}

fn symbol(s: &Vec<char>, i: usize) -> (r: Option<(usize, Token)>)
    requires
        i < s.len(),
    ensures
        match r {
            Some((n, t)) => symbol_at(s@, i as int) == Some((n as int, token_view(t))) && 1 <= n
                && i + n <= s.len(),
            None => symbol_at(s@, i as int) is None,
        },
{
    let c = s[i];
    let has_next = i + 1 < s.len();
    let next = if has_next { s[i + 1] } else { ' ' };
    if c == '{' { Some((1, Token::LBrace)) }
    else if c == '}' { Some((1, Token::RBrace)) }
    else if c == '(' { Some((1, Token::LParen)) }
    else if c == ')' { Some((1, Token::RParen)) }
    else if c == '[' { Some((1, Token::LBracket)) }
    else if c == ']' { Some((1, Token::RBracket)) }
    else if c == ';' { Some((1, Token::Semi)) }
    else if c == ':' { Some((1, Token::Colon)) }
    else if c == ',' { Some((1, Token::Comma)) }
    else if c == '.' { Some((1, Token::Dot)) }
    else if c == '+' { Some((1, Token::Plus)) }
    else if c == '*' { Some((1, Token::Star)) }
    else if c == '%' { Some((1, Token::Percent)) }
    else if c == '>' { Some((1, Token::Gt)) }
    else if c == '<' { Some((1, Token::Lt)) }
    else if c == '/' { Some((1, Token::Slash)) }
    else if c == '=' {
        if has_next && next == '>' { Some((2, Token::FatArrow)) }
        else if has_next && next == '=' { Some((2, Token::Eq)) }
        else { Some((1, Token::Assign)) }
    } else if c == '-' {
        if has_next && next == '>' { Some((2, Token::Arrow)) } else { Some((1, Token::Minus)) }
    } else if c == '!' {
        if has_next && next == '=' { Some((2, Token::NotEq)) } else { Some((1, Token::Bang)) }
    } else if c == '&' {
        if has_next && next == '&' { Some((2, Token::And)) } else { None }
    } else if c == '|' {
        if has_next && next == '|' { Some((2, Token::Or)) } else { None }
    } else {
        None
    }
}

/// The lexeme at `i` (see [`scan_at`]).
fn scan(s: &Vec<char>, i: usize) -> (r: Option<(usize, Option<Token>)>)
    requires
        i < s.len(),
    ensures
        match r {
            Some((n, t)) => scan_at(s@, i as int) == Some((n as int, opt_token_view(t))) && 1 <= n
                && i + n <= s.len(),
            None => scan_at(s@, i as int) is None,
        },
{
    let c = s[i];
    if blank(c) {
        let e = run_blank(s, i + 1);
        return Some((e - i, None));
    }
    if c == '/' && i + 1 < s.len() && s[i + 1] == '/' {
        let e = run_line(s, i + 1);
        return Some((e - i, None));
    }
    if ident_start(c) {
        let e = run_ident(s, i + 1);
        let t = match keyword_token(s, i, e) {
            Some(k) => k,
            None => Token::Ident(crate::text::chars_to_string(s, i, e)),
        };
        return Some((e - i, Some(t)));
    }
    if digit(c) {
        let e = run_digit(s, i + 1);
        if s.len() - e >= 2 && s[e] == '.' && digit(s[e + 1]) {
            let f = run_digit(s, e + 2);
            return Some((f - i, Some(Token::FloatLit(crate::text::chars_to_string(s, i, f)))));
        }
        proof {
            assert forall|k: int| i <= k < e implies is_digit(#[trigger] s@[k]) by {
                lemma_digit_run(s@, i as int, k);
            }
        }
        return match digits_u64(s, i, e) {
            Some(v) => Some((e - i, Some(Token::IntLit(v)))),
            None => None,
        };
    }
    if c == '"' {
        return match run_string(s, i + 1) {
            Some(j) => Some((j + 1 - i, Some(Token::StringLit(crate::text::chars_to_string(s, i, j + 1))))),
            None => None,
        };
    }
    match symbol(s, i) {
        Some((n, t)) => Some((n, Some(t))),
        None => None,
    }
}

/// Every character of a digit run is a digit.
proof fn lemma_digit_run(s: Seq<char>, i: int, k: int)
    requires
        0 <= i <= k < digit_end(s, i),
    ensures
        is_digit(s[k]),
    decreases k - i,
{
    if k > i {
        lemma_digit_run(s, i + 1, k);
    }
}

/// An error of the lexer: no lexeme starts at `position` (a character index).
#[derive(Debug, PartialEq, Eq)]
pub struct LexError {
    pub position: usize,
}

/// Tokenise source code.
///
/// Succeeds exactly when every part of the text is a lexeme ([`lex_spec`]),
/// and then yields its tokens in order.
pub fn tokenize(source: &str) -> (r: Result<Vec<Token>, LexError>)
    ensures
        match lex_spec(source@) {
            Some(ts) => r matches Ok(v) && tokens_view(v@) == ts,
            None => r matches Err(e) && e.position == lex_fail_from(source@, 0),
        },
        r matches Ok(v) ==> string_tokens_ok(tokens_view(v@)),
{
    let s = crate::text::chars_of(source);
    let mut toks: Vec<Token> = Vec::new();
    let mut i: usize = 0;
    assert(tokens_view(toks@) =~= Seq::<TokenV>::empty());
    assert(prefixed(Seq::<TokenV>::empty(), lex_from(s@, 0)) =~= lex_from(s@, 0));
    while i < s.len()
        invariant
            i <= s.len(),
            s@ == source@,
            lex_from(s@, 0) == prefixed(tokens_view(toks@), lex_from(s@, i as int)),
            lex_from(s@, 0) is None ==> lex_fail_from(s@, 0) == lex_fail_from(s@, i as int),
        decreases s.len() - i,
    {
        match scan(&s, i) {
            None => {
                return Err(LexError { position: i });
            },
            Some((n, t)) => {
                let ghost before = tokens_view(toks@);
                let ghost rest = lex_from(s@, (i + n) as int);
                match t {
                    Some(tok) => {
                        toks.push(tok);
                        proof {
                            assert(tokens_view(toks@) =~= before.push(token_view(tok)));
                            if let Some(x) = rest {
                                assert(before + (seq![token_view(tok)] + x) =~= tokens_view(toks@) + x);
                            }
                        }
                    },
                    None => {},
                }
                i = i + n;
            },
        }
    }
    proof {
        lemma_lex_strings_ok(source@, 0);
    }
    Ok(toks)
}

} // verus!
