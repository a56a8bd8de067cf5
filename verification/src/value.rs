//! Runtime values of the virtual machine, and how they print and compare.
//!
//! A vector value is a handle into the machine's table of vectors, so that
//! two values holding the same handle see each other's updates.
use vstd::prelude::*;
use crate::text::{nat_digits, u64_to_string};
use crate::lexer::is_digit;

verus! {

/// A value on the stack, in a local variable or in a memory slot.
#[derive(Debug)]
pub enum Value {
    Str(String),
    Int(u64),
    /// A decimal number, kept as the literal that wrote it.
    Float(String),
    Bool(bool),
    /// A context segment of the token heap.
    CtxHandle(u32),
    Tuple(Vec<Value>),
    /// A struct: its name and its fields in declaration order.
    Struct { name: String, fields: Vec<(String, Value)> },
    EnumVariant { variant: String, payload: Option<Box<Value>> },
    /// A vector: an index into the machine's vector table.
    Vec(usize),
}

pub enum ValueV {
    Str(Seq<char>),
    Int(u64),
    Float(Seq<char>),
    Bool(bool),
    CtxHandle(u32),
    Tuple(Seq<ValueV>),
    Struct { name: Seq<char>, fields: Seq<(Seq<char>, ValueV)> },
    EnumVariant { variant: Seq<char>, payload: Option<Box<ValueV>> },
    Vec(usize),
}

pub open spec fn value_view(v: Value) -> ValueV
    decreases v, 0int,
{
    match v {
        Value::Str(s) => ValueV::Str(s@),
        Value::Int(n) => ValueV::Int(n),
        Value::Float(s) => ValueV::Float(s@),
        Value::Bool(b) => ValueV::Bool(b),
        Value::CtxHandle(h) => ValueV::CtxHandle(h),
        Value::Tuple(items) => ValueV::Tuple(values_view(items@)),
        Value::Struct { name, fields } => ValueV::Struct { name: name@, fields: fields_view(fields@) },
        Value::EnumVariant { variant, payload } => ValueV::EnumVariant {
            variant: variant@,
            payload: match payload {
                Some(p) => Some(Box::new(value_view(*p))),
                None => None,
            },
        },
        Value::Vec(h) => ValueV::Vec(h),
    }
}

pub open spec fn values_view(vs: Seq<Value>) -> Seq<ValueV>
    decreases vs, 1int,
{
    if vs.len() == 0 {
        Seq::empty()
    } else {
        seq![value_view(vs[0])] + values_view(vs.subrange(1, vs.len() as int))
    }
}

pub open spec fn fields_view(fs: Seq<(String, Value)>) -> Seq<(Seq<char>, ValueV)>
    decreases fs, 1int,
{
    if fs.len() == 0 {
        Seq::empty()
    } else {
        seq![(fs[0].0@, value_view(fs[0].1))] + fields_view(fs.subrange(1, fs.len() as int))
    }
}

pub proof fn lemma_values_view_index(s: Seq<Value>)
    ensures
        values_view(s).len() == s.len(),
        forall|i: int| 0 <= i < s.len() ==> #[trigger] values_view(s)[i] == value_view(s[i]),
    decreases s.len(),
{
    if s.len() > 0 {
        lemma_values_view_index(s.subrange(1, s.len() as int));
        assert forall|i: int| 0 <= i < s.len() implies #[trigger] values_view(s)[i] == value_view(s[i]) by {
            if i > 0 {
                assert(s.subrange(1, s.len() as int)[i - 1] == s[i]);
            }
        }
    }
}

pub proof fn lemma_fields_view_index(s: Seq<(String, Value)>)
    ensures
        fields_view(s).len() == s.len(),
        forall|i: int| 0 <= i < s.len() ==> #[trigger] fields_view(s)[i] == (s[i].0@, value_view(s[i].1)),
    decreases s.len(),
{
    if s.len() > 0 {
        lemma_fields_view_index(s.subrange(1, s.len() as int));
        assert forall|i: int| 0 <= i < s.len() implies #[trigger] fields_view(s)[i] == (s[i].0@, value_view(
            s[i].1,
        )) by {
            if i > 0 {
                assert(s.subrange(1, s.len() as int)[i - 1] == s[i]);
            }
        }
    }
}

/// Two sequences of values with the same views element by element have the same view.
pub proof fn lemma_values_view_ext(a: Seq<Value>, b: Seq<ValueV>)
    requires
        a.len() == b.len(),
        forall|i: int| 0 <= i < a.len() ==> #[trigger] value_view(a[i]) == b[i],
    ensures
        values_view(a) == b,
{
    lemma_values_view_index(a);
    assert(values_view(a) =~= b);
}

pub proof fn lemma_fields_view_ext(a: Seq<(String, Value)>, b: Seq<(Seq<char>, ValueV)>)
    requires
        a.len() == b.len(),
        forall|i: int| 0 <= i < a.len() ==> (#[trigger] a[i]).0@ == b[i].0 && value_view(a[i].1) == b[i].1,
    ensures
        fields_view(a) == b,
{
    lemma_fields_view_index(a);
    assert(fields_view(a) =~= b);
}

/// A copy of a value (a vector handle is copied, not the vector).
pub fn copy_value(v: &Value) -> (r: Value)
    ensures
        value_view(r) == value_view(*v),
    decreases v, 0int,
{
    match v {
        Value::Str(s) => Value::Str(s.clone()),
        Value::Int(n) => Value::Int(*n),
        Value::Float(s) => Value::Float(s.clone()),
        Value::Bool(b) => Value::Bool(*b),
        Value::CtxHandle(h) => Value::CtxHandle(*h),
        Value::Tuple(items) => {
            proof {
                assert(decreases_to!(v => items));
            }
            Value::Tuple(copy_values(items))
        },
        Value::Struct { name, fields } => {
            proof {
                assert(decreases_to!(v => fields));
            }
            Value::Struct { name: name.clone(), fields: copy_fields(fields) }
        },
        Value::EnumVariant { variant, payload } => {
            let p = match payload {
                Some(b) => {
                    proof {
                        assert(decreases_to!(v => **b));
                    }
                    Some(Box::new(copy_value(&**b)))
                },
                None => None,
            };
            Value::EnumVariant { variant: variant.clone(), payload: p }
        },
        Value::Vec(h) => Value::Vec(*h),
    }
}

pub fn copy_values(vs: &Vec<Value>) -> (r: Vec<Value>)
    ensures
        values_view(r@) == values_view(vs@),
    decreases vs, 1int,
{
    let mut out: Vec<Value> = Vec::new();
    let mut i: usize = 0;
    while i < vs.len()
        invariant
            i <= vs.len(),
            out.len() == i,
            forall|k: int| 0 <= k < i ==> #[trigger] value_view(out@[k]) == value_view(vs@[k]),
        decreases vs.len() - i,
    {
        proof {
            assert(decreases_to!(vs => vs@));
            assert(decreases_to!(vs@ => vs@[i as int]));
        }
        out.push(copy_value(&vs[i]));
        i = i + 1;
    }
    proof {
        lemma_values_view_index(vs@);
        lemma_values_view_ext(out@, values_view(vs@));
    }
    out
}

pub fn copy_fields(fs: &Vec<(String, Value)>) -> (r: Vec<(String, Value)>)
    ensures
        fields_view(r@) == fields_view(fs@),
    decreases fs, 1int,
{
    let mut out: Vec<(String, Value)> = Vec::new();
    let mut i: usize = 0;
    while i < fs.len()
        invariant
            i <= fs.len(),
            out.len() == i,
            forall|k: int|
                0 <= k < i ==> (#[trigger] out@[k]).0@ == fs@[k].0@ && value_view(out@[k].1) == value_view(
                    fs@[k].1,
                ),
        decreases fs.len() - i,
    {
        proof {
            assert(decreases_to!(fs => fs@));
            assert(decreases_to!(fs@ => fs@[i as int]));
            assert(decreases_to!(fs@[i as int] => fs@[i as int].1));
        }
        out.push((fs[i].0.clone(), copy_value(&fs[i].1)));
        i = i + 1;
    }
    proof {
        lemma_fields_view_index(fs@);
        lemma_fields_view_ext(out@, fields_view(fs@));
    }
    out
}


// ── Printing ─────────────────────────────────────────────────────────────────

pub open spec fn vecs_view(vs: Seq<Vec<Value>>) -> Seq<Seq<ValueV>> {
    vs.map_values(|v: Vec<Value>| values_view(v@))
}

/// How a value prints. A vector prints its elements from the vector table;
/// `fuel` bounds how many vectors deep printing goes, and a vector reached
/// with none left (only a vector that holds itself needs that many) prints
/// as `[...]`.
pub open spec fn value_text(v: ValueV, vecs: Seq<Seq<ValueV>>, fuel: nat) -> Seq<char>
    decreases fuel, v, 0int,
{
    match v {
        ValueV::Str(s) => s,
        ValueV::Int(n) => nat_digits(n as nat),
        ValueV::Float(s) => s,
        ValueV::Bool(b) => if b {
            "true"@
        } else {
            "false"@
        },
        ValueV::CtxHandle(h) => "<ctx#"@ + nat_digits(h as nat) + ">"@,
        ValueV::Tuple(items) => "("@ + join_text(items, vecs, fuel) + ")"@,
        ValueV::Struct { name, fields } => name + " {"@ + fields_text(fields, vecs, fuel) + "}"@,
        ValueV::EnumVariant { variant, payload } => match payload {
            Some(p) => variant + "("@ + value_text(*p, vecs, fuel) + ")"@,
            None => variant,
        },
        ValueV::Vec(h) => if fuel == 0 || h >= vecs.len() {
            "[...]"@
        } else {
            "["@ + join_text(vecs[h as int], vecs, (fuel - 1) as nat) + "]"@
        },
    }
}

/// The values' texts, separated by `, `.
pub open spec fn join_text(vs: Seq<ValueV>, vecs: Seq<Seq<ValueV>>, fuel: nat) -> Seq<char>
    decreases fuel, vs, 1int,
{
    if vs.len() == 0 {
        Seq::empty()
    } else if vs.len() == 1 {
        value_text(vs[0], vecs, fuel)
    } else {
        join_text(vs.drop_last(), vecs, fuel) + ", "@ + value_text(vs[vs.len() - 1], vecs, fuel)
    }
}

/// `name: value` for each field, separated by `, `.
pub open spec fn fields_text(fs: Seq<(Seq<char>, ValueV)>, vecs: Seq<Seq<ValueV>>, fuel: nat) -> Seq<char>
    decreases fuel, fs, 1int,
{
    if fs.len() == 0 {
        Seq::empty()
    } else if fs.len() == 1 {
        fs[0].0 + ": "@ + value_text(fs[0].1, vecs, fuel)
    } else {
        fields_text(fs.drop_last(), vecs, fuel) + ", "@ + fs[fs.len() - 1].0 + ": "@ + value_text(
            fs[fs.len() - 1].1,
            vecs,
            fuel,
        )
    }
}

fn lit(s: &str) -> (r: String)
    ensures
        r@ == s@,
{
    String::from_str(s)
}

/// The text of a value (see [`value_text`]).
pub fn render(v: &Value, vecs: &Vec<Vec<Value>>, fuel: usize) -> (r: String)
    ensures
        r@ == value_text(value_view(*v), vecs_view(vecs@), fuel as nat),
    decreases fuel, v, 0int,
{
    match v {
        Value::Str(s) => s.clone(),
        Value::Int(n) => u64_to_string(*n),
        Value::Float(s) => s.clone(),
        Value::Bool(b) => if *b {
            lit("true")
        } else {
            lit("false")
        },
        Value::CtxHandle(h) => {
            let mut out = lit("<ctx#");
            let d = u64_to_string(*h as u64);
            out.append(d.as_str());
            out.append(">");
            out
        },
        Value::Tuple(items) => {
            proof {
                assert(decreases_to!(v => items));
            }
            let mut out = lit("(");
            let inner = render_join(items, vecs, fuel);
            out.append(inner.as_str());
            out.append(")");
            out
        },
        Value::Struct { name, fields } => {
            proof {
                assert(decreases_to!(v => fields));
            }
            let mut out = name.clone();
            out.append(" {");
            let inner = render_fields(fields, vecs, fuel);
            out.append(inner.as_str());
            out.append("}");
            out
        },
        Value::EnumVariant { variant, payload } => {
            let mut out = variant.clone();
            match payload {
                Some(b) => {
                    proof {
                        assert(decreases_to!(v => **b));
                    }
                    let inner = render(&**b, vecs, fuel);
                    out.append("(");
                    out.append(inner.as_str());
                    out.append(")");
                },
                None => {},
            }
            out
        },
        Value::Vec(h) => {
            if fuel == 0 || *h >= vecs.len() {
                lit("[...]")
            } else {
                proof {
                    assert(vecs_view(vecs@)[*h as int] == values_view(vecs@[*h as int]@));
                }
                let mut out = lit("[");
                let inner = render_join(&vecs[*h], vecs, fuel - 1);
                out.append(inner.as_str());
                out.append("]");
                out
            }
        },
    }
}

/// The texts of `items`, separated by `, ` (see [`join_text`]).
pub fn render_join(items: &Vec<Value>, vecs: &Vec<Vec<Value>>, fuel: usize) -> (r: String)
    ensures
        r@ == join_text(values_view(items@), vecs_view(vecs@), fuel as nat),
    decreases fuel, items, 1int,
{
    let ghost iv = values_view(items@);
    proof {
        lemma_values_view_index(items@);
    }
    let mut out = String::new();
    let mut i: usize = 0;
    while i < items.len()
        invariant
            i <= items.len(),
            iv == values_view(items@),
            iv.len() == items.len(),
            forall|k: int| 0 <= k < items.len() ==> #[trigger] iv[k] == value_view(items@[k]),
            out@ == join_text(iv.subrange(0, i as int), vecs_view(vecs@), fuel as nat),
        decreases items.len() - i,
    {
        proof {
            assert(decreases_to!(items => items@));
            assert(decreases_to!(items@ => items@[i as int]));
        }
        let t = render(&items[i], vecs, fuel);
        let ghost pre = iv.subrange(0, i as int);
        let ghost next = iv.subrange(0, i + 1);
        assert(next.drop_last() =~= pre);
        assert(next[next.len() - 1] == iv[i as int]);
        if i > 0 {
            out.append(", ");
        } else {
            assert(pre.len() == 0);
        }
        out.append(t.as_str());
        i = i + 1;
    }
    assert(iv.subrange(0, items.len() as int) =~= iv);
    out
}

/// `name: value` for each field (see [`fields_text`]).
pub fn render_fields(fields: &Vec<(String, Value)>, vecs: &Vec<Vec<Value>>, fuel: usize) -> (r: String)
    ensures
        r@ == fields_text(fields_view(fields@), vecs_view(vecs@), fuel as nat),
    decreases fuel, fields, 1int,
{
    let ghost fv = fields_view(fields@);
    proof {
        lemma_fields_view_index(fields@);
    }
    let mut out = String::new();
    let mut i: usize = 0;
    while i < fields.len()
        invariant
            i <= fields.len(),
            fv == fields_view(fields@),
            fv.len() == fields.len(),
            forall|k: int| 0 <= k < fields.len() ==> #[trigger] fv[k] == (fields@[k].0@, value_view(fields@[k].1)),
            out@ == fields_text(fv.subrange(0, i as int), vecs_view(vecs@), fuel as nat),
        decreases fields.len() - i,
    {
        proof {
            assert(decreases_to!(fields => fields@));
            assert(decreases_to!(fields@ => fields@[i as int]));
            assert(decreases_to!(fields@[i as int] => fields@[i as int].1));
        }
        let t = render(&fields[i].1, vecs, fuel);
        let ghost pre = fv.subrange(0, i as int);
        let ghost next = fv.subrange(0, i + 1);
        assert(next.drop_last() =~= pre);
        assert(next[next.len() - 1] == fv[i as int]);
        if i > 0 {
            out.append(", ");
        } else {
            assert(pre.len() == 0);
        }
        out.append(fields[i].0.as_str());
        out.append(": ");
        out.append(t.as_str());
        i = i + 1;
    }
    assert(fv.subrange(0, fields.len() as int) =~= fv);
    out
}

// ── Comparing ────────────────────────────────────────────────────────────────

/// Whether `a` comes after `b` in the order of their characters' code points
/// (which is also the order of their UTF-8 bytes).
pub open spec fn text_gt(a: Seq<char>, b: Seq<char>) -> bool
    decreases a.len(),
{
    if a.len() == 0 {
        false
    } else if b.len() == 0 {
        true
    } else if a[0] != b[0] {
        (a[0] as u32) > (b[0] as u32)
    } else {
        text_gt(a.drop_first(), b.drop_first())
    }
}

/// The position of the first `.` at or after `i`, or the length when none is.
pub open spec fn dot_from(s: Seq<char>, i: int) -> int
    decreases s.len() - i,
{
    if i < 0 || i >= s.len() {
        s.len() as int
    } else if s[i] == '.' {
        i
    } else {
        dot_from(s, i + 1)
    }
}

/// A decimal literal: digits, or digits, a dot and digits.
pub open spec fn is_decimal(s: Seq<char>) -> bool {
    let d = dot_from(s, 0);
    &&& 0 < d
    &&& d + 1 != s.len()
    &&& forall|k: int| 0 <= k < s.len() && k != d ==> is_digit(#[trigger] s[k])
}

/// The digits before the dot (all of them when there is none).
pub open spec fn int_part(s: Seq<char>) -> Seq<char> {
    s.subrange(0, dot_from(s, 0))
}

/// The digits after the dot.
pub open spec fn frac_part(s: Seq<char>) -> Seq<char> {
    let d = dot_from(s, 0);
    if d < s.len() {
        s.subrange(d + 1, s.len() as int)
    } else {
        Seq::empty()
    }
}

pub open spec fn strip_leading_zeros(s: Seq<char>) -> Seq<char>
    decreases s.len(),
{
    if s.len() > 0 && s[0] == '0' {
        strip_leading_zeros(s.drop_first())
    } else {
        s
    }
}

pub open spec fn strip_trailing_zeros(s: Seq<char>) -> Seq<char>
    decreases s.len(),
{
    if s.len() > 0 && s.last() == '0' {
        strip_trailing_zeros(s.drop_last())
    } else {
        s
    }
}

/// Two decimal literals denote the same number when they agree once the
/// integer part's leading zeros and the fraction's trailing zeros are dropped.
pub open spec fn dec_eq(a: Seq<char>, b: Seq<char>) -> bool {
    if is_decimal(a) && is_decimal(b) {
        strip_leading_zeros(int_part(a)) == strip_leading_zeros(int_part(b)) && strip_trailing_zeros(
            frac_part(a),
        ) == strip_trailing_zeros(frac_part(b))
    } else {
        a == b
    }
}

/// The order of decimal numbers: the longer integer part (without leading
/// zeros) is the greater; for equal lengths, the digits decide, integer part
/// first, then the fraction (without trailing zeros) digit by digit.
pub open spec fn dec_gt(a: Seq<char>, b: Seq<char>) -> bool {
    if is_decimal(a) && is_decimal(b) {
        let (ia, ib) = (strip_leading_zeros(int_part(a)), strip_leading_zeros(int_part(b)));
        if ia.len() != ib.len() {
            ia.len() > ib.len()
        } else if ia != ib {
            text_gt(ia, ib)
        } else {
            text_gt(strip_trailing_zeros(frac_part(a)), strip_trailing_zeros(frac_part(b)))
        }
    } else {
        false
    }
}

/// `==` between values: same kind and same contents; values of other kinds
/// (tuples, structs, variants, vectors) are never equal.
pub open spec fn values_eq(l: ValueV, r: ValueV) -> bool {
    match (l, r) {
        (ValueV::Str(a), ValueV::Str(b)) => a == b,
        (ValueV::Int(a), ValueV::Int(b)) => a == b,
        (ValueV::Float(a), ValueV::Float(b)) => dec_eq(a, b),
        (ValueV::Bool(a), ValueV::Bool(b)) => a == b,
        (ValueV::CtxHandle(a), ValueV::CtxHandle(b)) => a == b,
        _ => false,
    }
}

/// `>` between values: integers, decimals and strings of the same kind.
pub open spec fn values_gt(l: ValueV, r: ValueV) -> bool {
    match (l, r) {
        (ValueV::Int(a), ValueV::Int(b)) => a > b,
        (ValueV::Float(a), ValueV::Float(b)) => dec_gt(a, b),
        (ValueV::Str(a), ValueV::Str(b)) => text_gt(a, b),
        _ => false,
    }
}

/// The truth of a value for `&&` and `||`.
pub open spec fn truth(v: ValueV) -> bool {
    match v {
        ValueV::Bool(b) => b,
        ValueV::Int(n) => n != 0,
        ValueV::Str(s) => s.len() > 0,
        _ => false,
    }
}

/// Whether `JumpIfFalse` jumps on this value.
pub open spec fn is_false(v: ValueV) -> bool {
    match v {
        ValueV::Int(n) => n == 0,
        ValueV::Bool(b) => !b,
        ValueV::Str(s) => s.len() == 0,
        _ => false,
    }
}

/// Whether `verify` and constraint checks accept this value: anything but
/// the integer zero and the empty string.
pub open spec fn passes_check(v: ValueV) -> bool {
    match v {
        ValueV::Int(n) => n != 0,
        ValueV::Str(s) => s.len() > 0,
        _ => true,
    }
}

fn chars_gt(a: &Vec<char>, b: &Vec<char>) -> (r: bool)
    ensures
        r == text_gt(a@, b@),
{
    let mut i: usize = 0;
    assert(a@.subrange(0, a.len() as int) =~= a@);
    assert(b@.subrange(0, b.len() as int) =~= b@);
    while i < a.len() && i < b.len()
        invariant
            i <= a.len(),
            i <= b.len(),
            text_gt(a@, b@) == text_gt(a@.subrange(i as int, a.len() as int), b@.subrange(i as int, b.len() as int)),
        decreases a.len() - i,
    {
        let ghost (sa, sb) = (a@.subrange(i as int, a.len() as int), b@.subrange(i as int, b.len() as int));
        assert(sa[0] == a@[i as int] && sb[0] == b@[i as int]);
        if a[i] != b[i] {
            return (a[i] as u32) > (b[i] as u32);
        }
        assert(sa.drop_first() =~= a@.subrange(i + 1, a.len() as int));
        assert(sb.drop_first() =~= b@.subrange(i + 1, b.len() as int));
        i = i + 1;
    }
    i < a.len()
}

/// Whether `a` comes after `b` (see [`text_gt`]).
pub fn str_gt(a: &str, b: &str) -> (r: bool)
    ensures
        r == text_gt(a@, b@),
{
    let va = crate::text::chars_of(a);
    let vb = crate::text::chars_of(b);
    chars_gt(&va, &vb)
}

/// The characters of `s[a..b]`.
fn slice_chars(s: &Vec<char>, a: usize, b: usize) -> (r: Vec<char>)
    requires
        a <= b <= s.len(),
    ensures
        r@ == s@.subrange(a as int, b as int),
{
    let mut out: Vec<char> = Vec::new();
    let mut k = a;
    while k < b
        invariant
            a <= k <= b <= s.len(),
            out@ == s@.subrange(a as int, k as int),
        decreases b - k,
    {
        out.push(s[k]);
        assert(s@.subrange(a as int, k + 1) =~= s@.subrange(a as int, k as int).push(s@[k as int]));
        k = k + 1;
    }
    out
}

pub(crate) proof fn lemma_dot_from_range(s: Seq<char>, i: int)
    requires
        0 <= i <= s.len(),
    ensures
        i <= dot_from(s, i) <= s.len(),
        dot_from(s, i) < s.len() ==> s[dot_from(s, i)] == '.',
        forall|k: int| i <= k < dot_from(s, i) ==> s[k] != '.',
    decreases s.len() - i,
{
    if i < s.len() && s[i] != '.' {
        lemma_dot_from_range(s, i + 1);
    }
}

fn strip_leading(s: Vec<char>) -> (r: Vec<char>)
    ensures
        r@ == strip_leading_zeros(s@),
{
    let mut k: usize = 0;
    assert(s@.subrange(0, s.len() as int) =~= s@);
    while k < s.len() && s[k] == '0'
        invariant
            k <= s.len(),
            strip_leading_zeros(s@) == strip_leading_zeros(s@.subrange(k as int, s.len() as int)),
        decreases s.len() - k,
    {
        assert(s@.subrange(k as int, s.len() as int).drop_first() =~= s@.subrange(k + 1, s.len() as int));
        k = k + 1;
    }
    let r = slice_chars(&s, k, s.len());
    proof {
        let t = s@.subrange(k as int, s.len() as int);
        if t.len() > 0 {
            assert(t[0] == s@[k as int]);
        }
    }
    r
}

fn strip_trailing(s: Vec<char>) -> (r: Vec<char>)
    ensures
        r@ == strip_trailing_zeros(s@),
{
    let mut k: usize = s.len();
    assert(s@.subrange(0, k as int) =~= s@);
    while k > 0 && s[k - 1] == '0'
        invariant
            k <= s.len(),
            strip_trailing_zeros(s@) == strip_trailing_zeros(s@.subrange(0, k as int)),
        decreases k,
    {
        assert(s@.subrange(0, k as int).drop_last() =~= s@.subrange(0, k - 1));
        k = k - 1;
    }
    slice_chars(&s, 0, k)
}

/// The parts of a decimal literal, without the integer part's leading zeros
/// and the fraction's trailing zeros: `None` when it is not one.
fn split_decimal(s: &Vec<char>) -> (r: Option<(Vec<char>, Vec<char>)>)
    ensures
        match r {
            Some((i, f)) => is_decimal(s@) && i@ == strip_leading_zeros(int_part(s@)) && f@ == strip_trailing_zeros(
                frac_part(s@),
            ),
            None => !is_decimal(s@),
        },
{
    proof {
        lemma_dot_from_range(s@, 0);
    }
    let ghost d = dot_from(s@, 0);
    let mut k: usize = 0;
    while k < s.len() && s[k] != '.'
        invariant
            k <= d <= s.len(),
            d == dot_from(s@, 0),
            dot_from(s@, 0) == dot_from(s@, k as int),
        decreases s.len() - k,
    {
        proof {
            lemma_dot_from_range(s@, k + 1);
        }
        k = k + 1;
    }
    assert(k == d);
    if k == 0 || (k < s.len() && k + 1 == s.len()) {
        return None;
    }
    let mut j: usize = 0;
    while j < s.len()
        invariant
            j <= s.len(),
            k == dot_from(s@, 0),
            forall|m: int| 0 <= m < j && m != k ==> is_digit(#[trigger] s@[m]),
        decreases s.len() - j,
    {
        if j != k && !(48 <= (s[j] as u32) && (s[j] as u32) <= 57) {
            return None;
        }
        j = j + 1;
    }
    let ip = slice_chars(s, 0, k);
    let fp = if k < s.len() {
        slice_chars(s, k + 1, s.len())
    } else {
        Vec::new()
    };
    assert(fp@ =~= frac_part(s@));
    Some((strip_leading(ip), strip_trailing(fp)))
}

/// Whether the literals denote the same number (see [`dec_eq`]).
pub fn decimal_eq(a: &str, b: &str) -> (r: bool)
    ensures
        r == dec_eq(a@, b@),
{
    let va = crate::text::chars_of(a);
    let vb = crate::text::chars_of(b);
    match (split_decimal(&va), split_decimal(&vb)) {
        (Some((ia, fa)), Some((ib, fb))) => {
            vec_chars_eq(&ia, &ib) && vec_chars_eq(&fa, &fb)
        },
        (Some(_), None) | (None, Some(_)) => {
            vec_chars_eq(&va, &vb)
        },
        (None, None) => vec_chars_eq(&va, &vb),
    }
}

fn vec_chars_eq(a: &Vec<char>, b: &Vec<char>) -> (r: bool)
    ensures
        r == (a@ == b@),
{
    if a.len() != b.len() {
        return false;
    }
    let mut i: usize = 0;
    while i < a.len()
        invariant
            a.len() == b.len(),
            i <= a.len(),
            forall|k: int| 0 <= k < i ==> a@[k] == b@[k],
        decreases a.len() - i,
    {
        if a[i] != b[i] {
            return false;
        }
        i = i + 1;
    }
    assert(a@ =~= b@);
    true
}

/// Whether `a` denotes a greater number than `b` (see [`dec_gt`]).
pub fn decimal_gt(a: &str, b: &str) -> (r: bool)
    ensures
        r == dec_gt(a@, b@),
{
    let va = crate::text::chars_of(a);
    let vb = crate::text::chars_of(b);
    match (split_decimal(&va), split_decimal(&vb)) {
        (Some((ia, fa)), Some((ib, fb))) => {
            if ia.len() != ib.len() {
                ia.len() > ib.len()
            } else if !vec_chars_eq(&ia, &ib) {
                chars_gt(&ia, &ib)
            } else {
                chars_gt(&fa, &fb)
            }
        },
        _ => false,
    }
}

/// `==` between values (see [`values_eq`]).
pub fn eq_values(l: &Value, r: &Value) -> (b: bool)
    ensures
        b == values_eq(value_view(*l), value_view(*r)),
{
    match (l, r) {
        (Value::Str(a), Value::Str(b)) => crate::text::str_eq(a.as_str(), b.as_str()),
        (Value::Int(a), Value::Int(b)) => *a == *b,
        (Value::Float(a), Value::Float(b)) => decimal_eq(a.as_str(), b.as_str()),
        (Value::Bool(a), Value::Bool(b)) => *a == *b,
        (Value::CtxHandle(a), Value::CtxHandle(b)) => *a == *b,
        _ => false,
    }
}

/// `>` between values (see [`values_gt`]).
pub fn gt_values(l: &Value, r: &Value) -> (b: bool)
    ensures
        b == values_gt(value_view(*l), value_view(*r)),
{
    match (l, r) {
        (Value::Int(a), Value::Int(b)) => *a > *b,
        (Value::Float(a), Value::Float(b)) => decimal_gt(a.as_str(), b.as_str()),
        (Value::Str(a), Value::Str(b)) => str_gt(a.as_str(), b.as_str()),
        _ => false,
    }
}

/// See [`truth`].
pub fn truth_of(v: &Value) -> (b: bool)
    ensures
        b == truth(value_view(*v)),
{
    match v {
        Value::Bool(b) => *b,
        Value::Int(n) => *n != 0,
        Value::Str(s) => s.unicode_len() > 0,
        _ => false,
    }
}

/// See [`is_false`].
pub fn falsy(v: &Value) -> (b: bool)
    ensures
        b == is_false(value_view(*v)),
{
    match v {
        Value::Int(n) => *n == 0,
        Value::Bool(b) => !*b,
        Value::Str(s) => s.unicode_len() == 0,
        _ => false,
    }
}

/// See [`passes_check`].
pub fn passes(v: &Value) -> (b: bool)
    ensures
        b == passes_check(value_view(*v)),
{
    match v {
        Value::Int(n) => *n != 0,
        Value::Str(s) => s.unicode_len() > 0,
        _ => true,
    }
}

} // verus!
