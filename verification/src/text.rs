//! Small string utilities shared by the compiler and the virtual machine.
use vstd::prelude::*;

verus! {

/// Appends one character to a string (`String::push`).
#[verifier::external_body]
pub(crate) fn string_push(s: &mut String, c: char)
    ensures
        final(s)@ == old(s)@.push(c),
{
    s.push(c);
}

/// Whether two strings hold the same characters.
pub fn str_eq(a: &str, b: &str) -> (r: bool)
    ensures
        r == (a@ == b@),
{
    let n = a.unicode_len();
    if n != b.unicode_len() {
        return false;
    }
    let mut i: usize = 0;
    while i < n
        invariant
            n == a@.len(),
            n == b@.len(),
            i <= n,
            forall|k: int| 0 <= k < i ==> a@[k] == b@[k],
        decreases n - i,
    {
        if a.get_char(i) != b.get_char(i) {
            return false;
        }
        i = i + 1;
    }
    assert(a@ =~= b@);
    true
}

/// Collect `s[a..b]` into a `String`.
pub fn chars_to_string(s: &Vec<char>, a: usize, b: usize) -> (r: String)
    requires
        a <= b <= s.len(),
    ensures
        r@ == s@.subrange(a as int, b as int),
{
    let mut out = String::new();
    let mut j = a;
    while j < b
        invariant
            a <= j <= b <= s.len(),
            out@ == s@.subrange(a as int, j as int),
        decreases b - j,
    {
        string_push(&mut out, s[j]);
        assert(s@.subrange(a as int, j + 1) =~= s@.subrange(a as int, j as int).push(s@[j as int]));
        j = j + 1;
    }
    out
}

/// The characters of a string slice, in order.
pub fn chars_of(s: &str) -> (v: Vec<char>)
    ensures
        v@ == s@,
{
    let n = s.unicode_len();
    let mut v: Vec<char> = Vec::new();
    let mut i: usize = 0;
    while i < n
        invariant
            n == s@.len(),
            i <= n,
            v@ == s@.subrange(0, i as int),
        decreases n - i,
    {
        v.push(s.get_char(i));
        assert(s@.subrange(0, i + 1) =~= s@.subrange(0, i as int).push(s@[i as int]));
        i = i + 1;
    }
    assert(s@.subrange(0, n as int) =~= s@);
    v
}

/// Does `s` spell `lit`?
pub fn string_eq_lit(s: &String, lit: &[char]) -> (r: bool)
    ensures
        r == (s@ == lit@),
{
    let v = chars_of(s.as_str());
    if v.len() != lit.len() {
        return false;
    }
    let mut k: usize = 0;
    while k < lit.len()
        invariant
            v@ == s@,
            v.len() == lit.len(),
            k <= lit.len(),
            forall|j: int| 0 <= j < k ==> v@[j] == lit@[j],
        decreases lit.len() - k,
    {
        if v[k] != lit[k] {
            return false;
        }
        k = k + 1;
    }
    assert(v@ =~= lit@);
    true
}

/// A string holding exactly the characters of `lit`.
pub fn string_of(lit: &[char]) -> (r: String)
    ensures
        r@ == lit@,
{
    let mut out = String::new();
    let mut k: usize = 0;
    while k < lit.len()
        invariant
            k <= lit.len(),
            out@ == lit@.subrange(0, k as int),
        decreases lit.len() - k,
    {
        string_push(&mut out, lit[k]);
        assert(lit@.subrange(0, k + 1) =~= lit@.subrange(0, k as int).push(lit@[k as int]));
        k = k + 1;
    }
    assert(lit@.subrange(0, lit.len() as int) =~= lit@);
    out
}

/// The decimal digits of `n`.
pub open spec fn nat_digits(n: nat) -> Seq<char>
    decreases n,
{
    if n < 10 {
        seq![(n + 48) as char]
    } else {
        nat_digits(n / 10).push(((n % 10) + 48) as char)
    }
}

/// The decimal representation of `n`.
pub fn u64_to_string(n: u64) -> (r: String)
    ensures
        r@ == nat_digits(n as nat),
    decreases n,
{
    if n < 10 {
        let mut out = String::new();
        string_push(&mut out, char_of_digit(n));
        assert(out@ =~= seq![(n + 48) as char]);
        out
    } else {
        let mut out = u64_to_string(n / 10);
        string_push(&mut out, char_of_digit(n % 10));
        out
    }
}

fn char_of_digit(d: u64) -> (c: char)
    requires
        d < 10,
    ensures
        c == (d + 48) as char,
{
    if d == 0 { '0' } else if d == 1 { '1' } else if d == 2 { '2' } else if d == 3 { '3' }
    else if d == 4 { '4' } else if d == 5 { '5' } else if d == 6 { '6' } else if d == 7 { '7' }
    else if d == 8 { '8' } else { '9' }
}

/// `a` then `b`.
pub fn concat2(a: &str, b: &str) -> (r: String)
    ensures
        r@ == a@ + b@,
{
    let mut out = String::from_str(a);
    out.append(b);
    out
}

/// `a`, `b` and `c` one after the other.
pub fn concat3(a: &str, b: &str, c: &str) -> (r: String)
    ensures
        r@ == a@ + b@ + c@,
{
    let mut out = String::from_str(a);
    out.append(b);
    out.append(c);
    out
}

/// `a`, `b`, `c` and `d` one after the other.
pub fn concat4(a: &str, b: &str, c: &str, d: &str) -> (r: String)
    ensures
        r@ == a@ + b@ + c@ + d@,
{
    let mut out = String::from_str(a);
    out.append(b);
    out.append(c);
    out.append(d);
    out
}

/// `a`, `b`, `c`, `d` and `e` one after the other.
pub fn concat5(a: &str, b: &str, c: &str, d: &str, e: &str) -> (r: String)
    ensures
        r@ == a@ + b@ + c@ + d@ + e@,
{
    let mut out = String::from_str(a);
    out.append(b);
    out.append(c);
    out.append(d);
    out.append(e);
    out
}

} // verus!
