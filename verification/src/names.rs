//! Pieces every language's namer is built from: which field holds a node, where a node stands
//! among its siblings, and the `callee#index` key of a callback nobody binds.
use vstd::prelude::*;
use crate::language::CompiledLanguage;
use crate::syntax::SyntaxTree;
use crate::text::{chars_of, string_from};

verus! {

/// Node `c` is what `p` holds under `field`.
pub open spec fn field_is(lang: &CompiledLanguage, t: &SyntaxTree, p: int, field: Seq<char>, c: int) -> bool {
    lang.spec_child_by_field_name(t, p, field) == Some(c as usize)
}

pub fn is_field(lang: &CompiledLanguage, t: &SyntaxTree, p: usize, field: &str, c: usize) -> (r: bool)
    ensures
        r == field_is(lang, t, p as int, field@, c as int),
{
    match lang.child_by_field_name(t, p, field) {
        Some(v) => v == c,
        None => false,
    }
}

/// The text of the node `p` holds under `field`.
pub open spec fn field_text(lang: &CompiledLanguage, t: &SyntaxTree, src: Seq<u8>, p: int, field: Seq<char>) -> Option<Seq<char>> {
    match lang.spec_child_by_field_name(t, p, field) {
        Some(c) => t.spec_text(src, c as int),
        None => None,
    }
}

pub fn field_text_exec(lang: &CompiledLanguage, t: &SyntaxTree, src: &[u8], p: usize, field: &str) -> (r: Option<String>)
    ensures
        r is Some <==> field_text(lang, t, src@, p as int, field@) is Some,
        r matches Some(s) ==> field_text(lang, t, src@, p as int, field@) == Some(s@),
{
    match lang.child_by_field_name(t, p, field) {
        Some(c) => t.text(src, c),
        None => None,
    }
}

/// The position of `x` in `s`, searching from `k`.
pub open spec fn index_from(s: Seq<usize>, x: usize, k: int) -> Option<usize>
    decreases s.len() - k,
{
    if k < 0 || k >= s.len() {
        None
    } else if s[k] == x {
        Some(k as usize)
    } else {
        index_from(s, x, k + 1)
    }
}

pub fn position(s: &Vec<usize>, x: usize) -> (r: Option<usize>)
    ensures
        r == index_from(s@, x, 0),
{
    let mut k: usize = 0;
    while k < s.len()
        invariant
            0 <= k <= s@.len(),
            index_from(s@, x, 0) == index_from(s@, x, k as int),
        decreases s@.len() - k,
    {
        if s[k] == x {
            return Some(k);
        }
        k = k + 1;
    }
    None
}

pub open spec fn digit(d: nat) -> char {
    if d == 0 { '0' } else if d == 1 { '1' } else if d == 2 { '2' } else if d == 3 { '3' }
    else if d == 4 { '4' } else if d == 5 { '5' } else if d == 6 { '6' } else if d == 7 { '7' }
    else if d == 8 { '8' } else { '9' }
}

/// The decimal spelling of `n`.
pub open spec fn decimal(n: nat) -> Seq<char>
    decreases n,
{
    if n < 10 {
        seq![digit(n)]
    } else {
        decimal(n / 10).push(digit(n % 10))
    }
}

fn digit_char(d: usize) -> (r: char)
    requires
        d < 10,
    ensures
        r == digit(d as nat),
{
    if d == 0 { '0' } else if d == 1 { '1' } else if d == 2 { '2' } else if d == 3 { '3' }
    else if d == 4 { '4' } else if d == 5 { '5' } else if d == 6 { '6' } else if d == 7 { '7' }
    else if d == 8 { '8' } else { '9' }
}

fn decimal_chars(n: usize) -> (r: Vec<char>)
    ensures
        r@ == decimal(n as nat),
    decreases n,
{
    if n < 10 {
        let mut v: Vec<char> = Vec::new();
        v.push(digit_char(n));
        assert(v@ =~= seq![digit(n as nat)]);
        v
    } else {
        let mut v = decimal_chars(n / 10);
        v.push(digit_char(n % 10));
        v
    }
}

/// `n` written in decimal.
pub fn decimal_string(n: usize) -> (r: String)
    ensures
        r@ == decimal(n as nat),
{
    let v = decimal_chars(n);
    string_from(v.as_slice())
}

/// The key of a callback nobody binds: the call it belongs to, `#`, its argument position.
pub open spec fn spec_keyed(callee: Seq<char>, index: nat) -> Seq<char> {
    callee + "#"@ + decimal(index)
}

pub fn keyed(callee: &str, index: usize) -> (r: String)
    ensures
        r@ == spec_keyed(callee@, index as nat),
{
    let mut out = callee.to_owned();
    out.push('#');
    let digits = chars_of(decimal_string(index).as_str());
    let ghost head = out@;
    let mut i: usize = 0;
    while i < digits.len()
        invariant
            0 <= i <= digits@.len(),
            digits@ == decimal(index as nat),
            out@ == head + digits@.subrange(0, i as int),
        decreases digits@.len() - i,
    {
        out.push(digits[i]);
        proof {
            assert(head + digits@.subrange(0, i + 1) =~= (head + digits@.subrange(0, i as int)).push(digits@[i as int]));
        }
        i = i + 1;
    }
    proof {
        reveal_strlit("#");
        assert(digits@.subrange(0, digits@.len() as int) =~= digits@);
        assert(head =~= callee@ + "#"@);
    }
    out
}

} // verus!

verus! {

/// The elements of `s` that satisfy `pred`, in order.
pub open spec fn keep(s: Seq<usize>, pred: spec_fn(usize) -> bool) -> Seq<usize>
    decreases s.len(),
{
    if s.len() == 0 {
        s
    } else if pred(s.last()) {
        keep(s.drop_last(), pred).push(s.last())
    } else {
        keep(s.drop_last(), pred)
    }
}

/// The children of `p` held under field `field`, in order, as `Node::children_by_field_name`
/// yields them.
pub open spec fn field_children(lang: &CompiledLanguage, t: &SyntaxTree, p: int, field: Seq<char>) -> Seq<usize> {
    if 0 <= p < t.len() {
        match lang.spec_field_named(field) {
            Some(f) => keep(t.kids(p), |c: usize| t.spec_field_id(c as int) == Some(f)),
            None => Seq::empty(),
        }
    } else {
        Seq::empty()
    }
}

pub fn field_children_exec(lang: &CompiledLanguage, t: &SyntaxTree, p: usize, field: &str) -> (r: Vec<usize>)
    ensures
        r@ == field_children(lang, t, p as int, field@),
{
    let mut out: Vec<usize> = Vec::new();
    if p >= t.nodes.len() {
        return out;
    }
    let f = match lang.field_named(field) {
        Some(f) => f,
        None => return out,
    };
    let kids = &t.nodes[p].children;
    let ghost pred = |c: usize| t.spec_field_id(c as int) == Some(f);
    let mut k: usize = 0;
    while k < kids.len()
        invariant
            p < t.len(),
            kids@ == t.kids(p as int),
            0 <= k <= kids@.len(),
            pred == (|c: usize| t.spec_field_id(c as int) == Some(f)),
            out@ == keep(kids@.subrange(0, k as int), pred),
        decreases kids@.len() - k,
    {
        proof {
            assert(kids@.subrange(0, k + 1).drop_last() =~= kids@.subrange(0, k as int));
        }
        if t.field_id(kids[k]) == Some(f) {
            out.push(kids[k]);
        }
        k = k + 1;
    }
    proof {
        assert(kids@.subrange(0, kids@.len() as int) =~= kids@);
    }
    out
}

} // verus!

verus! {

/// The source between two byte offsets, decoded, when it is valid UTF-8.
pub open spec fn slice_text(src: Seq<u8>, a: int, b: int) -> Option<Seq<char>> {
    if 0 <= a <= b <= src.len() && vstd::utf8::valid_utf8(src.subrange(a, b)) {
        Some(vstd::utf8::decode_utf8(src.subrange(a, b)))
    } else {
        None
    }
}

pub fn slice_text_exec(src: &[u8], a: usize, b: usize) -> (r: Option<String>)
    ensures
        r is Some <==> slice_text(src@, a as int, b as int) is Some,
        r matches Some(s) ==> slice_text(src@, a as int, b as int) == Some(s@),
{
    if a <= b && b <= src.len() {
        crate::text::string_from_utf8(&src[a..b])
    } else {
        None
    }
}

/// A callee usable in a key: not empty, and not itself a call or a closure.
pub open spec fn plain_callee(callee: Seq<char>, openers: Seq<char>) -> bool {
    callee.len() > 0 && forall|i: int| 0 <= i < callee.len() ==> !openers.contains(#[trigger] callee[i])
}

pub fn plain_callee_exec(callee: &Vec<char>, openers: &Vec<char>) -> (r: bool)
    ensures
        r == plain_callee(callee@, openers@),
{
    if callee.len() == 0 {
        return false;
    }
    let mut i: usize = 0;
    while i < callee.len()
        invariant
            0 <= i <= callee@.len(),
            forall|k: int| 0 <= k < i ==> !openers@.contains(#[trigger] callee@[k]),
        decreases callee@.len() - i,
    {
        let mut j: usize = 0;
        while j < openers.len()
            invariant
                0 <= i < callee@.len(),
                0 <= j <= openers@.len(),
                forall|m: int| 0 <= m < j ==> openers@[m] != callee@[i as int],
            decreases openers@.len() - j,
        {
            if openers[j] == callee[i] {
                assert(openers@.contains(callee@[i as int]));
                return false;
            }
            j = j + 1;
        }
        i = i + 1;
    }
    true
}

} // verus!

verus! {

pub proof fn lemma_decimal_len(n: nat)
    ensures
        decimal(n).len() >= 1,
        n >= 10 ==> decimal(n).len() >= 2,
    decreases n,
{
    if n >= 10 {
        lemma_decimal_len(n / 10);
    }
}

/// Two numbers spelled alike are equal.
pub proof fn lemma_decimal_injective(a: nat, b: nat)
    requires
        decimal(a) == decimal(b),
    ensures
        a == b,
    decreases a,
{
    lemma_decimal_len(a);
    lemma_decimal_len(b);
    if a < 10 && b < 10 {
        assert(decimal(a)[0] == digit(a));
        assert(decimal(b)[0] == digit(b));
    } else if a >= 10 && b >= 10 {
        assert(decimal(a).last() == digit(a % 10));
        assert(decimal(b).last() == digit(b % 10));
        assert(decimal(a).drop_last() == decimal(a / 10));
        assert(decimal(b).drop_last() == decimal(b / 10));
        lemma_decimal_injective(a / 10, b / 10);
    } else {
        assert(decimal(a).len() != decimal(b).len());
    }
}

} // verus!
