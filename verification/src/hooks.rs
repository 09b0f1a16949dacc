//! The grammar-specific answers the walker asks for: how a language spells its logical
//! operators, which jumps it penalises, how it reads a call and an if-chain.
use vstd::prelude::*;
use crate::language::{CompiledLanguage, Role};
use crate::spec::Dialect;
use crate::syntax::SyntaxTree;
use crate::text::{chars_of, str_eq};

verus! {

/// A logical operator after normalisation; a run is a stretch of equal ones.
#[derive(Clone, Copy, PartialEq, Eq, Debug, Structural)]
pub enum LogicalOp {
    And,
    Or,
    Xor,
}

/// The name a call invokes, and the receiver it is invoked through.
#[derive(Clone, Copy, PartialEq, Eq, Debug, Structural)]
pub struct Callee {
    pub receiver: Option<usize>,
    pub name: usize,
}

/// One piece of an `if`, as its language reads the tree.
#[derive(Clone, Copy, PartialEq, Eq, Debug, Structural)]
pub enum IfPart {
    /// Scored at the if's own depth.
    Header(usize),
    /// Scored one level deeper.
    Then(usize),
    /// The next link of the chain, scored a flat +1.
    ElseIf(usize),
    /// +1, with its body one level deeper.
    Else(Option<usize>),
    /// Walked at the if's depth.
    Unrecognised(usize),
}

/// `c`, lower-cased as `char::to_ascii_lowercase` does, equals `l`.
pub open spec fn lower_char_is(c: char, l: char) -> bool {
    if 'A' <= c && c <= 'Z' {
        (c as u32) + 32 == (l as u32)
    } else {
        c == l
    }
}

/// `s.to_ascii_lowercase() == lit`.
pub open spec fn lower_is(s: Seq<char>, lit: Seq<char>) -> bool {
    s.len() == lit.len() && forall|i: int| 0 <= i < s.len() ==> lower_char_is(#[trigger] s[i], lit[i])
}

pub fn lower_is_lit(s: &str, lit: &str) -> (r: bool)
    ensures
        r == lower_is(s@, lit@),
{
    let a = chars_of(s);
    let b = chars_of(lit);
    if a.len() != b.len() {
        return false;
    }
    let mut i: usize = 0;
    while i < a.len()
        invariant
            a@ == s@,
            b@ == lit@,
            a@.len() == b@.len(),
            0 <= i <= a@.len(),
            forall|k: int| 0 <= k < i ==> lower_char_is(#[trigger] a@[k], b@[k]),
        decreases a@.len() - i,
    {
        let c = a[i];
        let l = b[i];
        let ok = if 'A' <= c && c <= 'Z' {
            (c as u32) + 32 == (l as u32)
        } else {
            c == l
        };
        if !ok {
            return false;
        }
        i = i + 1;
    }
    true
}

/// How each language's logical operators normalise for run-counting. PHP's `and`/`or` are the
/// same operators as `&&`/`||`, in any case; `??` and the bitwise operators are not logical.
pub open spec fn spec_normalize_logical_operator(d: Dialect, op: Seq<char>) -> Option<LogicalOp> {
    match d {
        Dialect::Php => if lower_is(op, "&&"@) || lower_is(op, "and"@) {
            Some(LogicalOp::And)
        } else if lower_is(op, "||"@) || lower_is(op, "or"@) {
            Some(LogicalOp::Or)
        } else if lower_is(op, "xor"@) {
            Some(LogicalOp::Xor)
        } else {
            None
        },
        Dialect::Python => if op == "and"@ {
            Some(LogicalOp::And)
        } else if op == "or"@ {
            Some(LogicalOp::Or)
        } else {
            None
        },
        _ => if op == "&&"@ {
            Some(LogicalOp::And)
        } else if op == "||"@ {
            Some(LogicalOp::Or)
        } else {
            None
        },
    }
}

pub fn normalize_logical_operator(d: Dialect, op: &str) -> (r: Option<LogicalOp>)
    ensures
        r == spec_normalize_logical_operator(d, op@),
{
    match d {
        Dialect::Php => {
            if lower_is_lit(op, "&&") || lower_is_lit(op, "and") {
                Some(LogicalOp::And)
            } else if lower_is_lit(op, "||") || lower_is_lit(op, "or") {
                Some(LogicalOp::Or)
            } else if lower_is_lit(op, "xor") {
                Some(LogicalOp::Xor)
            } else {
                None
            }
        },
        Dialect::Python => {
            if str_eq(op, "and") {
                Some(LogicalOp::And)
            } else if str_eq(op, "or") {
                Some(LogicalOp::Or)
            } else {
                None
            }
        },
        _ => {
            if str_eq(op, "&&") {
                Some(LogicalOp::And)
            } else if str_eq(op, "||") {
                Some(LogicalOp::Or)
            } else {
                None
            }
        },
    }
}

/// The value of a non-empty run of ASCII digits.
pub open spec fn digits_value(s: Seq<char>) -> Option<nat>
    decreases s.len(),
{
    if s.len() == 0 {
        None
    } else if !('0' <= s.last() && s.last() <= '9') {
        None
    } else {
        let d = (s.last() as u32 - '0' as u32) as nat;
        if s.len() == 1 {
            Some(d)
        } else {
            match digits_value(s.drop_last()) {
                Some(v) => Some(v * 10 + d),
                None => None,
            }
        }
    }
}

/// `str::parse::<u32>`: an optional `+`, then decimal digits whose value fits.
pub open spec fn spec_parse_u32(s: Seq<char>) -> Option<u32> {
    let digits = if s.len() > 0 && s[0] == '+' { s.drop_first() } else { s };
    match digits_value(digits) {
        Some(v) => if v <= u32::MAX { Some(v as u32) } else { None },
        None => None,
    }
}

pub fn parse_u32(s: &str) -> (r: Option<u32>)
    ensures
        r == spec_parse_u32(s@),
{
    let c = chars_of(s);
    let start: usize = if c.len() > 0 && c[0] == '+' { 1 } else { 0 };
    let ghost digits = if s@.len() > 0 && s@[0] == '+' { s@.drop_first() } else { s@ };
    proof {
        assert(digits =~= c@.subrange(start as int, c@.len() as int));
    }
    if start >= c.len() {
        return None;
    }
    let mut value: u64 = 0;
    let mut i = start;
    while i < c.len()
        invariant
            c@ == s@,
            start < c@.len(),
            digits == c@.subrange(start as int, c@.len() as int),
            digits == (if s@.len() > 0 && s@[0] == '+' { s@.drop_first() } else { s@ }),
            start <= i <= c@.len(),
            i > start ==> digits_value(c@.subrange(start as int, i as int)) == Some(value as nat),
            i == start ==> value == 0,
            value <= u32::MAX,
        decreases c@.len() - i,
    {
        let ch = c[i];
        proof {
            assert(c@.subrange(start as int, i + 1).drop_last() =~= c@.subrange(start as int, i as int));
            assert(c@.subrange(start as int, i + 1).last() == ch);
        }
        if !('0' <= ch && ch <= '9') {
            proof {
                assert(c@.subrange(start as int, c@.len() as int)[i - start] == ch);
                lemma_digits_prefix_fails(c@.subrange(start as int, c@.len() as int), (i - start) as int);
                assert(digits_value(digits) is None);
            }
            return None;
        }
        let d = (ch as u32 - '0' as u32) as u64;
        value = value * 10 + d;
        assert(digits_value(c@.subrange(start as int, i + 1)) == Some(value as nat));
        if value > 4294967295 {
            proof {
                assert(c@.subrange(start as int, c@.len() as int).subrange(0, i - start + 1) =~= c@.subrange(start as int, i + 1));
                lemma_digits_prefix_big(c@.subrange(start as int, c@.len() as int), (i - start + 1) as int);
            }
            return None;
        }
        i = i + 1;
    }
    proof {
        assert(c@.subrange(start as int, c@.len() as int) =~= digits);
    }
    Some(value as u32)
}

/// A non-digit anywhere makes the whole run fail.
proof fn lemma_digits_prefix_fails(s: Seq<char>, k: int)
    requires
        0 <= k < s.len(),
        !('0' <= s[k] && s[k] <= '9'),
    ensures
        digits_value(s) is None,
        digits_value(s.subrange(0, k + 1)) is None,
    decreases s.len(),
{
    if k < s.len() - 1 {
        lemma_digits_prefix_fails(s.drop_last(), k);
        assert(s.drop_last().subrange(0, k + 1) =~= s.subrange(0, k + 1));
    } else {
        assert(s.subrange(0, k + 1) =~= s);
    }
}

/// A prefix too large for `u32` keeps the whole run too large.
proof fn lemma_digits_prefix_big(s: Seq<char>, k: int)
    requires
        0 < k <= s.len(),
        digits_value(s.subrange(0, k)) matches Some(v) && v > u32::MAX,
    ensures
        digits_value(s) is None || digits_value(s).unwrap() > u32::MAX,
    decreases s.len(),
{
    if k < s.len() {
        assert(s.drop_last().subrange(0, k) =~= s.subrange(0, k));
        lemma_digits_prefix_big(s.drop_last(), k);
    } else {
        assert(s.subrange(0, k) =~= s);
    }
}

} // verus!

verus! {

/// A node's text, when it can be read.
pub open spec fn text_of(t: &SyntaxTree, src: Seq<u8>, n: Option<usize>) -> Option<Seq<char>> {
    match n {
        Some(n) => t.spec_text(src, n as int),
        None => None,
    }
}

/// The normalised operator of a logical node, `None` for a node that is not one.
pub open spec fn spec_logical_operator(lang: &CompiledLanguage, t: &SyntaxTree, src: Seq<u8>, n: int) -> Option<LogicalOp> {
    if lang.spec_role(t, n) != Role::Logical {
        None
    } else {
        match text_of(t, src, t.spec_field(n, lang.fields.logical_operator)) {
            Some(op) => spec_normalize_logical_operator(lang.spec.hooks, op),
            None => None,
        }
    }
}

pub fn logical_operator(lang: &CompiledLanguage, t: &SyntaxTree, src: &[u8], n: usize) -> (r: Option<LogicalOp>)
    ensures
        r == spec_logical_operator(lang, t, src@, n as int),
{
    if lang.role(t, n) != Role::Logical {
        return None;
    }
    let op = match t.child_by_field(n, lang.fields.logical_operator) {
        Some(o) => o,
        None => return None,
    };
    match t.text(src, op) {
        Some(text) => normalize_logical_operator(lang.spec.hooks, text.as_str()),
        None => None,
    }
}

/// Whether a jump breaks the flow: a labelled `break`/`continue`, or PHP's `break 2`.
pub open spec fn spec_is_penalized_jump(lang: &CompiledLanguage, t: &SyntaxTree, src: Seq<u8>, n: int) -> bool {
    match lang.spec.hooks {
        Dialect::Go => lang.spec_has_named_kind(t, n, "label_name"@),
        Dialect::Java => lang.spec_has_named_kind(t, n, "identifier"@),
        Dialect::TypeScript => lang.spec_child_by_field_name(t, n, "label"@) is Some,
        Dialect::Python => false,
        Dialect::Php => {
            let kids = t.spec_named_children(n);
            kids.len() > 0 && lang.spec_kind_is(t, kids[0] as int, "integer"@) && match t.spec_text(src, kids[0] as int) {
                Some(s) => match spec_parse_u32(s) {
                    Some(v) => v > 1,
                    None => false,
                },
                None => false,
            }
        },
    }
}

pub fn is_penalized_jump(lang: &CompiledLanguage, t: &SyntaxTree, src: &[u8], n: usize) -> (r: bool)
    ensures
        r == spec_is_penalized_jump(lang, t, src@, n as int),
{
    match lang.spec.hooks {
        Dialect::Go => lang.has_named_kind(t, n, "label_name"),
        Dialect::Java => lang.has_named_kind(t, n, "identifier"),
        Dialect::TypeScript => lang.child_by_field_name(t, n, "label").is_some(),
        Dialect::Python => false,
        Dialect::Php => {
            let kids = t.named_children(n);
            if kids.len() == 0 || !lang.kind_is(t, kids[0], "integer") {
                return false;
            }
            match t.text(src, kids[0]) {
                Some(s) => match parse_u32(s.as_str()) {
                    Some(v) => v > 1,
                    None => false,
                },
                None => false,
            }
        },
    }
}

/// A callee spelt as a bare name, or as a member reached through a receiver.
pub open spec fn spec_member_callee(
    lang: &CompiledLanguage,
    t: &SyntaxTree,
    f: int,
    member: Seq<char>,
    receiver: Seq<char>,
    name: Seq<char>,
) -> Option<Callee> {
    if lang.spec_kind_is(t, f, "identifier"@) {
        Some(Callee { receiver: None, name: f as usize })
    } else if lang.spec_kind_is(t, f, member) {
        match lang.spec_child_by_field_name(t, f, name) {
            Some(nm) => Some(Callee { receiver: lang.spec_child_by_field_name(t, f, receiver), name: nm }),
            None => None,
        }
    } else {
        None
    }
}

/// What a call node invokes, read the way each language's grammar shapes a call.
pub open spec fn spec_resolve_callee(lang: &CompiledLanguage, t: &SyntaxTree, n: int) -> Option<Callee> {
    match lang.spec.hooks {
        Dialect::TypeScript => match lang.spec_child_by_field_name(t, n, "function"@) {
            Some(f) => spec_member_callee(lang, t, f as int, "member_expression"@, "object"@, "property"@),
            None => None,
        },
        Dialect::Go => match lang.spec_child_by_field_name(t, n, "function"@) {
            Some(f) => spec_member_callee(lang, t, f as int, "selector_expression"@, "operand"@, "field"@),
            None => None,
        },
        Dialect::Python => match lang.spec_child_by_field_name(t, n, "function"@) {
            Some(f) => spec_member_callee(lang, t, f as int, "attribute"@, "object"@, "attribute"@),
            None => None,
        },
        Dialect::Java => match lang.spec_child_by_field_name(t, n, "name"@) {
            Some(nm) => {
                let receiver = match lang.spec_named_child_of_kind(t, n, "super"@) {
                    Some(s) => Some(s),
                    None => lang.spec_child_by_field_name(t, n, "object"@),
                };
                Some(Callee { receiver, name: nm })
            },
            None => None,
        },
        Dialect::Php => if lang.spec_kind_is(t, n, "function_call_expression"@) {
            match lang.spec_child_by_field_name(t, n, "function"@) {
                Some(f) => Some(Callee { receiver: None, name: f }),
                None => None,
            }
        } else if lang.spec_kind_is(t, n, "member_call_expression"@) {
            match lang.spec_child_by_field_name(t, n, "name"@) {
                Some(nm) => Some(Callee { receiver: lang.spec_child_by_field_name(t, n, "object"@), name: nm }),
                None => None,
            }
        } else if lang.spec_kind_is(t, n, "scoped_call_expression"@) {
            match lang.spec_child_by_field_name(t, n, "name"@) {
                Some(nm) => Some(Callee { receiver: lang.spec_child_by_field_name(t, n, "scope"@), name: nm }),
                None => None,
            }
        } else {
            None
        },
    }
}

fn member_callee(
    lang: &CompiledLanguage,
    t: &SyntaxTree,
    f: usize,
    member: &str,
    receiver: &str,
    name: &str,
) -> (r: Option<Callee>)
    ensures
        r == spec_member_callee(lang, t, f as int, member@, receiver@, name@),
{
    if lang.kind_is(t, f, "identifier") {
        Some(Callee { receiver: None, name: f })
    } else if lang.kind_is(t, f, member) {
        match lang.child_by_field_name(t, f, name) {
            Some(nm) => Some(Callee { receiver: lang.child_by_field_name(t, f, receiver), name: nm }),
            None => None,
        }
    } else {
        None
    }
}

pub fn resolve_callee(lang: &CompiledLanguage, t: &SyntaxTree, n: usize) -> (r: Option<Callee>)
    ensures
        r == spec_resolve_callee(lang, t, n as int),
{
    match lang.spec.hooks {
        Dialect::TypeScript => match lang.child_by_field_name(t, n, "function") {
            Some(f) => member_callee(lang, t, f, "member_expression", "object", "property"),
            None => None,
        },
        Dialect::Go => match lang.child_by_field_name(t, n, "function") {
            Some(f) => member_callee(lang, t, f, "selector_expression", "operand", "field"),
            None => None,
        },
        Dialect::Python => match lang.child_by_field_name(t, n, "function") {
            Some(f) => member_callee(lang, t, f, "attribute", "object", "attribute"),
            None => None,
        },
        Dialect::Java => match lang.child_by_field_name(t, n, "name") {
            Some(nm) => {
                let receiver = match lang.named_child_of_kind(t, n, "super") {
                    Some(s) => Some(s),
                    None => lang.child_by_field_name(t, n, "object"),
                };
                Some(Callee { receiver, name: nm })
            },
            None => None,
        },
        Dialect::Php => if lang.kind_is(t, n, "function_call_expression") {
            match lang.child_by_field_name(t, n, "function") {
                Some(f) => Some(Callee { receiver: None, name: f }),
                None => None,
            }
        } else if lang.kind_is(t, n, "member_call_expression") {
            match lang.child_by_field_name(t, n, "name") {
                Some(nm) => Some(Callee { receiver: lang.child_by_field_name(t, n, "object"), name: nm }),
                None => None,
            }
        } else if lang.kind_is(t, n, "scoped_call_expression") {
            match lang.child_by_field_name(t, n, "name") {
                Some(nm) => Some(Callee { receiver: lang.child_by_field_name(t, n, "scope"), name: nm }),
                None => None,
            }
        } else {
            None
        },
    }
}

/// The first named child, from position `k` of `s`, that is not a comment.
pub open spec fn first_significant_from(lang: &CompiledLanguage, t: &SyntaxTree, s: Seq<usize>, k: int) -> Option<usize>
    decreases s.len() - k,
{
    if k < 0 || k >= s.len() {
        None
    } else if lang.spec_role(t, s[k] as int) != Role::Trivia {
        Some(s[k])
    } else {
        first_significant_from(lang, t, s, k + 1)
    }
}

/// Comments are named children too, so `else /* why */ { ... }` must skip them.
pub open spec fn spec_first_significant_named_child(lang: &CompiledLanguage, t: &SyntaxTree, n: int) -> Option<usize> {
    first_significant_from(lang, t, t.spec_named_children(n), 0)
}

pub fn first_significant_named_child(lang: &CompiledLanguage, t: &SyntaxTree, n: usize) -> (r: Option<usize>)
    ensures
        r == spec_first_significant_named_child(lang, t, n as int),
{
    let kids = t.named_children(n);
    let mut k: usize = 0;
    while k < kids.len()
        invariant
            kids@ == t.spec_named_children(n as int),
            0 <= k <= kids@.len(),
            spec_first_significant_named_child(lang, t, n as int) == first_significant_from(lang, t, kids@, k as int),
        decreases kids@.len() - k,
    {
        if lang.role(t, kids[k]) != Role::Trivia {
            return Some(kids[k]);
        }
        k = k + 1;
    }
    None
}

} // verus!

verus! {

/// `else if` written as two words is an else clause wrapping an `if`: the inner `if` is the
/// next link, and the `else` adds nothing.
pub open spec fn spec_else_part(lang: &CompiledLanguage, t: &SyntaxTree, e: int) -> IfPart {
    let body = match t.spec_field(e, lang.fields.else_body) {
        Some(b) => Some(b),
        None => spec_first_significant_named_child(lang, t, e),
    };
    match body {
        Some(inner) => if lang.spec_role(t, inner as int) == Role::If {
            IfPart::ElseIf(inner)
        } else {
            IfPart::Else(Some(inner))
        },
        None => IfPart::Else(None),
    }
}

pub open spec fn spec_alternative_part(lang: &CompiledLanguage, t: &SyntaxTree, a: int) -> IfPart {
    if lang.spec_role(t, a) == Role::ElseIf {
        IfPart::ElseIf(a as usize)
    } else if lang.spec_role(t, a) == Role::Else {
        spec_else_part(lang, t, a)
    } else {
        IfPart::Unrecognised(a as usize)
    }
}

/// Every child of `n` under field `f`, from position `k` on, read as an alternative.
pub open spec fn alternatives_from(lang: &CompiledLanguage, t: &SyntaxTree, n: int, f: u16, k: int) -> Seq<IfPart>
    decreases t.kids(n).len() - k,
{
    if k < 0 || k >= t.kids(n).len() {
        Seq::empty()
    } else if t.spec_field_id(t.kids(n)[k] as int) == Some(f) {
        seq![spec_alternative_part(lang, t, t.kids(n)[k] as int)] + alternatives_from(lang, t, n, f, k + 1)
    } else {
        alternatives_from(lang, t, n, f, k + 1)
    }
}

pub open spec fn opt_part(n: Option<usize>, then: bool) -> Seq<IfPart> {
    match n {
        Some(c) => if then { seq![IfPart::Then(c)] } else { seq![IfPart::Header(c)] },
        None => Seq::empty(),
    }
}

/// How an if-chain reads through the spec's field names and else/else-if kinds.
pub open spec fn spec_if_parts_by_fields(lang: &CompiledLanguage, t: &SyntaxTree, n: int) -> Seq<IfPart> {
    let header = opt_part(t.spec_field(n, lang.fields.condition), false);
    if lang.spec_role(t, n) == Role::ElseIf {
        header + opt_part(t.spec_field(n, lang.fields.body), true)
    } else {
        let then = opt_part(t.spec_field(n, lang.fields.if_then), true);
        match lang.fields.if_alternative {
            Some(alt) => if 0 <= n < t.len() {
                header + then + alternatives_from(lang, t, n, alt, 0)
            } else {
                header + then
            },
            None => header + then,
        }
    }
}

/// One child of a Go or Java `if`, read by the field it sits under.
pub open spec fn spec_fielded_part(lang: &CompiledLanguage, t: &SyntaxTree, c: int) -> Option<IfPart> {
    let field = t.spec_field_id(c);
    if field is None || !t.spec_named(c) {
        None
    } else {
        match lang.spec.hooks {
            Dialect::Java => if field == lang.fields.condition {
                Some(IfPart::Header(c as usize))
            } else if field == lang.fields.if_then {
                Some(IfPart::Then(c as usize))
            } else if field == lang.fields.if_alternative {
                if lang.spec_kind_is(t, c, "if_statement"@) {
                    Some(IfPart::ElseIf(c as usize))
                } else {
                    Some(IfPart::Else(Some(c as usize)))
                }
            } else {
                None
            },
            _ => if field == lang.fields.if_then {
                Some(IfPart::Then(c as usize))
            } else if field == lang.fields.if_alternative {
                if lang.spec_kind_is(t, c, "if_statement"@) {
                    Some(IfPart::ElseIf(c as usize))
                } else if lang.spec_kind_is(t, c, "block"@) {
                    Some(IfPart::Else(Some(c as usize)))
                } else {
                    Some(IfPart::Unrecognised(c as usize))
                }
            } else if field == lang.fields.condition || lang.spec_is_header_field(field) {
                Some(IfPart::Header(c as usize))
            } else {
                None
            },
        }
    }
}

pub open spec fn fielded_parts_from(lang: &CompiledLanguage, t: &SyntaxTree, n: int, k: int) -> Seq<IfPart>
    decreases t.kids(n).len() - k,
{
    if k < 0 || k >= t.kids(n).len() {
        Seq::empty()
    } else {
        match spec_fielded_part(lang, t, t.kids(n)[k] as int) {
            Some(p) => seq![p] + fielded_parts_from(lang, t, n, k + 1),
            None => fielded_parts_from(lang, t, n, k + 1),
        }
    }
}

/// The parts of an if or else-if node, in the order the grammar holds them.
pub open spec fn spec_if_parts(lang: &CompiledLanguage, t: &SyntaxTree, n: int) -> Seq<IfPart> {
    match lang.spec.hooks {
        Dialect::Go | Dialect::Java => if 0 <= n < t.len() {
            fielded_parts_from(lang, t, n, 0)
        } else {
            Seq::empty()
        },
        Dialect::Python => if lang.spec_role(t, n) != Role::ElseIf {
            spec_if_parts_by_fields(lang, t, n)
        } else {
            opt_part(t.spec_field(n, lang.fields.condition), false) + opt_part(t.spec_field(n, lang.fields.if_then), true)
        },
        _ => spec_if_parts_by_fields(lang, t, n),
    }
}

pub fn else_part(lang: &CompiledLanguage, t: &SyntaxTree, e: usize) -> (r: IfPart)
    ensures
        r == spec_else_part(lang, t, e as int),
{
    let body = match t.child_by_field(e, lang.fields.else_body) {
        Some(b) => Some(b),
        None => first_significant_named_child(lang, t, e),
    };
    match body {
        Some(inner) => if lang.role(t, inner) == Role::If {
            IfPart::ElseIf(inner)
        } else {
            IfPart::Else(Some(inner))
        },
        None => IfPart::Else(None),
    }
}

fn opt_push(parts: &mut Vec<IfPart>, n: Option<usize>, then: bool)
    ensures
        final(parts)@ == old(parts)@ + opt_part(n, then),
{
    match n {
        Some(c) => {
            if then {
                parts.push(IfPart::Then(c));
            } else {
                parts.push(IfPart::Header(c));
            }
        },
        None => {},
    }
    assert(final(parts)@ =~= old(parts)@ + opt_part(n, then));
}

pub fn if_parts_by_fields(lang: &CompiledLanguage, t: &SyntaxTree, n: usize) -> (r: Vec<IfPart>)
    ensures
        r@ == spec_if_parts_by_fields(lang, t, n as int),
{
    let mut parts: Vec<IfPart> = Vec::new();
    opt_push(&mut parts, t.child_by_field(n, lang.fields.condition), false);
    if lang.role(t, n) == Role::ElseIf {
        opt_push(&mut parts, t.child_by_field(n, lang.fields.body), true);
        return parts;
    }
    opt_push(&mut parts, t.child_by_field(n, lang.fields.if_then), true);
    let alt = match lang.fields.if_alternative {
        Some(a) => a,
        None => return parts,
    };
    if n >= t.nodes.len() {
        return parts;
    }
    let kids = t.children(n);
    let ghost before = parts@;
    let mut k: usize = 0;
    while k < kids.len()
        invariant
            n < t.len(),
            kids@ == t.kids(n as int),
            0 <= k <= kids@.len(),
            parts@ + alternatives_from(lang, t, n as int, alt, k as int) == before + alternatives_from(lang, t, n as int, alt, 0),
        decreases kids@.len() - k,
    {
        let c = kids[k];
        let hit = match t.field_id(c) {
            Some(f) => f == alt,
            None => false,
        };
        if hit {
            let part = if lang.role(t, c) == Role::ElseIf {
                IfPart::ElseIf(c)
            } else if lang.role(t, c) == Role::Else {
                else_part(lang, t, c)
            } else {
                IfPart::Unrecognised(c)
            };
            proof {
                assert(parts@.push(part) + alternatives_from(lang, t, n as int, alt, k + 1) =~= parts@ + alternatives_from(lang, t, n as int, alt, k as int));
            }
            parts.push(part);
        }
        k = k + 1;
    }
    proof {
        assert(parts@ + alternatives_from(lang, t, n as int, alt, k as int) =~= parts@);
        assert(before + alternatives_from(lang, t, n as int, alt, 0) =~= spec_if_parts_by_fields(lang, t, n as int));
    }
    parts
}

fn fielded_part(lang: &CompiledLanguage, t: &SyntaxTree, c: usize) -> (r: Option<IfPart>)
    ensures
        r == spec_fielded_part(lang, t, c as int),
{
    let field = t.field_id(c);
    if field.is_none() || !t.is_named(c) {
        return None;
    }
    let is_cond = field == lang.fields.condition;
    let is_then = field == lang.fields.if_then;
    let is_alt = field == lang.fields.if_alternative;
    match lang.spec.hooks {
        Dialect::Java => if is_cond {
            Some(IfPart::Header(c))
        } else if is_then {
            Some(IfPart::Then(c))
        } else if is_alt {
            if lang.kind_is(t, c, "if_statement") {
                Some(IfPart::ElseIf(c))
            } else {
                Some(IfPart::Else(Some(c)))
            }
        } else {
            None
        },
        _ => if is_then {
            Some(IfPart::Then(c))
        } else if is_alt {
            if lang.kind_is(t, c, "if_statement") {
                Some(IfPart::ElseIf(c))
            } else if lang.kind_is(t, c, "block") {
                Some(IfPart::Else(Some(c)))
            } else {
                Some(IfPart::Unrecognised(c))
            }
        } else if is_cond || lang.is_header_field(field) {
            Some(IfPart::Header(c))
        } else {
            None
        },
    }
}

pub fn if_parts(lang: &CompiledLanguage, t: &SyntaxTree, n: usize) -> (r: Vec<IfPart>)
    ensures
        r@ == spec_if_parts(lang, t, n as int),
{
    match lang.spec.hooks {
        Dialect::Go | Dialect::Java => {
            let mut parts: Vec<IfPart> = Vec::new();
            if n >= t.nodes.len() {
                return parts;
            }
            let kids = t.children(n);
            let mut k: usize = 0;
            while k < kids.len()
                invariant
                    n < t.len(),
                    kids@ == t.kids(n as int),
                    0 <= k <= kids@.len(),
                    parts@ + fielded_parts_from(lang, t, n as int, k as int) == fielded_parts_from(lang, t, n as int, 0),
                decreases kids@.len() - k,
            {
                match fielded_part(lang, t, kids[k]) {
                    Some(p) => {
                        proof {
                            assert(parts@.push(p) + fielded_parts_from(lang, t, n as int, k + 1) =~= parts@ + fielded_parts_from(lang, t, n as int, k as int));
                        }
                        parts.push(p);
                    },
                    None => {},
                }
                k = k + 1;
            }
            proof {
                assert(parts@ + fielded_parts_from(lang, t, n as int, k as int) =~= parts@);
            }
            parts
        },
        Dialect::Python => {
            if lang.role(t, n) != Role::ElseIf {
                return if_parts_by_fields(lang, t, n);
            }
            let mut parts: Vec<IfPart> = Vec::new();
            opt_push(&mut parts, t.child_by_field(n, lang.fields.condition), false);
            opt_push(&mut parts, t.child_by_field(n, lang.fields.if_then), true);
            assert(parts@ =~= spec_if_parts(lang, t, n as int));
            parts
        },
        _ => if_parts_by_fields(lang, t, n),
    }
}

} // verus!

verus! {

/// The last child of `p` before position `j + 1` that is not an extra.
pub open spec fn prev_non_extra_from(t: &SyntaxTree, p: int, j: int) -> Option<usize>
    decreases j + 1,
{
    if j < 0 || j >= t.kids(p).len() || t.kids(p)[j] >= t.len() {
        None
    } else if t.spec_extra(t.kids(p)[j] as int) {
        prev_non_extra_from(t, p, j - 1)
    } else {
        Some(t.kids(p)[j])
    }
}

/// Python's `a if c else b` leaves its condition unfielded between the two branches: it is the
/// child right after the `if` token, comments aside.
pub open spec fn spec_is_control_header(lang: &CompiledLanguage, t: &SyntaxTree, control: int, child: int) -> bool {
    lang.spec.hooks == Dialect::Python && lang.spec_kind_is(t, control, "conditional_expression"@)
        && match t.spec_parent(child) {
        Some(p) => match prev_non_extra_from(t, p as int, t.node(child).index_in_parent - 1) {
            Some(prev) => lang.spec_kind_is(t, prev as int, "if"@),
            None => false,
        },
        None => false,
    }
}

#[verifier::loop_isolation(false)]
pub fn is_control_header(lang: &CompiledLanguage, t: &SyntaxTree, control: usize, child: usize) -> (r: bool)
    ensures
        r == spec_is_control_header(lang, t, control as int, child as int),
{
    if lang.spec.hooks != Dialect::Python || !lang.kind_is(t, control, "conditional_expression") {
        return false;
    }
    let p = match t.parent(child) {
        Some(p) => p,
        None => return false,
    };
    let kids = t.children(p);
    let idx = t.nodes[child].index_in_parent;
    let mut j = idx;
    while j > 0
        invariant
            p < t.len(),
            kids@ == t.kids(p as int),
            j <= idx,
            prev_non_extra_from(t, p as int, idx - 1) == prev_non_extra_from(t, p as int, j - 1),
        decreases j,
    {
        if j - 1 >= kids.len() || kids[j - 1] >= t.nodes.len() {
            return false;
        }
        let c = kids[j - 1];
        if !t.is_extra(c) {
            return lang.kind_is(t, c, "if");
        }
        j = j - 1;
    }
    false
}

/// A call the grammar lets reach this very unit. Only Java, where overloads share a name,
/// narrows it by arity.
pub open spec fn spec_call_reaches_unit(lang: &CompiledLanguage, t: &SyntaxTree, src: Seq<u8>, call: int, unit: int) -> bool {
    match lang.spec.hooks {
        Dialect::Java => crate::java::spec_call_reaches_unit(lang, t, src, call, unit),
        _ => true,
    }
}

pub fn call_reaches_unit(lang: &CompiledLanguage, t: &SyntaxTree, src: &[u8], call: usize, unit: usize) -> (r: bool)
    ensures
        r == spec_call_reaches_unit(lang, t, src@, call as int, unit as int),
{
    match lang.spec.hooks {
        Dialect::Java => crate::java::call_reaches_unit(lang, t, src, call, unit),
        _ => true,
    }
}

} // verus!
