//! Java: overloads are told apart by their parameter types, so the types a parameter list
//! spells are read into a key, and a call reaches a method only when its arity fits.
use vstd::prelude::*;
use crate::language::CompiledLanguage;
use crate::naming::{compact_chars, spec_compact};
use crate::syntax::SyntaxTree;
use crate::text::{chars_of, contains, contains_lit, ends_with, ends_with_lit, opt_chars, push_lit, repeat};

verus! {

pub open spec fn is_type_noise(lang: &CompiledLanguage, t: &SyntaxTree, c: int) -> bool {
    lang.spec_kind_is(t, c, "type_arguments"@) || lang.spec_kind_is(t, c, "marker_annotation"@)
        || lang.spec_kind_is(t, c, "annotation"@)
}

pub open spec fn is_comment(lang: &CompiledLanguage, t: &SyntaxTree, c: int) -> bool {
    lang.spec_kind_is(t, c, "line_comment"@) || lang.spec_kind_is(t, c, "block_comment"@)
}

pub open spec fn is_parameter_noise(lang: &CompiledLanguage, t: &SyntaxTree, c: int) -> bool {
    lang.spec_kind_is(t, c, "modifiers"@) || lang.spec_kind_is(t, c, "variable_declarator"@)
        || lang.spec_kind_is(t, c, "marker_annotation"@) || lang.spec_kind_is(t, c, "annotation"@)
        || is_comment(lang, t, c)
}

/// The first node of `s` from `k` on that is not a type argument or annotation.
pub open spec fn type_base_from(lang: &CompiledLanguage, t: &SyntaxTree, s: Seq<usize>, k: int) -> Option<usize>
    decreases s.len() - k,
{
    if k < 0 || k >= s.len() {
        None
    } else if !is_type_noise(lang, t, s[k] as int) {
        Some(s[k])
    } else {
        type_base_from(lang, t, s, k + 1)
    }
}

/// The first node of `s` from `k` on that a written type can be.
pub open spec fn written_from(lang: &CompiledLanguage, t: &SyntaxTree, s: Seq<usize>, k: int) -> Option<usize>
    decreases s.len() - k,
{
    if k < 0 || k >= s.len() {
        None
    } else if !is_parameter_noise(lang, t, s[k] as int) {
        Some(s[k])
    } else {
        written_from(lang, t, s, k + 1)
    }
}

/// The last `type_identifier` among `s[..k]`.
pub open spec fn last_type_identifier(lang: &CompiledLanguage, t: &SyntaxTree, s: Seq<usize>, k: int) -> Option<usize>
    decreases k,
{
    if k <= 0 || k > s.len() {
        None
    } else if lang.spec_kind_is(t, s[k - 1] as int, "type_identifier"@) {
        Some(s[k - 1])
    } else {
        last_type_identifier(lang, t, s, k - 1)
    }
}

/// How many `[` a text holds.
pub open spec fn count_open_brackets(s: Seq<char>) -> nat
    decreases s.len(),
{
    if s.len() == 0 {
        0
    } else {
        count_open_brackets(s.drop_last()) + if s.last() == '[' { 1nat } else { 0nat }
    }
}

pub open spec fn spec_bracket_pairs(t: &SyntaxTree, src: Seq<u8>, d: int) -> nat {
    match t.spec_text(src, d) {
        Some(w) => count_open_brackets(w),
        None => 0,
    }
}

/// The type as its simple name, so `java.util.List<String>` and an imported `List<String>` key
/// alike; type arguments and annotations are dropped.
pub open spec fn spec_simple_type(lang: &CompiledLanguage, t: &SyntaxTree, src: Seq<u8>, n: int) -> Option<Seq<char>>
    decreases t.len() - n,
{
    if lang.spec_kind_is(t, n, "generic_type"@) || lang.spec_kind_is(t, n, "annotated_type"@) {
        match type_base_from(lang, t, t.spec_named_children(n), 0) {
            Some(b) => if n < b < t.len() {
                spec_simple_type(lang, t, src, b as int)
            } else {
                None
            },
            None => None,
        }
    } else if lang.spec_kind_is(t, n, "scoped_type_identifier"@) {
        let kids = t.spec_named_children(n);
        match last_type_identifier(lang, t, kids, kids.len() as int) {
            Some(c) => t.spec_text(src, c as int),
            None => None,
        }
    } else if lang.spec_kind_is(t, n, "array_type"@) {
        match (lang.spec_child_by_field_name(t, n, "element"@), lang.spec_child_by_field_name(t, n, "dimensions"@)) {
            (Some(e), Some(d)) => if n < e < t.len() {
                match spec_simple_type(lang, t, src, e as int) {
                    Some(s) => Some(s + repeat("[]"@, spec_bracket_pairs(t, src, d as int))),
                    None => None,
                }
            } else {
                None
            },
            _ => None,
        }
    } else {
        match t.spec_text(src, n) {
            Some(w) => Some(spec_compact(w)),
            None => None,
        }
    }
}

/// The type a parameter declares, `...` marking varargs. A receiver parameter is not one.
pub open spec fn spec_parameter_type(lang: &CompiledLanguage, t: &SyntaxTree, src: Seq<u8>, p: int) -> Option<Seq<char>> {
    if lang.spec_kind_is(t, p, "formal_parameter"@) {
        match lang.spec_child_by_field_name(t, p, "type"@) {
            Some(ty) => match spec_simple_type(lang, t, src, ty as int) {
                Some(base) => {
                    let dims = match lang.spec_child_by_field_name(t, p, "dimensions"@) {
                        Some(d) => spec_bracket_pairs(t, src, d as int),
                        None => 0,
                    };
                    Some(base + repeat("[]"@, dims))
                },
                None => None,
            },
            None => None,
        }
    } else if lang.spec_kind_is(t, p, "spread_parameter"@) {
        match written_from(lang, t, t.spec_named_children(p), 0) {
            Some(w) => match spec_simple_type(lang, t, src, w as int) {
                Some(base) => Some(base + "..."@),
                None => None,
            },
            None => None,
        }
    } else if lang.spec_kind_is(t, p, "ERROR"@) {
        match t.spec_text(src, p) {
            Some(all) => match written_from(lang, t, t.spec_named_children(p), 0) {
                Some(w) => match spec_simple_type(lang, t, src, w as int) {
                    Some(base) => Some(if contains(all, "..."@) { base + "..."@ } else { base }),
                    None => None,
                },
                None => None,
            },
            None => None,
        }
    } else {
        None
    }
}

pub fn bracket_pairs(t: &SyntaxTree, src: &[u8], d: usize) -> (r: usize)
    ensures
        r == spec_bracket_pairs(t, src@, d as int),
{
    let w = match opt_chars(&t.text(src, d)) {
        Some(w) => w,
        None => return 0,
    };
    let mut count: usize = 0;
    let mut i: usize = 0;
    while i < w.len()
        invariant
            0 <= i <= w@.len(),
            count == count_open_brackets(w@.subrange(0, i as int)),
            count <= i,
        decreases w@.len() - i,
    {
        proof {
            assert(w@.subrange(0, i + 1).drop_last() =~= w@.subrange(0, i as int));
        }
        if w[i] == '[' {
            count = count + 1;
        }
        i = i + 1;
    }
    proof {
        assert(w@.subrange(0, w@.len() as int) =~= w@);
    }
    count
}

fn push_brackets(s: &mut Vec<char>, n: usize)
    ensures
        final(s)@ == old(s)@ + repeat("[]"@, n as nat),
{
    let ghost start = s@;
    let mut i: usize = 0;
    while i < n
        invariant
            0 <= i <= n,
            s@ == start + repeat("[]"@, i as nat),
        decreases n - i,
    {
        push_lit(s, "[]");
        proof {
            assert(start + repeat("[]"@, (i + 1) as nat) =~= start + repeat("[]"@, i as nat) + "[]"@);
        }
        i = i + 1;
    }
}

fn type_base(lang: &CompiledLanguage, t: &SyntaxTree, n: usize) -> (r: Option<usize>)
    ensures
        r == type_base_from(lang, t, t.spec_named_children(n as int), 0),
{
    let kids = t.named_children(n);
    let mut k: usize = 0;
    while k < kids.len()
        invariant
            kids@ == t.spec_named_children(n as int),
            0 <= k <= kids@.len(),
            type_base_from(lang, t, kids@, 0) == type_base_from(lang, t, kids@, k as int),
        decreases kids@.len() - k,
    {
        let c = kids[k];
        if !(lang.kind_is(t, c, "type_arguments") || lang.kind_is(t, c, "marker_annotation") || lang.kind_is(t, c, "annotation")) {
            return Some(c);
        }
        k = k + 1;
    }
    None
}

pub fn written_type(lang: &CompiledLanguage, t: &SyntaxTree, n: usize) -> (r: Option<usize>)
    ensures
        r == written_from(lang, t, t.spec_named_children(n as int), 0),
{
    let kids = t.named_children(n);
    let mut k: usize = 0;
    while k < kids.len()
        invariant
            kids@ == t.spec_named_children(n as int),
            0 <= k <= kids@.len(),
            written_from(lang, t, kids@, 0) == written_from(lang, t, kids@, k as int),
        decreases kids@.len() - k,
    {
        let c = kids[k];
        let noise = lang.kind_is(t, c, "modifiers") || lang.kind_is(t, c, "variable_declarator")
            || lang.kind_is(t, c, "marker_annotation") || lang.kind_is(t, c, "annotation")
            || lang.kind_is(t, c, "line_comment") || lang.kind_is(t, c, "block_comment");
        if !noise {
            return Some(c);
        }
        k = k + 1;
    }
    None
}

pub fn simple_type(lang: &CompiledLanguage, t: &SyntaxTree, src: &[u8], n: usize) -> (r: Option<Vec<char>>)
    ensures
        r is Some <==> spec_simple_type(lang, t, src@, n as int) is Some,
        r matches Some(v) ==> spec_simple_type(lang, t, src@, n as int) == Some(v@),
    decreases t.len() - n,
{
    if lang.kind_is(t, n, "generic_type") || lang.kind_is(t, n, "annotated_type") {
        match type_base(lang, t, n) {
            Some(b) => if n < b && b < t.nodes.len() {
                simple_type(lang, t, src, b)
            } else {
                None
            },
            None => None,
        }
    } else if lang.kind_is(t, n, "scoped_type_identifier") {
        let kids = t.named_children(n);
        let mut k = kids.len();
        while k > 0
            invariant
                kids@ == t.spec_named_children(n as int),
                0 <= k <= kids@.len(),
                last_type_identifier(lang, t, kids@, kids@.len() as int) == last_type_identifier(lang, t, kids@, k as int),
                !(lang.spec_kind_is(t, n as int, "generic_type"@) || lang.spec_kind_is(t, n as int, "annotated_type"@)),
                lang.spec_kind_is(t, n as int, "scoped_type_identifier"@),
            decreases k,
        {
            if lang.kind_is(t, kids[k - 1], "type_identifier") {
                return opt_chars(&t.text(src, kids[k - 1]));
            }
            k = k - 1;
        }
        None
    } else if lang.kind_is(t, n, "array_type") {
        match (lang.child_by_field_name(t, n, "element"), lang.child_by_field_name(t, n, "dimensions")) {
            (Some(e), Some(d)) => if n < e && e < t.nodes.len() {
                match simple_type(lang, t, src, e) {
                    Some(mut s) => {
                        let pairs = bracket_pairs(t, src, d);
                        push_brackets(&mut s, pairs);
                        Some(s)
                    },
                    None => None,
                }
            } else {
                None
            },
            _ => None,
        }
    } else {
        match opt_chars(&t.text(src, n)) {
            Some(w) => Some(compact_chars(&w)),
            None => None,
        }
    }
}

pub fn parameter_type(lang: &CompiledLanguage, t: &SyntaxTree, src: &[u8], p: usize) -> (r: Option<Vec<char>>)
    ensures
        r is Some <==> spec_parameter_type(lang, t, src@, p as int) is Some,
        r matches Some(v) ==> spec_parameter_type(lang, t, src@, p as int) == Some(v@),
{
    if lang.kind_is(t, p, "formal_parameter") {
        let ty = match lang.child_by_field_name(t, p, "type") {
            Some(ty) => ty,
            None => return None,
        };
        let mut base = match simple_type(lang, t, src, ty) {
            Some(b) => b,
            None => return None,
        };
        let dims = match lang.child_by_field_name(t, p, "dimensions") {
            Some(d) => bracket_pairs(t, src, d),
            None => 0,
        };
        push_brackets(&mut base, dims);
        Some(base)
    } else if lang.kind_is(t, p, "spread_parameter") {
        let w = match written_type(lang, t, p) {
            Some(w) => w,
            None => return None,
        };
        match simple_type(lang, t, src, w) {
            Some(mut base) => {
                push_lit(&mut base, "...");
                Some(base)
            },
            None => None,
        }
    } else if lang.kind_is(t, p, "ERROR") {
        let all = match opt_chars(&t.text(src, p)) {
            Some(a) => a,
            None => return None,
        };
        let variadic = contains_lit(&all, "...");
        let w = match written_type(lang, t, p) {
            Some(w) => w,
            None => return None,
        };
        match simple_type(lang, t, src, w) {
            Some(mut base) => {
                if variadic {
                    push_lit(&mut base, "...");
                }
                Some(base)
            },
            None => None,
        }
    } else {
        None
    }
}

/// Arguments that are not comments, among `s[k..]`.
pub open spec fn count_arguments(lang: &CompiledLanguage, t: &SyntaxTree, s: Seq<usize>, k: int) -> nat
    decreases s.len() - k,
{
    if k < 0 || k >= s.len() {
        0
    } else {
        count_arguments(lang, t, s, k + 1) + if is_comment(lang, t, s[k] as int) { 0nat } else { 1nat }
    }
}

/// Over `s[k..]`: how many parameters a call must fill, and whether a vararg takes the rest.
pub open spec fn parameter_arity(lang: &CompiledLanguage, t: &SyntaxTree, src: Seq<u8>, s: Seq<usize>, k: int) -> (nat, bool)
    decreases s.len() - k,
{
    if k < 0 || k >= s.len() {
        (0, false)
    } else {
        let rest = parameter_arity(lang, t, src, s, k + 1);
        match spec_parameter_type(lang, t, src, s[k] as int) {
            Some(w) => if ends_with(w, "..."@) { (rest.0, true) } else { (rest.0 + 1, rest.1) },
            None => rest,
        }
    }
}

/// Overloads share a name, so a call recurses only when its argument count fits the method's
/// own parameters. A constructor, a static block or a lambda is never invoked by a name.
pub open spec fn spec_call_reaches_unit(lang: &CompiledLanguage, t: &SyntaxTree, src: Seq<u8>, call: int, unit: int) -> bool {
    if !lang.spec_kind_is(t, unit, "method_declaration"@) {
        false
    } else {
        match (lang.spec_child_by_field_name(t, call, "arguments"@), lang.spec_child_by_field_name(t, unit, "parameters"@)) {
            (Some(a), Some(p)) => {
                let given = count_arguments(lang, t, t.spec_named_children(a as int), 0);
                let (required, variadic) = parameter_arity(lang, t, src, t.spec_named_children(p as int), 0);
                if variadic { given >= required } else { given == required }
            },
            _ => false,
        }
    }
}

pub fn call_reaches_unit(lang: &CompiledLanguage, t: &SyntaxTree, src: &[u8], call: usize, unit: usize) -> (r: bool)
    ensures
        r == spec_call_reaches_unit(lang, t, src@, call as int, unit as int),
{
    if !lang.kind_is(t, unit, "method_declaration") {
        return false;
    }
    let (a, p) = match (lang.child_by_field_name(t, call, "arguments"), lang.child_by_field_name(t, unit, "parameters")) {
        (Some(a), Some(p)) => (a, p),
        _ => return false,
    };
    let args = t.named_children(a);
    let mut given: usize = 0;
    let mut k = args.len();
    while k > 0
        invariant
            args@ == t.spec_named_children(a as int),
            0 <= k <= args@.len(),
            given == count_arguments(lang, t, args@, k as int),
            given <= args@.len() - k,
        decreases k,
    {
        k = k - 1;
        let c = args[k];
        if !(lang.kind_is(t, c, "line_comment") || lang.kind_is(t, c, "block_comment")) {
            given = given + 1;
        }
    }
    let params = t.named_children(p);
    let mut required: usize = 0;
    let mut variadic = false;
    let mut j = params.len();
    while j > 0
        invariant
            params@ == t.spec_named_children(p as int),
            0 <= j <= params@.len(),
            (required as nat, variadic) == parameter_arity(lang, t, src@, params@, j as int),
            required <= params@.len() - j,
        decreases j,
    {
        j = j - 1;
        match parameter_type(lang, t, src, params[j]) {
            Some(w) => {
                if ends_with_lit(&w, "...") {
                    variadic = true;
                } else {
                    required = required + 1;
                }
            },
            None => {},
        }
    }
    if variadic {
        given >= required
    } else {
        given == required
    }
}

} // verus!
