//! How TypeScript and JavaScript name their units and where a marker above one sits.
use vstd::prelude::*;
use crate::finding::{NameOrigin, UnitName, UnitScope, ANONYMOUS_UNIT};
use crate::language::CompiledLanguage;
use crate::names::{field_is, field_text, field_text_exec, index_from, is_field, keep, keyed, position, spec_keyed};
use crate::naming::{compact, spec_compact, spec_strip_quotes, strip_quotes};
use crate::syntax::SyntaxTree;

verus! {

/// The function-likes a TypeScript file is scored by.
pub open spec fn is_unit_kind(lang: &CompiledLanguage, t: &SyntaxTree, n: int) -> bool {
    ||| lang.spec_kind_is(t, n, "function_declaration"@)
    ||| lang.spec_kind_is(t, n, "generator_function_declaration"@)
    ||| lang.spec_kind_is(t, n, "function_expression"@)
    ||| lang.spec_kind_is(t, n, "generator_function"@)
    ||| lang.spec_kind_is(t, n, "arrow_function"@)
    ||| lang.spec_kind_is(t, n, "method_definition"@)
    ||| lang.spec_kind_is(t, n, "class_static_block"@)
}

fn is_unit_kind_exec(lang: &CompiledLanguage, t: &SyntaxTree, n: usize) -> (r: bool)
    ensures
        r == is_unit_kind(lang, t, n as int),
{
    lang.kind_is(t, n, "function_declaration") || lang.kind_is(t, n, "generator_function_declaration")
        || lang.kind_is(t, n, "function_expression") || lang.kind_is(t, n, "generator_function")
        || lang.kind_is(t, n, "arrow_function") || lang.kind_is(t, n, "method_definition")
        || lang.kind_is(t, n, "class_static_block")
}

/// Wrappers that do not change what a function is bound to.
pub open spec fn is_transparent(lang: &CompiledLanguage, t: &SyntaxTree, n: int) -> bool {
    ||| lang.spec_kind_is(t, n, "parenthesized_expression"@)
    ||| lang.spec_kind_is(t, n, "as_expression"@)
    ||| lang.spec_kind_is(t, n, "satisfies_expression"@)
    ||| lang.spec_kind_is(t, n, "non_null_expression"@)
    ||| lang.spec_kind_is(t, n, "type_assertion"@)
}

fn is_transparent_exec(lang: &CompiledLanguage, t: &SyntaxTree, n: usize) -> (r: bool)
    ensures
        r == is_transparent(lang, t, n as int),
{
    lang.kind_is(t, n, "parenthesized_expression") || lang.kind_is(t, n, "as_expression")
        || lang.kind_is(t, n, "satisfies_expression") || lang.kind_is(t, n, "non_null_expression")
        || lang.kind_is(t, n, "type_assertion")
}

pub open spec fn is_callable(lang: &CompiledLanguage, t: &SyntaxTree, a: usize) -> bool {
    is_unit_kind(lang, t, a as int) || lang.spec_kind_is(t, a as int, "call_expression"@)
}

/// `candidate` is the one callable among the arguments `args`.
pub open spec fn sole_callable(lang: &CompiledLanguage, t: &SyntaxTree, args: int, candidate: int) -> bool {
    keep(t.spec_named_children(args), |a: usize| is_callable(lang, t, a)) == seq![candidate as usize]
}

fn sole_callable_exec(lang: &CompiledLanguage, t: &SyntaxTree, args: usize, candidate: usize) -> (r: bool)
    ensures
        r == sole_callable(lang, t, args as int, candidate as int),
{
    let kids = t.named_children(args);
    let ghost pred = |a: usize| is_callable(lang, t, a);
    let mut found: Vec<usize> = Vec::new();
    let mut k: usize = 0;
    while k < kids.len()
        invariant
            0 <= k <= kids@.len(),
            pred == (|a: usize| is_callable(lang, t, a)),
            found@ == keep(kids@.subrange(0, k as int), pred),
        decreases kids@.len() - k,
    {
        proof {
            assert(kids@.subrange(0, k + 1).drop_last() =~= kids@.subrange(0, k as int));
        }
        if is_unit_kind_exec(lang, t, kids[k]) || lang.kind_is(t, kids[k], "call_expression") {
            found.push(kids[k]);
        }
        k = k + 1;
    }
    proof {
        assert(kids@.subrange(0, kids@.len() as int) =~= kids@);
    }
    let r = found.len() == 1 && found[0] == candidate;
    proof {
        if r {
            assert(found@ =~= seq![candidate]);
        }
    }
    r
}

/// The text of what `p` holds under `field`, without quotes.
pub open spec fn unquoted_field(lang: &CompiledLanguage, t: &SyntaxTree, src: Seq<u8>, p: int, field: Seq<char>) -> Option<Seq<char>> {
    match field_text(lang, t, src, p, field) {
        Some(s) => Some(spec_strip_quotes(s)),
        None => None,
    }
}

/// What a function is bound to, stepping over wrappers that do not change the binding, and
/// through a factory call it is the lone callable argument of.
pub open spec fn bound_name(lang: &CompiledLanguage, t: &SyntaxTree, src: Seq<u8>, n: int) -> Option<Seq<char>>
    decreases n,
{
    match t.spec_parent(n) {
        None => None,
        Some(p) => if !(p < n) {
            None
        } else if lang.spec_kind_is(t, p as int, "variable_declarator"@) && field_is(lang, t, p as int, "value"@, n) {
            match lang.spec_child_by_field_name(t, p as int, "name"@) {
                Some(name) => if lang.spec_kind_is(t, name as int, "identifier"@) { t.spec_text(src, name as int) } else { None },
                None => None,
            }
        } else if lang.spec_kind_is(t, p as int, "pair"@) && field_is(lang, t, p as int, "value"@, n) {
            unquoted_field(lang, t, src, p as int, "key"@)
        } else if lang.spec_kind_is(t, p as int, "public_field_definition"@) && field_is(lang, t, p as int, "value"@, n) {
            unquoted_field(lang, t, src, p as int, "name"@)
        } else if lang.spec_kind_is(t, p as int, "assignment_expression"@) && field_is(lang, t, p as int, "right"@, n) {
            match field_text(lang, t, src, p as int, "left"@) {
                Some(l) => Some(spec_compact(l)),
                None => None,
            }
        } else if lang.spec_kind_is(t, p as int, "export_statement"@) && field_is(lang, t, p as int, "value"@, n) {
            Some("default"@)
        } else if lang.spec_kind_is(t, p as int, "arguments"@) && sole_callable(lang, t, p as int, n) {
            match t.spec_parent(p as int) {
                Some(call) => if call < p && lang.spec_kind_is(t, call as int, "call_expression"@) {
                    bound_name(lang, t, src, call as int)
                } else {
                    None
                },
                None => None,
            }
        } else if is_transparent(lang, t, p as int) {
            bound_name(lang, t, src, p as int)
        } else {
            None
        },
    }
}

/// A callback that is nobody's value: the call it belongs to plus its argument position.
pub open spec fn positional_name(lang: &CompiledLanguage, t: &SyntaxTree, src: Seq<u8>, n: int) -> Option<Seq<char>> {
    match t.spec_parent(n) {
        Some(args) => if !lang.spec_kind_is(t, args as int, "arguments"@) {
            None
        } else {
            match t.spec_parent(args as int) {
                Some(call) => if !lang.spec_kind_is(t, call as int, "call_expression"@) {
                    None
                } else {
                    match lang.spec_child_by_field_name(t, call as int, "function"@) {
                        Some(f) => if !(lang.spec_kind_is(t, f as int, "identifier"@) || lang.spec_kind_is(t, f as int, "member_expression"@)) {
                            None
                        } else {
                            match (t.spec_text(src, f as int), index_from(t.spec_named_children(args as int), n as usize, 0)) {
                                (Some(callee), Some(i)) => Some(spec_keyed(spec_compact(callee), i as nat)),
                                _ => None,
                            }
                        },
                        None => None,
                    }
                },
                None => None,
            }
        },
        None => None,
    }
}

/// The name and origin a TypeScript unit is reported under.
pub open spec fn spec_unit_name(lang: &CompiledLanguage, t: &SyntaxTree, src: Seq<u8>, n: int) -> (Seq<char>, NameOrigin) {
    match unquoted_field(lang, t, src, n, "name"@) {
        Some(name) => (name, NameOrigin::Declared),
        None => match bound_name(lang, t, src, n) {
            Some(b) => (b, NameOrigin::Bound),
            None => match positional_name(lang, t, src, n) {
                Some(k) => (k, NameOrigin::Positional),
                None => (ANONYMOUS_UNIT@, NameOrigin::Anonymous),
            },
        },
    }
}

/// A class, namespace or object literal takes its own name, else the name it is bound to.
pub open spec fn spec_container_name(lang: &CompiledLanguage, t: &SyntaxTree, src: Seq<u8>, n: int) -> Option<Seq<char>> {
    match unquoted_field(lang, t, src, n, "name"@) {
        Some(name) => Some(name),
        None => bound_name(lang, t, src, n),
    }
}

} // verus!

verus! {

fn unquoted_field_exec(lang: &CompiledLanguage, t: &SyntaxTree, src: &[u8], p: usize, field: &str) -> (r: Option<String>)
    ensures
        r is Some <==> unquoted_field(lang, t, src@, p as int, field@) is Some,
        r matches Some(s) ==> unquoted_field(lang, t, src@, p as int, field@) == Some(s@),
{
    match field_text_exec(lang, t, src, p, field) {
        Some(s) => Some(strip_quotes(s.as_str())),
        None => None,
    }
}

pub fn bound_name_exec(lang: &CompiledLanguage, t: &SyntaxTree, src: &[u8], n: usize) -> (r: Option<String>)
    ensures
        r is Some <==> bound_name(lang, t, src@, n as int) is Some,
        r matches Some(s) ==> bound_name(lang, t, src@, n as int) == Some(s@),
    decreases n,
{
    let p = match t.parent(n) {
        Some(p) => p,
        None => return None,
    };
    if !(p < n) {
        return None;
    }
    if lang.kind_is(t, p, "variable_declarator") && is_field(lang, t, p, "value", n) {
        match lang.child_by_field_name(t, p, "name") {
            Some(name) => if lang.kind_is(t, name, "identifier") { t.text(src, name) } else { None },
            None => None,
        }
    } else if lang.kind_is(t, p, "pair") && is_field(lang, t, p, "value", n) {
        unquoted_field_exec(lang, t, src, p, "key")
    } else if lang.kind_is(t, p, "public_field_definition") && is_field(lang, t, p, "value", n) {
        unquoted_field_exec(lang, t, src, p, "name")
    } else if lang.kind_is(t, p, "assignment_expression") && is_field(lang, t, p, "right", n) {
        match field_text_exec(lang, t, src, p, "left") {
            Some(l) => Some(compact(l.as_str())),
            None => None,
        }
    } else if lang.kind_is(t, p, "export_statement") && is_field(lang, t, p, "value", n) {
        Some("default".to_owned())
    } else if lang.kind_is(t, p, "arguments") && sole_callable_exec(lang, t, p, n) {
        match t.parent(p) {
            Some(call) => if call < p && lang.kind_is(t, call, "call_expression") {
                bound_name_exec(lang, t, src, call)
            } else {
                None
            },
            None => None,
        }
    } else if is_transparent_exec(lang, t, p) {
        bound_name_exec(lang, t, src, p)
    } else {
        None
    }
}

fn positional_name_exec(lang: &CompiledLanguage, t: &SyntaxTree, src: &[u8], n: usize) -> (r: Option<String>)
    ensures
        r is Some <==> positional_name(lang, t, src@, n as int) is Some,
        r matches Some(s) ==> positional_name(lang, t, src@, n as int) == Some(s@),
{
    let args = match t.parent(n) {
        Some(a) => a,
        None => return None,
    };
    if !lang.kind_is(t, args, "arguments") {
        return None;
    }
    let call = match t.parent(args) {
        Some(c) => c,
        None => return None,
    };
    if !lang.kind_is(t, call, "call_expression") {
        return None;
    }
    let f = match lang.child_by_field_name(t, call, "function") {
        Some(f) => f,
        None => return None,
    };
    if !(lang.kind_is(t, f, "identifier") || lang.kind_is(t, f, "member_expression")) {
        return None;
    }
    let callee = t.text(src, f);
    let kids = t.named_children(args);
    let index = position(&kids, n);
    match (callee, index) {
        (Some(c), Some(i)) => {
            let short = compact(c.as_str());
            Some(keyed(short.as_str(), i))
        },
        _ => None,
    }
}

/// The name a TypeScript unit is reported under: its declared name, else the binding it is the
/// value of, else its place as a callback, else anonymous.
pub fn unit_name(lang: &CompiledLanguage, t: &SyntaxTree, src: &[u8], n: usize) -> (r: UnitName)
    ensures
        (r.text@, r.origin) == spec_unit_name(lang, t, src@, n as int),
        r.signature@ == Seq::<char>::empty(),
{
    match unquoted_field_exec(lang, t, src, n, "name") {
        Some(name) => UnitName::declared(name),
        None => match bound_name_exec(lang, t, src, n) {
            Some(b) => UnitName::bound(b),
            None => match positional_name_exec(lang, t, src, n) {
                Some(k) => UnitName::positional(k),
                None => UnitName::anonymous(),
            },
        },
    }
}

pub fn container_name(lang: &CompiledLanguage, t: &SyntaxTree, src: &[u8], n: usize) -> (r: Option<String>)
    ensures
        r is Some <==> spec_container_name(lang, t, src@, n as int) is Some,
        r matches Some(s) ==> spec_container_name(lang, t, src@, n as int) == Some(s@),
{
    match unquoted_field_exec(lang, t, src, n, "name") {
        Some(name) => Some(name),
        None => bound_name_exec(lang, t, src, n),
    }
}

/// A method recurses through `this`, `super` or the innermost container's name, and a plain
/// function through a bare call of its name.
pub fn unit_scope(container: Option<&str>) -> (r: UnitScope)
    ensures
        r.container is None,
        r.bare_call_recurses,
        r.self_receivers@.len() >= 2,
        r.self_receivers@[0]@ == "this"@,
        r.self_receivers@[1]@ == "super"@,
        container is None ==> r.self_receivers@.len() == 2,
        container matches Some(c) ==> r.self_receivers@.len() == 3
            && r.self_receivers@[2]@ == crate::scope::last_segment(c@),
{
    let mut self_receivers: Vec<String> = Vec::new();
    self_receivers.push("this".to_owned());
    self_receivers.push("super".to_owned());
    match container {
        Some(c) => self_receivers.push(crate::scope::last_segment_exec(c)),
        None => {},
    }
    UnitScope { container: None, self_receivers, bare_call_recurses: true }
}

} // verus!

verus! {

/// The call that hands its own binding to `current`, the lone callable argument of it.
pub open spec fn binding_call(lang: &CompiledLanguage, t: &SyntaxTree, p: int, current: int) -> Option<usize> {
    if lang.spec_kind_is(t, p, "arguments"@) && sole_callable(lang, t, p, current) {
        match t.spec_parent(p) {
            Some(call) => if lang.spec_kind_is(t, call as int, "call_expression"@) { Some(call) } else { None },
            None => None,
        }
    } else {
        None
    }
}

/// The declaration a marker would sit above: for `const handler = () => {}` the whole
/// declaration, for a class field or an object pair the field or pair. With `through_calls` it
/// also climbs out of a factory call the node is the lone callable argument of.
pub open spec fn anchor(lang: &CompiledLanguage, t: &SyntaxTree, n: int, through_calls: bool) -> int
    decreases n,
{
    match t.spec_parent(n) {
        None => n,
        Some(p) => if !(p < n) {
            n
        } else if through_calls && binding_call(lang, t, p as int, n) is Some {
            let call = binding_call(lang, t, p as int, n).unwrap();
            if call < n { anchor(lang, t, call as int, through_calls) } else { n }
        } else if lang.spec_kind_is(t, p as int, "variable_declarator"@) || lang.spec_kind_is(t, p as int, "lexical_declaration"@)
            || lang.spec_kind_is(t, p as int, "variable_declaration"@) || lang.spec_kind_is(t, p as int, "export_statement"@)
            || lang.spec_kind_is(t, p as int, "expression_statement"@) || lang.spec_kind_is(t, p as int, "public_field_definition"@)
            || lang.spec_kind_is(t, p as int, "pair"@) || is_transparent(lang, t, p as int) {
            anchor(lang, t, p as int, through_calls)
        } else {
            n
        },
    }
}

pub open spec fn spec_anchors(lang: &CompiledLanguage, t: &SyntaxTree, src: Seq<u8>, n: int) -> Seq<usize> {
    let own = anchor(lang, t, n, false);
    if bound_name(lang, t, src, n) is Some && anchor(lang, t, n, true) != own {
        seq![own as usize, anchor(lang, t, n, true) as usize]
    } else {
        seq![own as usize]
    }
}

fn anchor_exec(lang: &CompiledLanguage, t: &SyntaxTree, n: usize, through_calls: bool) -> (r: usize)
    ensures
        r as int == anchor(lang, t, n as int, through_calls),
    decreases n,
{
    let p = match t.parent(n) {
        Some(p) => p,
        None => return n,
    };
    if !(p < n) {
        return n;
    }
    if through_calls && lang.kind_is(t, p, "arguments") && sole_callable_exec(lang, t, p, n) {
        match t.parent(p) {
            Some(call) => if lang.kind_is(t, call, "call_expression") {
                return if call < n { anchor_exec(lang, t, call, through_calls) } else { n };
            },
            None => {},
        }
    }
    if lang.kind_is(t, p, "variable_declarator") || lang.kind_is(t, p, "lexical_declaration")
        || lang.kind_is(t, p, "variable_declaration") || lang.kind_is(t, p, "export_statement")
        || lang.kind_is(t, p, "expression_statement") || lang.kind_is(t, p, "public_field_definition")
        || lang.kind_is(t, p, "pair") || is_transparent_exec(lang, t, p) {
        anchor_exec(lang, t, p, through_calls)
    } else {
        n
    }
}

/// Where a TypeScript unit's marker may sit, innermost first.
pub fn suppression_anchors(lang: &CompiledLanguage, t: &SyntaxTree, src: &[u8], n: usize) -> (r: Vec<usize>)
    ensures
        r@ == spec_anchors(lang, t, src@, n as int),
{
    let own = anchor_exec(lang, t, n, false);
    let mut out: Vec<usize> = Vec::new();
    out.push(own);
    if bound_name_exec(lang, t, src, n).is_some() {
        let declaration = anchor_exec(lang, t, n, true);
        if declaration != own {
            out.push(declaration);
        }
    }
    assert(out@ =~= spec_anchors(lang, t, src@, n as int));
    out
}

} // verus!
