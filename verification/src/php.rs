//! How PHP names its units and where a marker above one sits.
use vstd::prelude::*;
use crate::finding::{NameOrigin, UnitName, UnitScope, ANONYMOUS_UNIT};
use crate::language::CompiledLanguage;
use crate::names::{
    field_is, field_text, field_text_exec, index_from, is_field, keep, keyed, plain_callee,
    plain_callee_exec, position, slice_text, slice_text_exec, spec_keyed,
};
use crate::naming::{compact, compact_chars, spec_compact, spec_strip_quotes, strip_quotes};
use crate::syntax::SyntaxTree;
use crate::text::{chars_of, string_from, sub_chars};

verus! {

/// The function-likes a PHP file is scored by.
pub open spec fn is_unit_kind(lang: &CompiledLanguage, t: &SyntaxTree, n: int) -> bool {
    ||| lang.spec_kind_is(t, n, "function_definition"@)
    ||| lang.spec_kind_is(t, n, "method_declaration"@)
    ||| lang.spec_kind_is(t, n, "anonymous_function"@)
    ||| lang.spec_kind_is(t, n, "anonymous_function_creation_expression"@)
    ||| lang.spec_kind_is(t, n, "arrow_function"@)
}

pub open spec fn is_call_kind(lang: &CompiledLanguage, t: &SyntaxTree, n: int) -> bool {
    ||| lang.spec_kind_is(t, n, "function_call_expression"@)
    ||| lang.spec_kind_is(t, n, "member_call_expression"@)
    ||| lang.spec_kind_is(t, n, "scoped_call_expression"@)
}

fn is_unit_kind_exec(lang: &CompiledLanguage, t: &SyntaxTree, n: usize) -> (r: bool)
    ensures
        r == is_unit_kind(lang, t, n as int),
{
    lang.kind_is(t, n, "function_definition") || lang.kind_is(t, n, "method_declaration")
        || lang.kind_is(t, n, "anonymous_function") || lang.kind_is(t, n, "anonymous_function_creation_expression")
        || lang.kind_is(t, n, "arrow_function")
}

fn is_call_kind_exec(lang: &CompiledLanguage, t: &SyntaxTree, n: usize) -> (r: bool)
    ensures
        r == is_call_kind(lang, t, n as int),
{
    lang.kind_is(t, n, "function_call_expression") || lang.kind_is(t, n, "member_call_expression")
        || lang.kind_is(t, n, "scoped_call_expression")
}

/// An argument holding a closure or a call competes for the binding of its call.
pub open spec fn is_callable(lang: &CompiledLanguage, t: &SyntaxTree, a: usize) -> bool {
    let kids = t.spec_named_children(a as int);
    kids.len() > 0 && (is_unit_kind(lang, t, kids[0] as int) || is_call_kind(lang, t, kids[0] as int))
}

pub open spec fn sole_callable(lang: &CompiledLanguage, t: &SyntaxTree, args: int, candidate: int) -> bool {
    keep(t.spec_named_children(args), |a: usize| is_callable(lang, t, a)) == seq![candidate as usize]
}

fn sole_callable_exec(lang: &CompiledLanguage, t: &SyntaxTree, args: usize, candidate: usize) -> (r: bool)
    ensures
        r == sole_callable(lang, t, args as int, candidate as int),
{
    let kids = t.named_children(args);
    let ghost pred = |a: usize| is_callable(lang, t, a);
    let mut found: Vec<usize> = Vec::new();
    let mut k: usize = 0;
    while k < kids.len()
        invariant
            0 <= k <= kids@.len(),
            pred == (|a: usize| is_callable(lang, t, a)),
            found@ == keep(kids@.subrange(0, k as int), pred),
        decreases kids@.len() - k,
    {
        proof {
            assert(kids@.subrange(0, k + 1).drop_last() =~= kids@.subrange(0, k as int));
        }
        let inner = t.named_children(kids[k]);
        if inner.len() > 0 && (is_unit_kind_exec(lang, t, inner[0]) || is_call_kind_exec(lang, t, inner[0])) {
            found.push(kids[k]);
        }
        k = k + 1;
    }
    proof {
        assert(kids@.subrange(0, kids@.len() as int) =~= kids@);
    }
    let r = found.len() == 1 && found[0] == candidate;
    proof {
        if r {
            assert(found@ =~= seq![candidate]);
        }
    }
    r
}

/// The call that hands its own binding to `current`: the one whose lone callable argument it
/// is, or the one invoking it on the spot.
pub open spec fn binding_call(lang: &CompiledLanguage, t: &SyntaxTree, p: int, current: int) -> Option<usize> {
    if lang.spec_kind_is(t, p, "argument"@) {
        match t.spec_parent(p) {
            Some(list) => if lang.spec_kind_is(t, list as int, "arguments"@) && sole_callable(lang, t, list as int, p) {
                match t.spec_parent(list as int) {
                    Some(call) => if is_call_kind(lang, t, call as int) { Some(call) } else { None },
                    None => None,
                }
            } else {
                None
            },
            None => None,
        }
    } else if lang.spec_kind_is(t, p, "function_call_expression"@) && field_is(lang, t, p, "function"@, current) {
        Some(p as usize)
    } else {
        None
    }
}

fn binding_call_exec(lang: &CompiledLanguage, t: &SyntaxTree, p: usize, current: usize) -> (r: Option<usize>)
    ensures
        r == binding_call(lang, t, p as int, current as int),
{
    if lang.kind_is(t, p, "argument") {
        match t.parent(p) {
            Some(list) => if lang.kind_is(t, list, "arguments") && sole_callable_exec(lang, t, list, p) {
                match t.parent(list) {
                    Some(call) => if is_call_kind_exec(lang, t, call) { Some(call) } else { None },
                    None => None,
                }
            } else {
                None
            },
            None => None,
        }
    } else if lang.kind_is(t, p, "function_call_expression") && is_field(lang, t, p, "function", current) {
        Some(p)
    } else {
        None
    }
}

/// The text without its leading `$` signs.
pub open spec fn drop_dollars(s: Seq<char>) -> Seq<char>
    decreases s.len(),
{
    if s.len() > 0 && s[0] == '$' {
        drop_dollars(s.drop_first())
    } else {
        s
    }
}

/// The key of the array element whose value is `value`.
pub open spec fn array_key(lang: &CompiledLanguage, t: &SyntaxTree, src: Seq<u8>, element: int, value: int) -> Option<Seq<char>> {
    let kids = t.spec_named_children(element);
    if kids.len() >= 2 && kids[1] == value as usize {
        match t.spec_text(src, kids[0] as int) {
            Some(k) => Some(spec_strip_quotes(k)),
            None => None,
        }
    } else {
        None
    }
}

/// What a closure is bound to: an assignment, an array key, or, through a call it is handed
/// to alone or invoked by on the spot, whatever that call is bound to.
pub open spec fn bound_name(lang: &CompiledLanguage, t: &SyntaxTree, src: Seq<u8>, n: int) -> Option<Seq<char>>
    decreases n,
{
    match t.spec_parent(n) {
        None => None,
        Some(p) => if !(p < n) {
            None
        } else if lang.spec_kind_is(t, p as int, "assignment_expression"@) && field_is(lang, t, p as int, "right"@, n) {
            match lang.spec_child_by_field_name(t, p as int, "left"@) {
                Some(left) => match t.spec_text(src, left as int) {
                    Some(name) => Some(if lang.spec_kind_is(t, left as int, "variable_name"@) {
                        drop_dollars(name)
                    } else {
                        spec_compact(name)
                    }),
                    None => None,
                },
                None => None,
            }
        } else if lang.spec_kind_is(t, p as int, "array_element_initializer"@) {
            array_key(lang, t, src, p as int, n)
        } else if lang.spec_kind_is(t, p as int, "argument"@) || lang.spec_kind_is(t, p as int, "function_call_expression"@) {
            match binding_call(lang, t, p as int, n) {
                Some(call) => if call < n { bound_name(lang, t, src, call as int) } else { None },
                None => None,
            }
        } else if lang.spec_kind_is(t, p as int, "parenthesized_expression"@) {
            bound_name(lang, t, src, p as int)
        } else {
            None
        },
    }
}

/// A callback that is nobody's value: its call's source text up to the arguments, compacted,
/// plus its argument position.
pub open spec fn positional_name(lang: &CompiledLanguage, t: &SyntaxTree, src: Seq<u8>, n: int) -> Option<Seq<char>> {
    match t.spec_parent(n) {
        Some(argument) => if !lang.spec_kind_is(t, argument as int, "argument"@) {
            None
        } else {
            match t.spec_parent(argument as int) {
                Some(args) => if !lang.spec_kind_is(t, args as int, "arguments"@) {
                    None
                } else {
                    match t.spec_parent(args as int) {
                        Some(call) => if !is_call_kind(lang, t, call as int) {
                            None
                        } else {
                            match slice_text(src, t.spec_start_byte(call as int) as int, t.spec_start_byte(args as int) as int) {
                                Some(raw) => {
                                    let callee = spec_compact(raw);
                                    if !plain_callee(callee, seq!['(', '{']) {
                                        None
                                    } else {
                                        match index_from(t.spec_named_children(args as int), argument, 0) {
                                            Some(i) => Some(spec_keyed(callee, i as nat)),
                                            None => None,
                                        }
                                    }
                                },
                                None => None,
                            }
                        },
                        None => None,
                    }
                },
                None => None,
            }
        },
        None => None,
    }
}

pub open spec fn spec_unit_name(lang: &CompiledLanguage, t: &SyntaxTree, src: Seq<u8>, n: int) -> (Seq<char>, NameOrigin) {
    match field_text(lang, t, src, n, "name"@) {
        Some(name) => (name, NameOrigin::Declared),
        None => match bound_name(lang, t, src, n) {
            Some(b) => (b, NameOrigin::Bound),
            None => match positional_name(lang, t, src, n) {
                Some(k) => (k, NameOrigin::Positional),
                None => (ANONYMOUS_UNIT@, NameOrigin::Anonymous),
            },
        },
    }
}

/// Climbs to the statement a marker would sit above, so `$handler = function () {}` can be
/// suppressed from the line before it; with `through_calls`, out of a binding call too.
pub open spec fn anchor(lang: &CompiledLanguage, t: &SyntaxTree, n: int, through_calls: bool) -> int
    decreases n,
{
    match t.spec_parent(n) {
        None => n,
        Some(p) => if !(p < n) {
            n
        } else if through_calls && binding_call(lang, t, p as int, n) is Some {
            let call = binding_call(lang, t, p as int, n).unwrap();
            if call < n { anchor(lang, t, call as int, through_calls) } else { n }
        } else if lang.spec_kind_is(t, p as int, "assignment_expression"@) && field_is(lang, t, p as int, "right"@, n) {
            anchor(lang, t, p as int, through_calls)
        } else if lang.spec_kind_is(t, p as int, "expression_statement"@) || lang.spec_kind_is(t, p as int, "parenthesized_expression"@) {
            anchor(lang, t, p as int, through_calls)
        } else if lang.spec_kind_is(t, p as int, "argument"@) {
            p as int
        } else {
            n
        },
    }
}

pub open spec fn spec_anchors(lang: &CompiledLanguage, t: &SyntaxTree, src: Seq<u8>, n: int) -> Seq<usize> {
    let own = anchor(lang, t, n, false);
    if bound_name(lang, t, src, n) is Some && anchor(lang, t, n, true) != own {
        seq![own as usize, anchor(lang, t, n, true) as usize]
    } else {
        seq![own as usize]
    }
}

} // verus!

verus! {

fn drop_dollars_exec(s: &str) -> (r: String)
    ensures
        r@ == drop_dollars(s@),
{
    let c = chars_of(s);
    let mut i: usize = 0;
    assert(c@.subrange(0, c@.len() as int) =~= c@);
    while i < c.len() && c[i] == '$'
        invariant
            0 <= i <= c@.len(),
            drop_dollars(c@) == drop_dollars(c@.subrange(i as int, c@.len() as int)),
        decreases c@.len() - i,
    {
        assert(c@.subrange(i as int, c@.len() as int).drop_first() =~= c@.subrange(i + 1, c@.len() as int));
        i = i + 1;
    }
    let rest = sub_chars(&c, i, c.len());
    string_from(rest.as_slice())
}

fn array_key_exec(lang: &CompiledLanguage, t: &SyntaxTree, src: &[u8], element: usize, value: usize) -> (r: Option<String>)
    ensures
        r is Some <==> array_key(lang, t, src@, element as int, value as int) is Some,
        r matches Some(s) ==> array_key(lang, t, src@, element as int, value as int) == Some(s@),
{
    let kids = t.named_children(element);
    if kids.len() >= 2 && kids[1] == value {
        match t.text(src, kids[0]) {
            Some(k) => Some(strip_quotes(k.as_str())),
            None => None,
        }
    } else {
        None
    }
}

pub fn bound_name_exec(lang: &CompiledLanguage, t: &SyntaxTree, src: &[u8], n: usize) -> (r: Option<String>)
    ensures
        r is Some <==> bound_name(lang, t, src@, n as int) is Some,
        r matches Some(s) ==> bound_name(lang, t, src@, n as int) == Some(s@),
    decreases n,
{
    let p = match t.parent(n) {
        Some(p) => p,
        None => return None,
    };
    if !(p < n) {
        return None;
    }
    if lang.kind_is(t, p, "assignment_expression") && is_field(lang, t, p, "right", n) {
        match lang.child_by_field_name(t, p, "left") {
            Some(left) => match t.text(src, left) {
                Some(name) => Some(if lang.kind_is(t, left, "variable_name") {
                    drop_dollars_exec(name.as_str())
                } else {
                    compact(name.as_str())
                }),
                None => None,
            },
            None => None,
        }
    } else if lang.kind_is(t, p, "array_element_initializer") {
        array_key_exec(lang, t, src, p, n)
    } else if lang.kind_is(t, p, "argument") || lang.kind_is(t, p, "function_call_expression") {
        match binding_call_exec(lang, t, p, n) {
            Some(call) => if call < n { bound_name_exec(lang, t, src, call) } else { None },
            None => None,
        }
    } else if lang.kind_is(t, p, "parenthesized_expression") {
        bound_name_exec(lang, t, src, p)
    } else {
        None
    }
}

fn positional_name_exec(lang: &CompiledLanguage, t: &SyntaxTree, src: &[u8], n: usize) -> (r: Option<String>)
    ensures
        r is Some <==> positional_name(lang, t, src@, n as int) is Some,
        r matches Some(s) ==> positional_name(lang, t, src@, n as int) == Some(s@),
{
    let argument = match t.parent(n) {
        Some(a) => a,
        None => return None,
    };
    if !lang.kind_is(t, argument, "argument") {
        return None;
    }
    let args = match t.parent(argument) {
        Some(a) => a,
        None => return None,
    };
    if !lang.kind_is(t, args, "arguments") {
        return None;
    }
    let call = match t.parent(args) {
        Some(c) => c,
        None => return None,
    };
    if !is_call_kind_exec(lang, t, call) {
        return None;
    }
    let raw = match slice_text_exec(src, t.start_byte(call), t.start_byte(args)) {
        Some(raw) => raw,
        None => return None,
    };
    let callee = compact_chars(&chars_of(raw.as_str()));
    let mut openers: Vec<char> = Vec::new();
    openers.push('(');
    openers.push('{');
    assert(openers@ =~= seq!['(', '{']);
    if !plain_callee_exec(&callee, &openers) {
        return None;
    }
    let kids = t.named_children(args);
    match position(&kids, argument) {
        Some(i) => {
            let name = string_from(callee.as_slice());
            Some(keyed(name.as_str(), i))
        },
        None => None,
    }
}

/// The name a PHP unit is reported under.
pub fn unit_name(lang: &CompiledLanguage, t: &SyntaxTree, src: &[u8], n: usize) -> (r: UnitName)
    ensures
        (r.text@, r.origin) == spec_unit_name(lang, t, src@, n as int),
        r.signature@ == Seq::<char>::empty(),
{
    match field_text_exec(lang, t, src, n, "name") {
        Some(name) => UnitName::declared(name),
        None => match bound_name_exec(lang, t, src, n) {
            Some(b) => UnitName::bound(b),
            None => match positional_name_exec(lang, t, src, n) {
                Some(k) => UnitName::positional(k),
                None => UnitName::anonymous(),
            },
        },
    }
}

/// `parent::` reaches the method this one overrides, not this one.
pub fn unit_scope() -> (r: UnitScope)
    ensures
        r.container is None,
        r.bare_call_recurses,
        r.self_receivers@.len() == 3,
        r.self_receivers@[0]@ == "$this"@,
        r.self_receivers@[1]@ == "self"@,
        r.self_receivers@[2]@ == "static"@,
{
    let mut self_receivers: Vec<String> = Vec::new();
    self_receivers.push("$this".to_owned());
    self_receivers.push("self".to_owned());
    self_receivers.push("static".to_owned());
    UnitScope { container: None, self_receivers, bare_call_recurses: true }
}

fn anchor_exec(lang: &CompiledLanguage, t: &SyntaxTree, n: usize, through_calls: bool) -> (r: usize)
    ensures
        r as int == anchor(lang, t, n as int, through_calls),
    decreases n,
{
    let p = match t.parent(n) {
        Some(p) => p,
        None => return n,
    };
    if !(p < n) {
        return n;
    }
    if through_calls {
        match binding_call_exec(lang, t, p, n) {
            Some(call) => {
                return if call < n { anchor_exec(lang, t, call, through_calls) } else { n };
            },
            None => {},
        }
    }
    if lang.kind_is(t, p, "assignment_expression") && is_field(lang, t, p, "right", n) {
        anchor_exec(lang, t, p, through_calls)
    } else if lang.kind_is(t, p, "expression_statement") || lang.kind_is(t, p, "parenthesized_expression") {
        anchor_exec(lang, t, p, through_calls)
    } else if lang.kind_is(t, p, "argument") {
        p
    } else {
        n
    }
}

/// The closure's own position first, then, when its call hands it a binding, the declaration
/// of that binding.
pub fn suppression_anchors(lang: &CompiledLanguage, t: &SyntaxTree, src: &[u8], n: usize) -> (r: Vec<usize>)
    ensures
        r@ == spec_anchors(lang, t, src@, n as int),
{
    let own = anchor_exec(lang, t, n, false);
    let mut out: Vec<usize> = Vec::new();
    out.push(own);
    if bound_name_exec(lang, t, src, n).is_some() {
        let declaration = anchor_exec(lang, t, n, true);
        if declaration != own {
            out.push(declaration);
        }
    }
    assert(out@ =~= spec_anchors(lang, t, src@, n as int));
    out
}

} // verus!
