//! How Go names its units and where a marker above one sits.
use vstd::prelude::*;
use crate::generated::{drop_bom_exec, go_header, header_kind_exec, lemma_next_line, next_line_exec, after_close, spec_go_is_generated};
use crate::finding::{UnitName, UnitScope};
use crate::language::CompiledLanguage;
use crate::names::{field_children, field_children_exec, field_is, field_text, field_text_exec, index_from, is_field, keep, keyed, position, spec_keyed};
use crate::naming::{compact, spec_compact, spec_strip_quotes, strip_quotes};
use crate::syntax::SyntaxTree;
use crate::text::{chars_of, str_eq, string_from, sub_chars, trim, trim_chars};

verus! {

/// A literal or a call: what competes for the binding of the call it is an argument of.
pub open spec fn is_callable(lang: &CompiledLanguage, t: &SyntaxTree, a: usize) -> bool {
    lang.spec_kind_is(t, a as int, "func_literal"@) || lang.spec_kind_is(t, a as int, "call_expression"@)
}

/// `candidate` is the one callable among the arguments `args`.
pub open spec fn sole_callable(lang: &CompiledLanguage, t: &SyntaxTree, args: int, candidate: int) -> bool {
    keep(t.spec_named_children(args), |a: usize| is_callable(lang, t, a)) == seq![candidate as usize]
}

fn sole_callable_exec(lang: &CompiledLanguage, t: &SyntaxTree, args: usize, candidate: usize) -> (r: bool)
    ensures
        r == sole_callable(lang, t, args as int, candidate as int),
{
    let kids = t.named_children(args);
    let ghost pred = |a: usize| is_callable(lang, t, a);
    let mut found: Vec<usize> = Vec::new();
    let mut k: usize = 0;
    while k < kids.len()
        invariant
            0 <= k <= kids@.len(),
            pred == (|a: usize| is_callable(lang, t, a)),
            found@ == keep(kids@.subrange(0, k as int), pred),
        decreases kids@.len() - k,
    {
        proof {
            assert(kids@.subrange(0, k + 1).drop_last() =~= kids@.subrange(0, k as int));
        }
        if lang.kind_is(t, kids[k], "func_literal") || lang.kind_is(t, kids[k], "call_expression") {
            found.push(kids[k]);
        }
        k = k + 1;
    }
    proof {
        assert(kids@.subrange(0, kids@.len() as int) =~= kids@);
    }
    let r = found.len() == 1 && found[0] == candidate;
    proof {
        if r {
            assert(found@ =~= seq![candidate]);
        }
    }
    r
}

/// `var a, b = f, g` pairs names and values by position; `_` discards the value.
pub open spec fn var_name(lang: &CompiledLanguage, t: &SyntaxTree, src: Seq<u8>, values: int, value: int) -> Option<Seq<char>> {
    match t.spec_parent(values) {
        Some(spec) => if !lang.spec_kind_is(t, spec as int, "var_spec"@) {
            None
        } else {
            match index_from(t.spec_named_children(values), value as usize, 0) {
                Some(i) => {
                    let names = field_children(lang, t, spec as int, "name"@);
                    if i < names.len() {
                        match t.spec_text(src, names[i as int] as int) {
                            Some(s) => if s == "_"@ { None } else { Some(s) },
                            None => None,
                        }
                    } else {
                        None
                    }
                },
                None => None,
            }
        },
        None => None,
    }
}

/// A raw-string key loses its backquotes, any other its quotes.
pub open spec fn unquote(key: Seq<char>) -> Seq<char> {
    let t = trim(key);
    if t.len() >= 2 && t[0] == '`' && t.last() == '`' {
        t.subrange(1, t.len() - 1)
    } else {
        spec_strip_quotes(t)
    }
}

/// The key of the map entry whose value is `element`.
pub open spec fn map_key(lang: &CompiledLanguage, t: &SyntaxTree, src: Seq<u8>, element: int) -> Option<Seq<char>> {
    match t.spec_parent(element) {
        Some(entry) => if lang.spec_kind_is(t, entry as int, "keyed_element"@) && field_is(lang, t, entry as int, "value"@, element) {
            match field_text(lang, t, src, entry as int, "key"@) {
                Some(k) => Some(unquote(k)),
                None => None,
            }
        } else {
            None
        },
        None => None,
    }
}

/// The name a package-level literal is bound to: a `var`, a composite-literal key, or, through
/// a factory call it is the lone callable argument of, whatever that call is bound to.
pub open spec fn bound_name(lang: &CompiledLanguage, t: &SyntaxTree, src: Seq<u8>, n: int) -> Option<Seq<char>>
    decreases n,
{
    match t.spec_parent(n) {
        None => None,
        Some(p) => if !(p < n) {
            None
        } else if lang.spec_kind_is(t, p as int, "expression_list"@) {
            var_name(lang, t, src, p as int, n)
        } else if lang.spec_kind_is(t, p as int, "literal_element"@) {
            map_key(lang, t, src, p as int)
        } else if lang.spec_kind_is(t, p as int, "argument_list"@) && sole_callable(lang, t, p as int, n) {
            match t.spec_parent(p as int) {
                Some(call) => if call < p && lang.spec_kind_is(t, call as int, "call_expression"@) {
                    bound_name(lang, t, src, call as int)
                } else {
                    None
                },
                None => None,
            }
        } else if lang.spec_kind_is(t, p as int, "parenthesized_expression"@) {
            bound_name(lang, t, src, p as int)
        } else {
            None
        },
    }
}

/// A callback that is nobody's value: the call it belongs to plus its argument position.
pub open spec fn positional_name(lang: &CompiledLanguage, t: &SyntaxTree, src: Seq<u8>, n: int) -> Option<Seq<char>> {
    match t.spec_parent(n) {
        Some(args) => if !lang.spec_kind_is(t, args as int, "argument_list"@) {
            None
        } else {
            match t.spec_parent(args as int) {
                Some(call) => if !lang.spec_kind_is(t, call as int, "call_expression"@) {
                    None
                } else {
                    match lang.spec_child_by_field_name(t, call as int, "function"@) {
                        Some(f) => if !(lang.spec_kind_is(t, f as int, "identifier"@) || lang.spec_kind_is(t, f as int, "selector_expression"@)) {
                            None
                        } else {
                            match (t.spec_text(src, f as int), index_from(t.spec_named_children(args as int), n as usize, 0)) {
                                (Some(callee), Some(i)) => Some(spec_keyed(spec_compact(callee), i as nat)),
                                _ => None,
                            }
                        },
                        None => None,
                    }
                },
                None => None,
            }
        },
        None => None,
    }
}

/// Go lets a file declare `init` and `_` any number of times.
pub open spec fn is_repeatable(lang: &CompiledLanguage, t: &SyntaxTree, n: int, name: Seq<char>) -> bool {
    name == "_"@ || (name == "init"@ && lang.spec_kind_is(t, n, "function_declaration"@))
}

/// The name and origin Go gives unit `n`.
pub open spec fn spec_unit_name(lang: &CompiledLanguage, t: &SyntaxTree, src: Seq<u8>, n: int) -> (Seq<char>, crate::finding::NameOrigin) {
    match field_text(lang, t, src, n, "name"@) {
        Some(name) => (name, if is_repeatable(lang, t, n, name) {
            crate::finding::NameOrigin::Positional
        } else {
            crate::finding::NameOrigin::Declared
        }),
        None => match bound_name(lang, t, src, n) {
            Some(b) => (b, crate::finding::NameOrigin::Bound),
            None => match positional_name(lang, t, src, n) {
                Some(k) => (k, crate::finding::NameOrigin::Positional),
                None => (crate::finding::ANONYMOUS_UNIT@, crate::finding::NameOrigin::Anonymous),
            },
        },
    }
}

/// The type a receiver names, through pointers, parentheses and type arguments.
pub open spec fn receiver_type(lang: &CompiledLanguage, t: &SyntaxTree, src: Seq<u8>, n: int) -> Option<Seq<char>>
    decreases t.len() - n,
{
    if !(0 <= n < t.len()) {
        None
    } else if lang.spec_kind_is(t, n, "type_identifier"@) {
        t.spec_text(src, n)
    } else if lang.spec_kind_is(t, n, "pointer_type"@) || lang.spec_kind_is(t, n, "parenthesized_type"@) {
        let kids = t.spec_named_children(n);
        if kids.len() > 0 && n < kids[0] < t.len() {
            receiver_type(lang, t, src, kids[0] as int)
        } else {
            None
        }
    } else if lang.spec_kind_is(t, n, "generic_type"@) {
        match lang.spec_child_by_field_name(t, n, "type"@) {
            Some(c) => if n < c < t.len() { receiver_type(lang, t, src, c as int) } else { None },
            None => None,
        }
    } else {
        None
    }
}

/// A method's receiver: its type name and, unless blank, its binding.
pub open spec fn receiver(lang: &CompiledLanguage, t: &SyntaxTree, src: Seq<u8>, n: int) -> Option<(Seq<char>, Option<Seq<char>>)> {
    match lang.spec_child_by_field_name(t, n, "receiver"@) {
        Some(r) => match lang.spec_named_child_of_kind(t, r as int, "parameter_declaration"@) {
            Some(param) => match lang.spec_child_by_field_name(t, param as int, "type"@) {
                Some(ty) => match receiver_type(lang, t, src, ty as int) {
                    Some(ty_name) => Some((ty_name, match field_text(lang, t, src, param as int, "name"@) {
                        Some(b) => if b == "_"@ { None } else { Some(b) },
                        None => None,
                    })),
                    None => None,
                },
                None => None,
            },
            None => None,
        },
        None => None,
    }
}

} // verus!

verus! {

fn var_name_exec(lang: &CompiledLanguage, t: &SyntaxTree, src: &[u8], values: usize, value: usize) -> (r: Option<String>)
    ensures
        r is Some <==> var_name(lang, t, src@, values as int, value as int) is Some,
        r matches Some(s) ==> var_name(lang, t, src@, values as int, value as int) == Some(s@),
{
    let spec = match t.parent(values) {
        Some(s) => s,
        None => return None,
    };
    if !lang.kind_is(t, spec, "var_spec") {
        return None;
    }
    let kids = t.named_children(values);
    let i = match position(&kids, value) {
        Some(i) => i,
        None => return None,
    };
    let names = field_children_exec(lang, t, spec, "name");
    if i >= names.len() {
        return None;
    }
    match t.text(src, names[i]) {
        Some(s) => if str_eq(s.as_str(), "_") { None } else { Some(s) },
        None => None,
    }
}

fn unquote_exec(key: &str) -> (r: String)
    ensures
        r@ == unquote(key@),
{
    let chars = chars_of(key);
    let t = trim_chars(&chars);
    let n = t.len();
    if n >= 2 && t[0] == '`' && t[n - 1] == '`' {
        let inner = sub_chars(&t, 1, n - 1);
        string_from(inner.as_slice())
    } else {
        let s = string_from(t.as_slice());
        strip_quotes(s.as_str())
    }
}

fn map_key_exec(lang: &CompiledLanguage, t: &SyntaxTree, src: &[u8], element: usize) -> (r: Option<String>)
    ensures
        r is Some <==> map_key(lang, t, src@, element as int) is Some,
        r matches Some(s) ==> map_key(lang, t, src@, element as int) == Some(s@),
{
    let entry = match t.parent(element) {
        Some(e) => e,
        None => return None,
    };
    if !lang.kind_is(t, entry, "keyed_element") || !is_field(lang, t, entry, "value", element) {
        return None;
    }
    match field_text_exec(lang, t, src, entry, "key") {
        Some(k) => Some(unquote_exec(k.as_str())),
        None => None,
    }
}

pub fn bound_name_exec(lang: &CompiledLanguage, t: &SyntaxTree, src: &[u8], n: usize) -> (r: Option<String>)
    ensures
        r is Some <==> bound_name(lang, t, src@, n as int) is Some,
        r matches Some(s) ==> bound_name(lang, t, src@, n as int) == Some(s@),
    decreases n,
{
    let p = match t.parent(n) {
        Some(p) => p,
        None => return None,
    };
    if !(p < n) {
        return None;
    }
    if lang.kind_is(t, p, "expression_list") {
        var_name_exec(lang, t, src, p, n)
    } else if lang.kind_is(t, p, "literal_element") {
        map_key_exec(lang, t, src, p)
    } else if lang.kind_is(t, p, "argument_list") && sole_callable_exec(lang, t, p, n) {
        match t.parent(p) {
            Some(call) => if call < p && lang.kind_is(t, call, "call_expression") {
                bound_name_exec(lang, t, src, call)
            } else {
                None
            },
            None => None,
        }
    } else if lang.kind_is(t, p, "parenthesized_expression") {
        bound_name_exec(lang, t, src, p)
    } else {
        None
    }
}

fn positional_name_exec(lang: &CompiledLanguage, t: &SyntaxTree, src: &[u8], n: usize) -> (r: Option<String>)
    ensures
        r is Some <==> positional_name(lang, t, src@, n as int) is Some,
        r matches Some(s) ==> positional_name(lang, t, src@, n as int) == Some(s@),
{
    let args = match t.parent(n) {
        Some(a) => a,
        None => return None,
    };
    if !lang.kind_is(t, args, "argument_list") {
        return None;
    }
    let call = match t.parent(args) {
        Some(c) => c,
        None => return None,
    };
    if !lang.kind_is(t, call, "call_expression") {
        return None;
    }
    let f = match lang.child_by_field_name(t, call, "function") {
        Some(f) => f,
        None => return None,
    };
    if !(lang.kind_is(t, f, "identifier") || lang.kind_is(t, f, "selector_expression")) {
        return None;
    }
    let callee = t.text(src, f);
    let kids = t.named_children(args);
    let index = position(&kids, n);
    match (callee, index) {
        (Some(c), Some(i)) => {
            let short = compact(c.as_str());
            Some(keyed(short.as_str(), i))
        },
        _ => None,
    }
}

/// The name Go gives unit `n`: declared, unless it is one Go lets repeat; else the binding of
/// a literal; else its place as a callback; else anonymous.
pub fn unit_name(lang: &CompiledLanguage, t: &SyntaxTree, src: &[u8], n: usize) -> (r: UnitName)
    ensures
        (r.text@, r.origin) == spec_unit_name(lang, t, src@, n as int),
        r.signature@ == Seq::<char>::empty(),
{
    match field_text_exec(lang, t, src, n, "name") {
        Some(name) => {
            let repeatable = str_eq(name.as_str(), "_")
                || (str_eq(name.as_str(), "init") && lang.kind_is(t, n, "function_declaration"));
            if repeatable {
                UnitName::positional(name)
            } else {
                UnitName::declared(name)
            }
        },
        None => match bound_name_exec(lang, t, src, n) {
            Some(b) => UnitName::bound(b),
            None => match positional_name_exec(lang, t, src, n) {
                Some(k) => UnitName::positional(k),
                None => UnitName::anonymous(),
            },
        },
    }
}

fn receiver_type_exec(lang: &CompiledLanguage, t: &SyntaxTree, src: &[u8], n: usize) -> (r: Option<String>)
    ensures
        r is Some <==> receiver_type(lang, t, src@, n as int) is Some,
        r matches Some(s) ==> receiver_type(lang, t, src@, n as int) == Some(s@),
    decreases t.len() - n,
{
    if n >= t.nodes.len() {
        return None;
    }
    if lang.kind_is(t, n, "type_identifier") {
        t.text(src, n)
    } else if lang.kind_is(t, n, "pointer_type") || lang.kind_is(t, n, "parenthesized_type") {
        let kids = t.named_children(n);
        if kids.len() > 0 && n < kids[0] && kids[0] < t.nodes.len() {
            receiver_type_exec(lang, t, src, kids[0])
        } else {
            None
        }
    } else if lang.kind_is(t, n, "generic_type") {
        match lang.child_by_field_name(t, n, "type") {
            Some(c) => if n < c && c < t.nodes.len() { receiver_type_exec(lang, t, src, c) } else { None },
            None => None,
        }
    } else {
        None
    }
}

fn receiver_exec(lang: &CompiledLanguage, t: &SyntaxTree, src: &[u8], n: usize) -> (r: Option<(String, Option<String>)>)
    ensures
        r is Some <==> receiver(lang, t, src@, n as int) is Some,
        r matches Some((ty, b)) ==> receiver(lang, t, src@, n as int) matches Some((sty, sb)) && ty@ == sty
            && (b is Some <==> sb is Some) && (b matches Some(x) ==> sb == Some(x@)),
{
    let rec = match lang.child_by_field_name(t, n, "receiver") {
        Some(r) => r,
        None => return None,
    };
    let param = match lang.named_child_of_kind(t, rec, "parameter_declaration") {
        Some(p) => p,
        None => return None,
    };
    let ty = match lang.child_by_field_name(t, param, "type") {
        Some(ty) => ty,
        None => return None,
    };
    let ty_name = match receiver_type_exec(lang, t, src, ty) {
        Some(s) => s,
        None => return None,
    };
    let binding = match field_text_exec(lang, t, src, param, "name") {
        Some(b) => if str_eq(b.as_str(), "_") { None } else { Some(b) },
        None => None,
    };
    Some((ty_name, binding))
}

/// The spellings a Go unit reaches itself by.
pub open spec fn scope_matches(lang: &CompiledLanguage, t: &SyntaxTree, src: Seq<u8>, n: int, r: UnitScope) -> bool {
    match receiver(lang, t, src, n) {
        None => r.container is None && r.self_receivers@.len() == 0 && r.bare_call_recurses,
        Some((ty, b)) => {
            &&& r.container matches Some(c) && c@ == ty
            &&& !r.bare_call_recurses
            &&& match b {
                Some(x) => r.self_receivers@.len() == 2 && r.self_receivers@[0]@ == x && r.self_receivers@[1]@ == ty,
                None => r.self_receivers@.len() == 1 && r.self_receivers@[0]@ == ty,
            }
        },
    }
}

/// `func (s *Stack[T]) Push()` is `Stack::Push`. It reaches itself through `s`, or through its
/// type as the method expression `Stack.Push(s)`; a bare `Push()` is some other function.
pub fn unit_scope(lang: &CompiledLanguage, t: &SyntaxTree, src: &[u8], n: usize) -> (r: UnitScope)
    ensures
        scope_matches(lang, t, src@, n as int, r),
{
    match receiver_exec(lang, t, src, n) {
        None => UnitScope { container: None, self_receivers: Vec::new(), bare_call_recurses: true },
        Some((ty_name, binding)) => {
            let mut self_receivers: Vec<String> = Vec::new();
            match binding {
                Some(b) => self_receivers.push(b),
                None => {},
            }
            let container = ty_name.clone();
            self_receivers.push(ty_name);
            UnitScope { container: Some(container), self_receivers, bare_call_recurses: false }
        },
    }
}

} // verus!

verus! {

/// The call that hands its own binding to `current`, the lone callable argument of it.
pub open spec fn binding_call(lang: &CompiledLanguage, t: &SyntaxTree, p: int, current: int) -> Option<usize> {
    if lang.spec_kind_is(t, p, "argument_list"@) && sole_callable(lang, t, p, current) {
        match t.spec_parent(p) {
            Some(call) => if lang.spec_kind_is(t, call as int, "call_expression"@) { Some(call) } else { None },
            None => None,
        }
    } else {
        None
    }
}

/// A `var` spec inside `var ( … )` is a declaration line of its own.
pub open spec fn is_grouped(lang: &CompiledLanguage, t: &SyntaxTree, spec: int) -> bool {
    match t.spec_parent(spec) {
        Some(list) => lang.spec_kind_is(t, list as int, "var_spec_list"@),
        None => false,
    }
}

/// Climbs from `n` to the declaration a marker would sit above: `var handler = func() {}` from
/// the line before `var`, a map entry from the line before its key. With `through_calls` it
/// also climbs out of a call the node is the lone callable argument of.
pub open spec fn anchor(lang: &CompiledLanguage, t: &SyntaxTree, n: int, through_calls: bool) -> int
    decreases n,
{
    match t.spec_parent(n) {
        None => n,
        Some(p) => if !(p < n) {
            n
        } else if through_calls && binding_call(lang, t, p as int, n) is Some {
            let call = binding_call(lang, t, p as int, n).unwrap();
            if call < n { anchor(lang, t, call as int, through_calls) } else { n }
        } else if lang.spec_kind_is(t, p as int, "expression_list"@) || lang.spec_kind_is(t, p as int, "literal_element"@)
            || lang.spec_kind_is(t, p as int, "keyed_element"@) || lang.spec_kind_is(t, p as int, "parenthesized_expression"@) {
            anchor(lang, t, p as int, through_calls)
        } else if lang.spec_kind_is(t, p as int, "var_spec"@) {
            if is_grouped(lang, t, p as int) { p as int } else { anchor(lang, t, p as int, through_calls) }
        } else if lang.spec_kind_is(t, p as int, "var_declaration"@) {
            p as int
        } else {
            n
        },
    }
}

/// Where a Go unit's marker may sit, innermost first: the unit's own declaration, then, when a
/// call hands it a binding, the declaration of that binding.
pub open spec fn spec_anchors(lang: &CompiledLanguage, t: &SyntaxTree, src: Seq<u8>, n: int) -> Seq<usize> {
    let own = anchor(lang, t, n, false);
    if bound_name(lang, t, src, n) is Some && anchor(lang, t, n, true) != own {
        seq![own as usize, anchor(lang, t, n, true) as usize]
    } else {
        seq![own as usize]
    }
}

fn binding_call_exec(lang: &CompiledLanguage, t: &SyntaxTree, p: usize, current: usize) -> (r: Option<usize>)
    ensures
        r == binding_call(lang, t, p as int, current as int),
{
    if lang.kind_is(t, p, "argument_list") && sole_callable_exec(lang, t, p, current) {
        match t.parent(p) {
            Some(call) => if lang.kind_is(t, call, "call_expression") { Some(call) } else { None },
            None => None,
        }
    } else {
        None
    }
}

fn anchor_exec(lang: &CompiledLanguage, t: &SyntaxTree, n: usize, through_calls: bool) -> (r: usize)
    ensures
        r as int == anchor(lang, t, n as int, through_calls),
    decreases n,
{
    let p = match t.parent(n) {
        Some(p) => p,
        None => return n,
    };
    if !(p < n) {
        return n;
    }
    if through_calls {
        match binding_call_exec(lang, t, p, n) {
            Some(call) => {
                return if call < n { anchor_exec(lang, t, call, through_calls) } else { n };
            },
            None => {},
        }
    }
    if lang.kind_is(t, p, "expression_list") || lang.kind_is(t, p, "literal_element")
        || lang.kind_is(t, p, "keyed_element") || lang.kind_is(t, p, "parenthesized_expression") {
        anchor_exec(lang, t, p, through_calls)
    } else if lang.kind_is(t, p, "var_spec") {
        let grouped = match t.parent(p) {
            Some(list) => lang.kind_is(t, list, "var_spec_list"),
            None => false,
        };
        if grouped { p } else { anchor_exec(lang, t, p, through_calls) }
    } else if lang.kind_is(t, p, "var_declaration") {
        p
    } else {
        n
    }
}

/// Where a Go unit's marker may sit, innermost first.
pub fn suppression_anchors(lang: &CompiledLanguage, t: &SyntaxTree, src: &[u8], n: usize) -> (r: Vec<usize>)
    ensures
        r@ == spec_anchors(lang, t, src@, n as int),
{
    let own = anchor_exec(lang, t, n, false);
    let mut out: Vec<usize> = Vec::new();
    out.push(own);
    if bound_name_exec(lang, t, src, n).is_some() {
        let declaration = anchor_exec(lang, t, n, true);
        if declaration != own {
            out.push(declaration);
        }
    }
    assert(out@ =~= spec_anchors(lang, t, src@, n as int));
    out
}

} // verus!

verus! {

/// Whether Go source is machine-written: a `// Code generated … DO NOT EDIT.` line before the
/// first line of code.
pub fn is_generated(source: &str) -> (r: bool)
    ensures
        r == spec_go_is_generated(source@),
{
    let all = chars_of(source);
    let mut rest = drop_bom_exec(&all);
    let mut in_block = false;
    loop
        invariant
            spec_go_is_generated(source@) == go_header(rest@, in_block),
        decreases rest@.len(),
    {
        if rest.len() == 0 {
            return false;
        }
        proof {
            lemma_next_line(rest@);
        }
        let (line, tail) = next_line_exec(&rest);
        let visible = if in_block {
            after_close(&line)
        } else {
            Some(line)
        };
        match visible {
            None => {
                rest = tail;
                in_block = true;
            },
            Some(x) => {
                let k = header_kind_exec(&trim_chars(&x));
                if k == 0 {
                    return true;
                } else if k == 1 {
                    rest = tail;
                    in_block = false;
                } else if k == 2 {
                    rest = tail;
                    in_block = true;
                } else {
                    return false;
                }
            },
        }
    }
}

} // verus!
