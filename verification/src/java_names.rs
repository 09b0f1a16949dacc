//! How Java names its units, keys overloads apart, and where a marker above one sits.
use vstd::prelude::*;
use crate::generated::{drop_bom, drop_bom_exec, header_says_generated, java_header, lemma_split_once, spec_java_is_generated, split_once_exec};
use crate::text::{lemma_skip_ws_bounds, starts_with_lit, sub_chars};
use crate::finding::{NameOrigin, UnitName, UnitScope, ANONYMOUS_UNIT};
use crate::java::{parameter_type, simple_type, spec_parameter_type, spec_simple_type};
use crate::language::CompiledLanguage;
use crate::names::{
    field_is, field_text, field_text_exec, index_from, is_field, keep, keyed, plain_callee,
    plain_callee_exec, position, slice_text, slice_text_exec, spec_keyed,
};
use crate::naming::{compact, compact_chars, spec_compact};
use crate::scope::{last_segment, last_segment_exec};
use crate::syntax::SyntaxTree;
use crate::text::{chars_of, push_lit, str_eq, string_from};

verus! {

/// `parts` joined by `sep`.
pub open spec fn join(parts: Seq<Seq<char>>, sep: Seq<char>) -> Seq<char>
    decreases parts.len(),
{
    if parts.len() == 0 {
        Seq::empty()
    } else if parts.len() == 1 {
        parts[0]
    } else {
        join(parts.drop_last(), sep) + sep + parts.last()
    }
}

/// The types the parameters in `kids` declare, in order, skipping what declares none.
pub open spec fn parameter_types(lang: &CompiledLanguage, t: &SyntaxTree, src: Seq<u8>, kids: Seq<usize>) -> Seq<Seq<char>>
    decreases kids.len(),
{
    if kids.len() == 0 {
        Seq::empty()
    } else {
        let front = parameter_types(lang, t, src, kids.drop_last());
        match spec_parameter_type(lang, t, src, kids.last() as int) {
            Some(ty) => front.push(ty),
            None => front,
        }
    }
}

/// The signature an overload is keyed by: its parameter types in brackets.
pub open spec fn signature(lang: &CompiledLanguage, t: &SyntaxTree, src: Seq<u8>, parameters: Option<usize>) -> Seq<char> {
    let types = match parameters {
        Some(p) => parameter_types(lang, t, src, t.spec_named_children(p as int)),
        None => Seq::empty(),
    };
    "("@ + join(types, ", "@) + ")"@
}

/// A compact constructor is the canonical one, so its parameters are the record's components.
pub open spec fn record_parameters(lang: &CompiledLanguage, t: &SyntaxTree, n: int) -> Option<usize> {
    match t.spec_parent(n) {
        Some(body) => match t.spec_parent(body as int) {
            Some(record) => if lang.spec_kind_is(t, record as int, "record_declaration"@) {
                lang.spec_child_by_field_name(t, record as int, "parameters"@)
            } else {
                None
            },
            None => None,
        },
        None => None,
    }
}

/// An anonymous class is Java's other closure, so it competes for a binding like a lambda.
pub open spec fn is_callable(lang: &CompiledLanguage, t: &SyntaxTree, a: usize) -> bool {
    ||| lang.spec_kind_is(t, a as int, "lambda_expression"@)
    ||| lang.spec_kind_is(t, a as int, "method_reference"@)
    ||| lang.spec_kind_is(t, a as int, "method_invocation"@)
    ||| (lang.spec_kind_is(t, a as int, "object_creation_expression"@) && lang.spec_has_named_kind(t, a as int, "class_body"@))
}

fn is_callable_exec(lang: &CompiledLanguage, t: &SyntaxTree, a: usize) -> (r: bool)
    ensures
        r == is_callable(lang, t, a),
{
    lang.kind_is(t, a, "lambda_expression") || lang.kind_is(t, a, "method_reference")
        || lang.kind_is(t, a, "method_invocation")
        || (lang.kind_is(t, a, "object_creation_expression") && lang.has_named_kind(t, a, "class_body"))
}

/// The call whose lone callable argument `current` is, as in `memoize(() -> …)`.
pub open spec fn binding_call(lang: &CompiledLanguage, t: &SyntaxTree, p: int, current: int) -> Option<usize> {
    if lang.spec_kind_is(t, p, "argument_list"@)
        && keep(t.spec_named_children(p), |a: usize| is_callable(lang, t, a)) == seq![current as usize] {
        match t.spec_parent(p) {
            Some(call) => if lang.spec_kind_is(t, call as int, "method_invocation"@)
                || lang.spec_kind_is(t, call as int, "object_creation_expression"@) {
                Some(call)
            } else {
                None
            },
            None => None,
        }
    } else {
        None
    }
}

fn binding_call_exec(lang: &CompiledLanguage, t: &SyntaxTree, p: usize, current: usize) -> (r: Option<usize>)
    ensures
        r == binding_call(lang, t, p as int, current as int),
{
    if !lang.kind_is(t, p, "argument_list") {
        return None;
    }
    let kids = t.named_children(p);
    let ghost pred = |a: usize| is_callable(lang, t, a);
    let mut found: Vec<usize> = Vec::new();
    let mut k: usize = 0;
    while k < kids.len()
        invariant
            0 <= k <= kids@.len(),
            pred == (|a: usize| is_callable(lang, t, a)),
            found@ == keep(kids@.subrange(0, k as int), pred),
        decreases kids@.len() - k,
    {
        proof {
            assert(kids@.subrange(0, k + 1).drop_last() =~= kids@.subrange(0, k as int));
        }
        if is_callable_exec(lang, t, kids[k]) {
            found.push(kids[k]);
        }
        k = k + 1;
    }
    proof {
        assert(kids@.subrange(0, kids@.len() as int) =~= kids@);
    }
    let sole = found.len() == 1 && found[0] == current;
    proof {
        if sole {
            assert(found@ =~= seq![current]);
        }
    }
    if !sole {
        return None;
    }
    match t.parent(p) {
        Some(call) => if lang.kind_is(t, call, "method_invocation") || lang.kind_is(t, call, "object_creation_expression") {
            Some(call)
        } else {
            None
        },
        None => None,
    }
}

/// What a class-level lambda or anonymous class is bound to: a field, an assignment, or
/// through a factory call, whatever that call is bound to.
pub open spec fn bound_name(lang: &CompiledLanguage, t: &SyntaxTree, src: Seq<u8>, n: int) -> Option<Seq<char>>
    decreases n,
{
    match t.spec_parent(n) {
        None => None,
        Some(p) => if !(p < n) {
            None
        } else if lang.spec_kind_is(t, p as int, "variable_declarator"@) && field_is(lang, t, p as int, "value"@, n) {
            match field_text(lang, t, src, p as int, "name"@) {
                Some(name) => if name == "_"@ { None } else { Some(name) },
                None => None,
            }
        } else if lang.spec_kind_is(t, p as int, "assignment_expression"@) && field_is(lang, t, p as int, "right"@, n) {
            match field_text(lang, t, src, p as int, "left"@) {
                Some(l) => Some(spec_compact(l)),
                None => None,
            }
        } else if lang.spec_kind_is(t, p as int, "argument_list"@) {
            match binding_call(lang, t, p as int, n) {
                Some(call) => if call < n { bound_name(lang, t, src, call as int) } else { None },
                None => None,
            }
        } else if lang.spec_kind_is(t, p as int, "parenthesized_expression"@) || lang.spec_kind_is(t, p as int, "cast_expression"@) {
            bound_name(lang, t, src, p as int)
        } else {
            None
        },
    }
}

/// A method's callee is its source up to the arguments; a constructor names its type as a
/// parameter does.
pub open spec fn callee_name(lang: &CompiledLanguage, t: &SyntaxTree, src: Seq<u8>, call: int, args: int) -> Option<Seq<char>> {
    if lang.spec_kind_is(t, call, "method_invocation"@) {
        match slice_text(src, t.spec_start_byte(call) as int, t.spec_start_byte(args) as int) {
            Some(raw) => if plain_callee(spec_compact(raw), seq!['(', '{']) { Some(spec_compact(raw)) } else { None },
            None => None,
        }
    } else if lang.spec_kind_is(t, call, "object_creation_expression"@) {
        match lang.spec_child_by_field_name(t, call, "type"@) {
            Some(ty) => match spec_simple_type(lang, t, src, ty as int) {
                Some(s) => Some("new "@ + s),
                None => None,
            },
            None => None,
        }
    } else {
        None
    }
}

/// A callback that is nobody's value: its call plus its argument position.
pub open spec fn positional_name(lang: &CompiledLanguage, t: &SyntaxTree, src: Seq<u8>, n: int) -> Option<Seq<char>> {
    match t.spec_parent(n) {
        Some(args) => if !lang.spec_kind_is(t, args as int, "argument_list"@) {
            None
        } else {
            match t.spec_parent(args as int) {
                Some(call) => match callee_name(lang, t, src, call as int, args as int) {
                    Some(callee) => match index_from(t.spec_named_children(args as int), n as usize, 0) {
                        Some(i) => Some(spec_keyed(callee, i as nat)),
                        None => None,
                    },
                    None => None,
                },
                None => None,
            }
        },
        None => None,
    }
}

pub open spec fn lambda_name(lang: &CompiledLanguage, t: &SyntaxTree, src: Seq<u8>, n: int) -> (Seq<char>, NameOrigin) {
    match bound_name(lang, t, src, n) {
        Some(b) => (b, NameOrigin::Bound),
        None => match positional_name(lang, t, src, n) {
            Some(k) => (k, NameOrigin::Positional),
            None => (ANONYMOUS_UNIT@, NameOrigin::Anonymous),
        },
    }
}

/// The name, origin and signature a Java unit is reported under.
pub open spec fn spec_unit_name(lang: &CompiledLanguage, t: &SyntaxTree, src: Seq<u8>, n: int) -> (Seq<char>, NameOrigin, Seq<char>) {
    if lang.spec_kind_is(t, n, "method_declaration"@) || lang.spec_kind_is(t, n, "constructor_declaration"@)
        || lang.spec_kind_is(t, n, "compact_constructor_declaration"@) {
        let parameters = if lang.spec_kind_is(t, n, "compact_constructor_declaration"@) {
            record_parameters(lang, t, n)
        } else {
            lang.spec_child_by_field_name(t, n, "parameters"@)
        };
        match field_text(lang, t, src, n, "name"@) {
            Some(name) => (name, NameOrigin::Declared, signature(lang, t, src, parameters)),
            None => (ANONYMOUS_UNIT@, NameOrigin::Anonymous, Seq::empty()),
        }
    } else if lang.spec_kind_is(t, n, "static_initializer"@) {
        ("<static>"@, NameOrigin::Positional, Seq::empty())
    } else {
        let (name, origin) = lambda_name(lang, t, src, n);
        (name, origin, Seq::empty())
    }
}

/// An enum constant's body takes the constant's name, an anonymous class the name of what
/// holds it, and a declaration its own name.
pub open spec fn spec_container_name(lang: &CompiledLanguage, t: &SyntaxTree, src: Seq<u8>, n: int) -> Option<Seq<char>> {
    if !lang.spec_kind_is(t, n, "class_body"@) {
        field_text(lang, t, src, n, "name"@)
    } else {
        match t.spec_parent(n) {
            Some(owner) => if lang.spec_kind_is(t, owner as int, "enum_constant"@) {
                field_text(lang, t, src, owner as int, "name"@)
            } else if lang.spec_kind_is(t, owner as int, "object_creation_expression"@) {
                match bound_name(lang, t, src, owner as int) {
                    Some(b) => Some(b),
                    None => positional_name(lang, t, src, owner as int),
                }
            } else {
                None
            },
            None => None,
        }
    }
}

} // verus!

verus! {

pub fn bound_name_exec(lang: &CompiledLanguage, t: &SyntaxTree, src: &[u8], n: usize) -> (r: Option<String>)
    ensures
        r is Some <==> bound_name(lang, t, src@, n as int) is Some,
        r matches Some(s) ==> bound_name(lang, t, src@, n as int) == Some(s@),
    decreases n,
{
    let p = match t.parent(n) {
        Some(p) => p,
        None => return None,
    };
    if !(p < n) {
        return None;
    }
    if lang.kind_is(t, p, "variable_declarator") && is_field(lang, t, p, "value", n) {
        match field_text_exec(lang, t, src, p, "name") {
            Some(name) => if str_eq(name.as_str(), "_") { None } else { Some(name) },
            None => None,
        }
    } else if lang.kind_is(t, p, "assignment_expression") && is_field(lang, t, p, "right", n) {
        match field_text_exec(lang, t, src, p, "left") {
            Some(l) => Some(compact(l.as_str())),
            None => None,
        }
    } else if lang.kind_is(t, p, "argument_list") {
        match binding_call_exec(lang, t, p, n) {
            Some(call) => if call < n { bound_name_exec(lang, t, src, call) } else { None },
            None => None,
        }
    } else if lang.kind_is(t, p, "parenthesized_expression") || lang.kind_is(t, p, "cast_expression") {
        bound_name_exec(lang, t, src, p)
    } else {
        None
    }
}

fn callee_name_exec(lang: &CompiledLanguage, t: &SyntaxTree, src: &[u8], call: usize, args: usize) -> (r: Option<String>)
    ensures
        r is Some <==> callee_name(lang, t, src@, call as int, args as int) is Some,
        r matches Some(s) ==> callee_name(lang, t, src@, call as int, args as int) == Some(s@),
{
    if lang.kind_is(t, call, "method_invocation") {
        let raw = match slice_text_exec(src, t.start_byte(call), t.start_byte(args)) {
            Some(raw) => raw,
            None => return None,
        };
        let callee = compact_chars(&chars_of(raw.as_str()));
        let mut openers: Vec<char> = Vec::new();
        openers.push('(');
        openers.push('{');
        assert(openers@ =~= seq!['(', '{']);
        if plain_callee_exec(&callee, &openers) { Some(string_from(callee.as_slice())) } else { None }
    } else if lang.kind_is(t, call, "object_creation_expression") {
        match lang.child_by_field_name(t, call, "type") {
            Some(ty) => match simple_type(lang, t, src, ty) {
                Some(s) => {
                    let mut out: Vec<char> = Vec::new();
                    push_lit(&mut out, "new ");
                    let ghost head = out@;
                    let mut i: usize = 0;
                    while i < s.len()
                        invariant
                            0 <= i <= s@.len(),
                            out@ == head + s@.subrange(0, i as int),
                        decreases s@.len() - i,
                    {
                        out.push(s[i]);
                        proof {
                            assert(head + s@.subrange(0, i + 1) =~= (head + s@.subrange(0, i as int)).push(s@[i as int]));
                        }
                        i = i + 1;
                    }
                    assert(s@.subrange(0, s@.len() as int) =~= s@);
                    assert(head =~= "new "@);
                    Some(string_from(out.as_slice()))
                },
                None => None,
            },
            None => None,
        }
    } else {
        None
    }
}

fn positional_name_exec(lang: &CompiledLanguage, t: &SyntaxTree, src: &[u8], n: usize) -> (r: Option<String>)
    ensures
        r is Some <==> positional_name(lang, t, src@, n as int) is Some,
        r matches Some(s) ==> positional_name(lang, t, src@, n as int) == Some(s@),
{
    let args = match t.parent(n) {
        Some(a) => a,
        None => return None,
    };
    if !lang.kind_is(t, args, "argument_list") {
        return None;
    }
    let call = match t.parent(args) {
        Some(c) => c,
        None => return None,
    };
    let callee = match callee_name_exec(lang, t, src, call, args) {
        Some(c) => c,
        None => return None,
    };
    let kids = t.named_children(args);
    match position(&kids, n) {
        Some(i) => Some(keyed(callee.as_str(), i)),
        None => None,
    }
}

fn join_exec(parts: &Vec<Vec<char>>, sep: &str) -> (r: Vec<char>)
    ensures
        r@ == join(parts@.map_values(|v: Vec<char>| v@), sep@),
{
    let ghost views = parts@.map_values(|v: Vec<char>| v@);
    let mut out: Vec<char> = Vec::new();
    let mut k: usize = 0;
    while k < parts.len()
        invariant
            0 <= k <= parts@.len(),
            views == parts@.map_values(|v: Vec<char>| v@),
            out@ == join(views.subrange(0, k as int), sep@),
        decreases parts@.len() - k,
    {
        let ghost before = out@;
        if k > 0 {
            push_lit(&mut out, sep);
        }
        let part = &parts[k];
        let ghost mid = out@;
        let mut i: usize = 0;
        while i < part.len()
            invariant
                0 <= i <= part@.len(),
                out@ == mid + part@.subrange(0, i as int),
            decreases part@.len() - i,
        {
            out.push(part[i]);
            proof {
                assert(mid + part@.subrange(0, i + 1) =~= (mid + part@.subrange(0, i as int)).push(part@[i as int]));
            }
            i = i + 1;
        }
        proof {
            assert(part@.subrange(0, part@.len() as int) =~= part@);
            let s = views.subrange(0, k + 1);
            assert(s.drop_last() =~= views.subrange(0, k as int));
            assert(s.last() == part@);
            if k == 0 {
                assert(s.len() == 1);
                assert(out@ =~= part@);
            } else {
                assert(out@ =~= before + sep@ + part@);
            }
        }
        k = k + 1;
    }
    assert(views.subrange(0, parts@.len() as int) =~= views);
    out
}

fn signature_exec(lang: &CompiledLanguage, t: &SyntaxTree, src: &[u8], parameters: Option<usize>) -> (r: String)
    ensures
        r@ == signature(lang, t, src@, parameters),
{
    let mut types: Vec<Vec<char>> = Vec::new();
    match parameters {
        Some(p) => {
            let kids = t.named_children(p);
            let mut k: usize = 0;
            while k < kids.len()
                invariant
                    0 <= k <= kids@.len(),
                    types@.map_values(|v: Vec<char>| v@) == parameter_types(lang, t, src@, kids@.subrange(0, k as int)),
                decreases kids@.len() - k,
            {
                proof {
                    assert(kids@.subrange(0, k + 1).drop_last() =~= kids@.subrange(0, k as int));
                }
                let ghost before = types@;
                match parameter_type(lang, t, src, kids[k]) {
                    Some(ty) => {
                        types.push(ty);
                        assert(types@.map_values(|v: Vec<char>| v@) =~= before.map_values(|v: Vec<char>| v@).push(types@.last()@));
                    },
                    None => {},
                }
                k = k + 1;
            }
            assert(kids@.subrange(0, kids@.len() as int) =~= kids@);
        },
        None => {
            assert(types@.map_values(|v: Vec<char>| v@) =~= Seq::<Seq<char>>::empty());
        },
    }
    let inner = join_exec(&types, ", ");
    let mut out: Vec<char> = Vec::new();
    push_lit(&mut out, "(");
    let ghost head = out@;
    let mut i: usize = 0;
    while i < inner.len()
        invariant
            0 <= i <= inner@.len(),
            out@ == head + inner@.subrange(0, i as int),
        decreases inner@.len() - i,
    {
        out.push(inner[i]);
        proof {
            assert(head + inner@.subrange(0, i + 1) =~= (head + inner@.subrange(0, i as int)).push(inner@[i as int]));
        }
        i = i + 1;
    }
    push_lit(&mut out, ")");
    assert(inner@.subrange(0, inner@.len() as int) =~= inner@);
    string_from(out.as_slice())
}

fn record_parameters_exec(lang: &CompiledLanguage, t: &SyntaxTree, n: usize) -> (r: Option<usize>)
    ensures
        r == record_parameters(lang, t, n as int),
{
    match t.parent(n) {
        Some(body) => match t.parent(body) {
            Some(record) => if lang.kind_is(t, record, "record_declaration") {
                lang.child_by_field_name(t, record, "parameters")
            } else {
                None
            },
            None => None,
        },
        None => None,
    }
}

/// The name a Java unit is reported under. A method or constructor is keyed by its parameter
/// types too, since an overload is a separate method that shares the name.
pub fn unit_name(lang: &CompiledLanguage, t: &SyntaxTree, src: &[u8], n: usize) -> (r: UnitName)
    ensures
        (r.text@, r.origin, r.signature@) == spec_unit_name(lang, t, src@, n as int),
{
    let compact_ctor = lang.kind_is(t, n, "compact_constructor_declaration");
    if lang.kind_is(t, n, "method_declaration") || lang.kind_is(t, n, "constructor_declaration") || compact_ctor {
        let parameters = if compact_ctor {
            record_parameters_exec(lang, t, n)
        } else {
            lang.child_by_field_name(t, n, "parameters")
        };
        return match field_text_exec(lang, t, src, n, "name") {
            Some(name) => UnitName::declared(name).with_signature(signature_exec(lang, t, src, parameters)),
            None => UnitName::anonymous(),
        };
    }
    if lang.kind_is(t, n, "static_initializer") {
        return UnitName::positional("<static>".to_owned());
    }
    match bound_name_exec(lang, t, src, n) {
        Some(b) => UnitName::bound(b),
        None => match positional_name_exec(lang, t, src, n) {
            Some(k) => UnitName::positional(k),
            None => UnitName::anonymous(),
        },
    }
}

pub fn container_name(lang: &CompiledLanguage, t: &SyntaxTree, src: &[u8], n: usize) -> (r: Option<String>)
    ensures
        r is Some <==> spec_container_name(lang, t, src@, n as int) is Some,
        r matches Some(s) ==> spec_container_name(lang, t, src@, n as int) == Some(s@),
{
    if !lang.kind_is(t, n, "class_body") {
        return field_text_exec(lang, t, src, n, "name");
    }
    let owner = match t.parent(n) {
        Some(o) => o,
        None => return None,
    };
    if lang.kind_is(t, owner, "enum_constant") {
        field_text_exec(lang, t, src, owner, "name")
    } else if lang.kind_is(t, owner, "object_creation_expression") {
        match bound_name_exec(lang, t, src, owner) {
            Some(b) => Some(b),
            None => positional_name_exec(lang, t, src, owner),
        }
    } else {
        None
    }
}

/// A static method is reached through its class's name and an inner class's method through
/// `Outer.this`; `super` reaches the parent's method, not this one.
pub fn unit_scope(container: Option<&str>) -> (r: UnitScope)
    ensures
        r.container is None,
        r.bare_call_recurses,
        r.self_receivers@.len() >= 1,
        r.self_receivers@[0]@ == "this"@,
        container is None ==> r.self_receivers@.len() == 1,
        container matches Some(c) ==> r.self_receivers@.len() == 3
            && r.self_receivers@[1]@ == last_segment(c@)
            && r.self_receivers@[2]@ == last_segment(c@) + ".this"@,
{
    let mut self_receivers: Vec<String> = Vec::new();
    self_receivers.push("this".to_owned());
    match container {
        Some(c) => {
            let last = last_segment_exec(c);
            let dotted = crate::finding::concat(last.as_str(), ".this");
            self_receivers.push(last);
            self_receivers.push(dotted);
        },
        None => {},
    }
    UnitScope { container: None, self_receivers, bare_call_recurses: true }
}

/// `static { … }` holds its block unfielded.
pub fn unit_body(lang: &CompiledLanguage, t: &SyntaxTree, n: usize) -> (r: Option<usize>)
    ensures
        r == (if lang.spec_kind_is(t, n as int, "static_initializer"@) {
            lang.spec_named_child_of_kind(t, n as int, "block"@)
        } else {
            t.spec_field(n as int, lang.fields.body)
        }),
{
    if lang.kind_is(t, n, "static_initializer") {
        lang.named_child_of_kind(t, n, "block")
    } else {
        t.child_by_field(n, lang.fields.body)
    }
}

} // verus!

verus! {

/// Climbs to the declaration a marker would sit above: `Runnable handler = () -> {}` from the
/// line before the field; with `through_calls`, out of a binding call too.
pub open spec fn anchor(lang: &CompiledLanguage, t: &SyntaxTree, n: int, through_calls: bool) -> int
    decreases n,
{
    match t.spec_parent(n) {
        None => n,
        Some(p) => if !(p < n) {
            n
        } else if through_calls && binding_call(lang, t, p as int, n) is Some {
            let call = binding_call(lang, t, p as int, n).unwrap();
            if call < n { anchor(lang, t, call as int, through_calls) } else { n }
        } else if lang.spec_kind_is(t, p as int, "variable_declarator"@) || lang.spec_kind_is(t, p as int, "assignment_expression"@)
            || lang.spec_kind_is(t, p as int, "parenthesized_expression"@) || lang.spec_kind_is(t, p as int, "cast_expression"@) {
            anchor(lang, t, p as int, through_calls)
        } else if lang.spec_kind_is(t, p as int, "field_declaration"@) || lang.spec_kind_is(t, p as int, "local_variable_declaration"@)
            || lang.spec_kind_is(t, p as int, "constant_declaration"@) || lang.spec_kind_is(t, p as int, "expression_statement"@) {
            p as int
        } else {
            n
        },
    }
}

pub open spec fn spec_anchors(lang: &CompiledLanguage, t: &SyntaxTree, src: Seq<u8>, n: int) -> Seq<usize> {
    let own = anchor(lang, t, n, false);
    if bound_name(lang, t, src, n) is Some && anchor(lang, t, n, true) != own {
        seq![own as usize, anchor(lang, t, n, true) as usize]
    } else {
        seq![own as usize]
    }
}

fn anchor_exec(lang: &CompiledLanguage, t: &SyntaxTree, n: usize, through_calls: bool) -> (r: usize)
    ensures
        r as int == anchor(lang, t, n as int, through_calls),
    decreases n,
{
    let p = match t.parent(n) {
        Some(p) => p,
        None => return n,
    };
    if !(p < n) {
        return n;
    }
    if through_calls {
        match binding_call_exec(lang, t, p, n) {
            Some(call) => {
                return if call < n { anchor_exec(lang, t, call, through_calls) } else { n };
            },
            None => {},
        }
    }
    if lang.kind_is(t, p, "variable_declarator") || lang.kind_is(t, p, "assignment_expression")
        || lang.kind_is(t, p, "parenthesized_expression") || lang.kind_is(t, p, "cast_expression") {
        anchor_exec(lang, t, p, through_calls)
    } else if lang.kind_is(t, p, "field_declaration") || lang.kind_is(t, p, "local_variable_declaration")
        || lang.kind_is(t, p, "constant_declaration") || lang.kind_is(t, p, "expression_statement") {
        p
    } else {
        n
    }
}

/// The unit's own position first, then, when a call hands it a binding, the declaration of
/// that binding.
pub fn suppression_anchors(lang: &CompiledLanguage, t: &SyntaxTree, src: &[u8], n: usize) -> (r: Vec<usize>)
    ensures
        r@ == spec_anchors(lang, t, src@, n as int),
{
    let own = anchor_exec(lang, t, n, false);
    let mut out: Vec<usize> = Vec::new();
    out.push(own);
    if bound_name_exec(lang, t, src, n).is_some() {
        let declaration = anchor_exec(lang, t, n, true);
        if declaration != own {
            out.push(declaration);
        }
    }
    assert(out@ =~= spec_anchors(lang, t, src@, n as int));
    out
}

} // verus!

verus! {

/// Whether Java source is machine-written: its header comments say both "generated" and "do
/// not edit".
pub fn is_generated(source: &str) -> (r: bool)
    ensures
        r == spec_java_is_generated(source@),
{
    let all = chars_of(source);
    let mut rest = drop_bom_exec(&all);
    let mut header: Vec<char> = Vec::new();
    let nl = vec!['\n'];
    let close = chars_of("*/");
    proof {
        reveal_strlit("//");
        reveal_strlit("/*");
        reveal_strlit("*/");
        assert(nl@ =~= seq!['\n']);
    }
    let mut going = true;
    while going
        invariant
            nl@ == seq!['\n'],
            close@ == "*/"@,
            "//"@ == seq!['/', '/'],
            "/*"@ == seq!['/', '*'],
            "*/"@ == seq!['*', '/'],
            going ==> header@ + java_header(rest@) == java_header(drop_bom(source@)),
            !going ==> header@ == java_header(drop_bom(source@)),
        decreases rest@.len(), if going { 1int } else { 0int },
    {
        let n = rest.len();
        let (lo, _) = crate::text::trim_bounds(&rest);
        proof {
            lemma_skip_ws_bounds(rest@, 0);
        }
        let r = sub_chars(&rest, lo, n);
        let line_comment = starts_with_lit(&r, "//");
        let block_comment = !line_comment && starts_with_lit(&r, "/*");
        if !line_comment && !block_comment {
            assert(java_header(rest@) =~= Seq::<char>::empty());
            assert(header@ + Seq::<char>::empty() =~= header@);
            going = false;
        } else {
            let inner = sub_chars(&r, 2, r.len());
            let (comment, tail) = if line_comment { split_once_exec(&inner, &nl) } else { split_once_exec(&inner, &close) };
            proof {
                lemma_split_once(inner@, if line_comment { nl@ } else { close@ });
            }
            let ghost before = header@;
            let mut k: usize = 0;
            while k < comment.len()
                invariant
                    0 <= k <= comment@.len(),
                    header@ == before + comment@.subrange(0, k as int),
                decreases comment@.len() - k,
            {
                header.push(comment[k]);
                proof {
                    assert(comment@.subrange(0, k + 1) =~= comment@.subrange(0, k as int).push(comment@[k as int]));
                }
                k = k + 1;
            }
            header.push('\n');
            proof {
                assert(comment@.subrange(0, comment@.len() as int) =~= comment@);
                assert(java_header(rest@) == comment@ + seq!['\n'] + java_header(tail@));
                assert(header@ + java_header(tail@) =~= before + (comment@ + seq!['\n'] + java_header(tail@)));
            }
            rest = tail;
        }
    }
    let text = string_from(header.as_slice());
    header_says_generated(text.as_str())
}

} // verus!
