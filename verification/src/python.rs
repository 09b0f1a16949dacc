//! How Python names its units, where a marker above one sits, and which bodies only declare.
use vstd::prelude::*;
use crate::generated::{drop_bom, drop_bom_exec, header_says_generated, lemma_next_line, next_line_exec, python_header, spec_python_is_generated};
use crate::text::trim_chars;
use crate::finding::{NameOrigin, UnitName, UnitScope, ANONYMOUS_UNIT};
use crate::language::CompiledLanguage;
use crate::names::{
    field_is, field_text, field_text_exec, index_from, is_field, keep, keyed, plain_callee,
    plain_callee_exec, position, slice_text, slice_text_exec, spec_keyed,
};
use crate::naming::{compact, compact_chars, spec_compact};
use crate::syntax::SyntaxTree;
use crate::text::{chars_of, str_eq, string_from};

verus! {

/// A lambda, bare or as a keyword argument's value.
pub open spec fn is_lambda_argument(lang: &CompiledLanguage, t: &SyntaxTree, a: usize) -> bool {
    ||| lang.spec_kind_is(t, a as int, "lambda"@)
    ||| (lang.spec_kind_is(t, a as int, "keyword_argument"@) && match lang.spec_child_by_field_name(t, a as int, "value"@) {
        Some(v) => lang.spec_kind_is(t, v as int, "lambda"@),
        None => false,
    })
}

fn is_lambda_argument_exec(lang: &CompiledLanguage, t: &SyntaxTree, a: usize) -> (r: bool)
    ensures
        r == is_lambda_argument(lang, t, a),
{
    if lang.kind_is(t, a, "lambda") {
        return true;
    }
    if !lang.kind_is(t, a, "keyword_argument") {
        return false;
    }
    match lang.child_by_field_name(t, a, "value") {
        Some(v) => lang.kind_is(t, v, "lambda"),
        None => false,
    }
}

/// The call that hands its own binding to `current`, the one lambda among its arguments.
pub open spec fn binding_call(lang: &CompiledLanguage, t: &SyntaxTree, args: int, current: int) -> Option<usize> {
    if keep(t.spec_named_children(args), |a: usize| is_lambda_argument(lang, t, a)) == seq![current as usize] {
        match t.spec_parent(args) {
            Some(call) => if lang.spec_kind_is(t, call as int, "call"@) { Some(call) } else { None },
            None => None,
        }
    } else {
        None
    }
}

fn binding_call_exec(lang: &CompiledLanguage, t: &SyntaxTree, args: usize, current: usize) -> (r: Option<usize>)
    ensures
        r == binding_call(lang, t, args as int, current as int),
{
    let kids = t.named_children(args);
    let ghost pred = |a: usize| is_lambda_argument(lang, t, a);
    let mut found: Vec<usize> = Vec::new();
    let mut k: usize = 0;
    while k < kids.len()
        invariant
            0 <= k <= kids@.len(),
            pred == (|a: usize| is_lambda_argument(lang, t, a)),
            found@ == keep(kids@.subrange(0, k as int), pred),
        decreases kids@.len() - k,
    {
        proof {
            assert(kids@.subrange(0, k + 1).drop_last() =~= kids@.subrange(0, k as int));
        }
        if is_lambda_argument_exec(lang, t, kids[k]) {
            found.push(kids[k]);
        }
        k = k + 1;
    }
    proof {
        assert(kids@.subrange(0, kids@.len() as int) =~= kids@);
    }
    let sole = found.len() == 1 && found[0] == current;
    proof {
        if sole {
            assert(found@ =~= seq![current]);
        }
    }
    if !sole {
        return None;
    }
    match t.parent(args) {
        Some(call) => if lang.kind_is(t, call, "call") { Some(call) } else { None },
        None => None,
    }
}

/// What a module- or class-level lambda is bound to: an assignment, or, through a call handing
/// its own binding to a lone lambda argument, whatever that call is bound to.
pub open spec fn bound_name(lang: &CompiledLanguage, t: &SyntaxTree, src: Seq<u8>, n: int) -> Option<Seq<char>>
    decreases n,
{
    match t.spec_parent(n) {
        None => None,
        Some(p) => if !(p < n) {
            None
        } else if lang.spec_kind_is(t, p as int, "assignment"@) && field_is(lang, t, p as int, "right"@, n) {
            match field_text(lang, t, src, p as int, "left"@) {
                Some(l) => Some(spec_compact(l)),
                None => None,
            }
        } else if lang.spec_kind_is(t, p as int, "keyword_argument"@) && field_is(lang, t, p as int, "value"@, n) {
            bound_name(lang, t, src, p as int)
        } else if lang.spec_kind_is(t, p as int, "argument_list"@) {
            match binding_call(lang, t, p as int, n) {
                Some(call) => if call < n { bound_name(lang, t, src, call as int) } else { None },
                None => None,
            }
        } else if lang.spec_kind_is(t, p as int, "parenthesized_expression"@) {
            bound_name(lang, t, src, p as int)
        } else {
            None
        },
    }
}

/// The arguments of a call that are not comments.
pub open spec fn arguments_of(lang: &CompiledLanguage, t: &SyntaxTree, args: int) -> Seq<usize> {
    keep(t.spec_named_children(args), |a: usize| !lang.spec_kind_is(t, a as int, "comment"@))
}

/// A callback that is nobody's value: its call's source up to the arguments, compacted, plus
/// its argument position; a keyword argument counts as the lambda it holds.
pub open spec fn positional_name(lang: &CompiledLanguage, t: &SyntaxTree, src: Seq<u8>, n: int) -> Option<Seq<char>> {
    let argument = match t.spec_parent(n) {
        Some(p) => if lang.spec_kind_is(t, p as int, "keyword_argument"@) { p as int } else { n },
        None => n,
    };
    match t.spec_parent(argument) {
        Some(args) => if !lang.spec_kind_is(t, args as int, "argument_list"@) {
            None
        } else {
            match t.spec_parent(args as int) {
                Some(call) => if !lang.spec_kind_is(t, call as int, "call"@) {
                    None
                } else {
                    match slice_text(src, t.spec_start_byte(call as int) as int, t.spec_start_byte(args as int) as int) {
                        Some(raw) => {
                            let callee = spec_compact(raw);
                            if !plain_callee(callee, seq!['(', '[', '{']) {
                                None
                            } else {
                                match index_from(arguments_of(lang, t, args as int), argument as usize, 0) {
                                    Some(i) => Some(spec_keyed(callee, i as nat)),
                                    None => None,
                                }
                            }
                        },
                        None => None,
                    }
                },
                None => None,
            }
        },
        None => None,
    }
}

/// The accessor a decorator declares for `name`: `@total.setter` above `def total` is
/// `setter`.
pub open spec fn accessor_from(lang: &CompiledLanguage, t: &SyntaxTree, src: Seq<u8>, kids: Seq<usize>, name: Seq<char>, k: int) -> Option<Seq<char>>
    decreases kids.len() - k,
{
    if k < 0 || k >= kids.len() {
        None
    } else {
        let d = kids[k] as int;
        let target = if lang.spec_kind_is(t, d, "decorator"@) && t.spec_named_children(d).len() > 0 {
            Some(t.spec_named_children(d)[0])
        } else {
            None
        };
        let found = match target {
            Some(a) => if lang.spec_kind_is(t, a as int, "attribute"@) && field_text(lang, t, src, a as int, "object"@) == Some(name) {
                field_text(lang, t, src, a as int, "attribute"@)
            } else {
                None
            },
            None => None,
        };
        if found is Some {
            found
        } else {
            accessor_from(lang, t, src, kids, name, k + 1)
        }
    }
}

pub open spec fn accessor(lang: &CompiledLanguage, t: &SyntaxTree, src: Seq<u8>, n: int, name: Seq<char>) -> Option<Seq<char>> {
    match t.spec_parent(n) {
        Some(w) => if lang.spec_kind_is(t, w as int, "decorated_definition"@) {
            accessor_from(lang, t, src, t.spec_named_children(w as int), name, 0)
        } else {
            None
        },
        None => None,
    }
}

/// The name, origin and signature a Python unit is reported under.
pub open spec fn spec_unit_name(lang: &CompiledLanguage, t: &SyntaxTree, src: Seq<u8>, n: int) -> (Seq<char>, NameOrigin, Seq<char>) {
    if lang.spec_kind_is(t, n, "lambda"@) {
        match bound_name(lang, t, src, n) {
            Some(b) => (b, NameOrigin::Bound, Seq::empty()),
            None => match positional_name(lang, t, src, n) {
                Some(k) => (k, NameOrigin::Positional, Seq::empty()),
                None => (ANONYMOUS_UNIT@, NameOrigin::Anonymous, Seq::empty()),
            },
        }
    } else {
        match field_text(lang, t, src, n, "name"@) {
            None => (ANONYMOUS_UNIT@, NameOrigin::Anonymous, Seq::empty()),
            Some(name) => (name, NameOrigin::Declared, match accessor(lang, t, src, n, name) {
                Some(kind) => "."@ + kind,
                None => Seq::empty(),
            }),
        }
    }
}

} // verus!

verus! {

pub fn bound_name_exec(lang: &CompiledLanguage, t: &SyntaxTree, src: &[u8], n: usize) -> (r: Option<String>)
    ensures
        r is Some <==> bound_name(lang, t, src@, n as int) is Some,
        r matches Some(s) ==> bound_name(lang, t, src@, n as int) == Some(s@),
    decreases n,
{
    let p = match t.parent(n) {
        Some(p) => p,
        None => return None,
    };
    if !(p < n) {
        return None;
    }
    if lang.kind_is(t, p, "assignment") && is_field(lang, t, p, "right", n) {
        match field_text_exec(lang, t, src, p, "left") {
            Some(l) => Some(compact(l.as_str())),
            None => None,
        }
    } else if lang.kind_is(t, p, "keyword_argument") && is_field(lang, t, p, "value", n) {
        bound_name_exec(lang, t, src, p)
    } else if lang.kind_is(t, p, "argument_list") {
        match binding_call_exec(lang, t, p, n) {
            Some(call) => if call < n { bound_name_exec(lang, t, src, call) } else { None },
            None => None,
        }
    } else if lang.kind_is(t, p, "parenthesized_expression") {
        bound_name_exec(lang, t, src, p)
    } else {
        None
    }
}

fn arguments_of_exec(lang: &CompiledLanguage, t: &SyntaxTree, args: usize) -> (r: Vec<usize>)
    ensures
        r@ == arguments_of(lang, t, args as int),
{
    let kids = t.named_children(args);
    let ghost pred = |a: usize| !lang.spec_kind_is(t, a as int, "comment"@);
    let mut out: Vec<usize> = Vec::new();
    let mut k: usize = 0;
    while k < kids.len()
        invariant
            0 <= k <= kids@.len(),
            kids@ == t.spec_named_children(args as int),
            pred == (|a: usize| !lang.spec_kind_is(t, a as int, "comment"@)),
            out@ == keep(kids@.subrange(0, k as int), pred),
        decreases kids@.len() - k,
    {
        proof {
            assert(kids@.subrange(0, k + 1).drop_last() =~= kids@.subrange(0, k as int));
        }
        if !lang.kind_is(t, kids[k], "comment") {
            out.push(kids[k]);
        }
        k = k + 1;
    }
    proof {
        assert(kids@.subrange(0, kids@.len() as int) =~= kids@);
    }
    out
}

fn positional_name_exec(lang: &CompiledLanguage, t: &SyntaxTree, src: &[u8], n: usize) -> (r: Option<String>)
    ensures
        r is Some <==> positional_name(lang, t, src@, n as int) is Some,
        r matches Some(s) ==> positional_name(lang, t, src@, n as int) == Some(s@),
{
    let argument = match t.parent(n) {
        Some(p) => if lang.kind_is(t, p, "keyword_argument") { p } else { n },
        None => n,
    };
    let args = match t.parent(argument) {
        Some(a) => a,
        None => return None,
    };
    if !lang.kind_is(t, args, "argument_list") {
        return None;
    }
    let call = match t.parent(args) {
        Some(c) => c,
        None => return None,
    };
    if !lang.kind_is(t, call, "call") {
        return None;
    }
    let raw = match slice_text_exec(src, t.start_byte(call), t.start_byte(args)) {
        Some(raw) => raw,
        None => return None,
    };
    let callee = compact_chars(&chars_of(raw.as_str()));
    let mut openers: Vec<char> = Vec::new();
    openers.push('(');
    openers.push('[');
    openers.push('{');
    assert(openers@ =~= seq!['(', '[', '{']);
    if !plain_callee_exec(&callee, &openers) {
        return None;
    }
    let arguments = arguments_of_exec(lang, t, args);
    match position(&arguments, argument) {
        Some(i) => {
            let name = string_from(callee.as_slice());
            Some(keyed(name.as_str(), i))
        },
        None => None,
    }
}

fn accessor_exec(lang: &CompiledLanguage, t: &SyntaxTree, src: &[u8], n: usize, name: &str) -> (r: Option<String>)
    ensures
        r is Some <==> accessor(lang, t, src@, n as int, name@) is Some,
        r matches Some(s) ==> accessor(lang, t, src@, n as int, name@) == Some(s@),
{
    let w = match t.parent(n) {
        Some(w) => w,
        None => return None,
    };
    if !lang.kind_is(t, w, "decorated_definition") {
        return None;
    }
    let kids = t.named_children(w);
    let mut k: usize = 0;
    while k < kids.len()
        invariant
            0 <= k <= kids@.len(),
            kids@ == t.spec_named_children(w as int),
            accessor(lang, t, src@, n as int, name@) == accessor_from(lang, t, src@, kids@, name@, k as int),
        decreases kids@.len() - k,
    {
        let d = kids[k];
        if lang.kind_is(t, d, "decorator") {
            let inner = t.named_children(d);
            if inner.len() > 0 {
                let a = inner[0];
                if lang.kind_is(t, a, "attribute") {
                    let object = field_text_exec(lang, t, src, a, "object");
                    let same = match &object {
                        Some(o) => str_eq(o.as_str(), name),
                        None => false,
                    };
                    if same {
                        let found = field_text_exec(lang, t, src, a, "attribute");
                        if found.is_some() {
                            return found;
                        }
                    }
                }
            }
        }
        k = k + 1;
    }
    None
}

/// The name a Python unit is reported under. A def takes its name, and `@total.setter` adds
/// `.setter` as a signature, since it redefines `total`; a lambda takes what binds it, else its
/// place as a callback.
pub fn unit_name(lang: &CompiledLanguage, t: &SyntaxTree, src: &[u8], n: usize) -> (r: UnitName)
    ensures
        (r.text@, r.origin, r.signature@) == spec_unit_name(lang, t, src@, n as int),
{
    if lang.kind_is(t, n, "lambda") {
        return match bound_name_exec(lang, t, src, n) {
            Some(b) => UnitName::bound(b),
            None => match positional_name_exec(lang, t, src, n) {
                Some(k) => UnitName::positional(k),
                None => UnitName::anonymous(),
            },
        };
    }
    match field_text_exec(lang, t, src, n, "name") {
        None => UnitName::anonymous(),
        Some(name) => match accessor_exec(lang, t, src, n, name.as_str()) {
            Some(kind) => {
                let signature = crate::finding::concat(".", kind.as_str());
                proof {
                    reveal_strlit(".");
                }
                UnitName::declared(name).with_signature(signature)
            },
            None => UnitName::declared(name),
        },
    }
}

/// A class path as Python spells it: `Outer::Inner` is `Outer.Inner`.
pub open spec fn dotted(s: Seq<char>) -> Seq<char>
    decreases s.len(),
{
    if s.len() == 0 {
        Seq::empty()
    } else if s.len() >= 2 && s[0] == ':' && s[1] == ':' {
        seq!['.'] + dotted(s.subrange(2, s.len() as int))
    } else {
        seq![s[0]] + dotted(s.drop_first())
    }
}

fn dotted_exec(s: &str) -> (r: String)
    ensures
        r@ == dotted(s@),
{
    let c = chars_of(s);
    let mut out: Vec<char> = Vec::new();
    let mut i: usize = 0;
    assert(s@.subrange(0, s@.len() as int) =~= s@);
    assert(out@ + dotted(s@) =~= dotted(s@));
    while i < c.len()
        invariant
            c@ == s@,
            0 <= i <= c@.len(),
            dotted(s@) == out@ + dotted(s@.subrange(i as int, s@.len() as int)),
        decreases c@.len() - i,
    {
        let ghost rest = s@.subrange(i as int, s@.len() as int);
        if i + 1 < c.len() && c[i] == ':' && c[i + 1] == ':' {
            assert(rest.subrange(2, rest.len() as int) =~= s@.subrange(i + 2, s@.len() as int));
            out.push('.');
            assert(out@ + dotted(s@.subrange(i + 2, s@.len() as int)) =~= (out@.drop_last() + (seq!['.'] + dotted(s@.subrange(i + 2, s@.len() as int)))));
            i = i + 2;
        } else {
            assert(rest.drop_first() =~= s@.subrange(i + 1, s@.len() as int));
            let ghost before = out@;
            out.push(c[i]);
            assert(out@ + dotted(s@.subrange(i + 1, s@.len() as int)) =~= before + (seq![c@[i as int]] + dotted(s@.subrange(i + 1, s@.len() as int))));
            i = i + 1;
        }
    }
    assert(s@.subrange(c@.len() as int, s@.len() as int) =~= Seq::<char>::empty());
    assert(out@ + Seq::<char>::empty() =~= out@);
    string_from(out.as_slice())
}

/// Inside a class a bare name resolves to a global, never to the method, which is reached
/// through `self`, `cls` or the class by its full path: a nested class's own name is not in
/// scope inside its methods.
pub fn unit_scope(container: Option<&str>) -> (r: UnitScope)
    ensures
        r.container is None,
        container is None ==> r.self_receivers@.len() == 0 && r.bare_call_recurses,
        container matches Some(c) ==> !r.bare_call_recurses && r.self_receivers@.len() == 3
            && r.self_receivers@[0]@ == "self"@ && r.self_receivers@[1]@ == "cls"@
            && r.self_receivers@[2]@ == dotted(c@),
{
    match container {
        None => UnitScope { container: None, self_receivers: Vec::new(), bare_call_recurses: true },
        Some(c) => {
            let mut self_receivers: Vec<String> = Vec::new();
            self_receivers.push("self".to_owned());
            self_receivers.push("cls".to_owned());
            self_receivers.push(dotted_exec(c));
            UnitScope { container: None, self_receivers, bare_call_recurses: false }
        },
    }
}

} // verus!

verus! {

/// The child of the enclosing block or module that holds `n`.
pub open spec fn statement(lang: &CompiledLanguage, t: &SyntaxTree, n: int) -> int
    decreases n,
{
    match t.spec_parent(n) {
        Some(p) => if p < n && !lang.spec_kind_is(t, p as int, "module"@) && !lang.spec_kind_is(t, p as int, "block"@) {
            statement(lang, t, p as int)
        } else {
            n
        },
        None => n,
    }
}

/// The block `n` opens: a comment above a block's first statement lands before the block.
pub open spec fn opened_block(lang: &CompiledLanguage, t: &SyntaxTree, n: int) -> Option<usize> {
    match t.spec_parent(n) {
        Some(b) => if lang.spec_kind_is(t, b as int, "block"@)
            && lang.first_of_kind_not(t, t.spec_named_children(b as int), "comment"@, 0) == Some(n as usize) {
            Some(b)
        } else {
            None
        },
        None => None,
    }
}

/// The def, its decorated definition, the statement binding a bound lambda, and the block the
/// outermost of these opens.
pub open spec fn spec_anchors(lang: &CompiledLanguage, t: &SyntaxTree, src: Seq<u8>, n: int) -> Seq<usize> {
    let wrapper = match t.spec_parent(n) {
        Some(w) => if lang.spec_kind_is(t, w as int, "decorated_definition"@) { Some(w) } else { None },
        None => None,
    };
    let first = match wrapper {
        Some(w) => seq![n as usize, w],
        None => seq![n as usize],
    };
    let outer = match wrapper {
        Some(w) => w as int,
        None => n,
    };
    let bound_stmt = lang.spec_kind_is(t, n, "lambda"@) && bound_name(lang, t, src, n) is Some;
    let second = if bound_stmt { first.push(statement(lang, t, n) as usize) } else { first };
    let outermost = if bound_stmt { statement(lang, t, n) } else { outer };
    match opened_block(lang, t, outermost) {
        Some(b) => second.push(b),
        None => second,
    }
}

fn statement_exec(lang: &CompiledLanguage, t: &SyntaxTree, n: usize) -> (r: usize)
    ensures
        r as int == statement(lang, t, n as int),
    decreases n,
{
    match t.parent(n) {
        Some(p) => if p < n && !lang.kind_is(t, p, "module") && !lang.kind_is(t, p, "block") {
            statement_exec(lang, t, p)
        } else {
            n
        },
        None => n,
    }
}

fn opened_block_exec(lang: &CompiledLanguage, t: &SyntaxTree, n: usize) -> (r: Option<usize>)
    ensures
        r == opened_block(lang, t, n as int),
{
    match t.parent(n) {
        Some(b) => if lang.kind_is(t, b, "block") {
            let kids = t.named_children(b);
            if lang.first_kind_not_in(t, &kids, "comment") == Some(n) { Some(b) } else { None }
        } else {
            None
        },
        None => None,
    }
}

/// Where a Python unit's marker may sit, innermost first.
pub fn suppression_anchors(lang: &CompiledLanguage, t: &SyntaxTree, src: &[u8], n: usize) -> (r: Vec<usize>)
    ensures
        r@ == spec_anchors(lang, t, src@, n as int),
{
    let mut out: Vec<usize> = Vec::new();
    out.push(n);
    let mut outermost = n;
    match t.parent(n) {
        Some(w) => if lang.kind_is(t, w, "decorated_definition") {
            out.push(w);
            outermost = w;
        },
        None => {},
    }
    if lang.kind_is(t, n, "lambda") && bound_name_exec(lang, t, src, n).is_some() {
        outermost = statement_exec(lang, t, n);
        out.push(outermost);
    }
    match opened_block_exec(lang, t, outermost) {
        Some(b) => out.push(b),
        None => {},
    }
    assert(out@ =~= spec_anchors(lang, t, src@, n as int));
    out
}

} // verus!

verus! {

/// An expression used as a statement, with or without the `expression_statement` wrapper.
pub open spec fn is_expression(lang: &CompiledLanguage, t: &SyntaxTree, s: int, kind: Seq<char>) -> bool {
    ||| lang.spec_kind_is(t, s, kind)
    ||| (lang.spec_kind_is(t, s, "expression_statement"@) && t.spec_named_children(s).len() == 1
        && lang.spec_kind_is(t, t.spec_named_children(s)[0] as int, kind))
}

fn is_expression_exec(lang: &CompiledLanguage, t: &SyntaxTree, s: usize, kind: &str) -> (r: bool)
    ensures
        r == is_expression(lang, t, s as int, kind@),
{
    if lang.kind_is(t, s, kind) {
        return true;
    }
    if !lang.kind_is(t, s, "expression_statement") {
        return false;
    }
    let kids = t.named_children(s);
    kids.len() == 1 && lang.kind_is(t, kids[0], kind)
}

/// A body of nothing but `...`, after an optional docstring: an overload stub, a protocol or
/// an abstract signature.
pub open spec fn is_declaration_only(lang: &CompiledLanguage, t: &SyntaxTree, body: int) -> bool {
    let rest = declared_rest(lang, t, body);
    rest.len() > 0 && forall|i: int| 0 <= i < rest.len() ==> is_expression(lang, t, #[trigger] rest[i] as int, "ellipsis"@)
}

/// The expression a statement holds, or the statement itself when it holds none alone.
pub open spec fn held(lang: &CompiledLanguage, t: &SyntaxTree, s: int) -> int {
    if lang.spec_kind_is(t, s, "expression_statement"@) && t.spec_named_children(s).len() == 1 {
        t.spec_named_children(s)[0] as int
    } else {
        s
    }
}

/// A docstring: a string literal, written whole or in implicitly joined pieces, bare or in
/// parentheses, as Python reads all of them as one string constant.
pub open spec fn is_docstring(lang: &CompiledLanguage, t: &SyntaxTree, s: int) -> bool {
    let e = held(lang, t, s);
    let inner = if lang.spec_kind_is(t, e, "parenthesized_expression"@) && t.spec_named_children(e).len() == 1 {
        t.spec_named_children(e)[0] as int
    } else {
        e
    };
    lang.spec_kind_is(t, inner, "string"@) || lang.spec_kind_is(t, inner, "concatenated_string"@)
}

fn is_docstring_exec(lang: &CompiledLanguage, t: &SyntaxTree, s: usize) -> (r: bool)
    ensures
        r == is_docstring(lang, t, s as int),
{
    let kids = t.named_children(s);
    let e = if lang.kind_is(t, s, "expression_statement") && kids.len() == 1 { kids[0] } else { s };
    let inside = t.named_children(e);
    let inner = if lang.kind_is(t, e, "parenthesized_expression") && inside.len() == 1 { inside[0] } else { e };
    lang.kind_is(t, inner, "string") || lang.kind_is(t, inner, "concatenated_string")
}

/// A body's statements past comments and a leading docstring.
pub open spec fn declared_rest(lang: &CompiledLanguage, t: &SyntaxTree, body: int) -> Seq<usize> {
    let statements = arguments_of(lang, t, body);
    if statements.len() > 0 && is_docstring(lang, t, statements[0] as int) {
        statements.drop_first()
    } else {
        statements
    }
}

fn is_declaration_only_exec(lang: &CompiledLanguage, t: &SyntaxTree, body: usize) -> (r: bool)
    ensures
        r == is_declaration_only(lang, t, body as int),
{
    let statements = arguments_of_exec(lang, t, body);
    let start: usize = if statements.len() > 0 && is_docstring_exec(lang, t, statements[0]) { 1 } else { 0 };
    let ghost rest = declared_rest(lang, t, body as int);
    assert(rest =~= statements@.subrange(start as int, statements@.len() as int));
    if start >= statements.len() {
        return false;
    }
    let mut i = start;
    while i < statements.len()
        invariant
            start <= i <= statements@.len(),
            rest == declared_rest(lang, t, body as int),
            rest =~= statements@.subrange(start as int, statements@.len() as int),
            forall|k: int| start <= k < i ==> is_expression(lang, t, #[trigger] statements@[k] as int, "ellipsis"@),
        decreases statements@.len() - i,
    {
        if !is_expression_exec(lang, t, statements[i], "ellipsis") {
            assert(rest[i - start] == statements@[i as int]);
            assert(!is_expression(lang, t, rest[i - start] as int, "ellipsis"@));
            return false;
        }
        i = i + 1;
    }
    assert forall|k: int| 0 <= k < rest.len() implies is_expression(lang, t, #[trigger] rest[k] as int, "ellipsis"@) by {
        assert(rest[k] == statements@[k + start]);
    }
    true
}

/// The code a Python unit scores: its body, unless that body only declares.
pub fn unit_body(lang: &CompiledLanguage, t: &SyntaxTree, n: usize) -> (r: Option<usize>)
    ensures
        r == (match t.spec_field(n as int, lang.fields.body) {
            Some(b) => if is_declaration_only(lang, t, b as int) { None } else { Some(b) },
            None => None,
        }),
{
    match t.child_by_field(n, lang.fields.body) {
        Some(b) => if is_declaration_only_exec(lang, t, b) { None } else { Some(b) },
        None => None,
    }
}

} // verus!

verus! {

/// Whether Python source is machine-written: its header comments say both "generated" and "do
/// not edit". A Django migration says only "Generated", since it is meant to be edited.
pub fn is_generated(source: &str) -> (r: bool)
    ensures
        r == spec_python_is_generated(source@),
{
    let all = chars_of(source);
    let mut rest = drop_bom_exec(&all);
    let mut header: Vec<char> = Vec::new();
    while rest.len() > 0
        invariant
            header@ + python_header(rest@) == python_header(drop_bom(source@)),
        decreases rest@.len(),
    {
        proof {
            lemma_next_line(rest@);
        }
        let (line, tail) = next_line_exec(&rest);
        let t = trim_chars(&line);
        if t.len() == 0 {
            rest = tail;
        } else if t[0] != '#' {
            assert(python_header(rest@) =~= Seq::<char>::empty());
            rest = Vec::new();
            assert(python_header(rest@) =~= Seq::<char>::empty());
        } else {
            let ghost before = header@;
            let mut k: usize = 1;
            while k < t.len()
                invariant
                    1 <= k <= t@.len(),
                    header@ == before + t@.subrange(1, k as int),
                decreases t@.len() - k,
            {
                header.push(t[k]);
                proof {
                    assert(t@.subrange(1, k + 1) =~= t@.subrange(1, k as int).push(t@[k as int]));
                }
                k = k + 1;
            }
            header.push('\n');
            proof {
                assert(t@.drop_first() =~= t@.subrange(1, t@.len() as int));
                assert(header@ + python_header(tail@) =~= before + (t@.drop_first() + seq!['\n'] + python_header(tail@)));
            }
            rest = tail;
        }
    }
    proof {
        assert(python_header(rest@) =~= Seq::<char>::empty());
        assert(header@ + Seq::<char>::empty() =~= header@);
    }
    let text = string_from(header.as_slice());
    header_says_generated(text.as_str())
}

} // verus!
