//! The language-specific answers the collector asks for, routed by a spec's dialect.
use vstd::prelude::*;
use crate::finding::{NameOrigin, UnitName, UnitScope};
use crate::language::CompiledLanguage;
use crate::names::{field_text, field_text_exec};
use crate::scope::last_segment;
use crate::spec::Dialect;
use crate::syntax::SyntaxTree;

verus! {

/// The name, origin and signature a unit is reported under.
pub open spec fn spec_unit_name(lang: &CompiledLanguage, t: &SyntaxTree, src: Seq<u8>, n: int) -> (Seq<char>, NameOrigin, Seq<char>) {
    match lang.spec.hooks {
        Dialect::Go => {
            let (a, b) = crate::go::spec_unit_name(lang, t, src, n);
            (a, b, Seq::empty())
        },
        Dialect::Java => crate::java_names::spec_unit_name(lang, t, src, n),
        Dialect::Php => {
            let (a, b) = crate::php::spec_unit_name(lang, t, src, n);
            (a, b, Seq::empty())
        },
        Dialect::Python => crate::python::spec_unit_name(lang, t, src, n),
        Dialect::TypeScript => {
            let (a, b) = crate::typescript::spec_unit_name(lang, t, src, n);
            (a, b, Seq::empty())
        },
    }
}

pub fn unit_name(lang: &CompiledLanguage, t: &SyntaxTree, src: &[u8], n: usize) -> (r: UnitName)
    ensures
        (r.text@, r.origin, r.signature@) == spec_unit_name(lang, t, src@, n as int),
{
    match lang.spec.hooks {
        Dialect::Go => crate::go::unit_name(lang, t, src, n),
        Dialect::Java => crate::java_names::unit_name(lang, t, src, n),
        Dialect::Php => crate::php::unit_name(lang, t, src, n),
        Dialect::Python => crate::python::unit_name(lang, t, src, n),
        Dialect::TypeScript => crate::typescript::unit_name(lang, t, src, n),
    }
}

/// A scope as plain values: the container it names for itself, its receivers, and whether a
/// bare call recurses.
pub open spec fn scope_view(s: UnitScope) -> (Option<Seq<char>>, Seq<Seq<char>>, bool) {
    (match s.container {
        Some(c) => Some(c@),
        None => None,
    }, s.self_receivers@.map_values(|r: String| r@), s.bare_call_recurses)
}

/// How a unit reaches itself, given the path of containers enclosing it.
pub open spec fn spec_scope(lang: &CompiledLanguage, t: &SyntaxTree, src: Seq<u8>, n: int, container: Option<Seq<char>>) -> (Option<Seq<char>>, Seq<Seq<char>>, bool) {
    match lang.spec.hooks {
        Dialect::Go => match crate::go::receiver(lang, t, src, n) {
            None => (None, Seq::empty(), true),
            Some((ty, b)) => (Some(ty), match b {
                Some(x) => seq![x, ty],
                None => seq![ty],
            }, false),
        },
        Dialect::Java => (None, match container {
            Some(c) => seq!["this"@, last_segment(c), last_segment(c) + ".this"@],
            None => seq!["this"@],
        }, true),
        Dialect::Php => (None, seq!["$this"@, "self"@, "static"@], true),
        Dialect::Python => match container {
            Some(c) => (None, seq!["self"@, "cls"@, crate::python::dotted(c)], false),
            None => (None, Seq::empty(), true),
        },
        Dialect::TypeScript => (None, match container {
            Some(c) => seq!["this"@, "super"@, last_segment(c)],
            None => seq!["this"@, "super"@],
        }, true),
    }
}

pub fn unit_scope(lang: &CompiledLanguage, t: &SyntaxTree, src: &[u8], n: usize, container: Option<&str>) -> (r: UnitScope)
    ensures
        scope_view(r) == spec_scope(lang, t, src@, n as int, match container {
            Some(c) => Some(c@),
            None => None,
        }),
{
    let r = match lang.spec.hooks {
        Dialect::Go => crate::go::unit_scope(lang, t, src, n),
        Dialect::Java => crate::java_names::unit_scope(container),
        Dialect::Php => crate::php::unit_scope(),
        Dialect::Python => crate::python::unit_scope(container),
        Dialect::TypeScript => crate::typescript::unit_scope(container),
    };
    proof {
        let v = r.self_receivers@.map_values(|s: String| s@);
        let expected = spec_scope(lang, t, src@, n as int, match container {
            Some(c) => Some(c@),
            None => None,
        });
        assert(v.len() == expected.1.len());
        assert forall|i: int| 0 <= i < v.len() implies v[i] == expected.1[i] by {}
        assert(v =~= expected.1);
    }
    r
}

/// The name a container adds to the path of the units inside it.
pub open spec fn spec_container_name(lang: &CompiledLanguage, t: &SyntaxTree, src: Seq<u8>, n: int) -> Option<Seq<char>> {
    match lang.spec.hooks {
        Dialect::Go => None,
        Dialect::Java => crate::java_names::spec_container_name(lang, t, src, n),
        Dialect::Php => field_text(lang, t, src, n, "name"@),
        Dialect::Python => field_text(lang, t, src, n, "name"@),
        Dialect::TypeScript => crate::typescript::spec_container_name(lang, t, src, n),
    }
}

pub fn container_name(lang: &CompiledLanguage, t: &SyntaxTree, src: &[u8], n: usize) -> (r: Option<String>)
    ensures
        r is Some <==> spec_container_name(lang, t, src@, n as int) is Some,
        r matches Some(s) ==> spec_container_name(lang, t, src@, n as int) == Some(s@),
{
    match lang.spec.hooks {
        Dialect::Go => None,
        Dialect::Java => crate::java_names::container_name(lang, t, src, n),
        Dialect::Php => field_text_exec(lang, t, src, n, "name"),
        Dialect::Python => field_text_exec(lang, t, src, n, "name"),
        Dialect::TypeScript => crate::typescript::container_name(lang, t, src, n),
    }
}

/// The nodes a unit's marker may lead or trail, innermost first.
pub open spec fn spec_anchors(lang: &CompiledLanguage, t: &SyntaxTree, src: Seq<u8>, n: int) -> Seq<usize> {
    match lang.spec.hooks {
        Dialect::Go => crate::go::spec_anchors(lang, t, src, n),
        Dialect::Java => crate::java_names::spec_anchors(lang, t, src, n),
        Dialect::Php => crate::php::spec_anchors(lang, t, src, n),
        Dialect::Python => crate::python::spec_anchors(lang, t, src, n),
        Dialect::TypeScript => crate::typescript::spec_anchors(lang, t, src, n),
    }
}

pub fn suppression_anchors(lang: &CompiledLanguage, t: &SyntaxTree, src: &[u8], n: usize) -> (r: Vec<usize>)
    ensures
        r@ == spec_anchors(lang, t, src@, n as int),
{
    match lang.spec.hooks {
        Dialect::Go => crate::go::suppression_anchors(lang, t, src, n),
        Dialect::Java => crate::java_names::suppression_anchors(lang, t, src, n),
        Dialect::Php => crate::php::suppression_anchors(lang, t, src, n),
        Dialect::Python => crate::python::suppression_anchors(lang, t, src, n),
        Dialect::TypeScript => crate::typescript::suppression_anchors(lang, t, src, n),
    }
}

/// The code a unit scores; `None` for a bodyless declaration, which is not a unit.
pub open spec fn spec_unit_body(lang: &CompiledLanguage, t: &SyntaxTree, n: int) -> Option<usize> {
    match lang.spec.hooks {
        Dialect::Java => if lang.spec_kind_is(t, n, "static_initializer"@) {
            lang.spec_named_child_of_kind(t, n, "block"@)
        } else {
            t.spec_field(n, lang.fields.body)
        },
        Dialect::Python => match t.spec_field(n, lang.fields.body) {
            Some(b) => if crate::python::is_declaration_only(lang, t, b as int) { None } else { Some(b) },
            None => None,
        },
        _ => t.spec_field(n, lang.fields.body),
    }
}

pub fn unit_body(lang: &CompiledLanguage, t: &SyntaxTree, n: usize) -> (r: Option<usize>)
    ensures
        r == spec_unit_body(lang, t, n as int),
{
    match lang.spec.hooks {
        Dialect::Java => crate::java_names::unit_body(lang, t, n),
        Dialect::Python => crate::python::unit_body(lang, t, n),
        _ => t.child_by_field(n, lang.fields.body),
    }
}

} // verus!
