//! The grammars a scan parses with, each from its own crate.
use vstd::prelude::*;
use crate::compile::SpecErrors;
use crate::compile::Resolution;
use crate::parse::{compile, compiled_as, resolved, Grammar, LinkedGrammar};
use crate::registry::Descriptor;
use crate::spec::{field_table, kind_table, LanguageSpec};
use crate::registry::{spec_fields_of, spec_kinds_of};

verus! {

/// `tree_sitter_go::LANGUAGE`, the Go grammar.
#[verifier::external_body]
fn go_grammar() -> tree_sitter::Language {
    tree_sitter_go::LANGUAGE.into()
}

/// `tree_sitter_java::LANGUAGE`, the Java grammar.
#[verifier::external_body]
fn java_grammar() -> tree_sitter::Language {
    tree_sitter_java::LANGUAGE.into()
}

/// `tree_sitter_php::LANGUAGE_PHP`, PHP with its surrounding HTML.
#[verifier::external_body]
fn php_grammar() -> tree_sitter::Language {
    tree_sitter_php::LANGUAGE_PHP.into()
}

/// `tree_sitter_python::LANGUAGE`, the Python grammar.
#[verifier::external_body]
fn python_grammar() -> tree_sitter::Language {
    tree_sitter_python::LANGUAGE.into()
}

/// `tree_sitter_typescript::LANGUAGE_TYPESCRIPT`, TypeScript without JSX.
#[verifier::external_body]
fn typescript_grammar() -> tree_sitter::Language {
    tree_sitter_typescript::LANGUAGE_TYPESCRIPT.into()
}

/// `tree_sitter_typescript::LANGUAGE_TSX`, TypeScript and JavaScript with JSX.
#[verifier::external_body]
fn tsx_grammar() -> tree_sitter::Language {
    tree_sitter_typescript::LANGUAGE_TSX.into()
}

/// `tree_sitter_html::LANGUAGE`, which reads a Vue component's blocks.
#[verifier::external_body]
fn html_grammar() -> tree_sitter::Language {
    tree_sitter_html::LANGUAGE.into()
}

/// A grammar this crate links.
#[derive(Clone, Copy, Debug, PartialEq, Eq, Structural)]
pub enum GrammarId {
    Go,
    Java,
    Php,
    Python,
    TypeScript,
    Tsx,
    Html,
}

pub fn grammar(id: GrammarId) -> tree_sitter::Language {
    match id {
        GrammarId::Go => go_grammar(),
        GrammarId::Java => java_grammar(),
        GrammarId::Php => php_grammar(),
        GrammarId::Python => python_grammar(),
        GrammarId::TypeScript => typescript_grammar(),
        GrammarId::Tsx => tsx_grammar(),
        GrammarId::Html => html_grammar(),
    }
}

/// The grammar a descriptor parses a whole file with. `.ts` must not be read as TSX: an
/// angle-bracket type assertion collides with a JSX element. A Vue component's script is read
/// as TSX unless its block says TypeScript.
pub open spec fn spec_grammar_of(d: Descriptor) -> GrammarId {
    match d {
        Descriptor::Php => GrammarId::Php,
        Descriptor::TypeScript => GrammarId::TypeScript,
        Descriptor::Tsx => GrammarId::Tsx,
        Descriptor::Vue => GrammarId::Tsx,
        Descriptor::Go => GrammarId::Go,
        Descriptor::Java => GrammarId::Java,
        Descriptor::Python => GrammarId::Python,
    }
}

pub fn grammar_of(d: Descriptor) -> (r: GrammarId)
    ensures
        r == spec_grammar_of(d),
{
    match d {
        Descriptor::Php => GrammarId::Php,
        Descriptor::TypeScript => GrammarId::TypeScript,
        Descriptor::Tsx => GrammarId::Tsx,
        Descriptor::Vue => GrammarId::Tsx,
        Descriptor::Go => GrammarId::Go,
        Descriptor::Java => GrammarId::Java,
        Descriptor::Python => GrammarId::Python,
    }
}

/// Compiles a spec against one of the linked grammars: the outcome is what [`compile`] makes of
/// the grammar's answers.
pub fn load(spec: LanguageSpec, id: GrammarId) -> (r: Result<Grammar, SpecErrors>)
    ensures
        r matches Ok(g) ==> g.language.spec == spec,
        forall|res: Resolution| resolved(&spec, id, &res) ==> #[trigger] compiled_as(spec, id, res, r),
        exists|res: Resolution| resolved(&spec, id, &res) && #[trigger] compiled_as(spec, id, res, r),
{
    compile(spec, LinkedGrammar::open(id))
}

/// Compiles a descriptor's spec against the grammar it reads whole files with.
pub fn load_descriptor(d: Descriptor) -> (r: Result<Grammar, SpecErrors>)
    ensures
        r matches Ok(g) ==> g.language.spec.id@ == crate::registry::spec_language_id(d),
        exists|spec: LanguageSpec, res: Resolution| {
            &&& spec.id@ == crate::registry::spec_language_id(d)
            &&& kind_table(spec.kinds) == spec_kinds_of(d)
            &&& field_table(spec.fields) == spec_fields_of(d)
            &&& resolved(&spec, spec_grammar_of(d), &res)
            &&& #[trigger] compiled_as(spec, spec_grammar_of(d), res, r)
        },
{
    let spec = d.spec();
    load(spec, grammar_of(d))
}

} // verus!
