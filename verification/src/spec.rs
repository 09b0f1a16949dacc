//! What a language declares about its grammar: which node kinds play which part in the
//! scoring rules, and under which field names a node keeps its parts.
use vstd::prelude::*;

verus! {

/// The family of grammar-specific answers a language gives: how it names units, reads an
/// if-chain, spots recursion.
#[derive(Clone, Copy, PartialEq, Eq, Debug, Structural)]
pub enum Dialect {
    Go,
    Java,
    Php,
    Python,
    TypeScript,
}

pub struct KindSets {
    pub unit: Vec<&'static str>,
    pub container: Vec<&'static str>,
    pub nesting_function: Vec<&'static str>,
    pub if_statement: Vec<&'static str>,
    pub else_if_clause: Vec<&'static str>,
    pub else_clause: Vec<&'static str>,
    pub nesting_control: Vec<&'static str>,
    pub jump: Vec<&'static str>,
    pub unconditional_jump: Vec<&'static str>,
    pub logical: Vec<&'static str>,
    pub parenthesis: Vec<&'static str>,
    pub call: Vec<&'static str>,
    pub comment: Vec<&'static str>,
    pub leading_trivia: Vec<&'static str>,
    /// What may precede code at the top of a file: an open tag, a shebang.
    pub preamble: Vec<&'static str>,
}

pub struct FieldNames {
    pub name: &'static str,
    pub body: &'static str,
    pub condition: &'static str,
    pub if_then: &'static str,
    pub if_alternative: &'static str,
    pub else_body: Option<&'static str>,
    pub logical_left: &'static str,
    pub logical_right: &'static str,
    pub logical_operator: &'static str,
    pub control_header: Vec<&'static str>,
}

pub struct LanguageSpec {
    pub id: &'static str,
    pub kinds: KindSets,
    pub fields: FieldNames,
    pub hooks: Dialect,
    /// Kinds a grammar is allowed not to have.
    pub optional_kinds: Vec<&'static str>,
}

} // verus!

verus! {

impl KindSets {
    /// Every kind the sets name, in declaration order.
    pub fn all(&self) -> (r: Vec<&'static str>)
        ensures
            r@ == self.unit@ + self.container@ + self.nesting_function@ + self.if_statement@
                + self.else_if_clause@ + self.else_clause@ + self.nesting_control@ + self.jump@
                + self.unconditional_jump@ + self.logical@ + self.parenthesis@ + self.call@
                + self.comment@ + self.leading_trivia@ + self.preamble@,
    {
        let mut out: Vec<&'static str> = Vec::new();
        append_all(&mut out, &self.unit);
        append_all(&mut out, &self.container);
        append_all(&mut out, &self.nesting_function);
        append_all(&mut out, &self.if_statement);
        append_all(&mut out, &self.else_if_clause);
        append_all(&mut out, &self.else_clause);
        append_all(&mut out, &self.nesting_control);
        append_all(&mut out, &self.jump);
        append_all(&mut out, &self.unconditional_jump);
        append_all(&mut out, &self.logical);
        append_all(&mut out, &self.parenthesis);
        append_all(&mut out, &self.call);
        append_all(&mut out, &self.comment);
        append_all(&mut out, &self.leading_trivia);
        append_all(&mut out, &self.preamble);
        out
    }
}

pub fn append_all(out: &mut Vec<&'static str>, more: &Vec<&'static str>)
    ensures
        final(out)@ == old(out)@ + more@,
{
    let ghost start = out@;
    let mut i: usize = 0;
    while i < more.len()
        invariant
            0 <= i <= more@.len(),
            out@ == start + more@.subrange(0, i as int),
        decreases more@.len() - i,
    {
        out.push(more[i]);
        proof {
            assert(start + more@.subrange(0, i + 1) =~= (start + more@.subrange(0, i as int)).push(more@[i as int]));
        }
        i = i + 1;
    }
    assert(more@.subrange(0, more@.len() as int) =~= more@);
}

/// A spec's kind lists, in the order `KindSets` declares them.
pub open spec fn kind_table(k: KindSets) -> Seq<Seq<&'static str>> {
    seq![
        k.unit@, k.container@, k.nesting_function@, k.if_statement@, k.else_if_clause@, k.else_clause@,
        k.nesting_control@, k.jump@, k.unconditional_jump@, k.logical@, k.parenthesis@, k.call@,
        k.comment@, k.leading_trivia@, k.preamble@,
    ]
}

/// A spec's field names: the eight single names in the order `FieldNames` declares them, the
/// else body's field, and the control-header fields.
pub open spec fn field_table(f: FieldNames) -> (Seq<&'static str>, Option<&'static str>, Seq<&'static str>) {
    (
        seq![f.name, f.body, f.condition, f.if_then, f.if_alternative, f.logical_left, f.logical_right, f.logical_operator],
        f.else_body,
        f.control_header@,
    )
}

} // verus!

