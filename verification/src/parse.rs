//! The tree-sitter boundary: a grammar is asked for its tables once, and a parse is read node
//! by node, in pre-order, into a [`SyntaxTree`].
use vstd::prelude::*;
use crate::compile::{
    assemble, flag_claim_list, flag_claims, resolution_fits, role_claims, role_claim_list, spec_conflicts, spec_header_table, spec_kind_table,
    unknown_field_named, unknown_kind_named, Resolution, SpecErrors,
};
use crate::order::{holds_text, strictly_sorted};
use crate::language::{FieldIds, Flags, CompiledLanguage, Role};
use crate::spec::{FieldNames, LanguageSpec};
use crate::finding::opt_view;
use crate::grammars::{grammar, GrammarId};
use crate::syntax::{nodes_wf, SyntaxNode, SyntaxTree};

verus! {

/// A grammar this crate links, and which one it is. Only [`LinkedGrammar::open`] makes one, from
/// the grammar's id, so what it holds is always that id's grammar; the names below speak of the
/// grammar by its id.
pub struct LinkedGrammar {
    id: GrammarId,
    ts: tree_sitter::Language,
}

impl View for LinkedGrammar {
    type V = GrammarId;

    closed spec fn view(&self) -> GrammarId {
        self.id
    }
}

impl LinkedGrammar {
    /// The grammar linked for `id`.
    pub fn open(id: GrammarId) -> (r: LinkedGrammar)
        ensures
            r@ == id,
    {
        LinkedGrammar { id, ts: grammar(id) }
    }

    pub fn id(&self) -> (r: GrammarId)
        ensures
            r == self@,
    {
        self.id
    }
}

/// `Language::node_kind_count` of grammar `g`.
pub uninterp spec fn kind_count_of(g: GrammarId) -> usize;

/// `Language::node_kind_for_id` of grammar `g`: the name of kind id `id`.
pub uninterp spec fn kind_name_of(g: GrammarId, id: u16) -> Option<Seq<char>>;

/// `Language::field_count` of grammar `g`.
pub uninterp spec fn field_count_of(g: GrammarId) -> usize;

/// `Language::field_name_for_id` of grammar `g`: the name of field id `id`.
pub uninterp spec fn field_name_of(g: GrammarId, id: u16) -> Option<Seq<char>>;

/// `Language::id_for_node_kind` of grammar `g`, for a named kind: 0 where there is none.
pub uninterp spec fn named_kind_of(g: GrammarId, kind: Seq<char>) -> u16;

/// `Language::field_id_for_name` of grammar `g`.
pub uninterp spec fn field_id_of(g: GrammarId, name: Seq<char>) -> Option<u16>;

/// `Language::node_kind_count`: the number of kind ids the grammar has.
#[verifier::external_body]
fn grammar_kind_count(g: &LinkedGrammar) -> (r: usize)
    ensures
        r == kind_count_of(g@),
{
    g.ts.node_kind_count()
}

/// `Language::node_kind_for_id`: the name of a kind id.
#[verifier::external_body]
fn grammar_kind_name(g: &LinkedGrammar, id: u16) -> (r: Option<String>)
    ensures
        opt_view(r) == kind_name_of(g@, id),
{
    g.ts.node_kind_for_id(id).map(|name| name.to_string())
}

/// `Language::field_count`: the number of field ids, which run from 1.
#[verifier::external_body]
fn grammar_field_count(g: &LinkedGrammar) -> (r: usize)
    ensures
        r == field_count_of(g@),
{
    g.ts.field_count()
}

/// `Language::field_name_for_id`: the name of a field id.
#[verifier::external_body]
fn grammar_field_name(g: &LinkedGrammar, id: u16) -> (r: Option<String>)
    ensures
        opt_view(r) == field_name_of(g@, id),
{
    g.ts.field_name_for_id(id).map(|name| name.to_string())
}

/// `Language::id_for_node_kind` for a named kind; 0, the end-of-input symbol, means none.
#[verifier::external_body]
fn grammar_named_kind(g: &LinkedGrammar, kind: &str) -> (r: u16)
    ensures
        r == named_kind_of(g@, kind@),
{
    g.ts.id_for_node_kind(kind, true)
}

/// `Language::field_id_for_name`.
#[verifier::external_body]
fn grammar_field_id(g: &LinkedGrammar, name: &str) -> (r: Option<u16>)
    ensures
        r == field_id_of(g@, name@),
{
    g.ts.field_id_for_name(name).map(|id| id.get())
}

/// What a parse tells of one node: descendant `i` of the tree in pre-order, as a cursor moved
/// there reports it: its kind, whether it is named or extra, the field it fills, its depth, and
/// where it starts and ends.
#[derive(Clone, Copy, Debug, PartialEq, Eq, Structural)]
pub struct NodeFacts {
    pub kind_id: u16,
    pub named: bool,
    pub extra: bool,
    pub field_id: Option<u16>,
    pub depth: u32,
    pub start_byte: usize,
    pub end_byte: usize,
    pub start_row: usize,
    pub end_row: usize,
    pub start_column: usize,
    pub end_column: usize,
}

/// A parse of a text with a linked grammar, of the whole text or one region of it. Only
/// [`parse_with`] makes one, so its tree is always the parse of what its view names.
pub struct Parse {
    grammar: GrammarId,
    source: String,
    region: Option<Region>,
    tree: tree_sitter::Tree,
}

impl View for Parse {
    type V = (GrammarId, Seq<char>, Option<Region>);

    closed spec fn view(&self) -> (GrammarId, Seq<char>, Option<Region>) {
        (self.grammar, self.source@, self.region)
    }
}

/// Whether tree-sitter gives a tree back for `source` with grammar `g`, confined to `region`:
/// `Parser::set_language`, `Parser::set_included_ranges` and `Parser::parse` with no old tree
/// all succeed.
pub uninterp spec fn parses(g: GrammarId, source: Seq<char>, region: Option<Region>) -> bool;

/// `Node::descendant_count` of that parse's root: how many nodes the tree has.
pub uninterp spec fn parsed_size(g: GrammarId, source: Seq<char>, region: Option<Region>) -> usize;

/// `Node::has_error` of that parse's root.
pub uninterp spec fn parsed_has_error(g: GrammarId, source: Seq<char>, region: Option<Region>) -> bool;

/// `Tree::included_ranges` of that parse: the row its first range starts on.
pub uninterp spec fn parsed_first_row(g: GrammarId, source: Seq<char>, region: Option<Region>) -> Option<usize>;

/// What `TreeCursor::goto_descendant(i)` on that parse's tree reaches, as [`NodeFacts`].
pub uninterp spec fn parsed_node(g: GrammarId, source: Seq<char>, region: Option<Region>, i: usize) -> NodeFacts;

/// `Parser::new`, `Parser::set_language`, `Parser::set_included_ranges` with `region`'s one
/// range or, for `None`, none, which is the whole text, and `Parser::parse` with no old tree.
#[verifier::external_body]
fn parse_with(g: &LinkedGrammar, source: &str, region: Option<Region>) -> (r: Option<Parse>)
    ensures
        r is Some <==> parses(g@, source@, region),
        r matches Some(p) ==> p@ == (g@, source@, region),
{
    let ranges: Vec<tree_sitter::Range> = match region {
        Some(r) => vec![tree_sitter::Range { start_byte: r.start_byte, end_byte: r.end_byte,
            start_point: tree_sitter::Point { row: r.start_row, column: r.start_column },
            end_point: tree_sitter::Point { row: r.end_row, column: r.end_column } }],
        None => Vec::new(),
    };
    let mut parser = tree_sitter::Parser::new();
    if parser.set_language(&g.ts).is_err() || parser.set_included_ranges(&ranges).is_err() {
        return None;
    }
    parser.parse(source, None).map(|tree| Parse { grammar: g.id, source: source.to_string(), region, tree })
}

/// `Tree::root_node` and `Node::descendant_count`.
#[verifier::external_body]
fn parse_size(p: &Parse) -> (r: usize)
    ensures
        r == parsed_size(p@.0, p@.1, p@.2),
{
    p.tree.root_node().descendant_count()
}

/// `Tree::root_node` and `Node::has_error`.
#[verifier::external_body]
fn parse_has_error(p: &Parse) -> (r: bool)
    ensures
        r == parsed_has_error(p@.0, p@.1, p@.2),
{
    p.tree.root_node().has_error()
}

/// `Tree::included_ranges`: the row the first range starts on.
#[verifier::external_body]
fn parse_first_row(p: &Parse) -> (r: Option<usize>)
    ensures
        r == parsed_first_row(p@.0, p@.1, p@.2),
{
    p.tree.included_ranges().first().map(|range| range.start_point.row)
}

/// `Tree::walk`, `TreeCursor::goto_descendant(i)`, and what the cursor (`depth`, `field_id`) and
/// its node (`kind_id`, `is_named`, `is_extra`, the byte and point span) tell there.
#[verifier::external_body]
fn node_at(p: &Parse, i: usize) -> (r: NodeFacts)
    ensures
        r == parsed_node(p@.0, p@.1, p@.2, i),
{
    let mut cursor = p.tree.walk();
    cursor.goto_descendant(i);
    let (node, field_id, depth) = (cursor.node(), cursor.field_id().map(|id| id.get()), cursor.depth());
    let (start, end) = (node.start_position(), node.end_position());
    NodeFacts { kind_id: node.kind_id(), named: node.is_named(), extra: node.is_extra(), field_id, depth,
        start_byte: node.start_byte(), end_byte: node.end_byte(), start_row: start.row, end_row: end.row,
        start_column: start.column, end_column: end.column }
}

/// The kind id a lookup answered, unless it is none: symbol 0 is tree-sitter's end-of-input
/// marker, so it doubles as "no such kind", and an id past the grammar's kinds is none either.
pub open spec fn spec_named_kind_id(id: u16, kind_count: usize) -> Option<usize> {
    if id == 0 || id as int >= kind_count { None } else { Some(id as usize) }
}

/// Symbol 0 is tree-sitter's end-of-input marker, so it doubles as "no such kind".
pub fn named_kind_id(id: u16, kind_count: usize) -> (r: Option<usize>)
    ensures
        r == spec_named_kind_id(id, kind_count),
{
    if id == 0 || id as usize >= kind_count {
        None
    } else {
        Some(id as usize)
    }
}

/// The grammar's id for field `name`; a name it lacks is noted in `missing`.
fn lookup_field(g: &LinkedGrammar, name: &'static str, missing: &mut Vec<&'static str>) -> (r: Option<u16>)
    ensures
        r == field_id_of(g@, name@),
        final(missing)@ == (if r is None { old(missing)@.push(name) } else { old(missing)@ }),
{
    let id = grammar_field_id(g, name);
    if id.is_none() {
        missing.push(name);
    }
    id
}

/// The names of the fields the walker needs that `ids` leaves without an id, in the order
/// `FieldNames` declares them; the else body's only where the spec has one.
pub open spec fn unresolved_fields(f: FieldNames, ids: FieldIds) -> Seq<&'static str> {
    let s = Seq::<&'static str>::empty();
    let s = if ids.name is None { s.push(f.name) } else { s };
    let s = if ids.body is None { s.push(f.body) } else { s };
    let s = if ids.condition is None { s.push(f.condition) } else { s };
    let s = if ids.if_then is None { s.push(f.if_then) } else { s };
    let s = if ids.if_alternative is None { s.push(f.if_alternative) } else { s };
    let s = match f.else_body {
        Some(n) => if ids.else_body is None { s.push(n) } else { s },
        None => s,
    };
    let s = if ids.logical_left is None { s.push(f.logical_left) } else { s };
    let s = if ids.logical_right is None { s.push(f.logical_right) } else { s };
    if ids.logical_operator is None { s.push(f.logical_operator) } else { s }
}

/// The grammar's field ids for the fields the walker needs.
pub open spec fn spec_field_ids(f: FieldNames, g: GrammarId) -> FieldIds {
    FieldIds {
        name: field_id_of(g, f.name@),
        body: field_id_of(g, f.body@),
        condition: field_id_of(g, f.condition@),
        if_then: field_id_of(g, f.if_then@),
        if_alternative: field_id_of(g, f.if_alternative@),
        else_body: match f.else_body {
            Some(n) => field_id_of(g, n@),
            None => None,
        },
        logical_left: field_id_of(g, f.logical_left@),
        logical_right: field_id_of(g, f.logical_right@),
        logical_operator: field_id_of(g, f.logical_operator@),
    }
}

/// `r` is what grammar `g` answers for every name `spec` declares: its counts, the kind id of
/// each role and flag claim, the field id of each control-header name and of each field the
/// walker needs, and the needed fields it lacks.
pub open spec fn resolved(spec: &LanguageSpec, g: GrammarId, r: &Resolution) -> bool {
    &&& r.kind_count == kind_count_of(g)
    &&& r.field_count == field_count_of(g)
    &&& r.role_ids@ == role_claims(&spec.kinds).map_values(|c: (&'static str, Role)| spec_named_kind_id(named_kind_of(g, c.0@), kind_count_of(g)))
    &&& r.flag_ids@ == flag_claims(&spec.kinds).map_values(|c: (&'static str, Flags)| spec_named_kind_id(named_kind_of(g, c.0@), kind_count_of(g)))
    &&& r.header_ids@ == spec.fields.control_header@.map_values(|n: &'static str| field_id_of(g, n@))
    &&& r.fields == spec_field_ids(spec.fields, g)
    &&& r.missing_fields@ == unresolved_fields(spec.fields, r.fields)
}

/// Everything the grammar answers about the names a spec declares.
pub fn resolve(spec: &LanguageSpec, g: &LinkedGrammar) -> (r: Resolution)
    ensures
        resolved(spec, g@, &r),
        resolution_fits(spec, &r) || r.field_count == usize::MAX,
{
    let kind_count = grammar_kind_count(g);
    let field_count = grammar_field_count(g);
    let rc = role_claim_list(&spec.kinds);
    let fc = flag_claim_list(&spec.kinds);
    let mut role_ids: Vec<Option<usize>> = Vec::new();
    let mut i: usize = 0;
    while i < rc.len()
        invariant
            0 <= i <= rc@.len(),
            rc@ == role_claims(&spec.kinds),
            kind_count == kind_count_of(g@),
            role_ids@.len() == i,
            forall|m: int| 0 <= m < i ==> role_ids@[m] == spec_named_kind_id(named_kind_of(g@, (#[trigger] rc@[m]).0@), kind_count),
        decreases rc@.len() - i,
    {
        role_ids.push(named_kind_id(grammar_named_kind(g, rc[i].0), kind_count));
        i = i + 1;
    }
    let mut flag_ids: Vec<Option<usize>> = Vec::new();
    let mut j: usize = 0;
    while j < fc.len()
        invariant
            0 <= j <= fc@.len(),
            fc@ == flag_claims(&spec.kinds),
            kind_count == kind_count_of(g@),
            flag_ids@.len() == j,
            forall|m: int| 0 <= m < j ==> flag_ids@[m] == spec_named_kind_id(named_kind_of(g@, (#[trigger] fc@[m]).0@), kind_count),
        decreases fc@.len() - j,
    {
        flag_ids.push(named_kind_id(grammar_named_kind(g, fc[j].0), kind_count));
        j = j + 1;
    }
    let mut header_ids: Vec<Option<u16>> = Vec::new();
    let mut h: usize = 0;
    while h < spec.fields.control_header.len()
        invariant
            0 <= h <= spec.fields.control_header@.len(),
            header_ids@.len() == h,
            forall|m: int| 0 <= m < h ==> header_ids@[m] == field_id_of(g@, (#[trigger] spec.fields.control_header@[m])@),
        decreases spec.fields.control_header@.len() - h,
    {
        header_ids.push(grammar_field_id(g, spec.fields.control_header[h]));
        h = h + 1;
    }
    let f = &spec.fields;
    let mut missing: Vec<&'static str> = Vec::new();
    let fields = FieldIds {
        name: lookup_field(g, f.name, &mut missing),
        body: lookup_field(g, f.body, &mut missing),
        condition: lookup_field(g, f.condition, &mut missing),
        if_then: lookup_field(g, f.if_then, &mut missing),
        if_alternative: lookup_field(g, f.if_alternative, &mut missing),
        else_body: match f.else_body {
            Some(n) => lookup_field(g, n, &mut missing),
            None => None,
        },
        logical_left: lookup_field(g, f.logical_left, &mut missing),
        logical_right: lookup_field(g, f.logical_right, &mut missing),
        logical_operator: lookup_field(g, f.logical_operator, &mut missing),
    };
    let r = Resolution { kind_count, field_count, role_ids, flag_ids, header_ids, fields, missing_fields: missing };
    assert(r.role_ids@ =~= role_claims(&spec.kinds).map_values(|c: (&'static str, Role)| spec_named_kind_id(named_kind_of(g@, c.0@), kind_count_of(g@))));
    assert(r.flag_ids@ =~= flag_claims(&spec.kinds).map_values(|c: (&'static str, Flags)| spec_named_kind_id(named_kind_of(g@, c.0@), kind_count_of(g@))));
    assert(r.header_ids@ =~= spec.fields.control_header@.map_values(|n: &'static str| field_id_of(g@, n@)));
    r
}

/// The name a kind id shows as: the grammar's, else nothing.
pub open spec fn shown_kind_name(g: GrammarId, id: u16) -> Seq<char> {
    match kind_name_of(g, id) {
        Some(n) => n,
        None => Seq::empty(),
    }
}

/// The grammar's name for each of its kind ids, as far as a `u16` reaches.
pub fn kind_names(g: &LinkedGrammar) -> (r: Vec<String>)
    ensures
        r@.len() == if kind_count_of(g@) <= 65536 { kind_count_of(g@) as int } else { 65536 },
        forall|i: int| 0 <= i < r@.len() ==> (#[trigger] r@[i])@ == shown_kind_name(g@, i as u16),
{
    let count = grammar_kind_count(g);
    let mut names: Vec<String> = Vec::new();
    let mut id: usize = 0;
    while id < count && id <= 65535
        invariant
            0 <= id <= count,
            count == kind_count_of(g@),
            id <= 65536,
            names@.len() == id,
            forall|i: int| 0 <= i < id ==> (#[trigger] names@[i])@ == shown_kind_name(g@, i as u16),
        decreases count - id,
    {
        let name = match grammar_kind_name(g, id as u16) {
            Some(n) => n,
            None => String::new(),
        };
        names.push(name);
        id = id + 1;
    }
    names
}

/// A compiled language together with the grammar it was compiled against.
pub struct Grammar {
    pub language: CompiledLanguage,
    pub grammar: LinkedGrammar,
}

/// The name a field id shows as: the grammar's, else nothing; id 0 names no field.
pub open spec fn shown_field_name(g: GrammarId, id: int) -> Seq<char> {
    if 1 <= id <= 65535 {
        match field_name_of(g, id as u16) {
            Some(n) => n,
            None => Seq::empty(),
        }
    } else {
        Seq::empty()
    }
}

/// What compiling `spec` against grammar `g` comes to once the grammar has answered `res`: the
/// grammar with the tables [`assemble`] builds, an id for every field the walker needs, and the
/// grammar's name for each kind id and field id; or every reason the spec is refused. A grammar
/// claiming `usize::MAX` fields, whose header table (one slot per field id and slot 0) no length
/// can hold, is refused with no reason to name.
pub open spec fn compiled_as(spec: LanguageSpec, g: GrammarId, res: Resolution, r: Result<Grammar, SpecErrors>) -> bool {
    if res.field_count == usize::MAX {
        r matches Err(e) && e.spec_is_empty()
    } else {
        &&& resolution_fits(&spec, &res)
        &&& res.missing_fields@ == unresolved_fields(spec.fields, res.fields)
        &&& r is Ok <==> (spec_conflicts(&spec, &res).len() == 0
            && (forall|x: Seq<char>| !unknown_kind_named(&spec, &res, x))
            && (forall|x: Seq<char>| !unknown_field_named(&spec, &res, x)))
        &&& r matches Ok(c) ==> {
            &&& c.grammar@ == g
            &&& c.language.spec == spec
            &&& c.language.fields == res.fields
            &&& unresolved_fields(spec.fields, c.language.fields).len() == 0
            &&& c.language.kinds@ == spec_kind_table(&spec, &res)
            &&& c.language.header_field@ == spec_header_table(&spec, &res)
            &&& c.language.kind_names@.len() == c.language.kinds@.len()
            &&& forall|i: int| 0 <= i < c.language.kind_names@.len() ==> (#[trigger] c.language.kind_names@[i])@
                == if i <= 65535 { shown_kind_name(g, i as u16) } else { Seq::empty() }
            &&& c.language.field_names@.len() == res.field_count + 1
            &&& forall|i: int| 0 <= i < c.language.field_names@.len() ==> (#[trigger] c.language.field_names@[i])@
                == shown_field_name(g, i)
        }
        &&& r matches Err(e) ==> {
            &&& strictly_sorted(e.unknown_kinds@)
            &&& (forall|x: Seq<char>| holds_text(e.unknown_kinds@, x) <==> unknown_kind_named(&spec, &res, x))
            &&& strictly_sorted(e.unknown_fields@)
            &&& (forall|x: Seq<char>| holds_text(e.unknown_fields@, x) <==> unknown_field_named(&spec, &res, x))
            &&& e.conflicting_roles@ == spec_conflicts(&spec, &res)
        }
    }
}

/// Compiles `spec` against grammar `g`, or names every kind and field the grammar lacks: the
/// outcome is [`compiled_as`] over exactly what the grammar answers for the spec's names.
pub fn compile(spec: LanguageSpec, g: LinkedGrammar) -> (r: Result<Grammar, SpecErrors>)
    ensures
        r matches Ok(c) ==> c.language.spec == spec && c.language.kind_names@.len() == c.language.kinds@.len(),
        forall|res: Resolution| resolved(&spec, g@, &res) ==> #[trigger] compiled_as(spec, g@, res, r),
        exists|res: Resolution| resolved(&spec, g@, &res) && #[trigger] compiled_as(spec, g@, res, r),
{
    let res = resolve(&spec, &g);
    let ghost spec0 = spec;
    let ghost id0 = g@;
    let ghost res0 = res;
    proof {
        lemma_resolved_unique(&spec0, id0, &res0);
    }
    if res.field_count == usize::MAX {
        let r = Err(SpecErrors { unknown_kinds: Vec::new(), unknown_fields: Vec::new(), conflicting_roles: Vec::new() });
        assert(compiled_as(spec0, id0, res0, r));
        proof {
            lemma_compiled_as_fixed(spec0, id0, res0, r);
        }
        return r;
    }
    let (kinds, header_field) = match assemble(&spec, &res) {
        Ok(tables) => tables,
        Err(e) => {
            let r = Err(e);
            assert(compiled_as(spec0, id0, res0, r));
            proof {
                lemma_compiled_as_fixed(spec0, id0, res0, r);
            }
            return r;
        },
    };
    let mut kind_names: Vec<String> = Vec::new();
    let mut id: usize = 0;
    while id < kinds.len()
        invariant
            0 <= id <= kinds@.len(),
            kind_names@.len() == id,
            forall|i: int| 0 <= i < id ==> (#[trigger] kind_names@[i])@
                == if i <= 65535 { shown_kind_name(g@, i as u16) } else { Seq::empty() },
        decreases kinds@.len() - id,
    {
        let name = if id <= 65535 {
            match grammar_kind_name(&g, id as u16) {
                Some(n) => n,
                None => String::new(),
            }
        } else {
            String::new()
        };
        kind_names.push(name);
        id = id + 1;
    }
    let mut field_names: Vec<String> = Vec::new();
    let mut fid: usize = 0;
    while fid <= res.field_count
        invariant
            res.field_count < usize::MAX,
            0 <= fid <= res.field_count + 1,
            field_names@.len() == fid,
            forall|i: int| 0 <= i < fid ==> (#[trigger] field_names@[i])@ == shown_field_name(g@, i),
        decreases res.field_count + 1 - fid,
    {
        let name = if fid >= 1 && fid <= 65535 {
            match grammar_field_name(&g, fid as u16) {
                Some(n) => n,
                None => String::new(),
            }
        } else {
            String::new()
        };
        field_names.push(name);
        fid = fid + 1;
    }
    let language = CompiledLanguage { spec, fields: res.fields, kinds, header_field, kind_names, field_names };
    let r = Ok(Grammar { language, grammar: g });
    proof {
        let missing = res0.missing_fields@;
        if missing.len() > 0 {
            assert(holds_text(missing, missing[0]@));
            assert(unknown_field_named(&spec0, &res0, missing[0]@));
        }
    }
    assert(compiled_as(spec0, id0, res0, r));
    proof {
        lemma_compiled_as_fixed(spec0, id0, res0, r);
    }
    r
}

/// What compiling comes to is the same over every resolution the grammar's answers fix.
proof fn lemma_compiled_as_fixed(spec: LanguageSpec, g: GrammarId, res: Resolution, r: Result<Grammar, SpecErrors>)
    requires
        resolved(&spec, g, &res),
        compiled_as(spec, g, res, r),
    ensures
        forall|other: Resolution| resolved(&spec, g, &other) ==> #[trigger] compiled_as(spec, g, other, r),
{
    assert forall|other: Resolution| resolved(&spec, g, &other) implies #[trigger] compiled_as(spec, g, other, r) by {
        lemma_resolved_unique(&spec, g, &res);
        assert(resolution_fits(&spec, &other) == resolution_fits(&spec, &res));
        assert(spec_conflicts(&spec, &other) == spec_conflicts(&spec, &res));
        assert(spec_kind_table(&spec, &other) == spec_kind_table(&spec, &res));
        assert(spec_header_table(&spec, &other) == spec_header_table(&spec, &res));
        assert forall|x: Seq<char>| unknown_kind_named(&spec, &other, x) == unknown_kind_named(&spec, &res, x) by {}
        assert forall|x: Seq<char>| unknown_field_named(&spec, &other, x) == unknown_field_named(&spec, &res, x) by {}
    }
}

/// Two resolutions of one spec against one grammar agree on everything compiling reads.
proof fn lemma_resolved_unique(spec: &LanguageSpec, g: GrammarId, res: &Resolution)
    requires
        resolved(spec, g, res),
    ensures
        forall|other: Resolution| #[trigger] resolved(spec, g, &other) ==> {
            &&& other.kind_count == res.kind_count
            &&& other.field_count == res.field_count
            &&& other.role_ids@ == res.role_ids@
            &&& other.flag_ids@ == res.flag_ids@
            &&& other.header_ids@ == res.header_ids@
            &&& other.fields == res.fields
            &&& other.missing_fields@ == res.missing_fields@
        },
{
}

/// A parse's key: the grammar, the text and the region it was confined to.
pub open spec fn key_size(k: (GrammarId, Seq<char>, Option<Region>)) -> usize {
    parsed_size(k.0, k.1, k.2)
}

pub open spec fn key_node(k: (GrammarId, Seq<char>, Option<Region>), i: int) -> NodeFacts {
    parsed_node(k.0, k.1, k.2, i as usize)
}

/// How many nodes a parse is read into: all of them, at least the root, at most what a `u32`
/// counts.
pub open spec fn read_len(k: (GrammarId, Seq<char>, Option<Region>)) -> int {
    let c = key_size(k);
    if c == 0 { 1 } else if c > 4294967295 { 4294967295 } else { c as int }
}

/// The parents of the first `n` nodes read, and the path of open nodes after them: a node's
/// parent is the last open node one level up from it, and it closes every open node at its
/// depth or deeper; a depth the path cannot hold is read as the deepest it can.
pub open spec fn read_links(k: (GrammarId, Seq<char>, Option<Region>), n: nat) -> (Seq<Option<usize>>, Seq<usize>)
    decreases n,
{
    if n == 0 {
        (Seq::empty(), Seq::empty())
    } else if n == 1 {
        (seq![None], seq![0usize])
    } else {
        let (ps, path) = read_links(k, (n - 1) as nat);
        let depth = key_node(k, n - 1).depth as int;
        let keep = if depth == 0 { 1 } else if depth > path.len() { path.len() as int } else { depth };
        let kept = path.subrange(0, keep);
        (ps.push(Some(kept.last())), kept.push((n - 1) as usize))
    }
}

/// Node `node`, the `i`th read, holds what the parse tells of it; the root fills no field.
pub open spec fn node_read(node: SyntaxNode, f: NodeFacts, i: int) -> bool {
    &&& node.kind_id == f.kind_id
    &&& node.named == f.named
    &&& node.extra == f.extra
    &&& node.field_id == (if i == 0 { None } else { f.field_id })
    &&& node.start_byte == f.start_byte
    &&& node.end_byte == f.end_byte
    &&& node.start_row == f.start_row
    &&& node.end_row == f.end_row
    &&& node.start_column == f.start_column
    &&& node.end_column == f.end_column
}

/// `t` is the parse named by `k`, read node by node in pre-order: every node as the parse tells
/// it, parents as depths give them, each node's children in order.
pub open spec fn tree_reads(t: SyntaxTree, k: (GrammarId, Seq<char>, Option<Region>)) -> bool {
    &&& t.wf()
    &&& t.nodes@.len() == read_len(k)
    &&& t.region_row == match parsed_first_row(k.0, k.1, k.2) {
        Some(row) => row,
        None => 0,
    }
    &&& forall|i: int| 0 <= i < t.nodes@.len() ==> node_read(#[trigger] t.nodes@[i], key_node(k, i), i)
        && t.nodes@[i].parent == read_links(k, t.nodes@.len() as nat).0[i]
    &&& forall|q: int, a: int, b: int| 0 <= q < t.nodes@.len() && 0 <= a < b < t.nodes@[q].children@.len()
        ==> #[trigger] t.nodes@[q].children@[a] < #[trigger] t.nodes@[q].children@[b]
}

proof fn lemma_read_links(k: (GrammarId, Seq<char>, Option<Region>), n: nat)
    ensures
        read_links(k, n).0.len() == n,
        n > 0 ==> read_links(k, n).1.len() >= 1,
        forall|m: int| 0 <= m < read_links(k, n).1.len() ==> #[trigger] read_links(k, n).1[m] < n,
    decreases n,
{
    if n > 1 {
        lemma_read_links(k, (n - 1) as nat);
    }
}

/// The row a parse's first included range starts on, 0 for a whole-document parse.
fn region_row(p: &Parse) -> (r: usize)
    ensures
        r == match parsed_first_row(p@.0, p@.1, p@.2) {
            Some(row) => row,
            None => 0,
        },
{
    match parse_first_row(p) {
        Some(row) => row,
        None => 0,
    }
}

/// Reads a parse into a [`SyntaxTree`]. Depths come from the cursor, and a node's parent is the
/// nearest earlier node one level up, which in pre-order is the last node on the open path.
#[verifier::spinoff_prover]
#[verifier::rlimit(80)]
pub fn read_tree(p: &Parse) -> (r: SyntaxTree)
    ensures
        tree_reads(r, p@),
        r.len() <= 4294967295,
{
    let ghost k = p@;
    let mut count = parse_size(p);
    if count == 0 {
        count = 1;
    }
    if count > 4294967295 {
        count = 4294967295;
    }
    let mut nodes: Vec<SyntaxNode> = Vec::new();
    let mut path: Vec<usize> = Vec::new();
    let mut i: usize = 0;
    while i < count
        invariant
            k == p@,
            count == read_len(k),
            count <= 4294967295,
            0 <= i <= count,
            nodes@.len() == i,
            i > 0 ==> path@.len() >= 1,
            i == 0 ==> path@.len() == 0,
            forall|m: int| 0 <= m < path@.len() ==> path@[m] < i,
            i > 0 ==> nodes_wf(nodes@),
            i > 0 ==> path@ == read_links(k, i as nat).1,
            forall|m: int| 0 <= m < i ==> node_read(#[trigger] nodes@[m], key_node(k, m), m)
                && nodes@[m].parent == read_links(k, i as nat).0[m],
            forall|q: int, a: int, b: int| 0 <= q < i && 0 <= a < b < nodes@[q].children@.len()
                ==> #[trigger] nodes@[q].children@[a] < #[trigger] nodes@[q].children@[b],
        decreases count - i,
    {
        let facts = node_at(p, i);
        let depth = facts.depth as usize;
        let field_id = if i == 0 { None } else { facts.field_id };
        let fresh = SyntaxNode {
            kind_id: facts.kind_id,
            named: facts.named,
            extra: facts.extra,
            field_id,
            start_byte: facts.start_byte,
            end_byte: facts.end_byte,
            start_row: facts.start_row,
            end_row: facts.end_row,
            start_column: facts.start_column,
            end_column: facts.end_column,
            parent: None,
            index_in_parent: 0,
            children: Vec::new(),
        };
        proof {
            lemma_read_links(k, i as nat);
            lemma_read_links(k, (i + 1) as nat);
        }
        let ghost links_before = read_links(k, i as nat);
        let ghost nodes_before = nodes@;
        if i == 0 {
            nodes.push(fresh);
            proof {
                assert(nodes@[0].children@ =~= Seq::<usize>::empty());
            }
        } else {
            let keep = if depth == 0 { 1 } else if depth > path.len() { path.len() } else { depth };
            path.truncate(keep);
            proof {
                assert(facts == key_node(k, i as int));
                assert(path@ == links_before.1.subrange(0, keep as int));
            }
            let up = path[path.len() - 1];
            let ghost before = nodes@;
            let slot = nodes[up].children.len();
            let mut child = fresh;
            child.parent = Some(up);
            child.index_in_parent = slot;
            proof {
                assert(child.children@ =~= Seq::<usize>::empty());
            }
            nodes.push(child);
            nodes[up].children.push(i);
            proof {
                let s = nodes@;
                assert(s.len() == i + 1);
                assert(s[up as int].children@ == before[up as int].children@.push(i));
                assert forall|a: int| a != up && 0 <= a < i implies #[trigger] s[a] == before[a] by {}
                assert forall|a: int| #![trigger s[a]] 1 <= a < s.len() implies {
                    &&& s[a].parent matches Some(q)
                    &&& q < a
                    &&& s[a].index_in_parent < s[q as int].children@.len()
                    &&& s[q as int].children@[s[a].index_in_parent as int] == a
                } by {
                    if a < i {
                        assert(s[a].parent == before[a].parent);
                        assert(s[a].index_in_parent == before[a].index_in_parent);
                        assert(before[a].parent is Some);
                        let q = before[a].parent.unwrap();
                        assert(q < a);
                        if q != up {
                            assert(s[q as int] == before[q as int]);
                        }
                    }
                }
                assert forall|a: int, k: int| 0 <= a < s.len() && 0 <= k < s[a].children@.len() implies {
                    let c = #[trigger] s[a].children@[k];
                    &&& a < c < s.len()
                    &&& s[c as int].parent == Some(a as usize)
                    &&& s[c as int].index_in_parent == k
                } by {
                    if a == i {
                        assert(s[a].children@.len() == 0);
                    } else if a == up {
                        if k < before[a].children@.len() {
                            let c = before[a].children@[k];
                            assert(s[a].children@[k] == c);
                            assert(c < i);
                            if c != up {
                                assert(s[c as int] == before[c as int]);
                            }
                        }
                    } else {
                        assert(s[a] == before[a]);
                        let c = before[a].children@[k];
                        assert(c < i);
                        if c != up {
                            assert(s[c as int] == before[c as int]);
                        } else {
                            assert(s[c as int].parent == before[c as int].parent);
                            assert(s[c as int].index_in_parent == before[c as int].index_in_parent);
                        }
                    }
                }
            }
        }
        proof {
            let s = nodes@;
            let links = read_links(k, (i + 1) as nat);
            if i > 0 {
                assert(links.0 == links_before.0.push(s[i as int].parent));
            }
            assert forall|m: int| 0 <= m < i + 1 implies node_read(#[trigger] s[m], key_node(k, m), m)
                && s[m].parent == links.0[m] by {
                if m < i {
                    assert(s[m].parent == nodes_before[m].parent);
                    assert(s[m].kind_id == nodes_before[m].kind_id);
                    assert(node_read(nodes_before[m], key_node(k, m), m));
                }
            }
            assert forall|q: int, a: int, b: int| 0 <= q < i + 1 && 0 <= a < b < s[q].children@.len()
                implies #[trigger] s[q].children@[a] < #[trigger] s[q].children@[b] by {
                if q < i && i > 0 && s[q].children@ != nodes_before[q].children@ {
                    assert(s[q].children@ == nodes_before[q].children@.push(i));
                    if b < nodes_before[q].children@.len() {
                        assert(nodes_before[q].children@[a] < nodes_before[q].children@[b]);
                    } else {
                        assert(nodes_before[q].children@[a] < i);
                    }
                } else if q < i {
                    assert(nodes_before[q].children@[a] < nodes_before[q].children@[b]);
                }
            }
        }
        let ghost open_before = path@;
        path.push(i);
        proof {
            if i == 0 {
                assert(path@ =~= read_links(k, 1).1);
            } else {
                assert(path@ =~= open_before.push(i));
                assert(path@ =~= read_links(k, (i + 1) as nat).1);
            }
        }
        i = i + 1;
    }
    let region_row = region_row(p);
    let r = SyntaxTree { nodes, region_row };
    assert(r.nodes@ == nodes@);
    r
}

} // verus!

verus! {

/// A stretch of the source a parse is confined to, in bytes and in rows and columns, as
/// `set_included_ranges` takes it.
#[derive(Clone, Copy, Debug, PartialEq, Eq, Structural)]
pub struct Region {
    pub start_byte: usize,
    pub end_byte: usize,
    pub start_row: usize,
    pub start_column: usize,
    pub end_row: usize,
    pub end_column: usize,
}

/// A parse read into a tree, and whether the grammar had to recover from an error.
pub struct Parsed {
    pub tree: SyntaxTree,
    pub has_error: bool,
}

/// Parses `source` with grammar `g`, the whole document or one region of it, and reads the tree
/// back: `None` exactly when tree-sitter gives no tree, that is when the grammar or the region is
/// refused. A parse that recovered from errors is still read, and says so.
pub fn parse_source(g: &LinkedGrammar, source: &str, region: Option<Region>) -> (r: Option<Parsed>)
    ensures
        r is Some <==> parses(g@, source@, region),
        r matches Some(p) ==> {
            &&& tree_reads(p.tree, (g@, source@, region))
            &&& p.has_error == parsed_has_error(g@, source@, region)
            &&& p.tree.wf()
            &&& p.tree.len() <= 4294967295
        },
{
    let parse = match parse_with(g, source, region) {
        Some(p) => p,
        None => return None,
    };
    let has_error = parse_has_error(&parse);
    let tree = read_tree(&parse);
    Some(Parsed { tree, has_error })
}

} // verus!
