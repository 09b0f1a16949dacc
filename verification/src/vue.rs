//! A Vue single-file component: only its script blocks score. A `v-if` chain is branching, but
//! the metric is defined over script code, and counting a template would make a component
//! incomparable with the same logic written in TypeScript.
use vstd::prelude::*;
use crate::grammars::GrammarId;
use crate::parse::{kind_count_of, kind_names, parse_source, parses, shown_kind_name, tree_reads, LinkedGrammar, Region};
use vstd::utf8::encode_utf8;
use crate::syntax::SyntaxTree;
use crate::text::{chars_of, contains, contains_lit, str_eq};

verus! {

/// Node `n`'s kind is spelt `x` in the table `names`.
pub open spec fn kind_named(names: Seq<String>, t: &SyntaxTree, n: int, x: Seq<char>) -> bool {
    let k = t.spec_kind(n) as int;
    k < names.len() && names[k]@ == x
}

fn kind_named_exec(names: &Vec<String>, t: &SyntaxTree, n: usize, x: &str) -> (r: bool)
    ensures
        r == kind_named(names@, t, n as int, x@),
{
    let k = t.kind(n) as usize;
    k < names.len() && str_eq(names[k].as_str(), x)
}

/// The first named child of `n`, from position `k`, whose kind is `x`.
pub open spec fn child_of_kind_from(names: Seq<String>, t: &SyntaxTree, kids: Seq<usize>, x: Seq<char>, k: int) -> Option<usize>
    decreases kids.len() - k,
{
    if k < 0 || k >= kids.len() {
        None
    } else if kind_named(names, t, kids[k] as int, x) {
        Some(kids[k])
    } else {
        child_of_kind_from(names, t, kids, x, k + 1)
    }
}

pub open spec fn child_of_kind(names: Seq<String>, t: &SyntaxTree, n: int, x: Seq<char>) -> Option<usize> {
    child_of_kind_from(names, t, t.spec_named_children(n), x, 0)
}

fn child_of_kind_exec(names: &Vec<String>, t: &SyntaxTree, n: usize, x: &str) -> (r: Option<usize>)
    ensures
        r == child_of_kind(names@, t, n as int, x@),
{
    let kids = t.named_children(n);
    let mut k: usize = 0;
    while k < kids.len()
        invariant
            0 <= k <= kids@.len(),
            kids@ == t.spec_named_children(n as int),
            child_of_kind(names@, t, n as int, x@) == child_of_kind_from(names@, t, kids@, x@, k as int),
        decreases kids@.len() - k,
    {
        if kind_named_exec(names, t, kids[k], x) {
            return Some(kids[k]);
        }
        k = k + 1;
    }
    None
}

/// The tag an element opens with.
pub open spec fn tag_name(names: Seq<String>, t: &SyntaxTree, src: Seq<u8>, el: int) -> Option<Seq<char>> {
    match child_of_kind(names, t, el, "start_tag"@) {
        Some(start) => match child_of_kind(names, t, start as int, "tag_name"@) {
            Some(tag) => t.spec_text(src, tag as int),
            None => None,
        },
        None => None,
    }
}

/// Some ancestor of `n` is a `<template>` element, so `n` belongs to markup, not to the
/// component's code. Ancestors rather than the parent alone, so that an error node the HTML
/// grammar makes of template syntax cannot hide a script block.
pub open spec fn inside_template(names: Seq<String>, t: &SyntaxTree, src: Seq<u8>, n: int) -> bool
    decreases n,
{
    match t.spec_parent(n) {
        Some(p) => if p < n {
            (kind_named(names, t, p as int, "element"@) && tag_name(names, t, src, p as int) == Some("template"@))
                || inside_template(names, t, src, p as int)
        } else {
            false
        },
        None => false,
    }
}

/// The script elements under `n` outside any template, in document order.
pub open spec fn scripts_of(names: Seq<String>, t: &SyntaxTree, src: Seq<u8>, n: int) -> Seq<usize>
    decreases t.len() - n, 1int, 0int,
{
    if !(0 <= n < t.len()) {
        Seq::empty()
    } else if kind_named(names, t, n, "script_element"@) {
        if inside_template(names, t, src, n) { Seq::empty() } else { seq![n as usize] }
    } else {
        scripts_from(names, t, src, n, 0)
    }
}

pub open spec fn scripts_from(names: Seq<String>, t: &SyntaxTree, src: Seq<u8>, n: int, k: int) -> Seq<usize>
    decreases t.len() - n, 0int, t.kids(n).len() - k,
{
    if !(0 <= n < t.len()) || k < 0 || k >= t.kids(n).len() {
        Seq::empty()
    } else {
        let c = t.kids(n)[k] as int;
        (if n < c < t.len() { scripts_of(names, t, src, c) } else { Seq::empty() }) + scripts_from(names, t, src, n, k + 1)
    }
}

/// An attribute's value, quoted or bare.
pub open spec fn attribute_value(names: Seq<String>, t: &SyntaxTree, src: Seq<u8>, a: int) -> Option<Seq<char>> {
    let value = match child_of_kind(names, t, a, "quoted_attribute_value"@) {
        Some(q) => child_of_kind(names, t, q as int, "attribute_value"@),
        None => child_of_kind(names, t, a, "attribute_value"@),
    };
    match value {
        Some(v) => t.spec_text(src, v as int),
        None => None,
    }
}

/// The name and value of each attribute of a start tag, from position `k` of its named
/// children; an attribute whose name cannot be read is left out.
pub open spec fn attributes_from(names: Seq<String>, t: &SyntaxTree, src: Seq<u8>, kids: Seq<usize>, k: int) -> Seq<(Seq<char>, Option<Seq<char>>)>
    decreases kids.len() - k,
{
    if k < 0 || k >= kids.len() {
        Seq::empty()
    } else {
        let a = kids[k] as int;
        let here = if kind_named(names, t, a, "attribute"@) {
            match child_of_kind(names, t, a, "attribute_name"@) {
                Some(nm) => match t.spec_text(src, nm as int) {
                    Some(name) => seq![(name, attribute_value(names, t, src, a))],
                    None => Seq::empty(),
                },
                None => Seq::empty(),
            }
        } else {
            Seq::empty()
        };
        here + attributes_from(names, t, src, kids, k + 1)
    }
}

/// The first attribute named `name` from position `k`.
pub open spec fn attribute_named(attrs: Seq<(Seq<char>, Option<Seq<char>>)>, name: Seq<char>, k: int) -> Option<Option<Seq<char>>>
    decreases attrs.len() - k,
{
    if k < 0 || k >= attrs.len() {
        None
    } else if attrs[k].0 == name {
        Some(attrs[k].1)
    } else {
        attribute_named(attrs, name, k + 1)
    }
}

/// A script block: the region its code spans, and whether it declares TypeScript.
#[derive(Clone, Copy, Debug, PartialEq, Eq, Structural)]
pub struct Block {
    pub region: Region,
    pub typescript: bool,
}

pub open spec fn region_of(t: &SyntaxTree, n: int) -> Region {
    Region {
        start_byte: t.node(n).start_byte,
        end_byte: t.node(n).end_byte,
        start_row: t.node(n).start_row,
        start_column: t.node(n).start_column,
        end_row: t.node(n).end_row,
        end_column: t.node(n).end_column,
    }
}

/// The block a script element holds: none for one loaded with `src=`, or without a body.
pub open spec fn spec_block(names: Seq<String>, t: &SyntaxTree, src: Seq<u8>, script: int) -> Option<Block> {
    match child_of_kind(names, t, script, "start_tag"@) {
        None => None,
        Some(start) => {
            let attrs = attributes_from(names, t, src, t.spec_named_children(start as int), 0);
            if attribute_named(attrs, "src"@, 0) is Some {
                None
            } else {
                match child_of_kind(names, t, script, "raw_text"@) {
                    None => None,
                    Some(body) => if body >= t.len() {
                        None
                    } else {
                        let lang = match attribute_named(attrs, "lang"@, 0) {
                            Some(Some(v)) => Some(v),
                            _ => None,
                        };
                        Some(Block {
                            region: region_of(t, body as int),
                            typescript: lang == Some("ts"@) || lang == Some("mts"@) || lang == Some("cts"@),
                        })
                    },
                }
            }
        },
    }
}

/// The blocks of the given script elements, in order.
pub open spec fn blocks_of(names: Seq<String>, t: &SyntaxTree, src: Seq<u8>, scripts: Seq<usize>) -> Seq<Block>
    decreases scripts.len(),
{
    if scripts.len() == 0 {
        Seq::empty()
    } else {
        let front = blocks_of(names, t, src, scripts.drop_last());
        match spec_block(names, t, src, scripts.last() as int) {
            Some(b) => front.push(b),
            None => front,
        }
    }
}

} // verus!

verus! {

fn tag_name_exec(names: &Vec<String>, t: &SyntaxTree, src: &[u8], el: usize) -> (r: Option<String>)
    ensures
        r is Some <==> tag_name(names@, t, src@, el as int) is Some,
        r matches Some(s) ==> tag_name(names@, t, src@, el as int) == Some(s@),
{
    match child_of_kind_exec(names, t, el, "start_tag") {
        Some(start) => match child_of_kind_exec(names, t, start, "tag_name") {
            Some(tag) => t.text(src, tag),
            None => None,
        },
        None => None,
    }
}

fn inside_template_exec(names: &Vec<String>, t: &SyntaxTree, src: &[u8], n: usize) -> (r: bool)
    ensures
        r == inside_template(names@, t, src@, n as int),
    decreases n,
{
    match t.parent(n) {
        Some(p) => if p < n {
            let here = kind_named_exec(names, t, p, "element") && match tag_name_exec(names, t, src, p) {
                Some(tag) => str_eq(tag.as_str(), "template"),
                None => false,
            };
            here || inside_template_exec(names, t, src, p)
        } else {
            false
        },
        None => false,
    }
}

fn collect_scripts(names: &Vec<String>, t: &SyntaxTree, src: &[u8], n: usize, out: &mut Vec<usize>)
    ensures
        final(out)@ == old(out)@ + scripts_of(names@, t, src@, n as int),
    decreases t.len() - n, 1int, 0int,
{
    if n >= t.nodes.len() {
        assert(final(out)@ =~= old(out)@ + Seq::<usize>::empty());
        return;
    }
    if kind_named_exec(names, t, n, "script_element") {
        if !inside_template_exec(names, t, src, n) {
            out.push(n);
        } else {
            assert(out@ =~= old(out)@ + Seq::<usize>::empty());
        }
        return;
    }
    let kids = &t.nodes[n].children;
    let ghost start = out@;
    let mut k: usize = 0;
    while k < kids.len()
        invariant
            n < t.len(),
            kids@ == t.kids(n as int),
            0 <= k <= kids@.len(),
            out@ + scripts_from(names@, t, src@, n as int, k as int) == start + scripts_from(names@, t, src@, n as int, 0),
        decreases kids@.len() - k,
    {
        let c = kids[k];
        let ghost before = out@;
        if n < c && c < t.nodes.len() {
            collect_scripts(names, t, src, c, out);
        }
        proof {
            let here = if n < c < t.len() { scripts_of(names@, t, src@, c as int) } else { Seq::empty() };
            assert(out@ =~= before + here);
            assert(scripts_from(names@, t, src@, n as int, k as int) == here + scripts_from(names@, t, src@, n as int, k + 1));
            assert(out@ + scripts_from(names@, t, src@, n as int, k + 1) =~= before + scripts_from(names@, t, src@, n as int, k as int));
        }
        k = k + 1;
    }
    assert(out@ =~= start + scripts_from(names@, t, src@, n as int, 0));
}

fn attribute_value_exec(names: &Vec<String>, t: &SyntaxTree, src: &[u8], a: usize) -> (r: Option<String>)
    ensures
        r is Some <==> attribute_value(names@, t, src@, a as int) is Some,
        r matches Some(s) ==> attribute_value(names@, t, src@, a as int) == Some(s@),
{
    let value = match child_of_kind_exec(names, t, a, "quoted_attribute_value") {
        Some(q) => child_of_kind_exec(names, t, q, "attribute_value"),
        None => child_of_kind_exec(names, t, a, "attribute_value"),
    };
    match value {
        Some(v) => t.text(src, v),
        None => None,
    }
}

pub open spec fn attr_views(v: Seq<(String, Option<String>)>) -> Seq<(Seq<char>, Option<Seq<char>>)> {
    v.map_values(|p: (String, Option<String>)| (p.0@, crate::finding::opt_view(p.1)))
}

fn attributes_exec(names: &Vec<String>, t: &SyntaxTree, src: &[u8], start: usize) -> (r: Vec<(String, Option<String>)>)
    ensures
        attr_views(r@) == attributes_from(names@, t, src@, t.spec_named_children(start as int), 0),
{
    let kids = t.named_children(start);
    let mut out: Vec<(String, Option<String>)> = Vec::new();
    let mut k: usize = 0;
    while k < kids.len()
        invariant
            0 <= k <= kids@.len(),
            attr_views(out@) + attributes_from(names@, t, src@, kids@, k as int) == attributes_from(names@, t, src@, kids@, 0),
        decreases kids@.len() - k,
    {
        let a = kids[k];
        let ghost before = out@;
        if kind_named_exec(names, t, a, "attribute") {
            match child_of_kind_exec(names, t, a, "attribute_name") {
                Some(nm) => match t.text(src, nm) {
                    Some(name) => {
                        let value = attribute_value_exec(names, t, src, a);
                        out.push((name, value));
                        proof {
                            assert(attr_views(out@) =~= attr_views(before).push((name@, crate::finding::opt_view(value))));
                            assert(crate::finding::opt_view(value) == attribute_value(names@, t, src@, a as int));
                        }
                    },
                    None => {},
                },
                None => {},
            }
        }
        proof {
            assert(attr_views(out@) + attributes_from(names@, t, src@, kids@, k + 1) =~= attr_views(before) + attributes_from(names@, t, src@, kids@, k as int));
        }
        k = k + 1;
    }
    assert(attr_views(out@) + Seq::<(Seq<char>, Option<Seq<char>>)>::empty() =~= attr_views(out@));
    out
}

fn attribute_named_exec(attrs: &Vec<(String, Option<String>)>, name: &str) -> (r: Option<Option<String>>)
    ensures
        match attribute_named(attr_views(attrs@), name@, 0) {
            None => r is None,
            Some(v) => r matches Some(x) && crate::finding::opt_view(x) == v,
        },
{
    let mut k: usize = 0;
    while k < attrs.len()
        invariant
            0 <= k <= attrs@.len(),
            attribute_named(attr_views(attrs@), name@, 0) == attribute_named(attr_views(attrs@), name@, k as int),
        decreases attrs@.len() - k,
    {
        assert(attr_views(attrs@)[k as int] == (attrs@[k as int].0@, crate::finding::opt_view(attrs@[k as int].1)));
        if str_eq(attrs[k].0.as_str(), name) {
            let v = match &attrs[k].1 {
                Some(s) => Some(s.clone()),
                None => None,
            };
            return Some(v);
        }
        k = k + 1;
    }
    None
}

fn block_exec(names: &Vec<String>, t: &SyntaxTree, src: &[u8], script: usize) -> (r: Option<Block>)
    ensures
        r == spec_block(names@, t, src@, script as int),
{
    let start = match child_of_kind_exec(names, t, script, "start_tag") {
        Some(s) => s,
        None => return None,
    };
    let attrs = attributes_exec(names, t, src, start);
    if attribute_named_exec(&attrs, "src").is_some() {
        return None;
    }
    let body = match child_of_kind_exec(names, t, script, "raw_text") {
        Some(b) => b,
        None => return None,
    };
    if body >= t.nodes.len() {
        return None;
    }
    let lang = match attribute_named_exec(&attrs, "lang") {
        Some(Some(v)) => Some(v),
        _ => None,
    };
    let typescript = match &lang {
        Some(v) => str_eq(v.as_str(), "ts") || str_eq(v.as_str(), "mts") || str_eq(v.as_str(), "cts"),
        None => false,
    };
    let node = &t.nodes[body];
    let region = Region {
        start_byte: node.start_byte,
        end_byte: node.end_byte,
        start_row: node.start_row,
        start_column: node.start_column,
        end_row: node.end_row,
        end_column: node.end_column,
    };
    Some(Block { region, typescript })
}

/// The script blocks of a component's parse, and how many script elements it held.
pub fn blocks(names: &Vec<String>, t: &SyntaxTree, src: &[u8]) -> (r: (Vec<Block>, usize))
    ensures
        r.0@ == blocks_of(names@, t, src@, scripts_of(names@, t, src@, 0)),
        r.1 == scripts_of(names@, t, src@, 0).len(),
{
    let mut scripts: Vec<usize> = Vec::new();
    collect_scripts(names, t, src, 0, &mut scripts);
    assert(scripts@ =~= scripts_of(names@, t, src@, 0));
    let mut out: Vec<Block> = Vec::new();
    let mut k: usize = 0;
    while k < scripts.len()
        invariant
            0 <= k <= scripts@.len(),
            out@ == blocks_of(names@, t, src@, scripts@.subrange(0, k as int)),
        decreases scripts@.len() - k,
    {
        proof {
            assert(scripts@.subrange(0, k + 1).drop_last() =~= scripts@.subrange(0, k as int));
        }
        match block_exec(names, t, src, scripts[k]) {
            Some(b) => out.push(b),
            None => {},
        }
        k = k + 1;
    }
    assert(scripts@.subrange(0, scripts@.len() as int) =~= scripts@);
    (out, scripts.len())
}

/// What a component's script blocks give a scan: the grammar to read them with, their regions
/// in document order, and a warning when a component plainly has a script that no block could
/// be read from.
pub struct Extraction {
    pub grammar: GrammarId,
    pub regions: Vec<Region>,
    pub warning: Option<String>,
}

/// The extraction that blocks `bs`, found among `found` script elements, make of `source`.
pub open spec fn extraction_of(bs: Seq<Block>, found: nat, source: Seq<char>, e: Extraction) -> bool {
    &&& e.grammar == if exists|i: int| 0 <= i < bs.len() && (#[trigger] bs[i]).typescript { GrammarId::TypeScript } else { GrammarId::Tsx }
    &&& e.regions@ == bs.map_values(|b: Block| b.region)
    &&& (e.warning is Some <==> (found == 0 && contains(source, "<script"@)))
}

/// Turns a component's blocks into what a scan parses.
pub fn assemble_extraction(bs: Vec<Block>, found: usize, source: &str) -> (r: Extraction)
    ensures
        extraction_of(bs@, found as nat, source@, r),
{
    let mut typescript = false;
    let mut regions: Vec<Region> = Vec::new();
    let mut k: usize = 0;
    while k < bs.len()
        invariant
            0 <= k <= bs@.len(),
            typescript == exists|i: int| 0 <= i < k && (#[trigger] bs@[i]).typescript,
            regions@ == bs@.subrange(0, k as int).map_values(|b: Block| b.region),
        decreases bs@.len() - k,
    {
        if bs[k].typescript {
            typescript = true;
        }
        regions.push(bs[k].region);
        proof {
            assert(bs@.subrange(0, k + 1).map_values(|b: Block| b.region) =~= bs@.subrange(0, k as int).map_values(|b: Block| b.region).push(bs@[k as int].region));
        }
        k = k + 1;
    }
    assert(bs@.subrange(0, bs@.len() as int) =~= bs@);
    let warned = found == 0 && contains_lit(&chars_of(source), "<script");
    let warning = if warned { Some("contains <script but no script block could be read".to_owned()) } else { None };
    Extraction { grammar: if typescript { GrammarId::TypeScript } else { GrammarId::Tsx }, regions, warning }
}

/// The HTML grammar's kind names, as `kind_names` reads them.
pub open spec fn html_names(names: Seq<String>) -> bool {
    &&& names.len() == if kind_count_of(GrammarId::Html) <= 65536 { kind_count_of(GrammarId::Html) as int } else { 65536 }
    &&& forall|i: int| 0 <= i < names.len() ==> (#[trigger] names[i])@ == shown_kind_name(GrammarId::Html, i as u16)
}

/// What reading `source` with the HTML grammar finds: the script blocks of the tree its parse
/// reads into, or none when tree-sitter gives no tree.
pub open spec fn html_extraction(source: Seq<char>, e: Extraction) -> bool {
    if parses(GrammarId::Html, source, None) {
        exists|names: Seq<String>, t: SyntaxTree|
            #![trigger html_names(names), tree_reads(t, (GrammarId::Html, source, None))]
            html_names(names) && tree_reads(t, (GrammarId::Html, source, None))
                && extraction_of(
                    blocks_of(names, &t, encode_utf8(source), scripts_of(names, &t, encode_utf8(source), 0)),
                    scripts_of(names, &t, encode_utf8(source), 0).len(),
                    source,
                    e,
                )
    } else {
        extraction_of(Seq::empty(), 0, source, e)
    }
}

/// Reads a component with the HTML grammar and finds its script blocks. A block skipped for
/// `src=` is no failure, so the warning counts what the grammar saw, not what survived.
pub fn extract(source: &str) -> (r: Extraction)
    ensures
        exists|bs: Seq<Block>, found: nat| #[trigger] extraction_of(bs, found, source@, r),
        html_extraction(source@, r),
{
    let html = LinkedGrammar::open(GrammarId::Html);
    let names = kind_names(&html);
    match parse_source(&html, source, None) {
        Some(parsed) => {
            let bytes = source.as_bytes();
            let (bs, found) = blocks(&names, &parsed.tree, bytes);
            let r = assemble_extraction(bs, found, source);
            assert(html_names(names@));
            assert(bytes@ == encode_utf8(source@));
            r
        },
        None => {
            let none: Vec<Block> = Vec::new();
            assert(none@ =~= Seq::<Block>::empty());
            let r = assemble_extraction(none, 0, source);
            assert(html_names(names@));
            r
        },
    }
}

} // verus!
