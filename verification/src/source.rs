//! A source file in, its findings out: one parse for the whole file, or one per region when
//! its code is spread across a host syntax.
use vstd::prelude::*;
use crate::collect::{analyze, collected_file, disambiguated};
use crate::finding::{concat, Finding, TOPLEVEL_UNIT};
use crate::grammars::{grammar_of, load, spec_grammar_of, GrammarId};
use crate::language::CompiledLanguage;
use crate::parse::{compiled_as, parse_source, parses, resolved, tree_reads, Grammar, Region};
use crate::compile::{Resolution, SpecErrors};
use crate::spec::LanguageSpec;
use crate::registry::{spec_fields_of, spec_hooks_of, spec_kinds_of, spec_language_id, spec_optional_kinds_of, Descriptor};
use crate::spec::{field_table, kind_table};
use crate::syntax::SyntaxTree;
use crate::text::str_eq;
use crate::vue::{extract, html_extraction, Extraction};
use crate::walk::sat;
use vstd::utf8::encode_utf8;

verus! {

pub open spec fn is_top(f: Finding) -> bool {
    f.name@ == TOPLEVEL_UNIT@
}

/// The first file-level finding from position `k` on.
pub open spec fn first_top(fs: Seq<Finding>, k: int) -> Option<int>
    decreases fs.len() - k,
{
    if k < 0 || k >= fs.len() {
        None
    } else if is_top(fs[k]) {
        Some(k)
    } else {
        first_top(fs, k + 1)
    }
}

/// The summed score of the file-level findings among the first `k`.
pub open spec fn top_total(fs: Seq<Finding>, k: int) -> int
    decreases k,
{
    if k <= 0 || k > fs.len() {
        0
    } else {
        top_total(fs, k - 1) + if is_top(fs[k - 1]) { fs[k - 1].score as int } else { 0 }
    }
}

/// The positions, among the first `k`, of every finding that is not file-level, and of the
/// first file-level one `f`.
pub open spec fn kept(fs: Seq<Finding>, f: int, k: int) -> Seq<int>
    decreases k,
{
    if k <= 0 || k > fs.len() {
        Seq::empty()
    } else if !is_top(fs[k - 1]) || k - 1 == f {
        kept(fs, f, k - 1).push(k - 1)
    } else {
        kept(fs, f, k - 1)
    }
}

/// A file has one top level however many regions its code is spread across: the file-level
/// findings fold into the first, which carries their summed score.
pub open spec fn merged(before: Seq<Finding>, after: Seq<Finding>) -> bool {
    match first_top(before, 0) {
        None => after == before,
        Some(f) => {
            let idx = kept(before, f, before.len() as int);
            &&& after.len() == idx.len()
            &&& forall|k: int| 0 <= k < idx.len() ==> {
                let i = idx[k];
                &&& (#[trigger] after[k]).name == before[i].name
                &&& after[k].container == before[i].container
                &&& after[k].origin == before[i].origin
                &&& after[k].line == before[i].line
                &&& after[k].suppression == before[i].suppression
                &&& after[k].language == before[i].language
                &&& after[k].score == if i == f { sat(top_total(before, before.len() as int)) as u32 } else { before[i].score }
            }
        },
    }
}

proof fn lemma_kept_bounds(fs: Seq<Finding>, f: int, k: int)
    ensures
        forall|j: int| 0 <= j < kept(fs, f, k).len() ==> 0 <= #[trigger] kept(fs, f, k)[j] < k && kept(fs, f, k)[j] < fs.len(),
        forall|a: int, b: int| 0 <= a < b < kept(fs, f, k).len() ==> kept(fs, f, k)[a] < kept(fs, f, k)[b],
    decreases k,
{
    if k > 0 && k <= fs.len() {
        lemma_kept_bounds(fs, f, k - 1);
        let s = kept(fs, f, k - 1);
        if !is_top(fs[k - 1]) || k - 1 == f {
            assert(kept(fs, f, k) == s.push(k - 1));
            let t = s.push(k - 1);
            assert forall|a: int, b: int| 0 <= a < b < t.len() implies #[trigger] t[a] < #[trigger] t[b] by {
                if b == s.len() {
                    assert(s[a] < k - 1);
                }
            }
        } else {
            assert(kept(fs, f, k) == s);
        }
    }
}

/// Folds the file-level findings of several regions into one.
pub fn merge_toplevel(findings: &mut Vec<Finding>)
    ensures
        merged(old(findings)@, final(findings)@),
{
    let ghost orig = findings@;
    let n = findings.len();
    let mut first: Option<usize> = None;
    let mut total: u32 = 0;
    let mut i: usize = 0;
    while i < n
        invariant
            findings@ == orig,
            n == orig.len(),
            0 <= i <= n,
            first matches Some(f) ==> f < i && first_top(orig, 0) == Some(f as int),
            first is None ==> forall|j: int| 0 <= j < i ==> !is_top(#[trigger] orig[j]),
            total == sat(top_total(orig, i as int)),
        decreases n - i,
    {
        proof {
            lemma_first_top(orig, 0);
        }
        if str_eq(findings[i].name.as_str(), TOPLEVEL_UNIT) {
            if first.is_none() {
                first = Some(i);
                proof {
                    lemma_first_top_at(orig, i as int);
                }
            }
            total = crate::walk::sat_add(total, findings[i].score);
        }
        i = i + 1;
    }
    let f = match first {
        Some(f) => f,
        None => {
            proof {
                lemma_no_top(orig);
            }
            return;
        },
    };
    let mut rev: Vec<Finding> = Vec::new();
    while findings.len() > 0
        invariant
            n == orig.len(),
            rev@.len() + findings@.len() == n,
            forall|k: int| 0 <= k < findings@.len() ==> findings@[k] == orig[k],
            forall|k: int| 0 <= k < rev@.len() ==> rev@[k] == orig[n - 1 - k],
        decreases findings@.len(),
    {
        let x = findings.pop().unwrap();
        rev.push(x);
    }
    proof {
        lemma_kept_bounds(orig, f as int, 0);
    }
    let mut i: usize = 0;
    while rev.len() > 0
        invariant
            n == orig.len(),
            f < n,
            first_top(orig, 0) == Some(f as int),
            total == sat(top_total(orig, n as int)),
            rev@.len() + i == n,
            forall|k: int| 0 <= k < rev@.len() ==> rev@[k] == orig[n - 1 - k],
            findings@.len() == kept(orig, f as int, i as int).len(),
            forall|k: int| 0 <= k < findings@.len() ==> {
                let j = kept(orig, f as int, i as int)[k];
                &&& (#[trigger] findings@[k]).name == orig[j].name
                &&& findings@[k].container == orig[j].container
                &&& findings@[k].origin == orig[j].origin
                &&& findings@[k].line == orig[j].line
                &&& findings@[k].suppression == orig[j].suppression
                &&& findings@[k].language == orig[j].language
                &&& findings@[k].score == if j == f { sat(top_total(orig, n as int)) as u32 } else { orig[j].score }
            },
        decreases rev@.len(),
    {
        let mut x = rev.pop().unwrap();
        assert(x == orig[i as int]);
        let ghost before = findings@;
        let top = str_eq(x.name.as_str(), TOPLEVEL_UNIT);
        if !top || i == f {
            if i == f {
                x.score = total;
            }
            findings.push(x);
            proof {
                assert(kept(orig, f as int, i + 1) == kept(orig, f as int, i as int).push(i as int));
                assert forall|k: int| 0 <= k < findings@.len() implies {
                    let j = kept(orig, f as int, i + 1)[k];
                    &&& (#[trigger] findings@[k]).name == orig[j].name
                    &&& findings@[k].container == orig[j].container
                    &&& findings@[k].origin == orig[j].origin
                    &&& findings@[k].line == orig[j].line
                    &&& findings@[k].suppression == orig[j].suppression
                    &&& findings@[k].language == orig[j].language
                    &&& findings@[k].score == if j == f { sat(top_total(orig, n as int)) as u32 } else { orig[j].score }
                } by {
                    if k < before.len() {
                        assert(findings@[k] == before[k]);
                    }
                }
            }
        } else {
            assert(kept(orig, f as int, i + 1) == kept(orig, f as int, i as int));
        }
        i = i + 1;
    }
}

proof fn lemma_first_top(fs: Seq<Finding>, k: int)
    requires
        0 <= k,
    ensures
        first_top(fs, k) matches Some(f) ==> k <= f < fs.len() && is_top(fs[f]) && forall|j: int| k <= j < f ==> !is_top(#[trigger] fs[j]),
        first_top(fs, k) is None ==> forall|j: int| k <= j < fs.len() ==> !is_top(#[trigger] fs[j]),
    decreases fs.len() - k,
{
    if k < fs.len() && !is_top(fs[k]) {
        lemma_first_top(fs, k + 1);
    }
}

proof fn lemma_first_top_at(fs: Seq<Finding>, i: int)
    requires
        0 <= i < fs.len(),
        is_top(fs[i]),
        forall|j: int| 0 <= j < i ==> !is_top(#[trigger] fs[j]),
    ensures
        first_top(fs, 0) == Some(i),
{
    lemma_first_top(fs, 0);
    match first_top(fs, 0) {
        Some(f) => {
            if f < i {
                assert(!is_top(fs[f]));
            } else if f > i {
                assert(!is_top(fs[i]));
            }
        },
        None => {
            assert(!is_top(fs[i]));
        },
    }
}

proof fn lemma_no_top(fs: Seq<Finding>)
    requires
        forall|j: int| 0 <= j < fs.len() ==> !is_top(#[trigger] fs[j]),
    ensures
        first_top(fs, 0) is None,
{
    lemma_first_top(fs, 0);
    if let Some(f) = first_top(fs, 0) {
        assert(is_top(fs[f]));
    }
}

} // verus!

verus! {

/// What analysing `source` with `lang`, parsed with grammar `g` and confined to `region`, gives:
/// the findings, names told apart, of the tree that parse reads into; nothing when tree-sitter
/// gives no tree.
pub open spec fn region_analysis(lang: &CompiledLanguage, g: GrammarId, source: Seq<char>, region: Option<Region>, toplevel: bool, fs: Seq<Finding>) -> bool {
    if parses(g, source, region) {
        exists|t: SyntaxTree, pre: Seq<Finding>| {
            &&& tree_reads(t, (g, source, region))
            &&& #[trigger] collected_file(lang, &t, encode_utf8(source), toplevel, pre)
            &&& disambiguated(pre, fs)
        }
    } else {
        fs.len() == 0
    }
}

/// The findings of one region of `source`, or of all of it when `region` is `None`. Partial
/// parses still score: the grammar recovers from syntax errors, and a file mid-edit should not
/// blank the report. Nothing comes back when the parser gives no tree.
pub fn analyze_region(g: &Grammar, source: &str, region: Option<Region>, toplevel: bool) -> (r: Vec<Finding>)
    ensures
        region_analysis(&g.language, g.grammar@, source@, region, toplevel, r@),
{
    match parse_source(&g.grammar, source, region) {
        Some(parsed) => {
            let found = analyze(&g.language, &parsed.tree, source.as_bytes(), toplevel);
            assert(collected_file(&g.language, &parsed.tree, encode_utf8(source@), toplevel, choose|pre: Seq<Finding>|
                collected_file(&g.language, &parsed.tree, encode_utf8(source@), toplevel, pre) && disambiguated(pre, found@)));
            found
        },
        None => Vec::new(),
    }
}

/// Each list in `parts` is what the region at its position gave.
pub open spec fn analyzed_regions(lang: &CompiledLanguage, g: GrammarId, source: Seq<char>, regions: Seq<Region>, toplevel: bool, parts: Seq<Seq<Finding>>) -> bool {
    &&& parts.len() == regions.len()
    &&& forall|i: int| 0 <= i < parts.len() ==> #[trigger] region_analysis(lang, g, source, Some(regions[i]), toplevel, parts[i])
}

pub open spec fn flatten(parts: Seq<Seq<Finding>>) -> Seq<Finding>
    decreases parts.len(),
{
    if parts.len() == 0 { Seq::empty() } else { flatten(parts.drop_last()) + parts.last() }
}

/// The findings of `source`: one parse of the whole document when `regions` is empty, else one
/// per region, since the grammar joins included ranges and a line comment that ends one region
/// would run on into the next and swallow it; the regions' file-level findings then fold into
/// one.
pub fn analyze_document(g: &Grammar, source: &str, regions: &Vec<Region>, toplevel: bool) -> (r: Vec<Finding>)
    ensures
        regions@.len() == 0 ==> region_analysis(&g.language, g.grammar@, source@, None, toplevel, r@),
        regions@.len() > 0 ==> exists|parts: Seq<Seq<Finding>>| {
            &&& analyzed_regions(&g.language, g.grammar@, source@, regions@, toplevel, parts)
            &&& #[trigger] merged(flatten(parts), r@)
        },
{
    if regions.len() == 0 {
        return analyze_region(g, source, None, toplevel);
    }
    let mut findings: Vec<Finding> = Vec::new();
    let ghost mut parts: Seq<Seq<Finding>> = Seq::empty();
    let mut k: usize = 0;
    while k < regions.len()
        invariant
            0 <= k <= regions@.len(),
            parts.len() == k,
            analyzed_regions(&g.language, g.grammar@, source@, regions@.subrange(0, k as int), toplevel, parts),
            findings@ == flatten(parts),
        decreases regions@.len() - k,
    {
        let mut part = analyze_region(g, source, Some(regions[k]), toplevel);
        proof {
            let next = parts.push(part@);
            let rs = regions@.subrange(0, k + 1);
            assert(next.drop_last() =~= parts);
            assert forall|i: int| 0 <= i < next.len() implies #[trigger] region_analysis(&g.language, g.grammar@, source@, Some(rs[i]), toplevel, next[i]) by {
                if i < parts.len() {
                    assert(next[i] == parts[i]);
                    assert(rs[i] == regions@.subrange(0, k as int)[i]);
                }
            }
            parts = next;
        }
        findings.append(&mut part);
        k = k + 1;
    }
    let ghost before = findings@;
    assert(regions@.subrange(0, regions@.len() as int) =~= regions@);
    merge_toplevel(&mut findings);
    assert(merged(flatten(parts), findings@));
    findings
}

} // verus!

verus! {

/// Where a file's code lies once a descriptor's host syntax, if it has one, was read: the
/// grammar and the regions, none meaning the whole document; `None` when a host was read but
/// holds nothing scorable. A warning of the host's reading is reported against `path`.
pub fn region_of(d: Descriptor, extraction: Option<Extraction>, path: &str, warnings: &mut Vec<String>) -> (r: Option<(GrammarId, Vec<Region>)>)
    ensures
        match extraction {
            None => {
                &&& final(warnings)@ == old(warnings)@
                &&& r matches Some((id, rs)) && id == spec_grammar_of(d) && rs@.len() == 0
            },
            Some(e) => {
                &&& match e.warning {
                    Some(w) => final(warnings)@.len() == old(warnings)@.len() + 1
                        && final(warnings)@.drop_last() == old(warnings)@
                        && final(warnings)@.last()@ == path@ + ": "@ + w@,
                    None => final(warnings)@ == old(warnings)@,
                }
                &&& if e.regions@.len() == 0 { r is None } else { r matches Some((id, rs)) && id == e.grammar && rs@ == e.regions@ }
            },
        },
{
    match extraction {
        None => Some((grammar_of(d), Vec::new())),
        Some(e) => {
            match &e.warning {
                Some(w) => {
                    let line = concat(concat(path, ": ").as_str(), w.as_str());
                    warnings.push(line);
                },
                None => {},
            }
            if e.regions.len() == 0 {
                None
            } else {
                Some((e.grammar, e.regions))
            }
        },
    }
}

/// `spec` is the spec of `d`'s language: its id, kind lists, field names, hooks and optional
/// kinds.
pub open spec fn spec_made_for(spec: LanguageSpec, d: Descriptor) -> bool {
    &&& spec.id@ == spec_language_id(d)
    &&& kind_table(spec.kinds) == spec_kinds_of(d)
    &&& field_table(spec.fields) == spec_fields_of(d)
    &&& spec.hooks == spec_hooks_of(d)
    &&& spec.optional_kinds@ == spec_optional_kinds_of(d)
}

/// What compiling `d`'s spec against grammar `g` and analysing `source` with it gives, `regions`
/// naming where the code lies, none meaning the whole text: nothing when the grammar refuses the
/// spec; else one region's analysis, or each region's, merged.
pub open spec fn compiled_analysis(d: Descriptor, g: GrammarId, source: Seq<char>, regions: Seq<Region>, toplevel: bool, fs: Seq<Finding>) -> bool {
    exists|spec: LanguageSpec, res: Resolution, r: Result<Grammar, SpecErrors>| {
        &&& spec_made_for(spec, d)
        &&& resolved(&spec, g, &res)
        &&& #[trigger] compiled_as(spec, g, res, r)
        &&& match r {
            Ok(c) => if regions.len() == 0 {
                region_analysis(&c.language, g, source, None, toplevel, fs)
            } else {
                exists|parts: Seq<Seq<Finding>>| #[trigger] analyzed_regions(&c.language, g, source, regions, toplevel, parts)
                    && merged(flatten(parts), fs)
            },
            Err(_) => fs.len() == 0,
        }
    }
}

/// What the analysis of a file of descriptor `d` gives. Every file but a Vue component is parsed
/// whole, with the grammar its descriptor names; a component is read with the HTML grammar for
/// its script blocks, then they are parsed with the grammar they ask for; nothing when it holds
/// none.
#[verifier::opaque]
pub open spec fn source_analysis(d: Descriptor, source: Seq<char>, toplevel: bool, fs: Seq<Finding>) -> bool {
    if d != Descriptor::Vue {
        compiled_analysis(d, spec_grammar_of(d), source, Seq::empty(), toplevel, fs)
    } else {
        exists|e: Extraction| #[trigger] html_extraction(source, e) && if e.regions@.len() == 0 {
            fs.len() == 0
        } else {
            compiled_analysis(d, e.grammar, source, e.regions@, toplevel, fs)
        }
    }
}

/// The findings of a file of descriptor `d`. A Vue component is read for its script blocks
/// first; every other file is parsed whole, with the grammar its descriptor names.
pub fn analyze_source(d: Descriptor, source: &str, toplevel: bool, path: &str, warnings: &mut Vec<String>) -> (r: Vec<Finding>)
    ensures
        d != Descriptor::Vue ==> final(warnings)@ == old(warnings)@,
        d == Descriptor::Vue ==> final(warnings)@ == old(warnings)@ || (final(warnings)@.drop_last() == old(warnings)@
            && final(warnings)@.len() == old(warnings)@.len() + 1
            && final(warnings)@.last()@.subrange(0, path@.len() as int + 2) == path@ + ": "@),
        source_analysis(d, source@, toplevel, r@),
{
    let extraction = if d == Descriptor::Vue { Some(extract(source)) } else { None };
    let ghost ex = extraction;
    let ghost before = warnings@;
    let found = region_of(d, extraction, path, warnings);
    proof {
        reveal_strlit(": ");
        if let Some(e) = ex {
            if let Some(w) = e.warning {
                assert(warnings@.last()@.subrange(0, path@.len() as int + 2) =~= path@ + ": "@);
            }
        }
    }
    let (id, regions) = match found {
        Some(found) => found,
        None => {
            proof {
                reveal(source_analysis);
            }
            return Vec::new();
        },
    };
    let spec = d.spec();
    let ghost spec0 = spec;
    let loaded = load(spec, id);
    let ghost out = loaded;
    let ghost res = choose|res: Resolution| resolved(&spec0, id, &res) && compiled_as(spec0, id, res, out);
    let r = match loaded {
        Ok(g) => analyze_document(&g, source, &regions, toplevel),
        Err(_) => Vec::new(),
    };
    proof {
        reveal(source_analysis);
        assert(spec_made_for(spec0, d));
        assert(compiled_analysis(d, id, source@, regions@, toplevel, r@));
    }
    r
}

} // verus!

verus! {

/// A file has one top level however many regions its code is spread across: once the regions'
/// findings are merged, at most one of them is the file-level unit.
pub proof fn law_one_toplevel_per_file(before: Seq<Finding>, after: Seq<Finding>)
    requires
        merged(before, after),
    ensures
        forall|a: int, b: int| 0 <= a < b < after.len() ==> !(is_top(#[trigger] after[a]) && is_top(#[trigger] after[b])),
{
    match first_top(before, 0) {
        None => {
            lemma_first_top(before, 0);
            assert forall|a: int, b: int| 0 <= a < b < after.len() implies !(is_top(#[trigger] after[a]) && is_top(#[trigger] after[b])) by {
                assert(!is_top(before[a]));
            }
        },
        Some(f) => {
            let idx = kept(before, f, before.len() as int);
            lemma_kept_bounds(before, f, before.len() as int);
            lemma_kept_members(before, f, before.len() as int);
            assert forall|a: int, b: int| 0 <= a < b < after.len() implies !(is_top(#[trigger] after[a]) && is_top(#[trigger] after[b])) by {
                assert(after[a].name == before[idx[a]].name);
                assert(after[b].name == before[idx[b]].name);
                assert(idx[a] < idx[b]);
                if is_top(after[a]) && is_top(after[b]) {
                    assert(is_top(before[idx[a]]));
                    assert(is_top(before[idx[b]]));
                    assert(idx[a] == f && idx[b] == f);
                }
            }
        },
    }
}

/// Every position `kept` keeps is the first file-level finding or not file-level at all.
proof fn lemma_kept_members(fs: Seq<Finding>, f: int, k: int)
    ensures
        forall|j: int| 0 <= j < kept(fs, f, k).len() ==> (#[trigger] kept(fs, f, k)[j] == f || !is_top(fs[kept(fs, f, k)[j]])),
    decreases k,
{
    if k > 0 && k <= fs.len() {
        lemma_kept_members(fs, f, k - 1);
        let s = kept(fs, f, k - 1);
        if !is_top(fs[k - 1]) || k - 1 == f {
            assert(kept(fs, f, k) == s.push(k - 1));
            assert forall|j: int| 0 <= j < kept(fs, f, k).len() implies (#[trigger] kept(fs, f, k)[j] == f || !is_top(fs[kept(fs, f, k)[j]])) by {
                if j < s.len() {
                    assert(kept(fs, f, k)[j] == s[j]);
                }
            }
        }
    }
}

} // verus!
