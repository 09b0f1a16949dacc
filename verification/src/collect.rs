//! Finding the units of a file, scoring each, and naming what they are reported under.
use vstd::prelude::*;
use crate::dialect::{
    container_name, scope_view, spec_anchors, spec_container_name, spec_scope, spec_unit_body,
    spec_unit_name, suppression_anchors, unit_body, unit_name, unit_scope,
};
use crate::finding::{opt_view, Finding, NameOrigin, Suppression, UnitScope, TOPLEVEL_UNIT};
use crate::language::{CompiledLanguage, Flags, Role};
use crate::scope::spec_nested;
use crate::suppression::{anchors_marker, suppression_is, toplevel_from, toplevel_suppression, unit_marker, FoundMarker};
use crate::syntax::SyntaxTree;
use crate::names::{decimal, decimal_string};
use crate::text::str_eq;
use crate::walk::{sat, score_children, score_node, spec_walk, spec_walk_children, walk_ok, WalkCx};

verus! {

/// Whether child `c` opens the declaration proper: neither a comment nor leading trivia such
/// as an attribute or decorator.
pub open spec fn opens_declaration(lang: &CompiledLanguage, t: &SyntaxTree, c: int) -> bool {
    lang.spec_role(t, c) != Role::Trivia && !lang.spec_has(t, c, Flags::leading_trivia())
}

/// The first child of `n`, from position `k` on, that opens the declaration.
pub open spec fn first_declaring_child(lang: &CompiledLanguage, t: &SyntaxTree, n: int, k: int) -> Option<usize>
    decreases t.kids(n).len() - k,
{
    if k < 0 || k >= t.kids(n).len() {
        None
    } else if opens_declaration(lang, t, t.kids(n)[k] as int) {
        Some(t.kids(n)[k])
    } else {
        first_declaring_child(lang, t, n, k + 1)
    }
}

/// The row a declaration starts on: that of its first child past attributes and comments, or
/// the node's own.
pub open spec fn spec_declaration_row(lang: &CompiledLanguage, t: &SyntaxTree, n: int) -> usize {
    if 0 <= n < t.len() {
        match first_declaring_child(lang, t, n, 0) {
            Some(c) => t.spec_start_row(c as int),
            None => t.spec_start_row(n),
        }
    } else {
        t.spec_start_row(n)
    }
}

/// A declaration node starts at its attributes or decorators, not at its signature line.
pub fn declaration_row(lang: &CompiledLanguage, t: &SyntaxTree, n: usize) -> (r: usize)
    ensures
        r == spec_declaration_row(lang, t, n as int),
{
    if n >= t.nodes.len() {
        return t.start_row(n);
    }
    let kids = &t.nodes[n].children;
    let mut k: usize = 0;
    while k < kids.len()
        invariant
            n < t.len(),
            kids@ == t.kids(n as int),
            0 <= k <= kids@.len(),
            first_declaring_child(lang, t, n as int, 0) == first_declaring_child(lang, t, n as int, k as int),
        decreases kids@.len() - k,
    {
        let c = kids[k];
        if lang.role(t, c) != Role::Trivia && !lang.has_flag(t, c, Flags(8)) {
            return t.start_row(c);
        }
        k = k + 1;
    }
    t.start_row(n)
}

} // verus!

verus! {

/// A unit and the path of the containers around it.
pub type UnitSite = (int, Option<Seq<char>>);

/// Every unit under `n`, in document order, with its container path. Descent stops at a unit,
/// which is what makes a function-like a unit only when no other encloses it; a bodyless
/// declaration is no unit.
pub open spec fn units_of(lang: &CompiledLanguage, t: &SyntaxTree, src: Seq<u8>, n: int, container: Option<Seq<char>>) -> Seq<UnitSite>
    decreases t.len() - n, 1int, 0int,
{
    units_from(lang, t, src, n, container, 0)
}

pub open spec fn units_from(lang: &CompiledLanguage, t: &SyntaxTree, src: Seq<u8>, n: int, container: Option<Seq<char>>, k: int) -> Seq<UnitSite>
    decreases t.len() - n, 0int, t.kids(n).len() - k,
{
    if !(0 <= n < t.len()) || k < 0 || k >= t.kids(n).len() {
        Seq::empty()
    } else {
        let c = t.kids(n)[k] as int;
        let here = if !(t.spec_named(c) && n < c < t.len()) {
            Seq::empty()
        } else if lang.spec_has(t, c, Flags::unit()) {
            if spec_unit_body(lang, t, c) is Some { seq![(c, container)] } else { Seq::empty() }
        } else if lang.spec_has(t, c, Flags::container()) {
            units_of(lang, t, src, c, spec_nested(container, spec_container_name(lang, t, src, c)))
        } else {
            units_of(lang, t, src, c, container)
        };
        here + units_from(lang, t, src, n, container, k + 1)
    }
}

/// The marker that speaks for unit `n`.
pub open spec fn unit_marker_of(lang: &CompiledLanguage, t: &SyntaxTree, src: Seq<u8>, n: int) -> Option<FoundMarker> {
    anchors_marker(lang, t, src, spec_anchors(lang, t, src, n), 0)
}

/// The comments the units' markers were read from, in order: each silences only its unit.
pub open spec fn claimed_by(lang: &CompiledLanguage, t: &SyntaxTree, src: Seq<u8>, units: Seq<UnitSite>) -> Seq<usize>
    decreases units.len(),
{
    if units.len() == 0 {
        Seq::empty()
    } else {
        let front = claimed_by(lang, t, src, units.drop_last());
        match unit_marker_of(lang, t, src, units.last().0) {
            Some((c, _)) => front.push(c),
            None => front,
        }
    }
}

/// `score` is what the walker gives `root` for a unit named `name` at node `n` that reaches
/// itself as `scope` says.
pub open spec fn scored_as(lang: &CompiledLanguage, t: &SyntaxTree, src: Seq<u8>, name: Seq<char>, n: int, scope: (Option<Seq<char>>, Seq<Seq<char>>, bool), skip: bool, root: int, children_only: bool, score: u32) -> bool {
    exists|cx: WalkCx|
        #![trigger spec_walk(&cx, root, 0)]
        #![trigger spec_walk_children(&cx, root, 0, 0)]
        cx.lang == lang && cx.tree == t && cx.src@ == src && cx.unit@ == name && cx.unit_node == n
        && scope_view(*cx.scope).1 == scope.1 && cx.scope.bare_call_recurses == scope.2 && cx.skip_units == skip
        && score == sat(if children_only { spec_walk_children(&cx, root, 0, 0) } else { spec_walk(&cx, root, 0) } as int)
}

/// The line a finding reports: the declaration's row, counted from one.
pub open spec fn line_of(row: usize) -> usize {
    if row < usize::MAX { (row + 1) as usize } else { row }
}

/// What a unit's finding says: its name and signature, where the name came from, the
/// container it is keyed under, the line of its declaration, its score, its marker.
pub open spec fn reports_unit(lang: &CompiledLanguage, t: &SyntaxTree, src: Seq<u8>, site: UnitSite, f: Finding) -> bool {
    let (n, container) = site;
    match spec_unit_body(lang, t, n) {
        None => false,
        Some(body) => {
            let (name, origin, signature) = spec_unit_name(lang, t, src, n);
            let scope = spec_scope(lang, t, src, n, container);
            &&& f.name@ == name + signature
            &&& f.origin == origin
            &&& opt_view(f.container) == (if scope.0 is Some { scope.0 } else { container })
            &&& f.line == line_of(spec_declaration_row(lang, t, n))
            &&& f.language == lang.spec.id
            &&& suppression_is(f.suppression, unit_marker_of(lang, t, src, n))
            &&& scored_as(lang, t, src, name, n, scope, false, body as int, false, f.score)
        },
    }
}

/// The findings report the units, one each, in order.
pub open spec fn reports_units(lang: &CompiledLanguage, t: &SyntaxTree, src: Seq<u8>, units: Seq<UnitSite>, fs: Seq<Finding>) -> bool {
    fs.len() == units.len() && forall|i: int| 0 <= i < fs.len() ==> #[trigger] reports_unit(lang, t, src, units[i], fs[i])
}

} // verus!

verus! {

pub open spec fn opt_str(s: Option<&str>) -> Option<Seq<char>> {
    match s {
        Some(x) => Some(x@),
        None => None,
    }
}

/// `a` followed by `b`, as a new string.
fn joined(a: &str, b: &str) -> (r: String)
    ensures
        r@ == a@ + b@,
{
    crate::finding::concat(a, b)
}

/// Scores one unit, or nothing for a bodyless declaration. The marker's comment comes back
/// beside the finding, so that the file's top level cannot claim it as well.
fn score_unit(lang: &CompiledLanguage, t: &SyntaxTree, src: &[u8], n: usize, container: Option<&str>) -> (r: Option<(Finding, Option<usize>)>)
    requires
        t.len() <= 4294967295,
    ensures
        r is None <==> spec_unit_body(lang, t, n as int) is None,
        r matches Some((f, c)) ==> reports_unit(lang, t, src@, (n as int, opt_str(container)), f)
            && c == (match unit_marker_of(lang, t, src@, n as int) {
                Some((m, _)) => Some(m),
                None => None::<usize>,
            }),
{
    let body = match unit_body(lang, t, n) {
        Some(b) => b,
        None => return None,
    };
    let name = unit_name(lang, t, src, n);
    let anchors = suppression_anchors(lang, t, src, n);
    let marker = unit_marker(lang, t, src, &anchors);
    let scope = unit_scope(lang, t, src, n, container);
    let cx = WalkCx { lang, tree: t, src, unit: name.text.as_str(), unit_node: n, scope: &scope, skip_units: false };
    let score = score_node(&cx, body);
    let ghost g = opt_str(container);
    proof {
        assert(cx.lang == lang && cx.tree == t && cx.src@ == src@ && cx.unit@ == name.text@ && cx.unit_node == n
            && scope_view(*cx.scope).1 == spec_scope(lang, t, src@, n as int, g).1
            && cx.scope.bare_call_recurses == spec_scope(lang, t, src@, n as int, g).2 && cx.skip_units == false
            && score == sat(spec_walk(&cx, body as int, 0) as int));
    }
    let row = declaration_row(lang, t, n);
    let line = if row < usize::MAX { row + 1 } else { row };
    let key = joined(name.text.as_str(), name.signature.as_str());
    let owner = match scope.container {
        Some(c) => Some(c),
        None => match container {
            Some(c) => Some(c.to_owned()),
            None => None,
        },
    };
    let (suppression, comment) = match marker {
        Some((c, s)) => (s, Some(c)),
        None => (Suppression::Unmarked, None),
    };
    let f = Finding {
        container: owner,
        name: key,
        origin: name.origin,
        line,
        score,
        suppression,
        language: lang.spec.id,
    };
    Some((f, comment))
}

} // verus!

verus! {

pub proof fn lemma_claimed_by_append(lang: &CompiledLanguage, t: &SyntaxTree, src: Seq<u8>, a: Seq<UnitSite>, b: Seq<UnitSite>)
    ensures
        claimed_by(lang, t, src, a + b) == claimed_by(lang, t, src, a) + claimed_by(lang, t, src, b),
    decreases b.len(),
{
    if b.len() == 0 {
        assert(a + b =~= a);
        assert(claimed_by(lang, t, src, b) =~= Seq::<usize>::empty());
        assert(claimed_by(lang, t, src, a) + Seq::<usize>::empty() =~= claimed_by(lang, t, src, a));
    } else {
        lemma_claimed_by_append(lang, t, src, a, b.drop_last());
        assert((a + b).drop_last() =~= a + b.drop_last());
        assert((a + b).last() == b.last());
        match unit_marker_of(lang, t, src, b.last().0) {
            Some((c, _)) => {
                assert(claimed_by(lang, t, src, a) + claimed_by(lang, t, src, b.drop_last()).push(c)
                    =~= (claimed_by(lang, t, src, a) + claimed_by(lang, t, src, b.drop_last())).push(c));
            },
            None => {},
        }
    }
}

/// `outer::name`, or whichever of the two there is.
fn nested(outer: Option<&str>, name: Option<String>) -> (r: Option<String>)
    ensures
        opt_view(r) == spec_nested(opt_str(outer), opt_view(name)),
{
    match (name, outer) {
        (Some(n), Some(o)) => {
            let head = joined(o, "::");
            Some(joined(head.as_str(), n.as_str()))
        },
        (Some(n), None) => Some(n),
        (None, Some(o)) => Some(o.to_owned()),
        (None, None) => None,
    }
}

fn collect(lang: &CompiledLanguage, t: &SyntaxTree, src: &[u8], n: usize, container: Option<&str>, findings: &mut Vec<Finding>, claimed: &mut Vec<usize>)
    requires
        t.len() <= 4294967295,
        n < t.len(),
    ensures
        final(findings)@.len() == old(findings)@.len() + units_of(lang, t, src@, n as int, opt_str(container)).len(),
        final(findings)@.subrange(0, old(findings)@.len() as int) == old(findings)@,
        reports_units(lang, t, src@, units_of(lang, t, src@, n as int, opt_str(container)),
            final(findings)@.subrange(old(findings)@.len() as int, final(findings)@.len() as int)),
        final(claimed)@ == old(claimed)@ + claimed_by(lang, t, src@, units_of(lang, t, src@, n as int, opt_str(container))),
    decreases t.len() - n, 1int, 0int,
{
    let ghost f0 = findings@;
    let ghost c0 = claimed@;
    let ghost g = opt_str(container);
    let kids = &t.nodes[n].children;
    let mut k: usize = 0;
    let ghost mut done: Seq<UnitSite> = Seq::empty();
    while k < kids.len()
        invariant
            t.len() <= 4294967295,
            n < t.len(),
            kids@ == t.kids(n as int),
            0 <= k <= kids@.len(),
            g == opt_str(container),
            done + units_from(lang, t, src@, n as int, g, k as int) == units_of(lang, t, src@, n as int, g),
            findings@.len() == f0.len() + done.len(),
            findings@.subrange(0, f0.len() as int) == f0,
            reports_units(lang, t, src@, done, findings@.subrange(f0.len() as int, findings@.len() as int)),
            claimed@ == c0 + claimed_by(lang, t, src@, done),
        decreases kids@.len() - k,
    {
        let c = kids[k];
        let ghost before_f = findings@;
        let ghost before_c = claimed@;
        let ghost here: Seq<UnitSite> = if !(t.spec_named(c as int) && n < c < t.len()) {
            Seq::empty()
        } else if lang.spec_has(t, c as int, Flags::unit()) {
            if spec_unit_body(lang, t, c as int) is Some { seq![(c as int, g)] } else { Seq::empty() }
        } else if lang.spec_has(t, c as int, Flags::container()) {
            units_of(lang, t, src@, c as int, spec_nested(g, spec_container_name(lang, t, src@, c as int)))
        } else {
            units_of(lang, t, src@, c as int, g)
        };
        assert(units_from(lang, t, src@, n as int, g, k as int) == here + units_from(lang, t, src@, n as int, g, k + 1));
        if t.is_named(c) && n < c && c < t.nodes.len() {
            if lang.has_flag(t, c, Flags(1)) {
                match score_unit(lang, t, src, c, container) {
                    Some((f, comment)) => {
                        findings.push(f);
                        match comment {
                            Some(m) => claimed.push(m),
                            None => {},
                        }
                        proof {
                            assert(here =~= seq![(c as int, g)]);
                            assert(claimed_by(lang, t, src@, seq![(c as int, g)]) =~= match unit_marker_of(lang, t, src@, c as int) {
                                Some((m, _)) => seq![m],
                                None => Seq::<usize>::empty(),
                            }) by {
                                let one = seq![(c as int, g)];
                                assert(one.drop_last() =~= Seq::<UnitSite>::empty());
                                assert(claimed_by(lang, t, src@, Seq::<UnitSite>::empty()) =~= Seq::<usize>::empty());
                                assert(one.last() == (c as int, g));
                                assert(claimed_by(lang, t, src@, one.drop_last()) =~= Seq::<usize>::empty());
                            }
                        }
                    },
                    None => {
                        assert(here =~= Seq::<UnitSite>::empty());
                    },
                }
            } else if lang.has_flag(t, c, Flags(2)) {
                let name = container_name(lang, t, src, c);
                let path = nested(container, name);
                let inner: Option<&str> = match &path {
                    Some(p) => Some(p.as_str()),
                    None => None,
                };
                assert(opt_str(inner) == spec_nested(g, spec_container_name(lang, t, src@, c as int)));
                collect(lang, t, src, c, inner, findings, claimed);
            } else {
                collect(lang, t, src, c, container, findings, claimed);
            }
        } else {
            assert(here =~= Seq::<UnitSite>::empty());
        }
        proof {
            let new_f = findings@.subrange(before_f.len() as int, findings@.len() as int);
            assert(findings@.len() == before_f.len() + here.len());
            assert(findings@.subrange(0, before_f.len() as int) =~= before_f);
            assert(reports_units(lang, t, src@, here, new_f));
            let olds = before_f.subrange(f0.len() as int, before_f.len() as int);
            let all = findings@.subrange(f0.len() as int, findings@.len() as int);
            assert(all =~= olds + new_f);
            assert forall|i: int| 0 <= i < all.len() implies #[trigger] reports_unit(lang, t, src@, (done + here)[i], all[i]) by {
                if i < done.len() {
                    assert(all[i] == olds[i]);
                    assert((done + here)[i] == done[i]);
                } else {
                    assert(all[i] == new_f[i - done.len()]);
                    assert((done + here)[i] == here[i - done.len()]);
                }
            }
            assert(findings@.subrange(0, f0.len() as int) =~= f0);
            lemma_claimed_by_append(lang, t, src@, done, here);
            assert(claimed@ =~= c0 + claimed_by(lang, t, src@, done + here));
            assert((done + here) + units_from(lang, t, src@, n as int, g, k + 1) =~= done + (here + units_from(lang, t, src@, n as int, g, k + 1)));
            done = done + here;
        }
        k = k + 1;
    }
    proof {
        assert(units_from(lang, t, src@, n as int, g, k as int) =~= Seq::<UnitSite>::empty());
        assert(done + Seq::<UnitSite>::empty() =~= done);
    }
}

} // verus!

verus! {

/// The scope of the file-level pass: it names no container and no call reaches it.
pub open spec fn toplevel_scope() -> (Option<Seq<char>>, Seq<Seq<char>>, bool) {
    (None, Seq::empty(), false)
}

/// What the file-level finding says: code outside every unit, scored as one, reported on the
/// line its region starts, under the marker at the top of the file that no unit claimed.
pub open spec fn reports_toplevel(lang: &CompiledLanguage, t: &SyntaxTree, src: Seq<u8>, claimed: Seq<usize>, f: Finding) -> bool {
    &&& f.container is None
    &&& f.name@ == TOPLEVEL_UNIT@
    &&& f.origin == NameOrigin::TopLevel
    &&& f.line == line_of(t.region_row)
    &&& f.language == lang.spec.id
    &&& suppression_is(f.suppression, toplevel_from(lang, t, src, claimed, 0))
    &&& f.score > 0
    &&& scored_as(lang, t, src, TOPLEVEL_UNIT@, 0, toplevel_scope(), true, 0, true, f.score)
}

/// A file whose code outside units scores nothing reports no file-level finding.
pub open spec fn toplevel_scores_zero(lang: &CompiledLanguage, t: &SyntaxTree, src: Seq<u8>) -> bool {
    scored_as(lang, t, src, TOPLEVEL_UNIT@, 0, toplevel_scope(), true, 0, true, 0)
}

/// The findings of a file before names are told apart: its units, then its top level.
pub open spec fn collected_file(lang: &CompiledLanguage, t: &SyntaxTree, src: Seq<u8>, toplevel: bool, fs: Seq<Finding>) -> bool {
    let units = units_of(lang, t, src, 0, None);
    if toplevel && fs.len() == units.len() + 1 {
        &&& reports_units(lang, t, src, units, fs.subrange(0, units.len() as int))
        &&& reports_toplevel(lang, t, src, claimed_by(lang, t, src, units), fs.last())
    } else {
        &&& reports_units(lang, t, src, units, fs)
        &&& toplevel ==> toplevel_scores_zero(lang, t, src)
    }
}

fn toplevel_finding(lang: &CompiledLanguage, t: &SyntaxTree, src: &[u8], claimed: &Vec<usize>) -> (r: Option<Finding>)
    requires
        t.len() <= 4294967295,
        t.len() >= 1,
    ensures
        r matches Some(f) ==> reports_toplevel(lang, t, src@, claimed@, f),
        r is None ==> toplevel_scores_zero(lang, t, src@),
{
    let scope = UnitScope { container: None, self_receivers: Vec::new(), bare_call_recurses: false };
    let cx = WalkCx { lang, tree: t, src, unit: TOPLEVEL_UNIT, unit_node: 0, scope: &scope, skip_units: true };
    let score = score_children(&cx, 0);
    proof {
        assert(scope_view(*cx.scope).1 =~= Seq::<Seq<char>>::empty());
        assert(cx.lang == lang && cx.tree == t && cx.src@ == src@ && cx.unit@ == TOPLEVEL_UNIT@ && cx.unit_node == 0
            && scope_view(*cx.scope).1 == toplevel_scope().1 && cx.scope.bare_call_recurses == toplevel_scope().2
            && cx.skip_units == true && score == sat(spec_walk_children(&cx, 0, 0, 0) as int));
    }
    if score == 0 {
        return None;
    }
    let line = if t.region_row < usize::MAX { t.region_row + 1 } else { t.region_row };
    Some(Finding {
        container: None,
        name: TOPLEVEL_UNIT.to_owned(),
        origin: NameOrigin::TopLevel,
        line,
        score,
        suppression: toplevel_suppression(lang, t, src, claimed),
        language: lang.spec.id,
    })
}

/// The findings of one parsed file: every unit, then, when asked, the code outside them.
pub fn collect_file(lang: &CompiledLanguage, t: &SyntaxTree, src: &[u8], toplevel: bool) -> (r: Vec<Finding>)
    requires
        t.wf(),
        t.len() <= 4294967295,
    ensures
        collected_file(lang, t, src@, toplevel, r@),
{
    let mut findings: Vec<Finding> = Vec::new();
    let mut claimed: Vec<usize> = Vec::new();
    collect(lang, t, src, 0, None, &mut findings, &mut claimed);
    let ghost units = units_of(lang, t, src@, 0, None);
    assert(findings@.subrange(0, findings@.len() as int) =~= findings@);
    assert(claimed@ =~= claimed_by(lang, t, src@, units));
    if toplevel {
        match toplevel_finding(lang, t, src, &claimed) {
            Some(f) => {
                let ghost before = findings@;
                findings.push(f);
                assert(findings@.subrange(0, units.len() as int) =~= before);
            },
            None => {},
        }
    }
    findings
}

} // verus!

verus! {

/// A positional or anonymous name, which the author did not choose and which can collide.
pub open spec fn unstable(f: Finding) -> bool {
    f.origin == NameOrigin::Positional || f.origin == NameOrigin::Anonymous
}

pub open spec fn key_of(f: Finding) -> (Option<Seq<char>>, Seq<char>) {
    (opt_view(f.container), f.name@)
}

/// How many of the first `k` findings are unstable and keyed `key`.
pub open spec fn count_key(fs: Seq<Finding>, key: (Option<Seq<char>>, Seq<char>), k: int) -> nat
    decreases k,
{
    if k <= 0 || k > fs.len() {
        0
    } else {
        count_key(fs, key, k - 1) + if unstable(fs[k - 1]) && key_of(fs[k - 1]) == key { 1nat } else { 0nat }
    }
}

/// Which occurrence of its key finding `i` is, counting unstable findings only.
pub open spec fn occurrence(fs: Seq<Finding>, i: int) -> nat {
    count_key(fs, key_of(fs[i]), i + 1)
}

/// The name finding `i` is reported under: the `k`th unstable finding sharing a key takes
/// `~k` from the second on.
pub open spec fn renamed(fs: Seq<Finding>, i: int) -> Seq<char> {
    if unstable(fs[i]) && occurrence(fs, i) > 1 {
        fs[i].name@ + "~"@ + decimal(occurrence(fs, i))
    } else {
        fs[i].name@
    }
}

pub open spec fn disambiguated(before: Seq<Finding>, after: Seq<Finding>) -> bool {
    &&& before.len() == after.len()
    &&& forall|i: int| 0 <= i < before.len() ==> {
        &&& (#[trigger] after[i]).name@ == renamed(before, i)
        &&& after[i].container == before[i].container
        &&& after[i].origin == before[i].origin
        &&& after[i].line == before[i].line
        &&& after[i].score == before[i].score
        &&& after[i].suppression == before[i].suppression
        &&& after[i].language == before[i].language
    }
}

fn same_container(a: &Option<String>, b: &Option<String>) -> (r: bool)
    ensures
        r == (opt_view(*a) == opt_view(*b)),
{
    match (a, b) {
        (Some(x), Some(y)) => str_eq(x.as_str(), y.as_str()),
        (None, None) => true,
        _ => false,
    }
}

fn is_unstable(f: &Finding) -> (r: bool)
    ensures
        r == unstable(*f),
{
    match f.origin {
        NameOrigin::Positional => true,
        NameOrigin::Anonymous => true,
        _ => false,
    }
}

fn renamed_exec(fs: &Vec<Finding>, i: usize) -> (r: String)
    requires
        i < fs@.len(),
    ensures
        r@ == renamed(fs@, i as int),
{
    let me = &fs[i];
    let len = fs.len();
    let mut count: usize = 0;
    let mut j: usize = 0;
    while j <= i
        invariant
            i < fs@.len(),
            len == fs@.len(),
            me == fs@[i as int],
            0 <= j <= i + 1,
            count == count_key(fs@, key_of(fs@[i as int]), j as int),
            count <= j,
        decreases i + 1 - j,
    {
        let other = &fs[j];
        if is_unstable(other) && same_container(&other.container, &me.container) && str_eq(other.name.as_str(), me.name.as_str()) {
            count = count + 1;
        }
        j = j + 1;
    }
    if is_unstable(me) && count > 1 {
        let head = crate::finding::concat(me.name.as_str(), "~");
        let digits = decimal_string(count);
        crate::finding::concat(head.as_str(), digits.as_str())
    } else {
        me.name.clone()
    }
}

/// Only positional and anonymous names can collide in a way the author did not choose: from
/// the second finding under one such key on, each is suffixed `~2`, `~3`, … in order. Declared
/// and bound names that collide are a genuine duplicate in the source and keep their names.
pub fn disambiguate(findings: &mut Vec<Finding>)
    ensures
        disambiguated(old(findings)@, final(findings)@),
{
    let ghost orig = findings@;
    let n = findings.len();
    let mut names: Vec<String> = Vec::new();
    let mut i: usize = 0;
    while i < n
        invariant
            findings@ == orig,
            n == orig.len(),
            0 <= i <= n,
            names@.len() == i,
            forall|k: int| 0 <= k < i ==> (#[trigger] names@[k])@ == renamed(orig, k),
        decreases n - i,
    {
        let name = renamed_exec(findings, i);
        names.push(name);
        i = i + 1;
    }
    let mut rev: Vec<Finding> = Vec::new();
    while findings.len() > 0
        invariant
            n == orig.len(),
            rev@.len() + findings@.len() == n,
            forall|k: int| 0 <= k < findings@.len() ==> findings@[k] == orig[k],
            forall|k: int| 0 <= k < rev@.len() ==> rev@[k] == orig[n - 1 - k],
        decreases findings@.len(),
    {
        let f = findings.pop().unwrap();
        rev.push(f);
    }
    let mut i: usize = 0;
    while rev.len() > 0
        invariant
            n == orig.len(),
            names@.len() == n,
            forall|k: int| 0 <= k < n ==> (#[trigger] names@[k])@ == renamed(orig, k),
            findings@.len() == i,
            rev@.len() + i == n,
            forall|k: int| 0 <= k < rev@.len() ==> rev@[k] == orig[n - 1 - k],
            forall|k: int| 0 <= k < i ==> {
                &&& (#[trigger] findings@[k]).name@ == renamed(orig, k)
                &&& findings@[k].container == orig[k].container
                &&& findings@[k].origin == orig[k].origin
                &&& findings@[k].line == orig[k].line
                &&& findings@[k].score == orig[k].score
                &&& findings@[k].suppression == orig[k].suppression
                &&& findings@[k].language == orig[k].language
            },
        decreases rev@.len(),
    {
        let mut f = rev.pop().unwrap();
        assert(f == orig[i as int]);
        f.name = names[i].clone();
        findings.push(f);
        i = i + 1;
    }
}

} // verus!

verus! {

/// Every finding of one parsed file, names told apart.
pub fn analyze(lang: &CompiledLanguage, t: &SyntaxTree, src: &[u8], toplevel: bool) -> (r: Vec<Finding>)
    requires
        t.wf(),
        t.len() <= 4294967295,
    ensures
        exists|pre: Seq<Finding>| collected_file(lang, t, src@, toplevel, pre) && disambiguated(pre, r@),
{
    let mut findings = collect_file(lang, t, src, toplevel);
    let ghost pre = findings@;
    disambiguate(&mut findings);
    assert(collected_file(lang, t, src@, toplevel, pre) && disambiguated(pre, findings@));
    findings
}

} // verus!

verus! {

proof fn lemma_count_key_grows(fs: Seq<Finding>, key: (Option<Seq<char>>, Seq<char>), i: int, j: int)
    requires
        0 <= i < j <= fs.len(),
        unstable(fs[i]),
        key_of(fs[i]) == key,
    ensures
        count_key(fs, key, j) >= count_key(fs, key, i + 1),
        count_key(fs, key, i + 1) >= 1,
    decreases j - i,
{
    if j > i + 1 {
        lemma_count_key_grows(fs, key, i, j - 1);
    }
}

/// Positional and anonymous names that collide in a way the author did not choose are told
/// apart: two such findings sharing a container and a name are reported under different names.
pub proof fn law_colliding_names_are_told_apart(before: Seq<Finding>, after: Seq<Finding>, i: int, j: int)
    requires
        disambiguated(before, after),
        0 <= i < j < before.len(),
        unstable(before[i]),
        unstable(before[j]),
        key_of(before[i]) == key_of(before[j]),
    ensures
        after[i].name@ != after[j].name@,
{
    reveal_strlit("~");
    let key = key_of(before[i]);
    lemma_count_key_grows(before, key, i, j);
    let oi = occurrence(before, i);
    let oj = occurrence(before, j);
    assert(oj == count_key(before, key, j) + 1);
    assert(oj > oi && oi >= 1);
    crate::names::lemma_decimal_len(oj);
    let name = before[j].name@;
    assert(before[i].name@ == name);
    let tj = name + "~"@ + decimal(oj);
    assert(after[j].name@ == tj);
    if after[i].name@ == after[j].name@ {
        if oi > 1 {
            let ti = name + "~"@ + decimal(oi);
            assert(after[i].name@ == ti);
            assert(ti.len() == tj.len());
            assert(ti.subrange(name.len() as int + 1, ti.len() as int) =~= decimal(oi));
            assert(tj.subrange(name.len() as int + 1, tj.len() as int) =~= decimal(oj));
            crate::names::lemma_decimal_injective(oi, oj);
        } else {
            assert(after[i].name@ == name);
            assert(tj.len() > name.len());
        }
    }
}

} // verus!
