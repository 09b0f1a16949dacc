//! Recorded scores for code that already exists, so an established codebase can adopt a
//! threshold without fixing everything first. A baseline is a debt ledger: an unknown unit is a
//! regression, never an acceptance.
use vstd::prelude::*;
use crate::finding::Finding;
use crate::names::{decimal, decimal_string};
use crate::order::{lemma_text_lt_asymmetric, lemma_text_lt_irreflexive, lemma_text_lt_total, lemma_text_lt_transitive, str_lt, text_lt};
use crate::text::str_eq;

verus! {

/// A finding together with where it was found: the path shown to the user, the path its
/// baseline key is made of, and the domain that owns it.
pub struct Located {
    pub path: String,
    pub key_path: String,
    pub domain: usize,
    pub finding: Finding,
}

impl Located {
    /// The same located finding, owned anew.
    pub fn copy(&self) -> (r: Located)
        ensures
            r == *self,
    {
        Located { path: self.path.clone(), key_path: self.key_path.clone(), domain: self.domain, finding: self.finding.copy() }
    }
}

/// The key a baseline records a finding under: its path relative to its domain, and its
/// qualified name. The line is left out, so an edit above a unit does not re-key it.
pub open spec fn located_key(l: Located) -> (Seq<char>, Seq<char>) {
    (l.key_path@, l.finding.spec_qualified())
}

/// The key order a baseline keeps its entries in: by path, then by unit.
pub open spec fn key_lt(a: (Seq<char>, Seq<char>), b: (Seq<char>, Seq<char>)) -> bool {
    text_lt(a.0, b.0) || (a.0 == b.0 && text_lt(a.1, b.1))
}

pub proof fn lemma_key_lt(a: (Seq<char>, Seq<char>), b: (Seq<char>, Seq<char>), c: (Seq<char>, Seq<char>))
    ensures
        !key_lt(a, a),
        key_lt(a, b) ==> !key_lt(b, a),
        key_lt(a, b) && key_lt(b, c) ==> key_lt(a, c),
        a == b || key_lt(a, b) || key_lt(b, a),
{
    lemma_text_lt_irreflexive(a.0);
    lemma_text_lt_irreflexive(a.1);
    lemma_text_lt_asymmetric(a.0, b.0);
    lemma_text_lt_asymmetric(a.1, b.1);
    lemma_text_lt_asymmetric(b.0, a.0);
    lemma_text_lt_transitive(a.0, b.0, c.0);
    lemma_text_lt_transitive(a.1, b.1, c.1);
    lemma_text_lt_total(a.0, b.0);
    lemma_text_lt_total(a.1, b.1);
    if a.0 == b.0 && a.1 == b.1 {
        assert(a == b);
    }
}

pub open spec fn entry_key(e: (String, String, u32)) -> (Seq<char>, Seq<char>) {
    (e.0@, e.1@)
}

/// The score recorded under `key` among entries from position `k` on.
pub open spec fn lookup_in(es: Seq<(String, String, u32)>, key: (Seq<char>, Seq<char>), k: int) -> Option<u32>
    decreases es.len() - k,
{
    if k < 0 || k >= es.len() {
        None
    } else if entry_key(es[k]) == key {
        Some(es[k].2)
    } else {
        lookup_in(es, key, k + 1)
    }
}

/// The highest score `items` hold under `key`: units the namer cannot tell apart share one
/// entry, and an unchanged rerun must accept each of them.
pub open spec fn recorded(items: Seq<((Seq<char>, Seq<char>), u32)>, key: (Seq<char>, Seq<char>)) -> Option<u32>
    decreases items.len(),
{
    if items.len() == 0 {
        None
    } else {
        let front = recorded(items.drop_last(), key);
        if items.last().0 != key {
            front
        } else {
            match front {
                Some(s) => Some(if s >= items.last().1 { s } else { items.last().1 }),
                None => Some(items.last().1),
            }
        }
    }
}

pub open spec fn located_items(fs: Seq<Located>) -> Seq<((Seq<char>, Seq<char>), u32)> {
    fs.map_values(|l: Located| (located_key(l), l.finding.score))
}

/// Recorded scores keyed by domain-relative path and qualified unit name.
pub struct Baseline {
    version: u32,
    entries: Vec<(String, String, u32)>,
}

/// The baseline format this library reads and writes.
pub const FORMAT_VERSION: u32 = 1;

impl Baseline {
    /// Entries in key order, each key once.
    pub closed spec fn wf(&self) -> bool {
        forall|i: int, j: int| 0 <= i < j < self.entries@.len() ==> key_lt(entry_key(#[trigger] self.entries@[i]), entry_key(#[trigger] self.entries@[j]))
    }

    /// The score accepted for `key`, if the baseline knows it.
    pub closed spec fn accepted(&self, key: (Seq<char>, Seq<char>)) -> Option<u32> {
        lookup_in(self.entries@, key, 0)
    }

    pub closed spec fn spec_version(&self) -> u32 {
        self.version
    }

    pub closed spec fn spec_entries(&self) -> Seq<(String, String, u32)> {
        self.entries@
    }

    fn entry_before(&self, i: usize, path: &String, unit: &String) -> (r: bool)
        requires
            i < self.entries@.len(),
        ensures
            r == key_lt(entry_key(self.entries@[i as int]), (path@, unit@)),
    {
        let here = &self.entries[i];
        str_lt(here.0.as_str(), path.as_str())
            || (str_eq(here.0.as_str(), path.as_str()) && str_lt(here.1.as_str(), unit.as_str()))
    }

    /// An empty ledger in the current format.
    pub fn new() -> (r: Baseline)
        ensures
            r.wf(),
            r.spec_version() == FORMAT_VERSION,
            forall|key| r.accepted(key) is None,
            r.keys().len() == 0,
    {
        Baseline { version: FORMAT_VERSION, entries: Vec::new() }
    }

    /// Records `score` under the key (`path`, `unit`), keeping the higher of it and what was
    /// there.
    pub fn record(&mut self, path: String, unit: String, score: u32)
        requires
            old(self).wf(),
        ensures
            final(self).wf(),
            final(self).spec_version() == old(self).spec_version(),
            forall|key: (Seq<char>, Seq<char>)| #[trigger] final(self).accepted(key) == if key == (path@, unit@) {
                match old(self).accepted(key) {
                    Some(s) => Some(if s >= score { s } else { score }),
                    None => Some(score),
                }
            } else {
                old(self).accepted(key)
            },
    {
        let ghost key = (path@, unit@);
        let ghost es = self.entries@;
        let n = self.entries.len();
        let mut i: usize = 0;
        while i < n && self.entry_before(i, &path, &unit)
            invariant
                n == es.len(),
                key == (path@, unit@),
                self.entries@ == es,
                self.wf(),
                0 <= i <= n,
                forall|k: int| 0 <= k < i ==> key_lt(entry_key(#[trigger] es[k]), key),
            decreases n - i,
        {
            i = i + 1;
        }
        proof {
            assert forall|k: int| 0 <= k < i implies #[trigger] lookup_in(es, key, k) == lookup_in(es, key, i as int) by {
                lemma_skip_smaller(es, key, k, i as int);
            }
        }
        if i < n && str_eq(self.entries[i].0.as_str(), path.as_str()) && str_eq(self.entries[i].1.as_str(), unit.as_str()) {
            let old_score = self.entries[i].2;
            let kept = if old_score >= score { old_score } else { score };
            self.entries.set(i, (path, unit, kept));
            proof {
                let ns = self.entries@;
                assert(entry_key(ns[i as int]) == entry_key(es[i as int]));
                assert forall|a: int, b: int| 0 <= a < b < ns.len() implies key_lt(entry_key(#[trigger] ns[a]), entry_key(#[trigger] ns[b])) by {
                    assert(entry_key(ns[a]) == entry_key(es[a]));
                    assert(entry_key(ns[b]) == entry_key(es[b]));
                }
                assert forall|q: (Seq<char>, Seq<char>)| #[trigger] lookup_in(ns, q, 0) == if q == key {
                    match lookup_in(es, q, 0) {
                        Some(s) => Some(if s >= score { s } else { score }),
                        None => Some(score),
                    }
                } else {
                    lookup_in(es, q, 0)
                } by {
                    lemma_lookup_sorted(es, q);
                    lemma_lookup_sorted(ns, q);
                    lemma_lookup_in_at(es, q, i as int);
                    lemma_lookup_in_at(ns, q, i as int);
                    if q != key {
                        if lookup_in(es, q, 0) is Some {
                            let w = choose|w: int| 0 <= w < es.len() && entry_key(#[trigger] es[w]) == q;
                            assert(w != i);
                            assert(ns[w] == es[w]);
                            lemma_lookup_in_at(es, q, w);
                            lemma_lookup_in_at(ns, q, w);
                        } else {
                            assert forall|w: int| 0 <= w < ns.len() implies entry_key(#[trigger] ns[w]) != q by {
                                assert(entry_key(ns[w]) == entry_key(es[w]));
                            }
                        }
                    }
                }
            }
        } else {
            self.entries.insert(i, (path, unit, score));
            proof {
                let ns = self.entries@;
                assert(ns =~= es.insert(i as int, (path, unit, score)));
                if i < n {
                    lemma_key_lt(entry_key(es[i as int]), key, key);
                    assert(key_lt(key, entry_key(es[i as int])));
                }
                assert forall|a: int, b: int| 0 <= a < b < ns.len() implies key_lt(entry_key(#[trigger] ns[a]), entry_key(#[trigger] ns[b])) by {
                    if a < i && b == i {
                    } else if a < i && b > i {
                        lemma_key_lt(entry_key(es[a]), key, entry_key(es[b - 1]));
                        if b - 1 == i {
                        } else {
                            lemma_key_lt(key, entry_key(es[i as int]), entry_key(es[b - 1]));
                        }
                    } else if a == i && b > i {
                        if b - 1 > i {
                            lemma_key_lt(key, entry_key(es[i as int]), entry_key(es[b - 1]));
                        }
                    } else if a > i {
                        assert(ns[a] == es[a - 1]);
                        assert(ns[b] == es[b - 1]);
                    }
                }
                assert forall|q: (Seq<char>, Seq<char>)| #[trigger] lookup_in(ns, q, 0) == if q == key {
                    match lookup_in(es, q, 0) {
                        Some(s) => Some(if s >= score { s } else { score }),
                        None => Some(score),
                    }
                } else {
                    lookup_in(es, q, 0)
                } by {
                    lemma_lookup_sorted(es, q);
                    lemma_lookup_sorted(ns, q);
                    if q == key {
                        assert(entry_key(ns[i as int]) == key);
                        lemma_lookup_in_at(ns, q, i as int);
                        if lookup_in(es, q, 0) is Some {
                            let w = choose|w: int| 0 <= w < es.len() && entry_key(#[trigger] es[w]) == q;
                            if w < i {
                                assert(key_lt(entry_key(es[w]), key));
                                lemma_key_lt(key, key, key);
                            } else if w > i {
                                lemma_key_lt(key, entry_key(es[i as int]), entry_key(es[w]));
                                lemma_key_lt(key, key, key);
                            } else {
                                lemma_key_lt(key, key, key);
                            }
                        }
                    } else {
                        if lookup_in(es, q, 0) is Some {
                            let w = choose|w: int| 0 <= w < es.len() && entry_key(#[trigger] es[w]) == q && lookup_in(es, q, 0) == Some(es[w].2);
                            let nw = if w < i { w } else { w + 1 };
                            assert(ns[nw] == es[w]);
                            lemma_lookup_in_at(es, q, w);
                            lemma_lookup_in_at(ns, q, nw);
                        } else {
                            assert forall|w: int| 0 <= w < ns.len() implies entry_key(#[trigger] ns[w]) != q by {
                                if w < i {
                                    assert(ns[w] == es[w]);
                                } else if w > i {
                                    assert(ns[w] == es[w - 1]);
                                }
                            }
                        }
                    }
                }
            }
        }
    }
}

/// Keys below `key` do not hold it, so a search may start past them.
proof fn lemma_skip_smaller(es: Seq<(String, String, u32)>, key: (Seq<char>, Seq<char>), k: int, i: int)
    requires
        0 <= k <= i <= es.len(),
        forall|m: int| 0 <= m < i ==> key_lt(entry_key(#[trigger] es[m]), key),
    ensures
        lookup_in(es, key, k) == lookup_in(es, key, i),
    decreases i - k,
{
    if k < i {
        lemma_key_lt(entry_key(es[k]), key, key);
        lemma_skip_smaller(es, key, k + 1, i);
    }
}

/// In a ledger whose keys are distinct, a key is found exactly where it sits.
proof fn lemma_lookup_sorted(es: Seq<(String, String, u32)>, q: (Seq<char>, Seq<char>))
    ensures
        lookup_in(es, q, 0) is Some <==> exists|w: int| 0 <= w < es.len() && entry_key(#[trigger] es[w]) == q,
        lookup_in(es, q, 0) matches Some(s) ==> exists|w: int| 0 <= w < es.len() && entry_key(#[trigger] es[w]) == q && s == es[w].2,
{
    lemma_lookup_from(es, q, 0);
}

proof fn lemma_lookup_from(es: Seq<(String, String, u32)>, q: (Seq<char>, Seq<char>), k: int)
    requires
        0 <= k,
    ensures
        lookup_in(es, q, k) is Some <==> exists|w: int| k <= w < es.len() && entry_key(#[trigger] es[w]) == q,
        lookup_in(es, q, k) matches Some(s) ==> exists|w: int| k <= w < es.len() && entry_key(#[trigger] es[w]) == q && s == es[w].2,
    decreases es.len() - k,
{
    if k < es.len() {
        lemma_lookup_from(es, q, k + 1);
        if entry_key(es[k]) != q {
            assert forall|w: int| k <= w < es.len() && entry_key(#[trigger] es[w]) == q implies k + 1 <= w by {}
        }
    }
}

/// In sorted entries, position `i` answers for its own key and no other position does.
proof fn lemma_lookup_in_at(es: Seq<(String, String, u32)>, q: (Seq<char>, Seq<char>), i: int)
    requires
        0 <= i < es.len(),
        forall|a: int, b: int| 0 <= a < b < es.len() ==> key_lt(entry_key(#[trigger] es[a]), entry_key(#[trigger] es[b])),
    ensures
        entry_key(es[i]) == q ==> lookup_in(es, q, 0) == Some(es[i].2),
{
    if entry_key(es[i]) == q {
        assert forall|m: int| 0 <= m < i implies key_lt(entry_key(#[trigger] es[m]), q) by {}
        lemma_skip_smaller(es, q, 0, i);
    }
}

} // verus!

verus! {

proof fn lemma_recorded_holds(items: Seq<((Seq<char>, Seq<char>), u32)>, i: int)
    requires
        0 <= i < items.len(),
    ensures
        recorded(items, items[i].0) matches Some(s) && s >= items[i].1,
    decreases items.len(),
{
    if i < items.len() - 1 {
        lemma_recorded_holds(items.drop_last(), i);
        assert(items.drop_last()[i] == items[i]);
    }
}

/// Whether a finding breaks the ledger: it is unknown, or it scores above what was accepted.
pub open spec fn breaks(accepted: Option<u32>, score: u32) -> bool {
    match accepted {
        None => true,
        Some(a) => score > a,
    }
}

impl Baseline {
    /// The keys the ledger holds, in order.
    pub closed spec fn keys(&self) -> Seq<(Seq<char>, Seq<char>)> {
        self.entries@.map_values(|e: (String, String, u32)| entry_key(e))
    }

    /// The ledger built from a scan's findings: each key once, at the highest score found
    /// under it.
    pub fn from_findings(findings: &Vec<Located>) -> (r: Baseline)
        ensures
            r.wf(),
            r.spec_version() == FORMAT_VERSION,
            forall|key| #[trigger] r.accepted(key) == recorded(located_items(findings@), key),
            keys_sorted(r.keys()),
            forall|key| r.keys().contains(key) <==> #[trigger] seen(findings@, key),
    {
        let mut b = Baseline::new();
        let ghost items = located_items(findings@);
        let mut i: usize = 0;
        while i < findings.len()
            invariant
                0 <= i <= findings@.len(),
                items == located_items(findings@),
                b.wf(),
                b.spec_version() == FORMAT_VERSION,
                forall|key| #[trigger] b.accepted(key) == recorded(items.subrange(0, i as int), key),
            decreases findings@.len() - i,
        {
            let l = &findings[i];
            let unit = l.finding.qualified_name();
            b.record(l.key_path.clone(), unit, l.finding.score);
            proof {
                let s = items.subrange(0, i + 1);
                assert(s.drop_last() =~= items.subrange(0, i as int));
                assert(s.last() == items[i as int]);
                assert(items[i as int] == (located_key(findings@[i as int]), findings@[i as int].finding.score));
            }
            i = i + 1;
        }
        assert(items.subrange(0, findings@.len() as int) =~= items);
        proof {
            Baseline::law_keys_are_the_accepted_keys(b, Seq::empty());
            assert forall|key| b.keys().contains(key) <==> #[trigger] seen(findings@, key) by {
                assert(b.accepted(key) == recorded(items, key));
                lemma_recorded_some(items, key);
                if seen(findings@, key) {
                    let i = choose|i: int| 0 <= i < findings@.len() && located_key(#[trigger] findings@[i]) == key;
                    assert(items[i].0 == key);
                }
                if exists|i: int| 0 <= i < items.len() && (#[trigger] items[i]).0 == key {
                    let i = choose|i: int| 0 <= i < items.len() && (#[trigger] items[i]).0 == key;
                    assert(located_key(findings@[i]) == key);
                }
            }
        }
        b
    }

    /// An unknown key is a regression, not an acceptance: a renamed or re-keyed unit fails
    /// loud rather than silently inheriting someone else's grandfathering. A known one is a
    /// regression only when it scores above what was accepted.
    pub fn is_regression(&self, located: &Located) -> (r: bool)
        ensures
            r == breaks(self.accepted(located_key(*located)), located.finding.score),
    {
        let unit = located.finding.qualified_name();
        let mut i: usize = 0;
        while i < self.entries.len()
            invariant
                0 <= i <= self.entries@.len(),
                unit@ == located.finding.spec_qualified(),
                self.accepted(located_key(*located)) == lookup_in(self.entries@, located_key(*located), i as int),
            decreases self.entries@.len() - i,
        {
            let e = &self.entries[i];
            if str_eq(e.0.as_str(), located.key_path.as_str()) && str_eq(e.1.as_str(), unit.as_str()) {
                return located.finding.score > e.2;
            }
            i = i + 1;
        }
        true
    }

    /// How many units the ledger accepts.
    pub fn len(&self) -> (r: usize)
        requires
            self.wf(),
        ensures
            r == self.keys().len(),
            r == self.keys().to_set().len(),
    {
        proof {
            let ks = self.keys();
            assert forall|a: int, b: int| 0 <= a < ks.len() && 0 <= b < ks.len() && a != b implies ks[a] != ks[b] by {
                if a < b {
                    lemma_key_lt(ks[a], ks[b], ks[b]);
                    assert(key_lt(entry_key(self.entries@[a]), entry_key(self.entries@[b])));
                } else {
                    lemma_key_lt(ks[b], ks[a], ks[a]);
                    assert(key_lt(entry_key(self.entries@[b]), entry_key(self.entries@[a])));
                }
            }
            assert(ks.no_duplicates());
            ks.unique_seq_to_set();
        }
        self.entries.len()
    }

    pub fn is_empty(&self) -> (r: bool)
        requires
            self.wf(),
        ensures
            r == (self.keys().len() == 0),
            r == (self.keys().to_set().len() == 0),
    {
        self.len() == 0
    }

    /// The ledger's entries in order, to be written out.
    pub fn entries(&self) -> (r: Vec<(String, String, u32)>)
        requires
            self.wf(),
        ensures
            r@.map_values(|e: (String, String, u32)| entry_key(e)) == self.keys(),
            forall|i: int| 0 <= i < r@.len() ==> self.accepted(entry_key(#[trigger] r@[i])) == Some(r@[i].2),
    {
        proof {
            assert forall|i: int| 0 <= i < self.entries@.len() implies self.accepted(entry_key(#[trigger] self.entries@[i])) == Some(self.entries@[i].2) by {
                lemma_lookup_in_at(self.entries@, entry_key(self.entries@[i]), i);
            }
        }
        let mut out: Vec<(String, String, u32)> = Vec::new();
        let mut i: usize = 0;
        while i < self.entries.len()
            invariant
                0 <= i <= self.entries@.len(),
                out@.len() == i,
                forall|k: int| 0 <= k < i ==> entry_key(#[trigger] out@[k]) == entry_key(self.entries@[k]) && out@[k].2 == self.entries@[k].2,
            decreases self.entries@.len() - i,
        {
            let e = &self.entries[i];
            out.push((e.0.clone(), e.1.clone(), e.2));
            i = i + 1;
        }
        assert(out@.map_values(|e: (String, String, u32)| entry_key(e)) =~= self.keys());
        out
    }

    pub fn version(&self) -> (r: u32)
        ensures
            r == self.spec_version(),
    {
        self.version
    }
}

/// Every finding a ledger was built from is accepted by it on an unchanged rerun, whichever
/// order units sharing a key arrived in.
pub proof fn law_recorded_findings_are_accepted(findings: Seq<Located>, b: Baseline, i: int)
    requires
        forall|key| #[trigger] b.accepted(key) == recorded(located_items(findings), key),
        0 <= i < findings.len(),
    ensures
        !breaks(b.accepted(located_key(findings[i])), findings[i].finding.score),
{
    let items = located_items(findings);
    lemma_recorded_holds(items, i);
    assert(items[i] == (located_key(findings[i]), findings[i].finding.score));
}

/// A unit the ledger has never seen breaks it, whatever it scores.
pub proof fn law_unknown_units_break_the_ledger(b: Baseline, l: Located)
    requires
        b.accepted(located_key(l)) is None,
    ensures
        breaks(b.accepted(located_key(l)), l.finding.score),
{
}

} // verus!

verus! {

/// Some finding of the scan is keyed `key`.
pub open spec fn seen(findings: Seq<Located>, key: (Seq<char>, Seq<char>)) -> bool {
    exists|i: int| 0 <= i < findings.len() && located_key(#[trigger] findings[i]) == key
}

/// `path: unit` for each entry, in order, that no finding is keyed by.
pub open spec fn stale_in(es: Seq<(String, String, u32)>, findings: Seq<Located>) -> Seq<Seq<char>>
    decreases es.len(),
{
    if es.len() == 0 {
        Seq::empty()
    } else {
        let front = stale_in(es.drop_last(), findings);
        if seen(findings, entry_key(es.last())) {
            front
        } else {
            front.push(es.last().0@ + ": "@ + es.last().1@)
        }
    }
}

impl Baseline {
    pub closed spec fn stale(&self, findings: Seq<Located>) -> Seq<Seq<char>> {
        stale_in(self.entries@, findings)
    }

    /// Entries that matched nothing in this scan, as `path: unit`. Stale keys are how a
    /// baseline rots into a permanent amnesty, so they are surfaced rather than left to
    /// accumulate.
    pub fn unmatched(&self, findings: &Vec<Located>) -> (r: Vec<String>)
        ensures
            r@.map_values(|s: String| s@) == self.stale(findings@),
            r@.map_values(|s: String| s@) == stale_of(self.keys(), findings@),
    {
        proof {
            lemma_stale_keys(self.entries@, findings@);
        }
        let mut keys: Vec<(String, String)> = Vec::new();
        let mut j: usize = 0;
        while j < findings.len()
            invariant
                0 <= j <= findings@.len(),
                keys@.len() == j,
                forall|k: int| 0 <= k < j ==> (#[trigger] keys@[k]).0@ == located_key(findings@[k]).0 && keys@[k].1@ == located_key(findings@[k]).1,
            decreases findings@.len() - j,
        {
            keys.push((findings[j].key_path.clone(), findings[j].finding.qualified_name()));
            j = j + 1;
        }
        let mut out: Vec<String> = Vec::new();
        let mut i: usize = 0;
        while i < self.entries.len()
            invariant
                0 <= i <= self.entries@.len(),
                keys@.len() == findings@.len(),
                forall|k: int| 0 <= k < keys@.len() ==> (#[trigger] keys@[k]).0@ == located_key(findings@[k]).0 && keys@[k].1@ == located_key(findings@[k]).1,
                out@.map_values(|s: String| s@) == stale_in(self.entries@.subrange(0, i as int), findings@),
            decreases self.entries@.len() - i,
        {
            let e = &self.entries[i];
            let mut found = false;
            let mut k: usize = 0;
            while k < keys.len()
                invariant
                    0 <= k <= keys@.len(),
                    keys@.len() == findings@.len(),
                    forall|m: int| 0 <= m < keys@.len() ==> (#[trigger] keys@[m]).0@ == located_key(findings@[m]).0 && keys@[m].1@ == located_key(findings@[m]).1,
                    found == exists|m: int| 0 <= m < k && located_key(#[trigger] findings@[m]) == entry_key(*e),
                decreases keys@.len() - k,
            {
                if str_eq(keys[k].0.as_str(), e.0.as_str()) && str_eq(keys[k].1.as_str(), e.1.as_str()) {
                    found = true;
                }
                k = k + 1;
            }
            let ghost before = out@;
            proof {
                let s = self.entries@.subrange(0, i + 1);
                assert(s.drop_last() =~= self.entries@.subrange(0, i as int));
                assert(s.last() == *e);
            }
            if !found {
                let head = crate::finding::concat(e.0.as_str(), ": ");
                let line = crate::finding::concat(head.as_str(), e.1.as_str());
                out.push(line);
                assert(out@.map_values(|s: String| s@) =~= before.map_values(|s: String| s@).push(e.0@ + ": "@ + e.1@));
            }
            i = i + 1;
        }
        assert(self.entries@.subrange(0, self.entries@.len() as int) =~= self.entries@);
        out
    }

    /// A ledger read back from disk: refused, with a message naming the remedy, unless it is
    /// in the format this library writes.
    pub fn from_parts(version: u32, entries: Vec<(String, String, u32)>) -> (r: Result<Baseline, String>)
        ensures
            r is Ok <==> version == FORMAT_VERSION,
            r matches Ok(b) ==> b.wf() && b.spec_version() == FORMAT_VERSION
                && forall|key| #[trigger] b.accepted(key) == recorded(entries@.map_values(|e: (String, String, u32)| (entry_key(e), e.2)), key),
            r matches Err(m) ==> m@ == "baseline format version "@ + decimal(version as nat)
                + " is not supported (expected 1); regenerate with --write-baseline"@,
    {
        if version != FORMAT_VERSION {
            let head = crate::finding::concat("baseline format version ", decimal_string(version as usize).as_str());
            return Err(crate::finding::concat(head.as_str(), " is not supported (expected 1); regenerate with --write-baseline"));
        }
        let ghost items = entries@.map_values(|e: (String, String, u32)| (entry_key(e), e.2));
        let mut b = Baseline::new();
        let mut rest = entries;
        let mut rev: Vec<(String, String, u32)> = Vec::new();
        let n = rest.len();
        let ghost orig = rest@;
        while rest.len() > 0
            invariant
                rev@.len() + rest@.len() == n,
                n == orig.len(),
                forall|k: int| 0 <= k < rest@.len() ==> rest@[k] == orig[k],
                forall|k: int| 0 <= k < rev@.len() ==> rev@[k] == orig[n - 1 - k],
            decreases rest@.len(),
        {
            let x = rest.pop().unwrap();
            rev.push(x);
        }
        let mut i: usize = 0;
        while rev.len() > 0
            invariant
                rev@.len() + i == n,
                n == orig.len(),
                items == orig.map_values(|e: (String, String, u32)| (entry_key(e), e.2)),
                forall|k: int| 0 <= k < rev@.len() ==> rev@[k] == orig[n - 1 - k],
                b.wf(),
                b.spec_version() == FORMAT_VERSION,
                forall|key| #[trigger] b.accepted(key) == recorded(items.subrange(0, i as int), key),
            decreases rev@.len(),
        {
            let (path, unit, score) = rev.pop().unwrap();
            proof {
                let s = items.subrange(0, i + 1);
                assert(s.drop_last() =~= items.subrange(0, i as int));
                assert(s.last() == items[i as int]);
                assert(items[i as int] == ((path@, unit@), score));
            }
            b.record(path, unit, score);
            i = i + 1;
        }
        assert(items.subrange(0, n as int) =~= items);
        Ok(b)
    }
}

} // verus!

verus! {

proof fn lemma_recorded_absent(items: Seq<((Seq<char>, Seq<char>), u32)>, key: (Seq<char>, Seq<char>))
    requires
        forall|i: int| 0 <= i < items.len() ==> (#[trigger] items[i]).0 != key,
    ensures
        recorded(items, key) is None,
    decreases items.len(),
{
    if items.len() > 0 {
        lemma_recorded_absent(items.drop_last(), key);
        assert(items.last() == items[items.len() - 1]);
    }
}

proof fn lemma_recorded_single(items: Seq<((Seq<char>, Seq<char>), u32)>, i: int)
    requires
        0 <= i < items.len(),
        forall|a: int, b: int| 0 <= a < b < items.len() ==> (#[trigger] items[a]).0 != (#[trigger] items[b]).0,
    ensures
        recorded(items, items[i].0) == Some(items[i].1),
    decreases items.len(),
{
    let key = items[i].0;
    let front = items.drop_last();
    if i == items.len() - 1 {
        assert forall|j: int| 0 <= j < front.len() implies (#[trigger] front[j]).0 != key by {
            assert(front[j] == items[j]);
        }
        lemma_recorded_absent(front, key);
    } else {
        assert forall|a: int, b: int| 0 <= a < b < front.len() implies (#[trigger] front[a]).0 != (#[trigger] front[b]).0 by {
            assert(front[a] == items[a]);
            assert(front[b] == items[b]);
        }
        assert(front[i] == items[i]);
        lemma_recorded_single(front, i);
        assert(items.last() == items[items.len() - 1]);
    }
}

proof fn lemma_lookup_absent(es: Seq<(String, String, u32)>, key: (Seq<char>, Seq<char>), k: int)
    requires
        0 <= k,
        forall|i: int| 0 <= i < es.len() ==> entry_key(#[trigger] es[i]) != key,
    ensures
        lookup_in(es, key, k) is None,
    decreases es.len() - k,
{
    if k < es.len() {
        lemma_lookup_absent(es, key, k + 1);
    }
}

/// A ledger written out and read back accepts exactly what it accepted, and holds the same
/// keys, so as many: `written` is what `entries` hands out, and `read` what `from_parts` makes
/// of it.
pub proof fn law_a_written_ledger_reads_back_the_same(b: Baseline, written: Seq<(String, String, u32)>, read: Baseline)
    requires
        b.wf(),
        read.wf(),
        written.map_values(|e: (String, String, u32)| entry_key(e)) == b.keys(),
        forall|i: int| 0 <= i < written.len() ==> b.accepted(entry_key(#[trigger] written[i])) == Some(written[i].2),
        forall|key| #[trigger] read.accepted(key) == recorded(written.map_values(|e: (String, String, u32)| (entry_key(e), e.2)), key),
    ensures
        forall|key| #[trigger] read.accepted(key) == b.accepted(key),
        read.keys() == b.keys(),
{
    let items = written.map_values(|e: (String, String, u32)| (entry_key(e), e.2));
    let es = b.entries@;
    assert(written.len() == es.len()) by {
        assert(b.keys().len() == es.len());
    }
    assert forall|i: int| 0 <= i < items.len() implies (#[trigger] items[i]).0 == entry_key(es[i]) by {
        assert(written.map_values(|e: (String, String, u32)| entry_key(e))[i] == b.keys()[i]);
    }
    assert forall|a: int, c: int| 0 <= a < c < items.len() implies (#[trigger] items[a]).0 != (#[trigger] items[c]).0 by {
        lemma_key_lt(entry_key(es[a]), entry_key(es[c]), entry_key(es[c]));
    }
    assert forall|key| #[trigger] read.accepted(key) == b.accepted(key) by {
        if exists|i: int| 0 <= i < items.len() && items[i].0 == key {
            let i = choose|i: int| 0 <= i < items.len() && items[i].0 == key;
            lemma_recorded_single(items, i);
            assert(b.accepted(entry_key(written[i])) == Some(written[i].2));
        } else {
            assert forall|i: int| 0 <= i < items.len() implies (#[trigger] items[i]).0 != key by {}
            lemma_recorded_absent(items, key);
            assert forall|i: int| 0 <= i < es.len() implies entry_key(#[trigger] es[i]) != key by {
                assert(items[i].0 == entry_key(es[i]));
            }
            lemma_lookup_absent(es, key, 0);
        }
    }
    Baseline::law_keys_are_the_accepted_keys(b, Seq::empty());
    Baseline::law_keys_are_the_accepted_keys(read, Seq::empty());
    assert forall|k: (Seq<char>, Seq<char>)| read.keys().contains(k) <==> b.keys().contains(k) by {
        assert(read.accepted(k) == b.accepted(k));
    }
    lemma_sorted_keys_unique(read.keys(), b.keys());
}

} // verus!

verus! {

/// Keys in strictly increasing key order, so each at most once.
pub open spec fn keys_sorted(ks: Seq<(Seq<char>, Seq<char>)>) -> bool {
    forall|i: int, j: int| 0 <= i < j < ks.len() ==> key_lt(#[trigger] ks[i], #[trigger] ks[j])
}

/// `path: unit` for each key, in order, that no finding is keyed by.
pub open spec fn stale_of(keys: Seq<(Seq<char>, Seq<char>)>, findings: Seq<Located>) -> Seq<Seq<char>>
    decreases keys.len(),
{
    if keys.len() == 0 {
        Seq::empty()
    } else {
        let front = stale_of(keys.drop_last(), findings);
        if seen(findings, keys.last()) {
            front
        } else {
            front.push(keys.last().0 + ": "@ + keys.last().1)
        }
    }
}

proof fn lemma_stale_keys(es: Seq<(String, String, u32)>, findings: Seq<Located>)
    ensures
        stale_in(es, findings) == stale_of(es.map_values(|e: (String, String, u32)| entry_key(e)), findings),
    decreases es.len(),
{
    if es.len() > 0 {
        lemma_stale_keys(es.drop_last(), findings);
        assert(es.drop_last().map_values(|e: (String, String, u32)| entry_key(e))
            =~= es.map_values(|e: (String, String, u32)| entry_key(e)).drop_last());
    }
}

proof fn lemma_recorded_some(items: Seq<((Seq<char>, Seq<char>), u32)>, key: (Seq<char>, Seq<char>))
    ensures
        recorded(items, key) is Some <==> exists|i: int| 0 <= i < items.len() && (#[trigger] items[i]).0 == key,
    decreases items.len(),
{
    if items.len() > 0 {
        lemma_recorded_some(items.drop_last(), key);
        if exists|i: int| 0 <= i < items.len() && (#[trigger] items[i]).0 == key {
            let i = choose|i: int| 0 <= i < items.len() && (#[trigger] items[i]).0 == key;
            if i < items.len() - 1 {
                assert(items.drop_last()[i].0 == key);
            }
        }
        if exists|i: int| 0 <= i < items.len() - 1 && (#[trigger] items.drop_last()[i]).0 == key {
            let i = choose|i: int| 0 <= i < items.len() - 1 && (#[trigger] items.drop_last()[i]).0 == key;
            assert(items[i].0 == key);
        }
    }
}

proof fn lemma_sorted_keys_unique(a: Seq<(Seq<char>, Seq<char>)>, b: Seq<(Seq<char>, Seq<char>)>)
    requires
        keys_sorted(a),
        keys_sorted(b),
        forall|k: (Seq<char>, Seq<char>)| a.contains(k) <==> b.contains(k),
    ensures
        a == b,
    decreases a.len() + b.len(),
{
    if a.len() == 0 || b.len() == 0 {
        if a.len() > 0 {
            assert(a.contains(a[0]));
        }
        if b.len() > 0 {
            assert(b.contains(b[0]));
        }
        assert(a =~= b);
    } else {
        let (la, lb) = (a.last(), b.last());
        assert(a.contains(la));
        assert(b.contains(lb));
        let j = choose|j: int| 0 <= j < b.len() && b[j] == la;
        let i = choose|i: int| 0 <= i < a.len() && a[i] == lb;
        if j < b.len() - 1 {
            assert(key_lt(b[j], lb));
            if i < a.len() - 1 {
                assert(key_lt(a[i], la));
                lemma_key_lt(lb, la, lb);
            } else {
                lemma_key_lt(la, la, la);
            }
        }
        assert(la == lb);
        let (da, db) = (a.drop_last(), b.drop_last());
        assert forall|k: (Seq<char>, Seq<char>)| da.contains(k) <==> db.contains(k) by {
            if da.contains(k) {
                let x = choose|x: int| 0 <= x < da.len() && da[x] == k;
                assert(a.contains(k));
                let y = choose|y: int| 0 <= y < b.len() && b[y] == k;
                if y == b.len() - 1 {
                    assert(key_lt(a[x], la));
                    lemma_key_lt(la, la, la);
                }
                assert(db[y] == k);
            }
            if db.contains(k) {
                let y = choose|y: int| 0 <= y < db.len() && db[y] == k;
                assert(b.contains(k));
                let x = choose|x: int| 0 <= x < a.len() && a[x] == k;
                if x == a.len() - 1 {
                    assert(key_lt(b[y], lb));
                    lemma_key_lt(lb, lb, lb);
                }
                assert(da[x] == k);
            }
        }
        lemma_sorted_keys_unique(da, db);
        assert(a =~= da.push(la));
        assert(b =~= db.push(lb));
    }
}

/// A scan that sees nothing leaves every key of a ledger stale.
pub proof fn law_an_empty_scan_leaves_every_key_stale(keys: Seq<(Seq<char>, Seq<char>)>)
    ensures
        stale_of(keys, Seq::empty()).len() == keys.len(),
    decreases keys.len(),
{
    if keys.len() > 0 {
        law_an_empty_scan_leaves_every_key_stale(keys.drop_last());
    }
}

impl Baseline {
    /// A ledger's keys, in key order, are exactly the keys it accepts; and what a scan leaves
    /// stale is those keys, in order, that none of its findings is keyed by.
    pub proof fn law_keys_are_the_accepted_keys(b: Baseline, findings: Seq<Located>)
        requires
            b.wf(),
        ensures
            keys_sorted(b.keys()),
            forall|key| b.keys().contains(key) <==> (#[trigger] b.accepted(key)) is Some,
            b.stale(findings) == stale_of(b.keys(), findings),
    {
        let ks = b.keys();
        let es = b.entries@;
        lemma_stale_keys(es, findings);
        assert forall|i: int, j: int| 0 <= i < j < ks.len() implies key_lt(#[trigger] ks[i], #[trigger] ks[j]) by {
            assert(key_lt(entry_key(es[i]), entry_key(es[j])));
        }
        assert forall|key| ks.contains(key) <==> (#[trigger] b.accepted(key)) is Some by {
            lemma_lookup_sorted(es, key);
            if ks.contains(key) {
                let w = choose|w: int| 0 <= w < ks.len() && ks[w] == key;
                assert(entry_key(es[w]) == key);
            }
            if b.accepted(key) is Some {
                let w = choose|w: int| 0 <= w < es.len() && entry_key(#[trigger] es[w]) == key;
                assert(ks[w] == key);
            }
        }
    }
}

} // verus!
