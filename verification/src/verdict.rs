//! The decisions a run makes around a scan: thresholds overridden on the command line, which
//! findings fail a run, when a scan is too broken to trust, and what a report holds.
use vstd::prelude::*;
use crate::baseline::{breaks, located_items, located_key, recorded, Baseline, Located};
use crate::finding::{concat, opt_view, Suppression, SUPPRESSION_MARKER};
use crate::hooks::{parse_u32, spec_parse_u32};
use crate::java_names::join;
use crate::names::{decimal, decimal_string};
use crate::paths::{join_exec, normalize_key, spec_normalize_key};
use crate::policy::{texts, Domain, Workspace, DEFAULT_THRESHOLD};
use crate::registry::{for_path, language_ids, spec_for_path, spec_language_ids, views, Descriptor};
use crate::scan::{place, Job, ScanOutcome, ScanStats};
use crate::source::analyze_source;
use crate::text::{chars_of, find_from, str_eq, string_from, trim, trim_chars};

verus! {

/// `str::split(c)`: the pieces between the occurrences of `c`, at least one.
pub open spec fn split_on(s: Seq<char>, c: char) -> Seq<Seq<char>>
    decreases s.len(),
{
    if s.len() == 0 {
        seq![Seq::empty()]
    } else {
        let p = split_on(s.drop_last(), c);
        if s.last() == c {
            p.push(Seq::empty())
        } else {
            p.update(p.len() - 1, p.last().push(s.last()))
        }
    }
}

proof fn lemma_split_on_len(s: Seq<char>, c: char)
    ensures
        split_on(s, c).len() >= 1,
    decreases s.len(),
{
    if s.len() > 0 {
        lemma_split_on_len(s.drop_last(), c);
    }
}

/// The pieces of `s` between the occurrences of `c`.
pub fn split_char(s: &str, c: char) -> (r: Vec<String>)
    ensures
        r@.map_values(|p: String| p@) == split_on(s@, c),
{
    let cs = chars_of(s);
    let mut done: Vec<String> = Vec::new();
    let mut piece: Vec<char> = Vec::new();
    let mut i: usize = 0;
    while i < cs.len()
        invariant
            cs@ == s@,
            0 <= i <= cs@.len(),
            done@.map_values(|p: String| p@).push(piece@) == split_on(s@.subrange(0, i as int), c),
        decreases cs@.len() - i,
    {
        let ghost pre = s@.subrange(0, i as int);
        proof {
            assert(s@.subrange(0, i + 1).drop_last() =~= pre);
            lemma_split_on_len(pre, c);
        }
        if cs[i] == c {
            let finished = string_from(piece.as_slice());
            let ghost before = done@;
            done.push(finished);
            piece = Vec::new();
            assert(done@.map_values(|p: String| p@) =~= before.map_values(|p: String| p@).push(finished@));
            assert(done@.map_values(|p: String| p@).push(piece@) =~= split_on(pre, c).push(Seq::empty()));
        } else {
            let ghost old_piece = piece@;
            piece.push(cs[i]);
            let ghost p = split_on(pre, c);
            assert(done@.map_values(|q: String| q@).push(piece@) =~= p.update(p.len() - 1, p.last().push(cs@[i as int])));
        }
        i = i + 1;
    }
    let last = string_from(piece.as_slice());
    let ghost before = done@;
    done.push(last);
    assert(s@.subrange(0, cs@.len() as int) =~= s@);
    assert(done@.map_values(|p: String| p@) =~= before.map_values(|p: String| p@).push(last@));
    done
}

/// Every piece of every value, split at `,`.
pub open spec fn over_parts(values: Seq<Seq<char>>) -> Seq<Seq<char>>
    decreases values.len(),
{
    if values.len() == 0 {
        Seq::empty()
    } else {
        over_parts(values.drop_last()) + split_on(values.last(), ',')
    }
}

pub open spec fn not_a_number(text: Seq<char>) -> Seq<char> {
    "--over: `"@ + text + "` is not a number"@
}

/// One `--over` piece: `LANG=N` sets one language, a bare `N` every language; the error names
/// the text that is not a number, as written.
pub open spec fn spec_override(part: Seq<char>) -> Result<(Option<Seq<char>>, u32), Seq<char>> {
    match find_from(part, "="@, 0) {
        Some(i) => {
            let number = part.subrange(i + 1, part.len() as int);
            match spec_parse_u32(trim(number)) {
                Some(v) => Ok((Some(trim(part.subrange(0, i))), v)),
                None => Err(not_a_number(number)),
            }
        },
        None => match spec_parse_u32(trim(part)) {
            Some(v) => Ok((None, v)),
            None => Err(not_a_number(part)),
        },
    }
}

/// The pieces read in order: the last bare number, every language setting in order, or the
/// first error.
pub open spec fn spec_overrides(parts: Seq<Seq<char>>) -> Result<(Option<u32>, Seq<(Seq<char>, u32)>), Seq<char>>
    decreases parts.len(),
{
    if parts.len() == 0 {
        Ok((None, Seq::empty()))
    } else {
        match spec_overrides(parts.drop_last()) {
            Err(m) => Err(m),
            Ok((global, languages)) => match spec_override(parts.last()) {
                Err(m) => Err(m),
                Ok((None, v)) => Ok((Some(v), languages)),
                Ok((Some(l), v)) => Ok((global, languages.push((l, v)))),
            },
        }
    }
}

/// The last value set for `language` among `settings`.
pub open spec fn last_setting(settings: Seq<(Seq<char>, u32)>, language: Seq<char>) -> Option<u32>
    decreases settings.len(),
{
    if settings.len() == 0 {
        None
    } else if settings.last().0 == language {
        Some(settings.last().1)
    } else {
        last_setting(settings.drop_last(), language)
    }
}

/// Reads one `--over` piece.
fn read_override(part: &str) -> (r: Result<(Option<String>, u32), String>)
    ensures
        match spec_override(part@) {
            Ok((l, v)) => r matches Ok((rl, rv)) && rv == v && match l {
                Some(t) => rl matches Some(x) && x@ == t,
                None => rl is None,
            },
            Err(m) => r matches Err(e) && e@ == m,
        },
{
    let cs = chars_of(part);
    let eq = vec!['='];
    proof {
        reveal_strlit("=");
        assert(eq@ =~= "="@);
    }
    let found = crate::text::find_chars(&cs, &eq, 0);
    proof {
        crate::text::lemma_find_from(cs@, eq@, 0);
        if let Some(j) = find_from(cs@, eq@, 0) {
            assert(crate::text::occurs_at(cs@, eq@, j));
            assert(j + 1 <= cs@.len());
        }
    }
    match found {
        Some(i) => {
            assert(i + 1 <= cs@.len());
            let number = crate::text::sub_chars(&cs, i + 1, cs.len());
            let trimmed = trim_chars(&number);
            let text = string_from(trimmed.as_slice());
            match parse_u32(text.as_str()) {
                Some(v) => {
                    let language = crate::text::sub_chars(&cs, 0, i);
                    let l = trim_chars(&language);
                    Ok((Some(string_from(l.as_slice())), v))
                },
                None => {
                    let shown = string_from(number.as_slice());
                    let head = crate::finding::concat("--over: `", shown.as_str());
                    Err(crate::finding::concat(head.as_str(), "` is not a number"))
                },
            }
        },
        None => {
            let trimmed = trim_chars(&cs);
            let text = string_from(trimmed.as_slice());
            match parse_u32(text.as_str()) {
                Some(v) => Ok((None, v)),
                None => {
                    let head = crate::finding::concat("--over: `", part);
                    Err(crate::finding::concat(head.as_str(), "` is not a number"))
                },
            }
        },
    }
}


pub open spec fn settings_of(v: Seq<(String, u32)>) -> Seq<(Seq<char>, u32)> {
    v.map_values(|p: (String, u32)| (p.0@, p.1))
}

proof fn lemma_overrides_stay_failed(a: Seq<Seq<char>>, b: Seq<Seq<char>>)
    requires
        spec_overrides(a) is Err,
    ensures
        spec_overrides(a + b) == spec_overrides(a),
    decreases b.len(),
{
    if b.len() == 0 {
        assert(a + b =~= a);
    } else {
        lemma_overrides_stay_failed(a, b.drop_last());
        assert((a + b).drop_last() =~= a + b.drop_last());
    }
}

/// Reads every `--over` value, piece by piece.
fn read_overrides(over: &Vec<String>) -> (r: Result<(Option<u32>, Vec<(String, u32)>), String>)
    ensures
        match spec_overrides(over_parts(texts(over@))) {
            Ok((g, ls)) => r matches Ok((rg, rls)) && rg == g && settings_of(rls@) == ls,
            Err(m) => r matches Err(e) && e@ == m,
        },
{
    let ghost values = texts(over@);
    let mut global: Option<u32> = None;
    let mut settings: Vec<(String, u32)> = Vec::new();
    let mut k: usize = 0;
    assert(values.subrange(0, 0) =~= Seq::<Seq<char>>::empty());
    assert(settings_of(settings@) =~= Seq::<(Seq<char>, u32)>::empty());
    while k < over.len()
        invariant
            0 <= k <= over@.len(),
            values == texts(over@),
            spec_overrides(over_parts(values.subrange(0, k as int))) == Ok::<(Option<u32>, Seq<(Seq<char>, u32)>), Seq<char>>((global, settings_of(settings@))),
        decreases over@.len() - k,
    {
        let pieces = split_char(over[k].as_str(), ',');
        let ghost done = over_parts(values.subrange(0, k as int));
        let ghost ps = pieces@.map_values(|p: String| p@);
        let mut j: usize = 0;
        assert(done + ps.subrange(0, 0) =~= done);
        while j < pieces.len()
            invariant
                0 <= k < over@.len(),
                values == texts(over@),
                done == over_parts(values.subrange(0, k as int)),
                ps == split_on(values[k as int], ','),
                0 <= j <= pieces@.len(),
                ps == pieces@.map_values(|p: String| p@),
                spec_overrides(done + ps.subrange(0, j as int)) == Ok::<(Option<u32>, Seq<(Seq<char>, u32)>), Seq<char>>((global, settings_of(settings@))),
            decreases pieces@.len() - j,
        {
            let ghost sofar = done + ps.subrange(0, j as int);
            assert((done + ps.subrange(0, j + 1)).drop_last() =~= sofar);
            assert((done + ps.subrange(0, j + 1)).last() == pieces@[j as int]@);
            match read_override(pieces[j].as_str()) {
                Err(e) => {
                    proof {
                        let failed = done + ps.subrange(0, j + 1);
                        let rest_here = ps.subrange(j + 1, ps.len() as int);
                        lemma_overrides_stay_failed(failed, rest_here + over_parts(values.subrange(k + 1, values.len() as int)));
                        lemma_over_parts_split(values, k as int);
                        assert(values.subrange(0, values.len() as int) =~= values);
                        assert(failed + (rest_here + over_parts(values.subrange(k + 1, values.len() as int))) =~= done + ps + over_parts(values.subrange(k + 1, values.len() as int)));
                    }
                    return Err(e);
                },
                Ok((None, v)) => {
                    global = Some(v);
                },
                Ok((Some(l), v)) => {
                    let ghost before = settings@;
                    settings.push((l, v));
                    assert(settings_of(settings@) =~= settings_of(before).push((l@, v)));
                },
            }
            j = j + 1;
        }
        proof {
            assert(ps.subrange(0, ps.len() as int) =~= ps);
            assert(values.subrange(0, k + 1).drop_last() =~= values.subrange(0, k as int));
            assert(values.subrange(0, k + 1).last() == over@[k as int]@);
        }
        k = k + 1;
    }
    assert(values.subrange(0, over@.len() as int) =~= values);
    Ok((global, settings))
}

proof fn lemma_over_parts_append(a: Seq<Seq<char>>, b: Seq<Seq<char>>)
    ensures
        over_parts(a + b) == over_parts(a) + over_parts(b),
    decreases b.len(),
{
    if b.len() == 0 {
        assert(a + b =~= a);
        assert(over_parts(a) + over_parts(b) =~= over_parts(a));
    } else {
        lemma_over_parts_append(a, b.drop_last());
        assert((a + b).drop_last() =~= a + b.drop_last());
        assert((a + b).last() == b.last());
        assert(over_parts(a) + over_parts(b) =~= over_parts(a) + over_parts(b.drop_last()) + split_on(b.last(), ','));
    }
}

proof fn lemma_over_parts_split(values: Seq<Seq<char>>, k: int)
    requires
        0 <= k < values.len(),
    ensures
        over_parts(values) == over_parts(values.subrange(0, k)) + split_on(values[k], ',') + over_parts(values.subrange(k + 1, values.len() as int)),
{
    let a = values.subrange(0, k + 1);
    let b = values.subrange(k + 1, values.len() as int);
    assert(a + b =~= values);
    lemma_over_parts_append(a, b);
    assert(a.drop_last() =~= values.subrange(0, k));
}


/// What overriding makes of a domain: a bare number replaces its threshold and every language's;
/// a language setting wins over both; `--no-toplevel` stops the top level scoring.
pub open spec fn overridden(before: Domain, after: Domain, global: Option<u32>, settings: Seq<(Seq<char>, u32)>, no_toplevel: bool) -> bool {
    &&& after.threshold == (match global { Some(g) => g, None => before.threshold })
    &&& forall|l: Seq<char>| #[trigger] after.spec_threshold_for(l) == match last_setting(settings, l) {
        Some(v) => v,
        None => match global {
            Some(g) => g,
            None => before.spec_threshold_for(l),
        },
    }
    &&& after.toplevel == (before.toplevel && !no_toplevel)
    &&& global is Some ==> forall|j: int| 0 <= j < after.language_thresholds@.len()
        ==> last_setting(settings, (#[trigger] after.language_thresholds@[j]).0@) is Some
    &&& after.name == before.name
    &&& after.root == before.root
    &&& after.baseline == before.baseline
    &&& after.exclude == before.exclude
}

fn override_domain(d: &mut Domain, global: Option<u32>, settings: &Vec<(String, u32)>, no_toplevel: bool)
    ensures
        overridden(*old(d), *final(d), global, settings_of(settings@), no_toplevel),
{
    let ghost start = *d;
    match global {
        Some(g) => {
            d.threshold = g;
            d.language_thresholds = Vec::new();
        },
        None => {},
    }
    if no_toplevel {
        d.toplevel = false;
    }
    let mut k: usize = 0;
    while k < settings.len()
        invariant
            0 <= k <= settings@.len(),
            d.threshold == (match global { Some(g) => g, None => start.threshold }),
            forall|l: Seq<char>| #[trigger] d.spec_threshold_for(l) == match last_setting(settings_of(settings@).subrange(0, k as int), l) {
                Some(v) => v,
                None => match global {
                    Some(g) => g,
                    None => start.spec_threshold_for(l),
                },
            },
            d.toplevel == (start.toplevel && !no_toplevel),
            global is Some ==> forall|j: int| 0 <= j < d.language_thresholds@.len()
                ==> last_setting(settings_of(settings@).subrange(0, k as int), (#[trigger] d.language_thresholds@[j]).0@) is Some,
            d.name == start.name,
            d.root == start.root,
            d.baseline == start.baseline,
            d.exclude == start.exclude,
        decreases settings@.len() - k,
    {
        let ghost before = *d;
        let (language, value) = (settings[k].0.clone(), settings[k].1);
        d.set_language_threshold(language, value);
        proof {
            let sub = settings_of(settings@).subrange(0, k + 1);
            assert(sub.drop_last() =~= settings_of(settings@).subrange(0, k as int));
            assert(sub.last() == (settings@[k as int].0@, value));
            if global is Some {
                assert forall|j: int| 0 <= j < d.language_thresholds@.len()
                    implies last_setting(sub, (#[trigger] d.language_thresholds@[j]).0@) is Some by {
                    let name = d.language_thresholds@[j].0@;
                    if name != sub.last().0 {
                        let m = choose|m: int| 0 <= m < before.language_thresholds@.len() && (#[trigger] before.language_thresholds@[m]).0@ == name;
                        assert(last_setting(settings_of(settings@).subrange(0, k as int), before.language_thresholds@[m].0@) is Some);
                    }
                }
            }
        }
        k = k + 1;
    }
    assert(settings_of(settings@).subrange(0, settings@.len() as int) =~= settings_of(settings@));
}

/// Applies `--over` and `--no-toplevel` to every domain. `--over` takes `N` for every language
/// or `LANG=N` for one, several to a value separated by commas; the last word on a language
/// wins. A piece that is not a number fails the whole run before anything changes.
pub fn apply_overrides(over: &Vec<String>, no_toplevel: bool, domains: &mut Vec<Domain>) -> (r: Result<(), String>)
    ensures
        match spec_overrides(over_parts(texts(over@))) {
            Err(m) => r matches Err(e) && e@ == m && final(domains)@ == old(domains)@,
            Ok((g, ls)) => r is Ok && final(domains)@.len() == old(domains)@.len()
                && forall|i: int| 0 <= i < old(domains)@.len() ==> overridden(#[trigger] old(domains)@[i], final(domains)@[i], g, ls, no_toplevel),
        },
{
    let (global, settings) = match read_overrides(over) {
        Ok(found) => found,
        Err(e) => return Err(e),
    };
    let ghost start = domains@;
    let mut done: Vec<Domain> = Vec::new();
    let n = domains.len();
    let mut k: usize = 0;
    while k < n
        invariant
            n == start.len(),
            0 <= k <= n,
            domains@ == start.subrange(k as int, n as int),
            done@.len() == k,
            forall|i: int| 0 <= i < k ==> overridden(#[trigger] start[i], done@[i], global, settings_of(settings@), no_toplevel),
        decreases n - k,
    {
        let mut d = domains.remove(0);
        assert(domains@ =~= start.subrange(k + 1, n as int));
        override_domain(&mut d, global, &settings, no_toplevel);
        done.push(d);
        k = k + 1;
    }
    *domains = done;
    Ok(())
}


/// Every item's domain is one of `domains`.
pub open spec fn placed_in(located: Seq<Located>, domains: Seq<Domain>) -> bool {
    forall|i: int| 0 <= i < located.len() ==> (#[trigger] located[i]).domain < domains.len()
}

/// The finding scores above what its domain allows for its language, and no reasoned marker
/// silences it.
pub open spec fn spec_over_threshold(item: Located, domains: Seq<Domain>) -> bool {
    &&& item.finding.score > domains[item.domain as int].spec_threshold_for(item.finding.language@)
    &&& !(item.finding.suppression is Reasoned)
}

pub fn is_over_threshold(item: &Located, domains: &Vec<Domain>) -> (r: bool)
    requires
        item.domain < domains@.len(),
    ensures
        r == spec_over_threshold(*item, domains@),
{
    let threshold = domains[item.domain].threshold_for(item.finding.language);
    item.finding.score > threshold && !item.finding.is_suppressed()
}

/// The items over their threshold, in order.
pub open spec fn spec_over(located: Seq<Located>, domains: Seq<Domain>) -> Seq<Located>
    decreases located.len(),
{
    if located.len() == 0 {
        Seq::empty()
    } else {
        let front = spec_over(located.drop_last(), domains);
        if spec_over_threshold(located.last(), domains) { front.push(located.last()) } else { front }
    }
}

pub fn over_threshold(located: &Vec<Located>, domains: &Vec<Domain>) -> (r: Vec<Located>)
    requires
        placed_in(located@, domains@),
    ensures
        r@ == spec_over(located@, domains@),
{
    let mut out: Vec<Located> = Vec::new();
    let mut k: usize = 0;
    while k < located.len()
        invariant
            0 <= k <= located@.len(),
            placed_in(located@, domains@),
            out@ == spec_over(located@.subrange(0, k as int), domains@),
        decreases located@.len() - k,
    {
        proof {
            assert(located@.subrange(0, k + 1).drop_last() =~= located@.subrange(0, k as int));
        }
        if is_over_threshold(&located[k], domains) {
            out.push(located[k].copy());
        }
        k = k + 1;
    }
    assert(located@.subrange(0, located@.len() as int) =~= located@);
    out
}

/// The baselines a run compares against: one shared file under key 0, or each domain's own
/// under its index. A key occurs once.
pub struct Ledgers {
    pub shared: bool,
    pub loaded: Vec<(usize, Baseline)>,
}

/// The first ledger under `key`.
pub open spec fn ledger_for(loaded: Seq<(usize, Baseline)>, key: usize, k: int) -> Option<Baseline>
    decreases loaded.len() - k,
{
    if k < 0 || k >= loaded.len() {
        None
    } else if loaded[k].0 == key {
        Some(loaded[k].1)
    } else {
        ledger_for(loaded, key, k + 1)
    }
}

impl Ledgers {
    pub open spec fn key_of(&self, item: Located) -> usize {
        if self.shared { 0 } else { item.domain }
    }

    /// A unit no loaded baseline covers is a regression; one it covers is when it scores above
    /// what was accepted.
    pub open spec fn spec_is_regression(&self, item: Located) -> bool {
        match ledger_for(self.loaded@, self.key_of(item), 0) {
            None => true,
            Some(b) => breaks(b.accepted(located_key(item)), item.finding.score),
        }
    }

    pub fn is_regression(&self, item: &Located) -> (r: bool)
        ensures
            r == self.spec_is_regression(*item),
    {
        let key = if self.shared { 0 } else { item.domain };
        let mut k: usize = 0;
        while k < self.loaded.len()
            invariant
                0 <= k <= self.loaded@.len(),
                key == self.key_of(*item),
                ledger_for(self.loaded@, key, 0) == ledger_for(self.loaded@, key, k as int),
            decreases self.loaded@.len() - k,
        {
            if self.loaded[k].0 == key {
                return self.loaded[k].1.is_regression(item);
            }
            k = k + 1;
        }
        true
    }
}

/// A finding a run reports: over its threshold and not accepted by a baseline.
pub open spec fn spec_is_reported(item: Located, domains: Seq<Domain>, ledgers: Ledgers) -> bool {
    spec_over_threshold(item, domains) && ledgers.spec_is_regression(item)
}

pub fn is_reported(item: &Located, domains: &Vec<Domain>, ledgers: &Ledgers) -> (r: bool)
    requires
        item.domain < domains@.len(),
    ensures
        r == spec_is_reported(*item, domains@, *ledgers),
{
    is_over_threshold(item, domains) && ledgers.is_regression(item)
}

/// How many of `items` are regressions.
pub open spec fn spec_breaches(items: Seq<Located>, ledgers: Ledgers) -> nat
    decreases items.len(),
{
    if items.len() == 0 {
        0
    } else {
        spec_breaches(items.drop_last(), ledgers) + if ledgers.spec_is_regression(items.last()) { 1nat } else { 0nat }
    }
}

proof fn lemma_breaches_bound(items: Seq<Located>, ledgers: Ledgers)
    ensures
        spec_breaches(items, ledgers) <= items.len(),
    decreases items.len(),
{
    if items.len() > 0 {
        lemma_breaches_bound(items.drop_last(), ledgers);
    }
}

/// Counts the items over the threshold that no baseline accepts: the ones that fail the run.
pub fn count_breaches(over: &Vec<Located>, ledgers: &Ledgers) -> (r: usize)
    ensures
        r == spec_breaches(over@, *ledgers),
        r <= over@.len(),
{
    let mut count: usize = 0;
    let mut k: usize = 0;
    while k < over.len()
        invariant
            0 <= k <= over@.len(),
            count == spec_breaches(over@.subrange(0, k as int), *ledgers),
        decreases over@.len() - k,
    {
        proof {
            assert(over@.subrange(0, k + 1).drop_last() =~= over@.subrange(0, k as int));
            lemma_breaches_bound(over@.subrange(0, k as int), *ledgers);
        }
        if ledgers.is_regression(&over[k]) {
            count = count + 1;
        }
        k = k + 1;
    }
    proof {
        assert(over@.subrange(0, over@.len() as int) =~= over@);
        lemma_breaches_bound(over@, *ledgers);
    }
    count
}


/// The warning for a marker without a reason on a finding over its threshold: such a marker is
/// refused rather than obeyed, so it has to say so out loud, or its author would believe the
/// finding silenced.
pub open spec fn unreasoned_message(item: Located) -> Seq<char> {
    item.path@ + ":"@ + decimal(item.finding.line as nat) + ": `"@ + SUPPRESSION_MARKER@
        + "` needs a reason, e.g. `// "@ + SUPPRESSION_MARKER@
        + ": why this has to stay complex` \u{2014} ignoring it and reporting "@ + item.finding.spec_qualified()
}

/// The warnings for every item over its threshold whose marker gives no reason, in order.
pub open spec fn spec_unreasoned(located: Seq<Located>, domains: Seq<Domain>) -> Seq<Seq<char>>
    decreases located.len(),
{
    if located.len() == 0 {
        Seq::empty()
    } else {
        let front = spec_unreasoned(located.drop_last(), domains);
        let item = located.last();
        if item.finding.score > domains[item.domain as int].spec_threshold_for(item.finding.language@)
            && item.finding.suppression is MissingReason {
            front.push(unreasoned_message(item))
        } else {
            front
        }
    }
}

pub fn unreasoned_suppressions(located: &Vec<Located>, domains: &Vec<Domain>) -> (r: Vec<String>)
    requires
        placed_in(located@, domains@),
    ensures
        texts(r@) == spec_unreasoned(located@, domains@),
{
    let mut out: Vec<String> = Vec::new();
    let mut k: usize = 0;
    while k < located.len()
        invariant
            0 <= k <= located@.len(),
            placed_in(located@, domains@),
            texts(out@) == spec_unreasoned(located@.subrange(0, k as int), domains@),
        decreases located@.len() - k,
    {
        proof {
            assert(located@.subrange(0, k + 1).drop_last() =~= located@.subrange(0, k as int));
        }
        let item = &located[k];
        let threshold = domains[item.domain].threshold_for(item.finding.language);
        let missing = match &item.finding.suppression {
            Suppression::MissingReason => true,
            _ => false,
        };
        if item.finding.score > threshold && missing {
            let line = decimal_string(item.finding.line);
            let a = concat(concat(item.path.as_str(), ":").as_str(), line.as_str());
            let b = concat(concat(a.as_str(), ": `").as_str(), SUPPRESSION_MARKER);
            let c = concat(concat(b.as_str(), "` needs a reason, e.g. `// ").as_str(), SUPPRESSION_MARKER);
            let d = concat(c.as_str(), ": why this has to stay complex` \u{2014} ignoring it and reporting ");
            let message = concat(d.as_str(), item.finding.qualified_name().as_str());
            let ghost before = out@;
            out.push(message);
            assert(texts(out@) =~= texts(before).push(message@));
        }
        k = k + 1;
    }
    assert(located@.subrange(0, located@.len() as int) =~= located@);
    out
}

/// `parts` joined by `sep`.
pub fn join_strings(parts: &Vec<String>, sep: &str) -> (r: String)
    ensures
        r@ == join(texts(parts@), sep@),
{
    let mut cs: Vec<Vec<char>> = Vec::new();
    let mut k: usize = 0;
    while k < parts.len()
        invariant
            0 <= k <= parts@.len(),
            views(cs@) == texts(parts@).subrange(0, k as int),
        decreases parts@.len() - k,
    {
        let ghost before = cs@;
        let c = chars_of(parts[k].as_str());
        cs.push(c);
        assert(views(cs@) =~= views(before).push(c@));
        assert(texts(parts@).subrange(0, k + 1) =~= texts(parts@).subrange(0, k as int).push(parts@[k as int]@));
        k = k + 1;
    }
    assert(texts(parts@).subrange(0, parts@.len() as int) =~= texts(parts@));
    let joined = join_exec(&cs, &chars_of(sep));
    string_from(joined.as_slice())
}

/// Why a scan cannot be trusted, if it cannot: a run that could not read what it was pointed
/// at must not report success, or a renamed directory turns the check into a no-op that stays
/// green. `shown` are the scanned paths as the user gave them.
pub open spec fn spec_unusable_scan(errors: usize, files: usize, shown: Seq<Seq<char>>) -> Option<Seq<char>> {
    if errors > 0 {
        Some(decimal(errors as nat) + " path(s) could not be read; refusing to report a clean run"@)
    } else if files == 0 {
        Some("no supported files found under "@ + join(shown, ", "@))
    } else {
        None
    }
}

pub fn unusable_scan(stats: &ScanStats, shown: &Vec<String>) -> (r: Option<String>)
    ensures
        opt_view(r) == spec_unusable_scan(stats.errors, stats.files, texts(shown@)),
{
    if stats.errors > 0 {
        let n = decimal_string(stats.errors);
        return Some(concat(n.as_str(), " path(s) could not be read; refusing to report a clean run"));
    }
    if stats.files == 0 {
        let listed = join_strings(shown, ", ");
        return Some(concat("no supported files found under ", listed.as_str()));
    }
    None
}

/// `text` behind as many spaces as bring it to `width`.
pub open spec fn pad_left(text: Seq<char>, width: nat) -> Seq<char> {
    if text.len() >= width { text } else { Seq::new((width - text.len()) as nat, |i: int| ' ') + text }
}

/// A text report's line: the score right-aligned in four columns, the path and line, the unit.
pub open spec fn spec_text_line(item: Located) -> Seq<char> {
    pad_left(decimal(item.finding.score as nat), 4) + "  "@ + item.path@ + ":"@ + decimal(item.finding.line as nat)
        + "  "@ + item.finding.spec_qualified()
}

pub fn text_line(item: &Located) -> (r: String)
    ensures
        r@ == spec_text_line(*item),
{
    let score = decimal_string(item.finding.score as usize);
    let mut padded: Vec<char> = Vec::new();
    let n = chars_of(score.as_str()).len();
    let mut k: usize = n;
    while k < 4
        invariant
            n <= k <= 4 || (n > 4 && k == n),
            padded@.len() == k - n,
            forall|i: int| 0 <= i < padded@.len() ==> padded@[i] == ' ',
        decreases 4 - k,
    {
        padded.push(' ');
        k = k + 1;
    }
    let ghost spaces = padded@;
    crate::text::push_lit(&mut padded, score.as_str());
    proof {
        let w = decimal(item.finding.score as nat);
        if w.len() < 4 {
            assert(spaces =~= Seq::new((4 - w.len()) as nat, |i: int| ' '));
        } else {
            assert(spaces.len() == 0);
            assert(padded@ =~= w);
        }
    }
    let head = string_from(padded.as_slice());
    let line = decimal_string(item.finding.line);
    let a = concat(concat(head.as_str(), "  ").as_str(), item.path.as_str());
    let b = concat(concat(a.as_str(), ":").as_str(), line.as_str());
    concat(concat(b.as_str(), "  ").as_str(), item.finding.qualified_name().as_str())
}

/// The closing line of a failing text run: how many units failed it, and how many more
/// a baseline accepted.
pub open spec fn spec_breach_summary(breaches: usize, over: usize) -> Seq<char> {
    let accepted = over - breaches;
    "\n"@ + decimal(breaches as nat) + " unit(s) over the threshold"@
        + if accepted > 0 { ", "@ + decimal(accepted as nat) + " accepted by a baseline"@ } else { Seq::empty() }
}

pub fn breach_summary(breaches: usize, over: usize) -> (r: String)
    requires
        breaches <= over,
    ensures
        r@ == spec_breach_summary(breaches, over),
{
    let accepted = over - breaches;
    let b = decimal_string(breaches);
    let head = concat(concat("\n", b.as_str()).as_str(), " unit(s) over the threshold");
    if accepted > 0 {
        let a = decimal_string(accepted);
        let tail = concat(concat(", ", a.as_str()).as_str(), " accepted by a baseline");
        concat(head.as_str(), tail.as_str())
    } else {
        assert(head@ + Seq::<char>::empty() =~= head@);
        head
    }
}

/// How a run that reached its verdict ends: it succeeds exactly when no unit breaks its
/// threshold and its baseline, and a failing run that prints text closes with the summary.
pub fn closing(breaches: usize, over: usize, text: bool) -> (r: (bool, Option<String>))
    requires
        breaches <= over,
    ensures
        r.0 == (breaches == 0),
        match r.1 {
            Some(s) => breaches > 0 && text && s@ == spec_breach_summary(breaches, over),
            None => breaches == 0 || !text,
        },
{
    if breaches == 0 {
        (true, None)
    } else if text {
        (false, Some(breach_summary(breaches, over)))
    } else {
        (false, None)
    }
}


/// The items of domain `index`, in order.
pub open spec fn in_domain(located: Seq<Located>, index: usize) -> Seq<Located>
    decreases located.len(),
{
    if located.len() == 0 {
        Seq::empty()
    } else {
        let front = in_domain(located.drop_last(), index);
        if located.last().domain == index { front.push(located.last()) } else { front }
    }
}

fn items_in_domain(located: &Vec<Located>, index: usize) -> (r: Vec<Located>)
    ensures
        r@ == in_domain(located@, index),
{
    let mut out: Vec<Located> = Vec::new();
    let mut k: usize = 0;
    while k < located.len()
        invariant
            0 <= k <= located@.len(),
            out@ == in_domain(located@.subrange(0, k as int), index),
        decreases located@.len() - k,
    {
        proof {
            let s = located@.subrange(0, k + 1);
            assert(s.drop_last() =~= located@.subrange(0, k as int));
        }
        if located[k].domain == index {
            out.push(located[k].copy());
        }
        k = k + 1;
    }
    assert(located@.subrange(0, located@.len() as int) =~= located@);
    out
}

/// The name a report gives a ledger's domain.
pub open spec fn domain_name(domains: Seq<Domain>, index: usize) -> Seq<char> {
    if index < domains.len() { domains[index as int].name@ } else { "root"@ }
}

pub open spec fn stale_message(name: Seq<char>, count: nat) -> Seq<char> {
    name + ": "@ + decimal(count) + " baseline entr(ies) matched nothing in this scan"@
}

/// The stale-entry warnings of the ledgers among the first `k`.
pub open spec fn spec_stale_warnings(loaded: Seq<(usize, Baseline)>, located: Seq<Located>, domains: Seq<Domain>, visited: Set<usize>) -> Seq<Seq<char>>
    decreases loaded.len(),
{
    if loaded.len() == 0 {
        Seq::empty()
    } else {
        let front = spec_stale_warnings(loaded.drop_last(), located, domains, visited);
        let (index, baseline) = loaded.last();
        let count = baseline.stale(in_domain(located, index)).len();
        if visited.contains(index) && count > 0 {
            front.push(stale_message(domain_name(domains, index), count))
        } else {
            front
        }
    }
}

/// Stale keys are how a baseline rots into a permanent amnesty, so every ledger of a domain the
/// scan visited says how many of its entries matched nothing; a domain nobody looked at has not
/// gone stale, it was simply out of scope.
pub fn stale_warnings(ledgers: &Ledgers, located: &Vec<Located>, domains: &Vec<Domain>, visited: &Vec<usize>) -> (r: Vec<String>)
    ensures
        texts(r@) == spec_stale_warnings(ledgers.loaded@, located@, domains@, visited@.to_set()),
{
    let mut out: Vec<String> = Vec::new();
    let mut k: usize = 0;
    while k < ledgers.loaded.len()
        invariant
            0 <= k <= ledgers.loaded@.len(),
            texts(out@) == spec_stale_warnings(ledgers.loaded@.subrange(0, k as int), located@, domains@, visited@.to_set()),
        decreases ledgers.loaded@.len() - k,
    {
        proof {
            let s = ledgers.loaded@.subrange(0, k + 1);
            assert(s.drop_last() =~= ledgers.loaded@.subrange(0, k as int));
        }
        let index = ledgers.loaded[k].0;
        let mut seen = false;
        let mut j: usize = 0;
        while j < visited.len()
            invariant
                0 <= j <= visited@.len(),
                seen == exists|m: int| 0 <= m < j && visited@[m] == index,
            decreases visited@.len() - j,
        {
            if visited[j] == index {
                seen = true;
            }
            j = j + 1;
        }
        proof {
            if visited@.to_set().contains(index) {
                let m = choose|m: int| 0 <= m < visited@.len() && visited@[m] == index;
                assert(seen);
            }
        }
        if seen {
            let scoped = items_in_domain(located, index);
            let stale = ledgers.loaded[k].1.unmatched(&scoped);
            if stale.len() > 0 {
                let name = if index < domains.len() { domains[index].name.clone() } else { "root".to_owned() };
                let count = decimal_string(stale.len());
                let head = concat(concat(name.as_str(), ": ").as_str(), count.as_str());
                let message = concat(head.as_str(), " baseline entr(ies) matched nothing in this scan");
                let ghost before = out@;
                out.push(message);
                assert(texts(out@) =~= texts(before).push(message@));
            }
        }
        k = k + 1;
    }
    assert(ledgers.loaded@.subrange(0, ledgers.loaded@.len() as int) =~= ledgers.loaded@);
    out
}

/// The first domain named `wanted`.
pub open spec fn named(domains: Seq<Domain>, wanted: Seq<char>, k: int) -> Option<int>
    decreases domains.len() - k,
{
    if k < 0 || k >= domains.len() {
        None
    } else if domains[k].name@ == wanted {
        Some(k)
    } else {
        named(domains, wanted, k + 1)
    }
}

/// Keeps only the findings of the first domain named `wanted`; a name no domain has is an error.
pub fn select_domain(located: &mut Vec<Located>, domains: &Vec<Domain>, wanted: &str) -> (r: Result<(), String>)
    ensures
        match named(domains@, wanted@, 0) {
            None => r matches Err(m) && m@ == "no domain named `"@ + wanted@ + "`"@ && final(located)@ == old(located)@,
            Some(i) => r is Ok && final(located)@ == in_domain(old(located)@, i as usize),
        },
{
    let mut k: usize = 0;
    while k < domains.len()
        invariant
            0 <= k <= domains@.len(),
            located@ == old(located)@,
            named(domains@, wanted@, 0) == named(domains@, wanted@, k as int),
        decreases domains@.len() - k,
    {
        if str_eq(domains[k].name.as_str(), wanted) {
            let kept = items_in_domain(located, k);
            *located = kept;
            return Ok(());
        }
        k = k + 1;
    }
    Err(concat(concat("no domain named `", wanted).as_str(), "`"))
}

/// Where `--write-baseline` writes and what: with one shared file, every item over the
/// threshold into it; else each domain its own items, into its own file, passing over a domain
/// with nothing to record whose file does not exist yet (`exists` says, per domain, whether it
/// does).
pub open spec fn spec_baselines_to_write(over: Seq<Located>, domains: Seq<Domain>, shared: Option<Seq<char>>, exists: Seq<bool>, k: int) -> Seq<(Seq<char>, Seq<Located>)>
    decreases k,
{
    match shared {
        Some(path) => seq![(path, over)],
        None => if k <= 0 {
            Seq::empty()
        } else {
            let front = spec_baselines_to_write(over, domains, shared, exists, k - 1);
            let items = in_domain(over, (k - 1) as usize);
            if items.len() == 0 && !exists[k - 1] { front } else { front.push((domains[k - 1].baseline@, items)) }
        },
    }
}

/// One baseline to write: its file, the ledger, and the items it was made from.
pub struct BaselineWrite {
    pub path: String,
    pub baseline: Baseline,
    pub items: Vec<Located>,
}

pub fn baselines_to_write(over: &Vec<Located>, domains: &Vec<Domain>, shared: Option<&str>, exists: &Vec<bool>) -> (r: Vec<BaselineWrite>)
    requires
        exists@.len() == domains@.len(),
    ensures
        r@.map_values(|p: BaselineWrite| (p.path@, p.items@)) == spec_baselines_to_write(over@, domains@, match shared { Some(s) => Some(s@), None => None }, exists@, domains@.len() as int),
        forall|i: int| 0 <= i < r@.len() ==> {
            &&& (#[trigger] r@[i]).baseline.wf()
            &&& forall|key| #[trigger] r@[i].baseline.accepted(key) == recorded(located_items(r@[i].items@), key)
        },
{
    let ghost sh = match shared { Some(s) => Some(s@), None => None::<Seq<char>> };
    match shared {
        Some(path) => {
            let items: Vec<Located> = copy_all(over);
            let baseline = Baseline::from_findings(&items);
            let out = vec![BaselineWrite { path: path.to_owned(), baseline, items }];
            assert(out@.map_values(|p: BaselineWrite| (p.path@, p.items@)) =~= seq![(path@, over@)]);
            out
        },
        None => {
            let mut out: Vec<BaselineWrite> = Vec::new();
            let mut k: usize = 0;
            while k < domains.len()
                invariant
                    shared is None,
                    sh is None,
                    exists@.len() == domains@.len(),
                    0 <= k <= domains@.len(),
                    out@.map_values(|p: BaselineWrite| (p.path@, p.items@)) == spec_baselines_to_write(over@, domains@, sh, exists@, k as int),
                    forall|i: int| 0 <= i < out@.len() ==> {
                        &&& (#[trigger] out@[i]).baseline.wf()
                        &&& forall|key| #[trigger] out@[i].baseline.accepted(key) == recorded(located_items(out@[i].items@), key)
                    },
                decreases domains@.len() - k,
            {
                let items = items_in_domain(over, k);
                if items.len() > 0 || exists[k] {
                    let baseline = Baseline::from_findings(&items);
                    let ghost before = out@;
                    out.push(BaselineWrite { path: domains[k].baseline.clone(), baseline, items });
                    assert(out@.map_values(|p: BaselineWrite| (p.path@, p.items@)) =~= before.map_values(|p: BaselineWrite| (p.path@, p.items@)).push((domains@[k as int].baseline@, in_domain(over@, k))));
                }
                k = k + 1;
            }
            out
        },
    }
}

fn copy_all(items: &Vec<Located>) -> (r: Vec<Located>)
    ensures
        r@ == items@,
{
    let mut out: Vec<Located> = Vec::new();
    let mut k: usize = 0;
    while k < items.len()
        invariant
            0 <= k <= items@.len(),
            out@ == items@.subrange(0, k as int),
        decreases items@.len() - k,
    {
        out.push(items[k].copy());
        assert(out@ =~= items@.subrange(0, k + 1));
        k = k + 1;
    }
    assert(out@ =~= items@);
    out
}

/// What `--write-baseline` prints for a written file.
pub open spec fn spec_recorded_message(count: usize, path: Seq<char>) -> Seq<char> {
    "recorded "@ + decimal(count as nat) + " finding(s) in "@ + path
}

pub fn recorded_message(count: usize, path: &str) -> (r: String)
    ensures
        r@ == spec_recorded_message(count, path@),
{
    let n = decimal_string(count);
    let head = concat(concat("recorded ", n.as_str()).as_str(), " finding(s) in ");
    concat(head.as_str(), path)
}


/// Which descriptor reads what `--stdin` hands over: the one `--stdin-path` names by its
/// extension.
pub fn stdin_descriptor(path: Option<&str>) -> (r: Result<Descriptor, String>)
    ensures
        match path {
            None => r matches Err(m) && m@ == "--stdin needs --stdin-path to know which language to use"@,
            Some(p) => match spec_for_path(p@) {
                Some(d) => r == Ok::<Descriptor, String>(d),
                None => r matches Err(m) && m@ == p@ + ": no language handles this extension"@,
            },
        },
{
    match path {
        None => Err("--stdin needs --stdin-path to know which language to use".to_owned()),
        Some(p) => match for_path(p) {
            Some(d) => Ok(d),
            None => Err(concat(p, ": no language handles this extension")),
        },
    }
}

/// Scores an unsaved editor buffer as though it were the file at `path`, which resolves to
/// `absolute`: one file read, in the domain that owns it.
pub fn scan_buffer(ws: &Workspace, d: Descriptor, path: &str, absolute: &str, source: &str) -> (r: ScanOutcome)
    requires
        ws.domains@.len() > 0,
    ensures
        r.stats.files == 1,
        r.stats.errors == 0,
        r.stats.domains@ == seq![ws.spec_domain_for(absolute@) as usize],
        r.errors@.len() == 0,
        forall|i: int| 0 <= i < r.located@.len() ==> {
            &&& (#[trigger] r.located@[i]).path@ == path@
            &&& r.located@[i].key_path@ == spec_normalize_key(absolute@, ws.domains@[ws.spec_domain_for(absolute@)].root@)
            &&& r.located@[i].domain == ws.spec_domain_for(absolute@)
        },
{
    let index = ws.domain_for(absolute);
    let domain = &ws.domains[index];
    let job = Job {
        path: path.to_owned(),
        shown: path.to_owned(),
        key_path: normalize_key(absolute, domain.root.as_str()),
        domain: index,
        descriptor: d,
        toplevel: domain.toplevel,
    };
    let mut warnings: Vec<String> = Vec::new();
    let findings = analyze_source(d, source, domain.toplevel, path, &mut warnings);
    let located = place(findings, &job);
    let stats = ScanStats { files: 1, errors: 0, domains: vec![index] };
    ScanOutcome { located, stats, errors: Vec::new(), warnings }
}

/// One finding as the JSON report lists it.
pub struct ReportedFinding {
    pub path: String,
    pub line: usize,
    pub name: String,
    pub score: u32,
    pub language: &'static str,
    pub domain: String,
}

/// What `--format json` prints: each language's threshold in the workspace root's domain, how
/// many findings fail the run, and the findings listed.
pub struct Report {
    pub thresholds: Vec<(String, u32)>,
    pub breaches: usize,
    pub findings: Vec<ReportedFinding>,
}

/// The items a report lists: all of them with `--all`, else those the run reports.
pub open spec fn spec_listed(located: Seq<Located>, all: bool, domains: Seq<Domain>, ledgers: Ledgers) -> Seq<Located>
    decreases located.len(),
{
    if located.len() == 0 {
        Seq::empty()
    } else {
        let front = spec_listed(located.drop_last(), all, domains, ledgers);
        if all || spec_is_reported(located.last(), domains, ledgers) { front.push(located.last()) } else { front }
    }
}

pub open spec fn reported_as(item: Located, domains: Seq<Domain>, f: ReportedFinding) -> bool {
    &&& f.path@ == item.path@
    &&& f.line == item.finding.line
    &&& f.name@ == item.finding.spec_qualified()
    &&& f.score == item.finding.score
    &&& f.language@ == item.finding.language@
    &&& f.domain@ == domains[item.domain as int].name@
}

/// Which items a run prints, text or JSON.
pub fn listed(located: &Vec<Located>, all: bool, domains: &Vec<Domain>, ledgers: &Ledgers) -> (r: Vec<Located>)
    requires
        placed_in(located@, domains@),
    ensures
        r@ == spec_listed(located@, all, domains@, *ledgers),
{
    let mut out: Vec<Located> = Vec::new();
    let mut k: usize = 0;
    while k < located.len()
        invariant
            0 <= k <= located@.len(),
            placed_in(located@, domains@),
            out@ == spec_listed(located@.subrange(0, k as int), all, domains@, *ledgers),
        decreases located@.len() - k,
    {
        proof {
            assert(located@.subrange(0, k + 1).drop_last() =~= located@.subrange(0, k as int));
        }
        if all || is_reported(&located[k], domains, ledgers) {
            out.push(located[k].copy());
        }
        k = k + 1;
    }
    assert(located@.subrange(0, located@.len() as int) =~= located@);
    out
}

pub open spec fn spec_report_thresholds(domains: Seq<Domain>) -> Seq<(Seq<char>, u32)> {
    spec_language_ids().map_values(|id: Seq<char>| (id, if domains.len() > 0 { domains[0].spec_threshold_for(id) } else { DEFAULT_THRESHOLD }))
}

/// The report of a run: thresholds as the workspace root's domain sets them, one per language
/// a user can name.
pub fn report(located: &Vec<Located>, all: bool, domains: &Vec<Domain>, ledgers: &Ledgers, breaches: usize) -> (r: Report)
    requires
        placed_in(located@, domains@),
    ensures
        r.breaches == breaches,
        r.thresholds@.map_values(|t: (String, u32)| (t.0@, t.1)) == spec_report_thresholds(domains@),
        r.findings@.len() == spec_listed(located@, all, domains@, *ledgers).len(),
        forall|i: int| 0 <= i < r.findings@.len() ==> reported_as(spec_listed(located@, all, domains@, *ledgers)[i], domains@, #[trigger] r.findings@[i]),
{
    let ids = language_ids();
    let ghost want = spec_report_thresholds(domains@);
    let mut thresholds: Vec<(String, u32)> = Vec::new();
    let mut k: usize = 0;
    while k < ids.len()
        invariant
            0 <= k <= ids@.len(),
            ids@.map_values(|e: &'static str| e@) == spec_language_ids(),
            want == spec_report_thresholds(domains@),
            thresholds@.map_values(|t: (String, u32)| (t.0@, t.1)) == want.subrange(0, k as int),
        decreases ids@.len() - k,
    {
        let id = ids[k];
        let value = if domains.len() > 0 { domains[0].threshold_for(id) } else { DEFAULT_THRESHOLD };
        let ghost before = thresholds@;
        thresholds.push((id.to_owned(), value));
        proof {
            assert(spec_language_ids()[k as int] == id@);
            assert(thresholds@.map_values(|t: (String, u32)| (t.0@, t.1)) =~= before.map_values(|t: (String, u32)| (t.0@, t.1)).push((id@, value)));
            assert(want.subrange(0, k + 1) =~= want.subrange(0, k as int).push(want[k as int]));
        }
        k = k + 1;
    }
    assert(want.subrange(0, ids@.len() as int) =~= want);
    let items = listed(located, all, domains, ledgers);
    let mut findings: Vec<ReportedFinding> = Vec::new();
    let mut j: usize = 0;
    proof {
        lemma_listed_placed(located@, all, domains@, *ledgers);
    }
    while j < items.len()
        invariant
            0 <= j <= items@.len(),
            placed_in(items@, domains@),
            findings@.len() == j,
            forall|i: int| 0 <= i < j ==> reported_as(items@[i], domains@, #[trigger] findings@[i]),
        decreases items@.len() - j,
    {
        let item = &items[j];
        findings.push(ReportedFinding {
            path: item.path.clone(),
            line: item.finding.line,
            name: item.finding.qualified_name(),
            score: item.finding.score,
            language: item.finding.language,
            domain: domains[item.domain].name.clone(),
        });
        j = j + 1;
    }
    Report { thresholds, breaches, findings }
}

proof fn lemma_listed_placed(located: Seq<Located>, all: bool, domains: Seq<Domain>, ledgers: Ledgers)
    requires
        placed_in(located, domains),
    ensures
        placed_in(spec_listed(located, all, domains, ledgers), domains),
    decreases located.len(),
{
    if located.len() > 0 {
        assert(placed_in(located.drop_last(), domains)) by {
            assert forall|i: int| 0 <= i < located.drop_last().len() implies (#[trigger] located.drop_last()[i]).domain < domains.len() by {
                assert(located.drop_last()[i] == located[i]);
            }
        }
        lemma_listed_placed(located.drop_last(), all, domains, ledgers);
        assert(located.last() == located[located.len() - 1]);
    }
}

} // verus!

verus! {

/// A run that could not read what it was pointed at never reports success: a scan with an
/// unreadable path, or with no supported file at all, is refused; any other is usable.
pub proof fn law_untrustworthy_scans_are_refused(errors: usize, files: usize, shown: Seq<Seq<char>>)
    ensures
        (errors > 0 || files == 0) <==> spec_unusable_scan(errors, files, shown) is Some,
{
}

/// With `--all` a report lists every finding, each at its real score: a marker hides a finding
/// from the verdict but never changes its number.
pub proof fn law_all_lists_every_finding(located: Seq<Located>, domains: Seq<Domain>, ledgers: Ledgers)
    ensures
        spec_listed(located, true, domains, ledgers) == located,
    decreases located.len(),
{
    if located.len() > 0 {
        law_all_lists_every_finding(located.drop_last(), domains, ledgers);
        assert(located.drop_last().push(located.last()) =~= located);
    }
}

} // verus!
