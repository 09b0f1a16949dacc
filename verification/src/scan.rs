//! What a scan accumulates, file by file, and how a file's bytes become text.
use vstd::prelude::*;
use crate::baseline::Located;
use crate::finding::{concat, Finding};
use crate::paths::{display_path, normalize_key, spec_display_path, spec_normalize_key};
use crate::policy::Workspace;
use crate::rank::{rank, ranked, stably_from};
use crate::registry::{for_path, spec_for_path, spec_is_generated, spec_language_id, Descriptor};
use crate::source::{analyze_source, source_analysis};
use crate::text::str_eq;

verus! {

/// Counts a scan keeps: files read, paths that could not be, and which domains it visited.
/// Stale baseline entries are only meaningful for visited domains.
pub struct ScanStats {
    pub files: usize,
    pub errors: usize,
    /// Visited domains, each once, in increasing order.
    pub domains: Vec<usize>,
}

/// Everything a scan found, in plan order.
pub struct ScanOutcome {
    pub located: Vec<Located>,
    pub stats: ScanStats,
    /// Paths that could not be read. Any of these makes the scan untrustworthy.
    pub errors: Vec<String>,
    /// Files that were read but not exactly as written; the scan still stands.
    pub warnings: Vec<String>,
}

/// What scoring one planned file gave: its findings, the domain it counted for once read, the
/// warnings it raised, or the error that kept it from being read.
pub struct Scored {
    pub located: Vec<Located>,
    pub domain: Option<usize>,
    pub warnings: Vec<String>,
    pub error: Option<String>,
}

pub open spec fn increasing(s: Seq<usize>) -> bool {
    forall|a: int, b: int| 0 <= a < b < s.len() ==> #[trigger] s[a] < #[trigger] s[b]
}

impl ScanStats {
    pub fn new() -> (r: ScanStats)
        ensures
            r.files == 0,
            r.errors == 0,
            r.domains@.len() == 0,
    {
        ScanStats { files: 0, errors: 0, domains: Vec::new() }
    }

    /// Marks a domain visited.
    pub fn visit(&mut self, domain: usize)
        requires
            increasing(old(self).domains@),
        ensures
            increasing(final(self).domains@),
            final(self).domains@.to_set() == old(self).domains@.to_set().insert(domain),
            final(self).files == old(self).files,
            final(self).errors == old(self).errors,
    {
        let ghost before = self.domains@;
        let n = self.domains.len();
        let mut i: usize = 0;
        while i < n && self.domains[i] < domain
            invariant
                self.domains@ == before,
                n == before.len(),
                0 <= i <= n,
                forall|k: int| 0 <= k < i ==> before[k] < domain,
            decreases n - i,
        {
            i = i + 1;
        }
        if i < n && self.domains[i] == domain {
            assert(before.to_set().insert(domain) =~= before.to_set());
            return;
        }
        self.domains.insert(i, domain);
        proof {
            let s = self.domains@;
            assert(s =~= before.insert(i as int, domain));
            assert forall|a: int, b: int| 0 <= a < b < s.len() implies #[trigger] s[a] < #[trigger] s[b] by {
                if b < i {
                    assert(s[a] == before[a]);
                    assert(s[b] == before[b]);
                } else if a < i && b == i {
                } else if a < i && b > i {
                    assert(s[b] == before[b - 1]);
                } else if a == i {
                    assert(s[b] == before[b - 1]);
                    if b - 1 > i {
                        assert(before[i as int] < before[b - 1]);
                    }
                } else {
                    assert(s[a] == before[a - 1]);
                    assert(s[b] == before[b - 1]);
                }
            }
            assert forall|x: usize| s.to_set().contains(x) <==> before.to_set().insert(domain).contains(x) by {
                if s.contains(x) {
                    let k = choose|k: int| 0 <= k < s.len() && s[k] == x;
                    if k < i {
                        assert(before[k] == x);
                    } else if k > i {
                        assert(before[k - 1] == x);
                    }
                }
                if before.contains(x) {
                    let k = choose|k: int| 0 <= k < before.len() && before[k] == x;
                    if k < i {
                        assert(s[k] == x);
                    } else {
                        assert(s[k + 1] == x);
                    }
                }
                if x == domain {
                    assert(s[i as int] == x);
                }
            }
            assert(s.to_set() =~= before.to_set().insert(domain));
        }
    }
}

impl ScanOutcome {
    pub fn new() -> (r: ScanOutcome)
        ensures
            r.located@.len() == 0,
            r.stats.files == 0,
            r.stats.errors == 0,
            r.stats.domains@.len() == 0,
            r.errors@.len() == 0,
            r.warnings@.len() == 0,
    {
        ScanOutcome { located: Vec::new(), stats: ScanStats::new(), errors: Vec::new(), warnings: Vec::new() }
    }
}

/// Replays one file's result into the outcome: warnings always; then either the error, which
/// counts against the scan, or the file, its domain and its findings.
pub fn absorb(scored: Scored, outcome: &mut ScanOutcome)
    requires
        increasing(old(outcome).stats.domains@),
        old(outcome).stats.files < usize::MAX,
        old(outcome).stats.errors < usize::MAX,
    ensures
        increasing(final(outcome).stats.domains@),
        final(outcome).warnings@ == old(outcome).warnings@ + scored.warnings@,
        match scored.error {
            Some(m) => {
                &&& final(outcome).errors@ == old(outcome).errors@.push(m)
                &&& final(outcome).stats.errors == old(outcome).stats.errors + 1
                &&& final(outcome).stats.files == old(outcome).stats.files
                &&& final(outcome).stats.domains@ == old(outcome).stats.domains@
                &&& final(outcome).located@ == old(outcome).located@
            },
            None => {
                &&& final(outcome).errors@ == old(outcome).errors@
                &&& final(outcome).stats.errors == old(outcome).stats.errors
                &&& final(outcome).located@ == old(outcome).located@ + scored.located@
                &&& match scored.domain {
                    Some(d) => final(outcome).stats.files == old(outcome).stats.files + 1
                        && final(outcome).stats.domains@.to_set() == old(outcome).stats.domains@.to_set().insert(d),
                    None => final(outcome).stats.files == old(outcome).stats.files
                        && final(outcome).stats.domains@ == old(outcome).stats.domains@,
                }
            },
        },
{
    let Scored { mut located, domain, mut warnings, error } = scored;
    outcome.warnings.append(&mut warnings);
    match error {
        Some(m) => {
            outcome.errors.push(m);
            outcome.stats.errors = outcome.stats.errors + 1;
        },
        None => {
            match domain {
                Some(d) => {
                    outcome.stats.files = outcome.stats.files + 1;
                    outcome.stats.visit(d);
                },
                None => {},
            }
            outcome.located.append(&mut located);
        },
    }
}

/// What `String::from_utf8_lossy` makes of bytes: each maximal invalid sequence replaced by
/// U+FFFD.
pub uninterp spec fn lossy(bytes: Seq<u8>) -> Seq<char>;

/// `String::from_utf8_lossy`, owned.
#[verifier::external_body]
fn from_utf8_lossy(bytes: &[u8]) -> (r: String)
    ensures
        r@ == lossy(bytes@),
{
    String::from_utf8_lossy(bytes).into_owned()
}

/// The text a file's bytes decode to: exactly, when they are UTF-8, else leniently.
pub open spec fn decoded(bytes: Seq<u8>) -> Seq<char> {
    if vstd::utf8::valid_utf8(bytes) { vstd::utf8::decode_utf8(bytes) } else { lossy(bytes) }
}

/// The warning a file shown as `shown` earns when its bytes are not UTF-8.
pub open spec fn decode_warning(shown: Seq<char>) -> Seq<char> {
    shown + ": not valid UTF-8, undecodable bytes were replaced"@
}

/// Legacy Latin-1 sources still parse: their replaced bytes sit in strings and comments, which
/// do not score, so the file is decoded leniently and the loss reported.
pub fn decode(bytes: Vec<u8>, path: &str, warnings: &mut Vec<String>) -> (r: String)
    ensures
        vstd::utf8::valid_utf8(bytes@) ==> r@ == vstd::utf8::decode_utf8(bytes@) && final(warnings)@ == old(warnings)@,
        !vstd::utf8::valid_utf8(bytes@) ==> r@ == lossy(bytes@) && final(warnings)@.len() == old(warnings)@.len() + 1
            && final(warnings)@.subrange(0, old(warnings)@.len() as int) == old(warnings)@
            && final(warnings)@.last()@ == path@ + ": not valid UTF-8, undecodable bytes were replaced"@,
{
    match crate::text::string_from_utf8(bytes.as_slice()) {
        Some(s) => s,
        None => {
            let message = crate::finding::concat(path, ": not valid UTF-8, undecodable bytes were replaced");
            let ghost before = warnings@;
            warnings.push(message);
            assert(warnings@.subrange(0, before.len() as int) =~= before);
            from_utf8_lossy(bytes.as_slice())
        },
    }
}


/// One file a scan will read: where to read it, how to show it, what to key its findings by,
/// the domain it counts for, the descriptor that scores it, and whether its top level scores.
pub struct Job {
    pub path: String,
    pub shown: String,
    pub key_path: String,
    pub domain: usize,
    pub descriptor: Descriptor,
    pub toplevel: bool,
}

/// A path the walk could not reach keeps its place in the list, so diagnostics stay in walk
/// order however the files around it were scored.
pub enum Planned {
    Unreadable(String),
    Read(Job),
}

pub open spec fn names_language(ids: Seq<String>, id: Seq<char>) -> bool {
    exists|k: int| 0 <= k < ids.len() && (#[trigger] ids[k])@ == id
}

/// What planning makes of a file the walk found at `path`, whose resolved form is `absolute`:
/// nothing for a file no language reads, one outside the languages asked for, one already
/// planned, or one the workspace excludes; else the job, keyed and shown as its domain wants.
pub open spec fn planned_job(ws: &Workspace, languages: Option<Seq<String>>, seen: Seq<String>, path: Seq<char>, absolute: Seq<char>, r: Option<Job>) -> bool {
    match spec_for_path(path) {
        None => r is None,
        Some(d) => {
            if languages matches Some(ids) && !names_language(ids, spec_language_id(d)) {
                r is None
            } else if seen.map_values(|s: String| s@).contains(absolute) || ws.spec_is_excluded(absolute) {
                r is None
            } else {
                let index = ws.spec_domain_for(absolute);
                let domain = ws.domains@[index];
                r matches Some(job) && {
                    &&& job.path@ == path
                    &&& job.shown@ == spec_display_path(path)
                    &&& job.key_path@ == spec_normalize_key(absolute, domain.root@)
                    &&& job.domain == index
                    &&& job.descriptor == d
                    &&& job.toplevel == domain.toplevel
                }
            }
        },
    }
}

/// Plans one file. `bonsai-lint src src/a.php` names `a.php` twice and must report it once, so
/// every resolved path a language reads is remembered in `seen`, excluded or not.
pub fn job(ws: &Workspace, languages: Option<&Vec<String>>, seen: &mut Vec<String>, path: &str, absolute: &str) -> (r: Option<Job>)
    requires
        ws.domains@.len() > 0,
    ensures
        planned_job(ws, match languages { Some(v) => Some(v@), None => None }, old(seen)@, path@, absolute@, r),
        match spec_for_path(path@) {
            Some(d) if !(languages matches Some(ids) && !names_language(ids@, spec_language_id(d)))
                && !old(seen)@.map_values(|s: String| s@).contains(absolute@) => final(seen)@.map_values(|s: String| s@) == old(seen)@.map_values(|s: String| s@).push(absolute@),
            _ => final(seen)@ == old(seen)@,
        },
{
    let d = match for_path(path) {
        Some(d) => d,
        None => return None,
    };
    let id = d.language_id();
    match languages {
        Some(ids) => {
            let mut wanted = false;
            let mut k: usize = 0;
            while k < ids.len()
                invariant
                    0 <= k <= ids@.len(),
                    wanted == exists|m: int| 0 <= m < k && (#[trigger] ids@[m])@ == id@,
                decreases ids@.len() - k,
            {
                if str_eq(ids[k].as_str(), id) {
                    wanted = true;
                }
                k = k + 1;
            }
            if !wanted {
                return None;
            }
        },
        None => {},
    }
    let ghost before = seen@;
    let mut known = false;
    let mut k: usize = 0;
    while k < seen.len()
        invariant
            seen@ == before,
            0 <= k <= seen@.len(),
            known == exists|m: int| 0 <= m < k && (#[trigger] seen@[m])@ == absolute@,
        decreases seen@.len() - k,
    {
        if str_eq(seen[k].as_str(), absolute) {
            known = true;
        }
        k = k + 1;
    }
    proof {
        let vs = before.map_values(|s: String| s@);
        if vs.contains(absolute@) {
            let m = choose|m: int| 0 <= m < vs.len() && vs[m] == absolute@;
            assert(before[m]@ == absolute@);
        }
        if known {
            let m = choose|m: int| 0 <= m < before.len() && (#[trigger] before[m])@ == absolute@;
            assert(vs[m] == absolute@);
        }
    }
    if known {
        return None;
    }
    seen.push(absolute.to_owned());
    assert(seen@.map_values(|s: String| s@) =~= before.map_values(|s: String| s@).push(absolute@));
    if ws.is_excluded(absolute) {
        return None;
    }
    let index = ws.domain_for(absolute);
    let domain = &ws.domains[index];
    Some(Job {
        path: path.to_owned(),
        shown: display_path(path),
        key_path: normalize_key(absolute, domain.root.as_str()),
        domain: index,
        descriptor: d,
        toplevel: domain.toplevel,
    })
}

impl Scored {
    /// What a path the walk could not reach scores: its error, nothing else.
    pub fn failed(message: String) -> (r: Scored)
        ensures
            r.error == Some(message),
            r.located@.len() == 0,
            r.domain is None,
            r.warnings@.len() == 0,
    {
        Scored { located: Vec::new(), domain: None, warnings: Vec::new(), error: Some(message) }
    }
}

/// `located` is `findings`, each placed at the job's shown path, key and domain, in order.
pub open spec fn placed(located: Seq<Located>, findings: Seq<Finding>, job: &Job) -> bool {
    &&& located.len() == findings.len()
    &&& forall|i: int| 0 <= i < located.len() ==> {
        &&& (#[trigger] located[i]).finding == findings[i]
        &&& located[i].path@ == job.shown@
        &&& located[i].key_path@ == job.key_path@
        &&& located[i].domain == job.domain
    }
}

/// Scores a planned file from what reading it gave: the bytes, or the reason they could not be
/// had, which fails the file under the name it is shown by. The bytes are decoded, leniently
/// and with a warning where they are not UTF-8. A machine-written file, by its language's own
/// convention, is neither scored nor counted. Any other counts for its domain, and each finding
/// of its analysis is placed at the file's shown path and key.
#[verifier::spinoff_prover]
#[verifier::rlimit(40)]
pub fn score_job(job: &Job, read: Result<Vec<u8>, String>) -> (r: Scored)
    ensures
        match read {
            Err(e) => r.error matches Some(m) && m@ == job.shown@ + ": "@ + e@
                && r.located@.len() == 0 && r.domain is None && r.warnings@.len() == 0,
            Ok(bytes) => {
                &&& r.error is None
                &&& if spec_is_generated(job.descriptor, decoded(bytes@)) {
                    r.located@.len() == 0 && r.domain is None && r.warnings@.len() == 0
                } else {
                    &&& r.domain == Some(job.domain)
                    &&& exists|fs: Seq<Finding>| #[trigger] source_analysis(job.descriptor, decoded(bytes@), job.toplevel, fs)
                        && placed(r.located@, fs, job)
                    &&& !vstd::utf8::valid_utf8(bytes@) ==> r.warnings@.len() >= 1 && r.warnings@[0]@ == decode_warning(job.shown@)
                    &&& job.descriptor != Descriptor::Vue ==> r.warnings@.len()
                        == if vstd::utf8::valid_utf8(bytes@) { 0int } else { 1int }
                }
            },
        },
{
    match read {
        Err(e) => {
            let head = concat(job.shown.as_str(), ": ");
            let message = concat(head.as_str(), e.as_str());
            assert(message@ == job.shown@ + ": "@ + e@);
            Scored::failed(message)
        },
        Ok(bytes) => {
            let ghost raw = bytes@;
            let mut warnings: Vec<String> = Vec::new();
            let source = decode(bytes, job.shown.as_str(), &mut warnings);
            if job.descriptor.is_generated(source.as_str()) {
                return Scored { located: Vec::new(), domain: None, warnings: Vec::new(), error: None };
            }
            let ghost first = warnings@;
            let findings = analyze_source(job.descriptor, source.as_str(), job.toplevel, job.shown.as_str(), &mut warnings);
            let ghost fs = findings@;
            let located = place(findings, job);
            proof {
                assert(placed(located@, fs, job));
                if !vstd::utf8::valid_utf8(raw) {
                    assert(warnings@[0] == first[0]);
                }
            }
            Scored { located, domain: Some(job.domain), warnings, error: None }
        },
    }
}

/// Each finding placed at the job's shown path, key and domain, in order.
pub fn place(findings: Vec<Finding>, job: &Job) -> (r: Vec<Located>)
    ensures
        r@.len() == findings@.len(),
        forall|i: int| 0 <= i < r@.len() ==> {
            &&& (#[trigger] r@[i]).finding == findings@[i]
            &&& r@[i].path@ == job.shown@
            &&& r@[i].key_path@ == job.key_path@
            &&& r@[i].domain == job.domain
        },
{
    let mut out: Vec<Located> = Vec::new();
    let mut rest = findings;
    let ghost all = rest@;
    let n: usize = rest.len();
    let mut k: usize = 0;
    while rest.len() > 0
        invariant
            k + rest@.len() == all.len(),
            all.len() == n,
            rest@ == all.subrange(k as int, all.len() as int),
            out@.len() == k,
            forall|i: int| 0 <= i < k ==> {
                &&& (#[trigger] out@[i]).finding == all[i]
                &&& out@[i].path@ == job.shown@
                &&& out@[i].key_path@ == job.key_path@
                &&& out@[i].domain == job.domain
            },
        decreases rest@.len(),
    {
        let f = rest.remove(0);
        assert(rest@ =~= all.subrange(k + 1, all.len() as int));
        out.push(Located { path: job.shown.clone(), key_path: job.key_path.clone(), domain: job.domain, finding: f });
        k = k + 1;
    }
    out
}


/// What replaying `s` in order into an empty outcome accumulates: errors, warnings, findings,
/// files read, the error count, and the domains visited.
pub open spec fn replay(s: Seq<Scored>) -> (Seq<String>, Seq<String>, Seq<Located>, nat, nat, Set<usize>)
    decreases s.len(),
{
    if s.len() == 0 {
        (Seq::empty(), Seq::empty(), Seq::empty(), 0, 0, Set::empty())
    } else {
        let (errors, warnings, located, files, count, domains) = replay(s.drop_last());
        let last = s.last();
        let warnings = warnings + last.warnings@;
        match last.error {
            Some(m) => (errors.push(m), warnings, located, files, count + 1, domains),
            None => match last.domain {
                Some(d) => (errors, warnings, located + last.located@, files + 1, count, domains.insert(d)),
                None => (errors, warnings, located + last.located@, files, count, domains),
            },
        }
    }
}

proof fn lemma_replay_counts(s: Seq<Scored>)
    ensures
        replay(s).3 + replay(s).4 <= s.len(),
    decreases s.len(),
{
    if s.len() > 0 {
        lemma_replay_counts(s.drop_last());
    }
}

/// The files of a scan, scored in any order but handed over in plan order, replayed into one
/// outcome: what a run prints does not depend on which worker finished first. The findings come
/// out ranked.
pub fn gather(scored: Vec<Scored>) -> (r: ScanOutcome)
    ensures
        r.errors@ == replay(scored@).0,
        r.warnings@ == replay(scored@).1,
        r.located@.to_multiset() == replay(scored@).2.to_multiset(),
        ranked(r.located@),
        exists|pos: Seq<int>| #[trigger] stably_from(replay(scored@).2, r.located@, pos),
        r.stats.files == replay(scored@).3,
        r.stats.errors == replay(scored@).4,
        r.stats.domains@.to_set() == replay(scored@).5,
        increasing(r.stats.domains@),
{
    let ghost all = scored@;
    let n = scored.len();
    let mut pending = scored;
    let mut reversed: Vec<Scored> = Vec::new();
    while pending.len() > 0
        invariant
            pending@.len() + reversed@.len() == n,
            n == all.len(),
            pending@ == all.subrange(0, pending@.len() as int),
            forall|i: int| 0 <= i < reversed@.len() ==> #[trigger] reversed@[i] == all[n - 1 - i],
        decreases pending@.len(),
    {
        let x = pending.pop().unwrap();
        reversed.push(x);
    }
    let mut outcome = ScanOutcome::new();
    let mut k: usize = 0;
    while reversed.len() > 0
        invariant
            k + reversed@.len() == n,
            n == all.len(),
            forall|i: int| 0 <= i < reversed@.len() ==> #[trigger] reversed@[i] == all[n - 1 - i],
            increasing(outcome.stats.domains@),
            outcome.errors@ == replay(all.subrange(0, k as int)).0,
            outcome.warnings@ == replay(all.subrange(0, k as int)).1,
            outcome.located@ == replay(all.subrange(0, k as int)).2,
            outcome.stats.files == replay(all.subrange(0, k as int)).3,
            outcome.stats.errors == replay(all.subrange(0, k as int)).4,
            outcome.stats.domains@.to_set() == replay(all.subrange(0, k as int)).5,
        decreases reversed@.len(),
    {
        let ghost len = reversed@.len();
        let x = reversed.pop().unwrap();
        proof {
            assert(x == reversed@.push(x)[len - 1]);
            assert(x == all[k as int]);
            assert(all.subrange(0, k + 1).drop_last() =~= all.subrange(0, k as int));
            lemma_replay_counts(all.subrange(0, k as int));
        }
        absorb(x, &mut outcome);
        k = k + 1;
    }
    assert(all.subrange(0, n as int) =~= all);
    rank(&mut outcome.located);
    outcome
}


/// The value of the last pair in `pairs` from position `m` on that is indexed `k`.
pub open spec fn last_at<R>(pairs: Seq<(usize, R)>, k: usize, m: int) -> Option<R>
    decreases pairs.len() - m,
{
    if m < 0 || m >= pairs.len() {
        None
    } else {
        match last_at(pairs, k, m + 1) {
            Some(v) => Some(v),
            None => if pairs[m].0 == k { Some(pairs[m].1) } else { None },
        }
    }
}

/// Some pair of `pairs` holds a result for index `k`.
pub open spec fn indexed<R>(pairs: Seq<(usize, R)>, k: usize) -> bool {
    exists|i: int| 0 <= i < pairs.len() && (#[trigger] pairs[i]).0 == k
}

/// Results come back in item order whatever order the workers finished in: `pairs` holds each
/// result with the index of its item, at least one for every index below `len`, and they come
/// back in index order, the last result given for an index winning.
pub fn order<R>(pairs: Vec<(usize, R)>, len: usize) -> (r: Vec<R>)
    requires
        forall|i: int| 0 <= i < pairs@.len() ==> (#[trigger] pairs@[i]).0 < len,
        forall|k: usize| k < len ==> #[trigger] indexed(pairs@, k),
    ensures
        r@.len() == len,
        forall|k: int| 0 <= k < len ==> Some(#[trigger] r@[k]) == last_at(pairs@, k as usize, 0),
{
    let ghost all = pairs@;
    let mut slots: Vec<Option<R>> = Vec::new();
    let mut k: usize = 0;
    while k < len
        invariant
            0 <= k <= len,
            slots@.len() == k,
            forall|j: int| 0 <= j < k ==> slots@[j] is None,
        decreases len - k,
    {
        slots.push(None);
        k = k + 1;
    }
    let mut rest = pairs;
    while rest.len() > 0
        invariant
            rest@ == all.subrange(0, rest@.len() as int),
            rest@.len() <= all.len(),
            forall|i: int| 0 <= i < all.len() ==> (#[trigger] all[i]).0 < len,
            slots@.len() == len,
            forall|j: int| 0 <= j < len ==> #[trigger] slots@[j] == last_at(all, j as usize, rest@.len() as int),
        decreases rest@.len(),
    {
        let ghost m = rest@.len() - 1;
        let (index, value) = rest.pop().unwrap();
        proof {
            assert(all[m] == (index, value));
        }
        let empty = slots[index].is_none();
        if empty {
            slots.set(index, Some(value));
        }
        proof {
            assert forall|j: int| 0 <= j < len implies #[trigger] slots@[j] == last_at(all, j as usize, m) by {
                assert(last_at(all, j as usize, m) == match last_at(all, j as usize, m + 1) {
                    Some(v) => Some(v),
                    None => if all[m].0 == j as usize { Some(all[m].1) } else { None },
                });
            }
        }
    }
    let mut reversed: Vec<R> = Vec::new();
    let ghost full = slots@;
    assert(rest@.len() == 0);
    while slots.len() > 0
        invariant
            slots@ == full.subrange(0, slots@.len() as int),
            all == pairs@,
            forall|k: usize| k < len ==> #[trigger] indexed(all, k),
            full.len() == len,
            forall|j: int| 0 <= j < len ==> #[trigger] full[j] == last_at(all, j as usize, 0),
            reversed@.len() + slots@.len() == len,
            forall|j: int| 0 <= j < reversed@.len() ==> Some(#[trigger] reversed@[j]) == full[len - 1 - j],
            forall|j: int| slots@.len() <= j < len ==> (#[trigger] full[j]) is Some,
        decreases slots@.len(),
    {
        let ghost at = slots@.len() - 1;
        match slots.pop().unwrap() {
            Some(v) => {
                proof {
                    assert(full[at] == Some(v));
                }
                reversed.push(v);
            },
            None => {
                proof {
                    assert(full[at] is None);
                    assert(last_at(all, at as usize, 0) is None);
                    assert((at as usize) < len);
                    assert(indexed(all, at as usize));
                    let i = choose|i: int| 0 <= i < all.len() && (#[trigger] all[i]).0 == at as usize;
                    lemma_last_at_found(all, at as usize, 0, i);
                }
                return Vec::new();
            },
        }
    }
    let mut out: Vec<R> = Vec::new();
    while reversed.len() > 0
        invariant
            full.len() == len,
            forall|j: int| 0 <= j < len ==> #[trigger] full[j] == last_at(all, j as usize, 0),
            out@.len() + reversed@.len() == len,
            forall|j: int| 0 <= j < reversed@.len() ==> Some(#[trigger] reversed@[j]) == full[len - 1 - j],
            forall|j: int| 0 <= j < out@.len() ==> Some(#[trigger] out@[j]) == full[j],
        decreases reversed@.len(),
    {
        let ghost at = reversed@.len() - 1;
        let v = reversed.pop().unwrap();
        proof {
            assert(Some(v) == full[len - 1 - at]);
        }
        out.push(v);
    }
    out
}

proof fn lemma_last_at_found<R>(pairs: Seq<(usize, R)>, k: usize, m: int, i: int)
    requires
        0 <= m <= i < pairs.len(),
        pairs[i].0 == k,
    ensures
        last_at(pairs, k, m) is Some,
    decreases i - m,
{
    if m < i {
        lemma_last_at_found(pairs, k, m + 1, i);
    }
}

proof fn lemma_last_at_source<R>(pairs: Seq<(usize, R)>, k: usize, m: int)
    requires
        0 <= m,
    ensures
        last_at(pairs, k, m) matches Some(x) ==> exists|j: int| m <= j < pairs.len() && #[trigger] pairs[j] == (k, x),
    decreases pairs.len() - m,
{
    if m < pairs.len() {
        lemma_last_at_source(pairs, k, m + 1);
        if last_at(pairs, k, m + 1) is None && pairs[m].0 == k {
            assert(pairs[m] == (k, pairs[m].1));
        }
    }
}

/// However the workers interleave, the results come back the same: two hand-overs holding the
/// same results, with one result for each index, give every index the same result, so
/// [`order`] gives the same list for both.
pub proof fn law_order_ignores_finishing_order<R>(a: Seq<(usize, R)>, b: Seq<(usize, R)>, len: usize)
    requires
        a.to_multiset() == b.to_multiset(),
        forall|i: int, j: int| 0 <= i < a.len() && 0 <= j < a.len() && (#[trigger] a[i]).0 == (#[trigger] a[j]).0 ==> i == j,
        forall|k: usize| k < len ==> #[trigger] indexed(a, k),
    ensures
        forall|k: usize| k < len ==> #[trigger] last_at(a, k, 0) == last_at(b, k, 0),
{
    broadcast use vstd::seq_lib::to_multiset_contains;
    assert forall|k: usize| k < len implies #[trigger] last_at(a, k, 0) == last_at(b, k, 0) by {
        assert(indexed(a, k));
        let i = choose|i: int| 0 <= i < a.len() && (#[trigger] a[i]).0 == k;
        let v = a[i].1;
        lemma_last_at_found(a, k, 0, i);
        lemma_last_at_source(a, k, 0);
        let ja = choose|j: int| 0 <= j < a.len() && #[trigger] a[j] == (k, last_at(a, k, 0).unwrap());
        assert(ja == i);
        assert(a.contains(a[i]));
        assert(a.to_multiset().count(a[i]) > 0);
        assert(b.to_multiset().count(a[i]) > 0);
        assert(b.contains(a[i]));
        let jb = choose|j: int| 0 <= j < b.len() && b[j] == a[i];
        lemma_last_at_found(b, k, 0, jb);
        lemma_last_at_source(b, k, 0);
        let x = last_at(b, k, 0).unwrap();
        let jx = choose|j: int| 0 <= j < b.len() && #[trigger] b[j] == (k, x);
        assert(b.contains(b[jx]));
        assert(b.to_multiset().count(b[jx]) > 0);
        assert(a.to_multiset().count(b[jx]) > 0);
        assert(a.contains(b[jx]));
        let ix = choose|j: int| 0 <= j < a.len() && a[j] == b[jx];
        assert(ix == i);
    }
}

/// How many workers a scan of `files` files starts: the count asked for, else one per core of
/// the machine, but never more files than there are, nor more than four per core, since past
/// that spawning costs more than it returns; and at least one.
pub open spec fn spec_workers(files: usize, asked: Option<usize>, machine: usize) -> usize {
    let wanted = match asked { Some(a) => a, None => machine };
    let ceiling = if machine * 4 > usize::MAX { usize::MAX } else { (machine * 4) as usize };
    let n = if files < wanted { files } else { wanted };
    let n = if n < ceiling { n } else { ceiling };
    if n == 0 { 1 } else { n }
}

pub fn workers(files: usize, asked: Option<usize>, machine: usize) -> (r: usize)
    ensures
        r == spec_workers(files, asked, machine),
        r >= 1,
{
    let wanted = match asked {
        Some(a) => a,
        None => machine,
    };
    let ceiling = if machine <= usize::MAX / 4 { machine * 4 } else { usize::MAX };
    let n = if files < wanted { files } else { wanted };
    let n = if n < ceiling { n } else { ceiling };
    if n == 0 { 1 } else { n }
}

} // verus!
