//! Configuration turned into policy: domains, their thresholds, what they exclude. Domains are
//! declared by glob at the workspace root, so a stray config cannot create one nobody
//! sanctioned and the whole policy stays readable in one place.
use vstd::prelude::*;
use crate::finding::{concat, opt_view};
use crate::java_names::join;
use crate::paths::{is_prefix, relative, spec_relative, spec_within, within};
use crate::registry::{segments, segments_of, views};
use crate::text::{chars_of, contains, contains_lit, one_edit, one_edit_apart, str_eq, string_from};

verus! {

pub const CONFIG_FILE: &'static str = "bonsai-lint.toml";
pub const BASELINE_FILE: &'static str = ".bonsai-lint-baseline.json";
pub const DEFAULT_THRESHOLD: u32 = 15;

/// One `[language]` section of a config.
#[derive(Clone, Copy, Debug, PartialEq, Eq, Structural)]
pub struct LanguageSection {
    pub threshold: Option<u32>,
}

/// What one `bonsai-lint.toml` says. Anything but the known keys is a language section.
pub struct ConfigFile {
    pub name: Option<String>,
    pub domains: Option<Vec<String>>,
    pub threshold: Option<u32>,
    pub exclude: Option<Vec<String>>,
    pub toplevel: Option<bool>,
    pub baseline: Option<String>,
    /// In key order, each language once.
    pub languages: Vec<(String, LanguageSection)>,
}

impl ConfigFile {
    /// A config that says nothing.
    pub fn empty() -> (r: ConfigFile)
        ensures
            r.name is None,
            r.domains is None,
            r.threshold is None,
            r.exclude is None,
            r.toplevel is None,
            r.baseline is None,
            r.languages@.len() == 0,
    {
        ConfigFile { name: None, domains: None, threshold: None, exclude: None, toplevel: None, baseline: None, languages: Vec::new() }
    }
}

/// The threshold a config's section for `language` sets, if it has one.
pub open spec fn section_from(sections: Seq<(String, LanguageSection)>, language: Seq<char>, k: int) -> Option<u32>
    decreases sections.len() - k,
{
    if k < 0 || k >= sections.len() {
        None
    } else if sections[k].0@ == language {
        sections[k].1.threshold
    } else {
        section_from(sections, language, k + 1)
    }
}

pub open spec fn section_threshold(c: ConfigFile, language: Seq<char>) -> Option<u32> {
    section_from(c.languages@, language, 0)
}

fn section_threshold_exec(c: &ConfigFile, language: &str) -> (r: Option<u32>)
    ensures
        r == section_threshold(*c, language@),
{
    let mut k: usize = 0;
    while k < c.languages.len()
        invariant
            0 <= k <= c.languages@.len(),
            section_threshold(*c, language@) == section_from(c.languages@, language@, k as int),
        decreases c.languages@.len() - k,
    {
        if str_eq(c.languages[k].0.as_str(), language) {
            return c.languages[k].1.threshold;
        }
        k = k + 1;
    }
    None
}

pub open spec fn or_else<T>(a: Option<T>, b: Option<T>) -> Option<T> {
    if a is Some { a } else { b }
}

pub open spec fn or_default<T>(a: Option<T>, d: T) -> T {
    match a {
        Some(x) => x,
        None => d,
    }
}

/// Precedence runs nearest-and-most-specific first: the domain's own language section, then
/// its general threshold, then the root's language section, then the root's general threshold.
pub open spec fn language_threshold(own: ConfigFile, root: ConfigFile, language: Seq<char>) -> u32 {
    or_default(or_else(or_else(or_else(section_threshold(own, language), own.threshold), section_threshold(root, language)), root.threshold), DEFAULT_THRESHOLD)
}

/// A directory joined with a path, as `Path::join` does: an absolute path replaces it.
pub open spec fn spec_join_path(dir: Seq<char>, path: Seq<char>) -> Seq<char> {
    if path.len() > 0 && path[0] == '/' {
        path
    } else if dir.len() == 0 {
        path
    } else if dir.last() == '/' {
        dir + path
    } else {
        dir + seq!['/'] + path
    }
}

pub fn join_path(dir: &str, path: &str) -> (r: String)
    ensures
        r@ == spec_join_path(dir@, path@),
{
    let p = chars_of(path);
    let d = chars_of(dir);
    if p.len() > 0 && p[0] == '/' {
        return path.to_owned();
    }
    if d.len() == 0 {
        return path.to_owned();
    }
    if d[d.len() - 1] == '/' {
        concat(dir, path)
    } else {
        let head = concat(dir, "/");
        proof {
            reveal_strlit("/");
        }
        let r = concat(head.as_str(), path);
        assert(r@ =~= dir@ + seq!['/'] + path@);
        r
    }
}

/// A domain: the subtree a team owns, with its own thresholds and baseline.
pub struct Domain {
    pub name: String,
    pub root: String,
    pub threshold: u32,
    /// Each language once.
    pub language_thresholds: Vec<(String, u32)>,
    pub toplevel: bool,
    pub baseline: String,
    /// Matched against paths relative to this domain's root.
    pub exclude: Vec<String>,
}

pub open spec fn lookup_threshold(ts: Seq<(String, u32)>, language: Seq<char>, k: int) -> Option<u32>
    decreases ts.len() - k,
{
    if k < 0 || k >= ts.len() {
        None
    } else if ts[k].0@ == language {
        Some(ts[k].1)
    } else {
        lookup_threshold(ts, language, k + 1)
    }
}

impl Domain {
    pub open spec fn spec_threshold_for(&self, language: Seq<char>) -> u32 {
        or_default(lookup_threshold(self.language_thresholds@, language, 0), self.threshold)
    }

    /// The language's own threshold, else the domain's.
    pub fn threshold_for(&self, language: &str) -> (r: u32)
        ensures
            r == self.spec_threshold_for(language@),
    {
        let mut k: usize = 0;
        while k < self.language_thresholds.len()
            invariant
                0 <= k <= self.language_thresholds@.len(),
                lookup_threshold(self.language_thresholds@, language@, 0) == lookup_threshold(self.language_thresholds@, language@, k as int),
            decreases self.language_thresholds@.len() - k,
        {
            if str_eq(self.language_thresholds[k].0.as_str(), language) {
                return self.language_thresholds[k].1;
            }
            k = k + 1;
        }
        self.threshold
    }

    /// Some entry of the domain's own per-language thresholds is for `language`.
    pub open spec fn has_language_entry(&self, language: Seq<char>) -> bool {
        exists|m: int| 0 <= m < self.language_thresholds@.len() && (#[trigger] self.language_thresholds@[m]).0@ == language
    }

    /// Sets a language's threshold, replacing what it had.
    pub fn set_language_threshold(&mut self, language: String, threshold: u32)
        ensures
            final(self).spec_threshold_for(language@) == threshold,
            forall|other: Seq<char>| other != language@ ==> #[trigger] final(self).spec_threshold_for(other) == old(self).spec_threshold_for(other),
            forall|j: int| 0 <= j < final(self).language_thresholds@.len() ==> (#[trigger] final(self).language_thresholds@[j]).0@ == language@
                || old(self).has_language_entry(final(self).language_thresholds@[j].0@),
            final(self).threshold == old(self).threshold,
            final(self).toplevel == old(self).toplevel,
            final(self).name == old(self).name,
            final(self).root == old(self).root,
            final(self).baseline == old(self).baseline,
            final(self).exclude == old(self).exclude,
    {
        let ghost ts = self.language_thresholds@;
        let mut k: usize = 0;
        while k < self.language_thresholds.len()
            invariant
                self.language_thresholds@ == ts,
                ts == old(self).language_thresholds@,
                self.threshold == old(self).threshold,
                self.toplevel == old(self).toplevel,
                self.name == old(self).name,
                self.root == old(self).root,
                self.baseline == old(self).baseline,
                self.exclude == old(self).exclude,
                0 <= k <= ts.len(),
                forall|m: int| 0 <= m < k ==> (#[trigger] ts[m]).0@ != language@,
            decreases ts.len() - k,
        {
            if str_eq(self.language_thresholds[k].0.as_str(), language.as_str()) {
                let ghost l = language@;
                self.language_thresholds.set(k, (language, threshold));
                proof {
                    let ns = self.language_thresholds@;
                    assert forall|j: int| 0 <= j < ns.len() && j != k implies old(self).has_language_entry((#[trigger] ns[j]).0@) by {
                        assert(ts[j] == ns[j]);
                    }
                    lemma_lookup_threshold_prefix(ts, l, k as int);
                    lemma_lookup_threshold_prefix(ns, l, k as int);
                    assert forall|other: Seq<char>| other != l implies #[trigger] lookup_threshold(ns, other, 0) == lookup_threshold(ts, other, 0) by {
                        lemma_lookup_threshold_same(ts, ns, other, k as int);
                    }
                }
                return;
            }
            k = k + 1;
        }
        let ghost l = language@;
        self.language_thresholds.push((language, threshold));
        proof {
            let ns = self.language_thresholds@;
            assert forall|j: int| 0 <= j < ts.len() implies old(self).has_language_entry((#[trigger] ns[j]).0@) by {
                assert(ts[j] == ns[j]);
            }
            lemma_lookup_threshold_prefix(ns, l, ts.len() as int);
            assert forall|other: Seq<char>| other != l implies #[trigger] lookup_threshold(ns, other, 0) == lookup_threshold(ts, other, 0) by {
                lemma_lookup_threshold_push(ts, ns, other, 0);
            }
        }
    }
}

proof fn lemma_lookup_threshold_prefix(ts: Seq<(String, u32)>, l: Seq<char>, k: int)
    requires
        0 <= k < ts.len(),
        ts[k].0@ == l,
        forall|m: int| 0 <= m < k ==> (#[trigger] ts[m]).0@ != l,
    ensures
        lookup_threshold(ts, l, 0) == Some(ts[k].1),
{
    lemma_lookup_threshold_skip(ts, l, 0, k);
}

proof fn lemma_lookup_threshold_skip(ts: Seq<(String, u32)>, l: Seq<char>, j: int, k: int)
    requires
        0 <= j <= k < ts.len(),
        ts[k].0@ == l,
        forall|m: int| 0 <= m < k ==> (#[trigger] ts[m]).0@ != l,
    ensures
        lookup_threshold(ts, l, j) == Some(ts[k].1),
    decreases k - j,
{
    if j < k {
        lemma_lookup_threshold_skip(ts, l, j + 1, k);
    }
}

proof fn lemma_lookup_threshold_same(ts: Seq<(String, u32)>, ns: Seq<(String, u32)>, other: Seq<char>, k: int)
    requires
        ts.len() == ns.len(),
        0 <= k < ts.len(),
        ts[k].0@ == ns[k].0@,
        ts[k].0@ != other,
        forall|m: int| 0 <= m < ts.len() && m != k ==> ts[m] == ns[m],
    ensures
        lookup_threshold(ns, other, 0) == lookup_threshold(ts, other, 0),
{
    lemma_lookup_threshold_same_from(ts, ns, other, k, 0);
}

proof fn lemma_lookup_threshold_same_from(ts: Seq<(String, u32)>, ns: Seq<(String, u32)>, other: Seq<char>, k: int, j: int)
    requires
        ts.len() == ns.len(),
        0 <= k < ts.len(),
        0 <= j,
        ts[k].0@ == ns[k].0@,
        ts[k].0@ != other,
        forall|m: int| 0 <= m < ts.len() && m != k ==> ts[m] == ns[m],
    ensures
        lookup_threshold(ns, other, j) == lookup_threshold(ts, other, j),
    decreases ts.len() - j,
{
    if j < ts.len() {
        lemma_lookup_threshold_same_from(ts, ns, other, k, j + 1);
    }
}

proof fn lemma_lookup_threshold_push(ts: Seq<(String, u32)>, ns: Seq<(String, u32)>, other: Seq<char>, j: int)
    requires
        ns.len() == ts.len() + 1,
        0 <= j,
        ns[ts.len() as int].0@ != other,
        forall|m: int| 0 <= m < ts.len() ==> ts[m] == ns[m],
    ensures
        lookup_threshold(ns, other, j) == lookup_threshold(ts, other, j),
    decreases ns.len() - j,
{
    if j < ns.len() {
        lemma_lookup_threshold_push(ts, ns, other, j + 1);
    }
}

/// The domain a config describes at `root`, inheriting what it leaves unsaid from the root
/// config `inherited`, and named `fallback` unless it names itself.
/// What a domain is made of: its own config over the one it inherits from, with built-in
/// defaults under both. Precedence runs nearest and most specific first: the domain's own
/// language section, then its general threshold, then the inherited language section, then the
/// inherited general threshold; so `threshold = 5` in a domain means what it says even where
/// the root set something more specific.
pub open spec fn derived_domain(r: Domain, config: ConfigFile, root: Seq<char>, inherited: ConfigFile, fallback: Seq<char>, known: Seq<&'static str>, exclude: Seq<String>) -> bool {
    &&& r.name@ == (match config.name {
        Some(n) => n@,
        None => fallback,
    })
    &&& r.root@ == root
    &&& r.threshold == or_default(or_else(config.threshold, inherited.threshold), DEFAULT_THRESHOLD)
    &&& forall|i: int| 0 <= i < known.len() ==> #[trigger] r.spec_threshold_for(known[i]@) == language_threshold(config, inherited, known[i]@)
    &&& r.toplevel == or_default(or_else(config.toplevel, inherited.toplevel), true)
    &&& r.baseline@ == spec_join_path(root, match config.baseline {
        Some(b) => b@,
        None => BASELINE_FILE@,
    })
    &&& r.exclude@ == exclude
}

pub fn domain_from(config: &ConfigFile, root: &str, inherited: &ConfigFile, fallback: &str, known: &Vec<&'static str>, exclude: Vec<String>) -> (r: Domain)
    ensures
        derived_domain(r, *config, root@, *inherited, fallback@, known@, exclude@),
{
    let threshold = match config.threshold {
        Some(t) => t,
        None => match inherited.threshold {
            Some(t) => t,
            None => DEFAULT_THRESHOLD,
        },
    };
    let name = match &config.name {
        Some(n) => n.clone(),
        None => fallback.to_owned(),
    };
    let baseline = match &config.baseline {
        Some(b) => join_path(root, b.as_str()),
        None => join_path(root, BASELINE_FILE),
    };
    let toplevel = match config.toplevel {
        Some(t) => t,
        None => match inherited.toplevel {
            Some(t) => t,
            None => true,
        },
    };
    let mut d = Domain {
        name,
        root: root.to_owned(),
        threshold,
        language_thresholds: Vec::new(),
        toplevel,
        baseline,
        exclude,
    };
    let mut i: usize = 0;
    while i < known.len()
        invariant
            0 <= i <= known@.len(),
            d.name@ == (match config.name {
                Some(n) => n@,
                None => fallback@,
            }),
            d.root@ == root@,
            d.threshold == threshold,
            d.toplevel == toplevel,
            d.baseline@ == spec_join_path(root@, match config.baseline {
                Some(b) => b@,
                None => BASELINE_FILE@,
            }),
            d.exclude@ == exclude@,
            forall|k: int| 0 <= k < i ==> #[trigger] d.spec_threshold_for(known@[k]@) == language_threshold(*config, *inherited, known@[k]@),
        decreases known@.len() - i,
    {
        let language = known[i];
        let value = match section_threshold_exec(config, language) {
            Some(t) => t,
            None => match config.threshold {
                Some(t) => t,
                None => match section_threshold_exec(inherited, language) {
                    Some(t) => t,
                    None => match inherited.threshold {
                        Some(t) => t,
                        None => DEFAULT_THRESHOLD,
                    },
                },
            },
        };
        let ghost before = d;
        d.set_language_threshold(language.to_owned(), value);
        proof {
            assert forall|k: int| 0 <= k < i + 1 implies #[trigger] d.spec_threshold_for(known@[k]@) == language_threshold(*config, *inherited, known@[k]@) by {
                if known@[k]@ != language@ {
                    assert(before.spec_threshold_for(known@[k]@) == language_threshold(*config, *inherited, known@[k]@));
                }
            }
        }
        i = i + 1;
    }
    d
}

/// The domain a workspace without any config has: built-in defaults over everything.
pub fn default_domain(root: &str) -> (r: Domain)
    ensures
        r.name@ == "root"@,
        r.root@ == root@,
        r.threshold == DEFAULT_THRESHOLD,
        r.language_thresholds@.len() == 0,
        r.toplevel,
        r.baseline@ == spec_join_path(root@, BASELINE_FILE@),
        r.exclude@.len() == 0,
{
    Domain {
        name: "root".to_owned(),
        root: root.to_owned(),
        threshold: DEFAULT_THRESHOLD,
        language_thresholds: Vec::new(),
        toplevel: true,
        baseline: join_path(root, BASELINE_FILE),
        exclude: Vec::new(),
    }
}

} // verus!

verus! {

/// What `globset` answers when `path` is matched against `patterns`: each pattern built with
/// `GlobBuilder` and `literal_separator(true)`, so that `*` stops at `/`, added to a
/// `GlobSetBuilder`, the set built, and `GlobSet::is_match` asked; whether any matches. Patterns
/// that do not build, or a set that does not, match nothing; configuration refuses both first.
pub uninterp spec fn glob_match(patterns: Seq<Seq<char>>, path: Seq<char>) -> bool;

/// What `globset` reports for a pattern it cannot build, `None` for one it can.
pub uninterp spec fn glob_error(pattern: Seq<char>) -> Option<Seq<char>>;

/// What `globset` reports when the set of `patterns` cannot be built, `None` when it can.
pub uninterp spec fn glob_set_error(patterns: Seq<Seq<char>>) -> Option<Seq<char>>;

pub open spec fn texts(v: Seq<String>) -> Seq<Seq<char>> {
    v.map_values(|s: String| s@)
}

/// `GlobSet::is_match` over a set built from `patterns`, as `globset` builds it.
#[verifier::external_body]
fn globs_match(patterns: &Vec<String>, path: &str) -> (r: bool)
    ensures
        r == glob_match(texts(patterns@), path@),
{
    let mut builder = globset::GlobSetBuilder::new();
    for pattern in patterns {
        match globset::GlobBuilder::new(pattern).literal_separator(true).build() {
            Ok(glob) => {
                builder.add(glob);
            },
            Err(_) => return false,
        }
    }
    builder.build().map_or(false, |set| set.is_match(path))
}

/// `GlobBuilder::build`'s error for one pattern, as text.
#[verifier::external_body]
fn glob_problem(pattern: &str) -> (r: Option<String>)
    ensures
        opt_view(r) == glob_error(pattern@),
{
    globset::GlobBuilder::new(pattern).literal_separator(true).build().err().map(|error| error.to_string())
}

/// `GlobSetBuilder::build`'s error for the set of `patterns`, as text; a pattern that does not
/// build on its own is reported the same way.
#[verifier::external_body]
fn glob_set_problem(patterns: &Vec<String>) -> (r: Option<String>)
    ensures
        opt_view(r) == glob_set_error(texts(patterns@)),
{
    let mut builder = globset::GlobSetBuilder::new();
    for pattern in patterns {
        match globset::GlobBuilder::new(pattern).literal_separator(true).build() {
            Ok(glob) => {
                builder.add(glob);
            },
            Err(error) => return Some(error.to_string()),
        }
    }
    builder.build().err().map(|error| error.to_string())
}

/// Why a configuration could not be turned into policy.
pub enum ConfigError {
    Read { path: String, error: String },
    Parse { path: String, error: String },
    Glob { pattern: String, error: String },
    /// A declared domain takes a name another domain already has: `config` is the declaring
    /// config, `other` says which domain has it.
    Duplicate { config: String, name: String, other: String },
}

impl ConfigError {
    pub open spec fn spec_message(&self) -> Seq<char> {
        match self {
            ConfigError::Read { path, error } => path@ + ": "@ + error@,
            ConfigError::Parse { path, error } => path@ + ": "@ + error@,
            ConfigError::Glob { pattern, error } => "invalid glob `"@ + pattern@ + "`: "@ + error@,
            ConfigError::Duplicate { config, name, other } => config@ + ": `"@ + name@ + "` is also the name of "@ + other@,
        }
    }

    /// The error as a user reads it.
    pub fn message(&self) -> (r: String)
        ensures
            r@ == self.spec_message(),
    {
        match self {
            ConfigError::Read { path, error } => concat(concat(path.as_str(), ": ").as_str(), error.as_str()),
            ConfigError::Parse { path, error } => concat(concat(path.as_str(), ": ").as_str(), error.as_str()),
            ConfigError::Glob { pattern, error } => {
                let head = concat("invalid glob `", pattern.as_str());
                concat(concat(head.as_str(), "`: ").as_str(), error.as_str())
            },
            ConfigError::Duplicate { config, name, other } => {
                let head = concat(concat(config.as_str(), ": `").as_str(), name.as_str());
                concat(concat(head.as_str(), "` is also the name of ").as_str(), other.as_str())
            },
        }
    }
}

/// The first pattern, from position `k`, that cannot stand: a negation, which would otherwise
/// be ignored in silence, or one `globset` refuses; past the last, the whole list, listed, when
/// `globset` cannot build them into one set, since such a set would match nothing.
pub open spec fn pattern_problem(patterns: Seq<Seq<char>>, k: int) -> Option<(Seq<char>, Seq<char>)>
    decreases patterns.len() - k,
{
    if k < 0 {
        None
    } else if k >= patterns.len() {
        match glob_set_error(patterns) {
            Some(e) => Some((join(patterns, ", "@), e)),
            None => None,
        }
    } else if patterns[k].len() > 0 && patterns[k][0] == '!' {
        Some((patterns[k], "negated patterns are not supported"@))
    } else if glob_error(patterns[k]) is Some {
        Some((patterns[k], glob_error(patterns[k]).unwrap()))
    } else {
        pattern_problem(patterns, k + 1)
    }
}

/// Checks exclude or domain patterns before they are used: `*` stops at `/`, as in
/// `.gitignore`, so `packages/*` names direct children only and `vendor/**` is how a subtree is
/// spelled.
pub fn check_patterns(patterns: &Vec<String>) -> (r: Result<(), ConfigError>)
    ensures
        match pattern_problem(texts(patterns@), 0) {
            None => r is Ok,
            Some((p, e)) => r matches Err(ConfigError::Glob { pattern, error }) && pattern@ == p && error@ == e,
        },
{
    let mut k: usize = 0;
    while k < patterns.len()
        invariant
            0 <= k <= patterns@.len(),
            pattern_problem(texts(patterns@), 0) == pattern_problem(texts(patterns@), k as int),
        decreases patterns@.len() - k,
    {
        let p = &patterns[k];
        assert(texts(patterns@)[k as int] == p@);
        let c = chars_of(p.as_str());
        if c.len() > 0 && c[0] == '!' {
            return Err(ConfigError::Glob { pattern: p.clone(), error: "negated patterns are not supported".to_owned() });
        }
        match glob_problem(p.as_str()) {
            Some(e) => return Err(ConfigError::Glob { pattern: p.clone(), error: e }),
            None => {},
        }
        k = k + 1;
    }
    match glob_set_problem(patterns) {
        Some(e) => Err(ConfigError::Glob { pattern: crate::verdict::join_strings(patterns, ", "), error: e }),
        None => Ok(()),
    }
}

/// `s` without the `/` at either end.
pub open spec fn trim_slashes(s: Seq<char>) -> Seq<char>
    decreases s.len(),
{
    if s.len() > 0 && s[0] == '/' {
        trim_slashes(s.drop_first())
    } else if s.len() > 0 && s.last() == '/' {
        trim_slashes(s.drop_last())
    } else {
        s
    }
}

/// How many `/`-separated parts a text has.
pub open spec fn part_count(s: Seq<char>) -> nat
    decreases s.len(),
{
    if s.len() == 0 {
        1
    } else {
        part_count(s.drop_last()) + if s.last() == '/' { 1nat } else { 0nat }
    }
}

/// How deep a walk must go for the patterns to match anything, `None` when a `**` can match at
/// any depth: `packages/*` only ever matches two levels down.
pub open spec fn spec_pattern_depth(patterns: Seq<Seq<char>>) -> Option<nat>
    decreases patterns.len(),
{
    if patterns.len() == 0 {
        Some(0)
    } else {
        match spec_pattern_depth(patterns.drop_last()) {
            None => None,
            Some(d) => if contains(patterns.last(), "**"@) {
                None
            } else {
                let here = part_count(trim_slashes(patterns.last()));
                Some(if d >= here { d } else { here })
            },
        }
    }
}

fn depth_of(pattern: &Vec<char>) -> (r: usize)
    ensures
        r == part_count(trim_slashes(pattern@)),
{
    let mut lo: usize = 0;
    let mut hi: usize = pattern.len();
    assert(pattern@.subrange(0, pattern@.len() as int) =~= pattern@);
    while lo < hi && (pattern[lo] == '/' || pattern[hi - 1] == '/')
        invariant
            0 <= lo <= hi <= pattern@.len(),
            trim_slashes(pattern@) == trim_slashes(pattern@.subrange(lo as int, hi as int)),
        decreases hi - lo,
    {
        if pattern[lo] == '/' {
            assert(pattern@.subrange(lo as int, hi as int).drop_first() =~= pattern@.subrange(lo + 1, hi as int));
            lo = lo + 1;
        } else {
            assert(pattern@.subrange(lo as int, hi as int).drop_last() =~= pattern@.subrange(lo as int, hi - 1));
            hi = hi - 1;
        }
    }
    let ghost t = pattern@.subrange(lo as int, hi as int);
    assert(trim_slashes(t) == t);
    let mut count: usize = 1;
    let mut i = lo;
    while i < hi
        invariant
            lo <= i <= hi <= pattern@.len(),
            count == part_count(pattern@.subrange(lo as int, i as int)),
            i == lo ==> count == 1,
            i > lo ==> count <= i - lo,
            lo < hi ==> pattern@[lo as int] != '/',
        decreases hi - i,
    {
        proof {
            assert(pattern@.subrange(lo as int, i + 1).drop_last() =~= pattern@.subrange(lo as int, i as int));
        }
        if pattern[i] == '/' {
            count = count + 1;
        }
        i = i + 1;
    }
    count
}

pub fn pattern_depth(patterns: &Vec<String>) -> (r: Option<usize>)
    ensures
        match spec_pattern_depth(texts(patterns@)) {
            None => r is None,
            Some(d) => r == Some(d as usize),
        },
{
    let mut deepest: usize = 0;
    let mut k: usize = 0;
    while k < patterns.len()
        invariant
            0 <= k <= patterns@.len(),
            spec_pattern_depth(texts(patterns@).subrange(0, k as int)) == Some(deepest as nat),
        decreases patterns@.len() - k,
    {
        let c = chars_of(patterns[k].as_str());
        proof {
            let s = texts(patterns@).subrange(0, k + 1);
            assert(s.drop_last() =~= texts(patterns@).subrange(0, k as int));
            assert(s.last() == patterns@[k as int]@);
        }
        if contains_lit(&c, "**") {
            proof {
                lemma_depth_stays_none(texts(patterns@), k as int + 1);
                assert(texts(patterns@).subrange(0, patterns@.len() as int) =~= texts(patterns@));
            }
            return None;
        }
        let here = depth_of(&c);
        if here > deepest {
            deepest = here;
        }
        k = k + 1;
    }
    assert(texts(patterns@).subrange(0, patterns@.len() as int) =~= texts(patterns@));
    Some(deepest)
}

proof fn lemma_depth_stays_none(ps: Seq<Seq<char>>, k: int)
    requires
        0 <= k <= ps.len(),
        spec_pattern_depth(ps.subrange(0, k)) is None,
    ensures
        spec_pattern_depth(ps) is None,
    decreases ps.len() - k,
{
    if k < ps.len() {
        assert(ps.subrange(0, k + 1).drop_last() =~= ps.subrange(0, k));
        lemma_depth_stays_none(ps, k + 1);
    } else {
        assert(ps.subrange(0, k) =~= ps);
    }
}

/// The first of the `known` languages that `language` is one typing slip from.
pub open spec fn suggestion(known: Seq<Seq<char>>, language: Seq<char>) -> Option<Seq<char>>
    decreases known.len(),
{
    if known.len() == 0 {
        None
    } else if one_edit_apart(language, known[0]) {
        Some(known[0])
    } else {
        suggestion(known.drop_first(), language)
    }
}

/// What a warning adds for a language it can guess: nothing without a guess.
pub open spec fn hint(guess: Option<Seq<char>>) -> Seq<char> {
    match guess {
        Some(k) => "; did you mean `["@ + k + "]`?"@,
        None => Seq::empty(),
    }
}

/// The first known language `language` is one slip from.
fn suggest(known: &Vec<&'static str>, language: &str) -> (r: Option<&'static str>)
    ensures
        suggestion(known@.map_values(|k: &'static str| k@), language@) == match r {
            Some(k) => Some(k@),
            None => None,
        },
{
    let ghost ks = known@.map_values(|k: &'static str| k@);
    let x = chars_of(language);
    assert(ks.subrange(0, ks.len() as int) =~= ks);
    let mut j: usize = 0;
    while j < known.len()
        invariant
            0 <= j <= known@.len(),
            ks == known@.map_values(|k: &'static str| k@),
            x@ == language@,
            suggestion(ks, language@) == suggestion(ks.subrange(j as int, ks.len() as int), language@),
        decreases known@.len() - j,
    {
        let candidate = chars_of(known[j]);
        let ghost rest = ks.subrange(j as int, ks.len() as int);
        assert(rest[0] == known@[j as int]@);
        if one_edit(&x, &candidate) {
            return Some(known[j]);
        }
        assert(rest.drop_first() =~= ks.subrange(j + 1, ks.len() as int));
        j = j + 1;
    }
    None
}

/// A config's language sections that name no language this build knows, each as a warning,
/// with the known language it is one slip from, if any.
pub open spec fn unknown_sections(sections: Seq<(String, LanguageSection)>, known: Seq<Seq<char>>, at: Seq<char>) -> Seq<Seq<char>>
    decreases sections.len(),
{
    if sections.len() == 0 {
        Seq::empty()
    } else {
        let front = unknown_sections(sections.drop_last(), known, at);
        let language = sections.last().0@;
        if known.contains(language) {
            front
        } else {
            front.push(spec_join_path(at, CONFIG_FILE@) + ": unknown language section `["@ + language + "]`, ignoring"@
                + hint(suggestion(known, language)))
        }
    }
}

pub fn warn_unknown_languages(config: &ConfigFile, known: &Vec<&'static str>, at: &str, warnings: &mut Vec<String>)
    ensures
        texts(final(warnings)@) == texts(old(warnings)@) + unknown_sections(config.languages@, known@.map_values(|k: &'static str| k@), at@),
{
    let ghost ks = known@.map_values(|k: &'static str| k@);
    let ghost start = texts(warnings@);
    let file = join_path(at, CONFIG_FILE);
    let mut i: usize = 0;
    while i < config.languages.len()
        invariant
            0 <= i <= config.languages@.len(),
            ks == known@.map_values(|k: &'static str| k@),
            file@ == spec_join_path(at@, CONFIG_FILE@),
            texts(warnings@) == start + unknown_sections(config.languages@.subrange(0, i as int), ks, at@),
        decreases config.languages@.len() - i,
    {
        let language = config.languages[i].0.as_str();
        let mut known_here = false;
        let mut j: usize = 0;
        while j < known.len()
            invariant
                0 <= j <= known@.len(),
                ks == known@.map_values(|k: &'static str| k@),
                language@ == config.languages@[i as int].0@,
                known_here == exists|m: int| 0 <= m < j && ks[m] == language@,
            decreases known@.len() - j,
        {
            if str_eq(known[j], language) {
                known_here = true;
            }
            assert(ks[j as int] == known@[j as int]@);
            j = j + 1;
        }
        proof {
            let s = config.languages@.subrange(0, i + 1);
            assert(s.drop_last() =~= config.languages@.subrange(0, i as int));
            assert(s.last() == config.languages@[i as int]);
            if ks.contains(language@) {
                let m = choose|m: int| 0 <= m < ks.len() && ks[m] == language@;
                assert(known_here);
            }
        }
        if !known_here {
            let head = concat(file.as_str(), ": unknown language section `[");
            let plain = concat(concat(head.as_str(), language).as_str(), "]`, ignoring");
            let message = match suggest(known, language) {
                Some(k) => {
                    let guess = concat(concat("; did you mean `[", k).as_str(), "]`?");
                    concat(plain.as_str(), guess.as_str())
                },
                None => {
                    assert(plain@ =~= plain@ + Seq::<char>::empty());
                    plain
                },
            };
            let ghost before = warnings@;
            warnings.push(message);
            assert(texts(warnings@) =~= texts(before).push(message@));
        }
        i = i + 1;
    }
    assert(config.languages@.subrange(0, config.languages@.len() as int) =~= config.languages@);
}


/// How long a root is, in the bytes its text takes.
pub open spec fn root_len(root: Seq<char>) -> usize {
    vstd::utf8::encode_utf8(root).len() as usize
}

/// Among the first `k` domains, the last of those whose root holds `path` with the longest
/// root; `-1` when none does.
pub open spec fn best_root(domains: Seq<Domain>, path: Seq<char>, k: int) -> int
    decreases k,
{
    if k <= 0 {
        -1
    } else {
        let b = best_root(domains, path, k - 1);
        if spec_within(path, domains[k - 1].root@) && (b < 0 || root_len(domains[b].root@) <= root_len(domains[k - 1].root@)) {
            k - 1
        } else {
            b
        }
    }
}

proof fn lemma_best_root_range(domains: Seq<Domain>, path: Seq<char>, k: int)
    requires
        0 <= k <= domains.len(),
    ensures
        -1 <= best_root(domains, path, k) < k,
        best_root(domains, path, k) >= 0 ==> spec_within(path, domains[best_root(domains, path, k)].root@),
    decreases k,
{
    if k > 0 {
        lemma_best_root_range(domains, path, k - 1);
    }
}

/// Domains are declared by glob at the workspace root rather than discovered by walking up
/// from every file, so a stray config cannot create a domain nobody sanctioned and the whole
/// policy stays readable in one place. The first domain is the workspace root's own.
pub struct Workspace {
    pub root: String,
    pub domains: Vec<Domain>,
    /// Matched against paths relative to the workspace root.
    pub exclude: Vec<String>,
    pub warnings: Vec<String>,
}

impl Workspace {
    pub open spec fn spec_domain_for(&self, path: Seq<char>) -> int {
        let b = best_root(self.domains@, path, self.domains@.len() as int);
        if b < 0 { 0 } else { b }
    }

    /// The domain that owns `path`: the longest root that holds it, so a nested domain beats
    /// the workspace root; of equally long ones the last; the first domain when none holds it.
    pub fn domain_for(&self, path: &str) -> (r: usize)
        ensures
            r == self.spec_domain_for(path@),
            self.domains@.len() > 0 ==> r < self.domains@.len(),
    {
        let mut best: usize = 0;
        let mut found = false;
        let mut k: usize = 0;
        while k < self.domains.len()
            invariant
                0 <= k <= self.domains@.len(),
                found == (best_root(self.domains@, path@, k as int) >= 0),
                found ==> best == best_root(self.domains@, path@, k as int),
                !found ==> best == 0,
            decreases self.domains@.len() - k,
        {
            proof {
                lemma_best_root_range(self.domains@, path@, k as int);
            }
            let d = &self.domains[k];
            if within(path, d.root.as_str()) {
                if !found || self.domains[best].root.as_str().len() <= d.root.as_str().len() {
                    best = k;
                    found = true;
                }
            }
            k = k + 1;
        }
        proof {
            lemma_best_root_range(self.domains@, path@, self.domains@.len() as int);
        }
        best
    }

    pub open spec fn spec_is_excluded(&self, path: Seq<char>) -> bool {
        let d = self.domains@[self.spec_domain_for(path)];
        glob_match(texts(self.exclude@), spec_relative(path, self.root@))
            || glob_match(texts(d.exclude@), spec_relative(path, d.root@))
    }

    /// Whether the workspace's own patterns, relative to its root, or those of the domain that
    /// owns `path`, relative to that domain's root, leave `path` out.
    pub fn is_excluded(&self, path: &str) -> (r: bool)
        requires
            self.domains@.len() > 0,
        ensures
            r == self.spec_is_excluded(path@),
    {
        let rel = relative(path, self.root.as_str());
        if globs_match(&self.exclude, rel.as_str()) {
            return true;
        }
        let d = &self.domains[self.domain_for(path)];
        let inside = relative(path, d.root.as_str());
        globs_match(&d.exclude, inside.as_str())
    }
}


/// The patterns an optional list holds.
pub open spec fn listed_patterns(patterns: Option<Vec<String>>) -> Seq<String> {
    match patterns {
        Some(v) => v@,
        None => Seq::empty(),
    }
}

fn patterns_of(patterns: &Option<Vec<String>>) -> (r: Vec<String>)
    ensures
        r@ == listed_patterns(*patterns),
{
    match patterns {
        Some(v) => {
            let mut out: Vec<String> = Vec::new();
            let mut k: usize = 0;
            while k < v.len()
                invariant
                    0 <= k <= v@.len(),
                    out@ == v@.subrange(0, k as int),
                decreases v@.len() - k,
            {
                out.push(v[k].clone());
                assert(out@ =~= v@.subrange(0, k + 1));
                k = k + 1;
            }
            assert(out@ =~= v@);
            out
        },
        None => Vec::new(),
    }
}

impl Workspace {
    /// With no config anywhere, built-in defaults and one implicit domain over `root`.
    pub fn zero_config(root: &str) -> (r: Workspace)
        ensures
            r.root@ == root@,
            r.domains@.len() == 1,
            r.domains@[0].name@ == "root"@,
            r.domains@[0].root@ == root@,
            r.domains@[0].threshold == DEFAULT_THRESHOLD,
            r.domains@[0].language_thresholds@.len() == 0,
            r.domains@[0].toplevel,
            r.domains@[0].baseline@ == spec_join_path(root@, BASELINE_FILE@),
            r.domains@[0].exclude@.len() == 0,
            r.exclude@.len() == 0,
            r.warnings@.len() == 0,
    {
        Workspace { root: root.to_owned(), domains: vec![default_domain(root)], exclude: Vec::new(), warnings: Vec::new() }
    }
}

/// The workspace a root config makes before any declared domain joins it: the root's own
/// domain, its exclusions, and a warning for each language section nobody knows.
pub fn workspace_from(root: &str, config: &ConfigFile, known: &Vec<&'static str>) -> (r: Result<Workspace, ConfigError>)
    ensures
        match pattern_problem(texts(listed_patterns(config.exclude)), 0) {
            Some((p, e)) => r matches Err(ConfigError::Glob { pattern, error }) && pattern@ == p && error@ == e,
            None => r matches Ok(ws) && {
                &&& ws.root@ == root@
                &&& ws.domains@.len() == 1
                &&& derived_domain(ws.domains@[0], *config, root@, *config, "root"@, known@, Seq::empty())
                &&& ws.exclude@ == listed_patterns(config.exclude)
                &&& texts(ws.warnings@) == unknown_sections(config.languages@, known@.map_values(|k: &'static str| k@), root@)
            },
        },
{
    let mut warnings: Vec<String> = Vec::new();
    warn_unknown_languages(config, known, root, &mut warnings);
    assert(texts(Seq::<String>::empty()) =~= Seq::<Seq<char>>::empty());
    let exclude = patterns_of(&config.exclude);
    match check_patterns(&exclude) {
        Err(e) => return Err(e),
        Ok(()) => {},
    }
    let root_domain = domain_from(config, root, config, "root", known, Vec::new());
    Ok(Workspace { root: root.to_owned(), domains: vec![root_domain], exclude, warnings })
}

/// The warning for a declared domain's config that declares domains itself.
pub open spec fn nested_domains_warning(directory: Seq<char>) -> Seq<char> {
    spec_join_path(directory, CONFIG_FILE@) + ": `domains` is only read from the root config, ignoring"@
}

/// The name a domain declared at a directory takes: its config's, else `fallback`.
pub open spec fn declared_name(child: ConfigFile, fallback: Seq<char>) -> Seq<char> {
    match child.name {
        Some(n) => n@,
        None => fallback,
    }
}

/// The first of the first `k` domains called `name`.
pub open spec fn first_named(domains: Seq<Domain>, name: Seq<char>, k: int) -> Option<int>
    decreases k,
{
    if k <= 0 {
        None
    } else {
        match first_named(domains, name, k - 1) {
            Some(m) => Some(m),
            None => if domains[k - 1].name@ == name { Some(k - 1) } else { None },
        }
    }
}

/// How a duplicate-name error points at the domain that already has the name: the workspace
/// root by that title, any other by its path below the root.
pub open spec fn domain_title(domain_root: Seq<char>, root: Seq<char>) -> Seq<char> {
    if domain_root == root { "the workspace root"@ } else { "`"@ + spec_relative(domain_root, root) + "`"@ }
}

proof fn lemma_first_named(domains: Seq<Domain>, name: Seq<char>, k: int)
    requires
        0 <= k <= domains.len(),
    ensures
        first_named(domains, name, k) matches Some(m) ==> 0 <= m < k && domains[m].name@ == name
            && forall|j: int| 0 <= j < m ==> (#[trigger] domains[j]).name@ != name,
        first_named(domains, name, k) is None ==> forall|j: int| 0 <= j < k ==> (#[trigger] domains[j]).name@ != name,
    decreases k,
{
    if k > 0 {
        lemma_first_named(domains, name, k - 1);
    }
}

impl Workspace {
    /// The first domain called `name`.
    fn find_named(&self, name: &str) -> (r: Option<usize>)
        ensures
            r matches Some(m) ==> m < self.domains@.len() && first_named(self.domains@, name@, self.domains@.len() as int) == Some(m as int),
            r is None ==> first_named(self.domains@, name@, self.domains@.len() as int) is None,
    {
        let mut j: usize = 0;
        while j < self.domains.len()
            invariant
                0 <= j <= self.domains@.len(),
                first_named(self.domains@, name@, j as int) is None,
            decreases self.domains@.len() - j,
        {
            if str_eq(self.domains[j].name.as_str(), name) {
                proof {
                    lemma_first_named(self.domains@, name@, j as int);
                    lemma_first_named(self.domains@, name@, self.domains@.len() as int);
                    lemma_first_named(self.domains@, name@, j + 1);
                }
                return Some(j);
            }
            j = j + 1;
        }
        None
    }

    /// Adds the domain declared at `directory`, whose own config is `child` (empty where the
    /// directory has none), inheriting from the root's `config`. Unnamed, it is called by its
    /// path below the root. A name another domain already has is refused, naming both, since
    /// `--domain` and the report could not tell the two apart.
    pub fn declare(&mut self, config: &ConfigFile, directory: &str, child: &ConfigFile, known: &Vec<&'static str>) -> (r: Result<(), ConfigError>)
        ensures
            final(self).root == old(self).root,
            final(self).exclude == old(self).exclude,
            ({
                let warned = texts(old(self).warnings@)
                    + unknown_sections(child.languages@, known@.map_values(|k: &'static str| k@), directory@)
                    + if child.domains is Some { seq![nested_domains_warning(directory@)] } else { Seq::empty() };
                match pattern_problem(texts(listed_patterns(child.exclude)), 0) {
                    Some((p, e)) => r matches Err(ConfigError::Glob { pattern, error }) && pattern@ == p && error@ == e
                        && final(self).domains == old(self).domains && texts(final(self).warnings@) == warned,
                    None => texts(final(self).warnings@) == warned && {
                        let name = declared_name(*child, spec_relative(directory@, old(self).root@));
                        match first_named(old(self).domains@, name, old(self).domains@.len() as int) {
                            Some(m) => r matches Err(ConfigError::Duplicate { config: c, name: n, other })
                                && c@ == spec_join_path(directory@, CONFIG_FILE@) && n@ == name
                                && other@ == domain_title(old(self).domains@[m].root@, old(self).root@)
                                && final(self).domains == old(self).domains,
                            None => r is Ok
                                && final(self).domains@.len() == old(self).domains@.len() + 1
                                && final(self).domains@.drop_last() == old(self).domains@
                                && derived_domain(final(self).domains@.last(), *child, directory@, *config,
                                    spec_relative(directory@, old(self).root@), known@, listed_patterns(child.exclude)),
                        }
                    },
                }
            }),
    {
        let ghost start = texts(self.warnings@);
        warn_unknown_languages(child, known, directory, &mut self.warnings);
        if child.domains.is_some() {
            let path = join_path(directory, CONFIG_FILE);
            let message = concat(path.as_str(), ": `domains` is only read from the root config, ignoring");
            let ghost before = self.warnings@;
            self.warnings.push(message);
            assert(texts(self.warnings@) =~= texts(before).push(message@));
        }
        proof {
            let u = unknown_sections(child.languages@, known@.map_values(|k: &'static str| k@), directory@);
            if child.domains is Some {
                assert(texts(self.warnings@) =~= start + u + seq![nested_domains_warning(directory@)]);
            } else {
                assert(texts(self.warnings@) =~= start + u + Seq::<Seq<char>>::empty());
            }
        }
        let fallback = relative(directory, self.root.as_str());
        let exclude = patterns_of(&child.exclude);
        match check_patterns(&exclude) {
            Err(e) => return Err(e),
            Ok(()) => {},
        }
        let d = domain_from(child, directory, config, fallback.as_str(), known, exclude);
        match self.find_named(d.name.as_str()) {
            Some(m) => {
                let other_root = self.domains[m].root.as_str();
                let other = if str_eq(other_root, self.root.as_str()) {
                    proof {
                        reveal_strlit("the workspace root");
                    }
                    "the workspace root".to_string()
                } else {
                    concat(concat("`", relative(other_root, self.root.as_str()).as_str()).as_str(), "`")
                };
                let config_path = join_path(directory, CONFIG_FILE);
                return Err(ConfigError::Duplicate { config: config_path, name: d.name, other });
            },
            None => {},
        }
        let ghost before = self.domains@;
        self.domains.push(d);
        assert(self.domains@.drop_last() =~= before);
        Ok(())
    }

    /// A directory the walk from the root found is a declared domain when its path below the
    /// root, not empty, matches one of the root config's `domains` patterns.
    pub fn is_declared(patterns: &Vec<String>, relative_path: &str) -> (r: bool)
        ensures
            r == (relative_path@.len() > 0 && glob_match(texts(patterns@), relative_path@)),
    {
        !relative_path.is_empty() && globs_match(patterns, relative_path)
    }

    /// A config that is not a declared domain would otherwise change nothing while looking as
    /// though it did: one warning for each directory of `with_config`, which hold a config,
    /// that is no domain's root.
    pub fn undeclared_config_warnings(&self, with_config: &Vec<String>) -> (r: Vec<String>)
        ensures
            texts(r@) == undeclared(with_config@, self.domains@),
    {
        let mut out: Vec<String> = Vec::new();
        let mut k: usize = 0;
        while k < with_config.len()
            invariant
                0 <= k <= with_config@.len(),
                texts(out@) == undeclared(with_config@.subrange(0, k as int), self.domains@),
            decreases with_config@.len() - k,
        {
            proof {
                assert(with_config@.subrange(0, k + 1).drop_last() =~= with_config@.subrange(0, k as int));
            }
            let directory = &with_config[k];
            let mut owned = false;
            let mut j: usize = 0;
            while j < self.domains.len()
                invariant
                    0 <= j <= self.domains@.len(),
                    owned == exists|m: int| 0 <= m < j && (#[trigger] self.domains@[m]).root@ == directory@,
                decreases self.domains@.len() - j,
            {
                if str_eq(self.domains[j].root.as_str(), directory.as_str()) {
                    owned = true;
                }
                j = j + 1;
            }
            if !owned {
                let path = join_path(directory.as_str(), CONFIG_FILE);
                let message = concat(path.as_str(), ": not a declared domain, ignoring (add it to `domains` in the root config)");
                let ghost before = out@;
                out.push(message);
                assert(texts(out@) =~= texts(before).push(message@));
            }
            k = k + 1;
        }
        assert(with_config@.subrange(0, with_config@.len() as int) =~= with_config@);
        out
    }
}

/// The warnings for the directories of `dirs` that are no domain's root, in order.
pub open spec fn undeclared(dirs: Seq<String>, domains: Seq<Domain>) -> Seq<Seq<char>>
    decreases dirs.len(),
{
    if dirs.len() == 0 {
        Seq::empty()
    } else {
        let front = undeclared(dirs.drop_last(), domains);
        let d = dirs.last();
        if exists|m: int| 0 <= m < domains.len() && (#[trigger] domains[m]).root@ == d@ {
            front
        } else {
            front.push(spec_join_path(d@, CONFIG_FILE@) + ": not a declared domain, ignoring (add it to `domains` in the root config)"@)
        }
    }
}


/// A path's text from its first `k` components, behind a `/` when it is absolute.
pub open spec fn prefix_path(path: Seq<char>, k: int) -> Seq<char> {
    let body = join(segments(path).subrange(0, k), "/"@);
    if path.len() > 0 && path[0] == '/' { seq!['/'] + body } else { body }
}

/// `Path::parent`: the path without its last component; `None` for a path without any.
pub open spec fn spec_parent(path: Seq<char>) -> Option<Seq<char>> {
    let n = segments(path).len();
    if n == 0 { None } else { Some(prefix_path(path, n - 1)) }
}

pub fn prefix_path_exec(path: &str, k: usize) -> (r: String)
    requires
        k <= segments(path@).len(),
    ensures
        r@ == prefix_path(path@, k as int),
{
    let p = chars_of(path);
    let segs = segments_of(&p);
    let mut front: Vec<Vec<char>> = Vec::new();
    let mut i: usize = 0;
    while i < k
        invariant
            0 <= i <= k,
            k <= segs@.len(),
            views(segs@) == segments(path@),
            p@ == path@,
            views(front@) == views(segs@).subrange(0, i as int),
        decreases k - i,
    {
        let ghost before = front@;
        let piece = crate::text::sub_chars(&segs[i], 0, segs[i].len());
        assert(segs@[i as int]@.subrange(0, segs@[i as int]@.len() as int) =~= segs@[i as int]@);
        front.push(piece);
        assert(views(front@) =~= views(before).push(piece@));
        assert(views(segs@).subrange(0, i + 1) =~= views(segs@).subrange(0, i as int).push(views(segs@)[i as int]));
        i = i + 1;
    }
    let slash = vec!['/'];
    proof {
        reveal_strlit("/");
        assert(slash@ =~= "/"@);
    }
    let body = crate::paths::join_exec(&front, &slash);
    if p.len() > 0 && p[0] == '/' {
        let mut out = vec!['/'];
        let mut j: usize = 0;
        while j < body.len()
            invariant
                0 <= j <= body@.len(),
                out@ == seq!['/'] + body@.subrange(0, j as int),
            decreases body@.len() - j,
        {
            out.push(body[j]);
            assert(out@ =~= seq!['/'] + body@.subrange(0, j + 1));
            j = j + 1;
        }
        assert(body@.subrange(0, body@.len() as int) =~= body@);
        string_from(out.as_slice())
    } else {
        string_from(body.as_slice())
    }
}

/// The directories above and including `path`, nearest first, as `Path::ancestors` walks them:
/// down to the root for an absolute path, to the empty path for a relative one.
pub open spec fn spec_ancestors(path: Seq<char>) -> Seq<Seq<char>> {
    let n = segments(path).len();
    Seq::new(n + 1, |i: int| prefix_path(path, n - i))
}

pub fn ancestors(path: &str) -> (r: Vec<String>)
    ensures
        texts(r@) == spec_ancestors(path@),
{
    let p = chars_of(path);
    let n = segments_of(&p).len();
    let ghost all = spec_ancestors(path@);
    let mut out: Vec<String> = Vec::new();
    let first = prefix_path_exec(path, n);
    out.push(first);
    assert(texts(out@) =~= all.subrange(0, 1));
    let mut k: usize = n;
    while k > 0
        invariant
            n == segments(path@).len(),
            all == spec_ancestors(path@),
            0 <= k <= n,
            texts(out@) == all.subrange(0, n - k + 1),
        decreases k,
    {
        k = k - 1;
        let a = prefix_path_exec(path, k);
        let ghost before = out@;
        out.push(a);
        assert(texts(out@) =~= texts(before).push(a@));
        assert(all[n - k] == a@);
        assert(all.subrange(0, n - k + 1) =~= all.subrange(0, n - k).push(all[n - k]));
    }
    assert(all.subrange(0, n + 1) =~= all);
    out
}

/// Where config discovery starts: a directory as it is; a file's parent, or `.` where it has
/// none, so that a file never becomes a domain root with its baseline inside it.
pub open spec fn spec_containing_directory(start: Seq<char>, is_dir: bool) -> Seq<char> {
    if is_dir {
        start
    } else {
        match spec_parent(start) {
            Some(p) => if p.len() > 0 { p } else { "."@ },
            None => "."@,
        }
    }
}

pub fn containing_directory(start: &str, is_dir: bool) -> (r: String)
    ensures
        r@ == spec_containing_directory(start@, is_dir),
{
    if is_dir {
        return start.to_owned();
    }
    let p = chars_of(start);
    let n = segments_of(&p).len();
    if n == 0 {
        return ".".to_owned();
    }
    let parent = prefix_path_exec(start, n - 1);
    if parent.as_str().is_empty() { ".".to_owned() } else { parent }
}

/// The root among the configs found above a scan, nearest first: the outermost that declares
/// `domains`, else the nearest. A domain's own config, or one nobody declared, must not re-root
/// the workspace just because the scan started inside it, or `bonsai-lint packages/web` would
/// answer differently from `bonsai-lint .`.
pub fn choose_root(found: &Vec<(String, ConfigFile)>) -> (r: Option<usize>)
    ensures
        r is None <==> found@.len() == 0,
        r matches Some(i) ==> i < found@.len()
            && (i > 0 ==> found@[i as int].1.domains is Some)
            && forall|j: int| i < j < found@.len() ==> !((#[trigger] found@[j]).1.domains is Some),
{
    if found.len() == 0 {
        return None;
    }
    let mut root: usize = 0;
    let mut k: usize = 1;
    while k < found.len()
        invariant
            1 <= k <= found@.len(),
            root < k,
            root > 0 ==> found@[root as int].1.domains is Some,
            forall|j: int| root < j < k ==> !((#[trigger] found@[j]).1.domains is Some),
        decreases found@.len() - k,
    {
        if found[k].1.domains.is_some() {
            root = k;
        }
        k = k + 1;
    }
    Some(root)
}

} // verus!

verus! {

proof fn lemma_best_root_longest(domains: Seq<Domain>, path: Seq<char>, k: int, i: int)
    requires
        0 <= i < k <= domains.len(),
        spec_within(path, domains[i].root@),
    ensures
        best_root(domains, path, k) >= 0,
        root_len(domains[i].root@) <= root_len(domains[best_root(domains, path, k)].root@),
    decreases k,
{
    lemma_best_root_range(domains, path, k - 1);
    if i < k - 1 {
        lemma_best_root_longest(domains, path, k - 1, i);
    }
}

/// A nested domain beats the one it sits in: a path inside any domain's root belongs to a
/// domain whose root holds it and is at least as long.
pub proof fn law_longest_root_wins(ws: Workspace, path: Seq<char>, i: int)
    requires
        0 <= i < ws.domains@.len(),
        spec_within(path, ws.domains@[i].root@),
    ensures
        spec_within(path, ws.domains@[ws.spec_domain_for(path)].root@),
        root_len(ws.domains@[i].root@) <= root_len(ws.domains@[ws.spec_domain_for(path)].root@),
{
    lemma_best_root_longest(ws.domains@, path, ws.domains@.len() as int, i);
    lemma_best_root_range(ws.domains@, path, ws.domains@.len() as int);
}

} // verus!
