//! Which language reads which file.
use vstd::prelude::*;
use crate::languages::{
    go_field_table, go_kind_table, go_spec, java_field_table, java_kind_table, java_spec, php_field_table, php_kind_table,
    php_spec, python_field_table, python_kind_table, python_spec, typescript_field_table, typescript_kind_table,
    typescript_spec,
};
use crate::spec::{field_table, kind_table, Dialect, LanguageSpec};
use crate::generated::{spec_go_is_generated, spec_java_is_generated, spec_python_is_generated};
use crate::text::{chars_of, ends_with, ends_with_lit, find_chars, str_eq, string_from, sub_chars};

verus! {

/// A file type a scan knows: the language that scores it and the grammar that reads it. `.ts`
/// and `.tsx` are one language read by two grammars; a Vue component is TypeScript read out of
/// its script blocks.
#[derive(Clone, Copy, Debug, PartialEq, Eq, Structural)]
pub enum Descriptor {
    Php,
    TypeScript,
    Tsx,
    Vue,
    Go,
    Java,
    Python,
}

/// The file types a scan reads, in the order a file's extension is matched against them.
pub open spec fn spec_descriptors() -> Seq<Descriptor> {
    seq![Descriptor::Php, Descriptor::TypeScript, Descriptor::Tsx, Descriptor::Vue, Descriptor::Go, Descriptor::Java]
}

pub fn descriptors() -> (r: Vec<Descriptor>)
    ensures
        r@ == spec_descriptors(),
{
    let r = vec![Descriptor::Php, Descriptor::TypeScript, Descriptor::Tsx, Descriptor::Vue, Descriptor::Go, Descriptor::Java];
    assert(r@ =~= spec_descriptors());
    r
}

/// The id of the language a descriptor scores, the one a user names in `--lang` and config.
pub open spec fn spec_language_id(d: Descriptor) -> Seq<char> {
    match d {
        Descriptor::Php => "php"@,
        Descriptor::TypeScript => "typescript"@,
        Descriptor::Tsx => "typescript"@,
        Descriptor::Vue => "vue"@,
        Descriptor::Go => "go"@,
        Descriptor::Java => "java"@,
        Descriptor::Python => "python"@,
    }
}

/// The kind lists of the spec a descriptor's language compiles from: `.ts`, `.tsx` and Vue
/// share TypeScript's.
pub open spec fn spec_kinds_of(d: Descriptor) -> Seq<Seq<&'static str>> {
    match d {
        Descriptor::Php => php_kind_table(),
        Descriptor::TypeScript => typescript_kind_table(),
        Descriptor::Tsx => typescript_kind_table(),
        Descriptor::Vue => typescript_kind_table(),
        Descriptor::Go => go_kind_table(),
        Descriptor::Java => java_kind_table(),
        Descriptor::Python => python_kind_table(),
    }
}

/// The field names of the spec a descriptor's language compiles from.
pub open spec fn spec_fields_of(d: Descriptor) -> (Seq<&'static str>, Option<&'static str>, Seq<&'static str>) {
    match d {
        Descriptor::Php => php_field_table(),
        Descriptor::TypeScript => typescript_field_table(),
        Descriptor::Tsx => typescript_field_table(),
        Descriptor::Vue => typescript_field_table(),
        Descriptor::Go => go_field_table(),
        Descriptor::Java => java_field_table(),
        Descriptor::Python => python_field_table(),
    }
}

/// The hooks of the spec a descriptor's language compiles from.
pub open spec fn spec_hooks_of(d: Descriptor) -> Dialect {
    match d {
        Descriptor::Php => Dialect::Php,
        Descriptor::TypeScript => Dialect::TypeScript,
        Descriptor::Tsx => Dialect::TypeScript,
        Descriptor::Vue => Dialect::TypeScript,
        Descriptor::Go => Dialect::Go,
        Descriptor::Java => Dialect::Java,
        Descriptor::Python => Dialect::Python,
    }
}

/// The kinds the spec a descriptor's language compiles from lets a grammar lack.
pub open spec fn spec_optional_kinds_of(d: Descriptor) -> Seq<&'static str> {
    match d {
        Descriptor::Php => seq!["anonymous_function_creation_expression"],
        _ => Seq::empty(),
    }
}

/// The extensions, without their dot, a descriptor reads.
pub open spec fn spec_extensions(d: Descriptor) -> Seq<Seq<char>> {
    match d {
        Descriptor::Php => seq!["php"@, "phtml"@],
        Descriptor::TypeScript => seq!["ts"@, "mts"@, "cts"@],
        Descriptor::Tsx => seq!["tsx"@, "jsx"@, "js"@, "mjs"@, "cjs"@],
        Descriptor::Vue => seq!["vue"@],
        Descriptor::Go => seq!["go"@],
        Descriptor::Java => seq!["java"@],
        Descriptor::Python => seq!["py"@, "pyw"@],
    }
}

/// File names that carry no code worth scoring despite their extension: signatures only.
pub open spec fn spec_unscored_suffixes(d: Descriptor) -> Seq<Seq<char>> {
    match d {
        Descriptor::TypeScript => seq![".d.ts"@],
        _ => Seq::empty(),
    }
}

impl Descriptor {
    pub fn language_id(self) -> (r: &'static str)
        ensures
            r@ == spec_language_id(self),
    {
        match self {
            Descriptor::Php => "php",
            Descriptor::TypeScript => "typescript",
            Descriptor::Tsx => "typescript",
            Descriptor::Vue => "vue",
            Descriptor::Go => "go",
            Descriptor::Java => "java",
            Descriptor::Python => "python",
        }
    }

    pub fn extensions(self) -> (r: Vec<&'static str>)
        ensures
            r@.map_values(|e: &'static str| e@) == spec_extensions(self),
    {
        let r = match self {
            Descriptor::Php => vec!["php", "phtml"],
            Descriptor::TypeScript => vec!["ts", "mts", "cts"],
            Descriptor::Tsx => vec!["tsx", "jsx", "js", "mjs", "cjs"],
            Descriptor::Vue => vec!["vue"],
            Descriptor::Go => vec!["go"],
            Descriptor::Java => vec!["java"],
            Descriptor::Python => vec!["py", "pyw"],
        };
        assert(r@.map_values(|e: &'static str| e@) =~= spec_extensions(self));
        r
    }

    pub fn unscored_suffixes(self) -> (r: Vec<&'static str>)
        ensures
            r@.map_values(|e: &'static str| e@) == spec_unscored_suffixes(self),
    {
        let r = match self {
            Descriptor::TypeScript => vec![".d.ts"],
            _ => Vec::new(),
        };
        assert(r@.map_values(|e: &'static str| e@) =~= spec_unscored_suffixes(self));
        r
    }

    /// The spec the descriptor's language compiles from.
    pub fn spec(self) -> (r: LanguageSpec)
        ensures
            r.id@ == spec_language_id(self),
            kind_table(r.kinds) == spec_kinds_of(self),
            field_table(r.fields) == spec_fields_of(self),
            r.hooks == spec_hooks_of(self),
            r.optional_kinds@ == spec_optional_kinds_of(self),
    {
        proof {
            reveal_strlit("typescript");
            reveal_strlit("vue");
        }
        match self {
            Descriptor::Php => php_spec(),
            Descriptor::TypeScript => typescript_spec("typescript"),
            Descriptor::Tsx => typescript_spec("typescript"),
            Descriptor::Vue => typescript_spec("vue"),
            Descriptor::Go => go_spec(),
            Descriptor::Java => java_spec(),
            Descriptor::Python => python_spec(),
        }
    }
}

/// `ids` without repeats, each kept where it first appears.
pub open spec fn first_occurrences(ids: Seq<Seq<char>>) -> Seq<Seq<char>>
    decreases ids.len(),
{
    if ids.len() == 0 {
        Seq::empty()
    } else {
        let front = first_occurrences(ids.drop_last());
        if front.contains(ids.last()) { front } else { front.push(ids.last()) }
    }
}

/// The ids a user names in `--lang` and config sections: one per language, however many
/// grammars read it.
pub open spec fn spec_language_ids() -> Seq<Seq<char>> {
    first_occurrences(spec_descriptors().map_values(|d: Descriptor| spec_language_id(d)))
}

fn contains_str(v: &Vec<&'static str>, s: &str) -> (r: bool)
    ensures
        r == v@.map_values(|e: &'static str| e@).contains(s@),
{
    let mut i: usize = 0;
    while i < v.len()
        invariant
            0 <= i <= v@.len(),
            forall|k: int| 0 <= k < i ==> v@[k]@ != s@,
        decreases v@.len() - i,
    {
        if str_eq(v[i], s) {
            assert(v@.map_values(|e: &'static str| e@)[i as int] == s@);
            return true;
        }
        i = i + 1;
    }
    proof {
        if v@.map_values(|e: &'static str| e@).contains(s@) {
            let m = v@.map_values(|e: &'static str| e@);
            let k = choose|k: int| 0 <= k < m.len() && #[trigger] m[k] == s@;
            assert(v@[k]@ == s@);
        }
    }
    false
}

/// Whether a file of this descriptor is machine-written, by what its own language's header
/// conventions say; a descriptor without such a convention never says so.
pub open spec fn spec_is_generated(d: Descriptor, source: Seq<char>) -> bool {
    match d {
        Descriptor::Go => spec_go_is_generated(source),
        Descriptor::Java => spec_java_is_generated(source),
        Descriptor::Python => spec_python_is_generated(source),
        _ => false,
    }
}

impl Descriptor {
    pub fn is_generated(self, source: &str) -> (r: bool)
        ensures
            r == spec_is_generated(self, source@),
    {
        match self {
            Descriptor::Go => crate::go::is_generated(source),
            Descriptor::Java => crate::java_names::is_generated(source),
            Descriptor::Python => crate::python::is_generated(source),
            _ => false,
        }
    }
}

/// The Go file type.
pub struct Go;

/// The Java file type.
pub struct Java;

/// The PHP file type.
pub struct Php;

/// The Python file type.
pub struct Python;

impl Go {
    pub fn descriptor(&self) -> (r: Descriptor)
        ensures
            r == Descriptor::Go,
    {
        Descriptor::Go
    }
}

impl Java {
    pub fn descriptor(&self) -> (r: Descriptor)
        ensures
            r == Descriptor::Java,
    {
        Descriptor::Java
    }
}

impl Php {
    pub fn descriptor(&self) -> (r: Descriptor)
        ensures
            r == Descriptor::Php,
    {
        Descriptor::Php
    }
}

impl Python {
    pub fn descriptor(&self) -> (r: Descriptor)
        ensures
            r == Descriptor::Python,
    {
        Descriptor::Python
    }
}

pub fn language_ids() -> (r: Vec<&'static str>)
    ensures
        r@.map_values(|e: &'static str| e@) == spec_language_ids(),
{
    let all = descriptors();
    let ghost ids = spec_descriptors().map_values(|d: Descriptor| spec_language_id(d));
    let mut out: Vec<&'static str> = Vec::new();
    let mut i: usize = 0;
    while i < all.len()
        invariant
            all@ == spec_descriptors(),
            ids == spec_descriptors().map_values(|d: Descriptor| spec_language_id(d)),
            0 <= i <= all@.len(),
            out@.map_values(|e: &'static str| e@) == first_occurrences(ids.subrange(0, i as int)),
        decreases all@.len() - i,
    {
        let id = all[i].language_id();
        proof {
            assert(ids.subrange(0, i + 1).drop_last() =~= ids.subrange(0, i as int));
            assert(ids.subrange(0, i + 1).last() == id@);
        }
        if !contains_str(&out, id) {
            let ghost before = out@;
            out.push(id);
            assert(out@.map_values(|e: &'static str| e@) =~= before.map_values(|e: &'static str| e@).push(id@));
        }
        i = i + 1;
    }
    assert(ids.subrange(0, all@.len() as int) =~= ids);
    out
}

} // verus!

verus! {

/// The path's segments that name something: no empty ones, no `.`.
pub open spec fn segments(path: Seq<char>) -> Seq<Seq<char>>
    decreases path.len(),
{
    match crate::text::find_from(path, seq!['/'], 0) {
        Some(i) => {
            proof {
                crate::text::lemma_find_from(path, seq!['/'], 0);
            }
            let head = path.subrange(0, i);
            let rest = segments(path.subrange(i + 1, path.len() as int));
            if head.len() == 0 || head == seq!['.'] { rest } else { seq![head] + rest }
        },
        None => if path.len() == 0 || path == seq!['.'] { Seq::empty() } else { seq![path] },
    }
}

/// `Path::file_name`: the last segment, unless the path ends in `..`.
pub open spec fn file_name(path: Seq<char>) -> Option<Seq<char>> {
    let s = segments(path);
    if s.len() == 0 || s.last() == seq!['.', '.'] { None } else { Some(s.last()) }
}

/// `Path::extension`: what follows the last `.` of a name, unless nothing precedes that dot.
pub open spec fn extension(name: Seq<char>) -> Option<Seq<char>> {
    match crate::scope::rfind_from(name, seq!['.'], name.len() as int) {
        Some(i) => if i == 0 { None } else { Some(name.subrange(i + 1, name.len() as int)) },
        None => None,
    }
}

/// The first descriptor from position `k` that reads extension `ext`.
pub open spec fn reader_from(ds: Seq<Descriptor>, ext: Seq<char>, k: int) -> Option<Descriptor>
    decreases ds.len() - k,
{
    if k < 0 || k >= ds.len() {
        None
    } else if spec_extensions(ds[k]).contains(ext) {
        Some(ds[k])
    } else {
        reader_from(ds, ext, k + 1)
    }
}

/// The descriptor that scores a file: the first that reads its extension, unless its name ends
/// in one of that descriptor's unscored suffixes.
pub open spec fn spec_for_path(path: Seq<char>) -> Option<Descriptor> {
    match file_name(path) {
        None => None,
        Some(name) => match extension(name) {
            None => None,
            Some(ext) => match reader_from(spec_descriptors(), ext, 0) {
                None => None,
                Some(d) => if exists|i: int| 0 <= i < spec_unscored_suffixes(d).len()
                    && ends_with(name, #[trigger] spec_unscored_suffixes(d)[i]) {
                    None
                } else {
                    Some(d)
                },
            },
        },
    }
}

} // verus!

verus! {

pub open spec fn views(v: Seq<Vec<char>>) -> Seq<Seq<char>> {
    v.map_values(|x: Vec<char>| x@)
}

pub fn segments_of(path: &Vec<char>) -> (r: Vec<Vec<char>>)
    ensures
        views(r@) == segments(path@),
    decreases path@.len(),
{
    let slash = vec!['/'];
    assert(slash@ =~= seq!['/']);
    let n = path.len();
    let found = find_chars(path, &slash, 0);
    proof {
        crate::text::lemma_find_from(path@, slash@, 0);
        if let Some(i) = crate::text::find_from(path@, slash@, 0) {
            assert(crate::text::occurs_at(path@, slash@, i));
            assert(found == Some(i as usize));
        }
    }
    match found {
        Some(i) => {
            let head = sub_chars(path, 0, i);
            let tail = sub_chars(path, i + 1, n);
            let rest = segments_of(&tail);
            let skip = head.len() == 0 || (head.len() == 1 && head[0] == '.');
            proof {
                if head@.len() == 1 && head@[0] == '.' {
                    assert(head@ =~= seq!['.']);
                }
                if head@ == seq!['.'] {
                    assert(head@.len() == 1 && head@[0] == '.');
                }
            }
            if skip {
                rest
            } else {
                let mut out: Vec<Vec<char>> = Vec::new();
                out.push(head);
                let mut k: usize = 0;
                while k < rest.len()
                    invariant
                        0 <= k <= rest@.len(),
                        out@.len() == k + 1,
                        views(out@) == seq![head@] + views(rest@).subrange(0, k as int),
                    decreases rest@.len() - k,
                {
                    let ghost before = out@;
                    out.push(sub_chars(&rest[k], 0, rest[k].len()));
                    proof {
                        assert(rest@[k as int]@.subrange(0, rest@[k as int]@.len() as int) =~= rest@[k as int]@);
                        assert(views(out@) =~= views(before).push(rest@[k as int]@));
                        assert(views(rest@).subrange(0, k + 1) =~= views(rest@).subrange(0, k as int).push(views(rest@)[k as int]));
                    }
                    k = k + 1;
                }
                assert(views(rest@).subrange(0, rest@.len() as int) =~= views(rest@));
                out
            }
        },
        None => {
            let skip = n == 0 || (n == 1 && path[0] == '.');
            proof {
                if path@.len() == 1 && path@[0] == '.' {
                    assert(path@ =~= seq!['.']);
                }
                if path@ == seq!['.'] {
                    assert(path@.len() == 1 && path@[0] == '.');
                }
            }
            let mut out: Vec<Vec<char>> = Vec::new();
            if !skip {
                out.push(sub_chars(path, 0, n));
                assert(path@.subrange(0, n as int) =~= path@);
            }
            assert(views(out@) =~= segments(path@));
            out
        },
    }
}

fn extension_exec(name: &Vec<char>) -> (r: Option<Vec<char>>)
    ensures
        r is Some <==> extension(name@) is Some,
        r matches Some(e) ==> extension(name@) == Some(e@),
{
    let n = name.len();
    let mut j: usize = n;
    loop
        invariant
            n == name@.len(),
            j <= n,
            crate::scope::rfind_from(name@, seq!['.'], n as int) == crate::scope::rfind_from(name@, seq!['.'], j as int),
        decreases j,
    {
        if j < n && name[j] == '.' {
            assert(name@.subrange(j as int, j + 1) =~= seq!['.']);
            if j == 0 {
                return None;
            }
            return Some(sub_chars(name, j + 1, n));
        }
        proof {
            if j < n {
                assert(!crate::text::occurs_at(name@, seq!['.'], j as int)) by {
                    if crate::text::occurs_at(name@, seq!['.'], j as int) {
                        assert(name@.subrange(j as int, j + 1)[0] == name@[j as int]);
                    }
                }
            } else {
                assert(!crate::text::occurs_at(name@, seq!['.'], j as int));
            }
        }
        if j == 0 {
            assert(crate::scope::rfind_from(name@, seq!['.'], -1) is None);
            return None;
        }
        j = j - 1;
    }
}

fn reads(d: Descriptor, ext: &Vec<char>) -> (r: bool)
    ensures
        r == spec_extensions(d).contains(ext@),
{
    let exts = d.extensions();
    let e = string_from(ext.as_slice());
    contains_str(&exts, e.as_str())
}

/// The descriptor that scores a file, by its extension; `None` for a file no language reads or
/// one whose name marks it as signatures only.
pub fn for_path(path: &str) -> (r: Option<Descriptor>)
    ensures
        r == spec_for_path(path@),
{
    let chars = chars_of(path);
    let segs = segments_of(&chars);
    if segs.len() == 0 {
        return None;
    }
    let last = &segs[segs.len() - 1];
    assert(views(segs@).last() == last@);
    if last.len() == 2 && last[0] == '.' && last[1] == '.' {
        assert(last@ =~= seq!['.', '.']);
        return None;
    }
    assert(last@ != seq!['.', '.']) by {
        if last@ == seq!['.', '.'] {
            assert(last@.len() == 2 && last@[0] == '.' && last@[1] == '.');
        }
    }
    let ext = match extension_exec(last) {
        Some(e) => e,
        None => return None,
    };
    let all = descriptors();
    assert(chars@ == path@);
    assert(file_name(path@) == Some(last@));
    let mut k: usize = 0;
    while k < all.len()
        invariant
            all@ == spec_descriptors(),
            file_name(path@) == Some(last@),
            extension(last@) == Some(ext@),
            0 <= k <= all@.len(),
            reader_from(spec_descriptors(), ext@, 0) == reader_from(spec_descriptors(), ext@, k as int),
        decreases all@.len() - k,
    {
        let d = all[k];
        if reads(d, &ext) {
            let name = string_from(last.as_slice());
            let suffixes = d.unscored_suffixes();
            assert(reader_from(spec_descriptors(), ext@, 0) == Some(d));
            assert(file_name(path@) == Some(last@));
            let mut j: usize = 0;
            while j < suffixes.len()
                invariant
                    0 <= j <= suffixes@.len(),
                    suffixes@.map_values(|e: &'static str| e@) == spec_unscored_suffixes(d),
                    name@ == last@,
                    reader_from(spec_descriptors(), ext@, 0) == Some(d),
                    file_name(path@) == Some(last@),
                    extension(last@) == Some(ext@),
                    forall|m: int| 0 <= m < j ==> !ends_with(last@, #[trigger] spec_unscored_suffixes(d)[m]),
                decreases suffixes@.len() - j,
            {
                assert(suffixes@.map_values(|e: &'static str| e@)[j as int] == suffixes@[j as int]@);
                if ends_with_lit(last, suffixes[j]) {
                    assert(ends_with(last@, spec_unscored_suffixes(d)[j as int]));
                    return None;
                }
                j = j + 1;
            }
            return Some(d);
        }
        k = k + 1;
    }
    None
}

} // verus!
