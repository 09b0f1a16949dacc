//! Paths as a report shows them and as a baseline keys them: forward slashes on every
//! platform, no `./`, relative to the domain that owns them.
use vstd::prelude::*;
use crate::java_names::join;
use crate::registry::{file_name, segments, views};
use crate::policy::{join_path, spec_join_path, spec_parent};
use crate::text::{chars_of, string_from, sub_chars, find_chars, find_from, lemma_find_from, occurs_at};

verus! {

/// The text with every `\` made `/`.
pub open spec fn forward_slashes(s: Seq<char>) -> Seq<char> {
    s.map_values(|c: char| if c == '\\' { '/' } else { c })
}

/// A path's components joined by `/`, behind a `/` when it is absolute.
pub open spec fn tidy(path: Seq<char>) -> Seq<char> {
    let body = join(segments(path), "/"@);
    if path.len() > 0 && path[0] == '/' { seq!['/'] + body } else { body }
}

/// `bonsai-lint .` and `bonsai-lint src` must print `src/a.php` the same way, so `./` is
/// dropped; and the separator is `/` everywhere, since these paths are read out of JSON and
/// compared in CI.
pub open spec fn spec_display_path(path: Seq<char>) -> Seq<char> {
    let t = tidy(path);
    if t.len() == 0 { seq!['.'] } else { forward_slashes(t) }
}

pub fn forward_slashes_exec(s: &Vec<char>) -> (r: Vec<char>)
    ensures
        r@ == forward_slashes(s@),
{
    let mut out: Vec<char> = Vec::new();
    let mut i: usize = 0;
    while i < s.len()
        invariant
            0 <= i <= s@.len(),
            out@ == forward_slashes(s@.subrange(0, i as int)),
        decreases s@.len() - i,
    {
        out.push(if s[i] == '\\' { '/' } else { s[i] });
        proof {
            assert(forward_slashes(s@.subrange(0, i + 1)) =~= forward_slashes(s@.subrange(0, i as int)).push(if s@[i as int] == '\\' { '/' } else { s@[i as int] }));
        }
        i = i + 1;
    }
    assert(s@.subrange(0, s@.len() as int) =~= s@);
    out
}

/// `parts` joined by `sep`.
pub fn join_exec(parts: &Vec<Vec<char>>, sep: &Vec<char>) -> (r: Vec<char>)
    ensures
        r@ == join(views(parts@), sep@),
{
    let mut out: Vec<char> = Vec::new();
    let mut k: usize = 0;
    while k < parts.len()
        invariant
            0 <= k <= parts@.len(),
            out@ == join(views(parts@).subrange(0, k as int), sep@),
        decreases parts@.len() - k,
    {
        let ghost before = out@;
        if k > 0 {
            let mut j: usize = 0;
            while j < sep.len()
                invariant
                    0 <= j <= sep@.len(),
                    out@ == before + sep@.subrange(0, j as int),
                decreases sep@.len() - j,
            {
                out.push(sep[j]);
                proof {
                    assert(before + sep@.subrange(0, j + 1) =~= (before + sep@.subrange(0, j as int)).push(sep@[j as int]));
                }
                j = j + 1;
            }
            assert(sep@.subrange(0, sep@.len() as int) =~= sep@);
        }
        let ghost mid = out@;
        let part = &parts[k];
        let mut i: usize = 0;
        while i < part.len()
            invariant
                0 <= i <= part@.len(),
                out@ == mid + part@.subrange(0, i as int),
            decreases part@.len() - i,
        {
            out.push(part[i]);
            proof {
                assert(mid + part@.subrange(0, i + 1) =~= (mid + part@.subrange(0, i as int)).push(part@[i as int]));
            }
            i = i + 1;
        }
        proof {
            assert(part@.subrange(0, part@.len() as int) =~= part@);
            let s = views(parts@).subrange(0, k + 1);
            assert(s.drop_last() =~= views(parts@).subrange(0, k as int));
            assert(s.last() == part@);
            if k == 0 {
                assert(out@ =~= part@);
            } else {
                assert(out@ =~= before + sep@ + part@);
            }
        }
        k = k + 1;
    }
    assert(views(parts@).subrange(0, parts@.len() as int) =~= views(parts@));
    out
}

fn tidy_exec(path: &Vec<char>) -> (r: Vec<char>)
    ensures
        r@ == tidy(path@),
{
    let segs = crate::registry::segments_of(path);
    let slash = vec!['/'];
    proof {
        reveal_strlit("/");
        assert(slash@ =~= "/"@);
    }
    let body = join_exec(&segs, &slash);
    if path.len() > 0 && path[0] == '/' {
        let mut out = vec!['/'];
        let mut i: usize = 0;
        while i < body.len()
            invariant
                0 <= i <= body@.len(),
                out@ == seq!['/'] + body@.subrange(0, i as int),
            decreases body@.len() - i,
        {
            out.push(body[i]);
            proof {
                assert(seq!['/'] + body@.subrange(0, i + 1) =~= (seq!['/'] + body@.subrange(0, i as int)).push(body@[i as int]));
            }
            i = i + 1;
        }
        assert(body@.subrange(0, body@.len() as int) =~= body@);
        out
    } else {
        body
    }
}

/// A path as a report prints it.
pub fn display_path(path: &str) -> (r: String)
    ensures
        r@ == spec_display_path(path@),
{
    let p = chars_of(path);
    let t = tidy_exec(&p);
    if t.len() == 0 {
        let dot = vec!['.'];
        assert(dot@ =~= seq!['.']);
        string_from(dot.as_slice())
    } else {
        let f = forward_slashes_exec(&t);
        string_from(f.as_slice())
    }
}

/// `pre` opens `s`.
pub open spec fn is_prefix(pre: Seq<Seq<char>>, s: Seq<Seq<char>>) -> bool {
    pre.len() <= s.len() && s.subrange(0, pre.len() as int) == pre
}

/// Whether a path lies inside a root, component by component, as `Path::starts_with` answers.
pub open spec fn spec_within(path: Seq<char>, root: Seq<char>) -> bool {
    (path.len() > 0 && path[0] == '/') == (root.len() > 0 && root[0] == '/') && is_prefix(segments(root), segments(path))
}

/// The key a baseline records a file under: its path relative to its domain's root, with `/`
/// between components, so the key survives a checkout anywhere, on any platform. A path
/// outside the root keys as itself.
pub open spec fn spec_normalize_key(path: Seq<char>, root: Seq<char>) -> Seq<char> {
    if spec_within(path, root) {
        forward_slashes(rest_of(path, root))
    } else {
        forward_slashes(tidy(path))
    }
}

fn is_prefix_exec(pre: &Vec<Vec<char>>, s: &Vec<Vec<char>>) -> (r: bool)
    ensures
        r == is_prefix(views(pre@), views(s@)),
{
    if pre.len() > s.len() {
        return false;
    }
    let mut i: usize = 0;
    while i < pre.len()
        invariant
            pre@.len() <= s@.len(),
            0 <= i <= pre@.len(),
            forall|k: int| 0 <= k < i ==> views(pre@)[k] == views(s@)[k],
        decreases pre@.len() - i,
    {
        if !crate::text::chars_eq(&pre[i], &s[i]) {
            assert(views(s@).subrange(0, pre@.len() as int)[i as int] != views(pre@)[i as int]);
            return false;
        }
        i = i + 1;
    }
    assert(views(s@).subrange(0, pre@.len() as int) =~= views(pre@));
    true
}

/// Whether `path` lies within `root`, component by component.
pub fn within(path: &str, root: &str) -> (r: bool)
    ensures
        r == spec_within(path@, root@),
{
    let p = chars_of(path);
    let q = chars_of(root);
    let pa = p.len() > 0 && p[0] == '/';
    let qa = q.len() > 0 && q[0] == '/';
    if pa != qa {
        return false;
    }
    let ps = crate::registry::segments_of(&p);
    let qs = crate::registry::segments_of(&q);
    is_prefix_exec(&qs, &ps)
}

/// The components of `path` after those of `root`, joined by `/`.
pub open spec fn rest_of(path: Seq<char>, root: Seq<char>) -> Seq<char> {
    join(segments(path).subrange(segments(root).len() as int, segments(path).len() as int), "/"@)
}

/// A path relative to a root it lies within, as `Path::strip_prefix` leaves it; a path outside
/// the root is left as it is.
pub open spec fn spec_relative(path: Seq<char>, root: Seq<char>) -> Seq<char> {
    if spec_within(path, root) { rest_of(path, root) } else { path }
}

fn rest_exec(p: &Vec<char>, q: &Vec<char>) -> (r: Vec<char>)
    requires
        is_prefix(segments(q@), segments(p@)),
    ensures
        r@ == rest_of(p@, q@),
{
    let ps = crate::registry::segments_of(p);
    let qs = crate::registry::segments_of(q);
    let mut rest: Vec<Vec<char>> = Vec::new();
    let mut i = qs.len();
    assert(views(qs@).len() <= views(ps@).len());
    while i < ps.len()
        invariant
            qs@.len() <= i <= ps@.len(),
            views(rest@) == views(ps@).subrange(qs@.len() as int, i as int),
        decreases ps@.len() - i,
    {
        let ghost before = rest@;
        let piece = sub_chars(&ps[i], 0, ps[i].len());
        proof {
            assert(ps@[i as int]@.subrange(0, ps@[i as int]@.len() as int) =~= ps@[i as int]@);
        }
        rest.push(piece);
        proof {
            assert(views(rest@) =~= views(before).push(piece@));
            assert(views(ps@).subrange(qs@.len() as int, i + 1) =~= views(ps@).subrange(qs@.len() as int, i as int).push(views(ps@)[i as int]));
        }
        i = i + 1;
    }
    let slash = vec!['/'];
    proof {
        reveal_strlit("/");
        assert(slash@ =~= "/"@);
    }
    join_exec(&rest, &slash)
}

/// `path` relative to `root` when it lies within it, else `path` unchanged.
pub fn relative(path: &str, root: &str) -> (r: String)
    ensures
        r@ == spec_relative(path@, root@),
{
    if within(path, root) {
        let p = chars_of(path);
        let q = chars_of(root);
        let joined = rest_exec(&p, &q);
        string_from(joined.as_slice())
    } else {
        path.to_owned()
    }
}

/// The key a baseline records `path` under, for a domain rooted at `root`.
pub fn normalize_key(path: &str, root: &str) -> (r: String)
    ensures
        r@ == spec_normalize_key(path@, root@),
{
    let p = chars_of(path);
    if within(path, root) {
        let q = chars_of(root);
        let joined = rest_exec(&p, &q);
        let f = forward_slashes_exec(&joined);
        string_from(f.as_slice())
    } else {
        let t = tidy_exec(&p);
        let f = forward_slashes_exec(&t);
        string_from(f.as_slice())
    }
}


/// For a path that ends in a name, the path above it and the name, as `Path::parent` and
/// `Path::file_name` give them.
pub open spec fn spec_split_parent(path: Seq<char>) -> Option<(Seq<char>, Seq<char>)> {
    match (spec_parent(path), file_name(path)) {
        (Some(p), Some(n)) => Some((p, n)),
        _ => None,
    }
}

pub fn split_parent(path: &str) -> (r: Option<(String, String)>)
    ensures
        match spec_split_parent(path@) {
            Some((p, n)) => r matches Some((rp, rn)) && rp@ == p && rn@ == n,
            None => r is None,
        },
{
    let p = chars_of(path);
    let segs = crate::registry::segments_of(&p);
    let n = segs.len();
    if n == 0 {
        return None;
    }
    let last = &segs[n - 1];
    if last.len() == 2 && last[0] == '.' && last[1] == '.' {
        assert(last@ =~= seq!['.', '.']);
        return None;
    }
    proof {
        if last@ == seq!['.', '.'] {
            assert(last@.len() == 2);
        }
    }
    let name = crate::text::sub_chars(last, 0, last.len());
    assert(last@.subrange(0, last@.len() as int) =~= last@);
    let above = crate::policy::prefix_path_exec(path, n - 1);
    Some((above, string_from(name.as_slice())))
}

/// Every path compared against a domain root is resolved first, so `/tmp` and `/private/tmp`
/// cannot end up on opposite sides of a root: the canonical form where the file exists; else,
/// for a file that does not exist yet, such as an unsaved editor buffer, its canonical
/// directory and its name; else the absolute path as it is. `canonical` is the path's canonical
/// form if it has one, `parent_canonical` that of the directory `split_parent` finds above
/// `absolute`.
pub open spec fn spec_resolve(canonical: Option<Seq<char>>, absolute: Seq<char>, parent_canonical: Option<Seq<char>>) -> Seq<char> {
    match canonical {
        Some(c) => c,
        None => match (spec_split_parent(absolute), parent_canonical) {
            (Some((_, name)), Some(pc)) => spec_join_path(pc, name),
            _ => absolute,
        },
    }
}

pub fn resolve(canonical: Option<&str>, absolute: &str, parent_canonical: Option<&str>) -> (r: String)
    ensures
        r@ == spec_resolve(match canonical { Some(c) => Some(c@), None => None }, absolute@,
            match parent_canonical { Some(c) => Some(c@), None => None }),
{
    match canonical {
        Some(c) => c.to_owned(),
        None => match (split_parent(absolute), parent_canonical) {
            (Some((_, name)), Some(pc)) => join_path(pc, name.as_str()),
            _ => absolute.to_owned(),
        },
    }
}

} // verus!

verus! {

/// A reported path uses `/` between its components on every platform: no `\` is left in it.
pub proof fn law_reported_paths_use_forward_slashes(path: Seq<char>)
    ensures
        forall|i: int| 0 <= i < spec_display_path(path).len() ==> spec_display_path(path)[i] != '\\',
{
    let t = tidy(path);
    if t.len() > 0 {
        assert forall|i: int| 0 <= i < forward_slashes(t).len() implies forward_slashes(t)[i] != '\\' by {
            assert(forward_slashes(t)[i] == if t[i] == '\\' { '/' } else { t[i] });
        }
    }
}

} // verus!

verus! {

proof fn lemma_find_first(s: Seq<char>, needle: Seq<char>, from: int, j: int)
    requires
        0 <= from <= j,
        occurs_at(s, needle, j),
        forall|i: int| from <= i < j ==> !occurs_at(s, needle, i),
    ensures
        find_from(s, needle, from) == Some(j),
    decreases j - from,
{
    if from < j {
        lemma_find_first(s, needle, from + 1, j);
    }
}

proof fn lemma_find_from_first(s: Seq<char>, needle: Seq<char>, from: int)
    requires
        0 <= from,
    ensures
        find_from(s, needle, from) matches Some(i) ==> forall|j: int| from <= j < i ==> !occurs_at(s, needle, j),
    decreases s.len() + 1 - from,
{
    if from <= s.len() && !occurs_at(s, needle, from) {
        lemma_find_from_first(s, needle, from + 1);
    }
}

/// Joining two paths with `/` joins their components.
proof fn lemma_segments_concat(a: Seq<char>, b: Seq<char>)
    ensures
        segments(a + seq!['/'] + b) == segments(a) + segments(b),
    decreases a.len(),
{
    let x = a + seq!['/'] + b;
    let sl = seq!['/'];
    lemma_find_from(a, sl, 0);
    lemma_find_from(x, sl, 0);
    assert forall|i: int| 0 <= i < a.len() implies occurs_at(x, sl, i) == occurs_at(a, sl, i) by {
        assert(x.subrange(i, i + 1) =~= a.subrange(i, i + 1));
    }
    match find_from(a, sl, 0) {
        None => {
            assert(x.subrange(a.len() as int, a.len() as int + 1) =~= sl);
            lemma_find_first(x, sl, 0, a.len() as int);
            assert(x.subrange(0, a.len() as int) =~= a);
            assert(x.subrange(a.len() as int + 1, x.len() as int) =~= b);
        },
        Some(i) => {
            lemma_find_from_first(a, sl, 0);
            lemma_find_first(x, sl, 0, i);
            let a2 = a.subrange(i + 1, a.len() as int);
            lemma_segments_concat(a2, b);
            assert(x.subrange(0, i) =~= a.subrange(0, i));
            assert(x.subrange(i + 1, x.len() as int) =~= a2 + seq!['/'] + b);
            let head = a.subrange(0, i);
            if head.len() == 0 || head == seq!['.'] {
            } else {
                assert(seq![head] + (segments(a2) + segments(b)) =~= (seq![head] + segments(a2)) + segments(b));
            }
        },
    }
}

/// The key of a file at `p` below a domain root, wherever that root is.
proof fn lemma_key_below_root(root: Seq<char>, p: Seq<char>)
    requires
        !(p.len() > 0 && p[0] == '/'),
    ensures
        spec_normalize_key(spec_join_path(root, p), root) == forward_slashes(join(segments(p), "/"@)),
{
    let joined = spec_join_path(root, p);
    if root.len() == 0 {
        assert(segments(root) =~= Seq::<Seq<char>>::empty()) by {
            reveal_with_fuel(find_from, 2);
            assert(!occurs_at(root, seq!['/'], 0));
        }
        assert(segments(joined).subrange(0, 0) =~= segments(root));
        assert(is_prefix(segments(root), segments(joined)));
        assert(segments(joined).subrange(0, segments(joined).len() as int) =~= segments(p));
    } else {
        let r0 = if root.last() == '/' { root.drop_last() } else { root };
        if root.last() == '/' {
            assert(root =~= r0 + seq!['/'] + Seq::<char>::empty());
            lemma_segments_concat(r0, Seq::<char>::empty());
            assert(find_from(Seq::<char>::empty(), seq!['/'], 0) is None) by {
                reveal_with_fuel(find_from, 2);
                assert(!occurs_at(Seq::<char>::empty(), seq!['/'], 0));
            }
            assert(segments(Seq::<char>::empty()) =~= Seq::<Seq<char>>::empty());
            assert(segments(root) =~= segments(r0));
            assert(joined =~= r0 + seq!['/'] + p);
        } else {
            assert(joined =~= r0 + seq!['/'] + p);
        }
        lemma_segments_concat(r0, p);
        let sr = segments(root);
        let sj = segments(joined);
        assert(sj =~= sr + segments(p));
        assert(sj.subrange(0, sr.len() as int) =~= sr);
        assert(joined[0] == root[0]);
        assert(sj.subrange(sr.len() as int, sj.len() as int) =~= segments(p));
    }
}

/// Baseline keys are relative to the domain root, so they survive the repository being checked
/// out anywhere: a file at the same place below two roots keys the same.
pub proof fn law_keys_survive_relocation(root_a: Seq<char>, root_b: Seq<char>, p: Seq<char>)
    requires
        !(p.len() > 0 && p[0] == '/'),
    ensures
        spec_normalize_key(spec_join_path(root_a, p), root_a) == spec_normalize_key(spec_join_path(root_b, p), root_b),
{
    lemma_key_below_root(root_a, p);
    lemma_key_below_root(root_b, p);
}

} // verus!

verus! {

/// A baseline key uses `/` between its components on every platform, so a ledger written on
/// one platform matches on another.
pub proof fn law_keys_use_forward_slashes(path: Seq<char>, root: Seq<char>)
    ensures
        forall|i: int| 0 <= i < spec_normalize_key(path, root).len() ==> spec_normalize_key(path, root)[i] != '\\',
{
    let t = if spec_within(path, root) { rest_of(path, root) } else { tidy(path) };
    assert forall|i: int| 0 <= i < forward_slashes(t).len() implies forward_slashes(t)[i] != '\\' by {
        assert(forward_slashes(t)[i] == if t[i] == '\\' { '/' } else { t[i] });
    }
}

} // verus!
