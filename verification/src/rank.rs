//! The order a report lists findings in: highest score first, then by position, so the worst
//! offender heads every report whichever way the files were read.
use vstd::prelude::*;
use crate::baseline::Located;
use crate::order::{chars_lt, lemma_text_lt_asymmetric, lemma_text_lt_irreflexive, lemma_text_lt_total, lemma_text_lt_transitive, text_lt};
use crate::registry::{segments, segments_of, views};
use crate::text::{chars_eq, chars_of};

verus! {

/// A path component as `Path` orders them: the root, `.`, `..`, then names by their bytes.
pub type Component = (u8, Seq<char>);

/// The components of a path as a report prints it.
pub open spec fn components(p: Seq<char>) -> Seq<Component> {
    if p == seq!['.'] {
        seq![(1u8, Seq::empty())]
    } else {
        let segs = segments(p).map_values(|s: Seq<char>| if s == seq!['.', '.'] { (2u8, Seq::<char>::empty()) } else { (3u8, s) });
        if p.len() > 0 && p[0] == '/' { seq![(0u8, Seq::<char>::empty())] + segs } else { segs }
    }
}

pub open spec fn comp_lt(a: Component, b: Component) -> bool {
    a.0 < b.0 || (a.0 == b.0 && text_lt(a.1, b.1))
}

/// Paths compare component by component, a proper prefix first.
pub open spec fn comps_lt(a: Seq<Component>, b: Seq<Component>) -> bool
    decreases a.len(),
{
    if a.len() == 0 {
        b.len() > 0
    } else if b.len() == 0 {
        false
    } else if a[0] != b[0] {
        comp_lt(a[0], b[0])
    } else {
        comps_lt(a.drop_first(), b.drop_first())
    }
}

proof fn lemma_comp_lt(a: Component, b: Component, c: Component)
    ensures
        !comp_lt(a, a),
        comp_lt(a, b) ==> !comp_lt(b, a),
        comp_lt(a, b) && comp_lt(b, c) ==> comp_lt(a, c),
        a == b || comp_lt(a, b) || comp_lt(b, a),
{
    lemma_text_lt_irreflexive(a.1);
    lemma_text_lt_asymmetric(a.1, b.1);
    lemma_text_lt_transitive(a.1, b.1, c.1);
    lemma_text_lt_total(a.1, b.1);
}

pub proof fn lemma_comps_lt(a: Seq<Component>, b: Seq<Component>, c: Seq<Component>)
    ensures
        !comps_lt(a, a),
        comps_lt(a, b) ==> !comps_lt(b, a),
        comps_lt(a, b) && comps_lt(b, c) ==> comps_lt(a, c),
        a == b || comps_lt(a, b) || comps_lt(b, a),
    decreases a.len(),
{
    if a.len() > 0 && b.len() > 0 && c.len() > 0 {
        lemma_comp_lt(a[0], b[0], c[0]);
        lemma_comp_lt(a[0], c[0], b[0]);
        lemma_comp_lt(b[0], a[0], c[0]);
        lemma_comps_lt(a.drop_first(), b.drop_first(), c.drop_first());
    } else if a.len() > 0 && b.len() > 0 {
        lemma_comp_lt(a[0], b[0], b[0]);
        lemma_comps_lt(a.drop_first(), b.drop_first(), b.drop_first());
    } else if a.len() > 0 {
        lemma_comps_lt(a.drop_first(), a.drop_first(), a.drop_first());
        lemma_comp_lt(a[0], a[0], a[0]);
    }
    if a.len() > 0 && b.len() > 0 && a[0] == b[0] && a.drop_first() == b.drop_first() {
        assert(a =~= seq![a[0]] + a.drop_first());
        assert(b =~= seq![b[0]] + b.drop_first());
    }
    if a.len() == 0 && b.len() == 0 {
        assert(a =~= b);
    }
}

/// What a finding sorts by: its score, highest first, then its path and line.
pub open spec fn rank_key(l: Located) -> (u32, Seq<Component>, usize) {
    (l.finding.score, components(l.path@), l.finding.line)
}

pub open spec fn key_before(a: (u32, Seq<Component>, usize), b: (u32, Seq<Component>, usize)) -> bool {
    a.0 > b.0 || (a.0 == b.0 && (comps_lt(a.1, b.1) || (a.1 == b.1 && a.2 < b.2)))
}

/// `a` is listed before `b`.
pub open spec fn ranks_before(a: Located, b: Located) -> bool {
    key_before(rank_key(a), rank_key(b))
}

proof fn lemma_key_before(a: (u32, Seq<Component>, usize), b: (u32, Seq<Component>, usize), c: (u32, Seq<Component>, usize))
    ensures
        !key_before(a, a),
        key_before(a, b) ==> !key_before(b, a),
        key_before(a, b) && key_before(b, c) ==> key_before(a, c),
        !key_before(b, a) && !key_before(c, b) ==> !key_before(c, a),
{
    lemma_comps_lt(a.1, b.1, c.1);
    lemma_comps_lt(b.1, a.1, c.1);
    lemma_comps_lt(c.1, b.1, a.1);
    lemma_comps_lt(a.1, c.1, b.1);
    lemma_comps_lt(b.1, c.1, a.1);
    lemma_comps_lt(c.1, a.1, b.1);
}

/// Listed in rank order: nothing ranks before what precedes it.
pub open spec fn ranked(s: Seq<Located>) -> bool {
    forall|a: int, b: int| 0 <= a < b < s.len() ==> !ranks_before(#[trigger] s[b], #[trigger] s[a])
}

fn components_exec(p: &Vec<char>) -> (r: Vec<(u8, Vec<char>)>)
    ensures
        r@.map_values(|c: (u8, Vec<char>)| (c.0, c.1@)) == components(p@),
{
    if p.len() == 1 && p[0] == '.' {
        assert(p@ =~= seq!['.']);
        let r = vec![(1u8, Vec::new())];
        assert(r@.map_values(|c: (u8, Vec<char>)| (c.0, c.1@)) =~= components(p@));
        return r;
    }
    assert(p@ != seq!['.']) by {
        if p@ == seq!['.'] {
            assert(p@.len() == 1 && p@[0] == '.');
        }
    }
    let segs = segments_of(p);
    let mut out: Vec<(u8, Vec<char>)> = Vec::new();
    let absolute = p.len() > 0 && p[0] == '/';
    if absolute {
        out.push((0u8, Vec::new()));
    }
    let ghost head = out@.map_values(|c: (u8, Vec<char>)| (c.0, c.1@));
    let ghost mapped = views(segs@).map_values(|s: Seq<char>| if s == seq!['.', '.'] { (2u8, Seq::<char>::empty()) } else { (3u8, s) });
    let mut i: usize = 0;
    while i < segs.len()
        invariant
            0 <= i <= segs@.len(),
            mapped == views(segs@).map_values(|s: Seq<char>| if s == seq!['.', '.'] { (2u8, Seq::<char>::empty()) } else { (3u8, s) }),
            out@.map_values(|c: (u8, Vec<char>)| (c.0, c.1@)) == head + mapped.subrange(0, i as int),
        decreases segs@.len() - i,
    {
        let s = &segs[i];
        let parent = s.len() == 2 && s[0] == '.' && s[1] == '.';
        proof {
            if s@.len() == 2 && s@[0] == '.' && s@[1] == '.' {
                assert(s@ =~= seq!['.', '.']);
            }
            if s@ == seq!['.', '.'] {
                assert(s@.len() == 2 && s@[0] == '.' && s@[1] == '.');
            }
        }
        let ghost before = out@;
        if parent {
            out.push((2u8, Vec::new()));
        } else {
            out.push((3u8, crate::text::sub_chars(s, 0, s.len())));
            assert(s@.subrange(0, s@.len() as int) =~= s@);
        }
        proof {
            assert(out@.map_values(|c: (u8, Vec<char>)| (c.0, c.1@)) =~= before.map_values(|c: (u8, Vec<char>)| (c.0, c.1@)).push(mapped[i as int]));
            assert(mapped.subrange(0, i + 1) =~= mapped.subrange(0, i as int).push(mapped[i as int]));
        }
        i = i + 1;
    }
    proof {
        assert(mapped.subrange(0, segs@.len() as int) =~= mapped);
        if absolute {
            assert(head =~= seq![(0u8, Seq::<char>::empty())]);
        } else {
            assert(head =~= Seq::<Component>::empty());
            assert(head + mapped =~= mapped);
        }
    }
    out
}

pub open spec fn comp_views(v: Seq<(u8, Vec<char>)>) -> Seq<Component> {
    v.map_values(|c: (u8, Vec<char>)| (c.0, c.1@))
}

fn comps_compare(a: &Vec<(u8, Vec<char>)>, b: &Vec<(u8, Vec<char>)>) -> (r: (bool, bool))
    ensures
        r.0 == comps_lt(comp_views(a@), comp_views(b@)),
        r.1 == (comp_views(a@) == comp_views(b@)),
{
    let ghost x = comp_views(a@);
    let ghost y = comp_views(b@);
    let mut i: usize = 0;
    assert(x.subrange(0, x.len() as int) =~= x);
    assert(y.subrange(0, y.len() as int) =~= y);
    while i < a.len() && i < b.len() && a[i].0 == b[i].0 && chars_eq(&a[i].1, &b[i].1)
        invariant
            x == comp_views(a@),
            y == comp_views(b@),
            0 <= i <= a@.len(),
            i <= b@.len(),
            forall|k: int| 0 <= k < i ==> x[k] == y[k],
            comps_lt(x, y) == comps_lt(x.subrange(i as int, x.len() as int), y.subrange(i as int, y.len() as int)),
        decreases a@.len() - i,
    {
        proof {
            assert(x[i as int] == y[i as int]);
            assert(x.subrange(i as int, x.len() as int).drop_first() =~= x.subrange(i + 1, x.len() as int));
            assert(y.subrange(i as int, y.len() as int).drop_first() =~= y.subrange(i + 1, y.len() as int));
        }
        i = i + 1;
    }
    if i == a.len() && i == b.len() {
        assert(x =~= y);
        return (false, true);
    }
    if i == a.len() {
        assert(x.len() != y.len());
        return (true, false);
    }
    if i == b.len() {
        assert(x.len() != y.len());
        return (false, false);
    }
    assert(x[i as int] != y[i as int]);
    assert(x.subrange(i as int, x.len() as int)[0] == x[i as int]);
    assert(y.subrange(i as int, y.len() as int)[0] == y[i as int]);
    let lt = a[i].0 < b[i].0 || (a[i].0 == b[i].0 && chars_lt(&a[i].1, &b[i].1));
    (lt, false)
}

fn before_exec(a: &Located, b: &Located) -> (r: bool)
    ensures
        r == ranks_before(*a, *b),
{
    if a.finding.score != b.finding.score {
        return a.finding.score > b.finding.score;
    }
    let pa = components_exec(&chars_of(a.path.as_str()));
    let pb = components_exec(&chars_of(b.path.as_str()));
    let (lt, eq) = comps_compare(&pa, &pb);
    lt || (eq && a.finding.line < b.finding.line)
}

/// `after` is `before` rearranged, item `k` of it coming from position `pos[k]`, and findings
/// that rank alike keep the order they came in.
pub open spec fn stably_from(before: Seq<Located>, after: Seq<Located>, pos: Seq<int>) -> bool {
    &&& pos.len() == before.len()
    &&& after.len() == before.len()
    &&& forall|k: int| 0 <= k < pos.len() ==> 0 <= #[trigger] pos[k] < pos.len() && after[k] == before[pos[k]]
    &&& forall|a: int, b: int| 0 <= a < b < pos.len() ==> #[trigger] pos[a] != #[trigger] pos[b]
    &&& forall|a: int, b: int| 0 <= a < b < pos.len() && rank_key(#[trigger] after[a]) == rank_key(#[trigger] after[b]) ==> pos[a] < pos[b]
}

/// Highest score first, then by path component by component, then by line; findings that
/// rank alike keep the order they were found in.
pub fn rank(located: &mut Vec<Located>)
    ensures
        final(located)@.to_multiset() == old(located)@.to_multiset(),
        ranked(final(located)@),
        exists|pos: Seq<int>| #[trigger] stably_from(old(located)@, final(located)@, pos),
{
    broadcast use vstd::seq_lib::to_multiset_remove, vstd::seq_lib::to_multiset_insert;
    let ghost orig = located@;
    let n = located.len();
    let mut i: usize = 1;
    let ghost mut pos: Seq<int> = Seq::new(n as nat, |k: int| k);
    if n == 0 {
        assert(stably_from(orig, located@, pos));
        return;
    }
    while i < n
        invariant
            n == located@.len(),
            n == orig.len(),
            1 <= i <= n,
            located@.to_multiset() == orig.to_multiset(),
            forall|a: int, b: int| 0 <= a < b < i ==> !ranks_before(#[trigger] located@[b], #[trigger] located@[a]),
            pos.len() == n,
            forall|k: int| 0 <= k < n ==> located@[k] == orig[#[trigger] pos[k]],
            forall|k: int| i <= k < n ==> #[trigger] pos[k] == k,
            forall|k: int| 0 <= k < i ==> 0 <= #[trigger] pos[k] < i,
            forall|a: int, b: int| 0 <= a < b < n ==> #[trigger] pos[a] != #[trigger] pos[b],
            forall|a: int, b: int| 0 <= a < b < i && rank_key(#[trigger] located@[a]) == rank_key(#[trigger] located@[b]) ==> pos[a] < pos[b],
        decreases n - i,
    {
        let mut j = i;
        while j > 0 && before_exec(&located[j], &located[j - 1])
            invariant
                n == located@.len(),
                n == orig.len(),
                0 <= j <= i < n,
                located@.to_multiset() == orig.to_multiset(),
                pos.len() == n,
                forall|k: int| 0 <= k < n ==> located@[k] == orig[#[trigger] pos[k]],
                forall|k: int| i < k < n ==> #[trigger] pos[k] == k,
                pos[j as int] == i,
                forall|k: int| 0 <= k <= i && k != j ==> 0 <= #[trigger] pos[k] < i,
                forall|a: int, b: int| 0 <= a < b < n ==> #[trigger] pos[a] != #[trigger] pos[b],
                forall|a: int, b: int| 0 <= a < b <= i && rank_key(#[trigger] located@[a]) == rank_key(#[trigger] located@[b]) ==> pos[a] < pos[b],
                forall|a: int, b: int| 0 <= a < b < j ==> !ranks_before(#[trigger] located@[b], #[trigger] located@[a]),
                forall|a: int, b: int| j < a < b <= i ==> !ranks_before(#[trigger] located@[b], #[trigger] located@[a]),
                forall|a: int, b: int| 0 <= a < j && j < b <= i ==> !ranks_before(#[trigger] located@[b], #[trigger] located@[a]),
                forall|b: int| j < b <= i ==> #[trigger] ranks_before(located@[j as int], located@[b]),
            decreases j,
        {
            let ghost before = located@;
            let ghost old_pos = pos;
            let x = located.remove(j);
            located.insert(j - 1, x);
            proof {
                pos = old_pos.update(j - 1, old_pos[j as int]).update(j as int, old_pos[j - 1]);
                let s = located@;
                assert(s =~= before.remove(j as int).insert(j - 1, before[j as int]));
                assert forall|k: int| 0 <= k < n implies located@[k] == orig[#[trigger] pos[k]] by {
                    if k == j - 1 {
                        assert(s[k] == before[j as int]);
                    } else if k == j {
                        assert(s[k] == before[j - 1]);
                    } else {
                        assert(s[k] == before[k]);
                    }
                }
                assert forall|a: int, b: int| 0 <= a < b <= i && rank_key(#[trigger] s[a]) == rank_key(#[trigger] s[b]) implies pos[a] < pos[b] by {
                    lemma_key_before(rank_key(before[j as int]), rank_key(before[j - 1]), rank_key(before[j as int]));
                    if a == j - 1 {
                        if b == j {
                            assert(ranks_before(before[j as int], before[j - 1]));
                        } else {
                            assert(s[b] == before[b]);
                            assert(ranks_before(before[j as int], before[b]));
                            lemma_key_before(rank_key(before[j as int]), rank_key(before[b]), rank_key(before[j as int]));
                        }
                    } else if a == j {
                        assert(s[b] == before[b]);
                        assert(s[a] == before[j - 1]);
                    } else if b == j - 1 {
                        assert(s[a] == before[a]);
                    } else if b == j {
                        assert(s[a] == before[a]);
                        assert(s[b] == before[j - 1]);
                    } else {
                        assert(s[a] == before[a]);
                        assert(s[b] == before[b]);
                    }
                }
                assert(s =~= before.remove(j as int).insert(j - 1, before[j as int]));
                broadcast use vstd::multiset::group_multiset_axioms, vstd::seq_lib::to_multiset_contains;
                let m = before.to_multiset();
                let x = before[j as int];
                vstd::seq_lib::to_multiset_remove(before, j as int);
                vstd::seq_lib::to_multiset_insert(before.remove(j as int), j - 1, x);
                assert(before.remove(j as int).to_multiset() == m.remove(x));
                assert(s.to_multiset() == m.remove(x).insert(x));
                assert(before.contains(x));
                assert(m.count(x) > 0);
                assert(m.remove(x).insert(x) =~= m);
                assert(s[j - 1] == before[j as int]);
                assert(s[j as int] == before[j - 1]);
                assert forall|b: int| j - 1 < b <= i implies #[trigger] ranks_before(s[j - 1], s[b]) by {
                    if b == j {
                    } else {
                        assert(s[b] == before[b]);
                    }
                }
                assert forall|a: int, b: int| j - 1 < a < b <= i implies !ranks_before(#[trigger] s[b], #[trigger] s[a]) by {
                    if a == j {
                        assert(s[b] == before[b]);
                        lemma_key_before(rank_key(before[j as int]), rank_key(before[b]), rank_key(before[j - 1]));
                        assert(ranks_before(before[j as int], before[b]));
                        if ranks_before(before[b], before[j - 1]) {
                            lemma_key_before(rank_key(before[b]), rank_key(before[j - 1]), rank_key(before[j as int]));
                            lemma_key_before(rank_key(before[j as int]), rank_key(before[b]), rank_key(before[j - 1]));
                        }
                        if j - 1 > 0 {
                        }
                        lemma_key_before(rank_key(before[b]), rank_key(before[j - 1]), rank_key(before[b]));
                        if ranks_before(before[b], before[j - 1]) {
                            lemma_key_before(rank_key(before[j as int]), rank_key(before[b]), rank_key(before[j - 1]));
                            assert(ranks_before(before[j as int], before[j - 1]));
                        }
                    } else {
                        assert(s[a] == before[a]);
                        assert(s[b] == before[b]);
                    }
                }
                assert forall|a: int, b: int| 0 <= a < j - 1 && j - 1 < b <= i implies !ranks_before(#[trigger] s[b], #[trigger] s[a]) by {
                    assert(s[a] == before[a]);
                    if b == j {
                        assert(s[b] == before[j - 1]);
                    } else if b == j - 1 {
                    } else {
                        assert(s[b] == before[b]);
                    }
                }
                assert forall|a: int, b: int| 0 <= a < b < j - 1 implies !ranks_before(#[trigger] s[b], #[trigger] s[a]) by {
                    assert(s[a] == before[a]);
                    assert(s[b] == before[b]);
                }
            }
            j = j - 1;
        }
        proof {
            let s = located@;
            assert forall|k: int| 0 <= k < i + 1 implies 0 <= #[trigger] pos[k] < i + 1 by {}
            assert forall|a: int, b: int| 0 <= a < b < i + 1 implies !ranks_before(#[trigger] s[b], #[trigger] s[a]) by {
                if b == j && a < j {
                    assert(!ranks_before(s[j as int], s[j - 1]));
                    if a < j - 1 {
                        assert(!ranks_before(s[j - 1], s[a]));
                        lemma_key_before(rank_key(s[a]), rank_key(s[j - 1]), rank_key(s[j as int]));
                    }
                } else if a == j && b > j {
                    assert(ranks_before(s[j as int], s[b]));
                    lemma_key_before(rank_key(s[j as int]), rank_key(s[b]), rank_key(s[j as int]));
                }
            }
        }
        i = i + 1;
    }
    assert(stably_from(orig, located@, pos));
}

} // verus!
