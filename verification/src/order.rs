//! Lexicographic order on text, as `str`'s `Ord` compares, and sorted sets of names.
use vstd::prelude::*;
use crate::text::chars_of;

verus! {

/// `a < b` as `str` compares: by code point, a proper prefix first.
pub open spec fn text_lt(a: Seq<char>, b: Seq<char>) -> bool
    decreases a.len(),
{
    if a.len() == 0 {
        b.len() > 0
    } else if b.len() == 0 {
        false
    } else if a[0] != b[0] {
        (a[0] as u32) < (b[0] as u32)
    } else {
        text_lt(a.drop_first(), b.drop_first())
    }
}

pub proof fn lemma_text_lt_irreflexive(a: Seq<char>)
    ensures
        !text_lt(a, a),
    decreases a.len(),
{
    if a.len() > 0 {
        lemma_text_lt_irreflexive(a.drop_first());
    }
}

pub proof fn lemma_text_lt_total(a: Seq<char>, b: Seq<char>)
    ensures
        a == b || text_lt(a, b) || text_lt(b, a),
    decreases a.len(),
{
    if a.len() > 0 && b.len() > 0 {
        if a[0] == b[0] {
            lemma_text_lt_total(a.drop_first(), b.drop_first());
            if a.drop_first() == b.drop_first() {
                assert(a =~= seq![a[0]] + a.drop_first());
                assert(b =~= seq![b[0]] + b.drop_first());
            }
        } else {
            vstd::utf8::char_u32_cast(a[0], a[0] as u32);
            vstd::utf8::char_u32_cast(b[0], b[0] as u32);
        }
    } else if a.len() == 0 && b.len() == 0 {
        assert(a =~= b);
    }
}

pub proof fn lemma_text_lt_asymmetric(a: Seq<char>, b: Seq<char>)
    ensures
        text_lt(a, b) ==> !text_lt(b, a),
    decreases a.len(),
{
    if a.len() > 0 && b.len() > 0 && a[0] == b[0] {
        lemma_text_lt_asymmetric(a.drop_first(), b.drop_first());
    }
}

pub proof fn lemma_text_lt_transitive(a: Seq<char>, b: Seq<char>, c: Seq<char>)
    ensures
        text_lt(a, b) && text_lt(b, c) ==> text_lt(a, c),
    decreases a.len(),
{
    if a.len() > 0 && b.len() > 0 && c.len() > 0 {
        lemma_text_lt_transitive(a.drop_first(), b.drop_first(), c.drop_first());
    }
}

pub fn chars_lt(a: &Vec<char>, b: &Vec<char>) -> (r: bool)
    ensures
        r == text_lt(a@, b@),
{
    let mut i: usize = 0;
    assert(a@.subrange(0, a@.len() as int) =~= a@);
    assert(b@.subrange(0, b@.len() as int) =~= b@);
    while i < a.len() && i < b.len() && a[i] == b[i]
        invariant
            0 <= i <= a@.len(),
            i <= b@.len(),
            text_lt(a@, b@) == text_lt(a@.subrange(i as int, a@.len() as int), b@.subrange(i as int, b@.len() as int)),
        decreases a@.len() - i,
    {
        proof {
            assert(a@.subrange(i as int, a@.len() as int).drop_first() =~= a@.subrange(i + 1, a@.len() as int));
            assert(b@.subrange(i as int, b@.len() as int).drop_first() =~= b@.subrange(i + 1, b@.len() as int));
        }
        i = i + 1;
    }
    assert(i < a@.len() ==> a@.subrange(i as int, a@.len() as int)[0] == a@[i as int]);
    assert(i < b@.len() ==> b@.subrange(i as int, b@.len() as int)[0] == b@[i as int]);
    if i == a.len() {
        i < b.len()
    } else if i == b.len() {
        false
    } else {
        (a[i] as u32) < (b[i] as u32)
    }
}

pub fn str_lt(a: &str, b: &str) -> (r: bool)
    ensures
        r == text_lt(a@, b@),
{
    let x = chars_of(a);
    let y = chars_of(b);
    chars_lt(&x, &y)
}

/// Strictly increasing: sorted, and so free of duplicates.
pub open spec fn strictly_sorted(s: Seq<&'static str>) -> bool {
    forall|i: int, j: int| 0 <= i < j < s.len() ==> text_lt(#[trigger] s[i]@, #[trigger] s[j]@)
}

/// Some entry of `s` reads `x`.
pub open spec fn holds_text(s: Seq<&'static str>, x: Seq<char>) -> bool {
    exists|k: int| 0 <= k < s.len() && (#[trigger] s[k])@ == x
}

/// `sort_unstable` then `dedup`: each distinct name once, in order.
pub fn sort_dedup(v: &Vec<&'static str>) -> (r: Vec<&'static str>)
    ensures
        strictly_sorted(r@),
        forall|x: Seq<char>| holds_text(r@, x) <==> holds_text(v@, x),
{
    let mut out: Vec<&'static str> = Vec::new();
    let mut i: usize = 0;
    while i < v.len()
        invariant
            0 <= i <= v@.len(),
            strictly_sorted(out@),
            forall|x: Seq<char>| holds_text(out@, x) <==> holds_text(v@.subrange(0, i as int), x),
        decreases v@.len() - i,
    {
        let item = v[i];
        let ghost old_out = out@;
        assert(forall|x: Seq<char>| holds_text(old_out, x) <==> holds_text(v@.subrange(0, i as int), x));
        let mut j: usize = 0;
        while j < out.len() && str_lt(out[j], item)
            invariant
                0 <= j <= out@.len(),
                out@ == old_out,
                forall|k: int| 0 <= k < j ==> text_lt(#[trigger] out@[k]@, item@),
            decreases out@.len() - j,
        {
            j = j + 1;
        }
        let present = j < out.len() && crate::text::str_eq(out[j], item);
        if !present {
            out.insert(j, item);
            proof {
                old_out.insert_ensures(j as int, item);
                if j < old_out.len() {
                    lemma_text_lt_total(item@, old_out[j as int]@);
                }
                assert forall|a: int, b: int| 0 <= a < b < out@.len() implies text_lt(#[trigger] out@[a]@, #[trigger] out@[b]@) by {
                    if b < j {
                        assert(out@[a] == old_out[a] && out@[b] == old_out[b]);
                    } else if b == j {
                        assert(out@[a] == old_out[a]);
                    } else if a < j {
                        assert(out@[a] == old_out[a] && out@[b] == old_out[b - 1]);
                    } else if a == j {
                        assert(out@[b] == old_out[b - 1]);
                        if b - 1 > j {
                            assert(text_lt(old_out[j as int]@, old_out[b - 1]@));
                            lemma_text_lt_transitive(item@, old_out[j as int]@, old_out[b - 1]@);
                        }
                    } else {
                        assert(out@[a] == old_out[a - 1] && out@[b] == old_out[b - 1]);
                    }
                }
            }
        }
        proof {
            let pre = v@.subrange(0, i as int);
            let post = v@.subrange(0, i + 1);
            assert(post =~= pre.push(item));
            if !present {
                old_out.insert_ensures(j as int, item);
            }
            assert forall|x: Seq<char>| holds_text(out@, x) <==> holds_text(post, x) by {
                if holds_text(post, x) {
                    let k = choose|k: int| 0 <= k < post.len() && (#[trigger] post[k])@ == x;
                    if k == i as int {
                        assert(out@[j as int]@ == x);
                    } else {
                        assert(pre[k]@ == x);
                        assert(holds_text(old_out, x));
                        let m = choose|m: int| 0 <= m < old_out.len() && (#[trigger] old_out[m])@ == x;
                        if !present && m >= j {
                            assert(out@[m + 1]@ == x);
                        } else {
                            assert(out@[m]@ == x);
                        }
                    }
                }
                if holds_text(out@, x) {
                    let m = choose|m: int| 0 <= m < out@.len() && (#[trigger] out@[m])@ == x;
                    if !present && m == j {
                        assert(post[i as int]@ == x);
                    } else {
                        let m2 = if !present && m > j { m - 1 } else { m };
                        assert(old_out[m2]@ == x);
                        assert(holds_text(old_out, x));
                        assert(holds_text(pre, x));
                        let k = choose|k: int| 0 <= k < pre.len() && (#[trigger] pre[k])@ == x;
                        assert(post[k]@ == x);
                    }
                }
            }
        }
        i = i + 1;
    }
    proof {
        assert(v@.subrange(0, v@.len() as int) =~= v@);
    }
    out
}

} // verus!
