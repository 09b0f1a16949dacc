//! Container paths: `Outer::Inner`, joined as units are found inside them.
use vstd::prelude::*;
use crate::text::{chars_of, matches_at, occurs_at, string_from, sub_chars};

verus! {

/// The last position at or before `j` where `needle` occurs.
pub open spec fn rfind_from(s: Seq<char>, needle: Seq<char>, j: int) -> Option<int>
    decreases j + 1,
{
    if j < 0 {
        None
    } else if occurs_at(s, needle, j) {
        Some(j)
    } else {
        rfind_from(s, needle, j - 1)
    }
}

/// The segment after the last `::`, or the whole path.
pub open spec fn last_segment(path: Seq<char>) -> Seq<char> {
    match rfind_from(path, "::"@, path.len() as int) {
        Some(i) => path.subrange(i + 2, path.len() as int),
        None => path,
    }
}

pub proof fn lemma_rfind_from(s: Seq<char>, needle: Seq<char>, j: int)
    ensures
        rfind_from(s, needle, j) matches Some(i) ==> i <= j && occurs_at(s, needle, i),
    decreases j + 1,
{
    if j >= 0 && !occurs_at(s, needle, j) {
        lemma_rfind_from(s, needle, j - 1);
    }
}

/// The last segment of a container path, as `rsplit("::").next()` reads it.
pub fn last_segment_exec(path: &str) -> (r: String)
    ensures
        r@ == last_segment(path@),
{
    let s = chars_of(path);
    let sep = chars_of("::");
    proof {
        reveal_strlit("::");
    }
    let n = s.len();
    let mut j: usize = n;
    loop
        invariant
            n == s@.len(),
            s@ == path@,
            j <= s@.len(),
            sep@ == "::"@,
            sep@.len() == 2,
            rfind_from(s@, sep@, s@.len() as int) == rfind_from(s@, sep@, j as int),
        decreases j,
    {
        if matches_at(&s, &sep, j) {
            assert(j + 2 <= n);
            let tail = sub_chars(&s, j + 2, n);
            assert(rfind_from(s@, sep@, j as int) == Some(j as int));
            assert(s@ == path@);
            return string_from(tail.as_slice());
        }
        if j == 0 {
            assert(rfind_from(s@, sep@, -1) is None);
            assert(rfind_from(s@, sep@, 0) is None);
            assert(s@ == path@);
            return string_from(s.as_slice());
        }
        j = j - 1;
    }
}

/// `outer::name`, or `name` at the top.
pub open spec fn spec_nested(outer: Option<Seq<char>>, name: Option<Seq<char>>) -> Option<Seq<char>> {
    match (name, outer) {
        (Some(n), Some(o)) => Some(o + "::"@ + n),
        (Some(n), None) => Some(n),
        (None, o) => o,
    }
}

} // verus!
