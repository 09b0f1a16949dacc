//! Character-level helpers over `str` and `String`, stated over their `Seq<char>` views.
use vstd::prelude::*;
use vstd::string::StringSliceAdditionalSpecFns;

verus! {

/// `String::push` appends one character.
pub assume_specification[ String::push ](s: &mut String, ch: char)
    ensures
        final(s)@ == old(s)@.push(ch),
;

/// `str == str` by content.
pub fn str_eq(a: &str, b: &str) -> (r: bool)
    ensures
        r == (a@ == b@),
{
    let x = a.as_bytes();
    let y = b.as_bytes();
    if x.len() != y.len() {
        return false;
    }
    let mut i: usize = 0;
    while i < x.len()
        invariant
            x@ == a.spec_bytes(),
            y@ == b.spec_bytes(),
            x@.len() == y@.len(),
            0 <= i <= x@.len(),
            forall|k: int| 0 <= k < i ==> x@[k] == y@[k],
        decreases x@.len() - i,
    {
        if x[i] != y[i] {
            return false;
        }
        i = i + 1;
    }
    proof {
        assert(x@ =~= y@);
        vstd::utf8::encode_utf8_decode_utf8(a@);
        vstd::utf8::encode_utf8_decode_utf8(b@);
    }
    true
}

/// The characters of `s`, in order.
pub fn chars_of(s: &str) -> (r: Vec<char>)
    ensures
        r@ == s@,
{
    let mut out: Vec<char> = Vec::new();
    for c in it: s.chars()
        invariant
            out@ == it.seq().subrange(0, it.index() as int),
            it.seq() == s@,
    {
        out.push(c);
    }
    out
}

/// A `String` holding exactly the characters of `v`.
pub fn string_from(v: &[char]) -> (r: String)
    ensures
        r@ == v@,
{
    let mut out = String::new();
    let mut i: usize = 0;
    while i < v.len()
        invariant
            0 <= i <= v@.len(),
            out@ == v@.subrange(0, i as int),
        decreases v@.len() - i,
    {
        out.push(v[i]);
        proof {
            assert(v@.subrange(0, i + 1) =~= v@.subrange(0, i as int).push(v@[i as int]));
        }
        i = i + 1;
    }
    proof {
        assert(v@.subrange(0, v@.len() as int) =~= v@);
    }
    out
}

} // verus!

verus! {

/// Unicode `White_Space`, the set `char::is_whitespace` answers for.
pub open spec fn is_ws(c: char) -> bool {
    ||| c == '\t' || c == '\n' || c == '\u{0B}' || c == '\u{0C}' || c == '\r' || c == ' '
    ||| c == '\u{85}' || c == '\u{A0}' || c == '\u{1680}'
    ||| ('\u{2000}' <= c && c <= '\u{200A}')
    ||| c == '\u{2028}' || c == '\u{2029}' || c == '\u{202F}' || c == '\u{205F}' || c == '\u{3000}'
}

pub fn is_whitespace(c: char) -> (r: bool)
    ensures
        r == is_ws(c),
{
    c == '\t' || c == '\n' || c == '\u{0B}' || c == '\u{0C}' || c == '\r' || c == ' ' || c
        == '\u{85}' || c == '\u{A0}' || c == '\u{1680}' || ('\u{2000}' <= c && c <= '\u{200A}')
        || c == '\u{2028}' || c == '\u{2029}' || c == '\u{202F}' || c == '\u{205F}' || c
        == '\u{3000}'
}

/// Index of the first non-whitespace character at or after `i`, or `s.len()`.
pub open spec fn skip_ws(s: Seq<char>, i: int) -> int
    decreases s.len() - i,
{
    if i >= s.len() || i < 0 {
        i
    } else if is_ws(s[i]) {
        skip_ws(s, i + 1)
    } else {
        i
    }
}

/// One past the last non-whitespace character before `j`, or `lo`.
pub open spec fn back_ws(s: Seq<char>, lo: int, j: int) -> int
    decreases j - lo,
{
    if j <= lo {
        lo
    } else if is_ws(s[j - 1]) {
        back_ws(s, lo, j - 1)
    } else {
        j
    }
}

/// `str::trim`: the text without leading and trailing whitespace.
pub open spec fn trim(s: Seq<char>) -> Seq<char> {
    let lo = skip_ws(s, 0);
    s.subrange(lo, back_ws(s, lo, s.len() as int))
}

pub proof fn lemma_skip_ws_bounds(s: Seq<char>, i: int)
    requires
        0 <= i <= s.len(),
    ensures
        i <= skip_ws(s, i) <= s.len(),
        forall|k: int| i <= k < skip_ws(s, i) ==> is_ws(s[k]),
        skip_ws(s, i) < s.len() ==> !is_ws(s[skip_ws(s, i)]),
    decreases s.len() - i,
{
    if i < s.len() && is_ws(s[i]) {
        lemma_skip_ws_bounds(s, i + 1);
    }
}

pub proof fn lemma_back_ws_bounds(s: Seq<char>, lo: int, j: int)
    requires
        0 <= lo <= j <= s.len(),
    ensures
        lo <= back_ws(s, lo, j) <= j,
        forall|k: int| back_ws(s, lo, j) <= k < j ==> is_ws(s[k]),
        back_ws(s, lo, j) > lo ==> !is_ws(s[back_ws(s, lo, j) - 1]),
    decreases j - lo,
{
    if j > lo && is_ws(s[j - 1]) {
        lemma_back_ws_bounds(s, lo, j - 1);
    }
}

/// `str::trim` over a character vector: the bounds of the trimmed part.
pub fn trim_bounds(s: &Vec<char>) -> (r: (usize, usize))
    ensures
        r.0 == skip_ws(s@, 0),
        r.1 == back_ws(s@, r.0 as int, s@.len() as int),
        r.0 <= r.1 <= s@.len(),
{
    let mut lo: usize = 0;
    while lo < s.len() && is_whitespace(s[lo])
        invariant
            0 <= lo <= s@.len(),
            skip_ws(s@, 0) == skip_ws(s@, lo as int),
        decreases s@.len() - lo,
    {
        lo = lo + 1;
    }
    let mut hi: usize = s.len();
    while hi > lo && is_whitespace(s[hi - 1])
        invariant
            lo <= hi <= s@.len(),
            back_ws(s@, lo as int, s@.len() as int) == back_ws(s@, lo as int, hi as int),
        decreases hi - lo,
    {
        hi = hi - 1;
    }
    (lo, hi)
}

/// A copy of `s[lo..hi]`.
pub fn sub_chars(s: &Vec<char>, lo: usize, hi: usize) -> (r: Vec<char>)
    requires
        lo <= hi <= s@.len(),
    ensures
        r@ == s@.subrange(lo as int, hi as int),
{
    let mut out: Vec<char> = Vec::new();
    let mut i = lo;
    while i < hi
        invariant
            lo <= i <= hi <= s@.len(),
            out@ == s@.subrange(lo as int, i as int),
        decreases hi - i,
    {
        out.push(s[i]);
        proof {
            assert(s@.subrange(lo as int, i + 1) =~= s@.subrange(lo as int, i as int).push(s@[i as int]));
        }
        i = i + 1;
    }
    out
}

/// `str::trim` over a character vector.
pub fn trim_chars(s: &Vec<char>) -> (r: Vec<char>)
    ensures
        r@ == trim(s@),
{
    let (lo, hi) = trim_bounds(s);
    sub_chars(s, lo, hi)
}

} // verus!

verus! {

/// `std::str::from_utf8`, owned: `Some` exactly when the bytes are valid UTF-8, holding the
/// characters they encode.
#[verifier::external_body]
pub(crate) fn string_from_utf8(bytes: &[u8]) -> (r: Option<String>)
    ensures
        r is Some <==> vstd::utf8::valid_utf8(bytes@),
        r matches Some(s) ==> s@ == vstd::utf8::decode_utf8(bytes@),
{
    std::str::from_utf8(bytes).ok().map(|s| s.to_string())
}

} // verus!

verus! {

/// The text of a node as characters, when it can be read.
pub fn opt_chars(s: &Option<String>) -> (r: Option<Vec<char>>)
    ensures
        r is Some <==> s is Some,
        r matches Some(v) ==> s matches Some(x) && v@ == x@,
{
    match s {
        Some(x) => Some(chars_of(x.as_str())),
        None => None,
    }
}

/// Content equality of two character vectors.
pub fn chars_eq(a: &Vec<char>, b: &Vec<char>) -> (r: bool)
    ensures
        r == (a@ == b@),
{
    if a.len() != b.len() {
        return false;
    }
    let mut i: usize = 0;
    while i < a.len()
        invariant
            a@.len() == b@.len(),
            0 <= i <= a@.len(),
            forall|k: int| 0 <= k < i ==> a@[k] == b@[k],
        decreases a@.len() - i,
    {
        if a[i] != b[i] {
            return false;
        }
        i = i + 1;
    }
    assert(a@ =~= b@);
    true
}

/// Whether `s` equals the literal `lit`.
pub fn chars_is(s: &Vec<char>, lit: &str) -> (r: bool)
    ensures
        r == (s@ == lit@),
{
    let l = chars_of(lit);
    chars_eq(s, &l)
}

pub open spec fn ends_with(s: Seq<char>, suffix: Seq<char>) -> bool {
    suffix.len() <= s.len() && s.subrange(s.len() - suffix.len(), s.len() as int) == suffix
}

pub open spec fn starts_with(s: Seq<char>, prefix: Seq<char>) -> bool {
    prefix.len() <= s.len() && s.subrange(0, prefix.len() as int) == prefix
}

/// `needle` occurs in `s` starting at `i`.
pub open spec fn occurs_at(s: Seq<char>, needle: Seq<char>, i: int) -> bool {
    0 <= i && i + needle.len() <= s.len() && s.subrange(i, i + needle.len()) == needle
}

pub open spec fn contains(s: Seq<char>, needle: Seq<char>) -> bool {
    exists|i: int| occurs_at(s, needle, i)
}

pub fn matches_at(s: &Vec<char>, needle: &Vec<char>, i: usize) -> (r: bool)
    ensures
        r == occurs_at(s@, needle@, i as int),
{
    if i > s.len() || needle.len() > s.len() - i {
        return false;
    }
    let mut k: usize = 0;
    while k < needle.len()
        invariant
            i + needle@.len() <= s@.len(),
            s@.len() <= usize::MAX,
            0 <= k <= needle@.len(),
            forall|j: int| 0 <= j < k ==> s@[i + j] == needle@[j],
        decreases needle@.len() - k,
    {
        assert(i + k < s@.len());
        if s[i + k] != needle[k] {
            assert(s@.subrange(i as int, i + needle@.len())[k as int] != needle@[k as int]);
            return false;
        }
        k = k + 1;
    }
    assert(s@.subrange(i as int, i + needle@.len()) =~= needle@);
    true
}

pub fn ends_with_lit(s: &Vec<char>, lit: &str) -> (r: bool)
    ensures
        r == ends_with(s@, lit@),
{
    let l = chars_of(lit);
    if l.len() > s.len() {
        return false;
    }
    matches_at(s, &l, s.len() - l.len())
}

pub fn starts_with_lit(s: &Vec<char>, lit: &str) -> (r: bool)
    ensures
        r == starts_with(s@, lit@),
{
    let l = chars_of(lit);
    matches_at(s, &l, 0)
}

/// The first position at or after `from` where `needle` occurs.
pub open spec fn find_from(s: Seq<char>, needle: Seq<char>, from: int) -> Option<int>
    decreases s.len() + 1 - from,
{
    if from < 0 || from > s.len() {
        None
    } else if occurs_at(s, needle, from) {
        Some(from)
    } else {
        find_from(s, needle, from + 1)
    }
}

pub proof fn lemma_find_from(s: Seq<char>, needle: Seq<char>, from: int)
    requires
        0 <= from,
    ensures
        find_from(s, needle, from) matches Some(i) ==> from <= i && occurs_at(s, needle, i),
        find_from(s, needle, from) is None ==> forall|i: int| from <= i ==> !occurs_at(s, needle, i),
    decreases s.len() + 1 - from,
{
    if from <= s.len() && !occurs_at(s, needle, from) {
        lemma_find_from(s, needle, from + 1);
    }
}

pub fn find_chars(s: &Vec<char>, needle: &Vec<char>, from: usize) -> (r: Option<usize>)
    ensures
        r == (match find_from(s@, needle@, from as int) {
            Some(i) => Some(i as usize),
            None => None::<usize>,
        }),
{
    let mut i = from;
    while i <= s.len()
        invariant
            from <= i,
            find_from(s@, needle@, from as int) == find_from(s@, needle@, i as int),
        decreases s@.len() + 1 - i,
    {
        if matches_at(s, needle, i) {
            return Some(i);
        }
        if i == s.len() {
            assert(find_from(s@, needle@, i + 1) is None);
            return None;
        }
        i = i + 1;
    }
    None
}

pub fn contains_lit(s: &Vec<char>, lit: &str) -> (r: bool)
    ensures
        r == contains(s@, lit@),
{
    let l = chars_of(lit);
    let f = find_chars(s, &l, 0);
    proof {
        lemma_find_from(s@, l@, 0);
    }
    f.is_some()
}

/// `s` followed by `lit`.
pub fn push_lit(s: &mut Vec<char>, lit: &str)
    ensures
        final(s)@ == old(s)@ + lit@,
{
    let l = chars_of(lit);
    let mut k: usize = 0;
    let ghost start = s@;
    while k < l.len()
        invariant
            0 <= k <= l@.len(),
            s@ == start + l@.subrange(0, k as int),
        decreases l@.len() - k,
    {
        s.push(l[k]);
        proof {
            assert(start + l@.subrange(0, k + 1) =~= (start + l@.subrange(0, k as int)).push(l@[k as int]));
        }
        k = k + 1;
    }
    assert(l@.subrange(0, l@.len() as int) =~= l@);
}

/// `s` repeated `n` times.
pub open spec fn repeat(s: Seq<char>, n: nat) -> Seq<char>
    decreases n,
{
    if n == 0 {
        Seq::empty()
    } else {
        repeat(s, (n - 1) as nat) + s
    }
}

} // verus!

verus! {

/// `a` becomes `b` by one character inserted, removed or replaced at position `i`: the two
/// agree before `i`, and after the edited character.
pub open spec fn edit_at(a: Seq<char>, b: Seq<char>, i: int) -> bool {
    &&& 0 <= i <= a.len()
    &&& i <= b.len()
    &&& a.subrange(0, i) == b.subrange(0, i)
    &&& {
        ||| a.len() + 1 == b.len() && a.subrange(i, a.len() as int) == b.subrange(i + 1, b.len() as int)
        ||| a.len() == b.len() + 1 && a.subrange(i + 1, a.len() as int) == b.subrange(i, b.len() as int)
        ||| a.len() == b.len() && i < a.len() && a.subrange(i + 1, a.len() as int) == b.subrange(i + 1, b.len() as int)
    }
}

/// Two different texts one typing slip apart.
pub open spec fn one_edit_apart(a: Seq<char>, b: Seq<char>) -> bool {
    a != b && exists|i: int| #[trigger] edit_at(a, b, i)
}

/// How many characters `a` and `b` share from the start.
fn common_prefix(a: &Vec<char>, b: &Vec<char>) -> (p: usize)
    ensures
        p <= a@.len(),
        p <= b@.len(),
        a@.subrange(0, p as int) == b@.subrange(0, p as int),
        p < a@.len() && p < b@.len() ==> a@[p as int] != b@[p as int],
{
    let mut p: usize = 0;
    while p < a.len() && p < b.len() && a[p] == b[p]
        invariant
            p <= a@.len(),
            p <= b@.len(),
            a@.subrange(0, p as int) == b@.subrange(0, p as int),
        decreases a@.len() - p,
    {
        assert(a@.subrange(0, p + 1) =~= a@.subrange(0, p as int).push(a@[p as int]));
        assert(b@.subrange(0, p + 1) =~= b@.subrange(0, p as int).push(b@[p as int]));
        p = p + 1;
    }
    p
}

/// Whether `a` from `i` on and `b` from `j` on are the same text.
fn same_tail(a: &Vec<char>, i: usize, b: &Vec<char>, j: usize) -> (r: bool)
    requires
        i <= a@.len(),
        j <= b@.len(),
    ensures
        r == (a@.subrange(i as int, a@.len() as int) == b@.subrange(j as int, b@.len() as int)),
{
    if a.len() - i != b.len() - j {
        proof {
            if a@.subrange(i as int, a@.len() as int) == b@.subrange(j as int, b@.len() as int) {
                assert(a@.subrange(i as int, a@.len() as int).len() == b@.subrange(j as int, b@.len() as int).len());
            }
        }
        return false;
    }
    let n = a.len() - i;
    let mut k: usize = 0;
    while k < n
        invariant
            n == a@.len() - i,
            n == b@.len() - j,
            i + n == a.len(),
            j + n == b.len(),
            i <= a@.len(),
            j <= b@.len(),
            0 <= k <= n,
            forall|m: int| i <= m < i + k ==> #[trigger] a@[m] == b@[m - i + j],
        decreases n - k,
    {
        if a[i + k] != b[j + k] {
            proof {
                let x = a@.subrange(i as int, a@.len() as int);
                let y = b@.subrange(j as int, b@.len() as int);
                assert(x[k as int] != y[k as int]);
            }
            return false;
        }
        k = k + 1;
    }
    assert(a@.subrange(i as int, a@.len() as int) =~= b@.subrange(j as int, b@.len() as int));
    true
}

/// Whether `a` and `b` are one typing slip apart.
pub fn one_edit(a: &Vec<char>, b: &Vec<char>) -> (r: bool)
    ensures
        r == one_edit_apart(a@, b@),
{
    if chars_eq(a, b) {
        return false;
    }
    let p = common_prefix(a, b);
    let r = if a.len() < b.len() && b.len() - a.len() == 1 {
        same_tail(a, p, b, p + 1)
    } else if b.len() < a.len() && a.len() - b.len() == 1 {
        same_tail(a, p + 1, b, p)
    } else if a.len() == b.len() && p < a.len() {
        same_tail(a, p + 1, b, p + 1)
    } else {
        false
    };
    proof {
        let (x, y) = (a@, b@);
        if r {
            assert(edit_at(x, y, p as int));
        } else if exists|i: int| #[trigger] edit_at(x, y, i) {
            let i = choose|i: int| #[trigger] edit_at(x, y, i);
            if p < i {
                assert(x.subrange(0, i)[p as int] == y.subrange(0, i)[p as int]);
                assert(false);
            }
            if x.len() == y.len() && p == x.len() {
                assert(x =~= x.subrange(0, p as int));
                assert(y =~= y.subrange(0, p as int));
                assert(false);
            }
            if x.len() + 1 == y.len() {
                let (xs, ys) = (x.subrange(p as int, x.len() as int), y.subrange(p + 1, y.len() as int));
                let (xi, yi) = (x.subrange(i, x.len() as int), y.subrange(i + 1, y.len() as int));
                assert forall|k: int| 0 <= k < xs.len() implies #[trigger] xs[k] == ys[k] by {
                    assert(xi[p - i + k] == yi[p - i + k]);
                }
                assert(xs =~= ys);
            } else if x.len() == y.len() + 1 {
                let (xs, ys) = (x.subrange(p + 1, x.len() as int), y.subrange(p as int, y.len() as int));
                let (xi, yi) = (x.subrange(i + 1, x.len() as int), y.subrange(i, y.len() as int));
                assert forall|k: int| 0 <= k < ys.len() implies #[trigger] xs[k] == ys[k] by {
                    assert(xi[p - i + k] == yi[p - i + k]);
                }
                assert(xs =~= ys);
            } else {
                let (xs, ys) = (x.subrange(p + 1, x.len() as int), y.subrange(p + 1, y.len() as int));
                let (xi, yi) = (x.subrange(i + 1, x.len() as int), y.subrange(i + 1, y.len() as int));
                assert forall|k: int| 0 <= k < xs.len() implies #[trigger] xs[k] == ys[k] by {
                    assert(xi[p - i + k] == yi[p - i + k]);
                }
                assert(xs =~= ys);
            }
        }
    }
    r
}

} // verus!

verus! {

/// A search finds the first occurrence: `needle` at `i` and nowhere between `from` and `i`.
pub proof fn lemma_find_first(s: Seq<char>, needle: Seq<char>, from: int, i: int)
    requires
        0 <= from <= i,
        occurs_at(s, needle, i),
        forall|j: int| from <= j < i ==> !occurs_at(s, needle, j),
    ensures
        find_from(s, needle, from) == Some(i),
    decreases i - from,
{
    if from < i {
        lemma_find_first(s, needle, from + 1, i);
    }
}

} // verus!
