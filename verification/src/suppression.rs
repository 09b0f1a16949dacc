//! Reading a `bonsai-lint-ignore` marker out of a comment, and finding the comment that speaks for
//! a unit or for a file's top level.
use vstd::prelude::*;
use crate::collect::{declaration_row, spec_declaration_row};
use crate::finding::{Suppression, SUPPRESSION_MARKER};
use crate::language::{CompiledLanguage, Flags, Role};
use crate::syntax::SyntaxTree;
use crate::text::{
    chars_of, ends_with, ends_with_lit, find_chars, find_from, lemma_find_first, lemma_find_from, occurs_at,
    string_from, sub_chars, trim, trim_chars,
};

verus! {

/// The first line of `s`, as `str::lines` yields it: up to the first `\n`, without the `\r` of
/// a `\r\n` ending.
pub open spec fn first_line(s: Seq<char>) -> Seq<char> {
    match find_from(s, seq!['\n'], 0) {
        Some(i) => {
            let line = s.subrange(0, i);
            if line.len() > 0 && line.last() == '\r' {
                line.drop_last()
            } else {
                line
            }
        },
        None => s,
    }
}

/// `str::trim_end_matches`: every trailing repetition of `pat` removed.
pub open spec fn trim_end_matches(s: Seq<char>, pat: Seq<char>) -> Seq<char>
    decreases s.len(),
{
    if pat.len() > 0 && ends_with(s, pat) {
        trim_end_matches(s.subrange(0, s.len() - pat.len()), pat)
    } else {
        s
    }
}

/// The reason written after `bonsai-lint-ignore:`: its first line, trimmed, without a closing `*/`.
pub open spec fn marker_reason(rest: Seq<char>) -> Seq<char> {
    trim(trim_end_matches(trim(first_line(rest)), "*/"@))
}

/// What a comment says: `None` without a marker, `Some(None)` for a marker without a reason,
/// `Some(Some(reason))` for a reasoned one.
pub open spec fn spec_marker(comment: Seq<char>) -> Option<Option<Seq<char>>> {
    match find_from(comment, SUPPRESSION_MARKER@, 0) {
        None => None,
        Some(i) => {
            let after = comment.subrange(i + SUPPRESSION_MARKER@.len(), comment.len() as int);
            if after.len() == 0 || after[0] != ':' {
                Some(None)
            } else {
                let reason = marker_reason(after.drop_first());
                if reason.len() == 0 {
                    Some(None)
                } else {
                    Some(Some(reason))
                }
            }
        },
    }
}

/// A suppression as the marker spec reads it.
pub open spec fn marker_matches(r: Option<Suppression>, m: Option<Option<Seq<char>>>) -> bool {
    match m {
        None => r is None,
        Some(None) => r == Some(Suppression::MissingReason),
        Some(Some(reason)) => r matches Some(Suppression::Reasoned(s)) && s@ == reason,
    }
}

fn first_line_chars(s: &Vec<char>) -> (r: Vec<char>)
    ensures
        r@ == first_line(s@),
{
    let nl = chars_of("\n");
    proof {
        reveal_strlit("\n");
        assert(nl@ =~= seq!['\n']);
    }
    let slen = s.len();
    let found = find_chars(s, &nl, 0);
    proof {
        lemma_find_from(s@, nl@, 0);
        if let Some(i) = find_from(s@, nl@, 0) {
            assert(occurs_at(s@, nl@, i));
            assert(found == Some(i as usize));
        }
    }
    match found {
        Some(i) => {
            let line = sub_chars(s, 0, i);
            if line.len() > 0 && line[line.len() - 1] == '\r' {
                sub_chars(&line, 0, line.len() - 1)
            } else {
                line
            }
        },
        None => {
            let all = sub_chars(s, 0, s.len());
            assert(all@ =~= s@);
            all
        },
    }
}

fn trim_end_closers(s: &Vec<char>) -> (r: Vec<char>)
    ensures
        r@ == trim_end_matches(s@, "*/"@),
{
    proof {
        reveal_strlit("*/");
    }
    let mut cur = sub_chars(s, 0, s.len());
    assert(cur@ =~= s@);
    while ends_with_lit(&cur, "*/")
        invariant
            "*/"@ == seq!['*', '/'],
            trim_end_matches(cur@, "*/"@) == trim_end_matches(s@, "*/"@),
        decreases cur@.len(),
    {
        cur = sub_chars(&cur, 0, cur.len() - 2);
    }
    cur
}

/// Reads the marker in a comment's text, if it holds one.
pub fn parse_marker(comment: &str) -> (r: Option<Suppression>)
    ensures
        marker_matches(r, spec_marker(comment@)),
{
    let c = chars_of(comment);
    let marker = chars_of(SUPPRESSION_MARKER);
    let clen = c.len();
    let found = find_chars(&c, &marker, 0);
    proof {
        lemma_find_from(c@, marker@, 0);
        if let Some(i) = find_from(c@, marker@, 0) {
            assert(occurs_at(c@, marker@, i));
            assert(found == Some(i as usize));
        }
    }
    let at = match found {
        Some(i) => i,
        None => return None,
    };
    assert(occurs_at(c@, marker@, at as int));
    let after = sub_chars(&c, at + marker.len(), c.len());
    if after.len() == 0 || after[0] != ':' {
        return Some(Suppression::MissingReason);
    }
    let rest = sub_chars(&after, 1, after.len());
    assert(rest@ =~= after@.drop_first());
    let line = first_line_chars(&rest);
    let inner = trim_chars(&line);
    let closed = trim_end_closers(&inner);
    let reason = trim_chars(&closed);
    if reason.len() == 0 {
        Some(Suppression::MissingReason)
    } else {
        Some(Suppression::Reasoned(string_from(reason.as_slice())))
    }
}

} // verus!

verus! {

/// A marker found in a tree: the comment node it was read from and what it says.
pub type FoundMarker = (usize, Option<Seq<char>>);

/// What comment node `c` says, read from its text.
pub open spec fn node_marker(t: &SyntaxTree, src: Seq<u8>, c: int) -> Option<Option<Seq<char>>> {
    match t.spec_text(src, c) {
        Some(s) => spec_marker(s),
        None => None,
    }
}

/// A comment at `c` that carries a marker, as a found marker.
pub open spec fn marker_at(lang: &CompiledLanguage, t: &SyntaxTree, src: Seq<u8>, c: int) -> Option<FoundMarker> {
    if lang.spec_role(t, c) == Role::Trivia {
        match node_marker(t, src, c) {
            Some(m) => Some((c as usize, m)),
            None => None,
        }
    } else {
        None
    }
}

/// The executable marker agrees with the spec's.
pub open spec fn found_matches(r: Option<(usize, Suppression)>, m: Option<FoundMarker>) -> bool {
    match m {
        None => r is None,
        Some((c, reason)) => r matches Some((d, s)) && d == c && marker_matches(Some(s), Some(reason)),
    }
}

/// The suppression a found marker stands for, `Unmarked` without one.
pub open spec fn suppression_is(s: Suppression, m: Option<FoundMarker>) -> bool {
    match m {
        None => s == Suppression::Unmarked,
        Some((_, reason)) => marker_matches(Some(s), Some(reason)),
    }
}

/// A comment on the same row as the end of the sibling before it trails that sibling.
pub open spec fn trails_previous(lang: &CompiledLanguage, t: &SyntaxTree, p: int, j: int) -> bool {
    j >= 1 && lang.spec_role(t, t.kids(p)[j - 1] as int) != Role::Trivia
        && t.spec_end_row(t.kids(p)[j - 1] as int) == t.spec_start_row(t.kids(p)[j] as int)
}

/// Whether the `j`th child of `p` may sit between a declaration and the comment above it.
pub open spec fn belongs_above(lang: &CompiledLanguage, t: &SyntaxTree, p: int, j: int) -> bool {
    let c = t.kids(p)[j] as int;
    if lang.spec_role(t, c) == Role::Trivia {
        !trails_previous(lang, t, p, j)
    } else {
        lang.spec_has(t, c, Flags::leading_trivia())
    }
}

/// Walking back from the `j`th child of `p` over comments and leading trivia, the first
/// comment with a marker.
pub open spec fn leading_from(lang: &CompiledLanguage, t: &SyntaxTree, src: Seq<u8>, p: int, j: int) -> Option<FoundMarker>
    decreases j + 1,
{
    if j < 0 || j >= t.kids(p).len() || !belongs_above(lang, t, p, j) {
        None
    } else {
        match marker_at(lang, t, src, t.kids(p)[j] as int) {
            Some(m) => Some(m),
            None => leading_from(lang, t, src, p, j - 1),
        }
    }
}

/// The marker directly above node `a`, or inside its docblock.
pub open spec fn spec_leading(lang: &CompiledLanguage, t: &SyntaxTree, src: Seq<u8>, a: int) -> Option<FoundMarker> {
    match t.spec_parent(a) {
        Some(p) => leading_from(lang, t, src, p as int, t.node(a).index_in_parent - 1),
        None => None,
    }
}

/// The first marked comment starting on `row` within `n`, descending only into nodes that do
/// not start after that row.
pub open spec fn on_row(lang: &CompiledLanguage, t: &SyntaxTree, src: Seq<u8>, n: int, row: usize) -> Option<FoundMarker>
    decreases t.len() - n, 1int, 0int,
{
    if !(0 <= n < t.len()) || t.spec_start_row(n) > row {
        None
    } else if t.spec_start_row(n) == row && marker_at(lang, t, src, n) is Some {
        marker_at(lang, t, src, n)
    } else {
        on_row_kids(lang, t, src, n, row, 0)
    }
}

pub open spec fn on_row_kids(lang: &CompiledLanguage, t: &SyntaxTree, src: Seq<u8>, n: int, row: usize, k: int) -> Option<FoundMarker>
    decreases t.len() - n, 0int, t.kids(n).len() - k,
{
    if !(0 <= n < t.len()) || k < 0 || k >= t.kids(n).len() {
        None
    } else {
        let c = t.kids(n)[k] as int;
        let here = if n < c < t.len() { on_row(lang, t, src, c, row) } else { None };
        if here is Some {
            here
        } else {
            on_row_kids(lang, t, src, n, row, k + 1)
        }
    }
}

/// The comments after the `j`th child of `p` on `row`, up to the first code.
pub open spec fn trailing_siblings(lang: &CompiledLanguage, t: &SyntaxTree, src: Seq<u8>, p: int, j: int, row: usize) -> Option<FoundMarker>
    decreases t.kids(p).len() - j,
{
    if j < 0 || j >= t.kids(p).len() {
        None
    } else {
        let c = t.kids(p)[j] as int;
        if t.spec_start_row(c) != row || lang.spec_role(t, c) != Role::Trivia {
            None
        } else {
            match marker_at(lang, t, src, c) {
                Some(m) => Some(m),
                None => trailing_siblings(lang, t, src, p, j + 1, row),
            }
        }
    }
}

/// The marker on a declaration's own signature line, inside it or just after it.
pub open spec fn spec_trailing(lang: &CompiledLanguage, t: &SyntaxTree, src: Seq<u8>, a: int) -> Option<FoundMarker> {
    let row = spec_declaration_row(lang, t, a);
    match on_row_kids(lang, t, src, a, row, 0) {
        Some(m) => Some(m),
        None => match t.spec_parent(a) {
            Some(p) => trailing_siblings(lang, t, src, p as int, t.node(a).index_in_parent + 1, row),
            None => None,
        },
    }
}

/// The marker that speaks for an anchor: above it first, then on its signature line.
pub open spec fn anchor_marker(lang: &CompiledLanguage, t: &SyntaxTree, src: Seq<u8>, a: int) -> Option<FoundMarker> {
    match spec_leading(lang, t, src, a) {
        Some(m) => Some(m),
        None => spec_trailing(lang, t, src, a),
    }
}

/// The first of `anchors`, from position `k`, that a marker speaks for.
pub open spec fn anchors_marker(lang: &CompiledLanguage, t: &SyntaxTree, src: Seq<u8>, anchors: Seq<usize>, k: int) -> Option<FoundMarker>
    decreases anchors.len() - k,
{
    if k < 0 || k >= anchors.len() {
        None
    } else {
        match anchor_marker(lang, t, src, anchors[k] as int) {
            Some(m) => Some(m),
            None => anchors_marker(lang, t, src, anchors, k + 1),
        }
    }
}

/// The file's leading comments, behind any preamble, that no declaration claimed.
pub open spec fn toplevel_from(lang: &CompiledLanguage, t: &SyntaxTree, src: Seq<u8>, claimed: Seq<usize>, k: int) -> Option<FoundMarker>
    decreases t.kids(0).len() - k,
{
    if t.len() == 0 || k < 0 || k >= t.kids(0).len() {
        None
    } else {
        let c = t.kids(0)[k] as int;
        if lang.spec_role(t, c) != Role::Trivia && !lang.spec_has(t, c, Flags::preamble()) {
            None
        } else if lang.spec_role(t, c) == Role::Trivia && !claimed.contains(c as usize) && marker_at(lang, t, src, c) is Some {
            marker_at(lang, t, src, c)
        } else {
            toplevel_from(lang, t, src, claimed, k + 1)
        }
    }
}

} // verus!

verus! {

fn marker_of(lang: &CompiledLanguage, t: &SyntaxTree, src: &[u8], c: usize) -> (r: Option<(usize, Suppression)>)
    ensures
        found_matches(r, marker_at(lang, t, src@, c as int)),
{
    if lang.role(t, c) != Role::Trivia {
        return None;
    }
    match t.text(src, c) {
        Some(s) => match parse_marker(s.as_str()) {
            Some(found) => Some((c, found)),
            None => None,
        },
        None => None,
    }
}

fn leading(lang: &CompiledLanguage, t: &SyntaxTree, src: &[u8], a: usize) -> (r: Option<(usize, Suppression)>)
    ensures
        found_matches(r, spec_leading(lang, t, src@, a as int)),
{
    let p = match t.parent(a) {
        Some(p) => p,
        None => return None,
    };
    let kids = &t.nodes[p].children;
    let idx = t.nodes[a].index_in_parent;
    let mut j: usize = idx;
    while j >= 1
        invariant
            p < t.len(),
            kids@ == t.kids(p as int),
            j <= idx,
            spec_leading(lang, t, src@, a as int) == leading_from(lang, t, src@, p as int, j - 1),
        decreases j,
    {
        let i = j - 1;
        if i >= kids.len() {
            return None;
        }
        let c = kids[i];
        let trails = i >= 1 && lang.role(t, kids[i - 1]) != Role::Trivia
            && t.end_row(kids[i - 1]) == t.start_row(c);
        let above = if lang.role(t, c) == Role::Trivia { !trails } else { lang.has_flag(t, c, Flags(8)) };
        if !above {
            return None;
        }
        let found = marker_of(lang, t, src, c);
        if found.is_some() {
            return found;
        }
        j = i;
    }
    None
}

fn on_row_exec(lang: &CompiledLanguage, t: &SyntaxTree, src: &[u8], n: usize, row: usize) -> (r: Option<(usize, Suppression)>)
    ensures
        found_matches(r, on_row(lang, t, src@, n as int, row)),
    decreases t.len() - n, 1int, 0int,
{
    if n >= t.nodes.len() || t.start_row(n) > row {
        return None;
    }
    if t.start_row(n) == row {
        let found = marker_of(lang, t, src, n);
        if found.is_some() {
            return found;
        }
    }
    on_row_kids_exec(lang, t, src, n, row)
}

fn on_row_kids_exec(lang: &CompiledLanguage, t: &SyntaxTree, src: &[u8], n: usize, row: usize) -> (r: Option<(usize, Suppression)>)
    requires
        n < t.len(),
    ensures
        found_matches(r, on_row_kids(lang, t, src@, n as int, row, 0)),
    decreases t.len() - n, 0int, t.kids(n as int).len(),
{
    let kids = &t.nodes[n].children;
    let mut k: usize = 0;
    while k < kids.len()
        invariant
            n < t.len(),
            kids@ == t.kids(n as int),
            0 <= k <= kids@.len(),
            on_row_kids(lang, t, src@, n as int, row, 0) == on_row_kids(lang, t, src@, n as int, row, k as int),
        decreases kids@.len() - k,
    {
        let c = kids[k];
        if n < c && c < t.nodes.len() {
            let found = on_row_exec(lang, t, src, c, row);
            if found.is_some() {
                return found;
            }
        }
        k = k + 1;
    }
    None
}

fn trailing(lang: &CompiledLanguage, t: &SyntaxTree, src: &[u8], a: usize) -> (r: Option<(usize, Suppression)>)
    ensures
        found_matches(r, spec_trailing(lang, t, src@, a as int)),
{
    let row = declaration_row(lang, t, a);
    if a < t.nodes.len() {
        let inside = on_row_kids_exec(lang, t, src, a, row);
        if inside.is_some() {
            return inside;
        }
    } else {
        assert(on_row_kids(lang, t, src@, a as int, row, 0) is None);
    }
    let p = match t.parent(a) {
        Some(p) => p,
        None => return None,
    };
    let kids = &t.nodes[p].children;
    let idx = t.nodes[a].index_in_parent;
    if idx >= kids.len() {
        return None;
    }
    let mut j: usize = idx + 1;
    while j < kids.len()
        invariant
            p < t.len(),
            kids@ == t.kids(p as int),
            j <= kids@.len(),
            spec_trailing(lang, t, src@, a as int) == trailing_siblings(lang, t, src@, p as int, j as int, row),
        decreases kids@.len() - j,
    {
        let c = kids[j];
        if t.start_row(c) != row || lang.role(t, c) != Role::Trivia {
            return None;
        }
        let found = marker_of(lang, t, src, c);
        if found.is_some() {
            return found;
        }
        j = j + 1;
    }
    None
}

/// The marker that speaks for one anchor of a unit.
pub fn anchor_marker_exec(lang: &CompiledLanguage, t: &SyntaxTree, src: &[u8], a: usize) -> (r: Option<(usize, Suppression)>)
    ensures
        found_matches(r, anchor_marker(lang, t, src@, a as int)),
{
    let above = leading(lang, t, src, a);
    if above.is_some() {
        return above;
    }
    trailing(lang, t, src, a)
}

/// The marker of a unit: the first of its anchors, innermost first, that one speaks for. The
/// comment's node comes along, so that one comment can silence only one unit.
pub fn unit_marker(lang: &CompiledLanguage, t: &SyntaxTree, src: &[u8], anchors: &Vec<usize>) -> (r: Option<(usize, Suppression)>)
    ensures
        found_matches(r, anchors_marker(lang, t, src@, anchors@, 0)),
{
    let mut k: usize = 0;
    while k < anchors.len()
        invariant
            0 <= k <= anchors@.len(),
            anchors_marker(lang, t, src@, anchors@, 0) == anchors_marker(lang, t, src@, anchors@, k as int),
        decreases anchors@.len() - k,
    {
        let found = anchor_marker_exec(lang, t, src, anchors[k]);
        if found.is_some() {
            return found;
        }
        k = k + 1;
    }
    None
}

/// File-level code has no declaration line, so its marker lives in the comment block at the top
/// of the file, behind an open tag or shebang. A comment a declaration already claimed stays
/// with that declaration.
pub fn toplevel_suppression(lang: &CompiledLanguage, t: &SyntaxTree, src: &[u8], claimed: &Vec<usize>) -> (r: Suppression)
    ensures
        suppression_is(r, toplevel_from(lang, t, src@, claimed@, 0)),
{
    if t.nodes.len() == 0 {
        return Suppression::Unmarked;
    }
    let kids = &t.nodes[0].children;
    let mut k: usize = 0;
    while k < kids.len()
        invariant
            t.len() >= 1,
            kids@ == t.kids(0),
            0 <= k <= kids@.len(),
            toplevel_from(lang, t, src@, claimed@, 0) == toplevel_from(lang, t, src@, claimed@, k as int),
        decreases kids@.len() - k,
    {
        let c = kids[k];
        let trivia = lang.role(t, c) == Role::Trivia;
        if !trivia && !lang.has_flag(t, c, Flags(32)) {
            return Suppression::Unmarked;
        }
        if trivia && !contains_id(claimed, c) {
            match marker_of(lang, t, src, c) {
                Some((_, found)) => return found,
                None => {},
            }
        }
        k = k + 1;
    }
    Suppression::Unmarked
}

/// Whether node `c` is among `ids`.
pub fn contains_id(ids: &Vec<usize>, c: usize) -> (r: bool)
    ensures
        r == ids@.contains(c),
{
    let mut i: usize = 0;
    while i < ids.len()
        invariant
            0 <= i <= ids@.len(),
            forall|k: int| 0 <= k < i ==> ids@[k] != c,
        decreases ids@.len() - i,
    {
        if ids[i] == c {
            return true;
        }
        i = i + 1;
    }
    false
}

} // verus!

verus! {

/// A marker is reasoned only when a `:` follows it at once and a reason that is not blank
/// follows that: at the first marker of a comment, anything but `:` next, or nothing, makes it a
/// marker that is refused for want of a reason; and a reason, when there is one, is never empty.
pub proof fn law_a_reason_follows_a_colon(comment: Seq<char>, i: int)
    requires
        occurs_at(comment, SUPPRESSION_MARKER@, i),
        forall|j: int| 0 <= j < i ==> !occurs_at(comment, SUPPRESSION_MARKER@, j),
    ensures
        spec_marker(comment) is Some,
        (i + SUPPRESSION_MARKER@.len() >= comment.len() || comment[i + SUPPRESSION_MARKER@.len()] != ':')
            ==> spec_marker(comment) == Some(None::<Seq<char>>),
        spec_marker(comment) matches Some(Some(reason)) ==> comment[i + SUPPRESSION_MARKER@.len()] == ':' && reason.len() > 0,
{
    lemma_find_first(comment, SUPPRESSION_MARKER@, 0, i);
    let after = comment.subrange(i + SUPPRESSION_MARKER@.len(), comment.len() as int);
    if after.len() > 0 {
        assert(after[0] == comment[i + SUPPRESSION_MARKER@.len()]);
    }
}

/// A comment without the marker suppresses nothing.
pub proof fn law_no_marker_no_suppression(comment: Seq<char>)
    requires
        forall|j: int| 0 <= j ==> !occurs_at(comment, SUPPRESSION_MARKER@, j),
    ensures
        spec_marker(comment) is None,
{
    lemma_find_from(comment, SUPPRESSION_MARKER@, 0);
}

} // verus!
