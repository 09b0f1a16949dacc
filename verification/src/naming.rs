//! Spellings of names that must not depend on quoting or line-wrapping.
use vstd::prelude::*;
use crate::text::{chars_of, is_whitespace, is_ws, string_from, sub_chars, trim, trim_chars};

verus! {

/// Removes one pair of matching `"` or `'` quotes around the trimmed text.
pub open spec fn spec_strip_quotes(text: Seq<char>) -> Seq<char> {
    let t = trim(text);
    if t.len() >= 2 && ((t[0] == '"' && t.last() == '"') || (t[0] == '\'' && t.last() == '\'')) {
        t.subrange(1, t.len() - 1)
    } else {
        t
    }
}

/// The text with every whitespace character removed.
pub open spec fn spec_compact(text: Seq<char>) -> Seq<char>
    decreases text.len(),
{
    if text.len() == 0 {
        text
    } else if is_ws(text.last()) {
        spec_compact(text.drop_last())
    } else {
        spec_compact(text.drop_last()).push(text.last())
    }
}

pub fn strip_quotes(text: &str) -> (r: String)
    ensures
        r@ == spec_strip_quotes(text@),
{
    let chars = chars_of(text);
    let t = trim_chars(&chars);
    let n = t.len();
    if n >= 2 && ((t[0] == '"' && t[n - 1] == '"') || (t[0] == '\'' && t[n - 1] == '\'')) {
        let inner = sub_chars(&t, 1, n - 1);
        string_from(inner.as_slice())
    } else {
        string_from(t.as_slice())
    }
}

/// Character-vector form of [`compact`].
pub fn compact_chars(text: &Vec<char>) -> (r: Vec<char>)
    ensures
        r@ == spec_compact(text@),
{
    let mut out: Vec<char> = Vec::new();
    let mut i: usize = 0;
    while i < text.len()
        invariant
            0 <= i <= text@.len(),
            out@ == spec_compact(text@.subrange(0, i as int)),
        decreases text@.len() - i,
    {
        proof {
            assert(text@.subrange(0, i + 1).drop_last() =~= text@.subrange(0, i as int));
        }
        if !is_whitespace(text[i]) {
            out.push(text[i]);
        }
        i = i + 1;
    }
    proof {
        assert(text@.subrange(0, text@.len() as int) =~= text@);
    }
    out
}

/// A key must not depend on how a member chain was line-wrapped.
pub fn compact(text: &str) -> (r: String)
    ensures
        r@ == spec_compact(text@),
{
    let chars = chars_of(text);
    let out = compact_chars(&chars);
    string_from(out.as_slice())
}

} // verus!
