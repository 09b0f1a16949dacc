//! Machine-written files are neither scored nor counted: nobody refactors them, so a finding
//! there is noise. Each language marks them its own way in the comments before any code.
use vstd::prelude::*;
use crate::java_names::join;
use crate::text::{
    back_ws, chars_of, contains, contains_lit, ends_with, find_chars, find_from, is_whitespace, is_ws,
    lemma_back_ws_bounds, lemma_find_first, lemma_find_from, lemma_skip_ws_bounds, occurs_at, skip_ws, starts_with,
    starts_with_lit, string_from, sub_chars, trim, trim_chars,
};

verus! {

/// `str::trim_start_matches('\u{feff}')`: the text without leading byte-order marks.
pub open spec fn drop_bom(s: Seq<char>) -> Seq<char>
    decreases s.len(),
{
    if s.len() > 0 && s[0] == '\u{feff}' {
        drop_bom(s.drop_first())
    } else {
        s
    }
}

/// The first line of `s` and what follows it, as `str::lines` splits them.
pub open spec fn next_line(s: Seq<char>) -> (Seq<char>, Seq<char>) {
    match find_from(s, seq!['\n'], 0) {
        Some(i) => {
            let line = s.subrange(0, i);
            (if line.len() > 0 && line.last() == '\r' { line.drop_last() } else { line }, s.subrange(i + 1, s.len() as int))
        },
        None => (s, Seq::empty()),
    }
}

pub proof fn lemma_next_line(s: Seq<char>)
    requires
        s.len() > 0,
    ensures
        next_line(s).1.len() < s.len(),
{
    lemma_find_from(s, seq!['\n'], 0);
}

pub proof fn lemma_trim_len(s: Seq<char>)
    ensures
        trim(s).len() <= s.len(),
{
    lemma_skip_ws_bounds(s, 0);
    lemma_back_ws_bounds(s, skip_ws(s, 0), s.len() as int);
}

/// How a Go header line reads: 0 the generated-code marker, 1 a comment or blank, 2 the start
/// of a block comment that runs on, 3 code.
pub open spec fn header_kind(line: Seq<char>) -> u8
    decreases line.len(),
{
    if starts_with(line, "// Code generated "@) && ends_with(line.subrange(18, line.len() as int), " DO NOT EDIT."@) {
        0
    } else if line.len() == 0 || starts_with(line, "//"@) {
        1
    } else if starts_with(line, "/*"@) {
        let block = line.subrange(2, line.len() as int);
        match find_from(block, "*/"@, 0) {
            Some(e) => {
                proof {
                    reveal_strlit("/*");
                    reveal_strlit("*/");
                    lemma_find_from(block, "*/"@, 0);
                    assert(occurs_at(block, "*/"@, e));
                    lemma_trim_len(block.subrange(e + 2, block.len() as int));
                }
                header_kind(trim(block.subrange(e + 2, block.len() as int)))
            },
            None => 2,
        }
    } else {
        3
    }
}

/// Go's convention as `go/ast.IsGenerated` reads it: a `// Code generated … DO NOT EDIT.` line
/// before the first line of code.
pub open spec fn go_header(s: Seq<char>, in_block: bool) -> bool
    decreases s.len(),
{
    if s.len() == 0 {
        false
    } else {
        proof {
            lemma_next_line(s);
        }
        let (line, rest) = next_line(s);
        let visible = if in_block {
            match find_from(line, "*/"@, 0) {
                Some(e) => Some(line.subrange(e + 2, line.len() as int)),
                None => None,
            }
        } else {
            Some(line)
        };
        match visible {
            None => go_header(rest, true),
            Some(x) => {
                let k = header_kind(trim(x));
                if k == 0 {
                    true
                } else if k == 1 {
                    go_header(rest, false)
                } else if k == 2 {
                    go_header(rest, true)
                } else {
                    false
                }
            },
        }
    }
}

pub open spec fn spec_go_is_generated(source: Seq<char>) -> bool {
    go_header(drop_bom(source), false)
}

} // verus!

verus! {

pub fn drop_bom_exec(s: &Vec<char>) -> (r: Vec<char>)
    ensures
        r@ == drop_bom(s@),
{
    let n = s.len();
    let mut i: usize = 0;
    assert(s@.subrange(0, n as int) =~= s@);
    while i < n && s[i] == '\u{feff}'
        invariant
            n == s@.len(),
            0 <= i <= n,
            drop_bom(s@) == drop_bom(s@.subrange(i as int, n as int)),
        decreases n - i,
    {
        assert(s@.subrange(i as int, n as int).drop_first() =~= s@.subrange(i + 1, n as int));
        i = i + 1;
    }
    sub_chars(s, i, n)
}

pub fn next_line_exec(s: &Vec<char>) -> (r: (Vec<char>, Vec<char>))
    ensures
        (r.0@, r.1@) == next_line(s@),
{
    let nl = vec!['\n'];
    assert(nl@ =~= seq!['\n']);
    let n = s.len();
    let found = find_chars(s, &nl, 0);
    proof {
        lemma_find_from(s@, nl@, 0);
        if let Some(i) = find_from(s@, nl@, 0) {
            assert(occurs_at(s@, nl@, i));
            assert(found == Some(i as usize));
        }
    }
    match found {
        Some(i) => {
            let line = sub_chars(s, 0, i);
            let rest = sub_chars(s, i + 1, n);
            if line.len() > 0 && line[line.len() - 1] == '\r' {
                (sub_chars(&line, 0, line.len() - 1), rest)
            } else {
                (line, rest)
            }
        },
        None => {
            assert(s@.subrange(0, n as int) =~= s@);
            (sub_chars(s, 0, n), Vec::new())
        },
    }
}

/// The position just past the first `*/` in `s`, if there is one.
pub fn after_close(s: &Vec<char>) -> (r: Option<Vec<char>>)
    ensures
        r is Some <==> find_from(s@, "*/"@, 0) is Some,
        r matches Some(v) ==> find_from(s@, "*/"@, 0) matches Some(e) && v@ == s@.subrange(e + 2, s@.len() as int),
{
    let close = chars_of("*/");
    proof {
        reveal_strlit("*/");
    }
    let n = s.len();
    let found = find_chars(s, &close, 0);
    proof {
        lemma_find_from(s@, close@, 0);
        if let Some(i) = find_from(s@, close@, 0) {
            assert(occurs_at(s@, close@, i));
            assert(found == Some(i as usize));
        }
    }
    match found {
        Some(e) => Some(sub_chars(s, e + 2, n)),
        None => None,
    }
}

pub fn header_kind_exec(line: &Vec<char>) -> (r: u8)
    ensures
        r == header_kind(line@),
    decreases line@.len(),
{
    proof {
        reveal_strlit("// Code generated ");
        reveal_strlit("//");
        reveal_strlit("/*");
    }
    if starts_with_lit(line, "// Code generated ") {
        let rest = sub_chars(line, 18, line.len());
        if crate::text::ends_with_lit(&rest, " DO NOT EDIT.") {
            return 0;
        }
    }
    if line.len() == 0 || starts_with_lit(line, "//") {
        return 1;
    }
    if starts_with_lit(line, "/*") {
        let block = sub_chars(line, 2, line.len());
        return match after_close(&block) {
            Some(after) => {
                let inner = trim_chars(&after);
                proof {
                    reveal_strlit("*/");
                    lemma_trim_len(after@);
                    lemma_find_from(block@, "*/"@, 0);
                }
                header_kind_exec(&inner)
            },
            None => 2,
        };
    }
    3
}


} // verus!

verus! {

/// What `str::to_lowercase` makes of a text: its Unicode lowercase mapping, which may look at a
/// character's neighbours (a final sigma) and may change the text's length.
pub uninterp spec fn lowercase(s: Seq<char>) -> Seq<char>;

/// `str::to_lowercase`.
#[verifier::external_body]
fn to_lowercase(s: &str) -> (r: String)
    ensures
        r@ == lowercase(s@),
{
    s.to_lowercase()
}

/// The end of the word starting at `i`: the next whitespace, or the end.
pub open spec fn word_end(s: Seq<char>, i: int) -> int
    decreases s.len() - i,
{
    if i < 0 || i >= s.len() || is_ws(s[i]) {
        i
    } else {
        word_end(s, i + 1)
    }
}

pub proof fn lemma_word_end(s: Seq<char>, i: int)
    requires
        0 <= i <= s.len(),
    ensures
        i <= word_end(s, i) <= s.len(),
        i < s.len() && !is_ws(s[i]) ==> word_end(s, i) > i,
    decreases s.len() - i,
{
    if i < s.len() && !is_ws(s[i]) {
        lemma_word_end(s, i + 1);
    }
}

/// `str::split_whitespace` from position `i`.
pub open spec fn words_from(s: Seq<char>, i: int) -> Seq<Seq<char>>
    decreases s.len() - i,
{
    if i < 0 || i > s.len() {
        Seq::empty()
    } else {
        let a = skip_ws(s, i);
        if a >= s.len() {
            Seq::empty()
        } else {
            proof {
                lemma_skip_ws_bounds(s, i);
                lemma_word_end(s, a);
            }
            let b = word_end(s, a);
            seq![s.subrange(a, b)] + words_from(s, b)
        }
    }
}

/// The text with every run of whitespace made one space and the ends trimmed.
pub open spec fn collapse(s: Seq<char>) -> Seq<char> {
    join(words_from(s, 0), " "@)
}

/// Both phrases that protobuf, gRPC, Thrift, Avro and JavaCC output write in a header.
pub open spec fn says_generated(header: Seq<char>) -> bool {
    let h = collapse(lowercase(header));
    contains(h, "generated"@) && contains(h, "do not edit"@)
}

} // verus!

verus! {

fn collapse_exec(s: &Vec<char>) -> (r: Vec<char>)
    ensures
        r@ == collapse(s@),
{
    let n = s.len();
    let mut out: Vec<char> = Vec::new();
    let ghost mut done: Seq<Seq<char>> = Seq::empty();
    let mut any = false;
    let mut i: usize = 0;
    proof {
        reveal_strlit(" ");
    }
    loop
        invariant
            n == s@.len(),
            any == (done.len() > 0),
            0 <= i <= n,
            done + words_from(s@, i as int) == words_from(s@, 0),
            out@ == join(done, " "@),
            " "@ == seq![' '],
        decreases n - i,
    {
        let mut a = i;
        while a < n && is_whitespace(s[a])
            invariant
                n == s@.len(),
                i <= a <= n,
                skip_ws(s@, i as int) == skip_ws(s@, a as int),
            decreases n - a,
        {
            a = a + 1;
        }
        proof {
            lemma_skip_ws_bounds(s@, i as int);
        }
        if a >= n {
            assert(words_from(s@, i as int) =~= Seq::<Seq<char>>::empty());
            assert(done + Seq::<Seq<char>>::empty() =~= done);
            return out;
        }
        let mut b = a;
        while b < n && !is_whitespace(s[b])
            invariant
                n == s@.len(),
                a <= b <= n,
                word_end(s@, a as int) == word_end(s@, b as int),
            decreases n - b,
        {
            b = b + 1;
        }
        let ghost before = out@;
        if any {
            out.push(' ');
        }
        let mut k = a;
        while k < b
            invariant
                a <= k <= b <= n,
                n == s@.len(),
                out@ == (if done.len() > 0 { before.push(' ') } else { before }) + s@.subrange(a as int, k as int),
            decreases b - k,
        {
            out.push(s[k]);
            proof {
                assert(s@.subrange(a as int, k + 1) =~= s@.subrange(a as int, k as int).push(s@[k as int]));
            }
            k = k + 1;
        }
        proof {
            let w = s@.subrange(a as int, b as int);
            assert(words_from(s@, i as int) =~= seq![w] + words_from(s@, b as int));
            let nd = done.push(w);
            assert(nd.drop_last() =~= done);
            if done.len() > 0 {
                assert(join(nd, " "@) == join(done, " "@) + " "@ + w);
                assert(out@ =~= join(done, " "@) + " "@ + w);
            } else {
                assert(nd.len() == 1);
                assert(out@ =~= w);
            }
            assert(nd + words_from(s@, b as int) =~= done + (seq![w] + words_from(s@, b as int)));
            done = nd;
        }
        any = true;
        i = b;
    }
}

/// Whether a header's comments say both "generated" and "do not edit", whatever their case
/// and however they are wrapped.
pub fn header_says_generated(header: &str) -> (r: bool)
    ensures
        r == says_generated(header@),
{
    let lower = to_lowercase(header);
    let chars = chars_of(lower.as_str());
    let h = collapse_exec(&chars);
    contains_lit(&h, "generated") && contains_lit(&h, "do not edit")
}

} // verus!

verus! {

/// A Python file's header: the `#` comments before the first line of code, blank lines
/// skipped, each without its `#`.
pub open spec fn python_header(s: Seq<char>) -> Seq<char>
    decreases s.len(),
{
    if s.len() == 0 {
        Seq::empty()
    } else {
        proof {
            lemma_next_line(s);
        }
        let (line, rest) = next_line(s);
        let t = trim(line);
        if t.len() == 0 {
            python_header(rest)
        } else if t[0] != '#' {
            Seq::empty()
        } else {
            t.drop_first() + seq!['\n'] + python_header(rest)
        }
    }
}

pub open spec fn spec_python_is_generated(source: Seq<char>) -> bool {
    says_generated(python_header(drop_bom(source)))
}


} // verus!

verus! {

/// The text up to the first `sep` and what follows it, or all of it and nothing.
pub open spec fn split_once(s: Seq<char>, sep: Seq<char>) -> (Seq<char>, Seq<char>) {
    match find_from(s, sep, 0) {
        Some(i) => (s.subrange(0, i), s.subrange(i + sep.len(), s.len() as int)),
        None => (s, Seq::empty()),
    }
}

pub proof fn lemma_split_once(s: Seq<char>, sep: Seq<char>)
    requires
        sep.len() > 0,
    ensures
        split_once(s, sep).1.len() <= s.len(),
{
    lemma_find_from(s, sep, 0);
}

/// A Java file's header: the line and block comments before the first line of code, each
/// without its delimiters.
pub open spec fn java_header(s: Seq<char>) -> Seq<char>
    decreases s.len(),
{
    proof {
        lemma_skip_ws_bounds(s, 0);
        reveal_strlit("//");
        reveal_strlit("/*");
        reveal_strlit("*/");
    }
    let r = s.subrange(skip_ws(s, 0), s.len() as int);
    if starts_with(r, "//"@) {
        let (comment, tail) = split_once(r.subrange(2, r.len() as int), seq!['\n']);
        proof {
            lemma_split_once(r.subrange(2, r.len() as int), seq!['\n']);
        }
        comment + seq!['\n'] + java_header(tail)
    } else if starts_with(r, "/*"@) {
        let (comment, tail) = split_once(r.subrange(2, r.len() as int), "*/"@);
        proof {
            lemma_split_once(r.subrange(2, r.len() as int), "*/"@);
        }
        comment + seq!['\n'] + java_header(tail)
    } else {
        Seq::empty()
    }
}

pub open spec fn spec_java_is_generated(source: Seq<char>) -> bool {
    says_generated(java_header(drop_bom(source)))
}

pub fn split_once_exec(s: &Vec<char>, sep: &Vec<char>) -> (r: (Vec<char>, Vec<char>))
    ensures
        (r.0@, r.1@) == split_once(s@, sep@),
{
    let n = s.len();
    let found = find_chars(s, sep, 0);
    proof {
        lemma_find_from(s@, sep@, 0);
        if let Some(i) = find_from(s@, sep@, 0) {
            assert(occurs_at(s@, sep@, i));
            assert(found == Some(i as usize));
        }
    }
    match found {
        Some(i) => (sub_chars(s, 0, i), sub_chars(s, i + sep.len(), n)),
        None => {
            assert(s@.subrange(0, n as int) =~= s@);
            (sub_chars(s, 0, n), Vec::new())
        },
    }
}


} // verus!

verus! {

proof fn lemma_line_split(c: Seq<char>, s: Seq<char>)
    requires
        forall|i: int| 0 <= i < c.len() ==> c[i] != '\n',
    ensures
        next_line(c + seq!['\n'] + s) == (
            if c.len() > 0 && c.last() == '\r' { c.drop_last() } else { c },
            s,
        ),
{
    let t = c + seq!['\n'] + s;
    assert forall|j: int| 0 <= j < c.len() implies !occurs_at(t, seq!['\n'], j) by {
        assert(t.subrange(j, j + 1)[0] == c[j]);
    }
    assert(t.subrange(c.len() as int, (c.len() + 1) as int) =~= seq!['\n']);
    lemma_find_first(t, seq!['\n'], 0, c.len() as int);
    assert(t.subrange(0, c.len() as int) =~= c);
    assert(t.subrange((c.len() + 1) as int, t.len() as int) =~= s);
}

/// A comment line or a blank line before the `// Code generated … DO NOT EDIT.` marker does not
/// end Go's header: whether the rest of the header marks the file as generated decides alone.
pub proof fn law_go_comment_lines_do_not_end_the_header(c: Seq<char>, s: Seq<char>)
    requires
        forall|i: int| 0 <= i < c.len() ==> c[i] != '\n',
        (starts_with(c, "//"@) && !starts_with(c, "// Code generated "@)) || (forall|i: int| 0 <= i < c.len() ==> is_ws(c[i])),
    ensures
        go_header(c + seq!['\n'] + s, false) == go_header(s, false),
        starts_with(c, "//"@) ==> spec_go_is_generated(c + seq!['\n'] + s) == go_header(s, false),
{
    reveal_strlit("//");
    reveal_strlit("// Code generated ");
    lemma_line_split(c, s);
    let t = c + seq!['\n'] + s;
    let line = if c.len() > 0 && c.last() == '\r' { c.drop_last() } else { c };
    let x = trim(line);
    lemma_skip_ws_bounds(line, 0);
    lemma_back_ws_bounds(line, skip_ws(line, 0), line.len() as int);
    if starts_with(c, "//"@) && !starts_with(c, "// Code generated "@) {
        assert(c.subrange(0, 2) =~= "//"@);
        assert(c[0] == c.subrange(0, 2)[0] && c[1] == c.subrange(0, 2)[1]);
        assert(c.len() >= 2);
        if c.last() == '\r' {
            assert(c.len() >= 3);
        }
        assert(line.len() >= 2 && line[0] == c[0] && line[1] == c[1]);
        assert(!is_ws(line[1]));
        assert(skip_ws(line, 0) == 0);
        assert(back_ws(line, 0, line.len() as int) >= 2);
        assert(x.subrange(0, 2) =~= "//"@);
        if starts_with(x, "// Code generated "@) {
            assert(x.subrange(0, 18) =~= c.subrange(0, 18));
        }
        assert(header_kind(x) == 1);
    } else {
        assert(skip_ws(line, 0) == line.len());
        assert(x.len() == 0);
        assert(header_kind(x) == 1);
    }
    assert(go_header(t, false) == go_header(s, false));
    if starts_with(c, "//"@) {
        assert(drop_bom(t) == t);
    }
}

/// A `// Code generated … DO NOT EDIT.` line marks a Go file as generated, whatever follows it.
pub proof fn law_go_marker_line_marks_generated(m: Seq<char>, s: Seq<char>)
    requires
        forall|i: int| 0 <= i < m.len() ==> m[i] != '\n',
    ensures
        go_header("// Code generated "@ + m + " DO NOT EDIT."@ + seq!['\n'] + s, false),
        spec_go_is_generated("// Code generated "@ + m + " DO NOT EDIT."@ + seq!['\n'] + s),
{
    reveal_strlit("// Code generated ");
    reveal_strlit(" DO NOT EDIT.");
    let c = "// Code generated "@ + m + " DO NOT EDIT."@;
    assert forall|i: int| 0 <= i < c.len() implies c[i] != '\n' by {
        if 18 <= i < 18 + m.len() {
            assert(c[i] == m[i - 18]);
        }
    }
    lemma_line_split(c, s);
    assert(c.last() == '.');
    assert(skip_ws(c, 0) == 0);
    assert(back_ws(c, 0, c.len() as int) == c.len());
    assert(trim(c) =~= c);
    assert(c.subrange(0, 18) =~= "// Code generated "@);
    let tail = c.subrange(18, c.len() as int);
    assert(tail.subrange(tail.len() - 13, tail.len() as int) =~= " DO NOT EDIT."@);
    assert(header_kind(trim(c)) == 0);
    let t = c + seq!['\n'] + s;
    assert(drop_bom(t) == t);
}

/// Block comments before the first line of code are part of a Java file's header, as line
/// comments are: the comment's text, then what the rest of the header holds.
pub proof fn law_java_block_comments_are_header(c: Seq<char>, s: Seq<char>)
    requires
        !contains(c, "*/"@),
    ensures
        java_header("/*"@ + c + "*/"@ + s) == c + seq!['\n'] + java_header(s),
{
    reveal_strlit("/*");
    reveal_strlit("*/");
    reveal_strlit("//");
    let t = "/*"@ + c + "*/"@ + s;
    lemma_skip_ws_bounds(t, 0);
    assert(t[0] == '/');
    assert(skip_ws(t, 0) == 0);
    assert(t.subrange(0, t.len() as int) =~= t);
    assert(t[1] == '*');
    assert(!starts_with(t, "//"@)) by {
        if starts_with(t, "//"@) {
            assert(t.subrange(0, 2)[1] == '/');
        }
    }
    assert(t.subrange(0, 2) =~= "/*"@);
    let body = t.subrange(2, t.len() as int);
    assert(body =~= c + "*/"@ + s);
    assert forall|j: int| 0 <= j < c.len() implies !occurs_at(body, "*/"@, j) by {
        if occurs_at(body, "*/"@, j) {
            if j + 2 <= c.len() {
                assert(body.subrange(j, j + 2) =~= c.subrange(j, j + 2));
                assert(occurs_at(c, "*/"@, j));
            } else {
                assert(body[j + 1] == '*');
                assert(body.subrange(j, j + 2)[1] == '/');
            }
        }
    }
    assert(body.subrange(c.len() as int, (c.len() + 2) as int) =~= "*/"@);
    lemma_find_first(body, "*/"@, 0, c.len() as int);
    assert(body.subrange(0, c.len() as int) =~= c);
    assert(body.subrange((c.len() + 2) as int, body.len() as int) =~= s);
}

} // verus!
