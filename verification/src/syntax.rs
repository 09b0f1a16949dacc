//! A parsed file as plain values: every node of the concrete syntax tree in pre-order, with
//! its kind, field, position and links to its parent and children.
use vstd::prelude::*;
use crate::text::string_from_utf8;

verus! {

/// One node. `field_id` is the field its parent holds it under; `index_in_parent` is its
/// position among all of the parent's children.
#[derive(Clone, Debug)]
pub struct SyntaxNode {
    pub kind_id: u16,
    pub named: bool,
    pub extra: bool,
    pub field_id: Option<u16>,
    pub start_byte: usize,
    pub end_byte: usize,
    pub start_row: usize,
    pub end_row: usize,
    pub start_column: usize,
    pub end_column: usize,
    pub parent: Option<usize>,
    pub index_in_parent: usize,
    pub children: Vec<usize>,
}

/// Node 0 is the root. `region_row` is the row the parsed region starts on.
#[derive(Clone, Debug)]
pub struct SyntaxTree {
    pub nodes: Vec<SyntaxNode>,
    pub region_row: usize,
}

/// Node 0 is the root; every other node names a parent before it, holds the slot its parent
/// lists it in, and every listed child names its parent back.
pub open spec fn nodes_wf(s: Seq<SyntaxNode>) -> bool {
    &&& s.len() >= 1
    &&& s[0].parent is None
    &&& forall|i: int|
        #![trigger s[i]]
        1 <= i < s.len() ==> {
            &&& s[i].parent matches Some(p)
            &&& p < i
            &&& s[i].index_in_parent < s[p as int].children@.len()
            &&& s[p as int].children@[s[i].index_in_parent as int] == i
        }
    &&& forall|i: int, k: int|
        0 <= i < s.len() && 0 <= k < s[i].children@.len() ==> {
            let c = #[trigger] s[i].children@[k];
            &&& i < c < s.len()
            &&& s[c as int].parent == Some(i as usize)
            &&& s[c as int].index_in_parent == k
        }
}

impl SyntaxTree {
    pub open spec fn len(&self) -> int {
        self.nodes@.len() as int
    }

    pub open spec fn node(&self, i: int) -> SyntaxNode {
        self.nodes@[i]
    }

    pub open spec fn kids(&self, i: int) -> Seq<usize> {
        self.nodes@[i].children@
    }

    /// A child strictly after its parent in pre-order, so every descent terminates.
    pub open spec fn below(&self, parent: int, c: int) -> bool {
        parent < c < self.len()
    }

    /// Parent and child links agree, and a child always follows its parent.
    pub open spec fn wf(&self) -> bool {
        nodes_wf(self.nodes@)
    }

    pub open spec fn spec_kind(&self, i: int) -> u16 {
        if 0 <= i < self.len() {
            self.node(i).kind_id
        } else {
            0
        }
    }

    /// The first child held under field `f`, as `Node::child_by_field_id` answers.
    pub open spec fn field_child_from(&self, i: int, f: u16, k: int) -> Option<usize>
        decreases self.kids(i).len() - k,
    {
        if k < 0 || k >= self.kids(i).len() {
            None
        } else if self.kids(i)[k] < self.len() && self.node(self.kids(i)[k] as int).field_id == Some(f) {
            Some(self.kids(i)[k])
        } else {
            self.field_child_from(i, f, k + 1)
        }
    }

    pub open spec fn spec_field(&self, i: int, f: Option<u16>) -> Option<usize> {
        if 0 <= i < self.len() {
            match f {
                Some(f) => self.field_child_from(i, f, 0),
                None => None,
            }
        } else {
            None
        }
    }

    pub proof fn lemma_field_child_from(&self, i: int, f: u16, k: int)
        requires
            0 <= i < self.len(),
            0 <= k,
        ensures
            self.field_child_from(i, f, k) matches Some(c) ==> self.kids(i).contains(c)
                && c < self.len() && self.node(c as int).field_id == Some(f),
        decreases self.kids(i).len() - k,
    {
        if k < self.kids(i).len() {
            if !(self.kids(i)[k] < self.len() && self.node(self.kids(i)[k] as int).field_id == Some(f)) {
                self.lemma_field_child_from(i, f, k + 1);
            }
        }
    }

    pub fn kind(&self, i: usize) -> (r: u16)
        ensures
            r == self.spec_kind(i as int),
    {
        if i < self.nodes.len() {
            self.nodes[i].kind_id
        } else {
            0
        }
    }

    pub fn child_by_field(&self, i: usize, f: Option<u16>) -> (r: Option<usize>)
        ensures
            r == self.spec_field(i as int, f),
            r matches Some(c) ==> c < self.len() && (self.wf() ==> i < c),
    {
        if i >= self.nodes.len() {
            return None;
        }
        let fid = match f {
            Some(g) => g,
            None => return None,
        };
        let kids = &self.nodes[i].children;
        let mut k: usize = 0;
        while k < kids.len()
            invariant
                0 <= i < self.len(),
                kids@ == self.kids(i as int),
                0 <= k <= kids@.len(),
                f == Some(fid),
                self.field_child_from(i as int, fid, 0) == self.field_child_from(i as int, fid, k as int),
            decreases kids@.len() - k,
        {
            let c = kids[k];
            let hit = c < self.nodes.len() && match self.nodes[c].field_id {
                Some(g) => g == fid,
                None => false,
            };
            if hit {
                assert(self.field_child_from(i as int, fid, k as int) == Some(c));
                proof {
                    self.lemma_field_child_from(i as int, fid, 0);
                    if self.wf() {
                        assert(self.kids(i as int)[k as int] == c);
                    }
                }
                return Some(c);
            }
            k = k + 1;
        }
        None
    }

    /// The bytes a node spans, decoded, when they lie inside `src` and are valid UTF-8.
    pub open spec fn spec_text(&self, src: Seq<u8>, i: int) -> Option<Seq<char>> {
        if 0 <= i < self.len() && self.node(i).start_byte <= self.node(i).end_byte <= src.len()
            && vstd::utf8::valid_utf8(src.subrange(self.node(i).start_byte as int, self.node(i).end_byte as int)) {
            Some(vstd::utf8::decode_utf8(src.subrange(self.node(i).start_byte as int, self.node(i).end_byte as int)))
        } else {
            None
        }
    }

    /// `Node::utf8_text`.
    pub fn text(&self, src: &[u8], i: usize) -> (r: Option<String>)
        ensures
            r is Some <==> self.spec_text(src@, i as int) is Some,
            r matches Some(s) ==> self.spec_text(src@, i as int) == Some(s@),
    {
        if i >= self.nodes.len() {
            return None;
        }
        let a = self.nodes[i].start_byte;
        let b = self.nodes[i].end_byte;
        if a <= b && b <= src.len() {
            string_from_utf8(&src[a..b])
        } else {
            None
        }
    }
}

impl SyntaxTree {
    pub open spec fn spec_named(&self, i: int) -> bool {
        0 <= i < self.len() && self.node(i).named
    }

    pub open spec fn spec_extra(&self, i: int) -> bool {
        0 <= i < self.len() && self.node(i).extra
    }

    pub open spec fn spec_field_id(&self, i: int) -> Option<u16> {
        if 0 <= i < self.len() {
            self.node(i).field_id
        } else {
            None
        }
    }

    pub open spec fn spec_parent(&self, i: int) -> Option<usize> {
        if 0 <= i < self.len() {
            match self.node(i).parent {
                Some(p) => if p < self.len() { Some(p) } else { None },
                None => None,
            }
        } else {
            None
        }
    }

    /// The children of `i` that are named, from position `k` on.
    pub open spec fn named_from(&self, i: int, k: int) -> Seq<usize>
        decreases self.kids(i).len() - k,
    {
        if k < 0 || k >= self.kids(i).len() {
            Seq::empty()
        } else if self.spec_named(self.kids(i)[k] as int) {
            seq![self.kids(i)[k]] + self.named_from(i, k + 1)
        } else {
            self.named_from(i, k + 1)
        }
    }

    /// `Node::named_children`.
    pub open spec fn spec_named_children(&self, i: int) -> Seq<usize> {
        if 0 <= i < self.len() {
            self.named_from(i, 0)
        } else {
            Seq::empty()
        }
    }

    /// The sibling `d` places after (`d > 0`) or before (`d < 0`) node `i`.
    pub open spec fn spec_sibling(&self, i: int, d: int) -> Option<usize> {
        match self.spec_parent(i) {
            Some(p) => {
                let j = self.node(i).index_in_parent + d;
                if 0 <= j < self.kids(p as int).len() && self.kids(p as int)[j] < self.len() {
                    Some(self.kids(p as int)[j])
                } else {
                    None
                }
            },
            None => None,
        }
    }

    pub open spec fn spec_start_row(&self, i: int) -> usize {
        if 0 <= i < self.len() { self.node(i).start_row } else { 0 }
    }

    pub open spec fn spec_end_row(&self, i: int) -> usize {
        if 0 <= i < self.len() { self.node(i).end_row } else { 0 }
    }

    pub open spec fn spec_start_byte(&self, i: int) -> usize {
        if 0 <= i < self.len() { self.node(i).start_byte } else { 0 }
    }

    pub open spec fn spec_end_byte(&self, i: int) -> usize {
        if 0 <= i < self.len() { self.node(i).end_byte } else { 0 }
    }

    pub fn is_named(&self, i: usize) -> (r: bool)
        ensures
            r == self.spec_named(i as int),
    {
        i < self.nodes.len() && self.nodes[i].named
    }

    pub fn is_extra(&self, i: usize) -> (r: bool)
        ensures
            r == self.spec_extra(i as int),
    {
        i < self.nodes.len() && self.nodes[i].extra
    }

    pub fn field_id(&self, i: usize) -> (r: Option<u16>)
        ensures
            r == self.spec_field_id(i as int),
    {
        if i < self.nodes.len() {
            self.nodes[i].field_id
        } else {
            None
        }
    }

    pub fn parent(&self, i: usize) -> (r: Option<usize>)
        ensures
            r == self.spec_parent(i as int),
    {
        if i < self.nodes.len() {
            match self.nodes[i].parent {
                Some(p) => if p < self.nodes.len() { Some(p) } else { None },
                None => None,
            }
        } else {
            None
        }
    }

    pub fn start_row(&self, i: usize) -> (r: usize)
        ensures
            r == self.spec_start_row(i as int),
    {
        if i < self.nodes.len() { self.nodes[i].start_row } else { 0 }
    }

    pub fn end_row(&self, i: usize) -> (r: usize)
        ensures
            r == self.spec_end_row(i as int),
    {
        if i < self.nodes.len() { self.nodes[i].end_row } else { 0 }
    }

    pub fn start_byte(&self, i: usize) -> (r: usize)
        ensures
            r == self.spec_start_byte(i as int),
    {
        if i < self.nodes.len() { self.nodes[i].start_byte } else { 0 }
    }

    pub fn end_byte(&self, i: usize) -> (r: usize)
        ensures
            r == self.spec_end_byte(i as int),
    {
        if i < self.nodes.len() { self.nodes[i].end_byte } else { 0 }
    }

    /// The children of `i`, empty for an id outside the tree.
    pub fn children(&self, i: usize) -> (r: Vec<usize>)
        ensures
            r@ == (if i < self.len() { self.kids(i as int) } else { Seq::empty() }),
    {
        if i < self.nodes.len() {
            self.nodes[i].children.clone()
        } else {
            Vec::new()
        }
    }

    pub fn named_children(&self, i: usize) -> (r: Vec<usize>)
        ensures
            r@ == self.spec_named_children(i as int),
    {
        let mut out: Vec<usize> = Vec::new();
        if i >= self.nodes.len() {
            return out;
        }
        let kids = &self.nodes[i].children;
        let mut k: usize = 0;
        while k < kids.len()
            invariant
                0 <= i < self.len(),
                kids@ == self.kids(i as int),
                0 <= k <= kids@.len(),
                out@ + self.named_from(i as int, k as int) == self.named_from(i as int, 0),
            decreases kids@.len() - k,
        {
            let c = kids[k];
            if self.is_named(c) {
                proof {
                    assert(out@.push(c) + self.named_from(i as int, k + 1) =~= out@ + self.named_from(i as int, k as int));
                }
                out.push(c);
            }
            k = k + 1;
        }
        proof {
            assert(out@ + self.named_from(i as int, k as int) =~= out@);
        }
        out
    }

    pub fn sibling(&self, i: usize, forward: bool) -> (r: Option<usize>)
        ensures
            r == self.spec_sibling(i as int, if forward { 1int } else { -1int }),
    {
        let p = match self.parent(i) {
            Some(p) => p,
            None => return None,
        };
        let idx = self.nodes[i].index_in_parent;
        let kids = &self.nodes[p].children;
        if forward {
            if idx < kids.len() && idx + 1 < kids.len() && kids[idx + 1] < self.nodes.len() {
                Some(kids[idx + 1])
            } else {
                None
            }
        } else {
            if idx >= 1 && idx - 1 < kids.len() && kids[idx - 1] < self.nodes.len() {
                Some(kids[idx - 1])
            } else {
                None
            }
        }
    }
}

} // verus!
