//! The per-grammar dispatch table a spec compiles to: one role and a set of flags per node
//! kind, and the grammar's ids for the fields the walker reads.
use vstd::prelude::*;
use crate::spec::LanguageSpec;
use crate::syntax::SyntaxTree;
use crate::text::str_eq;

verus! {

/// Mutually exclusive dispatch roles. A kind carries at most one.
#[derive(Clone, Copy, PartialEq, Eq, Debug, Structural)]
pub enum Role {
    Other,
    If,
    ElseIf,
    Else,
    Control,
    Jump,
    Goto,
    Logical,
    Call,
    Trivia,
}

/// Properties that are not mutually exclusive with a role, nor with each other.
#[derive(Clone, Copy, Debug, PartialEq, Eq, Structural)]
pub struct Flags(pub u8);

pub open spec fn flag_has(a: Flags, b: Flags) -> bool {
    a.0 & b.0 != 0
}

impl Flags {
    pub open spec fn unit() -> Flags {
        Flags(1)
    }

    pub open spec fn container() -> Flags {
        Flags(2)
    }

    pub open spec fn nesting_fn() -> Flags {
        Flags(4)
    }

    pub open spec fn leading_trivia() -> Flags {
        Flags(8)
    }

    pub open spec fn parenthesis() -> Flags {
        Flags(16)
    }

    pub open spec fn preamble() -> Flags {
        Flags(32)
    }

    pub fn none() -> (r: Flags)
        ensures
            r == Flags(0),
    {
        Flags(0)
    }

    pub fn has(self, other: Flags) -> (r: bool)
        ensures
            r == flag_has(self, other),
    {
        self.0 & other.0 != 0
    }

    pub fn with(self, other: Flags) -> (r: Flags)
        ensures
            r == Flags(self.0 | other.0),
    {
        Flags(self.0 | other.0)
    }
}

/// `with` adds a flag and keeps every flag already set.
pub proof fn law_with_adds_and_keeps_flags(a: Flags, b: Flags, c: Flags)
    ensures
        flag_has(Flags(a.0 | b.0), c) == (flag_has(a, c) || flag_has(b, c)),
{
    let x = a.0;
    let y = b.0;
    let z = c.0;
    assert((x | y) & z != 0 <==> (x & z != 0 || y & z != 0)) by (bit_vector);
}

#[derive(Clone, Copy, Debug, PartialEq, Eq, Structural)]
pub struct KindInfo {
    pub role: Role,
    pub flags: Flags,
}

pub open spec fn default_info() -> KindInfo {
    KindInfo { role: Role::Other, flags: Flags(0) }
}

/// Grammar ids of the fields the walker reads; `None` where the grammar has no such field.
#[derive(Clone, Copy, Debug, PartialEq, Eq, Structural)]
pub struct FieldIds {
    pub name: Option<u16>,
    pub body: Option<u16>,
    pub condition: Option<u16>,
    pub if_then: Option<u16>,
    pub if_alternative: Option<u16>,
    pub else_body: Option<u16>,
    pub logical_left: Option<u16>,
    pub logical_right: Option<u16>,
    pub logical_operator: Option<u16>,
}

/// A compiled language: the spec it came from and the tables resolved against its grammar.
pub struct CompiledLanguage {
    pub spec: LanguageSpec,
    pub fields: FieldIds,
    pub kinds: Vec<KindInfo>,
    pub header_field: Vec<bool>,
    /// The grammar's name for each kind id.
    pub kind_names: Vec<String>,
    /// The grammar's name for each field id; id 0 names no field.
    pub field_names: Vec<String>,
}

impl CompiledLanguage {
    pub open spec fn spec_info(&self, kind_id: u16) -> KindInfo {
        if (kind_id as int) < self.kinds@.len() {
            self.kinds@[kind_id as int]
        } else {
            default_info()
        }
    }

    pub open spec fn spec_node_info(&self, t: &SyntaxTree, n: int) -> KindInfo {
        self.spec_info(t.spec_kind(n))
    }

    pub open spec fn spec_role(&self, t: &SyntaxTree, n: int) -> Role {
        self.spec_node_info(t, n).role
    }

    pub open spec fn spec_has(&self, t: &SyntaxTree, n: int, f: Flags) -> bool {
        flag_has(self.spec_node_info(t, n).flags, f)
    }

    pub open spec fn spec_is_header_field(&self, field: Option<u16>) -> bool {
        match field {
            Some(id) => id != 0 && (id as int) < self.header_field@.len() && self.header_field@[id as int],
            None => false,
        }
    }

    /// The grammar's name of a node's kind: `ERROR` for the id a parser gives the text it
    /// could not place, which lies outside the table; empty for any other id outside it.
    pub open spec fn spec_kind_name(&self, t: &SyntaxTree, n: int) -> Seq<char> {
        let k = t.spec_kind(n) as int;
        if k < self.kind_names@.len() {
            self.kind_names@[k]@
        } else if k == u16::MAX {
            "ERROR"@
        } else {
            Seq::empty()
        }
    }

    /// `ERROR` sits at the top of the `u16` range, outside the table.
    pub fn info(&self, kind_id: u16) -> (r: KindInfo)
        ensures
            r == self.spec_info(kind_id),
    {
        if (kind_id as usize) < self.kinds.len() {
            self.kinds[kind_id as usize]
        } else {
            KindInfo { role: Role::Other, flags: Flags(0) }
        }
    }

    pub fn node_info(&self, t: &SyntaxTree, n: usize) -> (r: KindInfo)
        ensures
            r == self.spec_node_info(t, n as int),
    {
        self.info(t.kind(n))
    }

    pub fn role(&self, t: &SyntaxTree, n: usize) -> (r: Role)
        ensures
            r == self.spec_role(t, n as int),
    {
        self.node_info(t, n).role
    }

    pub fn has_flag(&self, t: &SyntaxTree, n: usize, f: Flags) -> (r: bool)
        ensures
            r == self.spec_has(t, n as int, f),
    {
        self.node_info(t, n).flags.has(f)
    }

    /// Fields of a control structure that carry its header rather than its branches.
    pub fn is_header_field(&self, field: Option<u16>) -> (r: bool)
        ensures
            r == self.spec_is_header_field(field),
    {
        match field {
            Some(id) => id != 0 && (id as usize) < self.header_field.len() && self.header_field[id as usize],
            None => false,
        }
    }

    /// Whether the node's kind is spelt `name` in the grammar.
    pub fn kind_is(&self, t: &SyntaxTree, n: usize, name: &str) -> (r: bool)
        ensures
            r == (self.spec_kind_name(t, n as int) == name@),
    {
        let k = t.kind(n) as usize;
        if k < self.kind_names.len() {
            str_eq(self.kind_names[k].as_str(), name)
        } else if k == 65535 {
            str_eq("ERROR", name)
        } else {
            let e = name.is_empty();
            proof {
                if e {
                    assert(name@ =~= Seq::<char>::empty());
                }
            }
            e
        }
    }
}

impl CompiledLanguage {
    /// The first field id spelt `name`, as `Language::field_id_for_name` answers.
    pub open spec fn field_named_from(&self, name: Seq<char>, k: int) -> Option<u16>
        decreases self.field_names@.len() - k,
    {
        if k < 1 || k >= self.field_names@.len() || k > u16::MAX {
            None
        } else if self.field_names@[k]@ == name {
            Some(k as u16)
        } else {
            self.field_named_from(name, k + 1)
        }
    }

    pub open spec fn spec_field_named(&self, name: Seq<char>) -> Option<u16> {
        self.field_named_from(name, 1)
    }

    /// `Node::child_by_field_name`.
    pub open spec fn spec_child_by_field_name(&self, t: &SyntaxTree, n: int, name: Seq<char>) -> Option<usize> {
        t.spec_field(n, self.spec_field_named(name))
    }

    pub open spec fn spec_kind_is(&self, t: &SyntaxTree, n: int, name: Seq<char>) -> bool {
        self.spec_kind_name(t, n) == name
    }

    /// Some named child of `n` has kind `name`.
    pub open spec fn spec_has_named_kind(&self, t: &SyntaxTree, n: int, name: Seq<char>) -> bool {
        exists|k: int|
            0 <= k < t.spec_named_children(n).len() && #[trigger] self.spec_kind_is(
                t,
                t.spec_named_children(n)[k] as int,
                name,
            )
    }

    /// The first node of `s`, from position `k`, whose kind is `name`.
    pub open spec fn first_of_kind(&self, t: &SyntaxTree, s: Seq<usize>, name: Seq<char>, k: int) -> Option<usize>
        decreases s.len() - k,
    {
        if k < 0 || k >= s.len() {
            None
        } else if self.spec_kind_is(t, s[k] as int, name) {
            Some(s[k])
        } else {
            self.first_of_kind(t, s, name, k + 1)
        }
    }

    /// The first named child of `n` whose kind is `name`.
    pub open spec fn spec_named_child_of_kind(&self, t: &SyntaxTree, n: int, name: Seq<char>) -> Option<usize> {
        self.first_of_kind(t, t.spec_named_children(n), name, 0)
    }

    pub fn field_named(&self, name: &str) -> (r: Option<u16>)
        ensures
            r == self.spec_field_named(name@),
    {
        let mut k: usize = 1;
        while k < self.field_names.len()
            invariant
                1 <= k,
                self.spec_field_named(name@) == self.field_named_from(name@, k as int),
            decreases self.field_names@.len() - k,
        {
            if k > 65535 {
                return None;
            }
            if str_eq(self.field_names[k].as_str(), name) {
                return Some(k as u16);
            }
            k = k + 1;
        }
        None
    }

    pub fn child_by_field_name(&self, t: &SyntaxTree, n: usize, name: &str) -> (r: Option<usize>)
        ensures
            r == self.spec_child_by_field_name(t, n as int, name@),
            r matches Some(c) ==> c < t.len() && (t.wf() ==> n < c),
    {
        t.child_by_field(n, self.field_named(name))
    }

    pub fn has_named_kind(&self, t: &SyntaxTree, n: usize, name: &str) -> (r: bool)
        ensures
            r == self.spec_has_named_kind(t, n as int, name@),
    {
        let kids = t.named_children(n);
        let mut k: usize = 0;
        while k < kids.len()
            invariant
                kids@ == t.spec_named_children(n as int),
                0 <= k <= kids@.len(),
                forall|j: int| 0 <= j < k ==> !self.spec_kind_is(t, kids@[j] as int, name@),
            decreases kids@.len() - k,
        {
            if self.kind_is(t, kids[k], name) {
                assert(self.spec_kind_is(t, t.spec_named_children(n as int)[k as int] as int, name@));
                return true;
            }
            k = k + 1;
        }
        false
    }

    pub fn first_kind_in(&self, t: &SyntaxTree, s: &Vec<usize>, name: &str) -> (r: Option<usize>)
        ensures
            r == self.first_of_kind(t, s@, name@, 0),
    {
        let mut k: usize = 0;
        while k < s.len()
            invariant
                0 <= k <= s@.len(),
                self.first_of_kind(t, s@, name@, 0) == self.first_of_kind(t, s@, name@, k as int),
            decreases s@.len() - k,
        {
            if self.kind_is(t, s[k], name) {
                return Some(s[k]);
            }
            k = k + 1;
        }
        None
    }

    pub fn named_child_of_kind(&self, t: &SyntaxTree, n: usize, name: &str) -> (r: Option<usize>)
        ensures
            r == self.spec_named_child_of_kind(t, n as int, name@),
    {
        let kids = t.named_children(n);
        self.first_kind_in(t, &kids, name)
    }
}

impl CompiledLanguage {
    /// The first node of `s`, from position `k`, whose kind is not `name`.
    pub open spec fn first_of_kind_not(&self, t: &SyntaxTree, s: Seq<usize>, name: Seq<char>, k: int) -> Option<usize>
        decreases s.len() - k,
    {
        if k < 0 || k >= s.len() {
            None
        } else if !self.spec_kind_is(t, s[k] as int, name) {
            Some(s[k])
        } else {
            self.first_of_kind_not(t, s, name, k + 1)
        }
    }

    pub fn first_kind_not_in(&self, t: &SyntaxTree, s: &Vec<usize>, name: &str) -> (r: Option<usize>)
        ensures
            r == self.first_of_kind_not(t, s@, name@, 0),
    {
        let mut k: usize = 0;
        while k < s.len()
            invariant
                0 <= k <= s@.len(),
                self.first_of_kind_not(t, s@, name@, 0) == self.first_of_kind_not(t, s@, name@, k as int),
            decreases s@.len() - k,
        {
            if !self.kind_is(t, s[k], name) {
                return Some(s[k]);
            }
            k = k + 1;
        }
        None
    }
}

} // verus!
