//! What a scan reports about one unit of code, and the names it is reported under.
use vstd::prelude::*;
use crate::text::string_from;

verus! {

pub const SUPPRESSION_MARKER: &'static str = "bonsai-lint-ignore";
pub const TOPLEVEL_UNIT: &'static str = "<toplevel>";
pub const ANONYMOUS_UNIT: &'static str = "<anonymous>";

/// A suppression is only honoured when it carries a reason; a bare marker is reported as
/// `MissingReason` rather than silently obeyed.
#[derive(Debug, Clone, PartialEq, Eq)]
pub enum Suppression {
    Unmarked,
    Reasoned(String),
    MissingReason,
}

/// Where a unit's name came from. Only `Positional` and `Anonymous` names are unstable enough
/// to need a collision suffix.
#[derive(Debug, Clone, Copy, PartialEq, Eq, Structural)]
pub enum NameOrigin {
    Declared,
    Bound,
    Positional,
    Anonymous,
    TopLevel,
}

/// A unit's name, plus the signature that tells apart units sharing it (Java overloads, Python
/// property accessors). Recursion is matched against `text` alone.
#[derive(Debug, Clone, PartialEq, Eq)]
pub struct UnitName {
    pub text: String,
    pub origin: NameOrigin,
    pub signature: String,
}

impl UnitName {
    pub fn declared(text: String) -> (r: Self)
        ensures
            r.text@ == text@,
            r.origin == NameOrigin::Declared,
            r.signature@ == Seq::<char>::empty(),
    {
        UnitName { text, origin: NameOrigin::Declared, signature: String::new() }
    }

    pub fn bound(text: String) -> (r: Self)
        ensures
            r.text@ == text@,
            r.origin == NameOrigin::Bound,
            r.signature@ == Seq::<char>::empty(),
    {
        UnitName { text, origin: NameOrigin::Bound, signature: String::new() }
    }

    pub fn positional(text: String) -> (r: Self)
        ensures
            r.text@ == text@,
            r.origin == NameOrigin::Positional,
            r.signature@ == Seq::<char>::empty(),
    {
        UnitName { text, origin: NameOrigin::Positional, signature: String::new() }
    }

    pub fn anonymous() -> (r: Self)
        ensures
            r.text@ == ANONYMOUS_UNIT@,
            r.origin == NameOrigin::Anonymous,
            r.signature@ == Seq::<char>::empty(),
    {
        UnitName { text: ANONYMOUS_UNIT.to_owned(), origin: NameOrigin::Anonymous, signature: String::new() }
    }

    pub fn with_signature(self, signature: String) -> (r: Self)
        ensures
            r.text == self.text,
            r.origin == self.origin,
            r.signature == signature,
    {
        UnitName { text: self.text, origin: self.origin, signature }
    }
}

/// How a unit reaches itself: the receivers that name it, and whether a bare call does.
#[derive(Debug, Clone)]
pub struct UnitScope {
    /// A container the unit names for itself, such as a Go method's receiver type.
    pub container: Option<String>,
    pub self_receivers: Vec<String>,
    pub bare_call_recurses: bool,
}

impl UnitScope {
    pub open spec fn receives(&self, s: Seq<char>) -> bool {
        exists|i: int| 0 <= i < self.self_receivers@.len() && (#[trigger] self.self_receivers@[i])@ == s
    }
}

#[derive(Debug, Clone, PartialEq, Eq)]
pub struct Finding {
    pub container: Option<String>,
    pub name: String,
    pub origin: NameOrigin,
    pub line: usize,
    pub score: u32,
    pub suppression: Suppression,
    pub language: &'static str,
}

/// `Class::method`, or the bare name for a free function.
pub open spec fn spec_qualified_name(container: Option<Seq<char>>, name: Seq<char>) -> Seq<char> {
    match container {
        Some(c) => c + "::"@ + name,
        None => name,
    }
}

pub open spec fn opt_view(s: Option<String>) -> Option<Seq<char>> {
    match s {
        Some(x) => Some(x@),
        None => None,
    }
}

/// `a` followed by `b`.
pub fn concat(a: &str, b: &str) -> (r: String)
    ensures
        r@ == a@ + b@,
{
    let mut out = a.to_owned();
    let bc = crate::text::chars_of(b);
    let mut i: usize = 0;
    while i < bc.len()
        invariant
            0 <= i <= bc@.len(),
            bc@ == b@,
            out@ == a@ + b@.subrange(0, i as int),
        decreases bc@.len() - i,
    {
        out.push(bc[i]);
        proof {
            assert(a@ + b@.subrange(0, i + 1) =~= (a@ + b@.subrange(0, i as int)).push(b@[i as int]));
        }
        i = i + 1;
    }
    proof {
        assert(b@.subrange(0, b@.len() as int) =~= b@);
    }
    out
}

impl Finding {
    pub open spec fn spec_qualified(&self) -> Seq<char> {
        spec_qualified_name(opt_view(self.container), self.name@)
    }

    /// The identity a baseline records, deliberately without the line number.
    pub fn qualified_name(&self) -> (r: String)
        ensures
            r@ == self.spec_qualified(),
    {
        match &self.container {
            Some(container) => {
                let head = concat(container.as_str(), "::");
                concat(head.as_str(), self.name.as_str())
            },
            None => self.name.clone(),
        }
    }

    /// The same finding, owned anew.
    pub fn copy(&self) -> (r: Finding)
        ensures
            r == *self,
    {
        let suppression = match &self.suppression {
            Suppression::Unmarked => Suppression::Unmarked,
            Suppression::Reasoned(why) => Suppression::Reasoned(why.clone()),
            Suppression::MissingReason => Suppression::MissingReason,
        };
        let container = match &self.container {
            Some(c) => Some(c.clone()),
            None => None,
        };
        Finding {
            container,
            name: self.name.clone(),
            origin: self.origin,
            line: self.line,
            score: self.score,
            suppression,
            language: self.language,
        }
    }

    pub fn is_suppressed(&self) -> (r: bool)
        ensures
            r == (self.suppression is Reasoned),
    {
        match &self.suppression {
            Suppression::Reasoned(_) => true,
            _ => false,
        }
    }
}

} // verus!
