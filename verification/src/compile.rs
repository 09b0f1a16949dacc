//! Compiling a spec against a grammar: every kind a spec names is looked up once, so the
//! walker's dispatch is a table index, and every name the grammar lacks is an error.
use vstd::prelude::*;
use crate::language::{FieldIds, Flags, KindInfo, Role};
use crate::order::{holds_text, sort_dedup, strictly_sorted};
use crate::spec::{KindSets, LanguageSpec};
use crate::text::str_eq;

verus! {

/// Names the grammar lacks and kinds claimed twice.
#[derive(Debug, PartialEq, Eq)]
pub struct SpecErrors {
    pub unknown_kinds: Vec<&'static str>,
    pub unknown_fields: Vec<&'static str>,
    pub conflicting_roles: Vec<(&'static str, Role, Role)>,
}

impl SpecErrors {
    pub open spec fn spec_is_empty(&self) -> bool {
        self.unknown_kinds@.len() == 0 && self.unknown_fields@.len() == 0 && self.conflicting_roles@.len() == 0
    }

    pub fn is_empty(&self) -> (r: bool)
        ensures
            r == self.spec_is_empty(),
    {
        self.unknown_kinds.len() == 0 && self.unknown_fields.len() == 0 && self.conflicting_roles.len() == 0
    }
}

pub open spec fn tag<T>(s: Seq<&'static str>, v: T) -> Seq<(&'static str, T)> {
    s.map_values(|k: &'static str| (k, v))
}

/// Each kind a role list names, paired with the role, in the order roles are claimed.
pub open spec fn role_claims(k: &KindSets) -> Seq<(&'static str, Role)> {
    tag(k.if_statement@, Role::If) + tag(k.else_if_clause@, Role::ElseIf) + tag(k.else_clause@, Role::Else)
        + tag(k.nesting_control@, Role::Control) + tag(k.jump@, Role::Jump) + tag(k.unconditional_jump@, Role::Goto)
        + tag(k.logical@, Role::Logical) + tag(k.call@, Role::Call) + tag(k.comment@, Role::Trivia)
}

/// Each kind a flag list names, paired with the flag.
pub open spec fn flag_claims(k: &KindSets) -> Seq<(&'static str, Flags)> {
    tag(k.unit@, Flags(1)) + tag(k.container@, Flags(2)) + tag(k.nesting_function@, Flags(4))
        + tag(k.leading_trivia@, Flags(8)) + tag(k.parenthesis@, Flags(16)) + tag(k.preamble@, Flags(32))
}

fn push_tagged<T: Copy>(out: &mut Vec<(&'static str, T)>, s: &Vec<&'static str>, v: T)
    ensures
        final(out)@ == old(out)@ + tag(s@, v),
{
    let ghost start = out@;
    let mut i: usize = 0;
    while i < s.len()
        invariant
            0 <= i <= s@.len(),
            out@ == start + tag(s@, v).subrange(0, i as int),
        decreases s@.len() - i,
    {
        out.push((s[i], v));
        proof {
            assert(start + tag(s@, v).subrange(0, i + 1) =~= (start + tag(s@, v).subrange(0, i as int)).push((s@[i as int], v)));
        }
        i = i + 1;
    }
    assert(tag(s@, v).subrange(0, s@.len() as int) =~= tag(s@, v));
}

pub fn role_claim_list(k: &KindSets) -> (r: Vec<(&'static str, Role)>)
    ensures
        r@ == role_claims(k),
{
    let mut out: Vec<(&'static str, Role)> = Vec::new();
    push_tagged(&mut out, &k.if_statement, Role::If);
    push_tagged(&mut out, &k.else_if_clause, Role::ElseIf);
    push_tagged(&mut out, &k.else_clause, Role::Else);
    push_tagged(&mut out, &k.nesting_control, Role::Control);
    push_tagged(&mut out, &k.jump, Role::Jump);
    push_tagged(&mut out, &k.unconditional_jump, Role::Goto);
    push_tagged(&mut out, &k.logical, Role::Logical);
    push_tagged(&mut out, &k.call, Role::Call);
    push_tagged(&mut out, &k.comment, Role::Trivia);
    assert(out@ =~= role_claims(k));
    out
}

pub fn flag_claim_list(k: &KindSets) -> (r: Vec<(&'static str, Flags)>)
    ensures
        r@ == flag_claims(k),
{
    let mut out: Vec<(&'static str, Flags)> = Vec::new();
    push_tagged(&mut out, &k.unit, Flags(1));
    push_tagged(&mut out, &k.container, Flags(2));
    push_tagged(&mut out, &k.nesting_function, Flags(4));
    push_tagged(&mut out, &k.leading_trivia, Flags(8));
    push_tagged(&mut out, &k.parenthesis, Flags(16));
    push_tagged(&mut out, &k.preamble, Flags(32));
    assert(out@ =~= flag_claims(k));
    out
}

/// What the grammar answered for every name a spec declares. A kind is `None` when the
/// grammar has no named kind spelt so.
pub struct Resolution {
    pub kind_count: usize,
    pub field_count: usize,
    pub role_ids: Vec<Option<usize>>,
    pub flag_ids: Vec<Option<usize>>,
    pub header_ids: Vec<Option<u16>>,
    pub fields: FieldIds,
    /// Field names the walker needs that the grammar lacks.
    pub missing_fields: Vec<&'static str>,
}

/// The table after the first `m` role claims: the last claim on a kind wins.
pub open spec fn role_fold(init: Seq<KindInfo>, claims: Seq<(&'static str, Role)>, ids: Seq<Option<usize>>, m: int) -> Seq<KindInfo>
    decreases m,
{
    if m <= 0 || m > claims.len() || m > ids.len() {
        init
    } else {
        let prev = role_fold(init, claims, ids, m - 1);
        match ids[m - 1] {
            Some(id) => if id < prev.len() {
                prev.update(id as int, KindInfo { role: claims[m - 1].1, flags: prev[id as int].flags })
            } else {
                prev
            },
            None => prev,
        }
    }
}

/// A kind claimed for a second, different role, with both roles.
pub open spec fn conflict_fold(init: Seq<KindInfo>, claims: Seq<(&'static str, Role)>, ids: Seq<Option<usize>>, m: int) -> Seq<(&'static str, Role, Role)>
    decreases m,
{
    if m <= 0 || m > claims.len() || m > ids.len() {
        Seq::empty()
    } else {
        let prev = conflict_fold(init, claims, ids, m - 1);
        let table = role_fold(init, claims, ids, m - 1);
        match ids[m - 1] {
            Some(id) => if id < table.len() && table[id as int].role != Role::Other && table[id as int].role != claims[m - 1].1 {
                prev.push((claims[m - 1].0, table[id as int].role, claims[m - 1].1))
            } else {
                prev
            },
            None => prev,
        }
    }
}

/// The table after the first `m` flag claims: flags accumulate.
pub open spec fn flag_fold(init: Seq<KindInfo>, claims: Seq<(&'static str, Flags)>, ids: Seq<Option<usize>>, m: int) -> Seq<KindInfo>
    decreases m,
{
    if m <= 0 || m > claims.len() || m > ids.len() {
        init
    } else {
        let prev = flag_fold(init, claims, ids, m - 1);
        match ids[m - 1] {
            Some(id) => if id < prev.len() {
                prev.update(id as int, KindInfo { role: prev[id as int].role, flags: Flags(prev[id as int].flags.0 | claims[m - 1].1.0) })
            } else {
                prev
            },
            None => prev,
        }
    }
}

/// A kind the grammar lacks, unless the spec lets it be absent.
pub open spec fn is_unknown(spec: &LanguageSpec, kind: &'static str, id: Option<usize>) -> bool {
    id is None && !holds_text(spec.optional_kinds@, kind@)
}

pub open spec fn header_fold(init: Seq<bool>, ids: Seq<Option<u16>>, m: int) -> Seq<bool>
    decreases m,
{
    if m <= 0 || m > ids.len() {
        init
    } else {
        let prev = header_fold(init, ids, m - 1);
        match ids[m - 1] {
            Some(id) => if (id as int) < prev.len() { prev.update(id as int, true) } else { prev },
            None => prev,
        }
    }
}

/// Every name this spec is refused for.
pub open spec fn unknown_kind_named(spec: &LanguageSpec, res: &Resolution, x: Seq<char>) -> bool {
    ||| exists|m: int| 0 <= m < res.role_ids@.len() && m < role_claims(&spec.kinds).len()
        && is_unknown(spec, role_claims(&spec.kinds)[m].0, #[trigger] res.role_ids@[m]) && role_claims(&spec.kinds)[m].0@ == x
    ||| exists|m: int| 0 <= m < res.flag_ids@.len() && m < flag_claims(&spec.kinds).len()
        && is_unknown(spec, flag_claims(&spec.kinds)[m].0, #[trigger] res.flag_ids@[m]) && flag_claims(&spec.kinds)[m].0@ == x
}

pub open spec fn unknown_field_named(spec: &LanguageSpec, res: &Resolution, x: Seq<char>) -> bool {
    ||| holds_text(res.missing_fields@, x)
    ||| exists|m: int| 0 <= m < res.header_ids@.len() && m < spec.fields.control_header@.len()
        && (#[trigger] res.header_ids@[m]) is None && spec.fields.control_header@[m]@ == x
}

} // verus!

verus! {

pub open spec fn initial_table(n: nat) -> Seq<KindInfo> {
    Seq::new(n, |i: int| KindInfo { role: Role::Other, flags: Flags(0) })
}

pub open spec fn spec_kind_table(spec: &LanguageSpec, res: &Resolution) -> Seq<KindInfo> {
    let roles = role_fold(initial_table(res.kind_count as nat), role_claims(&spec.kinds), res.role_ids@, role_claims(&spec.kinds).len() as int);
    flag_fold(roles, flag_claims(&spec.kinds), res.flag_ids@, flag_claims(&spec.kinds).len() as int)
}

pub open spec fn spec_header_table(spec: &LanguageSpec, res: &Resolution) -> Seq<bool> {
    header_fold(Seq::new((res.field_count + 1) as nat, |i: int| false), res.header_ids@, res.header_ids@.len() as int)
}

pub open spec fn spec_conflicts(spec: &LanguageSpec, res: &Resolution) -> Seq<(&'static str, Role, Role)> {
    conflict_fold(initial_table(res.kind_count as nat), role_claims(&spec.kinds), res.role_ids@, role_claims(&spec.kinds).len() as int)
}

pub open spec fn resolution_fits(spec: &LanguageSpec, res: &Resolution) -> bool {
    &&& res.role_ids@.len() == role_claims(&spec.kinds).len()
    &&& res.flag_ids@.len() == flag_claims(&spec.kinds).len()
    &&& res.header_ids@.len() == spec.fields.control_header@.len()
    &&& res.field_count < usize::MAX
}

/// The tables, or every reason the grammar refuses the spec: unknown kinds and fields each
/// sorted and listed once, conflicting role claims in claim order.
#[verifier::loop_isolation(false)]
pub fn assemble(spec: &LanguageSpec, res: &Resolution) -> (r: Result<(Vec<KindInfo>, Vec<bool>), SpecErrors>)
    requires
        resolution_fits(spec, res),
    ensures
        r is Ok <==> (spec_conflicts(spec, res).len() == 0
            && (forall|x: Seq<char>| !unknown_kind_named(spec, res, x))
            && (forall|x: Seq<char>| !unknown_field_named(spec, res, x))),
        r matches Ok((kinds, header)) ==> kinds@ == spec_kind_table(spec, res) && header@ == spec_header_table(spec, res),
        r matches Err(e) ==> {
            &&& strictly_sorted(e.unknown_kinds@)
            &&& (forall|x: Seq<char>| holds_text(e.unknown_kinds@, x) <==> unknown_kind_named(spec, res, x))
            &&& strictly_sorted(e.unknown_fields@)
            &&& (forall|x: Seq<char>| holds_text(e.unknown_fields@, x) <==> unknown_field_named(spec, res, x))
            &&& e.conflicting_roles@ == spec_conflicts(spec, res)
        },
{
    let rc = role_claim_list(&spec.kinds);
    let fc = flag_claim_list(&spec.kinds);
    let mut kinds: Vec<KindInfo> = Vec::new();
    let mut i: usize = 0;
    while i < res.kind_count
        invariant
            0 <= i <= res.kind_count,
            kinds@ == initial_table(i as nat),
        decreases res.kind_count - i,
    {
        kinds.push(KindInfo { role: Role::Other, flags: Flags(0) });
        proof {
            assert(kinds@ =~= initial_table((i + 1) as nat));
        }
        i = i + 1;
    }
    let ghost init = kinds@;
    let mut unknown: Vec<&'static str> = Vec::new();
    let mut conflicts: Vec<(&'static str, Role, Role)> = Vec::new();
    let mut m: usize = 0;
    while m < rc.len()
        invariant
            resolution_fits(spec, res),
            rc@ == role_claims(&spec.kinds),
            init == initial_table(res.kind_count as nat),
            0 <= m <= rc@.len(),
            kinds@ == role_fold(init, rc@, res.role_ids@, m as int),
            conflicts@ == conflict_fold(init, rc@, res.role_ids@, m as int),
            forall|x: Seq<char>| holds_text(unknown@, x) <==> exists|j: int| 0 <= j < m && is_unknown(spec, rc@[j].0, #[trigger] res.role_ids@[j]) && rc@[j].0@ == x,
        decreases rc@.len() - m,
    {
        let (kind, role) = rc[m];
        let ghost before = unknown@;
        match res.role_ids[m] {
            Some(id) => {
                if id < kinds.len() {
                    let slot = kinds[id];
                    if slot.role != Role::Other && slot.role != role {
                        conflicts.push((kind, slot.role, role));
                    }
                    kinds.set(id, KindInfo { role, flags: slot.flags });
                }
            },
            None => {
                if !contains_str(&spec.optional_kinds, kind) {
                    unknown.push(kind);
                }
            },
        }
        proof {
            assert forall|x: Seq<char>| holds_text(unknown@, x) <==> exists|j: int| 0 <= j < m + 1 && is_unknown(spec, rc@[j].0, #[trigger] res.role_ids@[j]) && rc@[j].0@ == x by {
                if holds_text(unknown@, x) {
                    let k = choose|k: int| 0 <= k < unknown@.len() && (#[trigger] unknown@[k])@ == x;
                    if k < before.len() {
                        assert(before[k]@ == x);
                        assert(holds_text(before, x));
                    } else {
                        assert(is_unknown(spec, rc@[m as int].0, res.role_ids@[m as int]));
                    }
                }
                if exists|j: int| 0 <= j < m + 1 && is_unknown(spec, rc@[j].0, #[trigger] res.role_ids@[j]) && rc@[j].0@ == x {
                    let j = choose|j: int| 0 <= j < m + 1 && is_unknown(spec, rc@[j].0, #[trigger] res.role_ids@[j]) && rc@[j].0@ == x;
                    if j < m {
                        assert(holds_text(before, x));
                        let k = choose|k: int| 0 <= k < before.len() && (#[trigger] before[k])@ == x;
                        assert(unknown@[k]@ == x);
                    } else {
                        assert(unknown@[unknown@.len() - 1]@ == x);
                    }
                }
            }
        }
        m = m + 1;
    }
    let ghost roles = kinds@;
    let ghost after_roles = unknown@;
    let mut f: usize = 0;
    while f < fc.len()
        invariant
            resolution_fits(spec, res),
            rc@ == role_claims(&spec.kinds),
            fc@ == flag_claims(&spec.kinds),
            0 <= f <= fc@.len(),
            kinds@ == flag_fold(roles, fc@, res.flag_ids@, f as int),
            forall|x: Seq<char>| holds_text(after_roles, x) <==> exists|j: int| 0 <= j < rc@.len() && is_unknown(spec, rc@[j].0, #[trigger] res.role_ids@[j]) && rc@[j].0@ == x,
            forall|x: Seq<char>| holds_text(unknown@, x) <==> (holds_text(after_roles, x) || exists|j: int| 0 <= j < f && is_unknown(spec, fc@[j].0, #[trigger] res.flag_ids@[j]) && fc@[j].0@ == x),
        decreases fc@.len() - f,
    {
        let (kind, flag) = fc[f];
        let ghost before = unknown@;
        assert(forall|x: Seq<char>| holds_text(before, x) <==> (holds_text(after_roles, x) || exists|j: int| 0 <= j < f && is_unknown(spec, fc@[j].0, #[trigger] res.flag_ids@[j]) && fc@[j].0@ == x));
        match res.flag_ids[f] {
            Some(id) => {
                if id < kinds.len() {
                    let slot = kinds[id];
                    kinds.set(id, KindInfo { role: slot.role, flags: Flags(slot.flags.0 | flag.0) });
                }
            },
            None => {
                if !contains_str(&spec.optional_kinds, kind) {
                    unknown.push(kind);
                }
            },
        }
        proof {
            assert forall|x: Seq<char>| holds_text(unknown@, x) <==> (holds_text(after_roles, x) || exists|j: int| 0 <= j < f + 1 && is_unknown(spec, fc@[j].0, #[trigger] res.flag_ids@[j]) && fc@[j].0@ == x) by {
                if holds_text(unknown@, x) {
                    let k = choose|k: int| 0 <= k < unknown@.len() && (#[trigger] unknown@[k])@ == x;
                    if k < before.len() {
                        assert(before[k]@ == x);
                        assert(holds_text(before, x));
                    } else {
                        assert(is_unknown(spec, fc@[f as int].0, res.flag_ids@[f as int]));
                    }
                }
                if holds_text(after_roles, x) || exists|j: int| 0 <= j < f + 1 && is_unknown(spec, fc@[j].0, #[trigger] res.flag_ids@[j]) && fc@[j].0@ == x {
                    if holds_text(after_roles, x) || exists|j: int| 0 <= j < f && is_unknown(spec, fc@[j].0, #[trigger] res.flag_ids@[j]) && fc@[j].0@ == x {
                        assert(holds_text(before, x));
                        let k = choose|k: int| 0 <= k < before.len() && (#[trigger] before[k])@ == x;
                        assert(unknown@[k]@ == x);
                    } else {
                        assert(unknown@[unknown@.len() - 1]@ == x);
                    }
                }
            }
        }
        f = f + 1;
    }
    let mut header: Vec<bool> = Vec::new();
    let mut h: usize = 0;
    while h <= res.field_count
        invariant
            resolution_fits(spec, res),
            0 <= h <= res.field_count + 1,
            header@ == Seq::new(h as nat, |i: int| false),
        decreases res.field_count + 1 - h,
    {
        header.push(false);
        proof {
            assert(header@ =~= Seq::new((h + 1) as nat, |i: int| false));
        }
        h = h + 1;
    }
    let ghost header0 = header@;
    let mut missing: Vec<&'static str> = Vec::new();
    let mut q: usize = 0;
    while q < res.header_ids.len()
        invariant
            resolution_fits(spec, res),
            header0 == Seq::new((res.field_count + 1) as nat, |i: int| false),
            0 <= q <= res.header_ids@.len(),
            header@ == header_fold(header0, res.header_ids@, q as int),
            forall|x: Seq<char>| holds_text(missing@, x) <==> exists|j: int| 0 <= j < q && (#[trigger] res.header_ids@[j]) is None && spec.fields.control_header@[j]@ == x,
        decreases res.header_ids@.len() - q,
    {
        let ghost before = missing@;
        match res.header_ids[q] {
            Some(id) => {
                if (id as usize) < header.len() {
                    header.set(id as usize, true);
                }
            },
            None => {
                missing.push(spec.fields.control_header[q]);
            },
        }
        proof {
            assert forall|x: Seq<char>| holds_text(missing@, x) <==> exists|j: int| 0 <= j < q + 1 && (#[trigger] res.header_ids@[j]) is None && spec.fields.control_header@[j]@ == x by {
                if holds_text(missing@, x) {
                    let k = choose|k: int| 0 <= k < missing@.len() && (#[trigger] missing@[k])@ == x;
                    if k < before.len() {
                        assert(before[k]@ == x);
                        assert(holds_text(before, x));
                    }
                }
                if exists|j: int| 0 <= j < q + 1 && (#[trigger] res.header_ids@[j]) is None && spec.fields.control_header@[j]@ == x {
                    let j = choose|j: int| 0 <= j < q + 1 && (#[trigger] res.header_ids@[j]) is None && spec.fields.control_header@[j]@ == x;
                    if j < q {
                        assert(holds_text(before, x));
                        let k = choose|k: int| 0 <= k < before.len() && (#[trigger] before[k])@ == x;
                        assert(missing@[k]@ == x);
                    } else {
                        assert(missing@[missing@.len() - 1]@ == x);
                    }
                }
            }
        }
        q = q + 1;
    }
    let mut all_missing = res.missing_fields.clone();
    let ghost mf = res.missing_fields@;
    crate::spec::append_all(&mut all_missing, &missing);
    proof {
        assert forall|x: Seq<char>| holds_text(all_missing@, x) <==> unknown_field_named(spec, res, x) by {
            if holds_text(all_missing@, x) {
                let k = choose|k: int| 0 <= k < all_missing@.len() && (#[trigger] all_missing@[k])@ == x;
                if k < mf.len() {
                    assert(mf[k]@ == x);
                } else {
                    assert(missing@[k - mf.len()]@ == x);
                    assert(holds_text(missing@, x));
                }
            }
            if holds_text(res.missing_fields@, x) {
                let k = choose|k: int| 0 <= k < mf.len() && (#[trigger] mf[k])@ == x;
                assert(all_missing@[k]@ == x);
            }
            if holds_text(missing@, x) {
                let k = choose|k: int| 0 <= k < missing@.len() && (#[trigger] missing@[k])@ == x;
                assert(all_missing@[mf.len() + k]@ == x);
            }
        }
    }
    let unknown_kinds = sort_dedup(&unknown);
    let unknown_fields = sort_dedup(&all_missing);
    let errors = SpecErrors { unknown_kinds, unknown_fields, conflicting_roles: conflicts };
    proof {
        assert forall|x: Seq<char>| holds_text(errors.unknown_kinds@, x) <==> unknown_kind_named(spec, res, x) by {
            lemma_unknown_collected(spec, res, rc@, fc@, after_roles, unknown@, x);
        }
    }
    if errors.is_empty() {
        proof {
            assert forall|x: Seq<char>| !unknown_kind_named(spec, res, x) by {
                if unknown_kind_named(spec, res, x) {
                    lemma_unknown_collected(spec, res, rc@, fc@, after_roles, unknown@, x);
                    assert(holds_text(errors.unknown_kinds@, x));
                }
            }
            assert forall|x: Seq<char>| !unknown_field_named(spec, res, x) by {
                if unknown_field_named(spec, res, x) {
                    assert(holds_text(errors.unknown_fields@, x));
                }
            }
        }
        Ok((kinds, header))
    } else {
        proof {
            if errors.unknown_kinds@.len() > 0 {
                let x = errors.unknown_kinds@[0]@;
                assert(holds_text(errors.unknown_kinds@, x));
                assert(holds_text(unknown@, x));
                lemma_unknown_collected(spec, res, rc@, fc@, after_roles, unknown@, x);
            }
            if errors.unknown_fields@.len() > 0 {
                assert(holds_text(errors.unknown_fields@, errors.unknown_fields@[0]@));
            }
        }
        Err(errors)
    }
}

proof fn lemma_unknown_collected(
    spec: &LanguageSpec,
    res: &Resolution,
    rc: Seq<(&'static str, Role)>,
    fc: Seq<(&'static str, Flags)>,
    after_roles: Seq<&'static str>,
    unknown: Seq<&'static str>,
    x: Seq<char>,
)
    requires
        rc == role_claims(&spec.kinds),
        fc == flag_claims(&spec.kinds),
        resolution_fits(spec, res),
        forall|y: Seq<char>| holds_text(after_roles, y) <==> exists|j: int| 0 <= j < rc.len() && is_unknown(spec, rc[j].0, #[trigger] res.role_ids@[j]) && rc[j].0@ == y,
        forall|y: Seq<char>| holds_text(unknown, y) <==> (holds_text(after_roles, y) || exists|j: int| 0 <= j < fc.len() && is_unknown(spec, fc[j].0, #[trigger] res.flag_ids@[j]) && fc[j].0@ == y),
    ensures
        unknown_kind_named(spec, res, x) <==> holds_text(unknown, x),
{
    if exists|m: int| 0 <= m < res.role_ids@.len() && m < role_claims(&spec.kinds).len()
        && is_unknown(spec, role_claims(&spec.kinds)[m].0, #[trigger] res.role_ids@[m]) && role_claims(&spec.kinds)[m].0@ == x {
        assert(holds_text(after_roles, x));
    }
    if holds_text(after_roles, x) {
        let j = choose|j: int| 0 <= j < rc.len() && is_unknown(spec, rc[j].0, #[trigger] res.role_ids@[j]) && rc[j].0@ == x;
        assert(unknown_kind_named(spec, res, x));
    }
    if exists|j: int| 0 <= j < fc.len() && is_unknown(spec, fc[j].0, #[trigger] res.flag_ids@[j]) && fc[j].0@ == x {
        let j = choose|j: int| 0 <= j < fc.len() && is_unknown(spec, fc[j].0, #[trigger] res.flag_ids@[j]) && fc[j].0@ == x;
        assert(unknown_kind_named(spec, res, x));
    }
}

pub fn contains_str(v: &Vec<&'static str>, s: &str) -> (r: bool)
    ensures
        r == holds_text(v@, s@),
{
    let mut i: usize = 0;
    while i < v.len()
        invariant
            0 <= i <= v@.len(),
            forall|k: int| 0 <= k < i ==> (#[trigger] v@[k])@ != s@,
        decreases v@.len() - i,
    {
        if str_eq(v[i], s) {
            return true;
        }
        i = i + 1;
    }
    false
}

} // verus!
