//! Cognitive complexity of a syntax tree: +1 for each break in linear flow, +nesting when a
//! flow-breaker sits inside others, shorthand free.
use vstd::prelude::*;
use crate::finding::UnitScope;
use crate::hooks::{
    call_reaches_unit, first_significant_named_child, if_parts, is_control_header,
    is_penalized_jump, logical_operator, resolve_callee, spec_call_reaches_unit,
    spec_first_significant_named_child, spec_if_parts, spec_is_control_header,
    spec_is_penalized_jump, spec_logical_operator, spec_resolve_callee, text_of, IfPart, LogicalOp,
};
use crate::language::{flag_has, Flags, CompiledLanguage, Role};
use crate::syntax::SyntaxTree;
use crate::text::str_eq;

verus! {

/// What the walker is scoring: one unit's body, or the file-level code when `skip_units`.
pub struct WalkCx<'a> {
    pub lang: &'a CompiledLanguage,
    pub tree: &'a SyntaxTree,
    pub src: &'a [u8],
    /// The unit's own name, which a recursive call spells.
    pub unit: &'a str,
    /// The unit's declaration node.
    pub unit_node: usize,
    pub scope: &'a UnitScope,
    /// Set only for the top-level pass: a unit met there is reported on its own.
    pub skip_units: bool,
}

pub open spec fn u32_max() -> int {
    4294967295
}

/// A sum that stops at `u32::MAX`.
pub open spec fn sat(x: int) -> int {
    if x > u32_max() {
        u32_max()
    } else {
        x
    }
}

/// Stretches of equal operators: a run costs +1 however long it is.
pub open spec fn spec_count_runs(ops: Seq<LogicalOp>) -> nat
    decreases ops.len(),
{
    if ops.len() == 0 {
        0
    } else if ops.len() == 1 || ops.last() != ops[ops.len() - 2] {
        spec_count_runs(ops.drop_last()) + 1
    } else {
        spec_count_runs(ops.drop_last())
    }
}

/// `a && b && c` is +1, `a && b || c` is +2.
pub fn count_runs(ops: &Vec<LogicalOp>) -> (r: usize)
    ensures
        r == spec_count_runs(ops@),
        r <= ops@.len(),
{
    let mut runs: usize = 0;
    let mut i: usize = 0;
    while i < ops.len()
        invariant
            0 <= i <= ops@.len(),
            runs == spec_count_runs(ops@.subrange(0, i as int)),
            runs <= i,
        decreases ops@.len() - i,
    {
        proof {
            assert(ops@.subrange(0, i + 1).drop_last() =~= ops@.subrange(0, i as int));
        }
        if i == 0 || ops[i] != ops[i - 1] {
            runs = runs + 1;
        }
        i = i + 1;
    }
    proof {
        assert(ops@.subrange(0, ops@.len() as int) =~= ops@);
    }
    runs
}

/// Parentheses are skipped rather than treated as sequence boundaries.
pub open spec fn spec_skip_parentheses(lang: &CompiledLanguage, t: &SyntaxTree, n: int) -> int
    decreases t.len() - n,
{
    if lang.spec_has(t, n, Flags::parenthesis()) {
        match spec_first_significant_named_child(lang, t, n) {
            Some(inner) => if n < inner < t.len() {
                spec_skip_parentheses(lang, t, inner as int)
            } else {
                n
            },
            None => n,
        }
    } else {
        n
    }
}

pub fn skip_parentheses(lang: &CompiledLanguage, t: &SyntaxTree, n: usize) -> (r: usize)
    ensures
        r == spec_skip_parentheses(lang, t, n as int),
{
    let mut current = n;
    while lang.has_flag(t, current, Flags(16))
        invariant
            spec_skip_parentheses(lang, t, n as int) == spec_skip_parentheses(lang, t, current as int),
        decreases t.len() - current,
    {
        match first_significant_named_child(lang, t, current) {
            Some(inner) => {
                if current < inner && inner < t.nodes.len() {
                    current = inner;
                } else {
                    return current;
                }
            },
            None => return current,
        }
    }
    current
}

/// One side of a logical node: a nested logical sequence is flattened into this one.
pub open spec fn spec_flatten_side(lang: &CompiledLanguage, t: &SyntaxTree, src: Seq<u8>, n: int, side: Option<usize>) -> (Seq<LogicalOp>, Seq<usize>)
    decreases t.len() - n, 0int,
{
    match side {
        Some(s) => {
            let inner = spec_skip_parentheses(lang, t, s as int);
            if n < inner < t.len() && spec_logical_operator(lang, t, src, inner) is Some {
                spec_flatten_logical(lang, t, src, inner)
            } else {
                (Seq::empty(), seq![inner as usize])
            }
        },
        None => (Seq::empty(), Seq::empty()),
    }
}

/// The operators of a logical sequence in reading order, and the operands between them.
pub open spec fn spec_flatten_logical(lang: &CompiledLanguage, t: &SyntaxTree, src: Seq<u8>, n: int) -> (Seq<LogicalOp>, Seq<usize>)
    decreases t.len() - n, 1int,
{
    let left = spec_flatten_side(lang, t, src, n, t.spec_field(n, lang.fields.logical_left));
    let right = spec_flatten_side(lang, t, src, n, t.spec_field(n, lang.fields.logical_right));
    let op = match spec_logical_operator(lang, t, src, n) {
        Some(o) => seq![o],
        None => Seq::empty(),
    };
    (left.0 + op + right.0, left.1 + right.1)
}

/// Only direct syntactic self-reference is detectable without symbol resolution.
pub open spec fn spec_is_recursive_call(cx: &WalkCx, n: int) -> bool {
    match spec_resolve_callee(cx.lang, cx.tree, n) {
        Some(callee) => {
            &&& text_of(cx.tree, cx.src@, Some(callee.name)) == Some(cx.unit@)
            &&& match callee.receiver {
                Some(r) => match cx.tree.spec_text(cx.src@, r as int) {
                    Some(s) => cx.scope.receives(s),
                    None => false,
                },
                None => cx.scope.bare_call_recurses,
            }
            &&& spec_call_reaches_unit(cx.lang, cx.tree, cx.src@, n, cx.unit_node as int)
        },
        None => false,
    }
}

pub open spec fn below(cx: &WalkCx, n: int, c: int) -> bool {
    n < c < cx.tree.len()
}

/// The score of node `n` met at depth `nesting`.
pub open spec fn spec_walk(cx: &WalkCx, n: int, nesting: nat) -> nat
    decreases cx.tree.len() - n, 3int, 0int,
{
    let t = cx.tree;
    let lang = cx.lang;
    if !(0 <= n < t.len()) {
        0
    } else if cx.skip_units && lang.spec_has(t, n, Flags::unit()) {
        0
    } else if cx.skip_units && lang.spec_has(t, n, Flags::container()) {
        spec_walk_children(cx, n, nesting, 0)
    } else if lang.spec_has(t, n, Flags::nesting_fn()) {
        spec_walk_children(cx, n, nesting + 1, 0)
    } else {
        match lang.spec_role(t, n) {
            Role::If => spec_walk_if(cx, n, nesting, false),
            Role::Control => 1 + nesting + spec_walk_control(cx, n, nesting, 0),
            Role::Jump => if spec_is_penalized_jump(lang, t, cx.src@, n) { 1 } else { 0 },
            Role::Goto => 1,
            Role::Logical => if spec_logical_operator(lang, t, cx.src@, n) is Some {
                spec_walk_logical(cx, n, nesting)
            } else {
                spec_walk_children(cx, n, nesting, 0)
            },
            Role::Call => (if spec_is_recursive_call(cx, n) { 1nat } else { 0nat }) + spec_walk_children(cx, n, nesting, 0),
            // An `else` met outside an `if`, as a loop's or a `try`'s, is a flat +1 whose body
            // stays at the depth the `else` stands at.
            Role::Else => 1 + spec_walk_children(cx, n, nesting, 0),
            _ => spec_walk_children(cx, n, nesting, 0),
        }
    }
}

/// The named children of `n` from position `k` on, each at depth `nesting`.
pub open spec fn spec_walk_children(cx: &WalkCx, n: int, nesting: nat, k: int) -> nat
    decreases cx.tree.len() - n, 2int, cx.tree.kids(n).len() - k,
{
    if !(0 <= n < cx.tree.len()) || k < 0 || k >= cx.tree.kids(n).len() {
        0
    } else {
        let c = cx.tree.kids(n)[k] as int;
        (if cx.tree.spec_named(c) && below(cx, n, c) { spec_walk(cx, c, nesting) } else { 0 })
            + spec_walk_children(cx, n, nesting, k + 1)
    }
}

/// Whether a child of a control structure carries its header rather than its branches.
pub open spec fn spec_control_header(cx: &WalkCx, n: int, c: int) -> bool {
    let body_start = match cx.tree.spec_field(n, cx.lang.fields.body) {
        Some(b) => Some(cx.tree.spec_start_byte(b as int)),
        None => None,
    };
    ||| cx.lang.spec_is_header_field(cx.tree.spec_field_id(c))
    ||| (body_start matches Some(s) && cx.tree.spec_end_byte(c) <= s)
    ||| spec_is_control_header(cx.lang, cx.tree, n, c)
}

/// Branch bodies nest; the controlling header does not.
pub open spec fn spec_walk_control(cx: &WalkCx, n: int, nesting: nat, k: int) -> nat
    decreases cx.tree.len() - n, 2int, cx.tree.kids(n).len() - k,
{
    if !(0 <= n < cx.tree.len()) || k < 0 || k >= cx.tree.kids(n).len() {
        0
    } else {
        let c = cx.tree.kids(n)[k] as int;
        (if cx.tree.spec_named(c) && below(cx, n, c) {
            spec_walk(cx, c, if spec_control_header(cx, n, c) { nesting } else { nesting + 1 })
        } else {
            0
        }) + spec_walk_control(cx, n, nesting, k + 1)
    }
}

/// `flat` marks an `if` that is the tail of an else-if chain, which scores a flat +1.
pub open spec fn spec_walk_if(cx: &WalkCx, n: int, nesting: nat, flat: bool) -> nat
    decreases cx.tree.len() - n, 2int, 0int,
{
    (if flat { 1 } else { 1 + nesting }) + spec_walk_parts(cx, n, nesting, 0)
}

pub open spec fn spec_walk_parts(cx: &WalkCx, n: int, nesting: nat, i: int) -> nat
    decreases cx.tree.len() - n, 1int, spec_if_parts(cx.lang, cx.tree, n).len() - i,
{
    let parts = spec_if_parts(cx.lang, cx.tree, n);
    if i < 0 || i >= parts.len() {
        0
    } else {
        let here: nat = match parts[i] {
            IfPart::Header(c) => if below(cx, n, c as int) { spec_walk(cx, c as int, nesting) } else { 0 },
            IfPart::Unrecognised(c) => if below(cx, n, c as int) { spec_walk(cx, c as int, nesting) } else { 0 },
            IfPart::Then(c) => if below(cx, n, c as int) { spec_walk(cx, c as int, nesting + 1) } else { 0 },
            IfPart::ElseIf(c) => if below(cx, n, c as int) { spec_walk_if(cx, c as int, nesting, true) } else { 0 },
            IfPart::Else(None) => 1,
            IfPart::Else(Some(b)) => 1 + if below(cx, n, b as int) { spec_walk(cx, b as int, nesting + 1) } else { 0 },
        };
        here + spec_walk_parts(cx, n, nesting, i + 1)
    }
}

/// A logical sequence: one increment per run of equal operators, then its operands.
pub open spec fn spec_walk_logical(cx: &WalkCx, n: int, nesting: nat) -> nat
    decreases cx.tree.len() - n, 2int, 0int,
{
    spec_count_runs(spec_flatten_logical(cx.lang, cx.tree, cx.src@, n).0) + spec_walk_operands(cx, n, nesting, 0)
}

pub open spec fn spec_walk_operands(cx: &WalkCx, n: int, nesting: nat, i: int) -> nat
    decreases cx.tree.len() - n, 1int, spec_flatten_logical(cx.lang, cx.tree, cx.src@, n).1.len() - i,
{
    let operands = spec_flatten_logical(cx.lang, cx.tree, cx.src@, n).1;
    if i < 0 || i >= operands.len() {
        0
    } else {
        (if below(cx, n, operands[i] as int) { spec_walk(cx, operands[i] as int, nesting) } else { 0 })
            + spec_walk_operands(cx, n, nesting, i + 1)
    }
}

} // verus!

verus! {

/// `a + b`, stopping at `u32::MAX`.
pub fn sat_add(a: u32, b: u32) -> (r: u32)
    ensures
        r == sat(a + b),
{
    if (a as u64) + (b as u64) > 4294967295 {
        4294967295
    } else {
        a + b
    }
}

fn flatten_side(cx: &WalkCx, n: usize, side: Option<usize>, ops: &mut Vec<LogicalOp>, operands: &mut Vec<usize>)
    ensures
        final(ops)@ == old(ops)@ + spec_flatten_side(cx.lang, cx.tree, cx.src@, n as int, side).0,
        final(operands)@ == old(operands)@ + spec_flatten_side(cx.lang, cx.tree, cx.src@, n as int, side).1,
    decreases cx.tree.len() - n, 0int,
{
    match side {
        Some(s) => {
            let inner = skip_parentheses(cx.lang, cx.tree, s);
            if n < inner && inner < cx.tree.nodes.len() && logical_operator(cx.lang, cx.tree, cx.src, inner).is_some() {
                flatten_logical(cx, inner, ops, operands);
            } else {
                operands.push(inner);
                assert(final(ops)@ =~= old(ops)@ + spec_flatten_side(cx.lang, cx.tree, cx.src@, n as int, side).0);
            }
        },
        None => {
            assert(final(ops)@ =~= old(ops)@ + spec_flatten_side(cx.lang, cx.tree, cx.src@, n as int, side).0);
            assert(final(operands)@ =~= old(operands)@ + spec_flatten_side(cx.lang, cx.tree, cx.src@, n as int, side).1);
        },
    }
}

/// Parentheses are skipped; a negation or any other wrapper ends the sequence and becomes an
/// operand whose inside is scored separately.
pub fn flatten_logical(cx: &WalkCx, n: usize, ops: &mut Vec<LogicalOp>, operands: &mut Vec<usize>)
    ensures
        final(ops)@ == old(ops)@ + spec_flatten_logical(cx.lang, cx.tree, cx.src@, n as int).0,
        final(operands)@ == old(operands)@ + spec_flatten_logical(cx.lang, cx.tree, cx.src@, n as int).1,
    decreases cx.tree.len() - n, 1int,
{
    let ghost ops0 = ops@;
    let ghost operands0 = operands@;
    let left = cx.tree.child_by_field(n, cx.lang.fields.logical_left);
    flatten_side(cx, n, left, ops, operands);
    match logical_operator(cx.lang, cx.tree, cx.src, n) {
        Some(o) => ops.push(o),
        None => {},
    }
    let right = cx.tree.child_by_field(n, cx.lang.fields.logical_right);
    flatten_side(cx, n, right, ops, operands);
    proof {
        let l = spec_flatten_side(cx.lang, cx.tree, cx.src@, n as int, left);
        let r = spec_flatten_side(cx.lang, cx.tree, cx.src@, n as int, right);
        let op = match spec_logical_operator(cx.lang, cx.tree, cx.src@, n as int) {
            Some(o) => seq![o],
            None => Seq::empty(),
        };
        assert(ops@ =~= ops0 + (l.0 + op + r.0));
        assert(operands@ =~= operands0 + (l.1 + r.1));
    }
}

pub fn is_recursive_call(cx: &WalkCx, n: usize) -> (r: bool)
    ensures
        r == spec_is_recursive_call(cx, n as int),
{
    let callee = match resolve_callee(cx.lang, cx.tree, n) {
        Some(c) => c,
        None => return false,
    };
    let names_unit = match cx.tree.text(cx.src, callee.name) {
        Some(s) => str_eq(s.as_str(), cx.unit),
        None => false,
    };
    if !names_unit {
        return false;
    }
    let through = match callee.receiver {
        Some(r) => match cx.tree.text(cx.src, r) {
            Some(s) => {
                let mut found = false;
                let mut i: usize = 0;
                while i < cx.scope.self_receivers.len()
                    invariant
                        0 <= i <= cx.scope.self_receivers@.len(),
                        found == exists|j: int| 0 <= j < i && (#[trigger] cx.scope.self_receivers@[j])@ == s@,
                    decreases cx.scope.self_receivers@.len() - i,
                {
                    if str_eq(cx.scope.self_receivers[i].as_str(), s.as_str()) {
                        found = true;
                    }
                    i = i + 1;
                }
                found
            },
            None => false,
        },
        None => cx.scope.bare_call_recurses,
    };
    through && call_reaches_unit(cx.lang, cx.tree, cx.src, n, cx.unit_node)
}

pub open spec fn walk_ok(cx: &WalkCx) -> bool {
    cx.tree.len() <= u32_max()
}

/// Adds the score of node `n` and what lies below it, at `nesting`, to `score`. A node is
/// nested at most once per node above it, and in pre-order every node above `n` has a smaller
/// index, so a walk from the root never finds `nesting` past `n`; that bound keeps the nesting
/// count within `u32`, as the tree's size is.
pub fn walk(cx: &WalkCx, n: usize, nesting: u32, score: &mut u32)
    requires
        walk_ok(cx),
        nesting <= n,
    ensures
        *final(score) == sat(*old(score) + spec_walk(cx, n as int, nesting as nat)),
    decreases cx.tree.len() - n, 3int, 0int,
{
    let t = cx.tree;
    let lang = cx.lang;
    if n >= t.nodes.len() {
        return;
    }
    let info = lang.node_info(t, n);
    if cx.skip_units && info.flags.has(Flags(1)) {
        return;
    }
    if cx.skip_units && info.flags.has(Flags(2)) {
        walk_children(cx, n, nesting, score);
        return;
    }
    if info.flags.has(Flags(4)) {
        walk_children(cx, n, nesting + 1, score);
        return;
    }
    match info.role {
        Role::If => walk_if(cx, n, nesting, false, score),
        Role::Control => {
            *score = sat_add(*score, 1 + nesting);
            walk_control(cx, n, nesting, score);
        },
        Role::Jump => {
            if is_penalized_jump(lang, t, cx.src, n) {
                *score = sat_add(*score, 1);
            }
        },
        Role::Goto => {
            *score = sat_add(*score, 1);
        },
        Role::Logical => {
            if logical_operator(lang, t, cx.src, n).is_some() {
                walk_logical(cx, n, nesting, score);
            } else {
                walk_children(cx, n, nesting, score);
            }
        },
        Role::Call => {
            if is_recursive_call(cx, n) {
                *score = sat_add(*score, 1);
            }
            walk_children(cx, n, nesting, score);
        },
        Role::Else => {
            *score = sat_add(*score, 1);
            walk_children(cx, n, nesting, score);
        },
        _ => walk_children(cx, n, nesting, score),
    }
}

fn walk_children(cx: &WalkCx, n: usize, nesting: u32, score: &mut u32)
    requires
        walk_ok(cx),
        n < cx.tree.len(),
        nesting <= n + 1,
    ensures
        *final(score) == sat(*old(score) + spec_walk_children(cx, n as int, nesting as nat, 0)),
    decreases cx.tree.len() - n, 2int, cx.tree.kids(n as int).len(),
{
    let kids = &cx.tree.nodes[n].children;
    let ghost s0 = *score;
    let mut k: usize = 0;
    while k < kids.len()
        invariant
            walk_ok(cx),
            n < cx.tree.len(),
            nesting <= n + 1,
            kids@ == cx.tree.kids(n as int),
            0 <= k <= kids@.len(),
            sat(s0 + spec_walk_children(cx, n as int, nesting as nat, 0)) == sat(*score + spec_walk_children(cx, n as int, nesting as nat, k as int)),
        decreases kids@.len() - k,
    {
        let c = kids[k];
        if cx.tree.is_named(c) && n < c && c < cx.tree.nodes.len() {
            walk(cx, c, nesting, score);
        }
        k = k + 1;
    }
}

fn walk_control(cx: &WalkCx, n: usize, nesting: u32, score: &mut u32)
    requires
        walk_ok(cx),
        n < cx.tree.len(),
        nesting <= n,
    ensures
        *final(score) == sat(*old(score) + spec_walk_control(cx, n as int, nesting as nat, 0)),
    decreases cx.tree.len() - n, 2int, cx.tree.kids(n as int).len(),
{
    let body_start = match cx.tree.child_by_field(n, cx.lang.fields.body) {
        Some(b) => Some(cx.tree.start_byte(b)),
        None => None,
    };
    let kids = &cx.tree.nodes[n].children;
    let ghost s0 = *score;
    let mut k: usize = 0;
    while k < kids.len()
        invariant
            walk_ok(cx),
            n < cx.tree.len(),
            nesting <= n,
            kids@ == cx.tree.kids(n as int),
            0 <= k <= kids@.len(),
            body_start == (match cx.tree.spec_field(n as int, cx.lang.fields.body) {
                Some(b) => Some(cx.tree.spec_start_byte(b as int)),
                None => None,
            }),
            sat(s0 + spec_walk_control(cx, n as int, nesting as nat, 0)) == sat(*score + spec_walk_control(cx, n as int, nesting as nat, k as int)),
        decreases kids@.len() - k,
    {
        let c = kids[k];
        if cx.tree.is_named(c) && n < c && c < cx.tree.nodes.len() {
            let before_body = match body_start {
                Some(s) => cx.tree.end_byte(c) <= s,
                None => false,
            };
            let is_header = cx.lang.is_header_field(cx.tree.field_id(c)) || before_body
                || is_control_header(cx.lang, cx.tree, n, c);
            let depth = if is_header { nesting } else { nesting + 1 };
            walk(cx, c, depth, score);
        }
        k = k + 1;
    }
}

fn walk_if(cx: &WalkCx, n: usize, nesting: u32, flat: bool, score: &mut u32)
    requires
        walk_ok(cx),
        n < cx.tree.len(),
        nesting <= n,
    ensures
        *final(score) == sat(*old(score) + spec_walk_if(cx, n as int, nesting as nat, flat)),
    decreases cx.tree.len() - n, 2int, 0int,
{
    if flat {
        *score = sat_add(*score, 1);
    } else {
        *score = sat_add(*score, 1 + nesting);
    }
    let parts = if_parts(cx.lang, cx.tree, n);
    let ghost s0 = *score;
    let mut i: usize = 0;
    while i < parts.len()
        invariant
            walk_ok(cx),
            n < cx.tree.len(),
            nesting <= n,
            parts@ == spec_if_parts(cx.lang, cx.tree, n as int),
            0 <= i <= parts@.len(),
            sat(s0 + spec_walk_parts(cx, n as int, nesting as nat, 0)) == sat(*score + spec_walk_parts(cx, n as int, nesting as nat, i as int)),
        decreases parts@.len() - i,
    {
        let below = |c: usize| -> (b: bool)
            ensures b == below(cx, n as int, c as int),
        { n < c && c < cx.tree.nodes.len() };
        match parts[i] {
            IfPart::Header(c) => if below(c) { walk(cx, c, nesting, score); },
            IfPart::Unrecognised(c) => if below(c) { walk(cx, c, nesting, score); },
            IfPart::Then(c) => if below(c) { walk(cx, c, nesting + 1, score); },
            IfPart::ElseIf(c) => if below(c) { walk_if(cx, c, nesting, true, score); },
            IfPart::Else(None) => {
                *score = sat_add(*score, 1);
            },
            IfPart::Else(Some(b)) => {
                *score = sat_add(*score, 1);
                if below(b) {
                    walk(cx, b, nesting + 1, score);
                }
            },
        }
        i = i + 1;
    }
}

fn walk_logical(cx: &WalkCx, n: usize, nesting: u32, score: &mut u32)
    requires
        walk_ok(cx),
        n < cx.tree.len(),
        nesting <= n,
    ensures
        *final(score) == sat(*old(score) + spec_walk_logical(cx, n as int, nesting as nat)),
    decreases cx.tree.len() - n, 2int, 0int,
{
    let mut ops: Vec<LogicalOp> = Vec::new();
    let mut operands: Vec<usize> = Vec::new();
    flatten_logical(cx, n, &mut ops, &mut operands);
    assert(ops@ =~= spec_flatten_logical(cx.lang, cx.tree, cx.src@, n as int).0);
    assert(operands@ =~= spec_flatten_logical(cx.lang, cx.tree, cx.src@, n as int).1);
    let runs = count_runs(&ops);
    if runs > 4294967295 {
        *score = 4294967295;
    } else {
        *score = sat_add(*score, runs as u32);
    }
    let ghost s0 = *score;
    let mut i: usize = 0;
    while i < operands.len()
        invariant
            walk_ok(cx),
            n < cx.tree.len(),
            nesting <= n,
            operands@ == spec_flatten_logical(cx.lang, cx.tree, cx.src@, n as int).1,
            0 <= i <= operands@.len(),
            sat(s0 + spec_walk_operands(cx, n as int, nesting as nat, 0)) == sat(*score + spec_walk_operands(cx, n as int, nesting as nat, i as int)),
        decreases operands@.len() - i,
    {
        let o = operands[i];
        if n < o && o < cx.tree.nodes.len() {
            walk(cx, o, nesting, score);
        }
        i = i + 1;
    }
}

/// The score of a unit body, or of a file's top level.
pub fn score_node(cx: &WalkCx, n: usize) -> (r: u32)
    requires
        walk_ok(cx),
    ensures
        r == sat(spec_walk(cx, n as int, 0) as int),
{
    let mut score: u32 = 0;
    walk(cx, n, 0, &mut score);
    score
}

} // verus!

verus! {

/// The summed score of a node's named children, each met at depth zero: the file-level pass.
pub fn score_children(cx: &WalkCx, n: usize) -> (r: u32)
    requires
        walk_ok(cx),
        n < cx.tree.len(),
    ensures
        r == sat(spec_walk_children(cx, n as int, 0, 0) as int),
{
    let mut score: u32 = 0;
    walk_children(cx, n, 0, &mut score);
    score
}

} // verus!

verus! {

/// A `goto` costs a flat +1 however deeply it is nested: its score is the same at every depth,
/// and is the one increment.
pub proof fn law_goto_is_flat(cx: &WalkCx, n: int, nesting: nat)
    requires
        0 <= n < cx.tree.len(),
        cx.lang.spec_role(cx.tree, n) == Role::Goto,
        !cx.lang.spec_has(cx.tree, n, Flags::nesting_fn()),
        !(cx.skip_units && cx.lang.spec_has(cx.tree, n, Flags::unit())),
        !(cx.skip_units && cx.lang.spec_has(cx.tree, n, Flags::container())),
    ensures
        spec_walk(cx, n, nesting) == spec_walk(cx, n, 0),
        spec_walk(cx, n, nesting) == 1,
{
}

} // verus!
