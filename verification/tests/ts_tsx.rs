//! JSX-specific behaviour. The reference JavaScript analyser exempts short-circuit rendering;
//! we count it, because it is a branch and a ternary in the same position unambiguously scores.

use bonsai_lint::collect::analyze;
use bonsai_lint::finding::Finding;
use bonsai_lint::grammars::load_descriptor;
use bonsai_lint::parse::parse_source;
use bonsai_lint::registry::Descriptor;

fn ts_tsx_findings(source: &str) -> Vec<Finding> {
    ts_tsx_findings_in(Descriptor::Tsx, source)
}

fn ts_tsx_findings_in(descriptor: Descriptor, source: &str) -> Vec<Finding> {
    let grammar = load_descriptor(descriptor).expect("grammar should load");
    let parsed = parse_source(&grammar.grammar, source, None).expect("source should parse");
    analyze(&grammar.language, &parsed.tree, source.as_bytes(), true)
}

fn ts_tsx_score(body: &str) -> u32 {
    let source = format!("function target() {{\n{body}\n}}\n");
    ts_tsx_findings(&source)
        .into_iter()
        .find(|finding| finding.name == "target")
        .unwrap_or_else(|| panic!("no finding produced for:\n{source}"))
        .score
}

#[test]
fn jsx_short_circuit_counts_as_a_logical_run() {
    assert_eq!(ts_tsx_score("return <div>{a && <A />}</div>;"), 1);
    assert_eq!(ts_tsx_score("return <div>{a && b && <A />}</div>;"), 1);
    assert_eq!(ts_tsx_score("return <div>{a && <A />}{b && <B />}</div>;"), 2);
}

/// Counting `&&` but not `?:` would create an incentive to reach for whichever the linter
/// ignores.
#[test]
fn jsx_ternary_and_short_circuit_agree() {
    assert_eq!(ts_tsx_score("return <div>{a ? <A /> : null}</div>;"), 1);
    assert_eq!(ts_tsx_score("return <div>{a && <A />}</div>;"), 1);
}

/// A boolean run is a fundamental increment: +1, with no nesting term. Nesting compounds only
/// for structural increments, so a JSX guard costs the same wherever it sits. A component pays
/// one point per conditional render, flat.
#[test]
fn jsx_guards_cost_one_each_regardless_of_nesting() {
    let flat = "return <ul>{a && <A />}</ul>;";
    let nested = "return <ul>{xs.map(x => <li>{x.items.map(i => <b>{a && <A />}</b>)}</li>)}</ul>;";
    assert_eq!(ts_tsx_score(flat), 1);
    assert_eq!(ts_tsx_score(nested), 1);
}

/// Structural increments inside the same callbacks do compound, which is what keeps deeply
/// nested rendering logic expensive even though the guards themselves are flat.
#[test]
fn structural_increments_inside_jsx_callbacks_compound() {
    assert_eq!(
        ts_tsx_score("return <ul>{xs.map(x => <li>{x.ok ? <A /> : <B />}</li>)}</ul>;"),
        2
    );
    assert_eq!(
        ts_tsx_score(
            "return <ul>{xs.map(x => <li>{x.items.map(i => (i.ok ? <A /> : <B />))}</li>)}</ul>;"
        ),
        3
    );
}

/// `.ts` must use the TypeScript grammar, where angle brackets are a type assertion rather than
/// a JSX element.
#[test]
fn the_typescript_dialect_parses_angle_bracket_assertions() {
    let source = "function target() { const x = <string>value; return x; }";
    let findings = ts_tsx_findings_in(Descriptor::TypeScript, source);
    assert!(findings.iter().any(|finding| finding.name == "target"));
}
