//! Go allows only declarations at package scope, so file-level logic is whatever a `var`
//! initialiser computes when the package loads.

use bonsai_lint::collect::analyze;
use bonsai_lint::finding::Finding;
use bonsai_lint::grammars::load_descriptor;
use bonsai_lint::parse::parse_source;
use bonsai_lint::registry::Descriptor;
fn go_toplevel_toplevel_score(source: &str) -> Option<u32> {
    go_toplevel_findings(source)
        .into_iter()
        .find(|finding| finding.name == bonsai_lint::finding::TOPLEVEL_UNIT)
        .map(|finding| finding.score)
}

fn go_toplevel_findings(source: &str) -> Vec<Finding> {
    let grammar = load_descriptor(Descriptor::Go).expect("grammar should load");
    let parsed = parse_source(&grammar.grammar, source, None).expect("source should parse");
    assert!(!parsed.has_error, "fixture does not parse cleanly:\n{source}");
    analyze(&grammar.language, &parsed.tree, source.as_bytes(), true)
}

#[test]
fn package_level_initialisers_are_scored() {
    let source = "package p\n\nvar ok = a && b\nvar mixed = a && b || c\n";
    assert_eq!(go_toplevel_toplevel_score(source), Some(3));
}

#[test]
fn go_toplevel_declared_units_are_not_counted_twice() {
    let source = "package p\n\nvar ok = a && b\nfunc foo() { if b { f() } }\n";
    assert_eq!(go_toplevel_toplevel_score(source), Some(1));
}

#[test]
fn a_package_level_literal_is_a_unit_not_file_logic() {
    let source = "package p\n\nvar handler = func() { if a { f() } }\n";
    assert_eq!(go_toplevel_toplevel_score(source), None);

    let handler = go_toplevel_findings(source)
        .into_iter()
        .find(|finding| finding.name == "handler")
        .expect("handler is a unit");
    assert_eq!(handler.score, 1);
}

#[test]
fn go_toplevel_a_file_without_top_level_logic_reports_nothing() {
    let source = "package p\n\nimport \"fmt\"\n\nfunc (s *S) Print() { fmt.Println(s) }\n";
    assert_eq!(go_toplevel_toplevel_score(source), None);
}

/// Deriving the line from the root node instead would report 4 here: tree-sitter starts the root
/// at the first token, not at byte 0.
#[test]
fn go_toplevel_leading_blank_lines_do_not_move_the_toplevel_line() {
    let findings = go_toplevel_findings("\n\n\npackage p\n\nvar ok = a && b\n");
    let toplevel = findings
        .iter()
        .find(|finding| finding.name == bonsai_lint::finding::TOPLEVEL_UNIT)
        .expect("top-level code scores");
    assert_eq!(toplevel.line, 1);
}
