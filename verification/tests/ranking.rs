//! The worst offender heads every report, whichever way the files were read.

use bonsai_lint::baseline::Located;
use bonsai_lint::finding::{Finding, NameOrigin, Suppression};
use bonsai_lint::rank::rank;

fn at(path: &str, line: usize, name: &str, score: u32) -> Located {
    Located {
        path: path.to_string(),
        key_path: path.to_string(),
        domain: 0,
        finding: Finding {
            container: None,
            name: name.to_string(),
            origin: NameOrigin::Declared,
            line,
            score,
            suppression: Suppression::Unmarked,
            language: "php",
        },
    }
}

fn names(located: &[Located]) -> Vec<String> {
    located.iter().map(|item| item.finding.name.clone()).collect()
}

#[test]
fn highest_score_first_then_path_then_line() {
    let mut located = vec![
        at("b.php", 1, "b1", 5),
        at("a.php", 9, "a9", 5),
        at("a.php", 2, "a2", 5),
        at("z.php", 1, "top", 40),
    ];
    rank(&mut located);
    assert_eq!(names(&located), vec!["top", "a2", "a9", "b1"]);
}

#[test]
fn paths_compare_component_by_component() {
    let mut located = vec![at("a.b/c.php", 1, "dotted", 3), at("a/c.php", 1, "nested", 3)];
    rank(&mut located);
    assert_eq!(names(&located), vec!["nested", "dotted"]);
}

#[test]
fn findings_that_rank_alike_keep_their_order() {
    let mut located = vec![
        at("a.php", 4, "first", 7),
        at("a.php", 4, "second", 7),
        at("a.php", 1, "earlier", 7),
        at("a.php", 4, "third", 7),
    ];
    rank(&mut located);
    assert_eq!(names(&located), vec!["earlier", "first", "second", "third"]);
}
