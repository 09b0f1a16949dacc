//! A baseline is an accepted debt ledger: it refuses formats it does not understand and never
//! turns an unknown unit into an acceptance.

use bonsai_lint::baseline::{Baseline, Located};
use bonsai_lint::finding::{Finding, NameOrigin, Suppression};

fn located(key_path: &str, name: &str, score: u32) -> Located {
    Located {
        path: key_path.to_string(),
        key_path: key_path.to_string(),
        domain: 0,
        finding: Finding {
            container: None,
            name: name.to_string(),
            origin: NameOrigin::Declared,
            line: 1,
            score,
            suppression: Suppression::Unmarked,
            language: "php",
        },
    }
}

#[test]
fn a_higher_score_is_a_regression_and_an_equal_one_is_accepted() {
    let baseline = Baseline::from_findings(&vec![located("src/a.php", "busy", 20)]);

    assert!(!baseline.is_regression(&located("src/a.php", "busy", 20)));
    assert!(!baseline.is_regression(&located("src/a.php", "busy", 19)));
    assert!(baseline.is_regression(&located("src/a.php", "busy", 21)));
}

/// A renamed unit must not inherit another unit's amnesty.
#[test]
fn an_unknown_unit_is_a_regression() {
    let baseline = Baseline::from_findings(&vec![located("src/a.php", "busy", 20)]);

    assert!(baseline.is_regression(&located("src/a.php", "renamed", 1)));
    assert!(baseline.is_regression(&located("src/moved.php", "busy", 1)));
}

/// Two units the namer cannot tell apart share one entry, and an unchanged rerun must accept
/// both, whichever order they arrive in.
#[test]
fn units_sharing_a_key_keep_the_higher_score() {
    let orders = [
        vec![located("src/a.php", "busy", 30), located("src/a.php", "busy", 20)],
        vec![located("src/a.php", "busy", 20), located("src/a.php", "busy", 30)],
    ];
    for recorded in orders {
        let baseline = Baseline::from_findings(&recorded);

        assert_eq!(baseline.len(), 1);
        assert!(recorded.iter().all(|item| !baseline.is_regression(item)));
        assert!(baseline.is_regression(&located("src/a.php", "busy", 31)));
    }
}

#[test]
fn entries_that_match_nothing_are_reported() {
    let baseline = Baseline::from_findings(&vec![
        located("src/a.php", "busy", 20),
        located("src/b.php", "gone", 20),
    ]);

    let stale = baseline.unmatched(&vec![located("src/a.php", "busy", 3)]);

    assert_eq!(stale, vec!["src/b.php: gone".to_string()]);
}

#[test]
fn an_unsupported_format_version_is_refused_with_the_remedy() {
    let error = match Baseline::from_parts(2, Vec::new()) {
        Ok(_) => panic!("version 2 is unknown"),
        Err(error) => error,
    };

    assert_eq!(
        error,
        "baseline format version 2 is not supported (expected 1); regenerate with --write-baseline"
    );
}

#[test]
fn a_baseline_read_back_accepts_what_it_recorded() {
    let entries = vec![
        ("src/a.php".to_string(), "busy".to_string(), 20),
        ("src/b.php".to_string(), "Klass::busier".to_string(), 30),
    ];
    let baseline = Baseline::from_parts(1, entries).expect("version 1 is current");

    assert_eq!(baseline.len(), 2);
    assert_eq!(baseline.version(), 1);
    assert!(!baseline.is_regression(&located("src/a.php", "busy", 20)));
    assert!(baseline.is_regression(&located("src/b.php", "busier", 30)));
}

#[test]
fn a_baseline_lists_its_entries_in_key_order() {
    let baseline = Baseline::from_findings(&vec![
        located("src/b.php", "z", 4),
        located("src/a.php", "y", 5),
        located("src/a.php", "x", 6),
    ]);

    let entries = baseline.entries();

    assert_eq!(
        entries,
        vec![
            ("src/a.php".to_string(), "x".to_string(), 6),
            ("src/a.php".to_string(), "y".to_string(), 5),
            ("src/b.php".to_string(), "z".to_string(), 4),
        ]
    );
}

#[test]
fn an_empty_ledger_accepts_nothing() {
    let baseline = Baseline::new();

    assert!(baseline.is_empty());
    assert_eq!(baseline.len(), 0);
    assert!(baseline.is_regression(&located("src/a.php", "busy", 0)));
}

#[test]
fn a_ledger_written_out_reads_back_the_same() {
    let recorded = vec![located("src/a.php", "busy", 20), located("src/b.php", "busier", 30)];
    let baseline = Baseline::from_findings(&recorded);

    let read = Baseline::from_parts(baseline.version(), baseline.entries()).expect("current format");

    assert_eq!(read.len(), 2);
    assert!(recorded.iter().all(|item| !read.is_regression(item)));
    assert!(read.is_regression(&located("src/a.php", "busy", 21)));
}
