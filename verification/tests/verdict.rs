//! What a run decides around a scan: overridden thresholds, what fails it, what it prints.

use bonsai_lint::baseline::{Baseline, Located};
use bonsai_lint::finding::{Finding, NameOrigin, Suppression};
use bonsai_lint::policy::{default_domain, Domain};
use bonsai_lint::registry::Descriptor;
use bonsai_lint::scan::ScanStats;
use bonsai_lint::verdict::{
    apply_overrides, baselines_to_write, breach_summary, closing, count_breaches, is_over_threshold,
    is_reported, join_strings, listed, over_threshold, recorded_message, report, select_domain,
    split_char, stale_warnings, stdin_descriptor, text_line, unreasoned_suppressions,
    unusable_scan, Ledgers,
};

fn item(path: &str, name: &str, score: u32, domain: usize, suppression: Suppression) -> Located {
    Located {
        path: path.to_string(),
        key_path: path.to_string(),
        domain,
        finding: Finding {
            container: None,
            name: name.to_string(),
            origin: NameOrigin::Declared,
            line: 3,
            score,
            suppression,
            language: "php",
        },
    }
}

fn two_domains() -> Vec<Domain> {
    let mut web = default_domain("/repo/web");
    web.name = "web".to_string();
    web.threshold = 10;
    vec![default_domain("/repo"), web]
}

#[test]
fn a_value_splits_at_every_comma() {
    assert_eq!(split_char("php=10,,ts=3", ','), vec!["php=10", "", "ts=3"]);
    assert_eq!(split_char("", ','), vec![""]);
}

#[test]
fn a_bare_override_replaces_every_threshold() {
    let mut domains = two_domains();
    domains[1].set_language_threshold("php".to_string(), 40);

    let outcome = apply_overrides(&vec!["25".to_string()], false, &mut domains);

    assert_eq!(outcome, Ok(()));
    assert_eq!(domains[0].threshold_for("php"), 25);
    assert_eq!(domains[1].threshold_for("php"), 25);
    assert_eq!(domains[1].threshold, 25);
    assert!(domains[1].language_thresholds.is_empty());
}

#[test]
fn a_bare_override_keeps_only_the_languages_set_beside_it() {
    let mut domains = two_domains();
    domains[1].set_language_threshold("php".to_string(), 40);
    domains[1].set_language_threshold("go".to_string(), 7);

    let outcome = apply_overrides(&vec!["15,typescript=20".to_string()], false, &mut domains);

    assert_eq!(outcome, Ok(()));
    assert_eq!(domains[1].language_thresholds, vec![("typescript".to_string(), 20)]);
    assert_eq!(domains[1].threshold_for("php"), 15);
    assert_eq!(domains[1].threshold_for("typescript"), 20);
}

#[test]
fn a_language_override_wins_and_the_last_word_counts() {
    let mut domains = two_domains();

    let outcome = apply_overrides(
        &vec!["php = 12 , typescript=30".to_string(), "php=7".to_string()],
        true,
        &mut domains,
    );

    assert_eq!(outcome, Ok(()));
    assert_eq!(domains[0].threshold_for("php"), 7);
    assert_eq!(domains[0].threshold_for("typescript"), 30);
    assert_eq!(domains[0].threshold_for("go"), 15);
    assert_eq!(domains[1].threshold_for("go"), 10);
    assert!(!domains[0].toplevel && !domains[1].toplevel);
}

#[test]
fn an_override_that_is_not_a_number_changes_nothing() {
    let mut domains = two_domains();

    let outcome = apply_overrides(&vec!["php=12".to_string(), "php=lots".to_string()], true, &mut domains);

    assert_eq!(outcome, Err("--over: `lots` is not a number".to_string()));
    assert_eq!(domains[0].threshold_for("php"), 15);
    assert!(domains[0].toplevel);

    let outcome = apply_overrides(&vec![" x ".to_string()], false, &mut domains);
    assert_eq!(outcome, Err("--over: ` x ` is not a number".to_string()));
}

#[test]
fn a_reasoned_marker_keeps_a_finding_below_the_bar() {
    let domains = two_domains();
    let plain = item("a.php", "f", 16, 0, Suppression::Unmarked);
    let reasoned = item("a.php", "g", 16, 0, Suppression::Reasoned("table".to_string()));
    let bare = item("a.php", "h", 16, 0, Suppression::MissingReason);
    let at_limit = item("a.php", "i", 15, 0, Suppression::Unmarked);

    assert!(is_over_threshold(&plain, &domains));
    assert!(!is_over_threshold(&reasoned, &domains));
    assert!(is_over_threshold(&bare, &domains));
    assert!(!is_over_threshold(&at_limit, &domains));
    assert!(is_over_threshold(&item("w.php", "f", 11, 1, Suppression::Unmarked), &domains));
}

#[test]
fn a_baseline_accepts_only_within_its_own_domain() {
    let domains = two_domains();
    let accepted = Baseline::from_findings(&vec![item("a.php", "f", 20, 0, Suppression::Unmarked)]);
    let ledgers = Ledgers { shared: false, loaded: vec![(0, accepted)] };

    let same = item("a.php", "f", 20, 0, Suppression::Unmarked);
    let worse = item("a.php", "f", 21, 0, Suppression::Unmarked);
    let elsewhere = item("a.php", "f", 20, 1, Suppression::Unmarked);

    assert!(!ledgers.is_regression(&same));
    assert!(ledgers.is_regression(&worse));
    assert!(ledgers.is_regression(&elsewhere));
    assert!(!is_reported(&same, &domains, &ledgers));
    assert!(is_reported(&worse, &domains, &ledgers));

    let shared = Ledgers { shared: true, loaded: ledgers.loaded };
    assert!(!shared.is_regression(&elsewhere));
}

#[test]
fn breaches_count_what_no_baseline_accepts() {
    let domains = two_domains();
    let located = vec![
        item("a.php", "f", 30, 0, Suppression::Unmarked),
        item("a.php", "g", 3, 0, Suppression::Unmarked),
        item("b.php", "h", 40, 0, Suppression::Unmarked),
    ];
    let accepted = Baseline::from_findings(&vec![item("a.php", "f", 30, 0, Suppression::Unmarked)]);
    let ledgers = Ledgers { shared: false, loaded: vec![(0, accepted)] };

    let over = over_threshold(&located, &domains);
    assert_eq!(over.len(), 2);
    assert_eq!(count_breaches(&over, &ledgers), 1);
    assert_eq!(listed(&located, false, &domains, &ledgers).len(), 1);
    assert_eq!(listed(&located, true, &domains, &ledgers).len(), 3);
    assert_eq!(breach_summary(1, 2), "\n1 unit(s) over the threshold, 1 accepted by a baseline");
    assert_eq!(breach_summary(2, 2), "\n2 unit(s) over the threshold");
}

#[test]
fn a_marker_without_a_reason_says_so() {
    let domains = two_domains();
    let located = vec![
        item("src/a.php", "busy", 20, 0, Suppression::MissingReason),
        item("src/a.php", "calm", 2, 0, Suppression::MissingReason),
    ];

    let warnings = unreasoned_suppressions(&located, &domains);

    assert_eq!(
        warnings,
        vec!["src/a.php:3: `bonsai-lint-ignore` needs a reason, e.g. `// bonsai-lint-ignore: why this has to stay complex` \u{2014} ignoring it and reporting busy".to_string()]
    );
}

#[test]
fn a_scan_that_read_nothing_or_failed_is_refused() {
    let shown = vec!["src".to_string(), "lib".to_string()];
    let failed = ScanStats { files: 3, errors: 2, domains: vec![0] };
    let empty = ScanStats { files: 0, errors: 0, domains: Vec::new() };
    let fine = ScanStats { files: 1, errors: 0, domains: vec![0] };

    assert_eq!(
        unusable_scan(&failed, &shown),
        Some("2 path(s) could not be read; refusing to report a clean run".to_string())
    );
    assert_eq!(
        unusable_scan(&empty, &shown),
        Some("no supported files found under src, lib".to_string())
    );
    assert_eq!(unusable_scan(&fine, &shown), None);
    assert_eq!(join_strings(&Vec::new(), ", "), "");
}

#[test]
fn a_text_line_right_aligns_the_score() {
    let mut located = item("src/a.php", "m", 7, 0, Suppression::Unmarked);
    located.finding.container = Some("Klass".to_string());
    assert_eq!(text_line(&located), "   7  src/a.php:3  Klass::m");
    located.finding.score = 12345;
    assert_eq!(text_line(&located), "12345  src/a.php:3  Klass::m");
}

#[test]
fn stale_entries_are_counted_for_visited_domains_only() {
    let domains = two_domains();
    let recorded = Baseline::from_findings(&vec![
        item("a.php", "kept", 20, 0, Suppression::Unmarked),
        item("a.php", "gone", 20, 0, Suppression::Unmarked),
    ]);
    let ledgers = Ledgers { shared: false, loaded: vec![(0, recorded)] };
    let located = vec![item("a.php", "kept", 1, 0, Suppression::Unmarked)];

    assert_eq!(
        stale_warnings(&ledgers, &located, &domains, &vec![0]),
        vec!["root: 1 baseline entr(ies) matched nothing in this scan".to_string()]
    );
    assert!(stale_warnings(&ledgers, &located, &domains, &vec![1]).is_empty());
}

#[test]
fn a_domain_is_selected_by_name() {
    let domains = two_domains();
    let mut located = vec![
        item("a.php", "f", 1, 0, Suppression::Unmarked),
        item("w.php", "g", 1, 1, Suppression::Unmarked),
    ];

    assert_eq!(
        select_domain(&mut located, &domains, "nope"),
        Err("no domain named `nope`".to_string())
    );
    assert_eq!(located.len(), 2);
    assert_eq!(select_domain(&mut located, &domains, "web"), Ok(()));
    assert_eq!(located.len(), 1);
    assert_eq!(located[0].path, "w.php");
}

#[test]
fn each_domain_writes_its_own_baseline() {
    let domains = two_domains();
    let over = vec![
        item("a.php", "f", 30, 0, Suppression::Unmarked),
        item("a.php", "f", 40, 0, Suppression::Unmarked),
    ];

    let planned = baselines_to_write(&over, &domains, None, &vec![false, false]);
    assert_eq!(planned.len(), 1);
    assert_eq!(planned[0].path, "/repo/.bonsai-lint-baseline.json");
    assert_eq!(planned[0].baseline.len(), 1);

    let refreshed = baselines_to_write(&over, &domains, None, &vec![false, true]);
    assert_eq!(refreshed.len(), 2);
    assert_eq!(refreshed[1].path, "/repo/web/.bonsai-lint-baseline.json");
    assert!(refreshed[1].baseline.is_empty());

    let shared = baselines_to_write(&over, &domains, Some("one.json"), &vec![false, false]);
    assert_eq!(shared.len(), 1);
    assert_eq!(shared[0].path, "one.json");
    assert_eq!(recorded_message(1, "one.json"), "recorded 1 finding(s) in one.json");
}

#[test]
fn stdin_needs_a_path_a_language_reads() {
    assert!(matches!(stdin_descriptor(Some("src/a.vue")), Ok(Descriptor::Vue)));
    match stdin_descriptor(None) {
        Err(message) => assert_eq!(message, "--stdin needs --stdin-path to know which language to use"),
        Ok(_) => panic!("no path"),
    }
    match stdin_descriptor(Some("notes.txt")) {
        Err(message) => assert_eq!(message, "notes.txt: no language handles this extension"),
        Ok(_) => panic!("no language reads text"),
    }
}

#[test]
fn a_report_lists_thresholds_and_findings() {
    let mut domains = two_domains();
    domains[0].set_language_threshold("typescript".to_string(), 20);
    let located = vec![item("a.php", "f", 30, 1, Suppression::Unmarked)];
    let ledgers = Ledgers { shared: false, loaded: Vec::new() };

    let made = report(&located, false, &domains, &ledgers, 1);

    assert_eq!(made.breaches, 1);
    assert_eq!(
        made.thresholds,
        vec![
            ("php".to_string(), 15),
            ("typescript".to_string(), 20),
            ("vue".to_string(), 15),
            ("go".to_string(), 15),
            ("java".to_string(), 15),
        ]
    );
    assert_eq!(made.findings.len(), 1);
    assert_eq!(made.findings[0].domain, "web");
    assert_eq!(made.findings[0].name, "f");
    assert_eq!(made.findings[0].score, 30);
}

#[test]
fn a_run_fails_exactly_when_something_breaks() {
    assert_eq!(closing(0, 3, true), (true, None));
    assert_eq!(
        closing(1, 2, true),
        (false, Some("\n1 unit(s) over the threshold, 1 accepted by a baseline".to_string()))
    );
    assert_eq!(closing(2, 2, false), (false, None));
}
