//! Planning, scoring and gathering files: each file once, in plan order, worst first.

use bonsai_lint::policy::{default_domain, Workspace};
use bonsai_lint::registry::{for_path, language_ids, Descriptor};
use bonsai_lint::scan::{decode, gather, job, order, score_job, Scored};
use bonsai_lint::source::analyze_source;

fn workspace() -> Workspace {
    let mut ws = Workspace::zero_config("/repo");
    ws.exclude = vec!["vendor/**".to_string()];
    let mut web = default_domain("/repo/web");
    web.name = "web".to_string();
    web.toplevel = false;
    ws.domains.push(web);
    ws
}

#[test]
fn undecodable_bytes_are_replaced_and_reported() {
    let mut warnings = Vec::new();
    assert_eq!(decode(b"<?php echo 1;".to_vec(), "a.php", &mut warnings), "<?php echo 1;");
    assert!(warnings.is_empty());

    let text = decode(vec![b'a', 0xE9, b'b'], "latin.php", &mut warnings);
    assert_eq!(text, "a\u{FFFD}b");
    assert_eq!(
        warnings,
        vec!["latin.php: not valid UTF-8, undecodable bytes were replaced".to_string()]
    );
}

#[test]
fn a_file_named_twice_is_planned_once() {
    let ws = workspace();
    let mut seen = Vec::new();

    let first = job(&ws, None, &mut seen, "./web/src/a.ts", "/repo/web/src/a.ts").expect("planned");
    assert_eq!(first.shown, "web/src/a.ts");
    assert_eq!(first.key_path, "src/a.ts");
    assert_eq!(first.domain, 1);
    assert!(!first.toplevel);
    assert!(matches!(first.descriptor, Descriptor::TypeScript));

    assert!(job(&ws, None, &mut seen, "web/src/a.ts", "/repo/web/src/a.ts").is_none());
    assert!(job(&ws, None, &mut seen, "vendor/x.php", "/repo/vendor/x.php").is_none());
    assert!(job(&ws, None, &mut seen, "notes.md", "/repo/notes.md").is_none());
    assert!(job(&ws, None, &mut seen, "types.d.ts", "/repo/types.d.ts").is_none());
    let only_php = vec!["php".to_string()];
    assert!(job(&ws, Some(&only_php), &mut seen, "b.ts", "/repo/b.ts").is_none());
    assert!(job(&ws, Some(&only_php), &mut seen, "b.php", "/repo/b.php").is_some());
    assert_eq!(seen, vec!["/repo/web/src/a.ts", "/repo/vendor/x.php", "/repo/b.php"]);
}

#[test]
fn an_unreadable_file_fails_under_its_shown_name() {
    let ws = workspace();
    let mut seen = Vec::new();
    let planned = job(&ws, None, &mut seen, "a.php", "/repo/a.php").expect("planned");

    let failed = score_job(&planned, Err("permission denied".to_string()));
    assert_eq!(failed.error, Some("a.php: permission denied".to_string()));
    assert_eq!(failed.domain, None);

    let read = score_job(&planned, Ok(b"<?php\nfunction f($a) { if ($a) { return 1; } return 0; }\n".to_vec()));
    assert_eq!(read.error, None);
    assert_eq!(read.domain, Some(0));
    assert_eq!(read.located.len(), 1);
    assert_eq!(read.located[0].finding.name, "f");
    assert_eq!(read.located[0].finding.score, 1);
    assert_eq!(read.located[0].key_path, "a.php");
}

#[test]
fn gathering_keeps_counts_and_ranks_the_worst_first() {
    let ws = workspace();
    let mut seen = Vec::new();
    let a = job(&ws, None, &mut seen, "a.php", "/repo/a.php").expect("planned");
    let b = job(&ws, None, &mut seen, "web/b.ts", "/repo/web/b.ts").expect("planned");

    let scored = vec![
        score_job(&a, Ok(b"<?php\nfunction low($a) { if ($a) { return 1; } return 0; }\n".to_vec())),
        Scored::failed("gone.php: missing".to_string()),
        score_job(&b, Ok(b"function high(a, b) { if (a) { if (b) { return 1 } } return 0 }\n".to_vec())),
    ];
    let outcome = gather(scored);

    assert_eq!(outcome.stats.files, 2);
    assert_eq!(outcome.stats.errors, 1);
    assert_eq!(outcome.stats.domains, vec![0, 1]);
    assert_eq!(outcome.errors, vec!["gone.php: missing".to_string()]);
    assert_eq!(outcome.located.len(), 2);
    assert_eq!(outcome.located[0].finding.name, "high");
    assert_eq!(outcome.located[0].finding.score, 3);
    assert_eq!(outcome.located[1].finding.name, "low");
}

#[test]
fn a_component_without_a_readable_script_warns() {
    let mut warnings = Vec::new();
    let found = analyze_source(
        Descriptor::Vue,
        "<template><p/></template>\n<!-- <script setup> was here -->\n",
        true,
        "c.vue",
        &mut warnings,
    );
    assert!(found.is_empty());
    assert_eq!(
        warnings,
        vec!["c.vue: contains <script but no script block could be read".to_string()]
    );
}

#[test]
fn the_same_logic_scores_the_same_in_php_and_typescript() {
    let mut warnings = Vec::new();
    let php = analyze_source(
        Descriptor::Php,
        "<?php\nfunction sync($orders) {\n  foreach ($orders as $order) {\n    if ($order->isActive()) {\n      array_map(function ($item) {\n        if ($item->qty > 0) {\n          return $item->qty > 10 ? 'bulk' : 'single';\n        }\n      }, $order->items);\n    }\n  }\n}\n",
        true,
        "a.php",
        &mut warnings,
    );
    let ts = analyze_source(
        Descriptor::TypeScript,
        "function sync(orders) {\n  for (const order of orders) {\n    if (order.isActive()) {\n      order.items.map((item) => {\n        if (item.qty > 0) {\n          return item.qty > 10 ? 'bulk' : 'single';\n        }\n      });\n    }\n  }\n}\n",
        true,
        "a.ts",
        &mut warnings,
    );
    assert_eq!(php.len(), 1);
    assert_eq!(ts.len(), 1);
    assert_eq!(php[0].score, 12);
    assert_eq!(ts[0].score, 12);
}

#[test]
fn each_extension_finds_its_reader() {
    assert!(matches!(for_path("src/a.php"), Some(Descriptor::Php)));
    assert!(matches!(for_path("src/a.mts"), Some(Descriptor::TypeScript)));
    assert!(matches!(for_path("src/a.jsx"), Some(Descriptor::Tsx)));
    assert!(matches!(for_path("src/App.vue"), Some(Descriptor::Vue)));
    assert!(matches!(for_path("main.go"), Some(Descriptor::Go)));
    assert!(matches!(for_path("Main.java"), Some(Descriptor::Java)));
    assert!(for_path("tool.py").is_none());
    assert!(for_path("index.d.ts").is_none());
    assert!(for_path("Makefile").is_none());
    assert_eq!(language_ids(), vec!["php", "typescript", "vue", "go", "java"]);
}

#[test]
fn machine_written_sources_are_recognised() {
    assert!(Descriptor::Go.is_generated("// Code generated by protoc. DO NOT EDIT.\n\npackage p\n"));
    assert!(!Descriptor::Go.is_generated("package p\n\n// Code generated by protoc. DO NOT EDIT.\n"));
    assert!(Descriptor::Python.is_generated("# Generated by the tool. Do not edit.\nimport os\n"));
    assert!(!Descriptor::Python.is_generated("# Generated by Django 4.2\nfrom django.db import migrations\n"));
    assert!(Descriptor::Java.is_generated("// Generated code. Do not edit!\npackage p;\n"));
    assert!(!Descriptor::Php.is_generated("<?php // Code generated. DO NOT EDIT.\n"));
}

#[test]
fn invalid_utf8_is_decoded_leniently_with_a_warning() {
    let ws = Workspace::zero_config("/repo");
    let mut seen = Vec::new();
    let planned = job(&ws, None, &mut seen, "src/legacy.php", "/repo/src/legacy.php").expect("planned");

    let scored = score_job(&planned, Ok(b"<?php\nfunction f() { return \"caf\xE9\"; }\n".to_vec()));

    assert!(scored.error.is_none());
    assert_eq!(scored.warnings.len(), 1, "{:?}", scored.warnings);
    assert!(scored.warnings[0].contains("not valid UTF-8"));
    assert_eq!(scored.located.len(), 1);
    assert_eq!(scored.domain, Some(0));
}

#[test]
fn a_generated_file_is_neither_scored_nor_counted() {
    let ws = Workspace::zero_config("/repo");
    let mut seen = Vec::new();
    let planned = job(&ws, None, &mut seen, "gen.go", "/repo/gen.go").expect("planned");
    let source = "// Code generated by stringer. DO NOT EDIT.\n\npackage p\n\nfunc f() { if a { g() } }\n";

    let scored = score_job(&planned, Ok(source.as_bytes().to_vec()));
    let outcome = gather(vec![scored]);

    assert!(outcome.located.is_empty());
    assert_eq!(outcome.stats.files, 0);
    assert!(outcome.stats.domains.is_empty());
    assert!(outcome.errors.is_empty());
}

#[test]
fn a_handwritten_go_file_is_scored_and_counted() {
    let ws = Workspace::zero_config("/repo");
    let mut seen = Vec::new();
    let planned = job(&ws, None, &mut seen, "main.go", "/repo/main.go").expect("planned");
    let source = "package p\n\nfunc f() { if a { g() } }\n";

    let outcome = gather(vec![score_job(&planned, Ok(source.as_bytes().to_vec()))]);

    assert_eq!(outcome.stats.files, 1);
    assert_eq!(outcome.located.len(), 1);
    assert_eq!(outcome.located[0].finding.score, 1);
}

#[test]
fn results_come_back_in_item_order_whoever_finished_first() {
    let one = order(vec![(2, 'c'), (0, 'a'), (1, 'b')], 3);
    let other = order(vec![(1, 'b'), (2, 'c'), (0, 'a')], 3);
    assert_eq!(one, vec!['a', 'b', 'c']);
    assert_eq!(one, other);
}
