use bonsai_lint::collect::{analyze, disambiguate};
use bonsai_lint::finding::Finding;
use bonsai_lint::grammars::{load, load_descriptor};
use bonsai_lint::registry::Descriptor;
use bonsai_lint::languages::typescript_spec;
use bonsai_lint::parse::parse_source;
use bonsai_lint::source::merge_toplevel;
use bonsai_lint::vue::extract;

use bonsai_lint::finding::TOPLEVEL_UNIT;

fn vue_vue_component(template_lines: usize) -> String {
    let mut template = String::new();
    for n in 0..template_lines {
        template.push_str(&format!("  <p v-if=\"a && b\">{n}</p>\n"));
    }
    format!(
        "<template>\n{template}</template>\n\n\
         <script setup lang=\"ts\">\n\
         function classify(n: number): string {{\n\
         \x20 if (n > 10) {{\n\
         \x20   if (n > 20) {{ return 'big' }}\n\
         \x20   return 'mid'\n\
         \x20 }}\n\
         \x20 return 'small'\n\
         }}\n\
         </script>\n"
    )
}

fn vue_vue_find<'a>(findings: &'a [Finding], name: &str) -> &'a Finding {
    findings
        .iter()
        .find(|finding| finding.qualified_name() == name)
        .unwrap_or_else(|| {
            let seen: Vec<_> = findings.iter().map(Finding::qualified_name).collect();
            panic!("no finding named `{name}`, saw {seen:?}")
        })
}

fn vue_vue_findings(source: &str) -> Vec<Finding> {
    let extraction = extract(source);
    let grammar = load(typescript_spec("vue"), extraction.grammar).expect("grammar should load");
    let mut found = Vec::new();
    for region in &extraction.regions {
        let parsed = parse_source(&grammar.grammar, source, Some(*region)).expect("source should parse");
        found.extend(analyze(&grammar.language, &parsed.tree, source.as_bytes(), true));
    }
    merge_toplevel(&mut found);
    disambiguate(&mut found);
    found
}

#[test]
fn a_reported_line_is_a_line_in_the_vue_file() {
    let found = vue_vue_findings(&vue_vue_component(40));
    // `<template>` + 40 lines + `</template>` + blank + `<script setup>` puts the body on 45.
    assert_eq!(vue_vue_find(&found, "classify").line, 45);
}

/// The property the whole design turns on: a baseline key must not drift by the length of a
/// template, and the line must track the template exactly.
#[test]
fn growing_the_template_moves_the_line_and_nothing_else() {
    let before = vue_vue_findings(&vue_vue_component(40));
    let after = vue_vue_findings(&vue_vue_component(50));

    let before = vue_vue_find(&before, "classify");
    let after = vue_vue_find(&after, "classify");

    assert_eq!(after.line - before.line, 10);
    assert_eq!(before.score, after.score);
    assert_eq!(before.qualified_name(), after.qualified_name());
}

#[test]
fn composition_api_bindings_take_their_bound_name() {
    let found = vue_vue_findings(
        "<script setup lang=\"ts\">\n\
         const label = computed(() => (a ? 1 : 2))\n\
         const go = () => { if (a) { b() } }\n\
         </script>\n",
    );
    vue_vue_find(&found, "label");
    vue_vue_find(&found, "go");
}

#[test]
fn a_script_setup_without_lang_is_scored_as_javascript() {
    let found =
        vue_vue_findings("<script setup>\nfunction f(n) { if (n) { return 1 } return 0 }\n</script>\n");
    assert_eq!(vue_vue_find(&found, "f").score, 1);
}

#[test]
fn options_api_methods_are_found_under_the_default_export() {
    let found = vue_vue_findings(
        "<script>\n\
         export default {\n\
         \x20 methods: {\n\
         \x20   increment(n) { if (n > 1) { return 2 } return 1 }\n\
         \x20 }\n\
         }\n\
         </script>\n",
    );
    assert_eq!(vue_vue_find(&found, "default::methods::increment").score, 1);
}

#[test]
fn two_script_blocks_produce_exactly_one_toplevel_finding() {
    let found = vue_vue_findings(
        "<script lang=\"ts\">\nif (a) { b() }\n</script>\n\
         <script setup lang=\"ts\">\nif (c) { d() }\n</script>\n",
    );
    let toplevel: Vec<_> = found
        .iter()
        .filter(|finding| finding.name == TOPLEVEL_UNIT)
        .collect();
    assert_eq!(toplevel.len(), 1);
}

/// Only script blocks score. Counting `v-if` would make a component incomparable with the same
/// logic written in TypeScript.
#[test]
fn template_branching_is_not_scored() {
    let found = vue_vue_findings(
        "<template>\n\
         \x20 <p v-if=\"a\">1</p>\n\
         \x20 <p v-else-if=\"b && c\">2</p>\n\
         \x20 <li v-for=\"x in xs\" :key=\"x\">{{ x }}</li>\n\
         </template>\n\
         <script setup lang=\"ts\">\nfunction f() { return 1 }\n</script>\n",
    );
    assert!(found.iter().all(|finding| finding.score == 0));
}

#[test]
fn the_same_logic_scores_the_same_in_a_vue_block_and_a_ts_file() {
    let body = "function f(n) { if (n > 1) { if (n > 2) { return 3 } return 2 } return 1 }";

    let vue = vue_vue_findings(&format!("<script setup>\n{body}\n</script>\n"));

    let tsx = load_descriptor(Descriptor::Tsx).expect("grammar loads");
    let parsed = parse_source(&tsx.grammar, body, None).expect("parses");
    let ts = analyze(&tsx.language, &parsed.tree, body.as_bytes(), true);

    assert_eq!(vue_vue_find(&vue, "f").score, vue_vue_find(&ts, "f").score);
}

#[test]
fn a_suppression_marker_inside_a_script_block_is_honoured() {
    let found = vue_vue_findings(
        "<template><p/></template>\n\
         <script setup lang=\"ts\">\n\
         // bonsai-lint-ignore: legacy branch table\n\
         function f(n: number) { if (n) { return 1 } return 0 }\n\
         </script>\n",
    );
    assert!(vue_vue_find(&found, "f").is_suppressed());
}
