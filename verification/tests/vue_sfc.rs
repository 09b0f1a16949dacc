use bonsai_lint::collect::{analyze, disambiguate};
use bonsai_lint::finding::Finding;
use bonsai_lint::grammars::{grammar, load};
use bonsai_lint::languages::typescript_spec;
use bonsai_lint::parse::parse_source;
use bonsai_lint::source::merge_toplevel;
use bonsai_lint::vue::{extract, Extraction};

fn vue_sfc_extract(source: &str) -> Extraction {
    extract(source)
}

fn vue_sfc_parses_cleanly(source: &str) -> bool {
    let extraction = extract(source);
    let mut parser = tree_sitter::Parser::new();
    parser
        .set_language(&grammar(extraction.grammar))
        .expect("grammar should load");
    let ranges: Vec<tree_sitter::Range> = extraction
        .regions
        .iter()
        .map(|r| tree_sitter::Range {
            start_byte: r.start_byte,
            end_byte: r.end_byte,
            start_point: tree_sitter::Point { row: r.start_row, column: r.start_column },
            end_point: tree_sitter::Point { row: r.end_row, column: r.end_column },
        })
        .collect();
    parser
        .set_included_ranges(&ranges)
        .expect("ranges are ordered and disjoint");
    !parser
        .parse(source, None)
        .expect("source should parse")
        .root_node()
        .has_error()
}

#[test]
fn a_plain_script_block_is_found() {
    assert_eq!(
        vue_sfc_extract("<script>\nconst a = 1\n</script>\n").regions.len(),
        1
    );
}

#[test]
fn a_script_setup_block_is_found() {
    assert_eq!(
        vue_sfc_extract("<template><p/></template>\n<script setup>\nconst a = 1\n</script>\n")
            .regions
            .len(),
        1
    );
}

/// Both blocks feed one parse. Scoring them separately would emit two `<toplevel>` findings whose
/// qualified names collide, and a baseline key cannot distinguish them.
#[test]
fn both_script_blocks_are_extracted_as_one_ordered_pair() {
    let source = "<script lang=\"ts\">\nexport default {}\n</script>\n\
                  <script setup lang=\"ts\">\nconst a = 1\n</script>\n";
    let ranges = vue_sfc_extract(source).regions;
    assert_eq!(ranges.len(), 2);
    assert!(ranges[0].end_byte <= ranges[1].start_byte);
}

#[test]
fn a_ts_block_selects_the_typescript_grammar() {
    assert!(vue_sfc_parses_cleanly(
        "<script setup lang=\"ts\">\nconst x = <string>value\n</script>\n"
    ));
}

#[test]
fn a_block_without_lang_selects_the_jsx_capable_grammar() {
    assert!(vue_sfc_parses_cleanly(
        "<script setup>\nconst el = <div>hi</div>\n</script>\n"
    ));
}

#[test]
fn attribute_order_and_quoting_do_not_matter() {
    for open in [
        "<script setup lang=\"ts\">",
        "<script lang='ts' setup>",
        "<script  setup  lang = \"ts\" >",
    ] {
        assert_eq!(
            vue_sfc_extract(&format!("{open}\nconst a = 1\n</script>\n"))
                .regions
                .len(),
            1,
            "{open}"
        );
    }
}

#[test]
fn a_block_with_src_has_no_inline_body_and_is_not_a_failure() {
    let extraction = vue_sfc_extract("<script src=\"./x.ts\"></script>\n<template><p/></template>\n");
    assert!(extraction.regions.is_empty());
    assert!(extraction.warning.is_none());
}

#[test]
fn a_template_only_component_scores_nothing_quietly() {
    let extraction = vue_sfc_extract("<template><div>only</div></template>\n");
    assert!(extraction.regions.is_empty());
    assert!(extraction.warning.is_none());
}

/// The case that ruled out a hand-rolled scanner: a `<script>` in template text is not a block.
#[test]
fn a_script_inside_the_template_is_not_a_block() {
    let source = "<template>\n  <pre><script>alert(1)</script></pre>\n</template>\n\
                  <script setup>\nconst a = 1\n</script>\n";
    let ranges = vue_sfc_extract(source).regions;
    assert_eq!(ranges.len(), 1);
    assert_eq!(ranges[0].start_row, 3);
}

#[test]
fn a_nested_slot_template_does_not_hide_the_real_block() {
    let source = "<template>\n  <MyTable>\n    <template #cell=\"{ row }\">\n      <span>{{ row.id }}</span>\n    </template>\n  </MyTable>\n</template>\n<script setup lang=\"ts\">\nconst a = 1\n</script>\n";
    assert_eq!(vue_sfc_extract(source).regions.len(), 1);
}

/// The host grammar cannot fail spec compilation, so a version that stopped finding blocks would
/// otherwise report zero findings in silence.
#[test]
fn text_that_looks_like_a_script_but_yields_no_block_warns() {
    let extraction = vue_sfc_extract("<template><p/></template>\n<!-- <script setup> was here -->\n");
    assert!(extraction.regions.is_empty());
    assert!(extraction.warning.is_some());
}

#[test]
fn crlf_line_endings_keep_the_row_correct() {
    let source = "<template>\r\n<p/>\r\n</template>\r\n<script setup lang=\"ts\">\r\nconst a = 1\r\n</script>\r\n";
    assert_eq!(vue_sfc_extract(source).regions[0].start_row, 3);
}

/// An unclosed `<template>` reparents the script under an `ERROR` node, two levels down. Matching
/// on the root's direct children would lose the block and score the component zero in silence.
#[test]
fn an_unclosed_template_does_not_hide_the_script_block() {
    let extraction = vue_sfc_extract("<template><div>\n<script setup>\nconst a = 1\n</script>\n");
    assert_eq!(extraction.regions.len(), 1);
    assert!(extraction.warning.is_none());
}

#[test]
fn an_unreadable_component_warns_rather_than_scoring_zero() {
    let extraction =
        vue_sfc_extract("<template><p class=\"x></p></template>\n<script setup>\nconst a = 1\n</script>\n");
    assert!(extraction.regions.is_empty());
    assert!(extraction.warning.is_some());
}

#[test]
fn a_byte_order_mark_keeps_the_row_correct() {
    let source =
        "\u{feff}<template><p/></template>\n<script setup lang=\"ts\">\nconst a = 1\n</script>\n";
    assert_eq!(vue_sfc_extract(source).regions[0].start_row, 1);
}
