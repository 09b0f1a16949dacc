//! The languages a scan reads: what each declares about its grammar, and which files it takes.
use vstd::prelude::*;
use crate::spec::{field_table, kind_table, Dialect, FieldNames, KindSets, LanguageSpec};

verus! {

fn none() -> (r: Vec<&'static str>)
    ensures
        r@ == Seq::<&'static str>::empty(),
{
    Vec::new()
}

/// Go's kind lists, in the order [`kind_table`] takes them.
pub open spec fn go_kind_table() -> Seq<Seq<&'static str>> {
    seq![
        seq!["function_declaration", "method_declaration", "func_literal"],
        Seq::<&'static str>::empty(),
        seq!["func_literal"],
        seq!["if_statement"],
        Seq::<&'static str>::empty(),
        Seq::<&'static str>::empty(),
        seq![
            "for_statement",
            "expression_switch_statement",
            "type_switch_statement",
            "select_statement",
        ],
        seq!["break_statement", "continue_statement"],
        seq!["goto_statement"],
        seq!["binary_expression"],
        seq!["parenthesized_expression"],
        seq!["call_expression"],
        seq!["comment"],
        Seq::<&'static str>::empty(),
        seq!["package_clause"],
    ]
}

/// Go's field names, as [`field_table`] gives them.
pub open spec fn go_field_table() -> (Seq<&'static str>, Option<&'static str>, Seq<&'static str>) {
    (
        seq!["name", "body", "condition", "consequence", "alternative", "left", "right", "operator"],
        None,
        seq!["initializer", "condition", "value", "alias"],
    )
}

/// Go: literals are units, `if_parts` reads the alternative, `goto` costs +1.
pub fn go_spec() -> (r: LanguageSpec)
    ensures
        r.id@ == "go"@,
        r.hooks == Dialect::Go,
        kind_table(r.kinds) == go_kind_table(),
        field_table(r.fields) == go_field_table(),
        r.optional_kinds@ == Seq::<&'static str>::empty(),
{
    proof {
        reveal_strlit("go");
    }
    let r = LanguageSpec {
        id: "go",
        kinds: KindSets {
            unit: vec!["function_declaration", "method_declaration", "func_literal"],
            container: none(),
            nesting_function: vec!["func_literal"],
            if_statement: vec!["if_statement"],
            else_if_clause: none(),
            else_clause: none(),
            nesting_control: vec![
                "for_statement",
                "expression_switch_statement",
                "type_switch_statement",
                "select_statement",
            ],
            jump: vec!["break_statement", "continue_statement"],
            unconditional_jump: vec!["goto_statement"],
            logical: vec!["binary_expression"],
            parenthesis: vec!["parenthesized_expression"],
            call: vec!["call_expression"],
            comment: vec!["comment"],
            leading_trivia: none(),
            preamble: vec!["package_clause"],
        },
        fields: FieldNames {
            name: "name",
            body: "body",
            condition: "condition",
            if_then: "consequence",
            if_alternative: "alternative",
            else_body: None,
            logical_left: "left",
            logical_right: "right",
            logical_operator: "operator",
            control_header: vec!["initializer", "condition", "value", "alias"],
        },
        hooks: Dialect::Go,
        optional_kinds: none(),
    };
    assert(kind_table(r.kinds) =~~= go_kind_table());
    r
}

fn java_units() -> (r: Vec<&'static str>)
    ensures
        r@ == seq![
            "method_declaration",
            "constructor_declaration",
            "compact_constructor_declaration",
            "lambda_expression",
            "static_initializer",
        ],
{
    vec![
        "method_declaration",
        "constructor_declaration",
        "compact_constructor_declaration",
        "lambda_expression",
        "static_initializer",
    ]
}

/// Java's kind lists, in the order [`kind_table`] takes them.
pub open spec fn java_kind_table() -> Seq<Seq<&'static str>> {
    seq![
        seq![
            "method_declaration",
            "constructor_declaration",
            "compact_constructor_declaration",
            "lambda_expression",
            "static_initializer",
        ],
        seq![
            "class_declaration",
            "interface_declaration",
            "enum_declaration",
            "record_declaration",
            "annotation_type_declaration",
            "class_body",
        ],
        seq![
            "method_declaration",
            "constructor_declaration",
            "compact_constructor_declaration",
            "lambda_expression",
            "static_initializer",
        ],
        seq!["if_statement"],
        Seq::<&'static str>::empty(),
        Seq::<&'static str>::empty(),
        seq![
            "ternary_expression",
            "switch_expression",
            "for_statement",
            "enhanced_for_statement",
            "while_statement",
            "do_statement",
            "catch_clause",
        ],
        seq!["break_statement", "continue_statement"],
        Seq::<&'static str>::empty(),
        seq!["binary_expression"],
        seq!["parenthesized_expression"],
        seq!["method_invocation"],
        seq!["line_comment", "block_comment"],
        seq!["modifiers"],
        seq!["package_declaration"],
    ]
}

/// Java's field names, as [`field_table`] gives them.
pub open spec fn java_field_table() -> (Seq<&'static str>, Option<&'static str>, Seq<&'static str>) {
    (
        seq!["name", "body", "condition", "consequence", "alternative", "left", "right", "operator"],
        None,
        seq!["condition", "init", "update", "value"],
    )
}

/// Java: `class_body` is a container too, so an enum constant's body or an anonymous class is
/// named from what holds it.
pub fn java_spec() -> (r: LanguageSpec)
    ensures
        r.id@ == "java"@,
        r.hooks == Dialect::Java,
        kind_table(r.kinds) == java_kind_table(),
        field_table(r.fields) == java_field_table(),
        r.optional_kinds@ == Seq::<&'static str>::empty(),
{
    proof {
        reveal_strlit("java");
    }
    let r = LanguageSpec {
        id: "java",
        kinds: KindSets {
            unit: java_units(),
            container: vec![
                "class_declaration",
                "interface_declaration",
                "enum_declaration",
                "record_declaration",
                "annotation_type_declaration",
                "class_body",
            ],
            nesting_function: java_units(),
            if_statement: vec!["if_statement"],
            else_if_clause: none(),
            else_clause: none(),
            nesting_control: vec![
                "ternary_expression",
                "switch_expression",
                "for_statement",
                "enhanced_for_statement",
                "while_statement",
                "do_statement",
                "catch_clause",
            ],
            jump: vec!["break_statement", "continue_statement"],
            unconditional_jump: none(),
            logical: vec!["binary_expression"],
            parenthesis: vec!["parenthesized_expression"],
            call: vec!["method_invocation"],
            comment: vec!["line_comment", "block_comment"],
            leading_trivia: vec!["modifiers"],
            preamble: vec!["package_declaration"],
        },
        fields: FieldNames {
            name: "name",
            body: "body",
            condition: "condition",
            if_then: "consequence",
            if_alternative: "alternative",
            else_body: None,
            logical_left: "left",
            logical_right: "right",
            logical_operator: "operator",
            control_header: vec!["condition", "init", "update", "value"],
        },
        hooks: Dialect::Java,
        optional_kinds: none(),
    };
    assert(kind_table(r.kinds) =~~= java_kind_table());
    r
}

fn php_units() -> (r: Vec<&'static str>)
    ensures
        r@ == seq![
            "function_definition",
            "method_declaration",
            "anonymous_function",
            "anonymous_function_creation_expression",
            "arrow_function",
        ],
{
    vec![
        "function_definition",
        "method_declaration",
        "anonymous_function",
        "anonymous_function_creation_expression",
        "arrow_function",
    ]
}

/// PHP's kind lists, in the order [`kind_table`] takes them.
pub open spec fn php_kind_table() -> Seq<Seq<&'static str>> {
    seq![
        seq![
            "function_definition",
            "method_declaration",
            "anonymous_function",
            "anonymous_function_creation_expression",
            "arrow_function",
        ],
        seq!["class_declaration", "interface_declaration", "trait_declaration", "enum_declaration"],
        seq![
            "function_definition",
            "method_declaration",
            "anonymous_function",
            "anonymous_function_creation_expression",
            "arrow_function",
        ],
        seq!["if_statement"],
        seq!["else_if_clause"],
        seq!["else_clause"],
        seq![
            "conditional_expression",
            "switch_statement",
            "match_expression",
            "for_statement",
            "foreach_statement",
            "while_statement",
            "do_statement",
            "catch_clause",
        ],
        seq!["break_statement", "continue_statement"],
        seq!["goto_statement"],
        seq!["binary_expression"],
        seq!["parenthesized_expression"],
        seq!["function_call_expression", "member_call_expression", "scoped_call_expression"],
        seq!["comment"],
        seq!["attribute_list"],
        seq!["php_tag"],
    ]
}

/// PHP's field names, as [`field_table`] gives them.
pub open spec fn php_field_table() -> (Seq<&'static str>, Option<&'static str>, Seq<&'static str>) {
    (
        seq!["name", "body", "condition", "body", "alternative", "left", "right", "operator"],
        Some("body"),
        seq!["condition", "initialize", "update"],
    )
}

/// PHP: a closure at file scope is a unit like a `function`, so a routes file scores per route.
pub fn php_spec() -> (r: LanguageSpec)
    ensures
        r.id@ == "php"@,
        r.hooks == Dialect::Php,
        kind_table(r.kinds) == php_kind_table(),
        field_table(r.fields) == php_field_table(),
        r.optional_kinds@ == seq!["anonymous_function_creation_expression"],
{
    proof {
        reveal_strlit("php");
    }
    let r = LanguageSpec {
        id: "php",
        kinds: KindSets {
            unit: php_units(),
            container: vec![
                "class_declaration",
                "interface_declaration",
                "trait_declaration",
                "enum_declaration",
            ],
            nesting_function: php_units(),
            if_statement: vec!["if_statement"],
            else_if_clause: vec!["else_if_clause"],
            else_clause: vec!["else_clause"],
            nesting_control: vec![
                "conditional_expression",
                "switch_statement",
                "match_expression",
                "for_statement",
                "foreach_statement",
                "while_statement",
                "do_statement",
                "catch_clause",
            ],
            jump: vec!["break_statement", "continue_statement"],
            unconditional_jump: vec!["goto_statement"],
            logical: vec!["binary_expression"],
            parenthesis: vec!["parenthesized_expression"],
            call: vec!["function_call_expression", "member_call_expression", "scoped_call_expression"],
            comment: vec!["comment"],
            leading_trivia: vec!["attribute_list"],
            preamble: vec!["php_tag"],
        },
        fields: FieldNames {
            name: "name",
            body: "body",
            condition: "condition",
            if_then: "body",
            if_alternative: "alternative",
            else_body: Some("body"),
            logical_left: "left",
            logical_right: "right",
            logical_operator: "operator",
            control_header: vec!["condition", "initialize", "update"],
        },
        hooks: Dialect::Php,
        optional_kinds: vec!["anonymous_function_creation_expression"],
    };
    assert(kind_table(r.kinds) =~~= php_kind_table());
    r
}

/// Python's kind lists, in the order [`kind_table`] takes them.
pub open spec fn python_kind_table() -> Seq<Seq<&'static str>> {
    seq![
        seq!["function_definition", "lambda"],
        seq!["class_definition"],
        seq![
            "function_definition",
            "lambda",
            "list_comprehension",
            "set_comprehension",
            "dictionary_comprehension",
            "generator_expression",
        ],
        seq!["if_statement"],
        seq!["elif_clause"],
        seq!["else_clause"],
        seq![
            "conditional_expression",
            "match_statement",
            "for_statement",
            "while_statement",
            "except_clause",
        ],
        Seq::<&'static str>::empty(),
        Seq::<&'static str>::empty(),
        seq!["boolean_operator"],
        seq!["parenthesized_expression"],
        seq!["call"],
        seq!["comment"],
        seq!["decorator"],
        Seq::<&'static str>::empty(),
    ]
}

/// Python's field names, as [`field_table`] gives them.
pub open spec fn python_field_table() -> (Seq<&'static str>, Option<&'static str>, Seq<&'static str>) {
    (
        seq!["name", "body", "condition", "consequence", "alternative", "left", "right", "operator"],
        Some("body"),
        Seq::<&'static str>::empty(),
    )
}

/// Python: a comprehension has a scope of its own, so it nests like a closure without ever
/// being a unit; there are no labels, so `break` and `continue` are always free.
pub fn python_spec() -> (r: LanguageSpec)
    ensures
        r.id@ == "python"@,
        r.hooks == Dialect::Python,
        kind_table(r.kinds) == python_kind_table(),
        field_table(r.fields) == python_field_table(),
        r.optional_kinds@ == Seq::<&'static str>::empty(),
{
    proof {
        reveal_strlit("python");
    }
    let r = LanguageSpec {
        id: "python",
        kinds: KindSets {
            unit: vec!["function_definition", "lambda"],
            container: vec!["class_definition"],
            nesting_function: vec![
                "function_definition",
                "lambda",
                "list_comprehension",
                "set_comprehension",
                "dictionary_comprehension",
                "generator_expression",
            ],
            if_statement: vec!["if_statement"],
            else_if_clause: vec!["elif_clause"],
            else_clause: vec!["else_clause"],
            nesting_control: vec![
                "conditional_expression",
                "match_statement",
                "for_statement",
                "while_statement",
                "except_clause",
            ],
            jump: none(),
            unconditional_jump: none(),
            logical: vec!["boolean_operator"],
            parenthesis: vec!["parenthesized_expression"],
            call: vec!["call"],
            comment: vec!["comment"],
            leading_trivia: vec!["decorator"],
            preamble: none(),
        },
        fields: FieldNames {
            name: "name",
            body: "body",
            condition: "condition",
            if_then: "consequence",
            if_alternative: "alternative",
            else_body: Some("body"),
            logical_left: "left",
            logical_right: "right",
            logical_operator: "operator",
            control_header: none(),
        },
        hooks: Dialect::Python,
        optional_kinds: none(),
    };
    assert(kind_table(r.kinds) =~~= python_kind_table());
    r
}

fn typescript_units() -> (r: Vec<&'static str>)
    ensures
        r@ == seq![
            "function_declaration",
            "generator_function_declaration",
            "function_expression",
            "generator_function",
            "arrow_function",
            "method_definition",
            "class_static_block",
        ],
{
    vec![
        "function_declaration",
        "generator_function_declaration",
        "function_expression",
        "generator_function",
        "arrow_function",
        "method_definition",
        "class_static_block",
    ]
}

/// TypeScript's kind lists, in the order [`kind_table`] takes them.
pub open spec fn typescript_kind_table() -> Seq<Seq<&'static str>> {
    seq![
        seq![
            "function_declaration",
            "generator_function_declaration",
            "function_expression",
            "generator_function",
            "arrow_function",
            "method_definition",
            "class_static_block",
        ],
        seq![
            "class_declaration",
            "abstract_class_declaration",
            "class",
            "interface_declaration",
            "enum_declaration",
            "internal_module",
            "module",
            "object",
        ],
        seq![
            "function_declaration",
            "generator_function_declaration",
            "function_expression",
            "generator_function",
            "arrow_function",
            "method_definition",
            "class_static_block",
        ],
        seq!["if_statement"],
        Seq::<&'static str>::empty(),
        seq!["else_clause"],
        seq![
            "ternary_expression",
            "switch_statement",
            "for_statement",
            "for_in_statement",
            "while_statement",
            "do_statement",
            "catch_clause",
        ],
        seq!["break_statement", "continue_statement"],
        Seq::<&'static str>::empty(),
        seq!["binary_expression"],
        seq!["parenthesized_expression"],
        seq!["call_expression"],
        seq!["comment"],
        seq!["decorator"],
        seq!["hash_bang_line"],
    ]
}

/// TypeScript's field names, as [`field_table`] gives them.
pub open spec fn typescript_field_table() -> (Seq<&'static str>, Option<&'static str>, Seq<&'static str>) {
    (
        seq!["name", "body", "condition", "consequence", "alternative", "left", "right", "operator"],
        None,
        seq!["condition", "value", "initializer", "increment", "left", "right"],
    )
}

/// TypeScript and TSX differ only by nodes the scorer never names, so one spec serves both;
/// the id is a parameter because an embedded dialect reuses these kinds under its own name.
/// Bodyless declarations (signatures, `function_type`) are type-level and no units.
pub fn typescript_spec(id: &'static str) -> (r: LanguageSpec)
    ensures
        r.id == id,
        r.hooks == Dialect::TypeScript,
        kind_table(r.kinds) == typescript_kind_table(),
        field_table(r.fields) == typescript_field_table(),
        r.optional_kinds@ == Seq::<&'static str>::empty(),
{
    let r = LanguageSpec {
        id,
        kinds: KindSets {
            unit: typescript_units(),
            container: vec![
                "class_declaration",
                "abstract_class_declaration",
                "class",
                "interface_declaration",
                "enum_declaration",
                "internal_module",
                "module",
                "object",
            ],
            nesting_function: typescript_units(),
            if_statement: vec!["if_statement"],
            else_if_clause: none(),
            else_clause: vec!["else_clause"],
            nesting_control: vec![
                "ternary_expression",
                "switch_statement",
                "for_statement",
                "for_in_statement",
                "while_statement",
                "do_statement",
                "catch_clause",
            ],
            jump: vec!["break_statement", "continue_statement"],
            unconditional_jump: none(),
            logical: vec!["binary_expression"],
            parenthesis: vec!["parenthesized_expression"],
            call: vec!["call_expression"],
            comment: vec!["comment"],
            leading_trivia: vec!["decorator"],
            preamble: vec!["hash_bang_line"],
        },
        fields: FieldNames {
            name: "name",
            body: "body",
            condition: "condition",
            if_then: "consequence",
            if_alternative: "alternative",
            else_body: None,
            logical_left: "left",
            logical_right: "right",
            logical_operator: "operator",
            control_header: vec!["condition", "value", "initializer", "increment", "left", "right"],
        },
        hooks: Dialect::TypeScript,
        optional_kinds: none(),
    };
    assert(kind_table(r.kinds) =~~= typescript_kind_table());
    r
}

} // verus!
