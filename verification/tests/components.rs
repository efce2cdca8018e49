//! The building blocks of pruning and printing, on concrete values.

use graphql_drop_unused_definitions::ast::{
    Definition, Document, FragmentDefinition, Operation, OperationDefinition, Selection,
    SelectionSet, FragmentSpread, Field,
};
use graphql_drop_unused_definitions::block_strings::block_strings_are_safe;
use graphql_drop_unused_definitions::escape::canonical_string;
use graphql_drop_unused_definitions::printing::{
    prepare_for_printing, restore_placeholders, shorthand_if_bare_query, StringTable,
};
use graphql_drop_unused_definitions::reach::{collect_transitive, fragment_spreads_of};
use graphql_drop_unused_definitions::spreads::{collect_spread_names, name_of, selection_set_of};
use graphql_drop_unused_definitions::text::{
    chars_of, contains_name, find_in, push_decimal, str_eq, trimmed_len,
};
use graphql_drop_unused_definitions::{parse, print, try_print};

fn sorted(mut v: Vec<&str>) -> Vec<&str> {
    v.sort();
    v
}

fn spread(name: &str) -> Selection {
    Selection::FragmentSpread(FragmentSpread { fragment_name: name.to_string(), directives: vec![] })
}

fn field(name: &str, items: Vec<Selection>) -> Selection {
    Selection::Field(Field {
        alias: None,
        name: name.to_string(),
        arguments: vec![],
        directives: vec![],
        selection_set: SelectionSet { items },
    })
}

#[test]
fn canonical_string_short_escapes() {
    assert_eq!(canonical_string("a\"b\\c"), "\"a\\\"b\\\\c\"");
    assert_eq!(canonical_string("\u{8}\t\n\u{C}\r"), "\"\\b\\t\\n\\f\\r\"");
    assert_eq!(canonical_string(""), "\"\"");
}

#[test]
fn canonical_string_unicode_escapes_are_uppercase() {
    assert_eq!(canonical_string("\u{1}"), "\"\\u0001\"");
    assert_eq!(canonical_string("\u{1F}"), "\"\\u001F\"");
    assert_eq!(canonical_string("\u{7F}"), "\"\\u007F\"");
    assert_eq!(canonical_string("\u{9F}"), "\"\\u009F\"");
    assert_eq!(canonical_string("\u{A0}"), "\"\u{A0}\"");
}

#[test]
fn canonical_string_keeps_other_characters() {
    assert_eq!(canonical_string("é 黑 👨‍👩‍👧"), "\"é 黑 👨‍👩‍👧\"");
    assert_eq!(canonical_string(" ~"), "\" ~\"");
}

#[test]
fn canonical_string_is_single_line() {
    let out = canonical_string("line1\nline2\r\n\u{0}");
    assert!(!out.contains('\n'));
    assert!(out.chars().all(|c| (c as u32) >= 0x20));
    assert!(out.starts_with('"') && out.ends_with('"'));
}

#[test]
fn string_table_interns_in_order() {
    let mut table = StringTable::new();
    assert_eq!(table.intern("first".to_string()), "__GQL_STRING_PLACEHOLDER_0__");
    assert_eq!(table.intern("second".to_string()), "__GQL_STRING_PLACEHOLDER_1__");
    for _ in 2..12 {
        table.intern("x".to_string());
    }
    assert_eq!(table.intern("last".to_string()), "__GQL_STRING_PLACEHOLDER_12__");
    let entries = table.entries();
    assert_eq!(entries.len(), 13);
    assert_eq!(entries[0], ("__GQL_STRING_PLACEHOLDER_0__", "first"));
    assert_eq!(entries[1], ("__GQL_STRING_PLACEHOLDER_1__", "second"));
    assert_eq!(entries[12], ("__GQL_STRING_PLACEHOLDER_12__", "last"));
}

#[test]
fn restore_placeholders_swaps_in_order() {
    let mut table = StringTable::new();
    table.intern("a\nb".to_string());
    table.intern("c".to_string());
    let text = "f(x: \"__GQL_STRING_PLACEHOLDER_0__\", y: \"__GQL_STRING_PLACEHOLDER_1__\")\n\n";
    assert_eq!(
        restore_placeholders(text, &table),
        Some("f(x: \"a\\nb\", y: \"c\")".to_string())
    );
}

#[test]
fn restore_placeholders_leaves_later_lookalike() {
    // The second value's text is the first placeholder: the forward pass
    // never rescans what it already wrote.
    let mut table = StringTable::new();
    table.intern("v".to_string());
    table.intern("__GQL_STRING_PLACEHOLDER_0__".to_string());
    let text = "\"__GQL_STRING_PLACEHOLDER_0__\" \"__GQL_STRING_PLACEHOLDER_1__\"";
    assert_eq!(
        restore_placeholders(text, &table),
        Some("\"v\" \"__GQL_STRING_PLACEHOLDER_0__\"".to_string())
    );
}

#[test]
fn restore_placeholders_missing_placeholder_is_none() {
    let mut table = StringTable::new();
    table.intern("v".to_string());
    assert_eq!(restore_placeholders("no placeholder here", &table), None);
    // Out of order placeholders are not found by the forward pass.
    table.intern("w".to_string());
    let text = "\"__GQL_STRING_PLACEHOLDER_1__\" \"__GQL_STRING_PLACEHOLDER_0__\"";
    assert_eq!(restore_placeholders(text, &table), None);
}

#[test]
fn restore_placeholders_without_table_trims_newlines() {
    let table = StringTable::new();
    assert_eq!(restore_placeholders("query Q {\n  x\n}\n\n", &table), Some("query Q {\n  x\n}".to_string()));
    assert_eq!(restore_placeholders("\n\n", &table), Some(String::new()));
}

#[test]
fn collect_transitive_follows_cycles_and_dangling_names() {
    let graph: Vec<(&str, Vec<&str>)> = vec![
        ("A", vec!["B"]),
        ("B", vec!["A", "C", "Missing"]),
        ("D", vec!["E"]),
    ];
    let mut collected: Vec<&str> = Vec::new();
    collect_transitive(&mut collected, &graph, "A");
    assert_eq!(sorted(collected.clone()), vec!["A", "B", "C", "Missing"]);
    // A second root adds only what it newly reaches.
    collect_transitive(&mut collected, &graph, "D");
    assert_eq!(sorted(collected), vec!["A", "B", "C", "D", "E", "Missing"]);
}

#[test]
fn collect_transitive_follows_every_fragment_of_a_name() {
    let graph: Vec<(&str, Vec<&str>)> = vec![("F", vec!["X"]), ("F", vec!["Y"])];
    let mut collected: Vec<&str> = Vec::new();
    collect_transitive(&mut collected, &graph, "F");
    assert_eq!(sorted(collected), vec!["F", "X", "Y"]);
    assert_eq!(fragment_spreads_of(&graph, "F"), vec!["X", "Y"]);
    assert!(fragment_spreads_of(&graph, "G").is_empty());
}

#[test]
fn collect_transitive_walks_past_names_already_collected() {
    let graph: Vec<(&str, Vec<&str>)> = vec![("A", vec!["B"]), ("B", vec!["C"])];
    let mut collected: Vec<&str> = vec!["B"];
    collect_transitive(&mut collected, &graph, "A");
    assert_eq!(collected, vec!["B", "A", "C"]);
}

#[test]
fn collect_transitive_adds_an_undefined_name() {
    let graph: Vec<(&str, Vec<&str>)> = vec![("A", vec!["B"])];
    let mut collected: Vec<&str> = vec!["A"];
    collect_transitive(&mut collected, &graph, "Missing");
    assert_eq!(collected, vec!["A", "Missing"]);
}

#[test]
fn collect_transitive_second_call_changes_nothing() {
    let graph: Vec<(&str, Vec<&str>)> = vec![("A", vec!["B", "C"]), ("C", vec!["A"])];
    let mut collected: Vec<&str> = vec!["Z"];
    collect_transitive(&mut collected, &graph, "A");
    let first = collected.clone();
    collect_transitive(&mut collected, &graph, "A");
    assert_eq!(collected, first);
    assert_eq!(sorted(first), vec!["A", "B", "C", "Z"]);
}

#[test]
fn spread_names_depth_first_with_repeats() {
    let set = SelectionSet {
        items: vec![
            spread("A"),
            field("obj", vec![spread("B"), field("inner", vec![spread("C")])]),
            spread("A"),
        ],
    };
    assert_eq!(collect_spread_names(&set), vec!["A", "B", "C", "A"]);
}

#[test]
fn name_of_keys_anonymous_operations_by_empty_string() {
    let empty = SelectionSet { items: vec![] };
    let shorthand = OperationDefinition::SelectionSet(SelectionSet { items: vec![] });
    assert_eq!(name_of(&shorthand), "");
    let op = |name: Option<&str>| Operation {
        name: name.map(|n| n.to_string()),
        variable_definitions: vec![],
        directives: vec![],
        selection_set: SelectionSet { items: vec![spread("S")] },
    };
    assert_eq!(name_of(&OperationDefinition::Query(op(None))), "");
    assert_eq!(name_of(&OperationDefinition::Query(op(Some("Q")))), "Q");
    assert_eq!(name_of(&OperationDefinition::Mutation(op(Some("M")))), "M");
    assert_eq!(name_of(&OperationDefinition::Subscription(op(Some("S")))), "S");
    let sub = OperationDefinition::Subscription(op(Some("S")));
    assert_eq!(selection_set_of(&sub).items.len(), 1);
    assert!(selection_set_of(&shorthand).items.is_empty());
    assert!(empty.items.is_empty());
}

#[test]
fn shorthand_only_for_bare_queries() {
    let bare = parse("query { a }").unwrap().definitions.remove(0);
    assert!(matches!(
        shorthand_if_bare_query(bare),
        Definition::Operation(OperationDefinition::SelectionSet(_))
    ));
    let named = parse("query N { a }").unwrap().definitions.remove(0);
    assert!(matches!(
        shorthand_if_bare_query(named),
        Definition::Operation(OperationDefinition::Query(_))
    ));
    let with_directive = parse("query @d { a }").unwrap().definitions.remove(0);
    assert!(matches!(
        shorthand_if_bare_query(with_directive),
        Definition::Operation(OperationDefinition::Query(_))
    ));
    let mutation = parse("mutation { a }").unwrap().definitions.remove(0);
    assert!(matches!(
        shorthand_if_bare_query(mutation),
        Definition::Operation(OperationDefinition::Mutation(_))
    ));
}

#[test]
fn prepare_for_printing_interns_every_string_in_order() {
    let doc = parse(
        "query Q($v: String = \"d\") @dir(a: \"1\") { f(x: [\"2\", {k: \"3\"}]) @g(b: \"4\") { ... on T @h(c: \"5\") { ...F } } }\n\
         fragment F on T @i(e: \"6\") { y }",
    )
    .unwrap();
    let (prepared, table) = prepare_for_printing(&doc);
    let values: Vec<&str> = table.entries().iter().map(|e| e.1).collect();
    assert_eq!(values, vec!["d", "1", "2", "3", "4", "5", "6"]);
    assert_eq!(prepared.definitions.len(), 2);
    assert_eq!(print(&prepared).matches("__GQL_STRING_PLACEHOLDER_").count(), 7);
}

#[test]
fn text_helpers() {
    assert!(str_eq("abc", "abc"));
    assert!(!str_eq("abc", "abd"));
    assert!(contains_name(&vec!["x", "y"], "y"));
    assert!(!contains_name(&vec!["x", "y"], "z"));
    let chars = chars_of("a\"b\"c\n\n");
    assert_eq!(chars.len(), 7);
    assert_eq!(trimmed_len(&chars), 5);
    let needle = chars_of("\"b\"");
    assert_eq!(find_in(&chars, 0, 5, &needle), Some(1));
    assert_eq!(find_in(&chars, 2, 5, &needle), None);
    let mut s = String::from("n=");
    push_decimal(&mut s, 0);
    push_decimal(&mut s, 907);
    assert_eq!(s, "n=0907");
}

#[test]
fn parse_rejects_with_a_message() {
    let err = parse("query {").unwrap_err();
    assert!(!err.message().is_empty());
    assert!(parse("{ field }").is_ok());
}

#[test]
fn parse_error_message_depends_on_the_source_alone() {
    let first = parse("query {").unwrap_err();
    let second = parse("query {").unwrap_err();
    assert_eq!(first.message(), second.message());
}

#[test]
fn block_strings_with_wide_indentation_are_unsafe() {
    assert!(!block_strings_are_safe("{ f(a: \"\"\"\n x\n\u{A0}y\"\"\") }"));
    assert!(!block_strings_are_safe("\"\"\"\u{3000}"));
    assert!(!block_strings_are_safe("\"\"\"\u{2005}"));
    // An escaped `\"""` does not close the block string.
    assert!(!block_strings_are_safe("{ f(a: \"\"\"a\\\"\"\"\u{A0}b\"\"\") }"));
}

#[test]
fn block_strings_with_ascii_indentation_are_safe() {
    let src = "{ f(a: \"\"\"\n  x\n  y\"\"\") }";
    assert!(block_strings_are_safe(src));
    assert!(block_strings_are_safe(""));
    assert!(block_strings_are_safe("{ a }\u{A0}"));
    assert!(block_strings_are_safe("\"\"\u{A0}\""));
    // Outside a block string's body, non-ASCII whitespace is fine.
    assert!(block_strings_are_safe("{ f(a: \"\"\"x\"\"\", b: \"\u{A0}\") }"));
    assert!(block_strings_are_safe("# \"\"\" \u{A0}\n{ a }"));
    assert!(block_strings_are_safe("{ f(a: \"\\\"\\\"\\\"\", b: \"\u{A0}\") }"));
    let doc = parse(src).unwrap();
    assert_eq!(print(&doc), "{\n  f(a: \"x\\ny\")\n}");
}

#[test]
fn parse_accepts_wide_whitespace_outside_block_strings() {
    let src = "{ f(a: \"\"\"x\"\"\", b: \"\u{A0}\") }";
    assert!(block_strings_are_safe(src));
    let doc = parse(src).unwrap();
    assert_eq!(print(&doc), "{\n  f(a: \"x\", b: \"\u{A0}\")\n}");
}

#[test]
fn anonymous_subscription_variables_are_not_printed() {
    let doc = parse("subscription ($a: String = \"x\") { f }").unwrap();
    assert!(try_print(&doc).is_none());
    let doc = parse("subscription S($a: String = \"x\") { f }").unwrap();
    assert_eq!(try_print(&doc).unwrap(), "subscription S($a: String = \"x\") {\n  f\n}");
}

#[test]
fn parse_builds_the_document_model() {
    let doc = parse("query Q($n: [Int!]) { a: f(x: 1, y: 2.5, z: ENUM, w: null, v: $n, u: true) ...S }\nfragment S on T { b }").unwrap();
    assert_eq!(doc.definitions.len(), 2);
    match &doc.definitions[0] {
        Definition::Operation(OperationDefinition::Query(q)) => {
            assert_eq!(q.name.as_deref(), Some("Q"));
            assert_eq!(q.variable_definitions.len(), 1);
            assert_eq!(q.selection_set.items.len(), 2);
        }
        other => panic!("unexpected definition {:?}", other),
    }
    match &doc.definitions[1] {
        Definition::Fragment(FragmentDefinition { name, type_condition, .. }) => {
            assert_eq!(name, "S");
            assert_eq!(type_condition, "T");
        }
        other => panic!("unexpected definition {:?}", other),
    }
}

#[test]
fn printing_round_trips_scalars_and_types() {
    let src = "query Q($n: [Int!]! = [1]) {\n  a: f(x: 1, y: 2.5, z: ENUM, w: null, v: $n, u: true, o: {b: 1, a: \"s\"})\n}";
    let doc = parse(src).unwrap();
    // Object fields come back in key order.
    assert_eq!(
        print(&doc),
        "query Q($n: [Int!]! = [1]) {\n  a: f(x: 1, y: 2.5, z: ENUM, w: null, v: $n, u: true, o: {a: \"s\", b: 1})\n}"
    );
    assert_eq!(try_print(&doc), Some(print(&doc)));
}

#[test]
fn duplicate_keeps_the_printed_document() {
    let doc = parse("query Q { f(a: \"x\") ...F }\nfragment F on T { g(b: 3) }").unwrap();
    let copy = doc.duplicate();
    assert_eq!(print(&copy), print(&doc));
    let empty = Document { definitions: vec![] };
    assert_eq!(print(&empty), "");
}
