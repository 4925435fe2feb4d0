use namecheap::naming::convert_camel_to_snake;
use namecheap::node::Node;
use namecheap::numbers::parse_i64_text;
use namecheap::paging::extract_pagination_info;
use namecheap::parse_value::{parse_bool, parse_i64, parse_string, text_at};
use namecheap::xml_parser::parse_xml_to_json;

fn obj(entries: Vec<(&str, Node)>) -> Node {
    Node::Object(entries.into_iter().map(|(k, v)| (k.to_string(), v)).collect())
}

fn text(s: &str) -> Node {
    Node::Scalar(s.to_string())
}

fn leaf(s: &str) -> Node {
    obj(vec![("$text", text(s))])
}

#[test]
fn normalizer_splits_words_and_keeps_capital_runs_together() {
    assert_eq!(convert_camel_to_snake("HTTPServer"), "httpserver");
    assert_eq!(convert_camel_to_snake("MXPref"), "mxpref");
    assert_eq!(convert_camel_to_snake("FirstName"), "first_name");
    assert_eq!(convert_camel_to_snake("id"), "id");
    assert_eq!(convert_camel_to_snake("IsOurDNS"), "is_our_dns");
    assert_eq!(convert_camel_to_snake("ID"), "id");
    assert_eq!(convert_camel_to_snake(""), "");
}

#[test]
fn normalizer_leaves_lower_case_input_alone() {
    for s in ["already_snake", "x", "domain_id2", "with space"] {
        assert_eq!(convert_camel_to_snake(s), s);
        assert_eq!(convert_camel_to_snake(&convert_camel_to_snake(s)), convert_camel_to_snake(s));
    }
}

#[test]
fn normalizing_ascii_twice_changes_nothing() {
    for s in ["HTTPServer", "FirstName", "IsOurDNS", "a_B", "X", "mixed_Case99Name"] {
        let once = convert_camel_to_snake(s);
        assert_eq!(convert_camel_to_snake(&once), once);
    }
}

#[test]
fn string_reads_both_leaf_shapes() {
    let node = obj(vec![("Name", leaf("alice")), ("id", text("7")), ("List", Node::Array(vec![]))]);
    assert_eq!(parse_string(&node, "Name", "-"), "alice");
    assert_eq!(parse_string(&node, "id", "-"), "7");
    assert_eq!(parse_string(&node, "List", "-"), "-");
    assert_eq!(parse_string(&node, "Missing", "-"), "-");
    assert_eq!(parse_string(&text("x"), "Name", "-"), "-");
    assert_eq!(text_at(&node, "Name"), Some("alice"));
    assert_eq!(text_at(&node, "Missing"), None);
}

#[test]
fn string_of_object_without_text_is_default() {
    let node = obj(vec![("Inner", obj(vec![("x", text("1"))])), ("Odd", obj(vec![("$text", obj(vec![]))]))]);
    assert_eq!(parse_string(&node, "Inner", "d"), "d");
    assert_eq!(parse_string(&node, "Odd", "d"), "d");
}

#[test]
fn bool_compares_with_the_true_literal() {
    let node = obj(vec![("is_locked", text("true")), ("whois_guard", leaf("ENABLED")), ("upper", text("TRUE"))]);
    assert!(parse_bool(&node, "is_locked", "false", "true"));
    assert!(parse_bool(&node, "whois_guard", "NOTPRESENT", "ENABLED"));
    assert!(!parse_bool(&node, "upper", "false", "true"));
    assert!(!parse_bool(&node, "missing", "false", "true"));
    assert!(parse_bool(&node, "missing", "true", "true"));
}

#[test]
fn int_reads_decimal_text() {
    let node = obj(vec![
        ("a", text("42")),
        ("b", leaf("-17")),
        ("c", text("+5")),
        ("min", text("-9223372036854775808")),
        ("max", text("9223372036854775807")),
    ]);
    assert_eq!(parse_i64(&node, "a", 0), 42);
    assert_eq!(parse_i64(&node, "b", 0), -17);
    assert_eq!(parse_i64(&node, "c", 0), 5);
    assert_eq!(parse_i64(&node, "min", 0), i64::MIN);
    assert_eq!(parse_i64(&node, "max", 0), i64::MAX);
}

#[test]
fn int_falls_back_to_the_callers_default() {
    let node = obj(vec![
        ("word", text("abc")),
        ("over", text("9223372036854775808")),
        ("empty", text("")),
        ("sign", text("-")),
        ("spaced", text(" 1")),
    ]);
    for key in ["word", "over", "empty", "sign", "spaced", "missing"] {
        assert_eq!(parse_i64(&node, key, 99), 99);
        assert_eq!(parse_i64(&node, key, -3), -3);
    }
    assert_eq!(parse_i64(&node, "word", 0), 0);
}

#[test]
fn decimal_text_is_read_exactly() {
    assert_eq!(parse_i64_text("0"), Some(0));
    assert_eq!(parse_i64_text("-0"), Some(0));
    assert_eq!(parse_i64_text("007"), Some(7));
    assert_eq!(parse_i64_text("-9223372036854775809"), None);
    assert_eq!(parse_i64_text("12a"), None);
    assert_eq!(parse_i64_text("+"), None);
}

#[test]
fn pagination_without_a_block_is_all_defaults() {
    assert_eq!(extract_pagination_info(None), (1, 21, 0, 0));
}

#[test]
fn pagination_reads_the_block() {
    let paging = obj(vec![("CurrentPage", leaf("2")), ("PageSize", leaf("10")), ("TotalItems", leaf("25"))]);
    assert_eq!(extract_pagination_info(Some(&paging)), (2, 10, 25, 3));
}

#[test]
fn pagination_from_a_parsed_block() {
    let tree = parse_xml_to_json(
        "<Paging><TotalItems>40</TotalItems><CurrentPage>1</CurrentPage><PageSize>20</PageSize></Paging>",
    )
    .unwrap();
    let paging = tree.get("Paging").unwrap();
    assert_eq!(extract_pagination_info(Some(paging)), (1, 20, 40, 2));
}

#[test]
fn pagination_edge_cases() {
    let zero = obj(vec![("PageSize", leaf("0")), ("TotalItems", leaf("25"))]);
    assert_eq!(extract_pagination_info(Some(&zero)), (1, 0, 25, 0));
    let negative = obj(vec![("PageSize", leaf("10")), ("TotalItems", leaf("-15"))]);
    assert_eq!(extract_pagination_info(Some(&negative)), (1, 10, -15, -1));
    let bare = obj(vec![("CurrentPage", text("4")), ("PageSize", leaf("x"))]);
    assert_eq!(extract_pagination_info(Some(&bare)), (1, 21, 0, 0));
    let exact = obj(vec![("TotalItems", leaf("42"))]);
    assert_eq!(extract_pagination_info(Some(&exact)), (1, 21, 42, 2));
    let big = obj(vec![("PageSize", leaf("1")), ("TotalItems", leaf("9223372036854775807"))]);
    assert_eq!(extract_pagination_info(Some(&big)), (1, 1, i64::MAX, i64::MAX));
}
