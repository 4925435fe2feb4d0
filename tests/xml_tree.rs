use namecheap::node::Node;
use namecheap::xml_parser::{build_tree, parse_xml_to_json, TreeBuilder, XmlError, XmlToken};

fn obj(entries: Vec<(&str, Node)>) -> Node {
    Node::Object(entries.into_iter().map(|(k, v)| (k.to_string(), v)).collect())
}

fn text(s: &str) -> Node {
    Node::Scalar(s.to_string())
}

fn leaf(s: &str) -> Node {
    obj(vec![("$text", text(s))])
}

#[test]
fn repeated_siblings_become_an_array() {
    let tree = parse_xml_to_json("<a><b>1</b><b>2</b></a>").unwrap();
    let expected = obj(vec![("a", obj(vec![("b", Node::Array(vec![leaf("1"), leaf("2")]))]))]);
    assert_eq!(tree, expected);
}

#[test]
fn third_sibling_is_appended() {
    let tree = parse_xml_to_json("<a><b/><b/><b>z</b></a>").unwrap();
    let expected = obj(vec![(
        "a",
        obj(vec![("b", Node::Array(vec![obj(vec![]), obj(vec![]), leaf("z")]))]),
    )]);
    assert_eq!(tree, expected);
}

#[test]
fn attribute_is_normalized_and_child_kept() {
    let tree = parse_xml_to_json("<a Id=\"5\"><b>x</b></a>").unwrap();
    let expected = obj(vec![("a", obj(vec![("id", text("5")), ("b", leaf("x"))]))]);
    assert_eq!(tree, expected);
}

#[test]
fn empty_element_is_an_empty_object() {
    let tree = parse_xml_to_json("<a></a>").unwrap();
    assert_eq!(tree, obj(vec![("a", obj(vec![]))]));
}

#[test]
fn whitespace_text_is_dropped() {
    let tree = parse_xml_to_json("<a>   \n  </a>").unwrap();
    assert_eq!(tree, obj(vec![("a", obj(vec![]))]));
}

#[test]
fn text_is_trimmed() {
    let tree = parse_xml_to_json("<a>  hello world </a>").unwrap();
    assert_eq!(tree, obj(vec![("a", leaf("hello world"))]));
}

#[test]
fn child_replaces_attribute_of_same_name() {
    let tree = parse_xml_to_json("<a b=\"1\"><b>2</b></a>").unwrap();
    assert_eq!(tree, obj(vec![("a", obj(vec![("b", leaf("2"))]))]));
}

#[test]
fn comments_are_ignored() {
    let tree = parse_xml_to_json("<a><!-- note --><b>1</b></a>").unwrap();
    assert_eq!(tree, obj(vec![("a", obj(vec![("b", leaf("1"))]))]));
}

#[test]
fn nested_document_with_declaration() {
    let doc = "<?xml version=\"1.0\" encoding=\"utf-8\"?>\n<ApiResponse Status=\"OK\">\n  <Errors />\n  <CommandResponse Type=\"namecheap.domains.dns.getList\">\n    <DomainDNSGetListResult Domain=\"xylex.ai\" IsUsingOurDNS=\"true\">\n      <Nameserver>dns1.registrar-servers.com</Nameserver>\n      <Nameserver>dns2.registrar-servers.com</Nameserver>\n    </DomainDNSGetListResult>\n  </CommandResponse>\n</ApiResponse>";
    let tree = parse_xml_to_json(doc).unwrap();
    let expected = obj(vec![(
        "ApiResponse",
        obj(vec![
            ("status", text("OK")),
            ("Errors", obj(vec![])),
            (
                "CommandResponse",
                obj(vec![
                    ("type", text("namecheap.domains.dns.getList")),
                    (
                        "DomainDNSGetListResult",
                        obj(vec![
                            ("domain", text("xylex.ai")),
                            ("is_using_our_dns", text("true")),
                            (
                                "Nameserver",
                                Node::Array(vec![
                                    leaf("dns1.registrar-servers.com"),
                                    leaf("dns2.registrar-servers.com"),
                                ]),
                            ),
                        ]),
                    ),
                ]),
            ),
        ]),
    )]);
    assert_eq!(tree, expected);
}

#[test]
fn content_after_the_root_is_not_read() {
    let tree = parse_xml_to_json("<a></a><b></b>").unwrap();
    assert_eq!(tree, obj(vec![("a", obj(vec![]))]));
}

#[test]
fn syntax_error_is_malformed() {
    assert_eq!(parse_xml_to_json("<a><b></a>"), Err(XmlError::Malformed));
}

#[test]
fn truncated_document_is_unexpected_eof() {
    assert_eq!(parse_xml_to_json("<a><b>1</b>"), Err(XmlError::UnexpectedEof));
    assert_eq!(parse_xml_to_json("<a>"), Err(XmlError::UnexpectedEof));
    assert_eq!(parse_xml_to_json(""), Err(XmlError::UnexpectedEof));
    assert_eq!(parse_xml_to_json("<?xml version=\"1.0\"?>"), Err(XmlError::UnexpectedEof));
}

#[test]
fn truncated_events_are_unexpected_eof() {
    let tokens = vec![
        XmlToken::Other,
        XmlToken::Start("a".to_string(), vec![]),
        XmlToken::Start("b".to_string(), vec![]),
        XmlToken::Text("1".to_string()),
        XmlToken::End("b".to_string()),
    ];
    assert_eq!(build_tree(&tokens), Err(XmlError::UnexpectedEof));
    assert_eq!(build_tree(&vec![]), Err(XmlError::UnexpectedEof));
}

#[test]
fn malformed_event_stops_the_build() {
    let tokens = vec![XmlToken::Start("a".to_string(), vec![]), XmlToken::Malformed];
    assert_eq!(build_tree(&tokens), Err(XmlError::Malformed));
}

#[test]
fn events_with_distinct_names_keep_every_value_once() {
    let tokens = vec![
        XmlToken::Start(
            "Host".to_string(),
            vec![("HostName".to_string(), "www".to_string()), ("TTL".to_string(), "60".to_string())],
        ),
        XmlToken::Start("Note".to_string(), vec![]),
        XmlToken::Text(" a ".to_string()),
        XmlToken::Text("b ".to_string()),
        XmlToken::End("Note".to_string()),
        XmlToken::Text(" tail ".to_string()),
        XmlToken::End("Host".to_string()),
        XmlToken::Malformed,
    ];
    let expected = obj(vec![(
        "Host",
        obj(vec![
            ("host_name", text("www")),
            ("ttl", text("60")),
            ("Note", leaf("a b")),
            ("$text", text("tail")),
        ]),
    )]);
    assert_eq!(build_tree(&tokens), Ok(expected));
}

#[test]
fn builder_reports_the_root_on_its_end_tag() {
    let mut builder = TreeBuilder::new();
    assert_eq!(builder.feed(&XmlToken::Start("r".to_string(), vec![])), None);
    assert_eq!(builder.feed(&XmlToken::Text("v".to_string())), None);
    assert_eq!(builder.feed(&XmlToken::End("r".to_string())), Some(Ok(obj(vec![("r", leaf("v"))]))));
}
