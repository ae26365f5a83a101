use exlap_hook::frame::{truncate_xml, unwrap_statement, wrap, xml_attr_in_tag, xml_root_tag};

#[test]
fn unwrap_returns_the_inner_message() {
    let x = r#"<ExlapStatement session_id="abc"><Rsp id="5"/></ExlapStatement>"#;
    assert_eq!(unwrap_statement(x), r#"<Rsp id="5"/>"#);
    // A bare status has no wrapper and comes back whole.
    assert_eq!(unwrap_statement("<Status><Init/></Status>"), "<Status><Init/></Status>");
    // A wrapper with attributes on the inner element survives.
    let d = r#"<ExlapStatement session_id="x"><Dat url="vehicleSpeed"><Abs name="speed" val="3"/></Dat></ExlapStatement>"#;
    assert_eq!(unwrap_statement(d), r#"<Dat url="vehicleSpeed"><Abs name="speed" val="3"/></Dat>"#);
}

#[test]
fn wrap_frames_a_request() {
    assert_eq!(
        wrap("sid1", r#"<Req id="9"><Alive/></Req>"#),
        r#"<ExlapStatement session_id="sid1"><Req id="9"><Alive/></Req></ExlapStatement>"#
    );
}

#[test]
fn root_tag_reads_the_first_element() {
    assert_eq!(xml_root_tag("<ExlapBeacon/>").as_deref(), Some("ExlapBeacon"));
    assert_eq!(xml_root_tag(r#"<ExlapStatement session_id="a">"#).as_deref(), Some("ExlapStatement"));
    assert_eq!(xml_root_tag("  <Status><Init/></Status>").as_deref(), Some("Status"));
    assert_eq!(xml_root_tag("garbage"), None);
}

#[test]
fn attr_reads_the_named_wrapper_attribute() {
    let x = r#"<ExlapConnectionReturn session_id="s" connected="true"/>"#;
    assert_eq!(xml_attr_in_tag(x, "ExlapConnectionReturn", "connected").as_deref(), Some("true"));
    assert_eq!(xml_attr_in_tag(x, "ExlapConnectionReturn", "session_id").as_deref(), Some("s"));
    assert_eq!(xml_attr_in_tag(x, "ExlapConnectionReturn", "missing"), None);
}

#[test]
fn a_statement_without_its_end_is_read_to_the_end() {
    assert_eq!(unwrap_statement(r#"<ExlapStatement session_id="a"> <Rsp/> "#), "<Rsp/>");
    // The wrapper itself is not closed: nothing can be unwrapped.
    assert_eq!(unwrap_statement("<ExlapStatement session_id"), "<ExlapStatement session_id");
    // A closing tag before the opening one does not count.
    assert_eq!(unwrap_statement("</ExlapStatement><ExlapStatement a>x"), "x");
    assert_eq!(unwrap_statement("<ExlapStatement a></ExlapStatement>"), "");
}

#[test]
fn root_tags_that_are_no_element() {
    assert_eq!(xml_root_tag("<?xml version=\"1.0\"?><Status/>"), None);
    assert_eq!(xml_root_tag("<!-- x --><Status/>"), None);
    assert_eq!(xml_root_tag("</Status>"), None);
    assert_eq!(xml_root_tag("<>"), None);
    assert_eq!(xml_root_tag("<open").as_deref(), Some("open"));
}

#[test]
fn an_attribute_of_a_later_element_is_not_read() {
    assert_eq!(xml_attr_in_tag(r#"<A x="1"><B y="2"/></A>"#, "A", "y"), None);
    assert_eq!(xml_attr_in_tag(r#"<A x="1"><B y="2"/></A>"#, "B", "y").as_deref(), Some("2"));
    assert_eq!(xml_attr_in_tag(r#"<A x="1"#, "A", "x"), None);
    assert_eq!(xml_attr_in_tag(r#"<A>"#, "C", "x"), None);
}

#[test]
fn long_texts_are_cut_for_the_log() {
    assert_eq!(truncate_xml("abc", 3), "abc");
    assert_eq!(truncate_xml("abcdefghijklmnop", 4), "abcd");
    assert_eq!(truncate_xml("\u{e4}\u{f6}\u{fc}", 1), "\u{e4}");
    assert_eq!(truncate_xml("abc", 0), "");
}

#[test]
fn names_match_whole() {
    assert_eq!(xml_attr_in_tag(r#"<T my_id="1" id="2"/>"#, "T", "id").as_deref(), Some("2"));
    assert_eq!(xml_attr_in_tag(r#"<Tab a="1"/><T a="2"/>"#, "T", "a").as_deref(), Some("2"));
    assert_eq!(xml_attr_in_tag("<T\n\tid=\"2\"/>", "T", "id").as_deref(), Some("2"));
    assert_eq!(xml_attr_in_tag("<T", "T", "id"), None);
    // Nothing but a name character joins two names.
    assert_eq!(xml_attr_in_tag(r#"<T a="1"b="2"/>"#, "T", "b").as_deref(), Some("2"));
    assert_eq!(xml_attr_in_tag(r#"<T/id="2">"#, "T", "id").as_deref(), Some("2"));
    assert_eq!(xml_attr_in_tag(r#"<T"id="2">"#, "T", "id").as_deref(), Some("2"));
    for c in ['-', '.', ':', '_', '7', '\u{e9}', '\u{6c34}'] {
        assert_eq!(xml_attr_in_tag(&format!("<T x{c}id=\"2\"/>"), "T", "id"), None);
        assert_eq!(xml_attr_in_tag(&format!("<T{c} id=\"2\"/>"), "T", "id"), None);
    }
    // The first attribute of the name decides, also where its value is cut.
    assert_eq!(xml_attr_in_tag(r#"<T id="1" id="2"/>"#, "T", "id").as_deref(), Some("1"));
    assert_eq!(unwrap_statement("<ExlapStatementX>a</ExlapStatementX>"), "<ExlapStatementX>a</ExlapStatementX>");
    assert_eq!(unwrap_statement("<ExlapStatementX/><ExlapStatement>a</ExlapStatement>"), "a");
}
