use exlap_hook::command::{call_text, parse_command, parse_params, Command};
use exlap_hook::protocol::{Kind, Param};

#[test]
fn call_params_parse_into_typed_values() {
    let v: serde_json::Value =
        serde_json::from_str(r#"[{"kind":"Enm","name":"Source","val":"HDD"}]"#).unwrap();
    let params = parse_params(Some(&v));
    assert_eq!(params.len(), 1);
    assert_eq!(params[0].kind, Kind::Enm);
    assert_eq!(
        call_text("Media_SwitchSource", &params),
        r#"<Call url="Media_SwitchSource"><Enm name="Source" val="HDD"/></Call>"#
    );
}

#[test]
fn params_have_defaults() {
    let v: serde_json::Value = serde_json::from_str(
        r#"[{"name":"a"},{"kind":"Abs","name":"b","val":"1"},{"kind":"Rel","name":"c"},{"kind":"Act","name":"d"},{"kind":"?","name":"e"},{"val":"x"},7]"#,
    )
    .unwrap();
    let params = parse_params(Some(&v));
    let kinds: Vec<Kind> = params.iter().map(|p| p.kind).collect();
    assert_eq!(kinds, vec![Kind::Txt, Kind::Abs, Kind::Rel, Kind::Act, Kind::Txt]);
    assert_eq!(params[1].raw, "1");
    assert_eq!(params[0].raw, "");
    assert!(parse_params(None).is_empty());
    let object: serde_json::Value = serde_json::from_str("{}").unwrap();
    assert!(parse_params(Some(&object)).is_empty());
}

#[test]
fn a_call_escapes_its_texts() {
    let params = vec![Param { kind: Kind::Txt, name: "q".to_string(), raw: "a<b&\"c\">".to_string() }];
    assert_eq!(
        call_text("X&Y", &params),
        "<Call url=\"X&amp;Y\"><Txt name=\"q\" val=\"a&lt;b&amp;&quot;c&quot;&gt;\"/></Call>"
    );
}

#[test]
fn commands_are_told_apart() {
    assert!(parse_command("nonsense").is_none());
    assert!(matches!(parse_command(r#"{"cmd":"list"}"#), Some(Command::List)));
    assert!(matches!(parse_command(r#"{"cmd":"values"}"#), Some(Command::Values)));
    assert!(matches!(parse_command(r#"{"cmd":"get","url":"u"}"#), Some(Command::Get(u)) if u == "u"));
    assert!(matches!(parse_command(r#"{"cmd":"get"}"#), Some(Command::MissingUrl)));
    assert!(matches!(parse_command(r#"{"cmd":"LIST"}"#), Some(Command::Unknown(c)) if c == "LIST"));
}
