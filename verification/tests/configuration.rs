use exlap_hook::config::{
    custom_configs, parse_capacity, parse_channel, parse_creds, parse_debug, parse_ival,
    parse_subscribe_urls, read_settings, HostConfig, DEFAULT_CREDS, DEFAULT_IVAL_MS,
    DEFAULT_SUBSCRIBE_URLS,
};
use exlap_hook::hook::{on_config_changed, on_create, take_effects, take_log};
use exlap_hook::report::Notice;

fn unset() -> HostConfig {
    HostConfig {
        exlap_channel: None,
        exlap_creds: None,
        exlap_subscribe_urls: None,
        exlap_subscribe_ival_ms: None,
        exlap_battery_capacity_wh: None,
        exlap_debug: None,
    }
}

#[test]
fn creds_parse_with_a_sane_fallback() {
    assert_eq!(parse_creds("2,1,3,0"), vec![2, 1, 3, 0]);
    assert_eq!(parse_creds(" 1 , 2 "), vec![1, 2]);
    assert_eq!(parse_creds("9,8"), DEFAULT_CREDS.to_vec(), "out-of-range -> default");
    assert_eq!(parse_creds(""), DEFAULT_CREDS.to_vec());
}

#[test]
fn creds_skip_what_is_no_index() {
    assert_eq!(parse_creds("x,1,,4,3,-1,+2"), vec![1, 3, 2]);
    assert_eq!(parse_creds("1,1"), vec![1, 1]);
    assert_eq!(parse_creds("99999999999999999999999,0"), vec![0]);
}

#[test]
fn urls_are_trimmed_and_blanks_dropped() {
    assert_eq!(parse_subscribe_urls(" a , ,b,,c\t"), vec!["a", "b", "c"]);
    assert!(parse_subscribe_urls(" , ").is_empty());
    assert_eq!(parse_subscribe_urls("*"), vec!["*"]);
    assert_eq!(
        parse_subscribe_urls(DEFAULT_SUBSCRIBE_URLS),
        vec!["tankLevelPrimary", "outsideTemperature"]
    );
}

#[test]
fn joined_urls_read_back() {
    for urls in [vec![], vec!["*"], vec!["a", "b c", "\u{e9}", "a"]] {
        assert_eq!(parse_subscribe_urls(&urls.join(",")), urls);
    }
}

#[test]
fn single_settings_parse() {
    assert_eq!(parse_channel("126"), Some(0x7E));
    assert_eq!(parse_channel("255"), Some(255));
    assert_eq!(parse_channel("256"), None);
    assert_eq!(parse_channel(" 1"), None);
    assert_eq!(parse_ival("2000"), Some(2000));
    assert_eq!(parse_ival("0"), None);
    assert_eq!(parse_ival("4294967295"), Some(u32::MAX));
    assert_eq!(parse_ival("4294967296"), None);
    assert_eq!(parse_capacity("58000"), Some(58000));
    assert_eq!(parse_capacity("0"), None);
    assert_eq!(parse_capacity("18446744073709551615"), Some(u64::MAX));
    assert_eq!(parse_capacity("18446744073709551616"), None);
    assert!(parse_debug("true"));
    assert!(parse_debug("1"));
    assert!(!parse_debug("TRUE"));
    assert!(!parse_debug(""));
}

#[test]
fn numbers_parse_as_std_parses_them() {
    for s in ["", "+", "-", "0", "00", "+0", "7", "+7", "-7", "--7", "++7", "255", "256", "0255", "1 ", "1_0", "٣", "a"] {
        assert_eq!(parse_channel(s), s.parse::<u8>().ok(), "{:?}", s);
    }
}

#[test]
fn unset_settings_have_defaults() {
    let s = read_settings(&unset());
    assert_eq!(s.channel, 0x7E);
    assert_eq!(s.creds, vec![2, 1, 3, 0]);
    assert_eq!(s.subscribe_urls, vec!["tankLevelPrimary", "outsideTemperature"]);
    assert_eq!(s.subscribe_ival_ms, DEFAULT_IVAL_MS);
    assert_eq!(s.battery_capacity_wh, None);
    assert!(!s.debug);
}

#[test]
fn shown_defaults_are_the_defaults() {
    let sections = custom_configs();
    assert_eq!(sections.len(), 1);
    assert_eq!(sections[0].title, "ExLAP");
    let value = |name: &str| {
        sections[0].values.iter().find(|e| e.name == name).map(|e| e.default_value.clone())
    };
    let shown = HostConfig {
        exlap_channel: value("exlap_channel"),
        exlap_creds: value("exlap_creds"),
        exlap_subscribe_urls: value("exlap_subscribe_urls"),
        exlap_subscribe_ival_ms: value("exlap_subscribe_ival_ms"),
        exlap_battery_capacity_wh: value("exlap_battery_capacity_wh"),
        exlap_debug: value("exlap_debug"),
    };
    assert!(shown.exlap_debug.is_some());
    assert_eq!(format!("{:?}", read_settings(&shown)), format!("{:?}", read_settings(&unset())));
}

#[test]
fn the_shown_settings_have_names_and_types() {
    let sections = custom_configs();
    let names: Vec<(String, String)> =
        sections[0].values.iter().map(|e| (e.name.clone(), e.typ.clone())).collect();
    let expected = [
        ("exlap_channel", "u8"),
        ("exlap_creds", "string"),
        ("exlap_subscribe_urls", "string"),
        ("exlap_subscribe_ival_ms", "u32"),
        ("exlap_debug", "bool"),
        ("exlap_battery_capacity_wh", "u64"),
    ];
    assert_eq!(names.len(), expected.len());
    for (have, want) in names.iter().zip(expected) {
        assert_eq!((have.0.as_str(), have.1.as_str()), want);
    }
    assert!(sections[0].values.iter().all(|e| e.values.is_none()));
    assert!(sections[0].values[2].description.ends_with("Default: tankLevelPrimary,outsideTemperature"));
}

#[test]
fn creation_makes_one_session_for_each_credential() {
    let mut cfg = unset();
    cfg.exlap_creds = Some("3,1".to_string());
    cfg.exlap_channel = Some("9".to_string());
    cfg.exlap_battery_capacity_wh = Some("58000".to_string());
    cfg.exlap_debug = Some("1".to_string());
    let s = on_create(&cfg);
    assert_eq!(s.exlap_channel, 9);
    assert_eq!(s.sessions.len(), 2);
    assert_eq!((s.cred(0), s.cred(1)), (3, 1));
    assert_eq!(s.battery_capacity_wh, Some(58000));
    assert!(s.debug);
    assert!(!s.connecting_started);
}

#[test]
fn a_changed_setting_is_taken_over() {
    let mut s = on_create(&unset());
    on_config_changed(&mut s, "exlap_channel", "5");
    assert_eq!(s.exlap_channel, 5);
    on_config_changed(&mut s, "exlap_channel", "999");
    assert_eq!(s.exlap_channel, 5);
    on_config_changed(&mut s, "exlap_subscribe_urls", "*");
    assert_eq!(s.subscribe_urls, vec!["*"]);
    on_config_changed(&mut s, "exlap_subscribe_ival_ms", "500");
    assert_eq!(s.subscribe_ival_ms, 500);
    on_config_changed(&mut s, "exlap_subscribe_ival_ms", "0");
    assert_eq!(s.subscribe_ival_ms, 500);
    on_config_changed(&mut s, "exlap_battery_capacity_wh", "77");
    assert_eq!(s.battery_capacity_wh, Some(77));
    on_config_changed(&mut s, "exlap_battery_capacity_wh", "none");
    assert_eq!(s.battery_capacity_wh, None);
    on_config_changed(&mut s, "something_else", "1");
    assert!(take_log(&mut s).is_empty());
    on_config_changed(&mut s, "exlap_debug", "true");
    assert!(s.debug);
    let lines = take_log(&mut s);
    assert_eq!(lines.len(), 1);
    assert!(matches!(lines[0], Notice::DebugSet(true)));
    on_config_changed(&mut s, "exlap_debug", "no");
    assert!(!s.debug);
    assert!(matches!(take_log(&mut s)[..], [Notice::DebugSet(false)]));
    assert!(take_effects(&mut s).is_empty());
}

#[test]
fn the_verbose_log_tells_of_settings() {
    let mut cfg = unset();
    cfg.exlap_debug = Some("true".to_string());
    let mut s = on_create(&cfg);
    let lines = take_log(&mut s);
    assert_eq!(lines.len(), 1);
    match &lines[0] {
        Notice::Created { channel, creds, subscribe_urls, ival_ms, capacity_wh } => {
            assert_eq!(*channel, 0x7E);
            assert_eq!(*creds, vec![2, 1, 3, 0]);
            assert_eq!(*subscribe_urls, vec!["tankLevelPrimary", "outsideTemperature"]);
            assert_eq!(*ival_ms, 2000);
            assert_eq!(*capacity_wh, None);
        }
        other => panic!("{:?}", other),
    }
    on_config_changed(&mut s, "exlap_channel", "5");
    on_config_changed(&mut s, "exlap_creds", "3,1");
    on_config_changed(&mut s, "exlap_subscribe_urls", "a, b");
    on_config_changed(&mut s, "exlap_subscribe_ival_ms", "500");
    on_config_changed(&mut s, "exlap_battery_capacity_wh", "none");
    // A value that is not taken over is not told.
    on_config_changed(&mut s, "exlap_channel", "999");
    on_config_changed(&mut s, "exlap_subscribe_ival_ms", "0");
    on_config_changed(&mut s, "something_else", "1");
    let lines = take_log(&mut s);
    assert_eq!(lines.len(), 5);
    assert!(matches!(lines[0], Notice::ChannelSet(5)));
    assert!(matches!(&lines[1], Notice::CredsSet(c) if *c == vec![3, 1]));
    assert!(matches!(&lines[2], Notice::UrlsSet(u) if *u == vec!["a", "b"]));
    assert!(matches!(lines[3], Notice::IvalSet(500)));
    assert!(matches!(lines[4], Notice::CapacitySet(None)));
}

#[test]
fn new_credentials_leave_the_sessions_alone() {
    let mut s = on_create(&unset());
    on_config_changed(&mut s, "exlap_creds", "1");
    assert_eq!(s.creds, vec![1]);
    assert_eq!(s.sessions.len(), 4);
    assert_eq!(s.cred(0), 2);
    exlap_hook::state::reset_sessions(&mut s);
    assert_eq!(s.sessions.len(), 1);
    assert_eq!(s.cred(0), 1);
}
