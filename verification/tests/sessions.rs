use exlap_hook::config::HostConfig;
use exlap_hook::driver::{on_data, on_directory};
use exlap_hook::hook::{
    debug_log, flush_outbound, modify_packet, on_config_changed, on_create, on_destroy, take_effects,
    take_log, ws_script_handler,
};
use exlap_hook::packet::{Decision, Packet, ProxyType};
use exlap_hook::protocol::{DatMessage, Phase, Reading};
use exlap_hook::report::{Effect, Notice};
use exlap_hook::state::{conn_state, ExlapState, SessionState};

fn state(creds: &str, urls: &str) -> ExlapState {
    on_create(&HostConfig {
        exlap_channel: None,
        exlap_creds: Some(creds.to_string()),
        exlap_subscribe_urls: Some(urls.to_string()),
        exlap_subscribe_ival_ms: Some("500".to_string()),
        exlap_battery_capacity_wh: Some("58000".to_string()),
        exlap_debug: None,
    })
}

fn packet(from: ProxyType, channel: u8, flags: u8, payload: &[u8]) -> Packet {
    Packet {
        proxy_type: from,
        channel,
        packet_flags: flags,
        final_length: None,
        message_id: 0,
        payload: payload.to_vec(),
    }
}

/// A whole frame of the head unit on the ExLAP channel.
fn receive(s: &mut ExlapState, xml: &str) {
    let channel = s.exlap_channel;
    let (d, out) = modify_packet(s, &packet(ProxyType::HeadUnit, channel, 0x0B, xml.as_bytes()));
    assert_eq!(d, Decision::Forward);
    assert!(out.is_empty());
}

/// What goes out while a packet passes to the head unit.
fn carry(s: &mut ExlapState) -> Vec<String> {
    let (d, out) = modify_packet(s, &packet(ProxyType::MobileDevice, 3, 0x0B, b"video"));
    assert_eq!(d, Decision::Forward);
    out.iter()
        .map(|p| {
            assert_eq!(p.proxy_type, ProxyType::MobileDevice);
            assert_eq!(p.channel, s.exlap_channel);
            assert_eq!(p.packet_flags, 0x0B);
            String::from_utf8(p.payload.clone()).unwrap()
        })
        .collect()
}

fn open_channel(s: &mut ExlapState, status: u8) {
    let channel = s.exlap_channel;
    modify_packet(s, &packet(ProxyType::HeadUnit, channel, 0x0F, &[0, 8, 8, status]));
}

fn say(s: &mut ExlapState, idx: usize, msg: &str) {
    let sid = s.sessions[idx].session_id.clone();
    receive(s, &format!("<ExlapStatement session_id=\"{}\">{}</ExlapStatement>", sid, msg));
}

/// Brings a started session up to where it awaits its directory, and returns the
/// id of the request for it.
fn authenticate(s: &mut ExlapState, idx: usize) -> u32 {
    receive(s, "<ExlapConnectionReturn connected=\"true\"/>");
    assert!(matches!(s.sessions[idx].phase(), Some(Phase::Init)));
    say(s, idx, "<Status><Init/></Status>");
    say(s, idx, "<Rsp id=\"1\"><Protocol version=\"1\"/></Rsp>");
    say(s, idx, "<Rsp id=\"2\"><Challenge nonce=\"tDJMI/KP3mVbdlD97P2p5A==\"/></Rsp>");
    say(s, idx, "<Rsp id=\"3\"/>");
    assert!(matches!(s.sessions[idx].phase(), Some(Phase::Directory)));
    let out = carry(s);
    let dir = out.last().unwrap();
    assert!(dir.contains("<Dir urlPattern=\"*\""));
    let at = dir.find("<Req").unwrap();
    exlap::attr(&dir[at..], "id").unwrap().parse().unwrap()
}

fn directory(s: &mut ExlapState, idx: usize, id: u32, urls: &[&str]) {
    let list: String = urls
        .iter()
        .map(|u| {
            if u.starts_with("Fn") {
                format!("<Match url=\"{}\" type=\"function\"/>", u)
            } else {
                format!("<Match url=\"{}\"/>", u)
            }
        })
        .collect();
    say(s, idx, &format!("<Rsp id=\"{}\"><UrlList>{}</UrlList></Rsp>", id, list));
}

#[test]
fn a_session_comes_up_and_subscribes() {
    let mut s = state("2,1", "*");
    open_channel(&mut s, 0);
    assert!(s.connecting_started);
    let out = carry(&mut s);
    assert_eq!(out.len(), 1);
    assert_eq!(out[0], format!("<ExlapConnectionRequest session_id=\"{}\"/>", s.sessions[0].session_id));
    assert!(carry(&mut s).is_empty());

    receive(&mut s, "<ExlapConnectionReturn connected=\"true\"/>");
    assert_eq!(conn_state(&s.sessions[0]), "connecting");
    say(&mut s, 0, "<Status><Init/></Status>");
    let out = carry(&mut s);
    assert_eq!(out.len(), 1);
    assert!(out[0].starts_with(&format!("<ExlapStatement session_id=\"{}\"><Req id=\"", s.sessions[0].session_id)));
    assert!(out[0].ends_with("\"><Protocol version=\"1\" returnCapabilities=\"true\"/></Req></ExlapStatement>"));
    say(&mut s, 0, "<Rsp id=\"1\"/>");
    assert!(carry(&mut s)[0].contains("<Authenticate phase=\"challenge\" useHash=\"sha256\"/>"));
    say(&mut s, 0, "<Rsp id=\"2\"><Challenge nonce=\"abc\"/></Rsp>");
    let out = carry(&mut s);
    assert!(out[0].contains("<Authenticate phase=\"response\" user=\"RSE_3-DE1400\" cnonce=\""));
    say(&mut s, 0, "<Rsp id=\"3\"/>");
    let out = carry(&mut s);
    assert_eq!(out.len(), 2);
    assert!(out[0].contains("<Heartbeat ival=\"10\"/>"));
    assert!(out[1].contains("<Dir urlPattern=\"*\" fromEntry=\"1\" numOfEntries=\"999999999\"/>"));
    let at = out[1].find("<Req").unwrap();
    let id: u32 = exlap::attr(&out[1][at..], "id").unwrap().parse().unwrap();
    take_effects(&mut s);
    directory(&mut s, 0, id, &["speed", "FnPlay", "door"]);
    let out = carry(&mut s);
    assert_eq!(out.len(), 3);
    assert!(out[0].contains("<Subscribe url=\"speed\" ival=\"500\" timeStamp=\"true\"/>"));
    assert!(out[1].contains("<Subscribe url=\"door\" ival=\"500\" timeStamp=\"true\"/>"));
    assert_eq!(out[2], format!("<ExlapConnectionRequest session_id=\"{}\"/>", s.sessions[1].session_id));
    assert!(s.sessions[0].subscribed);
    assert!(s.sessions[0].is_active());
    assert_eq!(conn_state(&s.sessions[0]), "active");
    let told = take_effects(&mut s);
    assert_eq!(told.len(), 1);
    match &told[0] {
        Effect::Directory(r) => {
            assert_eq!(r.connection.cred_idx, 2);
            assert_eq!(r.connection.user, "RSE_3-DE1400");
            assert_eq!(r.connection.connection_state, "active");
            let urls: Vec<(&str, bool)> = r.urls.iter().map(|e| (e.url.as_str(), e.callable)).collect();
            assert_eq!(urls, vec![("speed", false), ("FnPlay", true), ("door", false)]);
        }
        other => panic!("{:?}", other),
    }
}

#[test]
fn no_url_is_subscribed_by_two_sessions() {
    let mut s = state("2,1,0", "*");
    open_channel(&mut s, 0);
    let id = authenticate(&mut s, 0);
    directory(&mut s, 0, id, &["speed", "door"]);
    carry(&mut s);
    let id = authenticate(&mut s, 1);
    directory(&mut s, 1, id, &["speed", "light"]);
    let out = carry(&mut s);
    assert_eq!(out.len(), 2);
    assert!(out[0].contains("<Subscribe url=\"light\""));
    let id = authenticate(&mut s, 2);
    directory(&mut s, 2, id, &["speed", "door", "light"]);
    assert!(carry(&mut s).is_empty());
    assert!(!s.sessions[2].subscribed);
    assert!(s.sessions[2].is_active());
}

#[test]
fn only_configured_urls_are_subscribed() {
    let mut s = state("2", "door,none,FnPlay");
    open_channel(&mut s, 0);
    let id = authenticate(&mut s, 0);
    directory(&mut s, 0, id, &["speed", "FnPlay", "door"]);
    let out = carry(&mut s);
    assert_eq!(out.len(), 1);
    assert!(out[0].contains("<Subscribe url=\"door\""));
}

#[test]
fn a_directory_lists_its_matches() {
    let mut s = state("2", "*");
    open_channel(&mut s, 0);
    let id = authenticate(&mut s, 0);
    take_effects(&mut s);
    say(
        &mut s,
        0,
        &format!(
            "<Rsp id=\"{id}\"><!-- x --><UrlList><Match url=\"a\" type=\"data\"/><Match type=\"function\" url=\"b\"/>\
             <Match name=\"c\"/><Matched url=\"d\"/><Match xurl=\"e\"/><Match url=\"f\">z</Match></UrlList></Rsp>"
        ),
    );
    match &take_effects(&mut s)[..] {
        [Effect::Directory(r)] => {
            let urls: Vec<(&str, bool)> = r.urls.iter().map(|e| (e.url.as_str(), e.callable)).collect();
            assert_eq!(urls, vec![("a", false), ("b", true), ("f", false)]);
        }
        other => panic!("{:?}", other),
    }
}

#[test]
fn attributes_need_no_space_between_them() {
    let mut s = state("3", "*");
    open_channel(&mut s, 0);
    receive(&mut s, "<ExlapConnectionReturn session_id=\"s\"connected=\"true\"/>");
    assert!(matches!(s.sessions[0].phase(), Some(Phase::Init)));
    let mut s = state("3", "*");
    open_channel(&mut s, 0);
    receive(&mut s, "<ExlapConnectionReturn disconnected=\"true\"/>");
    assert!(matches!(s.sessions[0].state, SessionState::Pending));
}

#[test]
fn a_refused_connection_is_retried_on_the_next_beacon() {
    let mut s = state("3,1", "*");
    open_channel(&mut s, 0);
    let first = s.sessions[0].session_id.clone();
    take_effects(&mut s);
    carry(&mut s);
    receive(&mut s, "<ExlapConnectionReturn connected=\"false\"/>");
    assert!(matches!(s.sessions[0].state, SessionState::Pending));
    assert!(take_effects(&mut s).is_empty());
    assert!(matches!(take_log(&mut s)[..], [Notice::ConnectionRefused(3)]));
    assert!(carry(&mut s).is_empty());
    receive(&mut s, "<ExlapBeacon/>");
    assert!(matches!(s.sessions[0].state, SessionState::WaitConnReturn));
    assert!(matches!(s.sessions[1].state, SessionState::Pending));
    assert_ne!(s.sessions[0].session_id, first);
    assert_eq!(carry(&mut s).len(), 1);
    // While one is outstanding, a beacon starts nothing.
    receive(&mut s, "<ExlapBeacon/>");
    assert!(carry(&mut s).is_empty());
}

#[test]
fn an_open_status_is_logged_and_ignored() {
    let mut s = state("3", "*");
    open_channel(&mut s, 5);
    assert!(matches!(take_log(&mut s)[..], [Notice::OpenStatus { status: 5, channel: 0x7E }]));
    assert_eq!(carry(&mut s).len(), 1);
    // A second response starts nothing.
    open_channel(&mut s, 5);
    assert!(take_log(&mut s).is_empty());
    assert!(carry(&mut s).is_empty());
}

#[test]
fn other_control_messages_do_nothing() {
    let mut s = state("3", "*");
    modify_packet(&mut s, &packet(ProxyType::HeadUnit, 0x7E, 0x0F, &[0, 7, 8, 0]));
    modify_packet(&mut s, &packet(ProxyType::HeadUnit, 0x7E, 0x0F, &[8]));
    modify_packet(&mut s, &packet(ProxyType::HeadUnit, 0x7E, 0x0F, &[1, 8]));
    assert!(!s.connecting_started);
    modify_packet(&mut s, &packet(ProxyType::HeadUnit, 0x7E, 0x0F, &[0, 8]));
    assert!(s.connecting_started);
}

#[test]
fn a_failed_session_gives_way_to_the_next() {
    let mut s = state("2,1", "*");
    open_channel(&mut s, 0);
    receive(&mut s, "<ExlapConnectionReturn connected=\"true\"/>");
    say(&mut s, 0, "<Status><Init/></Status>");
    say(&mut s, 0, "<Rsp id=\"1\"/>");
    say(&mut s, 0, "<Rsp id=\"2\"><Challenge nonce=\"abc\"/></Rsp>");
    take_effects(&mut s);
    carry(&mut s);
    say(&mut s, 0, "<Rsp id=\"3\" status=\"authenticationFailed\"/>");
    assert!(matches!(s.sessions[0].state, SessionState::Failed));
    assert!(matches!(s.sessions[1].state, SessionState::WaitConnReturn));
    let told = take_effects(&mut s);
    assert_eq!(told.len(), 1);
    match &take_log(&mut s)[..] {
        [Notice::SessionFailed { cred: 2, reason }] => assert_eq!(
            reason,
            "protocol: auth failed for RSE_3-DE1400: <Rsp id=\"3\" status=\"authenticationFailed\"/>"
        ),
        other => panic!("{:?}", other),
    }
    match &told[0] {
        Effect::Connection(r) => assert_eq!(r.connection_state, "failed"),
        other => panic!("{:?}", other),
    }
    assert_eq!(carry(&mut s).len(), 1);
    // It is not retried, and takes no message.
    receive(&mut s, "<ExlapConnectionReturn connected=\"false\"/>");
    receive(&mut s, "<ExlapBeacon/>");
    assert!(matches!(s.sessions[0].state, SessionState::Failed));
    say(&mut s, 0, "<Status><Alive/></Status>");
    assert!(matches!(s.sessions[0].state, SessionState::Failed));
}

#[test]
fn the_reasons_of_failures_are_told() {
    let reason = |messages: &[&str]| {
        let mut s = state("0", "*");
        open_channel(&mut s, 0);
        receive(&mut s, "<ExlapConnectionReturn connected=\"true\"/>");
        for m in messages {
            say(&mut s, 0, m);
        }
        let lines = take_log(&mut s);
        let found = lines.iter().find_map(|n| match n {
            Notice::SessionFailed { reason, .. } => Some(reason.clone()),
            _ => None,
        });
        found.unwrap_or_default()
    };
    assert_eq!(reason(&["<Rsp/>"]), "protocol: expected Init, got: <Rsp/>");
    assert_eq!(
        reason(&["<Status><Init/></Status>", "<Rsp/>", "<Rsp id=\"2\"/>"]),
        "protocol: no nonce in: <Rsp id=\"2\"/>"
    );
    assert_eq!(reason(&["<Status><Bye/></Status>", "<Rsp/>"]), "disconnected");
}

#[test]
fn a_nonce_that_cannot_be_cut_is_not_taken() {
    let mut s = state("0", "*");
    open_channel(&mut s, 0);
    receive(&mut s, "<ExlapConnectionReturn connected=\"true\"/>");
    say(&mut s, 0, "<Status><Init/></Status>");
    say(&mut s, 0, "<Rsp/>");
    carry(&mut s);
    let bad = format!("<Rsp><Challenge nonce=\"{}é\"/></Rsp>", "x".repeat(43));
    say(&mut s, 0, &bad);
    assert!(matches!(s.sessions[0].phase(), Some(Phase::Challenge)));
    assert!(carry(&mut s).is_empty());
    let good = format!("<Rsp><Challenge nonce=\"{}é\"/></Rsp>", "x".repeat(44));
    say(&mut s, 0, &good);
    assert!(matches!(s.sessions[0].phase(), Some(Phase::AuthResult)));
}

#[test]
fn a_bare_ping_is_answered_for_every_session() {
    let mut s = state("2,1", "*");
    open_channel(&mut s, 0);
    let id = authenticate(&mut s, 0);
    directory(&mut s, 0, id, &["a"]);
    receive(&mut s, "<ExlapConnectionReturn connected=\"true\"/>");
    carry(&mut s);
    receive(&mut s, "<Status>  <Alive/> </Status>");
    let out = carry(&mut s);
    assert_eq!(out.len(), 2);
    for (i, frame) in out.iter().enumerate() {
        assert!(frame.contains(&s.sessions[i].session_id));
        assert!(frame.contains("<Alive/>"));
    }
}

#[test]
fn a_bare_banner_goes_to_the_session_that_awaits_it() {
    let mut s = state("2,1", "*");
    receive(&mut s, "<Status><Init/></Status>");
    assert!(carry(&mut s).is_empty());
    open_channel(&mut s, 0);
    receive(&mut s, "<ExlapConnectionReturn connected=\"true\"/>");
    carry(&mut s);
    receive(&mut s, "<Status><Init/></Status>");
    assert!(matches!(s.sessions[0].phase(), Some(Phase::Capabilities)));
    assert!(carry(&mut s)[0].contains("<Protocol"));
    receive(&mut s, "<Status><Dataloss/></Status>");
    assert!(carry(&mut s).is_empty());
}

#[test]
fn a_closed_connection_begins_anew() {
    for frame in ["<ExlapConnectionClosed/>", "<Status><Bye/></Status>"] {
        let mut s = state("2,1", "*");
        open_channel(&mut s, 0);
        let id = authenticate(&mut s, 0);
        directory(&mut s, 0, id, &["a"]);
        take_effects(&mut s);
        carry(&mut s);
        on_config_changed(&mut s, "exlap_creds", "3,2,1");
        receive(&mut s, frame);
        assert_eq!(s.sessions.len(), 3);
        assert_eq!(s.cred(0), 3);
        assert!(matches!(s.sessions[0].state, SessionState::WaitConnReturn));
        assert!(matches!(s.sessions[1].state, SessionState::Pending));
        assert_eq!(carry(&mut s).len(), 1);
        assert_eq!(take_effects(&mut s).len(), 3);
        // What was claimed is free again.
        let id = authenticate(&mut s, 0);
        directory(&mut s, 0, id, &["a"]);
        assert!(carry(&mut s)[0].contains("<Subscribe url=\"a\""));
    }
}

#[test]
fn the_subscription_limit_is_noted() {
    let mut s = state("2", "*");
    open_channel(&mut s, 0);
    let id = authenticate(&mut s, 0);
    directory(&mut s, 0, id, &["a"]);
    take_effects(&mut s);
    say(&mut s, 0, "<Rsp id=\"7\" status=\"processing\"/>");
    say(&mut s, 0, "<Rsp id=\"7\"/>");
    assert!(take_effects(&mut s).is_empty());
    say(&mut s, 0, "<Rsp id=\"8\" status=\"subscriptionLimitReached\"/>");
    assert!(s.sessions[0].subscription_limit_reached);
    let told = take_effects(&mut s);
    assert_eq!(told.len(), 1);
    match &told[0] {
        Effect::Connection(r) => assert!(r.subscription_limit_reached && r.connection_state == "active"),
        other => panic!("{:?}", other),
    }
}

#[test]
fn data_is_recorded_and_the_battery_reported() {
    let mut s = state("2", "*");
    open_channel(&mut s, 0);
    let id = authenticate(&mut s, 0);
    directory(&mut s, 0, id, &["a"]);
    take_effects(&mut s);
    say(
        &mut s,
        0,
        "<Dat url=\"outsideTemperature\" timeStamp=\"T1\"><Abs name=\"temperature\" val=\"21.5\"/><Enm name=\"unit\" val=\"degC\"/><Enm name=\"state\" val=\"valid\"/></Dat>",
    );
    let told = take_effects(&mut s);
    assert_eq!(told.len(), 1);
    match &told[0] {
        Effect::Changed(c) => {
            assert_eq!(c.url, "outsideTemperature");
            assert_eq!(c.state.as_deref(), Some("valid"));
            assert_eq!(c.timestamp.as_deref(), Some("T1"));
            assert_eq!(c.fields.len(), 1);
            assert_eq!(c.fields[0].name, "temperature");
            assert_eq!(c.fields[0].kind, "Abs");
            assert_eq!(c.fields[0].raw, "21.5");
            assert_eq!(c.fields[0].unit.as_deref(), Some("degC"));
        }
        other => panic!("{:?}", other),
    }
    say(
        &mut s,
        0,
        "<Dat url=\"tankLevelPrimary\"><Rel name=\"level\" val=\".5899999999999999\"/><Abs name=\"range\" state=\"nodata\"/></Dat>",
    );
    let told = take_effects(&mut s);
    assert_eq!(told.len(), 2);
    match &told[0] {
        Effect::Battery { level, temperature, capacity_wh } => {
            assert_eq!(level.as_deref(), Some(".5899999999999999"));
            assert_eq!(temperature.as_deref(), Some("21.5"));
            assert_eq!(*capacity_wh, Some(58000));
        }
        other => panic!("{:?}", other),
    }
    match &told[1] {
        Effect::Changed(c) => {
            assert_eq!(c.missing, vec!["range"]);
            assert_eq!(c.timestamp, None);
        }
        other => panic!("{:?}", other),
    }
    // A level that is no number is recorded, but not reported.
    say(&mut s, 0, "<Dat url=\"tankLevelPrimary\"><Rel name=\"level\" val=\"full\"/></Dat>");
    let told = take_effects(&mut s);
    assert_eq!(told.len(), 1);
    assert_eq!(s.tank_level.as_deref(), Some(".5899999999999999"));
    assert_eq!(s.current_values.len(), 2);
}

#[test]
fn data_without_a_level_is_no_battery_report() {
    let mut s = state("2", "*");
    let dat = |url: &str, name: &str, raw: &str| DatMessage {
        url: url.to_string(),
        readings: vec![Reading {
            name: name.to_string(),
            kind: "Abs".to_string(),
            raw: raw.to_string(),
            unit: None,
        }],
        state: None,
        missing: Vec::new(),
        raw: String::new(),
    };
    on_data(&mut s, dat("tankLevelPrimary", "other", "1"));
    on_data(&mut s, dat("speed", "level", "1"));
    on_data(&mut s, dat("outsideTemperature", "level", "1"));
    assert!(take_effects(&mut s).iter().all(|e| matches!(e, Effect::Changed(_))));
    assert_eq!(s.tank_level, None);
    assert_eq!(s.outside_temp, None);
    on_data(&mut s, dat("speed", "level", "2"));
    assert_eq!(s.current_values.len(), 3);
    let speed = s.current_values.iter().find(|c| c.url == "speed").unwrap();
    assert_eq!(speed.fields[0].raw, "2");
}

#[test]
fn foreign_data_is_read() {
    let mut s = state("2", "*");
    receive(
        &mut s,
        "<ExlapStatement session_id=\"someone\"><Dat url=\"speed\"><Abs name=\"v\" val=\"3\"/></Dat></ExlapStatement>",
    );
    receive(&mut s, "<ExlapStatement session_id=\"someone\"><Rsp id=\"1\"/></ExlapStatement>");
    receive(&mut s, "<ExlapStatement><Rsp id=\"1\"/></ExlapStatement>");
    let told = take_effects(&mut s);
    assert_eq!(told.len(), 1);
    assert!(matches!(&told[0], Effect::Changed(c) if c.url == "speed"));
    assert!(carry(&mut s).is_empty());
}

#[test]
fn fragments_make_a_frame() {
    let mut s = state("3", "*");
    for (flags, part) in [(0x09, "<Exlap"), (0x08, "Bea"), (0x0A, "con/>")] {
        modify_packet(&mut s, &packet(ProxyType::HeadUnit, 0x7E, flags, part.as_bytes()));
    }
    assert!(s.connecting_started);
    // A first fragment drops what came before it.
    let mut s = state("3", "*");
    modify_packet(&mut s, &packet(ProxyType::HeadUnit, 0x7E, 0x09, b"junk"));
    receive(&mut s, "<ExlapBeacon/>");
    assert!(s.connecting_started);
}

#[test]
fn frames_that_are_no_text_are_logged() {
    let mut s = state("3", "*");
    modify_packet(&mut s, &packet(ProxyType::HeadUnit, 0x7E, 0x0B, &[0xFF, 0xFE]));
    assert!(matches!(take_log(&mut s)[..], [Notice::InvalidUtf8]));
    receive(&mut s, "<Unknown/>");
    receive(&mut s, "no element");
    assert!(take_log(&mut s).is_empty());
    assert!(take_effects(&mut s).is_empty());
}

#[test]
fn own_frames_and_frames_to_the_phone_are_not_acted_on() {
    let mut s = state("3", "*");
    modify_packet(&mut s, &packet(ProxyType::MobileDevice, 0x7E, 0x0B, b"<ExlapBeacon/>"));
    assert!(!s.connecting_started);
    open_channel(&mut s, 0);
    let sent = flush_outbound(&mut s);
    assert_eq!(sent.len(), 1);
    let text = String::from_utf8(sent[0].payload.clone()).unwrap();
    assert_eq!(s.recently_sent, vec![text.clone()]);
    receive(&mut s, &text);
    assert!(take_effects(&mut s).is_empty());
    for i in 0..20 {
        s.send_xml(&format!("<Frame n=\"{}\"/>", i));
    }
    assert_eq!(s.recently_sent.len(), 16);
    assert_eq!(s.recently_sent[0], "<Frame n=\"4\"/>");
}

#[test]
fn the_channel_is_adopted_before_connecting_only() {
    let mut s = state("3", "*");
    modify_packet(&mut s, &packet(ProxyType::HeadUnit, 9, 0x0B, b"<Other/>"));
    modify_packet(&mut s, &packet(ProxyType::HeadUnit, 0, 0x0B, b"<ExlapBeacon/>"));
    modify_packet(&mut s, &packet(ProxyType::HeadUnit, 9, 0x0F, b"<ExlapBeacon/>"));
    assert_eq!(s.exlap_channel, 0x7E);
    modify_packet(&mut s, &packet(ProxyType::HeadUnit, 9, 0x0B, b"<ExlapBeacon/>"));
    assert_eq!(s.exlap_channel, 9);
    assert!(s.connecting_started);
    assert!(matches!(take_log(&mut s)[..], [Notice::AdoptedChannel(9)]));
    modify_packet(&mut s, &packet(ProxyType::HeadUnit, 8, 0x0B, b"<ExlapBeacon/>"));
    assert_eq!(s.exlap_channel, 9);
}

#[test]
fn discovery_begins_anew_and_keeps_the_settings() {
    let mut s = state("3,1", "a,b");
    open_channel(&mut s, 0);
    on_config_changed(&mut s, "exlap_debug", "1");
    take_effects(&mut s);
    let name = b"com.vwag.infotainment.gal.exlap";
    let mut payload = vec![0, 6, 0x0A, 38, 0x08, 0x85, 0x02, 0x62, 33, 0x0A, 31];
    payload.extend_from_slice(name);
    let mut sdr = packet(ProxyType::HeadUnit, 0, 0x0B, &payload);
    sdr.message_id = 6;
    let (d, _) = modify_packet(&mut s, &sdr);
    assert_eq!(d, Decision::Forward);
    // The id is 261, of which the channel is the low byte.
    assert_eq!(s.exlap_channel, 5);
    assert!(!s.connecting_started);
    assert!(s.outbound.is_empty());
    assert_eq!(s.creds, vec![3, 1]);
    assert_eq!(s.subscribe_urls, vec!["a", "b"]);
    assert_eq!(s.subscribe_ival_ms, 500);
    assert_eq!(s.battery_capacity_wh, Some(58000));
    assert!(s.debug);
    // From the phone, or cut short, it means nothing.
    open_channel(&mut s, 0);
    let mut other = packet(ProxyType::MobileDevice, 0, 0x0B, &[0, 6]);
    other.message_id = 6;
    modify_packet(&mut s, &other);
    assert!(s.connecting_started);
    let mut short = packet(ProxyType::HeadUnit, 0, 0x0B, &[0]);
    short.message_id = 6;
    modify_packet(&mut s, &short);
    assert!(s.connecting_started);
}

#[test]
fn discovery_without_exlap_begins_anew_on_the_same_channel() {
    let mut s = state("3,1", "a,b");
    s.exlap_channel = 9;
    open_channel(&mut s, 0);
    let id = authenticate(&mut s, 0);
    directory(&mut s, 0, id, &["a"]);
    let mut sdr = packet(ProxyType::HeadUnit, 0, 0x0B, &[0, 6]);
    sdr.message_id = 6;
    modify_packet(&mut s, &sdr);
    assert_eq!(s.exlap_channel, 9);
    assert!(!s.connecting_started);
    assert!(s.outbound.is_empty());
    assert!(s.sessions.iter().all(|x| matches!(x.state, SessionState::Pending)));
    assert_eq!(s.creds, vec![3, 1]);
    assert_eq!(s.subscribe_urls, vec!["a", "b"]);
    assert_eq!(s.subscribe_ival_ms, 500);
    assert_eq!(s.battery_capacity_wh, Some(58000));
    // What was claimed is free again.
    open_channel(&mut s, 0);
    let id = authenticate(&mut s, 0);
    directory(&mut s, 0, id, &["a"]);
    assert!(carry(&mut s)[0].contains("<Subscribe url=\"a\""));
}

#[test]
fn a_url_that_is_listed_twice_is_subscribed_once() {
    let mut s = state("2", "*");
    open_channel(&mut s, 0);
    let id = authenticate(&mut s, 0);
    directory(&mut s, 0, id, &["door", "speed", "door"]);
    let out = carry(&mut s);
    assert_eq!(out.len(), 2);
    assert!(out[0].contains("<Subscribe url=\"door\""));
    assert!(out[1].contains("<Subscribe url=\"speed\""));
}

#[test]
fn a_session_that_is_not_ready_claims_nothing() {
    let mut s = state("2,1", "*");
    open_channel(&mut s, 0);
    let id = authenticate(&mut s, 0);
    // The directory comes, but the session is over before it subscribes.
    s.subscribe_urls = Vec::new();
    directory(&mut s, 0, id, &["a"]);
    s.subscribe_urls = vec!["*".to_string()];
    say(&mut s, 0, "<Status><Bye/></Status>");
    assert!(matches!(s.sessions[0].phase(), Some(Phase::Closed)));
    carry(&mut s);
    take_log(&mut s);
    on_directory(&mut s, 0);
    assert!(carry(&mut s).is_empty());
    assert!(!s.sessions[0].subscribed);
    assert!(matches!(
        take_log(&mut s)[..],
        [Notice::SubscribeRefused { cred: 2, phase: Phase::Closed }]
    ));
    // The next session can have it.
    let id = authenticate(&mut s, 1);
    directory(&mut s, 1, id, &["a"]);
    assert!(carry(&mut s)[0].contains("<Subscribe url=\"a\""));
}

#[test]
fn a_status_is_taken_in_every_phase() {
    let mut s = state("0", "*");
    open_channel(&mut s, 0);
    receive(&mut s, "<ExlapConnectionReturn connected=\"true\"/>");
    say(&mut s, 0, "<Status><Init/></Status>");
    say(&mut s, 0, "<Rsp/>");
    assert!(matches!(s.sessions[0].phase(), Some(Phase::Challenge)));
    carry(&mut s);
    // No nonce is read off a status.
    let ping = format!("<Status><Alive/><Challenge nonce=\"{}é\"/></Status>", "x".repeat(43));
    say(&mut s, 0, &ping);
    let out = carry(&mut s);
    assert_eq!(out.len(), 1);
    assert!(out[0].contains("<Alive/>"));
    assert!(matches!(s.sessions[0].phase(), Some(Phase::Challenge)));
    say(&mut s, 0, "<Status><Bye/></Status>");
    assert!(matches!(s.sessions[0].phase(), Some(Phase::Closed)));
    assert!(carry(&mut s).is_empty());
}

#[test]
fn every_session_says_goodbye() {
    let mut s = state("2,1", "*");
    open_channel(&mut s, 0);
    let id = authenticate(&mut s, 0);
    directory(&mut s, 0, id, &["a"]);
    let waiting = s.outbound.len();
    let sid = s.sessions[0].session_id.clone();
    let out = on_destroy(&mut s);
    assert_eq!(out.len(), waiting + 1);
    let last = String::from_utf8(out[waiting].payload.clone()).unwrap();
    assert!(last.contains(&sid) && last.contains("<Bye/>"));
    assert!(matches!(s.sessions[0].phase(), Some(Phase::Closed)));
    assert!(carry(&mut s).is_empty());
}

#[test]
fn commands_reach_the_sessions_that_are_ready() {
    let mut s = state("2,1", "none");
    let ask = |s: &mut ExlapState, json: &str| ws_script_handler(s, "exlap-hook", json);
    assert_eq!(ask(&mut s, r#"{"cmd":"get","url":"a"}"#), "error: no active sessions");
    open_channel(&mut s, 0);
    let id = authenticate(&mut s, 0);
    directory(&mut s, 0, id, &["a"]);
    carry(&mut s);
    let cases = [
        (r#"{"cmd":"subscribe","url":"a"}"#, "<Subscribe url=\"a\" ival=\"500\" timeStamp=\"true\"/>"),
        (r#"{"cmd":"unsubscribe","url":"a<b"}"#, "<Unsubscribe url=\"a&lt;b\"/>"),
        (r#"{"cmd":"get","url":"a\"b"}"#, "<Get url=\"a&quot;b\" timeStamp=\"true\"/>"),
        (r#"{"cmd":"call","url":"Mute"}"#, "<Call url=\"Mute\"/>"),
        (
            r#"{"cmd":"call","url":"X","params":[{"kind":"Enm","name":"S","val":"H"},{"val":"no name"},{"name":"t"}]}"#,
            "<Call url=\"X\"><Enm name=\"S\" val=\"H\"/><Txt name=\"t\" val=\"\"/></Call>",
        ),
        (r#"{"cmd":"interface","url":"Nav&Go"}"#, "<Interface url=\"Nav&amp;Go\"/>"),
    ];
    for (json, body) in cases {
        assert_eq!(ask(&mut s, json), "ok");
        let out = carry(&mut s);
        assert_eq!(out.len(), 1, "{}", json);
        assert!(out[0].contains(&format!("\">{}</Req>", body)), "{} {}", json, out[0]);
    }
}

#[test]
fn commands_reach_every_session_that_runs() {
    let mut s = state("2,1,0", "none");
    open_channel(&mut s, 0);
    receive(&mut s, "<ExlapConnectionReturn connected=\"true\"/>");
    carry(&mut s);
    let get = r#"{"cmd":"get","url":"a"}"#;
    // One runs, but none is ready.
    assert_eq!(ws_script_handler(&mut s, "exlap-hook", get), "error: no active sessions");
    assert!(carry(&mut s).is_empty());
    let mut s = state("2,1,0", "none");
    open_channel(&mut s, 0);
    let id = authenticate(&mut s, 0);
    directory(&mut s, 0, id, &["a"]);
    receive(&mut s, "<ExlapConnectionReturn connected=\"true\"/>");
    carry(&mut s);
    s.debug = true;
    assert_eq!(ws_script_handler(&mut s, "exlap-hook", get), "ok");
    assert!(matches!(
        &take_log(&mut s)[..],
        [Notice::Asked { verb, url, sessions: 2 }] if verb == "get" && url == "a"
    ));
    let out = carry(&mut s);
    assert_eq!(out.len(), 2);
    for i in 0..2 {
        assert!(out[i].contains(&s.sessions[i].session_id));
        assert!(out[i].contains("<Get url=\"a\" timeStamp=\"true\"/>"));
    }
}

#[test]
fn commands_that_are_wrong_are_refused() {
    let mut s = state("2", "*");
    assert_eq!(ws_script_handler(&mut s, "other", "{}"), "");
    assert_eq!(ws_script_handler(&mut s, "exlap-hook", "{"), "error: invalid JSON");
    assert_eq!(ws_script_handler(&mut s, "exlap-hook", "{}"), "error: unknown cmd \"\"");
    assert_eq!(ws_script_handler(&mut s, "exlap-hook", r#"{"cmd":"a\"b"}"#), "error: unknown cmd \"a\\\"b\"");
    assert_eq!(ws_script_handler(&mut s, "exlap-hook", "[1]"), "error: unknown cmd \"\"");
    for cmd in ["subscribe", "unsubscribe", "get", "call", "interface"] {
        let json = format!("{{\"cmd\":\"{}\",\"url\":5}}", cmd);
        assert_eq!(ws_script_handler(&mut s, "exlap-hook", &json), "error: missing url");
    }
    assert!(take_effects(&mut s).is_empty());
}

#[test]
fn sessions_and_values_are_shown() {
    let mut s = state("2,1", "none");
    open_channel(&mut s, 0);
    let id = authenticate(&mut s, 0);
    directory(&mut s, 0, id, &["a", "FnB"]);
    receive(&mut s, "<ExlapStatement><Dat url=\"speed\"><Abs name=\"v\" val=\"3\"/></Dat></ExlapStatement>");
    take_effects(&mut s);
    assert_eq!(ws_script_handler(&mut s, "exlap-hook", r#"{"cmd":"list"}"#), "ok");
    assert_eq!(ws_script_handler(&mut s, "exlap-hook", r#"{"cmd":"values"}"#), "ok");
    let told = take_effects(&mut s);
    match &told[0] {
        Effect::Sessions(list) => {
            assert_eq!(list.len(), 2);
            assert_eq!(list[0].connection.connection_state, "active");
            assert_eq!(list[0].urls.len(), 2);
            assert!(list[0].urls[1].callable);
            assert_eq!(list[1].connection.cred_idx, 1);
            assert_eq!(list[1].connection.user, "RSE_L-CA2000");
            assert_eq!(list[1].connection.connection_state, "connecting");
            assert!(list[1].urls.is_empty());
        }
        other => panic!("{:?}", other),
    }
    match &told[1] {
        Effect::Values(list) => {
            assert_eq!(list.len(), 1);
            assert_eq!(list[0].url, "speed");
        }
        other => panic!("{:?}", other),
    }
}

#[test]
fn the_verbose_log_is_written_when_it_is_on() {
    let mut s = state("2", "*");
    debug_log(&mut s, "a");
    open_channel(&mut s, 0);
    receive(&mut s, "<Status><Alive/></Status>");
    assert!(take_log(&mut s).is_empty());
    s.debug = true;
    debug_log(&mut s, "b");
    assert!(matches!(&take_log(&mut s)[..], [Notice::Debug(line)] if line == "b"));
}

#[test]
fn the_verbose_log_tells_of_a_session() {
    let mut s = state("2", "*");
    s.debug = true;
    open_channel(&mut s, 0);
    match &take_log(&mut s)[..] {
        [Notice::ControlSeen { from: ProxyType::HeadUnit, msg_id: 8 }, Notice::ChannelOpened { channel: 0x7E, status: 0, sessions: 1 }, Notice::Starting { cred: 2, user, session_id }] =>
        {
            assert_eq!(user, "RSE_3-DE1400");
            assert_eq!(*session_id, s.sessions[0].session_id);
        }
        other => panic!("{:?}", other),
    }
    open_channel(&mut s, 4);
    assert!(matches!(take_log(&mut s)[..], [Notice::ControlSeen { .. }, Notice::OpenUnexpected(4)]));
    modify_packet(&mut s, &packet(ProxyType::HeadUnit, 0x7E, 0x0F, &[1, 2]));
    assert!(matches!(
        take_log(&mut s)[..],
        [Notice::ControlSeen { msg_id: 0x0102, .. }, Notice::ControlPassed { msg_id: 0x0102, .. }]
    ));
    assert_eq!(carry(&mut s).len(), 1);
    assert!(matches!(take_log(&mut s)[..], [Notice::Flushing(1)]));
    receive(&mut s, "<ExlapConnectionReturn connected=\"true\"/>");
    match &take_log(&mut s)[..] {
        [Notice::FrameReceived { from: ProxyType::HeadUnit, xml }, Notice::Connected(2), Notice::AwaitingInit(sid)] =>
        {
            assert_eq!(xml.text, "<ExlapConnectionReturn connected=\"true\"/>");
            assert_eq!(xml.left_out, 0);
            assert_eq!(*sid, s.sessions[0].session_id);
        }
        other => panic!("{:?}", other),
    }
    receive(&mut s, "<ExlapConnectionReturn connected=\"true\"/>");
    assert!(matches!(take_log(&mut s)[..], [Notice::FrameReceived { .. }, Notice::ReturnUnexpected]));
    receive(&mut s, "<Status><Init/></Status>");
    assert!(matches!(take_log(&mut s)[..], [Notice::FrameReceived { .. }, Notice::BannerFor(2), ..]));
    receive(&mut s, "<Status><Init/></Status>");
    assert!(matches!(take_log(&mut s)[..], [Notice::FrameReceived { .. }, Notice::BannerIgnored]));
    say(&mut s, 0, "<Rsp id=\"1\"/>");
    say(&mut s, 0, "<Rsp id=\"2\"><Challenge nonce=\"abc\"/></Rsp>");
    take_log(&mut s);
    say(&mut s, 0, "<Rsp id=\"3\"/>");
    assert!(matches!(take_log(&mut s)[..], [Notice::FrameReceived { .. }, Notice::Authenticated(2)]));
    let out = carry(&mut s);
    let dir = out.last().unwrap();
    let id = exlap::attr(&dir[dir.find("<Req").unwrap()..], "id").unwrap().parse().unwrap();
    take_log(&mut s);
    directory(&mut s, 0, id, &["a", "FnB", "c"]);
    assert!(matches!(
        take_log(&mut s)[..],
        [Notice::FrameReceived { .. }, Notice::Exposes { cred: 2, data: 2, callable: 1, subscribing: 2 }]
    ));
    say(&mut s, 0, "<Rsp id=\"7\" status=\"noMatchingUrl\"/>");
    assert!(matches!(
        &take_log(&mut s)[..],
        [Notice::FrameReceived { .. }, Notice::Replied { cred: 2, id: 7, word }] if word == "noMatchingUrl"
    ));
    say(&mut s, 0, "<Rsp id=\"8\" status=\"subscriptionLimitReached\"/>");
    assert!(matches!(take_log(&mut s)[..], [Notice::FrameReceived { .. }, Notice::LimitReached(2)]));
    say(&mut s, 0, "<Dat url=\"tankLevelPrimary\"><Rel name=\"level\" val=\".5\"/></Dat>");
    assert!(matches!(
        &take_log(&mut s)[..],
        [Notice::FrameReceived { .. }, Notice::TankLevel(v)] if v == ".5"
    ));
    say(&mut s, 0, "<Dat url=\"outsideTemperature\"><Abs name=\"temperature\" val=\"7\"/></Dat>");
    assert!(matches!(
        &take_log(&mut s)[..],
        [Notice::FrameReceived { .. }, Notice::OutsideTemperature(v)] if v == "7"
    ));
    let long = format!("<Status>{}</Status>", "x".repeat(600));
    say(&mut s, 0, &long);
    match &take_log(&mut s)[..] {
        [Notice::FrameReceived { xml: whole, .. }, Notice::Received { cred: 2, xml }] => {
            assert_eq!(whole.text.len(), 480);
            assert_eq!(xml.text, long[..160]);
            assert_eq!(xml.left_out, long.len() - 160);
        }
        other => panic!("{:?}", other),
    }
    on_destroy(&mut s);
    assert!(matches!(take_log(&mut s).last(), Some(Notice::Destroyed)));
}

#[test]
fn the_verbose_log_tells_of_frames() {
    let mut s = state("2", "*");
    s.debug = true;
    let mut last = |from: ProxyType, xml: &str| {
        modify_packet(&mut s, &packet(from, 0x7E, 0x0B, xml.as_bytes()));
        take_log(&mut s).pop().unwrap()
    };
    let hu = ProxyType::HeadUnit;
    assert!(matches!(last(hu, "<Status><Alive/></Status>"), Notice::PingAnswered));
    assert!(matches!(last(hu, "<Status><Dataloss/></Status>"), Notice::Dataloss));
    assert!(matches!(last(hu, "<Status/>"), Notice::UnhandledStatus(x) if x == "<Status/>"));
    assert!(matches!(last(hu, "<Other a=\"1\"/>"), Notice::UnknownRoot(x) if x == "Other"));
    assert!(matches!(last(hu, "nothing"), Notice::UnknownRoot(x) if x.is_empty()));
    assert!(matches!(
        last(hu, "<ExlapStatement session_id=\"z\"><Rsp/></ExlapStatement>"),
        Notice::Harvesting(x) if x == "z"
    ));
    let long = "y".repeat(200);
    match last(ProxyType::MobileDevice, &long) {
        Notice::DuplicateSkipped { from: ProxyType::MobileDevice, xml } => {
            assert_eq!((xml.text.len(), xml.left_out), (120, 80));
        }
        other => panic!("{:?}", other),
    }
    s.send_xml(&long);
    receive(&mut s, &long);
    match &take_log(&mut s)[..] {
        [Notice::EchoSkipped { from: ProxyType::HeadUnit, xml }] => {
            assert_eq!((xml.text.len(), xml.left_out), (160, 40));
        }
        other => panic!("{:?}", other),
    }
    receive(&mut s, "<ExlapConnectionClosed/>");
    assert!(matches!(
        take_log(&mut s)[..],
        [Notice::FrameReceived { .. }, Notice::ConnectionsClosed, Notice::Starting { cred: 2, .. }]
    ));
    receive(&mut s, "<Status><Bye/></Status>");
    assert!(matches!(
        take_log(&mut s)[..],
        [Notice::FrameReceived { .. }, Notice::ByeReceived, Notice::Starting { cred: 2, .. }]
    ));
    let mut sdr = packet(ProxyType::HeadUnit, 0, 0x0B, &[0, 6]);
    sdr.message_id = 6;
    modify_packet(&mut s, &sdr);
    assert!(matches!(take_log(&mut s)[..], [Notice::DiscoveredNothing]));
    sdr.payload = vec![0, 6, 0x0A, 38, 0x08, 0x85, 0x02, 0x62, 33, 0x0A, 31];
    sdr.payload.extend_from_slice(b"com.vwag.infotainment.gal.exlap");
    modify_packet(&mut s, &sdr);
    assert!(matches!(take_log(&mut s)[..], [Notice::Discovered { service_id: 261, channel: 5 }]));
}
