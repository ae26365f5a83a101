use exlap_hook::discovery::{
    build_chan_open_request, find_exlap_service_id, is_exlap_vendor_service,
    parse_service_for_exlap, EXLAP_SERVICE_NAME,
};
use exlap_hook::nonce::{b64, hex_text, make_cnonce, make_session_id};
use exlap_hook::packet::{dir_str, ProxyType};
use exlap_hook::plan::{pick_urls, wanted_urls};
use exlap_hook::protocol::{user_count, user_name, Entry};
use exlap_hook::text::{insert_in_order, less_text, trimmed_pieces, white_space};
use exlap_hook::wire::{encode_varint, read_varint};

fn field(tag: u8, body: &[u8]) -> Vec<u8> {
    let mut out = vec![tag];
    encode_varint(body.len() as u64, &mut out);
    out.extend_from_slice(body);
    out
}

fn service(id: u64, name: &str) -> Vec<u8> {
    let mut out = vec![0x08];
    encode_varint(id, &mut out);
    out.extend_from_slice(&field(0x62, &field(0x0A, name.as_bytes())));
    out
}

#[test]
fn varints_have_their_bytes() {
    let mut buf = Vec::new();
    encode_varint(0, &mut buf);
    encode_varint(127, &mut buf);
    encode_varint(300, &mut buf);
    assert_eq!(buf, vec![0, 127, 0xAC, 0x02]);
    assert_eq!(read_varint(&buf, 2), Some((300, 2)));
    assert_eq!(read_varint(&buf, 4), None);
    assert_eq!(read_varint(&[0x80], 0), None);
}

#[test]
fn varints_read_back() {
    for v in [0, 1, 127, 128, 16383, 16384, u32::MAX as u64, 1 << 63, u64::MAX] {
        let mut buf = vec![9];
        encode_varint(v, &mut buf);
        let n = buf.len() - 1;
        buf.push(7);
        assert_eq!(read_varint(&buf, 1), Some((v, n)));
    }
    assert_eq!(read_varint(&[0xFF; 11], 0), None);
}

#[test]
fn the_exlap_service_is_found_by_its_name() {
    let mut sdr = Vec::new();
    sdr.extend_from_slice(&field(0x0A, &service(3, "com.example.other")));
    sdr.extend_from_slice(&field(0x12, b"name"));
    sdr.extend_from_slice(&[0x1D, 1, 2, 3, 4, 0x21, 1, 2, 3, 4, 5, 6, 7, 8, 0x28, 5]);
    assert_eq!(find_exlap_service_id(&sdr), None);
    sdr.extend_from_slice(&field(0x0A, &service(126, EXLAP_SERVICE_NAME)));
    sdr.extend_from_slice(&field(0x0A, &service(127, EXLAP_SERVICE_NAME)));
    assert_eq!(find_exlap_service_id(&sdr), Some(126));
}

#[test]
fn the_first_exlap_service_decides() {
    let rest = field(0x0A, &service(7, EXLAP_SERVICE_NAME));
    let mut cut = service(5, EXLAP_SERVICE_NAME);
    cut.pop();
    for first in [service(5, EXLAP_SERVICE_NAME), service(5, "other"), cut, vec![0xFF, 0x0B], vec![]] {
        let mut sdr = field(0x0A, &first);
        sdr.extend_from_slice(&rest);
        let want = parse_service_for_exlap(&first).or(find_exlap_service_id(&rest));
        assert_eq!(find_exlap_service_id(&sdr), want);
        assert_eq!(want, Some(if first == service(5, EXLAP_SERVICE_NAME) { 5 } else { 7 }));
    }
}

#[test]
fn a_broken_response_has_no_service() {
    let whole = field(0x0A, &service(126, EXLAP_SERVICE_NAME));
    assert_eq!(find_exlap_service_id(&whole), Some(126));
    assert_eq!(find_exlap_service_id(&whole[..whole.len() - 1]), None);
    assert_eq!(find_exlap_service_id(&[0x0B]), None);
    assert_eq!(find_exlap_service_id(&[]), None);
    // A group tag before the service ends the reading.
    let mut broken = vec![0x0B];
    broken.extend_from_slice(&whole);
    assert_eq!(find_exlap_service_id(&broken), None);
}

#[test]
fn a_service_needs_an_id_and_a_whole_extension() {
    let ext = field(0x62, &field(0x0A, EXLAP_SERVICE_NAME.as_bytes()));
    assert_eq!(parse_service_for_exlap(&ext), None);
    let mut twice = ext.clone();
    twice.extend_from_slice(&[0x08, 4, 0x08, 5]);
    assert_eq!(parse_service_for_exlap(&twice), Some(5));
    let mut cut = twice.clone();
    cut.extend_from_slice(&[0x62, 9, 1]);
    assert_eq!(parse_service_for_exlap(&cut), None);
    // Another field that is cut does not matter.
    let mut other = twice.clone();
    other.extend_from_slice(&[0x6A, 9, 1]);
    assert_eq!(parse_service_for_exlap(&other), Some(5));
}

#[test]
fn the_vendor_name_must_match() {
    assert!(is_exlap_vendor_service(&field(0x0A, EXLAP_SERVICE_NAME.as_bytes())));
    assert!(!is_exlap_vendor_service(&field(0x0A, b"com.vwag.infotainment.gal.exla")));
    assert!(!is_exlap_vendor_service(&field(0x12, EXLAP_SERVICE_NAME.as_bytes())));
    assert!(!is_exlap_vendor_service(&[]));
}

#[test]
fn a_channel_open_request_has_its_bytes() {
    let p = build_chan_open_request(0x7E, 300);
    assert_eq!(p.payload, vec![0, 7, 8, 0, 0x10, 0xAC, 0x02]);
    assert_eq!(p.packet_flags, 0x0F);
    assert_eq!(p.message_id, 7);
    assert_eq!(p.channel, 0x7E);
    assert!(matches!(p.proxy_type, ProxyType::MobileDevice));
}

#[test]
fn base64_pads_every_tail_length() {
    assert_eq!(b64(b""), "");
    assert_eq!(b64(b"a"), "YQ==");
    assert_eq!(b64(b"ab"), "YWI=");
    assert_eq!(b64(b"abc"), "YWJj");
    assert_eq!(b64(&[0xFB, 0xFF, 0xBF]), "+/+/");
    assert_eq!(b64(b"hello world"), "aGVsbG8gd29ybGQ=");
}

#[test]
fn random_texts_have_their_form() {
    assert_eq!(hex_text(&[0x00, 0x0F, 0xA5, 0xFF]), "000fa5ff");
    let id = make_session_id();
    assert_eq!(id.len(), 32);
    assert!(id.chars().all(|c| c.is_ascii_digit() || ('a'..='f').contains(&c)));
    let n = make_cnonce();
    assert_eq!(n.len(), 24);
    assert!(n.ends_with("=="));
    // Sixteen random bytes are not twice the same, nor left at zero.
    assert_ne!(id, make_session_id());
    assert_ne!(n, make_cnonce());
}

#[test]
fn white_space_is_what_std_says() {
    for c in (0..=0x10FFFFu32).filter_map(char::from_u32) {
        assert_eq!(white_space(c), c.is_whitespace(), "{:?}", c);
    }
}

#[test]
fn pieces_are_those_of_std() {
    for s in ["", ",", "a", " a ,b", "a,,b,", "\u{a0}x\u{3000},é y "] {
        let want: Vec<String> = s.split(',').map(|p| p.trim().to_string()).collect();
        assert_eq!(trimmed_pieces(s), want);
    }
}

#[test]
fn texts_are_ordered_as_std_orders_them() {
    let words = ["", "a", "ab", "b", "Z", "é", "\u{ffff}", "\u{10000}", "zz"];
    for a in words {
        for b in words {
            assert_eq!(less_text(a, b), a < b, "{:?} {:?}", a, b);
        }
    }
    let mut list = Vec::new();
    for w in ["b", "a", "c", "a", "b"] {
        insert_in_order(&mut list, w.to_string());
    }
    assert_eq!(list, vec!["a", "b", "c"]);
}

#[test]
fn a_session_takes_what_is_configured_offered_and_free() {
    let entry = |url: &str, callable: bool| Entry { url: url.to_string(), callable };
    let dir = vec![entry("speed", false), entry("Play", true), entry("door", false), entry("rpm", false)];
    let urls = |l: &[&str]| l.iter().map(|s| s.to_string()).collect::<Vec<String>>();
    let mut claimed = vstd::hash_set::StringHashSet::new();
    claimed.insert("door".to_string());
    assert_eq!(wanted_urls(&urls(&["*"]), &dir, &claimed), vec!["rpm", "speed"]);
    assert_eq!(wanted_urls(&urls(&["speed", "door", "Play", "none", "speed"]), &dir, &claimed), vec!["speed"]);
    assert!(wanted_urls(&urls(&[]), &dir, &claimed).is_empty());
}

#[test]
fn urls_are_picked_once_each_in_the_order_of_the_directory() {
    let entry = |url: &str, callable: bool| Entry { url: url.to_string(), callable };
    let dir = vec![
        entry("speed", false),
        entry("door", false),
        entry("Play", true),
        entry("speed", false),
        entry("rpm", false),
    ];
    let urls = |l: &[&str]| l.iter().map(|s| s.to_string()).collect::<Vec<String>>();
    assert_eq!(pick_urls(&dir, &urls(&["rpm", "speed"])), vec!["speed", "rpm"]);
    assert_eq!(pick_urls(&dir, &urls(&["Play", "none"])), Vec::<String>::new());
    assert!(pick_urls(&dir, &[].to_vec()).is_empty());
}

#[test]
fn credentials_have_their_users() {
    assert_eq!(user_count(), exlap::USERS.len());
    for i in 0..user_count() {
        assert_eq!(user_name(i), exlap::USERS[i]);
    }
    assert_eq!(dir_str(ProxyType::HeadUnit), "HU");
    assert_eq!(dir_str(ProxyType::MobileDevice), "MD");
}
