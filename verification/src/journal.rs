//! What the log is told, line by line, of what the hook sees and does.

use crate::channel::{frame_kind, open_status, or_empty};
use crate::command::CommandView;
use crate::config::{cred_list, url_list, SettingsView};
use crate::discovery::advertised_exlap;
use crate::frame::attr_in_tag;
use crate::growth::{lemma_feed_grows, lemma_start_grows};
use crate::hook::{created, get_body, unsubscribe_body};
use crate::laws::lemma_xml_keeps;
use crate::outcomes::{
    completes, discovers, frame_bytes, gives, is_data, lemma_kinds, lemma_number, opens_channel,
};
use crate::packet::{PacketView, ProxyType};
use crate::plan::offered;
use crate::protocol::{
    awaiting_directory, call_body, feed_events, interface_body, ping, rsp_status, subscribe_body,
    subscribe_frames, DatView, EntryView, EventView, MachineView, ParamView, Phase,
};
use crate::replies::{lemma_ask, lemma_names, some_ready};
use crate::report::{ExcerptView, NoticeView};
use crate::state::{
    lemma_first_session, lemma_sent_all, pending_sessions, waiting_session, LinkView, SessionView,
    StateView,
};
use crate::text::{contains_text, parse_unsigned};
use vstd::prelude::*;
use vstd::utf8::encode_utf8;

verus! {

/// The first line that came to the log, where the verbose log is on.
pub open spec fn begins_with_line(s: StateView, t: StateView, n: NoticeView) -> bool {
    s.debug ==> s.log.len() < t.log.len() && t.log[s.log.len() as int] == n
}

/// Just this line came to the log, where the verbose log is on, and none where it
/// is off.
pub open spec fn only_line(s: StateView, t: StateView, n: NoticeView) -> bool {
    t.log == if s.debug {
        s.log.push(n)
    } else {
        s.log
    }
}

/// An excerpt shows the first `n` characters of a text, and how many follow.
pub open spec fn shows(e: ExcerptView, text: Seq<char>, n: int) -> bool {
    &&& text.len() <= n ==> e.text == text && e.left_out == 0
    &&& text.len() > n ==> e.text == text.take(n) && e.left_out == (text.len() - n) as usize
}

// -- Settings --------------------------------------------------------------------

/// A setting that is taken over is logged, with what was read.
pub proof fn law_settings_are_logged(s: StateView, value: Seq<char>)
    ensures
        parse_unsigned(value, 255) matches Some(n) ==> only_line(
            s,
            s.configured("exlap_channel"@, value),
            NoticeView::ChannelSet(n as u8),
        ),
        only_line(
            s,
            s.configured("exlap_creds"@, value),
            NoticeView::CredsSet(cred_list(value)),
        ),
        only_line(
            s,
            s.configured("exlap_subscribe_urls"@, value),
            NoticeView::UrlsSet(url_list(value)),
        ),
        parse_unsigned(value, u32::MAX as nat) matches Some(n) ==> n > 0 ==> only_line(
            s,
            s.configured("exlap_subscribe_ival_ms"@, value),
            NoticeView::IvalSet(n as u32),
        ),
        only_line(
            s,
            s.configured("exlap_battery_capacity_wh"@, value),
            NoticeView::CapacitySet(
                s.configured("exlap_battery_capacity_wh"@, value).battery_capacity_wh,
            ),
        ),
        s.configured("exlap_debug"@, value).log == s.log.push(
            NoticeView::DebugSet(value == "true"@ || value == "1"@),
        ),
{
    lemma_names();
}

/// The first line of the verbose log says what the hook was loaded with.
pub proof fn law_loading_is_logged(c: SettingsView)
    ensures
        c.debug ==> created(c).log == seq![
            NoticeView::Created {
                channel: c.channel,
                creds: c.creds,
                subscribe_urls: c.subscribe_urls,
                ival_ms: c.subscribe_ival_ms,
                capacity_wh: c.battery_capacity_wh,
            },
        ],
        !c.debug ==> created(c).log.len() == 0,
{
    if c.debug {
        assert(created(c).log =~= seq![
            NoticeView::Created {
                channel: c.channel,
                creds: c.creds,
                subscribe_urls: c.subscribe_urls,
                ival_ms: c.subscribe_ival_ms,
                capacity_wh: c.battery_capacity_wh,
            },
        ]);
    }
}

// -- Packets ---------------------------------------------------------------------

/// Frames that leave are counted.
pub proof fn law_leaving_frames_are_logged(s: StateView, pkt: PacketView)
    ensures
        pkt.proxy_type == ProxyType::MobileDevice && s.outbound.len() > 0 ==> only_line(
            s,
            s.carried(pkt),
            NoticeView::Flushing(s.outbound.len() as usize),
        ),
        pkt.proxy_type == ProxyType::HeadUnit || s.outbound.len() == 0 ==> s.carried(pkt).log
            == s.log,
{
}

/// A frame of the head unit is logged before it is acted on.
pub proof fn law_received_frames_are_logged(
    s: StateView,
    pkt: PacketView,
    xml: Seq<char>,
    t: StateView,
)
    requires
        s.sees(pkt, t),
        completes(s, pkt, xml),
        s.debug,
    ensures
        s.log.len() < t.log.len(),
        t.log[s.log.len() as int] matches NoticeView::FrameReceived { from, xml: e } && from
            == ProxyType::HeadUnit && shows(e, xml, 480),
{
    vstd::utf8::encode_utf8_valid_utf8(xml);
    vstd::utf8::encode_utf8_decode_utf8(xml);
    let u = s.received(pkt.proxy_type, xml);
    assert(s.carried(pkt).adopted(pkt) == s);
    lemma_xml_keeps(u, xml, t);
    assert(t.log[s.log.len() as int] == u.log[s.log.len() as int]);
}

/// A frame that the hook sent, or that is on its way to the phone, is logged as
/// such.
pub proof fn law_skipped_frames_are_logged(
    s: StateView,
    pkt: PacketView,
    xml: Seq<char>,
    t: StateView,
)
    requires
        s.sees(pkt, t),
        is_data(s, pkt),
        pkt.packet_flags & 0x02 != 0,
        frame_bytes(s, pkt) == encode_utf8(xml),
        s.debug,
    ensures
        s.recently_sent.contains(xml) ==> t.log.len() > s.log.len() && (t.log.last()
            matches NoticeView::EchoSkipped { from, xml: e } && from == pkt.proxy_type && shows(
            e,
            xml,
            160,
        )),
        !s.recently_sent.contains(xml) && pkt.proxy_type == ProxyType::MobileDevice
            ==> t.log.len() > s.log.len() && (t.log.last() matches NoticeView::DuplicateSkipped {
            from,
            xml: e,
        } && from == pkt.proxy_type && shows(e, xml, 120)),
{
    vstd::utf8::encode_utf8_valid_utf8(xml);
    vstd::utf8::encode_utf8_decode_utf8(xml);
}

/// A control message on the channel is logged with its id, and again where it means
/// nothing here, or opens the channel.
pub proof fn law_control_messages_are_logged(s: StateView, pkt: PacketView, t: StateView)
    requires
        s.sees(pkt, t),
        pkt.proxy_type == ProxyType::HeadUnit,
        pkt.channel == s.channel,
        pkt.channel == 0 ==> pkt.message_id != 6,
        pkt.packet_flags & 0x04 != 0,
        pkt.payload.len() >= 2,
        s.debug,
    ensures
        ({
            let at = s.log.len() as int;
            let id = (pkt.payload[0] * 256 + pkt.payload[1]) as u16;
            let status = if pkt.payload.len() >= 4 && pkt.payload[2] == 0x08 {
                pkt.payload[3]
            } else {
                0u8
            };
            &&& t.log.len() > at + 1
            &&& t.log[at] == NoticeView::ControlSeen { from: ProxyType::HeadUnit, msg_id: id }
            &&& !opens_channel(s, pkt) ==> t.log[at + 1] == NoticeView::ControlPassed {
                from: ProxyType::HeadUnit,
                msg_id: id,
            }
            &&& opens_channel(s, pkt) && s.connecting_started ==> t.log[at + 1]
                == NoticeView::OpenUnexpected(status)
            &&& opens_channel(s, pkt) && !s.connecting_started && status == 0 ==> t.log[at + 1]
                == NoticeView::ChannelOpened {
                channel: s.channel,
                status,
                sessions: s.sessions.len() as usize,
            }
            &&& opens_channel(s, pkt) && !s.connecting_started && status != 0 ==> t.log[at + 1]
                == NoticeView::OpenStatus { status, channel: s.channel }
        }),
{
    let at = s.log.len() as int;
    let id = (pkt.payload[0] * 256 + pkt.payload[1]) as u16;
    let d = s.debugged(NoticeView::ControlSeen { from: pkt.proxy_type, msg_id: id });
    assert(s.carried(pkt).adopted(pkt) == s);
    assert(d.handles_control(pkt, t));
    if opens_channel(s, pkt) && !s.connecting_started {
        let u = d.opened(open_status(pkt.payload));
        lemma_start_grows(u, -1, t);
        assert(t.log[at] == u.log[at]);
        assert(t.log[at + 1] == u.log[at + 1]);
    }
}

/// What discovery advertises is logged.
pub proof fn law_discovery_is_logged(s: StateView, pkt: PacketView, t: StateView)
    requires
        s.sees(pkt, t),
        discovers(pkt),
        pkt.payload.len() >= 2,
    ensures
        only_line(
            s,
            t,
            match advertised_exlap(pkt.payload.skip(2)) {
                Some(id) => NoticeView::Discovered { service_id: id, channel: id as u8 },
                None => NoticeView::DiscoveredNothing,
            },
        ),
{
}

// -- Frames ----------------------------------------------------------------------

proof fn lemma_reports_log_nothing(s: StateView, n: int)
    ensures
        s.all_reported(n).log == s.log,
    decreases n,
{
    if n > 0 {
        lemma_reports_log_nothing(s, n - 1);
    }
}

proof fn lemma_reset_is_logged(s: StateView, n: NoticeView, t: StateView)
    requires
        s.debugged(n).reset().starts(t),
    ensures
        begins_with_line(s, t, n),
{
    let d = s.debugged(n);
    let u = d.reset();
    let base = StateView {
        sessions: pending_sessions(d.creds),
        claimed: Set::empty(),
        connecting_started: false,
        ..d
    };
    lemma_reports_log_nothing(base, base.sessions.len() as int);
    lemma_start_grows(u, -1, t);
    if s.debug {
        assert(t.log[s.log.len() as int] == u.log[s.log.len() as int]);
    }
}

/// What a frame is taken for is logged.
pub proof fn law_frames_are_logged_by_kind(s: StateView, xml: Seq<char>, t: StateView)
    requires
        s.handles_xml(xml, t),
    ensures
        frame_kind(xml) == "ExlapConnectionClosed"@ ==> begins_with_line(
            s,
            t,
            NoticeView::ConnectionsClosed,
        ),
        frame_kind(xml) == "ExlapConnectionReturn"@ && (forall|j: int|
            0 <= j < s.sessions.len() ==> !((#[trigger] s.sessions[j]).link is WaitConnReturn))
            ==> only_line(s, t, NoticeView::ReturnUnexpected),
        frame_kind(xml) != "ExlapBeacon"@ && frame_kind(xml) != "ExlapConnectionClosed"@
            && frame_kind(xml) != "ExlapConnectionReturn"@ && frame_kind(xml)
            != "ExlapStatement"@ && frame_kind(xml) != "Status"@ ==> only_line(
            s,
            t,
            NoticeView::UnknownRoot(frame_kind(xml)),
        ),
{
    lemma_kinds();
    if frame_kind(xml) == "ExlapConnectionClosed"@ {
        lemma_reset_is_logged(s, NoticeView::ConnectionsClosed, t);
    }
    lemma_first_session(s.sessions, 0, |x: SessionView| x.link is WaitConnReturn);
}

/// A connection that is granted is logged, with the id of its session.
pub proof fn law_granted_connection_is_logged(s: StateView, xml: Seq<char>, t: StateView, k: int)
    requires
        s.handles_xml(xml, t),
        frame_kind(xml) == "ExlapConnectionReturn"@,
        attr_in_tag(xml, "ExlapConnectionReturn"@, "connected"@) == Some("true"@),
        0 <= k < s.sessions.len(),
        s.sessions[k].link is WaitConnReturn,
        forall|j: int| 0 <= j < k ==> !((#[trigger] s.sessions[j]).link is WaitConnReturn),
    ensures
        t.log == if s.debug {
            s.log.push(NoticeView::Connected(s.sessions[k].cred)).push(
                NoticeView::AwaitingInit(s.sessions[k].session_id),
            )
        } else {
            s.log
        },
{
    lemma_kinds();
    let p = |x: SessionView| x.link is WaitConnReturn;
    lemma_first_session(s.sessions, 0, p);
    assert(p(s.sessions[k]));
    match waiting_session(s.sessions) {
        Some(i) => {
            assert(p(s.sessions[i]));
            assert(i == k);
        },
        None => {},
    }
}

/// What a bare status is taken for is logged.
pub proof fn law_bare_status_is_logged(s: StateView, xml: Seq<char>, t: StateView, k: int)
    requires
        s.handles_xml(xml, t),
        frame_kind(xml) == "Status"@,
    ensures
        contains_text(xml, "Alive"@) && s.debug ==> t.log.len() > 0 && t.log.last()
            == NoticeView::PingAnswered,
        !contains_text(xml, "Alive"@) && contains_text(xml, "Bye"@) ==> begins_with_line(
            s,
            t,
            NoticeView::ByeReceived,
        ),
        !contains_text(xml, "Alive"@) && !contains_text(xml, "Bye"@) && contains_text(
            xml,
            "Init"@,
        ) && 0 <= k < s.sessions.len() && awaits_banner(s.sessions[k]) && (forall|j: int|
            0 <= j < k ==> !awaits_banner(#[trigger] s.sessions[j])) ==> begins_with_line(
            s,
            t,
            NoticeView::BannerFor(s.sessions[k].cred),
        ),
        !contains_text(xml, "Alive"@) && !contains_text(xml, "Bye"@) && contains_text(
            xml,
            "Init"@,
        ) && (forall|j: int| 0 <= j < s.sessions.len() ==> !awaits_banner(#[trigger] s.sessions[j]))
            ==> only_line(s, t, NoticeView::BannerIgnored),
        !contains_text(xml, "Alive"@) && !contains_text(xml, "Bye"@) && !contains_text(
            xml,
            "Init"@,
        ) ==> only_line(
            s,
            t,
            if contains_text(xml, "Dataloss"@) {
                NoticeView::Dataloss
            } else {
                NoticeView::UnhandledStatus(xml)
            },
        ),
{
    lemma_kinds();
    if contains_text(xml, "Alive"@) {
        let u = choose|u: StateView|
            s.pings(s.sessions.len() as int, u) && t == #[trigger] u.debugged(
                NoticeView::PingAnswered,
            );
        lemma_pings_keep_debug(s, s.sessions.len() as int, u);
    } else if contains_text(xml, "Bye"@) {
        lemma_reset_is_logged(s, NoticeView::ByeReceived, t);
    } else if contains_text(xml, "Init"@) {
        let p = |x: SessionView| x.phase() == Some(Phase::Init);
        lemma_first_session(s.sessions, 0, p);
        assert forall|j: int| 0 <= j < s.sessions.len() implies p(#[trigger] s.sessions[j])
            == awaits_banner(s.sessions[j]) by {}
        match s.awaiting_init() {
            Some(i) => {
                assert(p(s.sessions[i]));
                assert(awaits_banner(s.sessions[i]));
                let u = s.debugged(NoticeView::BannerFor(s.sessions[i].cred));
                lemma_feed_grows(u, i, xml, t);
                if s.debug {
                    assert(t.log[s.log.len() as int] == u.log[s.log.len() as int]);
                }
                if 0 <= k < s.sessions.len() && awaits_banner(s.sessions[k]) {
                    assert(p(s.sessions[k]));
                }
            },
            None => {
                if 0 <= k < s.sessions.len() && awaits_banner(s.sessions[k]) {
                    assert(p(s.sessions[k]));
                }
            },
        }
    }
}

/// A session runs and awaits its banner.
pub open spec fn awaits_banner(x: SessionView) -> bool {
    x.link matches LinkView::Running(m) && m.phase == Phase::Init
}

proof fn lemma_pings_keep_debug(s: StateView, n: int, t: StateView)
    requires
        0 <= n <= s.sessions.len(),
        s.pings(n, t),
    ensures
        t.debug == s.debug,
        t.sessions.len() == s.sessions.len(),
    decreases n,
{
    if n > 0 {
        let u = choose|u: StateView|
            s.pings(n - 1, u) && #[trigger] u.feeds(n - 1, ping(), t);
        lemma_pings_keep_debug(s, n - 1, u);
        lemma_feed_grows(u, n - 1, ping(), t);
    }
}

/// A statement of a foreign session is logged, with the id that it names.
pub proof fn law_foreign_statement_is_logged(s: StateView, xml: Seq<char>, t: StateView)
    requires
        s.handles_xml(xml, t),
        frame_kind(xml) == "ExlapStatement"@,
        match attr_in_tag(xml, "ExlapStatement"@, "session_id"@) {
            Some(sid) => sid.len() == 0 || forall|j: int|
                0 <= j < s.sessions.len() ==> (#[trigger] s.sessions[j]).session_id != sid,
            None => true,
        },
    ensures
        begins_with_line(
            s,
            t,
            NoticeView::Harvesting(
                match attr_in_tag(xml, "ExlapStatement"@, "session_id"@) {
                    Some(sid) => sid,
                    None => ""@,
                },
            ),
        ),
{
    lemma_kinds();
    reveal_strlit("");
    let sid = or_empty(attr_in_tag(xml, "ExlapStatement"@, "session_id"@));
    let p = |x: SessionView| x.session_id == sid && sid.len() > 0;
    lemma_first_session(s.sessions, 0, p);
    if let Some(i) = s.session_with_id(sid) {
        assert(p(s.sessions[i]));
    }
}

// -- Sessions --------------------------------------------------------------------

/// A level or a temperature is logged as it was written; other data is not logged.
pub proof fn law_readings_are_logged(s: StateView, d: DatView, raw: Seq<char>)
    ensures
        gives(d, "tankLevelPrimary"@, "level"@, raw) ==> only_line(
            s,
            s.with_data(d),
            NoticeView::TankLevel(raw),
        ),
        gives(d, "outsideTemperature"@, "temperature"@, raw) ==> only_line(
            s,
            s.with_data(d),
            NoticeView::OutsideTemperature(raw),
        ),
        d.url != "tankLevelPrimary"@ && d.url != "outsideTemperature"@ ==> s.with_data(d).log
            == s.log,
{
    reveal_strlit("tankLevelPrimary");
    reveal_strlit("outsideTemperature");
    assert("tankLevelPrimary"@.len() != "outsideTemperature"@.len());
    lemma_number(d, "level"@, raw);
    lemma_number(d, "temperature"@, raw);
}

/// The answer to a request is logged with its status, unless the request is still
/// being processed.
pub proof fn law_answers_are_logged(s: StateView, idx: int, id: u32, xml: Seq<char>)
    ensures
        rsp_status(xml) == Some("subscriptionLimitReached"@) ==> only_line(
            s,
            s.after_reply(idx, id, xml),
            NoticeView::LimitReached(s.sessions[idx].cred),
        ),
        rsp_status(xml) is None || rsp_status(xml) == Some("processing"@) ==> s.after_reply(
            idx,
            id,
            xml,
        ).log == s.log,
        rsp_status(xml) matches Some(word) ==> word != "subscriptionLimitReached"@ && word
            != "processing"@ ==> only_line(
            s,
            s.after_reply(idx, id, xml),
            NoticeView::Replied { cred: s.sessions[idx].cred, id, word },
        ),
{
    reveal_strlit("subscriptionLimitReached");
    reveal_strlit("processing");
    assert("subscriptionLimitReached"@.len() != "processing"@.len());
}

/// A message that means nothing to its session is logged.
pub proof fn law_other_messages_are_logged(
    s: StateView,
    idx: int,
    m: MachineView,
    msg: Seq<char>,
    t: StateView,
)
    requires
        0 <= idx < s.sessions.len(),
        s.sessions[idx].link == LinkView::Running(m),
        feed_events(m, msg) == Some(seq![EventView::Other(msg)]),
        s.feeds(idx, msg, t),
        s.debug,
    ensures
        t.log.len() == s.log.len() + 1,
        t.log.drop_last() == s.log,
        t.log.last() matches NoticeView::Received { cred, xml } && cred == s.sessions[idx].cred
            && shows(xml, msg, 160),
{
    let (w, events) = choose|w: MachineView, events: Option<Seq<EventView>>|
        #[trigger] s.fed_with(idx, m, msg, w, events, t);
    let list = seq![EventView::Other(msg)];
    assert(list[0] == EventView::Other(msg));
    assert(events == Some(list));
    let q = s.with_machine(idx, w);
    lemma_sent_all(q.drained(idx), q.sessions[idx].session_id, w.out);
    assert(t.log.drop_last() =~= s.log);
}

/// A session that authenticated is logged as such.
pub proof fn law_authentication_is_logged(s: StateView, idx: int, id: u32)
    requires
        0 <= idx < s.sessions.len(),
        s.sessions[idx].link matches LinkView::Running(m) && m.phase == Phase::Ready,
    ensures
        only_line(
            s,
            s.asked_directory(idx, id),
            NoticeView::Authenticated(s.sessions[idx].cred),
        ),
{
    let m = s.sessions[idx].link->Running_0;
    let r = s.debugged(NoticeView::Authenticated(s.sessions[idx].cred)).reported(idx);
    let x = awaiting_directory(m, id);
    let q = r.with_machine(idx, x);
    lemma_sent_all(q.drained(idx), q.sessions[idx].session_id, x.out);
}

proof fn lemma_offered_is_counted(directory: Seq<EntryView>)
    ensures
        offered(directory).len() == directory.filter(|e: EntryView| !e.callable).len(),
    decreases directory.len(),
{
    let data = |e: EntryView| !e.callable;
    reveal(Seq::filter);
    if directory.len() > 0 {
        lemma_offered_is_counted(directory.drop_last());
    }
}

/// A directory is logged with its number of data URLs and of functions, and with
/// that of the subscriptions that are made.
pub proof fn law_directory_is_logged(s: StateView, idx: int, m: MachineView, ids: Seq<u32>)
    requires
        s.inv(),
        0 <= idx < s.sessions.len(),
        s.sessions[idx].link == LinkView::Running(m),
        m.phase == Phase::Ready,
        m.directory.len() <= usize::MAX,
    ensures
        ({
            let t = s.after_directory(idx, m, ids);
            let data = m.directory.filter(|e: EntryView| !e.callable).len();
            only_line(
                s,
                t,
                NoticeView::Exposes {
                    cred: s.sessions[idx].cred,
                    data: data as usize,
                    callable: (m.directory.len() - data) as usize,
                    subscribing: (t.outbound.len() - s.outbound.len()) as usize,
                },
            )
        }),
{
    let d = s.debugged(s.directory_line(idx, m));
    let t = s.after_directory(idx, m, ids);
    lemma_offered_is_counted(m.directory);
    let urls = s.takes_urls(m.directory);
    assert(d.takes_urls(m.directory) == urls);
    if urls.len() > 0 {
        let w = MachineView {
            out: m.out + subscribe_frames(
                ids,
                urls,
                s.subscribe_ival_ms,
                m.timestamps,
            ),
            ..m
        };
        let q = d.with_machine(idx, w);
        assert(s.sessions[idx].settled());
        lemma_sent_all(q.drained(idx), q.sessions[idx].session_id, w.out);
        assert(w.out.len() == urls.len());
    }
}

// -- Requests of the web UI ------------------------------------------------------

proof fn lemma_asking_is_counted(s: StateView, n: int, ids: Seq<u32>, body: Seq<char>)
    requires
        s.inv(),
        0 <= n <= s.sessions.len(),
    ensures
        ({
            let t = s.asked(n, ids, body);
            &&& t.outbound.len() == s.outbound.len() + s.running(n)
            &&& t == (StateView { outbound: t.outbound, recently_sent: t.recently_sent, ..s })
        }),
    decreases n,
{
    if n > 0 {
        lemma_asking_is_counted(s, n - 1, ids, body);
        if let LinkView::Running(m) = s.sessions[n - 1].link {
            lemma_ask(s, s.asked(n - 1, ids, body), n - 1, m, ids[n - 1], body);
        }
    }
}

proof fn lemma_request_is_logged(
    s: StateView,
    verb: Seq<char>,
    url: Seq<char>,
    body: Seq<char>,
    t: StateView,
    answer: Seq<char>,
)
    requires
        s.inv(),
        s.broadcasts(verb, url, body, t, answer),
    ensures
        request_is_logged(s, verb, url, t),
{
    let n = s.sessions.len() as int;
    let p = |x: SessionView| x.is_active();
    lemma_first_session(s.sessions, 0, p);
    if s.has_active() {
        let line = NoticeView::Asked { verb, url, sessions: s.running(n) as usize };
        let ids = choose|ids: Seq<u32>|
            t == (#[trigger] s.asked(n, ids, body)).debugged(line);
        lemma_asking_is_counted(s, n, ids, body);
    } else if some_ready(s) {
        let j = choose|j: int|
            0 <= j < s.sessions.len() && ((#[trigger] s.sessions[j]).link
                matches LinkView::Running(m) && m.phase == Phase::Ready);
        assert(p(s.sessions[j]));
    }
}

/// A request of the web UI is logged with its verb, its URL, and how many sessions
/// were asked; one that no session is ready for is not.
pub open spec fn request_is_logged(
    s: StateView,
    verb: Seq<char>,
    url: Seq<char>,
    t: StateView,
) -> bool {
    if some_ready(s) {
        only_line(
            s,
            t,
            NoticeView::Asked {
                verb,
                url,
                sessions: (t.outbound.len() - s.outbound.len()) as usize,
            },
        )
    } else {
        t.log == s.log
    }
}

/// The requests of the web UI are logged.
pub proof fn law_requests_are_logged(
    s: StateView,
    url: Seq<char>,
    params: Seq<ParamView>,
    t: StateView,
    answer: Seq<char>,
)
    requires
        s.inv(),
    ensures
        s.runs(CommandView::Subscribe(url), t, answer) ==> request_is_logged(
            s,
            "subscribe"@,
            url,
            t,
        ),
        s.runs(CommandView::Unsubscribe(url), t, answer) ==> request_is_logged(
            s,
            "unsubscribe"@,
            url,
            t,
        ),
        s.runs(CommandView::Get(url), t, answer) ==> request_is_logged(s, "get"@, url, t),
        s.runs(CommandView::Call { url, params }, t, answer) ==> request_is_logged(
            s,
            "call"@,
            url,
            t,
        ),
        s.runs(CommandView::Interface(url), t, answer) ==> request_is_logged(
            s,
            "interface"@,
            url,
            t,
        ),
{
    if s.runs(CommandView::Subscribe(url), t, answer) {
        let body = subscribe_body(url, s.subscribe_ival_ms, true);
        lemma_request_is_logged(s, "subscribe"@, url, body, t, answer);
    }
    if s.runs(CommandView::Unsubscribe(url), t, answer) {
        lemma_request_is_logged(s, "unsubscribe"@, url, unsubscribe_body(url), t, answer);
    }
    if s.runs(CommandView::Get(url), t, answer) {
        lemma_request_is_logged(s, "get"@, url, get_body(url), t, answer);
    }
    if s.runs(CommandView::Call { url, params }, t, answer) {
        lemma_request_is_logged(s, "call"@, url, call_body(url, params), t, answer);
    }
    if s.runs(CommandView::Interface(url), t, answer) {
        lemma_request_is_logged(s, "interface"@, url, interface_body(url), t, answer);
    }
}

} // verus!
