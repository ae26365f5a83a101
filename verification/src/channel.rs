//! What arrives on the ExLAP channel: fragments, control messages, and the
//! elements that exist on this channel only.

use crate::discovery::{advertised_exlap, find_exlap_service_id};
use crate::driver::{feed_machine, feed_session, harvest_foreign, harvested};
use crate::frame::{
    attr_in_tag, root_tag, unwrap_statement, unwrapped, xml_attr_in_tag, xml_root_tag,
};
use crate::growth::lemma_feed_grows;
use crate::packet::{
    control_id, Packet, PacketView, ProxyType, CONTROL_FLAG, FRAME_TYPE_FIRST, FRAME_TYPE_LAST,
    MSG_CHANNEL_OPEN_RESPONSE,
};
use crate::protocol::{feedable, fresh_machine, new_machine, ping, Phase};
use crate::report::{excerpt, excerpt_of, Effect, Notice, NoticeView};
use crate::state::{
    find_waiting, first_session, fresh_state, pending_session, push_connection_state,
    reset_sessions, session_views, try_start_next_session, waiting_session, ExlapState, LinkView,
    Session, SessionState, SessionView, StateView,
};
use crate::text::{
    contains_text, copy_list, find, has_text, lemma_find_from, list_contains, occurs_at, owned,
    same_text,
};
use vstd::prelude::*;
use vstd::utf8::{decode_utf8, valid_utf8};

verus! {

// -- Bare status elements --------------------------------------------------------

/// A ping holds no challenge, so that every session takes it.
pub proof fn lemma_ping_is_feedable(phase: Phase)
    ensures
        feedable(phase, ping()),
{
    reveal_strlit("<Status><Alive/></Status>");
    reveal_strlit("<Challenge");
    let hay = ping();
    let needle = "<Challenge"@;
    lemma_find_from(hay, needle, 0);
    assert forall|i: int| !occurs_at(hay, needle, i) by {
        if occurs_at(hay, needle, i) {
            assert(hay.subrange(i, i + needle.len())[1] == 'C');
            assert(hay[i + 1] == 'C');
        }
    }
    assert(find(hay, needle) is None);
}

impl StateView {
    /// Each of the first `n` sessions that runs was fed a ping, in order.
    pub open spec fn pings(self, n: int, t: StateView) -> bool
        decreases n,
    {
        if n <= 0 {
            t == self
        } else {
            exists|u: StateView| self.pings(n - 1, u) && #[trigger] u.feeds(n - 1, ping(), t)
        }
    }

    /// Every session that runs was fed a ping.
    pub open spec fn pings_all(self, t: StateView) -> bool {
        exists|u: StateView|
            self.pings(self.sessions.len() as int, u) && t == #[trigger] u.debugged(
                NoticeView::PingAnswered,
            )
    }

    /// The session whose machine awaits `Init`.
    pub open spec fn awaiting_init(self) -> Option<int> {
        first_session(self.sessions, 0, |s: SessionView| s.phase() == Some(Phase::Init))
    }

    /// A bare `<Status>` was acted on: a ping is answered for every session that
    /// runs, a bye resets everything, and a banner goes to the session that
    /// awaits it.
    pub open spec fn handles_status(self, xml: Seq<char>, t: StateView) -> bool {
        if contains_text(xml, "Alive"@) {
            self.pings_all(t)
        } else if contains_text(xml, "Bye"@) {
            self.debugged(NoticeView::ByeReceived).reset().starts(t)
        } else if contains_text(xml, "Init"@) {
            match self.awaiting_init() {
                Some(idx) => self.debugged(NoticeView::BannerFor(self.sessions[idx].cred)).feeds(
                    idx,
                    xml,
                    t,
                ),
                None => t == self.debugged(NoticeView::BannerIgnored),
            }
        } else if contains_text(xml, "Dataloss"@) {
            t == self.debugged(NoticeView::Dataloss)
        } else {
            t == self.debugged(NoticeView::UnhandledStatus(xml))
        }
    }
}

/// Feeds a ping to every session that runs, so that each queues its answer.
fn ping_all(s: &mut ExlapState)
    requires
        old(s).wf(),
    ensures
        final(s).wf(),
        old(s)@.pings_all(final(s)@),
{
    let n: usize = s.sessions.len();
    let mut idx: usize = 0;
    while idx < n
        invariant
            idx <= n == old(s)@.sessions.len(),
            s.sessions@.len() == n,
            s.wf(),
            old(s)@.pings(idx as int, s@),
        decreases n - idx,
    {
        let ghost before = s@;
        proof {
            match before.sessions[idx as int].link {
                LinkView::Running(m) => lemma_ping_is_feedable(m.phase),
                _ => {},
            }
        }
        let _ = feed_machine(s, idx, "<Status><Alive/></Status>");
        proof {
            lemma_feed_grows(before, idx as int, ping(), s@);
            assert(before.feeds((idx + 1) - 1, ping(), s@));
            assert(old(s)@.pings(idx + 1, s@));
        }
        idx = idx + 1;
    }
    s.debug_line(Notice::PingAnswered);
}

/// The first session whose machine awaits `Init`.
fn find_awaiting_init(sessions: &Vec<Session>) -> (r: Option<usize>)
    ensures
        match r {
            Some(i) => first_session(
                session_views(sessions@),
                0,
                |s: SessionView| s.phase() == Some(Phase::Init),
            ) == Some(i as int),
            None => first_session(
                session_views(sessions@),
                0,
                |s: SessionView| s.phase() == Some(Phase::Init),
            ) is None,
        },
        r matches Some(i) ==> i < sessions@.len() && sessions@[i as int]@.phase() == Some(
            Phase::Init,
        ),
{
    let ghost p = |s: SessionView| s.phase() == Some(Phase::Init);
    let mut i: usize = 0;
    while i < sessions.len()
        invariant
            i <= sessions@.len(),
            p == (|s: SessionView| s.phase() == Some(Phase::Init)),
            first_session(session_views(sessions@), 0, p) == first_session(
                session_views(sessions@),
                i as int,
                p,
            ),
        decreases sessions@.len() - i,
    {
        assert(session_views(sessions@)[i as int] == sessions@[i as int]@);
        match sessions[i].phase() {
            Some(Phase::Init) => return Some(i),
            _ => {},
        }
        i = i + 1;
    }
    None
}

/// A bare `<Status>`, which says nothing of its session. `Init` belongs to the
/// session that awaits it; `Alive` is answered for every session that runs;
/// `Bye` has no safe single target, so it resets everything.
pub fn handle_status_element(s: &mut ExlapState, xml: &str)
    requires
        old(s).wf(),
    ensures
        final(s).wf(),
        old(s)@.handles_status(xml@, final(s)@),
{
    if has_text(xml, "Alive") {
        ping_all(s);
    } else if has_text(xml, "Bye") {
        s.debug_line(Notice::ByeReceived);
        reset_sessions(s);
        try_start_next_session(s);
    } else if has_text(xml, "Init") {
        match find_awaiting_init(&s.sessions) {
            Some(idx) => {
                assert(s@.sessions[idx as int] == s.sessions@[idx as int]@);
                let cred: usize = s.cred(idx);
                s.debug_line(Notice::BannerFor(cred));
                let _ = feed_machine(s, idx, xml);
            },
            None => s.debug_line(Notice::BannerIgnored),
        }
    } else if has_text(xml, "Dataloss") {
        s.debug_line(Notice::Dataloss);
    } else {
        s.debug_line(Notice::UnhandledStatus(owned(xml)));
    }
}

// -- Frames ----------------------------------------------------------------------

/// The text of an option, or nothing.
pub open spec fn or_empty(o: Option<Seq<char>>) -> Seq<char> {
    match o {
        Some(s) => s,
        None => ""@,
    }
}

/// The root tag of a frame, or nothing.
pub open spec fn frame_kind(xml: Seq<char>) -> Seq<char> {
    or_empty(root_tag(xml))
}

impl StateView {
    /// The session with an id, which is not empty.
    pub open spec fn session_with_id(self, sid: Seq<char>) -> Option<int> {
        first_session(self.sessions, 0, |s: SessionView| s.session_id == sid && sid.len() > 0)
    }

    /// The state after the head unit answered the outstanding connection request:
    /// the session runs, or it is made anew to be retried on the next beacon.
    pub open spec fn after_return(self, connected: bool) -> StateView {
        match waiting_session(self.sessions) {
            Some(idx) => {
                let cred = self.sessions[idx].cred;
                if connected {
                    self.debugged(NoticeView::Connected(cred)).with_machine(
                        idx,
                        fresh_machine(cred as int),
                    ).reported(idx).debugged(
                        NoticeView::AwaitingInit(self.sessions[idx].session_id),
                    )
                } else {
                    self.logged(NoticeView::ConnectionRefused(cred)).with_session(
                        idx,
                        pending_session(cred),
                    )
                }
            },
            None => self.debugged(NoticeView::ReturnUnexpected),
        }
    }

    /// A statement was taken by the session that it is for, if that can take it,
    /// or its data was read where it is for no session of the hook.
    pub open spec fn handles_statement(self, xml: Seq<char>, t: StateView) -> bool {
        let sid = or_empty(attr_in_tag(xml, "ExlapStatement"@, "session_id"@));
        match self.session_with_id(sid) {
            Some(idx) => if self.can_feed(idx, unwrapped(xml)) {
                self.feeds(idx, unwrapped(xml), t)
            } else {
                t == self
            },
            None => t == harvested(self.debugged(NoticeView::Harvesting(sid)), xml),
        }
    }

    /// A frame of the head unit was acted on.
    pub open spec fn handles_xml(self, xml: Seq<char>, t: StateView) -> bool {
        let kind = frame_kind(xml);
        if kind == "ExlapBeacon"@ {
            self.starts(t)
        } else if kind == "ExlapConnectionClosed"@ {
            self.debugged(NoticeView::ConnectionsClosed).reset().starts(t)
        } else if kind == "ExlapConnectionReturn"@ {
            t == self.after_return(
                attr_in_tag(xml, "ExlapConnectionReturn"@, "connected"@) == Some("true"@),
            )
        } else if kind == "ExlapStatement"@ {
            self.handles_statement(xml, t)
        } else if kind == "Status"@ {
            self.handles_status(xml, t)
        } else {
            t == self.debugged(NoticeView::UnknownRoot(kind))
        }
    }
}

/// The head unit answered the outstanding connection request. It refuses while
/// its ExLAP server is not ready; the credential is then not given up, but
/// retried on the next beacon.
pub fn on_connection_return(s: &mut ExlapState, connected: bool)
    requires
        old(s).wf(),
    ensures
        final(s).wf(),
        final(s)@ == old(s)@.after_return(connected),
{
    let idx: usize = match find_waiting(&s.sessions) {
        Some(i) => i,
        None => {
            s.debug_line(Notice::ReturnUnexpected);
            return;
        },
    };
    assert(s@.sessions[idx as int] == s.sessions@[idx as int]@);
    let cred: usize = s.cred(idx);
    if !connected {
        s.log_line(Notice::ConnectionRefused(cred));
        let ghost told = s@;
        s.sessions.set(idx, Session::pending(cred));
        proof {
            let t = told.with_session(idx as int, pending_session(cred));
            assert(s@.sessions =~= t.sessions);
            assert(s@ =~= t);
            assert(s@.inv());
        }
        return;
    }
    s.debug_line(Notice::Connected(cred));
    let ghost before = s@;
    let sid: String = s.sessions[idx].session_id.clone();
    s.sessions[idx].state = SessionState::Running(new_machine(cred));
    proof {
        let m = fresh_machine(cred as int);
        let t = before.with_machine(idx as int, m);
        assert(s@.sessions =~= t.sessions);
        assert(s@ =~= t);
        assert(t.sessions[idx as int].settled());
        assert(s@.inv());
    }
    push_connection_state(s, idx);
    s.debug_line(Notice::AwaitingInit(sid));
}

/// The first session with an id, which is not empty.
fn find_session(sessions: &Vec<Session>, sid: &str) -> (r: Option<usize>)
    ensures
        match r {
            Some(i) => first_session(
                session_views(sessions@),
                0,
                |s: SessionView| s.session_id == sid@ && sid@.len() > 0,
            ) == Some(i as int) && i < sessions@.len(),
            None => first_session(
                session_views(sessions@),
                0,
                |s: SessionView| s.session_id == sid@ && sid@.len() > 0,
            ) is None,
        },
{
    let ghost p = |s: SessionView| s.session_id == sid@ && sid@.len() > 0;
    let mut i: usize = 0;
    while i < sessions.len()
        invariant
            i <= sessions@.len(),
            p == (|s: SessionView| s.session_id == sid@ && sid@.len() > 0),
            first_session(session_views(sessions@), 0, p) == first_session(
                session_views(sessions@),
                i as int,
                p,
            ),
        decreases sessions@.len() - i,
    {
        assert(session_views(sessions@)[i as int] == sessions@[i as int]@);
        if same_text(sessions[i].session_id.as_str(), sid) && !sid.is_empty() {
            return Some(i);
        }
        i = i + 1;
    }
    None
}

fn handle_statement(s: &mut ExlapState, xml: &str)
    requires
        old(s).wf(),
    ensures
        final(s).wf(),
        old(s)@.handles_statement(xml@, final(s)@),
{
    let sid: String = match xml_attr_in_tag(xml, "ExlapStatement", "session_id") {
        Some(v) => v,
        None => owned(""),
    };
    match find_session(&s.sessions, sid.as_str()) {
        Some(idx) => {
            let inner: String = unwrap_statement(xml);
            feed_session(s, idx, inner.as_str());
        },
        None => {
            s.debug_line(Notice::Harvesting(sid));
            harvest_foreign(s, xml);
        },
    }
}

/// Acts on one frame of the head unit.
///
/// A beacon says that its ExLAP server is up, and starts or retries a session.
/// `ExlapConnectionClosed` does not say what it closes, so it is taken to close
/// the whole channel: every session is made anew and brought up again.
pub fn handle_xml(s: &mut ExlapState, xml: &str)
    requires
        old(s).wf(),
    ensures
        final(s).wf(),
        old(s)@.handles_xml(xml@, final(s)@),
{
    let root: String = match xml_root_tag(xml) {
        Some(tag) => tag,
        None => owned(""),
    };
    let kind: &str = root.as_str();
    if same_text(kind, "ExlapBeacon") {
        try_start_next_session(s);
    } else if same_text(kind, "ExlapConnectionClosed") {
        s.debug_line(Notice::ConnectionsClosed);
        reset_sessions(s);
        try_start_next_session(s);
    } else if same_text(kind, "ExlapConnectionReturn") {
        let connected: bool = match xml_attr_in_tag(xml, "ExlapConnectionReturn", "connected") {
            Some(v) => same_text(v.as_str(), "true"),
            None => false,
        };
        on_connection_return(s, connected);
    } else if same_text(kind, "ExlapStatement") {
        handle_statement(s, xml);
    } else if same_text(kind, "Status") {
        handle_status_element(s, xml);
    } else {
        s.debug_line(Notice::UnknownRoot(owned(kind)));
    }
}

// -- Control messages ------------------------------------------------------------

/// The status of a ChannelOpenResponse: field 1, a varint; OK where it is
/// absent.
pub open spec fn open_status(payload: Seq<u8>) -> u8 {
    if payload.len() >= 4 && payload[2] == 0x08 {
        payload[3]
    } else {
        0
    }
}

impl StateView {
    /// A control message on the channel was acted on: the answer that opens the
    /// channel starts the first session, whatever its status, unless one was
    /// started already.
    pub open spec fn handles_control(self, pkt: PacketView, t: StateView) -> bool {
        let status = open_status(pkt.payload);
        if pkt.payload.len() < 2 {
            t == self
        } else if control_id(pkt.payload) != MSG_CHANNEL_OPEN_RESPONSE {
            t == self.debugged(
                NoticeView::ControlPassed {
                    from: pkt.proxy_type,
                    msg_id: control_id(pkt.payload) as u16,
                },
            )
        } else if self.connecting_started {
            t == self.debugged(NoticeView::OpenUnexpected(status))
        } else {
            self.opened(status).starts(t)
        }
    }

    /// The state after the channel was opened, before the first session is
    /// started: a status that is not OK is logged.
    pub open spec fn opened(self, status: u8) -> StateView {
        let u = if status != 0 {
            self.logged(NoticeView::OpenStatus { status, channel: self.channel })
        } else {
            self
        };
        u.debugged(
            NoticeView::ChannelOpened {
                channel: self.channel,
                status,
                sessions: self.sessions.len() as usize,
            },
        )
    }
}

/// Acts on a control message on the ExLAP channel. A status that is not OK is
/// logged and the sessions are brought up anyway: some head units return one and
/// still open the channel.
pub fn handle_control(s: &mut ExlapState, pkt: &Packet)
    requires
        old(s).wf(),
    ensures
        final(s).wf(),
        old(s)@.handles_control(pkt@, final(s)@),
{
    if pkt.payload.len() < 2 {
        return;
    }
    let msg_id: u16 = (pkt.payload[0] as u16) * 256 + (pkt.payload[1] as u16);
    if msg_id != MSG_CHANNEL_OPEN_RESPONSE {
        s.debug_line(Notice::ControlPassed { from: pkt.proxy_type, msg_id });
        return;
    }
    let status: u8 = if pkt.payload.len() >= 4 && pkt.payload[2] == 0x08 {
        pkt.payload[3]
    } else {
        0
    };
    if s.connecting_started {
        s.debug_line(Notice::OpenUnexpected(status));
        return;
    }
    let channel: u8 = s.exlap_channel;
    let sessions: usize = s.sessions.len();
    if status != 0 {
        s.log_line(Notice::OpenStatus { status, channel });
    }
    s.debug_line(Notice::ChannelOpened { channel, status, sessions });
    try_start_next_session(s);
}

// -- Service discovery -----------------------------------------------------------

impl StateView {
    /// The state after everything but the settings began anew, on a channel.
    pub open spec fn renewed(self, channel: u8) -> StateView {
        StateView {
            battery_capacity_wh: self.battery_capacity_wh,
            debug: self.debug,
            effects: self.effects,
            log: self.log,
            ..fresh_state(channel, self.creds, self.subscribe_urls, self.subscribe_ival_ms)
        }
    }

    /// The state after the head unit's ServiceDiscoveryResponse: everything but
    /// the settings begins anew, on the channel that it names for ExLAP, or on the
    /// same one where it advertises none.
    pub open spec fn after_discovery(self, payload: Seq<u8>) -> StateView {
        if payload.len() < 2 {
            self
        } else {
            match advertised_exlap(payload.skip(2)) {
                Some(service_id) => self.renewed(service_id as u8).debugged(
                    NoticeView::Discovered { service_id, channel: service_id as u8 },
                ),
                None => self.renewed(self.channel).debugged(NoticeView::DiscoveredNothing),
            }
        }
    }
}

/// Begins everything but the settings anew, on a channel.
fn renew(s: &mut ExlapState, channel: u8)
    requires
        old(s).wf(),
    ensures
        final(s).wf(),
        final(s)@ == old(s)@.renewed(channel),
{
    let creds: Vec<usize> = s.creds.clone();
    assert(creds@ == s.creds@);
    let urls: Vec<String> = copy_list(&s.subscribe_urls);
    let ival: u32 = s.subscribe_ival_ms;
    let mut fresh: ExlapState = ExlapState::new(channel, creds, urls, ival);
    fresh.battery_capacity_wh = s.battery_capacity_wh;
    fresh.debug = s.debug;
    let mut effects: Vec<Effect> = Vec::new();
    effects.append(&mut s.effects);
    assert(effects@ == old(s).effects@);
    fresh.effects = effects;
    let mut log: Vec<Notice> = Vec::new();
    log.append(&mut s.log);
    assert(log@ == old(s).log@);
    fresh.log = log;
    *s = fresh;
    assert(s@ =~= old(s)@.renewed(channel));
    assert(s@.inv());
}

/// Begins anew on every ServiceDiscoveryResponse of the head unit, which is how a
/// phone that reconnects is met, and learns the ExLAP channel from it. The channel
/// is not opened here: the phone opens every service that is advertised, and the
/// answer to that brings the sessions up.
pub fn handle_sdr(s: &mut ExlapState, pkt: &Packet)
    requires
        old(s).wf(),
    ensures
        final(s).wf(),
        final(s)@ == old(s)@.after_discovery(pkt@.payload),
{
    if pkt.payload.len() < 2 {
        return;
    }
    let proto: &[u8] = vstd::slice::slice_subrange(
        pkt.payload.as_slice(),
        2,
        pkt.payload.len(),
    );
    assert(proto@ == pkt.payload@.skip(2));
    match find_exlap_service_id(proto) {
        None => {
            let channel: u8 = s.exlap_channel;
            renew(s, channel);
            s.debug_line(Notice::DiscoveredNothing);
        },
        Some(service_id) => {
            let channel: u8 = #[verifier::truncate] (service_id as u8);
            renew(s, channel);
            s.debug_line(Notice::Discovered { service_id, channel });
        },
    }
}

// -- Packets ---------------------------------------------------------------------

/// `std::str::from_utf8` reads bytes as text, or fails where they are not UTF-8.
#[verifier::external_body]
fn utf8_text(bytes: &[u8]) -> (r: Option<String>)
    ensures
        match r {
            Some(s) => valid_utf8(bytes@) && s@ == decode_utf8(bytes@),
            None => !valid_utf8(bytes@),
        },
{
    std::str::from_utf8(bytes).ok().map(|s| s.to_string())
}

/// The id of a control message, as the log shows it: 0 where there is none.
pub open spec fn shown_id(payload: Seq<u8>) -> u16 {
    if payload.len() < 2 {
        0
    } else {
        control_id(payload) as u16
    }
}

impl StateView {
    /// The bytes of the frame so far, with those of one more packet.
    pub open spec fn assembled(self, pkt: PacketView) -> Seq<u8> {
        if pkt.is_first() {
            pkt.payload
        } else {
            self.buffer + pkt.payload
        }
    }

    /// The state in which a whole frame is acted on.
    pub open spec fn received(self, from: ProxyType, xml: Seq<char>) -> StateView {
        StateView { buffer: Seq::empty(), ..self }.debugged(
            NoticeView::FrameReceived { from, xml: excerpt_of(xml, 480) },
        )
    }

    /// A packet on the channel was acted on. Only a whole frame is, that is text,
    /// that the hook did not send itself, and that comes from the head unit: the
    /// same frame passes once more on its way to the phone.
    pub open spec fn processes(self, pkt: PacketView, t: StateView) -> bool {
        if pkt.is_control() {
            self.debugged(
                NoticeView::ControlSeen { from: pkt.proxy_type, msg_id: shown_id(pkt.payload) },
            ).handles_control(pkt, t)
        } else if !pkt.is_last() {
            t == (StateView { buffer: self.assembled(pkt), ..self })
        } else {
            let bytes = self.assembled(pkt);
            let u = StateView { buffer: Seq::empty(), ..self };
            if !valid_utf8(bytes) {
                t == u.logged(NoticeView::InvalidUtf8)
            } else {
                let xml = decode_utf8(bytes);
                let from = pkt.proxy_type;
                if self.recently_sent.contains(xml) {
                    t == u.debugged(NoticeView::EchoSkipped { from, xml: excerpt_of(xml, 160) })
                } else if from != ProxyType::HeadUnit {
                    t == u.debugged(
                        NoticeView::DuplicateSkipped { from, xml: excerpt_of(xml, 120) },
                    )
                } else {
                    self.received(from, xml).handles_xml(xml, t)
                }
            }
        }
    }
}

/// Acts on a packet on the ExLAP channel.
pub fn process_packet(s: &mut ExlapState, pkt: &Packet)
    requires
        old(s).wf(),
    ensures
        final(s).wf(),
        old(s)@.processes(pkt@, final(s)@),
{
    let is_control: bool = (pkt.packet_flags & CONTROL_FLAG) != 0;
    let from: ProxyType = pkt.proxy_type;
    if is_control {
        let msg_id: u16 = if pkt.payload.len() < 2 {
            0
        } else {
            (pkt.payload[0] as u16) * 256 + (pkt.payload[1] as u16)
        };
        s.debug_line(Notice::ControlSeen { from, msg_id });
        handle_control(s, pkt);
        return;
    }
    let is_first: bool = (pkt.packet_flags & FRAME_TYPE_FIRST) != 0;
    let is_last: bool = (pkt.packet_flags & FRAME_TYPE_LAST) != 0;
    let ghost before = s@;
    if is_first {
        s.assemble_buf.clear();
    }
    s.assemble_buf.extend_from_slice(pkt.payload.as_slice());
    assert(s.assemble_buf@ == before.assembled(pkt@));
    if !is_last {
        assert(s@ =~= (StateView { buffer: before.assembled(pkt@), ..before }));
        return;
    }
    let text: Option<String> = utf8_text(s.assemble_buf.as_slice());
    s.assemble_buf.clear();
    assert(s@ =~= (StateView { buffer: Seq::empty(), ..before }));
    let xml: String = match text {
        Some(x) => x,
        None => {
            s.log_line(Notice::InvalidUtf8);
            return;
        },
    };
    if list_contains(&s.recently_sent, xml.as_str()) {
        s.debug_line(Notice::EchoSkipped { from, xml: excerpt(xml.as_str(), 160) });
        return;
    }
    match from {
        ProxyType::HeadUnit => {
            s.debug_line(Notice::FrameReceived { from, xml: excerpt(xml.as_str(), 480) });
            handle_xml(s, xml.as_str());
        },
        ProxyType::MobileDevice => {
            s.debug_line(Notice::DuplicateSkipped { from, xml: excerpt(xml.as_str(), 120) });
        },
    }
}

} // verus!
