//! The entry points of the hook: what the host calls, and what it gets back.
//!
//! The host sends the packets that an entry point returns, writes the lines that
//! [`take_log`] hands out, and does what [`take_effects`] hands out.

use crate::channel::{handle_sdr, process_packet};
use crate::command::{
    call_text, command_text, debug_quoted, parse_command, quoted, Command, CommandView,
};
use crate::config::{
    capacity_in, channel_in, cred_list, debug_in, ival_in, parse_capacity, parse_channel,
    parse_creds, parse_debug, parse_ival, parse_subscribe_urls, read_settings, settings_in,
    url_list, HostConfig, Settings, SettingsView,
};
use crate::driver::{lemma_machine_replaced, lemma_nothing_to_flush};
use crate::packet::{
    begins_with, packets, Decision, Packet, PacketView, ProxyType, CONTROL_FLAG,
    MSG_SERVICE_DISCOVERY_RESPONSE,
};
use crate::protocol::{
    call_body, escaped, interface_body, subscribe_body, with_request, MachineView, Phase,
};
use crate::report::{
    copy_changes, effect_views, notice_views, session_reports, Effect, EffectView, Notice,
    NoticeView, SessionReport, SessionReportView,
};
use crate::state::{
    connection_report, first_session, fresh_state, lemma_sent_all, listed_urls, session_views,
    ExlapState, LinkView, Session, SessionView, StateView,
};
use crate::text::{copy_list, owned, same_text};
use vstd::prelude::*;
use vstd::string::StringExecFns;

verus! {

// -- Creation and configuration --------------------------------------------------

/// The state that settings give.
pub open spec fn created(c: SettingsView) -> StateView {
    StateView {
        battery_capacity_wh: c.battery_capacity_wh,
        debug: c.debug,
        ..fresh_state(c.channel, c.creds, c.subscribe_urls, c.subscribe_ival_ms)
    }.debugged(
        NoticeView::Created {
            channel: c.channel,
            creds: c.creds,
            subscribe_urls: c.subscribe_urls,
            ival_ms: c.subscribe_ival_ms,
            capacity_wh: c.battery_capacity_wh,
        },
    )
}

/// The hook is loaded: makes its state from what the host has configured.
pub fn on_create(cfg: &HostConfig) -> (r: ExlapState)
    ensures
        r.wf(),
        r@ == created(settings_in(*cfg)),
{
    let c: Settings = read_settings(cfg);
    let creds: Vec<usize> = c.creds.clone();
    assert(creds@ == c.creds@);
    let line: Notice = Notice::Created {
        channel: c.channel,
        creds,
        subscribe_urls: copy_list(&c.subscribe_urls),
        ival_ms: c.subscribe_ival_ms,
        capacity_wh: c.battery_capacity_wh,
    };
    let mut state: ExlapState = ExlapState::new(
        c.channel,
        c.creds,
        c.subscribe_urls,
        c.subscribe_ival_ms,
    );
    state.battery_capacity_wh = c.battery_capacity_wh;
    state.debug = c.debug;
    state.debug_line(line);
    assert(state@ =~= created(settings_in(*cfg)));
    assert(state@.inv());
    state
}

impl StateView {
    /// The state after one setting was changed. A value that is not understood
    /// leaves the channel and the interval as they are. New credentials apply to
    /// the sessions that are made next.
    pub open spec fn configured(self, name: Seq<char>, value: Seq<char>) -> StateView {
        if name == "exlap_channel"@ {
            match channel_in(value) {
                Some(channel) => StateView { channel, ..self }.debugged(
                    NoticeView::ChannelSet(channel),
                ),
                None => self,
            }
        } else if name == "exlap_creds"@ {
            let creds = cred_list(value);
            StateView { creds, ..self }.debugged(NoticeView::CredsSet(creds))
        } else if name == "exlap_subscribe_urls"@ {
            let subscribe_urls = url_list(value);
            StateView { subscribe_urls, ..self }.debugged(NoticeView::UrlsSet(subscribe_urls))
        } else if name == "exlap_subscribe_ival_ms"@ {
            match ival_in(value) {
                Some(ival) => StateView { subscribe_ival_ms: ival, ..self }.debugged(
                    NoticeView::IvalSet(ival),
                ),
                None => self,
            }
        } else if name == "exlap_battery_capacity_wh"@ {
            let battery_capacity_wh = capacity_in(value);
            StateView { battery_capacity_wh, ..self }.debugged(
                NoticeView::CapacitySet(battery_capacity_wh),
            )
        } else if name == "exlap_debug"@ {
            StateView { debug: debug_in(value), ..self }.logged(
                NoticeView::DebugSet(debug_in(value)),
            )
        } else {
            self
        }
    }
}

/// The host changed one setting.
pub fn on_config_changed(s: &mut ExlapState, name: &str, value: &str)
    requires
        old(s).wf(),
    ensures
        final(s).wf(),
        final(s)@ == old(s)@.configured(name@, value@),
{
    if same_text(name, "exlap_channel") {
        match parse_channel(value) {
            Some(channel) => {
                s.exlap_channel = channel;
                s.debug_line(Notice::ChannelSet(channel));
            },
            None => {},
        }
    } else if same_text(name, "exlap_creds") {
        let creds: Vec<usize> = parse_creds(value);
        let shown: Vec<usize> = creds.clone();
        assert(shown@ == creds@);
        s.creds = creds;
        s.debug_line(Notice::CredsSet(shown));
    } else if same_text(name, "exlap_subscribe_urls") {
        s.subscribe_urls = parse_subscribe_urls(value);
        let shown: Vec<String> = copy_list(&s.subscribe_urls);
        s.debug_line(Notice::UrlsSet(shown));
    } else if same_text(name, "exlap_subscribe_ival_ms") {
        match parse_ival(value) {
            Some(ival) => {
                s.subscribe_ival_ms = ival;
                s.debug_line(Notice::IvalSet(ival));
            },
            None => {},
        }
    } else if same_text(name, "exlap_battery_capacity_wh") {
        let capacity: Option<u64> = parse_capacity(value);
        s.battery_capacity_wh = capacity;
        s.debug_line(Notice::CapacitySet(capacity));
    } else if same_text(name, "exlap_debug") {
        let enabled: bool = parse_debug(value);
        s.debug = enabled;
        s.log_line(Notice::DebugSet(enabled));
    }
    assert(s@ =~= old(s)@.configured(name@, value@));
    assert(s@.inv());
}

/// Writes a line to the log where the verbose log is on.
pub fn debug_log(s: &mut ExlapState, msg: &str)
    requires
        old(s).wf(),
    ensures
        final(s).wf(),
        final(s)@ == old(s)@.debugged(NoticeView::Debug(msg@)),
{
    s.debug_line(Notice::Debug(owned(msg)));
}

// -- What goes out ---------------------------------------------------------------

impl StateView {
    /// The state after all frames that waited were sent.
    pub open spec fn flushed_out(self) -> StateView {
        let t = StateView { outbound: Seq::empty(), ..self };
        if self.outbound.len() == 0 {
            t
        } else {
            t.debugged(NoticeView::Flushing(self.outbound.len() as usize))
        }
    }
}

fn take_outbound(s: &mut ExlapState) -> (r: Vec<Packet>)
    requires
        old(s).wf(),
    ensures
        final(s).wf(),
        packets(r@) == old(s)@.outbound,
        final(s)@ == (StateView { outbound: Seq::empty(), ..old(s)@ }),
{
    let mut out: Vec<Packet> = Vec::new();
    out.append(&mut s.outbound);
    assert(out@ == old(s).outbound@);
    assert(s@ =~= (StateView { outbound: Seq::empty(), ..old(s)@ }));
    assert(s@.inv());
    out
}

/// Hands out the frames that wait to be sent to the head unit, in order. They
/// may only be sent while a packet passes to the head unit.
pub fn flush_outbound(s: &mut ExlapState) -> (r: Vec<Packet>)
    requires
        old(s).wf(),
    ensures
        final(s).wf(),
        packets(r@) == old(s)@.outbound,
        final(s)@ == old(s)@.flushed_out(),
{
    let out: Vec<Packet> = take_outbound(s);
    assert(packets(out@).len() == out@.len());
    if out.len() > 0 {
        s.debug_line(Notice::Flushing(out.len()));
    }
    out
}

/// Hands out the lines that are to be written to the log, in order.
pub fn take_log(s: &mut ExlapState) -> (r: Vec<Notice>)
    requires
        old(s).wf(),
    ensures
        final(s).wf(),
        notice_views(r@) == old(s)@.log,
        final(s)@ == (StateView { log: Seq::empty(), ..old(s)@ }),
{
    let mut out: Vec<Notice> = Vec::new();
    out.append(&mut s.log);
    assert(out@ == old(s).log@);
    assert(s@ =~= (StateView { log: Seq::empty(), ..old(s)@ }));
    assert(s@.inv());
    out
}

/// Hands out what the host is to do, in order.
pub fn take_effects(s: &mut ExlapState) -> (r: Vec<Effect>)
    requires
        old(s).wf(),
    ensures
        final(s).wf(),
        effect_views(r@) == old(s)@.effects,
        final(s)@ == (StateView { effects: Seq::empty(), ..old(s)@ }),
{
    let mut out: Vec<Effect> = Vec::new();
    out.append(&mut s.effects);
    assert(out@ == old(s).effects@);
    assert(s@ =~= (StateView { effects: Seq::empty(), ..old(s)@ }));
    assert(s@.inv());
    out
}

// -- Packets ---------------------------------------------------------------------

/// A packet is the head unit's ServiceDiscoveryResponse.
pub open spec fn is_discovery(pkt: PacketView) -> bool {
    pkt.proxy_type == ProxyType::HeadUnit && pkt.channel == 0 && pkt.message_id
        == MSG_SERVICE_DISCOVERY_RESPONSE
}

/// The bytes that an ExLAP frame of this channel begins with: `<Exlap`.
pub const EXLAP_PREFIX: [u8; 6] = [0x3C, 0x45, 0x78, 0x6C, 0x61, 0x70];

/// A packet is the beginning of an ExLAP frame.
pub open spec fn shows_exlap(pkt: PacketView) -> bool {
    pkt.channel != 0 && !pkt.is_control() && EXLAP_PREFIX@.is_prefix_of(pkt.payload)
}

impl StateView {
    /// The state after the channel was adopted from a packet that shows ExLAP on
    /// another one. That is not done once sessions are being brought up.
    pub open spec fn adopted(self, pkt: PacketView) -> StateView {
        if shows_exlap(pkt) && !self.connecting_started && self.channel != pkt.channel {
            StateView { channel: pkt.channel, ..self }.logged(
                NoticeView::AdoptedChannel(pkt.channel),
            )
        } else {
            self
        }
    }

    /// The frames that are sent while a packet passes.
    pub open spec fn sends_with(self, pkt: PacketView) -> Seq<PacketView> {
        if pkt.proxy_type == ProxyType::MobileDevice {
            self.outbound
        } else {
            Seq::empty()
        }
    }

    /// The state after the frames that a packet carries with it were sent.
    pub open spec fn carried(self, pkt: PacketView) -> StateView {
        if pkt.proxy_type == ProxyType::MobileDevice {
            self.flushed_out()
        } else {
            self
        }
    }

    /// A packet of the link was acted on.
    pub open spec fn sees(self, pkt: PacketView, t: StateView) -> bool {
        let u = self.carried(pkt);
        if is_discovery(pkt) {
            t == u.after_discovery(pkt.payload)
        } else {
            let v = u.adopted(pkt);
            if pkt.channel != v.channel {
                t == v
            } else {
                v.processes(pkt, t)
            }
        }
    }
}

/// A packet passes through the hook. Returns what becomes of it and the frames
/// to send to the head unit now.
///
/// Every packet is forwarded. The host does not discard a packet that is dropped
/// but sends it back through the other side, where the hook would drop it again,
/// without end.
pub fn modify_packet(s: &mut ExlapState, pkt: &Packet) -> (r: (Decision, Vec<Packet>))
    requires
        old(s).wf(),
    ensures
        final(s).wf(),
        r.0 == Decision::Forward,
        packets(r.1@) == old(s)@.sends_with(pkt@),
        old(s)@.sees(pkt@, final(s)@),
{
    let out: Vec<Packet> = match pkt.proxy_type {
        ProxyType::MobileDevice => flush_outbound(s),
        ProxyType::HeadUnit => {
            let none: Vec<Packet> = Vec::new();
            assert(packets(none@) == Seq::<PacketView>::empty());
            none
        },
    };
    let from_head_unit: bool = match pkt.proxy_type {
        ProxyType::HeadUnit => true,
        ProxyType::MobileDevice => false,
    };
    if from_head_unit && pkt.channel == 0 && pkt.message_id == MSG_SERVICE_DISCOVERY_RESPONSE {
        handle_sdr(s, pkt);
        return (Decision::Forward, out);
    }
    if pkt.channel != 0 && (pkt.packet_flags & CONTROL_FLAG) == 0 && begins_with(
        &pkt.payload,
        EXLAP_PREFIX.as_slice(),
    ) {
        if !s.connecting_started && s.exlap_channel != pkt.channel {
            let ghost before = s@;
            s.exlap_channel = pkt.channel;
            assert(s@ =~= (StateView { channel: pkt.channel, ..before }));
            assert(s@.inv());
            s.log_line(Notice::AdoptedChannel(pkt.channel));
        }
    }
    if pkt.channel != s.exlap_channel {
        return (Decision::Forward, out);
    }
    process_packet(s, pkt);
    (Decision::Forward, out)
}

// -- Closing ---------------------------------------------------------------------

impl StateView {
    /// The state after each of the first `n` sessions that runs said goodbye,
    /// under these ids.
    pub open spec fn closed(self, n: int, ids: Seq<u32>) -> StateView
        decreases n,
    {
        if n <= 0 {
            self
        } else {
            let t = self.closed(n - 1, ids);
            match t.sessions[n - 1].link {
                LinkView::Running(m) => t.with_machine(
                    n - 1,
                    with_request(
                        MachineView { phase: Phase::Closed, ..m },
                        ids[n - 1],
                        "<Bye/>"@,
                    ),
                ).flushed(n - 1),
                _ => t,
            }
        }
    }
}

proof fn lemma_closed_ids(s: StateView, n: int, a: Seq<u32>, b: Seq<u32>)
    requires
        n <= a.len(),
        n <= b.len(),
        forall|i: int| 0 <= i < n ==> #[trigger] a[i] == b[i],
    ensures
        s.closed(n, a) == s.closed(n, b),
    decreases n,
{
    if n > 0 {
        lemma_closed_ids(s, n - 1, a, b);
    }
}

/// The hook is unloaded: says goodbye on every session that runs, so that the
/// head unit cleans up, and returns all frames to send. They go out at once, for
/// there is no further packet to carry them.
pub fn on_destroy(s: &mut ExlapState) -> (r: Vec<Packet>)
    requires
        old(s).wf(),
    ensures
        final(s).wf(),
        exists|ids: Seq<u32>|
            {
                let t = #[trigger] old(s)@.closed(old(s)@.sessions.len() as int, ids);
                packets(r@) == t.outbound && final(s)@ == (StateView {
                    outbound: Seq::empty(),
                    ..t
                }).debugged(NoticeView::Destroyed)
            },
{
    let n: usize = s.sessions.len();
    let ghost mut ids: Seq<u32> = Seq::empty();
    let mut idx: usize = 0;
    while idx < n
        invariant
            idx <= n == old(s)@.sessions.len(),
            s.sessions@.len() == n,
            s.wf(),
            ids.len() == idx,
            s@ == old(s)@.closed(idx as int, ids),
        decreases n - idx,
    {
        let ghost before = s@;
        assert(before.sessions[idx as int] == s.sessions@[idx as int]@);
        let said: Option<u32> = match s.sessions[idx].machine() {
            Some(m) => Some(m.bye()),
            None => None,
        };
        proof {
            let id: u32 = match said {
                Some(id) => id,
                None => 0,
            };
            let more = ids.push(id);
            lemma_closed_ids(old(s)@, idx as int, ids, more);
            match before.sessions[idx as int].link {
                LinkView::Running(m) => {
                    let w = with_request(
                        MachineView { phase: Phase::Closed, ..m },
                        id,
                        "<Bye/>"@,
                    );
                    let now = before.with_machine(idx as int, w);
                    assert(s@.sessions =~= now.sessions);
                    assert(s@ =~= now);
                    lemma_machine_replaced(before, idx as int, w);
                },
                _ => {
                    assert(s@.sessions =~= before.sessions);
                    assert(s@ =~= before);
                    assert(s@.drained(idx as int) == s@);
                },
            }
            ids = more;
        }
        s.flush_machine(idx);
        idx = idx + 1;
    }
    let out: Vec<Packet> = take_outbound(s);
    s.debug_line(Notice::Destroyed);
    out
}

// -- The web UI ------------------------------------------------------------------

/// What the sessions are asked on behalf of the web UI.
pub enum Ask<'a> {
    /// To subscribe to a URL at an interval.
    Subscribe { url: &'a str, ival_ms: u32 },
    /// A request with this body.
    Request(&'a str),
}

impl<'a> Ask<'a> {
    /// The body of the request that is sent.
    pub open spec fn body(self) -> Seq<char> {
        match self {
            Ask::Subscribe { url, ival_ms } => subscribe_body(url@, ival_ms, true),
            Ask::Request(body) => body@,
        }
    }
}

impl StateView {
    /// Some session is ready for requests.
    pub open spec fn has_active(self) -> bool {
        first_session(self.sessions, 0, |s: SessionView| s.is_active()) is Some
    }

    /// How many of the first `n` sessions run.
    pub open spec fn running(self, n: int) -> nat
        decreases n,
    {
        if n <= 0 {
            0
        } else if self.sessions[n - 1].link is Running {
            self.running(n - 1) + 1
        } else {
            self.running(n - 1)
        }
    }

    /// The state after each of the first `n` sessions that runs sent a request,
    /// under these ids.
    pub open spec fn asked(self, n: int, ids: Seq<u32>, body: Seq<char>) -> StateView
        decreases n,
    {
        if n <= 0 {
            self
        } else {
            let t = self.asked(n - 1, ids, body);
            match t.sessions[n - 1].link {
                LinkView::Running(m) => t.with_machine(
                    n - 1,
                    with_request(m, ids[n - 1], body),
                ).flushed(n - 1),
                _ => t,
            }
        }
    }

    /// Every session that runs was asked, unless none is ready, and the answer
    /// says whether one was.
    pub open spec fn broadcasts(
        self,
        verb: Seq<char>,
        url: Seq<char>,
        body: Seq<char>,
        t: StateView,
        answer: Seq<char>,
    ) -> bool {
        let n = self.sessions.len() as int;
        let line = NoticeView::Asked { verb, url, sessions: self.running(n) as usize };
        if self.has_active() {
            answer == "ok"@ && exists|ids: Seq<u32>|
                t == (#[trigger] self.asked(n, ids, body)).debugged(line)
        } else {
            answer == "error: no active sessions"@ && t == self
        }
    }

    /// What the web UI is shown of all sessions.
    pub open spec fn session_list(self) -> Seq<SessionReportView> {
        self.sessions.map_values(
            |s: SessionView|
                SessionReportView {
                    connection: s.report(),
                    urls: match s.link {
                        LinkView::Running(m) => m.directory,
                        _ => Seq::empty(),
                    },
                },
        )
    }

    /// A command of the web UI was run.
    pub open spec fn runs(self, c: CommandView, t: StateView, answer: Seq<char>) -> bool {
        match c {
            CommandView::Subscribe(url) => self.broadcasts(
                "subscribe"@,
                url,
                subscribe_body(url, self.subscribe_ival_ms, true),
                t,
                answer,
            ),
            CommandView::Unsubscribe(url) => self.broadcasts(
                "unsubscribe"@,
                url,
                unsubscribe_body(url),
                t,
                answer,
            ),
            CommandView::Get(url) => self.broadcasts("get"@, url, get_body(url), t, answer),
            CommandView::Call { url, params } => self.broadcasts(
                "call"@,
                url,
                call_body(url, params),
                t,
                answer,
            ),
            CommandView::Interface(url) => self.broadcasts(
                "interface"@,
                url,
                interface_body(url),
                t,
                answer,
            ),
            CommandView::List => t == self.told(EffectView::Sessions(self.session_list()))
                && answer == "ok"@,
            CommandView::Values => t == self.told(EffectView::Values(self.values)) && answer
                == "ok"@,
            CommandView::MissingUrl => t == self && answer == "error: missing url"@,
            CommandView::Unknown(cmd) => t == self && answer == "error: unknown cmd "@
                + debug_quoted(cmd),
        }
    }

    /// A message of the web UI was answered.
    pub open spec fn answers(
        self,
        topic: Seq<char>,
        payload: Seq<char>,
        t: StateView,
        answer: Seq<char>,
    ) -> bool {
        if topic != "exlap-hook"@ {
            t == self && answer == ""@
        } else {
            match command_text(payload) {
                Some(c) => self.runs(c, t, answer),
                None => t == self && answer == "error: invalid JSON"@,
            }
        }
    }
}

/// The body of the request that ends a subscription.
pub open spec fn unsubscribe_body(url: Seq<char>) -> Seq<char> {
    "<Unsubscribe url=\""@ + escaped(url) + "\"/>"@
}

/// The body of the request for the value of a URL.
pub open spec fn get_body(url: Seq<char>) -> Seq<char> {
    "<Get url=\""@ + escaped(url) + "\" timeStamp=\"true\"/>"@
}

fn any_active(sessions: &Vec<Session>) -> (r: bool)
    ensures
        r == (first_session(session_views(sessions@), 0, |s: SessionView| s.is_active()) is Some),
{
    let ghost p = |s: SessionView| s.is_active();
    let mut i: usize = 0;
    while i < sessions.len()
        invariant
            i <= sessions@.len(),
            p == (|s: SessionView| s.is_active()),
            first_session(session_views(sessions@), 0, p) == first_session(
                session_views(sessions@),
                i as int,
                p,
            ),
        decreases sessions@.len() - i,
    {
        assert(session_views(sessions@)[i as int] == sessions@[i as int]@);
        if sessions[i].is_active() {
            return true;
        }
        i = i + 1;
    }
    false
}

proof fn lemma_asked_ids(s: StateView, n: int, a: Seq<u32>, b: Seq<u32>, body: Seq<char>)
    requires
        n <= a.len(),
        n <= b.len(),
        forall|i: int| 0 <= i < n ==> #[trigger] a[i] == b[i],
    ensures
        s.asked(n, a, body) == s.asked(n, b, body),
    decreases n,
{
    if n > 0 {
        lemma_asked_ids(s, n - 1, a, b, body);
    }
}

/// Asks every session that runs, unless none is ready, and reports whether one
/// was. The head unit answers `noMatchingUrl` on a session that lacks the URL, so
/// this is safe even if only some credentials expose it.
///
/// A session that is still in its handshake is asked too. It takes the answer for
/// the next message of its handshake, which the answer can so advance or fail.
pub fn broadcast(s: &mut ExlapState, verb: &str, url: &str, ask: &Ask<'_>) -> (r: String)
    requires
        old(s).wf(),
    ensures
        final(s).wf(),
        old(s)@.broadcasts(verb@, url@, ask.body(), final(s)@, r@),
{
    if !any_active(&s.sessions) {
        return owned("error: no active sessions");
    }
    let n: usize = s.sessions.len();
    let ghost body = ask.body();
    let ghost mut ids: Seq<u32> = Seq::empty();
    let mut asked: usize = 0;
    let mut idx: usize = 0;
    while idx < n
        invariant
            idx <= n == old(s)@.sessions.len(),
            s.sessions@.len() == n,
            s.wf(),
            ids.len() == idx,
            body == ask.body(),
            asked <= idx,
            asked == old(s)@.running(idx as int),
            forall|j: int| idx <= j < n ==> #[trigger] s@.sessions[j] == old(s)@.sessions[j],
            s@ == old(s)@.asked(idx as int, ids, body),
        decreases n - idx,
    {
        let ghost before = s@;
        assert(before.sessions[idx as int] == s.sessions@[idx as int]@);
        assert(before.sessions[idx as int] == old(s)@.sessions[idx as int]);
        let id: Option<u32> = match s.sessions[idx].machine() {
            Some(m) => Some(
                match ask {
                    Ask::Subscribe { url, ival_ms } => m.subscribe_one(url, *ival_ms),
                    Ask::Request(text) => m.request(text),
                },
            ),
            None => None,
        };
        let runs: bool = id.is_some();
        proof {
            let i: u32 = match id {
                Some(i) => i,
                None => 0,
            };
            let more = ids.push(i);
            lemma_asked_ids(old(s)@, idx as int, ids, more, body);
            if runs {
                let m = before.sessions[idx as int].link->Running_0;
                assert(before.sessions[idx as int].settled());
                let w = with_request(m, i, body);
                let now = before.with_machine(idx as int, w);
                assert(s@.sessions =~= now.sessions);
                assert(s@ =~= now);
                lemma_machine_replaced(before, idx as int, w);
                lemma_sent_all(now.drained(idx as int), now.sessions[idx as int].session_id, w.out);
            } else {
                assert(s@.sessions =~= before.sessions);
                assert(s@ =~= before);
                lemma_nothing_to_flush(before, idx as int);
            }
            ids = more;
        }
        s.flush_machine(idx);
        if runs {
            asked = asked + 1;
        }
        idx = idx + 1;
    }
    s.debug_line(Notice::Asked { verb: owned(verb), url: owned(url), sessions: asked });
    owned("ok")
}

fn list_sessions(s: &ExlapState) -> (r: Vec<SessionReport>)
    requires
        s.wf(),
    ensures
        session_reports(r@) == s@.session_list(),
{
    let mut out: Vec<SessionReport> = Vec::new();
    let mut i: usize = 0;
    while i < s.sessions.len()
        invariant
            i <= s.sessions@.len(),
            s.wf(),
            session_reports(out@) == s@.session_list().take(i as int),
        decreases s.sessions@.len() - i,
    {
        let ghost before = out@;
        assert(s@.sessions[i as int] == s.sessions@[i as int]@);
        let report: SessionReport = SessionReport {
            connection: connection_report(&s.sessions[i]),
            urls: listed_urls(&s.sessions[i]),
        };
        out.push(report);
        assert(session_reports(out@) == session_reports(before).push(report@));
        assert(s@.session_list()[i as int] == report@);
        i = i + 1;
    }
    assert(s@.session_list().take(i as int) == s@.session_list());
    out
}

/// Runs a command of the web UI. Returns the answer.
pub fn run_command(s: &mut ExlapState, cmd: &Command) -> (r: String)
    requires
        old(s).wf(),
    ensures
        final(s).wf(),
        old(s)@.runs(cmd@, final(s)@, r@),
{
    match cmd {
        Command::Subscribe(url) => {
            let ival_ms: u32 = s.subscribe_ival_ms;
            broadcast(s, "subscribe", url.as_str(), &Ask::Subscribe { url: url.as_str(), ival_ms })
        },
        Command::Unsubscribe(url) => {
            let mut body: String = owned("<Unsubscribe url=\"");
            body.append(exlap::escape_attr(url.as_str()).as_str());
            body.append("\"/>");
            broadcast(s, "unsubscribe", url.as_str(), &Ask::Request(body.as_str()))
        },
        Command::Get(url) => {
            let mut body: String = owned("<Get url=\"");
            body.append(exlap::escape_attr(url.as_str()).as_str());
            body.append("\" timeStamp=\"true\"/>");
            broadcast(s, "get", url.as_str(), &Ask::Request(body.as_str()))
        },
        Command::Call { url, params } => {
            let body: String = call_text(url.as_str(), params);
            broadcast(s, "call", url.as_str(), &Ask::Request(body.as_str()))
        },
        Command::Interface(url) => {
            let body: String = exlap::interface(url.as_str());
            broadcast(s, "interface", url.as_str(), &Ask::Request(body.as_str()))
        },
        Command::List => {
            let list: Vec<SessionReport> = list_sessions(s);
            s.tell(Effect::Sessions(list));
            owned("ok")
        },
        Command::Values => {
            s.tell(Effect::Values(copy_changes(&s.current_values)));
            owned("ok")
        },
        Command::MissingUrl => owned("error: missing url"),
        Command::Unknown(verb) => {
            let mut answer: String = owned("error: unknown cmd ");
            answer.append(quoted(verb.as_str()).as_str());
            answer
        },
    }
}

/// A message of the web UI. Returns the answer, empty where the message is not
/// for the hook.
pub fn ws_script_handler(s: &mut ExlapState, topic: &str, payload: &str) -> (r: String)
    requires
        old(s).wf(),
    ensures
        final(s).wf(),
        old(s)@.answers(topic@, payload@, final(s)@, r@),
{
    if !same_text(topic, "exlap-hook") {
        return owned("");
    }
    match parse_command(payload) {
        Some(cmd) => run_command(s, &cmd),
        None => owned("error: invalid JSON"),
    }
}

} // verus!
