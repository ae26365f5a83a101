//! The state of the hook: the channel, the sessions that share it, and what
//! waits to be sent or told.

use crate::config::creds_exist;
use crate::frame::{wrap, wrapped};
use crate::nonce::{hex, is_session_id, make_session_id};
use crate::packet::{
    packets, Packet, PacketView, ProxyType, ENCRYPTED, FRAME_TYPE_FIRST, FRAME_TYPE_LAST,
};
use crate::protocol::{
    entries, machine_directory, machine_phase, machine_view, user_name, user_names, Entry,
    EntryView, MachineView, Phase, HEARTBEAT_IVAL_SECS,
};
use crate::report::{
    by_url, changes, distinct_urls, effect_views, notice_views, Change, ChangeView, ConnectionReport,
    ConnectionView, Effect, EffectView, Notice, NoticeView,
};
use crate::text::{owned, text_opt, texts};
use vstd::hash_set::StringHashSet;
use vstd::prelude::*;
use vstd::string::{StrSliceExecFns, StringExecFns};
use vstd::utf8::encode_utf8;

verus! {

// -- Sessions --------------------------------------------------------------------

/// The transport phase of one session.
///
/// `Pending` and `WaitConnReturn` come before ExLAP's own `Init`: they are the
/// connection handshake of this channel. Once the head unit answers
/// `ExlapConnectionReturn connected="true"`, an `exlap::Machine` takes over and
/// its own phase tracks the rest.
pub enum SessionState {
    /// Not started; waiting for its turn to send `ExlapConnectionRequest`.
    Pending,
    /// `ExlapConnectionRequest` sent; waiting for `ExlapConnectionReturn`.
    WaitConnReturn,
    /// Connected. The machine drives the session from `Init` onward.
    Running(exlap::Machine),
    /// The session failed for this credential; it is not retried this cycle.
    Failed,
}

/// The model of a [`SessionState`].
pub ghost enum LinkView {
    Pending,
    WaitConnReturn,
    Running(MachineView),
    Failed,
}

impl View for SessionState {
    type V = LinkView;

    open spec fn view(&self) -> LinkView {
        match self {
            SessionState::Pending => LinkView::Pending,
            SessionState::WaitConnReturn => LinkView::WaitConnReturn,
            SessionState::Running(m) => LinkView::Running(machine_view(*m)),
            SessionState::Failed => LinkView::Failed,
        }
    }
}

/// One ExLAP connection for a single credential.
pub struct Session {
    /// The credential that the session was made for.
    pub cred: usize,
    pub state: SessionState,
    /// Random session id in hexadecimal; empty until the session is started.
    pub session_id: String,
    /// The session has issued its subscriptions.
    pub subscribed: bool,
    /// The head unit reported `subscriptionLimitReached` for the session.
    pub subscription_limit_reached: bool,
}

/// The model of a [`Session`].
pub ghost struct SessionView {
    pub cred: usize,
    pub link: LinkView,
    pub session_id: Seq<char>,
    pub subscribed: bool,
    pub subscription_limit_reached: bool,
}

impl View for Session {
    type V = SessionView;

    open spec fn view(&self) -> SessionView {
        SessionView {
            cred: self.cred,
            link: self.state@,
            session_id: self.session_id@,
            subscribed: self.subscribed,
            subscription_limit_reached: self.subscription_limit_reached,
        }
    }
}

/// The models of a list of sessions.
pub open spec fn session_views(list: Seq<Session>) -> Seq<SessionView> {
    list.map_values(|s: Session| s@)
}

/// A session of a credential that was not started yet.
pub open spec fn pending_session(cred: usize) -> SessionView {
    SessionView {
        cred,
        link: LinkView::Pending,
        session_id: ""@,
        subscribed: false,
        subscription_limit_reached: false,
    }
}

/// One session that was not started yet for each credential.
pub open spec fn pending_sessions(creds: Seq<usize>) -> Seq<SessionView> {
    creds.map_values(|c: usize| pending_session(c))
}

impl SessionView {
    /// The phase of the session's machine, where it has one.
    pub open spec fn phase(self) -> Option<Phase> {
        match self.link {
            LinkView::Running(m) => Some(m.phase),
            _ => None,
        }
    }

    /// The session is past the handshake and its directory.
    pub open spec fn is_active(self) -> bool {
        self.phase() == Some(Phase::Ready)
    }

    /// The session's machine is as the hook wants it, and nothing waits in it.
    pub open spec fn settled(self) -> bool {
        self.link matches LinkView::Running(m) ==> {
            &&& m.cred == self.cred
            &&& m.out.len() == 0
            &&& m.heartbeat == Some(HEARTBEAT_IVAL_SECS)
            &&& m.timestamps
            &&& m.own_cnonce
        }
    }

    /// The session was started, and may still come up or be up.
    pub open spec fn is_open(self) -> bool {
        self.link is WaitConnReturn || self.link is Running
    }

    /// How the web UI names the state of the session.
    pub open spec fn connection_state(self) -> Seq<char> {
        if self.link is Failed {
            "failed"@
        } else if self.is_active() {
            "active"@
        } else {
            "connecting"@
        }
    }

    /// What the web UI is told of the session.
    pub open spec fn report(self) -> ConnectionView {
        ConnectionView {
            cred_idx: self.cred,
            user: user_names()[self.cred as int],
            connection_state: self.connection_state(),
            subscription_limit_reached: self.subscription_limit_reached,
        }
    }
}

impl Session {
    /// A session that was not started yet.
    pub fn pending(cred: usize) -> (r: Session)
        ensures
            r@ == pending_session(cred),
    {
        Session {
            cred,
            state: SessionState::Pending,
            session_id: owned(""),
            subscribed: false,
            subscription_limit_reached: false,
        }
    }

    /// The machine of the session, where it has one.
    pub fn machine(&mut self) -> (r: Option<&mut exlap::Machine>)
        ensures
            match r {
                Some(m) => {
                    &&& old(self).state == SessionState::Running(*m)
                    &&& *final(self) == (Session {
                        state: SessionState::Running(*final(m)),
                        ..*old(self)
                    })
                },
                None => !(old(self).state is Running) && *final(self) == *old(self),
            },
    {
        match &mut self.state {
            SessionState::Running(m) => Some(m),
            _ => None,
        }
    }

    /// The machine's phase, or nothing where the session has no machine.
    pub fn phase(&self) -> (r: Option<Phase>)
        ensures
            r == self@.phase(),
    {
        match &self.state {
            SessionState::Running(m) => Some(machine_phase(m)),
            _ => None,
        }
    }

    /// Whether the session is running and its machine is ready, past the
    /// handshake and the directory.
    pub fn is_active(&self) -> (r: bool)
        ensures
            r == self@.is_active(),
    {
        match self.phase() {
            Some(Phase::Ready) => true,
            _ => false,
        }
    }
}

/// How the web UI names the state of a session.
pub fn conn_state(sess: &Session) -> (r: &'static str)
    ensures
        r@ == sess@.connection_state(),
{
    match &sess.state {
        SessionState::Failed => "failed",
        SessionState::Running(m) => if machine_phase(m) == Phase::Ready {
            "active"
        } else {
            "connecting"
        },
        _ => "connecting",
    }
}

/// What the web UI is told of a session.
pub fn connection_report(sess: &Session) -> (r: ConnectionReport)
    requires
        sess.cred < user_names().len(),
    ensures
        r@ == sess@.report(),
{
    ConnectionReport {
        cred_idx: sess.cred,
        user: user_name(sess.cred),
        connection_state: owned(conn_state(sess)),
        subscription_limit_reached: sess.subscription_limit_reached,
    }
}

/// The directory of a session, empty before it is read.
pub fn listed_urls(sess: &Session) -> (r: Vec<Entry>)
    ensures
        entries(r@) == match sess@.link {
            LinkView::Running(m) => m.directory,
            _ => Seq::empty(),
        },
{
    match &sess.state {
        SessionState::Running(m) => machine_directory(m),
        _ => {
            let none: Vec<Entry> = Vec::new();
            assert(entries(none@) == Seq::<EntryView>::empty());
            none
        },
    }
}

// -- The state -------------------------------------------------------------------

/// The channel and all the sessions, one for each credential, that share it.
pub struct ExlapState {
    /// The channel to watch; learned from the head unit on connect.
    pub exlap_channel: u8,
    /// The first `ExlapConnectionRequest` of this cycle was sent. Once it was,
    /// the channel is no longer adopted from a frame.
    pub connecting_started: bool,
    /// The fragments of the frame that is being received.
    pub assemble_buf: Vec<u8>,
    /// The credentials to bring up, in order of preference. A change applies to
    /// the sessions that are made next.
    pub creds: Vec<usize>,
    /// One session for each credential, in the order in which they come up.
    pub sessions: Vec<Session>,
    /// The URLs that a session which came up earlier in this cycle subscribed.
    pub claimed: StringHashSet,
    /// The last `tankLevelPrimary/level`, from any session, as it was written.
    pub tank_level: Option<String>,
    /// The last `outsideTemperature`, from any session, as it was written.
    pub outside_temp: Option<String>,
    /// The battery capacity in Wh, sent with every battery report.
    pub battery_capacity_wh: Option<u64>,
    /// The URLs to subscribe to, or `*` for all.
    pub subscribe_urls: Vec<String>,
    /// The interval of every subscription, in milliseconds.
    pub subscribe_ival_ms: u32,
    /// The last change of each URL, across all sessions.
    pub current_values: Vec<Change>,
    /// The frames that wait to be sent to the head unit. They can only be sent
    /// while a packet passes to the head unit, and most of them are made while
    /// one comes from it.
    pub outbound: Vec<Packet>,
    /// The frames that were made last, so that they are known when they come
    /// back to the hook after they were sent.
    pub recently_sent: Vec<String>,
    /// Whether the verbose log is on.
    pub debug: bool,
    /// What waits to be told to the host.
    pub effects: Vec<Effect>,
    /// The lines that wait to be written to the log.
    pub log: Vec<Notice>,
}

/// How many frames are remembered as sent.
pub const REMEMBERED: usize = 16;

/// The model of an [`ExlapState`].
#[verifier::ext_equal]
pub ghost struct StateView {
    pub channel: u8,
    pub connecting_started: bool,
    pub buffer: Seq<u8>,
    pub creds: Seq<usize>,
    pub sessions: Seq<SessionView>,
    pub claimed: Set<Seq<char>>,
    pub tank_level: Option<Seq<char>>,
    pub outside_temp: Option<Seq<char>>,
    pub battery_capacity_wh: Option<u64>,
    pub subscribe_urls: Seq<Seq<char>>,
    pub subscribe_ival_ms: u32,
    pub values: Map<Seq<char>, ChangeView>,
    pub outbound: Seq<PacketView>,
    pub recently_sent: Seq<Seq<char>>,
    pub debug: bool,
    pub effects: Seq<EffectView>,
    pub log: Seq<NoticeView>,
}

impl View for ExlapState {
    type V = StateView;

    open spec fn view(&self) -> StateView {
        StateView {
            channel: self.exlap_channel,
            connecting_started: self.connecting_started,
            buffer: self.assemble_buf@,
            creds: self.creds@,
            sessions: session_views(self.sessions@),
            claimed: self.claimed@,
            tank_level: text_opt(self.tank_level),
            outside_temp: text_opt(self.outside_temp),
            battery_capacity_wh: self.battery_capacity_wh,
            subscribe_urls: texts(self.subscribe_urls@),
            subscribe_ival_ms: self.subscribe_ival_ms,
            values: by_url(changes(self.current_values@)),
            outbound: packets(self.outbound@),
            recently_sent: texts(self.recently_sent@),
            debug: self.debug,
            effects: effect_views(self.effects@),
            log: notice_views(self.log@),
        }
    }
}

/// A packet that carries a frame to the head unit.
pub open spec fn frame_packet(channel: u8, xml: Seq<char>) -> PacketView {
    PacketView {
        proxy_type: ProxyType::MobileDevice,
        channel,
        packet_flags: ENCRYPTED | FRAME_TYPE_FIRST | FRAME_TYPE_LAST,
        final_length: None,
        message_id: 0,
        payload: encode_utf8(xml),
    }
}

/// The request to connect a session.
pub open spec fn connection_request(session_id: Seq<char>) -> Seq<char> {
    "<ExlapConnectionRequest session_id=\""@ + session_id + "\"/>"@
}

/// The first session at or after `from` that is of a kind.
pub open spec fn first_session(
    sessions: Seq<SessionView>,
    from: int,
    p: spec_fn(SessionView) -> bool,
) -> Option<int>
    decreases sessions.len() - from,
{
    if from < 0 || from >= sessions.len() {
        None
    } else if p(sessions[from]) {
        Some(from)
    } else {
        first_session(sessions, from + 1, p)
    }
}

/// The session that waits for `ExlapConnectionReturn`.
pub open spec fn waiting_session(sessions: Seq<SessionView>) -> Option<int> {
    first_session(sessions, 0, |s: SessionView| s.link is WaitConnReturn)
}

/// The session that is to be started next.
pub open spec fn next_session(sessions: Seq<SessionView>) -> Option<int> {
    first_session(sessions, 0, |s: SessionView| s.link is Pending)
}

impl StateView {
    /// What holds of every state of the hook.
    pub open spec fn inv(self) -> bool {
        // Every credential exists.
        &&& creds_exist(self.creds)
        &&& forall|i: int|
            0 <= i < self.sessions.len() ==> (#[trigger] self.sessions[i]).cred
                < user_names().len()
        // Nothing waits in a machine, and it is set up as the hook wants it.
        &&& forall|i: int| 0 <= i < self.sessions.len() ==> (#[trigger] self.sessions[i]).settled()
        // A session that was started has an id.
        &&& forall|i: int|
            0 <= i < self.sessions.len() && (#[trigger] self.sessions[i]).is_open()
                ==> is_session_id(self.sessions[i].session_id)
        // At most one connection request is outstanding.
        &&& forall|i: int, j: int|
            0 <= i < self.sessions.len() && 0 <= j < self.sessions.len() && (
            #[trigger] self.sessions[i]).link is WaitConnReturn && (
            #[trigger] self.sessions[j]).link is WaitConnReturn ==> i == j
        // Sessions are started in order: behind one that is not started, or that
        // still waits for its answer, none is.
        &&& forall|i: int, j: int|
            0 <= i < j < self.sessions.len() && ((#[trigger] self.sessions[i]).link is Pending
                || self.sessions[i].link is WaitConnReturn) ==> (
            #[trigger] self.sessions[j]).link is Pending
        // Nothing was started before the first connection request.
        &&& forall|i: int|
            0 <= i < self.sessions.len() && !self.connecting_started ==> (
            #[trigger] self.sessions[i]).link is Pending
        &&& self.recently_sent.len() <= REMEMBERED
        &&& self.subscribe_ival_ms > 0
    }

    /// The state with nothing waiting in the machine of one session.
    pub open spec fn drained(self, idx: int) -> StateView {
        match self.sessions[idx].link {
            LinkView::Running(m) => self.with_machine(idx, MachineView { out: Seq::empty(), ..m }),
            _ => self,
        }
    }

    /// The state with one session replaced.
    pub open spec fn with_session(self, idx: int, sess: SessionView) -> StateView {
        StateView { sessions: self.sessions.update(idx, sess), ..self }
    }

    /// The state with the machine of one session replaced.
    pub open spec fn with_machine(self, idx: int, m: MachineView) -> StateView {
        self.with_session(
            idx,
            SessionView { link: LinkView::Running(m), ..self.sessions[idx] },
        )
    }

    /// The state after the host was given one more thing to do.
    pub open spec fn told(self, e: EffectView) -> StateView {
        StateView { effects: self.effects.push(e), ..self }
    }

    /// The state after a line was written to the log.
    pub open spec fn logged(self, n: NoticeView) -> StateView {
        StateView { log: self.log.push(n), ..self }
    }

    /// The state after a line of the verbose log, which is written where that is
    /// on.
    pub open spec fn debugged(self, n: NoticeView) -> StateView {
        if self.debug {
            self.logged(n)
        } else {
            self
        }
    }

    /// The state after the web UI was told how a session stands.
    pub open spec fn reported(self, idx: int) -> StateView {
        self.told(EffectView::Connection(self.sessions[idx].report()))
    }

    /// The state after a frame was queued for the head unit.
    pub open spec fn sent(self, xml: Seq<char>) -> StateView {
        let remembered = self.recently_sent.push(xml);
        StateView {
            outbound: self.outbound.push(frame_packet(self.channel, xml)),
            recently_sent: if remembered.len() > REMEMBERED {
                remembered.skip(1)
            } else {
                remembered
            },
            ..self
        }
    }

    /// The state after requests of a session were queued, in order, each in the
    /// wrapper of the session.
    pub open spec fn sent_all(self, session_id: Seq<char>, reqs: Seq<Seq<char>>) -> StateView
        decreases reqs.len(),
    {
        if reqs.len() == 0 {
            self
        } else {
            self.sent_all(session_id, reqs.drop_last()).sent(wrapped(session_id, reqs.last()))
        }
    }

    /// The state after what waits in the machine of a session was queued.
    pub open spec fn flushed(self, idx: int) -> StateView {
        match self.sessions[idx].link {
            LinkView::Running(m) => self.drained(idx).sent_all(
                self.sessions[idx].session_id,
                m.out,
            ),
            _ => self,
        }
    }

    /// The session that can be started now: the next one, unless a connection
    /// request is outstanding.
    pub open spec fn startable(self) -> Option<int> {
        if waiting_session(self.sessions) is Some {
            None
        } else {
            next_session(self.sessions)
        }
    }

    /// The state after the next session was started under an id: unchanged where
    /// one waits for its answer or none is left to start.
    pub open spec fn started(self, id: Seq<char>) -> StateView {
        match self.startable() {
            Some(idx) => StateView { connecting_started: true, ..self }.with_session(
                idx,
                SessionView {
                    link: LinkView::WaitConnReturn,
                    session_id: id,
                    ..self.sessions[idx]
                },
            ).debugged(
                NoticeView::Starting {
                    cred: self.sessions[idx].cred,
                    user: user_names()[self.sessions[idx].cred as int],
                    session_id: id,
                },
            ).sent(connection_request(id)),
            None => self,
        }
    }

    /// The next session was started, under some id, where one could be.
    pub open spec fn starts(self, t: StateView) -> bool {
        exists|id: Seq<char>| is_session_id(id) && t == #[trigger] self.started(id)
    }

    /// The web UI told of each of the first sessions.
    pub open spec fn all_reported(self, n: int) -> StateView
        decreases n,
    {
        if n <= 0 {
            self
        } else {
            self.all_reported(n - 1).reported(n - 1)
        }
    }

    /// The state after every session was made anew, for the credentials that are
    /// configured now, and the web UI was told.
    pub open spec fn reset(self) -> StateView {
        let t = StateView {
            sessions: pending_sessions(self.creds),
            claimed: Set::empty(),
            connecting_started: false,
            ..self
        };
        t.all_reported(t.sessions.len() as int)
    }
}

/// A state in which nothing has happened yet.
pub open spec fn fresh_state(
    channel: u8,
    creds: Seq<usize>,
    subscribe_urls: Seq<Seq<char>>,
    ival: u32,
) -> StateView {
    StateView {
        channel,
        connecting_started: false,
        buffer: Seq::empty(),
        creds,
        sessions: pending_sessions(creds),
        claimed: Set::empty(),
        tank_level: None,
        outside_temp: None,
        battery_capacity_wh: None,
        subscribe_urls,
        subscribe_ival_ms: ival,
        values: Map::empty(),
        outbound: Seq::empty(),
        recently_sent: Seq::empty(),
        debug: false,
        effects: Seq::empty(),
        log: Seq::empty(),
    }
}

/// The packets of requests of a session, each in the wrapper of the session.
pub open spec fn statement_packets(
    channel: u8,
    session_id: Seq<char>,
    reqs: Seq<Seq<char>>,
) -> Seq<PacketView> {
    Seq::new(reqs.len(), |i: int| frame_packet(channel, wrapped(session_id, reqs[i])))
}

/// To queue requests changes what waits to be sent and what is remembered, and
/// nothing else.
pub proof fn lemma_sent_all(s: StateView, session_id: Seq<char>, reqs: Seq<Seq<char>>)
    ensures
        s.sent_all(session_id, reqs) == (StateView {
            outbound: s.outbound + statement_packets(s.channel, session_id, reqs),
            recently_sent: s.sent_all(session_id, reqs).recently_sent,
            ..s
        }),
    decreases reqs.len(),
{
    if reqs.len() > 0 {
        let before = reqs.drop_last();
        lemma_sent_all(s, session_id, before);
        assert(statement_packets(s.channel, session_id, reqs) =~= statement_packets(
            s.channel,
            session_id,
            before,
        ).push(frame_packet(s.channel, wrapped(session_id, reqs.last()))));
        assert(s.outbound + statement_packets(s.channel, session_id, reqs) =~= (s.outbound
            + statement_packets(s.channel, session_id, before)).push(
            frame_packet(s.channel, wrapped(session_id, reqs.last())),
        ));
    } else {
        assert(s.outbound + statement_packets(s.channel, session_id, reqs) =~= s.outbound);
    }
}

fn new_sessions(creds: &Vec<usize>) -> (r: Vec<Session>)
    ensures
        session_views(r@) == pending_sessions(creds@),
{
    let mut out: Vec<Session> = Vec::new();
    let mut i: usize = 0;
    while i < creds.len()
        invariant
            i <= creds@.len(),
            session_views(out@) == pending_sessions(creds@).take(i as int),
        decreases creds@.len() - i,
    {
        let ghost before = out@;
        let sess: Session = Session::pending(creds[i]);
        out.push(sess);
        assert(session_views(out@) == session_views(before).push(sess@));
        i = i + 1;
    }
    assert(pending_sessions(creds@).take(i as int) == pending_sessions(creds@));
    out
}

impl ExlapState {
    /// The state is one of the hook.
    pub open spec fn wf(self) -> bool {
        &&& distinct_urls(changes(self.current_values@))
        &&& self@.inv()
    }

    /// The state is one of the hook, once what waits in the machine of one
    /// session is sent.
    pub open spec fn wf_but(self, idx: int) -> bool {
        &&& 0 <= idx < self.sessions@.len()
        &&& distinct_urls(changes(self.current_values@))
        &&& self@.drained(idx).inv()
    }

    /// A state in which nothing has happened yet.
    pub fn new(exlap_channel: u8, creds: Vec<usize>, subscribe_urls: Vec<String>, ival: u32) -> (r:
        ExlapState)
        requires
            creds_exist(creds@),
            ival > 0,
        ensures
            r.wf(),
            r@ == fresh_state(exlap_channel, creds@, texts(subscribe_urls@), ival),
    {
        let sessions: Vec<Session> = new_sessions(&creds);
        let r: ExlapState = ExlapState {
            exlap_channel,
            connecting_started: false,
            assemble_buf: Vec::new(),
            creds,
            sessions,
            claimed: StringHashSet::new(),
            tank_level: None,
            outside_temp: None,
            battery_capacity_wh: None,
            subscribe_urls,
            subscribe_ival_ms: ival,
            current_values: Vec::new(),
            outbound: Vec::new(),
            recently_sent: Vec::new(),
            debug: false,
            effects: Vec::new(),
            log: Vec::new(),
        };
        assert(r@ =~= fresh_state(exlap_channel, creds@, texts(subscribe_urls@), ival));
        r
    }

    /// The credential of the session in slot `idx`.
    pub fn cred(&self, idx: usize) -> (r: usize)
        requires
            idx < self.sessions@.len(),
        ensures
            r == self@.sessions[idx as int].cred,
    {
        self.sessions[idx].cred
    }

    /// A packet that carries a frame to the head unit.
    pub fn make_pkt(&self, xml: &str) -> (r: Packet)
        ensures
            r@ == frame_packet(self.exlap_channel, xml@),
    {
        Packet {
            proxy_type: ProxyType::MobileDevice,
            channel: self.exlap_channel,
            packet_flags: ENCRYPTED | FRAME_TYPE_FIRST | FRAME_TYPE_LAST,
            final_length: None,
            message_id: 0,
            payload: xml.as_bytes_vec(),
        }
    }

    /// Queues a frame for the head unit, and remembers it so that it is skipped
    /// when it comes back to the hook.
    pub fn send_xml(&mut self, xml: &str)
        requires
            old(self).wf(),
        ensures
            final(self).wf(),
            final(self)@ == old(self)@.sent(xml@),
            final(self).sessions == old(self).sessions,
    {
        let pkt: Packet = self.make_pkt(xml);
        let ghost sent_before = self.recently_sent@;
        self.recently_sent.push(owned(xml));
        assert(texts(self.recently_sent@) == texts(sent_before).push(xml@));
        if self.recently_sent.len() > REMEMBERED {
            let ghost all = self.recently_sent@;
            self.recently_sent.remove(0);
            assert(texts(self.recently_sent@) == texts(all).skip(1));
        }
        let ghost out_before = self.outbound@;
        self.outbound.push(pkt);
        assert(packets(self.outbound@) == packets(out_before).push(pkt@));
        assert(self@ =~= old(self)@.sent(xml@));
    }

    /// Queues what waits in the machine of a session for the head unit, each
    /// request in the wrapper of the session.
    pub fn flush_machine(&mut self, idx: usize)
        requires
            old(self).wf_but(idx as int),
        ensures
            final(self).wf(),
            final(self)@ == old(self)@.flushed(idx as int),
            final(self).sessions@.len() == old(self).sessions@.len(),
    {
        let sid: String = self.sessions[idx].session_id.clone();
        let reqs: Vec<String> = match self.sessions[idx].machine() {
            Some(m) => m.take_outbound(),
            None => {
                assert(self@ =~= old(self)@) by {
                    assert(self@.sessions =~= old(self)@.sessions);
                }
                assert(old(self)@.drained(idx as int) == self@);
                return;
            },
        };
        let ghost base = self@;
        let ghost all = texts(reqs@);
        proof {
            assert(base =~= old(self)@.drained(idx as int)) by {
                assert(base.sessions =~= old(self)@.drained(idx as int).sessions);
            }
            assert(all.take(0) == Seq::<Seq<char>>::empty());
        }
        let mut i: usize = 0;
        while i < reqs.len()
            invariant
                i <= reqs@.len(),
                all == texts(reqs@),
                self.wf(),
                self.sessions@.len() == old(self).sessions@.len(),
                self@ == base.sent_all(sid@, all.take(i as int)),
            decreases reqs@.len() - i,
        {
            let framed: String = wrap(sid.as_str(), reqs[i].as_str());
            self.send_xml(framed.as_str());
            proof {
                assert(all.take(i + 1).drop_last() == all.take(i as int));
                assert(all.take(i + 1).last() == reqs@[i as int]@);
            }
            i = i + 1;
        }
        assert(all.take(i as int) == all);
    }

    /// Writes a line to the log.
    pub fn log_line(&mut self, n: Notice)
        ensures
            final(self)@ == old(self)@.logged(n@),
            *final(self) == (ExlapState { log: final(self).log, ..*old(self) }),
    {
        let ghost before = self.log@;
        self.log.push(n);
        assert(notice_views(self.log@) == notice_views(before).push(n@));
    }

    /// Writes a line to the log where the verbose log is on.
    pub fn debug_line(&mut self, n: Notice)
        ensures
            final(self)@ == old(self)@.debugged(n@),
            *final(self) == (ExlapState { log: final(self).log, ..*old(self) }),
    {
        if self.debug {
            self.log_line(n);
        }
    }

    /// Gives the host one more thing to do.
    pub fn tell(&mut self, e: Effect)
        ensures
            final(self)@ == old(self)@.told(e@),
            *final(self) == (ExlapState { effects: final(self).effects, ..*old(self) }),
    {
        let ghost before = self.effects@;
        self.effects.push(e);
        assert(effect_views(self.effects@) == effect_views(before).push(e@));
    }
}

// -- Bringing sessions up --------------------------------------------------------

/// What [`first_session`] gives.
pub proof fn lemma_first_session(
    sessions: Seq<SessionView>,
    from: int,
    p: spec_fn(SessionView) -> bool,
)
    requires
        0 <= from,
    ensures
        match first_session(sessions, from, p) {
            Some(i) => from <= i < sessions.len() && p(sessions[i]) && forall|j: int|
                from <= j < i ==> !p(#[trigger] sessions[j]),
            None => forall|j: int| from <= j < sessions.len() ==> !p(#[trigger] sessions[j]),
        },
    decreases sessions.len() - from,
{
    if from < sessions.len() && !p(sessions[from]) {
        lemma_first_session(sessions, from + 1, p);
    }
}

/// The first session that waits for `ExlapConnectionReturn`.
pub fn find_waiting(sessions: &Vec<Session>) -> (r: Option<usize>)
    ensures
        match r {
            Some(i) => waiting_session(session_views(sessions@)) == Some(i as int),
            None => waiting_session(session_views(sessions@)) is None,
        },
        r matches Some(i) ==> i < sessions@.len() && sessions@[i as int].state is WaitConnReturn,
{
    let ghost p = |s: SessionView| s.link is WaitConnReturn;
    let mut i: usize = 0;
    while i < sessions.len()
        invariant
            i <= sessions@.len(),
            p == (|s: SessionView| s.link is WaitConnReturn),
            waiting_session(session_views(sessions@)) == first_session(
                session_views(sessions@),
                i as int,
                p,
            ),
        decreases sessions@.len() - i,
    {
        assert(session_views(sessions@)[i as int] == sessions@[i as int]@);
        match &sessions[i].state {
            SessionState::WaitConnReturn => return Some(i),
            _ => {},
        }
        i = i + 1;
    }
    None
}

/// The first session that was not started yet.
pub fn find_pending(sessions: &Vec<Session>) -> (r: Option<usize>)
    ensures
        match r {
            Some(i) => next_session(session_views(sessions@)) == Some(i as int),
            None => next_session(session_views(sessions@)) is None,
        },
        r matches Some(i) ==> i < sessions@.len() && sessions@[i as int].state is Pending,
{
    let ghost p = |s: SessionView| s.link is Pending;
    let mut i: usize = 0;
    while i < sessions.len()
        invariant
            i <= sessions@.len(),
            p == (|s: SessionView| s.link is Pending),
            next_session(session_views(sessions@)) == first_session(
                session_views(sessions@),
                i as int,
                p,
            ),
        decreases sessions@.len() - i,
    {
        assert(session_views(sessions@)[i as int] == sessions@[i as int]@);
        match &sessions[i].state {
            SessionState::Pending => return Some(i),
            _ => {},
        }
        i = i + 1;
    }
    None
}

/// Starts a session that can be started, under an id.
pub fn start_session(s: &mut ExlapState, idx: usize, id: String)
    requires
        old(s).wf(),
        old(s)@.startable() == Some(idx as int),
        is_session_id(id@),
    ensures
        final(s).wf(),
        final(s)@ == old(s)@.started(id@),
{
    let ghost before = s@;
    proof {
        lemma_first_session(before.sessions, 0, |s: SessionView| s.link is WaitConnReturn);
        lemma_first_session(before.sessions, 0, |s: SessionView| s.link is Pending);
    }
    let mut xml: String = owned("<ExlapConnectionRequest session_id=\"");
    xml.append(id.as_str());
    xml.append("\"/>");
    s.connecting_started = true;
    let cred: usize = s.cred(idx);
    assert(before.sessions[idx as int] == s.sessions@[idx as int]@);
    let line: Notice = Notice::Starting { cred, user: user_name(cred), session_id: id.clone() };
    s.sessions[idx].session_id = id;
    s.sessions[idx].state = SessionState::WaitConnReturn;
    proof {
        let now = (StateView { connecting_started: true, ..before }).with_session(
            idx as int,
            SessionView {
                link: LinkView::WaitConnReturn,
                session_id: id@,
                ..before.sessions[idx as int]
            },
        );
        assert(s@.sessions =~= now.sessions);
        assert(s@ =~= now);
        assert(s@.inv());
    }
    s.debug_line(line);
    s.send_xml(xml.as_str());
}

/// Starts the next session, if no connection request is outstanding and a
/// session is left to start. Only one `ExlapConnectionRequest` is ever
/// outstanding at a time, since `ExlapConnectionReturn` does not say which
/// session it is for. It can be called at any time, on every `ExlapBeacon` for
/// one.
pub fn try_start_next_session(s: &mut ExlapState)
    requires
        old(s).wf(),
    ensures
        final(s).wf(),
        old(s)@.starts(final(s)@),
{
    proof {
        let zeros = Seq::new(16, |i: int| 0u8);
        assert(is_session_id(hex(zeros)));
        assert(s@.startable() is None ==> s@ == s@.started(hex(zeros)));
    }
    match find_waiting(&s.sessions) {
        Some(_) => return,  // an attempt is already in flight
        None => {},
    }
    let idx: usize = match find_pending(&s.sessions) {
        Some(i) => i,
        None => return,  // nothing is left to start
    };
    start_session(s, idx, make_session_id());
}

/// Tells the web UI how a session stands.
pub fn push_connection_state(s: &mut ExlapState, idx: usize)
    requires
        old(s).wf(),
        idx < old(s).sessions@.len(),
    ensures
        final(s).wf(),
        final(s)@ == old(s)@.reported(idx as int),
        final(s).sessions == old(s).sessions,
{
    assert(s@.sessions[idx as int] == s.sessions@[idx as int]@);
    let report: ConnectionReport = connection_report(&s.sessions[idx]);
    s.tell(Effect::Connection(report));
}

/// Makes every session anew and forgets which URLs are claimed.
pub fn reset_sessions(s: &mut ExlapState)
    requires
        old(s).wf(),
    ensures
        final(s).wf(),
        final(s)@ == old(s)@.reset(),
{
    s.sessions = new_sessions(&s.creds);
    s.claimed.clear();
    s.connecting_started = false;
    let ghost base = s@;
    proof {
        let t = StateView {
            sessions: pending_sessions(old(s)@.creds),
            claimed: Set::empty(),
            connecting_started: false,
            ..old(s)@
        };
        assert(base =~= t);
        assert(base.inv());
    }
    let n: usize = s.sessions.len();
    let mut idx: usize = 0;
    while idx < n
        invariant
            idx <= n == s.sessions@.len(),
            s.wf(),
            s@ == base.all_reported(idx as int),
        decreases n - idx,
    {
        push_connection_state(s, idx);
        idx = idx + 1;
    }
}

} // verus!
