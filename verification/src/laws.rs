//! What holds of the hook as a whole, over packets, commands and settings.

use crate::channel::{frame_kind, open_status, or_empty, shown_id};
use crate::command::CommandView;
use crate::config::cred_list;
use crate::discovery::advertised_exlap;
use crate::driver::{harvested, lemma_nothing_to_flush, level_in};
use crate::frame::{
    attr_in_tag, law_unwrap_reads_what_wrap_wrote, law_wrapper_names_its_session, name_end,
    unwrapped, wrapped,
};
use crate::growth::{lemma_feed_grows, lemma_logs_on, lemma_start_grows};
use crate::hook::{is_discovery, shows_exlap};
use crate::nonce::{is_cnonce, is_session_id, law_session_id_fits};
use crate::packet::{PacketView, ProxyType};
use crate::plan::{
    asks_for, law_each_url_is_subscribed_once, lemma_wanted_is_subscribable, offers, subscribable,
    wanted,
};
use crate::protocol::{
    alive_body, answered, answers_directory, any_phase, auth_digest, awaiting_directory,
    challenge_body, challenge_nonce, dat_document, directory_query, failure, heartbeat_body, is_bye,
    is_over, is_ping, names_failure, nonce_text, ping, protocol_body, request_frame, response_body,
    subscribe_frames, user_names, with_request, DatView, EntryView, EventView, MachineView, Phase,
    HEARTBEAT_IVAL_SECS,
};
use crate::report::{EffectView, NoticeView};
use crate::state::{
    frame_packet, lemma_first_session, lemma_sent_all, next_session, pending_session,
    pending_sessions, statement_packets, waiting_session, LinkView, SessionView, StateView,
    REMEMBERED,
};
use crate::text::{contains_text, lemma_find_is, occurs_at, trim};
use vstd::prelude::*;
use vstd::utf8::{decode_utf8, valid_utf8};

verus! {

// -- What every packet keeps -----------------------------------------------------

impl StateView {
    /// The settings are the same, and what was queued, logged or to be told still is.
    pub open spec fn keeps_settings(self, t: StateView) -> bool {
        &&& t.channel == self.channel
        &&& t.creds == self.creds
        &&& t.battery_capacity_wh == self.battery_capacity_wh
        &&& t.subscribe_urls == self.subscribe_urls
        &&& t.subscribe_ival_ms == self.subscribe_ival_ms
        &&& t.debug == self.debug
        &&& self.logs_on(t)
        &&& self.outbound.is_prefix_of(t.outbound)
        &&& self.effects.is_prefix_of(t.effects)
    }

    /// The sessions go on: a credential keeps its place, a session that failed
    /// stays so, and no claim is given up.
    pub open spec fn goes_on(self, t: StateView) -> bool {
        &&& t.sessions.len() == self.sessions.len()
        &&& forall|i: int|
            0 <= i < self.sessions.len() ==> (#[trigger] t.sessions[i]).cred
                == self.sessions[i].cred && (self.sessions[i].link is Failed
                ==> t.sessions[i].link is Failed)
        &&& self.claimed.subset_of(t.claimed)
        &&& self.connecting_started ==> t.connecting_started
    }

    /// The sessions begin anew: there is one for each credential that is
    /// configured now, the first is started and the others wait, and no URL is
    /// claimed.
    pub open spec fn begins_anew(self, t: StateView) -> bool {
        &&& t.sessions.len() == self.creds.len()
        &&& forall|i: int|
            0 <= i < t.sessions.len() ==> (#[trigger] t.sessions[i]).cred == self.creds[i]
        &&& t.sessions.len() > 0 ==> t.sessions[0].link is WaitConnReturn
        &&& forall|i: int| 0 < i < t.sessions.len() ==> (#[trigger] t.sessions[i]).link is Pending
        &&& t.claimed == Set::<Seq<char>>::empty()
    }

    /// What a packet does to the sessions and the settings.
    pub open spec fn keeps(self, t: StateView) -> bool {
        self.keeps_settings(t) && (self.goes_on(t) || self.begins_anew(t))
    }
}

proof fn lemma_prefix_refl<A>(a: Seq<A>)
    ensures
        a.is_prefix_of(a),
{
    assert(a =~= a.subrange(0, a.len() as int));
}

proof fn lemma_prefix_trans<A>(a: Seq<A>, b: Seq<A>, c: Seq<A>)
    requires
        a.is_prefix_of(b),
        b.is_prefix_of(c),
    ensures
        a.is_prefix_of(c),
{
    assert(a =~= c.subrange(0, a.len() as int)) by {
        assert(a == b.subrange(0, a.len() as int));
        assert(b == c.subrange(0, b.len() as int));
    }
}

proof fn lemma_prefix_push<A>(a: Seq<A>, x: A)
    ensures
        a.is_prefix_of(a.push(x)),
{
    assert(a =~= a.push(x).subrange(0, a.len() as int));
}

proof fn lemma_same_goes_on(s: StateView)
    ensures
        s.keeps_settings(s),
        s.goes_on(s),
{
    lemma_prefix_refl(s.outbound);
    lemma_prefix_refl(s.effects);
}

proof fn lemma_start_goes_on(s: StateView, t: StateView)
    requires
        s.starts(t),
    ensures
        s.keeps_settings(t),
        s.goes_on(t),
{
    lemma_start_grows(s, -1, t);
}

proof fn lemma_feed_goes_on(s: StateView, idx: int, msg: Seq<char>, t: StateView)
    requires
        0 <= idx < s.sessions.len(),
        s.feeds(idx, msg, t),
    ensures
        s.keeps_settings(t),
        s.goes_on(t),
{
    lemma_feed_grows(s, idx, msg, t);
    if s.sessions[idx].link is Failed {
        assert(t == s);
    }
}

proof fn lemma_goes_on_on(a: StateView, b: StateView, c: StateView)
    requires
        a.keeps_settings(b),
        a.goes_on(b),
        b.keeps_settings(c),
        b.goes_on(c),
    ensures
        a.keeps_settings(c),
        a.goes_on(c),
{
    lemma_logs_on(a, b, c);
    lemma_prefix_trans(a.outbound, b.outbound, c.outbound);
    lemma_prefix_trans(a.effects, b.effects, c.effects);
    assert forall|i: int| 0 <= i < a.sessions.len() implies (#[trigger] c.sessions[i]).cred
        == a.sessions[i].cred && (a.sessions[i].link is Failed ==> c.sessions[i].link is Failed) by {
        assert(b.sessions[i].cred == a.sessions[i].cred);
    }
}

proof fn lemma_pings_go_on(s: StateView, n: int, t: StateView)
    requires
        0 <= n <= s.sessions.len(),
        s.pings(n, t),
    ensures
        s.keeps_settings(t),
        s.goes_on(t),
    decreases n,
{
    if n == 0 {
        lemma_same_goes_on(s);
    } else {
        let u = choose|u: StateView| s.pings(n - 1, u) && #[trigger] u.feeds(n - 1, ping(), t);
        lemma_pings_go_on(s, n - 1, u);
        lemma_feed_goes_on(u, n - 1, ping(), t);
        lemma_goes_on_on(s, u, t);
    }
}

proof fn lemma_all_reported(s: StateView, n: int)
    requires
        0 <= n <= s.sessions.len(),
    ensures
        s.all_reported(n) == (StateView { effects: s.all_reported(n).effects, ..s }),
        s.effects.is_prefix_of(s.all_reported(n).effects),
    decreases n,
{
    if n == 0 {
        lemma_prefix_refl(s.effects);
    } else {
        lemma_all_reported(s, n - 1);
        let t = s.all_reported(n - 1);
        lemma_prefix_push(t.effects, EffectView::Connection(t.sessions[n - 1].report()));
        lemma_prefix_trans(s.effects, t.effects, s.all_reported(n).effects);
    }
}

/// A reset and a start begin the sessions anew.
proof fn lemma_reset_begins_anew(s: StateView, t: StateView)
    requires
        s.reset().starts(t),
    ensures
        s.keeps_settings(t),
        s.begins_anew(t),
{
    let base = StateView {
        sessions: pending_sessions(s.creds),
        claimed: Set::empty(),
        connecting_started: false,
        ..s
    };
    let u = s.reset();
    lemma_all_reported(base, base.sessions.len() as int);
    assert(u.sessions == pending_sessions(s.creds));
    let id = choose|id: Seq<char>| is_session_id(id) && t == #[trigger] u.started(id);
    lemma_first_session(u.sessions, 0, |x: SessionView| x.link is WaitConnReturn);
    lemma_first_session(u.sessions, 0, |x: SessionView| x.link is Pending);
    assert forall|i: int| 0 <= i < u.sessions.len() implies #[trigger] u.sessions[i]
        == pending_session(s.creds[i]) by {}
    if u.sessions.len() > 0 {
        assert(u.sessions[0].link is Pending);
    }
    lemma_start_grows(u, -1, t);
    lemma_prefix_trans(s.effects, u.effects, t.effects);
}

pub proof fn lemma_xml_keeps(s: StateView, xml: Seq<char>, t: StateView)
    requires
        s.handles_xml(xml, t),
    ensures
        s.keeps(t),
{
    let kind = frame_kind(xml);
    lemma_same_goes_on(s);
    if kind == "ExlapBeacon"@ {
        lemma_start_goes_on(s, t);
    } else if kind == "ExlapConnectionClosed"@ {
        lemma_reset_begins_anew(s.debugged(NoticeView::ConnectionsClosed), t);
    } else if kind == "ExlapConnectionReturn"@ {
        lemma_first_session(s.sessions, 0, |x: SessionView| x.link is WaitConnReturn);
        if t.effects != s.effects {
            lemma_prefix_push(s.effects, t.effects.last());
            assert(t.effects =~= s.effects.push(t.effects.last()));
        }
    } else if kind == "ExlapStatement"@ {
        let sid = or_empty(attr_in_tag(xml, "ExlapStatement"@, "session_id"@));
        lemma_first_session(
            s.sessions,
            0,
            |x: SessionView| x.session_id == sid && sid.len() > 0,
        );
        match s.session_with_id(sid) {
            Some(idx) => {
                if s.can_feed(idx, unwrapped(xml)) {
                    lemma_feed_goes_on(s, idx, unwrapped(xml), t);
                }
            },
            None => {
                assert(s.effects.is_prefix_of(t.effects)) by {
                    assert(s.effects =~= t.effects.subrange(0, s.effects.len() as int));
                }
            },
        }
    } else if kind == "Status"@ {
        if contains_text(xml, "Alive"@) {
            let u = choose|u: StateView|
                s.pings(s.sessions.len() as int, u) && t == #[trigger] u.debugged(
                    NoticeView::PingAnswered,
                );
            lemma_pings_go_on(s, s.sessions.len() as int, u);
        } else if contains_text(xml, "Bye"@) {
            lemma_reset_begins_anew(s.debugged(NoticeView::ByeReceived), t);
        } else if contains_text(xml, "Init"@) {
            lemma_first_session(s.sessions, 0, |x: SessionView| x.phase() == Some(Phase::Init));
            match s.awaiting_init() {
                Some(idx) => lemma_feed_goes_on(
                    s.debugged(NoticeView::BannerFor(s.sessions[idx].cred)),
                    idx,
                    xml,
                    t,
                ),
                None => {},
            }
        }
    }
}

/// A packet on the channel keeps the settings, and the sessions go on or begin anew.
pub proof fn lemma_packet_keeps(s: StateView, pkt: PacketView, t: StateView)
    requires
        s.processes(pkt, t),
    ensures
        s.keeps(t),
{
    lemma_same_goes_on(s);
    if pkt.is_control() {
        let d = s.debugged(
            NoticeView::ControlSeen { from: pkt.proxy_type, msg_id: shown_id(pkt.payload) },
        );
        let u = d.opened(open_status(pkt.payload));
        if u.starts(t) {
            lemma_start_goes_on(u, t);
        }
    } else if pkt.is_last() {
        let bytes = s.assembled(pkt);
        let xml = decode_utf8(bytes);
        if valid_utf8(bytes) && !s.recently_sent.contains(xml) && pkt.proxy_type
            == ProxyType::HeadUnit {
            lemma_xml_keeps(s.received(pkt.proxy_type, xml), xml, t);
        }
    }
}

/// A packet changes no setting but the channel, and that only before the first
/// connection request; discovery may name another channel.
pub proof fn law_packets_change_no_setting(s: StateView, pkt: PacketView, t: StateView)
    requires
        s.sees(pkt, t),
    ensures
        t.creds == s.creds,
        t.subscribe_urls == s.subscribe_urls,
        t.subscribe_ival_ms == s.subscribe_ival_ms,
        t.battery_capacity_wh == s.battery_capacity_wh,
        t.debug == s.debug,
        s.connecting_started && !is_discovery(pkt) ==> t.channel == s.channel,
{
    let u = s.carried(pkt);
    if !is_discovery(pkt) {
        let v = u.adopted(pkt);
        if pkt.channel == v.channel {
            lemma_packet_keeps(v, pkt, t);
        }
    }
}

/// Frames leave only while a packet passes to the head unit; then all that were
/// queued leave, in order.
pub proof fn law_frames_leave_with_a_packet_to_the_head_unit(s: StateView, pkt: PacketView)
    ensures
        pkt.proxy_type == ProxyType::HeadUnit ==> s.sends_with(pkt).len() == 0 && s.carried(pkt)
            == s,
        pkt.proxy_type == ProxyType::MobileDevice ==> s.sends_with(pkt) == s.outbound && s.carried(
            pkt,
        ).outbound.len() == 0,
{
}

/// A frame that is queued stays queued, in its place, until a packet passes to
/// the head unit or discovery begins everything anew.
pub proof fn law_queued_frames_are_kept(s: StateView, pkt: PacketView, t: StateView)
    requires
        s.sees(pkt, t),
        pkt.proxy_type == ProxyType::HeadUnit,
        !is_discovery(pkt),
    ensures
        s.outbound.is_prefix_of(t.outbound),
{
    lemma_prefix_refl(s.outbound);
    let v = s.carried(pkt).adopted(pkt);
    if pkt.channel == v.channel {
        lemma_packet_keeps(v, pkt, t);
    }
}

/// A packet leaves what was logged, and writes a verbose line only where the
/// verbose log is on.
pub proof fn law_packets_write_no_verbose_line_unasked(s: StateView, pkt: PacketView, t: StateView)
    requires
        s.sees(pkt, t),
    ensures
        s.logs_on(t),
{
    let u = s.carried(pkt);
    if !is_discovery(pkt) {
        let v = u.adopted(pkt);
        if pkt.channel == v.channel {
            lemma_packet_keeps(v, pkt, t);
            lemma_logs_on(u, v, t);
        }
        lemma_logs_on(s, u, t);
    }
}

/// A change of a setting leaves what was logged, and writes a verbose line only
/// where the verbose log was on.
pub proof fn law_settings_write_no_verbose_line_unasked(
    s: StateView,
    name: Seq<char>,
    value: Seq<char>,
)
    ensures
        s.logs_on(s.configured(name, value)),
{
}

/// A packet lets the sessions go on, or begins all of them anew: no claim is
/// given up and no failed session is retried but with all the others.
pub proof fn law_sessions_go_on_or_begin_anew(s: StateView, pkt: PacketView, t: StateView)
    requires
        s.sees(pkt, t),
        !is_discovery(pkt),
    ensures
        s.goes_on(t) || s.begins_anew(t),
{
    lemma_same_goes_on(s);
    let u = s.carried(pkt);
    let v = u.adopted(pkt);
    if pkt.channel == v.channel {
        lemma_packet_keeps(v, pkt, t);
    }
}

/// A packet of another channel that shows no ExLAP does nothing but carry what
/// waits to be sent.
pub proof fn law_other_channels_pass(s: StateView, pkt: PacketView, t: StateView)
    requires
        s.sees(pkt, t),
        !is_discovery(pkt),
        !shows_exlap(pkt) || s.connecting_started,
        pkt.channel != s.channel,
    ensures
        t == s.carried(pkt),
{
}

/// An ExLAP frame on another channel moves the hook to that channel, as long as
/// no session was started.
pub proof fn law_exlap_frame_moves_the_channel(s: StateView, pkt: PacketView, t: StateView)
    requires
        s.sees(pkt, t),
        !is_discovery(pkt),
        shows_exlap(pkt),
        !s.connecting_started,
    ensures
        t.channel == pkt.channel,
{
    let v = s.carried(pkt).adopted(pkt);
    lemma_packet_keeps(v, pkt, t);
}

/// Every discovery begins everything but the settings anew, on the channel that
/// it names, or on the same one where it names none.
pub proof fn law_discovery_keeps_the_settings(s: StateView, pkt: PacketView, t: StateView)
    requires
        s.sees(pkt, t),
        is_discovery(pkt),
        pkt.payload.len() >= 2,
    ensures
        t.channel == match advertised_exlap(pkt.payload.skip(2)) {
            Some(id) => id as u8,
            None => s.channel,
        },
        t.sessions == pending_sessions(s.creds),
        t.creds == s.creds,
        t.subscribe_urls == s.subscribe_urls,
        t.subscribe_ival_ms == s.subscribe_ival_ms,
        t.battery_capacity_wh == s.battery_capacity_wh,
        t.debug == s.debug,
        !t.connecting_started,
        t.claimed == Set::<Seq<char>>::empty(),
        t.outbound.len() == 0,
        t.buffer.len() == 0,
{
}

// -- Frames ----------------------------------------------------------------------

/// The flags of a frame that the hook sends: a whole frame of data.
proof fn lemma_frame_flags(channel: u8, xml: Seq<char>)
    ensures
        !frame_packet(channel, xml).is_control(),
        frame_packet(channel, xml).is_first(),
        frame_packet(channel, xml).is_last(),
{
    assert((0x08u8 | 0x01u8 | 0x02u8) & 0x04u8 == 0) by (bit_vector);
    assert((0x08u8 | 0x01u8 | 0x02u8) & 0x01u8 != 0) by (bit_vector);
    assert((0x08u8 | 0x01u8 | 0x02u8) & 0x02u8 != 0) by (bit_vector);
}

/// A frame that the hook remembers having sent is skipped when it comes back.
pub proof fn law_own_frames_are_skipped(s: StateView, channel: u8, xml: Seq<char>, t: StateView)
    requires
        s.recently_sent.contains(xml),
        s.processes(frame_packet(channel, xml), t),
    ensures
        t == (StateView { buffer: Seq::empty(), log: t.log, ..s }),
{
    lemma_frame_flags(channel, xml);
    vstd::utf8::encode_utf8_valid_utf8(xml);
    vstd::utf8::encode_utf8_decode_utf8(xml);
}

impl StateView {
    /// The state after frames were queued one after the other.
    pub open spec fn sent_frames(self, list: Seq<Seq<char>>) -> StateView
        decreases list.len(),
    {
        if list.len() == 0 {
            self
        } else {
            self.sent_frames(list.drop_last()).sent(list.last())
        }
    }
}

/// A frame is remembered until sixteen others were sent after it.
pub proof fn law_sent_frames_are_remembered(s: StateView, xml: Seq<char>, more: Seq<Seq<char>>)
    requires
        s.recently_sent.len() <= REMEMBERED,
        more.len() < REMEMBERED,
    ensures
        s.sent(xml).sent_frames(more).recently_sent.contains(xml),
{
    lemma_remembered_at(s, xml, more);
}

proof fn lemma_remembered_at(s: StateView, xml: Seq<char>, more: Seq<Seq<char>>)
    requires
        s.recently_sent.len() <= REMEMBERED,
        more.len() < REMEMBERED,
    ensures
        ({
            let list = s.sent(xml).sent_frames(more).recently_sent;
            more.len() < list.len() <= REMEMBERED && list[list.len() - 1 - more.len()] == xml
        }),
    decreases more.len(),
{
    if more.len() > 0 {
        lemma_remembered_at(s, xml, more.drop_last());
    }
}

/// Data on its way to the phone is not acted on: it only passes through the
/// buffer.
pub proof fn law_data_to_the_phone_is_not_acted_on(s: StateView, pkt: PacketView, t: StateView)
    requires
        s.processes(pkt, t),
        pkt.proxy_type == ProxyType::MobileDevice,
        !pkt.is_control(),
    ensures
        t.sessions == s.sessions,
        t.outbound == s.outbound,
        t.values == s.values,
        t.claimed == s.claimed,
        t.connecting_started == s.connecting_started,
        t.tank_level == s.tank_level,
        t.outside_temp == s.outside_temp,
{
}

/// A frame in two packets means what it means in one.
pub proof fn law_two_fragments_make_a_frame(
    s: StateView,
    a: PacketView,
    b: PacketView,
    whole: PacketView,
    u: StateView,
    t: StateView,
)
    requires
        !a.is_control() && a.is_first() && !a.is_last(),
        !b.is_control() && !b.is_first() && b.is_last(),
        !whole.is_control() && whole.is_first() && whole.is_last(),
        whole.payload == a.payload + b.payload,
        whole.proxy_type == b.proxy_type,
        s.processes(a, u),
        u.processes(b, t),
    ensures
        s.processes(whole, t),
{
    assert(StateView { buffer: Seq::empty(), ..u } == (StateView { buffer: Seq::empty(), ..s }));
}

/// A packet in the middle of a frame extends the one before it, so that a frame
/// in any number of packets means what it means in two.
pub proof fn law_a_fragment_extends_a_fragment(
    s: StateView,
    a: PacketView,
    b: PacketView,
    joined: PacketView,
    u: StateView,
    t: StateView,
)
    requires
        !a.is_control() && a.is_first() && !a.is_last(),
        !b.is_control() && !b.is_first() && !b.is_last(),
        !joined.is_control() && joined.is_first() && !joined.is_last(),
        joined.payload == a.payload + b.payload,
        s.processes(a, u),
        u.processes(b, t),
    ensures
        s.processes(joined, t),
{
}

// -- Bringing sessions up --------------------------------------------------------

/// A beacon does nothing while a connection request is outstanding or no session
/// is left to start.
pub proof fn law_beacon_starts_nothing_twice(s: StateView, xml: Seq<char>, t: StateView)
    requires
        s.handles_xml(xml, t),
        frame_kind(xml) == "ExlapBeacon"@,
        waiting_session(s.sessions) is Some || next_session(s.sessions) is None,
    ensures
        t == s,
{
}

/// A session whose connection was refused is the one that the next beacon
/// starts.
pub proof fn law_refused_connection_is_retried(
    s: StateView,
    idx: int,
    xml: Seq<char>,
    t: StateView,
)
    requires
        s.inv(),
        waiting_session(s.sessions) == Some(idx),
        s.after_return(false).handles_xml(xml, t),
        frame_kind(xml) == "ExlapBeacon"@,
    ensures
        s.after_return(false).sessions[idx].link is Pending,
        t.sessions[idx].link is WaitConnReturn,
        t.sessions[idx].cred == s.sessions[idx].cred,
{
    let u = s.after_return(false);
    lemma_first_session(s.sessions, 0, |x: SessionView| x.link is WaitConnReturn);
    lemma_first_session(u.sessions, 0, |x: SessionView| x.link is WaitConnReturn);
    lemma_first_session(u.sessions, 0, |x: SessionView| x.link is Pending);
    assert forall|j: int| 0 <= j < u.sessions.len() implies !((#[trigger] u.sessions[j]).link
        is WaitConnReturn) by {
        if j != idx {
            assert(s.sessions[j] == u.sessions[j]);
            assert(s.sessions[idx].link is WaitConnReturn);
        }
    }
    assert(waiting_session(u.sessions) is None);
    assert(u.sessions[idx].link is Pending);
    assert forall|j: int| 0 <= j < idx implies !((#[trigger] u.sessions[j]).link is Pending) by {
        assert(s.sessions[j] == u.sessions[j]);
        assert(s.sessions[idx].link is WaitConnReturn);
    }
    assert(next_session(u.sessions) == Some(idx));
}

/// A closed connection, or a bare bye, begins all sessions anew.
pub proof fn law_closed_connection_begins_anew(s: StateView, xml: Seq<char>, t: StateView)
    requires
        s.handles_xml(xml, t),
        frame_kind(xml) == "ExlapConnectionClosed"@ || (frame_kind(xml) == "Status"@
            && !contains_text(xml, "Alive"@) && contains_text(xml, "Bye"@)),
    ensures
        s.begins_anew(t),
{
    reveal_strlit("Status");
    reveal_strlit("ExlapBeacon");
    reveal_strlit("ExlapConnectionClosed");
    reveal_strlit("ExlapConnectionReturn");
    reveal_strlit("ExlapStatement");
    assert("Status"@.len() == 6 && "ExlapBeacon"@.len() == 11 && "ExlapConnectionClosed"@.len()
        == 21 && "ExlapStatement"@.len() == 14 && "ExlapConnectionReturn"@.len() == 21);
    assert("ExlapConnectionReturn"@[15] == 'R');
    assert("ExlapConnectionClosed"@[15] == 'C');
    if frame_kind(xml) == "ExlapConnectionClosed"@ {
        lemma_reset_begins_anew(s.debugged(NoticeView::ConnectionsClosed), t);
    } else {
        lemma_reset_begins_anew(s.debugged(NoticeView::ByeReceived), t);
    }
}

/// Two connection requests are never outstanding at once.
pub proof fn law_one_connection_request_at_a_time(s: StateView, i: int, j: int)
    requires
        s.inv(),
        0 <= i < s.sessions.len(),
        0 <= j < s.sessions.len(),
        s.sessions[i].link is WaitConnReturn,
        s.sessions[j].link is WaitConnReturn,
    ensures
        i == j,
{
}

// -- Sessions --------------------------------------------------------------------

/// The frame of a request of a session.
pub open spec fn request_packet(s: StateView, idx: int, id: u32, body: Seq<char>) -> PacketView {
    frame_packet(s.channel, wrapped(s.sessions[idx].session_id, request_frame(id, body)))
}

/// To flush a session in whose machine one request waits queues its frame.
proof fn lemma_flush_one(s: StateView, idx: int, m: MachineView, id: u32, body: Seq<char>)
    requires
        0 <= idx < s.sessions.len(),
        s.sessions[idx].link == LinkView::Running(m),
        m.out == seq![request_frame(id, body)],
    ensures
        ({
            let t = s.flushed(idx);
            t == (StateView {
                outbound: s.outbound.push(request_packet(s, idx, id, body)),
                recently_sent: t.recently_sent,
                ..s.drained(idx)
            })
        }),
{
    let sid = s.sessions[idx].session_id;
    lemma_sent_all(s.drained(idx), sid, m.out);
    assert(statement_packets(s.channel, sid, m.out) =~= seq![request_packet(s, idx, id, body)]);
    assert(s.outbound + seq![request_packet(s, idx, id, body)] =~= s.outbound.push(
        request_packet(s, idx, id, body),
    ));
}

/// A message for one session leaves the other sessions alone, but for those that
/// were pending and may now be started.
pub proof fn law_message_leaves_other_sessions_alone(
    s: StateView,
    idx: int,
    msg: Seq<char>,
    t: StateView,
    other: int,
)
    requires
        0 <= idx < s.sessions.len(),
        0 <= other < s.sessions.len(),
        other != idx,
        s.feeds(idx, msg, t),
    ensures
        t.sessions[other] == s.sessions[other] || (s.sessions[other].link is Pending
            && t.sessions[other].link is WaitConnReturn),
{
    lemma_feed_grows(s, idx, msg, t);
    assert(t.sessions[other].cred == s.sessions[other].cred);
}

/// What a session that is not over does with a ping.
pub proof fn lemma_ping_step(s: StateView, idx: int, m: MachineView, msg: Seq<char>, t: StateView)
    requires
        0 <= idx < s.sessions.len(),
        s.sessions[idx].link == LinkView::Running(m),
        s.sessions[idx].settled(),
        !is_over(m.phase),
        is_ping(msg),
        s.feeds(idx, msg, t),
    ensures
        t.sessions == s.sessions,
        exists|id: u32|
            t.outbound == s.outbound.push(#[trigger] request_packet(s, idx, id, alive_body())),
{
    let (w, events) = choose|w: MachineView, events: Option<Seq<EventView>>|
        #[trigger] s.fed_with(idx, m, msg, w, events, t);
    assert(m.out == Seq::<Seq<char>>::empty());
    let list = seq![EventView::Other(msg)];
    assert(list[0] == EventView::Other(msg));
    let (id, cn) = choose|id: u32, cn: Seq<char>| #[trigger]
        answered(m, w, msg, id, cn, auth_digest(m.cred, nonce_text(msg), cn));
    let q = s.with_machine(idx, w);
    assert(w.out =~= seq![request_frame(id, alive_body())]);
    lemma_flush_one(q, idx, w, id, alive_body());
    assert(MachineView { out: Seq::empty(), ..w } == m);
    assert(q.drained(idx).sessions =~= s.sessions);
    assert(request_packet(q, idx, id, alive_body()) == request_packet(s, idx, id, alive_body()));
    assert(t.outbound == s.outbound.push(request_packet(s, idx, id, alive_body())));
}

/// A session that is not over answers every ping, and stays as it is.
pub proof fn law_ping_is_answered(
    s: StateView,
    idx: int,
    m: MachineView,
    msg: Seq<char>,
    t: StateView,
)
    requires
        s.inv(),
        0 <= idx < s.sessions.len(),
        s.sessions[idx].link == LinkView::Running(m),
        !is_over(m.phase),
        is_ping(msg),
        s.feeds(idx, msg, t),
    ensures
        t.sessions == s.sessions,
        exists|id: u32|
            t.outbound == s.outbound.push(#[trigger] request_packet(s, idx, id, alive_body())),
{
    assert(s.sessions[idx].settled());
    lemma_ping_step(s, idx, m, msg, t);
}

/// A session that the server says goodbye to is closed, and sends nothing.
pub proof fn law_bye_closes_the_session(
    s: StateView,
    idx: int,
    m: MachineView,
    msg: Seq<char>,
    t: StateView,
)
    requires
        s.inv(),
        0 <= idx < s.sessions.len(),
        s.sessions[idx].link == LinkView::Running(m),
        !is_over(m.phase),
        is_bye(msg),
        s.feeds(idx, msg, t),
    ensures
        t.sessions[idx].phase() == Some(Phase::Closed),
        t.outbound == s.outbound,
{
    let (w, events) = choose|w: MachineView, events: Option<Seq<EventView>>|
        #[trigger] s.fed_with(idx, m, msg, w, events, t);
    assert(s.sessions[idx].settled());
    let list = seq![EventView::Other(msg)];
    assert(list[0] == EventView::Other(msg));
    let q = s.with_machine(idx, w);
    assert(w.out == Seq::<Seq<char>>::empty());
    assert(q.drained(idx).sessions =~= q.sessions);
    assert(q.flushed(idx) == q);
}

/// The ping that the hook feeds is one.
pub proof fn lemma_ping_is_one()
    ensures
        is_ping(ping()),
{
    reveal_strlit("<Status><Alive/></Status>");
    reveal_strlit("Status");
    reveal_strlit("Alive");
    reveal_strlit("<Dat ");
    let p = ping();
    assert(p.subrange(0, 1) =~= seq!['<']);
    lemma_find_is(p, seq!['<'], 0, 0);
    assert(p.subrange(7, 8) =~= seq!['>']);
    assert forall|j: int| 0 <= j < 7 implies !occurs_at(p, seq!['>'], j) by {
        if occurs_at(p, seq!['>'], j) {
            assert(p.subrange(j, j + 1)[0] == '>');
        }
    }
    lemma_find_is(p, seq!['>'], 0, 7);
    reveal_with_fuel(name_end, 8);
    assert(name_end(p, 1) == 7);
    assert(p.subrange(1, 7) =~= "Status"@);
    assert(p.subrange(9, 14) =~= "Alive"@);
    assert(occurs_at(p, "Alive"@, 9));
    assert forall|i: int| !occurs_at(p, "<Dat "@, i) by {
        if occurs_at(p, "<Dat "@, i) {
            assert(p.subrange(i, i + 5)[1] == 'D');
            assert(p[i + 1] == 'D');
        }
    }
}

/// Frames that were queued, and sessions that run and were not fed yet, after the
/// first `n` sessions were fed a ping.
proof fn lemma_pings(s: StateView, n: int, t: StateView)
    requires
        0 <= n <= s.sessions.len(),
        s.pings(n, t),
    ensures
        s.outbound.is_prefix_of(t.outbound),
        t.channel == s.channel,
        t.sessions.len() == s.sessions.len(),
        forall|j: int|
            n <= j < s.sessions.len() && s.sessions[j].link is Running ==> #[trigger] t.sessions[j]
                == s.sessions[j],
    decreases n,
{
    if n == 0 {
        lemma_prefix_refl(s.outbound);
    } else {
        let u = choose|u: StateView| s.pings(n - 1, u) && #[trigger] u.feeds(n - 1, ping(), t);
        lemma_pings(s, n - 1, u);
        lemma_feed_grows(u, n - 1, ping(), t);
        lemma_prefix_trans(s.outbound, u.outbound, t.outbound);
        assert forall|j: int| n <= j < s.sessions.len() && s.sessions[j].link is Running implies
            #[trigger] t.sessions[j] == s.sessions[j] by {
            assert(u.sessions[j] == s.sessions[j]);
        }
    }
}

proof fn lemma_pinged(s: StateView, n: int, t: StateView, idx: int, m: MachineView)
    requires
        s.inv(),
        0 <= idx < n <= s.sessions.len(),
        s.pings(n, t),
        s.sessions[idx].link == LinkView::Running(m),
        !is_over(m.phase),
    ensures
        exists|id: u32|
            t.outbound.contains(#[trigger] request_packet(s, idx, id, alive_body())),
    decreases n,
{
    let u = choose|u: StateView| s.pings(n - 1, u) && #[trigger] u.feeds(n - 1, ping(), t);
    lemma_pings(s, n - 1, u);
    lemma_feed_grows(u, n - 1, ping(), t);
    if idx < n - 1 {
        lemma_pinged(s, n - 1, u, idx, m);
        let id = choose|id: u32|
            u.outbound.contains(#[trigger] request_packet(s, idx, id, alive_body()));
        let p = request_packet(s, idx, id, alive_body());
        let k = choose|k: int| 0 <= k < u.outbound.len() && u.outbound[k] == p;
        assert(u.outbound == t.outbound.subrange(0, u.outbound.len() as int));
        assert(t.outbound[k] == p);
    } else {
        assert(u.sessions[idx] == s.sessions[idx]);
        assert(s.sessions[idx].settled());
        lemma_ping_is_one();
        lemma_ping_step(u, idx, m, ping(), t);
        let id = choose|id: u32|
            t.outbound == u.outbound.push(#[trigger] request_packet(u, idx, id, alive_body()));
        let p = request_packet(s, idx, id, alive_body());
        assert(request_packet(u, idx, id, alive_body()) == p);
        assert(t.outbound == u.outbound.push(p));
        assert(t.outbound[u.outbound.len() as int] == p);
    }
}

/// A bare ping is answered for every session that runs and is not over.
pub proof fn law_bare_ping_is_answered_for_all(
    s: StateView,
    xml: Seq<char>,
    t: StateView,
    idx: int,
    m: MachineView,
)
    requires
        s.inv(),
        s.handles_status(xml, t),
        contains_text(xml, "Alive"@),
        0 <= idx < s.sessions.len(),
        s.sessions[idx].link == LinkView::Running(m),
        !is_over(m.phase),
    ensures
        exists|id: u32|
            t.outbound.contains(#[trigger] request_packet(s, idx, id, alive_body())),
{
    let u = choose|u: StateView|
        s.pings(s.sessions.len() as int, u) && t == #[trigger] u.debugged(
            NoticeView::PingAnswered,
        );
    lemma_pinged(s, s.sessions.len() as int, u, idx, m);
}

/// What was queued, and the sessions that were not asked to close yet.
proof fn lemma_closed(s: StateView, n: int, ids: Seq<u32>)
    requires
        0 <= n <= s.sessions.len(),
    ensures
        s.outbound.is_prefix_of(s.closed(n, ids).outbound),
        s.closed(n, ids).channel == s.channel,
        s.closed(n, ids).sessions.len() == s.sessions.len(),
        forall|j: int|
            n <= j < s.sessions.len() ==> #[trigger] s.closed(n, ids).sessions[j] == s.sessions[j],
    decreases n,
{
    if n == 0 {
        lemma_prefix_refl(s.outbound);
    } else {
        lemma_closed(s, n - 1, ids);
        let t = s.closed(n - 1, ids);
        match t.sessions[n - 1].link {
            LinkView::Running(m) => {
                let w = with_request(
                    MachineView { phase: Phase::Closed, ..m },
                    ids[n - 1],
                    "<Bye/>"@,
                );
                let q = t.with_machine(n - 1, w);
                lemma_sent_all(q.drained(n - 1), q.sessions[n - 1].session_id, w.out);
                let r = q.flushed(n - 1);
                assert(t.outbound =~= r.outbound.subrange(0, t.outbound.len() as int));
                lemma_prefix_trans(s.outbound, t.outbound, r.outbound);
            },
            _ => {},
        }
    }
}

/// When the hook is unloaded, every session that runs says goodbye, behind all
/// that was queued before.
pub proof fn law_every_session_says_goodbye(
    s: StateView,
    ids: Seq<u32>,
    n: int,
    idx: int,
    m: MachineView,
)
    requires
        s.inv(),
        0 <= idx < n <= s.sessions.len(),
        s.sessions[idx].link == LinkView::Running(m),
    ensures
        s.outbound.is_prefix_of(s.closed(n, ids).outbound),
        s.closed(n, ids).outbound.contains(request_packet(s, idx, ids[idx], "<Bye/>"@)),
    decreases n,
{
    lemma_closed(s, n, ids);
    lemma_closed(s, n - 1, ids);
    let p = request_packet(s, idx, ids[idx], "<Bye/>"@);
    let t = s.closed(n - 1, ids);
    let r = s.closed(n, ids);
    if idx < n - 1 {
        law_every_session_says_goodbye(s, ids, n - 1, idx, m);
        let k = choose|k: int| 0 <= k < t.outbound.len() && t.outbound[k] == p;
        match t.sessions[n - 1].link {
            LinkView::Running(v) => {
                let w = with_request(
                    MachineView { phase: Phase::Closed, ..v },
                    ids[n - 1],
                    "<Bye/>"@,
                );
                let q = t.with_machine(n - 1, w);
                lemma_sent_all(q.drained(n - 1), q.sessions[n - 1].session_id, w.out);
            },
            _ => {},
        }
        assert(r.outbound[k] == p);
    } else {
        assert(s.sessions[idx].settled());
        assert(t.sessions[idx] == s.sessions[idx]);
        let w = with_request(MachineView { phase: Phase::Closed, ..m }, ids[idx], "<Bye/>"@);
        let q = t.with_machine(idx, w);
        assert(m.out == Seq::<Seq<char>>::empty());
        assert(w.out =~= seq![request_frame(ids[idx], "<Bye/>"@)]);
        lemma_flush_one(q, idx, w, ids[idx], "<Bye/>"@);
        assert(r.outbound[t.outbound.len() as int] == p);
    }
}

/// The banner of the server opens the handshake of a session that awaits it.
pub proof fn law_banner_opens_the_handshake(
    s: StateView,
    idx: int,
    m: MachineView,
    msg: Seq<char>,
    t: StateView,
)
    requires
        s.inv(),
        0 <= idx < s.sessions.len(),
        s.sessions[idx].link == LinkView::Running(m),
        m.phase == Phase::Init,
        contains_text(msg, "Init"@),
        !any_phase(msg),
        s.feeds(idx, msg, t),
    ensures
        t.sessions[idx].phase() == Some(Phase::Capabilities),
        exists|id: u32|
            t.outbound == s.outbound.push(#[trigger] request_packet(s, idx, id, protocol_body())),
{
    let (w, events) = choose|w: MachineView, events: Option<Seq<EventView>>|
        #[trigger] s.fed_with(idx, m, msg, w, events, t);
    assert(s.sessions[idx].settled());
    let (id, cn) = choose|id: u32, cn: Seq<char>| #[trigger]
        answered(m, w, msg, id, cn, auth_digest(m.cred, nonce_text(msg), cn));
    assert(w.out =~= seq![request_frame(id, protocol_body())]);
    let q = s.with_machine(idx, w);
    lemma_flush_one(q, idx, w, id, protocol_body());
    assert(request_packet(q, idx, id, protocol_body()) == request_packet(
        s,
        idx,
        id,
        protocol_body(),
    ));
}

/// A session that has authenticated asks for the heartbeat of the server and for
/// its directory, and awaits it.
pub proof fn law_authenticated_session_asks_for_its_directory(
    s: StateView,
    idx: int,
    m: MachineView,
    msg: Seq<char>,
    w: MachineView,
    t: StateView,
)
    requires
        s.inv(),
        0 <= idx < s.sessions.len(),
        s.sessions[idx].link == LinkView::Running(m),
        s.fed_with(idx, m, msg, w, Some(seq![EventView::Authenticated]), t),
    ensures
        t.sessions[idx].phase() == Some(Phase::Directory),
        exists|a: u32, b: u32|
            t.outbound == s.outbound.push(
                #[trigger] request_packet(s, idx, a, heartbeat_body(HEARTBEAT_IVAL_SECS)),
            ).push(#[trigger] request_packet(s, idx, b, directory_query())),
{
    let list = seq![EventView::Authenticated];
    assert(s.sessions[idx].settled());
    assert(list[0] == EventView::Authenticated);
    let nonce = nonce_text(msg);
    let (a, cn) = choose|id: u32, cn: Seq<char>| #[trigger]
        answered(m, w, msg, id, cn, auth_digest(m.cred, nonce, cn));
    let beat = heartbeat_body(HEARTBEAT_IVAL_SECS);
    assert(w.out =~= seq![request_frame(a, beat)]);
    let q = s.with_machine(idx, w);
    lemma_flush_one(q, idx, w, a, beat);
    let u = q.flushed(idx);
    assert(u.acts_on(idx, EventView::Authenticated, t));
    let b = choose|id: u32| t == #[trigger] u.asked_directory(idx, id);
    let v = MachineView { out: Seq::empty(), ..w };
    assert(u.sessions[idx].link == LinkView::Running(v));
    let x = awaiting_directory(v, b);
    let r = u.debugged(NoticeView::Authenticated(u.sessions[idx].cred)).reported(
        idx,
    ).with_machine(idx, x);
    assert(x.out =~= seq![request_frame(b, directory_query())]);
    lemma_flush_one(r, idx, x, b, directory_query());
    assert(request_packet(q, idx, a, beat) == request_packet(s, idx, a, beat));
    assert(request_packet(r, idx, b, directory_query()) == request_packet(
        s,
        idx,
        b,
        directory_query(),
    ));
    assert(t.outbound == s.outbound.push(request_packet(s, idx, a, beat)).push(
        request_packet(s, idx, b, directory_query()),
    ));
}

/// The answer to the first request asks for the authentication challenge.
pub proof fn law_capabilities_lead_to_the_challenge(
    s: StateView,
    idx: int,
    m: MachineView,
    msg: Seq<char>,
    t: StateView,
)
    requires
        s.inv(),
        0 <= idx < s.sessions.len(),
        s.sessions[idx].link == LinkView::Running(m),
        m.phase == Phase::Capabilities,
        !any_phase(msg),
        s.feeds(idx, msg, t),
    ensures
        t.sessions[idx].phase() == Some(Phase::Challenge),
        exists|id: u32|
            t.outbound == s.outbound.push(#[trigger] request_packet(s, idx, id, challenge_body())),
{
    let (w, events) = choose|w: MachineView, events: Option<Seq<EventView>>|
        #[trigger] s.fed_with(idx, m, msg, w, events, t);
    assert(s.sessions[idx].settled());
    let list = events->0;
    let (id, cn) = choose|id: u32, cn: Seq<char>| #[trigger]
        answered(m, w, msg, id, cn, auth_digest(m.cred, nonce_text(msg), cn));
    assert(w.out =~= seq![request_frame(id, challenge_body())]);
    let q = s.with_machine(idx, w);
    lemma_flush_one(q, idx, w, id, challenge_body());
    assert(request_packet(q, idx, id, challenge_body()) == request_packet(
        s,
        idx,
        id,
        challenge_body(),
    ));
}

/// A challenge with a nonce is answered for the credential of the session, with a
/// client nonce of the hook.
pub proof fn law_challenge_is_answered(
    s: StateView,
    idx: int,
    m: MachineView,
    msg: Seq<char>,
    nonce: Seq<char>,
    t: StateView,
)
    requires
        s.inv(),
        0 <= idx < s.sessions.len(),
        s.sessions[idx].link == LinkView::Running(m),
        m.phase == Phase::Challenge,
        !any_phase(msg),
        challenge_nonce(msg) == Some(nonce),
        s.feeds(idx, msg, t),
    ensures
        t.sessions[idx].phase() == Some(Phase::AuthResult),
        exists|id: u32, cn: Seq<char>|
            is_cnonce(cn) && t.outbound == s.outbound.push(
                #[trigger] request_packet(
                    s,
                    idx,
                    id,
                    response_body(
                        user_names()[s.sessions[idx].cred as int],
                        cn,
                        auth_digest(s.sessions[idx].cred as int, nonce, cn),
                    ),
                ),
            ),
{
    let (w, events) = choose|w: MachineView, events: Option<Seq<EventView>>|
        #[trigger] s.fed_with(idx, m, msg, w, events, t);
    assert(s.sessions[idx].settled());
    let list = events->0;
    let (id, cn) = choose|id: u32, cn: Seq<char>| #[trigger]
        answered(m, w, msg, id, cn, auth_digest(m.cred, nonce_text(msg), cn));
    let body = response_body(user_names()[m.cred], cn, auth_digest(m.cred, nonce, cn));
    assert(w.out =~= seq![request_frame(id, body)]);
    let q = s.with_machine(idx, w);
    lemma_flush_one(q, idx, w, id, body);
    assert(request_packet(q, idx, id, body) == request_packet(s, idx, id, body));
}

/// A verdict that names no failure authenticates the session, which then asks
/// for its directory.
pub proof fn law_good_verdict_authenticates(
    s: StateView,
    idx: int,
    m: MachineView,
    msg: Seq<char>,
    t: StateView,
)
    requires
        s.inv(),
        0 <= idx < s.sessions.len(),
        s.sessions[idx].link == LinkView::Running(m),
        m.phase == Phase::AuthResult,
        !any_phase(msg),
        !names_failure(msg),
        s.feeds(idx, msg, t),
    ensures
        t.sessions[idx].phase() == Some(Phase::Directory),
        exists|a: u32, b: u32|
            t.outbound == s.outbound.push(
                #[trigger] request_packet(s, idx, a, heartbeat_body(HEARTBEAT_IVAL_SECS)),
            ).push(#[trigger] request_packet(s, idx, b, directory_query())),
{
    let (w, events) = choose|w: MachineView, events: Option<Seq<EventView>>|
        #[trigger] s.fed_with(idx, m, msg, w, events, t);
    law_authenticated_session_asks_for_its_directory(s, idx, m, msg, w, t);
}

/// A verdict that names a failure gives the session up, and tells why.
pub proof fn law_bad_verdict_gives_up(
    s: StateView,
    idx: int,
    m: MachineView,
    msg: Seq<char>,
    t: StateView,
)
    requires
        s.inv(),
        0 <= idx < s.sessions.len(),
        s.sessions[idx].link == LinkView::Running(m),
        m.phase == Phase::AuthResult,
        !any_phase(msg),
        names_failure(msg),
        s.feeds(idx, msg, t),
    ensures
        t.sessions[idx].link is Failed,
        t.log.len() > s.log.len(),
        t.log[s.log.len() as int] == (NoticeView::SessionFailed {
            cred: s.sessions[idx].cred,
            reason: "protocol: auth failed for "@ + user_names()[s.sessions[idx].cred as int]
                + ": "@ + msg,
        }),
{
    let (w, events) = choose|w: MachineView, events: Option<Seq<EventView>>|
        #[trigger] s.fed_with(idx, m, msg, w, events, t);
    assert(s.sessions[idx].settled());
    let u = s.after_failure(idx, failure(m, msg)->0);
    lemma_start_grows(u, -1, t);
    assert(u.sessions[idx].link is Failed);
    assert(t.sessions[idx] == u.sessions[idx]);
    assert(t.log[s.log.len() as int] == u.log[s.log.len() as int]);
}

/// The answer to its request for the directory makes a session subscribe.
pub proof fn law_directory_answer_is_acted_on(
    s: StateView,
    idx: int,
    m: MachineView,
    msg: Seq<char>,
    t: StateView,
)
    requires
        s.inv(),
        0 <= idx < s.sessions.len(),
        s.sessions[idx].link == LinkView::Running(m),
        m.phase == Phase::Directory,
        !any_phase(msg),
        answers_directory(m, msg),
        s.feeds(idx, msg, t),
    ensures
        exists|w: MachineView|
            w.phase == Phase::Ready && #[trigger] s.with_machine(idx, w).reads_directory(idx, t),
{
    let (w, events) = choose|w: MachineView, events: Option<Seq<EventView>>|
        #[trigger] s.fed_with(idx, m, msg, w, events, t);
    assert(s.sessions[idx].settled());
    let list = seq![EventView::Directory];
    assert(list[0] == EventView::Directory);
    let (id, cn) = choose|id: u32, cn: Seq<char>| #[trigger]
        answered(m, w, msg, id, cn, auth_digest(m.cred, nonce_text(msg), cn));
    let q = s.with_machine(idx, w);
    assert(w.out == Seq::<Seq<char>>::empty());
    assert(q.drained(idx).sessions =~= q.sessions);
    assert(q.flushed(idx) == q);
    assert(q.reads_directory(idx, t));
}

/// Data that reaches a session that is ready is recorded.
pub proof fn law_data_of_a_session_is_recorded(
    s: StateView,
    idx: int,
    m: MachineView,
    msg: Seq<char>,
    d: DatView,
    t: StateView,
)
    requires
        s.inv(),
        0 <= idx < s.sessions.len(),
        s.sessions[idx].link == LinkView::Running(m),
        m.phase == Phase::Ready,
        !any_phase(msg),
        dat_document(msg) == Some(d),
        s.feeds(idx, msg, t),
    ensures
        t == s.with_data(d),
{
    let (w, events) = choose|w: MachineView, events: Option<Seq<EventView>>|
        #[trigger] s.fed_with(idx, m, msg, w, events, t);
    let list = seq![EventView::Data(d)];
    assert(list[0] == EventView::Data(d));
    let q = s.with_machine(idx, w);
    assert(w == m);
    assert(q.sessions =~= s.sessions);
    assert(q == s);
    lemma_nothing_to_flush(s, idx);
}

/// A session that is ready sends one subscription, at the configured interval,
/// for each URL that it takes, none of them twice, and claims what it takes.
pub proof fn law_session_subscribes_what_it_takes(
    s: StateView,
    idx: int,
    m: MachineView,
    ids: Seq<u32>,
)
    requires
        s.inv(),
        0 <= idx < s.sessions.len(),
        s.sessions[idx].link == LinkView::Running(m),
        m.phase == Phase::Ready,
    ensures
        ({
            let urls = s.takes_urls(m.directory);
            let t = s.after_subscribing(idx, m, ids);
            &&& t.outbound == s.outbound + statement_packets(
                s.channel,
                s.sessions[idx].session_id,
                subscribe_frames(ids, urls, s.subscribe_ival_ms, true),
            )
            &&& t.claimed == s.claimed.union(wanted(s.subscribe_urls, m.directory, s.claimed))
            &&& urls.no_duplicates()
            &&& s.subscribe_ival_ms > 0
        }),
{
    let taken = wanted(s.subscribe_urls, m.directory, s.claimed);
    let urls = s.takes_urls(m.directory);
    let frames = subscribe_frames(ids, urls, s.subscribe_ival_ms, true);
    let sid = s.sessions[idx].session_id;
    assert(s.sessions[idx].settled());
    lemma_wanted_is_subscribable(m.directory, taken);
    law_each_url_is_subscribed_once(m.directory, taken);
    if urls.len() == 0 {
        assert(s.outbound + statement_packets(s.channel, sid, frames) =~= s.outbound);
        assert(s.claimed.union(taken) =~= s.claimed);
    } else {
        let w = MachineView {
            out: m.out + subscribe_frames(ids, urls, s.subscribe_ival_ms, m.timestamps),
            ..m
        };
        assert(w.out =~= frames);
        let q = s.with_machine(idx, w);
        lemma_sent_all(q.drained(idx), sid, w.out);
    }
}

/// A session that is not ready subscribes and claims nothing.
pub proof fn law_refused_subscription_claims_nothing(
    s: StateView,
    idx: int,
    m: MachineView,
    ids: Seq<u32>,
)
    requires
        m.phase != Phase::Ready,
    ensures
        s.after_subscribing(idx, m, ids) == (StateView {
            log: s.after_subscribing(idx, m, ids).log,
            ..s
        }),
{
}

/// A credential that offers nothing new gets no URLs and sends no subscription.
pub proof fn law_nothing_new_sends_nothing(s: StateView, idx: int, m: MachineView, ids: Seq<u32>)
    requires
        forall|url: Seq<char>|
            offers(m.directory, url) ==> s.claimed.contains(url)
                || !asks_for(s.subscribe_urls, url),
    ensures
        s.after_subscribing(idx, m, ids) == s,
{
    let taken = wanted(s.subscribe_urls, m.directory, s.claimed);
    lemma_wanted_is_subscribable(m.directory, taken);
    assert(taken =~= Set::<Seq<char>>::empty());
}

/// What a session has subscribed, no session takes as long as the sessions go on.
pub proof fn law_claimed_url_is_not_taken_again(
    s: StateView,
    i: int,
    m: MachineView,
    ids: Seq<u32>,
    t: StateView,
    n: MachineView,
    url: Seq<char>,
)
    requires
        s.inv(),
        0 <= i < s.sessions.len(),
        s.sessions[i].link == LinkView::Running(m),
        m.phase == Phase::Ready,
        s.after_subscribing(i, m, ids).goes_on(t),
        s.takes_urls(m.directory).contains(url),
    ensures
        !t.takes_urls(n.directory).contains(url),
{
    let taken = wanted(s.subscribe_urls, m.directory, s.claimed);
    lemma_wanted_is_subscribable(m.directory, taken);
    law_session_subscribes_what_it_takes(s, i, m, ids);
    assert(taken.contains(url));
    assert(s.after_subscribing(i, m, ids).claimed.contains(url));
    assert(t.claimed.contains(url));
    let later = wanted(t.subscribe_urls, n.directory, t.claimed);
    assert(!later.contains(url));
    lemma_wanted_is_subscribable(n.directory, later);
    assert(t.takes_urls(n.directory) == subscribable(n.directory, later));
}

/// What was claimed with one directory.
pub open spec fn claims_with(s: StateView, t: StateView, directory: Seq<EntryView>) -> bool {
    t.claimed == s.claimed.union(wanted(s.subscribe_urls, directory, s.claimed))
}

/// The claims are the same, or were made with some directory.
pub open spec fn claims_by_directory(s: StateView, t: StateView) -> bool {
    t.claimed == s.claimed || exists|directory: Seq<EntryView>| claims_with(s, t, directory)
}

proof fn lemma_start_keeps_claims(s: StateView, t: StateView)
    requires
        s.starts(t),
    ensures
        t.claimed == s.claimed,
{
}

proof fn lemma_flush_keeps_claims(s: StateView, idx: int)
    requires
        0 <= idx < s.sessions.len(),
    ensures
        s.flushed(idx).claimed == s.claimed,
        s.flushed(idx).subscribe_urls == s.subscribe_urls,
{
    match s.sessions[idx].link {
        LinkView::Running(m) => lemma_sent_all(s.drained(idx), s.sessions[idx].session_id, m.out),
        _ => {},
    }
}

proof fn lemma_feed_claims(s: StateView, idx: int, msg: Seq<char>, t: StateView)
    requires
        0 <= idx < s.sessions.len(),
        s.feeds(idx, msg, t),
    ensures
        claims_by_directory(s, t),
        is_ping(msg) ==> t.claimed == s.claimed,
{
    match s.sessions[idx].link {
        LinkView::Running(m) => {
            let (w, events) = choose|w: MachineView, events: Option<Seq<EventView>>|
                #[trigger] s.fed_with(idx, m, msg, w, events, t);
            match events {
                None => {},
                Some(list) => {
                    let q = s.with_machine(idx, w);
                    let u = q.flushed(idx);
                    lemma_flush_keeps_claims(q, idx);
                    lemma_sent_all(q.drained(idx), q.sessions[idx].session_id, w.out);
                    if list.len() > 0 {
                        match list[0] {
                            EventView::Authenticated => {
                                let id = choose|id: u32| t == #[trigger] u.asked_directory(idx, id);
                                match u.sessions[idx].link {
                                    LinkView::Running(v) => {
                                        let x = awaiting_directory(v, id);
                                        lemma_flush_keeps_claims(
                                            u.debugged(
                                                NoticeView::Authenticated(u.sessions[idx].cred),
                                            ).reported(idx).with_machine(idx, x),
                                            idx,
                                        );
                                    },
                                    _ => {},
                                }
                            },
                            EventView::Directory => {
                                match u.sessions[idx].link {
                                    LinkView::Running(v) => {
                                        let ids = choose|ids: Seq<u32>| #[trigger]
                                            u.after_directory(idx, v, ids).starts(t);
                                        let d = u.debugged(u.directory_line(idx, v));
                                        lemma_subscribing_claims(d, idx, v, ids);
                                        assert(t.claimed == s.claimed || claims_with(
                                            s,
                                            t,
                                            v.directory,
                                        ));
                                    },
                                    _ => {},
                                }
                            },
                            _ => {},
                        }
                    }
                },
            }
        },
        _ => {},
    }
}

proof fn lemma_subscribing_claims(s: StateView, idx: int, m: MachineView, ids: Seq<u32>)
    requires
        0 <= idx < s.sessions.len(),
        s.sessions[idx].link == LinkView::Running(m),
    ensures
        s.after_subscribing(idx, m, ids).claimed == s.claimed || s.after_subscribing(
            idx,
            m,
            ids,
        ).claimed == s.claimed.union(wanted(s.subscribe_urls, m.directory, s.claimed)),
{
    let taken = wanted(s.subscribe_urls, m.directory, s.claimed);
    let urls = s.takes_urls(m.directory);
    lemma_wanted_is_subscribable(m.directory, taken);
    if urls.len() == 0 {
        assert(s.claimed.union(taken) =~= s.claimed);
    } else if m.phase == Phase::Ready {
        let w = MachineView {
            out: m.out + subscribe_frames(ids, urls, s.subscribe_ival_ms, m.timestamps),
            ..m
        };
        lemma_flush_keeps_claims(s.with_machine(idx, w), idx);
    }
}

proof fn lemma_ping_claims(s: StateView, n: int, t: StateView)
    requires
        0 <= n <= s.sessions.len(),
        s.pings(n, t),
    ensures
        t.claimed == s.claimed,
    decreases n,
{
    if n > 0 {
        let u = choose|u: StateView| s.pings(n - 1, u) && #[trigger] u.feeds(n - 1, ping(), t);
        lemma_ping_claims(s, n - 1, u);
        lemma_pings(s, n - 1, u);
        lemma_ping_is_one();
        lemma_feed_claims(u, n - 1, ping(), t);
    }
}

/// Claims are told from what is claimed and configured alone.
proof fn lemma_same_claims(s: StateView, u: StateView, t: StateView)
    requires
        u.claimed == s.claimed,
        u.subscribe_urls == s.subscribe_urls,
        claims_by_directory(u, t),
    ensures
        claims_by_directory(s, t),
{
    if t.claimed != u.claimed {
        let d = choose|d: Seq<EntryView>| claims_with(u, t, d);
        assert(claims_with(s, t, d));
    }
}

proof fn lemma_xml_claims(s: StateView, xml: Seq<char>, t: StateView)
    requires
        s.handles_xml(xml, t),
    ensures
        s.begins_anew(t) || claims_by_directory(s, t),
{
    let kind = frame_kind(xml);
    if kind == "ExlapBeacon"@ {
        lemma_start_keeps_claims(s, t);
    } else if kind == "ExlapConnectionClosed"@ {
        lemma_reset_begins_anew(s.debugged(NoticeView::ConnectionsClosed), t);
    } else if kind == "ExlapConnectionReturn"@ {
    } else if kind == "ExlapStatement"@ {
        let sid = or_empty(attr_in_tag(xml, "ExlapStatement"@, "session_id"@));
        lemma_first_session(s.sessions, 0, |x: SessionView| x.session_id == sid && sid.len() > 0);
        match s.session_with_id(sid) {
            Some(idx) => {
                if s.can_feed(idx, unwrapped(xml)) {
                    lemma_feed_claims(s, idx, unwrapped(xml), t);
                }
            },
            None => {},
        }
    } else if kind == "Status"@ {
        if contains_text(xml, "Alive"@) {
            let u = choose|u: StateView|
                s.pings(s.sessions.len() as int, u) && t == #[trigger] u.debugged(
                    NoticeView::PingAnswered,
                );
            lemma_ping_claims(s, s.sessions.len() as int, u);
        } else if contains_text(xml, "Bye"@) {
            lemma_reset_begins_anew(s.debugged(NoticeView::ByeReceived), t);
        } else if contains_text(xml, "Init"@) {
            lemma_first_session(s.sessions, 0, |x: SessionView| x.phase() == Some(Phase::Init));
            match s.awaiting_init() {
                Some(idx) => {
                    let d = s.debugged(NoticeView::BannerFor(s.sessions[idx].cred));
                    lemma_feed_claims(d, idx, xml, t);
                    lemma_same_claims(s, d, t);
                },
                None => {},
            }
        }
    }
}

/// A packet claims URLs only as a directory arrives, and then those that its
/// session takes, or begins the sessions anew.
pub proof fn law_claims_come_with_directories(s: StateView, pkt: PacketView, t: StateView)
    requires
        s.sees(pkt, t),
        !is_discovery(pkt),
    ensures
        s.begins_anew(t) || claims_by_directory(s, t),
{
    let v = s.carried(pkt).adopted(pkt);
    if pkt.channel == v.channel && !pkt.is_control() && pkt.is_last() {
        let bytes = v.assembled(pkt);
        let xml = decode_utf8(bytes);
        let u = v.received(pkt.proxy_type, xml);
        if valid_utf8(bytes) && !v.recently_sent.contains(xml) && pkt.proxy_type
            == ProxyType::HeadUnit {
            lemma_xml_claims(u, xml, t);
            if claims_by_directory(u, t) {
                lemma_same_claims(s, u, t);
            }
        }
    }
}

// -- Statements ------------------------------------------------------------------

/// The root tags of the frames that are told apart are different.
proof fn lemma_statement_kind()
    ensures
        "ExlapStatement"@ != "ExlapBeacon"@,
        "ExlapStatement"@ != "ExlapConnectionClosed"@,
        "ExlapStatement"@ != "ExlapConnectionReturn"@,
{
    reveal_strlit("ExlapBeacon");
    reveal_strlit("ExlapConnectionClosed");
    reveal_strlit("ExlapConnectionReturn");
    reveal_strlit("ExlapStatement");
    assert("ExlapStatement"@.len() == 14);
    assert("ExlapBeacon"@.len() == 11);
    assert("ExlapConnectionClosed"@.len() == 21);
    assert("ExlapConnectionReturn"@.len() == 21);
}

/// A message in the wrapper of a session, which no earlier one shares, reaches
/// the machine of that session.
pub proof fn law_statement_reaches_its_session(
    s: StateView,
    idx: int,
    msg: Seq<char>,
    t: StateView,
)
    requires
        s.inv(),
        0 <= idx < s.sessions.len(),
        s.sessions[idx].is_open(),
        forall|j: int|
            0 <= j < idx ==> (#[trigger] s.sessions[j]).session_id != s.sessions[idx].session_id,
        s.handles_xml(wrapped(s.sessions[idx].session_id, msg), t),
        s.can_feed(idx, trim(msg)),
    ensures
        s.feeds(idx, trim(msg), t),
{
    let sid = s.sessions[idx].session_id;
    law_session_id_fits(sid);
    law_wrapper_names_its_session(sid, msg);
    law_unwrap_reads_what_wrap_wrote(sid, msg);
    lemma_statement_kind();
    let p = |x: SessionView| x.session_id == sid && sid.len() > 0;
    lemma_first_session(s.sessions, 0, p);
    assert(p(s.sessions[idx]));
    assert(s.session_with_id(sid) == Some(idx));
}

/// A statement of a foreign session leaves the sessions of the hook, and all
/// that waits to be sent, alone: only its data is read.
pub proof fn law_foreign_statement_is_only_read(s: StateView, xml: Seq<char>, t: StateView)
    requires
        s.handles_xml(xml, t),
        frame_kind(xml) == "ExlapStatement"@,
        s.session_with_id(
            or_empty(attr_in_tag(xml, "ExlapStatement"@, "session_id"@)),
        ) is None,
    ensures
        t.sessions == s.sessions,
        t.outbound == s.outbound,
        t.claimed == s.claimed,
        t == harvested(
            s.debugged(
                NoticeView::Harvesting(
                    or_empty(attr_in_tag(xml, "ExlapStatement"@, "session_id"@)),
                ),
            ),
            xml,
        ),
{
    lemma_statement_kind();
}

// -- Data ------------------------------------------------------------------------

/// The last data of a URL is what the web UI is shown of it; that of the others
/// stays.
pub proof fn law_last_data_is_kept(s: StateView, d: DatView, url: Seq<char>)
    ensures
        s.with_data(d).values.contains_key(d.url),
        s.with_data(d).values[d.url].fields == d.readings,
        s.with_data(d).values[d.url].missing == d.missing,
        url != d.url ==> s.with_data(d).values.contains_key(url) == s.values.contains_key(url),
        url != d.url && s.values.contains_key(url) ==> s.with_data(d).values[url] == s.values[url],
{
}

/// The battery is reported just when its level came, with the last temperature
/// and the capacity.
pub proof fn law_battery_is_reported_when_its_level_comes(s: StateView, d: DatView)
    ensures
        ({
            let t = s.with_data(d);
            let level = level_in(d);
            &&& level is Some ==> t.effects.len() == s.effects.len() + 2 && t.effects[s.effects.len() as int]
                == (EffectView::Battery {
                level: t.tank_level,
                temperature: t.outside_temp,
                capacity_wh: s.battery_capacity_wh,
            }) && t.tank_level == level
            &&& level is None ==> t.effects.len() == s.effects.len() + 1 && t.tank_level
                == s.tank_level
            &&& t.effects.last() is Changed
        }),
{
    reveal_strlit("tankLevelPrimary");
    reveal_strlit("outsideTemperature");
    assert("tankLevelPrimary"@.len() != "outsideTemperature"@.len());
}

// -- Commands and settings -------------------------------------------------------

/// What was queued, and the sessions that were not asked yet.
proof fn lemma_asked(s: StateView, n: int, ids: Seq<u32>, body: Seq<char>)
    requires
        0 <= n <= s.sessions.len(),
    ensures
        s.keeps_settings(s.asked(n, ids, body)),
        s.asked(n, ids, body).claimed == s.claimed,
        s.asked(n, ids, body).sessions.len() == s.sessions.len(),
        forall|j: int|
            n <= j < s.sessions.len() ==> #[trigger] s.asked(n, ids, body).sessions[j]
                == s.sessions[j],
    decreases n,
{
    if n == 0 {
        lemma_same_goes_on(s);
    } else {
        lemma_asked(s, n - 1, ids, body);
        let t = s.asked(n - 1, ids, body);
        match t.sessions[n - 1].link {
            LinkView::Running(m) => {
                let w = with_request(m, ids[n - 1], body);
                let q = t.with_machine(n - 1, w);
                lemma_sent_all(q.drained(n - 1), q.sessions[n - 1].session_id, w.out);
                let r = q.flushed(n - 1);
                assert(t.outbound =~= r.outbound.subrange(0, t.outbound.len() as int));
                lemma_prefix_trans(s.outbound, t.outbound, r.outbound);
            },
            _ => {},
        }
    }
}

/// A request of the web UI reaches every session that runs.
pub proof fn law_request_reaches_every_running_session(
    s: StateView,
    n: int,
    ids: Seq<u32>,
    body: Seq<char>,
    idx: int,
)
    requires
        s.inv(),
        0 <= idx < n <= s.sessions.len(),
        s.sessions[idx].link is Running,
    ensures
        s.asked(n, ids, body).outbound.contains(request_packet(s, idx, ids[idx], body)),
    decreases n,
{
    lemma_asked(s, n - 1, ids, body);
    let p = request_packet(s, idx, ids[idx], body);
    let t = s.asked(n - 1, ids, body);
    let r = s.asked(n, ids, body);
    if idx < n - 1 {
        law_request_reaches_every_running_session(s, n - 1, ids, body, idx);
        let k = choose|k: int| 0 <= k < t.outbound.len() && t.outbound[k] == p;
        match t.sessions[n - 1].link {
            LinkView::Running(v) => {
                let w = with_request(v, ids[n - 1], body);
                let q = t.with_machine(n - 1, w);
                lemma_sent_all(q.drained(n - 1), q.sessions[n - 1].session_id, w.out);
            },
            _ => {},
        }
        assert(r.outbound[k] == p);
    } else {
        assert(s.sessions[idx].settled());
        assert(t.sessions[idx] == s.sessions[idx]);
        let m = s.sessions[idx].link->Running_0;
        let w = with_request(m, ids[idx], body);
        let q = t.with_machine(idx, w);
        assert(m.out == Seq::<Seq<char>>::empty());
        assert(w.out =~= seq![request_frame(ids[idx], body)]);
        lemma_flush_one(q, idx, w, ids[idx], body);
        assert(r.outbound[t.outbound.len() as int] == p);
    }
}

/// A command changes no setting and no claim, keeps all that was queued, and writes
/// a verbose line only where the verbose log is on.
pub proof fn law_commands_change_no_setting(
    s: StateView,
    c: CommandView,
    t: StateView,
    answer: Seq<char>,
)
    requires
        s.runs(c, t, answer),
    ensures
        s.keeps_settings(t),
        t.claimed == s.claimed,
{
    lemma_same_goes_on(s);
    if t != s {
        match c {
            CommandView::List => {
                lemma_prefix_push(s.effects, EffectView::Sessions(s.session_list()));
            },
            CommandView::Values => {
                lemma_prefix_push(s.effects, EffectView::Values(s.values));
            },
            _ => {
                let n = s.sessions.len() as int;
                assert forall|ids: Seq<u32>, body: Seq<char>| s.keeps_settings(
                    #[trigger] s.asked(n, ids, body),
                ) && s.asked(n, ids, body).claimed == s.claimed by {
                    lemma_asked(s, n, ids, body);
                }
            },
        }
    }
}

/// Nothing is asked where no session is ready.
pub proof fn law_no_ready_session_no_request(
    s: StateView,
    verb: Seq<char>,
    url: Seq<char>,
    body: Seq<char>,
    t: StateView,
    answer: Seq<char>,
)
    requires
        s.broadcasts(verb, url, body, t, answer),
        forall|i: int|
            0 <= i < s.sessions.len() ==> !(#[trigger] s.sessions[i]).is_active(),
    ensures
        t == s,
        answer == "error: no active sessions"@,
{
    lemma_first_session(s.sessions, 0, |x: SessionView| x.is_active());
}

/// New credentials leave the sessions as they are, and apply when those begin
/// anew.
pub proof fn law_new_credentials_apply_to_new_sessions(
    s: StateView,
    value: Seq<char>,
    t: StateView,
)
    requires
        s.configured("exlap_creds"@, value).reset().starts(t),
    ensures
        s.configured("exlap_creds"@, value).sessions == s.sessions,
        t.sessions.len() == cred_list(value).len(),
        forall|i: int|
            0 <= i < t.sessions.len() ==> (#[trigger] t.sessions[i]).cred
                == cred_list(value)[i],
{
    reveal_strlit("exlap_creds");
    reveal_strlit("exlap_channel");
    assert("exlap_creds"@.len() == 11 && "exlap_channel"@.len() == 13);
    let c = s.configured("exlap_creds"@, value);
    lemma_reset_begins_anew(c, t);
}

} // verus!
