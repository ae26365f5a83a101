//! What comes of a packet, told from the packet, the state before it and the state
//! after it: which frames are acted on, what is queued for the head unit, what the
//! web UI is told, and what stays as it was.

use crate::channel::{frame_kind, open_status, or_empty, shown_id};
use crate::discovery::advertised_exlap;
use crate::driver::{
    lemma_machine_replaced, lemma_nothing_to_flush, level_in, number_in, reading_named,
    temperature_in,
};
use crate::frame::{attr_in_tag, lemma_name_end, unwrapped};
use crate::growth::lemma_start_grows;
use crate::hook::{shows_exlap, EXLAP_PREFIX};
use crate::laws::{lemma_packet_keeps, request_packet};
use crate::nonce::is_session_id;
use crate::packet::{PacketView, ProxyType};
use crate::plan::{
    law_each_url_is_subscribed_once, law_every_configured_url_is_taken,
    law_only_configured_urls_are_taken, lemma_wanted_is_subscribable, wanted,
};
use crate::protocol::{
    answered, answers_directory, any_phase, auth_digest, awaiting_directory, challenge_nonce,
    classified, dat_document, failure, feed_events, feedable, first_attr, is_number, is_over,
    listed_entries, nonce_text, reply_id, request_frame, root_from, rsp_status, subscribe_body,
    subscribe_frames, user_names, DatView, EntryView, EventView, MachineView, Phase,
};
use crate::report::{ChangeView, ConnectionView, EffectView, NoticeView};
use crate::state::{
    lemma_first_session, lemma_sent_all, pending_sessions, statement_packets, waiting_session,
    LinkView, SessionView, StateView,
};
use crate::text::{contains_text, decimal, lemma_find_from, lemma_find_is, occurs_at};
use vstd::prelude::*;
use vstd::utf8::{encode_utf8, is_char_boundary, valid_utf8};

verus! {

// -- Frames that go out ----------------------------------------------------------

/// A packet carries a text to the head unit on a channel, as one whole frame.
pub open spec fn carries(p: PacketView, channel: u8, xml: Seq<char>) -> bool {
    &&& p.proxy_type == ProxyType::MobileDevice
    &&& p.channel == channel
    &&& p.packet_flags == 0x0B
    &&& p.final_length is None
    &&& p.message_id == 0
    &&& p.payload == encode_utf8(xml)
}

/// The text of a request in the wrapper of its session.
pub open spec fn request_text(session_id: Seq<char>, id: u32, body: Seq<char>) -> Seq<char> {
    "<ExlapStatement session_id=\""@ + session_id + "\">"@ + "<Req id=\""@ + decimal(id as nat)
        + "\">"@ + body + "</Req>"@ + "</ExlapStatement>"@
}

/// A frame that is queued goes to the head unit on the channel, behind all that
/// was queued, and is remembered; no more than the last sixteen are.
pub proof fn law_frame_is_queued_and_remembered(s: StateView, xml: Seq<char>)
    requires
        s.recently_sent.len() <= 16,
    ensures
        s.sent(xml).outbound.len() == s.outbound.len() + 1,
        s.sent(xml).outbound.drop_last() == s.outbound,
        carries(s.sent(xml).outbound.last(), s.channel, xml),
        s.sent(xml).recently_sent.last() == xml,
        s.recently_sent.len() < 16 ==> s.sent(xml).recently_sent.drop_last() == s.recently_sent,
        s.recently_sent.len() == 16 ==> s.sent(xml).recently_sent.drop_last()
            == s.recently_sent.skip(1),
        s.sent(xml) == (StateView {
            outbound: s.sent(xml).outbound,
            recently_sent: s.sent(xml).recently_sent,
            ..s
        }),
{
    assert(0x08u8 | 0x01u8 | 0x02u8 == 0x0B) by (bit_vector);
    assert(s.sent(xml).outbound.drop_last() =~= s.outbound);
    let list = s.recently_sent.push(xml);
    if s.recently_sent.len() == 16 {
        assert(list.skip(1).drop_last() =~= s.recently_sent.skip(1));
    } else {
        assert(list.drop_last() =~= s.recently_sent);
    }
}

/// The frame of a request of a session goes to the head unit on the channel, in the
/// wrapper of the session.
pub proof fn law_requests_are_wrapped(s: StateView, idx: int, id: u32, body: Seq<char>)
    ensures
        carries(
            request_packet(s, idx, id, body),
            s.channel,
            request_text(s.sessions[idx].session_id, id, body),
        ),
{
    assert(0x08u8 | 0x01u8 | 0x02u8 == 0x0B) by (bit_vector);
    let sid = s.sessions[idx].session_id;
    assert("<ExlapStatement session_id=\""@ + sid + "\">"@ + request_frame(id, body)
        + "</ExlapStatement>"@ =~= request_text(sid, id, body));
}

/// The last sixteen of a list, or all of it.
pub open spec fn last_sixteen(list: Seq<Seq<char>>) -> Seq<Seq<char>> {
    if list.len() <= 16 {
        list
    } else {
        list.skip(list.len() - 16)
    }
}

/// The requests that wait in the machine of a session are queued in order, each in
/// the wrapper of the session, behind all that was queued; the last sixteen frames
/// are remembered, and nothing waits in the machine any more.
pub proof fn law_waiting_requests_are_queued_and_remembered(
    s: StateView,
    idx: int,
    m: MachineView,
)
    requires
        0 <= idx < s.sessions.len(),
        s.sessions[idx].link == LinkView::Running(m),
        s.recently_sent.len() <= 16,
    ensures
        ({
            let t = s.flushed(idx);
            let texts = m.out.map_values(
                |req: Seq<char>| statement_text(s.sessions[idx].session_id, req),
            );
            &&& t.outbound.len() == s.outbound.len() + m.out.len()
            &&& s.outbound.is_prefix_of(t.outbound)
            &&& forall|i: int|
                0 <= i < m.out.len() ==> carries(
                    #[trigger] t.outbound[s.outbound.len() + i],
                    s.channel,
                    texts[i],
                )
            &&& t.recently_sent == last_sixteen(s.recently_sent + texts)
            &&& t.sessions == s.sessions.update(
                idx,
                SessionView {
                    link: LinkView::Running(MachineView { out: Seq::empty(), ..m }),
                    ..s.sessions[idx]
                },
            )
            &&& t == (StateView {
                sessions: t.sessions,
                outbound: t.outbound,
                recently_sent: t.recently_sent,
                ..s
            })
        }),
{
    let sid = s.sessions[idx].session_id;
    let d = s.drained(idx);
    let t = s.flushed(idx);
    let f = |req: Seq<char>| statement_text(sid, req);
    lemma_sent_all(d, sid, m.out);
    lemma_remembered(d, sid, m.out);
    assert(0x08u8 | 0x01u8 | 0x02u8 == 0x0B) by (bit_vector);
    let packets = statement_packets(s.channel, sid, m.out);
    assert(t.outbound == s.outbound + packets);
    assert(s.outbound =~= t.outbound.subrange(0, s.outbound.len() as int));
    assert forall|i: int| 0 <= i < m.out.len() implies carries(
        #[trigger] t.outbound[s.outbound.len() + i],
        s.channel,
        m.out.map_values(f)[i],
    ) by {
        assert(t.outbound[s.outbound.len() + i] == packets[i]);
    }
}

/// The text of a request, with its tags, in the wrapper of its session.
pub open spec fn statement_text(session_id: Seq<char>, req: Seq<char>) -> Seq<char> {
    "<ExlapStatement session_id=\""@ + session_id + "\">"@ + req + "</ExlapStatement>"@
}

proof fn lemma_remembered(s: StateView, sid: Seq<char>, reqs: Seq<Seq<char>>)
    requires
        s.recently_sent.len() <= 16,
    ensures
        s.sent_all(sid, reqs).recently_sent == last_sixteen(
            s.recently_sent + reqs.map_values(|req: Seq<char>| statement_text(sid, req)),
        ),
    decreases reqs.len(),
{
    let f = |req: Seq<char>| statement_text(sid, req);
    if reqs.len() == 0 {
        assert(s.recently_sent + reqs.map_values(f) =~= s.recently_sent);
    } else {
        let before = reqs.drop_last();
        lemma_remembered(s, sid, before);
        let all = s.recently_sent + before.map_values(f);
        let x = statement_text(sid, reqs.last());
        assert(s.recently_sent + reqs.map_values(f) =~= all.push(x));
        let kept = last_sixteen(all);
        assert(kept.len() <= 16);
        if kept.len() == 16 {
            assert(kept.push(x).skip(1) =~= last_sixteen(all.push(x)));
        } else {
            assert(kept.push(x) =~= last_sixteen(all.push(x)));
        }
    }
}

// -- Packets ---------------------------------------------------------------------

/// The state after what was queued left with a packet that passes to the head
/// unit.
pub open spec fn with_queue_sent(s: StateView, pkt: PacketView) -> StateView {
    if pkt.proxy_type == ProxyType::MobileDevice {
        StateView { outbound: Seq::empty(), ..s }
    } else {
        s
    }
}

/// A packet is one of data on the channel of the hook.
pub open spec fn is_data(s: StateView, pkt: PacketView) -> bool {
    &&& pkt.channel == s.channel
    &&& pkt.channel == 0 ==> pkt.message_id != 6 || pkt.proxy_type == ProxyType::MobileDevice
    &&& pkt.packet_flags & 0x04 == 0
}

/// The bytes of the frame that a packet belongs to, so far.
pub open spec fn frame_bytes(s: StateView, pkt: PacketView) -> Seq<u8> {
    if pkt.packet_flags & 0x01 != 0 {
        pkt.payload
    } else {
        s.buffer + pkt.payload
    }
}

/// A packet of the head unit completes a frame with this text, which is none that
/// the hook remembers having sent.
pub open spec fn completes(s: StateView, pkt: PacketView, xml: Seq<char>) -> bool {
    &&& is_data(s, pkt)
    &&& pkt.proxy_type == ProxyType::HeadUnit
    &&& pkt.packet_flags & 0x02 != 0
    &&& frame_bytes(s, pkt) == encode_utf8(xml)
    &&& !s.recently_sent.contains(xml)
}

/// The state in which a whole frame is acted on: only the fragments are gone.
pub open spec fn heard(s: StateView, u: StateView) -> bool {
    u == (StateView { buffer: Seq::empty(), log: u.log, ..s })
}

/// Every whole frame of the head unit that is text, and that the hook did not send
/// itself, is acted on, however long it is and in however many packets it came.
pub proof fn law_every_frame_is_acted_on(
    s: StateView,
    pkt: PacketView,
    xml: Seq<char>,
    t: StateView,
)
    requires
        s.sees(pkt, t),
        completes(s, pkt, xml),
    ensures
        exists|u: StateView| heard(s, u) && #[trigger] u.handles_xml(xml, t),
{
    vstd::utf8::encode_utf8_valid_utf8(xml);
    vstd::utf8::encode_utf8_decode_utf8(xml);
    let u = s.received(pkt.proxy_type, xml);
    assert(s.carried(pkt).adopted(pkt) == s);
    assert(heard(s, u));
    assert(u.handles_xml(xml, t));
}

/// A packet that does not complete a frame only extends the fragments.
pub proof fn law_fragments_are_collected(s: StateView, pkt: PacketView, t: StateView)
    requires
        s.sees(pkt, t),
        is_data(s, pkt),
        pkt.packet_flags & 0x02 == 0,
    ensures
        t == (StateView {
            buffer: frame_bytes(s, pkt),
            log: t.log,
            ..with_queue_sent(s, pkt)
        }),
{
}

/// A whole frame that is no text is logged and dropped; one that the hook sent, or
/// that is on its way to the phone, is dropped.
pub proof fn law_other_frames_are_dropped(
    s: StateView,
    pkt: PacketView,
    xml: Seq<char>,
    t: StateView,
)
    requires
        s.sees(pkt, t),
        is_data(s, pkt),
        pkt.packet_flags & 0x02 != 0,
        !valid_utf8(frame_bytes(s, pkt)) || pkt.proxy_type == ProxyType::MobileDevice || (
        frame_bytes(s, pkt) == encode_utf8(xml) && s.recently_sent.contains(xml)),
    ensures
        t == (StateView { buffer: Seq::empty(), log: t.log, ..with_queue_sent(s, pkt) }),
        !valid_utf8(frame_bytes(s, pkt)) ==> t.log.len() > s.log.len() && t.log.last()
            == NoticeView::InvalidUtf8,
{
    vstd::utf8::encode_utf8_valid_utf8(xml);
    vstd::utf8::encode_utf8_decode_utf8(xml);
}

/// The head unit's discovery: message six on channel zero.
pub open spec fn discovers(pkt: PacketView) -> bool {
    pkt.proxy_type == ProxyType::HeadUnit && pkt.channel == 0 && pkt.message_id == 6
}

/// Every discovery forgets all but the settings, what is to be told and what is to
/// be logged, and moves to the channel that it names, if it names one.
pub proof fn law_discovery_forgets_all_but_the_settings(
    s: StateView,
    pkt: PacketView,
    t: StateView,
)
    requires
        s.sees(pkt, t),
        discovers(pkt),
    ensures
        pkt.payload.len() < 2 ==> t == s,
        pkt.payload.len() >= 2 ==> {
            &&& t.channel == match advertised_exlap(pkt.payload.skip(2)) {
                Some(id) => id as u8,
                None => s.channel,
            }
            &&& t.sessions.len() == s.creds.len()
            &&& forall|i: int|
                0 <= i < s.creds.len() ==> (#[trigger] t.sessions[i]).cred == s.creds[i]
                    && t.sessions[i].link is Pending && t.sessions[i].session_id == ""@
                    && !t.sessions[i].subscribed && !t.sessions[i].subscription_limit_reached
            &&& !t.connecting_started
            &&& t.buffer.len() == 0
            &&& t.claimed == Set::<Seq<char>>::empty()
            &&& t.tank_level is None
            &&& t.outside_temp is None
            &&& t.values == Map::<Seq<char>, ChangeView>::empty()
            &&& t.outbound.len() == 0
            &&& t.recently_sent.len() == 0
            &&& t.creds == s.creds
            &&& t.subscribe_urls == s.subscribe_urls
            &&& t.subscribe_ival_ms == s.subscribe_ival_ms
            &&& t.battery_capacity_wh == s.battery_capacity_wh
            &&& t.debug == s.debug
            &&& t.effects == s.effects
        },
{
}

/// A packet of another channel that does not move the hook there only takes along
/// what is queued; one that does is logged.
pub proof fn law_channel_is_adopted_or_left_alone(s: StateView, pkt: PacketView, t: StateView)
    requires
        s.sees(pkt, t),
        !discovers(pkt),
        pkt.channel != s.channel,
    ensures
        s.connecting_started || !shows_exlap(pkt) ==> t == (StateView {
            log: t.log,
            ..with_queue_sent(s, pkt)
        }),
        !s.connecting_started && shows_exlap(pkt) ==> t.channel == pkt.channel && t.log.contains(
            NoticeView::AdoptedChannel(pkt.channel),
        ),
{
    let c = s.carried(pkt);
    if !s.connecting_started && shows_exlap(pkt) {
        let v = c.adopted(pkt);
        lemma_packet_keeps(v, pkt, t);
        let at = c.log.len() as int;
        assert(v.log[at] == NoticeView::AdoptedChannel(pkt.channel));
        assert(t.log[at] == v.log[at]);
    }
}

/// The channel is shown by a packet of data that begins with `<Exlap`.
pub proof fn law_exlap_is_shown_by_its_prefix(pkt: PacketView)
    ensures
        shows_exlap(pkt) <==> {
            &&& pkt.channel != 0
            &&& pkt.packet_flags & 0x04 == 0
            &&& pkt.payload.len() >= 6
            &&& pkt.payload[0] == 0x3C
            &&& pkt.payload[1] == 0x45
            &&& pkt.payload[2] == 0x78
            &&& pkt.payload[3] == 0x6C
            &&& pkt.payload[4] == 0x61
            &&& pkt.payload[5] == 0x70
        },
{
    let prefix = seq![0x3Cu8, 0x45u8, 0x78u8, 0x6Cu8, 0x61u8, 0x70u8];
    assert(EXLAP_PREFIX@ =~= prefix);
    if pkt.payload.len() >= 6 {
        let head = pkt.payload.subrange(0, 6);
        assert(head[0] == pkt.payload[0] && head[1] == pkt.payload[1] && head[2] == pkt.payload[2]
            && head[3] == pkt.payload[3] && head[4] == pkt.payload[4] && head[5]
            == pkt.payload[5]);
        if pkt.payload[0] == 0x3C && pkt.payload[1] == 0x45 && pkt.payload[2] == 0x78
            && pkt.payload[3] == 0x6C && pkt.payload[4] == 0x61 && pkt.payload[5] == 0x70 {
            assert(prefix =~= head);
        }
    }
}

/// A packet to the head unit takes all queued frames along, in order, and changes
/// nothing else by that; one to the phone takes none.
pub proof fn law_queue_leaves_whole(s: StateView, pkt: PacketView)
    ensures
        s.carried(pkt) == (StateView { log: s.carried(pkt).log, ..with_queue_sent(s, pkt) }),
        s.sends_with(pkt) + s.carried(pkt).outbound == s.outbound,
        pkt.proxy_type == ProxyType::MobileDevice ==> s.sends_with(pkt) == s.outbound,
        pkt.proxy_type == ProxyType::HeadUnit ==> s.sends_with(pkt).len() == 0,
{
    assert(s.sends_with(pkt) + s.carried(pkt).outbound =~= s.outbound);
}

// -- Connecting ------------------------------------------------------------------

/// Session `k` is the next to connect: the first one that was not started, while
/// none awaits its answer.
pub open spec fn is_next(s: StateView, k: int) -> bool {
    &&& 0 <= k < s.sessions.len()
    &&& s.sessions[k].link is Pending
    &&& forall|j: int| 0 <= j < k ==> !((#[trigger] s.sessions[j]).link is Pending)
    &&& forall|j: int|
        0 <= j < s.sessions.len() ==> !((#[trigger] s.sessions[j]).link is WaitConnReturn)
}

/// No session is to be connected: one awaits its answer, or none is left.
pub open spec fn none_is_next(s: StateView) -> bool {
    ||| exists|j: int|
        0 <= j < s.sessions.len() && (#[trigger] s.sessions[j]).link is WaitConnReturn
    ||| forall|j: int| 0 <= j < s.sessions.len() ==> !((#[trigger] s.sessions[j]).link is Pending)
}

/// Session `k` was asked to connect, under an id, and nothing else was done.
pub open spec fn connects_as(s: StateView, k: int, id: Seq<char>, t: StateView) -> bool {
    &&& t.sessions == s.sessions.update(
        k,
        SessionView { link: LinkView::WaitConnReturn, session_id: id, ..s.sessions[k] },
    )
    &&& t.connecting_started
    &&& t.outbound.len() == s.outbound.len() + 1
    &&& t.outbound.drop_last() == s.outbound
    &&& carries(
        t.outbound.last(),
        s.channel,
        "<ExlapConnectionRequest session_id=\""@ + id + "\"/>"@,
    )
    &&& t.recently_sent.len() > 0
    &&& t.recently_sent.last() == "<ExlapConnectionRequest session_id=\""@ + id + "\"/>"@
    &&& t.log == if s.debug {
        s.log.push(
            NoticeView::Starting {
                cred: s.sessions[k].cred,
                user: user_names()[s.sessions[k].cred as int],
                session_id: id,
            },
        )
    } else {
        s.log
    }
    &&& t == (StateView {
        sessions: t.sessions,
        connecting_started: t.connecting_started,
        outbound: t.outbound,
        recently_sent: t.recently_sent,
        log: t.log,
        ..s
    })
}

/// Session `k` was asked to connect, under a fresh id.
pub open spec fn connects(s: StateView, k: int, t: StateView) -> bool {
    exists|id: Seq<char>| is_session_id(id) && #[trigger] connects_as(s, k, id, t)
}

/// The next session is asked to connect.
pub proof fn law_next_session_is_connected(s: StateView, k: int, t: StateView)
    requires
        s.starts(t),
        is_next(s, k),
    ensures
        connects(s, k, t),
{
    let id = choose|id: Seq<char>| is_session_id(id) && t == #[trigger] s.started(id);
    lemma_first_session(s.sessions, 0, |x: SessionView| x.link is WaitConnReturn);
    lemma_first_session(s.sessions, 0, |x: SessionView| x.link is Pending);
    assert(s.startable() == Some(k));
    assert(0x08u8 | 0x01u8 | 0x02u8 == 0x0B) by (bit_vector);
    assert(t.outbound.drop_last() =~= s.outbound);
    assert(connects_as(s, k, id, t));
}

/// Where no session is to be connected, none is, and nothing changes.
pub proof fn law_none_is_connected_out_of_turn(s: StateView, t: StateView)
    requires
        s.starts(t),
        none_is_next(s),
    ensures
        t == s,
{
    lemma_first_session(s.sessions, 0, |x: SessionView| x.link is WaitConnReturn);
    lemma_first_session(s.sessions, 0, |x: SessionView| x.link is Pending);
}

/// A beacon connects the next session, if there is one.
pub proof fn law_beacon_connects_the_next_session(
    s: StateView,
    pkt: PacketView,
    xml: Seq<char>,
    t: StateView,
    k: int,
)
    requires
        s.sees(pkt, t),
        completes(s, pkt, xml),
        frame_kind(xml) == "ExlapBeacon"@,
    ensures
        is_next(s, k) ==> exists|u: StateView| heard(s, u) && #[trigger] connects(u, k, t),
        none_is_next(s) ==> heard(s, t),
{
    law_every_frame_is_acted_on(s, pkt, xml, t);
    let u = choose|u: StateView| heard(s, u) && #[trigger] u.handles_xml(xml, t);
    if is_next(s, k) {
        assert(is_next(u, k));
        law_next_session_is_connected(u, k, t);
        assert(connects(u, k, t));
    }
    if none_is_next(s) {
        assert(none_is_next(u)) by {
            assert(u.sessions == s.sessions);
        }
        law_none_is_connected_out_of_turn(u, t);
    }
}

/// A control message on the channel that answers the request to open it: message
/// eight.
pub open spec fn opens_channel(s: StateView, pkt: PacketView) -> bool {
    &&& pkt.channel == s.channel
    &&& pkt.channel == 0 ==> pkt.message_id != 6 || pkt.proxy_type == ProxyType::MobileDevice
    &&& pkt.packet_flags & 0x04 != 0
    &&& pkt.payload.len() >= 2
    &&& pkt.payload[0] == 0
    &&& pkt.payload[1] == 8
}

/// When the channel is opened, whatever the status, the next session is connected,
/// unless sessions were started already. A status that is not OK is logged.
pub proof fn law_open_channel_connects_the_next_session(
    s: StateView,
    pkt: PacketView,
    t: StateView,
    k: int,
)
    requires
        s.sees(pkt, t),
        opens_channel(s, pkt),
    ensures
        !s.connecting_started && is_next(s, k) ==> exists|u: StateView|
            u == (StateView { log: u.log, ..with_queue_sent(s, pkt) }) && #[trigger] connects(
                u,
                k,
                t,
            ),
        s.connecting_started ==> t == (StateView { log: t.log, ..with_queue_sent(s, pkt) }),
        !s.connecting_started && is_next(s, k) && pkt.payload.len() >= 4 && pkt.payload[2] == 0x08
            && pkt.payload[3] != 0 ==> t.log.contains(
            NoticeView::OpenStatus { status: pkt.payload[3], channel: s.channel },
        ),
{
    let c = s.carried(pkt);
    assert(c.adopted(pkt) == c);
    let d = c.debugged(
        NoticeView::ControlSeen {
            from: pkt.proxy_type,
            msg_id: shown_id(pkt.payload),
        },
    );
    if !s.connecting_started && is_next(s, k) {
        let status = open_status(pkt.payload);
        let u = d.opened(status);
        assert(is_next(u, k)) by {
            assert(u.sessions == s.sessions);
        }
        law_next_session_is_connected(u, k, t);
        assert(connects(u, k, t));
        if status != 0 {
            let line = NoticeView::OpenStatus { status, channel: s.channel };
            let at = d.log.len() as int;
            assert(u.log[at] == line);
            lemma_start_grows(u, -1, t);
            assert(t.log[at] == line);
        }
    }
}

/// A control message that is none of those that open the channel does nothing.
pub proof fn law_other_control_messages_do_nothing(s: StateView, pkt: PacketView, t: StateView)
    requires
        s.sees(pkt, t),
        pkt.channel == s.channel,
        pkt.channel == 0 ==> pkt.message_id != 6 || pkt.proxy_type == ProxyType::MobileDevice,
        pkt.packet_flags & 0x04 != 0,
        !opens_channel(s, pkt),
    ensures
        t == (StateView { log: t.log, ..with_queue_sent(s, pkt) }),
{
    let c = s.carried(pkt);
    assert(c.adopted(pkt) == c);
}

/// How the web UI is told that a session stands.
pub open spec fn stands(c: ConnectionView, cred: usize, state: Seq<char>, limit: bool) -> bool {
    &&& c.cred_idx == cred
    &&& c.user == user_names()[cred as int]
    &&& c.connection_state == state
    &&& c.subscription_limit_reached == limit
}

pub proof fn lemma_kinds()
    ensures
        "ExlapConnectionReturn"@ != "ExlapBeacon"@,
        "ExlapConnectionReturn"@ != "ExlapConnectionClosed"@,
        "ExlapStatement"@ != "ExlapBeacon"@,
        "ExlapStatement"@ != "ExlapConnectionClosed"@,
        "ExlapStatement"@ != "ExlapConnectionReturn"@,
        "Status"@ != "ExlapBeacon"@,
        "Status"@ != "ExlapConnectionClosed"@,
        "Status"@ != "ExlapConnectionReturn"@,
        "Status"@ != "ExlapStatement"@,
        "ExlapConnectionClosed"@ != "ExlapBeacon"@,
{
    reveal_strlit("Status");
    reveal_strlit("ExlapBeacon");
    reveal_strlit("ExlapConnectionClosed");
    reveal_strlit("ExlapConnectionReturn");
    reveal_strlit("ExlapStatement");
    assert("Status"@.len() == 6 && "ExlapBeacon"@.len() == 11 && "ExlapConnectionClosed"@.len()
        == 21 && "ExlapStatement"@.len() == 14 && "ExlapConnectionReturn"@.len() == 21);
    assert("ExlapConnectionReturn"@[15] == 'R');
    assert("ExlapConnectionClosed"@[15] == 'C');
}

/// A connection that is granted lets its session run, from the beginning, and the
/// web UI is told; one that is refused leaves its session to be started again.
pub proof fn law_connection_is_granted_or_refused(
    s: StateView,
    xml: Seq<char>,
    t: StateView,
    k: int,
)
    requires
        s.handles_xml(xml, t),
        frame_kind(xml) == "ExlapConnectionReturn"@,
        0 <= k < s.sessions.len(),
        s.sessions[k].link is WaitConnReturn,
        forall|j: int| 0 <= j < k ==> !((#[trigger] s.sessions[j]).link is WaitConnReturn),
    ensures
        attr_in_tag(xml, "ExlapConnectionReturn"@, "connected"@) == Some("true"@) ==> {
            &&& t.sessions[k].link matches LinkView::Running(m)
            &&& m.phase == Phase::Init
            &&& m.cred == s.sessions[k].cred as int % 4
            &&& m.directory.len() == 0
            &&& m.out.len() == 0
            &&& m.heartbeat == Some(10u8)
            &&& m.timestamps
            &&& m.own_cnonce
            &&& t.sessions == s.sessions.update(
                k,
                SessionView { link: t.sessions[k].link, ..s.sessions[k] },
            )
            &&& t.effects.len() == s.effects.len() + 1
            &&& t.effects.drop_last() == s.effects
            &&& t.effects.last() matches EffectView::Connection(c) && stands(
                c,
                s.sessions[k].cred,
                "connecting"@,
                s.sessions[k].subscription_limit_reached,
            )
            &&& t == (StateView {
                sessions: t.sessions,
                effects: t.effects,
                log: t.log,
                ..s
            })
        },
        attr_in_tag(xml, "ExlapConnectionReturn"@, "connected"@) != Some("true"@) ==> {
            &&& t.sessions == s.sessions.update(
                k,
                SessionView {
                    cred: s.sessions[k].cred,
                    link: LinkView::Pending,
                    session_id: ""@,
                    subscribed: false,
                    subscription_limit_reached: false,
                },
            )
            &&& t.log == s.log.push(NoticeView::ConnectionRefused(s.sessions[k].cred))
            &&& t == (StateView { sessions: t.sessions, log: t.log, ..s })
        },
{
    lemma_kinds();
    lemma_first_session(s.sessions, 0, |x: SessionView| x.link is WaitConnReturn);
    assert(waiting_session(s.sessions) == Some(k));
    if attr_in_tag(xml, "ExlapConnectionReturn"@, "connected"@) == Some("true"@) {
        assert(t.effects.drop_last() =~= s.effects);
        assert(t.sessions =~= s.sessions.update(
            k,
            SessionView { link: t.sessions[k].link, ..s.sessions[k] },
        ));
    }
}

/// A connection that is closed, or a bare bye, makes every session anew, for the
/// credentials that are configured, tells the web UI of each, and connects the
/// first one.
pub proof fn law_reset_makes_every_session_anew(s: StateView, xml: Seq<char>, t: StateView)
    requires
        s.handles_xml(xml, t),
        frame_kind(xml) == "ExlapConnectionClosed"@ || (frame_kind(xml) == "Status"@
            && !contains_text(xml, "Alive"@) && contains_text(xml, "Bye"@)),
    ensures
        exists|u: StateView| #[trigger] all_anew(s, u) && (if s.creds.len() > 0 {
            connects(u, 0, t)
        } else {
            t == u
        }),
{
    lemma_kinds();
    let d = if frame_kind(xml) == "ExlapConnectionClosed"@ {
        s.debugged(NoticeView::ConnectionsClosed)
    } else {
        s.debugged(NoticeView::ByeReceived)
    };
    let u = d.reset();
    let base = StateView {
        sessions: pending_sessions(d.creds),
        claimed: Set::empty(),
        connecting_started: false,
        ..d
    };
    lemma_reports(base, base.sessions.len() as int);
    assert(u == base.all_reported(base.sessions.len() as int));
    assert forall|i: int| 0 <= i < s.creds.len() implies (#[trigger] u.sessions[i]).cred
        == s.creds[i] && u.sessions[i].link is Pending && u.sessions[i].session_id == ""@
        && !u.sessions[i].subscribed && !u.sessions[i].subscription_limit_reached by {}
    assert forall|i: int| 0 <= i < s.creds.len() implies (
    #[trigger] u.effects[s.effects.len() + i]) matches EffectView::Connection(c) && stands(
        c,
        s.creds[i],
        "connecting"@,
        false,
    ) by {
        assert(base.sessions[i].link is Pending);
    }
    assert(all_anew(s, u));
    if s.creds.len() > 0 {
        assert(is_next(u, 0));
        law_next_session_is_connected(u, 0, t);
    } else {
        assert(none_is_next(u));
        law_none_is_connected_out_of_turn(u, t);
    }
}

/// Every session was made anew, and the web UI was told of each, in order.
pub open spec fn all_anew(s: StateView, u: StateView) -> bool {
    &&& u.sessions.len() == s.creds.len()
    &&& forall|i: int|
        0 <= i < s.creds.len() ==> (#[trigger] u.sessions[i]).cred == s.creds[i]
            && u.sessions[i].link is Pending && u.sessions[i].session_id == ""@
            && !u.sessions[i].subscribed && !u.sessions[i].subscription_limit_reached
    &&& u.claimed == Set::<Seq<char>>::empty()
    &&& !u.connecting_started
    &&& u.effects.len() == s.effects.len() + s.creds.len()
    &&& s.effects.is_prefix_of(u.effects)
    &&& forall|i: int|
        0 <= i < s.creds.len() ==> ((#[trigger] u.effects[s.effects.len() + i])
            matches EffectView::Connection(c) && stands(c, s.creds[i], "connecting"@, false))
    &&& u == (StateView {
        sessions: u.sessions,
        claimed: u.claimed,
        connecting_started: u.connecting_started,
        effects: u.effects,
        log: u.log,
        ..s
    })
}

proof fn lemma_reports(s: StateView, n: int)
    requires
        0 <= n <= s.sessions.len(),
    ensures
        s.all_reported(n) == (StateView { effects: s.all_reported(n).effects, ..s }),
        s.all_reported(n).effects.len() == s.effects.len() + n,
        s.effects.is_prefix_of(s.all_reported(n).effects),
        forall|i: int|
            0 <= i < n ==> #[trigger] s.all_reported(n).effects[s.effects.len() + i]
                == EffectView::Connection(s.sessions[i].report()),
    decreases n,
{
    if n == 0 {
        assert(s.effects =~= s.effects.subrange(0, s.effects.len() as int));
    } else {
        lemma_reports(s, n - 1);
        let a = s.all_reported(n - 1);
        let b = s.all_reported(n);
        assert(a.effects.subrange(0, s.effects.len() as int) == s.effects);
        assert(s.effects =~= b.effects.subrange(0, s.effects.len() as int));
        assert forall|i: int| 0 <= i < n implies #[trigger] b.effects[s.effects.len() + i]
            == EffectView::Connection(s.sessions[i].report()) by {
            if i < n - 1 {
                assert(b.effects[s.effects.len() + i] == a.effects[s.effects.len() + i]);
            }
        }
    }
}

// -- Statements and bare status elements -----------------------------------------

/// Only a nonce that cannot be cut keeps a message from a session: any session
/// that does not await its challenge takes every message, and one that does takes
/// those without a nonce, or with one whose first forty-four bytes are whole
/// characters.
pub proof fn law_sessions_take_messages(phase: Phase, msg: Seq<char>)
    ensures
        phase != Phase::Challenge ==> feedable(phase, msg),
        any_phase(msg) ==> feedable(phase, msg),
        challenge_nonce(msg) is None ==> feedable(phase, msg),
        challenge_nonce(msg) matches Some(nonce) ==> (encode_utf8(nonce).len() <= 44
            || is_char_boundary(encode_utf8(nonce), 44)) ==> feedable(phase, msg),
{
}

/// The root of a message is the first name behind a `<`, if that is no declaration
/// and no instruction. A message is dealt with in any phase where its root is
/// `Status`, it holds no data, and it is a ping, a bye, or no banner.
pub proof fn law_status_messages_are_told_by_their_root(
    before: Seq<char>,
    name: Seq<char>,
    after: Seq<char>,
)
    requires
        !before.contains('<'),
        name.len() > 0,
        name[0] != '?' && name[0] != '!',
        forall|i: int|
            0 <= i < name.len() ==> #[trigger] name[i] != ' ' && name[i] != '>' && name[i] != '/',
        after.len() > 0,
        after[0] == ' ' || after[0] == '>' || after[0] == '/',
        after.contains('>'),
    ensures
        ({
            let msg = before + seq!['<'] + name + after;
            &&& root_from(msg, 0) == Some(name)
            &&& any_phase(msg) <==> name == "Status"@ && !contains_text(msg, "<Dat "@) && (
            contains_text(msg, "Alive"@) || contains_text(msg, "Bye"@) || !contains_text(
                msg,
                "Init"@,
            ))
        }),
{
    let msg = before + seq!['<'] + name + after;
    let open = before.len() as int;
    assert(msg.subrange(open, open + 1) =~= seq!['<']);
    assert forall|j: int| 0 <= j < open implies !occurs_at(msg, seq!['<'], j) by {
        if occurs_at(msg, seq!['<'], j) {
            assert(msg.subrange(j, j + 1)[0] == '<');
            assert(before[j] == '<');
        }
    }
    lemma_find_is(msg, seq!['<'], 0, open);
    lemma_find_from(msg, seq!['>'], open);
    let k = choose|k: int| 0 <= k < after.len() && after[k] == '>';
    let at = open + 1 + name.len() + k;
    assert(msg[at] == '>');
    assert(msg.subrange(at, at + 1) =~= seq!['>']);
    assert(occurs_at(msg, seq!['>'], at));
    assert forall|i: int| open + 1 <= i < open + 1 + name.len() implies #[trigger] msg[i] != ' '
        && msg[i] != '>' && msg[i] != '/' by {
        assert(msg[i] == name[i - open - 1]);
    }
    lemma_name_end(msg, open + 1, name.len());
    assert(msg.subrange(open + 1, open + 1 + name.len()) =~= name);
}

/// A statement feeds the session with its id, whatever it says.
pub proof fn law_statement_feeds_the_session_that_it_names(
    s: StateView,
    xml: Seq<char>,
    sid: Seq<char>,
    idx: int,
    t: StateView,
)
    requires
        s.handles_xml(xml, t),
        frame_kind(xml) == "ExlapStatement"@,
        attr_in_tag(xml, "ExlapStatement"@, "session_id"@) == Some(sid),
        sid.len() > 0,
        0 <= idx < s.sessions.len(),
        s.sessions[idx].session_id == sid,
        forall|j: int| 0 <= j < idx ==> (#[trigger] s.sessions[j]).session_id != sid,
        s.sessions[idx].link matches LinkView::Running(m) ==> feedable(m.phase, unwrapped(xml)),
    ensures
        s.feeds(idx, unwrapped(xml), t),
{
    lemma_kinds();
    let p = |x: SessionView| x.session_id == sid && sid.len() > 0;
    lemma_first_session(s.sessions, 0, p);
    assert(p(s.sessions[idx]));
    assert(s.session_with_id(sid) == Some(idx));
}

/// The data in a statement that names no session of the hook is recorded, and
/// nothing else is done with the statement.
pub proof fn law_foreign_data_is_recorded(s: StateView, xml: Seq<char>, t: StateView)
    requires
        s.handles_xml(xml, t),
        frame_kind(xml) == "ExlapStatement"@,
        match attr_in_tag(xml, "ExlapStatement"@, "session_id"@) {
            Some(sid) => sid.len() == 0 || forall|j: int|
                0 <= j < s.sessions.len() ==> (#[trigger] s.sessions[j]).session_id != sid,
            None => true,
        },
    ensures
        match dat_document(unwrapped(xml)) {
            Some(d) => exists|u: StateView|
                u == (StateView { log: u.log, ..s }) && t == #[trigger] u.with_data(d),
            None => t == (StateView { log: t.log, ..s }),
        },
{
    lemma_kinds();
    reveal_strlit("");
    let sid = or_empty(attr_in_tag(xml, "ExlapStatement"@, "session_id"@));
    lemma_first_session(s.sessions, 0, |x: SessionView| x.session_id == sid && sid.len() > 0);
    assert(s.session_with_id(sid) is None);
    let u = s.debugged(NoticeView::Harvesting(sid));
    if let Some(d) = dat_document(unwrapped(xml)) {
        assert(u == (StateView { log: u.log, ..s }));
        assert(t == u.with_data(d));
    }
}

/// A bare banner feeds the first session that awaits one; without such a session,
/// and for any other bare status that is no ping and no bye, nothing is done.
pub proof fn law_bare_banner_feeds_the_first_that_awaits_it(
    s: StateView,
    xml: Seq<char>,
    t: StateView,
    k: int,
)
    requires
        s.handles_xml(xml, t),
        frame_kind(xml) == "Status"@,
        !contains_text(xml, "Alive"@),
        !contains_text(xml, "Bye"@),
    ensures
        contains_text(xml, "Init"@) && 0 <= k < s.sessions.len() && (s.sessions[k].link
            matches LinkView::Running(m) && m.phase == Phase::Init) && (forall|j: int|
            0 <= j < k ==> !((#[trigger] s.sessions[j]).link matches LinkView::Running(m)
                && m.phase == Phase::Init)) ==> exists|u: StateView|
            u == (StateView { log: u.log, ..s }) && #[trigger] u.feeds(k, xml, t),
        !contains_text(xml, "Init"@) || (forall|j: int|
            0 <= j < s.sessions.len() ==> !((#[trigger] s.sessions[j]).link
                matches LinkView::Running(m) && m.phase == Phase::Init)) ==> t == (StateView {
            log: t.log,
            ..s
        }),
{
    lemma_kinds();
    let p = |x: SessionView| x.phase() == Some(Phase::Init);
    lemma_first_session(s.sessions, 0, p);
    assert forall|j: int| 0 <= j < s.sessions.len() implies p(#[trigger] s.sessions[j]) == (
    s.sessions[j].link matches LinkView::Running(m) && m.phase == Phase::Init) by {}
    if contains_text(xml, "Init"@) {
        if let Some(i) = s.awaiting_init() {
            let u = s.debugged(NoticeView::BannerFor(s.sessions[i].cred));
            assert(p(s.sessions[i]));
            assert(u == (StateView { log: u.log, ..s }));
            assert(u.feeds(i, xml, t));
        }
    }
}

/// A frame whose root tag means nothing here does nothing.
pub proof fn law_unknown_frames_do_nothing(s: StateView, xml: Seq<char>, t: StateView)
    requires
        s.handles_xml(xml, t),
        frame_kind(xml) != "ExlapBeacon"@,
        frame_kind(xml) != "ExlapConnectionClosed"@,
        frame_kind(xml) != "ExlapConnectionReturn"@,
        frame_kind(xml) != "ExlapStatement"@,
        frame_kind(xml) != "Status"@,
    ensures
        t == (StateView { log: t.log, ..s }),
{
}

// -- What a message means to a session -------------------------------------------

/// A session that does not run takes no message, and one that cannot cut the nonce
/// of its challenge does not take it.
pub proof fn law_messages_are_not_forced(s: StateView, xml: Seq<char>, idx: int, t: StateView)
    requires
        0 <= idx < s.sessions.len(),
    ensures
        s.feeds(idx, xml, t) && !(s.sessions[idx].link is Running) ==> t == s,
        s.handles_xml(xml, t) && frame_kind(xml) == "ExlapStatement"@ && s.session_with_id(
            or_empty(attr_in_tag(xml, "ExlapStatement"@, "session_id"@)),
        ) == Some(idx) && (s.sessions[idx].link matches LinkView::Running(m) && !feedable(
            m.phase,
            unwrapped(xml),
        )) ==> t == s,
{
    lemma_kinds();
}

/// What a message that queues one request in answer, and means nothing else, does:
/// the machine of its session goes on, the request is queued, and all else stays.
pub open spec fn only_answers(s: StateView, idx: int, t: StateView) -> bool {
    &&& t.sessions.len() == s.sessions.len()
    &&& forall|j: int|
        0 <= j < s.sessions.len() && j != idx ==> #[trigger] t.sessions[j] == s.sessions[j]
    &&& t.sessions[idx] == (SessionView { link: t.sessions[idx].link, ..s.sessions[idx] })
    &&& t == (StateView {
        sessions: t.sessions,
        outbound: t.outbound,
        recently_sent: t.recently_sent,
        log: t.log,
        ..s
    })
}

/// The steps of the handshake before the verdict, and every status message, change
/// nothing but the machine of their session and what is queued.
pub proof fn law_handshake_steps_change_nothing_else(
    s: StateView,
    idx: int,
    m: MachineView,
    msg: Seq<char>,
    t: StateView,
)
    requires
        0 <= idx < s.sessions.len(),
        s.sessions[idx].link == LinkView::Running(m),
        !is_over(m.phase),
        any_phase(msg) || (m.phase == Phase::Init && contains_text(msg, "Init"@)) || m.phase
            == Phase::Capabilities || (m.phase == Phase::Challenge && challenge_nonce(msg) is Some),
        s.feeds(idx, msg, t),
    ensures
        only_answers(s, idx, t),
{
    let (w, events) = choose|w: MachineView, events: Option<Seq<EventView>>|
        #[trigger] s.fed_with(idx, m, msg, w, events, t);
    let list = events->0;
    if any_phase(msg) {
        assert(seq![EventView::Other(msg)][0] == EventView::Other(msg));
        assert(list[0] == EventView::Other(msg));
    } else {
        assert(list.len() == 0);
    }
    let q = s.with_machine(idx, w);
    lemma_sent_all(q.drained(idx), q.sessions[idx].session_id, w.out);
}

/// A session that has authenticated is reported as active to the web UI, and asks
/// for its directory.
pub proof fn law_authenticated_session_is_reported(
    s: StateView,
    idx: int,
    m: MachineView,
    msg: Seq<char>,
    t: StateView,
)
    requires
        s.inv(),
        0 <= idx < s.sessions.len(),
        s.sessions[idx].link == LinkView::Running(m),
        m.phase == Phase::AuthResult,
        !any_phase(msg),
        !contains_text(msg, "ailed"@) && !contains_text(msg, "AILED"@),
        s.feeds(idx, msg, t),
    ensures
        t.effects.len() == s.effects.len() + 1,
        t.effects.drop_last() == s.effects,
        t.effects.last() matches EffectView::Connection(c) && stands(
            c,
            s.sessions[idx].cred,
            "active"@,
            s.sessions[idx].subscription_limit_reached,
        ),
        only_answers(StateView { effects: t.effects, ..s }, idx, t),
{
    let (w, events) = choose|w: MachineView, events: Option<Seq<EventView>>|
        #[trigger] s.fed_with(idx, m, msg, w, events, t);
    let list = seq![EventView::Authenticated];
    assert(list[0] == EventView::Authenticated);
    assert(events == Some(list));
    let q = s.with_machine(idx, w);
    lemma_sent_all(q.drained(idx), q.sessions[idx].session_id, w.out);
    let u = q.flushed(idx);
    assert(u.acts_on(idx, EventView::Authenticated, t));
    let id = choose|id: u32| t == #[trigger] u.asked_directory(idx, id);
    let v = MachineView { out: Seq::empty(), ..w };
    assert(u.sessions[idx].link == LinkView::Running(v));
    let x = awaiting_directory(v, id);
    let r = u.debugged(NoticeView::Authenticated(u.sessions[idx].cred)).reported(
        idx,
    ).with_machine(idx, x);
    lemma_sent_all(r.drained(idx), r.sessions[idx].session_id, x.out);
    assert(t.effects.drop_last() =~= s.effects);
}

/// A session that fails on a message is given up, the web UI is told, and the next
/// session is connected.
pub proof fn law_failed_session_gives_way(
    s: StateView,
    idx: int,
    m: MachineView,
    msg: Seq<char>,
    t: StateView,
    k: int,
)
    requires
        s.inv(),
        0 <= idx < s.sessions.len(),
        s.sessions[idx].link == LinkView::Running(m),
        feed_events(m, msg) is None,
        s.feeds(idx, msg, t),
    ensures
        exists|u: StateView| #[trigger] given_up(
            s,
            idx,
            failure(m, msg)->0,
            u,
        ) && (is_next(s, k) ==> connects(u, k, t)) && (none_is_next(s) ==> t == u),
{
    let (w, events) = choose|w: MachineView, events: Option<Seq<EventView>>|
        #[trigger] s.fed_with(idx, m, msg, w, events, t);
    let u = s.after_failure(idx, failure(m, msg)->0);
    assert(u.effects.drop_last() =~= s.effects);
    assert(given_up(s, idx, failure(m, msg)->0, u));
    if is_next(s, k) {
        assert forall|j: int| 0 <= j < u.sessions.len() implies ((
        #[trigger] u.sessions[j]).link is Pending <==> s.sessions[j].link is Pending) && (
        u.sessions[j].link is WaitConnReturn <==> s.sessions[j].link is WaitConnReturn) by {}
        assert(u.sessions[k] == s.sessions[k]);
        assert(is_next(u, k));
        law_next_session_is_connected(u, k, t);
    }
    if none_is_next(s) {
        if exists|j: int|
            0 <= j < s.sessions.len() && (#[trigger] s.sessions[j]).link is WaitConnReturn {
            let j = choose|j: int|
                0 <= j < s.sessions.len() && (#[trigger] s.sessions[j]).link is WaitConnReturn;
            assert(u.sessions[j] == s.sessions[j]);
        }
        assert(none_is_next(u));
        law_none_is_connected_out_of_turn(u, t);
    }
}

/// A session was given up, which is logged with the reason, and the web UI was
/// told.
pub open spec fn given_up(s: StateView, idx: int, why: Seq<char>, u: StateView) -> bool {
    &&& u.sessions == s.sessions.update(
        idx,
        SessionView { link: LinkView::Failed, ..s.sessions[idx] },
    )
    &&& u.log == s.log.push(
        NoticeView::SessionFailed { cred: s.sessions[idx].cred, reason: why },
    )
    &&& u.effects.len() == s.effects.len() + 1
    &&& u.effects.drop_last() == s.effects
    &&& u.effects.last() matches EffectView::Connection(c) && stands(
        c,
        s.sessions[idx].cred,
        "failed"@,
        s.sessions[idx].subscription_limit_reached,
    )
    &&& u == (StateView { sessions: u.sessions, effects: u.effects, log: u.log, ..s })
}

/// What a message means to a session that is ready: it changes nothing but through
/// that.
proof fn lemma_ready_message(s: StateView, idx: int, m: MachineView, msg: Seq<char>, t: StateView)
    requires
        s.inv(),
        0 <= idx < s.sessions.len(),
        s.sessions[idx].link == LinkView::Running(m),
        m.phase == Phase::Ready || (m.phase == Phase::Directory && !answers_directory(m, msg)),
        !any_phase(msg),
        s.feeds(idx, msg, t),
    ensures
        s.acts_on(idx, classified(msg), t),
{
    let (w, events) = choose|w: MachineView, events: Option<Seq<EventView>>|
        #[trigger] s.fed_with(idx, m, msg, w, events, t);
    let list = seq![classified(msg)];
    assert(list[0] == classified(msg));
    let q = s.with_machine(idx, w);
    let (id, cn) = choose|id: u32, cn: Seq<char>| #[trigger]
        answered(m, w, msg, id, cn, auth_digest(m.cred, nonce_text(msg), cn));
    assert(w == m);
    assert(q.sessions =~= s.sessions);
    assert(q == s);
    lemma_nothing_to_flush(s, idx);
}

/// Data is recorded whether its session is ready or still awaits its directory.
pub proof fn law_data_counts_before_the_directory(
    s: StateView,
    idx: int,
    m: MachineView,
    msg: Seq<char>,
    d: DatView,
    t: StateView,
)
    requires
        s.inv(),
        0 <= idx < s.sessions.len(),
        s.sessions[idx].link == LinkView::Running(m),
        m.phase == Phase::Ready || (m.phase == Phase::Directory && !answers_directory(m, msg)),
        !any_phase(msg),
        dat_document(msg) == Some(d),
        s.feeds(idx, msg, t),
    ensures
        t == s.with_data(d),
{
    lemma_ready_message(s, idx, m, msg, t);
}

/// An answer that says that the limit of subscriptions is reached marks its
/// session, and the web UI is told. Any other answer changes nothing.
pub proof fn law_only_the_limit_is_noted(
    s: StateView,
    idx: int,
    m: MachineView,
    msg: Seq<char>,
    t: StateView,
)
    requires
        s.inv(),
        0 <= idx < s.sessions.len(),
        s.sessions[idx].link == LinkView::Running(m),
        m.phase == Phase::Ready || (m.phase == Phase::Directory && !answers_directory(m, msg)),
        !any_phase(msg),
        dat_document(msg) is None,
        s.feeds(idx, msg, t),
    ensures
        reply_id(msg) is Some && rsp_status(msg) == Some("subscriptionLimitReached"@) ==> {
            &&& t.sessions == s.sessions.update(
                idx,
                SessionView { subscription_limit_reached: true, ..s.sessions[idx] },
            )
            &&& t.effects.len() == s.effects.len() + 1
            &&& t.effects.drop_last() == s.effects
            &&& t.effects.last() matches EffectView::Connection(c) && stands(
                c,
                s.sessions[idx].cred,
                if m.phase == Phase::Ready {
                    "active"@
                } else {
                    "connecting"@
                },
                true,
            )
            &&& t == (StateView { sessions: t.sessions, effects: t.effects, log: t.log, ..s })
        },
        reply_id(msg) is None || rsp_status(msg) != Some("subscriptionLimitReached"@) ==> t == (
        StateView { log: t.log, ..s }),
{
    lemma_ready_message(s, idx, m, msg, t);
    if reply_id(msg) is Some && rsp_status(msg) == Some("subscriptionLimitReached"@) {
        assert(t.effects.drop_last() =~= s.effects);
        assert(t.sessions[idx].link == s.sessions[idx].link);
    }
}

// -- Subscriptions ---------------------------------------------------------------

/// The text of the subscription of a URL.
pub open spec fn subscription_text(
    session_id: Seq<char>,
    id: u32,
    url: Seq<char>,
    ival_ms: u32,
) -> Seq<char> {
    request_text(
        session_id,
        id,
        "<Subscribe url=\""@ + url + "\" ival=\""@ + decimal(ival_ms as nat)
            + "\" timeStamp=\""@ + "true"@ + "\"/>"@,
    )
}

/// A packet subscribes a session to a URL, at the configured interval.
pub open spec fn subscribes(s: StateView, idx: int, url: Seq<char>, p: PacketView) -> bool {
    exists|id: u32|
        carries(
            p,
            s.channel,
            #[trigger] subscription_text(
                s.sessions[idx].session_id,
                id,
                url,
                s.subscribe_ival_ms,
            ),
        )
}

/// A session with a directory may take a URL: it is configured, by name or by `*`,
/// the directory lists it as data, and no session has claimed it.
pub open spec fn may_take(s: StateView, directory: Seq<EntryView>, url: Seq<char>) -> bool {
    &&& exists|i: int|
        0 <= i < s.subscribe_urls.len() && (#[trigger] s.subscribe_urls[i] == url
            || s.subscribe_urls[i] == "*"@)
    &&& exists|k: int|
        0 <= k < directory.len() && (#[trigger] directory[k]).url == url && !directory[k].callable
    &&& !s.claimed.contains(url)
}

/// What the subscriptions of a session come to: one for each URL that it may take,
/// none for any other and none twice, behind all that was queued; and just those
/// URLs are claimed.
pub open spec fn takes_its_urls(
    s: StateView,
    idx: int,
    directory: Seq<EntryView>,
    u: StateView,
) -> bool {
    &&& s.outbound.is_prefix_of(u.outbound)
    &&& forall|url: Seq<char>| #[trigger]
        may_take(s, directory, url) ==> exists|p: int|
            s.outbound.len() <= p < u.outbound.len() && subscribes(
                s,
                idx,
                url,
                #[trigger] u.outbound[p],
            )
    &&& exists|urls: Seq<Seq<char>>|
        #![trigger urls.no_duplicates()]
        urls.no_duplicates() && urls.len() == u.outbound.len() - s.outbound.len() && forall|
            p: int,
        |
            0 <= p < urls.len() ==> may_take(s, directory, #[trigger] urls[p]) && subscribes(
                s,
                idx,
                urls[p],
                u.outbound[s.outbound.len() + p],
            )
    &&& forall|url: Seq<char>| #[trigger]
        u.claimed.contains(url) <==> s.claimed.contains(url) || may_take(s, directory, url)
}

proof fn lemma_may_take(s: StateView, directory: Seq<EntryView>, url: Seq<char>)
    ensures
        may_take(s, directory, url) <==> wanted(
            s.subscribe_urls,
            directory,
            s.claimed,
        ).contains(url),
        may_take(s, directory, url) <==> s.takes_urls(directory).contains(url),
{
    let taken = wanted(s.subscribe_urls, directory, s.claimed);
    if may_take(s, directory, url) {
        let i = choose|i: int|
            0 <= i < s.subscribe_urls.len() && (#[trigger] s.subscribe_urls[i] == url
                || s.subscribe_urls[i] == "*"@);
        let k = choose|k: int|
            0 <= k < directory.len() && (#[trigger] directory[k]).url == url
                && !directory[k].callable;
        law_every_configured_url_is_taken(s.subscribe_urls, directory, s.claimed, i, k);
    }
    if taken.contains(url) || s.takes_urls(directory).contains(url) {
        law_only_configured_urls_are_taken(s.subscribe_urls, directory, s.claimed, url);
    }
}

/// A session that is ready subscribes to every URL that it may take.
pub proof fn law_session_takes_its_urls(s: StateView, idx: int, m: MachineView, ids: Seq<u32>)
    requires
        s.inv(),
        0 <= idx < s.sessions.len(),
        s.sessions[idx].link == LinkView::Running(m),
        m.phase == Phase::Ready,
    ensures
        takes_its_urls(s, idx, m.directory, s.after_subscribing(idx, m, ids)),
        s.after_subscribing(idx, m, ids) == (StateView {
            sessions: s.after_subscribing(idx, m, ids).sessions,
            outbound: s.after_subscribing(idx, m, ids).outbound,
            recently_sent: s.after_subscribing(idx, m, ids).recently_sent,
            claimed: s.after_subscribing(idx, m, ids).claimed,
            ..s
        }),
        forall|j: int|
            0 <= j < s.sessions.len() ==> (#[trigger] s.after_subscribing(
                idx,
                m,
                ids,
            ).sessions[j]).link == s.sessions[j].link,
        s.after_subscribing(idx, m, ids).sessions.len() == s.sessions.len(),
        (exists|url: Seq<char>| #[trigger] may_take(s, m.directory, url)) ==> s.after_subscribing(
            idx,
            m,
            ids,
        ).sessions == s.sessions.update(
            idx,
            SessionView { subscribed: true, ..s.sessions[idx] },
        ),
        (forall|url: Seq<char>| !#[trigger] may_take(s, m.directory, url)) ==> s.after_subscribing(
            idx,
            m,
            ids,
        ) == s,
{
    let u = s.after_subscribing(idx, m, ids);
    let urls = s.takes_urls(m.directory);
    let sid = s.sessions[idx].session_id;
    let taken = wanted(s.subscribe_urls, m.directory, s.claimed);
    assert(s.sessions[idx].settled());
    assert forall|url: Seq<char>|
        (#[trigger] may_take(s, m.directory, url) <==> urls.contains(url)) && (may_take(
            s,
            m.directory,
            url,
        ) <==> taken.contains(url)) by {
        lemma_may_take(s, m.directory, url);
    }
    law_each_url_is_subscribed_once(m.directory, taken);
    lemma_wanted_is_subscribable(m.directory, taken);
    let frames = subscribe_frames(ids, urls, s.subscribe_ival_ms, true);
    let packets = statement_packets(s.channel, sid, frames);
    if urls.len() == 0 {
        assert(u == s);
        assert(s.outbound + packets =~= s.outbound);
    } else {
        let w = MachineView {
            out: m.out + subscribe_frames(ids, urls, s.subscribe_ival_ms, m.timestamps),
            ..m
        };
        assert(w.out =~= frames);
        let q = s.with_machine(idx, w);
        lemma_sent_all(q.drained(idx), sid, w.out);
        assert(u.sessions[idx].link == LinkView::Running(MachineView { out: Seq::empty(), ..w }));
        assert(m.out =~= Seq::empty());
        assert(MachineView { out: Seq::empty(), ..w } == m);
    }
    assert(u.outbound == s.outbound + packets);
    assert(s.outbound =~= u.outbound.subrange(0, s.outbound.len() as int));
    assert forall|p: int| 0 <= p < urls.len() implies subscribes(
        s,
        idx,
        #[trigger] urls[p],
        u.outbound[s.outbound.len() + p],
    ) && may_take(s, m.directory, urls[p]) by {
        let body = subscribe_body(urls[p], s.subscribe_ival_ms, true);
        assert(urls.contains(urls[p]));
        assert(u.outbound[s.outbound.len() + p] == packets[p]);
        assert(packets[p] == request_packet(s, idx, ids[p], body));
        law_requests_are_wrapped(s, idx, ids[p], body);
        assert(carries(
            packets[p],
            s.channel,
            subscription_text(sid, ids[p], urls[p], s.subscribe_ival_ms),
        ));
    }
    assert forall|url: Seq<char>| #[trigger] may_take(s, m.directory, url) implies exists|p: int|
        s.outbound.len() <= p < u.outbound.len() && subscribes(
            s,
            idx,
            url,
            #[trigger] u.outbound[p],
        ) by {
        let k = choose|k: int| 0 <= k < urls.len() && urls[k] == url;
        assert(subscribes(s, idx, urls[k], u.outbound[s.outbound.len() + k]));
    }
    assert(urls.no_duplicates());
    if urls.len() > 0 {
        assert(may_take(s, m.directory, urls[0])) by {
            assert(urls.contains(urls[0]));
        }
        assert(u.sessions =~= s.sessions.update(
            idx,
            SessionView { subscribed: true, ..s.sessions[idx] },
        ));
    }
    assert forall|url: Seq<char>| #[trigger]
        u.claimed.contains(url) <==> s.claimed.contains(url) || may_take(
            s,
            m.directory,
            url,
        ) by {
        assert(may_take(s, m.directory, url) <==> taken.contains(url));
    }
}

/// A session that is not ready sends and claims nothing, and where there is a URL
/// that it may take, that is logged.
pub proof fn law_session_that_is_not_ready_takes_nothing(
    s: StateView,
    idx: int,
    m: MachineView,
    ids: Seq<u32>,
)
    requires
        m.phase != Phase::Ready,
    ensures
        (exists|url: Seq<char>| #[trigger] may_take(s, m.directory, url)) ==> s.after_subscribing(
            idx,
            m,
            ids,
        ) == (StateView {
            log: s.log.push(
                NoticeView::SubscribeRefused { cred: s.sessions[idx].cred, phase: m.phase },
            ),
            ..s
        }),
        (forall|url: Seq<char>| !#[trigger] may_take(s, m.directory, url)) ==> s.after_subscribing(
            idx,
            m,
            ids,
        ) == s,
{
    let urls = s.takes_urls(m.directory);
    assert forall|url: Seq<char>| #[trigger]
        may_take(s, m.directory, url) <==> urls.contains(url) by {
        lemma_may_take(s, m.directory, url);
    }
    if urls.len() > 0 {
        assert(urls.contains(urls[0]));
        assert(may_take(s, m.directory, urls[0]));
    }
}

/// The web UI is told of the directory of a session.
pub open spec fn tells_directory(
    s: StateView,
    idx: int,
    directory: Seq<EntryView>,
    e: EffectView,
) -> bool {
    e matches EffectView::Directory(r) && stands(
        r.connection,
        s.sessions[idx].cred,
        "active"@,
        false,
    ) && r.urls == directory
}

/// A session read its directory: it is ready, it took its URLs, the web UI was told,
/// and nothing else was done.
pub open spec fn directory_read(
    s: StateView,
    idx: int,
    directory: Seq<EntryView>,
    u: StateView,
) -> bool {
    &&& takes_its_urls(s, idx, directory, u)
    &&& u.effects.len() == s.effects.len() + 1
    &&& u.effects.drop_last() == s.effects
    &&& tells_directory(s, idx, directory, u.effects.last())
    &&& u.sessions.len() == s.sessions.len()
    &&& u.sessions[idx].link matches LinkView::Running(w) && w.phase == Phase::Ready && w.directory
        == directory
    &&& forall|j: int|
        0 <= j < s.sessions.len() && j != idx ==> #[trigger] u.sessions[j] == s.sessions[j]
    &&& u == (StateView {
        sessions: u.sessions,
        outbound: u.outbound,
        recently_sent: u.recently_sent,
        claimed: u.claimed,
        effects: u.effects,
        log: u.log,
        ..s
    })
}

/// The directory that an answer lists, or that of the session where it lists none.
pub open spec fn directory_after(m: MachineView, msg: Seq<char>) -> Seq<EntryView> {
    if listed_entries(msg).len() > 0 {
        listed_entries(msg)
    } else {
        m.directory
    }
}

/// A directory answer, however long, makes its session ready with the directory
/// that it lists, subscribes to every URL that the session may take, tells the web
/// UI, and connects the next session.
pub proof fn law_directory_answer_subscribes(
    s: StateView,
    idx: int,
    m: MachineView,
    msg: Seq<char>,
    t: StateView,
    k: int,
)
    requires
        s.inv(),
        0 <= idx < s.sessions.len(),
        s.sessions[idx].link == LinkView::Running(m),
        m.phase == Phase::Directory,
        !any_phase(msg),
        answers_directory(m, msg),
        s.feeds(idx, msg, t),
    ensures
        exists|u: StateView| #[trigger] directory_read(s, idx, directory_after(m, msg), u) && (
        is_next(s, k) ==> connects(u, k, t)) && (none_is_next(s) ==> t == u),
{
    let (w, events) = choose|w: MachineView, events: Option<Seq<EventView>>|
        #[trigger] s.fed_with(idx, m, msg, w, events, t);
    assert(s.sessions[idx].settled());
    let list = seq![EventView::Directory];
    assert(list[0] == EventView::Directory);
    assert(events == Some(list));
    let (id, cn) = choose|id: u32, cn: Seq<char>| #[trigger]
        answered(m, w, msg, id, cn, auth_digest(m.cred, nonce_text(msg), cn));
    let q = s.with_machine(idx, w);
    assert(w.out == Seq::<Seq<char>>::empty());
    assert(q.drained(idx).sessions =~= q.sessions);
    assert(q.flushed(idx) == q);
    assert(q.sessions[idx].link == LinkView::Running(w));
    lemma_machine_replaced(s, idx, w);
    assert(q.drained(idx) == q);
    let ids = choose|ids: Seq<u32>| #[trigger] q.after_directory(idx, w, ids).starts(t);
    lemma_directory_read(s, idx, m, w, ids);
    assert(w.directory == directory_after(m, msg));
    let u = q.after_directory(idx, w, ids);
    assert forall|j: int| 0 <= j < s.sessions.len() implies ((
    #[trigger] u.sessions[j]).link is Pending <==> s.sessions[j].link is Pending) && (
    u.sessions[j].link is WaitConnReturn <==> s.sessions[j].link is WaitConnReturn) by {
        if j != idx {
            assert(u.sessions[j] == s.sessions[j]);
        }
    }
    if is_next(s, k) {
        assert(u.sessions[k].link is Pending);
        assert(is_next(u, k));
        law_next_session_is_connected(u, k, t);
    }
    if none_is_next(s) {
        lemma_none_is_next(s, u);
        law_none_is_connected_out_of_turn(u, t);
    }
}

proof fn lemma_none_is_next(s: StateView, u: StateView)
    requires
        none_is_next(s),
        u.sessions.len() == s.sessions.len(),
        forall|j: int|
            0 <= j < s.sessions.len() ==> ((#[trigger] u.sessions[j]).link is Pending
                <==> s.sessions[j].link is Pending) && (u.sessions[j].link is WaitConnReturn
                <==> s.sessions[j].link is WaitConnReturn),
    ensures
        none_is_next(u),
{
    if exists|j: int|
        0 <= j < s.sessions.len() && (#[trigger] s.sessions[j]).link is WaitConnReturn {
        let j = choose|j: int|
            0 <= j < s.sessions.len() && (#[trigger] s.sessions[j]).link is WaitConnReturn;
        assert(u.sessions[j].link is WaitConnReturn);
    }
}

proof fn lemma_directory_read(
    s: StateView,
    idx: int,
    m: MachineView,
    w: MachineView,
    ids: Seq<u32>,
)
    requires
        0 <= idx < s.sessions.len(),
        s.sessions[idx].link == LinkView::Running(m),
        s.with_machine(idx, w).inv(),
        w.phase == Phase::Ready,
    ensures
        directory_read(s, idx, w.directory, s.with_machine(idx, w).after_directory(idx, w, ids)),
{
    let q = s.with_machine(idx, w);
    let d = q.debugged(q.directory_line(idx, w));
    assert(d.inv());
    law_session_takes_its_urls(d, idx, w, ids);
    let v = d.after_subscribing(idx, w, ids);
    let u = q.after_directory(idx, w, ids);
    assert(u == v.told(EffectView::Directory(q.directory_report(idx, w))));
    lemma_same_takes(s, d, idx, w.directory, v, u);
    assert(u.effects.drop_last() =~= s.effects);
    assert(v.sessions[idx].link == d.sessions[idx].link);
    let urls = d.takes_urls(w.directory);
    assert forall|url: Seq<char>| #[trigger]
        may_take(d, w.directory, url) <==> urls.contains(url) by {
        lemma_may_take(d, w.directory, url);
    }
    assert forall|j: int| 0 <= j < s.sessions.len() && j != idx implies #[trigger] u.sessions[j]
        == s.sessions[j] by {
        if urls.len() > 0 {
            assert(urls.contains(urls[0]));
            assert(may_take(d, w.directory, urls[0]));
        }
        assert(v.sessions[j] == d.sessions[j]);
    }
}

/// What a session takes is told from the settings, the claims and what is queued.
proof fn lemma_same_takes(
    s: StateView,
    d: StateView,
    idx: int,
    directory: Seq<EntryView>,
    v: StateView,
    u: StateView,
)
    requires
        takes_its_urls(d, idx, directory, v),
        d.outbound == s.outbound,
        d.channel == s.channel,
        d.claimed == s.claimed,
        d.subscribe_urls == s.subscribe_urls,
        d.subscribe_ival_ms == s.subscribe_ival_ms,
        d.sessions[idx].session_id == s.sessions[idx].session_id,
        u.outbound == v.outbound,
        u.claimed == v.claimed,
    ensures
        takes_its_urls(s, idx, directory, u),
{
    assert forall|url: Seq<char>| #[trigger]
        may_take(d, directory, url) == may_take(s, directory, url) by {}
    assert forall|url: Seq<char>, p: PacketView|
        #![trigger subscribes(s, idx, url, p)]
        #![trigger subscribes(d, idx, url, p)]
        subscribes(d, idx, url, p) == subscribes(s, idx, url, p) by {}
    let urls = choose|urls: Seq<Seq<char>>|
        #![trigger urls.no_duplicates()]
        urls.no_duplicates() && urls.len() == v.outbound.len() - d.outbound.len() && forall|p: int|
            0 <= p < urls.len() ==> may_take(d, directory, #[trigger] urls[p]) && subscribes(
                d,
                idx,
                urls[p],
                v.outbound[d.outbound.len() + p],
            );
    assert(urls.no_duplicates());
    assert forall|url: Seq<char>| #[trigger] may_take(s, directory, url) implies exists|p: int|
        s.outbound.len() <= p < u.outbound.len() && subscribes(
            s,
            idx,
            url,
            #[trigger] u.outbound[p],
        ) by {
        assert(may_take(d, directory, url));
        let p = choose|p: int|
            d.outbound.len() <= p < v.outbound.len() && subscribes(
                d,
                idx,
                url,
                #[trigger] v.outbound[p],
            );
        assert(subscribes(s, idx, url, u.outbound[p]));
    }
    assert forall|p: int| 0 <= p < urls.len() implies may_take(s, directory, #[trigger] urls[p])
        && subscribes(s, idx, urls[p], u.outbound[s.outbound.len() + p]) by {
        assert(may_take(d, directory, urls[p]));
        assert(subscribes(d, idx, urls[p], v.outbound[d.outbound.len() + p]));
    }
    assert forall|url: Seq<char>| #[trigger]
        u.claimed.contains(url) <==> s.claimed.contains(url) || may_take(s, directory, url) by {
        assert(v.claimed.contains(url) <==> d.claimed.contains(url) || may_take(
            d,
            directory,
            url,
        ));
    }
}

// -- Data ------------------------------------------------------------------------

/// The first reading with this name is at `k`.
pub open spec fn first_reading(d: DatView, name: Seq<char>, k: int) -> bool {
    &&& 0 <= k < d.readings.len()
    &&& d.readings[k].name == name
    &&& forall|j: int| 0 <= j < k ==> (#[trigger] d.readings[j]).name != name
}

/// Data gives a number under this URL and name: `raw`, as it was written.
pub open spec fn gives(d: DatView, url: Seq<char>, name: Seq<char>, raw: Seq<char>) -> bool {
    d.url == url && is_number(raw) && exists|k: int|
        #[trigger] first_reading(d, name, k) && d.readings[k].raw == raw
}

proof fn lemma_reading(d: DatView, name: Seq<char>, from: int)
    requires
        0 <= from,
    ensures
        match reading_named(d.readings, name, from) {
            Some(r) => exists|k: int|
                from <= k < d.readings.len() && #[trigger] d.readings[k] == r && r.name == name
                    && forall|j: int| from <= j < k ==> (#[trigger] d.readings[j]).name != name,
            None => forall|j: int|
                from <= j < d.readings.len() ==> (#[trigger] d.readings[j]).name != name,
        },
    decreases d.readings.len() - from,
{
    if from < d.readings.len() {
        if d.readings[from].name == name {
            assert(d.readings[from] == reading_named(d.readings, name, from)->0);
        } else {
            lemma_reading(d, name, from + 1);
            if let Some(r) = reading_named(d.readings, name, from + 1) {
                let k = choose|k: int|
                    from + 1 <= k < d.readings.len() && #[trigger] d.readings[k] == r && r.name
                        == name && forall|j: int|
                        from + 1 <= j < k ==> (#[trigger] d.readings[j]).name != name;
                assert(d.readings[k] == r);
            }
        }
    }
}

pub proof fn lemma_number(d: DatView, name: Seq<char>, raw: Seq<char>)
    ensures
        number_in(d, name) == Some(raw) <==> is_number(raw) && exists|k: int|
            #[trigger] first_reading(d, name, k) && d.readings[k].raw == raw,
{
    lemma_reading(d, name, 0);
    match reading_named(d.readings, name, 0) {
        Some(r) => {
            let k = choose|k: int|
                0 <= k < d.readings.len() && #[trigger] d.readings[k] == r && r.name == name
                    && forall|j: int| 0 <= j < k ==> (#[trigger] d.readings[j]).name != name;
            assert(first_reading(d, name, k));
            if exists|i: int| #[trigger] first_reading(d, name, i) && d.readings[i].raw == raw {
                let i = choose|i: int|
                    #[trigger] first_reading(d, name, i) && d.readings[i].raw == raw;
                assert(i == k) by {
                    if i < k {
                        assert(d.readings[i].name != name);
                    }
                    if k < i {
                        assert(d.readings[k].name != name);
                    }
                }
            }
        },
        None => {
            if exists|i: int| #[trigger] first_reading(d, name, i) && d.readings[i].raw == raw {
                let i = choose|i: int|
                    #[trigger] first_reading(d, name, i) && d.readings[i].raw == raw;
                assert(d.readings[i].name == name);
            }
        },
    }
}

/// The temperature outside is the last one that data gave, whatever it was before,
/// and other data leaves it as it is.
pub proof fn law_the_last_temperature_counts(s: StateView, d: DatView, raw: Seq<char>)
    ensures
        gives(d, "outsideTemperature"@, "temperature"@, raw) ==> s.with_data(d).outside_temp == Some(
            raw,
        ),
        (forall|x: Seq<char>| !#[trigger] gives(d, "outsideTemperature"@, "temperature"@, x))
            ==> s.with_data(d).outside_temp == s.outside_temp,
{
    lemma_number(d, "temperature"@, raw);
    if let Some(x) = temperature_in(d) {
        lemma_number(d, "temperature"@, x);
        assert(gives(d, "outsideTemperature"@, "temperature"@, x));
    }
}

/// The battery level is the last one that data gave, whatever it was before, and
/// other data leaves it as it is. A level is reported at once, with the last
/// temperature and the capacity; other data reports nothing.
pub proof fn law_the_last_level_counts_and_is_reported(s: StateView, d: DatView, raw: Seq<char>)
    ensures
        gives(d, "tankLevelPrimary"@, "level"@, raw) ==> {
            &&& s.with_data(d).tank_level == Some(raw)
            &&& s.with_data(d).effects.len() == s.effects.len() + 2
            &&& s.with_data(d).effects[s.effects.len() as int] == (EffectView::Battery {
                level: Some(raw),
                temperature: s.outside_temp,
                capacity_wh: s.battery_capacity_wh,
            })
        },
        (forall|x: Seq<char>| !#[trigger] gives(d, "tankLevelPrimary"@, "level"@, x)) ==> {
            &&& s.with_data(d).tank_level == s.tank_level
            &&& s.with_data(d).effects.len() == s.effects.len() + 1
        },
        s.effects.is_prefix_of(s.with_data(d).effects),
{
    lemma_number(d, "level"@, raw);
    if let Some(x) = level_in(d) {
        lemma_number(d, "level"@, x);
        assert(gives(d, "tankLevelPrimary"@, "level"@, x));
    }
    assert(s.effects =~= s.with_data(d).effects.subrange(0, s.effects.len() as int));
}

/// A change tells what data said: its URL, its readings, what is missing, its
/// state, and the stamp that it bears.
pub open spec fn tells(c: ChangeView, d: DatView) -> bool {
    &&& c.url == d.url
    &&& c.fields == d.readings
    &&& c.missing == d.missing
    &&& c.state == d.state
    &&& c.timestamp == first_attr(d.raw, "timeStamp"@)
}

/// Data is recorded under its URL, as the last of it, and the web UI is told of
/// just that; what is recorded under other URLs stays, and so does all else.
pub proof fn law_data_is_recorded_and_told(s: StateView, d: DatView, url: Seq<char>)
    ensures
        s.with_data(d).values.contains_key(d.url),
        tells(s.with_data(d).values[d.url], d),
        url != d.url ==> s.with_data(d).values.contains_key(url) == s.values.contains_key(url),
        url != d.url && s.values.contains_key(url) ==> s.with_data(d).values[url] == s.values[url],
        s.with_data(d).effects.last() matches EffectView::Changed(c) && tells(c, d),
        s.with_data(d) == (StateView {
            tank_level: s.with_data(d).tank_level,
            outside_temp: s.with_data(d).outside_temp,
            values: s.with_data(d).values,
            effects: s.with_data(d).effects,
            log: s.with_data(d).log,
            ..s
        }),
{
}

} // verus!
