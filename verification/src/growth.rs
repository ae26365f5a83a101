//! What a step of one session leaves alone: the settings, the other sessions,
//! and all that is already queued or logged.

use crate::nonce::is_session_id;
use crate::plan::wanted;
use crate::protocol::{
    awaiting_directory, failure, subscribe_frames, DatView, EventView, MachineView, Phase,
};
use crate::report::{is_verbose, EffectView, NoticeView};
use crate::state::{lemma_first_session, lemma_sent_all, LinkView, SessionView, StateView};
use vstd::prelude::*;

verus! {

impl StateView {
    /// What was logged still is, and no verbose line came to it unless the verbose
    /// log is on.
    pub open spec fn logs_on(self, t: StateView) -> bool {
        &&& self.log.len() <= t.log.len()
        &&& forall|i: int| 0 <= i < self.log.len() ==> #[trigger] t.log[i] == self.log[i]
        &&& !self.debug ==> forall|i: int|
            self.log.len() <= i < t.log.len() ==> !is_verbose(#[trigger] t.log[i])
    }

    /// `t` comes from this state by steps of session `idx`: the settings are the
    /// same, what was queued or logged still is, and the other sessions are the
    /// same but for what was pending and is now started.
    pub open spec fn grows(self, idx: int, t: StateView) -> bool {
        &&& t.channel == self.channel
        &&& t.buffer == self.buffer
        &&& t.creds == self.creds
        &&& t.battery_capacity_wh == self.battery_capacity_wh
        &&& t.subscribe_urls == self.subscribe_urls
        &&& t.subscribe_ival_ms == self.subscribe_ival_ms
        &&& t.debug == self.debug
        &&& self.logs_on(t)
        &&& self.outbound.is_prefix_of(t.outbound)
        &&& self.effects.is_prefix_of(t.effects)
        &&& self.claimed.subset_of(t.claimed)
        &&& self.connecting_started ==> t.connecting_started
        &&& t.sessions.len() == self.sessions.len()
        &&& forall|i: int|
            0 <= i < self.sessions.len() ==> (#[trigger] t.sessions[i]).cred
                == self.sessions[i].cred
        &&& forall|i: int|
            0 <= i < self.sessions.len() && i != idx ==> (#[trigger] t.sessions[i])
                == self.sessions[i] || (self.sessions[i].link is Pending && t.sessions[i].link
                is WaitConnReturn)
    }
}

/// One log goes on from another.
pub proof fn lemma_logs_on(a: StateView, b: StateView, c: StateView)
    requires
        a.logs_on(b),
        b.logs_on(c),
        b.debug == a.debug,
    ensures
        a.logs_on(c),
{
    assert forall|i: int| 0 <= i < c.log.len() implies (i < a.log.len() ==> #[trigger] c.log[i]
        == a.log[i]) && (!a.debug && i >= a.log.len() ==> !is_verbose(c.log[i])) by {
        if i < b.log.len() {
            assert(c.log[i] == b.log[i]);
        }
    }
}

proof fn lemma_grows_on(a: StateView, idx: int, b: StateView, c: StateView)
    requires
        a.grows(idx, b),
        b.grows(idx, c),
    ensures
        a.grows(idx, c),
{
    lemma_logs_on(a, b, c);
    assert(a.outbound =~= c.outbound.subrange(0, a.outbound.len() as int)) by {
        assert(b.outbound.subrange(0, a.outbound.len() as int) == a.outbound);
        assert(c.outbound.subrange(0, b.outbound.len() as int) == b.outbound);
    }
    assert(a.effects =~= c.effects.subrange(0, a.effects.len() as int)) by {
        assert(b.effects.subrange(0, a.effects.len() as int) == a.effects);
        assert(c.effects.subrange(0, b.effects.len() as int) == b.effects);
    }
    assert forall|i: int| 0 <= i < a.sessions.len() implies (#[trigger] c.sessions[i]).cred
        == a.sessions[i].cred && (i != idx ==> (c.sessions[i] == a.sessions[i] || (
    a.sessions[i].link is Pending && c.sessions[i].link is WaitConnReturn))) by {
        assert(b.sessions[i].cred == a.sessions[i].cred);
    }
}

proof fn lemma_told_grows(s: StateView, idx: int, e: EffectView)
    ensures
        s.grows(idx, s.told(e)),
{
    let t = s.told(e);
    assert(s.outbound =~= t.outbound.subrange(0, s.outbound.len() as int));
    assert(s.effects =~= t.effects.subrange(0, s.effects.len() as int));
}

proof fn lemma_same_grows(s: StateView, idx: int)
    ensures
        s.grows(idx, s),
{
    assert(s.outbound =~= s.outbound.subrange(0, s.outbound.len() as int));
    assert(s.effects =~= s.effects.subrange(0, s.effects.len() as int));
}

proof fn lemma_session_grows(s: StateView, idx: int, sess: SessionView)
    requires
        0 <= idx < s.sessions.len(),
        sess.cred == s.sessions[idx].cred,
    ensures
        s.grows(idx, s.with_session(idx, sess)),
{
    let t = s.with_session(idx, sess);
    assert(s.outbound =~= t.outbound.subrange(0, s.outbound.len() as int));
    assert(s.effects =~= t.effects.subrange(0, s.effects.len() as int));
}

proof fn lemma_flush_grows(s: StateView, idx: int)
    requires
        0 <= idx < s.sessions.len(),
    ensures
        s.grows(idx, s.flushed(idx)),
{
    match s.sessions[idx].link {
        LinkView::Running(m) => {
            let d = s.drained(idx);
            let t = s.flushed(idx);
            lemma_sent_all(d, s.sessions[idx].session_id, m.out);
            lemma_session_grows(
                s,
                idx,
                SessionView {
                    link: LinkView::Running(MachineView { out: Seq::empty(), ..m }),
                    ..s.sessions[idx]
                },
            );
            assert(d.outbound =~= t.outbound.subrange(0, d.outbound.len() as int));
            assert(d.effects =~= t.effects.subrange(0, d.effects.len() as int));
            assert(d.grows(idx, t));
            lemma_grows_on(s, idx, d, t);
        },
        _ => lemma_same_grows(s, idx),
    }
}

/// To start the next session leaves the rest alone, but for that session.
pub proof fn lemma_start_grows(s: StateView, idx: int, t: StateView)
    requires
        s.starts(t),
    ensures
        s.grows(idx, t),
{
    let id = choose|id: Seq<char>|
        is_session_id(id) && t == #[trigger] s.started(id);
    lemma_first_session(s.sessions, 0, |x: SessionView| x.link is Pending);
    assert(s.outbound =~= t.outbound.subrange(0, s.outbound.len() as int));
    assert(s.effects =~= t.effects.subrange(0, s.effects.len() as int));
}

proof fn lemma_data_grows(s: StateView, idx: int, d: DatView)
    ensures
        s.grows(idx, s.with_data(d)),
{
    let t = s.with_data(d);
    assert(s.outbound =~= t.outbound.subrange(0, s.outbound.len() as int));
    assert(s.effects =~= t.effects.subrange(0, s.effects.len() as int));
}

/// A line of the log leaves the rest alone.
proof fn lemma_logged_grows(s: StateView, idx: int, n: NoticeView)
    requires
        !is_verbose(n),
    ensures
        s.grows(idx, s.logged(n)),
{
    lemma_same_grows(s, idx);
}

/// A line of the verbose log leaves the rest alone, and is only written where that
/// is on.
proof fn lemma_debugged_grows(s: StateView, idx: int, n: NoticeView)
    ensures
        s.grows(idx, s.debugged(n)),
{
    lemma_same_grows(s, idx);
}

proof fn lemma_subscribing_grows(s: StateView, idx: int, m: MachineView, ids: Seq<u32>)
    requires
        0 <= idx < s.sessions.len(),
        s.sessions[idx].link == LinkView::Running(m),
    ensures
        s.grows(idx, s.after_subscribing(idx, m, ids)),
{
    let u = s.after_subscribing(idx, m, ids);
    let urls = s.takes_urls(m.directory);
    if urls.len() > 0 && m.phase == Phase::Ready {
        let w = MachineView {
            out: m.out + subscribe_frames(ids, urls, s.subscribe_ival_ms, m.timestamps),
            ..m
        };
        let q = s.with_machine(idx, w);
        let v = q.flushed(idx);
        lemma_session_grows(
            s,
            idx,
            SessionView { link: LinkView::Running(w), ..s.sessions[idx] },
        );
        lemma_flush_grows(q, idx);
        lemma_grows_on(s, idx, q, v);
        let c = StateView {
            claimed: v.claimed.union(wanted(s.subscribe_urls, m.directory, s.claimed)),
            ..v
        };
        lemma_same_grows(v, idx);
        assert(v.grows(idx, c));
        lemma_grows_on(s, idx, v, c);
        let sess = SessionView { subscribed: true, ..v.sessions[idx] };
        lemma_session_grows(c, idx, sess);
        lemma_grows_on(s, idx, c, u);
    } else {
        lemma_same_grows(s, idx);
        lemma_logged_grows(
            s,
            idx,
            NoticeView::SubscribeRefused { cred: s.sessions[idx].cred, phase: m.phase },
        );
    }
}

proof fn lemma_directory_grows(s: StateView, idx: int, t: StateView)
    requires
        0 <= idx < s.sessions.len(),
        s.reads_directory(idx, t),
    ensures
        s.grows(idx, t),
{
    match s.sessions[idx].link {
        LinkView::Running(m) => {
            let ids = choose|ids: Seq<u32>| #[trigger] s.after_directory(idx, m, ids).starts(t);
            let d = s.debugged(s.directory_line(idx, m));
            let u = d.after_subscribing(idx, m, ids);
            lemma_debugged_grows(s, idx, s.directory_line(idx, m));
            lemma_subscribing_grows(d, idx, m, ids);
            lemma_grows_on(s, idx, d, u);
            let e = EffectView::Directory(s.directory_report(idx, m));
            lemma_told_grows(u, idx, e);
            lemma_grows_on(s, idx, u, u.told(e));
            lemma_start_grows(u.told(e), idx, t);
            lemma_grows_on(s, idx, u.told(e), t);
        },
        _ => lemma_same_grows(s, idx),
    }
}

proof fn lemma_authenticated_grows(s: StateView, idx: int, id: u32)
    requires
        0 <= idx < s.sessions.len(),
    ensures
        s.grows(idx, s.asked_directory(idx, id)),
{
    let t = s.asked_directory(idx, id);
    let d = s.debugged(NoticeView::Authenticated(s.sessions[idx].cred));
    let r = d.reported(idx);
    lemma_debugged_grows(s, idx, NoticeView::Authenticated(s.sessions[idx].cred));
    lemma_told_grows(d, idx, EffectView::Connection(d.sessions[idx].report()));
    lemma_grows_on(s, idx, d, r);
    match s.sessions[idx].link {
        LinkView::Running(m) => if m.phase == Phase::Ready {
            let w = awaiting_directory(m, id);
            let q = r.with_machine(idx, w);
            lemma_session_grows(
                r,
                idx,
                SessionView { link: LinkView::Running(w), ..r.sessions[idx] },
            );
            lemma_flush_grows(q, idx);
            lemma_grows_on(s, idx, r, q);
            lemma_grows_on(s, idx, q, t);
        } else {
            lemma_logged_grows(r, idx, t.log.last());
            lemma_grows_on(s, idx, r, t);
        },
        _ => {},
    }
}

proof fn lemma_event_grows(s: StateView, idx: int, event: EventView, t: StateView)
    requires
        0 <= idx < s.sessions.len(),
        s.acts_on(idx, event, t),
    ensures
        s.grows(idx, t),
{
    match event {
        EventView::Authenticated => {
            let id = choose|id: u32| t == #[trigger] s.asked_directory(idx, id);
            lemma_authenticated_grows(s, idx, id);
        },
        EventView::Directory => lemma_directory_grows(s, idx, t),
        EventView::Data(d) => lemma_data_grows(s, idx, d),
        EventView::Reply { id, xml } => {
            if t.sessions != s.sessions || t.effects != s.effects {
                let d = s.debugged(NoticeView::LimitReached(s.sessions[idx].cred));
                let sess = SessionView { subscription_limit_reached: true, ..s.sessions[idx] };
                let q = d.with_session(idx, sess);
                lemma_debugged_grows(s, idx, NoticeView::LimitReached(s.sessions[idx].cred));
                lemma_session_grows(d, idx, sess);
                lemma_grows_on(s, idx, d, q);
                lemma_told_grows(q, idx, EffectView::Connection(q.sessions[idx].report()));
                lemma_grows_on(s, idx, q, t);
            } else {
                lemma_same_grows(s, idx);
            }
        },
        EventView::Other(_) => lemma_same_grows(s, idx),
    }
}

/// To feed a session leaves the rest alone.
pub proof fn lemma_feed_grows(s: StateView, idx: int, msg: Seq<char>, t: StateView)
    requires
        0 <= idx < s.sessions.len(),
        s.feeds(idx, msg, t),
    ensures
        s.grows(idx, t),
{
    match s.sessions[idx].link {
        LinkView::Running(m) => {
            let (w, events) = choose|w: MachineView, events: Option<Seq<EventView>>|
                #[trigger] s.fed_with(idx, m, msg, w, events, t);
            match events {
                None => {
                    let reason = failure(m, msg)->0;
                    let a = s.logged(
                        NoticeView::SessionFailed { cred: s.sessions[idx].cred, reason },
                    );
                    let sess = SessionView { link: LinkView::Failed, ..s.sessions[idx] };
                    let b = a.with_session(idx, sess);
                    let c = s.after_failure(idx, reason);
                    lemma_logged_grows(s, idx, a.log.last());
                    lemma_session_grows(a, idx, sess);
                    lemma_grows_on(s, idx, a, b);
                    lemma_told_grows(b, idx, EffectView::Connection(b.sessions[idx].report()));
                    lemma_grows_on(s, idx, b, c);
                    lemma_start_grows(c, idx, t);
                    lemma_grows_on(s, idx, c, t);
                },
                Some(list) => {
                    let q = s.with_machine(idx, w);
                    let u = q.flushed(idx);
                    lemma_session_grows(
                        s,
                        idx,
                        SessionView { link: LinkView::Running(w), ..s.sessions[idx] },
                    );
                    lemma_flush_grows(q, idx);
                    lemma_grows_on(s, idx, q, u);
                    if list.len() > 0 {
                        lemma_event_grows(u, idx, list[0], t);
                        lemma_grows_on(s, idx, u, t);
                    }
                },
            }
        },
        _ => lemma_same_grows(s, idx),
    }
}

} // verus!
