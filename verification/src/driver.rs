//! Driving the sessions: a message goes into a session's machine, and what it
//! meant is acted on.

use crate::frame::{unwrap_statement, unwrapped};
use crate::nonce::is_session_id;
use crate::plan::{
    data_urls, lemma_offered_len, offered, pick_urls, subscribable, wanted, wanted_urls,
};
use crate::protocol::{
    attr, awaiting_directory, dat_document, entries, error_text, failure, feed_message, feedable,
    first_attr, is_any_phase, is_number, machine_directory, machine_view, meaning, open_dat,
    phase_name, reads_as_number, reply_status, request_frame, rsp_status, subscribe_body,
    subscribe_frames, takes, user_name, user_names, DatMessage, DatView, Entry, EntryView,
    EventView, MachineView, Phase, ReadingView, SessionEvent,
};
use crate::report::{
    change_of, copy_text, excerpt, excerpt_of, keep_change, Change, ConnectionReport,
    ConnectionView, Effect, EffectView, Notice, NoticeView, SessionReport, SessionReportView,
};
use crate::state::{
    push_connection_state, try_start_next_session, ExlapState, LinkView, SessionState, SessionView,
    StateView,
};
use crate::text::{chars_of, find_text, owned, same_text, text_between, text_opt, texts};
use vstd::hash_set::StringHashSet;
use vstd::prelude::*;

verus! {

// -- Data ------------------------------------------------------------------------

/// The first reading with a name.
pub open spec fn reading_named(list: Seq<ReadingView>, name: Seq<char>, from: int) -> Option<
    ReadingView,
>
    decreases list.len() - from,
{
    if from < 0 || from >= list.len() {
        None
    } else if list[from].name == name {
        Some(list[from])
    } else {
        reading_named(list, name, from + 1)
    }
}

/// The number that a message gives for a name, as it was written.
pub open spec fn number_in(d: DatView, name: Seq<char>) -> Option<Seq<char>> {
    match reading_named(d.readings, name, 0) {
        Some(r) => if is_number(r.raw) {
            Some(r.raw)
        } else {
            None
        },
        None => None,
    }
}

/// Reads the number that a message gives for a name, as it was written.
pub fn read_number(dat: &DatMessage, name: &str) -> (r: Option<String>)
    ensures
        text_opt(r) == number_in(dat@, name@),
{
    let mut i: usize = 0;
    while i < dat.readings.len()
        invariant
            i <= dat.readings@.len(),
            reading_named(dat@.readings, name@, 0) == reading_named(
                dat@.readings,
                name@,
                i as int,
            ),
        decreases dat.readings@.len() - i,
    {
        assert(dat@.readings[i as int] == dat.readings@[i as int]@);
        if same_text(dat.readings[i].name.as_str(), name) {
            return if reads_as_number(dat.readings[i].raw.as_str()) {
                Some(dat.readings[i].raw.clone())
            } else {
                None
            };
        }
        i = i + 1;
    }
    None
}

/// The level of the battery that a message gives.
pub open spec fn level_in(d: DatView) -> Option<Seq<char>> {
    if d.url == "tankLevelPrimary"@ {
        number_in(d, "level"@)
    } else {
        None
    }
}

/// The temperature outside that a message gives.
pub open spec fn temperature_in(d: DatView) -> Option<Seq<char>> {
    if d.url == "outsideTemperature"@ {
        number_in(d, "temperature"@)
    } else {
        None
    }
}

/// The new value where there is one, else the old one.
pub open spec fn newer<T>(new: Option<T>, previous: Option<T>) -> Option<T> {
    match new {
        Some(_) => new,
        None => previous,
    }
}

impl StateView {
    /// The state after data arrived: it is recorded, a new battery level is
    /// reported, and the web UI is told of the change.
    pub open spec fn with_data(self, d: DatView) -> StateView {
        let change = change_of(d, first_attr(d.raw, "timeStamp"@));
        let level = level_in(d);
        let noted = match level {
            Some(x) => self.debugged(NoticeView::TankLevel(x)),
            None => match temperature_in(d) {
                Some(x) => self.debugged(NoticeView::OutsideTemperature(x)),
                None => self,
            },
        };
        let t = StateView {
            tank_level: newer(level, self.tank_level),
            outside_temp: newer(temperature_in(d), self.outside_temp),
            values: self.values.insert(d.url, change),
            ..noted
        };
        let u = if level is Some {
            t.told(
                EffectView::Battery {
                    level,
                    temperature: self.outside_temp,
                    capacity_wh: self.battery_capacity_wh,
                },
            )
        } else {
            t
        };
        u.told(EffectView::Changed(change))
    }
}

/// A parsed `<Dat>`: records it, reports the battery where its level came, and
/// tells the web UI of the change.
pub fn on_data(s: &mut ExlapState, dat: DatMessage)
    requires
        old(s).wf(),
    ensures
        final(s).wf(),
        final(s)@ == old(s)@.with_data(dat@),
{
    let ghost d = dat@;
    let mut ev_updated: bool = false;
    if same_text(dat.url.as_str(), "tankLevelPrimary") {
        match read_number(&dat, "level") {
            Some(level) => {
                s.debug_line(Notice::TankLevel(level.clone()));
                s.tank_level = Some(level);
                ev_updated = true;
            },
            None => {},
        }
    } else if same_text(dat.url.as_str(), "outsideTemperature") {
        match read_number(&dat, "temperature") {
            Some(t) => {
                s.debug_line(Notice::OutsideTemperature(t.clone()));
                s.outside_temp = Some(t);
            },
            None => {},
        }
    }
    proof {
        reveal_strlit("tankLevelPrimary");
        reveal_strlit("outsideTemperature");
        assert("tankLevelPrimary"@.len() != "outsideTemperature"@.len());
    }
    let timestamp: Option<String> = attr(dat.raw.as_str(), "timeStamp");
    let change: Change = Change {
        url: dat.url,
        fields: dat.readings,
        missing: dat.missing,
        state: dat.state,
        timestamp,
    };
    let ghost told_of = change@;
    assert(told_of == change_of(d, first_attr(d.raw, "timeStamp"@)));
    keep_change(&mut s.current_values, change.copy());
    if ev_updated {
        let level: Option<String> = copy_text(&s.tank_level);
        let temperature: Option<String> = copy_text(&s.outside_temp);
        let capacity_wh: Option<u64> = s.battery_capacity_wh;
        s.tell(Effect::Battery { level, temperature, capacity_wh });
    }
    s.tell(Effect::Changed(change));
    assert(s@ =~= old(s)@.with_data(d));
    assert(s@.inv());
}

/// The state after a `<Dat>` of a foreign session was read, if the frame holds
/// one.
pub open spec fn harvested(s: StateView, xml: Seq<char>) -> StateView {
    match dat_document(unwrapped(xml)) {
        Some(d) => s.with_data(d),
        None => s,
    }
}

/// Reads a `<Dat>` out of a session that is not ours, an orphan or a client on
/// the phone, so that a measurement on the shared channel is not wasted.
pub fn harvest_foreign(s: &mut ExlapState, xml: &str)
    requires
        old(s).wf(),
    ensures
        final(s).wf(),
        final(s)@ == harvested(old(s)@, xml@),
{
    let inner: String = unwrap_statement(xml);
    match exlap::parse_dat(inner.as_str()) {
        Some(d) => on_data(s, open_dat(d)),
        None => {},
    }
}

// -- Machines --------------------------------------------------------------------

/// Two machines of one credential, set up alike.
pub open spec fn same_setup(m: MachineView, w: MachineView) -> bool {
    m.cred == w.cred && m.heartbeat == w.heartbeat && m.timestamps == w.timestamps && m.own_cnonce
        == w.own_cnonce
}

/// The invariant holds, once what waits is sent, after a machine was replaced by
/// one that is set up alike.
pub proof fn lemma_machine_replaced(s: StateView, idx: int, w: MachineView)
    requires
        s.inv(),
        0 <= idx < s.sessions.len(),
        s.sessions[idx].link matches LinkView::Running(m) && same_setup(m, w),
    ensures
        s.with_machine(idx, w).drained(idx).inv(),
{
    let t = s.with_machine(idx, w).drained(idx);
    assert forall|i: int| 0 <= i < t.sessions.len() implies {
        &&& (#[trigger] t.sessions[i]).settled()
        &&& t.sessions[i].cred < user_names().len()
        &&& (t.sessions[i].is_open() ==> is_session_id(t.sessions[i].session_id))
        &&& (t.sessions[i].link is WaitConnReturn <==> s.sessions[i].link is WaitConnReturn)
        &&& (!t.connecting_started ==> t.sessions[i].link is Pending)
    } by {
        assert(s.sessions[i].settled());
        assert(s.sessions[idx].settled());
    }
}

/// To flush a session in which nothing waits changes nothing.
pub proof fn lemma_nothing_to_flush(s: StateView, idx: int)
    requires
        s.inv(),
        0 <= idx < s.sessions.len(),
    ensures
        s.flushed(idx) == s,
        s.drained(idx) == s,
{
    assert(s.sessions[idx].settled());
    assert(s.drained(idx) =~= s) by {
        match s.sessions[idx].link {
            LinkView::Running(m) => {
                assert(m.out == Seq::<Seq<char>>::empty());
            },
            _ => {},
        }
        assert(s.drained(idx).sessions =~= s.sessions);
    }
}

// -- A session's directory -------------------------------------------------------

impl StateView {
    /// The state after a session that has just authenticated was reported, and
    /// asked for its directory under `id`. A session that is not ready is not
    /// asked, and the refusal is logged.
    pub open spec fn asked_directory(self, idx: int, id: u32) -> StateView {
        let t = self.debugged(NoticeView::Authenticated(self.sessions[idx].cred)).reported(idx);
        match self.sessions[idx].link {
            LinkView::Running(m) => if m.phase == Phase::Ready {
                t.with_machine(idx, awaiting_directory(m, id)).flushed(idx)
            } else {
                t.logged(
                    NoticeView::DirectoryRefused {
                        cred: self.sessions[idx].cred,
                        reason: "protocol: cannot read the directory in phase "@ + phase_name(
                            m.phase,
                        ),
                    },
                )
            },
            _ => t,
        }
    }
}

/// A session has authenticated: reports it, and asks the server what its
/// credential exposes.
pub fn on_authenticated(s: &mut ExlapState, idx: usize)
    requires
        old(s).wf(),
        idx < old(s).sessions@.len(),
    ensures
        final(s).wf(),
        exists|id: u32| final(s)@ == #[trigger] old(s)@.asked_directory(idx as int, id),
{
    let cred: usize = s.cred(idx);
    s.debug_line(Notice::Authenticated(cred));
    push_connection_state(s, idx);
    let ghost before = s@;
    assert(before.sessions[idx as int] == s.sessions@[idx as int]@);
    proof {
        lemma_nothing_to_flush(before, idx as int);
    }
    let asked: Option<Result<u32, exlap::Error>> = match s.sessions[idx].machine() {
        Some(m) => Some(m.read_directory()),
        None => None,
    };
    let ghost id: u32 = match asked {
        Some(Ok(id)) => id,
        _ => 0,
    };
    match asked {
        Some(Ok(_)) => {
            proof {
                let m = before.sessions[idx as int].link->Running_0;
                let w = awaiting_directory(m, id);
                let now = before.with_machine(idx as int, w);
                assert(s@.sessions =~= now.sessions);
                assert(s@ =~= now);
                lemma_machine_replaced(before, idx as int, w);
            }
        },
        Some(Err(e)) => {
            proof {
                assert(s@.sessions =~= before.sessions);
                assert(s@ =~= before);
            }
            let reason: String = error_text(&e);
            s.log_line(Notice::DirectoryRefused { cred, reason });
            proof {
                lemma_nothing_to_flush(s@, idx as int);
            }
        },
        None => {
            proof {
                assert(s@.sessions =~= before.sessions);
                assert(s@ =~= before);
            }
        },
    }
    s.flush_machine(idx);
    assert(s@ == old(s)@.asked_directory(idx as int, id));
}

impl StateView {
    /// The URLs that a session with a directory subscribes to, in order.
    pub open spec fn takes_urls(self, directory: Seq<EntryView>) -> Seq<Seq<char>> {
        subscribable(directory, wanted(self.subscribe_urls, directory, self.claimed))
    }

    /// The state after a session with a directory subscribed, under these ids, to
    /// the URLs that it takes. Where it takes none, it sends nothing. Where it is
    /// not ready, it sends and claims nothing either, and that is logged.
    pub open spec fn after_subscribing(self, idx: int, m: MachineView, ids: Seq<u32>) -> StateView {
        let urls = self.takes_urls(m.directory);
        if urls.len() == 0 {
            self
        } else if m.phase == Phase::Ready {
            let t = self.with_machine(
                idx,
                MachineView {
                    out: m.out + subscribe_frames(ids, urls, self.subscribe_ival_ms, m.timestamps),
                    ..m
                },
            ).flushed(idx);
            StateView {
                claimed: t.claimed.union(
                    wanted(self.subscribe_urls, m.directory, self.claimed),
                ),
                ..t
            }.with_session(idx, SessionView { subscribed: true, ..t.sessions[idx] })
        } else {
            self.logged(
                NoticeView::SubscribeRefused { cred: self.sessions[idx].cred, phase: m.phase },
            )
        }
    }

    /// What the web UI is told of a session's directory.
    pub open spec fn directory_report(self, idx: int, m: MachineView) -> SessionReportView {
        SessionReportView {
            connection: ConnectionView {
                cred_idx: self.sessions[idx].cred,
                user: user_names()[self.sessions[idx].cred as int],
                connection_state: "active"@,
                subscription_limit_reached: false,
            },
            urls: m.directory,
        }
    }

    /// What the verbose log says of a session's directory.
    pub open spec fn directory_line(self, idx: int, m: MachineView) -> NoticeView {
        NoticeView::Exposes {
            cred: self.sessions[idx].cred,
            data: offered(m.directory).len() as usize,
            callable: (m.directory.len() - offered(m.directory).len()) as usize,
            subscribing: self.takes_urls(m.directory).len() as usize,
        }
    }

    /// The state after a session's directory was acted on, before the next
    /// session is started.
    pub open spec fn after_directory(self, idx: int, m: MachineView, ids: Seq<u32>) -> StateView {
        self.debugged(self.directory_line(idx, m)).after_subscribing(idx, m, ids).told(
            EffectView::Directory(self.directory_report(idx, m)),
        )
    }

    /// The directory of a session was acted on: it subscribed to what it takes,
    /// the web UI was told, and the next session was started.
    pub open spec fn reads_directory(self, idx: int, t: StateView) -> bool {
        match self.sessions[idx].link {
            LinkView::Running(m) => exists|ids: Seq<u32>| #[trigger]
                self.after_directory(idx, m, ids).starts(t),
            _ => t == self,
        }
    }
}

/// Adds the URLs of a list to those that are claimed.
fn claim_all(claimed: &mut StringHashSet, list: &Vec<String>)
    ensures
        final(claimed)@ == old(claimed)@.union(texts(list@).to_set()),
{
    let ghost all = texts(list@);
    let mut i: usize = 0;
    assert(claimed@ =~= old(claimed)@.union(all.take(0).to_set()));
    while i < list.len()
        invariant
            i <= list@.len(),
            all == texts(list@),
            claimed@ == old(claimed)@.union(all.take(i as int).to_set()),
        decreases list@.len() - i,
    {
        claimed.insert(list[i].clone());
        proof {
            let prev = all.take(i as int);
            let next = all.take(i + 1);
            assert(next == prev.push(all[i as int]));
            assert(next[i as int] == all[i as int]);
            assert forall|u: Seq<char>| next.contains(u) == (prev.contains(u) || u
                == all[i as int]) by {
                if prev.contains(u) {
                    let k = choose|k: int| 0 <= k < prev.len() && prev[k] == u;
                    assert(next[k] == u);
                }
                if next.contains(u) && u != all[i as int] {
                    let k = choose|k: int| 0 <= k < next.len() && next[k] == u;
                    assert(prev[k] == u);
                }
            }
            assert(claimed@ =~= old(claimed)@.union(next.to_set()));
        }
        i = i + 1;
    }
    assert(all.take(i as int) == all);
}

proof fn lemma_frames_push(
    ids: Seq<u32>,
    id: u32,
    urls: Seq<Seq<char>>,
    i: int,
    ival_ms: u32,
    stamp: bool,
)
    requires
        0 <= i < urls.len(),
        ids.len() == i,
    ensures
        subscribe_frames(ids.push(id), urls.take(i + 1), ival_ms, stamp) == subscribe_frames(
            ids,
            urls.take(i),
            ival_ms,
            stamp,
        ).push(request_frame(id, subscribe_body(urls[i], ival_ms, stamp))),
{
    assert(subscribe_frames(ids.push(id), urls.take(i + 1), ival_ms, stamp) =~= subscribe_frames(
        ids,
        urls.take(i),
        ival_ms,
        stamp,
    ).push(request_frame(id, subscribe_body(urls[i], ival_ms, stamp))));
}

/// Queues one subscription for each URL, in order.
pub fn subscribe_each(m: &mut exlap::Machine, urls: &Vec<String>, ival_ms: u32)
    ensures
        exists|ids: Seq<u32>|
            machine_view(*final(m)) == (MachineView {
                out: machine_view(*old(m)).out + #[trigger] subscribe_frames(
                    ids,
                    texts(urls@),
                    ival_ms,
                    machine_view(*old(m)).timestamps,
                ),
                ..machine_view(*old(m))
            }),
{
    let ghost v = machine_view(*m);
    let ghost all = texts(urls@);
    let ghost mut ids: Seq<u32> = Seq::empty();
    let mut i: usize = 0;
    proof {
        assert(v.out + subscribe_frames(ids, all.take(0), ival_ms, v.timestamps) =~= v.out);
    }
    while i < urls.len()
        invariant
            i <= urls@.len(),
            all == texts(urls@),
            ids.len() == i,
            v == machine_view(*old(m)),
            machine_view(*m) == (MachineView {
                out: v.out + subscribe_frames(ids, all.take(i as int), ival_ms, v.timestamps),
                ..v
            }),
        decreases urls@.len() - i,
    {
        let id: u32 = m.subscribe_one(urls[i].as_str(), ival_ms);
        proof {
            lemma_frames_push(ids, id, all, i as int, ival_ms, v.timestamps);
            ids = ids.push(id);
            assert(machine_view(*m).out =~= v.out + subscribe_frames(
                ids,
                all.take(i + 1),
                ival_ms,
                v.timestamps,
            ));
        }
        i = i + 1;
    }
    assert(all.take(i as int) == all);
    assert(machine_view(*m).out == v.out + subscribe_frames(ids, all, ival_ms, v.timestamps));
}

/// Subscribes a running session to the URLs that it takes: `urls` is in the order
/// of its directory, `taken` in any.
fn subscribe_wanted(s: &mut ExlapState, idx: usize, taken: &Vec<String>, urls: &Vec<String>)
    requires
        old(s).wf(),
        idx < old(s).sessions@.len(),
        old(s)@.sessions[idx as int].link matches LinkView::Running(m) && texts(taken@).to_set()
            == wanted(old(s)@.subscribe_urls, m.directory, old(s)@.claimed)
            && texts(urls@) == old(s)@.takes_urls(m.directory),
    ensures
        final(s).wf(),
        final(s).sessions@.len() == old(s).sessions@.len(),
        exists|ids: Seq<u32>|
            final(s)@ == #[trigger] old(s)@.after_subscribing(
                idx as int,
                old(s)@.sessions[idx as int].link->Running_0,
                ids,
            ),
{
    let ghost before = s@;
    let ghost m = before.sessions[idx as int].link->Running_0;
    let ghost claims = wanted(before.subscribe_urls, m.directory, before.claimed);
    assert(texts(urls@).len() == urls@.len());
    if urls.len() == 0 {
        assert(s@ == before.after_subscribing(idx as int, m, Seq::empty()));
        return;
    }
    let ival: u32 = s.subscribe_ival_ms;
    let cred: usize = s.cred(idx);
    assert(before.sessions[idx as int] == s.sessions@[idx as int]@);
    match s.sessions[idx].phase() {
        Some(Phase::Ready) => {},
        Some(phase) => {
            s.log_line(Notice::SubscribeRefused { cred, phase });
            assert(s@ == before.after_subscribing(idx as int, m, Seq::empty()));
            return;
        },
        None => return,
    }
    match s.sessions[idx].machine() {
        Some(machine) => subscribe_each(machine, urls, ival),
        None => {},
    }
    let ghost w = s@.sessions[idx as int].link->Running_0;
    let ghost ids = choose|ids: Seq<u32>|
        w == (MachineView {
            out: m.out + #[trigger] subscribe_frames(ids, texts(urls@), ival, m.timestamps),
            ..m
        });
    proof {
        let now = before.with_machine(idx as int, w);
        assert(s.sessions@[idx as int]@ == s@.sessions[idx as int]);
        assert(s@.sessions =~= now.sessions);
        assert(s@ =~= now);
        lemma_machine_replaced(before, idx as int, w);
    }
    s.flush_machine(idx);
    let ghost sent = s@;
    assert(sent.sessions.len() == s.sessions@.len());
    claim_all(&mut s.claimed, taken);
    s.sessions[idx].subscribed = true;
    proof {
        let t = StateView { claimed: sent.claimed.union(claims), ..sent }.with_session(
            idx as int,
            SessionView { subscribed: true, ..sent.sessions[idx as int] },
        );
        assert(s@.sessions =~= t.sessions);
        assert(s@ =~= t);
        assert(t == before.after_subscribing(idx as int, m, ids));
        assert forall|i: int| 0 <= i < t.sessions.len() implies (#[trigger] t.sessions[i]).link
            == sent.sessions[i].link && t.sessions[i].settled() by {
            assert(sent.sessions[i].settled());
        }
        assert(s@.inv());
    }
}

/// Once a session's directory arrives: subscribes it to the URLs that it takes,
/// those that no credential which came up earlier has claimed, tells the web UI,
/// and starts the next session.
pub fn on_directory(s: &mut ExlapState, idx: usize)
    requires
        old(s).wf(),
        idx < old(s).sessions@.len(),
    ensures
        final(s).wf(),
        old(s)@.reads_directory(idx as int, final(s)@),
{
    assert(s@.sessions[idx as int] == s.sessions@[idx as int]@);
    let directory: Vec<Entry> = match &s.sessions[idx].state {
        SessionState::Running(m) => machine_directory(m),
        _ => return,
    };
    let cred: usize = s.cred(idx);
    let ghost m = s@.sessions[idx as int].link->Running_0;
    let data: Vec<String> = data_urls(&directory);
    let taken: Vec<String> = wanted_urls(&s.subscribe_urls, &directory, &s.claimed);
    let urls: Vec<String> = pick_urls(&directory, &taken);
    proof {
        lemma_offered_len(m.directory);
        assert(entries(directory@).len() == directory@.len());
        assert(texts(data@).len() == data@.len());
        assert(texts(urls@).len() == urls@.len());
    }
    s.debug_line(
        Notice::Exposes {
            cred,
            data: data.len(),
            callable: directory.len() - data.len(),
            subscribing: urls.len(),
        },
    );
    let ghost noted = old(s)@.debugged(old(s)@.directory_line(idx as int, m));
    assert(s@ == noted);
    subscribe_wanted(s, idx, &taken, &urls);
    let ghost ids = choose|ids: Seq<u32>|
        s@ == #[trigger] noted.after_subscribing(idx as int, m, ids);
    let connection: ConnectionReport = ConnectionReport {
        cred_idx: cred,
        user: user_name(cred),
        connection_state: owned("active"),
        subscription_limit_reached: false,
    };
    s.tell(Effect::Directory(SessionReport { connection, urls: directory }));
    assert(s@ == old(s)@.after_directory(idx as int, m, ids));
    try_start_next_session(s);
}

// -- Messages --------------------------------------------------------------------

impl StateView {
    /// The state after a reply: where it says that the limit of subscriptions is
    /// reached, that is noted and the web UI is told. Any other status but that a
    /// request is being processed is only logged.
    pub open spec fn after_reply(self, idx: int, id: u32, xml: Seq<char>) -> StateView {
        let cred = self.sessions[idx].cred;
        match rsp_status(xml) {
            Some(status) => if status == "subscriptionLimitReached"@ {
                self.debugged(NoticeView::LimitReached(cred)).with_session(
                    idx,
                    SessionView { subscription_limit_reached: true, ..self.sessions[idx] },
                ).reported(idx)
            } else if status == "processing"@ {
                self
            } else {
                self.debugged(NoticeView::Replied { cred, id, word: status })
            },
            None => self,
        }
    }

    /// The state after a session failed, before the next one is started.
    pub open spec fn after_failure(self, idx: int, reason: Seq<char>) -> StateView {
        self.logged(
            NoticeView::SessionFailed { cred: self.sessions[idx].cred, reason },
        ).with_session(
            idx,
            SessionView { link: LinkView::Failed, ..self.sessions[idx] },
        ).reported(idx)
    }

    /// What a message meant to a session was acted on.
    pub open spec fn acts_on(self, idx: int, event: EventView, t: StateView) -> bool {
        match event {
            EventView::Authenticated => exists|id: u32|
                t == #[trigger] self.asked_directory(idx, id),
            EventView::Directory => self.reads_directory(idx, t),
            EventView::Data(d) => t == self.with_data(d),
            EventView::Reply { id, xml } => t == self.after_reply(idx, id, xml),
            EventView::Other(msg) => t == self.debugged(
                NoticeView::Received { cred: self.sessions[idx].cred, xml: excerpt_of(msg, 160) },
            ),
        }
    }

    /// The machine `m` of a session took a message and became `w`, what it wants
    /// sent was queued, and what the message meant was acted on. A session that
    /// fails on the message is given up, and the next one started.
    pub open spec fn fed_with(
        self,
        idx: int,
        m: MachineView,
        msg: Seq<char>,
        w: MachineView,
        events: Option<Seq<EventView>>,
        t: StateView,
    ) -> bool {
        &&& takes(m, msg, w, events)
        &&& match events {
            None => self.after_failure(idx, failure(m, msg)->0).starts(t),
            Some(list) => {
                let u = self.with_machine(idx, w).flushed(idx);
                if list.len() == 0 {
                    t == u
                } else {
                    u.acts_on(idx, list[0], t)
                }
            },
        }
    }

    /// A session was fed a message. One that is not running takes none.
    pub open spec fn feeds(self, idx: int, msg: Seq<char>, t: StateView) -> bool {
        match self.sessions[idx].link {
            LinkView::Running(m) => exists|w: MachineView, events: Option<Seq<EventView>>|
                #[trigger] self.fed_with(idx, m, msg, w, events, t),
            _ => t == self,
        }
    }

    /// A session can be fed a message.
    pub open spec fn can_feed(self, idx: int, msg: Seq<char>) -> bool {
        self.sessions[idx].link matches LinkView::Running(m) ==> feedable(m.phase, msg)
    }
}

/// Acts on what a message meant to a session.
fn act_on(s: &mut ExlapState, idx: usize, event: SessionEvent)
    requires
        old(s).wf(),
        idx < old(s).sessions@.len(),
    ensures
        final(s).wf(),
        old(s)@.acts_on(idx as int, event@, final(s)@),
{
    match event {
        SessionEvent::Authenticated => on_authenticated(s, idx),
        SessionEvent::Directory => on_directory(s, idx),
        SessionEvent::Data(d) => on_data(s, open_dat(d)),
        SessionEvent::Reply { id, xml } => on_reply(s, idx, id, xml.as_str()),
        SessionEvent::Other(msg) => {
            let cred: usize = s.cred(idx);
            s.debug_line(Notice::Received { cred, xml: excerpt(msg.as_str(), 160) });
        },
    }
}

/// A request of a session was answered.
pub fn on_reply(s: &mut ExlapState, idx: usize, id: u32, xml: &str)
    requires
        old(s).wf(),
        idx < old(s).sessions@.len(),
    ensures
        final(s).wf(),
        final(s)@ == old(s)@.after_reply(idx as int, id, xml@),
{
    let status: String = match reply_status(xml) {
        Some(status) => status,
        None => return,
    };
    let cred: usize = s.cred(idx);
    if same_text(status.as_str(), "subscriptionLimitReached") {
        s.debug_line(Notice::LimitReached(cred));
        let ghost before = s@;
        assert(before.sessions[idx as int] == s.sessions@[idx as int]@);
        s.sessions[idx].subscription_limit_reached = true;
        proof {
            let t = before.with_session(
                idx as int,
                SessionView { subscription_limit_reached: true, ..before.sessions[idx as int] },
            );
            assert(s@.sessions =~= t.sessions);
            assert(s@ =~= t);
            assert forall|i: int| 0 <= i < t.sessions.len() implies (
            #[trigger] t.sessions[i]).link == before.sessions[i].link
                && t.sessions[i].settled() by {
                assert(before.sessions[i].settled());
            }
            assert(s@.inv());
        }
        push_connection_state(s, idx);
    } else if !same_text(status.as_str(), "processing") {
        s.debug_line(Notice::Replied { cred, id, word: status });
    }
}

/// Gives up a session that failed, tells the host and the web UI, and starts the
/// next one.
fn give_up(s: &mut ExlapState, idx: usize, reason: String)
    requires
        old(s).wf_but(idx as int),
        old(s)@.sessions[idx as int].link is Running,
    ensures
        final(s).wf(),
        old(s)@.after_failure(idx as int, reason@).starts(final(s)@),
{
    let ghost before = s@;
    assert(before.sessions[idx as int] == s.sessions@[idx as int]@);
    let cred: usize = s.cred(idx);
    s.log_line(Notice::SessionFailed { cred, reason });
    s.sessions[idx].state = SessionState::Failed;
    proof {
        let d = before.drained(idx as int);
        let t = before.logged(
            NoticeView::SessionFailed { cred, reason: reason@ },
        ).with_session(
            idx as int,
            SessionView { link: LinkView::Failed, ..before.sessions[idx as int] },
        );
        assert(s@.sessions =~= t.sessions);
        assert(s@ =~= t);
        assert forall|i: int| 0 <= i < t.sessions.len() implies (#[trigger] t.sessions[i]).settled()
            && t.sessions[i].cred == d.sessions[i].cred && t.sessions[i].session_id
            == d.sessions[i].session_id && (i != idx ==> t.sessions[i] == d.sessions[i]) by {
            assert(d.sessions[i].settled());
        }
        assert(d.sessions[idx as int].link is Running);
        assert(s@.inv());
    }
    push_connection_state(s, idx);
    try_start_next_session(s);
}

/// Drives a session's machine with one message, queues what it wants sent, and
/// acts on what the message meant. Returns false where the session is not
/// running. The message is the content of an `<ExlapStatement>` or a bare
/// `<Status>`, never the wrapper.
pub fn feed_machine(s: &mut ExlapState, idx: usize, inner: &str) -> (r: bool)
    requires
        old(s).wf(),
        idx < old(s).sessions@.len(),
        old(s)@.can_feed(idx as int, inner@),
    ensures
        final(s).wf(),
        r == (old(s)@.sessions[idx as int].link is Running),
        old(s)@.feeds(idx as int, inner@, final(s)@),
{
    let ghost before = s@;
    let ghost m = before.sessions[idx as int].link->Running_0;
    assert(before.sessions[idx as int] == s.sessions@[idx as int]@);
    let outcome: Result<Option<SessionEvent>, String> = match s.sessions[idx].machine() {
        Some(machine) => feed_message(machine, inner),
        None => {
            proof {
                assert(s@.sessions =~= before.sessions);
                assert(s@ =~= before);
            }
            return false;
        },
    };
    let ghost events = meaning(outcome);
    let ghost w = s@.sessions[idx as int].link->Running_0;
    proof {
        let now = before.with_machine(idx as int, w);
        assert(s.sessions@[idx as int]@ == s@.sessions[idx as int]);
        assert(s@.sessions =~= now.sessions);
        assert(s@ =~= now);
        assert(takes(m, inner@, w, events));
        lemma_machine_replaced(before, idx as int, w);
    }
    match outcome {
        Err(reason) => {
            give_up(s, idx, reason);
            proof {
                let now = before.with_machine(idx as int, w);
                assert(now.after_failure(idx as int, reason@) =~= before.after_failure(
                    idx as int,
                    reason@,
                )) by {
                    assert(now.after_failure(idx as int, reason@).sessions
                        =~= before.after_failure(idx as int, reason@).sessions);
                }
                assert(before.fed_with(idx as int, m, inner@, w, events, s@));
            }
        },
        Ok(None) => {
            s.flush_machine(idx);
            assert(before.fed_with(idx as int, m, inner@, w, events, s@));
        },
        Ok(Some(event)) => {
            s.flush_machine(idx);
            act_on(s, idx, event);
            assert(before.fed_with(idx as int, m, inner@, w, events, s@));
        },
    }
    true
}

/// Whether a session in this phase takes a message.
pub fn takes_message(phase: Phase, msg: &str) -> (r: bool)
    ensures
        r == feedable(phase, msg@),
{
    match phase {
        Phase::Challenge => {
            if is_any_phase(msg) {
                return true;
            }
            let v: Vec<char> = chars_of(msg);
            match find_text(&v, &chars_of("<Challenge"), 0) {
                Some(at) => {
                    let rest: String = text_between(&v, at, v.len());
                    assert(rest@ == msg@.skip(at as int));
                    match attr(rest.as_str(), "nonce") {
                        Some(nonce) => {
                            let bytes: &[u8] = nonce.as_str().as_bytes();
                            bytes.len() <= 44 || nonce.as_str().is_char_boundary(44)
                        },
                        None => true,
                    }
                },
                None => true,
            }
        },
        _ => true,
    }
}

/// Feeds one unwrapped message to a session, if it can take it: a session that
/// awaits its challenge is left as it is where the nonce cannot be cut.
pub fn feed_session(s: &mut ExlapState, idx: usize, inner: &str)
    requires
        old(s).wf(),
        idx < old(s).sessions@.len(),
    ensures
        final(s).wf(),
        if old(s)@.can_feed(idx as int, inner@) {
            old(s)@.feeds(idx as int, inner@, final(s)@)
        } else {
            *final(s) == *old(s)
        },
{
    assert(s@.sessions[idx as int] == s.sessions@[idx as int]@);
    let takes: bool = match s.sessions[idx].phase() {
        Some(phase) => takes_message(phase, inner),
        None => true,
    };
    if takes {
        let _ = feed_machine(s, idx, inner);
    }
}

} // verus!
