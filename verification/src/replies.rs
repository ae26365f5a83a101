//! What the settings, the commands of the web UI, pings and goodbyes come to, told
//! from their text, the state before them and the state after them, and what the
//! host is handed.

use crate::channel::frame_kind;
use crate::command::{
    command_in, debug_quoted, json_document, params_in, Command, CommandView, Json,
};
use crate::config::{cred_list, settings_in, url_list, HostConfig, DEFAULT_CREDS};
use crate::hook::{created, get_body, unsubscribe_body};
use crate::laws::{lemma_ping_is_one, lemma_ping_step, request_packet};
use crate::outcomes::{
    carries, law_handshake_steps_change_nothing_else, law_requests_are_wrapped, lemma_kinds,
    request_text, stands, tells,
};
use crate::packet::{packets, Packet, PacketView};
use crate::protocol::{
    call_body, escaped, interface_body, is_over, machine_view, ping, request_frame, subscribe_body,
    with_request, DatView, EntryView, Kind, MachineView, Param, ParamView, Phase,
};
use crate::report::{
    by_url, changes, law_the_last_change_of_a_url_counts, Change, ChangeView, Effect, EffectView,
    NoticeView, SessionReport, SessionReportView,
};
use crate::state::{
    first_session, lemma_first_session, lemma_sent_all, statement_packets, ExlapState, LinkView,
    SessionState, SessionView, StateView,
};
use crate::text::{contains_text, decimal, parse_unsigned, text_opt};
use vstd::prelude::*;

verus! {

// -- Settings --------------------------------------------------------------------

/// The names of the settings differ.
pub proof fn lemma_names()
    ensures
        "exlap_creds"@ != "exlap_channel"@,
        "exlap_subscribe_urls"@ != "exlap_channel"@,
        "exlap_subscribe_urls"@ != "exlap_creds"@,
        "exlap_subscribe_ival_ms"@ != "exlap_channel"@,
        "exlap_subscribe_ival_ms"@ != "exlap_creds"@,
        "exlap_subscribe_ival_ms"@ != "exlap_subscribe_urls"@,
        "exlap_battery_capacity_wh"@ != "exlap_channel"@,
        "exlap_battery_capacity_wh"@ != "exlap_creds"@,
        "exlap_battery_capacity_wh"@ != "exlap_subscribe_urls"@,
        "exlap_battery_capacity_wh"@ != "exlap_subscribe_ival_ms"@,
        "exlap_debug"@ != "exlap_channel"@,
        "exlap_debug"@ != "exlap_creds"@,
        "exlap_debug"@ != "exlap_subscribe_urls"@,
        "exlap_debug"@ != "exlap_subscribe_ival_ms"@,
        "exlap_debug"@ != "exlap_battery_capacity_wh"@,
{
    reveal_strlit("exlap_channel");
    reveal_strlit("exlap_creds");
    reveal_strlit("exlap_subscribe_urls");
    reveal_strlit("exlap_subscribe_ival_ms");
    reveal_strlit("exlap_battery_capacity_wh");
    reveal_strlit("exlap_debug");
    assert("exlap_channel"@.len() == 13);
    assert("exlap_creds"@.len() == 11 && "exlap_creds"@[6] == 'c');
    assert("exlap_subscribe_urls"@.len() == 20);
    assert("exlap_subscribe_ival_ms"@.len() == 23);
    assert("exlap_battery_capacity_wh"@.len() == 25);
    assert("exlap_debug"@.len() == 11 && "exlap_debug"@[6] == 'd');
}

/// The channel and the interval are taken over where the text is a number that
/// fits, and the interval only where it is not zero; else they stay.
pub proof fn law_numbers_are_taken_over(s: StateView, value: Seq<char>)
    ensures
        ({
            let t = s.configured("exlap_channel"@, value);
            match parse_unsigned(value, 255) {
                Some(n) => t == (StateView { channel: n as u8, log: t.log, ..s }),
                None => t == s,
            }
        }),
        ({
            let t = s.configured("exlap_subscribe_ival_ms"@, value);
            match parse_unsigned(value, 0xFFFF_FFFF) {
                Some(n) => if n > 0 {
                    t == (StateView { subscribe_ival_ms: n as u32, log: t.log, ..s })
                } else {
                    t == s
                },
                None => t == s,
            }
        }),
{
    lemma_names();
}

/// The capacity is the number in the text; zero, or what is no number, stands for
/// none.
pub proof fn law_capacity_is_taken_over(s: StateView, value: Seq<char>)
    ensures
        ({
            let t = s.configured("exlap_battery_capacity_wh"@, value);
            &&& t == (StateView {
                battery_capacity_wh: t.battery_capacity_wh,
                log: t.log,
                ..s
            })
            &&& match parse_unsigned(value, 0xFFFF_FFFF_FFFF_FFFF) {
                Some(n) => if n > 0 {
                    t.battery_capacity_wh == Some(n as u64)
                } else {
                    t.battery_capacity_wh is None
                },
                None => t.battery_capacity_wh is None,
            }
        }),
{
    lemma_names();
}

/// The lists are taken over as they read, and the verbose log is switched on by
/// `true` or `1` and off by any other text. No other name is a setting.
pub proof fn law_other_settings_are_taken_over(s: StateView, name: Seq<char>, value: Seq<char>)
    ensures
        ({
            let t = s.configured("exlap_creds"@, value);
            t == (StateView { creds: cred_list(value), log: t.log, ..s })
        }),
        ({
            let t = s.configured("exlap_subscribe_urls"@, value);
            t == (StateView { subscribe_urls: url_list(value), log: t.log, ..s })
        }),
        ({
            let t = s.configured("exlap_debug"@, value);
            let on = value == "true"@ || value == "1"@;
            t == (StateView { debug: on, log: s.log.push(NoticeView::DebugSet(on)), ..s })
        }),
        name != "exlap_channel"@ && name != "exlap_creds"@ && name != "exlap_subscribe_urls"@
            && name != "exlap_subscribe_ival_ms"@ && name != "exlap_battery_capacity_wh"@ && name
            != "exlap_debug"@ ==> s.configured(name, value) == s,
{
    lemma_names();
}

/// The hook starts with what the host has configured; a setting that is missing or
/// cannot be read has its default. Nothing else has happened yet, and there is one
/// session for each credential, none of them started.
pub proof fn law_hook_starts_with_its_settings(cfg: HostConfig)
    ensures
        ({
            let s = created(settings_in(cfg));
            &&& s.channel == match text_opt(cfg.exlap_channel) {
                Some(text) => match parse_unsigned(text, 255) {
                    Some(n) => n as u8,
                    None => 126u8,
                },
                None => 126u8,
            }
            &&& s.creds == match text_opt(cfg.exlap_creds) {
                Some(text) => cred_list(text),
                None => seq![2usize, 1usize, 3usize, 0usize],
            }
            &&& s.subscribe_urls == match text_opt(cfg.exlap_subscribe_urls) {
                Some(text) => url_list(text),
                None => url_list("tankLevelPrimary,outsideTemperature"@),
            }
            &&& s.subscribe_ival_ms == match text_opt(cfg.exlap_subscribe_ival_ms) {
                Some(text) => match parse_unsigned(text, 0xFFFF_FFFF) {
                    Some(n) => if n > 0 {
                        n as u32
                    } else {
                        2000u32
                    },
                    None => 2000u32,
                },
                None => 2000u32,
            }
            &&& s.battery_capacity_wh == match text_opt(cfg.exlap_battery_capacity_wh) {
                Some(text) => match parse_unsigned(text, 0xFFFF_FFFF_FFFF_FFFF) {
                    Some(n) => if n > 0 {
                        Some(n as u64)
                    } else {
                        None
                    },
                    None => None,
                },
                None => None,
            }
            &&& s.debug == match text_opt(cfg.exlap_debug) {
                Some(text) => text == "true"@ || text == "1"@,
                None => false,
            }
            &&& s.sessions.len() == s.creds.len()
            &&& forall|i: int|
                0 <= i < s.creds.len() ==> (#[trigger] s.sessions[i]).cred == s.creds[i]
                    && s.sessions[i].link is Pending && s.sessions[i].session_id == ""@
                    && !s.sessions[i].subscribed && !s.sessions[i].subscription_limit_reached
            &&& !s.connecting_started
            &&& s.buffer.len() == 0
            &&& s.outbound.len() == 0
            &&& s.recently_sent.len() == 0
            &&& s.effects.len() == 0
            &&& s.claimed == Set::<Seq<char>>::empty()
            &&& s.values == Map::<Seq<char>, ChangeView>::empty()
            &&& s.tank_level is None
            &&& s.outside_temp is None
        }),
{
    assert(DEFAULT_CREDS@ =~= seq![2usize, 1usize, 3usize, 0usize]);
}

// -- The text of a command -------------------------------------------------------

/// An object has a string under a key.
pub open spec fn has_text_at(m: Map<Seq<char>, Json>, key: Seq<char>, text: Seq<char>) -> bool {
    m.contains_key(key) && m[key] == Json::Text(text)
}

/// An object has no string under a key.
pub open spec fn no_text_at(m: Map<Seq<char>, Json>, key: Seq<char>) -> bool {
    !m.contains_key(key) || !(m[key] is Text)
}

/// The verbs differ.
proof fn lemma_verbs()
    ensures
        "unsubscribe"@ != "subscribe"@,
        "get"@ != "subscribe"@,
        "get"@ != "unsubscribe"@,
        "call"@ != "subscribe"@,
        "call"@ != "unsubscribe"@,
        "call"@ != "get"@,
        "interface"@ != "subscribe"@,
        "interface"@ != "unsubscribe"@,
        "interface"@ != "get"@,
        "interface"@ != "call"@,
        "list"@ != "subscribe"@,
        "list"@ != "unsubscribe"@,
        "list"@ != "get"@,
        "list"@ != "call"@,
        "list"@ != "interface"@,
        "values"@ != "subscribe"@,
        "values"@ != "unsubscribe"@,
        "values"@ != "get"@,
        "values"@ != "call"@,
        "values"@ != "interface"@,
        "values"@ != "list"@,
{
    reveal_strlit("subscribe");
    reveal_strlit("unsubscribe");
    reveal_strlit("get");
    reveal_strlit("call");
    reveal_strlit("interface");
    reveal_strlit("list");
    reveal_strlit("values");
    assert("subscribe"@.len() == 9 && "subscribe"@[0] == 's');
    assert("unsubscribe"@.len() == 11);
    assert("get"@.len() == 3);
    assert("call"@.len() == 4 && "call"@[0] == 'c');
    assert("interface"@.len() == 9 && "interface"@[0] == 'i');
    assert("list"@.len() == 4 && "list"@[0] == 'l');
    assert("values"@.len() == 6);
}

/// A command is read from the `cmd` and the `url` of an object, whatever else the
/// object holds.
pub proof fn law_command_is_read(m: Map<Seq<char>, Json>, url: Seq<char>)
    requires
        has_text_at(m, "url"@, url),
    ensures
        has_text_at(m, "cmd"@, "subscribe"@) ==> command_in(Json::Fields(m))
            == CommandView::Subscribe(url),
        has_text_at(m, "cmd"@, "unsubscribe"@) ==> command_in(Json::Fields(m))
            == CommandView::Unsubscribe(url),
        has_text_at(m, "cmd"@, "get"@) ==> command_in(Json::Fields(m)) == CommandView::Get(url),
        has_text_at(m, "cmd"@, "interface"@) ==> command_in(Json::Fields(m))
            == CommandView::Interface(url),
        has_text_at(m, "cmd"@, "call"@) ==> command_in(Json::Fields(m)) == (CommandView::Call {
            url,
            params: params_in(
                if m.contains_key("params"@) {
                    Some(m["params"@])
                } else {
                    None
                },
            ),
        }),
{
    lemma_verbs();
}

/// A command that needs a URL and has none is told so; the others need none. What
/// is no command is shown as it was written.
pub proof fn law_command_without_url_is_read(m: Map<Seq<char>, Json>, cmd: Seq<char>)
    ensures
        has_text_at(m, "cmd"@, cmd) && no_text_at(m, "url"@) && (cmd == "subscribe"@ || cmd
            == "unsubscribe"@ || cmd == "get"@ || cmd == "call"@ || cmd == "interface"@)
            ==> command_in(Json::Fields(m)) == CommandView::MissingUrl,
        has_text_at(m, "cmd"@, "list"@) ==> command_in(Json::Fields(m)) == CommandView::List,
        has_text_at(m, "cmd"@, "values"@) ==> command_in(Json::Fields(m)) == CommandView::Values,
        has_text_at(m, "cmd"@, cmd) && cmd != "subscribe"@ && cmd != "unsubscribe"@ && cmd
            != "get"@ && cmd != "call"@ && cmd != "interface"@ && cmd != "list"@ && cmd
            != "values"@ ==> command_in(Json::Fields(m)) == CommandView::Unknown(cmd),
        no_text_at(m, "cmd"@) ==> command_in(Json::Fields(m)) == CommandView::Unknown(""@),
        forall|j: Json| !(j is Fields) ==> #[trigger] command_in(j) == CommandView::Unknown(""@),
{
    lemma_verbs();
    reveal_strlit("");
    reveal_strlit("subscribe");
    reveal_strlit("unsubscribe");
    reveal_strlit("get");
    reveal_strlit("call");
    reveal_strlit("interface");
    reveal_strlit("list");
    reveal_strlit("values");
    assert(""@.len() == 0);
    assert("subscribe"@.len() == 9 && "unsubscribe"@.len() == 11 && "get"@.len() == 3
        && "call"@.len() == 4 && "interface"@.len() == 9 && "list"@.len() == 4 && "values"@.len()
        == 6);
}

/// The parameters of a call are read one by one: each object with a name is one,
/// with its value, or none, and its kind, or text; anything else is skipped.
pub proof fn law_params_are_read_one_by_one(
    items: Seq<Json>,
    m: Map<Seq<char>, Json>,
    name: Seq<char>,
    other: Json,
)
    requires
        has_text_at(m, "name"@, name),
        other matches Json::Fields(f) ==> no_text_at(f, "name"@),
    ensures
        params_in(None).len() == 0,
        !(other is Items) ==> params_in(Some(other)).len() == 0,
        params_in(Some(Json::Items(Seq::empty()))).len() == 0,
        params_in(Some(Json::Items(items.push(other)))) == params_in(Some(Json::Items(items))),
        ({
            let before = params_in(Some(Json::Items(items)));
            let after = params_in(Some(Json::Items(items.push(Json::Fields(m)))));
            let p = after.last();
            &&& after.len() == before.len() + 1
            &&& after.drop_last() == before
            &&& p.name == name
            &&& forall|v: Seq<char>| #[trigger] has_text_at(m, "val"@, v) ==> p.raw == v
            &&& no_text_at(m, "val"@) ==> p.raw == ""@
            &&& has_text_at(m, "kind"@, "Abs"@) ==> p.kind == Kind::Abs
            &&& has_text_at(m, "kind"@, "Rel"@) ==> p.kind == Kind::Rel
            &&& has_text_at(m, "kind"@, "Act"@) ==> p.kind == Kind::Act
            &&& has_text_at(m, "kind"@, "Enm"@) ==> p.kind == Kind::Enm
            &&& !has_text_at(m, "kind"@, "Abs"@) && !has_text_at(m, "kind"@, "Rel"@)
                && !has_text_at(m, "kind"@, "Act"@) && !has_text_at(m, "kind"@, "Enm"@) ==> p.kind
                == Kind::Txt
        }),
{
    reveal_strlit("Abs");
    reveal_strlit("Rel");
    reveal_strlit("Act");
    reveal_strlit("Enm");
    assert("Abs"@[0] == 'A' && "Abs"@[1] == 'b' && "Act"@[0] == 'A' && "Act"@[1] == 'c' && "Rel"@[0]
        == 'R' && "Enm"@[0] == 'E');
    let with = items.push(Json::Fields(m));
    assert(with.drop_last() =~= items);
    let without = items.push(other);
    assert(without.drop_last() =~= items);
    let before = params_in(Some(Json::Items(items)));
    let after = params_in(Some(Json::Items(with)));
    assert(after.drop_last() =~= before);
}

/// A command is told of by what it holds: its URL, and the parameters of a call.
pub proof fn law_commands_are_what_they_hold(url: String, params: Vec<Param>, i: int)
    ensures
        Command::Subscribe(url)@ == CommandView::Subscribe(url@),
        Command::Unsubscribe(url)@ == CommandView::Unsubscribe(url@),
        Command::Get(url)@ == CommandView::Get(url@),
        Command::Interface(url)@ == CommandView::Interface(url@),
        Command::Unknown(url)@ == CommandView::Unknown(url@),
        Command::List@ == CommandView::List,
        Command::Values@ == CommandView::Values,
        Command::MissingUrl@ == CommandView::MissingUrl,
        (Command::Call { url, params })@ matches CommandView::Call { url: u, params: list } && u
            == url@ && list.len() == params@.len() && (0 <= i < params@.len() ==> list[i].kind
            == params@[i].kind && list[i].name == params@[i].name@ && list[i].raw
            == params@[i].raw@),
{
}

// -- Requests of the web UI ------------------------------------------------------

/// A packet carries a request with this body for a session.
pub open spec fn asks(s: StateView, idx: int, body: Seq<char>, p: PacketView) -> bool {
    exists|id: u32|
        carries(p, s.channel, #[trigger] request_text(s.sessions[idx].session_id, id, body))
}

/// Some session is ready.
pub open spec fn some_ready(s: StateView) -> bool {
    exists|j: int|
        0 <= j < s.sessions.len() && ((#[trigger] s.sessions[j]).link matches LinkView::Running(m)
            && m.phase == Phase::Ready)
}

/// What came to the queue is a request with this body for each of these sessions,
/// in order: they are of the first `n`, they run, and none is listed twice.
pub open spec fn asked_in_turn(
    s: StateView,
    n: int,
    body: Seq<char>,
    t: StateView,
    who: Seq<int>,
) -> bool {
    &&& t.outbound.len() == s.outbound.len() + who.len()
    &&& forall|p: int, q: int| 0 <= p < q < who.len() ==> #[trigger] who[p] < #[trigger] who[q]
    &&& forall|p: int|
        0 <= p < who.len() ==> 0 <= #[trigger] who[p] < n && s.sessions[who[p]].link is Running
            && asks(s, who[p], body, t.outbound[s.outbound.len() + p])
}

/// A request with this body was queued for a session.
pub open spec fn was_asked(s: StateView, idx: int, body: Seq<char>, t: StateView) -> bool {
    exists|p: int|
        s.outbound.len() <= p < t.outbound.len() && #[trigger] asks(s, idx, body, t.outbound[p])
}

/// One request was queued for each of the first `n` sessions that runs, in order,
/// behind all that was queued, and none for any other.
pub open spec fn queued_for_all(s: StateView, n: int, body: Seq<char>, t: StateView) -> bool {
    &&& s.outbound.is_prefix_of(t.outbound)
    &&& forall|idx: int|
        0 <= idx < n && s.sessions[idx].link is Running ==> #[trigger] was_asked(s, idx, body, t)
    &&& exists|who: Seq<int>| #[trigger] asked_in_turn(s, n, body, t, who)
}

/// A request was queued for each of the first `n` sessions that runs, and nothing
/// else was done.
pub open spec fn all_asked(s: StateView, n: int, body: Seq<char>, t: StateView) -> bool {
    &&& queued_for_all(s, n, body, t)
    &&& t == (StateView {
        outbound: t.outbound,
        recently_sent: t.recently_sent,
        log: t.log,
        ..s
    })
}

/// None was asked yet.
proof fn lemma_none_yet(s: StateView, body: Seq<char>, t: StateView)
    requires
        t.outbound == s.outbound,
    ensures
        queued_for_all(s, 0, body, t),
{
    assert(s.outbound =~= t.outbound.subrange(0, s.outbound.len() as int));
    assert(asked_in_turn(s, 0, body, t, Seq::empty()));
}

/// What is queued is all that counts.
proof fn lemma_same_queue(s: StateView, n: int, body: Seq<char>, u: StateView, t: StateView)
    requires
        queued_for_all(s, n, body, u),
        t.outbound == u.outbound,
    ensures
        queued_for_all(s, n, body, t),
{
    assert forall|idx: int| 0 <= idx < n && s.sessions[idx].link is Running implies
        #[trigger] was_asked(s, idx, body, t) by {
        assert(was_asked(s, idx, body, u));
        let k = choose|k: int|
            s.outbound.len() <= k < u.outbound.len() && #[trigger] asks(
                s,
                idx,
                body,
                u.outbound[k],
            );
        assert(asks(s, idx, body, t.outbound[k]));
    }
    let who = choose|who: Seq<int>| #[trigger] asked_in_turn(s, n, body, u, who);
    assert(asked_in_turn(s, n, body, t, who));
}

/// One more session was asked.
proof fn lemma_one_more(
    s: StateView,
    n: int,
    body: Seq<char>,
    u: StateView,
    p: PacketView,
    t: StateView,
)
    requires
        0 < n,
        queued_for_all(s, n - 1, body, u),
        s.sessions[n - 1].link is Running,
        asks(s, n - 1, body, p),
        t.outbound == u.outbound.push(p),
    ensures
        queued_for_all(s, n, body, t),
{
    let m = u.outbound.len() as int;
    assert(u.outbound.subrange(0, s.outbound.len() as int) == s.outbound);
    assert(s.outbound =~= t.outbound.subrange(0, s.outbound.len() as int));
    assert(t.outbound[m] == p);
    assert forall|idx: int| 0 <= idx < n && s.sessions[idx].link is Running implies
        #[trigger] was_asked(s, idx, body, t) by {
        if idx < n - 1 {
            assert(was_asked(s, idx, body, u));
            let k = choose|k: int|
                s.outbound.len() <= k < u.outbound.len() && #[trigger] asks(
                    s,
                    idx,
                    body,
                    u.outbound[k],
                );
            assert(t.outbound[k] == u.outbound[k]);
            assert(asks(s, idx, body, t.outbound[k]));
        } else {
            assert(asks(s, idx, body, t.outbound[m]));
        }
    }
    let who = choose|who: Seq<int>| #[trigger] asked_in_turn(s, n - 1, body, u, who);
    let more = who.push(n - 1);
    assert forall|k: int| 0 <= k < more.len() implies 0 <= #[trigger] more[k] < n
        && s.sessions[more[k]].link is Running && asks(
        s,
        more[k],
        body,
        t.outbound[s.outbound.len() + k],
    ) by {
        if k < who.len() {
            assert(more[k] == who[k]);
            assert(t.outbound[s.outbound.len() + k] == u.outbound[s.outbound.len() + k]);
        }
    }
    assert(asked_in_turn(s, n, body, t, more));
}

/// A session that does not run is passed over.
proof fn lemma_passed_over(s: StateView, n: int, body: Seq<char>, t: StateView)
    requires
        0 < n,
        queued_for_all(s, n - 1, body, t),
        !(s.sessions[n - 1].link is Running),
    ensures
        queued_for_all(s, n, body, t),
{
    let who = choose|who: Seq<int>| #[trigger] asked_in_turn(s, n - 1, body, t, who);
    assert(asked_in_turn(s, n, body, t, who));
}

proof fn lemma_all_asked(s: StateView, n: int, ids: Seq<u32>, body: Seq<char>)
    requires
        s.inv(),
        0 <= n <= s.sessions.len(),
    ensures
        all_asked(s, n, body, s.asked(n, ids, body)),
    decreases n,
{
    if n == 0 {
        lemma_none_yet(s, body, s);
    } else {
        lemma_all_asked(s, n - 1, ids, body);
        let u = s.asked(n - 1, ids, body);
        match s.sessions[n - 1].link {
            LinkView::Running(m) => {
                let p = request_packet(s, n - 1, ids[n - 1], body);
                lemma_ask(s, u, n - 1, m, ids[n - 1], body);
                law_requests_are_wrapped(s, n - 1, ids[n - 1], body);
                assert(asks(s, n - 1, body, p));
                lemma_one_more(s, n, body, u, p, s.asked(n, ids, body));
            },
            _ => lemma_passed_over(s, n, body, u),
        }
    }
}

/// To ask a session in whose machine nothing waits queues one frame, and changes
/// nothing else.
pub proof fn lemma_ask(
    s: StateView,
    u: StateView,
    i: int,
    m: MachineView,
    id: u32,
    body: Seq<char>,
)
    requires
        s.inv(),
        0 <= i < s.sessions.len(),
        s.sessions[i].link == LinkView::Running(m),
        u == (StateView { outbound: u.outbound, recently_sent: u.recently_sent, log: u.log, ..s }),
    ensures
        ({
            let t = u.with_machine(i, with_request(m, id, body)).flushed(i);
            &&& t.outbound == u.outbound.push(request_packet(s, i, id, body))
            &&& t.log == u.log
            &&& t == (StateView {
                outbound: t.outbound,
                recently_sent: t.recently_sent,
                log: t.log,
                ..s
            })
        }),
{
    assert(s.sessions[i].settled());
    let w = with_request(m, id, body);
    let q = u.with_machine(i, w);
    let sid = s.sessions[i].session_id;
    assert(m.out =~= Seq::empty());
    assert(w.out =~= seq![request_frame(id, body)]);
    lemma_sent_all(q.drained(i), sid, w.out);
    let p = request_packet(s, i, id, body);
    assert(statement_packets(s.channel, sid, w.out) =~= seq![p]);
    assert(u.outbound + seq![p] =~= u.outbound.push(p));
    assert(MachineView { out: Seq::empty(), ..w } == m);
    assert(q.drained(i).sessions =~= s.sessions);
}

/// Every session that runs was asked, if one is ready; else none was, and the
/// answer says so.
pub open spec fn answers_request(
    s: StateView,
    body: Seq<char>,
    t: StateView,
    answer: Seq<char>,
) -> bool {
    if some_ready(s) {
        answer == "ok"@ && all_asked(s, s.sessions.len() as int, body, t)
    } else {
        answer == "error: no active sessions"@ && t == s
    }
}

proof fn lemma_request(
    s: StateView,
    verb: Seq<char>,
    url: Seq<char>,
    body: Seq<char>,
    t: StateView,
    answer: Seq<char>,
)
    requires
        s.inv(),
        s.broadcasts(verb, url, body, t, answer),
    ensures
        answers_request(s, body, t, answer),
{
    let n = s.sessions.len() as int;
    let p = |x: SessionView| x.is_active();
    lemma_first_session(s.sessions, 0, p);
    assert forall|j: int| 0 <= j < n implies p(#[trigger] s.sessions[j]) == (s.sessions[j].link
        matches LinkView::Running(m) && m.phase == Phase::Ready) by {}
    if some_ready(s) {
        let j = choose|j: int|
            0 <= j < s.sessions.len() && ((#[trigger] s.sessions[j]).link
                matches LinkView::Running(m) && m.phase == Phase::Ready);
        assert(p(s.sessions[j]));
        assert(s.has_active());
        let line = NoticeView::Asked { verb, url, sessions: s.running(n) as usize };
        let ids = choose|ids: Seq<u32>|
            t == (#[trigger] s.asked(n, ids, body)).debugged(line);
        let u = s.asked(n, ids, body);
        lemma_all_asked(s, n, ids, body);
        lemma_same_queue(s, n, body, u, t);
    } else {
        if let Some(i) = first_session(s.sessions, 0, p) {
            assert(p(s.sessions[i]));
        }
        assert(!s.has_active());
    }
}

/// Each command with a URL asks what it says, of every session that runs.
pub proof fn law_commands_ask_every_session(
    s: StateView,
    url: Seq<char>,
    params: Seq<ParamView>,
    t: StateView,
    answer: Seq<char>,
)
    requires
        s.inv(),
    ensures
        s.runs(CommandView::Subscribe(url), t, answer) ==> answers_request(
            s,
            "<Subscribe url=\""@ + url + "\" ival=\""@ + decimal(s.subscribe_ival_ms as nat)
                + "\" timeStamp=\""@ + "true"@ + "\"/>"@,
            t,
            answer,
        ),
        s.runs(CommandView::Unsubscribe(url), t, answer) ==> answers_request(
            s,
            "<Unsubscribe url=\""@ + escaped(url) + "\"/>"@,
            t,
            answer,
        ),
        s.runs(CommandView::Get(url), t, answer) ==> answers_request(
            s,
            "<Get url=\""@ + escaped(url) + "\" timeStamp=\"true\"/>"@,
            t,
            answer,
        ),
        s.runs(CommandView::Call { url, params }, t, answer) ==> answers_request(
            s,
            call_body(url, params),
            t,
            answer,
        ),
        s.runs(CommandView::Interface(url), t, answer) ==> answers_request(
            s,
            interface_body(url),
            t,
            answer,
        ),
{
    if s.runs(CommandView::Subscribe(url), t, answer) {
        let body = subscribe_body(url, s.subscribe_ival_ms, true);
        lemma_request(s, "subscribe"@, url, body, t, answer);
    }
    if s.runs(CommandView::Unsubscribe(url), t, answer) {
        let body = unsubscribe_body(url);
        lemma_request(s, "unsubscribe"@, url, body, t, answer);
    }
    if s.runs(CommandView::Get(url), t, answer) {
        let body = get_body(url);
        lemma_request(s, "get"@, url, body, t, answer);
    }
    if s.runs(CommandView::Call { url, params }, t, answer) {
        lemma_request(s, "call"@, url, call_body(url, params), t, answer);
    }
    if s.runs(CommandView::Interface(url), t, answer) {
        lemma_request(s, "interface"@, url, interface_body(url), t, answer);
    }
}

/// The values command shows the web UI just the last change of each URL of which
/// data came, as it was recorded, and does nothing else: what came last of a URL is
/// shown whole, and what came before of the others.
pub proof fn law_values_show_the_last_data(
    s: StateView,
    d: DatView,
    url: Seq<char>,
    t: StateView,
    answer: Seq<char>,
)
    requires
        s.with_data(d).runs(CommandView::Values, t, answer),
    ensures
        answer == "ok"@,
        t.effects.len() == s.with_data(d).effects.len() + 1,
        t.effects.drop_last() == s.with_data(d).effects,
        t == (StateView { effects: t.effects, ..s.with_data(d) }),
        ({
            &&& t.effects.last() matches EffectView::Values(shown)
            &&& shown.contains_key(d.url)
            &&& tells(shown[d.url], d)
            &&& url != d.url ==> shown.contains_key(url) == s.values.contains_key(url)
            &&& url != d.url && s.values.contains_key(url) ==> shown[url] == s.values[url]
        }),
{
    assert(t.effects.drop_last() =~= s.with_data(d).effects);
}

/// What the values command shows is what is recorded, for every URL, whatever was
/// recorded and however much it is.
pub proof fn law_values_show_what_is_recorded(
    s: StateView,
    url: Seq<char>,
    t: StateView,
    answer: Seq<char>,
)
    requires
        s.runs(CommandView::Values, t, answer),
    ensures
        answer == "ok"@,
        t.effects.len() == s.effects.len() + 1,
        t.effects.drop_last() == s.effects,
        t == (StateView { effects: t.effects, ..s }),
        ({
            &&& t.effects.last() matches EffectView::Values(shown)
            &&& shown.contains_key(url) == s.values.contains_key(url)
            &&& s.values.contains_key(url) ==> {
                &&& shown[url].url == s.values[url].url
                &&& shown[url].fields == s.values[url].fields
                &&& shown[url].missing == s.values[url].missing
                &&& shown[url].state == s.values[url].state
                &&& shown[url].timestamp == s.values[url].timestamp
            }
        }),
{
    assert(t.effects.drop_last() =~= s.effects);
}

/// How a session is listed: its credential, how it stands, and its directory, which
/// is empty before it runs.
pub open spec fn lists(r: SessionReportView, x: SessionView) -> bool {
    &&& stands(
        r.connection,
        x.cred,
        match x.link {
            LinkView::Failed => "failed"@,
            LinkView::Running(m) => if m.phase == Phase::Ready {
                "active"@
            } else {
                "connecting"@
            },
            _ => "connecting"@,
        },
        x.subscription_limit_reached,
    )
    &&& r.urls == match x.link {
        LinkView::Running(m) => m.directory,
        _ => Seq::<EntryView>::empty(),
    }
}

/// The list command shows the web UI every session, in order, and does nothing
/// else.
pub proof fn law_sessions_are_listed(s: StateView, t: StateView, answer: Seq<char>)
    requires
        s.runs(CommandView::List, t, answer),
    ensures
        answer == "ok"@,
        t.effects.len() == s.effects.len() + 1,
        t.effects.drop_last() == s.effects,
        t == (StateView { effects: t.effects, ..s }),
        ({
            &&& t.effects.last() matches EffectView::Sessions(list)
            &&& list.len() == s.sessions.len()
            &&& forall|i: int|
                0 <= i < s.sessions.len() ==> lists(#[trigger] list[i], s.sessions[i])
        }),
{
    assert(t.effects.drop_last() =~= s.effects);
    let list = s.session_list();
    assert forall|i: int| 0 <= i < s.sessions.len() implies lists(
        #[trigger] list[i],
        s.sessions[i],
    ) by {}
}

/// What is no command, or lacks its URL, is refused, and so is what is no JSON;
/// what is for others is not answered. None of these does anything. Any other
/// document is run as the command that it writes.
pub proof fn law_messages_are_run_or_refused(
    s: StateView,
    topic: Seq<char>,
    payload: Seq<char>,
    t: StateView,
    answer: Seq<char>,
)
    requires
        s.answers(topic, payload, t, answer),
    ensures
        topic != "exlap-hook"@ ==> answer == ""@ && t == s,
        topic == "exlap-hook"@ && json_document(payload) is None ==> answer
            == "error: invalid JSON"@ && t == s,
        topic == "exlap-hook"@ ==> (json_document(payload) matches Some(j) ==> {
            &&& s.runs(command_in(j), t, answer)
            &&& command_in(j) is MissingUrl ==> answer == "error: missing url"@ && t == s
            &&& command_in(j) matches CommandView::Unknown(c) ==> answer
                == "error: unknown cmd "@ + debug_quoted(c) && t == s
        }),
{
}

// -- Pings and goodbyes ----------------------------------------------------------

/// A bare ping queues one answer for each session that runs, and does nothing else,
/// unless one of them is over.
pub proof fn law_bare_ping_is_only_answered(s: StateView, xml: Seq<char>, t: StateView)
    requires
        s.inv(),
        s.handles_xml(xml, t),
        frame_kind(xml) == "Status"@,
        contains_text(xml, "Alive"@),
        forall|j: int|
            0 <= j < s.sessions.len() ==> ((#[trigger] s.sessions[j]).link
                matches LinkView::Running(m) ==> !is_over(m.phase)),
    ensures
        all_asked(s, s.sessions.len() as int, "<Alive/>"@, t),
{
    lemma_kinds();
    let n = s.sessions.len() as int;
    let u = choose|u: StateView|
        s.pings(n, u) && t == #[trigger] u.debugged(NoticeView::PingAnswered);
    lemma_all_pinged(s, n, u);
    lemma_same_queue(s, n, "<Alive/>"@, u, t);
}

proof fn lemma_all_pinged(s: StateView, n: int, t: StateView)
    requires
        s.inv(),
        0 <= n <= s.sessions.len(),
        s.pings(n, t),
        forall|j: int|
            0 <= j < s.sessions.len() ==> ((#[trigger] s.sessions[j]).link
                matches LinkView::Running(m) ==> !is_over(m.phase)),
    ensures
        all_asked(s, n, "<Alive/>"@, t),
    decreases n,
{
    let body = "<Alive/>"@;
    if n == 0 {
        lemma_none_yet(s, body, s);
    } else {
        let i = n - 1;
        let u = choose|u: StateView| s.pings(i, u) && #[trigger] u.feeds(i, ping(), t);
        lemma_all_pinged(s, i, u);
        match s.sessions[i].link {
            LinkView::Running(m) => {
                assert(s.sessions[i].settled());
                lemma_ping_is_one();
                lemma_ping_step(u, i, m, ping(), t);
                law_handshake_steps_change_nothing_else(u, i, m, ping(), t);
                let id = choose|id: u32|
                    t.outbound == u.outbound.push(#[trigger] request_packet(u, i, id, body));
                let p = request_packet(u, i, id, body);
                law_requests_are_wrapped(u, i, id, body);
                assert(carries(p, s.channel, request_text(s.sessions[i].session_id, id, body)));
                assert(asks(s, i, body, p));
                lemma_one_more(s, n, body, u, p, t);
            },
            _ => lemma_passed_over(s, n, body, t),
        }
    }
}

/// When the hook is unloaded, one goodbye is queued for each session that runs, and
/// those sessions are closed; nothing else is done.
pub proof fn law_goodbyes_close_the_sessions(s: StateView, ids: Seq<u32>)
    requires
        s.inv(),
    ensures
        ({
            let n = s.sessions.len() as int;
            let t = s.closed(n, ids);
            queued_for_all(s, n, "<Bye/>"@, t) && closes(s, n, t)
        }),
{
    lemma_all_closed(s, s.sessions.len() as int, ids);
}

/// Each of the first `n` sessions that runs is closed, and nothing else changed but
/// what is queued.
pub open spec fn closes(s: StateView, n: int, t: StateView) -> bool {
    &&& t.sessions.len() == s.sessions.len()
    &&& forall|j: int|
        0 <= j < s.sessions.len() ==> #[trigger] t.sessions[j] == match s.sessions[j].link {
            LinkView::Running(m) => if j < n {
                SessionView {
                    link: LinkView::Running(MachineView { phase: Phase::Closed, ..m }),
                    ..s.sessions[j]
                }
            } else {
                s.sessions[j]
            },
            _ => s.sessions[j],
        }
    &&& t == (StateView {
        sessions: t.sessions,
        outbound: t.outbound,
        recently_sent: t.recently_sent,
        ..s
    })
}

proof fn lemma_all_closed(s: StateView, n: int, ids: Seq<u32>)
    requires
        s.inv(),
        0 <= n <= s.sessions.len(),
    ensures
        queued_for_all(s, n, "<Bye/>"@, s.closed(n, ids)),
        closes(s, n, s.closed(n, ids)),
    decreases n,
{
    let body = "<Bye/>"@;
    if n == 0 {
        lemma_none_yet(s, body, s);
    } else {
        let i = n - 1;
        lemma_all_closed(s, i, ids);
        let u = s.closed(i, ids);
        let t = s.closed(n, ids);
        assert(u.sessions[i] == s.sessions[i]);
        match s.sessions[i].link {
            LinkView::Running(m) => {
                assert(s.sessions[i].settled());
                let id = ids[i];
                let over = MachineView { phase: Phase::Closed, ..m };
                let w = with_request(over, id, body);
                let q = u.with_machine(i, w);
                let sid = s.sessions[i].session_id;
                assert(m.out =~= Seq::empty());
                assert(w.out =~= seq![request_frame(id, body)]);
                assert(MachineView { out: Seq::empty(), ..w } == over);
                lemma_sent_all(q.drained(i), sid, w.out);
                let p = request_packet(s, i, id, body);
                assert(statement_packets(s.channel, sid, w.out) =~= seq![p]);
                assert(u.outbound + seq![p] =~= u.outbound.push(p));
                law_requests_are_wrapped(s, i, id, body);
                assert(asks(s, i, body, p));
                lemma_one_more(s, n, body, u, p, t);
                assert(closes(s, n, t));
            },
            _ => {
                lemma_passed_over(s, n, body, u);
                assert(closes(s, n, t));
            },
        }
    }
}

// -- What is handed out ----------------------------------------------------------

/// What the host is handed is what it is told of: each change with its readings,
/// and the values of all URLs.
pub proof fn law_changes_are_handed_out_whole(c: Change, i: int)
    ensures
        c@.url == c.url@,
        c@.fields.len() == c.fields@.len(),
        0 <= i < c.fields@.len() ==> {
            &&& c@.fields[i].name == c.fields@[i].name@
            &&& c@.fields[i].kind == c.fields@[i].kind@
            &&& c@.fields[i].raw == c.fields@[i].raw@
            &&& c@.fields[i].unit == text_opt(c.fields@[i].unit)
        },
        c@.missing.len() == c.missing@.len(),
        0 <= i < c.missing@.len() ==> c@.missing[i] == c.missing@[i]@,
        c@.state == text_opt(c.state),
        c@.timestamp == text_opt(c.timestamp),
        Effect::Changed(c)@ == EffectView::Changed(c@),
{
}

/// A report that the host is handed says how its session stands, and lists its
/// directory; a list of reports holds them in order.
pub proof fn law_reports_are_handed_out_whole(r: SessionReport, list: Vec<SessionReport>, i: int)
    ensures
        r@.connection.cred_idx == r.connection.cred_idx,
        r@.connection.user == r.connection.user@,
        r@.connection.connection_state == r.connection.connection_state@,
        r@.connection.subscription_limit_reached == r.connection.subscription_limit_reached,
        r@.urls.len() == r.urls@.len(),
        0 <= i < r.urls@.len() ==> {
            &&& r@.urls[i].url == r.urls@[i].url@
            &&& r@.urls[i].callable == r.urls@[i].callable
        },
        Effect::Directory(r)@ == EffectView::Directory(r@),
        Effect::Connection(r.connection)@ == EffectView::Connection(r@.connection),
        Effect::Sessions(list)@ matches EffectView::Sessions(shown) && shown.len() == list@.len()
            && (0 <= i < list@.len() ==> shown[i] == list@[i]@),
{
}

/// The battery report that the host is handed holds the level, the temperature and
/// the capacity, each as it is told.
pub proof fn law_battery_is_handed_out_whole(
    level: Option<String>,
    temperature: Option<String>,
    capacity_wh: Option<u64>,
)
    ensures
        (Effect::Battery { level, temperature, capacity_wh })@ matches EffectView::Battery {
            level: x,
            temperature: y,
            capacity_wh: z,
        } && x == text_opt(level) && y == text_opt(temperature) && z == capacity_wh,
{
}

/// A packet is told of field by field, and a list of packets packet by packet.
pub proof fn law_packets_are_handed_out_whole(list: Vec<Packet>, i: int)
    ensures
        packets(list@).len() == list@.len(),
        0 <= i < list@.len() ==> {
            &&& packets(list@)[i].proxy_type == list@[i].proxy_type
            &&& packets(list@)[i].channel == list@[i].channel
            &&& packets(list@)[i].packet_flags == list@[i].packet_flags
            &&& packets(list@)[i].final_length == list@[i].final_length
            &&& packets(list@)[i].message_id == list@[i].message_id
            &&& packets(list@)[i].payload == list@[i].payload@
        },
{
}

/// The state of the hook is told of field by field.
pub proof fn law_state_is_what_it_holds(s: ExlapState, i: int)
    ensures
        s@.channel == s.exlap_channel,
        s@.connecting_started == s.connecting_started,
        s@.buffer == s.assemble_buf@,
        s@.creds == s.creds@,
        s@.claimed == s.claimed@,
        s@.tank_level == text_opt(s.tank_level),
        s@.outside_temp == text_opt(s.outside_temp),
        s@.battery_capacity_wh == s.battery_capacity_wh,
        s@.subscribe_urls.len() == s.subscribe_urls@.len(),
        0 <= i < s.subscribe_urls@.len() ==> s@.subscribe_urls[i] == s.subscribe_urls@[i]@,
        s@.subscribe_ival_ms == s.subscribe_ival_ms,
        s@.outbound.len() == s.outbound@.len(),
        0 <= i < s.outbound@.len() ==> s@.outbound[i] == s.outbound@[i]@,
        s@.recently_sent.len() == s.recently_sent@.len(),
        0 <= i < s.recently_sent@.len() ==> s@.recently_sent[i] == s.recently_sent@[i]@,
        s@.debug == s.debug,
        s@.effects.len() == s.effects@.len(),
        0 <= i < s.effects@.len() ==> s@.effects[i] == s.effects@[i]@,
        s@.log.len() == s.log@.len(),
        0 <= i < s.log@.len() ==> s@.log[i] == s.log@[i]@,
        s@.sessions.len() == s.sessions@.len(),
        0 <= i < s.sessions@.len() ==> {
            let x = s.sessions@[i];
            &&& s@.sessions[i].cred == x.cred
            &&& s@.sessions[i].session_id == x.session_id@
            &&& s@.sessions[i].subscribed == x.subscribed
            &&& s@.sessions[i].subscription_limit_reached == x.subscription_limit_reached
            &&& s@.sessions[i].link is Pending <==> x.state is Pending
            &&& s@.sessions[i].link is WaitConnReturn <==> x.state is WaitConnReturn
            &&& s@.sessions[i].link is Failed <==> x.state is Failed
            &&& x.state matches SessionState::Running(m) ==> s@.sessions[i].link
                == LinkView::Running(machine_view(m))
        },
{
}

/// The values that the host is handed are, by URL, the changes in the list.
pub proof fn law_values_are_handed_out_whole(list: Vec<Change>, i: int)
    requires
        0 <= i < list@.len(),
        forall|j: int| i < j < list@.len() ==> (#[trigger] list@[j]).url@ != list@[i].url@,
    ensures
        Effect::Values(list)@ matches EffectView::Values(shown) && shown.contains_key(
            list@[i].url@,
        ) && shown[list@[i].url@] == list@[i]@,
{
    let all = changes(list@);
    assert forall|j: int| i < j < all.len() implies (#[trigger] all[j]).url != all[i].url by {
        assert(all[j] == list@[j]@);
        assert(list@[j].url@ != list@[i].url@);
    }
    assert(all[i] == list@[i]@);
    law_the_last_change_of_a_url_counts(all, i, list@[i].url@);
    assert(by_url(all)[all[i].url] == all[i]);
}

} // verus!
