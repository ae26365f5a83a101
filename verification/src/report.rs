//! What the hook tells its host: events of the web UI, the battery report, and
//! the lines of the log.

use crate::frame::{truncate_xml, truncated};
use crate::packet::ProxyType;
use crate::protocol::{
    entries, readings, DatView, Entry, EntryView, Phase, Reading, ReadingView,
};
use crate::text::{chars_of, copy_list, same_text, text_opt, texts};
use vstd::prelude::*;

verus! {

/// One change of a URL, as the web UI is told of it. Fields that the head unit
/// reports as absent are in `missing` and are not published as readings.
#[derive(Debug)]
pub struct Change {
    pub url: String,
    pub fields: Vec<Reading>,
    pub missing: Vec<String>,
    pub state: Option<String>,
    /// The stamp of the server, as it arrived.
    pub timestamp: Option<String>,
}

/// The model of a [`Change`].
#[verifier::ext_equal]
pub ghost struct ChangeView {
    pub url: Seq<char>,
    pub fields: Seq<ReadingView>,
    pub missing: Seq<Seq<char>>,
    pub state: Option<Seq<char>>,
    pub timestamp: Option<Seq<char>>,
}

impl View for Change {
    type V = ChangeView;

    open spec fn view(&self) -> ChangeView {
        ChangeView {
            url: self.url@,
            fields: readings(self.fields@),
            missing: texts(self.missing@),
            state: text_opt(self.state),
            timestamp: text_opt(self.timestamp),
        }
    }
}

/// The models of a list of changes.
pub open spec fn changes(list: Seq<Change>) -> Seq<ChangeView> {
    list.map_values(|c: Change| c@)
}

/// The change that a `<Dat>` makes, with the stamp that it bears.
pub open spec fn change_of(d: DatView, stamp: Option<Seq<char>>) -> ChangeView {
    ChangeView {
        url: d.url,
        fields: d.readings,
        missing: d.missing,
        state: d.state,
        timestamp: stamp,
    }
}

/// A copy of an optional string.
pub fn copy_text(o: &Option<String>) -> (r: Option<String>)
    ensures
        text_opt(r) == text_opt(*o),
{
    match o {
        Some(s) => Some(s.clone()),
        None => None,
    }
}

fn copy_readings(list: &Vec<Reading>) -> (r: Vec<Reading>)
    ensures
        readings(r@) == readings(list@),
{
    let mut out: Vec<Reading> = Vec::new();
    let mut i: usize = 0;
    while i < list.len()
        invariant
            i <= list@.len(),
            readings(out@) == readings(list@).take(i as int),
        decreases list@.len() - i,
    {
        let ghost before = out@;
        let copy: Reading = Reading {
            name: list[i].name.clone(),
            kind: list[i].kind.clone(),
            raw: list[i].raw.clone(),
            unit: copy_text(&list[i].unit),
        };
        out.push(copy);
        assert(readings(out@) == readings(before).push(copy@));
        i = i + 1;
    }
    assert(readings(list@).take(i as int) == readings(list@));
    out
}

impl Change {
    /// A copy of this change.
    pub fn copy(&self) -> (r: Change)
        ensures
            r@ == self@,
    {
        Change {
            url: self.url.clone(),
            fields: copy_readings(&self.fields),
            missing: copy_list(&self.missing),
            state: copy_text(&self.state),
            timestamp: copy_text(&self.timestamp),
        }
    }
}

/// A copy of a list of changes.
pub fn copy_changes(list: &Vec<Change>) -> (r: Vec<Change>)
    ensures
        changes(r@) == changes(list@),
{
    let mut out: Vec<Change> = Vec::new();
    let mut i: usize = 0;
    while i < list.len()
        invariant
            i <= list@.len(),
            changes(out@) == changes(list@).take(i as int),
        decreases list@.len() - i,
    {
        let ghost before = out@;
        let copy: Change = list[i].copy();
        out.push(copy);
        assert(changes(out@) == changes(before).push(copy@));
        i = i + 1;
    }
    assert(changes(list@).take(i as int) == changes(list@));
    out
}

/// How a session stands, as the web UI is told of it.
#[derive(Debug)]
pub struct ConnectionReport {
    pub cred_idx: usize,
    pub user: String,
    pub connection_state: String,
    pub subscription_limit_reached: bool,
}

/// The model of a [`ConnectionReport`].
#[verifier::ext_equal]
pub ghost struct ConnectionView {
    pub cred_idx: usize,
    pub user: Seq<char>,
    pub connection_state: Seq<char>,
    pub subscription_limit_reached: bool,
}

impl View for ConnectionReport {
    type V = ConnectionView;

    open spec fn view(&self) -> ConnectionView {
        ConnectionView {
            cred_idx: self.cred_idx,
            user: self.user@,
            connection_state: self.connection_state@,
            subscription_limit_reached: self.subscription_limit_reached,
        }
    }
}

/// How a session stands, and its URL directory.
#[derive(Debug)]
pub struct SessionReport {
    pub connection: ConnectionReport,
    /// The URL directory, empty before it is read.
    pub urls: Vec<Entry>,
}

/// The model of a [`SessionReport`].
#[verifier::ext_equal]
pub ghost struct SessionReportView {
    pub connection: ConnectionView,
    pub urls: Seq<EntryView>,
}

impl View for SessionReport {
    type V = SessionReportView;

    open spec fn view(&self) -> SessionReportView {
        SessionReportView { connection: self.connection@, urls: entries(self.urls@) }
    }
}

/// The models of a list of session reports.
pub open spec fn session_reports(list: Seq<SessionReport>) -> Seq<SessionReportView> {
    list.map_values(|r: SessionReport| r@)
}

/// The beginning of a text, for the log.
#[derive(Debug)]
pub struct Excerpt {
    pub text: String,
    /// How many characters follow it.
    pub left_out: usize,
}

/// The model of an [`Excerpt`].
pub ghost struct ExcerptView {
    pub text: Seq<char>,
    pub left_out: usize,
}

impl View for Excerpt {
    type V = ExcerptView;

    open spec fn view(&self) -> ExcerptView {
        ExcerptView { text: self.text@, left_out: self.left_out }
    }
}

/// The first `n` characters of a text, and how many follow them.
pub open spec fn excerpt_of(s: Seq<char>, n: nat) -> ExcerptView {
    ExcerptView {
        text: truncated(s, n),
        left_out: if s.len() <= n {
            0
        } else {
            (s.len() - n) as usize
        },
    }
}

/// The first `n` characters of a text, and how many follow them.
pub fn excerpt(s: &str, n: usize) -> (r: Excerpt)
    ensures
        r@ == excerpt_of(s@, n as nat),
{
    let len: usize = chars_of(s).len();
    Excerpt {
        text: truncate_xml(s, n),
        left_out: if len <= n {
            0
        } else {
            len - n
        },
    }
}

/// A line of the log. The verbose ones are only written where the verbose log is
/// on.
#[derive(Debug)]
pub enum Notice {
    /// The channel was learned from an ExLAP frame on it.
    AdoptedChannel(u8),
    /// A frame was not UTF-8.
    InvalidUtf8,
    /// The head unit refused the connection of a credential.
    ConnectionRefused(usize),
    /// The channel was opened with a status that is not OK.
    OpenStatus { status: u8, channel: u8 },
    /// A session failed, and why.
    SessionFailed { cred: usize, reason: String },
    /// The directory could not be asked for, and why.
    DirectoryRefused { cred: usize, reason: String },
    /// The subscriptions could not be made, as the session is in this phase.
    SubscribeRefused { cred: usize, phase: Phase },
    /// The verbose log was switched on or off.
    DebugSet(bool),
    /// A line of the verbose log, as text.
    Debug(String),
    /// Verbose: the hook was loaded with these settings.
    Created {
        channel: u8,
        creds: Vec<usize>,
        subscribe_urls: Vec<String>,
        ival_ms: u32,
        capacity_wh: Option<u64>,
    },
    /// Verbose: the hook was unloaded.
    Destroyed,
    /// Verbose: the channel was configured.
    ChannelSet(u8),
    /// Verbose: the credentials were configured; they apply to the sessions made
    /// next.
    CredsSet(Vec<usize>),
    /// Verbose: the URLs were configured.
    UrlsSet(Vec<String>),
    /// Verbose: the interval was configured.
    IvalSet(u32),
    /// Verbose: the capacity was configured.
    CapacitySet(Option<u64>),
    /// Verbose: so many frames go out.
    Flushing(usize),
    /// Verbose: a session is started.
    Starting { cred: usize, user: String, session_id: String },
    /// Verbose: a control message passed on the channel.
    ControlSeen { from: ProxyType, msg_id: u16 },
    /// Verbose: a control message is none that the hook acts on.
    ControlPassed { from: ProxyType, msg_id: u16 },
    /// Verbose: the channel was opened again, with this status.
    OpenUnexpected(u8),
    /// Verbose: the channel was opened, and so many sessions are brought up.
    ChannelOpened { channel: u8, status: u8, sessions: usize },
    /// Verbose: discovery advertises no ExLAP.
    DiscoveredNothing,
    /// Verbose: discovery advertises ExLAP.
    Discovered { service_id: i32, channel: u8 },
    /// Verbose: a frame of the hook came back.
    EchoSkipped { from: ProxyType, xml: Excerpt },
    /// Verbose: a frame is on its way to the phone.
    DuplicateSkipped { from: ProxyType, xml: Excerpt },
    /// Verbose: a frame of the head unit.
    FrameReceived { from: ProxyType, xml: Excerpt },
    /// Verbose: a frame has a root tag that means nothing here.
    UnknownRoot(String),
    /// Verbose: the head unit closed the connection.
    ConnectionsClosed,
    /// Verbose: a connection was answered that none awaits.
    ReturnUnexpected,
    /// Verbose: a connection was made, for this credential.
    Connected(usize),
    /// Verbose: the session with this id runs, and awaits its banner.
    AwaitingInit(String),
    /// Verbose: data is read from the foreign session with this id.
    Harvesting(String),
    /// Verbose: a bare ping was answered.
    PingAnswered,
    /// Verbose: a bare bye came.
    ByeReceived,
    /// Verbose: a bare banner came that no session awaits.
    BannerIgnored,
    /// Verbose: a bare banner came for this credential.
    BannerFor(usize),
    /// Verbose: the head unit reported a loss of data.
    Dataloss,
    /// Verbose: a bare status is none that the hook acts on.
    UnhandledStatus(String),
    /// Verbose: the session of this credential has authenticated.
    Authenticated(usize),
    /// Verbose: the limit of subscriptions is reached.
    LimitReached(usize),
    /// Verbose: a request was answered with a status.
    Replied { cred: usize, id: u32, word: String },
    /// Verbose: a message that means nothing here.
    Received { cred: usize, xml: Excerpt },
    /// Verbose: a credential exposes so many data URLs and functions, and so many
    /// URLs are subscribed.
    Exposes { cred: usize, data: usize, callable: usize, subscribing: usize },
    /// Verbose: the level of the battery, as it was written.
    TankLevel(String),
    /// Verbose: the temperature outside, as it was written.
    OutsideTemperature(String),
    /// Verbose: the sessions were asked on behalf of the web UI.
    Asked { verb: String, url: String, sessions: usize },
}

/// The model of a [`Notice`].
pub ghost enum NoticeView {
    AdoptedChannel(u8),
    InvalidUtf8,
    ConnectionRefused(usize),
    OpenStatus { status: u8, channel: u8 },
    SessionFailed { cred: usize, reason: Seq<char> },
    DirectoryRefused { cred: usize, reason: Seq<char> },
    SubscribeRefused { cred: usize, phase: Phase },
    DebugSet(bool),
    Debug(Seq<char>),
    Created {
        channel: u8,
        creds: Seq<usize>,
        subscribe_urls: Seq<Seq<char>>,
        ival_ms: u32,
        capacity_wh: Option<u64>,
    },
    Destroyed,
    ChannelSet(u8),
    CredsSet(Seq<usize>),
    UrlsSet(Seq<Seq<char>>),
    IvalSet(u32),
    CapacitySet(Option<u64>),
    Flushing(usize),
    Starting { cred: usize, user: Seq<char>, session_id: Seq<char> },
    ControlSeen { from: ProxyType, msg_id: u16 },
    ControlPassed { from: ProxyType, msg_id: u16 },
    OpenUnexpected(u8),
    ChannelOpened { channel: u8, status: u8, sessions: usize },
    DiscoveredNothing,
    Discovered { service_id: i32, channel: u8 },
    EchoSkipped { from: ProxyType, xml: ExcerptView },
    DuplicateSkipped { from: ProxyType, xml: ExcerptView },
    FrameReceived { from: ProxyType, xml: ExcerptView },
    UnknownRoot(Seq<char>),
    ConnectionsClosed,
    ReturnUnexpected,
    Connected(usize),
    AwaitingInit(Seq<char>),
    Harvesting(Seq<char>),
    PingAnswered,
    ByeReceived,
    BannerIgnored,
    BannerFor(usize),
    Dataloss,
    UnhandledStatus(Seq<char>),
    Authenticated(usize),
    LimitReached(usize),
    Replied { cred: usize, id: u32, word: Seq<char> },
    Received { cred: usize, xml: ExcerptView },
    Exposes { cred: usize, data: usize, callable: usize, subscribing: usize },
    TankLevel(Seq<char>),
    OutsideTemperature(Seq<char>),
    Asked { verb: Seq<char>, url: Seq<char>, sessions: usize },
}

/// A line is only written where the verbose log is on.
pub open spec fn is_verbose(n: NoticeView) -> bool {
    match n {
        NoticeView::AdoptedChannel(_) => false,
        NoticeView::InvalidUtf8 => false,
        NoticeView::ConnectionRefused(_) => false,
        NoticeView::OpenStatus { .. } => false,
        NoticeView::SessionFailed { .. } => false,
        NoticeView::DirectoryRefused { .. } => false,
        NoticeView::SubscribeRefused { .. } => false,
        NoticeView::DebugSet(_) => false,
        _ => true,
    }
}

impl View for Notice {
    type V = NoticeView;

    open spec fn view(&self) -> NoticeView {
        match self {
            Notice::AdoptedChannel(x) => NoticeView::AdoptedChannel(*x),
            Notice::InvalidUtf8 => NoticeView::InvalidUtf8,
            Notice::ConnectionRefused(x) => NoticeView::ConnectionRefused(*x),
            Notice::OpenStatus { status, channel } => NoticeView::OpenStatus {
                status: *status,
                channel: *channel,
            },
            Notice::SessionFailed { cred, reason } => NoticeView::SessionFailed {
                cred: *cred,
                reason: reason@,
            },
            Notice::DirectoryRefused { cred, reason } => NoticeView::DirectoryRefused {
                cred: *cred,
                reason: reason@,
            },
            Notice::SubscribeRefused { cred, phase } => NoticeView::SubscribeRefused {
                cred: *cred,
                phase: *phase,
            },
            Notice::DebugSet(x) => NoticeView::DebugSet(*x),
            Notice::Debug(x) => NoticeView::Debug(x@),
            Notice::Created { channel, creds, subscribe_urls, ival_ms, capacity_wh } => NoticeView::Created {
                channel: *channel,
                creds: creds@,
                subscribe_urls: texts(subscribe_urls@),
                ival_ms: *ival_ms,
                capacity_wh: *capacity_wh,
            },
            Notice::Destroyed => NoticeView::Destroyed,
            Notice::ChannelSet(x) => NoticeView::ChannelSet(*x),
            Notice::CredsSet(x) => NoticeView::CredsSet(x@),
            Notice::UrlsSet(x) => NoticeView::UrlsSet(texts(x@)),
            Notice::IvalSet(x) => NoticeView::IvalSet(*x),
            Notice::CapacitySet(x) => NoticeView::CapacitySet(*x),
            Notice::Flushing(x) => NoticeView::Flushing(*x),
            Notice::Starting { cred, user, session_id } => NoticeView::Starting {
                cred: *cred,
                user: user@,
                session_id: session_id@,
            },
            Notice::ControlSeen { from, msg_id } => NoticeView::ControlSeen {
                from: *from,
                msg_id: *msg_id,
            },
            Notice::ControlPassed { from, msg_id } => NoticeView::ControlPassed {
                from: *from,
                msg_id: *msg_id,
            },
            Notice::OpenUnexpected(x) => NoticeView::OpenUnexpected(*x),
            Notice::ChannelOpened { channel, status, sessions } => NoticeView::ChannelOpened {
                channel: *channel,
                status: *status,
                sessions: *sessions,
            },
            Notice::DiscoveredNothing => NoticeView::DiscoveredNothing,
            Notice::Discovered { service_id, channel } => NoticeView::Discovered {
                service_id: *service_id,
                channel: *channel,
            },
            Notice::EchoSkipped { from, xml } => NoticeView::EchoSkipped {
                from: *from,
                xml: xml@,
            },
            Notice::DuplicateSkipped { from, xml } => NoticeView::DuplicateSkipped {
                from: *from,
                xml: xml@,
            },
            Notice::FrameReceived { from, xml } => NoticeView::FrameReceived {
                from: *from,
                xml: xml@,
            },
            Notice::UnknownRoot(x) => NoticeView::UnknownRoot(x@),
            Notice::ConnectionsClosed => NoticeView::ConnectionsClosed,
            Notice::ReturnUnexpected => NoticeView::ReturnUnexpected,
            Notice::Connected(x) => NoticeView::Connected(*x),
            Notice::AwaitingInit(x) => NoticeView::AwaitingInit(x@),
            Notice::Harvesting(x) => NoticeView::Harvesting(x@),
            Notice::PingAnswered => NoticeView::PingAnswered,
            Notice::ByeReceived => NoticeView::ByeReceived,
            Notice::BannerIgnored => NoticeView::BannerIgnored,
            Notice::BannerFor(x) => NoticeView::BannerFor(*x),
            Notice::Dataloss => NoticeView::Dataloss,
            Notice::UnhandledStatus(x) => NoticeView::UnhandledStatus(x@),
            Notice::Authenticated(x) => NoticeView::Authenticated(*x),
            Notice::LimitReached(x) => NoticeView::LimitReached(*x),
            Notice::Replied { cred, id, word } => NoticeView::Replied {
                cred: *cred,
                id: *id,
                word: word@,
            },
            Notice::Received { cred, xml } => NoticeView::Received {
                cred: *cred,
                xml: xml@,
            },
            Notice::Exposes { cred, data, callable, subscribing } => NoticeView::Exposes {
                cred: *cred,
                data: *data,
                callable: *callable,
                subscribing: *subscribing,
            },
            Notice::TankLevel(x) => NoticeView::TankLevel(x@),
            Notice::OutsideTemperature(x) => NoticeView::OutsideTemperature(x@),
            Notice::Asked { verb, url, sessions } => NoticeView::Asked {
                verb: verb@,
                url: url@,
                sessions: *sessions,
            },
        }
    }
}

/// The models of a list of lines.
pub open spec fn notice_views(list: Seq<Notice>) -> Seq<NoticeView> {
    list.map_values(|n: Notice| n@)
}

/// Something for the host to do, apart from sending packets.
#[derive(Debug)]
pub enum Effect {
    /// Tell the web UI how a session stands.
    Connection(ConnectionReport),
    /// Tell the web UI of a session's URL directory.
    Directory(SessionReport),
    /// Tell the web UI of a change.
    Changed(Change),
    /// Post the battery report: the level as a fraction and the temperature in
    /// degrees, both as the head unit wrote them, and the capacity.
    Battery { level: Option<String>, temperature: Option<String>, capacity_wh: Option<u64> },
    /// Show the web UI all sessions.
    Sessions(Vec<SessionReport>),
    /// Show the web UI the last change of each URL.
    Values(Vec<Change>),
}

/// The model of an [`Effect`].
pub ghost enum EffectView {
    Connection(ConnectionView),
    Directory(SessionReportView),
    Changed(ChangeView),
    Battery {
        level: Option<Seq<char>>,
        temperature: Option<Seq<char>>,
        capacity_wh: Option<u64>,
    },
    Sessions(Seq<SessionReportView>),
    Values(Map<Seq<char>, ChangeView>),
}

/// The changes of a list, by URL; a later one replaces an earlier one.
pub open spec fn by_url(list: Seq<ChangeView>) -> Map<Seq<char>, ChangeView>
    decreases list.len(),
{
    if list.len() == 0 {
        Map::empty()
    } else {
        by_url(list.drop_last()).insert(list.last().url, list.last())
    }
}

impl View for Effect {
    type V = EffectView;

    open spec fn view(&self) -> EffectView {
        match self {
            Effect::Connection(r) => EffectView::Connection(r@),
            Effect::Directory(r) => EffectView::Directory(r@),
            Effect::Changed(c) => EffectView::Changed(c@),
            Effect::Battery { level, temperature, capacity_wh } => EffectView::Battery {
                level: text_opt(*level),
                temperature: text_opt(*temperature),
                capacity_wh: *capacity_wh,
            },
            Effect::Sessions(list) => EffectView::Sessions(session_reports(list@)),
            Effect::Values(list) => EffectView::Values(by_url(changes(list@))),
        }
    }
}

/// The models of a list of effects.
pub open spec fn effect_views(list: Seq<Effect>) -> Seq<EffectView> {
    list.map_values(|e: Effect| e@)
}

/// No URL is listed twice.
pub open spec fn distinct_urls(list: Seq<ChangeView>) -> bool {
    forall|i: int, j: int|
        0 <= i < j < list.len() ==> (#[trigger] list[i]).url != (#[trigger] list[j]).url
}

/// Replacing the change of a URL in a list without repeats replaces it in the
/// map.
proof fn lemma_by_url_update(list: Seq<ChangeView>, at: int, c: ChangeView)
    requires
        0 <= at < list.len(),
        list[at].url == c.url,
        distinct_urls(list),
    ensures
        by_url(list.update(at, c)) == by_url(list).insert(c.url, c),
    decreases list.len(),
{
    let updated = list.update(at, c);
    if at == list.len() - 1 {
        assert(updated.drop_last() == list.drop_last());
        assert(by_url(updated) == by_url(list).insert(c.url, c));
    } else {
        assert(updated.drop_last() == list.drop_last().update(at, c));
        lemma_by_url_update(list.drop_last(), at, c);
        assert(list.last().url != c.url);
        assert(by_url(updated) == by_url(list).insert(c.url, c));
    }
}

/// Keeps a change as the last one of its URL.
pub fn keep_change(list: &mut Vec<Change>, c: Change)
    requires
        distinct_urls(changes(old(list)@)),
    ensures
        distinct_urls(changes(final(list)@)),
        by_url(changes(final(list)@)) == by_url(changes(old(list)@)).insert(c@.url, c@),
{
    let ghost before = changes(list@);
    let mut i: usize = 0;
    while i < list.len()
        invariant
            i <= list@.len(),
            *list == *old(list),
            before == changes(list@),
            distinct_urls(before),
            forall|j: int| 0 <= j < i ==> (#[trigger] before[j]).url != c@.url,
        decreases list@.len() - i,
    {
        if same_text(list[i].url.as_str(), c.url.as_str()) {
            proof {
                assert(before[i as int] == list@[i as int]@);
                lemma_by_url_update(before, i as int, c@);
            }
            list.set(i, c);
            proof {
                assert(changes(list@) == before.update(i as int, c@));
            }
            return;
        }
        assert(before[i as int] == list@[i as int]@);
        i = i + 1;
    }
    list.push(c);
    proof {
        assert(changes(list@) == before.push(c@));
        assert(changes(list@).drop_last() == before);
    }
}

/// By URL, a list of changes holds the last change of each URL, and no other URL.
pub proof fn law_the_last_change_of_a_url_counts(list: Seq<ChangeView>, i: int, url: Seq<char>)
    ensures
        0 <= i < list.len() && (forall|j: int|
            i < j < list.len() ==> (#[trigger] list[j]).url != list[i].url) ==> by_url(
            list,
        ).contains_key(list[i].url) && by_url(list)[list[i].url] == list[i],
        by_url(list).contains_key(url) <==> exists|j: int|
            0 <= j < list.len() && (#[trigger] list[j]).url == url,
    decreases list.len(),
{
    if list.len() > 0 {
        let rest = list.drop_last();
        let last = list.len() - 1;
        assert(list.last() == list[last]);
        law_the_last_change_of_a_url_counts(rest, i, url);
        if 0 <= i < last && forall|j: int|
            i < j < list.len() ==> (#[trigger] list[j]).url != list[i].url {
            assert(list[last].url != list[i].url);
            assert forall|j: int| i < j < rest.len() implies (#[trigger] rest[j]).url
                != rest[i].url by {
                assert(rest[j] == list[j]);
            }
            assert(rest[i] == list[i]);
        }
        if exists|j: int| 0 <= j < list.len() && (#[trigger] list[j]).url == url {
            let j = choose|j: int| 0 <= j < list.len() && (#[trigger] list[j]).url == url;
            if j < last {
                assert(rest[j] == list[j]);
            }
        }
        if exists|j: int| 0 <= j < rest.len() && (#[trigger] rest[j]).url == url {
            let j = choose|j: int| 0 <= j < rest.len() && (#[trigger] rest[j]).url == url;
            assert(list[j].url == url);
        }
    }
}

/// An excerpt holds the beginning of a text, as long as allowed, and says how much
/// was left out.
pub proof fn law_excerpts_say_what_is_left_out(s: Seq<char>, n: nat)
    requires
        s.len() <= usize::MAX,
    ensures
        excerpt_of(s, n).text.is_prefix_of(s),
        excerpt_of(s, n).text.len() + excerpt_of(s, n).left_out == s.len(),
        excerpt_of(s, n).text.len() == if s.len() <= n {
            s.len()
        } else {
            n
        },
{
    let text = excerpt_of(s, n).text;
    assert(text =~= s.subrange(0, text.len() as int));
}

} // verus!
