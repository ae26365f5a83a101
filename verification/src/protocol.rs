//! The `exlap` crate as this library sees it.
//!
//! `exlap::Machine` is one ExLAP session without input or output of its own.
//! Its fields are private to that crate, so what it holds is named here by
//! [`machine_view`], and each method that the library calls is specified over
//! that name. The declarations in this file are believed, not proved; each says
//! which function of the `exlap` crate it speaks of.

use crate::frame::{find_name_end, name_end};
use crate::nonce::{is_cnonce, make_cnonce};
use crate::text::{
    chars_of, contains_text, decimal, find, find_from, find_text, has_text, lemma_find_from,
    parse_unsigned, same_text, text_between, text_opt, texts,
};
use vstd::prelude::*;
use vstd::utf8::{encode_utf8, is_char_boundary};

verus! {

// -- Plain types -----------------------------------------------------------------

/// Where a session is. Everything before `Ready` is the handshake.
#[derive(Clone, Copy, Debug, PartialEq, Eq, Structural)]
pub enum Phase {
    /// Waiting for the server's `Init` banner.
    Init,
    /// `Protocol` sent, waiting for its answer.
    Capabilities,
    /// Authentication challenge requested, waiting for the nonce.
    Challenge,
    /// Authentication response sent, waiting for the verdict.
    AuthResult,
    /// Authenticated. Requests, subscriptions and data flow now.
    Ready,
    /// `<Dir>` sent, waiting for the URL list.
    Directory,
    /// The session was closed, from either side.
    Closed,
    /// The handshake failed.
    Failed,
}

/// The element that carries a value.
#[derive(Clone, Copy, Debug, PartialEq, Eq, Structural)]
pub enum Kind {
    Abs,
    Rel,
    Act,
    Enm,
    Txt,
}

/// One parameter of a function call.
#[derive(Debug)]
pub struct Param {
    pub kind: Kind,
    pub name: String,
    pub raw: String,
}

/// The model of a [`Param`].
pub ghost struct ParamView {
    pub kind: Kind,
    pub name: Seq<char>,
    pub raw: Seq<char>,
}

impl View for Param {
    type V = ParamView;

    open spec fn view(&self) -> ParamView {
        ParamView { kind: self.kind, name: self.name@, raw: self.raw@ }
    }
}

/// The models of a list of parameters.
pub open spec fn param_views(list: Seq<Param>) -> Seq<ParamView> {
    list.map_values(|p: Param| p@)
}

/// One entry of a session's URL directory.
#[derive(Debug)]
pub struct Entry {
    pub url: String,
    /// A callable operation, not something that can be subscribed.
    pub callable: bool,
}

/// The model of an [`Entry`].
pub ghost struct EntryView {
    pub url: Seq<char>,
    pub callable: bool,
}

impl View for Entry {
    type V = EntryView;

    open spec fn view(&self) -> EntryView {
        EntryView { url: self.url@, callable: self.callable }
    }
}

/// The models of a directory.
pub open spec fn entries(list: Seq<Entry>) -> Seq<EntryView> {
    list.map_values(|e: Entry| e@)
}

/// One value element of a `<Dat>`, with the unit that holds for it.
#[derive(Debug)]
pub struct Reading {
    pub name: String,
    /// The tag of the element.
    pub kind: String,
    pub raw: String,
    pub unit: Option<String>,
}

/// The model of a [`Reading`].
pub ghost struct ReadingView {
    pub name: Seq<char>,
    pub kind: Seq<char>,
    pub raw: Seq<char>,
    pub unit: Option<Seq<char>>,
}

impl View for Reading {
    type V = ReadingView;

    open spec fn view(&self) -> ReadingView {
        ReadingView {
            name: self.name@,
            kind: self.kind@,
            raw: self.raw@,
            unit: text_opt(self.unit),
        }
    }
}

/// The models of a list of readings.
pub open spec fn readings(list: Seq<Reading>) -> Seq<ReadingView> {
    list.map_values(|r: Reading| r@)
}

/// A parsed `<Dat>` message.
#[derive(Debug)]
pub struct DatMessage {
    pub url: String,
    /// The elements that carry data.
    pub readings: Vec<Reading>,
    /// The message's own `state` field.
    pub state: Option<String>,
    /// The fields that the head unit reports as absent.
    pub missing: Vec<String>,
    /// The message as it arrived.
    pub raw: String,
}

/// The model of a [`DatMessage`].
pub ghost struct DatView {
    pub url: Seq<char>,
    pub readings: Seq<ReadingView>,
    pub state: Option<Seq<char>>,
    pub missing: Seq<Seq<char>>,
    pub raw: Seq<char>,
}

impl View for DatMessage {
    type V = DatView;

    open spec fn view(&self) -> DatView {
        DatView {
            url: self.url@,
            readings: readings(self.readings@),
            state: text_opt(self.state),
            missing: texts(self.missing@),
            raw: self.raw@,
        }
    }
}

/// What a message meant to a session.
pub enum SessionEvent {
    /// A subscribed URL delivered.
    Data(exlap::Dat),
    /// An answer to one of the session's requests, by id.
    Reply { id: u32, xml: String },
    /// Anything else, unchanged.
    Other(String),
    /// The handshake is complete.
    Authenticated,
    /// The `<Dir>` answer arrived.
    Directory,
}

/// The model of an [`SessionEvent`].
pub ghost enum EventView {
    Data(DatView),
    Reply { id: u32, xml: Seq<char> },
    Other(Seq<char>),
    Authenticated,
    Directory,
}

impl View for SessionEvent {
    type V = EventView;

    open spec fn view(&self) -> EventView {
        match self {
            SessionEvent::Data(d) => EventView::Data(dat_view(*d)),
            SessionEvent::Reply { id, xml } => EventView::Reply { id: *id, xml: xml@ },
            SessionEvent::Other(s) => EventView::Other(s@),
            SessionEvent::Authenticated => EventView::Authenticated,
            SessionEvent::Directory => EventView::Directory,
        }
    }
}

// -- Outside types ---------------------------------------------------------------

/// `exlap::Machine`, one session.
#[verifier::external_type_specification]
#[verifier::external_body]
pub struct ExMachine(exlap::Machine);

/// `exlap::Error`, why a session or a request failed.
#[verifier::external_type_specification]
#[verifier::external_body]
pub struct ExError(exlap::Error);

/// `exlap::Event`, what a message meant.
#[verifier::external_type_specification]
#[verifier::external_body]
pub struct ExEvent(exlap::Event);

/// `exlap::Dat`, a parsed `<Dat>` message.
#[verifier::external_type_specification]
#[verifier::external_body]
pub struct ExDat(exlap::Dat);

// -- Credentials -----------------------------------------------------------------

/// The user names of the credentials, by index.
pub open spec fn user_names() -> Seq<Seq<char>> {
    seq!["Test_TB-105000"@, "RSE_L-CA2000"@, "RSE_3-DE1400"@, "ML_74-125000"@]
}

/// `exlap::USERS` lists the user names of the four credentials.
#[verifier::external_body]
fn users() -> (r: Vec<String>)
    ensures
        texts(r@) == user_names(),
{
    exlap::USERS.iter().map(|u| u.to_string()).collect()
}

/// How many credentials there are.
pub fn user_count() -> (r: usize)
    ensures
        r == user_names().len(),
{
    let all: Vec<String> = users();
    assert(texts(all@).len() == all@.len());
    all.len()
}

/// The user name of a credential.
pub fn user_name(cred: usize) -> (r: String)
    requires
        cred < user_names().len(),
    ensures
        r@ == user_names()[cred as int],
{
    let all: Vec<String> = users();
    assert(texts(all@).len() == all@.len());
    assert(texts(all@)[cred as int] == all@[cred as int]@);
    all[cred].clone()
}

// -- What a machine holds --------------------------------------------------------

/// What one session holds, as far as the library reads or relies on it.
pub ghost struct MachineView {
    /// The credential that it authenticates with.
    pub cred: int,
    pub phase: Phase,
    /// The URL directory, empty until it was read.
    pub directory: Seq<EntryView>,
    /// The id of the `<Dir>` request that waits for its answer.
    pub dir_request: Option<u32>,
    /// The requests that wait to be sent, in order.
    pub out: Seq<Seq<char>>,
    /// The server heartbeat that it asks for once authenticated, in seconds.
    pub heartbeat: Option<u8>,
    /// Whether it asks the server to stamp each `<Dat>`.
    pub timestamps: bool,
    /// Whether its client nonces come from the caller.
    pub own_cnonce: bool,
}

/// What a machine holds.
pub uninterp spec fn machine_view(m: exlap::Machine) -> MachineView;

/// What a parsed `<Dat>` holds.
pub uninterp spec fn dat_view(d: exlap::Dat) -> DatView;

/// What an event holds.
pub uninterp spec fn event_view(e: exlap::Event) -> EventView;

/// The models of a list of events.
pub open spec fn event_views(list: Seq<exlap::Event>) -> Seq<EventView> {
    list.map_values(|e: exlap::Event| event_view(e))
}

/// A `<Req>` element with its id and body.
pub open spec fn request_frame(id: u32, body: Seq<char>) -> Seq<char> {
    "<Req id=\""@ + decimal(id as nat) + "\">"@ + body + "</Req>"@
}

/// The machine with one more request to send.
pub open spec fn with_request(m: MachineView, id: u32, body: Seq<char>) -> MachineView {
    MachineView { out: m.out.push(request_frame(id, body)), ..m }
}

/// A machine that awaits the server's `Init`.
pub open spec fn new_machine_view(cred: int) -> MachineView {
    MachineView {
        cred: cred % 4,
        phase: Phase::Init,
        directory: Seq::empty(),
        dir_request: None,
        out: Seq::empty(),
        heartbeat: None,
        timestamps: false,
        own_cnonce: false,
    }
}

/// `exlap::Machine::new` makes a session that awaits the server's `Init`, for
/// the credential `cred` modulo the number of credentials.
pub assume_specification[ exlap::Machine::new ](cred: usize) -> (r: exlap::Machine)
    ensures
        machine_view(r) == new_machine_view(cred as int),
;

/// `exlap::Machine::with_server_heartbeat` sets the heartbeat that the session
/// will ask for, sixty seconds at most.
pub assume_specification[ exlap::Machine::with_server_heartbeat ](
    m: exlap::Machine,
    secs: u8,
) -> (r: exlap::Machine)
    ensures
        machine_view(r) == (MachineView {
            heartbeat: Some(
                if secs <= 60 {
                    secs
                } else {
                    60
                },
            ),
            ..machine_view(m)
        }),
;

/// `exlap::Machine::with_timestamps` sets whether subscriptions ask for stamps.
pub assume_specification[ exlap::Machine::with_timestamps ](m: exlap::Machine, on: bool) -> (r:
    exlap::Machine)
    ensures
        machine_view(r) == (MachineView { timestamps: on, ..machine_view(m) }),
;

/// `exlap::Machine::with_cnonce` makes the session take its client nonces from
/// the function it is given, here `make_cnonce`.
#[verifier::external_body]
fn with_own_cnonce(m: exlap::Machine) -> (r: exlap::Machine)
    ensures
        machine_view(r) == (MachineView { own_cnonce: true, ..machine_view(m) }),
{
    m.with_cnonce(make_cnonce)
}

/// `exlap::Machine::phase` tells where the session is.
#[verifier::external_body]
pub(crate) fn machine_phase(m: &exlap::Machine) -> (r: Phase)
    ensures
        r == machine_view(*m).phase,
{
    match m.phase() {
        exlap::Phase::Init => Phase::Init,
        exlap::Phase::Capabilities => Phase::Capabilities,
        exlap::Phase::Challenge => Phase::Challenge,
        exlap::Phase::AuthResult => Phase::AuthResult,
        exlap::Phase::Ready => Phase::Ready,
        exlap::Phase::Directory => Phase::Directory,
        exlap::Phase::Closed => Phase::Closed,
        exlap::Phase::Failed => Phase::Failed,
    }
}

/// `exlap::Machine::directory` gives the URL directory that the session has
/// read.
#[verifier::external_body]
pub(crate) fn machine_directory(m: &exlap::Machine) -> (r: Vec<Entry>)
    ensures
        entries(r@) == machine_view(*m).directory,
{
    m.directory().iter().map(|e| Entry { url: e.url.clone(), callable: e.callable }).collect()
}

/// `exlap::Machine::take_outbound` hands out the requests that wait to be sent,
/// in order, and leaves none.
pub assume_specification[ exlap::Machine::take_outbound ](m: &mut exlap::Machine) -> (r: Vec<
    String,
>)
    ensures
        texts(r@) == machine_view(*old(m)).out,
        machine_view(*final(m)) == (MachineView { out: Seq::empty(), ..machine_view(*old(m)) }),
;

/// `exlap::Machine::request` queues one request under a fresh id, and returns
/// the id. Ids come from one counter of the process, so nothing is said of
/// which one it is.
pub assume_specification[ exlap::Machine::request ](m: &mut exlap::Machine, body: &str) -> (r: u32)
    ensures
        machine_view(*final(m)) == with_request(machine_view(*old(m)), r, body@),
;

/// `exlap::Machine::bye` closes the session and queues `<Bye/>`.
pub assume_specification[ exlap::Machine::bye ](m: &mut exlap::Machine) -> (r: u32)
    ensures
        machine_view(*final(m)) == with_request(
            MachineView { phase: Phase::Closed, ..machine_view(*old(m)) },
            r,
            "<Bye/>"@,
        ),
;

/// The body of the request for the whole directory.
pub open spec fn directory_query() -> Seq<char> {
    "<Dir urlPattern=\"*\" fromEntry=\"1\" numOfEntries=\"999999999\"/>"@
}

/// The machine after it asked for the directory under `id`.
pub open spec fn awaiting_directory(m: MachineView, id: u32) -> MachineView {
    with_request(
        MachineView { phase: Phase::Directory, dir_request: Some(id), ..m },
        id,
        directory_query(),
    )
}

/// The name of a phase, as error messages have it.
pub open spec fn phase_name(phase: Phase) -> Seq<char> {
    match phase {
        Phase::Init => "Init"@,
        Phase::Capabilities => "Capabilities"@,
        Phase::Challenge => "Challenge"@,
        Phase::AuthResult => "AuthResult"@,
        Phase::Ready => "Ready"@,
        Phase::Directory => "Directory"@,
        Phase::Closed => "Closed"@,
        Phase::Failed => "Failed"@,
    }
}

/// `exlap::Machine::read_directory` asks a session that is `Ready` for its URL
/// directory; in any other phase it fails and changes nothing.
pub assume_specification[ exlap::Machine::read_directory ](m: &mut exlap::Machine) -> (r: Result<
    u32,
    exlap::Error,
>)
    ensures
        r is Ok <==> machine_view(*old(m)).phase == Phase::Ready,
        match r {
            Ok(id) => machine_view(*final(m)) == awaiting_directory(machine_view(*old(m)), id),
            Err(e) => machine_view(*final(m)) == machine_view(*old(m)) && error_message(e)
                == "protocol: cannot read the directory in phase "@ + phase_name(
                machine_view(*old(m)).phase,
            ),
        },
;

/// The body of a subscription.
pub open spec fn subscribe_body(url: Seq<char>, ival_ms: u32, stamp: bool) -> Seq<char> {
    "<Subscribe url=\""@ + url + "\" ival=\""@ + decimal(ival_ms as nat) + "\" timeStamp=\""@ + (
    if stamp {
        "true"@
    } else {
        "false"@
    }) + "\"/>"@
}

/// One subscription request for each URL.
pub open spec fn subscribe_frames(
    ids: Seq<u32>,
    urls: Seq<Seq<char>>,
    ival_ms: u32,
    stamp: bool,
) -> Seq<Seq<char>> {
    Seq::new(urls.len(), |i: int| request_frame(ids[i], subscribe_body(urls[i], ival_ms, stamp)))
}

/// `exlap::Machine::subscribe_one` queues the subscription of one URL.
pub assume_specification[ exlap::Machine::subscribe_one ](
    m: &mut exlap::Machine,
    url: &str,
    ival_ms: u32,
) -> (r: u32)
    ensures
        machine_view(*final(m)) == with_request(
            machine_view(*old(m)),
            r,
            subscribe_body(url@, ival_ms, machine_view(*old(m)).timestamps),
        ),
;

// -- Reading messages ------------------------------------------------------------

/// The text between the quotes behind the first `needle`, not before `from`, that
/// stands at the start or after a space or a tab.
pub open spec fn quoted_after(elem: Seq<char>, needle: Seq<char>, from: nat) -> Option<Seq<char>>
    decreases elem.len() - from,
{
    match find_from(elem, needle, from as int) {
        None => None,
        Some(at) => {
            let start = at + needle.len();
            if at == 0 || elem[at - 1] == ' ' || elem[at - 1] == '\t' {
                match find_from(elem, seq!['"'], start) {
                    Some(end) => Some(elem.subrange(start, end)),
                    None => None,
                }
            } else if needle.len() == 0 {
                None
            } else {
                proof {
                    lemma_find_from(elem, needle, from as int);
                }
                quoted_after(elem, needle, start as nat)
            }
        },
    }
}

/// An attribute of the first element of a text: that of the text up to the first
/// closing bracket.
pub open spec fn first_attr(s: Seq<char>, name: Seq<char>) -> Option<Seq<char>> {
    let elem = match find(s, seq!['>']) {
        Some(gt) => s.take(gt + 1),
        None => s,
    };
    quoted_after(elem, name + seq!['=', '"'], 0)
}

/// `exlap::attr` reads an attribute from the first element of a text: the first
/// one with the name that a space or a tab stands before, or nothing.
#[verifier::external_body]
pub(crate) fn attr(s: &str, name: &str) -> (r: Option<String>)
    ensures
        text_opt(r) == first_attr(s@, name@),
{
    exlap::attr(s, name)
}

/// The status of the first `<Rsp>` of a text.
pub open spec fn rsp_status(xml: Seq<char>) -> Option<Seq<char>> {
    match find(xml, "<Rsp"@) {
        Some(at) => first_attr(xml.skip(at), "status"@),
        None => None,
    }
}

/// `exlap::reply_status` reads the `status` attribute of the first `<Rsp>`,
/// which a success does not have.
#[verifier::external_body]
pub(crate) fn reply_status(xml: &str) -> (r: Option<String>)
    ensures
        text_opt(r) == rsp_status(xml@),
{
    exlap::reply_status(xml)
}

/// What `exlap::parse_dat` makes of a text.
pub uninterp spec fn dat_document(xml: Seq<char>) -> Option<DatView>;

/// `exlap::parse_dat` parses a `<Dat>` message, and gives nothing for a text
/// without one. What it makes of the text is a function of it, and holds the
/// text.
pub assume_specification[ exlap::parse_dat ](xml: &str) -> (r: Option<exlap::Dat>)
    ensures
        match r {
            Some(d) => dat_document(xml@) == Some(dat_view(d)) && dat_view(d).raw == xml@,
            None => dat_document(xml@) is None,
        },
        r is Some ==> contains_text(xml@, "<Dat "@),
;

/// The contents of an `exlap::Dat`, moved out one for one: each value with the
/// tag that `exlap::Kind::tag` gives for it and the unit that
/// `exlap::Dat::unit_for` gives for its name.
#[verifier::external_body]
pub(crate) fn open_dat(d: exlap::Dat) -> (r: DatMessage)
    ensures
        r@ == dat_view(d),
{
    let reading = |v: &exlap::Value| Reading {
        name: v.name.clone(),
        kind: v.kind.tag().to_string(),
        raw: v.raw.clone(),
        unit: d.unit_for(&v.name).map(|u| u.to_string()),
    };
    let readings = d.values.iter().map(reading).collect();
    DatMessage { url: d.url, readings, state: d.state, missing: d.missing, raw: d.raw }
}

/// The contents of an `exlap::Event`, moved out one for one.
#[verifier::external_body]
pub(crate) fn open_event(e: exlap::Event) -> (r: SessionEvent)
    ensures
        r@ == event_view(e),
{
    match e {
        exlap::Event::Data(d) => SessionEvent::Data(d),
        exlap::Event::Reply { id, xml } => SessionEvent::Reply { id, xml },
        exlap::Event::Other(s) => SessionEvent::Other(s),
        exlap::Event::Authenticated => SessionEvent::Authenticated,
        exlap::Event::Directory => SessionEvent::Directory,
    }
}

/// Whether `exlap::Value::as_f64` reads a number from the text of a value.
pub uninterp spec fn is_number(raw: Seq<char>) -> bool;

/// `exlap::Value::as_f64` reads a number from the text of a value, or nothing.
/// Whether it does is a function of the text.
#[verifier::external_body]
pub(crate) fn reads_as_number(raw: &str) -> (r: bool)
    ensures
        r == is_number(raw@),
{
    let v = exlap::Value { kind: exlap::Kind::Abs, name: String::new(), raw: raw.to_string() };
    v.as_f64().is_some()
}

/// The message of an `exlap::Error`.
pub uninterp spec fn error_message(e: exlap::Error) -> Seq<char>;

/// The message that `exlap::Error` displays.
#[verifier::external_body]
pub(crate) fn error_text(e: &exlap::Error) -> (r: String)
    ensures
        r@ == error_message(*e),
{
    format!("{}", e)
}

// -- Driving a session -----------------------------------------------------------

/// The nonce of an authentication challenge.
pub open spec fn challenge_nonce(msg: Seq<char>) -> Option<Seq<char>> {
    match find(msg, "<Challenge"@) {
        Some(at) => first_attr(msg.skip(at), "nonce"@),
        None => None,
    }
}

/// The nonce of an authentication challenge, or nothing where there is none.
pub open spec fn nonce_text(msg: Seq<char>) -> Seq<char> {
    match challenge_nonce(msg) {
        Some(nonce) => nonce,
        None => Seq::empty(),
    }
}

/// A nonce can be cut to its first 44 bytes: it is no longer than that, or a
/// character begins there.
pub open spec fn cuttable(nonce: Seq<char>) -> bool {
    let bytes = encode_utf8(nonce);
    bytes.len() <= 44 || is_char_boundary(bytes, 44)
}

/// The tag of the first element from `pos` on: closing tags, declarations and
/// processing instructions are none.
pub open spec fn root_from(s: Seq<char>, pos: nat) -> Option<Seq<char>>
    decreases s.len() - pos,
{
    match find_from(s, seq!['<'], pos as int) {
        None => None,
        Some(open) => match find_from(s, seq!['>'], open) {
            None => None,
            Some(gt) => {
                let tag = s.subrange(open + 1, name_end(s, open + 1));
                if tag.len() > 0 && tag[0] != '?' && tag[0] != '!' {
                    Some(tag)
                } else {
                    proof {
                        lemma_find_from(s, seq!['<'], pos as int);
                        lemma_find_from(s, seq!['>'], open);
                    }
                    root_from(s, (gt + 1) as nat)
                }
            },
        },
    }
}

/// A message is a status of the server.
pub open spec fn is_status(msg: Seq<char>) -> bool {
    root_from(msg, 0) == Some("Status"@) && !contains_text(msg, "<Dat "@)
}

/// A message is a ping of the server.
pub open spec fn is_ping(msg: Seq<char>) -> bool {
    is_status(msg) && contains_text(msg, "Alive"@)
}

/// A message says that the server ends the session.
pub open spec fn is_bye(msg: Seq<char>) -> bool {
    is_status(msg) && !contains_text(msg, "Alive"@) && contains_text(msg, "Bye"@)
}

/// A message is a status that is dealt with in any phase: all but the banner with
/// which the server opens a session.
pub open spec fn any_phase(msg: Seq<char>) -> bool {
    is_status(msg) && (contains_text(msg, "Alive"@) || contains_text(msg, "Bye"@)
        || !contains_text(msg, "Init"@))
}

/// A session in this phase takes this message. One that awaits the challenge
/// cuts the nonce to 44 bytes, and cannot where that splits a character.
pub open spec fn feedable(phase: Phase, msg: Seq<char>) -> bool {
    phase == Phase::Challenge && !any_phase(msg) ==> match challenge_nonce(msg) {
        Some(nonce) => cuttable(nonce),
        None => true,
    }
}

/// The tag of the first element of a message.
pub fn message_root(v: &Vec<char>) -> (r: Option<String>)
    ensures
        text_opt(r) == root_from(v@, 0),
{
    let mut opening: Vec<char> = Vec::new();
    opening.push('<');
    assert(opening@ == seq!['<']);
    let mut closing: Vec<char> = Vec::new();
    closing.push('>');
    assert(closing@ == seq!['>']);
    let mut pos: usize = 0;
    loop
        invariant
            opening@ == seq!['<'],
            closing@ == seq!['>'],
            pos <= v@.len(),
            root_from(v@, 0) == root_from(v@, pos as nat),
        decreases v@.len() - pos,
    {
        let open: usize = match find_text(v, &opening, pos) {
            Some(i) => i,
            None => return None,
        };
        let gt: usize = match find_text(v, &closing, open) {
            Some(i) => i,
            None => return None,
        };
        let end: usize = find_name_end(v, open + 1);
        if open + 1 < end && v[open + 1] != '?' && v[open + 1] != '!' {
            return Some(text_between(v, open + 1, end));
        }
        pos = gt + 1;
    }
}

/// Whether a message is a status that is dealt with in any phase.
pub fn is_any_phase(msg: &str) -> (r: bool)
    ensures
        r == any_phase(msg@),
{
    match message_root(&chars_of(msg)) {
        Some(tag) => same_text(tag.as_str(), "Status") && !has_text(msg, "<Dat ") && (has_text(
            msg,
            "Alive",
        ) || has_text(msg, "Bye") || !has_text(msg, "Init")),
        None => false,
    }
}

/// The session no longer takes messages.
pub open spec fn is_over(phase: Phase) -> bool {
    phase == Phase::Closed || phase == Phase::Failed
}

/// A ping of the server, as one complete message.
pub open spec fn ping() -> Seq<char> {
    "<Status><Alive/></Status>"@
}

/// The id that a message answers to.
pub open spec fn reply_id(msg: Seq<char>) -> Option<u32> {
    match first_attr(msg, "id"@) {
        Some(s) => match parse_unsigned(s, u32::MAX as nat) {
            Some(id) => Some(id as u32),
            None => None,
        },
        None => None,
    }
}

/// A message is the answer to the request for the directory.
pub open spec fn answers_directory(v: MachineView, msg: Seq<char>) -> bool {
    v.dir_request is Some && reply_id(msg) == v.dir_request
}

/// A verdict that names a failure.
pub open spec fn names_failure(msg: Seq<char>) -> bool {
    contains_text(msg, "ailed"@) || contains_text(msg, "AILED"@)
}

/// What a message is that is no step of the session: data, an answer, or
/// anything else.
pub open spec fn classified(msg: Seq<char>) -> EventView {
    match dat_document(msg) {
        Some(d) => EventView::Data(d),
        None => match reply_id(msg) {
            Some(id) => EventView::Reply { id, xml: msg },
            None => EventView::Other(msg),
        },
    }
}

/// What a message means to a session, or nothing where the session fails on it.
pub open spec fn feed_events(v: MachineView, msg: Seq<char>) -> Option<Seq<EventView>> {
    if is_over(v.phase) {
        None
    } else if any_phase(msg) {
        Some(seq![EventView::Other(msg)])
    } else {
        match v.phase {
            Phase::Init => if contains_text(msg, "Init"@) {
                Some(Seq::empty())
            } else {
                None
            },
            Phase::Capabilities => Some(Seq::empty()),
            Phase::Challenge => if challenge_nonce(msg) is Some {
                Some(Seq::empty())
            } else {
                None
            },
            Phase::AuthResult => if names_failure(msg) {
                None
            } else {
                Some(seq![EventView::Authenticated])
            },
            Phase::Directory => if answers_directory(v, msg) {
                Some(seq![EventView::Directory])
            } else {
                Some(seq![classified(msg)])
            },
            _ => Some(seq![classified(msg)]),
        }
    }
}

/// The phase of a session after a message.
pub open spec fn phase_after(v: MachineView, msg: Seq<char>) -> Phase {
    if is_over(v.phase) {
        v.phase
    } else if feed_events(v, msg) is None {
        Phase::Failed
    } else if any_phase(msg) {
        if is_bye(msg) {
            Phase::Closed
        } else {
            v.phase
        }
    } else {
        match v.phase {
            Phase::Init => Phase::Capabilities,
            Phase::Capabilities => Phase::Challenge,
            Phase::Challenge => Phase::AuthResult,
            Phase::AuthResult => Phase::Ready,
            Phase::Directory => if answers_directory(v, msg) {
                Phase::Ready
            } else {
                Phase::Directory
            },
            _ => v.phase,
        }
    }
}

/// The directory that a `<Dir>` answer lists from `pos` on: each `<Match>` with a
/// URL is an entry, and is callable where its type is `function`.
pub open spec fn listed_from(s: Seq<char>, pos: nat) -> Seq<EntryView>
    decreases s.len() - pos,
{
    match find_from(s, seq!['<'], pos as int) {
        None => Seq::empty(),
        Some(open) => match find_from(s, seq!['>'], open) {
            None => Seq::empty(),
            Some(gt) => {
                proof {
                    lemma_find_from(s, seq!['<'], pos as int);
                    lemma_find_from(s, seq!['>'], open);
                }
                let elem = s.subrange(open, gt + 1);
                let rest = listed_from(s, (gt + 1) as nat);
                let is_match = s.subrange(open + 1, name_end(s, open + 1)) == "Match"@;
                match first_attr(elem, "url"@) {
                    Some(url) if is_match => seq![
                        EntryView {
                            url,
                            callable: first_attr(elem, "type"@) == Some("function"@),
                        },
                    ] + rest,
                    _ => rest,
                }
            },
        },
    }
}

/// The directory that a `<Dir>` answer lists.
pub open spec fn listed_entries(msg: Seq<char>) -> Seq<EntryView> {
    listed_from(msg, 0)
}

/// The session `v`, fed the message, is `w` afterwards, and the message meant
/// `events`, or the session failed on it where there are none. `listed` is the
/// directory in the message, which replaces that of the session unless it is
/// empty.
pub open spec fn fed(
    v: MachineView,
    msg: Seq<char>,
    w: MachineView,
    events: Option<Seq<EventView>>,
    listed: Seq<EntryView>,
) -> bool {
    let arrives = events == Some(seq![EventView::Directory]);
    &&& events == feed_events(v, msg)
    &&& w == (MachineView {
        phase: phase_after(v, msg),
        directory: if arrives && listed.len() > 0 {
            listed
        } else {
            v.directory
        },
        dir_request: if arrives {
            None
        } else {
            v.dir_request
        },
        out: w.out,
        ..v
    })
    &&& events is None ==> w.out == v.out
}

/// The body of an answer to a ping.
pub open spec fn alive_body() -> Seq<char> {
    "<Alive/>"@
}

/// The body of the request that opens the handshake.
pub open spec fn protocol_body() -> Seq<char> {
    "<Protocol version=\"1\" returnCapabilities=\"true\"/>"@
}

/// The body of the request for an authentication challenge.
pub open spec fn challenge_body() -> Seq<char> {
    "<Authenticate phase=\"challenge\" useHash=\"sha256\"/>"@
}

/// The body of an authentication response.
pub open spec fn response_body(user: Seq<char>, cnonce: Seq<char>, digest: Seq<char>) -> Seq<char> {
    "<Authenticate phase=\"response\" user=\""@ + user + "\" cnonce=\""@ + cnonce
        + "\" digest=\""@ + digest + "\"/>"@
}

/// The body of the request for a server heartbeat.
pub open spec fn heartbeat_body(secs: u8) -> Seq<char> {
    "<Heartbeat ival=\""@ + decimal(secs as nat) + "\"/>"@
}

/// The digest with which a credential answers a nonce, given the client nonce.
pub uninterp spec fn auth_digest(cred: int, nonce: Seq<char>, cnonce: Seq<char>) -> Seq<char>;

/// The session `v` became `w` and queued this one request.
pub open spec fn queued(v: MachineView, w: MachineView, id: u32, body: Seq<char>) -> bool {
    w.out == v.out.push(request_frame(id, body))
}

/// What the session `v`, which does not fail on the message, queued in answer to
/// it as it became `w`. The request id, the client nonce and the digest are those
/// of the answer, where it has them.
pub open spec fn answered(
    v: MachineView,
    w: MachineView,
    msg: Seq<char>,
    id: u32,
    cnonce: Seq<char>,
    digest: Seq<char>,
) -> bool {
    if any_phase(msg) {
        if is_ping(msg) {
            queued(v, w, id, alive_body())
        } else {
            w.out == v.out
        }
    } else {
        match v.phase {
            Phase::Init => queued(v, w, id, protocol_body()),
            Phase::Capabilities => queued(v, w, id, challenge_body()),
            Phase::Challenge => queued(
                v,
                w,
                id,
                response_body(user_names()[v.cred], cnonce, digest),
            ) && (v.own_cnonce ==> is_cnonce(cnonce)),
            Phase::AuthResult => match v.heartbeat {
                Some(secs) => queued(v, w, id, heartbeat_body(secs)),
                None => w.out == v.out,
            },
            _ => w.out == v.out,
        }
    }
}

/// Why a session fails on a message. In the phases that are not listed none
/// does.
pub open spec fn failure(v: MachineView, msg: Seq<char>) -> Option<Seq<char>> {
    match v.phase {
        Phase::Init => Some("protocol: expected Init, got: "@ + msg),
        Phase::Challenge => Some("protocol: no nonce in: "@ + msg),
        Phase::AuthResult => Some(
            "protocol: auth failed for "@ + user_names()[v.cred] + ": "@ + msg,
        ),
        Phase::Closed => Some("disconnected"@),
        Phase::Failed => Some("protocol: session failed; open a new one"@),
        _ => None,
    }
}

/// `exlap::Machine::feed` drives the session with one message: it advances the
/// handshake, queues the answer, and returns what the message meant. It returns
/// an error where the session is over or fails on the message. The digest of an
/// authentication response is a function of the credential, the nonce in the
/// message, and the client nonce. The directory in an answer is read by
/// `exlap::parse_directory`, which takes the `<Match>` elements that have a URL.
pub assume_specification[ exlap::Machine::feed ](m: &mut exlap::Machine, msg: &str) -> (r: Result<
    Vec<exlap::Event>,
    exlap::Error,
>)
    requires
        feedable(machine_view(*old(m)).phase, msg@),
    ensures
        fed(
            machine_view(*old(m)),
            msg@,
            machine_view(*final(m)),
            match r {
                Ok(list) => Some(event_views(list@)),
                Err(_) => None,
            },
            listed_entries(msg@),
        ),
        r is Ok ==> exists|id: u32, cnonce: Seq<char>| #[trigger]
            answered(
                machine_view(*old(m)),
                machine_view(*final(m)),
                msg@,
                id,
                cnonce,
                auth_digest(machine_view(*old(m)).cred, nonce_text(msg@), cnonce),
            ),
        r matches Err(e) ==> failure(machine_view(*old(m)), msg@) == Some(error_message(e)),
;

/// The session `v`, fed the message, is `w` afterwards, and the message meant
/// `events`, or the session failed on it where there are none.
pub open spec fn takes(
    v: MachineView,
    msg: Seq<char>,
    w: MachineView,
    events: Option<Seq<EventView>>,
) -> bool {
    &&& fed(v, msg, w, events, listed_entries(msg))
    &&& events is Some ==> exists|id: u32, cnonce: Seq<char>| #[trigger]
        answered(v, w, msg, id, cnonce, auth_digest(v.cred, nonce_text(msg), cnonce))
    &&& events is None ==> failure(v, msg) is Some
}

/// What a message meant, as [`feed_message`] gives it.
pub open spec fn meaning(r: Result<Option<SessionEvent>, String>) -> Option<Seq<EventView>> {
    match r {
        Ok(Some(e)) => Some(seq![e@]),
        Ok(None) => Some(Seq::empty()),
        Err(_) => None,
    }
}

/// Feeds a session one message: what the message meant, or why the session
/// failed on it.
pub fn feed_message(m: &mut exlap::Machine, msg: &str) -> (r: Result<Option<SessionEvent>, String>)
    requires
        feedable(machine_view(*old(m)).phase, msg@),
    ensures
        takes(
            machine_view(*old(m)),
            msg@,
            machine_view(*final(m)),
            meaning(r),
        ),
        r matches Err(reason) ==> failure(machine_view(*old(m)), msg@) == Some(reason@),
{
    match m.feed(msg) {
        Ok(list) => {
            let mut events: Vec<exlap::Event> = list;
            let ghost all = event_views(events@);
            assert(all.len() == events@.len());
            assert(all.len() <= 1);
            match events.pop() {
                Some(e) => {
                    assert(all == seq![event_view(e)]);
                    Ok(Some(open_event(e)))
                },
                None => {
                    assert(all == Seq::<EventView>::empty());
                    Ok(None)
                },
            }
        },
        Err(e) => Err(error_text(&e)),
    }
}

// -- Request bodies --------------------------------------------------------------

/// One character inside a double-quoted XML attribute.
pub open spec fn escaped_char(c: char) -> Seq<char> {
    if c == '&' {
        "&amp;"@
    } else if c == '<' {
        "&lt;"@
    } else if c == '>' {
        "&gt;"@
    } else if c == '"' {
        "&quot;"@
    } else {
        seq![c]
    }
}

/// A text inside a double-quoted XML attribute.
pub open spec fn escaped(s: Seq<char>) -> Seq<char>
    decreases s.len(),
{
    if s.len() == 0 {
        Seq::empty()
    } else {
        escaped(s.drop_last()) + escaped_char(s.last())
    }
}

/// `exlap::escape_attr` escapes a text for use in a double-quoted XML attribute.
pub assume_specification[ exlap::escape_attr ](s: &str) -> (r: String)
    ensures
        r@ == escaped(s@),
;

/// The tag of a kind of value.
pub open spec fn kind_tag(k: Kind) -> Seq<char> {
    match k {
        Kind::Abs => "Abs"@,
        Kind::Rel => "Rel"@,
        Kind::Act => "Act"@,
        Kind::Enm => "Enm"@,
        Kind::Txt => "Txt"@,
    }
}

/// The parameters of a call, as elements.
pub open spec fn param_elements(list: Seq<ParamView>) -> Seq<char>
    decreases list.len(),
{
    if list.len() == 0 {
        Seq::empty()
    } else {
        let p = list.last();
        param_elements(list.drop_last()) + "<"@ + kind_tag(p.kind) + " name=\""@ + escaped(p.name)
            + "\" val=\""@ + escaped(p.raw) + "\"/>"@
    }
}

/// The body of a function call.
pub open spec fn call_body(url: Seq<char>, list: Seq<ParamView>) -> Seq<char> {
    if list.len() == 0 {
        "<Call url=\""@ + escaped(url) + "\"/>"@
    } else {
        "<Call url=\""@ + escaped(url) + "\">"@ + param_elements(list) + "</Call>"@
    }
}

/// `exlap::call` builds the body of a function call, with the parameters as
/// children.
#[verifier::external_body]
pub(crate) fn build_call(url: &str, list: &Vec<Param>) -> (r: String)
    ensures
        r@ == call_body(url@, param_views(list@)),
{
    let kind = |k: Kind| match k {
        Kind::Abs => exlap::Kind::Abs,
        Kind::Rel => exlap::Kind::Rel,
        Kind::Act => exlap::Kind::Act,
        Kind::Enm => exlap::Kind::Enm,
        Kind::Txt => exlap::Kind::Txt,
    };
    let value = |p: &Param| exlap::Value { kind: kind(p.kind), name: p.name.clone(), raw: p.raw.clone() };
    let converted: Vec<exlap::Value> = list.iter().map(value).collect();
    exlap::call(url, &converted)
}

/// The body of an interface query.
pub open spec fn interface_body(url: Seq<char>) -> Seq<char> {
    "<Interface url=\""@ + escaped(url) + "\"/>"@
}

/// `exlap::interface` builds the body of an interface query.
pub assume_specification[ exlap::interface ](url: &str) -> (r: String)
    ensures
        r@ == interface_body(url@),
;

// -- A session for a credential --------------------------------------------------

/// Server-heartbeat interval, in seconds, requested on connect. The protocol
/// allows 0 to 60. 0 disables the heartbeat and lets the head unit leak sessions
/// across reconnects, so it is kept nonzero; the session answers the pings, so
/// only a dead session is reaped.
pub const HEARTBEAT_IVAL_SECS: u8 = 10;

/// A fresh session for a credential, set up as the hook wants it.
pub open spec fn fresh_machine(cred: int) -> MachineView {
    MachineView {
        heartbeat: Some(HEARTBEAT_IVAL_SECS),
        timestamps: true,
        own_cnonce: true,
        ..new_machine_view(cred)
    }
}

/// A new session for a credential, told to ask for a server heartbeat, to take
/// its client nonce from this library, and to ask for timestamps.
pub fn new_machine(cred: usize) -> (r: exlap::Machine)
    ensures
        machine_view(r) == fresh_machine(cred as int),
{
    let m: exlap::Machine = exlap::Machine::new(cred).with_server_heartbeat(HEARTBEAT_IVAL_SECS);
    with_own_cnonce(m).with_timestamps(true)
}

} // verus!
