//! The commands of the web UI: JSON text in, a typed command out.
//!
//! The JSON itself is parsed by `serde_json`. What a `serde_json::Value` holds
//! is named by [`json_view`]; the declarations at the top are believed, not
//! proved.

use crate::protocol::{build_call, call_body, param_views, Kind, Param, ParamView};
use crate::text::{owned, same_text, text_opt};
use vstd::prelude::*;

verus! {

// -- JSON values -----------------------------------------------------------------

/// `serde_json::Value`, a parsed JSON document.
#[verifier::external_type_specification]
#[verifier::external_body]
pub struct ExJsonValue(serde_json::Value);

/// `serde_json::Error`, why a text is no JSON document.
#[verifier::external_type_specification]
#[verifier::external_body]
pub struct ExJsonError(serde_json::Error);

/// What a JSON value holds. Numbers are not told apart: no command has one.
pub ghost enum Json {
    Null,
    Bool(bool),
    Number,
    Text(Seq<char>),
    Items(Seq<Json>),
    Fields(Map<Seq<char>, Json>),
}

/// What a JSON value holds.
pub uninterp spec fn json_view(v: serde_json::Value) -> Json;

/// The models of a list of JSON values.
pub open spec fn json_views(list: Seq<serde_json::Value>) -> Seq<Json> {
    list.map_values(|v: serde_json::Value| json_view(v))
}

/// The JSON document that a text writes, if it writes one.
pub uninterp spec fn json_document(text: Seq<char>) -> Option<Json>;

/// `serde_json::from_str` parses a JSON document, or fails where the text is
/// none. Which it is, and what the document holds, is a function of the text.
#[verifier::external_body]
fn parse_json(text: &str) -> (r: Result<serde_json::Value, serde_json::Error>)
    ensures
        match r {
            Ok(v) => json_document(text@) == Some(json_view(v)),
            Err(_) => json_document(text@) is None,
        },
{
    serde_json::from_str(text)
}

/// `serde_json::Value::get` with a string looks up a field of an object, and
/// gives nothing for any other value.
#[verifier::external_body]
fn json_get<'a>(v: &'a serde_json::Value, key: &str) -> (r: Option<&'a serde_json::Value>)
    ensures
        match json_view(*v) {
            Json::Fields(m) => match r {
                Some(x) => m.contains_key(key@) && m[key@] == json_view(*x),
                None => !m.contains_key(key@),
            },
            _ => r is None,
        },
{
    v.get(key)
}

/// `serde_json::Value::as_str` gives the text of a string, and nothing for any
/// other value.
pub assume_specification[ serde_json::Value::as_str ](v: &serde_json::Value) -> (r: Option<&str>)
    ensures
        match r {
            Some(s) => json_view(*v) == Json::Text(s@),
            None => !(json_view(*v) is Text),
        },
;

/// `serde_json::Value::as_array` gives the items of an array, and nothing for
/// any other value.
pub assume_specification[ serde_json::Value::as_array ](v: &serde_json::Value) -> (r: Option<
    &Vec<serde_json::Value>,
>)
    ensures
        match r {
            Some(list) => json_view(*v) == Json::Items(json_views(list@)),
            None => !(json_view(*v) is Items),
        },
;

/// A field of an object.
pub open spec fn field(j: Json, key: Seq<char>) -> Option<Json> {
    match j {
        Json::Fields(m) => if m.contains_key(key) {
            Some(m[key])
        } else {
            None
        },
        _ => None,
    }
}

/// A field of an object that is a string.
pub open spec fn text_field(j: Json, key: Seq<char>) -> Option<Seq<char>> {
    match field(j, key) {
        Some(Json::Text(s)) => Some(s),
        _ => None,
    }
}

/// Reads a field of an object that is a string.
pub fn get_text(v: &serde_json::Value, key: &str) -> (r: Option<String>)
    ensures
        text_opt(r) == text_field(json_view(*v), key@),
{
    match json_get(v, key) {
        Some(x) => match x.as_str() {
            Some(s) => Some(owned(s)),
            None => None,
        },
        None => None,
    }
}

// -- Parameters of a call --------------------------------------------------------

/// The kind that a parameter's `kind` text names. Anything unknown is text.
pub open spec fn kind_named(s: Seq<char>) -> Kind {
    if s == "Abs"@ {
        Kind::Abs
    } else if s == "Rel"@ {
        Kind::Rel
    } else if s == "Act"@ {
        Kind::Act
    } else if s == "Enm"@ {
        Kind::Enm
    } else {
        Kind::Txt
    }
}

/// One parameter: it needs a name; the value defaults to nothing and the kind
/// to text.
pub open spec fn param(j: Json) -> Option<ParamView> {
    match text_field(j, "name"@) {
        Some(name) => Some(
            ParamView {
                kind: match text_field(j, "kind"@) {
                    Some(k) => kind_named(k),
                    None => Kind::Txt,
                },
                name,
                raw: match text_field(j, "val"@) {
                    Some(raw) => raw,
                    None => ""@,
                },
            },
        ),
        None => None,
    }
}

/// The parameters among the items of an array, in order.
pub open spec fn params_among(items: Seq<Json>) -> Seq<ParamView>
    decreases items.len(),
{
    if items.len() == 0 {
        Seq::empty()
    } else {
        let before = params_among(items.drop_last());
        match param(items.last()) {
            Some(p) => before.push(p),
            None => before,
        }
    }
}

/// The parameters that a `params` value lists.
pub open spec fn params_in(j: Option<Json>) -> Seq<ParamView> {
    match j {
        Some(Json::Items(items)) => params_among(items),
        _ => Seq::empty(),
    }
}

fn kind_from(s: &str) -> (r: Kind)
    ensures
        r == kind_named(s@),
{
    if same_text(s, "Abs") {
        Kind::Abs
    } else if same_text(s, "Rel") {
        Kind::Rel
    } else if same_text(s, "Act") {
        Kind::Act
    } else if same_text(s, "Enm") {
        Kind::Enm
    } else {
        Kind::Txt
    }
}

fn param_from(v: &serde_json::Value) -> (r: Option<Param>)
    ensures
        match r {
            Some(p) => param(json_view(*v)) == Some(p@),
            None => param(json_view(*v)) is None,
        },
{
    let name: String = match get_text(v, "name") {
        Some(s) => s,
        None => return None,
    };
    let raw: String = match get_text(v, "val") {
        Some(s) => s,
        None => owned(""),
    };
    let kind: Kind = match get_text(v, "kind") {
        Some(s) => kind_from(s.as_str()),
        None => Kind::Txt,
    };
    Some(Param { kind, name, raw })
}

/// Parses `params` from a `call` command into ExLAP value elements. Each is
/// `{"kind":"Enm","name":"Source","val":"HDD"}`; kind defaults to Txt.
pub fn parse_params(v: Option<&serde_json::Value>) -> (r: Vec<Param>)
    ensures
        param_views(r@) == params_in(
            match v {
                Some(x) => Some(json_view(*x)),
                None => None,
            },
        ),
{
    let mut out: Vec<Param> = Vec::new();
    assert(param_views(out@) == Seq::<ParamView>::empty());
    let items: &Vec<serde_json::Value> = match v {
        Some(x) => match x.as_array() {
            Some(list) => list,
            None => return out,
        },
        None => return out,
    };
    let ghost all = json_views(items@);
    let mut i: usize = 0;
    assert(all.take(0) == Seq::<Json>::empty());
    while i < items.len()
        invariant
            i <= items@.len(),
            all == json_views(items@),
            param_views(out@) == params_among(all.take(i as int)),
        decreases items@.len() - i,
    {
        let ghost before = out@;
        proof {
            assert(all.take(i + 1).drop_last() == all.take(i as int));
            assert(all.take(i + 1).last() == json_view(items@[i as int]));
        }
        match param_from(&items[i]) {
            Some(p) => {
                out.push(p);
                assert(param_views(out@) == param_views(before).push(p@));
            },
            None => {},
        }
        i = i + 1;
    }
    assert(all.take(i as int) == all);
    out
}

/// The body of a function call, with the parameters as children.
pub fn call_text(url: &str, params: &Vec<Param>) -> (r: String)
    ensures
        r@ == call_body(url@, param_views(params@)),
{
    build_call(url, params)
}

// -- Commands --------------------------------------------------------------------

/// A command of the web UI.
#[derive(Debug)]
pub enum Command {
    /// Subscribe to a URL.
    Subscribe(String),
    /// End the subscription of a URL.
    Unsubscribe(String),
    /// Read a URL once.
    Get(String),
    /// Call a function.
    Call { url: String, params: Vec<Param> },
    /// Ask for the declaration of a URL.
    Interface(String),
    /// Show the sessions and their directories.
    List,
    /// Show the last value of each URL.
    Values,
    /// The command needs a URL and has none.
    MissingUrl,
    /// There is no such command.
    Unknown(String),
}

/// The model of a [`Command`].
pub ghost enum CommandView {
    Subscribe(Seq<char>),
    Unsubscribe(Seq<char>),
    Get(Seq<char>),
    Call { url: Seq<char>, params: Seq<ParamView> },
    Interface(Seq<char>),
    List,
    Values,
    MissingUrl,
    Unknown(Seq<char>),
}

impl View for Command {
    type V = CommandView;

    open spec fn view(&self) -> CommandView {
        match self {
            Command::Subscribe(u) => CommandView::Subscribe(u@),
            Command::Unsubscribe(u) => CommandView::Unsubscribe(u@),
            Command::Get(u) => CommandView::Get(u@),
            Command::Call { url, params } => CommandView::Call {
                url: url@,
                params: param_views(params@),
            },
            Command::Interface(u) => CommandView::Interface(u@),
            Command::List => CommandView::List,
            Command::Values => CommandView::Values,
            Command::MissingUrl => CommandView::MissingUrl,
            Command::Unknown(c) => CommandView::Unknown(c@),
        }
    }
}

/// The command that a verb, a URL and parameters make.
pub open spec fn command(
    cmd: Seq<char>,
    url: Option<Seq<char>>,
    params: Seq<ParamView>,
) -> CommandView {
    let with_url = |c: CommandView|
        if url is Some {
            c
        } else {
            CommandView::MissingUrl
        };
    if cmd == "subscribe"@ {
        with_url(CommandView::Subscribe(url->0))
    } else if cmd == "unsubscribe"@ {
        with_url(CommandView::Unsubscribe(url->0))
    } else if cmd == "get"@ {
        with_url(CommandView::Get(url->0))
    } else if cmd == "call"@ {
        with_url(CommandView::Call { url: url->0, params })
    } else if cmd == "interface"@ {
        with_url(CommandView::Interface(url->0))
    } else if cmd == "list"@ {
        CommandView::List
    } else if cmd == "values"@ {
        CommandView::Values
    } else {
        CommandView::Unknown(cmd)
    }
}

/// Makes a command of a verb, a URL and parameters.
pub fn command_of(cmd: &str, url: Option<String>, params: Vec<Param>) -> (r: Command)
    ensures
        r@ == command(cmd@, text_opt(url), param_views(params@)),
{
    let needs_url: bool = same_text(cmd, "subscribe") || same_text(cmd, "unsubscribe") || same_text(
        cmd,
        "get",
    ) || same_text(cmd, "call") || same_text(cmd, "interface");
    if needs_url {
        match url {
            None => Command::MissingUrl,
            Some(u) => if same_text(cmd, "subscribe") {
                Command::Subscribe(u)
            } else if same_text(cmd, "unsubscribe") {
                Command::Unsubscribe(u)
            } else if same_text(cmd, "get") {
                Command::Get(u)
            } else if same_text(cmd, "call") {
                Command::Call { url: u, params }
            } else {
                Command::Interface(u)
            },
        }
    } else if same_text(cmd, "list") {
        Command::List
    } else if same_text(cmd, "values") {
        Command::Values
    } else {
        Command::Unknown(owned(cmd))
    }
}

/// The command in a JSON document: its `cmd`, `url` and `params` fields.
pub open spec fn command_in(j: Json) -> CommandView {
    command(
        match text_field(j, "cmd"@) {
            Some(c) => c,
            None => ""@,
        },
        text_field(j, "url"@),
        params_in(field(j, "params"@)),
    )
}

/// Reads the command in a JSON document.
pub fn read_command(doc: &serde_json::Value) -> (r: Command)
    ensures
        r@ == command_in(json_view(*doc)),
{
    let cmd: String = match get_text(doc, "cmd") {
        Some(c) => c,
        None => owned(""),
    };
    let url: Option<String> = get_text(doc, "url");
    let params: Vec<Param> = parse_params(json_get(doc, "params"));
    command_of(cmd.as_str(), url, params)
}

/// The command that a text of the web UI writes, if it is JSON.
pub open spec fn command_text(payload: Seq<char>) -> Option<CommandView> {
    match json_document(payload) {
        Some(j) => Some(command_in(j)),
        None => None,
    }
}

/// Reads the command that a text of the web UI writes.
pub fn parse_command(payload: &str) -> (r: Option<Command>)
    ensures
        match r {
            Some(c) => command_text(payload@) == Some(c@),
            None => command_text(payload@) is None,
        },
{
    match parse_json(payload) {
        Ok(doc) => Some(read_command(&doc)),
        Err(_) => None,
    }
}

/// A text between quotes, as `Debug` writes it.
pub uninterp spec fn debug_quoted(s: Seq<char>) -> Seq<char>;

/// The `Debug` form of a string: the text between quotes, with escapes. It is a
/// function of the text.
#[verifier::external_body]
pub(crate) fn quoted(s: &str) -> (r: String)
    ensures
        r@ == debug_quoted(s@),
{
    format!("{:?}", s)
}

} // verus!
