//! The configuration of the hook: what it reads from the host, how a value is
//! understood, and what the web UI shows of it.

use crate::protocol::{user_count, user_names};
use crate::text::{
    lemma_split_last, lemma_split_one, owned, parse_unsigned, read_unsigned, same_text,
    split_commas, text_opt, texts, trim, trimmed_pieces,
};
use vstd::prelude::*;

verus! {

/// The URLs that are subscribed where nothing else is configured.
pub const DEFAULT_SUBSCRIBE_URLS: &'static str = "tankLevelPrimary,outsideTemperature";

/// Default credential bring-up order, the richest credential first. The first
/// credential here that offers a URL claims it. A credential can offer nothing
/// new. That credential gets no URLs and sends no Subscribe. It stays connected
/// and answers the pings.
pub const DEFAULT_CREDS: [usize; 4] = [2, 1, 3, 0];

/// Default subscription interval in milliseconds. The protocol default when the
/// attribute is omitted is 0, every change, which floods the channel on a fast
/// signal; so every subscription states an interval.
pub const DEFAULT_IVAL_MS: u32 = 2000;

/// The channel to use where neither the head unit nor the configuration says.
pub const DEFAULT_CHANNEL: u8 = 0x7E;

// -- URL lists -------------------------------------------------------------------

/// The pieces that are not blank, trimmed.
pub open spec fn urls_among(pieces: Seq<Seq<char>>) -> Seq<Seq<char>>
    decreases pieces.len(),
{
    if pieces.len() == 0 {
        Seq::empty()
    } else {
        let before = urls_among(pieces.drop_last());
        let url = trim(pieces.last());
        if url.len() > 0 {
            before.push(url)
        } else {
            before
        }
    }
}

/// The URLs that a comma-separated list names.
pub open spec fn url_list(s: Seq<char>) -> Seq<Seq<char>> {
    urls_among(split_commas(s))
}

/// Parses a comma-separated URL list from the configuration.
pub fn parse_subscribe_urls(s: &str) -> (r: Vec<String>)
    ensures
        texts(r@) == url_list(s@),
{
    let pieces: Vec<String> = trimmed_pieces(s);
    let ghost all = split_commas(s@);
    let ghost f = |p: Seq<char>| trim(p);
    let mut out: Vec<String> = Vec::new();
    let mut i: usize = 0;
    proof {
        assert(texts(pieces@).len() == pieces@.len());
        assert(all.map_values(f).len() == all.len());
        assert(all.take(0) == Seq::<Seq<char>>::empty());
        assert(texts(out@) == urls_among(all.take(0)));
    }
    while i < pieces.len()
        invariant
            i <= pieces@.len() == all.len(),
            f == (|p: Seq<char>| trim(p)),
            texts(pieces@) == all.map_values(f),
            texts(out@) == urls_among(all.take(i as int)),
        decreases pieces@.len() - i,
    {
        let ghost before = out@;
        proof {
            assert(all.take(i + 1).drop_last() == all.take(i as int));
            assert(texts(pieces@)[i as int] == pieces@[i as int]@);
            assert(all.map_values(f)[i as int] == trim(all[i as int]));
        }
        if !pieces[i].as_str().is_empty() {
            out.push(pieces[i].clone());
            assert(texts(out@) == texts(before).push(pieces@[i as int]@));
        }
        i = i + 1;
    }
    assert(all.take(i as int) == all);
    out
}

/// No configured URL is blank.
pub proof fn law_no_url_is_blank(s: Seq<char>, i: int)
    requires
        0 <= i < url_list(s).len(),
    ensures
        url_list(s)[i].len() > 0,
{
    lemma_urls_among(split_commas(s), i);
}

/// URLs in one text, with a comma between each two.
pub open spec fn comma_joined(urls: Seq<Seq<char>>) -> Seq<char>
    decreases urls.len(),
{
    if urls.len() == 0 {
        Seq::empty()
    } else if urls.len() == 1 {
        urls[0]
    } else {
        comma_joined(urls.drop_last()) + seq![','] + urls.last()
    }
}

/// A list of URLs, written with commas, reads back: if none of them is blank, holds
/// a comma, or has white space around it.
pub proof fn law_joined_urls_read_back(urls: Seq<Seq<char>>)
    requires
        forall|i: int|
            0 <= i < urls.len() ==> (#[trigger] urls[i]).len() > 0 && !urls[i].contains(',')
                && trim(urls[i]) == urls[i],
    ensures
        url_list(comma_joined(urls)) == urls,
{
    if urls.len() == 0 {
        let pieces = split_commas(comma_joined(urls));
        assert(pieces.drop_last() =~= Seq::empty());
        assert(trim(pieces.last()).len() == 0);
        assert(urls_among(pieces.drop_last()).len() == 0);
        assert(url_list(comma_joined(urls)) =~= urls);
    } else {
        lemma_joined_splits(urls);
        lemma_all_urls(urls);
    }
}

proof fn lemma_joined_splits(urls: Seq<Seq<char>>)
    requires
        urls.len() > 0,
        forall|i: int| 0 <= i < urls.len() ==> !(#[trigger] urls[i]).contains(','),
    ensures
        split_commas(comma_joined(urls)) == urls,
    decreases urls.len(),
{
    if urls.len() == 1 {
        lemma_split_one(urls[0]);
        assert(urls =~= seq![urls[0]]);
    } else {
        let rest = urls.drop_last();
        assert forall|i: int| 0 <= i < rest.len() implies !(#[trigger] rest[i]).contains(',') by {
            assert(rest[i] == urls[i]);
        }
        lemma_joined_splits(rest);
        lemma_split_last(comma_joined(rest), urls.last());
        assert(rest.push(urls.last()) =~= urls);
    }
}

proof fn lemma_all_urls(urls: Seq<Seq<char>>)
    requires
        forall|i: int|
            0 <= i < urls.len() ==> (#[trigger] urls[i]).len() > 0 && trim(urls[i]) == urls[i],
    ensures
        urls_among(urls) == urls,
    decreases urls.len(),
{
    if urls.len() > 0 {
        let rest = urls.drop_last();
        assert forall|i: int| 0 <= i < rest.len() implies (#[trigger] rest[i]).len() > 0 && trim(
            rest[i],
        ) == rest[i] by {
            assert(rest[i] == urls[i]);
        }
        lemma_all_urls(rest);
        assert(urls.last() == urls[urls.len() - 1]);
        assert(rest.push(urls.last()) =~= urls);
    } else {
        assert(urls_among(urls) =~= urls);
    }
}

proof fn lemma_urls_among(pieces: Seq<Seq<char>>, i: int)
    requires
        0 <= i < urls_among(pieces).len(),
    ensures
        urls_among(pieces)[i].len() > 0,
    decreases pieces.len(),
{
    if pieces.len() > 0 {
        if i < urls_among(pieces.drop_last()).len() {
            lemma_urls_among(pieces.drop_last(), i);
        }
    }
}

// -- Credential lists ------------------------------------------------------------

/// The credential index that a piece writes, if it writes one that exists.
pub open spec fn cred_in(piece: Seq<char>) -> Option<usize> {
    match parse_unsigned(trim(piece), usize::MAX as nat) {
        Some(n) => if n < user_names().len() {
            Some(n as usize)
        } else {
            None
        },
        None => None,
    }
}

/// The credential indices among the pieces, in order.
pub open spec fn creds_among(pieces: Seq<Seq<char>>) -> Seq<usize>
    decreases pieces.len(),
{
    if pieces.len() == 0 {
        Seq::empty()
    } else {
        let before = creds_among(pieces.drop_last());
        match cred_in(pieces.last()) {
            Some(c) => before.push(c),
            None => before,
        }
    }
}

/// The credentials that a comma-separated list names.
pub open spec fn named_creds(s: Seq<char>) -> Seq<usize> {
    creds_among(split_commas(s))
}

/// The credentials that a comma-separated list names, or the default ones where
/// it names none.
pub open spec fn cred_list(s: Seq<char>) -> Seq<usize> {
    let v = named_creds(s);
    if v.len() == 0 {
        DEFAULT_CREDS@
    } else {
        v
    }
}

/// Every credential exists.
pub open spec fn creds_exist(creds: Seq<usize>) -> bool {
    forall|i: int| 0 <= i < creds.len() ==> #[trigger] creds[i] < user_names().len()
}

/// The default bring-up order.
pub fn default_creds() -> (r: Vec<usize>)
    ensures
        r@ == DEFAULT_CREDS@,
        creds_exist(r@),
{
    let mut out: Vec<usize> = Vec::new();
    let mut i: usize = 0;
    while i < 4
        invariant
            i <= 4,
            out@ == DEFAULT_CREDS@.take(i as int),
        decreases 4 - i,
    {
        out.push(DEFAULT_CREDS[i]);
        i = i + 1;
    }
    out
}

/// Parses a comma-separated credential index list; falls back to the default.
pub fn parse_creds(s: &str) -> (r: Vec<usize>)
    ensures
        r@ == cred_list(s@),
        creds_exist(r@),
{
    let pieces: Vec<String> = trimmed_pieces(s);
    let ghost all = split_commas(s@);
    let ghost f = |p: Seq<char>| trim(p);
    let limit: usize = user_count();
    let mut out: Vec<usize> = Vec::new();
    let mut i: usize = 0;
    proof {
        assert(texts(pieces@).len() == pieces@.len());
        assert(all.map_values(f).len() == all.len());
        assert(all.take(0) == Seq::<Seq<char>>::empty());
    }
    while i < pieces.len()
        invariant
            i <= pieces@.len() == all.len(),
            limit == user_names().len(),
            f == (|p: Seq<char>| trim(p)),
            texts(pieces@) == all.map_values(f),
            out@ == creds_among(all.take(i as int)),
            creds_exist(out@),
        decreases pieces@.len() - i,
    {
        proof {
            assert(all.take(i + 1).drop_last() == all.take(i as int));
            assert(texts(pieces@)[i as int] == pieces@[i as int]@);
            assert(all.map_values(f)[i as int] == trim(all[i as int]));
        }
        match read_unsigned(pieces[i].as_str(), usize::MAX as u64) {
            Some(n) => {
                if n < limit as u64 {
                    out.push(n as usize);
                }
            },
            None => {},
        }
        i = i + 1;
    }
    assert(all.take(i as int) == all);
    if out.len() == 0 {
        default_creds()
    } else {
        out
    }
}

/// Some credential is always brought up, whatever is configured.
pub proof fn law_some_credential_is_brought_up(s: Seq<char>)
    ensures
        cred_list(s).len() > 0,
        creds_exist(cred_list(s)),
{
    lemma_creds_among_exist(split_commas(s));
}

proof fn lemma_creds_among_exist(pieces: Seq<Seq<char>>)
    ensures
        creds_exist(creds_among(pieces)),
    decreases pieces.len(),
{
    if pieces.len() > 0 {
        lemma_creds_among_exist(pieces.drop_last());
    }
}

// -- Single settings -------------------------------------------------------------

/// The channel that a text configures.
pub open spec fn channel_in(s: Seq<char>) -> Option<u8> {
    match parse_unsigned(s, 255) {
        Some(n) => Some(n as u8),
        None => None,
    }
}

/// Reads a channel number.
pub fn parse_channel(s: &str) -> (r: Option<u8>)
    ensures
        r == channel_in(s@),
{
    match read_unsigned(s, 255) {
        Some(n) => Some(n as u8),
        None => None,
    }
}

/// The interval that a text configures. 0 would mean every change, and is not
/// taken.
pub open spec fn ival_in(s: Seq<char>) -> Option<u32> {
    match parse_unsigned(s, u32::MAX as nat) {
        Some(n) => if n > 0 {
            Some(n as u32)
        } else {
            None
        },
        None => None,
    }
}

/// Reads a subscription interval.
pub fn parse_ival(s: &str) -> (r: Option<u32>)
    ensures
        r == ival_in(s@),
{
    match read_unsigned(s, u32::MAX as u64) {
        Some(n) => if n > 0 {
            Some(n as u32)
        } else {
            None
        },
        None => None,
    }
}

/// The battery capacity that a text configures. 0 stands for none.
pub open spec fn capacity_in(s: Seq<char>) -> Option<u64> {
    match parse_unsigned(s, u64::MAX as nat) {
        Some(n) => if n > 0 {
            Some(n as u64)
        } else {
            None
        },
        None => None,
    }
}

/// Reads a battery capacity.
pub fn parse_capacity(s: &str) -> (r: Option<u64>)
    ensures
        r == capacity_in(s@),
{
    match read_unsigned(s, u64::MAX) {
        Some(n) => if n > 0 {
            Some(n)
        } else {
            None
        },
        None => None,
    }
}

/// Whether a text switches the verbose log on.
pub open spec fn debug_in(s: Seq<char>) -> bool {
    s == "true"@ || s == "1"@
}

/// Reads the switch of the verbose log.
pub fn parse_debug(s: &str) -> (r: bool)
    ensures
        r == debug_in(s@),
{
    same_text(s, "true") || same_text(s, "1")
}

// -- All settings ----------------------------------------------------------------

/// What the host has configured, as text; nothing where it has no value.
#[derive(Debug)]
pub struct HostConfig {
    pub exlap_channel: Option<String>,
    pub exlap_creds: Option<String>,
    pub exlap_subscribe_urls: Option<String>,
    pub exlap_subscribe_ival_ms: Option<String>,
    pub exlap_battery_capacity_wh: Option<String>,
    pub exlap_debug: Option<String>,
}

/// The settings that the hook runs with.
#[derive(Debug)]
pub struct Settings {
    pub channel: u8,
    pub creds: Vec<usize>,
    pub subscribe_urls: Vec<String>,
    pub subscribe_ival_ms: u32,
    pub battery_capacity_wh: Option<u64>,
    pub debug: bool,
}

/// The model of [`Settings`].
pub ghost struct SettingsView {
    pub channel: u8,
    pub creds: Seq<usize>,
    pub subscribe_urls: Seq<Seq<char>>,
    pub subscribe_ival_ms: u32,
    pub battery_capacity_wh: Option<u64>,
    pub debug: bool,
}

impl View for Settings {
    type V = SettingsView;

    open spec fn view(&self) -> SettingsView {
        SettingsView {
            channel: self.channel,
            creds: self.creds@,
            subscribe_urls: texts(self.subscribe_urls@),
            subscribe_ival_ms: self.subscribe_ival_ms,
            battery_capacity_wh: self.battery_capacity_wh,
            debug: self.debug,
        }
    }
}

/// The value of an option, or a default.
pub open spec fn or_default<T>(o: Option<T>, default: T) -> T {
    match o {
        Some(x) => x,
        None => default,
    }
}

/// The settings that a configuration gives: a value that is missing or not
/// understood is replaced by its default.
pub open spec fn settings_in(cfg: HostConfig) -> SettingsView {
    SettingsView {
        channel: match text_opt(cfg.exlap_channel) {
            Some(s) => or_default(channel_in(s), DEFAULT_CHANNEL),
            None => DEFAULT_CHANNEL,
        },
        creds: match text_opt(cfg.exlap_creds) {
            Some(s) => cred_list(s),
            None => DEFAULT_CREDS@,
        },
        subscribe_urls: url_list(
            or_default(text_opt(cfg.exlap_subscribe_urls), DEFAULT_SUBSCRIBE_URLS@),
        ),
        subscribe_ival_ms: match text_opt(cfg.exlap_subscribe_ival_ms) {
            Some(s) => or_default(ival_in(s), DEFAULT_IVAL_MS),
            None => DEFAULT_IVAL_MS,
        },
        battery_capacity_wh: match text_opt(cfg.exlap_battery_capacity_wh) {
            Some(s) => capacity_in(s),
            None => None,
        },
        debug: match text_opt(cfg.exlap_debug) {
            Some(s) => debug_in(s),
            None => false,
        },
    }
}

/// Reads the settings from the configuration of the host.
pub fn read_settings(cfg: &HostConfig) -> (r: Settings)
    ensures
        r@ == settings_in(*cfg),
        creds_exist(r@.creds),
        r@.subscribe_ival_ms > 0,
{
    let channel: u8 = match &cfg.exlap_channel {
        Some(s) => match parse_channel(s.as_str()) {
            Some(c) => c,
            None => DEFAULT_CHANNEL,
        },
        None => DEFAULT_CHANNEL,
    };
    let creds: Vec<usize> = match &cfg.exlap_creds {
        Some(s) => parse_creds(s.as_str()),
        None => default_creds(),
    };
    let subscribe_urls: Vec<String> = match &cfg.exlap_subscribe_urls {
        Some(s) => parse_subscribe_urls(s.as_str()),
        None => parse_subscribe_urls(DEFAULT_SUBSCRIBE_URLS),
    };
    let subscribe_ival_ms: u32 = match &cfg.exlap_subscribe_ival_ms {
        Some(s) => match parse_ival(s.as_str()) {
            Some(v) => v,
            None => DEFAULT_IVAL_MS,
        },
        None => DEFAULT_IVAL_MS,
    };
    let battery_capacity_wh: Option<u64> = match &cfg.exlap_battery_capacity_wh {
        Some(s) => parse_capacity(s.as_str()),
        None => None,
    };
    let debug: bool = match &cfg.exlap_debug {
        Some(s) => parse_debug(s.as_str()),
        None => false,
    };
    Settings { channel, creds, subscribe_urls, subscribe_ival_ms, battery_capacity_wh, debug }
}

// -- What the web UI shows -------------------------------------------------------

/// One setting that the web UI shows.
#[derive(Debug)]
pub struct CustomConfigEntry {
    pub name: String,
    pub typ: String,
    pub description: String,
    pub default_value: String,
    pub values: Option<Vec<String>>,
}

/// A section of settings that the web UI shows.
#[derive(Debug)]
pub struct CustomConfigSection {
    pub title: String,
    pub values: Vec<CustomConfigEntry>,
}

/// The model of a [`CustomConfigEntry`].
pub ghost struct ConfigEntryView {
    pub name: Seq<char>,
    pub typ: Seq<char>,
    pub description: Seq<char>,
    pub default_value: Seq<char>,
    pub values: Option<Seq<Seq<char>>>,
}

impl View for CustomConfigEntry {
    type V = ConfigEntryView;

    open spec fn view(&self) -> ConfigEntryView {
        ConfigEntryView {
            name: self.name@,
            typ: self.typ@,
            description: self.description@,
            default_value: self.default_value@,
            values: match self.values {
                Some(list) => Some(texts(list@)),
                None => None,
            },
        }
    }
}

/// The models of a list of settings.
pub open spec fn config_entries(list: Seq<CustomConfigEntry>) -> Seq<ConfigEntryView> {
    list.map_values(|e: CustomConfigEntry| e@)
}

/// A setting without a list of choices.
pub open spec fn plain_entry(
    name: Seq<char>,
    typ: Seq<char>,
    description: Seq<char>,
    default_value: Seq<char>,
) -> ConfigEntryView {
    ConfigEntryView { name, typ, description, default_value, values: None }
}

/// The settings of the ExLAP section, in order.
pub open spec fn exlap_entries() -> Seq<ConfigEntryView> {
    seq![
        plain_entry(
            "exlap_channel"@,
            "u8"@,
            "Fallback channel id if not found in SDR (default 126 = 0x7E)"@,
            "126"@,
        ),
        plain_entry(
            "exlap_creds"@,
            "string"@,
            "Comma-separated credential indices (0-3) to bring up, in preference order, a URL is subscribed by the first credential here that offers it. Default: 2,1,3,0."@,
            "2,1,3,0"@,
        ),
        plain_entry(
            "exlap_subscribe_urls"@,
            "string"@,
            "Comma-separated ExLAP URLs to subscribe to, or \"*\" to subscribe to every URL the credentials expose (deduplicated across them). tankLevelPrimary/level and outsideTemperature also feed POST /battery. Default: tankLevelPrimary,outsideTemperature"@,
            DEFAULT_SUBSCRIBE_URLS@,
        ),
        plain_entry(
            "exlap_subscribe_ival_ms"@,
            "u32"@,
            "Minimum interval between pushes for each subscription, milliseconds. 0 in the protocol means every change, which floods the channel, so a nonzero default is used. Default: 2000."@,
            "2000"@,
        ),
        plain_entry(
            "exlap_debug"@,
            "bool"@,
            "Enable verbose debug logging for the ExLAP hook (default false)"@,
            "false"@,
        ),
        plain_entry(
            "exlap_battery_capacity_wh"@,
            "u64"@,
            "Total battery/tank capacity in Wh. Sent as battery_capacity_wh with every POST /battery so aa-proxy-rs can compute the correct energy level from the percentage. Example: 58000 for a 58 kWh battery. Leave 0 to use the model default."@,
            "0"@,
        ),
    ]
}

fn entry(name: &str, typ: &str, description: &str, default_value: &str) -> (r: CustomConfigEntry)
    ensures
        r@ == plain_entry(name@, typ@, description@, default_value@),
{
    CustomConfigEntry {
        name: owned(name),
        typ: owned(typ),
        description: owned(description),
        default_value: owned(default_value),
        values: None,
    }
}

/// The sections of settings that the web UI shows: one, for ExLAP.
pub fn custom_configs() -> (r: Vec<CustomConfigSection>)
    ensures
        r@.len() == 1,
        r@[0].title@ == "ExLAP"@,
        config_entries(r@[0].values@) == exlap_entries(),
{
    let mut entries: Vec<CustomConfigEntry> = Vec::new();
    entries.push(
        entry(
            "exlap_channel",
            "u8",
            "Fallback channel id if not found in SDR (default 126 = 0x7E)",
            "126",
        ),
    );
    entries.push(
        entry(
            "exlap_creds",
            "string",
            "Comma-separated credential indices (0-3) to bring up, in preference order, a URL is subscribed by the first credential here that offers it. Default: 2,1,3,0.",
            "2,1,3,0",
        ),
    );
    entries.push(
        entry(
            "exlap_subscribe_urls",
            "string",
            "Comma-separated ExLAP URLs to subscribe to, or \"*\" to subscribe to every URL the credentials expose (deduplicated across them). tankLevelPrimary/level and outsideTemperature also feed POST /battery. Default: tankLevelPrimary,outsideTemperature",
            DEFAULT_SUBSCRIBE_URLS,
        ),
    );
    entries.push(
        entry(
            "exlap_subscribe_ival_ms",
            "u32",
            "Minimum interval between pushes for each subscription, milliseconds. 0 in the protocol means every change, which floods the channel, so a nonzero default is used. Default: 2000.",
            "2000",
        ),
    );
    entries.push(
        entry(
            "exlap_debug",
            "bool",
            "Enable verbose debug logging for the ExLAP hook (default false)",
            "false",
        ),
    );
    entries.push(
        entry(
            "exlap_battery_capacity_wh",
            "u64",
            "Total battery/tank capacity in Wh. Sent as battery_capacity_wh with every POST /battery so aa-proxy-rs can compute the correct energy level from the percentage. Example: 58000 for a 58 kWh battery. Leave 0 to use the model default.",
            "0",
        ),
    );
    assert(config_entries(entries@) == exlap_entries());
    let mut sections: Vec<CustomConfigSection> = Vec::new();
    sections.push(CustomConfigSection { title: owned("ExLAP"), values: entries });
    sections
}

// -- How a text becomes a setting ------------------------------------------------

/// A list of URLs is read piece by piece: each piece between commas is a URL,
/// without the white space around it, unless nothing is left.
pub proof fn law_url_list_is_read_piece_by_piece(list: Seq<char>, piece: Seq<char>)
    requires
        !piece.contains(','),
    ensures
        url_list(piece) == (if trim(piece).len() > 0 {
            seq![trim(piece)]
        } else {
            Seq::empty()
        }),
        url_list(list + seq![','] + piece) == url_list(list) + url_list(piece),
{
    lemma_split_one(piece);
    lemma_split_last(list, piece);
    let one = seq![piece];
    assert(one.drop_last() =~= Seq::empty());
    assert(one.last() == piece);
    assert(urls_among(one.drop_last()) =~= Seq::empty());
    assert(url_list(piece) =~= (if trim(piece).len() > 0 {
        seq![trim(piece)]
    } else {
        Seq::empty()
    }));
    let both = split_commas(list).push(piece);
    assert(both.drop_last() =~= split_commas(list));
    assert(both.last() == piece);
    assert(url_list(list + seq![','] + piece) =~= url_list(list) + url_list(piece));
}

/// A list of credentials is read piece by piece: each piece between commas that is
/// a number below four is one. Where none is, the default ones are brought up.
pub proof fn law_cred_list_is_read_piece_by_piece(list: Seq<char>, piece: Seq<char>)
    requires
        !piece.contains(','),
    ensures
        named_creds(piece) == (match parse_unsigned(trim(piece), usize::MAX as nat) {
            Some(n) if n < 4 => seq![n as usize],
            _ => Seq::empty(),
        }),
        named_creds(list + seq![','] + piece) == named_creds(list) + named_creds(piece),
        cred_list(list) == (if named_creds(list).len() == 0 {
            seq![2usize, 1usize, 3usize, 0usize]
        } else {
            named_creds(list)
        }),
{
    lemma_split_one(piece);
    lemma_split_last(list, piece);
    let one = seq![piece];
    assert(one.drop_last() =~= Seq::empty());
    assert(one.last() == piece);
    assert(creds_among(one.drop_last()) =~= Seq::empty());
    assert(user_names().len() == 4);
    assert(named_creds(piece) =~= (match parse_unsigned(trim(piece), usize::MAX as nat) {
        Some(n) if n < 4 => seq![n as usize],
        _ => Seq::empty(),
    }));
    let both = split_commas(list).push(piece);
    assert(both.drop_last() =~= split_commas(list));
    assert(both.last() == piece);
    assert(named_creds(list + seq![','] + piece) =~= named_creds(list) + named_creds(piece));
    assert(DEFAULT_CREDS@ =~= seq![2usize, 1usize, 3usize, 0usize]);
}

} // verus!
