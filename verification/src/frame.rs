//! The wrapper elements of the Android Auto channel.
//!
//! Each ExLAP message of a session rides inside an `<ExlapStatement>` that
//! names the session. These functions make and read that wrapper, and read the
//! other elements that exist on this channel only. The ExLAP message itself is
//! read by the `exlap` crate.

use crate::text::{
    chars_between, chars_of, contains_text, find, find_from, find_text, law_occurrences_are_found,
    lemma_find_from, lemma_find_is, occurs_at, occurs_here, owned, rfind, rfind_text, text_between,
    text_opt, trim, trim_between,
};
use vstd::prelude::*;
use vstd::string::StringExecFns;

verus! {

/// A request inside the `<ExlapStatement>` of a session.
pub open spec fn wrapped(session_id: Seq<char>, req: Seq<char>) -> Seq<char> {
    "<ExlapStatement session_id=\""@ + session_id + "\">"@ + req + "</ExlapStatement>"@
}

/// Wraps a request body for transmission on the channel: every ExLAP message a
/// credential sends rides inside its own `<ExlapStatement>`.
pub fn wrap(session_id: &str, req: &str) -> (r: String)
    ensures
        r@ == wrapped(session_id@, req@),
{
    let mut s: String = owned("<ExlapStatement session_id=\"");
    s.append(session_id);
    s.append("\">");
    s.append(req);
    s.append("</ExlapStatement>");
    s
}

/// XML allows `c` in a name.
pub open spec fn is_name_char(c: char) -> bool {
    ||| 'a' <= c <= 'z'
    ||| 'A' <= c <= 'Z'
    ||| '0' <= c <= '9'
    ||| c == '_'
    ||| c == ':'
    ||| c == '-'
    ||| c == '.'
    ||| c == '\u{b7}'
    ||| '\u{c0}' <= c <= '\u{d6}'
    ||| '\u{d8}' <= c <= '\u{f6}'
    ||| '\u{f8}' <= c <= '\u{37d}'
    ||| '\u{37f}' <= c <= '\u{1fff}'
    ||| '\u{200c}' <= c <= '\u{200d}'
    ||| '\u{203f}' <= c <= '\u{2040}'
    ||| '\u{2070}' <= c <= '\u{218f}'
    ||| '\u{2c00}' <= c <= '\u{2fef}'
    ||| '\u{3001}' <= c <= '\u{d7ff}'
    ||| '\u{f900}' <= c <= '\u{fdcf}'
    ||| '\u{fdf0}' <= c <= '\u{fffd}'
    ||| '\u{10000}' <= c <= '\u{effff}'
}

/// Whether XML allows `c` in a name.
pub fn name_char(c: char) -> (r: bool)
    ensures
        r == is_name_char(c),
{
    ('a' <= c && c <= 'z') || ('A' <= c && c <= 'Z') || ('0' <= c && c <= '9') || c == '_' || c
        == ':' || c == '-' || c == '.' || c == '\u{b7}' || ('\u{c0}' <= c && c <= '\u{d6}') || (
    '\u{d8}' <= c && c <= '\u{f6}') || ('\u{f8}' <= c && c <= '\u{37d}') || ('\u{37f}' <= c && c
        <= '\u{1fff}') || ('\u{200c}' <= c && c <= '\u{200d}') || ('\u{203f}' <= c && c
        <= '\u{2040}') || ('\u{2070}' <= c && c <= '\u{218f}') || ('\u{2c00}' <= c && c
        <= '\u{2fef}') || ('\u{3001}' <= c && c <= '\u{d7ff}') || ('\u{f900}' <= c && c
        <= '\u{fdcf}') || ('\u{fdf0}' <= c && c <= '\u{fffd}') || ('\u{10000}' <= c && c
        <= '\u{effff}')
}

/// Position `i` is within a name: its characters stand on both sides.
pub open spec fn inside_name(s: Seq<char>, i: int) -> bool {
    0 < i < s.len() && is_name_char(s[i - 1]) && is_name_char(s[i])
}

/// Whether position `i` is within a name.
fn is_inside_name(v: &Vec<char>, i: usize) -> (r: bool)
    ensures
        r == inside_name(v@, i as int),
{
    0 < i && i < v.len() && name_char(v[i - 1]) && name_char(v[i])
}

/// An element with this tag begins at `i`: the name does not go on behind it.
pub open spec fn tag_at(xml: Seq<char>, tag_name: Seq<char>, i: int) -> bool {
    occurs_at(xml, seq!['<'] + tag_name, i) && !inside_name(xml, i + 1 + tag_name.len())
}

/// Where the first element with this tag, not before `from`, begins.
pub open spec fn find_tag(xml: Seq<char>, tag_name: Seq<char>, from: int) -> Option<int>
    decreases xml.len() - from,
{
    if from < 0 || from >= xml.len() {
        None
    } else if tag_at(xml, tag_name, from) {
        Some(from)
    } else {
        find_tag(xml, tag_name, from + 1)
    }
}

/// Where an element with this tag first begins at `i`, `find_tag` finds it.
proof fn lemma_find_tag_is(xml: Seq<char>, tag_name: Seq<char>, from: int, i: int)
    requires
        0 <= from <= i < xml.len(),
        tag_at(xml, tag_name, i),
        forall|j: int| from <= j < i ==> !tag_at(xml, tag_name, j),
    ensures
        find_tag(xml, tag_name, from) == Some(i),
    decreases i - from,
{
    if from < i {
        lemma_find_tag_is(xml, tag_name, from + 1, i);
    }
}

/// Where the first element with this tag begins.
fn find_tag_text(v: &Vec<char>, tag_name: &str) -> (r: Option<usize>)
    ensures
        match r {
            Some(i) => find_tag(v@, tag_name@, 0) == Some(i as int) && i < v@.len(),
            None => find_tag(v@, tag_name@, 0) is None,
        },
{
    let mut tag: Vec<char> = Vec::new();
    tag.push('<');
    tag.append(&mut chars_of(tag_name));
    assert(tag@ == seq!['<'] + tag_name@);
    let len: usize = v.len();
    let n: usize = tag.len();
    let mut i: usize = 0;
    while i < len
        invariant
            len == v@.len(),
            n == tag@.len(),
            tag@ == seq!['<'] + tag_name@,
            i <= len,
            find_tag(v@, tag_name@, 0) == find_tag(v@, tag_name@, i as int),
        decreases len - i,
    {
        if n <= len - i && occurs_here(v, &tag, i) && !is_inside_name(v, i + n) {
            return Some(i);
        }
        i = i + 1;
    }
    None
}

/// The content of the first `<ExlapStatement>`, up to the last closing tag or,
/// where none follows, to the end; the whole text where there is no such
/// element.
pub open spec fn unwrapped(xml: Seq<char>) -> Seq<char> {
    match find_tag(xml, "ExlapStatement"@, 0) {
        None => xml,
        Some(open) => match find_from(xml, seq!['>'], open) {
            None => xml,
            Some(gt) => {
                let close = rfind(xml, "</ExlapStatement>"@);
                if close is Some && close->0 >= gt + 1 {
                    trim(xml.subrange(gt + 1, close->0))
                } else {
                    trim(xml.skip(gt + 1))
                }
            },
        },
    }
}

/// The inner ExLAP message of an `<ExlapStatement>...</ExlapStatement>` wrapper,
/// or the whole string when it carries no wrapper (a bare `<Status>`). A session
/// reasons about the inner element's root tag, so it must never see the wrapper.
pub fn unwrap_statement(xml: &str) -> (r: String)
    ensures
        r@ == unwrapped(xml@),
{
    let v: Vec<char> = chars_of(xml);
    let open: usize = match find_tag_text(&v, "ExlapStatement") {
        Some(i) => i,
        None => return owned(xml),
    };
    let mut bracket: Vec<char> = Vec::new();
    bracket.push('>');
    assert(bracket@ == seq!['>']);
    let gt: usize = match find_text(&v, &bracket, open) {
        Some(i) => i + 1,
        None => return owned(xml),
    };
    match rfind_text(&v, &chars_of("</ExlapStatement>")) {
        Some(close) => {
            if close >= gt {
                return trim_between(&v, gt, close);
            }
        },
        None => {},
    }
    assert(xml@.subrange(gt as int, xml@.len() as int) == xml@.skip(gt as int));
    trim_between(&v, gt, v.len())
}

/// `c` ends a tag name.
pub open spec fn ends_name(c: char) -> bool {
    c == ' ' || c == '>' || c == '/'
}

/// Where the tag name that begins at `from` ends.
pub open spec fn name_end(s: Seq<char>, from: int) -> int
    decreases s.len() - from,
{
    if from >= s.len() || ends_name(s[from]) {
        from
    } else {
        name_end(s, from + 1)
    }
}

/// Where the tag name that begins at `start` ends.
pub fn find_name_end(v: &Vec<char>, start: usize) -> (r: usize)
    requires
        start <= v@.len(),
    ensures
        r == name_end(v@, start as int),
        start <= r <= v@.len(),
{
    let mut end: usize = start;
    while end < v.len() && !(v[end] == ' ' || v[end] == '>' || v[end] == '/')
        invariant
            start <= end <= v@.len(),
            name_end(v@, start as int) == name_end(v@, end as int),
        decreases v@.len() - end,
    {
        end = end + 1;
    }
    end
}

/// The name of the first tag, unless it is empty, a declaration or a
/// processing instruction.
pub open spec fn root_tag(xml: Seq<char>) -> Option<Seq<char>> {
    match find(xml, seq!['<']) {
        None => None,
        Some(open) => {
            let tag = xml.subrange(open + 1, name_end(xml, open + 1));
            if tag.len() == 0 || tag[0] == '?' || tag[0] == '!' {
                None
            } else {
                Some(tag)
            }
        },
    }
}

/// The tag of the first element of `xml`.
pub fn xml_root_tag(xml: &str) -> (r: Option<String>)
    ensures
        text_opt(r) == root_tag(xml@),
{
    let v: Vec<char> = chars_of(xml);
    let mut bracket: Vec<char> = Vec::new();
    bracket.push('<');
    assert(bracket@ == seq!['<']);
    let start: usize = match find_text(&v, &bracket, 0) {
        Some(i) => i + 1,
        None => return None,
    };
    let end: usize = find_name_end(&v, start);
    if start == end || v[start] == '?' || v[start] == '!' {
        return None;
    }
    Some(text_between(&v, start, end))
}

/// The first `<tag ...>` element of `xml`, up to and with its `>`, or to the end
/// of the text where it is not closed.
pub open spec fn element(xml: Seq<char>, tag_name: Seq<char>) -> Option<Seq<char>> {
    match find_tag(xml, tag_name, 0) {
        None => None,
        Some(open) => match find_from(xml, seq!['>'], open) {
            Some(gt) => Some(xml.subrange(open, gt + 1)),
            None => Some(xml.skip(open)),
        },
    }
}

/// An attribute with this name begins at `i`: the name does not begin before it,
/// and an equals sign and a quote stand behind it.
pub open spec fn attr_at(elem: Seq<char>, attr_name: Seq<char>, i: int) -> bool {
    occurs_at(elem, attr_name + seq!['=', '"'], i) && !inside_name(elem, i)
}

/// Where the first attribute with this name, not before `from`, begins.
pub open spec fn find_attr(elem: Seq<char>, attr_name: Seq<char>, from: int) -> Option<int>
    decreases elem.len() - from,
{
    if from < 0 || from >= elem.len() {
        None
    } else if attr_at(elem, attr_name, from) {
        Some(from)
    } else {
        find_attr(elem, attr_name, from + 1)
    }
}

/// Where an attribute with this name first begins at `i`, `find_attr` finds it.
proof fn lemma_find_attr_is(elem: Seq<char>, attr_name: Seq<char>, from: int, i: int)
    requires
        0 <= from <= i < elem.len(),
        attr_at(elem, attr_name, i),
        forall|j: int| from <= j < i ==> !attr_at(elem, attr_name, j),
    ensures
        find_attr(elem, attr_name, from) == Some(i),
    decreases i - from,
{
    if from < i {
        lemma_find_attr_is(elem, attr_name, from + 1, i);
    }
}

/// The text between the quotes of the first attribute with this name.
pub open spec fn attr_value(elem: Seq<char>, attr_name: Seq<char>) -> Option<Seq<char>> {
    match find_attr(elem, attr_name, 0) {
        None => None,
        Some(at) => {
            let from = at + attr_name.len() + 2;
            match find_from(elem, seq!['"'], from) {
                Some(to) => Some(elem.subrange(from, to)),
                None => None,
            }
        },
    }
}

/// An attribute of the first element with a tag.
pub open spec fn attr_in_tag(
    xml: Seq<char>,
    tag_name: Seq<char>,
    attr_name: Seq<char>,
) -> Option<Seq<char>> {
    match element(xml, tag_name) {
        Some(elem) => attr_value(elem, attr_name),
        None => None,
    }
}

/// The text between the quotes of the first attribute with this name.
fn read_attr(elem: &Vec<char>, attr_name: &str) -> (r: Option<String>)
    ensures
        text_opt(r) == attr_value(elem@, attr_name@),
{
    let mut needle: Vec<char> = chars_of(attr_name);
    needle.push('=');
    needle.push('"');
    assert(needle@ == attr_name@ + seq!['=', '"']);
    let len: usize = elem.len();
    let n: usize = needle.len();
    let mut i: usize = 0;
    while i < len
        invariant
            len == elem@.len(),
            n == needle@.len(),
            needle@ == attr_name@ + seq!['=', '"'],
            i <= len,
            find_attr(elem@, attr_name@, 0) == find_attr(elem@, attr_name@, i as int),
        decreases len - i,
    {
        if n <= len - i && occurs_here(elem, &needle, i) && !is_inside_name(elem, i) {
            let from: usize = i + n;
            let mut quote: Vec<char> = Vec::new();
            quote.push('"');
            assert(quote@ == seq!['"']);
            return match find_text(elem, &quote, from) {
                Some(to) => Some(text_between(elem, from, to)),
                None => None,
            };
        }
        i = i + 1;
    }
    None
}

/// Reads `attr="value"` off the first `<tag ...>` element in `xml`.
pub fn xml_attr_in_tag(xml: &str, tag_name: &str, attr_name: &str) -> (r: Option<String>)
    ensures
        text_opt(r) == attr_in_tag(xml@, tag_name@, attr_name@),
{
    let v: Vec<char> = chars_of(xml);
    let open: usize = match find_tag_text(&v, tag_name) {
        Some(i) => i,
        None => return None,
    };
    let mut bracket: Vec<char> = Vec::new();
    bracket.push('>');
    assert(bracket@ == seq!['>']);
    let end: usize = match find_text(&v, &bracket, open) {
        Some(i) => i + 1,
        None => v.len(),
    };
    let elem: Vec<char> = chars_between(&v, open, end);
    assert(xml@.subrange(open as int, xml@.len() as int) == xml@.skip(open as int));
    read_attr(&elem, attr_name)
}

/// The first `n` characters.
pub open spec fn truncated(s: Seq<char>, n: nat) -> Seq<char> {
    if s.len() <= n {
        s
    } else {
        s.take(n as int)
    }
}

/// Truncates a string to at most `n` characters for logging.
pub fn truncate_xml(s: &str, n: usize) -> (r: String)
    ensures
        r@ == truncated(s@, n as nat),
        r@.len() <= n,
{
    let v: Vec<char> = chars_of(s);
    if v.len() <= n {
        return owned(s);
    }
    assert(v@.subrange(0, n as int) == s@.take(n as int));
    text_between(&v, 0, n)
}

// -- What is written can be read back --------------------------------------------

/// A session id that can stand in a wrapper: it has no quote and no bracket.
pub open spec fn fits_wrapper(session_id: Seq<char>) -> bool {
    forall|i: int|
        0 <= i < session_id.len() ==> #[trigger] session_id[i] != '"' && session_id[i] != '>'
}

/// Where the parts of a wrapped request stand.
proof fn lemma_wrapped_layout(session_id: Seq<char>, req: Seq<char>)
    requires
        !session_id.contains('>'),
    ensures
        find_tag(wrapped(session_id, req), "ExlapStatement"@, 0) == Some(0int),
        find_from(wrapped(session_id, req), seq!['>'], 0) == Some(29 + session_id.len() as int),
        wrapped(session_id, req).subrange(0, 30 + session_id.len() as int)
            == "<ExlapStatement session_id=\""@ + session_id + "\">"@,
        wrapped(session_id, req).len() == 30 + session_id.len() + req.len() + 17,
{
    reveal_strlit("<ExlapStatement session_id=\"");
    reveal_strlit("\">");
    reveal_strlit("</ExlapStatement>");
    reveal_strlit("ExlapStatement");
    let w = wrapped(session_id, req);
    let head = "<ExlapStatement session_id=\""@;
    assert(head.len() == 28);
    assert(w.subrange(0, 15) =~= seq!['<'] + "ExlapStatement"@);
    assert(w[15] == ' ');
    assert(tag_at(w, "ExlapStatement"@, 0));
    let gt = 29 + session_id.len() as int;
    assert(w.subrange(gt, gt + 1) =~= seq!['>']);
    assert forall|j: int| 0 <= j < gt implies !occurs_at(w, seq!['>'], j) by {
        if occurs_at(w, seq!['>'], j) {
            assert(w.subrange(j, j + 1)[0] == '>');
            if j < 28 {
                assert(w[j] == head[j]);
            } else if j < 28 + session_id.len() {
                assert(w[j] == session_id[j - 28]);
            }
        }
    }
    lemma_find_is(w, seq!['>'], 0, gt);
    assert(w.subrange(0, gt + 1) =~= head + session_id + "\">"@);
}

/// A wrapped request, unwrapped, is the request without surrounding white space.
pub proof fn law_unwrap_reads_what_wrap_wrote(session_id: Seq<char>, req: Seq<char>)
    requires
        !session_id.contains('>'),
    ensures
        unwrapped(wrapped(session_id, req)) == trim(req),
{
    reveal_strlit("<ExlapStatement session_id=\"");
    reveal_strlit("\">");
    reveal_strlit("</ExlapStatement>");
    lemma_wrapped_layout(session_id, req);
    let w = wrapped(session_id, req);
    let close = w.len() - 17;
    assert(w.subrange(close, close + 17) =~= "</ExlapStatement>"@);
    assert(rfind(w, "</ExlapStatement>"@) == Some(close as int));
    assert(w.subrange(30 + session_id.len() as int, close as int) =~= req);
}

/// The wrapper of a request names its session.
pub proof fn law_wrapper_names_its_session(session_id: Seq<char>, req: Seq<char>)
    requires
        fits_wrapper(session_id),
    ensures
        root_tag(wrapped(session_id, req)) == Some("ExlapStatement"@),
        attr_in_tag(wrapped(session_id, req), "ExlapStatement"@, "session_id"@) == Some(session_id),
{
    reveal_strlit("<ExlapStatement session_id=\"");
    reveal_strlit("\">");
    reveal_strlit("</ExlapStatement>");
    reveal_strlit("ExlapStatement");
    reveal_strlit("session_id");
    lemma_wrapped_layout(session_id, req);
    let w = wrapped(session_id, req);
    let n = session_id.len() as int;
    // The root tag.
    assert(w.subrange(0, 1) =~= seq!['<']);
    lemma_find_is(w, seq!['<'], 0, 0);
    reveal_with_fuel(name_end, 16);
    assert(name_end(w, 1) == 15);
    assert(w.subrange(1, 15) =~= "ExlapStatement"@);
    // The attribute.
    let elem = w.subrange(0, 30 + n);
    let needle = "session_id"@ + seq!['=', '"'];
    assert(elem.subrange(16, 28) =~= needle);
    assert(elem[15] == ' ');
    assert forall|j: int| 0 <= j < 16 implies !attr_at(elem, "session_id"@, j) by {
        if occurs_at(elem, needle, j) {
            assert(elem.subrange(j, j + needle.len())[0] == 's');
        }
    }
    lemma_find_attr_is(elem, "session_id"@, 0, 16);
    assert(elem.subrange(28 + n, 29 + n) =~= seq!['"']);
    assert forall|j: int| 28 <= j < 28 + n implies !occurs_at(elem, seq!['"'], j) by {
        if occurs_at(elem, seq!['"'], j) {
            assert(elem.subrange(j, j + 1)[0] == '"');
            assert(elem[j] == session_id[j - 28]);
        }
    }
    lemma_find_is(elem, seq!['"'], 28, 28 + n);
    assert(elem.subrange(28, 28 + n) =~= session_id);
}

// -- Reading elements ------------------------------------------------------------

/// The root tag of a text is the name behind the first opening bracket, up to a
/// space, a slash or a closing bracket, unless it is no name of an element.
pub proof fn law_root_tag_is_the_first_name(before: Seq<char>, name: Seq<char>, after: Seq<char>)
    requires
        !before.contains('<'),
        forall|i: int|
            0 <= i < name.len() ==> #[trigger] name[i] != ' ' && name[i] != '>' && name[i] != '/',
        after.len() > 0 ==> after[0] == ' ' || after[0] == '>' || after[0] == '/',
    ensures
        root_tag(before + seq!['<'] + name + after) == (if name.len() == 0 || name[0] == '?'
            || name[0] == '!' {
            None
        } else {
            Some(name)
        }),
        root_tag(before) is None,
{
    let s = before + seq!['<'] + name + after;
    let at = before.len() as int;
    assert(s.subrange(at, at + 1) =~= seq!['<']);
    assert forall|j: int| 0 <= j < at implies !occurs_at(s, seq!['<'], j) by {
        if occurs_at(s, seq!['<'], j) {
            assert(s.subrange(j, j + 1)[0] == '<');
            assert(s[j] == before[j]);
        }
    }
    lemma_find_is(s, seq!['<'], 0, at);
    lemma_name_end(s, at + 1, name.len());
    assert(s.subrange(at + 1, at + 1 + name.len()) =~= name);
    lemma_find_from(before, seq!['<'], 0);
    if let Some(i) = find(before, seq!['<']) {
        assert(before.subrange(i, i + 1)[0] == '<');
        assert(before[i] == '<');
    }
}

/// Where a name ends.
pub proof fn lemma_name_end(s: Seq<char>, from: int, n: nat)
    requires
        0 <= from,
        from + n <= s.len(),
        forall|i: int| from <= i < from + n ==> !ends_name(#[trigger] s[i]),
        from + n < s.len() ==> ends_name(s[from + n]),
    ensures
        name_end(s, from) == from + n,
    decreases n,
{
    if n > 0 {
        lemma_name_end(s, from + 1, (n - 1) as nat);
    }
}

/// A name goes on at this place of a text: a character of names stands before it,
/// and one stands there.
pub open spec fn goes_on(s: Seq<char>, i: int) -> bool {
    0 < i < s.len() && is_name_char(s[i - 1]) && is_name_char(s[i])
}

/// Where this tag begins before `n`, its name goes on: it is another tag.
pub open spec fn no_tag_before(s: Seq<char>, tag: Seq<char>, n: int) -> bool {
    forall|j: int|
        0 <= j < n && #[trigger] occurs_at(s, seq!['<'] + tag, j) ==> goes_on(s, j + 1 + tag.len())
}

/// Where an attribute with this name begins before `n`, the name began before that:
/// it is another attribute.
pub open spec fn no_attr_before(s: Seq<char>, name: Seq<char>, n: int) -> bool {
    let needle = name + seq!['=', '"'];
    forall|j: int| 0 <= j < n && #[trigger] occurs_at(s, needle, j) ==> goes_on(s, j)
}

/// An attribute is read from the first element with the tag: its value is what
/// stands between the quotes behind the first whole name that is the attribute's.
pub proof fn law_attribute_is_read(
    before: Seq<char>,
    tag: Seq<char>,
    others: Seq<char>,
    name: Seq<char>,
    value: Seq<char>,
    after: Seq<char>,
)
    requires
        no_tag_before(before + seq!['<'] + tag, tag, before.len() as int),
        !tag.contains('>'),
        !others.contains('>'),
        !name.contains('>'),
        !value.contains('>') && !value.contains('"'),
        others.len() > 0,
        !is_name_char(others[0]),
        !is_name_char(others[others.len() - 1]),
        no_attr_before(
            seq!['<'] + tag + others + name + seq!['=', '"'] + value,
            name,
            1int + tag.len() + others.len(),
        ),
    ensures
        attr_in_tag(
            before + seq!['<'] + tag + others + name + seq!['=', '"'] + value + seq!['"'] + after,
            tag,
            name,
        ) == Some(value),
{
    let head = seq!['<'] + tag + others;
    let needle = name + seq!['=', '"'];
    let known = head + needle + value;
    let xml = before + seq!['<'] + tag + others + name + seq!['=', '"'] + value + seq!['"']
        + after;
    let open = before.len() as int;
    assert(xml =~= before + known + seq!['"'] + after);
    assert(known =~= seq!['<'] + tag + others + name + seq!['=', '"'] + value);
    // The element.
    assert(xml.subrange(open, open + 1 + tag.len()) =~= seq!['<'] + tag);
    assert(xml[open + 1 + tag.len()] == others[0]);
    let upto = before + seq!['<'] + tag;
    assert forall|j: int| 0 <= j < open implies !tag_at(xml, tag, j) by {
        if occurs_at(xml, seq!['<'] + tag, j) {
            assert(upto.subrange(j, j + 1 + tag.len()) =~= xml.subrange(j, j + 1 + tag.len()));
            assert(occurs_at(upto, seq!['<'] + tag, j));
            let end = j + 1 + tag.len();
            assert(xml[end - 1] == upto[end - 1] && xml[end] == upto[end]);
        }
    }
    lemma_find_tag_is(xml, tag, 0, open);
    lemma_find_from(xml, seq!['>'], open);
    let n = known.len() as int;
    let gt = find_from(xml, seq!['>'], open);
    if let Some(g) = gt {
        assert(xml.subrange(g, g + 1)[0] == '>');
        if g < open + n {
            assert(xml[g] == known[g - open]);
            lemma_no_bracket(tag, others, name, value, g - open);
        }
        assert(g != open + n);
    }
    let elem = element(xml, tag)->0;
    assert(elem.len() > n);
    assert forall|k: int| 0 <= k < n implies elem[k] == #[trigger] known[k] by {}
    assert(elem[n] == '"');
    // The attribute.
    let at = head.len() as int;
    assert(elem.subrange(at, at + needle.len()) =~= needle) by {
        assert forall|k: int| 0 <= k < needle.len() implies elem[at + k] == needle[k] by {
            assert(known[at + k] == needle[k]);
        }
    }
    assert(elem[at - 1] == known[at - 1]);
    assert(known[at - 1] == others[others.len() - 1]);
    assert forall|j: int| 0 <= j < at implies !attr_at(elem, name, j) by {
        if occurs_at(elem, needle, j) {
            if j + needle.len() <= n {
                assert(known.subrange(j, j + needle.len()) =~= elem.subrange(
                    j,
                    j + needle.len(),
                ));
                assert(occurs_at(known, needle, j));
                assert(elem[j - 1] == known[j - 1] && elem[j] == known[j]);
            } else {
                assert(j + needle.len() < at + needle.len());
            }
        }
    }
    lemma_find_attr_is(elem, name, 0, at);
    // Its value.
    let from = at + needle.len();
    assert(elem.subrange(n, n + 1) =~= seq!['"']);
    assert forall|j: int| from <= j < n implies !occurs_at(elem, seq!['"'], j) by {
        if occurs_at(elem, seq!['"'], j) {
            assert(elem.subrange(j, j + 1)[0] == '"');
            assert(elem[j] == known[j]);
            assert(known[j] == value[j - from]);
        }
    }
    lemma_find_is(elem, seq!['"'], from, n);
    assert(elem.subrange(from, n) =~= value) by {
        assert forall|k: int| 0 <= k < value.len() implies elem[from + k] == value[k] by {
            assert(known[from + k] == value[k]);
        }
    }
}

proof fn lemma_no_bracket(
    tag: Seq<char>,
    others: Seq<char>,
    name: Seq<char>,
    value: Seq<char>,
    k: int,
)
    requires
        !tag.contains('>'),
        !others.contains('>'),
        !name.contains('>'),
        !value.contains('>'),
        0 <= k < (seq!['<'] + tag + others + (name + seq!['=', '"']) + value).len(),
    ensures
        (seq!['<'] + tag + others + (name + seq!['=', '"']) + value)[k] != '>',
{
    let a = seq!['<'];
    let b = a + tag;
    let c = b + others;
    let d = name + seq!['=', '"'];
    if k >= 1 && k < b.len() {
        assert(b[k] == tag[k - 1]);
    } else if b.len() <= k < c.len() {
        assert(c[k] == others[k - b.len()]);
    } else if c.len() <= k < c.len() + d.len() {
        let j = k - c.len();
        if j < name.len() {
            assert(d[j] == name[j]);
        }
    } else if k >= c.len() + d.len() {
        assert((c + d + value)[k] == value[k - (c + d).len()]);
    }
}

/// An attribute that an element does not have is not read, nor one of an element
/// that is not there. A name that is a part of a longer one does not count.
pub proof fn law_missing_attribute_is_not_read(xml: Seq<char>, tag: Seq<char>, name: Seq<char>)
    ensures
        !contains_text(xml, name + seq!['=', '"']) ==> attr_in_tag(xml, tag, name) is None,
        !contains_text(xml, seq!['<'] + tag) ==> attr_in_tag(xml, tag, name) is None,
        no_attr_before(xml, name, xml.len() as int) ==> attr_in_tag(xml, tag, name) is None,
        no_tag_before(xml, tag, xml.len() as int) ==> attr_in_tag(xml, tag, name) is None,
{
    lemma_find_tag_from(xml, tag, 0);
    if let Some(open) = find_tag(xml, tag, 0) {
        lemma_find_from(xml, seq!['>'], open);
        let elem = element(xml, tag)->0;
        lemma_find_attr_from(elem, name, 0);
        if let Some(at) = find_attr(elem, name, 0) {
            let needle = name + seq!['=', '"'];
            assert(xml.subrange(open + at, open + at + needle.len()) =~= elem.subrange(
                at,
                at + needle.len(),
            ));
            assert(occurs_at(xml, needle, open + at));
            assert(xml[open + at] == elem[at]);
            if at > 0 {
                assert(xml[open + at - 1] == elem[at - 1]);
            } else {
                assert(xml.subrange(open, open + 1 + tag.len())[0] == '<');
                assert(xml[open] == '<');
            }
        }
    }
}

proof fn lemma_find_tag_from(xml: Seq<char>, tag: Seq<char>, from: int)
    requires
        0 <= from,
    ensures
        find_tag(xml, tag, from) matches Some(i) ==> from <= i < xml.len() && tag_at(xml, tag, i),
    decreases xml.len() - from,
{
    if from < xml.len() && !tag_at(xml, tag, from) {
        lemma_find_tag_from(xml, tag, from + 1);
    }
}

proof fn lemma_find_attr_from(elem: Seq<char>, name: Seq<char>, from: int)
    requires
        0 <= from,
    ensures
        find_attr(elem, name, from) matches Some(i) ==> from <= i < elem.len() && attr_at(
            elem,
            name,
            i,
        ),
    decreases elem.len() - from,
{
    if from < elem.len() && !attr_at(elem, name, from) {
        lemma_find_attr_from(elem, name, from + 1);
    }
}

/// A statement is unwrapped to what stands between its opening tag and the last
/// closing one.
pub proof fn law_statement_is_unwrapped(
    before: Seq<char>,
    attrs: Seq<char>,
    inner: Seq<char>,
    after: Seq<char>,
)
    requires
        !before.contains('<'),
        !attrs.contains('>'),
        attrs.len() > 0 ==> !is_name_char(attrs[0]),
        !after.contains('<'),
    ensures
        unwrapped(
            before + "<ExlapStatement"@ + attrs + seq!['>'] + inner + "</ExlapStatement>"@ + after,
        ) == trim(inner),
{
    let close = "</ExlapStatement>"@;
    let head = before + "<ExlapStatement"@ + attrs + seq!['>'];
    let xml = head + inner + close + after;
    lemma_statement_opens(before, attrs, inner + close + after);
    assert(head + (inner + close + after) =~= xml);
    lemma_statement_closes(head + inner, after);
    assert(xml.subrange(head.len() as int, (head + inner).len() as int) =~= inner);
}

proof fn lemma_statement_closes(before: Seq<char>, after: Seq<char>)
    requires
        !after.contains('<'),
    ensures
        rfind(before + "</ExlapStatement>"@ + after, "</ExlapStatement>"@) == Some(
            before.len() as int,
        ),
{
    let close = "</ExlapStatement>"@;
    let xml = before + close + after;
    let at = before.len() as int;
    assert(xml.subrange(at, at + close.len()) =~= close);
    assert forall|j: int| at < j implies !occurs_at(xml, close, j) by {
        if occurs_at(xml, close, j) {
            lemma_closing_tag(j - at);
            assert(xml.subrange(j, j + close.len())[0] == close[0]);
            assert(xml[j] == '<');
            if j < at + close.len() {
                assert(xml[j] == close[j - at]);
            } else {
                assert(xml[j] == after[j - at - close.len()]);
            }
        }
    }
    law_occurrences_are_found(xml, close, at);
}

/// The closing tag of a statement has one opening bracket, its first character.
proof fn lemma_closing_tag(k: int)
    ensures
        "</ExlapStatement>"@.len() == 17,
        "</ExlapStatement>"@[0] == '<',
        0 < k < 17 ==> "</ExlapStatement>"@[k] != '<',
{
    reveal_strlit("</ExlapStatement>");
}

/// A statement that is not closed is unwrapped to all that follows its opening
/// tag; a text without one is itself.
pub proof fn law_open_statement_is_unwrapped(
    before: Seq<char>,
    attrs: Seq<char>,
    inner: Seq<char>,
)
    requires
        !before.contains('<'),
        !attrs.contains('>'),
        attrs.len() > 0 ==> !is_name_char(attrs[0]),
        !inner.contains('<'),
    ensures
        unwrapped(before + "<ExlapStatement"@ + attrs + seq!['>'] + inner) == trim(inner),
        unwrapped(before) == before,
{
    let close = "</ExlapStatement>"@;
    let head = before + "<ExlapStatement"@ + attrs + seq!['>'];
    let xml = head + inner;
    lemma_find_tag_from(before, "ExlapStatement"@, 0);
    if let Some(i) = find_tag(before, "ExlapStatement"@, 0) {
        assert(before.subrange(i, i + 1 + "ExlapStatement"@.len())[0] == '<');
        assert(before[i] == '<');
    }
    lemma_statement_opens(before, attrs, inner);
    if let Some(j) = rfind(xml, close) {
        law_occurrences_are_found(xml, close, j);
        lemma_closing_tag(0);
        assert(xml.subrange(j, j + close.len())[0] == close[0]);
        assert(xml[j] == '<');
        if j >= head.len() {
            assert(xml[j] == inner[j - head.len()]);
        }
    }
    assert(xml.skip(head.len() as int) =~= inner);
}

proof fn lemma_statement_opens(before: Seq<char>, attrs: Seq<char>, rest: Seq<char>)
    requires
        !before.contains('<'),
        !attrs.contains('>'),
        attrs.len() > 0 ==> !is_name_char(attrs[0]),
    ensures
        ({
            let head = before + "<ExlapStatement"@ + attrs + seq!['>'];
            let xml = head + rest;
            &&& find_tag(xml, "ExlapStatement"@, 0) == Some(before.len() as int)
            &&& find_from(xml, seq!['>'], before.len() as int) == Some(head.len() - 1)
        }),
{
    reveal_strlit("<ExlapStatement");
    reveal_strlit("ExlapStatement");
    let tag = "ExlapStatement"@;
    let opening = "<ExlapStatement"@;
    let head = before + opening + attrs + seq!['>'];
    let xml = head + rest;
    let open = before.len() as int;
    assert(xml.subrange(open, open + 15) =~= seq!['<'] + tag);
    assert(attrs.len() > 0 ==> xml[open + 15] == attrs[0]);
    assert(attrs.len() == 0 ==> xml[open + 15] == '>');
    assert forall|j: int| 0 <= j < open implies !tag_at(xml, tag, j) by {
        if occurs_at(xml, seq!['<'] + tag, j) {
            assert(xml.subrange(j, j + 1 + tag.len())[0] == '<');
            assert(xml[j] == before[j]);
        }
    }
    lemma_find_tag_is(xml, tag, 0, open);
    let gt = head.len() - 1;
    assert(xml.subrange(gt, gt + 1) =~= seq!['>']);
    assert forall|j: int| open <= j < gt implies !occurs_at(xml, seq!['>'], j) by {
        if occurs_at(xml, seq!['>'], j) {
            assert(xml.subrange(j, j + 1)[0] == '>');
            if j < open + 15 {
                assert(xml[j] == opening[j - open]);
            } else {
                assert(xml[j] == attrs[j - open - 15]);
            }
        }
    }
    lemma_find_is(xml, seq!['>'], open, gt);
}

/// What is shown of a text for the log is its beginning, as long as allowed.
pub proof fn law_truncation_keeps_the_beginning(s: Seq<char>, n: nat, i: int)
    ensures
        truncated(s, n).len() == (if s.len() <= n {
            s.len()
        } else {
            n
        }),
        0 <= i < truncated(s, n).len() ==> truncated(s, n)[i] == s[i],
{
}

/// Letters, digits, the underscore, the hyphen, the dot and the colon make names,
/// and so do the letters of other scripts; white space, quotes, brackets, slashes,
/// equals signs and other punctuation part them.
pub proof fn law_names_are_parted(c: char)
    ensures
        'a' <= c <= 'z' || 'A' <= c <= 'Z' || '0' <= c <= '9' || c == '_' || c == '-' || c == '.'
            || c == ':' ==> is_name_char(c),
        '\u{c0}' <= c <= '\u{1fff}' ==> is_name_char(c) == (c != '\u{d7}' && c != '\u{f7}' && c
            != '\u{37e}'),
        '\u{3001}' <= c <= '\u{d7ff}' || '\u{10000}' <= c <= '\u{effff}' ==> is_name_char(c),
        c == ' ' || c == '\t' || c == '\n' || c == '\r' || c == '"' || c == '\'' || c == '<' || c
            == '>' || c == '/' || c == '=' ==> !is_name_char(c),
        c < '-' || '\u{7f}' <= c < '\u{b7}' || '\u{2190}' <= c < '\u{2c00}' || '\u{2ff0}' <= c
            <= '\u{3000}' || '\u{e000}' <= c < '\u{f900}' || c > '\u{effff}' ==> !is_name_char(c),
{
}

} // verus!
