//! Text primitives over sequences of characters: searching, trimming,
//! splitting, and decimal numbers.
//!
//! A `str` is modelled by its view, a sequence of `char`. The executable
//! functions first spread a `str` into a `Vec<char>` and then work by index,
//! so each position below counts characters.

use vstd::prelude::*;

verus! {

/// `String::push` appends one character to the end of the string.
pub assume_specification[ String::push ](s: &mut String, c: char)
    ensures
        final(s)@ == old(s)@.push(c),
;

/// The texts of a list of strings.
pub open spec fn texts(list: Seq<String>) -> Seq<Seq<char>> {
    list.map_values(|s: String| s@)
}

/// The text of an optional string.
pub open spec fn text_opt(o: Option<String>) -> Option<Seq<char>> {
    match o {
        Some(s) => Some(s@),
        None => None,
    }
}

// -- Spreading a string and building one ----------------------------------------

/// The characters of `s`, in order.
pub fn chars_of(s: &str) -> (r: Vec<char>)
    ensures
        r@ == s@,
{
    let mut out: Vec<char> = Vec::new();
    for c in it: s.chars()
        invariant
            it.seq() == s@,
            out@ == s@.take(it.index() as int),
    {
        out.push(c);
    }
    assert(s@.take(s@.len() as int) == s@);
    out
}

/// The string made of `v[from..to]`.
pub fn text_between(v: &Vec<char>, from: usize, to: usize) -> (r: String)
    requires
        from <= to <= v@.len(),
    ensures
        r@ == v@.subrange(from as int, to as int),
{
    let mut s: String = String::new();
    let mut i: usize = from;
    while i < to
        invariant
            from <= i <= to <= v@.len(),
            s@ == v@.subrange(from as int, i as int),
        decreases to - i,
    {
        s.push(v[i]);
        i = i + 1;
    }
    s
}

/// The characters `v[from..to]`.
pub fn chars_between(v: &Vec<char>, from: usize, to: usize) -> (r: Vec<char>)
    requires
        from <= to <= v@.len(),
    ensures
        r@ == v@.subrange(from as int, to as int),
{
    let mut out: Vec<char> = Vec::new();
    let mut i: usize = from;
    while i < to
        invariant
            from <= i <= to <= v@.len(),
            out@ == v@.subrange(from as int, i as int),
        decreases to - i,
    {
        out.push(v[i]);
        i = i + 1;
    }
    out
}

/// A copy of `s` as an owned string.
pub fn owned(s: &str) -> (r: String)
    ensures
        r@ == s@,
{
    s.to_owned()
}

/// Whether two strings hold the same text.
pub fn same_text(a: &str, b: &str) -> (r: bool)
    ensures
        r == (a@ == b@),
{
    let x: String = a.to_owned();
    let y: String = b.to_owned();
    x == y
}

/// Whether the list holds the text `s`.
pub fn list_contains(list: &Vec<String>, s: &str) -> (r: bool)
    ensures
        r == texts(list@).contains(s@),
{
    let mut i: usize = 0;
    while i < list.len()
        invariant
            i <= list@.len(),
            forall|j: int| 0 <= j < i ==> #[trigger] texts(list@)[j] != s@,
        decreases list@.len() - i,
    {
        if same_text(list[i].as_str(), s) {
            assert(texts(list@)[i as int] == s@);
            return true;
        }
        i = i + 1;
    }
    false
}

/// A copy of a list of strings.
pub fn copy_list(list: &Vec<String>) -> (r: Vec<String>)
    ensures
        texts(r@) == texts(list@),
{
    let mut out: Vec<String> = Vec::new();
    let mut i: usize = 0;
    while i < list.len()
        invariant
            i <= list@.len(),
            texts(out@) == texts(list@).take(i as int),
        decreases list@.len() - i,
    {
        let ghost before = out@;
        out.push(list[i].clone());
        assert(texts(out@) == texts(before).push(list@[i as int]@));
        i = i + 1;
    }
    assert(texts(list@).take(i as int) == texts(list@));
    out
}

// -- Searching -------------------------------------------------------------------

/// `needle` stands in `hay` at position `i`.
pub open spec fn occurs_at(hay: Seq<char>, needle: Seq<char>, i: int) -> bool {
    &&& 0 <= i
    &&& i + needle.len() <= hay.len()
    &&& hay.subrange(i, i + needle.len()) == needle
}

/// The first position, not before `from`, at which `needle` stands in `hay`.
pub open spec fn find_from(hay: Seq<char>, needle: Seq<char>, from: int) -> Option<int>
    decreases hay.len() - from + 1,
{
    if from + needle.len() > hay.len() {
        None
    } else if occurs_at(hay, needle, from) {
        Some(from)
    } else {
        find_from(hay, needle, from + 1)
    }
}

/// The last position, not after `upto`, at which `needle` stands in `hay`.
pub open spec fn rfind_upto(hay: Seq<char>, needle: Seq<char>, upto: int) -> Option<int>
    decreases upto + 1,
{
    if upto < 0 {
        None
    } else if occurs_at(hay, needle, upto) {
        Some(upto)
    } else {
        rfind_upto(hay, needle, upto - 1)
    }
}

/// The first position of `needle` in `hay`.
pub open spec fn find(hay: Seq<char>, needle: Seq<char>) -> Option<int> {
    find_from(hay, needle, 0)
}

/// The last position of `needle` in `hay`.
pub open spec fn rfind(hay: Seq<char>, needle: Seq<char>) -> Option<int> {
    rfind_upto(hay, needle, hay.len() - needle.len())
}

/// `needle` stands somewhere in `hay`.
pub open spec fn contains_text(hay: Seq<char>, needle: Seq<char>) -> bool {
    exists|i: int| occurs_at(hay, needle, i)
}

/// A first occurrence is an occurrence, and nothing before it is one.
pub proof fn lemma_find_from(hay: Seq<char>, needle: Seq<char>, from: int)
    requires
        0 <= from,
    ensures
        find_from(hay, needle, from) matches Some(i) ==> from <= i && occurs_at(hay, needle, i)
            && forall|j: int| from <= j < i ==> !occurs_at(hay, needle, j),
        find_from(hay, needle, from) is None ==> forall|j: int|
            from <= j ==> !occurs_at(hay, needle, j),
    decreases hay.len() - from + 1,
{
    if from + needle.len() > hay.len() {
    } else if occurs_at(hay, needle, from) {
    } else {
        lemma_find_from(hay, needle, from + 1);
    }
}

/// Where `needle` first stands at `i`, that is what `find_from` gives.
pub proof fn lemma_find_is(hay: Seq<char>, needle: Seq<char>, from: int, i: int)
    requires
        0 <= from <= i,
        occurs_at(hay, needle, i),
        forall|j: int| from <= j < i ==> !occurs_at(hay, needle, j),
    ensures
        find_from(hay, needle, from) == Some(i),
{
    lemma_find_from(hay, needle, from);
}

/// The first position of `needle` in `hay`, in executable form.
pub fn find_text(hay: &Vec<char>, needle: &Vec<char>, from: usize) -> (r: Option<usize>)
    ensures
        match r {
            Some(i) => find_from(hay@, needle@, from as int) == Some(i as int),
            None => find_from(hay@, needle@, from as int) is None,
        },
        r matches Some(i) ==> from <= i && i + needle@.len() <= hay@.len() <= usize::MAX,
{
    let h: usize = hay.len();
    let n: usize = needle.len();
    let mut i: usize = from;
    while i <= h && n <= h - i
        invariant
            h == hay@.len(),
            n == needle@.len(),
            from <= i,
            find_from(hay@, needle@, from as int) == find_from(hay@, needle@, i as int),
        decreases h + 1 - i,
    {
        if occurs_here(hay, needle, i) {
            return Some(i);
        }
        if i == h {
            assert(n == 0);
            assert(hay@.subrange(i as int, i as int) == needle@);
            return None;
        }
        i = i + 1;
    }
    None
}

/// Whether `needle` stands in `hay` at `at`.
pub fn occurs_here(hay: &Vec<char>, needle: &Vec<char>, at: usize) -> (r: bool)
    requires
        at + needle@.len() <= hay@.len(),
    ensures
        r == occurs_at(hay@, needle@, at as int),
{
    let h: usize = hay.len();
    let mut k: usize = 0;
    while k < needle.len()
        invariant
            k <= needle@.len(),
            h == hay@.len(),
            at + needle@.len() <= h,
            forall|j: int| 0 <= j < k ==> hay@[at + j] == #[trigger] needle@[j],
        decreases needle@.len() - k,
    {
        if hay[at + k] != needle[k] {
            assert(hay@.subrange(at as int, at + needle@.len())[k as int] == hay@[at + k]);
            return false;
        }
        k = k + 1;
    }
    assert(hay@.subrange(at as int, at + needle@.len()) == needle@);
    true
}

/// The last position of `needle` in `hay`, in executable form.
pub fn rfind_text(hay: &Vec<char>, needle: &Vec<char>) -> (r: Option<usize>)
    ensures
        match r {
            Some(i) => rfind(hay@, needle@) == Some(i as int),
            None => rfind(hay@, needle@) is None,
        },
        r matches Some(i) ==> i + needle@.len() <= hay@.len(),
{
    if needle.len() > hay.len() {
        return None;
    }
    let mut i: usize = hay.len() - needle.len();
    loop
        invariant
            i + needle@.len() <= hay@.len(),
            rfind(hay@, needle@) == rfind_upto(hay@, needle@, i as int),
        decreases i,
    {
        if occurs_here(hay, needle, i) {
            return Some(i);
        }
        if i == 0 {
            assert(rfind_upto(hay@, needle@, -1) is None);
            return None;
        }
        i = i - 1;
    }
}

/// Whether `needle` stands somewhere in `hay`.
pub fn has_text(hay: &str, needle: &str) -> (r: bool)
    ensures
        r == contains_text(hay@, needle@),
{
    let h: Vec<char> = chars_of(hay);
    let n: Vec<char> = chars_of(needle);
    proof {
        lemma_find_from(hay@, needle@, 0);
    }
    match find_text(&h, &n, 0) {
        Some(_) => true,
        None => false,
    }
}

// -- Trimming --------------------------------------------------------------------

/// The Unicode property White_Space.
pub open spec fn is_white_space(c: char) -> bool {
    ||| '\u{9}' <= c <= '\u{d}'
    ||| c == '\u{20}'
    ||| c == '\u{85}'
    ||| c == '\u{a0}'
    ||| c == '\u{1680}'
    ||| '\u{2000}' <= c <= '\u{200a}'
    ||| c == '\u{2028}'
    ||| c == '\u{2029}'
    ||| c == '\u{202f}'
    ||| c == '\u{205f}'
    ||| c == '\u{3000}'
}

/// Whether `c` is white space.
pub fn white_space(c: char) -> (r: bool)
    ensures
        r == is_white_space(c),
{
    ('\u{9}' <= c && c <= '\u{d}') || c == '\u{20}' || c == '\u{85}' || c == '\u{a0}' || c
        == '\u{1680}' || ('\u{2000}' <= c && c <= '\u{200a}') || c == '\u{2028}' || c == '\u{2029}'
        || c == '\u{202f}' || c == '\u{205f}' || c == '\u{3000}'
}

/// `s` without its leading white space.
pub open spec fn trim_start(s: Seq<char>) -> Seq<char>
    decreases s.len(),
{
    if s.len() > 0 && is_white_space(s[0]) {
        trim_start(s.skip(1))
    } else {
        s
    }
}

/// `s` without its trailing white space.
pub open spec fn trim_end(s: Seq<char>) -> Seq<char>
    decreases s.len(),
{
    if s.len() > 0 && is_white_space(s.last()) {
        trim_end(s.drop_last())
    } else {
        s
    }
}

/// `s` without leading and trailing white space.
pub open spec fn trim(s: Seq<char>) -> Seq<char> {
    trim_end(trim_start(s))
}

/// `v[from..to]` without leading and trailing white space.
pub fn trim_between(v: &Vec<char>, from: usize, to: usize) -> (r: String)
    requires
        from <= to <= v@.len(),
    ensures
        r@ == trim(v@.subrange(from as int, to as int)),
{
    let ghost whole = v@.subrange(from as int, to as int);
    let mut a: usize = from;
    while a < to && white_space(v[a])
        invariant
            from <= a <= to <= v@.len(),
            whole == v@.subrange(from as int, to as int),
            trim_start(whole) == trim_start(v@.subrange(a as int, to as int)),
        decreases to - a,
    {
        assert(v@.subrange(a as int, to as int).skip(1) == v@.subrange(a + 1, to as int));
        a = a + 1;
    }
    let mut b: usize = to;
    while a < b && white_space(v[b - 1])
        invariant
            from <= a <= b <= to <= v@.len(),
            trim(whole) == trim_end(v@.subrange(a as int, b as int)),
        decreases b - a,
    {
        assert(v@.subrange(a as int, b as int).drop_last() == v@.subrange(a as int, b - 1));
        b = b - 1;
    }
    text_between(v, a, b)
}

// -- Splitting at commas ---------------------------------------------------------

/// The pieces of `s` between commas: a comma begins a new piece, any other
/// character extends the last one.
pub open spec fn split_commas(s: Seq<char>) -> Seq<Seq<char>>
    decreases s.len(),
{
    if s.len() == 0 {
        seq![Seq::<char>::empty()]
    } else {
        let before = split_commas(s.drop_last());
        if s.last() == ',' {
            before.push(Seq::<char>::empty())
        } else {
            before.drop_last().push(before.last().push(s.last()))
        }
    }
}

/// A text without commas is one piece.
pub proof fn lemma_split_one(s: Seq<char>)
    requires
        !s.contains(','),
    ensures
        split_commas(s) == seq![s],
    decreases s.len(),
{
    if s.len() == 0 {
        assert(s =~= Seq::empty());
    } else {
        let rest = s.drop_last();
        assert forall|i: int| 0 <= i < rest.len() implies rest[i] != ',' by {
            assert(rest[i] == s[i]);
        }
        lemma_split_one(rest);
        assert(s.last() == s[s.len() - 1]);
        assert(rest.push(s.last()) =~= s);
        assert(split_commas(s) =~= seq![s]);
    }
}

/// What follows the last comma is the last piece.
pub proof fn lemma_split_last(a: Seq<char>, b: Seq<char>)
    requires
        !b.contains(','),
    ensures
        split_commas(a + seq![','] + b) == split_commas(a).push(b),
    decreases b.len(),
{
    let s = a + seq![','] + b;
    if b.len() == 0 {
        assert(s.drop_last() =~= a);
        assert(b =~= Seq::empty());
    } else {
        let rest = b.drop_last();
        assert forall|i: int| 0 <= i < rest.len() implies rest[i] != ',' by {
            assert(rest[i] == b[i]);
        }
        lemma_split_last(a, rest);
        assert(s.drop_last() =~= a + seq![','] + rest);
        assert(s.last() == b[b.len() - 1]);
        assert(rest.push(s.last()) =~= b);
        let before = split_commas(a).push(rest);
        assert(before.drop_last() =~= split_commas(a));
    }
}

/// The pieces of `s` between commas, each without surrounding white space.
pub fn trimmed_pieces(s: &str) -> (r: Vec<String>)
    ensures
        texts(r@) == split_commas(s@).map_values(|p: Seq<char>| trim(p)),
{
    let v: Vec<char> = chars_of(s);
    let mut out: Vec<String> = Vec::new();
    let mut start: usize = 0;
    let mut i: usize = 0;
    let ghost f = |p: Seq<char>| trim(p);
    proof {
        assert(v@.subrange(0, 0) == Seq::<char>::empty());
        assert(v@.take(0) == Seq::<char>::empty());
        assert(split_commas(v@.take(0)) == seq![v@.subrange(0, 0)]);
        assert(split_commas(v@.take(0)).drop_last() == Seq::<Seq<char>>::empty());
        assert(texts(out@) == split_commas(v@.take(0)).drop_last().map_values(f));
    }
    while i < v.len()
        invariant
            v@ == s@,
            f == (|p: Seq<char>| trim(p)),
            start <= i <= v@.len(),
            split_commas(v@.take(i as int)).len() > 0,
            split_commas(v@.take(i as int)).last() == v@.subrange(start as int, i as int),
            texts(out@) == split_commas(v@.take(i as int)).drop_last().map_values(f),
        decreases v@.len() - i,
    {
        let ghost now = split_commas(v@.take(i as int));
        let ghost next = split_commas(v@.take(i + 1));
        proof {
            assert(v@.take(i + 1).drop_last() == v@.take(i as int));
            assert(v@.take(i + 1).last() == v@[i as int]);
        }
        if v[i] == ',' {
            let piece: String = trim_between(&v, start, i);
            let ghost before = out@;
            out.push(piece);
            start = i + 1;
            proof {
                assert(next == now.push(Seq::<char>::empty()));
                assert(next.drop_last() == now);
                assert(v@.subrange(start as int, i + 1) == Seq::<char>::empty());
                assert(texts(out@) == texts(before).push(piece@));
                assert(now.map_values(f) == now.drop_last().map_values(f).push(trim(now.last())));
            }
        } else {
            proof {
                assert(next == now.drop_last().push(now.last().push(v@[i as int])));
                assert(next.drop_last() == now.drop_last());
                assert(v@.subrange(start as int, i + 1) == v@.subrange(start as int, i as int).push(
                    v@[i as int],
                ));
            }
        }
        i = i + 1;
    }
    let ghost before = out@;
    let piece: String = trim_between(&v, start, i);
    out.push(piece);
    proof {
        assert(v@.take(i as int) == v@);
        let all = split_commas(v@);
        assert(texts(out@) == texts(before).push(piece@));
        assert(all.map_values(f) == all.drop_last().map_values(f).push(trim(all.last())));
    }
    out
}

// -- Order -----------------------------------------------------------------------

/// `a` comes before `b`: the first character in which they differ decides, and a
/// text comes after those that it extends.
pub open spec fn text_less(a: Seq<char>, b: Seq<char>) -> bool
    decreases a.len(),
{
    if b.len() == 0 {
        false
    } else if a.len() == 0 {
        true
    } else if a[0] != b[0] {
        a[0] < b[0]
    } else {
        text_less(a.skip(1), b.skip(1))
    }
}

/// Of two different texts, one comes before the other.
pub proof fn lemma_text_order_total(a: Seq<char>, b: Seq<char>)
    requires
        a != b,
    ensures
        text_less(a, b) || text_less(b, a),
    decreases a.len(),
{
    if a.len() == 0 {
        assert(b.len() == 0 ==> a == b);
    } else if b.len() > 0 && a[0] == b[0] {
        if a.skip(1) == b.skip(1) {
            assert(a == seq![a[0]] + a.skip(1));
            assert(b == seq![b[0]] + b.skip(1));
        }
        lemma_text_order_total(a.skip(1), b.skip(1));
    }
}

/// What comes before a text comes before all that follow it.
pub proof fn lemma_text_order_transitive(a: Seq<char>, b: Seq<char>, c: Seq<char>)
    requires
        text_less(a, b),
        text_less(b, c),
    ensures
        text_less(a, c),
    decreases a.len(),
{
    if a.len() > 0 && a[0] == b[0] && b[0] == c[0] {
        lemma_text_order_transitive(a.skip(1), b.skip(1), c.skip(1));
    }
}

/// Whether `a` comes before `b`.
pub fn less_text(a: &str, b: &str) -> (r: bool)
    ensures
        r == text_less(a@, b@),
{
    let x: Vec<char> = chars_of(a);
    let y: Vec<char> = chars_of(b);
    let mut i: usize = 0;
    assert(x@.skip(0) == x@ && y@.skip(0) == y@);
    while i < x.len() && i < y.len()
        invariant
            x@ == a@,
            y@ == b@,
            i <= x@.len(),
            i <= y@.len(),
            text_less(x@, y@) == text_less(x@.skip(i as int), y@.skip(i as int)),
        decreases x@.len() - i,
    {
        proof {
            assert(x@.skip(i as int).skip(1) == x@.skip(i + 1));
            assert(y@.skip(i as int).skip(1) == y@.skip(i + 1));
        }
        if x[i] != y[i] {
            return x[i] < y[i];
        }
        i = i + 1;
    }
    i < y.len()
}

/// Each text comes before those behind it, so that none is repeated.
pub open spec fn increasing(list: Seq<Seq<char>>) -> bool {
    forall|i: int, j: int|
        0 <= i < j < list.len() ==> text_less(#[trigger] list[i], #[trigger] list[j])
}

/// Puts a text in its place in a list in order, unless the list holds it.
pub fn insert_in_order(list: &mut Vec<String>, s: String)
    requires
        increasing(texts(old(list)@)),
    ensures
        increasing(texts(final(list)@)),
        texts(final(list)@).to_set() == texts(old(list)@).to_set().insert(s@),
{
    let ghost all = texts(list@);
    let mut i: usize = 0;
    while i < list.len() && less_text(list[i].as_str(), s.as_str())
        invariant
            i <= list@.len(),
            *list == *old(list),
            all == texts(list@),
            forall|k: int| 0 <= k < i ==> text_less(#[trigger] all[k], s@),
        decreases list@.len() - i,
    {
        assert(all[i as int] == list@[i as int]@);
        i = i + 1;
    }
    if i < list.len() && same_text(list[i].as_str(), s.as_str()) {
        proof {
            assert(all[i as int] == s@);
            assert(all.to_set().contains(s@));
            assert(all.to_set() =~= all.to_set().insert(s@));
        }
        return;
    }
    list.insert(i, s);
    proof {
        let now = texts(list@);
        assert(now == all.insert(i as int, s@));
        if i < all.len() {
            lemma_text_order_total(all[i as int], s@);
        }
        assert forall|a: int, b: int| 0 <= a < b < now.len() implies text_less(
            #[trigger] now[a],
            #[trigger] now[b],
        ) by {
            if a == i && b > i + 1 {
                assert(text_less(all[i as int], all[b - 1]));
                lemma_text_order_transitive(s@, all[i as int], all[b - 1]);
            }
        }
        assert forall|t: Seq<char>| now.to_set().contains(t) == all.to_set().insert(s@).contains(
            t,
        ) by {
            if all.contains(t) {
                let k = choose|k: int| 0 <= k < all.len() && all[k] == t;
                assert(now[if k < i {
                    k
                } else {
                    k + 1
                }] == t);
            }
            assert(now[i as int] == s@);
        }
        assert(now.to_set() =~= all.to_set().insert(s@));
    }
}

// -- Decimal numbers -------------------------------------------------------------

/// The digit that stands for `d`, which is below ten.
pub open spec fn digit(d: nat) -> char {
    ((48 + d) as u8) as char
}

/// `n` in decimal, without leading zeros.
pub open spec fn decimal(n: nat) -> Seq<char>
    decreases n,
{
    if n < 10 {
        seq![digit(n)]
    } else {
        decimal(n / 10).push(digit(n % 10))
    }
}

/// `n` in decimal, in executable form.
pub fn decimal_text(n: u64) -> (r: String)
    ensures
        r@ == decimal(n as nat),
    decreases n,
{
    let c: char = ((48 + n % 10) as u8) as char;
    if n < 10 {
        let mut s: String = String::new();
        s.push(c);
        assert(s@ == seq![c]);
        s
    } else {
        let mut s: String = decimal_text(n / 10);
        s.push(c);
        s
    }
}

/// `c` is one of the ten decimal digits.
pub open spec fn is_digit(c: char) -> bool {
    '0' <= c <= '9'
}

/// The number that a sequence of digits writes in decimal.
pub open spec fn digits_value(s: Seq<char>) -> nat
    decreases s.len(),
{
    if s.len() == 0 {
        0
    } else {
        digits_value(s.drop_last()) * 10 + (s.last() as nat - 48) as nat
    }
}

/// The digits of a number that may have a plus sign before it.
pub open spec fn unsigned_digits(s: Seq<char>) -> Seq<char> {
    if s.len() > 0 && s[0] == '+' {
        s.skip(1)
    } else {
        s
    }
}

/// The unsigned number that `s` writes, where it is one and not above `max`:
/// an optional plus sign, then one or more digits, and nothing else.
pub open spec fn parse_unsigned(s: Seq<char>, max: nat) -> Option<nat> {
    let d = unsigned_digits(s);
    if d.len() > 0 && (forall|i: int| 0 <= i < d.len() ==> is_digit(#[trigger] d[i]))
        && digits_value(d) <= max {
        Some(digits_value(d))
    } else {
        None
    }
}

/// A longer run of digits writes a number at least as large.
proof fn lemma_digits_value_grows(d: Seq<char>, k: int)
    requires
        0 <= k <= d.len(),
        forall|i: int| 0 <= i < d.len() ==> is_digit(#[trigger] d[i]),
    ensures
        digits_value(d.take(k)) <= digits_value(d),
    decreases d.len(),
{
    if k == d.len() {
        assert(d.take(k) == d);
    } else {
        assert(d.drop_last().take(k) == d.take(k));
        lemma_digits_value_grows(d.drop_last(), k);
    }
}

/// Reads an unsigned number not above `max`.
pub fn read_unsigned(s: &str, max: u64) -> (r: Option<u64>)
    ensures
        match r {
            Some(n) => parse_unsigned(s@, max as nat) == Some(n as nat),
            None => parse_unsigned(s@, max as nat) is None,
        },
{
    let v: Vec<char> = chars_of(s);
    let from: usize = if v.len() > 0 && v[0] == '+' {
        1
    } else {
        0
    };
    let ghost d = unsigned_digits(s@);
    assert(d == v@.skip(from as int));
    if from == v.len() {
        return None;
    }
    let mut n: u64 = 0;
    let mut i: usize = from;
    assert(d.take(0) == Seq::<char>::empty());
    while i < v.len()
        invariant
            v@ == s@,
            from <= i <= v@.len(),
            from < v@.len(),
            d == unsigned_digits(s@),
            d == v@.skip(from as int),
            forall|k: int| 0 <= k < i - from ==> is_digit(#[trigger] d[k]),
            n == digits_value(d.take(i - from)),
            n <= max,
        decreases v@.len() - i,
    {
        let c: char = v[i];
        assert(d[i - from] == c);
        if !('0' <= c && c <= '9') {
            return None;
        }
        let x: u64 = (c as u64) - 48;
        let ghost here = d.take(i - from + 1);
        proof {
            assert(here.drop_last() == d.take(i - from));
            assert(here.last() == c);
            assert(digits_value(here) == n * 10 + x);
        }
        if x > max || n > max / 10 || n * 10 > max - x {
            proof {
                assert(digits_value(here) > max);
                if forall|k: int| 0 <= k < d.len() ==> is_digit(#[trigger] d[k]) {
                    lemma_digits_value_grows(d, i - from + 1);
                }
            }
            return None;
        }
        n = n * 10 + x;
        i = i + 1;
    }
    assert(d.take(i - from) == d);
    Some(n)
}

// -- What holds of the primitives ------------------------------------------------

/// A text stands at a position just where each of its characters does.
pub proof fn law_occurrence_is_letter_by_letter(hay: Seq<char>, needle: Seq<char>, i: int)
    ensures
        occurs_at(hay, needle, i) <==> {
            &&& 0 <= i
            &&& i + needle.len() <= hay.len()
            &&& forall|k: int| 0 <= k < needle.len() ==> hay[i + k] == #[trigger] needle[k]
        },
{
    if 0 <= i && i + needle.len() <= hay.len() {
        let part = hay.subrange(i, i + needle.len());
        if part == needle {
            assert forall|k: int| 0 <= k < needle.len() implies hay[i + k]
                == #[trigger] needle[k] by {
                assert(part[k] == hay[i + k]);
            }
        }
        if forall|k: int| 0 <= k < needle.len() ==> hay[i + k] == #[trigger] needle[k] {
            assert(part =~= needle);
        }
    }
}

/// The first occurrence is found, and the last one, and a text is held just where
/// it occurs.
pub proof fn law_occurrences_are_found(hay: Seq<char>, needle: Seq<char>, i: int)
    ensures
        find(hay, needle) == Some(i) <==> occurs_at(hay, needle, i) && forall|j: int|
            0 <= j < i ==> !occurs_at(hay, needle, j),
        rfind(hay, needle) == Some(i) <==> occurs_at(hay, needle, i) && forall|j: int|
            i < j ==> !occurs_at(hay, needle, j),
        occurs_at(hay, needle, i) ==> contains_text(hay, needle),
        find(hay, needle) is None <==> !contains_text(hay, needle),
        rfind(hay, needle) is None <==> !contains_text(hay, needle),
{
    lemma_find_from(hay, needle, 0);
    lemma_rfind_upto(hay, needle, hay.len() - needle.len());
}

proof fn lemma_rfind_upto(hay: Seq<char>, needle: Seq<char>, upto: int)
    ensures
        rfind_upto(hay, needle, upto) matches Some(i) ==> i <= upto && occurs_at(hay, needle, i)
            && forall|j: int| i < j <= upto ==> !occurs_at(hay, needle, j),
        rfind_upto(hay, needle, upto) is None ==> forall|j: int|
            j <= upto ==> !occurs_at(hay, needle, j),
    decreases upto + 1,
{
    if upto >= 0 && !occurs_at(hay, needle, upto) {
        lemma_rfind_upto(hay, needle, upto - 1);
    }
}

/// White space around a text is cut, and nothing else is.
pub proof fn law_trim_cuts_white_space(before: Seq<char>, s: Seq<char>, after: Seq<char>)
    requires
        forall|i: int| 0 <= i < before.len() ==> is_white_space(#[trigger] before[i]),
        forall|i: int| 0 <= i < after.len() ==> is_white_space(#[trigger] after[i]),
        s.len() > 0 ==> !is_white_space(s[0]) && !is_white_space(s[s.len() - 1]),
    ensures
        trim(before + s + after) == s,
{
    lemma_trim_start(before, s + after);
    assert(before + (s + after) =~= before + s + after);
    if s.len() == 0 {
        lemma_trim_start(after, Seq::empty());
        assert(s + after =~= after + Seq::empty());
        assert(s =~= Seq::empty());
    } else {
        assert((s + after)[0] == s[0]);
        lemma_trim_end(s, after);
    }
}

proof fn lemma_trim_start(before: Seq<char>, s: Seq<char>)
    requires
        forall|i: int| 0 <= i < before.len() ==> is_white_space(#[trigger] before[i]),
    ensures
        trim_start(before + s) == trim_start(s),
    decreases before.len(),
{
    if before.len() == 0 {
        assert(before + s =~= s);
    } else {
        let rest = before.skip(1);
        assert forall|i: int| 0 <= i < rest.len() implies is_white_space(#[trigger] rest[i]) by {
            assert(rest[i] == before[i + 1]);
        }
        lemma_trim_start(rest, s);
        assert((before + s)[0] == before[0]);
        assert((before + s).skip(1) =~= rest + s);
    }
}

proof fn lemma_trim_end(s: Seq<char>, after: Seq<char>)
    requires
        forall|i: int| 0 <= i < after.len() ==> is_white_space(#[trigger] after[i]),
    ensures
        trim_end(s + after) == trim_end(s),
    decreases after.len(),
{
    if after.len() == 0 {
        assert(s + after =~= s);
    } else {
        let rest = after.drop_last();
        assert forall|i: int| 0 <= i < rest.len() implies is_white_space(#[trigger] rest[i]) by {
            assert(rest[i] == after[i]);
        }
        lemma_trim_end(s, rest);
        assert((s + after).last() == after[after.len() - 1]);
        assert((s + after).drop_last() =~= s + rest);
    }
}

/// A number is one digit or more, after a plus sign or none, each of which weighs
/// ten times as much as the one behind it; what is no such text, or is above the
/// limit, is no number.
pub proof fn law_numbers_are_read_digit_by_digit(s: Seq<char>, c: char, max: nat)
    ensures
        parse_unsigned(Seq::empty(), max) is None,
        parse_unsigned(seq!['+'], max) is None,
        '0' <= c <= '9' ==> parse_unsigned(seq![c], max) == (if c as nat - 48 <= max {
            Some((c as nat - 48) as nat)
        } else {
            None
        }),
        c != '+' && !('0' <= c <= '9') ==> parse_unsigned(seq![c], max) is None,
        s.len() > 0 && s != seq!['+'] ==> parse_unsigned(s.push(c), max) == (match parse_unsigned(
            s,
            max,
        ) {
            Some(n) => if '0' <= c <= '9' && n * 10 + (c as nat - 48) <= max {
                Some((n * 10 + (c as nat - 48)) as nat)
            } else {
                None
            },
            None => None,
        }),
        s.len() > 0 && s[0] != '+' ==> parse_unsigned(seq!['+'] + s, max) == parse_unsigned(s, max),
{
    let one = seq![c];
    assert(digits_value(one.drop_last()) == 0);
    assert(one.last() == c && one[0] == c);
    if c == '+' {
        assert(unsigned_digits(one) =~= Seq::empty());
    } else {
        assert(unsigned_digits(one) == one);
        assert(digits_value(one) == (c as nat - 48) as nat);
    }
    let plus = seq!['+'];
    assert(unsigned_digits(plus) =~= Seq::empty());
    assert((plus + s).skip(1) =~= s);
    if s.len() > 0 && s != plus {
        let d = unsigned_digits(s);
        let e = unsigned_digits(s.push(c));
        if s[0] == '+' {
            assert(s.len() == 1 ==> s =~= plus);
            assert(s.push(c).skip(1) =~= s.skip(1).push(c));
        }
        assert(e == d.push(c));
        assert(d.len() > 0);
        assert(e.drop_last() =~= d);
        assert(e.last() == c);
        if forall|i: int| 0 <= i < e.len() ==> is_digit(#[trigger] e[i]) {
            assert(e[d.len() as int] == c);
            assert forall|i: int| 0 <= i < d.len() implies is_digit(#[trigger] d[i]) by {
                assert(e[i] == d[i]);
            }
        }
        if is_digit(c) && forall|i: int| 0 <= i < d.len() ==> is_digit(#[trigger] d[i]) {
            assert forall|i: int| 0 <= i < e.len() implies is_digit(#[trigger] e[i]) by {
                if i < d.len() {
                    assert(e[i] == d[i]);
                }
            }
        }
    }
}

/// A number that is written in decimal reads back, unless it is above the limit.
pub proof fn law_decimal_reads_back(n: nat, max: nat)
    ensures
        parse_unsigned(decimal(n), max) == (if n <= max {
            Some(n)
        } else {
            None
        }),
        decimal(n).len() > 0,
        decimal(n)[0] != '+',
    decreases n,
{
    if n < 10 {
        let c = digit(n);
        law_numbers_are_read_digit_by_digit(Seq::empty(), c, max);
        assert(decimal(n) == seq![c]);
    } else {
        let q = n / 10;
        let c = digit(n % 10);
        law_decimal_reads_back(q, max);
        law_numbers_are_read_digit_by_digit(decimal(q), c, max);
        assert(decimal(q) != seq!['+']);
        assert(n == q * 10 + n % 10);
        assert(decimal(n)[0] == decimal(q)[0]);
    }
}

} // verus!
