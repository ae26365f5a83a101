//! Which URLs a session subscribes to: those that are configured, that its
//! credential offers, and that no session which came up earlier has taken.

use crate::protocol::{entries, Entry, EntryView};
use crate::text::{increasing, insert_in_order, list_contains, texts};
use vstd::hash_set::StringHashSet;
use vstd::prelude::*;

verus! {

/// A directory offers a URL as data.
pub open spec fn offers(directory: Seq<EntryView>, url: Seq<char>) -> bool {
    directory.contains(EntryView { url, callable: false })
}

/// The configuration asks for a URL, by name or by `*`.
pub open spec fn asks_for(configured: Seq<Seq<char>>, url: Seq<char>) -> bool {
    configured.contains("*"@) || configured.contains(url)
}

/// The URLs that a session with this directory takes.
pub open spec fn wanted(
    configured: Seq<Seq<char>>,
    directory: Seq<EntryView>,
    claimed: Set<Seq<char>>,
) -> Set<Seq<char>> {
    Set::new(
        |url: Seq<char>|
            asks_for(configured, url) && offers(directory, url) && !claimed.contains(url),
    )
}

/// The URLs that a directory offers as data, in order.
pub open spec fn offered(directory: Seq<EntryView>) -> Seq<Seq<char>>
    decreases directory.len(),
{
    if directory.len() == 0 {
        Seq::empty()
    } else {
        let before = offered(directory.drop_last());
        if directory.last().callable {
            before
        } else {
            before.push(directory.last().url)
        }
    }
}

/// The list of what a directory offers holds each such URL, and no other.
pub proof fn lemma_offered(directory: Seq<EntryView>, url: Seq<char>)
    ensures
        offered(directory).contains(url) == offers(directory, url),
    decreases directory.len(),
{
    if directory.len() > 0 {
        let rest = directory.drop_last();
        let e = EntryView { url, callable: false };
        lemma_offered(rest, url);
        let before = offered(rest);
        let now = offered(directory);
        if offers(directory, url) {
            let k = choose|k: int| 0 <= k < directory.len() && directory[k] == e;
            if k < rest.len() {
                assert(rest[k] == e);
                let i = choose|i: int| 0 <= i < before.len() && before[i] == url;
                assert(now[i] == url);
            } else {
                assert(now.last() == url);
            }
        }
        if now.contains(url) {
            let i = choose|i: int| 0 <= i < now.len() && now[i] == url;
            if i < before.len() {
                assert(before[i] == url);
                let k = choose|k: int| 0 <= k < rest.len() && rest[k] == e;
                assert(directory[k] == e);
            } else {
                assert(directory[directory.len() - 1] == e);
            }
        }
    }
}

/// A directory offers no more than it lists.
pub proof fn lemma_offered_len(directory: Seq<EntryView>)
    ensures
        offered(directory).len() <= directory.len(),
    decreases directory.len(),
{
    if directory.len() > 0 {
        lemma_offered_len(directory.drop_last());
    }
}

/// The URLs that a directory offers as data.
pub fn data_urls(directory: &Vec<Entry>) -> (r: Vec<String>)
    ensures
        texts(r@) == offered(entries(directory@)),
{
    let ghost all = entries(directory@);
    let mut out: Vec<String> = Vec::new();
    let mut i: usize = 0;
    proof {
        assert(all.take(0) == Seq::<EntryView>::empty());
        assert(texts(out@) == offered(all.take(0)));
    }
    while i < directory.len()
        invariant
            i <= directory@.len(),
            all == entries(directory@),
            texts(out@) == offered(all.take(i as int)),
        decreases directory@.len() - i,
    {
        let ghost before = out@;
        proof {
            assert(all.take(i + 1).drop_last() == all.take(i as int));
            assert(all.take(i + 1).last() == directory@[i as int]@);
        }
        if !directory[i].callable {
            out.push(directory[i].url.clone());
            assert(texts(out@) == texts(before).push(directory@[i as int].url@));
        }
        i = i + 1;
    }
    assert(all.take(i as int) == all);
    out
}

/// Takes from `from` what is allowed by `within`, if given, and not claimed.
fn take_unclaimed(from: &Vec<String>, within: Option<&Vec<String>>, claimed: &StringHashSet) -> (r:
    Vec<String>)
    ensures
        increasing(texts(r@)),
        texts(r@).to_set() == Set::new(
            |url: Seq<char>|
                texts(from@).contains(url) && !claimed@.contains(url) && (within matches Some(w)
                    ==> texts(w@).contains(url)),
        ),
{
    let ghost all = texts(from@);
    let ghost ok = |url: Seq<char>|
        !claimed@.contains(url) && (within matches Some(w) ==> texts(w@).contains(url));
    let mut out: Vec<String> = Vec::new();
    let mut i: usize = 0;
    proof {
        assert(texts(out@).to_set() =~= Set::<Seq<char>>::empty());
        assert(all.take(0) == Seq::<Seq<char>>::empty());
        assert(Set::new(|url: Seq<char>| all.take(0).contains(url) && ok(url)) =~= Set::<
            Seq<char>,
        >::empty());
    }
    while i < from.len()
        invariant
            i <= from@.len(),
            all == texts(from@),
            ok == (|url: Seq<char>|
                !claimed@.contains(url) && (within matches Some(w) ==> texts(w@).contains(url))),
            increasing(texts(out@)),
            texts(out@).to_set() == Set::new(
                |url: Seq<char>| all.take(i as int).contains(url) && ok(url),
            ),
        decreases from@.len() - i,
    {
        let listed: bool = match within {
            Some(w) => list_contains(w, from[i].as_str()),
            None => true,
        };
        let ghost before = texts(out@).to_set();
        let ghost url = from@[i as int]@;
        if listed && !claimed.contains(from[i].as_str()) {
            insert_in_order(&mut out, from[i].clone());
            assert(ok(url));
        } else {
            assert(!ok(url));
        }
        proof {
            let now = Set::new(|u: Seq<char>| all.take(i + 1).contains(u) && ok(u));
            let next = all.take(i + 1);
            let prev = all.take(i as int);
            assert(next == prev.push(url));
            assert(next[i as int] == url);
            assert forall|u: Seq<char>| now.contains(u) == texts(out@).to_set().contains(u) by {
                if prev.contains(u) {
                    let k = choose|k: int| 0 <= k < prev.len() && prev[k] == u;
                    assert(next[k] == u);
                }
                if next.contains(u) && u != url {
                    let k = choose|k: int| 0 <= k < next.len() && next[k] == u;
                    assert(prev[k] == u);
                }
            }
            assert(texts(out@).to_set() =~= now);
        }
        i = i + 1;
    }
    proof {
        assert(all.take(i as int) == all);
        assert(texts(out@).to_set() =~= Set::new(
            |url: Seq<char>|
                texts(from@).contains(url) && !claimed@.contains(url) && (within matches Some(w)
                    ==> texts(w@).contains(url)),
        ));
    }
    out
}

/// The URLs that a session with this directory takes, in order and each once.
/// `*` means everything that the session offers, otherwise it is the configured
/// URLs that the session has.
pub fn wanted_urls(
    configured: &Vec<String>,
    directory: &Vec<Entry>,
    claimed: &StringHashSet,
) -> (r: Vec<String>)
    ensures
        increasing(texts(r@)),
        texts(r@).to_set() == wanted(texts(configured@), entries(directory@), claimed@),
{
    let urls: Vec<String> = data_urls(directory);
    let want_all: bool = list_contains(configured, "*");
    let out: Vec<String> = if want_all {
        take_unclaimed(&urls, None, claimed)
    } else {
        take_unclaimed(configured, Some(&urls), claimed)
    };
    proof {
        assert forall|url: Seq<char>|
            wanted(texts(configured@), entries(directory@), claimed@).contains(url) == texts(
                out@,
            ).to_set().contains(url) by {
            lemma_offered(entries(directory@), url);
        }
        assert(texts(out@).to_set() =~= wanted(
            texts(configured@),
            entries(directory@),
            claimed@,
        ));
    }
    out
}

/// The data URLs of a directory that are among some, in the order in which each
/// is listed first.
pub open spec fn subscribable(directory: Seq<EntryView>, only: Set<Seq<char>>) -> Seq<Seq<char>>
    decreases directory.len(),
{
    if directory.len() == 0 {
        Seq::empty()
    } else {
        let before = subscribable(directory.drop_last(), only);
        let e = directory.last();
        if !e.callable && only.contains(e.url) && !before.contains(e.url) {
            before.push(e.url)
        } else {
            before
        }
    }
}

/// The data URLs of a directory that are among some.
pub fn pick_urls(directory: &Vec<Entry>, only: &Vec<String>) -> (r: Vec<String>)
    ensures
        texts(r@) == subscribable(entries(directory@), texts(only@).to_set()),
{
    let ghost all = entries(directory@);
    let ghost set = texts(only@).to_set();
    let mut out: Vec<String> = Vec::new();
    let mut i: usize = 0;
    proof {
        assert(all.take(0) == Seq::<EntryView>::empty());
        assert(texts(out@) == subscribable(all.take(0), set));
    }
    while i < directory.len()
        invariant
            i <= directory@.len(),
            all == entries(directory@),
            set == texts(only@).to_set(),
            texts(out@) == subscribable(all.take(i as int), set),
        decreases directory@.len() - i,
    {
        let ghost before = out@;
        proof {
            assert(all.take(i + 1).drop_last() == all.take(i as int));
            assert(all.take(i + 1).last() == directory@[i as int]@);
        }
        if !directory[i].callable && list_contains(only, directory[i].url.as_str())
            && !list_contains(&out, directory[i].url.as_str()) {
            out.push(directory[i].url.clone());
            assert(texts(out@) == texts(before).push(directory@[i as int].url@));
        }
        i = i + 1;
    }
    assert(all.take(i as int) == all);
    out
}

/// What is subscribable is what is offered and among the some.
pub proof fn lemma_subscribable(directory: Seq<EntryView>, only: Set<Seq<char>>, url: Seq<char>)
    ensures
        subscribable(directory, only).contains(url) <==> only.contains(url) && offers(
            directory,
            url,
        ),
    decreases directory.len(),
{
    if directory.len() > 0 {
        let rest = directory.drop_last();
        let e = directory.last();
        let x = EntryView { url, callable: false };
        lemma_subscribable(rest, only, url);
        let before = subscribable(rest, only);
        let now = subscribable(directory, only);
        assert(offers(directory, url) <==> offers(rest, url) || e == x) by {
            if offers(directory, url) {
                let k = choose|k: int| 0 <= k < directory.len() && directory[k] == x;
                assert(k < rest.len() ==> rest[k] == x);
            }
            if offers(rest, url) {
                let k = choose|k: int| 0 <= k < rest.len() && rest[k] == x;
                assert(directory[k] == x);
            }
            if e == x {
                assert(directory[directory.len() - 1] == x);
            }
        }
        if before.contains(url) {
            let k = choose|k: int| 0 <= k < before.len() && before[k] == url;
            assert(now[k] == url);
        }
        if now.len() > before.len() {
            assert(now == before.push(e.url));
            assert(now[before.len() as int] == e.url);
            if now.contains(url) && !before.contains(url) {
                let k = choose|k: int| 0 <= k < now.len() && now[k] == url;
                assert(k < before.len() ==> before[k] == url);
            }
        }
    }
}

/// A session finds in its directory what it wants: there is nothing to
/// subscribe just where nothing is wanted.
pub proof fn lemma_wanted_is_subscribable(directory: Seq<EntryView>, only: Set<Seq<char>>)
    requires
        forall|url: Seq<char>| only.contains(url) ==> offers(directory, url),
    ensures
        subscribable(directory, only).len() == 0 <==> only =~= Set::empty(),
        forall|url: Seq<char>|
            subscribable(directory, only).contains(url) <==> only.contains(url),
{
    let urls = subscribable(directory, only);
    assert forall|url: Seq<char>| urls.contains(url) <==> only.contains(url) by {
        lemma_subscribable(directory, only, url);
    }
    if urls.len() == 0 {
        assert forall|url: Seq<char>| !only.contains(url) by {
            assert(urls.contains(url) <==> only.contains(url));
        }
    } else {
        assert(urls.contains(urls[0]));
    }
}

// -- How the URLs are divided ----------------------------------------------------

/// The URLs that are claimed before directory number `k` arrives, where the
/// directories arrive in this order.
pub open spec fn claimed_before(
    configured: Seq<Seq<char>>,
    dirs: Seq<Seq<EntryView>>,
    k: int,
) -> Set<Seq<char>>
    decreases k,
{
    if k <= 0 {
        Set::empty()
    } else {
        let before = claimed_before(configured, dirs, k - 1);
        before.union(wanted(configured, dirs[k - 1], before))
    }
}

/// The URLs that the session with directory number `k` takes.
pub open spec fn share(configured: Seq<Seq<char>>, dirs: Seq<Seq<EntryView>>, k: int) -> Set<
    Seq<char>,
> {
    wanted(configured, dirs[k], claimed_before(configured, dirs, k))
}

/// What is claimed is what is configured and was offered.
proof fn lemma_claimed_before(
    configured: Seq<Seq<char>>,
    dirs: Seq<Seq<EntryView>>,
    k: int,
    url: Seq<char>,
)
    requires
        0 <= k <= dirs.len(),
    ensures
        claimed_before(configured, dirs, k).contains(url) <==> asks_for(configured, url) && exists|
            j: int,
        |
            0 <= j < k && offers(#[trigger] dirs[j], url),
    decreases k,
{
    if k > 0 {
        lemma_claimed_before(configured, dirs, k - 1, url);
        if claimed_before(configured, dirs, k - 1).contains(url) {
            let j = choose|j: int| 0 <= j < k - 1 && offers(#[trigger] dirs[j], url);
            assert(offers(dirs[j], url));
        } else if asks_for(configured, url) && offers(dirs[k - 1], url) {
            assert(offers(dirs[k - 1], url));
        }
    }
}

/// The first session that offers a configured URL takes it, and no other does.
pub proof fn law_first_offer_wins(
    configured: Seq<Seq<char>>,
    dirs: Seq<Seq<EntryView>>,
    k: int,
    url: Seq<char>,
)
    requires
        0 <= k < dirs.len(),
    ensures
        share(configured, dirs, k).contains(url) <==> {
            &&& asks_for(configured, url)
            &&& offers(dirs[k], url)
            &&& forall|j: int| 0 <= j < k ==> !offers(#[trigger] dirs[j], url)
        },
{
    lemma_claimed_before(configured, dirs, k, url);
}

/// No URL is taken by two sessions.
pub proof fn law_no_url_is_taken_twice(
    configured: Seq<Seq<char>>,
    dirs: Seq<Seq<EntryView>>,
    j: int,
    k: int,
)
    requires
        0 <= j < k < dirs.len(),
    ensures
        share(configured, dirs, j).disjoint(share(configured, dirs, k)),
{
    assert forall|url: Seq<char>| !(share(configured, dirs, j).contains(url) && share(
        configured,
        dirs,
        k,
    ).contains(url)) by {
        law_first_offer_wins(configured, dirs, j, url);
        law_first_offer_wins(configured, dirs, k, url);
        assert(offers(dirs[j], url) ==> !share(configured, dirs, k).contains(url));
    }
}

/// No URL is subscribed more than once with one directory, also where the
/// directory lists it more than once.
pub proof fn law_each_url_is_subscribed_once(directory: Seq<EntryView>, only: Set<Seq<char>>)
    ensures
        subscribable(directory, only).no_duplicates(),
    decreases directory.len(),
{
    if directory.len() > 0 {
        let before = subscribable(directory.drop_last(), only);
        law_each_url_is_subscribed_once(directory.drop_last(), only);
        let now = subscribable(directory, only);
        assert forall|i: int, j: int| 0 <= i < now.len() && 0 <= j < now.len() && i != j implies
            now[i] != now[j] by {
            if i < before.len() && j < before.len() {
                assert(now[i] == before[i] && now[j] == before[j]);
            } else if i < before.len() {
                assert(before.contains(before[i]));
            } else {
                assert(before.contains(before[j]));
            }
        }
    }
}

// -- What is taken, from what is configured, listed and claimed ------------------

/// Every configured URL that a directory lists as data, and that is not claimed,
/// is taken, wherever it stands in the configuration and in the directory.
pub proof fn law_every_configured_url_is_taken(
    configured: Seq<Seq<char>>,
    directory: Seq<EntryView>,
    claimed: Set<Seq<char>>,
    i: int,
    k: int,
)
    requires
        0 <= i < configured.len(),
        0 <= k < directory.len(),
        directory[k].url == configured[i] || configured[i] == "*"@,
        !directory[k].callable,
        !claimed.contains(directory[k].url),
    ensures
        wanted(configured, directory, claimed).contains(directory[k].url),
        subscribable(directory, wanted(configured, directory, claimed)).contains(directory[k].url),
{
    let url = directory[k].url;
    assert(directory[k] == (EntryView { url, callable: false }));
    assert(offers(directory, url));
    lemma_subscribable(directory, wanted(configured, directory, claimed), url);
}

/// What is taken is configured, by name or by `*`, is listed as data, and is not
/// claimed.
pub proof fn law_only_configured_urls_are_taken(
    configured: Seq<Seq<char>>,
    directory: Seq<EntryView>,
    claimed: Set<Seq<char>>,
    url: Seq<char>,
)
    requires
        wanted(configured, directory, claimed).contains(url) || subscribable(
            directory,
            wanted(configured, directory, claimed),
        ).contains(url),
    ensures
        exists|i: int|
            0 <= i < configured.len() && (#[trigger] configured[i] == url || configured[i]
                == "*"@),
        exists|k: int|
            0 <= k < directory.len() && (#[trigger] directory[k]).url == url
                && !directory[k].callable,
        !claimed.contains(url),
{
    lemma_subscribable(directory, wanted(configured, directory, claimed), url);
    let k = choose|k: int|
        0 <= k < directory.len() && directory[k] == (EntryView { url, callable: false });
    assert(directory[k].url == url && !directory[k].callable);
    if configured.contains("*"@) {
        let i = choose|i: int| 0 <= i < configured.len() && configured[i] == "*"@;
        assert(configured[i] == "*"@);
    } else {
        let i = choose|i: int| 0 <= i < configured.len() && configured[i] == url;
        assert(configured[i] == url);
    }
}

/// URLs are subscribed in the order in which the directory lists them first.
pub proof fn law_subscriptions_follow_the_directory(
    directory: Seq<EntryView>,
    only: Set<Seq<char>>,
    i: int,
    j: int,
) -> (at: (int, int))
    requires
        0 <= i < j < directory.len(),
        !directory[i].callable && !directory[j].callable,
        only.contains(directory[i].url) && only.contains(directory[j].url),
        forall|k: int| 0 <= k < j ==> #[trigger] directory[k] != directory[j],
    ensures
        0 <= at.0 < at.1 < subscribable(directory, only).len(),
        subscribable(directory, only)[at.0] == directory[i].url,
        subscribable(directory, only)[at.1] == directory[j].url,
{
    let before = directory.take(j);
    let upto = directory.take(j + 1);
    let a = directory[i].url;
    let b = directory[j].url;
    assert(before[i] == directory[i]);
    assert(directory[i] == (EntryView { url: a, callable: false }));
    assert(offers(before, a));
    lemma_subscribable(before, only, a);
    lemma_subscribable(before, only, b);
    if offers(before, b) {
        let k = choose|k: int|
            0 <= k < before.len() && before[k] == (EntryView { url: b, callable: false });
        assert(directory[k] == directory[j]);
    }
    assert(upto.drop_last() =~= before);
    assert(upto.last() == directory[j]);
    let list = subscribable(before, only);
    assert(subscribable(upto, only) == list.push(b));
    lemma_subscribable_prefix(directory, only, j + 1);
    let p = choose|p: int| 0 <= p < list.len() && list[p] == a;
    let all = subscribable(directory, only);
    assert(all[p] == list.push(b)[p]);
    assert(all[list.len() as int] == list.push(b)[list.len() as int]);
    (p, list.len() as int)
}

proof fn lemma_subscribable_prefix(directory: Seq<EntryView>, only: Set<Seq<char>>, n: int)
    requires
        0 <= n <= directory.len(),
    ensures
        subscribable(directory.take(n), only).len() <= subscribable(directory, only).len(),
        forall|k: int|
            0 <= k < subscribable(directory.take(n), only).len() ==> #[trigger] subscribable(
                directory,
                only,
            )[k] == subscribable(directory.take(n), only)[k],
    decreases directory.len(),
{
    if n == directory.len() {
        assert(directory.take(n) =~= directory);
    } else {
        let rest = directory.drop_last();
        assert(rest.take(n) =~= directory.take(n));
        lemma_subscribable_prefix(rest, only, n);
    }
}

} // verus!
