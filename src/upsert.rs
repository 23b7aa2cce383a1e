use vstd::prelude::*;

use crate::model::{links_view, strings_view, Feed, FeedV, Link, LinkV};
use crate::text::{clean_tags, normalize_tags};

verus! {

/// Why an operation on a stored feed failed.
#[derive(Clone, Debug, PartialEq, Eq)]
pub enum FeedError {
    /// The feed file does not exist.
    NotFound,
    /// Reading, writing, creating a directory or renaming failed.
    Io { message: String },
    /// The stored bytes are not an encoded feed.
    Decode,
    /// The local time zone offset could not be determined.
    TimeResolution { message: String },
}

/// Whether `err` says that the feed file does not exist.
pub fn is_not_found(err: &FeedError) -> (r: bool)
    ensures
        r == (*err is NotFound),
{
    matches!(err, FeedError::NotFound)
}

/// The feed an upsert starts from: the loaded one, or a fresh feed of
/// version 1 when there was none. Every other error is handed on unchanged.
pub fn feed_or_new(loaded: Result<Feed, FeedError>) -> (r: Result<Feed, FeedError>)
    ensures
        loaded matches Err(FeedError::NotFound) ==> r matches Ok(f) && f@ == empty_feed(),
        !(loaded matches Err(FeedError::NotFound)) ==> r == loaded,
{
    match loaded {
        Err(FeedError::NotFound) => Ok(Feed::new(String::new(), 1)),
        other => other,
    }
}

/// The feed that an upsert on a missing file starts from.
pub open spec fn empty_feed() -> FeedV {
    FeedV { title: Seq::empty(), version: 1, links: Seq::empty() }
}

/// The new field values of an upserted link; `tags` already cleaned.
pub struct EntryV {
    pub title: Seq<char>,
    pub url: Seq<char>,
    pub date: Seq<char>,
    pub summary: Seq<char>,
    pub tags: Seq<Seq<char>>,
    pub via: Seq<char>,
}

/// The text of an optional field; none is the empty text.
pub open spec fn opt_text(o: Option<String>) -> Seq<char> {
    match o {
        Some(s) => s@,
        None => Seq::empty(),
    }
}

/// The entry described by the raw arguments of an upsert.
pub open spec fn entry_of(
    title: String,
    url: String,
    date: String,
    summary: Option<String>,
    tags: Seq<String>,
    via: Option<String>,
) -> EntryV {
    EntryV {
        title: title@,
        url: url@,
        date: date@,
        summary: opt_text(summary),
        tags: clean_tags(strings_view(tags)),
        via: opt_text(via),
    }
}

/// The link with identifier `id` and the values of `e`.
pub open spec fn link_with(id: Seq<char>, e: EntryV) -> LinkV {
    LinkV {
        id,
        title: e.title,
        url: e.url,
        date: e.date,
        summary: e.summary,
        tags: e.tags,
        via: e.via,
    }
}

/// Whether `l` is the link that an upsert keyed by `id`, or else by `url`, targets.
pub open spec fn key_matches(l: LinkV, id: Option<Seq<char>>, url: Seq<char>) -> bool {
    match id {
        Some(i) => l.id == i,
        None => l.url == url,
    }
}

/// `p` is the first position whose link the key matches.
pub open spec fn is_first_match(
    links: Seq<LinkV>,
    id: Option<Seq<char>>,
    url: Seq<char>,
    p: int,
) -> bool {
    &&& 0 <= p < links.len()
    &&& key_matches(links[p], id, url)
    &&& forall|j: int| 0 <= j < p ==> !key_matches(#[trigger] links[j], id, url)
}

/// Some link matches the key.
pub open spec fn has_match(links: Seq<LinkV>, id: Option<Seq<char>>, url: Seq<char>) -> bool {
    exists|p: int| is_first_match(links, id, url, p)
}

/// The first position whose link matches the key, when there is one.
pub open spec fn first_match(links: Seq<LinkV>, id: Option<Seq<char>>, url: Seq<char>) -> int {
    choose|p: int| is_first_match(links, id, url, p)
}

/// The feed and link after upserting `e` under the key (`id`, else `e.url`):
/// the first matching link keeps its identifier, takes the new values and
/// moves to the front; without a match a new link goes to the front, with
/// identifier `id`, or `fresh` when no `id` is given.
pub open spec fn upsert_view(f: FeedV, id: Option<Seq<char>>, e: EntryV, fresh: Seq<char>) -> (
    FeedV,
    LinkV,
) {
    if has_match(f.links, id, e.url) {
        let p = first_match(f.links, id, e.url);
        let l = link_with(f.links[p].id, e);
        (FeedV { links: f.links.remove(p).insert(0, l), ..f }, l)
    } else {
        let new_id = match id {
            Some(i) => i,
            None => fresh,
        };
        let l = link_with(new_id, e);
        (FeedV { links: f.links.insert(0, l), ..f }, l)
    }
}

/// The text of an optional string, kept optional.
pub open spec fn opt_view(o: Option<String>) -> Option<Seq<char>> {
    match o {
        Some(s) => Some(s@),
        None => None,
    }
}

/// The first position whose link the key matches: identifier `id` when one
/// is given, else address `url`.
fn find_match(links: &Vec<Link>, id: &Option<String>, url: &String) -> (r: Option<usize>)
    ensures
        r matches Some(p) ==> is_first_match(links_view(links@), opt_view(*id), url@, p as int),
        r is None ==> !has_match(links_view(links@), opt_view(*id), url@),
{
    let ghost lv = links_view(links@);
    let ghost key = opt_view(*id);
    let mut i: usize = 0;
    while i < links.len()
        invariant
            i <= links.len(),
            lv == links_view(links@),
            key == opt_view(*id),
            forall|j: int| 0 <= j < i ==> !key_matches(#[trigger] lv[j], key, url@),
        decreases links.len() - i,
    {
        let hit = match id {
            Some(x) => links[i].id == *x,
            None => links[i].url == *url,
        };
        if hit {
            return Some(i);
        }
        i = i + 1;
    }
    proof {
        assert forall|p: int| !is_first_match(lv, key, url@, p) by {
            if 0 <= p < lv.len() {
                assert(!key_matches(lv[p], key, url@));
            }
        }
    }
    None
}

/// Takes the link at `pos` out, gives it the new values (identifier kept) and
/// puts it back at the front. Returns the updated link.
pub fn update_link_in_place(
    feed: &mut Feed,
    pos: usize,
    title: String,
    url: String,
    date: String,
    summary: Option<String>,
    tags: Vec<String>,
    via: Option<String>,
) -> (r: Link)
    requires
        pos < old(feed).links.len(),
    ensures
        r@ == (LinkV {
            id: old(feed).links@[pos as int].id@,
            title: title@,
            url: url@,
            date: date@,
            summary: opt_text(summary),
            tags: strings_view(tags@),
            via: opt_text(via),
        }),
        final(feed)@ == (FeedV {
            links: old(feed)@.links.remove(pos as int).insert(0, r@),
            ..old(feed)@
        }),
{
    let ghost old_links = feed.links@;
    let mut item = feed.links.remove(pos);
    item.title = title;
    item.url = url;
    item.date = date;
    item.summary = match summary {
        Some(s) => s,
        None => String::new(),
    };
    item.tags = tags;
    item.via = match via {
        Some(v) => v,
        None => String::new(),
    };
    let copy = item.duplicate();
    feed.links.insert(0, item);
    proof {
        assert(links_view(feed.links@) =~= links_view(old_links).remove(pos as int).insert(
            0,
            copy@,
        ));
    }
    copy
}

/// Puts a new link with the given values at the front. Returns the new link.
pub fn insert_new_link_front(
    feed: &mut Feed,
    id: String,
    title: String,
    url: String,
    date: String,
    summary: Option<String>,
    tags: Vec<String>,
    via: Option<String>,
) -> (r: Link)
    ensures
        r@ == (LinkV {
            id: id@,
            title: title@,
            url: url@,
            date: date@,
            summary: opt_text(summary),
            tags: strings_view(tags@),
            via: opt_text(via),
        }),
        final(feed)@ == (FeedV { links: old(feed)@.links.insert(0, r@), ..old(feed)@ }),
{
    let ghost old_links = feed.links@;
    let link = Link {
        id,
        title,
        url,
        date,
        summary: match summary {
            Some(s) => s,
            None => String::new(),
        },
        tags,
        via: match via {
            Some(v) => v,
            None => String::new(),
        },
    };
    let copy = link.duplicate();
    feed.links.insert(0, link);
    proof {
        assert(links_view(feed.links@) =~= links_view(old_links).insert(0, copy@));
    }
    copy
}

/// A first match is the one that [`first_match`] names.
pub proof fn lemma_first_match(links: Seq<LinkV>, id: Option<Seq<char>>, url: Seq<char>, p: int)
    requires
        is_first_match(links, id, url, p),
    ensures
        has_match(links, id, url),
        first_match(links, id, url) == p,
{
    let q = first_match(links, id, url);
    assert(is_first_match(links, id, url, q));
    if q < p {
        assert(!key_matches(links[q], id, url));
    } else if p < q {
        assert(!key_matches(links[p], id, url));
    }
}

/// Upserts a link into `feed`: matched by `id` when one is given, else by
/// `url`. A matched link keeps its identifier, takes the new values and moves
/// to the front; otherwise a new link goes to the front, identified by `id`,
/// or by `fresh` when no `id` is given. `tags` are cleaned first. Returns the
/// upserted link.
pub fn upsert_with_id(
    feed: &mut Feed,
    title: String,
    url: String,
    summary: Option<String>,
    tags: Vec<String>,
    via: Option<String>,
    id: Option<String>,
    date: String,
    fresh: String,
) -> (r: Link)
    ensures
        (final(feed)@, r@) == upsert_view(
            old(feed)@,
            opt_view(id),
            entry_of(title, url, date, summary, tags@, via),
            fresh@,
        ),
{
    let ghost e = entry_of(title, url, date, summary, tags@, via);
    let ghost f0 = feed@;
    let ghost key = opt_view(id);
    let tags = normalize_tags(&tags);
    let found = find_match(&feed.links, &id, &url);
    match found {
        Some(p) => {
            proof {
                lemma_first_match(f0.links, key, e.url, p as int);
            }
            let r = update_link_in_place(feed, p, title, url, date, summary, tags, via);
            assert(r@ == link_with(f0.links[p as int].id, e));
            r
        },
        None => {
            let new_id = match id {
                Some(i) => i,
                None => fresh,
            };
            let r = insert_new_link_front(feed, new_id, title, url, date, summary, tags, via);
            assert(r@ =~= link_with(new_id@, e));
            r
        },
    }
}

/// The feed an upsert works on, given what loading it gave: the loaded
/// feed, a new one when there was no file, none on any other error.
pub open spec fn start_view(loaded: Result<Feed, FeedError>) -> Option<FeedV> {
    match loaded {
        Ok(f) => Some(f@),
        Err(FeedError::NotFound) => Some(empty_feed()),
        Err(_) => None,
    }
}

/// One upsert on a loaded feed: a missing file starts a new feed of version
/// 1, any other load error is handed on unchanged. Returns the feed to store
/// and the upserted link, stamped with `date`. A new link that no `id` names
/// gets the identifier `fresh`, which the caller generates (a new UUID).
pub fn add(
    loaded: Result<Feed, FeedError>,
    title: String,
    url: String,
    summary: Option<String>,
    tags: Vec<String>,
    via: Option<String>,
    id: Option<String>,
    date: String,
    fresh: String,
) -> (r: Result<(Feed, Link), FeedError>)
    ensures
        match start_view(loaded) {
            Some(f) => r matches Ok((g, l)) && (g@, l@) == upsert_view(
                f,
                opt_view(id),
                entry_of(title, url, date, summary, tags@, via),
                fresh@,
            ),
            None => loaded matches Err(e) && r == Err::<(Feed, Link), FeedError>(e),
        },
{
    let mut feed = match feed_or_new(loaded) {
        Ok(f) => f,
        Err(err) => return Err(err),
    };
    let link = upsert_with_id(&mut feed, title, url, summary, tags, via, id, date, fresh);
    Ok((feed, link))
}

} // verus!
