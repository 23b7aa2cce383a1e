use vstd::prelude::*;

use crate::model::{FeedV, LinkV};
use crate::query::{filter_view, keep_link, tags_match, timestamp_date, CalendarDate};
use crate::upsert::{
    empty_feed, first_match, has_match, is_first_match, key_matches, lemma_first_match, link_with, upsert_view,
    EntryV,
};

verus! {

/// An upsert into the feed that a missing file starts from gives a feed of
/// version 1 holding exactly the upserted link.
pub proof fn lemma_upsert_into_new_feed(id: Option<Seq<char>>, e: EntryV, fresh: Seq<char>)
    ensures
        upsert_view(empty_feed(), id, e, fresh).0.version == 1,
        upsert_view(empty_feed(), id, e, fresh).0.links =~= seq![
            upsert_view(empty_feed(), id, e, fresh).1,
        ],
{
    assert(!has_match(empty_feed().links, id, e.url));
}

/// After any upsert, the upserted link stands at the front, and the key that
/// selected it matches it there first.
proof fn lemma_upserted_at_front(f: FeedV, id: Option<Seq<char>>, e: EntryV, fresh: Seq<char>)
    ensures
        upsert_view(f, id, e, fresh).0.links.len() >= 1,
        upsert_view(f, id, e, fresh).0.links[0] == upsert_view(f, id, e, fresh).1,
        is_first_match(upsert_view(f, id, e, fresh).0.links, id, e.url, 0),
{
    let (f1, l1) = upsert_view(f, id, e, fresh);
    if has_match(f.links, id, e.url) {
        let p = crate::upsert::first_match(f.links, id, e.url);
        assert(is_first_match(f.links, id, e.url, p));
        assert(key_matches(f.links[p], id, e.url));
    }
    assert(f1.links[0] == l1);
    assert(key_matches(l1, id, e.url));
}

/// Two upserts with the same explicit identifier leave one link for it: the
/// second call adds no link, and puts the link with that identifier and the
/// second call's values at the front. From a new feed, one link remains.
pub proof fn lemma_upsert_same_id_twice(
    f: FeedV,
    x: Seq<char>,
    e1: EntryV,
    e2: EntryV,
    fresh1: Seq<char>,
    fresh2: Seq<char>,
)
    ensures
        ({
            let (f1, l1) = upsert_view(f, Some(x), e1, fresh1);
            let (f2, l2) = upsert_view(f1, Some(x), e2, fresh2);
            &&& l1.id == x
            &&& f2.links.len() == f1.links.len()
            &&& l2 == link_with(x, e2)
            &&& f2.links[0] == l2
            &&& f == empty_feed() ==> f2.links.len() == 1
        }),
{
    let (f1, l1) = upsert_view(f, Some(x), e1, fresh1);
    lemma_upserted_at_front(f, Some(x), e1, fresh1);
    lemma_first_match(f1.links, Some(x), e2.url, 0);
    lemma_upserted_at_front(f1, Some(x), e2, fresh2);
    if f == empty_feed() {
        lemma_upsert_into_new_feed(Some(x), e1, fresh1);
    }
}

/// Two upserts without identifier and with the same address leave one link
/// for it: the second call adds no link, keeps the identifier that the first
/// call gave, and puts the link at the front. From a new feed, one link remains.
pub proof fn lemma_upsert_same_url_twice(
    f: FeedV,
    e1: EntryV,
    e2: EntryV,
    fresh1: Seq<char>,
    fresh2: Seq<char>,
)
    requires
        e1.url == e2.url,
    ensures
        ({
            let (f1, l1) = upsert_view(f, None, e1, fresh1);
            let (f2, l2) = upsert_view(f1, None, e2, fresh2);
            &&& f2.links.len() == f1.links.len()
            &&& l2 == link_with(l1.id, e2)
            &&& f2.links[0] == l2
            &&& f == empty_feed() ==> f2.links.len() == 1
        }),
{
    let (f1, l1) = upsert_view(f, None, e1, fresh1);
    lemma_upserted_at_front(f, None, e1, fresh1);
    lemma_first_match(f1.links, None, e2.url, 0);
    lemma_upserted_at_front(f1, None, e2, fresh2);
    if f == empty_feed() {
        lemma_upsert_into_new_feed(None, e1, fresh1);
    }
}

/// After one upsert into a new feed, an upsert without identifier and with
/// another address adds a second link, with the generated identifier, at the
/// front; the first link follows it. A generated identifier other than the
/// first link's leaves the two identifiers distinct.
pub proof fn lemma_upsert_new_url_after_one(
    id1: Option<Seq<char>>,
    e1: EntryV,
    e2: EntryV,
    fresh1: Seq<char>,
    fresh2: Seq<char>,
)
    requires
        e1.url != e2.url,
    ensures
        ({
            let (f1, l1) = upsert_view(empty_feed(), id1, e1, fresh1);
            let (f2, l2) = upsert_view(f1, None, e2, fresh2);
            &&& f2.links.len() == 2
            &&& l2 == link_with(fresh2, e2)
            &&& f2.links[0] == l2
            &&& f2.links[1] == l1
            &&& fresh2 != l1.id ==> ids_distinct(f2.links)
        }),
{
    let (f1, l1) = upsert_view(empty_feed(), id1, e1, fresh1);
    lemma_upsert_into_new_feed(id1, e1, fresh1);
    assert(ids_distinct(f1.links));
    assert(f1.links[0] == l1);
    assert(!key_matches(f1.links[0], None, e2.url));
    assert(!has_match(f1.links, None, e2.url)) by {
        assert forall|p: int| !is_first_match(f1.links, None, e2.url, p) by {
            if 0 <= p < f1.links.len() {
                assert(p == 0);
            }
        }
    }
}

/// No two links share an identifier.
pub open spec fn ids_distinct(links: Seq<LinkV>) -> bool {
    forall|i: int, j: int|
        0 <= i < links.len() && 0 <= j < links.len() && i != j ==> links[i].id != links[j].id
}

/// A link that the key matches makes some position the first match.
proof fn lemma_match_has_first(links: Seq<LinkV>, id: Option<Seq<char>>, url: Seq<char>, k: int)
    requires
        0 <= k < links.len(),
        key_matches(links[k], id, url),
    ensures
        has_match(links, id, url),
    decreases k,
{
    if exists|j: int| 0 <= j < k && key_matches(links[j], id, url) {
        let j = choose|j: int| 0 <= j < k && key_matches(links[j], id, url);
        lemma_match_has_first(links, id, url, j);
    } else {
        assert(is_first_match(links, id, url, k));
    }
}

/// An upsert keeps identifiers pairwise distinct, provided that the
/// identifier it gives a new link without `id` (`fresh`) is not stored yet.
pub proof fn lemma_upsert_keeps_ids_distinct(
    f: FeedV,
    id: Option<Seq<char>>,
    e: EntryV,
    fresh: Seq<char>,
)
    requires
        ids_distinct(f.links),
        id is None ==> forall|i: int| 0 <= i < f.links.len() ==> f.links[i].id != fresh,
    ensures
        ids_distinct(upsert_view(f, id, e, fresh).0.links),
{
    let old = f.links;
    let (g, l) = upsert_view(f, id, e, fresh);
    let new = g.links;
    if has_match(old, id, e.url) {
        let p = first_match(old, id, e.url);
        assert(is_first_match(old, id, e.url, p));
        // position k of the new links holds the old link at src(k)
        assert forall|k: int| 0 <= k < new.len() implies #[trigger] new[k].id == old[if k == 0 {
            p
        } else if k - 1 < p {
            k - 1
        } else {
            k
        }].id by {}
        assert forall|i: int, j: int|
            0 <= i < new.len() && 0 <= j < new.len() && i != j implies new[i].id != new[j].id by {
            assert(new[i].id == old[if i == 0 {
                p
            } else if i - 1 < p {
                i - 1
            } else {
                i
            }].id);
            assert(new[j].id == old[if j == 0 {
                p
            } else if j - 1 < p {
                j - 1
            } else {
                j
            }].id);
        }
    } else {
        assert forall|i: int| 0 <= i < old.len() implies old[i].id != l.id by {
            if old[i].id == l.id {
                if id is Some {
                    assert(key_matches(old[i], id, e.url));
                    lemma_match_has_first(old, id, e.url, i);
                }
            }
        }
        assert forall|i: int, j: int|
            0 <= i < new.len() && 0 <= j < new.len() && i != j implies new[i].id != new[j].id by {
            if i > 0 && j > 0 {
                assert(new[i] == old[i - 1]);
                assert(new[j] == old[j - 1]);
            } else if i == 0 {
                assert(new[j] == old[j - 1]);
            } else {
                assert(new[i] == old[i - 1]);
            }
        }
    }
}

/// A date filter keeps exactly the links whose stored timestamp falls on
/// that date: every kept link does, and every stored link that does is kept.
pub proof fn lemma_date_filter_exact(f: FeedV, d: CalendarDate)
    ensures
        forall|i: int|
            0 <= i < filter_view(f, None, Some(d)).links.len() ==> timestamp_date(
                #[trigger] filter_view(f, None, Some(d)).links[i].date,
            ) == Some(d),
        forall|i: int|
            0 <= i < f.links.len() && timestamp_date(f.links[i].date) == Some(d) ==> filter_view(
                f,
                None,
                Some(d),
            ).links.contains(#[trigger] f.links[i]),
{
    let pred = |l: LinkV| keep_link(l, None, Some(d));
    f.links.filter_lemma(pred);
    assert(filter_view(f, None, Some(d)).links == f.links.filter(pred));
}

/// A tag filter keeps exactly the links that have a tag equal, ignoring
/// ASCII case, to one of the requested tags: any requested tag against any
/// tag of the link (see [`tags_match`]).
pub proof fn lemma_tag_filter_any_of(f: FeedV, wanted: Seq<Seq<char>>)
    ensures
        forall|i: int|
            0 <= i < filter_view(f, Some(wanted), None).links.len() ==> tags_match(
                (#[trigger] filter_view(f, Some(wanted), None).links[i]).tags,
                wanted,
            ),
        forall|i: int|
            0 <= i < f.links.len() && tags_match(f.links[i].tags, wanted) ==> filter_view(
                f,
                Some(wanted),
                None,
            ).links.contains(#[trigger] f.links[i]),
{
    let pred = |l: LinkV| keep_link(l, Some(wanted), None);
    f.links.filter_lemma(pred);
    assert(filter_view(f, Some(wanted), None).links == f.links.filter(pred));
}

} // verus!
