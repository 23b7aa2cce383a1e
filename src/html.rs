//! The view model that an HTML page of a feed is rendered from.
use vstd::prelude::*;
use vstd::string::StringExecFns;

use crate::model::{strings_view, Feed, Link, LinkV};
use crate::text::{trim, trimmed};

verus! {

/// One link as a page shows it.
#[derive(Clone, Debug, PartialEq, Eq)]
pub struct LinkView {
    pub title: String,
    pub url: String,
    pub date: String,
    pub summary: String,
    pub via: String,
    pub has_tags: bool,
    pub tags_joined: String,
}

/// A feed as a page shows it.
#[derive(Clone, Debug, PartialEq, Eq)]
pub struct FeedView {
    pub title: String,
    pub count: usize,
    pub links: Vec<LinkView>,
}

/// The page of a feed: what a template renders.
pub struct FeedPage<'a> {
    pub feed: &'a FeedView,
}

/// The texts of `ts` with `sep` between each two.
pub open spec fn joined(ts: Seq<Seq<char>>, sep: Seq<char>) -> Seq<char>
    decreases ts.len(),
{
    if ts.len() == 0 {
        Seq::empty()
    } else if ts.len() == 1 {
        ts[0]
    } else {
        joined(ts.drop_last(), sep) + sep + ts.last()
    }
}

/// What stands between two tags on a page.
pub open spec fn tag_separator() -> Seq<char> {
    seq![',', ' ']
}

/// The page title of a feed without one.
pub open spec fn default_page_title() -> Seq<char> {
    seq!['M', 'y', ' ', 'L', 'i', 'n', 'k', 's']
}

/// The page title: the custom one if given, else the trimmed feed title, else
/// "My Links".
pub open spec fn page_title(feed_title: Seq<char>, custom: Option<Seq<char>>) -> Seq<char> {
    match custom {
        Some(t) => t,
        None => if trimmed(feed_title).len() == 0 {
            default_page_title()
        } else {
            trimmed(feed_title)
        },
    }
}

/// `v` shows link `l`: its texts, whether it has tags, and its tags joined.
pub open spec fn shows(v: LinkView, l: LinkV) -> bool {
    &&& v.title@ == l.title
    &&& v.url@ == l.url
    &&& v.date@ == l.date
    &&& v.summary@ == l.summary
    &&& v.via@ == l.via
    &&& v.has_tags == (l.tags.len() > 0)
    &&& v.tags_joined@ == joined(l.tags, tag_separator())
}

fn join_tags(tags: &Vec<String>) -> (r: String)
    ensures
        r@ == joined(strings_view(tags@), tag_separator()),
{
    let ghost tv = strings_view(tags@);
    let mut out = String::new();
    let mut i: usize = 0;
    while i < tags.len()
        invariant
            i <= tags@.len(),
            tv == strings_view(tags@),
            out@ == joined(tv.take(i as int), tag_separator()),
        decreases tags.len() - i,
    {
        if i > 0 {
            out.append(", ");
            proof {
                reveal_strlit(", ");
            }
        }
        out.append(tags[i].as_str());
        proof {
            let t = tv.take(i + 1);
            assert(t.drop_last() =~= tv.take(i as int));
            if i == 0 {
                assert(out@ =~= joined(t, tag_separator()));
            } else {
                assert(", "@ =~= tag_separator());
            }
        }
        i = i + 1;
    }
    assert(tv.take(tv.len() as int) =~= tv);
    out
}

fn link_view(l: &Link) -> (r: LinkView)
    ensures
        shows(r, l@),
{
    LinkView {
        title: l.title.clone(),
        url: l.url.clone(),
        date: l.date.clone(),
        summary: l.summary.clone(),
        via: l.via.clone(),
        has_tags: l.tags.len() > 0,
        tags_joined: join_tags(&l.tags),
    }
}

/// The view of `feed` that its page is rendered from: the page title, the
/// number of links, and each link in feed order.
pub fn feed_view(feed: Feed, custom_title: Option<String>) -> (r: FeedView)
    ensures
        r.title@ == page_title(
            feed.title@,
            match custom_title {
                Some(t) => Some(t@),
                None => None,
            },
        ),
        r.count == feed.links@.len(),
        r.links@.len() == feed.links@.len(),
        forall|i: int| 0 <= i < feed.links@.len() ==> shows(#[trigger] r.links@[i], feed.links@[i]@),
{
    let title = match custom_title {
        Some(t) => t,
        None => {
            let t = trim(feed.title.as_str());
            if t.as_str().is_empty() {
                proof {
                    reveal_strlit("My Links");
                }
                let d = String::from_str("My Links");
                assert(d@ =~= default_page_title());
                d
            } else {
                t
            }
        },
    };
    let mut links: Vec<LinkView> = Vec::new();
    let mut i: usize = 0;
    while i < feed.links.len()
        invariant
            i <= feed.links@.len(),
            links@.len() == i,
            forall|j: int| 0 <= j < i ==> shows(#[trigger] links@[j], feed.links@[j]@),
        decreases feed.links.len() - i,
    {
        links.push(link_view(&feed.links[i]));
        i = i + 1;
    }
    FeedView { title, count: links.len(), links }
}

} // verus!
