use vstd::prelude::*;

verus! {

/// The mathematical value of a [`Link`]: every text field as its characters.
pub struct LinkV {
    pub id: Seq<char>,
    pub title: Seq<char>,
    pub url: Seq<char>,
    pub date: Seq<char>,
    pub summary: Seq<char>,
    pub tags: Seq<Seq<char>>,
    pub via: Seq<char>,
}

/// The mathematical value of a [`Feed`].
pub struct FeedV {
    pub title: Seq<char>,
    pub version: u32,
    pub links: Seq<LinkV>,
}

/// One bookmark entry. An empty `summary` or `via` means "none".
#[derive(Clone, Debug, PartialEq, Eq)]
pub struct Link {
    pub id: String,
    pub title: String,
    pub url: String,
    pub date: String,
    pub summary: String,
    pub tags: Vec<String>,
    pub via: String,
}

/// The whole persisted collection, newest link first.
#[derive(Clone, Debug, PartialEq, Eq)]
pub struct Feed {
    pub title: String,
    pub version: u32,
    pub links: Vec<Link>,
}

/// The characters of each string, in order.
pub open spec fn strings_view(v: Seq<String>) -> Seq<Seq<char>> {
    v.map_values(|s: String| s@)
}

/// The value of each link, in order.
pub open spec fn links_view(v: Seq<Link>) -> Seq<LinkV> {
    v.map_values(|l: Link| l@)
}

impl View for Link {
    type V = LinkV;

    open spec fn view(&self) -> LinkV {
        LinkV {
            id: self.id@,
            title: self.title@,
            url: self.url@,
            date: self.date@,
            summary: self.summary@,
            tags: strings_view(self.tags@),
            via: self.via@,
        }
    }
}

impl View for Feed {
    type V = FeedV;

    open spec fn view(&self) -> FeedV {
        FeedV { title: self.title@, version: self.version, links: links_view(self.links@) }
    }
}

/// A copy of a list of strings with the same characters in each position.
pub fn copy_strings(v: &Vec<String>) -> (r: Vec<String>)
    ensures
        strings_view(r@) == strings_view(v@),
{
    let mut r: Vec<String> = Vec::new();
    let mut i: usize = 0;
    while i < v.len()
        invariant
            i <= v.len(),
            r@.len() == i,
            forall|j: int| 0 <= j < i ==> #[trigger] r@[j]@ == v@[j]@,
        decreases v.len() - i,
    {
        r.push(v[i].clone());
        i = i + 1;
    }
    assert(strings_view(r@) =~= strings_view(v@));
    r
}

impl Link {
    /// A field-by-field copy of this link.
    pub fn duplicate(&self) -> (r: Link)
        ensures
            r@ == self@,
    {
        Link {
            id: self.id.clone(),
            title: self.title.clone(),
            url: self.url.clone(),
            date: self.date.clone(),
            summary: self.summary.clone(),
            tags: copy_strings(&self.tags),
            via: self.via.clone(),
        }
    }
}

impl Feed {
    /// An empty feed with the given title and version.
    pub fn new(title: String, version: u32) -> (r: Feed)
        ensures
            r@ == (FeedV { title: title@, version, links: Seq::empty() }),
    {
        let r = Feed { title, version, links: Vec::new() };
        proof {
            assert(links_view(r.links@) =~= Seq::empty());
        }
        r
    }

    /// A copy of this feed with the same title, version and links.
    pub fn duplicate(&self) -> (r: Feed)
        ensures
            r@ == self@,
    {
        let mut links: Vec<Link> = Vec::new();
        let mut i: usize = 0;
        while i < self.links.len()
            invariant
                i <= self.links.len(),
                links@.len() == i,
                forall|j: int| 0 <= j < i ==> #[trigger] links@[j]@ == self.links@[j]@,
            decreases self.links.len() - i,
        {
            links.push(self.links[i].duplicate());
            i = i + 1;
        }
        assert(links_view(links@) =~= links_view(self.links@));
        Feed { title: self.title.clone(), version: self.version, links }
    }
}

} // verus!
