use linkleaf::{feed_view, Feed, Link};

fn link(tags: &[&str]) -> Link {
    Link {
        id: "1".into(),
        title: "T".into(),
        url: "https://t/".into(),
        date: "2025-01-02 12:00:00".into(),
        summary: "S".into(),
        tags: tags.iter().map(|t| t.to_string()).collect(),
        via: "V".into(),
    }
}

#[test]
fn page_title_falls_back_to_my_links() {
    let v = feed_view(Feed::new("   ".into(), 1), None);
    assert_eq!(v.title, "My Links");
    assert_eq!(v.count, 0);
    let v = feed_view(Feed::new("  Reading  ".into(), 1), None);
    assert_eq!(v.title, "Reading");
    let v = feed_view(Feed::new("Reading".into(), 1), Some("Custom".into()));
    assert_eq!(v.title, "Custom");
}

#[test]
fn page_links_join_tags() {
    let mut f = Feed::new("F".into(), 1);
    f.links.push(link(&["rust", "async", "tokio"]));
    f.links.push(link(&[]));
    let v = feed_view(f, None);
    assert_eq!(v.count, 2);
    assert_eq!(v.links[0].tags_joined, "rust, async, tokio");
    assert!(v.links[0].has_tags);
    assert_eq!(v.links[1].tags_joined, "");
    assert!(!v.links[1].has_tags);
    assert_eq!(v.links[0].title, "T");
    assert_eq!(v.links[0].via, "V");
}
