use linkleaf::{
    add, decode_feed, encode_feed, feed_or_new, insert_new_link_front, list, parse_optional_tags,
    update_link_in_place, upsert_with_id, Feed, FeedError, Link,
};
use uuid::Uuid;

const NOW: &str = "2025-01-02 12:00:00";

fn load(file: &Option<Vec<u8>>) -> Result<Feed, FeedError> {
    match file {
        None => Err(FeedError::NotFound),
        Some(bytes) => decode_feed(bytes).map_err(|_| FeedError::Decode),
    }
}

fn add_to(
    file: &mut Option<Vec<u8>>,
    title: &str,
    url: &str,
    summary: Option<&str>,
    tags: Vec<&str>,
    via: Option<&str>,
    id: Option<String>,
) -> Result<Link, FeedError> {
    let (feed, link) = add(
        load(file),
        title.to_string(),
        url.to_string(),
        summary.map(|s| s.to_string()),
        tags.into_iter().map(|t| t.to_string()).collect(),
        via.map(|s| s.to_string()),
        id,
        NOW.to_string(),
        Uuid::new_v4().to_string(),
    )?;
    *file = Some(encode_feed(&feed));
    Ok(link)
}

#[test]
fn add_creates_file_and_initializes_feed() {
    let mut file = None;
    let created = add_to(&mut file, "Tokio", "https://tokio.rs/", None, vec!["rust", "async", "tokio"], None, None).unwrap();
    let feed = load(&file).unwrap();
    assert_eq!(feed.version, 1);
    assert_eq!(feed.links.len(), 1);
    let l = &feed.links[0];
    assert_eq!(l.id, created.id);
    assert_eq!(l.title, "Tokio");
    assert_eq!(l.url, "https://tokio.rs/");
    assert_eq!(l.summary, "");
    assert_eq!(l.via, "");
    assert_eq!(l.tags, vec!["rust", "async", "tokio"]);
    assert_eq!(l.date, NOW);
    let _ = Uuid::parse_str(&created.id).expect("id should be a valid UUID");
}

#[test]
fn add_with_explicit_id_inserts_with_given_id() {
    let mut file = None;
    let wanted = Uuid::new_v4();
    let created = add_to(&mut file, "A", "https://a.example/", Some("hi"), vec!["x,y"], Some("via"), Some(wanted.to_string())).unwrap();
    assert_eq!(created.id, wanted.to_string());
    let feed = list(load(&file), None, None).unwrap();
    assert_eq!(feed.links.len(), 1);
    assert_eq!(feed.links[0].id, wanted.to_string());
}

#[test]
fn add_update_by_id_moves_to_front_and_updates_fields() {
    let mut file = None;
    let a = add_to(&mut file, "First", "https://one/", None, vec!["alpha"], None, None).unwrap();
    let _b = add_to(&mut file, "Second", "https://two/", None, vec!["beta"], None, None).unwrap();
    let updated = add_to(
        &mut file,
        "First (updated)",
        "https://one-new/",
        Some("note"),
        vec!["rust", "updated"],
        Some("HN"),
        Some(a.id.clone()),
    )
    .unwrap();
    assert_eq!(updated.id, a.id);
    assert_eq!(updated.title, "First (updated)");
    assert_eq!(updated.url, "https://one-new/");
    assert_eq!(updated.summary, "note");
    assert_eq!(updated.via, "HN");
    assert_eq!(updated.tags, vec!["rust", "updated"]);
    let feed = list(load(&file), None, None).unwrap();
    assert_eq!(feed.links.len(), 2);
    assert_eq!(feed.links[0].id, a.id, "updated item should be at index 0");
    assert_eq!(feed.links[0].title, "First (updated)");
}

#[test]
fn add_update_by_url_when_id_absent() {
    let mut file = None;
    let first = add_to(&mut file, "Original", "https://same.url/", None, vec![], None, None).unwrap();
    let updated = add_to(&mut file, "Original (updated)", "https://same.url/", Some("s"), vec!["t1", "t2"], None, None).unwrap();
    assert_eq!(updated.id, first.id);
    let feed = list(load(&file), None, None).unwrap();
    assert_eq!(feed.links.len(), 1);
    assert_eq!(feed.links[0].title, "Original (updated)");
    assert_eq!(feed.links[0].tags, vec!["t1", "t2"]);
}

#[test]
fn add_inserts_new_when_url_diff_and_id_absent() {
    let mut file = None;
    let _a = add_to(&mut file, "A", "https://a/", None, vec![], None, None).unwrap();
    let b = add_to(&mut file, "B", "https://b/", None, vec![], None, None).unwrap();
    let feed = list(load(&file), None, None).unwrap();
    assert_eq!(feed.links.len(), 2);
    assert_eq!(feed.links[0].id, b.id, "new item should be at front");
}

#[test]
fn add_returns_error_on_corrupt_feed() {
    let mut file = Some(b"not a protobuf".to_vec());
    let err = add_to(&mut file, "X", "https://x/", None, vec![], None, None).unwrap_err();
    assert_eq!(err, FeedError::Decode);
    assert_eq!(file, Some(b"not a protobuf".to_vec()));
}

#[test]
fn add_hands_on_io_errors() {
    let err = add(
        Err(FeedError::Io { message: "denied".into() }),
        "X".into(),
        "https://x/".into(),
        None,
        vec![],
        None,
        None,
        NOW.into(),
        "fresh".into(),
    )
    .unwrap_err();
    assert_eq!(err, FeedError::Io { message: "denied".into() });
}

#[test]
fn updated_link_moves_to_front() {
    let mut file = None;
    let a = add_to(&mut file, "A", "https://example.com/a", None, vec![], None, None).expect("add A");
    let _b = add_to(&mut file, "B", "https://example.com/b", None, vec![], None, None).expect("add B");
    let _a2 = add_to(&mut file, "A updated", "https://example.com/a", None, vec![], None, Some(a.id.clone())).expect("update A");
    let feed = load(&file).expect("read after update");
    assert!(!feed.links.is_empty(), "feed should not be empty");
    assert_eq!(feed.links[0].id, a.id, "updated link should be first");
    assert_eq!(feed.links[0].title, "A updated", "title should reflect the update");
}

#[test]
fn command_add_inserts_then_updates_same_id() {
    let mut file = None;
    let id = Uuid::new_v4().to_string();
    let tags = parse_optional_tags(Some("rust,book".into()));
    let tag_refs: Vec<&str> = tags.iter().map(|t| t.as_str()).collect();
    add_to(&mut file, "Rust Book", "https://doc.rust-lang.org/book/", Some("Great read"), tag_refs.clone(), Some("https://rust-lang.org"), Some(id.clone())).unwrap();
    let feed = load(&file).unwrap();
    assert_eq!(feed.links.len(), 1);
    assert_eq!(feed.links[0].id, id);
    assert_eq!(feed.links[0].title, "Rust Book");
    add_to(&mut file, "The Rust Book", "https://doc.rust-lang.org/book/", Some("Updated summary"), tag_refs, None, Some(id.clone())).unwrap();
    let feed = load(&file).unwrap();
    assert_eq!(feed.links.len(), 1, "should update, not duplicate");
    assert_eq!(feed.links[0].title, "The Rust Book");
    assert_eq!(feed.links[0].summary, "Updated summary");
    assert_eq!(feed.links[0].via, "");
}

#[test]
fn same_id_twice_keeps_one_link_with_second_values() {
    let mut file = None;
    add_to(&mut file, "One", "https://1/", None, vec!["a"], None, Some("k".into())).unwrap();
    add_to(&mut file, "Other", "https://other/", None, vec![], None, None).unwrap();
    let second = add_to(&mut file, "Two", "https://2/", Some("s"), vec!["b"], Some("v"), Some("k".into())).unwrap();
    let feed = load(&file).unwrap();
    assert_eq!(feed.links.len(), 2);
    assert_eq!(feed.links[0], second);
    assert_eq!(second.id, "k");
    assert_eq!(second.url, "https://2/");
    assert_eq!(second.tags, vec!["b"]);
}

#[test]
fn explicit_id_does_not_match_by_url() {
    let mut file = None;
    add_to(&mut file, "One", "https://same/", None, vec![], None, None).unwrap();
    add_to(&mut file, "Two", "https://same/", None, vec![], None, Some("new-id".into())).unwrap();
    let feed = load(&file).unwrap();
    assert_eq!(feed.links.len(), 2);
    assert_eq!(feed.links[0].id, "new-id");
}

#[test]
fn upsert_with_id_uses_fresh_id_for_new_links_only() {
    let mut feed = Feed::new("F".into(), 3);
    let l = upsert_with_id(&mut feed, "T".into(), "https://t/".into(), None, vec![" x ".into(), " ".into()], None, None, NOW.into(), "fresh-1".into());
    assert_eq!(l.id, "fresh-1");
    assert_eq!(l.tags, vec!["x"]);
    let l2 = upsert_with_id(&mut feed, "T2".into(), "https://t/".into(), None, vec![], None, None, "2025-01-03 00:00:00".into(), "fresh-2".into());
    assert_eq!(l2.id, "fresh-1");
    assert_eq!(l2.date, "2025-01-03 00:00:00");
    assert!(l2.tags.is_empty());
    assert_eq!(feed.links.len(), 1);
    assert_eq!(feed.title, "F");
    assert_eq!(feed.version, 3);
}

#[test]
fn feed_or_new_substitutes_only_not_found() {
    let f = feed_or_new(Err(FeedError::NotFound)).unwrap();
    assert_eq!(f, Feed::new(String::new(), 1));
    assert_eq!(feed_or_new(Err(FeedError::Decode)), Err(FeedError::Decode));
    let g = Feed::new("G".into(), 5);
    assert_eq!(feed_or_new(Ok(g.clone())), Ok(g));
}

#[test]
fn update_and_insert_helpers_reorder() {
    let mut feed = Feed::new("F".into(), 1);
    let a = insert_new_link_front(&mut feed, "a".into(), "A".into(), "https://a/".into(), NOW.into(), None, vec![], None);
    let b = insert_new_link_front(&mut feed, "b".into(), "B".into(), "https://b/".into(), NOW.into(), Some("s".into()), vec!["t".into()], Some("v".into()));
    assert_eq!(feed.links, vec![b.clone(), a.clone()]);
    assert_eq!(b.summary, "s");
    let a2 = update_link_in_place(&mut feed, 1, "A2".into(), "https://a2/".into(), "later".into(), None, vec![], None);
    assert_eq!(a2.id, "a");
    assert_eq!(a2.title, "A2");
    assert_eq!(feed.links, vec![a2, b]);
}

#[test]
fn new_url_after_one_insert_gets_a_distinct_id() {
    let mut file = None;
    let a = add_to(&mut file, "A", "https://a/", None, vec![], None, None).unwrap();
    let b = add_to(&mut file, "B", "https://b/", None, vec![], None, None).unwrap();
    assert_ne!(a.id, b.id);
    assert!(Uuid::parse_str(&b.id).is_ok());
    let feed = load(&file).unwrap();
    assert_eq!(feed.links, vec![b, a]);
}

#[test]
fn add_uses_the_given_fresh_id() {
    let (feed, link) = add(
        Err(FeedError::NotFound),
        "T".into(),
        "https://t/".into(),
        None,
        vec![],
        None,
        None,
        NOW.into(),
        "generated".into(),
    )
    .unwrap();
    assert_eq!(link.id, "generated");
    assert_eq!(feed.version, 1);
    assert_eq!(feed.links, vec![link]);
}
