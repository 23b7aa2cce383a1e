use linkleaf::{filter_feed, list, CalendarDate, Feed, FeedError, Link};

fn mk_link(id: &str, title: &str, url: &str, date_s: &str, tags: &[&str], summary: &str, via: &str) -> Link {
    Link {
        id: id.to_string(),
        title: title.to_string(),
        url: url.to_string(),
        date: date_s.to_string(),
        summary: summary.to_string(),
        tags: tags.iter().map(|s| s.to_string()).collect(),
        via: via.to_string(),
    }
}

fn mk_feed(links: Vec<Link>) -> Feed {
    let mut f = Feed::new(String::new(), 1);
    f.links = links;
    f
}

#[test]
fn list_without_filters_returns_all() {
    let l1 = mk_link("1", "One", "https://1/", "2025-01-02 12:00:00", &["rust", "async"], "", "");
    let l2 = mk_link("2", "Two", "https://2/", "2025-01-03 09:30:15", &["tokio"], "", "");
    let feed = list(Ok(mk_feed(vec![l2.clone(), l1.clone()])), None, None).unwrap();
    assert_eq!(feed.links.len(), 2);
    assert_eq!(feed.links[0].id, l2.id);
    assert_eq!(feed.links[1].id, l1.id);
}

#[test]
fn list_filters_by_tag_case_insensitive_any_match() {
    let l1 = mk_link("1", "One", "https://1/", "2025-01-02 12:00:00", &["rust", "async"], "", "");
    let l2 = mk_link("2", "Two", "https://2/", "2025-01-03 09:30:15", &["Tokio"], "", "");
    let stored = mk_feed(vec![l1.clone(), l2.clone()]);

    let feed_tokio = list(Ok(stored.clone()), Some(vec!["tokio".into()]), None).unwrap();
    assert_eq!(feed_tokio.links.len(), 1);
    assert_eq!(feed_tokio.links[0].id, l2.id);

    let feed_async = list(Ok(stored.clone()), Some(vec!["ASYNC".into()]), None).unwrap();
    assert_eq!(feed_async.links.len(), 1);
    assert_eq!(feed_async.links[0].id, l1.id);

    let feed_multi = list(Ok(stored), Some(vec!["zzz".into(), "rust".into()]), None).unwrap();
    assert_eq!(feed_multi.links.len(), 1);
    assert_eq!(feed_multi.links[0].id, l1.id);
}

#[test]
fn list_filters_by_exact_date_component() {
    let l1 = mk_link("1", "Jan02", "https://1/", "2025-01-02 00:00:00", &[], "", "");
    let l2 = mk_link("2", "Jan03", "https://2/", "2025-01-03 23:59:59", &[], "", "");
    let stored = mk_feed(vec![l1.clone(), l2.clone()]);

    let filtered = list(Ok(stored.clone()), None, Some(CalendarDate { year: 2025, month: 1, day: 3 })).unwrap();
    assert_eq!(filtered.links.len(), 1);
    assert_eq!(filtered.links[0].id, l2.id);

    let filtered2 = list(Ok(stored), None, Some(CalendarDate { year: 2025, month: 1, day: 2 })).unwrap();
    assert_eq!(filtered2.links.len(), 1);
    assert_eq!(filtered2.links[0].id, l1.id);
}

#[test]
fn tag_filter_upper_case_needle_and_mixed_tags() {
    let rust = mk_link("1", "R", "https://r/", "2025-01-02 12:00:00", &["rust"], "", "");
    let both = mk_link("2", "B", "https://b/", "2025-01-02 12:00:00", &["Rust", "Async"], "", "");
    let other = mk_link("3", "O", "https://o/", "2025-01-02 12:00:00", &["go"], "", "");
    let stored = mk_feed(vec![rust.clone(), both.clone(), other]);
    let upper = filter_feed(stored.clone(), Some(vec!["RUST".into()]), None);
    assert_eq!(upper.links, vec![rust.clone(), both.clone()]);
    let asy = filter_feed(stored.clone(), Some(vec!["async".into()]), None);
    assert_eq!(asy.links, vec![both]);
    let padded = filter_feed(stored, Some(vec!["  zzz ".into(), " rust".into(), "".into()]), None);
    assert_eq!(padded.links.len(), 2);
}

#[test]
fn tag_filter_with_only_empty_needles_keeps_nothing() {
    let stored = mk_feed(vec![mk_link("1", "R", "https://r/", "2025-01-02 12:00:00", &["rust"], "", "")]);
    let none = filter_feed(stored, Some(vec!["  ".into()]), None);
    assert!(none.links.is_empty());
}

#[test]
fn date_filter_excludes_late_previous_day_and_bad_dates() {
    let late = mk_link("1", "Late", "https://1/", "2025-01-02 23:59:59", &[], "", "");
    let on = mk_link("2", "On", "https://2/", "2025-01-03 00:00:00", &[], "", "");
    let bad = mk_link("3", "Bad", "https://3/", "2025-01-03", &[], "", "");
    let mut stored = mk_feed(vec![late, on.clone(), bad]);
    stored.title = "Mine".into();
    stored.version = 4;
    let out = filter_feed(stored, None, Some(CalendarDate { year: 2025, month: 1, day: 3 }));
    assert_eq!(out.links, vec![on]);
    assert_eq!(out.title, "Mine");
    assert_eq!(out.version, 4);
}

#[test]
fn tag_and_date_filters_combine() {
    let a = mk_link("1", "A", "https://1/", "2025-01-03 10:00:00", &["rust"], "", "");
    let b = mk_link("2", "B", "https://2/", "2025-01-03 11:00:00", &["go"], "", "");
    let c = mk_link("3", "C", "https://3/", "2025-01-04 11:00:00", &["rust"], "", "");
    let out = filter_feed(mk_feed(vec![a.clone(), b, c]), Some(vec!["Rust".into()]), Some(CalendarDate { year: 2025, month: 1, day: 3 }));
    assert_eq!(out.links, vec![a]);
}

#[test]
fn list_hands_on_load_errors() {
    assert_eq!(list(Err(FeedError::NotFound), None, None), Err(FeedError::NotFound));
    assert_eq!(list(Err(FeedError::Decode), Some(vec![]), None), Err(FeedError::Decode));
}
