use kiss_rss::news::{NewsItem, NewsItemList};
use kiss_rss::subscriptions::{Status, Subscription, SubscriptionSet, UpdateBasis};
use kiss_rss::time::Timestamp;

const RSS: &str = "<?xml version=\"1.0\"?>\n\
<rss version=\"2.0\">\n\
  <channel>\n\
    <title>Example News</title>\n\
    <item>\n\
      <title>First</title>\n\
      <link>https://example.com/1</link>\n\
      <pubDate>Tue, 28 Mar 2023 10:00:00 +0000</pubDate>\n\
      <description>One</description>\n\
    </item>\n\
    <item>\n\
      <title>Second</title>\n\
      <link>https://example.com/2</link>\n\
      <pubDate>Wed, 29 Mar 2023 10:00:00 +0000</pubDate>\n\
      <description>Two</description>\n\
    </item>\n\
    <item>\n\
      <title>Old</title>\n\
      <link>https://example.com/0</link>\n\
      <pubDate>Mon, 20 Mar 2023 08:00:00 +0000</pubDate>\n\
    </item>\n\
  </channel>\n\
</rss>\n";

/// 2023-03-30 12:00:00.6 UTC.
fn reading_time() -> Timestamp {
    Timestamp { secs: 1_680_177_600, nanos: 600_000_000 }
}

fn at(secs: i64) -> Timestamp {
    Timestamp { secs, nanos: 0 }
}

fn titles(list: &NewsItemList) -> Vec<String> {
    list.items.iter().map(|i| i.title.clone()).collect()
}

#[test]
fn status_messages_and_symbols() {
    assert_eq!(Status::default().get_message(), "");
    assert_eq!(Status::Synced.get_message(), "");
    assert_eq!(Status::DownloadFailed("no route".to_string()).get_message(), "no route");
    assert_eq!(Status::ParseFailed("bad xml".to_string()).get_message(), "bad xml");
    assert_eq!(Status::Unknown.symbol(), "?");
    assert_eq!(Status::Synced.symbol(), "\u{2713}");
    assert_eq!(Status::DownloadFailed(String::new()).symbol(), "\u{2715}");
    assert_eq!(Status::ParseFailed(String::new()).symbol(), "\u{2715}");
}

#[test]
fn subscriptions_from_urls() {
    assert!(Subscription::from_url("").is_none());
    let mut s = Subscription::from_url("https://example.com/rss").unwrap();
    assert_eq!(s.name, "");
    assert_eq!(s.url, "https://example.com/rss");
    assert_eq!(s.last_sync, Timestamp::epoch());
    assert!(s.update_basis.is_none());
    assert_eq!(s.item_list.len(), 0);
    s.set_name("");
    assert_eq!(s.name, "");
    s.set_name("Mine");
    assert_eq!(s.name, "Mine");
    s.set_name("");
    assert_eq!(s.name, "Mine");
}

#[test]
fn parsing_keeps_recent_items_and_names_the_subscription() {
    let mut s = Subscription::from_url("https://example.com/rss").unwrap();
    let list = s.parse_at(RSS, reading_time()).unwrap();
    assert_eq!(titles(&list), vec!["Second", "First"]);
    assert_eq!(s.name, "Example News");
    assert_eq!(list.items[0].source, "Example News");
    // Two items; the oldest is two days, two hours and 0.6 s old.
    assert_eq!(s.update_basis, Some(UpdateBasis { items: 2, seconds: 180_000 }));
    // The item list of the subscription itself is left to `sync`.
    assert_eq!(s.item_list.len(), 0);
}

#[test]
fn parsing_keeps_a_given_name() {
    let mut s = Subscription::from_url("https://example.com/rss").unwrap();
    s.set_name("Mine");
    let list = s.parse_at(RSS, reading_time()).unwrap();
    assert_eq!(s.name, "Mine");
    assert_eq!(list.items[1].source, "Mine");
}

#[test]
fn three_days_is_too_old() {
    let mut s = Subscription::from_url("https://example.com/rss").unwrap();
    // 2023-03-31 10:00:00: the first item is exactly three days old.
    let list = s.parse_at(RSS, at(1_680_256_800)).unwrap();
    assert_eq!(titles(&list), vec!["Second"]);
    assert_eq!(s.update_basis, Some(UpdateBasis { items: 1, seconds: 172_800 }));
    let list = s.parse_at(RSS, at(1_690_000_000)).unwrap();
    assert_eq!(list.len(), 0);
    // No item: the basis stays as it was.
    assert_eq!(s.update_basis, Some(UpdateBasis { items: 1, seconds: 172_800 }));
}

#[test]
fn parse_errors_leave_the_subscription() {
    let mut s = Subscription::from_url("https://example.com/rss").unwrap();
    assert!(s.parse_at("<rss></channel>", reading_time()).is_err());
    assert_eq!(s.parse_at("<rss></rss>", reading_time()).unwrap_err(), "rss element is missing channel element");
    assert_eq!(s.name, "");
    assert!(s.update_basis.is_none());
}

#[test]
fn synchronising_records_the_outcome() {
    let mut s = Subscription::from_url("https://example.com/rss").unwrap();
    s.sync_at(Ok(RSS.to_string()), reading_time());
    assert!(matches!(s.status, Status::Synced));
    assert_eq!(s.last_sync, at(1_680_177_601));
    assert_eq!(titles(&s.item_list), vec!["Second", "First"]);

    s.sync_at(Err("connection refused".to_string()), reading_time());
    assert!(matches!(&s.status, Status::DownloadFailed(m) if m == "connection refused"));
    assert_eq!(s.item_list.len(), 0);
    assert_eq!(s.last_sync, at(1_680_177_601));

    s.sync_at(Ok("not xml".to_string()), reading_time());
    assert!(matches!(s.status, Status::ParseFailed(_)));
    assert_eq!(s.item_list.len(), 0);
}

#[test]
fn synchronising_by_the_clock() {
    let mut s = Subscription::from_url("https://example.com/rss").unwrap();
    s.sync_with(Ok(RSS.to_string()));
    assert!(matches!(s.status, Status::Synced));
    assert_eq!(s.last_sync.nanos, 0);
    assert!(s.last_sync.secs > 1_680_177_600);
}

#[test]
fn set_of_subscriptions() {
    let mut set = SubscriptionSet::new();
    assert_eq!(set.opml_file_name, "kiss_rss.opml");
    assert!(set.is_empty());
    set.add_from_url("");
    assert_eq!(set.len(), 0);
    set.add_from_url("https://a.example/rss");
    set.add_from_url("https://b.example/rss");
    set.add_from_url("https://a.example/rss");
    assert_eq!(set.len(), 3);
    assert!(!set.is_empty());
    assert_eq!(set.positions_of("https://a.example/rss"), vec![0, 2]);
    assert_eq!(set.positions_of("https://c.example/rss"), Vec::<usize>::new());
    let mut it = set.into_iter();
    assert_eq!(it.next().unwrap().url, "https://a.example/rss");
    assert_eq!(it.next().unwrap().url, "https://b.example/rss");
    assert_eq!(it.next().unwrap().url, "https://a.example/rss");
    assert!(it.next().is_none());
}

#[test]
fn loading_an_opml_text() {
    let mut set = SubscriptionSet::new();
    set.add_from_url("https://old.example/rss");
    let opml = "<opml version=\"1.0\"><body>\
        <outline text=\"One\" type=\"rss\" xmlUrl=\"https://one.example/rss\"/>\
        <outline xmlUrl=\"https://unnamed.example/rss\"/>\
        <outline text=\"Empty\" xmlUrl=\"\"/>\
        </body></opml>";
    assert!(set.load_text(opml).is_ok());
    assert_eq!(set.len(), 2);
    assert_eq!(set.subscriptions[0].name, "One");
    assert_eq!(set.subscriptions[0].url, "https://one.example/rss");
    assert_eq!(set.subscriptions[1].name, "");
    assert!(set.load_text("<opml></body>").is_err());
    assert_eq!(set.len(), 2);
}

#[test]
fn items_of_a_set() {
    let mut set = SubscriptionSet::new();
    set.add_from_url("https://example.com/rss");
    set.add_from_url("https://other.example/rss");
    set.sync_one_at(0, Ok(RSS.to_string()), reading_time());
    set.sync_one_at(1, Err("down".to_string()), reading_time());
    assert!(matches!(set.subscriptions[1].status, Status::DownloadFailed(_)));
    let items = set.get_items();
    assert_eq!(titles(&items), vec!["Second", "First"]);
    set.sync_one(1, Err("still down".to_string()));
    assert!(matches!(&set.subscriptions[1].status, Status::DownloadFailed(m) if m == "still down"));
}

#[test]
fn news_item_lists() {
    let mut list = NewsItemList::new();
    assert_eq!(list.len(), 0);
    assert!(list.last().is_none());
    list.push(NewsItem::new("s", "a", "u1", &at(10), ""));
    list.push(NewsItem::new("s", "b", "u2", &at(30), ""));
    let mut other = NewsItemList::new();
    other.push(NewsItem::new("s", "c", "u1", &at(20), ""));
    list.extend(&other);
    assert_eq!(list.len(), 3);
    assert_eq!(other.len(), 1);
    list.normalise();
    // "a" and "c" share a URL but are not neighbours once sorted by title.
    assert_eq!(titles(&list), vec!["b", "c", "a"]);
    assert_eq!(list.last().unwrap().title, "a");
    let copy = list.duplicate();
    list.truncate(1);
    assert_eq!(titles(&list), vec!["b"]);
    list.truncate(5);
    assert_eq!(list.len(), 1);
    assert_eq!(copy.len(), 3);
    let mut it = copy.into_iter();
    assert_eq!(it.next().unwrap().title, "b");
    assert_eq!(it.next().unwrap().title, "c");
    assert_eq!(it.next().unwrap().title, "a");
    assert!(it.next().is_none());
}

#[test]
fn news_items_compare_by_url() {
    let a = NewsItem::new("s", "a", "same", &at(1), "x");
    let b = NewsItem::new("t", "b", "same", &at(2), "y");
    assert!(a == b);
    assert!(a < b);
    assert!(a.duplicate() == a);
}

#[test]
fn items_do_not_depend_on_the_order_of_subscriptions() {
    const OTHER: &str = "<rss><channel><title>Other</title><item><title>Third</title>\
<link>https://other.example/3</link><pubDate>Wed, 29 Mar 2023 10:00:00 +0000</pubDate></item>\
</channel></rss>";
    let mut a = SubscriptionSet::new();
    a.add_from_url("https://example.com/rss");
    a.add_from_url("https://other.example/rss");
    a.sync_one_at(0, Ok(RSS.to_string()), reading_time());
    a.sync_one_at(1, Ok(OTHER.to_string()), reading_time());
    let mut b = SubscriptionSet::new();
    b.add(&a.subscriptions[1]);
    b.add(&a.subscriptions[0]);
    let (x, y) = (a.get_items(), b.get_items());
    assert_eq!(titles(&x), vec!["Second", "Third", "First"]);
    assert_eq!(titles(&x), titles(&y));
    assert!(x.items.iter().zip(y.items.iter()).all(|(p, q)| p.source == q.source && p.url == q.url));
}
