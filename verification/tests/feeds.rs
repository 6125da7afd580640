use kiss_rss::feeds::SubscriptionSet;
use kiss_rss::time::Timestamp;
use kiss_rss::{normalise, NewsItem, Subscription};

const RSS: &str = "<?xml version=\"1.0\"?>\n\
<rss version=\"2.0\">\n\
  <channel>\n\
    <title>Example News</title>\n\
    <link>https://example.com</link>\n\
    <item>\n\
      <title>First</title>\n\
      <link>https://example.com/1</link>\n\
      <pubDate>Tue, 28 Mar 2023 10:00:00 +0000</pubDate>\n\
      <description>One</description>\n\
    </item>\n\
    <item>\n\
      <title>Second</title>\n\
      <link>https://example.com/2</link>\n\
      <pubDate>Wed, 29 Mar 2023 10:00:00 +0000</pubDate>\n\
      <description>Two</description>\n\
    </item>\n\
    <item>\n\
      <title>First again</title>\n\
      <link>https://example.com/1</link>\n\
      <pubDate>Mon, 20 Mar 2023 08:00:00 +0000</pubDate>\n\
    </item>\n\
  </channel>\n\
</rss>\n";

const ATOM: &str = "<?xml version=\"1.0\" encoding=\"utf-8\"?>\n\
<feed xmlns=\"http://www.w3.org/2005/Atom\">\n\
  <title>Atom Example</title>\n\
  <entry>\n\
    <title>Entry</title>\n\
    <link rel=\"alternate\" href=\"https://atom.example/ignored\"/>\n\
    <link href=\"https://atom.example/entry\"/>\n\
    <updated>2023-03-29T10:00:00Z</updated>\n\
    <content>Body</content>\n\
    <summary>Not read</summary>\n\
  </entry>\n\
</feed>\n";

fn at(secs: i64) -> Timestamp {
    Timestamp { secs, nanos: 0 }
}

fn item(subscription: &str, title: &str, url: &str, secs: i64) -> NewsItem {
    NewsItem::new(subscription, title, url, &at(secs), "")
}

#[test]
fn rss_items_are_read_and_normalised() {
    let s = Subscription::new("News", "https://example.com/rss");
    let items = s.parse(RSS).unwrap();
    let titles: Vec<&str> = items.iter().map(|i| i.title.as_str()).collect();
    // The two items with the same URL sit side by side after the first sort
    // ("First" before "First again"); only the first of them stays.
    assert_eq!(titles, vec!["Second", "First"]);
    assert_eq!(items[0].subscription, "News");
    assert_eq!(items[0].url, "https://example.com/2");
    assert_eq!(items[0].timestamp, at(1_680_084_000));
    assert_eq!(items[0].summary, "Two");
    assert_eq!(items[1].timestamp, at(1_679_997_600));
}

#[test]
fn atom_entries_take_the_link_without_rel() {
    let s = Subscription::new("Atom", "https://atom.example/feed");
    let items = s.parse(ATOM).unwrap();
    assert_eq!(items.len(), 1);
    assert_eq!(items[0].title, "Entry");
    assert_eq!(items[0].url, "https://atom.example/entry");
    assert_eq!(items[0].timestamp, at(1_680_084_000));
    assert_eq!(items[0].summary, "Body");
}

#[test]
fn feed_errors_are_reported() {
    let s = Subscription::new("Bad", "https://bad.example");
    assert!(s.parse("<rss><channel></rss>").is_err());
    assert_eq!(s.parse("<rss/>").unwrap_err(), "rss element is missing channel element");
    assert!(s.parse("").is_err());
    assert_eq!(s.sync_with(Err("offline".to_string())).unwrap_err(), "offline");
    assert_eq!(s.sync_with(Ok(RSS.to_string())).unwrap().len(), 2);
}

#[test]
fn normalise_sorts_newest_first_and_drops_repeated_urls() {
    let mut items = vec![
        item("b", "old", "u1", 10),
        item("a", "new", "u2", 30),
        item("a", "dup", "u2", 20),
        item("c", "mid", "u3", 20),
    ];
    normalise(&mut items);
    let titles: Vec<&str> = items.iter().map(|i| i.title.as_str()).collect();
    // "dup" sorts before "new" and drops it: the first of the neighbours stays.
    assert_eq!(titles, vec!["dup", "mid", "old"]);
}

#[test]
fn normalise_keeps_order_among_equal_dates() {
    let mut items = vec![item("b", "x", "u1", 5), item("a", "y", "u2", 5), item("c", "z", "u3", 5)];
    normalise(&mut items);
    let sources: Vec<&str> = items.iter().map(|i| i.subscription.as_str()).collect();
    assert_eq!(sources, vec!["a", "b", "c"]);
    let mut again = items.clone();
    normalise(&mut again);
    assert!(again.iter().zip(items.iter()).all(|(a, b)| a.title == b.title));
}

#[test]
fn items_are_equal_by_url() {
    assert!(item("a", "x", "same", 1) == item("b", "y", "same", 2));
    assert!(item("a", "x", "one", 1) != item("a", "x", "two", 1));
}

#[test]
fn opml_lists_named_subscriptions() {
    let opml = "<opml version=\"1.0\"><head><title>t</title></head><body>\
        <outline text=\"One\" xmlUrl=\"https://one.example/rss\"/>\
        <outline text=\"\" xmlUrl=\"https://nameless.example/rss\"/>\
        <outline text=\"Folder\"><outline text=\"Two\" type=\"rss\" xmlUrl=\"https://two.example/rss\"/></outline>\
        <outline text=\"No url\"/>\
        </body></opml>";
    let mut set = SubscriptionSet::new();
    assert!(set.load_text(opml).is_ok());
    assert_eq!(set.len(), 2);
    assert_eq!(set.get(0).name_text(), "One");
    assert_eq!(set.get(0).feed_url(), "https://one.example/rss");
    assert_eq!(set.get(1).name_text(), "Two");
    assert!(set.load_text("<opml").is_err());
    assert_eq!(set.len(), 2);
}

#[test]
fn gathering_adds_a_subscriptions_items() {
    let mut set = SubscriptionSet::new();
    set.load_text("<opml><body><outline text=\"News\" xmlUrl=\"https://example.com/rss\"/></body></opml>").unwrap();
    let mut items = vec![item("x", "kept", "u9", 1)];
    assert!(set.gather(0, Ok(RSS.to_string()), &mut items).is_ok());
    assert_eq!(items.len(), 3);
    assert_eq!(items[0].title, "kept");
    assert_eq!(items[1].subscription, "News");
    assert_eq!(set.gather(0, Err("timeout".to_string()), &mut items), Err("timeout".to_string()));
    assert_eq!(items.len(), 3);
}
