use kiss_rss::console::{self, read_opml};
use kiss_rss::news::{normalise_items, NewsItem};
use kiss_rss::story::{compare_stories, dedup_stories, normalise_stories, sort_stories, Story};
use kiss_rss::text::Order;
use kiss_rss::time::Timestamp;

fn story(source: &str, title: &str, url: &str, secs: i64) -> Story {
    Story {
        source: source.to_string(),
        icon: String::new(),
        title: title.to_string(),
        url: url.to_string(),
        timestamp: Timestamp { secs, nanos: 0 },
        summary: String::new(),
    }
}

fn titles(v: &[Story]) -> Vec<&str> {
    v.iter().map(|s| s.title.as_str()).collect()
}

fn sample() -> Vec<Story> {
    vec![
        story("b", "b-old", "u1", 10),
        story("a", "a-new", "u2", 30),
        story("a", "a-dup", "u2", 20),
        story("c", "c-mid", "u3", 20),
        story("a", "a-first", "u4", 20),
    ]
}

#[test]
fn comparing_stories() {
    let x = story("a", "t", "u", 5);
    let y = story("b", "t", "u", 1);
    assert_eq!(compare_stories(&x, &y, false), Order::Less);
    assert_eq!(compare_stories(&x, &y, true), Order::Less);
    assert_eq!(compare_stories(&y, &x, true), Order::Greater);
    assert_eq!(compare_stories(&x, &x, true), Order::Equal);
    let z = story("a", "t", "u", 7);
    assert_eq!(compare_stories(&x, &z, false), Order::Less);
    assert_eq!(compare_stories(&x, &z, true), Order::Greater);
}

#[test]
fn sorting_by_the_derived_order() {
    let sorted = sort_stories(sample(), false);
    assert_eq!(titles(&sorted), vec!["a-dup", "a-first", "a-new", "b-old", "c-mid"]);
}

#[test]
fn sorting_newest_first() {
    let sorted = sort_stories(sort_stories(sample(), false), true);
    assert_eq!(titles(&sorted), vec!["a-new", "a-dup", "a-first", "c-mid", "b-old"]);
}

#[test]
fn removing_neighbours_with_the_same_url() {
    let v = vec![story("a", "1", "u", 1), story("a", "2", "u", 2), story("a", "3", "v", 3), story("a", "4", "u", 4)];
    assert_eq!(titles(&dedup_stories(&v)), vec!["1", "3", "4"]);
    assert!(dedup_stories(&Vec::new()).is_empty());
}

#[test]
fn normalising_stories() {
    let n = normalise_stories(sample());
    // "a-dup" and "a-new" share a URL but "a-first" sorts between them, so
    // both stay.
    assert_eq!(titles(&n), vec!["a-new", "a-dup", "a-first", "c-mid", "b-old"]);
    let twice = vec![story("a", "x", "u", 5), story("b", "y", "v", 6), story("a", "x", "u", 5)];
    assert_eq!(titles(&normalise_stories(twice)), vec!["y", "x"]);
    let same_url = vec![story("a", "x", "u", 5), story("a", "y", "u", 9)];
    assert_eq!(titles(&normalise_stories(same_url)), vec!["x"]);
}

#[test]
fn normalising_twice_changes_nothing() {
    let once = normalise_stories(sample());
    let again = normalise_stories(once.iter().map(|s| s.duplicate()).collect());
    assert_eq!(titles(&once), titles(&again));
}

#[test]
fn normalised_stories_are_newest_first_and_distinct() {
    let mut input = sample();
    input.push(story("c", "c-mid", "u3", 20));
    let n = normalise_stories(input);
    for w in n.windows(2) {
        assert!(w[0].timestamp >= w[1].timestamp);
    }
    for i in 0..n.len() {
        for j in 0..n.len() {
            if i != j {
                assert!(n[i].title != n[j].title || n[i].url != n[j].url);
            }
        }
    }
    for u in ["u1", "u2", "u3", "u4"] {
        assert!(n.iter().any(|s| s.url == u));
    }
}

#[test]
fn normalising_news_items() {
    let mut items = vec![
        NewsItem::new("b", "old", "u1", &Timestamp { secs: 1, nanos: 0 }, ""),
        NewsItem::new("a", "new", "u2", &Timestamp { secs: 9, nanos: 0 }, ""),
        NewsItem::new("a", "new", "u2", &Timestamp { secs: 9, nanos: 0 }, ""),
    ];
    normalise_items(&mut items);
    let t: Vec<&str> = items.iter().map(|i| i.title.as_str()).collect();
    assert_eq!(t, vec!["new", "old"]);
}

const RSS_WITH_IMAGE: &str = "<rss><channel><title>T</title><image>logo.png</image>\
<item><title>A</title><link>https://a</link><pubDate>Tue, 28 Mar 2023 10:00:00 +0000</pubDate>\
<description>Desc</description></item></channel></rss>";

const ATOM_WITH_ICON: &str = "<feed><icon>icon.png</icon><entry><title>E</title>\
<link href=\"https://e\"/><updated>2023-03-28T10:00:00Z</updated><content>C</content>\
<description>D</description></entry></feed>";

#[test]
fn console_items_carry_the_feed_icon() {
    let s = console::Subscription::new("Feed", "https://feed");
    let items = s.get_items(Ok(RSS_WITH_IMAGE.to_string())).unwrap();
    assert_eq!(items.len(), 1);
    assert_eq!(items[0].icon, "logo.png");
    assert_eq!(items[0].subscription, "Feed");
    assert_eq!(items[0].description, "Desc");
    let items = s.get_items(Ok(ATOM_WITH_ICON.to_string())).unwrap();
    assert_eq!(items[0].icon, "icon.png");
    // Atom entries too take their text from `description`.
    assert_eq!(items[0].description, "D");
    assert_eq!(items[0].url, "https://e");
    assert_eq!(s.get_items(Err("fail".to_string())).unwrap_err(), "fail");
    assert!(s.get_items(Ok("<!-- only -->".to_string())).is_err());
}

#[test]
fn console_opml() {
    let subs = read_opml("<opml><body><outline text=\"A\" xmlUrl=\"https://a\"/><outline xmlUrl=\"https://b\"/></body></opml>").unwrap();
    assert_eq!(subs.len(), 1);
    assert_eq!(subs[0].name, "A");
    assert_eq!(subs[0].url, "https://a");
    assert!(read_opml("no xml").is_err());
}
