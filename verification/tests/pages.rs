use kiss_rss::news::{NewsItem, NewsItemList};
use kiss_rss::opml::opml_document;
use kiss_rss::pages::{items_html, options_group_html, sources_table_html, subscriptions_table_html};
use kiss_rss::subscriptions::{Status, SubscriptionSet};
use kiss_rss::summary::{get_short_summary, summarise_texts, text_utf8_len_capped};
use kiss_rss::time::Timestamp;

fn at(secs: i64) -> Timestamp {
    Timestamp { secs, nanos: 0 }
}

#[test]
fn summaries_take_whole_text_nodes() {
    assert_eq!(get_short_summary("<p>Hello <b>world</b></p>", 100), "Hello world");
    assert_eq!(get_short_summary("<p>Hello <b>world</b></p>", 3), "Hello ");
    assert_eq!(get_short_summary("<p>Hello <b>world</b></p>", 6), "Hello world");
    assert_eq!(get_short_summary("plain &amp; simple", 100), "plain & simple");
    assert_eq!(get_short_summary("", 100), "");
    assert_eq!(get_short_summary("<img src=\"x.png\">", 0), "");
}

#[test]
fn summaries_count_bytes() {
    // Each check mark is three bytes of UTF-8.
    assert_eq!(get_short_summary("<i>\u{2713}\u{2713}</i><i>more</i>", 5), "\u{2713}\u{2713}");
    assert_eq!(get_short_summary("<i>\u{2713}\u{2713}</i><i>more</i>", 6), "\u{2713}\u{2713}more");
}

#[test]
fn summarising_a_list_of_texts() {
    let texts = vec!["ab".to_string(), "".to_string(), "cd".to_string(), "ef".to_string()];
    assert_eq!(summarise_texts(&texts, 3), "abcd");
    assert_eq!(summarise_texts(&texts, 1), "ab");
    assert_eq!(summarise_texts(&texts, 10), "abcdef");
    assert_eq!(summarise_texts(&Vec::new(), 0), "");
}

#[test]
fn capped_lengths_in_bytes() {
    assert_eq!(text_utf8_len_capped("abc", 10), 3);
    assert_eq!(text_utf8_len_capped("\u{e9}\u{2713}\u{1F589}", 100), 9);
    assert_eq!(text_utf8_len_capped("abcdef", 4), 4);
    assert_eq!(text_utf8_len_capped("", 0), 0);
}

fn sample_set() -> SubscriptionSet {
    let mut set = SubscriptionSet::new();
    set.add_from_url("https://one.example/rss");
    set.add_from_url("https://two.example/rss");
    set.subscriptions[0].set_name("One");
    set.subscriptions[0].status = Status::Synced;
    set.subscriptions[0].last_sync = at(1_679_997_600);
    set.subscriptions[1].set_name("Two & Co");
    set.subscriptions[1].status = Status::DownloadFailed("down".to_string());
    set
}

#[test]
fn table_of_subscriptions() {
    let set = sample_set();
    let rates = vec!["12".to_string()];
    let html = subscriptions_table_html(&set, &rates);
    let expected = String::new()
        + "<div class=\"subscription\"><div class=\"header\"><div class=\"name\">Name</div>"
        + "<div class=\"timestamp\">Last Sync</div><div class=\"update_rate\">Updates</div>"
        + "<div class=\"status\">OK</div></div></div>"
        + "<div class=\"subscription\"><div class=\"info\"><div class=\"name\">One</div>"
        + "<div class=\"timestamp\">2023-03-28 10:00:00 UTC</div>"
        + "<div class=\"update_rate\">12 / day</div><div class=\"status\">\u{2713}</div></div></div>"
        + "<div class=\"subscription\"><div class=\"info\"><div class=\"name\">Two & Co</div>"
        + "<div class=\"timestamp\">1970-01-01 00:00:00 UTC</div>"
        + "<div class=\"update_rate\"> / day</div><div class=\"status\">\u{2715}</div></div></div>"
        + "</div>";
    assert_eq!(html, expected);
}

#[test]
fn table_of_sources() {
    let mut set = SubscriptionSet::new();
    set.add_from_url("https://one.example/rss");
    let html = sources_table_html(&set, &vec!["3".to_string()]);
    let expected = String::new()
        + "<div class=\"source\"><div class=\"info\"><div class=\"name\"></div>"
        + "<div class=\"timestamp\">1970-01-01 00:00:00 UTC</div>"
        + "<div class=\"update_rate\">3 / day</div><div class=\"icon\">?</div>"
        + "<div class=\"icon\" onclick=\"edit_source('https://one.example/rss')\">\u{1F589}</div>"
        + "<div class=\"icon\" onclick=\"delete_source('https://one.example/rss')\">\u{1F5D1}</div>"
        + "</div></div></div>";
    assert_eq!(html, expected);
    assert_eq!(sources_table_html(&SubscriptionSet::new(), &Vec::new()), "</div>");
}

#[test]
fn page_of_items() {
    let mut list = NewsItemList::new();
    list.push(NewsItem::new("Src", "Title", "https://x.example/a", &at(1_679_997_600), "<p>Hi <b>there</b></p>"));
    let html = items_html(&list, false);
    let expected = String::new()
        + "<div class=\"news_item\"><div class=\"subscription_name\">Src</div>"
        + "<div class=\"timestamp\">2023-03-28 10:00:00 UTC</div>"
        + "<div class=\"title\" onclick=openPage(\"https://x.example/a\")>Title</div>"
        + "<div class=\"summary\">Hi there</div></div>";
    assert_eq!(html, expected);
    let linked = items_html(&list, true);
    let expected = String::new()
        + "<div class=\"news_item\"><div class=\"source_name\">Src</div>"
        + "<div class=\"timestamp\">2023-03-28 10:00:00 UTC</div>"
        + "<div class=\"title\"><a href=\"https://x.example/a\" target=\"_blank\">Title</a></div>"
        + "<div class=\"summary\">Hi there</div></div>";
    assert_eq!(linked, expected);
    assert_eq!(items_html(&NewsItemList::new(), true), "");
}

#[test]
fn long_summaries_are_cut_in_pages() {
    let long = format!("<p>{}</p><p>{}</p>", "a".repeat(150), "b".repeat(10));
    let mut list = NewsItemList::new();
    list.push(NewsItem::new("S", "T", "U", &at(0), long.as_str()));
    let html = items_html(&list, true);
    assert!(html.contains(&format!("<div class=\"summary\">{}</div>", "a".repeat(150))));
    assert!(!html.contains("bbbbbbbbbb"));
}

#[test]
fn options_of_known_sources() {
    let set = sample_set();
    let html = options_group_html("News", &set);
    let expected = String::new()
        + "<optgroup label=\"News\">"
        + "<option value=\"https://one.example/rss\">One</option>"
        + "<option value=\"https://two.example/rss\">Two & Co</option>"
        + "</optgroup>";
    assert_eq!(html, expected);
}

#[test]
fn opml_document_of_a_set() {
    let set = sample_set();
    let text = opml_document(&set);
    let expected = "<?xml version=\"1.1\" encoding=\"UTF-8\"?>\n\
<opml version=\"1.0\">\n\
\t<head>\n\
\t\t<title>Kiss RSS</title>\n\
\t</head>\n\
\t<body>\n\
\t\t<outline text=\"One\" type=\"rss\" xmlUrl=\"https://one.example/rss\" />\n\
\t\t<outline text=\"Two &amp; Co\" type=\"rss\" xmlUrl=\"https://two.example/rss\" />\n\
\t</body>\n\
</opml>\n";
    assert_eq!(text, expected);
}

#[test]
fn opml_of_an_empty_set() {
    let text = opml_document(&SubscriptionSet::new());
    assert!(text.contains("\t<body />\n"));
}

#[test]
fn saved_subscriptions_load_back() {
    let set = sample_set();
    let text = opml_document(&set);
    let mut loaded = SubscriptionSet::new();
    assert!(loaded.load_text(text.as_str()).is_ok());
    assert_eq!(loaded.len(), 2);
    for (a, b) in loaded.subscriptions.iter().zip(set.subscriptions.iter()) {
        assert_eq!(a.name, b.name);
        assert_eq!(a.url, b.url);
        assert!(matches!(a.status, Status::Unknown));
        assert_eq!(a.last_sync, Timestamp::epoch());
    }
}

#[test]
fn attribute_values_are_escaped_and_read_back() {
    let mut set = SubscriptionSet::new();
    set.add_from_url("https://q.example/?a=1&b='2'");
    set.subscriptions[0].set_name("A \"quoted\" <b> & co");
    let text = opml_document(&set);
    assert!(text.contains(
        "<outline text=\"A &quot;quoted&quot; &lt;b&gt; &amp; co\" type=\"rss\" xmlUrl=\"https://q.example/?a=1&amp;b=&apos;2&apos;\" />"
    ));
    let mut loaded = SubscriptionSet::new();
    loaded.load_text(&text).unwrap();
    assert_eq!(loaded.subscriptions[0].name, "A \"quoted\" <b> & co");
    assert_eq!(loaded.subscriptions[0].url, "https://q.example/?a=1&b='2'");
}
