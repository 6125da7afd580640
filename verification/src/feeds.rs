use vstd::prelude::*;

use crate::feed::{
    entries_view, feed_entries, feed_layout, locate_channel, missing_child_message, read_entries,
    EntryView,
};
use crate::news::{item_story, items_view, normalise_items};
use crate::story::{normalised, StoryView};
use crate::subscriptions::{download_view, summary_tag};
use crate::time::Timestamp;
use crate::xml::{attribute, doc_view, parse_xml, tagged, xml_document, NodeView, XmlNode};

verus! {

/// A news item of a subscription: the subscription's name, the item's
/// title, URL, date and summary. Items are equal when their URLs are; they
/// are ordered field by field.
#[derive(PartialOrd, Ord, Clone, Debug)]
pub struct NewsItem {
    pub subscription: String,
    pub title: String,
    pub url: String,
    pub timestamp: Timestamp,
    pub summary: String,
}

impl View for NewsItem {
    type V = StoryView;

    open spec fn view(&self) -> StoryView {
        item_story(self.subscription@, self.title@, self.url@, self.timestamp, self.summary@)
    }
}

impl PartialEq for NewsItem {
    fn eq(&self, other: &Self) -> (r: bool) {
        self.url == other.url
    }
}

impl vstd::std_specs::cmp::PartialEqSpecImpl for NewsItem {
    open spec fn obeys_eq_spec() -> bool {
        true
    }

    open spec fn eq_spec(&self, other: &Self) -> bool {
        self.url@ == other.url@
    }
}

impl Eq for NewsItem {

}

impl NewsItem {
    /// A news item with the given fields.
    pub fn new(subscription: &str, title: &str, url: &str, timestamp: &Timestamp, summary: &str) -> (r:
        NewsItem)
        ensures
            r@ == item_story(subscription@, title@, url@, *timestamp, summary@),
    {
        NewsItem {
            subscription: subscription.to_string(),
            title: title.to_string(),
            url: url.to_string(),
            timestamp: *timestamp,
            summary: summary.to_string(),
        }
    }
}

/// The views of a list of items.
pub open spec fn feed_items_view(items: Seq<NewsItem>) -> Seq<StoryView> {
    items.map_values(|x: NewsItem| x@)
}

/// Sorts items by their derived order, removes neighbours with the same URL
/// and sorts them by date, newest first.
pub fn normalise(items: &mut Vec<NewsItem>)
    ensures
        feed_items_view(final(items)@) == normalised(feed_items_view(old(items)@)),
{
    let ghost input = feed_items_view(items@);
    let mut list: Vec<crate::news::NewsItem> = Vec::new();
    let mut i: usize = 0;
    while i < items.len()
        invariant
            i <= items.len(),
            input == feed_items_view(items@),
            items_view(list@) == input.take(i as int),
        decreases items.len() - i,
    {
        let x = &items[i];
        assert(input[i as int] == x@);
        let ghost before = items_view(list@);
        let y = crate::news::NewsItem::new(
            x.subscription.as_str(),
            x.title.as_str(),
            x.url.as_str(),
            &x.timestamp,
            x.summary.as_str(),
        );
        list.push(y);
        assert(items_view(list@) =~= before.push(y@));
        assert(input.take(i + 1) =~= input.take(i as int).push(input[i as int]));
        i = i + 1;
    }
    assert(input.take(items.len() as int) =~= input);
    normalise_items(&mut list);
    let ghost result = items_view(list@);
    let mut out: Vec<NewsItem> = Vec::new();
    let mut j: usize = 0;
    while j < list.len()
        invariant
            j <= list.len(),
            result == items_view(list@),
            feed_items_view(out@) == result.take(j as int),
        decreases list.len() - j,
    {
        let y = &list[j];
        assert(result[j as int] == y@);
        let ghost before = feed_items_view(out@);
        let x = NewsItem::new(
            y.source.as_str(),
            y.title.as_str(),
            y.url.as_str(),
            &y.timestamp,
            y.summary.as_str(),
        );
        out.push(x);
        assert(feed_items_view(out@) =~= before.push(x@));
        assert(result.take(j + 1) =~= result.take(j as int).push(result[j as int]));
        j = j + 1;
    }
    assert(result.take(list.len() as int) =~= result);
    *items = out;
}

/// The entries of a feed as items of the subscription named `name`, in
/// order.
pub open spec fn entry_items(entries: Seq<EntryView>, name: Seq<char>) -> Seq<StoryView>
    decreases entries.len(),
{
    if entries.len() == 0 {
        Seq::empty()
    } else {
        let e = entries.last();
        entry_items(entries.drop_last(), name).push(
            item_story(name, e.title, e.url, e.timestamp, e.summary),
        )
    }
}

/// What reading a feed document gives a subscription named `name`: all its
/// entries as items, normalised, or the message of what the document lacks.
pub open spec fn document_items(doc: Seq<NodeView>, name: Seq<char>) -> Result<Seq<StoryView>, Seq<char>> {
    match feed_layout(doc) {
        Err(e) => Err(e),
        Ok((channel, is_rss)) => Ok(
            normalised(entry_items(feed_entries(doc, channel, is_rss, summary_tag(is_rss)), name)),
        ),
    }
}

/// What reading a feed's text gives a subscription named `name`.
pub open spec fn text_items(text: Seq<char>, name: Seq<char>) -> Result<Seq<StoryView>, Seq<char>> {
    match xml_document(text) {
        Err(e) => Err(e),
        Ok(doc) => document_items(doc, name),
    }
}

/// The view of a result that holds items.
pub open spec fn items_result_view(r: Result<Vec<NewsItem>, String>) -> Result<
    Seq<StoryView>,
    Seq<char>,
> {
    match r {
        Ok(v) => Ok(feed_items_view(v@)),
        Err(e) => Err(e@),
    }
}

/// A subscription: a name and the URL of a feed.
pub struct Subscription {
    name: String,
    url: String,
}

impl Subscription {
    /// A subscription to the feed at `url` named `name`.
    pub fn new(name: &str, url: &str) -> (r: Subscription)
        ensures
            r.name() == name@,
            r.url() == url@,
    {
        Subscription { name: name.to_string(), url: url.to_string() }
    }

    /// The subscription's name.
    pub closed spec fn name(&self) -> Seq<char> {
        self.name@
    }

    /// The URL of the subscription's feed.
    pub closed spec fn url(&self) -> Seq<char> {
        self.url@
    }

    /// The subscription's name.
    pub fn name_text(&self) -> (r: &str)
        ensures
            r@ == self.name(),
    {
        self.name.as_str()
    }

    /// The URL of the subscription's feed.
    pub fn feed_url(&self) -> (r: &str)
        ensures
            r@ == self.url(),
    {
        self.url.as_str()
    }

    /// Reads a parsed feed document: all its entries as items of this
    /// subscription, normalised.
    pub fn parse_document(&self, nodes: &Vec<XmlNode>) -> (r: Result<Vec<NewsItem>, String>)
        ensures
            items_result_view(r) == document_items(doc_view(nodes@), self.name()),
    {
        let (channel, is_rss) = match locate_channel(nodes) {
            Ok(found) => found,
            Err(e) => {
                return Err(e);
            },
        };
        let summary: &str = if is_rss { "description" } else { "content" };
        let entries = read_entries(nodes, channel, is_rss, summary);
        let ghost es = entries_view(entries@);
        let mut items: Vec<NewsItem> = Vec::new();
        let mut i: usize = 0;
        while i < entries.len()
            invariant
                i <= entries.len(),
                es == entries_view(entries@),
                feed_items_view(items@) == entry_items(es.take(i as int), self.name()),
            decreases entries.len() - i,
        {
            let e = &entries[i];
            assert(es[i as int] == e@);
            assert(es.take(i + 1).drop_last() =~= es.take(i as int));
            let ghost before = feed_items_view(items@);
            let item = NewsItem::new(
                self.name.as_str(),
                e.title.as_str(),
                e.url.as_str(),
                &e.timestamp,
                e.summary.as_str(),
            );
            items.push(item);
            assert(feed_items_view(items@) =~= before.push(item@));
            i = i + 1;
        }
        assert(es.take(entries.len() as int) =~= es);
        normalise(&mut items);
        Ok(items)
    }

    /// Reads a feed's text.
    pub fn parse(&self, rss: &str) -> (r: Result<Vec<NewsItem>, String>)
        ensures
            items_result_view(r) == text_items(rss@, self.name()),
            xml_document(rss@) is Ok ==> items_result_view(r) != Err::<Seq<StoryView>, Seq<char>>(
                missing_child_message(),
            ),
    {
        match parse_xml(rss) {
            Ok(nodes) => {
                proof {
                    crate::feed::lemma_rooted_layout(doc_view(nodes@));
                }
                self.parse_document(&nodes)
            },
            Err(e) => Err(e),
        }
    }

    /// Reads the outcome of downloading the feed: the download's error, or
    /// what reading the text gives.
    pub fn sync_with(&self, downloaded: Result<String, String>) -> (r: Result<Vec<NewsItem>, String>)
        ensures
            items_result_view(r) == match download_view(downloaded) {
                Err(e) => Err(e),
                Ok(text) => text_items(text, self.name()),
            },
    {
        match downloaded {
            Ok(text) => self.parse(text.as_str()),
            Err(e) => Err(e),
        }
    }
}

/// The subscription that an OPML `outline` element describes, as its name
/// and URL: its `text` and `xmlUrl`, where both are present and not empty.
pub open spec fn outline_entry(node: NodeView) -> Option<(Seq<char>, Seq<char>)> {
    let name = match attribute(node, "text"@) {
        Some(t) => t,
        None => Seq::empty(),
    };
    let url = match attribute(node, "xmlUrl"@) {
        Some(u) => u,
        None => Seq::empty(),
    };
    if name.len() > 0 && url.len() > 0 {
        Some((name, url))
    } else {
        None
    }
}

/// The subscriptions, as names and URLs, that the `outline` elements among
/// the first `n` nodes describe, in document order.
pub open spec fn outline_entries_upto(doc: Seq<NodeView>, n: int) -> Seq<(Seq<char>, Seq<char>)>
    decreases n,
{
    if n <= 0 {
        Seq::empty()
    } else {
        let before = outline_entries_upto(doc, n - 1);
        if tagged(doc[n - 1], "outline"@) {
            match outline_entry(doc[n - 1]) {
                Some(e) => before.push(e),
                None => before,
            }
        } else {
            before
        }
    }
}

/// A list of subscriptions.
pub struct SubscriptionSet {
    subscriptions: Vec<Subscription>,
}

impl SubscriptionSet {
    /// The subscriptions, as names and URLs.
    pub closed spec fn entries(&self) -> Seq<(Seq<char>, Seq<char>)> {
        self.subscriptions@.map_values(|s: Subscription| (s.name(), s.url()))
    }

    /// An empty list.
    pub fn new() -> (r: SubscriptionSet)
        ensures
            r.entries() == Seq::<(Seq<char>, Seq<char>)>::empty(),
    {
        let r = SubscriptionSet { subscriptions: Vec::new() };
        assert(r.entries() =~= Seq::<(Seq<char>, Seq<char>)>::empty());
        r
    }

    /// The number of subscriptions.
    pub fn len(&self) -> (r: usize)
        ensures
            r == self.entries().len(),
    {
        self.subscriptions.len()
    }

    /// The subscription at position `i`.
    pub fn get(&self, i: usize) -> (r: &Subscription)
        requires
            i < self.entries().len(),
        ensures
            (r.name(), r.url()) == self.entries()[i as int],
    {
        &self.subscriptions[i]
    }

    /// Replaces the subscriptions by those that a parsed OPML document lists.
    pub fn load_document(&mut self, nodes: &Vec<XmlNode>)
        ensures
            final(self).entries() == outline_entries_upto(doc_view(nodes@), nodes@.len() as int),
    {
        let ghost doc = doc_view(nodes@);
        self.subscriptions = Vec::new();
        assert(self.entries() =~= outline_entries_upto(doc, 0));
        let mut j: usize = 0;
        while j < nodes.len()
            invariant
                j <= nodes.len(),
                doc == doc_view(nodes@),
                self.entries() == outline_entries_upto(doc, j as int),
            decreases nodes.len() - j,
        {
            let node = &nodes[j];
            assert(doc[j as int] == node@);
            if node.has_tag_name("outline") {
                let name = match node.attribute("text") {
                    Some(t) => t,
                    None => String::new(),
                };
                let url = match node.attribute("xmlUrl") {
                    Some(u) => u,
                    None => String::new(),
                };
                if !name.as_str().is_empty() && !url.as_str().is_empty() {
                    let ghost before = self.entries();
                    let s = Subscription::new(name.as_str(), url.as_str());
                    self.subscriptions.push(s);
                    assert(self.entries() =~= before.push((name@, url@)));
                }
            }
            j = j + 1;
        }
    }

    /// Replaces the subscriptions by those that an OPML text lists; on an XML
    /// error, returns its message and leaves the list as it was.
    pub fn load_text(&mut self, opml_text: &str) -> (r: Result<(), String>)
        ensures
            match xml_document(opml_text@) {
                Ok(doc) => r is Ok && final(self).entries() == outline_entries_upto(
                    doc,
                    doc.len() as int,
                ),
                Err(e) => r matches Err(m) && m@ == e && final(self).entries() == old(self).entries(),
            },
    {
        match parse_xml(opml_text) {
            Ok(nodes) => {
                self.load_document(&nodes);
                Ok(())
            },
            Err(e) => Err(e),
        }
    }

    /// Adds to `items` what the subscription at position `i` gives for the
    /// outcome of downloading its feed; on an error, returns it and leaves
    /// `items` as it was.
    pub fn gather(&self, i: usize, downloaded: Result<String, String>, items: &mut Vec<NewsItem>) -> (r:
        Result<(), String>)
        requires
            i < self.entries().len(),
        ensures
            match (match download_view(downloaded) {
                Err(e) => Err(e),
                Ok(text) => text_items(text, self.entries()[i as int].0),
            }) {
                Ok(got) => r is Ok && feed_items_view(final(items)@) == feed_items_view(old(items)@)
                    + got,
                Err(e) => r matches Err(m) && m@ == e && final(items)@ == old(items)@,
            },
    {
        let s = self.get(i);
        match s.sync_with(downloaded) {
            Ok(mut got) => {
                let ghost before = feed_items_view(items@);
                let ghost added = feed_items_view(got@);
                items.append(&mut got);
                assert(feed_items_view(items@) =~= before + added);
                Ok(())
            },
            Err(e) => Err(e),
        }
    }
}

} // verus!
