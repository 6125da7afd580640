use vstd::prelude::*;

use crate::feed::{
    entries_view, feed_entries, feed_layout, first_child_text, locate_channel, missing_child_message,
    read_entries, read_first_child_text, EntryView,
};
use crate::feeds::outline_entries_upto;
use crate::story::{normalise_stories, normalised, stories_view, Story, StoryView};
use crate::subscriptions::download_view;
use crate::time::Timestamp;
use crate::xml::{doc_view, parse_xml, xml_document, NodeView, XmlNode};

verus! {

/// A news item as the terminal reader shows it: the subscription's name and
/// icon, the item's title, URL, date and description. Items are equal when
/// their URLs are; they are ordered field by field.
#[derive(PartialOrd, Ord, Debug)]
pub struct NewsItem {
    pub subscription: String,
    pub icon: String,
    pub title: String,
    pub url: String,
    pub timestamp: Timestamp,
    pub description: String,
}

impl View for NewsItem {
    type V = StoryView;

    open spec fn view(&self) -> StoryView {
        StoryView {
            source: self.subscription@,
            icon: self.icon@,
            title: self.title@,
            url: self.url@,
            timestamp: self.timestamp,
            summary: self.description@,
        }
    }
}

impl PartialEq for NewsItem {
    fn eq(&self, other: &Self) -> (r: bool) {
        self.url == other.url
    }
}

impl vstd::std_specs::cmp::PartialEqSpecImpl for NewsItem {
    open spec fn obeys_eq_spec() -> bool {
        true
    }

    open spec fn eq_spec(&self, other: &Self) -> bool {
        self.url@ == other.url@
    }
}

impl Eq for NewsItem {

}

impl NewsItem {
    /// A news item with the given fields.
    pub fn new(
        subscription: &str,
        icon: &str,
        title: &str,
        url: &str,
        timestamp: &Timestamp,
        description: &str,
    ) -> (r: NewsItem)
        ensures
            r@ == (StoryView {
                source: subscription@,
                icon: icon@,
                title: title@,
                url: url@,
                timestamp: *timestamp,
                summary: description@,
            }),
    {
        NewsItem {
            subscription: subscription.to_string(),
            icon: icon.to_string(),
            title: title.to_string(),
            url: url.to_string(),
            timestamp: *timestamp,
            description: description.to_string(),
        }
    }
}

/// The views of a list of items.
pub open spec fn console_items_view(items: Seq<NewsItem>) -> Seq<StoryView> {
    items.map_values(|x: NewsItem| x@)
}

/// Sorts items by their derived order, removes neighbours with the same URL
/// and sorts them by date, newest first.
pub fn normalise(items: &mut Vec<NewsItem>)
    ensures
        console_items_view(final(items)@) == normalised(console_items_view(old(items)@)),
{
    let ghost input = console_items_view(items@);
    let mut stories: Vec<Story> = Vec::new();
    let mut rest: Vec<NewsItem> = Vec::new();
    std::mem::swap(&mut rest, items);
    assert(console_items_view(rest@) == input);
    let mut rev: Vec<Story> = Vec::new();
    while rest.len() > 0
        invariant
            rest.len() <= input.len(),
            console_items_view(rest@) == input.take(rest.len() as int),
            rev.len() + rest.len() == input.len(),
            forall|k: int| 0 <= k < rev.len() ==> #[trigger] rev@[k]@ == input[input.len() - 1 - k],
        decreases rest.len(),
    {
        let ghost before = rest@;
        let x = rest.pop().unwrap();
        assert(console_items_view(before)[rest.len() as int] == x@);
        assert(input.take(before.len() as int)[rest.len() as int] == input[rest.len() as int]);
        assert(console_items_view(rest@) =~= input.take(rest.len() as int));
        rev.push(
            Story {
                source: x.subscription,
                icon: x.icon,
                title: x.title,
                url: x.url,
                timestamp: x.timestamp,
                summary: x.description,
            },
        );
    }
    while rev.len() > 0
        invariant
            rev.len() <= input.len(),
            stories.len() + rev.len() == input.len(),
            forall|k: int| 0 <= k < rev.len() ==> #[trigger] rev@[k]@ == input[input.len() - 1 - k],
            stories_view(stories@) == input.take(stories.len() as int),
        decreases rev.len(),
    {
        let x = rev.pop().unwrap();
        let ghost before = stories_view(stories@);
        stories.push(x);
        assert(stories_view(stories@) =~= input.take(stories.len() as int));
    }
    assert(input.take(input.len() as int) =~= input);
    let sorted = normalise_stories(stories);
    let ghost result = stories_view(sorted@);
    let mut back = sorted;
    let mut rev2: Vec<NewsItem> = Vec::new();
    while back.len() > 0
        invariant
            back.len() <= result.len(),
            stories_view(back@) == result.take(back.len() as int),
            rev2.len() + back.len() == result.len(),
            forall|k: int| 0 <= k < rev2.len() ==> #[trigger] rev2@[k]@ == result[result.len() - 1 - k],
        decreases back.len(),
    {
        let ghost before = back@;
        let s = back.pop().unwrap();
        assert(stories_view(before)[back.len() as int] == s@);
        assert(result.take(before.len() as int)[back.len() as int] == result[back.len() as int]);
        assert(stories_view(back@) =~= result.take(back.len() as int));
        rev2.push(
            NewsItem {
                subscription: s.source,
                icon: s.icon,
                title: s.title,
                url: s.url,
                timestamp: s.timestamp,
                description: s.summary,
            },
        );
    }
    let mut out: Vec<NewsItem> = Vec::new();
    while rev2.len() > 0
        invariant
            rev2.len() <= result.len(),
            out.len() + rev2.len() == result.len(),
            forall|k: int| 0 <= k < rev2.len() ==> #[trigger] rev2@[k]@ == result[result.len() - 1 - k],
            console_items_view(out@) == result.take(out.len() as int),
        decreases rev2.len(),
    {
        let x = rev2.pop().unwrap();
        let ghost before = console_items_view(out@);
        out.push(x);
        assert(console_items_view(out@) =~= result.take(out.len() as int));
    }
    assert(result.take(result.len() as int) =~= result);
    *items = out;
}

/// The tag of a feed's icon: `image` in RSS, `icon` in Atom.
pub open spec fn icon_tag(is_rss: bool) -> Seq<char> {
    if is_rss {
        "image"@
    } else {
        "icon"@
    }
}

/// The entries of a feed as items of the subscription named `name` with
/// the feed's icon `icon`, in order.
pub open spec fn console_entry_items(entries: Seq<EntryView>, name: Seq<char>, icon: Seq<char>) -> Seq<
    StoryView,
>
    decreases entries.len(),
{
    if entries.len() == 0 {
        Seq::empty()
    } else {
        let e = entries.last();
        console_entry_items(entries.drop_last(), name, icon).push(
            StoryView {
                source: name,
                icon,
                title: e.title,
                url: e.url,
                timestamp: e.timestamp,
                summary: e.summary,
            },
        )
    }
}

/// What reading a feed document gives the subscription named `name`: its
/// entries, with the channel's icon and their descriptions, normalised; or the
/// message of what the document lacks.
pub open spec fn console_document_items(doc: Seq<NodeView>, name: Seq<char>) -> Result<
    Seq<StoryView>,
    Seq<char>,
> {
    match feed_layout(doc) {
        Err(e) => Err(e),
        Ok((channel, is_rss)) => Ok(
            normalised(
                console_entry_items(
                    feed_entries(doc, channel, is_rss, "description"@),
                    name,
                    first_child_text(doc, channel, icon_tag(is_rss)),
                ),
            ),
        ),
    }
}

/// What reading a feed's text gives the subscription named `name`.
pub open spec fn console_text_items(text: Seq<char>, name: Seq<char>) -> Result<
    Seq<StoryView>,
    Seq<char>,
> {
    match xml_document(text) {
        Err(e) => Err(e),
        Ok(doc) => console_document_items(doc, name),
    }
}

/// The view of a result that holds items.
pub open spec fn console_result_view(r: Result<Vec<NewsItem>, String>) -> Result<
    Seq<StoryView>,
    Seq<char>,
> {
    match r {
        Ok(v) => Ok(console_items_view(v@)),
        Err(e) => Err(e@),
    }
}

/// A subscription: a name and the URL of a feed.
pub struct Subscription {
    pub name: String,
    pub url: String,
}

impl Subscription {
    /// A subscription to the feed at `url` named `name`.
    pub fn new(name: &str, url: &str) -> (r: Subscription)
        ensures
            r.name@ == name@,
            r.url@ == url@,
    {
        Subscription { name: name.to_string(), url: url.to_string() }
    }

    /// Reads a parsed feed document.
    pub fn read_document(&self, nodes: &Vec<XmlNode>) -> (r: Result<Vec<NewsItem>, String>)
        ensures
            console_result_view(r) == console_document_items(doc_view(nodes@), self.name@),
    {
        let (channel, is_rss) = match locate_channel(nodes) {
            Ok(found) => found,
            Err(e) => {
                return Err(e);
            },
        };
        let icon_name: &str = if is_rss { "image" } else { "icon" };
        let icon = read_first_child_text(nodes, channel, icon_name);
        let entries = read_entries(nodes, channel, is_rss, "description");
        let ghost es = entries_view(entries@);
        let mut items: Vec<NewsItem> = Vec::new();
        let mut i: usize = 0;
        while i < entries.len()
            invariant
                i <= entries.len(),
                es == entries_view(entries@),
                console_items_view(items@) == console_entry_items(es.take(i as int), self.name@, icon@),
            decreases entries.len() - i,
        {
            let e = &entries[i];
            assert(es[i as int] == e@);
            assert(es.take(i + 1).drop_last() =~= es.take(i as int));
            let ghost before = console_items_view(items@);
            let item = NewsItem::new(
                self.name.as_str(),
                icon.as_str(),
                e.title.as_str(),
                e.url.as_str(),
                &e.timestamp,
                e.summary.as_str(),
            );
            items.push(item);
            assert(console_items_view(items@) =~= before.push(item@));
            i = i + 1;
        }
        assert(es.take(entries.len() as int) =~= es);
        normalise(&mut items);
        Ok(items)
    }

    /// Reads the outcome of downloading the feed: the download's error, or
    /// what reading the text gives.
    pub fn get_items(&self, downloaded: Result<String, String>) -> (r: Result<Vec<NewsItem>, String>)
        ensures
            console_result_view(r) == match download_view(downloaded) {
                Err(e) => Err(e),
                Ok(text) => console_text_items(text, self.name@),
            },
            download_view(downloaded) matches Ok(text) && xml_document(text) is Ok
                ==> console_result_view(r) != Err::<Seq<StoryView>, Seq<char>>(
                missing_child_message(),
            ),
    {
        match downloaded {
            Ok(text) => match parse_xml(text.as_str()) {
                Ok(nodes) => {
                    proof {
                        crate::feed::lemma_rooted_layout(doc_view(nodes@));
                    }
                    self.read_document(&nodes)
                },
                Err(e) => Err(e),
            },
            Err(e) => Err(e),
        }
    }
}

/// The names and URLs of a list of subscriptions.
pub open spec fn subscription_entries(s: Seq<Subscription>) -> Seq<(Seq<char>, Seq<char>)> {
    s.map_values(|x: Subscription| (x.name@, x.url@))
}

/// The subscriptions that an OPML text lists: one for each `outline` with a
/// non-empty `text` and `xmlUrl`; or the message of the XML error.
pub fn read_opml(opml_text: &str) -> (r: Result<Vec<Subscription>, String>)
    ensures
        match xml_document(opml_text@) {
            Ok(doc) => r matches Ok(v) && subscription_entries(v@) == outline_entries_upto(
                doc,
                doc.len() as int,
            ),
            Err(e) => r matches Err(m) && m@ == e,
        },
{
    match parse_xml(opml_text) {
        Ok(nodes) => {
            let mut set = crate::feeds::SubscriptionSet::new();
            set.load_document(&nodes);
            let mut out: Vec<Subscription> = Vec::new();
            let mut i: usize = 0;
            while i < set.len()
                invariant
                    i <= set.entries().len(),
                    set.entries() == outline_entries_upto(doc_view(nodes@), nodes@.len() as int),
                    subscription_entries(out@) == set.entries().take(i as int),
                decreases set.entries().len() - i,
            {
                let s = set.get(i);
                let ghost before = subscription_entries(out@);
                let x = Subscription::new(s.name_text(), s.feed_url());
                out.push(x);
                assert(subscription_entries(out@) =~= before.push((x.name@, x.url@)));
                assert(set.entries().take(i + 1) =~= set.entries().take(i as int).push(
                    set.entries()[i as int],
                ));
                assert(subscription_entries(out@) =~= set.entries().take(i + 1));
                i = i + 1;
            }
            assert(set.entries().take(set.entries().len() as int) =~= set.entries());
            Ok(out)
        },
        Err(e) => Err(e),
    }
}

} // verus!
