use vstd::prelude::*;

use crate::time::{feed_date, read_feed_date, Timestamp};
use crate::xml::{
    attribute, doc_view, first_element_child, first_element_child_exec, first_tagged_child,
    first_tagged_child_exec, is_child, is_child_exec, tagged, text_or_empty, NodeView, XmlNode,
};

verus! {

/// The message of a document without any element.
pub open spec fn missing_child_message() -> Seq<char> {
    "xml doc is missing child elements"@
}

/// The message of an `rss` element without a channel element.
pub open spec fn missing_channel_message() -> Seq<char> {
    "rss element is missing channel element"@
}

/// The tag of a feed's entries: `item` in RSS, `entry` in Atom.
pub open spec fn item_tag(is_rss: bool) -> Seq<char> {
    if is_rss { "item"@ } else { "entry"@ }
}

/// The tag of an entry's date: `pubDate` in RSS, `updated` in Atom.
pub open spec fn stamp_tag(is_rss: bool) -> Seq<char> {
    if is_rss { "pubDate"@ } else { "updated"@ }
}

/// Where a feed's entries stand: the channel element (in Atom the document
/// element itself, in RSS the first element inside `rss`), and whether the
/// feed is RSS; or the message of what is missing.
pub open spec fn feed_layout(doc: Seq<NodeView>) -> Result<(int, bool), Seq<char>> {
    match first_element_child(doc, 0) {
        None => Err(missing_child_message()),
        Some(top) => if tagged(doc[top], "rss"@) {
            match first_element_child(doc, top) {
                None => Err(missing_channel_message()),
                Some(channel) => Ok((channel, true)),
            }
        } else {
            Ok((top, false))
        },
    }
}

/// A document with a root element never lacks child elements: its layout is
/// found, or it lacks the channel of an RSS feed.
pub proof fn lemma_rooted_layout(doc: Seq<NodeView>)
    requires
        first_element_child(doc, 0) is Some,
    ensures
        feed_layout(doc) != Err::<(int, bool), Seq<char>>(missing_child_message()),
{
    reveal_strlit("xml doc is missing child elements");
    reveal_strlit("rss element is missing channel element");
    assert(missing_child_message().len() != missing_channel_message().len());
}

/// Finds the channel element of a feed document, and whether it is RSS.
pub fn locate_channel(nodes: &Vec<XmlNode>) -> (r: Result<(usize, bool), String>)
    ensures
        match r {
            Ok((c, is_rss)) => feed_layout(doc_view(nodes@)) == Ok::<(int, bool), Seq<char>>(
                (c as int, is_rss),
            ),
            Err(e) => feed_layout(doc_view(nodes@)) == Err::<(int, bool), Seq<char>>(e@),
        },
{
    let ghost doc = doc_view(nodes@);
    match first_element_child_exec(nodes, 0) {
        None => Err("xml doc is missing child elements".to_string()),
        Some(top) => {
            assert(doc[top as int] == nodes@[top as int]@);
            if nodes[top].has_tag_name("rss") {
                match first_element_child_exec(nodes, top) {
                    None => Err("rss element is missing channel element".to_string()),
                    Some(channel) => Ok((channel, true)),
                }
            } else {
                Ok((top, false))
            }
        },
    }
}

/// Which field of an entry a child element sets: the first of `title`,
/// `link`, the date's tag and the summary's tag that is the element's tag.
#[derive(PartialEq, Eq, Structural, Clone, Copy)]
pub enum Field {
    Title,
    Link,
    Stamp,
    Summary,
    Other,
}

/// The field that a node sets.
pub open spec fn field_of(node: NodeView, is_rss: bool, summary_tag: Seq<char>) -> Field {
    if tagged(node, "title"@) {
        Field::Title
    } else if tagged(node, "link"@) {
        Field::Link
    } else if tagged(node, stamp_tag(is_rss)) {
        Field::Stamp
    } else if tagged(node, summary_tag) {
        Field::Summary
    } else {
        Field::Other
    }
}

/// A node sets field `f` of its entry: an Atom `link` counts only without
/// a `rel` attribute.
pub open spec fn sets_field(node: NodeView, f: Field, is_rss: bool, summary_tag: Seq<char>) -> bool {
    field_of(node, is_rss, summary_tag) == f && (f != Field::Link || is_rss || attribute(
        node,
        "rel"@,
    ) is None)
}

/// The last of the nodes before position `n` that is a child of `item`
/// setting field `f`.
pub open spec fn last_setter_upto(
    doc: Seq<NodeView>,
    item: int,
    f: Field,
    is_rss: bool,
    summary_tag: Seq<char>,
    n: int,
) -> Option<int>
    decreases n,
{
    if n <= 0 {
        None
    } else if is_child(doc, n - 1, item) && sets_field(doc[n - 1], f, is_rss, summary_tag) {
        Some(n - 1)
    } else {
        last_setter_upto(doc, item, f, is_rss, summary_tag, n - 1)
    }
}

/// The last child of `item` setting field `f`: the one whose value stays.
pub open spec fn last_setter(
    doc: Seq<NodeView>,
    item: int,
    f: Field,
    is_rss: bool,
    summary_tag: Seq<char>,
) -> Option<int> {
    last_setter_upto(doc, item, f, is_rss, summary_tag, doc.len() as int)
}

/// An entry of a feed, as its fields were read.
pub struct FeedEntry {
    pub title: String,
    pub url: String,
    pub timestamp: Timestamp,
    pub summary: String,
}

/// An entry as plain values.
pub struct EntryView {
    pub title: Seq<char>,
    pub url: Seq<char>,
    pub timestamp: Timestamp,
    pub summary: Seq<char>,
}

impl View for FeedEntry {
    type V = EntryView;

    open spec fn view(&self) -> EntryView {
        EntryView {
            title: self.title@,
            url: self.url@,
            timestamp: self.timestamp,
            summary: self.summary@,
        }
    }
}

/// The text of the node that sets a field last, or the empty text.
pub open spec fn last_text(doc: Seq<NodeView>, setter: Option<int>) -> Seq<char> {
    match setter {
        Some(c) => text_or_empty(doc[c]),
        None => Seq::empty(),
    }
}

/// The entry that the item element `item` describes: each field is set by
/// the last child that sets it; the title and summary are its text, the URL
/// is the text of the RSS `link` (the `href` of the Atom `link`), the date is
/// read from its text; where no child sets a field, the text is empty and the
/// date is the epoch.
pub open spec fn entry_at(doc: Seq<NodeView>, item: int, is_rss: bool, summary_tag: Seq<char>) -> EntryView {
    let title = last_setter(doc, item, Field::Title, is_rss, summary_tag);
    let link = last_setter(doc, item, Field::Link, is_rss, summary_tag);
    let stamp = last_setter(doc, item, Field::Stamp, is_rss, summary_tag);
    let summary = last_setter(doc, item, Field::Summary, is_rss, summary_tag);
    EntryView {
        title: last_text(doc, title),
        url: match link {
            Some(c) => if is_rss {
                text_or_empty(doc[c])
            } else {
                match attribute(doc[c], "href"@) {
                    Some(v) => v,
                    None => Seq::empty(),
                }
            },
            None => Seq::empty(),
        },
        timestamp: match stamp {
            Some(c) => feed_date(text_or_empty(doc[c]), is_rss),
            None => Timestamp { secs: 0, nanos: 0 },
        },
        summary: last_text(doc, summary),
    }
}

/// The entries read from the item elements among the nodes before position
/// `n` that are children of `channel`, in document order.
pub open spec fn entries_upto(
    doc: Seq<NodeView>,
    channel: int,
    is_rss: bool,
    summary_tag: Seq<char>,
    n: int,
) -> Seq<EntryView>
    decreases n,
{
    if n <= 0 {
        Seq::empty()
    } else {
        let before = entries_upto(doc, channel, is_rss, summary_tag, n - 1);
        if is_child(doc, n - 1, channel) && tagged(doc[n - 1], item_tag(is_rss)) {
            before.push(entry_at(doc, n - 1, is_rss, summary_tag))
        } else {
            before
        }
    }
}

/// The entries of a feed: one for each item element of the channel, in
/// document order.
pub open spec fn feed_entries(doc: Seq<NodeView>, channel: int, is_rss: bool, summary_tag: Seq<char>) -> Seq<EntryView> {
    entries_upto(doc, channel, is_rss, summary_tag, doc.len() as int)
}

/// Whether node `j` is an item element of the channel.
pub open spec fn item_filter(doc: Seq<NodeView>, channel: int, is_rss: bool) -> spec_fn(int) -> bool {
    |j: int| is_child(doc, j, channel) && tagged(doc[j], item_tag(is_rss))
}

/// The positions, in document order, of the item elements of a channel:
/// its children tagged `item` (RSS) or `entry` (Atom).
pub open spec fn item_positions(doc: Seq<NodeView>, channel: int, is_rss: bool) -> Seq<int> {
    Seq::new(doc.len(), |j: int| j).filter(item_filter(doc, channel, is_rss))
}

/// The entry that the element at a position describes.
pub open spec fn entry_reader(doc: Seq<NodeView>, is_rss: bool, summary_tag: Seq<char>) -> spec_fn(
    int,
) -> EntryView {
    |j: int| entry_at(doc, j, is_rss, summary_tag)
}

proof fn lemma_entries_upto_items(
    doc: Seq<NodeView>,
    channel: int,
    is_rss: bool,
    summary_tag: Seq<char>,
    n: int,
)
    requires
        0 <= n <= doc.len(),
    ensures
        entries_upto(doc, channel, is_rss, summary_tag, n) == Seq::new(n as nat, |j: int| j).filter(
            item_filter(doc, channel, is_rss),
        ).map_values(entry_reader(doc, is_rss, summary_tag)),
    decreases n,
{
    let p = item_filter(doc, channel, is_rss);
    let e = entry_reader(doc, is_rss, summary_tag);
    if n == 0 {
        reveal(Seq::filter);
        assert(Seq::new(0, |j: int| j).filter(p) =~= Seq::<int>::empty());
        assert(Seq::new(0, |j: int| j).filter(p).map_values(e) =~= Seq::<EntryView>::empty());
    } else {
        lemma_entries_upto_items(doc, channel, is_rss, summary_tag, n - 1);
        let before = Seq::new((n - 1) as nat, |j: int| j);
        assert(Seq::new(n as nat, |j: int| j) =~= before.push(n - 1));
        before.lemma_filter_push(n - 1, p);
        let f = before.filter(p);
        if p(n - 1) {
            assert(f.push(n - 1).map_values(e) =~= f.map_values(e).push(e(n - 1)));
        }
    }
}

/// A feed has one entry per item element of its channel, RSS and Atom
/// alike: the entries are those that the channel's item elements describe,
/// in document order, and there are as many as there are item elements.
pub proof fn lemma_feed_entries_items(
    doc: Seq<NodeView>,
    channel: int,
    is_rss: bool,
    summary_tag: Seq<char>,
)
    ensures
        feed_entries(doc, channel, is_rss, summary_tag) == item_positions(
            doc,
            channel,
            is_rss,
        ).map_values(entry_reader(doc, is_rss, summary_tag)),
        feed_entries(doc, channel, is_rss, summary_tag).len() == item_positions(
            doc,
            channel,
            is_rss,
        ).len(),
{
    lemma_entries_upto_items(doc, channel, is_rss, summary_tag, doc.len() as int);
}

/// The view of a list of entries.
pub open spec fn entries_view(entries: Seq<FeedEntry>) -> Seq<EntryView> {
    entries.map_values(|e: FeedEntry| e@)
}

/// The text of a node, or the empty text where the node is absent.
fn text_of(nodes: &Vec<XmlNode>, setter: Option<usize>) -> (r: String)
    requires
        setter matches Some(c) ==> c < nodes.len(),
    ensures
        r@ == last_text(
            doc_view(nodes@),
            match setter {
                Some(c) => Some(c as int),
                None => None,
            },
        ),
{
    match setter {
        Some(c) => nodes[c].text_or_empty(),
        None => String::new(),
    }
}

/// Reads the entry that the item element `item` describes.
pub fn read_entry(nodes: &Vec<XmlNode>, item: usize, is_rss: bool, summary_tag: &str) -> (r: FeedEntry)
    ensures
        r@ == entry_at(doc_view(nodes@), item as int, is_rss, summary_tag@),
{
    let ghost doc = doc_view(nodes@);
    let stamp: &str = if is_rss { "pubDate" } else { "updated" };
    let mut title: Option<usize> = None;
    let mut link: Option<usize> = None;
    let mut date: Option<usize> = None;
    let mut summary: Option<usize> = None;
    let mut k: usize = 0;
    while k < nodes.len()
        invariant
            k <= nodes.len(),
            doc == doc_view(nodes@),
            stamp@ == stamp_tag(is_rss),
            forall|c: usize| title == Some(c) ==> c < k,
            forall|c: usize| link == Some(c) ==> c < k,
            forall|c: usize| date == Some(c) ==> c < k,
            forall|c: usize| summary == Some(c) ==> c < k,
            (match title { Some(c) => Some(c as int), None => None })
                == last_setter_upto(doc, item as int, Field::Title, is_rss, summary_tag@, k as int),
            (match link { Some(c) => Some(c as int), None => None })
                == last_setter_upto(doc, item as int, Field::Link, is_rss, summary_tag@, k as int),
            (match date { Some(c) => Some(c as int), None => None })
                == last_setter_upto(doc, item as int, Field::Stamp, is_rss, summary_tag@, k as int),
            (match summary { Some(c) => Some(c as int), None => None }) == last_setter_upto(
                doc,
                item as int,
                Field::Summary,
                is_rss,
                summary_tag@,
                k as int,
            ),
        decreases nodes.len() - k,
    {
        assert(doc[k as int] == nodes@[k as int]@);
        if is_child_exec(nodes, k, item) {
            let node = &nodes[k];
            if node.has_tag_name("title") {
                title = Some(k);
            } else if node.has_tag_name("link") {
                if is_rss || !node.has_attribute("rel") {
                    link = Some(k);
                }
            } else if node.has_tag_name(stamp) {
                date = Some(k);
            } else if node.has_tag_name(summary_tag) {
                summary = Some(k);
            }
        }
        k = k + 1;
    }
    let title_text = text_of(nodes, title);
    let url = match link {
        Some(c) => if is_rss {
            nodes[c].text_or_empty()
        } else {
            match nodes[c].attribute("href") {
                Some(v) => v,
                None => String::new(),
            }
        },
        None => String::new(),
    };
    let timestamp = match date {
        Some(c) => {
            let t = nodes[c].text_or_empty();
            read_feed_date(t.as_str(), is_rss)
        },
        None => Timestamp::epoch(),
    };
    let summary_text = text_of(nodes, summary);
    FeedEntry { title: title_text, url, timestamp, summary: summary_text }
}

/// Reads the entries of a feed whose channel element is `channel`.
pub fn read_entries(nodes: &Vec<XmlNode>, channel: usize, is_rss: bool, summary_tag: &str) -> (r: Vec<FeedEntry>)
    ensures
        entries_view(r@) == feed_entries(doc_view(nodes@), channel as int, is_rss, summary_tag@),
{
    let ghost doc = doc_view(nodes@);
    let tag: &str = if is_rss { "item" } else { "entry" };
    let mut out: Vec<FeedEntry> = Vec::new();
    let mut j: usize = 0;
    while j < nodes.len()
        invariant
            j <= nodes.len(),
            doc == doc_view(nodes@),
            tag@ == item_tag(is_rss),
            entries_view(out@) == entries_upto(doc, channel as int, is_rss, summary_tag@, j as int),
        decreases nodes.len() - j,
    {
        assert(doc[j as int] == nodes@[j as int]@);
        if is_child_exec(nodes, j, channel) && nodes[j].has_tag_name(tag) {
            let e = read_entry(nodes, j, is_rss, summary_tag);
            let ghost before = out@;
            out.push(e);
            assert(entries_view(out@) =~= entries_view(before).push(e@));
        }
        j = j + 1;
    }
    out
}

/// The text of the first child of `channel` with the tag `tag`, or the empty
/// text: how a feed's title and icon are read.
pub open spec fn first_child_text(doc: Seq<NodeView>, channel: int, tag: Seq<char>) -> Seq<char> {
    match first_tagged_child(doc, channel, tag) {
        Some(c) => text_or_empty(doc[c]),
        None => Seq::empty(),
    }
}

/// Reads the text of the first child of `channel` with the tag `tag`.
pub fn read_first_child_text(nodes: &Vec<XmlNode>, channel: usize, tag: &str) -> (r: String)
    ensures
        r@ == first_child_text(doc_view(nodes@), channel as int, tag@),
{
    match first_tagged_child_exec(nodes, channel, tag) {
        Some(c) => {
            assert(doc_view(nodes@)[c as int] == nodes@[c as int]@);
            nodes[c].text_or_empty()
        },
        None => String::new(),
    }
}

} // verus!
