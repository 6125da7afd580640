use vstd::prelude::*;

use crate::feed::{
    entries_view, feed_entries, feed_layout, first_child_text, locate_channel, missing_child_message,
    read_entries, read_first_child_text, EntryView, FeedEntry,
};
use crate::news::{cursor_step, item_story, NewsItem, NewsItemList};
use crate::story::{normalised, StoryView};
use crate::time::{
    days_between, now, rounded_to_second, seconds_between, whole_days_between,
    whole_seconds_between, Timestamp, NANOS_PER_SEC,
};
use crate::opml::{opml_file_text, opml_shapes, outline_shape, plain_attribute, readable_subscriptions};
use crate::xml::{
    attribute, attribute_upto, doc_view, element_shapes, parse_xml, tagged, xml_document, AttrView, NodeView,
    XmlNode,
};
use crate::summary::utf8_len;
use crate::text::same_text;
use vstd::seq_lib::lemma_multiset_commutative;

verus! {

/// How the last synchronisation of a subscription went.
#[derive(Clone, Debug)]
pub enum Status {
    Unknown,
    Synced,
    DownloadFailed(String),
    ParseFailed(String),
}

/// A status as plain values.
pub enum StatusView {
    Unknown,
    Synced,
    DownloadFailed(Seq<char>),
    ParseFailed(Seq<char>),
}

impl View for Status {
    type V = StatusView;

    open spec fn view(&self) -> StatusView {
        match self {
            Status::Unknown => StatusView::Unknown,
            Status::Synced => StatusView::Synced,
            Status::DownloadFailed(s) => StatusView::DownloadFailed(s@),
            Status::ParseFailed(s) => StatusView::ParseFailed(s@),
        }
    }
}

impl Default for Status {
    fn default() -> (r: Status)
        ensures
            r@ == StatusView::Unknown,
    {
        Status::Unknown
    }
}

/// The message that a status carries: empty unless a step failed.
pub open spec fn status_message(s: StatusView) -> Seq<char> {
    match s {
        StatusView::Unknown => Seq::empty(),
        StatusView::Synced => Seq::empty(),
        StatusView::DownloadFailed(m) => m,
        StatusView::ParseFailed(m) => m,
    }
}

/// The sign that stands for a status: `?` before any synchronisation, a
/// check mark after a good one and a cross after a failed one.
pub open spec fn status_symbol(s: StatusView) -> Seq<char> {
    match s {
        StatusView::Unknown => "?"@,
        StatusView::Synced => "\u{2713}"@,
        StatusView::DownloadFailed(_) => "\u{2715}"@,
        StatusView::ParseFailed(_) => "\u{2715}"@,
    }
}

impl Status {
    /// The message of a failed step, or the empty text.
    pub fn get_message(&self) -> (r: String)
        ensures
            r@ == status_message(self@),
    {
        match self {
            Status::Unknown => String::new(),
            Status::Synced => String::new(),
            Status::DownloadFailed(s) => s.clone(),
            Status::ParseFailed(s) => s.clone(),
        }
    }

    /// The sign that the status is shown as.
    pub fn symbol(&self) -> (r: String)
        ensures
            r@ == status_symbol(self@),
    {
        match self {
            Status::Unknown => "?".to_string(),
            Status::Synced => "\u{2713}".to_string(),
            Status::DownloadFailed(_) => "\u{2715}".to_string(),
            Status::ParseFailed(_) => "\u{2715}".to_string(),
        }
    }

    /// A copy of the status.
    pub fn duplicate(&self) -> (r: Status)
        ensures
            r@ == self@,
    {
        match self {
            Status::Unknown => Status::Unknown,
            Status::Synced => Status::Synced,
            Status::DownloadFailed(s) => Status::DownloadFailed(s.clone()),
            Status::ParseFailed(s) => Status::ParseFailed(s.clone()),
        }
    }
}

/// What a subscription's rate of updates is computed from: the number of
/// recent items and the whole seconds from the oldest of them to the time of
/// reading. The rate, in items per hour, is `items / seconds * 3600` in
/// floating point, which the library does not hold.
#[derive(Clone, Copy, Debug, PartialEq, Eq, Structural)]
pub struct UpdateBasis {
    pub items: usize,
    pub seconds: i128,
}

/// A subscription to a feed.
#[derive(Clone, Debug)]
pub struct Subscription {
    pub name: String,
    pub url: String,
    pub status: Status,
    pub last_sync: Timestamp,
    pub update_basis: Option<UpdateBasis>,
    pub item_list: NewsItemList,
}

/// A subscription as plain values.
pub struct SubscriptionView {
    pub name: Seq<char>,
    pub url: Seq<char>,
    pub status: StatusView,
    pub last_sync: Timestamp,
    pub update_basis: Option<UpdateBasis>,
    pub items: Seq<StoryView>,
}

impl View for Subscription {
    type V = SubscriptionView;

    open spec fn view(&self) -> SubscriptionView {
        SubscriptionView {
            name: self.name@,
            url: self.url@,
            status: self.status@,
            last_sync: self.last_sync,
            update_basis: self.update_basis,
            items: self.item_list@,
        }
    }
}

/// The tag of an entry's summary: `description` in RSS, `content` in Atom.
pub open spec fn summary_tag(is_rss: bool) -> Seq<char> {
    if is_rss {
        "description"@
    } else {
        "content"@
    }
}

/// The name that a feed gives a subscription: the text of the channel's
/// first `title`, taken only where the subscription has no name yet and the
/// text is not empty.
pub open spec fn feed_name(old_name: Seq<char>, doc: Seq<crate::xml::NodeView>, channel: int) -> Seq<char> {
    let title = first_child_text(doc, channel, "title"@);
    if old_name.len() == 0 && title.len() > 0 {
        title
    } else {
        old_name
    }
}

/// An entry is recent at `now` when fewer than three whole days have passed
/// since its date (a date in the future counts as recent).
pub open spec fn is_recent(e: EntryView, now: Timestamp) -> bool {
    whole_days_between(now, e.timestamp) < 3
}

/// The recent entries, as news items of the source `source`, in order.
pub open spec fn recent_items(entries: Seq<EntryView>, source: Seq<char>, now: Timestamp) -> Seq<StoryView>
    decreases entries.len(),
{
    if entries.len() == 0 {
        Seq::empty()
    } else {
        let before = recent_items(entries.drop_last(), source, now);
        let e = entries.last();
        if is_recent(e, now) {
            before.push(item_story(source, e.title, e.url, e.timestamp, e.summary))
        } else {
            before
        }
    }
}

/// The items that a feed gives a subscription of name `name` at `now`.
pub open spec fn feed_items(
    doc: Seq<crate::xml::NodeView>,
    channel: int,
    is_rss: bool,
    name: Seq<char>,
    now: Timestamp,
) -> Seq<StoryView> {
    normalised(recent_items(feed_entries(doc, channel, is_rss, summary_tag(is_rss)), name, now))
}

/// Every item kept from a feed's entries is recent.
proof fn lemma_recent_items_recent(entries: Seq<EntryView>, source: Seq<char>, now: Timestamp)
    ensures
        forall|x: StoryView| #[trigger] recent_items(entries, source, now).contains(x) ==> whole_days_between(
            now,
            x.timestamp,
        ) < 3,
    decreases entries.len(),
{
    if entries.len() > 0 {
        lemma_recent_items_recent(entries.drop_last(), source, now);
        let before = recent_items(entries.drop_last(), source, now);
        assert forall|x: StoryView| #[trigger] recent_items(entries, source, now).contains(x) implies whole_days_between(
            now,
            x.timestamp,
        ) < 3 by {
            let r = recent_items(entries, source, now);
            let i = choose|i: int| 0 <= i < r.len() && r[i] == x;
            if i < before.len() {
                assert(before[i] == x);
                assert(before.contains(x));
            }
        }
    }
}

/// The items that a subscription takes from a feed are less than three
/// whole days old at the time of reading: older entries are left out.
pub proof fn lemma_feed_items_recent(
    doc: Seq<crate::xml::NodeView>,
    channel: int,
    is_rss: bool,
    name: Seq<char>,
    now: Timestamp,
    x: StoryView,
)
    requires
        feed_items(doc, channel, is_rss, name, now).contains(x),
    ensures
        whole_days_between(now, x.timestamp) < 3,
{
    let recent = recent_items(feed_entries(doc, channel, is_rss, summary_tag(is_rss)), name, now);
    crate::story::lemma_normalised_members(recent, x);
    lemma_recent_items_recent(feed_entries(doc, channel, is_rss, summary_tag(is_rss)), name, now);
}

/// Every item kept from a feed's entries carries the source it was given.
proof fn lemma_recent_items_source(entries: Seq<EntryView>, source: Seq<char>, now: Timestamp)
    ensures
        forall|x: StoryView| #[trigger] recent_items(entries, source, now).contains(x) ==> x.source
            == source,
    decreases entries.len(),
{
    if entries.len() > 0 {
        lemma_recent_items_source(entries.drop_last(), source, now);
        let before = recent_items(entries.drop_last(), source, now);
        assert forall|x: StoryView| #[trigger]
            recent_items(entries, source, now).contains(x) implies x.source == source by {
            let r = recent_items(entries, source, now);
            let i = choose|i: int| 0 <= i < r.len() && r[i] == x;
            if i < before.len() {
                assert(before[i] == x);
                assert(before.contains(x));
            }
        }
    }
}

/// Parsing a feed, RSS or Atom alike, names an unnamed subscription after
/// the text of its channel's first `title` where that text is not empty, and
/// leaves the name of a named one; every item it keeps has that name as its
/// source. A document without a channel leaves the subscription as it was.
pub proof fn lemma_parse_names(old: SubscriptionView, doc: Seq<crate::xml::NodeView>, now: Timestamp)
    ensures
        match feed_layout(doc) {
            Ok((channel, _)) => {
                let title = first_child_text(doc, channel, "title"@);
                let after = parse_outcome(old, doc, now);
                &&& after.0.name == if old.name.len() == 0 && title.len() > 0 {
                    title
                } else {
                    old.name
                }
                &&& after.0.url == old.url
                &&& after.1 is Ok
                &&& forall|x: StoryView|
                    after.1->Ok_0.contains(x) ==> #[trigger] x.source == after.0.name
            },
            Err(_) => parse_outcome(old, doc, now).0 == old,
        },
{
    if let Ok((channel, is_rss)) = feed_layout(doc) {
        let name = feed_name(old.name, doc, channel);
        let recent = recent_items(
            feed_entries(doc, channel, is_rss, summary_tag(is_rss)),
            name,
            now,
        );
        lemma_recent_items_source(feed_entries(doc, channel, is_rss, summary_tag(is_rss)), name, now);
        assert forall|x: StoryView| normalised(recent).contains(x) implies #[trigger] x.source == name by {
            crate::story::lemma_normalised_members(recent, x);
        }
    }
}

/// The new basis of the update rate: taken from a non-empty list, whose
/// last item is the oldest, else the old one kept.
pub open spec fn next_update_basis(
    old_basis: Option<UpdateBasis>,
    items: Seq<StoryView>,
    now: Timestamp,
) -> Option<UpdateBasis> {
    if items.len() > 0 {
        Some(
            UpdateBasis {
                items: items.len() as usize,
                seconds: whole_seconds_between(now, items.last().timestamp) as i128,
            },
        )
    } else {
        old_basis
    }
}

/// What parsing a feed document at `now` does: on a layout error the error's
/// message and nothing changed; else the items, with the name and the update
/// basis changed as the feed gives them.
pub open spec fn parse_outcome(
    old: SubscriptionView,
    doc: Seq<crate::xml::NodeView>,
    now: Timestamp,
) -> (SubscriptionView, Result<Seq<StoryView>, Seq<char>>) {
    match feed_layout(doc) {
        Err(e) => (old, Err(e)),
        Ok((channel, is_rss)) => {
            let name = feed_name(old.name, doc, channel);
            let items = feed_items(doc, channel, is_rss, name, now);
            (
                SubscriptionView {
                    name,
                    update_basis: next_update_basis(old.update_basis, items, now),
                    ..old
                },
                Ok(items),
            )
        },
    }
}

/// What parsing a feed's text at `now` does: on an XML error its message and
/// nothing changed, else as for the document.
pub open spec fn parse_text_outcome(old: SubscriptionView, text: Seq<char>, now: Timestamp) -> (
    SubscriptionView,
    Result<Seq<StoryView>, Seq<char>>,
) {
    match xml_document(text) {
        Err(e) => (old, Err(e)),
        Ok(doc) => parse_outcome(old, doc, now),
    }
}

/// The view of a parse result.
pub open spec fn list_result_view(r: Result<NewsItemList, String>) -> Result<Seq<StoryView>, Seq<char>> {
    match r {
        Ok(l) => Ok(l@),
        Err(e) => Err(e@),
    }
}

/// What synchronising at `now` with the outcome of the download does: the
/// item list is emptied; a failed download sets `DownloadFailed`, a failed
/// parse `ParseFailed`, each with the error's message; a good one sets `Synced`,
/// the time of synchronisation (`now` rounded to the second) and the items.
pub open spec fn sync_outcome(
    old: SubscriptionView,
    downloaded: Result<Seq<char>, Seq<char>>,
    now: Timestamp,
) -> SubscriptionView {
    let cleared = SubscriptionView { items: Seq::empty(), ..old };
    match downloaded {
        Err(e) => SubscriptionView { status: StatusView::DownloadFailed(e), ..cleared },
        Ok(text) => {
            let (after, r) = parse_text_outcome(cleared, text, now);
            match r {
                Err(e) => SubscriptionView { status: StatusView::ParseFailed(e), ..after },
                Ok(items) => SubscriptionView {
                    status: StatusView::Synced,
                    last_sync: rounded_to_second(now),
                    items,
                    ..after
                },
            }
        },
    }
}

/// Whatever the download gave, synchronising keeps the subscription's URL;
/// a subscription holds items only after a good synchronisation, and then
/// only items less than three whole days old at the time of reading.
pub proof fn lemma_sync_outcome(
    old: SubscriptionView,
    downloaded: Result<Seq<char>, Seq<char>>,
    now: Timestamp,
)
    ensures
        sync_outcome(old, downloaded, now).url == old.url,
        sync_outcome(old, downloaded, now).status != StatusView::Synced ==> sync_outcome(
            old,
            downloaded,
            now,
        ).items.len() == 0,
        forall|x: StoryView| #[trigger]
            sync_outcome(old, downloaded, now).items.contains(x) ==> whole_days_between(
                now,
                x.timestamp,
            ) < 3,
{
    if let Ok(text) = downloaded {
        if let Ok(doc) = xml_document(text) {
            if let Ok((channel, is_rss)) = feed_layout(doc) {
                let name = feed_name(old.name, doc, channel);
                assert forall|x: StoryView| #[trigger]
                    feed_items(doc, channel, is_rss, name, now).contains(x) implies whole_days_between(
                    now,
                    x.timestamp,
                ) < 3 by {
                    lemma_feed_items_recent(doc, channel, is_rss, name, now, x);
                }
            }
        }
    }
}

/// The view of a download's outcome.
pub open spec fn download_view(r: Result<String, String>) -> Result<Seq<char>, Seq<char>> {
    match r {
        Ok(t) => Ok(t@),
        Err(e) => Err(e@),
    }
}

impl Subscription {
    /// A subscription to the feed at `url`, unnamed and never synchronised;
    /// none for an empty URL.
    pub fn from_url(url: &str) -> (r: Option<Subscription>)
        ensures
            url@.len() == 0 ==> r is None,
            url@.len() > 0 ==> (r matches Some(s) && s@ == (SubscriptionView {
                name: Seq::empty(),
                url: url@,
                status: StatusView::Unknown,
                last_sync: Timestamp { secs: 0, nanos: 0 },
                update_basis: None,
                items: Seq::empty(),
            })),
    {
        if !url.is_empty() {
            Some(
                Subscription {
                    name: String::new(),
                    url: url.to_string(),
                    status: Status::default(),
                    last_sync: Timestamp::epoch(),
                    update_basis: None,
                    item_list: NewsItemList::new(),
                },
            )
        } else {
            None
        }
    }

    /// Names the subscription, unless the name is empty.
    pub fn set_name(&mut self, name: &str)
        ensures
            final(self)@ == (SubscriptionView {
                name: if name@.len() > 0 { name@ } else { old(self)@.name },
                ..old(self)@
            }),
    {
        if !name.is_empty() {
            self.name = name.to_string();
        }
    }

    /// A copy of the subscription.
    pub fn duplicate(&self) -> (r: Subscription)
        ensures
            r@ == self@,
    {
        Subscription {
            name: self.name.clone(),
            url: self.url.clone(),
            status: self.status.duplicate(),
            last_sync: self.last_sync,
            update_basis: self.update_basis,
            item_list: self.item_list.duplicate(),
        }
    }

    /// Reads a parsed feed document at `now`: names an unnamed subscription
    /// after the feed's title, keeps the entries less than three days old as
    /// items, normalised, and takes the update basis from them.
    pub fn parse_document(&mut self, nodes: &Vec<XmlNode>, now: Timestamp) -> (r: Result<
        NewsItemList,
        String,
    >)
        ensures
            (final(self)@, list_result_view(r)) == parse_outcome(old(self)@, doc_view(nodes@), now),
    {
        let (channel, is_rss) = match locate_channel(nodes) {
            Ok(found) => found,
            Err(e) => {
                return Err(e);
            },
        };
        if self.name.as_str().is_empty() {
            let title = read_first_child_text(nodes, channel, "title");
            self.set_name(title.as_str());
        }
        let summary: &str = if is_rss { "description" } else { "content" };
        let entries = read_entries(nodes, channel, is_rss, summary);
        let mut list = NewsItemList::new();
        let ghost es = entries_view(entries@);
        let ghost name = self.name@;
        let mut i: usize = 0;
        while i < entries.len()
            invariant
                i <= entries.len(),
                es == entries_view(entries@),
                name == self.name@,
                list@ == recent_items(es.take(i as int), name, now),
            decreases entries.len() - i,
        {
            let e = &entries[i];
            assert(es[i as int] == e@);
            assert(es.take(i + 1).drop_last() =~= es.take(i as int));
            if days_between(now, e.timestamp) < 3 {
                let item = NewsItem::new(
                    self.name.as_str(),
                    e.title.as_str(),
                    e.url.as_str(),
                    &e.timestamp,
                    e.summary.as_str(),
                );
                list.push(item);
            }
            i = i + 1;
        }
        assert(es.take(entries.len() as int) =~= es);
        list.normalise();
        if list.len() > 0 {
            let oldest = list.last();
            let seconds = match oldest {
                Some(item) => seconds_between(now, item.timestamp),
                None => 0,
            };
            self.update_basis = Some(UpdateBasis { items: list.len(), seconds });
        }
        Ok(list)
    }

    /// Parses a feed's text at `now`, as `parse_document` does with the
    /// document that roxmltree makes of it.
    pub fn parse_at(&mut self, rss: &str, now: Timestamp) -> (r: Result<NewsItemList, String>)
        ensures
            (final(self)@, list_result_view(r)) == parse_text_outcome(old(self)@, rss@, now),
            xml_document(rss@) is Ok ==> list_result_view(r) != Err::<Seq<StoryView>, Seq<char>>(
                missing_child_message(),
            ),
    {
        match parse_xml(rss) {
            Ok(nodes) => {
                proof {
                    crate::feed::lemma_rooted_layout(doc_view(nodes@));
                }
                self.parse_document(&nodes, now)
            },
            Err(e) => Err(e),
        }
    }

    /// Parses a feed's text at the time that the clock gives.
    pub fn parse(&mut self, rss: &str) -> (r: Result<NewsItemList, String>)
        ensures
            exists|t: Timestamp|
                t.nanos < NANOS_PER_SEC && 0 <= t.secs < 9_000_000_000_000 && (final(self)@, list_result_view(r))
                    == parse_text_outcome(old(self)@, rss@, t),
            xml_document(rss@) is Ok ==> list_result_view(r) != Err::<Seq<StoryView>, Seq<char>>(
                missing_child_message(),
            ),
    {
        let t = now();
        self.parse_at(rss, t)
    }

    /// Synchronises the subscription at `now` with the outcome of downloading
    /// its feed.
    pub fn sync_at(&mut self, downloaded: Result<String, String>, now: Timestamp)
        requires
            now.nanos < NANOS_PER_SEC,
            now.secs < i64::MAX,
        ensures
            final(self)@ == sync_outcome(old(self)@, download_view(downloaded), now),
    {
        self.item_list = NewsItemList::new();
        match downloaded {
            Ok(text) => {
                match self.parse_at(text.as_str(), now) {
                    Ok(parsed) => {
                        self.status = Status::Synced;
                        self.last_sync = now.round_to_second();
                        self.item_list = parsed;
                    },
                    Err(e) => {
                        self.status = Status::ParseFailed(e);
                    },
                }
            },
            Err(e) => {
                self.status = Status::DownloadFailed(e);
            },
        }
    }

    /// Synchronises the subscription, at the time that the clock gives, with
    /// the outcome of downloading its feed.
    pub fn sync_with(&mut self, downloaded: Result<String, String>)
        ensures
            exists|t: Timestamp|
                t.nanos < NANOS_PER_SEC && 0 <= t.secs < 9_000_000_000_000 && final(self)@ == sync_outcome(
                    old(self)@,
                    download_view(downloaded),
                    t,
                ),
    {
        let t = now();
        self.sync_at(downloaded, t);
    }
}

/// The subscription that an OPML `outline` element describes: one to its
/// `xmlUrl`, named by its `text`; none without a non-empty `xmlUrl`.
pub open spec fn outline_subscription(node: NodeView) -> Option<SubscriptionView> {
    match attribute(node, "xmlUrl"@) {
        Some(url) => if url.len() > 0 {
            Some(
                SubscriptionView {
                    name: match attribute(node, "text"@) {
                        Some(t) => t,
                        None => Seq::empty(),
                    },
                    url,
                    status: StatusView::Unknown,
                    last_sync: Timestamp { secs: 0, nanos: 0 },
                    update_basis: None,
                    items: Seq::empty(),
                },
            )
        } else {
            None
        },
        None => None,
    }
}

/// The subscriptions that the `outline` elements among the first `n` nodes
/// describe, in document order.
pub open spec fn outlines_upto(doc: Seq<NodeView>, n: int) -> Seq<SubscriptionView>
    decreases n,
{
    if n <= 0 {
        Seq::empty()
    } else {
        let before = outlines_upto(doc, n - 1);
        if tagged(doc[n - 1], "outline"@) {
            match outline_subscription(doc[n - 1]) {
                Some(s) => before.push(s),
                None => before,
            }
        } else {
            before
        }
    }
}

/// The subscriptions that an OPML document lists.
pub open spec fn opml_subscriptions(doc: Seq<NodeView>) -> Seq<SubscriptionView> {
    outlines_upto(doc, doc.len() as int)
}

/// An element, known by its local name and attributes, as a node.
pub open spec fn shape_node(shape: (Seq<char>, Seq<AttrView>)) -> NodeView {
    NodeView { parent: None, is_element: true, name: shape.0, text: None, attributes: shape.1 }
}

/// The subscriptions that the `outline` elements among a list of elements
/// describe, in order.
pub open spec fn shape_outlines(shapes: Seq<(Seq<char>, Seq<AttrView>)>) -> Seq<SubscriptionView>
    decreases shapes.len(),
{
    if shapes.len() == 0 {
        Seq::empty()
    } else {
        let before = shape_outlines(shapes.drop_last());
        if shapes.last().0 == "outline"@ {
            match outline_subscription(shape_node(shapes.last())) {
                Some(s) => before.push(s),
                None => before,
            }
        } else {
            before
        }
    }
}

/// Which subscriptions a document lists depends only on its elements' names
/// and attributes.
proof fn lemma_outlines_of_shapes(doc: Seq<NodeView>, n: int)
    requires
        0 <= n <= doc.len(),
    ensures
        outlines_upto(doc, n) == shape_outlines(element_shapes(doc.take(n))),
    decreases n,
{
    if n == 0 {
        assert(doc.take(0) =~= Seq::<NodeView>::empty());
    } else {
        lemma_outlines_of_shapes(doc, n - 1);
        assert(doc.take(n).drop_last() =~= doc.take(n - 1));
        let node = doc[n - 1];
        if node.is_element {
            let shapes = element_shapes(doc.take(n));
            assert(shapes.drop_last() == element_shapes(doc.take(n - 1)));
            assert(shape_node(shapes.last()).attributes == node.attributes);
        }
    }
}

/// A subscription as loading it from a file gives it: its name and URL,
/// never synchronised.
pub open spec fn unsynchronised(s: SubscriptionView) -> SubscriptionView {
    SubscriptionView {
        name: s.name,
        url: s.url,
        status: StatusView::Unknown,
        last_sync: Timestamp { secs: 0, nanos: 0 },
        update_basis: None,
        items: Seq::empty(),
    }
}

/// Reading the outlines of the OPML elements of a list of subscriptions
/// with URLs gives back their names and URLs, in order.
proof fn lemma_opml_shapes_outlines(subs: Seq<SubscriptionView>)
    requires
        forall|i: int| 0 <= i < subs.len() ==> (#[trigger] subs[i]).url.len() > 0,
    ensures
        shape_outlines(opml_shapes(subs)) == subs.map_values(|s: SubscriptionView| unsynchronised(s)),
    decreases subs.len(),
{
    reveal_strlit("outline");
    reveal_strlit("opml");
    reveal_strlit("head");
    reveal_strlit("title");
    reveal_strlit("body");
    reveal_strlit("text");
    reveal_strlit("type");
    reveal_strlit("xmlUrl");
    if subs.len() == 0 {
        let shapes = opml_shapes(subs);
        assert(shapes.len() == 4);
        assert(shapes.drop_last().drop_last().drop_last().drop_last().len() == 0);
        assert(shape_outlines(shapes) == Seq::<SubscriptionView>::empty()) by {
            let s1 = shapes.drop_last();
            let s2 = s1.drop_last();
            let s3 = s2.drop_last();
            let s4 = s3.drop_last();
            assert("body"@.len() == 4 && "title"@.len() == 5 && "head"@.len() == 4 && "opml"@.len()
                == 4 && "outline"@.len() == 7);
            assert(shape_outlines(s4) == Seq::<SubscriptionView>::empty());
            assert(s3.last().0 == "opml"@);
            assert(shape_outlines(s3) == Seq::<SubscriptionView>::empty());
            assert(s2.last().0 == "head"@);
            assert(shape_outlines(s2) == Seq::<SubscriptionView>::empty());
            assert(s1.last().0 == "title"@);
            assert(shape_outlines(s1) == Seq::<SubscriptionView>::empty());
            assert(shapes.last().0 == "body"@);
        }
        assert(subs.map_values(|s: SubscriptionView| unsynchronised(s)) =~= Seq::<SubscriptionView>::empty());
    } else {
        let prev = subs.drop_last();
        lemma_opml_shapes_outlines(prev);
        let x = subs.last();
        assert(opml_shapes(subs).drop_last() =~= opml_shapes(prev));
        assert(opml_shapes(subs).last() == outline_shape(x));
        let node = shape_node(outline_shape(x));
        let attrs = node.attributes;
        assert(attrs[0] == plain_attribute("text"@, x.name));
        assert(attrs[1] == plain_attribute("type"@, "rss"@));
        assert(attrs[2] == plain_attribute("xmlUrl"@, x.url));
        assert("text"@.len() == 4 && "type"@.len() == 4 && "xmlUrl"@.len() == 6);
        assert(attribute_upto(attrs, "xmlUrl"@, 0) is None);
        assert(attribute_upto(attrs, "xmlUrl"@, 1) is None);
        assert(attribute_upto(attrs, "xmlUrl"@, 2) is None);
        assert(attribute_upto(attrs, "xmlUrl"@, 3) == Some(x.url));
        assert(attribute(node, "xmlUrl"@) == Some(x.url));
        assert(attribute(node, "text"@) == Some(x.name)) by {
            assert(attribute_upto(attrs, "text"@, 0) is None);
            assert(attribute_upto(attrs, "text"@, 1) == Some(x.name));
            assert(attribute_upto(attrs, "text"@, 2) == Some(x.name));
            assert(attribute_upto(attrs, "text"@, 3) == Some(x.name));
        }
        assert(subs[subs.len() - 1] == x);
        assert(subs.map_values(|s: SubscriptionView| unsynchronised(s)) =~= prev.map_values(
            |s: SubscriptionView| unsynchronised(s),
        ).push(unsynchronised(x)));
    }
}

/// A set of subscriptions, and the name of the OPML file that keeps it.
#[derive(Clone, Debug)]
pub struct SubscriptionSet {
    pub opml_file_name: String,
    pub subscriptions: Vec<Subscription>,
}

/// The views of a list of subscriptions.
pub open spec fn subscriptions_view(s: Seq<Subscription>) -> Seq<SubscriptionView> {
    s.map_values(|x: Subscription| x@)
}

/// All items of the subscriptions, one subscription after the other.
pub open spec fn all_items(s: Seq<SubscriptionView>) -> Seq<StoryView>
    decreases s.len(),
{
    if s.len() == 0 {
        Seq::empty()
    } else {
        all_items(s.drop_last()) + s.last().items
    }
}

/// Removing a subscription from a list removes its items from all items.
proof fn lemma_all_items_remove(b: Seq<SubscriptionView>, j: int)
    requires
        0 <= j < b.len(),
    ensures
        all_items(b).to_multiset() == all_items(b.remove(j)).to_multiset().add(
            b[j].items.to_multiset(),
        ),
    decreases b.len(),
{
    broadcast use vstd::multiset::group_multiset_axioms;

    lemma_multiset_commutative(all_items(b.drop_last()), b.last().items);
    if j == b.len() - 1 {
        assert(b.remove(j) =~= b.drop_last());
    } else {
        let c = b.remove(j);
        lemma_all_items_remove(b.drop_last(), j);
        assert(c.drop_last() =~= b.drop_last().remove(j));
        assert(c.last() == b.last());
        assert(b.drop_last()[j] == b[j]);
        lemma_multiset_commutative(all_items(c.drop_last()), c.last().items);
        assert(all_items(b).to_multiset() =~= all_items(c).to_multiset().add(
            b[j].items.to_multiset(),
        ));
    }
}

/// Lists of the same subscriptions, up to order, hold the same items, up to
/// order.
proof fn lemma_all_items_multiset(a: Seq<SubscriptionView>, b: Seq<SubscriptionView>)
    requires
        a.to_multiset() == b.to_multiset(),
    ensures
        all_items(a).to_multiset() == all_items(b).to_multiset(),
    decreases a.len(),
{
    broadcast use vstd::multiset::group_multiset_axioms;
    broadcast use vstd::seq_lib::group_to_multiset_ensures;

    if a.len() == 0 {
        assert(a.to_multiset().len() == 0);
        assert(b.to_multiset().len() == b.len());
        assert(a =~= b);
    } else {
        let x = a.last();
        let rest = a.drop_last();
        assert(a =~= rest.push(x));
        assert(a.to_multiset().count(x) > 0);
        assert(b.contains(x));
        let j = choose|j: int| 0 <= j < b.len() && b[j] == x;
        assert(b.remove(j).to_multiset() =~= rest.to_multiset());
        lemma_all_items_multiset(rest, b.remove(j));
        lemma_all_items_remove(b, j);
        lemma_multiset_commutative(all_items(rest), x.items);
    }
}

/// The news of a set depends only on which subscriptions it holds, not on
/// their order: sets of the same subscriptions in any order give the same
/// items in the same order.
pub proof fn lemma_items_independent_of_order(a: Seq<SubscriptionView>, b: Seq<SubscriptionView>)
    requires
        a.to_multiset() == b.to_multiset(),
    ensures
        normalised(all_items(a)) == normalised(all_items(b)),
{
    lemma_all_items_multiset(a, b);
    crate::story::lemma_normalised_same_multiset(all_items(a), all_items(b));
}

/// A set of subscriptions as plain values.
pub struct SubscriptionSetView {
    pub opml_file_name: Seq<char>,
    pub subscriptions: Seq<SubscriptionView>,
}

impl View for SubscriptionSet {
    type V = SubscriptionSetView;

    open spec fn view(&self) -> SubscriptionSetView {
        SubscriptionSetView {
            opml_file_name: self.opml_file_name@,
            subscriptions: subscriptions_view(self.subscriptions@),
        }
    }
}

impl SubscriptionSet {
    /// An empty set, kept in `kiss_rss.opml`.
    pub fn new() -> (r: SubscriptionSet)
        ensures
            r@.opml_file_name == "kiss_rss.opml"@,
            r@.subscriptions == Seq::<SubscriptionView>::empty(),
    {
        let r = SubscriptionSet { opml_file_name: "kiss_rss.opml".to_string(), subscriptions: Vec::new() };
        assert(r@.subscriptions =~= Seq::<SubscriptionView>::empty());
        r
    }

    /// The number of subscriptions.
    pub fn len(&self) -> (r: usize)
        ensures
            r == self@.subscriptions.len(),
    {
        self.subscriptions.len()
    }

    /// Whether there is no subscription.
    pub fn is_empty(&self) -> (r: bool)
        ensures
            r == (self@.subscriptions.len() == 0),
    {
        self.subscriptions.len() == 0
    }

    /// Adds a copy of the subscription at the end.
    pub fn add(&mut self, subscription: &Subscription)
        ensures
            final(self)@.subscriptions == old(self)@.subscriptions.push(subscription@),
            final(self)@.opml_file_name == old(self)@.opml_file_name,
    {
        let ghost before = self@.subscriptions;
        self.subscriptions.push(subscription.duplicate());
        assert(self@.subscriptions =~= before.push(subscription@));
    }

    /// Adds a subscription to the feed at `url`, unless the URL is empty.
    pub fn add_from_url(&mut self, url: &str)
        ensures
            final(self)@.opml_file_name == old(self)@.opml_file_name,
            url@.len() == 0 ==> final(self)@.subscriptions == old(self)@.subscriptions,
            url@.len() > 0 ==> final(self)@.subscriptions == old(self)@.subscriptions.push(
                SubscriptionView {
                    name: Seq::empty(),
                    url: url@,
                    status: StatusView::Unknown,
                    last_sync: Timestamp { secs: 0, nanos: 0 },
                    update_basis: None,
                    items: Seq::empty(),
                },
            ),
    {
        if let Some(subscription) = Subscription::from_url(url) {
            self.add(&subscription);
        }
    }

    /// Replaces the subscriptions by those that a parsed OPML document lists.
    pub fn load_document(&mut self, nodes: &Vec<XmlNode>)
        ensures
            final(self)@.opml_file_name == old(self)@.opml_file_name,
            final(self)@.subscriptions == opml_subscriptions(doc_view(nodes@)),
    {
        let ghost doc = doc_view(nodes@);
        self.subscriptions = Vec::new();
        assert(self@.subscriptions =~= outlines_upto(doc, 0));
        let mut j: usize = 0;
        while j < nodes.len()
            invariant
                j <= nodes.len(),
                doc == doc_view(nodes@),
                self@.opml_file_name == old(self)@.opml_file_name,
                self@.subscriptions == outlines_upto(doc, j as int),
            decreases nodes.len() - j,
        {
            let node = &nodes[j];
            assert(doc[j as int] == node@);
            if node.has_tag_name("outline") {
                if let Some(url) = node.attribute("xmlUrl") {
                    if !url.as_str().is_empty() {
                        if let Some(mut subscription) = Subscription::from_url(url.as_str()) {
                            let name = match node.attribute("text") {
                                Some(t) => t,
                                None => String::new(),
                            };
                            assert(name@.len() == 0 ==> name@ =~= Seq::<char>::empty());
                            subscription.set_name(name.as_str());
                            self.add(&subscription);
                        }
                    }
                }
            }
            j = j + 1;
        }
    }

    /// Replaces the subscriptions by those that an OPML text lists; on an XML
    /// error, returns its message and leaves the set as it was.
    pub fn load_text(&mut self, opml_text: &str) -> (r: Result<(), String>)
        ensures
            match xml_document(opml_text@) {
                Ok(doc) => r is Ok && final(self)@ == (SubscriptionSetView {
                    opml_file_name: old(self)@.opml_file_name,
                    subscriptions: opml_subscriptions(doc),
                }),
                Err(e) => r matches Err(m) && m@ == e && final(self)@ == old(self)@,
            },
            forall|subs: Seq<SubscriptionView>|
                #[trigger] opml_file_text(subs) == opml_text@ && readable_subscriptions(subs) && utf8_len(
                    opml_text@,
                ) <= u32::MAX && (forall|i: int|
                    0 <= i < subs.len() ==> (#[trigger] subs[i]).url.len() > 0) ==> r is Ok
                    && final(self)@.subscriptions == subs.map_values(
                    |s: SubscriptionView| unsynchronised(s),
                ),
    {
        match parse_xml(opml_text) {
            Ok(nodes) => {
                self.load_document(&nodes);
                proof {
                    let doc = doc_view(nodes@);
                    assert forall|subs: Seq<SubscriptionView>|
                        #[trigger] opml_file_text(subs) == opml_text@ && readable_subscriptions(subs)
                            && utf8_len(opml_text@) <= u32::MAX && (forall|i: int| 0 <= i < subs.len() ==> (#[trigger] subs[i]).url.len() > 0)
                        implies self@.subscriptions == subs.map_values(
                        |s: SubscriptionView| unsynchronised(s),
                    ) by {
                        lemma_outlines_of_shapes(doc, doc.len() as int);
                        assert(doc.take(doc.len() as int) =~= doc);
                        lemma_opml_shapes_outlines(subs);
                    }
                }
                Ok(())
            },
            Err(e) => Err(e),
        }
    }

    /// The positions of the subscriptions to the feed at `url`: those that
    /// `sync` synchronises, in order.
    pub fn positions_of(&self, url: &str) -> (r: Vec<usize>)
        ensures
            forall|k: int| 0 <= k < r.len() ==> #[trigger] r@[k] < self@.subscriptions.len(),
            forall|k: int| 0 <= k < r.len() ==> self@.subscriptions[#[trigger] r@[k] as int].url == url@,
            forall|a: int, k: int| 0 <= a < k < r.len() ==> r@[a] < r@[k],
            forall|p: int|
                0 <= p < self@.subscriptions.len() && #[trigger] self@.subscriptions[p].url == url@
                    ==> r@.contains(p as usize),
    {
        let mut r: Vec<usize> = Vec::new();
        let mut i: usize = 0;
        let ghost subs = self@.subscriptions;
        while i < self.subscriptions.len()
            invariant
                i <= self.subscriptions.len(),
                subs == self@.subscriptions,
                forall|k: int| 0 <= k < r.len() ==> #[trigger] r@[k] < i,
                forall|k: int| 0 <= k < r.len() ==> subs[#[trigger] r@[k] as int].url == url@,
                forall|a: int, k: int| 0 <= a < k < r.len() ==> r@[a] < r@[k],
                forall|p: int|
                    0 <= p < i && #[trigger] subs[p].url == url@ ==> r@.contains(p as usize),
            decreases self.subscriptions.len() - i,
        {
            assert(subs[i as int] == self.subscriptions@[i as int]@);
            let ghost old_r = r@;
            if same_text(self.subscriptions[i].url.as_str(), url) {
                r.push(i);
                assert(forall|k: int| 0 <= k < old_r.len() ==> r@[k] == old_r[k]);
                assert(r@[r.len() - 1] == i);
                assert forall|p: int| 0 <= p < i + 1 && #[trigger] subs[p].url == url@ implies r@.contains(
                    p as usize,
                ) by {
                    if p < i {
                        assert(old_r.contains(p as usize));
                        let k = choose|k: int| 0 <= k < old_r.len() && old_r[k] == p as usize;
                        assert(r@[k] == p as usize);
                    } else {
                        assert(r@[r.len() - 1] == p as usize);
                    }
                }
            }
            i = i + 1;
        }
        r
    }

    /// Synchronises the subscription at position `i`, at `now`, with the
    /// outcome of downloading its feed.
    pub fn sync_one_at(&mut self, i: usize, downloaded: Result<String, String>, now: Timestamp)
        requires
            i < old(self)@.subscriptions.len(),
            now.nanos < NANOS_PER_SEC,
            now.secs < i64::MAX,
        ensures
            final(self)@ == (SubscriptionSetView {
                subscriptions: old(self)@.subscriptions.update(
                    i as int,
                    sync_outcome(old(self)@.subscriptions[i as int], download_view(downloaded), now),
                ),
                ..old(self)@
            }),
    {
        let ghost before = self@.subscriptions;
        let mut s = self.subscriptions[i].duplicate();
        s.sync_at(downloaded, now);
        self.subscriptions.set(i, s);
        assert(self@.subscriptions =~= before.update(i as int, s@));
    }

    /// Synchronises the subscription at position `i`, at the time that the
    /// clock gives, with the outcome of downloading its feed.
    pub fn sync_one(&mut self, i: usize, downloaded: Result<String, String>)
        requires
            i < old(self)@.subscriptions.len(),
        ensures
            exists|t: Timestamp|
                t.nanos < NANOS_PER_SEC && 0 <= t.secs < 9_000_000_000_000 && final(self)@ == (SubscriptionSetView {
                    subscriptions: old(self)@.subscriptions.update(
                        i as int,
                        sync_outcome(old(self)@.subscriptions[i as int], download_view(downloaded), t),
                    ),
                    ..old(self)@
                }),
    {
        let t = now();
        self.sync_one_at(i, downloaded, t);
    }

    /// The items of all subscriptions together, normalised.
    pub fn get_items(&self) -> (r: NewsItemList)
        ensures
            r@ == normalised(all_items(self@.subscriptions)),
    {
        let mut item_list = NewsItemList::new();
        let ghost subs = self@.subscriptions;
        let mut i: usize = 0;
        while i < self.subscriptions.len()
            invariant
                i <= self.subscriptions.len(),
                subs == self@.subscriptions,
                item_list@ == all_items(subs.take(i as int)),
            decreases self.subscriptions.len() - i,
        {
            assert(subs[i as int] == self.subscriptions@[i as int]@);
            assert(subs.take(i + 1).drop_last() =~= subs.take(i as int));
            item_list.extend(&self.subscriptions[i].item_list);
            i = i + 1;
        }
        assert(subs.take(self.subscriptions.len() as int) =~= subs);
        item_list.normalise();
        item_list
    }

    /// A cursor over the subscriptions, from the first.
    pub fn into_iter(&self) -> (r: SubscriptionSetIter<'_>)
        ensures
            r.list() == self@.subscriptions,
            r.position() == 0,
    {
        SubscriptionSetIter { subcription_set: self, i: 0 }
    }
}

/// A cursor over the subscriptions of a set.
pub struct SubscriptionSetIter<'a> {
    subcription_set: &'a SubscriptionSet,
    i: usize,
}

impl<'a> SubscriptionSetIter<'a> {
    /// The subscriptions of the set.
    pub closed spec fn list(&self) -> Seq<SubscriptionView> {
        self.subcription_set@.subscriptions
    }

    /// How many subscriptions the cursor has passed.
    pub closed spec fn position(&self) -> nat {
        self.i as nat
    }

    /// The next subscription, if any, and the cursor moves past it.
    pub fn next(&mut self) -> (r: Option<&'a Subscription>)
        ensures
            final(self).list() == old(self).list(),
            old(self).position() < old(self).list().len() ==> r is Some && r->0@ == old(
                self,
            ).list()[old(self).position() as int] && final(self).position() == old(self).position()
                + 1,
            old(self).position() >= old(self).list().len() ==> r is None && final(self).position()
                == old(self).position(),
            final(self).position() == cursor_step(old(self).list(), old(self).position()).1,
            cursor_step(old(self).list(), old(self).position()).0 == match r {
                Some(x) => Some(x@),
                None => None,
            },
    {
        if self.i >= self.subcription_set.subscriptions.len() {
            None
        } else {
            self.i = self.i + 1;
            assert(self.subcription_set@.subscriptions[self.i - 1] == self.subcription_set.subscriptions@[self.i - 1]@);
            Some(&self.subcription_set.subscriptions[self.i - 1])
        }
    }
}

} // verus!
