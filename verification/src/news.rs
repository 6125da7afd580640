use vstd::prelude::*;

use crate::story::{
    lemma_normalised_members, normalise_stories, normalised, stories_view, Story, StoryView,
};
use crate::time::Timestamp;

verus! {

/// A news item: the name of its source, its title, URL, date and summary.
/// Items are equal when their URLs are; they are ordered field by field.
#[derive(PartialOrd, Ord, Clone, Debug)]
pub struct NewsItem {
    pub source: String,
    pub title: String,
    pub url: String,
    pub timestamp: Timestamp,
    pub summary: String,
}

/// The story that an item is, with an empty icon.
pub open spec fn item_story(
    source: Seq<char>,
    title: Seq<char>,
    url: Seq<char>,
    timestamp: Timestamp,
    summary: Seq<char>,
) -> StoryView {
    StoryView { source, icon: Seq::empty(), title, url, timestamp, summary }
}

impl View for NewsItem {
    type V = StoryView;

    open spec fn view(&self) -> StoryView {
        item_story(self.source@, self.title@, self.url@, self.timestamp, self.summary@)
    }
}

impl PartialEq for NewsItem {
    fn eq(&self, other: &Self) -> (r: bool) {
        self.url == other.url
    }
}

impl vstd::std_specs::cmp::PartialEqSpecImpl for NewsItem {
    open spec fn obeys_eq_spec() -> bool {
        true
    }

    open spec fn eq_spec(&self, other: &Self) -> bool {
        self.url@ == other.url@
    }
}

impl Eq for NewsItem {

}

impl NewsItem {
    /// A news item with the given fields.
    pub fn new(source: &str, title: &str, url: &str, timestamp: &Timestamp, summary: &str) -> (r:
        NewsItem)
        ensures
            r@ == item_story(source@, title@, url@, *timestamp, summary@),
    {
        NewsItem {
            source: source.to_string(),
            title: title.to_string(),
            url: url.to_string(),
            timestamp: *timestamp,
            summary: summary.to_string(),
        }
    }

    /// A copy of the item.
    pub fn duplicate(&self) -> (r: NewsItem)
        ensures
            r@ == self@,
    {
        NewsItem {
            source: self.source.clone(),
            title: self.title.clone(),
            url: self.url.clone(),
            timestamp: self.timestamp,
            summary: self.summary.clone(),
        }
    }

    /// The item as a story with an empty icon.
    pub fn to_story(&self) -> (r: Story)
        ensures
            r@ == self@,
    {
        Story {
            source: self.source.clone(),
            icon: String::new(),
            title: self.title.clone(),
            url: self.url.clone(),
            timestamp: self.timestamp,
            summary: self.summary.clone(),
        }
    }

    /// The item that a story without an icon is.
    pub fn from_story(s: Story) -> (r: NewsItem)
        requires
            s.icon@ == Seq::<char>::empty(),
        ensures
            r@ == s@,
    {
        NewsItem {
            source: s.source,
            title: s.title,
            url: s.url,
            timestamp: s.timestamp,
            summary: s.summary,
        }
    }
}

/// The views of a list of items.
pub open spec fn items_view(items: Seq<NewsItem>) -> Seq<StoryView> {
    items.map_values(|x: NewsItem| x@)
}

/// Turns items into stories.
pub fn items_to_stories(items: &Vec<NewsItem>) -> (r: Vec<Story>)
    ensures
        stories_view(r@) == items_view(items@),
{
    let mut out: Vec<Story> = Vec::new();
    let mut i: usize = 0;
    while i < items.len()
        invariant
            i <= items.len(),
            stories_view(out@) == items_view(items@).take(i as int),
        decreases items.len() - i,
    {
        let ghost before = stories_view(out@);
        let s = items[i].to_story();
        assert(items_view(items@)[i as int] == items@[i as int]@);
        out.push(s);
        assert(stories_view(out@) =~= before.push(items_view(items@)[i as int]));
        assert(stories_view(out@) =~= items_view(items@).take(i + 1));
        i = i + 1;
    }
    assert(items_view(items@).take(items.len() as int) =~= items_view(items@));
    out
}

/// Turns stories without icons into items.
pub fn stories_to_items(stories: Vec<Story>) -> (r: Vec<NewsItem>)
    requires
        forall|i: int| 0 <= i < stories.len() ==> (#[trigger] stories@[i]).icon@ == Seq::<
            char,
        >::empty(),
    ensures
        items_view(r@) == stories_view(stories@),
{
    let ghost all = stories_view(stories@);
    let mut rest = stories;
    let mut rev: Vec<NewsItem> = Vec::new();
    while rest.len() > 0
        invariant
            rest.len() <= all.len(),
            stories_view(rest@) == all.take(rest.len() as int),
            forall|i: int| 0 <= i < rest.len() ==> (#[trigger] rest@[i]).icon@ == Seq::<char>::empty(),
            rev.len() + rest.len() == all.len(),
            forall|k: int| 0 <= k < rev.len() ==> #[trigger] rev@[k]@ == all[all.len() - 1 - k],
        decreases rest.len(),
    {
        let ghost before = rest@;
        let s = rest.pop().unwrap();
        assert(stories_view(before)[rest.len() as int] == before[rest.len() as int]@);
        assert(all.take(before.len() as int)[rest.len() as int] == all[rest.len() as int]);
        assert(s@ == all[rest.len() as int]);
        assert(stories_view(rest@) =~= all.take(rest.len() as int));
        rev.push(NewsItem::from_story(s));
    }
    let mut out: Vec<NewsItem> = Vec::new();
    while rev.len() > 0
        invariant
            rev.len() <= all.len(),
            out.len() + rev.len() == all.len(),
            forall|k: int| 0 <= k < rev.len() ==> #[trigger] rev@[k]@ == all[all.len() - 1 - k],
            items_view(out@) == all.take(out.len() as int),
        decreases rev.len(),
    {
        let x = rev.pop().unwrap();
        let ghost before = items_view(out@);
        out.push(x);
        assert(items_view(out@) =~= all.take(out.len() as int));
    }
    assert(all.take(all.len() as int) =~= all);
    out
}

/// Sorts items by their derived order, removes neighbours with the same URL
/// and sorts them by date, newest first.
pub fn normalise_items(items: &mut Vec<NewsItem>)
    ensures
        items_view(final(items)@) == normalised(items_view(old(items)@)),
{
    let stories = items_to_stories(items);
    let ghost input = stories_view(stories@);
    let sorted = normalise_stories(stories);
    proof {
        assert forall|i: int| 0 <= i < sorted.len() implies (#[trigger] sorted@[i]).icon@ == Seq::<
            char,
        >::empty() by {
            let x = stories_view(sorted@)[i];
            assert(normalised(input).contains(x));
            lemma_normalised_members(input, x);
            let j = choose|j: int| 0 <= j < input.len() && input[j] == x;
            assert(input[j] == items@[j]@);
        }
    }
    *items = stories_to_items(sorted);
}

/// A list of news items.
#[derive(Clone, Debug)]
pub struct NewsItemList {
    pub items: Vec<NewsItem>,
}

impl View for NewsItemList {
    type V = Seq<StoryView>;

    open spec fn view(&self) -> Seq<StoryView> {
        items_view(self.items@)
    }
}

impl NewsItemList {
    /// An empty list.
    pub fn new() -> (r: NewsItemList)
        ensures
            r@ == Seq::<StoryView>::empty(),
    {
        let r = NewsItemList { items: Vec::new() };
        assert(r@ =~= Seq::<StoryView>::empty());
        r
    }

    /// The number of items.
    pub fn len(&self) -> (r: usize)
        ensures
            r == self@.len(),
    {
        self.items.len()
    }

    /// Adds an item at the end.
    pub fn push(&mut self, item: NewsItem)
        ensures
            final(self)@ == old(self)@.push(item@),
    {
        self.items.push(item);
        assert(self@ =~= old(self)@.push(item@));
    }

    /// Adds copies of the other list's items at the end.
    pub fn extend(&mut self, other: &NewsItemList)
        ensures
            final(self)@ == old(self)@ + other@,
    {
        let mut i: usize = 0;
        while i < other.items.len()
            invariant
                i <= other.items.len(),
                self@ == old(self)@ + other@.take(i as int),
            decreases other.items.len() - i,
        {
            let x = other.items[i].duplicate();
            assert(other@[i as int] == other.items@[i as int]@);
            let ghost prev = self@;
            self.items.push(x);
            assert(self@ =~= prev.push(x@));
            assert(self@ =~= old(self)@ + other@.take(i + 1));
            i = i + 1;
        }
        assert(other@.take(other.items.len() as int) =~= other@);
    }

    /// Sorts the items by their derived order, removes neighbours with the
    /// same URL and sorts them by date, newest first.
    pub fn normalise(&mut self)
        ensures
            final(self)@ == normalised(old(self)@),
    {
        normalise_items(&mut self.items);
    }

    /// Keeps the first `len` items.
    pub fn truncate(&mut self, len: usize)
        ensures
            len <= old(self)@.len() ==> final(self)@ == old(self)@.take(len as int),
            len > old(self)@.len() ==> final(self)@ == old(self)@,
    {
        self.items.truncate(len);
        assert(len <= old(self)@.len() ==> self@ =~= old(self)@.take(len as int));
    }

    /// The last item, if any.
    pub fn last(&self) -> (r: Option<&NewsItem>)
        ensures
            match r {
                Some(x) => self@.len() > 0 && x@ == self@.last(),
                None => self@.len() == 0,
            },
    {
        if self.items.len() == 0 {
            None
        } else {
            Some(&self.items[self.items.len() - 1])
        }
    }

    /// A copy of the list.
    pub fn duplicate(&self) -> (r: NewsItemList)
        ensures
            r@ == self@,
    {
        let mut r = NewsItemList::new();
        r.extend(self);
        assert(r@ =~= self@);
        r
    }

    /// A cursor over the items, from the first.
    pub fn into_iter(&self) -> (r: NewsItemListIter<'_>)
        ensures
            r.list() == self@,
            r.position() == 0,
    {
        NewsItemListIter { item_list: self, i: 0 }
    }
}

/// One step of a cursor over a list at position `pos`: the item there, if
/// any, and the position after it.
pub open spec fn cursor_step<A>(list: Seq<A>, pos: nat) -> (Option<A>, nat) {
    if pos < list.len() {
        (Some(list[pos as int]), pos + 1)
    } else {
        (None, pos)
    }
}

/// The position of a cursor that started at the first item, after `k`
/// steps.
pub open spec fn position_after<A>(list: Seq<A>, k: nat) -> nat
    decreases k,
{
    if k == 0 {
        0
    } else {
        cursor_step(list, position_after(list, (k - 1) as nat)).1
    }
}

/// A cursor that started at the first item has passed `k` items after `k`
/// steps, or all of them; so its `k + 1`-th step yields the item at `k`, and
/// once the list is done, every later step yields nothing: the steps yield
/// the items of the list in order, then none.
pub proof fn lemma_cursor_walk<A>(list: Seq<A>, k: nat)
    ensures
        position_after(list, k) == if k < list.len() { k } else { list.len() },
        cursor_step(list, position_after(list, k)).0 == if k < list.len() {
            Some(list[k as int])
        } else {
            None
        },
    decreases k,
{
    if k > 0 {
        lemma_cursor_walk(list, (k - 1) as nat);
    }
}

/// A cursor over the items of a list.
pub struct NewsItemListIter<'a> {
    item_list: &'a NewsItemList,
    i: usize,
}

impl<'a> NewsItemListIter<'a> {
    /// The items of the list.
    pub closed spec fn list(&self) -> Seq<StoryView> {
        self.item_list@
    }

    /// How many items the cursor has passed.
    pub closed spec fn position(&self) -> nat {
        self.i as nat
    }

    /// The next item, if any, and the cursor moves past it.
    pub fn next(&mut self) -> (r: Option<&'a NewsItem>)
        ensures
            final(self).list() == old(self).list(),
            old(self).position() < old(self).list().len() ==> r is Some && r->0@ == old(
                self,
            ).list()[old(self).position() as int] && final(self).position() == old(self).position()
                + 1,
            old(self).position() >= old(self).list().len() ==> r is None && final(self).position()
                == old(self).position(),
            final(self).position() == cursor_step(old(self).list(), old(self).position()).1,
            cursor_step(old(self).list(), old(self).position()).0 == match r {
                Some(x) => Some(x@),
                None => None,
            },
    {
        if self.i >= self.item_list.items.len() {
            None
        } else {
            self.i = self.i + 1;
            Some(&self.item_list.items[self.i - 1])
        }
    }
}

} // verus!
