use vstd::prelude::*;
use vstd::relations::{sorted_by, total_ordering};

use crate::text::{
    compare_text, lemma_text_lt_irreflexive, lemma_text_lt_total, lemma_text_lt_transitive,
    same_text, text_lt, text_order, Order,
};
use crate::time::{ts_lt, Timestamp};

verus! {

/// A news story with every field that the news item types order by, in the
/// order in which their derived `Ord` compares them: the source, an icon (empty
/// where the item type has none, which leaves the order unchanged), the title,
/// the URL, the date and the summary.
pub struct Story {
    pub source: String,
    pub icon: String,
    pub title: String,
    pub url: String,
    pub timestamp: Timestamp,
    pub summary: String,
}

/// A story as plain values.
pub struct StoryView {
    pub source: Seq<char>,
    pub icon: Seq<char>,
    pub title: Seq<char>,
    pub url: Seq<char>,
    pub timestamp: Timestamp,
    pub summary: Seq<char>,
}

impl View for Story {
    type V = StoryView;

    open spec fn view(&self) -> StoryView {
        StoryView {
            source: self.source@,
            icon: self.icon@,
            title: self.title@,
            url: self.url@,
            timestamp: self.timestamp,
            summary: self.summary@,
        }
    }
}

/// The views of a list of stories.
pub open spec fn stories_view(s: Seq<Story>) -> Seq<StoryView> {
    s.map_values(|x: Story| x@)
}

impl Story {
    /// A copy of the story.
    pub fn duplicate(&self) -> (r: Story)
        ensures
            r@ == self@,
    {
        Story {
            source: self.source.clone(),
            icon: self.icon.clone(),
            title: self.title.clone(),
            url: self.url.clone(),
            timestamp: self.timestamp,
            summary: self.summary.clone(),
        }
    }
}

/// Lexicographic combination: the first comparison decides unless it finds
/// the two equal.
pub open spec fn then(first: Order, rest: Order) -> Order {
    if first == Order::Equal {
        rest
    } else {
        first
    }
}

/// How instant `a` compares with instant `b`.
pub open spec fn ts_order(a: Timestamp, b: Timestamp) -> Order {
    if a == b {
        Order::Equal
    } else if ts_lt(a, b) {
        Order::Less
    } else {
        Order::Greater
    }
}

/// The order of the news items' derived `Ord`: field by field, in the order
/// of `Story`'s fields.
pub open spec fn story_order(a: StoryView, b: StoryView) -> Order {
    then(
        text_order(a.source, b.source),
        then(
            text_order(a.icon, b.icon),
            then(
                text_order(a.title, b.title),
                then(
                    text_order(a.url, b.url),
                    then(ts_order(a.timestamp, b.timestamp), text_order(a.summary, b.summary)),
                ),
            ),
        ),
    )
}

/// Newest first, and among stories of the same date the derived order: the
/// order in which a stable sort by date, newest first, leaves a list that was
/// sorted by the derived order.
pub open spec fn time_order(a: StoryView, b: StoryView) -> Order {
    then(ts_order(b.timestamp, a.timestamp), story_order(a, b))
}

/// The order that a sort uses: by date when `by_time`, else the derived one.
pub open spec fn order_of(a: StoryView, b: StoryView, by_time: bool) -> Order {
    if by_time {
        time_order(a, b)
    } else {
        story_order(a, b)
    }
}

/// `a` may stand before `b` in a list sorted by the derived order.
pub open spec fn story_le(a: StoryView, b: StoryView) -> bool {
    story_order(a, b) != Order::Greater
}

/// `a` may stand before `b` in a list sorted newest first.
pub open spec fn time_le(a: StoryView, b: StoryView) -> bool {
    time_order(a, b) != Order::Greater
}

/// The derived order as a relation.
pub open spec fn story_leq() -> spec_fn(StoryView, StoryView) -> bool {
    |a: StoryView, b: StoryView| story_le(a, b)
}

/// Newest first as a relation.
pub open spec fn time_leq() -> spec_fn(StoryView, StoryView) -> bool {
    |a: StoryView, b: StoryView| time_le(a, b)
}

/// The relation that a sort uses.
pub open spec fn leq_of(by_time: bool) -> spec_fn(StoryView, StoryView) -> bool {
    if by_time {
        time_leq()
    } else {
        story_leq()
    }
}

/// The laws of a comparison for three values: it finds equal exactly the
/// equal values, swapping the values swaps `Less` and `Greater`, and `Less`
/// is transitive.
pub open spec fn order_laws<A>(o: spec_fn(A, A) -> Order, a: A, b: A, c: A) -> bool {
    &&& (o(a, b) == Order::Equal <==> a == b)
    &&& (o(a, b) == Order::Less <==> o(b, a) == Order::Greater)
    &&& (o(a, b) == Order::Less && o(b, c) == Order::Less ==> o(a, c) == Order::Less)
}

proof fn lemma_text_order_laws(a: Seq<char>, b: Seq<char>, c: Seq<char>)
    ensures
        order_laws(|x: Seq<char>, y: Seq<char>| text_order(x, y), a, b, c),
{
    lemma_text_lt_total(a, b);
    lemma_text_lt_total(b, c);
    lemma_text_lt_total(a, c);
    lemma_text_lt_irreflexive(a);
    if text_lt(a, b) && text_lt(b, c) {
        lemma_text_lt_transitive(a, b, c);
    }
    if a == b {
        assert(text_order(a, b) == Order::Equal);
    }
}

/// A comparison obeys its laws for all values.
pub open spec fn lawful<A>(o: spec_fn(A, A) -> Order) -> bool {
    forall|a: A, b: A, c: A| #[trigger] order_laws(o, a, b, c)
}

/// Lexicographic combination of two comparisons on pairs.
pub open spec fn pair_order<A, B>(f1: spec_fn(A, A) -> Order, f2: spec_fn(B, B) -> Order) -> spec_fn(
    (A, B),
    (A, B),
) -> Order {
    |x: (A, B), y: (A, B)| then(f1(x.0, y.0), f2(x.1, y.1))
}

proof fn lemma_pair_lawful<A, B>(f1: spec_fn(A, A) -> Order, f2: spec_fn(B, B) -> Order)
    requires
        lawful(f1),
        lawful(f2),
    ensures
        lawful(pair_order(f1, f2)),
{
    assert forall|a: (A, B), b: (A, B), c: (A, B)| #[trigger]
        order_laws(pair_order(f1, f2), a, b, c) by {
        assert(order_laws(f1, a.0, b.0, c.0));
        assert(order_laws(f1, b.0, a.0, c.0));
        assert(order_laws(f1, a.0, c.0, b.0));
        assert(order_laws(f1, c.0, a.0, b.0));
        assert(order_laws(f1, b.0, c.0, a.0));
        assert(order_laws(f2, a.1, b.1, c.1));
        assert(order_laws(f2, b.1, a.1, c.1));
        assert(order_laws(f2, a.1, c.1, b.1));
    }
}

/// The text comparison as a function value.
pub open spec fn text_cmp() -> spec_fn(Seq<char>, Seq<char>) -> Order {
    |x: Seq<char>, y: Seq<char>| text_order(x, y)
}

/// The instant comparison as a function value.
pub open spec fn ts_cmp() -> spec_fn(Timestamp, Timestamp) -> Order {
    |x: Timestamp, y: Timestamp| ts_order(x, y)
}

proof fn lemma_text_lawful()
    ensures
        lawful(text_cmp()),
{
    assert forall|a: Seq<char>, b: Seq<char>, c: Seq<char>| #[trigger]
        order_laws(text_cmp(), a, b, c) by {
        lemma_text_order_laws(a, b, c);
    }
}

proof fn lemma_ts_lawful()
    ensures
        lawful(ts_cmp()),
{
}

/// The fields of a story as nested pairs, in the order of comparison.
pub open spec fn story_fields(a: StoryView) -> (
    Seq<char>,
    (Seq<char>, (Seq<char>, (Seq<char>, (Timestamp, Seq<char>)))),
) {
    (a.source, (a.icon, (a.title, (a.url, (a.timestamp, a.summary)))))
}

/// The derived order on the nested pairs of fields.
pub open spec fn fields_order() -> spec_fn(
    (Seq<char>, (Seq<char>, (Seq<char>, (Seq<char>, (Timestamp, Seq<char>))))),
    (Seq<char>, (Seq<char>, (Seq<char>, (Seq<char>, (Timestamp, Seq<char>))))),
) -> Order {
    let t = text_cmp();
    let s = ts_cmp();
    pair_order(t, pair_order(t, pair_order(t, pair_order(t, pair_order(s, t)))))
}

/// The laws of the derived order.
pub proof fn lemma_story_order_laws(a: StoryView, b: StoryView, c: StoryView)
    ensures
        order_laws(|x: StoryView, y: StoryView| story_order(x, y), a, b, c),
{
    let t = text_cmp();
    let s = ts_cmp();
    lemma_text_lawful();
    lemma_ts_lawful();
    lemma_pair_lawful(s, t);
    lemma_pair_lawful(t, pair_order(s, t));
    lemma_pair_lawful(t, pair_order(t, pair_order(s, t)));
    lemma_pair_lawful(t, pair_order(t, pair_order(t, pair_order(s, t))));
    lemma_pair_lawful(t, pair_order(t, pair_order(t, pair_order(t, pair_order(s, t)))));
    let o = fields_order();
    assert(order_laws(o, story_fields(a), story_fields(b), story_fields(c)));
    assert(forall|x: StoryView, y: StoryView| #[trigger]
        story_order(x, y) == o(story_fields(x), story_fields(y)));
    assert(story_fields(a) == story_fields(b) ==> a == b);
}

/// The laws of the newest-first order.
pub proof fn lemma_time_order_laws(a: StoryView, b: StoryView, c: StoryView)
    ensures
        order_laws(|x: StoryView, y: StoryView| time_order(x, y), a, b, c),
{
    lemma_story_order_laws(a, b, c);
    lemma_story_order_laws(b, a, c);
    lemma_story_order_laws(a, c, b);
}

/// The laws of the order that a sort uses.
pub proof fn lemma_order_of_laws(a: StoryView, b: StoryView, c: StoryView, by_time: bool)
    ensures
        (order_of(a, b, by_time) == Order::Equal <==> a == b),
        (order_of(a, b, by_time) == Order::Less <==> order_of(b, a, by_time) == Order::Greater),
        (order_of(a, b, by_time) == Order::Less && order_of(b, c, by_time) == Order::Less
            ==> order_of(a, c, by_time) == Order::Less),
{
    if by_time {
        lemma_time_order_laws(a, b, c);
    } else {
        lemma_story_order_laws(a, b, c);
    }
}

/// `a` may stand before `b` in a list sorted by the order of a sort.
pub open spec fn le_of(a: StoryView, b: StoryView, by_time: bool) -> bool {
    order_of(a, b, by_time) != Order::Greater
}

/// The relation of a sort is a total order.
pub proof fn lemma_leq_total(by_time: bool)
    ensures
        total_ordering(leq_of(by_time)),
        forall|a: StoryView, b: StoryView| #[trigger] leq_of(by_time)(a, b) == le_of(a, b, by_time),
{
    let leq = leq_of(by_time);
    assert forall|a: StoryView, b: StoryView| #[trigger] leq(a, b) == le_of(a, b, by_time) by {}
    assert forall|a: StoryView| #[trigger] leq(a, a) by {
        lemma_order_of_laws(a, a, a, by_time);
    }
    assert forall|a: StoryView, b: StoryView| #[trigger] leq(a, b) && #[trigger] leq(b, a) implies a
        == b by {
        lemma_order_of_laws(a, b, a, by_time);
        lemma_order_of_laws(b, a, b, by_time);
    }
    assert forall|a: StoryView, b: StoryView, c: StoryView| #[trigger] leq(a, b) && #[trigger] leq(
        b,
        c,
    ) implies leq(a, c) by {
        lemma_order_of_laws(a, b, c, by_time);
        lemma_order_of_laws(b, c, a, by_time);
        lemma_order_of_laws(a, c, b, by_time);
        lemma_order_of_laws(c, a, b, by_time);
    }
    assert forall|a: StoryView, b: StoryView| #[trigger] leq(a, b) || #[trigger] leq(b, a) by {
        lemma_order_of_laws(a, b, a, by_time);
    }
}

/// Two lists sorted by a total order and holding the same elements are the
/// same list.
pub proof fn lemma_sorted_unique<A>(a: Seq<A>, b: Seq<A>, leq: spec_fn(A, A) -> bool)
    requires
        total_ordering(leq),
        a.to_multiset() == b.to_multiset(),
        sorted_by(a, leq),
        sorted_by(b, leq),
    ensures
        a == b,
    decreases a.len(),
{
    broadcast use vstd::seq_lib::group_to_multiset_ensures;

    a.to_multiset_ensures();
    b.to_multiset_ensures();
    if a.len() == 0 {
        assert(b.len() == 0);
        assert(a =~= b);
    } else {
        assert(b.len() == a.len());
        assert(a.to_multiset().count(a[0]) > 0) by {
            assert(a.contains(a[0]));
        }
        assert(b.contains(a[0]));
        let k = choose|k: int| 0 <= k < b.len() && b[k] == a[0];
        assert(b.to_multiset().count(b[0]) > 0) by {
            assert(b.contains(b[0]));
        }
        assert(a.contains(b[0]));
        let m = choose|m: int| 0 <= m < a.len() && a[m] == b[0];
        if k > 0 {
            assert(leq(b[0], b[k]));
        }
        if m > 0 {
            assert(leq(a[0], a[m]));
        }
        assert(leq(b[0], a[0]));
        assert(leq(a[0], b[0]));
        assert(a[0] == b[0]);
        assert(a.remove(0) =~= a.drop_first());
        assert(b.remove(0) =~= b.drop_first());
        assert(a.drop_first().to_multiset() == b.drop_first().to_multiset());
        assert(sorted_by(a.drop_first(), leq)) by {
            assert forall|i: int, j: int| 0 <= i < j < a.drop_first().len() implies #[trigger] leq(
                a.drop_first()[i],
                a.drop_first()[j],
            ) by {
                assert(leq(a[i + 1], a[j + 1]));
            }
        }
        assert(sorted_by(b.drop_first(), leq)) by {
            assert forall|i: int, j: int| 0 <= i < j < b.drop_first().len() implies #[trigger] leq(
                b.drop_first()[i],
                b.drop_first()[j],
            ) by {
                assert(leq(b[i + 1], b[j + 1]));
            }
        }
        lemma_sorted_unique(a.drop_first(), b.drop_first(), leq);
        assert(a =~= b) by {
            assert forall|i: int| 0 <= i < a.len() implies a[i] == b[i] by {
                if i > 0 {
                    assert(a[i] == a.drop_first()[i - 1]);
                    assert(b[i] == b.drop_first()[i - 1]);
                }
            }
        }
    }
}

/// Compares two stories by the order of a sort.
pub fn compare_stories(a: &Story, b: &Story, by_time: bool) -> (r: Order)
    ensures
        r == order_of(a@, b@, by_time),
{
    if by_time {
        if b.timestamp.is_before(&a.timestamp) {
            return Order::Less;
        }
        if a.timestamp.is_before(&b.timestamp) {
            return Order::Greater;
        }
        assert(a.timestamp == b.timestamp);
    }
    let c = compare_text(a.source.as_str(), b.source.as_str());
    if c != Order::Equal {
        return c;
    }
    let c = compare_text(a.icon.as_str(), b.icon.as_str());
    if c != Order::Equal {
        return c;
    }
    let c = compare_text(a.title.as_str(), b.title.as_str());
    if c != Order::Equal {
        return c;
    }
    let c = compare_text(a.url.as_str(), b.url.as_str());
    if c != Order::Equal {
        return c;
    }
    if a.timestamp.is_before(&b.timestamp) {
        return Order::Less;
    }
    if b.timestamp.is_before(&a.timestamp) {
        return Order::Greater;
    }
    compare_text(a.summary.as_str(), b.summary.as_str())
}

/// Where a story goes in a list sorted by the order of a sort: before the
/// first story that comes after it, so after all the stories it equals.
fn insertion_point(out: &Vec<Story>, x: &Story, by_time: bool) -> (p: usize)
    ensures
        p <= out.len(),
        forall|i: int| 0 <= i < p ==> order_of(x@, #[trigger] out@[i]@, by_time) != Order::Less,
        p < out.len() ==> order_of(x@, out@[p as int]@, by_time) == Order::Less,
{
    let mut p: usize = 0;
    while p < out.len()
        invariant
            p <= out.len(),
            forall|i: int| 0 <= i < p ==> order_of(x@, #[trigger] out@[i]@, by_time) != Order::Less,
        decreases out.len() - p,
    {
        if compare_stories(x, &out[p], by_time) == Order::Less {
            return p;
        }
        p = p + 1;
    }
    p
}

/// Sorts stories by the order of a sort (by date, newest first, when
/// `by_time`; else by the derived order of the news items).
pub fn sort_stories(v: Vec<Story>, by_time: bool) -> (r: Vec<Story>)
    ensures
        stories_view(r@) == stories_view(v@).sort_by(leq_of(by_time)),
{
    broadcast use vstd::seq_lib::group_to_multiset_ensures;
    broadcast use vstd::multiset::group_multiset_axioms;

    let ghost orig = stories_view(v@);
    let mut rest = v;
    let mut out: Vec<Story> = Vec::new();
    assert(stories_view(out@) =~= Seq::<StoryView>::empty());
    assert(stories_view(out@).to_multiset() =~= vstd::multiset::Multiset::<StoryView>::empty());
    assert(stories_view(out@).to_multiset().add(stories_view(rest@).to_multiset())
        =~= orig.to_multiset());
    while rest.len() > 0
        invariant
            stories_view(out@).to_multiset().add(stories_view(rest@).to_multiset())
                == orig.to_multiset(),
            forall|i: int, j: int|
                0 <= i < j < out.len() ==> le_of(#[trigger] out@[i]@, #[trigger] out@[j]@, by_time),
        decreases rest.len(),
    {
        let ghost rest_before = stories_view(rest@);
        let ghost out_before = stories_view(out@);
        let x = rest.pop().unwrap();
        assert(rest_before =~= stories_view(rest@).push(x@));
        let p = insertion_point(&out, &x, by_time);
        let ghost old_out = out@;
        out.insert(p, x);
        assert(stories_view(out@) =~= out_before.insert(p as int, x@));
        proof {
            let a = out_before.to_multiset();
            let b = stories_view(rest@).to_multiset();
            vstd::seq_lib::to_multiset_insert(out_before, p as int, x@);
            vstd::seq_lib::to_multiset_build(stories_view(rest@), x@);
            assert(a.insert(x@).add(b) =~= a.add(b.insert(x@)));
        }
        assert forall|i: int, j: int| 0 <= i < j < out.len() implies le_of(
            #[trigger] out@[i]@,
            #[trigger] out@[j]@,
            by_time,
        ) by {
            if j < p {
                assert(out@[i] == old_out[i] && out@[j] == old_out[j]);
            } else if j == p {
                assert(out@[i] == old_out[i]);
                lemma_order_of_laws(x@, old_out[i]@, x@, by_time);
            } else if i > p {
                assert(out@[i] == old_out[i - 1] && out@[j] == old_out[j - 1]);
            } else if i == p {
                assert(out@[j] == old_out[j - 1]);
                let q = old_out[p as int]@;
                let y = old_out[j - 1]@;
                if j - 1 > p {
                    assert(le_of(q, y, by_time));
                }
                lemma_order_of_laws(x@, q, y, by_time);
            } else {
                assert(out@[i] == old_out[i] && out@[j] == old_out[j - 1]);
            }
        }
    }
    proof {
        assert(stories_view(rest@) =~= Seq::<StoryView>::empty());
        assert(stories_view(out@).to_multiset() =~= orig.to_multiset());
        let leq = leq_of(by_time);
        lemma_leq_total(by_time);
        orig.lemma_sort_by_ensures(leq);
        assert(sorted_by(stories_view(out@), leq)) by {
            assert forall|i: int, j: int| 0 <= i < j < stories_view(out@).len() implies #[trigger] leq(
                stories_view(out@)[i],
                stories_view(out@)[j],
            ) by {
                assert(le_of(out@[i]@, out@[j]@, by_time));
            }
        }
        lemma_sorted_unique(stories_view(out@), orig.sort_by(leq), leq);
    }
    out
}

/// Vec's `dedup` with the news items' `==`, which compares the URLs: of each
/// run of neighbours with the same URL only the first stays.
pub open spec fn dedup_by_url(s: Seq<StoryView>) -> Seq<StoryView>
    decreases s.len(),
{
    if s.len() == 0 {
        s
    } else {
        let kept = dedup_by_url(s.drop_last());
        if s.len() >= 2 && s[s.len() - 1].url == s[s.len() - 2].url {
            kept
        } else {
            kept.push(s.last())
        }
    }
}

/// Removes the stories whose URL is that of the story just before them.
pub fn dedup_stories(v: &Vec<Story>) -> (r: Vec<Story>)
    ensures
        stories_view(r@) == dedup_by_url(stories_view(v@)),
{
    let ghost s = stories_view(v@);
    let mut out: Vec<Story> = Vec::new();
    let mut i: usize = 0;
    assert(s.take(0) =~= Seq::<StoryView>::empty());
    assert(stories_view(out@) =~= Seq::<StoryView>::empty());
    while i < v.len()
        invariant
            i <= v.len(),
            s == stories_view(v@),
            stories_view(out@) == dedup_by_url(s.take(i as int)),
        decreases v.len() - i,
    {
        assert(s.take(i + 1).drop_last() =~= s.take(i as int));
        let keep = i == 0 || !same_text(v[i].url.as_str(), v[i - 1].url.as_str());
        if keep {
            let ghost before = stories_view(out@);
            let x = v[i].duplicate();
            out.push(x);
            assert(stories_view(out@) =~= before.push(x@));
        }
        i = i + 1;
    }
    assert(s.take(v.len() as int) =~= s);
    out
}

/// The stories sorted by the news items' derived order.
pub open spec fn sorted_by_story(s: Seq<StoryView>) -> Seq<StoryView> {
    s.sort_by(story_leq())
}

/// The stories newest first, and among those of the same date in the
/// derived order.
pub open spec fn newest_first(s: Seq<StoryView>) -> Seq<StoryView> {
    s.sort_by(time_leq())
}

/// What `normalise` makes of a list: sorted by the derived
/// order, freed of neighbours with the same URL, then stably sorted by date,
/// newest first (which, on a list sorted by the derived order, keeps that
/// order among stories of the same date).
pub open spec fn normalised(s: Seq<StoryView>) -> Seq<StoryView> {
    newest_first(dedup_by_url(sorted_by_story(s)))
}

/// Removing repeated URLs keeps only stories of the list.
pub proof fn lemma_dedup_members(s: Seq<StoryView>, x: StoryView)
    ensures
        dedup_by_url(s).contains(x) ==> s.contains(x),
    decreases s.len(),
{
    if s.len() > 0 {
        lemma_dedup_members(s.drop_last(), x);
        if dedup_by_url(s).contains(x) {
            if dedup_by_url(s.drop_last()).contains(x) {
                let i = choose|i: int| 0 <= i < s.drop_last().len() && s.drop_last()[i] == x;
                assert(s[i] == x);
            } else {
                assert(s[s.len() - 1] == x);
            }
        }
    }
}

/// A sort keeps only stories of the list.
pub proof fn lemma_sort_members(s: Seq<StoryView>, by_time: bool, x: StoryView)
    ensures
        s.sort_by(leq_of(by_time)).contains(x) ==> s.contains(x),
{
    lemma_leq_total(by_time);
    s.lemma_sort_by_ensures(leq_of(by_time));
}

/// Normalising depends only on which stories a list holds, not on their
/// order: lists that are the same up to order normalise alike.
pub proof fn lemma_normalised_same_multiset(a: Seq<StoryView>, b: Seq<StoryView>)
    requires
        a.to_multiset() == b.to_multiset(),
    ensures
        normalised(a) == normalised(b),
{
    lemma_sort_same_multiset(a, b, false);
    assert(leq_of(false) == story_leq());
}

/// Every story of the normalised list is a story of the list.
pub proof fn lemma_normalised_members(s: Seq<StoryView>, x: StoryView)
    ensures
        normalised(s).contains(x) ==> s.contains(x),
{
    let sorted = sorted_by_story(s);
    let unique = dedup_by_url(sorted);
    assert(leq_of(false) == story_leq());
    assert(leq_of(true) == time_leq());
    lemma_sort_members(unique, true, x);
    lemma_dedup_members(sorted, x);
    lemma_sort_members(s, false, x);
}

/// Sorts, removes repeated URLs and sorts newest first.
pub fn normalise_stories(v: Vec<Story>) -> (r: Vec<Story>)
    ensures
        stories_view(r@) == normalised(stories_view(v@)),
{
    let sorted = sort_stories(v, false);
    let unique = dedup_stories(&sorted);
    sort_stories(unique, true)
}

/// The last story that removing repeated URLs keeps has the URL of the
/// list's last story.
proof fn lemma_dedup_last(s: Seq<StoryView>)
    requires
        s.len() > 0,
    ensures
        dedup_by_url(s).len() > 0,
        dedup_by_url(s).last().url == s.last().url,
    decreases s.len(),
{
    if s.len() >= 2 && s[s.len() - 1].url == s[s.len() - 2].url {
        lemma_dedup_last(s.drop_last());
    }
}

/// After removing repeated URLs no two neighbours share a URL.
proof fn lemma_dedup_neighbours(s: Seq<StoryView>)
    ensures
        forall|i: int|
            0 <= i < dedup_by_url(s).len() - 1 ==> #[trigger] dedup_by_url(s)[i].url != dedup_by_url(
                s,
            )[i + 1].url,
    decreases s.len(),
{
    if s.len() > 0 {
        lemma_dedup_neighbours(s.drop_last());
        let d = dedup_by_url(s.drop_last());
        if !(s.len() >= 2 && s[s.len() - 1].url == s[s.len() - 2].url) && s.len() >= 2 {
            lemma_dedup_last(s.drop_last());
            assert(dedup_by_url(s) == d.push(s.last()));
            assert forall|i: int| 0 <= i < dedup_by_url(s).len() - 1 implies #[trigger] dedup_by_url(
                s,
            )[i].url != dedup_by_url(s)[i + 1].url by {
                if i < d.len() - 1 {
                    assert(dedup_by_url(s)[i] == d[i] && dedup_by_url(s)[i + 1] == d[i + 1]);
                }
            }
        }
    }
}

/// A list without neighbours that share a URL loses nothing to the removal
/// of repeated URLs.
proof fn lemma_dedup_identity(s: Seq<StoryView>)
    requires
        forall|i: int| 0 <= i < s.len() - 1 ==> #[trigger] s[i].url != s[i + 1].url,
    ensures
        dedup_by_url(s) == s,
    decreases s.len(),
{
    if s.len() > 0 {
        assert forall|i: int| 0 <= i < s.drop_last().len() - 1 implies #[trigger] s.drop_last()[i].url
            != s.drop_last()[i + 1].url by {
            assert(s[i].url != s[i + 1].url);
        }
        lemma_dedup_identity(s.drop_last());
        if s.len() >= 2 {
            assert(s[s.len() - 2].url != s[s.len() - 1].url);
        }
        assert(s.drop_last().push(s.last()) =~= s);
    }
}

/// Removing repeated URLs from a list sorted by the derived order leaves a
/// list in strictly increasing derived order.
proof fn lemma_dedup_strict(s: Seq<StoryView>)
    requires
        forall|i: int, j: int| 0 <= i < j < s.len() ==> story_le(#[trigger] s[i], #[trigger] s[j]),
    ensures
        forall|i: int, j: int|
            0 <= i < j < dedup_by_url(s).len() ==> story_order(
                #[trigger] dedup_by_url(s)[i],
                #[trigger] dedup_by_url(s)[j],
            ) == Order::Less,
    decreases s.len(),
{
    if s.len() > 0 {
        let t = s.drop_last();
        assert forall|i: int, j: int| 0 <= i < j < t.len() implies story_le(
            #[trigger] t[i],
            #[trigger] t[j],
        ) by {
            assert(story_le(s[i], s[j]));
        }
        lemma_dedup_strict(t);
        let d = dedup_by_url(t);
        if !(s.len() >= 2 && s[s.len() - 1].url == s[s.len() - 2].url) {
            let x = s.last();
            assert(dedup_by_url(s) == d.push(x));
            if d.len() > 0 {
                lemma_dedup_last(t);
                let y = d.last();
                lemma_dedup_members(t, y);
                assert(d.contains(y));
                let k = choose|k: int| 0 <= k < t.len() && t[k] == y;
                assert(story_le(s[k], s[s.len() - 1]));
                assert(y.url != x.url);
                lemma_story_order_laws(y, x, y);
                assert(story_order(y, x) == Order::Less);
                assert forall|i: int, j: int| 0 <= i < j < dedup_by_url(s).len() implies story_order(
                    #[trigger] dedup_by_url(s)[i],
                    #[trigger] dedup_by_url(s)[j],
                ) == Order::Less by {
                    if j < d.len() {
                        assert(dedup_by_url(s)[i] == d[i] && dedup_by_url(s)[j] == d[j]);
                    } else {
                        assert(dedup_by_url(s)[i] == d[i]);
                        if i < d.len() - 1 {
                            assert(story_order(d[i], y) == Order::Less);
                            lemma_story_order_laws(d[i], y, x);
                        }
                    }
                }
            }
        }
    }
}

/// Two lists that hold the same stories sort to the same list.
proof fn lemma_sort_same_multiset(a: Seq<StoryView>, b: Seq<StoryView>, by_time: bool)
    requires
        a.to_multiset() == b.to_multiset(),
    ensures
        a.sort_by(leq_of(by_time)) == b.sort_by(leq_of(by_time)),
{
    let leq = leq_of(by_time);
    lemma_leq_total(by_time);
    a.lemma_sort_by_ensures(leq);
    b.lemma_sort_by_ensures(leq);
    lemma_sorted_unique(a.sort_by(leq), b.sort_by(leq), leq);
}

/// A list already sorted sorts to itself.
proof fn lemma_sort_sorted(a: Seq<StoryView>, by_time: bool)
    requires
        sorted_by(a, leq_of(by_time)),
    ensures
        a.sort_by(leq_of(by_time)) == a,
{
    let leq = leq_of(by_time);
    lemma_leq_total(by_time);
    a.lemma_sort_by_ensures(leq);
    lemma_sorted_unique(a.sort_by(leq), a, leq);
}

/// The list before the final sort of `normalised`, and its properties.
proof fn lemma_unique_stories(s: Seq<StoryView>)
    ensures
        forall|i: int, j: int|
            0 <= i < j < dedup_by_url(sorted_by_story(s)).len() ==> story_order(
                #[trigger] dedup_by_url(sorted_by_story(s))[i],
                #[trigger] dedup_by_url(sorted_by_story(s))[j],
            ) == Order::Less,
        forall|i: int|
            0 <= i < dedup_by_url(sorted_by_story(s)).len() - 1 ==> #[trigger] dedup_by_url(
                sorted_by_story(s),
            )[i].url != dedup_by_url(sorted_by_story(s))[i + 1].url,
{
    let sorted = sorted_by_story(s);
    lemma_leq_total(false);
    assert(leq_of(false) == story_leq());
    s.lemma_sort_by_ensures(story_leq());
    assert forall|i: int, j: int| 0 <= i < j < sorted.len() implies story_le(
        #[trigger] sorted[i],
        #[trigger] sorted[j],
    ) by {
        assert(story_leq()(sorted[i], sorted[j]));
    }
    lemma_dedup_strict(sorted);
    lemma_dedup_neighbours(sorted);
}

/// Normalised lists are newest first: no story comes before an older one.
pub proof fn lemma_normalised_newest_first(s: Seq<StoryView>)
    ensures
        forall|i: int, j: int|
            0 <= i < j < normalised(s).len() ==> !ts_lt(
                (#[trigger] normalised(s)[i]).timestamp,
                (#[trigger] normalised(s)[j]).timestamp,
            ),
{
    let d = dedup_by_url(sorted_by_story(s));
    lemma_leq_total(true);
    assert(leq_of(true) == time_leq());
    d.lemma_sort_by_ensures(time_leq());
    assert forall|i: int, j: int| 0 <= i < j < normalised(s).len() implies !ts_lt(
        (#[trigger] normalised(s)[i]).timestamp,
        (#[trigger] normalised(s)[j]).timestamp,
    ) by {
        assert(time_leq()(normalised(s)[i], normalised(s)[j]));
    }
}

/// A normalised list holds no story twice.
pub proof fn lemma_normalised_distinct(s: Seq<StoryView>)
    ensures
        normalised(s).no_duplicates(),
{
    let d = dedup_by_url(sorted_by_story(s));
    lemma_unique_stories(s);
    assert(d.no_duplicates()) by {
        assert forall|i: int, j: int| 0 <= i < d.len() && 0 <= j < d.len() && i != j implies d[i]
            != d[j] by {
            if i < j {
                assert(story_order(d[i], d[j]) == Order::Less);
                lemma_story_order_laws(d[i], d[j], d[i]);
            } else {
                assert(story_order(d[j], d[i]) == Order::Less);
                lemma_story_order_laws(d[j], d[i], d[j]);
            }
        }
    }
    lemma_leq_total(true);
    assert(leq_of(true) == time_leq());
    d.lemma_sort_by_ensures(time_leq());
    d.lemma_multiset_has_no_duplicates();
    normalised(s).lemma_multiset_has_no_duplicates_conv();
}

/// Normalising a normalised list changes nothing.
pub proof fn lemma_normalised_idempotent(s: Seq<StoryView>)
    ensures
        normalised(normalised(s)) == normalised(s),
{
    let d = dedup_by_url(sorted_by_story(s));
    let r = normalised(s);
    lemma_unique_stories(s);
    lemma_leq_total(true);
    lemma_leq_total(false);
    assert(leq_of(true) == time_leq());
    assert(leq_of(false) == story_leq());
    d.lemma_sort_by_ensures(time_leq());
    assert(sorted_by(d, story_leq())) by {
        assert forall|i: int, j: int| 0 <= i < j < d.len() implies #[trigger] story_leq()(d[i], d[j]) by {
            assert(story_order(d[i], d[j]) == Order::Less);
        }
    }
    lemma_sort_same_multiset(r, d, false);
    lemma_sort_sorted(d, false);
    assert(sorted_by_story(r) == d);
    lemma_dedup_identity(d);
}

/// Every URL of the list stays in the normalised list: removing repeated
/// URLs removes only stories whose URL another story keeps.
pub proof fn lemma_normalised_keeps_urls(s: Seq<StoryView>, x: StoryView)
    requires
        s.contains(x),
    ensures
        exists|y: StoryView| #[trigger] normalised(s).contains(y) && y.url == x.url,
{
    let sorted = sorted_by_story(s);
    let d = dedup_by_url(sorted);
    lemma_leq_total(true);
    lemma_leq_total(false);
    assert(leq_of(true) == time_leq());
    assert(leq_of(false) == story_leq());
    s.lemma_sort_by_ensures(story_leq());
    d.lemma_sort_by_ensures(time_leq());
    broadcast use vstd::seq_lib::group_to_multiset_ensures;

    assert(s.to_multiset().count(x) > 0);
    assert(sorted.contains(x));
    let k = choose|k: int| 0 <= k < sorted.len() && sorted[k] == x;
    lemma_dedup_keeps_url(sorted, k);
    let y = choose|y: StoryView| #[trigger] d.contains(y) && y.url == x.url;
    assert(d.to_multiset().count(y) > 0);
    assert(normalised(s).contains(y));
}

/// Removing repeated URLs keeps a story with the URL of each story.
proof fn lemma_dedup_keeps_url(s: Seq<StoryView>, k: int)
    requires
        0 <= k < s.len(),
    ensures
        exists|y: StoryView| #[trigger] dedup_by_url(s).contains(y) && y.url == s[k].url,
    decreases s.len(),
{
    let d = dedup_by_url(s);
    let t = s.drop_last();
    if k < s.len() - 1 {
        lemma_dedup_keeps_url(t, k);
        let y = choose|y: StoryView| #[trigger] dedup_by_url(t).contains(y) && y.url == t[k].url;
        let i = choose|i: int| 0 <= i < dedup_by_url(t).len() && dedup_by_url(t)[i] == y;
        if !(s.len() >= 2 && s[s.len() - 1].url == s[s.len() - 2].url) {
            assert(d[i] == y);
        }
        assert(d.contains(y));
    } else {
        if s.len() >= 2 && s[s.len() - 1].url == s[s.len() - 2].url {
            lemma_dedup_last(t);
            let y = dedup_by_url(t).last();
            assert(d.contains(y));
        } else {
            assert(d[d.len() - 1] == s[k]);
            assert(d.contains(s[k]));
        }
    }
}

} // verus!
