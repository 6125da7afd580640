use vstd::prelude::*;
use vstd::string::StringExecFns;

use crate::news::{NewsItem, NewsItemList};
use crate::story::StoryView;
use crate::subscriptions::{status_symbol, Subscription, SubscriptionSet, SubscriptionView};
use crate::summary::{get_short_summary, html_summary};
use crate::time::{show_utc, shown_utc};

verus! {

/// How many bytes of a summary a page shows at least, before it cuts the
/// summary after the text node that passes them.
pub const SUMMARY_BYTES: usize = 100;

/// The text of the rate of the `i`-th subscription, or the empty text where
/// none was given.
pub open spec fn rate_text(rates: Seq<Seq<char>>, i: int) -> Seq<char> {
    if 0 <= i < rates.len() {
        rates[i]
    } else {
        Seq::empty()
    }
}

/// The views of a list of texts.
pub open spec fn strings_view(v: Seq<String>) -> Seq<Seq<char>> {
    v.map_values(|s: String| s@)
}

/// The head of the subscriptions table.
pub open spec fn table_header() -> Seq<char> {
    "<div class=\"subscription\">"@ + "<div class=\"header\">"@ + "<div class=\"name\">Name</div>"@
        + "<div class=\"timestamp\">Last Sync</div>"@ + "<div class=\"update_rate\">Updates</div>"@
        + "<div class=\"status\">OK</div>"@ + "</div></div>"@
}

/// One row of the subscriptions table: name, date of the last
/// synchronisation, rate of updates per day and status.
pub open spec fn subscription_row(s: SubscriptionView, rate: Seq<char>) -> Seq<char> {
    "<div class=\"subscription\">"@ + "<div class=\"info\">"@ + "<div class=\"name\">"@ + s.name
        + "</div>"@ + "<div class=\"timestamp\">"@ + shown_utc(s.last_sync) + "</div>"@
        + "<div class=\"update_rate\">"@ + rate + " / day</div>"@ + "<div class=\"status\">"@
        + status_symbol(s.status) + "</div>"@ + "</div>"@ + "</div>"@
}

/// One row of the sources table: name, date of the last synchronisation,
/// rate of updates per day, status, and the icons that edit and delete the
/// source.
pub open spec fn source_row(s: SubscriptionView, rate: Seq<char>) -> Seq<char> {
    "<div class=\"source\">"@ + "<div class=\"info\">"@ + "<div class=\"name\">"@ + s.name
        + "</div>"@ + "<div class=\"timestamp\">"@ + shown_utc(s.last_sync) + "</div>"@
        + "<div class=\"update_rate\">"@ + rate + " / day</div>"@ + "<div class=\"icon\">"@
        + status_symbol(s.status) + "</div>"@ + "<div class=\"icon\" onclick=\"edit_source('"@
        + s.url + "')\">\u{1F589}</div>"@ + "<div class=\"icon\" onclick=\"delete_source('"@
        + s.url + "')\">\u{1F5D1}</div>"@ + "</div>"@ + "</div>"@
}

/// The rows of the first `n` subscriptions, in the table of subscriptions
/// (`sources` false) or of sources (`sources` true).
pub open spec fn rows_upto(
    subs: Seq<SubscriptionView>,
    rates: Seq<Seq<char>>,
    sources: bool,
    n: int,
) -> Seq<char>
    decreases n,
{
    if n <= 0 {
        Seq::empty()
    } else {
        rows_upto(subs, rates, sources, n - 1) + if sources {
            source_row(subs[n - 1], rate_text(rates, n - 1))
        } else {
            subscription_row(subs[n - 1], rate_text(rates, n - 1))
        }
    }
}

/// The table of subscriptions: the head, a row per subscription, and a
/// closing tag.
pub open spec fn subscriptions_table(subs: Seq<SubscriptionView>, rates: Seq<Seq<char>>) -> Seq<
    char,
> {
    table_header() + rows_upto(subs, rates, false, subs.len() as int) + "</div>"@
}

/// The table of sources: a row per subscription and a closing tag.
pub open spec fn sources_table(subs: Seq<SubscriptionView>, rates: Seq<Seq<char>>) -> Seq<char> {
    rows_upto(subs, rates, true, subs.len() as int) + "</div>"@
}

/// The block of one news item: its source, date, title (opened on a click
/// through `openPage`, or linked in a new tab where `linked`) and the start
/// of its summary.
pub open spec fn item_block(s: StoryView, linked: bool) -> Seq<char> {
    "<div class=\"news_item\">"@ + (if linked {
        "<div class=\"source_name\">"@
    } else {
        "<div class=\"subscription_name\">"@
    }) + s.source + "</div>"@ + "<div class=\"timestamp\">"@ + shown_utc(s.timestamp)
        + "</div>"@ + (if linked {
        "<div class=\"title\"><a href=\""@ + s.url + "\" target=\"_blank\">"@ + s.title
            + "</a></div>"@
    } else {
        "<div class=\"title\" onclick=openPage(\""@ + s.url + "\")>"@ + s.title + "</div>"@
    }) + "<div class=\"summary\">"@ + html_summary(s.summary, SUMMARY_BYTES as nat) + "</div>"@
        + "</div>"@
}

/// The blocks of the first `n` items.
pub open spec fn items_upto(items: Seq<StoryView>, linked: bool, n: int) -> Seq<char>
    decreases n,
{
    if n <= 0 {
        Seq::empty()
    } else {
        items_upto(items, linked, n - 1) + item_block(items[n - 1], linked)
    }
}

/// The page of news items: one block per item, in the list's order.
pub open spec fn items_page(items: Seq<StoryView>, linked: bool) -> Seq<char> {
    items_upto(items, linked, items.len() as int)
}

/// The option that offers one subscription of a list of known sources.
pub open spec fn source_option(s: SubscriptionView) -> Seq<char> {
    "<option value=\""@ + s.url + "\">"@ + s.name + "</option>"@
}

/// The options of the first `n` subscriptions.
pub open spec fn options_upto(subs: Seq<SubscriptionView>, n: int) -> Seq<char>
    decreases n,
{
    if n <= 0 {
        Seq::empty()
    } else {
        options_upto(subs, n - 1) + source_option(subs[n - 1])
    }
}

/// A group of options, one per subscription of a list of known sources,
/// under the list's label.
pub open spec fn options_group(label: Seq<char>, subs: Seq<SubscriptionView>) -> Seq<char> {
    "<optgroup label=\""@ + label + "\">"@ + options_upto(subs, subs.len() as int)
        + "</optgroup>"@
}

/// The rows of the first `n` subscriptions depend only on those
/// subscriptions and their rates.
proof fn lemma_rows_prefix(
    x: Seq<SubscriptionView>,
    rx: Seq<Seq<char>>,
    y: Seq<SubscriptionView>,
    ry: Seq<Seq<char>>,
    sources: bool,
    n: int,
)
    requires
        0 <= n <= x.len(),
        n <= y.len(),
        forall|i: int| 0 <= i < n ==> x[i] == y[i] && rate_text(rx, i) == rate_text(ry, i),
    ensures
        rows_upto(x, rx, sources, n) == rows_upto(y, ry, sources, n),
    decreases n,
{
    if n > 0 {
        lemma_rows_prefix(x, rx, y, ry, sources, n - 1);
        assert(x[n - 1] == y[n - 1] && rate_text(rx, n - 1) == rate_text(ry, n - 1));
    }
}

/// A table's rows for two lists of subscriptions one after the other are
/// the rows of the first list, with its rates, then those of the second,
/// with its own: every subscription gets its row, in order, whatever its
/// place in the list.
pub proof fn lemma_rows_concat(
    a: Seq<SubscriptionView>,
    ra: Seq<Seq<char>>,
    b: Seq<SubscriptionView>,
    rb: Seq<Seq<char>>,
    sources: bool,
)
    requires
        ra.len() == a.len(),
    ensures
        rows_upto(a + b, ra + rb, sources, (a + b).len() as int) == rows_upto(
            a,
            ra,
            sources,
            a.len() as int,
        ) + rows_upto(b, rb, sources, b.len() as int),
{
    lemma_rows_concat_upto(a, ra, b, rb, sources, b.len() as int);
}

proof fn lemma_rows_concat_upto(
    a: Seq<SubscriptionView>,
    ra: Seq<Seq<char>>,
    b: Seq<SubscriptionView>,
    rb: Seq<Seq<char>>,
    sources: bool,
    k: int,
)
    requires
        ra.len() == a.len(),
        0 <= k <= b.len(),
    ensures
        rows_upto(a + b, ra + rb, sources, a.len() + k) == rows_upto(a, ra, sources, a.len() as int)
            + rows_upto(b, rb, sources, k),
    decreases k,
{
    if k == 0 {
        assert forall|i: int| 0 <= i < a.len() implies (a + b)[i] == a[i] && rate_text(ra + rb, i)
            == rate_text(ra, i) by {}
        lemma_rows_prefix(a + b, ra + rb, a, ra, sources, a.len() as int);
        assert(rows_upto(b, rb, sources, 0) =~= Seq::<char>::empty());
        assert(rows_upto(a, ra, sources, a.len() as int) + Seq::<char>::empty() =~= rows_upto(
            a,
            ra,
            sources,
            a.len() as int,
        ));
    } else {
        lemma_rows_concat_upto(a, ra, b, rb, sources, k - 1);
        let n = a.len() + k;
        assert((a + b)[n - 1] == b[k - 1]);
        assert(rate_text(ra + rb, n - 1) == rate_text(rb, k - 1));
        let row = if sources {
            source_row(b[k - 1], rate_text(rb, k - 1))
        } else {
            subscription_row(b[k - 1], rate_text(rb, k - 1))
        };
        assert(rows_upto(a + b, ra + rb, sources, n) == rows_upto(a + b, ra + rb, sources, n - 1)
            + row);
        assert(rows_upto(b, rb, sources, k) == rows_upto(b, rb, sources, k - 1) + row);
        assert(rows_upto(a, ra, sources, a.len() as int) + rows_upto(b, rb, sources, k - 1) + row
            =~= rows_upto(a, ra, sources, a.len() as int) + (rows_upto(b, rb, sources, k - 1)
            + row));
    }
}

/// The rows of a single subscription are its one row, in either table.
pub proof fn lemma_rows_single(x: SubscriptionView, r: Seq<char>, sources: bool)
    ensures
        rows_upto(seq![x], seq![r], sources, 1) == if sources {
            source_row(x, r)
        } else {
            subscription_row(x, r)
        },
{
    assert(rows_upto(seq![x], seq![r], sources, 0) =~= Seq::<char>::empty());
    assert(rate_text(seq![r], 0) == r);
    let row = if sources { source_row(x, r) } else { subscription_row(x, r) };
    assert(Seq::<char>::empty() + row =~= row);
}

/// Adding a subscription at the end of a set adds its row at the end of
/// either table, after the rows of the others: the table holds one row per
/// subscription, in order.
pub proof fn lemma_table_push(
    subs: Seq<SubscriptionView>,
    rates: Seq<Seq<char>>,
    x: SubscriptionView,
    r: Seq<char>,
)
    requires
        rates.len() == subs.len(),
    ensures
        sources_table(subs.push(x), rates.push(r)) == rows_upto(subs, rates, true, subs.len() as int)
            + source_row(x, r) + "</div>"@,
        subscriptions_table(subs.push(x), rates.push(r)) == table_header() + rows_upto(
            subs,
            rates,
            false,
            subs.len() as int,
        ) + subscription_row(x, r) + "</div>"@,
{
    assert(subs.push(x) =~= subs + seq![x]);
    assert(rates.push(r) =~= rates + seq![r]);
    lemma_rows_concat(subs, rates, seq![x], seq![r], true);
    lemma_rows_concat(subs, rates, seq![x], seq![r], false);
    lemma_rows_single(x, r, true);
    lemma_rows_single(x, r, false);
}

/// The blocks of the first `n` items depend only on those items.
proof fn lemma_items_prefix(x: Seq<StoryView>, y: Seq<StoryView>, linked: bool, n: int)
    requires
        0 <= n <= x.len(),
        n <= y.len(),
        forall|i: int| 0 <= i < n ==> x[i] == y[i],
    ensures
        items_upto(x, linked, n) == items_upto(y, linked, n),
    decreases n,
{
    if n > 0 {
        lemma_items_prefix(x, y, linked, n - 1);
        assert(x[n - 1] == y[n - 1]);
    }
}

proof fn lemma_items_concat_upto(a: Seq<StoryView>, b: Seq<StoryView>, linked: bool, k: int)
    requires
        0 <= k <= b.len(),
    ensures
        items_upto(a + b, linked, a.len() + k) == items_page(a, linked) + items_upto(b, linked, k),
    decreases k,
{
    if k == 0 {
        assert forall|i: int| 0 <= i < a.len() implies (a + b)[i] == a[i] by {}
        lemma_items_prefix(a + b, a, linked, a.len() as int);
        assert(items_upto(b, linked, 0) =~= Seq::<char>::empty());
        assert(items_page(a, linked) + Seq::<char>::empty() =~= items_page(a, linked));
    } else {
        lemma_items_concat_upto(a, b, linked, k - 1);
        assert((a + b)[a.len() + k - 1] == b[k - 1]);
        let block = item_block(b[k - 1], linked);
        assert(items_page(a, linked) + items_upto(b, linked, k - 1) + block =~= items_page(
            a,
            linked,
        ) + (items_upto(b, linked, k - 1) + block));
    }
}

/// The page of two lists one after the other is the page of the first, then
/// that of the second; the page of one item is its block. So a page holds
/// one block per item of its list, in the list's order.
pub proof fn lemma_items_page_concat(a: Seq<StoryView>, b: Seq<StoryView>, x: StoryView, linked: bool)
    ensures
        items_page(a + b, linked) == items_page(a, linked) + items_page(b, linked),
        items_page(seq![x], linked) == item_block(x, linked),
        items_page(a.push(x), linked) == items_page(a, linked) + item_block(x, linked),
{
    lemma_items_concat_upto(a, b, linked, b.len() as int);
    assert(items_upto(seq![x], linked, 0) =~= Seq::<char>::empty());
    assert(Seq::<char>::empty() + item_block(x, linked) =~= item_block(x, linked));
    lemma_items_concat_upto(a, seq![x], linked, 1);
    assert(a.push(x) =~= a + seq![x]);
}

/// The options of the first `n` subscriptions depend only on them.
proof fn lemma_options_prefix(x: Seq<SubscriptionView>, y: Seq<SubscriptionView>, n: int)
    requires
        0 <= n <= x.len(),
        n <= y.len(),
        forall|i: int| 0 <= i < n ==> x[i] == y[i],
    ensures
        options_upto(x, n) == options_upto(y, n),
    decreases n,
{
    if n > 0 {
        lemma_options_prefix(x, y, n - 1);
        assert(x[n - 1] == y[n - 1]);
    }
}

proof fn lemma_options_concat_upto(a: Seq<SubscriptionView>, b: Seq<SubscriptionView>, k: int)
    requires
        0 <= k <= b.len(),
    ensures
        options_upto(a + b, a.len() + k) == options_upto(a, a.len() as int) + options_upto(b, k),
    decreases k,
{
    if k == 0 {
        assert forall|i: int| 0 <= i < a.len() implies (a + b)[i] == a[i] by {}
        lemma_options_prefix(a + b, a, a.len() as int);
        assert(options_upto(b, 0) =~= Seq::<char>::empty());
        assert(options_upto(a, a.len() as int) + Seq::<char>::empty() =~= options_upto(
            a,
            a.len() as int,
        ));
    } else {
        lemma_options_concat_upto(a, b, k - 1);
        assert((a + b)[a.len() + k - 1] == b[k - 1]);
        let o = source_option(b[k - 1]);
        assert(options_upto(a, a.len() as int) + options_upto(b, k - 1) + o =~= options_upto(
            a,
            a.len() as int,
        ) + (options_upto(b, k - 1) + o));
    }
}

/// The options of two lists one after the other are those of the first,
/// then those of the second, and a single subscription gives its one
/// option: a group offers one option per subscription, in order.
pub proof fn lemma_options_concat(a: Seq<SubscriptionView>, b: Seq<SubscriptionView>, x: SubscriptionView)
    ensures
        options_upto(a + b, (a + b).len() as int) == options_upto(a, a.len() as int) + options_upto(
            b,
            b.len() as int,
        ),
        options_upto(seq![x], 1) == source_option(x),
{
    lemma_options_concat_upto(a, b, b.len() as int);
    assert(options_upto(seq![x], 0) =~= Seq::<char>::empty());
    assert(Seq::<char>::empty() + source_option(x) =~= source_option(x));
}

/// `t` occurs in `s`.
pub open spec fn contains_text(s: Seq<char>, t: Seq<char>) -> bool {
    exists|i: int| 0 <= i <= s.len() - t.len() && #[trigger] s.subrange(i, i + t.len()) == t
}

/// A text that occurs in a text occurs in it with anything added at either
/// end.
proof fn lemma_contains_join(a: Seq<char>, b: Seq<char>, t: Seq<char>)
    ensures
        contains_text(a, t) ==> contains_text(a + b, t),
        contains_text(b, t) ==> contains_text(a + b, t),
{
    if contains_text(a, t) {
        let i = choose|i: int| 0 <= i <= a.len() - t.len() && #[trigger] a.subrange(i, i + t.len()) == t;
        assert((a + b).subrange(i, i + t.len()) =~= a.subrange(i, i + t.len()));
    }
    if contains_text(b, t) {
        let i = choose|i: int| 0 <= i <= b.len() - t.len() && #[trigger] b.subrange(i, i + t.len()) == t;
        assert((a + b).subrange(a.len() + i, a.len() + i + t.len()) =~= b.subrange(i, i + t.len()));
    }
}

/// A text occurs in itself.
proof fn lemma_contains_self(t: Seq<char>)
    ensures
        contains_text(t, t),
{
    let z: int = 0;
    assert(t.subrange(z, z + t.len()) =~= t);
}

/// A text that occurs in the first of a list of texts joined one after the
/// other, or that is the second, occurs in the whole.
proof fn lemma_contains_chain(parts: Seq<Seq<char>>, t: Seq<char>, k: int)
    requires
        0 <= k < parts.len(),
        contains_text(parts[k], t),
    ensures
        contains_text(chain(parts), t),
    decreases parts.len(),
{
    if k == parts.len() - 1 {
        lemma_contains_join(chain(parts.drop_last()), parts.last(), t);
    } else {
        lemma_contains_chain(parts.drop_last(), t, k);
        lemma_contains_join(chain(parts.drop_last()), parts.last(), t);
    }
}

/// Texts joined one after the other.
pub open spec fn chain(parts: Seq<Seq<char>>) -> Seq<char>
    decreases parts.len(),
{
    if parts.len() == 0 {
        Seq::empty()
    } else {
        chain(parts.drop_last()) + parts.last()
    }
}

/// The parts of an item's block, in order.
spec fn block_parts(x: StoryView, linked: bool) -> Seq<Seq<char>> {
    seq![
        "<div class=\"news_item\">"@,
        if linked {
            "<div class=\"source_name\">"@
        } else {
            "<div class=\"subscription_name\">"@
        },
        x.source,
        "</div>"@,
        "<div class=\"timestamp\">"@,
        shown_utc(x.timestamp),
        "</div>"@,
        if linked {
            "<div class=\"title\"><a href=\""@ + x.url + "\" target=\"_blank\">"@ + x.title
                + "</a></div>"@
        } else {
            "<div class=\"title\" onclick=openPage(\""@ + x.url + "\")>"@ + x.title + "</div>"@
        },
        "<div class=\"summary\">"@,
        html_summary(x.summary, SUMMARY_BYTES as nat),
        "</div>"@,
        "</div>"@,
    ]
}

/// The block of an item is its parts joined.
proof fn lemma_block_chain(x: StoryView, linked: bool)
    ensures
        item_block(x, linked) == chain(block_parts(x, linked)),
{
    let p = block_parts(x, linked);
    reveal_with_fuel(chain, 13);
    assert(p.drop_last().drop_last().drop_last().drop_last().drop_last().drop_last().drop_last().drop_last().drop_last().drop_last().drop_last().drop_last().len() == 0);
    assert(chain(p) =~= item_block(x, linked));
}

/// The title part of an item's block shows its title and URL.
proof fn lemma_title_part_shows(x: StoryView, linked: bool)
    ensures
        contains_text(block_parts(x, linked)[7], x.url),
        contains_text(block_parts(x, linked)[7], x.title),
{
    lemma_contains_self(x.title);
    lemma_contains_self(x.url);
    let tp = if linked {
        seq!["<div class=\"title\"><a href=\""@, x.url, "\" target=\"_blank\">"@, x.title, "</a></div>"@]
    } else {
        seq!["<div class=\"title\" onclick=openPage(\""@, x.url, "\")>"@, x.title, "</div>"@]
    };
    reveal_with_fuel(chain, 6);
    assert(chain(tp) =~= block_parts(x, linked)[7]);
    lemma_contains_chain(tp, x.url, 1);
    lemma_contains_chain(tp, x.title, 3);
}

/// The block of an item shows its source, its date, its title, its URL and
/// the short summary of its text.
pub proof fn lemma_item_block_shows(x: StoryView, linked: bool)
    ensures
        contains_text(item_block(x, linked), x.source),
        contains_text(item_block(x, linked), shown_utc(x.timestamp)),
        contains_text(item_block(x, linked), x.title),
        contains_text(item_block(x, linked), x.url),
        contains_text(item_block(x, linked), html_summary(x.summary, SUMMARY_BYTES as nat)),
{
    let p = block_parts(x, linked);
    lemma_block_chain(x, linked);
    assert(p.len() == 12);
    assert(p[2] == x.source);
    assert(p[5] == shown_utc(x.timestamp));
    assert(p[9] == html_summary(x.summary, SUMMARY_BYTES as nat));
    lemma_contains_self(x.source);
    lemma_contains_chain(p, x.source, 2);
    lemma_contains_self(shown_utc(x.timestamp));
    lemma_contains_chain(p, shown_utc(x.timestamp), 5);
    lemma_contains_self(html_summary(x.summary, SUMMARY_BYTES as nat));
    lemma_contains_chain(p, html_summary(x.summary, SUMMARY_BYTES as nat), 9);
    lemma_title_part_shows(x, linked);
    lemma_contains_chain(p, x.url, 7);
    lemma_contains_chain(p, x.title, 7);
}

/// The parts of a subscription's row in the table of subscriptions.
spec fn subscription_row_parts(s: SubscriptionView, rate: Seq<char>) -> Seq<Seq<char>> {
    seq![
        "<div class=\"subscription\">"@,
        "<div class=\"info\">"@,
        "<div class=\"name\">"@,
        s.name,
        "</div>"@,
        "<div class=\"timestamp\">"@,
        shown_utc(s.last_sync),
        "</div>"@,
        "<div class=\"update_rate\">"@,
        rate,
        " / day</div>"@,
        "<div class=\"status\">"@,
        status_symbol(s.status),
        "</div>"@,
        "</div>"@,
        "</div>"@,
    ]
}

/// The parts of a subscription's row in the table of sources.
spec fn source_row_parts(s: SubscriptionView, rate: Seq<char>) -> Seq<Seq<char>> {
    seq![
        "<div class=\"source\">"@,
        "<div class=\"info\">"@,
        "<div class=\"name\">"@,
        s.name,
        "</div>"@,
        "<div class=\"timestamp\">"@,
        shown_utc(s.last_sync),
        "</div>"@,
        "<div class=\"update_rate\">"@,
        rate,
        " / day</div>"@,
        "<div class=\"icon\">"@,
        status_symbol(s.status),
        "</div>"@,
        "<div class=\"icon\" onclick=\"edit_source('"@,
        s.url,
        "')\">\u{1F589}</div>"@,
        "<div class=\"icon\" onclick=\"delete_source('"@,
        s.url,
        "')\">\u{1F5D1}</div>"@,
        "</div>"@,
        "</div>"@,
    ]
}

proof fn lemma_rows_chain(s: SubscriptionView, rate: Seq<char>)
    ensures
        subscription_row(s, rate) == chain(subscription_row_parts(s, rate)),
        source_row(s, rate) == chain(source_row_parts(s, rate)),
{
    reveal_with_fuel(chain, 23);
    assert(chain(subscription_row_parts(s, rate)) =~= subscription_row(s, rate));
    assert(chain(source_row_parts(s, rate)) =~= source_row(s, rate));
}

/// A row of either table shows the subscription's name, the date of its
/// last synchronisation, its rate and the sign of its status; a row of the
/// table of sources also holds its URL, which its edit and delete icons
/// act on.
pub proof fn lemma_rows_show(s: SubscriptionView, rate: Seq<char>)
    ensures
        contains_text(subscription_row(s, rate), s.name),
        contains_text(subscription_row(s, rate), shown_utc(s.last_sync)),
        contains_text(subscription_row(s, rate), rate),
        contains_text(subscription_row(s, rate), status_symbol(s.status)),
        contains_text(source_row(s, rate), s.name),
        contains_text(source_row(s, rate), shown_utc(s.last_sync)),
        contains_text(source_row(s, rate), rate),
        contains_text(source_row(s, rate), status_symbol(s.status)),
        contains_text(source_row(s, rate), "<div class=\"icon\" onclick=\"edit_source('"@ + s.url),
        contains_text(source_row(s, rate), "<div class=\"icon\" onclick=\"delete_source('"@ + s.url),
{
    lemma_rows_chain(s, rate);
    let p = subscription_row_parts(s, rate);
    let q = source_row_parts(s, rate);
    lemma_contains_self(s.name);
    lemma_contains_self(shown_utc(s.last_sync));
    lemma_contains_self(rate);
    lemma_contains_self(status_symbol(s.status));
    assert(p[3] == s.name && p[6] == shown_utc(s.last_sync) && p[9] == rate && p[12]
        == status_symbol(s.status));
    assert(q[3] == s.name && q[6] == shown_utc(s.last_sync) && q[9] == rate && q[12]
        == status_symbol(s.status));
    lemma_contains_chain(p, s.name, 3);
    lemma_contains_chain(p, shown_utc(s.last_sync), 6);
    lemma_contains_chain(p, rate, 9);
    lemma_contains_chain(p, status_symbol(s.status), 12);
    lemma_contains_chain(q, s.name, 3);
    lemma_contains_chain(q, shown_utc(s.last_sync), 6);
    lemma_contains_chain(q, rate, 9);
    lemma_contains_chain(q, status_symbol(s.status), 12);
    let edit = "<div class=\"icon\" onclick=\"edit_source('"@ + s.url;
    let del = "<div class=\"icon\" onclick=\"delete_source('"@ + s.url;
    assert(q[14] + q[15] == edit && q[17] + q[18] == del);
    assert(q.take(16).drop_last() =~= q.take(15));
    assert(q.take(15).drop_last() =~= q.take(14));
    assert(q.take(19).drop_last() =~= q.take(18));
    assert(q.take(18).drop_last() =~= q.take(17));
    let a = chain(q.take(14));
    let b = chain(q.take(17));
    assert(q.take(16).last() == q[15] && q.take(15).last() == q[14]);
    assert(q.take(19).last() == q[18] && q.take(18).last() == q[17]);
    assert(chain(q.take(16)) == chain(q.take(15)) + q[15]);
    assert(chain(q.take(15)) == a + q[14]);
    assert(chain(q.take(19)) == chain(q.take(18)) + q[18]);
    assert(chain(q.take(18)) == b + q[17]);
    assert(chain(q.take(16)) =~= a + edit);
    assert(chain(q.take(19)) =~= b + del);
    lemma_contains_self(edit);
    lemma_contains_self(del);
    lemma_contains_join(a, edit, edit);
    lemma_contains_join(b, del, del);
    lemma_chain_take(q, 16);
    lemma_chain_take(q, 19);
}

/// A text in the first `n` parts occurs in the whole chain.
proof fn lemma_chain_take(parts: Seq<Seq<char>>, n: int)
    requires
        0 <= n <= parts.len(),
    ensures
        forall|t: Seq<char>| contains_text(chain(parts.take(n)), t) ==> #[trigger] contains_text(chain(parts), t),
    decreases parts.len() - n,
{
    if n < parts.len() {
        lemma_chain_take(parts, n + 1);
        assert(parts.take(n + 1).drop_last() =~= parts.take(n));
        assert forall|t: Seq<char>| contains_text(chain(parts.take(n)), t) implies #[trigger] contains_text(chain(parts), t) by {
            lemma_contains_join(chain(parts.take(n)), parts.take(n + 1).last(), t);
        }
    } else {
        assert(parts.take(n) =~= parts);
    }
}

/// The row of one subscription, in the table of subscriptions or of
/// sources.
fn row_html(s: &Subscription, rate: &str, sources: bool) -> (r: String)
    ensures
        r@ == if sources {
            source_row(s@, rate@)
        } else {
            subscription_row(s@, rate@)
        },
{
    let shown = show_utc(s.last_sync);
    let symbol = s.status.symbol();
    let mut html = String::new();
    if sources {
        html.append("<div class=\"source\">");
    } else {
        html.append("<div class=\"subscription\">");
    }
    html.append("<div class=\"info\">");
    html.append("<div class=\"name\">");
    html.append(s.name.as_str());
    html.append("</div>");
    html.append("<div class=\"timestamp\">");
    html.append(shown.as_str());
    html.append("</div>");
    html.append("<div class=\"update_rate\">");
    html.append(rate);
    html.append(" / day</div>");
    if sources {
        html.append("<div class=\"icon\">");
        html.append(symbol.as_str());
        html.append("</div>");
        html.append("<div class=\"icon\" onclick=\"edit_source('");
        html.append(s.url.as_str());
        html.append("')\">\u{1F589}</div>");
        html.append("<div class=\"icon\" onclick=\"delete_source('");
        html.append(s.url.as_str());
        html.append("')\">\u{1F5D1}</div>");
    } else {
        html.append("<div class=\"status\">");
        html.append(symbol.as_str());
        html.append("</div>");
    }
    html.append("</div>");
    html.append("</div>");
    proof {
        if sources {
            assert(html@ =~= source_row(s@, rate@));
        } else {
            assert(html@ =~= subscription_row(s@, rate@));
        }
    }
    html
}

/// Appends the rows of all subscriptions of a set, with the rates given for
/// them in turn.
fn append_rows(html: &mut String, set: &SubscriptionSet, rates: &Vec<String>, sources: bool)
    ensures
        final(html)@ == old(html)@ + rows_upto(
            set@.subscriptions,
            strings_view(rates@),
            sources,
            set@.subscriptions.len() as int,
        ),
{
    let ghost start = html@;
    let ghost subs = set@.subscriptions;
    let ghost rs = strings_view(rates@);
    let mut i: usize = 0;
    while i < set.subscriptions.len()
        invariant
            i <= set.subscriptions.len(),
            subs == set@.subscriptions,
            subs.len() == set.subscriptions@.len(),
            rs == strings_view(rates@),
            html@ == start + rows_upto(subs, rs, sources, i as int),
        decreases set.subscriptions.len() - i,
    {
        let empty = String::new();
        let rate: &String = if i < rates.len() {
            &rates[i]
        } else {
            &empty
        };
        assert(rate@ == rate_text(rs, i as int));
        assert(subs[i as int] == set.subscriptions@[i as int]@);
        let row = row_html(&set.subscriptions[i], rate.as_str(), sources);
        html.append(row.as_str());
        i = i + 1;
        assert(html@ =~= start + rows_upto(subs, rs, sources, i as int));
    }
}

/// The table of a set's subscriptions, with the rate of updates per day given
/// for each subscription as a text (the empty text where none is given).
pub fn subscriptions_table_html(set: &SubscriptionSet, rates: &Vec<String>) -> (r: String)
    ensures
        r@ == subscriptions_table(set@.subscriptions, strings_view(rates@)),
{
    let mut html = String::new();
    html.append("<div class=\"subscription\">");
    html.append("<div class=\"header\">");
    html.append("<div class=\"name\">Name</div>");
    html.append("<div class=\"timestamp\">Last Sync</div>");
    html.append("<div class=\"update_rate\">Updates</div>");
    html.append("<div class=\"status\">OK</div>");
    html.append("</div></div>");
    assert(html@ =~= table_header());
    append_rows(&mut html, set, rates, false);
    html.append("</div>");
    assert(html@ =~= subscriptions_table(set@.subscriptions, strings_view(rates@)));
    html
}

/// The table of a set's sources, with the rate of updates per day given for
/// each as a text (the empty text where none is given).
pub fn sources_table_html(set: &SubscriptionSet, rates: &Vec<String>) -> (r: String)
    ensures
        r@ == sources_table(set@.subscriptions, strings_view(rates@)),
{
    let mut html = String::new();
    append_rows(&mut html, set, rates, true);
    html.append("</div>");
    assert(html@ =~= sources_table(set@.subscriptions, strings_view(rates@)));
    html
}

/// The block of one news item.
fn item_html(item: &NewsItem, linked: bool) -> (r: String)
    ensures
        r@ == item_block(item@, linked),
{
    let shown = show_utc(item.timestamp);
    let summary = get_short_summary(item.summary.as_str(), SUMMARY_BYTES);
    let mut html = String::new();
    html.append("<div class=\"news_item\">");
    if linked {
        html.append("<div class=\"source_name\">");
    } else {
        html.append("<div class=\"subscription_name\">");
    }
    html.append(item.source.as_str());
    html.append("</div>");
    html.append("<div class=\"timestamp\">");
    html.append(shown.as_str());
    html.append("</div>");
    let ghost before_title = html@;
    if linked {
        html.append("<div class=\"title\"><a href=\"");
        html.append(item.url.as_str());
        html.append("\" target=\"_blank\">");
        html.append(item.title.as_str());
        html.append("</a></div>");
        assert(html@ =~= before_title + ("<div class=\"title\"><a href=\""@ + item.url@
            + "\" target=\"_blank\">"@ + item.title@ + "</a></div>"@));
    } else {
        html.append("<div class=\"title\" onclick=openPage(\"");
        html.append(item.url.as_str());
        html.append("\")>");
        html.append(item.title.as_str());
        html.append("</div>");
        assert(html@ =~= before_title + ("<div class=\"title\" onclick=openPage(\""@ + item.url@
            + "\")>"@ + item.title@ + "</div>"@));
    }
    html.append("<div class=\"summary\">");
    html.append(summary.as_str());
    html.append("</div>");
    html.append("</div>");
    assert(html@ =~= item_block(item@, linked));
    html
}

/// The page of a list of news items: one block per item, each title opened
/// through `openPage` on a click, or (where `linked`) linked in a new tab.
pub fn items_html(items: &NewsItemList, linked: bool) -> (r: String)
    ensures
        r@ == items_page(items@, linked),
{
    let ghost view = items@;
    let mut html = String::new();
    let mut i: usize = 0;
    while i < items.items.len()
        invariant
            i <= items.items.len(),
            view == items@,
            view.len() == items.items@.len(),
            html@ == items_upto(view, linked, i as int),
        decreases items.items.len() - i,
    {
        assert(view[i as int] == items.items@[i as int]@);
        let block = item_html(&items.items[i], linked);
        html.append(block.as_str());
        i = i + 1;
    }
    html
}

/// The group of options that offers the subscriptions of a list of known
/// sources under its label.
pub fn options_group_html(label: &str, set: &SubscriptionSet) -> (r: String)
    ensures
        r@ == options_group(label@, set@.subscriptions),
{
    let ghost subs = set@.subscriptions;
    let mut html = String::new();
    html.append("<optgroup label=\"");
    html.append(label);
    html.append("\">");
    let ghost head = html@;
    let mut i: usize = 0;
    while i < set.subscriptions.len()
        invariant
            i <= set.subscriptions.len(),
            subs == set@.subscriptions,
            subs.len() == set.subscriptions@.len(),
            html@ == head + options_upto(subs, i as int),
        decreases set.subscriptions.len() - i,
    {
        let s = &set.subscriptions[i];
        assert(subs[i as int] == s@);
        let ghost before = html@;
        html.append("<option value=\"");
        html.append(s.url.as_str());
        html.append("\">");
        html.append(s.name.as_str());
        html.append("</option>");
        assert(html@ =~= before + source_option(s@));
        i = i + 1;
        assert(html@ =~= head + options_upto(subs, i as int));
    }
    html.append("</optgroup>");
    assert(head =~= "<optgroup label=\""@ + label@ + "\">"@);
    assert(html@ =~= options_group(label@, subs));
    html
}

} // verus!
