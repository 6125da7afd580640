use vstd::prelude::*;
use vstd::std_specs::iter::IteratorSpec;
use vstd::string::StringExecFns;

verus! {

/// The number of bytes that UTF-8 takes for a character (std's
/// `char::len_utf8`).
pub open spec fn char_utf8_len(c: char) -> nat {
    if c <= '\u{7f}' {
        1
    } else if c <= '\u{7ff}' {
        2
    } else if c <= '\u{ffff}' {
        3
    } else {
        4
    }
}

/// The number of bytes of a text in UTF-8: what `str::len` gives.
pub open spec fn utf8_len(s: Seq<char>) -> nat
    decreases s.len(),
{
    if s.len() == 0 {
        0
    } else {
        utf8_len(s.drop_last()) + char_utf8_len(s.last())
    }
}

proof fn lemma_utf8_len_concat(a: Seq<char>, b: Seq<char>)
    ensures
        utf8_len(a + b) == utf8_len(a) + utf8_len(b),
    decreases b.len(),
{
    if b.len() == 0 {
        assert(a + b =~= a);
    } else {
        lemma_utf8_len_concat(a, b.drop_last());
        assert((a + b).drop_last() =~= a + b.drop_last());
    }
}

/// The number of bytes of a text in UTF-8, or `cap` where it is larger.
pub fn text_utf8_len_capped(s: &str, cap: u128) -> (r: u128)
    requires
        cap <= usize::MAX as u128 + 1,
    ensures
        r == if utf8_len(s@) < cap { utf8_len(s@) } else { cap as nat },
{
    broadcast use vstd::string::group_string_axioms;

    let mut it = s.chars();
    let ghost mut i: int = 0;
    let mut n: u128 = 0;
    assert(s@.skip(0) =~= s@);
    assert(s@.take(0) =~= Seq::<char>::empty());
    loop
        invariant
            0 <= i <= s@.len(),
            it.remaining() == s@.skip(i),
            it.obeys_prophetic_iter_laws(),
            n == utf8_len(s@.take(i)),
            n < cap + 4,
            cap <= usize::MAX as u128 + 1,
        decreases s@.len() - i,
    {
        if n >= cap {
            proof {
                assert(s@ =~= s@.take(i) + s@.skip(i));
                lemma_utf8_len_concat(s@.take(i), s@.skip(i));
            }
            return cap;
        }
        match it.next() {
            None => {
                assert(s@.take(i) =~= s@);
                return n;
            },
            Some(c) => {
                assert(c == s@[i]);
                let w: u128 = if c <= '\u{7f}' {
                    1
                } else if c <= '\u{7ff}' {
                    2
                } else if c <= '\u{ffff}' {
                    3
                } else {
                    4
                };
                proof {
                    assert(s@.take(i + 1).drop_last() =~= s@.take(i));
                    assert(s@.skip(i).drop_first() =~= s@.skip(i + 1));
                    i = i + 1;
                }
                n = n + w;
            },
        }
    }
}

/// The texts of the nodes of an HTML fragment as scraper parses it, one per
/// node in the order of the tree's `values()`: the text of a text node and
/// the empty text for any other node.
pub uninterp spec fn html_fragment_texts(html: Seq<char>) -> Seq<Seq<char>>;

/// The views of a list of texts.
pub open spec fn texts_view(v: Seq<String>) -> Seq<Seq<char>> {
    v.map_values(|s: String| s@)
}

/// Calls scraper's `Html::parse_fragment` and lists, for each node of the
/// tree in the order of `values()`, its text if it is a text node and the
/// empty text otherwise. The contract only names the result: HTML parsing is
/// not restated.
#[verifier::external_body]
pub(crate) fn fragment_texts(html: &str) -> (r: Vec<String>)
    ensures
        texts_view(r@) == html_fragment_texts(html@),
{
    let fragment = scraper::Html::parse_fragment(html);
    fragment.tree.values().map(|node| match node {
        scraper::Node::Text(t) => t.to_string(),
        _ => String::new(),
    }).collect()
}

/// The summary made of the first `n` texts: each appended in turn until the
/// summary holds more than `len` bytes.
pub open spec fn summary_upto(texts: Seq<Seq<char>>, len: nat, n: int) -> Seq<char>
    decreases n,
{
    if n <= 0 {
        Seq::empty()
    } else {
        let before = summary_upto(texts, len, n - 1);
        if utf8_len(before) > len {
            before
        } else {
            before + texts[n - 1]
        }
    }
}

/// The summary of a list of texts: the texts appended in turn, stopping as
/// soon as the summary holds more than `len` bytes.
pub open spec fn short_summary(texts: Seq<Seq<char>>, len: nat) -> Seq<char> {
    summary_upto(texts, len, texts.len() as int)
}

/// The short summary of the texts of an HTML fragment.
pub fn summarise_texts(texts: &Vec<String>, len: usize) -> (r: String)
    ensures
        r@ == short_summary(texts_view(texts@), len as nat),
{
    let ghost ts = texts_view(texts@);
    let mut summary = String::new();
    let mut bytes: u128 = 0;
    let mut i: usize = 0;
    while i < texts.len()
        invariant
            i <= texts.len(),
            ts == texts_view(texts@),
            summary@ == summary_upto(ts, len as nat, i as int),
            (bytes > len) == (utf8_len(summary@) > len),
            bytes <= len ==> bytes == utf8_len(summary@),
            bytes <= 2 * len + 1,
            utf8_len(summary@) > len ==> forall|k: int|
                i <= k <= texts.len() ==> summary_upto(ts, len as nat, k) == summary@,
        decreases texts.len() - i,
    {
        assert(ts[i as int] == texts@[i as int]@);
        if bytes > len as u128 {
            return summary;
        }
        let t = &texts[i];
        let w = text_utf8_len_capped(t.as_str(), len as u128 + 1);
        proof {
            lemma_utf8_len_concat(summary@, t@);
        }
        summary.append(t.as_str());
        bytes = bytes + w;
        i = i + 1;
        proof {
            if utf8_len(summary@) > len {
                assert forall|k: int| i <= k <= texts.len() implies summary_upto(
                    ts,
                    len as nat,
                    k,
                ) == summary@ by {
                    lemma_summary_stays(ts, len as nat, i as int, k);
                }
            }
        }
    }
    summary
}

proof fn lemma_summary_stays(ts: Seq<Seq<char>>, len: nat, i: int, k: int)
    requires
        0 <= i <= k,
        utf8_len(summary_upto(ts, len, i)) > len,
    ensures
        summary_upto(ts, len, k) == summary_upto(ts, len, i),
    decreases k - i,
{
    if k > i {
        lemma_summary_stays(ts, len, i, k - 1);
    }
}

/// The texts one after the other.
pub open spec fn joined(texts: Seq<Seq<char>>) -> Seq<char>
    decreases texts.len(),
{
    if texts.len() == 0 {
        Seq::empty()
    } else {
        joined(texts.drop_last()) + texts.last()
    }
}

/// The summary of the first `n` texts is the first `k` of them joined, for
/// the `k` given by the law below.
proof fn lemma_summary_upto_prefix(texts: Seq<Seq<char>>, len: nat, n: int) -> (k: int)
    requires
        0 <= n <= texts.len(),
    ensures
        0 <= k <= n,
        summary_upto(texts, len, n) == joined(texts.take(k)),
        k < n ==> utf8_len(joined(texts.take(k))) > len,
        forall|j: int| 0 <= j < k ==> utf8_len(#[trigger] joined(texts.take(j))) <= len,
    decreases n,
{
    if n == 0 {
        assert(texts.take(0) =~= Seq::<Seq<char>>::empty());
        0
    } else {
        let k = lemma_summary_upto_prefix(texts, len, n - 1);
        let before = summary_upto(texts, len, n - 1);
        if utf8_len(before) > len {
            k
        } else {
            assert(k == n - 1);
            assert(texts.take(n).drop_last() =~= texts.take(n - 1));
            assert(texts.take(n).last() == texts[n - 1]);
            n
        }
    }
}

/// A short summary is the shortest run of leading texts that passes `len`
/// bytes, or all the texts where none does: the texts are joined up to and
/// including the first one after which the summary holds more than `len`
/// bytes.
pub proof fn lemma_summary_is_shortest_prefix(texts: Seq<Seq<char>>, len: nat)
    ensures
        exists|k: int|
            0 <= k <= texts.len() && short_summary(texts, len) == joined(#[trigger] texts.take(k)) && (k
                < texts.len() ==> utf8_len(joined(texts.take(k))) > len) && forall|j: int|
                0 <= j < k ==> utf8_len(#[trigger] joined(texts.take(j))) <= len,
{
    let k = lemma_summary_upto_prefix(texts, len, texts.len() as int);
    assert(short_summary(texts, len) == joined(texts.take(k)));
}

/// The short summary of an HTML text: its text nodes' texts appended in
/// turn until it holds more than `len` bytes.
pub open spec fn html_summary(html: Seq<char>, len: nat) -> Seq<char> {
    short_summary(html_fragment_texts(html), len)
}

/// The text of an HTML summary, cut after the text node that takes it past
/// `len` bytes.
pub fn get_short_summary(html_summary: &str, len: usize) -> (r: String)
    ensures
        r@ == self::html_summary(html_summary@, len as nat),
{
    let texts = fragment_texts(html_summary);
    summarise_texts(&texts, len)
}

} // verus!
