# kiss_rss

A small reader of RSS and Atom feeds, written in Verus. The library reads
feeds and OPML subscription lists, keeps the news of each subscription,
merges and orders news items, renders the HTML fragments of the desktop
pages, writes OPML files and extracts the readable article of a page. Its
behaviour is stated in `requires`/`ensures` contracts and proved; what the
outside crates compute (chrono's dates, roxmltree's and scraper's parsing,
xml_builder's elements and output, readable_readability's extraction) is
taken from the contracts of a few trusted wrappers, which name or state it.

## Layout

- `src/` — the verified library.
  - `text.rs`, `time.rs`: the order of texts; instants as chrono keeps them,
    their differences in whole seconds and days, rounding, and the calls into
    chrono that parse and print dates.
  - `xml.rs`: a parsed XML document as plain values (the call into
    roxmltree), and the queries that the feeds make of it.
  - `feed.rs`: where a feed's entries stand and how each entry is read.
  - `story.rs`: the orders of news items, sorting, removal of neighbours
    with the same URL, and the laws of normalising a list.
  - `news.rs`, `subscriptions.rs`: news items and lists, subscriptions with
    their status and rate basis, sets of subscriptions and OPML loading.
  - `feeds.rs`, `console.rs`: the simpler item and subscription types of the
    library front end and of the terminal program.
  - `summary.rs`: short summaries of HTML (the call into scraper).
  - `pages.rs`: the HTML of the subscription tables, news pages and option
    groups.
  - `opml.rs`: the OPML document of a set: xml_builder's elements and
    output as plain values, the tree of a set and its text.
  - `article.rs`: the readable article of a page (the call into
    readable_readability).
- `tests/` — tests of the library on concrete values.
- `app/` — the program around it: files, downloads, the terminal loop, the
  bodies of the desktop commands, the desktop window, the rate of updates in
  floating point.
