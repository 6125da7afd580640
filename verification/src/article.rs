use vstd::prelude::*;
use vstd::string::StringExecFns;

verus! {

/// The readable article of a web page: its text, and the article's title,
/// the page's title and its description where the page gives them.
pub struct Article {
    pub text: String,
    pub article_title: Option<String>,
    pub page_title: Option<String>,
    pub description: Option<String>,
}

/// The view of an optional text.
pub open spec fn optional_text(o: Option<String>) -> Option<Seq<char>> {
    match o {
        Some(s) => Some(s@),
        None => None,
    }
}

/// An article as plain values: the text, the article's title, the page's
/// title and the description.
pub open spec fn article_parts(a: Article) -> (Seq<char>, Option<Seq<char>>, Option<Seq<char>>, Option<Seq<char>>) {
    (a.text@, optional_text(a.article_title), optional_text(a.page_title), optional_text(a.description))
}

/// The view of an optional article.
pub open spec fn article_view(r: Option<Article>) -> Option<
    (Seq<char>, Option<Seq<char>>, Option<Seq<char>>, Option<Seq<char>>),
> {
    match r {
        Some(a) => Some(article_parts(a)),
        None => None,
    }
}

/// What readable_readability extracts from an HTML page whose links are
/// resolved against `base_url`: the text of the readable part and the
/// page's metadata; `None` where the url crate refuses the base URL.
pub uninterp spec fn readable_article(html: Seq<char>, base_url: Seq<char>) -> Option<
    (Seq<char>, Option<Seq<char>>, Option<Seq<char>>, Option<Seq<char>>),
>;

/// Parses the base URL with `Url::parse` and, where it is a URL, runs
/// readable_readability's `Readability::new().base_url(..).parse(html)`,
/// keeping the text of the tree (`text_contents`) and the article title,
/// page title and description of the metadata. The contract only names the
/// result: the extraction is not restated. That the call returns for every
/// page rests on the source, not on a proof: the selector it unwraps is a
/// constant, the child it unwraps in `transform_div` is one that
/// `has_single_p` has just found, and the scores it sorts with
/// `partial_cmp(..).unwrap()` are finite, since a candidate is an ancestor
/// of a paragraph of at least 25 characters whose text and link lengths it
/// sums (`text_len > 0`, `link_len <= text_len`), so the link density it
/// divides by is never `0 / 0`.
#[verifier::external_body]
pub(crate) fn read_article(html: &str, base_url: &str) -> (r: Option<Article>)
    ensures
        article_view(r) == readable_article(html@, base_url@),
{
    let url = match url::Url::parse(base_url) {
        Ok(u) => u,
        Err(_) => return None,
    };
    let (tree, meta) = readable_readability::Readability::new().base_url(url).parse(html);
    Some(Article {
        text: tree.text_contents(),
        article_title: meta.article_title,
        page_title: meta.page_title,
        description: meta.description,
    })
}

/// An optional text, or the empty text.
pub open spec fn text_or_empty(o: Option<Seq<char>>) -> Seq<char> {
    match o {
        Some(t) => t,
        None => Seq::empty(),
    }
}

/// The lines that show an article: its text, the article's title, the
/// page's title and the description, each empty where the page gives none.
pub open spec fn article_lines_view(
    a: (Seq<char>, Option<Seq<char>>, Option<Seq<char>>, Option<Seq<char>>),
) -> Seq<Seq<char>> {
    seq![a.0, text_or_empty(a.1), text_or_empty(a.2), text_or_empty(a.3)]
}

/// An article is shown in four lines: its text first, then the article's
/// title, the page's title and the description, each the empty line where
/// the page gives none.
pub proof fn lemma_article_lines_show(
    a: (Seq<char>, Option<Seq<char>>, Option<Seq<char>>, Option<Seq<char>>),
)
    ensures
        article_lines_view(a).len() == 4,
        article_lines_view(a)[0] == a.0,
        a.1 matches Some(t) ==> article_lines_view(a)[1] == t,
        a.1 is None ==> article_lines_view(a)[1] == Seq::<char>::empty(),
        a.2 matches Some(t) ==> article_lines_view(a)[2] == t,
        a.2 is None ==> article_lines_view(a)[2] == Seq::<char>::empty(),
        a.3 matches Some(t) ==> article_lines_view(a)[3] == t,
        a.3 is None ==> article_lines_view(a)[3] == Seq::<char>::empty(),
{
}

/// The views of a list of lines.
pub open spec fn lines_view(v: Seq<String>) -> Seq<Seq<char>> {
    v.map_values(|s: String| s@)
}

fn or_empty(o: &Option<String>) -> (r: String)
    ensures
        r@ == text_or_empty(optional_text(*o)),
{
    match o {
        Some(t) => String::from_str(t.as_str()),
        None => String::new(),
    }
}

/// The lines that show an article.
pub fn article_lines(a: &Article) -> (r: Vec<String>)
    ensures
        lines_view(r@) == article_lines_view(article_parts(*a)),
        r@.len() == 4,
        r@[0]@ == a.text@,
        r@[1]@ == text_or_empty(optional_text(a.article_title)),
        r@[2]@ == text_or_empty(optional_text(a.page_title)),
        r@[3]@ == text_or_empty(optional_text(a.description)),
{
    let mut v: Vec<String> = Vec::new();
    v.push(String::from_str(a.text.as_str()));
    v.push(or_empty(&a.article_title));
    v.push(or_empty(&a.page_title));
    v.push(or_empty(&a.description));
    assert(lines_view(v@) =~= article_lines_view(article_parts(*a)));
    v
}

/// The lines that show the readable article of a page; `None` where the
/// base URL is not a URL.
pub fn page_article_lines(html: &str, base_url: &str) -> (r: Option<Vec<String>>)
    ensures
        match readable_article(html@, base_url@) {
            Some(a) => r matches Some(v) && lines_view(v@) == article_lines_view(a),
            None => r is None,
        },
        readable_article(html@, base_url@) matches Some(a) ==> r matches Some(v) && v@.len() == 4
            && v@[0]@ == a.0 && v@[1]@ == text_or_empty(a.1) && v@[2]@ == text_or_empty(a.2)
            && v@[3]@ == text_or_empty(a.3),
{
    match read_article(html, base_url) {
        Some(a) => Some(article_lines(&a)),
        None => None,
    }
}

} // verus!
