use kiss_rss::article::page_article_lines;

const PAGE: &str = "<html><head><title>Page</title></head><body><h1>Head</h1>\
<p>First paragraph of text, with some commas, and more words here.</p></body></html>";

#[test]
fn article_of_a_page() {
    let lines = page_article_lines(PAGE, "https://news.example/story").unwrap();
    assert_eq!(lines.len(), 4);
    assert_eq!(lines[1], "Head");
    assert_eq!(lines[2], "Page");
    assert_eq!(lines[3], "First paragraph of text, with some commas, and more words here.");
}

#[test]
fn meta_tags_give_title_and_description() {
    let page = "<html><head><meta property=\"og:title\" content=\"Meta title\">\
<meta name=\"description\" content=\"Meta description\"></head><body><p>x</p></body></html>";
    let lines = page_article_lines(page, "https://news.example/").unwrap();
    assert_eq!(lines[1], "Meta title");
    assert_eq!(lines[2], "Meta title");
    assert_eq!(lines[3], "Meta description");
}

#[test]
fn a_base_that_is_not_a_url() {
    assert!(page_article_lines(PAGE, "not a url").is_none());
    assert!(page_article_lines(PAGE, "").is_none());
}
