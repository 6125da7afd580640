use vstd::prelude::*;

use crate::subscriptions::{SubscriptionSet, SubscriptionView};
use crate::text::text_lt;
use crate::xml::AttrView;

verus! {

#[verifier::external_type_specification]
#[verifier::external_body]
pub struct ExXmlElement(xml_builder::XMLElement);

#[verifier::external_type_specification]
#[verifier::external_body]
pub struct ExXmlDocument(xml_builder::XML);

#[verifier::external_type_specification]
#[verifier::external_body]
pub struct ExXmlBuilder(xml_builder::XMLBuilder);

#[verifier::external_type_specification]
#[verifier::external_body]
pub struct ExXmlError(xml_builder::XMLError);

/// The content of an element of xml_builder: none, child elements, or a
/// text.
pub enum ElementContent {
    Empty,
    Elements(Seq<ElementModel>),
    Text(Seq<char>),
}

/// An element of xml_builder as plain values: its tag, its attributes (the
/// values as stored, that is escaped) in the order they were added, whether
/// it sorts its attributes (`None`: as the document does), and its content.
pub struct ElementModel {
    pub name: Seq<char>,
    pub attributes: Seq<(Seq<char>, Seq<char>)>,
    pub sorting: Option<bool>,
    pub content: ElementContent,
}

/// The settings of an xml_builder document or builder: the version and
/// encoding as written in the declaration, the standalone mark, and the
/// rendering options.
pub struct XmlSettings {
    pub version: Seq<char>,
    pub encoding: Seq<char>,
    pub standalone: Option<bool>,
    pub indent: bool,
    pub sort_attributes: bool,
    pub break_lines: bool,
    pub expand_empty_tags: bool,
}

/// An xml_builder document as plain values: its settings and root element.
pub struct DocumentModel {
    pub settings: XmlSettings,
    pub root: Option<ElementModel>,
}

/// What an element of xml_builder holds.
pub uninterp spec fn element_model(e: xml_builder::XMLElement) -> ElementModel;

/// What an xml_builder builder holds.
pub uninterp spec fn builder_settings(b: xml_builder::XMLBuilder) -> XmlSettings;

/// What an xml_builder document holds.
pub uninterp spec fn document_model(x: xml_builder::XML) -> DocumentModel;

/// A character as xml_builder's `escape_str` writes it in an attribute.
pub open spec fn escaped_char(c: char) -> Seq<char> {
    if c == '&' {
        "&amp;"@
    } else if c == '"' {
        "&quot;"@
    } else if c == '\'' {
        "&apos;"@
    } else if c == '<' {
        "&lt;"@
    } else if c == '>' {
        "&gt;"@
    } else {
        seq![c]
    }
}

/// xml_builder's `escape_str`: its five replacements in turn, `&` first,
/// escape each of `& " ' < >` once, since no replacement brings in a
/// character that a later one replaces.
pub open spec fn escaped(s: Seq<char>) -> Seq<char>
    decreases s.len(),
{
    if s.len() == 0 {
        Seq::empty()
    } else {
        escaped(s.drop_last()) + escaped_char(s.last())
    }
}

/// The order of `(String, String)` pairs: by the first text, then the
/// second.
pub open spec fn attribute_le(a: (Seq<char>, Seq<char>), b: (Seq<char>, Seq<char>)) -> bool {
    text_lt(a.0, b.0) || (a.0 == b.0 && !text_lt(b.1, a.1))
}

/// The order of pairs as a function.
pub open spec fn attribute_leq() -> spec_fn((Seq<char>, Seq<char>), (Seq<char>, Seq<char>)) -> bool {
    |a: (Seq<char>, Seq<char>), b: (Seq<char>, Seq<char>)| attribute_le(a, b)
}

/// `n` tabs.
pub open spec fn tabs(n: nat) -> Seq<char>
    decreases n,
{
    if n == 0 {
        Seq::empty()
    } else {
        tabs((n - 1) as nat) + "\t"@
    }
}

/// The attributes as xml_builder writes them: ` name="value"` each, in turn.
pub open spec fn attributes_text(attrs: Seq<(Seq<char>, Seq<char>)>) -> Seq<char>
    decreases attrs.len(),
{
    if attrs.len() == 0 {
        Seq::empty()
    } else {
        attributes_text(attrs.drop_last()) + " "@ + attrs.last().0 + "=\""@ + attrs.last().1
            + "\""@
    }
}

/// The attributes of an element as written: sorted where the element, or
/// else the document, asks for it.
pub open spec fn shown_attributes(e: ElementModel, sort: bool) -> Seq<char> {
    let sorted = match e.sorting {
        Some(b) => b,
        None => sort,
    };
    attributes_text(if sorted { e.attributes.sort_by(attribute_leq()) } else { e.attributes })
}

/// The line end of a document: a newline where it breaks lines.
pub open spec fn line_end(s: XmlSettings) -> Seq<char> {
    if s.break_lines {
        "\n"@
    } else {
        Seq::empty()
    }
}

/// The indentation of an element at depth `level`.
pub open spec fn indentation(s: XmlSettings, level: nat) -> Seq<char> {
    if s.indent {
        tabs(level)
    } else {
        Seq::empty()
    }
}

/// xml_builder's `render_level`: an element at depth `level` as written.
pub open spec fn rendered_element(e: ElementModel, level: nat, s: XmlSettings) -> Seq<char>
    decreases e,
{
    let open = indentation(s, level) + "<"@ + e.name + shown_attributes(e, s.sort_attributes);
    match e.content {
        ElementContent::Empty => if s.expand_empty_tags {
            open + "></"@ + e.name + ">"@ + line_end(s)
        } else {
            open + " />"@ + line_end(s)
        },
        ElementContent::Elements(children) => open + ">"@ + line_end(s) + rendered_children(
            children,
            level + 1,
            s,
        ) + indentation(s, level) + "</"@ + e.name + ">"@ + line_end(s),
        ElementContent::Text(t) => open + ">"@ + t + "</"@ + e.name + ">"@ + line_end(s),
    }
}

/// Child elements at depth `level`, one after the other.
pub open spec fn rendered_children(cs: Seq<ElementModel>, level: nat, s: XmlSettings) -> Seq<char>
    decreases cs,
{
    if cs.len() == 0 {
        Seq::empty()
    } else {
        rendered_children(cs.subrange(0, cs.len() - 1), level, s) + rendered_element(
            cs[cs.len() - 1],
            level,
            s,
        )
    }
}

/// xml_builder's `generate`: the XML declaration, then the root element.
pub open spec fn rendered_document(d: DocumentModel) -> Seq<char> {
    "<?xml version=\""@ + d.settings.version + "\" encoding=\""@ + d.settings.encoding + "\""@ + (
    if d.settings.standalone is Some {
        " standalone=\"yes\""@
    } else {
        Seq::empty()
    }) + "?>"@ + line_end(d.settings) + match d.root {
        Some(e) => rendered_element(e, 0, d.settings),
        None => Seq::empty(),
    }
}

/// The child elements of a content: none unless it is `Elements`.
pub open spec fn children_of(c: ElementContent) -> Seq<ElementModel> {
    match c {
        ElementContent::Elements(cs) => cs,
        _ => Seq::empty(),
    }
}

/// `XMLElement::new`: an element with the given tag, no attribute, no
/// sorting of its own and no content.
#[verifier::external_body]
fn new_element(name: &str) -> (r: xml_builder::XMLElement)
    ensures
        element_model(r) == (ElementModel {
            name: name@,
            attributes: Seq::empty(),
            sorting: None,
            content: ElementContent::Empty,
        }),
{
    xml_builder::XMLElement::new(name)
}

/// `XMLElement::add_attribute`: appends the name and the escaped value.
#[verifier::external_body]
fn add_attribute(e: &mut xml_builder::XMLElement, name: &str, value: &str)
    ensures
        element_model(*final(e)) == (ElementModel {
            attributes: element_model(*old(e)).attributes.push((name@, escaped(value@))),
            ..element_model(*old(e))
        }),
{
    e.add_attribute(name, value)
}

/// `XMLElement::add_child`: fails, leaving the element as it was, exactly
/// when the element holds a text; else appends the child.
#[verifier::external_body]
fn add_child(e: &mut xml_builder::XMLElement, child: xml_builder::XMLElement) -> (r: Result<
    (),
    xml_builder::XMLError,
>)
    ensures
        r is Ok <==> !(element_model(*old(e)).content is Text),
        r is Ok ==> element_model(*final(e)) == (ElementModel {
            content: ElementContent::Elements(
                children_of(element_model(*old(e)).content).push(element_model(child)),
            ),
            ..element_model(*old(e))
        }),
        r is Err ==> *final(e) == *old(e),
{
    e.add_child(child)
}

/// `XMLElement::add_text`: fails, leaving the element as it was, exactly
/// when the element already has content; else the text is its content.
#[verifier::external_body]
fn add_text(e: &mut xml_builder::XMLElement, text: String) -> (r: Result<(), xml_builder::XMLError>)
    ensures
        r is Ok <==> element_model(*old(e)).content is Empty,
        r is Ok ==> element_model(*final(e)) == (ElementModel {
            content: ElementContent::Text(text@),
            ..element_model(*old(e))
        }),
        r is Err ==> *final(e) == *old(e),
{
    e.add_text(text)
}

/// `XMLBuilder::new`: xml_builder's defaults, XML 1.0 in UTF-8, no
/// standalone mark, indented, unsorted, lines broken, empty tags closed
/// short.
#[verifier::external_body]
fn new_builder() -> (r: xml_builder::XMLBuilder)
    ensures
        builder_settings(r) == (XmlSettings {
            version: "1.0"@,
            encoding: "UTF-8"@,
            standalone: None,
            indent: true,
            sort_attributes: false,
            break_lines: true,
            expand_empty_tags: false,
        }),
{
    xml_builder::XMLBuilder::new()
}

/// `XMLBuilder::version`, with XML 1.1 (written `1.1`).
#[verifier::external_body]
fn version_1_1(b: xml_builder::XMLBuilder) -> (r: xml_builder::XMLBuilder)
    ensures
        builder_settings(r) == (XmlSettings { version: "1.1"@, ..builder_settings(b) }),
{
    b.version(xml_builder::XMLVersion::XML1_1)
}

/// `XMLBuilder::encoding`.
#[verifier::external_body]
fn with_encoding(b: xml_builder::XMLBuilder, encoding: String) -> (r: xml_builder::XMLBuilder)
    ensures
        builder_settings(r) == (XmlSettings { encoding: encoding@, ..builder_settings(b) }),
{
    b.encoding(encoding)
}

/// `XMLBuilder::build`: a document with the builder's settings and no root.
#[verifier::external_body]
fn build_document(b: xml_builder::XMLBuilder) -> (r: xml_builder::XML)
    ensures
        document_model(r) == (DocumentModel { settings: builder_settings(b), root: None }),
{
    b.build()
}

/// `XML::set_root_element`.
#[verifier::external_body]
fn set_root(x: &mut xml_builder::XML, e: xml_builder::XMLElement)
    ensures
        document_model(*final(x)) == (DocumentModel {
            root: Some(element_model(e)),
            ..document_model(*old(x))
        }),
{
    x.set_root_element(e)
}

/// `XML::generate` into a byte vector, read back as text. xml_builder's
/// source fails only where the writer fails, and std documents `Write` for
/// `Vec<u8>` as appending to the vector, which grows as needed; so the call
/// succeeds, and what it writes is the declaration and the root element as
/// `rendered_document` states (all of it UTF-8 text, which the conversion
/// keeps as it is).
#[verifier::external_body]
fn generate(x: xml_builder::XML) -> (r: Result<String, xml_builder::XMLError>)
    ensures
        r is Ok,
        r is Ok ==> r->Ok_0@ == rendered_document(document_model(x)),
{
    let mut bytes: Vec<u8> = Vec::new();
    match x.generate(&mut bytes) {
        Ok(()) => Ok(String::from_utf8_lossy(&bytes).into_owned()),
        Err(e) => Err(e),
    }
}

/// The `outline` element of a subscription: its name as `text`, type
/// `rss`, its URL as `xmlUrl`.
pub open spec fn outline_element(s: SubscriptionView) -> ElementModel {
    ElementModel {
        name: "outline"@,
        attributes: seq![("text"@, escaped(s.name)), ("type"@, escaped("rss"@)), ("xmlUrl"@, escaped(s.url))],
        sorting: None,
        content: ElementContent::Empty,
    }
}

/// The `body` element: an outline per subscription, in order.
pub open spec fn body_element(subs: Seq<SubscriptionView>) -> ElementModel {
    ElementModel {
        name: "body"@,
        attributes: Seq::empty(),
        sorting: None,
        content: if subs.len() == 0 {
            ElementContent::Empty
        } else {
            ElementContent::Elements(subs.map_values(|s: SubscriptionView| outline_element(s)))
        },
    }
}

/// The `head` element: a `title` "Kiss RSS".
pub open spec fn head_element() -> ElementModel {
    ElementModel {
        name: "head"@,
        attributes: Seq::empty(),
        sorting: None,
        content: ElementContent::Elements(
            seq![ElementModel { name: "title"@, attributes: Seq::empty(), sorting: None, content: ElementContent::Text("Kiss RSS"@) }],
        ),
    }
}

/// The OPML tree of a list of subscriptions: `opml` (version 1.0) holding
/// the head and the body.
pub open spec fn opml_tree(subs: Seq<SubscriptionView>) -> ElementModel {
    ElementModel {
        name: "opml"@,
        attributes: seq![("version"@, escaped("1.0"@))],
        sorting: None,
        content: ElementContent::Elements(seq![head_element(), body_element(subs)]),
    }
}

/// The settings of the OPML file: XML 1.1 in UTF-8, otherwise xml_builder's
/// defaults.
pub open spec fn opml_settings() -> XmlSettings {
    XmlSettings {
        version: "1.1"@,
        encoding: "UTF-8"@,
        standalone: None,
        indent: true,
        sort_attributes: false,
        break_lines: true,
        expand_empty_tags: false,
    }
}

/// The text of the OPML file of a list of subscriptions.
pub open spec fn opml_file_text(subs: Seq<SubscriptionView>) -> Seq<char> {
    rendered_document(DocumentModel { settings: opml_settings(), root: Some(opml_tree(subs)) })
}

/// A character that XML allows in an attribute value and that a parser
/// reads back as it is: any character XML allows, but the tab and the line
/// breaks, which attribute-value normalisation turns into spaces.
pub open spec fn attribute_char(c: char) -> bool {
    ('\u{20}' <= c && c <= '\u{D7FF}') || ('\u{E000}' <= c && c <= '\u{FFFD}') || '\u{10000}' <= c
}

/// Every character of a text is an `attribute_char`.
pub open spec fn attribute_text(v: Seq<char>) -> bool {
    forall|i: int| 0 <= i < v.len() ==> attribute_char(#[trigger] v[i])
}

/// The names and URLs of the subscriptions are all `attribute_text`.
pub open spec fn readable_subscriptions(subs: Seq<SubscriptionView>) -> bool {
    forall|i: int|
        0 <= i < subs.len() ==> attribute_text(#[trigger] subs[i].name) && attribute_text(subs[i].url)
}

/// An attribute without a namespace, as a parser reports it.
pub open spec fn plain_attribute(name: Seq<char>, value: Seq<char>) -> AttrView {
    AttrView { namespace: None, name, value }
}

/// The element of a subscription's outline, as a parser reports it: its
/// tag and its attributes with their values unescaped.
pub open spec fn outline_shape(s: SubscriptionView) -> (Seq<char>, Seq<AttrView>) {
    (
        "outline"@,
        seq![plain_attribute("text"@, s.name), plain_attribute("type"@, "rss"@), plain_attribute("xmlUrl"@, s.url)],
    )
}

/// The elements of the OPML text of a list of subscriptions, in document
/// order, as a parser reports them: `opml`, `head`, `title`, `body`, then an
/// `outline` per subscription.
pub open spec fn opml_shapes(subs: Seq<SubscriptionView>) -> Seq<(Seq<char>, Seq<AttrView>)> {
    seq![
        ("opml"@, seq![plain_attribute("version"@, "1.0"@)]),
        ("head"@, Seq::<AttrView>::empty()),
        ("title"@, Seq::<AttrView>::empty()),
        ("body"@, Seq::<AttrView>::empty()),
    ] + subs.map_values(|s: SubscriptionView| outline_shape(s))
}

/// The root element of the OPML document that keeps a set. Every insertion
/// succeeds.
pub fn opml_root(set: &SubscriptionSet) -> (r: xml_builder::XMLElement)
    ensures
        element_model(r) == opml_tree(set@.subscriptions),
{
    let ghost subs = set@.subscriptions;
    let mut opml = new_element("opml");
    add_attribute(&mut opml, "version", "1.0");
    let mut head = new_element("head");
    let mut title = new_element("title");
    let added = add_text(&mut title, "Kiss RSS".to_string());
    assert(added is Ok);
    let added = add_child(&mut head, title);
    assert(added is Ok);
    assert(element_model(head) == head_element());
    let added = add_child(&mut opml, head);
    assert(added is Ok);
    let mut body = new_element("body");
    assert(subs.take(0) =~= Seq::<SubscriptionView>::empty());
    let mut i: usize = 0;
    while i < set.subscriptions.len()
        invariant
            i <= set.subscriptions.len(),
            subs == set@.subscriptions,
            subs.len() == set.subscriptions@.len(),
            element_model(body) == body_element(subs.take(i as int)),
        decreases set.subscriptions.len() - i,
    {
        let subscription = &set.subscriptions[i];
        assert(subs[i as int] == subscription@);
        let mut outline = new_element("outline");
        add_attribute(&mut outline, "text", subscription.name.as_str());
        add_attribute(&mut outline, "type", "rss");
        add_attribute(&mut outline, "xmlUrl", subscription.url.as_str());
        assert(element_model(outline).attributes =~= outline_element(subs[i as int]).attributes);
        let added = add_child(&mut body, outline);
        assert(added is Ok);
        proof {
            let f = |s: SubscriptionView| outline_element(s);
            assert(subs.take(i + 1).map_values(f) =~= subs.take(i as int).map_values(f).push(
                outline_element(subs[i as int]),
            ));
            assert(subs.take(0).map_values(f) =~= Seq::<ElementModel>::empty());
        }
        i = i + 1;
    }
    assert(subs.take(subs.len() as int) =~= subs);
    let added = add_child(&mut opml, body);
    assert(added is Ok);
    assert(element_model(opml).attributes =~= opml_tree(subs).attributes);
    assert(children_of(element_model(opml).content) =~= seq![head_element(), body_element(subs)]);
    opml
}

/// The text of the OPML file that keeps a set: an XML 1.1 document in UTF-8
/// whose root is `opml_root(set)`.
pub fn opml_document(set: &SubscriptionSet) -> (r: String)
    ensures
        r@ == opml_file_text(set@.subscriptions),
{
    let builder = with_encoding(version_1_1(new_builder()), "UTF-8".to_string());
    let mut xml = build_document(builder);
    set_root(&mut xml, opml_root(set));
    match generate(xml) {
        Ok(text) => text,
        Err(_) => {
            proof {
                assert(false);
            }
            String::new()
        },
    }
}

} // verus!
