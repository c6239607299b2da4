use sitescraper::parse_html;
use sitescraper::ParseError;

// Whole-document rendering returns exactly the root element's own markup,
// not a concatenation of nested duplicates.
#[test]
fn whole_document_render_is_root_markup() {
    let html = "<html><body><div id='hello'>Hello World!</div></body></html>";
    let dom = parse_html(html).unwrap();
    assert_eq!(dom.to_string(), html);
}

// An unconstrained selector is the identity: rendering is unchanged.
#[test]
fn unconstrained_filter_is_identity() {
    let html = "<html><body><div id='hello'>Hello World!</div></body></html>";
    let dom = parse_html(html).unwrap();
    let same = dom.filter(("", "", ""));
    assert_eq!(same.to_string(), dom.to_string());
    assert_eq!(same.get_text(), dom.get_text());
}

// Filtering by a tag name twice yields the same element sequence as once.
#[test]
fn tag_filter_is_idempotent() {
    let html = "<p><div>a</div><span>s</span><div>b</div></p>";
    let dom = parse_html(html).unwrap();
    let once = dom.filter("div");
    let twice = dom.filter("div").filter("div");
    assert_eq!(once.tag.len(), twice.tag.len());
    for k in 0..once.tag.len() {
        assert_eq!(once.tag[k].to_string(), twice.tag[k].to_string());
    }
}

// A full selector yields a subsequence, in source order, of what the tag
// name alone yields.
#[test]
fn full_selector_narrows_tag_selector() {
    let html = "<p><div id='a'>1</div><div class='c'>2</div><div id='b'>3</div></p>";
    let dom = parse_html(html).unwrap();
    let by_tag = dom.filter("div");
    let narrowed = dom.filter(("div", "id", "a"));
    assert_eq!(by_tag.tag.len(), 3);
    assert_eq!(narrowed.tag.len(), 1);
    assert_eq!(narrowed.tag[0].to_string(), by_tag.tag[0].to_string());
}

// The round-trip literal: drill-down filtering keeps the match, and every
// rendering of it gives back the expected fragment.
#[test]
fn round_trip_literal() {
    let html = "<html><body><div id='hello'>Hello World!</div></body></html>";
    let dom = parse_html(html).unwrap();

    let divs = dom.filter("div");
    assert_eq!(divs.get_inner_html(), "Hello World!");
    assert_eq!(divs.get_attr_value("id"), "hello");

    let body = dom.filter("body");
    assert_eq!(body.get_text(), "Hello World!");

    let div_id = dom.filter(("div", "id"));
    assert_eq!(div_id.get_text(), "Hello World!");
    assert_eq!(div_id.get_inner_html(), "Hello World!");
    assert_eq!(div_id.to_string(), "<div id='hello'>Hello World!</div>");
}

// Text extraction returns the visible text of the match alone, with all
// markup tags stripped and nested elements traversed.
#[test]
fn text_extraction_strips_markup() {
    let html = "<html><body><h1>Title here</h1><p>One <a href='x'>link</a> text</p></body></html>";
    let dom = parse_html(html).unwrap();
    assert_eq!(dom.filter("h1").get_text(), "Title here");
    assert_eq!(dom.filter("p").get_text(), "One link text");
}

// Unquoted attribute value terminated by `>` with no trailing space.
#[test]
fn unquoted_attr_value_at_tag_end() {
    let html = "<html><div id=hello>Hi</div></html>";
    let dom = parse_html(html).unwrap();
    assert_eq!(dom.filter("div").tag[0].get_attr_value("id"), "hello");
    assert_eq!(dom.filter("div").get_attr_value("id"), "hello");
}

// Unquoted attribute value terminated by a space.
#[test]
fn unquoted_attr_value_before_space() {
    let html = "<html><div id=hello class=x>Hi</div></html>";
    let dom = parse_html(html).unwrap();
    assert_eq!(dom.filter("div").tag[0].get_attr_value("id"), "hello");
    assert_eq!(dom.filter("div").tag[0].get_attr_value("class"), "x");
}

// Double-quoted attribute values.
#[test]
fn double_quoted_attr_value() {
    let html = "<html><a href=\"https://example.com/\">x</a></html>";
    let dom = parse_html(html).unwrap();
    assert_eq!(dom.filter("a").tag[0].get_attr_value("href"), "https://example.com/");
}

// A missing attribute yields empty text, not an error.
#[test]
fn missing_attr_value_is_empty() {
    let html = "<html><div>Hi</div></html>";
    let dom = parse_html(html).unwrap();
    assert_eq!(dom.filter("div").tag[0].get_attr_value("id"), "");
}

// Filtering a document with zero elements returns zero elements, and
// rendering it returns empty text; none of it is an error.
#[test]
fn empty_document_edge_cases() {
    let html = "<html><a>x</a></html>";
    let dom = parse_html(html).unwrap();
    let none = dom.filter("div");
    assert_eq!(none.tag.len(), 0);
    let still_none = none.filter("span");
    assert_eq!(still_none.tag.len(), 0);
    assert_eq!(none.to_string(), "");
    assert_eq!(none.get_inner_html(), "");
    assert_eq!(none.get_text(), "");
    assert_eq!(none.get_attr_value("id"), "");
}

// A whole document whose only element has a blank name renders to empty
// text instead of failing.
#[test]
fn all_blank_whole_document_renders_empty() {
    let html = "a < b > c";
    let dom = parse_html(html).unwrap();
    assert_eq!(dom.to_string(), "");
    assert_eq!(dom.get_inner_html(), "");
    assert_eq!(dom.get_text(), "");
}

// Text missing either angle bracket is rejected with the input error.
#[test]
fn parse_rejects_tagless_text() {
    assert!(matches!(parse_html("no tags at all"), Err(ParseError::InvalidInput)));
    assert!(matches!(parse_html("only < here"), Err(ParseError::InvalidInput)));
    assert!(matches!(parse_html("only > here"), Err(ParseError::InvalidInput)));
    assert!(parse_html("<>").is_ok());
}
