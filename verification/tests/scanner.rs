use sitescraper::parse_html;

// A closing tag closes the most recently opened element of its name.
#[test]
fn nested_same_name_elements() {
    let html = "<html><div><div>inner</div>outer</div></html>";
    let dom = parse_html(html).unwrap();
    let divs = dom.filter("div");
    assert_eq!(divs.tag.len(), 2);
    assert_eq!(divs.tag[0].get_inner_html(), "<div>inner</div>outer");
    assert_eq!(divs.tag[1].get_inner_html(), "inner");
}

// An unmatched closing tag is ignored and produces no element.
#[test]
fn unmatched_closing_tag_is_ignored() {
    let html = "<html><div>a</span>b</div></html>";
    let dom = parse_html(html).unwrap();
    let divs = dom.filter("div");
    assert_eq!(divs.tag.len(), 1);
    assert_eq!(divs.tag[0].get_inner_html(), "a</span>b");
    assert_eq!(dom.filter("span").tag.len(), 0);
}

// An element still open at end of input closes implicitly there.
#[test]
fn unterminated_element_closes_at_end() {
    let html = "<div>abc";
    let dom = parse_html(html).unwrap();
    let divs = dom.filter("div");
    assert_eq!(divs.tag.len(), 1);
    assert_eq!(divs.tag[0].get_inner_html(), "abc");
}

// Tag names are normalized to lowercase; opening markup keeps its casing;
// the synthesized closing tag uses the normalized name.
#[test]
fn names_are_lowercased() {
    let html = "<html><DIV Id='x'>y</DIV></html>";
    let dom = parse_html(html).unwrap();
    let divs = dom.filter("div");
    assert_eq!(divs.tag.len(), 1);
    assert_eq!(divs.tag[0].get_tagname(), "div");
    assert_eq!(divs.tag[0].to_string(), "<DIV Id='x'>y</div>");
}

// Void elements and self-closed tags produce elements with empty inner
// markup and leave nesting untouched.
#[test]
fn void_and_self_closing_elements() {
    let html = "<div><br><img src='x'><meta />text</div>";
    let dom = parse_html(html).unwrap();
    assert_eq!(dom.filter("img").tag[0].get_attr_value("src"), "x");
    assert_eq!(dom.filter("br").tag[0].get_inner_html(), "");
    let divs = dom.filter("div");
    assert_eq!(divs.tag.len(), 1);
    assert_eq!(divs.tag[0].get_inner_html(), "<br><img src='x'><meta />text");
    assert_eq!(divs.get_text(), "text");
}

// Comments and declarations produce no elements and hide their contents.
#[test]
fn comments_and_doctype_are_skipped() {
    let html = "<!doctype html><!-- <div>no</div> --><p>hi</p>";
    let dom = parse_html(html).unwrap();
    assert_eq!(dom.filter("div").tag.len(), 0);
    let ps = dom.filter("p");
    assert_eq!(ps.tag.len(), 1);
    assert_eq!(ps.get_text(), "hi");
}

// Style and script contents are excluded from visible text.
#[test]
fn invisible_elements_excluded_from_text() {
    let html = "<div><style>p{color:red}</style>Hello<script>var x=1</script> World</div>";
    let dom = parse_html(html).unwrap();
    assert_eq!(dom.filter("div").get_text(), "Hello World");
    assert_eq!(dom.filter("style").get_text(), "");
}

// Match-scope rendering suppresses exact duplicates, first occurrence
// first, and concatenates without separator.
#[test]
fn duplicate_renderings_are_suppressed() {
    let html = "<p><div>x</div><div>x</div><div>y</div></p>";
    let dom = parse_html(html).unwrap();
    let divs = dom.filter("div");
    assert_eq!(divs.tag.len(), 3);
    assert_eq!(divs.get_inner_html(), "xy");
    assert_eq!(divs.to_string(), "<div>x</div><div>y</div>");
}

// Document-level attribute rendering walks every element and deduplicates.
#[test]
fn attr_values_collected_over_all_elements() {
    let html = "<p><div id='a'>1</div><div id='b'>2</div><div id='a'>3</div></p>";
    let dom = parse_html(html).unwrap();
    assert_eq!(dom.filter("div").get_attr_value("id"), "ab");
}

// Filtering by attribute name alone accepts quoted and unquoted syntax.
#[test]
fn attr_name_filter_accepts_both_syntaxes() {
    let html = "<p><div id=\"q\">1</div><span id=u>2</span><b>3</b></p>";
    let dom = parse_html(html).unwrap();
    let with_id = dom.filter(("", "id"));
    assert_eq!(with_id.tag.len(), 2);
    assert_eq!(with_id.get_text(), "12");
}

// Filtering by attribute value alone matches its quoted and unquoted forms.
#[test]
fn attr_value_filter_matches_forms() {
    let html = "<p><div id=\"v\">1</div><span id='v'>2</span><b id=v>3</b><i id=w>4</i></p>";
    let dom = parse_html(html).unwrap();
    let hits = dom.filter(("", "", "v"));
    assert_eq!(hits.tag.len(), 3);
    assert_eq!(hits.get_text(), "123");
}

// The wildcard component constrains nothing but still re-scopes.
#[test]
fn wildcard_components_match_everything() {
    let html = "<html><body><div id='hello'>Hello World!</div></body></html>";
    let dom = parse_html(html).unwrap();
    let all = dom.filter(("*", "*", "hello"));
    assert_eq!(all.tag.len(), 1);
    assert_eq!(all.get_text(), "Hello World!");
}
