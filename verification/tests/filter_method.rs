use sitescraper::parse_html;

// Test filter method
#[test]
fn test_filter_method() {
    let html = "<html><body><div id='hello'>Hello World!</div></body></html>";

    let dom = parse_html(html).unwrap();

    let filtered_dom = dom.filter("div");
    let filtered_dom2 = dom.filter("body");
    let filtered_dom3 = dom.filter(("div", "id"));
    let filtered_dom4 = dom.filter(("div", "id"));

    assert_eq!(filtered_dom.tag[0].get_attr_value("id"), "hello");
    assert_eq!(filtered_dom.tag[0].get_inner_html(), "Hello World!");
    assert_eq!(filtered_dom2.tag[0].get_text(), "Hello World!");
    assert_eq!(filtered_dom3.tag[0].get_text(), "Hello World!");
    assert_eq!(filtered_dom4.get_inner_html(), "Hello World!");

    let html = r#"
    <!doctype html>
    <html>
    <head>
        <title>Example Domain</title>

        <meta charset="utf-8" />
        <meta http-equiv="Content-type" content="text/html; charset=utf-8" />
        <meta name="viewport" content="width=device-width, initial-scale=1" />
        <style type="text/css">
        body {
            background-color: #f0f0f2;
            margin: 0;
            padding: 0;
            font-family: -apple-system, system-ui, BlinkMacSystemFont, "Segoe UI", "Open Sans", "Helvetica Neue", Helvetica, Arial, sans-serif;

        }
        div {
            width: 600px;
            margin: 5em auto;
            padding: 2em;
            background-color: #fdfdff;
            border-radius: 0.5em;
            box-shadow: 2px 3px 7px 2px rgba(0,0,0,0.02);
        }
        a:link, a:visited {
            color: #38488f;
            text-decoration: none;
        }
        @media (max-width: 700px) {
            div {
                margin: 0 auto;
                width: auto;
            }
        }
        </style>
    </head>

    <body>
    <div>
        <h1>Example Domain</h1>
        <p>This domain is for use in illustrative examples in documents. You may use this
        domain in literature without prior coordination or asking for permission.</p>
        <p><a href="https://www.iana.org/domains/example">More information...</a></p>
    </div>
    </body>
    </html>
    "#;

    let dom = parse_html(html).unwrap();
    let filtered_dom = dom.filter("h1");
    assert_eq!(filtered_dom.tag[0].get_text(), "Example Domain");
}
