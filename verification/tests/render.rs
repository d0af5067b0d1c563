use shuttle_christmas::render::RenderContent;

fn page(body: &str) -> String {
    format!("<html>\n  <head>\n    <title>CCH23 Day 14</title>\n  </head>\n  <body>\n    {body}\n  </body>\n</html>")
}

fn raw(content: &str) -> String {
    RenderContent { content: content.to_string() }.create_html()
}

fn safe(content: &str) -> String {
    RenderContent { content: content.to_string() }.create_safe_html()
}

#[test]
fn content_is_framed_as_it_is() {
    assert_eq!(raw("<h1>Welcome to the North Pole!</h1>"), page("<h1>Welcome to the North Pole!</h1>"));
    assert_eq!(raw(""), page(""));
    assert_eq!(
        raw("<h1>Welcome to the North Pole!</h1>"),
        "<html>\n  <head>\n    <title>CCH23 Day 14</title>\n  </head>\n  <body>\n    <h1>Welcome to the North Pole!</h1>\n  </body>\n</html>"
    );
}

#[test]
fn markup_is_escaped() {
    assert_eq!(
        safe("<script>alert(\"XSS Attack!\")</script>"),
        page("&lt;script&gt;alert(&quot;XSS Attack!&quot;)&lt;/script&gt;")
    );
    assert_eq!(safe("Tom & Jerry's"), page("Tom &amp; Jerry&#x27;s"));
}

#[test]
fn slashes_are_kept() {
    assert_eq!(safe("a/b//c"), page("a/b//c"));
    assert_eq!(safe("/"), page("/"));
}

#[test]
fn entity_of_a_slash_in_the_content_is_escaped_like_any_text() {
    assert_eq!(safe("&#x2F;"), page("&amp;#x2F;"));
    assert_eq!(safe("&#x2F;/&#x27;"), page("&amp;#x2F;/&amp;#x27;"));
}

#[test]
fn other_characters_are_kept() {
    assert_eq!(safe("héllo 😀 = ;#x2F"), page("héllo 😀 = ;#x2F"));
    assert_eq!(safe(""), page(""));
}
