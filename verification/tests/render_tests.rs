use scp_term::render::{render, HtmlNode, ScpError};

fn text(s: &str) -> HtmlNode {
    HtmlNode::Text(s.to_string())
}

fn elem(name: &str, attrs: &[(&str, &str)], children: Vec<HtmlNode>) -> HtmlNode {
    HtmlNode::Element {
        name: name.to_string(),
        attrs: attrs.iter().map(|(k, v)| (k.to_string(), v.to_string())).collect(),
        children,
    }
}

#[test]
fn text_newlines_are_stripped() {
    let n = text("line one\nline two\nline three\n");
    assert_eq!(render(&n).unwrap(), "line oneline twoline three");
}

#[test]
fn br_and_hr() {
    assert_eq!(render(&elem("br", &[], vec![text("ignored")])).unwrap(), "\n");
    assert_eq!(render(&elem("hr", &[], vec![text("ignored")])).unwrap(), "---");
}

#[test]
fn strong_inside_paragraph() {
    let n = elem(
        "p",
        &[],
        vec![text("Hello "), elem("strong", &[], vec![text("World")])],
    );
    assert_eq!(render(&n).unwrap(), "\nHello **World**\n");
}

#[test]
fn strikethrough_span() {
    let n = elem(
        "span",
        &[("style", "text-decoration: line-through;")],
        vec![text("gone")],
    );
    assert_eq!(render(&n).unwrap(), "~~gone~~");
}

#[test]
fn list_items() {
    let n = elem(
        "ul",
        &[],
        vec![
            elem("li", &[], vec![text("one")]),
            elem("li", &[], vec![text("two")]),
        ],
    );
    assert_eq!(render(&n).unwrap(), "* one\n* two\n");
}

#[test]
fn other_nodes_are_transparent() {
    let n = HtmlNode::Other { children: vec![text("x"), elem("em", &[], vec![text("y")])] };
    assert_eq!(render(&n).unwrap(), "x*y*");
}

#[test]
fn suppressed_div_is_empty() {
    let n = elem(
        "div",
        &[("class", "licensebox")],
        vec![text("lots"), elem("p", &[], vec![text("of stuff")])],
    );
    assert_eq!(render(&n).unwrap(), "");
}

#[test]
fn suppressed_children_are_never_visited() {
    // The inner table has no row marker, so rendering it would fail; inside
    // a suppressed div that failure must never surface.
    let bad_table = elem("table", &[], vec![text("no rows here")]);
    let n = elem("div", &[("class", "page-rate-widget-box")], vec![bad_table]);
    assert_eq!(render(&n).unwrap(), "");
}

#[test]
fn table_without_rows_is_malformed() {
    let n = elem("table", &[], vec![text("no rows here")]);
    assert_eq!(render(&n), Err(ScpError::MalformedTable));
}

#[test]
fn blockquote_quotes_each_line() {
    let n = elem(
        "blockquote",
        &[],
        vec![
            elem("p", &[], vec![text("a")]),
            elem("p", &[], vec![text("b")]),
        ],
    );
    // The two paragraphs render to "\na\n\nb\n"; trimming leaves "a\n\nb",
    // whose middle line is empty and is quoted like any other line.
    assert_eq!(render(&n).unwrap(), "\n> a\n> \n> b\n");
}

#[test]
fn blockquote_single_line() {
    let n = elem("blockquote", &[], vec![text("  quoted  ")]);
    assert_eq!(render(&n).unwrap(), "\n> quoted\n");
}

#[test]
fn blockquote_keeps_inner_rule_unquoted() {
    let n = elem(
        "blockquote",
        &[],
        vec![text("above"), elem("br", &[], vec![]), elem("hr", &[], vec![]), elem(
            "br",
            &[],
            vec![],
        ), text("below")],
    );
    assert_eq!(render(&n).unwrap(), "\n> above\n---\n> below\n");
}

#[test]
fn table_two_rows_three_cells() {
    let row = |a: &str, b: &str, c: &str| {
        elem(
            "tr",
            &[],
            vec![
                elem("td", &[], vec![text(a)]),
                elem("td", &[], vec![text(b)]),
                elem("td", &[], vec![text(c)]),
            ],
        )
    };
    let n = elem(
        "table",
        &[],
        vec![elem("tbody", &[], vec![row("a", "b", "c"), row("d", "e", "f")])],
    );
    let out = render(&n).unwrap();
    assert_eq!(
        out,
        "|:--:|:--:|:--:\n|a|b|c\n|:--:|:--:|:--:\n|d|e|f\n|-\n"
    );
    // The separator holds exactly three groups and there are two row blocks.
    assert_eq!(out.matches("|:--:").count(), 6);
    assert_eq!(out.matches("|:--:|:--:|:--:\n").count(), 2);
}

#[test]
fn table_with_header_cells() {
    let n = elem(
        "table",
        &[],
        vec![elem(
            "tr",
            &[],
            vec![elem("th", &[], vec![text("h")]), elem("td", &[], vec![text("v")])],
        )],
    );
    // One td over one tr gives one separator group.
    assert_eq!(render(&n).unwrap(), "|:--:\n|**h**|v\n");
}

#[test]
fn rendering_is_idempotent() {
    let n = elem(
        "div",
        &[],
        vec![
            elem("p", &[], vec![text("some "), elem("em", &[], vec![text("text")])]),
            elem("blockquote", &[], vec![text("quoted")]),
        ],
    );
    let first = render(&n).unwrap();
    let second = render(&n).unwrap();
    assert_eq!(first, second);
}

#[test]
fn script_is_suppressed() {
    let n = elem("script", &[], vec![text("var x = 1;")]);
    assert_eq!(render(&n).unwrap(), "");
}
