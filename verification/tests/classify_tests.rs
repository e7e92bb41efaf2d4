use scp_term::classify::{attr_val, classify, is_suppressed};

fn attrs(pairs: &[(&str, &str)]) -> Vec<(String, String)> {
    pairs.iter().map(|(k, v)| (k.to_string(), v.to_string())).collect()
}

fn check(name: &str, a: &Vec<(String, String)>, prefix: &str, suffix: &str) {
    let r = classify(name, a);
    assert_eq!(r.0.as_str(), prefix);
    assert_eq!(r.1.as_str(), suffix);
}

#[test]
fn classify_plain_tags() {
    let none = attrs(&[]);
    check("a", &none, "", "");
    check("strong", &none, "**", "**");
    check("em", &none, "*", "*");
    check("li", &none, "* ", "\n");
    check("p", &none, "\n", "\n");
    check("sup", &none, "```[", "]```");
    check("tbody", &none, "<tbody>", "</tbody>");
    check("td", &none, "<td>", "</td>");
    check("th", &none, "<th>", "</th>");
    check("tr", &none, "<tr>", "</tr>");
}

#[test]
fn classify_divs() {
    check("div", &attrs(&[("class", "title")]), "\n## ", "\n");
    check(
        "div",
        &attrs(&[("class", "collapsible-block-unfolded-link")]),
        "`",
        "`",
    );
    check("div", &attrs(&[]), "\n", "\n");
    check("div", &attrs(&[("class", "something-else")]), "\n", "\n");
    check("div", &attrs(&[("id", "title")]), "\n", "\n");
}

#[test]
fn classify_span() {
    check(
        "span",
        &attrs(&[("style", "text-decoration: line-through;")]),
        "~~",
        "~~",
    );
    check("span", &attrs(&[]), "", "");
    check("span", &attrs(&[("style", "color: red;")]), "", "");
}

#[test]
fn classify_unlisted_tags_pass_through() {
    let none = attrs(&[]);
    check("ul", &none, "", "");
    check("h1", &none, "", "");
    check("table", &none, "", "");
    check("blockquote", &none, "", "");
    check("html", &none, "", "");
}

#[test]
fn suppression_rules() {
    assert!(is_suppressed("script", &attrs(&[])));
    assert!(is_suppressed("div", &attrs(&[("class", "page-rate-widget-box")])));
    assert!(is_suppressed("div", &attrs(&[("class", "collapsible-block-folded")])));
    assert!(is_suppressed("div", &attrs(&[("class", "creditRate")])));
    assert!(is_suppressed("div", &attrs(&[("class", "footer-wikiwalk-nav")])));
    assert!(is_suppressed("div", &attrs(&[("class", "licensebox")])));
    assert!(is_suppressed("div", &attrs(&[("id", "u-credit-view")])));
    assert!(is_suppressed("div", &attrs(&[("class", "foo scp-image-block bar")])));
    assert!(!is_suppressed("div", &attrs(&[])));
    assert!(!is_suppressed("div", &attrs(&[("class", "title")])));
    assert!(!is_suppressed("span", &attrs(&[("class", "licensebox")])));
    assert!(!is_suppressed("p", &attrs(&[])));
}

#[test]
fn attr_lookup_first_match() {
    let a = attrs(&[("class", "one"), ("id", "two"), ("class", "three")]);
    assert_eq!(attr_val(&a, "class").map(|s| s.as_str()), Some("one"));
    assert_eq!(attr_val(&a, "id").map(|s| s.as_str()), Some("two"));
    assert_eq!(attr_val(&a, "style"), None);
}
