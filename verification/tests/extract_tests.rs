use scp_term::extract::extract;
use scp_term::render::ScpError;

#[test]
fn minimal_page_end_to_end() {
    let page = format!(
        "{}{}",
        "<div id=\"page-title\">Widget</div>",
        "<div id=\"page-content\"><p>Hello <strong>World</strong></p></div>",
    );
    assert_eq!(extract(&page).unwrap(), "# **Widget**\n\nHello **World**\n");
}

#[test]
fn title_is_trimmed() {
    let page = format!(
        "{}{}",
        "<div id=\"page-title\">\n   Widget  \n</div>",
        "<div id=\"page-content\">body</div>",
    );
    assert_eq!(extract(&page).unwrap(), "# **Widget**\nbody");
}

#[test]
fn missing_title_container() {
    let page = "<div id=\"page-content\"><p>text</p></div>";
    assert_eq!(extract(page), Err(ScpError::TitleNotFound));
}

#[test]
fn missing_content_container() {
    let page = "<div id=\"page-title\">Widget</div>";
    assert_eq!(extract(page), Err(ScpError::ContentNotFound));
}

#[test]
fn suppressed_chrome_is_dropped_end_to_end() {
    let page = format!(
        "{}{}{}{}{}{}",
        "<div id=\"page-title\">T</div>",
        "<div id=\"page-content\">",
        "<div class=\"page-rate-widget-box\">rate me</div>",
        "<p>kept</p>",
        "<div class=\"licensebox\">license</div>",
        "</div>",
    );
    assert_eq!(extract(&page).unwrap(), "# **T**\n\nkept\n");
}

#[test]
fn extraction_is_repeatable() {
    let page = format!(
        "{}{}",
        "<div id=\"page-title\">Widget</div>",
        "<div id=\"page-content\"><p>Hello <em>there</em></p></div>",
    );
    let a = extract(&page).unwrap();
    let b = extract(&page).unwrap();
    assert_eq!(a, b);
}

#[test]
fn page_url_appends_the_code() {
    assert_eq!(
        scp_term::extract::page_url("173"),
        "https://scp-wiki.wikidot.com/scp-173"
    );
}

#[test]
fn blockquote_end_to_end() {
    let page = format!(
        "{}{}",
        "<div id=\"page-title\">T</div>",
        "<div id=\"page-content\"><blockquote><p>a</p><p>b</p></blockquote></div>",
    );
    assert_eq!(extract(&page).unwrap(), "# **T**\n\n> a\n> \n> b\n");
}

#[test]
fn table_end_to_end() {
    let page = format!(
        "{}{}",
        "<div id=\"page-title\">T</div>",
        "<div id=\"page-content\"><table><tbody><tr><td>a</td><td>b</td></tr></tbody></table></div>",
    );
    assert_eq!(extract(&page).unwrap(), "# **T**\n|:--:|:--:\n|a|b\n|-\n");
}

#[test]
fn rowless_table_end_to_end() {
    let page = format!(
        "{}{}",
        "<div id=\"page-title\">T</div>",
        "<div id=\"page-content\"><p>x</p><table></table></div>",
    );
    assert_eq!(extract(&page), Err(ScpError::MalformedTable));
}
