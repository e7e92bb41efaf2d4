//! The document extractor: locates the title and content containers in a
//! fetched page, renders the content tree, and assembles the final document
//! string. The HTML parsing and CSS selection themselves are done by the
//! `scraper` crate behind trusted wrappers; everything downstream of the
//! parsed values is verified.

use vstd::prelude::*;
use vstd::string::StringExecFns;
use crate::render::{render, rendering, HtmlNode, ScpError};
use crate::text::{append_chars, str_to_chars, trim_chars, trimmed};

verus! {

#[verifier::external_type_specification]
#[verifier::external_body]
#[verifier::reject_recursive_types(T)]
pub struct ExNodeRef<'a, T: 'a>(ego_tree::NodeRef<'a, T>);

#[verifier::external_type_specification]
#[verifier::external_body]
pub struct ExScraperNode(scraper::Node);

/// The inner markup of the first element of `page` matching the selector
/// `sel`, if the selector is valid and some element matches. HTML parsing
/// and CSS matching are functions of the two strings alone.
pub uninterp spec fn selected_inner(page: Seq<char>, sel: Seq<char>) -> Option<Seq<char>>;

/// The tree that parsing `html` as an HTML fragment yields, converted node
/// for node. Parsing is a function of the string alone.
pub uninterp spec fn parsed_tree(html: Seq<char>) -> HtmlNode;

/// Relies on scraper's `Selector::parse`, `Html::parse_fragment`,
/// `Html::select` and `ElementRef::inner_html`: parses `page` as a fragment
/// and hands back the inner markup of the first element matching `sel`.
#[verifier::external_body]
fn select_inner(page: &str, sel: &str) -> (r: Option<String>)
    ensures
        (match r {
            Some(s) => selected_inner(page@, sel@) == Some(s@),
            None => selected_inner(page@, sel@) is None,
        }),
{
    let selector = match scraper::Selector::parse(sel) {
        Ok(s) => s,
        Err(_) => return None,
    };
    let doc = scraper::Html::parse_fragment(page);
    let found = doc.select(&selector).next().map(|e| e.inner_html());
    found
}

/// The recursive arm of `parse_fragment_tree`. Relies on
/// `ego_tree::NodeRef::{value, children}` and on scraper's `Node`, `Element`
/// and `Text` accessors; converts each node field for field, one match arm
/// per node kind.
#[verifier::external_body]
fn node_to_html(n: ego_tree::NodeRef<scraper::Node>) -> HtmlNode {
    match n.value() {
        scraper::Node::Text(t) => HtmlNode::Text(t.text.to_string()),
        scraper::Node::Element(e) => HtmlNode::Element {
            name: e.name().to_string(),
            attrs: e.attrs().map(|(k, v)| (k.to_string(), v.to_string())).collect(),
            children: n.children().map(node_to_html).collect(),
        },
        _ => HtmlNode::Other { children: n.children().map(node_to_html).collect() },
    }
}

/// Relies on scraper's `Html::parse_fragment`: the parsed tree, converted to
/// the library's node type, is a function of the string alone.
#[verifier::external_body]
fn parse_fragment_tree(html: &str) -> (r: HtmlNode)
    ensures
        r == parsed_tree(html@),
{
    let doc = scraper::Html::parse_fragment(html);
    node_to_html(doc.tree.root())
}

/// The selector locating the page's title container.
pub open spec fn title_selector() -> Seq<char> {
    "div[id=\"page-title\"]"@
}

/// The selector locating the page's content container.
pub open spec fn content_selector() -> Seq<char> {
    "div[id=\"page-content\"]"@
}

/// The assembled document: the trimmed title as a bold heading, then the
/// rendered body.
pub open spec fn document_text(title: Seq<char>, body: Seq<char>) -> Seq<char> {
    "# **"@ + trimmed(title) + "**\n"@ + body
}

/// The address of one wiki page: the fixed base path followed by the
/// user-supplied page code.
pub fn page_url(code: &str) -> (r: String)
    ensures
        r@ == "https://scp-wiki.wikidot.com/scp-"@ + code@,
{
    let mut s = String::from_str("https://scp-wiki.wikidot.com/scp-");
    s.append(code);
    s
}

/// Extracts a page: the inner markup of the title container becomes the
/// heading, the inner markup of the content container is re-parsed as a
/// fragment, rendered, and appended.
pub fn extract(page: &str) -> (r: Result<String, ScpError>)
    ensures
        ({
            let t = selected_inner(page@, title_selector());
            let c = selected_inner(page@, content_selector());
            match r {
                Ok(s) => t is Some && c is Some && rendering(parsed_tree(c->0)) is Some && s@
                    == document_text(t->0, rendering(parsed_tree(c->0))->0),
                Err(ScpError::TitleNotFound) => t is None,
                Err(ScpError::ContentNotFound) => t is Some && c is None,
                Err(ScpError::MalformedTable) => t is Some && c is Some && rendering(
                    parsed_tree(c->0),
                ) is None,
            }
        }),
{
    let title = match select_inner(page, "div[id=\"page-title\"]") {
        Some(t) => t,
        None => {
            return Err(ScpError::TitleNotFound);
        },
    };
    let content = match select_inner(page, "div[id=\"page-content\"]") {
        Some(c) => c,
        None => {
            return Err(ScpError::ContentNotFound);
        },
    };
    let tree = parse_fragment_tree(content.as_str());
    let body = match render(&tree) {
        Ok(b) => b,
        Err(_) => {
            return Err(ScpError::MalformedTable);
        },
    };
    let mut out = String::from_str("# **");
    let tchars = str_to_chars(title.as_str());
    let tt = trim_chars(&tchars);
    append_chars(&mut out, &tt);
    out.append("**\n");
    out.append(body.as_str());
    proof {
        assert(out@ =~= document_text(title@, body@));
    }
    Ok(out)
}

} // verus!
