//! The element classifier: the exact marker table mapping an element shape
//! (tag name, optionally qualified by one attribute value) to the pair of
//! textual markers its rendered content is wrapped in, and the suppression
//! rules that discard an element's whole subtree.

use vstd::prelude::*;
use vstd::string::StringExecFns;
use crate::text::{contains_sub, contains_pat, str_eq, str_to_chars, lemma_skip_succ};

verus! {

/// First-match lookup of an attribute value by name.
pub open spec fn attr_of(attrs: Seq<(String, String)>, key: Seq<char>) -> Option<Seq<char>>
    decreases attrs.len(),
{
    if attrs.len() == 0 {
        None
    } else if attrs[0].0@ == key {
        Some(attrs[0].1@)
    } else {
        attr_of(attrs.drop_first(), key)
    }
}

/// The marker table. Each element shape is tried in order of specificity and
/// the first match decides; every unlisted shape passes through bare.
pub open spec fn markers(name: Seq<char>, attrs: Seq<(String, String)>) -> (Seq<char>, Seq<char>) {
    if name == "a"@ {
        (""@, ""@)
    } else if name == "strong"@ {
        ("**"@, "**"@)
    } else if name == "em"@ {
        ("*"@, "*"@)
    } else if name == "li"@ {
        ("* "@, "\n"@)
    } else if name == "p"@ {
        ("\n"@, "\n"@)
    } else if name == "sup"@ {
        ("```["@, "]```"@)
    } else if name == "div"@ {
        if attr_of(attrs, "class"@) == Some("title"@) {
            ("\n## "@, "\n"@)
        } else if attr_of(attrs, "class"@) == Some("collapsible-block-unfolded-link"@) {
            ("`"@, "`"@)
        } else {
            ("\n"@, "\n"@)
        }
    } else if name == "span"@ && attr_of(attrs, "style"@) == Some("text-decoration: line-through;"@) {
        ("~~"@, "~~"@)
    } else if name == "tbody"@ {
        ("<tbody>"@, "</tbody>"@)
    } else if name == "td"@ {
        ("<td>"@, "</td>"@)
    } else if name == "th"@ {
        ("<th>"@, "</th>"@)
    } else if name == "tr"@ {
        ("<tr>"@, "</tr>"@)
    } else {
        (""@, ""@)
    }
}

/// Whether an element's whole subtree is discarded: every `script`, and a
/// `div` whose class is on the denylist, whose id is the page credit view,
/// or whose class mentions the image-block widget.
pub open spec fn suppressed(name: Seq<char>, attrs: Seq<(String, String)>) -> bool {
    let cls = attr_of(attrs, "class"@);
    name == "script"@ || (name == "div"@ && (cls == Some("page-rate-widget-box"@) || cls == Some(
        "collapsible-block-folded"@,
    ) || cls == Some("creditRate"@) || cls == Some("footer-wikiwalk-nav"@) || cls == Some(
        "licensebox"@,
    ) || attr_of(attrs, "id"@) == Some("u-credit-view"@) || (cls matches Some(c) && contains_sub(
        c,
        "scp-image-block"@,
    ))))
}

/// The value of the named attribute, if the element carries it.
pub fn attr_val<'a>(attrs: &'a Vec<(String, String)>, key: &str) -> (r: Option<&'a String>)
    ensures
        (match r {
            Some(v) => attr_of(attrs@, key@) == Some(v@),
            None => attr_of(attrs@, key@) is None,
        }),
{
    let mut i: usize = 0;
    proof {
        assert(attrs@.skip(0) =~= attrs@);
    }
    while i < attrs.len()
        invariant
            i <= attrs@.len(),
            attr_of(attrs@, key@) == attr_of(attrs@.skip(i as int), key@),
        decreases attrs@.len() - i,
    {
        proof {
            lemma_skip_succ(attrs@, i as int);
        }
        if str_eq(attrs[i].0.as_str(), key) {
            return Some(&attrs[i].1);
        }
        i = i + 1;
    }
    None
}

/// Whether the optional attribute value equals the given text.
fn opt_match(o: Option<&String>, s: &str) -> (r: bool)
    ensures
        r == (match o {
            Some(v) => v@ == s@,
            None => false,
        }),
{
    match o {
        Some(v) => str_eq(v.as_str(), s),
        None => false,
    }
}

/// A freshly owned pair of markers.
fn pair(a: &str, b: &str) -> (r: (String, String))
    ensures
        r.0@ == a@,
        r.1@ == b@,
{
    (String::from_str(a), String::from_str(b))
}

/// The prefix and suffix markers for one element, per the marker table.
pub fn classify(name: &str, attrs: &Vec<(String, String)>) -> (r: (String, String))
    ensures
        r.0@ == markers(name@, attrs@).0,
        r.1@ == markers(name@, attrs@).1,
{
    if str_eq(name, "a") {
        pair("", "")
    } else if str_eq(name, "strong") {
        pair("**", "**")
    } else if str_eq(name, "em") {
        pair("*", "*")
    } else if str_eq(name, "li") {
        pair("* ", "\n")
    } else if str_eq(name, "p") {
        pair("\n", "\n")
    } else if str_eq(name, "sup") {
        pair("```[", "]```")
    } else if str_eq(name, "div") {
        let cls = attr_val(attrs, "class");
        if opt_match(cls, "title") {
            pair("\n## ", "\n")
        } else if opt_match(cls, "collapsible-block-unfolded-link") {
            pair("`", "`")
        } else {
            pair("\n", "\n")
        }
    } else if str_eq(name, "span") && opt_match(attr_val(attrs, "style"), "text-decoration: line-through;") {
        pair("~~", "~~")
    } else if str_eq(name, "tbody") {
        pair("<tbody>", "</tbody>")
    } else if str_eq(name, "td") {
        pair("<td>", "</td>")
    } else if str_eq(name, "th") {
        pair("<th>", "</th>")
    } else if str_eq(name, "tr") {
        pair("<tr>", "</tr>")
    } else {
        pair("", "")
    }
}

/// Whether the element's subtree is suppressed.
pub fn is_suppressed(name: &str, attrs: &Vec<(String, String)>) -> (r: bool)
    ensures
        r == suppressed(name@, attrs@),
{
    if str_eq(name, "script") {
        return true;
    }
    if !str_eq(name, "div") {
        return false;
    }
    let cls = attr_val(attrs, "class");
    if opt_match(cls, "page-rate-widget-box") || opt_match(cls, "collapsible-block-folded")
        || opt_match(cls, "creditRate") || opt_match(cls, "footer-wikiwalk-nav") || opt_match(
        cls,
        "licensebox",
    ) {
        return true;
    }
    if opt_match(attr_val(attrs, "id"), "u-credit-view") {
        return true;
    }
    match cls {
        Some(c) => {
            let cchars = str_to_chars(c.as_str());
            let pat = str_to_chars("scp-image-block");
            proof {
                reveal_strlit("scp-image-block");
            }
            contains_pat(&cchars, &pat)
        },
        None => false,
    }
}

} // verus!
