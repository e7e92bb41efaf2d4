//! The tree transducer: a recursive fold over a parsed HTML node tree that
//! produces the constrained Markdown dialect, with the blockquote and table
//! post-processors applied to whole subtrees.

use vstd::prelude::*;
use crate::classify::{classify, is_suppressed, markers, suppressed};
use crate::text::{
    append_to, contains_pat, contains_sub, count_occ, count_pat, join_lines, lemma_join_snoc,
    lemma_skip_succ, lemma_strip_nl_no_newline, repeat_chars, repeat_seq, replace_all, replaced,
    split_lines, split_nl, str_eq, str_to_chars, strip_newlines, strip_nl, trim_chars, trimmed,
};

verus! {

/// One node of an already-parsed HTML tree: text, an element with its tag
/// name, attributes and children, or any other node kind (comment, doctype),
/// which is transparent to rendering.
pub enum HtmlNode {
    Text(String),
    Element { name: String, attrs: Vec<(String, String)>, children: Vec<HtmlNode> },
    Other { children: Vec<HtmlNode> },
}

/// How rendering can fail.
#[derive(Clone, Copy, Debug, PartialEq, Eq, Structural)]
pub enum ScpError {
    /// The page holds no title container.
    TitleNotFound,
    /// The page holds no content container.
    ContentNotFound,
    /// A table holds no row marker, so no column count can be inferred.
    MalformedTable,
}

/// One blockquote line: a line mentioning a horizontal rule is kept as the
/// bare rule, every other line is quoted.
pub open spec fn bq_line(l: Seq<char>) -> Seq<char> {
    if contains_sub(l, "---"@) {
        "---"@
    } else {
        "> "@ + l
    }
}

/// The blockquote post-processor: trim, split into lines, quote each line,
/// rejoin, and wrap in one leading and one trailing newline.
pub open spec fn bq_post(s: Seq<char>) -> Seq<char> {
    seq!['\n'] + join_lines(split_nl(trimmed(s)).map_values(|l: Seq<char>| bq_line(l))) + seq![
        '\n',
    ]
}

/// The table post-processor: infer the column count from the cell and row
/// markers, then rewrite the markers into Markdown table syntax.
pub open spec fn table_post(s: Seq<char>) -> Seq<char> {
    let cols = count_occ(s, "<td>"@) / count_occ(s, "<tr>"@);
    let sep = repeat_seq("|:--:"@, cols) + seq!['\n'];
    replaced(
        replaced(
            replaced(
                replaced(
                    replaced(
                        replaced(
                            replaced(replaced(s, "<td>"@, "|"@), "</td>"@, ""@),
                            "<tbody>"@,
                            ""@,
                        ),
                        "</tbody>"@,
                        "|-\n"@,
                    ),
                    "<th>"@,
                    "|**"@,
                ),
                "</th>"@,
                "**"@,
            ),
            "<tr>"@,
            sep,
        ),
        "</tr>"@,
        "\n"@,
    )
}

/// The rendering of one node: `None` exactly when some rendered table in an
/// unsuppressed position holds no row marker.
pub open spec fn rendering(n: HtmlNode) -> Option<Seq<char>>
    decreases n, 1int,
{
    match n {
        HtmlNode::Text(t) => Some(strip_nl(t@)),
        HtmlNode::Element { name, attrs, children } => {
            if name@ == "br"@ {
                Some(seq!['\n'])
            } else if name@ == "hr"@ {
                Some("---"@)
            } else if suppressed(name@, attrs@) {
                Some(Seq::<char>::empty())
            } else {
                match renderings(children@) {
                    None => None,
                    Some(body) => {
                        let s = markers(name@, attrs@).0 + body + markers(name@, attrs@).1;
                        if name@ == "blockquote"@ {
                            Some(bq_post(s))
                        } else if name@ == "table"@ {
                            if count_occ(s, "<tr>"@) == 0 {
                                None
                            } else {
                                Some(table_post(s))
                            }
                        } else {
                            Some(s)
                        }
                    },
                }
            }
        },
        HtmlNode::Other { children } => renderings(children@),
    }
}

/// The concatenated renderings of a sequence of sibling nodes, in document
/// order; `None` as soon as any of them fails.
pub open spec fn renderings(cs: Seq<HtmlNode>) -> Option<Seq<char>>
    decreases cs, 0int,
{
    if cs.len() == 0 {
        Some(Seq::<char>::empty())
    } else {
        match (rendering(cs[0]), renderings(cs.drop_first())) {
            (Some(a), Some(b)) => Some(a + b),
            _ => None,
        }
    }
}

/// Unfolding the sibling fold one node at a time.
proof fn lemma_renderings_step(cs: Seq<HtmlNode>, i: int)
    requires
        0 <= i < cs.len(),
    ensures
        rendering(cs[i]) is None ==> renderings(cs.skip(i)) is None,
        renderings(cs.skip(i + 1)) is None ==> renderings(cs.skip(i)) is None,
        rendering(cs[i]) matches Some(a) ==> renderings(cs.skip(i + 1)) matches Some(b)
            ==> renderings(cs.skip(i)) == Some(a + b),
{
    lemma_skip_succ(cs, i);
    assert(cs.skip(i).len() > 0);
    assert(cs.skip(i)[0] == cs[i]);
}

/// Renders the children of one element, concatenated in document order.
fn render_children(children: &Vec<HtmlNode>) -> (r: Result<Vec<char>, ScpError>)
    ensures
        (match r {
            Ok(v) => renderings(children@) == Some(v@),
            Err(e) => renderings(children@) is None && e == ScpError::MalformedTable,
        }),
    decreases *children,
{
    let mut mid: Vec<char> = Vec::new();
    let mut i: usize = 0;
    proof {
        assert(children@.skip(0) =~= children@);
    }
    while i < children.len()
        invariant
            i <= children@.len(),
            (match renderings(children@.skip(i as int)) {
                Some(rest) => renderings(children@) == Some(mid@ + rest),
                None => renderings(children@) is None,
            }),
        decreases children@.len() - i,
    {
        let ghost pre = mid@;
        proof {
            assert(decreases_to!(*children => children@));
            assert(decreases_to!(children@ => children@[i as int]));
        }
        let cr = render_node(&children[i]);
        proof {
            lemma_renderings_step(children@, i as int);
        }
        match cr {
            Ok(cv) => {
                append_to(&mut mid, &cv);
                proof {
                    let r2 = renderings(children@.skip(i + 1));
                    if r2 is Some {
                        assert((pre + cv@) + r2->0 =~= pre + (cv@ + r2->0));
                    }
                }
            },
            Err(e) => {
                return Err(e);
            },
        }
        i = i + 1;
    }
    proof {
        assert(children@.skip(children@.len() as int) =~= Seq::<HtmlNode>::empty());
        assert(mid@ + Seq::<char>::empty() =~= mid@);
    }
    Ok(mid)
}

/// Renders one node of the tree.
pub fn render_node(n: &HtmlNode) -> (r: Result<Vec<char>, ScpError>)
    ensures
        (match r {
            Ok(v) => rendering(*n) == Some(v@),
            Err(e) => rendering(*n) is None && e == ScpError::MalformedTable,
        }),
    decreases *n,
{
    match n {
        HtmlNode::Text(t) => {
            let tc = str_to_chars(t.as_str());
            Ok(strip_newlines(&tc))
        },
        HtmlNode::Element { name, attrs, children } => {
            if str_eq(name.as_str(), "br") {
                let mut v: Vec<char> = Vec::new();
                v.push('\n');
                proof {
                    assert(v@ =~= seq!['\n']);
                }
                Ok(v)
            } else if str_eq(name.as_str(), "hr") {
                Ok(str_to_chars("---"))
            } else if is_suppressed(name.as_str(), attrs) {
                let v: Vec<char> = Vec::new();
                Ok(v)
            } else {
                proof {
                    assert(decreases_to!(*n => *children));
                }
                let mid = match render_children(children) {
                    Ok(m) => m,
                    Err(e) => {
                        return Err(e);
                    },
                };
                let pair = classify(name.as_str(), attrs);
                let mut s: Vec<char> = str_to_chars(pair.0.as_str());
                append_to(&mut s, &mid);
                let sfx = str_to_chars(pair.1.as_str());
                append_to(&mut s, &sfx);
                if str_eq(name.as_str(), "blockquote") {
                    Ok(bq_exec(&s))
                } else if str_eq(name.as_str(), "table") {
                    let tr_pat = str_to_chars("<tr>");
                    proof {
                        reveal_strlit("<tr>");
                    }
                    let ntr = count_pat(&s, &tr_pat);
                    if ntr == 0 {
                        Err(ScpError::MalformedTable)
                    } else {
                        Ok(table_exec(&s))
                    }
                } else {
                    Ok(s)
                }
            }
        },
        HtmlNode::Other { children } => {
            proof {
                assert(decreases_to!(*n => *children));
            }
            render_children(children)
        },
    }
}

/// Renders a whole tree to a string.
pub fn render(n: &HtmlNode) -> (r: Result<String, ScpError>)
    ensures
        (match r {
            Ok(s) => rendering(*n) == Some(s@),
            Err(e) => rendering(*n) is None && e == ScpError::MalformedTable,
        }),
{
    match render_node(n) {
        Ok(v) => Ok(crate::text::chars_to_string(&v)),
        Err(e) => Err(e),
    }
}

/// The blockquote post-processor.
fn bq_exec(v: &Vec<char>) -> (r: Vec<char>)
    ensures
        r@ == bq_post(v@),
{
    let t = trim_chars(v);
    let lines = split_lines(&t);
    let dashes = str_to_chars("---");
    proof {
        reveal_strlit("---");
    }
    let ghost lm = split_nl(trimmed(v@)).map_values(|l: Seq<char>| bq_line(l));
    let mut out: Vec<char> = Vec::new();
    out.push('\n');
    proof {
        assert(lm.take(0) =~= Seq::<Seq<char>>::empty());
        assert(out@ =~= seq!['\n'] + join_lines(lm.take(0)));
    }
    let mut i: usize = 0;
    while i < lines.len()
        invariant
            i <= lines@.len(),
            lines@.map_values(|l: Vec<char>| l@) == split_nl(trimmed(v@)),
            lm == split_nl(trimmed(v@)).map_values(|l: Seq<char>| bq_line(l)),
            dashes@ == "---"@,
            dashes@.len() > 0,
            out@ == seq!['\n'] + join_lines(lm.take(i as int)),
        decreases lines@.len() - i,
    {
        let mapped: Vec<char> = if contains_pat(&lines[i], &dashes) {
            str_to_chars("---")
        } else {
            let mut m = str_to_chars("> ");
            append_to(&mut m, &lines[i]);
            m
        };
        proof {
            assert(lines@.map_values(|l: Vec<char>| l@)[i as int] == lines@[i as int]@);
            assert(lm[i as int] == bq_line(lines@[i as int]@));
            assert(mapped@ == lm[i as int]);
        }
        if i > 0 {
            out.push('\n');
        }
        append_to(&mut out, &mapped);
        i = i + 1;
        proof {
            let k = i - 1;
            assert(lm.take(k + 1) =~= lm.take(k).push(lm[k]));
            lemma_join_snoc(lm.take(k), lm[k]);
            if k == 0 {
                assert(join_lines(lm.take(1)) == lm[0]);
                assert(out@ =~= seq!['\n'] + join_lines(lm.take(i as int)));
            } else {
                assert(join_lines(lm.take(k + 1)) == join_lines(lm.take(k)) + seq!['\n'] + lm[k]);
                assert((seq!['\n'] + join_lines(lm.take(k))).push('\n') + lm[k] =~= seq!['\n']
                    + (join_lines(lm.take(k)) + seq!['\n'] + lm[k]));
                assert(out@ =~= seq!['\n'] + join_lines(lm.take(i as int)));
            }
        }
    }
    out.push('\n');
    proof {
        assert(lm.take(lines@.len() as int) =~= lm);
        assert(out@ =~= (seq!['\n'] + join_lines(lm)) + seq!['\n']);
        assert((seq!['\n'] + join_lines(lm)) + seq!['\n'] =~= bq_post(v@));
    }
    out
}

/// The table post-processor.
fn table_exec(s: &Vec<char>) -> (r: Vec<char>)
    requires
        count_occ(s@, "<tr>"@) > 0,
    ensures
        r@ == table_post(s@),
{
    let td = str_to_chars("<td>");
    let td_end = str_to_chars("</td>");
    let tbody = str_to_chars("<tbody>");
    let tbody_end = str_to_chars("</tbody>");
    let th = str_to_chars("<th>");
    let th_end = str_to_chars("</th>");
    let tr = str_to_chars("<tr>");
    let tr_end = str_to_chars("</tr>");
    proof {
        reveal_strlit("<td>");
        reveal_strlit("</td>");
        reveal_strlit("<tbody>");
        reveal_strlit("</tbody>");
        reveal_strlit("<th>");
        reveal_strlit("</th>");
        reveal_strlit("<tr>");
        reveal_strlit("</tr>");
    }
    let n_td = count_pat(s, &td);
    let n_tr = count_pat(s, &tr);
    let cols = n_td / n_tr;
    let marker = str_to_chars("|:--:");
    let mut sep = repeat_chars(&marker, cols);
    sep.push('\n');
    proof {
        assert(sep@ =~= repeat_seq("|:--:"@, cols as nat) + seq!['\n']);
    }
    let r1 = replace_all(s, &td, &str_to_chars("|"));
    let r2 = replace_all(&r1, &td_end, &str_to_chars(""));
    let r3 = replace_all(&r2, &tbody, &str_to_chars(""));
    let r4 = replace_all(&r3, &tbody_end, &str_to_chars("|-\n"));
    let r5 = replace_all(&r4, &th, &str_to_chars("|**"));
    let r6 = replace_all(&r5, &th_end, &str_to_chars("**"));
    let r7 = replace_all(&r6, &tr, &sep);
    let r8 = replace_all(&r7, &tr_end, &str_to_chars("\n"));
    r8
}

// ---------------------------------------------------------------------------
// Laws
// ---------------------------------------------------------------------------

/// A text node contributes its text with every newline removed, and the
/// contribution holds no newline.
pub proof fn lemma_text_strips_newlines(t: String)
    ensures
        rendering(HtmlNode::Text(t)) == Some(strip_nl(t@)),
        forall|i: int| 0 <= i < strip_nl(t@).len() ==> strip_nl(t@)[i] != '\n',
{
    lemma_strip_nl_no_newline(t@);
}

/// A suppressed element renders to the empty string whatever its children
/// hold: the children are never consulted, so a child whose own rendering
/// would fail cannot make a suppressed subtree fail.
pub proof fn lemma_suppressed_subtree_empty(
    name: String,
    attrs: Vec<(String, String)>,
    children: Vec<HtmlNode>,
)
    requires
        suppressed(name@, attrs@),
    ensures
        rendering(HtmlNode::Element { name, attrs, children }) == Some(Seq::<char>::empty()),
{
    reveal_strlit("script");
    reveal_strlit("div");
    reveal_strlit("br");
    reveal_strlit("hr");
    assert(name@ == "script"@ || name@ == "div"@);
    assert("script"@.len() == 6 && "div"@.len() == 3 && "br"@.len() == 2 && "hr"@.len() == 2);
    assert(name@ != "br"@);
    assert(name@ != "hr"@);
}

/// Rendering is a pure function of the tree: rendering equal trees yields
/// equal strings, so re-rendering the same tree is byte-identical.
pub proof fn lemma_rendering_deterministic(a: HtmlNode, b: HtmlNode)
    requires
        a == b,
    ensures
        rendering(a) == rendering(b),
{
}

} // verus!
