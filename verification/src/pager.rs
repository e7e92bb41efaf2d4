//! The pager: a viewport over the rendered text, wrapped to the terminal
//! width less a fixed margin, with line and page scrolling clamped to the
//! valid range and reflow on resize.

use vstd::prelude::*;
use crate::text::{chars_to_string, lemma_skip_parts, lemma_skip_succ, split_lines, split_nl,
    str_to_chars, sub_vec};

verus! {

/// The column width text is wrapped to: the full terminal width less a fixed
/// margin of 20 columns, and at least one column.
pub open spec fn content_width(w: nat) -> nat {
    if w > 20 {
        (w - 20) as nat
    } else {
        1
    }
}

/// One line broken into pieces of at most `w` characters; a line no longer
/// than `w` is a single piece, an empty line included.
pub open spec fn chunks(line: Seq<char>, w: nat) -> Seq<Seq<char>>
    decreases line.len(),
{
    if w == 0 || line.len() <= w {
        seq![line]
    } else {
        seq![line.take(w as int)] + chunks(line.skip(w as int), w)
    }
}

/// Every line of `ls` broken into pieces, in order.
pub open spec fn wrap_lines(ls: Seq<Seq<char>>, w: nat) -> Seq<Seq<char>>
    decreases ls.len(),
{
    if ls.len() == 0 {
        Seq::<Seq<char>>::empty()
    } else {
        chunks(ls[0], w) + wrap_lines(ls.drop_first(), w)
    }
}

/// The rendered lines of `text`: split on newlines, then wrapped to `w`.
pub open spec fn wrapped(text: Seq<char>, w: nat) -> Seq<Seq<char>> {
    wrap_lines(split_nl(text), w)
}

/// A scroll target clamped to the valid range `[0, max]`.
pub open spec fn clamped(target: int, max: int) -> int {
    if target < 0 {
        0
    } else if target > max {
        max
    } else {
        target
    }
}

/// Whatever the scroll target, the clamped offset lies within the valid
/// range; a target at or below zero lands on the top line, a target at or
/// beyond the maximum lands on the last page.
pub proof fn lemma_clamped_bounds(target: int, max: int)
    requires
        max >= 0,
    ensures
        0 <= clamped(target, max) <= max,
        target <= 0 ==> clamped(target, max) == 0,
        target >= max ==> clamped(target, max) == max,
{
}

/// The executable content width.
fn effective_width(w: usize) -> (r: usize)
    ensures
        r == content_width(w as nat),
        r >= 1,
{
    if w > 20 {
        w - 20
    } else {
        1
    }
}

/// Appends the pieces of one line to `out`.
fn push_chunks(out: &mut Vec<Vec<char>>, line: &Vec<char>, w: usize)
    requires
        w >= 1,
    ensures
        final(out)@.map_values(|l: Vec<char>| l@) == old(out)@.map_values(|l: Vec<char>| l@)
            + chunks(line@, w as nat),
{
    let ghost base = old(out)@.map_values(|l: Vec<char>| l@);
    let mut i: usize = 0;
    proof {
        assert(line@.skip(0) =~= line@);
    }
    while line.len() - i > w
        invariant
            w >= 1,
            i <= line@.len(),
            base + chunks(line@, w as nat) == out@.map_values(|l: Vec<char>| l@) + chunks(
                line@.skip(i as int),
                w as nat,
            ),
        decreases line@.len() - i,
    {
        let ghost pre = out@.map_values(|l: Vec<char>| l@);
        let piece = sub_vec(line, i, i + w);
        out.push(piece);
        proof {
            lemma_skip_parts(line@, i as int, w as int);
            assert(out@.map_values(|l: Vec<char>| l@) =~= pre.push(line@.skip(i as int).take(
                w as int,
            )));
            assert((pre + seq![line@.skip(i as int).take(w as int)]) + chunks(
                line@.skip(i as int).skip(w as int),
                w as nat,
            ) =~= pre + (seq![line@.skip(i as int).take(w as int)] + chunks(
                line@.skip(i + w),
                w as nat,
            )));
            assert(pre.push(line@.skip(i as int).take(w as int)) =~= pre + seq![line@.skip(
                i as int,
            ).take(w as int)]);
        }
        i = i + w;
    }
    let rest = sub_vec(line, i, line.len());
    let ghost pre = out@.map_values(|l: Vec<char>| l@);
    out.push(rest);
    proof {
        assert(line@.skip(i as int) =~= line@.subrange(i as int, line@.len() as int));
        assert(chunks(line@.skip(i as int), w as nat) == seq![line@.skip(i as int)]);
        assert(out@.map_values(|l: Vec<char>| l@) =~= pre + seq![line@.skip(i as int)]);
    }
}

/// The text split on newlines and wrapped to width `w`.
pub fn wrap_text(text: &Vec<char>, w: usize) -> (r: Vec<Vec<char>>)
    requires
        w >= 1,
    ensures
        r@.map_values(|l: Vec<char>| l@) == wrapped(text@, w as nat),
{
    let lines = split_lines(text);
    let ghost lv = lines@.map_values(|l: Vec<char>| l@);
    let mut out: Vec<Vec<char>> = Vec::new();
    let mut j: usize = 0;
    proof {
        assert(lv.skip(0) =~= lv);
        assert(out@.map_values(|l: Vec<char>| l@) =~= Seq::<Seq<char>>::empty());
    }
    while j < lines.len()
        invariant
            w >= 1,
            j <= lines@.len(),
            lv == lines@.map_values(|l: Vec<char>| l@),
            wrap_lines(lv, w as nat) == out@.map_values(|l: Vec<char>| l@) + wrap_lines(
                lv.skip(j as int),
                w as nat,
            ),
        decreases lines@.len() - j,
    {
        let ghost pre = out@.map_values(|l: Vec<char>| l@);
        proof {
            lemma_skip_succ(lv, j as int);
            assert(lines@[j as int]@ == lv[j as int]);
        }
        push_chunks(&mut out, &lines[j], w);
        proof {
            assert((pre + chunks(lv[j as int], w as nat)) + wrap_lines(lv.skip(j + 1), w as nat)
                =~= pre + (chunks(lv[j as int], w as nat) + wrap_lines(lv.skip(j + 1), w as nat)));
        }
        j = j + 1;
    }
    proof {
        assert(lv.skip(lv.len() as int) =~= Seq::<Seq<char>>::empty());
        assert(out@.map_values(|l: Vec<char>| l@) + Seq::<Seq<char>>::empty() =~= out@.map_values(
            |l: Vec<char>| l@,
        ));
    }
    out
}

/// The pager state: the rendered text, its wrapped lines, the viewport
/// dimensions, and the scroll offset.
pub struct Pager {
    /// The rendered text, as characters.
    pub text: Vec<char>,
    /// The text wrapped to the current content width.
    pub lines: Vec<Vec<char>>,
    /// The viewport width in columns.
    pub width: usize,
    /// The viewport height in rows.
    pub height: usize,
    /// The index of the first visible wrapped line.
    pub offset: usize,
}

impl Pager {
    /// The wrapped lines, as sequences.
    pub open spec fn lines_view(self) -> Seq<Seq<char>> {
        self.lines@.map_values(|l: Vec<char>| l@)
    }

    /// The wrapped lines agree with the text and the viewport width.
    pub open spec fn lines_ok(self) -> bool {
        self.lines_view() == wrapped(self.text@, content_width(self.width as nat))
    }

    /// The total number of wrapped lines.
    pub open spec fn spec_total(self) -> nat {
        wrapped(self.text@, content_width(self.width as nat)).len()
    }

    /// The largest valid scroll offset.
    pub open spec fn spec_max_offset(self) -> nat {
        if self.spec_total() > self.height {
            (self.spec_total() - self.height) as nat
        } else {
            0
        }
    }

    /// Well-formedness: the lines are the wrapping of the text, and the
    /// offset lies within the valid range.
    pub open spec fn wf(self) -> bool {
        self.lines_ok() && self.offset <= self.spec_max_offset()
    }

    /// A fresh pager over `text`, scrolled to the top.
    pub fn new(text: String, width: usize, height: usize) -> (p: Pager)
        ensures
            p.wf(),
            p.text@ == text@,
            p.width == width,
            p.height == height,
            p.offset == 0,
    {
        let tv = str_to_chars(text.as_str());
        let w = effective_width(width);
        let lines = wrap_text(&tv, w);
        Pager { text: tv, lines, width, height, offset: 0 }
    }

    /// The largest valid scroll offset.
    pub fn max_offset(&self) -> (r: usize)
        requires
            self.lines_ok(),
        ensures
            r == self.spec_max_offset(),
    {
        if self.lines.len() > self.height {
            self.lines.len() - self.height
        } else {
            0
        }
    }

    /// The current scroll offset.
    pub fn scroll_offset(&self) -> (r: usize)
        ensures
            r == self.offset,
    {
        self.offset
    }

    /// The total number of wrapped lines.
    pub fn total_lines(&self) -> (r: usize)
        requires
            self.lines_ok(),
        ensures
            r == self.spec_total(),
    {
        self.lines.len()
    }

    /// Scrolls by `delta` lines, clamped to the valid range; scrolling past
    /// either end is a no-op at that end.
    pub fn scroll_lines(&mut self, delta: i64)
        requires
            old(self).wf(),
        ensures
            final(self).wf(),
            final(self).text == old(self).text,
            final(self).lines == old(self).lines,
            final(self).width == old(self).width,
            final(self).height == old(self).height,
            final(self).offset == clamped(
                old(self).offset + delta,
                old(self).spec_max_offset() as int,
            ),
    {
        let max = self.max_offset();
        let target: i128 = self.offset as i128 + delta as i128;
        if target < 0 {
            self.offset = 0;
        } else if target > max as i128 {
            self.offset = max;
        } else {
            self.offset = target as usize;
        }
    }

    /// Scrolls by whole viewports: `pages` times the viewport height, clamped
    /// to the valid range.
    pub fn scroll_pages(&mut self, pages: i64)
        requires
            old(self).wf(),
        ensures
            final(self).wf(),
            final(self).text == old(self).text,
            final(self).lines == old(self).lines,
            final(self).width == old(self).width,
            final(self).height == old(self).height,
            final(self).offset == clamped(
                old(self).offset + pages * old(self).height,
                old(self).spec_max_offset() as int,
            ),
    {
        proof {
            let p = pages as int;
            let h = self.height as int;
            assert((-9223372036854775808int) * 18446744073709551615int <= p * h
                <= 9223372036854775807int * 18446744073709551615int) by (nonlinear_arith)
                requires
                    -9223372036854775808int <= p <= 9223372036854775807int,
                    0 <= h <= 18446744073709551615int,
            ;
        }
        let max = self.max_offset();
        let target: i128 = self.offset as i128 + pages as i128 * self.height as i128;
        if target < 0 {
            self.offset = 0;
        } else if target > max as i128 {
            self.offset = max;
        } else {
            self.offset = target as usize;
        }
    }

    /// Changes the viewport, re-wraps the text to the new width, and clamps
    /// the offset to the new range; a viewport that shows the whole text
    /// scrolls back to the top.
    pub fn resize(&mut self, width: usize, height: usize)
        requires
            old(self).wf(),
        ensures
            final(self).wf(),
            final(self).text == old(self).text,
            final(self).width == width,
            final(self).height == height,
            final(self).offset == clamped(
                old(self).offset as int,
                final(self).spec_max_offset() as int,
            ),
            final(self).spec_total() <= height ==> final(self).offset == 0,
    {
        let w = effective_width(width);
        let new_lines = wrap_text(&self.text, w);
        self.lines = new_lines;
        self.width = width;
        self.height = height;
        let max = self.max_offset();
        if self.offset > max {
            self.offset = max;
        }
    }

    /// The currently visible lines: from the scroll offset down to the bottom
    /// of the viewport, or to the end of the text if that comes first.
    pub fn visible_slice(&self) -> (r: Vec<String>)
        requires
            self.wf(),
        ensures
            ({
                let lv = wrapped(self.text@, content_width(self.width as nat));
                &&& self.offset + r@.len() <= lv.len()
                &&& r@.len() <= self.height
                &&& self.offset + self.height <= lv.len() ==> r@.len() == self.height
                &&& lv.len() < self.offset + self.height ==> self.offset + r@.len() == lv.len()
                &&& forall|j: int| 0 <= j < r@.len() ==> r@[j]@ == lv[self.offset + j]
            }),
    {
        let total = self.lines.len();
        let end: usize = if total - self.offset > self.height {
            self.offset + self.height
        } else {
            total
        };
        let mut r: Vec<String> = Vec::new();
        let mut k: usize = self.offset;
        while k < end
            invariant
                self.offset <= k <= end <= self.lines@.len(),
                r@.len() == k - self.offset,
                forall|j: int|
                    0 <= j < r@.len() ==> r@[j]@ == self.lines_view()[self.offset + j],
            decreases end - k,
        {
            r.push(chars_to_string(&self.lines[k]));
            k = k + 1;
        }
        r
    }
}

} // verus!
