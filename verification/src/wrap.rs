//! Soft wrapping of a line into display rows, and mapping a column of the line to its row.
use vstd::prelude::*;

use crate::text::{chars_of, string_of, string_of_range, views};

verus! {

/// One display row of a wrapped line.
#[derive(Debug, Clone, PartialEq)]
pub struct Segment {
    /// Char index in the source line where this row starts.
    pub start: usize,
    /// Text shown on this row. A space the line was broken at is not included.
    pub text: String,
}

/// The largest index `i` with `lo <= i <= hi` and `c[i] == ' '`.
pub open spec fn last_space(c: Seq<char>, lo: int, hi: int) -> Option<int>
    decreases hi - lo + 1,
{
    if hi < lo {
        None
    } else if c[hi] == ' ' {
        Some(hi)
    } else {
        last_space(c, lo, hi - 1)
    }
}

pub proof fn lemma_last_space(c: Seq<char>, lo: int, hi: int)
    ensures
        last_space(c, lo, hi) matches Some(i) ==> lo <= i <= hi && c[i] == ' ' && forall|j: int|
            i < j <= hi ==> c[j] != ' ',
        last_space(c, lo, hi) is None ==> forall|j: int| lo <= j <= hi ==> c[j] != ' ',
    decreases hi - lo + 1,
{
    if hi >= lo && c[hi] != ' ' {
        lemma_last_space(c, lo, hi - 1);
    }
}

/// The rows, as `(start, end)` char ranges, of `c` wrapped at width `w > 0` from `start` on:
/// while more than `w` chars remain, the row ends at the last space among the next `w` chars
/// after the row's first (the space is dropped), or after `w` chars when there is none; the
/// rest is the last row.
pub open spec fn wrap_rows(c: Seq<char>, w: int, start: int) -> Seq<(int, int)>
    decreases c.len() - start,
{
    if w <= 0 || start < 0 || c.len() - start <= w {
        seq![(start, c.len() as int)]
    } else {
        let end = start + w;
        match last_space(c, start + 1, end) {
            Some(sp) => {
                proof {
                    lemma_last_space(c, start + 1, end);
                }
                seq![(start, sp)] + wrap_rows(c, w, sp + 1)
            },
            None => seq![(start, end)] + wrap_rows(c, w, end),
        }
    }
}

/// The rows of a line: one row holding the whole line when the width is zero, else
/// `wrap_rows` from the start.
pub open spec fn wrap_spec(c: Seq<char>, w: int) -> Seq<(int, int)> {
    if w == 0 {
        seq![(0, c.len() as int)]
    } else {
        wrap_rows(c, w, 0)
    }
}

/// The texts of the rows of `c` wrapped at width `w`.
pub open spec fn wrap_texts(c: Seq<char>, w: int) -> Seq<Seq<char>> {
    let rows = wrap_spec(c, w);
    Seq::new(rows.len(), |k: int| c.subrange(rows[k].0, rows[k].1))
}

/// Wrap `line` into rows of at most `width` chars, breaking at the last space that fits and
/// hard-breaking words wider than `width`. Always returns at least one segment.
pub fn wrap(line: &str, width: usize) -> (r: Vec<Segment>)
    ensures
        r@.len() == wrap_spec(line@, width as int).len(),
        forall|k: int|
            0 <= k < r@.len() ==> (#[trigger] r@[k]).start == wrap_spec(line@, width as int)[k].0
                && r@[k].text@ == line@.subrange(
                wrap_spec(line@, width as int)[k].0,
                wrap_spec(line@, width as int)[k].1,
            ),
{
    let chars = chars_of(line);
    let n = chars.len();
    if width == 0 || n <= width {
        let mut out: Vec<Segment> = Vec::new();
        out.push(Segment { start: 0, text: string_of(&chars) });
        assert(line@.subrange(0, line@.len() as int) =~= line@);
        return out;
    }
    let ghost c = chars@;
    let ghost w = width as int;
    let mut out: Vec<Segment> = Vec::new();
    let ghost mut done: Seq<(int, int)> = Seq::empty();
    let mut start: usize = 0;
    while n - start > width
        invariant
            c == chars@,
            c == line@,
            n == c.len(),
            w == width,
            width > 0,
            start <= n,
            done + wrap_rows(c, w, start as int) == wrap_rows(c, w, 0),
            out@.len() == done.len(),
            forall|k: int|
                0 <= k < out@.len() ==> (#[trigger] out@[k]).start == done[k].0 && out@[k].text@
                    == c.subrange(done[k].0, done[k].1),
        decreases n - start,
    {
        let end = start + width;
        let mut i: usize = end;
        while i > start && chars[i] != ' '
            invariant
                start <= i <= end < n,
                n == chars@.len(),
                last_space(chars@, start as int + 1, end as int) == last_space(
                    chars@,
                    start as int + 1,
                    i as int,
                ),
            decreases i,
        {
            i -= 1;
        }
        let ghost rest = wrap_rows(c, w, start as int);
        if i > start {
            assert(last_space(c, start as int + 1, i as int) == Some(i as int));
            out.push(Segment { start, text: string_of_range(&chars, start, i) });
            proof {
                assert(rest == seq![(start as int, i as int)] + wrap_rows(c, w, i + 1));
                done = done.push((start as int, i as int));
                assert(done + wrap_rows(c, w, i + 1) =~= wrap_rows(c, w, 0)) by {
                    assert(done.drop_last() + rest == wrap_rows(c, w, 0));
                    assert(done.drop_last() + rest =~= done + wrap_rows(c, w, i + 1));
                }
            }
            start = i + 1;
        } else {
            assert(last_space(c, start as int + 1, start as int) is None);
            out.push(Segment { start, text: string_of_range(&chars, start, end) });
            proof {
                assert(rest == seq![(start as int, end as int)] + wrap_rows(c, w, end as int));
                done = done.push((start as int, end as int));
                assert(done + wrap_rows(c, w, end as int) =~= wrap_rows(c, w, 0)) by {
                    assert(done.drop_last() + rest == wrap_rows(c, w, 0));
                    assert(done.drop_last() + rest =~= done + wrap_rows(c, w, end as int));
                }
            }
            start = end;
        }
    }
    out.push(Segment { start, text: string_of_range(&chars, start, n) });
    proof {
        assert(wrap_rows(c, w, start as int) == seq![(start as int, n as int)]);
        assert(done.push((start as int, n as int)) =~= wrap_rows(c, w, 0));
    }
    out
}

/// The texts of the rows of `text` wrapped to `width`.
pub fn wrapped(text: &str, width: usize) -> (r: Vec<String>)
    ensures
        views(r@) == wrap_texts(text@, width as int),
{
    let segments = wrap(text, width);
    let ghost want = wrap_texts(text@, width as int);
    let mut out: Vec<String> = Vec::new();
    let mut k: usize = 0;
    while k < segments.len()
        invariant
            k <= segments@.len(),
            want == wrap_texts(text@, width as int),
            want.len() == segments@.len(),
            forall|j: int| 0 <= j < segments@.len() ==> (#[trigger] segments@[j]).text@ == want[j],
            views(out@) == want.take(k as int),
        decreases segments@.len() - k,
    {
        let ghost before = out@;
        assert(segments@[k as int].text@ == want[k as int]);
        out.push(segments[k].text.clone());
        assert(views(out@) =~= views(before).push(want[k as int]));
        assert(views(out@) =~= want.take(k + 1));
        k += 1;
    }
    assert(want.take(k as int) =~= want);
    out
}

/// The last index `k < n` whose row starts at or before `col`; 0 when there is none.
pub open spec fn locate_row(starts: Seq<usize>, col: int, n: int) -> int
    decreases n,
{
    if n <= 0 {
        0
    } else if starts[n - 1] <= col {
        n - 1
    } else {
        locate_row(starts, col, n - 1)
    }
}

/// The starts of the segments.
pub open spec fn seg_starts(s: Seq<Segment>) -> Seq<usize> {
    Seq::new(s.len(), |i: int| s[i].start)
}

/// Map a char column of the source line to (row, column within that row).
pub fn locate(segments: &[Segment], col: usize) -> (r: (usize, usize))
    requires
        segments@.len() > 0,
        segments@[locate_row(seg_starts(segments@), col as int, segments@.len() as int)].start
            <= col,
    ensures
        r.0 as int == locate_row(seg_starts(segments@), col as int, segments@.len() as int),
        r.1 == col - segments@[r.0 as int].start,
{
    let ghost st = seg_starts(segments@);
    let mut k: usize = segments.len();
    while k > 0 && segments[k - 1].start > col
        invariant
            k <= segments@.len(),
            st == seg_starts(segments@),
            locate_row(st, col as int, segments@.len() as int) == locate_row(st, col as int, k as int),
        decreases k,
    {
        k -= 1;
    }
    let row = if k == 0 {
        0
    } else {
        k - 1
    };
    (row, col - segments[row].start)
}

/// The rows of `wrap_rows` number at least one; the first starts at `start`, the last ends at
/// the end of the line, each holds at most `w` chars, and each next row starts where the row
/// before ended, or one past it when the row ended at a space.
pub proof fn lemma_wrap_rows(c: Seq<char>, w: int, start: int)
    requires
        w > 0,
        0 <= start <= c.len(),
    ensures
        wrap_rows(c, w, start).len() >= 1,
        wrap_rows(c, w, start)[0].0 == start,
        wrap_rows(c, w, start).last().1 == c.len(),
        forall|k: int|
            0 <= k < wrap_rows(c, w, start).len() ==> start <= (#[trigger] wrap_rows(c, w, start)[k]).0
                <= wrap_rows(c, w, start)[k].1 <= c.len() && wrap_rows(c, w, start)[k].1
                - wrap_rows(c, w, start)[k].0 <= w,
        forall|k: int|
            0 <= k < wrap_rows(c, w, start).len() - 1 ==> {
                let a = #[trigger] wrap_rows(c, w, start)[k];
                let b = wrap_rows(c, w, start)[k + 1];
                b.0 == a.1 || (b.0 == a.1 + 1 && c[a.1] == ' ')
            },
    decreases c.len() - start,
{
    if c.len() - start > w {
        let end = start + w;
        lemma_last_space(c, start + 1, end);
        let rows = wrap_rows(c, w, start);
        match last_space(c, start + 1, end) {
            Some(sp) => {
                lemma_wrap_rows(c, w, sp + 1);
                let tail = wrap_rows(c, w, sp + 1);
                assert(rows == seq![(start, sp)] + tail);
                assert forall|k: int| 0 <= k < rows.len() implies start <= (#[trigger] rows[k]).0
                    <= rows[k].1 <= c.len() && rows[k].1 - rows[k].0 <= w by {
                    if k > 0 {
                        assert(rows[k] == tail[k - 1]);
                    }
                }
                assert forall|k: int| 0 <= k < rows.len() - 1 implies {
                    let a = #[trigger] rows[k];
                    let b = rows[k + 1];
                    b.0 == a.1 || (b.0 == a.1 + 1 && c[a.1] == ' ')
                } by {
                    if k > 0 {
                        assert(rows[k] == tail[k - 1]);
                        assert(rows[k + 1] == tail[k]);
                    } else {
                        assert(rows[1] == tail[0]);
                    }
                }
            },
            None => {
                lemma_wrap_rows(c, w, end);
                let tail = wrap_rows(c, w, end);
                assert(rows == seq![(start, end)] + tail);
                assert forall|k: int| 0 <= k < rows.len() implies start <= (#[trigger] rows[k]).0
                    <= rows[k].1 <= c.len() && rows[k].1 - rows[k].0 <= w by {
                    if k > 0 {
                        assert(rows[k] == tail[k - 1]);
                    }
                }
                assert forall|k: int| 0 <= k < rows.len() - 1 implies {
                    let a = #[trigger] rows[k];
                    let b = rows[k + 1];
                    b.0 == a.1 || (b.0 == a.1 + 1 && c[a.1] == ' ')
                } by {
                    if k > 0 {
                        assert(rows[k] == tail[k - 1]);
                        assert(rows[k + 1] == tail[k]);
                    } else {
                        assert(rows[1] == tail[0]);
                    }
                }
            },
        }
    }
}

/// Rows never exceed the width: with a positive width, every segment of `wrap` holds at most
/// `width` chars.
pub proof fn law_rows_fit_width(c: Seq<char>, w: int)
    requires
        w > 0,
    ensures
        forall|k: int|
            0 <= k < wrap_spec(c, w).len() ==> (#[trigger] wrap_spec(c, w)[k]).1 - wrap_spec(
                c,
                w,
            )[k].0 <= w,
{
    lemma_wrap_rows(c, w, 0);
}

/// No text is lost: the rows cover the line in order, from its first char to its last, and
/// the only chars left out are the single spaces that rows were broken at. There is always at
/// least one row.
pub proof fn law_wrap_covers_line(c: Seq<char>, w: int)
    requires
        w >= 0,
    ensures
        wrap_spec(c, w).len() >= 1,
        wrap_spec(c, w)[0].0 == 0,
        wrap_spec(c, w).last().1 == c.len(),
        forall|k: int|
            0 <= k < wrap_spec(c, w).len() ==> 0 <= (#[trigger] wrap_spec(c, w)[k]).0
                <= wrap_spec(c, w)[k].1 <= c.len(),
        forall|k: int|
            0 <= k < wrap_spec(c, w).len() - 1 ==> {
                let a = #[trigger] wrap_spec(c, w)[k];
                let b = wrap_spec(c, w)[k + 1];
                b.0 == a.1 || (b.0 == a.1 + 1 && c[a.1] == ' ')
            },
{
    if w > 0 {
        lemma_wrap_rows(c, w, 0);
    }
}

/// The last row among the first `n` that starts at or before `col`; the first row when none.
pub open spec fn row_of(segs: Seq<(int, int)>, col: int, n: int) -> int
    decreases n,
{
    if n <= 0 {
        0
    } else if segs[n - 1].0 <= col {
        n - 1
    } else {
        row_of(segs, col, n - 1)
    }
}

pub proof fn lemma_row_of(starts: Seq<usize>, segs: Seq<(int, int)>, col: int, n: int)
    requires
        starts.len() == segs.len(),
        0 <= n <= segs.len(),
        forall|k: int| 0 <= k < segs.len() ==> starts[k] as int == (#[trigger] segs[k]).0,
    ensures
        locate_row(starts, col, n) == row_of(segs, col, n),
        0 < n ==> 0 <= row_of(segs, col, n) < n,
        0 < n && segs[0].0 <= col ==> segs[row_of(segs, col, n)].0 <= col,
    decreases n,
{
    if n > 0 {
        lemma_row_of(starts, segs, col, n - 1);
    }
}

/// A line's rows number at least one, the first starts at zero, and each lies within the line.
pub proof fn lemma_wrap_shape(c: Seq<char>, w: int)
    requires
        w >= 0,
    ensures
        wrap_spec(c, w).len() >= 1,
        wrap_spec(c, w)[0].0 == 0,
        forall|k: int|
            0 <= k < wrap_spec(c, w).len() ==> 0 <= (#[trigger] wrap_spec(
                c,
                w,
            )[k]).0 <= wrap_spec(c, w)[k].1 <= c.len(),
{
    if w > 0 {
        lemma_wrap_rows(c, w, 0);
    }
}

} // verus!
