//! What the rebase layout shows: the table's rows, which of them are in view, and the details
//! pane beside it.
use vstd::prelude::*;

use crate::details::{lookup, opt_details_view, CommitDetails, CommitDetailsV};
use crate::rebase::{action_str_spec, subject_spec, summary_spec, Action, TodoLine, TodoLineV, TodoV};
use crate::status::{badge_style, badge_style_spec};
use crate::rewords::subject_for;
use crate::session::{selected_line_spec, RebaseBody};
use crate::text::{
    chars_of, decimal_spec, decimal_string, extend_chars, extend_str, find, find_char, join,
    join_strings, starts_with, string_of, string_of_range, trim_start, trim_start_index, views,
};
use crate::view::{fg_spec, lines_view, plain_spec, span, spans_view, Color, Span, Style};
use crate::wrap::{wrap_texts, wrapped};

verus! {

/// The color of each action in the table.
pub open spec fn action_style_spec(a: Action) -> Style {
    fg_spec(
        match a {
            Action::Pick => Color::Green,
            Action::Reword => Color::Blue,
            Action::Edit => Color::Magenta,
            Action::Squash => Color::Yellow,
            Action::Fixup => Color::Cyan,
            Action::Drop => Color::Red,
        },
    )
}

/// The style of an action in the table.
pub fn action_style(action: Action) -> (r: Style)
    ensures
        r == action_style_spec(action),
{
    Style::fg(
        match action {
            Action::Pick => Color::Green,
            Action::Reword => Color::Blue,
            Action::Edit => Color::Magenta,
            Action::Squash => Color::Yellow,
            Action::Fixup => Color::Cyan,
            Action::Drop => Color::Red,
        },
    )
}

/// One row of the rebase table.
#[derive(Debug, Clone, PartialEq)]
pub struct TableRow {
    /// The todo line it shows.
    pub line: usize,
    pub action: String,
    pub style: Style,
    pub hash: String,
    /// The subject wrapped to the subject column.
    pub subject: Vec<String>,
    /// Shown dimmed: a line the table does not understand.
    pub dim: bool,
}

/// A table row seen as plain values.
pub struct TableRowV {
    pub line: int,
    pub action: Seq<char>,
    pub style: Style,
    pub hash: Seq<char>,
    pub subject: Seq<Seq<char>>,
    pub dim: bool,
}

impl View for TableRow {
    type V = TableRowV;

    open spec fn view(&self) -> TableRowV {
        TableRowV {
            line: self.line as int,
            action: self.action@,
            style: self.style,
            hash: self.hash@,
            subject: views(self.subject@),
            dim: self.dim,
        }
    }
}

/// The views of table rows.
pub open spec fn row_views(v: Seq<TableRow>) -> Seq<TableRowV> {
    Seq::new(v.len(), |i: int| v[i]@)
}

/// The pencil that marks a reworded subject.
pub open spec fn reword_mark() -> Seq<char> {
    "\u{270e} "@
}

/// The subject a commit row shows: a pending reword after the pencil, or the todo's subject.
pub open spec fn row_subject(rw: Seq<(Seq<char>, Seq<char>)>, hash: Seq<char>, rest: Seq<char>) -> Seq<
    char,
> {
    match subject_for(rw, hash) {
        Some(s) => reword_mark() + s,
        None => subject_spec(rest),
    }
}

/// A command line cut at its first space after leading whitespace: the command and the rest.
pub open spec fn command_parts(s: Seq<char>) -> (Seq<char>, Seq<char>) {
    let t = trim_start(s);
    match find(t, ' ') {
        Some(k) => (t.take(k), t.skip(k + 1)),
        None => (t, Seq::empty()),
    }
}

/// The table row of line `i`, if the table shows it: commits with their action, hash (seven
/// chars) and subject; other commands with the command in magenta and the rest as subject;
/// lines it does not understand dimmed; no row for comments and blank lines.
pub open spec fn line_row(l: TodoLineV, i: int, rw: Seq<(Seq<char>, Seq<char>)>, w: int) -> Option<
    TableRowV,
> {
    match l {
        TodoLineV::Commit(c) => Some(
            TableRowV {
                line: i,
                action: action_str_spec(c.action),
                style: action_style_spec(c.action),
                hash: c.hash.take(if c.hash.len() < 7 {
                    c.hash.len() as int
                } else {
                    7
                }),
                subject: wrap_texts(row_subject(rw, c.hash, c.rest), w),
                dim: false,
            },
        ),
        TodoLineV::Other(s) => Some(
            TableRowV {
                line: i,
                action: command_parts(s).0,
                style: fg_spec(Color::Magenta),
                hash: Seq::empty(),
                subject: wrap_texts(command_parts(s).1, w),
                dim: false,
            },
        ),
        TodoLineV::Unknown(s) => Some(
            TableRowV {
                line: i,
                action: Seq::empty(),
                style: plain_spec(),
                hash: Seq::empty(),
                subject: wrap_texts(s, w),
                dim: true,
            },
        ),
        _ => None,
    }
}

/// The rows of the first `n` todo lines.
pub open spec fn table_rows_spec(ls: Seq<TodoLineV>, n: int, rw: Seq<(Seq<char>, Seq<char>)>, w: int) -> Seq<
    TableRowV,
>
    decreases n,
{
    if n <= 0 {
        Seq::empty()
    } else {
        let before = table_rows_spec(ls, n - 1, rw, w);
        match line_row(ls[n - 1], n - 1, rw, w) {
            Some(row) => before.push(row),
            None => before,
        }
    }
}

fn command_split(s: &str) -> (r: (String, String))
    ensures
        (r.0@, r.1@) == command_parts(s@),
{
    let v = chars_of(s);
    let start = trim_start_index(&v);
    let n = v.len();
    let t = string_of_range(&v, start, n);
    let tv = chars_of(t.as_str());
    assert(tv@ == trim_start(s@));
    match find_char(&tv, ' ') {
        Some(k) => {
            let m = tv.len();
            let a = string_of_range(&tv, 0, k);
            let b = string_of_range(&tv, k + 1, m);
            assert(a@ =~= tv@.take(k as int));
            assert(b@ =~= tv@.skip(k + 1));
            (a, b)
        },
        None => (t, string_of(&Vec::new())),
    }
}

fn line_to_row(l: &TodoLine, i: usize, r: &RebaseBody, width: usize) -> (row: Option<TableRow>)
    ensures
        match row {
            Some(x) => line_row(l@, i as int, r.rewords@, width as int) == Some(x@),
            None => line_row(l@, i as int, r.rewords@, width as int) is None,
        },
{
    match l {
        TodoLine::Commit(c) => {
            let subject = match r.rewords.get(c.hash()) {
                Some(s) => {
                    let mut t: Vec<char> = Vec::new();
                    extend_str(&mut t, "\u{270e} ");
                    extend_chars(&mut t, &chars_of(s.as_str()));
                    string_of(&t)
                },
                None => string_of(&chars_of(c.subject())),
            };
            let hv = chars_of(c.hash());
            let hn = if hv.len() < 7 {
                hv.len()
            } else {
                7
            };
            let hash = string_of_range(&hv, 0, hn);
            assert(hash@ =~= c@.hash.take(hn as int));
            let action = c.action();
            let lines = wrapped(subject.as_str(), width);
            let row = TableRow {
                line: i,
                action: string_of(&chars_of(action.as_str())),
                style: action_style(action),
                hash,
                subject: lines,
                dim: false,
            };
            Some(row)
        },
        TodoLine::Other(s) => {
            let (word, rest) = command_split(s.as_str());
            let lines = wrapped(rest.as_str(), width);
            Some(
                TableRow {
                    line: i,
                    action: word,
                    style: Style::fg(Color::Magenta),
                    hash: string_of(&Vec::new()),
                    subject: lines,
                    dim: false,
                },
            )
        },
        TodoLine::Unknown(s) => {
            let lines = wrapped(s.as_str(), width);
            Some(
                TableRow {
                    line: i,
                    action: string_of(&Vec::new()),
                    style: Style::plain(),
                    hash: string_of(&Vec::new()),
                    subject: lines,
                    dim: true,
                },
            )
        },
        _ => None,
    }
}

/// The rows of the rebase table, with subjects wrapped to `subject_width` columns.
pub fn table_rows(r: &RebaseBody, subject_width: usize) -> (rows: Vec<TableRow>)
    ensures
        row_views(rows@) == table_rows_spec(
            r.todo@.lines,
            r.todo@.lines.len() as int,
            r.rewords@,
            subject_width as int,
        ),
{
    let ghost ls = r.todo@.lines;
    let mut out: Vec<TableRow> = Vec::new();
    let mut i: usize = 0;
    while i < r.todo.lines.len()
        invariant
            i <= r.todo.lines@.len(),
            ls == r.todo@.lines,
            ls.len() == r.todo.lines@.len(),
            row_views(out@) == table_rows_spec(ls, i as int, r.rewords@, subject_width as int),
        decreases r.todo.lines@.len() - i,
    {
        assert(ls[i as int] == r.todo.lines@[i as int]@);
        let ghost before = out@;
        match line_to_row(&r.todo.lines[i], i, r, subject_width) {
            Some(row) => {
                out.push(row);
                assert(row_views(out@) =~= row_views(before).push(row@));
            },
            None => {},
        }
        i += 1;
    }
    out
}
/// The display rows that table rows `a` up to (not including) `b` take.
pub open spec fn rows_height(rows: Seq<TableRowV>, a: int, b: int) -> int
    decreases b - a,
{
    if a >= b {
        0
    } else {
        rows[a].subject.len() + rows_height(rows, a + 1, b)
    }
}

/// The first row at or after `from` that shows todo line `line`.
pub open spec fn row_for_line(rows: Seq<TableRowV>, line: int, from: int) -> Option<int>
    decreases rows.len() - from,
{
    if from < 0 || from >= rows.len() {
        None
    } else if rows[from].line == line {
        Some(from)
    } else {
        row_for_line(rows, line, from + 1)
    }
}

/// The top moved down, one row at a time, until the rows from it through `s` fit in
/// `height`, or it reaches `s`.
pub open spec fn advance_top(rows: Seq<TableRowV>, t: int, s: int, height: int) -> int
    decreases s - t,
{
    if t < s && rows_height(rows, t, s + 1) > height {
        advance_top(rows, t + 1, s, height)
    } else {
        t
    }
}

/// The first table row to show: the old top kept within the rows, moved up to the selected
/// row when that is above it, then down as far as needed for the selected row to fit.
pub open spec fn table_top_spec(rows: Seq<TableRowV>, top: int, sel: Option<int>, height: int) -> int {
    let t0 = if top <= rows.len() - 1 {
        top
    } else if rows.len() > 0 {
        rows.len() - 1
    } else {
        0
    };
    match sel {
        Some(s) => advance_top(rows, if s < t0 {
            s
        } else {
            t0
        }, s, height),
        None => t0,
    }
}

proof fn lemma_advance_top(rows: Seq<TableRowV>, t: int, s: int, height: int)
    requires
        t <= s,
    ensures
        t <= advance_top(rows, t, s, height) <= s,
        advance_top(rows, t, s, height) == s || rows_height(
            rows,
            advance_top(rows, t, s, height),
            s + 1,
        ) <= height,
    decreases s - t,
{
    if t < s && rows_height(rows, t, s + 1) > height {
        lemma_advance_top(rows, t + 1, s, height);
    }
}

proof fn lemma_rows_height_split(rows: Seq<TableRowV>, a: int, b: int)
    requires
        a < b,
    ensures
        rows_height(rows, a, b) == rows_height(rows, a, b - 1) + rows[b - 1].subject.len(),
    decreases b - a,
{
    if a < b - 1 {
        lemma_rows_height_split(rows, a + 1, b);
    } else {
        assert(rows_height(rows, a + 1, b) == 0);
        assert(rows_height(rows, a, b - 1) == 0);
    }
}

/// Whether the rows from `a` through `s` take no more than `height` display rows.
fn rows_fit(rows: &[TableRow], a: usize, s: usize, height: usize) -> (r: bool)
    requires
        a <= s < rows@.len(),
    ensures
        r == (rows_height(row_views(rows@), a as int, s + 1) <= height),
{
    let ghost rv = row_views(rows@);
    let mut acc: usize = 0;
    let mut j: usize = a;
    while j <= s
        invariant
            a <= j <= s + 1,
            s < rows@.len(),
            rv == row_views(rows@),
            acc <= height,
            acc == rows_height(rv, a as int, j as int),
        decreases s + 1 - j,
    {
        proof {
            lemma_rows_height_split(rv, a as int, j + 1);
        }
        assert(rv[j as int].subject.len() == rows@[j as int].subject@.len());
        let h = rows[j].subject.len();
        if h > height - acc {
            proof {
                lemma_rows_height_nondecreasing(rv, a as int, j + 1, s + 1);
            }
            return false;
        }
        acc += h;
        j += 1;
    }
    true
}

proof fn lemma_rows_height_nondecreasing(rows: Seq<TableRowV>, a: int, b: int, c: int)
    requires
        a <= b <= c,
    ensures
        rows_height(rows, a, b) <= rows_height(rows, a, c),
    decreases c - b,
{
    if b < c {
        lemma_rows_height_nondecreasing(rows, a, b, c - 1);
        lemma_rows_height_split(rows, a, c);
    }
}

/// Which table rows are in view: the row of the selected line, if the table shows it, and
/// the first row to draw in `height` display rows, starting from the old `top`. The selected
/// row is always in view: at the top, or with every row from the top through it fitting.
pub fn table_layout(rows: &[TableRow], selected_line: Option<usize>, top: usize, height: usize) -> (r: (
    usize,
    Option<usize>,
))
    ensures
        match selected_line {
            Some(l) => (r.1 matches Some(s) && row_for_line(row_views(rows@), l as int, 0) == Some(
                s as int,
            )) || (r.1 is None && row_for_line(row_views(rows@), l as int, 0) is None),
            None => r.1 is None,
        },
        r.0 == table_top_spec(
            row_views(rows@),
            top as int,
            match r.1 {
                Some(s) => Some(s as int),
                None => None,
            },
            height as int,
        ),
        r.1 matches Some(s) ==> r.0 <= s && (r.0 == s || rows_height(
            row_views(rows@),
            r.0 as int,
            s + 1,
        ) <= height),
{
    let ghost rv = row_views(rows@);
    let mut sel: Option<usize> = None;
    if let Some(l) = selected_line {
        let mut i: usize = 0;
        while i < rows.len()
            invariant
                i <= rows@.len(),
                rv == row_views(rows@),
                match sel {
                    Some(s) => s < rows@.len() && row_for_line(rv, l as int, 0) == Some(s as int),
                    None => row_for_line(rv, l as int, 0) == row_for_line(rv, l as int, i as int),
                },
            decreases rows@.len() - i,
        {
            if sel.is_none() && rows[i].line == l {
                sel = Some(i);
            }
            i += 1;
        }
    }
    let n = rows.len();
    let mut t = if n == 0 {
        0
    } else if top <= n - 1 {
        top
    } else {
        n - 1
    };
    if let Some(s) = sel {
        if s < t {
            t = s;
        }
        let ghost t1 = t as int;
        while t < s && !rows_fit(rows, t, s, height)
            invariant
                t <= s < rows@.len(),
                rv == row_views(rows@),
                advance_top(rv, t as int, s as int, height as int) == advance_top(
                    rv,
                    t1,
                    s as int,
                    height as int,
                ),
            decreases s - t,
        {
            t += 1;
        }
        proof {
            lemma_advance_top(rv, t as int, s as int, height as int);
        }
    }
    (t, sel)
}

/// Where the inline editor's row is drawn: the display rows above the selected row, when it
/// starts within `height`.
pub open spec fn inline_row_spec(rows: Seq<TableRowV>, top: int, s: int, height: int) -> Option<int> {
    if rows_height(rows, top, s) < height {
        Some(rows_height(rows, top, s))
    } else {
        None
    }
}

/// The display row of the selected table row `s`, counted from `top`, if it is within
/// `height`.
pub fn inline_row(rows: &[TableRow], top: usize, s: usize, height: usize) -> (r: Option<usize>)
    requires
        top <= s < rows@.len(),
    ensures
        match r {
            Some(y) => inline_row_spec(row_views(rows@), top as int, s as int, height as int)
                == Some(y as int),
            None => inline_row_spec(row_views(rows@), top as int, s as int, height as int) is None,
        },
{
    let ghost rv = row_views(rows@);
    if height == 0 {
        proof {
            lemma_rows_height_nondecreasing(rv, top as int, top as int, s as int);
        }
        return None;
    }
    let mut acc: usize = 0;
    let mut j: usize = top;
    while j < s
        invariant
            top <= j <= s < rows@.len(),
            rv == row_views(rows@),
            acc < height,
            acc == rows_height(rv, top as int, j as int),
        decreases s - j,
    {
        proof {
            lemma_rows_height_split(rv, top as int, j + 1);
        }
        assert(rv[j as int].subject.len() == rows@[j as int].subject@.len());
        let h = rows[j].subject.len();
        if h >= height - acc {
            proof {
                lemma_rows_height_nondecreasing(rv, top as int, j + 1, s as int);
            }
            return None;
        }
        acc += h;
        j += 1;
    }
    if acc < height {
        Some(acc)
    } else {
        None
    }
}

/// How a table row is drawn: dimmed when not understood, and on a dark background in bold
/// when selected.
pub open spec fn row_style_spec(dim: bool, selected: bool) -> Style {
    let s = if dim {
        fg_spec(Color::DarkGray)
    } else {
        plain_spec()
    };
    if selected {
        Style { bg: Color::DarkGray, bold: true, ..s }
    } else {
        s
    }
}

/// The style of a table row.
pub fn row_style(dim: bool, selected: bool) -> (r: Style)
    ensures
        r == row_style_spec(dim, selected),
{
    let s = if dim {
        Style::fg(Color::DarkGray)
    } else {
        Style::plain()
    };
    if selected {
        Style { bg: Color::DarkGray, bold: true, ..s }
    } else {
        s
    }
}

/// The subject lines a row shows: the open inline edit, its lines joined by spaces, on the
/// selected row; the row's own subject otherwise.
pub open spec fn shown_subject(row: TableRowV, selected: bool, inline: Option<Seq<Seq<char>>>) -> Seq<
    Seq<char>,
> {
    match inline {
        Some(ls) if selected => seq![join(ls, seq![' '])],
        _ => row.subject,
    }
}

/// The subject lines a row shows.
pub fn row_subject_lines(row: &TableRow, selected: bool, inline: &Option<Vec<String>>) -> (r: Vec<
    String,
>)
    ensures
        views(r@) == shown_subject(
            row@,
            selected,
            match inline {
                Some(v) => Some(views(v@)),
                None => None,
            },
        ),
{
    match inline {
        Some(v) if selected => {
            let mut out: Vec<String> = Vec::new();
            out.push(join_strings(v.as_slice(), ' '));
            assert(views(out@) =~= seq![join(views(v@), seq![' '])]);
            out
        },
        _ => copy_strings(&row.subject),
    }
}

/// A copy of a list of strings.
pub fn copy_strings(v: &Vec<String>) -> (r: Vec<String>)
    ensures
        views(r@) == views(v@),
{
    let mut out: Vec<String> = Vec::new();
    let mut i: usize = 0;
    while i < v.len()
        invariant
            i <= v@.len(),
            views(out@) == views(v@).take(i as int),
        decreases v@.len() - i,
    {
        let ghost before = out@;
        out.push(v[i].clone());
        assert(views(out@) =~= views(before).push(v@[i as int]@));
        assert(views(out@) =~= views(v@).take(i + 1));
        i += 1;
    }
    assert(views(v@).take(i as int) =~= views(v@));
    out
}

/// Dimmed text.
pub open spec fn dim_spec() -> Style {
    fg_spec(Color::DarkGray)
}

/// The summary at the top of the details pane: commits before and after, what is squashed,
/// dropped and reworded, a warning when the first commit melds into nothing, and an empty row.
pub open spec fn summary_rows(s: (nat, nat, nat, nat, nat, bool)) -> Seq<Seq<(Seq<char>, Style)>> {
    let head = seq![
        seq![
            (
                decimal_spec(s.0) + " \u{2192} "@ + decimal_spec(s.1) + " commits"@,
                Style { bold: true, ..plain_spec() },
            ),
        ],
        seq![
            (
                decimal_spec(s.2) + " squash/fixup \u{b7} "@ + decimal_spec(s.3) + " drop \u{b7} "@
                    + decimal_spec(s.4) + " reword"@,
                plain_spec(),
            ),
        ],
    ];
    let warned = if s.5 {
        head.push(seq![("\u{26a0} the first commit cannot be squashed or fixed up"@, fg_spec(Color::Red))])
    } else {
        head
    };
    warned.push(Seq::empty())
}

/// Rows of plain text, one per string.
pub open spec fn text_rows(ts: Seq<Seq<char>>) -> Seq<Seq<(Seq<char>, Style)>> {
    Seq::new(ts.len(), |k: int| seq![(ts[k], plain_spec())])
}

/// A commit message's lines, each wrapped to `w`.
pub open spec fn message_rows(ms: Seq<Seq<char>>, w: int) -> Seq<Seq<(Seq<char>, Style)>>
    decreases ms.len(),
{
    if ms.len() == 0 {
        Seq::empty()
    } else {
        message_rows(ms.drop_last(), w) + text_rows(wrap_texts(ms.last(), w))
    }
}

/// A commit's files: the colored status letter, a space and the path.
pub open spec fn file_list_rows(fs: Seq<(char, Seq<char>)>) -> Seq<Seq<(Seq<char>, Style)>> {
    Seq::new(
        fs.len(),
        |i: int|
            seq![
                (seq![fs[i].0], badge_style_spec(fs[i].0)),
                (" "@, plain_spec()),
                (fs[i].1, plain_spec()),
            ],
    )
}

/// What the details pane shows of a commit: that it is loading, that git had no details, or
/// its message, an empty row and its files.
pub open spec fn commit_rows(d: Option<Option<CommitDetailsV>>, w: int) -> Seq<Seq<(Seq<char>, Style)>> {
    match d {
        None => seq![seq![("loading\u{2026}"@, dim_spec())]],
        Some(None) => seq![seq![("details unavailable"@, dim_spec())]],
        Some(Some(x)) => message_rows(x.message, w) + seq![Seq::<(Seq<char>, Style)>::empty()]
            + file_list_rows(x.files),
    }
}

/// The details pane: the summary; then, for a selected commit, its hash in bold yellow and
/// what is known of it; for another selected command, its line.
pub open spec fn details_spec(
    t: TodoV,
    selected: int,
    cache: Seq<(Seq<char>, Option<CommitDetailsV>)>,
    w: int,
) -> Seq<Seq<(Seq<char>, Style)>> {
    summary_rows(summary_spec(t.lines)) + match selected_line_spec(t, selected) {
        Some(l) => match t.lines[l] {
            TodoLineV::Commit(c) => seq![
                seq![(c.hash, Style { bold: true, ..fg_spec(Color::Yellow) })],
            ] + commit_rows(lookup(cache, c.hash), w),
            TodoLineV::Other(s) => seq![seq![(s, plain_spec())]],
            _ => Seq::empty(),
        },
        None => Seq::empty(),
    }
}

fn push_line(out: &mut Vec<Vec<Span>>, text: String, style: Style)
    ensures
        lines_view(final(out)@) == lines_view(old(out)@).push(seq![(text@, style)]),
{
    let mut line: Vec<Span> = Vec::new();
    line.push(Span { text, style });
    assert(spans_view(line@) =~= seq![(text@, style)]);
    let ghost before = out@;
    out.push(line);
    assert(lines_view(out@) =~= lines_view(before).push(seq![(text@, style)]));
}

fn push_blank(out: &mut Vec<Vec<Span>>)
    ensures
        lines_view(final(out)@) == lines_view(old(out)@).push(Seq::empty()),
{
    let empty: Vec<Span> = Vec::new();
    assert(spans_view(empty@) =~= Seq::<(Seq<char>, Style)>::empty());
    let ghost before = out@;
    out.push(empty);
    assert(lines_view(out@) =~= lines_view(before).push(Seq::empty()));
}

fn push_commit_rows(out: &mut Vec<Vec<Span>>, d: Option<&Option<CommitDetails>>, width: usize)
    ensures
        lines_view(final(out)@) == lines_view(old(out)@) + commit_rows(
            match d {
                Some(x) => Some(opt_details_view(*x)),
                None => None,
            },
            width as int,
        ),
{
    let ghost start = lines_view(out@);
    match d {
        None => {
            push_line(out, string_of(&chars_of("loading\u{2026}")), Style::fg(Color::DarkGray));
        },
        Some(None) => {
            push_line(out, string_of(&chars_of("details unavailable")), Style::fg(Color::DarkGray));
        },
        Some(Some(x)) => {
            let ghost xv = x@;
            let mut i: usize = 0;
            while i < x.message.len()
                invariant
                    i <= x.message@.len(),
                    xv == x@,
                    lines_view(out@) == start + message_rows(xv.message.take(i as int), width as int),
                decreases x.message@.len() - i,
            {
                let rows = wrapped(x.message[i].as_str(), width);
                let ghost mid = lines_view(out@);
                let ghost texts = wrap_texts(xv.message[i as int], width as int);
                let mut k: usize = 0;
                while k < rows.len()
                    invariant
                        k <= rows@.len(),
                        views(rows@) == texts,
                        lines_view(out@) == mid + text_rows(texts.take(k as int)),
                    decreases rows@.len() - k,
                {
                    push_line(out, rows[k].clone(), Style::plain());
                    assert(text_rows(texts.take(k + 1)) =~= text_rows(texts.take(k as int)).push(
                        seq![(texts[k as int], plain_spec())],
                    ));
                    k += 1;
                }
                assert(texts.take(k as int) =~= texts);
                assert(xv.message.take(i + 1).drop_last() =~= xv.message.take(i as int));
                i += 1;
            }
            assert(xv.message.take(i as int) =~= xv.message);
            push_blank(out);
            let ghost mid = lines_view(out@);
            let mut j: usize = 0;
            while j < x.files.len()
                invariant
                    j <= x.files@.len(),
                    xv == x@,
                    lines_view(out@) == mid + file_list_rows(xv.files.take(j as int)),
                decreases x.files@.len() - j,
            {
                let (badge, path) = (x.files[j].0, &x.files[j].1);
                let mut line: Vec<Span> = Vec::new();
                let mut b: Vec<char> = Vec::new();
                b.push(badge);
                line.push(Span { text: string_of(&b), style: badge_style(badge) });
                line.push(span(" ", Style::plain()));
                line.push(Span { text: path.clone(), style: Style::plain() });
                assert(xv.files[j as int] == (badge, path@));
                assert(spans_view(line@) =~= file_list_rows(xv.files)[j as int]);
                let ghost before = out@;
                out.push(line);
                assert(lines_view(out@) =~= lines_view(before).push(
                    file_list_rows(xv.files)[j as int],
                ));
                assert(file_list_rows(xv.files.take(j + 1)) =~= file_list_rows(xv.files.take(j as int)).push(
                    file_list_rows(xv.files)[j as int],
                ));
                j += 1;
            }
            assert(xv.files.take(j as int) =~= xv.files);
        },
    }
}

/// The details pane's rows for the rebase, wrapped to `width`.
pub fn details_lines(r: &RebaseBody, width: usize) -> (out: Vec<Vec<Span>>)
    ensures
        lines_view(out@) == details_spec(r.todo@, r.selected as int, r.details@.cache, width as int),
{
    let s = r.todo.summary();
    let mut out: Vec<Vec<Span>> = Vec::new();
    let mut t: Vec<char> = Vec::new();
    extend_chars(&mut t, &chars_of(decimal_string(s.total as u128).as_str()));
    extend_str(&mut t, " \u{2192} ");
    extend_chars(&mut t, &chars_of(decimal_string(s.result as u128).as_str()));
    extend_str(&mut t, " commits");
    push_line(&mut out, string_of(&t), Style::plain().bold());
    let mut u: Vec<char> = Vec::new();
    extend_chars(&mut u, &chars_of(decimal_string(s.squash_fixup as u128).as_str()));
    extend_str(&mut u, " squash/fixup \u{b7} ");
    extend_chars(&mut u, &chars_of(decimal_string(s.drop as u128).as_str()));
    extend_str(&mut u, " drop \u{b7} ");
    extend_chars(&mut u, &chars_of(decimal_string(s.reword as u128).as_str()));
    extend_str(&mut u, " reword");
    push_line(&mut out, string_of(&u), Style::plain());
    if s.first_is_squash {
        push_line(
            &mut out,
            string_of(&chars_of("\u{26a0} the first commit cannot be squashed or fixed up")),
            Style::fg(Color::Red),
        );
    }
    push_blank(&mut out);
    assert(lines_view(out@) =~= summary_rows(summary_spec(r.todo@.lines)));
    let ghost head = lines_view(out@);
    match r.selected_line() {
        None => {},
        Some(line) => {
            proof {
                crate::rebase::lemma_instruction_indices(r.todo@.lines);
            }
            assert(r.todo@.lines[line as int] == r.todo.lines@[line as int]@);
            match &r.todo.lines[line] {
                TodoLine::Commit(c) => {
                    push_line(&mut out, string_of(&chars_of(c.hash())), Style::fg(Color::Yellow).bold());
                    let d = r.details.get(c.hash());
                    push_commit_rows(&mut out, d, width);
                },
                TodoLine::Other(s) => {
                    push_line(&mut out, s.clone(), Style::plain());
                },
                _ => {},
            }
        },
    }
    assert(lines_view(out@) =~= details_spec(r.todo@, r.selected as int, r.details@.cache, width as int));
    out
}


proof fn lemma_row_of_line(
    ls: Seq<TodoLineV>,
    n: int,
    rw: Seq<(Seq<char>, Seq<char>)>,
    w: int,
    k: int,
) -> (j: int)
    requires
        0 <= k < n <= ls.len(),
        line_row(ls[k], k, rw, w) is Some,
    ensures
        0 <= j < table_rows_spec(ls, n, rw, w).len(),
        line_row(ls[k], k, rw, w) == Some(table_rows_spec(ls, n, rw, w)[j]),
    decreases n,
{
    let before = table_rows_spec(ls, n - 1, rw, w);
    if n == k + 1 {
        before.len() as int
    } else {
        let j = lemma_row_of_line(ls, n - 1, rw, w, k);
        match line_row(ls[n - 1], n - 1, rw, w) {
            Some(row) => {
                assert(before.push(row)[j] == before[j]);
            },
            None => {},
        }
        j
    }
}

/// Every commit instruction has its row in the table, and the row shows the subject the commit
/// will get: a pending reword, after the pencil, or else the todo's own subject (its text
/// after the hash, without a leading `# `), wrapped to the subject column.
pub proof fn law_commit_rows_show_subject(
    ls: Seq<TodoLineV>,
    rw: Seq<(Seq<char>, Seq<char>)>,
    w: int,
    k: int,
) -> (j: int)
    requires
        0 <= k < ls.len(),
        ls[k] is Commit,
    ensures
        ({
            let rows = table_rows_spec(ls, ls.len() as int, rw, w);
            &&& 0 <= j < rows.len()
            &&& rows[j].line == k
            &&& ls[k] matches TodoLineV::Commit(c) ==> match subject_for(rw, c.hash) {
                Some(s) => rows[j].subject == wrap_texts("\u{270e} "@ + s, w),
                None => rows[j].subject == wrap_texts(
                    if starts_with(c.rest, "# "@) {
                        c.rest.skip(2)
                    } else {
                        c.rest
                    },
                    w,
                ),
            }
        }),
{
    lemma_row_of_line(ls, ls.len() as int, rw, w, k)
}
} // verus!
