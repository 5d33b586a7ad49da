//! What the panes show, as lines of styled text: the editor's wrapped rows with the cursor and
//! selection, the pane titles, the right pane and where it scrolls, the key bar and the help.
//! The terminal front end draws these lines; the choices of text, order, wrapping and style
//! are made here.
use vstd::prelude::*;

use crate::layout::Pane;
use crate::rebase::range_spec;
use crate::rebase_view::{details_lines, details_spec};
use crate::session::{has_right_spec, App, Body};
use crate::status::{render_lines, render_spec};
use crate::text::{
    chars_of, decimal_spec, decimal_string, extend_chars, extend_str, string_of, string_of_range,
    views,
};
use crate::wrap::{lemma_wrap_shape, row_of, wrap, wrap_spec};

verus! {

/// A text color.
#[derive(Debug, Clone, Copy, PartialEq, Eq, Structural)]
pub enum Color {
    Reset,
    Green,
    Red,
    Yellow,
    Blue,
    Cyan,
    Magenta,
    DarkGray,
    White,
}

/// How a piece of text is drawn.
#[derive(Debug, Clone, Copy, PartialEq, Eq, Structural)]
pub struct Style {
    pub fg: Color,
    pub bg: Color,
    pub bold: bool,
    pub reversed: bool,
}

/// Plain text.
pub open spec fn plain_spec() -> Style {
    Style { fg: Color::Reset, bg: Color::Reset, bold: false, reversed: false }
}

/// Text in a color.
pub open spec fn fg_spec(c: Color) -> Style {
    Style { fg: c, ..plain_spec() }
}

impl Style {
    /// Plain text.
    pub fn plain() -> (r: Style)
        ensures
            r == plain_spec(),
    {
        Style { fg: Color::Reset, bg: Color::Reset, bold: false, reversed: false }
    }

    /// Text in a color.
    pub fn fg(c: Color) -> (r: Style)
        ensures
            r == fg_spec(c),
    {
        Style { fg: c, bg: Color::Reset, bold: false, reversed: false }
    }

    /// This style, bold.
    pub fn bold(self) -> (r: Style)
        ensures
            r == (Style { bold: true, ..self }),
    {
        Style { bold: true, ..self }
    }
}

/// A piece of text with its style.
#[derive(Debug, Clone, PartialEq)]
pub struct Span {
    pub text: String,
    pub style: Style,
}

/// A span seen as its text and style.
pub open spec fn span_view(s: Span) -> (Seq<char>, Style) {
    (s.text@, s.style)
}

/// A line of spans, seen as texts and styles.
pub open spec fn spans_view(v: Seq<Span>) -> Seq<(Seq<char>, Style)> {
    Seq::new(v.len(), |i: int| span_view(v[i]))
}

/// Lines of spans, each seen as texts and styles.
pub open spec fn lines_view(v: Seq<Vec<Span>>) -> Seq<Seq<(Seq<char>, Style)>> {
    Seq::new(v.len(), |i: int| spans_view(v[i]@))
}

/// A span of `text` in `style`.
pub fn span(text: &str, style: Style) -> (r: Span)
    ensures
        r.text@ == text@,
        r.style == style,
{
    Span { text: string_of(&chars_of(text)), style }
}


/// What the key bar depends on: help shown, the inline editor open, the right pane focused,
/// and what the left pane shows.
#[derive(Debug, Clone, Copy, PartialEq, Eq, Structural)]
pub enum LeftPane {
    /// The rebase table.
    Table,
    /// The raw todo editor.
    RawTodo,
    /// A message with a status pane beside it.
    MessageWithStatus,
    /// A text editor alone.
    TextOnly,
}

/// The views of key bar entries.
pub open spec fn entry_views(v: Seq<(&'static str, &'static str)>) -> Seq<(Seq<char>, Seq<char>)> {
    Seq::new(v.len(), |i: int| (v[i].0@, v[i].1@))
}

/// The key bar's entries: with help shown, how to close and scroll it; otherwise saving,
/// then the keys of an open inline edit, of the focused right pane, or of the left pane.
pub open spec fn key_bar_spec(show_help: bool, inline: bool, right_focused: bool, left: LeftPane) -> Seq<
    (Seq<char>, Seq<char>),
> {
    if show_help {
        seq![("Esc"@, "Close"@), ("\u{2191}\u{2193}"@, "Scroll"@)]
    } else if inline {
        seq![("^S"@, "Save"@), ("Enter"@, "Confirm"@), ("Esc"@, "Discard"@), ("^H"@, "Help"@)]
    } else if right_focused {
        seq![
            ("^S"@, "Save"@),
            ("Esc"@, "Back"@),
            ("^H"@, "Help"@),
            ("\u{2191}\u{2193}"@, "Scroll"@),
            ("PgUp/PgDn"@, "Page"@),
            ("Home/End"@, "Top/End"@),
        ]
    } else {
        let base = seq![("^S"@, "Save"@), ("Esc"@, "Cancel"@), ("^H"@, "Help"@)];
        match left {
            LeftPane::Table => base + seq![
                ("p r e s f d"@, "Action"@),
                ("Tab"@, "Cycle"@),
                ("Alt+\u{2191}\u{2193}"@, "Move"@),
                ("Enter"@, "Reword"@),
                ("^E"@, "Raw"@),
                ("Alt+\u{2192}"@, "Details"@),
            ],
            LeftPane::RawTodo => base.push(("^E"@, "Table"@)),
            LeftPane::MessageWithStatus => base + seq![
                ("Alt+\u{2192}"@, "Status"@),
                ("^T"@, "Switch pane"@),
            ],
            LeftPane::TextOnly => base,
        }
    }
}

/// The key bar's entries for the current state.
pub fn key_bar_entries(show_help: bool, inline: bool, right_focused: bool, left: LeftPane) -> (r: Vec<
    (&'static str, &'static str),
>)
    ensures
        entry_views(r@) == key_bar_spec(show_help, inline, right_focused, left),
{
    let mut keys: Vec<(&'static str, &'static str)> = Vec::new();
    if show_help {
        keys.push(("Esc", "Close"));
        keys.push(("\u{2191}\u{2193}", "Scroll"));
        assert(entry_views(keys@) =~= key_bar_spec(show_help, inline, right_focused, left));
        return keys;
    }
    keys.push(("^S", "Save"));
    if inline {
        keys.push(("Enter", "Confirm"));
        keys.push(("Esc", "Discard"));
        keys.push(("^H", "Help"));
        assert(entry_views(keys@) =~= key_bar_spec(show_help, inline, right_focused, left));
        return keys;
    }
    if right_focused {
        keys.push(("Esc", "Back"));
        keys.push(("^H", "Help"));
        keys.push(("\u{2191}\u{2193}", "Scroll"));
        keys.push(("PgUp/PgDn", "Page"));
        keys.push(("Home/End", "Top/End"));
        assert(entry_views(keys@) =~= key_bar_spec(show_help, inline, right_focused, left));
        return keys;
    }
    keys.push(("Esc", "Cancel"));
    keys.push(("^H", "Help"));
    match left {
        LeftPane::Table => {
            keys.push(("p r e s f d", "Action"));
            keys.push(("Tab", "Cycle"));
            keys.push(("Alt+\u{2191}\u{2193}", "Move"));
            keys.push(("Enter", "Reword"));
            keys.push(("^E", "Raw"));
            keys.push(("Alt+\u{2192}", "Details"));
        },
        LeftPane::RawTodo => keys.push(("^E", "Table")),
        LeftPane::MessageWithStatus => {
            keys.push(("Alt+\u{2192}", "Status"));
            keys.push(("^T", "Switch pane"));
        },
        LeftPane::TextOnly => {},
    }
    assert(entry_views(keys@) =~= key_bar_spec(show_help, inline, right_focused, left));
    keys
}

/// The columns an entry takes on the key bar: key, label and three spaces.
pub open spec fn entry_width(e: (Seq<char>, Seq<char>)) -> int {
    (e.0.len() + e.1.len() + 3) as int
}

/// How many leading entries fit in `width` columns, counting from entry `i` with `used`
/// columns taken.
pub open spec fn entries_fitting(es: Seq<(Seq<char>, Seq<char>)>, width: int, i: int, used: int) -> int
    decreases es.len() - i,
{
    if i < 0 || i >= es.len() || used + entry_width(es[i]) > width {
        0
    } else {
        1 + entries_fitting(es, width, i + 1, used + entry_width(es[i]))
    }
}

/// The spans of the first `n` entries: each key in bold, then its label between one space
/// before and two after.
pub open spec fn key_bar_spans(es: Seq<(Seq<char>, Seq<char>)>, n: int) -> Seq<(Seq<char>, Style)>
    decreases n,
{
    if n <= 0 {
        Seq::empty()
    } else {
        key_bar_spans(es, n - 1) + seq![
            (es[n - 1].0, Style { bold: true, ..plain_spec() }),
            (seq![' '] + es[n - 1].1 + seq![' ', ' '], plain_spec()),
        ]
    }
}

proof fn lemma_entries_fitting(es: Seq<(Seq<char>, Seq<char>)>, width: int, i: int, used: int)
    requires
        0 <= i <= es.len(),
    ensures
        0 <= entries_fitting(es, width, i, used) <= es.len() - i,
    decreases es.len() - i,
{
    if i < es.len() && used + entry_width(es[i]) <= width {
        lemma_entries_fitting(es, width, i + 1, used + entry_width(es[i]));
    }
}

/// The columns entries `i` up to (not including) `j` take.
pub open spec fn entries_width(es: Seq<(Seq<char>, Seq<char>)>, i: int, j: int) -> int
    decreases j - i,
{
    if j <= i {
        0
    } else {
        entries_width(es, i, j - 1) + entry_width(es[j - 1])
    }
}

proof fn lemma_fitting_prefix(es: Seq<(Seq<char>, Seq<char>)>, width: int, i: int, used: int)
    requires
        0 <= i <= es.len(),
    ensures
        used + entries_width(es, i, i + entries_fitting(es, width, i, used)) <= width || entries_fitting(
            es,
            width,
            i,
            used,
        ) == 0,
        i + entries_fitting(es, width, i, used) < es.len() ==> used + entries_width(
            es,
            i,
            i + entries_fitting(es, width, i, used) + 1,
        ) > width,
    decreases es.len() - i,
{
    lemma_entries_fitting(es, width, i, used);
    if i < es.len() && used + entry_width(es[i]) <= width {
        let u2 = used + entry_width(es[i]);
        lemma_fitting_prefix(es, width, i + 1, u2);
        let m = entries_fitting(es, width, i + 1, u2);
        lemma_width_shift(es, i, i + 1 + m);
        lemma_width_shift(es, i, i + 2 + m);
    } else if i < es.len() {
        lemma_width_shift(es, i, i + 1);
        assert(entries_width(es, i + 1, i + 1) == 0);
    }
}

proof fn lemma_width_shift(es: Seq<(Seq<char>, Seq<char>)>, i: int, j: int)
    requires
        i < j,
    ensures
        entries_width(es, i, j) == entry_width(es[i]) + entries_width(es, i + 1, j),
    decreases j - i,
{
    if j > i + 1 {
        lemma_width_shift(es, i, j - 1);
    } else {
        assert(entries_width(es, i, i) == 0);
        assert(entries_width(es, i + 1, j) == 0);
    }
}

/// The key bar keeps the longest run of leading entries that fits: the entries it keeps fit
/// in the width, and with the next one they would not.
pub proof fn law_key_bar_fits(es: Seq<(Seq<char>, Seq<char>)>, width: int)
    requires
        width >= 0,
    ensures
        entries_width(es, 0, entries_fitting(es, width, 0, 0)) <= width,
        entries_fitting(es, width, 0, 0) < es.len() ==> entries_width(
            es,
            0,
            entries_fitting(es, width, 0, 0) + 1,
        ) > width,
{
    lemma_fitting_prefix(es, width, 0, 0);
}

/// Key bar text; entries that do not fit the width are dropped from the end.
pub fn key_bar_line(entries: &[(&str, &str)], width: usize) -> (r: Vec<Span>)
    ensures
        spans_view(r@) == key_bar_spans(
            entry_views(entries@),
            entries_fitting(entry_views(entries@), width as int, 0, 0),
        ),
{
    let ghost es = entry_views(entries@);
    let mut spans: Vec<Span> = Vec::new();
    let mut used: usize = 0;
    let mut i: usize = 0;
    proof {
        lemma_entries_fitting(es, width as int, 0, 0);
    }
    while i < entries.len()
        invariant
            i <= entries@.len(),
            es == entry_views(entries@),
            used <= width,
            entries_fitting(es, width as int, 0, 0) == i + entries_fitting(
                es,
                width as int,
                i as int,
                used as int,
            ),
            spans_view(spans@) == key_bar_spans(es, i as int),
        decreases entries@.len() - i,
    {
        let (key, label) = entries[i];
        let kn = key.unicode_len();
        let ln = label.unicode_len();
        assert(es[i as int] == (key@, label@));
        if kn > width || ln > width - kn || 3 > width - kn - ln || used > width - kn - ln - 3 {
            proof {
                lemma_entries_fitting(es, width as int, i as int, used as int);
            }
            assert(spans_view(spans@) == key_bar_spans(es, entries_fitting(es, width as int, 0, 0)));
            return spans;
        }
        let len = kn + ln + 3;
        let ghost before = spans_view(spans@);
        spans.push(span(key, Style::plain().bold()));
        let mut text: Vec<char> = Vec::new();
        text.push(' ');
        crate::text::extend_str(&mut text, label);
        text.push(' ');
        text.push(' ');
        assert(text@ =~= seq![' '] + label@ + seq![' ', ' ']);
        spans.push(Span { text: string_of(&text), style: Style::plain() });
        assert(spans_view(spans@) =~= before + seq![
            (key@, Style { bold: true, ..plain_spec() }),
            (seq![' '] + label@ + seq![' ', ' '], plain_spec()),
        ]);
        assert(spans_view(spans@) =~= key_bar_spans(es, i + 1));
        used += len;
        i += 1;
    }
    proof {
        assert(entries_fitting(es, width as int, i as int, used as int) == 0);
    }
    spans
}


/// The views of the help lines.
pub open spec fn text_views(v: Seq<&'static str>) -> Seq<Seq<char>> {
    Seq::new(v.len(), |i: int| v[i]@)
}

/// The help's global keys.
pub open spec fn help_global() -> Seq<Seq<char>> {
    seq![
        "Global"@,
        "  Ctrl+S          Save and exit"@,
        "  Ctrl+H          Toggle this help"@,
        "  Alt+\u{2190} / Alt+\u{2192}   Focus left / right pane (or click a pane)"@,
        "  Ctrl+T          Switch pane (narrow terminals show one pane)"@,
        "  Esc             Cancel in the left pane, back to it from the right"@,
        ""@,
    ]
}

/// The help's rebase keys and the todo commands.
pub open spec fn help_rebase() -> Seq<Seq<char>> {
    seq![
        "Rebase table"@,
        "  \u{2191}/\u{2193} Home/End    Select instruction"@,
        "  p r e s f d     Pick / reword / edit / squash / fixup / drop"@,
        "  Tab             Cycle pick \u{2192} squash \u{2192} fixup \u{2192} drop"@,
        "  Alt+\u{2191} / Alt+\u{2193}   Move instruction"@,
        "  Enter           Reword subject inline (Enter confirm, Esc discard)"@,
        "  Ctrl+E          Toggle raw text editing"@,
        ""@,
        "Details pane"@,
        "  \u{2191}/\u{2193} PgUp/PgDn Home/End   Scroll (or mouse wheel)"@,
        ""@,
        "Inline reword needs gitmedit as core.editor as well."@,
        ""@,
        "Commands"@,
        "  pick        use commit"@,
        "  reword      use commit, but edit the commit message"@,
        "  edit        use commit, but stop for amending"@,
        "  squash      use commit, but meld into previous commit"@,
        "  fixup       like squash, but keep only the previous message"@,
        "  exec        run command (the rest of the line) using shell"@,
        "  break       stop here (continue with git rebase --continue)"@,
        "  drop        remove commit"@,
        "  label       label current HEAD with a name"@,
        "  reset       reset HEAD to a label"@,
        "  merge       create a merge commit"@,
        "  update-ref  track a placeholder for a ref to update"@,
    ]
}

/// The help's editor keys.
pub open spec fn help_editor() -> Seq<Seq<char>> {
    seq![
        "Editor"@,
        "  Ctrl+C / Ctrl+X / Ctrl+V   Copy / cut / paste"@,
        "  Ctrl+U                     Delete line"@,
        "  Ctrl+W / Ctrl+D            Delete previous / next word"@,
        "  Ctrl+Z / Ctrl+Y            Undo / redo"@,
        ""@,
        "Status pane"@,
        "  \u{2191}/\u{2193} PgUp/PgDn Home/End     Scroll (or mouse wheel)"@,
    ]
}

/// The help text: the global keys, then those of the rebase table or of the editor.
pub fn help_lines(rebase: bool) -> (r: Vec<&'static str>)
    ensures
        text_views(r@) == help_global() + if rebase {
            help_rebase()
        } else {
            help_editor()
        },
{
    let mut lines: Vec<&'static str> = Vec::new();
    lines.push("Global");
    lines.push("  Ctrl+S          Save and exit");
    lines.push("  Ctrl+H          Toggle this help");
    lines.push("  Alt+\u{2190} / Alt+\u{2192}   Focus left / right pane (or click a pane)");
    lines.push("  Ctrl+T          Switch pane (narrow terminals show one pane)");
    lines.push("  Esc             Cancel in the left pane, back to it from the right");
    lines.push("");
    if rebase {
        lines.push("Rebase table");
        lines.push("  \u{2191}/\u{2193} Home/End    Select instruction");
        lines.push("  p r e s f d     Pick / reword / edit / squash / fixup / drop");
        lines.push("  Tab             Cycle pick \u{2192} squash \u{2192} fixup \u{2192} drop");
        lines.push("  Alt+\u{2191} / Alt+\u{2193}   Move instruction");
        lines.push("  Enter           Reword subject inline (Enter confirm, Esc discard)");
        lines.push("  Ctrl+E          Toggle raw text editing");
        lines.push("");
        lines.push("Details pane");
        lines.push("  \u{2191}/\u{2193} PgUp/PgDn Home/End   Scroll (or mouse wheel)");
        lines.push("");
        lines.push("Inline reword needs gitmedit as core.editor as well.");
        lines.push("");
        lines.push("Commands");
        lines.push("  pick        use commit");
        lines.push("  reword      use commit, but edit the commit message");
        lines.push("  edit        use commit, but stop for amending");
        lines.push("  squash      use commit, but meld into previous commit");
        lines.push("  fixup       like squash, but keep only the previous message");
        lines.push("  exec        run command (the rest of the line) using shell");
        lines.push("  break       stop here (continue with git rebase --continue)");
        lines.push("  drop        remove commit");
        lines.push("  label       label current HEAD with a name");
        lines.push("  reset       reset HEAD to a label");
        lines.push("  merge       create a merge commit");
        lines.push("  update-ref  track a placeholder for a ref to update");
    } else {
        lines.push("Editor");
        lines.push("  Ctrl+C / Ctrl+X / Ctrl+V   Copy / cut / paste");
        lines.push("  Ctrl+U                     Delete line");
        lines.push("  Ctrl+W / Ctrl+D            Delete previous / next word");
        lines.push("  Ctrl+Z / Ctrl+Y            Undo / redo");
        lines.push("");
        lines.push("Status pane");
        lines.push("  \u{2191}/\u{2193} PgUp/PgDn Home/End     Scroll (or mouse wheel)");
    }
    assert(text_views(lines@) =~= help_global() + if rebase {
        help_rebase()
    } else {
        help_editor()
    });
    lines
}
/// `s` begins with exactly `n` copies of `c`.
pub open spec fn has_run(s: Seq<char>, c: char, n: int) -> bool {
    &&& 0 <= n <= s.len()
    &&& forall|j: int| 0 <= j < n ==> s[j] == c
    &&& n == s.len() || s[n] != c
}

/// A merge conflict marker: a line that begins with exactly six or seven `<`, `=` or `>`.
pub open spec fn is_conflict_marker_spec(s: Seq<char>) -> bool {
    ||| has_run(s, '<', 6) || has_run(s, '<', 7)
    ||| has_run(s, '=', 6) || has_run(s, '=', 7)
    ||| has_run(s, '>', 6) || has_run(s, '>', 7)
}

fn leading_run(s: &[char], c: char) -> (n: usize)
    ensures
        has_run(s@, c, n as int),
{
    let mut n: usize = 0;
    while n < s.len() && s[n] == c
        invariant
            n <= s@.len(),
            forall|j: int| 0 <= j < n ==> s@[j] == c,
        decreases s@.len() - n,
    {
        n += 1;
    }
    n
}

proof fn lemma_run_unique(s: Seq<char>, c: char, a: int, b: int)
    requires
        has_run(s, c, a),
        has_run(s, c, b),
    ensures
        a == b,
{
    if a < b {
        assert(s[a] == c);
    } else if b < a {
        assert(s[b] == c);
    }
}

fn marker_run(s: &[char], c: char) -> (r: bool)
    ensures
        r == (has_run(s@, c, 6) || has_run(s@, c, 7)),
{
    let n = leading_run(s, c);
    proof {
        if has_run(s@, c, 6) {
            lemma_run_unique(s@, c, 6, n as int);
        }
        if has_run(s@, c, 7) {
            lemma_run_unique(s@, c, 7, n as int);
        }
    }
    n == 6 || n == 7
}

/// Whether `line` is a merge conflict marker.
pub fn is_conflict_marker(line: &str) -> (r: bool)
    ensures
        r == is_conflict_marker_spec(line@),
{
    let s = chars_of(line);
    marker_run(&s, '<') || marker_run(&s, '=') || marker_run(&s, '>')
}

/// A text selection: from (row, column) to (row, column), the end excluded.
pub type Selection = Option<((usize, usize), (usize, usize))>;

/// `a`, but no more than `b`.
pub open spec fn at_most(a: int, b: int) -> int {
    if a <= b {
        a
    } else {
        b
    }
}

/// `a - b`, or zero when `b` is larger.
pub open spec fn minus_or_zero(a: int, b: int) -> int {
    if a >= b {
        a - b
    } else {
        0
    }
}

/// The chars of a row of `len` chars starting at column `start` of line `line` that the
/// selection covers, as a range `(from, to)` within the row; empty when it covers none.
pub open spec fn selected_range(sel: Selection, line: int, start: int, len: int) -> (int, int) {
    match sel {
        Some(((sr, sc), (er, ec))) => if sr <= line <= er {
            let s = if sr == line {
                sc as int
            } else {
                0
            };
            let e = if er == line {
                ec as int
            } else {
                usize::MAX as int
            };
            (at_most(minus_or_zero(s, start), len), at_most(minus_or_zero(e, start), len))
        } else {
            (0, 0)
        },
        None => (0, 0),
    }
}

/// A reversed copy of a style.
pub open spec fn reversed_spec(s: Style) -> Style {
    Style { reversed: true, ..s }
}

/// The spans of one display row: the row in `base`, with the selected part reversed.
pub open spec fn row_spans_spec(text: Seq<char>, start: int, line: int, sel: Selection, base: Style) -> Seq<
    (Seq<char>, Style),
> {
    let (from, to) = selected_range(sel, line, start, text.len() as int);
    if from >= to {
        seq![(text, base)]
    } else {
        seq![
            (text.take(from), base),
            (text.subrange(from, to), reversed_spec(base)),
            (text.skip(to), base),
        ]
    }
}

/// The spans of the display row `text`, which starts at column `start` of line `line`.
pub fn row_spans(text: &str, start: usize, line: usize, selection: Selection, base: Style) -> (r: Vec<
    Span,
>)
    ensures
        spans_view(r@) == row_spans_spec(text@, start as int, line as int, selection, base),
{
    let chars = chars_of(text);
    let len = chars.len();
    let (from, to) = match selection {
        Some(((sr, sc), (er, ec))) => if sr <= line && line <= er {
            let s = if sr == line {
                sc
            } else {
                0
            };
            let e = if er == line {
                ec
            } else {
                usize::MAX
            };
            let a = if s >= start {
                s - start
            } else {
                0
            };
            let b = if e >= start {
                e - start
            } else {
                0
            };
            (if a <= len {
                a
            } else {
                len
            }, if b <= len {
                b
            } else {
                len
            })
        } else {
            (0, 0)
        },
        None => (0, 0),
    };
    assert((from as int, to as int) == selected_range(selection, line as int, start as int, len as int));
    let mut out: Vec<Span> = Vec::new();
    if from >= to {
        out.push(Span { text: string_of(&chars), style: base });
    } else {
        out.push(Span { text: string_of_range(&chars, 0, from), style: base });
        out.push(
            Span {
                text: string_of_range(&chars, from, to),
                style: Style { reversed: true, ..base },
            },
        );
        out.push(Span { text: string_of_range(&chars, to, len), style: base });
        assert(text@.take(from as int) =~= text@.subrange(0, from as int));
        assert(text@.skip(to as int) =~= text@.subrange(to as int, len as int));
    }
    assert(spans_view(out@) =~= row_spans_spec(text@, start as int, line as int, selection, base));
    out
}

/// The style of a conflict marker line.
pub open spec fn marker_style() -> Style {
    Style { fg: Color::White, bg: Color::Red, bold: false, reversed: false }
}

/// The display rows of line `index`: its wrapped rows, the selection reversed, a conflict
/// marker line white on red.
pub open spec fn line_rows(l: Seq<char>, index: int, w: int, sel: Selection) -> Seq<
    Seq<(Seq<char>, Style)>,
> {
    let rows = wrap_spec(l, w);
    let base = if is_conflict_marker_spec(l) {
        marker_style()
    } else {
        plain_spec()
    };
    Seq::new(
        rows.len(),
        |k: int| row_spans_spec(l.subrange(rows[k].0, rows[k].1), rows[k].0, index, sel, base),
    )
}

/// The display rows of the first `n` lines.
pub open spec fn editor_rows_spec(ls: Seq<Seq<char>>, n: int, w: int, sel: Selection) -> Seq<
    Seq<(Seq<char>, Style)>,
>
    decreases n,
{
    if n <= 0 {
        Seq::empty()
    } else {
        editor_rows_spec(ls, n - 1, w, sel) + line_rows(ls[n - 1], n - 1, w, sel)
    }
}

/// Where the cursor at (`row`, `col`) shows among the display rows: the row of its line's
/// wrapped row that holds the column, and the column within that row. (0, 0) when the row is
/// past the last line.
pub open spec fn cursor_cell(ls: Seq<Seq<char>>, row: int, col: int, w: int) -> (int, int) {
    if 0 <= row < ls.len() {
        let segs = wrap_spec(ls[row], w);
        let r = row_of(segs, col, segs.len() as int);
        (editor_rows_spec(ls, row, w, None).len() + r, col - segs[r].0)
    } else {
        (0, 0)
    }
}

proof fn lemma_rows_len(ls: Seq<Seq<char>>, n: int, w: int, a: Selection, b: Selection)
    ensures
        editor_rows_spec(ls, n, w, a).len() == editor_rows_spec(ls, n, w, b).len(),
    decreases n,
{
    if n > 0 {
        lemma_rows_len(ls, n - 1, w, a, b);
    }
}

/// The display rows of an editor's lines wrapped to `width`, and where its cursor shows.
pub fn editor_rows(lines: &[String], width: usize, cursor: (usize, usize), selection: Selection) -> (r: (
    Vec<Vec<Span>>,
    (usize, usize),
))
    ensures
        lines_view(r.0@) == editor_rows_spec(
            views(lines@),
            lines@.len() as int,
            width as int,
            selection,
        ),
        (r.1.0 as int, r.1.1 as int) == cursor_cell(
            views(lines@),
            cursor.0 as int,
            cursor.1 as int,
            width as int,
        ),
{
    let ghost ls = views(lines@);
    let mut out: Vec<Vec<Span>> = Vec::new();
    let mut at: (usize, usize) = (0, 0);
    let mut i: usize = 0;
    while i < lines.len()
        invariant
            i <= lines@.len(),
            ls == views(lines@),
            lines_view(out@) == editor_rows_spec(ls, i as int, width as int, selection),
            (at.0 as int, at.1 as int) == if cursor.0 < i {
                cursor_cell(ls, cursor.0 as int, cursor.1 as int, width as int)
            } else {
                (0, 0)
            },
        decreases lines@.len() - i,
    {
        let line = lines[i].as_str();
        assert(line@ == ls[i as int]);
        let segments = wrap(line, width);
        let ghost segs = wrap_spec(ls[i as int], width as int);
        proof {
            lemma_wrap_shape(ls[i as int], width as int);
        }
        let base = if is_conflict_marker(line) {
            Style { fg: Color::White, bg: Color::Red, bold: false, reversed: false }
        } else {
            Style::plain()
        };
        let ghost want = line_rows(ls[i as int], i as int, width as int, selection);
        let first = out.len();
        let mut k: usize = 0;
        while k < segments.len()
            invariant
                k <= segments@.len(),
                segments@.len() == segs.len(),
                want.len() == segs.len(),
                want == line_rows(ls[i as int], i as int, width as int, selection),
                segs == wrap_spec(ls[i as int], width as int),
                base == (if is_conflict_marker_spec(ls[i as int]) {
                    marker_style()
                } else {
                    plain_spec()
                }),
                forall|j: int|
                    0 <= j < segments@.len() ==> (#[trigger] segments@[j]).start == segs[j].0
                        && segments@[j].text@ == ls[i as int].subrange(segs[j].0, segs[j].1),
                first == out@.len() - k,
                lines_view(out@) == editor_rows_spec(ls, i as int, width as int, selection)
                    + want.take(k as int),
            decreases segments@.len() - k,
        {
            let ghost before = out@;
            let seg = &segments[k];
            let row = row_spans(seg.text.as_str(), seg.start, i, selection, base);
            out.push(row);
            assert(lines_view(out@) =~= lines_view(before).push(want[k as int]));
            assert(want.take(k + 1) =~= want.take(k as int).push(want[k as int]));
            k += 1;
        }
        assert(want.take(k as int) =~= want);
        if i == cursor.0 {
            proof {
                crate::wrap::lemma_row_of(
                    crate::wrap::seg_starts(segments@),
                    segs,
                    cursor.1 as int,
                    segs.len() as int,
                );
                lemma_rows_len(ls, i as int, width as int, selection, None);
            }
            let (r, c) = crate::wrap::locate(&segments, cursor.1);
            let total = out.len();
            assert(r < k);
            at = (first + r, c);
        }
        i += 1;
    }
    (out, at)
}

/// The first display row to show so that the cursor's row is in view: the old top, moved up
/// to the cursor or down just far enough.
pub open spec fn editor_top_spec(top: int, cursor_row: int, height: int) -> int {
    let t = if cursor_row < top {
        cursor_row
    } else {
        top
    };
    if height > 0 && cursor_row >= t + height {
        cursor_row + 1 - height
    } else {
        t
    }
}

/// The editor's new first visible row.
pub fn editor_top(top: usize, cursor_row: usize, height: usize) -> (r: usize)
    ensures
        r == editor_top_spec(top as int, cursor_row as int, height as int),
        height > 0 ==> r <= cursor_row < r + height,
{
    let t = if cursor_row < top {
        cursor_row
    } else {
        top
    };
    if height > 0 && cursor_row - t >= height {
        cursor_row - (height - 1)
    } else {
        t
    }
}

/// What the left pane shows, as far as the key bar is concerned.
pub open spec fn left_pane_spec(b: Body) -> LeftPane {
    match b {
        Body::Rebase(r) => if r.raw {
            LeftPane::RawTodo
        } else {
            LeftPane::Table
        },
        _ => if has_right_spec(b) {
            LeftPane::MessageWithStatus
        } else {
            LeftPane::TextOnly
        },
    }
}

/// Whether an inline subject edit is open.
pub open spec fn inline_open(b: Body) -> bool {
    b matches Body::Rebase(r) && r.inline
}

/// The key bar's entries for the app's current state.
pub fn app_key_bar(app: &App) -> (r: Vec<(&'static str, &'static str)>)
    ensures
        entry_views(r@) == key_bar_spec(
            app.show_help,
            inline_open(app.body),
            app.focus == Pane::Right,
            left_pane_spec(app.body),
        ),
{
    let inline = match &app.body {
        Body::Rebase(r) => r.inline,
        _ => false,
    };
    let left = match &app.body {
        Body::Rebase(r) => if r.raw {
            LeftPane::RawTodo
        } else {
            LeftPane::Table
        },
        _ => if app.has_right() {
            LeftPane::MessageWithStatus
        } else {
            LeftPane::TextOnly
        },
    };
    let right_focused = match app.focus {
        Pane::Right => true,
        Pane::Left => false,
    };
    key_bar_entries(app.show_help, inline, right_focused, left)
}

/// The left pane's title: the raw todo, the rebase with its range, or the file's name.
pub open spec fn left_title_spec(app: App) -> Seq<char> {
    match app.body {
        Body::Rebase(r) => if r.raw {
            " Rebase todo (raw) "@
        } else {
            match range_spec(r.todo@.lines, app.comment_char, 0) {
                Some(range) => " Rebase "@ + range + " "@,
                None => " Rebase "@,
            }
        },
        _ => " "@ + app.file_name@ + " "@,
    }
}

/// The left pane's title.
pub fn left_title(app: &App) -> (r: String)
    ensures
        r@ == left_title_spec(*app),
{
    let mut t: Vec<char> = Vec::new();
    match &app.body {
        Body::Rebase(r) => if r.raw {
            extend_str(&mut t, " Rebase todo (raw) ");
        } else {
            match r.todo.range(app.comment_char) {
                Some(range) => {
                    extend_str(&mut t, " Rebase ");
                    extend_chars(&mut t, &chars_of(range.as_str()));
                    extend_str(&mut t, " ");
                },
                None => extend_str(&mut t, " Rebase "),
            }
        },
        _ => {
            extend_str(&mut t, " ");
            extend_chars(&mut t, &chars_of(app.file_name.as_str()));
            extend_str(&mut t, " ");
        },
    }
    string_of(&t)
}

/// The right pane's title and rows at `width`: the status under the branch's name (or
/// "Status"), or the rebase details; nothing when there is no right pane.
pub open spec fn right_pane_spec(b: Body, w: int) -> Option<(Seq<char>, Seq<Seq<(Seq<char>, Style)>>)> {
    match b {
        Body::Message(m) => Some(
            (
                " "@ + match m.status@.branch {
                    Some(name) => name,
                    None => "Status"@,
                } + " "@,
                render_spec(m.status@.sections, w),
            ),
        ),
        Body::Rebase(r) => Some(
            (" Details "@, details_spec(r.todo@, r.selected as int, r.details@.cache, w)),
        ),
        Body::Plain => None,
    }
}

/// The right pane's title and rows.
pub fn right_pane(app: &App, width: usize) -> (r: Option<(String, Vec<Vec<Span>>)>)
    ensures
        match r {
            Some((title, rows)) => right_pane_spec(app.body, width as int) == Some(
                (title@, lines_view(rows@)),
            ),
            None => right_pane_spec(app.body, width as int) is None,
        },
{
    match &app.body {
        Body::Message(m) => {
            let mut t: Vec<char> = Vec::new();
            extend_str(&mut t, " ");
            match &m.status.branch {
                Some(name) => extend_chars(&mut t, &chars_of(name.as_str())),
                None => extend_str(&mut t, "Status"),
            }
            extend_str(&mut t, " ");
            Some((string_of(&t), render_lines(&m.status, width)))
        },
        Body::Rebase(r) => Some((string_of(&chars_of(" Details ")), details_lines(r, width))),
        Body::Plain => None,
    }
}

/// A scroll position kept so that the last page still fills the view: at most `len - height`.
pub open spec fn clamp_scroll_spec(scroll: int, len: int, height: int) -> int {
    at_most(scroll, minus_or_zero(len, height))
}

/// The scroll position clamped to the last page.
pub fn clamp_scroll(scroll: usize, len: usize, height: usize) -> (r: usize)
    ensures
        r == clamp_scroll_spec(scroll as int, len as int, height as int),
{
    let last = if len >= height {
        len - height
    } else {
        0
    };
    if scroll <= last {
        scroll
    } else {
        last
    }
}

/// The position shown under a pane that scrolls: ` first-last/total `, rows counted from
/// one; nothing when all rows fit.
pub open spec fn scroll_label_spec(top: int, height: int, len: int) -> Option<Seq<char>> {
    if len > height {
        Some(
            " "@ + decimal_spec((top + 1) as nat) + "-"@ + decimal_spec(at_most(top + height, len) as nat)
                + "/"@ + decimal_spec(len as nat) + " "@,
        )
    } else {
        None
    }
}

/// The scroll position label of a pane whose `len` rows show from `top` in `height` rows.
pub fn scroll_label(top: usize, height: usize, len: usize) -> (r: Option<String>)
    ensures
        match r {
            Some(s) => scroll_label_spec(top as int, height as int, len as int) == Some(s@),
            None => scroll_label_spec(top as int, height as int, len as int) is None,
        },
{
    if len > height {
        let bottom = if top <= len - height {
            top + height
        } else {
            len
        };
        let mut t: Vec<char> = Vec::new();
        extend_str(&mut t, " ");
        extend_chars(&mut t, &chars_of(decimal_string(top as u128 + 1).as_str()));
        extend_str(&mut t, "-");
        extend_chars(&mut t, &chars_of(decimal_string(bottom as u128).as_str()));
        extend_str(&mut t, "/");
        extend_chars(&mut t, &chars_of(decimal_string(len as u128).as_str()));
        extend_str(&mut t, " ");
        Some(string_of(&t))
    } else {
        None
    }
}

} // verus!
