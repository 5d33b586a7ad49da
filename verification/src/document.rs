//! The line model of an edited file: which lines are message text, comments or conflict
//! markers, which of them the editor may change, and how the file is written back; plus the
//! simple rebase-todo line format with long and short action names.
use vstd::prelude::*;

use crate::text::{
    chars_of, eq_str, find, find_char, has_prefix, has_prefix_str, is_blank, lemma_lines_of,
    lemma_split_pieces_free, lines_of, lines_of_chars, push_char, slice_of, split, starts_with,
    string_of, trim, views,
};

verus! {

/// Controls which line variants are editable in the textarea.
///
/// - Plain: all lines (Content + Comment + ConflictMarker) are editable.
/// - Merge: Content and ConflictMarker are editable; Comment is protected.
/// - Squash: only Content is editable; Comment and ConflictMarker are protected.
#[derive(Debug, Clone, Copy, PartialEq, Eq, Structural)]
pub enum EditorMode {
    Plain,
    Merge,
    Squash,
}

/// Actions available for a rebase todo entry.
#[derive(Debug, Clone, Copy, PartialEq, Eq, Structural)]
pub enum RebaseAction {
    Pick,
    Squash,
    Fixup,
    Drop,
    Exec,
}

/// The long name of an action.
pub open spec fn action_name(a: RebaseAction) -> Seq<char> {
    match a {
        RebaseAction::Pick => "pick"@,
        RebaseAction::Squash => "squash"@,
        RebaseAction::Fixup => "fixup"@,
        RebaseAction::Drop => "drop"@,
        RebaseAction::Exec => "exec"@,
    }
}

/// The rotation Pick -> Squash -> Fixup -> Drop -> Pick; Exec stays.
pub open spec fn cycle_spec(a: RebaseAction) -> RebaseAction {
    match a {
        RebaseAction::Pick => RebaseAction::Squash,
        RebaseAction::Squash => RebaseAction::Fixup,
        RebaseAction::Fixup => RebaseAction::Drop,
        RebaseAction::Drop => RebaseAction::Pick,
        RebaseAction::Exec => RebaseAction::Exec,
    }
}

impl RebaseAction {
    /// Cycle to the next action in the rotation: Pick->Squash->Fixup->Drop->Pick.
    /// Exec does not cycle (returns itself).
    pub fn cycle(&self) -> (r: Self)
        ensures
            r == cycle_spec(*self),
    {
        match self {
            RebaseAction::Pick => RebaseAction::Squash,
            RebaseAction::Squash => RebaseAction::Fixup,
            RebaseAction::Fixup => RebaseAction::Drop,
            RebaseAction::Drop => RebaseAction::Pick,
            RebaseAction::Exec => RebaseAction::Exec,
        }
    }

    /// Return the canonical long-form string representation.
    pub fn as_str(&self) -> (r: &str)
        ensures
            r@ == action_name(*self),
    {
        match self {
            RebaseAction::Pick => "pick",
            RebaseAction::Squash => "squash",
            RebaseAction::Fixup => "fixup",
            RebaseAction::Drop => "drop",
            RebaseAction::Exec => "exec",
        }
    }
}

/// Typed representation of a single line in a git-rebase-todo file.
#[derive(Debug, Clone, PartialEq)]
pub enum RebaseLine {
    Action { action: RebaseAction, hash: String, subject: String },
    Comment(String),
}

/// A rebase todo line with its strings taken as char sequences.
pub enum RebaseLineV {
    Action { action: RebaseAction, hash: Seq<char>, subject: Seq<char> },
    Comment(Seq<char>),
}

impl View for RebaseLine {
    type V = RebaseLineV;

    open spec fn view(&self) -> RebaseLineV {
        match self {
            RebaseLine::Action { action, hash, subject } => RebaseLineV::Action {
                action: *action,
                hash: hash@,
                subject: subject@,
            },
            RebaseLine::Comment(s) => RebaseLineV::Comment(s@),
        }
    }
}

/// The views of a sequence of rebase lines.
pub open spec fn rebase_views(v: Seq<RebaseLine>) -> Seq<RebaseLineV> {
    Seq::new(v.len(), |i: int| v[i]@)
}

/// The action that a keyword names, in long or short form.
pub open spec fn parse_action_spec(s: Seq<char>) -> Option<RebaseAction> {
    if s == "pick"@ || s == "p"@ {
        Some(RebaseAction::Pick)
    } else if s == "squash"@ || s == "s"@ {
        Some(RebaseAction::Squash)
    } else if s == "fixup"@ || s == "f"@ {
        Some(RebaseAction::Fixup)
    } else if s == "drop"@ || s == "d"@ {
        Some(RebaseAction::Drop)
    } else if s == "exec"@ || s == "x"@ {
        Some(RebaseAction::Exec)
    } else {
        None
    }
}

/// Parse a rebase action keyword (long or short form) into a RebaseAction.
pub fn parse_action(s: &str) -> (r: Option<RebaseAction>)
    ensures
        r == parse_action_spec(s@),
{
    let v = chars_of(s);
    parse_action_chars(&v)
}

fn parse_action_chars(v: &[char]) -> (r: Option<RebaseAction>)
    ensures
        r == parse_action_spec(v@),
{
    if eq_str(v, "pick") || eq_str(v, "p") {
        Some(RebaseAction::Pick)
    } else if eq_str(v, "squash") || eq_str(v, "s") {
        Some(RebaseAction::Squash)
    } else if eq_str(v, "fixup") || eq_str(v, "f") {
        Some(RebaseAction::Fixup)
    } else if eq_str(v, "drop") || eq_str(v, "d") {
        Some(RebaseAction::Drop)
    } else if eq_str(v, "exec") || eq_str(v, "x") {
        Some(RebaseAction::Exec)
    } else {
        None
    }
}

/// How a rebase todo line is read. The first word (up to the first space) names the action.
/// An exec line keeps everything after the first space as its subject and has no hash. Any
/// other action needs a second word, the hash; the subject is everything after the second
/// space. A line that starts with the comment char, names no action, or lacks a hash is a
/// comment, kept verbatim.
pub open spec fn classify_rebase_spec(s: Seq<char>, cc: char) -> RebaseLineV {
    if s.len() > 0 && s[0] == cc {
        RebaseLineV::Comment(s)
    } else {
        let word = match find(s, ' ') {
            Some(i) => s.take(i),
            None => s,
        };
        match parse_action_spec(word) {
            None => RebaseLineV::Comment(s),
            Some(action) => match find(s, ' ') {
                None => if action == RebaseAction::Exec {
                    RebaseLineV::Action { action, hash: Seq::empty(), subject: Seq::empty() }
                } else {
                    RebaseLineV::Comment(s)
                },
                Some(i) => {
                    let rest = s.skip(i + 1);
                    if action == RebaseAction::Exec {
                        RebaseLineV::Action { action, hash: Seq::empty(), subject: rest }
                    } else {
                        match find(rest, ' ') {
                            None => RebaseLineV::Action { action, hash: rest, subject: Seq::empty() },
                            Some(j) => RebaseLineV::Action {
                                action,
                                hash: rest.take(j),
                                subject: rest.skip(j + 1),
                            },
                        }
                    }
                },
            },
        }
    }
}

/// Classify a single raw line from a git-rebase-todo file.
///
/// Lines starting with comment_char are Comments. Lines that start with a
/// recognized action keyword are parsed into Action variants. Exec lines use
/// the remainder of the line as subject with an empty hash. Malformed lines
/// fall back to Comment.
pub fn classify_rebase_line(line: &str, comment_char: char) -> (r: RebaseLine)
    ensures
        r@ == classify_rebase_spec(line@, comment_char),
{
    let v = chars_of(line);
    classify_rebase_chars(&v, comment_char)
}

fn classify_rebase_chars(v: &[char], cc: char) -> (r: RebaseLine)
    ensures
        r@ == classify_rebase_spec(v@, cc),
{
    if v.len() > 0 && v[0] == cc {
        return RebaseLine::Comment(string_of(v));
    }
    let first_space = find_char(v, ' ');
    let word = match first_space {
        Some(i) => slice_of(v, 0, i),
        None => slice_of(v, 0, v.len()),
    };
    proof {
        if first_space is None {
            assert(v@.subrange(0, v@.len() as int) =~= v@);
        } else {
            assert(v@.subrange(0, first_space->0 as int) =~= v@.take(first_space->0 as int));
        }
    }
    match parse_action_chars(&word) {
        None => RebaseLine::Comment(string_of(v)),
        Some(action) => match first_space {
            None => {
                if action == RebaseAction::Exec {
                    RebaseLine::Action { action, hash: String::new(), subject: String::new() }
                } else {
                    RebaseLine::Comment(string_of(v))
                }
            },
            Some(i) => {
                let rest = slice_of(v, i + 1, v.len());
                assert(rest@ =~= v@.skip(i + 1));
                if action == RebaseAction::Exec {
                    RebaseLine::Action { action, hash: String::new(), subject: string_of(&rest) }
                } else {
                    match find_char(&rest, ' ') {
                        None => RebaseLine::Action {
                            action,
                            hash: string_of(&rest),
                            subject: String::new(),
                        },
                        Some(j) => {
                            let hash = slice_of(&rest, 0, j);
                            let subject = slice_of(&rest, j + 1, rest.len());
                            assert(hash@ =~= rest@.take(j as int));
                            assert(subject@ =~= rest@.skip(j + 1));
                            RebaseLine::Action {
                                action,
                                hash: string_of(&hash),
                                subject: string_of(&subject),
                            }
                        },
                    }
                }
            },
        },
    }
}

/// The lines of a rebase todo, each classified; an empty file has none.
pub open spec fn parse_rebase_spec(raw: Seq<char>, cc: char) -> Seq<RebaseLineV> {
    if raw.len() == 0 {
        Seq::empty()
    } else {
        lines_of(raw).map_values(|l: Seq<char>| classify_rebase_spec(l, cc))
    }
}

/// Parse a full git-rebase-todo string into a Vec of RebaseLine.
///
/// Trailing empty token from a trailing newline is skipped, same as Document::parse.
pub fn parse_rebase_todo(raw: &str, comment_char: char) -> (r: Vec<RebaseLine>)
    ensures
        rebase_views(r@) == parse_rebase_spec(raw@, comment_char),
{
    let v = chars_of(raw);
    let mut out: Vec<RebaseLine> = Vec::new();
    if v.len() == 0 {
        assert(rebase_views(out@) =~= parse_rebase_spec(raw@, comment_char));
        return out;
    }
    let lines = lines_of_chars(&v);
    let mut i: usize = 0;
    while i < lines.len()
        invariant
            i <= lines@.len(),
            lines@.len() == lines_of(v@).len(),
            forall|k: int| 0 <= k < lines@.len() ==> (#[trigger] lines@[k])@ == lines_of(v@)[k],
            out@.len() == i,
            forall|k: int|
                0 <= k < i ==> (#[trigger] out@[k])@ == classify_rebase_spec(lines_of(v@)[k], comment_char),
        decreases lines@.len() - i,
    {
        let l = classify_rebase_chars(&lines[i], comment_char);
        out.push(l);
        i += 1;
    }
    assert(rebase_views(out@) =~= parse_rebase_spec(raw@, comment_char));
    out
}

/// How one rebase line is written: exec lines as `exec <subject>`, other actions as
/// `<long name> <hash> <subject>`, comments verbatim.
pub open spec fn render_rebase_line(l: RebaseLineV) -> Seq<char> {
    match l {
        RebaseLineV::Action { action, hash, subject } => if action == RebaseAction::Exec {
            "exec "@ + subject
        } else {
            action_name(action) + seq![' '] + hash + seq![' '] + subject
        },
        RebaseLineV::Comment(t) => t,
    }
}

/// The todo text: every line rendered and followed by a newline.
pub open spec fn serialize_rebase_spec(lines: Seq<RebaseLineV>) -> Seq<char>
    decreases lines.len(),
{
    if lines.len() == 0 {
        Seq::empty()
    } else {
        serialize_rebase_spec(lines.drop_last()) + render_rebase_line(lines.last()) + seq!['\n']
    }
}

/// Serialize a Vec of RebaseLine back to a git-rebase-todo string.
///
/// Action lines are always emitted with long-form action names.
/// Each line is followed by '\n'.
pub fn serialize_rebase_todo(lines: &[RebaseLine]) -> (r: String)
    ensures
        r@ == serialize_rebase_spec(rebase_views(lines@)),
{
    let mut output = String::new();
    let mut i: usize = 0;
    while i < lines.len()
        invariant
            i <= lines@.len(),
            output@ == serialize_rebase_spec(rebase_views(lines@).take(i as int)),
        decreases lines@.len() - i,
    {
        let ghost before = output@;
        match &lines[i] {
            RebaseLine::Action { action, hash, subject } => {
                if *action == RebaseAction::Exec {
                    output.append("exec ");
                    output.append(subject.as_str());
                } else {
                    output.append(action.as_str());
                    push_char(&mut output, ' ');
                    output.append(hash.as_str());
                    push_char(&mut output, ' ');
                    output.append(subject.as_str());
                }
            },
            RebaseLine::Comment(text) => {
                output.append(text.as_str());
            },
        }
        push_char(&mut output, '\n');
        proof {
            let t = rebase_views(lines@).take(i + 1);
            assert(t.drop_last() =~= rebase_views(lines@).take(i as int));
            assert(t.last() == lines@[i as int]@);
            assert(output@ =~= before + render_rebase_line(lines@[i as int]@) + seq!['\n']);
        }
        i += 1;
    }
    assert(rebase_views(lines@).take(lines@.len() as int) =~= rebase_views(lines@));
    output
}

/// The squash marker for comment char `cc`.
pub open spec fn squash_marker(cc: char) -> Seq<char> {
    seq![cc] + " This is a combination of"@
}

/// The first index at or after `from` whose line starts with the marker.
pub open spec fn first_marked(lines: Seq<Seq<char>>, marker: Seq<char>, from: int) -> Option<int>
    decreases lines.len() - from,
{
    if from >= lines.len() || from < 0 {
        None
    } else if starts_with(lines[from], marker) {
        Some(from)
    } else {
        first_marked(lines, marker, from + 1)
    }
}

/// The first index at or after `from` whose line does not start with `cc`; the line count
/// when every such line does.
pub open spec fn first_uncommented(lines: Seq<Seq<char>>, cc: char, from: int) -> int
    decreases lines.len() - from,
{
    if from >= lines.len() || from < 0 {
        lines.len() as int
    } else if !(lines[from].len() > 0 && lines[from][0] == cc) {
        from
    } else {
        first_uncommented(lines, cc, from + 1)
    }
}

/// Where the squash header ends: the first line after the first marker line that does not
/// start with the comment char, or the line count; no header without a marker line.
pub open spec fn squash_header_spec(raw: Seq<char>, cc: char) -> Option<int> {
    let lines = lines_of(raw);
    match first_marked(lines, squash_marker(cc), 0) {
        None => None,
        Some(h) => Some(first_uncommented(lines, cc, h + 1)),
    }
}

/// Detect the boundary between the git-generated squash header and the editable message.
///
/// A SQUASH_MSG file generated by git starts with `"# This is a combination of N commits."`.
/// The header is the contiguous block of comment lines at the top of the file starting with
/// that marker. This function returns `Some(header_end_index)` where `header_end_index` is
/// the line index (0-based) of the first non-comment line after the squash header block.
///
/// If the entire file consists of the header (no non-comment lines follow), returns
/// `Some(total_lines)`.
///
/// If no squash marker is found, returns `None`.
///
/// The function uses `comment_char` rather than a hardcoded `'#'` because git respects
/// `core.commentChar` when generating the squash header.
pub fn detect_squash_header(raw: &str, comment_char: char) -> (r: Option<usize>)
    ensures
        match r {
            Some(k) => squash_header_spec(raw@, comment_char) == Some(k as int),
            None => squash_header_spec(raw@, comment_char) is None,
        },
{
    let v = chars_of(raw);
    let lines = lines_of_chars(&v);
    let mut marker: Vec<char> = Vec::new();
    marker.push(comment_char);
    let tail = chars_of(" This is a combination of");
    let mut t: usize = 0;
    while t < tail.len()
        invariant
            t <= tail@.len(),
            marker@ == seq![comment_char] + tail@.take(t as int),
        decreases tail@.len() - t,
    {
        marker.push(tail[t]);
        t += 1;
        assert(marker@ =~= seq![comment_char] + tail@.take(t as int));
    }
    assert(tail@.take(tail@.len() as int) =~= tail@);
    let ghost ls = lines_of(v@);
    let ghost mk = squash_marker(comment_char);
    let mut i: usize = 0;
    while i < lines.len()
        invariant
            i <= lines@.len(),
            lines@.len() == ls.len(),
            forall|k: int| 0 <= k < lines@.len() ==> (#[trigger] lines@[k])@ == ls[k],
            marker@ == mk,
            ls == lines_of(raw@),
            mk == squash_marker(comment_char),
            first_marked(ls, mk, 0) == first_marked(ls, mk, i as int),
        decreases lines@.len() - i,
    {
        if has_prefix(&lines[i], &marker) {
            assert(first_marked(ls, mk, i as int) == Some(i as int));
            let mut j: usize = i + 1;
            while j < lines.len()
                invariant
                    i < j <= lines@.len(),
                    lines@.len() == ls.len(),
                    forall|k: int| 0 <= k < lines@.len() ==> (#[trigger] lines@[k])@ == ls[k],
                    ls == lines_of(raw@),
                    mk == squash_marker(comment_char),
                    first_marked(ls, mk, 0) == Some(i as int),
                    first_uncommented(ls, comment_char, i + 1) == first_uncommented(
                        ls,
                        comment_char,
                        j as int,
                    ),
                decreases lines@.len() - j,
            {
                if !(lines[j].len() > 0 && lines[j][0] == comment_char) {
                    assert(first_uncommented(ls, comment_char, j as int) == j);
                    return Some(j);
                }
                j += 1;
            }
            assert(first_uncommented(ls, comment_char, j as int) == ls.len());
            return Some(lines.len());
        }
        i += 1;
    }
    None
}

/// Typed representation of a single line in the file being edited.
#[derive(Debug, Clone, PartialEq)]
pub enum ContentLine {
    Content(String),
    Comment(String),
    ConflictMarker(String),
}

/// A content line with its text taken as a char sequence.
pub enum ContentLineV {
    Content(Seq<char>),
    Comment(Seq<char>),
    ConflictMarker(Seq<char>),
}

impl View for ContentLine {
    type V = ContentLineV;

    open spec fn view(&self) -> ContentLineV {
        match self {
            ContentLine::Content(s) => ContentLineV::Content(s@),
            ContentLine::Comment(s) => ContentLineV::Comment(s@),
            ContentLine::ConflictMarker(s) => ContentLineV::ConflictMarker(s@),
        }
    }
}

/// The text a line holds, whatever its variant.
pub open spec fn line_text(l: ContentLineV) -> Seq<char> {
    match l {
        ContentLineV::Content(s) => s,
        ContentLineV::Comment(s) => s,
        ContentLineV::ConflictMarker(s) => s,
    }
}

/// The views of a sequence of content lines.
pub open spec fn content_views(v: Seq<ContentLine>) -> Seq<ContentLineV> {
    Seq::new(v.len(), |i: int| v[i]@)
}

/// Whether a line starts like a conflict marker (six `<`, `=` or `>`).
pub open spec fn conflict_start(s: Seq<char>) -> bool {
    starts_with(s, "<<<<<<"@) || starts_with(s, "======"@) || starts_with(s, ">>>>>>"@)
}

/// A line starting with the comment char is a comment; else one starting like a conflict
/// marker is a marker; else it is content.
pub open spec fn classify_line_spec(s: Seq<char>, cc: char) -> ContentLineV {
    if s.len() > 0 && s[0] == cc {
        ContentLineV::Comment(s)
    } else if conflict_start(s) {
        ContentLineV::ConflictMarker(s)
    } else {
        ContentLineV::Content(s)
    }
}

/// Classify a single raw line into its ContentLine variant.
pub fn classify_line(line: &str, comment_char: char) -> (r: ContentLine)
    ensures
        r@ == classify_line_spec(line@, comment_char),
{
    let v = chars_of(line);
    classify_line_chars(&v, comment_char)
}

fn classify_line_chars(v: &[char], cc: char) -> (r: ContentLine)
    ensures
        r@ == classify_line_spec(v@, cc),
{
    if v.len() > 0 && v[0] == cc {
        ContentLine::Comment(string_of(v))
    } else if has_prefix_str(v, "<<<<<<") || has_prefix_str(v, "======") || has_prefix_str(
        v,
        ">>>>>>",
    ) {
        ContentLine::ConflictMarker(string_of(v))
    } else {
        ContentLine::Content(string_of(v))
    }
}

/// Whether `mode` lets the editor change a line of this variant.
pub open spec fn editable_in(l: ContentLineV, mode: EditorMode) -> bool {
    match l {
        ContentLineV::Content(_) => true,
        ContentLineV::Comment(_) => mode == EditorMode::Plain,
        ContentLineV::ConflictMarker(_) => mode == EditorMode::Plain || mode == EditorMode::Merge,
    }
}

/// The indices, in order, of the lines that `mode` makes editable.
pub open spec fn editable_indices(lines: Seq<ContentLineV>, mode: EditorMode) -> Seq<int>
    decreases lines.len(),
{
    if lines.len() == 0 {
        Seq::empty()
    } else {
        let prev = editable_indices(lines.drop_last(), mode);
        if editable_in(lines.last(), mode) {
            prev.push(lines.len() - 1)
        } else {
            prev
        }
    }
}

/// The file written back: each line that `mode` makes editable replaced, in order, by the
/// next editor line, every other line kept as it was, each followed by a newline.
pub open spec fn serialize_doc_spec(lines: Seq<ContentLineV>, mode: EditorMode, edited: Seq<Seq<char>>) -> Seq<
    char,
>
    decreases lines.len(),
{
    if lines.len() == 0 {
        Seq::empty()
    } else {
        let prev = lines.drop_last();
        let text = if editable_in(lines.last(), mode) {
            edited[editable_indices(prev, mode).len() as int]
        } else {
            line_text(lines.last())
        };
        serialize_doc_spec(prev, mode, edited) + text + seq!['\n']
    }
}

/// The lines of a file, classified.
pub open spec fn classify_all(raw: Seq<char>, cc: char) -> Seq<ContentLineV> {
    lines_of(raw).map_values(|l: Seq<char>| classify_line_spec(l, cc))
}

/// The parsed representation of a file.
///
/// `lines` holds every line in original order, typed by role.
/// `editable_index` maps TextArea row index -> index into `lines`.
/// Only the variants that the mode makes editable appear in the editable index.
pub struct Document {
    lines: Vec<ContentLine>,
    editable_index: Vec<usize>,
    comment_char: char,
    mode: EditorMode,
}

/// What a document holds: its lines, comment char and mode.
pub struct DocumentV {
    pub lines: Seq<ContentLineV>,
    pub comment_char: char,
    pub mode: EditorMode,
}

impl View for Document {
    type V = DocumentV;

    closed spec fn view(&self) -> DocumentV {
        DocumentV {
            lines: content_views(self.lines@),
            comment_char: self.comment_char,
            mode: self.mode,
        }
    }
}

/// Indices stored as `usize` that equal the given integers.
pub open spec fn same_indices(a: Seq<usize>, b: Seq<int>) -> bool {
    a.len() == b.len() && forall|k: int| 0 <= k < a.len() ==> a[k] as int == b[k]
}

pub proof fn lemma_editable_indices_bounds(lines: Seq<ContentLineV>, mode: EditorMode)
    ensures
        forall|k: int|
            0 <= k < editable_indices(lines, mode).len() ==> 0 <= #[trigger] editable_indices(
                lines,
                mode,
            )[k] < lines.len() && editable_in(lines[editable_indices(lines, mode)[k]], mode),
        editable_indices(lines, mode).len() <= lines.len(),
    decreases lines.len(),
{
    if lines.len() > 0 {
        lemma_editable_indices_bounds(lines.drop_last(), mode);
    }
}

/// Replacing a line by Content keeps the editable indices when the line was editable.
pub proof fn lemma_editable_update(lines: Seq<ContentLineV>, mode: EditorMode, i: int, t: Seq<char>)
    requires
        0 <= i < lines.len(),
        editable_in(lines[i], mode),
    ensures
        editable_indices(lines.update(i, ContentLineV::Content(t)), mode) == editable_indices(
            lines,
            mode,
        ),
    decreases lines.len(),
{
    let u = lines.update(i, ContentLineV::Content(t));
    if i == lines.len() - 1 {
        assert(u.drop_last() =~= lines.drop_last());
    } else {
        assert(u.drop_last() =~= lines.drop_last().update(i, ContentLineV::Content(t)));
        lemma_editable_update(lines.drop_last(), mode, i, t);
    }
}

impl Document {
    /// The editable index lists exactly the lines that the mode makes editable.
    #[verifier::type_invariant]
    spec fn wf(&self) -> bool {
        same_indices(self.editable_index@, editable_indices(content_views(self.lines@), self.mode))
    }

    /// The indices of the editable lines.
    pub open spec fn editable_rows(&self) -> Seq<int> {
        editable_indices(self@.lines, self@.mode)
    }

    /// Parse a raw file string into a Document.
    ///
    /// Lines are split on `'\n'`. A trailing newline is tracked separately so
    /// that `serialize()` can reconstruct the original byte-for-byte. The
    /// phantom empty string that `split('\n')` produces after a trailing `'\n'`
    /// is discarded from the `lines` Vec; `serialize()` always appends `'\n'`
    /// after every stored line, so a file that originally ended with `'\n'`
    /// will round-trip correctly.
    ///
    /// An empty file ("") produces a single empty `ContentLine::Content("")`.
    pub fn parse(raw: &str, comment_char: char, mode: EditorMode) -> (r: Document)
        ensures
            r@.lines == classify_all(raw@, comment_char),
            r@.comment_char == comment_char,
            r@.mode == mode,
    {
        let v = chars_of(raw);
        let parts = lines_of_chars(&v);
        let mut lines: Vec<ContentLine> = Vec::new();
        let mut editable_index: Vec<usize> = Vec::new();
        let mut i: usize = 0;
        while i < parts.len()
            invariant
                i <= parts@.len(),
                parts@.len() == lines_of(v@).len(),
                forall|k: int| 0 <= k < parts@.len() ==> (#[trigger] parts@[k])@ == lines_of(v@)[k],
                content_views(lines@) == classify_all(v@, comment_char).take(i as int),
                same_indices(editable_index@, editable_indices(content_views(lines@), mode)),
            decreases parts@.len() - i,
        {
            let classified = classify_line_chars(&parts[i], comment_char);
            let idx = lines.len();
            let editable = match &classified {
                ContentLine::Content(_) => true,
                ContentLine::Comment(_) => mode == EditorMode::Plain,
                ContentLine::ConflictMarker(_) => mode == EditorMode::Plain || mode
                    == EditorMode::Merge,
            };
            let ghost old_lines = content_views(lines@);
            if editable {
                editable_index.push(idx);
            }
            lines.push(classified);
            proof {
                let nl = content_views(lines@);
                assert(nl.drop_last() =~= old_lines);
                assert(nl =~= classify_all(v@, comment_char).take(i + 1));
            }
            i += 1;
        }
        assert(classify_all(v@, comment_char).take(i as int) =~= classify_all(v@, comment_char));
        Document { lines, editable_index, comment_char, mode }
    }

    /// Return only the editable lines as plain strings, respecting the EditorMode
    /// set at parse time. Drives off `editable_index` which was built mode-awarerly.
    pub fn editable_lines(&self) -> (r: Vec<String>)
        ensures
            r@.len() == self.editable_rows().len(),
            forall|k: int|
                0 <= k < r@.len() ==> (#[trigger] r@[k])@ == line_text(
                    self@.lines[self.editable_rows()[k]],
                ),
    {
        proof {
            use_type_invariant(self);
            lemma_editable_indices_bounds(content_views(self.lines@), self.mode);
        }
        let mut out: Vec<String> = Vec::new();
        let mut k: usize = 0;
        while k < self.editable_index.len()
            invariant
                k <= self.editable_index@.len(),
                self.wf(),
                forall|j: int|
                    0 <= j < editable_indices(content_views(self.lines@), self.mode).len() ==> 0
                        <= #[trigger] editable_indices(content_views(self.lines@), self.mode)[j]
                        < self.lines@.len(),
                out@.len() == k,
                forall|j: int|
                    0 <= j < k ==> (#[trigger] out@[j])@ == line_text(
                        self@.lines[self.editable_rows()[j]],
                    ),
            decreases self.editable_index@.len() - k,
        {
            let i = self.editable_index[k];
            assert(editable_indices(content_views(self.lines@), self.mode)[k as int] == i);
            let s = match &self.lines[i] {
                ContentLine::Content(s) => s.clone(),
                ContentLine::Comment(s) => s.clone(),
                ContentLine::ConflictMarker(s) => s.clone(),
            };
            out.push(s);
            assert(self@.lines[i as int] == self.lines@[i as int]@);
            k += 1;
        }
        out
    }

    /// Return the EditorMode this document was parsed with.
    pub fn mode(&self) -> (r: EditorMode)
        ensures
            r == self@.mode,
    {
        self.mode
    }

    /// Map a TextArea row index to the full `lines` Vec index.
    pub fn full_row_for_editable(&self, editable_row: usize) -> (r: usize)
        requires
            editable_row < self.editable_rows().len(),
        ensures
            r as int == self.editable_rows()[editable_row as int],
            r < self@.lines.len(),
            editable_in(self@.lines[r as int], self@.mode),
    {
        proof {
            use_type_invariant(self);
            lemma_editable_indices_bounds(content_views(self.lines@), self.mode);
        }
        self.editable_index[editable_row]
    }

    /// Number of editable lines.
    pub fn editable_count(&self) -> (r: usize)
        ensures
            r == self.editable_rows().len(),
    {
        proof {
            use_type_invariant(self);
        }
        self.editable_index.len()
    }

    /// All lines in original order.
    pub fn lines(&self) -> (r: &Vec<ContentLine>)
        ensures
            content_views(r@) == self@.lines,
    {
        &self.lines
    }

    /// The comment character used during parsing.
    pub fn comment_char(&self) -> (r: char)
        ensures
            r == self@.comment_char,
    {
        self.comment_char
    }

    /// Serialize back to a raw string, replacing the editable lines, in order, with the
    /// lines of `textarea_lines` and keeping every other line byte for byte, each followed by
    /// a newline.
    pub fn serialize(&self, textarea_lines: &[String]) -> (r: String)
        requires
            self.editable_rows().len() <= textarea_lines@.len(),
        ensures
            r@ == serialize_doc_spec(self@.lines, self@.mode, views(textarea_lines@)),
    {
        let mut output = String::new();
        let mut row: usize = 0;
        let mut i: usize = 0;
        let ghost ls = self@.lines;
        let mode = self.mode;
        while i < self.lines.len()
            invariant
                i <= self.lines@.len(),
                ls == content_views(self.lines@),
                mode == self@.mode,
                editable_indices(ls, mode).len() <= textarea_lines@.len(),
                row == editable_indices(ls.take(i as int), mode).len(),
                output@ == serialize_doc_spec(ls.take(i as int), mode, views(textarea_lines@)),
            decreases self.lines@.len() - i,
        {
            proof {
                lemma_editable_prefix(ls, mode, i as int + 1);
                assert(ls.take(i + 1).drop_last() =~= ls.take(i as int));
                assert(ls.take(i + 1).last() == self.lines@[i as int]@);
            }
            let editable = match &self.lines[i] {
                ContentLine::Content(_) => true,
                ContentLine::Comment(_) => mode == EditorMode::Plain,
                ContentLine::ConflictMarker(_) => mode == EditorMode::Plain || mode
                    == EditorMode::Merge,
            };
            if editable {
                output.append(textarea_lines[row].as_str());
                row += 1;
            } else {
                match &self.lines[i] {
                    ContentLine::Content(s) => output.append(s.as_str()),
                    ContentLine::Comment(s) => output.append(s.as_str()),
                    ContentLine::ConflictMarker(s) => output.append(s.as_str()),
                }
            }
            push_char(&mut output, '\n');
            i += 1;
        }
        assert(ls.take(i as int) =~= ls);
        output
    }

    /// Replace the content of an editable line in-place.
    pub fn update_content_line(&mut self, editable_row: usize, new_content: String)
        requires
            editable_row < old(self).editable_rows().len(),
        ensures
            final(self)@.mode == old(self)@.mode,
            final(self)@.comment_char == old(self)@.comment_char,
            final(self)@.lines == old(self)@.lines.update(
                old(self).editable_rows()[editable_row as int],
                ContentLineV::Content(new_content@),
            ),
            final(self).editable_rows() == old(self).editable_rows(),
            old(self).editable_rows()[editable_row as int] < old(self)@.lines.len(),
            final(self)@.lines[old(self).editable_rows()[editable_row as int]]
                == ContentLineV::Content(new_content@),
    {
        proof {
            use_type_invariant(&*self);
            lemma_editable_indices_bounds(content_views(self.lines@), self.mode);
        }
        let full_idx = self.editable_index[editable_row];
        let ghost t = new_content@;
        let ghost old_views = content_views(self.lines@);
        proof {
            lemma_editable_update(old_views, self.mode, full_idx as int, t);
        }
        let mut taken = Document {
            lines: Vec::new(),
            editable_index: Vec::new(),
            comment_char: self.comment_char,
            mode: self.mode,
        };
        std::mem::swap(self, &mut taken);
        let Document { mut lines, editable_index, comment_char, mode } = taken;
        lines.set(full_idx, ContentLine::Content(new_content));
        assert(content_views(lines@) =~= old_views.update(full_idx as int, ContentLineV::Content(t)));
        *self = Document { lines, editable_index, comment_char, mode };
    }

    /// Return the first editable (Content) line as a String.
    /// Returns an empty string if no editable lines exist.
    pub fn first_line(&self) -> (r: String)
        ensures
            r@ == (if self.editable_rows().len() > 0 {
                line_text(self@.lines[self.editable_rows()[0]])
            } else {
                Seq::empty()
            }),
    {
        let mut editable = self.editable_lines();
        if editable.len() > 0 {
            let r = editable.swap_remove(0);
            r
        } else {
            String::new()
        }
    }

    /// Detect whether a blank line exists between the subject line and the body.
    ///
    /// Returns `true` if:
    /// - fewer than 2 editable lines exist (single-line messages don't require a separator), or
    /// - the second editable line is blank (trims to empty string).
    ///
    /// Returns `false` when two or more editable lines exist and the second
    /// line has visible content (i.e. no blank separator).
    pub fn has_blank_line_after_subject(&self) -> (r: bool)
        ensures
            r == (self.editable_rows().len() < 2 || trim(
                line_text(self@.lines[self.editable_rows()[1]]),
            ).len() == 0),
    {
        let editable = self.editable_lines();
        if editable.len() < 2 {
            return true;
        }
        let second = chars_of(editable[1].as_str());
        assert(second@ == editable@[1]@);
        is_blank(&second)
    }
}

/// Each text followed by a newline.
pub open spec fn concat_lines(parts: Seq<Seq<char>>) -> Seq<char>
    decreases parts.len(),
{
    if parts.len() == 0 {
        Seq::empty()
    } else {
        concat_lines(parts.drop_last()) + parts.last() + seq!['\n']
    }
}

/// A file that ends with a newline is its lines, each followed by a newline.
pub proof fn lemma_concat_lines_of(raw: Seq<char>)
    requires
        raw.len() > 0,
        raw.last() == '\n',
    ensures
        concat_lines(lines_of(raw)) == raw,
{
    lemma_lines_of(raw);
    crate::text::lemma_join_split(raw.drop_last(), '\n');
    crate::text::lemma_split_len(raw.drop_last(), '\n');
    lemma_concat_join(split(raw.drop_last(), '\n'));
    assert(raw.drop_last().push('\n') =~= raw);
}

pub proof fn lemma_concat_join(parts: Seq<Seq<char>>)
    requires
        parts.len() >= 1,
    ensures
        concat_lines(parts) == crate::text::join(parts, seq!['\n']).push('\n'),
    decreases parts.len(),
{
    if parts.len() == 1 {
        assert(concat_lines(parts.drop_last()) =~= Seq::<char>::empty());
        assert(Seq::<char>::empty() + parts[0] + seq!['\n'] =~= parts[0].push('\n'));
    } else {
        lemma_concat_join(parts.drop_last());
        let j = crate::text::join(parts.drop_last(), seq!['\n']);
        assert(j.push('\n') + parts.last() + seq!['\n'] =~= (j + seq!['\n'] + parts.last()).push(
            '\n',
        ));
    }
}

/// The editable lines of a prefix of the lines are the first ones of all the editable lines.
pub proof fn lemma_editable_prefix(ls: Seq<ContentLineV>, mode: EditorMode, n: int)
    requires
        0 <= n <= ls.len(),
    ensures
        editable_indices(ls.take(n), mode).len() <= editable_indices(ls, mode).len(),
        forall|j: int|
            0 <= j < editable_indices(ls.take(n), mode).len() ==> #[trigger] editable_indices(
                ls.take(n),
                mode,
            )[j] == editable_indices(ls, mode)[j],
    decreases ls.len() - n,
{
    if n == ls.len() {
        assert(ls.take(n) =~= ls);
    } else {
        lemma_editable_prefix(ls, mode, n + 1);
        assert(ls.take(n + 1).drop_last() =~= ls.take(n));
        let a = editable_indices(ls.take(n), mode);
        let b = editable_indices(ls.take(n + 1), mode);
        assert forall|j: int| 0 <= j < a.len() implies #[trigger] a[j] == editable_indices(ls, mode)[j] by {
            assert(a[j] == b[j]);
        }
    }
}

/// Writing the lines back with editor lines that hold, for each editable line, its own text,
/// gives every line's text followed by a newline.
pub proof fn lemma_serialize_own_texts(ls: Seq<ContentLineV>, mode: EditorMode, edited: Seq<Seq<char>>)
    requires
        forall|k: int|
            0 <= k < ls.len() && editable_in(#[trigger] ls[k], mode) ==> edited[editable_indices(
                ls.take(k),
                mode,
            ).len() as int] == line_text(ls[k]),
    ensures
        serialize_doc_spec(ls, mode, edited) == concat_lines(
            ls.map_values(|l: ContentLineV| line_text(l)),
        ),
    decreases ls.len(),
{
    if ls.len() > 0 {
        let prev = ls.drop_last();
        assert forall|k: int|
            0 <= k < prev.len() && editable_in(#[trigger] prev[k], mode) implies edited[editable_indices(
                prev.take(k),
                mode,
            ).len() as int] == line_text(prev[k]) by {
            assert(prev.take(k) =~= ls.take(k));
            assert(prev[k] == ls[k]);
        }
        lemma_serialize_own_texts(prev, mode, edited);
        assert(ls.take(ls.len() - 1) =~= prev);
        assert(ls.map_values(|l: ContentLineV| line_text(l)).drop_last() =~= prev.map_values(
            |l: ContentLineV| line_text(l),
        ));
        assert(ls.last() == ls[ls.len() - 1]);
        if !editable_in(ls.last(), mode) {
            assert(line_text(ls.last()) == line_text(ls[ls.len() - 1]));
        }
    }
}

/// Round trip, in every mode: a file that ends with a newline, parsed, and written back with
/// its own editable lines untouched, is the file itself byte for byte, comment and
/// conflict-marker lines included.
pub proof fn law_document_round_trip(raw: Seq<char>, cc: char, mode: EditorMode)
    requires
        raw.len() > 0,
        raw.last() == '\n',
    ensures
        serialize_doc_spec(
            classify_all(raw, cc),
            mode,
            editable_indices(classify_all(raw, cc), mode).map_values(
                |i: int| line_text(classify_all(raw, cc)[i]),
            ),
        ) == raw,
{
    let ls = classify_all(raw, cc);
    let all = editable_indices(ls, mode);
    let e = all.map_values(|i: int| line_text(ls[i]));
    assert forall|k: int| 0 <= k < ls.len() && editable_in(#[trigger] ls[k], mode) implies e[editable_indices(
        ls.take(k),
        mode,
    ).len() as int] == line_text(ls[k]) by {
        let j = editable_indices(ls.take(k), mode).len() as int;
        lemma_editable_prefix(ls, mode, k + 1);
        assert(ls.take(k + 1).drop_last() =~= ls.take(k));
        assert(ls.take(k + 1).last() == ls[k]);
        assert(editable_indices(ls.take(k + 1), mode)[j] == k);
        assert(all[j] == k);
    }
    lemma_serialize_own_texts(ls, mode, e);
    assert(ls.map_values(|l: ContentLineV| line_text(l)) =~= lines_of(raw));
    lemma_concat_lines_of(raw);
}

/// A todo line that reads back as written: rendering its classification gives the line.
pub open spec fn canonical_rebase_line(l: Seq<char>, cc: char) -> bool {
    render_rebase_line(classify_rebase_spec(l, cc)) == l
}

pub proof fn lemma_serialize_classified(ls: Seq<Seq<char>>, cc: char)
    requires
        forall|i: int| 0 <= i < ls.len() ==> canonical_rebase_line(#[trigger] ls[i], cc),
    ensures
        serialize_rebase_spec(ls.map_values(|l: Seq<char>| classify_rebase_spec(l, cc)))
            == concat_lines(ls),
    decreases ls.len(),
{
    if ls.len() > 0 {
        let prev = ls.drop_last();
        assert forall|i: int| 0 <= i < prev.len() implies canonical_rebase_line(#[trigger] prev[i], cc) by {
            assert(prev[i] == ls[i]);
        }
        lemma_serialize_classified(prev, cc);
        let m = ls.map_values(|l: Seq<char>| classify_rebase_spec(l, cc));
        assert(m.drop_last() =~= prev.map_values(|l: Seq<char>| classify_rebase_spec(l, cc)));
        assert(canonical_rebase_line(ls[ls.len() - 1], cc));
    }
}

/// Round trip of the rebase todo: a file that ends with a newline and whose lines are all in
/// canonical form is written back unchanged.
pub proof fn law_rebase_todo_round_trip(raw: Seq<char>, cc: char)
    requires
        raw.len() > 0,
        raw.last() == '\n',
        forall|i: int| 0 <= i < lines_of(raw).len() ==> canonical_rebase_line(#[trigger] lines_of(raw)[i], cc),
    ensures
        serialize_rebase_spec(parse_rebase_spec(raw, cc)) == raw,
{
    lemma_serialize_classified(lines_of(raw), cc);
    lemma_concat_lines_of(raw);
}

/// Comment lines, and lines whose first word names no action, are canonical: they are kept
/// verbatim.
pub proof fn law_unrecognized_rebase_lines_verbatim(l: Seq<char>, cc: char)
    requires
        (l.len() > 0 && l[0] == cc) || parse_action_spec(
            match find(l, ' ') {
                Some(i) => l.take(i),
                None => l,
            },
        ) is None,
    ensures
        classify_rebase_spec(l, cc) == RebaseLineV::Comment(l),
        canonical_rebase_line(l, cc),
{
}

/// A long-form, non-exec action line with a hash and a subject is canonical.
pub proof fn law_long_form_action_line_canonical(
    a: RebaseAction,
    hash: Seq<char>,
    subject: Seq<char>,
    cc: char,
)
    requires
        a != RebaseAction::Exec,
        forall|j: int| 0 <= j < hash.len() ==> hash[j] != ' ',
        action_name(a)[0] != cc,
    ensures
        canonical_rebase_line(action_name(a) + seq![' '] + hash + seq![' '] + subject, cc),
{
    reveal_strlit("pick");
    reveal_strlit("squash");
    reveal_strlit("fixup");
    reveal_strlit("drop");
    reveal_strlit("exec");
    reveal_strlit("p");
    reveal_strlit("s");
    reveal_strlit("f");
    reveal_strlit("d");
    reveal_strlit("x");
    let w = action_name(a);
    let l = w + seq![' '] + hash + seq![' '] + subject;
    let n = w.len() as int;
    assert forall|j: int| 0 <= j < n implies l[j] != ' ' && l[j] == w[j] by {}
    assert(l[n] == ' ');
    crate::text::lemma_find_first(l, ' ', n);
    assert(l.take(n) =~= w);
    let rest = l.skip(n + 1);
    assert(rest =~= hash + seq![' '] + subject);
    assert(rest[hash.len() as int] == ' ');
    crate::text::lemma_find_first(rest, ' ', hash.len() as int);
    assert(rest.take(hash.len() as int) =~= hash);
    assert(rest.skip(hash.len() as int + 1) =~= subject);
}

/// A rebase line that writing and reading back keeps: no text holds a newline; an exec line
/// has no hash; another action's hash holds no space and its name does not start with the
/// comment char; a comment reads back as a comment.
pub open spec fn writable_rebase_line(l: RebaseLineV, cc: char) -> bool {
    match l {
        RebaseLineV::Action { action, hash, subject } => {
            &&& forall|j: int| 0 <= j < subject.len() ==> subject[j] != '\n'
            &&& forall|j: int| 0 <= j < hash.len() ==> hash[j] != '\n' && hash[j] != ' '
            &&& action == RebaseAction::Exec ==> hash.len() == 0
            &&& action_name(action)[0] != cc
        },
        RebaseLineV::Comment(t) => {
            &&& forall|j: int| 0 <= j < t.len() ==> t[j] != '\n'
            &&& classify_rebase_spec(t, cc) == RebaseLineV::Comment(t)
        },
    }
}

proof fn lemma_classify_render(l: RebaseLineV, cc: char)
    requires
        writable_rebase_line(l, cc),
    ensures
        classify_rebase_spec(render_rebase_line(l), cc) == l,
        forall|j: int|
            0 <= j < render_rebase_line(l).len() ==> render_rebase_line(l)[j] != '\n',
{
    reveal_strlit("pick");
    reveal_strlit("squash");
    reveal_strlit("fixup");
    reveal_strlit("drop");
    reveal_strlit("exec");
    reveal_strlit("exec ");
    reveal_strlit("p");
    reveal_strlit("s");
    reveal_strlit("f");
    reveal_strlit("d");
    reveal_strlit("x");
    match l {
        RebaseLineV::Action { action, hash, subject } => {
            let w = action_name(action);
            let n = w.len() as int;
            if action == RebaseAction::Exec {
                let r = "exec "@ + subject;
                assert(r == w + seq![' '] + subject);
                assert forall|j: int| 0 <= j < n implies r[j] != ' ' && r[j] == w[j] by {}
                assert(r[n] == ' ');
                crate::text::lemma_find_first(r, ' ', n);
                assert(r.take(n) =~= w);
                assert(r.skip(n + 1) =~= subject);
                assert(hash =~= Seq::<char>::empty());
            } else {
                let r = w + seq![' '] + hash + seq![' '] + subject;
                assert forall|j: int| 0 <= j < n implies r[j] != ' ' && r[j] == w[j] by {}
                assert(r[n] == ' ');
                crate::text::lemma_find_first(r, ' ', n);
                assert(r.take(n) =~= w);
                let rest = r.skip(n + 1);
                assert(rest =~= hash + seq![' '] + subject);
                assert(rest[hash.len() as int] == ' ');
                assert forall|j: int| 0 <= j < hash.len() implies rest[j] != ' ' by {
                    assert(rest[j] == hash[j]);
                }
                crate::text::lemma_find_first(rest, ' ', hash.len() as int);
                assert(rest.take(hash.len() as int) =~= hash);
                assert(rest.skip(hash.len() as int + 1) =~= subject);
                assert forall|j: int| 0 <= j < r.len() implies r[j] != '\n' by {
                    if j < n {
                    } else if j == n {
                    } else if j < n + 1 + hash.len() {
                        assert(r[j] == hash[j - n - 1]);
                    } else if j == n + 1 + hash.len() {
                    } else {
                        assert(r[j] == subject[j - n - 2 - hash.len()]);
                    }
                }
            }
        },
        RebaseLineV::Comment(t) => {},
    }
}

/// The rendered lines, in order.
pub open spec fn rendered_lines(ls: Seq<RebaseLineV>) -> Seq<Seq<char>> {
    ls.map_values(|l: RebaseLineV| render_rebase_line(l))
}

proof fn lemma_serialize_is_concat(ls: Seq<RebaseLineV>)
    ensures
        serialize_rebase_spec(ls) == concat_lines(rendered_lines(ls)),
    decreases ls.len(),
{
    if ls.len() > 0 {
        lemma_serialize_is_concat(ls.drop_last());
        assert(rendered_lines(ls).drop_last() =~= rendered_lines(ls.drop_last()));
    }
}

/// Reading back what was written gives the lines that were written: parsing the text
/// `serialize_rebase_todo` writes for any list of lines that writing keeps gives that list.
pub proof fn law_rebase_lines_read_back(ls: Seq<RebaseLineV>, cc: char)
    requires
        forall|i: int| 0 <= i < ls.len() ==> writable_rebase_line(#[trigger] ls[i], cc),
    ensures
        parse_rebase_spec(serialize_rebase_spec(ls), cc) == ls,
{
    lemma_serialize_is_concat(ls);
    let parts = rendered_lines(ls);
    if ls.len() == 0 {
        assert(parse_rebase_spec(serialize_rebase_spec(ls), cc) =~= ls);
    } else {
        assert forall|i: int, j: int| 0 <= i < parts.len() && 0 <= j < parts[i].len() implies parts[i][j]
            != '\n' by {
            lemma_classify_render(ls[i], cc);
        }
        lemma_concat_join(parts);
        let raw = concat_lines(parts);
        let joined = crate::text::join(parts, seq!['\n']);
        assert(raw.drop_last() =~= joined);
        crate::text::lemma_split_join(parts, '\n');
        lemma_lines_of(raw);
        assert(lines_of(raw) == parts);
        assert forall|i: int| 0 <= i < ls.len() implies classify_rebase_spec(
            #[trigger] parts[i],
            cc,
        ) == ls[i] by {
            lemma_classify_render(ls[i], cc);
        }
        assert(parse_rebase_spec(raw, cc) =~= ls);
    }
}

} // verus!
