//! The editing session: what is being edited, which pane has focus, what is scrolled where,
//! and how each action changes that. The text editors themselves belong to the terminal front
//! end; an action that concerns them comes back as a command for it to carry out.
use vstd::prelude::*;

use crate::context::{GitContext, is_message_spec};
use crate::details::{arrivals_view, DetailsLoader};
use crate::keys::Key;
use crate::layout::{Pane, PaneRects, pane_at, pane_at_spec};
use crate::message::{MessageFile, split, split_spec};
use crate::rebase::{
    self, Todo, TodoLine, TodoLineV, TodoV, commit_line_text, instruction_indices_spec,
    is_move_target, parse_spec, subject_spec, swap_lines, with_action,
};
use crate::rewords::{Rewords, subject_for, without_key};
use crate::status::{self, Status};
use crate::text::{
    chars_of, join, join_strings, push_char, str_lines, str_lines_of, string_of, trim, trimmed,
    views,
};

verus! {

#[derive(Debug, Clone, Copy, PartialEq, Eq, Structural)]
pub enum ScrollBy {
    Lines(isize),
    Pages(isize),
    Top,
    End,
}

#[derive(Debug, Clone, Copy, PartialEq, Eq, Structural)]
pub enum Action {
    Save,
    Cancel,
    ToggleHelp,
    ScrollHelp(isize),
    FocusLeft,
    FocusRight,
    ToggleFocus,
    ClickAt { column: u16, row: u16 },
    WheelAt { column: u16, row: u16, delta: isize },
    ScrollRight(ScrollBy),
    // Text editing: message, plain, raw todo, or inline subject editor.
    Edit(Key),
    CursorUp,
    CursorDown,
    DeleteLine,
    Undo,
    Redo,
    DeleteWord,
    DeleteNextWord,
    Copy,
    Cut,
    Paste,
    // Rebase table.
    SelectBy(ScrollBy),
    SetInstruction(rebase::Action),
    CycleInstruction,
    MoveInstruction { up: bool },
    StartInline,
    CommitInline,
    CancelInline,
    ToggleRaw,
}

#[derive(Debug, Clone, Copy, PartialEq, Eq, Structural)]
pub enum Outcome {
    Save,
    Cancel,
    Continue,
}

/// Work on the text editors, or outside the session, that an action leaves to the front end,
/// in the order it is to be done.
#[derive(Debug, Clone, PartialEq)]
pub enum Command {
    /// Feed a key to the active editor.
    Input(Key),
    /// Delete the active editor's current line.
    DeleteLine,
    Undo,
    Redo,
    DeleteWord,
    DeleteNextWord,
    /// Move the active editor's cursor by display rows, `times` times.
    CursorRows { down: bool, times: usize },
    Copy,
    Cut,
    Paste,
    /// Open the inline subject editor with this text, the cursor at its end.
    OpenInline(String),
    /// Close the inline subject editor.
    CloseInline,
    /// Open the raw todo editor with these lines.
    OpenRaw(Vec<String>),
    /// Close the raw todo editor.
    CloseRaw,
    /// Fetch the details of the commit with this hash.
    FetchDetails(String),
}

/// What an action leads to: the outcome, and the commands for the front end.
pub struct Step {
    pub outcome: Outcome,
    pub commands: Vec<Command>,
}

/// `a + d`, kept within `0..=usize::MAX`.
pub open spec fn add_signed_sat(a: int, d: int) -> int {
    if a + d < 0 {
        0
    } else if a + d > usize::MAX {
        usize::MAX as int
    } else {
        a + d
    }
}

/// `usize::saturating_add_signed`.
pub fn saturating_add_signed(a: usize, d: isize) -> (r: usize)
    ensures
        r == add_signed_sat(a as int, d as int),
{
    if d >= 0 {
        let du = d as usize;
        if a > usize::MAX - du {
            usize::MAX
        } else {
            a + du
        }
    } else {
        let m: usize = ((-(d + 1)) as usize) + 1;
        if m > a {
            0
        } else {
            a - m
        }
    }
}

/// A commit message being written, with git's status trailer.
pub struct MessageBody {
    pub file: MessageFile,
    pub status: Status,
    /// Whether the message was prefilled from a stored reword, to be deleted after saving.
    pub from_stored_reword: bool,
}

/// An interactive rebase todo shown as a table.
pub struct RebaseBody {
    pub todo: Todo,
    /// Index into `todo.instruction_indices()`.
    pub selected: usize,
    /// Pending rewords: hash as written in the todo → new subject.
    pub rewords: Rewords,
    /// Whether the inline subject editor is open.
    pub inline: bool,
    /// Whether the raw text editor is open.
    pub raw: bool,
    pub details: DetailsLoader,
}

pub enum Body {
    Message(MessageBody),
    Plain,
    Rebase(RebaseBody),
}

pub struct App {
    pub body: Body,
    pub comment_char: char,
    pub file_name: String,
    pub focus: Pane,
    pub show_help: bool,
    pub help_scroll: usize,
    pub right_scroll: usize,
    // Written by the renderer every frame.
    pub rects: PaneRects,
    pub editor_width: usize,
    pub right_page: usize,
    pub editor_top: usize,
    pub table_top: usize,
}

/// The number of instructions in a todo.
pub open spec fn instruction_count(t: TodoV) -> int {
    instruction_indices_spec(t.lines).len() as int
}

/// The line of the selected instruction, if the selection is on one.
pub open spec fn selected_line_spec(t: TodoV, selected: int) -> Option<int> {
    if 0 <= selected < instruction_count(t) {
        Some(instruction_indices_spec(t.lines)[selected])
    } else {
        None
    }
}

/// Where the selection goes: by lines or by pages of ten, clamped to the last instruction, or
/// to either end; nowhere when there are no instructions.
pub open spec fn move_selection_spec(selected: int, count: int, by: ScrollBy) -> int {
    if count == 0 {
        selected
    } else {
        match by {
            ScrollBy::Lines(n) => min_int(add_signed_sat(selected, n as int), count - 1),
            ScrollBy::Pages(n) => min_int(add_signed_sat(selected, n * 10), count - 1),
            ScrollBy::Top => 0,
            ScrollBy::End => count - 1,
        }
    }
}

pub open spec fn min_int(a: int, b: int) -> int {
    if a < b {
        a
    } else {
        b
    }
}

/// `n` pages of `page` rows, as a number of rows that `isize` can hold.
pub open spec fn pages_fit(n: isize, page: int) -> bool {
    isize::MIN <= n * page <= isize::MAX
}

/// The page size the right pane scrolls by: at least one row.
pub open spec fn page_rows(page: int) -> int {
    if page < 1 {
        1
    } else {
        page
    }
}

/// A selection move whose page count, ten instructions a page, `isize` can hold whenever
/// there are instructions to move over.
pub open spec fn selection_move_fits(count: int, by: ScrollBy) -> bool {
    count > 0 ==> match by {
        ScrollBy::Pages(n) => pages_fit(n, 10),
        _ => true,
    }
}

/// An action whose page moves `isize` arithmetic can hold, in the state `app`: a right pane
/// page move counts pages of `right_page` rows, a table page move counts pages of ten
/// instructions when the rebase has instructions.
pub open spec fn action_in_range(a: Action, app: App) -> bool {
    match a {
        Action::ScrollRight(ScrollBy::Pages(n)) => app.right_page <= isize::MAX && pages_fit(
            n,
            page_rows(app.right_page as int),
        ),
        Action::SelectBy(by) => app.body matches Body::Rebase(r) ==> selection_move_fits(
            instruction_count(r.todo@),
            by,
        ),
        _ => true,
    }
}

/// Whether an action's page moves `isize` arithmetic can hold in the state `app`, as
/// `App::apply` requires.
pub fn action_fits(a: Action, app: &App) -> (r: bool)
    ensures
        r == action_in_range(a, *app),
{
    match a {
        Action::ScrollRight(ScrollBy::Pages(n)) => {
            if app.right_page > isize::MAX as usize {
                return false;
            }
            let page: i128 = if app.right_page < 1 {
                1
            } else {
                app.right_page as i128
            };
            let m = n as i128;
            assert(-0x4000_0000_0000_0000_0000_0000_0000_0000 <= m * page <= 0x4000_0000_0000_0000_0000_0000_0000_0000)
                by (nonlinear_arith)
                requires
                    -0x8000_0000_0000_0000 <= m <= 0x8000_0000_0000_0000,
                    1 <= page <= 0x8000_0000_0000_0000,
            ;
            isize::MIN as i128 <= m * page && m * page <= isize::MAX as i128
        },
        Action::SelectBy(by) => match &app.body {
            Body::Rebase(r) => {
                let count = r.todo.instruction_indices().len();
                if count == 0 {
                    true
                } else {
                    match by {
                        ScrollBy::Pages(n) => {
                            let m = n as i128;
                            isize::MIN as i128 <= m * 10 && m * 10 <= isize::MAX as i128
                        },
                        _ => true,
                    }
                }
            },
            _ => true,
        },
        _ => true,
    }
}

/// The commit instruction on the selected line, if any.
pub open spec fn selected_commit(t: TodoV, selected: int) -> Option<rebase::CommitLineV> {
    match selected_line_spec(t, selected) {
        Some(l) => match t.lines[l] {
            TodoLineV::Commit(c) => Some(c),
            _ => None,
        },
        None => None,
    }
}

/// The hashes of the reword instructions among `ls`, in order.
pub open spec fn reword_hash_list(ls: Seq<TodoLineV>) -> Seq<Seq<char>>
    decreases ls.len(),
{
    if ls.len() == 0 {
        Seq::empty()
    } else {
        let before = reword_hash_list(ls.drop_last());
        match ls.last() {
            TodoLineV::Commit(c) => if c.action == rebase::Action::Reword {
                before.push(c.hash)
            } else {
                before
            },
            _ => before,
        }
    }
}

/// The subject shown for a commit: its pending reword, or the todo's own subject.
pub open spec fn display_subject_spec(rw: Seq<(Seq<char>, Seq<char>)>, c: rebase::CommitLineV) -> Seq<
    char,
> {
    match subject_for(rw, c.hash) {
        Some(s) => s,
        None => subject_spec(c.rest),
    }
}

/// The text an inline edit leaves: its lines joined by spaces, trimmed.
pub open spec fn inline_text(lines: Seq<Seq<char>>) -> Seq<char> {
    trim(join(lines, seq![' ']))
}

impl RebaseBody {
    /// A rebase table for the todo in `raw`, with the first instruction selected and no
    /// pending rewords.
    pub fn new(raw: &str, cc: char) -> (r: Self)
        ensures
            r.todo@ == parse_spec(raw@, cc),
            r.selected == 0,
            r.rewords.wf(),
            r.rewords@.len() == 0,
            !r.inline,
            !r.raw,
            r.details@.cache.len() == 0,
            r.details@.requested.len() == 0,
    {
        RebaseBody {
            todo: rebase::parse(raw, cc),
            selected: 0,
            rewords: Rewords::new(),
            inline: false,
            raw: false,
            details: DetailsLoader::new(),
        }
    }

    pub fn selected_line(&self) -> (r: Option<usize>)
        ensures
            match r {
                Some(l) => selected_line_spec(self.todo@, self.selected as int) == Some(l as int),
                None => selected_line_spec(self.todo@, self.selected as int) is None,
            },
    {
        let ii = self.todo.instruction_indices();
        if self.selected < ii.len() {
            Some(ii[self.selected])
        } else {
            None
        }
    }

    /// Subject shown for a commit: its pending reword, or the todo's own subject.
    pub fn display_subject(&self, commit: &rebase::CommitLine) -> (r: String)
        ensures
            r@ == display_subject_spec(self.rewords@, commit@),
    {
        match self.rewords.get(commit.hash()) {
            Some(s) => string_of(&chars_of(s.as_str())),
            None => string_of(&chars_of(commit.subject())),
        }
    }

    /// Asks for the selected commit's details; the hash, when it is to be fetched.
    pub fn request_selected_details(&mut self) -> (r: Option<String>)
        ensures
            final(self).todo == old(self).todo,
            final(self).selected == old(self).selected,
            final(self).rewords == old(self).rewords,
            final(self).inline == old(self).inline,
            final(self).raw == old(self).raw,
            final(self).details@.cache == old(self).details@.cache,
            match selected_commit(old(self).todo@, old(self).selected as int) {
                Some(c) => if old(self).details@.requested.contains(c.hash) {
                    r is None && final(self).details@ == old(self).details@
                } else {
                    r matches Some(h) && h@ == c.hash && final(self).details@.requested == old(self).details@.requested.push(c.hash)
                },
                None => r is None && final(self).details@ == old(self).details@,
            },
    {
        let line = match self.selected_line() {
            Some(l) => l,
            None => return None,
        };
        proof {
            rebase::lemma_instruction_indices(self.todo@.lines);
        }
        let hash = match self.todo.commit(line) {
            Some(c) => string_of(&chars_of(c.hash())),
            None => return None,
        };
        if self.details.request(hash.as_str()) {
            Some(hash)
        } else {
            None
        }
    }
}


/// The commands `cmds` holds after `before` and one fetch of `hash`, if there is one.
pub open spec fn fetched(before: Seq<Command>, after: Seq<Command>, hash: Option<Seq<char>>) -> bool {
    match hash {
        Some(h) => {
            &&& after.len() == before.len() + 1
            &&& after.take(before.len() as int) == before
            &&& after.last() matches Command::FetchDetails(s) && s@ == h
        },
        None => after == before,
    }
}

/// The hash of the selected commit, when its details have not been asked for yet.
pub open spec fn fetch_due(t: TodoV, selected: int, requested: Seq<Seq<char>>) -> Option<Seq<char>> {
    match selected_commit(t, selected) {
        Some(c) => if requested.contains(c.hash) {
            None
        } else {
            Some(c.hash)
        },
        None => None,
    }
}

impl RebaseBody {
    /// Asks for the selected commit's details, adding a fetch command when it is new.
    fn fetch_selected(&mut self, cmds: &mut Vec<Command>)
        ensures
            final(self).todo == old(self).todo,
            final(self).selected == old(self).selected,
            final(self).rewords == old(self).rewords,
            final(self).inline == old(self).inline,
            final(self).raw == old(self).raw,
            final(self).details@.cache == old(self).details@.cache,
            fetched(
                old(cmds)@,
                final(cmds)@,
                fetch_due(old(self).todo@, old(self).selected as int, old(self).details@.requested),
            ),
    {
        match self.request_selected_details() {
            Some(h) => {
                let ghost before = cmds@;
                cmds.push(Command::FetchDetails(h));
                assert(cmds@.take(before.len() as int) =~= before);
            },
            None => {},
        }
    }

    /// Moves the selection, and asks for the newly selected commit's details.
    pub fn move_selection(&mut self, by: ScrollBy, cmds: &mut Vec<Command>)
        requires
            selection_move_fits(instruction_count(old(self).todo@), by),
        ensures
            move_selection_post(*old(self), *final(self), by, old(cmds)@, final(cmds)@),
    {
        let count = self.todo.instruction_indices().len();
        if count == 0 {
            return;
        }
        let last = count - 1;
        let target = match by {
            ScrollBy::Lines(n) => saturating_add_signed(self.selected, n),
            ScrollBy::Pages(n) => saturating_add_signed(self.selected, n * 10),
            ScrollBy::Top => 0,
            ScrollBy::End => last,
        };
        self.selected = if target < last {
            target
        } else {
            last
        };
        self.fetch_selected(cmds);
    }

    /// Sets the selected commit's action; a commit that is no longer reworded loses its pending
    /// subject.
    pub fn set_action(&mut self, action: rebase::Action)
        requires
            old(self).rewords.wf(),
        ensures
            final(self).rewords.wf(),
            set_action_post(*old(self), *final(self), action),
    {
        let line = match self.selected_line() {
            Some(l) => l,
            None => return,
        };
        proof {
            rebase::lemma_instruction_indices(self.todo@.lines);
        }
        let commit = match self.todo.commit_mut(line) {
            Some(c) => c,
            None => return,
        };
        commit.set_action(action);
        let hash = string_of(&chars_of(commit.hash()));
        if action != rebase::Action::Reword {
            self.rewords.remove(hash.as_str());
        }
    }

    /// Moves the selected commit's action one step along the Tab cycle.
    pub fn cycle_action(&mut self)
        requires
            old(self).rewords.wf(),
        ensures
            final(self).rewords.wf(),
            cycle_action_post(*old(self), *final(self)),
    {
        let line = match self.selected_line() {
            Some(l) => l,
            None => return,
        };
        proof {
            rebase::lemma_instruction_indices(self.todo@.lines);
        }
        let next = match self.todo.commit(line) {
            Some(c) => c.action().cycled(),
            None => return,
        };
        self.set_action(next);
    }

    /// Moves the selected instruction up or down past its neighbour; the selection follows it.
    pub fn move_instruction(&mut self, up: bool)
        ensures
            move_instruction_post(*old(self), *final(self), up),
    {
        let line = match self.selected_line() {
            Some(l) => l,
            None => return,
        };
        let ghost ls = self.todo@.lines;
        let ghost p = self.selected as int;
        let n = self.todo.lines.len();
        proof {
            rebase::lemma_instruction_indices(ls);
        }
        match self.todo.move_instruction(line, up) {
            Some(t) => {
                proof {
                    rebase::lemma_move_target_position(ls, p, up, t as int);
                    rebase::law_move_keeps_lines(ls, line as int, up, t as int);
                    assert forall|u: int| is_move_target(ls, line as int, up, u) implies u == t by {
                        rebase::lemma_move_target_position(ls, p, up, u);
                    }
                }
                self.selected = if up {
                    self.selected - 1
                } else {
                    self.selected + 1
                };
                proof {
                    assert(is_move_target(ls, line as int, up, t as int));
                    assert(instruction_indices_spec(self.todo@.lines) == instruction_indices_spec(
                        ls,
                    ));
                }
            },
            None => {},
        }
    }

    /// Opens the inline subject editor on the selected commit, with its shown subject.
    pub fn start_inline(&mut self, cmds: &mut Vec<Command>)
        ensures
            start_inline_post(*old(self), *final(self), old(cmds)@, final(cmds)@),
    {
        let line = match self.selected_line() {
            Some(l) => l,
            None => return,
        };
        proof {
            rebase::lemma_instruction_indices(self.todo@.lines);
        }
        let subject = match self.todo.commit(line) {
            Some(c) => self.display_subject(c),
            None => return,
        };
        let ghost before = cmds@;
        cmds.push(Command::OpenInline(subject));
        assert(cmds@.take(before.len() as int) =~= before);
        self.inline = true;
    }
}


/// The views of a sequence of strings.
pub open spec fn line_views(v: Seq<String>) -> Seq<Seq<char>> {
    Seq::new(v.len(), |i: int| v[i]@)
}

/// The text of the raw editor put back into a todo file: its lines joined by newlines, with a
/// final newline when the todo had one.
pub open spec fn raw_text(lines: Seq<Seq<char>>, final_newline: bool) -> Seq<char> {
    let s = join(lines, seq!['\n']);
    if final_newline {
        s.push('\n')
    } else {
        s
    }
}

impl RebaseBody {
    /// Confirms the inline edit: an empty subject, or the todo's own, drops the pending reword;
    /// another makes the commit a reword with that subject.
    pub fn commit_inline(&mut self, lines: &[String], cmds: &mut Vec<Command>)
        requires
            old(self).rewords.wf(),
        ensures
            final(self).rewords.wf(),
            commit_inline_post(*old(self), *final(self), line_views(lines@), old(cmds)@, final(cmds)@),
    {
        if !self.inline {
            return;
        }
        self.inline = false;
        cmds.push(Command::CloseInline);
        let joined = join_strings(lines, ' ');
        assert(views(lines@) =~= line_views(lines@));
        let text = trimmed(&chars_of(joined.as_str()));
        let line = match self.selected_line() {
            Some(l) => l,
            None => return,
        };
        proof {
            rebase::lemma_instruction_indices(self.todo@.lines);
        }
        let (hash, own) = match self.todo.commit(line) {
            Some(c) => (string_of(&chars_of(c.hash())), crate::text::seq_eq(&text, &chars_of(c.subject()))),
            None => return,
        };
        if text.len() == 0 || own {
            self.rewords.remove(hash.as_str());
        } else {
            match self.todo.commit_mut(line) {
                Some(c) => c.set_action(rebase::Action::Reword),
                None => {},
            }
            self.rewords.insert(hash, string_of(&text));
        }
    }

    /// Switches between the table and raw text editing. Opening shows the todo as text; closing
    /// reads the edited text back as the todo, keeps only the pending rewords of commits still
    /// reworded, and keeps the selection within the instructions.
    pub fn toggle_raw(&mut self, cc: char, raw_lines: &[String], cmds: &mut Vec<Command>)
        requires
            old(self).rewords.wf(),
        ensures
            final(self).rewords.wf(),
            toggle_raw_post(*old(self), *final(self), cc, line_views(raw_lines@), old(cmds)@, final(cmds)@),
    {
        if !self.raw {
            if self.inline {
                cmds.push(Command::CloseInline);
            }
            self.inline = false;
            let text = self.todo.serialize();
            let ls = str_lines_of(&chars_of(text.as_str()));
            let mut out: Vec<String> = Vec::new();
            let mut i: usize = 0;
            while i < ls.len()
                invariant
                    i <= ls@.len(),
                    out@.len() == i,
                    forall|k: int| 0 <= k < i ==> (#[trigger] out@[k])@ == ls@[k]@,
                decreases ls@.len() - i,
            {
                out.push(string_of(&ls[i]));
                i += 1;
            }
            assert(line_views(out@) =~= str_lines(text@));
            cmds.push(Command::OpenRaw(out));
            self.raw = true;
            return;
        }
        self.raw = false;
        let ghost before = cmds@;
        cmds.push(Command::CloseRaw);
        if self.inline {
            self.inline = false;
        }
        let mut text = join_strings(raw_lines, '\n');
        assert(views(raw_lines@) =~= line_views(raw_lines@));
        if self.todo.final_newline {
            push_char(&mut text, '\n');
        }
        self.todo = rebase::parse(text.as_str(), cc);
        self.rewords.retain_reworded(&self.todo);
        let count = self.todo.instruction_indices().len();
        let top = if count > 0 {
            count - 1
        } else {
            0
        };
        if self.selected > top {
            self.selected = top;
        }
        let ghost mid = cmds@;
        self.fetch_selected(cmds);
        proof {
            assert(mid[before.len() as int] == Command::CloseRaw);
            if cmds@ != mid {
                assert(cmds@.take(mid.len() as int) == mid);
                assert(cmds@[before.len() as int] == cmds@.take(mid.len() as int)[before.len() as int]);
            }
        }
    }
}

/// The selection moved by `by`, and the newly selected commit's details asked for.
pub open spec fn move_selection_post(o: RebaseBody, n: RebaseBody, by: ScrollBy, c0: Seq<Command>, c1: Seq<Command>) -> bool {
    &&& n.selected == move_selection_spec(
            o.selected as int,
            instruction_count(o.todo@),
            by,
        )
    &&& n.todo == o.todo
    &&& n.rewords == o.rewords
    &&& n.inline == o.inline
    &&& n.raw == o.raw
    &&& instruction_count(o.todo@) == 0 ==> c1 == c0
    &&& instruction_count(o.todo@) > 0 ==> fetched(
            c0,
            c1,
            fetch_due(o.todo@, n.selected as int, o.details@.requested),
        )
}

/// The selected commit's action set to `action`; a commit no longer reworded loses its pending subject.
pub open spec fn set_action_post(o: RebaseBody, n: RebaseBody, action: rebase::Action) -> bool {
    &&& n.selected == o.selected
    &&& n.inline == o.inline
    &&& n.raw == o.raw
    &&& n.details == o.details
    &&& n.todo@.final_newline == o.todo@.final_newline
    &&& match selected_commit(o.todo@, o.selected as int) {
            Some(c) => n.todo@.lines == o.todo@.lines.update(
                selected_line_spec(o.todo@, o.selected as int)->0,
                TodoLineV::Commit(with_action(c, action)),
            ) && n.rewords@ == if action != rebase::Action::Reword {
                without_key(o.rewords@, c.hash)
            } else {
                o.rewords@
            },
            None => n.todo@ == o.todo@ && n.rewords@ == o.rewords@,
        }
}

/// The selected commit's action moved one step along the Tab cycle.
pub open spec fn cycle_action_post(o: RebaseBody, n: RebaseBody) -> bool {
    &&& n.selected == o.selected
    &&& n.inline == o.inline
    &&& n.raw == o.raw
    &&& n.details == o.details
    &&& n.todo@.final_newline == o.todo@.final_newline
    &&& match selected_commit(o.todo@, o.selected as int) {
            Some(c) => n.todo@.lines == o.todo@.lines.update(
                selected_line_spec(o.todo@, o.selected as int)->0,
                TodoLineV::Commit(with_action(c, rebase::cycled_spec(c.action))),
            ) && n.rewords@ == if rebase::cycled_spec(c.action)
                != rebase::Action::Reword {
                without_key(o.rewords@, c.hash)
            } else {
                o.rewords@
            },
            None => n.todo@ == o.todo@ && n.rewords@ == o.rewords@,
        }
}

/// The selected instruction moved past its neighbour, the selection following it.
pub open spec fn move_instruction_post(o: RebaseBody, n: RebaseBody, up: bool) -> bool {
    &&& n.rewords == o.rewords
    &&& n.inline == o.inline
    &&& n.raw == o.raw
    &&& n.details == o.details
    &&& n.todo@.final_newline == o.todo@.final_newline
    &&& selected_line_spec(o.todo@, o.selected as int) is None ==> n.todo@ == o.todo@ && n.selected == o.selected
    &&& forall|l: int, t: int|
            selected_line_spec(o.todo@, o.selected as int) == Some(l)
                && #[trigger] is_move_target(o.todo@.lines, l, up, t) ==> {
                &&& n.todo@.lines == swap_lines(o.todo@.lines, l, t)
                &&& n.selected == if up {
                    o.selected - 1
                } else {
                    o.selected + 1
                }
                &&& selected_line_spec(n.todo@, n.selected as int) == Some(t)
            }
    &&& forall|l: int|
            selected_line_spec(o.todo@, o.selected as int) == Some(l) && (forall|
                t: int,
            | !#[trigger] is_move_target(o.todo@.lines, l, up, t)) ==> n.todo@ == o.todo@ && n.selected == o.selected
}

/// The inline editor opened on the selected commit with its shown subject.
pub open spec fn start_inline_post(o: RebaseBody, n: RebaseBody, c0: Seq<Command>, c1: Seq<Command>) -> bool {
    &&& n.todo == o.todo
    &&& n.selected == o.selected
    &&& n.rewords == o.rewords
    &&& n.raw == o.raw
    &&& n.details == o.details
    &&& match selected_commit(o.todo@, o.selected as int) {
            Some(c) => {
                &&& n.inline
                &&& c1.len() == c0.len() + 1
                &&& c1.take(c0.len() as int) == c0
                &&& c1.last() matches Command::OpenInline(s) && s@
                    == display_subject_spec(o.rewords@, c)
            },
            None => n.inline == o.inline && c1 == c0,
        }
}

/// The inline edit confirmed with the editor's `lines`.
pub open spec fn commit_inline_post(o: RebaseBody, n: RebaseBody, lines: Seq<Seq<char>>, c0: Seq<Command>, c1: Seq<Command>) -> bool {
    &&& !n.inline
    &&& n.selected == o.selected
    &&& n.raw == o.raw
    &&& n.details == o.details
    &&& n.todo@.final_newline == o.todo@.final_newline
    &&& o.inline ==> c1 == c0.push(Command::CloseInline)
    &&& !o.inline ==> c1 == c0 && n.todo@ == o.todo@ && n.rewords@ == o.rewords@
    &&& o.inline ==> match selected_commit(o.todo@, o.selected as int) {
            Some(c) => {
                let text = inline_text(lines);
                if text.len() == 0 || text == subject_spec(c.rest) {
                    n.todo@ == o.todo@ && n.rewords@
                        == without_key(o.rewords@, c.hash)
                } else {
                    n.todo@.lines == o.todo@.lines.update(
                        selected_line_spec(o.todo@, o.selected as int)->0,
                        TodoLineV::Commit(with_action(c, rebase::Action::Reword)),
                    ) && n.rewords@ == without_key(o.rewords@, c.hash).push(
                        (c.hash, text),
                    )
                }
            },
            None => n.todo@ == o.todo@ && n.rewords@ == o.rewords@,
        }
}

/// Raw text editing switched on or off, the raw editor holding `raw_lines`.
pub open spec fn toggle_raw_post(o: RebaseBody, n: RebaseBody, cc: char, raw_lines: Seq<Seq<char>>, c0: Seq<Command>, c1: Seq<Command>) -> bool {
    &&& n.raw == !o.raw
    &&& !n.inline
    &&& !o.raw ==> {
            &&& n.todo == o.todo
            &&& n.selected == o.selected
            &&& n.rewords == o.rewords
            &&& n.details == o.details
            &&& c1.len() == c0.len() + if o.inline {
                2int
            } else {
                1int
            }
            &&& o.inline ==> c1[c0.len() as int] == Command::CloseInline
            &&& c1.last() matches Command::OpenRaw(ls) && line_views(ls@) == str_lines(
                rebase::serialize_spec(o.todo@),
            )
        }
    &&& o.raw ==> {
            let text = raw_text(raw_lines, o.todo@.final_newline);
            &&& n.todo@ == parse_spec(text, cc)
            &&& n.rewords@ == crate::rewords::kept_for(
                o.rewords@,
                n.todo@.lines,
            )
            &&& n.selected == min_int(
                o.selected as int,
                if instruction_count(n.todo@) > 0 {
                    instruction_count(n.todo@) - 1
                } else {
                    0
                },
            )
            &&& c1.len() >= c0.len() + 1
            &&& c1[c0.len() as int] == Command::CloseRaw
        }
}


/// Which text editor keystrokes go to.
#[derive(Debug, Clone, Copy, PartialEq, Eq, Structural)]
pub enum EditorSlot {
    /// The message or plain text editor.
    Main,
    /// The inline subject editor of the rebase table.
    Inline,
    /// The raw todo editor.
    Raw,
}

/// The editor keystrokes go to, when the left pane shows one.
pub open spec fn active_editor_spec(b: Body) -> Option<EditorSlot> {
    match b {
        Body::Message(_) => Some(EditorSlot::Main),
        Body::Plain => Some(EditorSlot::Main),
        Body::Rebase(r) => if r.inline {
            Some(EditorSlot::Inline)
        } else if r.raw {
            Some(EditorSlot::Raw)
        } else {
            None
        },
    }
}

/// Whether there is a right pane: the status of a message that has one, or a rebase's details.
pub open spec fn has_right_spec(b: Body) -> bool {
    match b {
        Body::Message(m) => m.status@.sections.len() > 0,
        Body::Plain => false,
        Body::Rebase(_) => true,
    }
}

/// Where the right pane scrolls to: by lines, by pages of `page` rows (at least one), to the
/// top, or to the end (the renderer clamps that to the last page).
pub open spec fn scroll_right_spec(scroll: int, page: int, by: ScrollBy) -> int {
    let p = if page < 1 {
        1
    } else {
        page
    };
    match by {
        ScrollBy::Lines(n) => add_signed_sat(scroll, n as int),
        ScrollBy::Pages(n) => add_signed_sat(scroll, n * p),
        ScrollBy::Top => 0,
        ScrollBy::End => usize::MAX as int,
    }
}

/// The command an editing action gives the active editor.
pub open spec fn edit_command(a: Action) -> Option<Command> {
    match a {
        Action::Edit(k) => Some(Command::Input(k)),
        Action::DeleteLine => Some(Command::DeleteLine),
        Action::Undo => Some(Command::Undo),
        Action::Redo => Some(Command::Redo),
        Action::DeleteWord => Some(Command::DeleteWord),
        Action::DeleteNextWord => Some(Command::DeleteNextWord),
        Action::Copy => Some(Command::Copy),
        Action::Cut => Some(Command::Cut),
        Action::Paste => Some(Command::Paste),
        Action::CursorUp => Some(Command::CursorRows { down: false, times: 1 }),
        Action::CursorDown => Some(Command::CursorRows { down: true, times: 1 }),
        _ => None,
    }
}

/// The rebase table is showing, with no text editor open in it.
pub open spec fn table_showing(b: Body) -> bool {
    b matches Body::Rebase(r) && !r.inline && !r.raw
}

/// The magnitude of `d`.
pub open spec fn abs_int(d: int) -> int {
    if d < 0 {
        -d
    } else {
        d
    }
}

impl App {
    /// The pending rewords of a rebase each have one subject.
    pub open spec fn wf(&self) -> bool {
        self.body matches Body::Rebase(r) ==> r.rewords.wf()
    }

    /// An editor for `raw` in the given context: a rebase table for a todo, the message layout
    /// for commit, merge, squash and tag messages, and plain text otherwise.
    pub fn new(raw: &str, context: GitContext, comment_char: char) -> (r: Self)
        ensures
            r.wf(),
            r.comment_char == comment_char,
            r.focus == Pane::Left,
            !r.show_help,
            r.help_scroll == 0,
            r.right_scroll == 0,
            r.editor_width == 80,
            r.right_page == 10,
            r.editor_top == 0,
            r.table_top == 0,
            r.file_name@.len() == 0,
            r.rects.left is None && r.rects.right is None,
            r.rects.key_bar == (crate::layout::Rect { x: 0, y: 0, width: 0, height: 0 }),
            context == GitContext::Rebase ==> (r.body matches Body::Rebase(b) && b.todo@
                == parse_spec(raw@, comment_char) && b.selected == 0 && b.rewords@.len() == 0
                && !b.inline && !b.raw && b.details@.cache.len() == 0 && b.details@.requested.len() == 0),
            context != GitContext::Rebase && is_message_spec(context) ==> (r.body matches Body::Message(m)
                && m.file@ == split_spec(raw@, comment_char) && m.status@ == status::parse_spec(
                split_spec(raw@, comment_char).trailer,
                comment_char,
            ) && !m.from_stored_reword),
            context != GitContext::Rebase && !is_message_spec(context) ==> r.body is Plain,
    {
        let body = if context == GitContext::Rebase {
            Body::Rebase(RebaseBody::new(raw, comment_char))
        } else if context.is_message() {
            let file = split(raw, comment_char);
            let trailer = file.trailer_lines();
            let status = status::parse(trailer, comment_char);
            assert(Seq::new(trailer@.len(), |i: int| trailer@[i]@) =~= views(trailer@));
            Body::Message(MessageBody { file, status, from_stored_reword: false })
        } else {
            Body::Plain
        };
        App {
            body,
            comment_char,
            file_name: String::new(),
            focus: Pane::Left,
            show_help: false,
            help_scroll: 0,
            right_scroll: 0,
            rects: PaneRects::empty(),
            editor_width: 80,
            right_page: 10,
            editor_top: 0,
            table_top: 0,
        }
    }

    pub fn has_right(&self) -> (r: bool)
        ensures
            r == has_right_spec(self.body),
    {
        match &self.body {
            Body::Message(m) => !m.status.is_empty(),
            Body::Plain => false,
            Body::Rebase(_) => true,
        }
    }

    /// The text editor keystrokes go to, when the left pane is showing one.
    pub fn active_editor(&self) -> (r: Option<EditorSlot>)
        ensures
            r == active_editor_spec(self.body),
    {
        match &self.body {
            Body::Message(_) => Some(EditorSlot::Main),
            Body::Plain => Some(EditorSlot::Main),
            Body::Rebase(r) => if r.inline {
                Some(EditorSlot::Inline)
            } else if r.raw {
                Some(EditorSlot::Raw)
            } else {
                None
            },
        }
    }

    /// The lines the main editor starts with: the message of a message file, every line of a
    /// plain file; a rebase has no main editor.
    pub fn main_editor_lines(&self, raw: &str) -> (r: Option<Vec<String>>)
        ensures
            match self.body {
                Body::Message(m) => r matches Some(ls) && line_views(ls@) == m.file@.message,
                Body::Plain => r matches Some(ls) && line_views(ls@) == str_lines(raw@),
                Body::Rebase(_) => r is None,
            },
    {
        match &self.body {
            Body::Message(m) => {
                let src = m.file.message_lines();
                let mut out: Vec<String> = Vec::new();
                let mut i: usize = 0;
                while i < src.len()
                    invariant
                        i <= src@.len(),
                        out@.len() == i,
                        forall|k: int| 0 <= k < i ==> (#[trigger] out@[k])@ == src@[k]@,
                    decreases src@.len() - i,
                {
                    out.push(string_of(&chars_of(src[i].as_str())));
                    i += 1;
                }
                assert(line_views(out@) =~= views(src@));
                Some(out)
            },
            Body::Plain => {
                let ls = str_lines_of(&chars_of(raw));
                let mut out: Vec<String> = Vec::new();
                let mut i: usize = 0;
                while i < ls.len()
                    invariant
                        i <= ls@.len(),
                        out@.len() == i,
                        forall|k: int| 0 <= k < i ==> (#[trigger] out@[k])@ == ls@[k]@,
                    decreases ls@.len() - i,
                {
                    out.push(string_of(&ls[i]));
                    i += 1;
                }
                assert(line_views(out@) =~= str_lines(raw@));
                Some(out)
            },
            Body::Rebase(_) => None,
        }
    }

    /// Prefills the message with a stored reword's lines, to be deleted after saving.
    pub fn prefill_message(&mut self, stored: &str)
        ensures
            *final(self) == (App { body: final(self).body, ..*old(self) }),
            match (old(self).body, final(self).body) {
                (Body::Message(o), Body::Message(n)) => n.file@.message == str_lines(stored@)
                    && n.file@.trailer == o.file@.trailer && n.file@.final_newline
                    == o.file@.final_newline && n.status == o.status && n.from_stored_reword,
                (Body::Message(_), _) => false,
                _ => final(self).body == old(self).body,
            },
    {
        match &mut self.body {
            Body::Message(m) => {
                let ls = str_lines_of(&chars_of(stored));
                let mut out: Vec<String> = Vec::new();
                let mut i: usize = 0;
                while i < ls.len()
                    invariant
                        i <= ls@.len(),
                        out@.len() == i,
                        forall|k: int| 0 <= k < i ==> (#[trigger] out@[k])@ == ls@[k]@,
                    decreases ls@.len() - i,
                {
                    out.push(string_of(&ls[i]));
                    i += 1;
                }
                assert(views(out@) =~= str_lines(stored@));
                m.file.set_message(out);
                m.from_stored_reword = true;
            },
            _ => {},
        }
    }

    /// The hashes of the todo's reword instructions, in order.
    pub fn reword_hashes(&self) -> (r: Vec<String>)
        ensures
            views(r@) == match self.body {
                Body::Rebase(b) => reword_hash_list(b.todo@.lines),
                _ => Seq::empty(),
            },
    {
        let mut out: Vec<String> = Vec::new();
        match &self.body {
            Body::Rebase(b) => {
                let ghost ls = b.todo@.lines;
                let mut i: usize = 0;
                while i < b.todo.lines.len()
                    invariant
                        i <= b.todo.lines@.len(),
                        ls == b.todo@.lines,
                        ls.len() == b.todo.lines@.len(),
                        views(out@) == reword_hash_list(ls.take(i as int)),
                    decreases b.todo.lines@.len() - i,
                {
                    assert(ls[i as int] == b.todo.lines@[i as int]@);
                    assert(ls.take(i + 1).drop_last() =~= ls.take(i as int));
                    let ghost before = out@;
                    match &b.todo.lines[i] {
                        TodoLine::Commit(c) => {
                            if c.action() == rebase::Action::Reword {
                                let h = string_of(&chars_of(c.hash()));
                                out.push(h);
                                assert(views(out@) =~= views(before).push(c@.hash));
                            }
                        },
                        _ => {},
                    }
                    i += 1;
                }
                assert(ls.take(i as int) =~= ls);
            },
            _ => {
                assert(views(out@) =~= Seq::<Seq<char>>::empty());
            },
        }
        out
    }

    /// Sets the pending rewords of a rebase.
    pub fn set_rewords(&mut self, rewords: Rewords)
        requires
            old(self).wf(),
            rewords.wf(),
        ensures
            final(self).wf(),
            *final(self) == (App { body: final(self).body, ..*old(self) }),
            match old(self).body {
                Body::Rebase(o) => final(self).body == Body::Rebase(RebaseBody { rewords, ..o }),
                _ => final(self).body == old(self).body,
            },
    {
        match &mut self.body {
            Body::Rebase(b) => b.rewords = rewords,
            _ => {},
        }
    }

    /// Asks for the selected commit's details; the commands that fetch them: one fetch of the
    /// selected commit when its details were not asked for yet, none otherwise.
    pub fn request_details(&mut self) -> (r: Vec<Command>)
        requires
            old(self).wf(),
        ensures
            final(self).wf(),
            *final(self) == (App { body: final(self).body, ..*old(self) }),
            match old(self).body {
                Body::Rebase(o) => final(self).body matches Body::Rebase(n) && n.todo == o.todo
                    && n.selected == o.selected && n.rewords == o.rewords && n.inline == o.inline
                    && n.raw == o.raw && n.details@.cache == o.details@.cache && fetched(
                    Seq::empty(),
                    r@,
                    fetch_due(o.todo@, o.selected as int, o.details@.requested),
                ),
                _ => final(self).body == old(self).body && r@.len() == 0,
            },
    {
        let mut cmds: Vec<Command> = Vec::new();
        match &mut self.body {
            Body::Rebase(b) => b.fetch_selected(&mut cmds),
            _ => {},
        }
        cmds
    }

    /// Pulls in finished background work. Returns true when something new arrived.
    pub fn poll_background(&mut self, arrived: Vec<(String, Option<crate::details::CommitDetails>)>) -> (r: bool)
        requires
            old(self).wf(),
        ensures
            final(self).wf(),
            r == (old(self).body is Rebase && arrived@.len() > 0),
            *final(self) == (App { body: final(self).body, ..*old(self) }),
            match old(self).body {
                Body::Rebase(o) => final(self).body matches Body::Rebase(n) && n.todo == o.todo
                    && n.selected == o.selected && n.rewords == o.rewords && n.inline == o.inline
                    && n.raw == o.raw && n.details@.cache == o.details@.cache + arrivals_view(
                    arrived@,
                ) && n.details@.requested == o.details@.requested,
                _ => final(self).body == old(self).body,
            },
    {
        match &mut self.body {
            Body::Rebase(b) => b.details.poll(arrived),
            _ => false,
        }
    }

    /// The file's new content: the message with its trailer, the plain text with a final
    /// newline, or the todo.
    pub fn serialized_content(&self, main_lines: &[String]) -> (r: String)
        ensures
            match self.body {
                Body::Message(m) => r@ == crate::message::assemble_spec(m.file@, line_views(main_lines@)),
                Body::Plain => r@ == join(line_views(main_lines@), seq!['\n']).push('\n'),
                Body::Rebase(b) => r@ == rebase::serialize_spec(b.todo@),
            },
    {
        match &self.body {
            Body::Message(m) => {
                let r = m.file.assemble(main_lines);
                assert(views(main_lines@) =~= line_views(main_lines@));
                r
            },
            Body::Plain => {
                let mut s = join_strings(main_lines, '\n');
                assert(views(main_lines@) =~= line_views(main_lines@));
                push_char(&mut s, '\n');
                s
            },
            Body::Rebase(b) => b.todo.serialize(),
        }
    }

    fn scroll_right(&mut self, by: ScrollBy)
        requires
            by matches ScrollBy::Pages(n) ==> old(self).right_page <= isize::MAX && pages_fit(
                n,
                page_rows(old(self).right_page as int),
            ),
        ensures
            final(self).right_scroll == scroll_right_spec(
                old(self).right_scroll as int,
                old(self).right_page as int,
                by,
            ),
            *final(self) == (App { right_scroll: final(self).right_scroll, ..*old(self) }),
    {
        self.right_scroll = match by {
            ScrollBy::Lines(n) => saturating_add_signed(self.right_scroll, n),
            ScrollBy::Pages(n) => {
                let page: isize = if self.right_page < 1 {
                    1
                } else {
                    self.right_page as isize
                };
                saturating_add_signed(self.right_scroll, n * page)
            },
            ScrollBy::Top => 0,
            // The renderer clamps this to the last page.
            ScrollBy::End => usize::MAX,
        };
    }
}


/// Where the focus goes.
pub open spec fn focus_after(o: App, a: Action) -> Pane {
    match a {
        Action::FocusLeft => Pane::Left,
        Action::FocusRight => if has_right_spec(o.body) {
            Pane::Right
        } else {
            o.focus
        },
        Action::ToggleFocus => if o.focus == Pane::Left && has_right_spec(o.body) {
            Pane::Right
        } else {
            Pane::Left
        },
        Action::ClickAt { column, row } => match pane_at_spec(o.rects, column, row) {
            Some(p) => p,
            None => o.focus,
        },
        _ => o.focus,
    }
}

/// Whether help shows, and how far it is scrolled.
pub open spec fn help_after(o: App, a: Action) -> (bool, int) {
    match a {
        Action::ToggleHelp => (!o.show_help, 0),
        Action::ScrollHelp(d) => (o.show_help, add_signed_sat(o.help_scroll as int, d as int)),
        _ => (o.show_help, o.help_scroll as int),
    }
}

/// How far the right pane is scrolled: moving the rebase selection scrolls it back to the top.
pub open spec fn right_scroll_after(o: App, a: Action) -> int {
    match a {
        Action::ScrollRight(by) => scroll_right_spec(o.right_scroll as int, o.right_page as int, by),
        Action::WheelAt { column, row, delta } => match pane_at_spec(o.rects, column, row) {
            Some(Pane::Right) => add_signed_sat(o.right_scroll as int, delta as int),
            Some(Pane::Left) => if table_showing(o.body) {
                0
            } else {
                o.right_scroll as int
            },
            None => o.right_scroll as int,
        },
        Action::SelectBy(_) => if o.body is Rebase {
            0
        } else {
            o.right_scroll as int
        },
        _ => o.right_scroll as int,
    }
}

/// The editor commands of an action on the active editor: none without one.
pub open spec fn editor_commands(o: Body, c: Command) -> Seq<Command> {
    if active_editor_spec(o) is Some {
        seq![c]
    } else {
        Seq::empty()
    }
}

/// Saving a rebase by way of `m` and `c`: an open inline edit confirmed (giving `m` and the
/// commands `c`), then an open raw editor read back (giving `nb` and `cmds`).
pub open spec fn save_via(
    ob: RebaseBody,
    m: RebaseBody,
    c: Seq<Command>,
    nb: RebaseBody,
    cc: char,
    il: Seq<Seq<char>>,
    rl: Seq<Seq<char>>,
    cmds: Seq<Command>,
) -> bool {
    &&& (if ob.inline {
        commit_inline_post(ob, m, il, Seq::empty(), c)
    } else {
        m == ob && c == Seq::<Command>::empty()
    })
    &&& (if m.raw {
        toggle_raw_post(m, nb, cc, rl, c, cmds)
    } else {
        nb == m && cmds == c
    })
}

/// What happens to the body, and the commands that result. Saving first confirms an open
/// inline edit and then reads back an open raw editor. The wheel over the left pane moves the
/// table selection, or the editor's cursor by as many display rows.
pub open spec fn body_post(
    o: App,
    n: Body,
    a: Action,
    il: Seq<Seq<char>>,
    rl: Seq<Seq<char>>,
    cmds: Seq<Command>,
) -> bool {
    match o.body {
        Body::Rebase(ob) => match n {
            Body::Rebase(nb) => match a {
                Action::Save => exists|m: RebaseBody, c: Seq<Command>| #[trigger]
                    save_via(ob, m, c, nb, o.comment_char, il, rl, cmds),
                Action::SelectBy(by) => move_selection_post(ob, nb, by, Seq::empty(), cmds),
                Action::WheelAt { column, row, delta } => if pane_at_spec(o.rects, column, row)
                    == Some(Pane::Left) && table_showing(o.body) {
                    move_selection_post(ob, nb, ScrollBy::Lines(delta), Seq::empty(), cmds)
                } else if pane_at_spec(o.rects, column, row) == Some(Pane::Left) && delta != 0 {
                    nb == ob && cmds == editor_commands(
                        o.body,
                        Command::CursorRows { down: delta > 0, times: abs_int(delta as int) as usize },
                    )
                } else {
                    nb == ob && cmds.len() == 0
                },
                Action::SetInstruction(x) => set_action_post(ob, nb, x) && cmds.len() == 0,
                Action::CycleInstruction => cycle_action_post(ob, nb) && cmds.len() == 0,
                Action::MoveInstruction { up } => move_instruction_post(ob, nb, up) && cmds.len()
                    == 0,
                Action::StartInline => start_inline_post(ob, nb, Seq::empty(), cmds),
                Action::CommitInline => commit_inline_post(ob, nb, il, Seq::empty(), cmds),
                Action::CancelInline => nb == (RebaseBody { inline: false, ..ob }) && cmds == (
                if ob.inline {
                    seq![Command::CloseInline]
                } else {
                    Seq::empty()
                }),
                Action::ToggleRaw => toggle_raw_post(ob, nb, o.comment_char, rl, Seq::empty(), cmds),
                _ => nb == ob && cmds == match edit_command(a) {
                    Some(c) => editor_commands(o.body, c),
                    None => Seq::empty(),
                },
            },
            _ => false,
        },
        _ => n == o.body && match a {
            Action::WheelAt { column, row, delta } => cmds == if pane_at_spec(o.rects, column, row)
                == Some(Pane::Left) && delta != 0 {
                editor_commands(
                    o.body,
                    Command::CursorRows { down: delta > 0, times: abs_int(delta as int) as usize },
                )
            } else {
                Seq::empty()
            },
            _ => cmds == match edit_command(a) {
                Some(c) => editor_commands(o.body, c),
                None => Seq::empty(),
            },
        },
    }
}

impl App {
    fn wheel_left(&mut self, delta: isize, cmds: &mut Vec<Command>)
        requires
            old(self).wf(),
            old(cmds)@.len() == 0,
        ensures
            final(self).wf(),
            *final(self) == (App {
                body: final(self).body,
                right_scroll: final(self).right_scroll,
                ..*old(self)
            }),
            final(self).right_scroll == if table_showing(old(self).body) {
                0
            } else {
                old(self).right_scroll as int
            },
            match old(self).body {
                Body::Rebase(ob) => match final(self).body {
                    Body::Rebase(nb) => if table_showing(old(self).body) {
                        move_selection_post(ob, nb, ScrollBy::Lines(delta), Seq::empty(), final(cmds)@)
                    } else if delta != 0 {
                        nb == ob && final(cmds)@ == editor_commands(
                            old(self).body,
                            Command::CursorRows { down: delta > 0, times: abs_int(delta as int) as usize },
                        )
                    } else {
                        nb == ob && final(cmds)@.len() == 0
                    },
                    _ => false,
                },
                _ => final(self).body == old(self).body && final(cmds)@ == if delta != 0 {
                    editor_commands(
                        old(self).body,
                        Command::CursorRows { down: delta > 0, times: abs_int(delta as int) as usize },
                    )
                } else {
                    Seq::empty()
                },
            },
    {
        assert(cmds@ =~= Seq::<Command>::empty());
        match &mut self.body {
            Body::Rebase(r) => {
                if !r.inline && !r.raw {
                    r.move_selection(ScrollBy::Lines(delta), cmds);
                    self.right_scroll = 0;
                    return;
                }
            },
            _ => {},
        }
        if delta == 0 {
            return;
        }
        if self.active_editor().is_some() {
            let times: usize = if delta < 0 {
                ((-(delta + 1)) as usize) + 1
            } else {
                delta as usize
            };
            cmds.push(Command::CursorRows { down: delta > 0, times });
            assert(cmds@ =~= seq![Command::CursorRows { down: delta > 0, times }]);
        }
    }
}


impl App {
    /// Carries out an action. `inline_lines` and `raw_lines` are what the inline and raw
    /// editors hold, when they are open.
    #[verifier::spinoff_prover]
    #[verifier::rlimit(100)]
    pub fn apply(&mut self, action: Action, inline_lines: &[String], raw_lines: &[String]) -> (r: Step)
        requires
            old(self).wf(),
            action_in_range(action, *old(self)),
        ensures
            final(self).wf(),
            r.outcome == match action {
                Action::Save => Outcome::Save,
                Action::Cancel => Outcome::Cancel,
                _ => Outcome::Continue,
            },
            final(self).focus == focus_after(*old(self), action),
            (final(self).show_help, final(self).help_scroll as int) == help_after(*old(self), action),
            final(self).right_scroll == right_scroll_after(*old(self), action),
            body_post(
                *old(self),
                final(self).body,
                action,
                line_views(inline_lines@),
                line_views(raw_lines@),
                r.commands@,
            ),
            final(self).comment_char == old(self).comment_char,
            final(self).rects == old(self).rects,
            final(self).right_page == old(self).right_page,
            final(self).editor_width == old(self).editor_width,
            final(self).editor_top == old(self).editor_top,
            final(self).table_top == old(self).table_top,
            final(self).file_name == old(self).file_name,
    {
        let mut cmds: Vec<Command> = Vec::new();
        assert(cmds@ =~= Seq::<Command>::empty());
        let cc = self.comment_char;
        let outcome = match action {
            Action::Save => {
                let ghost mut after: Option<RebaseBody> = None;
                match &mut self.body {
                    Body::Rebase(r) => {
                        r.prepare_save(cc, inline_lines, raw_lines, &mut cmds);
                        proof {
                            after = Some(*r);
                        }
                    },
                    _ => {},
                }
                proof {
                    if old(self).body is Rebase {
                        let il = line_views(inline_lines@);
                        let rl = line_views(raw_lines@);
                        let (m, c) = choose|m: RebaseBody, c: Seq<Command>|
                            save_via(old(self).body->Rebase_0, m, c, after->0, cc, il, rl, cmds@);
                        lemma_body_post_save(*old(self), self.body, il, rl, cmds@, m, c);
                    }
                }
                Outcome::Save
            },
            Action::Cancel => Outcome::Cancel,
            Action::ToggleHelp => {
                self.show_help = !self.show_help;
                self.help_scroll = 0;
                Outcome::Continue
            },
            Action::ScrollHelp(delta) => {
                self.help_scroll = saturating_add_signed(self.help_scroll, delta);
                Outcome::Continue
            },
            Action::FocusLeft => {
                self.focus = Pane::Left;
                Outcome::Continue
            },
            Action::FocusRight => {
                if self.has_right() {
                    self.focus = Pane::Right;
                }
                Outcome::Continue
            },
            Action::ToggleFocus => {
                let right = self.focus == Pane::Left && self.has_right();
                self.focus = if right {
                    Pane::Right
                } else {
                    Pane::Left
                };
                Outcome::Continue
            },
            Action::ClickAt { column, row } => {
                match pane_at(&self.rects, column, row) {
                    Some(pane) => self.focus = pane,
                    None => {},
                }
                Outcome::Continue
            },
            Action::WheelAt { column, row, delta } => {
                match pane_at(&self.rects, column, row) {
                    Some(Pane::Right) => self.scroll_right(ScrollBy::Lines(delta)),
                    Some(Pane::Left) => self.wheel_left(delta, &mut cmds),
                    None => {},
                }
                Outcome::Continue
            },
            Action::ScrollRight(by) => {
                self.scroll_right(by);
                Outcome::Continue
            },
            Action::SelectBy(by) => {
                match &mut self.body {
                    Body::Rebase(r) => {
                        r.move_selection(by, &mut cmds);
                        self.right_scroll = 0;
                    },
                    _ => {},
                }
                Outcome::Continue
            },
            Action::SetInstruction(a) => {
                match &mut self.body {
                    Body::Rebase(r) => r.set_action(a),
                    _ => {},
                }
                Outcome::Continue
            },
            Action::CycleInstruction => {
                match &mut self.body {
                    Body::Rebase(r) => r.cycle_action(),
                    _ => {},
                }
                Outcome::Continue
            },
            Action::MoveInstruction { up } => {
                match &mut self.body {
                    Body::Rebase(r) => r.move_instruction(up),
                    _ => {},
                }
                Outcome::Continue
            },
            Action::StartInline => {
                match &mut self.body {
                    Body::Rebase(r) => r.start_inline(&mut cmds),
                    _ => {},
                }
                Outcome::Continue
            },
            Action::CommitInline => {
                match &mut self.body {
                    Body::Rebase(r) => r.commit_inline(inline_lines, &mut cmds),
                    _ => {},
                }
                Outcome::Continue
            },
            Action::CancelInline => {
                match &mut self.body {
                    Body::Rebase(r) => {
                        if r.inline {
                            cmds.push(Command::CloseInline);
                            assert(cmds@ =~= seq![Command::CloseInline]);
                        }
                        r.inline = false;
                    },
                    _ => {},
                }
                Outcome::Continue
            },
            Action::ToggleRaw => {
                match &mut self.body {
                    Body::Rebase(r) => r.toggle_raw(cc, raw_lines, &mut cmds),
                    _ => {},
                }
                Outcome::Continue
            },
            _ => {
                let c = match action {
                    Action::Edit(k) => Command::Input(k),
                    Action::DeleteLine => Command::DeleteLine,
                    Action::Undo => Command::Undo,
                    Action::Redo => Command::Redo,
                    Action::DeleteWord => Command::DeleteWord,
                    Action::DeleteNextWord => Command::DeleteNextWord,
                    Action::Copy => Command::Copy,
                    Action::Cut => Command::Cut,
                    Action::Paste => Command::Paste,
                    Action::CursorUp => Command::CursorRows { down: false, times: 1 },
                    _ => Command::CursorRows { down: true, times: 1 },
                };
                if self.active_editor().is_some() {
                    cmds.push(c);
                    assert(cmds@ =~= seq![c]);
                }
                Outcome::Continue
            },
        };
        Step { outcome, commands: cmds }
    }
}


impl RebaseBody {
    /// Before saving: confirms an open inline edit, then reads back an open raw editor.
    pub fn prepare_save(
        &mut self,
        cc: char,
        inline_lines: &[String],
        raw_lines: &[String],
        cmds: &mut Vec<Command>,
    )
        requires
            old(self).rewords.wf(),
            old(cmds)@.len() == 0,
        ensures
            final(self).rewords.wf(),
            exists|m: RebaseBody, c: Seq<Command>| #[trigger]
                save_via(
                    *old(self),
                    m,
                    c,
                    *final(self),
                    cc,
                    line_views(inline_lines@),
                    line_views(raw_lines@),
                    final(cmds)@,
                ),
    {
        let ghost ob = *self;
        assert(cmds@ =~= Seq::<Command>::empty());
        if self.inline {
            self.commit_inline(inline_lines, cmds);
        }
        let ghost m = *self;
        let ghost c = cmds@;
        if self.raw {
            self.toggle_raw(cc, raw_lines, cmds);
        }
        assert(save_via(ob, m, c, *self, cc, line_views(inline_lines@), line_views(raw_lines@), cmds@));
    }
}

proof fn lemma_body_post_save(
    o: App,
    n: Body,
    il: Seq<Seq<char>>,
    rl: Seq<Seq<char>>,
    cmds: Seq<Command>,
    m: RebaseBody,
    c: Seq<Command>,
)
    requires
        o.body is Rebase,
        n is Rebase,
        save_via(o.body->Rebase_0, m, c, n->Rebase_0, o.comment_char, il, rl, cmds),
    ensures
        body_post(o, n, Action::Save, il, rl, cmds),
{
}

/// Switching to raw text editing and back without editing gives back the todo file byte for
/// byte, for every todo file without carriage returns.
pub proof fn law_raw_toggle_round_trip(raw: Seq<char>, cc: char)
    requires
        forall|k: int| 0 <= k < raw.len() ==> raw[k] != '\r',
    ensures
        rebase::serialize_spec(
            parse_spec(
                raw_text(
                    str_lines(rebase::serialize_spec(parse_spec(raw, cc))),
                    parse_spec(raw, cc).final_newline,
                ),
                cc,
            ),
        ) == raw,
{
    rebase::law_todo_round_trip(raw, cc);
    crate::text::lemma_join_str_lines(raw);
    assert(raw_text(str_lines(raw), parse_spec(raw, cc).final_newline) == raw);
    rebase::law_todo_round_trip(raw, cc);
}

/// The length of a display row.
pub open spec fn seg_len(s: (int, int)) -> int {
    s.1 - s.0
}

/// Where the cursor goes one display row down or up: to the same column on the next or
/// previous row of the wrapped line (no further than that row's end), or of the next or
/// previous line; nowhere past the first or last row.
pub open spec fn display_row_target(lines: Seq<Seq<char>>, row: int, col: int, w: int, down: bool) -> Option<
    (int, int),
> {
    let segs = crate::wrap::wrap_spec(lines[row], w);
    let r = crate::wrap::row_of(segs, col, segs.len() as int);
    let c = col - segs[r].0;
    if down {
        if r + 1 < segs.len() {
            Some((row, segs[r + 1].0 + min_int(c, seg_len(segs[r + 1]))))
        } else if row + 1 < lines.len() {
            let next = crate::wrap::wrap_spec(lines[row + 1], w);
            Some((row + 1, min_int(c, seg_len(next[0]))))
        } else {
            None
        }
    } else if r > 0 {
        Some((row, segs[r - 1].0 + min_int(c, seg_len(segs[r - 1]))))
    } else if row > 0 {
        let prev = crate::wrap::wrap_spec(lines[row - 1], w);
        let last = prev.last();
        Some((row - 1, last.0 + min_int(c, seg_len(last))))
    } else {
        None
    }
}

/// Cancelling changes nothing: the focus, the help pane, the right pane's scroll and the body
/// stay as they were, and no command is handed out. (`App::apply` keeps every other field in
/// any case.)
pub proof fn law_cancel_keeps_state(
    app: App,
    n: Body,
    il: Seq<Seq<char>>,
    rl: Seq<Seq<char>>,
    cmds: Seq<Command>,
)
    ensures
        focus_after(app, Action::Cancel) == app.focus,
        help_after(app, Action::Cancel) == (app.show_help, app.help_scroll as int),
        right_scroll_after(app, Action::Cancel) == app.right_scroll,
        body_post(app, n, Action::Cancel, il, rl, cmds) ==> n == app.body && cmds.len() == 0,
{
}

/// Starting an inline edit and cancelling it leaves the rebase as it was: the todo, the
/// selection, the pending rewords and the details, with no inline edit open.
pub proof fn law_cancelled_inline_changes_nothing(
    o: App,
    m: Body,
    n: Body,
    il: Seq<Seq<char>>,
    rl: Seq<Seq<char>>,
    c1: Seq<Command>,
    c2: Seq<Command>,
)
    requires
        o.body is Rebase,
        body_post(o, m, Action::StartInline, il, rl, c1),
        body_post(App { body: m, ..o }, n, Action::CancelInline, il, rl, c2),
    ensures
        match (o.body, n) {
            (Body::Rebase(ob), Body::Rebase(nb)) => nb == (RebaseBody { inline: false, ..ob }),
            _ => false,
        },
{
}

/// Moving the selected instruction and then moving it back the other way restores the todo
/// and the selection, whenever the first move moved it.
pub proof fn law_move_back_restores(o: RebaseBody, m: RebaseBody, n: RebaseBody, up: bool, l: int, t: int)
    requires
        move_instruction_post(o, m, up),
        move_instruction_post(m, n, !up),
        selected_line_spec(o.todo@, o.selected as int) == Some(l),
        is_move_target(o.todo@.lines, l, up, t),
    ensures
        n.todo@ == o.todo@,
        n.selected == o.selected,
        n.rewords == o.rewords,
{
    rebase::law_move_undone(o.todo@.lines, l, up, t);
    assert(is_move_target(m.todo@.lines, t, !up, l));
    assert(n.todo@.lines == swap_lines(m.todo@.lines, t, l));
}

/// A plain text file comes back byte for byte: its lines as the editor gets them, written
/// back with newlines between and after them, give the file, for every file that ends in a
/// newline and holds no carriage return.
pub proof fn law_plain_round_trip(raw: Seq<char>)
    requires
        raw.len() > 0,
        raw.last() == '\n',
        forall|k: int| 0 <= k < raw.len() ==> raw[k] != '\r',
    ensures
        join(str_lines(raw), seq!['\n']).push('\n') == raw,
{
    crate::text::lemma_join_str_lines(raw);
}

/// Moves the cursor at `row`, `col` one display row up or down, following soft-wrapped rows;
/// `None` when there is no row to move to.
pub fn move_display_row(lines: &[String], row: usize, col: usize, width: usize, down: bool) -> (r: Option<
    (usize, usize),
>)
    requires
        row < lines@.len(),
    ensures
        match r {
            Some((a, b)) => display_row_target(line_views(lines@), row as int, col as int, width as int, down)
                == Some((a as int, b as int)),
            None => display_row_target(line_views(lines@), row as int, col as int, width as int, down)
                is None,
        },
{
    let ghost ls = line_views(lines@);
    let line_len = lines[row].as_str().unicode_len();
    let segments = crate::wrap::wrap(lines[row].as_str(), width);
    let ghost segs = crate::wrap::wrap_spec(ls[row as int], width as int);
    proof {
        crate::wrap::lemma_wrap_shape(ls[row as int], width as int);
        assert forall|k: int| 0 <= k < segs.len() implies crate::wrap::seg_starts(segments@)[k] as int
            == (#[trigger] segs[k]).0 by {
            assert(segments@[k].start == segs[k].0);
        }
        crate::wrap::lemma_row_of(crate::wrap::seg_starts(segments@), segs, col as int, segs.len() as int);
    }
    let (r, c) = crate::wrap::locate(&segments, col);
    let seg_count = segments.len();
    if down {
        if r + 1 < seg_count {
            let next = &segments[r + 1];
            let len = next.text.as_str().unicode_len();
            Some((row, next.start + if c < len {
                c
            } else {
                len
            }))
        } else if row + 1 < lines.len() {
            let next = crate::wrap::wrap(lines[row + 1].as_str(), width);
            proof {
                crate::wrap::lemma_wrap_shape(ls[row + 1], width as int);
            }
            let len = next[0].text.as_str().unicode_len();
            Some((row + 1, if c < len {
                c
            } else {
                len
            }))
        } else {
            None
        }
    } else if r > 0 {
        let prev = &segments[r - 1];
        let len = prev.text.as_str().unicode_len();
        Some((row, prev.start + if c < len {
            c
        } else {
            len
        }))
    } else if row > 0 {
        let prev_len = lines[row - 1].as_str().unicode_len();
        let prev = crate::wrap::wrap(lines[row - 1].as_str(), width);
        proof {
            crate::wrap::lemma_wrap_shape(ls[row - 1], width as int);
        }
        let last = &prev[prev.len() - 1];
        let len = last.text.as_str().unicode_len();
        Some((row - 1, last.start + if c < len {
            c
        } else {
            len
        }))
    } else {
        None
    }
}
} // verus!
