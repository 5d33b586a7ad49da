//! The interactive-rebase todo: instructions parsed from git's file, changed by the user, and
//! written back so that every untouched line keeps its exact bytes.
use vstd::prelude::*;

use crate::text::{
    chars_of, eq_str, has_prefix_str, is_ws, join, join_strings, lemma_join_split, lemma_lines_of,
    lines_of, lines_of_chars, push_char, slice_of, split_word, split_word_spec, starts_with,
    string_of, trim, trim_range, trim_start, trim_start_index, views,
};

verus! {

#[derive(Debug, Clone, Copy, PartialEq, Eq, Structural)]
pub enum Action {
    Pick,
    Reword,
    Edit,
    Squash,
    Fixup,
    Drop,
}

/// The action a todo keyword names, in long or short form.
pub open spec fn action_parse_spec(w: Seq<char>) -> Option<Action> {
    if w == "pick"@ || w == "p"@ {
        Some(Action::Pick)
    } else if w == "reword"@ || w == "r"@ {
        Some(Action::Reword)
    } else if w == "edit"@ || w == "e"@ {
        Some(Action::Edit)
    } else if w == "squash"@ || w == "s"@ {
        Some(Action::Squash)
    } else if w == "fixup"@ || w == "f"@ {
        Some(Action::Fixup)
    } else if w == "drop"@ || w == "d"@ {
        Some(Action::Drop)
    } else {
        None
    }
}

/// The long name of an action.
pub open spec fn action_str_spec(a: Action) -> Seq<char> {
    match a {
        Action::Pick => "pick"@,
        Action::Reword => "reword"@,
        Action::Edit => "edit"@,
        Action::Squash => "squash"@,
        Action::Fixup => "fixup"@,
        Action::Drop => "drop"@,
    }
}

/// Tab cycle: pick -> squash -> fixup -> drop -> pick; reword and edit jump to squash.
pub open spec fn cycled_spec(a: Action) -> Action {
    match a {
        Action::Pick | Action::Reword | Action::Edit => Action::Squash,
        Action::Squash => Action::Fixup,
        Action::Fixup => Action::Drop,
        Action::Drop => Action::Pick,
    }
}

/// The action a letter key sets: p r e s f d, the one-letter keywords.
pub open spec fn from_key_spec(c: char) -> Option<Action> {
    match c {
        'p' => Some(Action::Pick),
        'r' => Some(Action::Reword),
        'e' => Some(Action::Edit),
        's' => Some(Action::Squash),
        'f' => Some(Action::Fixup),
        'd' => Some(Action::Drop),
        _ => None,
    }
}

impl Action {
    pub fn parse(word: &str) -> (r: Option<Self>)
        ensures
            r == action_parse_spec(word@),
    {
        let v = chars_of(word);
        parse_action_chars(&v)
    }

    /// Letter keys p r e s f d set the action directly.
    pub fn from_key(c: char) -> (r: Option<Self>)
        ensures
            r == from_key_spec(c),
    {
        match c {
            'p' => Some(Action::Pick),
            'r' => Some(Action::Reword),
            'e' => Some(Action::Edit),
            's' => Some(Action::Squash),
            'f' => Some(Action::Fixup),
            'd' => Some(Action::Drop),
            _ => None,
        }
    }

    pub fn as_str(self) -> (r: &'static str)
        ensures
            r@ == action_str_spec(self),
    {
        match self {
            Action::Pick => "pick",
            Action::Reword => "reword",
            Action::Edit => "edit",
            Action::Squash => "squash",
            Action::Fixup => "fixup",
            Action::Drop => "drop",
        }
    }

    /// Tab cycle: pick → squash → fixup → drop → pick; reword and edit jump to squash.
    pub fn cycled(self) -> (r: Self)
        ensures
            r == cycled_spec(self),
    {
        match self {
            Action::Pick | Action::Reword | Action::Edit => Action::Squash,
            Action::Squash => Action::Fixup,
            Action::Fixup => Action::Drop,
            Action::Drop => Action::Pick,
        }
    }
}

fn parse_action_chars(v: &[char]) -> (r: Option<Action>)
    ensures
        r == action_parse_spec(v@),
{
    if eq_str(v, "pick") || eq_str(v, "p") {
        Some(Action::Pick)
    } else if eq_str(v, "reword") || eq_str(v, "r") {
        Some(Action::Reword)
    } else if eq_str(v, "edit") || eq_str(v, "e") {
        Some(Action::Edit)
    } else if eq_str(v, "squash") || eq_str(v, "s") {
        Some(Action::Squash)
    } else if eq_str(v, "fixup") || eq_str(v, "f") {
        Some(Action::Fixup)
    } else if eq_str(v, "drop") || eq_str(v, "d") {
        Some(Action::Drop)
    } else {
        None
    }
}

#[derive(Debug, Clone, PartialEq)]
pub struct CommitLine {
    pub action: Action,
    /// `-C` or `-c` on a fixup.
    pub flag: Option<String>,
    pub hash: String,
    /// Everything after the hash, verbatim. git writes `# subject`.
    pub rest: String,
    raw: String,
    original_action: Action,
    original_flag: Option<String>,
}

/// The view of an optional string.
pub open spec fn opt_view(o: Option<String>) -> Option<Seq<char>> {
    match o {
        Some(s) => Some(s@),
        None => None,
    }
}

/// A commit instruction: what it is now, and the line and settings it was read with.
pub struct CommitLineV {
    pub action: Action,
    pub flag: Option<Seq<char>>,
    pub hash: Seq<char>,
    pub rest: Seq<char>,
    pub raw: Seq<char>,
    pub original_action: Action,
    pub original_flag: Option<Seq<char>>,
}

impl View for CommitLine {
    type V = CommitLineV;

    closed spec fn view(&self) -> CommitLineV {
        CommitLineV {
            action: self.action,
            flag: opt_view(self.flag),
            hash: self.hash@,
            rest: self.rest@,
            raw: self.raw@,
            original_action: self.original_action,
            original_flag: opt_view(self.original_flag),
        }
    }
}

/// A commit instruction with its action set: a flag stays only on a fixup.
pub open spec fn with_action(c: CommitLineV, a: Action) -> CommitLineV {
    CommitLineV {
        action: a,
        flag: if a == Action::Fixup {
            c.flag
        } else {
            None
        },
        ..c
    }
}

/// How a commit instruction is written: its original line while action and flag are as read;
/// otherwise action, flag, hash and (when not empty) the rest, joined by single spaces.
pub open spec fn commit_line_text(c: CommitLineV) -> Seq<char> {
    if c.action == c.original_action && c.flag == c.original_flag {
        c.raw
    } else {
        let a = seq![action_str_spec(c.action)];
        let f = match c.flag {
            Some(f) => a.push(f),
            None => a,
        };
        let h = f.push(c.hash);
        let parts = if c.rest.len() > 0 {
            h.push(c.rest)
        } else {
            h
        };
        join(parts, seq![' '])
    }
}

/// The subject shown for a commit: `rest` without git's leading `# `.
pub open spec fn subject_spec(rest: Seq<char>) -> Seq<char> {
    if starts_with(rest, "# "@) {
        rest.skip(2)
    } else {
        rest
    }
}

impl CommitLine {
    /// The current action.
    pub fn action(&self) -> (r: Action)
        ensures
            r == self@.action,
    {
        self.action
    }

    /// The commit hash as written in the todo.
    pub fn hash(&self) -> (r: &str)
        ensures
            r@ == self@.hash,
    {
        self.hash.as_str()
    }

    /// Subject for display: `rest` without git's leading `# `.
    pub fn subject(&self) -> (r: &str)
        ensures
            r@ == subject_spec(self@.rest),
    {
        let r = self.rest.as_str();
        let v = chars_of(r);
        if has_prefix_str(&v, "# ") {
            proof {
                reveal_strlit("# ");
            }
            let n = r.unicode_len();
            r.substring_char(2, n)
        } else {
            r
        }
    }

    pub fn set_action(&mut self, action: Action)
        ensures
            final(self)@ == with_action(old(self)@, action),
    {
        self.action = action;
        if action != Action::Fixup {
            self.flag = None;
        }
    }

    fn serialize(&self) -> (r: String)
        ensures
            r@ == commit_line_text(self@),
    {
        if self.action == self.original_action && same_flag(&self.flag, &self.original_flag) {
            return self.raw.clone();
        }
        let mut parts: Vec<String> = Vec::new();
        parts.push(string_of(&chars_of(self.action.as_str())));
        match &self.flag {
            Some(flag) => parts.push(flag.clone()),
            None => {},
        }
        parts.push(self.hash.clone());
        if self.rest.as_str().unicode_len() > 0 {
            parts.push(self.rest.clone());
        }
        let ghost a = seq![action_str_spec(self.action)];
        let ghost f = match self@.flag {
            Some(fl) => a.push(fl),
            None => a,
        };
        let ghost h = f.push(self@.hash);
        assert(views(parts@) =~= if self@.rest.len() > 0 {
            h.push(self@.rest)
        } else {
            h
        });
        join_strings(&parts, ' ')
    }
}

fn same_flag(a: &Option<String>, b: &Option<String>) -> (r: bool)
    ensures
        r == (opt_view(*a) == opt_view(*b)),
{
    match (a, b) {
        (Some(x), Some(y)) => {
            let r = *x == *y;
            r
        },
        (None, None) => true,
        _ => false,
    }
}

#[derive(Debug, Clone, PartialEq)]
pub enum TodoLine {
    Commit(CommitLine),
    /// exec, break, label, reset, merge, update-ref, noop: kept verbatim.
    Other(String),
    Comment(String),
    Blank(String),
    Unknown(String),
}

/// A todo line with its strings as char sequences.
pub enum TodoLineV {
    Commit(CommitLineV),
    Other(Seq<char>),
    Comment(Seq<char>),
    Blank(Seq<char>),
    Unknown(Seq<char>),
}

impl View for TodoLine {
    type V = TodoLineV;

    open spec fn view(&self) -> TodoLineV {
        match self {
            TodoLine::Commit(c) => TodoLineV::Commit(c@),
            TodoLine::Other(s) => TodoLineV::Other(s@),
            TodoLine::Comment(s) => TodoLineV::Comment(s@),
            TodoLine::Blank(s) => TodoLineV::Blank(s@),
            TodoLine::Unknown(s) => TodoLineV::Unknown(s@),
        }
    }
}

/// Commit and other commands are instructions; comments, blanks and unknown lines are not.
pub open spec fn is_instruction_spec(l: TodoLineV) -> bool {
    l is Commit || l is Other
}

/// How a todo line is written.
pub open spec fn todo_line_text(l: TodoLineV) -> Seq<char> {
    match l {
        TodoLineV::Commit(c) => commit_line_text(c),
        TodoLineV::Other(s) => s,
        TodoLineV::Comment(s) => s,
        TodoLineV::Blank(s) => s,
        TodoLineV::Unknown(s) => s,
    }
}

impl TodoLine {
    pub fn is_instruction(&self) -> (r: bool)
        ensures
            r == is_instruction_spec(self@),
    {
        match self {
            TodoLine::Commit(_) | TodoLine::Other(_) => true,
            _ => false,
        }
    }

    fn serialize(&self) -> (r: String)
        ensures
            r@ == todo_line_text(self@),
    {
        match self {
            TodoLine::Commit(c) => c.serialize(),
            TodoLine::Other(s) => s.clone(),
            TodoLine::Comment(s) => s.clone(),
            TodoLine::Blank(s) => s.clone(),
            TodoLine::Unknown(s) => s.clone(),
        }
    }
}

/// The commands other than commits that a todo may hold, kept verbatim.
pub open spec fn other_command_spec(w: Seq<char>) -> bool {
    ||| w == "exec"@
    ||| w == "x"@
    ||| w == "break"@
    ||| w == "b"@
    ||| w == "label"@
    ||| w == "l"@
    ||| w == "reset"@
    ||| w == "t"@
    ||| w == "merge"@
    ||| w == "m"@
    ||| w == "update-ref"@
    ||| w == "u"@
    ||| w == "noop"@
}

fn is_other_command(w: &[char]) -> (r: bool)
    ensures
        r == other_command_spec(w@),
{
    eq_str(w, "exec") || eq_str(w, "x") || eq_str(w, "break") || eq_str(w, "b") || eq_str(
        w,
        "label",
    ) || eq_str(w, "l") || eq_str(w, "reset") || eq_str(w, "t") || eq_str(w, "merge")
        || eq_str(w, "m") || eq_str(w, "update-ref") || eq_str(w, "u") || eq_str(w, "noop")
}

#[derive(Debug, Clone, PartialEq)]
pub struct Todo {
    pub lines: Vec<TodoLine>,
    pub final_newline: bool,
}

/// A todo: its lines and whether the file ended with a newline.
pub struct TodoV {
    pub lines: Seq<TodoLineV>,
    pub final_newline: bool,
}

/// The views of a sequence of todo lines.
pub open spec fn todo_views(v: Seq<TodoLine>) -> Seq<TodoLineV> {
    Seq::new(v.len(), |i: int| v[i]@)
}

/// Replacing one line replaces its view.
proof fn lemma_todo_views_update()
    ensures
        forall|s: Seq<TodoLine>, i: int, x: TodoLine|
            0 <= i < s.len() ==> #[trigger] todo_views(s.update(i, x)) == todo_views(s).update(
                i,
                x@,
            ),
{
    assert forall|s: Seq<TodoLine>, i: int, x: TodoLine| 0 <= i < s.len() implies #[trigger] todo_views(
        s.update(i, x),
    ) == todo_views(s).update(i, x@) by {
        assert(todo_views(s.update(i, x)) =~= todo_views(s).update(i, x@));
    }
}

impl View for Todo {
    type V = TodoV;

    open spec fn view(&self) -> TodoV {
        TodoV { lines: todo_views(self.lines@), final_newline: self.final_newline }
    }
}

#[derive(Debug, Clone, Copy, PartialEq, Eq, Default)]
pub struct Summary {
    pub total: usize,
    pub result: usize,
    pub squash_fixup: usize,
    pub drop: usize,
    pub reword: usize,
    pub first_is_squash: bool,
}

/// How one todo line is read. A blank line and a line whose first non-blank char is the
/// comment char are kept as such. A line whose first word is an action is a commit
/// instruction: for a fixup, a following `-C ` or `-c ` is its flag; the next word is the
/// hash and the remainder the rest; without a hash the line is unknown. A line whose first
/// word is another command is kept as such; anything else is unknown.
pub open spec fn parse_line_spec(line: Seq<char>, cc: char) -> TodoLineV {
    let t = trim_start(line);
    if t.len() == 0 {
        TodoLineV::Blank(line)
    } else if t[0] == cc {
        TodoLineV::Comment(line)
    } else {
        let (word, after) = split_word_spec(t);
        match action_parse_spec(word) {
            Some(action) => {
                let has_flag = action == Action::Fixup && (starts_with(after, "-C "@)
                    || starts_with(after, "-c "@));
                let flag = if has_flag {
                    Some(after.take(2))
                } else {
                    None
                };
                let after2 = if has_flag {
                    trim_start(after.skip(3))
                } else {
                    after
                };
                let (hash, rest) = split_word_spec(after2);
                if hash.len() == 0 {
                    TodoLineV::Unknown(line)
                } else {
                    TodoLineV::Commit(
                        CommitLineV {
                            action,
                            flag,
                            hash,
                            rest,
                            raw: line,
                            original_action: action,
                            original_flag: flag,
                        },
                    )
                }
            },
            None => if other_command_spec(word) {
                TodoLineV::Other(line)
            } else {
                TodoLineV::Unknown(line)
            },
        }
    }
}

/// The todo read from `raw`: its lines (none for an empty file) and whether it ended with a
/// newline.
pub open spec fn parse_spec(raw: Seq<char>, cc: char) -> TodoV {
    TodoV {
        lines: if raw.len() == 0 {
            Seq::empty()
        } else {
            lines_of(raw).map_values(|l: Seq<char>| parse_line_spec(l, cc))
        },
        final_newline: raw.len() > 0 && raw.last() == '\n',
    }
}

/// The file text of a todo: its lines written and joined by newlines, and a final newline when
/// the file had one.
pub open spec fn serialize_spec(t: TodoV) -> Seq<char> {
    let s = join(written_lines(t), seq!['\n']);
    if t.final_newline {
        s.push('\n')
    } else {
        s
    }
}

pub fn parse(raw: &str, cc: char) -> (r: Todo)
    ensures
        r@ == parse_spec(raw@, cc),
{
    let v = chars_of(raw);
    let final_newline = v.len() > 0 && v[v.len() - 1] == '\n';
    let mut lines: Vec<TodoLine> = Vec::new();
    if v.len() > 0 {
        let parts = lines_of_chars(&v);
        let mut i: usize = 0;
        while i < parts.len()
            invariant
                i <= parts@.len(),
                parts@.len() == lines_of(v@).len(),
                forall|k: int| 0 <= k < parts@.len() ==> (#[trigger] parts@[k])@ == lines_of(v@)[k],
                lines@.len() == i,
                forall|k: int|
                    0 <= k < i ==> (#[trigger] lines@[k])@ == parse_line_spec(lines_of(v@)[k], cc),
            decreases parts@.len() - i,
        {
            lines.push(parse_line(&parts[i], cc));
            i += 1;
        }
    }
    let r = Todo { lines, final_newline };
    assert(r@.lines =~= parse_spec(raw@, cc).lines);
    r
}

fn parse_line(line: &[char], cc: char) -> (r: TodoLine)
    ensures
        r@ == parse_line_spec(line@, cc),
{
    let k = trim_start_index(line);
    let t = slice_of(line, k, line.len());
    assert(t@ =~= trim_start(line@));
    if t.len() == 0 {
        return TodoLine::Blank(string_of(line));
    }
    if t[0] == cc {
        return TodoLine::Comment(string_of(line));
    }
    let (word, after) = split_word(&t);
    match parse_action_chars(&word) {
        Some(action) => {
            let has_flag = action == Action::Fixup && (has_prefix_str(&after, "-C ")
                || has_prefix_str(&after, "-c "));
            let (flag, after2) = if has_flag {
                proof {
                    reveal_strlit("-C ");
                    reveal_strlit("-c ");
                }
                let f = slice_of(&after, 0, 2);
                let tail = slice_of(&after, 3, after.len());
                let j = trim_start_index(&tail);
                let a2 = slice_of(&tail, j, tail.len());
                assert(f@ =~= after@.take(2));
                assert(tail@ =~= after@.skip(3));
                assert(a2@ =~= tail@.skip(j as int));
                (Some(f), a2)
            } else {
                (None, after)
            };
            let (hash, rest) = split_word(&after2);
            if hash.len() == 0 {
                return TodoLine::Unknown(string_of(line));
            }
            let (flag_a, flag_b) = match &flag {
                Some(f) => (Some(string_of(f)), Some(string_of(f))),
                None => (None, None),
            };
            TodoLine::Commit(
                CommitLine {
                    action,
                    flag: flag_a,
                    hash: string_of(&hash),
                    rest: string_of(&rest),
                    raw: string_of(line),
                    original_action: action,
                    original_flag: flag_b,
                },
            )
        },
        None => {
            if is_other_command(&word) {
                TodoLine::Other(string_of(line))
            } else {
                TodoLine::Unknown(string_of(line))
            }
        },
    }
}

/// The indices of the instructions, in order.
pub open spec fn instruction_indices_spec(ls: Seq<TodoLineV>) -> Seq<int>
    decreases ls.len(),
{
    if ls.len() == 0 {
        Seq::empty()
    } else {
        let prev = instruction_indices_spec(ls.drop_last());
        if is_instruction_spec(ls.last()) {
            prev.push(ls.len() - 1)
        } else {
            prev
        }
    }
}

/// The range named by a `Rebase a..b onto c` comment: after the comment char (leading blanks
/// allowed) and trimming, the text must start with `Rebase `; the range is its next word.
pub open spec fn comment_range(c: Seq<char>, cc: char) -> Option<Seq<char>> {
    let t = trim_start(c);
    if t.len() > 0 && t[0] == cc {
        let u = trim(t.drop_first());
        if starts_with(u, "Rebase "@) {
            let w = trim_start(u.skip(7));
            if w.len() == 0 {
                None
            } else {
                Some(split_word_spec(w).0)
            }
        } else {
            None
        }
    } else {
        None
    }
}

/// The range from the first comment line that names one.
pub open spec fn range_spec(ls: Seq<TodoLineV>, cc: char, from: int) -> Option<Seq<char>>
    decreases ls.len() - from,
{
    if from < 0 || from >= ls.len() {
        None
    } else {
        match ls[from] {
            TodoLineV::Comment(c) => match comment_range(c, cc) {
                Some(r) => Some(r),
                None => range_spec(ls, cc, from + 1),
            },
            _ => range_spec(ls, cc, from + 1),
        }
    }
}

/// Counts over the commit instructions.
pub open spec fn count_commits(ls: Seq<TodoLineV>, pred: spec_fn(Action) -> bool) -> nat
    decreases ls.len(),
{
    if ls.len() == 0 {
        0
    } else {
        count_commits(ls.drop_last(), pred) + match ls.last() {
            TodoLineV::Commit(c) => if pred(c.action) {
                1nat
            } else {
                0nat
            },
            _ => 0nat,
        }
    }
}

/// The action of the first commit instruction, if any.
pub open spec fn first_commit_action(ls: Seq<TodoLineV>) -> Option<Action>
    decreases ls.len(),
{
    if ls.len() == 0 {
        None
    } else {
        match ls[0] {
            TodoLineV::Commit(c) => Some(c.action),
            _ => first_commit_action(ls.drop_first()),
        }
    }
}

pub open spec fn keeps_commit(a: Action) -> bool {
    a == Action::Pick || a == Action::Reword || a == Action::Edit
}

pub open spec fn melds(a: Action) -> bool {
    a == Action::Squash || a == Action::Fixup
}

pub open spec fn is_drop(a: Action) -> bool {
    a == Action::Drop
}

pub open spec fn is_reword(a: Action) -> bool {
    a == Action::Reword
}

impl Todo {
    pub fn serialize(&self) -> (r: String)
        ensures
            r@ == serialize_spec(self@),
    {
        let mut texts: Vec<String> = Vec::new();
        let mut i: usize = 0;
        while i < self.lines.len()
            invariant
                i <= self.lines@.len(),
                texts@.len() == i,
                forall|k: int| 0 <= k < i ==> (#[trigger] texts@[k])@ == todo_line_text(self.lines@[k]@),
            decreases self.lines@.len() - i,
        {
            texts.push(self.lines[i].serialize());
            i += 1;
        }
        assert(views(texts@) =~= self@.lines.map_values(|l: TodoLineV| todo_line_text(l)));
        let mut s = join_strings(&texts, '\n');
        if self.final_newline {
            push_char(&mut s, '\n');
        }
        s
    }

    /// The range git names in its `Rebase a..b onto c` comment.
    pub fn range(&self, cc: char) -> (r: Option<String>)
        ensures
            opt_view(r) == range_spec(self@.lines, cc, 0),
    {
        let mut i: usize = 0;
        while i < self.lines.len()
            invariant
                i <= self.lines@.len(),
                range_spec(self@.lines, cc, 0) == range_spec(self@.lines, cc, i as int),
            decreases self.lines@.len() - i,
        {
            assert(self@.lines[i as int] == self.lines@[i as int]@);
            match &self.lines[i] {
                TodoLine::Comment(c) => {
                    let v = chars_of(c.as_str());
                    match comment_range_chars(&v, cc) {
                        Some(r) => return Some(r),
                        None => {},
                    }
                },
                _ => {},
            }
            i += 1;
        }
        None
    }

    /// Indices into `lines` of instructions (commit and other commands), in file order.
    pub fn instruction_indices(&self) -> (r: Vec<usize>)
        ensures
            r@.len() == instruction_indices_spec(self@.lines).len(),
            forall|k: int|
                0 <= k < r@.len() ==> (#[trigger] r@[k]) as int == instruction_indices_spec(
                    self@.lines,
                )[k],
    {
        let mut out: Vec<usize> = Vec::new();
        let mut i: usize = 0;
        while i < self.lines.len()
            invariant
                i <= self.lines@.len(),
                out@.len() == instruction_indices_spec(self@.lines.take(i as int)).len(),
                forall|k: int|
                    0 <= k < out@.len() ==> (#[trigger] out@[k]) as int == instruction_indices_spec(
                        self@.lines.take(i as int),
                    )[k],
            decreases self.lines@.len() - i,
        {
            assert(self@.lines.take(i + 1).drop_last() =~= self@.lines.take(i as int));
            assert(self@.lines.take(i + 1).last() == self.lines@[i as int]@);
            if self.lines[i].is_instruction() {
                out.push(i);
            }
            i += 1;
        }
        assert(self@.lines.take(i as int) =~= self@.lines);
        out
    }

    pub fn commit(&self, line: usize) -> (r: Option<&CommitLine>)
        ensures
            match r {
                Some(c) => line < self@.lines.len() && self@.lines[line as int] == TodoLineV::Commit(
                    c@,
                ),
                None => line >= self@.lines.len() || !(self@.lines[line as int] is Commit),
            },
    {
        if line >= self.lines.len() {
            return None;
        }
        match &self.lines[line] {
            TodoLine::Commit(c) => Some(c),
            _ => None,
        }
    }

    pub fn commit_mut(&mut self, line: usize) -> (r: Option<&mut CommitLine>)
        ensures
            r matches Some(c) ==> line < old(self)@.lines.len(),
            r matches Some(c) ==> old(self)@.lines[line as int] == TodoLineV::Commit((*c)@),
            r matches Some(c) ==> final(self)@.final_newline == old(self)@.final_newline,
            r matches Some(c) ==> final(self)@.lines == old(self)@.lines.update(
                line as int,
                TodoLineV::Commit(final(c)@),
            ),
            r is None <==> (line >= old(self)@.lines.len() || !(old(self)@.lines[line as int] is Commit)),
            r is None ==> final(self)@ == old(self)@,
    {
        if line >= self.lines.len() {
            return None;
        }
        match &self.lines[line] {
            TodoLine::Commit(_) => {},
            _ => return None,
        }
        proof {
            lemma_todo_views_update();
        }
        match &mut self.lines[line] {
            TodoLine::Commit(c) => Some(c),
            _ => None,
        }
    }

    /// Swap the instruction at `line` with the previous or next instruction. Comments, blanks and
    /// unrecognized lines keep their positions. Returns the moved instruction's new line index.
    pub fn move_instruction(&mut self, line: usize, up: bool) -> (r: Option<usize>)
        ensures
            r matches Some(t) ==> is_move_target(old(self)@.lines, line as int, up, t as int)
                && final(self)@ == (TodoV {
                lines: swap_lines(old(self)@.lines, line as int, t as int),
                ..old(self)@
            }),
            r is None <==> !exists|t: int| is_move_target(old(self)@.lines, line as int, up, t),
            r is None ==> final(self)@ == old(self)@,
    {
        if line >= self.lines.len() || !self.lines[line].is_instruction() {
            assert(forall|t: int| !is_move_target(self@.lines, line as int, up, t));
            return None;
        }
        assert(self@.lines[line as int] == self.lines@[line as int]@);
        let mut found: Option<usize> = None;
        if up {
            let mut j: usize = line;
            while j > 0 && found.is_none()
                invariant
                    j <= line < self.lines@.len(),
                    forall|k: int| j < k < line ==> !is_instruction_spec(#[trigger] self@.lines[k]),
                    found is None ==> (j == line || !is_instruction_spec(self@.lines[j as int])),
                    found matches Some(t) ==> t == j && t < line && is_instruction_spec(
                        self@.lines[t as int],
                    ),
                decreases j, if found is None { 1int } else { 0int },
            {
                assert(self@.lines[j - 1] == self.lines@[j - 1]@);
                if self.lines[j - 1].is_instruction() {
                    found = Some(j - 1);
                }
                j -= 1;
            }
            proof {
                if found is None {
                    assert forall|t: int| !is_move_target(self@.lines, line as int, up, t) by {
                        if 0 <= t < line {
                            assert(!is_instruction_spec(self@.lines[t]));
                        }
                    }
                }
            }
        } else {
            let mut j: usize = line + 1;
            while j < self.lines.len() && found.is_none()
                invariant
                    line < j <= self.lines@.len(),
                    forall|k: int| line < k < j - 1 ==> !is_instruction_spec(#[trigger] self@.lines[k]),
                    found is None ==> (j == line + 1 || !is_instruction_spec(self@.lines[j - 1])),
                    found matches Some(t) ==> t == j - 1 && line < t && is_instruction_spec(
                        self@.lines[t as int],
                    ),
                decreases self.lines@.len() - j,
            {
                assert(self@.lines[j as int] == self.lines@[j as int]@);
                if self.lines[j].is_instruction() {
                    found = Some(j);
                }
                j += 1;
            }
            proof {
                if found is None {
                    assert forall|t: int| !is_move_target(self@.lines, line as int, up, t) by {
                        if line < t < self@.lines.len() {
                            assert(!is_instruction_spec(self@.lines[t]));
                        }
                    }
                }
            }
        }
        match found {
            Some(t) => {
                assert(is_move_target(self@.lines, line as int, up, t as int));
                proof {
                    lemma_todo_views_swap(self.lines@, line as int, t as int);
                }
                swap_todo_lines(&mut self.lines, line, t);
                Some(t)
            },
            None => None,
        }
    }

    pub fn summary(&self) -> (r: Summary)
        ensures
            (r.total as nat, r.result as nat, r.squash_fixup as nat, r.drop as nat, r.reword as nat,
            r.first_is_squash) == summary_spec(self@.lines),
    {
        let ghost ls = self@.lines;
        let mut total: usize = 0;
        let mut result: usize = 0;
        let mut squash_fixup: usize = 0;
        let mut drop: usize = 0;
        let mut reword: usize = 0;
        let mut first: Option<Action> = None;
        let mut i: usize = 0;
        while i < self.lines.len()
            invariant
                i <= self.lines@.len(),
                ls == self@.lines,
                total == count_commits(ls.take(i as int), |a: Action| true),
                result == count_commits(ls.take(i as int), |a: Action| keeps_commit(a)),
                squash_fixup == count_commits(ls.take(i as int), |a: Action| melds(a)),
                drop == count_commits(ls.take(i as int), |a: Action| is_drop(a)),
                reword == count_commits(ls.take(i as int), |a: Action| is_reword(a)),
                first == first_commit_action(ls.take(i as int)),
            decreases self.lines@.len() - i,
        {
            proof {
                let t = ls.take(i + 1);
                assert(t.drop_last() =~= ls.take(i as int));
                assert(t.last() == self.lines@[i as int]@);
                lemma_count_commits_bound(ls.take(i as int), |a: Action| true);
                lemma_count_commits_bound(ls.take(i as int), |a: Action| keeps_commit(a));
                lemma_count_commits_bound(ls.take(i as int), |a: Action| melds(a));
                lemma_count_commits_bound(ls.take(i as int), |a: Action| is_drop(a));
                lemma_count_commits_bound(ls.take(i as int), |a: Action| is_reword(a));
                lemma_first_commit_action_push(ls.take(i as int), t.last());
                assert(ls.take(i as int).push(t.last()) =~= t);
            }
            match &self.lines[i] {
                TodoLine::Commit(c) => {
                    let a = c.action;
                    total += 1;
                    match a {
                        Action::Pick | Action::Reword | Action::Edit => result += 1,
                        Action::Squash | Action::Fixup => squash_fixup += 1,
                        Action::Drop => drop += 1,
                    }
                    if a == Action::Reword {
                        reword += 1;
                    }
                    if first.is_none() {
                        first = Some(a);
                    }
                },
                _ => {},
            }
            i += 1;
        }
        assert(ls.take(i as int) =~= ls);
        let first_is_squash = match first {
            Some(a) => a == Action::Squash || a == Action::Fixup,
            None => false,
        };
        Summary { total, result, squash_fixup, drop, reword, first_is_squash }
    }
}

/// `t` is the nearest instruction before `line`.
pub open spec fn is_prev_instruction(ls: Seq<TodoLineV>, line: int, t: int) -> bool {
    &&& 0 <= t < line
    &&& is_instruction_spec(ls[t])
    &&& forall|j: int| t < j < line ==> !is_instruction_spec(#[trigger] ls[j])
}

/// `t` is the nearest instruction after `line`.
pub open spec fn is_next_instruction(ls: Seq<TodoLineV>, line: int, t: int) -> bool {
    &&& line < t < ls.len()
    &&& is_instruction_spec(ls[t])
    &&& forall|j: int| line < j < t ==> !is_instruction_spec(#[trigger] ls[j])
}

/// `t` is the instruction that the one at `line` trades places with when moved up or down:
/// the nearest instruction on that side.
pub open spec fn is_move_target(ls: Seq<TodoLineV>, line: int, up: bool, t: int) -> bool {
    &&& 0 <= line < ls.len()
    &&& is_instruction_spec(ls[line])
    &&& if up {
        is_prev_instruction(ls, line, t)
    } else {
        is_next_instruction(ls, line, t)
    }
}

/// The lines with those at `a` and `b` traded.
pub open spec fn swap_lines<T>(ls: Seq<T>, a: int, b: int) -> Seq<T> {
    ls.update(a, ls[b]).update(b, ls[a])
}

/// The summary of the commit instructions that `summary` reports.
pub open spec fn summary_spec(ls: Seq<TodoLineV>) -> (nat, nat, nat, nat, nat, bool) {
    (
        count_commits(ls, |a: Action| true),
        count_commits(ls, |a: Action| keeps_commit(a)),
        count_commits(ls, |a: Action| melds(a)),
        count_commits(ls, |a: Action| is_drop(a)),
        count_commits(ls, |a: Action| is_reword(a)),
        first_commit_action(ls) matches Some(a) && melds(a),
    )
}

proof fn lemma_count_commits_bound(ls: Seq<TodoLineV>, pred: spec_fn(Action) -> bool)
    ensures
        count_commits(ls, pred) <= ls.len(),
    decreases ls.len(),
{
    if ls.len() > 0 {
        lemma_count_commits_bound(ls.drop_last(), pred);
    }
}

/// Trades the lines at `a` and `b`.
fn swap_todo_lines(lines: &mut Vec<TodoLine>, a: usize, b: usize)
    requires
        a < old(lines)@.len(),
        b < old(lines)@.len(),
    ensures
        final(lines)@ == swap_lines(old(lines)@, a as int, b as int),
{
    if a == b {
        assert(swap_lines(lines@, a as int, b as int) =~= lines@);
        return;
    }
    let mut tmp = TodoLine::Blank(String::new());
    std::mem::swap(&mut tmp, &mut lines[a]);
    std::mem::swap(&mut tmp, &mut lines[b]);
    std::mem::swap(&mut tmp, &mut lines[a]);
    assert(lines@ =~= swap_lines(old(lines)@, a as int, b as int));
}

/// Trading two lines trades their views.
proof fn lemma_todo_views_swap(s: Seq<TodoLine>, a: int, b: int)
    requires
        0 <= a < s.len(),
        0 <= b < s.len(),
    ensures
        todo_views(swap_lines(s, a, b)) == swap_lines(todo_views(s), a, b),
{
    assert(todo_views(swap_lines(s, a, b)) =~= swap_lines(todo_views(s), a, b));
}

proof fn lemma_first_commit_action_push(ls: Seq<TodoLineV>, l: TodoLineV)
    ensures
        first_commit_action(ls.push(l)) == match first_commit_action(ls) {
            Some(a) => Some(a),
            None => match l {
                TodoLineV::Commit(c) => Some(c.action),
                _ => None,
            },
        },
    decreases ls.len(),
{
    if ls.len() == 0 {
        assert(ls.push(l).drop_first() =~= Seq::<TodoLineV>::empty());
        assert(ls.push(l)[0] == l);
        assert(first_commit_action(Seq::<TodoLineV>::empty()) is None);
    } else {
        assert(ls.push(l).drop_first() =~= ls.drop_first().push(l));
        assert(ls.push(l)[0] == ls[0]);
        lemma_first_commit_action_push(ls.drop_first(), l);
        assert(first_commit_action(ls) == match ls[0] {
            TodoLineV::Commit(c) => Some(c.action),
            _ => first_commit_action(ls.drop_first()),
        });
    }
}

fn comment_range_chars(c: &[char], cc: char) -> (r: Option<String>)
    ensures
        opt_view(r) == comment_range(c@, cc),
{
    let k = trim_start_index(c);
    let t = slice_of(c, k, c.len());
    assert(t@ =~= trim_start(c@));
    if !(t.len() > 0 && t[0] == cc) {
        return None;
    }
    let t1 = slice_of(&t, 1, t.len());
    assert(t1@ =~= t@.drop_first());
    let (a, b) = trim_range(&t1);
    let u = slice_of(&t1, a, b);
    if !has_prefix_str(&u, "Rebase ") {
        return None;
    }
    proof {
        reveal_strlit("Rebase ");
    }
    let u7 = slice_of(&u, 7, u.len());
    assert(u7@ =~= u@.skip(7));
    let j = trim_start_index(&u7);
    let w = slice_of(&u7, j, u7.len());
    assert(w@ =~= trim_start(u@.skip(7)));
    if w.len() == 0 {
        return None;
    }
    let (word, _rest) = split_word(&w);
    Some(string_of(&word))
}

/// Every line is written back as it was read.
proof fn lemma_parsed_line_text(line: Seq<char>, cc: char)
    ensures
        todo_line_text(parse_line_spec(line, cc)) == line,
{
}

/// Round trip: parsing a todo file and writing it back, with nothing changed, gives the file
/// byte for byte, for every file and comment char.
pub proof fn law_todo_round_trip(raw: Seq<char>, cc: char)
    ensures
        serialize_spec(parse_spec(raw, cc)) == raw,
{
    let t = parse_spec(raw, cc);
    if raw.len() == 0 {
        assert(t.lines.map_values(|l: TodoLineV| todo_line_text(l)) =~= Seq::<Seq<char>>::empty());
    } else {
        let ls = lines_of(raw);
        assert forall|i: int| 0 <= i < ls.len() implies todo_line_text(
            parse_line_spec(#[trigger] ls[i], cc),
        ) == ls[i] by {
            lemma_parsed_line_text(ls[i], cc);
        }
        assert(t.lines.map_values(|l: TodoLineV| todo_line_text(l)) =~= ls);
        lemma_lines_of(raw);
        if raw.last() == '\n' {
            lemma_join_split(raw.drop_last(), '\n');
            assert(raw.drop_last().push('\n') =~= raw);
        } else {
            lemma_join_split(raw, '\n');
        }
    }
}

/// Moving an instruction and then moving it back the other way restores the todo: the moved
/// instruction's one neighbour in the opposite direction is the line it came from.
pub proof fn law_move_undone(ls: Seq<TodoLineV>, line: int, up: bool, t: int)
    requires
        is_move_target(ls, line, up, t),
    ensures
        up ==> forall|u: int| #[trigger] is_move_target(swap_lines(ls, line, t), t, false, u) <==> u
            == line,
        !up ==> forall|u: int| #[trigger] is_move_target(swap_lines(ls, line, t), t, true, u) <==> u
            == line,
        swap_lines(swap_lines(ls, line, t), t, line) == ls,
{
    let s = swap_lines(ls, line, t);
    let back = !up;
    assert forall|u: int| #[trigger] is_move_target(s, t, back, u) implies u == line by {
        if u < line || u > line {
            assert(!is_instruction_spec(s[line]));
        }
    }
    if up {
        assert forall|j: int| t < j < line implies !is_instruction_spec(#[trigger] s[j]) by {
            assert(s[j] == ls[j]);
        }
    } else {
        assert forall|j: int| line < j < t implies !is_instruction_spec(#[trigger] s[j]) by {
            assert(s[j] == ls[j]);
        }
    }
    assert(is_move_target(s, t, back, line));
    assert(swap_lines(s, t, line) =~= ls);
}

/// Moving never loses or duplicates a line, and comments, blanks and unknown lines keep their
/// positions, as do the places of the instructions.
pub proof fn law_move_keeps_lines(ls: Seq<TodoLineV>, line: int, up: bool, t: int)
    requires
        is_move_target(ls, line, up, t),
    ensures
        swap_lines(ls, line, t).to_multiset() == ls.to_multiset(),
        forall|j: int|
            0 <= j < ls.len() && !is_instruction_spec(ls[j]) ==> #[trigger] swap_lines(ls, line, t)[j]
                == ls[j],
        instruction_indices_spec(swap_lines(ls, line, t)) == instruction_indices_spec(ls),
{
    broadcast use vstd::seq_lib::to_multiset_update;
    broadcast use vstd::seq_lib::to_multiset_contains;
    broadcast use vstd::multiset::group_multiset_axioms;

    let s1 = ls.update(line, ls[t]);
    let s2 = s1.update(t, ls[line]);
    assert(s1.to_multiset() == ls.to_multiset().insert(ls[t]).remove(ls[line]));
    assert(s2.to_multiset() == s1.to_multiset().insert(ls[line]).remove(s1[t]));
    assert(s1[t] == ls[t]);
    assert(ls.contains(ls[line]));
    assert(s1.contains(ls[t]));
    assert(s2.to_multiset() =~= ls.to_multiset());
    lemma_same_instruction_places(ls, s2);
}

/// Two todos with instructions at the same places have the same instruction indices.
proof fn lemma_same_instruction_places(a: Seq<TodoLineV>, b: Seq<TodoLineV>)
    requires
        a.len() == b.len(),
        forall|i: int| 0 <= i < a.len() ==> is_instruction_spec(#[trigger] a[i]) == is_instruction_spec(b[i]),
    ensures
        instruction_indices_spec(a) == instruction_indices_spec(b),
    decreases a.len(),
{
    if a.len() > 0 {
        assert forall|i: int| 0 <= i < a.drop_last().len() implies is_instruction_spec(
            #[trigger] a.drop_last()[i],
        ) == is_instruction_spec(b.drop_last()[i]) by {
            assert(a.drop_last()[i] == a[i]);
            assert(b.drop_last()[i] == b[i]);
        }
        lemma_same_instruction_places(a.drop_last(), b.drop_last());
        assert(is_instruction_spec(a.last()) == is_instruction_spec(b.last()));
    }
}

/// Every commit is kept as its own commit, melded into the one before, or dropped; rewording
/// keeps the commit.
pub proof fn law_summary_partition(ls: Seq<TodoLineV>)
    ensures
        summary_spec(ls).0 == summary_spec(ls).1 + summary_spec(ls).2 + summary_spec(ls).3,
        summary_spec(ls).4 <= summary_spec(ls).1,
    decreases ls.len(),
{
    if ls.len() > 0 {
        law_summary_partition(ls.drop_last());
    }
}

proof fn lemma_count_as_filter(
    ls: Seq<TodoLineV>,
    pred: spec_fn(Action) -> bool,
    sel: spec_fn(TodoLineV) -> bool,
)
    requires
        forall|l: TodoLineV| #[trigger] sel(l) == (l matches TodoLineV::Commit(c) && pred(c.action)),
    ensures
        count_commits(ls, pred) == ls.filter(sel).len(),
    decreases ls.len(),
{
    reveal(Seq::filter);
    if ls.len() > 0 {
        lemma_count_as_filter(ls.drop_last(), pred, sel);
    }
}

/// What the summary counts, line by line: every commit instruction; those kept as their own
/// commit (pick, reword, edit); those melded into the commit before (squash, fixup); the
/// dropped ones; and the reworded ones, whose action is reword (an edit or a pick is no
/// reword).
pub proof fn law_summary_counts(ls: Seq<TodoLineV>)
    ensures
        summary_spec(ls).0 == ls.filter(|l: TodoLineV| l is Commit).len(),
        summary_spec(ls).1 == ls.filter(
            |l: TodoLineV|
                l matches TodoLineV::Commit(c) && (c.action == Action::Pick || c.action
                    == Action::Reword || c.action == Action::Edit),
        ).len(),
        summary_spec(ls).2 == ls.filter(
            |l: TodoLineV|
                l matches TodoLineV::Commit(c) && (c.action == Action::Squash || c.action
                    == Action::Fixup),
        ).len(),
        summary_spec(ls).3 == ls.filter(
            |l: TodoLineV| l matches TodoLineV::Commit(c) && c.action == Action::Drop,
        ).len(),
        summary_spec(ls).4 == ls.filter(
            |l: TodoLineV| l matches TodoLineV::Commit(c) && c.action == Action::Reword,
        ).len(),
{
    lemma_count_as_filter(ls, |a: Action| true, |l: TodoLineV| l is Commit);
    lemma_count_as_filter(
        ls,
        |a: Action| keeps_commit(a),
        |l: TodoLineV|
            l matches TodoLineV::Commit(c) && (c.action == Action::Pick || c.action
                == Action::Reword || c.action == Action::Edit),
    );
    lemma_count_as_filter(
        ls,
        |a: Action| melds(a),
        |l: TodoLineV|
            l matches TodoLineV::Commit(c) && (c.action == Action::Squash || c.action
                == Action::Fixup),
    );
    lemma_count_as_filter(
        ls,
        |a: Action| is_drop(a),
        |l: TodoLineV| l matches TodoLineV::Commit(c) && c.action == Action::Drop,
    );
    lemma_count_as_filter(
        ls,
        |a: Action| is_reword(a),
        |l: TodoLineV| l matches TodoLineV::Commit(c) && c.action == Action::Reword,
    );
}

proof fn lemma_first_commit(ls: Seq<TodoLineV>)
    ensures
        match first_commit_action(ls) {
            Some(a) => exists|i: int|
                0 <= i < ls.len() && (#[trigger] ls[i] matches TodoLineV::Commit(c) && c.action == a)
                    && forall|j: int| 0 <= j < i ==> !(ls[j] is Commit),
            None => forall|j: int| 0 <= j < ls.len() ==> !(#[trigger] ls[j] is Commit),
        },
    decreases ls.len(),
{
    if ls.len() > 0 {
        if ls[0] is Commit {
            assert(ls[0] matches TodoLineV::Commit(c) && Some(c.action) == first_commit_action(ls));
        } else {
            let t = ls.drop_first();
            lemma_first_commit(t);
            match first_commit_action(t) {
                Some(a) => {
                    let i = choose|i: int|
                        0 <= i < t.len() && (#[trigger] t[i] matches TodoLineV::Commit(c) && c.action
                            == a) && forall|j: int| 0 <= j < i ==> !(t[j] is Commit);
                    assert(ls[i + 1] == t[i]);
                    assert forall|j: int| 0 <= j < i + 1 implies !(ls[j] is Commit) by {
                        if j > 0 {
                            assert(ls[j] == t[j - 1]);
                        }
                    }
                },
                None => {
                    assert forall|j: int| 0 <= j < ls.len() implies !(#[trigger] ls[j] is Commit) by {
                        if j > 0 {
                            assert(ls[j] == t[j - 1]);
                        }
                    }
                },
            }
        }
    }
}

/// The summary's first-is-squash flag: the first commit instruction is a squash or a fixup,
/// which has no commit before it to meld into.
pub proof fn law_first_is_squash(ls: Seq<TodoLineV>)
    ensures
        summary_spec(ls).5 <==> exists|i: int|
            0 <= i < ls.len() && (#[trigger] ls[i] matches TodoLineV::Commit(c) && (c.action
                == Action::Squash || c.action == Action::Fixup)) && forall|j: int|
                0 <= j < i ==> !(ls[j] is Commit),
{
    lemma_first_commit(ls);
    if exists|i: int|
        0 <= i < ls.len() && (#[trigger] ls[i] matches TodoLineV::Commit(c) && (c.action
            == Action::Squash || c.action == Action::Fixup)) && forall|j: int|
            0 <= j < i ==> !(ls[j] is Commit) {
        let i = choose|i: int|
            0 <= i < ls.len() && (#[trigger] ls[i] matches TodoLineV::Commit(c) && (c.action
                == Action::Squash || c.action == Action::Fixup)) && forall|j: int|
                0 <= j < i ==> !(ls[j] is Commit);
        match first_commit_action(ls) {
            Some(a) => {
                let k = choose|k: int|
                    0 <= k < ls.len() && (#[trigger] ls[k] matches TodoLineV::Commit(c) && c.action
                        == a) && forall|j: int| 0 <= j < k ==> !(ls[j] is Commit);
                if k < i {
                    assert(!(ls[k] is Commit));
                } else if i < k {
                    assert(!(ls[i] is Commit));
                }
            },
            None => {
                assert(!(ls[i] is Commit));
            },
        }
    }
}

proof fn lemma_other_command_line(w: Seq<char>, r: Seq<char>, cc: char)
    requires
        w.len() > 0,
        forall|j: int| 0 <= j < w.len() ==> !is_ws(#[trigger] w[j]),
        action_parse_spec(w) is None,
        other_command_spec(w),
        w[0] != cc,
    ensures
        parse_line_spec(w + seq![' '] + r, cc) == TodoLineV::Other(w + seq![' '] + r),
        parse_line_spec(w, cc) == TodoLineV::Other(w),
{
    let line = w + seq![' '] + r;
    assert(line[0] == w[0]);
    assert(trim_start(line) == line);
    assert(trim_start(w) == w);
    crate::text::lemma_find_ws_first(line, w.len() as int);
    assert(line.take(w.len() as int) =~= w);
    crate::text::lemma_find_ws(w);
}

/// The commands of a todo that name no commit (exec x, break b, label l, reset t, merge m,
/// update-ref u, noop) are instructions kept as they are written: a line made of such a command
/// word, alone or followed by a space and anything, reads as that line, unless the comment
/// char starts it.
pub proof fn law_other_commands(w: Seq<char>, r: Seq<char>, cc: char)
    requires
        w == "exec"@ || w == "x"@ || w == "break"@ || w == "b"@ || w == "label"@ || w == "l"@ || w
            == "reset"@ || w == "t"@ || w == "merge"@ || w == "m"@ || w == "update-ref"@ || w
            == "u"@ || w == "noop"@,
        w.len() > 0 ==> w[0] != cc,
    ensures
        parse_line_spec(w + seq![' '] + r, cc) == TodoLineV::Other(w + seq![' '] + r),
        parse_line_spec(w, cc) == TodoLineV::Other(w),
        is_instruction_spec(parse_line_spec(w + seq![' '] + r, cc)),
        is_instruction_spec(parse_line_spec(w, cc)),
{
    reveal_strlit("pick");
    reveal_strlit("p");
    reveal_strlit("reword");
    reveal_strlit("r");
    reveal_strlit("edit");
    reveal_strlit("e");
    reveal_strlit("squash");
    reveal_strlit("s");
    reveal_strlit("fixup");
    reveal_strlit("f");
    reveal_strlit("drop");
    reveal_strlit("d");
    if w == "exec"@ {
        reveal_strlit("exec");
        assert(w.len() == 4);
        assert(w != "pick"@) by {
            assert(w[0] != "pick"@[0]);
        }
        assert(w != "edit"@) by {
            assert(w[1] != "edit"@[1]);
        }
        assert(w != "drop"@) by {
            assert(w[0] != "drop"@[0]);
        }
        assert forall|j: int| 0 <= j < w.len() implies !is_ws(#[trigger] w[j]) by {
        }
        lemma_other_command_line(w, r, cc);
    }
    if w == "x"@ {
        reveal_strlit("x");
        assert(w.len() == 1);
        assert(w != "p"@) by {
            assert(w[0] != "p"@[0]);
        }
        assert(w != "r"@) by {
            assert(w[0] != "r"@[0]);
        }
        assert(w != "e"@) by {
            assert(w[0] != "e"@[0]);
        }
        assert(w != "s"@) by {
            assert(w[0] != "s"@[0]);
        }
        assert(w != "f"@) by {
            assert(w[0] != "f"@[0]);
        }
        assert(w != "d"@) by {
            assert(w[0] != "d"@[0]);
        }
        assert forall|j: int| 0 <= j < w.len() implies !is_ws(#[trigger] w[j]) by {
        }
        lemma_other_command_line(w, r, cc);
    }
    if w == "break"@ {
        reveal_strlit("break");
        assert(w.len() == 5);
        assert(w != "fixup"@) by {
            assert(w[0] != "fixup"@[0]);
        }
        assert forall|j: int| 0 <= j < w.len() implies !is_ws(#[trigger] w[j]) by {
        }
        lemma_other_command_line(w, r, cc);
    }
    if w == "b"@ {
        reveal_strlit("b");
        assert(w.len() == 1);
        assert(w != "p"@) by {
            assert(w[0] != "p"@[0]);
        }
        assert(w != "r"@) by {
            assert(w[0] != "r"@[0]);
        }
        assert(w != "e"@) by {
            assert(w[0] != "e"@[0]);
        }
        assert(w != "s"@) by {
            assert(w[0] != "s"@[0]);
        }
        assert(w != "f"@) by {
            assert(w[0] != "f"@[0]);
        }
        assert(w != "d"@) by {
            assert(w[0] != "d"@[0]);
        }
        assert forall|j: int| 0 <= j < w.len() implies !is_ws(#[trigger] w[j]) by {
        }
        lemma_other_command_line(w, r, cc);
    }
    if w == "label"@ {
        reveal_strlit("label");
        assert(w.len() == 5);
        assert(w != "fixup"@) by {
            assert(w[0] != "fixup"@[0]);
        }
        assert forall|j: int| 0 <= j < w.len() implies !is_ws(#[trigger] w[j]) by {
        }
        lemma_other_command_line(w, r, cc);
    }
    if w == "l"@ {
        reveal_strlit("l");
        assert(w.len() == 1);
        assert(w != "p"@) by {
            assert(w[0] != "p"@[0]);
        }
        assert(w != "r"@) by {
            assert(w[0] != "r"@[0]);
        }
        assert(w != "e"@) by {
            assert(w[0] != "e"@[0]);
        }
        assert(w != "s"@) by {
            assert(w[0] != "s"@[0]);
        }
        assert(w != "f"@) by {
            assert(w[0] != "f"@[0]);
        }
        assert(w != "d"@) by {
            assert(w[0] != "d"@[0]);
        }
        assert forall|j: int| 0 <= j < w.len() implies !is_ws(#[trigger] w[j]) by {
        }
        lemma_other_command_line(w, r, cc);
    }
    if w == "reset"@ {
        reveal_strlit("reset");
        assert(w.len() == 5);
        assert(w != "fixup"@) by {
            assert(w[0] != "fixup"@[0]);
        }
        assert forall|j: int| 0 <= j < w.len() implies !is_ws(#[trigger] w[j]) by {
        }
        lemma_other_command_line(w, r, cc);
    }
    if w == "t"@ {
        reveal_strlit("t");
        assert(w.len() == 1);
        assert(w != "p"@) by {
            assert(w[0] != "p"@[0]);
        }
        assert(w != "r"@) by {
            assert(w[0] != "r"@[0]);
        }
        assert(w != "e"@) by {
            assert(w[0] != "e"@[0]);
        }
        assert(w != "s"@) by {
            assert(w[0] != "s"@[0]);
        }
        assert(w != "f"@) by {
            assert(w[0] != "f"@[0]);
        }
        assert(w != "d"@) by {
            assert(w[0] != "d"@[0]);
        }
        assert forall|j: int| 0 <= j < w.len() implies !is_ws(#[trigger] w[j]) by {
        }
        lemma_other_command_line(w, r, cc);
    }
    if w == "merge"@ {
        reveal_strlit("merge");
        assert(w.len() == 5);
        assert(w != "fixup"@) by {
            assert(w[0] != "fixup"@[0]);
        }
        assert forall|j: int| 0 <= j < w.len() implies !is_ws(#[trigger] w[j]) by {
        }
        lemma_other_command_line(w, r, cc);
    }
    if w == "m"@ {
        reveal_strlit("m");
        assert(w.len() == 1);
        assert(w != "p"@) by {
            assert(w[0] != "p"@[0]);
        }
        assert(w != "r"@) by {
            assert(w[0] != "r"@[0]);
        }
        assert(w != "e"@) by {
            assert(w[0] != "e"@[0]);
        }
        assert(w != "s"@) by {
            assert(w[0] != "s"@[0]);
        }
        assert(w != "f"@) by {
            assert(w[0] != "f"@[0]);
        }
        assert(w != "d"@) by {
            assert(w[0] != "d"@[0]);
        }
        assert forall|j: int| 0 <= j < w.len() implies !is_ws(#[trigger] w[j]) by {
        }
        lemma_other_command_line(w, r, cc);
    }
    if w == "update-ref"@ {
        reveal_strlit("update-ref");
        assert(w.len() == 10);
        assert forall|j: int| 0 <= j < w.len() implies !is_ws(#[trigger] w[j]) by {
        }
        lemma_other_command_line(w, r, cc);
    }
    if w == "u"@ {
        reveal_strlit("u");
        assert(w.len() == 1);
        assert(w != "p"@) by {
            assert(w[0] != "p"@[0]);
        }
        assert(w != "r"@) by {
            assert(w[0] != "r"@[0]);
        }
        assert(w != "e"@) by {
            assert(w[0] != "e"@[0]);
        }
        assert(w != "s"@) by {
            assert(w[0] != "s"@[0]);
        }
        assert(w != "f"@) by {
            assert(w[0] != "f"@[0]);
        }
        assert(w != "d"@) by {
            assert(w[0] != "d"@[0]);
        }
        assert forall|j: int| 0 <= j < w.len() implies !is_ws(#[trigger] w[j]) by {
        }
        lemma_other_command_line(w, r, cc);
    }
    if w == "noop"@ {
        reveal_strlit("noop");
        assert(w.len() == 4);
        assert(w != "pick"@) by {
            assert(w[0] != "pick"@[0]);
        }
        assert(w != "edit"@) by {
            assert(w[0] != "edit"@[0]);
        }
        assert(w != "drop"@) by {
            assert(w[0] != "drop"@[0]);
        }
        assert forall|j: int| 0 <= j < w.len() implies !is_ws(#[trigger] w[j]) by {
        }
        lemma_other_command_line(w, r, cc);
    }
}

/// An action's long name reads back as that action, and so does the key of its first letter.
pub proof fn law_action_names(a: Action)
    ensures
        action_parse_spec(action_str_spec(a)) == Some(a),
        from_key_spec(action_str_spec(a)[0]) == Some(a),
{
    reveal_strlit("pick");
    reveal_strlit("reword");
    reveal_strlit("edit");
    reveal_strlit("squash");
    reveal_strlit("fixup");
    reveal_strlit("drop");
    reveal_strlit("p");
    reveal_strlit("r");
    reveal_strlit("e");
    reveal_strlit("s");
    reveal_strlit("f");
    reveal_strlit("d");
}

/// Tab walks pick, squash, fixup and drop round in four presses; reword and edit join that
/// round at squash.
pub proof fn law_cycle(a: Action)
    ensures
        cycled_spec(cycled_spec(cycled_spec(cycled_spec(a)))) == a || a == Action::Reword || a
            == Action::Edit,
        cycled_spec(a) != a,
{
}


/// The instruction indices are in range, point at instructions, and increase.
pub proof fn lemma_instruction_indices(ls: Seq<TodoLineV>)
    ensures
        forall|k: int|
            0 <= k < instruction_indices_spec(ls).len() ==> 0 <= #[trigger] instruction_indices_spec(ls)[k]
                < ls.len() && is_instruction_spec(ls[instruction_indices_spec(ls)[k]]),
        forall|j: int, k: int|
            0 <= j < k < instruction_indices_spec(ls).len() ==> #[trigger] instruction_indices_spec(
                ls,
            )[j] < #[trigger] instruction_indices_spec(ls)[k],
        forall|i: int|
            0 <= i < ls.len() && is_instruction_spec(#[trigger] ls[i]) ==> exists|k: int|
                0 <= k < instruction_indices_spec(ls).len() && instruction_indices_spec(ls)[k] == i,
        instruction_indices_spec(ls).len() <= ls.len(),
    decreases ls.len(),
{
    if ls.len() > 0 {
        let prev = ls.drop_last();
        lemma_instruction_indices(prev);
        let pi = instruction_indices_spec(prev);
        let ii = instruction_indices_spec(ls);
        assert forall|i: int| 0 <= i < ls.len() && is_instruction_spec(#[trigger] ls[i]) implies exists|k: int|
            0 <= k < ii.len() && ii[k] == i by {
            if i < ls.len() - 1 {
                assert(prev[i] == ls[i]);
                let k = choose|k: int| 0 <= k < pi.len() && pi[k] == i;
                assert(ii[k] == pi[k]);
            } else {
                assert(ii[ii.len() - 1] == i);
            }
        }
        assert forall|k: int| 0 <= k < ii.len() implies 0 <= #[trigger] ii[k] < ls.len()
            && is_instruction_spec(ls[ii[k]]) by {
            if k < pi.len() {
                assert(ii[k] == pi[k]);
                assert(prev[pi[k]] == ls[pi[k]]);
            }
        }
    }
}

/// Moving the instruction at position `p` of the instruction order trades it with the one at
/// position `p - 1` (up) or `p + 1` (down).
pub proof fn lemma_move_target_position(ls: Seq<TodoLineV>, p: int, up: bool, t: int)
    requires
        0 <= p < instruction_indices_spec(ls).len(),
        is_move_target(ls, instruction_indices_spec(ls)[p], up, t),
    ensures
        up ==> p > 0 && instruction_indices_spec(ls)[p - 1] == t,
        !up ==> p + 1 < instruction_indices_spec(ls).len() && instruction_indices_spec(ls)[p + 1] == t,
{
    lemma_instruction_indices(ls);
    let ii = instruction_indices_spec(ls);
    let line = ii[p];
    let q = choose|k: int| 0 <= k < ii.len() && ii[k] == t;
    if up {
        assert(q < p) by {
            if q >= p {
                if q > p {
                    assert(ii[p] < ii[q]);
                }
            }
        }
        if q < p - 1 {
            assert(ii[q] < ii[p - 1] && ii[p - 1] < ii[p]);
            assert(!is_instruction_spec(ls[ii[p - 1]]));
        }
    } else {
        assert(q > p) by {
            if q <= p {
                if q < p {
                    assert(ii[q] < ii[p]);
                }
            }
        }
        if q > p + 1 {
            assert(ii[p] < ii[p + 1] && ii[p + 1] < ii[q]);
            assert(!is_instruction_spec(ls[ii[p + 1]]));
        }
    }
}

/// The lines a todo is written as.
pub open spec fn written_lines(t: TodoV) -> Seq<Seq<char>> {
    t.lines.map_values(|l: TodoLineV| todo_line_text(l))
}

/// Changing the action of one commit instruction rewrites only that line of the file: every
/// other line is written as before. An instruction whose action and flag are as read is
/// written exactly as it was read.
pub proof fn law_action_change_rewrites_one_line(t: TodoV, k: int, c: CommitLineV, a: Action)
    requires
        0 <= k < t.lines.len(),
        t.lines[k] == TodoLineV::Commit(c),
    ensures
        written_lines(TodoV { lines: t.lines.update(k, TodoLineV::Commit(with_action(c, a))), ..t }).len()
            == written_lines(t).len(),
        forall|j: int|
            0 <= j < t.lines.len() && j != k ==> #[trigger] written_lines(
                TodoV { lines: t.lines.update(k, TodoLineV::Commit(with_action(c, a))), ..t },
            )[j] == written_lines(t)[j],
        with_action(c, a).action == c.original_action && with_action(c, a).flag == c.original_flag
            ==> todo_line_text(TodoLineV::Commit(with_action(c, a))) == c.raw,
{
}

} // verus!
