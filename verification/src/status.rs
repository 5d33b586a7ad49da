//! The comment trailer of a commit message read as git's status report: the branch and its
//! upstream, merge, rebase and squash notes, and the lists of files, each in its own section.
use vstd::prelude::*;

use crate::message::{is_scissors, is_scissors_spec};
use crate::view::{fg_spec, lines_view, minus_or_zero, plain_spec, span, spans_view, Color, Span, Style};
use crate::wrap::{wrap, wrap_texts};
use crate::text::{
    chars_of, contains_seq, contains_str, decimal_spec, decimal_string, ends_with, eq_str,
    extend_chars, extend_str, find, find_char, find_seq, first_occ_from, has_prefix_str,
    has_suffix_str, last_occ, lemma_first_occ, parse_u32, parse_u32_spec, rfind_seq, slice_of,
    starts_with, string_of, trim, trim_end, trim_end_index, trimmed, words, words_of,
};

verus! {

#[derive(Debug, Clone, Copy, PartialEq, Eq, PartialOrd, Ord, Structural)]
pub enum SectionKind {
    Branch,
    Merge,
    Rebase,
    Squash,
    Conflicts,
    Staged,
    Unstaged,
    SubmodulesStaged,
    SubmodulesNotUpdated,
    Untracked,
    Other,
    Diff,
}

/// The place of a kind in the order sections are shown in.
pub open spec fn kind_rank(k: SectionKind) -> int {
    match k {
        SectionKind::Branch => 0,
        SectionKind::Merge => 1,
        SectionKind::Rebase => 2,
        SectionKind::Squash => 3,
        SectionKind::Conflicts => 4,
        SectionKind::Staged => 5,
        SectionKind::Unstaged => 6,
        SectionKind::SubmodulesStaged => 7,
        SectionKind::SubmodulesNotUpdated => 8,
        SectionKind::Untracked => 9,
        SectionKind::Other => 10,
        SectionKind::Diff => 11,
    }
}

/// The kind at a place in the order.
pub open spec fn kind_at(r: int) -> SectionKind {
    if r <= 0 {
        SectionKind::Branch
    } else if r == 1 {
        SectionKind::Merge
    } else if r == 2 {
        SectionKind::Rebase
    } else if r == 3 {
        SectionKind::Squash
    } else if r == 4 {
        SectionKind::Conflicts
    } else if r == 5 {
        SectionKind::Staged
    } else if r == 6 {
        SectionKind::Unstaged
    } else if r == 7 {
        SectionKind::SubmodulesStaged
    } else if r == 8 {
        SectionKind::SubmodulesNotUpdated
    } else if r == 9 {
        SectionKind::Untracked
    } else if r == 10 {
        SectionKind::Other
    } else {
        SectionKind::Diff
    }
}

/// The header a section is shown under.
pub open spec fn title_spec(k: SectionKind) -> Seq<char> {
    match k {
        SectionKind::Branch => "Branch"@,
        SectionKind::Merge => "Merge"@,
        SectionKind::Rebase => "Rebase"@,
        SectionKind::Squash => "Squash"@,
        SectionKind::Conflicts => "Conflicts"@,
        SectionKind::Staged => "Staged"@,
        SectionKind::Unstaged => "Unstaged"@,
        SectionKind::SubmodulesStaged => "Submodules staged"@,
        SectionKind::SubmodulesNotUpdated => "Submodules not updated"@,
        SectionKind::Untracked => "Untracked"@,
        SectionKind::Other => "Other"@,
        SectionKind::Diff => "Diff"@,
    }
}

/// Sections whose header shows how many entries they list.
pub open spec fn counted_spec(k: SectionKind) -> bool {
    k == SectionKind::Conflicts || k == SectionKind::Staged || k == SectionKind::Unstaged || k
        == SectionKind::SubmodulesStaged || k == SectionKind::SubmodulesNotUpdated || k
        == SectionKind::Untracked
}

/// The section a heading line opens.
pub open spec fn from_heading_spec(t: Seq<char>) -> Option<SectionKind> {
    if t == "Conflicts:"@ || t == "Unmerged paths:"@ {
        Some(SectionKind::Conflicts)
    } else if t == "Changes to be committed:"@ {
        Some(SectionKind::Staged)
    } else if t == "Changes not staged for commit:"@ {
        Some(SectionKind::Unstaged)
    } else if t == "Submodule changes to be committed:"@ {
        Some(SectionKind::SubmodulesStaged)
    } else if t == "Submodules changed but not updated:"@ {
        Some(SectionKind::SubmodulesNotUpdated)
    } else if t == "Untracked files:"@ {
        Some(SectionKind::Untracked)
    } else {
        None
    }
}

impl SectionKind {
    /// The place of this kind in the order sections are shown in.
    pub fn rank(self) -> (r: usize)
        ensures
            r as int == kind_rank(self),
            kind_at(r as int) == self,
    {
        match self {
            SectionKind::Branch => 0,
            SectionKind::Merge => 1,
            SectionKind::Rebase => 2,
            SectionKind::Squash => 3,
            SectionKind::Conflicts => 4,
            SectionKind::Staged => 5,
            SectionKind::Unstaged => 6,
            SectionKind::SubmodulesStaged => 7,
            SectionKind::SubmodulesNotUpdated => 8,
            SectionKind::Untracked => 9,
            SectionKind::Other => 10,
            SectionKind::Diff => 11,
        }
    }

    /// The kind at a place in the order.
    pub fn at_rank(r: usize) -> (k: SectionKind)
        requires
            r < 12,
        ensures
            k == kind_at(r as int),
            kind_rank(k) == r,
    {
        if r == 0 {
            SectionKind::Branch
        } else if r == 1 {
            SectionKind::Merge
        } else if r == 2 {
            SectionKind::Rebase
        } else if r == 3 {
            SectionKind::Squash
        } else if r == 4 {
            SectionKind::Conflicts
        } else if r == 5 {
            SectionKind::Staged
        } else if r == 6 {
            SectionKind::Unstaged
        } else if r == 7 {
            SectionKind::SubmodulesStaged
        } else if r == 8 {
            SectionKind::SubmodulesNotUpdated
        } else if r == 9 {
            SectionKind::Untracked
        } else if r == 10 {
            SectionKind::Other
        } else {
            SectionKind::Diff
        }
    }

    pub fn title(self) -> (r: &'static str)
        ensures
            r@ == title_spec(self),
    {
        match self {
            SectionKind::Branch => "Branch",
            SectionKind::Merge => "Merge",
            SectionKind::Rebase => "Rebase",
            SectionKind::Squash => "Squash",
            SectionKind::Conflicts => "Conflicts",
            SectionKind::Staged => "Staged",
            SectionKind::Unstaged => "Unstaged",
            SectionKind::SubmodulesStaged => "Submodules staged",
            SectionKind::SubmodulesNotUpdated => "Submodules not updated",
            SectionKind::Untracked => "Untracked",
            SectionKind::Other => "Other",
            SectionKind::Diff => "Diff",
        }
    }

    /// Sections whose header shows how many entries they list.
    pub fn counted(self) -> (r: bool)
        ensures
            r == counted_spec(self),
    {
        match self {
            SectionKind::Conflicts | SectionKind::Staged | SectionKind::Unstaged
            | SectionKind::SubmodulesStaged | SectionKind::SubmodulesNotUpdated
            | SectionKind::Untracked => true,
            _ => false,
        }
    }

    fn from_heading(t: &[char]) -> (r: Option<Self>)
        ensures
            r == from_heading_spec(t@),
    {
        if eq_str(t, "Conflicts:") || eq_str(t, "Unmerged paths:") {
            Some(SectionKind::Conflicts)
        } else if eq_str(t, "Changes to be committed:") {
            Some(SectionKind::Staged)
        } else if eq_str(t, "Changes not staged for commit:") {
            Some(SectionKind::Unstaged)
        } else if eq_str(t, "Submodule changes to be committed:") {
            Some(SectionKind::SubmodulesStaged)
        } else if eq_str(t, "Submodules changed but not updated:") {
            Some(SectionKind::SubmodulesNotUpdated)
        } else if eq_str(t, "Untracked files:") {
            Some(SectionKind::Untracked)
        } else {
            None
        }
    }
}

#[derive(Debug, Clone, PartialEq)]
pub enum Entry {
    File { badge: char, path: String, suffix: Option<String> },
    Submodule(String),
    Commit(String),
    Warning(String),
    Text(String),
    DiffLine(String),
}

/// An entry with its strings as char sequences.
pub enum EntryV {
    File { badge: char, path: Seq<char>, suffix: Option<Seq<char>> },
    Submodule(Seq<char>),
    Commit(Seq<char>),
    Warning(Seq<char>),
    Text(Seq<char>),
    DiffLine(Seq<char>),
}

/// The view of an optional string.
pub open spec fn opt_str_view(o: Option<String>) -> Option<Seq<char>> {
    match o {
        Some(s) => Some(s@),
        None => None,
    }
}

impl View for Entry {
    type V = EntryV;

    open spec fn view(&self) -> EntryV {
        match self {
            Entry::File { badge, path, suffix } => EntryV::File {
                badge: *badge,
                path: path@,
                suffix: opt_str_view(*suffix),
            },
            Entry::Submodule(s) => EntryV::Submodule(s@),
            Entry::Commit(s) => EntryV::Commit(s@),
            Entry::Warning(s) => EntryV::Warning(s@),
            Entry::Text(s) => EntryV::Text(s@),
            Entry::DiffLine(s) => EntryV::DiffLine(s@),
        }
    }
}

/// The views of a sequence of entries.
pub open spec fn entry_views(v: Seq<Entry>) -> Seq<EntryV> {
    Seq::new(v.len(), |i: int| v[i]@)
}

#[derive(Debug, Clone, PartialEq)]
pub struct Section {
    pub kind: SectionKind,
    pub entries: Vec<Entry>,
}

/// A section: its kind and its entries.
pub struct SectionV {
    pub kind: SectionKind,
    pub entries: Seq<EntryV>,
}

impl View for Section {
    type V = SectionV;

    open spec fn view(&self) -> SectionV {
        SectionV { kind: self.kind, entries: entry_views(self.entries@) }
    }
}

/// The entries that a counted header counts: files and submodules.
pub open spec fn count_spec(es: Seq<EntryV>) -> nat
    decreases es.len(),
{
    if es.len() == 0 {
        0
    } else {
        count_spec(es.drop_last()) + if es.last() is File || es.last() is Submodule {
            1nat
        } else {
            0nat
        }
    }
}

proof fn lemma_count_bound(es: Seq<EntryV>)
    ensures
        count_spec(es) <= es.len(),
    decreases es.len(),
{
    if es.len() > 0 {
        lemma_count_bound(es.drop_last());
    }
}

impl Section {
    pub fn count(&self) -> (r: usize)
        ensures
            r == count_spec(self@.entries),
    {
        let ghost es = self@.entries;
        let mut n: usize = 0;
        let mut i: usize = 0;
        while i < self.entries.len()
            invariant
                i <= self.entries@.len(),
                es == self@.entries,
                n == count_spec(es.take(i as int)),
            decreases self.entries@.len() - i,
        {
            proof {
                assert(es.take(i + 1).drop_last() =~= es.take(i as int));
                assert(es.take(i + 1).last() == self.entries@[i as int]@);
                lemma_count_bound(es.take(i as int));
            }
            match &self.entries[i] {
                Entry::File { .. } | Entry::Submodule(_) => n += 1,
                _ => {},
            }
            i += 1;
        }
        assert(es.take(i as int) =~= es);
        n
    }
}

#[derive(Debug, Clone, PartialEq)]
pub struct Status {
    pub branch: Option<String>,
    pub sections: Vec<Section>,
}

/// A status: the branch name and the sections, in the order they are shown.
pub struct StatusV {
    pub branch: Option<Seq<char>>,
    pub sections: Seq<SectionV>,
}

/// The views of a sequence of sections.
pub open spec fn section_views(v: Seq<Section>) -> Seq<SectionV> {
    Seq::new(v.len(), |i: int| v[i]@)
}

impl View for Status {
    type V = StatusV;

    open spec fn view(&self) -> StatusV {
        StatusV { branch: opt_str_view(self.branch), sections: section_views(self.sections@) }
    }
}

/// The index of the first section of kind `k` at or after `from`.
pub open spec fn find_section(ss: Seq<SectionV>, k: SectionKind, from: int) -> Option<int>
    decreases ss.len() - from,
{
    if from < 0 || from >= ss.len() {
        None
    } else if ss[from].kind == k {
        Some(from)
    } else {
        find_section(ss, k, from + 1)
    }
}

impl Status {
    pub fn is_empty(&self) -> (r: bool)
        ensures
            r == (self@.sections.len() == 0),
    {
        self.sections.len() == 0
    }

    /// The section of kind `kind`, if the status has one.
    pub fn section(&self, kind: SectionKind) -> (r: Option<&Section>)
        ensures
            match r {
                Some(s) => find_section(self@.sections, kind, 0) matches Some(i) && self@.sections[i]
                    == s@,
                None => find_section(self@.sections, kind, 0) is None,
            },
    {
        let mut i: usize = 0;
        while i < self.sections.len()
            invariant
                i <= self.sections@.len(),
                find_section(self@.sections, kind, 0) == find_section(self@.sections, kind, i as int),
            decreases self.sections@.len() - i,
        {
            assert(self@.sections[i as int] == self.sections@[i as int]@);
            if self.sections[i].kind == kind {
                return Some(&self.sections[i]);
            }
            i += 1;
        }
        None
    }
}


/// Comment lines git writes around every status that say nothing about this commit.
pub open spec fn is_boilerplate_spec(t: Seq<char>) -> bool {
    ||| starts_with(t, "Please enter the commit message"@)
    ||| starts_with(t, "Please enter a commit message"@)
    ||| starts_with(t, "with '"@)
    ||| starts_with(t, "Lines starting with"@)
    ||| starts_with(t, "Write a message for tag"@)
    ||| (starts_with(t, "("@) && ends_with(t, ")"@))
    ||| t == "If this is not correct, please run"@
    ||| t == "git update-ref -d MERGE_HEAD"@
    ||| t == "and try again."@
    ||| t == "Do not modify or remove the line above."@
    ||| t == "Everything below it will be ignored."@
}

fn is_boilerplate(t: &[char]) -> (r: bool)
    ensures
        r == is_boilerplate_spec(t@),
{
    has_prefix_str(t, "Please enter the commit message") || has_prefix_str(
        t,
        "Please enter a commit message",
    ) || has_prefix_str(t, "with '") || has_prefix_str(t, "Lines starting with")
        || has_prefix_str(t, "Write a message for tag") || (has_prefix_str(t, "(")
        && has_suffix_str(t, ")")) || eq_str(t, "If this is not correct, please run") || eq_str(
        t,
        "git update-ref -d MERGE_HEAD",
    ) || eq_str(t, "and try again.") || eq_str(t, "Do not modify or remove the line above.")
        || eq_str(t, "Everything below it will be ignored.")
}

/// The section a note about merge, rebase or squash state goes to.
pub open spec fn state_line_kind_spec(t: Seq<char>) -> Option<SectionKind> {
    if starts_with(t, "It looks like you may be committing a merge"@) || starts_with(
        t,
        "All conflicts fixed but you are still merging"@,
    ) || starts_with(t, "You have unmerged paths"@) {
        Some(SectionKind::Merge)
    } else if starts_with(t, "interactive rebase in progress"@) || starts_with(t, "Last command"@)
        || starts_with(t, "Next command"@) || starts_with(t, "No commands remaining"@)
        || starts_with(t, "You are currently"@) {
        Some(SectionKind::Rebase)
    } else if starts_with(t, "This is a combination of"@) || starts_with(t, "This is the "@) || (
    starts_with(t, "The "@) && contains_seq(t, "commit message"@)) {
        Some(SectionKind::Squash)
    } else {
        None
    }
}

fn state_line_kind(t: &[char]) -> (r: Option<SectionKind>)
    ensures
        r == state_line_kind_spec(t@),
{
    if has_prefix_str(t, "It looks like you may be committing a merge") || has_prefix_str(
        t,
        "All conflicts fixed but you are still merging",
    ) || has_prefix_str(t, "You have unmerged paths") {
        Some(SectionKind::Merge)
    } else if has_prefix_str(t, "interactive rebase in progress") || has_prefix_str(
        t,
        "Last command",
    ) || has_prefix_str(t, "Next command") || has_prefix_str(t, "No commands remaining")
        || has_prefix_str(t, "You are currently") {
        Some(SectionKind::Rebase)
    } else if has_prefix_str(t, "This is a combination of") || has_prefix_str(t, "This is the ")
        || (has_prefix_str(t, "The ") && contains_str(t, "commit message")) {
        Some(SectionKind::Squash)
    } else {
        None
    }
}

/// The badge a file status word gets.
pub open spec fn status_badge_spec(s: Seq<char>) -> Option<char> {
    if s == "modified"@ {
        Some('M')
    } else if s == "new file"@ {
        Some('A')
    } else if s == "deleted"@ {
        Some('D')
    } else if s == "renamed"@ {
        Some('R')
    } else if s == "copied"@ {
        Some('C')
    } else if s == "typechange"@ {
        Some('T')
    } else if s == "both modified"@ || s == "both added"@ || s == "both deleted"@ || s
        == "added by us"@ || s == "added by them"@ || s == "deleted by us"@ || s
        == "deleted by them"@ || s == "unmerged"@ {
        Some('U')
    } else {
        None
    }
}

fn status_badge(s: &[char]) -> (r: Option<char>)
    ensures
        r == status_badge_spec(s@),
{
    if eq_str(s, "modified") {
        Some('M')
    } else if eq_str(s, "new file") {
        Some('A')
    } else if eq_str(s, "deleted") {
        Some('D')
    } else if eq_str(s, "renamed") {
        Some('R')
    } else if eq_str(s, "copied") {
        Some('C')
    } else if eq_str(s, "typechange") {
        Some('T')
    } else if eq_str(s, "both modified") || eq_str(s, "both added") || eq_str(s, "both deleted")
        || eq_str(s, "added by us") || eq_str(s, "added by them") || eq_str(s, "deleted by us")
        || eq_str(s, "deleted by them") || eq_str(s, "unmerged") {
        Some('U')
    } else {
        None
    }
}

/// A file line of a section: `status: path`, or just the path (untracked files, or a status
/// word that is not known). A trailing ` (...)` after the path is its suffix.
pub open spec fn parse_file_spec(t: Seq<char>, kind: SectionKind) -> EntryV {
    let fallback = if kind == SectionKind::Untracked {
        '?'
    } else {
        'U'
    };
    let (badge, rest) = match find(t, ':') {
        Some(i) => match status_badge_spec(t.take(i)) {
            Some(b) => (b, trim(t.skip(i + 1))),
            None => (fallback, t),
        },
        None => (fallback, t),
    };
    match last_occ(rest, " ("@) {
        Some(j) => if ends_with(rest.skip(j + 2), ")"@) {
            EntryV::File {
                badge,
                path: rest.take(j),
                suffix: Some(seq!['('] + rest.skip(j + 2)),
            }
        } else {
            EntryV::File { badge, path: rest, suffix: None }
        },
        None => EntryV::File { badge, path: rest, suffix: None },
    }
}

fn parse_file(t: &[char], kind: SectionKind) -> (r: Entry)
    ensures
        r@ == parse_file_spec(t@, kind),
{
    let fallback = if kind == SectionKind::Untracked {
        '?'
    } else {
        'U'
    };
    let (badge, rest) = match find_char(t, ':') {
        Some(i) => {
            let status = slice_of(t, 0, i);
            assert(status@ =~= t@.take(i as int));
            match status_badge(&status) {
                Some(b) => {
                    let after = slice_of(t, i + 1, t.len());
                    assert(after@ =~= t@.skip(i + 1));
                    (b, trimmed(&after))
                },
                None => (fallback, slice_of(t, 0, t.len())),
            }
        },
        None => (fallback, slice_of(t, 0, t.len())),
    };
    assert(t@.subrange(0, t@.len() as int) =~= t@);
    let sep = chars_of(" (");
    proof {
        reveal_strlit(" (");
    }
    match rfind_seq(&rest, &sep) {
        Some(j) => {
            proof {
                crate::text::lemma_last_occ(rest@, sep@, rest@.len() - sep@.len());
                assert(crate::text::occurs_at(rest@, sep@, j as int));
                assert(sep@.len() == 2);
            }
            let n = rest.len();
            let tail = slice_of(&rest, j + 2, n);
            assert(tail@ =~= rest@.skip(j + 2));
            if has_suffix_str(&tail, ")") {
                let mut suffix: Vec<char> = Vec::new();
                suffix.push('(');
                extend_chars(&mut suffix, &tail);
                let path = slice_of(&rest, 0, j);
                assert(path@ =~= rest@.take(j as int));
                assert(suffix@ =~= seq!['('] + rest@.skip(j + 2));
                Entry::File { badge, path: string_of(&path), suffix: Some(string_of(&suffix)) }
            } else {
                Entry::File { badge, path: string_of(&rest), suffix: None }
            }
        },
        None => Entry::File { badge, path: string_of(&rest), suffix: None },
    }
}

/// A line of a submodule section: a submodule (`* name`), one of its commits (`> ` or `< `),
/// a warning, or other text.
pub open spec fn parse_submodule_spec(t: Seq<char>) -> EntryV {
    if starts_with(t, "* "@) {
        EntryV::Submodule(t.skip(2))
    } else if starts_with(t, "> "@) || starts_with(t, "< "@) {
        EntryV::Commit(t)
    } else if starts_with(t, "Warn:"@) {
        EntryV::Warning(t)
    } else {
        EntryV::Text(t)
    }
}

fn parse_submodule_line(t: &[char]) -> (r: Entry)
    ensures
        r@ == parse_submodule_spec(t@),
{
    if has_prefix_str(t, "* ") {
        proof {
            reveal_strlit("* ");
        }
        let rest = slice_of(t, 2, t.len());
        assert(rest@ =~= t@.skip(2));
        Entry::Submodule(string_of(&rest))
    } else if has_prefix_str(t, "> ") || has_prefix_str(t, "< ") {
        Entry::Commit(string_of(t))
    } else if has_prefix_str(t, "Warn:") {
        Entry::Warning(string_of(t))
    } else {
        Entry::Text(string_of(t))
    }
}


/// What the branch lines of a status say.
struct BranchInfo {
    name: Option<String>,
    upstream: Option<String>,
    ahead: Option<u32>,
    behind: Option<u32>,
    up_to_date: bool,
    extra: Vec<String>,
}

/// The branch lines read so far: the branch name, its upstream, how far ahead of and behind
/// it, whether up to date, and the author and date lines kept as they are.
pub struct BranchV {
    pub name: Option<Seq<char>>,
    pub upstream: Option<Seq<char>>,
    pub ahead: Option<u32>,
    pub behind: Option<u32>,
    pub up_to_date: bool,
    pub extra: Seq<Seq<char>>,
}

/// The views of a sequence of strings.
pub open spec fn str_views(v: Seq<String>) -> Seq<Seq<char>> {
    Seq::new(v.len(), |i: int| v[i]@)
}

impl View for BranchInfo {
    type V = BranchV;

    closed spec fn view(&self) -> BranchV {
        BranchV {
            name: opt_str_view(self.name),
            upstream: opt_str_view(self.upstream),
            ahead: self.ahead,
            behind: self.behind,
            up_to_date: self.up_to_date,
            extra: str_views(self.extra@),
        }
    }
}

/// Nothing known about the branch yet.
pub open spec fn empty_branch() -> BranchV {
    BranchV {
        name: None,
        upstream: None,
        ahead: None,
        behind: None,
        up_to_date: false,
        extra: Seq::empty(),
    }
}

/// The text between the first two single quotes.
pub open spec fn quoted_spec(t: Seq<char>) -> Option<Seq<char>> {
    match find(t, '\'') {
        Some(i) => match find(t.skip(i + 1), '\'') {
            Some(j) => Some(t.skip(i + 1).take(j)),
            None => None,
        },
        None => None,
    }
}

/// The number in `... by N ...`: the first word of the text after the first ` by ` (up to a
/// second ` by `), read as a number.
pub open spec fn count_after_by_spec(t: Seq<char>) -> Option<u32> {
    match first_occ_from(t, " by "@, 0) {
        Some(i) => {
            let after = t.skip(i + 4);
            let piece = match first_occ_from(after, " by "@, 0) {
                Some(j) => after.take(j),
                None => after,
            };
            if words(piece).len() == 0 {
                None
            } else {
                parse_u32_spec(words(piece)[0])
            }
        },
        None => None,
    }
}

/// The words that read as numbers, in order.
pub open spec fn parsed_numbers(ws: Seq<Seq<char>>) -> Seq<u32>
    decreases ws.len(),
{
    if ws.len() == 0 {
        Seq::empty()
    } else {
        let prev = parsed_numbers(ws.drop_last());
        match parse_u32_spec(ws.last()) {
            Some(n) => prev.push(n),
            None => prev,
        }
    }
}

/// How a branch line updates what is known of the branch; `None` for a line that is not about
/// the branch.
pub open spec fn parse_branch_spec(t: Seq<char>, b: BranchV) -> Option<BranchV> {
    if starts_with(t, "On branch "@) {
        Some(BranchV { name: Some(t.skip(10)), ..b })
    } else if starts_with(t, "HEAD detached at "@) {
        Some(BranchV { name: Some("detached "@ + t.skip(17)), ..b })
    } else if starts_with(t, "HEAD detached from "@) {
        Some(BranchV { name: Some("detached "@ + t.skip(19)), ..b })
    } else if starts_with(t, "Your branch is ahead of "@) {
        Some(BranchV { upstream: quoted_spec(t), ahead: count_after_by_spec(t), ..b })
    } else if starts_with(t, "Your branch is behind "@) {
        Some(BranchV { upstream: quoted_spec(t), behind: count_after_by_spec(t), ..b })
    } else if starts_with(t, "Your branch is up to date with "@) {
        Some(BranchV { upstream: quoted_spec(t), up_to_date: true, ..b })
    } else if starts_with(t, "Your branch and "@) && contains_seq(t, "have diverged"@) {
        Some(BranchV { upstream: quoted_spec(t), ..b })
    } else if starts_with(t, "and have "@) {
        let nums = parsed_numbers(words(t.skip(9)));
        if nums.len() >= 2 {
            Some(BranchV { ahead: Some(nums[0]), behind: Some(nums[1]), ..b })
        } else {
            Some(b)
        }
    } else if starts_with(t, "Date:"@) {
        Some(BranchV { extra: b.extra.push("Date: "@ + trim(t.skip(5))), ..b })
    } else if starts_with(t, "Author:"@) {
        Some(BranchV { extra: b.extra.push("Author: "@ + trim(t.skip(7))), ..b })
    } else if starts_with(t, "Your branch is based on "@) || starts_with(t, "Committer:"@) {
        Some(BranchV { extra: b.extra.push(t), ..b })
    } else {
        None
    }
}

/// The one-line branch summary: name, upstream after an arrow, and how it compares.
pub open spec fn branch_summary_spec(b: BranchV) -> Option<Seq<char>> {
    match b.name {
        None => None,
        Some(n) => {
            let head = match b.upstream {
                Some(u) => n + " \u{2192} "@ + u,
                None => n,
            };
            let tail = match (b.ahead, b.behind) {
                (Some(a), Some(h)) => "  ahead "@ + decimal_spec(a as nat) + ", behind "@
                    + decimal_spec(h as nat),
                (Some(a), None) => "  ahead "@ + decimal_spec(a as nat),
                (None, Some(h)) => "  behind "@ + decimal_spec(h as nat),
                (None, None) => if b.up_to_date {
                    "  up to date"@
                } else {
                    Seq::empty()
                },
            };
            Some(head + tail)
        },
    }
}

fn quoted(t: &[char]) -> (r: Option<String>)
    ensures
        opt_str_view(r) == quoted_spec(t@),
{
    match find_char(t, '\'') {
        Some(i) => {
            let n = t.len();
            let u = slice_of(t, i + 1, n);
            assert(u@ =~= t@.skip(i + 1));
            match find_char(&u, '\'') {
                Some(j) => {
                    let q = slice_of(&u, 0, j);
                    assert(q@ =~= u@.take(j as int));
                    Some(string_of(&q))
                },
                None => None,
            }
        },
        None => None,
    }
}

fn count_after_by(t: &[char]) -> (r: Option<u32>)
    ensures
        r == count_after_by_spec(t@),
{
    let by = chars_of(" by ");
    proof {
        reveal_strlit(" by ");
    }
    match find_seq(t, &by, 0) {
        Some(i) => {
            proof {
                lemma_first_occ(t@, by@, 0);
            }
            let n = t.len();
            let after = slice_of(t, i + 4, n);
            assert(after@ =~= t@.skip(i + 4));
            let piece = match find_seq(&after, &by, 0) {
                Some(j) => {
                    proof {
                        lemma_first_occ(after@, by@, 0);
                    }
                    let p = slice_of(&after, 0, j);
                    assert(p@ =~= after@.take(j as int));
                    p
                },
                None => after,
            };
            let ws = words_of(&piece);
            if ws.len() == 0 {
                None
            } else {
                parse_u32(&ws[0])
            }
        },
        None => None,
    }
}

/// The words of `ws` that read as numbers.
fn numbers_of(ws: &Vec<Vec<char>>) -> (r: Vec<u32>)
    ensures
        r@ == parsed_numbers(Seq::new(ws@.len(), |i: int| ws@[i]@)),
{
    let ghost all = Seq::new(ws@.len(), |i: int| ws@[i]@);
    let mut out: Vec<u32> = Vec::new();
    let mut i: usize = 0;
    while i < ws.len()
        invariant
            i <= ws@.len(),
            all == Seq::new(ws@.len(), |i: int| ws@[i]@),
            out@ == parsed_numbers(all.take(i as int)),
        decreases ws@.len() - i,
    {
        assert(all.take(i + 1).drop_last() =~= all.take(i as int));
        assert(all.take(i + 1).last() == ws@[i as int]@);
        match parse_u32(&ws[i]) {
            Some(n) => out.push(n),
            None => {},
        }
        i += 1;
    }
    assert(all.take(i as int) =~= all);
    out
}

/// `prefix` followed by the trimmed text after the first `skip` chars of `t`.
fn labelled(prefix: &str, t: &[char], skip: usize) -> (r: String)
    requires
        skip <= t@.len(),
    ensures
        r@ == prefix@ + trim(t@.skip(skip as int)),
{
    let rest = slice_of(t, skip, t.len());
    assert(rest@ =~= t@.skip(skip as int));
    let v = trimmed(&rest);
    let mut out: Vec<char> = Vec::new();
    extend_str(&mut out, prefix);
    extend_chars(&mut out, &v);
    string_of(&out)
}

/// `prefix` followed by the chars of `t` after the first `skip`.
fn prefixed(prefix: &str, t: &[char], skip: usize) -> (r: String)
    requires
        skip <= t@.len(),
    ensures
        r@ == prefix@ + t@.skip(skip as int),
{
    let rest = slice_of(t, skip, t.len());
    assert(rest@ =~= t@.skip(skip as int));
    let mut out: Vec<char> = Vec::new();
    extend_str(&mut out, prefix);
    extend_chars(&mut out, &rest);
    string_of(&out)
}

fn parse_branch_line(t: &[char], b: &mut BranchInfo) -> (r: bool)
    ensures
        r == parse_branch_spec(t@, old(b)@) is Some,
        r ==> Some(final(b)@) == parse_branch_spec(t@, old(b)@),
        !r ==> final(b)@ == old(b)@,
{
    proof {
        reveal_strlit("On branch ");
        reveal_strlit("HEAD detached at ");
        reveal_strlit("HEAD detached from ");
        reveal_strlit("and have ");
        reveal_strlit("Date:");
        reveal_strlit("Author:");
    }
    if has_prefix_str(t, "On branch ") {
        let rest = slice_of(t, 10, t.len());
        assert(rest@ =~= t@.skip(10));
        b.name = Some(string_of(&rest));
    } else if has_prefix_str(t, "HEAD detached at ") {
        b.name = Some(prefixed("detached ", t, 17));
    } else if has_prefix_str(t, "HEAD detached from ") {
        b.name = Some(prefixed("detached ", t, 19));
    } else if has_prefix_str(t, "Your branch is ahead of ") {
        b.upstream = quoted(t);
        b.ahead = count_after_by(t);
    } else if has_prefix_str(t, "Your branch is behind ") {
        b.upstream = quoted(t);
        b.behind = count_after_by(t);
    } else if has_prefix_str(t, "Your branch is up to date with ") {
        b.upstream = quoted(t);
        b.up_to_date = true;
    } else if has_prefix_str(t, "Your branch and ") && contains_str(t, "have diverged") {
        b.upstream = quoted(t);
    } else if has_prefix_str(t, "and have ") {
        let rest = slice_of(t, 9, t.len());
        assert(rest@ =~= t@.skip(9));
        let ws = words_of(&rest);
        assert(Seq::new(ws@.len(), |i: int| ws@[i]@) =~= words(rest@));
        let nums = numbers_of(&ws);
        if nums.len() >= 2 {
            b.ahead = Some(nums[0]);
            b.behind = Some(nums[1]);
        }
    } else if has_prefix_str(t, "Date:") {
        let e = labelled("Date: ", t, 5);
        b.extra.push(e);
        assert(str_views(b.extra@) =~= old(b)@.extra.push(e@));
    } else if has_prefix_str(t, "Author:") {
        let e = labelled("Author: ", t, 7);
        b.extra.push(e);
        assert(str_views(b.extra@) =~= old(b)@.extra.push(e@));
    } else if has_prefix_str(t, "Your branch is based on ") || has_prefix_str(t, "Committer:") {
        let e = string_of(t);
        b.extra.push(e);
        assert(str_views(b.extra@) =~= old(b)@.extra.push(t@));
    } else {
        return false;
    }
    true
}

fn branch_summary(b: &BranchInfo) -> (r: Option<String>)
    ensures
        opt_str_view(r) == branch_summary_spec(b@),
{
    let name = match &b.name {
        Some(n) => n,
        None => return None,
    };
    let mut out: Vec<char> = chars_of(name.as_str());
    match &b.upstream {
        Some(u) => {
            extend_str(&mut out, " \u{2192} ");
            extend_chars(&mut out, &chars_of(u.as_str()));
        },
        None => {},
    }
    let ghost head = out@;
    match (b.ahead, b.behind) {
        (Some(a), Some(h)) => {
            extend_str(&mut out, "  ahead ");
            extend_chars(&mut out, &chars_of(decimal_string(a as u128).as_str()));
            extend_str(&mut out, ", behind ");
            extend_chars(&mut out, &chars_of(decimal_string(h as u128).as_str()));
        },
        (Some(a), None) => {
            extend_str(&mut out, "  ahead ");
            extend_chars(&mut out, &chars_of(decimal_string(a as u128).as_str()));
        },
        (None, Some(h)) => {
            extend_str(&mut out, "  behind ");
            extend_chars(&mut out, &chars_of(decimal_string(h as u128).as_str()));
        },
        (None, None) => {
            if b.up_to_date {
                extend_str(&mut out, "  up to date");
            }
        },
    }
    proof {
        let n = b@.name.unwrap();
        let hd = match b@.upstream {
            Some(u) => n + " \u{2192} "@ + u,
            None => n,
        };
        assert(head =~= hd);
        let tl = match (b@.ahead, b@.behind) {
            (Some(a), Some(h)) => "  ahead "@ + decimal_spec(a as nat) + ", behind "@
                + decimal_spec(h as nat),
            (Some(a), None) => "  ahead "@ + decimal_spec(a as nat),
            (None, Some(h)) => "  behind "@ + decimal_spec(h as nat),
            (None, None) => if b@.up_to_date {
                "  up to date"@
            } else {
                Seq::empty()
            },
        };
        assert(out@ =~= hd + tl);
    }
    Some(string_of(&out))
}


/// The entries of a slot; none for an empty slot.
pub open spec fn entries_of(o: Option<Seq<EntryV>>) -> Seq<EntryV> {
    match o {
        Some(e) => e,
        None => Seq::empty(),
    }
}

/// The slots with section `k` present and `es` added to its entries.
pub open spec fn slot_extend(
    slots: Seq<Option<Seq<EntryV>>>,
    k: SectionKind,
    es: Seq<EntryV>,
) -> Seq<Option<Seq<EntryV>>> {
    slots.update(kind_rank(k), Some(entries_of(slots[kind_rank(k)]) + es))
}

/// The slots with `e` added to section `k`.
pub open spec fn slot_push(slots: Seq<Option<Seq<EntryV>>>, k: SectionKind, e: EntryV) -> Seq<
    Option<Seq<EntryV>>,
> {
    slot_extend(slots, k, seq![e])
}

/// The slots with section `k` present.
pub open spec fn slot_ensure(slots: Seq<Option<Seq<EntryV>>>, k: SectionKind) -> Seq<
    Option<Seq<EntryV>>,
> {
    slot_extend(slots, k, Seq::empty())
}

/// What reading the trailer has gathered so far: the entries of each section by its place in
/// the order (absent until the section appears), the branch lines, the section that plain lines
/// are added to, and whether the diff below a scissors line has begun.
pub struct PStateV {
    pub slots: Seq<Option<Seq<EntryV>>>,
    pub branch: BranchV,
    pub current: Option<SectionKind>,
    pub in_diff: bool,
}

/// Nothing read yet.
pub open spec fn init_state() -> PStateV {
    PStateV {
        slots: Seq::new(12, |i: int| None),
        branch: empty_branch(),
        current: None,
        in_diff: false,
    }
}

/// A comment line that fits no known form goes to the section open at that point: a file of a
/// file section, a line of a submodule section, a commit of the rebase notes, and otherwise
/// the text itself, without one leading space or any trailing whitespace, to `Other`.
pub open spec fn plain_line_push(
    slots: Seq<Option<Seq<EntryV>>>,
    current: Option<SectionKind>,
    t: Seq<char>,
    rest: Seq<char>,
) -> Seq<Option<Seq<EntryV>>> {
    match current {
        Some(k) => if k == SectionKind::Conflicts || k == SectionKind::Staged || k
            == SectionKind::Unstaged || k == SectionKind::Untracked {
            slot_push(slots, k, parse_file_spec(t, k))
        } else if k == SectionKind::SubmodulesStaged || k == SectionKind::SubmodulesNotUpdated {
            slot_push(slots, k, parse_submodule_spec(t))
        } else if k == SectionKind::Rebase {
            slot_push(slots, k, EntryV::Commit(t))
        } else {
            slot_push(slots, SectionKind::Other, EntryV::Text(other_text(rest)))
        },
        None => slot_push(slots, SectionKind::Other, EntryV::Text(other_text(rest))),
    }
}

/// A comment line kept as other text: without one leading space and trailing whitespace.
pub open spec fn other_text(rest: Seq<char>) -> Seq<char> {
    trim_end(
        if starts_with(rest, " "@) {
            rest.drop_first()
        } else {
            rest
        },
    )
}

/// How one trailer line changes what has been gathered. Below a scissors line every line that
/// is not a comment is a diff line. Other lines that are not comments are skipped, as are empty
/// comments and git's boilerplate. A comment is, in this order of tests, a section heading, a
/// branch line, a merge, rebase or squash note, or a plain line of the open section.
pub open spec fn step_spec(st: PStateV, line: Seq<char>, cc: char) -> PStateV {
    if st.in_diff {
        if line.len() > 0 && line[0] == cc {
            st
        } else {
            PStateV { slots: slot_push(st.slots, SectionKind::Diff, EntryV::DiffLine(line)), ..st }
        }
    } else if is_scissors_spec(line, cc) {
        PStateV { slots: slot_ensure(st.slots, SectionKind::Diff), in_diff: true, ..st }
    } else if !(line.len() > 0 && line[0] == cc) {
        st
    } else {
        let rest = line.drop_first();
        let t = trim(rest);
        if t.len() == 0 || is_boilerplate_spec(t) {
            st
        } else {
            match from_heading_spec(t) {
                Some(k) => PStateV { slots: slot_ensure(st.slots, k), current: Some(k), ..st },
                None => match parse_branch_spec(t, st.branch) {
                    Some(b) => PStateV { branch: b, current: None, ..st },
                    None => match state_line_kind_spec(t) {
                        Some(k) => PStateV {
                            slots: slot_push(st.slots, k, EntryV::Text(t)),
                            current: if starts_with(t, "Last command"@) || starts_with(
                                t,
                                "Next command"@,
                            ) {
                                Some(k)
                            } else {
                                None
                            },
                            ..st
                        },
                        None => PStateV {
                            slots: plain_line_push(st.slots, st.current, t, rest),
                            ..st
                        },
                    },
                },
            }
        }
    }
}

/// What reading all of `lines` gathers.
pub open spec fn fold_spec(lines: Seq<Seq<char>>, cc: char) -> PStateV
    decreases lines.len(),
{
    if lines.len() == 0 {
        init_state()
    } else {
        step_spec(fold_spec(lines.drop_last(), cc), lines.last(), cc)
    }
}

/// The entries of the branch section: the summary line, then the kept author and date lines.
pub open spec fn branch_entries(b: BranchV) -> Seq<EntryV> {
    let head = match branch_summary_spec(b) {
        Some(s) => seq![EntryV::Text(s)],
        None => Seq::empty(),
    };
    head + b.extra.map_values(|x: Seq<char>| EntryV::Text(x))
}

/// The sections present in the slots from place `r` on, in order.
pub open spec fn present_sections(slots: Seq<Option<Seq<EntryV>>>, r: int) -> Seq<SectionV>
    decreases slots.len() - r,
{
    if r < 0 || r >= slots.len() {
        Seq::empty()
    } else {
        match slots[r] {
            Some(es) => seq![SectionV { kind: kind_at(r), entries: es }] + present_sections(
                slots,
                r + 1,
            ),
            None => present_sections(slots, r + 1),
        }
    }
}

/// The status a trailer describes: what its lines gather, with the branch section added when
/// there is a branch summary or a kept branch line, its sections in the fixed order.
pub open spec fn parse_spec(trailer: Seq<Seq<char>>, cc: char) -> StatusV {
    let st = fold_spec(trailer, cc);
    let slots = if branch_summary_spec(st.branch) is Some || st.branch.extra.len() > 0 {
        slot_extend(st.slots, SectionKind::Branch, branch_entries(st.branch))
    } else {
        st.slots
    };
    StatusV { branch: st.branch.name, sections: present_sections(slots, 0) }
}

/// The view of a slot.
pub open spec fn slot_view(o: Option<Vec<Entry>>) -> Option<Seq<EntryV>> {
    match o {
        Some(v) => Some(entry_views(v@)),
        None => None,
    }
}

/// The views of the slots.
pub open spec fn slots_view(v: Seq<Option<Vec<Entry>>>) -> Seq<Option<Seq<EntryV>>> {
    Seq::new(v.len(), |i: int| slot_view(v[i]))
}

proof fn lemma_slots_view_update(v: Seq<Option<Vec<Entry>>>, i: int, x: Option<Vec<Entry>>)
    requires
        0 <= i < v.len(),
    ensures
        slots_view(v.update(i, x)) == slots_view(v).update(i, slot_view(x)),
{
    assert(slots_view(v.update(i, x)) =~= slots_view(v).update(i, slot_view(x)));
}

/// Adds `es` to section `k`, making it present.
fn slot_extend_exec(slots: &mut Vec<Option<Vec<Entry>>>, k: SectionKind, es: &mut Vec<Entry>)
    requires
        old(slots)@.len() == 12,
    ensures
        final(slots)@.len() == 12,
        slots_view(final(slots)@) == slot_extend(slots_view(old(slots)@), k, entry_views(old(es)@)),
{
    let r = k.rank();
    let mut cur: Option<Vec<Entry>> = None;
    std::mem::swap(&mut cur, &mut slots[r]);
    let ghost before = slots@;
    let mut v = match cur {
        Some(v) => v,
        None => Vec::new(),
    };
    let ghost start = v@;
    v.append(es);
    assert(entry_views(v@) =~= entry_views(start) + entry_views(old(es)@));
    let ghost nvv = Some(v);
    let mut nv = Some(v);
    std::mem::swap(&mut nv, &mut slots[r]);
    proof {
        lemma_slots_view_update(before, r as int, nvv);
        lemma_slots_view_update(old(slots)@, r as int, None);
    }
}


/// Adds `e` to section `k`.
fn slot_push_exec(slots: &mut Vec<Option<Vec<Entry>>>, k: SectionKind, e: Entry)
    requires
        old(slots)@.len() == 12,
    ensures
        final(slots)@.len() == 12,
        slots_view(final(slots)@) == slot_push(slots_view(old(slots)@), k, e@),
{
    let mut es: Vec<Entry> = Vec::new();
    es.push(e);
    assert(entry_views(es@) =~= seq![e@]);
    slot_extend_exec(slots, k, &mut es);
}

/// Makes section `k` present.
fn slot_ensure_exec(slots: &mut Vec<Option<Vec<Entry>>>, k: SectionKind)
    requires
        old(slots)@.len() == 12,
    ensures
        final(slots)@.len() == 12,
        slots_view(final(slots)@) == slot_ensure(slots_view(old(slots)@), k),
{
    let mut es: Vec<Entry> = Vec::new();
    assert(entry_views(es@) =~= Seq::<EntryV>::empty());
    slot_extend_exec(slots, k, &mut es);
}

/// The state of reading a trailer.
struct ParseState {
    slots: Vec<Option<Vec<Entry>>>,
    branch: BranchInfo,
    current: Option<SectionKind>,
    in_diff: bool,
}

impl View for ParseState {
    type V = PStateV;

    closed spec fn view(&self) -> PStateV {
        PStateV {
            slots: slots_view(self.slots@),
            branch: self.branch@,
            current: self.current,
            in_diff: self.in_diff,
        }
    }
}

/// A comment line kept as other text.
fn other_text_exec(rest: &[char]) -> (r: String)
    ensures
        r@ == other_text(rest@),
{
    let body = if has_prefix_str(rest, " ") {
        proof {
            reveal_strlit(" ");
        }
        let b = slice_of(rest, 1, rest.len());
        assert(b@ =~= rest@.drop_first());
        b
    } else {
        let b = slice_of(rest, 0, rest.len());
        assert(b@ =~= rest@);
        b
    };
    let e = trim_end_index(&body);
    let kept = slice_of(&body, 0, e);
    assert(kept@ =~= body@.take(e as int));
    string_of(&kept)
}

/// Reads one trailer line.
fn step(st: &mut ParseState, line: &str, cc: char)
    requires
        old(st).slots@.len() == 12,
    ensures
        final(st).slots@.len() == 12,
        final(st)@ == step_spec(old(st)@, line@, cc),
{
    let v = chars_of(line);
    let is_comment = v.len() > 0 && v[0] == cc;
    if st.in_diff {
        if !is_comment {
            slot_push_exec(&mut st.slots, SectionKind::Diff, Entry::DiffLine(string_of(&v)));
        }
        return;
    }
    if is_scissors(line, cc) {
        slot_ensure_exec(&mut st.slots, SectionKind::Diff);
        st.in_diff = true;
        return;
    }
    if !is_comment {
        return;
    }
    let rest = slice_of(&v, 1, v.len());
    assert(rest@ =~= v@.drop_first());
    let t = trimmed(&rest);
    if t.len() == 0 || is_boilerplate(&t) {
        return;
    }
    match SectionKind::from_heading(&t) {
        Some(k) => {
            slot_ensure_exec(&mut st.slots, k);
            st.current = Some(k);
            return;
        },
        None => {},
    }
    if parse_branch_line(&t, &mut st.branch) {
        st.current = None;
        return;
    }
    match state_line_kind(&t) {
        Some(k) => {
            slot_push_exec(&mut st.slots, k, Entry::Text(string_of(&t)));
            let lists_commands = has_prefix_str(&t, "Last command") || has_prefix_str(
                &t,
                "Next command",
            );
            st.current = if lists_commands {
                Some(k)
            } else {
                None
            };
            return;
        },
        None => {},
    }
    match st.current {
        Some(k) => {
            if k == SectionKind::Conflicts || k == SectionKind::Staged || k == SectionKind::Unstaged
                || k == SectionKind::Untracked {
                slot_push_exec(&mut st.slots, k, parse_file(&t, k));
            } else if k == SectionKind::SubmodulesStaged || k == SectionKind::SubmodulesNotUpdated {
                slot_push_exec(&mut st.slots, k, parse_submodule_line(&t));
            } else if k == SectionKind::Rebase {
                slot_push_exec(&mut st.slots, k, Entry::Commit(string_of(&t)));
            } else {
                slot_push_exec(&mut st.slots, SectionKind::Other, Entry::Text(other_text_exec(&rest)));
            }
        },
        None => {
            slot_push_exec(&mut st.slots, SectionKind::Other, Entry::Text(other_text_exec(&rest)));
        },
    }
}

/// The entries of the branch section.
fn branch_entries_exec(b: &BranchInfo) -> (r: Vec<Entry>)
    ensures
        entry_views(r@) == branch_entries(b@),
{
    let mut out: Vec<Entry> = Vec::new();
    match branch_summary(b) {
        Some(s) => out.push(Entry::Text(s)),
        None => {},
    }
    let ghost head = entry_views(out@);
    let mut i: usize = 0;
    while i < b.extra.len()
        invariant
            i <= b@.extra.len(),
            b@.extra.len() == b.extra@.len(),
            forall|k: int| 0 <= k < b.extra@.len() ==> b@.extra[k] == (#[trigger] b.extra@[k])@,
            entry_views(out@) == head + b@.extra.take(i as int).map_values(
                |x: Seq<char>| EntryV::Text(x),
            ),
        decreases b.extra@.len() - i,
    {
        let e = string_of(&chars_of(b.extra[i].as_str()));
        let ghost prev = entry_views(out@);
        out.push(Entry::Text(e));
        proof {
            assert(entry_views(out@) =~= prev.push(EntryV::Text(e@)));
            let f = |x: Seq<char>| EntryV::Text(x);
            assert(b@.extra.take(i + 1).map_values(f) =~= b@.extra.take(i as int).map_values(f).push(
                EntryV::Text(b@.extra[i as int]),
            ));
        }
        i += 1;
    }
    assert(b@.extra.take(i as int) =~= b@.extra);
    out
}

pub fn parse(trailer: &[String], cc: char) -> (r: Status)
    ensures
        r@ == parse_spec(Seq::new(trailer@.len(), |i: int| trailer@[i]@), cc),
{
    let ghost lines = Seq::new(trailer@.len(), |i: int| trailer@[i]@);
    let mut slots: Vec<Option<Vec<Entry>>> = Vec::new();
    let mut r: usize = 0;
    while r < 12
        invariant
            r <= 12,
            slots@.len() == r,
            forall|k: int| 0 <= k < r ==> (#[trigger] slots@[k]) is None,
        decreases 12 - r,
    {
        slots.push(None);
        r += 1;
    }
    let mut st = ParseState {
        slots,
        branch: BranchInfo {
            name: None,
            upstream: None,
            ahead: None,
            behind: None,
            up_to_date: false,
            extra: Vec::new(),
        },
        current: None,
        in_diff: false,
    };
    assert(st@.slots =~= init_state().slots);
    assert(st@.branch.extra =~= Seq::<Seq<char>>::empty());
    let mut i: usize = 0;
    while i < trailer.len()
        invariant
            i <= trailer@.len(),
            lines == Seq::new(trailer@.len(), |i: int| trailer@[i]@),
            st.slots@.len() == 12,
            st@ == fold_spec(lines.take(i as int), cc),
        decreases trailer@.len() - i,
    {
        assert(lines.take(i + 1).drop_last() =~= lines.take(i as int));
        step(&mut st, trailer[i].as_str(), cc);
        i += 1;
    }
    assert(lines.take(i as int) =~= lines);
    let summary_or_extra = match branch_summary(&st.branch) {
        Some(_) => true,
        None => st.branch.extra.len() > 0,
    };
    if summary_or_extra {
        let mut es = branch_entries_exec(&st.branch);
        slot_extend_exec(&mut st.slots, SectionKind::Branch, &mut es);
    }
    let ParseState { slots: mut slots, branch, .. } = st;
    let ghost slots_v = slots_view(slots@);
    let mut sections: Vec<Section> = Vec::new();
    let mut r: usize = 0;
    while r < 12
        invariant
            r <= 12,
            slots@.len() == 12,
            forall|k: int| r <= k < 12 ==> slot_view(#[trigger] slots@[k]) == slots_v[k],
            slots_v.len() == 12,
            section_views(sections@) + present_sections(slots_v, r as int) == present_sections(
                slots_v,
                0,
            ),
        decreases 12 - r,
    {
        let mut cur: Option<Vec<Entry>> = None;
        std::mem::swap(&mut cur, &mut slots[r]);
        assert(slot_view(cur) == slots_v[r as int]);
        match cur {
            Some(es) => {
                let kind = SectionKind::at_rank(r);
                let sec = Section { kind, entries: es };
                let ghost before = section_views(sections@);
                sections.push(sec);
                assert(section_views(sections@) =~= before.push(sec@));
                assert(before + present_sections(slots_v, r as int) =~= section_views(sections@)
                    + present_sections(slots_v, r + 1));
            },
            None => {},
        }
        r += 1;
    }
    assert(section_views(sections@) =~= present_sections(slots_v, 0));
    Status { branch: branch.name, sections }
}


proof fn lemma_kind_at_rank(r: int)
    requires
        0 <= r < 12,
    ensures
        kind_rank(kind_at(r)) == r,
{
}

proof fn lemma_present_sections_order(slots: Seq<Option<Seq<EntryV>>>, r: int)
    requires
        slots.len() == 12,
        0 <= r,
    ensures
        forall|i: int|
            0 <= i < present_sections(slots, r).len() ==> r <= kind_rank(
                #[trigger] present_sections(slots, r)[i].kind,
            ) < 12,
        forall|i: int, j: int|
            0 <= i < j < present_sections(slots, r).len() ==> kind_rank(
                #[trigger] present_sections(slots, r)[i].kind,
            ) < kind_rank(#[trigger] present_sections(slots, r)[j].kind),
    decreases slots.len() - r,
{
    if r < slots.len() {
        lemma_present_sections_order(slots, r + 1);
        if slots[r] is Some {
            lemma_kind_at_rank(r);
            let tail = present_sections(slots, r + 1);
            let all = present_sections(slots, r);
            assert forall|i: int| 0 < i < all.len() implies all[i] == tail[i - 1] by {}
        }
    }
}

/// Sections come in the fixed order (branch, merge, rebase, squash, conflicts, staged,
/// unstaged, submodules, untracked, other, diff) and no kind comes twice.
pub proof fn law_sections_ordered(trailer: Seq<Seq<char>>, cc: char)
    ensures
        forall|i: int, j: int|
            0 <= i < j < parse_spec(trailer, cc).sections.len() ==> kind_rank(
                #[trigger] parse_spec(trailer, cc).sections[i].kind,
            ) < kind_rank(#[trigger] parse_spec(trailer, cc).sections[j].kind),
{
    lemma_fold_slots_len(trailer, cc);
    let st = fold_spec(trailer, cc);
    let slots = if branch_summary_spec(st.branch) is Some || st.branch.extra.len() > 0 {
        slot_extend(st.slots, SectionKind::Branch, branch_entries(st.branch))
    } else {
        st.slots
    };
    lemma_present_sections_order(slots, 0);
}

proof fn lemma_fold_slots_len(lines: Seq<Seq<char>>, cc: char)
    ensures
        fold_spec(lines, cc).slots.len() == 12,
        fold_spec(lines, cc).current matches Some(k) ==> k != SectionKind::Diff,
    decreases lines.len(),
{
    if lines.len() > 0 {
        lemma_fold_slots_len(lines.drop_last(), cc);
    }
}

/// No scissors line among `lines`.
pub open spec fn no_scissors(lines: Seq<Seq<char>>, cc: char) -> bool {
    forall|i: int| 0 <= i < lines.len() ==> !is_scissors_spec(#[trigger] lines[i], cc)
}

/// The lines of `lines` that are not comments, as diff lines.
pub open spec fn diff_entries(lines: Seq<Seq<char>>, cc: char) -> Seq<EntryV>
    decreases lines.len(),
{
    if lines.len() == 0 {
        Seq::empty()
    } else {
        let prev = diff_entries(lines.drop_last(), cc);
        let l = lines.last();
        if l.len() > 0 && l[0] == cc {
            prev
        } else {
            prev.push(EntryV::DiffLine(l))
        }
    }
}

proof fn lemma_before_scissors(lines: Seq<Seq<char>>, cc: char)
    requires
        no_scissors(lines, cc),
    ensures
        !fold_spec(lines, cc).in_diff,
        fold_spec(lines, cc).slots[kind_rank(SectionKind::Diff)] is None,
        fold_spec(lines, cc).slots.len() == 12,
        fold_spec(lines, cc).current matches Some(k) ==> k != SectionKind::Diff,
    decreases lines.len(),
{
    lemma_fold_slots_len(lines, cc);
    if lines.len() > 0 {
        let prev = lines.drop_last();
        assert forall|i: int| 0 <= i < prev.len() implies !is_scissors_spec(#[trigger] prev[i], cc) by {
            assert(prev[i] == lines[i]);
        }
        lemma_before_scissors(prev, cc);
        lemma_fold_slots_len(prev, cc);
        assert(!is_scissors_spec(lines[lines.len() - 1], cc));
    }
}

proof fn lemma_after_scissors(a: Seq<Seq<char>>, b: Seq<Seq<char>>, cc: char)
    requires
        a.len() > 0,
        is_scissors_spec(a.last(), cc),
        no_scissors(a.drop_last(), cc),
    ensures
        fold_spec(a + b, cc).in_diff,
        fold_spec(a + b, cc).slots.len() == 12,
        fold_spec(a + b, cc).slots[kind_rank(SectionKind::Diff)] == Some(diff_entries(b, cc)),
        fold_spec(a + b, cc).branch == fold_spec(a.drop_last(), cc).branch,
    decreases b.len(),
{
    if b.len() == 0 {
        assert(a + b =~= a);
        lemma_before_scissors(a.drop_last(), cc);
        assert(Seq::<EntryV>::empty() + Seq::<EntryV>::empty() =~= Seq::<EntryV>::empty());
    } else {
        lemma_after_scissors(a, b.drop_last(), cc);
        assert((a + b).drop_last() =~= a + b.drop_last());
        assert((a + b).last() == b.last());
    }
}

/// Below a scissors line, the lines that are not comments are the diff, in order and as they
/// are, and nothing else is: when the first scissors line of the trailer is followed by `b`,
/// the diff section holds exactly the lines of `b` that do not start with the comment char.
pub proof fn law_diff_below_scissors(a: Seq<Seq<char>>, sc: Seq<char>, b: Seq<Seq<char>>, cc: char)
    requires
        no_scissors(a, cc),
        is_scissors_spec(sc, cc),
    ensures
        find_section(parse_spec(a.push(sc) + b, cc).sections, SectionKind::Diff, 0) matches Some(i)
            && parse_spec(a.push(sc) + b, cc).sections[i].entries == diff_entries(b, cc),
{
    let lines = a.push(sc) + b;
    assert(a.push(sc).drop_last() =~= a);
    lemma_after_scissors(a.push(sc), b, cc);
    let st = fold_spec(lines, cc);
    let slots = if branch_summary_spec(st.branch) is Some || st.branch.extra.len() > 0 {
        slot_extend(st.slots, SectionKind::Branch, branch_entries(st.branch))
    } else {
        st.slots
    };
    assert(slots[11] == Some(diff_entries(b, cc)));
    lemma_present_last(slots, 0);
    let ss = present_sections(slots, 0);
    lemma_present_sections_order(slots, 0);
    assert forall|i: int| 0 <= i < ss.len() - 1 implies (#[trigger] ss[i]).kind != SectionKind::Diff by {
        assert(kind_rank(ss[i].kind) < kind_rank(ss[ss.len() - 1].kind));
    }
    lemma_find_last_section(ss, 0);
}

proof fn lemma_present_last(slots: Seq<Option<Seq<EntryV>>>, r: int)
    requires
        slots.len() == 12,
        0 <= r <= 11,
        slots[11] is Some,
    ensures
        present_sections(slots, r).len() > 0,
        present_sections(slots, r).last() == (SectionV {
            kind: SectionKind::Diff,
            entries: slots[11]->0,
        }),
    decreases 12 - r,
{
    if r < 11 {
        lemma_present_last(slots, r + 1);
        assert(present_sections(slots, 12) =~= Seq::<SectionV>::empty());
    } else {
        assert(present_sections(slots, 12) =~= Seq::<SectionV>::empty());
    }
}

proof fn lemma_find_last_section(ss: Seq<SectionV>, from: int)
    requires
        0 <= from < ss.len(),
        ss.last().kind == SectionKind::Diff,
        forall|i: int| 0 <= i < ss.len() - 1 ==> (#[trigger] ss[i]).kind != SectionKind::Diff,
    ensures
        find_section(ss, SectionKind::Diff, from) == Some(ss.len() - 1),
    decreases ss.len() - from,
{
    if from < ss.len() - 1 {
        lemma_find_last_section(ss, from + 1);
    }
}

/// The style of a file's status badge: added green, deleted red, modified yellow, unmerged
/// bold red, renamed, copied or type-changed blue, anything else dark gray.
pub open spec fn badge_style_spec(b: char) -> Style {
    if b == 'A' {
        fg_spec(Color::Green)
    } else if b == 'D' {
        fg_spec(Color::Red)
    } else if b == 'M' {
        fg_spec(Color::Yellow)
    } else if b == 'U' {
        Style { bold: true, ..fg_spec(Color::Red) }
    } else if b == 'R' || b == 'C' || b == 'T' {
        fg_spec(Color::Blue)
    } else {
        fg_spec(Color::DarkGray)
    }
}

/// The style of a diff line: file headers bold, additions green, removals red, hunk headers
/// cyan, context plain.
pub open spec fn diff_style_spec(s: Seq<char>) -> Style {
    if starts_with(s, "+++"@) || starts_with(s, "---"@) {
        Style { bold: true, ..plain_spec() }
    } else if starts_with(s, "+"@) {
        fg_spec(Color::Green)
    } else if starts_with(s, "-"@) {
        fg_spec(Color::Red)
    } else if starts_with(s, "@@"@) {
        fg_spec(Color::Cyan)
    } else {
        plain_spec()
    }
}

/// Rows of `text` wrapped to what is left of `w` after `indent`, each row the indent then the
/// text in `style`.
pub open spec fn wrapped_rows(text: Seq<char>, indent: Seq<char>, w: int, style: Style) -> Seq<
    Seq<(Seq<char>, Style)>,
> {
    let texts = wrap_texts(text, minus_or_zero(w, indent.len() as int));
    Seq::new(texts.len(), |k: int| seq![(indent, plain_spec()), (texts[k], style)])
}

/// Rows of a file entry: the path wrapped to `w - 3` columns; the first row starts with the
/// badge between spaces, the others with three spaces; the suffix, dimmed, ends the last row.
pub open spec fn file_rows(badge: char, path: Seq<char>, suffix: Option<Seq<char>>, w: int) -> Seq<
    Seq<(Seq<char>, Style)>,
> {
    let texts = wrap_texts(path, minus_or_zero(w, 3));
    Seq::new(
        texts.len(),
        |k: int|
            {
                let row = if k == 0 {
                    seq![
                        (" "@, plain_spec()),
                        (seq![badge], badge_style_spec(badge)),
                        (" "@, plain_spec()),
                        (texts[k], plain_spec()),
                    ]
                } else {
                    seq![("   "@, plain_spec()), (texts[k], plain_spec())]
                };
                match suffix {
                    Some(sfx) if k == texts.len() - 1 => row.push(
                        (" "@ + sfx, fg_spec(Color::DarkGray)),
                    ),
                    _ => row,
                }
            },
    )
}

/// The rows of one entry at width `w`.
pub open spec fn entry_rows(e: EntryV, w: int) -> Seq<Seq<(Seq<char>, Style)>> {
    match e {
        EntryV::File { badge, path, suffix } => file_rows(badge, path, suffix, w),
        EntryV::Submodule(s) => seq![seq![(" * "@ + s, fg_spec(Color::Magenta))]],
        EntryV::Commit(s) => wrapped_rows(s, "   "@, w, plain_spec()),
        EntryV::Warning(s) => wrapped_rows(s, "   "@, w, fg_spec(Color::Yellow)),
        EntryV::Text(s) => wrapped_rows(s, " "@, w, plain_spec()),
        EntryV::DiffLine(s) => seq![seq![(s, diff_style_spec(s))]],
    }
}

/// The rows of a list of entries, one after the other.
pub open spec fn entries_rows(es: Seq<EntryV>, w: int) -> Seq<Seq<(Seq<char>, Style)>>
    decreases es.len(),
{
    if es.len() == 0 {
        Seq::empty()
    } else {
        entries_rows(es.drop_last(), w) + entry_rows(es.last(), w)
    }
}

/// A section's header: its title, with the count in brackets where the kind is counted.
pub open spec fn section_title(s: SectionV) -> Seq<char> {
    if counted_spec(s.kind) {
        title_spec(s.kind) + " ("@ + decimal_spec(count_spec(s.entries)) + ")"@
    } else {
        title_spec(s.kind)
    }
}

/// The style of section headers.
pub open spec fn header_style() -> Style {
    Style { bold: true, ..fg_spec(Color::Cyan) }
}

/// The status pane's rows: for each section its header then its entries' rows, with an empty
/// row between sections.
pub open spec fn render_spec(ss: Seq<SectionV>, w: int) -> Seq<Seq<(Seq<char>, Style)>>
    decreases ss.len(),
{
    if ss.len() == 0 {
        Seq::empty()
    } else {
        let before = render_spec(ss.drop_last(), w);
        let gap = if ss.len() > 1 {
            seq![Seq::<(Seq<char>, Style)>::empty()]
        } else {
            Seq::empty()
        };
        before + gap + seq![seq![(section_title(ss.last()), header_style())]] + entries_rows(
            ss.last().entries,
            w,
        )
    }
}

/// The style of a file's status badge.
pub fn badge_style(badge: char) -> (r: Style)
    ensures
        r == badge_style_spec(badge),
{
    if badge == 'A' {
        Style::fg(Color::Green)
    } else if badge == 'D' {
        Style::fg(Color::Red)
    } else if badge == 'M' {
        Style::fg(Color::Yellow)
    } else if badge == 'U' {
        Style::fg(Color::Red).bold()
    } else if badge == 'R' || badge == 'C' || badge == 'T' {
        Style::fg(Color::Blue)
    } else {
        Style::fg(Color::DarkGray)
    }
}

fn diff_style(s: &[char]) -> (r: Style)
    ensures
        r == diff_style_spec(s@),
{
    if has_prefix_str(s, "+++") || has_prefix_str(s, "---") {
        Style::plain().bold()
    } else if has_prefix_str(s, "+") {
        Style::fg(Color::Green)
    } else if has_prefix_str(s, "-") {
        Style::fg(Color::Red)
    } else if has_prefix_str(s, "@@") {
        Style::fg(Color::Cyan)
    } else {
        Style::plain()
    }
}

fn push_wrapped(out: &mut Vec<Vec<Span>>, text: &str, indent: &'static str, width: usize, style: Style)
    ensures
        lines_view(final(out)@) == lines_view(old(out)@) + wrapped_rows(
            text@,
            indent@,
            width as int,
            style,
        ),
{
    let n = indent.unicode_len();
    let w = if width >= n {
        width - n
    } else {
        0
    };
    let rows = wrap(text, w);
    let ghost texts = wrap_texts(text@, w as int);
    let ghost want = wrapped_rows(text@, indent@, width as int, style);
    assert forall|j: int| 0 <= j < rows@.len() implies (#[trigger] rows@[j]).text@ == texts[j] by {}
    let mut k: usize = 0;
    while k < rows.len()
        invariant
            k <= rows@.len(),
            rows@.len() == texts.len(),
            texts == wrap_texts(text@, w as int),
            want.len() == texts.len(),
            want == wrapped_rows(text@, indent@, width as int, style),
            w == minus_or_zero(width as int, indent@.len() as int),
            forall|j: int|
                0 <= j < rows@.len() ==> (#[trigger] rows@[j]).text@ == texts[j],
            lines_view(out@) == lines_view(old(out)@) + want.take(k as int),
        decreases rows@.len() - k,
    {
        let ghost before = out@;
        let mut line: Vec<Span> = Vec::new();
        line.push(span(indent, Style::plain()));
        line.push(Span { text: rows[k].text.clone(), style });
        assert(spans_view(line@) =~= want[k as int]);
        out.push(line);
        assert(lines_view(out@) =~= lines_view(before).push(want[k as int]));
        assert(want.take(k + 1) =~= want.take(k as int).push(want[k as int]));
        k += 1;
    }
    assert(want.take(k as int) =~= want);
}

fn push_file(out: &mut Vec<Vec<Span>>, badge: char, path: &String, suffix: &Option<String>, width: usize)
    ensures
        lines_view(final(out)@) == lines_view(old(out)@) + file_rows(
            badge,
            path@,
            opt_str_view(*suffix),
            width as int,
        ),
{
    let w = if width >= 3 {
        width - 3
    } else {
        0
    };
    let rows = wrap(path.as_str(), w);
    let ghost texts = wrap_texts(path@, w as int);
    let ghost want = file_rows(badge, path@, opt_str_view(*suffix), width as int);
    assert forall|j: int| 0 <= j < rows@.len() implies (#[trigger] rows@[j]).text@ == texts[j] by {}
    let mut k: usize = 0;
    while k < rows.len()
        invariant
            k <= rows@.len(),
            rows@.len() == texts.len(),
            texts == wrap_texts(path@, w as int),
            want == file_rows(badge, path@, opt_str_view(*suffix), width as int),
            want.len() == texts.len(),
            w == minus_or_zero(width as int, 3),
            forall|j: int| 0 <= j < rows@.len() ==> (#[trigger] rows@[j]).text@ == texts[j],
            lines_view(out@) == lines_view(old(out)@) + want.take(k as int),
        decreases rows@.len() - k,
    {
        let ghost before = out@;
        let mut line: Vec<Span> = Vec::new();
        if k == 0 {
            line.push(span(" ", Style::plain()));
            let mut b: Vec<char> = Vec::new();
            b.push(badge);
            line.push(Span { text: string_of(&b), style: badge_style(badge) });
            line.push(span(" ", Style::plain()));
        } else {
            line.push(span("   ", Style::plain()));
        }
        line.push(Span { text: rows[k].text.clone(), style: Style::plain() });
        if k + 1 == rows.len() {
            if let Some(sfx) = suffix {
                let mut t: Vec<char> = Vec::new();
                extend_str(&mut t, " ");
                extend_chars(&mut t, &chars_of(sfx.as_str()));
                line.push(Span { text: string_of(&t), style: Style::fg(Color::DarkGray) });
            }
        }
        assert(spans_view(line@) =~= want[k as int]);
        out.push(line);
        assert(lines_view(out@) =~= lines_view(before).push(want[k as int]));
        assert(want.take(k + 1) =~= want.take(k as int).push(want[k as int]));
        k += 1;
    }
    assert(want.take(k as int) =~= want);
}

fn push_entry(out: &mut Vec<Vec<Span>>, entry: &Entry, width: usize)
    ensures
        lines_view(final(out)@) == lines_view(old(out)@) + entry_rows(entry@, width as int),
{
    match entry {
        Entry::File { badge, path, suffix } => push_file(out, *badge, path, suffix, width),
        Entry::Submodule(s) => {
            let mut t: Vec<char> = Vec::new();
            extend_str(&mut t, " * ");
            extend_chars(&mut t, &chars_of(s.as_str()));
            let mut line: Vec<Span> = Vec::new();
            line.push(Span { text: string_of(&t), style: Style::fg(Color::Magenta) });
            assert(spans_view(line@) =~= seq![(" * "@ + s@, fg_spec(Color::Magenta))]);
            let ghost before = out@;
            out.push(line);
            assert(lines_view(out@) =~= lines_view(before).push(spans_view(line@)));
            assert(lines_view(out@) =~= lines_view(before) + entry_rows(entry@, width as int));
        },
        Entry::Commit(s) => push_wrapped(out, s.as_str(), "   ", width, Style::plain()),
        Entry::Warning(s) => push_wrapped(out, s.as_str(), "   ", width, Style::fg(Color::Yellow)),
        Entry::Text(s) => push_wrapped(out, s.as_str(), " ", width, Style::plain()),
        Entry::DiffLine(s) => {
            let mut line: Vec<Span> = Vec::new();
            line.push(Span { text: s.clone(), style: diff_style(&chars_of(s.as_str())) });
            assert(spans_view(line@) =~= seq![(s@, diff_style_spec(s@))]);
            let ghost before = out@;
            out.push(line);
            assert(lines_view(out@) =~= lines_view(before).push(spans_view(line@)));
            assert(lines_view(out@) =~= lines_view(before) + entry_rows(entry@, width as int));
        },
    }
}

/// Styled rows for the status pane, wrapped to `width` columns.
pub fn render_lines(status: &Status, width: usize) -> (r: Vec<Vec<Span>>)
    ensures
        lines_view(r@) == render_spec(status@.sections, width as int),
{
    let ghost ss = status@.sections;
    let mut out: Vec<Vec<Span>> = Vec::new();
    let mut i: usize = 0;
    while i < status.sections.len()
        invariant
            i <= status.sections@.len(),
            ss == status@.sections,
            lines_view(out@) == render_spec(ss.take(i as int), width as int),
        decreases status.sections@.len() - i,
    {
        let section = &status.sections[i];
        let ghost sv = section@;
        assert(ss[i as int] == sv);
        assert(ss.take(i + 1).drop_last() =~= ss.take(i as int));
        if i > 0 {
            let ghost before = out@;
            let empty: Vec<Span> = Vec::new();
            assert(spans_view(empty@) =~= Seq::<(Seq<char>, Style)>::empty());
            out.push(empty);
            assert(lines_view(out@) =~= lines_view(before).push(Seq::<(Seq<char>, Style)>::empty()));
            assert(lines_view(out@) =~= lines_view(before) + seq![Seq::<(Seq<char>, Style)>::empty()]);
        }
        let kind = section.kind;
        let title = if kind.counted() {
            let mut t: Vec<char> = Vec::new();
            extend_str(&mut t, kind.title());
            extend_str(&mut t, " (");
            let n = section.count();
            extend_chars(&mut t, &chars_of(decimal_string(n as u128).as_str()));
            extend_str(&mut t, ")");
            string_of(&t)
        } else {
            string_of(&chars_of(kind.title()))
        };
        assert(title@ == section_title(sv));
        let mut header: Vec<Span> = Vec::new();
        header.push(Span { text: title, style: Style::fg(Color::Cyan).bold() });
        assert(spans_view(header@) =~= seq![(section_title(sv), header_style())]);
        let ghost before = out@;
        out.push(header);
        assert(lines_view(out@) =~= lines_view(before).push(spans_view(header@)));
        assert(lines_view(out@) =~= lines_view(before) + seq![seq![(section_title(sv), header_style())]]);
        let ghost mid = lines_view(out@);
        let mut j: usize = 0;
        while j < section.entries.len()
            invariant
                j <= section.entries@.len(),
                sv == section@,
                lines_view(out@) == mid + entries_rows(sv.entries.take(j as int), width as int),
            decreases section.entries@.len() - j,
        {
            assert(sv.entries.take(j + 1).drop_last() =~= sv.entries.take(j as int));
            assert(sv.entries[j as int] == section.entries@[j as int]@);
            push_entry(&mut out, &section.entries[j], width);
            assert(lines_view(out@) =~= mid + entries_rows(sv.entries.take(j + 1), width as int));
            j += 1;
        }
        assert(sv.entries.take(j as int) =~= sv.entries);
        i += 1;
        assert(lines_view(out@) =~= render_spec(ss.take(i as int), width as int));
    }
    assert(ss.take(i as int) =~= ss);
    out
}


/// The badge of a file entry.
pub open spec fn file_badge(e: EntryV) -> Option<char> {
    match e {
        EntryV::File { badge, .. } => Some(badge),
        _ => None,
    }
}

proof fn lemma_badge_of_word(w: Seq<char>, rest: Seq<char>, kind: SectionKind)
    requires
        forall|j: int| 0 <= j < w.len() ==> w[j] != ':',
    ensures
        parse_file_spec(w + seq![':'] + rest, kind) matches EntryV::File { badge, .. } && badge
            == match status_badge_spec(w) {
            Some(b) => b,
            None => if kind == SectionKind::Untracked {
                '?'
            } else {
                'U'
            },
        },
{
    let t = w + seq![':'] + rest;
    crate::text::lemma_find_first(t, ':', w.len() as int);
    assert(t.take(w.len() as int) =~= w);
}

/// The badges of git's file status words, for a line `<word>:<rest>` of any section: every
/// unmerged state (both modified, both added, both deleted, added by us, added by them,
/// deleted by us, deleted by them, unmerged) is a conflict, `U`; modified is `M`, new file
/// `A`, deleted `D`, renamed `R`, copied `C` and typechange `T`.
pub proof fn law_status_word_badges(w: Seq<char>, rest: Seq<char>, kind: SectionKind)
    ensures
        ({
            let e = parse_file_spec(w + seq![':'] + rest, kind);
            &&& (w == "both modified"@ || w == "both added"@ || w == "both deleted"@ || w
                == "added by us"@ || w == "added by them"@ || w == "deleted by us"@ || w
                == "deleted by them"@ || w == "unmerged"@) ==> file_badge(e) == Some('U')
            &&& w == "modified"@ ==> file_badge(e) == Some('M')
            &&& w == "new file"@ ==> file_badge(e) == Some('A')
            &&& w == "deleted"@ ==> file_badge(e) == Some('D')
            &&& w == "renamed"@ ==> file_badge(e) == Some('R')
            &&& w == "copied"@ ==> file_badge(e) == Some('C')
            &&& w == "typechange"@ ==> file_badge(e) == Some('T')
        }),
{
    reveal_strlit("modified");
    reveal_strlit("new file");
    reveal_strlit("deleted");
    reveal_strlit("renamed");
    reveal_strlit("copied");
    reveal_strlit("typechange");
    reveal_strlit("both modified");
    reveal_strlit("both added");
    reveal_strlit("both deleted");
    reveal_strlit("added by us");
    reveal_strlit("added by them");
    reveal_strlit("deleted by us");
    reveal_strlit("deleted by them");
    reveal_strlit("unmerged");
    if w == "modified"@ {
        assert(w.len() == 8);
        assert(status_badge_spec(w) == Some('M'));
        assert forall|j: int| 0 <= j < w.len() implies w[j] != ':' by {
        }
        lemma_badge_of_word(w, rest, kind);
    }
    if w == "new file"@ {
        assert(w.len() == 8);
        assert(w != "modified"@) by {
            assert(w[0] != "modified"@[0]);
        }
        assert(status_badge_spec(w) == Some('A'));
        assert forall|j: int| 0 <= j < w.len() implies w[j] != ':' by {
        }
        lemma_badge_of_word(w, rest, kind);
    }
    if w == "deleted"@ {
        assert(w.len() == 7);
        assert(status_badge_spec(w) == Some('D'));
        assert forall|j: int| 0 <= j < w.len() implies w[j] != ':' by {
        }
        lemma_badge_of_word(w, rest, kind);
    }
    if w == "renamed"@ {
        assert(w.len() == 7);
        assert(w != "deleted"@) by {
            assert(w[0] != "deleted"@[0]);
        }
        assert(status_badge_spec(w) == Some('R'));
        assert forall|j: int| 0 <= j < w.len() implies w[j] != ':' by {
        }
        lemma_badge_of_word(w, rest, kind);
    }
    if w == "copied"@ {
        assert(w.len() == 6);
        assert(status_badge_spec(w) == Some('C'));
        assert forall|j: int| 0 <= j < w.len() implies w[j] != ':' by {
        }
        lemma_badge_of_word(w, rest, kind);
    }
    if w == "typechange"@ {
        assert(w.len() == 10);
        assert(status_badge_spec(w) == Some('T'));
        assert forall|j: int| 0 <= j < w.len() implies w[j] != ':' by {
        }
        lemma_badge_of_word(w, rest, kind);
    }
    if w == "both modified"@ {
        assert(w.len() == 13);
        assert(status_badge_spec(w) == Some('U'));
        assert forall|j: int| 0 <= j < w.len() implies w[j] != ':' by {
        }
        lemma_badge_of_word(w, rest, kind);
    }
    if w == "both added"@ {
        assert(w.len() == 10);
        assert(w != "typechange"@) by {
            assert(w[0] != "typechange"@[0]);
        }
        assert(status_badge_spec(w) == Some('U'));
        assert forall|j: int| 0 <= j < w.len() implies w[j] != ':' by {
        }
        lemma_badge_of_word(w, rest, kind);
    }
    if w == "both deleted"@ {
        assert(w.len() == 12);
        assert(status_badge_spec(w) == Some('U'));
        assert forall|j: int| 0 <= j < w.len() implies w[j] != ':' by {
        }
        lemma_badge_of_word(w, rest, kind);
    }
    if w == "added by us"@ {
        assert(w.len() == 11);
        assert(status_badge_spec(w) == Some('U'));
        assert forall|j: int| 0 <= j < w.len() implies w[j] != ':' by {
        }
        lemma_badge_of_word(w, rest, kind);
    }
    if w == "added by them"@ {
        assert(w.len() == 13);
        assert(w != "both modified"@) by {
            assert(w[0] != "both modified"@[0]);
        }
        assert(status_badge_spec(w) == Some('U'));
        assert forall|j: int| 0 <= j < w.len() implies w[j] != ':' by {
        }
        lemma_badge_of_word(w, rest, kind);
    }
    if w == "deleted by us"@ {
        assert(w.len() == 13);
        assert(w != "both modified"@) by {
            assert(w[0] != "both modified"@[0]);
        }
        assert(w != "added by them"@) by {
            assert(w[0] != "added by them"@[0]);
        }
        assert(status_badge_spec(w) == Some('U'));
        assert forall|j: int| 0 <= j < w.len() implies w[j] != ':' by {
        }
        lemma_badge_of_word(w, rest, kind);
    }
    if w == "deleted by them"@ {
        assert(w.len() == 15);
        assert(status_badge_spec(w) == Some('U'));
        assert forall|j: int| 0 <= j < w.len() implies w[j] != ':' by {
        }
        lemma_badge_of_word(w, rest, kind);
    }
    if w == "unmerged"@ {
        assert(w.len() == 8);
        assert(w != "modified"@) by {
            assert(w[0] != "modified"@[0]);
        }
        assert(w != "new file"@) by {
            assert(w[0] != "new file"@[0]);
        }
        assert(status_badge_spec(w) == Some('U'));
        assert forall|j: int| 0 <= j < w.len() implies w[j] != ':' by {
        }
        lemma_badge_of_word(w, rest, kind);
    }
}

} // verus!
