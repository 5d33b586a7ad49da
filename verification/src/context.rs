//! Which git file is being edited, where its git directory is, and the comment char.
use vstd::prelude::*;

use crate::text::{chars_of, eq_str, string_of, trim, trimmed};

verus! {

#[derive(Debug, Clone, Copy, PartialEq, Eq, Structural)]
pub enum GitContext {
    Commit,
    Merge,
    Rebase,
    Squash,
    Tag,
    Unknown,
}

/// Commit, merge, squash, and tag files share the message layout.
pub open spec fn is_message_spec(c: GitContext) -> bool {
    c == GitContext::Commit || c == GitContext::Merge || c == GitContext::Squash || c
        == GitContext::Tag
}

/// The kind of file git names this way.
pub open spec fn context_for_name(name: Option<Seq<char>>) -> GitContext {
    match name {
        Some(n) => if n == "COMMIT_EDITMSG"@ {
            GitContext::Commit
        } else if n == "TAG_EDITMSG"@ {
            GitContext::Tag
        } else if n == "MERGE_MSG"@ {
            GitContext::Merge
        } else if n == "git-rebase-todo"@ {
            GitContext::Rebase
        } else if n == "SQUASH_MSG"@ {
            GitContext::Squash
        } else {
            GitContext::Unknown
        },
        None => GitContext::Unknown,
    }
}

impl GitContext {
    /// Commit, merge, squash, and tag files share the message layout.
    pub fn is_message(self) -> (r: bool)
        ensures
            r == is_message_spec(self),
    {
        match self {
            GitContext::Commit | GitContext::Merge | GitContext::Squash | GitContext::Tag => true,
            _ => false,
        }
    }
}

/// The last component of a path, as `Path::file_name` gives it, when it is valid text. It
/// follows the path rules of the platform the crate is built for.
pub uninterp spec fn file_name_of(path: Seq<char>) -> Option<Seq<char>>;

/// The parent of a path, as `Path::parent` gives it, by the path rules of the platform the
/// crate is built for.
pub uninterp spec fn parent_of(path: Seq<char>) -> Option<Seq<char>>;

/// A path with one more component, as `Path::join` gives it, by the path rules of the platform
/// the crate is built for.
pub uninterp spec fn join_path(base: Seq<char>, name: Seq<char>) -> Seq<char>;

/// `Path::file_name` of `path`, when the name is valid text. The result is named, not stated:
/// which part of a path is its file name follows the platform's path rules.
#[verifier::external_body]
fn path_file_name(path: &str) -> (r: Option<String>)
    ensures
        match r {
            Some(s) => file_name_of(path@) == Some(s@),
            None => file_name_of(path@) is None,
        },
{
    std::path::Path::new(path).file_name().and_then(|n| n.to_str()).map(|n| n.to_string())
}

/// `Path::parent` of `path`, as text. The result is named, not stated: what the parent is
/// follows the platform's path rules.
#[verifier::external_body]
fn path_parent(path: &str) -> (r: Option<String>)
    ensures
        match r {
            Some(s) => parent_of(path@) == Some(s@),
            None => parent_of(path@) is None,
        },
{
    std::path::Path::new(path).parent().map(|p| p.to_string_lossy().into_owned())
}

/// `Path::join` of `base` and `name`, as text. The result is named, not stated: the separator
/// and how an absolute `name` replaces `base` follow the platform's path rules.
#[verifier::external_body]
fn path_join(base: &str, name: &str) -> (r: String)
    ensures
        r@ == join_path(base@, name@),
{
    std::path::Path::new(base).join(name).to_string_lossy().into_owned()
}

/// The kind of git file with the file name `name`.
pub fn context_from_name(name: Option<&str>) -> (r: GitContext)
    ensures
        r == context_for_name(
            match name {
                Some(n) => Some(n@),
                None => None,
            },
        ),
{
    match name {
        Some(name) => {
            let n = chars_of(name);
            if eq_str(&n, "COMMIT_EDITMSG") {
                GitContext::Commit
            } else if eq_str(&n, "TAG_EDITMSG") {
                GitContext::Tag
            } else if eq_str(&n, "MERGE_MSG") {
                GitContext::Merge
            } else if eq_str(&n, "git-rebase-todo") {
                GitContext::Rebase
            } else if eq_str(&n, "SQUASH_MSG") {
                GitContext::Squash
            } else {
                GitContext::Unknown
            }
        },
        None => GitContext::Unknown,
    }
}

/// The kind of git file at `path`; only its file name matters.
pub fn detect_context(path: &str) -> (r: GitContext)
    ensures
        r == context_for_name(file_name_of(path@)),
{
    match path_file_name(path) {
        Some(name) => context_from_name(Some(name.as_str())),
        None => context_from_name(None),
    }
}

/// The git directory holding a file: none for unknown files, the parent of `rebase-merge`
/// for a todo, and the file's own directory otherwise.
pub open spec fn git_dir_spec(path: Seq<char>, context: GitContext) -> Option<Seq<char>> {
    match parent_of(path) {
        Some(parent) => match context {
            GitContext::Unknown => None,
            GitContext::Rebase => parent_of(parent),
            _ => Some(parent),
        },
        None => None,
    }
}

/// The git directory of a file of kind `context` whose directory is `parent` and whose
/// directory's directory is `grandparent`: none for unknown files, `grandparent` for a todo
/// (which lives in `rebase-merge`), and `parent` otherwise.
pub fn git_dir_of(context: GitContext, parent: Option<&str>, grandparent: Option<&str>) -> (r: Option<
    String,
>)
    ensures
        match r {
            Some(s) => parent is Some && match context {
                GitContext::Unknown => false,
                GitContext::Rebase => grandparent matches Some(g) && s@ == g@,
                _ => s@ == parent->0@,
            },
            None => parent is None || context == GitContext::Unknown || (context
                == GitContext::Rebase && grandparent is None),
        },
{
    match parent {
        None => None,
        Some(p) => match context {
            GitContext::Unknown => None,
            GitContext::Rebase => match grandparent {
                Some(g) => Some(string_of(&chars_of(g))),
                None => None,
            },
            _ => Some(string_of(&chars_of(p))),
        },
    }
}

/// The git directory holding `path`: the parent for message files, the parent of
/// `rebase-merge` for a todo, and none for unknown files.
pub fn git_dir(path: &str, context: GitContext) -> (r: Option<String>)
    ensures
        match r {
            Some(s) => git_dir_spec(path@, context) == Some(s@),
            None => git_dir_spec(path@, context) is None,
        },
{
    let parent = path_parent(path);
    let grandparent = match &parent {
        Some(p) => path_parent(p.as_str()),
        None => None,
    };
    git_dir_of(
        context,
        match &parent {
            Some(p) => Some(p.as_str()),
            None => None,
        },
        match &grandparent {
            Some(g) => Some(g.as_str()),
            None => None,
        },
    )
}

/// Where messages for pending rewords are kept between the todo and git's reword stop.
pub fn store_dir(git_dir: &str) -> (r: String)
    ensures
        r@ == join_path(join_path(git_dir@, "gitmedit"@), "reword"@),
{
    let base = path_join(git_dir, "gitmedit");
    path_join(base.as_str(), "reword")
}

/// The comment char `core.commentChar` sets: its first char, with `#` for an empty value and
/// for `auto`, which is not supported.
pub open spec fn comment_char_spec(value: Seq<char>) -> char {
    let t = trim(value);
    if t.len() == 0 || t == "auto"@ {
        '#'
    } else {
        t[0]
    }
}

/// Empty and `auto` fall back to `#`, since automatic selection is not supported.
pub fn parse_comment_char(value: &str) -> (r: char)
    ensures
        r == comment_char_spec(value@),
{
    let v = chars_of(value);
    let t = trimmed(&v);
    if t.len() == 0 || eq_str(&t, "auto") {
        '#'
    } else {
        t[0]
    }
}

/// `s` with each `'` written as `'\''`, which closes the quote, adds an escaped quote and opens
/// the quote again.
pub open spec fn escape_quotes(s: Seq<char>) -> Seq<char>
    decreases s.len(),
{
    if s.len() == 0 {
        Seq::empty()
    } else {
        escape_quotes(s.drop_last()) + if s.last() == '\'' {
            seq!['\'', '\\', '\'', '\'']
        } else {
            seq![s.last()]
        }
    }
}

/// Quote a path as one shell word, since git runs the editor command through a shell.
pub fn shell_quote(path: &str) -> (r: String)
    ensures
        r@ == seq!['\''] + escape_quotes(path@) + seq!['\''],
{
    let v = chars_of(path);
    let mut out: Vec<char> = Vec::new();
    out.push('\'');
    let mut i: usize = 0;
    while i < v.len()
        invariant
            i <= v@.len(),
            out@ == seq!['\''] + escape_quotes(v@.take(i as int)),
        decreases v@.len() - i,
    {
        assert(v@.take(i + 1).drop_last() =~= v@.take(i as int));
        if v[i] == '\'' {
            out.push('\'');
            out.push('\\');
            out.push('\'');
            out.push('\'');
        } else {
            out.push(v[i]);
        }
        assert(out@ =~= seq!['\''] + escape_quotes(v@.take(i + 1)));
        i += 1;
    }
    assert(v@.take(i as int) =~= v@);
    out.push('\'');
    string_of(&out)
}

} // verus!
