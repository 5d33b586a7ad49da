//! Pending rewords: the subjects typed in the rebase table are kept by commit hash until git
//! stops to reword that commit. These are the decisions about which stored message belongs to
//! which commit and what a stored message holds; reading and writing the files is the caller's.
use vstd::prelude::*;

use crate::rewords::Rewords;
use crate::text::{
    chars_of, extend_chars, extend_str, find, find_char, lemma_split_first, lemma_split_no_sep, slice_of, starts_with, str_lines,
    str_lines_of, string_of, trim, trimmed, words, words_of,
};

verus! {

/// Todo files abbreviate hashes and `rebase-merge/done` does not, so either may prefix the other.
pub open spec fn same_commit_spec(a: Seq<char>, b: Seq<char>) -> bool {
    a.len() > 0 && b.len() > 0 && (starts_with(a, b) || starts_with(b, a))
}

/// Todo files abbreviate hashes and `rebase-merge/done` does not, so either may prefix the other.
pub fn same_commit(a: &str, b: &str) -> (r: bool)
    ensures
        r == same_commit_spec(a@, b@),
{
    let av = chars_of(a);
    let bv = chars_of(b);
    av.len() > 0 && bv.len() > 0 && (crate::text::has_prefix(&av, &bv) || crate::text::has_prefix(
        &bv,
        &av,
    ))
}

/// `s` without leading occurrences of `c`.
pub open spec fn strip_leading(s: Seq<char>, c: char) -> Seq<char>
    decreases s.len(),
{
    if s.len() > 0 && s[0] == c {
        strip_leading(s.drop_first(), c)
    } else {
        s
    }
}

/// `s` without trailing occurrences of `c`.
pub open spec fn strip_trailing(s: Seq<char>, c: char) -> Seq<char>
    decreases s.len(),
{
    if s.len() > 0 && s.last() == c {
        strip_trailing(s.drop_last(), c)
    } else {
        s
    }
}

/// The body of a message: what follows its first line, without surrounding blank lines.
pub open spec fn message_body(original: Option<Seq<char>>) -> Seq<char> {
    match original {
        Some(m) => match find(m, '\n') {
            Some(i) => strip_trailing(strip_leading(m.skip(i + 1), '\n'), '\n'),
            None => Seq::empty(),
        },
        None => Seq::empty(),
    }
}

/// The new subject followed by the body of the original message, if it had one.
pub open spec fn replace_subject_spec(original: Option<Seq<char>>, subject: Seq<char>) -> Seq<char> {
    let body = message_body(original);
    if body.len() == 0 {
        subject.push('\n')
    } else {
        subject + seq!['\n', '\n'] + body.push('\n')
    }
}

/// `s` without its leading and trailing newlines.
fn trim_newlines(s: &[char]) -> (r: Vec<char>)
    ensures
        r@ == strip_trailing(strip_leading(s@, '\n'), '\n'),
{
    let mut a: usize = 0;
    assert(s@.skip(0) =~= s@);
    while a < s.len() && s[a] == '\n'
        invariant
            a <= s@.len(),
            strip_leading(s@, '\n') == strip_leading(s@.skip(a as int), '\n'),
        decreases s@.len() - a,
    {
        assert(s@.skip(a as int).drop_first() =~= s@.skip(a + 1));
        a += 1;
    }
    let lead = slice_of(s, a, s.len());
    assert(lead@ =~= s@.skip(a as int));
    let mut b: usize = lead.len();
    assert(lead@.take(b as int) =~= lead@);
    while b > 0 && lead[b - 1] == '\n'
        invariant
            b <= lead@.len(),
            strip_trailing(lead@, '\n') == strip_trailing(lead@.take(b as int), '\n'),
        decreases b,
    {
        assert(lead@.take(b as int).drop_last() =~= lead@.take(b - 1));
        b -= 1;
    }
    let r = slice_of(&lead, 0, b);
    assert(r@ =~= lead@.take(b as int));
    r
}

/// The new subject followed by the body of the original message, if it had one.
pub fn replace_subject(original: Option<&str>, subject: &str) -> (r: String)
    ensures
        r@ == replace_subject_spec(
            match original {
                Some(m) => Some(m@),
                None => None,
            },
            subject@,
        ),
{
    let body: Vec<char> = match original {
        Some(m) => {
            let mv = chars_of(m);
            match find_char(&mv, '\n') {
                Some(i) => {
                    let n = mv.len();
                    let rest = slice_of(&mv, i + 1, n);
                    assert(rest@ =~= mv@.skip(i + 1));
                    trim_newlines(&rest)
                },
                None => Vec::new(),
            }
        },
        None => Vec::new(),
    };
    let mut out: Vec<char> = chars_of(subject);
    if body.len() == 0 {
        out.push('\n');
    } else {
        out.push('\n');
        out.push('\n');
        extend_chars(&mut out, &body);
        out.push('\n');
        assert(out@ =~= subject@ + seq!['\n', '\n'] + body@.push('\n'));
    }
    string_of(&out)
}

/// A hex digit, as `char::is_ascii_hexdigit` decides.
pub open spec fn is_hex(c: char) -> bool {
    ('0' <= c && c <= '9') || ('a' <= c && c <= 'f') || ('A' <= c && c <= 'F')
}

/// Only non-empty hex hashes are used as file names, so a hand-edited todo cannot write
/// outside the store.
pub open spec fn storable_spec(hash: Seq<char>) -> bool {
    hash.len() > 0 && forall|i: int| 0 <= i < hash.len() ==> is_hex(#[trigger] hash[i])
}

/// Whether a hash may name a stored message file.
pub fn is_storable_hash(hash: &str) -> (r: bool)
    ensures
        r == storable_spec(hash@),
{
    let v = chars_of(hash);
    if v.len() == 0 {
        return false;
    }
    let mut i: usize = 0;
    while i < v.len()
        invariant
            i <= v@.len(),
            v@ == hash@,
            forall|k: int| 0 <= k < i ==> is_hex(#[trigger] v@[k]),
        decreases v@.len() - i,
    {
        let c = v[i];
        if !(('0' <= c && c <= '9') || ('a' <= c && c <= 'f') || ('A' <= c && c <= 'F')) {
            assert(!is_hex(v@[i as int]));
            return false;
        }
        i += 1;
    }
    true
}

/// The pending rewords whose hash may name a stored file, in order.
pub open spec fn storable_entries(s: Seq<(Seq<char>, Seq<char>)>) -> Seq<(Seq<char>, Seq<char>)>
    decreases s.len(),
{
    if s.len() == 0 {
        Seq::empty()
    } else {
        let before = storable_entries(s.drop_last());
        if storable_spec(s.last().0) {
            before.push(s.last())
        } else {
            before
        }
    }
}

/// The pending rewords to store: those whose hash may name a stored file.
pub fn storable_rewords(rewords: &Rewords) -> (r: Vec<(String, String)>)
    ensures
        Seq::new(r@.len(), |i: int| (r@[i].0@, r@[i].1@)) == storable_entries(rewords@),
{
    let entries = rewords.entries();
    let ghost all = rewords@;
    let mut out: Vec<(String, String)> = Vec::new();
    let mut i: usize = 0;
    while i < entries.len()
        invariant
            i <= entries@.len(),
            all == rewords@,
            Seq::new(entries@.len(), |k: int| (entries@[k].0@, entries@[k].1@)) == all,
            Seq::new(out@.len(), |k: int| (out@[k].0@, out@[k].1@)) == storable_entries(
                all.take(i as int),
            ),
        decreases entries@.len() - i,
    {
        assert(all.take(i + 1).drop_last() =~= all.take(i as int));
        assert(all[i as int] == (entries@[i as int].0@, entries@[i as int].1@));
        let ghost before = out@;
        if is_storable_hash(entries[i].0.as_str()) {
            out.push((entries[i].0.clone(), entries[i].1.clone()));
            assert(Seq::new(out@.len(), |k: int| (out@[k].0@, out@[k].1@)) =~= Seq::new(
                before.len(),
                |k: int| (before[k].0@, before[k].1@),
            ).push(all[i as int]));
        }
        i += 1;
    }
    assert(all.take(i as int) =~= all);
    out
}

/// The last line of `ls` that is not blank, searching below index `n`.
pub open spec fn last_nonblank(ls: Seq<Seq<char>>, n: int) -> Option<Seq<char>>
    decreases n,
{
    if n <= 0 || n > ls.len() {
        None
    } else if trim(ls[n - 1]).len() > 0 {
        Some(ls[n - 1])
    } else {
        last_nonblank(ls, n - 1)
    }
}

/// The commit git has stopped to reword, from its `rebase-merge/done` file: the hash of the
/// last instruction when that instruction is `reword` or `r`.
pub open spec fn reword_target_spec(done: Seq<char>) -> Option<Seq<char>> {
    match last_nonblank(str_lines(done), str_lines(done).len() as int) {
        Some(last) => {
            let ws = words(last);
            if ws.len() >= 2 && (ws[0] == "reword"@ || ws[0] == "r"@) {
                Some(ws[1])
            } else {
                None
            }
        },
        None => None,
    }
}

/// The hash of the commit git has stopped to reword, read from `rebase-merge/done`.
pub fn reword_target(done: &str) -> (r: Option<String>)
    ensures
        match r {
            Some(h) => reword_target_spec(done@) == Some(h@),
            None => reword_target_spec(done@) is None,
        },
{
    let v = chars_of(done);
    let ls = str_lines_of(&v);
    let ghost all = str_lines(done@);
    let mut n = ls.len();
    let mut found: Option<usize> = None;
    while n > 0 && found.is_none()
        invariant
            n <= ls@.len(),
            all == str_lines(done@),
            ls@.len() == all.len(),
            forall|k: int| 0 <= k < ls@.len() ==> (#[trigger] ls@[k])@ == all[k],
            found is None ==> last_nonblank(all, all.len() as int) == last_nonblank(all, n as int),
            found matches Some(k) ==> k < ls@.len() && last_nonblank(all, all.len() as int) == Some(
                all[k as int],
            ),
        decreases n, if found is None { 1int } else { 0int },
    {
        let t = trimmed(&ls[n - 1]);
        if t.len() > 0 {
            found = Some(n - 1);
        } else {
            n -= 1;
        }
    }
    let k = match found {
        Some(k) => k,
        None => return None,
    };
    let ws = words_of(&ls[k]);
    if ws.len() >= 2 && (crate::text::eq_str(&ws[0], "reword") || crate::text::eq_str(&ws[0], "r")) {
        Some(string_of(&ws[1]))
    } else {
        None
    }
}

/// The subject a stored message gives: its first line.
pub open spec fn stored_subject_spec(message: Seq<char>) -> Seq<char> {
    if str_lines(message).len() > 0 {
        str_lines(message)[0]
    } else {
        Seq::empty()
    }
}

/// The subject a stored message gives: its first line.
pub fn stored_subject(message: &str) -> (r: String)
    ensures
        r@ == stored_subject_spec(message@),
{
    let v = chars_of(message);
    let ls = str_lines_of(&v);
    if ls.len() > 0 {
        string_of(&ls[0])
    } else {
        String::new()
    }
}

/// The first of `hashes` that names the same commit as the stored file `name`.
pub open spec fn matching_hash_spec(hashes: Seq<Seq<char>>, name: Seq<char>, from: int) -> Option<int>
    decreases hashes.len() - from,
{
    if from < 0 || from >= hashes.len() {
        None
    } else if same_commit_spec(hashes[from], name) {
        Some(from)
    } else {
        matching_hash_spec(hashes, name, from + 1)
    }
}

/// The index of the first of `hashes` that names the same commit as the stored file `name`;
/// a stored file that matches none is left over from an earlier rebase.
pub fn matching_hash(hashes: &[String], name: &str) -> (r: Option<usize>)
    ensures
        match r {
            Some(i) => matching_hash_spec(Seq::new(hashes@.len(), |k: int| hashes@[k]@), name@, 0)
                == Some(i as int),
            None => matching_hash_spec(Seq::new(hashes@.len(), |k: int| hashes@[k]@), name@, 0) is None,
        },
{
    let ghost hs = Seq::new(hashes@.len(), |k: int| hashes@[k]@);
    let mut i: usize = 0;
    while i < hashes.len()
        invariant
            i <= hashes@.len(),
            hs == Seq::new(hashes@.len(), |k: int| hashes@[k]@),
            matching_hash_spec(hs, name@, 0) == matching_hash_spec(hs, name@, i as int),
        decreases hashes@.len() - i,
    {
        if same_commit(hashes[i].as_str(), name) {
            return Some(i);
        }
        i += 1;
    }
    None
}


proof fn lemma_strip_leading(s: Seq<char>, c: char)
    ensures
        strip_leading(s, c).len() > 0 ==> strip_leading(s, c)[0] != c,
        strip_leading(s, c).len() <= s.len(),
        s.len() > 0 && s[0] != c ==> strip_leading(s, c) == s,
    decreases s.len(),
{
    if s.len() > 0 && s[0] == c {
        lemma_strip_leading(s.drop_first(), c);
    }
}

proof fn lemma_strip_trailing(s: Seq<char>, c: char)
    ensures
        strip_trailing(s, c).len() > 0 ==> strip_trailing(s, c).last() != c,
        strip_trailing(s, c).len() <= s.len(),
        strip_trailing(s, c).len() > 0 && s.len() > 0 ==> strip_trailing(s, c)[0] == s[0],
        s.len() > 0 && s.last() != c ==> strip_trailing(s, c) == s,
    decreases s.len(),
{
    if s.len() > 0 && s.last() == c {
        lemma_strip_trailing(s.drop_last(), c);
    }
}

/// Replacing the subject keeps the body: the stored message starts with the new subject as
/// its first line, and its body is the body of the original message, whatever the original
/// held, for every subject of one line.
pub proof fn law_replace_subject_keeps_body(original: Option<Seq<char>>, subject: Seq<char>)
    requires
        forall|i: int| 0 <= i < subject.len() ==> subject[i] != '\n',
    ensures
        find(replace_subject_spec(original, subject), '\n') == Some(subject.len() as int),
        replace_subject_spec(original, subject).take(subject.len() as int) == subject,
        message_body(Some(replace_subject_spec(original, subject))) == message_body(original),
{
    let r = replace_subject_spec(original, subject);
    let b = message_body(original);
    let n = subject.len() as int;
    assert(r[n] == '\n');
    assert forall|j: int| 0 <= j < n implies r[j] != '\n' by {
        assert(r[j] == subject[j]);
    }
    crate::text::lemma_find_first(r, '\n', n);
    assert(r.take(n) =~= subject);
    match original {
        Some(m) => match find(m, '\n') {
            Some(i) => {
                lemma_strip_leading(m.skip(i + 1), '\n');
                lemma_strip_trailing(strip_leading(m.skip(i + 1), '\n'), '\n');
            },
            None => {},
        },
        None => {},
    }
    if b.len() == 0 {
        assert(r.skip(n + 1) =~= Seq::<char>::empty());
    } else {
        let tail = r.skip(n + 1);
        assert(tail =~= seq!['\n'] + b.push('\n'));
        assert(tail.drop_first() =~= b.push('\n'));
        lemma_strip_leading(b.push('\n'), '\n');
        assert(b.push('\n')[0] == b[0]);
        assert(strip_leading(tail, '\n') == b.push('\n'));
        assert(b.push('\n').drop_last() =~= b);
        lemma_strip_trailing(b, '\n');
        assert(strip_trailing(b.push('\n'), '\n') == b);
    }
}
/// A stored reword reads back as the subject it was stored with: the first line of the
/// message `replace_subject` builds is the subject, whatever the original message held, for
/// every subject of one line that does not end in a carriage return.
pub proof fn law_stored_subject_reads_back(original: Option<Seq<char>>, subject: Seq<char>)
    requires
        forall|i: int| 0 <= i < subject.len() ==> subject[i] != '\n',
        subject.len() == 0 || subject.last() != '\r',
    ensures
        stored_subject_spec(replace_subject_spec(original, subject)) == subject,
{
    let r = replace_subject_spec(original, subject);
    let b = message_body(original);
    if b.len() == 0 {
        assert(r.drop_last() =~= subject);
        lemma_split_no_sep(subject, '\n');
    } else {
        let rest = seq!['\n'] + b;
        assert(r.drop_last() =~= subject.push('\n') + rest);
        lemma_split_first(subject, rest, '\n');
    }
}

} // verus!
