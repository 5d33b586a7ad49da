//! A git message file split into the message the user writes and the comment trailer that
//! git owns, and put back together.
use vstd::prelude::*;

use crate::text::{
    all_ws, chars_of, eq_str, is_blank, join, join_strings, lemma_join_split, lemma_split_len,
    lemma_trim_empty, lines_of, lines_of_chars, slice_of, string_of, trim, trimmed, views,
};

verus! {

/// A git message file split into the part the user writes and the comment trailer git owns.
#[derive(Debug, Clone, PartialEq)]
pub struct MessageFile {
    /// Lines shown in the editor.
    pub message: Vec<String>,
    /// Comment block, and anything below a scissors line, written back verbatim.
    pub trailer: Vec<String>,
    final_newline: bool,
}

/// What a message file holds, with its strings as char sequences.
pub struct MessageFileV {
    pub message: Seq<Seq<char>>,
    pub trailer: Seq<Seq<char>>,
    pub final_newline: bool,
}

impl View for MessageFile {
    type V = MessageFileV;

    closed spec fn view(&self) -> MessageFileV {
        MessageFileV {
            message: views(self.message@),
            trailer: views(self.trailer@),
            final_newline: self.final_newline,
        }
    }
}

/// The marker text of a scissors line.
pub open spec fn scissors_text() -> Seq<char> {
    "------------------------ >8 ------------------------"@
}

/// `<cc> ------------------------ >8 ------------------------`, surrounding whitespace allowed.
pub open spec fn is_scissors_spec(l: Seq<char>, cc: char) -> bool {
    l.len() > 0 && l[0] == cc && trim(l.drop_first()) == scissors_text()
}

/// A line that starts with the comment char.
pub open spec fn is_comment(l: Seq<char>, cc: char) -> bool {
    l.len() > 0 && l[0] == cc
}

/// A line that is empty or all whitespace.
pub open spec fn is_blank_line(l: Seq<char>) -> bool {
    trim(l).len() == 0
}

/// `<cc> ------------------------ >8 ------------------------`, as `git commit -v` writes.
pub fn is_scissors(line: &str, cc: char) -> (r: bool)
    ensures
        r == is_scissors_spec(line@, cc),
{
    let v = chars_of(line);
    is_scissors_chars(&v, cc)
}

fn is_scissors_chars(v: &[char], cc: char) -> (r: bool)
    ensures
        r == is_scissors_spec(v@, cc),
{
    if v.len() == 0 || v[0] != cc {
        return false;
    }
    let rest = slice_of(v, 1, v.len());
    assert(rest@ =~= v@.drop_first());
    let t = trimmed(&rest);
    eq_str(&t, "------------------------ >8 ------------------------")
}

/// The lines with trailing blank lines removed.
pub open spec fn trim_blank_tail(s: Seq<Seq<char>>) -> Seq<Seq<char>>
    decreases s.len(),
{
    if s.len() > 0 && is_blank_line(s.last()) {
        trim_blank_tail(s.drop_last())
    } else {
        s
    }
}

/// The first index in `[lo, hi)` of a scissors line, or `hi`.
pub open spec fn first_scissors(lines: Seq<Seq<char>>, cc: char, lo: int, hi: int) -> int
    decreases hi - lo,
{
    if lo >= hi {
        hi
    } else if is_scissors_spec(lines[lo], cc) {
        lo
    } else {
        first_scissors(lines, cc, lo + 1, hi)
    }
}

/// The first index in `[lo, hi)` of a comment line, or `hi`.
pub open spec fn first_comment(lines: Seq<Seq<char>>, cc: char, lo: int, hi: int) -> int
    decreases hi - lo,
{
    if lo >= hi {
        hi
    } else if is_comment(lines[lo], cc) {
        lo
    } else {
        first_comment(lines, cc, lo + 1, hi)
    }
}

/// The lines of a message file: none for an empty file, else the pieces between newlines of
/// the text without its final newline.
pub open spec fn message_lines(raw: Seq<char>) -> Seq<Seq<char>> {
    if raw.len() == 0 {
        Seq::empty()
    } else {
        lines_of(raw)
    }
}

/// The message, trailer and index of the last line moved into the message, after looking at
/// lines `fc..i`. The message starts as the lines before `fc` without trailing blanks.
/// Comment and blank lines go to the trailer. Any other line moves up into the message,
/// after one empty line when the message is not empty and the line before it did not move.
pub open spec fn split_fold(lines: Seq<Seq<char>>, cc: char, fc: int, i: int) -> (
    Seq<Seq<char>>,
    Seq<Seq<char>>,
    Option<int>,
)
    decreases i - fc,
{
    if i <= fc {
        (trim_blank_tail(lines.take(fc)), Seq::empty(), None)
    } else {
        let (m, t, p) = split_fold(lines, cc, fc, i - 1);
        let l = lines[i - 1];
        if is_comment(l, cc) || is_blank_line(l) {
            (m, t.push(l), p)
        } else {
            let m2 = if m.len() > 0 && p != Some(i - 2) {
                m.push(Seq::empty())
            } else {
                m
            };
            (m2.push(l), t, Some(i - 1))
        }
    }
}

/// Where the scissors line is (or the line count), and where the first comment before it is
/// (or the scissors index).
pub open spec fn split_points(lines: Seq<Seq<char>>, cc: char) -> (int, int) {
    let sc = first_scissors(lines, cc, 0, lines.len() as int);
    (sc, first_comment(lines, cc, 0, sc))
}

/// How a file splits: the message and the trailer after moving message text that stands
/// between comments, then everything from the scissors line on appended to the trailer.
pub open spec fn split_spec(raw: Seq<char>, cc: char) -> MessageFileV {
    let lines = message_lines(raw);
    let (sc, fc) = split_points(lines, cc);
    let (m, t, _p) = split_fold(lines, cc, fc, sc);
    MessageFileV {
        message: m,
        trailer: t + lines.skip(sc),
        final_newline: raw.len() > 0 && raw.last() == '\n',
    }
}

/// The file text for an edited message: the message without trailing blank lines, one empty
/// line and the trailer when there is a trailer, lines joined by newlines, and a final newline
/// when the file had one.
pub open spec fn assemble_spec(f: MessageFileV, message: Seq<Seq<char>>) -> Seq<char> {
    let m = trim_blank_tail(message);
    let out = if f.trailer.len() > 0 {
        m.push(Seq::empty()) + f.trailer
    } else {
        m
    };
    let s = join(out, seq!['\n']);
    if f.final_newline {
        s.push('\n')
    } else {
        s
    }
}

/// Split a message file into the lines the user edits and the trailer git owns.
pub fn split(raw: &str, cc: char) -> (r: MessageFile)
    ensures
        r@ == split_spec(raw@, cc),
{
    let v = chars_of(raw);
    let final_newline = v.len() > 0 && v[v.len() - 1] == '\n';
    let lines: Vec<Vec<char>> = if v.len() == 0 {
        Vec::new()
    } else {
        lines_of_chars(&v)
    };
    let ghost ls = message_lines(v@);
    assert(lines@.len() == ls.len());
    assert(forall|k: int| 0 <= k < lines@.len() ==> (#[trigger] lines@[k])@ == ls[k]);
    let n = lines.len();
    let mut scissors: usize = 0;
    while scissors < n && !is_scissors_chars(&lines[scissors], cc)
        invariant
            scissors <= n,
            n == lines@.len(),
            n == ls.len(),
            forall|k: int| 0 <= k < lines@.len() ==> (#[trigger] lines@[k])@ == ls[k],
            first_scissors(ls, cc, 0, n as int) == first_scissors(ls, cc, scissors as int, n as int),
        decreases n - scissors,
    {
        scissors += 1;
    }
    let mut fc: usize = 0;
    while fc < scissors && !(lines[fc].len() > 0 && lines[fc][0] == cc)
        invariant
            fc <= scissors <= n,
            n == lines@.len(),
            n == ls.len(),
            forall|k: int| 0 <= k < lines@.len() ==> (#[trigger] lines@[k])@ == ls[k],
            first_comment(ls, cc, 0, scissors as int) == first_comment(
                ls,
                cc,
                fc as int,
                scissors as int,
            ),
        decreases scissors - fc,
    {
        fc += 1;
    }
    let mut message: Vec<String> = Vec::new();
    let mut k: usize = 0;
    while k < fc
        invariant
            k <= fc <= n,
            n == lines@.len(),
            n == ls.len(),
            forall|j: int| 0 <= j < lines@.len() ==> (#[trigger] lines@[j])@ == ls[j],
            message@.len() == k,
            forall|j: int| 0 <= j < k ==> (#[trigger] message@[j])@ == ls[j],
        decreases fc - k,
    {
        message.push(string_of(&lines[k]));
        k += 1;
    }
    assert(views(message@) =~= ls.take(fc as int));
    trim_trailing_blank(&mut message);
    let mut trailer: Vec<String> = Vec::new();
    let mut prev_moved: Option<usize> = None;
    let mut i: usize = fc;
    while i < scissors
        invariant
            fc <= i <= scissors <= n,
            n == lines@.len(),
            n == ls.len(),
            forall|j: int| 0 <= j < lines@.len() ==> (#[trigger] lines@[j])@ == ls[j],
            is_comment(ls[fc as int], cc) || fc == scissors,
            (views(message@), views(trailer@), match prev_moved {
                Some(p) => Some(p as int),
                None => None,
            }) == split_fold(ls, cc, fc as int, i as int),
            prev_moved matches Some(p) ==> p < i,
        decreases scissors - i,
    {
        let line = &lines[i];
        let blank = is_blank(line);
        proof {
            lemma_trim_empty(line@);
        }
        let ghost before_m = views(message@);
        let ghost before_t = views(trailer@);
        if (line.len() > 0 && line[0] == cc) || blank {
            trailer.push(string_of(line));
            assert(views(trailer@) =~= before_t.push(ls[i as int]));
        } else {
            assert(i > fc);
            let adjacent = match prev_moved {
                Some(p) => p + 1 == i,
                None => false,
            };
            if message.len() > 0 && !adjacent {
                message.push(String::new());
            }
            message.push(string_of(line));
            proof {
                if before_m.len() > 0 && !adjacent {
                    assert(views(message@) =~= before_m.push(Seq::empty()).push(ls[i as int]));
                } else {
                    assert(views(message@) =~= before_m.push(ls[i as int]));
                }
            }
            prev_moved = Some(i);
        }
        i += 1;
    }
    let ghost before_t = views(trailer@);
    assert(forall|q: int| 0 <= q < before_t.len() ==> (#[trigger] trailer@[q])@ == before_t[q]);
    let mut j: usize = scissors;
    while j < n
        invariant
            scissors <= j <= n,
            n == lines@.len(),
            n == ls.len(),
            forall|q: int| 0 <= q < lines@.len() ==> (#[trigger] lines@[q])@ == ls[q],
            trailer@.len() == before_t.len() + (j - scissors),
            forall|q: int| 0 <= q < before_t.len() ==> (#[trigger] trailer@[q])@ == before_t[q],
            forall|q: int|
                before_t.len() <= q < trailer@.len() ==> (#[trigger] trailer@[q])@ == ls[q
                    - before_t.len() + scissors],
        decreases n - j,
    {
        trailer.push(string_of(&lines[j]));
        j += 1;
    }
    assert(views(trailer@) =~= before_t + ls.subrange(scissors as int, n as int));
    assert(ls.subrange(scissors as int, n as int) =~= ls.skip(scissors as int));
    MessageFile { message, trailer, final_newline }
}

impl MessageFile {
    /// The comment trailer, as read.
    pub fn trailer_lines(&self) -> (r: &Vec<String>)
        ensures
            views(r@) == self@.trailer,
    {
        &self.trailer
    }

    /// The message lines shown in the editor.
    pub fn message_lines(&self) -> (r: &Vec<String>)
        ensures
            views(r@) == self@.message,
    {
        &self.message
    }

    /// Replaces the message lines; the trailer stays.
    pub fn set_message(&mut self, lines: Vec<String>)
        ensures
            final(self)@ == (MessageFileV { message: views(lines@), ..old(self)@ }),
    {
        self.message = lines;
    }

    /// Message without trailing blank lines, one blank line, then the trailer as read.
    pub fn assemble(&self, message: &[String]) -> (r: String)
        ensures
            r@ == assemble_spec(self@, views(message@)),
    {
        let mut out: Vec<String> = Vec::new();
        let mut k: usize = 0;
        while k < message.len()
            invariant
                k <= message@.len(),
                out@.len() == k,
                forall|j: int| 0 <= j < k ==> (#[trigger] out@[j])@ == message@[j]@,
            decreases message@.len() - k,
        {
            out.push(message[k].clone());
            k += 1;
        }
        assert(views(out@) =~= views(message@));
        trim_trailing_blank(&mut out);
        if self.trailer.len() > 0 {
            out.push(String::new());
            let ghost base = views(out@);
            assert(forall|j: int| 0 <= j < base.len() ==> (#[trigger] out@[j])@ == base[j]);
            let mut t: usize = 0;
            while t < self.trailer.len()
                invariant
                    t <= self.trailer@.len(),
                    out@.len() == base.len() + t,
                    forall|j: int| 0 <= j < base.len() ==> (#[trigger] out@[j])@ == base[j],
                    forall|j: int|
                        base.len() <= j < out@.len() ==> (#[trigger] out@[j])@ == self.trailer@[j
                            - base.len()]@,
                decreases self.trailer@.len() - t,
            {
                out.push(self.trailer[t].clone());
                t += 1;
            }
            assert(views(out@) =~= base + views(self.trailer@));
            assert(base =~= trim_blank_tail(views(message@)).push(Seq::empty()));
        }
        let mut s = join_strings(&out, '\n');
        if self.final_newline {
            crate::text::push_char(&mut s, '\n');
        }
        s
    }
}

/// Remove the trailing blank lines.
fn trim_trailing_blank(lines: &mut Vec<String>)
    ensures
        views(final(lines)@) == trim_blank_tail(views(old(lines)@)),
{
    while lines.len() > 0 && is_blank(&chars_of(lines[lines.len() - 1].as_str()))
        invariant
            trim_blank_tail(views(lines@)) == trim_blank_tail(views(old(lines)@)),
        decreases lines@.len(),
    {
        let ghost before = views(lines@);
        lines.pop();
        assert(views(lines@) =~= before.drop_last());
    }
}


pub proof fn lemma_trim_blank_tail_idem(s: Seq<Seq<char>>)
    ensures
        trim_blank_tail(trim_blank_tail(s)) == trim_blank_tail(s),
    decreases s.len(),
{
    if s.len() > 0 && is_blank_line(s.last()) {
        lemma_trim_blank_tail_idem(s.drop_last());
    }
}

/// While every line looked at is a comment or blank, nothing moves: the message is the lines
/// before the first comment without trailing blanks, the trailer the lines looked at.
pub proof fn lemma_fold_no_move(ls: Seq<Seq<char>>, cc: char, fc: int, i: int)
    requires
        0 <= fc <= i <= ls.len(),
        forall|k: int| fc <= k < i ==> is_comment(#[trigger] ls[k], cc) || is_blank_line(ls[k]),
    ensures
        split_fold(ls, cc, fc, i) == (trim_blank_tail(ls.take(fc)), ls.subrange(fc, i), None::<int>),
    decreases i - fc,
{
    if i > fc {
        lemma_fold_no_move(ls, cc, fc, i - 1);
        assert(ls.subrange(fc, i - 1).push(ls[i - 1]) =~= ls.subrange(fc, i));
    } else {
        assert(ls.subrange(fc, i) =~= Seq::<Seq<char>>::empty());
    }
}

pub proof fn lemma_points_bounds(ls: Seq<Seq<char>>, cc: char)
    ensures
        0 <= split_points(ls, cc).1 <= split_points(ls, cc).0 <= ls.len(),
{
    lemma_first_scissors_bound(ls, cc, 0, ls.len() as int);
    lemma_first_comment_bound(ls, cc, 0, split_points(ls, cc).0);
}

pub proof fn lemma_first_scissors_bound(ls: Seq<Seq<char>>, cc: char, lo: int, hi: int)
    requires
        lo <= hi,
    ensures
        lo <= first_scissors(ls, cc, lo, hi) <= hi,
    decreases hi - lo,
{
    if lo < hi && !is_scissors_spec(ls[lo], cc) {
        lemma_first_scissors_bound(ls, cc, lo + 1, hi);
    }
}

pub proof fn lemma_first_comment_bound(ls: Seq<Seq<char>>, cc: char, lo: int, hi: int)
    requires
        lo <= hi,
    ensures
        lo <= first_comment(ls, cc, lo, hi) <= hi,
    decreases hi - lo,
{
    if lo < hi && !is_comment(ls[lo], cc) {
        lemma_first_comment_bound(ls, cc, lo + 1, hi);
    }
}

/// Joining the lines of a message file with newlines, and adding the final newline it had,
/// gives the file back.
pub proof fn lemma_join_message_lines(raw: Seq<char>)
    ensures
        ({
            let s = join(message_lines(raw), seq!['\n']);
            if raw.len() > 0 && raw.last() == '\n' {
                s.push('\n')
            } else {
                s
            }
        }) == raw,
{
    if raw.len() == 0 {
        assert(join(Seq::<Seq<char>>::empty(), seq!['\n']) =~= raw);
    } else {
        crate::text::lemma_lines_of(raw);
        if raw.last() == '\n' {
            lemma_join_split(raw.drop_last(), '\n');
            assert(raw.drop_last().push('\n') =~= raw);
        } else {
            lemma_join_split(raw, '\n');
        }
    }
}

/// Lines laid out as git writes a message file: only comment and blank lines between the
/// first comment and the scissors line, and a message that is either every line without
/// trailing blank lines, or ends with exactly one empty line before the first comment.
pub open spec fn round_trip_shape(ls: Seq<Seq<char>>, cc: char) -> bool {
    let (sc, fc) = split_points(ls, cc);
    &&& forall|k: int| fc <= k < sc ==> is_comment(#[trigger] ls[k], cc) || is_blank_line(ls[k])
    &&& (fc == ls.len() && trim_blank_tail(ls) == ls) || (fc < ls.len() && ls.take(fc)
        == trim_blank_tail(ls.take(fc)).push(Seq::empty()))
}

/// Round trip of an untouched message file: when no message text stands between the
/// comments (nothing moves), and the message is either the whole file without trailing blank
/// lines, or ends with exactly one empty line before the first comment or scissors line, then
/// assembling the split file with its own message gives the file back byte for byte.
pub proof fn law_message_round_trip(raw: Seq<char>, cc: char)
    requires
        round_trip_shape(message_lines(raw), cc),
    ensures
        assemble_spec(split_spec(raw, cc), split_spec(raw, cc).message) == raw,
{
    let ls = message_lines(raw);
    let (sc, fc) = split_points(ls, cc);
    lemma_shaped_split(raw, cc);
    let f = split_spec(raw, cc);
    lemma_trim_blank_tail_idem(ls.take(fc));
    let m = trim_blank_tail(f.message);
    if fc < ls.len() {
        assert(f.trailer.len() > 0);
        assert(m.push(Seq::empty()) + f.trailer =~= ls);
    } else {
        assert(ls.take(fc) =~= ls);
        assert(f.trailer.len() == 0);
    }
    lemma_join_message_lines(raw);
}

/// On lines in git's layout nothing moves: the message is the lines before the first comment
/// without trailing blank lines, the trailer every line from the first comment on.
proof fn lemma_shaped_split(raw: Seq<char>, cc: char)
    requires
        round_trip_shape(message_lines(raw), cc),
    ensures
        ({
            let ls = message_lines(raw);
            let fc = split_points(ls, cc).1;
            &&& 0 <= fc <= ls.len()
            &&& split_spec(raw, cc).message == trim_blank_tail(ls.take(fc))
            &&& split_spec(raw, cc).trailer == ls.skip(fc)
        }),
{
    let ls = message_lines(raw);
    let (sc, fc) = split_points(ls, cc);
    lemma_points_bounds(ls, cc);
    lemma_fold_no_move(ls, cc, fc, sc);
    assert(ls.subrange(fc, sc) + ls.skip(sc) =~= ls.skip(fc));
}

/// An edited message keeps the trailer: the file written for any message ends with the
/// trailer lines as read (and the final newline the file had).
pub proof fn law_assemble_keeps_trailer(f: MessageFileV, message: Seq<Seq<char>>)
    requires
        f.trailer.len() > 0,
    ensures
        ({
            let tail = join(f.trailer, seq!['\n']);
            let tail = if f.final_newline {
                tail.push('\n')
            } else {
                tail
            };
            crate::text::ends_with(assemble_spec(f, message), tail)
        }),
{
    let m = trim_blank_tail(message).push(Seq::empty());
    lemma_join_append(m, f.trailer);
    let a = join(m, seq!['\n']) + seq!['\n'];
    let t = join(f.trailer, seq!['\n']);
    if f.final_newline {
        assert((a + t).push('\n') =~= a + t.push('\n'));
        assert((a + t.push('\n')).skip(a.len() as int) =~= t.push('\n'));
    } else {
        assert((a + t).skip(a.len() as int) =~= t);
    }
}

/// Joining two non-empty runs of lines puts one separator between them.
pub proof fn lemma_join_append(a: Seq<Seq<char>>, b: Seq<Seq<char>>)
    requires
        a.len() > 0,
        b.len() > 0,
    ensures
        join(a + b, seq!['\n']) == join(a, seq!['\n']) + seq!['\n'] + join(b, seq!['\n']),
    decreases b.len(),
{
    if b.len() == 1 {
        assert((a + b).drop_last() =~= a);
    } else {
        lemma_join_append(a, b.drop_last());
        assert((a + b).drop_last() =~= a + b.drop_last());
    }
}

proof fn lemma_before_first_comment(ls: Seq<Seq<char>>, cc: char, lo: int, hi: int)
    requires
        lo <= hi,
    ensures
        forall|k: int| lo <= k < first_comment(ls, cc, lo, hi) ==> !is_comment(#[trigger] ls[k], cc),
    decreases hi - lo,
{
    if lo < hi && !is_comment(ls[lo], cc) {
        lemma_before_first_comment(ls, cc, lo + 1, hi);
    }
}

proof fn lemma_trim_blank_tail_prefix(s: Seq<Seq<char>>)
    ensures
        trim_blank_tail(s).len() <= s.len(),
        forall|k: int| 0 <= k < trim_blank_tail(s).len() ==> #[trigger] trim_blank_tail(s)[k] == s[k],
    decreases s.len(),
{
    if s.len() > 0 && is_blank_line(s.last()) {
        lemma_trim_blank_tail_prefix(s.drop_last());
    }
}

proof fn lemma_fold_sorted(ls: Seq<Seq<char>>, cc: char, fc: int, i: int)
    requires
        0 <= fc <= ls.len(),
        i <= ls.len(),
        forall|k: int| 0 <= k < fc ==> !is_comment(#[trigger] ls[k], cc),
    ensures
        forall|k: int|
            0 <= k < split_fold(ls, cc, fc, i).0.len() ==> !is_comment(
                #[trigger] split_fold(ls, cc, fc, i).0[k],
                cc,
            ),
        forall|k: int|
            0 <= k < split_fold(ls, cc, fc, i).1.len() ==> is_comment(
                #[trigger] split_fold(ls, cc, fc, i).1[k],
                cc,
            ) || is_blank_line(split_fold(ls, cc, fc, i).1[k]),
    decreases i - fc,
{
    if i <= fc {
        lemma_trim_blank_tail_prefix(ls.take(fc));
        assert forall|k: int| 0 <= k < split_fold(ls, cc, fc, i).0.len() implies !is_comment(
            #[trigger] split_fold(ls, cc, fc, i).0[k],
            cc,
        ) by {
            assert(split_fold(ls, cc, fc, i).0[k] == ls.take(fc)[k]);
        }
    } else {
        lemma_fold_sorted(ls, cc, fc, i - 1);
        let (m, t, p) = split_fold(ls, cc, fc, i - 1);
        let l = ls[i - 1];
        let r = split_fold(ls, cc, fc, i);
        if is_comment(l, cc) || is_blank_line(l) {
            assert(r.0 == m);
            assert forall|k: int| 0 <= k < r.1.len() implies is_comment(#[trigger] r.1[k], cc)
                || is_blank_line(r.1[k]) by {
                if k < t.len() {
                    assert(r.1[k] == t[k]);
                }
            }
        } else {
            let m2 = if m.len() > 0 && p != Some(i - 2) {
                m.push(Seq::empty())
            } else {
                m
            };
            assert(r.0 == m2.push(l));
            assert(r.1 == t);
            assert forall|k: int| 0 <= k < r.0.len() implies !is_comment(#[trigger] r.0[k], cc) by {
                if k < m.len() {
                    assert(r.0[k] == m[k]);
                }
            }
        }
    }
}

/// The comment block never reaches the editor: no line of the message a file splits into is
/// a comment line, and the trailer holds comment and blank lines, then the lines from the
/// scissors line on as they are, for every file and comment char.
pub proof fn law_message_holds_no_comments(raw: Seq<char>, cc: char)
    ensures
        forall|k: int|
            0 <= k < split_spec(raw, cc).message.len() ==> !is_comment(
                #[trigger] split_spec(raw, cc).message[k],
                cc,
            ),
        ({
            let ls = message_lines(raw);
            let sc = split_points(ls, cc).0;
            let t = split_spec(raw, cc).trailer;
            &&& t.skip(t.len() - (ls.len() - sc)) == ls.skip(sc)
            &&& forall|k: int|
                0 <= k < t.len() - (ls.len() - sc) ==> is_comment(#[trigger] t[k], cc)
                    || is_blank_line(t[k])
        }),
{
    let ls = message_lines(raw);
    let (sc, fc) = split_points(ls, cc);
    lemma_points_bounds(ls, cc);
    lemma_before_first_comment(ls, cc, 0, sc);
    lemma_fold_sorted(ls, cc, fc, sc);
    let (m, t0, p) = split_fold(ls, cc, fc, sc);
    let t = split_spec(raw, cc).trailer;
    assert(t == t0 + ls.skip(sc));
    assert(t.skip(t.len() - (ls.len() - sc)) =~= ls.skip(sc));
    assert forall|k: int| 0 <= k < t.len() - (ls.len() - sc) implies is_comment(#[trigger] t[k], cc)
        || is_blank_line(t[k]) by {
        assert(t[k] == t0[k]);
    }
}

/// A line without a newline in it.
pub open spec fn newline_free(l: Seq<char>) -> bool {
    forall|j: int| 0 <= j < l.len() ==> l[j] != '\n'
}

proof fn lemma_first_scissors_at(ls: Seq<Seq<char>>, cc: char, lo: int, k: int, hi: int)
    requires
        lo <= k <= hi,
        forall|j: int| lo <= j < k ==> !is_scissors_spec(#[trigger] ls[j], cc),
        k == hi || is_scissors_spec(ls[k], cc),
    ensures
        first_scissors(ls, cc, lo, hi) == k,
    decreases k - lo,
{
    if lo < k {
        lemma_first_scissors_at(ls, cc, lo + 1, k, hi);
    }
}

proof fn lemma_first_comment_at(ls: Seq<Seq<char>>, cc: char, lo: int, k: int, hi: int)
    requires
        lo <= k <= hi,
        forall|j: int| lo <= j < k ==> !is_comment(#[trigger] ls[j], cc),
        k == hi || is_comment(ls[k], cc),
    ensures
        first_comment(ls, cc, lo, hi) == k,
    decreases k - lo,
{
    if lo < k {
        lemma_first_comment_at(ls, cc, lo + 1, k, hi);
    }
}

proof fn lemma_first_scissors_found(ls: Seq<Seq<char>>, cc: char, lo: int, hi: int)
    requires
        lo <= hi,
    ensures
        forall|j: int| lo <= j < first_scissors(ls, cc, lo, hi) ==> !is_scissors_spec(#[trigger] ls[j], cc),
        first_scissors(ls, cc, lo, hi) < hi ==> is_scissors_spec(ls[first_scissors(ls, cc, lo, hi)], cc),
    decreases hi - lo,
{
    if lo < hi && !is_scissors_spec(ls[lo], cc) {
        lemma_first_scissors_found(ls, cc, lo + 1, hi);
    }
}

proof fn lemma_first_comment_found(ls: Seq<Seq<char>>, cc: char, lo: int, hi: int)
    requires
        lo <= hi,
    ensures
        first_comment(ls, cc, lo, hi) < hi ==> is_comment(ls[first_comment(ls, cc, lo, hi)], cc),
    decreases hi - lo,
{
    if lo < hi && !is_comment(ls[lo], cc) {
        lemma_first_comment_found(ls, cc, lo + 1, hi);
    }
}

proof fn lemma_fold_facts(ls: Seq<Seq<char>>, cc: char, fc: int, i: int)
    requires
        0 <= fc <= i <= ls.len(),
        forall|k: int| 0 <= k < fc ==> !is_comment(#[trigger] ls[k], cc),
        forall|k: int| 0 <= k < ls.len() ==> newline_free(#[trigger] ls[k]),
        forall|k: int| fc <= k < i ==> !is_scissors_spec(#[trigger] ls[k], cc),
    ensures
        ({
            let (m, t, p) = split_fold(ls, cc, fc, i);
            &&& forall|k: int| 0 <= k < m.len() ==> !is_comment(#[trigger] m[k], cc) && newline_free(m[k])
            &&& forall|k: int|
                0 <= k < t.len() ==> (is_comment(#[trigger] t[k], cc) || is_blank_line(t[k]))
                    && !is_scissors_spec(t[k], cc) && newline_free(t[k])
            &&& trim_blank_tail(m) == m
            &&& i > fc && is_comment(ls[fc], cc) ==> t.len() > 0 && t[0] == ls[fc]
        }),
    decreases i - fc,
{
    if i <= fc {
        lemma_trim_blank_tail_prefix(ls.take(fc));
        lemma_trim_blank_tail_idem(ls.take(fc));
        let m = split_fold(ls, cc, fc, i).0;
        assert forall|k: int| 0 <= k < m.len() implies !is_comment(#[trigger] m[k], cc) && newline_free(m[k]) by {
            assert(m[k] == ls.take(fc)[k]);
            assert(ls.take(fc)[k] == ls[k]);
        }
    } else {
        lemma_fold_facts(ls, cc, fc, i - 1);
        let (m, t, p) = split_fold(ls, cc, fc, i - 1);
        let l = ls[i - 1];
        let r = split_fold(ls, cc, fc, i);
        assert(newline_free(l));
        if is_comment(l, cc) || is_blank_line(l) {
            assert(r.0 == m);
            assert(r.1 == t.push(l));
            assert forall|k: int| 0 <= k < r.1.len() implies (is_comment(#[trigger] r.1[k], cc) || is_blank_line(r.1[k]))
                && !is_scissors_spec(r.1[k], cc) && newline_free(r.1[k]) by {
                if k < t.len() {
                    assert(r.1[k] == t[k]);
                }
            }
            if i - 1 == fc {
                assert(t.len() == 0);
            }
        } else {
            let m2 = if m.len() > 0 && p != Some(i - 2) {
                m.push(Seq::empty())
            } else {
                m
            };
            assert(r.0 == m2.push(l));
            assert(r.1 == t);
            assert forall|k: int| 0 <= k < r.0.len() implies !is_comment(#[trigger] r.0[k], cc) && newline_free(r.0[k]) by {
                if k < m.len() {
                    assert(r.0[k] == m[k]);
                }
            }
            assert(!is_blank_line(r.0.last()));
            if i - 1 == fc {
                assert(!is_comment(ls[fc], cc));
            }
        }
    }
}

/// A trailer as a split leaves it: up to `s0`, comment and blank lines none of which is a
/// scissors line; from `s0` on, the lines from a scissors line on. Its first line, if any, is
/// a comment, and no line holds a newline.
pub open spec fn settled_trailer(t: Seq<Seq<char>>, s0: int, cc: char) -> bool {
    &&& 0 <= s0 <= t.len()
    &&& forall|k: int|
        0 <= k < s0 ==> (is_comment(#[trigger] t[k], cc) || is_blank_line(t[k])) && !is_scissors_spec(
            t[k],
            cc,
        )
    &&& s0 < t.len() ==> is_scissors_spec(t[s0], cc)
    &&& t.len() > 0 ==> is_comment(t[0], cc)
    &&& forall|k: int| 0 <= k < t.len() ==> newline_free(#[trigger] t[k])
}

proof fn lemma_message_lines_free(raw: Seq<char>)
    ensures
        forall|k: int| 0 <= k < message_lines(raw).len() ==> newline_free(#[trigger] message_lines(raw)[k]),
{
    if raw.len() > 0 {
        crate::text::lemma_lines_of(raw);
        if raw.last() == '\n' {
            crate::text::lemma_split_pieces_free(raw.drop_last(), '\n');
        } else {
            crate::text::lemma_split_pieces_free(raw, '\n');
        }
    }
}

proof fn lemma_split_facts(raw: Seq<char>, cc: char)
    ensures
        forall|k: int|
            0 <= k < split_spec(raw, cc).message.len() ==> !is_comment(
                #[trigger] split_spec(raw, cc).message[k],
                cc,
            ) && newline_free(split_spec(raw, cc).message[k]),
        trim_blank_tail(split_spec(raw, cc).message) == split_spec(raw, cc).message,
        exists|s0: int| settled_trailer(split_spec(raw, cc).trailer, s0, cc),
{
    let ls = message_lines(raw);
    let (sc, fc) = split_points(ls, cc);
    lemma_message_lines_free(raw);
    lemma_points_bounds(ls, cc);
    lemma_before_first_comment(ls, cc, 0, sc);
    lemma_first_scissors_found(ls, cc, 0, ls.len() as int);
    lemma_first_comment_found(ls, cc, 0, sc);
    lemma_fold_facts(ls, cc, fc, sc);
    let (m, t, p) = split_fold(ls, cc, fc, sc);
    let tr = split_spec(raw, cc).trailer;
    assert(tr == t + ls.skip(sc));
    let s0 = t.len() as int;
    assert forall|k: int| 0 <= k < tr.len() implies newline_free(#[trigger] tr[k]) by {
        if k >= s0 {
            assert(tr[k] == ls[sc + k - s0]);
        } else {
            assert(tr[k] == t[k]);
        }
    }
    assert forall|k: int| 0 <= k < s0 implies (is_comment(#[trigger] tr[k], cc) || is_blank_line(tr[k]))
        && !is_scissors_spec(tr[k], cc) by {
        assert(tr[k] == t[k]);
    }
    if s0 < tr.len() {
        assert(tr[s0] == ls[sc]);
    }
    if tr.len() > 0 {
        if s0 > 0 {
            if fc == sc {
                assert(split_fold(ls, cc, fc, sc).1.len() == 0);
            }
            assert(tr[0] == t[0]);
        } else {
            assert(tr[0] == ls[sc]);
        }
    }
    assert(settled_trailer(tr, s0, cc));
}

proof fn lemma_shape_message_only(m: Seq<Seq<char>>, cc: char)
    requires
        forall|k: int| 0 <= k < m.len() ==> !is_comment(#[trigger] m[k], cc),
        trim_blank_tail(m) == m,
    ensures
        round_trip_shape(m, cc),
        split_points(m, cc).1 == m.len(),
{
    assert forall|j: int| 0 <= j < m.len() implies !is_scissors_spec(#[trigger] m[j], cc) by {
        assert(!is_comment(m[j], cc));
    }
    lemma_first_scissors_at(m, cc, 0, m.len() as int, m.len() as int);
    lemma_first_comment_at(m, cc, 0, m.len() as int, m.len() as int);
}

proof fn lemma_shape_with_trailer(m: Seq<Seq<char>>, t: Seq<Seq<char>>, s0: int, cc: char)
    requires
        forall|k: int| 0 <= k < m.len() ==> !is_comment(#[trigger] m[k], cc),
        trim_blank_tail(m) == m,
        t.len() > 0,
        settled_trailer(t, s0, cc),
    ensures
        round_trip_shape(m.push(Seq::empty()) + t, cc),
        split_points(m.push(Seq::empty()) + t, cc).1 == m.len() + 1,
        trim_blank_tail(m.push(Seq::empty())) == m,
{
    let ls = m.push(Seq::empty()) + t;
    let n = m.len() as int;
    assert forall|j: int| 0 <= j < n + 1 + s0 implies !is_scissors_spec(#[trigger] ls[j], cc) by {
        if j < n {
            assert(ls[j] == m[j]);
            assert(!is_comment(m[j], cc));
        } else if j > n {
            assert(ls[j] == t[j - n - 1]);
        }
    }
    if s0 < t.len() {
        assert(ls[n + 1 + s0] == t[s0]);
    }
    lemma_first_scissors_at(ls, cc, 0, n + 1 + s0, ls.len() as int);
    let sc = n + 1 + s0;
    assert forall|j: int| 0 <= j < n + 1 implies !is_comment(#[trigger] ls[j], cc) by {
        if j < n {
            assert(ls[j] == m[j]);
        }
    }
    assert(ls[n + 1] == t[0]);
    lemma_first_comment_at(ls, cc, 0, n + 1, sc);
    assert forall|k: int| n + 1 <= k < sc implies is_comment(#[trigger] ls[k], cc) || is_blank_line(ls[k]) by {
        assert(ls[k] == t[k - n - 1]);
    }
    assert(ls.take(n + 1) =~= m.push(Seq::empty()));
    assert(trim_blank_tail(m.push(Seq::empty())) == trim_blank_tail(m)) by {
        assert(m.push(Seq::<char>::empty()).drop_last() =~= m);
        lemma_trim_empty(Seq::<char>::empty());
    }
}

proof fn lemma_settled_drop_last(t: Seq<Seq<char>>, s0: int, cc: char)
    requires
        settled_trailer(t, s0, cc),
        t.len() >= 2,
    ensures
        settled_trailer(t.drop_last(), if s0 < t.len() - 1 { s0 } else { t.len() - 1 }, cc),
{
    let u = t.drop_last();
    assert forall|k: int| 0 <= k < u.len() implies newline_free(#[trigger] u[k]) by {
        assert(u[k] == t[k]);
    }
    let s1 = if s0 < t.len() - 1 { s0 } else { t.len() - 1 };
    assert forall|k: int| 0 <= k < s1 implies (is_comment(#[trigger] u[k], cc) || is_blank_line(u[k]))
        && !is_scissors_spec(u[k], cc) by {
        assert(u[k] == t[k]);
    }
    if s1 < u.len() {
        assert(u[s1] == t[s1]);
    }
    assert(u[0] == t[0]);
}

proof fn lemma_join_last(parts: Seq<Seq<char>>)
    requires
        parts.len() >= 1,
    ensures
        parts.last().len() > 0 ==> join(parts, seq!['\n']).len() > 0 && join(parts, seq!['\n']).last()
            == parts.last().last(),
        parts.last().len() == 0 && parts.len() >= 2 ==> join(parts, seq!['\n']).len() > 0 && join(
            parts,
            seq!['\n'],
        ).last() == '\n',
{
    if parts.len() == 1 {
        assert(parts.last() == parts[0]);
    }
}

/// The text of a message file in git's layout: the message lines, then, when there is a
/// trailer, one empty line and the trailer, joined by newlines, with a final newline when
/// `final_newline` holds.
pub open spec fn layout_text(m: Seq<Seq<char>>, t: Seq<Seq<char>>, final_newline: bool) -> Seq<char> {
    let out = if t.len() > 0 {
        m.push(Seq::empty()) + t
    } else {
        m
    };
    let s = join(out, seq!['\n']);
    if final_newline {
        s.push('\n')
    } else {
        s
    }
}

/// A file as git writes it comes back byte for byte when its message is not edited: the
/// message lines are no comments and do not end in a blank line, the trailer (if any) starts
/// with a comment, and its lines before the first scissors line are comment or blank lines;
/// then splitting the file text and assembling it with its own message gives that text again.
/// The split gives back the message and the trailer, except that a trailer whose last line is
/// empty, written without a final newline, reads back without that line and with a final
/// newline (the text is the same).
pub proof fn law_layout_round_trip(m: Seq<Seq<char>>, t: Seq<Seq<char>>, final_newline: bool, cc: char)
    requires
        forall|k: int| 0 <= k < m.len() ==> newline_free(#[trigger] m[k]) && !is_comment(m[k], cc),
        trim_blank_tail(m) == m,
        forall|k: int| 0 <= k < t.len() ==> newline_free(#[trigger] t[k]),
        t.len() > 0 ==> is_comment(t[0], cc),
        forall|k: int|
            0 <= k < first_scissors(t, cc, 0, t.len() as int) ==> is_comment(#[trigger] t[k], cc)
                || is_blank_line(t[k]),
    ensures
        ({
            let r = layout_text(m, t, final_newline);
            let blank_end = !final_newline && t.len() > 0 && t.last().len() == 0;
            &&& assemble_spec(split_spec(r, cc), split_spec(r, cc).message) == r
            &&& split_spec(r, cc).message == m
            &&& split_spec(r, cc).trailer == if blank_end {
                t.drop_last()
            } else {
                t
            }
            &&& split_spec(r, cc).final_newline == (final_newline || blank_end)
        }),
{
    let s0 = first_scissors(t, cc, 0, t.len() as int);
    lemma_first_scissors_bound(t, cc, 0, t.len() as int);
    lemma_first_scissors_found(t, cc, 0, t.len() as int);
    assert(settled_trailer(t, s0, cc));
    let out = if t.len() > 0 {
        m.push(Seq::empty()) + t
    } else {
        m
    };
    let j = join(out, seq!['\n']);
    let r = layout_text(m, t, final_newline);
    if out.len() == 0 {
        assert(j =~= Seq::<char>::empty());
        let ls = message_lines(r);
        if final_newline {
            assert(r =~= seq!['\n']);
            assert(r.drop_last() =~= Seq::<char>::empty());
            crate::text::lemma_lines_of(r);
            assert(crate::text::split(Seq::<char>::empty(), '\n') =~= seq![Seq::<char>::empty()]);
            assert(ls =~= seq![Seq::<char>::empty()]);
            lemma_first_scissors_at(ls, cc, 0, 1, 1);
            lemma_first_comment_at(ls, cc, 0, 1, 1);
            assert(ls.take(1) =~= ls);
            assert(ls.drop_last() =~= Seq::<Seq<char>>::empty());
            lemma_trim_empty(Seq::<char>::empty());
            assert(is_blank_line(ls.last()));
            assert(trim_blank_tail(ls.drop_last()) =~= Seq::<Seq<char>>::empty());
            assert(trim_blank_tail(ls) =~= Seq::<Seq<char>>::empty());
            assert(ls.skip(1) =~= Seq::<Seq<char>>::empty());
            let f2 = split_spec(r, cc);
            assert(f2.message =~= Seq::<Seq<char>>::empty());
            assert(f2.trailer =~= Seq::<Seq<char>>::empty());
        } else {
            assert(r =~= Seq::<char>::empty());
            let f2 = split_spec(r, cc);
            assert(ls =~= Seq::<Seq<char>>::empty());
            assert(ls.take(0) =~= ls);
            assert(ls.skip(0) =~= ls);
            assert(f2.message =~= Seq::<Seq<char>>::empty());
            assert(f2.trailer =~= Seq::<Seq<char>>::empty());
        }
    } else {
        let n = m.len() as int;
        assert forall|a: int, b: int| 0 <= a < out.len() && 0 <= b < out[a].len() implies out[a][b]
            != '\n' by {
            if t.len() > 0 {
                if a < n {
                    assert(out[a] == m[a]);
                    assert(newline_free(m[a]));
                } else if a > n {
                    assert(out[a] == t[a - n - 1]);
                    assert(newline_free(t[a - n - 1]));
                }
            } else {
                assert(newline_free(m[a]));
            }
        }
        crate::text::lemma_split_join(out, '\n');
        lemma_join_last(out);
        if t.len() == 0 {
            assert(!is_blank_line(m.last())) by {
                if is_blank_line(m.last()) {
                    lemma_trim_blank_tail_prefix(m.drop_last());
                }
            }
            if m.last().len() == 0 {
                lemma_trim_empty(m.last());
            }
        }
        if t.len() > 0 && t.last().len() == 0 {
            assert(t.len() >= 2) by {
                if t.len() == 1 {
                    assert(t[0] == t.last());
                }
            }
        }
        if final_newline {
            crate::text::lemma_lines_of(r);
            assert(r.drop_last() =~= j);
            assert(message_lines(r) == out);
        } else if out.last().len() > 0 {
            assert(message_lines(r) == out);
        } else {
            assert(message_lines(r) == out.drop_last());
        }
        if t.len() == 0 {
            lemma_shape_message_only(m, cc);
        } else if final_newline || out.last().len() > 0 {
            lemma_shape_with_trailer(m, t, s0, cc);
        } else {
            assert(out.last() == t.last());
            lemma_settled_drop_last(t, s0, cc);
            assert(out.drop_last() =~= m.push(Seq::empty()) + t.drop_last());
            lemma_shape_with_trailer(
                m,
                t.drop_last(),
                if s0 < t.len() - 1 { s0 } else { t.len() - 1 },
                cc,
            );
        }
        law_message_round_trip(r, cc);
        lemma_shaped_split(r, cc);
        let ls = message_lines(r);
        if t.len() == 0 {
            assert(ls == m);
            assert(m.take(n) =~= m);
            assert(m.skip(n) =~= Seq::<Seq<char>>::empty());
        } else if final_newline || out.last().len() > 0 {
            assert(ls == out);
            assert(ls.take(n + 1) =~= m.push(Seq::empty()));
            assert(ls.skip(n + 1) =~= t);
        } else {
            assert(ls == m.push(Seq::empty()) + t.drop_last());
            assert(ls.take(n + 1) =~= m.push(Seq::empty()));
            assert(ls.skip(n + 1) =~= t.drop_last());
        }
        if !final_newline {
            assert(r == j);
            if out.last().len() > 0 {
                assert(newline_free(out.last())) by {
                    if t.len() > 0 {
                        assert(out.last() == t[t.len() - 1]);
                    } else {
                        assert(out.last() == m[n - 1]);
                    }
                }
            }
        }
    }
}

/// One split and assembly settles a message file. Splitting the text it gives yields the same
/// message and the same trailer, except that a trailer whose last line is empty, in a file
/// without a final newline, comes back without that line and with a final newline; assembling
/// that gives the same text again, and from then on every split and assembly gives back the
/// same file, for every file and comment char.
pub proof fn law_split_assemble_settles(raw: Seq<char>, cc: char)
    ensures
        ({
            let f = split_spec(raw, cc);
            let r = assemble_spec(f, f.message);
            let g = split_spec(r, cc);
            let blank_end = !f.final_newline && f.trailer.len() > 0 && f.trailer.last().len() == 0;
            &&& g.message == f.message
            &&& g.trailer == if blank_end {
                f.trailer.drop_last()
            } else {
                f.trailer
            }
            &&& g.final_newline == (f.final_newline || blank_end)
            &&& assemble_spec(g, g.message) == r
            &&& split_spec(assemble_spec(g, g.message), cc) == g
        }),
{
    let f = split_spec(raw, cc);
    let m = f.message;
    let t = f.trailer;
    lemma_split_facts(raw, cc);
    let s0 = choose|s0: int| settled_trailer(t, s0, cc);
    lemma_first_scissors_at(t, cc, 0, s0, t.len() as int);
    assert(assemble_spec(f, m) == layout_text(m, t, f.final_newline));
    law_layout_round_trip(m, t, f.final_newline, cc);
}

} // verus!
