//! The pending rewords of a rebase: for each commit hash as written in the todo, the new subject
//! typed for it. Each hash has at most one subject.
use vstd::prelude::*;

use crate::rebase::{Action, Todo, TodoLine, TodoLineV};
use crate::text::str_eq;

verus! {

/// The entries of `s` whose hash is not `h`, in order.
pub open spec fn without_key(s: Seq<(Seq<char>, Seq<char>)>, h: Seq<char>) -> Seq<
    (Seq<char>, Seq<char>),
>
    decreases s.len(),
{
    if s.len() == 0 {
        Seq::empty()
    } else {
        let prev = without_key(s.drop_last(), h);
        if s.last().0 == h {
            prev
        } else {
            prev.push(s.last())
        }
    }
}

/// The subject stored for `h`, if any.
pub open spec fn subject_for(s: Seq<(Seq<char>, Seq<char>)>, h: Seq<char>) -> Option<Seq<char>>
    decreases s.len(),
{
    if s.len() == 0 {
        None
    } else if s.last().0 == h {
        Some(s.last().1)
    } else {
        subject_for(s.drop_last(), h)
    }
}

/// No hash occurs twice.
pub open spec fn distinct_hashes(s: Seq<(Seq<char>, Seq<char>)>) -> bool {
    forall|i: int, j: int| 0 <= i < j < s.len() ==> (#[trigger] s[i]).0 != (#[trigger] s[j]).0
}

/// `h` is the hash of a reword instruction of the todo.
pub open spec fn reworded_in(ls: Seq<TodoLineV>, h: Seq<char>) -> bool {
    exists|i: int|
        0 <= i < ls.len() && (#[trigger] ls[i] matches TodoLineV::Commit(c) && c.hash == h
            && c.action == Action::Reword)
}

/// The entries whose hash is that of a reword instruction of the todo, in order.
pub open spec fn kept_for(s: Seq<(Seq<char>, Seq<char>)>, ls: Seq<TodoLineV>) -> Seq<
    (Seq<char>, Seq<char>),
>
    decreases s.len(),
{
    if s.len() == 0 {
        Seq::empty()
    } else {
        let prev = kept_for(s.drop_last(), ls);
        if reworded_in(ls, s.last().0) {
            prev.push(s.last())
        } else {
            prev
        }
    }
}

/// Pending rewords: hash as written in the todo → new subject.
#[derive(Debug, Clone, PartialEq)]
pub struct Rewords {
    entries: Vec<(String, String)>,
}

impl View for Rewords {
    type V = Seq<(Seq<char>, Seq<char>)>;

    closed spec fn view(&self) -> Seq<(Seq<char>, Seq<char>)> {
        Seq::new(self.entries@.len(), |i: int| (self.entries@[i].0@, self.entries@[i].1@))
    }
}

proof fn lemma_without_key(s: Seq<(Seq<char>, Seq<char>)>, h: Seq<char>)
    ensures
        subject_for(without_key(s, h), h) is None,
        forall|k: Seq<char>| k != h ==> subject_for(without_key(s, h), k) == subject_for(s, k),
        distinct_hashes(s) ==> distinct_hashes(without_key(s, h)),
        forall|i: int|
            0 <= i < without_key(s, h).len() ==> exists|j: int|
                0 <= j < s.len() && #[trigger] without_key(s, h)[i] == s[j],
    decreases s.len(),
{
    if s.len() > 0 {
        let prev = s.drop_last();
        lemma_without_key(prev, h);
        let w = without_key(prev, h);
        if s.last().0 != h {
            assert(w.push(s.last()).drop_last() =~= w);
        }
        assert forall|k: Seq<char>| k != h implies subject_for(without_key(s, h), k) == subject_for(
            s,
            k,
        ) by {
            assert(subject_for(w, k) == subject_for(prev, k));
        }
        assert forall|i: int| 0 <= i < without_key(s, h).len() implies exists|j: int|
            0 <= j < s.len() && #[trigger] without_key(s, h)[i] == s[j] by {
            if i < w.len() {
                let j = choose|j: int| 0 <= j < prev.len() && w[i] == prev[j];
                assert(s[j] == prev[j]);
            } else {
                assert(without_key(s, h)[i] == s[s.len() - 1]);
            }
        }
        if distinct_hashes(s) {
            assert forall|i: int, j: int| 0 <= i < j < prev.len() implies (#[trigger] prev[i]).0
                != (#[trigger] prev[j]).0 by {
                assert(prev[i] == s[i] && prev[j] == s[j]);
            }
            if s.last().0 != h {
                let r = without_key(s, h);
                assert forall|i: int, j: int| 0 <= i < j < r.len() implies (#[trigger] r[i]).0
                    != (#[trigger] r[j]).0 by {
                    if j == r.len() - 1 {
                        let k = choose|k: int| 0 <= k < prev.len() && w[i] == prev[k];
                        assert(prev[k] == s[k]);
                    } else {
                        assert(r[i] == w[i] && r[j] == w[j]);
                    }
                }
            }
        }
    }
}

proof fn lemma_subject_for_distinct(s: Seq<(Seq<char>, Seq<char>)>, i: int)
    requires
        distinct_hashes(s),
        0 <= i < s.len(),
    ensures
        subject_for(s, s[i].0) == Some(s[i].1),
    decreases s.len(),
{
    if i < s.len() - 1 {
        let prev = s.drop_last();
        assert forall|a: int, b: int| 0 <= a < b < prev.len() implies (#[trigger] prev[a]).0
            != (#[trigger] prev[b]).0 by {
            assert(prev[a] == s[a] && prev[b] == s[b]);
        }
        assert(s[i].0 != s[s.len() - 1].0);
        assert(prev[i] == s[i]);
        lemma_subject_for_distinct(prev, i);
    }
}

impl Rewords {
    /// Every hash has at most one subject.
    pub closed spec fn wf(&self) -> bool {
        distinct_hashes(self@)
    }

    /// No pending rewords.
    pub fn new() -> (r: Self)
        ensures
            r.wf(),
            r@.len() == 0,
    {
        let r = Rewords { entries: Vec::new() };
        assert(r@ =~= Seq::<(Seq<char>, Seq<char>)>::empty());
        r
    }

    pub fn len(&self) -> (r: usize)
        ensures
            r == self@.len(),
    {
        self.entries.len()
    }

    pub fn is_empty(&self) -> (r: bool)
        ensures
            r == (self@.len() == 0),
    {
        self.entries.len() == 0
    }

    /// The subject pending for `hash`.
    pub fn get(&self, hash: &str) -> (r: Option<&String>)
        ensures
            match r {
                Some(s) => subject_for(self@, hash@) == Some(s@),
                None => subject_for(self@, hash@) is None,
            },
    {
        let ghost all = self@;
        let mut i: usize = self.entries.len();
        assert(all.take(i as int) =~= all);
        while i > 0
            invariant
                i <= self.entries@.len(),
                all == self@,
                subject_for(all, hash@) == subject_for(all.take(i as int), hash@),
            decreases i,
        {
            let ghost t = all.take(i as int);
            assert(t.drop_last() =~= all.take(i - 1));
            assert(t.last() == all[i - 1]);
            if str_eq(self.entries[i - 1].0.as_str(), hash) {
                return Some(&self.entries[i - 1].1);
            }
            i -= 1;
        }
        None
    }

    /// Whether a subject is pending for `hash`.
    pub fn contains_key(&self, hash: &str) -> (r: bool)
        ensures
            r == subject_for(self@, hash@) is Some,
    {
        self.get(hash).is_some()
    }

    /// Drops the subject pending for `hash`, if any.
    pub fn remove(&mut self, hash: &str)
        requires
            old(self).wf(),
        ensures
            final(self).wf(),
            final(self)@ == without_key(old(self)@, hash@),
    {
        let ghost all = self@;
        let mut kept: Vec<(String, String)> = Vec::new();
        let mut i: usize = 0;
        let n = self.entries.len();
        let mut old_entries: Vec<(String, String)> = Vec::new();
        std::mem::swap(&mut old_entries, &mut self.entries);
        assert(all == Seq::new(old_entries@.len(), |i: int| (old_entries@[i].0@, old_entries@[i].1@)));
        let mut rest = old_entries;
        while rest.len() > 0
            invariant
                all.len() == n,
                i + rest@.len() == n,
                forall|k: int| 0 <= k < rest@.len() ==> (#[trigger] rest@[k]).0@ == all[i + k].0
                    && rest@[k].1@ == all[i + k].1,
                Seq::new(kept@.len(), |k: int| (kept@[k].0@, kept@[k].1@)) == without_key(
                    all.take(i as int),
                    hash@,
                ),
            decreases rest@.len(),
        {
            let e = rest.remove(0);
            let ghost before = Seq::new(kept@.len(), |k: int| (kept@[k].0@, kept@[k].1@));
            assert(all.take(i + 1).drop_last() =~= all.take(i as int));
            assert(all.take(i + 1).last() == (e.0@, e.1@));
            if !str_eq(e.0.as_str(), hash) {
                kept.push(e);
                assert(Seq::new(kept@.len(), |k: int| (kept@[k].0@, kept@[k].1@)) =~= before.push(
                    all[i as int],
                ));
            }
            i += 1;
        }
        assert(all.take(i as int) =~= all);
        self.entries = kept;
        proof {
            lemma_without_key(all, hash@);
        }
    }

    /// Sets the subject pending for `hash`, replacing any earlier one.
    pub fn insert(&mut self, hash: String, subject: String)
        requires
            old(self).wf(),
        ensures
            final(self).wf(),
            final(self)@ == without_key(old(self)@, hash@).push((hash@, subject@)),
    {
        self.remove(hash.as_str());
        let ghost before = self@;
        proof {
            lemma_without_key(old(self)@, hash@);
        }
        self.entries.push((hash, subject));
        assert(self@ =~= before.push((hash@, subject@)));
        assert forall|i: int, j: int| 0 <= i < j < self@.len() implies (#[trigger] self@[i]).0
            != (#[trigger] self@[j]).0 by {
            if j == self@.len() - 1 {
                lemma_without_key(old(self)@, hash@);
                if before[i].0 == hash@ {
                    lemma_subject_for_distinct(before, i);
                }
            } else {
                assert(self@[i] == before[i] && self@[j] == before[j]);
            }
        }
    }

    /// Keeps only the subjects of commits that the todo still rewords.
    pub fn retain_reworded(&mut self, todo: &Todo)
        requires
            old(self).wf(),
        ensures
            final(self).wf(),
            final(self)@ == kept_for(old(self)@, todo@.lines),
    {
        let ghost all = self@;
        let ghost ls = todo@.lines;
        let n = self.entries.len();
        let mut old_entries: Vec<(String, String)> = Vec::new();
        std::mem::swap(&mut old_entries, &mut self.entries);
        assert(all == Seq::new(old_entries@.len(), |i: int| (old_entries@[i].0@, old_entries@[i].1@)));
        let mut rest = old_entries;
        let mut kept: Vec<(String, String)> = Vec::new();
        let mut i: usize = 0;
        while rest.len() > 0
            invariant
                all.len() == n,
                ls == todo@.lines,
                i + rest@.len() == n,
                forall|k: int| 0 <= k < rest@.len() ==> (#[trigger] rest@[k]).0@ == all[i + k].0
                    && rest@[k].1@ == all[i + k].1,
                Seq::new(kept@.len(), |k: int| (kept@[k].0@, kept@[k].1@)) == kept_for(
                    all.take(i as int),
                    ls,
                ),
            decreases rest@.len(),
        {
            let e = rest.remove(0);
            let ghost before = Seq::new(kept@.len(), |k: int| (kept@[k].0@, kept@[k].1@));
            assert(all.take(i + 1).drop_last() =~= all.take(i as int));
            assert(all.take(i + 1).last() == (e.0@, e.1@));
            if is_reworded(todo, e.0.as_str()) {
                kept.push(e);
                assert(Seq::new(kept@.len(), |k: int| (kept@[k].0@, kept@[k].1@)) =~= before.push(
                    all[i as int],
                ));
            }
            i += 1;
        }
        assert(all.take(i as int) =~= all);
        self.entries = kept;
        proof {
            lemma_kept_for(all, ls);
        }
    }

    /// The pending rewords, in the order they were set.
    pub fn entries(&self) -> (r: &Vec<(String, String)>)
        ensures
            Seq::new(r@.len(), |i: int| (r@[i].0@, r@[i].1@)) == self@,
    {
        &self.entries
    }
}

proof fn lemma_kept_for(s: Seq<(Seq<char>, Seq<char>)>, ls: Seq<TodoLineV>)
    ensures
        distinct_hashes(s) ==> distinct_hashes(kept_for(s, ls)),
        forall|i: int|
            0 <= i < kept_for(s, ls).len() ==> exists|j: int|
                0 <= j < s.len() && #[trigger] kept_for(s, ls)[i] == s[j],
    decreases s.len(),
{
    if s.len() > 0 {
        let prev = s.drop_last();
        lemma_kept_for(prev, ls);
        let w = kept_for(prev, ls);
        assert forall|i: int| 0 <= i < kept_for(s, ls).len() implies exists|j: int|
            0 <= j < s.len() && #[trigger] kept_for(s, ls)[i] == s[j] by {
            if i < w.len() {
                let j = choose|j: int| 0 <= j < prev.len() && w[i] == prev[j];
                assert(s[j] == prev[j]);
            } else {
                assert(kept_for(s, ls)[i] == s[s.len() - 1]);
            }
        }
        if distinct_hashes(s) {
            assert forall|i: int, j: int| 0 <= i < j < prev.len() implies (#[trigger] prev[i]).0
                != (#[trigger] prev[j]).0 by {
                assert(prev[i] == s[i] && prev[j] == s[j]);
            }
            let r = kept_for(s, ls);
            if reworded_in(ls, s.last().0) {
                assert forall|i: int, j: int| 0 <= i < j < r.len() implies (#[trigger] r[i]).0
                    != (#[trigger] r[j]).0 by {
                    if j == r.len() - 1 {
                        let k = choose|k: int| 0 <= k < prev.len() && w[i] == prev[k];
                        assert(prev[k] == s[k]);
                    } else {
                        assert(r[i] == w[i] && r[j] == w[j]);
                    }
                }
            }
        }
    }
}

/// Whether `hash` is the hash of a reword instruction of the todo.
fn is_reworded(todo: &Todo, hash: &str) -> (r: bool)
    ensures
        r == reworded_in(todo@.lines, hash@),
{
    let mut i: usize = 0;
    while i < todo.lines.len()
        invariant
            i <= todo.lines@.len(),
            forall|k: int|
                0 <= k < i ==> !(#[trigger] todo@.lines[k] matches TodoLineV::Commit(c) && c.hash
                    == hash@ && c.action == Action::Reword),
        decreases todo.lines@.len() - i,
    {
        assert(todo@.lines[i as int] == todo.lines@[i as int]@);
        match &todo.lines[i] {
            TodoLine::Commit(c) => {
                if c.action() == Action::Reword && str_eq(c.hash(), hash) {
                    return true;
                }
            },
            _ => {},
        }
        i += 1;
    }
    false
}

/// The pending rewords read back what was written: after storing a subject for a hash, that
/// hash gives that subject and every other hash gives what it gave before; after removing a
/// hash, it gives nothing and every other hash gives what it gave before.
pub proof fn law_rewords_read_back(
    s: Seq<(Seq<char>, Seq<char>)>,
    h: Seq<char>,
    subject: Seq<char>,
    other: Seq<char>,
)
    requires
        other != h,
    ensures
        subject_for(without_key(s, h).push((h, subject)), h) == Some(subject),
        subject_for(without_key(s, h).push((h, subject)), other) == subject_for(s, other),
        subject_for(without_key(s, h), h) is None,
        subject_for(without_key(s, h), other) == subject_for(s, other),
{
    lemma_without_key(s, h);
    assert(without_key(s, h).push((h, subject)).drop_last() =~= without_key(s, h));
}

} // verus!
