//! The details of a commit shown beside the rebase table, read from `git show` output, and
//! the cache of details that have arrived for the commits asked about.
use vstd::prelude::*;

use crate::text::{
    str_eq, chars_of, find, find_char, join, join_chars, slice_of, split, split_chars, str_lines,
    str_lines_of, string_of, trim_end, trim_end_index,
};

verus! {

#[derive(Debug, Clone, PartialEq)]
pub struct CommitDetails {
    pub message: Vec<String>,
    /// (status letter, path) — renames and copies read `old -> new`.
    pub files: Vec<(char, String)>,
}

/// A commit's message lines and its files with their status letters.
pub struct CommitDetailsV {
    pub message: Seq<Seq<char>>,
    pub files: Seq<(char, Seq<char>)>,
}

impl View for CommitDetails {
    type V = CommitDetailsV;

    open spec fn view(&self) -> CommitDetailsV {
        CommitDetailsV {
            message: Seq::new(self.message@.len(), |i: int| self.message@[i]@),
            files: Seq::new(self.files@.len(), |i: int| (self.files@[i].0, self.files@[i].1@)),
        }
    }
}

/// A `--name-status` line: the status letter and the paths after it, joined by ` -> ` (two
/// for renames and copies); nothing for a line without a status or without a path.
pub open spec fn file_entry(line: Seq<char>) -> Option<(char, Seq<char>)> {
    let parts = split(line, '\t');
    if parts[0].len() == 0 || parts.len() < 2 {
        None
    } else {
        Some((parts[0][0], join(parts.skip(1), " -> "@)))
    }
}

/// The file entries of the `--name-status` lines, in order.
pub open spec fn file_entries(lines: Seq<Seq<char>>) -> Seq<(char, Seq<char>)>
    decreases lines.len(),
{
    if lines.len() == 0 {
        Seq::empty()
    } else {
        let prev = file_entries(lines.drop_last());
        match file_entry(lines.last()) {
            Some(e) => prev.push(e),
            None => prev,
        }
    }
}

/// The output of `git show --format=%B%x00 --name-status`: the message is what comes before
/// the NUL, without trailing whitespace, as lines; the file entries come from the lines after
/// it.
pub open spec fn parse_show_spec(out: Seq<char>) -> CommitDetailsV {
    let (msg, files) = match find(out, '\0') {
        Some(i) => (out.take(i), out.skip(i + 1)),
        None => (out, Seq::empty()),
    };
    CommitDetailsV { message: str_lines(trim_end(msg)), files: file_entries(str_lines(files)) }
}

/// One `--name-status` line.
fn parse_file_entry(line: &[char]) -> (r: Option<(char, String)>)
    ensures
        match r {
            Some(e) => file_entry(line@) == Some((e.0, e.1@)),
            None => file_entry(line@) is None,
        },
{
    let parts = split_chars(line, '\t');
    proof {
        crate::text::lemma_split_len(line@, '\t');
    }
    if parts[0].len() == 0 || parts.len() < 2 {
        return None;
    }
    let status = parts[0][0];
    let n = parts.len();
    let mut paths: Vec<Vec<char>> = Vec::new();
    let mut i: usize = 1;
    while i < n
        invariant
            1 <= i <= n,
            n == parts@.len(),
            paths@.len() == i - 1,
            forall|k: int| 0 <= k < i - 1 ==> (#[trigger] paths@[k])@ == parts@[k + 1]@,
        decreases n - i,
    {
        paths.push(slice_of(&parts[i], 0, parts[i].len()));
        assert(paths@[i - 1]@ =~= parts@[i as int]@);
        i += 1;
    }
    let joined = join_chars(&paths, " -> ");
    assert(Seq::new(paths@.len(), |k: int| paths@[k]@) =~= split(line@, '\t').skip(1));
    Some((status, string_of(&joined)))
}

/// Parse the output of `git show --format=%B%x00 --name-status`.
pub fn parse_show(out: &str) -> (r: CommitDetails)
    ensures
        r@ == parse_show_spec(out@),
{
    let v = chars_of(out);
    let (msg, files) = match find_char(&v, '\0') {
        Some(i) => {
            let n = v.len();
            let m = slice_of(&v, 0, i);
            let f = slice_of(&v, i + 1, n);
            assert(m@ =~= v@.take(i as int));
            assert(f@ =~= v@.skip(i + 1));
            (m, f)
        },
        None => {
            let m = slice_of(&v, 0, v.len());
            assert(m@ =~= v@);
            (m, Vec::new())
        },
    };
    let e = trim_end_index(&msg);
    let msg_t = slice_of(&msg, 0, e);
    assert(msg_t@ =~= trim_end(msg@));
    let mlines = str_lines_of(&msg_t);
    let mut message: Vec<String> = Vec::new();
    let mut i: usize = 0;
    while i < mlines.len()
        invariant
            i <= mlines@.len(),
            message@.len() == i,
            forall|k: int| 0 <= k < i ==> (#[trigger] message@[k])@ == mlines@[k]@,
        decreases mlines@.len() - i,
    {
        message.push(string_of(&mlines[i]));
        i += 1;
    }
    let flines = str_lines_of(&files);
    let ghost fl = str_lines(files@);
    let mut entries: Vec<(char, String)> = Vec::new();
    let mut j: usize = 0;
    while j < flines.len()
        invariant
            j <= flines@.len(),
            fl == str_lines(files@),
            flines@.len() == fl.len(),
            forall|k: int| 0 <= k < flines@.len() ==> (#[trigger] flines@[k])@ == fl[k],
            Seq::new(entries@.len(), |k: int| (entries@[k].0, entries@[k].1@)) == file_entries(
                fl.take(j as int),
            ),
        decreases flines@.len() - j,
    {
        let ghost before = Seq::new(entries@.len(), |k: int| (entries@[k].0, entries@[k].1@));
        assert(fl.take(j + 1).drop_last() =~= fl.take(j as int));
        match parse_file_entry(&flines[j]) {
            Some(e) => {
                entries.push(e);
                assert(Seq::new(entries@.len(), |k: int| (entries@[k].0, entries@[k].1@))
                    =~= before.push((e.0, e.1@)));
            },
            None => {},
        }
        j += 1;
    }
    assert(fl.take(j as int) =~= fl);
    let r = CommitDetails { message, files: entries };
    assert(r@.message =~= str_lines(msg_t@));
    r
}


/// The view of details that may be missing.
pub open spec fn opt_details_view(d: Option<CommitDetails>) -> Option<CommitDetailsV> {
    match d {
        Some(x) => Some(x@),
        None => None,
    }
}

/// What has arrived for `hash`: the latest entry for it, if any. The inner `None` says that git
/// could not provide details.
pub open spec fn lookup(
    cache: Seq<(Seq<char>, Option<CommitDetailsV>)>,
    hash: Seq<char>,
) -> Option<Option<CommitDetailsV>>
    decreases cache.len(),
{
    if cache.len() == 0 {
        None
    } else if cache.last().0 == hash {
        Some(cache.last().1)
    } else {
        lookup(cache.drop_last(), hash)
    }
}

/// Commit details asked for and received. The fetching itself (a background `git show`) is done
/// by whoever owns the loader: it sends the hashes `request` accepts and hands what comes back to
/// `poll`.
pub struct DetailsLoader {
    cache: Vec<(String, Option<CommitDetails>)>,
    requested: Vec<String>,
}

/// The hashes asked for, and the details that arrived, in arrival order.
pub struct DetailsLoaderV {
    pub cache: Seq<(Seq<char>, Option<CommitDetailsV>)>,
    pub requested: Seq<Seq<char>>,
}

/// The views of arrived details.
pub open spec fn arrivals_view(v: Seq<(String, Option<CommitDetails>)>) -> Seq<
    (Seq<char>, Option<CommitDetailsV>),
> {
    Seq::new(v.len(), |i: int| (v[i].0@, opt_details_view(v[i].1)))
}

impl View for DetailsLoader {
    type V = DetailsLoaderV;

    closed spec fn view(&self) -> DetailsLoaderV {
        DetailsLoaderV {
            cache: arrivals_view(self.cache@),
            requested: Seq::new(self.requested@.len(), |i: int| self.requested@[i]@),
        }
    }
}

impl DetailsLoader {
    /// A loader that has asked for nothing yet.
    pub fn new() -> (r: Self)
        ensures
            r@.cache.len() == 0,
            r@.requested.len() == 0,
    {
        let r = DetailsLoader { cache: Vec::new(), requested: Vec::new() };
        assert(r@.cache =~= Seq::<(Seq<char>, Option<CommitDetailsV>)>::empty());
        assert(r@.requested =~= Seq::<Seq<char>>::empty());
        r
    }

    /// Ask for a commit's details; repeated requests for the same hash are ignored. Returns
    /// whether the hash is new, that is, whether it is to be fetched.
    pub fn request(&mut self, hash: &str) -> (r: bool)
        ensures
            r == !old(self)@.requested.contains(hash@),
            final(self)@.requested == if r {
                old(self)@.requested.push(hash@)
            } else {
                old(self)@.requested
            },
            final(self)@.cache == old(self)@.cache,
    {
        let mut i: usize = 0;
        while i < self.requested.len()
            invariant
                i <= self.requested@.len(),
                forall|k: int| 0 <= k < i ==> self.requested@[k]@ != hash@,
            decreases self.requested@.len() - i,
        {
            if str_eq(self.requested[i].as_str(), hash) {
                assert(self@.requested[i as int] == hash@);
                return false;
            }
            i += 1;
        }
        assert(!self@.requested.contains(hash@)) by {
            assert forall|k: int| 0 <= k < self@.requested.len() implies self@.requested[k]
                != hash@ by {
                assert(self@.requested[k] == self.requested@[k]@);
            }
        }
        let ghost before = self@.requested;
        self.requested.push(hash.to_string());
        assert(self@.requested =~= before.push(hash@));
        true
    }

    /// Move finished lookups into the cache, in the order they arrived. Returns true when
    /// anything arrived.
    pub fn poll(&mut self, arrived: Vec<(String, Option<CommitDetails>)>) -> (r: bool)
        ensures
            r == (arrived@.len() > 0),
            final(self)@.cache == old(self)@.cache + arrivals_view(arrived@),
            final(self)@.requested == old(self)@.requested,
    {
        let changed = arrived.len() > 0;
        let mut more = arrived;
        let ghost before = self.cache@;
        self.cache.append(&mut more);
        assert(arrivals_view(self.cache@) =~= arrivals_view(before) + arrivals_view(arrived@));
        changed
    }

    /// `None` while loading, `Some(None)` when git could not provide details.
    pub fn get(&self, hash: &str) -> (r: Option<&Option<CommitDetails>>)
        ensures
            match r {
                Some(d) => lookup(self@.cache, hash@) == Some(opt_details_view(*d)),
                None => lookup(self@.cache, hash@) is None,
            },
    {
        let ghost all = self@.cache;
        let mut i: usize = self.cache.len();
        assert(all.take(i as int) =~= all);
        while i > 0
            invariant
                i <= self.cache@.len(),
                all == arrivals_view(self.cache@),
                lookup(all, hash@) == lookup(all.take(i as int), hash@),
            decreases i,
        {
            let ghost t = all.take(i as int);
            assert(t.last() == (self.cache@[i - 1].0@, opt_details_view(self.cache@[i - 1].1)));
            assert(t.drop_last() =~= all.take(i - 1));
            if str_eq(self.cache[i - 1].0.as_str(), hash) {
                return Some(&self.cache[i - 1].1);
            }
            i -= 1;
        }
        None
    }
}

/// Details read back as they arrived: after details for a hash arrive, that hash gives them,
/// and every other hash gives what it gave before.
pub proof fn law_details_read_back(
    cache: Seq<(Seq<char>, Option<CommitDetailsV>)>,
    hash: Seq<char>,
    d: Option<CommitDetailsV>,
    other: Seq<char>,
)
    requires
        other != hash,
    ensures
        lookup(cache.push((hash, d)), hash) == Some(d),
        lookup(cache.push((hash, d)), other) == lookup(cache, other),
{
    assert(cache.push((hash, d)).drop_last() =~= cache);
}

} // verus!
