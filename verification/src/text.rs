//! Character-level text primitives shared by the parsers: splitting on a separator, joining,
//! prefix tests and whitespace trimming, each with the mathematical meaning it has on
//! sequences of chars.
use vstd::prelude::*;

verus! {

/// Unicode `White_Space`, the property that `char::is_whitespace` and `str::trim` use.
pub open spec fn is_ws(c: char) -> bool {
    ||| ('\u{9}' <= c && c <= '\u{d}')
    ||| c == ' '
    ||| c == '\u{85}'
    ||| c == '\u{a0}'
    ||| c == '\u{1680}'
    ||| ('\u{2000}' <= c && c <= '\u{200a}')
    ||| c == '\u{2028}'
    ||| c == '\u{2029}'
    ||| c == '\u{202f}'
    ||| c == '\u{205f}'
    ||| c == '\u{3000}'
}

/// `s` begins with `p`.
pub open spec fn starts_with(s: Seq<char>, p: Seq<char>) -> bool {
    p.len() <= s.len() && s.take(p.len() as int) == p
}

/// `s` ends with `p`.
pub open spec fn ends_with(s: Seq<char>, p: Seq<char>) -> bool {
    p.len() <= s.len() && s.skip(s.len() - p.len()) == p
}

/// `s` without its leading whitespace.
pub open spec fn trim_start(s: Seq<char>) -> Seq<char>
    decreases s.len(),
{
    if s.len() > 0 && is_ws(s[0]) {
        trim_start(s.drop_first())
    } else {
        s
    }
}

/// `s` without its trailing whitespace.
pub open spec fn trim_end(s: Seq<char>) -> Seq<char>
    decreases s.len(),
{
    if s.len() > 0 && is_ws(s.last()) {
        trim_end(s.drop_last())
    } else {
        s
    }
}

/// `s` without leading and trailing whitespace.
pub open spec fn trim(s: Seq<char>) -> Seq<char> {
    trim_end(trim_start(s))
}

/// Every char of `s` is whitespace.
pub open spec fn all_ws(s: Seq<char>) -> bool {
    forall|i: int| 0 <= i < s.len() ==> is_ws(#[trigger] s[i])
}

/// The pieces of `s` between occurrences of `c`, as `str::split` yields them: one more piece
/// than there are occurrences, pieces possibly empty.
pub open spec fn split(s: Seq<char>, c: char) -> Seq<Seq<char>>
    decreases s.len(),
{
    if s.len() == 0 {
        seq![Seq::empty()]
    } else {
        let r = split(s.drop_last(), c);
        if s.last() == c {
            r.push(Seq::empty())
        } else {
            r.drop_last().push(r.last().push(s.last()))
        }
    }
}

/// The pieces joined, `sep` between each two neighbours.
pub open spec fn join(parts: Seq<Seq<char>>, sep: Seq<char>) -> Seq<char>
    decreases parts.len(),
{
    if parts.len() == 0 {
        Seq::empty()
    } else if parts.len() == 1 {
        parts[0]
    } else {
        join(parts.drop_last(), sep) + sep + parts.last()
    }
}

/// The index of the first occurrence of `c` in `s`, if any.
pub open spec fn find(s: Seq<char>, c: char) -> Option<int>
    decreases s.len(),
{
    if s.len() == 0 {
        None
    } else {
        match find(s.drop_last(), c) {
            Some(i) => Some(i),
            None => if s.last() == c {
                Some(s.len() - 1)
            } else {
                None
            },
        }
    }
}

/// The views of a sequence of strings.
pub open spec fn views(v: Seq<String>) -> Seq<Seq<char>> {
    Seq::new(v.len(), |i: int| v[i]@)
}

pub proof fn lemma_split_len(s: Seq<char>, c: char)
    ensures
        split(s, c).len() >= 1,
    decreases s.len(),
{
    if s.len() > 0 {
        lemma_split_len(s.drop_last(), c);
    }
}

/// Joining the pieces of a split with the separator gives back the text.
pub proof fn lemma_join_split(s: Seq<char>, c: char)
    ensures
        join(split(s, c), seq![c]) == s,
    decreases s.len(),
{
    if s.len() > 0 {
        let t = s.drop_last();
        lemma_join_split(t, c);
        lemma_split_len(t, c);
        let r = split(t, c);
        if s.last() == c {
            assert(split(s, c) == r.push(Seq::<char>::empty()));
            assert(split(s, c).drop_last() =~= r);
            assert(s =~= t + seq![c] + Seq::<char>::empty());
        } else {
            let r2 = r.drop_last().push(r.last().push(s.last()));
            assert(split(s, c) == r2);
            if r.len() == 1 {
                assert(s =~= r[0].push(s.last()));
            } else {
                assert(r2.drop_last() =~= r.drop_last());
                assert(join(r, seq![c]) == join(r.drop_last(), seq![c]) + seq![c] + r.last());
                assert(s =~= t.push(s.last()));
                assert(join(r2, seq![c]) == join(r2.drop_last(), seq![c]) + seq![c] + r2.last());
                assert(s =~= join(r.drop_last(), seq![c]) + seq![c] + r.last().push(s.last()));
            }
        }
    }
}

/// No piece of a split holds the separator.
pub proof fn lemma_split_pieces_free(s: Seq<char>, c: char)
    ensures
        forall|i: int, j: int|
            0 <= i < split(s, c).len() && 0 <= j < split(s, c)[i].len() ==> split(s, c)[i][j]
                != c,
    decreases s.len(),
{
    if s.len() > 0 {
        lemma_split_pieces_free(s.drop_last(), c);
        lemma_split_len(s.drop_last(), c);
    }
}

/// The pieces of `s` number one more than the occurrences of `c`; with no occurrence, `s` is
/// the only piece.
pub proof fn lemma_split_no_sep(s: Seq<char>, c: char)
    requires
        forall|j: int| 0 <= j < s.len() ==> s[j] != c,
    ensures
        split(s, c) == seq![s],
    decreases s.len(),
{
    if s.len() > 0 {
        assert forall|j: int| 0 <= j < s.drop_last().len() implies s.drop_last()[j] != c by {
            assert(s.drop_last()[j] == s[j]);
        }
        lemma_split_no_sep(s.drop_last(), c);
        assert(s.drop_last().push(s.last()) =~= s);
        assert(s.last() == s[s.len() - 1]);
        assert(seq![s.drop_last()].drop_last().push(s.drop_last().push(s.last())) =~= seq![s]);
    } else {
        assert(s =~= Seq::<char>::empty());
    }
}

/// Splitting a text made of a piece, the separator and a rest.
pub proof fn lemma_split_append_sep(a: Seq<char>, c: char)
    ensures
        split(a.push(c), c) == split(a, c).push(Seq::empty()),
{
    assert(a.push(c).drop_last() =~= a);
}

/// Splitting `a + b` where `b` holds no separator extends the last piece of `a`.
pub proof fn lemma_split_append_free(a: Seq<char>, b: Seq<char>, c: char)
    requires
        forall|j: int| 0 <= j < b.len() ==> b[j] != c,
    ensures
        split(a + b, c) == split(a, c).drop_last().push(split(a, c).last() + b),
    decreases b.len(),
{
    lemma_split_len(a, c);
    if b.len() == 0 {
        assert(a + b =~= a);
        assert(split(a, c).drop_last().push(split(a, c).last() + b) =~= split(a, c));
    } else {
        let b1 = b.drop_last();
        lemma_split_append_free(a, b1, c);
        assert((a + b).drop_last() =~= a + b1);
        let r = split(a + b1, c);
        assert(r.last().push(b.last()) == split(a, c).last() + b1 + seq![b.last()]);
        assert(split(a, c).last() + b1 + seq![b.last()] =~= split(a, c).last() + b);
        assert(r.drop_last() =~= split(a, c).drop_last());
        assert(split(a + b, c) =~= r.drop_last().push(r.last().push(b.last())));
    }
}

/// The first piece of a text that begins with a separator-free piece and the separator is
/// that piece, and there is at least one more.
pub proof fn lemma_split_first(a: Seq<char>, b: Seq<char>, c: char)
    requires
        forall|j: int| 0 <= j < a.len() ==> a[j] != c,
    ensures
        split(a.push(c) + b, c).len() >= 2,
        split(a.push(c) + b, c)[0] == a,
    decreases b.len(),
{
    if b.len() == 0 {
        assert(a.push(c) + b =~= a.push(c));
        lemma_split_append_sep(a, c);
        lemma_split_no_sep(a, c);
    } else {
        let b1 = b.drop_last();
        lemma_split_first(a, b1, c);
        assert((a.push(c) + b).drop_last() =~= a.push(c) + b1);
    }
}

/// Splitting the join of separator-free pieces gives the pieces back.
pub proof fn lemma_split_join(parts: Seq<Seq<char>>, c: char)
    requires
        parts.len() >= 1,
        forall|i: int, j: int| 0 <= i < parts.len() && 0 <= j < parts[i].len() ==> parts[i][j] != c,
    ensures
        split(join(parts, seq![c]), c) == parts,
    decreases parts.len(),
{
    if parts.len() == 1 {
        lemma_split_no_sep(parts[0], c);
        assert(seq![parts[0]] =~= parts);
    } else {
        let p = parts.drop_last();
        lemma_split_join(p, c);
        let j = join(p, seq![c]);
        lemma_split_append_sep(j, c);
        assert(j + seq![c] =~= j.push(c));
        lemma_split_append_free(j.push(c), parts.last(), c);
        lemma_split_len(j, c);
        let r = split(j.push(c), c);
        assert(r == p.push(Seq::<char>::empty()));
        assert(r.drop_last() =~= p);
        assert(Seq::<char>::empty() + parts.last() =~= parts.last());
        assert(p.push(parts.last()) =~= parts);
    }
}

pub proof fn lemma_trim_start_ws_prefix(s: Seq<char>, i: int)
    requires
        0 <= i <= s.len(),
        forall|j: int| 0 <= j < i ==> is_ws(#[trigger] s[j]),
    ensures
        trim_start(s) == trim_start(s.skip(i)),
    decreases i,
{
    if i > 0 {
        assert(s.drop_first().skip(i - 1) =~= s.skip(i));
        lemma_trim_start_ws_prefix(s.drop_first(), i - 1);
    } else {
        assert(s.skip(0) =~= s);
    }
}

pub proof fn lemma_trim_end_ws_suffix(s: Seq<char>, i: int)
    requires
        0 <= i <= s.len(),
        forall|j: int| i <= j < s.len() ==> is_ws(#[trigger] s[j]),
    ensures
        trim_end(s) == trim_end(s.take(i)),
    decreases s.len() - i,
{
    if i < s.len() {
        assert(s.drop_last().take(i) =~= s.take(i));
        lemma_trim_end_ws_suffix(s.drop_last(), i);
    } else {
        assert(s.take(i) =~= s);
    }
}

/// Trimming leaves text that neither starts nor ends with whitespace, and is empty exactly
/// when the text is all whitespace.
pub proof fn lemma_trim_empty(s: Seq<char>)
    ensures
        (trim(s).len() == 0) == all_ws(s),
        trim_start(s).len() == 0 <==> all_ws(s),
    decreases s.len(),
{
    lemma_trim_start_empty(s);
    lemma_trim_end_empty(trim_start(s));
    lemma_trim_start_head(s);
    let t = trim_start(s);
    if t.len() > 0 {
        assert(!is_ws(t[0]));
    }
}

/// What trimming at the start leaves does not begin with whitespace.
pub proof fn lemma_trim_start_head(s: Seq<char>)
    ensures
        trim_start(s).len() > 0 ==> !is_ws(trim_start(s)[0]),
    decreases s.len(),
{
    if s.len() > 0 && is_ws(s[0]) {
        lemma_trim_start_head(s.drop_first());
    }
}

pub proof fn lemma_trim_start_empty(s: Seq<char>)
    ensures
        trim_start(s).len() == 0 <==> all_ws(s),
    decreases s.len(),
{
    if s.len() > 0 {
        lemma_trim_start_empty(s.drop_first());
        if is_ws(s[0]) {
            if all_ws(s.drop_first()) {
                assert forall|i: int| 0 <= i < s.len() implies is_ws(#[trigger] s[i]) by {
                    if i > 0 {
                        assert(s[i] == s.drop_first()[i - 1]);
                    }
                }
            } else {
                let k = choose|k: int| 0 <= k < s.drop_first().len() && !is_ws(s.drop_first()[k]);
                assert(s[k + 1] == s.drop_first()[k]);
            }
        }
    }
}

pub proof fn lemma_trim_end_empty(s: Seq<char>)
    ensures
        trim_end(s).len() == 0 <==> all_ws(s),
    decreases s.len(),
{
    if s.len() > 0 {
        lemma_trim_end_empty(s.drop_last());
        if is_ws(s.last()) {
            if all_ws(s.drop_last()) {
                assert forall|i: int| 0 <= i < s.len() implies is_ws(#[trigger] s[i]) by {
                    if i < s.len() - 1 {
                        assert(s[i] == s.drop_last()[i]);
                    }
                }
            } else {
                let k = choose|k: int| 0 <= k < s.drop_last().len() && !is_ws(s.drop_last()[k]);
                assert(s[k] == s.drop_last()[k]);
            }
        }
    }
}

/// `String::push`: trusted to leave the string as it was with `c` appended at the end, as
/// std documents it.
#[verifier::external_body]
pub(crate) fn push_char(s: &mut String, c: char)
    ensures
        final(s)@ == old(s)@.push(c),
{
    s.push(c);
}

/// The characters of `s`, in order.
pub fn chars_of(s: &str) -> (r: Vec<char>)
    ensures
        r@ == s@,
{
    let mut r: Vec<char> = Vec::new();
    for c in it: s.chars()
        invariant
            r@ == it.seq().take(it.index() as int),
            it.seq() == s@,
    {
        r.push(c);
    }
    r
}

/// A string holding the chars `v[from..to]`.
pub fn string_of_range(v: &[char], from: usize, to: usize) -> (r: String)
    requires
        from <= to <= v@.len(),
    ensures
        r@ == v@.subrange(from as int, to as int),
{
    let mut r = String::new();
    let mut i = from;
    while i < to
        invariant
            from <= i <= to <= v@.len(),
            r@ == v@.subrange(from as int, i as int),
        decreases to - i,
    {
        push_char(&mut r, v[i]);
        i += 1;
        assert(r@ =~= v@.subrange(from as int, i as int));
    }
    r
}

/// A string holding the chars of `v`.
pub fn string_of(v: &[char]) -> (r: String)
    ensures
        r@ == v@,
{
    let r = string_of_range(v, 0, v.len());
    assert(v@.subrange(0, v@.len() as int) =~= v@);
    r
}

/// The chars `v[from..to]`.
pub fn slice_of(v: &[char], from: usize, to: usize) -> (r: Vec<char>)
    requires
        from <= to <= v@.len(),
    ensures
        r@ == v@.subrange(from as int, to as int),
{
    let mut r: Vec<char> = Vec::new();
    let mut i = from;
    while i < to
        invariant
            from <= i <= to <= v@.len(),
            r@ == v@.subrange(from as int, i as int),
        decreases to - i,
    {
        r.push(v[i]);
        i += 1;
        assert(r@ =~= v@.subrange(from as int, i as int));
    }
    r
}

/// Whether `c` is Unicode whitespace, as `char::is_whitespace` decides.
pub fn is_whitespace(c: char) -> (r: bool)
    ensures
        r == is_ws(c),
{
    ('\u{9}' <= c && c <= '\u{d}') || c == ' ' || c == '\u{85}' || c == '\u{a0}' || c
        == '\u{1680}' || ('\u{2000}' <= c && c <= '\u{200a}') || c == '\u{2028}' || c
        == '\u{2029}' || c == '\u{202f}' || c == '\u{205f}' || c == '\u{3000}'
}

/// Whether the two char sequences are equal.
pub fn seq_eq(a: &[char], b: &[char]) -> (r: bool)
    ensures
        r == (a@ == b@),
{
    if a.len() != b.len() {
        return false;
    }
    let mut i: usize = 0;
    while i < a.len()
        invariant
            a@.len() == b@.len(),
            i <= a@.len(),
            forall|j: int| 0 <= j < i ==> a@[j] == b@[j],
        decreases a@.len() - i,
    {
        if a[i] != b[i] {
            return false;
        }
        i += 1;
    }
    assert(a@ =~= b@);
    true
}

/// Whether `s[at..]` begins with `p`.
pub fn has_at(s: &[char], at: usize, p: &[char]) -> (r: bool)
    requires
        at <= s@.len(),
    ensures
        r == starts_with(s@.skip(at as int), p@),
{
    let n = s.len();
    if p.len() > n - at {
        return false;
    }
    let mut i: usize = 0;
    while i < p.len()
        invariant
            n == s@.len(),
            at + p@.len() <= n,
            i <= p@.len(),
            forall|j: int| 0 <= j < i ==> s@[at + j] == p@[j],
        decreases p@.len() - i,
    {
        if s[at + i] != p[i] {
            assert(s@.skip(at as int).take(p@.len() as int)[i as int] == s@[at + i]);
            return false;
        }
        i += 1;
    }
    assert(s@.skip(at as int).take(p@.len() as int) =~= p@);
    true
}

/// Whether `s` begins with `p`.
pub fn has_prefix(s: &[char], p: &[char]) -> (r: bool)
    ensures
        r == starts_with(s@, p@),
{
    let r = has_at(s, 0, p);
    assert(s@.skip(0) =~= s@);
    r
}

/// Whether `s` ends with `p`.
pub fn has_suffix(s: &[char], p: &[char]) -> (r: bool)
    ensures
        r == ends_with(s@, p@),
{
    if p.len() > s.len() {
        return false;
    }
    let r = has_at(s, s.len() - p.len(), p);
    assert(s@.skip(s@.len() - p@.len()).take(p@.len() as int) =~= s@.skip(s@.len() - p@.len()));
    r
}

/// Whether `s` begins with the literal `p`.
pub fn has_prefix_str(s: &[char], p: &str) -> (r: bool)
    ensures
        r == starts_with(s@, p@),
{
    let pv = chars_of(p);
    has_prefix(s, &pv)
}

/// Whether `s` equals the literal `p`.
pub fn eq_str(s: &[char], p: &str) -> (r: bool)
    ensures
        r == (s@ == p@),
{
    let pv = chars_of(p);
    seq_eq(s, &pv)
}

/// The index where `trim_start(s)` begins.
pub fn trim_start_index(s: &[char]) -> (r: usize)
    ensures
        r <= s@.len(),
        trim_start(s@) == s@.skip(r as int),
        forall|j: int| 0 <= j < r ==> is_ws(#[trigger] s@[j]),
{
    let mut i: usize = 0;
    while i < s.len() && is_whitespace(s[i])
        invariant
            i <= s@.len(),
            forall|j: int| 0 <= j < i ==> is_ws(#[trigger] s@[j]),
        decreases s@.len() - i,
    {
        i += 1;
    }
    proof {
        lemma_trim_start_ws_prefix(s@, i as int);
        let t = s@.skip(i as int);
        if t.len() > 0 {
            assert(t[0] == s@[i as int]);
        }
    }
    i
}

/// The index where `trim_end(s)` ends.
pub fn trim_end_index(s: &[char]) -> (r: usize)
    ensures
        r <= s@.len(),
        trim_end(s@) == s@.take(r as int),
        forall|j: int| r <= j < s@.len() ==> is_ws(#[trigger] s@[j]),
{
    let mut i: usize = s.len();
    while i > 0 && is_whitespace(s[i - 1])
        invariant
            i <= s@.len(),
            forall|j: int| i <= j < s@.len() ==> is_ws(#[trigger] s@[j]),
        decreases i,
    {
        i -= 1;
    }
    proof {
        lemma_trim_end_ws_suffix(s@, i as int);
        let t = s@.take(i as int);
        if t.len() > 0 {
            assert(t.last() == s@[i - 1]);
        }
    }
    i
}

/// `trim(s)`, as the range `(start, end)` of `s` that it covers.
pub fn trim_range(s: &[char]) -> (r: (usize, usize))
    ensures
        r.0 <= r.1 <= s@.len(),
        trim(s@) == s@.subrange(r.0 as int, r.1 as int),
{
    let a = trim_start_index(s);
    let t = slice_of(s, a, s.len());
    let b = trim_end_index(&t);
    assert(t@ == s@.skip(a as int));
    assert(t@.take(b as int) =~= s@.subrange(a as int, (a + b) as int));
    (a, a + b)
}

/// The chars of `trim(s)`.
pub fn trimmed(s: &[char]) -> (r: Vec<char>)
    ensures
        r@ == trim(s@),
{
    let (a, b) = trim_range(s);
    slice_of(s, a, b)
}

/// Whether `s` is empty after trimming whitespace.
pub fn is_blank(s: &[char]) -> (r: bool)
    ensures
        r == (trim(s@).len() == 0),
        r == all_ws(s@),
{
    proof {
        lemma_trim_empty(s@);
    }
    let (a, b) = trim_range(s);
    a == b
}

/// The pieces of `s` split at `c`.
pub fn split_chars(s: &[char], c: char) -> (r: Vec<Vec<char>>)
    ensures
        r@.len() == split(s@, c).len(),
        forall|i: int| 0 <= i < r@.len() ==> (#[trigger] r@[i])@ == split(s@, c)[i],
{
    let mut parts: Vec<Vec<char>> = Vec::new();
    let mut cur: Vec<char> = Vec::new();
    let mut i: usize = 0;
    while i < s.len()
        invariant
            i <= s@.len(),
            split(s@.take(i as int), c).len() == parts@.len() + 1,
            forall|k: int|
                0 <= k < parts@.len() ==> (#[trigger] parts@[k])@ == split(s@.take(i as int), c)[k],
            cur@ == split(s@.take(i as int), c).last(),
        decreases s@.len() - i,
    {
        let ghost before = s@.take(i as int);
        proof {
            lemma_split_len(before, c);
            assert(s@.take(i + 1).drop_last() =~= before);
        }
        if s[i] == c {
            let done = cur;
            parts.push(done);
            cur = Vec::new();
            assert(cur@ =~= Seq::<char>::empty());
        } else {
            cur.push(s[i]);
        }
        i += 1;
    }
    parts.push(cur);
    assert(s@.take(s@.len() as int) =~= s@);
    parts
}

/// The strings joined with `sep` between each two neighbours.
pub fn join_strings(parts: &[String], sep: char) -> (r: String)
    ensures
        r@ == join(views(parts@), seq![sep]),
{
    let mut r = String::new();
    let mut i: usize = 0;
    while i < parts.len()
        invariant
            i <= parts@.len(),
            r@ == join(views(parts@).take(i as int), seq![sep]),
        decreases parts@.len() - i,
    {
        let ghost before = r@;
        if i > 0 {
            push_char(&mut r, sep);
        }
        r.append(parts[i].as_str());
        proof {
            let t = views(parts@).take(i + 1);
            assert(t.drop_last() =~= views(parts@).take(i as int));
            if i == 0 {
                assert(before =~= Seq::<char>::empty());
                assert(r@ =~= t[0]);
            } else {
                assert(r@ =~= before + seq![sep] + t.last());
            }
        }
        i += 1;
    }
    assert(views(parts@).take(parts@.len() as int) =~= views(parts@));
    r
}

/// The first index of `c` in `s`, if any.
pub fn find_char(s: &[char], c: char) -> (r: Option<usize>)
    ensures
        match r {
            Some(i) => find(s@, c) == Some(i as int) && i < s@.len() && s@[i as int] == c,
            None => find(s@, c) is None,
        },
        find(s@, c) is None <==> forall|j: int| 0 <= j < s@.len() ==> s@[j] != c,
        forall|j: int| 0 <= j < s@.len() && s@[j] == c ==> find(s@, c) is Some && find(s@, c)->0 <= j,
{
    proof {
        lemma_find(s@, c);
    }
    let mut i: usize = 0;
    while i < s.len()
        invariant
            i <= s@.len(),
            forall|j: int| 0 <= j < i ==> s@[j] != c,
        decreases s@.len() - i,
    {
        if s[i] == c {
            proof {
                lemma_find_first(s@, c, i as int);
            }
            return Some(i);
        }
        i += 1;
    }
    None
}

/// `find` names the first occurrence.
pub proof fn lemma_find(s: Seq<char>, c: char)
    ensures
        find(s, c) is None <==> forall|j: int| 0 <= j < s.len() ==> s[j] != c,
        find(s, c) matches Some(i) ==> 0 <= i < s.len() && s[i] == c && forall|j: int|
            0 <= j < i ==> s[j] != c,
    decreases s.len(),
{
    if s.len() > 0 {
        lemma_find(s.drop_last(), c);
        if find(s.drop_last(), c) is None {
            assert forall|j: int| 0 <= j < s.len() - 1 implies s[j] != c by {
                assert(s[j] == s.drop_last()[j]);
            }
        } else {
            let i = find(s.drop_last(), c)->0;
            assert(s[i] == s.drop_last()[i]);
            assert forall|j: int| 0 <= j < i implies s[j] != c by {
                assert(s[j] == s.drop_last()[j]);
            }
        }
    }
}

pub proof fn lemma_find_first(s: Seq<char>, c: char, i: int)
    requires
        0 <= i < s.len(),
        s[i] == c,
        forall|j: int| 0 <= j < i ==> s[j] != c,
    ensures
        find(s, c) == Some(i),
{
    lemma_find(s, c);
    let k = find(s, c)->0;
    assert(find(s, c) is Some);
    if k < i {
    } else if k > i {
    }
}


/// The lines of a file: the pieces between newlines, without the empty piece that a final
/// newline leaves. An empty file has one empty line.
pub open spec fn lines_of(raw: Seq<char>) -> Seq<Seq<char>> {
    if raw.len() > 0 && raw.last() == '\n' {
        split(raw, '\n').drop_last()
    } else {
        split(raw, '\n')
    }
}

/// Without a final newline the lines are the split pieces; with one, the pieces of the text
/// before it.
pub proof fn lemma_lines_of(raw: Seq<char>)
    ensures
        raw.len() > 0 && raw.last() == '\n' ==> lines_of(raw) == split(raw.drop_last(), '\n'),
        lines_of(raw).len() >= 1,
{
    lemma_split_len(raw, '\n');
    if raw.len() > 0 && raw.last() == '\n' {
        lemma_split_len(raw.drop_last(), '\n');
        assert(split(raw, '\n').drop_last() =~= split(raw.drop_last(), '\n'));
    }
}

/// The lines of `raw`, as `lines_of` gives them.
pub fn lines_of_chars(raw: &[char]) -> (r: Vec<Vec<char>>)
    ensures
        r@.len() == lines_of(raw@).len(),
        forall|i: int| 0 <= i < r@.len() ==> (#[trigger] r@[i])@ == lines_of(raw@)[i],
{
    let mut parts = split_chars(raw, '\n');
    if raw.len() > 0 && raw[raw.len() - 1] == '\n' {
        proof {
            lemma_split_len(raw@, '\n');
        }
        parts.pop();
    }
    parts
}

/// The first index of a whitespace char in `s`.
pub open spec fn find_ws(s: Seq<char>) -> Option<int>
    decreases s.len(),
{
    if s.len() == 0 {
        None
    } else {
        match find_ws(s.drop_last()) {
            Some(i) => Some(i),
            None => if is_ws(s.last()) {
                Some(s.len() - 1)
            } else {
                None
            },
        }
    }
}

/// The first word of `s` (up to its first whitespace) and what follows that word with
/// leading whitespace removed; the whole of `s` and nothing when it holds no whitespace.
pub open spec fn split_word_spec(s: Seq<char>) -> (Seq<char>, Seq<char>) {
    match find_ws(s) {
        Some(i) => (s.take(i), trim_start(s.skip(i))),
        None => (s, Seq::empty()),
    }
}

/// The first index of whitespace in `s`, if any.
pub fn find_whitespace(s: &[char]) -> (r: Option<usize>)
    ensures
        match r {
            Some(i) => find_ws(s@) == Some(i as int) && i < s@.len(),
            None => find_ws(s@) is None,
        },
{
    proof {
        lemma_find_ws(s@);
    }
    let mut i: usize = 0;
    while i < s.len()
        invariant
            i <= s@.len(),
            forall|j: int| 0 <= j < i ==> !is_ws(s@[j]),
        decreases s@.len() - i,
    {
        if is_whitespace(s[i]) {
            proof {
                lemma_find_ws_first(s@, i as int);
            }
            return Some(i);
        }
        i += 1;
    }
    None
}

pub proof fn lemma_find_ws(s: Seq<char>)
    ensures
        find_ws(s) is None <==> forall|j: int| 0 <= j < s.len() ==> !is_ws(s[j]),
        find_ws(s) matches Some(i) ==> 0 <= i < s.len() && is_ws(s[i]) && forall|j: int|
            0 <= j < i ==> !is_ws(s[j]),
    decreases s.len(),
{
    if s.len() > 0 {
        lemma_find_ws(s.drop_last());
        assert forall|j: int| 0 <= j < s.len() - 1 implies s[j] == s.drop_last()[j] by {}
    }
}

pub proof fn lemma_find_ws_first(s: Seq<char>, i: int)
    requires
        0 <= i < s.len(),
        is_ws(s[i]),
        forall|j: int| 0 <= j < i ==> !is_ws(s[j]),
    ensures
        find_ws(s) == Some(i),
{
    lemma_find_ws(s);
}

/// The first word of `s` and what follows it with leading whitespace removed.
pub fn split_word(s: &[char]) -> (r: (Vec<char>, Vec<char>))
    ensures
        (r.0@, r.1@) == split_word_spec(s@),
{
    match find_whitespace(s) {
        Some(i) => {
            let word = slice_of(s, 0, i);
            let after = slice_of(s, i, s.len());
            let k = trim_start_index(&after);
            let rest = slice_of(&after, k, after.len());
            assert(word@ =~= s@.take(i as int));
            assert(after@ =~= s@.skip(i as int));
            assert(rest@ =~= after@.skip(k as int));
            (word, rest)
        },
        None => {
            let word = slice_of(s, 0, s.len());
            assert(word@ =~= s@);
            (word, Vec::new())
        },
    }
}


/// `p` occurs in `s` at index `i`.
pub open spec fn occurs_at(s: Seq<char>, p: Seq<char>, i: int) -> bool {
    0 <= i && i + p.len() <= s.len() && s.subrange(i, i + p.len()) == p
}

/// `p` occurs somewhere in `s`.
pub open spec fn contains_seq(s: Seq<char>, p: Seq<char>) -> bool {
    exists|i: int| occurs_at(s, p, i)
}

/// The first index at or after `i` where `p` occurs in `s`.
pub open spec fn first_occ_from(s: Seq<char>, p: Seq<char>, i: int) -> Option<int>
    decreases s.len() + 1 - i,
{
    if i < 0 || i + p.len() > s.len() {
        None
    } else if occurs_at(s, p, i) {
        Some(i)
    } else {
        first_occ_from(s, p, i + 1)
    }
}

/// The last index at or before `i` where `p` occurs in `s`.
pub open spec fn last_occ_upto(s: Seq<char>, p: Seq<char>, i: int) -> Option<int>
    decreases i + 1,
{
    if i < 0 {
        None
    } else if occurs_at(s, p, i) {
        Some(i)
    } else {
        last_occ_upto(s, p, i - 1)
    }
}

/// The last index where `p` occurs in `s`.
pub open spec fn last_occ(s: Seq<char>, p: Seq<char>) -> Option<int> {
    last_occ_upto(s, p, s.len() - p.len())
}

pub proof fn lemma_first_occ(s: Seq<char>, p: Seq<char>, i: int)
    requires
        0 <= i,
    ensures
        first_occ_from(s, p, i) matches Some(j) ==> i <= j && occurs_at(s, p, j) && forall|k: int|
            i <= k < j ==> !occurs_at(s, p, k),
        first_occ_from(s, p, i) is None ==> forall|k: int| i <= k ==> !occurs_at(s, p, k),
    decreases s.len() + 1 - i,
{
    if i + p.len() <= s.len() && !occurs_at(s, p, i) {
        lemma_first_occ(s, p, i + 1);
    }
}

pub proof fn lemma_last_occ(s: Seq<char>, p: Seq<char>, i: int)
    ensures
        last_occ_upto(s, p, i) matches Some(j) ==> 0 <= j <= i && occurs_at(s, p, j) && forall|k: int|
            j < k <= i ==> !occurs_at(s, p, k),
        last_occ_upto(s, p, i) is None ==> forall|k: int| k <= i ==> !occurs_at(s, p, k),
    decreases i + 1,
{
    if i >= 0 && !occurs_at(s, p, i) {
        lemma_last_occ(s, p, i - 1);
    }
}

/// Whether `p` occurs in `s` at `i`, as a test on chars.
fn occurs_at_exec(s: &[char], p: &[char], i: usize) -> (r: bool)
    ensures
        r == occurs_at(s@, p@, i as int),
{
    if i > s.len() || p.len() > s.len() - i {
        return false;
    }
    let r = has_at(s, i, p);
    assert(s@.skip(i as int).take(p@.len() as int) =~= s@.subrange(i as int, i + p@.len()));
    r
}

/// The first index at or after `from` where `p` occurs in `s`: `str::find` from that index.
pub fn find_seq(s: &[char], p: &[char], from: usize) -> (r: Option<usize>)
    ensures
        match r {
            Some(j) => first_occ_from(s@, p@, from as int) == Some(j as int),
            None => first_occ_from(s@, p@, from as int) is None,
        },
{
    let mut i = from;
    if from > s.len() {
        return None;
    }
    while i <= s.len() && p.len() <= s.len() - i
        invariant
            from <= i <= s@.len(),
            first_occ_from(s@, p@, from as int) == first_occ_from(s@, p@, i as int),
        decreases s@.len() + 1 - i,
    {
        if occurs_at_exec(s, p, i) {
            return Some(i);
        }
        if i == s.len() {
            assert(first_occ_from(s@, p@, i + 1) is None);
            return None;
        }
        i += 1;
    }
    None
}

/// The last index where `p` occurs in `s`: `str::rfind`.
pub fn rfind_seq(s: &[char], p: &[char]) -> (r: Option<usize>)
    ensures
        match r {
            Some(j) => last_occ(s@, p@) == Some(j as int),
            None => last_occ(s@, p@) is None,
        },
{
    if p.len() > s.len() {
        return None;
    }
    let mut i = s.len() - p.len();
    loop
        invariant
            i <= s@.len() - p@.len(),
            last_occ(s@, p@) == last_occ_upto(s@, p@, i as int),
        decreases i,
    {
        if occurs_at_exec(s, p, i) {
            return Some(i);
        }
        if i == 0 {
            assert(last_occ_upto(s@, p@, -1) is None);
            return None;
        }
        i -= 1;
    }
}

/// Whether `p` occurs in `s`: `str::contains`.
pub fn contains_str(s: &[char], p: &str) -> (r: bool)
    ensures
        r == contains_seq(s@, p@),
{
    let pv = chars_of(p);
    let r = find_seq(s, &pv, 0);
    proof {
        lemma_first_occ(s@, p@, 0);
    }
    r.is_some()
}

/// Whether `s` ends with `p`.
pub fn has_suffix_str(s: &[char], p: &str) -> (r: bool)
    ensures
        r == ends_with(s@, p@),
{
    let pv = chars_of(p);
    has_suffix(s, &pv)
}

/// The end of the word that starts at `i`: the first whitespace at or after `i`, or the end.
pub open spec fn word_end(s: Seq<char>, i: int) -> int
    decreases s.len() - i,
{
    if i < 0 || i >= s.len() || is_ws(s[i]) {
        i
    } else {
        word_end(s, i + 1)
    }
}

pub proof fn lemma_word_end(s: Seq<char>, i: int)
    requires
        0 <= i <= s.len(),
    ensures
        i <= word_end(s, i) <= s.len(),
        word_end(s, i) < s.len() ==> is_ws(s[word_end(s, i)]),
        forall|k: int| i <= k < word_end(s, i) ==> !is_ws(#[trigger] s[k]),
    decreases s.len() - i,
{
    if i < s.len() && !is_ws(s[i]) {
        lemma_word_end(s, i + 1);
    }
}

/// The whitespace-separated words of `s` from index `i` on: `str::split_whitespace`.
pub open spec fn words_from(s: Seq<char>, i: int) -> Seq<Seq<char>>
    decreases s.len() - i,
{
    if i < 0 || i >= s.len() {
        Seq::empty()
    } else if is_ws(s[i]) {
        words_from(s, i + 1)
    } else {
        let j = word_end(s, i);
        proof {
            lemma_word_end(s, i + 1);
        }
        seq![s.subrange(i, j)] + words_from(s, j)
    }
}

/// The whitespace-separated words of `s`.
pub open spec fn words(s: Seq<char>) -> Seq<Seq<char>> {
    words_from(s, 0)
}

/// The words of `s` from `i` on.
fn words_from_exec(s: &[char], i: usize) -> (r: Vec<Vec<char>>)
    requires
        i <= s@.len(),
    ensures
        r@.len() == words_from(s@, i as int).len(),
        forall|k: int| 0 <= k < r@.len() ==> (#[trigger] r@[k])@ == words_from(s@, i as int)[k],
    decreases s@.len() - i,
{
    let mut out: Vec<Vec<char>> = Vec::new();
    let mut i = i;
    let ghost start = i;
    let ghost mut done: Seq<Seq<char>> = Seq::empty();
    while i < s.len()
        invariant
            start <= i <= s@.len(),
            out@.len() == done.len(),
            forall|k: int| 0 <= k < out@.len() ==> (#[trigger] out@[k])@ == done[k],
            words_from(s@, start as int) == done + words_from(s@, i as int),
        decreases s@.len() - i,
    {
        if is_whitespace(s[i]) {
            i += 1;
        } else {
            let mut j = i;
            proof {
                lemma_word_end(s@, i as int);
            }
            while j < s.len() && !is_whitespace(s[j])
                invariant
                    i <= j <= s@.len(),
                    word_end(s@, i as int) == word_end(s@, j as int),
                decreases s@.len() - j,
            {
                j += 1;
            }
            let w = slice_of(s, i, j);
            proof {
                let ws = words_from(s@, i as int);
                assert(ws == seq![s@.subrange(i as int, j as int)] + words_from(s@, j as int));
                assert(done + ws =~= done.push(w@) + words_from(s@, j as int));
                done = done.push(w@);
            }
            out.push(w);
            i = j;
        }
    }
    assert(done + words_from(s@, i as int) =~= done);
    out
}

/// The whitespace-separated words of `s`.
pub fn words_of(s: &[char]) -> (r: Vec<Vec<char>>)
    ensures
        r@.len() == words(s@).len(),
        forall|k: int| 0 <= k < r@.len() ==> (#[trigger] r@[k])@ == words(s@)[k],
{
    words_from_exec(s, 0)
}

/// An ASCII decimal digit.
pub open spec fn is_digit(c: char) -> bool {
    '0' <= c && c <= '9'
}

/// The number an ASCII digit stands for.
pub open spec fn digit_value(c: char) -> nat {
    (c as int - '0' as int) as nat
}

/// The value of a string of decimal digits.
pub open spec fn decimal_value(d: Seq<char>) -> nat
    decreases d.len(),
{
    if d.len() == 0 {
        0
    } else {
        decimal_value(d.drop_last()) * 10 + digit_value(d.last())
    }
}

/// A number's text without its optional leading `+`.
pub open spec fn unsigned_digits(w: Seq<char>) -> Seq<char> {
    if w.len() > 0 && w[0] == '+' {
        w.drop_first()
    } else {
        w
    }
}

/// Every char of `d` is an ASCII digit.
pub open spec fn all_digits(d: Seq<char>) -> bool {
    forall|i: int| 0 <= i < d.len() ==> is_digit(#[trigger] d[i])
}

/// What `str::parse::<u32>` gives: an optional `+` and then one or more ASCII digits whose
/// value fits in a `u32`; nothing for anything else.
pub open spec fn parse_u32_spec(w: Seq<char>) -> Option<u32> {
    let d = unsigned_digits(w);
    if d.len() > 0 && all_digits(d) && decimal_value(d) <= u32::MAX {
        Some(decimal_value(d) as u32)
    } else {
        None
    }
}

proof fn lemma_decimal_prefix(d: Seq<char>, k: int)
    requires
        0 <= k <= d.len(),
        all_digits(d),
    ensures
        decimal_value(d.take(k)) <= decimal_value(d),
    decreases d.len() - k,
{
    if k < d.len() {
        let e = d.take(k + 1);
        assert(e.drop_last() =~= d.take(k));
        lemma_decimal_prefix(d, k + 1);
    } else {
        assert(d.take(k) =~= d);
    }
}

/// `str::parse::<u32>`, checked char by char.
pub fn parse_u32(w: &[char]) -> (r: Option<u32>)
    ensures
        r == parse_u32_spec(w@),
{
    let start: usize = if w.len() > 0 && w[0] == '+' {
        1
    } else {
        0
    };
    let ghost d = unsigned_digits(w@);
    assert(d =~= w@.skip(start as int));
    if w.len() == start {
        return None;
    }
    let mut i = start;
    let mut acc: u64 = 0;
    while i < w.len()
        invariant
            start <= i <= w@.len(),
            d == unsigned_digits(w@),
            d =~= w@.skip(start as int),
            forall|k: int| 0 <= k < i - start ==> is_digit(#[trigger] d[k]),
            acc == decimal_value(d.take(i - start)),
            acc <= u32::MAX,
        decreases w@.len() - i,
    {
        let c = w[i];
        if !('0' <= c && c <= '9') {
            assert(!is_digit(d[i - start]));
            assert(!all_digits(d));
            return None;
        }
        let v: u64 = (c as u32 - '0' as u32) as u64;
        let next = acc * 10 + v;
        let ghost e = d.take(i - start + 1);
        assert(e.drop_last() =~= d.take(i - start));
        assert(e.last() == c);
        if next > 4294967295 {
            proof {
                if all_digits(d) {
                    lemma_decimal_prefix(d, i - start + 1);
                    assert(decimal_value(d) > u32::MAX);
                }
            }
            return None;
        }
        acc = next;
        i += 1;
    }
    assert(d.take(i - start) =~= d);
    Some(acc as u32)
}

/// The decimal digits of `n`, as `Display` writes a number.
pub open spec fn decimal_spec(n: nat) -> Seq<char>
    decreases n,
{
    if n < 10 {
        seq![(n + '0' as nat) as char]
    } else {
        decimal_spec(n / 10).push(((n % 10) + '0' as nat) as char)
    }
}

/// `n` written in decimal.
pub fn decimal_string(n: u128) -> (r: String)
    ensures
        r@ == decimal_spec(n as nat),
{
    let mut digits: Vec<char> = Vec::new();
    let mut m = n;
    let ghost mut tail: Seq<char> = Seq::empty();
    while m >= 10
        invariant
            decimal_spec(n as nat) == decimal_spec(m as nat) + tail,
            digits@ == tail.reverse(),
        decreases m,
    {
        let c = ((m % 10) as u8 + 48u8) as char;
        proof {
            assert(decimal_spec(m as nat) == decimal_spec((m / 10) as nat).push(c));
            assert(decimal_spec(m as nat) + tail =~= decimal_spec((m / 10) as nat) + (seq![c] + tail));
            tail = seq![c] + tail;
        }
        digits.push(c);
        assert(digits@ =~= tail.reverse());
        m = m / 10;
    }
    let c = (m as u8 + 48u8) as char;
    proof {
        assert(decimal_spec(m as nat) == seq![c]);
        tail = seq![c] + tail;
    }
    digits.push(c);
    assert(digits@ =~= tail.reverse());
    let mut out = String::new();
    let mut k = digits.len();
    while k > 0
        invariant
            k <= digits@.len(),
            digits@ == tail.reverse(),
            decimal_spec(n as nat) == tail,
            out@ == tail.take(digits@.len() - k),
        decreases k,
    {
        k -= 1;
        push_char(&mut out, digits[k]);
        assert(out@ =~= tail.take(digits@.len() - k));
    }
    assert(tail.take(digits@.len() as int) =~= tail);
    out
}

/// Appends the chars of `s` to `out`.
pub fn extend_chars(out: &mut Vec<char>, s: &[char])
    ensures
        final(out)@ == old(out)@ + s@,
{
    let mut i: usize = 0;
    while i < s.len()
        invariant
            i <= s@.len(),
            out@ == old(out)@ + s@.take(i as int),
        decreases s@.len() - i,
    {
        out.push(s[i]);
        i += 1;
        assert(out@ =~= old(out)@ + s@.take(i as int));
    }
    assert(s@.take(i as int) =~= s@);
}

/// Appends the chars of the literal `p` to `out`.
pub fn extend_str(out: &mut Vec<char>, p: &str)
    ensures
        final(out)@ == old(out)@ + p@,
{
    let v = chars_of(p);
    extend_chars(out, &v);
}

/// A line without the carriage return that ended it, when it ended in `\r\n`.
pub open spec fn strip_cr(l: Seq<char>, ended: bool) -> Seq<char> {
    if ended && l.len() > 0 && l.last() == '\r' {
        l.drop_last()
    } else {
        l
    }
}

/// The lines of `s` as `str::lines` yields them: split at `\n`, a final `\n` ending the last
/// line rather than starting another, a `\r` before a `\n` dropped, and none for empty text.
pub open spec fn str_lines(s: Seq<char>) -> Seq<Seq<char>> {
    if s.len() == 0 {
        Seq::empty()
    } else {
        let ended = s.last() == '\n';
        let p = split(
            if ended {
                s.drop_last()
            } else {
                s
            },
            '\n',
        );
        Seq::new(p.len(), |i: int| strip_cr(p[i], i < p.len() - 1 || ended))
    }
}

/// The lines of `s`, as `str::lines` yields them.
pub fn str_lines_of(s: &[char]) -> (r: Vec<Vec<char>>)
    ensures
        r@.len() == str_lines(s@).len(),
        forall|i: int| 0 <= i < r@.len() ==> (#[trigger] r@[i])@ == str_lines(s@)[i],
{
    let mut out: Vec<Vec<char>> = Vec::new();
    if s.len() == 0 {
        return out;
    }
    let n = s.len();
    let ended = s[n - 1] == '\n';
    let body = if ended {
        slice_of(s, 0, n - 1)
    } else {
        slice_of(s, 0, n)
    };
    assert(body@ =~= if ended {
        s@.drop_last()
    } else {
        s@
    });
    let parts = split_chars(&body, '\n');
    let ghost p = split(body@, '\n');
    let mut i: usize = 0;
    while i < parts.len()
        invariant
            i <= parts@.len(),
            p == split(body@, '\n'),
            parts@.len() == p.len(),
            forall|k: int| 0 <= k < parts@.len() ==> (#[trigger] parts@[k])@ == p[k],
            out@.len() == i,
            forall|k: int|
                0 <= k < i ==> (#[trigger] out@[k])@ == strip_cr(p[k], k < p.len() - 1 || ended),
        decreases parts@.len() - i,
    {
        let part = &parts[i];
        let m = part.len();
        let strip = (i + 1 < parts.len() || ended) && m > 0 && part[m - 1] == '\r';
        let line = if strip {
            slice_of(part, 0, m - 1)
        } else {
            slice_of(part, 0, m)
        };
        assert(line@ =~= strip_cr(p[i as int], i < p.len() - 1 || ended));
        out.push(line);
        i += 1;
    }
    out
}

/// The char sequences of `parts` joined with the literal `sep` between each two.
pub fn join_chars(parts: &[Vec<char>], sep: &str) -> (r: Vec<char>)
    ensures
        r@ == join(Seq::new(parts@.len(), |i: int| parts@[i]@), sep@),
{
    let ghost all = Seq::new(parts@.len(), |i: int| parts@[i]@);
    let mut r: Vec<char> = Vec::new();
    let mut i: usize = 0;
    while i < parts.len()
        invariant
            i <= parts@.len(),
            all == Seq::new(parts@.len(), |i: int| parts@[i]@),
            r@ == join(all.take(i as int), sep@),
        decreases parts@.len() - i,
    {
        let ghost before = r@;
        if i > 0 {
            extend_str(&mut r, sep);
        }
        extend_chars(&mut r, &parts[i]);
        proof {
            let t = all.take(i + 1);
            assert(t.drop_last() =~= all.take(i as int));
            if i == 0 {
                assert(before =~= Seq::<char>::empty());
                assert(r@ =~= t[0]);
            } else {
                assert(r@ =~= before + sep@ + t.last());
            }
        }
        i += 1;
    }
    assert(all.take(parts@.len() as int) =~= all);
    r
}

/// Whether two strings hold the same chars.
pub fn str_eq(a: &str, b: &str) -> (r: bool)
    ensures
        r == (a@ == b@),
{
    let av = chars_of(a);
    let bv = chars_of(b);
    seq_eq(&av, &bv)
}

/// A char that `s` does not hold is in none of its pieces.
pub proof fn lemma_split_pieces_lack(s: Seq<char>, c: char, x: char)
    requires
        forall|k: int| 0 <= k < s.len() ==> s[k] != x,
    ensures
        forall|i: int, j: int|
            0 <= i < split(s, c).len() && 0 <= j < split(s, c)[i].len() ==> split(s, c)[i][j]
                != x,
    decreases s.len(),
{
    if s.len() > 0 {
        let p = s.drop_last();
        assert forall|k: int| 0 <= k < p.len() implies p[k] != x by {
            assert(p[k] == s[k]);
        }
        lemma_split_pieces_lack(p, c, x);
        lemma_split_len(p, c);
    }
}

/// Text without carriage returns is its lines joined by newlines, with a final newline when it
/// had one.
pub proof fn lemma_join_str_lines(s: Seq<char>)
    requires
        forall|k: int| 0 <= k < s.len() ==> s[k] != '\r',
    ensures
        ({
            let j = join(str_lines(s), seq!['\n']);
            if s.len() > 0 && s.last() == '\n' {
                j.push('\n')
            } else {
                j
            }
        }) == s,
{
    if s.len() == 0 {
        assert(str_lines(s) =~= Seq::<Seq<char>>::empty());
    } else {
        let ended = s.last() == '\n';
        let body = if ended {
            s.drop_last()
        } else {
            s
        };
        assert forall|k: int| 0 <= k < body.len() implies body[k] != '\r' by {
            assert(body[k] == s[k]);
        }
        lemma_split_pieces_lack(body, '\n', '\r');
        let p = split(body, '\n');
        assert(str_lines(s) =~= p) by {
            assert forall|i: int| 0 <= i < p.len() implies strip_cr(
                p[i],
                i < p.len() - 1 || ended,
            ) == p[i] by {
                if p[i].len() > 0 {
                    assert(p[i][p[i].len() - 1] != '\r');
                }
            }
        }
        lemma_join_split(body, '\n');
        if ended {
            assert(body.push('\n') =~= s);
        }
    }
}
} // verus!
