//! Text primitives over character sequences: whitespace trimming, pattern
//! search, splitting and line breaking, each with a mathematical definition
//! and an executable counterpart that works on index ranges of a `Vec<char>`.

use vstd::prelude::*;

verus! {

broadcast use vstd::string::group_string_axioms;

/// The Unicode `White_Space` characters, as `char::is_whitespace` defines them.
pub open spec fn is_ws(c: char) -> bool {
    let u = c as u32;
    ||| 9 <= u <= 13
    ||| u == 32
    ||| u == 0x85
    ||| u == 0xA0
    ||| u == 0x1680
    ||| 0x2000 <= u <= 0x200A
    ||| u == 0x2028
    ||| u == 0x2029
    ||| u == 0x202F
    ||| u == 0x205F
    ||| u == 0x3000
}

/// Executable whitespace test.
pub fn is_whitespace(c: char) -> (r: bool)
    ensures
        r == is_ws(c),
{
    let u = c as u32;
    (9 <= u && u <= 13) || u == 32 || u == 0x85 || u == 0xA0 || u == 0x1680 || (0x2000 <= u
        && u <= 0x200A) || u == 0x2028 || u == 0x2029 || u == 0x202F || u == 0x205F || u
        == 0x3000
}

/// `s` with leading whitespace removed.
pub open spec fn trim_start(s: Seq<char>) -> Seq<char>
    decreases s.len(),
{
    if s.len() > 0 && is_ws(s[0]) {
        trim_start(s.drop_first())
    } else {
        s
    }
}

/// `s` with trailing whitespace removed.
pub open spec fn trim_end(s: Seq<char>) -> Seq<char>
    decreases s.len(),
{
    if s.len() > 0 && is_ws(s.last()) {
        trim_end(s.drop_last())
    } else {
        s
    }
}

/// `s` with whitespace removed from both ends, as `str::trim` does.
pub open spec fn trim(s: Seq<char>) -> Seq<char> {
    trim_end(trim_start(s))
}

/// `p` occurs in `s` at position `i`.
pub open spec fn matches_at(s: Seq<char>, p: Seq<char>, i: int) -> bool {
    0 <= i && i + p.len() <= s.len() && s.subrange(i, i + p.len()) == p
}

/// The position of the first occurrence of `p` in `s`, as `str::find` gives it
/// (counted in characters).
pub open spec fn find_seq(s: Seq<char>, p: Seq<char>) -> Option<int>
    decreases s.len(),
{
    if p.len() <= s.len() && s.subrange(0, p.len() as int) == p {
        Some(0)
    } else if s.len() == 0 {
        None
    } else {
        match find_seq(s.drop_first(), p) {
            Some(i) => Some(i + 1),
            None => None,
        }
    }
}

/// `p` occurs somewhere in `s`, as `str::contains` decides.
pub open spec fn contains_seq(s: Seq<char>, p: Seq<char>) -> bool {
    find_seq(s, p) is Some
}

/// The pieces of `s` between the occurrences of the non-empty pattern `p`,
/// taken from left to right without overlap, as `str::split` yields them.
pub open spec fn split_seq(s: Seq<char>, p: Seq<char>) -> Seq<Seq<char>>
    decreases s.len(),
{
    if p.len() == 0 {
        seq![s]
    } else {
        match find_seq(s, p) {
            Some(i) => if 0 <= i && i + p.len() <= s.len() {
                seq![s.subrange(0, i)] + split_seq(s.subrange(i + p.len(), s.len() as int), p)
            } else {
                seq![s]
            },
            None => seq![s],
        }
    }
}

/// A line with the carriage return of a `\r\n` ending removed.
pub open spec fn strip_cr(l: Seq<char>) -> Seq<char> {
    if l.len() > 0 && l.last() == '\r' {
        l.drop_last()
    } else {
        l
    }
}

/// The lines of `s`, as `str::lines` yields them: split at `\n`, a `\r` before
/// a `\n` dropped, and no empty line after a final line ending.
pub open spec fn lines(s: Seq<char>) -> Seq<Seq<char>> {
    let pieces = split_seq(s, seq!['\n']);
    if s.len() == 0 {
        seq![]
    } else if s.last() == '\n' {
        pieces.drop_last().map_values(|l: Seq<char>| strip_cr(l))
    } else {
        pieces.drop_last().map_values(|l: Seq<char>| strip_cr(l)).push(pieces.last())
    }
}

/// The character sequences that a list of index ranges selects from `t`.
pub open spec fn pieces_of(t: Seq<char>, rs: Seq<(usize, usize)>) -> Seq<Seq<char>> {
    rs.map_values(|r: (usize, usize)| t.subrange(r.0 as int, r.1 as int))
}

/// Every range of `rs` lies inside `[lo, hi]` of a text of length `n`.
pub open spec fn ranges_within(rs: Seq<(usize, usize)>, lo: int, hi: int) -> bool {
    forall|k: int| 0 <= k < rs.len() ==> lo <= #[trigger] rs[k].0 <= rs[k].1 <= hi
}

/// The first occurrence that `find_seq` reports is an occurrence, and the
/// earliest one; `None` means that there is none.
pub proof fn lemma_find_seq(s: Seq<char>, p: Seq<char>)
    ensures
        match find_seq(s, p) {
            Some(i) => matches_at(s, p, i) && forall|k: int| 0 <= k < i ==> !matches_at(s, p, k),
            None => forall|k: int| !matches_at(s, p, k),
        },
    decreases s.len(),
{
    if p.len() <= s.len() && s.subrange(0, p.len() as int) == p {
    } else if s.len() == 0 {
        assert forall|k: int| !matches_at(s, p, k) by {
            if matches_at(s, p, k) {
                assert(s.subrange(0, p.len() as int) =~= p);
            }
        }
    } else {
        lemma_find_seq(s.drop_first(), p);
        assert forall|k: int| 0 <= k && k + 1 + p.len() <= s.len() implies matches_at(
            s.drop_first(),
            p,
            k,
        ) == matches_at(s, p, k + 1) by {
            assert(s.drop_first().subrange(k, k + p.len()) =~= s.subrange(k + 1, k + 1 + p.len()));
        }
        match find_seq(s.drop_first(), p) {
            Some(i) => {
                assert forall|k: int| 0 <= k < i + 1 implies !matches_at(s, p, k) by {
                    if k > 0 {
                        assert(!matches_at(s.drop_first(), p, k - 1));
                    }
                }
            },
            None => {
                assert forall|k: int| !matches_at(s, p, k) by {
                    if k > 0 && k + p.len() <= s.len() {
                        assert(!matches_at(s.drop_first(), p, k - 1));
                    }
                }
            },
        }
    }
}

/// `find_seq` is characterised by the earliest occurrence.
pub proof fn lemma_find_seq_is(s: Seq<char>, p: Seq<char>, i: int)
    requires
        matches_at(s, p, i),
        forall|k: int| 0 <= k < i ==> !matches_at(s, p, k),
    ensures
        find_seq(s, p) == Some(i),
{
    lemma_find_seq(s, p);
    match find_seq(s, p) {
        Some(j) => {
            if j < i {
            } else if j > i {
            }
        },
        None => {
            assert(!matches_at(s, p, i));
        },
    }
}

/// A concatenation lacks a character that both parts lack.
pub proof fn lemma_concat_lacks(a: Seq<char>, b: Seq<char>, c: char)
    requires
        !a.contains(c),
        !b.contains(c),
    ensures
        !(a + b).contains(c),
{
    if (a + b).contains(c) {
        let k = choose|k: int| 0 <= k < (a + b).len() && (a + b)[k] == c;
        if k < a.len() {
            assert(a[k] == c);
        } else {
            assert(b[k - a.len()] == c);
        }
    }
}

/// Searching `a + b` for a character that `a` lacks finds its first
/// occurrence in `b`, shifted by the length of `a`.
pub proof fn lemma_find_char_concat(a: Seq<char>, b: Seq<char>, c: char)
    requires
        !a.contains(c),
    ensures
        find_seq(a + b, seq![c]) == (match find_seq(b, seq![c]) {
            Some(i) => Some(i + a.len()),
            None => None::<int>,
        }),
{
    let p = seq![c];
    let s = a + b;
    lemma_find_seq(b, p);
    lemma_find_seq(s, p);
    assert forall|k: int| 0 <= k < a.len() implies !matches_at(s, p, k) by {
        if matches_at(s, p, k) {
            assert(s.subrange(k, k + 1)[0] == s[k]);
            assert(a[k] == c);
        }
    }
    assert forall|k: int| 0 <= k implies matches_at(s, p, k + a.len()) == matches_at(b, p, k) by {
        if k + 1 <= b.len() {
            assert(s.subrange(k + a.len(), k + a.len() + 1) =~= b.subrange(k, k + 1));
        }
    }
    match find_seq(b, p) {
        Some(i) => {
            assert forall|k: int| 0 <= k < i + a.len() implies !matches_at(s, p, k) by {
                if k >= a.len() {
                    assert(!matches_at(b, p, k - a.len()));
                    assert(matches_at(s, p, (k - a.len()) + a.len()) == matches_at(b, p, k - a.len()));
                }
            }
            assert(matches_at(s, p, i + a.len()));
            lemma_find_seq_is(s, p, i + a.len());
        },
        None => {
            if let Some(j) = find_seq(s, p) {
                assert(matches_at(s, p, j));
                assert(j >= a.len());
                assert(matches_at(s, p, (j - a.len()) + a.len()) == matches_at(b, p, j - a.len()));
                assert(!matches_at(b, p, j - a.len()));
            }
        },
    }
}

/// A character that does not occur in `s` is not found in it.
pub proof fn lemma_find_char_absent(s: Seq<char>, c: char)
    requires
        !s.contains(c),
    ensures
        find_seq(s, seq![c]) is None,
{
    lemma_find_char_concat(s, seq![], c);
    assert(s + seq![] =~= s);
}

/// Splitting `a + [c] + b` at the character `c`, where `a` lacks it, gives
/// `a` followed by the pieces of `b`.
pub proof fn lemma_split_char_concat(a: Seq<char>, b: Seq<char>, c: char)
    requires
        !a.contains(c),
    ensures
        split_seq(a + seq![c] + b, seq![c]) == seq![a] + split_seq(b, seq![c]),
{
    let s = a + seq![c] + b;
    assert(s =~= a + (seq![c] + b));
    lemma_find_char_concat(a, seq![c] + b, c);
    assert((seq![c] + b).subrange(0, 1) =~= seq![c]);
    assert(find_seq(seq![c] + b, seq![c]) == Some(0int));
    assert(s.subrange(0, a.len() as int) =~= a);
    assert(s.subrange(a.len() + 1int, s.len() as int) =~= b);
}

/// Copies a string's characters into a vector.
pub fn to_chars(s: &str) -> (v: Vec<char>)
    ensures
        v@ == s@,
{
    let mut v: Vec<char> = Vec::new();
    for c in it: s.chars()
        invariant
            v@ == it.seq().take(it.index()),
    {
        v.push(c);
    }
    v
}

/// Appends one character to a `String`.
///
/// Trusted: calls `String::push`, which std documents as appending the given
/// `char` to the end of the string.
#[verifier::external_body]
pub(crate) fn push_char(s: &mut String, c: char)
    ensures
        final(s)@ == old(s)@.push(c),
{
    s.push(c);
}

/// The characters `t[lo..hi]` as a `String`.
pub fn string_of(t: &Vec<char>, lo: usize, hi: usize) -> (r: String)
    requires
        lo <= hi <= t.len(),
    ensures
        r@ == t@.subrange(lo as int, hi as int),
{
    let mut r = String::new();
    let mut i = lo;
    while i < hi
        invariant
            lo <= i <= hi <= t.len(),
            r@ == t@.subrange(lo as int, i as int),
        decreases hi - i,
    {
        push_char(&mut r, t[i]);
        assert(t@.subrange(lo as int, i + 1) =~= t@.subrange(lo as int, i as int).push(t@[i as int]));
        i = i + 1;
    }
    r
}


/// `p` occurs in `t` at position `pos`.
pub fn matches_here(t: &Vec<char>, pos: usize, p: &Vec<char>) -> (r: bool)
    requires
        pos <= t.len(),
    ensures
        r == (pos + p.len() <= t.len() && t@.subrange(pos as int, pos + p.len()) == p@),
{
    if p.len() > t.len() - pos {
        return false;
    }
    let mut k: usize = 0;
    while k < p.len()
        invariant
            pos + p.len() <= t.len(),
            k <= p.len(),
            forall|j: int| 0 <= j < k ==> t@[pos + j] == p@[j],
        decreases p.len() - k,
    {
        if t[pos + k] != p[k] {
            assert(t@.subrange(pos as int, pos + p.len())[k as int] != p@[k as int]);
            return false;
        }
        k = k + 1;
    }
    assert(t@.subrange(pos as int, pos + p.len()) =~= p@);
    true
}

/// The first occurrence of `p` in `t[lo..hi]`, relative to `lo`.
pub fn find_in(t: &Vec<char>, lo: usize, hi: usize, p: &Vec<char>) -> (r: Option<usize>)
    requires
        lo <= hi <= t.len(),
        p.len() > 0,
    ensures
        match r {
            Some(i) => find_seq(t@.subrange(lo as int, hi as int), p@) == Some(i as int),
            None => find_seq(t@.subrange(lo as int, hi as int), p@) is None,
        },
{
    let ghost s = t@.subrange(lo as int, hi as int);
    let mut i: usize = 0;
    while i < hi - lo && p.len() <= hi - lo - i
        invariant
            lo <= hi <= t.len(),
            p.len() > 0,
            s == t@.subrange(lo as int, hi as int),
            i <= hi - lo,
            forall|k: int| 0 <= k < i ==> !matches_at(s, p@, k),
        decreases hi - lo + 1 - i,
    {
        let m = matches_here(t, lo + i, p) && lo + i + p.len() <= hi;
        if m {
            assert(s.subrange(i as int, i + p.len()) =~= t@.subrange(lo + i, lo + i + p.len()));
            proof { lemma_find_seq_is(s, p@, i as int); }
            return Some(i);
        }
        assert(!matches_at(s, p@, i as int)) by {
            if i + p.len() <= s.len() {
                assert(s.subrange(i as int, i + p.len()) =~= t@.subrange(lo + i, lo + i + p.len()));
            }
        }
        i = i + 1;
    }
    proof {
        lemma_find_seq(s, p@);
        if let Some(j) = find_seq(s, p@) {
            if j >= i {
                assert(j + p.len() > s.len());
            }
            assert(!matches_at(s, p@, j));
        }
    }
    None
}

/// The bounds of `trim(t[lo..hi])` inside `t`.
pub fn trim_range(t: &Vec<char>, lo: usize, hi: usize) -> (r: (usize, usize))
    requires
        lo <= hi <= t.len(),
    ensures
        lo <= r.0 <= r.1 <= hi,
        t@.subrange(r.0 as int, r.1 as int) == trim(t@.subrange(lo as int, hi as int)),
{
    let mut i = lo;
    while i < hi && is_whitespace(t[i])
        invariant
            lo <= i <= hi <= t.len(),
            trim_start(t@.subrange(lo as int, hi as int)) == trim_start(
                t@.subrange(i as int, hi as int),
            ),
        decreases hi - i,
    {
        assert(t@.subrange(i as int, hi as int).drop_first() =~= t@.subrange(i + 1, hi as int));
        i = i + 1;
    }
    let mut j = hi;
    while j > i && is_whitespace(t[j - 1])
        invariant
            lo <= i <= j <= hi <= t.len(),
            trim(t@.subrange(lo as int, hi as int)) == trim_end(t@.subrange(i as int, j as int)),
        decreases j - i,
    {
        assert(t@.subrange(i as int, j as int).drop_last() =~= t@.subrange(i as int, j - 1));
        j = j - 1;
    }
    (i, j)
}

/// The index ranges of the pieces of `t[lo..hi]` split at the non-empty
/// pattern `p`.
pub fn split_ranges(t: &Vec<char>, lo: usize, hi: usize, p: &Vec<char>) -> (rs: Vec<(usize, usize)>)
    requires
        lo <= hi <= t.len(),
        p.len() > 0,
    ensures
        ranges_within(rs@, lo as int, hi as int),
        pieces_of(t@, rs@) == split_seq(t@.subrange(lo as int, hi as int), p@),
{
    let mut rs: Vec<(usize, usize)> = Vec::new();
    let mut cur = lo;
    loop
        invariant
            lo <= cur <= hi <= t.len(),
            p.len() > 0,
            ranges_within(rs@, lo as int, hi as int),
            pieces_of(t@, rs@) + split_seq(t@.subrange(cur as int, hi as int), p@) == split_seq(
                t@.subrange(lo as int, hi as int),
                p@,
            ),
        decreases hi - cur,
    {
        let ghost s = t@.subrange(cur as int, hi as int);
        let ghost before = rs@;
        match find_in(t, cur, hi, p) {
            Some(i) => {
                proof {
                    lemma_find_seq(s, p@);
                    assert(s.subrange(0, i as int) =~= t@.subrange(cur as int, cur + i));
                    assert(s.subrange(i + p.len(), s.len() as int) =~= t@.subrange(
                        cur + i + p.len(),
                        hi as int,
                    ));
                }
                rs.push((cur, cur + i));
                assert(pieces_of(t@, rs@) =~= pieces_of(t@, before).push(
                    t@.subrange(cur as int, cur + i),
                ));
                cur = cur + i + p.len();
            },
            None => {
                rs.push((cur, hi));
                assert(pieces_of(t@, rs@) =~= pieces_of(t@, before).push(s));
                assert(pieces_of(t@, rs@) =~= pieces_of(t@, before) + split_seq(s, p@));
                return rs;
            },
        }
    }
}

/// The index ranges of the lines of `t[lo..hi]`, as `str::lines` yields them.
pub fn line_ranges(t: &Vec<char>, lo: usize, hi: usize) -> (rs: Vec<(usize, usize)>)
    requires
        lo <= hi <= t.len(),
    ensures
        ranges_within(rs@, lo as int, hi as int),
        pieces_of(t@, rs@) == lines(t@.subrange(lo as int, hi as int)),
{
    let ghost s = t@.subrange(lo as int, hi as int);
    let mut nl: Vec<char> = Vec::new();
    nl.push('\n');
    assert(nl@ =~= seq!['\n']);
    let pieces = split_ranges(t, lo, hi, &nl);
    let mut rs: Vec<(usize, usize)> = Vec::new();
    if hi == lo {
        assert(pieces_of(t@, rs@) =~= lines(s));
        return rs;
    }
    let ends_nl = t[hi - 1] == '\n';
    let n = pieces.len();
    proof {
        lemma_split_nonempty(s, seq!['\n']);
    }
    let ghost ps = split_seq(s, seq!['\n']);
    let mut k: usize = 0;
    while k + 1 < n
        invariant
            0 < n == pieces.len() == ps.len(),
            lo < hi <= t.len(),
            k < n,
            ranges_within(pieces@, lo as int, hi as int),
            pieces_of(t@, pieces@) == ps,
            ranges_within(rs@, lo as int, hi as int),
            pieces_of(t@, rs@) == ps.take(k as int).map_values(|l: Seq<char>| strip_cr(l)),
        decreases n - k,
    {
        let pr = pieces[k];
        let a = pr.0;
        let b = pr.1;
        assert(lo <= pieces@[k as int].0 <= pieces@[k as int].1 <= hi);
        assert(pieces_of(t@, pieces@)[k as int] == t@.subrange(a as int, b as int));
        assert(t@.subrange(a as int, b as int) == ps[k as int]);
        let b2 = if b > a && t[b - 1] == '\r' {
            assert(t@.subrange(a as int, b - 1) =~= ps[k as int].drop_last());
            b - 1
        } else {
            b
        };
        let ghost before = rs@;
        rs.push((a, b2));
        assert(pieces_of(t@, rs@) =~= pieces_of(t@, before).push(strip_cr(ps[k as int])));
        assert(ps.take(k + 1).map_values(|l: Seq<char>| strip_cr(l)) =~= ps.take(
            k as int,
        ).map_values(|l: Seq<char>| strip_cr(l)).push(strip_cr(ps[k as int])));
        k = k + 1;
    }
    assert(ps.take(k as int) =~= ps.drop_last());
    if !ends_nl {
        let ghost before = rs@;
        rs.push(pieces[n - 1]);
        assert(pieces_of(t@, rs@) =~= pieces_of(t@, before).push(ps.last()));
    }
    assert(s.last() == t@[hi - 1]);
    rs
}

/// Splitting always yields at least one piece.
pub proof fn lemma_split_nonempty(s: Seq<char>, p: Seq<char>)
    ensures
        split_seq(s, p).len() > 0,
    decreases s.len(),
{
    if p.len() > 0 {
        if let Some(i) = find_seq(s, p) {
            if 0 <= i && i + p.len() <= s.len() {
                lemma_split_nonempty(s.subrange(i + p.len(), s.len() as int), p);
            }
        }
    }
}


/// Two strings hold the same characters.
pub fn same_text(a: &str, b: &str) -> (r: bool)
    ensures
        r == (a@ == b@),
{
    let x = to_chars(a);
    let y = to_chars(b);
    assert(x@.subrange(0, x.len() as int) =~= x@);
    same_chars(&x, 0, x.len(), &y)
}

/// `t[lo..hi]` holds exactly the characters of `p`.
pub fn same_chars(t: &Vec<char>, lo: usize, hi: usize, p: &Vec<char>) -> (r: bool)
    requires
        lo <= hi <= t.len(),
    ensures
        r == (t@.subrange(lo as int, hi as int) == p@),
{
    if hi - lo != p.len() {
        return false;
    }
    let m = matches_here(t, lo, p);
    proof {
        if m {
            assert(hi == lo + p.len());
        } else {
            assert(hi == lo + p.len());
        }
    }
    m
}

/// The path `rest` placed under `base`, as `Path::join` builds it on Unix: an
/// absolute `rest` replaces `base`, and a separator is added where needed.
pub open spec fn join_path(base: Seq<char>, rest: Seq<char>) -> Seq<char> {
    if rest.len() > 0 && rest[0] == '/' {
        rest
    } else if base.len() == 0 {
        rest
    } else if base.last() == '/' {
        base + rest
    } else {
        base + seq!['/'] + rest
    }
}

/// Appends the characters of `t` to `s`.
pub fn push_str(s: &mut String, t: &str)
    ensures
        final(s)@ == old(s)@ + t@,
{
    let v = to_chars(t);
    let mut i: usize = 0;
    while i < v.len()
        invariant
            i <= v.len(),
            v@ == t@,
            s@ == old(s)@ + v@.take(i as int),
        decreases v.len() - i,
    {
        push_char(s, v[i]);
        assert(v@.take(i + 1) =~= v@.take(i as int).push(v@[i as int]));
        i = i + 1;
    }
    assert(v@.take(i as int) =~= v@);
}

/// Executable `join_path`.
pub fn path_join(base: &str, rest: &str) -> (r: String)
    ensures
        r@ == join_path(base@, rest@),
{
    let b = to_chars(base);
    let t = to_chars(rest);
    if t.len() > 0 && t[0] == '/' {
        return rest.to_owned();
    }
    if b.len() == 0 {
        return rest.to_owned();
    }
    let mut r = base.to_owned();
    if b[b.len() - 1] != '/' {
        push_char(&mut r, '/');
    }
    push_str(&mut r, rest);
    r
}


/// The character sequences of a list of strings.
pub open spec fn strings_view(v: Seq<String>) -> Seq<Seq<char>> {
    v.map_values(|s: String| s@)
}

/// `s` begins with `p`.
pub open spec fn starts_with(s: Seq<char>, p: Seq<char>) -> bool {
    p.len() <= s.len() && s.subrange(0, p.len() as int) == p
}

/// `s` ends with `p`.
pub open spec fn ends_with(s: Seq<char>, p: Seq<char>) -> bool {
    p.len() <= s.len() && s.subrange(s.len() - p.len(), s.len() as int) == p
}

/// `t[lo..hi]` begins with `p`.
pub fn starts_with_at(t: &Vec<char>, lo: usize, hi: usize, p: &Vec<char>) -> (r: bool)
    requires
        lo <= hi <= t.len(),
    ensures
        r == starts_with(t@.subrange(lo as int, hi as int), p@),
{
    if p.len() > hi - lo {
        return false;
    }
    let m = matches_here(t, lo, p);
    assert(t@.subrange(lo as int, hi as int).subrange(0, p.len() as int) =~= t@.subrange(lo as int, lo + p.len()));
    m
}

/// `t[lo..hi]` ends with `p`.
pub fn ends_with_at(t: &Vec<char>, lo: usize, hi: usize, p: &Vec<char>) -> (r: bool)
    requires
        lo <= hi <= t.len(),
    ensures
        r == ends_with(t@.subrange(lo as int, hi as int), p@),
{
    if p.len() > hi - lo {
        return false;
    }
    let m = matches_here(t, hi - p.len(), p);
    assert(t@.subrange(lo as int, hi as int).subrange(hi - lo - p.len(), hi - lo) =~= t@.subrange(hi - p.len(), hi as int));
    m
}

/// A string with the characters of `t[lo..hi]` as its pieces split at `p`.
pub fn split_strings(t: &Vec<char>, lo: usize, hi: usize, p: &Vec<char>) -> (r: Vec<String>)
    requires
        lo <= hi <= t.len(),
        p.len() > 0,
    ensures
        strings_view(r@) == split_seq(t@.subrange(lo as int, hi as int), p@),
{
    let rs = split_ranges(t, lo, hi, p);
    let ghost ps = split_seq(t@.subrange(lo as int, hi as int), p@);
    let mut out: Vec<String> = Vec::new();
    let mut k: usize = 0;
    while k < rs.len()
        invariant
            lo <= hi <= t.len(),
            ranges_within(rs@, lo as int, hi as int),
            pieces_of(t@, rs@) == ps,
            k <= rs.len(),
            out.len() == k,
            forall|j: int| 0 <= j < k ==> (#[trigger] out@[j])@ == ps[j],
        decreases rs.len() - k,
    {
        let r = rs[k];
        assert(rs@[k as int].0 <= rs@[k as int].1);
        assert(rs@[k as int].1 <= hi);
        assert(pieces_of(t@, rs@)[k as int] == t@.subrange(r.0 as int, r.1 as int));
        out.push(string_of(t, r.0, r.1));
        k = k + 1;
    }
    assert(strings_view(out@) =~= ps);
    out
}

/// The characters of a string literal or any text, as a vector.
pub fn chars_of(s: &str) -> (v: Vec<char>)
    ensures
        v@ == s@,
{
    to_chars(s)
}


/// The pieces `ps` joined with `sep` between them.
pub open spec fn join(ps: Seq<Seq<char>>, sep: Seq<char>) -> Seq<char>
    decreases ps.len(),
{
    if ps.len() == 0 {
        seq![]
    } else if ps.len() == 1 {
        ps[0]
    } else {
        join(ps.drop_last(), sep) + sep + ps.last()
    }
}

/// `s` with every occurrence of the non-empty pattern `p` (from left to
/// right, without overlap) replaced by `r`, as `str::replace` does.
pub open spec fn replace_all(s: Seq<char>, p: Seq<char>, r: Seq<char>) -> Seq<char> {
    join(split_seq(s, p), r)
}

/// Splitting a text that ends with the character `c` and then a piece
/// without `c` gives that piece last.
pub proof fn lemma_split_last_piece(a: Seq<char>, b: Seq<char>, c: char)
    requires
        a.len() > 0,
        a.last() == c,
        !b.contains(c),
    ensures
        split_seq(a + b, seq![c]).len() > 0,
        split_seq(a + b, seq![c]).last() == b,
    decreases a.len(),
{
    let p = seq![c];
    let s = a + b;
    lemma_find_seq(s, p);
    assert(s.subrange(a.len() - 1, a.len() as int) =~= p);
    assert(matches_at(s, p, a.len() - 1));
    let i = find_seq(s, p)->Some_0;
    assert(i <= a.len() - 1);
    let rest = s.subrange(i + 1, s.len() as int);
    assert(split_seq(s, p) == seq![s.subrange(0, i)] + split_seq(rest, p));
    if i == a.len() - 1 {
        assert(rest =~= b);
        lemma_find_char_absent(b, c);
    } else {
        let a2 = a.subrange(i + 1, a.len() as int);
        assert(rest =~= a2 + b);
        assert(a2.last() == a.last());
        lemma_split_last_piece(a2, b, c);
    }
}

/// Joining two pieces puts the separator between them.
pub proof fn lemma_join_two(x: Seq<char>, y: Seq<char>, sep: Seq<char>)
    ensures
        join(seq![x, y], sep) == x + sep + y,
{
    let ps = seq![x, y];
    assert(ps.drop_last() =~= seq![x]);
    assert(ps.last() == y);
    assert(join(seq![x], sep) == x);
    assert(join(ps, sep) == join(ps.drop_last(), sep) + sep + ps.last());
}

/// Joining one more piece appends the separator and that piece.
pub proof fn lemma_join_push(ps: Seq<Seq<char>>, x: Seq<char>, sep: Seq<char>)
    requires
        ps.len() >= 1,
    ensures
        join(ps.push(x), sep) == join(ps, sep) + sep + x,
{
    assert(ps.push(x).drop_last() =~= ps);
}

/// A join of two or more pieces is the first piece, the separator and the
/// join of the rest.
pub proof fn lemma_join_front(ps: Seq<Seq<char>>, sep: Seq<char>)
    requires
        ps.len() >= 2,
    ensures
        join(ps, sep) == ps[0] + sep + join(ps.drop_first(), sep),
    decreases ps.len(),
{
    if ps.len() == 2 {
        assert(ps.drop_last() =~= seq![ps[0]]);
        assert(ps.drop_first() =~= seq![ps[1]]);
        assert(join(ps.drop_last(), sep) == ps[0]);
        assert(join(ps.drop_first(), sep) == ps[1]);
        assert(join(ps, sep) == join(ps.drop_last(), sep) + sep + ps.last());
    } else {
        lemma_join_front(ps.drop_last(), sep);
        let a = ps.drop_last();
        let b = ps.drop_first();
        assert(a.drop_first() =~= b.drop_last());
        assert(a[0] == ps[0]);
        assert(b.last() == ps.last());
        assert(join(ps, sep) == join(a, sep) + sep + ps.last());
        assert(join(a, sep) == ps[0] + sep + join(b.drop_last(), sep));
        assert(join(b, sep) == join(b.drop_last(), sep) + sep + ps.last());
        assert(ps[0] + sep + join(b.drop_last(), sep) + sep + ps.last() =~= ps[0] + sep + (join(
            b.drop_last(),
            sep,
        ) + sep + ps.last()));
    }
}

/// A join does not hold a character that neither the pieces nor the
/// separator hold.
pub proof fn lemma_join_lacks(ps: Seq<Seq<char>>, sep: Seq<char>, c: char)
    requires
        !sep.contains(c),
        forall|i: int| 0 <= i < ps.len() ==> !(#[trigger] ps[i]).contains(c),
    ensures
        !join(ps, sep).contains(c),
    decreases ps.len(),
{
    if ps.len() >= 2 {
        lemma_join_lacks(ps.drop_last(), sep, c);
        let j = join(ps.drop_last(), sep);
        let l = ps.last();
        assert(!l.contains(c)) by {
            assert(l == ps[ps.len() - 1]);
        }
        if join(ps, sep).contains(c) {
            let k = choose|k: int| 0 <= k < join(ps, sep).len() && join(ps, sep)[k] == c;
            if k < j.len() {
                assert(j[k] == c);
            } else if k < j.len() + sep.len() {
                assert(sep[k - j.len()] == c);
            } else {
                assert(l[k - j.len() - sep.len()] == c);
            }
        }
    } else if ps.len() == 1 {
        assert(!ps[0].contains(c));
    }
}

/// Splitting lines that were joined with line ends gives them back.
pub proof fn lemma_split_lines(ls: Seq<Seq<char>>)
    requires
        ls.len() >= 1,
        forall|i: int| 0 <= i < ls.len() ==> !(#[trigger] ls[i]).contains('\n'),
    ensures
        split_seq(join(ls, seq!['\n']), seq!['\n']) == ls,
    decreases ls.len(),
{
    if ls.len() == 1 {
        assert(!ls[0].contains('\n'));
        lemma_find_char_absent(ls[0], '\n');
        assert(seq![ls[0]] =~= ls);
    } else {
        lemma_join_front(ls, seq!['\n']);
        let rest = ls.drop_first();
        assert forall|i: int| 0 <= i < rest.len() implies !(#[trigger] rest[i]).contains('\n') by {
            assert(rest[i] == ls[i + 1]);
        }
        lemma_split_lines(rest);
        assert(!ls[0].contains('\n'));
        lemma_split_char_concat(ls[0], join(rest, seq!['\n']), '\n');
        assert(seq![ls[0]] + rest =~= ls);
    }
}

/// Removing trailing whitespace keeps a prefix, and keeps every character up
/// to the last one that is not whitespace.
pub proof fn lemma_trim_end_keeps(s: Seq<char>, j: int)
    requires
        0 <= j < s.len(),
        !is_ws(s[j]),
    ensures
        j < trim_end(s).len() <= s.len(),
        trim_end(s) == s.subrange(0, trim_end(s).len() as int),
    decreases s.len(),
{
    if is_ws(s.last()) {
        assert(j < s.len() - 1);
        lemma_trim_end_keeps(s.drop_last(), j);
        assert(s.drop_last().subrange(0, trim_end(s).len() as int) =~= s.subrange(
            0,
            trim_end(s).len() as int,
        ));
    } else {
        assert(s.subrange(0, s.len() as int) =~= s);
    }
}

/// The strings of `list` joined with `sep` between them.
pub fn join_strings(list: &Vec<String>, sep: &str) -> (r: String)
    ensures
        r@ == join(strings_view(list@), sep@),
{
    let ghost ls = strings_view(list@);
    let mut r = String::new();
    let mut i: usize = 0;
    while i < list.len()
        invariant
            i <= list.len(),
            ls == strings_view(list@),
            r@ == join(ls.take(i as int), sep@),
        decreases list.len() - i,
    {
        if i > 0 {
            push_str(&mut r, sep);
        }
        push_str(&mut r, list[i].as_str());
        assert(ls.take(i + 1).drop_last() =~= ls.take(i as int));
        assert(ls.take(i + 1).last() == list@[i as int]@);
        if i == 0 {
            assert(ls.take(1) =~= seq![list@[0]@]);
            assert(r@ =~= join(ls.take(1), sep@));
        }
        i = i + 1;
    }
    assert(ls.take(list.len() as int) =~= ls);
    r
}

/// `s` with every occurrence of the non-empty pattern `p` replaced by `r`.
pub fn replace_str(s: &str, p: &str, r: &str) -> (out: String)
    requires
        p@.len() > 0,
    ensures
        out@ == replace_all(s@, p@, r@),
{
    let t = to_chars(s);
    let pc = to_chars(p);
    assert(t@.subrange(0, t.len() as int) =~= t@);
    let pieces = split_strings(&t, 0, t.len(), &pc);
    join_strings(&pieces, r)
}

} // verus!
