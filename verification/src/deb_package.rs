//! A binary package read from its unpacked control file, with the fields of
//! the control file as a map.

use vstd::prelude::*;

use crate::text::{line_ranges, lines, pieces_of, ranges_within, same_chars, split_ranges, split_seq, string_of, to_chars};

verus! {

/// Kind of the package.
#[derive(Debug, Clone, Copy, PartialEq, Eq, Structural)]
pub enum PkgKind {
    Binary,
    Source,
}

/// The fields of a control file: for each line, the text before its first
/// colon mapped to the text between its first and second colon; a later
/// line overrides an earlier one with the same key.
#[derive(Debug, Clone)]
pub struct Paragraphs {
    fields: Vec<(String, String)>,
}

/// The pieces of a line between its colons.
pub open spec fn colon_pieces(l: Seq<char>) -> Seq<Seq<char>> {
    split_seq(l, seq![':'])
}

/// The map that the lines `ls` fill, line by line.
pub open spec fn lines_map(ls: Seq<Seq<char>>) -> Map<Seq<char>, Seq<char>>
    decreases ls.len(),
{
    if ls.len() == 0 {
        Map::empty()
    } else {
        lines_map(ls.drop_last()).insert(colon_pieces(ls.last())[0], colon_pieces(ls.last())[1])
    }
}

/// The map that a list of key-value pairs fills, pair by pair.
pub open spec fn pairs_map(ps: Seq<(String, String)>) -> Map<Seq<char>, Seq<char>>
    decreases ps.len(),
{
    if ps.len() == 0 {
        Map::empty()
    } else {
        pairs_map(ps.drop_last()).insert(ps.last().0@, ps.last().1@)
    }
}

/// Every line of the control file has a colon.
pub open spec fn all_lines_keyed(contents: Seq<char>) -> bool {
    forall|i: int| 0 <= i < lines(contents).len() ==> colon_pieces(#[trigger] lines(contents)[i]).len() >= 2
}

impl View for Paragraphs {
    type V = Map<Seq<char>, Seq<char>>;

    closed spec fn view(&self) -> Map<Seq<char>, Seq<char>> {
        pairs_map(self.fields@)
    }
}

impl Paragraphs {
    /// The fields of a control file with the contents `contents`.
    pub fn new(contents: &str) -> (r: Self)
        requires
            all_lines_keyed(contents@),
        ensures
            r@ == lines_map(lines(contents@)),
    {
        let t = to_chars(contents);
        assert(t@.subrange(0, t.len() as int) =~= t@);
        let lrs = line_ranges(&t, 0, t.len());
        let ghost ls = lines(contents@);
        let mut colon: Vec<char> = Vec::new();
        colon.push(':');
        assert(colon@ =~= seq![':']);
        let mut fields: Vec<(String, String)> = Vec::new();
        let mut k: usize = 0;
        while k < lrs.len()
            invariant
                t@ == contents@,
                colon@ == seq![':'],
                ranges_within(lrs@, 0, t.len() as int),
                pieces_of(t@, lrs@) == ls,
                ls == lines(contents@),
                all_lines_keyed(contents@),
                k <= lrs.len(),
                pairs_map(fields@) == lines_map(ls.take(k as int)),
            decreases lrs.len() - k,
        {
            let r = lrs[k];
            assert(lrs@[k as int].0 <= lrs@[k as int].1);
            assert(lrs@[k as int].1 <= t.len());
            assert(pieces_of(t@, lrs@)[k as int] == t@.subrange(r.0 as int, r.1 as int));
            assert(ls.take(k + 1).drop_last() =~= ls.take(k as int));
            assert(ls.take(k + 1).last() == ls[k as int]);
            let ps = split_ranges(&t, r.0, r.1, &colon);
            let a = ps[0];
            let b = ps[1];
            assert(ps@[0].0 <= ps@[0].1);
            assert(ps@[0].1 <= t.len());
            assert(ps@[1].0 <= ps@[1].1);
            assert(ps@[1].1 <= t.len());
            assert(pieces_of(t@, ps@)[0] == t@.subrange(a.0 as int, a.1 as int));
            assert(pieces_of(t@, ps@)[1] == t@.subrange(b.0 as int, b.1 as int));
            let key = string_of(&t, a.0, a.1);
            let value = string_of(&t, b.0, b.1);
            let ghost before = fields@;
            fields.push((key, value));
            assert(fields@.drop_last() =~= before);
            k = k + 1;
        }
        assert(ls.take(lrs.len() as int) =~= ls);
        Paragraphs { fields }
    }

    /// The value of field `key`, where the control file has one.
    pub fn get(&self, key: &str) -> (r: Option<String>)
        ensures
            match r {
                Some(v) => self@.contains_key(key@) && self@[key@] == v@,
                None => !self@.contains_key(key@),
            },
    {
        let kc = to_chars(key);
        let mut i = self.fields.len();
        let ghost fs = self.fields@;
        assert(fs.take(i as int) =~= fs);
        while i > 0
            invariant
                kc@ == key@,
                fs == self.fields@,
                i <= fs.len(),
                forall|j: int| i <= j < fs.len() ==> (#[trigger] fs[j]).0@ != key@,
                pairs_map(fs) == pairs_map(fs.take(i as int)).union_prefer_right(pairs_map(fs.skip(i as int))),
            decreases i,
        {
            let kk = to_chars(self.fields[i - 1].0.as_str());
            assert(kk@.subrange(0, kk.len() as int) =~= kk@);
            if same_chars(&kk, 0, kk.len(), &kc) {
                proof {
                    lemma_pairs_map_no_key(fs.skip(i as int), key@);
                    assert(fs.take(i as int).drop_last() =~= fs.take(i - 1));
                }
                return Some(self.fields[i - 1].1.clone());
            }
            proof {
                assert(fs.take(i as int).drop_last() =~= fs.take(i - 1));
                assert(fs.skip(i - 1) =~= seq![fs[i - 1]] + fs.skip(i as int));
                lemma_pairs_map_split(fs.take(i as int), i - 1);
                lemma_pairs_map_split(fs.skip(i - 1), 1);
                assert(fs.skip(i - 1).take(1) =~= seq![fs[i - 1]]);
                assert(fs.skip(i - 1).skip(1) =~= fs.skip(i as int));
                assert(fs.take(i as int).take(i - 1) =~= fs.take(i - 1));
                assert(fs.take(i as int).skip(i - 1) =~= seq![fs[i - 1]]);
                assert(pairs_map(fs.take(i as int)) =~= pairs_map(fs.take(i - 1)).union_prefer_right(pairs_map(seq![fs[i - 1]])));
                assert(pairs_map(fs.skip(i - 1)) =~= pairs_map(seq![fs[i - 1]]).union_prefer_right(pairs_map(fs.skip(i as int))));
                assert(pairs_map(fs) =~= pairs_map(fs.take(i - 1)).union_prefer_right(pairs_map(fs.skip(i - 1))));
            }
            i = i - 1;
        }
        proof {
            lemma_pairs_map_no_key(fs, key@);
        }
        None
    }
}

/// A list without key `key` fills a map without it.
pub proof fn lemma_pairs_map_no_key(ps: Seq<(String, String)>, key: Seq<char>)
    requires
        forall|j: int| 0 <= j < ps.len() ==> (#[trigger] ps[j]).0@ != key,
    ensures
        !pairs_map(ps).contains_key(key),
    decreases ps.len(),
{
    if ps.len() > 0 {
        lemma_pairs_map_no_key(ps.drop_last(), key);
    }
}

/// The map of a list is the map of a prefix overridden by the map of the
/// rest.
pub proof fn lemma_pairs_map_split(ps: Seq<(String, String)>, m: int)
    requires
        0 <= m <= ps.len(),
    ensures
        pairs_map(ps) == pairs_map(ps.take(m)).union_prefer_right(pairs_map(ps.skip(m))),
    decreases ps.len(),
{
    if ps.len() == m {
        assert(ps.take(m) =~= ps);
        assert(ps.skip(m).len() == 0);
        assert(pairs_map(ps) =~= pairs_map(ps.take(m)).union_prefer_right(pairs_map(ps.skip(m))));
    } else {
        lemma_pairs_map_split(ps.drop_last(), m);
        assert(ps.drop_last().take(m) =~= ps.take(m));
        assert(ps.skip(m).drop_last() =~= ps.drop_last().skip(m));
        assert(ps.skip(m).last() == ps.last());
        assert(pairs_map(ps) =~= pairs_map(ps.take(m)).union_prefer_right(pairs_map(ps.skip(m))));
    }
}

/// A binary package: its control file's fields, the control file's path and
/// the kind.
#[derive(Debug, Clone)]
pub struct DebPackage {
    pub control: Paragraphs,
    pub control_path: String,
    pub kind: PkgKind,
}

impl DebPackage {
    /// The package whose control file at `file` has the contents `contents`.
    pub fn new(file: &str, contents: &str, kind: PkgKind) -> (r: Self)
        requires
            all_lines_keyed(contents@),
        ensures
            r.control@ == lines_map(lines(contents@)),
            r.control_path@ == file@,
            r.kind == kind,
    {
        DebPackage { control: Paragraphs::new(contents), control_path: file.to_owned(), kind }
    }
}

} // verus!
