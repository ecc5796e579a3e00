//! Which files the removal of a package deletes.

use vstd::prelude::*;

use crate::text::{
    contains_seq, find_in, line_ranges, lines, pieces_of, push_str, ranges_within, split_ranges,
    split_seq, string_of, strings_view, to_chars,
};

verus! {

/// The words of `ws` that contain a slash, each rooted at `/`.
pub open spec fn rooted_paths(ws: Seq<Seq<char>>) -> Seq<Seq<char>>
    decreases ws.len(),
{
    if ws.len() == 0 {
        seq![]
    } else if contains_seq(ws.last(), seq!['/']) {
        rooted_paths(ws.drop_last()).push(seq!['/'] + ws.last())
    } else {
        rooted_paths(ws.drop_last())
    }
}

/// The files that the lines of an `md5sums` file list: the words with a
/// slash, rooted.
pub open spec fn listed_files(ls: Seq<Seq<char>>) -> Seq<Seq<char>>
    decreases ls.len(),
{
    if ls.len() == 0 {
        seq![]
    } else {
        listed_files(ls.drop_last()) + rooted_paths(split_seq(ls.last(), seq![' ']))
    }
}

/// The first of `files` in a `bin/` directory.
pub open spec fn first_binary(files: Seq<Seq<char>>) -> Option<Seq<char>>
    decreases files.len(),
{
    if files.len() == 0 {
        None
    } else if contains_seq(files[0], "bin/"@) {
        Some(files[0])
    } else {
        first_binary(files.drop_first())
    }
}

/// Every file that an `md5sums` file lists is rooted at `/`.
pub proof fn lemma_listed_files_rooted(ls: Seq<Seq<char>>)
    ensures
        forall|i: int| 0 <= i < listed_files(ls).len() ==> (#[trigger] listed_files(ls)[i]).len() > 0
            && listed_files(ls)[i][0] == '/',
    decreases ls.len(),
{
    if ls.len() > 0 {
        lemma_listed_files_rooted(ls.drop_last());
        lemma_rooted_paths_rooted(split_seq(ls.last(), seq![' ']));
        let a = listed_files(ls.drop_last());
        let b = rooted_paths(split_seq(ls.last(), seq![' ']));
        assert forall|i: int| 0 <= i < listed_files(ls).len() implies (#[trigger] listed_files(ls)[i]).len() > 0
            && listed_files(ls)[i][0] == '/' by {
            if i < a.len() {
                assert(listed_files(ls)[i] == a[i]);
            } else {
                assert(listed_files(ls)[i] == b[i - a.len()]);
            }
        }
    }
}

/// Every word that `rooted_paths` keeps is rooted at `/`.
proof fn lemma_rooted_paths_rooted(ws: Seq<Seq<char>>)
    ensures
        forall|i: int| 0 <= i < rooted_paths(ws).len() ==> (#[trigger] rooted_paths(ws)[i]).len() > 0
            && rooted_paths(ws)[i][0] == '/',
    decreases ws.len(),
{
    if ws.len() > 0 {
        lemma_rooted_paths_rooted(ws.drop_last());
        let a = rooted_paths(ws.drop_last());
        if contains_seq(ws.last(), seq!['/']) {
            assert forall|i: int| 0 <= i < rooted_paths(ws).len() implies (#[trigger] rooted_paths(ws)[i]).len() > 0
                && rooted_paths(ws)[i][0] == '/' by {
                if i < a.len() {
                    assert(rooted_paths(ws)[i] == a[i]);
                } else {
                    assert(rooted_paths(ws)[i] == seq!['/'] + ws.last());
                    assert((seq!['/'] + ws.last())[0] == '/');
                }
            }
        }
    }
}

/// The file that a removal without purging deletes is one of the listed
/// files, and lies in a `bin/` directory.
pub proof fn lemma_binary_is_listed(files: Seq<Seq<char>>)
    ensures
        first_binary(files) matches Some(f) ==> files.contains(f) && contains_seq(f, "bin/"@),
    decreases files.len(),
{
    if files.len() > 0 {
        if !contains_seq(files[0], "bin/"@) {
            lemma_binary_is_listed(files.drop_first());
            if let Some(f) = first_binary(files) {
                let k = choose|k: int| 0 <= k < files.drop_first().len() && files.drop_first()[k] == f;
                assert(files[k + 1] == f);
            }
        } else {
            assert(files.contains(files[0]));
        }
    }
}

/// The files that an `md5sums` file with the contents `contents` lists.
pub fn md5sums_files(contents: &str) -> (r: Vec<String>)
    ensures
        strings_view(r@) == listed_files(lines(contents@)),
{
    let t = to_chars(contents);
    assert(t@.subrange(0, t.len() as int) =~= t@);
    let lrs = line_ranges(&t, 0, t.len());
    let ghost ls = lines(contents@);
    let mut space: Vec<char> = Vec::new();
    space.push(' ');
    assert(space@ =~= seq![' ']);
    let mut slash: Vec<char> = Vec::new();
    slash.push('/');
    assert(slash@ =~= seq!['/']);
    let mut out: Vec<String> = Vec::new();
    let mut k: usize = 0;
    while k < lrs.len()
        invariant
            t@ == contents@,
            space@ == seq![' '],
            slash@ == seq!['/'],
            ranges_within(lrs@, 0, t.len() as int),
            pieces_of(t@, lrs@) == ls,
            ls == lines(contents@),
            k <= lrs.len(),
            strings_view(out@) == listed_files(ls.take(k as int)),
        decreases lrs.len() - k,
    {
        let r = lrs[k];
        assert(lrs@[k as int].0 <= lrs@[k as int].1);
        assert(lrs@[k as int].1 <= t.len());
        assert(pieces_of(t@, lrs@)[k as int] == t@.subrange(r.0 as int, r.1 as int));
        assert(ls.take(k + 1).drop_last() =~= ls.take(k as int));
        assert(ls.take(k + 1).last() == ls[k as int]);
        let ws = split_ranges(&t, r.0, r.1, &space);
        let ghost wv = split_seq(ls[k as int], seq![' ']);
        let ghost before = strings_view(out@);
        let mut j: usize = 0;
        while j < ws.len()
            invariant
                t@ == contents@,
                slash@ == seq!['/'],
                ranges_within(ws@, r.0 as int, r.1 as int),
                r.1 <= t.len(),
                pieces_of(t@, ws@) == wv,
                j <= ws.len(),
                strings_view(out@) == before + rooted_paths(wv.take(j as int)),
            decreases ws.len() - j,
        {
            let w = ws[j];
            assert(ws@[j as int].0 <= ws@[j as int].1);
            assert(ws@[j as int].1 <= r.1);
            assert(pieces_of(t@, ws@)[j as int] == t@.subrange(w.0 as int, w.1 as int));
            assert(wv.take(j + 1).drop_last() =~= wv.take(j as int));
            assert(wv.take(j + 1).last() == wv[j as int]);
            if find_in(&t, w.0, w.1, &slash).is_some() {
                let mut f = "/".to_owned();
                let word = string_of(&t, w.0, w.1);
                push_str(&mut f, word.as_str());
                assert("/"@ =~= seq!['/']) by {
                    reveal_strlit("/");
                }
                let ghost o = out@;
                out.push(f);
                assert(strings_view(out@) =~= strings_view(o).push(seq!['/'] + wv[j as int]));
            }
            j = j + 1;
        }
        assert(wv.take(ws.len() as int) =~= wv);
        k = k + 1;
    }
    assert(ls.take(lrs.len() as int) =~= ls);
    out
}

/// The first of `files` in a `bin/` directory: the file that a removal
/// without purging deletes.
pub fn binary_to_remove(files: &Vec<String>) -> (r: Option<String>)
    ensures
        match first_binary(strings_view(files@)) {
            Some(f) => r matches Some(s) && s@ == f,
            None => r is None,
        },
{
    let bin = to_chars("bin/");
    assert(bin@.len() > 0) by {
        reveal_strlit("bin/");
    }
    let ghost fs = strings_view(files@);
    let mut i: usize = 0;
    assert(fs.skip(0) =~= fs);
    while i < files.len()
        invariant
            bin@ == "bin/"@,
            bin.len() > 0,
            i <= files.len(),
            fs == strings_view(files@),
            first_binary(fs) == first_binary(fs.skip(i as int)),
        decreases files.len() - i,
    {
        let fc = to_chars(files[i].as_str());
        assert(fc@.subrange(0, fc.len() as int) =~= fc@);
        assert(fs.skip(i as int)[0] == files@[i as int]@);
        assert(fs.skip(i as int).drop_first() =~= fs.skip(i + 1));
        if find_in(&fc, 0, fc.len(), &bin).is_some() {
            return Some(files[i].clone());
        }
        i = i + 1;
    }
    None
}

} // verus!
