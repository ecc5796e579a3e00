//! The repositories of `/etc/apt/sources.list`.

use vstd::prelude::*;

use crate::text::{
    contains_seq, find_in, line_ranges, lines, pieces_of, push_char, ranges_within, split_seq,
    split_strings, starts_with, starts_with_at, to_chars, ends_with, strings_view,
};

verus! {

/// A `deb` line of the sources list: the repository's address (ending in a
/// slash), the distribution, and the components.
#[derive(Debug, Clone)]
pub struct DebianSource {
    pub url: String,
    pub distribution: String,
    pub components: Vec<String>,
}

/// The addresses of the repositories of the sources list.
#[derive(Debug, Clone)]
pub struct ReposList {
    pub list: Vec<String>,
}

/// Where fetched archives are placed while they are installed.
pub const OUTDIR: &'static str = "./tmp/.install";

/// The repositories that an installation may fetch from.
pub struct DebConfig<'a> {
    pub repos: Vec<&'a str>,
}

/// A repository as character sequences.
pub struct SourceView {
    pub url: Seq<char>,
    pub distribution: Seq<char>,
    pub components: Seq<Seq<char>>,
}

impl View for DebianSource {
    type V = SourceView;

    open spec fn view(&self) -> SourceView {
        SourceView {
            url: self.url@,
            distribution: self.distribution@,
            components: strings_view(self.components@),
        }
    }
}

/// The space-separated words of a line (empty words included).
pub open spec fn words(l: Seq<char>) -> Seq<Seq<char>> {
    split_seq(l, seq![' '])
}

/// A line that names a package repository: it starts with `deb` and is no
/// CD-ROM.
pub open spec fn is_source_line(l: Seq<char>) -> bool {
    starts_with(l, "deb"@) && !contains_seq(l, "cdrom"@)
}

/// An address with a trailing slash.
pub open spec fn with_slash(u: Seq<char>) -> Seq<char> {
    if ends_with(u, seq!['/']) {
        u
    } else {
        u.push('/')
    }
}

/// The repository that a source line names.
pub open spec fn source_of(l: Seq<char>) -> SourceView {
    let w = words(l);
    SourceView { url: with_slash(w[1]), distribution: w[2], components: w.subrange(3, w.len() as int) }
}

/// The repositories of a sources list, in order.
pub open spec fn spec_sources(ls: Seq<Seq<char>>) -> Seq<SourceView>
    decreases ls.len(),
{
    if ls.len() == 0 {
        seq![]
    } else if is_source_line(ls.last()) {
        spec_sources(ls.drop_last()).push(source_of(ls.last()))
    } else {
        spec_sources(ls.drop_last())
    }
}

/// Every repository address of a sources list ends with a slash.
pub proof fn lemma_source_urls_end_with_slash(ls: Seq<Seq<char>>)
    ensures
        forall|i: int| 0 <= i < spec_sources(ls).len() ==> ends_with(#[trigger] spec_sources(ls)[i].url, seq!['/']),
    decreases ls.len(),
{
    if ls.len() > 0 {
        lemma_source_urls_end_with_slash(ls.drop_last());
        let prev = spec_sources(ls.drop_last());
        if is_source_line(ls.last()) {
            let u = source_of(ls.last()).url;
            let w = words(ls.last())[1];
            if !ends_with(w, seq!['/']) {
                assert(w.push('/').subrange(w.push('/').len() - 1, w.push('/').len() as int) =~= seq!['/']);
            }
            assert(ends_with(u, seq!['/']));
            assert forall|i: int| 0 <= i < spec_sources(ls).len() implies ends_with(
                #[trigger] spec_sources(ls)[i].url,
                seq!['/'],
            ) by {
                if i < prev.len() {
                    assert(spec_sources(ls)[i] == prev[i]);
                }
            }
        }
    }
}

/// `l` begins with the three characters `deb`.
pub open spec fn begins_deb(l: Seq<char>) -> bool {
    l.len() >= 3 && l[0] == 'd' && l[1] == 'e' && l[2] == 'b'
}

/// A line yields a repository only where it begins with `deb` and names no
/// CD-ROM: a line that does not begin with `deb` (a comment, say) adds
/// nothing to the repositories of the lines before it, and a line that does
/// and names no CD-ROM adds the repository it names.
pub proof fn lemma_only_deb_lines_yield_repositories(ls: Seq<Seq<char>>, l: Seq<char>)
    ensures
        !begins_deb(l) ==> spec_sources(ls.push(l)) == spec_sources(ls),
        begins_deb(l) && !contains_seq(l, "cdrom"@) ==> spec_sources(ls.push(l)) == spec_sources(ls).push(
            source_of(l),
        ),
{
    reveal_strlit("deb");
    let p = ls.push(l);
    assert(p.drop_last() =~= ls);
    assert(p.last() == l);
    if begins_deb(l) {
        assert(l.subrange(0, 3) =~= "deb"@);
    } else if starts_with(l, "deb"@) {
        assert(l.subrange(0, 3)[0] == l[0]);
        assert(l.subrange(0, 3)[1] == l[1]);
        assert(l.subrange(0, 3)[2] == l[2]);
    }
}

/// `r` is the repository that some line of `ls` beginning with `deb` names.
pub open spec fn named_by_deb_line(ls: Seq<Seq<char>>, r: SourceView) -> bool {
    exists|k: int| 0 <= k < ls.len() && begins_deb(ls[k]) && r == #[trigger] source_of(ls[k])
}

/// Every repository of a sources list comes from one of its lines that
/// begins with `deb`.
pub proof fn lemma_repositories_come_from_deb_lines(ls: Seq<Seq<char>>)
    ensures
        forall|i: int| 0 <= i < spec_sources(ls).len() ==> named_by_deb_line(ls, #[trigger] spec_sources(ls)[i]),
    decreases ls.len(),
{
    if ls.len() > 0 {
        let front = ls.drop_last();
        lemma_repositories_come_from_deb_lines(front);
        lemma_only_deb_lines_yield_repositories(front, ls.last());
        assert(front.push(ls.last()) =~= ls);
        let prev = spec_sources(front);
        if !is_source_line(ls.last()) {
            assert(spec_sources(ls) == prev);
        }
        assert forall|i: int| 0 <= i < spec_sources(ls).len() implies named_by_deb_line(ls, #[trigger] spec_sources(ls)[i]) by {
            if i < prev.len() {
                assert(spec_sources(ls)[i] == prev[i]);
                assert(named_by_deb_line(front, prev[i]));
                let k = choose|k: int| 0 <= k < front.len() && begins_deb(front[k]) && prev[i] == #[trigger] source_of(front[k]);
                assert(ls[k] == front[k]);
                assert(spec_sources(ls)[i] == source_of(ls[k]));
            } else {
                reveal_strlit("deb");
                assert(is_source_line(ls.last()));
                assert(ls.last().subrange(0, 3)[0] == ls.last()[0]);
                assert(ls.last().subrange(0, 3)[1] == ls.last()[1]);
                assert(ls.last().subrange(0, 3)[2] == ls.last()[2]);
                assert(begins_deb(ls[ls.len() - 1]));
                assert(spec_sources(ls) == prev.push(source_of(ls.last())));
                assert(spec_sources(ls)[i] == source_of(ls[ls.len() - 1]));
            }
        }
    }
}

/// Every source line of the list has an address and a distribution.
pub open spec fn sources_well_formed(contents: Seq<char>) -> bool {
    forall|i: int|
        0 <= i < lines(contents).len() && is_source_line(#[trigger] lines(contents)[i]) ==> words(
            lines(contents)[i],
        ).len() >= 3
}

/// A line of the repository list: it starts with `deb` and has no comment.
pub open spec fn is_repo_line(l: Seq<char>) -> bool {
    starts_with(l, "deb"@) && !contains_seq(l, seq!['#'])
}

/// The repository addresses of a sources list, in order.
pub open spec fn spec_repos(ls: Seq<Seq<char>>) -> Seq<Seq<char>>
    decreases ls.len(),
{
    if ls.len() == 0 {
        seq![]
    } else if is_repo_line(ls.last()) {
        spec_repos(ls.drop_last()).push(words(ls.last())[1])
    } else {
        spec_repos(ls.drop_last())
    }
}

/// Every repository line has an address.
pub open spec fn repos_well_formed(contents: Seq<char>) -> bool {
    forall|i: int|
        0 <= i < lines(contents).len() && is_repo_line(#[trigger] lines(contents)[i]) ==> words(
            lines(contents)[i],
        ).len() >= 2
}

/// The views of a list of repositories.
pub open spec fn sources_view(v: Seq<DebianSource>) -> Seq<SourceView> {
    v.map_values(|s: DebianSource| s@)
}

impl DebianSource {
    /// The repositories of a sources list with the contents `contents`: each
    /// line that starts with `deb` and names no CD-ROM, its second word the
    /// address (a slash appended where it lacks one), its third the
    /// distribution, the rest the components.
    pub fn new(contents: &str) -> (r: Vec<DebianSource>)
        requires
            sources_well_formed(contents@),
        ensures
            sources_view(r@) == spec_sources(lines(contents@)),
    {
        let t = to_chars(contents);
        assert(t@.subrange(0, t.len() as int) =~= t@);
        let lrs = line_ranges(&t, 0, t.len());
        let ghost ls = lines(contents@);
        let deb = to_chars("deb");
        let cdrom = to_chars("cdrom");
        assert(cdrom@.len() > 0) by {
            reveal_strlit("cdrom");
        }
        let mut space: Vec<char> = Vec::new();
        space.push(' ');
        assert(space@ =~= seq![' ']);
        let mut out: Vec<DebianSource> = Vec::new();
        let mut k: usize = 0;
        while k < lrs.len()
            invariant
                t@ == contents@,
                deb@ == "deb"@,
                cdrom@ == "cdrom"@,
                cdrom.len() > 0,
                space@ == seq![' '],
                ranges_within(lrs@, 0, t.len() as int),
                pieces_of(t@, lrs@) == ls,
                ls == lines(contents@),
                sources_well_formed(contents@),
                k <= lrs.len(),
                sources_view(out@) == spec_sources(ls.take(k as int)),
            decreases lrs.len() - k,
        {
            let r = lrs[k];
            assert(lrs@[k as int].0 <= lrs@[k as int].1);
            assert(lrs@[k as int].1 <= t.len());
            assert(pieces_of(t@, lrs@)[k as int] == t@.subrange(r.0 as int, r.1 as int));
            assert(ls.take(k + 1).drop_last() =~= ls.take(k as int));
            assert(ls.take(k + 1).last() == ls[k as int]);
            let is_deb = starts_with_at(&t, r.0, r.1, &deb);
            let has_cdrom = find_in(&t, r.0, r.1, &cdrom).is_some();
            if is_deb && !has_cdrom {
                let w = split_strings(&t, r.0, r.1, &space);
                assert(strings_view(w@)[1] == w@[1]@);
                assert(strings_view(w@)[2] == w@[2]@);
                let mut url = w[1].clone();
                let uc = to_chars(url.as_str());
                let mut slash: Vec<char> = Vec::new();
                slash.push('/');
                assert(slash@ =~= seq!['/']);
                assert(uc@.subrange(0, uc.len() as int) =~= uc@);
                if !crate::text::ends_with_at(&uc, 0, uc.len(), &slash) {
                    push_char(&mut url, '/');
                }
                let distribution = w[2].clone();
                let mut components: Vec<String> = Vec::new();
                let mut j: usize = 3;
                while j < w.len()
                    invariant
                        3 <= j <= w.len(),
                        components.len() == j - 3,
                        forall|m: int| 0 <= m < j - 3 ==> (#[trigger] components@[m])@ == w@[m + 3]@,
                    decreases w.len() - j,
                {
                    components.push(w[j].clone());
                    j = j + 1;
                }
                let ghost before = out@;
                let src = DebianSource { url, distribution, components };
                assert(strings_view(src.components@) =~= words(ls[k as int]).subrange(3, words(ls[k as int]).len() as int)) by {
                    assert forall|m: int| 0 <= m < w.len() implies (#[trigger] strings_view(w@)[m]) == w@[m]@ by {}
                }
                assert(src@ == source_of(ls[k as int]));
                out.push(src);
                assert(sources_view(out@) =~= sources_view(before).push(source_of(ls[k as int])));
            }
            k = k + 1;
        }
        assert(ls.take(lrs.len() as int) =~= ls);
        out
    }
}

impl ReposList {
    /// The repository addresses of a sources list with the contents
    /// `contents`: the second word of each line that starts with `deb` and
    /// has no `#`.
    pub fn new(contents: &str) -> (r: ReposList)
        requires
            repos_well_formed(contents@),
        ensures
            strings_view(r.list@) == spec_repos(lines(contents@)),
    {
        let t = to_chars(contents);
        assert(t@.subrange(0, t.len() as int) =~= t@);
        let lrs = line_ranges(&t, 0, t.len());
        let ghost ls = lines(contents@);
        let deb = to_chars("deb");
        let mut hash: Vec<char> = Vec::new();
        hash.push('#');
        assert(hash@ =~= seq!['#']);
        let mut space: Vec<char> = Vec::new();
        space.push(' ');
        assert(space@ =~= seq![' ']);
        let mut v: Vec<String> = Vec::new();
        let mut k: usize = 0;
        while k < lrs.len()
            invariant
                t@ == contents@,
                deb@ == "deb"@,
                hash@ == seq!['#'],
                space@ == seq![' '],
                ranges_within(lrs@, 0, t.len() as int),
                pieces_of(t@, lrs@) == ls,
                ls == lines(contents@),
                repos_well_formed(contents@),
                k <= lrs.len(),
                strings_view(v@) == spec_repos(ls.take(k as int)),
            decreases lrs.len() - k,
        {
            let r = lrs[k];
            assert(lrs@[k as int].0 <= lrs@[k as int].1);
            assert(lrs@[k as int].1 <= t.len());
            assert(pieces_of(t@, lrs@)[k as int] == t@.subrange(r.0 as int, r.1 as int));
            assert(ls.take(k + 1).drop_last() =~= ls.take(k as int));
            assert(ls.take(k + 1).last() == ls[k as int]);
            let has_hash = find_in(&t, r.0, r.1, &hash).is_some();
            let is_deb = starts_with_at(&t, r.0, r.1, &deb);
            if !has_hash && is_deb {
                let w = split_strings(&t, r.0, r.1, &space);
                assert(strings_view(w@)[1] == w@[1]@);
                let ghost before = v@;
                v.push(w[1].clone());
                assert(strings_view(v@) =~= strings_view(before).push(words(ls[k as int])[1]));
            }
            k = k + 1;
        }
        assert(ls.take(lrs.len() as int) =~= ls);
        ReposList { list: v }
    }
}

} // verus!
