//! Refreshing the package cache: which index and release files to fetch from
//! each repository, where to keep them, and how to decompress an index.

use vstd::prelude::*;

use std::io::Read;

use crate::config::Config;
use crate::sources::{DebianSource, SourceView, sources_view};
use crate::cache::{file_name, url_defined, url_of};
use crate::text::{
    ends_with, ends_with_at, find_seq, join_path, lemma_concat_lacks, lemma_find_char_absent,
    lemma_find_seq, lemma_join_two, lemma_split_char_concat, lemma_split_last_piece, matches_at,
    path_join, push_str, replace_all, replace_str, split_seq, strings_view, to_chars,
};

verus! {

/// What to fetch for one component of one repository: the package index
/// (xz-compressed, or gzip-compressed where that fails), the file to keep it
/// in, the release file and the file to keep that in. `counter` numbers the
/// repository for progress display.
#[derive(Debug, Clone)]
pub struct UpdateTask {
    pub counter: usize,
    pub package_index_xz: String,
    pub package_index_gz: String,
    pub cache_file: String,
    pub release_url: String,
    pub release_file: String,
}

/// A task as character sequences.
pub struct TaskView {
    pub counter: int,
    pub package_index_xz: Seq<char>,
    pub package_index_gz: Seq<char>,
    pub cache_file: Seq<char>,
    pub release_url: Seq<char>,
    pub release_file: Seq<char>,
}

impl View for UpdateTask {
    type V = TaskView;

    open spec fn view(&self) -> TaskView {
        TaskView {
            counter: self.counter as int,
            package_index_xz: self.package_index_xz@,
            package_index_gz: self.package_index_gz@,
            cache_file: self.cache_file@,
            release_url: self.release_url@,
            release_file: self.release_file@,
        }
    }
}

/// A repository address as a file-name prefix: without `http://`, slashes
/// turned into underscores.
pub open spec fn flat_url(url: Seq<char>) -> Seq<char> {
    replace_all(replace_all(url, "http://"@, seq![]), seq!['/'], seq!['_'])
}

/// The address of a component's package index with extension `ext`.
pub open spec fn index_url(url: Seq<char>, dist: Seq<char>, perm: Seq<char>, ext: Seq<char>) -> Seq<char> {
    url + "dists/"@ + dist + seq!['/'] + perm + "/binary-amd64/Packages."@ + ext
}

/// The file name that keeps a component's index or release file.
pub open spec fn kept_name(url: Seq<char>, dist: Seq<char>, perm: Seq<char>, last: Seq<char>) -> Seq<char> {
    flat_url(url) + "dists_"@ + dist + seq!['_'] + perm + "_binary-amd64_"@ + last
}

/// The task for component `perm` of the repository `src`, number `i`.
pub open spec fn task_of(config: &Config, i: int, src: SourceView, perm: Seq<char>) -> TaskView {
    TaskView {
        counter: i,
        package_index_xz: index_url(src.url, src.distribution, perm, "xz"@),
        package_index_gz: index_url(src.url, src.distribution, perm, "gz"@),
        cache_file: join_path(config.cache@, kept_name(src.url, src.distribution, perm, "Packages"@)),
        release_url: src.url + "dists/"@ + src.distribution + "/InRelease"@,
        release_file: join_path(config.rls@, kept_name(src.url, src.distribution, perm, "InRelease"@)),
    }
}

/// The tasks of the components `perms` of repository `src`, number `i`.
pub open spec fn tasks_of_source(config: &Config, i: int, src: SourceView, perms: Seq<Seq<char>>) -> Seq<TaskView>
    decreases perms.len(),
{
    if perms.len() == 0 {
        seq![]
    } else {
        tasks_of_source(config, i, src, perms.drop_last()).push(task_of(config, i, src, perms.last()))
    }
}

/// The tasks of all components of all repositories, in order.
pub open spec fn spec_plan(config: &Config, srcs: Seq<SourceView>) -> Seq<TaskView>
    decreases srcs.len(),
{
    if srcs.len() == 0 {
        seq![]
    } else {
        spec_plan(config, srcs.drop_last()) + tasks_of_source(
            config,
            srcs.len() - 1,
            srcs.last(),
            srcs.last().components,
        )
    }
}

/// The views of a list of tasks.
pub open spec fn tasks_view(v: Seq<UpdateTask>) -> Seq<TaskView> {
    v.map_values(|t: UpdateTask| t@)
}

fn kept_file_name(url: &str, dist: &str, perm: &str, last: &str) -> (r: String)
    ensures
        r@ == kept_name(url@, dist@, perm@, last@),
{
    assert("http://"@.len() > 0) by {
        reveal_strlit("http://");
    }
    let a = replace_str(url, "http://", "");
    assert(""@ =~= Seq::<char>::empty()) by {
        reveal_strlit("");
    }
    assert("/"@ =~= seq!['/']) by {
        reveal_strlit("/");
    }
    assert("_"@ =~= seq!['_']) by {
        reveal_strlit("_");
    }
    let mut r = replace_str(a.as_str(), "/", "_");
    push_str(&mut r, "dists_");
    push_str(&mut r, dist);
    push_str(&mut r, "_");
    push_str(&mut r, perm);
    push_str(&mut r, "_binary-amd64_");
    push_str(&mut r, last);
    r
}

fn package_index(url: &str, dist: &str, perm: &str, ext: &str) -> (r: String)
    ensures
        r@ == index_url(url@, dist@, perm@, ext@),
{
    assert("/"@ =~= seq!['/']) by {
        reveal_strlit("/");
    }
    let mut r = url.to_owned();
    push_str(&mut r, "dists/");
    push_str(&mut r, dist);
    push_str(&mut r, "/");
    push_str(&mut r, perm);
    push_str(&mut r, "/binary-amd64/Packages.");
    push_str(&mut r, ext);
    r
}

/// The task for component `perm` of repository `src`, number `i`.
fn make_task(config: &Config, i: usize, src: &DebianSource, perm: &str) -> (r: UpdateTask)
    ensures
        r@ == task_of(config, i as int, src@, perm@),
{
    let url = src.url.as_str();
    let dist = src.distribution.as_str();
    let mut release_url = url.to_owned();
    push_str(&mut release_url, "dists/");
    push_str(&mut release_url, dist);
    push_str(&mut release_url, "/InRelease");
    let cache_name = kept_file_name(url, dist, perm, "Packages");
    let rls_name = kept_file_name(url, dist, perm, "InRelease");
    UpdateTask {
        counter: i,
        package_index_xz: package_index(url, dist, perm, "xz"),
        package_index_gz: package_index(url, dist, perm, "gz"),
        cache_file: path_join(config.cache.as_str(), cache_name.as_str()),
        release_url,
        release_file: path_join(config.rls.as_str(), rls_name.as_str()),
    }
}

/// What to fetch for each component of each repository, in order.
pub fn update_plan(config: &Config, repos: &Vec<DebianSource>) -> (r: Vec<UpdateTask>)
    ensures
        tasks_view(r@) == spec_plan(config, sources_view(repos@)),
{
    let ghost srcs = sources_view(repos@);
    let mut out: Vec<UpdateTask> = Vec::new();
    let mut i: usize = 0;
    while i < repos.len()
        invariant
            i <= repos.len(),
            srcs == sources_view(repos@),
            tasks_view(out@) == spec_plan(config, srcs.take(i as int)),
        decreases repos.len() - i,
    {
        let src = &repos[i];
        let ghost before = tasks_view(out@);
        let ghost perms = strings_view(src.components@);
        let mut j: usize = 0;
        while j < src.components.len()
            invariant
                i < repos.len(),
                src == &repos[i as int],
                perms == strings_view(src.components@),
                j <= src.components.len(),
                tasks_view(out@) == before + tasks_of_source(config, i as int, src@, perms.take(j as int)),
            decreases src.components.len() - j,
        {
            let t = make_task(config, i, src, src.components[j].as_str());
            let ghost o = out@;
            out.push(t);
            assert(perms.take(j + 1).drop_last() =~= perms.take(j as int));
            assert(perms.take(j + 1).last() == src.components@[j as int]@);
            assert(tasks_view(out@) =~= tasks_view(o).push(t@));
            j = j + 1;
        }
        assert(perms.take(src.components.len() as int) =~= perms);
        assert(srcs.take(i + 1).drop_last() =~= srcs.take(i as int));
        assert(srcs.take(i + 1).last() == src@);
        i = i + 1;
    }
    assert(srcs.take(repos.len() as int) =~= srcs);
    out
}

/// The bytes that a gzip decoder produces from `data`, a well-formed stream.
pub uninterp spec fn gz_decoded(data: Seq<u8>) -> Seq<u8>;

/// The bytes that an xz decoder produces from `data`, a well-formed stream.
pub uninterp spec fn xz_decoded(data: Seq<u8>) -> Seq<u8>;

/// Whether `data` is a gzip stream that decodes without error.
pub uninterp spec fn gz_decodes(data: Seq<u8>) -> bool;

/// Whether `data` is an xz stream that decodes without error.
pub uninterp spec fn xz_decodes(data: Seq<u8>) -> bool;

/// `a` is a prefix of `b`.
pub open spec fn prefix_of(a: Seq<u8>, b: Seq<u8>) -> bool {
    a.len() <= b.len() && b.subrange(0, a.len() as int) == a
}

/// Trusted: `flate2::read::GzDecoder::new(data).read_to_end(bytes)`,
/// returning whether it succeeded, which depends on the data alone
/// (`gz_decodes`). `read_to_end` only appends to `bytes`; where it
/// succeeds, what it appended is the decoded stream (`gz_decoded`, a
/// function of the data). Where it fails, which bytes were appended depends
/// on the buffer sizes it offered and is not stated.
#[verifier::external_body]
fn gz_read_to_end(data: &[u8], bytes: &mut Vec<u8>) -> (ok: bool)
    ensures
        ok == gz_decodes(data@),
        prefix_of(old(bytes)@, final(bytes)@),
        ok ==> final(bytes)@ == old(bytes)@ + gz_decoded(data@),
{
    flate2::read::GzDecoder::new(data).read_to_end(bytes).is_ok()
}

/// Trusted: `xz2::read::XzDecoder::new(data).read_to_end(bytes)`, returning
/// whether it succeeded, which depends on the data alone (`xz_decodes`):
/// it only appends to `bytes`, and where it succeeds it appended the
/// decoded stream (`xz_decoded`). Where it fails, which bytes were appended
/// is not stated.
#[verifier::external_body]
fn xz_read_to_end(data: &[u8], bytes: &mut Vec<u8>) -> (ok: bool)
    ensures
        ok == xz_decodes(data@),
        prefix_of(old(bytes)@, final(bytes)@),
        ok ==> final(bytes)@ == old(bytes)@ + xz_decoded(data@),
{
    xz2::read::XzDecoder::new(data).read_to_end(bytes).is_ok()
}

/// Decompresses a fetched index by its file name: `.gz` with gzip, `.xz`
/// with xz; any other data is left out. Returns whether decoding succeeded;
/// the output is only appended to, and on success it is the decoded stream.
pub fn unpack(filename: &str, data: &[u8], bytes: &mut Vec<u8>) -> (ok: bool)
    ensures
        prefix_of(old(bytes)@, final(bytes)@),
        ends_with(filename@, ".gz"@) ==> ok == gz_decodes(data@) && (ok ==> final(bytes)@ == old(bytes)@
            + gz_decoded(data@)),
        !ends_with(filename@, ".gz"@) && ends_with(filename@, ".xz"@) ==> ok == xz_decodes(data@) && (ok
            ==> final(bytes)@ == old(bytes)@ + xz_decoded(data@)),
        !ends_with(filename@, ".gz"@) && !ends_with(filename@, ".xz"@) ==> ok && final(bytes)@ == old(
            bytes,
        )@,
{
    let t = to_chars(filename);
    assert(t@.subrange(0, t.len() as int) =~= t@);
    let gz = to_chars(".gz");
    let xz = to_chars(".xz");
    if ends_with_at(&t, 0, t.len(), &gz) {
        gz_read_to_end(data, bytes)
    } else if ends_with_at(&t, 0, t.len(), &xz) {
        xz_read_to_end(data, bytes)
    } else {
        assert(bytes@.subrange(0, bytes@.len() as int) =~= bytes@);
        true
    }
}

/// Removing `http://` from an address that starts with it and holds it
/// nowhere else leaves the rest.
proof fn lemma_strip_scheme(rest: Seq<char>)
    requires
        forall|k: int| !matches_at(rest, "http://"@, k),
    ensures
        replace_all("http://"@ + rest, "http://"@, seq![]) == rest,
{
    reveal_strlit("http://");
    let h = "http://"@;
    let s = h + rest;
    assert(s.subrange(0, h.len() as int) =~= h);
    assert(find_seq(s, h) == Some(0int));
    assert(s.subrange(h.len() as int, s.len() as int) =~= rest);
    assert(s.subrange(0, 0) =~= Seq::<char>::empty());
    lemma_find_seq(rest, h);
    assert(split_seq(rest, h) == seq![rest]);
    assert(split_seq(s, h) =~= seq![Seq::<char>::empty(), rest]);
    lemma_join_two(Seq::<char>::empty(), rest, seq![]);
    assert(Seq::<char>::empty() + seq![] + rest =~= rest);
}

/// The file that keeps a component's index, for a repository at
/// `http://host/path/`, is named `host_path_...`: the address that a cache
/// scan reads from that name is `host/path`, which gives back the
/// repository's address behind `http://`. So the archive path that a scan
/// of that file places under the address is fetched from the repository
/// itself. (With an empty path and a host ending in `http:`, the address
/// holds `http://` a second time, which the name loses.)
pub proof fn lemma_kept_index_gives_back_url(
    config: &Config,
    i: int,
    src: SourceView,
    perm: Seq<char>,
    host: Seq<char>,
    path: Seq<char>,
)
    requires
        src.url == "http://"@ + host + seq!['/'] + path + seq!['/'],
        !host.contains('/') && !host.contains('_'),
        !path.contains('/') && !path.contains('_'),
        path.len() > 0 || !ends_with(host, "http:"@),
        !src.distribution.contains('/'),
        !perm.contains('/'),
    ensures
        url_defined(task_of(config, i, src, perm).cache_file),
        "http://"@ + url_of(task_of(config, i, src, perm).cache_file) + seq!['/'] == src.url,
{
    reveal_strlit("http://");
    reveal_strlit("/");
    reveal_strlit("_");
    reveal_strlit("dists_");
    reveal_strlit("_binary-amd64_");
    reveal_strlit("Packages");
    let sl = seq!['/'];
    let us = seq!['_'];
    let e = Seq::<char>::empty();
    let rest = host + sl + path + sl;
    assert(src.url =~= "http://"@ + rest);
    let h = "http://"@;
    assert forall|k: int| !matches_at(rest, h, k) by {
        if matches_at(rest, h, k) {
            let w = rest.subrange(k, k + 7);
            assert(w[5] == '/' && w[6] == '/');
            assert(rest[k + 5] == '/' && rest[k + 6] == '/');
            let j = k + 5;
            if j < host.len() {
                assert(rest[j] == host[j]);
            } else if j == host.len() {
                if path.len() > 0 {
                    assert(rest[j + 1] == path[0]);
                } else {
                    reveal_strlit("http:");
                    assert(host.subrange(host.len() - 5, host.len() as int) =~= "http:"@) by {
                        assert forall|m: int| 0 <= m < 5 implies #[trigger] host.subrange(
                            host.len() - 5,
                            host.len() as int,
                        )[m] == "http:"@[m] by {
                            assert(rest[k + m] == host[k + m]);
                            assert(w[m] == rest[k + m]);
                        }
                    }
                    assert(ends_with(host, "http:"@));
                }
            } else if j < host.len() + 1 + path.len() {
                assert(rest[j] == path[j - host.len() - 1]);
            }
        }
    }
    lemma_strip_scheme(rest);
    assert("/"@ =~= sl);
    assert("_"@ =~= us);
    assert(rest =~= host + sl + (path + sl + e));
    lemma_split_char_concat(host, path + sl + e, '/');
    lemma_split_char_concat(path, e, '/');
    lemma_find_char_absent(e, '/');
    assert(split_seq(e, sl) == seq![e]);
    assert(split_seq(rest, sl) =~= seq![host, path, e]);
    assert(seq![host, path, e].drop_last() =~= seq![host, path]);
    lemma_join_two(host, path, us);
    let flat = host + us + path + us;
    assert(flat_url(src.url) =~= flat);
    let dist = src.distribution;
    let kept = kept_name(src.url, dist, perm, "Packages"@);
    let tail = "dists_"@ + dist + us + perm + "_binary-amd64_"@ + "Packages"@;
    assert(kept =~= host + us + (path + us + tail));
    lemma_split_char_concat(host, path + us + tail, '_');
    lemma_split_char_concat(path, tail, '_');
    crate::text::lemma_split_nonempty(tail, us);
    assert(!"dists_"@.contains('/')) by {
        if "dists_"@.contains('/') {
            let k = choose|k: int| 0 <= k < "dists_"@.len() && "dists_"@[k] == '/';
            assert("dists_"@[k] != '/');
        }
    }
    assert(!"_binary-amd64_"@.contains('/')) by {
        if "_binary-amd64_"@.contains('/') {
            let k = choose|k: int| 0 <= k < "_binary-amd64_"@.len() && "_binary-amd64_"@[k] == '/';
            assert("_binary-amd64_"@[k] != '/');
        }
    }
    assert(!"Packages"@.contains('/')) by {
        if "Packages"@.contains('/') {
            let k = choose|k: int| 0 <= k < "Packages"@.len() && "Packages"@[k] == '/';
            assert("Packages"@[k] != '/');
        }
    }
    assert(!us.contains('/'));
    lemma_concat_lacks(host, us, '/');
    lemma_concat_lacks(host + us, path, '/');
    lemma_concat_lacks(host + us + path, us, '/');
    lemma_concat_lacks(flat, "dists_"@, '/');
    lemma_concat_lacks(flat + "dists_"@, dist, '/');
    lemma_concat_lacks(flat + "dists_"@ + dist, us, '/');
    lemma_concat_lacks(flat + "dists_"@ + dist + us, perm, '/');
    lemma_concat_lacks(flat + "dists_"@ + dist + us + perm, "_binary-amd64_"@, '/');
    lemma_concat_lacks(flat + "dists_"@ + dist + us + perm + "_binary-amd64_"@, "Packages"@, '/');
    assert(!kept.contains('/'));
    let base = config.cache@;
    let file = join_path(base, kept);
    assert(kept.len() > 0 && kept[0] != '/');
    if base.len() == 0 {
        assert(file == kept);
        lemma_find_char_absent(kept, '/');
    } else if base.last() == '/' {
        lemma_split_last_piece(base, kept, '/');
    } else {
        assert(file =~= (base + sl) + kept);
        assert((base + sl).last() == '/');
        lemma_split_last_piece(base + sl, kept, '/');
    }
    assert(file_name(file) == kept);
    assert(task_of(config, i, src, perm).cache_file == file);
}

} // verus!
