//! The package cache (the `Packages` indexes fetched from the repositories)
//! and the database of installed packages.
//!
//! The files are read by the caller: a cache is handed over as the list of
//! its directory entries with their contents, a database as its text.

use vstd::prelude::*;

use crate::config::Config;
use crate::errors::{CacheError, OpmError};
use crate::package::{
    ControlFile, ControlView, DebPackage, PkgKind, lemma_control_relations_agree, spec_control,
    without_relations,
};
use crate::text::{
    contains_seq, find_in, join, join_strings, pieces_of, push_char, push_str, ranges_within,
    same_text, split_ranges, split_seq, string_of, to_chars,
};
use crate::os_fingerprint::DEBIAN_DATABASE;

verus! {

/// The package lists of apt, used where the configuration asks for the
/// system's own cache.
pub const DEBIAN_CACHE: &'static str = "/var/lib/apt/lists/";

/// An entry of the cache directory: its path, whether it is a directory, and
/// its contents where they could be read.
#[derive(Debug, Clone)]
pub struct CacheEntry {
    pub path: String,
    pub is_dir: bool,
    pub contents: Option<String>,
}

/// The cache directory as the caller found it: whether it exists, and its
/// entries in the order the directory listing gave them.
#[derive(Debug, Clone)]
pub struct CacheFiles {
    pub exists: bool,
    pub entries: Vec<CacheEntry>,
}

/// The cache directory that a configuration selects.
pub struct Cache<'a> {
    pub cache: &'a str,
}

/// What a cache query found: one package or a list of them.
#[derive(Debug)]
struct CacheResult {
    pkg: Option<DebPackage>,
    pkgs: Option<Vec<DebPackage>>,
}

/// The cache directory of a configuration.
pub open spec fn spec_cache_dir(config: &Config) -> Seq<char> {
    if config.use_pre_existing_cache {
        DEBIAN_CACHE@
    } else {
        config.cache@
    }
}

/// The database file of a configuration.
pub open spec fn spec_db_path(config: &Config) -> Seq<char> {
    if config.use_pre_existing_db {
        DEBIAN_DATABASE@
    } else {
        config.db@
    }
}

/// The paragraphs of a control-file list: the pieces between blank lines.
pub open spec fn paragraphs(s: Seq<char>) -> Seq<Seq<char>> {
    split_seq(s, seq!['\n', '\n'])
}

/// The paragraphs that parse, parsed, in order.
pub open spec fn parsed(ps: Seq<Seq<char>>, relations: bool) -> Seq<ControlView>
    decreases ps.len(),
{
    if ps.len() == 0 {
        seq![]
    } else {
        let rest = parsed(ps.drop_last(), relations);
        match spec_control(ps.last(), relations) {
            Ok(v) => rest.push(v),
            Err(_) => rest,
        }
    }
}

/// The packages of a database, in order: the paragraphs that parse.
pub open spec fn spec_db_dump(db: Seq<char>) -> Seq<ControlView> {
    parsed(paragraphs(db), false)
}

/// The first package named `name`.
pub open spec fn first_named(vs: Seq<ControlView>, name: Seq<char>) -> Option<ControlView>
    decreases vs.len(),
{
    if vs.len() == 0 {
        None
    } else if vs[0].package == name {
        Some(vs[0])
    } else {
        first_named(vs.drop_first(), name)
    }
}

/// The text that a paragraph of package `name` contains.
pub open spec fn package_tag(name: Seq<char>) -> Seq<char> {
    "Package: "@ + name
}

/// The paragraphs that contain `tag` and parse, parsed, in order.
pub open spec fn candidates(ps: Seq<Seq<char>>, tag: Seq<char>, relations: bool) -> Seq<ControlView>
    decreases ps.len(),
{
    if ps.len() == 0 {
        seq![]
    } else {
        let rest = candidates(ps.drop_last(), tag, relations);
        if contains_seq(ps.last(), tag) && spec_control(ps.last(), relations) is Ok {
            rest.push(spec_control(ps.last(), relations)->Ok_0)
        } else {
            rest
        }
    }
}

/// A cache entry that a query passes over: a directory, or a path without
/// an underscore.
pub open spec fn skipped(e: CacheEntry) -> bool {
    e.is_dir || !contains_seq(e.path@, seq!['_'])
}

/// The last component of a path.
pub open spec fn file_name(path: Seq<char>) -> Seq<char> {
    split_seq(path, seq!['/']).last()
}

/// A cache file is named after its repository: `host_path_...`; the
/// repository's address is made of the first two parts.
pub open spec fn url_defined(path: Seq<char>) -> bool {
    split_seq(file_name(path), seq!['_']).len() >= 2
}

/// The repository address that a cache file's name encodes.
pub open spec fn url_of(path: Seq<char>) -> Seq<char> {
    let p = split_seq(file_name(path), seq!['_']);
    p[0] + seq!['/'] + p[1]
}

/// A package with its archive's path placed under the repository address.
pub open spec fn with_url(v: ControlView, url: Seq<char>) -> ControlView {
    ControlView { filename: url + seq!['/'] + v.filename, ..v }
}

/// The package named `name` that a scan of the cache entries finds: in the
/// first readable cache file that has one, the first paragraph that
/// mentions the package, parses and names it; `Ok(None)` where there is
/// none. An unreadable file ends the scan. A readable file that the scan
/// reaches and whose name encodes no repository address stops it with that
/// file's path as the error.
pub open spec fn scan_exact(es: Seq<CacheEntry>, name: Seq<char>, relations: bool) -> Result<
    Option<ControlView>,
    Seq<char>,
>
    decreases es.len(),
{
    if es.len() == 0 {
        Ok(None)
    } else if skipped(es[0]) {
        scan_exact(es.drop_first(), name, relations)
    } else {
        match es[0].contents {
            None => Ok(None),
            Some(c) => if !url_defined(es[0].path@) {
                Err(es[0].path@)
            } else {
                match first_named(candidates(paragraphs(c@), package_tag(name), relations), name) {
                    Some(v) => Ok(Some(with_url(v, url_of(es[0].path@)))),
                    None => scan_exact(es.drop_first(), name, relations),
                }
            },
        }
    }
}

/// The packages of a list whose names contain `name`, in order.
pub open spec fn containing(vs: Seq<ControlView>, name: Seq<char>) -> Seq<ControlView>
    decreases vs.len(),
{
    if vs.len() == 0 {
        seq![]
    } else if contains_seq(vs.last().package, name) {
        containing(vs.drop_last(), name).push(vs.last())
    } else {
        containing(vs.drop_last(), name)
    }
}

/// The packages that a search for `name` finds: in every readable cache
/// file, in order, the paragraphs that parse and whose package names
/// contain `name`. An unreadable file ends the scan; a readable file whose
/// name encodes no repository address stops it with that file's path as
/// the error.
pub open spec fn scan_all(es: Seq<CacheEntry>, name: Seq<char>, relations: bool) -> Result<
    Seq<ControlView>,
    Seq<char>,
>
    decreases es.len(),
{
    if es.len() == 0 {
        Ok(seq![])
    } else if skipped(es[0]) {
        scan_all(es.drop_first(), name, relations)
    } else {
        match es[0].contents {
            None => Ok(seq![]),
            Some(c) => if !url_defined(es[0].path@) {
                Err(es[0].path@)
            } else {
                match scan_all(es.drop_first(), name, relations) {
                    Ok(rest) => Ok(
                        containing(parsed(paragraphs(c@), relations), name).map_values(
                            |v: ControlView| with_url(v, url_of(es[0].path@)),
                        ) + rest,
                    ),
                    Err(p) => Err(p),
                }
            },
        }
    }
}

/// The message for a cache file whose name encodes no repository address.
pub open spec fn bad_name_msg(path: Seq<char>) -> Seq<char> {
    "Cache file names no repository: "@ + path
}

/// The package views of a list of packages.
pub open spec fn controls_view(v: Seq<DebPackage>) -> Seq<ControlView> {
    v.map_values(|p: DebPackage| p.control@)
}


/// The packages that a query parses without relationship fields have none.
pub proof fn lemma_candidates_without_relations(ps: Seq<Seq<char>>, tag: Seq<char>)
    ensures
        forall|i: int|
            0 <= i < candidates(ps, tag, false).len() ==> (#[trigger] candidates(ps, tag, false)[i]).depends is None
                && candidates(ps, tag, false)[i].breaks is None && candidates(ps, tag, false)[i].conflicts is None,
    decreases ps.len(),
{
    if ps.len() > 0 {
        lemma_candidates_without_relations(ps.drop_last(), tag);
        crate::package::lemma_control_without_relations(ps.last());
    }
}

/// The package that `first_named` picks is one of the list.
pub proof fn lemma_first_named_member(vs: Seq<ControlView>, name: Seq<char>)
    ensures
        first_named(vs, name) matches Some(v) ==> exists|i: int| 0 <= i < vs.len() && vs[i] == v,
    decreases vs.len(),
{
    if vs.len() > 0 && vs[0].package != name {
        lemma_first_named_member(vs.drop_first(), name);
        if let Some(v) = first_named(vs, name) {
            let i = choose|i: int| 0 <= i < vs.drop_first().len() && vs.drop_first()[i] == v;
            assert(vs[i + 1] == v);
        }
    }
}

/// A package that a lookup without relationship fields finds has none.
pub proof fn lemma_scan_without_relations(es: Seq<CacheEntry>, name: Seq<char>)
    ensures
        scan_exact(es, name, false) matches Ok(Some(v)) ==> v.depends is None && v.breaks is None
            && v.conflicts is None,
    decreases es.len(),
{
    if es.len() > 0 {
        if skipped(es[0]) {
            lemma_scan_without_relations(es.drop_first(), name);
        } else if let Some(c) = es[0].contents {
            let cs = candidates(paragraphs(c@), package_tag(name), false);
            lemma_candidates_without_relations(paragraphs(c@), package_tag(name));
            lemma_first_named_member(cs, name);
            lemma_scan_without_relations(es.drop_first(), name);
        }
    }
}

/// The package that `first_named` picks has the name asked for.
pub proof fn lemma_first_named_name(vs: Seq<ControlView>, name: Seq<char>)
    ensures
        first_named(vs, name) matches Some(v) ==> v.package == name,
    decreases vs.len(),
{
    if vs.len() > 0 && vs[0].package != name {
        lemma_first_named_name(vs.drop_first(), name);
    }
}

/// A package that a cache lookup finds, with or without its relationship
/// fields, has the name that was looked up.
pub proof fn lemma_lookup_finds_name(es: Seq<CacheEntry>, name: Seq<char>, relations: bool)
    ensures
        scan_exact(es, name, relations) matches Ok(Some(v)) ==> v.package == name,
    decreases es.len(),
{
    if es.len() > 0 {
        if skipped(es[0]) {
            lemma_lookup_finds_name(es.drop_first(), name, relations);
        } else if let Some(c) = es[0].contents {
            lemma_first_named_name(candidates(paragraphs(c@), package_tag(name), relations), name);
            lemma_lookup_finds_name(es.drop_first(), name, relations);
        }
    }
}

/// The packages that `containing` keeps have names that contain `name`.
proof fn lemma_containing_names(vs: Seq<ControlView>, name: Seq<char>)
    ensures
        forall|i: int| 0 <= i < containing(vs, name).len() ==> contains_seq(
            (#[trigger] containing(vs, name)[i]).package,
            name,
        ),
    decreases vs.len(),
{
    if vs.len() > 0 {
        lemma_containing_names(vs.drop_last(), name);
    }
}

/// Every package that a search finds has a name that contains the query.
pub proof fn lemma_search_finds_names(es: Seq<CacheEntry>, name: Seq<char>, relations: bool)
    ensures
        scan_all(es, name, relations) matches Ok(vs) ==> forall|i: int|
            0 <= i < vs.len() ==> contains_seq((#[trigger] vs[i]).package, name),
    decreases es.len(),
{
    if es.len() > 0 {
        lemma_search_finds_names(es.drop_first(), name, relations);
        if !skipped(es[0]) {
            if let Some(c) = es[0].contents {
                if url_defined(es[0].path@) {
                    let found = containing(parsed(paragraphs(c@), relations), name);
                    lemma_containing_names(parsed(paragraphs(c@), relations), name);
                    if let Ok(rest) = scan_all(es.drop_first(), name, relations) {
                        let u = url_of(es[0].path@);
                        let m = found.map_values(|v: ControlView| with_url(v, u));
                        assert forall|i: int| 0 <= i < (m + rest).len() implies contains_seq(
                            (#[trigger] (m + rest)[i]).package,
                            name,
                        ) by {
                            if i < m.len() {
                                assert(m[i].package == found[i].package);
                            } else {
                                assert((m + rest)[i] == rest[i - m.len()]);
                            }
                        }
                    }
                }
            }
        }
    }
}

/// The paragraphs that a query parses without relationship fields are those
/// it parses with them, the lists left out.
proof fn lemma_candidates_relations(ps: Seq<Seq<char>>, tag: Seq<char>)
    ensures
        candidates(ps, tag, false) == candidates(ps, tag, true).map_values(
            |v: ControlView| without_relations(v),
        ),
    decreases ps.len(),
{
    if ps.len() > 0 {
        lemma_candidates_relations(ps.drop_last(), tag);
        lemma_control_relations_agree(ps.last());
        let c = candidates(ps.drop_last(), tag, true);
        if contains_seq(ps.last(), tag) && spec_control(ps.last(), true) is Ok {
            let v = spec_control(ps.last(), true)->Ok_0;
            assert(c.push(v).map_values(|v: ControlView| without_relations(v)) =~= c.map_values(
                |v: ControlView| without_relations(v),
            ).push(without_relations(v)));
        }
    }
}

/// Leaving out the relationship lists keeps the first package of a name.
proof fn lemma_first_named_without_relations(vs: Seq<ControlView>, name: Seq<char>)
    ensures
        first_named(vs.map_values(|v: ControlView| without_relations(v)), name) == match first_named(
            vs,
            name,
        ) {
            Some(v) => Some(without_relations(v)),
            None => None,
        },
    decreases vs.len(),
{
    if vs.len() > 0 {
        let m = vs.map_values(|v: ControlView| without_relations(v));
        assert(m.drop_first() =~= vs.drop_first().map_values(|v: ControlView| without_relations(v)));
        assert(m[0] == without_relations(vs[0]));
        lemma_first_named_without_relations(vs.drop_first(), name);
    }
}

/// A lookup of a name with and without relationship fields agree: they fail
/// alike, find nothing alike, or find the same package, the lists left out
/// (so the same name, version and archive path).
pub proof fn lemma_lookups_agree(es: Seq<CacheEntry>, name: Seq<char>)
    ensures
        scan_exact(es, name, false) == match scan_exact(es, name, true) {
            Ok(Some(v)) => Ok::<Option<ControlView>, Seq<char>>(Some(without_relations(v))),
            other => other,
        },
    decreases es.len(),
{
    if es.len() > 0 {
        lemma_lookups_agree(es.drop_first(), name);
        if !skipped(es[0]) {
            if let Some(c) = es[0].contents {
                lemma_candidates_relations(paragraphs(c@), package_tag(name));
                lemma_first_named_without_relations(candidates(paragraphs(c@), package_tag(name), true), name);
            }
        }
    }
}

/// The installed package that the database gives for a name has that name.
pub proof fn lemma_installed_finds_name(db: Seq<char>, name: Seq<char>)
    ensures
        first_named(spec_db_dump(db), name) matches Some(v) ==> v.package == name,
{
    lemma_first_named_name(spec_db_dump(db), name);
}

/// The cache directory of a configuration.
pub fn cache_dir(config: &Config) -> (r: &str)
    ensures
        r@ == spec_cache_dir(config),
{
    if config.use_pre_existing_cache {
        DEBIAN_CACHE
    } else {
        config.cache.as_str()
    }
}

/// The database file of a configuration.
pub fn db_path(config: &Config) -> (r: &str)
    ensures
        r@ == spec_db_path(config),
{
    if config.use_pre_existing_db {
        DEBIAN_DATABASE
    } else {
        config.db.as_str()
    }
}

impl<'a> Cache<'a> {
    /// The cache directory of the configuration, where it exists (`exists`
    /// says whether the directory is there).
    pub fn get_cache(config: &'a Config, exists: bool) -> (res: Result<Self, CacheError>)
        ensures
            exists ==> (res matches Ok(c) && c.cache@ == spec_cache_dir(config)),
            !exists ==> (res matches Err(CacheError::NoCache(p)) && p@ == spec_cache_dir(config)),
    {
        let cache = cache_dir(config);
        if !exists {
            return Err(CacheError::NoCache(cache.to_owned()));
        }
        Ok(Cache { cache })
    }
}

/// Where a list has no package named `name`, the first package of that name
/// in it with one more package is that one, if it has the name.
pub proof fn lemma_first_named_push(vs: Seq<ControlView>, v: ControlView, name: Seq<char>)
    requires
        first_named(vs, name) is None,
    ensures
        first_named(vs.push(v), name) == (if v.package == name { Some(v) } else { None }),
    decreases vs.len(),
{
    if vs.len() == 0 {
        assert(vs.push(v).drop_first() =~= seq![]);
    } else {
        assert(vs.push(v).drop_first() =~= vs.drop_first().push(v));
        lemma_first_named_push(vs.drop_first(), v, name);
    }
}

/// The packages of a database text: the paragraphs that parse, each a binary
/// package.
pub fn db_dump(config: &Config, db: &str) -> (r: Vec<DebPackage>)
    ensures
        controls_view(r@) == spec_db_dump(db@),
        forall|i: int| 0 <= i < r.len() ==> (#[trigger] r@[i]).kind == PkgKind::Binary,
{
    let t = to_chars(db);
    let mut sep: Vec<char> = Vec::new();
    sep.push('\n');
    sep.push('\n');
    assert(sep@ =~= seq!['\n', '\n']);
    assert(t@.subrange(0, t.len() as int) =~= t@);
    let rs = split_ranges(&t, 0, t.len(), &sep);
    let ghost ps = paragraphs(db@);
    let mut out: Vec<DebPackage> = Vec::new();
    let mut k: usize = 0;
    while k < rs.len()
        invariant
            t@ == db@,
            ranges_within(rs@, 0, t.len() as int),
            pieces_of(t@, rs@) == ps,
            k <= rs.len(),
            controls_view(out@) == parsed(ps.take(k as int), false),
            forall|i: int| 0 <= i < out.len() ==> (#[trigger] out@[i]).kind == PkgKind::Binary,
        decreases rs.len() - k,
    {
        let r = rs[k];
        assert(rs@[k as int].0 <= rs@[k as int].1);
        assert(rs@[k as int].1 <= t.len());
        assert(pieces_of(t@, rs@)[k as int] == t@.subrange(r.0 as int, r.1 as int));
        let p = string_of(&t, r.0, r.1);
        assert(ps.take(k + 1).drop_last() =~= ps.take(k as int));
        assert(ps.take(k + 1).last() == ps[k as int]);
        let ghost before = out@;
        match ControlFile::new(config, p.as_str()) {
            Ok(c) => {
                let ghost cv = c@;
                out.push(DebPackage { control: c, kind: PkgKind::Binary });
                assert(controls_view(out@) =~= controls_view(before).push(cv));
            },
            Err(_) => {},
        }
        k = k + 1;
    }
    assert(ps.take(rs.len() as int) =~= ps);
    out
}

/// The installed package named `name`, if the database has one.
pub fn check_installed(config: &Config, db: &str, name: &str) -> (r: Option<DebPackage>)
    ensures
        match first_named(spec_db_dump(db@), name@) {
            Some(v) => r matches Some(p) && p.control@ == v && p.kind == PkgKind::Binary,
            None => r is None,
        },
{
    let pkgs = db_dump(config, db);
    let ghost vs = spec_db_dump(db@);
    let mut i: usize = 0;
    assert(vs.skip(0) =~= vs);
    while i < pkgs.len()
        invariant
            i <= pkgs.len(),
            controls_view(pkgs@) == vs,
            vs == spec_db_dump(db@),
            forall|j: int| 0 <= j < pkgs.len() ==> (#[trigger] pkgs@[j]).kind == PkgKind::Binary,
            first_named(vs, name@) == first_named(vs.skip(i as int), name@),
        decreases pkgs.len() - i,
    {
        assert(vs.skip(i as int)[0] == pkgs@[i as int].control@);
        assert(vs.skip(i as int).drop_first() =~= vs.skip(i + 1));
        if same_text(pkgs[i].control.package.as_str(), name) {
            return Some(DebPackage { control: pkgs[i].control.duplicate(), kind: PkgKind::Binary });
        }
        i = i + 1;
    }
    None
}

/// The repository address that a cache file's path encodes, where it
/// encodes one.
fn url_from_path(path: &str) -> (r: Option<String>)
    ensures
        match r {
            Some(u) => url_defined(path@) && u@ == url_of(path@),
            None => !url_defined(path@),
        },
{
    let t = to_chars(path);
    let mut slash: Vec<char> = Vec::new();
    slash.push('/');
    assert(slash@ =~= seq!['/']);
    let mut us: Vec<char> = Vec::new();
    us.push('_');
    assert(us@ =~= seq!['_']);
    assert(t@.subrange(0, t.len() as int) =~= t@);
    let parts = split_ranges(&t, 0, t.len(), &slash);
    proof {
        crate::text::lemma_split_nonempty(path@, seq!['/']);
    }
    let last = parts[parts.len() - 1];
    assert(parts@[parts.len() - 1].0 <= parts@[parts.len() - 1].1);
    assert(parts@[parts.len() - 1].1 <= t.len());
    assert(pieces_of(t@, parts@)[parts.len() - 1] == t@.subrange(last.0 as int, last.1 as int));
    let names = split_ranges(&t, last.0, last.1, &us);
    if names.len() < 2 {
        return None;
    }
    let a = names[0];
    let b = names[1];
    assert(names@[0].0 <= names@[0].1);
    assert(names@[0].1 <= t.len());
    assert(names@[1].0 <= names@[1].1);
    assert(names@[1].1 <= t.len());
    assert(pieces_of(t@, names@)[0] == t@.subrange(a.0 as int, a.1 as int));
    assert(pieces_of(t@, names@)[1] == t@.subrange(b.0 as int, b.1 as int));
    let mut r = string_of(&t, a.0, a.1);
    push_char(&mut r, '/');
    let second = string_of(&t, b.0, b.1);
    push_str(&mut r, second.as_str());
    Some(r)
}

/// In the paragraphs of `contents`, the first one that mentions `tag`,
/// parses and is named `name`.
fn find_named(config: &Config, contents: &str, tag: &str, name: &str, relations: bool) -> (r: Option<ControlFile>)
    requires
        tag@.len() > 0,
    ensures
        match first_named(candidates(paragraphs(contents@), tag@, relations), name@) {
            Some(v) => r matches Some(c) && c@ == v,
            None => r is None,
        },
{
    let t = to_chars(contents);
    let tg = to_chars(tag);
    let mut sep: Vec<char> = Vec::new();
    sep.push('\n');
    sep.push('\n');
    assert(sep@ =~= seq!['\n', '\n']);
    assert(t@.subrange(0, t.len() as int) =~= t@);
    let rs = split_ranges(&t, 0, t.len(), &sep);
    let ghost ps = paragraphs(contents@);
    let mut k: usize = 0;
    while k < rs.len()
        invariant
            t@ == contents@,
            tg@ == tag@,
            tg.len() > 0,
            ranges_within(rs@, 0, t.len() as int),
            pieces_of(t@, rs@) == ps,
            k <= rs.len(),
            ps == paragraphs(contents@),
            first_named(candidates(ps.take(k as int), tag@, relations), name@) is None,
        decreases rs.len() - k,
    {
        let r = rs[k];
        assert(rs@[k as int].0 <= rs@[k as int].1);
        assert(rs@[k as int].1 <= t.len());
        assert(pieces_of(t@, rs@)[k as int] == t@.subrange(r.0 as int, r.1 as int));
        assert(ps.take(k + 1).drop_last() =~= ps.take(k as int));
        assert(ps.take(k + 1).last() == ps[k as int]);
        let ghost before = candidates(ps.take(k as int), tag@, relations);
        if find_in(&t, r.0, r.1, &tg).is_some() {
            let p = string_of(&t, r.0, r.1);
            let parsed_p = if relations {
                ControlFile::from(config, p.as_str())
            } else {
                ControlFile::new(config, p.as_str())
            };
            match parsed_p {
                Ok(c) => {
                    proof {
                        assert(contains_seq(ps[k as int], tag@));
                        assert(spec_control(ps[k as int], relations) == Ok::<ControlView, Seq<char>>(c@));
                        assert(candidates(ps.take(k + 1), tag@, relations) == before.push(c@));
                        lemma_first_named_push(before, c@, name@);
                    }
                    if same_text(c.package.as_str(), name) {
                        proof {
                            assert(first_named(candidates(ps.take(k + 1), tag@, relations), name@) == Some(c@));
                            lemma_first_named_prefix(ps, k as int + 1, tag@, relations, name@);
                            assert(first_named(candidates(ps, tag@, relations), name@) == Some(c@));
                            assert(first_named(candidates(paragraphs(contents@), tag@, relations), name@) == Some(c@));
                        }
                        return Some(c);
                    }
                },
                Err(_) => {},
            }
        }
        k = k + 1;
    }
    assert(ps.take(rs.len() as int) =~= ps);
    None
}

/// Once a prefix of the paragraphs yields a package named `name`, the whole
/// list yields the same first one.
proof fn lemma_first_named_prefix(ps: Seq<Seq<char>>, k: int, tag: Seq<char>, relations: bool, name: Seq<char>)
    requires
        0 <= k <= ps.len(),
        first_named(candidates(ps.take(k), tag, relations), name) is Some,
    ensures
        first_named(candidates(ps, tag, relations), name) == first_named(
            candidates(ps.take(k), tag, relations),
            name,
        ),
    decreases ps.len() - k,
{
    if k < ps.len() {
        assert(ps.take(k + 1).drop_last() =~= ps.take(k));
        assert(ps.take(k + 1).last() == ps[k]);
        lemma_first_named_keep(candidates(ps.take(k), tag, relations), name);
        lemma_first_named_prefix(ps, k + 1, tag, relations, name);
    } else {
        assert(ps.take(k) =~= ps);
    }
}

/// Appending to a list keeps its first package named `name`.
pub proof fn lemma_first_named_keep(vs: Seq<ControlView>, name: Seq<char>)
    requires
        first_named(vs, name) is Some,
    ensures
        forall|v: ControlView| #[trigger] first_named(vs.push(v), name) == first_named(vs, name),
    decreases vs.len(),
{
    assert forall|v: ControlView| #[trigger] first_named(vs.push(v), name) == first_named(vs, name) by {
        if vs[0].package != name {
            assert(vs.push(v).drop_first() =~= vs.drop_first().push(v));
            lemma_first_named_keep(vs.drop_first(), name);
            assert(first_named(vs.drop_first().push(v), name) == first_named(vs.drop_first(), name));
        }
    }
}

/// The paragraphs of `contents` that parse and whose package names contain
/// `name`, each with its archive's path placed under `url`.
fn collect_containing(config: &Config, contents: &str, name: &str, url: &str, relations: bool) -> (r: Vec<DebPackage>)
    ensures
        controls_view(r@) == containing(parsed(paragraphs(contents@), relations), name@).map_values(
            |v: ControlView| with_url(v, url@),
        ),
        forall|i: int| 0 <= i < r.len() ==> (#[trigger] r@[i]).kind == PkgKind::Binary,
{
    let t = to_chars(contents);
    let nc = to_chars(name);
    let mut sep: Vec<char> = Vec::new();
    sep.push('\n');
    sep.push('\n');
    assert(sep@ =~= seq!['\n', '\n']);
    assert(t@.subrange(0, t.len() as int) =~= t@);
    let rs = split_ranges(&t, 0, t.len(), &sep);
    let ghost ps = paragraphs(contents@);
    let mut out: Vec<DebPackage> = Vec::new();
    let mut k: usize = 0;
    while k < rs.len()
        invariant
            t@ == contents@,
            nc@ == name@,
            ranges_within(rs@, 0, t.len() as int),
            pieces_of(t@, rs@) == ps,
            k <= rs.len(),
            controls_view(out@) == containing(parsed(ps.take(k as int), relations), name@).map_values(
                |v: ControlView| with_url(v, url@),
            ),
            forall|i: int| 0 <= i < out.len() ==> (#[trigger] out@[i]).kind == PkgKind::Binary,
        decreases rs.len() - k,
    {
        let r = rs[k];
        assert(rs@[k as int].0 <= rs@[k as int].1);
        assert(rs@[k as int].1 <= t.len());
        assert(pieces_of(t@, rs@)[k as int] == t@.subrange(r.0 as int, r.1 as int));
        assert(ps.take(k + 1).drop_last() =~= ps.take(k as int));
        assert(ps.take(k + 1).last() == ps[k as int]);
        let ghost before = out@;
        let ghost done = parsed(ps.take(k as int), relations);
        let p = string_of(&t, r.0, r.1);
        let parsed_p = if relations {
            ControlFile::from(config, p.as_str())
        } else {
            ControlFile::new(config, p.as_str())
        };
        match parsed_p {
            Ok(mut c) => {
                let ghost cv = c@;
                assert(parsed(ps.take(k + 1), relations) == done.push(cv));
                assert(done.push(cv).drop_last() =~= done);
                let pc = to_chars(c.package.as_str());
                assert(pc@.subrange(0, pc.len() as int) =~= pc@);
                let found = if nc.len() == 0 {
                    proof {
                        assert(pc@.subrange(0, 0) =~= nc@);
                    }
                    true
                } else {
                    find_in(&pc, 0, pc.len(), &nc).is_some()
                };
                if found {
                    let mut f = url.to_owned();
                    push_char(&mut f, '/');
                    push_str(&mut f, c.filename.as_str());
                    assert(f@ =~= url@ + seq!['/'] + cv.filename);
                    c.set_filename(f.as_str());
                    out.push(DebPackage { control: c, kind: PkgKind::Binary });
                    let ghost prev = containing(done, name@);
                    assert(containing(done.push(cv), name@) == prev.push(cv));
                    assert(controls_view(out@) =~= controls_view(before).push(with_url(cv, url@)));
                    assert(prev.push(cv).map_values(|v: ControlView| with_url(v, url@)) =~= prev.map_values(
                        |v: ControlView| with_url(v, url@),
                    ).push(with_url(cv, url@)));
                } else {
                    assert(containing(done.push(cv), name@) == containing(done, name@));
                }
            },
            Err(_) => {
                assert(parsed(ps.take(k + 1), relations) == done);
            },
        }
        k = k + 1;
    }
    assert(ps.take(rs.len() as int) =~= ps);
    out
}

/// The text `Package: name`.
fn tag_of(name: &str) -> (r: String)
    ensures
        r@ == package_tag(name@),
{
    let mut tag = "Package: ".to_owned();
    push_str(&mut tag, name);
    tag
}

/// The error for a cache file whose name encodes no repository address.
fn bad_name(path: &str) -> (e: OpmError)
    ensures
        e matches OpmError::Cache(CacheError::UnexError { msg, err }) && msg@ == bad_name_msg(path@)
            && err is None,
{
    let mut msg = "Cache file names no repository: ".to_owned();
    push_str(&mut msg, path);
    OpmError::Cache(CacheError::UnexError { msg, err: None })
}

/// Queries the cache for `name`: with `exact`, for the package so named;
/// without it, for the packages whose names contain `name`. With `deps` the
/// relationship fields are parsed too.
fn cache_inter(config: &Config, files: &CacheFiles, name: &str, exact: bool, deps: bool) -> (res: Result<CacheResult, OpmError>)
    ensures
        !files.exists ==> (res matches Err(OpmError::Cache(CacheError::NoCache(p))) && p@ == spec_cache_dir(config)),
        files.exists && exact ==> match scan_exact(files.entries@, name@, deps) {
            Ok(Some(v)) => res matches Ok(r) && r.pkgs is None && (r.pkg matches Some(p) && p.control@ == v && p.kind == PkgKind::Binary),
            Ok(None) => res matches Ok(r) && r.pkgs is None && r.pkg is None,
            Err(path) => res matches Err(OpmError::Cache(CacheError::UnexError { msg, err }))
                && msg@ == bad_name_msg(path) && err is None,
        },
        files.exists && !exact ==> match scan_all(files.entries@, name@, deps) {
            Ok(vs) => res matches Ok(r) && r.pkg is None && (r.pkgs matches Some(ps) && controls_view(ps@) == vs
                && forall|i: int| 0 <= i < ps.len() ==> (#[trigger] ps@[i]).kind == PkgKind::Binary),
            Err(path) => res matches Err(OpmError::Cache(CacheError::UnexError { msg, err }))
                && msg@ == bad_name_msg(path) && err is None,
        },
{
    match Cache::get_cache(config, files.exists) {
        Err(e) => return Err(OpmError::Cache(e)),
        Ok(_) => {},
    }
    let tag = tag_of(name);
    assert(tag@.len() > 0) by {
        reveal_strlit("Package: ");
    }
    let ghost es = files.entries@;
    let mut found: Vec<DebPackage> = Vec::new();
    let mut i: usize = 0;
    assert(es.skip(0) =~= es);
    assert(controls_view(found@) =~= Seq::<ControlView>::empty());
    while i < files.entries.len()
        invariant_except_break
            es == files.entries@,
            files.exists,
            i <= es.len(),
            tag@ == package_tag(name@),
            tag@.len() > 0,
            exact ==> scan_exact(es, name@, deps) == scan_exact(es.skip(i as int), name@, deps),
            !exact ==> match scan_all(es.skip(i as int), name@, deps) {
                Ok(rest) => scan_all(es, name@, deps) == Ok::<Seq<ControlView>, Seq<char>>(controls_view(found@) + rest),
                Err(p) => scan_all(es, name@, deps) == Err::<Seq<ControlView>, Seq<char>>(p),
            },
            forall|j: int| 0 <= j < found.len() ==> (#[trigger] found@[j]).kind == PkgKind::Binary,
        ensures
            exact ==> scan_exact(es, name@, deps) == Ok::<Option<ControlView>, Seq<char>>(None),
            !exact ==> scan_all(es, name@, deps) == Ok::<Seq<ControlView>, Seq<char>>(controls_view(found@)),
            forall|j: int| 0 <= j < found.len() ==> (#[trigger] found@[j]).kind == PkgKind::Binary,
        decreases es.len() - i,
    {
        let e = &files.entries[i];
        assert(es.skip(i as int)[0] == es[i as int]);
        assert(es.skip(i as int).drop_first() =~= es.skip(i + 1));
        let mut underscore: Vec<char> = Vec::new();
        underscore.push('_');
        assert(underscore@ =~= seq!['_']);
        let pc = to_chars(e.path.as_str());
        assert(pc@.subrange(0, pc.len() as int) =~= pc@);
        let has_underscore = find_in(&pc, 0, pc.len(), &underscore).is_some();
        assert(has_underscore == contains_seq(es[i as int].path@, seq!['_']));
        if !e.is_dir && has_underscore {
            match &e.contents {
                None => {
                    assert(controls_view(found@) + Seq::<ControlView>::empty() =~= controls_view(found@));
                    break;
                },
                Some(contents) => {
                    let url = match url_from_path(e.path.as_str()) {
                        Some(u) => u,
                        None => return Err(bad_name(e.path.as_str())),
                    };
                    if exact {
                        match find_named(config, contents.as_str(), tag.as_str(), name, deps) {
                            Some(mut c) => {
                                let mut f = url.clone();
                                push_char(&mut f, '/');
                                push_str(&mut f, c.filename.as_str());
                                let ghost v = c@;
                                assert(f@ =~= url@ + seq!['/'] + v.filename);
                                c.set_filename(f.as_str());
                                assert(c@ == with_url(v, url_of(es[i as int].path@)));
                                return Ok(
                                    CacheResult {
                                        pkg: Some(DebPackage { control: c, kind: PkgKind::Binary }),
                                        pkgs: None,
                                    },
                                );
                            },
                            None => {},
                        }
                    } else {
                        let pkgs = collect_containing(config, contents.as_str(), name, url.as_str(), deps);
                        let ghost before = controls_view(found@);
                        let ghost here = controls_view(pkgs@);
                        let mut j: usize = 0;
                        assert(controls_view(pkgs@).take(0) =~= Seq::<ControlView>::empty());
                        assert(before + Seq::<ControlView>::empty() =~= before);
                        while j < pkgs.len()
                            invariant
                                j <= pkgs.len(),
                                controls_view(found@) == before + controls_view(pkgs@).take(j as int),
                                forall|m: int| 0 <= m < pkgs.len() ==> (#[trigger] pkgs@[m]).kind == PkgKind::Binary,
                                forall|m: int| 0 <= m < found.len() ==> (#[trigger] found@[m]).kind == PkgKind::Binary,
                            decreases pkgs.len() - j,
                        {
                            let ghost fv = found@;
                            found.push(DebPackage { control: pkgs[j].control.duplicate(), kind: PkgKind::Binary });
                            assert(controls_view(pkgs@).take(j + 1) =~= controls_view(pkgs@).take(j as int).push(pkgs@[j as int].control@));
                            assert(controls_view(found@) =~= controls_view(fv).push(pkgs@[j as int].control@));
                            j = j + 1;
                        }
                        assert(controls_view(pkgs@).take(pkgs.len() as int) =~= here);
                        proof {
                            match scan_all(es.skip(i + 1), name@, deps) {
                                Ok(rest) => {
                                    assert(before + here + rest =~= before + (here + rest));
                                },
                                Err(p) => {},
                            }
                        }
                    }
                },
            }
        }
        i = i + 1;
    }
    if exact {
        Ok(CacheResult { pkg: None, pkgs: None })
    } else {
        Ok(CacheResult { pkg: None, pkgs: Some(found) })
    }
}

/// Searches the cache for the packages whose names contain `name`.
pub fn cache_search(config: &Config, files: &CacheFiles, name: &str) -> (res: Result<Option<Vec<DebPackage>>, OpmError>)
    ensures
        !files.exists ==> (res matches Err(OpmError::Cache(CacheError::NoCache(p))) && p@ == spec_cache_dir(config)),
        files.exists ==> match scan_all(files.entries@, name@, false) {
            Ok(vs) => res matches Ok(Some(ps)) && controls_view(ps@) == vs
                && forall|i: int| 0 <= i < ps.len() ==> (#[trigger] ps@[i]).kind == PkgKind::Binary,
            Err(path) => res matches Err(OpmError::Cache(CacheError::UnexError { msg, err }))
                && msg@ == bad_name_msg(path) && err is None,
        },
{
    match cache_inter(config, files, name, false, false) {
        Ok(r) => Ok(r.pkgs),
        Err(e) => Err(e),
    }
}

/// Looks up the package named `name` in the cache.
pub fn cache_lookup(config: &Config, files: &CacheFiles, name: &str) -> (res: Result<Option<DebPackage>, OpmError>)
    ensures
        !files.exists ==> (res matches Err(OpmError::Cache(CacheError::NoCache(p))) && p@ == spec_cache_dir(config)),
        files.exists ==> match scan_exact(files.entries@, name@, false) {
            Ok(Some(v)) => res matches Ok(Some(p)) && p.control@ == v && p.kind == PkgKind::Binary,
            Ok(None) => res matches Ok(None),
            Err(path) => res matches Err(OpmError::Cache(CacheError::UnexError { msg, err }))
                && msg@ == bad_name_msg(path) && err is None,
        },
{
    match cache_inter(config, files, name, true, false) {
        Ok(r) => Ok(r.pkg),
        Err(e) => Err(e),
    }
}

/// Looks up the package named `name` in the cache, with its relationship
/// fields.
pub fn cache_lookup_deps(config: &Config, files: &CacheFiles, name: &str) -> (res: Result<Option<DebPackage>, OpmError>)
    ensures
        !files.exists ==> (res matches Err(OpmError::Cache(CacheError::NoCache(p))) && p@ == spec_cache_dir(config)),
        files.exists ==> match scan_exact(files.entries@, name@, true) {
            Ok(Some(v)) => res matches Ok(Some(p)) && p.control@ == v && p.kind == PkgKind::Binary,
            Ok(None) => res matches Ok(None),
            Err(path) => res matches Err(OpmError::Cache(CacheError::UnexError { msg, err }))
                && msg@ == bad_name_msg(path) && err is None,
        },
{
    match cache_inter(config, files, name, true, true) {
        Ok(r) => Ok(r.pkg),
        Err(e) => Err(e),
    }
}

/// The database record of a package: its mandatory fields, then its
/// dependencies (run together), breaks and conflicts (comma-separated)
/// where it has them, and a line end.
pub open spec fn record_of(c: ControlView) -> Seq<char> {
    let base = "Package: "@ + c.package + "\nVersion: "@ + c.version + "\nPriority: "@ + c.priority
        + "\nArchitecture: "@ + c.architecture + "\nMaintainer: "@ + c.maintainer
        + "\nDescription: "@ + c.description;
    let d = match c.depends {
        Some(d) => "\nDepends: "@ + join(d, seq![]),
        None => seq![],
    };
    let b = match c.breaks {
        Some(b) => "\nBreaks: "@ + join(b, ", "@),
        None => seq![],
    };
    let k = match c.conflicts {
        Some(x) => "\nConflicts: "@ + join(x, ", "@),
        None => seq![],
    };
    base + d + b + k + seq!['\n']
}

/// What installing `pkg` appends to the database, and to which file: the
/// package's record followed by a line end.
pub fn add_package(config: &Config, pkg: &DebPackage) -> (r: (String, String))
    ensures
        r.0@ == spec_db_path(config),
        r.1@ == record_of(pkg.control@) + seq!['\n'],
{
    let c = &pkg.control;
    let mut data = "Package: ".to_owned();
    push_str(&mut data, c.package.as_str());
    push_str(&mut data, "\nVersion: ");
    push_str(&mut data, c.version.as_str());
    push_str(&mut data, "\nPriority: ");
    push_str(&mut data, c.priority.as_str());
    push_str(&mut data, "\nArchitecture: ");
    push_str(&mut data, c.architecture.as_str());
    push_str(&mut data, "\nMaintainer: ");
    push_str(&mut data, c.maintainer.as_str());
    push_str(&mut data, "\nDescription: ");
    push_str(&mut data, c.description.as_str());
    let ghost base = data@;
    match &c.depends {
        Some(d) => {
            let depends = join_strings(d, "");
            assert(""@ =~= Seq::<char>::empty()) by {
                reveal_strlit("");
            }
            push_str(&mut data, "\nDepends: ");
            push_str(&mut data, depends.as_str());
        },
        None => {
            assert(data@ =~= base + Seq::<char>::empty());
        },
    }
    let ghost with_d = data@;
    match &c.breaks {
        Some(b) => {
            let breaks = join_strings(b, ", ");
            push_str(&mut data, "\nBreaks: ");
            push_str(&mut data, breaks.as_str());
        },
        None => {
            assert(data@ =~= with_d + Seq::<char>::empty());
        },
    }
    let ghost with_b = data@;
    match &c.conflicts {
        Some(x) => {
            let conflicts = join_strings(x, ", ");
            push_str(&mut data, "\nConflicts: ");
            push_str(&mut data, conflicts.as_str());
        },
        None => {
            assert(data@ =~= with_b + Seq::<char>::empty());
        },
    }
    push_char(&mut data, '\n');
    push_char(&mut data, '\n');
    (db_path(config).to_owned(), data)
}

} // verus!
