//! The computations of an installation: the package name of a local archive,
//! the download size of the packages to install, and the installation
//! root.

use vstd::prelude::*;

use crate::cache::{
    CacheFiles, bad_name_msg, cache_lookup, check_installed, first_named,
    lemma_installed_finds_name, lemma_scan_without_relations, scan_exact, spec_cache_dir,
    spec_db_dump,
};
use crate::config::Config;
use crate::dependencies::{
    ResolveFailure, first_failure, get_dependencies, looked_up, no_package_msg, parse_name_ok,
    reached_checkable, wanted,
};
use crate::errors::{CacheError, InstallError, OpmError};
use crate::graph::{DependencyGraph, lemma_depth_one, reaches};
use crate::package::{ControlFile, ControlView, DebPackage, copy_opt_strings};
use crate::text::{
    is_whitespace, pieces_of, push_str, trim_start, same_text, split_ranges, split_seq, string_of, strings_view,
    to_chars,
};

verus! {

/// The package name of a `.deb` archive's path: its file name up to the
/// first `.deb`.
pub open spec fn spec_deb_stem(path: Seq<char>) -> Seq<char> {
    split_seq(split_seq(path, seq!['/']).last(), ".deb"@)[0]
}

/// A decimal digit.
pub open spec fn is_digit(c: char) -> bool {
    '0' <= c <= '9'
}

/// The value of a string of decimal digits.
pub open spec fn decimal(ds: Seq<char>) -> int
    decreases ds.len(),
{
    if ds.len() == 0 {
        0
    } else {
        decimal(ds.drop_last()) * 10 + (ds.last() as int - 48)
    }
}

/// The value of a text as `u64::from_str` reads it: an optional `+` and at
/// least one digit, the value within `u64`.
pub open spec fn spec_parse_u64(s: Seq<char>) -> Option<int> {
    let ds = digits_part(s);
    if ds.len() == 0 || !all_digits(ds) {
        None
    } else if decimal(ds) > u64::MAX {
        None
    } else {
        Some(decimal(ds))
    }
}

/// A text without its leading `+`, if any.
pub open spec fn digits_part(s: Seq<char>) -> Seq<char> {
    if s.len() > 0 && s[0] == '+' {
        s.drop_first()
    } else {
        s
    }
}

/// Every character is a decimal digit.
pub open spec fn all_digits(ds: Seq<char>) -> bool {
    forall|i: int| 0 <= i < ds.len() ==> is_digit(#[trigger] ds[i])
}

/// The total of the `Size` fields of the packages, where each is a number
/// and the total fits in `u64`.
pub open spec fn total_size(vs: Seq<ControlView>) -> Option<int>
    decreases vs.len(),
{
    if vs.len() == 0 {
        Some(0)
    } else {
        match (total_size(vs.drop_last()), spec_parse_u64(vs.last().size)) {
            (Some(a), Some(b)) => if a + b <= u64::MAX {
                Some(a + b)
            } else {
                None
            },
            _ => None,
        }
    }
}

/// The package name of a `.deb` archive's path.
pub fn deb_file_stem(path: &str) -> (r: String)
    ensures
        r@ == spec_deb_stem(path@),
{
    let t = to_chars(path);
    assert(t@.subrange(0, t.len() as int) =~= t@);
    let mut slash: Vec<char> = Vec::new();
    slash.push('/');
    assert(slash@ =~= seq!['/']);
    let parts = split_ranges(&t, 0, t.len(), &slash);
    proof {
        crate::text::lemma_split_nonempty(path@, seq!['/']);
    }
    let last = parts[parts.len() - 1];
    assert(parts@[parts.len() - 1].0 <= parts@[parts.len() - 1].1);
    assert(parts@[parts.len() - 1].1 <= t.len());
    assert(pieces_of(t@, parts@)[parts.len() - 1] == t@.subrange(last.0 as int, last.1 as int));
    let ext = to_chars(".deb");
    assert(ext@.len() > 0) by {
        reveal_strlit(".deb");
    }
    let pieces = split_ranges(&t, last.0, last.1, &ext);
    proof {
        crate::text::lemma_split_nonempty(t@.subrange(last.0 as int, last.1 as int), ext@);
    }
    let first = pieces[0];
    assert(pieces@[0].0 <= pieces@[0].1);
    assert(pieces@[0].1 <= t.len());
    assert(pieces_of(t@, pieces@)[0] == t@.subrange(first.0 as int, first.1 as int));
    string_of(&t, first.0, first.1)
}

/// Reads a text as `u64::from_str` does.
pub fn parse_u64(s: &str) -> (r: Option<u64>)
    ensures
        match spec_parse_u64(s@) {
            Some(v) => r matches Some(x) && x as int == v,
            None => r is None,
        },
{
    let t = to_chars(s);
    let start: usize = if t.len() > 0 && t[0] == '+' { 1 } else { 0 };
    let ghost ds = digits_part(s@);
    assert(ds =~= t@.subrange(start as int, t.len() as int));
    if start == t.len() {
        return None;
    }
    let mut v: u64 = 0;
    let mut i = start;
    while i < t.len()
        invariant
            start <= i <= t.len(),
            t@ == s@,
            ds == t@.subrange(start as int, t.len() as int),
            ds == digits_part(s@),
            forall|j: int| start <= j < i ==> is_digit(#[trigger] t@[j]),
            v as int == decimal(t@.subrange(start as int, i as int)),
        decreases t.len() - i,
    {
        let c = t[i];
        if !('0' <= c && c <= '9') {
            assert(ds[i - start] == c);
            assert(!is_digit(ds[i - start]));
            assert(!all_digits(ds));
            return None;
        }
        let d = (c as u32 - 48) as u64;
        assert(t@.subrange(start as int, i + 1).drop_last() =~= t@.subrange(start as int, i as int));
        if v > (u64::MAX - d) / 10 {
            proof {
                assert(v * 10 + d > u64::MAX) by (nonlinear_arith)
                    requires
                        v > (u64::MAX - d) / 10,
                        d <= 9,
                ;
                assert(t@.subrange(start as int, i + 1).last() == c);
                assert(decimal(t@.subrange(start as int, i + 1)) == v * 10 + d);
                if all_digits(ds) {
                    lemma_decimal_grows(ds, i + 1 - start);
                    assert(ds.take(i + 1 - start) =~= t@.subrange(start as int, i + 1));
                }
            }
            return None;
        }
        proof {
            assert(v * 10 + d <= u64::MAX) by (nonlinear_arith)
                requires
                    v <= (u64::MAX - d) / 10,
                    d <= 9,
            ;
        }
        v = v * 10 + d;
        i = i + 1;
    }
    assert(t@.subrange(start as int, t.len() as int) == ds);
    assert forall|j: int| 0 <= j < ds.len() implies is_digit(#[trigger] ds[j]) by {
        assert(ds[j] == t@[start + j]);
    }
    assert(all_digits(ds));
    Some(v)
}

/// A number made of the first digits of a digit string is at most the
/// number made of all of them.
proof fn lemma_decimal_grows(ds: Seq<char>, n: int)
    requires
        0 <= n <= ds.len(),
        forall|j: int| 0 <= j < ds.len() ==> is_digit(#[trigger] ds[j]),
    ensures
        decimal(ds.take(n)) <= decimal(ds),
    decreases ds.len() - n,
{
    if n < ds.len() {
        lemma_decimal_grows(ds, n + 1);
        assert(ds.take(n + 1).drop_last() =~= ds.take(n));
        assert(is_digit(ds[n]));
        lemma_decimal_nonneg(ds.take(n));
        assert(decimal(ds.take(n + 1)) == decimal(ds.take(n)) * 10 + (ds[n] as int - 48));
    } else {
        assert(ds.take(n) =~= ds);
    }
}

/// A digit string's number is not negative.
proof fn lemma_decimal_nonneg(ds: Seq<char>)
    requires
        forall|j: int| 0 <= j < ds.len() ==> is_digit(#[trigger] ds[j]),
    ensures
        decimal(ds) >= 0,
    decreases ds.len(),
{
    if ds.len() > 0 {
        assert(is_digit(ds.last()));
        lemma_decimal_nonneg(ds.drop_last());
    }
}

/// The total download size of the packages to install; `None` where a
/// `Size` field is not a number or the total overflows.
pub fn install_size(pkgs: &Vec<ControlFile>) -> (r: Option<u64>)
    ensures
        match total_size(pkgs@.map_values(|c: ControlFile| c@)) {
            Some(v) => r matches Some(x) && x as int == v,
            None => r is None,
        },
{
    let ghost vs = pkgs@.map_values(|c: ControlFile| c@);
    let mut total: u64 = 0;
    let mut i: usize = 0;
    while i < pkgs.len()
        invariant
            i <= pkgs.len(),
            vs == pkgs@.map_values(|c: ControlFile| c@),
            total_size(vs.take(i as int)) == Some(total as int),
        decreases pkgs.len() - i,
    {
        assert(vs.take(i + 1).drop_last() =~= vs.take(i as int));
        assert(vs.take(i + 1).last() == pkgs@[i as int]@);
        match parse_u64(pkgs[i].size.as_str()) {
            Some(s) => {
                if s > u64::MAX - total {
                    proof {
                        lemma_total_stays_none(vs, i + 1);
                    }
                    return None;
                }
                total = total + s;
            },
            None => {
                proof {
                    lemma_total_stays_none(vs, i + 1);
                }
                return None;
            },
        }
        i = i + 1;
    }
    assert(vs.take(pkgs.len() as int) =~= vs);
    Some(total)
}

/// Once a prefix has no total, the whole list has none.
proof fn lemma_total_stays_none(vs: Seq<ControlView>, n: int)
    requires
        0 <= n <= vs.len(),
        total_size(vs.take(n)) is None,
    ensures
        total_size(vs) is None,
    decreases vs.len() - n,
{
    if n < vs.len() {
        assert(vs.take(n + 1).drop_last() =~= vs.take(n));
        lemma_total_stays_none(vs, n + 1);
    } else {
        assert(vs.take(n) =~= vs);
    }
}

/// The directory that packages are installed under: `dest`, or the root.
pub fn install_root(dest: &Option<String>) -> (r: &str)
    ensures
        match dest {
            Some(d) => r@ == d@,
            None => r@ == "/"@,
        },
{
    match dest {
        Some(d) => d.as_str(),
        None => "/",
    }
}


/// The packages to install for `pkg`, in installation order: its
/// dependencies are resolved into a graph rooted at `pkg`, and the graph's
/// nodes are listed so that each package comes after those it depends on.
pub fn install_plan(config: &Config, db: &str, files: &CacheFiles, pkg: &DebPackage, force: bool) -> (res: Result<Vec<ControlFile>, OpmError>)
    requires
        forall|i: int|
            pkg.control.depends is Some && 0 <= i < pkg.control.depends->Some_0.len() ==> parse_name_ok(
                #[trigger] pkg.control.depends->Some_0@[i]@,
            ),
        pkg.control.depends matches Some(d) ==> reached_checkable(
            files,
            pkg.control@,
            wanted(db@, strings_view(d@)),
        ),
    ensures
        match pkg.control.depends {
            Some(d) => if d.len() > 0 {
                let names = wanted(db@, strings_view(d@));
                match first_failure(files, pkg.control@, names) {
                    None => res matches Ok(list) && {
                        &&& forall|i: int| 0 <= i < list.len() ==> (#[trigger] list@[i])@ == pkg.control@
                            || exists|k: int| 0 <= k < names.len() && list@[i]@ == looked_up(files, names[k])
                        &&& forall|i: int, j: int| 0 <= i < j < list.len() ==> (#[trigger] list@[i])@ != (#[trigger] list@[j])@
                        &&& forall|i: int, k: int|
                            0 <= i < list.len() && 0 <= k < names.len() && (#[trigger] list@[i])@ == pkg.control@
                                && #[trigger] looked_up(files, names[k]) != pkg.control@ ==> exists|j: int|
                                0 <= j < i && list@[j]@ == looked_up(files, names[k])
                        &&& exists|i: int| 0 <= i < list.len() && (#[trigger] list@[i])@ == pkg.control@
                        &&& forall|k: int| 0 <= k < names.len() ==> exists|j: int|
                            0 <= j < list.len() && (#[trigger] list@[j])@ == #[trigger] looked_up(files, names[k])
                    },
                    Some(ResolveFailure::NoCache) => res matches Err(OpmError::Cache(CacheError::NoCache(p))) && p@ == spec_cache_dir(config),
                    Some(ResolveFailure::BadName(path)) => res matches Err(OpmError::Cache(CacheError::UnexError { msg, err }))
                        && msg@ == bad_name_msg(path) && err is None,
                    Some(ResolveFailure::NotFound(_)) => res matches Err(OpmError::Install(InstallError::Error(m))) && m@ == no_package_msg(),
                    Some(ResolveFailure::Unsatisfied(msg)) => res matches Err(OpmError::Install(InstallError::Error(m))) && m@ == msg,
                }
            } else {
                res matches Ok(list) && list.len() == 1 && list@[0]@ == pkg.control@
            },
            None => res matches Ok(list) && list.len() == 1 && list@[0]@ == pkg.control@,
        },
{
    let mut g = DependencyGraph::new();
    g.register_dependency(&Some(pkg.control.duplicate()), &None);
    let ghost g1 = g;
    let deps = copy_opt_strings(&pkg.control.depends);
    proof {
        if pkg.control.depends is Some {
            assert forall|i: int| deps is Some && 0 <= i < deps->Some_0.len() implies parse_name_ok(#[trigger] deps->Some_0@[i]@) by {
                assert(strings_view(deps->Some_0@)[i] == strings_view(pkg.control.depends->Some_0@)[i]);
            }
        }
    }
    match get_dependencies(config, db, files, pkg.control.duplicate(), deps, &mut g, force) {
        Err(e) => return Err(e),
        Ok(()) => {},
    }
    proof {
        assert(g1.registered().contains(Some(pkg.control@)));
    }
    let list = g.install_order(&Some(pkg.control.duplicate()));
    proof {
        if pkg.control.depends is Some && pkg.control.depends->Some_0.len() > 0 {
            let names = wanted(db@, strings_view(pkg.control.depends->Some_0@));
            assert(strings_view(deps->Some_0@) == strings_view(pkg.control.depends->Some_0@));
            assert forall|i: int, k: int|
                0 <= i < list.len() && 0 <= k < names.len() && (#[trigger] list@[i])@ == pkg.control@
                    && #[trigger] looked_up(files, names[k]) != pkg.control@ implies exists|j: int|
                    0 <= j < i && list@[j]@ == looked_up(files, names[k]) by {
                let v = looked_up(files, names[k]);
                if g1.registered().contains(Some(v)) {
                    assert(g1.registered() == Set::<Option<ControlView>>::empty().insert(Some(pkg.control@)).insert(None));
                }
                assert(g.edges().contains((Some(list@[i]@), Some(v))));
            }
            assert forall|i: int| 0 <= i < list.len() implies (#[trigger] list@[i])@ == pkg.control@
                || exists|k: int| 0 <= k < names.len() && list@[i]@ == looked_up(files, names[k]) by {
                assert(g.registered().contains(Some(list@[i]@)));
                if !g1.registered().contains(Some(list@[i]@)) && Some(list@[i]@) != Some(pkg.control@) {
                } else {
                    assert(g1.registered() == Set::<Option<ControlView>>::empty().insert(Some(pkg.control@)).insert(None));
                }
            }
            let t = Some(pkg.control@);
            assert(g1.registered() == Set::<Option<ControlView>>::empty().insert(t).insert(None));
            assert(g1.edges() == Set::<(Option<ControlView>, Option<ControlView>)>::empty().insert((t, None)));
            assert forall|e: (Option<ControlView>, Option<ControlView>)| #[trigger] g.edges().contains(e)
                implies e.0 == t && e.1 != t by {
                if !g1.edges().contains(e) {
                    let k = choose|k: int| 0 <= k < names.len() && e == (Some(pkg.control@), Some(#[trigger] looked_up(files, names[k])))
                        && !g1.registered().contains(Some(looked_up(files, names[k])));
                }
            }
            assert forall|d: Option<ControlView>| #[trigger] g.edges().contains((t, d)) implies d != t
                && forall|e: Option<ControlView>| !g.edges().contains((d, e)) by {
                assert forall|e: Option<ControlView>| !g.edges().contains((d, e)) by {
                    if g.edges().contains((d, e)) {
                        assert((d, e).0 == t);
                    }
                }
            }
            lemma_depth_one(g.edges(), t);
            assert(list@[list.len() - 1]@ == pkg.control@);
            assert(exists|i: int| 0 <= i < list.len() && (#[trigger] list@[i])@ == pkg.control@);
            assert forall|k: int| 0 <= k < names.len() implies exists|j: int|
                0 <= j < list.len() && (#[trigger] list@[j])@ == #[trigger] looked_up(files, names[k]) by {
                let v = looked_up(files, names[k]);
                if v == pkg.control@ {
                    let i = choose|i: int| 0 <= i < list.len() && (#[trigger] list@[i])@ == pkg.control@;
                    assert(list@[i]@ == v);
                } else {
                    assert(!g1.registered().contains(Some(v)));
                    assert(g.edges().contains((t, Some(v))));
                    assert(reaches(g.edges(), t, Some(v)));
                }
            }
        } else {
            assert forall|i: int| 0 <= i < list.len() implies (#[trigger] list@[i])@ == pkg.control@ by {
                assert(g.registered().contains(Some(list@[i]@)));
                assert(g1.registered() == Set::<Option<ControlView>>::empty().insert(Some(pkg.control@)).insert(None));
            }
            let t = Some(pkg.control@);
            assert(g.edges() == Set::<(Option<ControlView>, Option<ControlView>)>::empty().insert((t, None)).insert((t, None)));
            assert forall|d: Option<ControlView>| #[trigger] g.edges().contains((t, d)) implies d != t
                && forall|e: Option<ControlView>| !g.edges().contains((d, e)) by {
            }
            lemma_depth_one(g.edges(), t);
            assert(list@[list.len() - 1]@ == pkg.control@);
            let i = choose|i: int| 0 <= i < list.len() && (#[trigger] list@[i])@ == pkg.control@;
            if list.len() > 1 {
                let j = if i == 0 { 1int } else { 0int };
                assert(list@[j]@ == pkg.control@);
            }
        }
    }
    Ok(list)
}

/// What installing the package named `name` meets where it is already
/// installed: `None` where it is not; the installed and the cached version
/// where the cache has another version (the user is then asked whether to
/// update); and the refusal of an installed package where the cache has the
/// same version. A failed cache lookup is passed on. An installed package
/// that the cache does not have is left out: there is no version to compare.
pub fn check_reinstall(config: &Config, db: &str, files: &CacheFiles, name: &str) -> (res: Result<
    Option<(String, String)>,
    OpmError,
>)
    requires
        first_named(spec_db_dump(db@), name@) is Some && files.exists ==> scan_exact(
            files.entries@,
            name@,
            false,
        ) != Ok::<Option<ControlView>, Seq<char>>(None),
    ensures
        match first_named(spec_db_dump(db@), name@) {
            None => res matches Ok(None),
            Some(old) => if !files.exists {
                res matches Err(OpmError::Cache(CacheError::NoCache(p))) && p@ == spec_cache_dir(config)
            } else {
                match scan_exact(files.entries@, name@, false) {
                    Err(path) => res matches Err(OpmError::Cache(CacheError::UnexError { msg, err }))
                        && msg@ == bad_name_msg(path) && err is None,
                    Ok(None) => false,
                    Ok(Some(new)) => if new.version != old.version {
                        res matches Ok(Some((a, b))) && a@ == old.version && b@ == new.version
                    } else {
                        res matches Err(OpmError::Install(InstallError::AlreadyInstalled(n))) && n@
                            == name@
                    },
                }
            },
        },
{
    match check_installed(config, db, name) {
        None => Ok(None),
        Some(pkg) => {
            proof {
                lemma_installed_finds_name(db@, name@);
            }
            match cache_lookup(config, files, pkg.control.package.as_str()) {
                Err(e) => Err(e),
                Ok(None) => Ok(None),
                Ok(Some(new)) => {
                    if same_text(new.control.version.as_str(), pkg.control.version.as_str()) {
                        Err(OpmError::Install(InstallError::AlreadyInstalled(pkg.control.package)))
                    } else {
                        Ok(Some((pkg.control.version, new.control.version)))
                    }
                },
            }
        },
    }
}

/// The refusal of a local archive whose package is already installed.
pub fn refuse_installed(config: &Config, db: &str, name: &str) -> (res: Result<(), OpmError>)
    ensures
        match first_named(spec_db_dump(db@), name@) {
            None => res is Ok,
            Some(_) => res matches Err(OpmError::Install(InstallError::AlreadyInstalled(n))) && n@
                == name@,
        },
{
    match check_installed(config, db, name) {
        None => Ok(()),
        Some(pkg) => {
            proof {
                lemma_installed_finds_name(db@, name@);
            }
            Err(OpmError::Install(InstallError::AlreadyInstalled(pkg.control.package)))
        },
    }
}

/// The packages to install for the package named `name`: the cache's
/// package of that name, looked up without its relationship fields, and
/// resolved with `install_plan`, which leaves it alone in the list.
pub fn prepare_install(config: &Config, db: &str, files: &CacheFiles, name: &str, force: bool) -> (res: Result<
    Vec<ControlFile>,
    OpmError,
>)
    ensures
        !files.exists ==> (res matches Err(OpmError::Cache(CacheError::NoCache(p))) && p@
            == spec_cache_dir(config)),
        files.exists ==> match scan_exact(files.entries@, name@, false) {
            Ok(Some(v)) => res matches Ok(list) && list.len() == 1 && list@[0]@ == v,
            Ok(None) => res matches Err(OpmError::Cache(CacheError::NotFoundError { pkg, cache })) && pkg@
                == name@ && cache@ == config.cache@,
            Err(path) => res matches Err(OpmError::Cache(CacheError::UnexError { msg, err }))
                && msg@ == bad_name_msg(path) && err is None,
        },
{
    match cache_lookup(config, files, name) {
        Err(e) => Err(e),
        Ok(None) => Err(OpmError::Cache(CacheError::NotFoundError { pkg: name.to_owned(), cache: config.cache.clone() })),
        Ok(Some(pkg)) => {
            proof {
                lemma_scan_without_relations(files.entries@, name@);
            }
            install_plan(config, db, files, &pkg, force)
        },
    }
}

/// The address that a package's archive is fetched from: its repository
/// path behind `http://`.
pub open spec fn download_url(c: ControlView) -> Seq<char> {
    "http://"@ + c.filename
}

/// The file that a fetched archive is kept in: the archive directory, a
/// slash, and the last component of the archive's path.
pub open spec fn archive_path(config: &Config, c: ControlView) -> Seq<char> {
    config.archive@ + seq!['/'] + split_seq(c.filename, seq!['/']).last()
}

/// Where a package's archive is fetched from and which file keeps it.
pub fn download_target(config: &Config, control: &ControlFile) -> (r: (String, String))
    ensures
        r.0@ == download_url(control@),
        r.1@ == archive_path(config, control@),
{
    let mut url = "http://".to_owned();
    push_str(&mut url, control.filename.as_str());
    let t = to_chars(control.filename.as_str());
    assert(t@.subrange(0, t.len() as int) =~= t@);
    let mut slash: Vec<char> = Vec::new();
    slash.push('/');
    assert(slash@ =~= seq!['/']);
    let parts = split_ranges(&t, 0, t.len(), &slash);
    proof {
        crate::text::lemma_split_nonempty(control.filename@, seq!['/']);
    }
    let last = parts[parts.len() - 1];
    assert(parts@[parts.len() - 1].0 <= parts@[parts.len() - 1].1);
    assert(parts@[parts.len() - 1].1 <= t.len());
    assert(pieces_of(t@, parts@)[parts.len() - 1] == t@.subrange(last.0 as int, last.1 as int));
    let name = string_of(&t, last.0, last.1);
    let mut path = config.archive.clone();
    push_str(&mut path, "/");
    push_str(&mut path, name.as_str());
    proof {
        reveal_strlit("/");
        assert("/"@ =~= seq!['/']);
    }
    (url, path)
}

/// An answer to a yes-or-no question says yes: its first character that is
/// not whitespace is `y` or `Y`.
pub open spec fn says_yes(answer: Seq<char>) -> bool {
    let t = trim_start(answer);
    t.len() > 0 && (t[0] == 'y' || t[0] == 'Y')
}

/// Whether an answer says yes.
pub fn answer_is_yes(answer: &str) -> (r: bool)
    ensures
        r == says_yes(answer@),
{
    let t = to_chars(answer);
    let mut i: usize = 0;
    assert(t@.subrange(0, t.len() as int) =~= t@);
    while i < t.len() && is_whitespace(t[i])
        invariant
            i <= t.len(),
            t@ == answer@,
            trim_start(answer@) == trim_start(t@.subrange(i as int, t.len() as int)),
        decreases t.len() - i,
    {
        assert(t@.subrange(i as int, t.len() as int).drop_first() =~= t@.subrange(i + 1, t.len() as int));
        i = i + 1;
    }
    if i == t.len() {
        assert(t@.subrange(i as int, t.len() as int) =~= Seq::<char>::empty());
        false
    } else {
        assert(t@.subrange(i as int, t.len() as int)[0] == t@[i as int]);
        t[i] == 'y' || t[i] == 'Y'
    }
}

} // verus!
