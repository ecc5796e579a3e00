use opm::cache::{
    add_package, cache_lookup, cache_lookup_deps, cache_search, check_installed, db_dump, Cache,
    CacheEntry, CacheFiles,
};
use opm::config::Config;
use opm::errors::{CacheError, OpmError};
use opm::os_fingerprint::{Distro, OsInfo, OS};
use opm::package::{ControlFile, DebPackage, PkgKind};

fn debian_config() -> Config {
    let info = OsInfo::new(OS::Linux(Distro::Debian), "x86_64", false).unwrap();
    Config::new(&info).unwrap()
}

const INDEX: &str = "Package: vim\nVersion: 2:9.0\nArchitecture: amd64\nMaintainer: Debian Vim <vim@debian.org>\nDescription: Vi IMproved\nDepends: vim-common (= 2:9.0), libc6 (>= 2.34)\nFilename: pool/main/v/vim/vim_9.0_amd64.deb\nSize: 1500\nMD5sum: 0123\n\nPackage: vim-common\nVersion: 2:9.0\nArchitecture: all\nMaintainer: Debian Vim <vim@debian.org>\nDescription: Vi IMproved - Common files\nFilename: pool/main/v/vim/vim-common_9.0_all.deb\nSize: 200\n\nPackage: curl\nVersion: 7.88\nArchitecture: amd64\nMaintainer: Alessandro <ghedo@debian.org>\nDescription: command line tool for transferring data with URL syntax\nFilename: pool/main/c/curl/curl_7.88_amd64.deb\nSize: 300\n";

fn cache_files() -> CacheFiles {
    CacheFiles {
        exists: true,
        entries: vec![
            CacheEntry { path: "/opt/opm/deb/cache/pkg/partial".to_string(), is_dir: true, contents: None },
            CacheEntry { path: "/opt/opm/deb/cache/pkg/lock".to_string(), is_dir: false, contents: Some(String::new()) },
            CacheEntry {
                path: "/opt/opm/deb/cache/pkg/deb.debian.org_debian_dists_bookworm_main_binary-amd64_Packages".to_string(),
                is_dir: false,
                contents: Some(INDEX.to_string()),
            },
        ],
    }
}

const DB: &str = "Package: dpkg\nVersion: 1.21.22\nPriority: required\nArchitecture: amd64\nMaintainer: Dpkg Developers <debian-dpkg@lists.debian.org>\nDescription: Debian package management system\n\nPackage: curl\nVersion: 7.74\nArchitecture: amd64\nMaintainer: Alessandro <ghedo@debian.org>\nDescription: command line tool\n\n";

#[test]
fn get_cache_test() {
    let config = debian_config();
    let cache = Cache::get_cache(&config, true).unwrap();
    assert_eq!(cache.cache, "/opt/opm/deb/cache/pkg");
}

#[test]
fn missing_cache_is_reported() {
    let config = debian_config();
    match Cache::get_cache(&config, false) {
        Err(CacheError::NoCache(p)) => assert_eq!(p, "/opt/opm/deb/cache/pkg"),
        _ => panic!("the cache should be missing"),
    }
    let files = CacheFiles { exists: false, entries: vec![] };
    match cache_lookup(&config, &files, "vim") {
        Err(OpmError::Cache(CacheError::NoCache(p))) => assert_eq!(p, "/opt/opm/deb/cache/pkg"),
        _ => panic!("the cache should be missing"),
    }
}

#[test]
fn lookup_finds_the_exact_package_under_its_repository() {
    let config = debian_config();
    let pkg = cache_lookup(&config, &cache_files(), "vim").unwrap().unwrap();
    assert_eq!(pkg.control.package, "vim");
    assert_eq!(pkg.control.filename, "deb.debian.org/debian/pool/main/v/vim/vim_9.0_amd64.deb");
    assert_eq!(pkg.control.depends, None);
    assert_eq!(pkg.kind, PkgKind::Binary);
}

#[test]
fn lookup_with_relations_reads_depends() {
    let config = debian_config();
    let pkg = cache_lookup_deps(&config, &cache_files(), "vim").unwrap().unwrap();
    assert_eq!(
        pkg.control.depends,
        Some(vec!["vim-common (= 2:9.0)".to_string(), "libc6 (>= 2.34)".to_string()])
    );
}

#[test]
fn cache_lookup_test() {
    let config = debian_config();
    let pkg = cache_lookup(&config, &cache_files(), "invalidPackage0101").unwrap();
    assert!(pkg.is_none());
}

#[test]
fn cache_search_test() {
    let config = debian_config();
    let pkg = cache_search(&config, &cache_files(), "invalidPackage0101").unwrap();
    assert!(pkg.unwrap().is_empty());
}

#[test]
fn search_lists_every_package_whose_name_contains_the_query() {
    let config = debian_config();
    let mut files = cache_files();
    files.entries.push(CacheEntry {
        path: "/opt/opm/deb/cache/pkg/security.debian.org_dists_bookworm-security_main_binary-amd64_Packages".to_string(),
        is_dir: false,
        contents: Some("Package: neovim\nVersion: 0.7\nArchitecture: amd64\nMaintainer: m\nDescription: d\nFilename: pool/n.deb".to_string()),
    });
    let pkgs = cache_search(&config, &files, "vim").unwrap().unwrap();
    let names: Vec<&str> = pkgs.iter().map(|p| p.control.package.as_str()).collect();
    assert_eq!(names, vec!["vim", "vim-common", "neovim"]);
    assert_eq!(pkgs[1].control.filename, "deb.debian.org/debian/pool/main/v/vim/vim-common_9.0_all.deb");
    assert_eq!(pkgs[2].control.filename, "security.debian.org/dists/pool/n.deb");
    assert_eq!(cache_search(&config, &files, "").unwrap().unwrap().len(), 4);
}

#[test]
fn badly_named_cache_file_is_reported_when_reached() {
    let config = debian_config();
    let mut files = cache_files();
    files.entries.push(CacheEntry {
        path: "/opt/opm/deb/cache_files/Packages".to_string(),
        is_dir: false,
        contents: Some(String::new()),
    });
    assert!(cache_lookup(&config, &files, "vim").unwrap().is_some());
    match cache_lookup(&config, &files, "nothing") {
        Err(OpmError::Cache(CacheError::UnexError { msg, .. })) => {
            assert_eq!(msg, "Cache file names no repository: /opt/opm/deb/cache_files/Packages")
        },
        _ => panic!("the bad file name should be reported"),
    }
    assert!(cache_search(&config, &files, "vim").is_err());
}

#[test]
fn unreadable_cache_file_ends_the_scan() {
    let config = debian_config();
    let mut files = cache_files();
    files.entries.insert(0, CacheEntry {
        path: "/opt/opm/deb/cache/pkg/a_b_Packages".to_string(),
        is_dir: false,
        contents: None,
    });
    assert!(cache_lookup(&config, &files, "vim").unwrap().is_none());
    assert!(cache_search(&config, &files, "vim").unwrap().unwrap().is_empty());
}

#[test]
fn db_dump_test() {
    let config = debian_config();
    assert!(db_dump(&config, DB).len() > 0);
}

#[test]
fn db_dump_lists_the_parsed_paragraphs() {
    let config = debian_config();
    let pkgs = db_dump(&config, DB);
    assert_eq!(pkgs.len(), 2);
    assert_eq!(pkgs[0].control.package, "dpkg");
    assert_eq!(pkgs[1].control.version, "7.74");
    assert!(db_dump(&config, "").is_empty());
}

#[test]
fn check_installed_finds_by_name() {
    let config = debian_config();
    let pkg = check_installed(&config, DB, "dpkg").unwrap();
    assert_eq!(pkg.control.version, "1.21.22");
    assert!(check_installed(&config, DB, "vim").is_none());
}

#[test]
fn add_package_record_reads_back() {
    let config = debian_config();
    let c = ControlFile::from(
        &config,
        "Package: tool\nVersion: 1.0\nPriority: optional\nArchitecture: all\nMaintainer: me\nDescription: a tool\nBreaks: old, older\nFilename: pool/t.deb",
    )
    .unwrap();
    let pkg = DebPackage { control: c, kind: PkgKind::Binary };
    let (path, record) = add_package(&config, &pkg);
    assert_eq!(path, "/opt/opm/deb/db");
    assert_eq!(
        record,
        "Package: tool\nVersion: 1.0\nPriority: optional\nArchitecture: all\nMaintainer: me\nDescription: a tool\nBreaks: old, older\n\n"
    );
    let db = format!("{}{}", DB, record);
    let dump = db_dump(&config, &db);
    assert_eq!(dump.len(), 3);
    let found = check_installed(&config, &db, "tool").unwrap();
    assert_eq!(found.control.version, "1.0");
    assert_eq!(found.control.priority, "optional");
    assert_eq!(found.control.description, "a tool");
    assert_eq!(found.control.filename, "");
}

#[test]
fn record_after_extra_line_ends_reads_back() {
    let config = debian_config();
    let c = ControlFile::new(
        &config,
        "Package: tool\nVersion: 1.0\nArchitecture: all\nMaintainer: me\nDescription: a tool",
    )
    .unwrap();
    let (_, record) = add_package(&config, &DebPackage { control: c, kind: PkgKind::Binary });
    let db = format!("{}\n{}", DB, record);
    let dump = db_dump(&config, &db);
    assert_eq!(dump.len(), 3);
    assert_eq!(dump[2].control.package, "tool");
    assert_eq!(dump[2].control.priority, "");
}

#[test]
fn a_relation_item_with_a_line_break_changes_the_record() {
    let config = debian_config();
    let mut c = ControlFile::new(
        &config,
        "Package: tool\nVersion: 1.0\nArchitecture: all\nMaintainer: me\nDescription: a tool",
    )
    .unwrap();
    c.depends = Some(vec!["x\nPackage: other".to_string()]);
    let (_, record) = add_package(&config, &DebPackage { control: c, kind: PkgKind::Binary });
    let db = format!("{}{}", DB, record);
    assert!(check_installed(&config, &db, "tool").is_none());
    assert!(check_installed(&config, &db, "other").is_some());
}
