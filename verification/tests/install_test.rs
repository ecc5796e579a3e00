use opm::cache::{CacheEntry, CacheFiles};
use opm::config::Config;
use opm::errors::{CacheError, InstallError, OpmError};
use opm::install::{
    answer_is_yes, check_reinstall, deb_file_stem, download_target, install_root, install_size,
    parse_u64, prepare_install, refuse_installed,
};
use opm::os_fingerprint::{Distro, OsInfo, OS};
use opm::package::ControlFile;

fn debian_config() -> Config {
    let info = OsInfo::new(OS::Linux(Distro::Debian), "x86_64", false).unwrap();
    Config::new(&info).unwrap()
}

const INDEX: &str = "Package: dpkg\nVersion: 1.21.22\nArchitecture: amd64\nMaintainer: Dpkg Developers <debian-dpkg@lists.debian.org>\nDescription: Debian package management system\nFilename: pool/main/d/dpkg/dpkg_1.21.22_amd64.deb\nSize: 2300\n\nPackage: cargo\nVersion: 0.66.0\nArchitecture: amd64\nMaintainer: Debian Rust Maintainers <pkg-rust-maintainers@alioth-lists.debian.net>\nDescription: Rust package manager\nFilename: pool/main/c/cargo/cargo_0.66.0_amd64.deb\nSize: 3400\n";

const DB: &str = "Package: dpkg\nVersion: 1.21.22\nArchitecture: amd64\nMaintainer: Dpkg Developers <debian-dpkg@lists.debian.org>\nDescription: Debian package management system\n\nPackage: cargo\nVersion: 0.47.0\nArchitecture: amd64\nMaintainer: Debian Rust Maintainers <pkg-rust-maintainers@alioth-lists.debian.net>\nDescription: Rust package manager\n\n";

fn cache_files() -> CacheFiles {
    CacheFiles {
        exists: true,
        entries: vec![CacheEntry {
            path: "/opt/opm/deb/cache/pkg/deb.debian.org_debian_dists_bookworm_main_binary-amd64_Packages".to_string(),
            is_dir: false,
            contents: Some(INDEX.to_string()),
        }],
    }
}

#[test]
fn install_not_found_test() {
    let config = debian_config();
    match prepare_install(&config, DB, &cache_files(), "iNvAlIdPaCkAgE", false) {
        Err(OpmError::Cache(CacheError::NotFoundError { pkg, cache })) => {
            assert_eq!(pkg, "iNvAlIdPaCkAgE");
            assert_eq!(cache, "/opt/opm/deb/cache/pkg");
        },
        other => panic!("unexpected result {:?}", other.map(|l| l.len())),
    }
}

#[test]
fn install_already_installed() {
    let config = debian_config();
    match check_reinstall(&config, DB, &cache_files(), "dpkg") {
        Err(OpmError::Install(InstallError::AlreadyInstalled(n))) => assert_eq!(n, "dpkg"),
        other => panic!("unexpected result {:?}", other),
    }
}

#[test]
fn newer_cached_version_offers_an_update() {
    let config = debian_config();
    let r = check_reinstall(&config, DB, &cache_files(), "cargo").unwrap();
    assert_eq!(r, Some(("0.47.0".to_string(), "0.66.0".to_string())));
    assert_eq!(check_reinstall(&config, DB, &cache_files(), "vim").unwrap(), None);
}

#[test]
fn prepare_install_lists_the_package() {
    let config = debian_config();
    let pkgs = prepare_install(&config, "", &cache_files(), "cargo", false).unwrap();
    assert_eq!(pkgs.len(), 1);
    assert_eq!(pkgs[0].package, "cargo");
    assert_eq!(pkgs[0].filename, "deb.debian.org/debian/pool/main/c/cargo/cargo_0.66.0_amd64.deb");
    assert_eq!(install_size(&pkgs), Some(3400));
}

#[test]
fn local_archive_of_an_installed_package_is_refused() {
    let config = debian_config();
    assert!(matches!(
        refuse_installed(&config, DB, "dpkg"),
        Err(OpmError::Install(InstallError::AlreadyInstalled(_)))
    ));
    assert!(refuse_installed(&config, DB, "vim").is_ok());
}

#[test]
fn install_size_adds_sizes_and_refuses_bad_ones() {
    let config = debian_config();
    let a = ControlFile::new(&config, "Package: a\nVersion: 1\nArchitecture: all\nMaintainer: m\nDescription: d\nSize: 10").unwrap();
    let b = ControlFile::new(&config, "Package: b\nVersion: 1\nArchitecture: all\nMaintainer: m\nDescription: d\nSize: +32").unwrap();
    let c = ControlFile::new(&config, "Package: c\nVersion: 1\nArchitecture: all\nMaintainer: m\nDescription: d\nSize: 1k").unwrap();
    let big = ControlFile::new(&config, "Package: e\nVersion: 1\nArchitecture: all\nMaintainer: m\nDescription: d\nSize: 18446744073709551615").unwrap();
    assert_eq!(install_size(&vec![a.clone(), b.clone()]), Some(42));
    assert_eq!(install_size(&vec![]), Some(0));
    assert_eq!(install_size(&vec![a.clone(), c]), None);
    assert_eq!(install_size(&vec![a, big]), None);
}

#[test]
fn numbers_parse_like_u64_from_str() {
    assert_eq!(parse_u64("60940"), Some(60940));
    assert_eq!(parse_u64("+7"), Some(7));
    assert_eq!(parse_u64("18446744073709551615"), Some(u64::MAX));
    assert_eq!(parse_u64("18446744073709551616"), None);
    assert_eq!(parse_u64(""), None);
    assert_eq!(parse_u64("+"), None);
    assert_eq!(parse_u64("-1"), None);
    assert_eq!(parse_u64(" 1"), None);
}

#[test]
fn archive_names_give_package_names() {
    assert_eq!(deb_file_stem("/var/cache/opm/curl_7.88_amd64.deb"), "curl_7.88_amd64");
    assert_eq!(deb_file_stem("tool.deb"), "tool");
    assert_eq!(deb_file_stem("dir/archive"), "archive");
}

#[test]
fn install_root_defaults_to_slash() {
    assert_eq!(install_root(&None), "/");
    assert_eq!(install_root(&Some("/tmp/root".to_string())), "/tmp/root");
}

#[test]
fn download_target_names_url_and_archive_file() {
    let config = debian_config();
    let mut c = ControlFile::new(&config, "Package: a\nVersion: 1\nArchitecture: all\nMaintainer: m\nDescription: d").unwrap();
    c.set_filename("deb.debian.org/debian/pool/main/a/a_1_all.deb");
    let (url, path) = download_target(&config, &c);
    assert_eq!(url, "http://deb.debian.org/debian/pool/main/a/a_1_all.deb");
    assert_eq!(path, "/opt/opm/deb/archive/a_1_all.deb");
}

#[test]
fn answers_starting_with_y_say_yes() {
    assert!(answer_is_yes("y"));
    assert!(answer_is_yes("  Yes\n"));
    assert!(!answer_is_yes("n"));
    assert!(!answer_is_yes(""));
    assert!(!answer_is_yes("   \n"));
    assert!(!answer_is_yes("ok y"));
}
