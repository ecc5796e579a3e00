use opm::config::Config;
use opm::errors::ConfigError;
use opm::os_fingerprint::{Distro, OsInfo, OS};
use opm::package::{ControlFile, DebPackage, PkgKind, PkgPriority};

fn debian_config() -> Config {
    let info = OsInfo::new(OS::Linux(Distro::Debian), "x86_64", false).unwrap();
    Config::new(&info).unwrap()
}

const ACCOUNTSSERVICE: &str = r"Package: accountsservice
Architecture: amd64
Version: 0.6.55-0ubuntu11
Priority: standard
Section: gnome
Origin: Ubuntu
Maintainer: Ubuntu Developers <ubuntu-devel-discuss@lists.ubuntu.com>
Original-Maintainer: Debian freedesktop.org maintainers <pkg-freedesktop-maintainers@lists.alioth.debian.org>
Bugs: https://bugs.launchpad.net/ubuntu/+filebug
Installed-Size: 452
Depends: dbus, libaccountsservice0 (= 0.6.55-0ubuntu11), libc6 (>= 2.4), libglib2.0-0 (>= 2.44), libpolkit-gobject-1-0 (>= 0.99)
Suggests: gnome-control-center
Filename: pool/main/a/accountsservice/accountsservice_0.6.55-0ubuntu11_amd64.deb
Size: 60940
MD5sum: 87a0e27c83950d864d901ceca0f2b49c
SHA1: ce92ea3783ca4ca6cdb5115381379f9c1317566b
SHA256: e34884d71bb98002bf0c775479aa31ee5011ded1abf969ffe6496874de499f42
Homepage: https://www.freedesktop.org/wiki/Software/AccountsService/
Description: query and manipulate user account information
Task: standard
Description-md5: 8aeed0a03c7cd494f0c4b8d977483d7e";

#[test]
fn package_from_test() {
    let config = debian_config();
    ControlFile::from(&config, ACCOUNTSSERVICE).unwrap();
}

#[test]
fn from_reads_fields_and_relations() {
    let config = debian_config();
    let c = ControlFile::from(&config, ACCOUNTSSERVICE).unwrap();
    assert_eq!(c.package, "accountsservice");
    assert_eq!(c.version, "0.6.55-0ubuntu11");
    assert_eq!(c.architecture, "amd64");
    assert_eq!(c.priority, "standard");
    assert_eq!(c.maintainer, "Ubuntu Developers <ubuntu-devel-discuss@lists.ubuntu.com>");
    assert_eq!(c.description, "query and manipulate user account information");
    assert_eq!(c.filename, "pool/main/a/accountsservice/accountsservice_0.6.55-0ubuntu11_amd64.deb");
    assert_eq!(c.size, "60940");
    assert_eq!(c.md5sum, "87a0e27c83950d864d901ceca0f2b49c");
    assert_eq!(c.sha1, "ce92ea3783ca4ca6cdb5115381379f9c1317566b");
    assert_eq!(c.sha256, "e34884d71bb98002bf0c775479aa31ee5011ded1abf969ffe6496874de499f42");
    assert_eq!(c.sha512, "");
    assert_eq!(
        c.depends,
        Some(vec![
            "dbus".to_string(),
            "libaccountsservice0 (= 0.6.55-0ubuntu11)".to_string(),
            "libc6 (>= 2.4)".to_string(),
            "libglib2.0-0 (>= 2.44)".to_string(),
            "libpolkit-gobject-1-0 (>= 0.99)".to_string(),
        ])
    );
    assert_eq!(c.suggests, Some(vec!["gnome-control-center".to_string()]));
    assert_eq!(c.recommends, None);
    assert_eq!(c.breaks, None);
    assert_eq!(c.conffiles, None);
}

#[test]
fn new_leaves_relations_out() {
    let config = debian_config();
    let with = ControlFile::from(&config, ACCOUNTSSERVICE).unwrap();
    let without = ControlFile::new(&config, ACCOUNTSSERVICE).unwrap();
    assert_eq!(without.depends, None);
    assert_eq!(without.suggests, None);
    assert_eq!(without.package, with.package);
    assert_eq!(without.version, with.version);
    assert_eq!(without.filename, with.filename);
    assert_eq!(without.md5sum, with.md5sum);
}

#[test]
fn missing_mandatory_field_is_refused() {
    let config = debian_config();
    let r = ControlFile::new(&config, "Package: a\nVersion: 1\nArchitecture: all\nDescription: d");
    match r {
        Err(ConfigError::UnexError { msg, err }) => {
            assert_eq!(msg, "Invalid debain's control file! Missing \"Maintainer\" field");
            assert!(err.is_none());
        },
        other => panic!("unexpected result {:?}", other),
    }
}

#[test]
fn field_line_without_colon_is_refused() {
    let config = debian_config();
    let r = ControlFile::from(&config, "Package\nVersion: 1");
    match r {
        Err(ConfigError::UnexError { msg, .. }) => {
            assert_eq!(msg, "Unknown error trying to get \"Package\" field");
        },
        other => panic!("unexpected result {:?}", other),
    }
}

#[test]
fn values_are_trimmed_and_lists_split() {
    let config = debian_config();
    let c = ControlFile::from(
        &config,
        "Package:  tool \nVersion: 2.0\nArchitecture: all\nMaintainer: m\nDescription: d\nBreaks: a ,  b\nConflicts:",
    )
    .unwrap();
    assert_eq!(c.package, "tool");
    assert_eq!(c.breaks, Some(vec!["a".to_string(), "b".to_string()]));
    assert_eq!(c.conflicts, None);
    assert_eq!(c.priority, "");
}

#[test]
fn set_filename_replaces_only_the_filename() {
    let config = debian_config();
    let mut c = ControlFile::new(&config, ACCOUNTSSERVICE).unwrap();
    c.set_filename("mirror/pool/a.deb");
    assert_eq!(c.filename, "mirror/pool/a.deb");
    assert_eq!(c.package, "accountsservice");
}

#[test]
fn priorities_are_named() {
    assert_eq!(PkgPriority::get_priority("required"), PkgPriority::Required);
    assert_eq!(PkgPriority::get_priority("important"), PkgPriority::Important);
    assert_eq!(PkgPriority::get_priority("standard"), PkgPriority::Standard);
    assert_eq!(PkgPriority::get_priority("optional"), PkgPriority::Optional);
    assert_eq!(PkgPriority::get_priority("extra"), PkgPriority::Extra);
    assert_eq!(PkgPriority::get_priority("whatever"), PkgPriority::Optional);
}

#[test]
fn deb_package_keeps_kind_and_relations() {
    let config = debian_config();
    let p = DebPackage::new(&config, ACCOUNTSSERVICE, PkgKind::Source).unwrap();
    assert_eq!(p.kind, PkgKind::Source);
    assert_eq!(p.control.package, "accountsservice");
    assert!(p.control.depends.is_some());
}
