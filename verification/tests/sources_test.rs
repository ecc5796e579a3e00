use opm::deb_package::{DebPackage, Paragraphs, PkgKind};
use opm::sources::{DebianSource, ReposList};

const SOURCES: &str = "# main repositories\ndeb http://deb.debian.org/debian bookworm main contrib\ndeb-src http://deb.debian.org/debian bookworm main\ndeb cdrom:[Debian GNU/Linux]/ bookworm main\n\ndeb http://security.debian.org/debian-security/ bookworm-security main\n";

#[test]
fn sources_list_gives_repositories() {
    let repos = DebianSource::new(SOURCES);
    assert_eq!(repos.len(), 3);
    assert_eq!(repos[0].url, "http://deb.debian.org/debian/");
    assert_eq!(repos[0].distribution, "bookworm");
    assert_eq!(repos[0].components, vec!["main".to_string(), "contrib".to_string()]);
    assert_eq!(repos[1].url, "http://deb.debian.org/debian/");
    assert_eq!(repos[1].components, vec!["main".to_string()]);
    assert_eq!(repos[2].url, "http://security.debian.org/debian-security/");
    assert_eq!(repos[2].distribution, "bookworm-security");
    assert!(DebianSource::new("").is_empty());
}

#[test]
fn repos_list_gives_addresses() {
    let list = ReposList::new("deb http://a.org/ x main\n# deb http://b.org/ y\ndeb-src http://c.org/ z\nother line\n");
    assert_eq!(list.list, vec!["http://a.org/".to_string(), "http://c.org/".to_string()]);
}

#[test]
fn control_fields_of_a_local_archive() {
    let p = Paragraphs::new("Package: tool\nVersion: 1.0\nDepends: libc6");
    assert_eq!(p.get("Package"), Some(" tool".to_string()));
    assert_eq!(p.get("Depends"), Some(" libc6".to_string()));
    assert_eq!(p.get("Size"), None);
    let deb = DebPackage::new("/opt/opm/deb/info/tool/control", "Package: tool\nPackage: other", PkgKind::Binary);
    assert_eq!(deb.control.get("Package"), Some(" other".to_string()));
    assert_eq!(deb.control_path, "/opt/opm/deb/info/tool/control");
}
