use opm::config::Config;
use opm::os_fingerprint::{Archs, Distro, OsInfo, OS, DEBIAN_DATABASE};
use opm::packages::PackageFormat;
use opm::utils;

#[test]
fn distro_is_read_from_issue() {
    assert_eq!(Distro::get_distro("Debian GNU/Linux 12 \\n \\l", false).unwrap(), Distro::Debian);
    assert_eq!(Distro::get_distro("Ubuntu 22.04.3 LTS \\n \\l", false).unwrap(), Distro::Ubuntu);
    assert_eq!(Distro::get_distro("Arch Linux \\r (\\l)", true).unwrap(), Distro::Arch);
    assert_eq!(Distro::get_distro("Arch Linux \\r (\\l)", false).unwrap(), Distro::Unknown);
    assert_eq!(Distro::get_distro("Welcome to openSUSE - Kernel \\r", false).unwrap(), Distro::OpenSuse);
    assert_eq!(Distro::get_distro("Fedora release 38", false).unwrap(), Distro::Unknown);
    assert_eq!(Distro::get_distro("Debianish", false).unwrap(), Distro::Unknown);
}

#[test]
fn os_follows_the_build_platform() {
    assert_eq!(OS::get_os(true, false, "Ubuntu 22.04", false).unwrap(), OS::Linux(Distro::Ubuntu));
    assert_eq!(OS::get_os(false, true, "", false).unwrap(), OS::Windows);
    assert_eq!(OS::get_os(false, false, "", false).unwrap(), OS::Unknown);
}

#[test]
fn names_of_distros_and_archs() {
    assert_eq!(Distro::Debian.to_string(), "Debian");
    assert_eq!(Distro::OpenSuse.to_string(), "Kernel");
    assert_eq!(Archs::get_arch("x86_64"), Archs::Amd64);
    assert_eq!(Archs::get_arch("x86"), Archs::I386);
    assert_eq!(Archs::get_arch("aarch64"), Archs::Unknown);
    assert_eq!(Archs::Amd64.to_string(), "amd64");
    assert_eq!(Archs::I386.to_string(), "i386");
}

#[test]
fn os_info_for_debian() {
    let info = OsInfo::new(OS::Linux(Distro::Debian), "x86_64", true).unwrap();
    assert_eq!(info.os, OS::Linux(Distro::Debian));
    assert_eq!(info.arch, Archs::Amd64);
    assert_eq!(info.previous_db, Some(DEBIAN_DATABASE.to_string()));
    assert_eq!(info.default_package_format, PackageFormat::Deb);
    assert_eq!(info.install_dir, "/opt/opm/deb");
    let info = OsInfo::new(OS::Linux(Distro::Ubuntu), "x86", false).unwrap();
    assert_eq!(info.previous_db, None);
    assert_eq!(info.arch, Archs::I386);
}

#[test]
fn config_places_everything_under_the_install_dir() {
    let info = OsInfo::new(OS::Linux(Distro::Debian), "x86_64", true).unwrap();
    let config = Config::new(&info).unwrap();
    assert_eq!(config.cache, "/opt/opm/deb/cache/pkg");
    assert_eq!(config.rls, "/opt/opm/deb/cache/rls");
    assert_eq!(config.archive, "/opt/opm/deb/archive");
    assert_eq!(config.info, "/opt/opm/deb/info");
    assert_eq!(config.tmp, "/opt/opm/deb/tmp");
    assert_eq!(config.db, "/opt/opm/deb/db");
    assert!(!config.use_pre_existing_cache);
    assert!(!config.use_pre_existing_db);
    assert_eq!(config.os_info.previous_db, Some("/var/lib/dpkg/status".to_string()));
}

#[test]
fn package_formats() {
    assert_eq!(PackageFormat::get_format(&OS::Linux(Distro::Debian)).unwrap(), PackageFormat::Deb);
    assert_eq!(PackageFormat::get_format(&OS::Linux(Distro::Ubuntu)).unwrap(), PackageFormat::Deb);
    assert_eq!(PackageFormat::get_format(&OS::Linux(Distro::OpenSuse)).unwrap(), PackageFormat::Rpm);
    assert_eq!(PackageFormat::get_format(&OS::Linux(Distro::Unknown)).unwrap(), PackageFormat::Unknown);
    assert_eq!(PackageFormat::Deb.to_string(), "deb");
    assert_eq!(PackageFormat::Rpm.to_string(), "rpm");
    assert_eq!(PackageFormat::Pkg.to_string(), "pkg");
    assert_eq!(PackageFormat::Unknown.to_string(), "unknown");
}

#[test]
fn command_line_formats() {
    assert_eq!(utils::PackageFormat::get_format("Ubuntu 22.04", false).unwrap(), utils::PackageFormat::Deb);
    assert_eq!(utils::PackageFormat::get_format("Fedora 38", false).unwrap(), utils::PackageFormat::Rpm);
    assert_eq!(utils::PackageFormat::get_format("Debian on Arch", true).unwrap(), utils::PackageFormat::Other);
    assert_eq!(utils::PackageFormat::from("deb"), utils::PackageFormat::Deb);
    assert_eq!(utils::PackageFormat::from("rpm"), utils::PackageFormat::Rpm);
    assert_eq!(utils::PackageFormat::from("oth"), utils::PackageFormat::Other);
}

#[test]
fn each_distribution_name_is_detected_back() {
    for d in [Distro::Debian, Distro::Ubuntu, Distro::OpenSuse] {
        assert_eq!(Distro::get_distro(&d.to_string(), false).unwrap(), d);
    }
    assert_eq!(Distro::get_distro(&Distro::Arch.to_string(), true).unwrap(), Distro::Arch);
    assert_eq!(OS::get_os(true, false, "Kernel", false).unwrap(), OS::Linux(Distro::OpenSuse));
}
