use std::io::Write;

use opm::cache::{cache_lookup, CacheEntry, CacheFiles};
use opm::config::Config;
use opm::os_fingerprint::{Distro, OsInfo, OS};
use opm::sources::DebianSource;
use opm::update::{unpack, update_plan};

fn debian_config() -> Config {
    let info = OsInfo::new(OS::Linux(Distro::Debian), "x86_64", false).unwrap();
    Config::new(&info).unwrap()
}

#[test]
fn update_plan_fetches_each_component() {
    let config = debian_config();
    let repos = DebianSource::new("deb http://deb.debian.org/debian bookworm main contrib\ndeb http://security.debian.org/ bookworm-security main\n");
    let plan = update_plan(&config, &repos);
    assert_eq!(plan.len(), 3);
    assert_eq!(plan[0].counter, 0);
    assert_eq!(plan[0].package_index_xz, "http://deb.debian.org/debian/dists/bookworm/main/binary-amd64/Packages.xz");
    assert_eq!(plan[0].package_index_gz, "http://deb.debian.org/debian/dists/bookworm/main/binary-amd64/Packages.gz");
    assert_eq!(plan[0].cache_file, "/opt/opm/deb/cache/pkg/deb.debian.org_debian_dists_bookworm_main_binary-amd64_Packages");
    assert_eq!(plan[0].release_url, "http://deb.debian.org/debian/dists/bookworm/InRelease");
    assert_eq!(plan[0].release_file, "/opt/opm/deb/cache/rls/deb.debian.org_debian_dists_bookworm_main_binary-amd64_InRelease");
    assert_eq!(plan[1].package_index_xz, "http://deb.debian.org/debian/dists/bookworm/contrib/binary-amd64/Packages.xz");
    assert_eq!(plan[2].counter, 1);
    assert_eq!(plan[2].cache_file, "/opt/opm/deb/cache/pkg/security.debian.org_dists_bookworm-security_main_binary-amd64_Packages");
    assert!(update_plan(&config, &vec![]).is_empty());
}

#[test]
fn unpack_decompresses_by_extension() {
    let mut enc = flate2::write::GzEncoder::new(Vec::new(), flate2::Compression::default());
    enc.write_all(b"Package: a\n").unwrap();
    let gz = enc.finish().unwrap();
    let mut out = b"old:".to_vec();
    assert!(unpack("Packages.gz", &gz, &mut out));
    assert_eq!(out, b"old:Package: a\n".to_vec());

    let mut xz_enc = xz2::write::XzEncoder::new(Vec::new(), 6);
    xz_enc.write_all(b"Package: b\n").unwrap();
    let xz = xz_enc.finish().unwrap();
    let mut out = Vec::new();
    assert!(unpack("http://x/Packages.xz", &xz, &mut out));
    assert_eq!(out, b"Package: b\n".to_vec());

    let mut out = Vec::new();
    assert!(unpack("Packages", b"plain", &mut out));
    assert!(out.is_empty());

    let mut out = b"kept".to_vec();
    assert!(!unpack("Packages.gz", b"not gzip", &mut out));
    assert!(out.starts_with(b"kept"));
}

#[test]
fn kept_index_gives_back_the_repository_address() {
    let config = debian_config();
    for url in ["http://deb.debian.org/debian/", "http://mirror//"] {
        let repos = DebianSource::new(&format!("deb {} stable main\n", url));
        let plan = update_plan(&config, &repos);
        let index = "Package: x\nVersion: 1\nArchitecture: all\nMaintainer: m\nDescription: d\nFilename: pool/x.deb\nSize: 1\n";
        let files = CacheFiles {
            exists: true,
            entries: vec![CacheEntry { path: plan[0].cache_file.clone(), is_dir: false, contents: Some(index.to_string()) }],
        };
        let pkg = cache_lookup(&config, &files, "x").unwrap().unwrap();
        assert_eq!(format!("http://{}", pkg.control.filename), format!("{}pool/x.deb", url));
    }
}
