use opm::config::Config;
use opm::errors::SignatureError;
use opm::os_fingerprint::{Distro, OsInfo, OS};
use opm::package::{ControlFile, DebPackage, PkgKind};
use opm::signatures::{to_hex, verify_sig};

const MD5_ABC: &str = "900150983cd24fb0d6963f7d28e17f72";
const SHA1_ABC: &str = "a9993e364706816aba3e25717850c26c9cd0d89d";
const SHA256_ABC: &str = "ba7816bf8f01cfea414140de5dae2223b00361a396177a9cb410ff61f20015ad";
const SHA512_ABC: &str = "ddaf35a193617abacc417349ae20413112e6fa4e89a97ea20a9eeee64b55d39a2192992a274fc1a836ba3c23a3feebbd454d4423643ce80e2a9ac94fa54ca49f";

fn package(checksums: &str) -> DebPackage {
    let info = OsInfo::new(OS::Linux(Distro::Debian), "x86_64", false).unwrap();
    let config = Config::new(&info).unwrap();
    let text = format!("Package: abc\nVersion: 1\nArchitecture: all\nMaintainer: m\nDescription: d\n{}", checksums);
    DebPackage { control: ControlFile::new(&config, &text).unwrap(), kind: PkgKind::Binary }
}

#[test]
fn matching_checksums_pass() {
    let pkg = package(&format!("MD5sum: {}\nSHA1: {}\nSHA256: {}\nSHA512: {}", MD5_ABC, SHA1_ABC, SHA256_ABC, SHA512_ABC));
    assert!(verify_sig(&pkg, b"abc").is_ok());
    assert!(verify_sig(&package(""), b"anything").is_ok());
}

#[test]
fn md5_mismatch_is_reported() {
    let pkg = package(&format!("MD5sum: {}", MD5_ABC));
    match verify_sig(&pkg, b"abd") {
        Err(SignatureError::MD5 { rs, ex }) => {
            assert_eq!(rs, MD5_ABC);
            assert_ne!(ex, MD5_ABC);
            assert_eq!(ex.len(), 32);
        },
        other => panic!("unexpected result {:?}", other),
    }
}

#[test]
fn later_mismatches_carry_the_md5_field() {
    let pkg = package(&format!("MD5sum: {}\nSHA1: {}\nSHA256: 00", MD5_ABC, SHA1_ABC));
    match verify_sig(&pkg, b"abc") {
        Err(SignatureError::SHA256 { rs, ex }) => {
            assert_eq!(rs, MD5_ABC);
            assert_eq!(ex, SHA256_ABC);
        },
        other => panic!("unexpected result {:?}", other),
    }
    let pkg = package(&format!("SHA1: {}", SHA256_ABC));
    match verify_sig(&pkg, b"abc") {
        Err(SignatureError::SHA1 { rs, ex }) => {
            assert_eq!(rs, "");
            assert_eq!(ex, SHA1_ABC);
        },
        other => panic!("unexpected result {:?}", other),
    }
    let pkg = package("SHA512: 11");
    match verify_sig(&pkg, b"abc") {
        Err(SignatureError::SHA512 { ex, .. }) => assert_eq!(ex, SHA512_ABC),
        other => panic!("unexpected result {:?}", other),
    }
}

#[test]
fn hex_is_lower_case() {
    assert_eq!(to_hex(&vec![0x00, 0x0f, 0xa0, 0xff]), "000fa0ff");
    assert_eq!(to_hex(&vec![]), "");
}
