use opm::errors::{CacheError, ConfigError, InstallError, OpmError, RemoveError, ScriptsError, SignatureError};

#[test]
fn install_error_messages() {
    assert_eq!(InstallError::AlreadyInstalled("dpkg".to_string()).to_string(), "\"dpkg\" is already installed");
    assert_eq!(InstallError::NotFoundError("x".to_string()).to_string(), "\"x\" was not found");
    assert_eq!(InstallError::UserInterrupt.to_string(), "Installation was interrupted by the user");
    assert_eq!(
        InstallError::InvalidPackage { pkg: "p".to_string(), err: None }.to_string(),
        "\"p\" is a invalid package :: error None"
    );
    assert_eq!(
        InstallError::WrongVersion { pkg: "p".to_string(), reqv: "2".to_string(), curv: "1".to_string() }.to_string(),
        "Package \"p(1)\" does not satisfy \"p(2)\""
    );
    assert_eq!(
        InstallError::UnexError { msg: "m".to_string(), err: Some("e".to_string()) }.to_string(),
        "Unexpected Error \"m\" :: Some(e)"
    );
}

#[test]
fn other_error_messages() {
    assert_eq!(RemoveError::NotFoundError("p".to_string()).to_string(), "Could not remove \"p\" due files were not found");
    assert_eq!(ScriptsError::PreInstError.to_string(), "Could not execute PREINST the script");
    assert_eq!(
        SignatureError::MD5 { rs: "a".to_string(), ex: "b".to_string() }.to_string(),
        "Mismatched MD5 Hash got \"a\" expected \"b\""
    );
    assert_eq!(
        SignatureError::SHA512 { rs: "a".to_string(), ex: "b".to_string() }.to_string(),
        "Mismatched SHA512 Hash got \"a\" expected b"
    );
    assert_eq!(ConfigError::SetupError("e".to_string()).to_string(), "Failed to complete setup :: error e");
    assert_eq!(CacheError::NoCache("/c".to_string()).to_string(), "No cache file was found at \"/c\"");
    assert_eq!(
        CacheError::NotFoundError { pkg: "p".to_string(), cache: "/c".to_string() }.to_string(),
        "\"p\" was not found at \"/c\""
    );
    assert_eq!(
        OpmError::Cache(CacheError::NoCache("/c".to_string())).to_string(),
        "No cache file was found at \"/c\""
    );
}
