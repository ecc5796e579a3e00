//! The error kinds that the package manager reports.
//!
//! Where an error carries the cause that produced it, the cause is kept as its
//! message text.

use vstd::prelude::*;

use crate::text::push_str;

verus! {

/// Errors while installing a package.
#[derive(Debug)]
pub enum InstallError {
    InvalidPackage { pkg: String, err: Option<String> },
    BrokenPackage { pkg: String, err: Option<String> },
    WrongVersion { pkg: String, reqv: String, curv: String },
    UnexError { msg: String, err: Option<String> },
    AlreadyInstalled(String),
    Breaks(String),
    NetworkingError { err: String },
    UnexInterrupt { err: String },
    UserInterrupt,
    NotFoundError(String),
    Error(String),
}

/// Errors while removing a package.
#[derive(Debug)]
pub enum RemoveError {
    NotFoundError(String),
    UnexError { msg: String, err: Option<String> },
}

/// Errors of the maintainer scripts.
#[derive(Debug)]
pub enum ScriptsError {
    PreInstError,
    PostInstError,
    PreRmError,
    PostRmError,
    UnexError { msg: String, err: Option<String> },
}

/// A checksum of a downloaded archive that differs from the one the
/// repository announced.
#[derive(Debug)]
pub enum SignatureError {
    MD5 { rs: String, ex: String },
    SHA1 { rs: String, ex: String },
    SHA256 { rs: String, ex: String },
    SHA512 { rs: String, ex: String },
}

/// Errors of the configuration and of control-file parsing.
#[derive(Debug)]
pub enum ConfigError {
    ChangeConfig(String),
    SetupError(String),
    UnexError { msg: String, err: Option<String> },
}

/// Errors of the package cache.
#[derive(Debug)]
pub enum CacheError {
    NotFoundError { pkg: String, cache: String },
    UnexError { msg: String, err: Option<String> },
    NoCache(String),
}

/// Any error of the package manager.
#[derive(Debug)]
pub enum OpmError {
    Install(InstallError),
    Remove(RemoveError),
    Scripts(ScriptsError),
    Signature(SignatureError),
    Config(ConfigError),
    Cache(CacheError),
}


/// The text that `{:?}` prints for a string: quoted, with escapes.
pub uninterp spec fn debug_quoted(s: Seq<char>) -> Seq<char>;

/// Trusted: `format!("{:?}", s)`, std's `Debug` rendering of a string, named
/// `debug_quoted`; the escaping rules are not stated.
#[verifier::external_body]
fn debug_text(s: &str) -> (r: String)
    ensures
        r@ == debug_quoted(s@),
{
    format!("{:?}", s)
}

/// The rendering of an optional cause.
pub open spec fn cause_text(err: Option<String>) -> Seq<char> {
    match err {
        Some(e) => "Some("@ + e@ + ")"@,
        None => "None"@,
    }
}

fn cause(err: &Option<String>) -> (r: String)
    ensures
        r@ == cause_text(*err),
{
    match err {
        Some(e) => {
            let mut r = "Some(".to_owned();
            push_str(&mut r, e.as_str());
            push_str(&mut r, ")");
            r
        },
        None => "None".to_owned(),
    }
}

/// `a`, then `b`.
fn cat2(a: &str, b: &str) -> (r: String)
    ensures
        r@ == a@ + b@,
{
    let mut r = a.to_owned();
    push_str(&mut r, b);
    r
}

/// `a`, `b`, `c` in order.
fn cat3(a: &str, b: &str, c: &str) -> (r: String)
    ensures
        r@ == a@ + b@ + c@,
{
    let mut r = a.to_owned();
    push_str(&mut r, b);
    push_str(&mut r, c);
    r
}

/// `a`, `b`, `c`, `d` in order.
fn cat4(a: &str, b: &str, c: &str, d: &str) -> (r: String)
    ensures
        r@ == a@ + b@ + c@ + d@,
{
    let mut r = a.to_owned();
    push_str(&mut r, b);
    push_str(&mut r, c);
    push_str(&mut r, d);
    r
}

impl InstallError {
    /// The message of the error.
    pub open spec fn message(&self) -> Seq<char> {
        match self {
            InstallError::InvalidPackage { pkg, err } => debug_quoted(pkg@) + " is a invalid package :: error "@ + cause_text(*err),
            InstallError::BrokenPackage { pkg, err } => "Perhaps "@ + debug_quoted(pkg@) + " is broken due some missing files :: error "@ + cause_text(*err),
            InstallError::AlreadyInstalled(pkg) => debug_quoted(pkg@) + " is already installed"@,
            InstallError::UnexError { msg, err } => "Unexpected Error "@ + debug_quoted(msg@) + " :: "@ + cause_text(*err),
            InstallError::Breaks(pkg) => "Package "@ + debug_quoted(pkg@) + " can break others"@,
            InstallError::WrongVersion { pkg, reqv, curv } => "Package \""@ + pkg@ + "("@ + curv@ + ")\" does not satisfy \""@ + pkg@ + "("@ + reqv@ + ")\""@,
            InstallError::NetworkingError { err } => "Networking Error :: "@ + err@,
            InstallError::UserInterrupt => "Installation was interrupted by the user"@,
            InstallError::UnexInterrupt { err } => "Installation was unexpected interrupted :: error "@ + err@,
            InstallError::NotFoundError(pkg) => debug_quoted(pkg@) + " was not found"@,
            InstallError::Error(msg) => msg@,
        }
    }

    /// The message of the error.
    pub fn to_string(&self) -> (r: String)
        ensures
            r@ == self.message(),
    {
        match self {
            InstallError::InvalidPackage { pkg, err } => cat3(debug_text(pkg.as_str()).as_str(), " is a invalid package :: error ", cause(err).as_str()),
            InstallError::BrokenPackage { pkg, err } => cat4("Perhaps ", debug_text(pkg.as_str()).as_str(), " is broken due some missing files :: error ", cause(err).as_str()),
            InstallError::AlreadyInstalled(pkg) => cat2(debug_text(pkg.as_str()).as_str(), " is already installed"),
            InstallError::UnexError { msg, err } => cat4("Unexpected Error ", debug_text(msg.as_str()).as_str(), " :: ", cause(err).as_str()),
            InstallError::Breaks(pkg) => cat3("Package ", debug_text(pkg.as_str()).as_str(), " can break others"),
            InstallError::WrongVersion { pkg, reqv, curv } => {
                let a = cat4("Package \"", pkg.as_str(), "(", curv.as_str());
                let b = cat4(")\" does not satisfy \"", pkg.as_str(), "(", reqv.as_str());
                cat3(a.as_str(), b.as_str(), ")\"")
            },
            InstallError::NetworkingError { err } => cat2("Networking Error :: ", err.as_str()),
            InstallError::UserInterrupt => "Installation was interrupted by the user".to_owned(),
            InstallError::UnexInterrupt { err } => cat2("Installation was unexpected interrupted :: error ", err.as_str()),
            InstallError::NotFoundError(pkg) => cat2(debug_text(pkg.as_str()).as_str(), " was not found"),
            InstallError::Error(msg) => msg.clone(),
        }
    }
}

impl RemoveError {
    /// The message of the error.
    pub open spec fn message(&self) -> Seq<char> {
        match self {
            RemoveError::NotFoundError(pkg) => "Could not remove "@ + debug_quoted(pkg@) + " due files were not found"@,
            RemoveError::UnexError { msg, err } => "Unexpected Error "@ + debug_quoted(msg@) + " :: "@ + cause_text(*err),
        }
    }

    /// The message of the error.
    pub fn to_string(&self) -> (r: String)
        ensures
            r@ == self.message(),
    {
        match self {
            RemoveError::NotFoundError(pkg) => cat3("Could not remove ", debug_text(pkg.as_str()).as_str(), " due files were not found"),
            RemoveError::UnexError { msg, err } => cat4("Unexpected Error ", debug_text(msg.as_str()).as_str(), " :: ", cause(err).as_str()),
        }
    }
}

impl SignatureError {
    /// The message of the error.
    pub open spec fn message(&self) -> Seq<char> {
        match self {
            SignatureError::MD5 { rs, ex } => "Mismatched MD5 Hash got "@ + debug_quoted(rs@) + " expected "@ + debug_quoted(ex@),
            SignatureError::SHA1 { rs, ex } => "Mismatched SHA1 Hash got "@ + debug_quoted(rs@) + " expected "@ + debug_quoted(ex@),
            SignatureError::SHA256 { rs, ex } => "Mismatched SHA256 Hash got "@ + debug_quoted(rs@) + " expected "@ + debug_quoted(ex@),
            SignatureError::SHA512 { rs, ex } => "Mismatched SHA512 Hash got "@ + debug_quoted(rs@) + " expected "@ + ex@,
        }
    }

    /// The message of the error.
    pub fn to_string(&self) -> (r: String)
        ensures
            r@ == self.message(),
    {
        match self {
            SignatureError::MD5 { rs, ex } => cat4("Mismatched MD5 Hash got ", debug_text(rs.as_str()).as_str(), " expected ", debug_text(ex.as_str()).as_str()),
            SignatureError::SHA1 { rs, ex } => cat4("Mismatched SHA1 Hash got ", debug_text(rs.as_str()).as_str(), " expected ", debug_text(ex.as_str()).as_str()),
            SignatureError::SHA256 { rs, ex } => cat4("Mismatched SHA256 Hash got ", debug_text(rs.as_str()).as_str(), " expected ", debug_text(ex.as_str()).as_str()),
            SignatureError::SHA512 { rs, ex } => cat4("Mismatched SHA512 Hash got ", debug_text(rs.as_str()).as_str(), " expected ", ex.as_str()),
        }
    }
}

impl ConfigError {
    /// The message of the error.
    pub open spec fn message(&self) -> Seq<char> {
        match self {
            ConfigError::SetupError(err) => "Failed to complete setup :: error "@ + err@,
            ConfigError::UnexError { msg, err } => "Unexpected Error "@ + debug_quoted(msg@) + " :: "@ + cause_text(*err),
            ConfigError::ChangeConfig(config) => "Go to "@ + debug_quoted(config@) + " and change the values manually"@,
        }
    }

    /// The message of the error.
    pub fn to_string(&self) -> (r: String)
        ensures
            r@ == self.message(),
    {
        match self {
            ConfigError::SetupError(err) => cat2("Failed to complete setup :: error ", err.as_str()),
            ConfigError::UnexError { msg, err } => cat4("Unexpected Error ", debug_text(msg.as_str()).as_str(), " :: ", cause(err).as_str()),
            ConfigError::ChangeConfig(config) => cat3("Go to ", debug_text(config.as_str()).as_str(), " and change the values manually"),
        }
    }
}

impl CacheError {
    /// The message of the error.
    pub open spec fn message(&self) -> Seq<char> {
        match self {
            CacheError::NotFoundError { pkg, cache } => debug_quoted(pkg@) + " was not found at "@ + debug_quoted(cache@),
            CacheError::UnexError { msg, err } => "Unexpected Error "@ + debug_quoted(msg@) + " :: "@ + cause_text(*err),
            CacheError::NoCache(cache) => "No cache file was found at "@ + debug_quoted(cache@),
        }
    }

    /// The message of the error.
    pub fn to_string(&self) -> (r: String)
        ensures
            r@ == self.message(),
    {
        match self {
            CacheError::NotFoundError { pkg, cache } => cat3(debug_text(pkg.as_str()).as_str(), " was not found at ", debug_text(cache.as_str()).as_str()),
            CacheError::UnexError { msg, err } => cat4("Unexpected Error ", debug_text(msg.as_str()).as_str(), " :: ", cause(err).as_str()),
            CacheError::NoCache(cache) => cat2("No cache file was found at ", debug_text(cache.as_str()).as_str()),
        }
    }
}

impl ScriptsError {
    /// The message of the error.
    pub open spec fn message(&self) -> Seq<char> {
        match self {
            ScriptsError::PreInstError => "Could not execute PREINST the script"@,
            ScriptsError::PostInstError => "Could not execute POSTINST the script"@,
            ScriptsError::PreRmError => "Could not execute PRERM the script"@,
            ScriptsError::PostRmError => "Could not execute POSTRM the script"@,
            ScriptsError::UnexError { msg, err } => "Unexpected Error "@ + debug_quoted(msg@) + " :: "@ + cause_text(*err),
        }
    }

    /// The message of the error.
    pub fn to_string(&self) -> (r: String)
        ensures
            r@ == self.message(),
    {
        match self {
            ScriptsError::PreInstError => "Could not execute PREINST the script".to_owned(),
            ScriptsError::PostInstError => "Could not execute POSTINST the script".to_owned(),
            ScriptsError::PreRmError => "Could not execute PRERM the script".to_owned(),
            ScriptsError::PostRmError => "Could not execute POSTRM the script".to_owned(),
            ScriptsError::UnexError { msg, err } => cat4("Unexpected Error ", debug_text(msg.as_str()).as_str(), " :: ", cause(err).as_str()),
        }
    }
}

impl OpmError {
    /// The message of the error.
    pub open spec fn message(&self) -> Seq<char> {
        match self {
            OpmError::Install(e) => e.message(),
            OpmError::Remove(e) => e.message(),
            OpmError::Scripts(e) => e.message(),
            OpmError::Signature(e) => e.message(),
            OpmError::Config(e) => e.message(),
            OpmError::Cache(e) => e.message(),
        }
    }

    /// The message of the error.
    pub fn to_string(&self) -> (r: String)
        ensures
            r@ == self.message(),
    {
        match self {
            OpmError::Install(e) => e.to_string(),
            OpmError::Remove(e) => e.to_string(),
            OpmError::Scripts(e) => e.to_string(),
            OpmError::Signature(e) => e.to_string(),
            OpmError::Config(e) => e.to_string(),
            OpmError::Cache(e) => e.to_string(),
        }
    }
}

} // verus!
