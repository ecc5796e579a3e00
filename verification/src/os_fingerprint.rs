//! Detection of the operating system, distribution and architecture that the
//! package manager runs on, and the defaults that follow from them.

use vstd::prelude::*;

use crate::errors::ConfigError;
use crate::packages::PackageFormat;
use crate::text::{path_join, same_text, join_path};

verus! {

/// The dpkg status database of Debian-based systems.
pub const DEBIAN_DATABASE: &'static str = "/var/lib/dpkg/status";

/// Where the package manager keeps its files on Unix systems.
pub const UNIX_INSTALL_DIR: &'static str = "/opt/opm/";

/// The words of `/etc/issue` that name a distribution.
pub const DISTRO_PATTERN: &'static str = "\\b(Debian|Ubuntu|Mint|Arch|Kernel)\\b";

/// Operating systems.
#[derive(Debug, Clone, Copy, PartialEq, Eq, Structural)]
pub enum OS {
    Windows,
    Linux(Distro),
    Mac,
    Unknown,
}

/// Linux distributions.
#[derive(Debug, Clone, Copy, PartialEq, Eq, Structural)]
pub enum Distro {
    Arch,
    Debian,
    Ubuntu,
    OpenSuse,
    Unknown,
}

/// Processor architectures.
#[derive(Debug, Clone, Copy, PartialEq, Eq, Structural)]
pub enum Archs {
    Amd64,
    I386,
    Unknown,
}

/// What the package manager knows of the system it runs on.
#[derive(Debug, Clone)]
pub struct OsInfo {
    pub os: OS,
    pub arch: Archs,
    pub previous_db: Option<String>,
    pub default_package_format: PackageFormat,
    pub install_dir: String,
}

/// The first match of a regular expression in a text, as the `regex` crate
/// finds it: `None` when the pattern does not compile, `Some(None)` when it
/// does not match, `Some(Some(m))` for the leftmost-first match `m`.
pub uninterp spec fn regex_first_match(pattern: Seq<char>, text: Seq<char>) -> Option<
    Option<Seq<char>>,
>;

/// One of the words that `DISTRO_PATTERN` lists.
pub open spec fn distro_word(w: Seq<char>) -> bool {
    w == "Debian"@ || w == "Ubuntu"@ || w == "Mint"@ || w == "Arch"@ || w == "Kernel"@
}

/// Trusted: compiles `pattern` with `regex::Regex::new` and returns the text of
/// `Regex::find` on `text`. The contract claims that the result is a
/// function of the two arguments, named `regex_first_match`, and one fact
/// of regular expressions: `DISTRO_PATTERN` compiles, and on a text that is
/// exactly one of the words it lists, its first match is the whole text
/// (the word boundaries fall at the text's two ends). What the regex engine
/// matches otherwise is not stated.
#[verifier::external_body]
fn first_match(pattern: &str, text: &str) -> (r: Option<Option<String>>)
    ensures
        match r {
            None => regex_first_match(pattern@, text@) is None,
            Some(None) => regex_first_match(pattern@, text@) == Some(None::<Seq<char>>),
            Some(Some(m)) => regex_first_match(pattern@, text@) == Some(Some(m@)),
        },
        pattern@ == DISTRO_PATTERN@ && distro_word(text@) ==> (match r {
            Some(Some(m)) => m@ == text@,
            _ => false,
        }),
{
    match regex::Regex::new(pattern) {
        Ok(re) => match re.find(text) {
            Some(m) => Some(Some(m.as_str().to_string())),
            None => Some(None),
        },
        Err(_) => None,
    }
}

/// The distribution that a word of `/etc/issue` names; `Arch` only where
/// `/etc/arch-release` exists.
pub open spec fn distro_of_word(word: Seq<char>, arch_release_exists: bool) -> Distro {
    if word == "Debian"@ {
        Distro::Debian
    } else if word == "Ubuntu"@ {
        Distro::Ubuntu
    } else if word == "Arch"@ && arch_release_exists {
        Distro::Arch
    } else if word == "Kernel"@ {
        Distro::OpenSuse
    } else {
        Distro::Unknown
    }
}

/// The name of a distribution, as `/etc/issue` shows it.
pub open spec fn distro_name(d: Distro) -> Seq<char> {
    match d {
        Distro::Debian => "Debian"@,
        Distro::Ubuntu => "Ubuntu"@,
        Distro::Arch => "Arch"@,
        Distro::OpenSuse => "Kernel"@,
        Distro::Unknown => "Unknown"@,
    }
}

/// The name of every known distribution is a word of the pattern, and read
/// as a word of `/etc/issue` gives that distribution back (`Arch` where
/// `/etc/arch-release` exists).
pub proof fn lemma_distro_names_read_back(d: Distro, arch_release_exists: bool)
    requires
        d != Distro::Unknown,
        d == Distro::Arch ==> arch_release_exists,
    ensures
        distro_word(distro_name(d)),
        distro_of_word(distro_name(d), arch_release_exists) == d,
{
    reveal_strlit("Debian");
    reveal_strlit("Ubuntu");
    reveal_strlit("Arch");
    reveal_strlit("Kernel");
    assert("Debian"@[0] == 'D' && "Ubuntu"@[0] == 'U' && "Arch"@[0] == 'A' && "Kernel"@[0] == 'K');
}

/// The distribution detected from the text of `/etc/issue`; `None` where the
/// pattern of distribution names cannot be compiled.
pub open spec fn spec_distro(issue: Seq<char>, arch_release_exists: bool) -> Option<Distro> {
    match regex_first_match(DISTRO_PATTERN@, issue) {
        None => None,
        Some(None) => Some(Distro::Unknown),
        Some(Some(w)) => Some(distro_of_word(w, arch_release_exists)),
    }
}

/// The operating system detected from the build platform and `/etc/issue`.
pub open spec fn spec_os(unix: bool, windows: bool, issue: Seq<char>, arch_release_exists: bool) -> Option<OS> {
    if unix {
        match spec_distro(issue, arch_release_exists) {
            Some(d) => Some(OS::Linux(d)),
            None => None,
        }
    } else if windows {
        Some(OS::Windows)
    } else {
        Some(OS::Unknown)
    }
}

/// The systems that the package manager supports: Debian and Ubuntu.
pub open spec fn supported(os: OS) -> bool {
    os == OS::Linux(Distro::Debian) || os == OS::Linux(Distro::Ubuntu)
}

impl Distro {
    /// Detects the distribution from the contents of `/etc/issue` and whether
    /// `/etc/arch-release` exists.
    pub fn get_distro(issue: &str, arch_release_exists: bool) -> (res: Result<Self, ConfigError>)
        ensures
            match spec_distro(issue@, arch_release_exists) {
                Some(d) => res == Ok::<Distro, ConfigError>(d),
                None => res is Err,
            },
            forall|d: Distro|
                d != Distro::Unknown && issue@ == #[trigger] distro_name(d) && (d == Distro::Arch
                    ==> arch_release_exists) ==> res == Ok::<Distro, ConfigError>(d),
    {
        let found = first_match(DISTRO_PATTERN, issue);
        proof {
            assert forall|d: Distro|
                d != Distro::Unknown && issue@ == #[trigger] distro_name(d) && (d == Distro::Arch
                    ==> arch_release_exists) implies spec_distro(issue@, arch_release_exists) == Some(d) by {
                lemma_distro_names_read_back(d, arch_release_exists);
            }
        }
        match found {
            None => Err(ConfigError::UnexError { msg: "invalid distribution pattern".to_owned(), err: None }),
            Some(None) => Ok(Distro::Unknown),
            Some(Some(word)) => {
                let w = word.as_str();
                if same_text(w, "Debian") {
                    Ok(Distro::Debian)
                } else if same_text(w, "Ubuntu") {
                    Ok(Distro::Ubuntu)
                } else if same_text(w, "Arch") && arch_release_exists {
                    Ok(Distro::Arch)
                } else if same_text(w, "Kernel") {
                    Ok(Distro::OpenSuse)
                } else {
                    Ok(Distro::Unknown)
                }
            },
        }
    }

    /// The distribution's name.
    pub fn to_string(&self) -> (r: String)
        ensures
            r@ == distro_name(*self),
    {
        match self {
            Distro::Debian => "Debian".to_owned(),
            Distro::Ubuntu => "Ubuntu".to_owned(),
            Distro::Arch => "Arch".to_owned(),
            Distro::OpenSuse => "Kernel".to_owned(),
            Distro::Unknown => "Unknown".to_owned(),
        }
    }
}

impl OS {
    /// Detects the operating system: a Unix build runs on Linux with the
    /// distribution that `/etc/issue` names, a Windows build on Windows.
    pub fn get_os(unix: bool, windows: bool, issue: &str, arch_release_exists: bool) -> (res: Result<OS, ConfigError>)
        ensures
            match spec_os(unix, windows, issue@, arch_release_exists) {
                Some(os) => res == Ok::<OS, ConfigError>(os),
                None => res is Err,
            },
            forall|d: Distro|
                unix && d != Distro::Unknown && issue@ == #[trigger] distro_name(d) && (d == Distro::Arch
                    ==> arch_release_exists) ==> res == Ok::<OS, ConfigError>(OS::Linux(d)),
    {
        if unix {
            match Distro::get_distro(issue, arch_release_exists) {
                Ok(d) => Ok(OS::Linux(d)),
                Err(e) => Err(e),
            }
        } else if windows {
            Ok(OS::Windows)
        } else {
            Ok(OS::Unknown)
        }
    }
}

/// The architecture that a build-target name stands for.
pub open spec fn spec_arch(target_arch: Seq<char>) -> Archs {
    if target_arch == "x86_64"@ {
        Archs::Amd64
    } else if target_arch == "x86"@ {
        Archs::I386
    } else {
        Archs::Unknown
    }
}

impl Archs {
    /// The architecture named by the build target (`std::env::consts::ARCH`).
    pub fn get_arch(target_arch: &str) -> (r: Self)
        ensures
            r == spec_arch(target_arch@),
    {
        if same_text(target_arch, "x86_64") {
            Archs::Amd64
        } else if same_text(target_arch, "x86") {
            Archs::I386
        } else {
            Archs::Unknown
        }
    }

    /// The Debian name of the architecture.
    pub fn to_string(&self) -> (r: String)
        ensures
            r@ == match self {
                Archs::Amd64 => "amd64"@,
                Archs::I386 => "i386"@,
                Archs::Unknown => "unknown"@,
            },
    {
        match self {
            Archs::Amd64 => "amd64".to_owned(),
            Archs::I386 => "i386".to_owned(),
            Archs::Unknown => "unknown".to_owned(),
        }
    }
}

impl OsInfo {
    /// The system description for a supported operating system `os`, on the
    /// architecture of the build target, where `status_db_exists` tells
    /// whether the dpkg status database exists.
    pub fn new(os: OS, target_arch: &str, status_db_exists: bool) -> (res: Result<Self, ConfigError>)
        requires
            supported(os),
        ensures
            res matches Ok(info) && {
                &&& info.os == os
                &&& info.arch == spec_arch(target_arch@)
                &&& status_db_exists ==> (info.previous_db matches Some(p) && p@ == DEBIAN_DATABASE@)
                &&& !status_db_exists ==> info.previous_db is None
                &&& info.default_package_format == PackageFormat::Deb
                &&& info.install_dir@ == join_path(UNIX_INSTALL_DIR@, "deb"@)
            },
    {
        let arch = Archs::get_arch(target_arch);
        let previous_db = Self::get_db(&os, status_db_exists);
        let default_package_format = match Self::get_default_package_format(&os) {
            Ok(f) => f,
            Err(e) => return Err(e),
        };
        let fmt_name = default_package_format.to_string();
        let base = Self::get_install_dir(&os);
        let install_dir = path_join(base.as_str(), fmt_name.as_str());
        Ok(Self { os, arch, previous_db, default_package_format, install_dir })
    }

    /// A copy of this description.
    pub fn duplicate(&self) -> (r: Self)
        ensures
            r.os == self.os,
            r.arch == self.arch,
            r.default_package_format == self.default_package_format,
            r.install_dir@ == self.install_dir@,
            match (r.previous_db, self.previous_db) {
                (Some(a), Some(b)) => a@ == b@,
                (None, None) => true,
                _ => false,
            },
    {
        let previous_db = match &self.previous_db {
            Some(p) => Some(p.clone()),
            None => None,
        };
        OsInfo {
            os: self.os,
            arch: self.arch,
            previous_db,
            default_package_format: self.default_package_format,
            install_dir: self.install_dir.clone(),
        }
    }

    /// The package database that the system already has: the dpkg status
    /// file on Debian and Ubuntu where it exists.
    fn get_db(os: &OS, status_db_exists: bool) -> (r: Option<String>)
        requires
            supported(*os),
        ensures
            status_db_exists ==> (r matches Some(p) && p@ == DEBIAN_DATABASE@),
            !status_db_exists ==> r is None,
    {
        Self::check_exists(DEBIAN_DATABASE, status_db_exists)
    }

    /// The package format that the system uses.
    fn get_default_package_format(os: &OS) -> (r: Result<PackageFormat, ConfigError>)
        requires
            PackageFormat::format_defined(*os),
        ensures
            r == Ok::<PackageFormat, ConfigError>(PackageFormat::spec_format(*os)),
    {
        PackageFormat::get_format(os)
    }

    /// The directory under which the package manager keeps its files.
    fn get_install_dir(os: &OS) -> (r: String)
        requires
            os matches OS::Linux(d) && d != Distro::Unknown,
        ensures
            r@ == UNIX_INSTALL_DIR@,
    {
        UNIX_INSTALL_DIR.to_owned()
    }

    /// `path`, where it exists.
    fn check_exists(path: &str, exists: bool) -> (r: Option<String>)
        ensures
            exists ==> (r matches Some(p) && p@ == path@),
            !exists ==> r is None,
    {
        if exists {
            Some(path.to_owned())
        } else {
            None
        }
    }
}

} // verus!
