//! Package formats.

use vstd::prelude::*;

use crate::errors::ConfigError;
use crate::os_fingerprint::{Distro, OS};

verus! {

pub const DEB: &'static str = "deb";
pub const RPM: &'static str = "rpm";
pub const PKG: &'static str = "pkg";
pub const UNKNOWN: &'static str = "unknown";

/// The package formats.
#[derive(Debug, Clone, Copy, PartialEq, Eq, Structural)]
pub enum PackageFormat {
    Deb,
    Rpm,
    Pkg,
    Unknown,
}

impl PackageFormat {
    /// The systems whose package format is known (the others are refused).
    pub open spec fn format_defined(os: OS) -> bool {
        os matches OS::Linux(d) && d != Distro::Arch
    }

    /// The package format of a system.
    pub open spec fn spec_format(os: OS) -> PackageFormat {
        match os {
            OS::Linux(Distro::Debian) | OS::Linux(Distro::Ubuntu) => PackageFormat::Deb,
            OS::Linux(Distro::OpenSuse) => PackageFormat::Rpm,
            _ => PackageFormat::Unknown,
        }
    }

    /// The package format of a Linux system other than Arch.
    pub fn get_format(os: &OS) -> (r: Result<Self, ConfigError>)
        requires
            Self::format_defined(*os),
        ensures
            r == Ok::<PackageFormat, ConfigError>(Self::spec_format(*os)),
    {
        match os {
            OS::Linux(Distro::Debian) | OS::Linux(Distro::Ubuntu) => Ok(PackageFormat::Deb),
            OS::Linux(Distro::OpenSuse) => Ok(PackageFormat::Rpm),
            _ => Ok(PackageFormat::Unknown),
        }
    }

    /// The format's name.
    pub fn to_string(&self) -> (r: String)
        ensures
            r@ == match self {
                PackageFormat::Deb => DEB@,
                PackageFormat::Rpm => RPM@,
                PackageFormat::Pkg => PKG@,
                PackageFormat::Unknown => UNKNOWN@,
            },
    {
        match self {
            PackageFormat::Deb => DEB.to_owned(),
            PackageFormat::Rpm => RPM.to_owned(),
            PackageFormat::Pkg => PKG.to_owned(),
            PackageFormat::Unknown => UNKNOWN.to_owned(),
        }
    }
}

} // verus!
