//! Package formats as the command line names them, and their detection from
//! `/etc/issue`.

use vstd::prelude::*;

use crate::errors::ConfigError;
use crate::text::{contains_seq, find_in, same_text, to_chars};

verus! {

/// The package formats that the command line names.
#[derive(Debug, Clone, Copy, PartialEq, Eq, Structural)]
pub enum PackageFormat {
    Deb,
    Rpm,
    Other,
}

/// `/etc/issue` names a Debian-based distribution.
pub open spec fn debian_like(issue: Seq<char>) -> bool {
    contains_seq(issue, "Debian"@) || contains_seq(issue, "Ubuntu"@)
}

/// The names of the formats.
pub open spec fn format_named(fmt: Seq<char>) -> bool {
    fmt == "deb"@ || fmt == "rpm"@ || fmt == "oth"@
}

impl PackageFormat {
    /// The package format of a Unix system whose `/etc/issue` has the
    /// contents `issue`: Debian-based systems use deb, systems without
    /// `/etc/arch-release` that are not Debian-based rpm, and systems with
    /// both marks are unknown. Arch systems are refused.
    pub fn get_format(issue: &str, arch_release_exists: bool) -> (res: Result<Self, ConfigError>)
        requires
            !(arch_release_exists && !debian_like(issue@)),
        ensures
            res == Ok::<PackageFormat, ConfigError>(
                if !arch_release_exists && debian_like(issue@) {
                    PackageFormat::Deb
                } else if !arch_release_exists {
                    PackageFormat::Rpm
                } else {
                    PackageFormat::Other
                },
            ),
    {
        let t = to_chars(issue);
        assert(t@.subrange(0, t.len() as int) =~= t@);
        let debian = to_chars("Debian");
        let ubuntu = to_chars("Ubuntu");
        assert(debian@.len() > 0) by {
            reveal_strlit("Debian");
        }
        assert(ubuntu@.len() > 0) by {
            reveal_strlit("Ubuntu");
        }
        let is_debian = find_in(&t, 0, t.len(), &debian).is_some() || find_in(&t, 0, t.len(), &ubuntu).is_some();
        if !arch_release_exists && is_debian {
            Ok(PackageFormat::Deb)
        } else if !arch_release_exists {
            Ok(PackageFormat::Rpm)
        } else {
            Ok(PackageFormat::Other)
        }
    }

    /// The format named `deb`, `rpm` or `oth`.
    pub fn from(fmt: &str) -> (r: Self)
        requires
            format_named(fmt@),
        ensures
            fmt@ == "deb"@ ==> r == PackageFormat::Deb,
            fmt@ != "deb"@ && fmt@ == "rpm"@ ==> r == PackageFormat::Rpm,
            fmt@ != "deb"@ && fmt@ != "rpm"@ ==> r == PackageFormat::Other,
    {
        if same_text(fmt, "deb") {
            PackageFormat::Deb
        } else if same_text(fmt, "rpm") {
            PackageFormat::Rpm
        } else {
            PackageFormat::Other
        }
    }
}

} // verus!
