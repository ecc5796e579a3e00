//! The package manager's configuration: where it keeps its cache, archives,
//! package information and database.

use vstd::prelude::*;

use crate::errors::ConfigError;
use crate::os_fingerprint::OsInfo;
use crate::text::{join_path, path_join};

verus! {

/// The configuration, as `config.json` holds it.
#[derive(Debug)]
pub struct Config {
    pub os_info: OsInfo,
    pub cache: String,
    pub rls: String,
    pub archive: String,
    pub info: String,
    pub tmp: String,
    pub db: String,
    pub use_pre_existing_cache: bool,
    pub use_pre_existing_db: bool,
}

impl Config {
    /// The default configuration for a system: every directory lies under
    /// the system's installation directory, and neither the system's own
    /// package cache nor its database is used.
    pub fn new(os_info: &OsInfo) -> (res: Result<Self, ConfigError>)
        ensures
            res matches Ok(c) && {
                let dir = os_info.install_dir@;
                &&& c.os_info.os == os_info.os
                &&& c.os_info.arch == os_info.arch
                &&& c.os_info.default_package_format == os_info.default_package_format
                &&& c.os_info.install_dir@ == dir
                &&& match (c.os_info.previous_db, os_info.previous_db) {
                    (Some(a), Some(b)) => a@ == b@,
                    (None, None) => true,
                    _ => false,
                }
                &&& c.cache@ == join_path(dir, "cache/pkg"@)
                &&& c.rls@ == join_path(dir, "cache/rls"@)
                &&& c.tmp@ == join_path(dir, "tmp"@)
                &&& c.archive@ == join_path(dir, "archive"@)
                &&& c.info@ == join_path(dir, "info"@)
                &&& c.db@ == join_path(dir, "db"@)
                &&& !c.use_pre_existing_cache
                &&& !c.use_pre_existing_db
            },
    {
        let dir = os_info.install_dir.as_str();
        Ok(
            Self {
                os_info: os_info.duplicate(),
                cache: path_join(dir, "cache/pkg"),
                rls: path_join(dir, "cache/rls"),
                tmp: path_join(dir, "tmp"),
                archive: path_join(dir, "archive"),
                info: path_join(dir, "info"),
                db: path_join(dir, "db"),
                use_pre_existing_cache: false,
                use_pre_existing_db: false,
            },
        )
    }
}

} // verus!
