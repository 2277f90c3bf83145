//! Where the files of the tool lie, below the home directory of its user.

use vstd::prelude::*;
use vstd::string::*;
use crate::path::{join, push_path};

verus! {

/// The directory of the tool below the home directory `home`.
pub open spec fn config_dir_of(home: Seq<char>) -> Seq<char> {
    home + "/.config/snapsr"@
}

/// The directory of the tool below the home directory `home`: the home
/// directory with `/.config/snapsr` behind it.
pub fn get_snap_config_dir(home: &str) -> (dir: String)
    ensures
        dir@ == config_dir_of(home@),
{
    let mut dir = String::from_str(home);
    dir.append("/.config/snapsr");
    dir
}

/// The directory that holds the snapshots: the home directory with
/// `/.config/snapsr/snaps` behind it.
pub fn get_snaps_dir(home: &str) -> (dir: String)
    ensures
        dir@ == home@ + "/.config/snapsr/snaps"@,
{
    let mut dir = String::from_str(home);
    dir.append("/.config/snapsr/snaps");
    dir
}

/// The directory of the snapshot `snap_name` inside `snaps_dir`.
pub fn snap_dir(snaps_dir: &str, snap_name: &str) -> (dir: String)
    ensures
        dir@ == push_path(snaps_dir@, snap_name@),
{
    join(snaps_dir, snap_name)
}

/// The file that holds the record of the snapshot in `snap_dir`.
pub fn metadata_path(snap_dir: &str) -> (file: String)
    ensures
        file@ == push_path(snap_dir@, "snap.json"@),
{
    join(snap_dir, "snap.json")
}

/// The file that holds the registry.
pub fn registry_path(config_dir: &str) -> (file: String)
    ensures
        file@ == push_path(config_dir@, "snaplog.json"@),
{
    join(config_dir, "snaplog.json")
}

/// The file that holds the configuration, unless another one is named.
pub fn default_config_path(config_dir: &str) -> (file: String)
    ensures
        file@ == push_path(config_dir@, "config.toml"@),
{
    join(config_dir, "config.toml")
}

/// The file that a template directive with the name `name` stands for.
pub fn template_path(config_dir: &str, name: &str) -> (file: String)
    ensures
        file@ == push_path(push_path(config_dir@, "templates"@), name@),
{
    let dir = join(config_dir, "templates");
    join(dir.as_str(), name)
}

} // verus!
