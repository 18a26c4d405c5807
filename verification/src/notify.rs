//! Whether the running program is a local build: such a build has no
//! registered application id for system notifications yet.
use vstd::prelude::*;
use crate::paths::{
    all_plain_names, file_name, file_name_of, parent, parent_of, parts_of, path_components,
    plain_path_parts, plain_path_text, PathComponent, PathPart,
};
use crate::registry::str_eq;

verus! {

/// The event the front end hears when the user clicks a notification.
pub const NOTIFICATION_CLICKED_EVENT: &'static str = "notification-clicked";

/// Whether the parts of the program's path put it in `target/debug` or
/// `target/release`: its directory is named `debug` or `release`, and that
/// directory's parent is named `target`.
pub open spec fn dev_build_parts(exe: Seq<PathPart>) -> bool {
    match parent_of(exe) {
        Some(dir) => {
            &&& (file_name_of(dir) == Some("debug"@) || file_name_of(dir) == Some("release"@))
            &&& match parent_of(dir) {
                Some(up) => file_name_of(up) == Some("target"@),
                None => false,
            }
        },
        None => false,
    }
}

fn named(name: &Option<String>, expected: &str) -> (res: bool)
    ensures
        res == (name matches Some(n) && n@ == expected@),
{
    match name {
        Some(n) => str_eq(n.as_str(), expected),
        None => false,
    }
}

/// Whether a program at the path with these components is a local build
/// (see `dev_build_parts`).
pub fn is_dev_build_path(exe: &Vec<PathComponent>) -> (res: bool)
    ensures
        res == dev_build_parts(parts_of(exe@)),
{
    let dir = match parent(exe) {
        Some(d) => d,
        None => {
            return false;
        },
    };
    let dir_name = file_name(&dir);
    let is_profile = named(&dir_name, "debug") || named(&dir_name, "release");
    let up = match parent(&dir) {
        Some(u) => u,
        None => {
            return false;
        },
    };
    let up_name = file_name(&up);
    let under_target = named(&up_name, "target");
    is_profile && under_target
}

/// Whether the program at `exe_path`, parsed with the platform's path
/// rules, is a local build (see `dev_build_parts`). For a path written from
/// plain names, which every platform reads alike, the result is stated; the
/// reading of other paths is the platform's.
pub fn running_from_target_dir(exe_path: &str) -> (res: bool)
    ensures
        forall|rooted: bool, names: Seq<Seq<char>>|
            all_plain_names(names) && exe_path@ == #[trigger] plain_path_text(rooted, names) ==> res
                == dev_build_parts(plain_path_parts(rooted, names)),
{
    let cs = path_components(exe_path);
    is_dev_build_path(&cs)
}

} // verus!
