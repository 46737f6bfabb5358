//! The path resolver: where an entry of the store lives on disk.
//!
//! Every file of the store stands at `root/namespace/filename`, where the
//! root is the platform's per-user configuration directory. Paths are joined
//! textually with `/`. The scalar store derives the filename from a bare key
//! by appending its fixed `.txt` extension and lower-casing the whole; the
//! custom store uses the caller's filename verbatim.

use vstd::prelude::*;

use crate::error::PrefError;
use crate::platform::system_config_root;
use crate::text::{lower_seq, to_lower};

verus! {

/// `root/app/name`, joined textually with `/`.
pub open spec fn joined_path(root: Seq<char>, app: Seq<char>, name: Seq<char>) -> Seq<char> {
    root + seq!['/'] + app + seq!['/'] + name
}

/// The scalar store's file name for a bare key: the key with `.txt`
/// appended, the whole lower-cased.
pub open spec fn scalar_name(key: Seq<char>) -> Seq<char> {
    lower_seq(key + seq!['.', 't', 'x', 't'])
}

/// The file base name the scalar store uses for a bare key.
pub fn default_name(filename: String) -> (r: String)
    ensures
        r@ == scalar_name(filename@),
{
    let with_ext = filename.concat(".txt");
    proof {
        reveal_strlit(".txt");
        assert(with_ext@ =~= filename@ + seq!['.', 't', 'x', 't']);
    }
    to_lower(with_ext.as_str())
}

/// The file name the custom store uses: the caller's, verbatim.
pub fn custom_file_name(filename: String) -> (r: String)
    ensures
        r@ == filename@,
{
    filename
}

/// Joins `root/app_name/filename` textually: the computing half of path
/// resolution, usable with any root.
pub fn path_under(root: &str, app_name: &str, filename: &str) -> (r: String)
    ensures
        r@ == joined_path(root@, app_name@, filename@),
{
    let r = root.to_owned().concat("/").concat(app_name).concat("/").concat(filename);
    proof {
        reveal_strlit("/");
    }
    r
}

/// The directory that holds all of `app_name`'s entries: the namespace
/// joined beneath the user configuration root.
pub fn config_folder_path(app_name: &str) -> (r: Result<String, PrefError>)
    ensures
        match r {
            Ok(p) => exists|root: Seq<char>| p@ == root + seq!['/'] + app_name@,
            Err(e) => e == PrefError::ConfigDirectoryUnavailable,
        },
{
    match system_config_root() {
        Some(root) => {
            let ghost root_view = root@;
            let p = root.concat("/").concat(app_name);
            proof {
                reveal_strlit("/");
                assert(p@ == root_view + seq!['/'] + app_name@);
            }
            Ok(p)
        },
        None => Err(PrefError::ConfigDirectoryUnavailable),
    }
}

/// The directory path for `app_name`'s entries.
pub fn prefstore_directory(app_name: &String) -> (r: Result<String, PrefError>)
    ensures
        match r {
            Ok(p) => exists|root: Seq<char>| p@ == root + seq!['/'] + app_name@,
            Err(e) => e == PrefError::ConfigDirectoryUnavailable,
        },
{
    config_folder_path(app_name.as_str())
}

/// The on-disk path of the scalar entry for `(app_name, filename)`.
pub fn config_path(app_name: &str, filename: &str) -> (r: Result<String, PrefError>)
    ensures
        match r {
            Ok(p) => exists|root: Seq<char>|
                p@ == joined_path(root, app_name@, scalar_name(filename@)),
            Err(e) => e == PrefError::ConfigDirectoryUnavailable,
        },
{
    match system_config_root() {
        Some(root) => {
            let name = default_name(filename.to_owned());
            let ghost root_view = root@;
            let p = path_under(root.as_str(), app_name, name.as_str());
            proof {
                assert(p@ == joined_path(root_view, app_name@, scalar_name(filename@)));
            }
            Ok(p)
        },
        None => Err(PrefError::ConfigDirectoryUnavailable),
    }
}

/// The on-disk path of the custom entry for `(app_name, filename)`.
pub fn customfile_path(app_name: &str, filename: &str) -> (r: Result<String, PrefError>)
    ensures
        match r {
            Ok(p) => exists|root: Seq<char>| p@ == joined_path(root, app_name@, filename@),
            Err(e) => e == PrefError::ConfigDirectoryUnavailable,
        },
{
    match system_config_root() {
        Some(root) => {
            let ghost root_view = root@;
            let p = path_under(root.as_str(), app_name, filename);
            proof {
                assert(p@ == joined_path(root_view, app_name@, filename@));
            }
            Ok(p)
        },
        None => Err(PrefError::ConfigDirectoryUnavailable),
    }
}

} // verus!
