//! A per-application, file-backed key-value preference store, verified over an
//! explicit model of the directory tree beneath the user configuration root.
//!
//! Each (application namespace, filename) pair identifies one flat text file.
//! The scalar operations derive the filename from a bare key (lower-cased, with
//! a `.txt` extension appended); the custom operations take the filename
//! verbatim. On top of the plain save/get/append/clear primitives sit a bounded
//! ring buffer persisted as a newline-delimited file and a bulk enumerator that
//! lists all files with a given extension.
//!
//! The store itself is a value of type [`PrefStore`]: an ordered collection of
//! (namespace, filename, content) entries with no duplicate (namespace,
//! filename) pair. Every operation is specified by a pure effect function over
//! that model. Binding the model to an actual filesystem is left to the caller;
//! the path-derivation functions say where each entry lives on disk.

pub mod buffer;
pub mod error;
pub mod laws;
pub mod listing;
pub mod model;
pub mod parse;
pub mod paths;
pub mod platform;
pub mod store;
pub mod text;

pub use buffer::{get_last_from_buffer, getbuffer, saveStringtobuffer, saveVecOfStrings,
    savebuffer};
pub use error::PrefError;
pub use listing::{getall, getallcustom, getallcustomwithin};
pub use parse::ems;
pub use paths::{config_folder_path, config_path, custom_file_name, customfile_path, default_name,
    path_under, prefstore_directory};
pub use store::{appendcustom, appendcustomnewline, clearall, clearcustom, clearpreference,
    getcustom, getpreference, getpreferencenodefault, initcustomfile, opencustomperlinetovec,
    savecustom, savepreference, PrefStore};
