//! Verified core of an importer that copies camera-card media into a
//! destination tree sorted by camera model.
//!
//! The library decides; the caller does the file-system work and hands the
//! library what it found (which paths exist, file contents, sidecar text).

pub mod camera;
pub mod config;
pub mod dedup;
pub mod hash;
pub mod importer;
pub mod media;
pub mod metadata;
pub mod naming;
pub mod paths;
pub mod text;

use vstd::prelude::*;

verus! {

/// The greeting shown by the front end: `Hello, NAME! You've been greeted from Rust!`.
pub fn greet(name: &str) -> (res: String)
    ensures
        res@ == "Hello, "@ + name@ + "! You've been greeted from Rust!"@,
{
    let mut out = text::chars_of("Hello, ");
    let middle = text::chars_of(name);
    text::push_all(&mut out, &middle);
    let tail = text::chars_of("! You've been greeted from Rust!");
    text::push_all(&mut out, &tail);
    text::string_of(out.as_slice())
}

/// Copying to a destination path: does nothing yet.
pub fn copy_files(_dest_path: String) {
}

} // verus!
