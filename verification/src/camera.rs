//! Camera profiles: how a camera's card is recognised and where its media lie.

use vstd::prelude::*;

use crate::text::copy_strings;

verus! {

/// A camera that the importer knows.
pub struct CameraProfile {
    /// The camera's name.
    pub name: String,
    /// Paths, relative to the card root, that all exist on this camera's cards.
    pub signature_paths: Vec<String>,
    /// Directories, relative to the card root, that hold the media; when
    /// empty the whole card is scanned.
    pub media_roots: Vec<String>,
}

impl CameraProfile {
    /// A profile with an empty name and no paths.
    pub fn new() -> (res: Self)
        ensures
            res.name@ == Seq::<char>::empty(),
            res.signature_paths@.len() == 0,
            res.media_roots@.len() == 0,
    {
        CameraProfile { name: String::new(), signature_paths: Vec::new(), media_roots: Vec::new() }
    }
}

impl Clone for CameraProfile {
    fn clone(&self) -> (res: Self)
        ensures
            res.name == self.name,
            res.signature_paths@ == self.signature_paths@,
            res.media_roots@ == self.media_roots@,
    {
        CameraProfile {
            name: self.name.clone(),
            signature_paths: copy_strings(&self.signature_paths),
            media_roots: copy_strings(&self.media_roots),
        }
    }
}

} // verus!
