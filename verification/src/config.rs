//! The importer's configuration.

use vstd::prelude::*;

use crate::camera::CameraProfile;

verus! {

/// Binds one card, by its mount path, to a fixed sub-directory of the
/// destination and, optionally, to a camera name.
pub struct SdCardMapping {
    /// Mount path of the card.
    pub root: String,
    /// Sub-directory of the destination root that this card's media go to.
    pub target_subdir: String,
    /// Camera name to use for this card when a file names none.
    pub camera_override: Option<String>,
}

impl Clone for SdCardMapping {
    fn clone(&self) -> (res: Self)
        ensures
            res == *self,
    {
        let camera_override = match &self.camera_override {
            Some(name) => Some(name.clone()),
            None => None,
        };
        SdCardMapping {
            root: self.root.clone(),
            target_subdir: self.target_subdir.clone(),
            camera_override,
        }
    }
}

/// Everything the importer is configured with.
pub struct Config {
    /// Root directory that media are copied under.
    pub destination_root: String,
    /// Known cameras, in the order they are tried.
    pub cameras: Vec<CameraProfile>,
    /// Video file extensions to copy.
    pub video_exts: Vec<String>,
    /// Photo file extensions to copy.
    pub photo_exts: Vec<String>,
    /// Per-card settings.
    pub sd_cards: Vec<SdCardMapping>,
}

impl Config {
    /// An empty configuration: no destination, cameras, extensions or cards.
    pub fn new() -> (res: Self)
        ensures
            res.destination_root@ == Seq::<char>::empty(),
            res.cameras@.len() == 0,
            res.video_exts@.len() == 0,
            res.photo_exts@.len() == 0,
            res.sd_cards@.len() == 0,
    {
        Config {
            destination_root: String::new(),
            cameras: Vec::new(),
            video_exts: Vec::new(),
            photo_exts: Vec::new(),
            sd_cards: Vec::new(),
        }
    }
}

} // verus!
