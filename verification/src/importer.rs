//! Planning an import: which camera a card belongs to, where its media go,
//! and the report of what was copied.

use vstd::prelude::*;

use crate::camera::CameraProfile;
use crate::config::{Config, SdCardMapping};
use crate::media::{configured_exts, contains_text, normalized_exts, views};
use crate::naming::{sanitize_component, sanitized, unknown_camera};
use crate::paths::{
    joined, lemma_relative_is_relative, lies_under, path_eq, path_join, path_relative_to,
    relative_to, same_path,
};
use crate::text::{chars_of, push_all, string_of, text_of, trim_chars, trimmed, Strip};

verus! {

/// All signature paths of `cam` are among the paths found on the card, and
/// there is at least one.
pub open spec fn camera_matches(cam: CameraProfile, present: Seq<Seq<char>>) -> bool {
    &&& cam.signature_paths@.len() > 0
    &&& forall|k: int|
        0 <= k < cam.signature_paths@.len() ==> present.contains(
            #[trigger] cam.signature_paths@[k]@,
        )
}

/// The first camera at or after `i` that matches the card.
pub open spec fn first_camera_from(
    cams: Seq<CameraProfile>,
    present: Seq<Seq<char>>,
    i: int,
) -> Option<int>
    decreases cams.len() - i,
{
    if i < 0 || i >= cams.len() {
        None
    } else if camera_matches(cams[i], present) {
        Some(i)
    } else {
        first_camera_from(cams, present, i + 1)
    }
}

/// The index of the camera a card belongs to: the first configured camera
/// whose signature paths all exist on the card.
pub open spec fn detected_camera(config: &Config, present: Seq<Seq<char>>) -> Option<int> {
    first_camera_from(config.cameras@, present, 0)
}

/// Two profiles hold the same name and paths.
pub open spec fn same_profile(a: CameraProfile, b: CameraProfile) -> bool {
    &&& a.name == b.name
    &&& a.signature_paths@ == b.signature_paths@
    &&& a.media_roots@ == b.media_roots@
}

fn camera_matches_exec(cam: &CameraProfile, present: &Vec<String>) -> (res: bool)
    ensures
        res == camera_matches(*cam, views(present@)),
{
    if cam.signature_paths.len() == 0 {
        return false;
    }
    let mut k: usize = 0;
    while k < cam.signature_paths.len()
        invariant
            k <= cam.signature_paths.len(),
            forall|j: int|
                0 <= j < k ==> views(present@).contains(#[trigger] cam.signature_paths@[j]@),
        decreases cam.signature_paths.len() - k,
    {
        if !contains_text(present, &chars_of(cam.signature_paths[k].as_str())) {
            return false;
        }
        k += 1;
    }
    true
}

/// Finds the camera whose card structure matches, given which signature
/// paths (relative to the card root) exist on the card.
pub fn detect_camera(config: &Config, present: &Vec<String>) -> (res: Option<CameraProfile>)
    ensures
        match detected_camera(config, views(present@)) {
            Some(i) => res is Some && same_profile(res->0, config.cameras@[i]),
            None => res is None,
        },
{
    let mut i: usize = 0;
    while i < config.cameras.len()
        invariant
            i <= config.cameras.len(),
            detected_camera(config, views(present@)) == first_camera_from(
                config.cameras@,
                views(present@),
                i as int,
            ),
        decreases config.cameras.len() - i,
    {
        if camera_matches_exec(&config.cameras[i], present) {
            return Some(config.cameras[i].clone());
        }
        i += 1;
    }
    None
}

/// The canonical form of the `i`-th mapping root, if it was found.
pub open spec fn canonical_at(v: Seq<Option<String>>, i: int) -> Option<Seq<char>> {
    if 0 <= i < v.len() {
        text_of(v[i])
    } else {
        None
    }
}

/// A mapping belongs to the card when the canonical forms of both paths
/// are known and are the same path, or, when the card root has no canonical
/// form, when the mapping's root is the same path as the card root.
pub open spec fn mapping_matches(
    map_root: Seq<char>,
    canonical_map: Option<Seq<char>>,
    sd_root: Seq<char>,
    canonical_root: Option<Seq<char>>,
) -> bool {
    match canonical_root {
        Some(r) => canonical_map is Some && same_path(canonical_map->0, r),
        None => same_path(map_root, sd_root),
    }
}

/// The first mapping at or after `i` that belongs to the card.
pub open spec fn first_mapping_from(
    maps: Seq<SdCardMapping>,
    canonical_maps: Seq<Option<String>>,
    sd_root: Seq<char>,
    canonical_root: Option<Seq<char>>,
    i: int,
) -> Option<int>
    decreases maps.len() - i,
{
    if i < 0 || i >= maps.len() {
        None
    } else if mapping_matches(
        maps[i].root@,
        canonical_at(canonical_maps, i),
        sd_root,
        canonical_root,
    ) {
        Some(i)
    } else {
        first_mapping_from(maps, canonical_maps, sd_root, canonical_root, i + 1)
    }
}

/// The index of the card's mapping: the first configured one that belongs
/// to the card.
pub open spec fn card_mapping(
    config: &Config,
    sd_root: Seq<char>,
    canonical_root: Option<Seq<char>>,
    canonical_maps: Seq<Option<String>>,
) -> Option<int> {
    first_mapping_from(config.sd_cards@, canonical_maps, sd_root, canonical_root, 0)
}

/// Finds the configured mapping of a card. `canonical_root` is the
/// canonical form of the card root and `canonical_maps[i]` that of the
/// `i`-th mapping's root, each where it could be found.
pub fn find_card_mapping(
    sd_root: &str,
    config: &Config,
    canonical_root: &Option<String>,
    canonical_maps: &Vec<Option<String>>,
) -> (res: Option<SdCardMapping>)
    ensures
        match card_mapping(config, sd_root@, text_of(*canonical_root), canonical_maps@) {
            Some(i) => res == Some(config.sd_cards@[i]),
            None => res is None,
        },
{
    let mut i: usize = 0;
    while i < config.sd_cards.len()
        invariant
            i <= config.sd_cards.len(),
            card_mapping(config, sd_root@, text_of(*canonical_root), canonical_maps@)
                == first_mapping_from(
                config.sd_cards@,
                canonical_maps@,
                sd_root@,
                text_of(*canonical_root),
                i as int,
            ),
        decreases config.sd_cards.len() - i,
    {
        let mapping = &config.sd_cards[i];
        let canonical_map: Option<String> = if i < canonical_maps.len() {
            match &canonical_maps[i] {
                Some(c) => Some(c.clone()),
                None => None,
            }
        } else {
            None
        };
        let matched = match (canonical_root, &canonical_map) {
            (Some(r), Some(m)) => path_eq(m.as_str(), r.as_str()),
            (Some(_), None) => false,
            (None, _) => path_eq(mapping.root.as_str(), sd_root),
        };
        if matched {
            return Some(mapping.clone());
        }
        i += 1;
    }
    None
}


/// Why a card cannot be imported.
#[derive(Debug, PartialEq, Eq, Structural)]
pub enum ImportError {
    /// The card path does not exist.
    SdCardNotFound,
    /// The configuration names no destination root.
    EmptyDestinationRoot,
    /// No configured camera matches the card and no mapping names one.
    UnknownCard,
}

impl ImportError {
    /// The message shown for the error.
    pub fn message(&self) -> (res: String)
        ensures
            res@ == match self {
                ImportError::SdCardNotFound => "SD card path not found"@,
                ImportError::EmptyDestinationRoot => "destination_root is empty in config.json"@,
                ImportError::UnknownCard =>
                    "SD card structure did not match any configured camera"@,
            },
    {
        match self {
            ImportError::SdCardNotFound => String::from_str("SD card path not found"),
            ImportError::EmptyDestinationRoot => String::from_str(
                "destination_root is empty in config.json",
            ),
            ImportError::UnknownCard => String::from_str(
                "SD card structure did not match any configured camera",
            ),
        }
    }
}

/// What was found out about a card on disk before an import is planned.
pub struct CardSurvey {
    /// The card's mount path, as given.
    pub sd_root: String,
    /// Whether that path exists.
    pub root_exists: bool,
    /// The canonical form of the card path, where it could be found.
    pub canonical_root: Option<String>,
    /// The canonical form of each configured mapping's root, in the order of
    /// `Config::sd_cards`, where it could be found.
    pub canonical_mapping_roots: Vec<Option<String>>,
    /// The configured signature paths (relative to the card root) that exist
    /// on the card.
    pub present_signature_paths: Vec<String>,
}

/// How a card is imported.
pub struct ImportPlan {
    /// The card's mount path.
    pub sd_root: String,
    /// Directory under which camera directories are made.
    pub target_base: String,
    /// Camera name for files whose own metadata name none.
    pub camera_fallback: String,
    /// Lower-case extensions of the files to copy, each once.
    pub extensions: Vec<String>,
    /// Directories to scan for media.
    pub scan_roots: Vec<String>,
}

/// The card's mapping, if any.
pub open spec fn mapping_of(survey: &CardSurvey, config: &Config) -> Option<SdCardMapping> {
    match card_mapping(
        config,
        survey.sd_root@,
        text_of(survey.canonical_root),
        survey.canonical_mapping_roots@,
    ) {
        Some(i) => Some(config.sd_cards@[i]),
        None => None,
    }
}

/// The card's camera, if one matches.
pub open spec fn camera_of(survey: &CardSurvey, config: &Config) -> Option<CameraProfile> {
    match detected_camera(config, views(survey.present_signature_paths@)) {
        Some(i) => Some(config.cameras@[i]),
        None => None,
    }
}

/// The mapping names a camera.
pub open spec fn has_override(mapping: Option<SdCardMapping>) -> bool {
    mapping is Some && mapping->0.camera_override is Some
}

/// The destination root, or its sub-directory that the mapping names when
/// that name is not blank.
pub open spec fn target_base_of(dest: Seq<char>, mapping: Option<SdCardMapping>) -> Seq<char> {
    match mapping {
        Some(m) => if trimmed(m.target_subdir@).len() > 0 {
            joined(dest, m.target_subdir@)
        } else {
            dest
        },
        None => dest,
    }
}

/// The fallback camera name: the mapping's camera, else the detected
/// camera's name, else `UnknownCamera`.
pub open spec fn fallback_camera_of(
    mapping: Option<SdCardMapping>,
    camera: Option<CameraProfile>,
) -> Seq<char> {
    if has_override(mapping) {
        mapping->0.camera_override->0@
    } else if camera is Some {
        camera->0.name@
    } else {
        unknown_camera()
    }
}

/// The directories to scan: the camera's media roots under the card root,
/// or the whole card when the camera has none or is unknown.
pub open spec fn scan_roots_of(sd_root: Seq<char>, camera: Option<CameraProfile>) -> Seq<
    Seq<char>,
> {
    if camera is Some && camera->0.media_roots@.len() > 0 {
        views(camera->0.media_roots@).map_values(|r: Seq<char>| joined(sd_root, r))
    } else {
        seq![sd_root]
    }
}

/// Lists the directories to scan for a card.
pub fn scan_roots(sd_root: &str, camera: &Option<CameraProfile>) -> (res: Vec<String>)
    ensures
        views(res@) == scan_roots_of(sd_root@, *camera),
{
    let mut res: Vec<String> = Vec::new();
    match camera {
        Some(cam) => {
            if cam.media_roots.len() > 0 {
                let mut i: usize = 0;
                while i < cam.media_roots.len()
                    invariant
                        i <= cam.media_roots.len(),
                        res@.len() == i,
                        forall|k: int|
                            0 <= k < i ==> (#[trigger] res@[k])@ == joined(
                                sd_root@,
                                cam.media_roots@[k]@,
                            ),
                    decreases cam.media_roots.len() - i,
                {
                    res.push(path_join(sd_root, cam.media_roots[i].as_str()));
                    i += 1;
                }
                assert(views(res@) =~= views(cam.media_roots@).map_values(
                    |r: Seq<char>| joined(sd_root@, r),
                ));
                return res;
            }
        },
        None => {},
    }
    res.push(String::from_str(sd_root));
    assert(views(res@) =~= seq![sd_root@]);
    res
}

fn fallback_camera(mapping: &Option<SdCardMapping>, camera: &Option<CameraProfile>) -> (res: String)
    ensures
        res@ == fallback_camera_of(*mapping, *camera),
{
    if let Some(m) = mapping {
        if let Some(name) = &m.camera_override {
            return name.clone();
        }
    }
    match camera {
        Some(c) => c.name.clone(),
        None => String::from_str("UnknownCamera"),
    }
}

fn is_blank(s: &str) -> (res: bool)
    ensures
        res == (trimmed(s@).len() == 0),
{
    trim_chars(&chars_of(s), Strip::Space).len() == 0
}

/// Plans the import of a card: checks that the card exists, that a
/// destination is configured and that the card's camera is known, then
/// fixes where its media go.
pub fn import_sd_card(survey: &CardSurvey, config: &Config) -> (res: Result<
    ImportPlan,
    ImportError,
>)
    ensures
        !survey.root_exists ==> res == Err::<ImportPlan, ImportError>(ImportError::SdCardNotFound),
        survey.root_exists && trimmed(config.destination_root@).len() == 0 ==> res == Err::<
            ImportPlan,
            ImportError,
        >(ImportError::EmptyDestinationRoot),
        survey.root_exists && trimmed(config.destination_root@).len() > 0 && camera_of(
            survey,
            config,
        ) is None && !has_override(mapping_of(survey, config)) ==> res == Err::<
            ImportPlan,
            ImportError,
        >(ImportError::UnknownCard),
        res is Ok <==> survey.root_exists && trimmed(config.destination_root@).len() > 0 && (
        camera_of(survey, config) is Some || has_override(mapping_of(survey, config))),
        res matches Ok(plan) ==> {
            &&& plan.sd_root@ == survey.sd_root@
            &&& plan.target_base@ == target_base_of(
                config.destination_root@,
                mapping_of(survey, config),
            )
            &&& plan.camera_fallback@ == fallback_camera_of(
                mapping_of(survey, config),
                camera_of(survey, config),
            )
            &&& views(plan.scan_roots@) == scan_roots_of(
                survey.sd_root@,
                camera_of(survey, config),
            )
            &&& forall|x: Seq<char>|
                views(plan.extensions@).contains(x) <==> configured_exts(config).contains(x)
            &&& views(plan.extensions@).no_duplicates()
        },
{
    if !survey.root_exists {
        return Err(ImportError::SdCardNotFound);
    }
    if is_blank(config.destination_root.as_str()) {
        return Err(ImportError::EmptyDestinationRoot);
    }
    let mapping = find_card_mapping(
        survey.sd_root.as_str(),
        config,
        &survey.canonical_root,
        &survey.canonical_mapping_roots,
    );
    let camera = detect_camera(config, &survey.present_signature_paths);
    let overridden = match &mapping {
        Some(m) => m.camera_override.is_some(),
        None => false,
    };
    if camera.is_none() && !overridden {
        return Err(ImportError::UnknownCard);
    }
    let target_base = match &mapping {
        Some(m) => if !is_blank(m.target_subdir.as_str()) {
            path_join(config.destination_root.as_str(), m.target_subdir.as_str())
        } else {
            config.destination_root.clone()
        },
        None => config.destination_root.clone(),
    };
    let extensions = normalized_exts(config);
    let scan = scan_roots(survey.sd_root.as_str(), &camera);
    let camera_fallback = fallback_camera(&mapping, &camera);
    Ok(
        ImportPlan {
            sd_root: survey.sd_root.clone(),
            target_base,
            camera_fallback,
            extensions,
            scan_roots: scan,
        },
    )
}


/// The camera name of a file: the one its metadata give, else the fallback.
pub open spec fn camera_name_of(model: Option<Seq<char>>, fallback: Seq<char>) -> Seq<char> {
    match model {
        Some(m) => m,
        None => fallback,
    }
}

/// Picks the camera name of a file from what its metadata gave.
pub fn resolve_camera_name(model: Option<String>, fallback: &str) -> (res: String)
    ensures
        res@ == camera_name_of(text_of(model), fallback@),
{
    match model {
        Some(m) => m,
        None => String::from_str(fallback),
    }
}

/// Where a file is copied to: under the target base, in the directory of
/// its camera, at its path relative to the card root.
pub open spec fn destination_of(
    plan: &ImportPlan,
    file: Seq<char>,
    model: Option<Seq<char>>,
) -> Seq<char> {
    joined(
        joined(plan.target_base@, sanitized(camera_name_of(model, plan.camera_fallback@))),
        relative_to(file, plan.sd_root@),
    )
}

/// The destination path of a media file, given the camera name its metadata
/// gave, if any.
pub fn destination_for(plan: &ImportPlan, file_path: &str, model: Option<String>) -> (res: String)
    ensures
        res@ == destination_of(plan, file_path@, text_of(model)),
{
    let camera_name = resolve_camera_name(model, plan.camera_fallback.as_str());
    let camera_dir = sanitize_component(camera_name.as_str());
    let rel_path = path_relative_to(file_path, plan.sd_root.as_str());
    let base = path_join(plan.target_base.as_str(), camera_dir.as_str());
    path_join(base.as_str(), rel_path.as_str())
}

/// Every file found under the card root is copied inside its camera's
/// directory under the target base.
pub proof fn lemma_destination_inside_camera_dir(
    plan: &ImportPlan,
    file: Seq<char>,
    model: Option<Seq<char>>,
)
    requires
        lies_under(file, plan.sd_root@),
    ensures
        ({
            let dir = joined(
                plan.target_base@,
                sanitized(camera_name_of(model, plan.camera_fallback@)),
            );
            let dest = destination_of(plan, file, model);
            dir.len() <= dest.len() && dest.subrange(0, dir.len() as int) == dir
        }),
{
    let dir = joined(plan.target_base@, sanitized(camera_name_of(model, plan.camera_fallback@)));
    let rel = relative_to(file, plan.sd_root@);
    lemma_relative_is_relative(file, plan.sd_root@);
    let dest = destination_of(plan, file, model);
    if dir.len() == 0 || dir.last() == '/' {
        assert(dest =~= dir + rel);
    } else {
        assert(dest =~= dir + seq!['/'] + rel);
    }
    assert(dest.subrange(0, dir.len() as int) =~= dir);
}

/// What became of one file that was copied without error.
#[derive(Debug, PartialEq, Eq, Structural)]
pub enum CopyOutcome {
    /// The file was copied.
    Copied,
    /// An identical file was already at the destination.
    Skipped,
}

/// What an import did.
pub struct ImportReport {
    /// Files copied.
    pub copied: usize,
    /// Files left out because an identical copy was already there.
    pub skipped: usize,
    /// Files that could not be copied.
    pub failed: usize,
    /// Directory under which camera directories were made.
    pub target_base: String,
    /// Camera name used for files whose metadata name none.
    pub camera_fallback: String,
    /// One message per failed file.
    pub errors: Vec<String>,
}

impl ImportReport {
    /// A report holds one error message per failed file.
    pub open spec fn wf(&self) -> bool {
        self.errors@.len() == self.failed
    }

    /// The report of an import that has not handled any file yet.
    pub fn new(plan: &ImportPlan) -> (res: Self)
        ensures
            res.copied == 0 && res.skipped == 0 && res.failed == 0,
            res.errors@.len() == 0,
            res.target_base == plan.target_base,
            res.camera_fallback == plan.camera_fallback,
            res.wf(),
    {
        ImportReport {
            copied: 0,
            skipped: 0,
            failed: 0,
            target_base: plan.target_base.clone(),
            camera_fallback: plan.camera_fallback.clone(),
            errors: Vec::new(),
        }
    }

    /// Counts a file that was copied or skipped.
    pub fn record_outcome(&mut self, outcome: CopyOutcome)
        requires
            outcome == CopyOutcome::Copied ==> old(self).copied < usize::MAX,
            outcome == CopyOutcome::Skipped ==> old(self).skipped < usize::MAX,
        ensures
            final(self).copied == old(self).copied + if outcome == CopyOutcome::Copied {
                1int
            } else {
                0int
            },
            final(self).skipped == old(self).skipped + if outcome == CopyOutcome::Skipped {
                1int
            } else {
                0int
            },
            final(self).failed == old(self).failed,
            final(self).errors@ == old(self).errors@,
            final(self).target_base == old(self).target_base,
            final(self).camera_fallback == old(self).camera_fallback,
            old(self).wf() ==> final(self).wf(),
    {
        match outcome {
            CopyOutcome::Copied => self.copied += 1,
            CopyOutcome::Skipped => self.skipped += 1,
        }
    }

    /// Counts a file that could not be copied, with the message
    /// `PATH: ERROR`.
    pub fn record_failure(&mut self, file_path: &str, error: &str)
        requires
            old(self).failed < usize::MAX,
        ensures
            final(self).failed == old(self).failed + 1,
            final(self).copied == old(self).copied,
            final(self).skipped == old(self).skipped,
            final(self).errors@.len() == old(self).errors@.len() + 1,
            forall|i: int|
                0 <= i < old(self).errors@.len() ==> final(self).errors@[i] == old(self).errors@[i],
            final(self).errors@[old(self).errors@.len() as int]@ == file_path@ + ": "@ + error@,
            final(self).target_base == old(self).target_base,
            final(self).camera_fallback == old(self).camera_fallback,
            old(self).wf() ==> final(self).wf(),
    {
        let mut message = chars_of(file_path);
        let sep = chars_of(": ");
        push_all(&mut message, &sep);
        let tail = chars_of(error);
        push_all(&mut message, &tail);
        self.failed += 1;
        self.errors.push(string_of(message.as_slice()));
    }
}


/// What happened to one media file: copied or skipped, or the message of the
/// error that stopped it.
pub struct FileResult {
    /// The file's path on the card.
    pub path: String,
    /// The outcome of copying it.
    pub outcome: Result<CopyOutcome, String>,
}

/// How many of the results are copies.
pub open spec fn copied_count(rs: Seq<FileResult>) -> nat
    decreases rs.len(),
{
    if rs.len() == 0 {
        0
    } else {
        copied_count(rs.drop_last()) + if rs.last().outcome == Ok::<CopyOutcome, String>(
            CopyOutcome::Copied,
        ) {
            1nat
        } else {
            0nat
        }
    }
}

/// How many of the results are skipped files.
pub open spec fn skipped_count(rs: Seq<FileResult>) -> nat
    decreases rs.len(),
{
    if rs.len() == 0 {
        0
    } else {
        skipped_count(rs.drop_last()) + if rs.last().outcome == Ok::<CopyOutcome, String>(
            CopyOutcome::Skipped,
        ) {
            1nat
        } else {
            0nat
        }
    }
}

/// How many of the results are failures.
pub open spec fn failed_count(rs: Seq<FileResult>) -> nat
    decreases rs.len(),
{
    if rs.len() == 0 {
        0
    } else {
        failed_count(rs.drop_last()) + if rs.last().outcome is Err {
            1nat
        } else {
            0nat
        }
    }
}

/// One message per failure, in order: the file's path, `: `, then the error.
pub open spec fn failure_messages(rs: Seq<FileResult>) -> Seq<Seq<char>>
    decreases rs.len(),
{
    if rs.len() == 0 {
        Seq::empty()
    } else {
        let earlier = failure_messages(rs.drop_last());
        match rs.last().outcome {
            Err(m) => earlier.push(rs.last().path@ + ": "@ + m@),
            Ok(_) => earlier,
        }
    }
}

proof fn lemma_counts_add_up(rs: Seq<FileResult>)
    ensures
        copied_count(rs) + skipped_count(rs) + failed_count(rs) == rs.len(),
        failure_messages(rs).len() == failed_count(rs),
    decreases rs.len(),
{
    if rs.len() > 0 {
        lemma_counts_add_up(rs.drop_last());
        match rs.last().outcome {
            Ok(CopyOutcome::Copied) => {},
            Ok(CopyOutcome::Skipped) => {},
            Err(_) => {},
        }
    }
}

/// The report of a whole import: every file counted once, as copied,
/// skipped or failed, with one message per failure in the order of the files.
pub fn build_report(plan: &ImportPlan, results: &Vec<FileResult>) -> (res: ImportReport)
    ensures
        res.copied == copied_count(results@),
        res.skipped == skipped_count(results@),
        res.failed == failed_count(results@),
        res.copied + res.skipped + res.failed == results@.len(),
        res.wf(),
        views(res.errors@) == failure_messages(results@),
        res.target_base == plan.target_base,
        res.camera_fallback == plan.camera_fallback,
{
    let mut report = ImportReport::new(plan);
    let mut i: usize = 0;
    while i < results.len()
        invariant
            i <= results.len(),
            report.copied == copied_count(results@.subrange(0, i as int)),
            report.skipped == skipped_count(results@.subrange(0, i as int)),
            report.failed == failed_count(results@.subrange(0, i as int)),
            views(report.errors@) == failure_messages(results@.subrange(0, i as int)),
            report.wf(),
            report.target_base == plan.target_base,
            report.camera_fallback == plan.camera_fallback,
        decreases results.len() - i,
    {
        let ghost prefix = results@.subrange(0, i as int);
        let ghost next = results@.subrange(0, i + 1);
        proof {
            assert(next.drop_last() =~= prefix);
            assert(next.last() == results@[i as int]);
            lemma_counts_add_up(prefix);
        }
        let ghost old_errors = report.errors@;
        match &results[i].outcome {
            Ok(CopyOutcome::Copied) => report.record_outcome(CopyOutcome::Copied),
            Ok(CopyOutcome::Skipped) => report.record_outcome(CopyOutcome::Skipped),
            Err(message) => {
                report.record_failure(results[i].path.as_str(), message.as_str());
                assert(views(report.errors@) =~= views(old_errors).push(
                    results@[i as int].path@ + ": "@ + message@,
                ));
            },
        }
        i += 1;
    }
    proof {
        assert(results@.subrange(0, i as int) =~= results@);
        lemma_counts_add_up(results@);
    }
    report
}


/// The camera named by the card's mapping wins: when the mapping has a
/// camera override, the fallback name is that override whatever camera was
/// detected; only without an override is it the detected camera's name, and
/// `UnknownCamera` when there is neither.
pub proof fn lemma_fallback_camera(mapping: Option<SdCardMapping>, camera: Option<CameraProfile>)
    ensures
        mapping matches Some(m) ==> (m.camera_override matches Some(c) ==> fallback_camera_of(
            mapping,
            camera,
        ) == c@),
        (mapping is None || mapping->0.camera_override is None) && camera is Some
            ==> fallback_camera_of(mapping, camera) == camera->0.name@,
        (mapping is None || mapping->0.camera_override is None) && camera is None
            ==> fallback_camera_of(mapping, camera) == "UnknownCamera"@,
{
}

proof fn lemma_first_camera_from(cams: Seq<CameraProfile>, present: Seq<Seq<char>>, i: int)
    requires
        0 <= i,
    ensures
        match first_camera_from(cams, present, i) {
            Some(k) => i <= k < cams.len() && camera_matches(cams[k], present) && forall|j: int|
                i <= j < k ==> !camera_matches(#[trigger] cams[j], present),
            None => forall|j: int| i <= j < cams.len() ==> !camera_matches(#[trigger] cams[j], present),
        },
    decreases cams.len() - i,
{
    if i < cams.len() && !camera_matches(cams[i], present) {
        lemma_first_camera_from(cams, present, i + 1);
    }
}

/// The camera of a card is the first configured camera whose signature
/// paths are all present on the card (and which has at least one): that
/// camera matches, and no camera before it does; when none is found, no
/// camera matches.
pub proof fn lemma_detected_camera_is_first_match(config: &Config, present: Seq<Seq<char>>)
    ensures
        match detected_camera(config, present) {
            Some(k) => {
                &&& 0 <= k < config.cameras@.len()
                &&& config.cameras@[k].signature_paths@.len() > 0
                &&& forall|p: int|
                    0 <= p < config.cameras@[k].signature_paths@.len() ==> present.contains(
                        #[trigger] config.cameras@[k].signature_paths@[p]@,
                    )
                &&& forall|j: int|
                    0 <= j < k ==> !(config.cameras@[j].signature_paths@.len() > 0 && forall|
                        p: int,
                    |
                        0 <= p < config.cameras@[j].signature_paths@.len() ==> present.contains(
                            #[trigger] config.cameras@[j].signature_paths@[p]@,
                        ))
            },
            None => forall|j: int|
                0 <= j < config.cameras@.len() ==> !(config.cameras@[j].signature_paths@.len() > 0
                    && forall|p: int|
                    0 <= p < config.cameras@[j].signature_paths@.len() ==> present.contains(
                        #[trigger] config.cameras@[j].signature_paths@[p]@,
                    )),
        },
{
    lemma_first_camera_from(config.cameras@, present, 0);
    match detected_camera(config, present) {
        Some(k) => {
            assert forall|j: int| 0 <= j < k implies !(config.cameras@[j].signature_paths@.len() > 0
                && forall|p: int|
                0 <= p < config.cameras@[j].signature_paths@.len() ==> present.contains(
                    #[trigger] config.cameras@[j].signature_paths@[p]@,
                )) by {
                assert(!camera_matches(config.cameras@[j], present));
            }
        },
        None => {
            assert forall|j: int| 0 <= j < config.cameras@.len() implies !(
            config.cameras@[j].signature_paths@.len() > 0 && forall|p: int|
                0 <= p < config.cameras@[j].signature_paths@.len() ==> present.contains(
                    #[trigger] config.cameras@[j].signature_paths@[p]@,
                )) by {
                assert(!camera_matches(config.cameras@[j], present));
            }
        },
    }
}

proof fn lemma_first_mapping_from(
    maps: Seq<SdCardMapping>,
    canonical_maps: Seq<Option<String>>,
    sd_root: Seq<char>,
    canonical_root: Option<Seq<char>>,
    i: int,
)
    requires
        0 <= i,
    ensures
        match first_mapping_from(maps, canonical_maps, sd_root, canonical_root, i) {
            Some(k) => i <= k < maps.len() && mapping_matches(
                maps[k].root@,
                canonical_at(canonical_maps, k),
                sd_root,
                canonical_root,
            ) && forall|j: int|
                i <= j < k ==> !mapping_matches(
                    #[trigger] maps[j].root@,
                    canonical_at(canonical_maps, j),
                    sd_root,
                    canonical_root,
                ),
            None => forall|j: int|
                i <= j < maps.len() ==> !mapping_matches(
                    #[trigger] maps[j].root@,
                    canonical_at(canonical_maps, j),
                    sd_root,
                    canonical_root,
                ),
        },
    decreases maps.len() - i,
{
    if i < maps.len() && !mapping_matches(
        maps[i].root@,
        canonical_at(canonical_maps, i),
        sd_root,
        canonical_root,
    ) {
        lemma_first_mapping_from(maps, canonical_maps, sd_root, canonical_root, i + 1);
    }
}

/// The mapping of a card is the first configured mapping that belongs to it.
/// When the card's canonical path `r` is known, the `i`-th mapping belongs to
/// the card exactly when the canonical form of that same mapping's root,
/// `canonical_maps[i]`, is known and is the same path as `r`; otherwise it
/// belongs when its root is the same path as the card root.
pub proof fn lemma_card_mapping_is_first_match(
    config: &Config,
    sd_root: Seq<char>,
    canonical_root: Option<Seq<char>>,
    canonical_maps: Seq<Option<String>>,
)
    ensures
        canonical_root matches Some(r) ==> match card_mapping(
            config,
            sd_root,
            canonical_root,
            canonical_maps,
        ) {
            Some(k) => {
                &&& 0 <= k < config.sd_cards@.len()
                &&& k < canonical_maps.len()
                &&& canonical_maps[k] is Some
                &&& same_path(canonical_maps[k]->0@, r)
                &&& forall|j: int|
                    0 <= j < k ==> !(j < canonical_maps.len() && #[trigger] canonical_maps[j] is Some
                        && same_path(canonical_maps[j]->0@, r))
            },
            None => forall|j: int|
                0 <= j < config.sd_cards@.len() ==> !(j < canonical_maps.len()
                    && #[trigger] canonical_maps[j] is Some && same_path(
                    canonical_maps[j]->0@,
                    r,
                )),
        },
        canonical_root is None ==> match card_mapping(
            config,
            sd_root,
            canonical_root,
            canonical_maps,
        ) {
            Some(k) => {
                &&& 0 <= k < config.sd_cards@.len()
                &&& same_path(config.sd_cards@[k].root@, sd_root)
                &&& forall|j: int|
                    0 <= j < k ==> !same_path(#[trigger] config.sd_cards@[j].root@, sd_root)
            },
            None => forall|j: int|
                0 <= j < config.sd_cards@.len() ==> !same_path(
                    #[trigger] config.sd_cards@[j].root@,
                    sd_root,
                ),
        },
{
    let maps = config.sd_cards@;
    lemma_first_mapping_from(maps, canonical_maps, sd_root, canonical_root, 0);
    assert forall|j: int| 0 <= j < maps.len() implies (mapping_matches(
        #[trigger] maps[j].root@,
        canonical_at(canonical_maps, j),
        sd_root,
        canonical_root,
    ) <==> match canonical_root {
        Some(r) => j < canonical_maps.len() && canonical_maps[j] is Some && same_path(
            canonical_maps[j]->0@,
            r,
        ),
        None => same_path(maps[j].root@, sd_root),
    }) by {
        if j < canonical_maps.len() && canonical_maps[j] is Some {
            assert(canonical_at(canonical_maps, j) == Some(canonical_maps[j]->0@));
        }
    }
    if let Some(r) = canonical_root {
        match card_mapping(config, sd_root, canonical_root, canonical_maps) {
            Some(k) => {
                assert(maps[k].root@ == maps[k].root@);
                assert forall|j: int| 0 <= j < k implies !(j < canonical_maps.len()
                    && #[trigger] canonical_maps[j] is Some && same_path(
                    canonical_maps[j]->0@,
                    r,
                )) by {
                    assert(maps[j].root@ == maps[j].root@);
                }
            },
            None => {
                assert forall|j: int| 0 <= j < maps.len() implies !(j < canonical_maps.len()
                    && #[trigger] canonical_maps[j] is Some && same_path(
                    canonical_maps[j]->0@,
                    r,
                )) by {
                    assert(maps[j].root@ == maps[j].root@);
                }
            },
        }
    }
}

} // verus!
