//! Which files are media, and where their camera name comes from.

use vstd::prelude::*;

use crate::config::Config;
use crate::paths::{extension, path_extension};
use crate::text::{
    chars_of, copy_strings, lower, lower_char, same_chars, string_of, strip_front, to_lower,
    trim_chars, trim_front_chars, trimmed, Strip,
};

verus! {

/// The texts of a list of strings.
pub open spec fn views(v: Seq<String>) -> Seq<Seq<char>> {
    v.map_values(|s: String| s@)
}

/// A configured extension as it is matched: trimmed, without leading dots,
/// in ASCII lower case.
pub open spec fn normalized_ext(e: Seq<char>) -> Seq<char> {
    lower(strip_front(trimmed(e), Strip::Dot))
}

/// All configured extensions, video first, each normalized.
pub open spec fn configured_exts(c: &Config) -> Seq<Seq<char>> {
    views(c.video_exts@ + c.photo_exts@).map_values(|e: Seq<char>| normalized_ext(e))
}

proof fn lemma_push_contains(s: Seq<Seq<char>>, y: Seq<char>, x: Seq<char>)
    ensures
        s.push(y).contains(x) <==> (s.contains(x) || x == y),
{
    if s.contains(x) {
        let j = choose|j: int| 0 <= j < s.len() && s[j] == x;
        assert(s.push(y)[j] == x);
    }
    if x == y {
        assert(s.push(y)[s.len() as int] == x);
    }
    if s.push(y).contains(x) {
        let j = choose|j: int| 0 <= j < s.len() + 1 && s.push(y)[j] == x;
        if j < s.len() {
            assert(s[j] == x);
        }
    }
}

/// Lower-casing a second time changes nothing.
pub proof fn lemma_lower_idempotent(s: Seq<char>)
    ensures
        lower(lower(s)) == lower(s),
{
    assert forall|i: int| 0 <= i < s.len() implies #[trigger] lower_char(lower_char(s[i]))
        == lower_char(s[i]) by {
        let c = s[i];
        if 'A' <= c && c <= 'Z' {
            assert(((c as int) + 32) as char as int == (c as int) + 32);
        }
    }
    assert(lower(lower(s)) =~= lower(s));
}

/// Configured extensions are matched in lower case, so the case in which
/// they are written does not matter.
pub proof fn lemma_normalized_ext_is_lower_case(e: Seq<char>)
    ensures
        lower(normalized_ext(e)) == normalized_ext(e),
{
    lemma_lower_idempotent(strip_front(trimmed(e), Strip::Dot));
}

/// Whether `x` is one of the texts of `list`.
pub fn contains_text(list: &Vec<String>, x: &Vec<char>) -> (res: bool)
    ensures
        res == views(list@).contains(x@),
{
    let mut i: usize = 0;
    while i < list.len()
        invariant
            i <= list.len(),
            forall|j: int| 0 <= j < i ==> list@[j]@ != x@,
        decreases list.len() - i,
    {
        if same_chars(&chars_of(list[i].as_str()), x) {
            assert(views(list@)[i as int] == x@);
            return true;
        }
        i += 1;
    }
    assert forall|j: int| 0 <= j < views(list@).len() implies views(list@)[j] != x@ by {
        assert(views(list@)[j] == list@[j]@);
    }
    false
}

/// The set of extensions the importer copies: each configured video and
/// photo extension once, normalized.
pub fn normalized_exts(config: &Config) -> (res: Vec<String>)
    ensures
        forall|x: Seq<char>| views(res@).contains(x) <==> configured_exts(config).contains(x),
        views(res@).no_duplicates(),
{
    let mut all = copy_strings(&config.video_exts);
    let mut k: usize = 0;
    let ghost video = all@;
    while k < config.photo_exts.len()
        invariant
            k <= config.photo_exts.len(),
            video == config.video_exts@,
            all@ == video + config.photo_exts@.subrange(0, k as int),
        decreases config.photo_exts.len() - k,
    {
        all.push(config.photo_exts[k].clone());
        k += 1;
        assert(all@ =~= video + config.photo_exts@.subrange(0, k as int));
    }
    assert(config.photo_exts@.subrange(0, k as int) =~= config.photo_exts@);
    let ghost target = configured_exts(config);
    assert(target.len() == all@.len());
    let mut res: Vec<String> = Vec::new();
    let mut i: usize = 0;
    while i < all.len()
        invariant
            i <= all.len(),
            target == views(all@).map_values(|e: Seq<char>| normalized_ext(e)),
            target.len() == all@.len(),
            forall|x: Seq<char>|
                views(res@).contains(x) <==> target.subrange(0, i as int).contains(x),
            views(res@).no_duplicates(),
        decreases all.len() - i,
    {
        let raw = chars_of(all[i].as_str());
        let t = trim_chars(&raw, Strip::Space);
        let d = trim_front_chars(&t, Strip::Dot);
        let e = to_lower(&d);
        assert(e@ == target[i as int]);
        let ghost old_views = views(res@);
        if !contains_text(&res, &e) {
            res.push(string_of(e.as_slice()));
            assert(views(res@) =~= old_views.push(e@));
        }
        proof {
            let prefix = target.subrange(0, i as int);
            let nt = target.subrange(0, i + 1);
            assert(nt =~= prefix.push(e@));
            assert forall|x: Seq<char>| views(res@).contains(x) <==> nt.contains(x) by {
                lemma_push_contains(prefix, e@, x);
                if views(res@) == old_views {
                    assert(old_views.contains(e@));
                } else {
                    lemma_push_contains(old_views, e@, x);
                }
            }
        }
        i += 1;
    }
    assert(target.subrange(0, i as int) =~= target);
    res
}


/// The extension of a file as it is matched: lower-cased, empty when the
/// file has none.
pub open spec fn media_ext(p: Seq<char>) -> Seq<char> {
    lower(
        match extension(p) {
            Some(e) => e,
            None => Seq::empty(),
        },
    )
}

fn lower_extension(path: &str) -> (res: Vec<char>)
    ensures
        res@ == media_ext(path@),
{
    let ext = match path_extension(path) {
        Some(e) => chars_of(e.as_str()),
        None => Vec::new(),
    };
    to_lower(&ext)
}

/// Whether a file found on the card is one that is copied: its lower-cased
/// extension is one of `exts`.
pub fn is_media_file(path: &str, exts: &Vec<String>) -> (res: bool)
    ensures
        res == views(exts@).contains(media_ext(path@)),
{
    let ext = lower_extension(path);
    contains_text(exts, &ext)
}

/// Extensions of photos whose camera is named in their EXIF data.
pub open spec fn photo_ext(e: Seq<char>) -> bool {
    ||| e == "jpg"@
    ||| e == "jpeg"@
    ||| e == "tif"@
    ||| e == "tiff"@
    ||| e == "dng"@
    ||| e == "heic"@
    ||| e == "png"@
}

/// Extensions of videos whose camera is named in an XMP sidecar file.
pub open spec fn video_ext(e: Seq<char>) -> bool {
    ||| e == "mp4"@
    ||| e == "mov"@
    ||| e == "mxf"@
    ||| e == "avi"@
    ||| e == "mkv"@
    ||| e == "mts"@
    ||| e == "m2ts"@
}

fn is_text(v: &Vec<char>, lit: &str) -> (res: bool)
    ensures
        res == (v@ == lit@),
{
    same_chars(v, &chars_of(lit))
}

pub fn is_photo_ext(ext: &str) -> (res: bool)
    ensures
        res == photo_ext(ext@),
{
    let e = chars_of(ext);
    is_text(&e, "jpg") || is_text(&e, "jpeg") || is_text(&e, "tif") || is_text(&e, "tiff")
        || is_text(&e, "dng") || is_text(&e, "heic") || is_text(&e, "png")
}

pub fn is_video_ext(ext: &str) -> (res: bool)
    ensures
        res == video_ext(ext@),
{
    let e = chars_of(ext);
    is_text(&e, "mp4") || is_text(&e, "mov") || is_text(&e, "mxf") || is_text(&e, "avi")
        || is_text(&e, "mkv") || is_text(&e, "mts") || is_text(&e, "m2ts")
}

/// No extension is both a photo extension and a video extension.
pub proof fn lemma_photo_video_disjoint(e: Seq<char>)
    ensures
        !(photo_ext(e) && video_ext(e)),
{
    reveal_strlit("jpg");
    reveal_strlit("jpeg");
    reveal_strlit("tif");
    reveal_strlit("tiff");
    reveal_strlit("dng");
    reveal_strlit("heic");
    reveal_strlit("png");
    reveal_strlit("mp4");
    reveal_strlit("mov");
    reveal_strlit("mxf");
    reveal_strlit("avi");
    reveal_strlit("mkv");
    reveal_strlit("mts");
    reveal_strlit("m2ts");
    if photo_ext(e) && video_ext(e) {
        assert(e[0] == 'j' || e[0] == 't' || e[0] == 'd' || e[0] == 'h' || e[0] == 'p');
        assert(e[0] == 'm' || e[0] == 'a');
    }
}

/// Where the camera name of a media file is read from.
#[derive(PartialEq, Eq, Structural)]
pub enum ModelSource {
    /// The EXIF data of the file itself.
    Exif,
    /// The XMP sidecar next to the file.
    XmpSidecar,
    /// Nowhere: the fallback name is used.
    Neither,
}

/// The source of a file's camera name, by its lower-cased extension.
pub open spec fn model_source_of(p: Seq<char>) -> ModelSource {
    if photo_ext(media_ext(p)) {
        ModelSource::Exif
    } else if video_ext(media_ext(p)) {
        ModelSource::XmpSidecar
    } else {
        ModelSource::Neither
    }
}

/// Decides where the camera name of a media file is read from.
pub fn model_source(path: &str) -> (res: ModelSource)
    ensures
        res == model_source_of(path@),
{
    let ext = string_of(lower_extension(path).as_slice());
    if is_photo_ext(ext.as_str()) {
        ModelSource::Exif
    } else if is_video_ext(ext.as_str()) {
        ModelSource::XmpSidecar
    } else {
        ModelSource::Neither
    }
}


/// The photo extensions are exactly jpg, jpeg, tif, tiff, dng, heic and png,
/// and the video extensions exactly mp4, mov, mxf, avi, mkv, mts and m2ts.
pub proof fn lemma_extension_sets(e: Seq<char>)
    ensures
        photo_ext(e) <==> set!["jpg"@, "jpeg"@, "tif"@, "tiff"@, "dng"@, "heic"@, "png"@].contains(
            e,
        ),
        video_ext(e) <==> set!["mp4"@, "mov"@, "mxf"@, "avi"@, "mkv"@, "mts"@, "m2ts"@].contains(
            e,
        ),
{
}

/// A file's camera name is read from its EXIF data exactly when its
/// extension, lower-cased, is a photo extension (jpg, jpeg, tif, tiff, dng,
/// heic, png); from its XMP sidecar exactly when it is a video extension
/// (mp4, mov, mxf, avi, mkv, mts, m2ts); and from neither otherwise.
pub proof fn lemma_model_source_by_extension(p: Seq<char>)
    ensures
        ({
            let e = lower(
                match extension(p) {
                    Some(x) => x,
                    None => Seq::empty(),
                },
            );
            let photos = set!["jpg"@, "jpeg"@, "tif"@, "tiff"@, "dng"@, "heic"@, "png"@];
            let videos = set!["mp4"@, "mov"@, "mxf"@, "avi"@, "mkv"@, "mts"@, "m2ts"@];
            &&& model_source_of(p) == ModelSource::Exif <==> photos.contains(e)
            &&& model_source_of(p) == ModelSource::XmpSidecar <==> videos.contains(e)
            &&& model_source_of(p) == ModelSource::Neither <==> !photos.contains(e)
                && !videos.contains(e)
        }),
{
    lemma_extension_sets(media_ext(p));
    lemma_photo_video_disjoint(media_ext(p));
}

} // verus!
