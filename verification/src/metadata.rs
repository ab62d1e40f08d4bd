//! Camera make and model, as read from XMP sidecar text and from EXIF data.

use vstd::prelude::*;

use crate::text::{
    chars_of, copy_range, find, find_from, first_match, first_match_from,
    lemma_first_match_from_bounds, lemma_first_match_from_is_first, occurs_at, push_all, string_of,
    text_of, trim_chars, trimmed, Strip,
};

verus! {

/// The text between the first `opening` and the first `closing` that follows it.
pub open spec fn value_between(text: Seq<char>, opening: Seq<char>, closing: Seq<char>) -> Option<
    Seq<char>,
> {
    match first_match(text, opening) {
        Some(start) => {
            let from = start + opening.len();
            match first_match_from(text, closing, from) {
                Some(end) => Some(text.subrange(from, end)),
                None => None,
            }
        },
        None => None,
    }
}

/// `tiff:TAG="`, the start of an XMP attribute.
pub open spec fn attribute_key(tag: Seq<char>) -> Seq<char> {
    "tiff:"@ + tag + "=\""@
}

/// `<tiff:TAG>`, the start of an XMP element.
pub open spec fn open_element(tag: Seq<char>) -> Seq<char> {
    "<tiff:"@ + tag + ">"@
}

/// `</tiff:TAG>`, the end of an XMP element.
pub open spec fn close_element(tag: Seq<char>) -> Seq<char> {
    "</tiff:"@ + tag + ">"@
}

/// The value of the `tiff:TAG` property in XMP text: the attribute form
/// `tiff:TAG="..."` is looked for first, then the element form
/// `<tiff:TAG>...</tiff:TAG>`.
pub open spec fn xmp_value(text: Seq<char>, tag: Seq<char>) -> Option<Seq<char>> {
    match value_between(text, attribute_key(tag), "\""@) {
        Some(v) => Some(v),
        None => value_between(text, open_element(tag), close_element(tag)),
    }
}

fn find_between(text: &Vec<char>, opening: &Vec<char>, closing: &Vec<char>) -> (res: Option<
    Vec<char>,
>)
    ensures
        match res {
            Some(v) => value_between(text@, opening@, closing@) == Some(v@),
            None => value_between(text@, opening@, closing@) is None,
        },
{
    let text_len = text.len();
    match find(text, opening) {
        Some(start) => {
            proof {
                lemma_first_match_from_bounds(text@, opening@, 0);
                assert(first_match_from(text@, opening@, 0) == Some(start as int));
                assert(start + opening@.len() <= text_len);
            }
            let from = start + opening.len();
            match find_from(text, closing, from) {
                Some(end) => {
                    proof {
                        lemma_first_match_from_bounds(text@, closing@, from as int);
                    }
                    Some(copy_range(text, from, end))
                },
                None => None,
            }
        },
        None => None,
    }
}

fn concat3(a: &str, b: &str, c: &str) -> (res: Vec<char>)
    ensures
        res@ == a@ + b@ + c@,
{
    let mut v = chars_of(a);
    let bv = chars_of(b);
    let cv = chars_of(c);
    push_all(&mut v, &bv);
    push_all(&mut v, &cv);
    v
}

/// Reads the value of the `tiff:TAG` property from XMP text.
pub fn extract_xmp_value(text: &str, tag: &str) -> (res: Option<String>)
    ensures
        match res {
            Some(v) => xmp_value(text@, tag@) == Some(v@),
            None => xmp_value(text@, tag@) is None,
        },
{
    let t = chars_of(text);
    let attr_key = concat3("tiff:", tag, "=\"");
    let quote = chars_of("\"");
    if let Some(v) = find_between(&t, &attr_key, &quote) {
        return Some(string_of(v.as_slice()));
    }
    let open_tag = concat3("<tiff:", tag, ">");
    let close_tag = concat3("</tiff:", tag, ">");
    match find_between(&t, &open_tag, &close_tag) {
        Some(v) => Some(string_of(v.as_slice())),
        None => None,
    }
}


/// A value read from the attribute form `tiff:TAG="..."` never holds a
/// quote: it ends at the first quote after the opening one.
pub proof fn lemma_attribute_value_has_no_quote(text: Seq<char>, tag: Seq<char>)
    ensures
        value_between(text, attribute_key(tag), "\""@) matches Some(v) ==> !v.contains('"'),
{
    reveal_strlit("\"");
    let q = "\""@;
    assert(q =~= seq!['"']);
    let key = attribute_key(tag);
    if let Some(start) = first_match(text, key) {
        let from = start + key.len();
        if let Some(end) = first_match_from(text, q, from) {
            lemma_first_match_from_bounds(text, key, 0);
            lemma_first_match_from_bounds(text, q, from);
            let v = text.subrange(from, end);
            if v.contains('"') {
                let j = choose|j: int| 0 <= j < v.len() && v[j] == '"';
                lemma_first_match_from_is_first(text, q, from, from + j);
                assert(text.subrange(from + j, from + j + 1) =~= q);
                assert(occurs_at(text, q, from + j));
            }
        }
    }
}

/// The camera name made of a make and a model, each trimmed: `MAKE MODEL`
/// when both are known, otherwise whichever is known.
pub open spec fn make_model_name(make: Option<Seq<char>>, model: Option<Seq<char>>) -> Option<
    Seq<char>,
> {
    match (make, model) {
        (Some(a), Some(b)) => Some(trimmed(a) + seq![' '] + trimmed(b)),
        (_, Some(b)) => Some(trimmed(b)),
        (Some(a), None) => Some(trimmed(a)),
        (None, None) => None,
    }
}

/// Combines a make and a model into one camera name.
pub fn combine_make_model(make: Option<String>, model: Option<String>) -> (res: Option<String>)
    ensures
        text_of(res) == make_model_name(text_of(make), text_of(model)),
{
    match (make, model) {
        (Some(a), Some(b)) => {
            let mut name = trim_chars(&chars_of(a.as_str()), Strip::Space);
            name.push(' ');
            let tail = trim_chars(&chars_of(b.as_str()), Strip::Space);
            push_all(&mut name, &tail);
            Some(string_of(name.as_slice()))
        },
        (_, Some(b)) => Some(string_of(trim_chars(&chars_of(b.as_str()), Strip::Space).as_slice())),
        (Some(a), None) => Some(
            string_of(trim_chars(&chars_of(a.as_str()), Strip::Space).as_slice()),
        ),
        (None, None) => None,
    }
}

/// Reads the camera name from the text of an XMP sidecar file, from its
/// `tiff:Make` and `tiff:Model` properties.
pub fn read_xmp_model(sidecar_text: &str) -> (res: Option<String>)
    ensures
        text_of(res) == make_model_name(
            xmp_value(sidecar_text@, "Make"@),
            xmp_value(sidecar_text@, "Model"@),
        ),
{
    let model = extract_xmp_value(sidecar_text, "Model");
    let make = extract_xmp_value(sidecar_text, "Make");
    combine_make_model(make, model)
}

/// What EXIF parsing finds in the bytes of an image file: `None` when the
/// data cannot be read as an image with EXIF attributes, otherwise the
/// displayed values of its primary `Make` and `Model` fields, where present.
pub uninterp spec fn exif_make_and_model(data: Seq<u8>) -> Option<
    (Option<Seq<char>>, Option<Seq<char>>),
>;

/// The characters of an optional pair of optional strings.
pub open spec fn texts_of(o: Option<(Option<String>, Option<String>)>) -> Option<
    (Option<Seq<char>>, Option<Seq<char>>),
> {
    match o {
        Some((a, b)) => Some((text_of(a), text_of(b))),
        None => None,
    }
}

/// Calls `exif::Reader::read_from_container` on the image bytes and, when it
/// succeeds, `Exif::get_field` for `Tag::Make` and `Tag::Model` in the
/// primary image, each shown with `display_value().with_unit(..)`. The
/// contract only names the outcome, `exif_make_and_model`: parsing is
/// deterministic in the bytes, and what it yields is not restated here.
#[verifier::external_body]
fn exif_make_model(data: &[u8]) -> (res: Option<(Option<String>, Option<String>)>)
    ensures
        texts_of(res) == exif_make_and_model(data@),
{
    let mut cursor = std::io::Cursor::new(data);
    let exif = match exif::Reader::new().read_from_container(&mut cursor) {
        Ok(exif) => exif,
        Err(_) => return None,
    };
    let make = exif.get_field(exif::Tag::Make, exif::In::PRIMARY).map(
        |f| f.display_value().with_unit(&exif).to_string(),
    );
    let model = exif.get_field(exif::Tag::Model, exif::In::PRIMARY).map(
        |f| f.display_value().with_unit(&exif).to_string(),
    );
    Some((make, model))
}

/// The camera name that the EXIF data of an image gives, if any.
pub open spec fn exif_camera_name(data: Seq<u8>) -> Option<Seq<char>> {
    match exif_make_and_model(data) {
        Some((make, model)) => make_model_name(make, model),
        None => None,
    }
}

/// Reads the camera name from the EXIF `Make` and `Model` of an image.
pub fn read_exif_model(data: &[u8]) -> (res: Option<String>)
    ensures
        text_of(res) == exif_camera_name(data@),
{
    match exif_make_model(data) {
        Some((make, model)) => combine_make_model(make, model),
        None => None,
    }
}

} // verus!
