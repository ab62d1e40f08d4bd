use librevideodit::metadata::{combine_make_model, extract_xmp_value, read_exif_model, read_xmp_model};
use librevideodit::naming::sanitize_component;

#[test]
fn sanitize_component_collapses_non_alnum() {
    let value = "Sony A7SIII/Body";
    let sanitized = sanitize_component(value);
    assert_eq!(sanitized, "Sony_A7SIII_Body");
}

#[test]
fn extract_xmp_value_reads_attribute() {
    let text = r#"<rdf:Description tiff:Model="FX3" tiff:Make="Sony"></rdf:Description>"#;
    let model = extract_xmp_value(text, "Model");
    assert_eq!(model, Some("FX3".to_string()));
}

#[test]
fn sanitize_component_trims_and_falls_back() {
    assert_eq!(sanitize_component("  Canon EOS R5  "), "Canon_EOS_R5");
    assert_eq!(sanitize_component("__"), "UnknownCamera");
    assert_eq!(sanitize_component(""), "UnknownCamera");
    assert_eq!(sanitize_component("Fujifilm X-T4\u{2122}"), "Fujifilm_X_T4");
    assert_eq!(sanitize_component("a__b"), "a_b");
}

#[test]
fn sanitize_component_is_idempotent_on_examples() {
    for name in ["Sony A7SIII/Body", "--x--", "DJI  Mini 3 Pro!", "\"Canon\" \"R5\""] {
        let once = sanitize_component(name);
        assert_eq!(sanitize_component(&once), once);
    }
}

#[test]
fn extract_xmp_value_reads_element_form() {
    let text = "<x><tiff:Make>Panasonic</tiff:Make><tiff:Model>GH6</tiff:Model></x>";
    assert_eq!(extract_xmp_value(text, "Make"), Some("Panasonic".to_string()));
    assert_eq!(extract_xmp_value(text, "Model"), Some("GH6".to_string()));
    assert_eq!(extract_xmp_value(text, "Lens"), None);
}

#[test]
fn extract_xmp_value_prefers_attribute_and_needs_closing() {
    let text = "tiff:Model=\"A\" <tiff:Model>B</tiff:Model>";
    assert_eq!(extract_xmp_value(text, "Model"), Some("A".to_string()));
    let unterminated = "tiff:Model=\"A <tiff:Model>B</tiff:Model>";
    assert_eq!(extract_xmp_value(unterminated, "Model"), Some("B".to_string()));
    assert_eq!(extract_xmp_value("<tiff:Model>B", "Model"), None);
}

#[test]
fn read_xmp_model_from_sidecar_text() {
    let xmp_content = r#"<rdf:Description tiff:Make="Canon" tiff:Model="R5"></rdf:Description>"#;
    assert_eq!(read_xmp_model(xmp_content), Some("Canon R5".to_string()));
    assert_eq!(read_xmp_model("<tiff:Model> R5 </tiff:Model>"), Some("R5".to_string()));
    assert_eq!(read_xmp_model("<tiff:Make>Canon</tiff:Make>"), Some("Canon".to_string()));
    assert_eq!(read_xmp_model("nothing here"), None);
}

#[test]
fn combine_make_model_trims_each_part() {
    assert_eq!(
        combine_make_model(Some(" Sony ".to_string()), Some(" FX3\n".to_string())),
        Some("Sony FX3".to_string())
    );
    assert_eq!(combine_make_model(None, Some(" FX3".to_string())), Some("FX3".to_string()));
    assert_eq!(combine_make_model(Some("Sony ".to_string()), None), Some("Sony".to_string()));
    assert_eq!(combine_make_model(None, None), None);
}

fn tiff_with_make_and_model() -> Vec<u8> {
    let mut b: Vec<u8> = vec![b'I', b'I', 0x2a, 0x00, 0x08, 0x00, 0x00, 0x00];
    b.extend_from_slice(&[0x02, 0x00]);
    // Make: ASCII, 6 bytes at offset 38.
    b.extend_from_slice(&[0x0f, 0x01, 0x02, 0x00, 0x06, 0x00, 0x00, 0x00, 38, 0x00, 0x00, 0x00]);
    // Model: ASCII, 3 bytes stored inline.
    b.extend_from_slice(&[0x10, 0x01, 0x02, 0x00, 0x03, 0x00, 0x00, 0x00, b'R', b'5', 0x00, 0x00]);
    b.extend_from_slice(&[0x00, 0x00, 0x00, 0x00]);
    b.extend_from_slice(b"Canon\0");
    b
}

#[test]
fn read_exif_model_reads_make_and_model() {
    let data = tiff_with_make_and_model();
    assert_eq!(read_exif_model(&data), Some("\"Canon\" \"R5\"".to_string()));
    assert_eq!(sanitize_component(&read_exif_model(&data).unwrap()), "Canon_R5");
}

#[test]
fn read_exif_model_rejects_other_data() {
    assert_eq!(read_exif_model(b"not an image"), None);
    assert_eq!(read_exif_model(&[]), None);
}
