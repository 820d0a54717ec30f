use rocknrolla::component_source::{parse_component, parse_px_attr};

#[test]
fn rejects_files_without_dimensions_or_svg_wrapper() {
    let err = parse_component("x", "<svg xmlns=\"a\"></svg>").unwrap_err();
    assert!(err.contains("width"), "{err}");
}

#[test]
fn parses_a_generated_component() {
    let source = "<svg xmlns=\"http://www.w3.org/2000/svg\" width=\"512\" height=\"128\" viewBox=\"0 0 512 128\"><rect/></svg>";
    let parsed = parse_component("ground-flat", source).unwrap();
    assert_eq!(parsed.slug, "ground-flat");
    assert_eq!(parsed.width_px, 512);
    assert_eq!(parsed.height_px, 128);
}

#[test]
fn reads_root_attributes_exactly() {
    assert_eq!(parse_px_attr("<svg width=\"+42\">", "width"), Ok(42));
    assert_eq!(parse_px_attr("<svg width=\"4294967295\">", "width"), Ok(u32::MAX));
    assert_eq!(parse_px_attr("no tag", "width"), Err("no root tag".to_string()));
    assert_eq!(
        parse_px_attr("<svg><rect width=\"3\">", "width"),
        Err("root <svg> tag has no width attribute".to_string())
    );
    assert_eq!(parse_px_attr("<svg width=\"12>", "width"), Err("unterminated width attribute".to_string()));
    assert_eq!(
        parse_px_attr("<svg width=\"4294967296\">", "width"),
        Err("width attribute is not a whole pixel count".to_string())
    );
    assert_eq!(
        parse_px_attr("<svg width=\"1.5\">", "width"),
        Err("width attribute is not a whole pixel count".to_string())
    );
    assert_eq!(parse_px_attr("<svg width=\"\">", "width"), Err("width attribute is not a whole pixel count".to_string()));
    assert_eq!(parse_px_attr("<svg data-width=\"7\" width=\"9\">", "width"), Ok(9));
    assert_eq!(parse_component("", "<svg width=\"1\" height=\"1\">").unwrap_err(), "component file has an empty name");
    assert_eq!(
        parse_component("x", "<svg width=\"1\">").unwrap_err(),
        "root <svg> tag has no height attribute"
    );
}
