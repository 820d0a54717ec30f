use rocknrolla::silhouette::derive_silhouette;

const BODY: &str = r#"<svg xmlns="http://www.w3.org/2000/svg" width="120" height="120" viewBox="0 0 120 120"><defs><radialGradient id="g"/></defs><circle cx="60" cy="60" r="50" fill="url(#g)"/></svg>"#;

#[test]
fn derives_a_filtered_silhouette() {
    let silhouette = derive_silhouette("rock", BODY).unwrap();
    assert!(silhouette.contains(r#"<filter id="sil">"#));
    assert!(silhouette.contains(r#"</defs><g filter="url(#sil)">"#));
    assert!(silhouette.trim_end().ends_with("</g></svg>"));
}

#[test]
fn rejects_bodies_without_defs() {
    let bare = BODY.replace(r#"<defs><radialGradient id="g"/></defs>"#, "");
    let err = derive_silhouette("rock", &bare).unwrap_err().to_string();
    assert!(err.contains("<defs>"), "{err}");
}

#[test]
fn rejects_nested_svg_and_multiple_defs() {
    let nested = BODY.replace("<circle", "<svg></svg><circle");
    let err = derive_silhouette("rock", &nested).unwrap_err().to_string();
    assert!(err.contains("nested"), "{err}");

    let doubled = BODY.replace("<circle", "<defs></defs><circle");
    let err = derive_silhouette("rock", &doubled).unwrap_err().to_string();
    assert!(err.contains("exactly one"), "{err}");
}

#[test]
fn silhouette_is_the_exact_three_edit_document() {
    let expected = BODY
        .replacen("<defs>", &format!("<defs>{}", rocknrolla::silhouette::SILHOUETTE_FILTER), 1)
        .replacen("</defs>", r#"</defs><g filter="url(#sil)">"#, 1)
        .replacen("</svg>", "</g></svg>", 1);
    assert_eq!(derive_silhouette("rock", BODY).unwrap(), expected);
    let padded = format!("{BODY}\n  ");
    assert!(derive_silhouette("rock", &padded).is_ok());
}

#[test]
fn refusal_texts_name_the_character() {
    assert_eq!(
        derive_silhouette("rock", "<svg></svg>").unwrap_err(),
        "character 'rock': body SVG needs a plain <defs> block for silhouette derivation"
    );
    assert_eq!(
        derive_silhouette("rock", "<svg><defs></defs></svg><!-- -->").unwrap_err(),
        "character 'rock': body SVG is not a standalone document"
    );
}

#[test]
fn rejects_art_before_the_defs_block() {
    let early = BODY.replace("<defs>", r#"<rect width="5" height="5"/><defs>"#);
    assert_eq!(
        derive_silhouette("rock", &early).unwrap_err(),
        "character 'rock': body SVG must open its <defs> block right after the root tag"
    );
}

#[test]
fn rejects_a_second_opening_defs_tag() {
    let doubled = BODY.replace("<circle", "<defs><circle");
    assert_eq!(
        derive_silhouette("rock", &doubled).unwrap_err(),
        "character 'rock': body SVG must have exactly one <defs> block and no nested <svg>"
    );
}
