use rocknrolla::uuid::{to_u128, uuid_arg, uuid_opt_arg, uuid_vec_arg, validate_uuid};

#[test]
fn renders_uuid_args() {
    assert_eq!(
        uuid_arg("fce40ba8-cab8-42d1-acd5-be8aed7b53e0").unwrap(),
        "[336149535101120413114579957789750940640]"
    );
    assert_eq!(uuid_opt_arg(None).unwrap(), "null");
    assert_eq!(
        uuid_opt_arg(Some("fce40ba8-cab8-42d1-acd5-be8aed7b53e0")).unwrap(),
        r#"{"some":[336149535101120413114579957789750940640]}"#
    );
    assert_eq!(uuid_vec_arg(&[]).unwrap(), "[]");
    assert_eq!(
        uuid_vec_arg(&["fce40ba8-cab8-42d1-acd5-be8aed7b53e0", "fce40ba8-cab8-42d1-acd5-be8aed7b53e0"]).unwrap(),
        "[[336149535101120413114579957789750940640],[336149535101120413114579957789750940640]]"
    );
}

#[test]
fn rejects_non_hex_uuid_arg() {
    assert!(uuid_arg("not-a-uuid-value!!!!").is_err());
}

#[test]
fn accepts_canonical_uuids() {
    validate_uuid("0195c8f1-89ab-7def-8123-456789abcdef", "id").unwrap();
    validate_uuid("0195C8F1-89AB-7DEF-8123-456789ABCDEF", "id").unwrap();
}

#[test]
fn rejects_malformed_uuids() {
    for bad in [
        "",
        "tutorial-hill",
        "0195c8f189ab7def8123456789abcdef",
        "0195c8f1-89ab-7def-8123-456789abcde",
        "0195c8f1-89ab-7def-8123-456789abcdeg",
    ] {
        assert!(validate_uuid(bad, "id").is_err(), "accepted '{bad}'");
    }
}

#[test]
fn invalid_uuid_message_names_the_field_and_value() {
    assert_eq!(
        validate_uuid("tutorial-hill", "level id").unwrap_err(),
        "level id 'tutorial-hill' is not a valid UUID"
    );
    assert_eq!(
        uuid_arg("xyz").unwrap_err(),
        "'xyz' is not a valid UUID"
    );
}

#[test]
fn hex_parsing_matches_from_str_radix() {
    for input in ["", "+", "+ff", "-", "--", "0", "ff", "FF", "g1", "ffffffffffffffffffffffffffffffff",
        "1ffffffffffffffffffffffffffffffff", "00000000000000000000000000000000000001", "+-1", "1-2-3"] {
        let hex: String = input.chars().filter(|c| *c != '-').collect();
        let expected = u128::from_str_radix(&hex, 16).ok();
        assert_eq!(to_u128(input).ok(), expected, "input '{input}'");
    }
    assert_eq!(to_u128("00000000-0000-0000-0000-000000000001").unwrap(), 1);
}

#[test]
fn vec_arg_reports_the_first_bad_value() {
    assert_eq!(
        uuid_vec_arg(&["fce40ba8-cab8-42d1-acd5-be8aed7b53e0", "bad!", "worse?"]).unwrap_err(),
        "'bad!' is not a valid UUID"
    );
    assert_eq!(uuid_opt_arg(Some("nope")).unwrap_err(), "'nope' is not a valid UUID");
}
