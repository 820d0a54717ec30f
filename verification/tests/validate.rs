use rocknrolla::error::ServiceError;
use rocknrolla::validate::{validate_f32_range, validate_positive_u32, validate_required_str};

#[test]
fn required_strings_reject_empty_and_oversized_values() {
    assert!(validate_required_str("ok", "name", 8).is_ok());
    assert!(validate_required_str("", "name", 8).is_err());
    assert!(validate_required_str("way too long", "name", 8).is_err());
}

#[test]
fn positive_integers_reject_zero() {
    assert!(validate_positive_u32(1, "weight").is_ok());
    assert!(validate_positive_u32(0, "weight").is_err());
}

#[test]
fn required_string_refusals_are_validation_errors_with_text() {
    assert_eq!(
        validate_required_str("", "name", 8),
        Err(ServiceError::Validation { message: "'name' is required".to_string() })
    );
    assert_eq!(
        validate_required_str("way too long", "name", 8),
        Err(ServiceError::Validation { message: "'name' must be at most 8 bytes".to_string() })
    );
    // The limit counts bytes, not characters.
    assert!(validate_required_str("ééééé", "name", 8).is_err());
    assert!(validate_required_str("éééé", "name", 8).is_ok());
    assert_eq!(
        validate_positive_u32(0, "weight"),
        Err(ServiceError::Validation { message: "'weight' must be positive".to_string() })
    );
}

fn in_range(value: f32, min: f32, max: f32) -> Result<(), ServiceError> {
    let (min_text, max_text) = (min.to_string(), max.to_string());
    validate_f32_range(value.to_bits(), "buoyancy", min.to_bits(), max.to_bits(), &min_text, &max_text)
}

#[test]
fn float_ranges_reject_nan_infinity_and_out_of_range() {
    assert!(in_range(0.5, 0.0, 10.0).is_ok());
    assert!(in_range(f32::NAN, 0.0, 10.0).is_err());
    assert!(in_range(f32::INFINITY, 0.0, 10.0).is_err());
    assert!(in_range(-0.1, 0.0, 10.0).is_err());
    assert!(in_range(10.1, 0.0, 10.0).is_err());
}

#[test]
fn float_ranges_order_values_as_numbers() {
    assert_eq!(
        in_range(f32::NEG_INFINITY, -1.0, 1.0),
        Err(ServiceError::Validation { message: "'buoyancy' must be finite".to_string() })
    );
    assert_eq!(
        in_range(-2.0, -1.5, 1.0),
        Err(ServiceError::Validation { message: "'buoyancy' must be between -1.5 and 1".to_string() })
    );
    assert!(in_range(-1.0, -1.5, 1.0).is_ok());
    assert!(in_range(-0.0, 0.0, 1.0).is_ok());
    assert!(in_range(0.0, -0.0, 0.0).is_ok());
    assert!(in_range(1.0, 1.0, 1.0).is_ok());
    assert!(in_range(f32::MIN_POSITIVE / 2.0, f32::MIN_POSITIVE, 1.0).is_err());
    assert!(in_range(f32::MAX, 0.0, f32::INFINITY).is_ok());
    assert!(in_range(0.5, f32::NAN, 1.0).is_ok());
}
