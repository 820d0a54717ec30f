//! Input validation at the server trust boundary, shared by every reducer.

use crate::error::{ServiceError, ServiceResult};
use crate::text::{append_str, decimal, push_decimal};
use vstd::prelude::*;

verus! {

/// Require a non-empty string no longer than `max_length` bytes.
pub fn validate_required_str(value: &str, name: &str, max_length: usize) -> (res: ServiceResult<()>)
    ensures
        res is Ok <==> value@.len() > 0 && value.len() <= max_length,
        value@.len() == 0 ==> (res matches Err(ServiceError::Validation { message }) && message@
            == "'"@ + name@ + "' is required"@),
        value@.len() > 0 && value.len() > max_length ==> (res matches Err(
            ServiceError::Validation { message },
        ) && message@ == "'"@ + name@ + "' must be at most "@ + decimal(max_length as nat)
            + " bytes"@),
{
    if value.is_empty() {
        let mut m = String::new();
        append_str(&mut m, "'");
        append_str(&mut m, name);
        append_str(&mut m, "' is required");
        return Err(ServiceError::Validation { message: m });
    }
    if value.len() > max_length {
        let mut m = String::new();
        append_str(&mut m, "'");
        append_str(&mut m, name);
        append_str(&mut m, "' must be at most ");
        push_decimal(&mut m, max_length as u128);
        append_str(&mut m, " bytes");
        return Err(ServiceError::Validation { message: m });
    }
    Ok(())
}

/// Require a strictly positive integer (weights, rarity).
pub fn validate_positive_u32(value: u32, name: &str) -> (res: ServiceResult<()>)
    ensures
        res is Ok <==> value > 0,
        value == 0 ==> (res matches Err(ServiceError::Validation { message }) && message@ == "'"@
            + name@ + "' must be positive"@),
{
    if value == 0 {
        let mut m = String::new();
        append_str(&mut m, "'");
        append_str(&mut m, name);
        append_str(&mut m, "' must be positive");
        return Err(ServiceError::Validation { message: m });
    }
    Ok(())
}

/// Whether the IEEE-754 binary32 value with bit pattern `bits` is NaN.
pub open spec fn f32_nan(bits: u32) -> bool {
    (0x7f80_0000 < bits && bits < 0x8000_0000) || 0xff80_0000 < bits
}

/// Whether the binary32 value with bit pattern `bits` is finite.
pub open spec fn f32_finite(bits: u32) -> bool {
    bits < 0x7f80_0000 || (0x8000_0000 <= bits && bits < 0xff80_0000)
}

/// An integer that orders binary32 values that are not NaN as their
/// values order: sign and magnitude, with both zeros at 0.
pub open spec fn f32_rank(bits: u32) -> int {
    if bits >= 0x8000_0000 {
        0x8000_0000 - bits
    } else {
        bits as int
    }
}

/// `a < b` on the binary32 values with bit patterns `a` and `b`: false
/// whenever one is NaN.
pub open spec fn f32_lt(a: u32, b: u32) -> bool {
    !f32_nan(a) && !f32_nan(b) && f32_rank(a) < f32_rank(b)
}

fn f32_lt_bits(a: u32, b: u32) -> (r: bool)
    ensures
        r == f32_lt(a, b),
{
    let a_nan = (0x7f80_0000 < a && a < 0x8000_0000) || 0xff80_0000 < a;
    let b_nan = (0x7f80_0000 < b && b < 0x8000_0000) || 0xff80_0000 < b;
    if a_nan || b_nan {
        return false;
    }
    if a >= 0x8000_0000 {
        if b >= 0x8000_0000 {
            b < a
        } else {
            a != 0x8000_0000 || b != 0
        }
    } else {
        if b >= 0x8000_0000 {
            false
        } else {
            a < b
        }
    }
}

/// Require a finite binary32 value, given by its bit pattern, within the
/// inclusive range from `min` to `max` (bit patterns too), whose printed
/// forms are `min_text` and `max_text`.
pub fn validate_f32_range(value: u32, name: &str, min: u32, max: u32, min_text: &str, max_text: &str) -> (res:
    ServiceResult<()>)
    ensures
        res is Ok <==> f32_finite(value) && !f32_lt(value, min) && !f32_lt(max, value),
        !f32_finite(value) ==> (res matches Err(ServiceError::Validation { message }) && message@ == "'"@
            + name@ + "' must be finite"@),
        f32_finite(value) && (f32_lt(value, min) || f32_lt(max, value)) ==> (res matches Err(
            ServiceError::Validation { message },
        ) && message@ == "'"@ + name@ + "' must be between "@ + min_text@ + " and "@ + max_text@),
{
    let finite = value < 0x7f80_0000 || (0x8000_0000 <= value && value < 0xff80_0000);
    if !finite {
        let mut m = String::new();
        append_str(&mut m, "'");
        append_str(&mut m, name);
        append_str(&mut m, "' must be finite");
        return Err(ServiceError::Validation { message: m });
    }
    if f32_lt_bits(value, min) || f32_lt_bits(max, value) {
        let mut m = String::new();
        append_str(&mut m, "'");
        append_str(&mut m, name);
        append_str(&mut m, "' must be between ");
        append_str(&mut m, min_text);
        append_str(&mut m, " and ");
        append_str(&mut m, max_text);
        return Err(ServiceError::Validation { message: m });
    }
    Ok(())
}

} // verus!
