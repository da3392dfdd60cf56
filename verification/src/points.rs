//! Point categories and the sign-normalization rule.
//!
//! A record's stored point value is derived from the raw input: demerit
//! points are stored non-positive (the negated absolute value of the input),
//! while merit and offset points are stored exactly as supplied.

use vstd::prelude::*;

verus! {

/// The three conduct-point categories.
#[derive(Clone, Copy, Debug, PartialEq, Eq, Structural)]
pub enum PointType {
    Merit,
    Demerit,
    Offset,
}

/// The stored value that a raw input value maps to under the given category:
/// demerit entries store `-abs(points)`, every other category stores the
/// input unchanged.
pub open spec fn spec_normalize(points: int, point_type: PointType) -> int {
    if point_type == PointType::Demerit {
        if points >= 0 {
            -points
        } else {
            points
        }
    } else {
        points
    }
}

/// A stored point value is well formed for its category when a demerit
/// entry is non-positive; the other categories carry either sign.
pub open spec fn stored_sign_ok(points: int, point_type: PointType) -> bool {
    point_type == PointType::Demerit ==> points <= 0
}

/// Normalizes a raw input value to its stored form.
///
/// The result always satisfies the sign rule, and its magnitude equals the
/// magnitude of the input.
pub fn normalize_points(points: i32, point_type: PointType) -> (r: i32)
    requires
        points != i32::MIN,
    ensures
        r == spec_normalize(points as int, point_type),
        stored_sign_ok(r as int, point_type),
        (if r >= 0 { r as int } else { -(r as int) }) == (if points >= 0 {
            points as int
        } else {
            -(points as int)
        }),
{
    if matches!(point_type, PointType::Demerit) {
        if points >= 0 {
            -points
        } else {
            points
        }
    } else {
        points
    }
}

} // verus!
