//! The conduct record as callers see it: one row of the store, read back
//! with its id and its effective date filled in.

use vstd::prelude::*;

use crate::points::PointType;

verus! {

/// One conduct entry. `id` is assigned by the store and is always present
/// on records read back from it. `points` carries the stored, sign-normalized
/// value; `timestamp` is the minute-precision creation or last-edit instant,
/// and `date` the effective (possibly backdated) date.
#[derive(Debug)]
pub struct Record {
    pub id: Option<i32>,
    pub student_id: String,
    pub name: String,
    pub reason: String,
    pub points: i32,
    pub point_type: PointType,
    pub timestamp: String,
    pub date: String,
}

impl Clone for Record {
    fn clone(&self) -> (r: Record)
        ensures
            r == *self,
    {
        Record {
            id: self.id,
            student_id: self.student_id.clone(),
            name: self.name.clone(),
            reason: self.reason.clone(),
            points: self.points,
            point_type: self.point_type,
            timestamp: self.timestamp.clone(),
            date: self.date.clone(),
        }
    }
}

} // verus!
