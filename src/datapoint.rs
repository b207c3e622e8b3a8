//! The datapoints that are mirrored and the ones the goal tracker stores.
//!
//! A value is a fixed-point number: `UNIT` stands for 1.0.
use vstd::prelude::*;

verus! {

/// The fixed-point value of 1.0: values count millionths.
pub const UNIT: i64 = 1_000_000;

/// Two values closer than this (0.01) are taken as equal.
pub const TOLERANCE: i64 = 10_000;

/// The view of an optional text.
pub open spec fn opt_text(o: Option<String>) -> Option<Seq<char>> {
    match o {
        Some(s) => Some(s@),
        None => None,
    }
}

/// A copy of an optional text.
pub fn copy_opt_text(o: &Option<String>) -> (r: Option<String>)
    ensures
        opt_text(r) == opt_text(*o),
{
    match o {
        Some(s) => Some(s.clone()),
        None => None,
    }
}

/// A datapoint to be created in the goal tracker.
#[derive(Debug)]
pub struct CanonicalDatapoint {
    /// In millionths: `UNIT` means the event occurred, 0 that it is flagged.
    pub value: i64,
    /// Seconds since the Unix epoch; absent for a whole-day aggregate.
    pub timestamp: Option<i64>,
    /// The calendar day, as `YYYYMMDD`.
    pub day_bucket: Option<String>,
    pub comment: String,
    /// A stable key of the source event, where the source has one.
    pub external_id: Option<String>,
}

pub struct CanonicalModel {
    pub value: int,
    pub timestamp: Option<int>,
    pub day_bucket: Option<Seq<char>>,
    pub comment: Seq<char>,
    pub external_id: Option<Seq<char>>,
}

impl View for CanonicalDatapoint {
    type V = CanonicalModel;

    open spec fn view(&self) -> CanonicalModel {
        CanonicalModel {
            value: self.value as int,
            timestamp: match self.timestamp {
                Some(t) => Some(t as int),
                None => None,
            },
            day_bucket: opt_text(self.day_bucket),
            comment: self.comment@,
            external_id: opt_text(self.external_id),
        }
    }
}

impl CanonicalDatapoint {
    /// A copy of the datapoint.
    pub fn copy(&self) -> (r: CanonicalDatapoint)
        ensures
            r@ == self@,
    {
        CanonicalDatapoint {
            value: self.value,
            timestamp: self.timestamp,
            day_bucket: copy_opt_text(&self.day_bucket),
            comment: self.comment.clone(),
            external_id: copy_opt_text(&self.external_id),
        }
    }
}

/// The views of a sequence of datapoints to create.
pub open spec fn canonical_models(v: Seq<CanonicalDatapoint>) -> Seq<CanonicalModel> {
    v.map_values(|c: CanonicalDatapoint| c@)
}

/// A datapoint as the goal tracker stores it.
#[derive(Debug)]
pub struct TargetDatapoint {
    /// Assigned by the goal tracker.
    pub id: String,
    /// In millionths.
    pub value: i64,
    /// Seconds since the Unix epoch.
    pub timestamp: i64,
    pub day_bucket: String,
    pub comment: Option<String>,
    /// The external key given at creation, if any.
    pub external_id: Option<String>,
}

pub struct TargetModel {
    pub id: Seq<char>,
    pub value: int,
    pub timestamp: int,
    pub day_bucket: Seq<char>,
    pub comment: Option<Seq<char>>,
    pub external_id: Option<Seq<char>>,
}

impl View for TargetDatapoint {
    type V = TargetModel;

    open spec fn view(&self) -> TargetModel {
        TargetModel {
            id: self.id@,
            value: self.value as int,
            timestamp: self.timestamp as int,
            day_bucket: self.day_bucket@,
            comment: opt_text(self.comment),
            external_id: opt_text(self.external_id),
        }
    }
}

/// The views of a sequence of stored datapoints.
pub open spec fn target_models(v: Seq<TargetDatapoint>) -> Seq<TargetModel> {
    v.map_values(|t: TargetDatapoint| t@)
}

/// Whether a stored datapoint mirrors a created one: the goal tracker echoes
/// the external key, the instant and the comment given at creation.
pub open spec fn echoes(t: TargetModel, c: CanonicalModel) -> bool {
    &&& t.external_id == c.external_id
    &&& (c.timestamp is Some ==> t.timestamp == c.timestamp->0)
    &&& t.comment == Some(c.comment)
}

/// Why a source record could not become a datapoint.
#[derive(Clone, Copy, Debug, PartialEq, Eq)]
pub enum MappingError {
    /// The record has no stable identifier.
    MissingId,
    /// The record has no instant.
    MissingTimestamp,
    /// The record's instant has no calendar date.
    TimestampOutOfRange,
    /// The record lists no participant.
    MissingParticipant,
}

} // verus!
