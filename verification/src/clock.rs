//! How long the parts of writing an archive took.
use vstd::prelude::*;

verus! {

#[verifier::external_type_specification]
#[verifier::external_body]
pub struct ExInstant(std::time::Instant);

/// `std::time::Instant::now`: the present moment. Nothing is claimed of it.
#[verifier::external_body]
pub(crate) fn now() -> (r: std::time::Instant) {
    std::time::Instant::now()
}

/// `std::time::Instant::elapsed`: the time since a moment, in nanoseconds. Nothing is claimed of
/// it.
#[verifier::external_body]
pub(crate) fn nanos_since(moment: &std::time::Instant) -> (r: u64) {
    u64::try_from(moment.elapsed().as_nanos()).unwrap_or(u64::MAX)
}

/// The time that each part of writing an archive took, in nanoseconds.
#[derive(Debug, Clone, Copy, PartialEq, Eq, Structural)]
pub struct WriterTimings {
    pub total: u64,
    pub plan_payload: u64,
    pub plan_metadata: u64,
    pub emit_payload: u64,
    pub emit_metadata: u64,
}

/// A sum that stays at the largest value where it would pass it.
pub open spec fn saturated_sum(a: u64, b: u64) -> u64 {
    if a + b > u64::MAX {
        u64::MAX
    } else {
        (a + b) as u64
    }
}

impl Default for WriterTimings {
    fn default() -> (r: Self)
        ensures
            r == (WriterTimings {
                total: 0,
                plan_payload: 0,
                plan_metadata: 0,
                emit_payload: 0,
                emit_metadata: 0,
            }),
    {
        WriterTimings {
            total: 0,
            plan_payload: 0,
            plan_metadata: 0,
            emit_payload: 0,
            emit_metadata: 0,
        }
    }
}

impl WriterTimings {
    /// Adds the times of `other`.
    pub fn add_assign(&mut self, other: Self)
        ensures
            final(self).total == saturated_sum(old(self).total, other.total),
            final(self).plan_payload == saturated_sum(old(self).plan_payload, other.plan_payload),
            final(self).plan_metadata == saturated_sum(
                old(self).plan_metadata,
                other.plan_metadata,
            ),
            final(self).emit_payload == saturated_sum(old(self).emit_payload, other.emit_payload),
            final(self).emit_metadata == saturated_sum(
                old(self).emit_metadata,
                other.emit_metadata,
            ),
    {
        self.total = self.total.saturating_add(other.total);
        self.plan_payload = self.plan_payload.saturating_add(other.plan_payload);
        self.plan_metadata = self.plan_metadata.saturating_add(other.plan_metadata);
        self.emit_payload = self.emit_payload.saturating_add(other.emit_payload);
        self.emit_metadata = self.emit_metadata.saturating_add(other.emit_metadata);
    }
}

} // verus!
