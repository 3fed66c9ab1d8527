//! SLA bookkeeping: stream priorities and the result of a compliance
//! check.

use vstd::prelude::*;

verus! {

/// QoS configuration.
#[derive(Debug, Clone, Copy, PartialEq, Eq, Structural)]
pub struct QosConfig {
    /// Default stream priority (0 background to 7 critical).
    pub default_priority: u8,
    /// Queue by priority.
    pub priority_queueing: bool,
}

/// Result of an SLA compliance check.
#[derive(Debug, Clone)]
pub struct SlaCompliance {
    /// Whether the SLA holds.
    pub compliant: bool,
    /// The violations found.
    pub violations: Vec<String>,
}

impl SlaCompliance {
    /// The result of a check that found `violations`: compliant exactly
    /// when there are none.
    pub fn from_violations(violations: Vec<String>) -> (res: Self)
        ensures
            res.compliant == (violations@.len() == 0),
            res.violations@ == violations@,
    {
        SlaCompliance { compliant: violations.len() == 0, violations }
    }
}

} // verus!
