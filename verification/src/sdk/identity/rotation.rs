//! Automatic key rotation: configurable intervals and grace periods for old
//! keys.

use vstd::prelude::*;

verus! {

/// Policy for automatic key rotation.
#[derive(Debug, Clone, Copy, PartialEq, Eq, Structural)]
pub struct RotationPolicy {
    /// Rotate every N days.
    pub interval_days: u32,
    /// How long old keys stay valid, in seconds.
    pub grace_period_secs: u64,
    /// Generate new keys automatically.
    pub auto_rotate: bool,
}

/// The default policy: rotate every 30 days, keep old keys an hour,
/// automatically.
pub open spec fn default_rotation_policy() -> RotationPolicy {
    RotationPolicy { interval_days: 30, grace_period_secs: 3600, auto_rotate: true }
}

impl Default for RotationPolicy {
    fn default() -> (res: Self)
        ensures
            res == default_rotation_policy(),
    {
        RotationPolicy { interval_days: 30, grace_period_secs: 3600, auto_rotate: true }
    }
}

} // verus!
