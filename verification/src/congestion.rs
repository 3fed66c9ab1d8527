//! Aether-CC, the integer decisions of the congestion controller: a hybrid
//! of BBRv3 and NewReno for satellite, mobile and noisy links.
//!
//! ```text
//! delivery_rate = bytes_acked / time_delta
//! max_bw        = max(max_bw, delivery_rate)
//! min_rtt       = min over the last 10 s of RTT samples
//! cwnd          = max_bw * min_rtt * gain
//! ```
//!
//! A loss while the RTT stays near its minimum is congestion and halves the
//! window; a loss while the RTT is more than three times its minimum is
//! taken for channel noise and ignored.
//!
//! The gains (2.89 at startup, 1.25 probing, 0.75 draining) are fractional
//! and applied by the caller; everything decided on integers is here.

use vstd::prelude::*;

verus! {

/// Microseconds per second.
pub const MICROS_PER_SEC: u64 = 1_000_000;

/// Phase of the congestion controller.
#[derive(Debug, Clone, Copy, PartialEq, Eq, Structural)]
pub enum CongestionState {
    /// Fast growth of the window.
    Startup,
    /// Probing for more bandwidth.
    Probe,
    /// Draining the queue built while probing.
    Drain,
    /// Steady state.
    Steady,
}

/// Bandwidth sample of an Ack, in bytes per second: `bytes_acked` over
/// `rtt_us` microseconds, or the current maximum when the RTT is zero.
pub fn delivery_rate(bytes_acked: u64, rtt_us: u64, max_bw: u64) -> (res: u64)
    requires
        rtt_us > 0 ==> bytes_acked * MICROS_PER_SEC <= u64::MAX,
    ensures
        res == if rtt_us > 0 {
            (bytes_acked * MICROS_PER_SEC) / (rtt_us as int)
        } else {
            max_bw as int
        },
{
    if rtt_us > 0 {
        bytes_acked * MICROS_PER_SEC / rtt_us
    } else {
        max_bw
    }
}

/// Bandwidth-delay product in bytes: `max_bw` bytes per second over
/// `min_rtt_us` microseconds.
pub fn bandwidth_delay_product(max_bw: u64, min_rtt_us: u64) -> (res: u64)
    requires
        max_bw * min_rtt_us <= u64::MAX,
    ensures
        res == (max_bw * min_rtt_us) / (MICROS_PER_SEC as int),
{
    max_bw * min_rtt_us / MICROS_PER_SEC
}

/// The phase after an Ack: startup ends (for draining) once the grown window
/// reaches the bandwidth-delay product of a measured bandwidth; draining
/// lasts one Ack and hands over to probing; probing and the steady state
/// stay.
pub open spec fn spec_state_after_ack(
    state: CongestionState,
    max_bw: u64,
    cwnd: u64,
    bdp: u64,
) -> CongestionState {
    match state {
        CongestionState::Startup => if max_bw > 0 && cwnd >= bdp {
            CongestionState::Drain
        } else {
            CongestionState::Startup
        },
        CongestionState::Drain => CongestionState::Probe,
        _ => state,
    }
}

/// The phase after an Ack; `cwnd` is the window after this Ack's growth.
pub fn state_after_ack(state: CongestionState, max_bw: u64, cwnd: u64, bdp: u64) -> (res: CongestionState)
    ensures
        res == spec_state_after_ack(state, max_bw, cwnd, bdp),
{
    match state {
        CongestionState::Startup => if max_bw > 0 && cwnd >= bdp {
            CongestionState::Drain
        } else {
            CongestionState::Startup
        },
        CongestionState::Drain => CongestionState::Probe,
        CongestionState::Probe => CongestionState::Probe,
        CongestionState::Steady => CongestionState::Steady,
    }
}

/// Startup ends exactly when a bandwidth has been measured and the window
/// has reached the bandwidth-delay product, so once it would end at some
/// window it ends at every larger one; draining always hands over to
/// probing after one Ack, and probing and the steady state stay.
pub proof fn lemma_phase_after_ack(max_bw: u64, cwnd: u64, cwnd2: u64, bdp: u64)
    ensures
        (spec_state_after_ack(CongestionState::Startup, max_bw, cwnd, bdp)
            == CongestionState::Drain) == (max_bw > 0 && cwnd >= bdp),
        spec_state_after_ack(CongestionState::Startup, max_bw, cwnd, bdp)
            == CongestionState::Drain || spec_state_after_ack(
            CongestionState::Startup,
            max_bw,
            cwnd,
            bdp,
        ) == CongestionState::Startup,
        cwnd <= cwnd2 && spec_state_after_ack(CongestionState::Startup, max_bw, cwnd, bdp)
            == CongestionState::Drain ==> spec_state_after_ack(
            CongestionState::Startup,
            max_bw,
            cwnd2,
            bdp,
        ) == CongestionState::Drain,
        spec_state_after_ack(CongestionState::Drain, max_bw, cwnd, bdp) == CongestionState::Probe,
        spec_state_after_ack(CongestionState::Probe, max_bw, cwnd, bdp) == CongestionState::Probe,
        spec_state_after_ack(CongestionState::Steady, max_bw, cwnd, bdp)
            == CongestionState::Steady,
{
}

/// Whether a loss seen at `current_rtt_us` is channel noise: the RTT is more
/// than three times its minimum.
pub fn is_noise_loss(current_rtt_us: u64, min_rtt_us: u64) -> (res: bool)
    requires
        min_rtt_us * 3 <= u64::MAX,
    ensures
        res == (current_rtt_us > min_rtt_us * 3),
{
    current_rtt_us > min_rtt_us * 3
}

/// The window after a loss: halved, unless the loss is noise (then `None`:
/// nothing changes). After a halving the controller is steady.
pub fn window_after_loss(cwnd: u64, current_rtt_us: u64, min_rtt_us: u64) -> (res: Option<u64>)
    requires
        min_rtt_us * 3 <= u64::MAX,
    ensures
        res == if current_rtt_us > min_rtt_us * 3 {
            None::<u64>
        } else {
            Some((cwnd / 2) as u64)
        },
{
    if is_noise_loss(current_rtt_us, min_rtt_us) {
        None
    } else {
        Some(cwnd / 2)
    }
}


/// Whether `m` is the least of `s`.
pub open spec fn is_min_of(m: u64, s: Seq<u64>) -> bool {
    &&& s.contains(m)
    &&& forall|i: int| 0 <= i < s.len() ==> m <= #[trigger] s[i]
}

/// The least RTT sample of the window, if there is one.
pub fn window_min_rtt(samples: &Vec<u64>) -> (res: Option<u64>)
    ensures
        samples@.len() == 0 ==> res is None,
        samples@.len() > 0 ==> (res matches Some(m) && is_min_of(m, samples@)),
{
    if samples.len() == 0 {
        return None;
    }
    let mut m = samples[0];
    let mut idx: usize = 0;
    let mut i: usize = 1;
    while i < samples.len()
        invariant
            1 <= i <= samples@.len(),
            idx < i,
            samples@[idx as int] == m,
            forall|k: int| 0 <= k < i ==> m <= samples@[k],
        decreases samples@.len() - i,
    {
        if samples[i] < m {
            m = samples[i];
            idx = i;
        }
        i = i + 1;
    }
    assert(samples@[idx as int] == m);
    Some(m)
}

} // verus!
