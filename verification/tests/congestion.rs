use aether_core::congestion::{
    bandwidth_delay_product, delivery_rate, is_noise_loss, state_after_ack, window_after_loss,
    window_min_rtt, CongestionState,
};
use CongestionState::{Drain, Probe, Startup, Steady};

#[test]
fn delivery_rate_samples() {
    assert_eq!(delivery_rate(1400, 10_000, 0), 140_000);
    assert_eq!(delivery_rate(1400, 0, 77), 77);
}

#[test]
fn bdp_in_bytes() {
    assert_eq!(bandwidth_delay_product(140_000, 10_000), 1400);
    assert_eq!(bandwidth_delay_product(0, 10_000), 0);
}

#[test]
fn loss_at_high_rtt_is_noise() {
    assert!(is_noise_loss(50_000, 10_000));
    assert_eq!(window_after_loss(14000, 50_000, 10_000), None);
}

#[test]
fn loss_near_min_rtt_halves_window() {
    assert!(!is_noise_loss(60_000, 50_000));
    assert_eq!(window_after_loss(100_000, 60_000, 50_000), Some(50_000));
    assert!(!is_noise_loss(30_000, 10_000));
}

#[test]
fn phases_after_ack() {
    assert_eq!(state_after_ack(Startup, 0, 20_000, 1_000), Startup);
    assert_eq!(state_after_ack(Startup, 100, 999, 1_000), Startup);
    assert_eq!(state_after_ack(Startup, 100, 1_000, 1_000), Drain);
    assert_eq!(state_after_ack(Drain, 100, 0, 0), Probe);
    assert_eq!(state_after_ack(Probe, 100, 0, 0), Probe);
    assert_eq!(state_after_ack(Steady, 100, 0, 0), Steady);
}

#[test]
fn min_of_rtt_window() {
    assert_eq!(window_min_rtt(&vec![]), None);
    assert_eq!(window_min_rtt(&vec![30, 10, 20]), Some(10));
    assert_eq!(window_min_rtt(&vec![5]), Some(5));
}
