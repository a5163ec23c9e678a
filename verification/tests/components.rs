use stratum_pool::difficulty::{
    modifier_numerator, pplns_n, scale_difficulty, speed_millis, target_of, vardiff_difficulty,
};
use stratum_pool::hexenc::{height_le_bytes, hex_encode};
use stratum_pool::message::RejectReason;
use stratum_pool::nonce::NonceSet;
use stratum_pool::pool::PoolState;
use stratum_pool::prover::ProverState;
use stratum_pool::speedometer::Speedometer;

#[test]
fn hex_of_little_endian_height() {
    let bytes = height_le_bytes(10);
    assert_eq!(bytes, vec![10, 0, 0, 0]);
    assert_eq!(hex_encode(&bytes), "0a000000");
    let bytes = height_le_bytes(0x0102_0304);
    assert_eq!(hex_encode(&bytes), "04030201");
}

#[test]
fn hex_encodes_every_nibble() {
    let data = vec![0xde, 0xad, 0xbe, 0xef, 0x00, 0x1f];
    assert_eq!(hex_encode(&data), "deadbeef001f");
}

#[test]
fn scale_by_unit_modifier_is_identity() {
    assert_eq!(scale_difficulty(5, 600), 5);
    assert_eq!(scale_difficulty(1, 600), 1);
    assert_eq!(scale_difficulty(u64::MAX, 600), u64::MAX);
}

#[test]
fn scale_truncates_toward_zero() {
    // 5 * 900 / 600 = 7.5, truncated to 7
    assert_eq!(scale_difficulty(5, 900), 7);
    // 1 * 601 / 600 truncates back to 1
    assert_eq!(scale_difficulty(1, 601), 1);
}

#[test]
fn scale_saturates() {
    assert_eq!(scale_difficulty(u64::MAX, 1200), u64::MAX);
}

#[test]
fn target_is_quotient_of_max() {
    assert_eq!(target_of(1), u64::MAX);
    assert_eq!(target_of(5), u64::MAX / 5);
}

#[test]
fn vardiff_floors_at_one() {
    assert_eq!(vardiff_difficulty(0), 1);
    assert_eq!(vardiff_difficulty(5), 1);
    // 12 * 20 / 120 = 2
    assert_eq!(vardiff_difficulty(12), 2);
}

#[test]
fn modifier_floors_at_one() {
    assert_eq!(modifier_numerator(0), 600);
    assert_eq!(modifier_numerator(599), 600);
    assert_eq!(modifier_numerator(1200), 1200);
}

#[test]
fn pplns_formula() {
    assert_eq!(pplns_n(1000), u64::MAX / 1000 * 5);
    assert_eq!(pplns_n(u64::MAX), 5);
    // a tiny target saturates
    assert_eq!(pplns_n(1), u64::MAX);
}

#[test]
fn speed_millis_formula() {
    assert_eq!(speed_millis(300, 300), 1000);
    assert_eq!(speed_millis(5, 300), 16);
    assert_eq!(speed_millis(0, 60), 0);
}

#[test]
fn speedometer_window_excludes_old_events() {
    let mut s = Speedometer::init(120);
    s.event(0, 100);
    assert_eq!(s.mass_now(0), 100);
    assert_eq!(s.mass_now(119_999), 100);
    // 120 s later the event has left the window
    assert_eq!(s.mass_now(120_000), 0);
    s.event(60_000, 50);
    assert_eq!(s.mass_now(60_000), 150);
    assert_eq!(s.mass_now(130_000), 50);
}

#[test]
fn prover_vardiff_floor_and_promotion() {
    let mut p = ProverState::new(1, 7);
    assert_eq!(p.current_difficulty(), 1);
    // a share of value 5 in a 120 s window rounds down to zero, floored to 1
    p.add_share(0, 5);
    assert_eq!(p.next_difficulty, 1);
    // 1200 * 20 / 120 = 200 once the mass is large enough
    p.add_share(1, 1195);
    assert_eq!(p.next_difficulty, 200);
    assert_eq!(p.current_difficulty(), 1);
    let promoted = p.next_difficulty();
    assert_eq!(promoted, 200);
    assert_eq!(p.current_difficulty(), 200);
    assert_eq!(p.address(), 7);
}

#[test]
fn prover_speed_reports_four_windows() {
    let mut p = ProverState::new(1, 7);
    p.add_share(0, 300);
    let sp = p.speed(0);
    assert_eq!(sp, vec![1000, 333, 166, 83]);
}

#[test]
fn pool_modifier_floor_and_promotion() {
    let mut p = PoolState::new();
    assert_eq!(p.current_global_difficulty_modifier(), 600);
    p.add_share(0, 10);
    assert_eq!(p.next_global_difficulty_modifier, 600);
    p.add_share(1, 1190);
    // one-minute mass 1200 gives a modifier of 2 (numerator 1200 over 600)
    assert_eq!(p.next_global_difficulty_modifier, 1200);
    assert_eq!(p.current_global_difficulty_modifier(), 600);
    let promoted = p.next_global_difficulty_modifier();
    assert_eq!(promoted, 1200);
    assert_eq!(p.current_global_difficulty_modifier(), 1200);
}

#[test]
fn nonce_set_reports_duplicates_until_cleared() {
    let mut n = NonceSet::new();
    let nonce = vec![1u8, 2, 3];
    assert!(!n.check_and_insert(&nonce));
    assert!(n.check_and_insert(&nonce));
    n.clear();
    assert!(!n.check_and_insert(&nonce));
    assert!(n.check_and_insert(&nonce));
}

#[test]
fn reject_codes_match_stratum() {
    assert_eq!(RejectReason::UnknownProver.code(), 24);
    assert_eq!(RejectReason::NoTemplate.code(), 21);
    assert_eq!(RejectReason::StaleProof.code(), 21);
    assert_eq!(RejectReason::DuplicateNonce.code(), 22);
    assert_eq!(RejectReason::NoDifficulty.code(), 23);
    assert_eq!(RejectReason::TargetNotMet.code(), 23);
    assert_eq!(RejectReason::InvalidProof.code(), 26);
    assert_eq!(RejectReason::StaleProof.message(), "Stale proof");
    assert_eq!(RejectReason::DuplicateNonce.message(), "Duplicate nonce");
    assert_eq!(RejectReason::NoTemplate.message(), "No block template");
    assert_eq!(RejectReason::UnknownProver.message(), "Unknown prover");
    assert_eq!(RejectReason::NoDifficulty.message(), "No difficulty");
    assert_eq!(RejectReason::TargetNotMet.message(), "Difficulty target not met");
    assert_eq!(RejectReason::InvalidProof.message(), "Invalid proof");
}
