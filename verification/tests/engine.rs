use stratum_pool::message::{Action, PendingSubmit, RejectReason, ServerMessage};
use stratum_pool::server::Server;
use stratum_pool::template::Template;

const PEER: u64 = 15000;
const ADDR: u64 = 77;

fn template(height: u32, target: u64) -> Template {
    Template {
        block_height: height,
        difficulty_target: target,
        reward: 150_000_000,
        previous_block_hash: vec![0xaa, 0xbb],
        header_root: vec![0xde, 0xad],
        leaf0: vec![0x01],
        leaf1: vec![0x02],
        leaf2: vec![0x03],
        leaf3: vec![0x04],
    }
}

fn submit(id: u64, peer: u64, height: u32, nonce: &[u8], pd: Option<u64>) -> ServerMessage {
    ServerMessage::ProverSubmit {
        id,
        peer,
        block_height: height,
        nonce: nonce.to_vec(),
        proof_difficulty: pd,
    }
}

fn authed_server() -> Server {
    let mut s = Server::init();
    s.process_message(ServerMessage::ProverConnected { peer: PEER });
    s.process_message(ServerMessage::ProverAuthenticated { peer: PEER, address: ADDR });
    s
}

#[test]
fn cold_authenticate_then_template() {
    let mut s = Server::init();
    s.process_message(ServerMessage::ProverConnected { peer: PEER });
    let (acts, pending) =
        s.process_message(ServerMessage::ProverAuthenticated { peer: PEER, address: ADDR });
    assert!(pending.is_none());
    // easiest possible target first, and no job because there is no template
    assert_eq!(acts.len(), 1);
    assert!(matches!(acts[0], Action::SetTarget { peer: PEER, target: u64::MAX }));
    assert_eq!(s.online_provers(), 1);
    assert_eq!(s.online_addresses(), 1);
    assert_eq!(s.address_prover_count(ADDR), 1);

    let (acts, _) = s.process_message(ServerMessage::NewBlockTemplate { template: template(10, 1_000) });
    // the PPLNS window first, then the fan-out; difficulty stayed 1 so no retarget
    assert_eq!(acts.len(), 2);
    assert!(matches!(acts[0], Action::SetN { n } if n == u64::MAX / 1_000 * 5));
    match &acts[1] {
        Action::Notify { peer, job, clean_jobs } => {
            assert_eq!(*peer, PEER);
            assert!(*clean_jobs);
            assert_eq!(job.job_id, "0a000000");
            assert_eq!(job.header_root, "dead");
            assert_eq!(job.leaf0, "01");
            assert_eq!(job.leaf1, "02");
            assert_eq!(job.leaf2, "03");
            assert_eq!(job.leaf3, "04");
        },
        other => panic!("expected a job notification, got {:?}", other),
    }
}

#[test]
fn late_authenticate_receives_cached_job() {
    let mut s = Server::init();
    s.process_message(ServerMessage::NewBlockTemplate { template: template(10, 1_000) });
    let (acts, _) =
        s.process_message(ServerMessage::ProverAuthenticated { peer: PEER, address: ADDR });
    assert_eq!(acts.len(), 2);
    assert!(matches!(acts[0], Action::SetTarget { peer: PEER, target: u64::MAX }));
    assert!(matches!(&acts[1], Action::Notify { peer: PEER, job, clean_jobs: true }
        if job.job_id == "0a000000"));
}

#[test]
fn same_template_twice_yields_identical_payloads() {
    let mut s = authed_server();
    let (first, _) = s.process_message(ServerMessage::NewBlockTemplate { template: template(10, 1_000) });
    let (second, _) = s.process_message(ServerMessage::NewBlockTemplate { template: template(10, 1_000) });
    let job_of = |acts: &Vec<Action>| match &acts[1] {
        Action::Notify { job, .. } => (
            job.job_id.clone(),
            job.header_root.clone(),
            job.leaf0.clone(),
            job.leaf1.clone(),
            job.leaf2.clone(),
            job.leaf3.clone(),
        ),
        other => panic!("expected a job notification, got {:?}", other),
    };
    assert_eq!(job_of(&first), job_of(&second));
    assert!(matches!(first[0], Action::SetN { n } if n == u64::MAX / 1_000 * 5));
    assert!(matches!(second[0], Action::SetN { n } if n == u64::MAX / 1_000 * 5));
}

#[test]
fn fanout_with_no_provers_sends_nothing() {
    let mut s = Server::init();
    let (acts, _) = s.process_message(ServerMessage::NewBlockTemplate { template: template(3, 500) });
    assert_eq!(acts.len(), 1);
    assert!(matches!(acts[0], Action::SetN { .. }));
}

#[test]
fn submit_before_any_template_is_rejected_21() {
    let mut s = authed_server();
    let (acts, pending) = s.process_message(submit(1, PEER, 0, b"n1", Some(10)));
    assert!(pending.is_none());
    assert_eq!(acts.len(), 1);
    match &acts[0] {
        Action::RespondError { peer, id, reason } => {
            assert_eq!((*peer, *id), (PEER, 1));
            assert_eq!(*reason, RejectReason::NoTemplate);
            assert_eq!(reason.code(), 21);
        },
        other => panic!("expected a rejection, got {:?}", other),
    }
}

#[test]
fn stale_height_is_rejected_21_without_state_change() {
    let mut s = authed_server();
    s.process_message(ServerMessage::NewBlockTemplate { template: template(10, 1_000) });
    let (acts, pending) = s.process_message(submit(4, PEER, 9, b"n1", Some(10)));
    assert!(pending.is_none());
    assert_eq!(acts.len(), 1);
    assert!(matches!(&acts[0], Action::RespondError { peer: PEER, id: 4, reason }
        if *reason == RejectReason::StaleProof && reason.code() == 21));
    // the nonce was not consumed: the same nonce still opens a pending submit
    let (acts, pending) = s.process_message(submit(5, PEER, 10, b"n1", Some(10)));
    assert!(acts.is_empty());
    assert!(pending.is_some());
}

#[test]
fn unknown_peer_is_dropped_and_unknown_prover_coded_24() {
    let mut s = Server::init();
    s.process_message(ServerMessage::NewBlockTemplate { template: template(10, 1_000) });
    // never connected: dropped silently
    let (acts, pending) = s.process_message(submit(1, 99, 10, b"n1", Some(10)));
    assert!(acts.is_empty());
    assert!(pending.is_none());
    // an authenticated peer whose state vanished answers with code 24;
    // the coordinator never produces that state itself, so force it
    let mut s = authed_server();
    s.process_message(ServerMessage::NewBlockTemplate { template: template(10, 1_000) });
    s.prover_states.remove(&PEER);
    let (acts, _) = s.handle_prover_submit(2, PEER, 10, b"n1".to_vec(), Some(10));
    assert_eq!(acts.len(), 1);
    assert!(matches!(&acts[0], Action::RespondError { reason, .. }
        if *reason == RejectReason::UnknownProver && reason.code() == 24));
}

#[test]
fn missing_difficulty_is_rejected_23_and_consumes_nonce() {
    let mut s = authed_server();
    s.process_message(ServerMessage::NewBlockTemplate { template: template(10, 1_000) });
    let (acts, pending) = s.process_message(submit(1, PEER, 10, b"n1", None));
    assert!(pending.is_none());
    assert!(matches!(&acts[0], Action::RespondError { reason, .. }
        if *reason == RejectReason::NoDifficulty && reason.code() == 23));
    // the nonce was consumed before the difficulty check
    let (acts, pending) = s.process_message(submit(2, PEER, 10, b"n1", Some(10)));
    assert!(pending.is_none());
    assert!(matches!(&acts[0], Action::RespondError { reason, .. }
        if *reason == RejectReason::DuplicateNonce));
}

#[test]
fn accepted_share_credits_prover_pool_and_accounting() {
    let mut s = authed_server();
    s.process_message(ServerMessage::NewBlockTemplate { template: template(10, 1_000) });
    // the prover has been told difficulty 5
    s.prover_states.get_mut(&PEER).unwrap().current_difficulty = 5;
    let share_target = u64::MAX / 5;
    let (acts, pending) = s.process_message(submit(7, PEER, 10, b"n1", Some(share_target / 2)));
    assert!(acts.is_empty());
    let pending: PendingSubmit = pending.expect("share should reach verification");
    assert_eq!(pending.share_difficulty, 5);
    assert_eq!(pending.share_target, share_target);
    assert_eq!(pending.address, ADDR);
    let acts = s.submit_verified(pending, true, 1_000);
    assert_eq!(acts.len(), 2);
    assert!(matches!(acts[0], Action::NewShare { address: ADDR, difficulty: 5 }));
    assert!(matches!(acts[1], Action::RespondOk { peer: PEER, id: 7 }));
    // the speedometers advanced: a mass of 5 floors the next difficulty to 1
    let st = s.prover_states.get(&PEER).unwrap();
    assert_eq!(st.next_difficulty, 1);
    assert_eq!(st.speed_2m.entries.len(), 1);
    assert_eq!(s.pool_state.speed_1m.entries.len(), 1);
}

#[test]
fn invalid_proof_is_rejected_26_without_credit() {
    let mut s = authed_server();
    s.process_message(ServerMessage::NewBlockTemplate { template: template(10, 1_000) });
    let (_, pending) = s.process_message(submit(7, PEER, 10, b"n1", Some(10)));
    let acts = s.submit_verified(pending.unwrap(), false, 1_000);
    assert_eq!(acts.len(), 1);
    assert!(matches!(&acts[0], Action::RespondError { peer: PEER, id: 7, reason }
        if *reason == RejectReason::InvalidProof && reason.code() == 26));
    assert_eq!(s.pool_state.speed_1m.entries.len(), 0);
}

#[test]
fn share_above_target_is_rejected_23() {
    let mut s = authed_server();
    s.process_message(ServerMessage::NewBlockTemplate { template: template(10, 1_000) });
    s.prover_states.get_mut(&PEER).unwrap().current_difficulty = 5;
    let (acts, pending) = s.process_message(submit(7, PEER, 10, b"n1", Some(u64::MAX / 5 + 1)));
    assert!(pending.is_none());
    assert!(matches!(&acts[0], Action::RespondError { reason, .. }
        if *reason == RejectReason::TargetNotMet && reason.code() == 23));
}

#[test]
fn duplicate_nonce_rejected_22_until_purge() {
    let mut s = authed_server();
    s.process_message(ServerMessage::NewBlockTemplate { template: template(10, 1_000) });
    let (_, pending) = s.process_message(submit(1, PEER, 10, b"nonce-a", Some(10)));
    assert!(pending.is_some());
    s.submit_verified(pending.unwrap(), true, 0);
    let (acts, pending) = s.process_message(submit(2, PEER, 10, b"nonce-a", Some(10)));
    assert!(pending.is_none());
    assert!(matches!(&acts[0], Action::RespondError { peer: PEER, id: 2, reason }
        if *reason == RejectReason::DuplicateNonce && reason.code() == 22));
    // after the periodic purge the same nonce is new again
    s.clear_seen_nonces();
    let (acts, pending) = s.process_message(submit(3, PEER, 10, b"nonce-a", Some(10)));
    assert!(acts.is_empty());
    assert!(pending.is_some());
}

#[test]
fn block_found_reports_operator_and_accounting() {
    let mut s = authed_server();
    s.process_message(ServerMessage::NewBlockTemplate { template: template(10, 1_000) });
    // a proof difficulty under the network target solves the block
    let (_, pending) = s.process_message(submit(9, PEER, 10, b"n1", Some(900)));
    let acts = s.submit_verified(pending.unwrap(), true, 0);
    assert_eq!(acts.len(), 4);
    assert!(matches!(acts[0], Action::NewShare { address: ADDR, difficulty: 1 }));
    assert!(matches!(acts[1], Action::RespondOk { peer: PEER, id: 9 }));
    assert!(matches!(&acts[2], Action::PoolBlock { nonce } if nonce == b"n1"));
    assert!(matches!(acts[3], Action::NewBlock { height: 10, reward: 150_000_000 }));
}

#[test]
fn disconnect_restores_maps() {
    let mut s = authed_server();
    assert_eq!(s.online_provers(), 1);
    assert_eq!(s.online_addresses(), 1);
    s.process_message(ServerMessage::ProverDisconnected { peer: PEER });
    assert_eq!(s.online_provers(), 0);
    assert_eq!(s.online_addresses(), 0);
    assert_eq!(s.address_prover_count(ADDR), 0);
    assert!(!s.prover_states.contains_key(&PEER));
    // a second address connection keeps the address alive
    s.process_message(ServerMessage::ProverAuthenticated { peer: 1, address: ADDR });
    s.process_message(ServerMessage::ProverAuthenticated { peer: 2, address: ADDR });
    assert_eq!(s.address_prover_count(ADDR), 2);
    s.process_message(ServerMessage::ProverDisconnected { peer: 1 });
    assert_eq!(s.online_addresses(), 1);
    assert_eq!(s.address_prover_count(ADDR), 1);
}

#[test]
fn disconnect_mid_flight_still_settles_the_share() {
    let mut s = authed_server();
    s.process_message(ServerMessage::NewBlockTemplate { template: template(10, 1_000) });
    let (_, pending) = s.process_message(submit(7, PEER, 10, b"n1", Some(10)));
    let pending = pending.unwrap();
    // the prover disconnects while verification is in flight
    s.process_message(ServerMessage::ProverDisconnected { peer: PEER });
    let acts = s.submit_verified(pending, true, 0);
    // the share is still credited and answered; the transport's send
    // simply fails on the gone connection
    assert!(matches!(acts[0], Action::NewShare { address: ADDR, difficulty: 1 }));
    assert!(matches!(acts[1], Action::RespondOk { peer: PEER, id: 7 }));
    // the maps stay in the disconnected state
    assert_eq!(s.online_provers(), 0);
    assert!(!s.prover_states.contains_key(&PEER));
    // but the pool was credited
    assert_eq!(s.pool_state.speed_1m.entries.len(), 1);
}

#[test]
fn retarget_sent_only_on_change() {
    let mut s = authed_server();
    s.process_message(ServerMessage::NewBlockTemplate { template: template(10, 1_000) });
    // raise the pending difficulty: a mass of 1200 in the 2 m window gives 200
    let (_, pending) = s.process_message(submit(1, PEER, 10, b"n1", Some(10)));
    s.submit_verified(pending.unwrap(), true, 0);
    s.prover_states.get_mut(&PEER).unwrap().next_difficulty = 200;
    let (acts, _) = s.process_message(ServerMessage::NewBlockTemplate { template: template(11, 1_000) });
    assert_eq!(acts.len(), 3);
    assert!(matches!(acts[0], Action::SetN { .. }));
    assert!(matches!(acts[1], Action::SetTarget { peer: PEER, target } if target == u64::MAX / 200));
    assert!(matches!(&acts[2], Action::Notify { peer: PEER, job, .. } if job.job_id == "0b000000"));
    // the same difficulty again: no retarget
    let (acts, _) = s.process_message(ServerMessage::NewBlockTemplate { template: template(12, 1_000) });
    assert_eq!(acts.len(), 2);
    assert!(matches!(acts[0], Action::SetN { .. }));
    assert!(matches!(&acts[1], Action::Notify { .. }));
}

#[test]
fn address_speed_sums_connections() {
    let mut s = Server::init();
    s.process_message(ServerMessage::ProverAuthenticated { peer: 1, address: ADDR });
    s.process_message(ServerMessage::ProverAuthenticated { peer: 2, address: ADDR });
    s.process_message(ServerMessage::NewBlockTemplate { template: template(10, 1_000) });
    for (id, peer, nonce) in [(1u64, 1u64, b"na"), (2, 2, b"nb")] {
        let (_, pending) = s.process_message(submit(id, peer, 10, nonce, Some(10)));
        s.submit_verified(pending.unwrap(), true, 0);
    }
    // each accepted share had difficulty 1: 1 * 1000 / 300 = 3 per peer
    assert_eq!(s.address_speed(ADDR, 0), vec![6, 2, 0, 0]);
    assert_eq!(s.address_speed(9999, 0), vec![0, 0, 0, 0]);
    // the pool saw both shares: a mass of 2 over 30 m rounds to 1
    let ps = s.pool_speed(0);
    assert_eq!(ps, vec![6, 2, 1, 0]);
}

#[test]
fn exit_message_is_a_no_op() {
    let mut s = authed_server();
    let (acts, pending) = s.process_message(ServerMessage::Exit);
    assert!(acts.is_empty());
    assert!(pending.is_none());
    assert_eq!(s.online_provers(), 1);
    assert_eq!(ServerMessage::Exit.name(), "Exit");
    assert_eq!(
        ServerMessage::ProverConnected { peer: 1 }.name(),
        "ProverConnected"
    );
}
