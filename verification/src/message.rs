//! Events the coordination engine consumes and actions it emits.
//!
//! The engine is the decision half of the message loop: the transport
//! layer turns socket activity into `ServerMessage`s and performs the
//! `Action`s that come back (channel sends to provers, to the accounting
//! actor and to the operator).  Request ids, peers and addresses are
//! opaque tokens the transport assigns; a submitted proof stays with the
//! transport, which hands in only the proof's claimed difficulty and,
//! after the engine asks for it, the verifier's verdict.

use vstd::prelude::*;
use crate::template::{Template, JobPayload, TemplateView, is_job_payload};

verus! {

pub enum ServerMessage {
    ProverConnected { peer: u64 },
    ProverAuthenticated { peer: u64, address: u64 },
    ProverDisconnected { peer: u64 },
    ProverSubmit {
        id: u64,
        peer: u64,
        block_height: u32,
        nonce: Vec<u8>,
        proof_difficulty: Option<u64>,
    },
    NewBlockTemplate { template: Template },
    Exit,
}

impl ServerMessage {
    pub fn name(&self) -> (r: &'static str)
        ensures
            self is ProverConnected ==> r@ == "ProverConnected"@,
            self is ProverAuthenticated ==> r@ == "ProverAuthenticated"@,
            self is ProverDisconnected ==> r@ == "ProverDisconnected"@,
            self is ProverSubmit ==> r@ == "ProverSubmit"@,
            self is NewBlockTemplate ==> r@ == "NewBlockTemplate"@,
            self is Exit ==> r@ == "Exit"@,
    {
        match self {
            ServerMessage::ProverConnected { .. } => "ProverConnected",
            ServerMessage::ProverAuthenticated { .. } => "ProverAuthenticated",
            ServerMessage::ProverDisconnected { .. } => "ProverDisconnected",
            ServerMessage::ProverSubmit { .. } => "ProverSubmit",
            ServerMessage::NewBlockTemplate { .. } => "NewBlockTemplate",
            ServerMessage::Exit => "Exit",
        }
    }
}

/// Why a submitted share was turned down, with its Stratum error code.
#[derive(Clone, Copy, Debug, PartialEq, Eq)]
pub enum RejectReason {
    UnknownProver,
    NoTemplate,
    StaleProof,
    DuplicateNonce,
    NoDifficulty,
    TargetNotMet,
    InvalidProof,
}

impl RejectReason {
    pub open spec fn code_spec(self) -> u32 {
        match self {
            RejectReason::UnknownProver => 24,
            RejectReason::NoTemplate => 21,
            RejectReason::StaleProof => 21,
            RejectReason::DuplicateNonce => 22,
            RejectReason::NoDifficulty => 23,
            RejectReason::TargetNotMet => 23,
            RejectReason::InvalidProof => 26,
        }
    }

    pub fn code(&self) -> (r: u32)
        ensures
            r == self.code_spec(),
    {
        match self {
            RejectReason::UnknownProver => 24,
            RejectReason::NoTemplate => 21,
            RejectReason::StaleProof => 21,
            RejectReason::DuplicateNonce => 22,
            RejectReason::NoDifficulty => 23,
            RejectReason::TargetNotMet => 23,
            RejectReason::InvalidProof => 26,
        }
    }

    pub fn message(&self) -> (r: &'static str)
        ensures
            self is UnknownProver ==> r@ == "Unknown prover"@,
            self is NoTemplate ==> r@ == "No block template"@,
            self is StaleProof ==> r@ == "Stale proof"@,
            self is DuplicateNonce ==> r@ == "Duplicate nonce"@,
            self is NoDifficulty ==> r@ == "No difficulty"@,
            self is TargetNotMet ==> r@ == "Difficulty target not met"@,
            self is InvalidProof ==> r@ == "Invalid proof"@,
    {
        match self {
            RejectReason::UnknownProver => "Unknown prover",
            RejectReason::NoTemplate => "No block template",
            RejectReason::StaleProof => "Stale proof",
            RejectReason::DuplicateNonce => "Duplicate nonce",
            RejectReason::NoDifficulty => "No difficulty",
            RejectReason::TargetNotMet => "Difficulty target not met",
            RejectReason::InvalidProof => "Invalid proof",
        }
    }
}

/// What the transport must do after a handler returns.
#[derive(Debug)]
pub enum Action {
    /// Tell a prover its share target.
    SetTarget { peer: u64, target: u64 },
    /// Send a prover the current job.
    Notify { peer: u64, job: JobPayload, clean_jobs: bool },
    /// Answer a submit with acceptance.
    RespondOk { peer: u64, id: u64 },
    /// Answer a submit with a coded rejection.
    RespondError { peer: u64, id: u64, reason: RejectReason },
    /// Tell accounting the PPLNS window size.
    SetN { n: u64 },
    /// Credit an accepted share to an address.
    NewShare { address: u64, difficulty: u64 },
    /// Forward a block-solving proof to the operator; the transport
    /// attaches the proof it kept for this submit.
    PoolBlock { nonce: Vec<u8> },
    /// Credit a solved block; the transport derives the block hash from
    /// the template bytes before sending.
    NewBlock { height: u32, reward: u64 },
}

pub open spec fn is_set_target(a: Action, peer: u64, target: u64) -> bool {
    match a {
        Action::SetTarget { peer: p, target: t } => p == peer && t == target,
        _ => false,
    }
}

pub open spec fn is_notify(a: Action, peer: u64, t: TemplateView, clean: bool) -> bool {
    match a {
        Action::Notify { peer: p, job, clean_jobs } => p == peer && is_job_payload(job, t)
            && clean_jobs == clean,
        _ => false,
    }
}

pub open spec fn is_respond_ok(a: Action, peer: u64, id: u64) -> bool {
    match a {
        Action::RespondOk { peer: p, id: i } => p == peer && i == id,
        _ => false,
    }
}

pub open spec fn is_respond_error(a: Action, peer: u64, id: u64, reason: RejectReason) -> bool {
    match a {
        Action::RespondError { peer: p, id: i, reason: r } => p == peer && i == id && r == reason,
        _ => false,
    }
}

pub open spec fn is_set_n(a: Action, n: u64) -> bool {
    match a {
        Action::SetN { n: m } => m == n,
        _ => false,
    }
}

pub open spec fn is_new_share(a: Action, address: u64, difficulty: u64) -> bool {
    match a {
        Action::NewShare { address: ad, difficulty: d } => ad == address && d == difficulty,
        _ => false,
    }
}

pub open spec fn is_pool_block(a: Action, nonce: Seq<u8>) -> bool {
    match a {
        Action::PoolBlock { nonce: n } => n@ == nonce,
        _ => false,
    }
}

pub open spec fn is_new_block(a: Action, height: u32, reward: u64) -> bool {
    match a {
        Action::NewBlock { height: h, reward: r } => h == height && r == reward,
        _ => false,
    }
}

/// A share that passed every local check and now needs the PoSW
/// verifier's verdict before it is credited.
pub struct PendingSubmit {
    pub id: u64,
    pub peer: u64,
    pub address: u64,
    pub block_height: u32,
    pub nonce: Vec<u8>,
    pub proof_difficulty: u64,
    pub share_difficulty: u64,
    pub share_target: u64,
    pub net_target: u64,
    pub reward: u64,
}

impl PendingSubmit {
    /// Every pending share already meets its share target, which is the
    /// exact integer quotient of the maximal target by its difficulty.
    pub open spec fn wf(self) -> bool {
        &&& self.share_difficulty >= 1
        &&& self.share_target == crate::difficulty::target_spec(self.share_difficulty)
        &&& self.proof_difficulty <= self.share_target
        &&& self.net_target >= 1
    }
}

}
