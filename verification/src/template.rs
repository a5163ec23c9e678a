//! Block templates and their on-wire job projection.
//!
//! A template arrives from the operator already serialised to plain
//! values: the height, the network difficulty target, the coinbase
//! reward, and the byte strings of the previous block hash, the header
//! tree root and its first four hashed leaves.  The job payload is the
//! hex projection Stratum carries: the job id is the hex of the
//! little-endian height.

use vstd::prelude::*;
use crate::hexenc::{hex_of, le4_spec, hex_encode, height_le_bytes};

verus! {

pub struct Template {
    pub block_height: u32,
    pub difficulty_target: u64,
    pub reward: u64,
    pub previous_block_hash: Vec<u8>,
    pub header_root: Vec<u8>,
    pub leaf0: Vec<u8>,
    pub leaf1: Vec<u8>,
    pub leaf2: Vec<u8>,
    pub leaf3: Vec<u8>,
}

pub struct TemplateView {
    pub block_height: u32,
    pub difficulty_target: u64,
    pub reward: u64,
    pub previous_block_hash: Seq<u8>,
    pub header_root: Seq<u8>,
    pub leaf0: Seq<u8>,
    pub leaf1: Seq<u8>,
    pub leaf2: Seq<u8>,
    pub leaf3: Seq<u8>,
}

impl View for Template {
    type V = TemplateView;

    open spec fn view(&self) -> TemplateView {
        TemplateView {
            block_height: self.block_height,
            difficulty_target: self.difficulty_target,
            reward: self.reward,
            previous_block_hash: self.previous_block_hash@,
            header_root: self.header_root@,
            leaf0: self.leaf0@,
            leaf1: self.leaf1@,
            leaf2: self.leaf2@,
            leaf3: self.leaf3@,
        }
    }
}

impl TemplateView {
    /// A target of zero would make every division by it meaningless; the
    /// operator never produces one.
    pub open spec fn wf(self) -> bool {
        self.difficulty_target >= 1
    }
}

/// The strings Stratum's job notification carries.
#[derive(Debug)]
pub struct JobPayload {
    pub job_id: String,
    pub header_root: String,
    pub leaf0: String,
    pub leaf1: String,
    pub leaf2: String,
    pub leaf3: String,
}

/// The one job payload a template determines: every field is the hex of
/// the corresponding template bytes, the job id the hex of the
/// little-endian height.
pub open spec fn is_job_payload(j: JobPayload, t: TemplateView) -> bool {
    &&& j.job_id@ == hex_of(le4_spec(t.block_height))
    &&& j.header_root@ == hex_of(t.header_root)
    &&& j.leaf0@ == hex_of(t.leaf0)
    &&& j.leaf1@ == hex_of(t.leaf1)
    &&& j.leaf2@ == hex_of(t.leaf2)
    &&& j.leaf3@ == hex_of(t.leaf3)
}

/// Two payloads of the same template are identical on the wire.
pub proof fn lemma_job_payload_unique(a: JobPayload, b: JobPayload, t: TemplateView)
    requires
        is_job_payload(a, t),
        is_job_payload(b, t),
    ensures
        a.job_id@ == b.job_id@,
        a.header_root@ == b.header_root@,
        a.leaf0@ == b.leaf0@,
        a.leaf1@ == b.leaf1@,
        a.leaf2@ == b.leaf2@,
        a.leaf3@ == b.leaf3@,
{
}

pub fn make_job_payload(t: &Template) -> (r: JobPayload)
    ensures
        is_job_payload(r, t@),
{
    let height_bytes = height_le_bytes(t.block_height);
    JobPayload {
        job_id: hex_encode(&height_bytes),
        header_root: hex_encode(&t.header_root),
        leaf0: hex_encode(&t.leaf0),
        leaf1: hex_encode(&t.leaf1),
        leaf2: hex_encode(&t.leaf2),
        leaf3: hex_encode(&t.leaf3),
    }
}

}
