//! The coordinator: owner of every connection and prover map.
//!
//! Exactly one writer drives a `Server`: the transport feeds it one
//! `ServerMessage` at a time and performs the returned `Action`s, so the
//! locking discipline of a concurrent deployment collapses here into a
//! sequence of whole-state transitions.  Each handler's contract gives
//! that transition exactly, over the ghost `ServerView`.
//!
//! A submitted share is handled in two steps: `process_message` runs
//! every local check and either rejects or hands back a
//! `PendingSubmit`; the transport then runs the PoSW verifier and
//! reports the verdict to `submit_verified`, which credits or rejects
//! the share.  A disconnection between the two steps is tolerated, as a
//! verification task in flight survives a disconnecting prover.

use vstd::prelude::*;
use vstd::seq_lib::*;
use std::collections::HashMap;
use crate::difficulty::{
    MODIFIER_DENOM, scale_spec, target_spec, pplns_spec, scale_difficulty, target_of, pplns_n,
    lemma_scale_at_least,
};
use crate::idset::IdSet;
use crate::message::{
    ServerMessage, Action, RejectReason, PendingSubmit, is_set_target, is_notify, is_respond_ok,
    is_respond_error, is_set_n, is_new_share, is_pool_block, is_new_block,
};
use crate::nonce::NonceSet;
use crate::pool::{PoolState, PoolView, spec_new_pool, spec_pool_add_share, spec_pool_promote};
use crate::prover::{
    ProverState, ProverView, spec_new_prover, spec_add_share, spec_promote,
};
use crate::speedometer::{sat_add, sat_add_spec};
use crate::template::{Template, TemplateView, make_job_payload};

verus! {

broadcast use vstd::std_specs::hash::group_hash_axioms;

pub struct Server {
    pub connected_provers: IdSet,
    pub authenticated_provers: IdSet,
    pub prover_states: HashMap<u64, ProverState>,
    pub prover_address_connections: HashMap<u64, IdSet>,
    pub pool_state: PoolState,
    pub latest_block_height: u32,
    pub latest_block_template: Option<Template>,
    pub nonce_seen: NonceSet,
}

/// The whole coordinator state, abstracted: maps and sequences over the
/// opaque peer and address tokens.
pub struct ServerView {
    pub connected: Seq<u64>,
    pub authenticated: Seq<u64>,
    pub provers: Map<u64, ProverView>,
    pub pac: Map<u64, Seq<u64>>,
    pub height: u32,
    pub template: Option<TemplateView>,
    pub pool: PoolView,
    pub nonces: Set<Seq<u8>>,
}

pub open spec fn provers_view(m: Map<u64, ProverState>) -> Map<u64, ProverView> {
    m.map_values(|p: ProverState| p@)
}

pub open spec fn pac_view(m: Map<u64, IdSet>) -> Map<u64, Seq<u64>> {
    m.map_values(|s: IdSet| s@)
}

impl View for Server {
    type V = ServerView;

    open spec fn view(&self) -> ServerView {
        ServerView {
            connected: self.connected_provers@,
            authenticated: self.authenticated_provers@,
            provers: provers_view(self.prover_states@),
            pac: pac_view(self.prover_address_connections@),
            height: self.latest_block_height,
            template: match self.latest_block_template {
                Some(t) => Some(t@),
                None => None,
            },
            pool: self.pool_state@,
            nonces: self.nonce_seen@,
        }
    }
}

proof fn lemma_provers_view_insert(m: Map<u64, ProverState>, k: u64, v: ProverState)
    ensures
        provers_view(m.insert(k, v)) =~= provers_view(m).insert(k, v@),
{
}

proof fn lemma_provers_view_remove(m: Map<u64, ProverState>, k: u64)
    ensures
        provers_view(m.remove(k)) =~= provers_view(m).remove(k),
{
}

proof fn lemma_pac_view_insert(m: Map<u64, IdSet>, k: u64, v: IdSet)
    ensures
        pac_view(m.insert(k, v)) =~= pac_view(m).insert(k, v@),
{
}

proof fn lemma_pac_view_remove(m: Map<u64, IdSet>, k: u64)
    ensures
        pac_view(m.remove(k)) =~= pac_view(m).remove(k),
{
}

impl ServerView {
    /// The standing invariants of the coordinator.
    ///
    /// A peer is authenticated exactly when it has a prover state; a
    /// peer listed under an address has a state claiming that address;
    /// a stated prover is listed under its claimed address; connection
    /// sets are duplicate-free, address entries never empty, every
    /// difficulty and the pool modifier at least one; the cached
    /// template, if any, is the one of the current height.
    pub open spec fn wf(self) -> bool {
        &&& self.connected.no_duplicates()
        &&& self.authenticated.no_duplicates()
        &&& self.pool.wf()
        &&& forall|p: u64| #[trigger]
            self.authenticated.contains(p) ==> self.provers.contains_key(p)
        &&& forall|p: u64| #[trigger]
            self.provers.contains_key(p) ==> self.authenticated.contains(p)
        &&& forall|p: u64| #[trigger]
            self.provers.contains_key(p) ==> self.provers[p].wf() && self.provers[p].peer == p
        &&& forall|p: u64| #[trigger]
            self.provers.contains_key(p) ==> self.pac.contains_key(self.provers[p].address)
                && self.pac[self.provers[p].address].contains(p)
        &&& forall|a: u64| #[trigger]
            self.pac.contains_key(a) ==> self.pac[a].len() > 0 && self.pac[a].no_duplicates()
        &&& forall|a: u64, p: u64|
            self.pac.contains_key(a) && #[trigger] self.pac[a].contains(p)
                ==> self.provers.contains_key(p) && self.provers[p].address == a
        &&& match self.template {
            Some(t) => t.wf() && t.block_height == self.height,
            None => true,
        }
    }
}

/// A fresh coordinator: everything empty, height zero, no template.
pub open spec fn spec_init() -> ServerView {
    ServerView {
        connected: Seq::empty(),
        authenticated: Seq::empty(),
        provers: Map::empty(),
        pac: Map::empty(),
        height: 0,
        template: None,
        pool: spec_new_pool(),
        nonces: Set::empty(),
    }
}

/// A socket arrived: the peer is recorded as connected.
pub open spec fn spec_connect(v: ServerView, peer: u64) -> ServerView {
    ServerView {
        connected: if v.connected.contains(peer) { v.connected } else { v.connected.push(peer) },
        ..v
    }
}

/// A peer finished the handshake claiming an address: it becomes
/// authenticated with a fresh prover state and is listed under the
/// address.
pub open spec fn spec_authenticate(v: ServerView, peer: u64, address: u64) -> ServerView {
    ServerView {
        authenticated: v.authenticated.push(peer),
        provers: v.provers.insert(peer, spec_new_prover(peer, address)),
        pac: if v.pac.contains_key(address) {
            v.pac.insert(address, v.pac[address].push(peer))
        } else {
            v.pac.insert(address, seq![peer])
        },
        ..v
    }
}

/// A peer went away: every trace of it is dropped, and its address key
/// disappears with its last connection.
pub open spec fn spec_disconnect(v: ServerView, peer: u64) -> ServerView {
    let pac = if v.provers.contains_key(peer) {
        let a = v.provers[peer].address;
        if v.pac.contains_key(a) {
            let s = v.pac[a].remove_value(peer);
            if s.len() == 0 {
                v.pac.remove(a)
            } else {
                v.pac.insert(a, s)
            }
        } else {
            v.pac
        }
    } else {
        v.pac
    };
    ServerView {
        connected: v.connected.remove_value(peer),
        authenticated: v.authenticated.remove_value(peer),
        provers: v.provers.remove(peer),
        pac,
        ..v
    }
}

impl Server {
    /// A fresh coordinator.  Binding the listener, spawning the message
    /// loop and the nonce-purge ticker are the transport's business.
    pub fn init() -> (r: Server)
        ensures
            r@ == spec_init(),
            r@.wf(),
    {
        let r = Server {
            connected_provers: IdSet::new(),
            authenticated_provers: IdSet::new(),
            prover_states: HashMap::new(),
            prover_address_connections: HashMap::new(),
            pool_state: PoolState::new(),
            latest_block_height: 0,
            latest_block_template: None,
            nonce_seen: NonceSet::new(),
        };
        proof {
            assert(provers_view(r.prover_states@) =~= Map::<u64, ProverView>::empty());
            assert(pac_view(r.prover_address_connections@) =~= Map::<u64, Seq<u64>>::empty());
            assert(r@ == spec_init());
            assert(r@.wf());
        }
        r
    }

    /// Record a nonce, answering whether it was already seen in this
    /// purge interval.
    pub fn seen_nonce(&mut self, nonce: &Vec<u8>) -> (r: bool)
        ensures
            r == old(self)@.nonces.contains(nonce@),
            final(self)@ == (ServerView { nonces: old(self)@.nonces.insert(nonce@), ..old(self)@ }),
    {
        self.nonce_seen.check_and_insert(nonce)
    }

    /// The periodic purge: afterwards every nonce counts as new again.
    pub fn clear_seen_nonces(&mut self)
        ensures
            final(self)@ == (ServerView { nonces: Set::empty(), ..old(self)@ }),
    {
        self.nonce_seen.clear();
        proof {
            assert(final(self)@.nonces =~= Set::<Seq<u8>>::empty());
        }
    }

    pub fn handle_prover_connected(&mut self, peer: u64)
        requires
            old(self)@.wf(),
        ensures
            final(self)@ == spec_connect(old(self)@, peer),
            final(self)@.wf(),
    {
        self.connected_provers.insert(peer);
    }

    pub fn handle_prover_authenticated(&mut self, peer: u64, address: u64) -> (acts: Vec<Action>)
        requires
            old(self)@.wf(),
            !old(self)@.provers.contains_key(peer),
        ensures
            final(self)@ == spec_authenticate(old(self)@, peer, address),
            final(self)@.wf(),
            acts@.len() == (if (old(self)@.template is Some) { 2int } else { 1int }),
            is_set_target(acts@[0], peer, u64::MAX),
            (old(self)@.template matches Some(t) ==> is_notify(acts@[1], peer, t, true)),
    {
        let ghost v0 = self@;
        self.authenticated_provers.insert(peer);
        let st = ProverState::new(peer, address);
        self.prover_states.insert(peer, st);
        proof {
            lemma_provers_view_insert(old(self).prover_states@, peer, st);
        }
        let prior = self.prover_address_connections.remove(&address);
        match prior {
            Some(mut set) => {
                proof {
                    lemma_pac_view_remove(old(self).prover_address_connections@, address);
                    assert(v0.pac.contains_key(address));
                    assert(!v0.pac[address].contains(peer));
                }
                set.insert(peer);
                self.prover_address_connections.insert(address, set);
                proof {
                    lemma_pac_view_insert(
                        old(self).prover_address_connections@.remove(address),
                        address,
                        set,
                    );
                    assert(pac_view(self.prover_address_connections@) =~= v0.pac.insert(
                        address,
                        v0.pac[address].push(peer),
                    ));
                }
            },
            None => {
                proof {
                    lemma_pac_view_remove(old(self).prover_address_connections@, address);
                    assert(!v0.pac.contains_key(address));
                }
                let mut set = IdSet::new();
                set.insert(peer);
                self.prover_address_connections.insert(address, set);
                proof {
                    assert(set@ =~= seq![peer]);
                    lemma_pac_view_insert(
                        old(self).prover_address_connections@.remove(address),
                        address,
                        set,
                    );
                    assert(old(self).prover_address_connections@.remove(address)
                        =~= old(self).prover_address_connections@);
                    assert(pac_view(self.prover_address_connections@) =~= v0.pac.insert(
                        address,
                        seq![peer],
                    ));
                }
            },
        }
        proof {
            assert(self@ == spec_authenticate(v0, peer, address));
            lemma_authenticate_preserves_wf(v0, peer, address);
        }
        let mut acts: Vec<Action> = Vec::new();
        acts.push(Action::SetTarget { peer, target: u64::MAX });
        match &self.latest_block_template {
            Some(t) => {
                let job = make_job_payload(t);
                acts.push(Action::Notify { peer, job, clean_jobs: true });
            },
            None => {},
        }
        acts
    }

    pub fn handle_prover_disconnected(&mut self, peer: u64)
        requires
            old(self)@.wf(),
        ensures
            final(self)@ == spec_disconnect(old(self)@, peer),
            final(self)@.wf(),
    {
        let ghost v0 = self@;
        let state = self.prover_states.remove(&peer);
        proof {
            lemma_provers_view_remove(old(self).prover_states@, peer);
        }
        match state {
            Some(st) => {
                proof {
                    assert(v0.provers.contains_key(peer));
                    assert(v0.provers[peer] == st@);
                }
                let address = st.address();
                let prior = self.prover_address_connections.remove(&address);
                match prior {
                    Some(mut set) => {
                        proof {
                            lemma_pac_view_remove(
                                old(self).prover_address_connections@,
                                address,
                            );
                            assert(v0.pac.contains_key(address));
                            assert(set@ == v0.pac[address]);
                        }
                        set.remove(peer);
                        if set.len() > 0 {
                            self.prover_address_connections.insert(address, set);
                            proof {
                                lemma_pac_view_insert(
                                    old(self).prover_address_connections@.remove(address),
                                    address,
                                    set,
                                );
                                assert(pac_view(self.prover_address_connections@)
                                    =~= v0.pac.insert(
                                    address,
                                    v0.pac[address].remove_value(peer),
                                ));
                            }
                        } else {
                            proof {
                                assert(pac_view(self.prover_address_connections@)
                                    =~= v0.pac.remove(address));
                            }
                        }
                    },
                    None => {
                        proof {
                            lemma_pac_view_remove(old(self).prover_address_connections@, address);
                            assert(!v0.pac.contains_key(address));
                            assert(pac_view(self.prover_address_connections@) =~= v0.pac);
                        }
                    },
                }
            },
            None => {
                proof {
                    assert(!v0.provers.contains_key(peer));
                    assert(self.prover_states@ =~= old(self).prover_states@);
                    assert(provers_view(self.prover_states@) =~= v0.provers.remove(peer));
                }
            },
        }
        self.connected_provers.remove(peer);
        self.authenticated_provers.remove(peer);
        proof {
            assert(self@ == spec_disconnect(v0, peer));
            lemma_disconnect_preserves_wf(v0, peer);
        }
    }

    pub fn online_provers(&self) -> (r: u32)
        ensures
            r == self@.authenticated.len() as u32,
    {
        self.authenticated_provers.len() as u32
    }

    pub fn online_addresses(&self) -> (r: u32)
        ensures
            r == self@.pac.dom().len() as u32,
    {
        proof {
            assert(self@.pac.dom() =~= self.prover_address_connections@.dom());
        }
        self.prover_address_connections.len() as u32
    }

    /// Aggregate pool speeds (thousandths of value-per-second) of the
    /// 5m, 15m, 30m and 1h windows.
    pub fn pool_speed(&self, now_ms: u64) -> (r: Vec<u64>)
        requires
            self@.wf(),
        ensures
            r@.len() == 4,
            r@[0] == crate::difficulty::speed_millis_spec(self@.pool.s5m.mass(now_ms), 300),
            r@[1] == crate::difficulty::speed_millis_spec(self@.pool.s15m.mass(now_ms), 900),
            r@[2] == crate::difficulty::speed_millis_spec(self@.pool.s30m.mass(now_ms), 1800),
            r@[3] == crate::difficulty::speed_millis_spec(self@.pool.s1h.mass(now_ms), 3600),
    {
        self.pool_state.speed(now_ms)
    }

    pub fn address_prover_count(&self, address: u64) -> (r: u32)
        ensures
            r == (if self@.pac.contains_key(address) { self@.pac[address].len() as u32 } else {
                0u32
            }),
    {
        match self.prover_address_connections.get(&address) {
            Some(set) => set.len() as u32,
            None => 0,
        }
    }
}

/// A template rotation: the height and cached template are replaced,
/// the pool modifier and every prover's pending difficulty are promoted.
pub open spec fn spec_apply_template(v: ServerView, t: TemplateView) -> ServerView {
    ServerView {
        height: t.block_height,
        template: Some(t),
        pool: spec_pool_promote(v.pool),
        provers: v.provers.map_values(|p: ProverView| spec_promote(p)),
        ..v
    }
}

/// What one peer receives during fan-out: a retarget exactly when its
/// scaled promoted difficulty differs from the one it was last told,
/// then the job notification.
pub open spec fn fanout_group_len(p: u64, provers: Map<u64, ProverView>, g: u64) -> int {
    if provers.contains_key(p) {
        if provers[p].current_difficulty != scale_spec(provers[p].next_difficulty, g) {
            2
        } else {
            1
        }
    } else {
        0
    }
}

pub open spec fn fanout_group(
    p: u64,
    provers: Map<u64, ProverView>,
    g: u64,
    t: TemplateView,
    acts: Seq<Action>,
) -> bool {
    if provers.contains_key(p) {
        let scaled = scale_spec(provers[p].next_difficulty, g);
        if provers[p].current_difficulty != scaled {
            &&& acts.len() == 2
            &&& is_set_target(acts[0], p, target_spec(scaled))
            &&& is_notify(acts[1], p, t, true)
        } else {
            &&& acts.len() == 1
            &&& is_notify(acts[0], p, t, true)
        }
    } else {
        acts.len() == 0
    }
}

/// The whole fan-out: each authenticated peer's group in order, judged
/// against the prover states as they were before any promotion.
pub open spec fn is_fanout(
    peers: Seq<u64>,
    provers: Map<u64, ProverView>,
    g: u64,
    t: TemplateView,
    acts: Seq<Action>,
) -> bool
    decreases peers.len(),
{
    if peers.len() == 0 {
        acts.len() == 0
    } else {
        let p = peers[0];
        let k = fanout_group_len(p, provers, g);
        &&& acts.len() >= k
        &&& fanout_group(p, provers, g, t, acts.take(k))
        &&& is_fanout(peers.drop_first(), provers, g, t, acts.skip(k))
    }
}

/// Fan-out over no peers sends nothing.
pub proof fn lemma_fanout_empty(provers: Map<u64, ProverView>, g: u64, t: TemplateView)
    ensures
        forall|acts: Seq<Action>| is_fanout(Seq::empty(), provers, g, t, acts) <==> acts.len() == 0,
{
}

/// One more processed peer extends a fan-out on the right.
proof fn lemma_fanout_append(
    peers: Seq<u64>,
    provers: Map<u64, ProverView>,
    g: u64,
    t: TemplateView,
    acts: Seq<Action>,
    p: u64,
    more: Seq<Action>,
)
    requires
        is_fanout(peers, provers, g, t, acts),
        fanout_group(p, provers, g, t, more),
    ensures
        is_fanout(peers.push(p), provers, g, t, acts + more),
    decreases peers.len(),
{
    if peers.len() == 0 {
        assert(acts.len() == 0);
        assert(acts + more == more) by {
            assert(acts + more =~= more);
        }
        let k = fanout_group_len(p, provers, g);
        assert(more.len() == k);
        let pp = peers.push(p);
        assert(pp[0] == p);
        assert(pp.drop_first() =~= Seq::<u64>::empty());
        assert(more.take(k) == more) by {
            assert(more.take(k) =~= more);
        }
        assert(more.skip(k).len() == 0);
        assert(is_fanout(pp.drop_first(), provers, g, t, more.skip(k)));
        assert(is_fanout(pp, provers, g, t, more));
    } else {
        let q = peers[0];
        let k = fanout_group_len(q, provers, g);
        assert(acts.len() >= k);
        assert(fanout_group(q, provers, g, t, acts.take(k)));
        assert(is_fanout(peers.drop_first(), provers, g, t, acts.skip(k)));
        lemma_fanout_append(peers.drop_first(), provers, g, t, acts.skip(k), p, more);
        let pp = peers.push(p);
        let am = acts + more;
        assert(pp[0] == q);
        assert(pp.drop_first() == peers.drop_first().push(p)) by {
            assert(pp.drop_first() =~= peers.drop_first().push(p));
        }
        assert(am.take(k) == acts.take(k)) by {
            assert(am.take(k) =~= acts.take(k));
        }
        assert(am.skip(k) == acts.skip(k) + more) by {
            assert(am.skip(k) =~= acts.skip(k) + more);
        }
        assert(is_fanout(pp.drop_first(), provers, g, t, am.skip(k)));
        assert(is_fanout(pp, provers, g, t, am));
    }
}

/// Promotion of every prover keeps the invariants: addresses and peers
/// are untouched and a promoted difficulty is the pending one, which is
/// at least one.
proof fn lemma_apply_template_preserves_wf(v: ServerView, t: TemplateView)
    requires
        v.wf(),
        t.wf(),
    ensures
        spec_apply_template(v, t).wf(),
{
    let w = spec_apply_template(v, t);
    assert forall|p: u64| #[trigger] w.provers.contains_key(p) implies w.authenticated.contains(
        p,
    ) by {
        assert(v.provers.contains_key(p));
    }
    assert forall|p: u64| #[trigger] w.provers.contains_key(p) implies w.provers[p].wf()
        && w.provers[p].peer == p by {
        assert(v.provers.contains_key(p));
        assert(w.provers[p] == spec_promote(v.provers[p]));
    }
    assert forall|p: u64| #[trigger] w.provers.contains_key(p) implies w.pac.contains_key(
        w.provers[p].address,
    ) && w.pac[w.provers[p].address].contains(p) by {
        assert(v.provers.contains_key(p));
        assert(w.provers[p].address == v.provers[p].address);
    }
    assert forall|a: u64, p: u64|
        w.pac.contains_key(a) && #[trigger] w.pac[a].contains(p) implies w.provers.contains_key(p)
        && w.provers[p].address == a by {
        assert(v.pac.contains_key(a) && v.pac[a].contains(p));
        assert(w.provers[p] == spec_promote(v.provers[p]));
    }
}

impl Server {
    /// A new template from the operator: cache it, tell accounting the
    /// PPLNS window, promote the pool modifier and every prover's
    /// difficulty, and notify every authenticated prover, retargeting
    /// those whose scaled difficulty changed.
    pub fn handle_new_block_template(&mut self, template: Template) -> (acts: Vec<Action>)
        requires
            old(self)@.wf(),
            template@.wf(),
        ensures
            final(self)@ == spec_apply_template(old(self)@, template@),
            final(self)@.wf(),
            acts@.len() >= 1,
            is_set_n(acts@[0], pplns_spec(template@.difficulty_target)),
            is_fanout(
                old(self)@.authenticated,
                old(self)@.provers,
                old(self)@.pool.next_global_difficulty_modifier,
                template@,
                acts@.skip(1),
            ),
            old(self)@.authenticated.len() == 0 ==> acts@.len() == 1,
    {
        let ghost v0 = self@;
        let mut acts: Vec<Action> = Vec::new();
        acts.push(Action::SetN { n: pplns_n(template.difficulty_target) });
        let g = self.pool_state.next_global_difficulty_modifier();
        let n = self.authenticated_provers.len();
        let mut i: usize = 0;
        proof {
            assert(v0.authenticated.take(0) =~= Seq::<u64>::empty());
            assert(acts@.skip(1) =~= Seq::<Action>::empty());
        }
        while i < n
            invariant
                i <= n,
                n == self.authenticated_provers@.len(),
                v0.wf(),
                template@.wf(),
                g == v0.pool.next_global_difficulty_modifier,
                g >= MODIFIER_DENOM,
                self.authenticated_provers@ == v0.authenticated,
                self.connected_provers@ == v0.connected,
                self.pool_state@ == spec_pool_promote(v0.pool),
                self.latest_block_height == v0.height,
                v0.template == (match self.latest_block_template {
                    Some(t) => Some(t@),
                    None => None,
                }),
                self.nonce_seen@ == v0.nonces,
                pac_view(self.prover_address_connections@) == v0.pac,
                forall|k: u64|
                    provers_view(self.prover_states@).contains_key(k)
                        == #[trigger] v0.provers.contains_key(k),
                forall|k: u64| #[trigger]
                    v0.provers.contains_key(k) ==> provers_view(self.prover_states@)[k] == (
                    if v0.authenticated.take(i as int).contains(k) {
                        spec_promote(v0.provers[k])
                    } else {
                        v0.provers[k]
                    }),
                acts@.len() >= 1,
                is_set_n(acts@[0], pplns_spec(template@.difficulty_target)),
                is_fanout(
                    v0.authenticated.take(i as int),
                    v0.provers,
                    g,
                    template@,
                    acts@.skip(1),
                ),
            decreases n - i,
        {
            let peer = self.authenticated_provers.items[i];
            let ghost prefix = v0.authenticated.take(i as int);
            let ghost before = acts@;
            proof {
                assert(v0.authenticated.contains(peer));
                assert(v0.provers.contains_key(peer));
                assert(!prefix.contains(peer)) by {
                    if prefix.contains(peer) {
                        let j = choose|j: int|
                            0 <= j < prefix.len() && prefix[j] == peer;
                        assert(v0.authenticated[j] == peer);
                        assert(v0.authenticated[i as int] == peer);
                    }
                }
                assert(provers_view(self.prover_states@)[peer] == v0.provers[peer]);
            }
            let ghost pmap = self.prover_states@;
            let state = self.prover_states.remove(&peer);
            proof {
                lemma_provers_view_remove(pmap, peer);
            }
            match state {
                Some(mut st) => {
                    proof {
                        assert(st@ == v0.provers[peer]);
                        assert(st@.wf());
                    }
                    let current = st.current_difficulty();
                    let next = st.next_difficulty();
                    let scaled = scale_difficulty(next, g);
                    proof {
                        lemma_scale_at_least(next, g);
                    }
                    if current != scaled {
                        acts.push(Action::SetTarget { peer, target: target_of(scaled) });
                    }
                    let job = make_job_payload(&template);
                    acts.push(Action::Notify { peer, job, clean_jobs: true });
                    let ghost mapmid = self.prover_states@;
                    self.prover_states.insert(peer, st);
                    proof {
                        lemma_provers_view_insert(mapmid, peer, st);
                        assert(provers_view(self.prover_states@)[peer] == spec_promote(
                            v0.provers[peer],
                        ));
                        assert(fanout_group(
                            peer,
                            v0.provers,
                            g,
                            template@,
                            acts@.skip(before.len() as int),
                        ));
                    }
                },
                None => {
                    proof {
                        assert(false);
                    }
                },
            }
            proof {
                assert(v0.authenticated.take(i + 1) =~= prefix.push(peer));
                lemma_fanout_append(
                    prefix,
                    v0.provers,
                    g,
                    template@,
                    before.skip(1),
                    peer,
                    acts@.skip(before.len() as int),
                );
                assert(acts@.skip(1) =~= before.skip(1) + acts@.skip(before.len() as int));
                assert forall|k: u64| #[trigger] v0.provers.contains_key(k)
                    implies provers_view(self.prover_states@)[k] == (
                    if v0.authenticated.take(i + 1).contains(k) {
                        spec_promote(v0.provers[k])
                    } else {
                        v0.provers[k]
                    }) by {
                    if k == peer {
                        assert(v0.authenticated.take(i + 1).contains(k)) by {
                            assert(v0.authenticated.take(i + 1)[i as int] == peer);
                        }
                    } else {
                        if prefix.contains(k) {
                            assert(v0.authenticated.take(i + 1).contains(k)) by {
                                let j = choose|j: int| 0 <= j < prefix.len() && prefix[j] == k;
                                assert(v0.authenticated.take(i + 1)[j] == k);
                            }
                        } else {
                            assert(!v0.authenticated.take(i + 1).contains(k)) by {
                                if v0.authenticated.take(i + 1).contains(k) {
                                    let t1 = v0.authenticated.take(i + 1);
                                    let j = choose|j: int| 0 <= j < t1.len() && t1[j] == k;
                                    assert(j != i);
                                    assert(prefix[j] == k);
                                }
                            }
                        }
                    }
                }
            }
            i += 1;
        }
        self.latest_block_height = template.block_height;
        self.latest_block_template = Some(template);
        proof {
            assert(v0.authenticated.take(n as int) =~= v0.authenticated);
            assert(provers_view(self.prover_states@) =~= v0.provers.map_values(
                |p: ProverView| spec_promote(p),
            )) by {
                assert forall|k: u64| #[trigger] v0.provers.contains_key(k)
                    implies provers_view(self.prover_states@)[k] == spec_promote(
                    v0.provers[k],
                ) by {
                    assert(v0.authenticated.contains(k));
                }
            }
            assert(self@ == spec_apply_template(v0, template@));
            lemma_apply_template_preserves_wf(v0, template@);
            if v0.authenticated.len() == 0 {
                assert(acts@.skip(1).len() == 0);
            }
        }
        acts
    }
}

impl ServerView {
    /// What the share-validation path relies on: it reads prover states,
    /// the pool modifier and the cached template, but no map relation.
    pub open spec fn submit_wf(self) -> bool {
        &&& self.pool.wf()
        &&& forall|p: u64| #[trigger] self.provers.contains_key(p) ==> self.provers[p].wf()
        &&& (self.template matches Some(t) ==> t.wf())
    }

    /// The share difficulty a submit from this peer is validated
    /// against: its current difficulty scaled by the current global
    /// modifier.
    pub open spec fn share_difficulty_of(self, peer: u64) -> u64 {
        scale_spec(self.provers[peer].current_difficulty, self.pool.current_global_difficulty_modifier)
    }
}

/// The state after a nonce was consumed, all else equal.
pub open spec fn with_nonce(v: ServerView, n: Seq<u8>) -> ServerView {
    ServerView { nonces: v.nonces.insert(n), ..v }
}

/// The state after the verifier's verdict on a pending share: on
/// acceptance the prover (if still connected) and the pool are credited;
/// a rejection changes nothing.
pub open spec fn spec_verdict(v: ServerView, peer: u64, value: u64, valid: bool, now_ms: u64) -> ServerView {
    if !valid {
        v
    } else {
        ServerView {
            provers: if v.provers.contains_key(peer) {
                v.provers.insert(peer, spec_add_share(v.provers[peer], now_ms, value))
            } else {
                v.provers
            },
            pool: spec_pool_add_share(v.pool, now_ms, value),
            ..v
        }
    }
}

/// Crediting a share keeps the invariants: the windows grow, the
/// pending difficulty stays at least one, nothing else moves.
proof fn lemma_verdict_preserves_wf(v: ServerView, peer: u64, value: u64, valid: bool, now_ms: u64)
    requires
        v.wf(),
    ensures
        spec_verdict(v, peer, value, valid, now_ms).wf(),
{
    let w = spec_verdict(v, peer, value, valid, now_ms);
    if valid && v.provers.contains_key(peer) {
        assert forall|p: u64| #[trigger] w.provers.contains_key(p) implies w.provers[p].wf()
            && w.provers[p].peer == p by {
            assert(v.provers.contains_key(p));
        }
        assert forall|p: u64| #[trigger] w.provers.contains_key(p) implies w.pac.contains_key(
            w.provers[p].address,
        ) && w.pac[w.provers[p].address].contains(p) by {
            assert(v.provers.contains_key(p));
            assert(w.provers[p].address == v.provers[p].address);
        }
        assert forall|a: u64, p: u64|
            w.pac.contains_key(a) && #[trigger] w.pac[a].contains(p)
            implies w.provers.contains_key(p) && w.provers[p].address == a by {
            assert(v.pac.contains_key(a) && v.pac[a].contains(p));
        }
        assert forall|p: u64| #[trigger] w.provers.contains_key(p)
            implies w.authenticated.contains(p) by {
            assert(v.provers.contains_key(p));
        }
    }
}

/// The validation ladder of a submitted share, exactly: the state it
/// leaves behind, the answer sent, and when it instead hands the share
/// on to verification.  Checks run in this order: the outbound channel,
/// the prover state, a cached template, template currency, nonce
/// uniqueness (the nonce is consumed here), a stated proof difficulty,
/// and the share target.
pub open spec fn spec_submit_outcome(
    v0: ServerView,
    v1: ServerView,
    id: u64,
    peer: u64,
    block_height: u32,
    nonce: Seq<u8>,
    proof_difficulty: Option<u64>,
    acts: Seq<Action>,
    pending: Option<PendingSubmit>,
) -> bool {
    if !v0.authenticated.contains(peer) {
        v1 == v0 && acts.len() == 0 && (pending is None)
    } else if !v0.provers.contains_key(peer) {
        v1 == v0 && acts.len() == 1 && (pending is None) && is_respond_error(
            acts[0],
            peer,
            id,
            RejectReason::UnknownProver,
        )
    } else if v0.template is None {
        v1 == v0 && acts.len() == 1 && (pending is None) && is_respond_error(
            acts[0],
            peer,
            id,
            RejectReason::NoTemplate,
        )
    } else if block_height != v0.height {
        v1 == v0 && acts.len() == 1 && (pending is None) && is_respond_error(
            acts[0],
            peer,
            id,
            RejectReason::StaleProof,
        )
    } else if v0.nonces.contains(nonce) {
        v1 == with_nonce(v0, nonce) && acts.len() == 1 && (pending is None) && is_respond_error(
            acts[0],
            peer,
            id,
            RejectReason::DuplicateNonce,
        )
    } else if proof_difficulty is None {
        v1 == with_nonce(v0, nonce) && acts.len() == 1 && (pending is None) && is_respond_error(
            acts[0],
            peer,
            id,
            RejectReason::NoDifficulty,
        )
    } else {
        let d = proof_difficulty.unwrap();
        let sd = v0.share_difficulty_of(peer);
        if d > target_spec(sd) {
            v1 == with_nonce(v0, nonce) && acts.len() == 1 && (pending is None)
                && is_respond_error(acts[0], peer, id, RejectReason::TargetNotMet)
        } else {
            &&& v1 == with_nonce(v0, nonce)
            &&& acts.len() == 0
            &&& (pending matches Some(p) && p.wf() && p.id == id && p.peer == peer && p.address
                == v0.provers[peer].address && p.block_height == block_height && p.nonce@ == nonce
                && p.proof_difficulty == d && p.share_difficulty == sd && p.share_target
                == target_spec(sd) && p.net_target == v0.template.unwrap().difficulty_target
                && p.reward == v0.template.unwrap().reward)
        }
    }
}

impl Server {
    /// Run every local check on a submitted share.  A failing check
    /// answers the prover with its Stratum error; a passing share is
    /// handed back for PoSW verification.  The nonce is consumed the
    /// moment it is checked, so even a share that later fails keeps its
    /// nonce claimed until the next purge.
    pub fn handle_prover_submit(
        &mut self,
        id: u64,
        peer: u64,
        block_height: u32,
        nonce: Vec<u8>,
        proof_difficulty: Option<u64>,
    ) -> (r: (Vec<Action>, Option<PendingSubmit>))
        requires
            old(self)@.submit_wf(),
        ensures
            final(self)@.submit_wf(),
            spec_submit_outcome(
                old(self)@,
                final(self)@,
                id,
                peer,
                block_height,
                nonce@,
                proof_difficulty,
                r.0@,
                r.1,
            ),
            (r.1 is Some) ==> !old(self)@.nonces.contains(nonce@) && final(self)@.nonces.contains(
                nonce@,
            ),
            (r.1 matches Some(p) ==> p.wf()),
            final(self)@ == old(self)@ || final(self)@ == with_nonce(old(self)@, nonce@),
    {
        let ghost v0 = self@;
        if !self.authenticated_provers.contains(peer) {
            return (Vec::new(), None);
        }
        let (current, address) = match self.prover_states.get(&peer) {
            Some(st) => (st.current_difficulty(), st.address()),
            None => {
                proof {
                    assert(!v0.provers.contains_key(peer));
                }
                let mut acts: Vec<Action> = Vec::new();
                acts.push(
                    Action::RespondError { peer, id, reason: RejectReason::UnknownProver },
                );
                return (acts, None);
            },
        };
        proof {
            assert(v0.provers.contains_key(peer));
            assert(current == v0.provers[peer].current_difficulty);
            assert(v0.provers[peer].wf());
        }
        let (net_target, reward) = match &self.latest_block_template {
            Some(t) => (t.difficulty_target, t.reward),
            None => {
                let mut acts: Vec<Action> = Vec::new();
                acts.push(Action::RespondError { peer, id, reason: RejectReason::NoTemplate });
                return (acts, None);
            },
        };
        if block_height != self.latest_block_height {
            let mut acts: Vec<Action> = Vec::new();
            acts.push(Action::RespondError { peer, id, reason: RejectReason::StaleProof });
            return (acts, None);
        }
        if self.seen_nonce(&nonce) {
            let mut acts: Vec<Action> = Vec::new();
            acts.push(Action::RespondError { peer, id, reason: RejectReason::DuplicateNonce });
            proof {
                assert(self@ == with_nonce(v0, nonce@));
            }
            return (acts, None);
        }
        proof {
            assert(self@ == with_nonce(v0, nonce@));
        }
        let g = self.pool_state.current_global_difficulty_modifier();
        let share_difficulty = scale_difficulty(current, g);
        proof {
            lemma_scale_at_least(current, g);
        }
        let share_target = target_of(share_difficulty);
        let proof_diff = match proof_difficulty {
            Some(d) => d,
            None => {
                let mut acts: Vec<Action> = Vec::new();
                acts.push(Action::RespondError { peer, id, reason: RejectReason::NoDifficulty });
                return (acts, None);
            },
        };
        if proof_diff > share_target {
            let mut acts: Vec<Action> = Vec::new();
            acts.push(Action::RespondError { peer, id, reason: RejectReason::TargetNotMet });
            return (acts, None);
        }
        let pending = PendingSubmit {
            id,
            peer,
            address,
            block_height,
            nonce,
            proof_difficulty: proof_diff,
            share_difficulty,
            share_target,
            net_target,
            reward,
        };
        (Vec::new(), Some(pending))
    }

    /// Apply the PoSW verifier's verdict to a pending share.  On
    /// acceptance the prover (which may have disconnected meanwhile) and
    /// the pool are credited, accounting learns of the share, and a
    /// share that also meets the network target is reported as a block.
    pub fn submit_verified(&mut self, pending: PendingSubmit, valid: bool, now_ms: u64) -> (acts:
        Vec<Action>)
        requires
            old(self)@.submit_wf(),
            pending.wf(),
        ensures
            final(self)@ == spec_verdict(
                old(self)@,
                pending.peer,
                pending.share_difficulty,
                valid,
                now_ms,
            ),
            final(self)@.submit_wf(),
            old(self)@.wf() ==> final(self)@.wf(),
            !valid ==> acts@.len() == 1 && is_respond_error(
                acts@[0],
                pending.peer,
                pending.id,
                RejectReason::InvalidProof,
            ),
            valid ==> acts@.len() == (
                if pending.proof_difficulty <= pending.net_target { 4int } else { 2int }
            ) && is_new_share(acts@[0], pending.address, pending.share_difficulty)
                && is_respond_ok(acts@[1], pending.peer, pending.id),
            valid && pending.proof_difficulty <= pending.net_target ==> is_pool_block(
                acts@[2],
                pending.nonce@,
            ) && is_new_block(acts@[3], pending.block_height, pending.reward),
    {
        let ghost v0 = self@;
        if !valid {
            let mut acts: Vec<Action> = Vec::new();
            acts.push(
                Action::RespondError {
                    peer: pending.peer,
                    id: pending.id,
                    reason: RejectReason::InvalidProof,
                },
            );
            return acts;
        }
        let ghost pmap = self.prover_states@;
        let state = self.prover_states.remove(&pending.peer);
        proof {
            lemma_provers_view_remove(pmap, pending.peer);
        }
        match state {
            Some(mut st) => {
                proof {
                    assert(v0.provers.contains_key(pending.peer));
                    assert(st@ == v0.provers[pending.peer]);
                }
                st.add_share(now_ms, pending.share_difficulty);
                let ghost pmid = self.prover_states@;
                self.prover_states.insert(pending.peer, st);
                proof {
                    lemma_provers_view_insert(pmid, pending.peer, st);
                    assert(provers_view(self.prover_states@) =~= v0.provers.insert(
                        pending.peer,
                        spec_add_share(v0.provers[pending.peer], now_ms, pending.share_difficulty),
                    ));
                }
            },
            None => {
                proof {
                    assert(!v0.provers.contains_key(pending.peer));
                    assert(provers_view(self.prover_states@) =~= v0.provers);
                }
            },
        }
        self.pool_state.add_share(now_ms, pending.share_difficulty);
        proof {
            assert(self@ == spec_verdict(
                v0,
                pending.peer,
                pending.share_difficulty,
                valid,
                now_ms,
            ));
            if v0.wf() {
                lemma_verdict_preserves_wf(
                    v0,
                    pending.peer,
                    pending.share_difficulty,
                    valid,
                    now_ms,
                );
            }
        }
        let mut acts: Vec<Action> = Vec::new();
        acts.push(
            Action::NewShare { address: pending.address, difficulty: pending.share_difficulty },
        );
        acts.push(Action::RespondOk { peer: pending.peer, id: pending.id });
        if pending.proof_difficulty <= pending.net_target {
            acts.push(Action::PoolBlock { nonce: pending.nonce });
            acts.push(Action::NewBlock { height: pending.block_height, reward: pending.reward });
        }
        acts
    }
}

/// The nonce set plays no part in the map invariants.
proof fn lemma_with_nonce_preserves_wf(v: ServerView, n: Seq<u8>)
    requires
        v.wf(),
    ensures
        with_nonce(v, n).wf(),
{
}

/// Summed speeds (thousandths of value-per-second, saturating) of the
/// provers of one address, over the four reporting windows.
pub open spec fn spec_addr_speed(
    peers: Seq<u64>,
    provers: Map<u64, ProverView>,
    now_ms: u64,
) -> (u64, u64, u64, u64)
    decreases peers.len(),
{
    if peers.len() == 0 {
        (0u64, 0u64, 0u64, 0u64)
    } else {
        let rest = spec_addr_speed(peers.drop_last(), provers, now_ms);
        let p = peers.last();
        if provers.contains_key(p) {
            let pr = provers[p];
            (
                sat_add_spec(rest.0, crate::difficulty::speed_millis_spec(pr.s5m.mass(now_ms), 300)),
                sat_add_spec(rest.1, crate::difficulty::speed_millis_spec(pr.s15m.mass(now_ms), 900)),
                sat_add_spec(rest.2, crate::difficulty::speed_millis_spec(pr.s30m.mass(now_ms), 1800)),
                sat_add_spec(rest.3, crate::difficulty::speed_millis_spec(pr.s1h.mass(now_ms), 3600)),
            )
        } else {
            rest
        }
    }
}

impl Server {
    /// Summed speeds of every connection of one address; an unknown
    /// address reports zeros.
    pub fn address_speed(&self, address: u64, now_ms: u64) -> (r: Vec<u64>)
        requires
            self@.wf(),
        ensures
            r@.len() == 4,
            self@.pac.contains_key(address) ==> {
                let s = spec_addr_speed(self@.pac[address], self@.provers, now_ms);
                r@[0] == s.0 && r@[1] == s.1 && r@[2] == s.2 && r@[3] == s.3
            },
            !self@.pac.contains_key(address) ==> r@[0] == 0 && r@[1] == 0 && r@[2] == 0 && r@[3]
                == 0,
    {
        let mut a0: u64 = 0;
        let mut a1: u64 = 0;
        let mut a2: u64 = 0;
        let mut a3: u64 = 0;
        match self.prover_address_connections.get(&address) {
            Some(set) => {
                proof {
                    assert(self@.pac.contains_key(address));
                    assert(set@ == self@.pac[address]);
                }
                let n = set.items.len();
                let mut i: usize = 0;
                proof {
                    assert(set@.take(0) =~= Seq::<u64>::empty());
                }
                while i < n
                    invariant
                        i <= n,
                        n == set.items.len(),
                        self@.wf(),
                        set@ == self@.pac[address],
                        self@.pac.contains_key(address),
                        (a0, a1, a2, a3) == spec_addr_speed(
                            set@.take(i as int),
                            self@.provers,
                            now_ms,
                        ),
                    decreases n - i,
                {
                    let peer = set.items[i];
                    proof {
                        assert(set@.take(i + 1).drop_last() =~= set@.take(i as int));
                        assert(set@.take(i + 1).last() == peer);
                        assert(set@[i as int] == peer);
                        assert(set@.contains(peer));
                    }
                    match self.prover_states.get(&peer) {
                        Some(st) => {
                            proof {
                                assert(self@.provers.contains_key(peer));
                                assert(st@ == self@.provers[peer]);
                                assert(st@.wf());
                            }
                            let sp = st.speed(now_ms);
                            a0 = sat_add(a0, sp[0]);
                            a1 = sat_add(a1, sp[1]);
                            a2 = sat_add(a2, sp[2]);
                            a3 = sat_add(a3, sp[3]);
                        },
                        None => {
                            proof {
                                assert(!self@.provers.contains_key(peer));
                            }
                        },
                    }
                    i += 1;
                }
                proof {
                    assert(set@.take(n as int) =~= set@);
                }
            },
            None => {
                proof {
                    assert(!self@.pac.contains_key(address));
                }
            },
        }
        let mut r: Vec<u64> = Vec::new();
        r.push(a0);
        r.push(a1);
        r.push(a2);
        r.push(a3);
        r
    }

    /// Dispatch one inbound message.  A submit may come back as a
    /// `PendingSubmit`, to be settled with `submit_verified` once the
    /// PoSW verifier has spoken.  A repeated handshake or a template
    /// with a zero target would break the invariants the rest relies
    /// on; both are refused without touching state, as the transport
    /// never produces them.
    pub fn process_message(&mut self, msg: ServerMessage) -> (r: (Vec<Action>, Option<
        PendingSubmit,
    >))
        requires
            old(self)@.wf(),
        ensures
            final(self)@.wf(),
            (r.1 matches Some(p) ==> p.wf()),
            (msg is Exit ==> final(self)@ == old(self)@ && r.0@.len() == 0 && (r.1 is None)),
            (msg matches ServerMessage::ProverConnected { peer } ==> final(self)@ == spec_connect(
                old(self)@,
                peer,
            ) && r.0@.len() == 0 && (r.1 is None)),
            (msg matches ServerMessage::ProverAuthenticated { peer, address } ==> (r.1 is None)
                && (if old(self)@.provers.contains_key(peer) {
                final(self)@ == old(self)@ && r.0@.len() == 0
            } else {
                final(self)@ == spec_authenticate(old(self)@, peer, address) && r.0@.len() == (
                if (old(self)@.template is Some) {
                    2int
                } else {
                    1int
                }) && is_set_target(r.0@[0], peer, u64::MAX) && (old(
                    self,
                )@.template matches Some(t) ==> is_notify(r.0@[1], peer, t, true))
            })),
            (msg matches ServerMessage::ProverDisconnected { peer } ==> final(self)@
                == spec_disconnect(old(self)@, peer) && r.0@.len() == 0 && (r.1 is None)),
            (msg matches ServerMessage::ProverSubmit { id, peer, block_height, nonce, proof_difficulty }
                ==> spec_submit_outcome(
                old(self)@,
                final(self)@,
                id,
                peer,
                block_height,
                nonce@,
                proof_difficulty,
                r.0@,
                r.1,
            )),
            (msg matches ServerMessage::NewBlockTemplate { template } ==> (r.1 is None) && (
            if template@.wf() {
                final(self)@ == spec_apply_template(old(self)@, template@) && r.0@.len() >= 1
                    && is_set_n(r.0@[0], pplns_spec(template@.difficulty_target)) && is_fanout(
                    old(self)@.authenticated,
                    old(self)@.provers,
                    old(self)@.pool.next_global_difficulty_modifier,
                    template@,
                    r.0@.skip(1),
                )
            } else {
                final(self)@ == old(self)@ && r.0@.len() == 0
            })),
    {
        let ghost v0 = self@;
        match msg {
            ServerMessage::ProverConnected { peer } => {
                self.handle_prover_connected(peer);
                (Vec::new(), None)
            },
            ServerMessage::ProverAuthenticated { peer, address } => {
                if self.prover_states.contains_key(&peer) {
                    (Vec::new(), None)
                } else {
                    proof {
                        assert(!v0.provers.contains_key(peer));
                    }
                    (self.handle_prover_authenticated(peer, address), None)
                }
            },
            ServerMessage::ProverDisconnected { peer } => {
                self.handle_prover_disconnected(peer);
                (Vec::new(), None)
            },
            ServerMessage::ProverSubmit { id, peer, block_height, nonce, proof_difficulty } => {
                proof {
                    assert(v0.submit_wf());
                }
                let ghost nview = nonce@;
                let r = self.handle_prover_submit(id, peer, block_height, nonce, proof_difficulty);
                proof {
                    if self@ != v0 {
                        lemma_with_nonce_preserves_wf(v0, nview);
                    }
                }
                r
            },
            ServerMessage::NewBlockTemplate { template } => {
                if template.difficulty_target == 0 {
                    (Vec::new(), None)
                } else {
                    (self.handle_new_block_template(template), None)
                }
            },
            ServerMessage::Exit => (Vec::new(), None),
        }
    }
}

/// Authentication of a fresh peer keeps the invariants.
proof fn lemma_authenticate_preserves_wf(v: ServerView, peer: u64, address: u64)
    requires
        v.wf(),
        !v.provers.contains_key(peer),
    ensures
        spec_authenticate(v, peer, address).wf(),
{
    let w = spec_authenticate(v, peer, address);
    assert(!v.authenticated.contains(peer));
    assert forall|p: u64| #[trigger] w.authenticated.contains(p) implies w.provers.contains_key(
        p,
    ) by {
        if p != peer {
            assert(v.authenticated.contains(p));
        }
    }
    assert forall|p: u64| #[trigger] w.provers.contains_key(p) implies w.authenticated.contains(
        p,
    ) by {
        if p == peer {
            assert(w.authenticated[w.authenticated.len() - 1] == peer);
        } else {
            assert(v.authenticated.contains(p));
            let i = choose|i: int| 0 <= i < v.authenticated.len() && v.authenticated[i] == p;
            assert(w.authenticated[i] == p);
        }
    }
    assert(w.authenticated.no_duplicates()) by {
        assert forall|i: int, j: int|
            0 <= i < w.authenticated.len() && 0 <= j < w.authenticated.len() && i != j
            implies w.authenticated[i] != w.authenticated[j] by {
            if i < v.authenticated.len() && j < v.authenticated.len() {
            } else if i == v.authenticated.len() {
                assert(w.authenticated[j] == v.authenticated[j]);
            } else {
                assert(w.authenticated[i] == v.authenticated[i]);
            }
        }
    }
    if v.pac.contains_key(address) {
        assert(!v.pac[address].contains(peer));
    }
    assert forall|a: u64| #[trigger] w.pac.contains_key(a) implies w.pac[a].len() > 0
        && w.pac[a].no_duplicates() by {
        if a == address {
            if v.pac.contains_key(address) {
                let s = v.pac[address];
                assert forall|i: int, j: int|
                    0 <= i < s.push(peer).len() && 0 <= j < s.push(peer).len() && i != j
                    implies s.push(peer)[i] != s.push(peer)[j] by {
                    if i < s.len() && j < s.len() {
                    } else if i == s.len() {
                        assert(s.push(peer)[j] == s[j]);
                        assert(s.contains(s[j]));
                    } else {
                        assert(s.push(peer)[i] == s[i]);
                        assert(s.contains(s[i]));
                    }
                }
            }
        }
    }
    assert forall|a: u64, p: u64|
        w.pac.contains_key(a) && #[trigger] w.pac[a].contains(p) implies w.provers.contains_key(p)
        && w.provers[p].address == a by {
        if a == address {
            if v.pac.contains_key(address) {
                let s = v.pac[address];
                let i = choose|i: int| 0 <= i < s.push(peer).len() && s.push(peer)[i] == p;
                if i < s.len() {
                    assert(s.contains(p));
                } else {
                    assert(p == peer);
                }
            } else {
                assert(w.pac[a][0] == peer);
                let i = choose|i: int| 0 <= i < w.pac[a].len() && w.pac[a][i] == p;
                assert(p == peer);
            }
        } else {
            assert(v.pac.contains_key(a) && v.pac[a].contains(p));
        }
    }
    assert forall|p: u64| #[trigger] w.provers.contains_key(p) implies w.pac.contains_key(
        w.provers[p].address,
    ) && w.pac[w.provers[p].address].contains(p) by {
        if p == peer {
            if v.pac.contains_key(address) {
                let s = v.pac[address];
                assert(w.pac[address][s.len() as int] == peer);
            } else {
                assert(w.pac[address][0] == peer);
            }
        } else {
            let a = v.provers[p].address;
            assert(v.pac.contains_key(a) && v.pac[a].contains(p));
            if a == address {
                let s = v.pac[address];
                let i = choose|i: int| 0 <= i < s.len() && s[i] == p;
                assert(w.pac[address][i] == p);
            }
        }
    }
}

/// Disconnection keeps the invariants, whether or not the peer was
/// known.
proof fn lemma_disconnect_preserves_wf(v: ServerView, peer: u64)
    requires
        v.wf(),
    ensures
        spec_disconnect(v, peer).wf(),
{
    let w = spec_disconnect(v, peer);
    lemma_remove_value_no_duplicates(v.connected, peer);
    lemma_remove_value_no_duplicates(v.authenticated, peer);
    lemma_remove_value_contains(v.authenticated, peer);
    lemma_remove_value_contains(v.connected, peer);
    assert forall|p: u64| #[trigger] w.authenticated.contains(p) implies w.provers.contains_key(
        p,
    ) by {
        assert(v.authenticated.contains(p));
    }
    assert forall|p: u64| #[trigger] w.provers.contains_key(p) implies w.authenticated.contains(
        p,
    ) by {
        assert(v.authenticated.contains(p));
        assert(p != peer);
        lemma_remove_value_keeps_others(v.authenticated, peer, p);
    }
    if v.provers.contains_key(peer) {
        let a0 = v.provers[peer].address;
        assert(v.pac.contains_key(a0));
        lemma_remove_value_no_duplicates(v.pac[a0], peer);
        lemma_remove_value_contains(v.pac[a0], peer);
        assert forall|a: u64| #[trigger] w.pac.contains_key(a) implies w.pac[a].len() > 0
            && w.pac[a].no_duplicates() by {
            if a == a0 {
                lemma_remove_value_no_duplicates(v.pac[a], peer);
            } else {
                assert(v.pac.contains_key(a));
            }
        }
        assert forall|a: u64, p: u64|
            w.pac.contains_key(a) && #[trigger] w.pac[a].contains(p)
            implies w.provers.contains_key(p) && w.provers[p].address == a by {
            if a == a0 {
                lemma_remove_value_subset(v.pac[a0], peer, p);
                assert(v.pac[a0].contains(p));
                assert(p != peer);
            } else {
                assert(v.pac.contains_key(a) && v.pac[a].contains(p));
                assert(p != peer) by {
                    if p == peer {
                        assert(v.provers[peer].address == a);
                    }
                }
            }
        }
        assert forall|p: u64| #[trigger] w.provers.contains_key(p) implies w.pac.contains_key(
            w.provers[p].address,
        ) && w.pac[w.provers[p].address].contains(p) by {
            let a = v.provers[p].address;
            assert(v.pac.contains_key(a) && v.pac[a].contains(p));
            if a == a0 {
                lemma_remove_value_keeps_others(v.pac[a0], peer, p);
            }
        }
    } else {
        assert forall|a: u64, p: u64|
            w.pac.contains_key(a) && #[trigger] w.pac[a].contains(p)
            implies w.provers.contains_key(p) && w.provers[p].address == a by {
            assert(v.pac.contains_key(a) && v.pac[a].contains(p));
            assert(p != peer);
        }
    }
}

/// `remove_value` keeps a sequence duplicate-free.
proof fn lemma_remove_value_no_duplicates(s: Seq<u64>, x: u64)
    requires
        s.no_duplicates(),
    ensures
        s.remove_value(x).no_duplicates(),
        s.contains(x) ==> !s.remove_value(x).contains(x),
        s.contains(x) ==> s.remove_value(x).len() == s.len() - 1,
        !s.contains(x) ==> s.remove_value(x) == s,
{
    s.index_of_first_ensures(x);
    match s.index_of_first(x) {
        Some(i) => {
            s.remove_ensures(i);
            let r = s.remove(i);
            assert forall|p: int, q: int|
                0 <= p < r.len() && 0 <= q < r.len() && p != q implies r[p] != r[q] by {
                let sp = if p < i { p } else { p + 1 };
                let sq = if q < i { q } else { q + 1 };
                assert(r[p] == s[sp]);
                assert(r[q] == s[sq]);
            }
            assert forall|j: int| 0 <= j < r.len() implies r[j] != x by {
                if j < i {
                    assert(r[j] == s[j]);
                } else {
                    assert(r[j] == s[j + 1]);
                }
            }
        },
        None => {},
    }
}

/// Nothing but the removed value leaves the sequence.
proof fn lemma_remove_value_subset(s: Seq<u64>, x: u64, p: u64)
    requires
        s.remove_value(x).contains(p),
    ensures
        s.contains(p),
{
    s.index_of_first_ensures(x);
    match s.index_of_first(x) {
        Some(i) => {
            s.remove_ensures(i);
            let r = s.remove(i);
            let j = choose|j: int| 0 <= j < r.len() && r[j] == p;
            if j < i {
                assert(s[j] == p);
            } else {
                assert(s[j + 1] == p);
            }
        },
        None => {},
    }
}

/// Every other value survives `remove_value`.
proof fn lemma_remove_value_keeps_others(s: Seq<u64>, x: u64, p: u64)
    requires
        s.contains(p),
        p != x,
    ensures
        s.remove_value(x).contains(p),
{
    s.index_of_first_ensures(x);
    match s.index_of_first(x) {
        Some(i) => {
            s.remove_ensures(i);
            let j = choose|j: int| 0 <= j < s.len() && s[j] == p;
            if j < i {
                assert(s.remove(i)[j] == p);
            } else {
                assert(j != i);
                assert(s.remove(i)[j - 1] == s[j]);
            }
        },
        None => {},
    }
}

/// `remove_value` never yields a value the sequence did not hold.
proof fn lemma_remove_value_contains(s: Seq<u64>, x: u64)
    ensures
        forall|p: u64| #[trigger]
            s.remove_value(x).contains(p) ==> s.contains(p),
{
    assert forall|p: u64| #[trigger] s.remove_value(x).contains(p) implies s.contains(p) by {
        lemma_remove_value_subset(s, x, p);
    }
}

}
