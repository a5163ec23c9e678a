//! Laws the coordinator's transitions obey, proved over the same spec
//! transitions the handlers' contracts use.

use vstd::prelude::*;
use vstd::seq_lib::*;
use crate::difficulty::target_spec;
use crate::message::PendingSubmit;
use crate::prover::spec_promote;
use crate::server::{
    ServerView, spec_authenticate, spec_disconnect, spec_apply_template, with_nonce,
};
use crate::template::TemplateView;

verus! {

/// Authenticating a fresh peer and then disconnecting it restores the
/// authentication, prover and address maps to their prior state; the
/// connected set, which authentication never touches, merely loses the
/// peer as every disconnection makes it.
pub proof fn lemma_auth_disconnect_roundtrip(v: ServerView, peer: u64, address: u64)
    requires
        v.wf(),
        !v.provers.contains_key(peer),
    ensures
        spec_disconnect(spec_authenticate(v, peer, address), peer) == (ServerView {
            connected: v.connected.remove_value(peer),
            ..v
        }),
{
    let w = spec_authenticate(v, peer, address);
    let u = spec_disconnect(w, peer);
    assert(!v.authenticated.contains(peer));
    lemma_push_remove_value(v.authenticated, peer);
    assert(u.provers =~= v.provers);
    assert(w.provers[peer].address == address);
    if v.pac.contains_key(address) {
        let s = v.pac[address];
        assert(!s.contains(peer));
        lemma_push_remove_value(s, peer);
        assert(w.pac[address] == s.push(peer));
        assert(w.pac[address].remove_value(peer) == s);
        assert(s.len() > 0);
        assert(u.pac =~= v.pac);
    } else {
        assert(w.pac[address] == seq![peer]);
        assert(seq![peer][0] == peer);
        assert(seq![peer].contains(peer));
        seq![peer].index_of_first_ensures(peer);
        match seq![peer].index_of_first(peer) {
            Some(i) => {
                assert(i == 0);
                assert(seq![peer].remove(0) =~= Seq::<u64>::empty());
            },
            None => {
                assert(false);
            },
        }
        assert(w.pac[address].remove_value(peer).len() == 0);
        assert(u.pac =~= v.pac.insert(address, seq![peer]).remove(address));
        assert(u.pac =~= v.pac);
    }
    assert(u == (ServerView { connected: v.connected.remove_value(peer), ..v }));
}

/// Pushing a fresh value and removing it again is the identity.
proof fn lemma_push_remove_value(s: Seq<u64>, x: u64)
    requires
        !s.contains(x),
    ensures
        s.push(x).remove_value(x) == s,
{
    let p = s.push(x);
    assert(p[s.len() as int] == x);
    assert(p.contains(x));
    p.index_of_first_ensures(x);
    match p.index_of_first(x) {
        Some(i) => {
            assert(p[i] == x);
            if i < s.len() {
                assert(s[i] == x);
                assert(s.contains(x));
                assert(false);
            }
            assert(i == s.len());
            p.remove_ensures(i);
            assert(p.remove(i) =~= s);
        },
        None => {
            assert(false);
        },
    }
}

/// Applying the same template twice settles: the second application
/// changes nothing beyond the first (its job payload and accounting
/// window size are functions of the template alone, so they repeat
/// identically; see `lemma_job_payload_unique`).
pub proof fn lemma_template_idempotent(v: ServerView, t: TemplateView)
    ensures
        spec_apply_template(spec_apply_template(v, t), t) == spec_apply_template(v, t),
{
    let w = spec_apply_template(v, t);
    let u = spec_apply_template(w, t);
    assert(u.pool == w.pool);
    assert(u.provers =~= w.provers) by {
        assert forall|p: u64| #[trigger] w.provers.contains_key(p) implies u.provers[p]
            == w.provers[p] by {
            assert(w.provers[p] == spec_promote(v.provers[p]));
            assert(u.provers[p] == spec_promote(w.provers[p]));
        }
    }
    assert(u == w);
}

/// A nonce purge leaves nothing behind: every nonce, in particular one
/// just rejected as a duplicate, counts as new afterwards.
pub proof fn lemma_purge_forgets(v: ServerView, n: Seq<u8>)
    ensures
        !(ServerView { nonces: Set::empty(), ..v }).nonces.contains(n),
{
}

/// An accepted share always meets its share target, which is exactly
/// the maximal target divided by the share difficulty the prover was
/// validated against.  Every `PendingSubmit` the engine hands out
/// satisfies this, and acceptance is only ever reported for one.
pub proof fn lemma_accepted_share_meets_target(p: PendingSubmit)
    requires
        p.wf(),
    ensures
        p.proof_difficulty <= target_spec(p.share_difficulty),
        p.share_difficulty >= 1,
{
}

/// Consuming a nonce blocks every later submit with the same nonce
/// until the next purge: the nonce set only ever grows between purges,
/// and a submit whose nonce is already present is turned away before
/// any further check.
pub proof fn lemma_nonce_blocks_duplicates(v: ServerView, n: Seq<u8>)
    ensures
        with_nonce(v, n).nonces.contains(n),
        forall|m: Seq<u8>| v.nonces.contains(m) ==> #[trigger] with_nonce(v, n).nonces.contains(m),
{
}

}
