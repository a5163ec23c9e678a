//! The set of nonces already credited in the current purge interval.
//! A submitted nonce is checked and recorded in one step; a periodic
//! bulk clear empties the set (nonces become irrelevant when the block
//! template rotates, so no per-entry expiry is kept).

use vstd::prelude::*;

verus! {

pub struct NonceSet {
    pub seen: Vec<Vec<u8>>,
}

impl NonceSet {
    pub open spec fn nonces_seq(self) -> Seq<Seq<u8>> {
        self.seen@.map_values(|v: Vec<u8>| v@)
    }
}

impl View for NonceSet {
    type V = Set<Seq<u8>>;

    open spec fn view(&self) -> Set<Seq<u8>> {
        self.nonces_seq().to_set()
    }
}

/// Appending one element grows the element set by exactly that element.
proof fn lemma_to_set_push<A>(s: Seq<A>, e: A)
    ensures
        s.push(e).to_set() =~= s.to_set().insert(e),
{
    let p = s.push(e);
    assert forall|x: A| p.to_set().contains(x) implies s.to_set().insert(e).contains(x) by {
        let i = choose|i: int| 0 <= i < p.len() && p[i] == x;
        if i < s.len() {
            assert(s[i] == x);
            assert(s.contains(x));
        } else {
            assert(x == e);
        }
    }
    assert forall|x: A| s.to_set().insert(e).contains(x) implies p.to_set().contains(x) by {
        if x == e {
            assert(p[s.len() as int] == x);
            assert(p.contains(x));
        } else {
            let i = choose|i: int| 0 <= i < s.len() && s[i] == x;
            assert(p[i] == x);
            assert(p.contains(x));
        }
    }
}

pub fn bytes_eq(a: &Vec<u8>, b: &Vec<u8>) -> (r: bool)
    ensures
        r == (a@ == b@),
{
    let n = a.len();
    if n != b.len() {
        proof {
            assert(a@.len() != b@.len());
        }
        return false;
    }
    let mut i: usize = 0;
    while i < n
        invariant
            i <= n,
            n == a.len(),
            n == b.len(),
            forall|j: int| 0 <= j < i ==> a@[j] == b@[j],
        decreases n - i,
    {
        if a[i] != b[i] {
            return false;
        }
        i += 1;
    }
    proof {
        assert(a@ =~= b@);
    }
    true
}

impl NonceSet {
    pub fn new() -> (r: Self)
        ensures
            r@ =~= Set::<Seq<u8>>::empty(),
    {
        let r = NonceSet { seen: Vec::new() };
        proof {
            assert(r@ =~= Set::<Seq<u8>>::empty());
        }
        r
    }

    fn contains(&self, nonce: &Vec<u8>) -> (r: bool)
        ensures
            r == self@.contains(nonce@),
    {
        let n = self.seen.len();
        let mut i: usize = 0;
        while i < n
            invariant
                i <= n,
                n == self.seen.len(),
                forall|j: int| 0 <= j < i ==> self.seen@[j]@ != nonce@,
            decreases n - i,
        {
            if bytes_eq(&self.seen[i], nonce) {
                proof {
                    assert(self.nonces_seq()[i as int] == nonce@);
                    assert(self.nonces_seq().contains(nonce@));
                }
                return true;
            }
            i += 1;
        }
        proof {
            assert forall|j: int| 0 <= j < self.nonces_seq().len() implies self.nonces_seq()[j]
                != nonce@ by {
                assert(self.nonces_seq()[j] == self.seen@[j]@);
            }
            assert(!self.nonces_seq().contains(nonce@));
        }
        false
    }

    /// Record a nonce; the answer says whether it had been seen before.
    pub fn check_and_insert(&mut self, nonce: &Vec<u8>) -> (r: bool)
        ensures
            r == old(self)@.contains(nonce@),
            final(self)@ == old(self)@.insert(nonce@),
    {
        if self.contains(nonce) {
            proof {
                assert(self@.insert(nonce@) =~= self@);
            }
            true
        } else {
            let ghost orig = old(self).nonces_seq();
            let n = nonce.len();
            let mut own: Vec<u8> = Vec::new();
            let mut i: usize = 0;
            while i < n
                invariant
                    i <= n,
                    n == nonce.len(),
                    own@ == nonce@.take(i as int),
                decreases n - i,
            {
                own.push(nonce[i]);
                proof {
                    assert(own@ =~= nonce@.take(i + 1));
                }
                i += 1;
            }
            proof {
                assert(own@ =~= nonce@);
            }
            self.seen.push(own);
            proof {
                assert(self.nonces_seq() =~= orig.push(nonce@));
                lemma_to_set_push(orig, nonce@);
                assert(self@ =~= orig.to_set().insert(nonce@));
            }
            false
        }
    }

    /// Bulk purge: afterwards every nonce counts as new again.
    pub fn clear(&mut self)
        ensures
            final(self)@ =~= Set::<Seq<u8>>::empty(),
    {
        self.seen = Vec::new();
        proof {
            assert(self@ =~= Set::<Seq<u8>>::empty());
        }
    }
}

}
