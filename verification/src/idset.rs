//! A small duplicate-free set of identifiers with a deterministic
//! iteration order (insertion order).  The server keeps the connected
//! peers, the authenticated peers and the per-address connection sets in
//! this shape; the order of the authenticated set is the fan-out order.

use vstd::prelude::*;
use vstd::seq_lib::*;

verus! {

pub struct IdSet {
    pub items: Vec<u64>,
}

impl View for IdSet {
    type V = Seq<u64>;

    open spec fn view(&self) -> Seq<u64> {
        self.items@
    }
}

impl IdSet {
    pub open spec fn wf(self) -> bool {
        self@.no_duplicates()
    }

    pub fn new() -> (r: Self)
        ensures
            r@ =~= Seq::<u64>::empty(),
            r.wf(),
    {
        IdSet { items: Vec::new() }
    }

    pub fn contains(&self, x: u64) -> (r: bool)
        ensures
            r == self@.contains(x),
    {
        let n = self.items.len();
        let mut i: usize = 0;
        while i < n
            invariant
                i <= n,
                n == self.items.len(),
                forall|j: int| 0 <= j < i ==> self@[j] != x,
            decreases n - i,
        {
            if self.items[i] == x {
                return true;
            }
            i += 1;
        }
        false
    }

    /// Insert; a present element leaves the set unchanged.
    pub fn insert(&mut self, x: u64)
        requires
            old(self).wf(),
        ensures
            final(self).wf(),
            old(self)@.contains(x) ==> final(self)@ == old(self)@,
            !old(self)@.contains(x) ==> final(self)@ == old(self)@.push(x),
            final(self)@.contains(x),
    {
        if !self.contains(x) {
            self.items.push(x);
            proof {
                let s = old(self)@;
                assert forall|p: int, q: int|
                    0 <= p < self@.len() && 0 <= q < self@.len() && p != q implies self@[p]
                    != self@[q] by {
                    if p < s.len() && q < s.len() {
                    } else if p == s.len() {
                        assert(self@[q] == s[q]);
                    } else {
                        assert(self@[p] == s[p]);
                    }
                }
                assert(self@[s.len() as int] == x);
            }
        }
    }

    /// Remove; an absent element leaves the set unchanged.
    pub fn remove(&mut self, x: u64)
        requires
            old(self).wf(),
        ensures
            final(self).wf(),
            final(self)@ == old(self)@.remove_value(x),
            !final(self)@.contains(x),
    {
        let n = self.items.len();
        let mut i: usize = 0;
        while i < n
            invariant
                i <= n,
                n == self.items.len(),
                self@ == old(self)@,
                old(self)@.no_duplicates(),
                forall|j: int| 0 <= j < i ==> self@[j] != x,
            decreases n - i,
        {
            if self.items[i] == x {
                self.items.remove(i);
                proof {
                    assert(old(self)@[i as int] == x);
                    assert(old(self)@.contains(x));
                    old(self)@.index_of_first_ensures(x);
                    match old(self)@.index_of_first(x) {
                        Some(idx) => {
                            assert(idx == i as int);
                        },
                        None => {
                            assert(false);
                        },
                    }
                    assert(self@ == old(self)@.remove(i as int));
                    assert(old(self)@.remove_value(x) == old(self)@.remove(i as int));
                    lemma_removed_no_duplicates(old(self)@, i as int);
                    lemma_removed_first_not_contained(old(self)@, i as int, x);
                }
                return;
            }
            i += 1;
        }
        proof {
            assert(!old(self)@.contains(x));
            old(self)@.index_of_first_ensures(x);
        }
    }

    pub fn len(&self) -> (r: usize)
        ensures
            r == self@.len(),
    {
        self.items.len()
    }
}

/// Removing an element of a duplicate-free sequence keeps it
/// duplicate-free.
proof fn lemma_removed_no_duplicates(s: Seq<u64>, i: int)
    requires
        s.no_duplicates(),
        0 <= i < s.len(),
    ensures
        s.remove(i).no_duplicates(),
{
    s.remove_ensures(i);
    let r = s.remove(i);
    assert forall|p: int, q: int| 0 <= p < r.len() && 0 <= q < r.len() && p != q implies r[p]
        != r[q] by {
        let sp = if p < i { p } else { p + 1 };
        let sq = if q < i { q } else { q + 1 };
        assert(r[p] == s[sp]);
        assert(r[q] == s[sq]);
    }
}

/// Removing the only occurrence of a value removes it from a
/// duplicate-free sequence.
proof fn lemma_removed_first_not_contained(s: Seq<u64>, i: int, x: u64)
    requires
        s.no_duplicates(),
        0 <= i < s.len(),
        s[i] == x,
    ensures
        !s.remove(i).contains(x),
{
    s.remove_ensures(i);
    assert forall|j: int| 0 <= j < s.remove(i).len() implies s.remove(i)[j] != x by {
        if j < i {
            assert(s.remove(i)[j] == s[j]);
        } else {
            assert(s.remove(i)[j] == s[j + 1]);
        }
    }
}

}
