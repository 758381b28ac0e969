//! Anti-replay: the process-wide set of previously accepted token
//! identifiers. Membership test and insertion are one operation, so no two
//! validations can both observe the same identifier as absent.

use vstd::prelude::*;
use crate::claims::bytes_eq;

verus! {

/// The set of token identifiers accepted so far.
pub struct ReplayGuard {
    seen: Vec<Vec<u8>>,
}

impl View for ReplayGuard {
    type V = Set<Seq<u8>>;

    closed spec fn view(&self) -> Set<Seq<u8>> {
        Set::new(|x: Seq<u8>| exists|i: int| 0 <= i < self.seen@.len() && self.seen@[i]@ == x)
    }
}

impl ReplayGuard {
    /// An empty guard: no identifier has been accepted.
    pub fn new() -> (r: ReplayGuard)
        ensures
            r@ == Set::<Seq<u8>>::empty(),
    {
        let r = ReplayGuard { seen: Vec::new() };
        proof {
            assert(r@ =~= Set::<Seq<u8>>::empty());
        }
        r
    }

    /// The one logical operation of the guard: accept the identifier if it
    /// was never seen, else reject it; in both cases the identifier is in
    /// the set afterwards. Check and insertion are a single operation of
    /// one exclusive borrow.
    #[verifier::loop_isolation(false)]
    pub fn accept_or_reject(&mut self, jti: &[u8]) -> (accepted: bool)
        ensures
            accepted <==> !old(self)@.contains(jti@),
            final(self)@ == old(self)@.insert(jti@),
    {
        let n: usize = self.seen.len();
        let mut i: usize = 0;
        while i < n
            invariant
                i <= n,
                forall|j: int| 0 <= j < i ==> self.seen@[j]@ != jti@,
            decreases n - i,
        {
            if bytes_eq(self.seen[i].as_slice(), jti) {
                proof {
                    assert(old(self)@.contains(jti@));
                    assert(final(self)@ =~= old(self)@.insert(jti@));
                }
                return false;
            }
            i = i + 1;
        }
        proof {
            assert(!old(self)@.contains(jti@));
        }
        let mut copy: Vec<u8> = Vec::new();
        let m: usize = jti.len();
        let mut k: usize = 0;
        while k < m
            invariant
                k <= m,
                copy@ == jti@.take(k as int),
            decreases m - k,
        {
            copy.push(jti[k]);
            proof {
                assert(copy@ =~= jti@.take(k + 1));
            }
            k = k + 1;
        }
        proof {
            assert(copy@ =~= jti@);
        }
        let ghost before = self.seen@;
        self.seen.push(copy);
        proof {
            assert forall|x: Seq<u8>| final(self)@.contains(x) <==> old(self)@.insert(
                jti@,
            ).contains(x) by {
                if final(self)@.contains(x) {
                    let w = choose|i: int|
                        0 <= i < self.seen@.len() && self.seen@[i]@ == x;
                    if w < before.len() {
                        assert(before[w]@ == x);
                    }
                }
                if old(self)@.insert(jti@).contains(x) {
                    if x == jti@ {
                        assert(self.seen@[before.len() as int]@ == x);
                    } else {
                        let w = choose|i: int| 0 <= i < before.len() && before[i]@ == x;
                        assert(self.seen@[w]@ == x);
                    }
                }
            }
            assert(final(self)@ =~= old(self)@.insert(jti@));
        }
        true
    }
}

} // verus!
