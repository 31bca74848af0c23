//! Order-preserving aggregation for the fan-out over many images: tasks may
//! finish in any order, so completed per-image outcomes are buffered together
//! with their original submission index and reassembled into submission order.

use vstd::prelude::*;

use crate::select::TagError;

verus! {

/// One per-image outcome: the selected tag, or the error for that image.
pub type Outcome = Result<String, TagError>;

/// Whether some completed outcome carries submission index `k`.
pub open spec fn covered(completed: Seq<(usize, Outcome)>, k: int) -> bool {
    exists|j: int| 0 <= j < completed.len() && (#[trigger] completed[j]).0 == k
}

/// Whether the completed outcomes carry exactly one outcome for every
/// submission index below `n`: all indices in range, no index twice, and
/// every index covered.
pub open spec fn covers_all(completed: Seq<(usize, Outcome)>, n: int) -> bool {
    &&& forall|j: int| 0 <= j < completed.len() ==> 0 <= (#[trigger] completed[j]).0 < n
    &&& forall|j1: int, j2: int|
        0 <= j1 < j2 < completed.len() ==> (#[trigger] completed[j1]).0 != (
        #[trigger] completed[j2]).0
    &&& forall|k: int| 0 <= k < n ==> #[trigger] covered(completed, k)
}

/// Reassembles completed per-image outcomes, each keyed by its original
/// submission index, into submission order for `n` submitted images. Yields
/// nothing when the completed set is not exactly one outcome per index.
#[verifier::loop_isolation(false)]
pub fn reorder_outcomes(completed: Vec<(usize, Outcome)>, n: usize) -> (r: Option<Vec<Outcome>>)
    ensures
        r is Some <==> covers_all(completed@, n as int),
        r matches Some(v) ==> {
            &&& v@.len() == n
            &&& forall|j: int|
                0 <= j < completed@.len() ==> v@[(#[trigger] completed@[j]).0 as int]
                    == completed@[j].1
        },
{
    let ghost orig = completed@;
    let ghost total = orig.len() as int;
    let mut completed = completed;
    let mut slots: Vec<Option<Outcome>> = Vec::new();
    while slots.len() < n
        invariant
            slots.len() <= n,
            forall|k: int| 0 <= k < slots@.len() ==> #[trigger] slots@[k] is None,
        decreases n - slots.len(),
    {
        slots.push(None);
    }
    proof {
        assert(orig.subrange(0, total) =~= orig);
    }
    while completed.len() > 0
        invariant
            slots@.len() == n,
            completed@ == orig.subrange(0, completed@.len() as int),
            completed@.len() <= total,
            forall|j1: int, j2: int|
                completed@.len() <= j1 < j2 < total ==> (#[trigger] orig[j1]).0 != (
                #[trigger] orig[j2]).0,
            forall|j: int| completed@.len() <= j < total ==> (#[trigger] orig[j]).0 < n,
            forall|k: int|
                0 <= k < n ==> ((#[trigger] slots@[k]) is Some <==> exists|j: int|
                    completed@.len() <= j < total && (#[trigger] orig[j]).0 == k),
            forall|j: int|
                completed@.len() <= j < total ==> slots@[(#[trigger] orig[j]).0 as int] == Some(
                    orig[j].1,
                ),
        decreases completed@.len(),
    {
        let ghost m = completed@.len() as int;
        proof {
            assert(completed@[m - 1] == orig[m - 1]);
            assert(orig.subrange(0, m).drop_last() =~= orig.subrange(0, m - 1));
        }
        let pair = completed.pop().unwrap();
        let idx = pair.0;
        proof {
            assert(pair == orig[m - 1]);
            assert(completed@ =~= orig.subrange(0, m - 1));
        }
        if idx >= n {
            proof {
                assert(!covers_all(orig, n as int)) by {
                    if covers_all(orig, n as int) {
                        assert(0 <= (orig[m - 1]).0 < n);
                    }
                }
            }
            return None;
        }
        let ghost pre_slots = slots@;
        let prev = slots.remove(idx);
        if prev.is_some() {
            proof {
                let j = choose|j: int| m <= j < total && (#[trigger] orig[j]).0 == idx;
                assert(!covers_all(orig, n as int)) by {
                    if covers_all(orig, n as int) {
                        assert((orig[m - 1]).0 != (orig[j]).0);
                    }
                }
            }
            return None;
        }
        slots.insert(idx, Some(pair.1));
        proof {
            assert(slots@ =~= pre_slots.update(idx as int, Some(orig[m - 1].1)));
            assert forall|k: int|
                0 <= k < n implies ((#[trigger] slots@[k]) is Some <==> exists|j: int|
                m - 1 <= j < total && (#[trigger] orig[j]).0 == k) by {
                if k == idx as int {
                    assert((orig[m - 1]).0 == k);
                } else {
                    assert(slots@[k] == pre_slots[k]);
                    if slots@[k] is Some {
                        let j = choose|j: int| m <= j < total && (#[trigger] orig[j]).0 == k;
                        assert(m - 1 <= j < total && (orig[j]).0 == k);
                    }
                    if exists|j: int| m - 1 <= j < total && (#[trigger] orig[j]).0 == k {
                        let j = choose|j: int| m - 1 <= j < total && (#[trigger] orig[j]).0 == k;
                        assert(j != m - 1);
                        assert(m <= j < total && (orig[j]).0 == k);
                    }
                }
            }
        }
    }
    let ghost full = slots@;
    let mut result: Vec<Outcome> = Vec::new();
    let mut k: usize = 0;
    proof {
        assert(full.subrange(0, n as int) =~= full);
    }
    while k < n
        invariant
            n == full.len(),
            slots@ == full.subrange(k as int, n as int),
            k <= n,
            result@.len() == k,
            forall|p: int| 0 <= p < k ==> #[trigger] full[p] == Some(result@[p]),
            forall|j1: int, j2: int|
                0 <= j1 < j2 < total ==> (#[trigger] orig[j1]).0 != (#[trigger] orig[j2]).0,
            forall|j: int| 0 <= j < total ==> (#[trigger] orig[j]).0 < n,
            forall|q: int|
                0 <= q < n ==> ((#[trigger] full[q]) is Some <==> exists|j: int|
                    0 <= j < total && (#[trigger] orig[j]).0 == q),
            forall|j: int| 0 <= j < total ==> full[(#[trigger] orig[j]).0 as int] == Some(orig[j].1),
        decreases n - k,
    {
        proof {
            assert(slots@[0] == full[k as int]);
            assert(full.subrange(k as int, n as int).drop_first() =~= full.subrange(
                k + 1,
                n as int,
            ));
        }
        let slot = slots.remove(0);
        match slot {
            None => {
                proof {
                    assert(!covers_all(orig, n as int)) by {
                        if covers_all(orig, n as int) {
                            assert(covered(orig, k as int));
                            let j = choose|j: int|
                                0 <= j < orig.len() && (#[trigger] orig[j]).0 == k as int;
                            assert(0 <= j < total && (orig[j]).0 == k as int);
                            assert(full[k as int] is Some);
                        }
                    }
                }
                return None;
            },
            Some(o) => {
                result.push(o);
            },
        }
        k += 1;
    }
    proof {
        assert forall|k2: int| 0 <= k2 < n implies #[trigger] covered(orig, k2) by {
            assert(full[k2] == Some(result@[k2]));
            let j = choose|j: int| 0 <= j < total && (#[trigger] orig[j]).0 == k2;
            assert(0 <= j < orig.len() && (orig[j]).0 == k2);
        }
        assert(covers_all(orig, n as int));
        assert forall|j: int|
            0 <= j < orig.len() implies result@[(#[trigger] orig[j]).0 as int] == (orig[j]).1 by {
            assert(full[(orig[j]).0 as int] == Some((orig[j]).1));
            assert(full[(orig[j]).0 as int] == Some(result@[(orig[j]).0 as int]));
        }
    }
    Some(result)
}

} // verus!
