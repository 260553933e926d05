use vstd::prelude::*;

use crate::distance::Distance;
use crate::hits::{counts, key_of, RayMarchOutcome};

verus! {

/// Bit pattern of the `f32` value `0.001`, the default validity threshold.
pub const DEFAULT_THRESHOLD_BITS: u32 = 0x3a83_126f;

/// A hit that may receive routed events: it lies strictly beyond the threshold.
/// A NaN threshold excludes nothing, as a float comparison with NaN is false.
pub open spec fn eligible(r: RayMarchOutcome, threshold: Distance) -> bool {
    &&& counts(r)
    &&& !(threshold.key_spec() matches Some(t) && key_of(r) <= t)
}

/// Index `i` holds the first eligible outcome of least distance.
pub open spec fn is_target(rs: Seq<RayMarchOutcome>, threshold: Distance, i: int) -> bool {
    &&& 0 <= i < rs.len()
    &&& eligible(rs[i], threshold)
    &&& forall|j: int|
        0 <= j < rs.len() && eligible(#[trigger] rs[j], threshold) ==> key_of(rs[i]) <= key_of(
            rs[j],
        )
    &&& forall|j: int|
        0 <= j < i && eligible(#[trigger] rs[j], threshold) ==> key_of(rs[i]) < key_of(rs[j])
}

/// The receiver of a routed batch: the candidate of the closest eligible hit,
/// the earliest one among equals; `None` when no hit clears the threshold.
pub open spec fn route_target(rs: Seq<RayMarchOutcome>, threshold: Distance) -> Option<u64> {
    if exists|i: int| is_target(rs, threshold, i) {
        Some(rs[choose|i: int| is_target(rs, threshold, i)].candidate)
    } else {
        None
    }
}

/// One event of a batch handed to one receiver.
#[derive(Clone, Copy, Debug, PartialEq, Eq, Structural)]
pub struct Delivery {
    pub receiver: u64,
    pub event: usize,
}

/// Every event of a batch of `n`, in arrival order, to `target`; nothing when
/// there is no target.
pub open spec fn planned_deliveries(target: Option<u64>, n: nat) -> Seq<Delivery> {
    match target {
        None => seq![],
        Some(t) => Seq::new(n, |i: int| Delivery { receiver: t, event: i as usize }),
    }
}

/// Routes discrete events to the single closest receiver beyond a validity
/// threshold.
#[derive(Clone, Copy, Debug)]
pub struct EventRouter {
    pub threshold: Distance,
}

impl EventRouter {
    /// A router with the default threshold of `0.001`.
    pub fn new() -> (r: EventRouter)
        ensures
            r.threshold.bits == DEFAULT_THRESHOLD_BITS,
    {
        EventRouter { threshold: Distance { bits: DEFAULT_THRESHOLD_BITS } }
    }

    pub fn with_threshold(threshold: Distance) -> (r: EventRouter)
        ensures
            r.threshold == threshold,
    {
        EventRouter { threshold }
    }

    /// Picks the receiver of a batch from the completed distance queries.
    pub fn select_target(&self, results: &Vec<RayMarchOutcome>) -> (r: Option<u64>)
        ensures
            r == route_target(results@, self.threshold),
            r is None <==> (forall|i: int|
                0 <= i < results@.len() ==> !eligible(#[trigger] results@[i], self.threshold)),
    {
        let rs = Ghost(results@);
        let t = self.threshold;
        let tk = t.key();
        let mut best: Option<(usize, i64)> = None;
        let mut i: usize = 0;
        while i < results.len()
            invariant
                i <= results.len(),
                rs@ == results@,
                tk == t.key_spec(),
                t == self.threshold,
                best is None ==> forall|j: int|
                    0 <= j < i ==> !eligible(#[trigger] results@[j], t),
                best matches Some(b) ==> {
                    &&& b.0 < i
                    &&& key_of(results@[b.0 as int]) == b.1
                    &&& eligible(results@[b.0 as int], t)
                    &&& forall|j: int|
                        0 <= j < i && eligible(#[trigger] results@[j], t) ==> b.1 <= key_of(
                            results@[j],
                        )
                    &&& forall|j: int|
                        0 <= j < b.0 && eligible(#[trigger] results@[j], t) ==> b.1 < key_of(
                            results@[j],
                        )
                },
            decreases results.len() - i,
        {
            let r = results[i];
            if r.hit {
                if let Some(k) = r.distance.key() {
                    let clears = match tk {
                        None => true,
                        Some(tv) => k > tv,
                    };
                    if clears {
                        match best {
                            None => {
                                best = Some((i, k));
                            },
                            Some((_, bk)) => {
                                if k < bk {
                                    best = Some((i, k));
                                }
                            },
                        }
                    }
                }
            }
            i = i + 1;
        }
        match best {
            None => {
                assert forall|j: int| !is_target(results@, t, j) by {}
                None
            },
            Some((bi, _)) => {
                assert(is_target(results@, t, bi as int));
                let ghost c = choose|j: int| is_target(results@, t, j);
                proof {
                    if c < bi as int {
                        assert(eligible(results@[c], t));
                    } else if c > bi as int {
                        assert(eligible(results@[bi as int], t));
                    }
                }
                assert(c == bi as int);
                Some(results[bi].candidate)
            },
        }
    }

    /// Plans the delivery of a batch of `batch_len` events: all of them, in
    /// order, to the selected receiver, or none at all.
    pub fn route(&self, results: &Vec<RayMarchOutcome>, batch_len: usize) -> (r: Vec<Delivery>)
        ensures
            r@ == planned_deliveries(route_target(results@, self.threshold), batch_len as nat),
    {
        let target = self.select_target(results);
        deliveries(target, batch_len)
    }
}

/// Every event of a batch, in order, to `target`; nothing without a target.
pub fn deliveries(target: Option<u64>, batch_len: usize) -> (r: Vec<Delivery>)
    ensures
        r@ == planned_deliveries(target, batch_len as nat),
        target is None ==> r@.len() == 0,
{
    let mut out: Vec<Delivery> = Vec::new();
    match target {
        None => {
            assert(out@ == planned_deliveries(target, batch_len as nat));
        },
        Some(t) => {
            let mut i: usize = 0;
            while i < batch_len
                invariant
                    i <= batch_len,
                    out@ == Seq::new(i as nat, |j: int| Delivery { receiver: t, event: j as usize }),
                decreases batch_len - i,
            {
                out.push(Delivery { receiver: t, event: i });
                i = i + 1;
                assert(out@ == Seq::new(i as nat, |j: int| Delivery { receiver: t, event: j as usize }));
            }
        },
    }
    out
}

} // verus!
