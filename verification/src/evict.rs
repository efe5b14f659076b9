//! Choosing the network to prune when there is no room for a new one.
//!
//! A network that is younger than the immunity period is never pruned. Of the
//! others the one with the least emission goes; of several with the same
//! emission, the one that was registered first.

use vstd::prelude::*;

verus! {

/// What the selection looks at in a live network.
#[derive(Clone, Copy, Debug, PartialEq, Eq, Structural)]
pub struct Candidate {
    pub netuid: u16,
    pub registered_at: u64,
    pub emission: u64,
}

/// The age of a network registered at `registered_at`, in blocks.
pub open spec fn age(registered_at: u64, current_block: u64) -> int {
    current_block as int - registered_at as int
}

/// The network is still protected: its age is below the immunity period.
pub open spec fn is_immune(c: Candidate, current_block: u64, immunity_period: u64) -> bool {
    age(c.registered_at, current_block) < immunity_period as int
}

/// `a` is pruned rather than `b`: it has emitted less, or as much and was
/// registered earlier.
pub open spec fn goes_before(a: Candidate, b: Candidate) -> bool {
    a.emission < b.emission || (a.emission == b.emission && a.registered_at < b.registered_at)
}

/// No candidate is open to pruning.
pub open spec fn all_immune(
    candidates: Seq<Candidate>,
    current_block: u64,
    immunity_period: u64,
) -> bool {
    forall|k: int|
        0 <= k < candidates.len() ==> is_immune(
            #[trigger] candidates[k],
            current_block,
            immunity_period,
        )
}

/// The candidate at place `v` is the one to prune: it is not immune, no
/// candidate open to pruning goes before it, and it goes before every such
/// candidate that stands earlier in the list.
pub open spec fn is_victim(
    candidates: Seq<Candidate>,
    current_block: u64,
    immunity_period: u64,
    v: int,
) -> bool {
    &&& 0 <= v < candidates.len()
    &&& !is_immune(candidates[v], current_block, immunity_period)
    &&& forall|k: int|
        0 <= k < candidates.len() && !is_immune(
            #[trigger] candidates[k],
            current_block,
            immunity_period,
        ) ==> !goes_before(candidates[k], candidates[v])
    &&& forall|k: int|
        0 <= k < v && !is_immune(#[trigger] candidates[k], current_block, immunity_period)
            ==> goes_before(candidates[v], candidates[k])
}

/// At most one candidate is the one to prune.
pub proof fn lemma_victim_unique(
    candidates: Seq<Candidate>,
    current_block: u64,
    immunity_period: u64,
    v: int,
    w: int,
)
    requires
        is_victim(candidates, current_block, immunity_period, v),
        is_victim(candidates, current_block, immunity_period, w),
    ensures
        v == w,
{
    if v < w {
        assert(goes_before(candidates[w], candidates[v]));
        assert(!goes_before(candidates[w], candidates[v]));
    } else if w < v {
        assert(goes_before(candidates[v], candidates[w]));
        assert(!goes_before(candidates[v], candidates[w]));
    }
}

/// The candidate to prune has the least emission of all candidates that are
/// open to pruning, and of those with that emission the earliest registration.
pub proof fn lemma_victim_is_least(
    candidates: Seq<Candidate>,
    current_block: u64,
    immunity_period: u64,
    v: int,
    k: int,
)
    requires
        is_victim(candidates, current_block, immunity_period, v),
        0 <= k < candidates.len(),
        !is_immune(candidates[k], current_block, immunity_period),
    ensures
        age(candidates[v].registered_at, current_block) >= immunity_period as int,
        candidates[v].emission <= candidates[k].emission,
        candidates[v].emission == candidates[k].emission ==> candidates[v].registered_at
            <= candidates[k].registered_at,
{
    assert(!goes_before(candidates[k], candidates[v]));
}

/// Whether a network registered at `registered_at` is younger than the immunity period.
pub fn immune(c: &Candidate, current_block: u64, immunity_period: u64) -> (r: bool)
    ensures
        r == is_immune(*c, current_block, immunity_period),
{
    if c.registered_at > current_block {
        true
    } else {
        current_block - c.registered_at < immunity_period
    }
}

/// The place of the candidate to prune, if any candidate is open to pruning.
pub fn select_victim(candidates: &Vec<Candidate>, current_block: u64, immunity_period: u64) -> (r:
    Option<usize>)
    ensures
        r.is_none() <==> all_immune(candidates@, current_block, immunity_period),
        r.is_some() ==> is_victim(
            candidates@,
            current_block,
            immunity_period,
            r.unwrap() as int,
        ),
{
    let mut best: Option<usize> = None;
    let mut i: usize = 0;
    while i < candidates.len()
        invariant
            i <= candidates.len(),
            best.is_none() <==> all_immune(candidates@.take(i as int), current_block, immunity_period),
            best.is_some() ==> is_victim(
                candidates@.take(i as int),
                current_block,
                immunity_period,
                best.unwrap() as int,
            ),
        decreases candidates.len() - i,
    {
        let c: Candidate = candidates[i];
        let ghost prefix = candidates@.take(i as int);
        let ghost next = candidates@.take(i + 1);
        proof {
            assert(next.len() == i + 1);
            assert(next[i as int] == c);
            assert(forall|k: int| 0 <= k < i ==> next[k] == prefix[k]);
        }
        if !immune(&c, current_block, immunity_period) {
            match best {
                None => {
                    best = Some(i);
                    proof {
                        assert forall|k: int|
                            0 <= k < next.len() && !is_immune(
                                #[trigger] next[k],
                                current_block,
                                immunity_period,
                            ) implies !goes_before(next[k], next[i as int]) by {
                            if k < i {
                                assert(is_immune(prefix[k], current_block, immunity_period));
                            }
                        }
                        assert forall|k: int|
                            0 <= k < i && !is_immune(
                                #[trigger] next[k],
                                current_block,
                                immunity_period,
                            ) implies goes_before(next[i as int], next[k]) by {
                            assert(is_immune(prefix[k], current_block, immunity_period));
                        }
                    }
                },
                Some(b) => {
                    let held: Candidate = candidates[b];
                    if c.emission < held.emission || (c.emission == held.emission
                        && c.registered_at < held.registered_at) {
                        best = Some(i);
                        proof {
                            assert forall|k: int|
                                0 <= k < next.len() && !is_immune(
                                    #[trigger] next[k],
                                    current_block,
                                    immunity_period,
                                ) implies !goes_before(next[k], next[i as int]) by {
                                if k < i {
                                    assert(!goes_before(prefix[k], prefix[b as int]));
                                }
                            }
                            assert forall|k: int|
                                0 <= k < i && !is_immune(
                                    #[trigger] next[k],
                                    current_block,
                                    immunity_period,
                                ) implies goes_before(next[i as int], next[k]) by {
                                assert(!goes_before(prefix[k], prefix[b as int]));
                            }
                        }
                    } else {
                        proof {
                            assert forall|k: int|
                                0 <= k < next.len() && !is_immune(
                                    #[trigger] next[k],
                                    current_block,
                                    immunity_period,
                                ) implies !goes_before(next[k], next[b as int]) by {
                                if k < i {
                                    assert(!goes_before(prefix[k], prefix[b as int]));
                                }
                            }
                            assert forall|k: int|
                                0 <= k < b && !is_immune(
                                    #[trigger] next[k],
                                    current_block,
                                    immunity_period,
                                ) implies goes_before(next[b as int], next[k]) by {
                                assert(next[k] == prefix[k]);
                                assert(goes_before(prefix[b as int], prefix[k]));
                            }
                        }
                    }
                },
            }
            proof {
                assert(!is_immune(next[i as int], current_block, immunity_period));
            }
        } else {
            proof {
                if best.is_some() {
                    let b = best.unwrap() as int;
                    assert forall|k: int|
                        0 <= k < next.len() && !is_immune(
                            #[trigger] next[k],
                            current_block,
                            immunity_period,
                        ) implies !goes_before(next[k], next[b]) by {
                        assert(k < i);
                        assert(!goes_before(prefix[k], prefix[b]));
                    }
                    assert forall|k: int|
                        0 <= k < b && !is_immune(
                            #[trigger] next[k],
                            current_block,
                            immunity_period,
                        ) implies goes_before(next[b], next[k]) by {
                        assert(next[k] == prefix[k]);
                        assert(goes_before(prefix[b], prefix[k]));
                    }
                    assert(!is_immune(prefix[b], current_block, immunity_period));
                } else {
                    assert forall|k: int| 0 <= k < next.len() implies is_immune(
                        #[trigger] next[k],
                        current_block,
                        immunity_period,
                    ) by {
                        if k < i {
                            assert(is_immune(prefix[k], current_block, immunity_period));
                        }
                    }
                }
            }
        }
        i = i + 1;
    }
    proof {
        assert(candidates@.take(candidates@.len() as int) =~= candidates@);
    }
    best
}

} // verus!
