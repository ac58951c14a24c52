//! Deterministic enumeration of candidate token paths: a recursive depth
//! first search that is both sound and complete — every returned path is
//! a candidate, and every candidate is returned.

use vstd::prelude::*;
use crate::address::Address;
use crate::routing::{LiquidityPool, pool_wf, pool_connects, spec_hop_connected, contains_address};

verus! {

broadcast use vstd::seq_lib::group_seq_properties;

/// The views of a list of paths.
pub open spec fn path_views(s: Seq<Vec<Address>>) -> Seq<Seq<Address>> {
    s.map_values(|v: Vec<Address>| v@)
}

/// A candidate continuation of a prefix: a path within the depth bound
/// that begins with the prefix, ends at `end`, repeats no token, and has
/// every hop served by a registered pool.
pub open spec fn spec_extends_to(
    pools: Seq<LiquidityPool>,
    end: Address,
    maxd: nat,
    prefix: Seq<Address>,
    p: Seq<Address>,
) -> bool {
    &&& prefix.len() <= p.len() <= maxd
    &&& p.take(prefix.len() as int) == prefix
    &&& 2 <= p.len()
    &&& p[p.len() - 1] == end
    &&& (forall|i: int| 0 <= i < p.len() - 1 ==> spec_hop_connected(pools, p, i))
    &&& (forall|i: int, j: int| 0 <= i < j < p.len() ==> p[i] != p[j])
}

/// A continuation of a longer prefix is a continuation of the shorter one.
proof fn lemma_extends_mono(
    pools: Seq<LiquidityPool>,
    end: Address,
    maxd: nat,
    prefix: Seq<Address>,
    x: Address,
    p: Seq<Address>,
)
    requires
        spec_extends_to(pools, end, maxd, prefix.push(x), p),
    ensures
        spec_extends_to(pools, end, maxd, prefix, p),
{
    assert(p.take(prefix.len() as int) =~= prefix) by {
        assert(forall|i: int|
            0 <= i < prefix.len() ==> p.take(prefix.push(x).len() as int)[i] == prefix.push(x)[i]);
    };
}

/// The depth-first continuations of one prefix: every candidate path
/// that begins with it, each exactly once.
pub(crate) fn explore(
    pools: &Vec<LiquidityPool>,
    end: &Address,
    maxd: usize,
    prefix: &Vec<Address>,
) -> (r: Vec<Vec<Address>>)
    requires
        1 <= prefix@.len() <= maxd + 1,
        forall|i: int, j: int| 0 <= i < j < prefix@.len() ==> prefix@[i] != prefix@[j],
        forall|i: int| 0 <= i < prefix@.len() - 1 ==> spec_hop_connected(pools@, prefix@, i),
        forall|k: int| 0 <= k < pools@.len() ==> pool_wf(#[trigger] pools@[k]),
    ensures
        forall|k: int|
            0 <= k < r@.len() ==> spec_extends_to(
                pools@,
                *end,
                maxd as nat,
                prefix@,
                (#[trigger] r@[k])@,
            ),
        forall|p: Seq<Address>|
            spec_extends_to(pools@, *end, maxd as nat, prefix@, p) ==> path_views(r@).contains(p),
    decreases maxd + 2 - prefix@.len(),
{
    let mut out: Vec<Vec<Address>> = Vec::new();
    let n = prefix.len();
    if n > maxd {
        proof {
            assert forall|p: Seq<Address>|
                spec_extends_to(pools@, *end, maxd as nat, prefix@, p) implies path_views(
                out@,
            ).contains(p) by {
                assert(p.len() >= prefix@.len());
            };
        }
        return out;
    }
    let current = prefix[n - 1];
    if current == *end && n > 1 {
        let c = prefix.clone();
        proof {
            assert(c@ =~= prefix@);
        }
        out.push(c);
        proof {
            assert(prefix@.take(prefix@.len() as int) =~= prefix@);
            assert(spec_extends_to(pools@, *end, maxd as nat, prefix@, prefix@));
            assert forall|p: Seq<Address>|
                spec_extends_to(pools@, *end, maxd as nat, prefix@, p) implies path_views(
                out@,
            ).contains(p) by {
                if p.len() == prefix@.len() {
                    assert(p =~= prefix@) by {
                        assert(p.take(prefix@.len() as int) =~= p);
                    };
                    assert(path_views(out@)[0] == p);
                } else {
                    // a longer continuation would repeat the end token
                    assert(p[prefix@.len() - 1] == prefix@[prefix@.len() - 1]) by {
                        assert(p.take(prefix@.len() as int)[prefix@.len() - 1] == p[prefix@.len()
                            - 1]);
                    };
                    assert(p[prefix@.len() - 1] == *end);
                    assert(p[p.len() - 1] == *end);
                    assert(false);
                }
            };
        }
        return out;
    }
    let npools = pools.len();
    let mut pi: usize = 0;
    while pi < npools
        invariant
            npools == pools@.len(),
            pi <= npools,
            1 <= prefix@.len() <= maxd,
            current == prefix@[prefix@.len() - 1],
            !(current == *end && prefix@.len() > 1),
            forall|i: int, j: int| 0 <= i < j < prefix@.len() ==> prefix@[i] != prefix@[j],
            forall|i: int| 0 <= i < prefix@.len() - 1 ==> spec_hop_connected(pools@, prefix@, i),
            forall|k: int| 0 <= k < pools@.len() ==> pool_wf(#[trigger] pools@[k]),
            forall|k: int|
                0 <= k < out@.len() ==> spec_extends_to(
                    pools@,
                    *end,
                    maxd as nat,
                    prefix@,
                    (#[trigger] out@[k])@,
                ),
            forall|p: Seq<Address>|
                (spec_extends_to(pools@, *end, maxd as nat, prefix@, p) && p.len()
                    > prefix@.len() && (exists|j: int|
                    0 <= j < pi && pool_connects(
                        #[trigger] pools@[j],
                        current,
                        p[prefix@.len() as int],
                    ))) ==> path_views(out@).contains(p),
        decreases npools - pi,
    {
        let pool = pools[pi];
        let neighbor: Option<Address> = if pool.token_a == current {
            Some(pool.token_b)
        } else if pool.token_b == current {
            Some(pool.token_a)
        } else {
            None
        };
        let ghost out_pre = out@;
        proof {
            // the prefix is an initial segment of any continuation
            assert forall|p: Seq<Address>|
                spec_extends_to(pools@, *end, maxd as nat, prefix@, p) implies (forall|i: int|
                0 <= i < prefix@.len() ==> p[i] == #[trigger] prefix@[i]) by {
                assert(forall|i: int|
                    0 <= i < prefix@.len() ==> p.take(prefix@.len() as int)[i] == p[i]);
            };
        }
        match neighbor {
            Some(next_token) => {
                if !contains_address(prefix, &next_token) {
                    let mut p2 = prefix.clone();
                    proof {
                        assert(p2@ =~= prefix@);
                    }
                    p2.push(next_token);
                    proof {
                        assert(p2@ =~= prefix@.push(next_token));
                        assert forall|i: int|
                            0 <= i < p2@.len() - 1 implies spec_hop_connected(
                            pools@,
                            p2@,
                            i,
                        ) by {
                            if i < p2@.len() - 2 {
                                assert(spec_hop_connected(pools@, prefix@, i));
                                let w = choose|k: int|
                                    0 <= k < pools@.len() && pool_connects(
                                        #[trigger] pools@[k],
                                        prefix@[i],
                                        prefix@[i + 1],
                                    );
                                assert(pool_connects(pools@[w], p2@[i], p2@[i + 1]));
                            } else {
                                assert(pool_connects(pools@[pi as int], p2@[i], p2@[i + 1]));
                            }
                        };
                    }
                    let mut deeper = explore(pools, end, maxd, &p2);
                    let ghost deeper_view = deeper@;
                    out.append(&mut deeper);
                    proof {
                        assert(out@ =~= out_pre + deeper_view);
                        // soundness carries over, weakening the prefix
                        assert forall|k: int|
                            0 <= k < out@.len() implies spec_extends_to(
                            pools@,
                            *end,
                            maxd as nat,
                            prefix@,
                            (#[trigger] out@[k])@,
                        ) by {
                            if k >= out_pre.len() {
                                assert(out@[k] == deeper_view[k - out_pre.len()]);
                                lemma_extends_mono(
                                    pools@,
                                    *end,
                                    maxd as nat,
                                    prefix@,
                                    next_token,
                                    out@[k]@,
                                );
                            } else {
                                assert(out@[k] == out_pre[k]);
                            }
                        };
                        // completeness now reaches this pool index
                        assert forall|p: Seq<Address>|
                            (spec_extends_to(pools@, *end, maxd as nat, prefix@, p) && p.len()
                                > prefix@.len() && (exists|j: int|
                                0 <= j < pi + 1 && pool_connects(
                                    #[trigger] pools@[j],
                                    current,
                                    p[prefix@.len() as int],
                                ))) implies path_views(out@).contains(p) by {
                            let x = p[prefix@.len() as int];
                            let j = choose|j: int|
                                0 <= j < pi + 1 && pool_connects(#[trigger] pools@[j], current, x);
                            if j < pi {
                                assert(path_views(out_pre).contains(p));
                                let t = choose|t: int|
                                    0 <= t < out_pre.len() && path_views(out_pre)[t] == p;
                                assert(path_views(out@)[t] == p);
                            } else {
                                assert(pool_connects(pool, current, x));
                                assert(x == next_token);
                                assert(spec_extends_to(
                                    pools@,
                                    *end,
                                    maxd as nat,
                                    prefix@.push(next_token),
                                    p,
                                )) by {
                                    assert(p.take(prefix@.len() as int + 1) =~= prefix@.push(
                                        next_token,
                                    ));
                                };
                                assert(path_views(deeper_view).contains(p));
                                let t = choose|t: int|
                                    0 <= t < deeper_view.len() && path_views(deeper_view)[t] == p;
                                assert(path_views(out@)[out_pre.len() + t] == p);
                            }
                        };
                    }
                } else {
                    proof {
                        // a continuation through this pool would repeat a token
                        assert forall|p: Seq<Address>|
                            (spec_extends_to(pools@, *end, maxd as nat, prefix@, p) && p.len()
                                > prefix@.len() && (exists|j: int|
                                0 <= j < pi + 1 && pool_connects(
                                    #[trigger] pools@[j],
                                    current,
                                    p[prefix@.len() as int],
                                ))) implies path_views(out@).contains(p) by {
                            let x = p[prefix@.len() as int];
                            let j = choose|j: int|
                                0 <= j < pi + 1 && pool_connects(#[trigger] pools@[j], current, x);
                            if j < pi {
                            } else {
                                assert(pool_connects(pool, current, x));
                                assert(x == next_token);
                                let i0 = choose|i0: int|
                                    0 <= i0 < prefix@.len() && prefix@[i0] == next_token;
                                assert(p[i0] == next_token);
                                assert(false);
                            }
                        };
                    }
                }
            },
            None => {
                proof {
                    // this pool does not touch the current token
                    assert forall|p: Seq<Address>|
                        (spec_extends_to(pools@, *end, maxd as nat, prefix@, p) && p.len()
                            > prefix@.len() && (exists|j: int|
                            0 <= j < pi + 1 && pool_connects(
                                #[trigger] pools@[j],
                                current,
                                p[prefix@.len() as int],
                            ))) implies path_views(out@).contains(p) by {
                        let x = p[prefix@.len() as int];
                        let j = choose|j: int|
                            0 <= j < pi + 1 && pool_connects(#[trigger] pools@[j], current, x);
                        if j < pi {
                        } else {
                            assert(pool_connects(pool, current, x));
                            assert(false);
                        }
                    };
                }
            },
        }
        pi = pi + 1;
    }
    proof {
        // every continuation leaves the prefix through some pool
        assert forall|p: Seq<Address>|
            spec_extends_to(pools@, *end, maxd as nat, prefix@, p) implies path_views(
            out@,
        ).contains(p) by {
            assert(forall|i: int|
                0 <= i < prefix@.len() ==> p[i] == #[trigger] prefix@[i]) by {
                assert(forall|i: int|
                    0 <= i < prefix@.len() ==> p.take(prefix@.len() as int)[i] == p[i]);
            };
            if p.len() == prefix@.len() {
                assert(p =~= prefix@);
                assert(prefix@[prefix@.len() - 1] == *end);
                assert(false);
            }
            assert(p[prefix@.len() - 1] == current);
            assert(spec_hop_connected(pools@, p, prefix@.len() - 1));
        };
    }
    out
}

} // verus!
