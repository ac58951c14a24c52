//! Deterministic ring enumeration: a bounded depth-first search over the
//! order graph whose exact output is its own specification. Each
//! elementary cycle appears exactly once, anchored at its smallest order
//! index, in a fixed exploration order.

use vstd::prelude::*;
use crate::orders::Order;
use crate::matching::spec_ring_closed;

verus! {

broadcast use vstd::seq_lib::group_seq_properties;

/// Ring search, depth first and deterministic: a partial chain of order
/// indices (each order's buy token feeding the next order's sell token,
/// anchored at its smallest index) is extended by every later order index
/// in turn; a chain of three or more that feeds back into its anchor is
/// emitted, and chains below the size bound keep extending. Each
/// elementary cycle therefore appears exactly once, anchored at its
/// smallest member.
#[verifier::opaque]
pub open spec fn spec_rings_from(s: Seq<Order>, maxk: nat, path: Seq<usize>, j: nat) -> Seq<
    Seq<usize>,
>
    decreases maxk - path.len(), s.len() - j,
    when 1 <= path.len() <= maxk
{
    if j >= s.len() {
        Seq::empty()
    } else {
        let rest = spec_rings_from(s, maxk, path, j + 1);
        if path.len() < maxk && j > path[0] && !path.contains(j as usize) && s[path.last() as int]
            .buy_token == s[j as int].sell_token {
            let path2 = path.push(j as usize);
            let emitted: Seq<Seq<usize>> = if path2.len() >= 3 && s[j as int].buy_token == s[
                path[0] as int
            ].sell_token {
                seq![path2]
            } else {
                Seq::empty()
            };
            emitted + spec_rings_from(s, maxk, path2, 0) + rest
        } else {
            rest
        }
    }
}

/// The ring search seeded at every anchor index from `start` on.
#[verifier::opaque]
pub open spec fn spec_ring_starts(s: Seq<Order>, maxk: nat, start: nat) -> Seq<Seq<usize>>
    decreases s.len() - start,
    when maxk >= 3
{
    if start >= s.len() {
        Seq::empty()
    } else {
        spec_rings_from(s, maxk, seq![start as usize], 0) + spec_ring_starts(s, maxk, start + 1)
    }
}

/// Every candidate cycle of a batch, up to the size bound.
pub open spec fn spec_ring_cycles(s: Seq<Order>, maxk: nat) -> Seq<Seq<usize>> {
    if maxk < 3 {
        Seq::empty()
    } else {
        spec_ring_starts(s, maxk, 0)
    }
}

/// The views of a list of cycles.
pub open spec fn cycle_views(s: Seq<Vec<usize>>) -> Seq<Seq<usize>> {
    s.map_values(|v: Vec<usize>| v@)
}

/// Membership of an index in a chain.
pub(crate) fn contains_usize(path: &Vec<usize>, x: usize) -> (r: bool)
    ensures
        r == path@.contains(x),
{
    let n = path.len();
    let mut i: usize = 0;
    while i < n
        invariant
            n == path@.len(),
            i <= n,
            forall|k: int| 0 <= k < i ==> path@[k] != x,
        decreases n - i,
    {
        if path[i] == x {
            return true;
        }
        i = i + 1;
    }
    false
}

/// The ring-search extensions of one partial chain.
pub(crate) fn ring_extensions(orders: &Vec<Order>, maxk: usize, path: &Vec<usize>) -> (r: Vec<Vec<usize>>)
    requires
        1 <= path@.len() <= maxk,
        forall|k: int| 0 <= k < path@.len() ==> path@[k] < orders@.len(),
    ensures
        cycle_views(r@) == spec_rings_from(orders@, maxk as nat, path@, 0),
        forall|t: int|
            0 <= t < r@.len() ==> (forall|kk: int|
                0 <= kk < (#[trigger] r@[t])@.len() ==> (#[trigger] r@[t])@[kk]
                    < orders@.len()),
    decreases maxk - path@.len(),
{
    let n = orders.len();
    let mut out: Vec<Vec<usize>> = Vec::new();
    proof {
        assert(cycle_views(out@) =~= Seq::<Seq<usize>>::empty());
        assert(spec_rings_from(orders@, maxk as nat, path@, 0) =~= cycle_views(out@)
            + spec_rings_from(orders@, maxk as nat, path@, 0));
    }
    let mut j: usize = 0;
    while j < n
        invariant
            1 <= path@.len() <= maxk,
            forall|k: int| 0 <= k < path@.len() ==> path@[k] < orders@.len(),
            n == orders@.len(),
            j <= n,
            spec_rings_from(orders@, maxk as nat, path@, 0) =~= cycle_views(out@)
                + spec_rings_from(orders@, maxk as nat, path@, j as nat),
            forall|t: int|
                0 <= t < out@.len() ==> (forall|kk: int|
                    0 <= kk < (#[trigger] out@[t])@.len() ==> (#[trigger] out@[t])@[kk]
                        < orders@.len()),
        decreases n - j,
    {
        proof {
            reveal(spec_rings_from);
        }
        let anchor = path[0];
        let last_idx = path[path.len() - 1];
        if path.len() < maxk && j > anchor && !contains_usize(path, j)
            && orders[last_idx].buy_token == orders[j].sell_token {
            let ghost path2s = path@.push(j);
            let ghost emitted: Seq<Seq<usize>> = if path2s.len() >= 3
                && orders@[j as int].buy_token == orders@[path@[0] as int].sell_token {
                seq![path2s]
            } else {
                Seq::empty()
            };
            let ghost deeper_spec = spec_rings_from(orders@, maxk as nat, path2s, 0);
            let mut path2 = path.clone();
            proof {
                assert(path2@ =~= path@);
            }
            path2.push(j);
            let ghost before = out@;
            if path2.len() >= 3 && orders[j].buy_token == orders[anchor].sell_token {
                let c = path2.clone();
                proof {
                    assert(c@ =~= path2@);
                }
                out.push(c);
            }
            proof {
                assert(cycle_views(out@) =~= cycle_views(before) + emitted);
            }
            let ghost mid = out@;
            let mut deeper = ring_extensions(orders, maxk, &path2);
            out.append(&mut deeper);
            proof {
                reveal(spec_rings_from);
                assert(cycle_views(out@) =~= cycle_views(mid) + deeper_spec);
                assert((cycle_views(before) + emitted) + deeper_spec =~= cycle_views(before) + (
                emitted + deeper_spec));
                assert(spec_rings_from(orders@, maxk as nat, path@, j as nat) =~= (emitted
                    + deeper_spec) + spec_rings_from(orders@, maxk as nat, path@, (j + 1) as nat));
                assert(cycle_views(before) + ((emitted + deeper_spec) + spec_rings_from(
                    orders@,
                    maxk as nat,
                    path@,
                    (j + 1) as nat,
                )) =~= (cycle_views(before) + (emitted + deeper_spec)) + spec_rings_from(
                    orders@,
                    maxk as nat,
                    path@,
                    (j + 1) as nat,
                ));
            }
        }
        j = j + 1;
    }
    proof {
        reveal(spec_rings_from);
        assert(spec_rings_from(orders@, maxk as nat, path@, n as nat) =~= Seq::<Seq<usize>>::empty());
    }
    out
}

/// Every candidate cycle of a batch, deterministically enumerated.
pub(crate) fn ring_cycles(orders: &Vec<Order>, maxk: usize) -> (r: Vec<Vec<usize>>)
    ensures
        cycle_views(r@) == spec_ring_cycles(orders@, maxk as nat),
        forall|t: int|
            0 <= t < r@.len() ==> (forall|kk: int|
                0 <= kk < (#[trigger] r@[t])@.len() ==> (#[trigger] r@[t])@[kk]
                    < orders@.len()),
{
    let mut out: Vec<Vec<usize>> = Vec::new();
    if maxk < 3 {
        proof {
            assert(cycle_views(out@) =~= Seq::<Seq<usize>>::empty());
        }
        return out;
    }
    let n = orders.len();
    proof {
        assert(cycle_views(out@) =~= Seq::<Seq<usize>>::empty());
        assert(spec_ring_starts(orders@, maxk as nat, 0) =~= cycle_views(out@)
            + spec_ring_starts(orders@, maxk as nat, 0));
    }
    let mut start: usize = 0;
    while start < n
        invariant
            maxk >= 3,
            n == orders@.len(),
            start <= n,
            spec_ring_starts(orders@, maxk as nat, 0) =~= cycle_views(out@) + spec_ring_starts(
                orders@,
                maxk as nat,
                start as nat,
            ),
            forall|t: int|
                0 <= t < out@.len() ==> (forall|kk: int|
                    0 <= kk < (#[trigger] out@[t])@.len() ==> (#[trigger] out@[t])@[kk]
                        < orders@.len()),
        decreases n - start,
    {
        proof {
            reveal(spec_ring_starts);
        }
        let mut seed: Vec<usize> = Vec::new();
        seed.push(start);
        proof {
            assert(seed@ =~= seq![start]);
        }
        let ghost before = out@;
        let mut ext = ring_extensions(orders, maxk, &seed);
        let ghost ext_spec = cycle_views(ext@);
        out.append(&mut ext);
        proof {
            assert(cycle_views(out@) =~= cycle_views(before) + ext_spec);
            assert(spec_ring_starts(orders@, maxk as nat, start as nat) =~= ext_spec
                + spec_ring_starts(orders@, maxk as nat, (start + 1) as nat));
            assert(cycle_views(before) + (ext_spec + spec_ring_starts(
                orders@,
                maxk as nat,
                (start + 1) as nat,
            )) =~= (cycle_views(before) + ext_spec) + spec_ring_starts(
                orders@,
                maxk as nat,
                (start + 1) as nat,
            ));
        }
        start = start + 1;
    }
    proof {
        reveal(spec_ring_starts);
        assert(spec_ring_starts(orders@, maxk as nat, n as nat) =~= Seq::<Seq<usize>>::empty());
    }
    out
}

} // verus!
