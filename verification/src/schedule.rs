//! The admission scheduler's decision logic: which resources count as idle,
//! and whether one polling iteration claims, keeps waiting, or stops on
//! cancellation. The caller runs each iteration under the exclusive
//! cross-process lock, so the decision here is atomic across processes.

use vstd::prelude::*;

verus! {

/// The identifiers of the idle resources of an enumeration, in enumeration
/// order.
pub open spec fn idle_ids(devices: Seq<(u32, bool)>) -> Seq<u32> {
    devices.filter(|p: (u32, bool)| p.1).map_values(|p: (u32, bool)| p.0)
}

/// The identifiers of the idle resources in `devices`, in order, where each
/// pair is one resource's identifier and whether it is idle.
pub fn get_idle_gpu(devices: &Vec<(u32, bool)>) -> (r: Vec<u32>)
    ensures
        r@ == idle_ids(devices@),
{
    let mut r: Vec<u32> = Vec::new();
    let mut i: usize = 0;
    while i < devices.len()
        invariant
            i <= devices@.len(),
            r@ == idle_ids(devices@.take(i as int)),
        decreases devices@.len() - i,
    {
        let (id, idle) = devices[i];
        if idle {
            r.push(id);
        }
        proof {
            reveal(Seq::filter);
            let pred = |p: (u32, bool)| p.1;
            let f = |p: (u32, bool)| p.0;
            let pre = devices@.take(i as int);
            let cur = devices@.take(i + 1);
            assert(cur.drop_last() =~= pre);
            assert(cur.last() == devices@[i as int]);
            if idle {
                assert(cur.filter(pred) == pre.filter(pred).push(devices@[i as int]));
                assert(cur.filter(pred).map_values(f) =~= pre.filter(pred).map_values(f).push(
                    devices@[i as int].0,
                ));
            } else {
                assert(cur.filter(pred) == pre.filter(pred));
            }
        }
        i += 1;
    }
    proof {
        assert(devices@.take(devices@.len() as int) =~= devices@);
    }
    r
}

/// What one polling iteration does.
pub enum SchedulerDecision {
    /// Enough resources are idle: claim exactly these, in enumeration order.
    Claim(Vec<u32>),
    /// Too few idle: release the lock, report progress, sleep, retry.
    Wait,
    /// Cancelled: leave the loop with no claim.
    Stop,
}

/// The decision of one polling iteration, taken while the exclusive lock is
/// held: stop when cancelled; claim the first `requested` idle identifiers
/// when enough are idle; otherwise keep waiting.
pub fn scheduler_step(requested: usize, idle: &Vec<u32>, cancelled: bool) -> (d: SchedulerDecision)
    ensures
        cancelled ==> d is Stop,
        !cancelled && idle@.len() >= requested ==> (d matches SchedulerDecision::Claim(c) && c@
            == idle@.take(requested as int)),
        !cancelled && idle@.len() < requested ==> d is Wait,
{
    if cancelled {
        return SchedulerDecision::Stop;
    }
    if idle.len() >= requested {
        let mut c: Vec<u32> = Vec::new();
        let mut i: usize = 0;
        while i < requested
            invariant
                i <= requested <= idle@.len(),
                c@ == idle@.take(i as int),
            decreases requested - i,
        {
            c.push(idle[i]);
            proof {
                assert(idle@.take(i + 1) =~= idle@.take(i as int).push(idle@[i as int]));
            }
            i += 1;
        }
        SchedulerDecision::Claim(c)
    } else {
        SchedulerDecision::Wait
    }
}

/// Whether a request for `requested` resources can ever be satisfied on a
/// host with `device_count` resources in total; checked once up front so a
/// hopeless request fails instead of polling forever.
pub fn request_is_satisfiable(requested: u32, device_count: u32) -> (b: bool)
    ensures
        b == (requested <= device_count),
{
    requested <= device_count
}

/// Identifiers in strictly ascending order (so also mutually distinct).
pub open spec fn strictly_ascending(s: Seq<u32>) -> bool {
    forall|i: int, j: int| 0 <= i < j < s.len() ==> s[i] < s[j]
}

/// Law: when the enumeration lists identifiers in strictly ascending order
/// (as the backend does), the idle list ascends too, and each of its members
/// is an identifier that the enumeration reported idle.
pub proof fn lemma_idle_ids_ascending(devices: Seq<(u32, bool)>)
    requires
        forall|i: int, j: int| 0 <= i < j < devices.len() ==> devices[i].0 < devices[j].0,
    ensures
        strictly_ascending(idle_ids(devices)),
        forall|k: int| 0 <= k < idle_ids(devices).len() ==> exists|i: int|
            0 <= i < devices.len() && devices[i] == (#[trigger] idle_ids(devices)[k], true),
    decreases devices.len(),
{
    reveal(Seq::filter);
    let pred = |p: (u32, bool)| p.1;
    let f = |p: (u32, bool)| p.0;
    if devices.len() > 0 {
        let pre = devices.drop_last();
        let last = devices.last();
        lemma_idle_ids_ascending(pre);
        assert(devices.filter(pred) == if pred(last) {
            pre.filter(pred).push(last)
        } else {
            pre.filter(pred)
        });
        if pred(last) {
            assert(idle_ids(devices) =~= idle_ids(pre).push(last.0));
        } else {
            assert(idle_ids(devices) =~= idle_ids(pre));
        }
        assert forall|k: int| 0 <= k < idle_ids(devices).len() implies exists|i: int|
            0 <= i < devices.len() && devices[i] == (#[trigger] idle_ids(devices)[k], true) by {
            if k < idle_ids(pre).len() {
                let i = choose|i: int|
                    0 <= i < pre.len() && pre[i] == (idle_ids(pre)[k], true);
                assert(devices[i] == (idle_ids(devices)[k], true));
            } else {
                assert(idle_ids(devices)[k] == last.0 && pred(last));
                assert(devices[devices.len() - 1] == (idle_ids(devices)[k], true));
            }
        }
        if pred(last) {
            assert forall|a: int, b: int|
                0 <= a < b < idle_ids(devices).len() implies idle_ids(devices)[a] < idle_ids(
                devices,
            )[b] by {
                if b == idle_ids(devices).len() - 1 {
                    let i = choose|i: int|
                        0 <= i < pre.len() && pre[i] == (idle_ids(pre)[a], true);
                    assert(pre[i].0 < last.0);
                }
            }
        }
    }
}

/// Law: when `n` of the idle resources are claimed, the claim set has exactly
/// `n` members, each one an idle resource, kept in ascending identifier order
/// whenever the idle enumeration ascends, and mutually distinct.
pub proof fn lemma_claim_shape(idle: Seq<u32>, n: int)
    requires
        0 <= n <= idle.len(),
        strictly_ascending(idle),
    ensures
        idle.take(n).len() == n,
        forall|k: int| 0 <= k < n ==> idle.contains(#[trigger] idle.take(n)[k]),
        strictly_ascending(idle.take(n)),
        idle.take(n).no_duplicates(),
{
    assert forall|k: int| 0 <= k < n implies idle.contains(#[trigger] idle.take(n)[k]) by {
        assert(idle.take(n)[k] == idle[k]);
    }
}

/// Law: two admission runs serialized by the cross-process lock claim
/// disjoint sets. The earlier run still holds its claim when the later run
/// enumerates, so the backend reports every resource of the earlier claim as
/// busy: no identifier of the earlier claim is in the later idle set, hence
/// none is in the later claim.
pub proof fn lemma_claims_disjoint(claim1: Seq<u32>, idle2: Seq<u32>, n2: int)
    requires
        0 <= n2 <= idle2.len(),
        forall|id: u32| claim1.contains(id) ==> !idle2.contains(id),
    ensures
        forall|id: u32| claim1.contains(id) ==> !idle2.take(n2).contains(id),
{
    assert forall|id: u32| claim1.contains(id) implies !idle2.take(n2).contains(id) by {
        if idle2.take(n2).contains(id) {
            let k = choose|k: int| 0 <= k < n2 && idle2.take(n2)[k] == id;
            assert(idle2[k] == id);
        }
    }
}

} // verus!
