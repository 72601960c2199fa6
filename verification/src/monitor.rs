//! The release monitor's bookkeeping: which claimed resources still carry a
//! placeholder hold, and the release events emitted when real external work
//! takes a resource over. Holding a placeholder keeps a resource busy for the
//! next waiting instance, so once a real consumer appears the hold must be
//! dropped promptly; each hold is dropped at most once.

use vstd::prelude::*;

verus! {

/// The identifiers of claimed resources whose placeholder hold is still live.
pub struct MonitorState {
    pub held: Vec<u32>,
}

/// Effect of one usage observation on the held set: when `id` is held
/// and its real usage now exceeds the placeholder's own presence, the hold is
/// dropped and a release event for `id` is emitted; otherwise nothing changes.
pub open spec fn observe_spec(held: Seq<u32>, id: u32, usage_exceeds: bool) -> (
    Seq<u32>,
    Option<u32>,
) {
    if held.contains(id) && usage_exceeds {
        (held.remove_value(id), Some(id))
    } else {
        (held, None)
    }
}

/// A whole monitor run over a sequence of observations: the held set that
/// remains and the release events emitted, in order.
pub open spec fn run_monitor(held: Seq<u32>, obs: Seq<(u32, bool)>) -> (Seq<u32>, Seq<u32>)
    decreases obs.len(),
{
    if obs.len() == 0 {
        (held, Seq::empty())
    } else {
        let step = observe_spec(held, obs[0].0, obs[0].1);
        let rest = run_monitor(step.0, obs.drop_first());
        match step.1 {
            Some(id) => (rest.0, seq![id] + rest.1),
            None => rest,
        }
    }
}

/// Removing the sole occurrence of `id` from a duplicate-free sequence keeps
/// it duplicate-free, drops `id` entirely, and keeps every other member.
pub proof fn lemma_remove_value_props(s: Seq<u32>, id: u32)
    requires
        s.no_duplicates(),
    ensures
        !s.remove_value(id).contains(id),
        s.remove_value(id).no_duplicates(),
        forall|x: u32| s.remove_value(id).contains(x) ==> s.contains(x),
        forall|x: u32| x != id && s.contains(x) ==> s.remove_value(id).contains(x),
{
    s.index_of_first_ensures(id);
    match s.index_of_first(id) {
        Some(i) => {
            let r = s.remove(i);
            assert forall|j: int| 0 <= j < r.len() implies (r[j] == if j < i {
                s[j]
            } else {
                s[j + 1]
            }) by {
                s.remove_ensures(i);
            }
            assert(!r.contains(id)) by {
                if r.contains(id) {
                    let j = choose|j: int| 0 <= j < r.len() && r[j] == id;
                    if j < i {
                        assert(s[j] == id && s[i] == id);
                    } else {
                        assert(s[j + 1] == id && s[i] == id);
                    }
                }
            }
            assert(r.no_duplicates()) by {
                assert forall|a: int, b: int| 0 <= a < b < r.len() implies r[a] != r[b] by {
                    let sa: int = if a < i {
                        a
                    } else {
                        a + 1
                    };
                    let sb: int = if b < i {
                        b
                    } else {
                        b + 1
                    };
                    assert(r[a] == s[sa] && r[b] == s[sb] && sa < sb);
                }
            }
            assert forall|x: u32| r.contains(x) implies s.contains(x) by {
                let j = choose|j: int| 0 <= j < r.len() && r[j] == x;
                let sj: int = if j < i {
                    j
                } else {
                    j + 1
                };
                assert(s[sj] == x);
            }
            assert forall|x: u32| x != id && s.contains(x) implies r.contains(x) by {
                let j = choose|j: int| 0 <= j < s.len() && s[j] == x;
                if j < i {
                    assert(r[j] == x);
                } else {
                    assert(j > i);
                    assert(r[j - 1] == x);
                }
            }
        },
        None => {},
    }
}

/// Law: over any sequence of usage observations from a duplicate-free claim
/// set, every release event names a claimed resource, no resource is released
/// twice, and a released resource is never held afterwards.
pub proof fn lemma_release_at_most_once(held: Seq<u32>, obs: Seq<(u32, bool)>)
    requires
        held.no_duplicates(),
    ensures
        run_monitor(held, obs).1.no_duplicates(),
        run_monitor(held, obs).0.no_duplicates(),
        forall|id: u32| run_monitor(held, obs).1.contains(id) ==> held.contains(id)
            && !run_monitor(held, obs).0.contains(id),
        forall|id: u32| run_monitor(held, obs).0.contains(id) ==> held.contains(id),
    decreases obs.len(),
{
    if obs.len() > 0 {
        let step = observe_spec(held, obs[0].0, obs[0].1);
        let rest = run_monitor(step.0, obs.drop_first());
        match step.1 {
            Some(id) => {
                lemma_remove_value_props(held, id);
                lemma_release_at_most_once(step.0, obs.drop_first());
                let emitted = seq![id] + rest.1;
                assert(!rest.1.contains(id)) by {
                    if rest.1.contains(id) {
                        assert(step.0.contains(id));
                    }
                }
                assert(emitted.no_duplicates()) by {
                    assert(emitted.drop_first() =~= rest.1);
                    assert forall|a: int, b: int|
                        0 <= a < b < emitted.len() implies emitted[a] != emitted[b] by {
                        if a == 0 {
                            assert(emitted[b] == rest.1[b - 1]);
                            assert(rest.1.contains(rest.1[b - 1]));
                        } else {
                            assert(emitted[a] == rest.1[a - 1] && emitted[b] == rest.1[b - 1]);
                        }
                    }
                }
                assert forall|x: u32| emitted.contains(x) implies held.contains(x)
                    && !run_monitor(held, obs).0.contains(x) by {
                    let j = choose|j: int| 0 <= j < emitted.len() && emitted[j] == x;
                    if j == 0 {
                        assert(x == id);
                        if rest.0.contains(x) {
                            assert(step.0.contains(x));
                        }
                    } else {
                        assert(emitted[j] == rest.1[j - 1]);
                        assert(rest.1.contains(x));
                    }
                }
            },
            None => {
                lemma_release_at_most_once(step.0, obs.drop_first());
            },
        }
    }
}

/// First position of `id` in `v`, if any.
fn index_of_id(v: &Vec<u32>, id: u32) -> (r: Option<usize>)
    ensures
        r matches Some(i) ==> i < v@.len() && v@[i as int] == id && forall|k: int|
            0 <= k < i ==> v@[k] != id,
        r is None ==> !v@.contains(id),
{
    let mut i: usize = 0;
    while i < v.len()
        invariant
            i <= v@.len(),
            forall|k: int| 0 <= k < i ==> v@[k] != id,
        decreases v@.len() - i,
    {
        if v[i] == id {
            return Some(i);
        }
        i += 1;
    }
    None
}

/// Drops the first occurrence of `id` from `v`, if any.
pub(crate) fn remove_id(v: &mut Vec<u32>, id: u32) -> (removed: bool)
    ensures
        final(v)@ == old(v)@.remove_value(id),
        removed == old(v)@.contains(id),
{
    match index_of_id(v, id) {
        Some(i) => {
            v.remove(i);
            proof {
                let s = old(v)@;
                s.index_of_first_ensures(id);
                let fi = s.index_of_first(id)->Some_0;
                assert(fi == i) by {
                    if fi < i {
                        assert(s[fi] == id);
                    }
                    if i < fi {
                        assert(s[i as int] == id);
                    }
                }
            }
            true
        },
        None => {
            proof {
                old(v)@.index_of_first_ensures(id);
            }
            false
        },
    }
}

impl MonitorState {
    /// Well-formed: no resource is held twice.
    pub open spec fn wf(&self) -> bool {
        self.held@.no_duplicates()
    }

    /// Starts tracking every member of the claim set.
    pub fn new(claim: &Vec<u32>) -> (m: MonitorState)
        requires
            claim@.no_duplicates(),
        ensures
            m.wf(),
            m.held@ == claim@,
    {
        let mut t: Vec<u32> = Vec::new();
        let mut i: usize = 0;
        while i < claim.len()
            invariant
                i <= claim@.len(),
                t@ == claim@.take(i as int),
            decreases claim@.len() - i,
        {
            t.push(claim[i]);
            proof {
                assert(claim@.take(i + 1) =~= claim@.take(i as int).push(claim@[i as int]));
            }
            i += 1;
        }
        proof {
            assert(claim@.take(claim@.len() as int) =~= claim@);
        }
        MonitorState { held: t }
    }

    /// Whether any hold is still held; the monitor's loop ends when none is.
    pub fn is_active(&self) -> (b: bool)
        ensures
            b == (self.held@.len() > 0),
    {
        self.held.len() > 0
    }

    /// Applies one usage observation: drops the hold and reports the release
    /// event exactly when `id` is still held and its real usage exceeds
    /// the placeholder's own presence.
    pub fn observe(&mut self, id: u32, usage_exceeds: bool) -> (released: Option<u32>)
        requires
            old(self).wf(),
        ensures
            final(self).wf(),
            (final(self).held@, released) == observe_spec(old(self).held@, id, usage_exceeds),
    {
        if usage_exceeds {
            let removed = remove_id(&mut self.held, id);
            proof {
                lemma_remove_value_props(old(self).held@, id);
                old(self).held@.index_of_first_ensures(id);
            }
            if removed {
                Some(id)
            } else {
                None
            }
        } else {
            None
        }
    }
}

} // verus!
