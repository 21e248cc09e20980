//! What holds of every sequence of updates.
//!
//! The actor applies one update at a time, so any number of concurrent
//! callers amounts to one sequence of calls: the order in which the actor
//! took them. The lemmas here speak of [`run`], the state after such a
//! sequence.

use crate::actor::{accepted, apply, run, ActorModel, Step, UpdateView};
use crate::record::RecordView;
use vstd::prelude::*;

verus! {

/// The record carries what the request asked for. The time stamp is the
/// actor's own and is left out.
pub open spec fn carries(r: RecordView, u: UpdateView) -> bool {
    &&& u.item_key == Some(r.item_key)
    &&& u.status == Some(r.status)
    &&& r.actor_id == u.actor_id
    &&& r.reason == u.reason
}

/// The step is accepted and is about the item `k`.
pub open spec fn writes(s: Step, k: Seq<char>) -> bool {
    accepted(s) && s.update.item_key == Some(k)
}

/// The last step of `steps` that was accepted for the item `k`.
pub open spec fn last_write(steps: Seq<Step>, k: Seq<char>) -> Option<Step>
    decreases steps.len(),
{
    if steps.len() == 0 {
        None
    } else if writes(steps.last(), k) {
        Some(steps.last())
    } else {
        last_write(steps.drop_last(), k)
    }
}

/// `s` is made of the steps of `a` and of `b`, each in its own order.
pub open spec fn is_interleaving(s: Seq<Step>, a: Seq<Step>, b: Seq<Step>) -> bool
    decreases s.len(),
{
    if s.len() == 0 {
        a.len() == 0 && b.len() == 0
    } else {
        ||| a.len() > 0 && a.last() == s.last() && is_interleaving(
            s.drop_last(),
            a.drop_last(),
            b,
        )
        ||| b.len() > 0 && b.last() == s.last() && is_interleaving(
            s.drop_last(),
            a,
            b.drop_last(),
        )
    }
}

/// No item is written by both `a` and `b`.
pub open spec fn on_distinct_keys(a: Seq<Step>, b: Seq<Step>) -> bool {
    forall|i: int, j: int, k: Seq<char>|
        0 <= i < a.len() && 0 <= j < b.len() ==> !(#[trigger] writes(a[i], k) && #[trigger] writes(
            b[j],
            k,
        ))
}

/// The accepted steps of `steps` are about items that differ from each other.
pub open spec fn one_write_per_key(steps: Seq<Step>) -> bool {
    forall|i: int, j: int, k: Seq<char>|
        0 <= i < j < steps.len() ==> !(#[trigger] writes(steps[i], k) && #[trigger] writes(
            steps[j],
            k,
        ))
}

/// A last write is a step of the sequence that writes the item.
pub proof fn lemma_last_write_is_a_step(steps: Seq<Step>, k: Seq<char>)
    ensures
        last_write(steps, k) matches Some(w) ==> writes(w, k) && exists|i: int|
            0 <= i < steps.len() && steps[i] == w,
        last_write(steps, k) is None ==> forall|i: int|
            0 <= i < steps.len() ==> !writes(#[trigger] steps[i], k),
    decreases steps.len(),
{
    if steps.len() > 0 {
        let init = steps.drop_last();
        lemma_last_write_is_a_step(init, k);
        if writes(steps.last(), k) {
            assert(steps[steps.len() - 1] == steps.last());
        } else {
            if last_write(init, k) is Some {
                let w = last_write(init, k)->0;
                let i = choose|i: int| 0 <= i < init.len() && init[i] == w;
                assert(steps[i] == w);
            } else {
                assert forall|i: int| 0 <= i < steps.len() implies !writes(
                    #[trigger] steps[i],
                    k,
                ) by {
                    if i < steps.len() - 1 {
                        assert(init[i] == steps[i]);
                    }
                }
            }
        }
    }
}

/// Last write wins. After any sequence of calls, the record of an item is
/// the one that the last accepted update for that item asked for, stamped
/// not earlier than that update arrived and not later than the actor's
/// clock. An item for which no update was accepted is as it was before.
pub proof fn lemma_last_write_wins(m: ActorModel, steps: Seq<Step>, k: Seq<char>)
    ensures
        last_write(steps, k) matches Some(w) ==> {
            &&& run(m, steps).records.contains_key(k)
            &&& carries(run(m, steps).records[k], w.update)
            &&& w.now <= run(m, steps).records[k].applied_at <= run(m, steps).clock
        },
        last_write(steps, k) is None ==> {
            &&& run(m, steps).records.contains_key(k) == m.records.contains_key(k)
            &&& run(m, steps).records[k] == m.records[k]
        },
        m.clock <= run(m, steps).clock,
    decreases steps.len(),
{
    if steps.len() > 0 {
        lemma_last_write_wins(m, steps.drop_last(), k);
    }
}

/// Updates to one item: where every call of a sequence is an accepted
/// update of the item `k`, the state holds for `k` what the last call asked
/// for, and no other item has changed.
pub proof fn lemma_same_key_last_wins(m: ActorModel, steps: Seq<Step>, k: Seq<char>)
    requires
        steps.len() > 0,
        forall|i: int| 0 <= i < steps.len() ==> writes(#[trigger] steps[i], k),
    ensures
        run(m, steps).records.contains_key(k),
        carries(run(m, steps).records[k], steps.last().update),
        run(m, steps).records.dom() == m.records.dom().insert(k),
        forall|other: Seq<char>|
            other != k && m.records.contains_key(other) ==> run(m, steps).records[other]
                == m.records[other],
    decreases steps.len(),
{
    let init = steps.drop_last();
    assert(writes(steps[steps.len() - 1], k));
    if init.len() > 0 {
        assert forall|i: int| 0 <= i < init.len() implies writes(#[trigger] init[i], k) by {
            assert(init[i] == steps[i]);
        }
        lemma_same_key_last_wins(m, init, k);
        assert(run(m, steps).records.dom() =~= m.records.dom().insert(k));
    } else {
        assert(run(m, init) == m);
        assert(run(m, steps).records.dom() =~= m.records.dom().insert(k));
    }
}

/// In an interleaving of two callers that write distinct items, the last
/// write of an item is the last write of the caller that writes it.
pub proof fn lemma_interleaving_keeps_last_write(
    s: Seq<Step>,
    a: Seq<Step>,
    b: Seq<Step>,
    k: Seq<char>,
)
    requires
        is_interleaving(s, a, b),
        on_distinct_keys(a, b),
    ensures
        last_write(s, k) == if last_write(a, k) is Some {
            last_write(a, k)
        } else {
            last_write(b, k)
        },
    decreases s.len(),
{
    if s.len() > 0 {
        let from_a = a.len() > 0 && a.last() == s.last() && is_interleaving(
            s.drop_last(),
            a.drop_last(),
            b,
        );
        if from_a {
            let a0 = a.drop_last();
            assert(on_distinct_keys(a0, b)) by {
                assert forall|i: int, j: int, k2: Seq<char>|
                    0 <= i < a0.len() && 0 <= j < b.len() implies !(#[trigger] writes(a0[i], k2)
                    && #[trigger] writes(b[j], k2)) by {
                    assert(a0[i] == a[i]);
                }
            }
            lemma_interleaving_keeps_last_write(s.drop_last(), a0, b, k);
        } else {
            let b0 = b.drop_last();
            assert(on_distinct_keys(a, b0)) by {
                assert forall|i: int, j: int, k2: Seq<char>|
                    0 <= i < a.len() && 0 <= j < b0.len() implies !(#[trigger] writes(a[i], k2)
                    && #[trigger] writes(b0[j], k2)) by {
                    assert(b0[j] == b[j]);
                }
            }
            lemma_interleaving_keeps_last_write(s.drop_last(), a, b0, k);
            if writes(s.last(), k) {
                lemma_last_write_is_a_step(a, k);
                if last_write(a, k) is Some {
                    let w = last_write(a, k)->0;
                    let i = choose|i: int| 0 <= i < a.len() && a[i] == w;
                    assert(writes(a[i], k) && writes(b[b.len() - 1], k));
                }
            }
        }
    }
}

/// Concurrent callers on distinct items. Whatever the order in which the
/// actor takes the calls of two callers that write distinct items, the
/// state holds for each item what the last accepted update of its caller
/// asked for; an item that neither wrote is as it was. So no update is lost,
/// and as the state is a map, none is there twice.
pub proof fn lemma_interleaving_final_state(
    m: ActorModel,
    s: Seq<Step>,
    a: Seq<Step>,
    b: Seq<Step>,
    k: Seq<char>,
)
    requires
        is_interleaving(s, a, b),
        on_distinct_keys(a, b),
    ensures
        last_write(a, k) matches Some(w) ==> run(m, s).records.contains_key(k) && carries(
            run(m, s).records[k],
            w.update,
        ),
        last_write(b, k) matches Some(w) ==> run(m, s).records.contains_key(k) && carries(
            run(m, s).records[k],
            w.update,
        ),
        last_write(a, k) is None && last_write(b, k) is None ==> {
            &&& run(m, s).records.contains_key(k) == m.records.contains_key(k)
            &&& run(m, s).records[k] == m.records[k]
        },
{
    lemma_interleaving_keeps_last_write(s, a, b, k);
    lemma_last_write_wins(m, s, k);
    if last_write(a, k) is Some && last_write(b, k) is Some {
        lemma_last_write_is_a_step(a, k);
        lemma_last_write_is_a_step(b, k);
        let wa = last_write(a, k)->0;
        let wb = last_write(b, k)->0;
        let i = choose|i: int| 0 <= i < a.len() && a[i] == wa;
        let j = choose|j: int| 0 <= j < b.len() && b[j] == wb;
        assert(writes(a[i], k) && writes(b[j], k));
    }
}

/// The tracked items after a sequence of calls are those tracked before
/// and those for which an update was accepted.
pub proof fn lemma_tracked_items(m: ActorModel, steps: Seq<Step>)
    ensures
        forall|k: Seq<char>| #[trigger]
            run(m, steps).records.contains_key(k) <==> m.records.contains_key(k) || last_write(
                steps,
                k,
            ) is Some,
{
    assert forall|k: Seq<char>| #[trigger]
        run(m, steps).records.contains_key(k) <==> m.records.contains_key(k) || last_write(
            steps,
            k,
        ) is Some by {
        lemma_last_write_wins(m, steps, k);
    }
}

/// A snapshot after N updates. Where N updates of N different items were
/// accepted by an actor that tracked nothing, the state holds exactly N
/// records, one for each update, with what that update asked for.
pub proof fn lemma_snapshot_holds_every_update(m: ActorModel, steps: Seq<Step>)
    requires
        m.records == Map::<Seq<char>, RecordView>::empty(),
        forall|i: int| 0 <= i < steps.len() ==> accepted(#[trigger] steps[i]),
        one_write_per_key(steps),
    ensures
        run(m, steps).records.dom().finite(),
        run(m, steps).records.dom().len() == steps.len(),
        forall|i: int|
            0 <= i < steps.len() ==> {
                let k = (#[trigger] steps[i]).update.item_key->0;
                run(m, steps).records.contains_key(k) && carries(
                    run(m, steps).records[k],
                    steps[i].update,
                )
            },
    decreases steps.len(),
{
    if steps.len() == 0 {
        assert(run(m, steps).records.dom() =~= Set::<Seq<char>>::empty());
    } else {
        let init = steps.drop_last();
        let last = steps.last();
        let k_last = last.update.item_key->0;
        assert(writes(steps[steps.len() - 1], k_last));
        assert(one_write_per_key(init)) by {
            assert forall|i: int, j: int, k: Seq<char>| 0 <= i < j < init.len() implies !(
            #[trigger] writes(init[i], k) && #[trigger] writes(init[j], k)) by {
                assert(init[i] == steps[i] && init[j] == steps[j]);
            }
        }
        assert forall|i: int| 0 <= i < init.len() implies accepted(#[trigger] init[i]) by {
            assert(init[i] == steps[i]);
        }
        lemma_snapshot_holds_every_update(m, init);
        lemma_last_write_is_a_step(init, k_last);
        if last_write(init, k_last) is Some {
            let w = last_write(init, k_last)->0;
            let i = choose|i: int| 0 <= i < init.len() && init[i] == w;
            assert(writes(steps[i], k_last));
        }
        lemma_last_write_wins(m, init, k_last);
        assert(!run(m, init).records.contains_key(k_last));
        assert(run(m, steps).records.dom() =~= run(m, init).records.dom().insert(k_last));
        assert forall|i: int| 0 <= i < steps.len() implies {
            let k = (#[trigger] steps[i]).update.item_key->0;
            run(m, steps).records.contains_key(k) && carries(
                run(m, steps).records[k],
                steps[i].update,
            )
        } by {
            if i < steps.len() - 1 {
                assert(init[i] == steps[i]);
                let k = steps[i].update.item_key->0;
                assert(writes(steps[i], k));
                assert(k != k_last);
            }
        }
    }
}

/// One more call. The state after a sequence of calls followed by one more
/// is the state after the sequence, with that call applied.
pub proof fn lemma_run_push(m: ActorModel, steps: Seq<Step>, s: Step)
    ensures
        run(m, steps.push(s)) == apply(run(m, steps), s),
{
    assert(steps.push(s).drop_last() =~= steps);
}

} // verus!
