//! Broadcast fan-out: one message to every registered session.
//!
//! Delivery itself is the host's: it is handed in as a function from a
//! connection handle and a message to whether the message was taken. A
//! session whose delivery fails is unregistered; the others are not
//! affected by it.

use crate::registry::{lists_exactly, session_views, Session, SessionRegistry};
use vstd::prelude::*;

verus! {

/// What a broadcast did.
#[derive(Debug)]
pub struct BroadcastReport {
    /// Number of sessions that took the message.
    pub delivered: usize,
    /// Ids of the sessions that were unregistered because delivery failed.
    pub evicted: Vec<String>,
}

/// The ids of `list`, as mathematical values, in order.
pub open spec fn id_views(list: Seq<String>) -> Seq<Seq<char>> {
    list.map_values(|s: String| s@)
}

/// How the registry after a broadcast of `message` relates to the one
/// before it: a session that is still registered took the message, a
/// session that is gone did not, and no handle has changed.
pub open spec fn settled<F: Fn(u64, &str) -> bool>(
    before: Map<Seq<char>, u64>,
    after: Map<Seq<char>, u64>,
    send: F,
    message: &str,
) -> bool {
    &&& forall|id: Seq<char>| #[trigger]
        after.contains_key(id) ==> before.contains_key(id) && after[id] == before[id]
            && call_ensures(send, (before[id], message), true)
    &&& forall|id: Seq<char>|
        #[trigger] before.contains_key(id) && !after.contains_key(id) ==> call_ensures(
            send,
            (before[id], message),
            false,
        )
}

/// Sends `message` to every session of `registry`. Each delivery is tried
/// once, whatever became of the others. A session whose delivery fails is
/// unregistered. Nothing is reported back but the count of deliveries and
/// the ids that were evicted.
pub fn broadcast<F: Fn(u64, &str) -> bool>(
    message: &str,
    registry: &mut SessionRegistry,
    send: F,
) -> (report: BroadcastReport)
    requires
        forall|handle: u64| call_requires(send, (handle, message)),
    ensures
        settled(old(registry)@, final(registry)@, send, message),
        old(registry)@.dom().finite(),
        report.delivered == final(registry)@.dom().len(),
        report.delivered + report.evicted@.len() == old(registry)@.dom().len(),
        forall|id: Seq<char>|
            id_views(report.evicted@).contains(id) <==> old(registry)@.contains_key(id)
                && !final(registry)@.contains_key(id),
{
    let sessions = registry.snapshot_sessions();
    let ghost before = registry@;
    let ghost list = session_views(sessions@);
    let mut delivered: usize = 0;
    let mut evicted: Vec<String> = Vec::new();
    let mut i: usize = 0;
    while i < sessions.len()
        invariant
            i <= sessions.len(),
            list == session_views(sessions@),
            lists_exactly(list, before),
            forall|handle: u64| call_requires(send, (handle, message)),
            delivered + evicted@.len() == i,
            registry@.dom().finite(),
            registry@.dom().len() + evicted@.len() == before.dom().len(),
            forall|id: Seq<char>| #[trigger]
                registry@.contains_key(id) ==> before.contains_key(id) && registry@[id]
                    == before[id],
            forall|j: int| i <= j < list.len() ==> registry@.contains_key(#[trigger] list[j].session_id),
            forall|j: int|
                0 <= j < i && registry@.contains_key(#[trigger] list[j].session_id)
                    ==> call_ensures(send, (list[j].handle, message), true),
            forall|j: int|
                0 <= j < i && !registry@.contains_key(#[trigger] list[j].session_id)
                    ==> call_ensures(send, (list[j].handle, message), false),
            forall|id: Seq<char>|
                id_views(evicted@).contains(id) <==> before.contains_key(id)
                    && !registry@.contains_key(id),
        decreases sessions.len() - i,
    {
        let session = &sessions[i];
        assert(list[i as int] == session@);
        let taken = send(session.handle, message);
        if taken {
            delivered += 1;
        } else {
            let ghost evicted_before = id_views(evicted@);
            let ghost registry_before = registry@;
            registry.unregister(session.session_id.as_str());
            evicted.push(session.session_id.clone());
            proof {
                assert(id_views(evicted@) =~= evicted_before.push(session.session_id@));
                assert forall|id: Seq<char>|
                    id_views(evicted@).contains(id) <==> before.contains_key(id)
                        && !registry@.contains_key(id) by {
                    if id_views(evicted@).contains(id) {
                        let j = choose|j: int|
                            0 <= j < id_views(evicted@).len() && id_views(evicted@)[j] == id;
                        if j < evicted_before.len() {
                            assert(evicted_before[j] == id);
                            assert(evicted_before.contains(id));
                        }
                    }
                    if before.contains_key(id) && !registry@.contains_key(id) {
                        if id == session.session_id@ {
                            assert(id_views(evicted@)[evicted_before.len() as int] == id);
                        } else {
                            assert(!registry_before.contains_key(id));
                            assert(evicted_before.contains(id));
                            let j = choose|j: int|
                                0 <= j < evicted_before.len() && evicted_before[j] == id;
                            assert(id_views(evicted@)[j] == id);
                        }
                    }
                }
            }
        }
        i += 1;
    }
    proof {
        assert forall|id: Seq<char>| #[trigger]
            registry@.contains_key(id) implies call_ensures(
            send,
            (before[id], message),
            true,
        ) by {
            let j = choose|j: int| 0 <= j < list.len() && (#[trigger] list[j]).session_id == id;
            assert(registry@.contains_key(list[j].session_id));
        }
        assert forall|id: Seq<char>|
            #[trigger] before.contains_key(id) && !registry@.contains_key(
                id,
            ) implies call_ensures(send, (before[id], message), false) by {
            let j = choose|j: int| 0 <= j < list.len() && (#[trigger] list[j]).session_id == id;
            assert(!registry@.contains_key(list[j].session_id));
        }
    }
    BroadcastReport { delivered, evicted }
}

/// One broken session among many. Where the delivery to one session always
/// fails and the delivery to every other session always succeeds, a
/// broadcast leaves all the others registered and removes that one.
pub proof fn lemma_failure_is_isolated<F: Fn(u64, &str) -> bool>(
    before: Map<Seq<char>, u64>,
    after: Map<Seq<char>, u64>,
    send: F,
    message: &str,
    broken: Seq<char>,
)
    requires
        before.dom().finite(),
        before.contains_key(broken),
        settled(before, after, send, message),
        !call_ensures(send, (before[broken], message), true),
        forall|id: Seq<char>|
            before.contains_key(id) && id != broken ==> !call_ensures(
                send,
                (#[trigger] before[id], message),
                false,
            ),
    ensures
        after == before.remove(broken),
        after.dom().len() == before.dom().len() - 1,
        !after.contains_key(broken),
        forall|id: Seq<char>|
            before.contains_key(id) && id != broken ==> #[trigger] after.contains_key(id),
{
    assert(after =~= before.remove(broken)) by {
        assert forall|id: Seq<char>| after.contains_key(id) <==> before.remove(
            broken,
        ).contains_key(id) by {
            if before.contains_key(id) && id != broken && !after.contains_key(id) {
                assert(call_ensures(send, (before[id], message), false));
            }
        }
    }
}

} // verus!
