//! One scope's service: the availability actor together with the registry
//! of its live sessions.
//!
//! The host owns the sockets and the durable store. It calls in here for
//! every decision: where a request goes, what a new session is sent first,
//! whether an update may be written, and what happens once the write has
//! ended.

use crate::actor::{
    acceptable, finish, finish_result, record_of, record_result_view, recovered, stamp,
    valid_update, Ack, ActorModel, AvailabilityActor, AvailabilityUpdate, StoreOutcome,
    UpdateError,
};
use crate::broadcast::{broadcast, id_views, settled, BroadcastReport};
use crate::record::{AvailabilityRecord, RecordView};
use crate::registry::SessionRegistry;
use crate::state::{holds_exactly, views};
use vstd::prelude::*;

verus! {

/// `uuid::Uuid::new_v4`, printed as a `Uuid` prints itself: a random
/// identifier in the hyphenated form, which is 36 characters long. Which
/// one comes back is left open. The call needs the system's source of
/// random numbers and does not return where that source fails.
#[verifier::external_body]
fn fresh_session_id() -> (id: String)
    ensures
        id@.len() == 36,
{
    uuid::Uuid::new_v4().to_string()
}

/// What a newly connected session is given.
#[derive(Debug)]
pub struct SessionOpened {
    /// The id under which the session is registered.
    pub session_id: String,
    /// The full state at the moment of registration. The host sends it to
    /// the session before anything else.
    pub snapshot: Vec<AvailabilityRecord>,
}

/// What an applied update led to.
#[derive(Debug)]
pub struct Applied {
    pub ack: Ack,
    pub report: BroadcastReport,
}

/// Mathematical value of the service.
pub struct ServiceModel {
    pub actor: ActorModel,
    pub sessions: Map<Seq<char>, u64>,
}

/// The records among `entries` that could be decoded, in order.
pub open spec fn decoded(entries: Seq<Option<AvailabilityRecord>>) -> Seq<RecordView>
    decreases entries.len(),
{
    if entries.len() == 0 {
        Seq::empty()
    } else {
        match entries.last() {
            Some(r) => decoded(entries.drop_last()).push(r@),
            None => decoded(entries.drop_last()),
        }
    }
}

/// Keeps the stored values that could be decoded and drops the others.
pub fn decoded_records(entries: &Vec<Option<AvailabilityRecord>>) -> (out: Vec<AvailabilityRecord>)
    ensures
        views(out@) == decoded(entries@),
{
    let mut out: Vec<AvailabilityRecord> = Vec::new();
    let mut i: usize = 0;
    assert(entries@.take(0) =~= Seq::<Option<AvailabilityRecord>>::empty());
    assert(views(out@) =~= Seq::<RecordView>::empty());
    while i < entries.len()
        invariant
            i <= entries.len(),
            views(out@) == decoded(entries@.take(i as int)),
        decreases entries.len() - i,
    {
        let ghost before = views(out@);
        assert(entries@.take(i + 1).drop_last() =~= entries@.take(i as int));
        assert(entries@.take(i + 1).last() == entries@[i as int]);
        match &entries[i] {
            Some(r) => {
                out.push(r.clone());
                assert(views(out@) =~= before.push(r@));
            },
            None => {},
        }
        i += 1;
    }
    assert(entries@.take(i as int) =~= entries@);
    out
}

/// The availability service of one scope.
pub struct EightySixList {
    actor: AvailabilityActor,
    sessions: SessionRegistry,
}

impl View for EightySixList {
    type V = ServiceModel;

    closed spec fn view(&self) -> ServiceModel {
        ServiceModel { actor: self.actor@, sessions: self.sessions@ }
    }
}

impl EightySixList {
    /// A service that tracks no item and has no session.
    pub fn new() -> (s: Self)
        ensures
            s@.actor.records == Map::<Seq<char>, RecordView>::empty(),
            s@.actor.clock == 0,
            s@.sessions == Map::<Seq<char>, u64>::empty(),
    {
        EightySixList { actor: AvailabilityActor::new(), sessions: SessionRegistry::new() }
    }

    /// A service whose state is rebuilt from the values of the durable
    /// store. A value that could not be decoded is `None` and is left out.
    /// No session outlives a restart.
    pub fn restore(stored: &Vec<Option<AvailabilityRecord>>) -> (s: Self)
        ensures
            s@.actor == recovered(decoded(stored@)),
            s@.sessions == Map::<Seq<char>, u64>::empty(),
    {
        let records = decoded_records(stored);
        EightySixList { actor: AvailabilityActor::recover(records), sessions: SessionRegistry::new() }
    }

    /// Takes a new connection in: gives it an id, registers it, and hands
    /// back the snapshot that it is to be sent first. Every broadcast that
    /// starts after this call reaches the session.
    pub fn handle_websocket_upgrade(&mut self, handle: u64) -> (opened: SessionOpened)
        ensures
            final(self)@.actor == old(self)@.actor,
            final(self)@.sessions == old(self)@.sessions.insert(opened.session_id@, handle),
            holds_exactly(views(opened.snapshot@), old(self)@.actor.records),
    {
        let session_id = fresh_session_id();
        self.sessions.register(session_id.clone(), handle);
        let snapshot = self.actor.get_snapshot();
        SessionOpened { session_id, snapshot }
    }

    /// Forgets a session whose connection has ended. Returns whether it was
    /// registered.
    pub fn close_session(&mut self, session_id: &str) -> (removed: bool)
        ensures
            final(self)@.actor == old(self)@.actor,
            final(self)@.sessions == old(self)@.sessions.remove(session_id@),
            removed == old(self)@.sessions.contains_key(session_id@),
    {
        self.sessions.unregister(session_id)
    }

    /// Validates `update` and stamps the record that the host is to write
    /// to the durable store. Nothing changes.
    pub fn begin_update(&self, update: &AvailabilityUpdate, now: u64) -> (r: Result<
        AvailabilityRecord,
        UpdateError,
    >)
        ensures
            valid_update(update@) ==> record_result_view(r) == Ok::<RecordView, UpdateError>(
                record_of(update@, stamp(self@.actor.clock, now)),
            ),
            !valid_update(update@) ==> r is Err && r->Err_0 == UpdateError::InvalidUpdate,
            r is Ok ==> acceptable(self@.actor, r->Ok_0@),
    {
        self.actor.begin_update(update, now)
    }

    /// Ends an update after the durable write of `record` ended with
    /// `outcome`. Where the write succeeded, the record becomes visible and
    /// `message` is sent to every session; a session that does not take it
    /// is unregistered. Where it did not, nothing changes and nothing is
    /// sent.
    pub fn handle_update<F: Fn(u64, &str) -> bool>(
        &mut self,
        record: AvailabilityRecord,
        outcome: StoreOutcome,
        message: &str,
        send: F,
    ) -> (r: Result<Applied, UpdateError>)
        requires
            forall|handle: u64| call_requires(send, (handle, message)),
        ensures
            final(self)@.actor == finish(old(self)@.actor, record@, outcome),
            match r {
                Ok(applied) => {
                    &&& finish_result(old(self)@.actor, record@, outcome) == Ok::<
                        RecordView,
                        UpdateError,
                    >(applied.ack.record@)
                    &&& settled(old(self)@.sessions, final(self)@.sessions, send, message)
                    &&& applied.report.delivered == final(self)@.sessions.dom().len()
                    &&& forall|id: Seq<char>|
                        id_views(applied.report.evicted@).contains(id) <==> old(
                            self,
                        )@.sessions.contains_key(id) && !final(self)@.sessions.contains_key(id)
                },
                Err(e) => {
                    &&& finish_result(old(self)@.actor, record@, outcome) == Err::<
                        RecordView,
                        UpdateError,
                    >(e)
                    &&& final(self)@ == old(self)@
                },
            },
    {
        match self.actor.finish_update(record, outcome) {
            Ok(ack) => {
                let report = broadcast(message, &mut self.sessions, send);
                Ok(Applied { ack, report })
            },
            Err(e) => Err(e),
        }
    }

    /// Every record that is currently tracked.
    pub fn get_current_state(&self) -> (out: Vec<AvailabilityRecord>)
        ensures
            holds_exactly(views(out@), self@.actor.records),
    {
        self.actor.get_snapshot()
    }
}

} // verus!
