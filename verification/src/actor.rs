//! The availability actor: the single writer of one scope's state.
//!
//! An update is applied in two steps around the durable write, which the
//! host performs: [`AvailabilityActor::begin_update`] validates the request
//! and stamps the record that is to be written, and
//! [`AvailabilityActor::finish_update`] makes the record visible once the
//! host reports how the write ended. [`AvailabilityActor::apply_update`] is
//! both steps in one call, for a write whose outcome is known.

use crate::record::{clone_opt_text, opt_text, AvailabilityRecord, AvailabilityStatus, RecordView};
use crate::state::{holds_exactly, records_map, views, ScopeState};
use vstd::prelude::*;

verus! {

/// A request to change the availability of one item. A field that the
/// request did not carry, or carried in a form that was not understood, is
/// `None`.
#[derive(Debug)]
pub struct AvailabilityUpdate {
    pub item_key: Option<String>,
    pub status: Option<AvailabilityStatus>,
    pub actor_id: String,
    pub reason: Option<String>,
}

/// Mathematical value of an [`AvailabilityUpdate`].
pub struct UpdateView {
    pub item_key: Option<Seq<char>>,
    pub status: Option<AvailabilityStatus>,
    pub actor_id: Seq<char>,
    pub reason: Option<Seq<char>>,
}

impl View for AvailabilityUpdate {
    type V = UpdateView;

    open spec fn view(&self) -> UpdateView {
        UpdateView {
            item_key: opt_text(self.item_key),
            status: self.status,
            actor_id: self.actor_id@,
            reason: opt_text(self.reason),
        }
    }
}

/// Why an update was not applied.
#[derive(Clone, Copy, Debug, PartialEq, Eq, Structural)]
pub enum UpdateError {
    /// The request is malformed. Nothing was written or changed.
    InvalidUpdate,
    /// The durable write did not succeed. Nothing was changed.
    PersistenceFailure,
}

/// How the durable write of a record ended.
#[derive(Clone, Copy, Debug, PartialEq, Eq, Structural)]
pub enum StoreOutcome {
    /// The store holds the record.
    Stored,
    /// The store reported an error.
    Failed,
    /// The store did not answer in time.
    TimedOut,
}

/// Acknowledgement of an applied update: the record as it is now tracked.
#[derive(Debug)]
pub struct Ack {
    pub record: AvailabilityRecord,
}

/// Mathematical value of an actor: the tracked records by item key, and the
/// time stamp of the update that was applied last.
pub struct ActorModel {
    pub records: Map<Seq<char>, RecordView>,
    pub clock: u64,
}

/// One call of `apply_update`, as a mathematical value.
pub struct Step {
    pub update: UpdateView,
    pub now: u64,
    pub outcome: StoreOutcome,
}

/// The request names an item and a status.
pub open spec fn valid_update(u: UpdateView) -> bool {
    &&& u.item_key is Some
    &&& u.item_key->0.len() > 0
    &&& u.status is Some
}

/// The time stamp that an update arriving at `now` gets from an actor whose
/// last stamp was `clock`: never smaller than an earlier one.
pub open spec fn stamp(clock: u64, now: u64) -> u64 {
    if now >= clock {
        now
    } else {
        clock
    }
}

/// The record that a valid request becomes when it is stamped with `at`.
pub open spec fn record_of(u: UpdateView, at: u64) -> RecordView {
    RecordView {
        item_key: u.item_key->0,
        status: u.status->0,
        actor_id: u.actor_id,
        reason: u.reason,
        applied_at: at,
    }
}

/// The record names an item and is not older than the last applied one.
pub open spec fn acceptable(m: ActorModel, r: RecordView) -> bool {
    r.item_key.len() > 0 && r.applied_at >= m.clock
}

/// The actor after `r` became visible.
pub open spec fn commit(m: ActorModel, r: RecordView) -> ActorModel {
    ActorModel { records: m.records.insert(r.item_key, r), clock: r.applied_at }
}

/// The actor after the write of `r` ended with `outcome`.
pub open spec fn finish(m: ActorModel, r: RecordView, outcome: StoreOutcome) -> ActorModel {
    if acceptable(m, r) && outcome is Stored {
        commit(m, r)
    } else {
        m
    }
}

/// What the caller is told after the write of `r` ended with `outcome`.
pub open spec fn finish_result(m: ActorModel, r: RecordView, outcome: StoreOutcome) -> Result<
    RecordView,
    UpdateError,
> {
    if !acceptable(m, r) {
        Err(UpdateError::InvalidUpdate)
    } else if outcome is Stored {
        Ok(r)
    } else {
        Err(UpdateError::PersistenceFailure)
    }
}

/// The request is valid and its write succeeded.
pub open spec fn accepted(s: Step) -> bool {
    valid_update(s.update) && s.outcome is Stored
}

/// The actor after one call of `apply_update`.
pub open spec fn apply(m: ActorModel, s: Step) -> ActorModel {
    if accepted(s) {
        commit(m, record_of(s.update, stamp(m.clock, s.now)))
    } else {
        m
    }
}

/// What one call of `apply_update` returns.
pub open spec fn apply_result(m: ActorModel, s: Step) -> Result<RecordView, UpdateError> {
    if !valid_update(s.update) {
        Err(UpdateError::InvalidUpdate)
    } else if s.outcome is Stored {
        Ok(record_of(s.update, stamp(m.clock, s.now)))
    } else {
        Err(UpdateError::PersistenceFailure)
    }
}

/// The actor after the calls `steps`, made in that order.
pub open spec fn run(m: ActorModel, steps: Seq<Step>) -> ActorModel
    decreases steps.len(),
{
    if steps.len() == 0 {
        m
    } else {
        apply(run(m, steps.drop_last()), steps.last())
    }
}

/// Every record is stored under its own key and is not newer than the clock.
pub open spec fn consistent(m: ActorModel) -> bool {
    forall|k: Seq<char>| #[trigger]
        m.records.contains_key(k) ==> m.records[k].item_key == k && m.records[k].applied_at
            <= m.clock
}

/// The largest time stamp among `s`, and 0 where `s` is empty.
pub open spec fn latest_stamp(s: Seq<RecordView>) -> u64
    decreases s.len(),
{
    if s.len() == 0 {
        0
    } else if s.last().applied_at >= latest_stamp(s.drop_last()) {
        s.last().applied_at
    } else {
        latest_stamp(s.drop_last())
    }
}

/// The actor that is rebuilt from the records `s` of the durable store.
pub open spec fn recovered(s: Seq<RecordView>) -> ActorModel {
    ActorModel { records: records_map(s), clock: latest_stamp(s) }
}

/// The view of an acknowledgement or an error.
pub open spec fn ack_view(r: Result<Ack, UpdateError>) -> Result<RecordView, UpdateError> {
    match r {
        Ok(a) => Ok(a.record@),
        Err(e) => Err(e),
    }
}

/// The view of a stamped record or an error.
pub open spec fn record_result_view(r: Result<AvailabilityRecord, UpdateError>) -> Result<
    RecordView,
    UpdateError,
> {
    match r {
        Ok(a) => Ok(a@),
        Err(e) => Err(e),
    }
}

/// No record of `s` is newer than `latest_stamp(s)`.
pub proof fn lemma_latest_stamp_bounds(s: Seq<RecordView>)
    ensures
        forall|i: int| 0 <= i < s.len() ==> (#[trigger] s[i]).applied_at <= latest_stamp(s),
    decreases s.len(),
{
    if s.len() > 0 {
        lemma_latest_stamp_bounds(s.drop_last());
        assert forall|i: int| 0 <= i < s.len() implies (#[trigger] s[i]).applied_at
            <= latest_stamp(s) by {
            if i < s.len() - 1 {
                assert(s.drop_last()[i] == s[i]);
            }
        }
    }
}

/// Every record in the map of `s` is a record of `s`.
pub proof fn lemma_records_map_values(s: Seq<RecordView>)
    ensures
        forall|k: Seq<char>| #[trigger]
            records_map(s).contains_key(k) ==> exists|i: int|
                0 <= i < s.len() && s[i] == records_map(s)[k],
    decreases s.len(),
{
    if s.len() > 0 {
        let init = s.drop_last();
        lemma_records_map_values(init);
        assert forall|k: Seq<char>| #[trigger] records_map(s).contains_key(k) implies exists|
            i: int,
        |
            0 <= i < s.len() && s[i] == records_map(s)[k] by {
            if k == s.last().item_key {
                assert(s[s.len() - 1] == records_map(s)[k]);
            } else {
                let i = choose|i: int| 0 <= i < init.len() && init[i] == records_map(init)[k];
                assert(s[i] == records_map(s)[k]);
            }
        }
    }
}

/// A rebuilt actor is consistent.
pub proof fn lemma_recovered_consistent(s: Seq<RecordView>)
    ensures
        consistent(recovered(s)),
{
    crate::state::lemma_records_map_keys(s);
    lemma_records_map_values(s);
    lemma_latest_stamp_bounds(s);
    assert forall|k: Seq<char>| #[trigger] records_map(s).contains_key(k) implies records_map(
        s,
    )[k].applied_at <= latest_stamp(s) by {
        let i = choose|i: int| 0 <= i < s.len() && s[i] == records_map(s)[k];
        assert(s[i].applied_at <= latest_stamp(s));
    }
}

/// Checks a request: it must name an item, by a key that is not empty, and
/// a status.
pub fn validate(update: &AvailabilityUpdate) -> (r: Result<(), UpdateError>)
    ensures
        r is Ok <==> valid_update(update@),
        r is Err ==> r == Err::<(), UpdateError>(UpdateError::InvalidUpdate),
{
    match &update.item_key {
        Some(key) => {
            if key.as_str().is_empty() {
                return Err(UpdateError::InvalidUpdate);
            }
        },
        None => {
            return Err(UpdateError::InvalidUpdate);
        },
    }
    match update.status {
        Some(_) => Ok(()),
        None => Err(UpdateError::InvalidUpdate),
    }
}

/// The single authoritative owner of the availability state of one scope.
pub struct AvailabilityActor {
    state: ScopeState,
    clock: u64,
}

impl View for AvailabilityActor {
    type V = ActorModel;

    closed spec fn view(&self) -> ActorModel {
        ActorModel { records: self.state@, clock: self.clock }
    }
}

impl AvailabilityActor {
    #[verifier::type_invariant]
    spec fn well_formed(self) -> bool {
        consistent(self@)
    }

    /// An actor that tracks no item.
    pub fn new() -> (a: Self)
        ensures
            a@.records == Map::<Seq<char>, RecordView>::empty(),
            a@.clock == 0,
            consistent(a@),
    {
        AvailabilityActor { state: ScopeState::new(), clock: 0 }
    }

    /// Rebuilds the actor from the records that the durable store holds.
    /// The store keeps one current value per key, so loading all of them
    /// restores the state; were a key to occur twice, the later record
    /// counts.
    pub fn recover(stored: Vec<AvailabilityRecord>) -> (a: Self)
        ensures
            a@ == recovered(views(stored@)),
            consistent(a@),
    {
        let mut state = ScopeState::new();
        let mut clock: u64 = 0;
        let ghost all = views(stored@);
        let mut i: usize = 0;
        while i < stored.len()
            invariant
                i <= stored.len(),
                all == views(stored@),
                state@ == records_map(all.take(i as int)),
                clock == latest_stamp(all.take(i as int)),
            decreases stored.len() - i,
        {
            let record = stored[i].clone();
            if record.applied_at >= clock {
                clock = record.applied_at;
            }
            proof {
                assert(all.take(i + 1).drop_last() =~= all.take(i as int));
                assert(all.take(i + 1).last() == record@);
            }
            state.upsert(record);
            i += 1;
        }
        proof {
            assert(all.take(i as int) =~= all);
            lemma_recovered_consistent(all);
        }
        AvailabilityActor { state, clock }
    }

    /// The time stamp of the update that was applied last.
    pub fn last_applied(&self) -> (t: u64)
        ensures
            t == self@.clock,
    {
        self.clock
    }

    /// Validates `update` and stamps the record that is to be written to
    /// the durable store. Nothing changes.
    pub fn begin_update(&self, update: &AvailabilityUpdate, now: u64) -> (r: Result<
        AvailabilityRecord,
        UpdateError,
    >)
        ensures
            valid_update(update@) ==> record_result_view(r) == Ok::<RecordView, UpdateError>(
                record_of(update@, stamp(self@.clock, now)),
            ),
            !valid_update(update@) ==> r is Err && r->Err_0 == UpdateError::InvalidUpdate,
            r is Ok ==> acceptable(self@, r->Ok_0@),
    {
        match validate(update) {
            Ok(()) => {},
            Err(e) => {
                return Err(e);
            },
        }
        let key = match &update.item_key {
            Some(key) => key.clone(),
            None => {
                return Err(UpdateError::InvalidUpdate);
            },
        };
        let status = match update.status {
            Some(status) => status,
            None => {
                return Err(UpdateError::InvalidUpdate);
            },
        };
        let at = if now >= self.clock {
            now
        } else {
            self.clock
        };
        Ok(
            AvailabilityRecord {
                item_key: key,
                status,
                actor_id: update.actor_id.clone(),
                reason: clone_opt_text(&update.reason),
                applied_at: at,
            },
        )
    }

    /// Makes `record` visible after its durable write ended with `outcome`.
    /// A write that failed or timed out leaves the state as it was, and so
    /// does a record that names no item or is older than the last one.
    pub fn finish_update(&mut self, record: AvailabilityRecord, outcome: StoreOutcome) -> (r:
        Result<Ack, UpdateError>)
        ensures
            final(self)@ == finish(old(self)@, record@, outcome),
            ack_view(r) == finish_result(old(self)@, record@, outcome),
            consistent(final(self)@),
    {
        proof {
            use_type_invariant(&*self);
        }
        if record.item_key.as_str().is_empty() || record.applied_at < self.clock {
            return Err(UpdateError::InvalidUpdate);
        }
        match outcome {
            StoreOutcome::Stored => {},
            StoreOutcome::Failed => {
                return Err(UpdateError::PersistenceFailure);
            },
            StoreOutcome::TimedOut => {
                return Err(UpdateError::PersistenceFailure);
            },
        }
        let ack = Ack { record: record.clone() };
        let mut state = ScopeState::new();
        std::mem::swap(&mut state, &mut self.state);
        let at = record.applied_at;
        state.upsert(record);
        self.clock = at;
        self.state = state;
        Ok(ack)
    }

    /// Applies one update whose durable write ended with `outcome`: the
    /// request is validated, the record is stamped, and it becomes visible
    /// if and only if the request is valid and the write succeeded.
    pub fn apply_update(&mut self, update: &AvailabilityUpdate, now: u64, outcome: StoreOutcome) -> (r:
        Result<Ack, UpdateError>)
        ensures
            final(self)@ == apply(old(self)@, Step { update: update@, now, outcome }),
            ack_view(r) == apply_result(old(self)@, Step { update: update@, now, outcome }),
            !valid_update(update@) ==> r is Err && r->Err_0 == UpdateError::InvalidUpdate
                && final(self)@ == old(self)@,
            valid_update(update@) && !(outcome is Stored) ==> r is Err && r->Err_0
                == UpdateError::PersistenceFailure && final(self)@ == old(self)@,
            consistent(final(self)@),
    {
        proof {
            use_type_invariant(&*self);
        }
        match self.begin_update(update, now) {
            Ok(record) => self.finish_update(record, outcome),
            Err(e) => Err(e),
        }
    }

    /// Every record that is currently tracked, one per item key.
    pub fn get_snapshot(&self) -> (out: Vec<AvailabilityRecord>)
        ensures
            records_map(views(out@)) == self@.records,
            holds_exactly(views(out@), self@.records),
            forall|i: int| 0 <= i < out@.len() ==> (#[trigger] out@[i])@.applied_at <= self@.clock,
    {
        let out = self.state.snapshot();
        proof {
            use_type_invariant(self);
            assert forall|i: int| 0 <= i < out@.len() implies (#[trigger] out@[i])@.applied_at
                <= self@.clock by {
                assert(views(out@)[i] == out@[i]@);
                assert(self@.records.contains_key(views(out@)[i].item_key));
            }
        }
        out
    }

    /// The record that is tracked for `item_key`, if there is one.
    pub fn get_record(&self, item_key: &str) -> (r: Option<AvailabilityRecord>)
        ensures
            match r {
                Some(rec) => self@.records.contains_key(item_key@) && self@.records[item_key@]
                    == rec@,
                None => !self@.records.contains_key(item_key@),
            },
    {
        match self.state.get(item_key) {
            Some(rec) => Some(rec.clone()),
            None => None,
        }
    }
}

} // verus!
