use eighty_six::actor::{
    validate, AvailabilityActor, AvailabilityUpdate, StoreOutcome, UpdateError,
};
use eighty_six::record::{AvailabilityRecord, AvailabilityStatus};

fn update(key: &str, status: AvailabilityStatus, actor: &str) -> AvailabilityUpdate {
    AvailabilityUpdate {
        item_key: Some(key.to_string()),
        status: Some(status),
        actor_id: actor.to_string(),
        reason: None,
    }
}

fn record(key: &str, status: AvailabilityStatus, actor: &str, at: u64) -> AvailabilityRecord {
    AvailabilityRecord {
        item_key: key.to_string(),
        status,
        actor_id: actor.to_string(),
        reason: None,
        applied_at: at,
    }
}

fn find<'a>(snapshot: &'a [AvailabilityRecord], key: &str) -> Option<&'a AvailabilityRecord> {
    snapshot.iter().find(|r| r.item_key == key)
}

#[test]
fn old_fashioned_ends_available_by_the_second_actor() {
    let mut actor = AvailabilityActor::new();
    let first = update("Old Fashioned", AvailabilityStatus::Unavailable, "u1");
    let second = update("Old Fashioned", AvailabilityStatus::Available, "u2");
    assert!(actor.apply_update(&first, 10, StoreOutcome::Stored).is_ok());
    assert!(actor.apply_update(&second, 11, StoreOutcome::Stored).is_ok());
    let snapshot = actor.get_snapshot();
    assert_eq!(snapshot.len(), 1);
    assert_eq!(snapshot[0].item_key, "Old Fashioned");
    assert_eq!(snapshot[0].status, AvailabilityStatus::Available);
    assert_eq!(snapshot[0].actor_id, "u2");
    assert_eq!(snapshot[0].applied_at, 11);
}

#[test]
fn missing_item_key_is_invalid_and_changes_nothing() {
    let mut actor = AvailabilityActor::new();
    let kept = update("Negroni", AvailabilityStatus::Unavailable, "u1");
    actor.apply_update(&kept, 5, StoreOutcome::Stored).unwrap();
    let broken = AvailabilityUpdate {
        item_key: None,
        status: Some(AvailabilityStatus::Unavailable),
        actor_id: "u2".to_string(),
        reason: None,
    };
    let result = actor.apply_update(&broken, 6, StoreOutcome::Stored);
    assert_eq!(result.err(), Some(UpdateError::InvalidUpdate));
    let snapshot = actor.get_snapshot();
    assert_eq!(snapshot.len(), 1);
    assert_eq!(snapshot[0].item_key, "Negroni");
    assert_eq!(snapshot[0].actor_id, "u1");
    assert_eq!(actor.last_applied(), 5);
}

#[test]
fn empty_item_key_is_invalid() {
    let mut actor = AvailabilityActor::new();
    let broken = update("", AvailabilityStatus::Unavailable, "u1");
    assert_eq!(validate(&broken), Err(UpdateError::InvalidUpdate));
    let result = actor.apply_update(&broken, 1, StoreOutcome::Stored);
    assert_eq!(result.err(), Some(UpdateError::InvalidUpdate));
    assert!(actor.get_snapshot().is_empty());
}

#[test]
fn missing_status_is_invalid() {
    let mut actor = AvailabilityActor::new();
    let broken = AvailabilityUpdate {
        item_key: Some("Negroni".to_string()),
        status: None,
        actor_id: "u1".to_string(),
        reason: None,
    };
    assert_eq!(validate(&broken), Err(UpdateError::InvalidUpdate));
    let result = actor.apply_update(&broken, 1, StoreOutcome::Stored);
    assert_eq!(result.err(), Some(UpdateError::InvalidUpdate));
    assert!(actor.get_snapshot().is_empty());
}

#[test]
fn a_complete_request_is_valid() {
    let good = update("Negroni", AvailabilityStatus::Available, "u1");
    assert_eq!(validate(&good), Ok(()));
}

#[test]
fn invalid_wins_over_a_failed_write() {
    let mut actor = AvailabilityActor::new();
    let broken = update("", AvailabilityStatus::Unavailable, "u1");
    let result = actor.apply_update(&broken, 1, StoreOutcome::Failed);
    assert_eq!(result.err(), Some(UpdateError::InvalidUpdate));
}

#[test]
fn failed_write_is_reported_and_changes_nothing() {
    let mut actor = AvailabilityActor::new();
    let first = update("Negroni", AvailabilityStatus::Unavailable, "u1");
    actor.apply_update(&first, 5, StoreOutcome::Stored).unwrap();
    let second = update("Negroni", AvailabilityStatus::Available, "u2");
    let result = actor.apply_update(&second, 9, StoreOutcome::Failed);
    assert_eq!(result.err(), Some(UpdateError::PersistenceFailure));
    let snapshot = actor.get_snapshot();
    assert_eq!(snapshot.len(), 1);
    assert_eq!(snapshot[0].status, AvailabilityStatus::Unavailable);
    assert_eq!(snapshot[0].actor_id, "u1");
    assert_eq!(snapshot[0].applied_at, 5);
    assert_eq!(actor.last_applied(), 5);
}

#[test]
fn timed_out_write_counts_as_a_failed_one() {
    let mut actor = AvailabilityActor::new();
    let first = update("Negroni", AvailabilityStatus::Unavailable, "u1");
    let result = actor.apply_update(&first, 5, StoreOutcome::TimedOut);
    assert_eq!(result.err(), Some(UpdateError::PersistenceFailure));
    assert!(actor.get_snapshot().is_empty());
    assert_eq!(actor.last_applied(), 0);
}

#[test]
fn acknowledgement_carries_the_applied_record() {
    let mut actor = AvailabilityActor::new();
    let request = AvailabilityUpdate {
        item_key: Some("Sazerac".to_string()),
        status: Some(AvailabilityStatus::Unavailable),
        actor_id: "u7".to_string(),
        reason: Some("out of rye".to_string()),
    };
    let ack = actor.apply_update(&request, 42, StoreOutcome::Stored).unwrap();
    assert_eq!(ack.record.item_key, "Sazerac");
    assert_eq!(ack.record.status, AvailabilityStatus::Unavailable);
    assert_eq!(ack.record.actor_id, "u7");
    assert_eq!(ack.record.reason.as_deref(), Some("out of rye"));
    assert_eq!(ack.record.applied_at, 42);
}

#[test]
fn time_stamps_never_go_back() {
    let mut actor = AvailabilityActor::new();
    let a = update("A", AvailabilityStatus::Unavailable, "u1");
    let b = update("B", AvailabilityStatus::Unavailable, "u1");
    let c = update("C", AvailabilityStatus::Unavailable, "u1");
    assert_eq!(actor.apply_update(&a, 100, StoreOutcome::Stored).unwrap().record.applied_at, 100);
    assert_eq!(actor.apply_update(&b, 40, StoreOutcome::Stored).unwrap().record.applied_at, 100);
    assert_eq!(actor.apply_update(&c, 101, StoreOutcome::Stored).unwrap().record.applied_at, 101);
    assert_eq!(actor.last_applied(), 101);
}

#[test]
fn last_write_wins_over_a_long_sequence_on_one_key() {
    let mut actor = AvailabilityActor::new();
    for n in 0..20u64 {
        let status = if n % 2 == 0 {
            AvailabilityStatus::Unavailable
        } else {
            AvailabilityStatus::Available
        };
        let request = update("Daiquiri", status, &format!("u{}", n));
        actor.apply_update(&request, n, StoreOutcome::Stored).unwrap();
    }
    let snapshot = actor.get_snapshot();
    assert_eq!(snapshot.len(), 1);
    assert_eq!(snapshot[0].status, AvailabilityStatus::Available);
    assert_eq!(snapshot[0].actor_id, "u19");
    assert_eq!(snapshot[0].applied_at, 19);
}

#[test]
fn a_rejected_update_between_two_accepted_ones_does_not_count() {
    let mut actor = AvailabilityActor::new();
    let first = update("Daiquiri", AvailabilityStatus::Unavailable, "u1");
    let lost = update("Daiquiri", AvailabilityStatus::Available, "u2");
    actor.apply_update(&first, 1, StoreOutcome::Stored).unwrap();
    assert!(actor.apply_update(&lost, 2, StoreOutcome::Failed).is_err());
    let snapshot = actor.get_snapshot();
    assert_eq!(snapshot.len(), 1);
    assert_eq!(snapshot[0].actor_id, "u1");
    assert_eq!(snapshot[0].status, AvailabilityStatus::Unavailable);
}

#[test]
fn interleavings_on_distinct_keys_end_in_the_same_state() {
    let a1 = update("Martini", AvailabilityStatus::Unavailable, "a");
    let a2 = update("Martini", AvailabilityStatus::Available, "a");
    let b1 = update("Gimlet", AvailabilityStatus::Available, "b");
    let b2 = update("Gimlet", AvailabilityStatus::Unavailable, "b");
    let orders: Vec<Vec<&AvailabilityUpdate>> = vec![
        vec![&a1, &a2, &b1, &b2],
        vec![&a1, &b1, &a2, &b2],
        vec![&a1, &b1, &b2, &a2],
        vec![&b1, &a1, &a2, &b2],
        vec![&b1, &a1, &b2, &a2],
        vec![&b1, &b2, &a1, &a2],
    ];
    for order in orders {
        let mut actor = AvailabilityActor::new();
        let mut now = 0;
        for request in order {
            now += 1;
            actor.apply_update(request, now, StoreOutcome::Stored).unwrap();
        }
        let snapshot = actor.get_snapshot();
        assert_eq!(snapshot.len(), 2);
        let martini = find(&snapshot, "Martini").unwrap();
        assert_eq!(martini.status, AvailabilityStatus::Available);
        assert_eq!(martini.actor_id, "a");
        let gimlet = find(&snapshot, "Gimlet").unwrap();
        assert_eq!(gimlet.status, AvailabilityStatus::Unavailable);
        assert_eq!(gimlet.actor_id, "b");
    }
}

#[test]
fn snapshot_holds_one_record_for_each_of_n_items() {
    let mut actor = AvailabilityActor::new();
    let names = ["Mojito", "Paloma", "Spritz", "Bellini", "Mai Tai"];
    for (n, name) in names.iter().enumerate() {
        let request = update(name, AvailabilityStatus::Unavailable, "u1");
        actor.apply_update(&request, n as u64, StoreOutcome::Stored).unwrap();
    }
    let snapshot = actor.get_snapshot();
    assert_eq!(snapshot.len(), 5);
    for name in names.iter() {
        let r = find(&snapshot, name).unwrap();
        assert_eq!(r.status, AvailabilityStatus::Unavailable);
        assert_eq!(r.actor_id, "u1");
    }
}

#[test]
fn begin_update_stamps_and_changes_nothing() {
    let mut actor = AvailabilityActor::new();
    let seed = update("Mojito", AvailabilityStatus::Unavailable, "u1");
    actor.apply_update(&seed, 50, StoreOutcome::Stored).unwrap();
    let request = update("Paloma", AvailabilityStatus::Unavailable, "u2");
    let pending = actor.begin_update(&request, 20).unwrap();
    assert_eq!(pending.item_key, "Paloma");
    assert_eq!(pending.applied_at, 50);
    assert_eq!(actor.get_snapshot().len(), 1);
    let later = actor.begin_update(&request, 70).unwrap();
    assert_eq!(later.applied_at, 70);
    assert_eq!(actor.last_applied(), 50);
}

#[test]
fn begin_update_rejects_a_malformed_request() {
    let actor = AvailabilityActor::new();
    let broken = AvailabilityUpdate {
        item_key: None,
        status: None,
        actor_id: String::new(),
        reason: None,
    };
    assert_eq!(actor.begin_update(&broken, 1).err(), Some(UpdateError::InvalidUpdate));
}

#[test]
fn finish_update_makes_a_stored_record_visible() {
    let mut actor = AvailabilityActor::new();
    let request = update("Paloma", AvailabilityStatus::Unavailable, "u2");
    let pending = actor.begin_update(&request, 7).unwrap();
    let ack = actor.finish_update(pending, StoreOutcome::Stored).unwrap();
    assert_eq!(ack.record.item_key, "Paloma");
    assert_eq!(ack.record.applied_at, 7);
    assert_eq!(actor.last_applied(), 7);
    let found = actor.get_record("Paloma").unwrap();
    assert_eq!(found.actor_id, "u2");
    assert!(actor.get_record("Mojito").is_none());
}

#[test]
fn finish_update_refuses_a_stale_record() {
    let mut actor = AvailabilityActor::new();
    let seed = update("Mojito", AvailabilityStatus::Unavailable, "u1");
    actor.apply_update(&seed, 50, StoreOutcome::Stored).unwrap();
    let stale = record("Paloma", AvailabilityStatus::Unavailable, "u2", 49);
    let result = actor.finish_update(stale, StoreOutcome::Stored);
    assert_eq!(result.err(), Some(UpdateError::InvalidUpdate));
    assert_eq!(actor.get_snapshot().len(), 1);
    let unnamed = record("", AvailabilityStatus::Unavailable, "u2", 60);
    let result = actor.finish_update(unnamed, StoreOutcome::Stored);
    assert_eq!(result.err(), Some(UpdateError::InvalidUpdate));
    assert_eq!(actor.last_applied(), 50);
}

#[test]
fn finish_update_reports_a_failed_write() {
    let mut actor = AvailabilityActor::new();
    let fresh = record("Paloma", AvailabilityStatus::Unavailable, "u2", 3);
    let result = actor.finish_update(fresh, StoreOutcome::Failed);
    assert_eq!(result.err(), Some(UpdateError::PersistenceFailure));
    assert!(actor.get_snapshot().is_empty());
}

#[test]
fn recover_loads_every_stored_record() {
    let stored = vec![
        record("Mojito", AvailabilityStatus::Unavailable, "u1", 30),
        record("Paloma", AvailabilityStatus::Available, "u2", 90),
        record("Spritz", AvailabilityStatus::Unavailable, "u3", 60),
    ];
    let actor = AvailabilityActor::recover(stored);
    let snapshot = actor.get_snapshot();
    assert_eq!(snapshot.len(), 3);
    assert_eq!(find(&snapshot, "Paloma").unwrap().status, AvailabilityStatus::Available);
    assert_eq!(find(&snapshot, "Spritz").unwrap().applied_at, 60);
    assert_eq!(actor.last_applied(), 90);
}

#[test]
fn recover_keeps_the_later_of_two_records_for_one_key() {
    let stored = vec![
        record("Mojito", AvailabilityStatus::Unavailable, "u1", 30),
        record("Mojito", AvailabilityStatus::Available, "u2", 20),
    ];
    let actor = AvailabilityActor::recover(stored);
    let snapshot = actor.get_snapshot();
    assert_eq!(snapshot.len(), 1);
    assert_eq!(snapshot[0].actor_id, "u2");
    assert_eq!(actor.last_applied(), 30);
}

#[test]
fn recover_of_nothing_is_a_new_actor() {
    let actor = AvailabilityActor::recover(Vec::new());
    assert!(actor.get_snapshot().is_empty());
    assert_eq!(actor.last_applied(), 0);
}

#[test]
fn recover_from_a_snapshot_restores_the_state() {
    let mut actor = AvailabilityActor::new();
    actor
        .apply_update(&update("Mojito", AvailabilityStatus::Unavailable, "u1"), 3, StoreOutcome::Stored)
        .unwrap();
    actor
        .apply_update(&update("Paloma", AvailabilityStatus::Available, "u2"), 4, StoreOutcome::Stored)
        .unwrap();
    let again = AvailabilityActor::recover(actor.get_snapshot());
    let before = actor.get_snapshot();
    let after = again.get_snapshot();
    assert_eq!(before.len(), after.len());
    for r in before.iter() {
        let s = find(&after, &r.item_key).unwrap();
        assert_eq!(s.status, r.status);
        assert_eq!(s.actor_id, r.actor_id);
        assert_eq!(s.reason, r.reason);
        assert_eq!(s.applied_at, r.applied_at);
    }
    assert_eq!(again.last_applied(), 4);
}

#[test]
fn cloning_a_record_keeps_every_field() {
    let mut source = record("Mojito", AvailabilityStatus::Unavailable, "u1", 30);
    source.reason = Some("no mint".to_string());
    let copy = source.clone();
    assert_eq!(copy.item_key, "Mojito");
    assert_eq!(copy.status, AvailabilityStatus::Unavailable);
    assert_eq!(copy.actor_id, "u1");
    assert_eq!(copy.reason.as_deref(), Some("no mint"));
    assert_eq!(copy.applied_at, 30);
}
