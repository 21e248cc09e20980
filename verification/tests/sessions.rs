use eighty_six::actor::{AvailabilityUpdate, StoreOutcome, UpdateError};
use eighty_six::broadcast::broadcast;
use eighty_six::record::{AvailabilityRecord, AvailabilityStatus};
use eighty_six::registry::{Session, SessionRegistry};
use eighty_six::gateway::{route, update_status, Route};
use eighty_six::text::same_text;
use eighty_six::service::{decoded_records, EightySixList};
use std::cell::RefCell;

fn sorted(mut sessions: Vec<Session>) -> Vec<(String, u64)> {
    sessions.sort_by(|a, b| a.session_id.cmp(&b.session_id));
    sessions.into_iter().map(|s| (s.session_id, s.handle)).collect()
}

fn update(key: &str, status: AvailabilityStatus, actor: &str) -> AvailabilityUpdate {
    AvailabilityUpdate {
        item_key: Some(key.to_string()),
        status: Some(status),
        actor_id: actor.to_string(),
        reason: None,
    }
}

#[test]
fn a_new_registry_has_no_session() {
    let registry = SessionRegistry::new();
    assert!(registry.snapshot_sessions().is_empty());
}

#[test]
fn register_adds_a_session() {
    let mut registry = SessionRegistry::new();
    registry.register("s1".to_string(), 11);
    registry.register("s2".to_string(), 22);
    assert_eq!(
        sorted(registry.snapshot_sessions()),
        vec![("s1".to_string(), 11), ("s2".to_string(), 22)]
    );
}

#[test]
fn the_last_registration_of_an_id_wins() {
    let mut registry = SessionRegistry::new();
    registry.register("s1".to_string(), 11);
    registry.register("s1".to_string(), 99);
    assert_eq!(sorted(registry.snapshot_sessions()), vec![("s1".to_string(), 99)]);
}

#[test]
fn unregister_removes_and_is_idempotent() {
    let mut registry = SessionRegistry::new();
    registry.register("s1".to_string(), 11);
    registry.register("s2".to_string(), 22);
    assert!(registry.unregister("s1"));
    assert!(!registry.unregister("s1"));
    assert!(!registry.unregister("never"));
    assert_eq!(sorted(registry.snapshot_sessions()), vec![("s2".to_string(), 22)]);
}

#[test]
fn a_snapshot_of_sessions_does_not_follow_later_changes() {
    let mut registry = SessionRegistry::new();
    registry.register("s1".to_string(), 11);
    let view = registry.snapshot_sessions();
    registry.register("s2".to_string(), 22);
    registry.unregister("s1");
    assert_eq!(sorted(view), vec![("s1".to_string(), 11)]);
}

#[test]
fn broadcast_reaches_every_session() {
    let mut registry = SessionRegistry::new();
    registry.register("s1".to_string(), 1);
    registry.register("s2".to_string(), 2);
    registry.register("s3".to_string(), 3);
    let seen: RefCell<Vec<(u64, String)>> = RefCell::new(Vec::new());
    let report = broadcast("hello", &mut registry, |handle, message| {
        seen.borrow_mut().push((handle, message.to_string()));
        true
    });
    assert_eq!(report.delivered, 3);
    assert!(report.evicted.is_empty());
    let mut seen = seen.into_inner();
    seen.sort();
    assert_eq!(
        seen,
        vec![(1, "hello".to_string()), (2, "hello".to_string()), (3, "hello".to_string())]
    );
    assert_eq!(registry.snapshot_sessions().len(), 3);
}

#[test]
fn one_failing_session_does_not_stop_the_others_and_is_removed() {
    let mut registry = SessionRegistry::new();
    for n in 1..=5u64 {
        registry.register(format!("s{}", n), n);
    }
    let taken: RefCell<Vec<u64>> = RefCell::new(Vec::new());
    let report = broadcast("86: Negroni", &mut registry, |handle, _message| {
        if handle == 3 {
            false
        } else {
            taken.borrow_mut().push(handle);
            true
        }
    });
    assert_eq!(report.delivered, 4);
    assert_eq!(report.evicted, vec!["s3".to_string()]);
    let mut taken = taken.into_inner();
    taken.sort();
    assert_eq!(taken, vec![1, 2, 4, 5]);
    assert_eq!(
        sorted(registry.snapshot_sessions()),
        vec![
            ("s1".to_string(), 1),
            ("s2".to_string(), 2),
            ("s4".to_string(), 4),
            ("s5".to_string(), 5)
        ]
    );
}

#[test]
fn broadcast_to_nobody_delivers_nothing() {
    let mut registry = SessionRegistry::new();
    let report = broadcast("hello", &mut registry, |_handle, _message| true);
    assert_eq!(report.delivered, 0);
    assert!(report.evicted.is_empty());
}

#[test]
fn broadcast_where_every_delivery_fails_empties_the_registry() {
    let mut registry = SessionRegistry::new();
    registry.register("s1".to_string(), 1);
    registry.register("s2".to_string(), 2);
    let report = broadcast("hello", &mut registry, |_handle, _message| false);
    assert_eq!(report.delivered, 0);
    let mut evicted = report.evicted;
    evicted.sort();
    assert_eq!(evicted, vec!["s1".to_string(), "s2".to_string()]);
    assert!(registry.snapshot_sessions().is_empty());
}

#[test]
fn paths_are_routed() {
    assert_eq!(route("/websocket"), Route::Websocket);
    assert_eq!(route("/update"), Route::Update);
    assert_eq!(route("/state"), Route::State);
    assert_eq!(route("/"), Route::NotFound);
    assert_eq!(route(""), Route::NotFound);
    assert_eq!(route("/update/"), Route::NotFound);
    assert_eq!(route("/States"), Route::NotFound);
}

#[test]
fn an_update_is_answered_with_200_400_or_500() {
    assert_eq!(update_status(None), 200);
    assert_eq!(update_status(Some(UpdateError::InvalidUpdate)), 400);
    assert_eq!(update_status(Some(UpdateError::PersistenceFailure)), 500);
}

#[test]
fn texts_are_compared_in_full() {
    assert!(same_text("abc", "abc"));
    assert!(same_text("", ""));
    assert!(!same_text("abc", "abd"));
    assert!(!same_text("abc", "ab"));
}

#[test]
fn a_session_that_connects_after_n_updates_gets_n_records() {
    let mut service = EightySixList::new();
    let names = ["Mojito", "Paloma", "Spritz"];
    for (n, name) in names.iter().enumerate() {
        let pending = service
            .begin_update(&update(name, AvailabilityStatus::Unavailable, "u1"), n as u64)
            .unwrap();
        service
            .handle_update(pending, StoreOutcome::Stored, "changed", |_h, _m| true)
            .unwrap();
    }
    let opened = service.handle_websocket_upgrade(7);
    assert_eq!(opened.snapshot.len(), 3);
    for name in names.iter() {
        assert!(opened.snapshot.iter().any(|r| r.item_key == *name));
    }
    // A later broadcast reaches the new session.
    let reached: RefCell<Vec<u64>> = RefCell::new(Vec::new());
    let pending = service
        .begin_update(&update("Bellini", AvailabilityStatus::Unavailable, "u1"), 10)
        .unwrap();
    let applied = service
        .handle_update(pending, StoreOutcome::Stored, "changed", |h, _m| {
            reached.borrow_mut().push(h);
            true
        })
        .unwrap();
    assert_eq!(applied.report.delivered, 1);
    assert_eq!(reached.into_inner(), vec![7]);
    assert_eq!(service.get_current_state().len(), 4);
}

#[test]
fn session_ids_are_hyphenated_and_differ() {
    let mut service = EightySixList::new();
    let first = service.handle_websocket_upgrade(1);
    let second = service.handle_websocket_upgrade(2);
    assert_ne!(first.session_id, second.session_id);
    for id in [&first.session_id, &second.session_id] {
        assert_eq!(id.chars().count(), 36);
        for (i, c) in id.chars().enumerate() {
            if i == 8 || i == 13 || i == 18 || i == 23 {
                assert_eq!(c, '-');
            } else {
                assert!(c.is_ascii_hexdigit());
            }
        }
    }
    assert!(service.close_session(&first.session_id));
    assert!(!service.close_session(&first.session_id));
}

#[test]
fn a_failed_write_sends_nothing_and_changes_nothing() {
    let mut service = EightySixList::new();
    service.handle_websocket_upgrade(1);
    let calls: RefCell<u32> = RefCell::new(0);
    let pending = service
        .begin_update(&update("Mojito", AvailabilityStatus::Unavailable, "u1"), 1)
        .unwrap();
    let result = service.handle_update(pending, StoreOutcome::Failed, "changed", |_h, _m| {
        *calls.borrow_mut() += 1;
        false
    });
    assert_eq!(result.err(), Some(UpdateError::PersistenceFailure));
    assert_eq!(*calls.borrow(), 0);
    assert!(service.get_current_state().is_empty());
    // The session is still registered: the next broadcast reaches it.
    let pending = service
        .begin_update(&update("Mojito", AvailabilityStatus::Unavailable, "u1"), 2)
        .unwrap();
    let applied = service
        .handle_update(pending, StoreOutcome::Stored, "changed", |_h, _m| true)
        .unwrap();
    assert_eq!(applied.report.delivered, 1);
    assert_eq!(applied.ack.record.item_key, "Mojito");
}

#[test]
fn an_update_evicts_the_session_that_does_not_take_it() {
    let mut service = EightySixList::new();
    let good = service.handle_websocket_upgrade(1);
    let bad = service.handle_websocket_upgrade(2);
    let pending = service
        .begin_update(&update("Mojito", AvailabilityStatus::Unavailable, "u1"), 1)
        .unwrap();
    let applied = service
        .handle_update(pending, StoreOutcome::Stored, "changed", |h, _m| h != 2)
        .unwrap();
    assert_eq!(applied.report.delivered, 1);
    assert_eq!(applied.report.evicted, vec![bad.session_id.clone()]);
    assert!(!service.close_session(&bad.session_id));
    assert!(service.close_session(&good.session_id));
}

#[test]
fn restore_leaves_out_what_could_not_be_decoded() {
    let stored = vec![
        Some(AvailabilityRecord {
            item_key: "Mojito".to_string(),
            status: AvailabilityStatus::Unavailable,
            actor_id: "u1".to_string(),
            reason: None,
            applied_at: 8,
        }),
        None,
        Some(AvailabilityRecord {
            item_key: "Paloma".to_string(),
            status: AvailabilityStatus::Available,
            actor_id: "u2".to_string(),
            reason: Some("back".to_string()),
            applied_at: 3,
        }),
    ];
    let kept = decoded_records(&stored);
    assert_eq!(kept.len(), 2);
    assert_eq!(kept[0].item_key, "Mojito");
    assert_eq!(kept[1].item_key, "Paloma");
    let service = EightySixList::restore(&stored);
    let state = service.get_current_state();
    assert_eq!(state.len(), 2);
    let next = service
        .begin_update(&update("Spritz", AvailabilityStatus::Unavailable, "u3"), 1)
        .unwrap();
    assert_eq!(next.applied_at, 8);
}
