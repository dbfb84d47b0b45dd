use openmeet_core::errors::RepoError;
use openmeet_core::events::create_event;
use openmeet_core::events::delete_event;
use openmeet_core::events::get_event;
use openmeet_core::events::list_events_by_group;
use openmeet_core::events::Event;
use openmeet_core::events::EventStore;

fn make_event(group_id: u128, start_time: i64) -> Event {
    Event {
        event_id: 0,
        group_id,
        title: "Test Event".to_string(),
        description: "This is a test event".to_string(),
        start_time,
        end_time: start_time + 3600000,
        lat_bits: 40.0f64.to_bits(),
        lon_bits: (-74.0f64).to_bits(),
        location: "New York, NY".to_string(),
        created_at: 0,
        updated_at: 0,
    }
}

#[test]
fn test_create_event_success() {
    let mut store = EventStore::new();
    let group_id: u128 = 0x38408cb99c134ca7ad78c322bb2a38a9;
    let created = create_event(&mut store, make_event(group_id, 1725385197884));

    assert_eq!(created.group_id, group_id);
    assert_eq!(created.title, "Test Event");
    assert_eq!(created.description, "This is a test event");
    assert_eq!(created.location, "New York, NY");
    assert_eq!(created.start_time, 1725385197884);
    assert_eq!(created.end_time, 1725385197884 + 3600000);
    assert_eq!(f64::from_bits(created.lat_bits), 40.0);
    assert_eq!(f64::from_bits(created.lon_bits), -74.0);
}

#[test]
fn test_get_event_success() {
    let mut store = EventStore::new();
    let group_id: u128 = 7001;
    let created = create_event(&mut store, make_event(group_id, 1725385197884));

    let fetched = get_event(&store, created.event_id, group_id, created.start_time)
        .expect("Failed to retrieve test event");
    assert_eq!(fetched.title, "Test Event");
    assert_eq!(fetched.description, "This is a test event");
    assert_eq!(fetched.location, "New York, NY");
    assert_eq!(fetched.event_id, created.event_id);
    assert_eq!(fetched.end_time, created.end_time);

    // a mismatched group or start time misses the row
    assert!(get_event(&store, created.event_id, group_id + 1, created.start_time).is_none());
    assert!(get_event(&store, created.event_id, group_id, created.start_time + 1).is_none());
}

#[test]
fn test_get_event_not_found() {
    let store = EventStore::new();
    assert!(get_event(&store, 42, 43, 44).is_none());
}

#[test]
fn test_delete_event_success() {
    let mut store = EventStore::new();
    let group_id: u128 = 0x115c9dbdccfb43cd83410f242144c98f;
    let created = create_event(&mut store, make_event(group_id, 1725385197884));

    let deleted = delete_event(&mut store, created.event_id, group_id, created.start_time);
    assert!(deleted.is_ok());

    // the key is gone: a repeated delete misses, distinguishably
    let again = delete_event(&mut store, created.event_id, group_id, created.start_time);
    assert_eq!(again.unwrap_err(), RepoError::NotFound);
}

#[test]
fn test_delete_event_never_created() {
    let mut store = EventStore::new();
    let _ = create_event(&mut store, make_event(1, 1000));
    let result = delete_event(&mut store, 999, 998, 997);
    assert_eq!(result.unwrap_err(), RepoError::NotFound);
}

#[test]
fn test_get_events_by_group_id_success() {
    let mut store = EventStore::new();
    let group: u128 = 5;
    let other: u128 = 6;
    let later = create_event(&mut store, make_event(group, 20000));
    let early = create_event(&mut store, make_event(group, 10000));
    let _elsewhere = create_event(&mut store, make_event(other, 15000));

    let events = list_events_by_group(&store, group);
    assert_eq!(events.len(), 2);
    // ordered by start time, regardless of insertion order
    assert_eq!(events[0].event_id, early.event_id);
    assert_eq!(events[1].event_id, later.event_id);
    assert!(events.iter().all(|e| e.group_id == group));

    assert_eq!(list_events_by_group(&store, other).len(), 1);
    assert_eq!(list_events_by_group(&store, 7).len(), 0);
}
