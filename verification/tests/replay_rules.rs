use eventgate::ids::parse_event_id;
use eventgate::replay::{replay, Event};

fn ev(id_text: &[u8], name: &[u8], topic: &[u8], added_at: u64) -> Event {
    Event {
        id: parse_event_id(id_text).unwrap(),
        name: name.to_vec(),
        topic: topic.to_vec(),
        policy: None,
        data: b"{}".to_vec(),
        added_at,
    }
}

fn table() -> Vec<Event> {
    vec![
        ev(b"00000000-0000-0000-0000-000000000001", b"a", b"orders", 10),
        ev(b"00000000-0000-0000-0000-000000000002", b"b", b"other", 20),
        ev(b"00000000-0000-0000-0000-000000000003", b"c", b"orders", 30),
        ev(b"00000000-0000-0000-0000-000000000004", b"d", b"orders", 40),
        ev(b"00000000-0000-0000-0000-000000000005", b"e", b"orders", 50),
    ]
}

fn ids(rows: &[Event]) -> Vec<u128> {
    rows.iter().map(|e| e.id).collect()
}

#[test]
fn replay_filters_topic_and_cut_and_excludes_pivot() {
    let t = table();
    let pivot = parse_event_id(b"00000000-0000-0000-0000-000000000003").unwrap();
    let rows = replay(&t, &b"orders".to_vec(), pivot);
    // Exactly the orders rows at or after the pivot's timestamp, without the
    // pivot row itself, in ascending timestamp order.
    assert_eq!(ids(&rows), vec![t[3].id, t[4].id]);
    assert_eq!(rows[0].name, b"d".to_vec());
    assert_eq!(rows[1].name, b"e".to_vec());
}

#[test]
fn replay_keeps_sibling_rows_sharing_the_pivot_timestamp() {
    // The comparison is inclusive on purpose: a row inserted with the exact
    // timestamp of the pivot must survive a reconnect.
    let mut t = table();
    t.push(ev(
        b"00000000-0000-0000-0000-000000000006",
        b"f",
        b"orders",
        30,
    ));
    let pivot = parse_event_id(b"00000000-0000-0000-0000-000000000003").unwrap();
    let rows = replay(&t, &b"orders".to_vec(), pivot);
    assert_eq!(ids(&rows), vec![t[3].id, t[4].id, t[5].id]);
}

#[test]
fn replay_with_unknown_pivot_is_empty() {
    let t = table();
    let pivot = parse_event_id(b"ffffffff-ffff-ffff-ffff-ffffffffffff").unwrap();
    let rows = replay(&t, &b"orders".to_vec(), pivot);
    assert!(rows.is_empty());
}

#[test]
fn replay_other_topic_rows_never_leak() {
    let t = table();
    let pivot = parse_event_id(b"00000000-0000-0000-0000-000000000001").unwrap();
    let rows = replay(&t, &b"other".to_vec(), pivot);
    assert_eq!(ids(&rows), vec![t[1].id]);
}

#[test]
fn replay_is_idempotent_on_unchanged_data() {
    let t = table();
    let pivot = parse_event_id(b"00000000-0000-0000-0000-000000000001").unwrap();
    let first = ids(&replay(&t, &b"orders".to_vec(), pivot));
    let second = ids(&replay(&t, &b"orders".to_vec(), pivot));
    assert_eq!(first, second);
    assert_eq!(first, vec![t[2].id, t[3].id, t[4].id]);
}
