use valeriyya::playback::{
    EventKind, Notification, Session, SessionRegistry, Video, IDLE_WINDOW_SECS,
};

fn video(id: &str, title: &str, duration_secs: u64) -> Video {
    Video { id: id.to_string(), title: title.to_string(), duration_secs }
}

fn assert_event(n: &Notification, room: u64, kind: EventKind, id: &str, failed: bool) {
    assert_eq!(n.room_id, room);
    assert_eq!(n.kind, kind);
    assert_eq!(n.item.id, id);
    assert_eq!(n.failed, failed);
}

#[test]
fn queue_ordering_three_items() {
    // P4: batch [A, B, C], three advances: no Started for the first
    // item, then Started/Ended interleaved in order, each exactly once.
    let mut reg = SessionRegistry::new();
    let items = vec![video("A", "a", 30), video("B", "b", 30), video("C", "c", 30)];
    let out = reg.enqueue(7, &items, 100);
    assert!(out.is_empty());

    let out1 = reg.advance(7, 130);
    assert_eq!(out1.len(), 2);
    assert_event(&out1[0], 7, EventKind::Ended, "A", false);
    assert_event(&out1[1], 7, EventKind::Started, "B", false);

    let out2 = reg.advance(7, 160);
    assert_eq!(out2.len(), 2);
    assert_event(&out2[0], 7, EventKind::Ended, "B", false);
    assert_event(&out2[1], 7, EventKind::Started, "C", false);

    let out3 = reg.advance(7, 190);
    assert_eq!(out3.len(), 1);
    assert_event(&out3[0], 7, EventKind::Ended, "C", false);

    // nothing left: a further advance is a no-op
    let out4 = reg.advance(7, 200);
    assert!(out4.is_empty());
}

#[test]
fn two_items_one_completion() {
    // Scenario: two items in room 42; after the transport reports the
    // first completion, item 2 is active and exactly one Ended plus
    // one Started event are emitted.
    let mut reg = SessionRegistry::new();
    let items = vec![video("one", "first", 30), video("two", "second", 20)];
    let out = reg.enqueue(42, &items, 0);
    assert!(out.is_empty());

    let out = reg.advance(42, 30);
    assert_eq!(out.len(), 2);
    assert_event(&out[0], 42, EventKind::Ended, "one", false);
    assert_event(&out[1], 42, EventKind::Started, "two", false);
}

#[test]
fn single_item_batch_announces_nothing() {
    let mut reg = SessionRegistry::new();
    let out = reg.enqueue(1, &vec![video("solo", "s", 60)], 0);
    assert!(out.is_empty());
    let out = reg.advance(1, 60);
    assert_eq!(out.len(), 1);
    assert_event(&out[0], 1, EventKind::Ended, "solo", false);
}

#[test]
fn enqueue_into_playing_session_keeps_batch_rule() {
    let mut reg = SessionRegistry::new();
    reg.enqueue(1, &vec![video("a", "a", 10)], 0);
    // a second two-item batch while "a" plays: by the registration
    // rule only items beyond a batch's first announce their start
    let out = reg.enqueue(1, &vec![video("b", "b", 10), video("c", "c", 10)], 1);
    assert!(out.is_empty());
    let out = reg.advance(1, 10);
    assert_eq!(out.len(), 1);
    assert_event(&out[0], 1, EventKind::Ended, "a", false);
    let out = reg.advance(1, 20);
    assert_eq!(out.len(), 2);
    assert_event(&out[0], 1, EventKind::Ended, "b", false);
    assert_event(&out[1], 1, EventKind::Started, "c", false);
}

#[test]
fn skip_acts_like_completion() {
    let mut reg = SessionRegistry::new();
    reg.enqueue(5, &vec![video("x", "x", 300), video("y", "y", 300)], 0);
    let out = reg.skip(5, 10);
    assert_eq!(out.len(), 2);
    assert_event(&out[0], 5, EventKind::Ended, "x", false);
    assert_event(&out[1], 5, EventKind::Started, "y", false);
}

#[test]
fn failed_item_ends_with_failure_and_queue_flows_on() {
    let mut reg = SessionRegistry::new();
    reg.enqueue(5, &vec![video("bad", "b", 10), video("good", "g", 10)], 0);
    let out = reg.fail_current(5, 1);
    assert_eq!(out.len(), 2);
    assert_event(&out[0], 5, EventKind::Ended, "bad", true);
    assert_event(&out[1], 5, EventKind::Started, "good", false);
    let out = reg.advance(5, 11);
    assert_eq!(out.len(), 1);
    assert_event(&out[0], 5, EventKind::Ended, "good", false);
}

#[test]
fn idle_session_reclaimed_after_window() {
    // P5: empty and idle for the whole window: destroyed; not before.
    let mut reg = SessionRegistry::new();
    reg.enqueue(9, &vec![video("a", "a", 10)], 0);
    reg.advance(9, 10); // queue empty, nothing playing, last activity 10

    assert!(!reg.idle_sweep(9, 10 + IDLE_WINDOW_SECS - 1));
    assert!(reg.has_session(9));

    assert!(reg.idle_sweep(9, 10 + IDLE_WINDOW_SECS));
    assert!(!reg.has_session(9));
}

#[test]
fn enqueue_resets_idle_window() {
    let mut reg = SessionRegistry::new();
    reg.enqueue(9, &vec![video("a", "a", 10)], 0);
    reg.advance(9, 10);
    // new work arrives before the window elapses
    reg.enqueue(9, &vec![video("b", "b", 10)], 500);
    // even far in the future, the sweep must not destroy a session
    // with an active item
    assert!(!reg.idle_sweep(9, 500 + 10 * IDLE_WINDOW_SECS));
    assert!(reg.has_session(9));
}

#[test]
fn sweep_then_enqueue_recreates_session() {
    // P6, commit-first order: the teardown wins, then the enqueue
    // builds a fresh session holding the item — nothing is lost.
    let mut reg = SessionRegistry::new();
    reg.enqueue(3, &vec![video("a", "a", 10)], 0);
    reg.advance(3, 10);
    assert!(reg.idle_sweep(3, 10 + IDLE_WINDOW_SECS));
    assert!(!reg.has_session(3));

    let out = reg.enqueue(3, &vec![video("b", "b", 10)], 10 + IDLE_WINDOW_SECS);
    assert!(out.is_empty());
    assert!(reg.has_session(3));
    let out = reg.advance(3, 20 + IDLE_WINDOW_SECS);
    assert_eq!(out.len(), 1);
    assert_event(&out[0], 3, EventKind::Ended, "b", false);
}

#[test]
fn sessions_of_different_rooms_are_independent() {
    let mut reg = SessionRegistry::new();
    reg.enqueue(1, &vec![video("a", "a", 10)], 0);
    reg.enqueue(2, &vec![video("b", "b", 10)], 0);
    let out = reg.advance(1, 10);
    assert_eq!(out.len(), 1);
    assert_event(&out[0], 1, EventKind::Ended, "a", false);
    assert!(reg.has_session(1));
    assert!(reg.has_session(2));
}

#[test]
fn notification_texts() {
    let started = Notification {
        room_id: 1,
        kind: EventKind::Started,
        item: video("v1", "Song One", 30),
        failed: false,
    };
    assert_eq!(started.message_text(), "Playing [Song One](https://youtu.be/v1)");

    let ended = Notification {
        room_id: 1,
        kind: EventKind::Ended,
        item: video("v1", "Song One", 30),
        failed: false,
    };
    assert_eq!(ended.message_text(), "Song One has finished.");

    let failed = Notification {
        room_id: 1,
        kind: EventKind::Ended,
        item: video("v1", "Song One", 30),
        failed: true,
    };
    assert_eq!(failed.message_text(), "Song One could not be played.");
}

#[test]
fn preload_offset_is_margin_before_end() {
    assert_eq!(video("a", "a", 180).preload_offset_secs(), 165);
    assert_eq!(video("a", "a", 15).preload_offset_secs(), 0);
    assert_eq!(video("a", "a", 10).preload_offset_secs(), 0);
}

#[test]
fn session_new_is_empty_and_idle() {
    let s = Session::new(11, 7);
    assert_eq!(s.room_id, 11);
    assert!(s.queue.is_empty());
    assert!(s.current.is_none());
    assert_eq!(s.last_activity, 7);
}
