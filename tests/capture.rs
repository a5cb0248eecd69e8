use rawinput_mouse::{
    capture_core, capture_run, BatchClock, CaptureState, EventQueue, LifecycleEvent,
    MouseRawEvent, RawRecord, RecordKind, DEFAULT_CAPACITY,
};

fn motion(dx: i32, dy: i32) -> RawRecord {
    RawRecord { kind: RecordKind::Mouse, dx, dy }
}

fn other(kind: RecordKind) -> RawRecord {
    RawRecord { kind, dx: 0, dy: 0 }
}

fn ev(dx: i32, dy: i32, t: i64) -> MouseRawEvent {
    MouseRawEvent { dx, dy, t }
}

#[test]
fn three_motion_records_truncated_increment() {
    let mut clock = BatchClock::new(1000);
    let records = vec![motion(1, 0), motion(0, 1), motion(2, 2)];
    let events = clock.process_batch(&records, 1010);
    assert_eq!(events, vec![ev(1, 0, 1003), ev(0, 1, 1006), ev(2, 2, 1009)]);
    assert_eq!(clock.last_time, 1010);
}

#[test]
fn stamps_follow_position_in_batch() {
    let mut clock = BatchClock::new(-50);
    let records = vec![motion(5, -5), motion(-7, 3), motion(0, 0), motion(9, 9)];
    let events = clock.process_batch(&records, 50);
    // (50 - (-50)) / 4 = 25
    let times: Vec<i64> = events.iter().map(|e| e.t).collect();
    assert_eq!(times, vec![-25, 0, 25, 50]);
    assert_eq!(events[1].dx, -7);
    assert_eq!(events[1].dy, 3);
    assert_eq!(clock.last_time, 50);
}

#[test]
fn other_records_advance_time_but_emit_nothing() {
    let mut clock = BatchClock::new(0);
    let records = vec![other(RecordKind::Keyboard), motion(3, 4), other(RecordKind::Hid), motion(-1, -1)];
    let events = clock.process_batch(&records, 100);
    assert_eq!(events, vec![ev(3, 4, 50), ev(-1, -1, 100)]);
    assert_eq!(clock.last_time, 100);
}

#[test]
fn empty_batch_leaves_clock() {
    let mut clock = BatchClock::new(7);
    let events = clock.process_batch(&Vec::new(), 20);
    assert!(events.is_empty());
    assert_eq!(clock.last_time, 7);
}

#[test]
fn backwards_reading_divides_toward_zero() {
    let mut clock = BatchClock::new(10);
    let events = clock.process_batch(&vec![motion(1, 1), motion(2, 2), motion(3, 3)], 0);
    // -10 / 3 rounds toward zero: -3
    let times: Vec<i64> = events.iter().map(|e| e.t).collect();
    assert_eq!(times, vec![7, 4, 1]);
    assert_eq!(clock.last_time, 0);
}

#[test]
fn extreme_clock_readings_do_not_overflow() {
    let mut clock = BatchClock::new(i64::MIN);
    let events = clock.process_batch(&vec![motion(1, 0), motion(0, 1)], i64::MAX);
    assert_eq!(events.len(), 2);
    assert!(events[0].t <= events[1].t);
    assert!(events[1].t <= i64::MAX);
    assert_eq!(clock.last_time, i64::MAX);
}

#[test]
fn timestamps_never_decrease_across_batches() {
    let mut clock = BatchClock::new(1000);
    let mut all: Vec<i64> = Vec::new();
    let batches: Vec<(Vec<RawRecord>, i64)> = vec![
        (vec![motion(1, 0), motion(0, 1), motion(2, 2)], 1010),
        (vec![motion(1, 1)], 1010),
        (vec![other(RecordKind::Keyboard), motion(4, 4), motion(5, 5)], 1017),
        (Vec::new(), 1020),
        (vec![motion(6, 6), motion(7, 7)], 1031),
    ];
    for (records, now) in batches {
        for e in clock.process_batch(&records, now) {
            all.push(e.t);
        }
    }
    // the empty read leaves the point at 1017, so the last batch spans 1017..1031
    assert_eq!(all, vec![1003, 1006, 1009, 1010, 1014, 1016, 1024, 1031]);
    assert!(all.windows(2).all(|w| w[0] <= w[1]));
}

#[test]
fn run_of_batches_resynchronises_after_each() {
    let mut clock = BatchClock::new(1000);
    let batches: Vec<(Vec<RawRecord>, i64)> = vec![
        (vec![motion(1, 0), motion(0, 1), motion(2, 2)], 1010),
        (vec![motion(3, 3), motion(4, 4)], 1015),
        (Vec::new(), 1040),
    ];
    let events = clock.process_run(&batches);
    assert_eq!(
        events,
        vec![ev(1, 0, 1003), ev(0, 1, 1006), ev(2, 2, 1009), ev(3, 3, 1012), ev(4, 4, 1014)]
    );
    assert_eq!(clock.last_time, 1015);
}

#[test]
fn queue_is_fifo() {
    let mut q = EventQueue::new(8);
    let sent = vec![ev(1, 2, 3), ev(4, 5, 6), ev(7, 8, 9)];
    for e in &sent {
        assert!(q.push(*e));
    }
    assert_eq!(q.drain(), sent);
}

#[test]
fn pop_takes_oldest_then_reports_empty() {
    let mut q = EventQueue::new(2);
    assert_eq!(q.pop(), None);
    assert!(q.push(ev(1, 1, 1)));
    assert!(q.push(ev(2, 2, 2)));
    assert_eq!(q.pop(), Some(ev(1, 1, 1)));
    assert_eq!(q.pop(), Some(ev(2, 2, 2)));
    assert_eq!(q.pop(), None);
}

#[test]
fn full_queue_drops_latest_events() {
    let mut q = EventQueue::new(3);
    let sent: Vec<MouseRawEvent> = (0..5).map(|i| ev(i, -i, i as i64)).collect();
    let dropped = q.offer_all(&sent);
    assert_eq!(dropped, 2);
    assert_eq!(q.drain(), sent[..3].to_vec());
}

#[test]
fn push_fails_only_when_full() {
    let mut q = EventQueue::new(1);
    assert!(q.push(ev(1, 0, 0)));
    assert!(!q.push(ev(2, 0, 0)));
    assert_eq!(q.pop(), Some(ev(1, 0, 0)));
    assert!(q.push(ev(3, 0, 0)));
    assert_eq!(q.drain(), vec![ev(3, 0, 0)]);
}

#[test]
fn default_capacity_holds_1024() {
    let mut q = EventQueue::with_default_capacity();
    assert_eq!(q.capacity(), DEFAULT_CAPACITY);
    assert_eq!(DEFAULT_CAPACITY, 1024);
    let sent: Vec<MouseRawEvent> = (0..1030).map(|i| ev(i, i, i as i64)).collect();
    assert_eq!(q.offer_all(&sent), 6);
    let got = q.drain();
    assert_eq!(got.len(), 1024);
    assert_eq!(got[1023], ev(1023, 1023, 1023));
}

#[test]
fn zero_capacity_queue_drops_everything() {
    let mut q = EventQueue::new(0);
    assert!(!q.push(ev(1, 1, 1)));
    assert!(q.drain().is_empty());
}

#[test]
fn second_drain_is_empty() {
    let mut q = EventQueue::new(4);
    assert!(q.drain().is_empty());
    assert!(q.drain().is_empty());
    assert!(q.push(ev(1, 1, 1)));
    assert_eq!(q.drain(), vec![ev(1, 1, 1)]);
    assert!(q.drain().is_empty());
}

#[test]
fn capture_run_stamps_and_queues() {
    let mut clock = BatchClock::new(1000);
    let mut q = EventQueue::new(2);
    let batches = vec![(vec![motion(1, 0), other(RecordKind::Hid), motion(0, 1), motion(2, 2)], 1012)];
    let dropped = capture_run(&mut clock, &batches, &mut q);
    assert_eq!(dropped, 1);
    assert_eq!(clock.last_time, 1012);
    assert_eq!(q.drain(), vec![ev(1, 0, 1003), ev(0, 1, 1009)]);
}

#[test]
fn capture_run_keeps_earliest_across_batches() {
    let mut clock = BatchClock::new(0);
    let mut q = EventQueue::new(3);
    let batches = vec![
        (vec![motion(1, 1), motion(2, 2)], 10),
        (vec![motion(3, 3), motion(4, 4)], 20),
    ];
    let dropped = capture_run(&mut clock, &batches, &mut q);
    assert_eq!(dropped, 1);
    assert_eq!(clock.last_time, 20);
    assert_eq!(q.drain(), vec![ev(1, 1, 5), ev(2, 2, 10), ev(3, 3, 15)]);
}

#[test]
fn capture_core_is_last_id() {
    assert_eq!(capture_core(&vec![0, 1, 2, 3]), Some(3));
    assert_eq!(capture_core(&vec![5]), Some(5));
    assert_eq!(capture_core(&Vec::new()), None);
}

#[test]
fn lifecycle_only_moves_forward() {
    let s = CaptureState::Idle;
    let s = s.advance(LifecycleEvent::Start).unwrap();
    assert_eq!(s, CaptureState::Running);
    assert_eq!(s.advance(LifecycleEvent::Start), None);
    let s = s.advance(LifecycleEvent::Shutdown).unwrap();
    assert_eq!(s, CaptureState::Stopping);
    let s = s.advance(LifecycleEvent::Joined).unwrap();
    assert_eq!(s, CaptureState::Stopped);
    assert_eq!(s.advance(LifecycleEvent::Start), None);
    assert_eq!(s.advance(LifecycleEvent::Shutdown), None);
    assert_eq!(CaptureState::Idle.advance(LifecycleEvent::Joined), None);
}
