use eremit::clock::{Clock, ClockError, PlayState, DEFAULT_QUANTUM, DEFAULT_TEMPO_MBPM};
use eremit::streams::{BaseEventType, Event, Stream, TriggerKind};

fn fresh_clock() -> Clock {
    Clock::new(DEFAULT_TEMPO_MBPM, DEFAULT_QUANTUM)
}

#[test]
fn new_clock_is_stopped_at_beat_zero() {
    let c = fresh_clock();
    assert_eq!(c.get_tempo(), 120_000);
    assert_eq!(c.beats(), 0);
    assert_eq!(c.get_phase(), 0);
    assert_eq!(c.peers(), 0);
    assert_eq!(c.subscribers(), 0);
    assert_eq!(c.state, PlayState::Stopped);
}

#[test]
fn set_tempo_round_trips_positive_values() {
    let mut c = fresh_clock();
    assert_eq!(c.set_tempo(140_000), Ok(()));
    assert_eq!(c.get_tempo(), 140_000);
    assert_eq!(c.set_tempo(1), Ok(()));
    assert_eq!(c.get_tempo(), 1);
    assert_eq!(c.set_tempo(33_333), Ok(()));
    assert_eq!(c.get_tempo(), 33_333);
}

#[test]
fn set_tempo_rejects_non_positive_values() {
    let mut c = fresh_clock();
    assert_eq!(c.set_tempo(0), Err(ClockError::NonPositiveTempo));
    assert_eq!(c.get_tempo(), 120_000);
    assert_eq!(c.set_tempo(-42), Err(ClockError::NonPositiveTempo));
    assert_eq!(c.get_tempo(), 120_000);
}

#[test]
fn stopped_clock_does_not_advance() {
    let mut c = fresh_clock();
    c.advance(1_000_000);
    c.advance(60_000_000);
    assert_eq!(c.beats(), 0);
    assert_eq!(c.get_phase(), 0);
}

#[test]
fn playing_clock_advances_proportionally_to_tempo() {
    // 120 BPM is two beats per second: one second of wall clock is
    // exactly two million microbeats.
    let mut c = fresh_clock();
    c.play();
    c.advance(1_000_000);
    assert_eq!(c.beats(), 2_000_000);
    assert_eq!(c.get_phase(), 2_000_000);
    c.advance(500_000);
    assert_eq!(c.beats(), 3_000_000);
    assert_eq!(c.get_phase(), 3_000_000);
    c.advance(500_000);
    assert_eq!(c.beats(), 4_000_000);
    assert_eq!(c.get_phase(), 0);
}

#[test]
fn advance_carries_the_sub_microbeat_remainder() {
    // At 90 BPM one microsecond is one and a half microbeats: the half
    // is carried, never dropped.
    let mut c = Clock::new(90_000, DEFAULT_QUANTUM);
    c.play();
    c.advance(1);
    assert_eq!(c.beats(), 1);
    c.advance(1);
    assert_eq!(c.beats(), 3);
    c.advance(1);
    assert_eq!(c.beats(), 4);
    c.advance(1);
    assert_eq!(c.beats(), 6);
}

#[test]
fn phase_stays_inside_the_quantum() {
    let mut c = fresh_clock();
    c.play();
    for _ in 0..25 {
        c.advance(700_000);
        assert!(c.get_phase() < DEFAULT_QUANTUM);
        assert_eq!(c.get_phase(), c.beats() % DEFAULT_QUANTUM);
    }
}

#[test]
fn sync_moves_forward_to_the_fabric_phase() {
    let mut c = fresh_clock();
    c.play();
    c.advance(1_500_000);
    assert_eq!(c.beats(), 3_000_000);
    assert_eq!(c.get_phase(), 3_000_000);
    c.sync(1_000_000);
    assert_eq!(c.get_phase(), 1_000_000);
    assert_eq!(c.beats(), 5_000_000);
    // Re-anchoring to a phase ahead of the current one moves by the
    // difference alone.
    c.sync(1_250_000);
    assert_eq!(c.get_phase(), 1_250_000);
    assert_eq!(c.beats(), 5_250_000);
    // Syncing to the phase already held moves nothing.
    c.sync(1_250_000);
    assert_eq!(c.beats(), 5_250_000);
}

#[test]
fn peer_reports_are_read_back_and_touch_nothing_else() {
    let mut c = fresh_clock();
    c.play();
    c.advance(1_000_000);
    let beat_before = c.beats();
    c.set_peers(3);
    assert_eq!(c.peers(), 3);
    assert_eq!(c.beats(), beat_before);
    assert_eq!(c.get_tempo(), 120_000);
    c.set_peers(0);
    assert_eq!(c.peers(), 0);
    assert_eq!(c.beats(), beat_before);
}

#[test]
fn subscribers_counts_each_registration() {
    let mut c = fresh_clock();
    assert_eq!(c.subscribers(), 0);
    c.add_subscriber(Stream::new("a".to_string()));
    assert_eq!(c.subscribers(), 1);
    c.add_subscriber(Stream::new("b".to_string()));
    c.add_subscriber(Stream::new("c".to_string()));
    assert_eq!(c.subscribers(), 3);
}

#[test]
fn tick_fans_out_in_subscription_order() {
    let mut c = fresh_clock();
    let mut first = Stream::new("first".to_string());
    first.add_event(Event::new(0, 0, BaseEventType::Tick, Vec::new()));
    let mut second = Stream::new("second".to_string());
    second.add_event(Event::new(0, 0, BaseEventType::NoteOn, Vec::new()));
    c.add_subscriber(first);
    c.add_subscriber(second);
    let triggers = c.tick_subscribers();
    assert_eq!(triggers.len(), 4);
    assert_eq!(triggers[0].kind, TriggerKind::Start);
    assert_eq!(triggers[0].event_type, BaseEventType::Tick);
    assert_eq!(triggers[1].kind, TriggerKind::End);
    assert_eq!(triggers[1].event_type, BaseEventType::Tick);
    assert_eq!(triggers[2].kind, TriggerKind::Start);
    assert_eq!(triggers[2].event_type, BaseEventType::NoteOn);
    assert_eq!(triggers[3].kind, TriggerKind::End);
    assert_eq!(triggers[3].event_type, BaseEventType::NoteOn);
}

#[test]
fn report_snapshots_the_whole_state() {
    let mut c = fresh_clock();
    c.play();
    c.advance(1_000_000);
    c.set_peers(2);
    c.add_subscriber(Stream::new("s".to_string()));
    let snap = c.report();
    assert_eq!(snap.tempo_mbpm, 120_000);
    assert_eq!(snap.beat, 2_000_000);
    assert_eq!(snap.phase, 2_000_000);
    assert_eq!(snap.quantum, DEFAULT_QUANTUM);
    assert_eq!(snap.state, PlayState::Playing);
    assert_eq!(snap.peers, 2);
    assert_eq!(snap.subscriber_count, 1);
}

#[test]
fn extreme_tempo_values_round_trip_and_advance() {
    let mut c = Clock::new(1, DEFAULT_QUANTUM);
    c.play();
    // A thousandth of a BPM is a thousand microbeats per minute: one
    // full minute of microseconds gains exactly a thousand.
    c.advance(59_999_999);
    assert_eq!(c.beats(), 999);
    c.advance(1);
    assert_eq!(c.beats(), 1_000);
    assert_eq!(c.set_tempo(i64::MAX), Ok(()));
    assert_eq!(c.get_tempo(), i64::MAX as u64);
}
