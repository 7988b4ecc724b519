use elfo::addr::Addr;
use elfo::envelope::MessageKind;
use elfo::source::{Source, SourcePoll};
use elfo::time::interval::Interval;
use elfo::time::timer::Timer;

#[test]
fn new_timer_is_stopped() {
    let mut timer = Timer::new(|| "tick");
    assert!(!timer.is_armed());
    assert!(matches!(timer.poll_recv(0), SourcePoll::Pending));
    assert!(matches!(timer.poll_recv(u64::MAX), SourcePoll::Pending));
}

#[test]
fn timer_fires_once_per_arm() {
    let mut timer = Timer::new(|| "tick");
    timer.reset(100);
    assert!(timer.is_armed());
    assert_eq!(timer.deadline(), 100);
    assert!(matches!(timer.poll_recv(99), SourcePoll::Pending));
    match timer.poll_recv(100) {
        SourcePoll::Ready(envelope) => {
            assert_eq!(envelope.message, "tick");
            assert_eq!(envelope.kind, MessageKind::Regular { sender: Addr::null() });
            assert_eq!(envelope.created_at, 100);
        },
        other => panic!("expected a tick, got {:?}", other),
    }
    assert!(!timer.is_armed());
    assert!(matches!(timer.poll_recv(101), SourcePoll::Pending));
    assert!(matches!(timer.poll_recv(1000), SourcePoll::Pending));
}

#[test]
fn timer_can_be_armed_again() {
    let mut timer = Timer::new(|| 1u8);
    timer.sleep(10, 5);
    assert_eq!(timer.deadline(), 15);
    assert!(matches!(timer.poll_recv(15), SourcePoll::Ready(_)));
    timer.sleep(15, 5);
    assert!(matches!(timer.poll_recv(19), SourcePoll::Pending));
    assert!(matches!(timer.poll_recv(20), SourcePoll::Ready(_)));
}

#[test]
fn rearming_moves_the_deadline() {
    let mut timer = Timer::new(|| 1u8);
    timer.reset(10);
    timer.reset(50);
    assert!(matches!(timer.poll_recv(10), SourcePoll::Pending));
    assert!(matches!(timer.poll_recv(50), SourcePoll::Ready(_)));
}

#[test]
fn sleep_beyond_the_end_of_time_saturates() {
    let mut timer = Timer::new(|| 1u8);
    timer.sleep(u64::MAX - 1, 10);
    assert_eq!(timer.deadline(), u64::MAX);
    assert!(matches!(timer.poll_recv(u64::MAX - 1), SourcePoll::Pending));
    assert!(matches!(timer.poll_recv(u64::MAX), SourcePoll::Ready(_)));
}

#[test]
fn new_interval_is_stopped() {
    let mut interval = Interval::new(|| "tick");
    assert_eq!(interval.period(), 0);
    assert_eq!(interval.deadline(), None);
    assert!(matches!(interval.poll_recv(1_000_000), SourcePoll::Pending));
}

#[test]
fn interval_cadence() {
    let mut interval = Interval::new(|| "tick");
    interval.set_period(1000, 100);
    assert_eq!(interval.deadline(), Some(1100));
    let mut ticks = Vec::new();
    let mut now = 1000;
    while ticks.len() < 5 {
        if let SourcePoll::Ready(envelope) = interval.poll_recv(now) {
            assert_eq!(envelope.message, "tick");
            assert_eq!(envelope.kind, MessageKind::Regular { sender: Addr::null() });
            ticks.push(now);
        }
        now += 7;
    }
    assert_eq!(ticks, vec![1105, 1203, 1301, 1406, 1504]);
    for (k, tick) in ticks.iter().enumerate() {
        assert!(*tick >= 1000 + 100 * (k as u64 + 1));
    }
    for pair in ticks.windows(2) {
        assert!(pair[1] > pair[0]);
    }
}

#[test]
fn steady_consumer_sees_gaps_of_one_period() {
    let mut interval = Interval::new(|| ());
    interval.set_period(0, 100);
    let mut ticks = Vec::new();
    for now in 0..=500u64 {
        if let SourcePoll::Ready(_) = interval.poll_recv(now) {
            ticks.push(now);
        }
    }
    assert_eq!(ticks, vec![100, 200, 300, 400, 500]);
}

#[test]
fn missed_ticks_are_folded_into_one() {
    let mut interval = Interval::new(|| ());
    interval.set_period(0, 100);
    assert!(matches!(interval.poll_recv(1050), SourcePoll::Ready(_)));
    assert_eq!(interval.deadline(), Some(1100));
    assert!(matches!(interval.poll_recv(1050), SourcePoll::Pending));
    assert!(matches!(interval.poll_recv(1099), SourcePoll::Pending));
    assert!(matches!(interval.poll_recv(1100), SourcePoll::Ready(_)));
    assert_eq!(interval.deadline(), Some(1200));
}

#[test]
fn setting_the_same_period_keeps_the_grid() {
    let mut interval = Interval::new(|| ());
    interval.set_period(0, 100);
    interval.set_period(60, 100);
    assert_eq!(interval.deadline(), Some(100));
    interval.set_period(60, 50);
    assert_eq!(interval.deadline(), Some(110));
}

#[test]
fn period_zero_stops_the_interval() {
    let mut interval = Interval::new(|| ());
    interval.set_period(0, 100);
    interval.set_period(10, 0);
    assert_eq!(interval.deadline(), None);
    assert!(matches!(interval.poll_recv(10_000), SourcePoll::Pending));
}

#[test]
fn interval_stops_at_the_end_of_time() {
    let mut interval = Interval::new(|| ());
    interval.set_period(u64::MAX - 150, 100);
    assert_eq!(interval.deadline(), Some(u64::MAX - 50));
    assert!(matches!(interval.poll_recv(u64::MAX - 50), SourcePoll::Ready(_)));
    assert_eq!(interval.deadline(), None);
    assert!(matches!(interval.poll_recv(u64::MAX), SourcePoll::Pending));
    let mut late = Interval::new(|| ());
    late.set_period(u64::MAX - 10, 100);
    assert_eq!(late.deadline(), None);
}
