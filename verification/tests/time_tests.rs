use chronos::time::{Clock, Instant, TimerWheel};
use std::sync::atomic::{AtomicBool, Ordering};
use std::sync::Arc;
use std::task::{Wake, Waker};
use std::time::Duration;

fn noop_waker() -> Waker {
    Waker::noop().clone()
}

struct TrackingWaker(Arc<AtomicBool>);

impl Wake for TrackingWaker {
    fn wake(self: Arc<Self>) {
        self.0.store(true, Ordering::SeqCst);
    }
}

fn tracking_waker(flag: Arc<AtomicBool>) -> Waker {
    Waker::from(Arc::new(TrackingWaker(flag)))
}

#[test]
fn test_instant_creation() {
    let i = Instant::from_nanos(1000);
    assert_eq!(i.as_nanos(), 1000);
}

#[test]
fn test_instant_default() {
    let i = Instant::default();
    assert_eq!(i.as_nanos(), 0);
}

#[test]
fn test_instant_ordering() {
    let a = Instant::from_nanos(100);
    let b = Instant::from_nanos(200);
    assert!(a < b);
    assert!(b > a);
    assert_eq!(a, Instant::from_nanos(100));
}

#[test]
fn test_duration_since() {
    let earlier = Instant::from_nanos(100);
    let later = Instant::from_nanos(300);
    assert_eq!(later.duration_since(earlier), Some(Duration::from_nanos(200)));
    assert_eq!(earlier.duration_since(later), None);
}

#[test]
fn test_checked_add() {
    let i = Instant::from_nanos(100);
    assert_eq!(i.checked_add(Duration::from_nanos(50)), Some(Instant::from_nanos(150)));
    assert_eq!(Instant::from_nanos(u64::MAX).checked_add(Duration::from_nanos(1)), None);
}

#[test]
fn test_checked_sub() {
    let i = Instant::from_nanos(100);
    assert_eq!(i.checked_sub(Duration::from_nanos(50)), Some(Instant::from_nanos(50)));
    assert_eq!(i.checked_sub(Duration::from_nanos(200)), None);
}

#[test]
fn test_add_duration() {
    let i = Instant::from_nanos(100);
    let result = i + Duration::from_nanos(50);
    assert_eq!(result.as_nanos(), 150);
}

#[test]
fn test_sub_duration() {
    let i = Instant::from_nanos(100);
    let result = i - Duration::from_nanos(50);
    assert_eq!(result.as_nanos(), 50);
}

#[test]
fn test_sub_instant() {
    let a = Instant::from_nanos(100);
    let b = Instant::from_nanos(300);
    assert_eq!(b - a, Duration::from_nanos(200));
}

#[test]
fn test_saturating_add() {
    let i = Instant::from_nanos(u64::MAX - 10);
    let result = i.saturating_add(Duration::from_nanos(100));
    assert_eq!(result.as_nanos(), u64::MAX);
}

#[test]
fn test_saturating_sub() {
    let i = Instant::from_nanos(10);
    let result = i.saturating_sub(Duration::from_nanos(100));
    assert_eq!(result.as_nanos(), 0);
}

#[test]
fn test_clock_starts_at_zero() {
    let clock = Clock::new();
    assert_eq!(clock.now().as_nanos(), 0);
}

#[test]
fn test_clock_starting_at() {
    let clock = Clock::starting_at(Instant::from_nanos(1000));
    assert_eq!(clock.now().as_nanos(), 1000);
}

#[test]
fn test_advance() {
    let mut clock = Clock::new();
    clock.advance(Duration::from_nanos(100));
    assert_eq!(clock.now().as_nanos(), 100);
}

#[test]
fn test_advance_accumulates() {
    let mut clock = Clock::new();
    clock.advance(Duration::from_nanos(100));
    clock.advance(Duration::from_nanos(50));
    clock.advance(Duration::from_nanos(25));
    assert_eq!(clock.now().as_nanos(), 175);
}

#[test]
fn test_advance_to() {
    let mut clock = Clock::new();
    clock.advance_to(Instant::from_nanos(500));
    assert_eq!(clock.now().as_nanos(), 500);
}

#[test]
fn test_set() {
    let mut clock = Clock::starting_at(Instant::from_nanos(100));
    clock.set(Instant::from_nanos(50));
    assert_eq!(clock.now().as_nanos(), 50);
}

#[test]
fn test_elapsed() {
    let mut clock = Clock::new();
    clock.advance(Duration::from_millis(100));
    assert_eq!(clock.elapsed(), Duration::from_millis(100));
}

#[test]
fn test_clone() {
    let mut clock = Clock::new();
    clock.advance(Duration::from_nanos(100));
    let cloned = clock.clone();
    assert_eq!(cloned.now().as_nanos(), 100);

    // Advancing original doesn't affect clone
    clock.advance(Duration::from_nanos(50));
    assert_eq!(clock.now().as_nanos(), 150);
    assert_eq!(cloned.now().as_nanos(), 100);
}

#[test]
fn clock_test_default() {
    let clock = Clock::default();
    assert_eq!(clock.now().as_nanos(), 0);
}

#[test]
fn test_new_timer_wheel() {
    let wheel = TimerWheel::new();
    assert!(wheel.is_empty());
    assert_eq!(wheel.len(), 0);
    assert_eq!(wheel.next_deadline(), None);
}

#[test]
fn test_schedule_returns_unique_ids() {
    let mut wheel = TimerWheel::new();
    let id1 = wheel.schedule(Instant::from_nanos(100), noop_waker());
    let id2 = wheel.schedule(Instant::from_nanos(200), noop_waker());
    let id3 = wheel.schedule(Instant::from_nanos(100), noop_waker());

    assert_ne!(id1, id2);
    assert_ne!(id2, id3);
    assert_ne!(id1, id3);
}

#[test]
fn test_next_deadline() {
    let mut wheel = TimerWheel::new();

    wheel.schedule(Instant::from_nanos(300), noop_waker());
    assert_eq!(wheel.next_deadline(), Some(Instant::from_nanos(300)));

    wheel.schedule(Instant::from_nanos(100), noop_waker());
    assert_eq!(wheel.next_deadline(), Some(Instant::from_nanos(100)));

    wheel.schedule(Instant::from_nanos(200), noop_waker());
    assert_eq!(wheel.next_deadline(), Some(Instant::from_nanos(100)));
}

#[test]
fn test_fire_expired_returns_wakers() {
    let mut wheel = TimerWheel::new();

    let flag1 = Arc::new(AtomicBool::new(false));
    let flag2 = Arc::new(AtomicBool::new(false));

    wheel.schedule(Instant::from_nanos(100), tracking_waker(flag1.clone()));
    wheel.schedule(Instant::from_nanos(200), tracking_waker(flag2.clone()));

    let wakers = wheel.fire_expired(Instant::from_nanos(150));
    assert_eq!(wakers.len(), 1);

    for w in wakers {
        w.wake();
    }
    assert!(flag1.load(Ordering::SeqCst));
    assert!(!flag2.load(Ordering::SeqCst));
}

#[test]
fn test_fire_expired_removes_entries() {
    let mut wheel = TimerWheel::new();

    wheel.schedule(Instant::from_nanos(100), noop_waker());
    wheel.schedule(Instant::from_nanos(200), noop_waker());
    assert_eq!(wheel.len(), 2);

    wheel.fire_expired(Instant::from_nanos(100));
    assert_eq!(wheel.len(), 1);

    wheel.fire_expired(Instant::from_nanos(200));
    assert_eq!(wheel.len(), 0);
    assert!(wheel.is_empty());
}

#[test]
fn test_fire_expired_multiple_same_deadline() {
    let mut wheel = TimerWheel::new();

    wheel.schedule(Instant::from_nanos(100), noop_waker());
    wheel.schedule(Instant::from_nanos(100), noop_waker());
    wheel.schedule(Instant::from_nanos(100), noop_waker());

    let wakers = wheel.fire_expired(Instant::from_nanos(100));
    assert_eq!(wakers.len(), 3);
    assert!(wheel.is_empty());
}

#[test]
fn test_cancel() {
    let mut wheel = TimerWheel::new();

    let id1 = wheel.schedule(Instant::from_nanos(100), noop_waker());
    let id2 = wheel.schedule(Instant::from_nanos(200), noop_waker());

    assert!(wheel.cancel(id1));
    assert_eq!(wheel.len(), 1);
    assert_eq!(wheel.next_deadline(), Some(Instant::from_nanos(200)));

    // Cancel again should return false
    assert!(!wheel.cancel(id1));

    // Cancel id2
    assert!(wheel.cancel(id2));
    assert!(wheel.is_empty());
}

#[test]
fn test_cancel_after_fire() {
    let mut wheel = TimerWheel::new();

    let id = wheel.schedule(Instant::from_nanos(100), noop_waker());
    wheel.fire_expired(Instant::from_nanos(100));

    // Timer already fired, cancel should return false
    assert!(!wheel.cancel(id));
}

#[test]
fn test_cancel_nonexistent() {
    let mut wheel = TimerWheel::new();
    assert!(!wheel.cancel(999));
}

#[test]
fn timer_fires_in_deadline_then_schedule_order() {
    let mut wheel = TimerWheel::new();
    let a = Arc::new(AtomicBool::new(false));
    let b = Arc::new(AtomicBool::new(false));
    wheel.schedule(Instant::from_nanos(300), noop_waker());
    wheel.schedule(Instant::from_nanos(100), tracking_waker(a.clone()));
    wheel.schedule(Instant::from_nanos(100), tracking_waker(b.clone()));
    let wakers = wheel.fire_expired(Instant::from_nanos(299));
    assert_eq!(wakers.len(), 2);
    assert_eq!(wheel.next_deadline(), Some(Instant::from_nanos(300)));
    let mut it = wakers.into_iter();
    it.next().unwrap().wake();
    assert!(a.load(Ordering::SeqCst));
    assert!(!b.load(Ordering::SeqCst));
}

#[test]
fn clock_advance_wraps_like_an_atomic_add() {
    let mut clock = Clock::starting_at(Instant::from_nanos(u64::MAX));
    clock.advance(Duration::from_nanos(2));
    assert_eq!(clock.now().as_nanos(), 1);
}

#[test]
fn instant_checks_whole_duration_length() {
    let long = std::time::Duration::from_secs(18_446_744_074);
    assert_eq!(chronos::time::Instant::from_nanos(0).checked_add(long), None);
    assert_eq!(chronos::time::Instant::from_nanos(0).saturating_add(long).as_nanos(), u64::MAX);
    assert_eq!(chronos::time::Instant::from_nanos(5).checked_sub(long), None);
    assert_eq!(chronos::time::Instant::from_nanos(5).saturating_sub(long).as_nanos(), 0);
    assert_eq!(
        chronos::time::Instant::from_nanos(100).checked_add(std::time::Duration::from_nanos(50)),
        Some(chronos::time::Instant::from_nanos(150))
    );
    assert_eq!(chronos::time::Instant::from_nanos(u64::MAX).checked_add(std::time::Duration::from_nanos(1)), None);
}

#[test]
fn cancelled_timer_never_fires_and_ids_stay_fresh() {
    let mut wheel = TimerWheel::new();
    let a = wheel.schedule(Instant::from_nanos(100), noop_waker());
    let b = wheel.schedule(Instant::from_nanos(100), noop_waker());
    assert!(wheel.cancel(a));
    let fired = wheel.fire_expired(Instant::from_nanos(1_000));
    assert_eq!(fired.len(), 1);
    assert!(!wheel.cancel(b));
    let c = wheel.schedule(Instant::from_nanos(50), noop_waker());
    assert!(c != a && c != b);
    assert_eq!(wheel.len(), 1);
}
