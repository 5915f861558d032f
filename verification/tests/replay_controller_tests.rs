use chronos::recording::Event;
use chronos::viz::replay::{ReplayController, ReplayState};

fn sample_events() -> Vec<Event> {
    vec![
        Event::task_spawn(1, 0, "main".to_string(), 0),
        Event::task_yield(1, 100),
        Event::task_yield(1, 200),
        Event::task_complete(1, 300),
    ]
}

#[test]
fn new_controller() {
    let ctrl = ReplayController::new(sample_events());
    assert_eq!(ctrl.state(), ReplayState::Stopped);
    assert_eq!(ctrl.position(), 0);
    assert_eq!(ctrl.total_events(), 4);
}

#[test]
fn step_forward() {
    let mut ctrl = ReplayController::new(sample_events());

    let event = ctrl.step_forward().unwrap();
    assert_eq!(event.task_id, 1);
    assert_eq!(ctrl.position(), 1);
    assert_eq!(ctrl.state(), ReplayState::Paused);
}

#[test]
fn step_backward() {
    let mut ctrl = ReplayController::new(sample_events());
    ctrl.jump_to(2);

    let _event = ctrl.step_backward().unwrap();
    assert_eq!(ctrl.position(), 1);
}

#[test]
fn play_pause() {
    let mut ctrl = ReplayController::new(sample_events());

    ctrl.play();
    assert_eq!(ctrl.state(), ReplayState::Playing);

    ctrl.pause();
    assert_eq!(ctrl.state(), ReplayState::Paused);
}

#[test]
fn stop_resets() {
    let mut ctrl = ReplayController::new(sample_events());
    ctrl.jump_to(2);

    ctrl.stop();
    assert_eq!(ctrl.position(), 0);
    assert_eq!(ctrl.state(), ReplayState::Stopped);
}

#[test]
fn jump_to_position() {
    let mut ctrl = ReplayController::new(sample_events());

    ctrl.jump_to(2);
    assert_eq!(ctrl.position(), 2);
    assert_eq!(ctrl.state(), ReplayState::Paused);
}

#[test]
fn jump_to_time() {
    let mut ctrl = ReplayController::new(sample_events());

    ctrl.jump_to_time(150);
    assert_eq!(ctrl.position(), 2);
}

#[test]
fn jump_beyond_end() {
    let mut ctrl = ReplayController::new(sample_events());

    ctrl.jump_to(100);
    assert_eq!(ctrl.position(), 4);
    assert_eq!(ctrl.state(), ReplayState::Finished);
}

#[test]
fn bookmarks() {
    let mut ctrl = ReplayController::new(sample_events());

    ctrl.jump_to(1);
    ctrl.add_bookmark();
    ctrl.jump_to(3);
    ctrl.add_bookmark();

    assert_eq!(ctrl.bookmarks().len(), 2);
    assert_eq!(ctrl.bookmarks(), &[1, 3]);
}

#[test]
fn navigate_bookmarks() {
    let mut ctrl = ReplayController::new(sample_events());

    ctrl.add_bookmark();
    ctrl.jump_to(2);
    ctrl.add_bookmark();

    ctrl.jump_to(1);
    assert!(ctrl.jump_to_next_bookmark());
    assert_eq!(ctrl.position(), 2);

    assert!(ctrl.jump_to_prev_bookmark());
    assert_eq!(ctrl.position(), 0);
}

#[test]
fn remove_bookmark() {
    let mut ctrl = ReplayController::new(sample_events());

    ctrl.add_bookmark();
    assert_eq!(ctrl.bookmarks().len(), 1);

    ctrl.remove_bookmark();
    assert_eq!(ctrl.bookmarks().len(), 0);
}

#[test]
fn current_event() {
    let mut ctrl = ReplayController::new(sample_events());

    let event = ctrl.current_event().unwrap();
    assert_eq!(event.timestamp, 0);

    ctrl.step_forward();
    let event = ctrl.current_event().unwrap();
    assert_eq!(event.timestamp, 100);
}

#[test]
fn events_in_range() {
    let ctrl = ReplayController::new(sample_events());

    let events = ctrl.events_in_range(1, 3);
    assert_eq!(events.len(), 2);
}

#[test]
fn inverted_events_in_range_is_empty() {
    let ctrl = ReplayController::new(sample_events());

    assert!(ctrl.events_in_range(3, 1).is_empty());
    assert!(ctrl.events_in_range(10, 1).is_empty());
}

#[test]
fn is_at_boundaries() {
    let mut ctrl = ReplayController::new(sample_events());

    assert!(ctrl.is_at_start());
    assert!(!ctrl.is_at_end());

    ctrl.jump_to(4);
    assert!(!ctrl.is_at_start());
    assert!(ctrl.is_at_end());
}

#[test]
fn bookmarks_stay_ordered_and_distinct() {
    let mut ctrl = ReplayController::new(sample_events());
    ctrl.jump_to(3);
    ctrl.add_bookmark();
    ctrl.jump_to(1);
    ctrl.add_bookmark();
    ctrl.add_bookmark();
    ctrl.jump_to(2);
    ctrl.add_bookmark();
    assert_eq!(ctrl.bookmarks(), &[1, 2, 3]);
    ctrl.remove_bookmark();
    assert_eq!(ctrl.bookmarks(), &[1, 3]);
    ctrl.remove_bookmark();
    assert_eq!(ctrl.bookmarks(), &[1, 3]);
}

#[test]
fn steps_undo_each_other() {
    let mut ctrl = ReplayController::new(sample_events());
    ctrl.jump_to(1);
    let forward_ts = ctrl.step_forward().unwrap().timestamp;
    assert_eq!(forward_ts, 100);
    assert_eq!(ctrl.position(), 2);
    let back_ts = ctrl.step_backward().unwrap().timestamp;
    assert_eq!(back_ts, 100);
    assert_eq!(ctrl.position(), 1);
}

#[test]
fn stepping_past_the_end_finishes() {
    let mut ctrl = ReplayController::new(sample_events());
    ctrl.jump_to(3);
    assert_eq!(ctrl.step_forward().unwrap().timestamp, 300);
    assert_eq!(ctrl.state(), ReplayState::Finished);
    assert!(ctrl.step_forward().is_none());
    assert_eq!(ctrl.position(), 4);
    ctrl.play();
    assert_eq!(ctrl.state(), ReplayState::Finished);
    ctrl.stop();
    assert!(ctrl.step_backward().is_none());
    assert_eq!(ctrl.state(), ReplayState::Stopped);
}

#[test]
fn jump_to_first_failure_finds_fault() {
    let mut events = sample_events();
    events.insert(2, Event::fault_injected(0, 150, 1, 2));
    events.push(Event::fault_injected(0, 400, 3, 2));
    let mut ctrl = ReplayController::new(events);
    assert_eq!(ctrl.first_failure(), Some(2));
    assert!(ctrl.jump_to_first_failure());
    assert_eq!(ctrl.position(), 2);
    assert_eq!(ctrl.state(), ReplayState::Paused);

    let mut plain = ReplayController::new(sample_events());
    plain.jump_to(1);
    assert!(!plain.jump_to_first_failure());
    assert_eq!(plain.position(), 1);
}

#[test]
fn jump_to_time_past_last_event_goes_to_end() {
    let mut ctrl = ReplayController::new(sample_events());
    ctrl.jump_to_time(1000);
    assert_eq!(ctrl.position(), 4);
    assert_eq!(ctrl.state(), ReplayState::Finished);
    ctrl.jump_to_time(0);
    assert_eq!(ctrl.position(), 0);
    assert_eq!(ctrl.state(), ReplayState::Paused);
}

#[test]
fn no_bookmark_to_jump_to() {
    let mut ctrl = ReplayController::new(sample_events());
    ctrl.jump_to(2);
    ctrl.add_bookmark();
    assert!(!ctrl.jump_to_next_bookmark());
    assert!(!ctrl.jump_to_prev_bookmark());
    assert_eq!(ctrl.position(), 2);
    assert_eq!(ctrl.all_events().len(), 4);
    assert_eq!(ctrl.events_in_range(2, 10).len(), 2);
}
