use chronos::runtime::BlockReason;
use chronos::scheduler::{
    ContextBoundStrategy, DFSStrategy, FifoStrategy, PCTStrategy, RandomStrategy, ScheduleStrategy, Scheduler, Strategy,
};
use chronos::time::Instant;

#[test]
fn test_new_scheduler() {
    let s = Scheduler::fifo();
    assert_eq!(s.ready_count(), 0);
    assert_eq!(s.blocked_count(), 0);
    assert_eq!(s.task_count(), 0);
}

#[test]
fn test_add_task() {
    let mut s = Scheduler::fifo();
    let id1 = s.add_task();
    let id2 = s.add_task();
    let id3 = s.add_task();

    assert_eq!(id1, 0);
    assert_eq!(id2, 1);
    assert_eq!(id3, 2);
    assert_eq!(s.task_count(), 3);
    assert_eq!(s.ready_count(), 3);
}

#[test]
fn test_next_fifo() {
    let mut s = Scheduler::fifo();
    s.add_task();
    s.add_task();
    s.add_task();

    assert_eq!(s.select_next(), Some(0));
    assert_eq!(s.select_next(), Some(1));
    assert_eq!(s.select_next(), Some(2));
    assert_eq!(s.select_next(), None);
}

#[test]
fn test_mark_ready() {
    let mut s = Scheduler::fifo();
    let id = s.add_task();
    s.select_next();

    assert!(!s.has_ready());
    s.mark_ready(id);
    assert!(s.has_ready());
    assert_eq!(s.select_next(), Some(id));
}

#[test]
fn test_mark_blocked() {
    let mut s = Scheduler::fifo();
    let id = s.add_task();

    s.mark_blocked(id, BlockReason::Channel);
    assert!(!s.has_ready());
    assert_eq!(s.blocked_count(), 1);
    assert!(matches!(s.block_reason(id), Some(BlockReason::Channel)));
}

#[test]
fn test_mark_blocked_then_ready() {
    let mut s = Scheduler::fifo();
    let id = s.add_task();

    s.mark_blocked(id, BlockReason::Time(Instant::from_nanos(100)));
    assert_eq!(s.ready_count(), 0);
    assert_eq!(s.blocked_count(), 1);

    s.mark_ready(id);
    assert_eq!(s.ready_count(), 1);
    assert_eq!(s.blocked_count(), 0);
}

#[test]
fn test_remove_task() {
    let mut s = Scheduler::fifo();
    let id = s.add_task();
    s.add_task();

    s.remove_task(id);
    assert_eq!(s.task_count(), 1);
    assert_eq!(s.ready_count(), 1);
}

#[test]
fn test_all_blocked() {
    let mut s = Scheduler::fifo();
    let id = s.add_task();

    assert!(!s.all_blocked());

    s.mark_blocked(id, BlockReason::Channel);
    assert!(s.all_blocked());

    s.mark_ready(id);
    assert!(!s.all_blocked());
}

#[test]
fn core_test_reset() {
    let mut s = Scheduler::fifo();
    s.add_task();
    s.add_task();
    s.mark_blocked(0, BlockReason::Channel);

    s.reset();
    assert_eq!(s.task_count(), 0);
    assert_eq!(s.ready_count(), 0);
    assert_eq!(s.blocked_count(), 0);
}

#[test]
fn test_no_double_ready() {
    let mut s = Scheduler::fifo();
    let id = s.add_task();

    s.mark_ready(id);
    s.mark_ready(id);

    assert_eq!(s.ready_count(), 1);
}

#[test]
fn test_strategy_default() {
    let s = Strategy::default();
    assert!(matches!(s, Strategy::Fifo));
}

#[test]
fn test_fifo_strategy_select() {
    let mut s = FifoStrategy::new();
    assert_eq!(s.select(&[1, 2, 3]), 1);
    assert_eq!(s.select(&[5, 4, 3]), 5);
}

#[test]
fn test_fifo_strategy_callbacks() {
    let mut s = FifoStrategy::new();
    s.on_yield(1);
    s.on_decision(1, &[1, 2]);
    s.reset();
}

#[test]
fn test_dfs_new() {
    let dfs = DFSStrategy::new(100);
    assert_eq!(dfs.max_depth(), 100);
    assert_eq!(dfs.schedules_explored(), 0);
    assert!(!dfs.is_exhausted());
}

#[test]
fn test_dfs_single_task() {
    let mut dfs = DFSStrategy::new(10);
    let chosen = dfs.select(&[1]);
    assert_eq!(chosen, 1);
}

#[test]
fn test_dfs_explores_first() {
    let mut dfs = DFSStrategy::new(10);
    let chosen = dfs.select(&[1, 2, 3]);
    assert_eq!(chosen, 1);
}

#[test]
fn test_dfs_backtrack() {
    let mut dfs = DFSStrategy::new(10);

    assert_eq!(dfs.select(&[1, 2]), 1);
    dfs.schedule_complete();

    dfs.reset();
    assert_eq!(dfs.select(&[1, 2]), 2);
}

#[test]
fn test_dfs_exhaustion() {
    let mut dfs = DFSStrategy::new(2);

    for _ in 0..10 {
        if dfs.is_exhausted() {
            break;
        }
        dfs.select(&[1, 2]);
        dfs.select(&[1, 2]);
        dfs.schedule_complete();
        dfs.reset();
    }

    assert!(dfs.schedules_explored() > 0);
}

#[test]
fn test_dfs_max_depth_limit() {
    let mut dfs = DFSStrategy::new(2);

    dfs.select(&[1, 2]);
    dfs.select(&[1, 2]);
    dfs.select(&[1, 2]);
}

#[test]
fn test_dfs_deterministic_replay() {
    let mut dfs1 = DFSStrategy::new(10);
    let mut dfs2 = DFSStrategy::new(10);

    assert_eq!(dfs1.select(&[1, 2, 3]), dfs2.select(&[1, 2, 3]));
    assert_eq!(dfs1.select(&[4, 5]), dfs2.select(&[4, 5]));
}

#[test]
fn dfs_explores_all_four_schedules_then_stops() {
    let mut dfs = DFSStrategy::new(2);
    let mut seen = Vec::new();
    while !dfs.is_exhausted() && seen.len() < 10 {
        let a = dfs.select(&[1, 2]);
        let b = dfs.select(&[1, 2]);
        seen.push((a, b));
        dfs.schedule_complete();
        dfs.reset();
    }
    assert_eq!(seen, vec![(1, 1), (1, 2), (2, 1), (2, 2)]);
    assert_eq!(dfs.schedules_explored(), 4);
}

#[test]
fn random_strategy_replays_after_reset() {
    let ready = [3, 5, 8, 13];
    let mut s = RandomStrategy::new(99);
    let first: Vec<u32> = (0..8).map(|_| s.select(&ready)).collect();
    s.reset();
    let again: Vec<u32> = (0..8).map(|_| s.select(&ready)).collect();
    assert_eq!(first, again);
    assert!(first.iter().all(|t| ready.contains(t)));
    assert_eq!(s.seed(), 99);
}

#[test]
fn same_seed_same_choices_across_strategies() {
    let ready = [1, 2, 3];
    let mut a = PCTStrategy::new(7, 3);
    let mut b = PCTStrategy::new(7, 3);
    let mut c = ContextBoundStrategy::new(2, 7);
    let mut d = ContextBoundStrategy::new(2, 7);
    for _ in 0..20 {
        let x = a.select(&ready);
        assert_eq!(x, b.select(&ready));
        assert!(ready.contains(&x));
        let y = c.select(&ready);
        assert_eq!(y, d.select(&ready));
        assert!(ready.contains(&y));
    }
    assert_eq!(a.bug_depth(), 3);
    assert_eq!(c.max_preemptions(), 2);
    assert!(c.preemption_count() <= 2);
}

#[test]
fn scheduler_from_strategy_uses_it() {
    let mut s = Scheduler::new(Strategy::Random { seed: 5 });
    for _ in 0..4 {
        s.add_task();
    }
    let mut picked = Vec::new();
    while let Some(t) = s.select_next() {
        picked.push(t);
    }
    picked.sort();
    assert_eq!(picked, vec![0, 1, 2, 3]);
}

#[test]
fn blocked_task_is_not_selected() {
    let mut s = Scheduler::fifo();
    let a = s.add_task();
    let b = s.add_task();
    s.mark_blocked(a, BlockReason::Lock);
    assert_eq!(s.select_next(), Some(b));
    assert_eq!(s.select_next(), None);
    assert!(s.block_reason(b).is_none());
    assert!(matches!(s.block_reason(a), Some(BlockReason::Lock)));
}
