use zellij_server::pinned_executor::PinnedExecutor;

fn idle() -> Vec<bool> {
    Vec::new()
}

#[test]
fn test_new_creates_one_thread() {
    let executor = PinnedExecutor::new(4);
    assert_eq!(executor.thread_count(), 1);
}

#[test]
fn test_new_respects_min_threads() {
    let executor = PinnedExecutor::new(0);
    assert_eq!(
        executor.thread_count(),
        1,
        "Executor should enforce minimum of 1 thread"
    );
}

#[test]
fn test_first_plugin_assigned_to_thread_zero() {
    let mut executor = PinnedExecutor::new(4);
    let thread_idx = executor.register_plugin(1, &idle());
    assert_eq!(thread_idx, 0);
}

#[test]
fn test_multiple_plugins_share_thread_when_idle() {
    let mut executor = PinnedExecutor::new(4);
    let thread_idx1 = executor.register_plugin(1, &idle());
    let thread_idx2 = executor.register_plugin(2, &idle());
    assert_eq!(thread_idx1, 0);
    assert_eq!(
        thread_idx2, 0,
        "Second plugin should share thread 0 when idle"
    );
}

#[test]
fn test_new_thread_spawns_when_all_busy() {
    let mut executor = PinnedExecutor::new(3);
    let thread_idx1 = executor.register_plugin(1, &idle());
    assert_eq!(thread_idx1, 0);
    // thread 0 runs a job of plugin 1
    let thread_idx2 = executor.register_plugin(2, &vec![true]);
    assert_eq!(
        thread_idx2, 1,
        "Plugin 2 should get new thread 1 when thread 0 is busy"
    );
    assert_eq!(executor.thread_count(), 2);
}

#[test]
fn test_respects_max_threads_limit() {
    let mut executor = PinnedExecutor::new(2);
    executor.register_plugin(1, &idle());
    executor.register_plugin(2, &vec![true]);
    let thread_idx3 = executor.register_plugin(3, &vec![true, true]);
    assert!(
        thread_idx3 == 0 || thread_idx3 == 1,
        "Plugin 3 should be assigned to existing thread"
    );
    assert_eq!(executor.thread_count(), 2, "Should not exceed max_threads");
}

#[test]
fn test_duplicate_registration_returns_same_thread() {
    let mut executor = PinnedExecutor::new(4);
    let thread_idx1 = executor.register_plugin(1, &idle());
    let thread_idx2 = executor.register_plugin(1, &idle());
    assert_eq!(
        thread_idx1, thread_idx2,
        "Duplicate registration should return same thread"
    );
}

#[test]
fn test_load_balancing_prefers_least_loaded() {
    let mut executor = PinnedExecutor::new(3);
    executor.register_plugin(1, &idle());
    executor.register_plugin(2, &idle());
    executor.register_plugin(3, &idle());
    let thread_idx4 = executor.register_plugin(4, &vec![true]);
    assert_eq!(thread_idx4, 1);
    // both threads idle: thread 0 has 3 plugins, thread 1 has 1
    let thread_idx5 = executor.register_plugin(5, &idle());
    assert_eq!(
        thread_idx5, 1,
        "Plugin 5 should be assigned to less loaded thread 1"
    );
}

#[test]
fn test_execute_for_plugin_unregistered() {
    let executor = PinnedExecutor::new(4);
    assert_eq!(executor.thread_for_plugin(999), None);
}

#[test]
fn test_shrink_removes_idle_threads() {
    let mut executor = PinnedExecutor::new(4);
    executor.register_plugin(1, &idle());
    executor.register_plugin(2, &vec![true]);
    let thread_count_before = executor.thread_count();
    assert!(thread_count_before >= 2, "Should have at least 2 threads");
    let stopped = executor.unregister_plugin(2);
    assert_eq!(stopped, vec![1]);
    let thread_count_after = executor.thread_count();
    assert!(
        thread_count_after < thread_count_before,
        "Idle threads should be removed"
    );
    assert!(thread_count_after >= 1, "Thread 0 should remain");
}

#[test]
fn test_thread_zero_never_removed() {
    let mut executor = PinnedExecutor::new(4);
    executor.register_plugin(1, &idle());
    let stopped = executor.unregister_plugin(1);
    assert!(stopped.is_empty());
    assert!(
        executor.thread_count() >= 1,
        "Thread 0 should never be removed"
    );
}

#[test]
fn test_active_threads_not_removed() {
    let mut executor = PinnedExecutor::new(4);
    executor.register_plugin(1, &idle());
    executor.register_plugin(2, &vec![true]);
    let thread_count_with_both = executor.thread_count();
    assert!(thread_count_with_both >= 2);
    executor.unregister_plugin(2);
    assert_eq!(executor.thread_for_plugin(1), Some(0));
    let thread_count_after = executor.thread_count();
    assert!(thread_count_after < thread_count_with_both);
    assert!(thread_count_after >= 1);
}

#[test]
fn test_unregister_nonexistent_plugin() {
    let mut executor = PinnedExecutor::new(4);
    let stopped = executor.unregister_plugin(999);
    assert!(stopped.is_empty());
    let thread_idx = executor.register_plugin(1, &idle());
    assert_eq!(executor.thread_for_plugin(1), Some(thread_idx));
}

#[test]
fn test_max_threads_one() {
    let mut executor = PinnedExecutor::new(1);
    let thread_idx1 = executor.register_plugin(1, &idle());
    let thread_idx2 = executor.register_plugin(2, &idle());
    let thread_idx3 = executor.register_plugin(3, &idle());
    assert_eq!(thread_idx1, 0);
    assert_eq!(thread_idx2, 0);
    assert_eq!(thread_idx3, 0);
    assert_eq!(executor.thread_count(), 1);
}

#[test]
fn test_rapid_load_unload_cycles() {
    let mut executor = PinnedExecutor::new(4);
    executor.register_plugin(1, &idle());
    executor.unregister_plugin(1);
    assert_eq!(executor.thread_for_plugin(1), None);
    let thread_idx = executor.register_plugin(1, &idle());
    assert_eq!(executor.thread_for_plugin(1), Some(thread_idx));
}

#[test]
fn test_many_plugins_limited_threads() {
    let mut executor = PinnedExecutor::new(4);
    let mut busy = Vec::new();
    for i in 1..=20 {
        let idx = executor.register_plugin(i, &busy);
        // the thread a plugin just loaded on stays busy for a while
        if busy.len() <= idx {
            busy.resize(idx + 1, false);
        }
        busy[idx] = true;
    }
    assert!(
        executor.thread_count() <= 4,
        "Should not exceed max_threads"
    );
    assert_eq!(executor.thread_count(), 4);
}

#[test]
fn test_realistic_plugin_churn() {
    let mut executor = PinnedExecutor::new(4);
    for i in 1..=3 {
        executor.register_plugin(i, &idle());
    }
    executor.unregister_plugin(2);
    for i in 4..=5 {
        executor.register_plugin(i, &idle());
    }
    for i in [1, 3, 4, 5] {
        assert!(executor.thread_for_plugin(i).is_some());
    }
    executor.unregister_plugin(1);
    executor.unregister_plugin(3);
    assert!(
        executor.thread_count() >= 1,
        "Should have at least thread 0"
    );
}

#[test]
fn busy_threads_are_skipped_for_the_least_loaded_idle_one() {
    let mut executor = PinnedExecutor::new(3);
    executor.register_plugin(1, &idle());
    executor.register_plugin(2, &vec![true]);
    executor.register_plugin(3, &vec![true, true]);
    assert_eq!(executor.thread_count(), 3);
    // threads 0 and 2 busy, thread 1 idle
    assert_eq!(executor.register_plugin(4, &vec![true, false, true]), 1);
    // all busy at the limit: the first of the least loaded (threads 0 and
    // 2 have one plugin each, thread 1 has two)
    assert_eq!(executor.register_plugin(5, &vec![true, true, true]), 0);
}

#[test]
fn unregistering_frees_the_thread_for_reuse_and_keeps_the_index_table() {
    let mut executor = PinnedExecutor::new(2);
    executor.register_plugin(1, &idle());
    executor.register_plugin(2, &vec![true]);
    assert_eq!(executor.unregister_plugin(2), vec![1]);
    assert_eq!(executor.thread_count(), 1);
    // the table keeps its length: the pool is at its limit, so a busy
    // thread 0 no longer leads to a new thread
    assert_eq!(executor.register_plugin(3, &vec![true]), 0);
    assert_eq!(executor.thread_count(), 1);
}
