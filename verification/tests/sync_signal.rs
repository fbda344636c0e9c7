use kernel::cap::CapSet;
use kernel::config::{SIGKILL, SIGSTOP, SIG_IGN};
use kernel::errno::Errno;
use kernel::kernel::waitq::WaitQueue;
use kernel::rlimit::ResourceLimits;
use kernel::signal::{SigAction, SigSet};
use kernel::sync::flgguard::{FlgDepth, FlgGuard};
use kernel::sync::kernlock::KernLock;
use kernel::sync::spin::Spin;
use kernel::sync::syncqueue::SyncQueue;

#[test]
fn wait_queue_wakes_first_sleeper_on_key() {
    let mut q = WaitQueue::new();
    q.sleep(7, 100, 0);
    q.sleep(8, 101, 0);
    q.sleep(7, 102, 0);
    assert_eq!(q.pending_count(), 3);
    assert!(q.has_waiters_for(7));
    assert_eq!(q.wake_one(7), Some(100));
    assert_eq!(q.wake_one(9), None);
    assert_eq!(q.total_wakes(), 1);
    assert_eq!(q.pending_count(), 2);
}

#[test]
fn law_wake_all_leaves_no_sleeper_on_key() {
    let mut q = WaitQueue::new();
    q.sleep(7, 1, 0);
    q.sleep(8, 2, 0);
    q.sleep(7, 3, 0);
    assert_eq!(q.wake_all(7), vec![1, 3]);
    assert!(!q.has_waiters_for(7));
    assert!(q.has_waiters_for(8));
    assert_eq!(q.total_wakes(), 2);
    assert_eq!(q.wake_all(7), Vec::<usize>::new());
}

#[test]
fn wait_queue_filtered_wake_and_timeout() {
    let mut q = WaitQueue::new();
    q.sleep(1, 10, 4);
    q.sleep(2, 11, 1);
    q.sleep(3, 12, 4);
    assert_eq!(q.wake_filtered(|_k, f| f == 4), vec![10, 12]);
    assert_eq!(q.total_wakes(), 2);
    assert!(q.sleep_timeout(2));
    assert!(!q.sleep_timeout(2));
    assert_eq!(q.pending_count(), 0);
}

#[test]
fn wait_queue_reorders_stably_by_flags() {
    let mut q = WaitQueue::new();
    q.sleep(1, 10, 3);
    q.sleep(2, 11, 1);
    q.sleep(3, 12, 3);
    q.sleep(4, 13, 0);
    q.reorder_by_priority();
    let order: Vec<usize> = q.inner.iter().map(|e| e.1).collect();
    assert_eq!(order, vec![13, 11, 10, 12]);
}

#[test]
fn law_signal_before_wait_is_not_lost() {
    let mut s = SyncQueue::new();
    assert_eq!(s.signal(), None);
    assert_eq!(s.pending, 1);
    assert_eq!(s.park_on(false, 5), Some(true));
    assert_eq!(s.pending, 0);
    assert_eq!(s.park_on(false, 5), None);
    assert_eq!(s.pending(), 1);
    assert_eq!(s.signal(), Some(5));
    assert_eq!(s.park_on(true, 6), Some(true));
}

#[test]
fn sync_queue_broadcast_and_signal_n() {
    let mut s = SyncQueue::new();
    s.wait_guard(1);
    assert!(s.wait_timeout(2));
    assert_eq!(s.wait_ev(None, 3), None);
    assert_eq!(s.wait_ev(Some(false), 4), Some(false));
    assert_eq!(s.signal_n(2), vec![1, 2]);
    assert_eq!(s.broadcast(), vec![3]);
    assert_eq!(s.pending(), 0);
    s.wait_guard(8);
    s.wait_guard(9);
    s.leave(8);
    assert_eq!(s.broadcast(), vec![9]);
}

#[test]
fn sync_queue_wait_events_queues_everywhere() {
    let mut qs = vec![SyncQueue::new(), SyncQueue::new()];
    assert_eq!(SyncQueue::wait_events(&mut qs, None, 4), None);
    assert_eq!(qs[0].pending(), 1);
    assert_eq!(qs[1].pending(), 1);
    assert_eq!(SyncQueue::wait_events(&mut qs, Some(true), 4), Some(true));
    assert_eq!(qs[0].pending(), 1);
}

#[test]
fn sync_queue_epoll_registrations() {
    let mut s = SyncQueue::new();
    s.reg_epoll(1, 3, 4);
    s.reg_epoll(1, 3, 5);
    assert!(s.unreg_epoll(1, 3, 4));
    assert!(!s.unreg_epoll(1, 3, 4));
    assert_eq!(s.eq.len(), 1);
}

#[test]
fn law_kernel_lock_reentry_undone_by_leave() {
    let mut l = KernLock::new();
    l.enter(1, 5);
    assert!(l.held());
    assert_eq!(l.owner(), 5);
    l.enter(1, 5);
    assert_eq!(l.level(), 2);
    assert!(!l.try_enter(2, 6));
    l.leave();
    assert_eq!(l.level(), 1);
    l.leave();
    assert!(!l.held());
    assert!(l.try_enter(2, 6));
}

#[test]
fn spin_and_nesting_guard() {
    let mut s = Spin::new();
    assert!(s.try_acquire());
    assert!(!s.try_acquire());
    s.release();
    s.acquire();
    assert!(s.is_held());
    let mut d = FlgDepth::new();
    let g1 = FlgGuard::enter(&mut d);
    let g2 = FlgGuard::enter(&mut d);
    assert!(g1.is_outermost());
    assert_eq!(g2.depth(), 2);
    g2.release(&mut d);
    g1.release(&mut d);
}

#[test]
fn law_kill_and_stop_never_blocked() {
    let mut s = SigSet::new();
    s.sig_block(u64::MAX);
    s.sig_raise(SIGKILL);
    s.sig_raise(3);
    assert_eq!(s.deliverable(), Some(SIGKILL));
    s.sig_setmask(u64::MAX);
    assert_eq!(s.blocked & (1 << SIGSTOP), 0);
    assert_eq!(s.blocked & (1 << SIGKILL), 0);
}

#[test]
fn law_raised_signal_pending_until_cleared() {
    let mut s = SigSet::new();
    s.sig_raise(5);
    assert!(s.sig_pending(5));
    s.sig_clear(5);
    assert!(!s.sig_pending(5));
    s.sig_raise(40);
    assert_eq!(s.pending, 0);
}

#[test]
fn signal_actions_and_exec_reset() {
    let mut s = SigSet::new();
    s.set_action(2, SigAction { handler: SIG_IGN, flags: 0, mask: 0 });
    s.set_action(3, SigAction { handler: 0x4000, flags: 0, mask: 0 });
    s.set_action(SIGKILL, SigAction { handler: SIG_IGN, flags: 0, mask: 0 });
    assert!(s.is_ignored(2));
    assert!(!s.is_ignored(SIGKILL));
    assert_eq!(s.get_action(3).handler, 0x4000);
    s.clear_non_caught();
    assert_eq!(s.get_action(3).handler, 0);
    assert!(s.is_ignored(2));
}

#[test]
fn law_capability_grant_drop_and_inherit() {
    let mut c = CapSet::new();
    c.grant(3);
    assert!(c.check(3));
    assert!(!c.check(4));
    c.drop_cap(3);
    assert!(!c.check(3));
    let full = CapSet::full();
    let child = CapSet::inherit(&full);
    assert!(!child.check(63));
    assert!(child.check(0));
    assert!(!c.raise_ambient(5));
    c.grant(5);
    assert!(c.raise_ambient(5));
    assert!(!c.check(64));
}

#[test]
fn law_limit_set_then_get() {
    let mut l = ResourceLimits::default_limits();
    assert_eq!(l.get_limit(7), Ok(1024));
    assert_eq!(l.set_limit(7, 10), Ok(()));
    assert_eq!(l.get_limit(7), Ok(10));
    assert_eq!(l.get_limit(3), Ok(l.max_stack_size));
    assert_eq!(l.set_limit(5, 1), Err(Errno::Einval));
    assert_eq!(l.get_limit(5), Err(Errno::Einval));
    assert!(l.check_fd(9));
    assert!(!l.check_fd(10));
    assert!(l.exceeds_any(11, 0, 0));
    assert!(!l.exceeds_any(10, 256, 0));
}
