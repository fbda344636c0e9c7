use std::cmp::Ordering;

use kernel::addrspace::{AddrSpace, VmMap, VmRegion};
use kernel::config::{EV_CHILD_QUIT, EV_PROC_QUIT, VM_READ, VM_WRITE};
use kernel::errno::Errno;
use kernel::files::{FHandle, FLike, FdOpt, PipeNode};
use kernel::kernel::cache::{BlockCache, CacheSlot, Disk};
use kernel::mm::frame::FramePool;
use kernel::pgroup::ProcessGroup;
use kernel::sched::{compute_load_balance, RunQueue, SchedulePolicy};
use kernel::task::{Pid, Task};
use kernel::task_table::TaskTable;

fn file(path: &str, cloexec: bool) -> FLike {
    FLike::File(FHandle::new(path, FdOpt { rd: true, wr: false, ap: false, nb: false }, cloexec, false))
}

#[test]
fn law_add_then_close_restores_table() {
    let mut t = Task::make(1, "t");
    assert_eq!(t.add_file(file("/a", false)), 0);
    assert_eq!(t.add_file(file("/b", false)), 1);
    assert!(t.close_fd(0).is_ok());
    assert_eq!(t.get_free_fd(), 0);
    assert_eq!(t.add_file(file("/c", false)), 0);
    assert!(matches!(t.get_file(0), Some(FLike::File(h)) if h.path == "/c"));
    assert_eq!(t.close_fd(0), Ok(()));
    assert_eq!(t.close_fd(0), Err(Errno::Ebadf));
    assert_eq!(t.fd_count(), 1);
}

#[test]
fn law_dup2_aliases_descriptor() {
    let mut t = Task::make(1, "t");
    t.add_file(file("/a", true));
    assert_eq!(t.dup2_fd(0, 5), Ok(5));
    assert!(matches!(t.get_file(5), Some(FLike::File(h)) if h.path == "/a" && !h.cloexec));
    assert_eq!(t.dup2_fd(3, 6), Err(Errno::Ebadf));
    assert_eq!(t.dup2_fd(5, 5), Ok(5));
    assert_eq!(t.dup_fd(0, true), Ok(1));
    assert!(matches!(t.get_file(1), Some(FLike::File(h)) if h.cloexec));
    assert_eq!(t.dup_fd(9, false), Err(Errno::Ebadf));
    assert_eq!(t.set_cloexec(1, true), Ok(()));
    assert_eq!(t.set_cloexec(2, true), Err(Errno::Ebadf));
    assert_eq!(t.get_free_fd_from(5), 6);
}

#[test]
fn task_exit_and_signals() {
    let mut t = Task::make(4, "w");
    assert_eq!(t.id(), 4);
    assert_eq!(t.tag(), "w");
    assert!(!t.exited() || t.threads.is_empty());
    t.add_file(FLike::Pipe(PipeNode::pair().0));
    let mut parent = Task::make(3, "p");
    t.exit_proc(0x1_2A, Some(&mut parent));
    assert_eq!(parent.ev & EV_CHILD_QUIT, EV_CHILD_QUIT);
    assert_eq!(t.ev & EV_PROC_QUIT, EV_PROC_QUIT);
    assert_eq!(parent.ev & EV_PROC_QUIT, 0);
    assert!(t.exited());
    assert_eq!(t.info.status, Some(0x2A));
    assert_eq!(t.exit_code, 0x1_2A);
    assert_eq!(t.fd_count(), 0);
    assert!(!t.has_sig());
    t.send_sig(2, 1);
    assert!(!t.has_sig());
    t.send_sig(2, -1);
    assert!(t.has_sig());
    let b = t.get_futex(0x100);
    assert_eq!(t.get_futex(0x100), b);
    assert_eq!(t.get_ep_ref(3).err(), Some(Errno::Eperm));
}

#[test]
fn task_table_spawn_find_and_reap() {
    let mut tt = TaskTable::new();
    let a = tt.spawn("worker");
    let b = tt.spawn("worker");
    let c = tt.spawn("other");
    assert_eq!((a, b, c), (0, 1, 2));
    assert_eq!(tt.find(2), Some(1));
    assert_eq!(tt.find(9), None);
    assert_eq!(tt.find_by_tag("worker"), vec![0, 1]);
    assert_eq!(tt.count(), 3);
    tt.register(c, Pid(40));
    assert_eq!(tt.find(40), Some(2));
    assert_eq!(tt.active_tasks().len(), 4);
    tt.exit_task(a, 3);
    assert_eq!(tt.zombie_tasks(), vec![1]);
    tt.reap(1);
    assert_eq!(tt.find(1), None);
    assert!(tt.terminate_and_collect(2, 0));
    assert!(!tt.terminate_and_collect(2, 0));
}

#[test]
fn task_table_fork_and_threads() {
    let mut tt = TaskTable::new();
    let root = tt.spawn_root();
    tt.arena[root].threads.push(1);
    let child = tt.fork_task(root);
    assert_eq!(tt.arena[child].info.id, 2);
    assert_eq!(tt.arena[child].parent, Some(root));
    assert_eq!(tt.arena[root].n_children(), 2);
    let th = tt.clone_thread(root, 0x8000, 0x10, 0);
    assert_eq!(tt.process_of_tid(1), Some(root));
    assert_eq!(tt.process_of_tid(999), None);
    let _ = th;
    let u = tt.new_user_task("/bin/init", vec!["init".to_string()], vec![]);
    assert_eq!(tt.arena[u].exec_path, "/bin/init");
    assert_eq!(tt.pgid_group(0).len(), tt.count());
    assert_eq!(tt.send_signal_group(0, 9), tt.count());
}

#[test]
fn law_add_then_remove_member() {
    let mut g = ProcessGroup::new(5, 10, 1);
    assert!(g.is_leader(10));
    g.add_member(11);
    g.add_member(11);
    assert_eq!(g.member_count(), 2);
    assert!(g.remove_member(11));
    assert!(!g.remove_member(11));
    assert_eq!(g.member_count(), 1);
    assert!(!g.is_empty());
    assert!(g.remove_member(10));
    assert!(g.is_empty());
    g.set_foreground(true);
    assert!(g.is_foreground());
}

#[test]
fn group_broadcast_reaches_members() {
    let mut tt = TaskTable::new();
    let h = tt.spawn("m");
    let mut g = ProcessGroup::new(1, 1, 1);
    g.add_member(1);
    g.add_member(77);
    g.broadcast_signal(15, &mut tt);
    assert!(tt.arena[h].has_sig());
}

#[test]
fn run_queue_orders_and_picks() {
    let mut q = RunQueue::new();
    q.enqueue(1, SchedulePolicy::with_prio(5));
    q.enqueue(2, SchedulePolicy::new());
    assert_eq!(q.len(), 2);
    assert_eq!(q.queue[0].0, 2);
    assert_eq!(q.pick_next(), Some(2));
    assert_eq!(q.dequeue().map(|e| e.0), Some(2));
    assert_eq!(q.len(), 1);
    assert!(q.remove(1));
    assert!(!q.remove(1));
    assert_eq!(q.dequeue().map(|e| e.0), None);
    q.preempt_disable();
    assert!(!q.preemptible());
    q.preempt_enable();
    assert!(q.preemptible());
    assert!(!q.yield_current());
    q.set_current(3);
    assert!(q.yield_current());
    assert_eq!(q.current, None);
    assert_eq!(q.queue[0].0, 3);
}

#[test]
fn enqueue_keeps_arrival_order_of_equal_keys() {
    let mut q = RunQueue::new();
    q.enqueue(1, SchedulePolicy::new());
    q.enqueue(2, SchedulePolicy::with_prio(1));
    q.enqueue(3, SchedulePolicy::new());
    q.enqueue(4, SchedulePolicy::new());
    let order: Vec<usize> = q.queue.iter().map(|e| e.0).collect();
    assert_eq!(order, vec![1, 3, 4, 2]);
}

#[test]
fn policy_weights_and_comparison() {
    assert_eq!(SchedulePolicy::new().weight(), 1024);
    assert_eq!(SchedulePolicy::with_prio(5).weight(), 335);
    assert_eq!(SchedulePolicy::with_prio(15).weight(), 110);
    assert_eq!(SchedulePolicy::with_prio(5).time_slice, 15);
    assert_eq!(RunQueue::cmp_priority(&SchedulePolicy::new(), &SchedulePolicy::with_prio(5)), Ordering::Less);
    assert_eq!(RunQueue::cmp_priority(&SchedulePolicy::new(), &SchedulePolicy::new()), Ordering::Equal);
}

#[test]
fn load_balance_exact_choice() {
    assert_eq!(compute_load_balance(&[2, 0, 1], &[], &[]), 1);
    assert_eq!(compute_load_balance(&[2, 0, 1], &[], &[false, true, false]), 2);
    assert_eq!(compute_load_balance(&[], &[], &[]), 0);
    assert_eq!(compute_load_balance(&[1, 1], &[0, 10], &[]), 1);
}

#[test]
fn vm_map_insert_find_remove() {
    let mut m = VmMap::new();
    assert_eq!(m.insert(VmRegion::new(0x1000, 0x2000, VM_READ)), Ok(()));
    assert_eq!(m.insert(VmRegion::new(0x8000, 0x1000, VM_WRITE)), Ok(()));
    assert_eq!(m.insert(VmRegion::new(usize::MAX, 2, VM_READ)), Err(Errno::Einval));
    assert_eq!(m.find(0x2fff), Some(0));
    assert_eq!(m.find(0x3000), None);
    assert_eq!(m.remove_range(0x8000, 0x1000), 1);
    assert_eq!(m.regions.len(), 1);
    assert_eq!(VmRegion::new(0x1000, 0x2000, 0).end(), 0x3000);
}

#[test]
fn address_space_fork_shares_pages() {
    let mut parent = AddrSpace::new(1);
    parent.vm_map.insert(VmRegion::new(0x1000, 0x1000, VM_WRITE)).unwrap();
    parent.vm_map.insert(VmRegion::new(0x4000, 0x1000, VM_READ)).unwrap();
    let mut pool = FramePool::new(2);
    assert_eq!(parent.handle_cow_fault(0x1234, &mut pool), Ok(0x8000_0000));
    assert_eq!(parent.rss_pages(), 1);
    let child = AddrSpace::fork_from(&mut parent, 2);
    assert_eq!(child.asid, 2);
    assert_eq!(child.vm_map.regions[0].ref_count, 1);
    assert_eq!(parent.vm_map.regions[0].ref_count, 2);
    assert_eq!(parent.vm_map.regions[1].ref_count, 0);
    assert_eq!(child.cow_pages[0].1.count(), 2);
    assert_eq!(parent.cow_sharers(), 1);
}

#[test]
fn address_space_fault_errors() {
    let mut s = AddrSpace::new(1);
    s.vm_map.insert(VmRegion::new(0x1000, 0x1000, VM_READ)).unwrap();
    s.vm_map.insert(VmRegion::new(0x2000, 0x1000, VM_WRITE)).unwrap();
    let mut pool = FramePool::new(0);
    assert_eq!(s.handle_cow_fault(0x9000, &mut pool), Err(Errno::Segfault));
    assert_eq!(s.handle_cow_fault(0x1000, &mut pool), Err(Errno::Segfault));
    assert_eq!(s.handle_cow_fault(0x2000, &mut pool), Err(Errno::Oom));
    let mut pool = FramePool::new(1);
    assert_eq!(s.handle_cow_fault(0x2010, &mut pool), Ok(0x8000_0000));
    assert_eq!(s.handle_cow_fault(0x2010, &mut pool), Ok(0x2000));
}

#[test]
fn address_space_unmap_protect_split() {
    let mut s = AddrSpace::new(1);
    s.vm_map.insert(VmRegion::new(0x1000, 0x1000, VM_WRITE)).unwrap();
    s.vm_map.insert(VmRegion::new(0x4000, 0x2000, VM_WRITE)).unwrap();
    let mut pool = FramePool::new(4);
    s.handle_cow_fault(0x1000, &mut pool).unwrap();
    assert_eq!(s.protect(0x4000, 0x100, VM_READ), Ok(()));
    assert_eq!(s.vm_map.regions[1].flags, VM_READ);
    assert_eq!(s.vm_map.regions[0].flags, VM_WRITE);
    assert_eq!(s.split_region(0x5000), Ok(()));
    assert_eq!(s.vm_map.regions[2].base, 0x5000);
    assert_eq!(s.vm_map.regions[2].len, 0x1000);
    assert_eq!(s.split_region(0x4000), Err(Errno::Einval));
    assert_eq!(s.split_region(0x9000), Err(Errno::Enomem));
    assert_eq!(s.unmap_range(0x1000, 0x1000), 2);
    assert_eq!(s.rss_pages(), 0);
}

#[test]
fn block_cache_marks_and_evicts() {
    let mut c = BlockCache::new(4);
    c.chains[1].push(CacheSlot { id: 5, modified: false });
    c.chains[1].push(CacheSlot { id: 9, modified: true });
    assert_eq!(c.total_entries(), 2);
    assert_eq!(c.dirty_count(), 1);
    assert!(c.has_slot(1, 5));
    c.mark_modified(1, 5);
    assert!(c.has_dirty_slot(1, 5));
    assert!(c.evict(1, 9));
    assert!(!c.evict(1, 9));
    assert_eq!(c.dirty_count(), 1);
    let d = Disk::new("disk1");
    assert_eq!(d.label, "disk1");
    assert_eq!(d.ops, 0);
}

#[test]
fn errno_names() {
    assert_eq!(Errno::Efault.as_str(), "efault");
    assert_eq!(Errno::Enosys.as_str(), "enosys");
    assert_eq!(Errno::Segfault.as_str(), "segfault");
}
