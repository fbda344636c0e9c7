use kernel::config::{
    F_DUPFD_CLOEXEC, F_GETFL, F_SETFL, FIOCLEX, KERN_BASE, MEM_OFF, O_APPEND, O_NONBLOCK, PAGE_SZ, SIGKILL, SYS_BRK,
    SYS_CLOCK_GETTIME, SYS_DUP, SYS_FCNTL, SYS_FORK, SYS_GETPGID, SYS_GETPID, SYS_GETPPID, SYS_IOCTL, SYS_MMAP,
    SYS_MUNMAP, SYS_PIPE, SYS_READ, SYS_SIGACTION, SYS_WAIT4, SYS_WRITE, TCGETS, TIOCGWINSZ,
};
use kernel::errno::Errno;
use kernel::kernel::cache::CacheSlot;
use kernel::kernel::process::EXEC_ENTRY;
use kernel::kernel::state::Kernel;

fn booted(frames: usize) -> Kernel {
    let mut k = Kernel::new(frames);
    k.proc_init();
    k
}

#[test]
fn unknown_syscall_is_enosys() {
    let mut k = booted(64);
    assert_eq!(k.dispatch_syscall(999, 0, 0, 0, 0, 0, 0), Err(Errno::Enosys));
}

#[test]
fn write_length_formula() {
    let mut k = booted(64);
    assert_eq!(k.dispatch_syscall(SYS_WRITE, 1, 0x1000, 32, 0, 0, 0), Ok(32));
    assert_eq!(k.dispatch_syscall(SYS_WRITE, 1, 0x1FF0, 32, 0, 0, 0), Ok(32 + 0xFF0));
    assert_eq!(k.dispatch_syscall(SYS_WRITE, 1, 0x1000, 0, 0, 0, 0), Ok(0));
    assert_eq!(k.dispatch_syscall(SYS_WRITE, 1, 0, 8, 0, 0, 0), Err(Errno::Efault));
    assert_eq!(k.dispatch_syscall(SYS_WRITE, 1, KERN_BASE - 2, 4, 0, 0, 0), Err(Errno::Efault));
    assert_eq!(k.disk.ops, 2);
}

#[test]
fn read_of_uncached_descriptor_is_capped() {
    let mut k = booted(64);
    assert_eq!(k.dispatch_syscall(SYS_READ, 5, 0x1000, 100, 0, 0, 0), Ok(100));
    assert_eq!(k.dispatch_syscall(SYS_READ, 5, 0x1000, 70000, 0, 0, 0), Ok(16 * PAGE_SZ));
    assert_eq!(k.dispatch_syscall(SYS_READ, 5, 0, 4, 0, 0, 0), Err(Errno::Efault));
}

#[test]
fn mmap_places_and_checks() {
    let mut k = booted(64);
    assert_eq!(k.dispatch_syscall(SYS_MMAP, 0, 100, 3, 0x20, 0, 0), Ok(0x7000_0000));
    assert_eq!(k.dispatch_syscall(SYS_MMAP, 0x4000_0000, 100, 3, 0x30, 0, 0), Ok(0x4000_0000));
    assert_eq!(k.dispatch_syscall(SYS_MMAP, 0, 0, 3, 0x20, 0, 0), Err(Errno::Einval));
    assert_eq!(k.dispatch_syscall(SYS_MMAP, 0, 100, 3, 0, 0, 3 * PAGE_SZ), Err(Errno::Einval));
    let mut empty = booted(0);
    assert_eq!(empty.dispatch_syscall(SYS_MMAP, 0, 100, 3, 0x20, 0, 0), Err(Errno::Enomem));
    assert_eq!(k.dispatch_syscall(SYS_MUNMAP, 0x1001, PAGE_SZ, 0, 0, 0, 0), Err(Errno::Einval));
    assert_eq!(k.dispatch_syscall(SYS_MUNMAP, 0x1000, PAGE_SZ, 0, 0, 0, 0), Ok(0));
}

#[test]
fn ioctl_commands() {
    let mut k = booted(64);
    assert_eq!(k.dispatch_syscall(SYS_IOCTL, 0, TCGETS, 0x1000, 0, 0, 0), Ok(0));
    assert_eq!(k.dispatch_syscall(SYS_IOCTL, 0, 0x1234, 0x1000, 0, 0, 0), Err(Errno::Enotty));
    assert_eq!(k.dispatch_syscall(SYS_IOCTL, 0, TIOCGWINSZ, KERN_BASE - 4, 0, 0, 0), Err(Errno::Efault));
    assert_eq!(k.dispatch_syscall(SYS_IOCTL, 0, FIOCLEX, 0, 0, 0, 0), Ok(0));
}

#[test]
fn fcntl_and_dup_answers() {
    let mut k = booted(64);
    assert_eq!(k.dispatch_syscall(SYS_FCNTL, 3, F_GETFL, 0, 0, 0, 0), Ok(O_NONBLOCK));
    assert_eq!(k.dispatch_syscall(SYS_FCNTL, 1, F_GETFL, 0, 0, 0, 0), Ok(O_NONBLOCK | O_APPEND));
    assert_eq!(k.dispatch_syscall(SYS_FCNTL, 3, F_SETFL, 1, 0, 0, 0), Err(Errno::Einval));
    assert_eq!(k.dispatch_syscall(SYS_FCNTL, 3, F_DUPFD_CLOEXEC, 10, 0, 0, 0), Ok(11));
    assert_eq!(k.dispatch_syscall(SYS_FCNTL, 300, F_GETFL, 0, 0, 0, 0), Err(Errno::Ebadf));
    assert_eq!(k.dispatch_syscall(SYS_FCNTL, 3, 99, 0, 0, 0, 0), Err(Errno::Einval));
    assert_eq!(k.dispatch_syscall(SYS_DUP, 3, 0, 0, 0, 0, 0), Ok(4));
    assert_eq!(k.dispatch_syscall(SYS_DUP, 256, 0, 0, 0, 0, 0), Err(Errno::Ebadf));
}

#[test]
fn clock_and_sigaction_answers() {
    let mut k = booted(64);
    assert_eq!(k.dispatch_syscall(SYS_CLOCK_GETTIME, 0, 0x1000, 0, 0, 0, 0), Ok(0));
    assert_eq!(k.dispatch_syscall(SYS_CLOCK_GETTIME, 7, 0x1000, 0, 0, 0, 0), Err(Errno::Einval));
    assert_eq!(k.dispatch_syscall(SYS_CLOCK_GETTIME, 0, 0, 0, 0, 0, 0), Err(Errno::Efault));
    assert_eq!(k.dispatch_syscall(SYS_SIGACTION, SIGKILL as usize, 0, 0, 0, 0, 0), Ok(0));
    assert_eq!(k.dispatch_syscall(SYS_SIGACTION, 2, 0, 0, 0, 0, 0), Err(Errno::Einval));
    assert_eq!(k.dispatch_syscall(SYS_SIGACTION, 0, 0, 0, 0, 0, 0), Err(Errno::Einval));
}

#[test]
fn identity_calls_follow_the_running_task() {
    let mut k = booted(64);
    assert_eq!(k.dispatch_syscall(SYS_GETPID, 0, 0, 0, 0, 0, 0), Ok(1));
    assert_eq!(k.dispatch_syscall(SYS_GETPGID, 0, 0, 0, 0, 0, 0), Err(Errno::Esrch));
    k.set_cur(0, Some(0));
    assert_eq!(k.dispatch_syscall(SYS_GETPID, 0, 0, 0, 0, 0, 0), Ok(1));
    assert_eq!(k.dispatch_syscall(SYS_GETPPID, 0, 0, 0, 0, 0, 0), Ok(0));
    assert_eq!(k.dispatch_syscall(SYS_GETPGID, 0, 0, 0, 0, 0, 0), Ok(0));
    assert_eq!(k.dispatch_syscall(SYS_GETPGID, 77, 0, 0, 0, 0, 0), Err(Errno::Esrch));
}

#[test]
fn brk_rounds_up_to_pages() {
    let mut k = booted(64);
    assert_eq!(k.dispatch_syscall(SYS_BRK, 0, 0, 0, 0, 0, 0), Ok(0x0040_0000));
    assert_eq!(k.dispatch_syscall(SYS_BRK, KERN_BASE, 0, 0, 0, 0, 0), Err(Errno::Enomem));
    assert_eq!(k.dispatch_syscall(SYS_BRK, 0x1001, 0, 0, 0, 0, 0), Ok(0x2000));
    k.set_cur(0, Some(0));
    assert_eq!(k.dispatch_syscall(SYS_BRK, 0x2001, 0, 0, 0, 0, 0), Ok(0x3000));
    assert_eq!(k.pool.free_count(), 61);
    assert_eq!(k.tasks.arena[0].vm_token, 0x3000);
}

#[test]
fn pipe_packs_both_ends() {
    let mut k = booted(64);
    assert_eq!(k.dispatch_syscall(SYS_PIPE, 0, 0, 0, 0, 0, 0), Err(Errno::Efault));
    assert_eq!(k.dispatch_syscall(SYS_PIPE, 0x1000, 0, 0, 0, 0, 0), Err(Errno::Esrch));
    k.set_cur(0, Some(0));
    assert_eq!(k.dispatch_syscall(SYS_PIPE, 0x1000, 0, 0, 0, 0, 0), Ok(0 | (1 << 32)));
    assert_eq!(k.tasks.arena[0].fd_count(), 2);
}

#[test]
fn fork_needs_free_memory() {
    let mut k = booted(64);
    assert_eq!(k.dispatch_syscall(SYS_FORK, 0, 0, 0, 0, 0, 0), Err(Errno::Enomem));
    let mut big = booted(4096);
    assert_eq!(big.dispatch_syscall(SYS_FORK, 0, 0, 0, 0, 0, 0), Ok(2));
    assert_eq!(big.dispatch_syscall(SYS_FORK, 0, 0, 0, 0, 0, 0), Ok(3));
    assert_eq!(big.tasks.count(), 1);
}

#[test]
fn wait4_without_children() {
    let mut k = booted(64);
    assert_eq!(k.dispatch_syscall(SYS_WAIT4, usize::MAX, 0, 1, 0, 0, 0), Ok(0));
    assert_eq!(k.dispatch_syscall(SYS_WAIT4, usize::MAX, 0, 0, 0, 0, 0), Err(Errno::Echild));
    assert_eq!(k.dispatch_syscall(SYS_WAIT4, usize::MAX, KERN_BASE, 0, 0, 0, 0), Err(Errno::Efault));
    assert_eq!(k.dispatch_syscall(SYS_WAIT4, 1, 0, 1, 0, 0, 0), Ok(0));
    assert_eq!(k.dispatch_syscall(SYS_WAIT4, 42, 0, 0, 0, 0, 0), Err(Errno::Echild));
}

#[test]
fn fork_exit_and_wait_roundtrip() {
    let mut k = booted(64);
    assert_eq!(k.do_fork(99), Err(Errno::Esrch));
    let child = k.do_fork(1).unwrap();
    assert_eq!(child, 2);
    assert_eq!(k.tasks.count(), 2);
    assert_eq!(k.do_wait(1, -1, 1), Ok((0, 0)));
    assert_eq!(k.do_wait(1, -1, 0), Err(Errno::Echild));
    k.tasks.exit_task(1, 7);
    assert_eq!(k.do_wait(1, -1, 0), Ok((2, 7)));
    assert_eq!(k.tasks.find(2), None);
    assert_eq!(k.do_wait(5, -1, 0), Err(Errno::Esrch));
}

#[test]
fn exec_resets_context_and_path() {
    let mut k = booted(64);
    assert_eq!(k.do_exec(9, "/bin/sh", vec!["sh".to_string()], vec![]), Err(Errno::Esrch));
    assert_eq!(k.do_exec(1, "/bin/sh", vec!["sh".to_string()], vec!["A=1".to_string()]), Ok(()));
    let t = &k.tasks.arena[0];
    assert_eq!(t.exec_path, "/bin/sh");
    let ctx = t.thd_ctx.as_ref().unwrap();
    assert_eq!(ctx.uctx.ip, EXEC_ENTRY);
    assert_eq!(ctx.uctx.r[1] % 16, 0);
}

#[test]
fn do_pipe_uses_lowest_descriptors() {
    let mut k = booted(64);
    assert_eq!(k.do_pipe(1), Ok((0, 1)));
    assert_eq!(k.do_pipe(1), Ok((2, 3)));
    assert_eq!(k.do_pipe(8), Err(Errno::Esrch));
}

#[test]
fn law_tty_input_is_first_in_first_out() {
    let mut k = Kernel::new(1);
    k.tty_push(b'a');
    k.tty_push(b'\r');
    k.tty_push(b'b');
    assert_eq!(k.tty_pop(), Some(b'a'));
    assert_eq!(k.tty_pop(), Some(b'\n'));
    assert_eq!(k.tty_pop(), Some(b'b'));
    assert_eq!(k.tty_pop(), None);
}

#[test]
fn law_alloc_then_free_restores_pool() {
    let mut k = Kernel::new(8);
    k.pool.get_inner();
    let pages = k.alloc_pages(3);
    assert_eq!(pages, vec![MEM_OFF + PAGE_SZ, MEM_OFF + 2 * PAGE_SZ, MEM_OFF + 3 * PAGE_SZ]);
    assert_eq!(k.pool.free_count(), 4);
    k.free_pages(&pages);
    assert_eq!(k.pool.free_count(), 7);
    assert!(!k.pool.avail(0));
}

#[test]
fn law_memory_pressure_at_most_100() {
    let mut k = Kernel::new(4);
    assert_eq!(k.memory_pressure(), 0);
    k.alloc_pages(2);
    assert_eq!(k.memory_pressure(), 50);
    k.alloc_pages(9);
    assert_eq!(k.memory_pressure(), 100);
    assert_eq!(Kernel::new(0).memory_pressure(), 100);
}

#[test]
fn law_tick_keeps_dirty_blocks_and_lock() {
    let mut k = booted(64);
    k.cache.chains[5].push(CacheSlot { id: 5, modified: false });
    k.cache.chains[7].push(CacheSlot { id: 7, modified: false });
    k.cache.mark_modified(5, 5);
    let _ = k.dispatch_syscall(SYS_WRITE, 7, 0x1000, 8, 0, 0, 0);
    assert_eq!(k.cache_stats(), (2, 2));
    k.tick(1, 9);
    assert_eq!(k.cache_stats(), (2, 2));
    assert!(!k.gkl.held());
    k.gkl.enter(3, 4);
    k.gkl.enter(3, 4);
    k.tick(3, 4);
    assert!(k.gkl.held());
    assert_eq!(k.gkl.level(), 2);
    assert_eq!(k.gkl.owner(), 4);
}

#[test]
fn clock_and_cpus() {
    let mut k = booted(64);
    k.schedule_tick(0);
    k.schedule_tick(3);
    assert_eq!(k.clk, 2);
    assert_eq!(k.cur_task(0), None);
    assert!(!k.handle_pgfault(0x1000));
    k.set_cur(0, Some(0));
    assert_eq!(k.cur_task(0), Some(0));
    assert!(k.handle_pgfault_ext(0x1000, 2));
    assert_eq!(k.cur_task(100), None);
}

#[test]
fn zombies_are_reclaimed() {
    let mut k = booted(64);
    let c = k.do_fork(1).unwrap();
    k.tasks.exit_task(1, 0);
    assert_eq!(k.reclaim_zombies(), 1);
    assert_eq!(k.tasks.find(c), None);
    assert_eq!(k.reclaim_zombies(), 0);
}
