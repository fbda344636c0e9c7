use kernel::config::{KERN_BASE, KSTK_SZ, MEM_OFF, PAGE_SZ, PHYS_OFF};
use kernel::errno::Errno;
use kernel::mm::access::{cfu, check_access, check_access_rw, ctu, validate_access};
use kernel::mm::frame::{frame_alloc, frame_alloc_contig, frame_dealloc, FramePool};
use kernel::mm::heap::{heap_grow, heap_init};
use kernel::mm::kstk::KStk;
use kernel::mm::pgframe::PgFrame;
use kernel::mm::shared::SharedPage;
use kernel::mm::slab::SlabEntry;
use kernel::mm::zone::ZoneInfo;
use kernel::util::align::{align_down, align_up, is_power_of_two, log2_floor};
use kernel::util::bits::{bitwise_merge, clz64, ffs64, popcount64, rotate_bits};
use kernel::util::memscan::mem_scan_pattern;

#[test]
fn align_rounds_to_powers_of_two_only() {
    assert_eq!(align_up(0x1001, 0x1000), 0x2000);
    assert_eq!(align_up(0x1000, 0x1000), 0x1000);
    assert_eq!(align_up(5, 3), 5);
    assert_eq!(align_down(0x1fff, 0x1000), 0x1000);
    assert_eq!(align_down(7, 0), 7);
    assert!(is_power_of_two(64));
    assert!(!is_power_of_two(0));
    assert!(!is_power_of_two(96));
}

#[test]
fn log2_floor_values() {
    assert_eq!(log2_floor(0), 0);
    assert_eq!(log2_floor(1), 0);
    assert_eq!(log2_floor(1024), 10);
    assert_eq!(log2_floor(1025), 10);
}

#[test]
fn bit_helpers_exact_values() {
    assert_eq!(bitwise_merge(0xFF00, 0x00FF, 0x0F0F), 0xF00F);
    assert_eq!(rotate_bits(0b0001, 1, 4), 0b0010);
    assert_eq!(rotate_bits(0b1000, 1, 4), 0b0001);
    assert_eq!(rotate_bits(0b1011, 5, 0), 0b1011);
    assert_eq!(rotate_bits(0b1011, 4, 4), 0b1011);
    assert_eq!(popcount64(0xFF), 8);
    assert_eq!(popcount64(u64::MAX), 64);
    assert_eq!(clz64(1), 63);
    assert_eq!(clz64(0), 64);
    assert_eq!(ffs64(0), None);
    assert_eq!(ffs64(8), Some(3));
    assert_eq!(ffs64(0x8000_0000_0000_0000), Some(63));
}

#[test]
fn mem_scan_finds_overlapping_matches() {
    let data = b"aaaa";
    let r = mem_scan_pattern(data, b"aa", 10);
    assert_eq!(r, vec![0, 1, 2]);
    let r = mem_scan_pattern(b"abcabcab", b"abcab", 10);
    assert_eq!(r, vec![0, 3]);
}

#[test]
fn mem_scan_limits_and_edge_cases() {
    assert_eq!(mem_scan_pattern(b"aaaa", b"aa", 2), vec![0, 1]);
    assert_eq!(mem_scan_pattern(b"aaaa", b"aa", 0), vec![0]);
    assert_eq!(mem_scan_pattern(b"aaaa", b"", 5), Vec::<usize>::new());
    assert_eq!(mem_scan_pattern(b"ab", b"abc", 5), Vec::<usize>::new());
    assert_eq!(mem_scan_pattern(b"xyz", b"q", 5), Vec::<usize>::new());
}

#[test]
fn law_scan_positions_are_matches_example() {
    let data = b"the cat sat on the mat";
    let pat = b"at";
    for p in mem_scan_pattern(data, pat, 100) {
        assert_eq!(&data[p..p + pat.len()], pat);
    }
    assert_eq!(mem_scan_pattern(data, pat, 100), vec![5, 9, 20]);
}

#[test]
fn user_access_checks() {
    assert!(check_access(0x1000, 16));
    assert!(check_access(KERN_BASE - 16, 16));
    assert!(!check_access(KERN_BASE - 16, 17));
    assert!(!check_access(usize::MAX, 2));
    assert!(check_access_rw(KERN_BASE, 0, true));
    assert!(check_access_rw(KERN_BASE - 16, 16, true));
    assert!(!check_access_rw(KERN_BASE - 16, 17, true));
    assert!(check_access_rw(KERN_BASE - 17, 16, false));
    assert_eq!(cfu::<u32>(0x1000, 0), Some(0u32));
    assert_eq!(cfu::<u32>(KERN_BASE - 2, 0), None);
    assert!(ctu::<u64>(0x2000, 0, &7));
    assert!(!ctu::<u64>(KERN_BASE, 8, &7));
}

#[test]
fn validate_access_rejects_kernel_range() {
    assert_eq!(validate_access(0, 0x1000, 8, 1), Ok(()));
    assert_eq!(validate_access(0, KERN_BASE, 8, 1), Err(Errno::Efault));
    assert_eq!(validate_access(0, KERN_BASE - 8, 8, 1), Ok(()));
    assert_eq!(validate_access(1, KERN_BASE - 8, 9, 1), Err(Errno::Efault));
    assert_eq!(validate_access(3, 0x1000, 8, 1), Err(Errno::Einval));
    assert_eq!(validate_access(0, usize::MAX, 2, 1), Err(Errno::Eoverflow));
}

#[test]
fn frame_pool_takes_lowest_and_returns() {
    let mut pool = FramePool::new(4);
    assert_eq!(pool.free_count(), 4);
    assert_eq!(pool.get_inner(), Some(0));
    assert_eq!(pool.get(7), Some(1));
    assert!(!pool.avail(0));
    assert!(pool.avail(2));
    pool.put(0);
    assert!(pool.avail(0));
    pool.put(99);
    assert_eq!(pool.free_count(), 3);
    assert_eq!(pool.batch_alloc(10), vec![0, 2, 3]);
    assert_eq!(pool.get_inner(), None);
}

#[test]
fn frame_pool_contiguous_runs() {
    let mut pool = FramePool::new(8);
    pool.get_inner();
    assert_eq!(pool.get_contig(2, 1), Some(2));
    assert!(!pool.avail(2) && !pool.avail(3));
    assert_eq!(pool.get_contig(8, 0), None);
    assert_eq!(pool.get_contig(3, 2), Some(4));
}

#[test]
fn frame_alloc_scans_from_clock_and_gives_address() {
    let mut pool = FramePool::new(4);
    assert_eq!(frame_alloc(&mut pool, 6), Some(2 * PAGE_SZ + MEM_OFF));
    assert!(!pool.avail(2));
    frame_dealloc(&mut pool, 2 * PAGE_SZ + MEM_OFF);
    assert!(pool.avail(2));
    assert_eq!(frame_alloc_contig(&mut pool, 2, 2), Some(MEM_OFF));
}

#[test]
fn zone_aware_allocation_counts_in_zone() {
    let mut pool = FramePool::new(8);
    let mut zone = ZoneInfo::new(4, 2);
    assert!(zone.zone_can_alloc());
    assert_eq!(pool.get_zone_aware(&mut zone), Some(4));
    assert_eq!(pool.get_zone_aware(&mut zone), Some(5));
    assert_eq!(zone.free_count, 0);
    assert_eq!(pool.get_zone_aware(&mut zone), None);
    pool.put_zone_aware(4, &mut zone);
    assert_eq!(zone.free_count, 1);
    assert!(pool.avail(4));
    pool.put_zone_aware(100, &mut zone);
    assert_eq!(zone.free_count, 1);
}

#[test]
fn heap_init_and_grow() {
    assert_eq!(heap_init(0x1001, 0x3000), 0x5000);
    let mut pool = FramePool::new(4);
    let r = heap_grow(&mut pool, 2);
    assert_eq!(r, vec![(PHYS_OFF, 2 * PAGE_SZ)]);
    assert_eq!(pool.free_count(), 2);
    let mut pool = FramePool::new(6);
    pool.slots[2] = false;
    let r = heap_grow(&mut pool, 3);
    assert_eq!(r, vec![(PHYS_OFF, 2 * PAGE_SZ), (PHYS_OFF + 3 * PAGE_SZ, PAGE_SZ)]);
    assert_eq!(pool.free_count(), 2);
}

#[test]
fn page_frame_counts_wrap() {
    let mut f = PgFrame::new();
    assert_eq!(f.down(), 0);
    assert_eq!(f.count(), usize::MAX);
    assert_eq!(f.up(), usize::MAX);
    assert_eq!(f.count(), 0);
    assert!(!f.inc_if_nonzero());
    f.set(2);
    assert!(f.cas(2, 5));
    assert!(!f.cas(2, 6));
    assert_eq!(PgFrame::with_rc(3).count(), 3);
}

#[test]
fn shared_page_fault_copies_once() {
    let mut pool = FramePool::new(4);
    let mut src = PgFrame::with_rc(2);
    let mut page = SharedPage::new(1);
    assert!(!page.is_cow_resolved());
    assert_eq!(page.fault(&mut pool, &mut src), Ok(1));
    assert!(page.is_cow_resolved());
    assert_eq!(src.count(), 1);
    assert_eq!(page.fault(&mut pool, &mut src), Ok(1));
    let mut empty = FramePool::new(0);
    let mut other = SharedPage::new(0);
    assert_eq!(other.fault(&mut empty, &mut src), Err(Errno::Oom));
}

#[test]
fn kernel_stack_is_zeroed_and_top_past_end() {
    let k = KStk::new();
    assert_eq!(k.mem.len(), KSTK_SZ);
    assert!(k.mem.iter().all(|b| *b == 0));
    assert_eq!(k.top(), k.base.wrapping_add(KSTK_SZ));
    assert_ne!(k.top(), k.base);
}

#[test]
fn slab_allocates_frees_and_shrinks() {
    let mut s = SlabEntry::new(5, 3);
    assert_eq!(s.obj_size, 8);
    assert_eq!(s.slab_avail(), 3);
    assert_eq!(s.slab_alloc(true), Some(0));
    assert_eq!(s.slab_alloc(true), Some(8));
    assert_eq!(s.slab_used(), 2);
    s.slab_free(0);
    assert_eq!(s.slab_used(), 1);
    assert_eq!(s.slab_avail(), 2);
    assert_eq!(s.obj_at(8).map(|b| b.len()), Some(8));
    assert!(s.obj_at(20).is_none());
    if let Some(b) = s.obj_at_mut(8) {
        b[0] = 42;
    }
    assert_eq!(s.data[8], 42);
    assert!(s.obj_at_mut(17).is_none());
    assert_eq!(s.shrink(), 0);
    s.slab_free(8);
    assert_eq!(s.shrink(), 24);
}
