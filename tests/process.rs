use ramen::address_space::{init_pml4, PageTable, ADDR_MASK, ENTRY_COUNT, USER_SLOTS};
use ramen::frame_allocator::{FrameAllocator, FrameDescriptor};
use ramen::initrd::find_file;
use ramen::kernel_stack::{KernelStack, StackCorruption, GUARD_PAGE_SIZE, KERNEL_STACK_BYTES};
use ramen::pid::{Pid, PidPool, MAX_PROCESS};
use ramen::process::{Context, Privilege, Process};

fn table_with(fill: u64, recursive: u64, kernel: u64) -> PageTable {
    let mut entries = vec![fill; ENTRY_COUNT];
    entries[510] = recursive;
    entries[511] = kernel;
    PageTable::from_entries(entries).unwrap()
}

fn one_run(pages: u64) -> FrameAllocator {
    let mut f = FrameAllocator::new();
    assert!(f.push_descriptor(FrameDescriptor::new_for_available(0x10_0000, pages)));
    f
}

fn newc_entry(name: &str, data: &[u8]) -> Vec<u8> {
    let mut out = Vec::new();
    let fields = [
        1u32,
        0o100644,
        0,
        0,
        1,
        0,
        data.len() as u32,
        0,
        0,
        0,
        0,
        name.len() as u32 + 1,
        0,
    ];
    out.extend_from_slice(b"070701");
    for f in fields {
        out.extend_from_slice(format!("{:08x}", f).as_bytes());
    }
    out.extend_from_slice(name.as_bytes());
    out.push(0);
    while out.len() % 4 != 0 {
        out.push(0);
    }
    out.extend_from_slice(data);
    while out.len() % 4 != 0 {
        out.push(0);
    }
    out
}

fn archive(files: &[(&str, &[u8])]) -> Vec<u8> {
    let mut out = Vec::new();
    for (name, data) in files {
        out.extend(newc_entry(name, data));
    }
    out.extend(newc_entry("TRAILER!!!", &[]));
    out
}

#[test]
fn fresh_stack_passes_check_and_smashed_one_fails() {
    let mut s = KernelStack::new();
    assert!(s.is_fresh());
    assert_eq!(s.len(), KERNEL_STACK_BYTES);
    assert_eq!(s.check(), Ok(()));
    assert_eq!(s.byte(GUARD_PAGE_SIZE), 0x73);
    assert_eq!(s.byte(GUARD_PAGE_SIZE + 7), 0x64);
    assert_eq!(s.byte(0), 0);
    s.write_byte(0, 0xff);
    assert_eq!(s.check(), Ok(()));
    assert!(!s.is_fresh());
    s.write_byte(GUARD_PAGE_SIZE + 3, 0);
    assert_eq!(s.check(), Err(StackCorruption));
}

#[test]
fn pid_pool_hands_out_lowest_free_and_runs_out() {
    let mut pool = PidPool::new();
    let mut got = Vec::new();
    for _ in 0..MAX_PROCESS {
        got.push(pool.generate().unwrap().as_usize());
    }
    assert_eq!(got, vec![1, 2, 3, 4, 5, 6, 7, 8]);
    assert!(pool.generate().is_none());
    pool.release(Pid::new(3));
    assert_eq!(pool.generate().map(|p| p.as_usize()), Some(3));
}

#[test]
fn new_root_clears_user_slots_and_keeps_kernel_slot() {
    let current = table_with(0x2003, 0x7000_0063, 0x8000_0003);
    let t = init_pml4(&current, 0x5_5000);
    let e = t.entries();
    assert!(e[..USER_SLOTS].iter().all(|&x| x == 0));
    assert_eq!(e[510], 0x5_5000 | 0x63);
    assert_eq!(e[510] & ADDR_MASK, 0x5_5000);
    assert_eq!(e[511], 0x8000_0003);
    assert!(t.user_region_is_not_mapped());
    assert!(!current.user_region_is_not_mapped());
}

#[test]
fn unmap_all_user_regions_keeps_upper_slots() {
    let mut t = table_with(0x1234_5003, 0x63, 0x9003);
    t.unmap_all_user_regions();
    assert!(t.user_region_is_not_mapped());
    assert_eq!(t.entry(510), 0x63);
    assert_eq!(t.entry(511), 0x9003);
}

#[test]
fn image_processes_start_with_isolated_address_spaces() {
    let files: [(&str, &[u8]); 2] = [("init", b"\x7fELF-init"), ("other", b"data")];
    let initrd = archive(&files);
    let mut pids = PidPool::new();
    let mut frames = one_run(16);
    let current = table_with(0, 0x63, 0x9003);

    let a = Process::try_from_initrd(&mut pids, &mut frames, &current, &initrd, "init").unwrap();
    assert_eq!(a.pid.as_usize(), 1);
    assert_eq!(a.root, 0x10_0000);
    assert_eq!(a.binary, b"\x7fELF-init".to_vec());

    // The first address space gets user mappings while it is active.
    let mut mapped = a.table.entries().clone();
    mapped[0] = 0x42_0007;
    mapped[3] = 0x43_0007;
    let active = PageTable::from_entries(mapped).unwrap();

    let b = Process::try_from_initrd(&mut pids, &mut frames, &active, &initrd, "other").unwrap();
    assert_eq!(b.root, 0x10_1000);
    assert!(b.table.user_region_is_not_mapped());
    assert!(a.table.user_region_is_not_mapped());
    assert_eq!(b.binary, b"data".to_vec());

    let p = Process::from_loaded_image(b.pid, b.root, 0x40_1000, 0x7fff_f000, Process::generate_kernel_stack());
    assert_eq!(
        p.context(),
        Context { privilege: Privilege::User, entry: 0x40_1000, root: 0x10_1000, stack_top: 0x7fff_f000 }
    );
    assert_eq!(p.check_kernel_stack_guard(), Ok(()));
}

#[test]
fn missing_image_gives_back_pid_and_frame() {
    let initrd = archive(&[("init", b"x")]);
    let mut pids = PidPool::new();
    let mut frames = one_run(4);
    let before = frames.descriptors();
    let current = table_with(0, 0x63, 0x9003);
    let r = Process::try_from_initrd(&mut pids, &mut frames, &current, &initrd, "absent");
    assert!(r.is_none());
    assert_eq!(frames.descriptors(), before);
    assert_eq!(pids.generate().map(|p| p.as_usize()), Some(1));
}

#[test]
fn function_process_gets_kernel_context() {
    let mut pids = PidPool::new();
    let mut frames = one_run(4);
    let current = table_with(0, 0x63, 0x9003);
    let (p, table) = Process::try_from_function(
        &mut pids,
        &mut frames,
        &current,
        0xffff_8000_0000_1000,
        Process::generate_kernel_stack(),
        0xffff_9000_0000_3000,
    )
    .unwrap();
    assert_eq!(p.pid().as_usize(), 1);
    assert_eq!(
        p.context(),
        Context::kernel(0xffff_8000_0000_1000, 0x10_0000, 0xffff_9000_0000_3000)
    );
    assert!(table.user_region_is_not_mapped());
    assert_eq!(table.entry(511), 0x9003);
    assert_eq!(p.check_kernel_stack_guard(), Ok(()));
}

#[test]
fn function_process_fails_without_frames_and_keeps_pool() {
    let mut pids = PidPool::new();
    let mut frames = FrameAllocator::new();
    let current = table_with(0, 0x63, 0x9003);
    let r = Process::try_from_function(
        &mut pids,
        &mut frames,
        &current,
        0x1000,
        Process::generate_kernel_stack(),
        0x2000,
    );
    assert!(r.is_none());
    assert_eq!(pids.generate().map(|p| p.as_usize()), Some(1));
}

#[test]
fn idle_process_has_pid_zero_and_fresh_stack() {
    let p = Process::idle();
    assert_eq!(p.pid().as_usize(), 0);
    assert_eq!(p.context(), Context::empty());
    assert_eq!(p.kernel_stack().check(), Ok(()));
}

#[test]
fn find_file_returns_first_match() {
    let files: [(&str, &[u8]); 3] = [("a", b"one"), ("bin/init", b"two"), ("a", b"three")];
    let initrd = archive(&files);
    assert_eq!(find_file(&initrd, "bin/init"), Some(b"two".to_vec()));
    assert_eq!(find_file(&initrd, "a"), Some(b"one".to_vec()));
    assert_eq!(find_file(&initrd, "init"), None);
}
