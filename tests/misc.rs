use ramen::boot_allocator::Allocator;
use ramen::file_name::{name_to_u16_array, name_too_long, FAT_MAX_NAME};
use ramen::kbox::Kbox;
use ramen::memory_map::{is_conventional, MemoryDescriptor, CONVENTIONAL_MEMORY};
use ramen::syscalls::{
    copy_data_from_body, get_screen_info_body, is_empty_reply, noop_body, BitsOrder, Body,
    ScreenInfo, Ty,
};

fn md(ty: u32, start: u64, pages: u64) -> MemoryDescriptor {
    MemoryDescriptor { ty, physical_start: start, virtual_start: 0, number_of_pages: pages, attribute: 0 }
}

#[test]
fn screen_info_from_reply_reads_fields() {
    let s = ScreenInfo::from_reply(Body(1920, 1080, 1, 2048, 0)).unwrap();
    assert_eq!(s.resolution_x(), 1920);
    assert_eq!(s.resolution_y(), 1080);
    assert_eq!(s.bits_order(), BitsOrder::BlueGreenRedReserved);
    assert_eq!(s.scan_line_width(), 2048);
    assert!(ScreenInfo::from_reply(Body(1, 1, 2, 1, 0)).is_none());
    assert!(ScreenInfo::from_reply(Body(1 << 32, 1, 0, 1, 0)).is_none());
}

#[test]
fn request_bodies() {
    assert_eq!(noop_body(), Body(0, 0, 0, 0, 0));
    assert_eq!(get_screen_info_body(), Body(2, 0, 0, 0, 0));
    assert_eq!(copy_data_from_body(3, 0x1000, 0x2000, 127), Some(Body(1, 3, 0x1000, 0x2000, 127)));
    assert_eq!(copy_data_from_body(3, 0x1000, 0x2000, 128), None);
    assert!(is_empty_reply(Body(0, 0, 0, 0, 0)));
    assert!(!is_empty_reply(Body(0, 0, 0, 0, 1)));
    assert_eq!(Ty::from_u64(1), Some(Ty::CopyDataFrom));
    assert_eq!(Ty::from_u64(3), None);
    assert_eq!(Ty::GetScreenInfo.code(), 2);
    assert_eq!(BitsOrder::from_u64(0), Some(BitsOrder::RedGreenBlueReserved));
}

#[test]
fn boot_allocator_takes_from_first_large_enough_conventional_range() {
    let mmap = vec![md(CONVENTIONAL_MEMORY, 0x1000, 1), md(2, 0x2000, 8), md(CONVENTIONAL_MEMORY, 0x10000, 4)];
    let mut a = Allocator::new(mmap);
    assert_eq!(a.allocate_frames(2), Some(0x10000));
    assert_eq!(a.allocate_frame(), Some(0x1000));
    assert_eq!(a.allocate_frames(3), None);
    assert_eq!(a.allocate_frames(2), Some(0x12000));
    let left = a.into_inner();
    assert_eq!(left[0].number_of_pages, 0);
    assert_eq!(left[2].physical_start, 0x14000);
    assert_eq!(left[2].number_of_pages, 0);
    assert!(Allocator::is_usable_memory(&left[0]));
    assert!(!is_conventional(&left[1]));
}

#[test]
fn file_names() {
    assert!(!name_too_long("kernel.elf"));
    assert!(!name_too_long(&"a".repeat(FAT_MAX_NAME)));
    assert!(name_too_long(&"a".repeat(FAT_MAX_NAME + 1)));
    let buf = name_to_u16_array("k\u{e9}").unwrap();
    assert_eq!(buf.len(), FAT_MAX_NAME + 1);
    assert_eq!(&buf[..3], &[0x6b, 0xe9, 0]);
    assert!(name_to_u16_array("\u{1f600}").is_none());
    assert!(name_to_u16_array(&"a".repeat(FAT_MAX_NAME + 2)).is_none());
}

#[test]
fn kbox_holds_value() {
    let b = Kbox::new(41u32);
    assert_eq!(*b.get(), 41);
    assert_eq!(b.into_inner(), 41);
}
