pub mod address_space;
pub mod boot_allocator;
pub mod file_name;
pub mod frame_allocator;
pub mod initrd;
pub mod kbox;
pub mod kernel_stack;
pub mod memory_map;
pub mod pid;
pub mod process;
pub mod syscalls;
