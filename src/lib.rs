//! Resource-management core of a small hypervisor kernel: demand paging
//! with an LRU page cache over a block store, and a multi-level feedback
//! queue scheduler, with their contracts proved.

pub mod bluetooth;
pub mod devices;
pub mod ethernet;
pub mod frame;
pub mod graphics;
pub mod lru;
pub mod manager;
pub mod network;
pub mod paging;
pub mod pci;
pub mod process;
pub mod ramdisk;
pub mod scheduler;
pub mod shell;
pub mod storage;
pub mod uart;
pub mod usb;
pub mod vm;
pub mod wifi;
