//! Device drivers: the block device interface and the probing logic for
//! VirtIO devices.
pub mod block;
pub mod pci;
pub mod virtio;
