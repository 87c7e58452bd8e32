use ilo_lawa::drivers::block::{BlockDevice, BlockError, MemoryBlockDevice, SECTOR_SIZE};
use ilo_lawa::drivers::pci::{
    bar0_mmio_address, classify_mmio, classify_pci, format_dec, format_hex, mmio_block_message,
    mmio_device_address, mmio_unknown_message, pci_bar0_message, pci_block_message,
    pci_config_address, pci_unknown_message, split_vendor_device, MmioProbe, PciProbe,
    VIRTIO_MMIO_MAGIC,
};
use ilo_lawa::drivers::virtio::{virtio_read_len, virtio_write_blocks};

#[test]
fn hex_rendering() {
    assert_eq!(format_hex(0), "0");
    assert_eq!(format_hex(0xf), "f");
    assert_eq!(format_hex(0x10), "10");
    assert_eq!(format_hex(0xfeb0_0000), "feb00000");
    assert_eq!(format_hex(0x1AF4), "1af4");
    assert_eq!(format_hex(usize::MAX), "f".repeat(core::mem::size_of::<usize>() * 2));
}

#[test]
fn decimal_rendering() {
    assert_eq!(format_dec(0), "0");
    assert_eq!(format_dec(7), "7");
    assert_eq!(format_dec(42), "42");
    assert_eq!(format_dec(255), "255");
    assert_eq!(format_dec(999_999_999), "999999999");
}

#[test]
fn decimal_rendering_keeps_nine_digits() {
    // only nine digit slots: larger numbers lose their leading digits
    assert_eq!(format_dec(1_000_000_000), "000000000");
    assert_eq!(format_dec(4_294_967_295), "294967295");
    assert_eq!(format_dec(1_234_567_890), "234567890");
}

#[test]
fn mmio_windows() {
    assert_eq!(mmio_device_address(0), 0xfeb0_0000);
    assert_eq!(mmio_device_address(1), 0xfeb0_0200);
    assert_eq!(mmio_device_address(7), 0xfeb0_0e00);
}

#[test]
fn mmio_classification() {
    assert_eq!(classify_mmio(0, 2, 2), MmioProbe::NotVirtio);
    assert_eq!(classify_mmio(VIRTIO_MMIO_MAGIC, 1, 2), MmioProbe::NotVirtio);
    assert_eq!(classify_mmio(VIRTIO_MMIO_MAGIC, 2, 2), MmioProbe::Block);
    assert_eq!(classify_mmio(VIRTIO_MMIO_MAGIC, 2, 0), MmioProbe::Empty);
    assert_eq!(classify_mmio(VIRTIO_MMIO_MAGIC, 2, 1), MmioProbe::Unknown(1));
    assert_eq!(classify_mmio(0x7472_6976, 2, 16), MmioProbe::Unknown(16));
}

#[test]
fn mmio_messages() {
    assert_eq!(mmio_block_message(0xfeb0_0400), "Found VirtIO block device at 0xfeb00400\n");
    assert_eq!(mmio_unknown_message(16), "Found unknown VirtIO device with ID 16\n");
    assert_eq!(mmio_unknown_message(0), "Found unknown VirtIO device with ID 0\n");
}

#[test]
fn pci_addresses() {
    assert_eq!(pci_config_address(0, 0, 0, 0), 0x8000_0000);
    assert_eq!(pci_config_address(0, 3, 0, 0x10), 0x8000_1810);
    assert_eq!(pci_config_address(1, 2, 3, 0x13), 0x8001_1310);
    assert_eq!(pci_config_address(255, 31, 7, 0xFF), 0x80FF_FFFC);
    // the offset is rounded down to a whole register
    assert_eq!(pci_config_address(0, 0, 0, 0x03), 0x8000_0000);
}

#[test]
fn pci_classification() {
    assert_eq!(split_vendor_device(0x1001_1AF4), (0x1AF4, 0x1001));
    assert_eq!(split_vendor_device(0xFFFF_FFFF), (0xFFFF, 0xFFFF));
    assert_eq!(classify_pci(0xFFFF, 0xFFFF), PciProbe::Absent);
    assert_eq!(classify_pci(0x8086, 0x1237), PciProbe::Other);
    assert_eq!(classify_pci(0x1AF4, 0x1042), PciProbe::VirtioBlock);
    assert_eq!(classify_pci(0x1AF4, 0x1001), PciProbe::VirtioBlock);
    assert_eq!(classify_pci(0x1AF4, 0x1000), PciProbe::OtherVirtio(0x1000));
}

#[test]
fn pci_bar0() {
    assert_eq!(bar0_mmio_address(0xFEBD_5008), Some(0xFEBD_5000));
    assert_eq!(bar0_mmio_address(0xC041), None);
    assert_eq!(bar0_mmio_address(0), Some(0));
    assert_eq!(
        pci_bar0_message(0xFEBD_5000),
        "  BAR0 (MMIO): 0xfebd5000\n  Note: PCI device found but initialization not yet implemented\n"
    );
    assert_eq!(pci_bar0_message(0xC041), "");
}

#[test]
fn pci_messages() {
    assert_eq!(pci_block_message(0, 4), "Found VirtIO block device on PCI 0:4:0\n");
    assert_eq!(pci_block_message(255, 31), "Found VirtIO block device on PCI 255:31:0\n");
    assert_eq!(pci_unknown_message(0x1000), "Found unknown VirtIO device: 0x1000\n");
}

#[test]
fn virtio_read_checks() {
    assert!(matches!(virtio_read_len(false, 1), Err(BlockError::DeviceNotReady)));
    assert_eq!(virtio_read_len(true, 3).unwrap(), 3 * SECTOR_SIZE);
    assert_eq!(virtio_read_len(true, 0).unwrap(), 0);
}

#[test]
fn virtio_write_checks() {
    assert!(matches!(virtio_write_blocks(false, 512), Err(BlockError::DeviceNotReady)));
    assert!(matches!(virtio_write_blocks(true, 100), Err(BlockError::InvalidSector)));
    assert_eq!(virtio_write_blocks(true, 1024).unwrap(), 2);
    assert_eq!(virtio_write_blocks(true, 0).unwrap(), 0);
}

#[test]
fn block_device_geometry() {
    let dev = MemoryBlockDevice::new(1);
    assert_eq!(dev.sector_count(), 2048);
    assert_eq!(dev.capacity(), 1024 * 1024);
    let empty = MemoryBlockDevice::new(0);
    assert_eq!(empty.sector_count(), 0);
    assert_eq!(empty.capacity(), 0);
}

#[test]
fn block_device_read_after_write() {
    let mut dev = MemoryBlockDevice::new(1);
    let data: Vec<u8> = (0..1024).map(|i| (i % 251) as u8).collect();
    assert_eq!(dev.write_sectors(5, &data).unwrap(), 2);
    assert_eq!(dev.read_sectors(5, 2).unwrap(), data);
    assert_eq!(dev.read_sectors(6, 1).unwrap(), data[512..].to_vec());
    // neighbouring sectors are untouched
    assert_eq!(dev.read_sectors(4, 1).unwrap(), vec![0u8; 512]);
    assert_eq!(dev.read_sectors(7, 1).unwrap(), vec![0u8; 512]);
    assert!(dev.flush().is_ok());
}

#[test]
fn block_device_errors() {
    let mut dev = MemoryBlockDevice::new(1);
    assert!(matches!(dev.read_sectors(2048, 1), Err(BlockError::OutOfBounds)));
    assert!(matches!(dev.read_sectors(2047, 2), Err(BlockError::OutOfBounds)));
    assert!(matches!(dev.write_sectors(0, &[1u8; 100]), Err(BlockError::InvalidSector)));
    assert!(matches!(dev.write_sectors(2048, &[1u8; 512]), Err(BlockError::OutOfBounds)));
    assert!(matches!(dev.write_sectors(2047, &[1u8; 1024]), Err(BlockError::OutOfBounds)));
    assert_eq!(dev.read_sectors(2047, 1).unwrap(), vec![0u8; 512]);
    assert_eq!(dev.read_sectors(0, 0).unwrap(), Vec::<u8>::new());
}
