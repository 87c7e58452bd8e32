use ilo_lawa::fs::fat32::{
    find_file_entry, list_dir_cluster, parse_dir_entry, short_name, Fat32BootSector, Fat32FileSystem,
};
use ilo_lawa::fs::{FileSystem, FileSystemError};

fn sample_boot_sector() -> Fat32BootSector {
    Fat32BootSector {
        jmp_boot: [0xEB, 0x58, 0x90],
        oem_name: *b"ILOLAWA ",
        bytes_per_sector: 512,
        sectors_per_cluster: 8,
        reserved_sectors: 32,
        num_fats: 2,
        root_entries: 0,
        total_sectors_16: 0,
        media: 0xF8,
        fat_size_16: 0,
        sectors_per_track: 63,
        num_heads: 255,
        hidden_sectors: 0,
        total_sectors_32: 65536,
        fat_size_32: 256,
        ext_flags: 0,
        fs_version: 0,
        root_cluster: 2,
        fs_info: 1,
        backup_boot_sector: 6,
        reserved: [0; 12],
        drive_number: 0x80,
        reserved1: 0,
        boot_signature: 0x29,
        volume_id: 0x12345678,
        volume_label: *b"ILO-LAWA   ",
        fs_type: *b"FAT32   ",
    }
}

#[test]
fn boot_sector_layout() {
    let b = sample_boot_sector().to_bytes();
    assert_eq!(b.len(), 90);
    assert_eq!(&b[0..3], &[0xEB, 0x58, 0x90]);
    assert_eq!(&b[3..11], b"ILOLAWA ");
    assert_eq!(&b[11..13], &[0x00, 0x02]);
    assert_eq!(b[13], 8);
    assert_eq!(&b[14..16], &[32, 0]);
    assert_eq!(b[16], 2);
    assert_eq!(b[21], 0xF8);
    assert_eq!(&b[24..26], &[63, 0]);
    assert_eq!(&b[26..28], &[255, 0]);
    assert_eq!(&b[32..36], &[0x00, 0x00, 0x01, 0x00]);
    assert_eq!(&b[36..40], &[0x00, 0x01, 0x00, 0x00]);
    assert_eq!(&b[44..48], &[2, 0, 0, 0]);
    assert_eq!(&b[48..50], &[1, 0]);
    assert_eq!(&b[50..52], &[6, 0]);
    assert_eq!(b[64], 0x80);
    assert_eq!(b[66], 0x29);
    assert_eq!(&b[67..71], &[0x78, 0x56, 0x34, 0x12]);
    assert_eq!(&b[71..82], b"ILO-LAWA   ");
    assert_eq!(&b[82..90], b"FAT32   ");
}

#[test]
fn short_names() {
    assert_eq!(short_name(b"README  TXT"), "README.TXT");
    assert_eq!(short_name(b"KERNEL     "), "KERNEL");
    assert_eq!(short_name(b"A       B  "), "A.B");
    assert_eq!(short_name(b"AB CD   E F"), "ABCD.EF");
}

#[test]
fn directory_entries() {
    let mut raw = [0u8; 32];
    raw[..11].copy_from_slice(b"HELLO   TXT");
    raw[11] = 0x20;
    raw[20] = 0x01;
    raw[21] = 0x00;
    raw[26] = 0x34;
    raw[27] = 0x12;
    raw[28] = 0x10;
    raw[29] = 0x27;
    let e = parse_dir_entry(&raw).unwrap();
    assert_eq!(&e.name, b"HELLO   TXT");
    assert_eq!(e.attributes, 0x20);
    assert_eq!(e.first_cluster_high, 1);
    assert_eq!(e.first_cluster_low, 0x1234);
    assert_eq!(e.file_size, 10000);

    let mut end = raw;
    end[0] = 0x00;
    assert!(parse_dir_entry(&end).is_none());
    let mut deleted = raw;
    deleted[0] = 0xE5;
    assert!(parse_dir_entry(&deleted).is_none());
    assert!(parse_dir_entry(&raw[..31]).is_none());
}

#[test]
fn fresh_volume_is_empty() {
    let mut fs = Fat32FileSystem::new();
    assert!(fs.list_directory("/").unwrap().is_empty());
    assert!(matches!(fs.read_file("readme.txt"), Err(FileSystemError::NotFound)));
    assert!(matches!(fs.read_file("/a/b.txt"), Err(FileSystemError::NotFound)));
    assert_eq!(fs.get_current_directory(), "/");
}

#[test]
fn write_operations_are_not_implemented() {
    let mut fs = Fat32FileSystem::new();
    assert!(matches!(fs.write_file("a", b"x"), Err(FileSystemError::NotImplemented)));
    assert!(matches!(fs.create_file("a"), Err(FileSystemError::NotImplemented)));
    assert!(matches!(fs.delete_file("a"), Err(FileSystemError::NotImplemented)));
    assert!(matches!(fs.create_directory("a"), Err(FileSystemError::NotImplemented)));
    assert!(matches!(fs.delete_directory("a"), Err(FileSystemError::NotImplemented)));
    assert!(matches!(fs.set_current_directory("a"), Err(FileSystemError::NotImplemented)));
    assert!(!fs.path_exists("/"));
    assert!(!fs.is_directory("/"));
    assert!(!fs.is_file("a"));
}

fn slot(name: &[u8; 11], attributes: u8, size: u32) -> [u8; 32] {
    let mut raw = [0u8; 32];
    raw[..11].copy_from_slice(name);
    raw[11] = attributes;
    raw[26] = 5;
    raw[28..32].copy_from_slice(&size.to_le_bytes());
    raw
}

fn cluster_of(slots: &[[u8; 32]]) -> Vec<u8> {
    let mut c = Vec::new();
    for s in slots {
        c.extend_from_slice(s);
    }
    c.resize(4096, 0);
    c
}

#[test]
fn cluster_listing() {
    let mut deleted = slot(b"OLD     TXT", 0x20, 3);
    deleted[0] = 0xE5;
    let cluster = cluster_of(&[
        slot(b"ILO-LAWA   ", 0x08, 0),
        slot(b"README  TXT", 0x20, 24),
        slot(b"A       B  ", 0x0F, 0),
        deleted,
        slot(b"DOCS       ", 0x10, 0),
    ]);
    let entries = list_dir_cluster(&cluster);
    let got: Vec<(String, bool, u64)> =
        entries.into_iter().map(|e| (e.name, e.is_directory, e.size)).collect();
    assert_eq!(got, vec![("README.TXT".to_string(), false, 24), ("DOCS".to_string(), true, 0)]);
    assert!(list_dir_cluster(&[0u8; 4096]).is_empty());
}

#[test]
fn cluster_lookup_ignores_case() {
    let cluster = cluster_of(&[
        slot(b"DOCS       ", 0x10, 0),
        slot(b"README  TXT", 0x20, 24),
        slot(b"README  TXT", 0x20, 99),
    ]);
    let e = find_file_entry(&cluster, "readme.txt").unwrap();
    assert_eq!(e.file_size, 24);
    assert_eq!(e.first_cluster_low, 5);
    assert!(find_file_entry(&cluster, "README.TXT").is_none());
    assert!(find_file_entry(&cluster, "docs").is_none());
    assert!(find_file_entry(&cluster, "missing").is_none());
}
