//! FAT32 filesystem over a disk image held in memory.
use vstd::prelude::*;
use vstd::string::StringExecFns;
use crate::fs::{FileSystem as FSTrait, FileSystemError, DirEntry};
use crate::text::{push_char, str_to_chars, chars_to_string, split_chars, seqs_of, spec_split, lowercase, spec_lowercase, eq_lit};
use crate::drivers::block::spec_write_bytes;

verus! {

pub const SECTOR_SIZE: usize = 512;

/// End of a cluster chain.
pub const FAT32_EOC: u32 = 0x0FFFFFFF;

/// A bad cluster.
pub const FAT32_BAD: u32 = 0x0FFFFFF7;

/// A free cluster.
pub const FAT32_FREE: u32 = 0x00000000;

pub const ATTR_READ_ONLY: u8 = 0x01;

pub const ATTR_HIDDEN: u8 = 0x02;

pub const ATTR_SYSTEM: u8 = 0x04;

pub const ATTR_VOLUME_ID: u8 = 0x08;

pub const ATTR_DIRECTORY: u8 = 0x10;

pub const ATTR_ARCHIVE: u8 = 0x20;

pub const ATTR_LONG_NAME: u8 = 0x0F;

/// Size of the in-memory disk image.
pub const DISK_SIZE: usize = 32 * 1024 * 1024;

/// The FAT32 boot sector (BIOS parameter block).
#[derive(Debug, Clone, Copy)]
pub struct Fat32BootSector {
    pub jmp_boot: [u8; 3],
    pub oem_name: [u8; 8],
    pub bytes_per_sector: u16,
    pub sectors_per_cluster: u8,
    pub reserved_sectors: u16,
    pub num_fats: u8,
    pub root_entries: u16,
    pub total_sectors_16: u16,
    pub media: u8,
    pub fat_size_16: u16,
    pub sectors_per_track: u16,
    pub num_heads: u16,
    pub hidden_sectors: u32,
    pub total_sectors_32: u32,
    pub fat_size_32: u32,
    pub ext_flags: u16,
    pub fs_version: u16,
    pub root_cluster: u32,
    pub fs_info: u16,
    pub backup_boot_sector: u16,
    pub reserved: [u8; 12],
    pub drive_number: u8,
    pub reserved1: u8,
    pub boot_signature: u8,
    pub volume_id: u32,
    pub volume_label: [u8; 11],
    pub fs_type: [u8; 8],
}

/// A 32-byte FAT32 directory entry.
#[derive(Debug, Clone, Copy)]
pub struct Fat32DirEntry {
    pub name: [u8; 11],
    pub attributes: u8,
    pub reserved: u8,
    pub creation_time_tenth: u8,
    pub creation_time: u16,
    pub creation_date: u16,
    pub last_access_date: u16,
    pub first_cluster_high: u16,
    pub write_time: u16,
    pub write_date: u16,
    pub first_cluster_low: u16,
    pub file_size: u32,
}

/// Little-endian encoding of a 16-bit value.
pub open spec fn le16_bytes(x: u16) -> Seq<u8> {
    seq![(x & 0xff) as u8, (x >> 8) as u8]
}

/// Little-endian encoding of a 32-bit value.
pub open spec fn le32_bytes(x: u32) -> Seq<u8> {
    seq![(x & 0xff) as u8, ((x >> 8) & 0xff) as u8, ((x >> 16) & 0xff) as u8, (x >> 24) as u8]
}

/// The 16-bit value stored little-endian at `off`.
pub open spec fn le16_at(b: Seq<u8>, off: int) -> u16 {
    ((b[off] as u16) | ((b[off + 1] as u16) << 8)) as u16
}

/// The 32-bit value stored little-endian at `off`.
pub open spec fn le32_at(b: Seq<u8>, off: int) -> u32 {
    ((b[off] as u32) | ((b[off + 1] as u32) << 8) | ((b[off + 2] as u32) << 16) | ((b[off + 3]
        as u32) << 24)) as u32
}

/// The 90 bytes of the boot sector as the packed on-disk layout holds them.
pub open spec fn spec_boot_sector_bytes(b: Fat32BootSector) -> Seq<u8> {
    b.jmp_boot@ + b.oem_name@ + le16_bytes(b.bytes_per_sector) + seq![b.sectors_per_cluster]
        + le16_bytes(b.reserved_sectors) + seq![b.num_fats] + le16_bytes(b.root_entries)
        + le16_bytes(b.total_sectors_16) + seq![b.media] + le16_bytes(b.fat_size_16) + le16_bytes(
        b.sectors_per_track,
    ) + le16_bytes(b.num_heads) + le32_bytes(b.hidden_sectors) + le32_bytes(b.total_sectors_32)
        + le32_bytes(b.fat_size_32) + le16_bytes(b.ext_flags) + le16_bytes(b.fs_version)
        + le32_bytes(b.root_cluster) + le16_bytes(b.fs_info) + le16_bytes(b.backup_boot_sector)
        + b.reserved@ + seq![b.drive_number, b.reserved1, b.boot_signature] + le32_bytes(
        b.volume_id,
    ) + b.volume_label@ + b.fs_type@
}

fn push_le16(out: &mut Vec<u8>, x: u16)
    ensures
        final(out)@ == old(out)@ + le16_bytes(x),
{
    out.push((x & 0xff) as u8);
    out.push((x >> 8) as u8);
    assert(final(out)@ =~= old(out)@ + le16_bytes(x));
}

fn push_le32(out: &mut Vec<u8>, x: u32)
    ensures
        final(out)@ == old(out)@ + le32_bytes(x),
{
    out.push((x & 0xff) as u8);
    out.push(((x >> 8) & 0xff) as u8);
    out.push(((x >> 16) & 0xff) as u8);
    out.push((x >> 24) as u8);
    assert(final(out)@ =~= old(out)@ + le32_bytes(x));
}

fn push_array(out: &mut Vec<u8>, a: &[u8])
    ensures
        final(out)@ == old(out)@ + a@,
{
    let mut i: usize = 0;
    while i < a.len()
        invariant
            i <= a@.len(),
            out@ == old(out)@ + a@.take(i as int),
        decreases a@.len() - i,
    {
        out.push(a[i]);
        assert(out@ =~= old(out)@ + a@.take(i + 1));
        i = i + 1;
    }
    assert(a@.take(a@.len() as int) =~= a@);
}

impl Fat32BootSector {
    /// The packed little-endian on-disk form of the boot sector.
    pub fn to_bytes(&self) -> (r: Vec<u8>)
        ensures
            r@ == spec_boot_sector_bytes(*self),
    {
        let mut out: Vec<u8> = Vec::new();
        push_array(&mut out, self.jmp_boot.as_slice());
        push_array(&mut out, self.oem_name.as_slice());
        push_le16(&mut out, self.bytes_per_sector);
        out.push(self.sectors_per_cluster);
        push_le16(&mut out, self.reserved_sectors);
        out.push(self.num_fats);
        push_le16(&mut out, self.root_entries);
        push_le16(&mut out, self.total_sectors_16);
        out.push(self.media);
        push_le16(&mut out, self.fat_size_16);
        push_le16(&mut out, self.sectors_per_track);
        push_le16(&mut out, self.num_heads);
        push_le32(&mut out, self.hidden_sectors);
        push_le32(&mut out, self.total_sectors_32);
        push_le32(&mut out, self.fat_size_32);
        push_le16(&mut out, self.ext_flags);
        push_le16(&mut out, self.fs_version);
        push_le32(&mut out, self.root_cluster);
        push_le16(&mut out, self.fs_info);
        push_le16(&mut out, self.backup_boot_sector);
        push_array(&mut out, self.reserved.as_slice());
        out.push(self.drive_number);
        out.push(self.reserved1);
        out.push(self.boot_signature);
        push_le32(&mut out, self.volume_id);
        push_array(&mut out, self.volume_label.as_slice());
        push_array(&mut out, self.fs_type.as_slice());
        assert(out@ =~= spec_boot_sector_bytes(*self));
        out
    }
}

/// The image written by `Fat32FileSystem::new`: the boot sector with its
/// signature, and both FAT copies starting with the media entry and two
/// end-of-chain entries (the second for the root directory's cluster 2).
pub open spec fn spec_initial_disk(boot: Fat32BootSector) -> Seq<u8> {
    let fat_init = le32_bytes(0x0FFFFFF8) + le32_bytes(FAT32_EOC) + le32_bytes(FAT32_EOC);
    spec_write_bytes(
        spec_write_bytes(
            spec_write_bytes(
                spec_write_bytes(Seq::new(DISK_SIZE as nat, |k: int| 0u8), 0, spec_boot_sector_bytes(boot)),
                510int,
                seq![0x55u8, 0xAAu8],
            ),
            16384int,
            fat_init,
        ),
        147456int,
        fat_init,
    )
}

/// The boot sector of the image `new` creates.
pub open spec fn spec_default_boot_sector(b: Fat32BootSector) -> bool {
    &&& b.jmp_boot@ == seq![0xEBu8, 0x58u8, 0x90u8]
    &&& b.bytes_per_sector == 512
    &&& b.sectors_per_cluster == 8
    &&& b.reserved_sectors == 32
    &&& b.num_fats == 2
    &&& b.root_entries == 0
    &&& b.total_sectors_16 == 0
    &&& b.media == 0xF8
    &&& b.fat_size_16 == 0
    &&& b.sectors_per_track == 63
    &&& b.num_heads == 255
    &&& b.hidden_sectors == 0
    &&& b.total_sectors_32 == 65536
    &&& b.fat_size_32 == 256
    &&& b.ext_flags == 0
    &&& b.fs_version == 0
    &&& b.root_cluster == 2
    &&& b.fs_info == 1
    &&& b.backup_boot_sector == 6
    &&& b.reserved@ == Seq::new(12, |i: int| 0u8)
    &&& b.drive_number == 0x80
    &&& b.reserved1 == 0
    &&& b.boot_signature == 0x29
    &&& b.volume_id == 0x12345678
    &&& b.oem_name@ == seq![0x49u8, 0x4Cu8, 0x4Fu8, 0x4Cu8, 0x41u8, 0x57u8, 0x41u8, 0x20u8]
    &&& b.volume_label@ == seq![
        0x49u8,
        0x4Cu8,
        0x4Fu8,
        0x2Du8,
        0x4Cu8,
        0x41u8,
        0x57u8,
        0x41u8,
        0x20u8,
        0x20u8,
        0x20u8,
    ]
    &&& b.fs_type@ == seq![0x46u8, 0x41u8, 0x54u8, 0x33u8, 0x32u8, 0x20u8, 0x20u8, 0x20u8]
}

/// Byte offset of the first sector of the root directory's cluster.
pub const ROOT_DIR_OFFSET: usize = 544 * 512;

/// Bytes per cluster of the image.
pub const CLUSTER_BYTES: usize = 8 * 512;

/// Writes `bytes` into `disk` at byte offset `at`.
fn write_bytes(disk: &mut Vec<u8>, at: usize, bytes: &[u8])
    requires
        at + bytes@.len() <= old(disk)@.len(),
    ensures
        final(disk)@ == spec_write_bytes(old(disk)@, at as int, bytes@),
{
    let ghost start = disk@;
    let n = disk.len();
    let mut i: usize = 0;
    while i < bytes.len()
        invariant
            n == start.len(),
            at + bytes@.len() <= start.len(),
            disk@.len() == start.len(),
            i <= bytes@.len(),
            disk@ == spec_write_bytes(start, at as int, bytes@.take(i as int)),
        decreases bytes@.len() - i,
    {
        disk.set(at + i, bytes[i]);
        assert(disk@ =~= spec_write_bytes(start, at as int, bytes@.take(i + 1)));
        i = i + 1;
    }
    assert(bytes@.take(bytes@.len() as int) =~= bytes@);
}

/// The 8.3 name of a directory entry: the base name without its padding
/// spaces, then a dot and the extension without padding when the extension
/// is not blank.
pub open spec fn spec_short_name(name: Seq<u8>) -> Seq<char> {
    non_space_chars(name.take(8)) + if name[8] != 0x20 {
        seq!['.'] + non_space_chars(name.subrange(8, 11))
    } else {
        Seq::<char>::empty()
    }
}

/// The bytes of `s` that are not spaces, as characters.
pub open spec fn non_space_chars(s: Seq<u8>) -> Seq<char>
    decreases s.len(),
{
    if s.len() == 0 {
        Seq::empty()
    } else if s.last() != 0x20 {
        non_space_chars(s.drop_last()).push(s.last() as char)
    } else {
        non_space_chars(s.drop_last())
    }
}

fn push_non_space(out: &mut String, name: &[u8], start: usize, end: usize)
    requires
        start <= end <= name@.len(),
    ensures
        final(out)@ == old(out)@ + non_space_chars(name@.subrange(start as int, end as int)),
{
    let mut i = start;
    while i < end
        invariant
            start <= i <= end <= name@.len(),
            out@ == old(out)@ + non_space_chars(name@.subrange(start as int, i as int)),
        decreases end - i,
    {
        assert(name@.subrange(start as int, i + 1).drop_last() =~= name@.subrange(
            start as int,
            i as int,
        ));
        if name[i] != 0x20 {
            push_char(out, name[i] as char);
        }
        assert(out@ =~= old(out)@ + non_space_chars(name@.subrange(start as int, i + 1)));
        i = i + 1;
    }
}

/// Renders the 8.3 name of a directory entry.
pub fn short_name(name: &[u8; 11]) -> (r: String)
    ensures
        r@ == spec_short_name(name@),
{
    let mut r = String::new();
    push_non_space(&mut r, name.as_slice(), 0, 8);
    assert(name@.subrange(0, 8) =~= name@.take(8));
    if name[8] != 0x20 {
        push_char(&mut r, '.');
        push_non_space(&mut r, name.as_slice(), 8, 11);
    }
    assert(r@ =~= spec_short_name(name@));
    r
}

/// Whether `e` holds the fields stored in the 32 bytes `b`.
pub open spec fn entry_from_bytes(e: Fat32DirEntry, b: Seq<u8>) -> bool {
    &&& e.name@ == b.take(11)
    &&& e.attributes == b[11]
    &&& e.reserved == b[12]
    &&& e.creation_time_tenth == b[13]
    &&& e.creation_time == le16_at(b, 14)
    &&& e.creation_date == le16_at(b, 16)
    &&& e.last_access_date == le16_at(b, 18)
    &&& e.first_cluster_high == le16_at(b, 20)
    &&& e.write_time == le16_at(b, 22)
    &&& e.write_date == le16_at(b, 24)
    &&& e.first_cluster_low == le16_at(b, 26)
    &&& e.file_size == le32_at(b, 28)
}

/// Whether the bytes hold an entry in use: long enough, not the end marker
/// (first byte 0) and not deleted (first byte 0xE5).
pub open spec fn entry_in_use(b: Seq<u8>) -> bool {
    b.len() >= 32 && b[0] != 0x00 && b[0] != 0xE5
}

fn le16_from(b: &[u8], off: usize) -> (r: u16)
    requires
        off + 2 <= b@.len(),
    ensures
        r == le16_at(b@, off as int),
{
    ((b[off] as u16) | ((b[off + 1] as u16) << 8)) as u16
}

fn le32_from(b: &[u8], off: usize) -> (r: u32)
    requires
        off + 4 <= b@.len(),
    ensures
        r == le32_at(b@, off as int),
{
    (b[off] as u32) | ((b[off + 1] as u32) << 8) | ((b[off + 2] as u32) << 16) | ((b[off + 3]
        as u32) << 24)
}

/// Decodes a directory entry from its 32 bytes; `None` for the end marker,
/// a deleted entry, or too few bytes.
pub fn parse_dir_entry(entry_bytes: &[u8]) -> (r: Option<Fat32DirEntry>)
    ensures
        match r {
            Some(e) => entry_in_use(entry_bytes@) && entry_from_bytes(e, entry_bytes@),
            None => !entry_in_use(entry_bytes@),
        },
{
    if entry_bytes.len() < 32 || entry_bytes[0] == 0x00 || entry_bytes[0] == 0xE5 {
        return None;
    }
    let b = entry_bytes;
    let e = Fat32DirEntry {
        name: [b[0], b[1], b[2], b[3], b[4], b[5], b[6], b[7], b[8], b[9], b[10]],
        attributes: b[11],
        reserved: b[12],
        creation_time_tenth: b[13],
        creation_time: le16_from(b, 14),
        creation_date: le16_from(b, 16),
        last_access_date: le16_from(b, 18),
        first_cluster_high: le16_from(b, 20),
        write_time: le16_from(b, 22),
        write_date: le16_from(b, 24),
        first_cluster_low: le16_from(b, 26),
        file_size: le32_from(b, 28),
    };
    assert(e.name@ =~= b@.take(11));
    Some(e)
}

/// The 32 bytes of directory slot `i` of a directory cluster.
pub open spec fn dir_slot(b: Seq<u8>, i: int) -> Seq<u8> {
    b.subrange(i * 32, i * 32 + 32)
}

/// Whether a slot is listed: in use, and neither a long-name part nor a
/// volume label.
pub open spec fn slot_listed(s: Seq<u8>) -> bool {
    entry_in_use(s) && s[11] & (ATTR_LONG_NAME | ATTR_VOLUME_ID) == 0
}

/// Name, directory flag and size of the entry in a slot.
pub open spec fn slot_listing(s: Seq<u8>) -> (Seq<char>, bool, u64) {
    (spec_short_name(s.take(11)), s[11] & ATTR_DIRECTORY != 0, le32_at(s, 28) as u64)
}

/// The listing of the first `n` slots of a directory cluster, in order.
pub open spec fn spec_dir_listing(b: Seq<u8>, n: nat) -> Seq<(Seq<char>, bool, u64)>
    decreases n,
{
    if n == 0 {
        Seq::empty()
    } else if slot_listed(dir_slot(b, n - 1)) {
        spec_dir_listing(b, (n - 1) as nat).push(slot_listing(dir_slot(b, n - 1)))
    } else {
        spec_dir_listing(b, (n - 1) as nat)
    }
}

/// Whether `v` holds the listing `l`, entry by entry.
pub open spec fn holds_listing(v: Seq<DirEntry>, l: Seq<(Seq<char>, bool, u64)>) -> bool {
    &&& v.len() == l.len()
    &&& forall|i: int|
        0 <= i < v.len() ==> {
            &&& #[trigger] v[i].name@ == l[i].0
            &&& v[i].is_directory == l[i].1
            &&& v[i].size == l[i].2
        }
}

proof fn lemma_push_listing(
    v: Seq<DirEntry>,
    l: Seq<(Seq<char>, bool, u64)>,
    d: DirEntry,
    x: (Seq<char>, bool, u64),
)
    requires
        holds_listing(v, l),
        d.name@ == x.0,
        d.is_directory == x.1,
        d.size == x.2,
    ensures
        holds_listing(v.push(d), l.push(x)),
{
    assert forall|i: int| 0 <= i < v.push(d).len() implies {
        &&& #[trigger] v.push(d)[i].name@ == l.push(x)[i].0
        &&& v.push(d)[i].is_directory == l.push(x)[i].1
        &&& v.push(d)[i].size == l.push(x)[i].2
    } by {
        if i < v.len() {
            assert(v.push(d)[i] == v[i]);
            assert(l.push(x)[i] == l[i]);
        }
    }
}

/// Lists the entries of a directory cluster: every in-use slot that is
/// neither a long-name part nor a volume label, with its 8.3 name, its
/// directory flag and its size.
pub fn list_dir_cluster(cluster: &[u8]) -> (r: Vec<DirEntry>)
    ensures
        holds_listing(r@, spec_dir_listing(cluster@, cluster@.len() / 32)),
{
    let mut entries: Vec<DirEntry> = Vec::new();
    let n = cluster.len();
    let count = n / 32;
    let mut i: usize = 0;
    while i < count
        invariant
            n == cluster@.len(),
            count == cluster@.len() / 32,
            i <= count,
            holds_listing(entries@, spec_dir_listing(cluster@, i as nat)),
        decreases count - i,
    {
        assert((i + 1) * 32 <= n) by (nonlinear_arith)
            requires
                i < count,
                count == n / 32,
        ;
        let entry_bytes = vstd::slice::slice_subrange(cluster, i * 32, (i + 1) * 32);
        assert(entry_bytes@ =~= dir_slot(cluster@, i as int));
        let ghost slot = dir_slot(cluster@, i as int);
        let ghost before = entries@;
        let ghost prev = spec_dir_listing(cluster@, i as nat);
        assert(spec_dir_listing(cluster@, (i + 1) as nat) == if slot_listed(slot) {
            prev.push(slot_listing(slot))
        } else {
            prev
        });
        if let Some(entry) = parse_dir_entry(entry_bytes) {
            if entry.attributes & (ATTR_LONG_NAME | ATTR_VOLUME_ID) == 0 {
                let name = short_name(&entry.name);
                let d = DirEntry {
                    name,
                    is_directory: (entry.attributes & ATTR_DIRECTORY) != 0,
                    size: entry.file_size as u64,
                };
                assert(slot_listed(slot));
                assert(d.name@ == slot_listing(slot).0);
                entries.push(d);
                assert(entries@[before.len() as int] == d);
                proof {
                    lemma_push_listing(before, prev, d, slot_listing(slot));
                }
            } else {
                assert(!slot_listed(slot));
            }
        } else {
            assert(!slot_listed(slot));
        }
        i = i + 1;
    }
    entries
}

/// Whether a slot holds a file (in use, neither a directory nor a volume
/// label) whose 8.3 name, lowercased, is `target`.
pub open spec fn slot_names_file(s: Seq<u8>, target: Seq<char>) -> bool {
    &&& entry_in_use(s)
    &&& s[11] & (ATTR_DIRECTORY | ATTR_VOLUME_ID) == 0
    &&& spec_lowercase(spec_short_name(s.take(11))) == target
}

/// The first of the first `n` slots that holds the file `target`.
pub open spec fn spec_file_slot(b: Seq<u8>, target: Seq<char>, n: nat) -> Option<int>
    decreases n,
{
    if n == 0 {
        None
    } else {
        match spec_file_slot(b, target, (n - 1) as nat) {
            Some(i) => Some(i),
            None => if slot_names_file(dir_slot(b, n - 1), target) {
                Some(n - 1)
            } else {
                None
            },
        }
    }
}

/// Finds the entry of the file whose 8.3 name, lowercased, is `target`
/// among the slots of a directory cluster; the first such slot wins.
pub fn find_file_entry(cluster: &[u8], target: &str) -> (r: Option<Fat32DirEntry>)
    ensures
        match spec_file_slot(cluster@, target@, cluster@.len() / 32) {
            Some(i) => r matches Some(e) && entry_from_bytes(e, dir_slot(cluster@, i)),
            None => r is None,
        },
{
    let n = cluster.len();
    let count = n / 32;
    let mut i: usize = 0;
    while i < count
        invariant
            n == cluster@.len(),
            count == cluster@.len() / 32,
            i <= count,
            spec_file_slot(cluster@, target@, i as nat) is None,
        decreases count - i,
    {
        assert((i + 1) * 32 <= n) by (nonlinear_arith)
            requires
                i < count,
                count == n / 32,
        ;
        let entry_bytes = vstd::slice::slice_subrange(cluster, i * 32, (i + 1) * 32);
        assert(entry_bytes@ =~= dir_slot(cluster@, i as int));
        if let Some(entry) = parse_dir_entry(entry_bytes) {
            if entry.attributes & (ATTR_DIRECTORY | ATTR_VOLUME_ID) == 0 {
                let name = short_name(&entry.name);
                let lower = lowercase(name.as_str());
                if eq_lit(&lower, target) {
                    proof {
                        lemma_file_slot_after(cluster@, target@, (i + 1) as nat, count as nat);
                    }
                    return Some(entry);
                }
            }
        }
        i = i + 1;
    }
    None
}

/// A slot found among the first `m` slots is still the one found among
/// more.
proof fn lemma_file_slot_after(b: Seq<u8>, target: Seq<char>, m: nat, n: nat)
    requires
        m <= n,
        spec_file_slot(b, target, m) is Some,
    ensures
        spec_file_slot(b, target, n) == spec_file_slot(b, target, m),
    decreases n - m,
{
    if m < n {
        lemma_file_slot_after(b, target, m, (n - 1) as nat);
    }
}

/// Whether slot `i` of `b` holds the file `target`, by the directory entry
/// format: the slot is in use (first byte neither 0x00 nor 0xE5), its
/// attribute byte has neither the directory bit 0x10 nor the volume-label
/// bit 0x08 (the read-only, hidden, system and archive bits do not
/// matter), and its 8.3 name lowercased is `target`.
pub open spec fn holds_file(b: Seq<u8>, target: Seq<char>, i: int) -> bool {
    &&& b[i * 32] != 0x00
    &&& b[i * 32] != 0xE5
    &&& b[i * 32 + 11] & 0x10 == 0
    &&& b[i * 32 + 11] & 0x08 == 0
    &&& spec_lowercase(spec_short_name(b.subrange(i * 32, i * 32 + 11))) == target
}

/// The lookup finds the first slot that holds the file: a file in slot `i`
/// is found, in that slot or an earlier one, and a slot found holds the
/// file and no earlier slot does.
pub proof fn law_file_lookup(b: Seq<u8>, target: Seq<char>, n: nat, i: int)
    requires
        n * 32 <= b.len(),
    ensures
        0 <= i < n && holds_file(b, target, i) ==> (spec_file_slot(b, target, n) matches Some(j)
            && j <= i),
        spec_file_slot(b, target, n) matches Some(j) ==> 0 <= j < n && holds_file(b, target, j)
            && forall|k: int| 0 <= k < j ==> !holds_file(b, target, k),
    decreases n,
{
    assert(forall|a: u8| #[trigger] (a & 0x18u8) == 0 <==> (a & 0x10u8 == 0 && a & 0x08u8 == 0))
        by (bit_vector);
    assert(ATTR_DIRECTORY | ATTR_VOLUME_ID == 0x18u8) by (bit_vector);
    assert forall|k: int| 0 <= k && k * 32 + 32 <= b.len() implies #[trigger] slot_names_file(
        dir_slot(b, k),
        target,
    ) == holds_file(b, target, k) by {
        assert(dir_slot(b, k).take(11) =~= b.subrange(k * 32, k * 32 + 11));
        assert(dir_slot(b, k)[0] == b[k * 32]);
        assert(dir_slot(b, k)[11] == b[k * 32 + 11]);
    }
    if n > 0 {
        law_file_lookup(b, target, (n - 1) as nat, i);
        law_file_lookup(b, target, (n - 1) as nat, n - 1);
        assert(slot_names_file(dir_slot(b, n - 1), target) == holds_file(b, target, n - 1));
        if let Some(j) = spec_file_slot(b, target, (n - 1) as nat) {
            assert forall|k: int| 0 <= k < j implies !holds_file(b, target, k) by {
                law_file_lookup(b, target, (n - 1) as nat, k);
            }
        } else {
            assert forall|k: int| 0 <= k < n - 1 implies !holds_file(b, target, k) by {
                law_file_lookup(b, target, (n - 1) as nat, k);
            }
        }
    }
}

/// A cluster whose slots are all unused lists nothing and holds no file.
proof fn lemma_unused_cluster(b: Seq<u8>, target: Seq<char>, n: nat)
    requires
        n * 32 <= b.len(),
        forall|i: int| 0 <= i < n ==> !entry_in_use(#[trigger] dir_slot(b, i)),
    ensures
        spec_dir_listing(b, n).len() == 0,
        spec_file_slot(b, target, n) is None,
    decreases n,
{
    if n > 0 {
        assert(!entry_in_use(dir_slot(b, n - 1)));
        lemma_unused_cluster(b, target, (n - 1) as nat);
    }
}

/// The FAT32 filesystem over its in-memory disk image.
pub struct Fat32FileSystem {
    disk: Vec<u8>,
    boot_sector: Fat32BootSector,
    fat_start_sector: u32,
    data_start_sector: u32,
    current_dir_cluster: u32,
}

impl Fat32FileSystem {
    /// The filesystem is the image `new` built: its geometry, and a root
    /// directory cluster that holds no entry.
    #[verifier::type_invariant]
    spec fn inv(&self) -> bool {
        &&& self.disk@.len() == DISK_SIZE
        &&& self.boot_sector.sectors_per_cluster == 8
        &&& self.fat_start_sector == 32
        &&& self.data_start_sector == 544
        &&& self.current_dir_cluster == 2
        &&& forall|k: int|
            ROOT_DIR_OFFSET <= k < ROOT_DIR_OFFSET + CLUSTER_BYTES ==> #[trigger] self.disk@[k]
                == 0
    }

    /// The disk image.
    pub closed spec fn disk(&self) -> Seq<u8> {
        self.disk@
    }

    /// The boot sector.
    pub closed spec fn boot_sector(&self) -> Fat32BootSector {
        self.boot_sector
    }

    /// First sector of the first FAT.
    pub closed spec fn fat_start(&self) -> u32 {
        self.fat_start_sector
    }

    /// First sector of the data area (cluster 2).
    pub closed spec fn data_start(&self) -> u32 {
        self.data_start_sector
    }

    /// Cluster of the current directory.
    pub closed spec fn current_cluster(&self) -> u32 {
        self.current_dir_cluster
    }

    /// A 32 MiB image with a FAT32 boot sector (4 KiB clusters, 32
    /// reserved sectors, two FATs of 256 sectors) and an empty root
    /// directory at cluster 2.
    pub fn new() -> (fs: Self)
        ensures
            spec_default_boot_sector(fs.boot_sector()),
            fs.disk() == spec_initial_disk(fs.boot_sector()),
            fs.fat_start() == 32,
            fs.data_start() == 544,
            fs.current_cluster() == 2,
    {
        let mut disk = vec![0u8; DISK_SIZE];
        let boot_sector = Fat32BootSector {
            jmp_boot: [0xEB, 0x58, 0x90],
            oem_name: [0x49, 0x4C, 0x4F, 0x4C, 0x41, 0x57, 0x41, 0x20],
            bytes_per_sector: 512,
            sectors_per_cluster: 8,
            reserved_sectors: 32,
            num_fats: 2,
            root_entries: 0,
            total_sectors_16: 0,
            media: 0xF8,
            fat_size_16: 0,
            sectors_per_track: 63,
            num_heads: 255,
            hidden_sectors: 0,
            total_sectors_32: 65536,
            fat_size_32: 256,
            ext_flags: 0,
            fs_version: 0,
            root_cluster: 2,
            fs_info: 1,
            backup_boot_sector: 6,
            reserved: [0, 0, 0, 0, 0, 0, 0, 0, 0, 0, 0, 0],
            drive_number: 0x80,
            reserved1: 0,
            boot_signature: 0x29,
            volume_id: 0x12345678,
            volume_label: [0x49, 0x4C, 0x4F, 0x2D, 0x4C, 0x41, 0x57, 0x41, 0x20, 0x20, 0x20],
            fs_type: [0x46, 0x41, 0x54, 0x33, 0x32, 0x20, 0x20, 0x20],
        };
        assert(boot_sector.reserved@ =~= Seq::new(12, |i: int| 0u8));
        assert(boot_sector.oem_name@ =~= seq![0x49u8, 0x4Cu8, 0x4Fu8, 0x4Cu8, 0x41u8, 0x57u8, 0x41u8, 0x20u8]);
        assert(boot_sector.volume_label@ =~= seq![
            0x49u8,
            0x4Cu8,
            0x4Fu8,
            0x2Du8,
            0x4Cu8,
            0x41u8,
            0x57u8,
            0x41u8,
            0x20u8,
            0x20u8,
            0x20u8,
        ]);
        assert(boot_sector.fs_type@ =~= seq![0x46u8, 0x41u8, 0x54u8, 0x33u8, 0x32u8, 0x20u8, 0x20u8, 0x20u8]);
        assert(disk@ =~= Seq::new(DISK_SIZE as nat, |k: int| 0u8));
        let boot_bytes = boot_sector.to_bytes();
        assert(boot_bytes@.len() == 90);
        write_bytes(&mut disk, 0, boot_bytes.as_slice());
        let mut signature: Vec<u8> = Vec::new();
        signature.push(0x55);
        signature.push(0xAA);
        assert(signature@ =~= seq![0x55u8, 0xAAu8]);
        write_bytes(&mut disk, 510, signature.as_slice());
        let fat_start = boot_sector.reserved_sectors as usize * SECTOR_SIZE;
        let fat_size = boot_sector.fat_size_32 as usize * SECTOR_SIZE;
        let mut fat_init: Vec<u8> = Vec::new();
        push_le32(&mut fat_init, 0x0FFFFFF8);
        push_le32(&mut fat_init, FAT32_EOC);
        push_le32(&mut fat_init, FAT32_EOC);
        write_bytes(&mut disk, fat_start, fat_init.as_slice());
        let fat2_start = fat_start + fat_size;
        let fat_data = vstd::slice::slice_to_vec(
            vstd::slice::slice_subrange(disk.as_slice(), fat_start, fat_start + 12),
        );
        proof {
            crate::drivers::block::law_read_after_write(
                spec_write_bytes(
                    spec_write_bytes(
                        Seq::new(DISK_SIZE as nat, |k: int| 0u8),
                        0,
                        spec_boot_sector_bytes(boot_sector),
                    ),
                    510,
                    seq![0x55u8, 0xAAu8],
                ),
                fat_start as int,
                fat_init@,
            );
        }
        assert(fat_data@ =~= fat_init@);
        write_bytes(&mut disk, fat2_start, fat_data.as_slice());
        let fs = Fat32FileSystem {
            disk,
            boot_sector,
            fat_start_sector: boot_sector.reserved_sectors as u32,
            data_start_sector: boot_sector.reserved_sectors as u32 + (boot_sector.num_fats as u32
                * boot_sector.fat_size_32),
            current_dir_cluster: 2,
        };
        assert(fs.disk@ == spec_initial_disk(boot_sector));
        proof {
            lemma_initial_root_dir_empty(boot_sector);
        }
        fs
    }

    /// First sector of a data cluster.
    fn cluster_to_sector(&self, cluster: u32) -> (r: u32)
        requires
            cluster >= 2,
            self.data_start_sector + (cluster - 2) * self.boot_sector.sectors_per_cluster
                <= u32::MAX,
        ensures
            r == self.data_start_sector + (cluster - 2) * self.boot_sector.sectors_per_cluster,
    {
        self.data_start_sector + (cluster - 2) * self.boot_sector.sectors_per_cluster as u32
    }

    /// The bytes of a data cluster.
    fn read_cluster(&self, cluster: u32) -> (r: Vec<u8>)
        requires
            cluster >= 2,
            cluster_in_disk(self.data_start_sector, self.boot_sector.sectors_per_cluster, cluster, self.disk@.len()),
        ensures
            r@ == self.disk@.subrange(
                cluster_offset(self.data_start_sector, self.boot_sector.sectors_per_cluster, cluster),
                cluster_offset(self.data_start_sector, self.boot_sector.sectors_per_cluster, cluster)
                    + self.boot_sector.sectors_per_cluster * 512,
            ),
    {
        let n = self.disk.len();
        let sector = self.cluster_to_sector(cluster);
        let offset = sector as usize * SECTOR_SIZE;
        let size = self.boot_sector.sectors_per_cluster as usize * SECTOR_SIZE;
        vstd::slice::slice_to_vec(
            vstd::slice::slice_subrange(self.disk.as_slice(), offset, offset + size),
        )
    }

    /// The FAT entry of `cluster`, without its reserved top four bits.
    fn get_fat_entry(&self, cluster: u32) -> (r: u32)
        requires
            cluster * 4 <= u32::MAX,
            self.fat_start_sector + cluster * 4 / 512 <= u32::MAX,
            (self.fat_start_sector + cluster * 4 / 512) * 512 + cluster * 4 % 512 + 4 <= self.disk@.len(),
        ensures
            r == spec_fat_entry(self.disk@, self.fat_start_sector, cluster),
    {
        let n = self.disk.len();
        let fat_offset = cluster * 4;
        let fat_sector = self.fat_start_sector + (fat_offset / SECTOR_SIZE as u32);
        let fat_entry_offset = (fat_offset % SECTOR_SIZE as u32) as usize;
        let sector_offset = fat_sector as usize * SECTOR_SIZE;
        le32_from(self.disk.as_slice(), sector_offset + fat_entry_offset) & 0x0FFFFFFF
    }
}

/// Byte offset of a data cluster.
pub open spec fn cluster_offset(data_start: u32, spc: u8, cluster: u32) -> int {
    (data_start + (cluster - 2) * spc) * 512
}

/// Whether a data cluster lies inside a disk of `len` bytes.
pub open spec fn cluster_in_disk(data_start: u32, spc: u8, cluster: u32, len: nat) -> bool {
    &&& data_start + (cluster - 2) * spc <= u32::MAX
    &&& cluster_offset(data_start, spc, cluster) + spc * 512 <= len
}

/// The FAT entry of `cluster`, without its reserved top four bits.
pub open spec fn spec_fat_entry(disk: Seq<u8>, fat_start: u32, cluster: u32) -> u32 {
    le32_at(disk, (fat_start + cluster * 4 / 512) * 512 + cluster * 4 % 512) & 0x0FFFFFFF
}

proof fn lemma_initial_root_dir_empty(boot: Fat32BootSector)
    requires
        spec_boot_sector_bytes(boot).len() == 90,
    ensures
        spec_initial_disk(boot).len() == DISK_SIZE,
        forall|k: int|
            ROOT_DIR_OFFSET <= k < ROOT_DIR_OFFSET + CLUSTER_BYTES ==> #[trigger] spec_initial_disk(
                boot,
            )[k] == 0,
{
    let fat_init = le32_bytes(0x0FFFFFF8) + le32_bytes(FAT32_EOC) + le32_bytes(FAT32_EOC);
    let d0 = Seq::new(DISK_SIZE as nat, |k: int| 0u8);
    let d1 = spec_write_bytes(d0, 0, spec_boot_sector_bytes(boot));
    let d2 = spec_write_bytes(d1, 510, seq![0x55u8, 0xAAu8]);
    let d3 = spec_write_bytes(d2, 16384int, fat_init);
    crate::drivers::block::law_read_after_write(d0, 0, spec_boot_sector_bytes(boot));
    crate::drivers::block::law_read_after_write(d1, 510, seq![0x55u8, 0xAAu8]);
    crate::drivers::block::law_read_after_write(d2, 16384int, fat_init);
    crate::drivers::block::law_read_after_write(d3, 147456int, fat_init);
}

/// Whether `c` names a data cluster rather than the end of a chain.
pub open spec fn is_data_cluster(c: u32) -> bool {
    2 <= c && c < FAT32_EOC
}

impl Fat32FileSystem {
    /// Whether the FAT entry of `c` lies inside the disk.
    pub closed spec fn fat_entry_in_disk(&self, c: u32) -> bool {
        &&& c * 4 <= u32::MAX
        &&& self.fat_start_sector + c * 4 / 512 <= u32::MAX
        &&& (self.fat_start_sector + c * 4 / 512) * 512 + c * 4 % 512 + 4 <= self.disk@.len()
    }

    /// The cluster after `c` in its chain.
    pub closed spec fn fat_next(&self, c: u32) -> u32 {
        spec_fat_entry(self.disk@, self.fat_start_sector, c)
    }

    /// The bytes of data cluster `c`.
    pub closed spec fn cluster_bytes(&self, c: u32) -> Seq<u8> {
        let off = cluster_offset(self.data_start_sector, self.boot_sector.sectors_per_cluster, c);
        self.disk@.subrange(off, off + self.boot_sector.sectors_per_cluster * 512)
    }

    /// The chain from `c` ends within `fuel` clusters, and each of its
    /// clusters and FAT entries lies inside the disk.
    pub closed spec fn chain_ok(&self, c: u32, fuel: nat) -> bool
        decreases fuel,
    {
        !is_data_cluster(c) || (fuel > 0 && cluster_in_disk(
            self.data_start_sector,
            self.boot_sector.sectors_per_cluster,
            c,
            self.disk@.len(),
        ) && self.fat_entry_in_disk(c) && self.chain_ok(self.fat_next(c), (fuel - 1) as nat))
    }

    /// The bytes of the clusters of the chain from `c`, in order.
    pub closed spec fn chain_data(&self, c: u32, fuel: nat) -> Seq<u8>
        decreases fuel,
    {
        if !is_data_cluster(c) || fuel == 0 {
            Seq::empty()
        } else {
            self.cluster_bytes(c) + self.chain_data(self.fat_next(c), (fuel - 1) as nat)
        }
    }

    /// A length within which the chain from `c` ends, when one exists.
    pub closed spec fn chain_fuel(&self, c: u32) -> nat {
        choose|f: nat| self.chain_ok(c, f)
    }

    /// Reads the clusters of the chain that starts at `first`.
    fn read_chain(&self, first: u32, Ghost(fuel): Ghost<nat>) -> (r: Vec<u8>)
        requires
            self.chain_ok(first, fuel),
        ensures
            r@ == self.chain_data(first, fuel),
    {
        let mut file_data: Vec<u8> = Vec::new();
        let mut current = first;
        let ghost mut f = fuel;
        while current >= 2 && current < FAT32_EOC
            invariant
                self.chain_ok(current, f),
                file_data@ + self.chain_data(current, f) == self.chain_data(first, fuel),
            decreases f,
        {
            let cluster_content = self.read_cluster(current);
            let ghost before = file_data@;
            let mut k: usize = 0;
            while k < cluster_content.len()
                invariant
                    k <= cluster_content@.len(),
                    file_data@ == before + cluster_content@.take(k as int),
                decreases cluster_content@.len() - k,
            {
                file_data.push(cluster_content[k]);
                assert(file_data@ =~= before + cluster_content@.take(k + 1));
                k = k + 1;
            }
            assert(cluster_content@.take(cluster_content@.len() as int) =~= cluster_content@);
            let next = self.get_fat_entry(current);
            assert(file_data@ + self.chain_data(next, (f - 1) as nat) =~= self.chain_data(
                first,
                fuel,
            ));
            current = next;
            proof {
                f = (f - 1) as nat;
            }
        }
        assert(self.chain_data(current, f) =~= Seq::<u8>::empty());
        file_data
    }

    /// The directory entries of the current directory's cluster are all
    /// unused.
    proof fn lemma_root_dir_unused(&self, cluster_data: Seq<u8>, i: int)
        requires
            self.inv(),
            cluster_data == self.cluster_bytes(self.current_dir_cluster),
            0 <= i,
            i * 32 + 32 <= cluster_data.len(),
        ensures
            !entry_in_use(cluster_data.subrange(i * 32, i * 32 + 32)),
    {
        assert(cluster_data[i * 32] == self.disk@[ROOT_DIR_OFFSET + i * 32]);
    }

    /// The current directory's cluster lists nothing and holds no file.
    proof fn lemma_current_dir_unused(&self, cluster_data: Seq<u8>, target: Seq<char>)
        requires
            self.inv(),
            cluster_data == self.cluster_bytes(self.current_dir_cluster),
        ensures
            spec_dir_listing(cluster_data, cluster_data.len() / 32).len() == 0,
            spec_file_slot(cluster_data, target, cluster_data.len() / 32) is None,
    {
        let n = cluster_data.len() / 32;
        assert(n * 32 <= cluster_data.len()) by (nonlinear_arith)
            requires
                n == cluster_data.len() / 32,
        ;
        assert forall|i: int| 0 <= i < n implies !entry_in_use(#[trigger] dir_slot(cluster_data, i)) by {
            assert(i * 32 + 32 <= cluster_data.len()) by (nonlinear_arith)
                requires
                    0 <= i < n,
                    n * 32 <= cluster_data.len(),
            ;
            self.lemma_root_dir_unused(cluster_data, i);
        }
        lemma_unused_cluster(cluster_data, target, n);
    }
}

impl FSTrait for Fat32FileSystem {
    /// Looks up the last component of `path` in the current directory's
    /// cluster, comparing 8.3 names without case, and reads the file's
    /// cluster chain cut to its size. The root directory of this image
    /// holds no entry, so every path is not found.
    fn read_file(&mut self, path: &str) -> (r: Result<Vec<u8>, FileSystemError>)
        ensures
            *final(self) == *old(self),
            r == Err::<Vec<u8>, FileSystemError>(FileSystemError::NotFound),
    {
        proof {
            use_type_invariant(&*self);
        }
        let path_chars = str_to_chars(path);
        let pieces = split_chars(&path_chars, '/');
        proof {
            crate::text::lemma_split_nonempty(path@, '/');
        }
        let last = &pieces[pieces.len() - 1];
        let filename = chars_to_string(last, 0, last.len());
        let target = lowercase(filename.as_str());
        let cluster_data = self.read_cluster(self.current_dir_cluster);
        proof {
            self.lemma_current_dir_unused(cluster_data@, target@);
        }
        match find_file_entry(cluster_data.as_slice(), target.as_str()) {
            Some(entry) => {
                let first_cluster = ((entry.first_cluster_high as u32) << 16)
                    | entry.first_cluster_low as u32;
                let mut file_data = self.read_chain(
                    first_cluster,
                    Ghost(self.chain_fuel(first_cluster)),
                );
                file_data.truncate(entry.file_size as usize);
                Ok(file_data)
            },
            None => Err(FileSystemError::NotFound),
        }
    }

    fn write_file(&mut self, _path: &str, _data: &[u8]) -> (r: Result<(), FileSystemError>)
        ensures
            *final(self) == *old(self),
            r == Err::<(), FileSystemError>(FileSystemError::NotImplemented),
    {
        Err(FileSystemError::NotImplemented)
    }

    fn create_file(&mut self, _path: &str) -> (r: Result<(), FileSystemError>)
        ensures
            *final(self) == *old(self),
            r == Err::<(), FileSystemError>(FileSystemError::NotImplemented),
    {
        Err(FileSystemError::NotImplemented)
    }

    fn delete_file(&mut self, _path: &str) -> (r: Result<(), FileSystemError>)
        ensures
            *final(self) == *old(self),
            r == Err::<(), FileSystemError>(FileSystemError::NotImplemented),
    {
        Err(FileSystemError::NotImplemented)
    }

    fn create_directory(&mut self, _path: &str) -> (r: Result<(), FileSystemError>)
        ensures
            *final(self) == *old(self),
            r == Err::<(), FileSystemError>(FileSystemError::NotImplemented),
    {
        Err(FileSystemError::NotImplemented)
    }

    fn delete_directory(&mut self, _path: &str) -> (r: Result<(), FileSystemError>)
        ensures
            *final(self) == *old(self),
            r == Err::<(), FileSystemError>(FileSystemError::NotImplemented),
    {
        Err(FileSystemError::NotImplemented)
    }

    /// Lists the in-use entries of the current directory's cluster, leaving
    /// out long-name parts and volume labels. The root directory of this
    /// image holds no entry, so the listing is empty.
    fn list_directory(&mut self, _path: &str) -> (r: Result<Vec<DirEntry>, FileSystemError>)
        ensures
            *final(self) == *old(self),
            r matches Ok(v) && v@.len() == 0,
    {
        proof {
            use_type_invariant(&*self);
        }
        let cluster_data = self.read_cluster(self.current_dir_cluster);
        proof {
            self.lemma_current_dir_unused(cluster_data@, Seq::empty());
        }
        let entries = list_dir_cluster(cluster_data.as_slice());
        Ok(entries)
    }

    fn path_exists(&mut self, _path: &str) -> (r: bool)
        ensures
            *final(self) == *old(self),
            !r,
    {
        false
    }

    fn is_directory(&mut self, _path: &str) -> (r: bool)
        ensures
            *final(self) == *old(self),
            !r,
    {
        false
    }

    fn is_file(&mut self, _path: &str) -> (r: bool)
        ensures
            *final(self) == *old(self),
            !r,
    {
        false
    }

    fn get_current_directory(&self) -> (r: String)
        ensures
            r@ == seq!['/'],
    {
        let mut r = String::new();
        push_char(&mut r, '/');
        assert(r@ =~= seq!['/']);
        r
    }

    fn set_current_directory(&mut self, _path: &str) -> (r: Result<(), FileSystemError>)
        ensures
            *final(self) == *old(self),
            r == Err::<(), FileSystemError>(FileSystemError::NotImplemented),
    {
        Err(FileSystemError::NotImplemented)
    }
}

} // verus!
