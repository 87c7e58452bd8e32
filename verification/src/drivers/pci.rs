//! What the VirtIO probes decide: where the MMIO device windows lie, how a
//! PCI configuration address is formed, how probed words are classified,
//! and the report lines the probes print. The port and memory reads
//! themselves belong to the platform code, which feeds their results here.
use vstd::prelude::*;
use crate::text::{push_char, push_str, spec_decimal, spec_digit};

verus! {

/// Base address of the first VirtIO MMIO window on QEMU's x86 machines.
pub const VIRTIO_MMIO_BASE: usize = 0xfeb0_0000;

/// Size of one VirtIO MMIO window.
pub const VIRTIO_MMIO_SIZE: usize = 0x200;

/// Number of VirtIO MMIO windows probed.
pub const VIRTIO_MMIO_MAX_DEVICES: usize = 8;

/// The "virt" magic value at offset 0 of a VirtIO MMIO header.
pub const VIRTIO_MMIO_MAGIC: u32 = 0x7472_6976;

/// VirtIO device ID of a block device.
pub const VIRTIO_ID_BLOCK: u32 = 2;

/// PCI configuration address port.
pub const PCI_CONFIG_ADDRESS: u16 = 0xCF8;

/// PCI configuration data port.
pub const PCI_CONFIG_DATA: u16 = 0xCFC;

/// Red Hat's PCI vendor ID, used by VirtIO devices.
pub const PCI_VENDOR_ID_REDHAT: u16 = 0x1AF4;

/// PCI device ID of a transitional VirtIO block device.
pub const PCI_DEVICE_ID_VIRTIO_BLOCK_TRANSITIONAL: u16 = 0x1001;

/// PCI device ID of a modern VirtIO block device.
pub const PCI_DEVICE_ID_VIRTIO_BLOCK: u16 = 0x1042;

/// The character of a hexadecimal digit (lower case).
pub open spec fn spec_hex_digit(d: nat) -> char {
    if d < 10 {
        spec_digit(d)
    } else if d < 16 {
        ((d + 87) as u8) as char
    } else {
        '?'
    }
}

/// The hexadecimal digits of `n`, most significant first, without leading
/// zeros.
pub open spec fn spec_hex(n: nat) -> Seq<char>
    decreases n,
{
    if n < 16 {
        seq![spec_hex_digit(n)]
    } else {
        spec_hex(n / 16).push(spec_hex_digit(n % 16))
    }
}

fn hex_digit(d: usize) -> (c: char)
    requires
        d < 16,
    ensures
        c == spec_hex_digit(d as nat),
{
    if d < 10 {
        (d as u8 + 48) as char
    } else {
        (d as u8 + 87) as char
    }
}

/// Renders `val` in lower-case hexadecimal, without a prefix.
pub fn format_hex(val: usize) -> (r: String)
    ensures
        r@ == spec_hex(val as nat),
{
    let mut digits: Vec<char> = Vec::new();
    let mut m = val;
    // digits holds the low hexadecimal digits of val, least significant first
    while m >= 16
        invariant
            spec_hex(val as nat) == spec_hex(m as nat) + digits@.reverse(),
        decreases m,
    {
        let ghost old_digits = digits@;
        digits.push(hex_digit(m % 16));
        assert(digits@.reverse() =~= seq![spec_hex_digit((m % 16) as nat)] + old_digits.reverse());
        assert(spec_hex(val as nat) =~= spec_hex((m / 16) as nat) + digits@.reverse());
        m = m / 16;
    }
    let ghost old_digits = digits@;
    digits.push(hex_digit(m));
    assert(digits@.reverse() =~= seq![spec_hex_digit(m as nat)] + old_digits.reverse());
    let mut r = String::new();
    let len = digits.len();
    let mut i = len;
    while i > 0
        invariant
            i <= len == digits@.len(),
            r@ == digits@.reverse().take((len - i) as int),
        decreases i,
    {
        i = i - 1;
        push_char(&mut r, digits[i]);
        assert(r@ =~= digits@.reverse().take((len - i) as int));
    }
    assert(digits@.reverse().take(len as int) =~= digits@.reverse());
    r
}

/// The low decimal digits of `n`, at most `budget` of them, most
/// significant first; none once `n` runs out.
pub open spec fn spec_low_digits(n: nat, budget: nat) -> Seq<char>
    decreases budget,
{
    if n == 0 || budget == 0 {
        Seq::empty()
    } else {
        spec_low_digits(n / 10, (budget - 1) as nat).push(spec_digit(n % 10))
    }
}

/// Ten to the power `k`.
pub open spec fn pow10(k: nat) -> nat
    decreases k,
{
    if k == 0 {
        1
    } else {
        10 * pow10((k - 1) as nat)
    }
}

/// Below `10^budget`, the low digits of a positive number are all of them.
pub proof fn lemma_low_digits_all(n: nat, budget: nat)
    requires
        0 < n < pow10(budget),
    ensures
        spec_low_digits(n, budget) == spec_decimal(n),
    decreases budget,
{
    if budget > 0 {
        if n < 10 {
            assert(spec_low_digits(n / 10, (budget - 1) as nat) =~= Seq::<char>::empty());
            assert(spec_low_digits(n, budget) =~= seq![spec_digit(n)]);
        } else {
            lemma_low_digits_all(n / 10, (budget - 1) as nat);
        }
    }
}

/// The text of a probe's decimal number: "0" for zero, else its low nine
/// decimal digits (all of them below one billion).
pub open spec fn spec_probe_decimal(val: u32) -> Seq<char> {
    if val == 0 {
        seq!['0']
    } else {
        spec_low_digits(val as nat, 9)
    }
}

/// Renders `val` in decimal the way the probes print it: at most nine
/// digits are kept, so numbers from one billion up lose their leading
/// digits.
pub fn format_dec(val: u32) -> (r: String)
    ensures
        r@ == spec_probe_decimal(val),
        val < 1_000_000_000 ==> r@ == spec_decimal(val as nat),
{
    proof {
        assert(pow10(9) == 1_000_000_000) by {
            reveal_with_fuel(pow10, 10);
        }
        if 0 < val < 1_000_000_000 {
            lemma_low_digits_all(val as nat, 9);
        }
    }
    let mut r = String::new();
    if val == 0 {
        push_char(&mut r, '0');
        assert(r@ =~= seq!['0']);
        return r;
    }
    let mut digits: Vec<char> = Vec::new();
    let mut n = val;
    let mut budget: usize = 9;
    // digits holds the decimal digits taken so far, least significant first
    while n > 0 && budget > 0
        invariant
            budget <= 9,
            spec_low_digits(val as nat, 9) == spec_low_digits(n as nat, budget as nat)
                + digits@.reverse(),
        decreases budget,
    {
        let ghost old_digits = digits@;
        digits.push(((n % 10) as u8 + 48) as char);
        assert(digits@.reverse() =~= seq![spec_digit((n % 10) as nat)] + old_digits.reverse());
        assert(spec_low_digits(val as nat, 9) =~= spec_low_digits(
            (n / 10) as nat,
            (budget - 1) as nat,
        ) + digits@.reverse());
        n = n / 10;
        budget = budget - 1;
    }
    assert(spec_low_digits(n as nat, budget as nat) =~= Seq::<char>::empty());
    let len = digits.len();
    let mut i = len;
    while i > 0
        invariant
            i <= len == digits@.len(),
            r@ == digits@.reverse().take((len - i) as int),
        decreases i,
    {
        i = i - 1;
        push_char(&mut r, digits[i]);
        assert(r@ =~= digits@.reverse().take((len - i) as int));
    }
    assert(digits@.reverse().take(len as int) =~= digits@.reverse());
    r
}

/// The address of the `index`-th VirtIO MMIO window.
pub fn mmio_device_address(index: usize) -> (addr: usize)
    requires
        index < VIRTIO_MMIO_MAX_DEVICES,
    ensures
        addr == VIRTIO_MMIO_BASE + index * VIRTIO_MMIO_SIZE,
{
    VIRTIO_MMIO_BASE + index * VIRTIO_MMIO_SIZE
}

/// What a VirtIO MMIO window holds.
#[derive(PartialEq, Eq, Structural, Debug, Clone, Copy)]
pub enum MmioProbe {
    /// No VirtIO version 2 header: the window is skipped.
    NotVirtio,
    /// A block device.
    Block,
    /// A header with device ID 0: nothing is attached.
    Empty,
    /// A device of another kind, by its device ID.
    Unknown(u32),
}

/// How a window is classified from the words at offsets 0, 4 and 8 of its
/// header (magic, version, device ID).
pub open spec fn spec_classify_mmio(magic: u32, version: u32, device_id: u32) -> MmioProbe {
    if magic != VIRTIO_MMIO_MAGIC || version != 2 {
        MmioProbe::NotVirtio
    } else if device_id == VIRTIO_ID_BLOCK {
        MmioProbe::Block
    } else if device_id == 0 {
        MmioProbe::Empty
    } else {
        MmioProbe::Unknown(device_id)
    }
}

/// Classifies a VirtIO MMIO window from the first three words of its
/// header.
pub fn classify_mmio(magic: u32, version: u32, device_id: u32) -> (r: MmioProbe)
    ensures
        r == spec_classify_mmio(magic, version, device_id),
{
    if magic != VIRTIO_MMIO_MAGIC {
        return MmioProbe::NotVirtio;
    }
    if version != 2 {
        return MmioProbe::NotVirtio;
    }
    if device_id == VIRTIO_ID_BLOCK {
        MmioProbe::Block
    } else if device_id == 0 {
        MmioProbe::Empty
    } else {
        MmioProbe::Unknown(device_id)
    }
}

/// The report of a block device found in the MMIO window at `addr`.
pub fn mmio_block_message(addr: usize) -> (r: String)
    ensures
        r@ == "Found VirtIO block device at 0x"@ + spec_hex(addr as nat) + "\n"@,
{
    let mut s = String::from_str("Found VirtIO block device at 0x");
    let hex = format_hex(addr);
    push_str(&mut s, hex.as_str());
    push_str(&mut s, "\n");
    s
}

/// The report of a VirtIO MMIO device of an unknown kind.
pub fn mmio_unknown_message(device_id: u32) -> (r: String)
    ensures
        r@ == "Found unknown VirtIO device with ID "@ + spec_probe_decimal(device_id) + "\n"@,
{
    let mut s = String::from_str("Found unknown VirtIO device with ID ");
    let dec = format_dec(device_id);
    push_str(&mut s, dec.as_str());
    push_str(&mut s, "\n");
    s
}

/// The PCI configuration address of a register: the enable bit, then bus,
/// device and function, and the register offset rounded down to a multiple
/// of four.
pub fn pci_config_address(bus: u8, device: u8, function: u8, offset: u8) -> (r: u32)
    ensures
        r == 0x8000_0000u32 | ((bus as u32) << 16u32) | ((device as u32) << 11u32) | ((
        function as u32) << 8u32) | ((offset as u32) & 0xFCu32),
        device < 32 && function < 8 ==> r == 0x8000_0000 + bus * 0x1_0000 + device * 0x800
            + function * 0x100 + offset - offset % 4,
{
    let address = 0x8000_0000u32 | ((bus as u32) << 16u32) | ((device as u32) << 11u32) | ((
    function as u32) << 8u32) | ((offset as u32) & 0xFCu32);
    proof {
        let b = bus as u32;
        let d = device as u32;
        let f = function as u32;
        let o = offset as u32;
        assert(b < 256 && o < 256);
        assert(d < 32 && f < 8 ==> 0x8000_0000u32 | (b << 16u32) | (d << 11u32) | (f << 8u32) | (o
            & 0xFCu32) == 0x8000_0000 + b * 0x1_0000 + d * 0x800 + f * 0x100 + o - o % 4)
            by (bit_vector)
            requires
                b < 256 && o < 256,
        ;
    }
    address
}

/// The vendor ID (low half) and device ID (high half) of the first word of
/// a PCI function's configuration space.
pub fn split_vendor_device(word: u32) -> (r: (u16, u16))
    ensures
        r.0 == word % 0x1_0000,
        r.1 == word / 0x1_0000,
{
    let vendor = (word & 0xFFFF) as u16;
    let device = ((word >> 16u32) & 0xFFFF) as u16;
    assert(word & 0xFFFF == word % 0x1_0000) by (bit_vector);
    assert((word >> 16u32) & 0xFFFF == word / 0x1_0000) by (bit_vector);
    (vendor, device)
}

/// What a PCI slot holds, as far as the VirtIO probe cares.
#[derive(PartialEq, Eq, Structural, Debug, Clone, Copy)]
pub enum PciProbe {
    /// No device: the vendor ID reads as all ones.
    Absent,
    /// A VirtIO block device (modern or transitional).
    VirtioBlock,
    /// Another VirtIO device, by its device ID.
    OtherVirtio(u16),
    /// A device of another vendor.
    Other,
}

/// How a PCI slot is classified from its vendor and device IDs.
pub open spec fn spec_classify_pci(vendor_id: u16, device_id: u16) -> PciProbe {
    if vendor_id == 0xFFFF {
        PciProbe::Absent
    } else if vendor_id != PCI_VENDOR_ID_REDHAT {
        PciProbe::Other
    } else if device_id == PCI_DEVICE_ID_VIRTIO_BLOCK || device_id
        == PCI_DEVICE_ID_VIRTIO_BLOCK_TRANSITIONAL {
        PciProbe::VirtioBlock
    } else {
        PciProbe::OtherVirtio(device_id)
    }
}

/// Classifies a PCI slot from its vendor and device IDs.
pub fn classify_pci(vendor_id: u16, device_id: u16) -> (r: PciProbe)
    ensures
        r == spec_classify_pci(vendor_id, device_id),
{
    if vendor_id == 0xFFFF {
        PciProbe::Absent
    } else if vendor_id != PCI_VENDOR_ID_REDHAT {
        PciProbe::Other
    } else if device_id == PCI_DEVICE_ID_VIRTIO_BLOCK || device_id
        == PCI_DEVICE_ID_VIRTIO_BLOCK_TRANSITIONAL {
        PciProbe::VirtioBlock
    } else {
        PciProbe::OtherVirtio(device_id)
    }
}

/// The memory address that BAR0 maps, when it is a memory BAR (bit 0
/// clear): the register with its four flag bits cleared.
pub fn bar0_mmio_address(bar0: u32) -> (r: Option<usize>)
    ensures
        bar0 % 2 == 0 ==> r == Some((bar0 - bar0 % 16) as usize),
        bar0 % 2 == 1 ==> r is None,
{
    assert(bar0 & 1 == bar0 % 2) by (bit_vector);
    assert(bar0 & 0xFFFF_FFF0 == bar0 - bar0 % 16) by (bit_vector);
    if bar0 & 1 == 0 {
        Some((bar0 & 0xFFFF_FFF0) as usize)
    } else {
        None
    }
}

/// The report of a VirtIO block device found in PCI slot `bus:device`.
pub fn pci_block_message(bus: u8, device: u8) -> (r: String)
    ensures
        r@ == "Found VirtIO block device on PCI "@ + spec_decimal(bus as nat) + ":"@
            + spec_decimal(device as nat) + ":0\n"@,
{
    let mut s = String::from_str("Found VirtIO block device on PCI ");
    let b = format_dec(bus as u32);
    push_str(&mut s, b.as_str());
    push_str(&mut s, ":");
    let d = format_dec(device as u32);
    push_str(&mut s, d.as_str());
    push_str(&mut s, ":0\n");
    s
}

/// The report of BAR0 of that device: its address when it is a memory
/// BAR, and nothing for an I/O BAR.
pub fn pci_bar0_message(bar0: u32) -> (r: String)
    ensures
        bar0 % 2 == 0 ==> r@ == "  BAR0 (MMIO): 0x"@ + spec_hex((bar0 - bar0 % 16) as nat)
            + "\n"@ + "  Note: PCI device found but initialization not yet implemented\n"@,
        bar0 % 2 == 1 ==> r@.len() == 0,
{
    match bar0_mmio_address(bar0) {
        Some(addr) => {
            let mut s = String::from_str("  BAR0 (MMIO): 0x");
            let hex = format_hex(addr);
            push_str(&mut s, hex.as_str());
            push_str(&mut s, "\n");
            push_str(&mut s, "  Note: PCI device found but initialization not yet implemented\n");
            s
        },
        None => String::new(),
    }
}

/// The report of a VirtIO PCI device of another kind.
pub fn pci_unknown_message(device_id: u16) -> (r: String)
    ensures
        r@ == "Found unknown VirtIO device: 0x"@ + spec_hex(device_id as nat) + "\n"@,
{
    let mut s = String::from_str("Found unknown VirtIO device: 0x");
    let hex = format_hex(device_id as usize);
    push_str(&mut s, hex.as_str());
    push_str(&mut s, "\n");
    s
}

} // verus!
