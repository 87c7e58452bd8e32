//! The polled 16550 UART on COM1: how it is configured, and the bytes it is
//! sent for a piece of text. Writing them out, waiting for the transmitter
//! to empty, is the platform code's part.
use vstd::prelude::*;
use vstd::string::StringSliceAdditionalSpecFns;
use vstd::utf8::encode_utf8;
use crate::text::push_char;

verus! {

/// I/O base of COM1.
pub const COM1_BASE: u16 = 0x3F8;

/// The register writes that configure the UART at `COM1_BASE`: no UART
/// interrupts, divisor 3 (38400 baud), 8N1, FIFOs enabled and cleared with
/// a 14-byte trigger, DTR, RTS and OUT2 set.
pub open spec fn spec_init_writes() -> Seq<(u16, u8)> {
    seq![
        ((COM1_BASE + 1) as u16, 0x00u8),
        ((COM1_BASE + 3) as u16, 0x80u8),
        (COM1_BASE, 0x03u8),
        ((COM1_BASE + 1) as u16, 0x00u8),
        ((COM1_BASE + 3) as u16, 0x03u8),
        ((COM1_BASE + 2) as u16, 0xC7u8),
        ((COM1_BASE + 4) as u16, 0x0Bu8),
    ]
}

/// The port writes that configure the UART.
pub fn init() -> (r: Vec<(u16, u8)>)
    ensures
        r@ == spec_init_writes(),
{
    let mut v: Vec<(u16, u8)> = Vec::new();
    v.push((COM1_BASE + 1, 0x00u8));
    v.push((COM1_BASE + 3, 0x80u8));
    v.push((COM1_BASE, 0x03u8));
    v.push((COM1_BASE + 1, 0x00u8));
    v.push((COM1_BASE + 3, 0x03u8));
    v.push((COM1_BASE + 2, 0xC7u8));
    v.push((COM1_BASE + 4, 0x0Bu8));
    assert(v@ =~= spec_init_writes());
    v
}

/// The bytes sent for `b`: each line feed is preceded by a carriage return.
pub open spec fn spec_line_bytes(b: Seq<u8>) -> Seq<u8>
    decreases b.len(),
{
    if b.len() == 0 {
        Seq::empty()
    } else if b.last() == 10 {
        spec_line_bytes(b.drop_last()) + seq![13u8, 10u8]
    } else {
        spec_line_bytes(b.drop_last()).push(b.last())
    }
}

fn line_bytes(b: &[u8]) -> (r: Vec<u8>)
    ensures
        r@ == spec_line_bytes(b@),
{
    let mut out: Vec<u8> = Vec::new();
    let mut i: usize = 0;
    assert(b@.take(0) =~= Seq::<u8>::empty());
    while i < b.len()
        invariant
            i <= b@.len(),
            out@ == spec_line_bytes(b@.take(i as int)),
        decreases b@.len() - i,
    {
        assert(b@.take(i + 1).drop_last() =~= b@.take(i as int));
        if b[i] == 10 {
            out.push(13u8);
        }
        out.push(b[i]);
        proof {
            if b@[i as int] == 10 {
                assert(out@ =~= spec_line_bytes(b@.take(i as int)) + seq![13u8, 10u8]);
            }
        }
        i = i + 1;
    }
    assert(b@.take(b@.len() as int) =~= b@);
    out
}

/// The bytes sent to the UART for `s`: its UTF-8 encoding, each line feed
/// preceded by a carriage return.
pub fn print(s: &str) -> (r: Vec<u8>)
    ensures
        r@ == spec_line_bytes(s.spec_bytes()),
{
    line_bytes(s.as_bytes())
}

/// The bytes sent to the UART for the character `c`.
pub fn print_char(c: char) -> (r: Vec<u8>)
    ensures
        r@ == spec_line_bytes(encode_utf8(seq![c])),
{
    let mut s = String::new();
    push_char(&mut s, c);
    assert(s@ =~= seq![c]);
    print(s.as_str())
}

} // verus!
