//! The two chained 8259 interrupt controllers: the command sequence that
//! sets them up, and which of them an interrupt's end is reported to. The
//! port writes belong to the platform code.
use vstd::prelude::*;

verus! {

/// First vector of the master controller.
pub const PIC_1_OFFSET: u8 = 32;

/// First vector of the slave controller.
pub const PIC_2_OFFSET: u8 = PIC_1_OFFSET + 8;

/// Command port of the master controller.
pub const PIC1_COMMAND: u16 = 0x20;

/// Data port of the master controller.
pub const PIC1_DATA: u16 = 0x21;

/// Command port of the slave controller.
pub const PIC2_COMMAND: u16 = 0xA0;

/// Data port of the slave controller.
pub const PIC2_DATA: u16 = 0xA1;

/// Port written to wait a moment between commands.
pub const WAIT_PORT: u16 = 0x80;

/// Initialisation command.
pub const CMD_INIT: u8 = 0x11;

/// End-of-interrupt command.
pub const CMD_END_OF_INTERRUPT: u8 = 0x20;

/// 8086 mode.
pub const MODE_8086: u8 = 0x01;

/// Which controllers are sent the end-of-interrupt command, slave first.
#[derive(PartialEq, Eq, Structural, Debug, Clone, Copy)]
pub struct EoiPlan {
    pub slave: bool,
    pub master: bool,
}

/// The end of interrupt `interrupt_id`: the slave hears of it when the
/// vector is one of its own, the master always.
pub open spec fn spec_end_of_interrupt(interrupt_id: u8) -> EoiPlan {
    EoiPlan { slave: interrupt_id >= PIC_2_OFFSET, master: true }
}

/// Which controllers to acknowledge at the end of interrupt `interrupt_id`.
pub fn end_of_interrupt_plan(interrupt_id: u8) -> (r: EoiPlan)
    ensures
        r == spec_end_of_interrupt(interrupt_id),
{
    EoiPlan { slave: interrupt_id >= PIC_2_OFFSET, master: true }
}

/// One step of setting the controllers up: a value for a port, and whether
/// a short wait follows it.
pub type PortWrite = (u16, u8, bool);

/// The setup sequence for vector bases `offset1` and `offset2`: start the
/// initialisation of both, give their vector bases, wire the slave to the
/// master's line 2, select 8086 mode, and unmask only the timer and the
/// keyboard.
pub open spec fn spec_initialize_writes(offset1: u8, offset2: u8) -> Seq<PortWrite> {
    seq![
        (PIC1_COMMAND, CMD_INIT, true),
        (PIC2_COMMAND, CMD_INIT, true),
        (PIC1_DATA, offset1, true),
        (PIC2_DATA, offset2, true),
        (PIC1_DATA, 4u8, true),
        (PIC2_DATA, 2u8, true),
        (PIC1_DATA, MODE_8086, true),
        (PIC2_DATA, MODE_8086, true),
        (PIC1_DATA, 0xFCu8, false),
        (PIC2_DATA, 0xFFu8, false),
    ]
}

/// The port writes that set the controllers up.
pub fn initialize_writes(offset1: u8, offset2: u8) -> (r: Vec<PortWrite>)
    ensures
        r@ == spec_initialize_writes(offset1, offset2),
{
    let mut v: Vec<PortWrite> = Vec::new();
    v.push((PIC1_COMMAND, CMD_INIT, true));
    v.push((PIC2_COMMAND, CMD_INIT, true));
    v.push((PIC1_DATA, offset1, true));
    v.push((PIC2_DATA, offset2, true));
    v.push((PIC1_DATA, 4u8, true));
    v.push((PIC2_DATA, 2u8, true));
    v.push((PIC1_DATA, MODE_8086, true));
    v.push((PIC2_DATA, MODE_8086, true));
    v.push((PIC1_DATA, 0xFCu8, false));
    v.push((PIC2_DATA, 0xFFu8, false));
    assert(v@ =~= spec_initialize_writes(offset1, offset2));
    v
}

} // verus!
