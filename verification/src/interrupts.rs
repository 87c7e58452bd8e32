//! Interrupt vectors of the hardware lines in use, and what the handlers
//! of the spurious lines acknowledge.
use vstd::prelude::*;
use crate::pic::{EoiPlan, PIC_1_OFFSET, spec_end_of_interrupt};

verus! {

/// The hardware interrupts the kernel handles.
#[derive(PartialEq, Eq, Structural, Debug, Clone, Copy)]
pub enum InterruptIndex {
    Timer,
    Keyboard,
}

/// The vector of each hardware interrupt: the timer on the master's first
/// line, the keyboard on the next.
pub open spec fn spec_vector(i: InterruptIndex) -> u8 {
    match i {
        InterruptIndex::Timer => PIC_1_OFFSET,
        InterruptIndex::Keyboard => (PIC_1_OFFSET + 1) as u8,
    }
}

impl InterruptIndex {
    /// The interrupt's vector.
    pub fn as_u8(self) -> (r: u8)
        ensures
            r == spec_vector(self),
    {
        match self {
            InterruptIndex::Timer => PIC_1_OFFSET,
            InterruptIndex::Keyboard => PIC_1_OFFSET + 1,
        }
    }

    /// The interrupt's vector, as an index into the descriptor table.
    pub fn as_usize(self) -> (r: usize)
        ensures
            r == spec_vector(self),
    {
        self.as_u8() as usize
    }
}

/// Line 7 of the master may fire spuriously: it is acknowledged only when
/// bit 7 of the in-service register (master in the low byte, slave in the
/// high byte) shows it really is in service.
pub fn spurious_irq7_plan(isr: u16) -> (r: EoiPlan)
    ensures
        (isr / 0x80) % 2 == 1 ==> r == spec_end_of_interrupt(39),
        (isr / 0x80) % 2 == 0 ==> r == (EoiPlan { slave: false, master: false }),
{
    assert((isr & 0x80u16 != 0) == ((isr / 0x80) % 2 == 1)) by (bit_vector);
    if isr & 0x80u16 != 0 {
        crate::pic::end_of_interrupt_plan(39)
    } else {
        EoiPlan { slave: false, master: false }
    }
}

/// Line 15 (the slave's line 7) may fire spuriously: when it is not in
/// service only the master, whose cascade line was, is acknowledged.
pub fn spurious_irq15_plan(isr: u16) -> (r: EoiPlan)
    ensures
        isr >= 0x8000 ==> r == spec_end_of_interrupt(47),
        isr < 0x8000 ==> r == (EoiPlan { slave: false, master: true }),
{
    assert((isr & 0x8000u16 != 0) == (isr >= 0x8000)) by (bit_vector);
    if isr & 0x8000u16 != 0 {
        crate::pic::end_of_interrupt_plan(47)
    } else {
        EoiPlan { slave: false, master: true }
    }
}

} // verus!
