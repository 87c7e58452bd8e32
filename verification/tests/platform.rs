use ilo_lawa::interrupts::{spurious_irq15_plan, spurious_irq7_plan, InterruptIndex};
use ilo_lawa::pic::{end_of_interrupt_plan, initialize_writes, EoiPlan, PIC_1_OFFSET, PIC_2_OFFSET};
use ilo_lawa::serial;

#[test]
fn interrupt_vectors() {
    assert_eq!(InterruptIndex::Timer.as_u8(), 32);
    assert_eq!(InterruptIndex::Keyboard.as_u8(), 33);
    assert_eq!(InterruptIndex::Timer.as_usize(), 32);
    assert_eq!(InterruptIndex::Keyboard.as_usize(), 33);
    assert_eq!(PIC_1_OFFSET, 32);
    assert_eq!(PIC_2_OFFSET, 40);
}

#[test]
fn end_of_interrupt_targets() {
    assert_eq!(end_of_interrupt_plan(32), EoiPlan { slave: false, master: true });
    assert_eq!(end_of_interrupt_plan(39), EoiPlan { slave: false, master: true });
    assert_eq!(end_of_interrupt_plan(40), EoiPlan { slave: true, master: true });
    assert_eq!(end_of_interrupt_plan(47), EoiPlan { slave: true, master: true });
}

#[test]
fn spurious_lines() {
    assert_eq!(spurious_irq7_plan(0x0000), EoiPlan { slave: false, master: false });
    assert_eq!(spurious_irq7_plan(0x0080), EoiPlan { slave: false, master: true });
    assert_eq!(spurious_irq7_plan(0x7F7F), EoiPlan { slave: false, master: false });
    assert_eq!(spurious_irq15_plan(0x8000), EoiPlan { slave: true, master: true });
    assert_eq!(spurious_irq15_plan(0x0004), EoiPlan { slave: false, master: true });
    assert_eq!(spurious_irq15_plan(0x7FFF), EoiPlan { slave: false, master: true });
}

#[test]
fn pic_setup_sequence() {
    let writes = initialize_writes(32, 40);
    assert_eq!(
        writes,
        vec![
            (0x20, 0x11, true),
            (0xA0, 0x11, true),
            (0x21, 32, true),
            (0xA1, 40, true),
            (0x21, 4, true),
            (0xA1, 2, true),
            (0x21, 1, true),
            (0xA1, 1, true),
            (0x21, 0xFC, false),
            (0xA1, 0xFF, false),
        ]
    );
}

#[test]
fn serial_setup_sequence() {
    assert_eq!(
        serial::init(),
        vec![
            (0x3F9, 0x00),
            (0x3FB, 0x80),
            (0x3F8, 0x03),
            (0x3F9, 0x00),
            (0x3FB, 0x03),
            (0x3FA, 0xC7),
            (0x3FC, 0x0B),
        ]
    );
}

#[test]
fn serial_line_endings() {
    assert_eq!(serial::print("ok"), b"ok".to_vec());
    assert_eq!(serial::print("a\nb\n"), b"a\r\nb\r\n".to_vec());
    assert_eq!(serial::print(""), Vec::<u8>::new());
    assert_eq!(serial::print("\n\n"), b"\r\n\r\n".to_vec());
    assert_eq!(serial::print_char('\n'), b"\r\n".to_vec());
    assert_eq!(serial::print_char('x'), b"x".to_vec());
    assert_eq!(serial::print_char('é'), "é".as_bytes().to_vec());
}
