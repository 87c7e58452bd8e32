use ilo_lawa::fs::memory::MemoryFileSystem;
use ilo_lawa::keyboard::{add_scancode, handle_scancode, try_pop_scancode, Keyboard, ScancodeQueue};
use ilo_lawa::shell::{Shell, ShellAction};

fn printed(actions: &[ShellAction]) -> String {
    let mut s = String::new();
    for a in actions {
        if let ShellAction::Print(t) = a {
            s.push_str(t);
        }
    }
    s
}

#[test]
fn queue_is_first_in_first_out() {
    let mut q = ScancodeQueue::new();
    assert_eq!(try_pop_scancode(&mut q), None);
    add_scancode(&mut q, 0x1E);
    add_scancode(&mut q, 0x30);
    add_scancode(&mut q, 0x2E);
    assert_eq!(try_pop_scancode(&mut q), Some(0x1E));
    add_scancode(&mut q, 0x20);
    assert_eq!(try_pop_scancode(&mut q), Some(0x30));
    assert_eq!(try_pop_scancode(&mut q), Some(0x2E));
    assert_eq!(try_pop_scancode(&mut q), Some(0x20));
    assert_eq!(try_pop_scancode(&mut q), None);
}

#[test]
fn queue_drops_when_full() {
    let mut q = ScancodeQueue::new();
    for i in 0..300u32 {
        q.push((i % 256) as u8);
    }
    // one slot stays free: 255 scancodes fit, the rest are dropped
    for i in 0..255u32 {
        assert_eq!(q.pop(), Some((i % 256) as u8));
    }
    assert_eq!(q.pop(), None);
}

#[test]
fn queue_wraps_around() {
    let mut q = ScancodeQueue::new();
    for round in 0..3u32 {
        for i in 0..200u32 {
            q.push(((i + round) % 256) as u8);
        }
        for i in 0..200u32 {
            assert_eq!(q.pop(), Some(((i + round) % 256) as u8));
        }
    }
    assert_eq!(q.pop(), None);
}

#[test]
fn decodes_letters_digits_and_controls() {
    let mut kb = Keyboard::new();
    assert_eq!(kb.process_scancode(0x1E), Some('a'));
    assert_eq!(kb.process_scancode(0x2C), Some('z'));
    assert_eq!(kb.process_scancode(0x02), Some('1'));
    assert_eq!(kb.process_scancode(0x0B), Some('0'));
    assert_eq!(kb.process_scancode(0x1C), Some('\n'));
    assert_eq!(kb.process_scancode(0x0E), Some('\x08'));
    assert_eq!(kb.process_scancode(0x0F), Some('\t'));
    assert_eq!(kb.process_scancode(0x39), Some(' '));
    assert_eq!(kb.process_scancode(0x35), Some('/'));
    assert_eq!(kb.process_scancode(0x01), None);
    assert_eq!(kb.process_scancode(0x3B), None);
}

#[test]
fn break_codes_yield_nothing() {
    let mut kb = Keyboard::new();
    assert_eq!(kb.process_scancode(0x9E), None);
    assert_eq!(kb.process_scancode(0x80), None);
    assert_eq!(kb.process_scancode(0xFF), None);
}

#[test]
fn shift_changes_characters_until_released() {
    let mut kb = Keyboard::new();
    assert_eq!(kb.process_scancode(0x2A), None);
    assert_eq!(kb.process_scancode(0x1E), Some('A'));
    assert_eq!(kb.process_scancode(0x02), Some('!'));
    assert_eq!(kb.process_scancode(0x03), Some('@'));
    assert_eq!(kb.process_scancode(0x0C), Some('_'));
    assert_eq!(kb.process_scancode(0x28), Some('"'));
    assert_eq!(kb.process_scancode(0x29), Some('~'));
    assert_eq!(kb.process_scancode(0x2B), Some('|'));
    assert_eq!(kb.process_scancode(0x35), Some('?'));
    assert_eq!(kb.process_scancode(0x39), Some(' '));
    assert_eq!(kb.process_scancode(0x1C), Some('\n'));
    assert_eq!(kb.process_scancode(0xAA), None);
    assert_eq!(kb.process_scancode(0x1E), Some('a'));
    assert_eq!(kb.process_scancode(0x36), None);
    assert_eq!(kb.process_scancode(0x32), Some('M'));
    assert_eq!(kb.process_scancode(0xB6), None);
    assert_eq!(kb.process_scancode(0x32), Some('m'));
}

#[test]
fn ctrl_is_tracked_without_output() {
    let mut kb = Keyboard::new();
    assert_eq!(kb.process_scancode(0x1D), None);
    assert_eq!(kb.process_scancode(0x2E), Some('c'));
    assert_eq!(kb.process_scancode(0x9D), None);
    assert_eq!(kb.process_scancode(0x2E), Some('c'));
}

#[test]
fn scancodes_reach_the_shell() {
    let mut kb = Keyboard::new();
    let mut shell = Shell::new();
    let mut fs = MemoryFileSystem::new();
    let out = handle_scancode(&mut kb, &mut shell, &mut fs, 0x23);
    assert_eq!(printed(&out), "h");
    let out = handle_scancode(&mut kb, &mut shell, &mut fs, 0xA3);
    assert!(out.is_empty());
    let out = handle_scancode(&mut kb, &mut shell, &mut fs, 0x17);
    assert_eq!(printed(&out), "i");
    let out = handle_scancode(&mut kb, &mut shell, &mut fs, 0x1C);
    assert_eq!(
        printed(&out),
        "\nUnknown command: hi\nType 'help' for available commands.\nilo-lawa> "
    );
}

#[test]
fn decoding_table_is_one_to_one() {
    let mut seen = std::collections::HashMap::new();
    for s in 0u8..=255 {
        let mut kb = Keyboard::new();
        if let Some(c) = kb.process_scancode(s) {
            let listed = (0x02..=0x1C).contains(&s)
                || (0x1E..=0x29).contains(&s)
                || (0x2B..=0x35).contains(&s)
                || s == 0x39;
            assert!(listed, "scancode {:#x} decodes", s);
            assert!(c.is_ascii() && !c.is_ascii_uppercase());
            assert_eq!(seen.insert(c, s), None, "{:?} decoded twice", c);
        }
    }
    // 0x1D is Ctrl, 0x2A and 0x36 are Shift: modifiers, not characters
    assert_eq!(seen.len(), 51);
}
