//! PS/2 keyboard decoding (US QWERTY, scancode set 1) and the scancode ring
//! buffer that the keyboard interrupt fills and the main loop drains.
use vstd::prelude::*;
use crate::fs::memory::MemoryFileSystem;
use crate::shell::{Shell, ShellAction, spec_handle_key, transcript};

verus! {

/// Number of slots in the scancode ring; one slot always stays free, so the
/// queue holds at most `QUEUE_SIZE - 1` scancodes.
pub const QUEUE_SIZE: usize = 256;

/// Ring buffer of raw scancodes.
pub struct ScancodeQueue {
    buffer: Vec<u8>,
    read_pos: usize,
    write_pos: usize,
}

impl ScancodeQueue {
    /// Storage is `QUEUE_SIZE` slots and both positions index into it.
    pub closed spec fn wf(&self) -> bool {
        &&& self.buffer@.len() == QUEUE_SIZE
        &&& self.read_pos < QUEUE_SIZE
        &&& self.write_pos < QUEUE_SIZE
    }

    /// Number of queued scancodes.
    pub closed spec fn spec_len(&self) -> nat {
        ((self.write_pos + QUEUE_SIZE - self.read_pos) % (QUEUE_SIZE as int)) as nat
    }

    /// The queued scancodes, oldest first.
    pub closed spec fn view(&self) -> Seq<u8> {
        Seq::new(
            self.spec_len(),
            |i: int| self.buffer@[(self.read_pos + i) % (QUEUE_SIZE as int)],
        )
    }

    pub fn new() -> (q: Self)
        ensures
            q.wf(),
            q.view() == Seq::<u8>::empty(),
    {
        let q = ScancodeQueue { buffer: vec![0u8; QUEUE_SIZE], read_pos: 0, write_pos: 0 };
        assert(q.view() =~= Seq::<u8>::empty());
        q
    }

    /// Appends `scancode` unless the queue already holds `QUEUE_SIZE - 1`
    /// scancodes, in which case the scancode is dropped.
    pub fn push(&mut self, scancode: u8)
        requires
            old(self).wf(),
        ensures
            final(self).wf(),
            final(self).view() == spec_queue_push(old(self).view(), scancode),
    {
        let next = (self.write_pos + 1) % QUEUE_SIZE;
        if next != self.read_pos {
            let ghost old_view = self.view();
            let wp = self.write_pos;
            self.buffer.set(wp, scancode);
            self.write_pos = next;
            assert(self.spec_len() == old_view.len() + 1);
            assert forall|i: int| 0 <= i < old_view.len() implies #[trigger] self.view()[i]
                == old_view[i] by {
                assert((self.read_pos + i) % (QUEUE_SIZE as int) != wp as int);
            }
            assert(self.view()[old_view.len() as int] == scancode);
            assert(self.view() =~= old_view.push(scancode));
        }
    }

    /// Removes and returns the oldest scancode, or `None` when empty.
    pub fn pop(&mut self) -> (r: Option<u8>)
        requires
            old(self).wf(),
        ensures
            final(self).wf(),
            (r, final(self).view()) == spec_queue_pop(old(self).view()),
    {
        if self.read_pos == self.write_pos {
            assert(self.view() =~= Seq::<u8>::empty());
            None
        } else {
            let ghost old_view = self.view();
            let scancode = self.buffer[self.read_pos];
            self.read_pos = (self.read_pos + 1) % QUEUE_SIZE;
            assert(old_view[0] == scancode);
            assert(self.spec_len() == old_view.len() - 1);
            assert forall|i: int| 0 <= i < self.spec_len() implies #[trigger] self.view()[i]
                == old_view.drop_first()[i] by {
                assert((self.read_pos + i) % (QUEUE_SIZE as int) == (old(self).read_pos + (i + 1))
                    % (QUEUE_SIZE as int));
            }
            assert(self.view() =~= old_view.drop_first());
            Some(scancode)
        }
    }
}

/// What `push` does to the queued sequence.
pub open spec fn spec_queue_push(s: Seq<u8>, scancode: u8) -> Seq<u8> {
    if s.len() < QUEUE_SIZE - 1 {
        s.push(scancode)
    } else {
        s
    }
}

/// What `pop` returns, and what it leaves queued.
pub open spec fn spec_queue_pop(s: Seq<u8>) -> (Option<u8>, Seq<u8>) {
    if s.len() == 0 {
        (None, s)
    } else {
        (Some(s[0]), s.drop_first())
    }
}

/// The queue is first in, first out: a scancode pushed onto a queue that has
/// room comes out of `pop` after everything that was queued before it, and
/// popping from a non-empty queue commutes with pushing.
pub proof fn law_queue_fifo(s: Seq<u8>, scancode: u8)
    requires
        s.len() < QUEUE_SIZE - 1,
    ensures
        spec_queue_push(s, scancode).len() == s.len() + 1,
        spec_queue_push(s, scancode).last() == scancode,
        s.len() == 0 ==> spec_queue_pop(spec_queue_push(s, scancode)) == (
            Some(scancode),
            Seq::<u8>::empty(),
        ),
        s.len() > 0 ==> spec_queue_pop(spec_queue_push(s, scancode)) == (
            spec_queue_pop(s).0,
            spec_queue_push(spec_queue_pop(s).1, scancode),
        ),
{
    if s.len() == 0 {
        assert(s.push(scancode).drop_first() =~= Seq::<u8>::empty());
    } else {
        assert(s.push(scancode).drop_first() =~= s.drop_first().push(scancode));
    }
}

/// Tracks the modifier keys of a PS/2 keyboard.
pub struct Keyboard {
    shift_pressed: bool,
    ctrl_pressed: bool,
}

/// The character a key produces without modifiers (US QWERTY, set 1).
pub open spec fn spec_scancode_to_ascii(scancode: u8) -> Option<char> {
    match scancode {
        0x02u8 => Some('1'),
        0x03u8 => Some('2'),
        0x04u8 => Some('3'),
        0x05u8 => Some('4'),
        0x06u8 => Some('5'),
        0x07u8 => Some('6'),
        0x08u8 => Some('7'),
        0x09u8 => Some('8'),
        0x0Au8 => Some('9'),
        0x0Bu8 => Some('0'),
        0x0Cu8 => Some('-'),
        0x0Du8 => Some('='),
        0x0Eu8 => Some('\x08'),
        0x0Fu8 => Some('\t'),
        0x10u8 => Some('q'),
        0x11u8 => Some('w'),
        0x12u8 => Some('e'),
        0x13u8 => Some('r'),
        0x14u8 => Some('t'),
        0x15u8 => Some('y'),
        0x16u8 => Some('u'),
        0x17u8 => Some('i'),
        0x18u8 => Some('o'),
        0x19u8 => Some('p'),
        0x1Au8 => Some('['),
        0x1Bu8 => Some(']'),
        0x1Cu8 => Some('\n'),
        0x1Eu8 => Some('a'),
        0x1Fu8 => Some('s'),
        0x20u8 => Some('d'),
        0x21u8 => Some('f'),
        0x22u8 => Some('g'),
        0x23u8 => Some('h'),
        0x24u8 => Some('j'),
        0x25u8 => Some('k'),
        0x26u8 => Some('l'),
        0x27u8 => Some(';'),
        0x28u8 => Some('\''),
        0x29u8 => Some('`'),
        0x2Bu8 => Some('\\'),
        0x2Cu8 => Some('z'),
        0x2Du8 => Some('x'),
        0x2Eu8 => Some('c'),
        0x2Fu8 => Some('v'),
        0x30u8 => Some('b'),
        0x31u8 => Some('n'),
        0x32u8 => Some('m'),
        0x33u8 => Some(','),
        0x34u8 => Some('.'),
        0x35u8 => Some('/'),
        0x39u8 => Some(' '),
        _ => None,
    }
}

/// The scancode whose key produces `c` without Shift, or 0 when no key does.
pub open spec fn spec_key_scancode(c: char) -> u8 {
    match c {
        '1' => 0x02u8,
        '2' => 0x03u8,
        '3' => 0x04u8,
        '4' => 0x05u8,
        '5' => 0x06u8,
        '6' => 0x07u8,
        '7' => 0x08u8,
        '8' => 0x09u8,
        '9' => 0x0Au8,
        '0' => 0x0Bu8,
        '-' => 0x0Cu8,
        '=' => 0x0Du8,
        '\x08' => 0x0Eu8,
        '\t' => 0x0Fu8,
        'q' => 0x10u8,
        'w' => 0x11u8,
        'e' => 0x12u8,
        'r' => 0x13u8,
        't' => 0x14u8,
        'y' => 0x15u8,
        'u' => 0x16u8,
        'i' => 0x17u8,
        'o' => 0x18u8,
        'p' => 0x19u8,
        '[' => 0x1Au8,
        ']' => 0x1Bu8,
        '\n' => 0x1Cu8,
        'a' => 0x1Eu8,
        's' => 0x1Fu8,
        'd' => 0x20u8,
        'f' => 0x21u8,
        'g' => 0x22u8,
        'h' => 0x23u8,
        'j' => 0x24u8,
        'k' => 0x25u8,
        'l' => 0x26u8,
        ';' => 0x27u8,
        '\'' => 0x28u8,
        '`' => 0x29u8,
        '\\' => 0x2Bu8,
        'z' => 0x2Cu8,
        'x' => 0x2Du8,
        'c' => 0x2Eu8,
        'v' => 0x2Fu8,
        'b' => 0x30u8,
        'n' => 0x31u8,
        'm' => 0x32u8,
        ',' => 0x33u8,
        '.' => 0x34u8,
        '/' => 0x35u8,
        ' ' => 0x39u8,
        _ => 0u8,
    }
}

/// The decoding table: exactly the scancodes 0x02-0x1C, 0x1E-0x29,
/// 0x2B-0x35 and 0x39 produce a character; that character is ASCII and not
/// an upper-case letter, and its key is the scancode it came from.
pub proof fn law_scancode_table(scancode: u8)
    ensures
        spec_scancode_to_ascii(scancode) is Some <==> (0x02 <= scancode <= 0x1C || 0x1E
            <= scancode <= 0x29 || 0x2B <= scancode <= 0x35 || scancode == 0x39),
        spec_scancode_to_ascii(scancode) matches Some(c) ==> (c as u32) < 128 && !('A' <= c
            <= 'Z') && spec_key_scancode(c) == scancode,
{
}

/// No two scancodes produce the same character.
pub proof fn law_scancode_injective(s1: u8, s2: u8)
    requires
        s1 != s2,
        spec_scancode_to_ascii(s1) is Some,
    ensures
        spec_scancode_to_ascii(s1) != spec_scancode_to_ascii(s2),
{
    law_scancode_table(s1);
    law_scancode_table(s2);
}

/// The character a key produces with Shift held.
pub open spec fn spec_apply_shift(c: char) -> char {
    match c {
        '1' => '!',
        '2' => '@',
        '3' => '#',
        '4' => '$',
        '5' => '%',
        '6' => '^',
        '7' => '&',
        '8' => '*',
        '9' => '(',
        '0' => ')',
        '-' => '_',
        '=' => '+',
        '[' => '{',
        ']' => '}',
        ';' => ':',
        '\'' => '"',
        '`' => '~',
        '\\' => '|',
        ',' => '<',
        '.' => '>',
        '/' => '?',
        _ => if 'a' <= c && c <= 'z' {
            ((c as u32) - 32) as char
        } else {
            c
        },
    }
}

/// Whether a scancode is one of the modifier events the keyboard tracks.
pub open spec fn is_modifier_scancode(scancode: u8) -> bool {
    scancode == 0x2A || scancode == 0x36 || scancode == 0xAA || scancode == 0xB6 || scancode
        == 0x1D || scancode == 0x9D
}

/// The character a scancode yields with Shift held or not: none for a
/// modifier or a break code, else its character, shifted when Shift is held.
pub open spec fn spec_key(shift: bool, scancode: u8) -> Option<char> {
    if is_modifier_scancode(scancode) || scancode >= 0x80 {
        None
    } else {
        match spec_scancode_to_ascii(scancode) {
            Some(c) => Some(if shift {
                spec_apply_shift(c)
            } else {
                c
            }),
            None => None,
        }
    }
}

/// The unshifted symbols of the US layout that Shift turns into other
/// symbols, in the order of `us_shifted_symbols`.
pub open spec fn us_plain_symbols() -> Seq<char> {
    seq!['1', '2', '3', '4', '5', '6', '7', '8', '9', '0', '-', '=', '[', ']', ';', '\'', '`', '\\', ',', '.', '/']
}

/// What Shift gives on the keys of `us_plain_symbols`, on a US keyboard.
pub open spec fn us_shifted_symbols() -> Seq<char> {
    seq!['!', '@', '#', '$', '%', '^', '&', '*', '(', ')', '_', '+', '{', '}', ':', '"', '~', '|', '<', '>', '?']
}

/// With Shift held, a key gives what the US layout prints on it: the
/// symbol above a digit or punctuation key, the capital of a letter, and
/// the same character for space, Enter, Tab and Backspace.
pub proof fn law_shift_follows_us_layout(scancode: u8, i: int)
    ensures
        0 <= i < us_plain_symbols().len() && spec_key(false, scancode) == Some(us_plain_symbols()[i])
            ==> spec_key(true, scancode) == Some(us_shifted_symbols()[i]),
        spec_key(false, scancode) matches Some(c) ==> ('a' <= c <= 'z' ==> spec_key(true, scancode)
            == Some(((c as u32) - 32) as char)),
        spec_key(false, scancode) matches Some(c) ==> ((c == ' ' || c == '\n' || c == '\t' || c
            == '\x08') ==> spec_key(true, scancode) == Some(c)),
        spec_key(true, scancode) is Some == spec_key(false, scancode) is Some,
{
    assert(us_plain_symbols().len() == 21);
    assert(us_shifted_symbols().len() == 21);
}

impl Keyboard {
    pub fn new() -> (k: Self)
        ensures
            !k.shift(),
            !k.ctrl(),
    {
        Keyboard { shift_pressed: false, ctrl_pressed: false }
    }

    /// Whether a Shift key is held.
    pub closed spec fn shift(&self) -> bool {
        self.shift_pressed
    }

    /// Whether Ctrl is held.
    pub closed spec fn ctrl(&self) -> bool {
        self.ctrl_pressed
    }

    /// Decodes one scancode: modifier make/break codes update the modifier
    /// state and yield nothing, other break codes yield nothing, and make
    /// codes yield their character, shifted when Shift is held.
    pub fn process_scancode(&mut self, scancode: u8) -> (r: Option<char>)
        ensures
            final(self).shift() == (if scancode == 0x2A || scancode == 0x36 {
                true
            } else if scancode == 0xAA || scancode == 0xB6 {
                false
            } else {
                old(self).shift()
            }),
            final(self).ctrl() == (if scancode == 0x1D {
                true
            } else if scancode == 0x9D {
                false
            } else {
                old(self).ctrl()
            }),
            r == spec_key(old(self).shift(), scancode),
    {
        if scancode == 0x2A || scancode == 0x36 {
            self.shift_pressed = true;
            return None;
        }
        if scancode == 0xAA || scancode == 0xB6 {
            self.shift_pressed = false;
            return None;
        }
        if scancode == 0x1D {
            self.ctrl_pressed = true;
            return None;
        }
        if scancode == 0x9D {
            self.ctrl_pressed = false;
            return None;
        }
        if scancode & 0x80 != 0 {
            assert(scancode & 0x80 != 0 ==> scancode >= 0x80) by (bit_vector);
            return None;
        }
        assert(scancode & 0x80 == 0 ==> scancode < 0x80) by (bit_vector);
        match self.scancode_to_ascii(scancode) {
            Some(c) => if self.shift_pressed {
                Some(self.apply_shift(c))
            } else {
                Some(c)
            },
            None => None,
        }
    }

    fn scancode_to_ascii(&self, scancode: u8) -> (r: Option<char>)
        ensures
            r == spec_scancode_to_ascii(scancode),
    {
        match scancode {
            0x01 => None,
            0x02 => Some('1'),
            0x03 => Some('2'),
            0x04 => Some('3'),
            0x05 => Some('4'),
            0x06 => Some('5'),
            0x07 => Some('6'),
            0x08 => Some('7'),
            0x09 => Some('8'),
            0x0A => Some('9'),
            0x0B => Some('0'),
            0x0C => Some('-'),
            0x0D => Some('='),
            0x0E => Some('\x08'),
            0x0F => Some('\t'),
            0x10 => Some('q'),
            0x11 => Some('w'),
            0x12 => Some('e'),
            0x13 => Some('r'),
            0x14 => Some('t'),
            0x15 => Some('y'),
            0x16 => Some('u'),
            0x17 => Some('i'),
            0x18 => Some('o'),
            0x19 => Some('p'),
            0x1A => Some('['),
            0x1B => Some(']'),
            0x1C => Some('\n'),
            0x1E => Some('a'),
            0x1F => Some('s'),
            0x20 => Some('d'),
            0x21 => Some('f'),
            0x22 => Some('g'),
            0x23 => Some('h'),
            0x24 => Some('j'),
            0x25 => Some('k'),
            0x26 => Some('l'),
            0x27 => Some(';'),
            0x28 => Some('\''),
            0x29 => Some('`'),
            0x2B => Some('\\'),
            0x2C => Some('z'),
            0x2D => Some('x'),
            0x2E => Some('c'),
            0x2F => Some('v'),
            0x30 => Some('b'),
            0x31 => Some('n'),
            0x32 => Some('m'),
            0x33 => Some(','),
            0x34 => Some('.'),
            0x35 => Some('/'),
            0x39 => Some(' '),
            _ => None,
        }
    }

    fn apply_shift(&self, c: char) -> (r: char)
        ensures
            r == spec_apply_shift(c),
    {
        match c {
            '1' => '!',
            '2' => '@',
            '3' => '#',
            '4' => '$',
            '5' => '%',
            '6' => '^',
            '7' => '&',
            '8' => '*',
            '9' => '(',
            '0' => ')',
            '-' => '_',
            '=' => '+',
            '[' => '{',
            ']' => '}',
            ';' => ':',
            '\'' => '"',
            '`' => '~',
            '\\' => '|',
            ',' => '<',
            '.' => '>',
            '/' => '?',
            'a'..='z' => ((c as u8) - 32) as char,
            _ => c,
        }
    }
}

/// Enqueues a scancode read by the keyboard interrupt; no decoding happens here.
pub fn add_scancode(queue: &mut ScancodeQueue, scancode: u8)
    requires
        old(queue).wf(),
    ensures
        final(queue).wf(),
        final(queue).view() == spec_queue_push(old(queue).view(), scancode),
{
    queue.push(scancode);
}

/// Dequeues the oldest pending scancode.
pub fn try_pop_scancode(queue: &mut ScancodeQueue) -> (r: Option<u8>)
    requires
        old(queue).wf(),
    ensures
        final(queue).wf(),
        (r, final(queue).view()) == spec_queue_pop(old(queue).view()),
{
    queue.pop()
}

/// Decodes a scancode and, when it yields a character, feeds it to the
/// shell; returns what the shell asks the platform to show or do.
pub fn handle_scancode(
    kb: &mut Keyboard,
    shell: &mut Shell,
    fs: &mut MemoryFileSystem,
    scancode: u8,
) -> (r: Vec<ShellAction>)
    requires
        old(shell).wf(),
    ensures
        final(shell).wf(),
        final(kb).shift() == (if scancode == 0x2A || scancode == 0x36 {
            true
        } else if scancode == 0xAA || scancode == 0xB6 {
            false
        } else {
            old(kb).shift()
        }),
        final(kb).ctrl() == (if scancode == 0x1D {
            true
        } else if scancode == 0x9D {
            false
        } else {
            old(kb).ctrl()
        }),
        match spec_key(old(kb).shift(), scancode) {
            Some(c) => {
                let (st, ev, root, cwd) = spec_handle_key(
                    old(shell).view(),
                    c,
                    old(fs).root(),
                    old(fs).cwd(),
                );
                &&& final(shell).view() == st
                &&& transcript(r@) == ev
                &&& final(fs).root() == root
                &&& final(fs).cwd() == cwd
            },
            None => {
                &&& final(shell).view() == old(shell).view()
                &&& r@.len() == 0
                &&& *final(fs) == *old(fs)
            },
        },
{
    match kb.process_scancode(scancode) {
        Some(c) => shell.handle_key(c, fs),
        None => Vec::new(),
    }
}

} // verus!
