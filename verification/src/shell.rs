//! Line-editing command shell. Key presses edit the command line; Enter
//! runs the command against the filesystem. What the shell shows, and the
//! power actions it requests, come back as a list of actions for the
//! platform code to carry out.
use vstd::prelude::*;
use vstd::string::StringExecFns;
use vstd::string::StringSliceAdditionalSpecFns;
use vstd::utf8::{valid_utf8, decode_utf8, encode_utf8};
use crate::fs::memory::{
    MemoryFileSystem,
    Node,
    spec_list,
    spec_cd,
    spec_create,
    spec_write,
    spec_read,
    spec_remove,
    failure_debug,
};
use crate::fs::spec_listing_line;
use crate::text::{
    push_char,
    push_str,
    chars_to_string,
    split_chars,
    seqs_of,
    spec_split,
    spec_nonempty,
    spec_decimal,
    decimal_string,
    strings_view,
    nonempty_strings,
    string_from_utf8,
    eq_lit,
};
use vstd::string::StrSliceExecFns;

verus! {

pub const MAX_COMMAND_LENGTH: usize = 256;

pub const HISTORY_SIZE: usize = 10;

/// What the shell asks the platform to do.
pub enum ShellAction {
    /// Print text on the terminal.
    Print(String),
    /// Clear the terminal.
    ClearScreen,
    /// Halt the machine.
    Shutdown,
    /// Reset the machine through the keyboard controller, halting if that
    /// does not take.
    Reboot,
}

/// One observable effect of the shell.
pub enum Event {
    Glyph(char),
    ClearScreen,
    Shutdown,
    Reboot,
}

/// Printing the character `c`.
pub open spec fn glyph_event(c: char) -> Event {
    Event::Glyph(c)
}

/// Printing `s`.
pub open spec fn printed(s: Seq<char>) -> Seq<Event> {
    Seq::new(s.len(), |i: int| glyph_event(s[i]))
}

pub open spec fn action_events(a: ShellAction) -> Seq<Event> {
    match a {
        ShellAction::Print(s) => printed(s@),
        ShellAction::ClearScreen => seq![Event::ClearScreen],
        ShellAction::Shutdown => seq![Event::Shutdown],
        ShellAction::Reboot => seq![Event::Reboot],
    }
}

/// The effects of a list of actions, in order.
pub open spec fn transcript(actions: Seq<ShellAction>) -> Seq<Event>
    decreases actions.len(),
{
    if actions.len() == 0 {
        Seq::empty()
    } else {
        transcript(actions.drop_last()) + action_events(actions.last())
    }
}

/// Appends the printing of `s`.
fn emit(out: &mut Vec<ShellAction>, s: &str)
    ensures
        transcript(final(out)@) == transcript(old(out)@) + printed(s@),
{
    let ghost before = out@;
    out.push(ShellAction::Print(String::from_str(s)));
    assert(out@.drop_last() =~= before);
}

/// Appends the printing of `s`.
fn emit_string(out: &mut Vec<ShellAction>, s: String)
    ensures
        transcript(final(out)@) == transcript(old(out)@) + printed(s@),
{
    let ghost before = out@;
    out.push(ShellAction::Print(s));
    assert(out@.drop_last() =~= before);
}

/// Appends a non-printing action.
fn emit_action(out: &mut Vec<ShellAction>, a: ShellAction)
    ensures
        transcript(final(out)@) == transcript(old(out)@) + action_events(a),
{
    let ghost before = out@;
    out.push(a);
    assert(out@.drop_last() =~= before);
}

/// The prompt.
pub open spec fn prompt() -> Seq<char> {
    "ilo-lawa> "@
}

/// `n` spaces.
pub open spec fn spaces(n: nat) -> Seq<char> {
    Seq::new(n, |i: int| ' ')
}

/// Whether a key is printable ASCII (what the shell inserts).
pub open spec fn is_printable_ascii(c: char) -> bool {
    ' ' <= c && c <= '~'
}

/// `s` without leading and trailing spaces.
pub open spec fn strip_spaces(s: Seq<char>) -> Seq<char>
    decreases s.len(),
{
    if s.len() > 0 && s[0] == ' ' {
        strip_spaces(s.drop_first())
    } else if s.len() > 0 && s.last() == ' ' {
        strip_spaces(s.drop_last())
    } else {
        s
    }
}

/// The words of a command line.
pub open spec fn words(s: Seq<char>) -> Seq<Seq<char>> {
    spec_nonempty(spec_split(s, ' '))
}

/// The history after running `cmd`: a non-empty command that differs from
/// the last one is appended, dropping the oldest beyond ten entries.
pub open spec fn history_add(h: Seq<Seq<char>>, cmd: Seq<char>) -> Seq<Seq<char>> {
    if cmd.len() > 0 && (h.len() == 0 || h.last() != cmd) {
        (if h.len() >= HISTORY_SIZE {
            h.drop_first()
        } else {
            h
        }).push(cmd)
    } else {
        h
    }
}

/// The words joined with `sep` between them.
pub open spec fn join(words: Seq<Seq<char>>, sep: Seq<char>) -> Seq<char>
    decreases words.len(),
{
    if words.len() == 0 {
        Seq::empty()
    } else if words.len() == 1 {
        words[0]
    } else {
        join(words.drop_last(), sep) + sep + words.last()
    }
}

/// The first argument, or `default` when there is none.
pub open spec fn first_arg(args: Seq<Seq<char>>, default: Seq<char>) -> Seq<char> {
    if args.len() > 0 && args[0].len() > 0 {
        args[0]
    } else {
        default
    }
}

/// The text of `help`.
pub open spec fn help_text() -> Seq<char> {
    "Available commands:\n"@ + "\nSystem Commands:\n"@ + "  help     - Show this help message\n"@
        + "  clear    - Clear the screen\n"@ + "  echo     - Print arguments to screen\n"@
        + "  version  - Show OS version\n"@ + "  uptime   - Show system uptime\n"@
        + "  history  - Show command history\n"@ + "  shutdown - Shutdown the system\n"@
        + "  reboot   - Reboot the system\n"@ + "\nFilesystem Commands:\n"@
        + "  ls       - List directory contents\n"@ + "  cd       - Change directory\n"@
        + "  pwd      - Print working directory\n"@ + "  cat      - Display file contents\n"@
        + "  mkdir    - Create directory\n"@ + "  rm       - Remove file\n"@
        + "  write    - Create file with content\n"@
}

/// The text of `history`: each command numbered from 1.
pub open spec fn history_text(h: Seq<Seq<char>>) -> Seq<char> {
    if h.len() == 0 {
        "No command history.\n"@
    } else {
        history_lines(h, h.len())
    }
}

pub open spec fn history_lines(h: Seq<Seq<char>>, n: nat) -> Seq<char>
    decreases n,
{
    if n == 0 {
        Seq::empty()
    } else {
        history_lines(h, (n - 1) as nat) + "  "@ + spec_decimal(n) + "  "@ + h[n - 1] + "\n"@
    }
}

/// The text of `ls`: one line per entry, or a note for an empty listing.
pub open spec fn listing_text(children: Seq<Node>) -> Seq<char> {
    if children.len() == 0 {
        "(empty directory)\n"@
    } else {
        listing_lines(children, children.len())
    }
}

pub open spec fn listing_lines(children: Seq<Node>, n: nat) -> Seq<char>
    decreases n,
{
    if n == 0 {
        Seq::empty()
    } else {
        listing_lines(children, (n - 1) as nat) + spec_listing_line(children[n - 1]) + "\n"@
    }
}

/// The text of `cat` for file contents: the text with a final newline
/// added when missing, or a note for bytes that are not UTF-8.
pub open spec fn cat_text(data: Seq<u8>) -> Seq<char> {
    if valid_utf8(data) {
        let content = decode_utf8(data);
        if content.len() > 0 && content.last() == '\n' {
            content
        } else {
            content + "\n"@
        }
    } else {
        "(binary file)\n"@
    }
}

/// A command's effects, and the filesystem's tree and current directory
/// after it.
pub open spec fn spec_execute(
    parts: Seq<Seq<char>>,
    history: Seq<Seq<char>>,
    root: Node,
    cwd: Seq<char>,
) -> (Seq<Event>, Node, Seq<char>) {
    if parts.len() == 0 {
        (Seq::empty(), root, cwd)
    } else {
        let name = parts[0];
        let args = parts.drop_first();
        if name == "help"@ {
            (printed(help_text()), root, cwd)
        } else if name == "clear"@ {
            (seq![Event::ClearScreen], root, cwd)
        } else if name == "echo"@ {
            (printed(join(args, " "@) + "\n"@), root, cwd)
        } else if name == "version"@ {
            (printed("ilo-lawa OS v0.4.0\n"@ + "Built with Rust and UEFI\n"@), root, cwd)
        } else if name == "uptime"@ {
            (printed("System has been running for: [not implemented]\n"@), root, cwd)
        } else if name == "history"@ {
            (printed(history_text(history)), root, cwd)
        } else if name == "shutdown"@ {
            (printed("Shutting down...\n"@) + seq![Event::Shutdown], root, cwd)
        } else if name == "reboot"@ {
            (printed("Rebooting...\n"@) + seq![Event::Reboot], root, cwd)
        } else if name == "ls"@ {
            (
                printed(
                    match spec_list(root, cwd, first_arg(args, Seq::empty())) {
                        Ok(n) => listing_text(n.children),
                        Err(_) => listing_text(Seq::empty()),
                    },
                ),
                root,
                cwd,
            )
        } else if name == "cd"@ {
            match spec_cd(root, cwd, first_arg(args, seq!['/'])) {
                Ok(d) => (Seq::empty(), root, d),
                Err(f) => (printed("cd: "@ + failure_debug(f) + "\n"@), root, cwd),
            }
        } else if name == "pwd"@ {
            (printed(cwd + "\n"@), root, cwd)
        } else if name == "cat"@ {
            if args.len() == 0 {
                (printed("Usage: "@ + "cat"@ + " <path>\n"@), root, cwd)
            } else {
                match spec_read(root, cwd, args[0]) {
                    Ok(d) => (printed(cat_text(d)), root, cwd),
                    Err(f) => (printed("cat: "@ + failure_debug(f) + "\n"@), root, cwd),
                }
            }
        } else if name == "mkdir"@ {
            if args.len() == 0 {
                (printed("Usage: "@ + "mkdir"@ + " <path>\n"@), root, cwd)
            } else {
                match spec_create(root, cwd, args[0], true) {
                    Ok(t) => (Seq::empty(), t, cwd),
                    Err(f) => (printed("mkdir: "@ + failure_debug(f) + "\n"@), root, cwd),
                }
            }
        } else if name == "rm"@ {
            if args.len() == 0 {
                (printed("Usage: "@ + "rm"@ + " <path>\n"@), root, cwd)
            } else {
                match spec_remove(root, cwd, args[0], false) {
                    Ok(t) => (Seq::empty(), t, cwd),
                    Err(f) => (printed("rm: "@ + failure_debug(f) + "\n"@), root, cwd),
                }
            }
        } else if name == "write"@ {
            if args.len() < 2 {
                (printed("Usage: write <filename> <content>\n"@), root, cwd)
            } else {
                let content = encode_utf8(join(args.drop_first(), " "@));
                match spec_create(root, cwd, args[0], false) {
                    Err(f) => (printed("write: "@ + failure_debug(f) + "\n"@), root, cwd),
                    Ok(t) => match spec_write(t, cwd, args[0], content) {
                        Ok(t2) => (printed("File created: "@ + args[0] + "\n"@), t2, cwd),
                        Err(f) => (printed("write: "@ + failure_debug(f) + "\n"@), t, cwd),
                    },
                }
            }
        } else {
            (
                printed("Unknown command: "@ + name + "\nType 'help' for available commands.\n"@),
                root,
                cwd,
            )
        }
    }
}

/// The number of a history line (at most two digits).
fn history_number(n: usize) -> (r: String)
    requires
        1 <= n < 100,
    ensures
        r@ == spec_decimal(n as nat),
{
    let mut r = String::new();
    if n >= 10 {
        push_char(&mut r, ((n / 10) as u8 + 48) as char);
    }
    push_char(&mut r, ((n % 10) as u8 + 48) as char);
    proof {
        if n < 10 {
            assert(r@ =~= spec_decimal(n as nat));
        } else {
            assert(spec_decimal(n as nat) == spec_decimal((n / 10) as nat).push(
                crate::text::spec_digit((n % 10) as nat),
            ));
            assert(r@ =~= spec_decimal(n as nat));
        }
    }
    r
}

/// The command shell: the line being edited, the cursor in it, and the
/// history of commands run.
pub struct Shell {
    command_buffer: Vec<char>,
    history: Vec<String>,
    history_index: usize,
    cursor_position: usize,
}

/// The state of the shell as its contracts see it.
pub struct ShellView {
    pub buffer: Seq<char>,
    pub history: Seq<Seq<char>>,
    pub history_index: nat,
    pub cursor: nat,
}

/// One key press: the shell's next state, what it shows or requests, and
/// the filesystem's tree and current directory afterwards.
pub open spec fn spec_handle_key(st: ShellView, c: char, root: Node, cwd: Seq<char>) -> (
    ShellView,
    Seq<Event>,
    Node,
    Seq<char>,
) {
    if c == '\n' {
        if st.buffer.len() > 0 {
            let cmd = strip_spaces(st.buffer);
            let h = history_add(st.history, cmd);
            let (ev, root2, cwd2) = spec_execute(words(cmd), h, root, cwd);
            (
                ShellView { buffer: Seq::empty(), history: h, history_index: h.len(), cursor: 0 },
                printed("\n"@) + ev + printed(prompt()),
                root2,
                cwd2,
            )
        } else {
            (st, printed(prompt()), root, cwd)
        }
    } else if c == '\x08' {
        if st.cursor > 0 && st.buffer.len() > 0 {
            let b = st.buffer.remove(st.cursor - 1);
            (
                ShellView { buffer: b, cursor: (st.cursor - 1) as nat, ..st },
                printed("\r"@ + spaces(80) + "\r"@ + prompt() + b),
                root,
                cwd,
            )
        } else {
            (st, Seq::empty(), root, cwd)
        }
    } else if c == '\x7F' {
        if st.cursor < st.buffer.len() {
            let b = st.buffer.remove(st.cursor as int);
            (
                ShellView { buffer: b, ..st },
                printed("\r"@ + spaces(10 + b.len()) + "\r"@ + prompt() + b),
                root,
                cwd,
            )
        } else {
            (st, Seq::empty(), root, cwd)
        }
    } else if is_printable_ascii(c) {
        if st.buffer.len() < MAX_COMMAND_LENGTH {
            (
                ShellView {
                    buffer: st.buffer.insert(st.cursor as int, c),
                    cursor: st.cursor + 1,
                    ..st
                },
                printed(seq![c]),
                root,
                cwd,
            )
        } else {
            (st, Seq::empty(), root, cwd)
        }
    } else {
        (st, Seq::empty(), root, cwd)
    }
}

impl Shell {
    pub closed spec fn view(&self) -> ShellView {
        ShellView {
            buffer: self.command_buffer@,
            history: strings_view(self.history@),
            history_index: self.history_index as nat,
            cursor: self.cursor_position as nat,
        }
    }

    /// The line holds printable ASCII only and at most 256 characters, the
    /// cursor is in it, and the history holds at most ten commands.
    pub closed spec fn wf(&self) -> bool {
        &&& self.command_buffer@.len() <= MAX_COMMAND_LENGTH
        &&& self.cursor_position <= self.command_buffer@.len()
        &&& forall|i: int|
            0 <= i < self.command_buffer@.len() ==> is_printable_ascii(
                #[trigger] self.command_buffer@[i],
            )
        &&& self.history@.len() <= HISTORY_SIZE
    }

    /// A shell with an empty line and no history.
    pub fn new() -> (s: Self)
        ensures
            s.wf(),
            s.view() == (ShellView {
                buffer: Seq::empty(),
                history: Seq::empty(),
                history_index: 0,
                cursor: 0,
            }),
    {
        let s = Shell {
            command_buffer: Vec::new(),
            history: Vec::with_capacity(HISTORY_SIZE),
            history_index: 0,
            cursor_position: 0,
        };
        assert(s.view().history =~= Seq::<Seq<char>>::empty());
        s
    }
}

proof fn lemma_transcript_append(a: Seq<ShellAction>, b: Seq<ShellAction>)
    ensures
        transcript(a + b) == transcript(a) + transcript(b),
    decreases b.len(),
{
    if b.len() == 0 {
        assert(a + b =~= a);
        assert(transcript(b) =~= Seq::<Event>::empty());
        assert(transcript(a) + transcript(b) =~= transcript(a));
    } else {
        lemma_transcript_append(a, b.drop_last());
        assert((a + b).drop_last() =~= a + b.drop_last());
        assert(transcript(a + b) =~= transcript(a) + transcript(b));
    }
}

/// `s` without leading and trailing spaces.
fn strip(s: &Vec<char>) -> (r: Vec<char>)
    ensures
        r@ == strip_spaces(s@),
{
    let n = s.len();
    let mut i: usize = 0;
    assert(s@.skip(0) =~= s@);
    while i < n && s[i] == ' '
        invariant
            n == s@.len(),
            i <= n,
            strip_spaces(s@.skip(i as int)) == strip_spaces(s@),
        decreases n - i,
    {
        assert(s@.skip(i as int).drop_first() =~= s@.skip(i + 1));
        i = i + 1;
    }
    let mut j = n;
    assert(s@.subrange(i as int, n as int) =~= s@.skip(i as int));
    while j > i && s[j - 1] == ' '
        invariant
            n == s@.len(),
            i <= j <= n,
            i < n ==> s@[i as int] != ' ',
            strip_spaces(s@.subrange(i as int, j as int)) == strip_spaces(s@),
        decreases j - i,
    {
        assert(s@.subrange(i as int, j as int).drop_last() =~= s@.subrange(i as int, j - 1));
        j = j - 1;
    }
    let mut r: Vec<char> = Vec::new();
    let mut k = i;
    while k < j
        invariant
            i <= k <= j <= n,
            n == s@.len(),
            r@ == s@.subrange(i as int, k as int),
        decreases j - k,
    {
        r.push(s[k]);
        assert(r@ =~= s@.subrange(i as int, k + 1));
        k = k + 1;
    }
    r
}

/// The words joined with `sep`, starting at word `from`.
fn join_words(words: &Vec<String>, from: usize, sep: &str) -> (r: String)
    requires
        from <= words@.len(),
    ensures
        r@ == join(strings_view(words@).skip(from as int), sep@),
{
    let mut r = String::new();
    let mut i = from;
    let ghost w = strings_view(words@).skip(from as int);
    while i < words.len()
        invariant
            from <= i <= words@.len(),
            w == strings_view(words@).skip(from as int),
            r@ == join(w.take(i - from), sep@),
        decreases words@.len() - i,
    {
        assert(w.take(i + 1 - from).drop_last() =~= w.take(i - from));
        assert(w[i - from] == words@[i as int]@);
        if i > from {
            push_str(&mut r, sep);
        } else {
            assert(r@ =~= Seq::<char>::empty());
        }
        push_str(&mut r, words[i].as_str());
        proof {
            if i == from {
                assert(r@ =~= w.take(1)[0]);
            }
        }
        i = i + 1;
    }
    assert(w.take(words@.len() - from) =~= w);
    r
}

/// The first argument (word 1), or `default`.
fn get_first_arg<'a>(parts: &'a Vec<String>, default: &'a str) -> (r: &'a str)
    requires
        parts@.len() >= 1,
    ensures
        r@ == first_arg(strings_view(parts@).drop_first(), default@),
{
    if parts.len() > 1 && !parts[1].as_str().is_empty() {
        parts[1].as_str()
    } else {
        default
    }
}

/// The text of `help`.
fn help_string() -> (r: String)
    ensures
        r@ == help_text(),
{
    let mut s = String::new();
    push_str(&mut s, "Available commands:\n");
    push_str(&mut s, "\nSystem Commands:\n");
    push_str(&mut s, "  help     - Show this help message\n");
    push_str(&mut s, "  clear    - Clear the screen\n");
    push_str(&mut s, "  echo     - Print arguments to screen\n");
    push_str(&mut s, "  version  - Show OS version\n");
    push_str(&mut s, "  uptime   - Show system uptime\n");
    push_str(&mut s, "  history  - Show command history\n");
    push_str(&mut s, "  shutdown - Shutdown the system\n");
    push_str(&mut s, "  reboot   - Reboot the system\n");
    push_str(&mut s, "\nFilesystem Commands:\n");
    push_str(&mut s, "  ls       - List directory contents\n");
    push_str(&mut s, "  cd       - Change directory\n");
    push_str(&mut s, "  pwd      - Print working directory\n");
    push_str(&mut s, "  cat      - Display file contents\n");
    push_str(&mut s, "  mkdir    - Create directory\n");
    push_str(&mut s, "  rm       - Remove file\n");
    push_str(&mut s, "  write    - Create file with content\n");
    assert(s@ =~= help_text());
    s
}

/// The text of `history`.
fn history_string(history: &Vec<String>) -> (r: String)
    requires
        history@.len() <= HISTORY_SIZE,
    ensures
        r@ == history_text(strings_view(history@)),
{
    if history.len() == 0 {
        return String::from_str("No command history.\n");
    }
    let ghost h = strings_view(history@);
    let mut s = String::new();
    let mut i: usize = 0;
    while i < history.len()
        invariant
            i <= history@.len() <= HISTORY_SIZE,
            h == strings_view(history@),
            s@ == history_lines(h, i as nat),
        decreases history@.len() - i,
    {
        push_str(&mut s, "  ");
        let num = history_number(i + 1);
        push_str(&mut s, num.as_str());
        push_str(&mut s, "  ");
        push_str(&mut s, history[i].as_str());
        push_str(&mut s, "\n");
        assert(h[i as int] == history@[i as int]@);
        assert(s@ =~= history_lines(h, (i + 1) as nat));
        i = i + 1;
    }
    s
}

/// The text of `ls` for `path`.
fn ls_string(fs: &mut MemoryFileSystem, path: &str) -> (r: String)
    ensures
        *final(fs) == *old(fs),
        r@ == listing_text(
            match spec_list(old(fs).root(), old(fs).cwd(), path@) {
                Ok(n) => n.children,
                Err(_) => Seq::empty(),
            },
        ),
{
    let lines = crate::fs::list_directory(fs, path);
    let ghost children = match spec_list(old(fs).root(), old(fs).cwd(), path@) {
        Ok(n) => n.children,
        Err(_) => Seq::<Node>::empty(),
    };
    if lines.len() == 0 {
        return String::from_str("(empty directory)\n");
    }
    let mut s = String::new();
    let mut i: usize = 0;
    while i < lines.len()
        invariant
            i <= lines@.len(),
            lines@.len() == children.len(),
            forall|j: int| 0 <= j < lines@.len() ==> #[trigger] lines@[j]@ == spec_listing_line(
                children[j],
            ),
            s@ == listing_lines(children, i as nat),
        decreases lines@.len() - i,
    {
        push_str(&mut s, lines[i].as_str());
        push_str(&mut s, "\n");
        assert(s@ =~= listing_lines(children, (i + 1) as nat));
        i = i + 1;
    }
    s
}

/// The text of `cat` for file contents.
fn cat_string(data: Vec<u8>) -> (r: String)
    ensures
        r@ == cat_text(data@),
{
    let ghost bytes = data@;
    match string_from_utf8(data) {
        Some(content) => {
            let n = content.as_str().unicode_len();
            let ends_with_newline = n > 0 && content.as_str().get_char(n - 1) == '\n';
            let mut s = content;
            if !ends_with_newline {
                push_str(&mut s, "\n");
            }
            s
        },
        None => String::from_str("(binary file)\n"),
    }
}

/// `prefix`, then `message`, then a newline.
fn error_line(prefix: &str, message: &str) -> (r: String)
    ensures
        r@ == prefix@ + message@ + "\n"@,
{
    let mut s = String::from_str(prefix);
    push_str(&mut s, message);
    push_str(&mut s, "\n");
    s
}

impl Shell {
    /// Runs the words of `parts` as a command.
    fn dispatch(&self, parts: &Vec<String>, fs: &mut MemoryFileSystem, out: &mut Vec<ShellAction>)
        requires
            self.wf(),
        ensures
            ({
                let (ev, root, cwd) = spec_execute(
                    strings_view(parts@),
                    self.view().history,
                    old(fs).root(),
                    old(fs).cwd(),
                );
                &&& transcript(final(out)@) == transcript(old(out)@) + ev
                &&& final(fs).root() == root
                &&& final(fs).cwd() == cwd
            }),
    {
        let ghost p = strings_view(parts@);
        if parts.len() == 0 {
            assert(transcript(out@) =~= transcript(out@) + Seq::<Event>::empty());
            return;
        }
        let name = &parts[0];
        assert(p[0] == name@);
        if eq_lit(name, "help") {
            emit_string(out, help_string());
        } else if eq_lit(name, "clear") {
            emit_action(out, ShellAction::ClearScreen);
        } else if eq_lit(name, "echo") {
            let mut s = join_words(parts, 1, " ");
            push_str(&mut s, "\n");
            assert(p.skip(1) =~= p.drop_first());
            emit_string(out, s);
        } else if eq_lit(name, "version") {
            let mut s = String::from_str("ilo-lawa OS v0.4.0\n");
            push_str(&mut s, "Built with Rust and UEFI\n");
            emit_string(out, s);
        } else if eq_lit(name, "uptime") {
            emit(out, "System has been running for: [not implemented]\n");
        } else if eq_lit(name, "history") {
            emit_string(out, history_string(&self.history));
        } else if eq_lit(name, "shutdown") {
            emit(out, "Shutting down...\n");
            emit_action(out, ShellAction::Shutdown);
        } else if eq_lit(name, "reboot") {
            emit(out, "Rebooting...\n");
            emit_action(out, ShellAction::Reboot);
        } else if eq_lit(name, "ls") {
            let path = get_first_arg(parts, "");
            proof {
                reveal_strlit("");
            }
            assert(""@ =~= Seq::<char>::empty());
            let s = ls_string(fs, path);
            emit_string(out, s);
        } else if eq_lit(name, "cd") {
            let path = get_first_arg(parts, "/");
            assert(path@ == first_arg(p.drop_first(), "/"@));
            proof {
                reveal_strlit("/");
            }
            assert("/"@ =~= seq!['/']);
            match crate::fs::change_directory(fs, path) {
                Ok(()) => {
                    assert(transcript(out@) =~= transcript(out@) + Seq::<Event>::empty());
                },
                Err(e) => emit_string(out, error_line("cd: ", e.as_str())),
            }
        } else if eq_lit(name, "pwd") {
            let path = crate::fs::get_current_path(fs);
            emit_string(out, error_line("", path.as_str()));
            proof {
                reveal_strlit("");
            }
        } else if eq_lit(name, "cat") {
            if parts.len() < 2 {
                let mut s = String::from_str("Usage: ");
                push_str(&mut s, "cat");
                push_str(&mut s, " <path>\n");
                emit_string(out, s);
            } else {
                assert(p.drop_first()[0] == parts@[1]@);
                match crate::fs::read_file(fs, parts[1].as_str()) {
                    Ok(data) => emit_string(out, cat_string(data)),
                    Err(e) => emit_string(out, error_line("cat: ", e.as_str())),
                }
            }
        } else if eq_lit(name, "mkdir") {
            if parts.len() < 2 {
                let mut s = String::from_str("Usage: ");
                push_str(&mut s, "mkdir");
                push_str(&mut s, " <path>\n");
                emit_string(out, s);
            } else {
                assert(p.drop_first()[0] == parts@[1]@);
                match crate::fs::create_directory(fs, parts[1].as_str()) {
                    Ok(()) => {
                        assert(transcript(out@) =~= transcript(out@) + Seq::<Event>::empty());
                    },
                    Err(e) => emit_string(out, error_line("mkdir: ", e.as_str())),
                }
            }
        } else if eq_lit(name, "rm") {
            if parts.len() < 2 {
                let mut s = String::from_str("Usage: ");
                push_str(&mut s, "rm");
                push_str(&mut s, " <path>\n");
                emit_string(out, s);
            } else {
                assert(p.drop_first()[0] == parts@[1]@);
                match crate::fs::remove_file(fs, parts[1].as_str()) {
                    Ok(()) => {
                        assert(transcript(out@) =~= transcript(out@) + Seq::<Event>::empty());
                    },
                    Err(e) => emit_string(out, error_line("rm: ", e.as_str())),
                }
            }
        } else if eq_lit(name, "write") {
            if parts.len() < 3 {
                emit(out, "Usage: write <filename> <content>\n");
            } else {
                let filename = parts[1].as_str();
                assert(p.drop_first()[0] == parts@[1]@);
                let content = join_words(parts, 2, " ");
                assert(p.skip(2) =~= p.drop_first().drop_first());
                let bytes = vstd::slice::slice_to_vec(content.as_str().as_bytes());
                match crate::fs::create_file(fs, filename, bytes) {
                    Ok(()) => {
                        let mut s = String::from_str("File created: ");
                        push_str(&mut s, filename);
                        push_str(&mut s, "\n");
                        emit_string(out, s);
                    },
                    Err(e) => emit_string(out, error_line("write: ", e.as_str())),
                }
            }
        } else {
            let mut s = String::from_str("Unknown command: ");
            push_str(&mut s, name.as_str());
            push_str(&mut s, "\nType 'help' for available commands.\n");
            emit_string(out, s);
        }
    }
}


impl Shell {
    /// Runs the line being edited as a command: records it in the history
    /// and dispatches its words.
    fn execute_command(&mut self, fs: &mut MemoryFileSystem, out: &mut Vec<ShellAction>)
        requires
            old(self).wf(),
        ensures
            final(self).wf(),
            ({
                let cmd = strip_spaces(old(self).view().buffer);
                let h = history_add(old(self).view().history, cmd);
                let (ev, root, cwd) = spec_execute(words(cmd), h, old(fs).root(), old(fs).cwd());
                &&& final(self).view() == (ShellView {
                    history: h,
                    history_index: h.len(),
                    ..old(self).view()
                })
                &&& transcript(final(out)@) == transcript(old(out)@) + ev
                &&& final(fs).root() == root
                &&& final(fs).cwd() == cwd
            }),
    {
        let command = strip(&self.command_buffer);
        let ghost cmd = command@;
        let ghost h0 = strings_view(self.history@);
        let text = chars_to_string(&command, 0, command.len());
        assert(command@.subrange(0, command@.len() as int) =~= command@);
        if command.len() > 0 {
            let differs = if self.history.len() == 0 {
                true
            } else {
                let last = self.history.len() - 1;
                assert(h0.last() == self.history@[last as int]@);
                !eq_lit(&self.history[last], text.as_str())
            };
            if differs {
                if self.history.len() >= HISTORY_SIZE {
                    self.history.remove(0);
                    assert(strings_view(self.history@) =~= h0.drop_first());
                }
                let ghost before = strings_view(self.history@);
                self.history.push(text);
                assert(strings_view(self.history@) =~= before.push(cmd));
            }
        }
        assert(strings_view(self.history@) == history_add(h0, cmd));
        self.history_index = self.history.len();
        let pieces = split_chars(&command, ' ');
        let parts = nonempty_strings(&pieces);
        self.dispatch(&parts, fs, out);
    }

    /// `prompt`, then the line being edited.
    fn prompt_and_line(&self) -> (r: String)
        ensures
            r@ == prompt() + self.command_buffer@,
    {
        let mut s = String::from_str("ilo-lawa> ");
        let line = chars_to_string(&self.command_buffer, 0, self.command_buffer.len());
        assert(self.command_buffer@.subrange(0, self.command_buffer@.len() as int)
            =~= self.command_buffer@);
        push_str(&mut s, line.as_str());
        s
    }

    /// Handles one key press against the filesystem `fs`, and returns what
    /// the platform is to show or do.
    pub fn handle_key(&mut self, c: char, fs: &mut MemoryFileSystem) -> (r: Vec<ShellAction>)
        requires
            old(self).wf(),
        ensures
            final(self).wf(),
            ({
                let (st, ev, root, cwd) = spec_handle_key(
                    old(self).view(),
                    c,
                    old(fs).root(),
                    old(fs).cwd(),
                );
                &&& final(self).view() == st
                &&& transcript(r@) == ev
                &&& final(fs).root() == root
                &&& final(fs).cwd() == cwd
            }),
    {
        let mut out: Vec<ShellAction> = Vec::new();
        assert(transcript(out@) =~= Seq::<Event>::empty());
        if c == '\n' {
            if self.command_buffer.len() > 0 {
                emit(&mut out, "\n");
                self.execute_command(fs, &mut out);
                self.command_buffer.clear();
                self.cursor_position = 0;
            }
            emit(&mut out, "ilo-lawa> ");
            proof {
                if old(self).view().buffer.len() == 0 {
                    assert(transcript(out@) =~= printed(prompt()));
                } else {
                    assert(self.command_buffer@ =~= Seq::<char>::empty());
                }
            }
        } else if c == '\x08' {
            if self.cursor_position > 0 && self.command_buffer.len() > 0 {
                self.cursor_position = self.cursor_position - 1;
                self.command_buffer.remove(self.cursor_position);
                let mut s = String::from_str("\r");
                let mut i: usize = 0;
                while i < 80
                    invariant
                        i <= 80,
                        s@ == "\r"@ + spaces(i as nat),
                    decreases 80 - i,
                {
                    push_char(&mut s, ' ');
                    assert(s@ =~= "\r"@ + spaces((i + 1) as nat));
                    i = i + 1;
                }
                push_str(&mut s, "\r");
                let rest = self.prompt_and_line();
                push_str(&mut s, rest.as_str());
                assert(s@ =~= "\r"@ + spaces(80) + "\r"@ + prompt() + self.command_buffer@);
                emit_string(&mut out, s);
                assert(transcript(out@) =~= printed(s@));
                assert forall|k: int| 0 <= k < self.command_buffer@.len() implies is_printable_ascii(
                    #[trigger] self.command_buffer@[k],
                ) by {
                    if k < self.cursor_position {
                        assert(self.command_buffer@[k] == old(self).command_buffer@[k]);
                    } else {
                        assert(self.command_buffer@[k] == old(self).command_buffer@[k + 1]);
                    }
                }
            }
        } else if c == '\x7F' {
            if self.cursor_position < self.command_buffer.len() {
                self.command_buffer.remove(self.cursor_position);
                let n = self.command_buffer.len() + 10;
                let mut s = String::from_str("\r");
                let mut i: usize = 0;
                while i < n
                    invariant
                        i <= n,
                        s@ == "\r"@ + spaces(i as nat),
                    decreases n - i,
                {
                    push_char(&mut s, ' ');
                    assert(s@ =~= "\r"@ + spaces((i + 1) as nat));
                    i = i + 1;
                }
                push_str(&mut s, "\r");
                let rest = self.prompt_and_line();
                push_str(&mut s, rest.as_str());
                assert(s@ =~= "\r"@ + spaces((10 + self.command_buffer@.len()) as nat) + "\r"@
                    + prompt() + self.command_buffer@);
                emit_string(&mut out, s);
                assert(transcript(out@) =~= printed(s@));
                assert forall|k: int| 0 <= k < self.command_buffer@.len() implies is_printable_ascii(
                    #[trigger] self.command_buffer@[k],
                ) by {
                    if k < self.cursor_position {
                        assert(self.command_buffer@[k] == old(self).command_buffer@[k]);
                    } else {
                        assert(self.command_buffer@[k] == old(self).command_buffer@[k + 1]);
                    }
                }
            }
        } else if ' ' <= c && c <= '~' {
            if self.command_buffer.len() < MAX_COMMAND_LENGTH {
                self.command_buffer.insert(self.cursor_position, c);
                self.cursor_position = self.cursor_position + 1;
                let mut s = String::new();
                push_char(&mut s, c);
                emit_string(&mut out, s);
                assert(transcript(out@) =~= printed(seq![c]));
                assert forall|k: int| 0 <= k < self.command_buffer@.len() implies is_printable_ascii(
                    #[trigger] self.command_buffer@[k],
                ) by {
                    if k < self.cursor_position - 1 {
                        assert(self.command_buffer@[k] == old(self).command_buffer@[k]);
                    } else if k > self.cursor_position - 1 {
                        assert(self.command_buffer@[k] == old(self).command_buffer@[k - 1]);
                    }
                }
            }
        }
        out
    }
}

/// The greeting shown when the shell starts, ending with the prompt.
pub open spec fn banner_text() -> Seq<char> {
    "\n"@ + "ilo-lawa Shell v0.1.0\n"@ + "Type 'help' for available commands.\n"@ + "\n"@
        + prompt()
}

/// Starts the shell: the greeting and the first prompt.
pub fn init() -> (r: Vec<ShellAction>)
    ensures
        transcript(r@) == printed(banner_text()),
{
    let mut s = String::from_str("\n");
    push_str(&mut s, "ilo-lawa Shell v0.1.0\n");
    push_str(&mut s, "Type 'help' for available commands.\n");
    push_str(&mut s, "\n");
    push_str(&mut s, "ilo-lawa> ");
    let mut out: Vec<ShellAction> = Vec::new();
    assert(transcript(out@) =~= Seq::<Event>::empty());
    emit_string(&mut out, s);
    assert(transcript(out@) =~= printed(banner_text()));
    out
}

/// Feeds one key to the shell.
pub fn handle_input(shell: &mut Shell, fs: &mut MemoryFileSystem, c: char) -> (r: Vec<ShellAction>)
    requires
        old(shell).wf(),
    ensures
        final(shell).wf(),
        ({
            let (st, ev, root, cwd) = spec_handle_key(old(shell).view(), c, old(fs).root(), old(fs).cwd());
            &&& final(shell).view() == st
            &&& transcript(r@) == ev
            &&& final(fs).root() == root
            &&& final(fs).cwd() == cwd
        }),
{
    shell.handle_key(c, fs)
}

/// Running the same command twice in a row records it once: a command
/// equal to the newest history entry is not added again.
pub proof fn law_history_no_repeat(h: Seq<Seq<char>>, cmd: Seq<char>)
    ensures
        history_add(history_add(h, cmd), cmd) == history_add(h, cmd),
{
}

/// The history never holds more than ten commands, and a non-empty command
/// is always its newest entry after it ran.
pub proof fn law_history_bounded(h: Seq<Seq<char>>, cmd: Seq<char>)
    requires
        h.len() <= HISTORY_SIZE,
    ensures
        history_add(h, cmd).len() <= HISTORY_SIZE,
        cmd.len() > 0 ==> history_add(h, cmd).last() == cmd,
{
}

} // verus!
