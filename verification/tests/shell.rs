use ilo_lawa::fs::memory::MemoryFileSystem;
use ilo_lawa::fs::FileSystem;
use ilo_lawa::shell::{handle_input, init, Shell, ShellAction};

fn printed(actions: &[ShellAction]) -> String {
    let mut s = String::new();
    for a in actions {
        if let ShellAction::Print(t) = a {
            s.push_str(t);
        }
    }
    s
}

fn type_line(shell: &mut Shell, fs: &mut MemoryFileSystem, line: &str) -> Vec<ShellAction> {
    for c in line.chars() {
        shell.handle_key(c, fs);
    }
    shell.handle_key('\n', fs)
}

fn run(shell: &mut Shell, fs: &mut MemoryFileSystem, line: &str) -> String {
    printed(&type_line(shell, fs, line))
}

const PROMPT: &str = "ilo-lawa> ";

#[test]
fn banner() {
    assert_eq!(
        printed(&init()),
        "\nilo-lawa Shell v0.1.0\nType 'help' for available commands.\n\nilo-lawa> "
    );
}

#[test]
fn typing_echoes_each_character() {
    let mut sh = Shell::new();
    let mut fs = MemoryFileSystem::new();
    assert_eq!(printed(&sh.handle_key('l', &mut fs)), "l");
    assert_eq!(printed(&handle_input(&mut sh, &mut fs, 's', )), "s");
    // control characters other than the editing keys are ignored
    assert!(sh.handle_key('\x01', &mut fs).is_empty());
    assert!(sh.handle_key('\t', &mut fs).is_empty());
    assert!(sh.handle_key('é', &mut fs).is_empty());
}

#[test]
fn empty_line_prints_prompt() {
    let mut sh = Shell::new();
    let mut fs = MemoryFileSystem::new();
    assert_eq!(printed(&sh.handle_key('\n', &mut fs)), PROMPT);
    // a line of spaces runs nothing but still ends the line
    assert_eq!(run(&mut sh, &mut fs, "   "), format!("\n{}", PROMPT));
    // the command itself is recorded before it runs
    assert_eq!(run(&mut sh, &mut fs, "history"), "\n  1  history\nilo-lawa> ");
}

#[test]
fn echo_joins_words_with_single_spaces() {
    let mut sh = Shell::new();
    let mut fs = MemoryFileSystem::new();
    assert_eq!(run(&mut sh, &mut fs, "echo hello   world "), "\nhello world\nilo-lawa> ");
    assert_eq!(run(&mut sh, &mut fs, "  echo"), "\n\nilo-lawa> ");
}

#[test]
fn help_and_version() {
    let mut sh = Shell::new();
    let mut fs = MemoryFileSystem::new();
    let help = run(&mut sh, &mut fs, "help");
    assert!(help.starts_with("\nAvailable commands:\n\nSystem Commands:\n  help     - Show this help message\n"));
    assert!(help.ends_with("  write    - Create file with content\nilo-lawa> "));
    assert_eq!(help.lines().count(), 22);
    assert_eq!(
        run(&mut sh, &mut fs, "version"),
        "\nilo-lawa OS v0.4.0\nBuilt with Rust and UEFI\nilo-lawa> "
    );
    assert_eq!(
        run(&mut sh, &mut fs, "uptime"),
        "\nSystem has been running for: [not implemented]\nilo-lawa> "
    );
}

#[test]
fn unknown_command() {
    let mut sh = Shell::new();
    let mut fs = MemoryFileSystem::new();
    assert_eq!(
        run(&mut sh, &mut fs, "frobnicate now"),
        "\nUnknown command: frobnicate\nType 'help' for available commands.\nilo-lawa> "
    );
}

#[test]
fn history_numbers_and_skips_repeats() {
    let mut sh = Shell::new();
    let mut fs = MemoryFileSystem::new();
    run(&mut sh, &mut fs, "pwd");
    run(&mut sh, &mut fs, "pwd");
    run(&mut sh, &mut fs, "  echo a  ");
    assert_eq!(
        run(&mut sh, &mut fs, "history"),
        "\n  1  pwd\n  2  echo a\n  3  history\nilo-lawa> "
    );
}

#[test]
fn history_keeps_the_last_ten() {
    let mut sh = Shell::new();
    let mut fs = MemoryFileSystem::new();
    for i in 0..12 {
        run(&mut sh, &mut fs, &format!("echo {}", i));
    }
    let out = run(&mut sh, &mut fs, "history");
    let expected: String = (3..12)
        .enumerate()
        .map(|(k, i)| format!("  {}  echo {}\n", k + 1, i))
        .collect::<String>()
        + "  10  history\n";
    assert_eq!(out, format!("\n{}{}", expected, PROMPT));
}

#[test]
fn filesystem_commands() {
    let mut sh = Shell::new();
    let mut fs = MemoryFileSystem::new();
    assert_eq!(
        run(&mut sh, &mut fs, "ls"),
        "\nd bin 0 bytes\nd home 0 bytes\nd etc 0 bytes\n- README.txt 24 bytes\nilo-lawa> "
    );
    assert_eq!(run(&mut sh, &mut fs, "ls home"), "\n(empty directory)\nilo-lawa> ");
    assert_eq!(run(&mut sh, &mut fs, "cat README.txt"), "\nWelcome to ilo-lawa OS!\nilo-lawa> ");
    assert_eq!(run(&mut sh, &mut fs, "mkdir docs"), "\nilo-lawa> ");
    assert_eq!(run(&mut sh, &mut fs, "cd docs"), "\nilo-lawa> ");
    assert_eq!(run(&mut sh, &mut fs, "pwd"), "\n/docs\nilo-lawa> ");
    assert_eq!(
        run(&mut sh, &mut fs, "write note.txt hello  there"),
        "\nFile created: note.txt\nilo-lawa> "
    );
    assert_eq!(run(&mut sh, &mut fs, "cat note.txt"), "\nhello there\nilo-lawa> ");
    assert_eq!(run(&mut sh, &mut fs, "ls"), "\n- note.txt 11 bytes\nilo-lawa> ");
    assert_eq!(run(&mut sh, &mut fs, "rm note.txt"), "\nilo-lawa> ");
    assert_eq!(run(&mut sh, &mut fs, "cat note.txt"), "\ncat: NotFound\nilo-lawa> ");
    assert_eq!(run(&mut sh, &mut fs, "cd"), "\nilo-lawa> ");
    assert_eq!(run(&mut sh, &mut fs, "pwd"), "\n/\nilo-lawa> ");
}

#[test]
fn filesystem_command_errors() {
    let mut sh = Shell::new();
    let mut fs = MemoryFileSystem::new();
    assert_eq!(run(&mut sh, &mut fs, "cat"), "\nUsage: cat <path>\nilo-lawa> ");
    assert_eq!(run(&mut sh, &mut fs, "mkdir"), "\nUsage: mkdir <path>\nilo-lawa> ");
    assert_eq!(run(&mut sh, &mut fs, "rm"), "\nUsage: rm <path>\nilo-lawa> ");
    assert_eq!(run(&mut sh, &mut fs, "write only"), "\nUsage: write <filename> <content>\nilo-lawa> ");
    assert_eq!(run(&mut sh, &mut fs, "cd nowhere"), "\ncd: NotFound\nilo-lawa> ");
    assert_eq!(run(&mut sh, &mut fs, "cd README.txt"), "\ncd: NotADirectory\nilo-lawa> ");
    assert_eq!(run(&mut sh, &mut fs, "mkdir bin"), "\nmkdir: AlreadyExists\nilo-lawa> ");
    assert_eq!(run(&mut sh, &mut fs, "rm bin"), "\nrm: NotFound\nilo-lawa> ");
    assert_eq!(run(&mut sh, &mut fs, "cat etc"), "\ncat: NotAFile\nilo-lawa> ");
    assert_eq!(run(&mut sh, &mut fs, "write README.txt x"), "\nwrite: AlreadyExists\nilo-lawa> ");
    assert_eq!(run(&mut sh, &mut fs, "ls nowhere"), "\n(empty directory)\nilo-lawa> ");
}

#[test]
fn cat_of_binary_and_newline_terminated_files() {
    let mut sh = Shell::new();
    let mut fs = MemoryFileSystem::new();
    fs.create_file("blob").unwrap();
    fs.write_file("blob", &[0xff, 0xfe, 0x00]).unwrap();
    assert_eq!(run(&mut sh, &mut fs, "cat blob"), "\n(binary file)\nilo-lawa> ");
    fs.create_file("text").unwrap();
    fs.write_file("text", "héllo\n".as_bytes()).unwrap();
    assert_eq!(run(&mut sh, &mut fs, "cat text"), "\nhéllo\nilo-lawa> ");
    fs.create_file("empty").unwrap();
    assert_eq!(run(&mut sh, &mut fs, "cat empty"), "\n\nilo-lawa> ");
}

#[test]
fn clear_shutdown_and_reboot_actions() {
    let mut sh = Shell::new();
    let mut fs = MemoryFileSystem::new();
    let out = type_line(&mut sh, &mut fs, "clear");
    assert!(matches!(out[1], ShellAction::ClearScreen));
    assert_eq!(printed(&out), "\nilo-lawa> ");
    let out = type_line(&mut sh, &mut fs, "shutdown");
    assert_eq!(printed(&out), "\nShutting down...\nilo-lawa> ");
    assert!(out.iter().any(|a| matches!(a, ShellAction::Shutdown)));
    let out = type_line(&mut sh, &mut fs, "reboot");
    assert_eq!(printed(&out), "\nRebooting...\nilo-lawa> ");
    assert!(out.iter().any(|a| matches!(a, ShellAction::Reboot)));
}

#[test]
fn backspace_redraws_the_line() {
    let mut sh = Shell::new();
    let mut fs = MemoryFileSystem::new();
    for c in "lss".chars() {
        sh.handle_key(c, &mut fs);
    }
    let out = printed(&sh.handle_key('\x08', &mut fs));
    assert_eq!(out, format!("\r{}\r{}ls", " ".repeat(80), PROMPT));
    assert_eq!(
        run(&mut sh, &mut fs, ""),
        "\nd bin 0 bytes\nd home 0 bytes\nd etc 0 bytes\n- README.txt 24 bytes\nilo-lawa> "
    );
    // nothing to erase on an empty line
    assert!(sh.handle_key('\x08', &mut fs).is_empty());
}

#[test]
fn delete_at_the_end_does_nothing() {
    let mut sh = Shell::new();
    let mut fs = MemoryFileSystem::new();
    sh.handle_key('p', &mut fs);
    assert!(sh.handle_key('\x7f', &mut fs).is_empty());
}

#[test]
fn line_length_is_limited() {
    let mut sh = Shell::new();
    let mut fs = MemoryFileSystem::new();
    sh.handle_key('e', &mut fs);
    sh.handle_key('c', &mut fs);
    sh.handle_key('h', &mut fs);
    sh.handle_key('o', &mut fs);
    sh.handle_key(' ', &mut fs);
    for _ in 0..251 {
        assert_eq!(printed(&sh.handle_key('x', &mut fs)), "x");
    }
    // the line now holds 256 characters: further keys are dropped
    assert!(sh.handle_key('y', &mut fs).is_empty());
    let out = run(&mut sh, &mut fs, "");
    assert_eq!(out, format!("\n{}\n{}", "x".repeat(251), PROMPT));
}
