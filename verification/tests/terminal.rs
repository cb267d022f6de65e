use osjeff_core::terminal::{command_in, Command};
use osjeff_core::keymap::Key;
use osjeff_core::terminal::{prompt, Action, FileName, Terminal, Time, COLS, INPUT_MAX, ROWS};

fn t0() -> Time {
    Time { h: 5, m: 9, s: 7 }
}

fn type_str(term: &mut Terminal, s: &str) {
    for &b in s.as_bytes() {
        term.on_key(Key::Char(b), t0());
    }
}

fn last_row(term: &Terminal) -> &[u8] {
    term.row(term.row_count() - 1)
}

#[test]
fn banner_on_start() {
    let t = Terminal::new();
    assert_eq!(t.row_count(), 2);
    assert_eq!(t.row(0), b"OSJEFF shell ready.");
}

#[test]
fn ls_returns_list_action() {
    let mut t = Terminal::new();
    type_str(&mut t, "ls");
    assert_eq!(t.on_key(Key::Enter, t0()), Action::List);
}

#[test]
fn save_parses_filename() {
    let mut t = Terminal::new();
    type_str(&mut t, "save notes.txt");
    let a = t.on_key(Key::Enter, t0());
    match a {
        Action::Save(f) => assert_eq!(f.as_bytes(), b"notes.txt"),
        _ => panic!("expected Save"),
    }
}

#[test]
fn file_command_without_name_prints_usage() {
    let mut t = Terminal::new();
    type_str(&mut t, "cat");
    assert_eq!(t.on_key(Key::Enter, t0()), Action::Nothing);
    assert_eq!(last_row(&t), b"usage: <cmd> <name>");
}

#[test]
fn load_and_rm_and_cat_actions() {
    for (cmd, want) in [
        ("load a", Action::Load(FileName::parse(b"a").unwrap())),
        ("rm b", Action::Remove(FileName::parse(b"b").unwrap())),
        ("cat c", Action::Cat(FileName::parse(b"c").unwrap())),
    ] {
        let mut t = Terminal::new();
        type_str(&mut t, cmd);
        assert_eq!(t.on_key(Key::Enter, t0()), want);
    }
}

#[test]
fn app_and_power_commands_map_to_actions() {
    for (cmd, want) in [
        ("calc", Action::OpenCalc),
        ("edit", Action::OpenEditor),
        ("editor", Action::OpenEditor),
        ("tasks", Action::OpenTasks),
        ("ps", Action::OpenTasks),
        ("reboot", Action::Reboot),
        ("restart", Action::Reboot),
        ("shutdown", Action::Shutdown),
        ("poweroff", Action::Shutdown),
    ] {
        let mut t = Terminal::new();
        type_str(&mut t, cmd);
        assert_eq!(t.on_key(Key::Enter, t0()), want, "command: {cmd}");
    }
}

#[test]
fn typing_builds_input_and_caret() {
    let mut t = Terminal::new();
    type_str(&mut t, "hi");
    assert_eq!(t.input(), b"hi");
    assert_eq!(t.caret(), 2);
}

#[test]
fn input_capacity_is_capped() {
    let mut t = Terminal::new();
    for _ in 0..(INPUT_MAX + 10) {
        t.on_key(Key::Char(b'x'), t0());
    }
    assert_eq!(t.input().len(), INPUT_MAX);
}

#[test]
fn caret_movement_and_mid_insert() {
    let mut t = Terminal::new();
    type_str(&mut t, "ac");
    t.on_key(Key::Left, t0()); // caret between a|c
    t.on_key(Key::Char(b'b'), t0());
    assert_eq!(t.input(), b"abc");
    assert_eq!(t.caret(), 2);
}

#[test]
fn home_end_bounds() {
    let mut t = Terminal::new();
    type_str(&mut t, "abc");
    t.on_key(Key::Home, t0());
    assert_eq!(t.caret(), 0);
    t.on_key(Key::Left, t0()); // clamp
    assert_eq!(t.caret(), 0);
    t.on_key(Key::End, t0());
    assert_eq!(t.caret(), 3);
    t.on_key(Key::Right, t0()); // clamp
    assert_eq!(t.caret(), 3);
}

#[test]
fn backspace_and_delete_mid_line() {
    let mut t = Terminal::new();
    type_str(&mut t, "abc");
    t.on_key(Key::Backspace, t0()); // -> "ab"
    assert_eq!(t.input(), b"ab");
    t.on_key(Key::Home, t0());
    t.on_key(Key::Delete, t0()); // remove 'a' -> "b"
    assert_eq!(t.input(), b"b");
    assert_eq!(t.caret(), 0);
}

#[test]
fn backspace_at_start_is_noop() {
    let mut t = Terminal::new();
    type_str(&mut t, "a");
    t.on_key(Key::Home, t0());
    t.on_key(Key::Backspace, t0());
    assert_eq!(t.input(), b"a");
}

#[test]
fn enter_echoes_prompt_and_clears_input() {
    let mut t = Terminal::new();
    type_str(&mut t, "ECHO hi");
    t.on_key(Key::Enter, t0());
    assert_eq!(t.input().len(), 0);
    assert_eq!(t.caret(), 0);
    // last row is the echo output "hi"; prompt line is before it.
    assert_eq!(last_row(&t), b"hi");
}

#[test]
fn echo_with_no_arg_prints_blank() {
    let mut t = Terminal::new();
    type_str(&mut t, "ECHO");
    t.on_key(Key::Enter, t0());
    assert_eq!(last_row(&t), b"");
}

#[test]
fn help_lists_commands() {
    let mut t = Terminal::new();
    type_str(&mut t, "help");
    t.on_key(Key::Enter, t0());
    // case-insensitive: lowercase still matches
    assert_eq!(t.row(t.row_count() - 1), b"LS/CAT/SAVE/LOAD/RM = files");
}

#[test]
fn cls_clears_scrollback() {
    let mut t = Terminal::new();
    type_str(&mut t, "CLS");
    t.on_key(Key::Enter, t0());
    assert_eq!(t.row_count(), 0);
}

#[test]
fn time_command_formats_utc() {
    let mut t = Terminal::new();
    type_str(&mut t, "TIME");
    t.on_key(Key::Enter, Time { h: 5, m: 9, s: 7 });
    assert_eq!(last_row(&t), b"Now 05:09:07");
}

#[test]
fn ver_prints_version() {
    let mut t = Terminal::new();
    type_str(&mut t, "VER");
    t.on_key(Key::Enter, t0());
    assert_eq!(last_row(&t), b"OSJEFF 0.2 - Rust bare metal");
}

#[test]
fn edit_returns_open_editor_action() {
    let mut t = Terminal::new();
    type_str(&mut t, "EDIT");
    let a = t.on_key(Key::Enter, t0());
    assert_eq!(a, Action::OpenEditor);
}

#[test]
fn ps_and_task_return_open_tasks_action() {
    let mut t = Terminal::new();
    type_str(&mut t, "PS");
    assert_eq!(t.on_key(Key::Enter, t0()), Action::OpenTasks);
    type_str(&mut t, "task");
    assert_eq!(t.on_key(Key::Enter, t0()), Action::OpenTasks);
}

#[test]
fn unknown_command() {
    let mut t = Terminal::new();
    type_str(&mut t, "frobnicate");
    t.on_key(Key::Enter, t0());
    assert_eq!(last_row(&t), b"Unknown command. Type HELP.");
}

#[test]
fn blank_enter_is_noop_command() {
    let mut t = Terminal::new();
    let before = t.row_count();
    t.on_key(Key::Enter, t0()); // empty input -> only prompt echoed
    assert_eq!(t.row_count(), before + 1);
    assert_eq!(last_row(&t), prompt());
}

#[test]
fn scrollback_ring_scrolls() {
    let mut t = Terminal::new();
    for i in 0..(ROWS + 5) {
        let mut buf = [b'L'; 1];
        buf[0] = b'0' + (i % 10) as u8;
        t.println(&buf);
    }
    assert_eq!(t.row_count(), ROWS);
}

#[test]
fn long_line_wraps() {
    let mut t = Terminal::new();
    let long = [b'z'; COLS + 5];
    let before = t.row_count();
    t.println(&long);
    assert_eq!(t.row_count(), before + 2); // wrapped into two rows
}

#[test]
fn leading_spaces_trimmed_for_command() {
    let mut t = Terminal::new();
    type_str(&mut t, "   VER");
    t.on_key(Key::Enter, t0());
    assert_eq!(last_row(&t), b"OSJEFF 0.2 - Rust bare metal");
}

#[test]
fn non_text_keys_are_ignored() {
    let mut t = Terminal::new();
    assert_eq!(t.on_key(Key::Tab, t0()), Action::Nothing);
    assert_eq!(t.on_key(Key::Esc, t0()), Action::Nothing);
    assert_eq!(t.on_key(Key::Up, t0()), Action::Nothing);
}

#[test]
fn command_in_names_the_command_word() {
    assert!(matches!(command_in(b"  edit notes"), Some(Command::Edit)));
    assert!(matches!(command_in(b"tasks"), Some(Command::Tasks)));
    assert!(matches!(command_in(b"dir"), Some(Command::List)));
    assert!(matches!(command_in(b"frobnicate"), Some(Command::Unknown)));
    assert!(command_in(b"   ").is_none());
}
