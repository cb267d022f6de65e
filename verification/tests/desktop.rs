use osjeff_core::anim::Phase;
use osjeff_core::kernel::desktop::{
    clock_text, dock_layout, editor_status, menu_item_at, task_row, taskbar_hit, two, write_uint, Desktop,
    MouseResult, EDIT, TASK, TERM,
};
use osjeff_core::process::{ProcKind, ProcState, Process};
use osjeff_core::terminal::Time;
use osjeff_core::window::Rect;

const T: Time = Time { h: 12, m: 0, s: 0 };

fn desk() -> Desktop {
    Desktop::new(1280, 800)
}

fn type_word(d: &mut Desktop, scans: &[u8]) {
    for &s in scans {
        assert!(d.handle_key(s, false, true, T));
        d.handle_key(s, false, false, T);
    }
}

#[test]
fn boot_state() {
    let d = desk();
    assert_eq!(d.procs.len(), 3);
    assert_eq!(d.procs.at(2).unwrap().name(), b"shell");
    assert_eq!(d.procs.at(2).unwrap().pid, 3);
    assert!(d.windows[TERM].visible);
    assert_eq!(d.windows[TERM].pid, 3);
    assert_eq!(d.windows[TERM].anim, Some(Phase::Opening));
    assert!(!d.windows[EDIT].visible);
    assert_eq!(d.order, vec![TASK, EDIT, TERM]);
    assert_eq!(d.focused(), Some(TERM));
    assert_eq!(d.cursor(), (640, 400));
}

#[test]
fn right_click_opens_menu_and_item_opens_app() {
    let mut d = desk();
    let r = d.handle_mouse(0, 0, false, true);
    assert_eq!(r, MouseResult { scene_dirty: true, cursor_moved: false });
    assert_eq!(d.menu, Some((640, 400)));
    // Second item (the editor): rows start 6px below the menu top, 32px each.
    let r = d.handle_mouse(60, -46, true, false);
    assert_eq!(r, MouseResult { scene_dirty: true, cursor_moved: true });
    assert_eq!(d.cursor(), (700, 446));
    assert_eq!(d.menu, None);
    assert!(d.windows[EDIT].visible);
    assert_eq!(d.windows[EDIT].pid, 4);
    assert_eq!(d.procs.len(), 4);
    assert_eq!(d.procs.at(3).unwrap().name(), b"editor");
    assert_eq!(d.order, vec![TASK, TERM, EDIT]);
    assert_eq!(d.focused(), Some(EDIT));
}

#[test]
fn menu_is_kept_on_screen() {
    let mut d = desk();
    d.handle_mouse(10_000, -10_000, false, true);
    assert_eq!(d.cursor(), (1279, 799));
    assert_eq!(d.menu, Some((1280 - 220, 800 - 108)));
}

#[test]
fn click_outside_menu_dismisses_it() {
    let mut d = desk();
    d.handle_mouse(0, 0, false, true);
    let r = d.handle_mouse(-600, 0, true, false);
    assert!(r.scene_dirty);
    assert_eq!(d.menu, None);
    assert_eq!(d.procs.len(), 3);
}

#[test]
fn close_button_then_finished_close_ends_process() {
    let mut d = desk();
    d.handle_mouse(0, 0, false, true);
    d.handle_mouse(60, -46, true, false);
    d.handle_mouse(0, 0, false, false);
    d.finish_anim(EDIT);
    assert_eq!(d.windows[EDIT].anim, None);
    assert!(d.windows[EDIT].visible);
    // Editor close button: x = 610 + 560 - 18 - 8 = 1144, y = 110 + 6 = 116.
    let r = d.handle_mouse(450, 326, true, false);
    assert!(r.scene_dirty);
    assert_eq!(d.cursor(), (1150, 120));
    assert_eq!(d.windows[EDIT].anim, Some(Phase::Closing));
    assert_eq!(d.focused(), Some(TERM));
    d.finish_anim(EDIT);
    assert!(!d.windows[EDIT].visible);
    assert_eq!(d.windows[EDIT].pid, 0);
    assert_eq!(d.procs.len(), 3);
    assert!(d.procs.get(4).is_none());
}

#[test]
fn title_drag_moves_window() {
    let mut d = desk();
    // Terminal title bar at (100, 90): grabbed 30px right of and 10px below
    // the window's corner.
    d.handle_mouse(-540, 310, true, false);
    assert_eq!(d.cursor(), (100, 90));
    assert!(d.drag.is_some());
    let r = d.handle_mouse(50, -20, true, false);
    assert!(r.scene_dirty);
    assert_eq!(d.windows[TERM].rect, Rect::new(120, 100, 512, 320));
    d.handle_mouse(0, 0, false, false);
    assert!(d.drag.is_none());
}

#[test]
fn drag_keeps_title_bar_on_screen() {
    let mut d = desk();
    d.handle_mouse(-540, 310, true, false);
    d.handle_mouse(-5000, 5000, true, false);
    assert_eq!(d.windows[TERM].rect.x, 0);
    assert_eq!(d.windows[TERM].rect.y, 0);
    d.handle_mouse(5000, -5000, true, false);
    assert_eq!(d.windows[TERM].rect.x, 1280 - 512);
    assert_eq!(d.windows[TERM].rect.y, 800 - 30);
}

#[test]
fn dock_icon_opens_task_manager() {
    let mut d = desk();
    // Task manager icon: x = 640 - 113 + 12 + 3 * 54 = 701, y = 800 - 80 + 12.
    d.handle_mouse(70, -350, true, false);
    assert_eq!(d.cursor(), (710, 750));
    assert!(d.windows[TASK].visible);
    assert_eq!(d.windows[TASK].pid, 4);
    assert_eq!(d.focused(), Some(TASK));
}

#[test]
fn task_manager_keys() {
    let mut d = desk();
    d.handle_mouse(70, -350, true, false);
    d.handle_mouse(0, 0, false, false);
    assert_eq!(d.procs.selected(), 0);
    // Extended down arrow moves the cursor; ESC closes the window.
    assert!(d.handle_key(0x50, true, true, T));
    assert_eq!(d.procs.selected(), 1);
    assert!(d.handle_key(0x48, true, true, T));
    assert!(d.handle_key(0x48, true, true, T));
    assert_eq!(d.procs.selected(), 3);
    assert!(d.handle_key(0x01, false, true, T));
    assert_eq!(d.windows[TASK].anim, Some(Phase::Closing));
    assert_eq!(d.focused(), Some(TERM));
}

#[test]
fn task_manager_delete_closes_app_window() {
    let mut d = desk();
    d.handle_mouse(70, -350, true, false);
    d.handle_mouse(0, 0, false, false);
    // Select the shell (third row) and end it: its window starts closing.
    d.handle_key(0x50, true, true, T);
    d.handle_key(0x50, true, true, T);
    assert_eq!(d.procs.selected_pid(), Some(3));
    d.handle_key(0x53, true, true, T);
    assert_eq!(d.windows[TERM].anim, Some(Phase::Closing));
    // The kernel process has no window: DELETE leaves everything alone.
    d.handle_key(0x48, true, true, T);
    d.handle_key(0x48, true, true, T);
    assert_eq!(d.procs.selected_pid(), Some(1));
    d.handle_key(0x53, true, true, T);
    assert_eq!(d.procs.len(), 4);
}

#[test]
fn shell_edit_command_opens_editor() {
    let mut d = desk();
    // e, d, i, t then ENTER.
    type_word(&mut d, &[0x12, 0x20, 0x17, 0x14]);
    assert_eq!(d.term.input(), b"edit");
    assert!(d.handle_key(0x1C, false, true, T));
    assert!(d.windows[EDIT].visible);
    assert_eq!(d.focused(), Some(EDIT));
    // Keys now go to the editor; ESC asks it to close.
    type_word(&mut d, &[0x23]);
    assert_eq!(d.editor.line(0), b"h");
    assert!(d.handle_key(0x01, false, true, T));
    assert_eq!(d.windows[EDIT].anim, Some(Phase::Closing));
}

#[test]
fn key_without_focus_is_ignored() {
    let mut d = desk();
    d.handle_mouse(-540, 310, false, false);
    // Close the shell window: nothing is focused any more.
    d.handle_mouse(0, 0, false, false);
    d.request_close(TERM);
    assert_eq!(d.focused(), None);
    assert!(!d.handle_key(0x12, false, true, T));
    assert_eq!(d.term.input(), b"");
}

#[test]
fn key_release_is_ignored() {
    let mut d = desk();
    assert!(!d.handle_key(0x12, false, false, T));
}

#[test]
fn reopening_closing_window_cancels_close() {
    let mut d = desk();
    d.request_close(TERM);
    assert_eq!(d.windows[TERM].anim, Some(Phase::Closing));
    d.open(TERM);
    assert_eq!(d.windows[TERM].anim, Some(Phase::Opening));
    assert_eq!(d.procs.len(), 3);
}

#[test]
fn menu_rows() {
    assert_eq!(menu_item_at(100, 100, 110, 106), Some(0));
    assert_eq!(menu_item_at(100, 100, 110, 138), Some(1));
    assert_eq!(menu_item_at(100, 100, 110, 201), Some(2));
    assert_eq!(menu_item_at(100, 100, 110, 202), None);
    assert_eq!(menu_item_at(100, 100, 105, 120), None);
    assert_eq!(menu_item_at(100, 100, 314, 120), None);
    assert_eq!(menu_item_at(100, 100, 110, 105), None);
}

#[test]
fn dock_geometry() {
    let (dock, icons) = dock_layout(1280, 800);
    assert_eq!(dock, Rect::new(527, 720, 226, 64));
    assert_eq!(icons.len(), 4);
    assert_eq!(icons[0], Rect::new(539, 732, 40, 40));
    assert_eq!(icons[3], Rect::new(701, 732, 40, 40));
    assert_eq!(taskbar_hit(1280, 800, 545, 740), Some(TERM));
    assert_eq!(taskbar_hit(1280, 800, 600, 740), Some(TERM));
    assert_eq!(taskbar_hit(1280, 800, 650, 740), Some(EDIT));
    assert_eq!(taskbar_hit(1280, 800, 710, 740), Some(TASK));
    assert_eq!(taskbar_hit(1280, 800, 590, 740), None);
}

#[test]
fn decimal_fields() {
    let mut buf = vec![b' '; 8];
    write_uint(&mut buf, 1, 4, 42);
    assert_eq!(buf, b"   42   ".to_vec());
    write_uint(&mut buf, 0, 3, 98765);
    assert_eq!(buf, b"76542   ".to_vec());
    let mut clock = vec![b'0'; 8];
    two(&mut clock, 0, 7);
    two(&mut clock, 3, 45);
    assert_eq!(clock, b"07045000".to_vec());
}

#[test]
fn clock_text_is_two_digit_fields() {
    assert_eq!(clock_text(Time { h: 9, m: 5, s: 30 }), b"09:05:30".to_vec());
    assert_eq!(clock_text(Time { h: 23, m: 59, s: 0 }), b"23:59:00".to_vec());
}

#[test]
fn editor_status_line() {
    assert_eq!(editor_status(0, 0, false), b"Ln 01  Col 01         ".to_vec());
    assert_eq!(editor_status(11, 4, true), b"Ln 05  Col 12 *       ".to_vec());
    // Row 100 and column 256 show the last two digits of their low byte.
    assert_eq!(editor_status(255, 99, false), b"Ln 00  Col 00         ".to_vec());
}

#[test]
fn task_rows() {
    let p = Process {
        pid: 7,
        name: b"compositor-long".to_vec(),
        kind: ProcKind::System,
        state: ProcState::Running,
        ticks: 1234,
    };
    assert_eq!(task_row(&p), b"  7 compositor-l RUN   1234".to_vec());
    let q = Process { pid: 12, name: b"calc".to_vec(), kind: ProcKind::App, state: ProcState::Suspended, ticks: 0 };
    assert_eq!(task_row(&q), b" 12 calc         SUS      0".to_vec());
    let r = Process {
        pid: 1234,
        name: b"x".to_vec(),
        kind: ProcKind::App,
        state: ProcState::Terminated,
        ticks: 1234567,
    };
    // Digits that do not fit are dropped from the left.
    assert_eq!(task_row(&r), b"234 x            END 234567".to_vec());
}

#[test]
fn spawn_checks_before_mouse_and_keys() {
    let mut d = desk();
    // A right press alone spawns nothing; the dock icon of a hidden window does.
    assert!(!d.would_spawn(0, 0, false, true));
    assert!(d.would_spawn(70, -350, true, false));
    d.handle_mouse(70, -350, true, false);
    d.handle_mouse(0, 0, false, false);
    // The task manager is shown now: clicking its icon again spawns nothing.
    assert!(!d.would_spawn(0, 0, true, false));
    // A right press then a left press on the editor item of the menu.
    let mut m = desk();
    m.handle_mouse(0, 0, false, true);
    assert!(m.would_spawn(60, -46, true, false));

    // The shell's EDIT command opens the hidden editor on ENTER.
    let mut k = desk();
    type_word(&mut k, &[0x12, 0x20, 0x17, 0x14]);
    assert!(k.key_would_spawn(0x1C, false, true, T));
    assert!(!k.key_would_spawn(0x1C, false, false, T));
    assert!(!k.key_would_spawn(0x1C, true, true, T));
    assert!(!k.key_would_spawn(0x12, false, true, T));
    let mut t = desk();
    type_word(&mut t, &[0x14, 0x17, 0x32, 0x12]);
    assert!(!t.key_would_spawn(0x1C, false, true, T));
}
