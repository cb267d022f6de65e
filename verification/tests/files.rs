use osjeff_core::editor::Editor;
use osjeff_core::fs;
use osjeff_core::fs::{FsError, IMAGE_SIZE};
use osjeff_core::kernel::files::{fs_cat, fs_list, fs_remove, print_fs_err, print_named, serialize_editor};
use osjeff_core::keymap::Key;
use osjeff_core::terminal::{FileName, Terminal};

fn image() -> Vec<u8> {
    let mut img = vec![0u8; IMAGE_SIZE];
    fs::format(&mut img);
    img
}

/// Rows printed after the two banner lines.
fn printed(t: &Terminal) -> Vec<Vec<u8>> {
    (2..t.row_count()).map(|i| t.row(i).to_vec()).collect()
}

fn name(s: &str) -> FileName {
    FileName::parse(s.as_bytes()).unwrap()
}

#[test]
fn list_of_empty_disk() {
    let img = image();
    let mut t = Terminal::new();
    fs_list(&mut t, &img);
    assert_eq!(printed(&t), vec![b"(no files)".to_vec()]);
}

#[test]
fn list_shows_names_and_sizes() {
    let mut img = image();
    fs::write(&mut img, b"notes.txt", b"hello\nworld").unwrap();
    fs::write(&mut img, b"b", b"").unwrap();
    let mut t = Terminal::new();
    fs_list(&mut t, &img);
    assert_eq!(
        printed(&t),
        vec![b"notes.txt             11    ".to_vec(), b"b                      0    ".to_vec()]
    );
}

#[test]
fn cat_prints_lines() {
    let mut img = image();
    fs::write(&mut img, b"a", b"hello\nworld\n").unwrap();
    fs::write(&mut img, b"b", b"x\n\ny").unwrap();
    fs::write(&mut img, b"e", b"").unwrap();
    let mut t = Terminal::new();
    fs_cat(&mut t, &img, &name("a"));
    fs_cat(&mut t, &img, &name("b"));
    fs_cat(&mut t, &img, &name("e"));
    fs_cat(&mut t, &img, &name("missing"));
    assert_eq!(
        printed(&t),
        vec![
            b"hello".to_vec(),
            b"world".to_vec(),
            b"x".to_vec(),
            b"".to_vec(),
            b"y".to_vec(),
            b"(empty)".to_vec(),
            b"file not found".to_vec(),
        ]
    );
}

#[test]
fn remove_deletes_and_reports() {
    let mut img = image();
    fs::write(&mut img, b"notes.txt", b"hi").unwrap();
    let mut t = Terminal::new();
    assert_eq!(fs_remove(&mut t, &mut img, &name("notes.txt")), Ok(()));
    assert_eq!(fs::read(&img, b"notes.txt"), None);
    assert_eq!(fs_remove(&mut t, &mut img, &name("notes.txt")), Err(FsError::NotFound));
    assert_eq!(printed(&t), vec![b"Removed notes.txt".to_vec(), b"error: not found".to_vec()]);
}

#[test]
fn named_lines_are_cut_at_forty() {
    let mut t = Terminal::new();
    print_named(&mut t, b"Saved ", &[b'x'; 50]);
    let mut want = b"Saved ".to_vec();
    want.extend_from_slice(&[b'x'; 34]);
    assert_eq!(printed(&t), vec![want]);
}

#[test]
fn error_messages() {
    let mut t = Terminal::new();
    print_fs_err(&mut t, FsError::NoSpace);
    print_fs_err(&mut t, FsError::TooBig);
    print_fs_err(&mut t, FsError::NotFormatted);
    assert_eq!(
        printed(&t),
        vec![b"error: disk full".to_vec(), b"error: file too big".to_vec(), b"error: no filesystem".to_vec()]
    );
}

#[test]
fn editor_text_joined_by_newlines() {
    let mut e = Editor::new();
    assert_eq!(serialize_editor(&e), Vec::<u8>::new());
    for k in [Key::Char(b'a'), Key::Char(b'b'), Key::Enter, Key::Char(b'c')] {
        e.on_key(k);
    }
    assert_eq!(serialize_editor(&e), b"ab\nc".to_vec());
    e.on_key(Key::Enter);
    assert_eq!(serialize_editor(&e), b"ab\nc\n".to_vec());
}
