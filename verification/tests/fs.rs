use osjeff_core::fs;
use osjeff_core::fs::{is_formatted, is_used, is_active, is_trashed, name_at, size_at, is_dir, count, count_active, count_trashed, find_in, find, read_slot, read, write_in, mkdir, trash_slot, restore_slot, purge_slot, trash, restore, purge, remove, empty_trash, FsError, ROOT, MAX_FILES, MAX_NAME, MAX_FILE_SIZE, IMAGE_SIZE};

fn img() -> [u8; IMAGE_SIZE] {
    let mut img = [0u8; IMAGE_SIZE];
    fs::format(&mut img);
    img
}

#[test]
fn fresh_image_is_formatted_and_empty() {
    let img = img();
    assert!(is_formatted(&img));
    assert_eq!(count(&img), 0);
}

#[test]
fn unformatted_image_detected() {
    let img = [0u8; IMAGE_SIZE];
    assert!(!is_formatted(&img));
    let mut img2 = img;
    assert_eq!(fs::write(&mut img2, b"x", b"y"), Err(FsError::NotFormatted));
}

#[test]
fn write_then_read() {
    let mut img = img();
    fs::write(&mut img, b"notes.txt", b"hello world").unwrap();
    assert_eq!(read(&img, b"notes.txt"), Some(&b"hello world"[..]));
    assert_eq!(count(&img), 1);
}

#[test]
fn overwrite_reuses_slot() {
    let mut img = img();
    fs::write(&mut img, b"a", b"first").unwrap();
    fs::write(&mut img, b"a", b"second longer").unwrap();
    assert_eq!(read(&img, b"a"), Some(&b"second longer"[..]));
    assert_eq!(count(&img), 1);
}

#[test]
fn trash_restore_purge_flow() {
    let mut img = img();
    fs::write(&mut img, b"a.txt", b"hi").unwrap();
    fs::write(&mut img, b"b.txt", b"yo").unwrap();
    assert_eq!(count_active(&img), 2);

    // Trash keeps the data, hides it from the active count and from read().
    trash(&mut img, b"a.txt").unwrap();
    assert_eq!(count_active(&img), 1);
    assert_eq!(count_trashed(&img), 1);
    assert_eq!(read(&img, b"a.txt"), None); // read() only sees live files now
    let ti = (0..MAX_FILES)
        .find(|&i| is_trashed(&img, i) && name_at(&img, i) == b"a.txt")
        .unwrap();
    assert_eq!(read_slot(&img, ti), Some(&b"hi"[..])); // data still there
    assert_eq!(trash(&mut img, b"a.txt"), Err(FsError::NotFound)); // already trashed

    // Restore brings it back.
    restore(&mut img, b"a.txt").unwrap();
    assert_eq!(count_active(&img), 2);
    assert_eq!(count_trashed(&img), 0);

    // Permanent delete frees the slot and the data is gone.
    purge(&mut img, b"a.txt").unwrap();
    assert_eq!(count_active(&img), 1);
    assert_eq!(read(&img, b"a.txt"), None);

    // Empty trash purges everything in it.
    trash(&mut img, b"b.txt").unwrap();
    empty_trash(&mut img);
    assert_eq!(count_trashed(&img), 0);
    assert_eq!(read(&img, b"b.txt"), None);
}

#[test]
fn directories_and_recursive_delete() {
    let mut img = img();
    let docs = mkdir(&mut img, ROOT, b"docs").unwrap();
    assert!(is_dir(&img, docs));
    write_in(&mut img, docs as u8, b"a.txt", b"hi").unwrap();
    write_in(&mut img, ROOT, b"root.txt", b"r").unwrap();

    // a.txt lives inside docs, not at the root.
    assert!(find_in(&img, docs as u8, b"a.txt").is_some());
    assert!(find_in(&img, ROOT, b"a.txt").is_none());
    let child = find_in(&img, docs as u8, b"a.txt").unwrap();
    assert_eq!(read_slot(&img, child), Some(&b"hi"[..]));
    assert_eq!(read_slot(&img, docs), None); // dirs have no payload

    // Trashing the directory takes its contents with it.
    trash_slot(&mut img, docs);
    assert!(is_trashed(&img, docs) && is_trashed(&img, child));
    assert_eq!(count_active(&img), 1); // only root.txt

    // Restore brings the whole subtree back.
    restore_slot(&mut img, docs);
    assert!(is_active(&img, docs) && is_active(&img, child));

    // Permanent delete frees the whole subtree.
    purge_slot(&mut img, docs);
    assert!(!is_used(&img, docs) && !is_used(&img, child));
    assert_eq!(count_active(&img), 1);
}

#[test]
fn multiple_files() {
    let mut img = img();
    fs::write(&mut img, b"one", b"1").unwrap();
    fs::write(&mut img, b"two", b"22").unwrap();
    fs::write(&mut img, b"three", b"333").unwrap();
    assert_eq!(count(&img), 3);
    assert_eq!(read(&img, b"two"), Some(&b"22"[..]));
    assert_eq!(read(&img, b"missing"), None);
}

#[test]
fn remove_frees_slot() {
    let mut img = img();
    fs::write(&mut img, b"gone", b"data").unwrap();
    assert!(remove(&mut img, b"gone").is_ok());
    assert_eq!(read(&img, b"gone"), None);
    assert_eq!(count(&img), 0);
    assert_eq!(remove(&mut img, b"gone"), Err(FsError::NotFound));
}

#[test]
fn rejects_bad_names_and_sizes() {
    let mut img = img();
    assert_eq!(fs::write(&mut img, b"", b"x"), Err(FsError::EmptyName));
    let long = [b'a'; MAX_NAME + 1];
    assert_eq!(fs::write(&mut img, &long, b"x"), Err(FsError::NameTooLong));
    let big = [0u8; MAX_FILE_SIZE + 1];
    assert_eq!(fs::write(&mut img, b"f", &big), Err(FsError::TooBig));
}

#[test]
fn no_space_when_full() {
    let mut img = img();
    for i in 0..MAX_FILES {
        let name = [b'a' + i as u8];
        fs::write(&mut img, &name, b"x").unwrap();
    }
    assert_eq!(fs::write(&mut img, b"overflow", b"x"), Err(FsError::NoSpace));
    // Overwriting an existing file still works when full.
    assert!(fs::write(&mut img, b"a", b"updated").is_ok());
}

#[test]
fn name_and_size_accessors() {
    let mut img = img();
    fs::write(&mut img, b"hi", b"abcd").unwrap();
    let slot = find(&img, b"hi").unwrap();
    assert_eq!(name_at(&img, slot), b"hi");
    assert_eq!(size_at(&img, slot), 4);
}

#[test]
fn max_size_file_roundtrips() {
    let mut img = img();
    let data = [b'z'; MAX_FILE_SIZE];
    fs::write(&mut img, b"big", &data).unwrap();
    assert_eq!(read(&img, b"big"), Some(&data[..]));
}

#[test]
fn nested_subtree_trash_and_restore() {
    let mut img = img();
    let docs = mkdir(&mut img, ROOT, b"docs").unwrap();
    let sub = mkdir(&mut img, docs as u8, b"sub").unwrap();
    write_in(&mut img, sub as u8, b"deep.txt", b"d").unwrap();
    write_in(&mut img, ROOT, b"other.txt", b"o").unwrap();
    let deep = find_in(&img, sub as u8, b"deep.txt").unwrap();
    let other = find_in(&img, ROOT, b"other.txt").unwrap();

    trash(&mut img, b"docs").unwrap();
    assert!(is_trashed(&img, docs) && is_trashed(&img, sub) && is_trashed(&img, deep));
    assert!(is_active(&img, other));

    restore(&mut img, b"docs").unwrap();
    assert!(is_active(&img, docs) && is_active(&img, sub) && is_active(&img, deep));

    purge(&mut img, b"docs").unwrap();
    assert!(!is_used(&img, docs) && !is_used(&img, sub) && !is_used(&img, deep));
    assert!(is_active(&img, other));
}
