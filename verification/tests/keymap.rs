use osjeff_core::keymap::{Key, Keymap};

fn down(km: &mut Keymap, scan: u8) -> Option<Key> {
    km.process(scan, false, true)
}

#[test]
fn lowercase_by_default() {
    let mut km = Keymap::new();
    assert_eq!(down(&mut km, 0x1E), Some(Key::Char(b'a')));
    assert_eq!(down(&mut km, 0x32), Some(Key::Char(b'm')));
}

#[test]
fn shift_uppercases_letters() {
    let mut km = Keymap::new();
    assert_eq!(km.process(0x2A, false, true), None); // shift down
    assert!(km.shift());
    assert_eq!(down(&mut km, 0x1E), Some(Key::Char(b'A')));
    assert_eq!(km.process(0x2A, false, false), None); // shift up
    assert!(!km.shift());
    assert_eq!(down(&mut km, 0x1E), Some(Key::Char(b'a')));
}

#[test]
fn right_shift_also_works() {
    let mut km = Keymap::new();
    km.process(0x36, false, true);
    assert_eq!(down(&mut km, 0x1F), Some(Key::Char(b'S')));
}

#[test]
fn caps_lock_toggles_letters_only() {
    let mut km = Keymap::new();
    km.process(0x3A, false, true); // caps on
    assert!(km.caps());
    assert_eq!(down(&mut km, 0x1E), Some(Key::Char(b'A')));
    // digit unaffected by caps
    assert_eq!(down(&mut km, 0x02), Some(Key::Char(b'1')));
    km.process(0x3A, false, true); // caps off
    assert!(!km.caps());
    assert_eq!(down(&mut km, 0x1E), Some(Key::Char(b'a')));
}

#[test]
fn shift_plus_caps_is_lowercase_letter() {
    let mut km = Keymap::new();
    km.process(0x3A, false, true); // caps on
    km.process(0x2A, false, true); // shift on
    assert_eq!(down(&mut km, 0x1E), Some(Key::Char(b'a')));
}

#[test]
fn shifted_symbols() {
    let mut km = Keymap::new();
    km.process(0x2A, false, true);
    assert_eq!(down(&mut km, 0x02), Some(Key::Char(b'!')));
    assert_eq!(down(&mut km, 0x0C), Some(Key::Char(b'_')));
    assert_eq!(down(&mut km, 0x35), Some(Key::Char(b'?')));
    assert_eq!(down(&mut km, 0x34), Some(Key::Char(b'>')));
}

#[test]
fn control_keys() {
    let mut km = Keymap::new();
    assert_eq!(down(&mut km, 0x1C), Some(Key::Enter));
    assert_eq!(down(&mut km, 0x0E), Some(Key::Backspace));
    assert_eq!(down(&mut km, 0x0F), Some(Key::Tab));
    assert_eq!(down(&mut km, 0x01), Some(Key::Esc));
    assert_eq!(down(&mut km, 0x39), Some(Key::Char(b' ')));
}

#[test]
fn extended_arrows_and_edit_keys() {
    let mut km = Keymap::new();
    assert_eq!(km.process(0x48, true, true), Some(Key::Up));
    assert_eq!(km.process(0x50, true, true), Some(Key::Down));
    assert_eq!(km.process(0x4B, true, true), Some(Key::Left));
    assert_eq!(km.process(0x4D, true, true), Some(Key::Right));
    assert_eq!(km.process(0x47, true, true), Some(Key::Home));
    assert_eq!(km.process(0x4F, true, true), Some(Key::End));
    assert_eq!(km.process(0x53, true, true), Some(Key::Delete));
}

#[test]
fn key_up_produces_nothing() {
    let mut km = Keymap::new();
    assert_eq!(km.process(0x1E, false, false), None);
}

#[test]
fn unmapped_scancode_is_none() {
    let mut km = Keymap::new();
    assert_eq!(down(&mut km, 0x7E), None);
    assert_eq!(km.process(0x99, true, true), None);
}

#[test]
fn default_impl_matches_new() {
    let km = Keymap::default();
    assert!(!km.shift() && !km.caps());
}

const MODIFIERS: [u8; 3] = [0x2A, 0x36, 0x3A];

#[test]
fn whole_table_translates_both_cases() {
    // Exercise every mapped scancode unshifted and shifted (skipping the
    // modifier keys so caps/shift state stays controlled), asserting the
    // shifted form differs for everything except space.
    let mut shifted_km = Keymap::new();
    shifted_km.process(0x2A, false, true); // shift held

    for scan in 0x00u8..0x60 {
        if MODIFIERS.contains(&scan) {
            continue;
        }
        let unshifted = Keymap::new().process(scan, false, true);
        let shifted = shifted_km.process(scan, false, true);

        if let (Some(Key::Char(u)), Some(Key::Char(s))) = (unshifted, shifted) {
            assert!(u.is_ascii_graphic() || u == b' ');
            if u != b' ' {
                assert_ne!(u, s, "scan {:#x} should change under shift", scan);
            }
        }
    }
}
