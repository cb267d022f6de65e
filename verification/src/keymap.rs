//! PS/2 Scan Code Set 1 to logical key translation, with shift/caps state.
//!
//! The kernel feeds raw `(scancode, extended, pressed)` triples; the keymap
//! owns modifier state and emits high-level [`Key`] values.
use vstd::prelude::*;

verus! {

/// A logical key press produced by the keymap.
#[derive(Debug, Clone, Copy, PartialEq, Eq, Structural)]
pub enum Key {
    /// A printable ASCII byte (already case-resolved).
    Char(u8),
    Enter,
    Backspace,
    Tab,
    Esc,
    Delete,
    Left,
    Right,
    Up,
    Down,
    Home,
    End,
}

/// The `(unshifted, shifted)` ASCII pair printed by a Set-1 scancode.
pub open spec fn char_pair(scan: u8) -> Option<(u8, u8)> {
    if scan == 0x02 { Some((0x31u8, 0x21u8)) }          // 1 !
    else if scan == 0x03 { Some((0x32u8, 0x40u8)) }     // 2 @
    else if scan == 0x04 { Some((0x33u8, 0x23u8)) }     // 3 #
    else if scan == 0x05 { Some((0x34u8, 0x24u8)) }     // 4 $
    else if scan == 0x06 { Some((0x35u8, 0x25u8)) }     // 5 %
    else if scan == 0x07 { Some((0x36u8, 0x5eu8)) }     // 6 ^
    else if scan == 0x08 { Some((0x37u8, 0x26u8)) }     // 7 &
    else if scan == 0x09 { Some((0x38u8, 0x2au8)) }     // 8 *
    else if scan == 0x0A { Some((0x39u8, 0x28u8)) }     // 9 (
    else if scan == 0x0B { Some((0x30u8, 0x29u8)) }     // 0 )
    else if scan == 0x0C { Some((0x2du8, 0x5fu8)) }     // - _
    else if scan == 0x0D { Some((0x3du8, 0x2bu8)) }     // = +
    else if scan == 0x10 { Some((0x71u8, 0x51u8)) }     // q
    else if scan == 0x11 { Some((0x77u8, 0x57u8)) }     // w
    else if scan == 0x12 { Some((0x65u8, 0x45u8)) }     // e
    else if scan == 0x13 { Some((0x72u8, 0x52u8)) }     // r
    else if scan == 0x14 { Some((0x74u8, 0x54u8)) }     // t
    else if scan == 0x15 { Some((0x79u8, 0x59u8)) }     // y
    else if scan == 0x16 { Some((0x75u8, 0x55u8)) }     // u
    else if scan == 0x17 { Some((0x69u8, 0x49u8)) }     // i
    else if scan == 0x18 { Some((0x6fu8, 0x4fu8)) }     // o
    else if scan == 0x19 { Some((0x70u8, 0x50u8)) }     // p
    else if scan == 0x1A { Some((0x5bu8, 0x7bu8)) }     // [ {
    else if scan == 0x1B { Some((0x5du8, 0x7du8)) }     // ] }
    else if scan == 0x1E { Some((0x61u8, 0x41u8)) }     // a
    else if scan == 0x1F { Some((0x73u8, 0x53u8)) }     // s
    else if scan == 0x20 { Some((0x64u8, 0x44u8)) }     // d
    else if scan == 0x21 { Some((0x66u8, 0x46u8)) }     // f
    else if scan == 0x22 { Some((0x67u8, 0x47u8)) }     // g
    else if scan == 0x23 { Some((0x68u8, 0x48u8)) }     // h
    else if scan == 0x24 { Some((0x6au8, 0x4au8)) }     // j
    else if scan == 0x25 { Some((0x6bu8, 0x4bu8)) }     // k
    else if scan == 0x26 { Some((0x6cu8, 0x4cu8)) }     // l
    else if scan == 0x27 { Some((0x3bu8, 0x3au8)) }     // ; :
    else if scan == 0x28 { Some((0x27u8, 0x22u8)) }     // ' "
    else if scan == 0x29 { Some((0x60u8, 0x7eu8)) }     // ` ~
    else if scan == 0x2B { Some((0x5cu8, 0x7cu8)) }     // \ |
    else if scan == 0x2C { Some((0x7au8, 0x5au8)) }     // z
    else if scan == 0x2D { Some((0x78u8, 0x58u8)) }     // x
    else if scan == 0x2E { Some((0x63u8, 0x43u8)) }     // c
    else if scan == 0x2F { Some((0x76u8, 0x56u8)) }     // v
    else if scan == 0x30 { Some((0x62u8, 0x42u8)) }     // b
    else if scan == 0x31 { Some((0x6eu8, 0x4eu8)) }     // n
    else if scan == 0x32 { Some((0x6du8, 0x4du8)) }     // m
    else if scan == 0x33 { Some((0x2cu8, 0x3cu8)) }     // , <
    else if scan == 0x34 { Some((0x2eu8, 0x3eu8)) }     // . >
    else if scan == 0x35 { Some((0x2fu8, 0x3fu8)) }     // / ?
    else if scan == 0x39 { Some((0x20u8, 0x20u8)) }     // space
    else { None }
}

/// Maps a Set-1 scancode to its `(unshifted, shifted)` ASCII pair.
fn base_shift(scan: u8) -> (r: Option<(u8, u8)>)
    ensures
        r == char_pair(scan),
{
    match scan {
        0x02 => Some((0x31u8, 0x21u8)),
        0x03 => Some((0x32u8, 0x40u8)),
        0x04 => Some((0x33u8, 0x23u8)),
        0x05 => Some((0x34u8, 0x24u8)),
        0x06 => Some((0x35u8, 0x25u8)),
        0x07 => Some((0x36u8, 0x5eu8)),
        0x08 => Some((0x37u8, 0x26u8)),
        0x09 => Some((0x38u8, 0x2au8)),
        0x0A => Some((0x39u8, 0x28u8)),
        0x0B => Some((0x30u8, 0x29u8)),
        0x0C => Some((0x2du8, 0x5fu8)),
        0x0D => Some((0x3du8, 0x2bu8)),
        0x10 => Some((0x71u8, 0x51u8)),
        0x11 => Some((0x77u8, 0x57u8)),
        0x12 => Some((0x65u8, 0x45u8)),
        0x13 => Some((0x72u8, 0x52u8)),
        0x14 => Some((0x74u8, 0x54u8)),
        0x15 => Some((0x79u8, 0x59u8)),
        0x16 => Some((0x75u8, 0x55u8)),
        0x17 => Some((0x69u8, 0x49u8)),
        0x18 => Some((0x6fu8, 0x4fu8)),
        0x19 => Some((0x70u8, 0x50u8)),
        0x1A => Some((0x5bu8, 0x7bu8)),
        0x1B => Some((0x5du8, 0x7du8)),
        0x1E => Some((0x61u8, 0x41u8)),
        0x1F => Some((0x73u8, 0x53u8)),
        0x20 => Some((0x64u8, 0x44u8)),
        0x21 => Some((0x66u8, 0x46u8)),
        0x22 => Some((0x67u8, 0x47u8)),
        0x23 => Some((0x68u8, 0x48u8)),
        0x24 => Some((0x6au8, 0x4au8)),
        0x25 => Some((0x6bu8, 0x4bu8)),
        0x26 => Some((0x6cu8, 0x4cu8)),
        0x27 => Some((0x3bu8, 0x3au8)),
        0x28 => Some((0x27u8, 0x22u8)),
        0x29 => Some((0x60u8, 0x7eu8)),
        0x2B => Some((0x5cu8, 0x7cu8)),
        0x2C => Some((0x7au8, 0x5au8)),
        0x2D => Some((0x78u8, 0x58u8)),
        0x2E => Some((0x63u8, 0x43u8)),
        0x2F => Some((0x76u8, 0x56u8)),
        0x30 => Some((0x62u8, 0x42u8)),
        0x31 => Some((0x6eu8, 0x4eu8)),
        0x32 => Some((0x6du8, 0x4du8)),
        0x33 => Some((0x2cu8, 0x3cu8)),
        0x34 => Some((0x2eu8, 0x3eu8)),
        0x35 => Some((0x2fu8, 0x3fu8)),
        0x39 => Some((0x20u8, 0x20u8)),
        _ => None,
    }
}

/// The Set-1 scancode of the key that prints `c` unshifted on a US
/// keyboard: the number row, the three letter rows with their punctuation,
/// and the space bar.
pub open spec fn us_key_of(c: u8) -> Option<u8> {
    let digits = seq![0x0Bu8, 0x02u8, 0x03u8, 0x04u8, 0x05u8, 0x06u8, 0x07u8, 0x08u8, 0x09u8, 0x0Au8];
    let letters = seq![
        0x1Eu8, 0x30u8, 0x2Eu8, 0x20u8, 0x12u8, 0x21u8, 0x22u8, 0x23u8, 0x17u8, 0x24u8, 0x25u8, 0x26u8, 0x32u8,
        0x31u8, 0x18u8, 0x19u8, 0x10u8, 0x13u8, 0x1Fu8, 0x14u8, 0x16u8, 0x2Fu8, 0x11u8, 0x2Du8, 0x15u8, 0x2Cu8,
    ];
    if 0x30 <= c <= 0x39 {
        Some(digits[c - 0x30])
    } else if 0x61 <= c <= 0x7A {
        Some(letters[c - 0x61])
    } else if c == 0x2D { Some(0x0Cu8) }
    else if c == 0x3D { Some(0x0Du8) }
    else if c == 0x5B { Some(0x1Au8) }
    else if c == 0x5D { Some(0x1Bu8) }
    else if c == 0x3B { Some(0x27u8) }
    else if c == 0x27 { Some(0x28u8) }
    else if c == 0x60 { Some(0x29u8) }
    else if c == 0x5C { Some(0x2Bu8) }
    else if c == 0x2C { Some(0x33u8) }
    else if c == 0x2E { Some(0x34u8) }
    else if c == 0x2F { Some(0x35u8) }
    else if c == 0x20 { Some(0x39u8) }
    else { None }
}

/// Every key that prints a character prints the one a US keyboard has on
/// that key (so the letter keys give their own letters, `0x2C` gives `z`),
/// and a letter key with shift gives the same letter in upper case.
pub proof fn lemma_us_layout(scan: u8)
    ensures
        char_for(scan, false, false) matches Some(c) ==> us_key_of(c) == Some(scan),
        char_for(scan, false, false) matches Some(c) ==> 0x61 <= c <= 0x7A ==> char_for(scan, true, false) == Some(
            (c - 32) as u8,
        ) && char_for(scan, false, true) == Some((c - 32) as u8),
{
}

/// What shift makes of an unshifted character on a US keyboard: letters
/// go to upper case, the number row and punctuation to the symbols above
/// them, the space stays.
pub open spec fn us_shifted(c: u8) -> u8 {
    if 0x61 <= c <= 0x7A { (c - 32) as u8 }
    else if c == 0x31 { 0x21 } else if c == 0x32 { 0x40 } else if c == 0x33 { 0x23 }
    else if c == 0x34 { 0x24 } else if c == 0x35 { 0x25 } else if c == 0x36 { 0x5E }
    else if c == 0x37 { 0x26 } else if c == 0x38 { 0x2A } else if c == 0x39 { 0x28 }
    else if c == 0x30 { 0x29 } else if c == 0x2D { 0x5F } else if c == 0x3D { 0x2B }
    else if c == 0x5B { 0x7B } else if c == 0x5D { 0x7D } else if c == 0x3B { 0x3A }
    else if c == 0x27 { 0x22 } else if c == 0x60 { 0x7E } else if c == 0x5C { 0x7C }
    else if c == 0x2C { 0x3C } else if c == 0x2E { 0x3E } else if c == 0x2F { 0x3F }
    else { c }
}

/// Shift gives a key's US shifted character; caps lock alone upper-cases
/// letters and leaves every other key as it is; both together cancel on
/// letters.
pub proof fn lemma_us_shift(scan: u8)
    ensures
        char_for(scan, false, false) matches Some(c) ==> char_for(scan, true, false) == Some(us_shifted(c)),
        char_for(scan, false, false) matches Some(c) ==> char_for(scan, false, true) == Some(
            if 0x61 <= c <= 0x7A { (c - 32) as u8 } else { c },
        ),
        char_for(scan, false, false) matches Some(c) ==> char_for(scan, true, true) == Some(
            if 0x61 <= c <= 0x7A { c } else { us_shifted(c) },
        ),
        char_for(scan, false, false) is None ==> char_for(scan, true, false) is None,
{
}

/// No two keys print the same unshifted character.
pub proof fn lemma_keys_print_distinct(a: u8, b: u8)
    requires
        a != b,
        char_for(a, false, false) is Some,
        char_for(b, false, false) is Some,
    ensures
        char_for(a, false, false) != char_for(b, false, false),
{
    lemma_us_layout(a);
    lemma_us_layout(b);
}

/// The key produced by an extended (0xE0-prefixed) scancode on key-down.
pub open spec fn extended_key(scan: u8) -> Option<Key> {
    if scan == 0x48 { Some(Key::Up) }
    else if scan == 0x50 { Some(Key::Down) }
    else if scan == 0x4B { Some(Key::Left) }
    else if scan == 0x4D { Some(Key::Right) }
    else if scan == 0x47 { Some(Key::Home) }
    else if scan == 0x4F { Some(Key::End) }
    else if scan == 0x53 { Some(Key::Delete) }
    else { None }
}

/// The character a mapped scancode prints under the given modifier state:
/// for letters shift XOR caps picks the case, for everything else only
/// shift matters.
pub open spec fn char_for(scan: u8, shift: bool, caps: bool) -> Option<u8> {
    match char_pair(scan) {
        Some((base, shifted)) => {
            let upper = if 0x61 <= base && base <= 0x7a { shift != caps } else { shift };
            Some(if upper { shifted } else { base })
        },
        None => None,
    }
}

/// The key produced by a non-extended scancode on key-down (modifiers excluded).
pub open spec fn plain_key(scan: u8, shift: bool, caps: bool) -> Option<Key> {
    if scan == 0x1C { Some(Key::Enter) }
    else if scan == 0x0E { Some(Key::Backspace) }
    else if scan == 0x0F { Some(Key::Tab) }
    else if scan == 0x01 { Some(Key::Esc) }
    else {
        match char_for(scan, shift, caps) {
            Some(c) => Some(Key::Char(c)),
            None => None,
        }
    }
}

/// True for the scancodes that only change modifier state (both shifts, caps lock).
pub open spec fn is_modifier(scan: u8) -> bool {
    scan == 0x2A || scan == 0x36 || scan == 0x3A
}

/// The key an event produces with the given modifier state: nothing for
/// modifier keys and key releases, else the extended or plain mapping.
pub open spec fn key_result(scan: u8, extended: bool, pressed: bool, shift: bool, caps: bool) -> Option<Key> {
    if !extended && is_modifier(scan) {
        None
    } else if !pressed {
        None
    } else if extended {
        extended_key(scan)
    } else {
        plain_key(scan, shift, caps)
    }
}

/// Tracks modifier state and translates scancodes.
pub struct Keymap {
    shift: bool,
    caps: bool,
}

impl Keymap {
    /// Whether a shift key is held.
    pub closed spec fn shift_held(&self) -> bool {
        self.shift
    }

    /// Whether caps lock is on.
    pub closed spec fn caps_on(&self) -> bool {
        self.caps
    }

    pub fn new() -> (k: Self)
        ensures
            !k.shift_held(),
            !k.caps_on(),
    {
        Keymap { shift: false, caps: false }
    }

    /// Current shift state.
    pub fn shift(&self) -> (b: bool)
        ensures
            b == self.shift_held(),
    {
        self.shift
    }

    /// Current caps-lock state.
    pub fn caps(&self) -> (b: bool)
        ensures
            b == self.caps_on(),
    {
        self.caps
    }

    /// Process one PS/2 event. Returns the produced key on key-down, or `None`
    /// for modifier changes, key-up, and unmapped codes.
    pub fn process(&mut self, scan: u8, extended: bool, pressed: bool) -> (r: Option<Key>)
        ensures
            // Shift follows the state of either shift key.
            final(self).shift_held() == (if !extended && (scan == 0x2A || scan == 0x36) {
                pressed
            } else {
                old(self).shift_held()
            }),
            // Caps lock toggles on each press of its key.
            final(self).caps_on() == (if !extended && scan == 0x3A && pressed {
                !old(self).caps_on()
            } else {
                old(self).caps_on()
            }),
            r == key_result(scan, extended, pressed, old(self).shift_held(), old(self).caps_on()),
    {
        if !extended {
            if scan == 0x2A || scan == 0x36 {
                self.shift = pressed;
                return None;
            }
            if scan == 0x3A {
                if pressed {
                    self.caps = !self.caps;
                }
                return None;
            }
        }
        if !pressed {
            return None;
        }
        if extended {
            return match scan {
                0x48 => Some(Key::Up),
                0x50 => Some(Key::Down),
                0x4B => Some(Key::Left),
                0x4D => Some(Key::Right),
                0x47 => Some(Key::Home),
                0x4F => Some(Key::End),
                0x53 => Some(Key::Delete),
                _ => None,
            };
        }
        match scan {
            0x1C => Some(Key::Enter),
            0x0E => Some(Key::Backspace),
            0x0F => Some(Key::Tab),
            0x01 => Some(Key::Esc),
            _ => match self.translate_char(scan) {
                Some(c) => Some(Key::Char(c)),
                None => None,
            },
        }
    }

    fn translate_char(&self, scan: u8) -> (r: Option<u8>)
        ensures
            r == char_for(scan, self.shift, self.caps),
    {
        match base_shift(scan) {
            Some((base, shifted)) => {
                let upper = if 0x61u8 <= base && base <= 0x7au8 {
                    self.shift != self.caps
                } else {
                    self.shift
                };
                Some(if upper { shifted } else { base })
            },
            None => None,
        }
    }
}

impl Default for Keymap {
    fn default() -> (k: Self)
        ensures
            !k.shift_held(),
            !k.caps_on(),
    {
        Self::new()
    }
}

/// Every mapped key prints a visible ASCII byte or a space, and shift changes
/// every mapped key except the space bar.
pub proof fn lemma_char_pairs_printable(scan: u8)
    requires
        char_pair(scan) is Some,
    ensures
        ({
            let (u, s) = char_pair(scan).unwrap();
            &&& (0x21 <= u <= 0x7e || u == 0x20)
            &&& (0x21 <= s <= 0x7e || s == 0x20)
            &&& (u != 0x20 ==> u != s)
        }),
{
}

} // verus!
