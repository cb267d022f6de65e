//! The calculator's entry line: the digits being typed, edited as a
//! calculator does. The arithmetic on it stays with the floating-point side.
use vstd::prelude::*;

verus! {

/// Longest entry, in bytes.
pub const ENTRY_MAX: usize = 16;

/// The entry line and whether the next digit starts a fresh number (after
/// an operator or `=`).
pub struct Entry {
    text: Vec<u8>,
    fresh: bool,
}

/// The entry as plain values.
pub struct EntryV {
    pub text: Seq<u8>,
    pub fresh: bool,
}

impl View for Entry {
    type V = EntryV;

    closed spec fn view(&self) -> EntryV {
        EntryV { text: self.text@, fresh: self.fresh }
    }
}

/// The text is one to `ENTRY_MAX` bytes.
pub open spec fn entry_ok(e: EntryV) -> bool {
    1 <= e.text.len() <= ENTRY_MAX
}

/// The cleared entry: `0`, waiting for a fresh number.
pub open spec fn cleared() -> EntryV {
    EntryV { text: seq![0x30u8], fresh: true }
}

/// Typing digit `d`: it starts a fresh number, replaces a lone `0`, or is
/// appended while there is room.
pub open spec fn digit_spec(e: EntryV, d: u8) -> EntryV {
    if e.fresh {
        EntryV { text: seq![d], fresh: false }
    } else if e.text == seq![0x30u8] {
        EntryV { text: seq![d], fresh: false }
    } else if e.text.len() < ENTRY_MAX {
        EntryV { text: e.text.push(d), fresh: false }
    } else {
        e
    }
}

/// Typing the decimal point: a fresh number starts as `0.`; otherwise it is
/// appended once, while there is room.
pub open spec fn dot_spec(e: EntryV) -> EntryV {
    if e.fresh {
        EntryV { text: seq![0x30u8, 0x2Eu8], fresh: false }
    } else if !e.text.contains(0x2Eu8) && e.text.len() < ENTRY_MAX {
        EntryV { text: e.text.push(0x2Eu8), fresh: false }
    } else {
        e
    }
}

/// Erasing the last character: nothing on a fresh number; the last byte
/// goes, and erasing the only one leaves a fresh `0`.
pub open spec fn backspace_spec(e: EntryV) -> EntryV {
    if e.fresh {
        e
    } else if e.text.len() > 1 {
        EntryV { text: e.text.drop_last(), fresh: false }
    } else {
        cleared()
    }
}

impl Entry {
    pub open spec fn wf(&self) -> bool {
        entry_ok(self@)
    }

    /// The cleared entry.
    pub fn new() -> (e: Self)
        ensures
            e.wf(),
            e@ == cleared(),
    {
        let mut text: Vec<u8> = Vec::new();
        text.push(0x30);
        let e = Entry { text, fresh: true };
        assert(e@.text =~= seq![0x30u8]);
        e
    }

    /// The entry's text.
    pub fn text(&self) -> (t: &[u8])
        ensures
            t@ == self@.text,
    {
        self.text.as_slice()
    }

    /// Whether the next digit starts a fresh number.
    pub fn is_fresh(&self) -> (b: bool)
        ensures
            b == self@.fresh,
    {
        self.fresh
    }

    /// Type digit `d`.
    pub fn push_digit(&mut self, d: u8)
        requires
            old(self).wf(),
        ensures
            final(self).wf(),
            final(self)@ == digit_spec(old(self)@, d),
    {
        if self.fresh || (self.text.len() == 1 && self.text[0] == 0x30) {
            let mut text: Vec<u8> = Vec::new();
            text.push(d);
            self.text = text;
            self.fresh = false;
            assert(self.text@ =~= seq![d]);
            assert(!old(self)@.fresh ==> old(self)@.text =~= seq![0x30u8]);
        } else {
            assert(old(self)@.text != seq![0x30u8]) by {
                if old(self)@.text =~= seq![0x30u8] {
                    assert(old(self)@.text[0] == 0x30);
                }
            }
            if self.text.len() < ENTRY_MAX {
                self.text.push(d);
            }
        }
    }

    /// Type the decimal point.
    pub fn push_dot(&mut self)
        requires
            old(self).wf(),
        ensures
            final(self).wf(),
            final(self)@ == dot_spec(old(self)@),
    {
        if self.fresh {
            let mut text: Vec<u8> = Vec::new();
            text.push(0x30);
            text.push(0x2E);
            self.text = text;
            self.fresh = false;
            assert(self.text@ =~= seq![0x30u8, 0x2Eu8]);
            return;
        }
        let mut i: usize = 0;
        while i < self.text.len()
            invariant
                i <= self.text@.len(),
                self@ == old(self)@,
                !self.fresh,
                old(self).wf(),
                forall|k: int| 0 <= k < i ==> self.text@[k] != 0x2E,
            decreases self.text@.len() - i,
        {
            if self.text[i] == 0x2E {
                assert(self.text@.contains(0x2Eu8));
                return;
            }
            i += 1;
        }
        if self.text.len() < ENTRY_MAX {
            self.text.push(0x2E);
        }
    }

    /// Erase the last character.
    pub fn backspace(&mut self)
        requires
            old(self).wf(),
        ensures
            final(self).wf(),
            final(self)@ == backspace_spec(old(self)@),
    {
        if self.fresh {
            return;
        }
        if self.text.len() > 1 {
            self.text.pop();
            assert(self.text@ =~= old(self)@.text.drop_last());
        } else {
            *self = Entry::new();
        }
    }

    /// Show `text` (a computed result) without changing freshness.
    pub fn show(&mut self, text: &[u8])
        requires
            1 <= text@.len() <= ENTRY_MAX,
        ensures
            final(self).wf(),
            final(self)@ == (EntryV { text: text@, fresh: old(self)@.fresh }),
    {
        self.text = crate::bytes::to_vec(text);
    }

    /// The next digit starts a fresh number.
    pub fn start_fresh(&mut self)
        requires
            old(self).wf(),
        ensures
            final(self).wf(),
            final(self)@ == (EntryV { text: old(self)@.text, fresh: true }),
    {
        self.fresh = true;
    }
}

} // verus!
