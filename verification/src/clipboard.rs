use vstd::prelude::*;

verus! {

/// Maximum clipboard payload in bytes.
pub const CAP: usize = 256;

/// A bounded text clipboard shared across apps; copies longer than [`CAP`]
/// keep only their first [`CAP`] bytes.
pub struct Clipboard {
    buf: Vec<u8>,
}

impl View for Clipboard {
    type V = Seq<u8>;

    closed spec fn view(&self) -> Seq<u8> {
        self.buf@
    }
}

impl Clipboard {
    /// Well-formedness: the stored text never exceeds the capacity.
    pub closed spec fn wf(&self) -> bool {
        self.buf@.len() <= CAP
    }

    pub fn new() -> (c: Self)
        ensures
            c.wf(),
            c@ == Seq::<u8>::empty(),
    {
        Clipboard { buf: Vec::new() }
    }

    /// Replace the contents with `data` (truncated to [`CAP`]).
    pub fn set(&mut self, data: &[u8])
        ensures
            final(self).wf(),
            final(self)@ == (if data@.len() <= CAP { data@ } else { data@.subrange(0, CAP as int) }),
    {
        let n = if data.len() < CAP { data.len() } else { CAP };
        let mut v: Vec<u8> = Vec::new();
        let mut i: usize = 0;
        while i < n
            invariant
                n <= data@.len(),
                n <= CAP,
                i <= n,
                v@ == data@.subrange(0, i as int),
            decreases n - i,
        {
            v.push(data[i]);
            i += 1;
        }
        self.buf = v;
    }

    /// Current clipboard text.
    pub fn get(&self) -> (s: &[u8])
        ensures
            s@ == self@,
    {
        self.buf.as_slice()
    }

    pub fn clear(&mut self)
        ensures
            final(self).wf(),
            final(self)@ == Seq::<u8>::empty(),
    {
        self.buf = Vec::new();
    }

    pub fn is_empty(&self) -> (b: bool)
        ensures
            b == (self@.len() == 0),
    {
        self.buf.len() == 0
    }
}

impl Default for Clipboard {
    fn default() -> (c: Self)
        ensures
            c.wf(),
            c@ == Seq::<u8>::empty(),
    {
        Self::new()
    }
}

} // verus!
