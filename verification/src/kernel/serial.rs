//! COM1 debug output: the byte stream a string becomes on the wire, with
//! each line feed preceded by a carriage return for terminal-friendly logs.
use vstd::prelude::*;

verus! {

/// `s` with every `\n` turned into `\r\n`.
pub open spec fn crlf_spec(s: Seq<u8>) -> Seq<u8>
    decreases s.len(),
{
    if s.len() == 0 {
        Seq::empty()
    } else if s.last() == 0x0A {
        crlf_spec(s.drop_last()) + seq![0x0Du8, 0x0Au8]
    } else {
        crlf_spec(s.drop_last()).push(s.last())
    }
}

/// The bytes to transmit for the text `s`.
pub fn crlf(s: &[u8]) -> (out: Vec<u8>)
    ensures
        out@ == crlf_spec(s@),
{
    let mut out: Vec<u8> = Vec::new();
    let mut i: usize = 0;
    while i < s.len()
        invariant
            i <= s@.len(),
            out@ == crlf_spec(s@.subrange(0, i as int)),
        decreases s@.len() - i,
    {
        assert(s@.subrange(0, i + 1).drop_last() == s@.subrange(0, i as int));
        if s[i] == 0x0A {
            out.push(0x0D);
        }
        out.push(s[i]);
        assert(out@ =~= crlf_spec(s@.subrange(0, i + 1)));
        i += 1;
    }
    assert(s@.subrange(0, s@.len() as int) == s@);
    out
}

} // verus!
