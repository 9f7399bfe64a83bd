//! The bytes of a nul-terminated string built from text, for handing text to
//! the host.
use vstd::prelude::*;
use vstd::string::StringSliceAdditionalSpecFns;

verus! {

/// The bytes of `b` followed by a terminating 0, or `None` when `b` itself
/// holds a 0, which would end the string early.
pub open spec fn nul_terminated_of(b: Seq<u8>) -> Option<Seq<u8>> {
    if b.contains(0u8) {
        None
    } else {
        Some(b.push(0u8))
    }
}

/// The bytes of `s` followed by a terminating 0; `None` when `s` holds a nul
/// character.
pub fn nul_terminated(s: &str) -> (r: Option<Vec<u8>>)
    ensures
        match r {
            Some(v) => nul_terminated_of(s.spec_bytes()) == Some(v@),
            None => nul_terminated_of(s.spec_bytes()) is None,
        },
{
    let b = s.as_bytes();
    let mut out: Vec<u8> = Vec::new();
    let mut i: usize = 0;
    while i < b.len()
        invariant
            b@ == s.spec_bytes(),
            i <= b@.len(),
            out@ == b@.subrange(0, i as int),
            !out@.contains(0u8),
        decreases b@.len() - i,
    {
        if b[i] == 0 {
            assert(b@[i as int] == 0u8);
            return None;
        }
        out.push(b[i]);
        assert(out@ =~= b@.subrange(0, i + 1));
        i = i + 1;
    }
    assert(out@ =~= b@);
    out.push(0);
    Some(out)
}

} // verus!
