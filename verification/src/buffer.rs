//! Byte buffers that grow at the end.

use vstd::prelude::*;

verus! {

/// Appends `bytes` to `stream`.
pub fn append_bytes(stream: &mut Vec<u8>, bytes: &[u8])
    ensures
        final(stream)@ == old(stream)@ + bytes@,
{
    let mut i: usize = 0;
    while i < bytes.len()
        invariant
            i <= bytes.len(),
            stream@ == old(stream)@ + bytes@.take(i as int),
        decreases bytes.len() - i,
    {
        stream.push(bytes[i]);
        i += 1;
    }
}

} // verus!
