//! Framing of the text exposition of metrics.

use vstd::prelude::*;

verus! {

/// The OpenMetrics terminator, `# EOF\n`.
pub open spec fn eof_marker() -> Seq<u8> {
    seq![0x23u8, 0x20u8, 0x45u8, 0x4fu8, 0x46u8, 0x0au8]
}

/// Removes the trailing OpenMetrics terminator, if present, so that more text
/// can follow what an encoder wrote.
pub fn truncate_eof(buffer: &mut Vec<u8>)
    ensures
        if eof_marker().is_suffix_of(old(buffer)@) {
            final(buffer)@ == old(buffer)@.take(old(buffer)@.len() - 6)
        } else {
            final(buffer)@ == old(buffer)@
        },
{
    let marker: [u8; 6] = [0x23, 0x20, 0x45, 0x4f, 0x46, 0x0a];
    let n = buffer.len();
    if n < 6 {
        return;
    }
    let mut i: usize = 0;
    while i < 6
        invariant
            n == buffer@.len(),
            n >= 6,
            i <= 6,
            buffer@ == old(buffer)@,
            marker@ == eof_marker(),
            forall|j: int| 0 <= j < i ==> buffer@[n - 6 + j] == eof_marker()[j],
        decreases 6 - i,
    {
        if buffer[n - 6 + i] != marker[i] {
            proof {
                assert(buffer@.subrange(n - 6, n as int)[i as int] != eof_marker()[i as int]);
            }
            return;
        }
        i = i + 1;
    }
    proof {
        assert(buffer@.subrange(n - 6, n as int) =~= eof_marker());
    }
    buffer.truncate(n - 6);
}

} // verus!
