//! A writer over a byte buffer that can be told to drop, before its next write,
//! everything written after the buffer's last newline.

use vstd::prelude::*;

verus! {

/// What a writer drops before its next write.
#[derive(Clone, Copy, Debug, PartialEq, Eq, Structural)]
pub enum RewindTo {
    /// Nothing.
    Nothing,
    /// Everything after the last newline; the newline stays.
    LastNewline,
}

impl Default for RewindTo {
    /// Nothing.
    fn default() -> (r: Self)
        ensures
            r == RewindTo::Nothing,
    {
        RewindTo::Nothing
    }
}

/// `buf` cut just after its last newline; unchanged when it holds none.
pub open spec fn cut_after_last_newline(buf: Seq<u8>) -> Seq<u8> {
    match buf.index_of_last(10u8) {
        Some(i) => buf.take(i + 1),
        None => buf,
    }
}

/// `buf` after a pending rewind is applied.
pub open spec fn rewound(buf: Seq<u8>, to: RewindTo) -> Seq<u8> {
    match to {
        RewindTo::Nothing => buf,
        RewindTo::LastNewline => cut_after_last_newline(buf),
    }
}

/// A writer that appends to a buffer, first applying the rewind that was
/// requested since its last write, if any.
pub struct RewindableWriter {
    out: Vec<u8>,
    rewind_to: RewindTo,
}

impl RewindableWriter {
    /// The bytes written so far, before the pending rewind.
    pub closed spec fn written(&self) -> Seq<u8> {
        self.out@
    }

    /// The rewind that the next write applies.
    pub closed spec fn pending(&self) -> RewindTo {
        self.rewind_to
    }

    /// A writer appending to `out`, with no rewind pending.
    pub fn new(out: Vec<u8>) -> (r: Self)
        ensures
            r.written() == out@,
            r.pending() == RewindTo::Nothing,
    {
        RewindableWriter { out, rewind_to: RewindTo::Nothing }
    }

    /// The bytes written so far, before the pending rewind.
    pub fn out(&self) -> (r: &Vec<u8>)
        ensures
            r@ == self.written(),
    {
        &self.out
    }

    /// Requests a rewind, applied before the next write, flush or finish.
    pub fn rewind_to(&mut self, to: RewindTo)
        ensures
            final(self).written() == old(self).written(),
            final(self).pending() == to,
    {
        self.rewind_to = to;
    }

    /// Applies the pending rewind and clears it.
    fn apply_rewind(&mut self)
        ensures
            final(self).written() == rewound(old(self).written(), old(self).pending()),
            final(self).pending() == RewindTo::Nothing,
    {
        let to = self.rewind_to;
        self.rewind_to = RewindTo::Nothing;
        match to {
            RewindTo::Nothing => {},
            RewindTo::LastNewline => {
                let ghost buf = self.out@;
                proof {
                    buf.index_of_last_ensures(10u8);
                }
                let mut i: usize = self.out.len();
                while i > 0
                    invariant
                        i <= buf.len(),
                        self.out@ == buf,
                        buf == old(self).written(),
                        old(self).pending() == RewindTo::LastNewline,
                        self.rewind_to == RewindTo::Nothing,
                        forall|j: int| i <= j < buf.len() ==> buf[j] != 10u8,
                    decreases i,
                {
                    if self.out[i - 1] == 10u8 {
                        proof {
                            buf.index_of_last_ensures(10u8);
                            assert(buf.contains(10u8));
                            let k = buf.index_of_last(10u8).unwrap();
                            if k > i - 1 {
                                assert(buf[k] != 10u8);
                            }
                            if k < i - 1 {
                                assert(buf[i - 1] != 10u8);
                            }
                        }
                        self.out.truncate(i);
                        return;
                    }
                    i = i - 1;
                }
                proof {
                    if buf.contains(10u8) {
                        let k = buf.index_of_last(10u8).unwrap();
                        assert(buf[k] != 10u8);
                    }
                }
            },
        }
    }

    /// Writes all of `buf`, after applying the pending rewind.
    pub fn write_all(&mut self, buf: &[u8])
        ensures
            final(self).written() == rewound(old(self).written(), old(self).pending()) + buf@,
            final(self).pending() == RewindTo::Nothing,
    {
        self.apply_rewind();
        self.out.extend_from_slice(buf);
        proof {
            assert(self.out@ =~= rewound(old(self).written(), old(self).pending()) + buf@);
        }
    }

    /// Writes `buf`, after applying the pending rewind, and returns the number
    /// of bytes written: all of them.
    pub fn write(&mut self, buf: &[u8]) -> (n: usize)
        ensures
            n == buf@.len(),
            final(self).written() == rewound(old(self).written(), old(self).pending()) + buf@,
            final(self).pending() == RewindTo::Nothing,
    {
        self.write_all(buf);
        buf.len()
    }

    /// Applies the pending rewind.
    pub fn flush(&mut self)
        ensures
            final(self).written() == rewound(old(self).written(), old(self).pending()),
            final(self).pending() == RewindTo::Nothing,
    {
        self.apply_rewind();
    }

    /// Applies the pending rewind and hands back the buffer.
    pub fn finish(self) -> (r: Vec<u8>)
        ensures
            r@ == rewound(self.written(), self.pending()),
    {
        let mut w = self;
        w.apply_rewind();
        w.out
    }
}

/// The state that hands out a rewindable writer: at most one writer is
/// active at a time, and handing the writer back applies its pending rewind
/// and frees the state for the next one.
pub struct RewindState {
    active: bool,
}

impl RewindState {
    /// Whether a writer is active.
    pub closed spec fn active(&self) -> bool {
        self.active
    }

    /// A state with no active writer.
    pub fn new() -> (r: Self)
        ensures
            !r.active(),
    {
        RewindState { active: false }
    }

    /// Whether a writer is active.
    pub fn is_active(&self) -> (r: bool)
        ensures
            r == self.active(),
    {
        self.active
    }

    /// Hands out the writer over `buf`, with no rewind pending. Only one
    /// writer may be active at a time.
    pub fn activate(&mut self, buf: Vec<u8>) -> (w: RewindableWriter)
        requires
            !old(self).active(),
        ensures
            final(self).active(),
            w.written() == buf@,
            w.pending() == RewindTo::Nothing,
    {
        self.active = true;
        RewindableWriter::new(buf)
    }

    /// Takes the writer back: applies its pending rewind, returns the buffer
    /// and leaves no writer active.
    pub fn reset(&mut self, writer: RewindableWriter) -> (r: Vec<u8>)
        ensures
            !final(self).active(),
            r@ == rewound(writer.written(), writer.pending()),
    {
        self.active = false;
        writer.finish()
    }
}

/// Rewinding to the last newline keeps a prefix of the buffer that is either
/// empty of newlines (the whole buffer) or ends with its last newline, and
/// doing it twice changes nothing more.
pub proof fn lemma_rewind_keeps_last_line_break(buf: Seq<u8>)
    ensures
        cut_after_last_newline(buf).is_prefix_of(buf),
        buf.contains(10u8) ==> cut_after_last_newline(buf).last() == 10u8,
        !buf.contains(10u8) ==> cut_after_last_newline(buf) == buf,
        cut_after_last_newline(cut_after_last_newline(buf)) == cut_after_last_newline(buf),
{
    buf.index_of_last_ensures(10u8);
    let c = cut_after_last_newline(buf);
    match buf.index_of_last(10u8) {
        Some(i) => {
            assert(c.last() == buf[i]);
            assert(c.is_prefix_of(buf));
            c.index_of_last_ensures(10u8);
            assert(c.contains(10u8)) by {
                assert(c[c.len() - 1] == 10u8);
            }
            let k = c.index_of_last(10u8).unwrap();
            if k < c.len() - 1 {
                assert(c[c.len() - 1] == 10u8);
            }
            assert(c.take(k + 1) =~= c);
        },
        None => {
            assert(c.is_prefix_of(buf));
        },
    }
}

} // verus!
