use vstd::assert_seqs_equal;
use vstd::prelude::*;

verus! {

/// A failure of a byte source other than clean exhaustion. A source signals
/// exhaustion by filling zero bytes, never through this type.
#[derive(Clone, Copy, Debug, PartialEq, Eq, Structural)]
pub struct SourceError;

/// A forward-only byte provider. It exposes one capability: fill a
/// caller-supplied buffer with the next bytes of the stream, reporting how
/// many were filled. Filling zero bytes into a non-empty buffer signals
/// permanent exhaustion; any other failure is reported as a
/// [`SourceError`].
pub trait ByteSource {
    /// The bytes the source has not yet produced, in the order it will
    /// produce them.
    spec fn remaining(&self) -> Seq<u8>;

    /// Whether this source is incapable of failing. A fill of a source for
    /// which this holds never returns an error; only the clean end of the
    /// stream can stop it.
    spec fn never_fails(&self) -> bool;

    /// Whether every successful fill of this source is maximal, producing
    /// as many bytes as the buffer and the stream allow. For such a source
    /// the sizes of the windows a reader cuts the stream into are fully
    /// determined.
    spec fn fills_fully(&self) -> bool;

    /// Fills `buf` from the front with the next bytes of the stream and
    /// returns how many bytes were filled. The length of `buf` is kept; only
    /// its contents change. A successful call fills at least one byte
    /// whenever the buffer is non-empty and the stream is not exhausted, so
    /// a count of zero for a non-empty buffer means the stream has ended for
    /// good. On failure the stream is left where it was.
    fn read_into(&mut self, buf: &mut Vec<u8>) -> (r: Result<usize, SourceError>)
        ensures
            final(buf)@.len() == old(buf)@.len(),
            final(self).never_fails() == old(self).never_fails(),
            final(self).fills_fully() == old(self).fills_fully(),
            (match r {
                Ok(n) => {
                    &&& n <= old(buf)@.len()
                    &&& n <= old(self).remaining().len()
                    &&& final(buf)@ == old(self).remaining().take(n as int) + old(buf)@.skip(
                        n as int,
                    )
                    &&& final(self).remaining() == old(self).remaining().skip(n as int)
                    &&& (old(buf)@.len() > 0 && old(self).remaining().len() > 0 ==> n > 0)
                    &&& (old(self).fills_fully() ==> n as int == vstd::math::min(
                        old(buf)@.len() as int,
                        old(self).remaining().len() as int,
                    ))
                },
                Err(_) => {
                    &&& final(self).remaining() == old(self).remaining()
                    &&& final(buf)@ == old(buf)@
                    &&& !old(self).never_fails()
                },
            }),
    ;
}

/// An in-memory byte source: it hands out the bytes of an owned vector, in
/// order, and is exhausted once all of them have been produced. It never
/// fails.
pub struct MemorySource {
    data: Vec<u8>,
    pos: usize,
}

impl MemorySource {
    /// Wraps `data` as a source that will produce exactly those bytes.
    pub fn new(data: Vec<u8>) -> (s: Self)
        ensures
            s.remaining() == data@,
            s.never_fails(),
            s.fills_fully(),
    {
        let s = MemorySource { data, pos: 0 };
        proof {
            assert_seqs_equal!(s.remaining() == s.data@);
        }
        s
    }
}

impl ByteSource for MemorySource {
    closed spec fn remaining(&self) -> Seq<u8> {
        if self.pos as int <= self.data@.len() {
            self.data@.skip(self.pos as int)
        } else {
            Seq::empty()
        }
    }

    closed spec fn never_fails(&self) -> bool {
        true
    }

    closed spec fn fills_fully(&self) -> bool {
        true
    }

    fn read_into(&mut self, buf: &mut Vec<u8>) -> (r: Result<usize, SourceError>) {
        let avail: usize = if self.pos <= self.data.len() {
            self.data.len() - self.pos
        } else {
            0
        };
        let n: usize = if buf.len() < avail {
            buf.len()
        } else {
            avail
        };
        let mut k: usize = 0;
        while k < n
            invariant
                k <= n,
                n <= avail,
                *self == *old(self),
                avail > 0 ==> self.pos + avail <= self.data@.len(),
                self.data@.len() <= usize::MAX as int,
                buf@.len() == old(buf)@.len(),
                n <= buf@.len(),
                forall|j: int| 0 <= j < k ==> buf@[j] == self.data@[self.pos + j],
                forall|j: int| k <= j < buf@.len() ==> buf@[j] == old(buf)@[j],
            decreases n - k,
        {
            let b = self.data[self.pos + k];
            buf.set(k, b);
            k += 1;
        }
        proof {
            assert_seqs_equal!(
                buf@ == old(self).remaining().take(n as int) + old(buf)@.skip(n as int)
            );
        }
        self.pos = self.pos + n;
        proof {
            assert_seqs_equal!(
                self.remaining() == old(self).remaining().skip(n as int)
            );
        }
        Ok(n)
    }
}

} // verus!
