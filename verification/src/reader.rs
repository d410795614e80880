use crate::source::ByteSource;
use crate::source::SourceError;
use vstd::prelude::*;

verus! {

/// Where a seek starts from.
#[derive(Clone, Copy, Debug, PartialEq, Eq, Structural)]
pub enum SeekFrom {
    /// An absolute offset from the start of the stream.
    Start(u64),
    /// A signed offset from the current position.
    Current(i64),
    /// A signed offset from the end of the stream. The end of a forward-only
    /// stream is never known, so every such seek fails with
    /// [`Error::Unsupported`].
    End(i64),
}

/// What a read or seek of a [`BufStreamReader`] can fail with.
#[derive(Clone, Copy, Debug, PartialEq, Eq, Structural)]
pub enum Error {
    /// The wrapped source produced zero bytes on a fill attempt: the stream
    /// has ended for good, and the requested operation cannot be completed.
    Exhausted,
    /// The seek target lies strictly before the start of the current window.
    /// Those bytes have been discarded and can never be addressed again.
    Unreachable,
    /// The seek was relative to the end of the stream, which is never known.
    Unsupported,
    /// The wrapped source failed; its error is carried along unchanged.
    Source(SourceError),
}

/// The absolute position a seek request asks for, given the window base and
/// the in-window cursor of the reader at the time of the request, or `None`
/// when the request is unreachable: an absolute target before the window
/// base, or a backward step larger than the cursor. Seeks from the end have
/// no target at all.
pub open spec fn seek_target(from: SeekFrom, base: int, cur: int) -> Option<int> {
    match from {
        SeekFrom::Start(p) => if p as int >= base {
            Some(p as int)
        } else {
            None
        },
        SeekFrom::Current(d) => if cur + d >= 0 {
            Some(base + cur + d)
        } else {
            None
        },
        SeekFrom::End(_) => None,
    }
}

/// Copies `count` bytes of `src`, starting at `src_start`, into `dst` at
/// `dst_start`, leaving every other byte of `dst` and the length of `dst`
/// unchanged.
fn copy_into(src: &Vec<u8>, src_start: usize, dst: &mut Vec<u8>, dst_start: usize, count: usize)
    requires
        src_start + count <= src@.len(),
        dst_start + count <= old(dst)@.len(),
    ensures
        final(dst)@.len() == old(dst)@.len(),
        forall|j: int|
            0 <= j < old(dst)@.len() ==> final(dst)@[j] == (if dst_start <= j < dst_start + count {
                src@[j - dst_start + src_start]
            } else {
                old(dst)@[j]
            }),
{
    let src_len = src.len();
    let dst_len = dst.len();
    proof {
        assert(src_len as int == src@.len());
        assert(dst_len as int == old(dst)@.len());
    }
    let mut k: usize = 0;
    while k < count
        invariant
            k <= count,
            src_start + count <= src@.len(),
            dst_start + count <= old(dst)@.len(),
            src@.len() <= usize::MAX as int,
            old(dst)@.len() <= usize::MAX as int,
            dst@.len() == old(dst)@.len(),
            forall|j: int|
                dst_start <= j < dst_start + k ==> dst@[j] == src@[j - dst_start + src_start],
            forall|j: int|
                0 <= j < dst@.len() && !(dst_start <= j < dst_start + k) ==> dst@[j] == old(
                    dst,
                )@[j],
        decreases count - k,
    {
        let b = src[src_start + k];
        dst.set(dst_start + k, b);
        k += 1;
    }
}

/// A buffering adapter that turns a forward-only [`ByteSource`] into a
/// reader with positional access. It keeps one fixed-size window of the
/// stream in memory; positions inside the window can be revisited freely,
/// positions after it are reached by discarding the window and reading on,
/// and positions before it are gone for good.
pub struct BufStreamReader<R> where R: ByteSource {
    reader: R,
    offset: u64,
    bytes_in_buffer: usize,
    buffer: Vec<u8>,
    current_in_buffer: u64,
}

impl<R> BufStreamReader<R> where R: ByteSource {
    /// The absolute stream offset of the first byte of the current window.
    pub closed spec fn spec_offset(&self) -> int {
        self.offset as int
    }

    /// The read position within the current window.
    pub closed spec fn spec_current(&self) -> int {
        self.current_in_buffer as int
    }

    /// The live bytes of the current window.
    pub closed spec fn window(&self) -> Seq<u8> {
        self.buffer@.take(self.bytes_in_buffer as int)
    }

    /// The fixed capacity of the window, as configured at construction.
    pub closed spec fn window_capacity(&self) -> int {
        self.buffer@.len() as int
    }

    /// Whether the wrapped source can never fail: then no operation of this
    /// reader ever reports a source error.
    pub closed spec fn source_never_fails(&self) -> bool {
        self.reader.never_fails()
    }

    /// Whether the wrapped source always fills maximally: then every window
    /// the reader cuts holds as many bytes as the capacity and the rest of
    /// the stream allow, so the placement of windows over the stream is
    /// fully determined.
    pub closed spec fn source_fills_fully(&self) -> bool {
        self.reader.fills_fully()
    }

    /// Whether the current window is as large as the capacity and the rest
    /// of the stream allow. This holds of every window a maximally filling
    /// source produces; it does not hold of the initial, still empty window
    /// over a non-empty stream.
    pub open spec fn window_is_full(&self) -> bool {
        self.window().len() == vstd::math::min(
            self.window_capacity(),
            self.stream_end() - self.spec_offset(),
        )
    }

    /// How a window advance places the new base, stated over the state
    /// `pre` before and `post` after an operation of a maximally filling
    /// source: either nothing was discarded and base and window stand as
    /// they were, or the base advanced by the live bytes of the window that
    /// stood before plus a whole number of full windows, and the window now
    /// held is full.
    pub open spec fn advance_is_aligned(pre: Self, post: Self) -> bool {
        ||| (post.spec_offset() == pre.spec_offset() && post.window() == pre.window())
        ||| (post.window_is_full() && post.spec_offset() >= pre.spec_offset()
            + pre.window().len() && (post.spec_offset() - pre.spec_offset() - pre.window().len())
            % pre.window_capacity() == 0)
    }

    /// Every byte that is still addressable, starting at the window base:
    /// the live bytes of the current window followed by whatever the wrapped
    /// source has not yet produced.
    pub closed spec fn addressable(&self) -> Seq<u8> {
        self.window() + self.reader.remaining()
    }

    /// The absolute stream position: window base plus in-window cursor.
    pub open spec fn position(&self) -> int {
        self.spec_offset() + self.spec_current()
    }

    /// The bytes from the current position to the end of the stream.
    pub open spec fn pending(&self) -> Seq<u8> {
        self.addressable().skip(self.spec_current())
    }

    /// The absolute offset one past the last byte the stream will ever
    /// produce.
    pub open spec fn stream_end(&self) -> int {
        self.spec_offset() + self.addressable().len()
    }

    /// Well-formedness: the window has room for at least one byte, the
    /// cursor stays within the live bytes, the live bytes fit the window,
    /// and every position the stream can ever reach fits in a `u64`.
    pub closed spec fn wf(&self) -> bool {
        &&& self.buffer@.len() >= 1
        &&& self.bytes_in_buffer <= self.buffer@.len()
        &&& self.current_in_buffer as int <= self.bytes_in_buffer as int
        &&& self.offset as int + self.bytes_in_buffer as int + self.reader.remaining().len()
            <= u64::MAX as int
    }

    /// Bounds that well-formedness puts on the published quantities, for
    /// callers that compose the contracts of several operations.
    pub proof fn lemma_wf_bounds(&self)
        requires
            self.wf(),
        ensures
            0 <= self.spec_current() <= self.window().len(),
            self.window().len() <= self.addressable().len(),
            self.window().len() <= self.window_capacity(),
            1 <= self.window_capacity(),
            0 <= self.spec_offset(),
            self.position() <= self.stream_end(),
            self.stream_end() <= u64::MAX as int,
            self.pending().len() == self.stream_end() - self.position(),
    {
    }

    /// One refill keeps the window advance aligned: if the placement of
    /// `pre` relative to `origin` is aligned and `post` arose from `pre` by
    /// discarding the window and taking a full one, the placement of `post`
    /// is aligned too.
    proof fn lemma_aligned_after_refill(origin: Self, pre: Self, post: Self)
        requires
            pre.wf(),
            Self::advance_is_aligned(origin, pre),
            pre.window_capacity() == origin.window_capacity(),
            pre.stream_end() == origin.stream_end(),
            pre.spec_offset() >= origin.spec_offset(),
            pre.window().len() < pre.addressable().len(),
            post.spec_offset() == pre.spec_offset() + pre.window().len(),
            post.window_is_full(),
        ensures
            Self::advance_is_aligned(origin, post),
    {
        if pre.spec_offset() == origin.spec_offset() && pre.window() == origin.window() {
            vstd::arithmetic::div_mod::lemma_small_mod(0nat, origin.window_capacity() as nat);
            assert((post.spec_offset() - origin.spec_offset() - origin.window().len())
                % origin.window_capacity() == 0);
        } else {
            // the discarded window was full, and the stream went on past it,
            // so it held exactly the capacity
            assert(pre.window().len() == pre.window_capacity());
            vstd::arithmetic::div_mod::lemma_mod_add_multiples_vanish(
                pre.spec_offset() - origin.spec_offset() - origin.window().len(),
                origin.window_capacity(),
            );
        }
    }

    /// Creates a new reader wrapping `reader`, with a window of
    /// `buffer_size` bytes. The reader always asks the source for
    /// `buffer_size` bytes at a time, though near the end of the stream the
    /// window may hold fewer. No byte is read before the first read or seek
    /// that needs one, so wrapping an already exhausted source succeeds and
    /// the exhaustion surfaces on first use.
    pub fn new(reader: R, buffer_size: usize) -> (r: Self)
        requires
            buffer_size >= 1,
            reader.remaining().len() <= u64::MAX as int,
        ensures
            r.wf(),
            r.spec_offset() == 0,
            r.spec_current() == 0,
            r.window().len() == 0,
            r.window_capacity() == buffer_size as int,
            r.addressable() == reader.remaining(),
            r.pending() == reader.remaining(),
            r.source_never_fails() == reader.never_fails(),
            r.source_fills_fully() == reader.fills_fully(),
    {
        let mut buffer: Vec<u8> = Vec::new();
        let mut k: usize = 0;
        while k < buffer_size
            invariant
                k <= buffer_size,
                buffer@.len() == k as int,
            decreases buffer_size - k,
        {
            buffer.push(0u8);
            k += 1;
        }
        let r = BufStreamReader {
            reader,
            buffer,
            bytes_in_buffer: 0,
            offset: 0,
            current_in_buffer: 0,
        };
        proof {
            assert(r.window() == Seq::<u8>::empty());
            assert(r.addressable() =~= r.reader.remaining());
            assert(r.pending() =~= r.reader.remaining());
        }
        r
    }

    /// Discards the current window and fills it anew from the source: the
    /// window base advances by exactly the number of live bytes discarded,
    /// and the cursor returns to the start of the window. A fill that
    /// produces zero bytes means the stream has ended for good and is
    /// reported as [`Error::Exhausted`], with the window left as it was.
    fn read_next_buffer(&mut self) -> (r: Result<(), Error>)
        requires
            old(self).wf(),
        ensures
            final(self).wf(),
            final(self).stream_end() == old(self).stream_end(),
            final(self).window_capacity() == old(self).window_capacity(),
            final(self).source_never_fails() == old(self).source_never_fails(),
            final(self).source_fills_fully() == old(self).source_fills_fully(),
            (match r {
                Ok(()) => {
                    &&& old(self).window().len() < old(self).addressable().len()
                    &&& final(self).spec_offset() == old(self).spec_offset() + old(
                        self,
                    ).window().len()
                    &&& final(self).spec_current() == 0
                    &&& final(self).addressable() == old(self).addressable().skip(
                        old(self).window().len() as int,
                    )
                    &&& final(self).window().len() >= 1
                    &&& (old(self).source_fills_fully() ==> final(self).window_is_full())
                },
                Err(Error::Exhausted) => {
                    &&& old(self).window().len() == old(self).addressable().len()
                    &&& final(self).spec_offset() == old(self).spec_offset()
                    &&& final(self).spec_current() == old(self).spec_current()
                    &&& final(self).addressable() == old(self).addressable()
                    &&& final(self).window() == old(self).window()
                },
                Err(Error::Source(_)) => {
                    &&& final(self).spec_offset() == old(self).spec_offset()
                    &&& final(self).spec_current() == old(self).spec_current()
                    &&& final(self).addressable() == old(self).addressable()
                    &&& final(self).window() == old(self).window()
                    &&& !old(self).source_never_fails()
                },
                Err(_) => false,
            }),
    {
        let ghost old_rem = self.reader.remaining();
        let ghost old_window = self.window();
        let res = self.reader.read_into(&mut self.buffer);
        match res {
            Ok(bytes) => {
                if bytes == 0 {
                    proof {
                        assert(old_rem.len() == 0);
                        assert(self.buffer@ =~= old(self).buffer@);
                        assert(self.addressable() =~= old(self).addressable());
                    }
                    return Err(Error::Exhausted);
                }
                self.offset = self.offset + self.bytes_in_buffer as u64;
                self.bytes_in_buffer = bytes;
                self.current_in_buffer = 0;
                proof {
                    assert(self.window() =~= old_rem.take(bytes as int));
                    assert(self.addressable() =~= old_rem);
                    assert(old(self).addressable().skip(old_window.len() as int) =~= old_rem);
                }
                Ok(())
            },
            Err(e) => {
                proof {
                    assert(self.addressable() =~= old(self).addressable());
                }
                Err(Error::Source(e))
            },
        }
    }

    /// The primitive behind every forward movement: discards windows until
    /// the requested offset, counted from the base of the window current at
    /// the time of the call, falls inside the window, then places the cursor
    /// there. On success it returns the resulting absolute position. If the
    /// stream ends before the requested offset is reached, the request fails
    /// with [`Error::Exhausted`].
    fn seek_until_position(&mut self, position_in_buffer: u64) -> (r: Result<u64, Error>)
        requires
            old(self).wf(),
        ensures
            final(self).wf(),
            final(self).stream_end() == old(self).stream_end(),
            final(self).window_capacity() == old(self).window_capacity(),
            final(self).source_never_fails() == old(self).source_never_fails(),
            final(self).source_fills_fully() == old(self).source_fills_fully(),
            final(self).spec_offset() >= old(self).spec_offset(),
            final(self).spec_offset() <= old(self).spec_offset() + position_in_buffer as int,
            final(self).addressable() == old(self).addressable().skip(
                final(self).spec_offset() - old(self).spec_offset(),
            ),
            old(self).source_fills_fully() ==> Self::advance_is_aligned(*old(self), *final(self)),
            (position_in_buffer as int) < old(self).window().len() ==> r is Ok,
            (match r {
                Ok(p) => {
                    &&& p as int == old(self).spec_offset() + position_in_buffer as int
                    &&& (p as int) < old(self).stream_end()
                    &&& final(self).position() == p as int
                    &&& final(self).spec_current() < final(self).window().len()
                    &&& final(self).pending() == old(self).addressable().skip(
                        position_in_buffer as int,
                    )
                },
                Err(Error::Exhausted) => {
                    &&& old(self).spec_offset() + position_in_buffer as int >= old(
                        self,
                    ).stream_end()
                },
                Err(Error::Source(_)) => !old(self).source_never_fails(),
                Err(_) => false,
            }),
    {
        let mut pos = position_in_buffer;
        while pos >= self.bytes_in_buffer as u64
            invariant
                self.wf(),
                self.stream_end() == old(self).stream_end(),
                self.window_capacity() == old(self).window_capacity(),
                self.source_never_fails() == old(self).source_never_fails(),
                self.source_fills_fully() == old(self).source_fills_fully(),
                self.spec_offset() >= old(self).spec_offset(),
                self.addressable() == old(self).addressable().skip(
                    self.spec_offset() - old(self).spec_offset(),
                ),
                self.spec_offset() + pos as int == old(self).spec_offset()
                    + position_in_buffer as int,
                old(self).source_fills_fully() ==> Self::advance_is_aligned(*old(self), *self),
                (position_in_buffer as int) >= old(self).window().len() || *self == *old(self),
            decreases pos as int + (if self.bytes_in_buffer == 0 { 1int } else { 0int }),
        {
            pos = pos - self.bytes_in_buffer as u64;
            let ghost pre = *self;
            match self.read_next_buffer() {
                Ok(()) => {
                    proof {
                        assert(self.addressable() =~= old(self).addressable().skip(
                            self.spec_offset() - old(self).spec_offset(),
                        ));
                        if old(self).source_fills_fully() {
                            Self::lemma_aligned_after_refill(*old(self), pre, *self);
                        }
                    }
                },
                Err(e) => {
                    proof {
                        if e is Exhausted {
                            assert(pre.addressable().len() == pre.window().len());
                        }
                    }
                    return Err(e);
                },
            }
        }
        self.current_in_buffer = pos;
        proof {
            assert(self.pending() =~= old(self).addressable().skip(position_in_buffer as int));
        }
        Ok(self.offset + self.current_in_buffer)
    }

    /// Reads bytes into `dst`, filling it as fully as the stream allows and
    /// returning how many bytes were written; the length of `dst` is kept,
    /// only its contents change. The window is refilled transparently as
    /// needed. Fewer bytes than `dst` holds are returned only when the
    /// stream is exhausted first; once nothing at all is pending, a read
    /// fails with [`Error::Exhausted`]. A failure of the source is passed on
    /// at once, whatever was copied so far.
    #[verifier::rlimit(50)]
    pub fn read(&mut self, dst: &mut Vec<u8>) -> (r: Result<usize, Error>)
        requires
            old(self).wf(),
        ensures
            final(self).wf(),
            final(self).stream_end() == old(self).stream_end(),
            final(self).window_capacity() == old(self).window_capacity(),
            final(self).source_never_fails() == old(self).source_never_fails(),
            final(self).source_fills_fully() == old(self).source_fills_fully(),
            final(self).spec_offset() >= old(self).spec_offset(),
            final(self).addressable() == old(self).addressable().skip(
                final(self).spec_offset() - old(self).spec_offset(),
            ),
            old(self).source_fills_fully() ==> Self::advance_is_aligned(*old(self), *final(self)),
            final(dst)@.len() == old(dst)@.len(),
            (old(dst)@.len() > 0 && old(self).spec_current() + old(dst)@.len() <= old(
                self,
            ).window().len()) ==> r is Ok,
            (match r {
                Ok(n) => {
                    &&& old(self).pending().len() > 0
                    &&& n as int == vstd::math::min(
                        old(dst)@.len() as int,
                        old(self).pending().len() as int,
                    )
                    &&& final(dst)@ == old(self).pending().take(n as int) + old(dst)@.skip(n as int)
                    &&& final(self).position() == old(self).position() + n
                    &&& final(self).pending() == old(self).pending().skip(n as int)
                },
                Err(Error::Exhausted) => {
                    &&& old(self).pending().len() == 0
                    &&& final(dst)@ == old(dst)@
                    &&& final(self).spec_offset() == old(self).spec_offset()
                    &&& final(self).spec_current() == old(self).spec_current()
                    &&& final(self).window() == old(self).window()
                    &&& final(self).addressable() == old(self).addressable()
                },
                Err(Error::Source(_)) => {
                    &&& old(self).position() <= final(self).position() <= old(self).stream_end()
                    &&& !old(self).source_never_fails()
                },
                Err(_) => false,
            }),
    {
        let mut bytes_read: usize = 0;
        loop
            invariant
                self.wf(),
                self.stream_end() == old(self).stream_end(),
                self.window_capacity() == old(self).window_capacity(),
                self.source_never_fails() == old(self).source_never_fails(),
                self.source_fills_fully() == old(self).source_fills_fully(),
                self.spec_offset() >= old(self).spec_offset(),
                self.addressable() == old(self).addressable().skip(
                    self.spec_offset() - old(self).spec_offset(),
                ),
                old(self).source_fills_fully() ==> Self::advance_is_aligned(*old(self), *self),
                dst@.len() == old(dst)@.len(),
                bytes_read <= dst@.len(),
                bytes_read < dst@.len() || dst@.len() == 0,
                bytes_read <= old(self).pending().len(),
                dst@ == old(self).pending().take(bytes_read as int) + old(dst)@.skip(
                    bytes_read as int,
                ),
                self.position() == old(self).position() + bytes_read,
                self.pending() == old(self).pending().skip(bytes_read as int),
                bytes_read > 0 ==> old(self).pending().len() > 0,
                (old(dst)@.len() > 0 && old(self).spec_current() + old(dst)@.len() <= old(
                    self,
                ).window().len()) ==> (self.window() == old(self).window() && self.spec_offset()
                    == old(self).spec_offset() && self.spec_current() == old(self).spec_current()
                    + bytes_read),
                (bytes_read == 0 && self.spec_current() == self.window().len()) ==> (
                self.spec_offset() == old(self).spec_offset() && self.spec_current() == old(
                    self,
                ).spec_current() && self.window() == old(self).window() && self.addressable()
                    == old(self).addressable()),
            decreases 2 * (dst@.len() - bytes_read) + (if self.spec_current()
                == self.window().len() { 1int } else { 0int }),
        {
            let can_read = self.bytes_in_buffer - self.current_in_buffer as usize;
            if can_read == 0 {
                let ghost pre = *self;
                proof {
                    // the cursor stands at the end of the window, so a request
                    // the old window alone could serve is already complete
                    assert(self.spec_current() == self.window().len());
                    assert(!(old(dst)@.len() > 0 && old(self).spec_current() + old(dst)@.len()
                        <= old(self).window().len()));
                }
                match self.read_next_buffer() {
                    Err(Error::Exhausted) => {
                        proof {
                            assert(pre.pending().len() == 0);
                        }
                        if bytes_read > 0 {
                            proof {
                                assert(bytes_read as int == old(self).pending().len());
                                assert(dst@ =~= old(self).pending().take(bytes_read as int) + old(
                                    dst,
                                )@.skip(bytes_read as int));
                            }
                            return Ok(bytes_read);
                        } else {
                            proof {
                                assert(dst@ =~= old(dst)@);
                                assert(self.pending() =~= old(self).pending());
                            }
                            return Err(Error::Exhausted);
                        }
                    },
                    Err(e) => {
                        return Err(e);
                    },
                    Ok(()) => {
                        proof {
                            assert(self.pending() =~= pre.pending());
                            assert(self.addressable() =~= old(self).addressable().skip(
                                self.spec_offset() - old(self).spec_offset(),
                            ));
                            if old(self).source_fills_fully() {
                                Self::lemma_aligned_after_refill(*old(self), pre, *self);
                            }
                        }
                    },
                }
            } else {
                let ghost pre = *self;
                let dst_len = dst.len();
                let remaining_dst = dst_len - bytes_read;
                let do_read = if can_read < remaining_dst {
                    can_read
                } else {
                    remaining_dst
                };
                let src_begin = self.current_in_buffer as usize;
                proof {
                    assert(self.window().len() == self.bytes_in_buffer as int);
                    assert(can_read as int <= self.pending().len());
                    assert(bytes_read + do_read <= old(self).pending().len());
                    assert forall|j: int| 0 <= j < do_read implies self.buffer@[src_begin + j]
                        == self.pending()[j] by {
                        assert(self.pending()[j] == self.addressable()[self.spec_current() + j]);
                        assert(self.addressable()[self.spec_current() + j]
                            == self.window()[self.spec_current() + j]);
                    }
                }
                let ghost dst_pre = dst@;
                copy_into(&self.buffer, src_begin, dst, bytes_read, do_read);
                proof {
                    let target = old(self).pending().take(bytes_read + do_read) + old(dst)@.skip(
                        bytes_read + do_read,
                    );
                    assert forall|j: int| 0 <= j < dst@.len() implies dst@[j] == target[j] by {
                        if j < bytes_read {
                            assert(dst@[j] == dst_pre[j]);
                            assert(dst_pre[j] == old(self).pending()[j]);
                        } else if j < bytes_read + do_read {
                            assert(dst@[j] == self.buffer@[j - bytes_read + src_begin]);
                            assert(self.buffer@[src_begin + (j - bytes_read)] == self.pending()[j
                                - bytes_read]);
                            assert(self.pending()[j - bytes_read] == old(self).pending()[j]);
                        } else {
                            assert(dst@[j] == dst_pre[j]);
                            assert(dst_pre[j] == old(dst)@[j]);
                        }
                    }
                    assert(dst@ =~= target);
                }
                bytes_read = bytes_read + do_read;
                self.current_in_buffer = self.current_in_buffer + do_read as u64;
                proof {
                    assert(self.addressable() == pre.addressable());
                    assert(self.pending() =~= pre.pending().skip(do_read as int));
                    assert(self.pending() =~= old(self).pending().skip(bytes_read as int));
                }
                if bytes_read == dst_len {
                    return Ok(bytes_read);
                }
            }
        }
    }

    /// Repositions the reader and returns the resulting absolute position.
    ///
    /// An absolute target before the window base, or a backward step larger
    /// than the cursor, asks for bytes that were discarded with an earlier
    /// window and fails with [`Error::Unreachable`], changing nothing. A
    /// seek from the end fails with [`Error::Unsupported`], changing
    /// nothing: the end of the stream is never known. Every other target is
    /// reached by moving the cursor, advancing the window over the stream as
    /// far as needed; a target at or past the end of the stream exhausts the
    /// source along the way and fails with [`Error::Exhausted`].
    pub fn seek(&mut self, seek_from: SeekFrom) -> (r: Result<u64, Error>)
        requires
            old(self).wf(),
        ensures
            final(self).wf(),
            final(self).stream_end() == old(self).stream_end(),
            final(self).window_capacity() == old(self).window_capacity(),
            final(self).source_never_fails() == old(self).source_never_fails(),
            final(self).source_fills_fully() == old(self).source_fills_fully(),
            final(self).spec_offset() >= old(self).spec_offset(),
            final(self).addressable() == old(self).addressable().skip(
                final(self).spec_offset() - old(self).spec_offset(),
            ),
            old(self).source_fills_fully() ==> Self::advance_is_aligned(*old(self), *final(self)),
            seek_target(seek_from, old(self).spec_offset(), old(self).spec_current())
                matches Some(t) ==> final(self).spec_offset() <= t,
            seek_target(seek_from, old(self).spec_offset(), old(self).spec_current())
                matches Some(t) && t - old(self).spec_offset() < old(self).window().len() ==> r
                is Ok,
            (match seek_from {
                SeekFrom::End(_) => r == Err::<u64, Error>(Error::Unsupported) && *final(self)
                    == *old(self),
                _ => (match seek_target(
                    seek_from,
                    old(self).spec_offset(),
                    old(self).spec_current(),
                ) {
                    None => r == Err::<u64, Error>(Error::Unreachable) && *final(self) == *old(
                        self,
                    ),
                    Some(t) => (match r {
                        Ok(p) => {
                            &&& p as int == t
                            &&& t < old(self).stream_end()
                            &&& final(self).position() == t
                            &&& final(self).spec_current() < final(self).window().len()
                            &&& final(self).pending() == old(self).addressable().skip(
                                t - old(self).spec_offset(),
                            )
                        },
                        Err(Error::Exhausted) => t >= old(self).stream_end(),
                        Err(Error::Source(_)) => !old(self).source_never_fails(),
                        Err(_) => false,
                    }),
                }),
            }),
    {
        match seek_from {
            SeekFrom::Start(pos) => {
                // seeking before the base of the current window is impossible:
                // those bytes are gone
                if pos < self.offset {
                    return Err(Error::Unreachable);
                }
                // seeking past the end of the current window discards it and
                // reloads until the target is inside the window
                self.seek_until_position(pos - self.offset)
            },
            SeekFrom::Current(pos) => {
                if pos < 0 {
                    // the magnitude of the step, safe against overflow at the
                    // far end of the signed range
                    let mag: u64 = if pos == i64::MIN {
                        0x8000_0000_0000_0000u64
                    } else {
                        (-pos) as u64
                    };
                    if mag > self.current_in_buffer {
                        return Err(Error::Unreachable);
                    }
                    self.seek_until_position(self.current_in_buffer - mag)
                } else {
                    let delta = pos as u64;
                    if self.current_in_buffer <= u64::MAX - delta {
                        self.seek_until_position(self.current_in_buffer + delta)
                    } else {
                        // the target does not even fit a u64, so it lies past
                        // the end of the stream; advancing to the largest
                        // representable in-window offset exhausts the source
                        // all the same
                        proof {
                            assert(old(self).spec_offset() + u64::MAX as int >= old(
                                self,
                            ).stream_end());
                        }
                        self.seek_until_position(u64::MAX)
                    }
                }
            },
            // the end of the stream is never known, so this cannot be served
            SeekFrom::End(_) => Err(Error::Unsupported),
        }
    }

    /// Returns the absolute stream offset of the start of the current
    /// window.
    pub fn offset(&self) -> (r: u64)
        ensures
            r as int == self.spec_offset(),
    {
        self.offset
    }

    /// Returns the read position within the current window.
    pub fn current(&self) -> (r: u64)
        ensures
            r as int == self.spec_current(),
    {
        self.current_in_buffer
    }
}

} // verus!
