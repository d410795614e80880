use vstd::assert_seqs_equal;
use vstd::prelude::*;

verus! {

/// Sequential reads return adjacent chunks of one stream. Given the bytes
/// `stream` pending at some position, a read of `a` bytes returns
/// `stream.take(a)` and leaves `stream.skip(a)` pending, so a following read
/// of `b` bytes returns `stream.skip(a).take(b)`; the two chunks together
/// are exactly the first `a + b` bytes of `stream`, and what is pending
/// afterwards is exactly what a single read of `a + b` bytes would have left.
pub proof fn lemma_sequential_reads_compose(stream: Seq<u8>, a: int, b: int)
    requires
        0 <= a,
        0 <= b,
        a + b <= stream.len(),
    ensures
        stream.take(a) + stream.skip(a).take(b) == stream.take(a + b),
        stream.skip(a).skip(b) == stream.skip(a + b),
{
    assert_seqs_equal!(stream.take(a) + stream.skip(a).take(b) == stream.take(a + b));
    assert_seqs_equal!(stream.skip(a).skip(b) == stream.skip(a + b));
}

/// The bytes pending at an absolute position do not depend on where the
/// buffering window happens to start. A reader whose window begins at
/// absolute offset `base` has `original.skip(base)` addressable and, once
/// positioned at absolute position `p`, has `original.skip(base).skip(p - base)`
/// pending; that value is the same for every window placement, so reading
/// after a seek to `p` yields the same bytes as reading sequentially from
/// `p`.
pub proof fn lemma_pending_depends_on_position(original: Seq<u8>, base1: int, base2: int, p: int)
    requires
        0 <= base1 <= p,
        0 <= base2 <= p,
        p <= original.len(),
    ensures
        original.skip(base1).skip(p - base1) == original.skip(base2).skip(p - base2),
{
    assert_seqs_equal!(original.skip(base1).skip(p - base1) == original.skip(p));
    assert_seqs_equal!(original.skip(base2).skip(p - base2) == original.skip(p));
}

} // verus!
