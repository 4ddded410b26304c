//! How a sample stream falls into frames, and why the way it arrives does not matter.

use vstd::prelude::*;

verus! {

/// The complete frames of `stream`, in order: frame `i` holds the samples from `i * size` up to
/// `(i + 1) * size`.
pub open spec fn frames(stream: Seq<i16>, size: nat) -> Seq<Seq<i16>> {
    Seq::new(stream.len() / size, |i: int| stream.subrange(i * size as int, (i + 1) * size as int))
}

/// What is left of `stream` behind its last complete frame.
pub open spec fn leftover(stream: Seq<i16>, size: nat) -> Seq<i16> {
    stream.subrange(((stream.len() / size) * size) as int, stream.len() as int)
}

/// `count` samples of silence.
pub open spec fn silence(count: nat) -> Seq<i16> {
    Seq::new(count, |i: int| 0i16)
}

/// All the pieces of a stream, one behind the other.
pub open spec fn joined(pieces: Seq<Seq<i16>>) -> Seq<i16>
    decreases pieces.len(),
{
    if pieces.len() == 0 {
        Seq::empty()
    } else {
        joined(pieces.drop_last()) + pieces.last()
    }
}

/// The frames that are cut when the pieces of a stream arrive one by one: each piece is put
/// behind what the pieces before it left over, and the complete frames are taken off.
pub open spec fn frames_piecewise(pieces: Seq<Seq<i16>>, size: nat) -> Seq<Seq<i16>>
    decreases pieces.len(),
{
    if pieces.len() == 0 {
        Seq::empty()
    } else {
        frames_piecewise(pieces.drop_last(), size) + frames(
            leftover_piecewise(pieces.drop_last(), size) + pieces.last(),
            size,
        )
    }
}

/// The samples that wait for the rest of their frame after the pieces of a stream have arrived
/// one by one.
pub open spec fn leftover_piecewise(pieces: Seq<Seq<i16>>, size: nat) -> Seq<i16>
    decreases pieces.len(),
{
    if pieces.len() == 0 {
        Seq::empty()
    } else {
        leftover(leftover_piecewise(pieces.drop_last(), size) + pieces.last(), size)
    }
}

/// The complete frames of a stream of `len` samples end at or before `len`, less than one
/// frame before it.
pub proof fn lemma_frame_bounds(len: nat, size: nat)
    requires
        size > 0,
    ensures
        (len / size) * size <= len < (len / size) * size + size,
{
    vstd::arithmetic::div_mod::lemma_fundamental_div_mod(len as int, size as int);
    vstd::arithmetic::div_mod::lemma_mod_bound(len as int, size as int);
    vstd::arithmetic::mul::lemma_mul_is_commutative(size as int, (len / size) as int);
}

/// A stream whose `count` frames end less than one frame before its end has `count` frames.
pub proof fn lemma_frame_count(len: nat, size: nat, count: nat)
    requires
        size > 0,
        count * size <= len < count * size + size,
    ensures
        len / size == count,
{
    vstd::arithmetic::div_mod::lemma_fundamental_div_mod_converse(
        len as int,
        size as int,
        count as int,
        len - count * size,
    );
}

/// A stream that is shorter than a frame has no frame and is left over whole.
pub proof fn lemma_short_stream(stream: Seq<i16>, size: nat)
    requires
        stream.len() < size,
    ensures
        frames(stream, size) == Seq::<Seq<i16>>::empty(),
        leftover(stream, size) == stream,
{
    lemma_frame_count(stream.len(), size, 0);
    assert(frames(stream, size) =~= Seq::<Seq<i16>>::empty());
    assert(leftover(stream, size) =~= stream);
}

/// Chunking transparency for two pieces: where `more` arrives behind `stream`, the frames are
/// those of `stream` followed by those of what `stream` left over with `more` behind it, and
/// the same samples are left over in the end.
pub proof fn lemma_frames_of_concat(stream: Seq<i16>, more: Seq<i16>, size: nat)
    requires
        size > 0,
    ensures
        frames(stream + more, size) == frames(stream, size) + frames(
            leftover(stream, size) + more,
            size,
        ),
        leftover(stream + more, size) == leftover(leftover(stream, size) + more, size),
{
    let n = stream.len() / size;
    let rest = leftover(stream, size);
    let tail = rest + more;
    let m = tail.len() / size;
    let whole = stream + more;
    lemma_frame_bounds(stream.len(), size);
    lemma_frame_bounds(tail.len(), size);
    assert((n + m) * size == n * size + m * size) by (nonlinear_arith);
    lemma_frame_count(whole.len(), size, n + m);
    let left = frames(whole, size);
    let right = frames(stream, size) + frames(tail, size);
    assert(left.len() == right.len());
    assert forall|i: int| 0 <= i < left.len() implies left[i] == right[i] by {
        if i < n {
            assert((i + 1) * size <= n * size) by (nonlinear_arith)
                requires
                    i + 1 <= n,
                    size > 0,
            ;
            assert(0 <= i * size) by (nonlinear_arith)
                requires
                    0 <= i,
                    size > 0,
            ;
            assert((i + 1) * size == i * size + size) by (nonlinear_arith);
            assert(whole.subrange(i * size as int, (i + 1) * size as int) =~= stream.subrange(
                i * size as int,
                (i + 1) * size as int,
            ));
        } else {
            let k = i - n;
            assert((k + 1) * size <= m * size) by (nonlinear_arith)
                requires
                    k + 1 <= m,
                    size > 0,
            ;
            assert(0 <= k * size) by (nonlinear_arith)
                requires
                    0 <= k,
                    size > 0,
            ;
            assert((k + 1) * size == k * size + size) by (nonlinear_arith);
            assert(i * size == n * size + k * size) by (nonlinear_arith)
                requires
                    i == n + k,
            ;
            assert((i + 1) * size == i * size + size) by (nonlinear_arith);
            assert(whole.subrange(i * size as int, (i + 1) * size as int) =~= tail.subrange(
                k * size as int,
                (k + 1) * size as int,
            ));
        }
    }
    assert(left =~= right);
    assert(leftover(whole, size) =~= leftover(tail, size));
}

/// Chunking transparency: however a stream is cut into pieces, the frames that are cut when
/// the pieces arrive one by one are the frames of the whole stream, and the samples left
/// over in the end are those that the whole stream leaves over.
pub proof fn lemma_chunking_transparent(pieces: Seq<Seq<i16>>, size: nat)
    requires
        size > 0,
    ensures
        frames_piecewise(pieces, size) == frames(joined(pieces), size),
        leftover_piecewise(pieces, size) == leftover(joined(pieces), size),
    decreases pieces.len(),
{
    if pieces.len() == 0 {
        lemma_short_stream(Seq::<i16>::empty(), size);
    } else {
        lemma_chunking_transparent(pieces.drop_last(), size);
        lemma_frames_of_concat(joined(pieces.drop_last()), pieces.last(), size);
    }
}

/// The samples of silence that fill a stream up to whole frames: none where the stream ends
/// with a frame, else what its leftover lacks of a frame.
pub open spec fn filling(stream: Seq<i16>, size: nat) -> Seq<i16> {
    if leftover(stream, size).len() == 0 {
        Seq::empty()
    } else {
        silence((size - leftover(stream, size).len()) as nat)
    }
}

/// A stream that is filled up with silence has the frames of the stream and, where the
/// stream left something over, one frame more: the leftover filled up with silence.
pub proof fn lemma_frames_of_filled(stream: Seq<i16>, size: nat)
    requires
        size > 0,
    ensures
        leftover(stream + filling(stream, size), size).len() == 0,
        frames(stream + filling(stream, size), size) == if leftover(stream, size).len() == 0 {
            frames(stream, size)
        } else {
            frames(stream, size).push(leftover(stream, size) + filling(stream, size))
        },
{
    let rest = leftover(stream, size);
    let fill = filling(stream, size);
    lemma_frame_bounds(stream.len(), size);
    lemma_frames_of_concat(stream, fill, size);
    if rest.len() == 0 {
        assert(rest + fill =~= Seq::<i16>::empty());
        lemma_short_stream(rest + fill, size);
        assert(frames(stream, size) + Seq::<Seq<i16>>::empty() =~= frames(stream, size));
    } else {
        let last = rest + fill;
        assert(last.len() == size);
        lemma_frame_count(last.len(), size, 1);
        assert(last.subrange(0, size as int) =~= last);
        assert(frames(last, size) =~= seq![last]);
        assert(leftover(last, size) =~= Seq::<i16>::empty());
        assert(frames(stream, size) + seq![last] =~= frames(stream, size).push(last));
    }
}

} // verus!
