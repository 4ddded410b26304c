//! One-dimensional morphological operators on voice-activity tracks.
//!
//! A track is a sequence of booleans, one per frame. With radius `r` the operators look at the
//! window of `2r + 1` frames around a position. Positions closer than `r` to either end of the
//! track have no full window and are never changed.

use vstd::prelude::*;

verus! {

/// Whether position `i` of a track of length `len` has a full window of radius `radius`.
pub open spec fn has_window(len: int, radius: int, i: int) -> bool {
    radius <= i < len - radius
}

/// Whether both neighbours of `i` at distance `j` are set.
pub open spec fn pair_set(s: Seq<bool>, i: int, j: int) -> bool {
    s[i - j] && s[i + j]
}

/// Whether at least one neighbour of `i` at distance `j` is set.
pub open spec fn pair_touched(s: Seq<bool>, i: int, j: int) -> bool {
    s[i - j] || s[i + j]
}

/// Whether every neighbour pair of `i` at the distances `1..=upto` is set.
pub open spec fn all_pairs_set(s: Seq<bool>, i: int, upto: int) -> bool {
    forall|j: int| 1 <= j <= upto ==> #[trigger] pair_set(s, i, j)
}

/// Whether some neighbour of `i` at one of the distances `1..=upto` is set.
pub open spec fn some_pair_touched(s: Seq<bool>, i: int, upto: int) -> bool {
    exists|j: int| 1 <= j <= upto && #[trigger] pair_touched(s, i, j)
}

/// The value of position `i` after erosion: a set position with a full window stays set only
/// if its whole window is set.
pub open spec fn eroded_at(s: Seq<bool>, radius: nat, i: int) -> bool {
    if has_window(s.len() as int, radius as int, i) {
        s[i] && all_pairs_set(s, i, radius as int)
    } else {
        s[i]
    }
}

/// The value of position `i` after dilation: a clear position with a full window becomes set
/// if anything in its window is set.
pub open spec fn dilated_at(s: Seq<bool>, radius: nat, i: int) -> bool {
    if has_window(s.len() as int, radius as int, i) {
        s[i] || some_pair_touched(s, i, radius as int)
    } else {
        s[i]
    }
}

/// Erosion of a whole track.
pub open spec fn erosion(s: Seq<bool>, radius: nat) -> Seq<bool> {
    Seq::new(s.len(), |i: int| eroded_at(s, radius, i))
}

/// Dilation of a whole track.
pub open spec fn dilation(s: Seq<bool>, radius: nat) -> Seq<bool> {
    Seq::new(s.len(), |i: int| dilated_at(s, radius, i))
}

/// Opening: erosion followed by dilation.
pub open spec fn opening(s: Seq<bool>, radius: nat) -> Seq<bool> {
    dilation(erosion(s, radius), radius)
}

/// Closing: dilation followed by erosion.
pub open spec fn closing(s: Seq<bool>, radius: nat) -> Seq<bool> {
    erosion(dilation(s, radius), radius)
}

/// The track with every position inverted.
pub open spec fn inverted(s: Seq<bool>) -> Seq<bool> {
    Seq::new(s.len(), |i: int| !s[i])
}

/// Whether no position of the track is set.
pub open spec fn all_clear(s: Seq<bool>) -> bool {
    forall|i: int| 0 <= i < s.len() ==> !#[trigger] s[i]
}

/// The morphological 'opening' operator: removes runs of activity shorter than the window.
pub fn morph_opening(input: &[bool], radius: usize) -> (output: Vec<bool>)
    ensures
        output@ == opening(input@, radius as nat),
{
    let eroded = morph_erosion(input, radius);
    let dilated = morph_dilation(eroded.as_slice(), radius);
    dilated
}

/// The morphological 'closing' operator: fills gaps in activity shorter than the window.
pub fn morph_closing(input: &[bool], radius: usize) -> (output: Vec<bool>)
    ensures
        output@ == closing(input@, radius as nat),
{
    let dilated = morph_dilation(input, radius);
    let eroded = morph_erosion(dilated.as_slice(), radius);
    eroded
}

/// The morphological 'dilate' operator.
pub fn morph_dilation(input: &[bool], radius: usize) -> (output: Vec<bool>)
    ensures
        output@ == dilation(input@, radius as nat),
{
    let mut output = vstd::slice::slice_to_vec(input);
    let len = input.len();
    if radius <= len {
        let end = len - radius;
        let mut i = radius;
        while i < end
            invariant
                len == input@.len(),
                end == len - radius,
                radius <= i,
                output@.len() == len,
                forall|k: int| 0 <= k < i ==> output@[k] == dilated_at(input@, radius as nat, k),
                forall|k: int| i <= k < len ==> output@[k] == input@[k],
            decreases end - i,
        {
            if !input[i] {
                let mut j: usize = 1;
                let mut found = false;
                while j <= radius
                    invariant_except_break
                        !found,
                    invariant
                        len == input@.len(),
                        radius <= i < len - radius,
                        1 <= j <= radius + 1,
                        forall|k: int| 1 <= k < j ==> !#[trigger] pair_touched(input@, i as int, k),
                    ensures
                        found <==> some_pair_touched(input@, i as int, radius as int),
                    decreases radius + 1 - j,
                {
                    if input[i - j] || input[i + j] {
                        assert(pair_touched(input@, i as int, j as int));
                        found = true;
                        break ;
                    }
                    j += 1;
                }
                if found {
                    output.set(i, true);
                }
            }
            i += 1;
        }
    }
    assert(output@ =~= dilation(input@, radius as nat));
    output
}

/// The morphological 'erode' operator.
pub fn morph_erosion(input: &[bool], radius: usize) -> (output: Vec<bool>)
    ensures
        output@ == erosion(input@, radius as nat),
{
    let mut output = vstd::slice::slice_to_vec(input);
    let len = input.len();
    if radius <= len {
        let end = len - radius;
        let mut i = radius;
        while i < end
            invariant
                len == input@.len(),
                end == len - radius,
                radius <= i,
                output@.len() == len,
                forall|k: int| 0 <= k < i ==> output@[k] == eroded_at(input@, radius as nat, k),
                forall|k: int| i <= k < len ==> output@[k] == input@[k],
            decreases end - i,
        {
            if input[i] {
                let mut j: usize = 1;
                let mut broken = false;
                while j <= radius
                    invariant_except_break
                        !broken,
                    invariant
                        len == input@.len(),
                        radius <= i < len - radius,
                        1 <= j <= radius + 1,
                        forall|k: int| 1 <= k < j ==> #[trigger] pair_set(input@, i as int, k),
                    ensures
                        broken <==> !all_pairs_set(input@, i as int, radius as int),
                    decreases radius + 1 - j,
                {
                    if !(input[i - j] && input[i + j]) {
                        assert(!pair_set(input@, i as int, j as int));
                        broken = true;
                        break ;
                    }
                    j += 1;
                }
                if broken {
                    output.set(i, false);
                }
            }
            i += 1;
        }
    }
    assert(output@ =~= erosion(input@, radius as nat));
    output
}

/// Within a full window, erosion of the inverse sees a set pair exactly where the track has
/// an untouched pair.
proof fn lemma_pairs_of_inverted(s: Seq<bool>, radius: nat, i: int)
    requires
        has_window(s.len() as int, radius as int, i),
    ensures
        all_pairs_set(inverted(s), i, radius as int) <==> !some_pair_touched(s, i, radius as int),
        some_pair_touched(inverted(s), i, radius as int) <==> !all_pairs_set(s, i, radius as int),
{
    let t = inverted(s);
    assert forall|j: int| 1 <= j <= radius implies (#[trigger] pair_set(t, i, j) <==> !pair_touched(
        s,
        i,
        j,
    )) && (#[trigger] pair_touched(t, i, j) <==> !pair_set(s, i, j)) by {
        assert(t[i - j] == !s[i - j]);
        assert(t[i + j] == !s[i + j]);
    }
    if !some_pair_touched(s, i, radius as int) {
        assert forall|j: int| 1 <= j <= radius implies #[trigger] pair_set(t, i, j) by {
            assert(!pair_touched(s, i, j));
        }
    }
    if some_pair_touched(s, i, radius as int) {
        let j = choose|j: int| 1 <= j <= radius && #[trigger] pair_touched(s, i, j);
        assert(!pair_set(t, i, j));
    }
    if some_pair_touched(t, i, radius as int) {
        let j = choose|j: int| 1 <= j <= radius && #[trigger] pair_touched(t, i, j);
        assert(!pair_set(s, i, j));
    }
    if !all_pairs_set(s, i, radius as int) {
        let j = choose|j: int| 1 <= j <= radius && !#[trigger] pair_set(s, i, j);
        assert(pair_touched(t, i, j));
    }
}

/// Duality of erosion and dilation: each is the other one applied to the inverted track, with
/// the result inverted again.
pub proof fn lemma_dilation_erosion_dual(s: Seq<bool>, radius: nat)
    ensures
        dilation(s, radius) == inverted(erosion(inverted(s), radius)),
        erosion(s, radius) == inverted(dilation(inverted(s), radius)),
{
    let t = inverted(s);
    assert forall|i: int| 0 <= i < s.len() implies dilated_at(s, radius, i) == !eroded_at(
        t,
        radius,
        i,
    ) && eroded_at(s, radius, i) == !dilated_at(t, radius, i) by {
        if has_window(s.len() as int, radius as int, i) {
            lemma_pairs_of_inverted(s, radius, i);
        }
    }
    assert(dilation(s, radius) =~= inverted(erosion(t, radius)));
    assert(erosion(s, radius) =~= inverted(dilation(t, radius)));
}

/// Duality of opening and closing: closing a track is opening its inverse and inverting the
/// result, and the other way round.
pub proof fn lemma_opening_closing_dual(s: Seq<bool>, radius: nat)
    ensures
        closing(s, radius) == inverted(opening(inverted(s), radius)),
        opening(s, radius) == inverted(closing(inverted(s), radius)),
{
    let t = inverted(s);
    lemma_dilation_erosion_dual(s, radius);
    lemma_dilation_erosion_dual(erosion(t, radius), radius);
    lemma_dilation_erosion_dual(dilation(t, radius), radius);
    assert(inverted(inverted(erosion(t, radius))) =~= erosion(t, radius));
    assert(inverted(inverted(dilation(t, radius))) =~= dilation(t, radius));
}

/// Opening sets nothing that dilation of the eroded track does not set: a position is set
/// after opening only if it survived erosion or has a full window that holds a survivor.
pub proof fn lemma_opening_within_dilated_erosion(s: Seq<bool>, radius: nat, i: int)
    requires
        0 <= i < s.len(),
        opening(s, radius)[i],
    ensures
        opening(s, radius).len() == s.len(),
        dilation(erosion(s, radius), radius)[i],
        erosion(s, radius)[i] || (has_window(s.len() as int, radius as int, i)
            && some_pair_touched(erosion(s, radius), i, radius as int)),
{
}

/// A track without any activity is left as it is by all four operators, whatever the radius
/// and whatever the length of the track.
pub proof fn lemma_all_clear_is_fixed(s: Seq<bool>, radius: nat)
    requires
        all_clear(s),
    ensures
        erosion(s, radius) == s,
        dilation(s, radius) == s,
        opening(s, radius) == s,
        closing(s, radius) == s,
{
    assert forall|i: int| 0 <= i < s.len() implies dilated_at(s, radius, i) == s[i] by {
        if some_pair_touched(s, i, radius as int) && has_window(s.len() as int, radius as int, i) {
            let j = choose|j: int| 1 <= j <= radius && #[trigger] pair_touched(s, i, j);
            assert(!s[i - j] && !s[i + j]);
        }
    }
    assert(erosion(s, radius) =~= s);
    assert(dilation(s, radius) =~= s);
}

} // verus!
