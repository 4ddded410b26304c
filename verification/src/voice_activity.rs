//! The voice-activity track of an audio stream and its cleaning.

use crate::morph::{
    closing, dilation, erosion, has_window, morph_closing, morph_opening, opening, pair_set, pair_touched,
};
use vstd::prelude::*;

verus! {

/// Voice activity of an audio stream: one judgment per frame, in stream order, and the
/// duration of a frame in milliseconds.
pub struct VoiceActivity {
    pub data: Vec<bool>,
    pub chunk_millis: usize,
}

/// The track with `radius` frames of silence put in front of it and behind it.
pub open spec fn padded(s: Seq<bool>, radius: nat) -> Seq<bool> {
    Seq::new(radius, |i: int| false) + s + Seq::new(radius, |i: int| false)
}

/// The track without its first and last `radius` frames.
pub open spec fn unpadded(s: Seq<bool>, radius: nat) -> Seq<bool> {
    s.subrange(radius as int, s.len() - radius)
}

/// Opening of a track that is taken to lie in silence: it is padded, opened and stripped of
/// the padding again. Radius zero leaves the track as it is.
pub open spec fn opened_in_silence(s: Seq<bool>, radius: nat) -> Seq<bool> {
    if radius > 0 {
        unpadded(opening(padded(s, radius), radius), radius)
    } else {
        s
    }
}

/// Closing of a track that is taken to lie in silence. Radius zero leaves the track as it is.
pub open spec fn closed_in_silence(s: Seq<bool>, radius: nat) -> Seq<bool> {
    if radius > 0 {
        unpadded(closing(padded(s, radius), radius), radius)
    } else {
        s
    }
}

/// The cleaned track: opened first, to remove noise, then closed, to fill gaps.
pub open spec fn cleaned(s: Seq<bool>, opening_radius: nat, closing_radius: nat) -> Seq<bool> {
    closed_in_silence(opened_in_silence(s, opening_radius), closing_radius)
}

/// Whether `m` is a frame of the track and is voiced.
pub open spec fn voiced(s: Seq<bool>, m: int) -> bool {
    0 <= m < s.len() && s[m]
}

/// Whether the window of `radius` frames to either side of frame `k` lies within the track and
/// is voiced throughout.
pub open spec fn window_voiced(s: Seq<bool>, k: int, radius: nat) -> bool {
    forall|m: int| k - radius <= m <= k + radius ==> #[trigger] voiced(s, m)
}

/// Whether frame `i` lies in a window of `2 * radius + 1` frames that is voiced throughout.
pub open spec fn in_voiced_window(s: Seq<bool>, i: int, radius: nat) -> bool {
    exists|k: int| i - radius <= k <= i + radius && #[trigger] window_voiced(s, k, radius)
}

/// Whether frame `p` lies within the track and has a voiced frame at most `radius` frames
/// away.
pub open spec fn near_voice(s: Seq<bool>, p: int, radius: nat) -> bool {
    0 <= p < s.len() && exists|m: int| p - radius <= m <= p + radius && #[trigger] voiced(s, m)
}

/// Whether every frame at most `radius` frames away from frame `i` is near voice.
pub open spec fn amid_voice(s: Seq<bool>, i: int, radius: nat) -> bool {
    forall|p: int| i - radius <= p <= i + radius ==> #[trigger] near_voice(s, p, radius)
}

/// What a frame of the padded track holds.
proof fn lemma_padded_at(s: Seq<bool>, radius: nat, p: int)
    requires
        0 <= p < s.len() + 2 * radius,
    ensures
        padded(s, radius).len() == s.len() + 2 * radius,
        padded(s, radius)[p] == voiced(s, p - radius),
{
}

/// A frame of the padded track survives erosion exactly if its window is voiced throughout.
proof fn lemma_eroded_padded_at(s: Seq<bool>, radius: nat, p: int)
    requires
        0 <= p < s.len() + 2 * radius,
    ensures
        erosion(padded(s, radius), radius)[p] <==> window_voiced(s, p - radius, radius),
{
    let track = padded(s, radius);
    let k = p - radius;
    lemma_padded_at(s, radius, p);
    if has_window(track.len() as int, radius as int, p) {
        if erosion(track, radius)[p] {
            assert forall|m: int| k - radius <= m <= k + radius implies #[trigger] voiced(s, m) by {
                lemma_padded_at(s, radius, m + radius);
                if m < k {
                    assert(pair_set(track, p, k - m));
                } else if m > k {
                    assert(pair_set(track, p, m - k));
                }
            }
        }
        if window_voiced(s, k, radius) {
            assert(voiced(s, k));
            assert forall|j: int| 1 <= j <= radius implies #[trigger] pair_set(track, p, j) by {
                assert(voiced(s, k - j) && voiced(s, k + j));
                lemma_padded_at(s, radius, p - j);
                lemma_padded_at(s, radius, p + j);
            }
        }
    } else {
        if window_voiced(s, k, radius) {
            assert(voiced(s, k));
        }
    }
}

/// What opening does to a track that lies in silence: a frame is voiced afterwards exactly
/// if it lies in a window of `2 * radius + 1` frames that was voiced throughout. Runs of
/// voice shorter than the window are gone, longer ones are kept whole.
pub proof fn lemma_opened_in_silence(s: Seq<bool>, radius: nat, i: int)
    requires
        0 <= i < s.len(),
    ensures
        opened_in_silence(s, radius).len() == s.len(),
        opened_in_silence(s, radius)[i] <==> in_voiced_window(s, i, radius),
{
    let track = padded(s, radius);
    let eroded = erosion(track, radius);
    let p = i + radius;
    lemma_padded_at(s, radius, p);
    if radius == 0 {
        if s[i] {
            assert forall|m: int| i - radius <= m <= i + radius implies #[trigger] voiced(s, m) by {}
            assert(window_voiced(s, i, radius));
        }
        if in_voiced_window(s, i, radius) {
            let k = choose|k: int| i - radius <= k <= i + radius && #[trigger] window_voiced(s, k, radius);
            assert(voiced(s, k));
        }
    } else {
        assert(opened_in_silence(s, radius)[i] == dilation(eroded, radius)[p]);
        assert(has_window(eroded.len() as int, radius as int, p));
        if dilation(eroded, radius)[p] {
            if eroded[p] {
                lemma_eroded_padded_at(s, radius, p);
                assert(window_voiced(s, i, radius));
            } else {
                let j = choose|j: int| 1 <= j <= radius && #[trigger] pair_touched(eroded, p, j);
                if eroded[p - j] {
                    lemma_eroded_padded_at(s, radius, p - j);
                    assert(window_voiced(s, i - j, radius));
                } else {
                    lemma_eroded_padded_at(s, radius, p + j);
                    assert(window_voiced(s, i + j, radius));
                }
            }
        }
        if in_voiced_window(s, i, radius) {
            let k = choose|k: int| i - radius <= k <= i + radius && #[trigger] window_voiced(s, k, radius);
            assert(voiced(s, k));
            lemma_eroded_padded_at(s, radius, k + radius);
            if k < i {
                assert(pair_touched(eroded, p, i - k));
            } else if k > i {
                assert(pair_touched(eroded, p, k - i));
            }
        }
    }
}

/// A frame of the padded track is voiced after dilation exactly if it is near voice.
proof fn lemma_dilated_padded_at(s: Seq<bool>, radius: nat, q: int)
    requires
        0 <= q < s.len() + 2 * radius,
    ensures
        dilation(padded(s, radius), radius)[q] <==> near_voice(s, q - radius, radius),
{
    let track = padded(s, radius);
    let p = q - radius;
    lemma_padded_at(s, radius, q);
    if has_window(track.len() as int, radius as int, q) {
        if dilation(track, radius)[q] {
            if track[q] {
                assert(voiced(s, p));
            } else {
                let j = choose|j: int| 1 <= j <= radius && #[trigger] pair_touched(track, q, j);
                lemma_padded_at(s, radius, q - j);
                lemma_padded_at(s, radius, q + j);
                if track[q - j] {
                    assert(voiced(s, p - j));
                } else {
                    assert(voiced(s, p + j));
                }
            }
        }
        if near_voice(s, p, radius) {
            let m = choose|m: int| p - radius <= m <= p + radius && #[trigger] voiced(s, m);
            lemma_padded_at(s, radius, m + radius);
            if m < p {
                assert(pair_touched(track, q, p - m));
            } else if m > p {
                assert(pair_touched(track, q, m - p));
            }
        }
    }
}

/// What closing does to a track that lies in silence: a frame is voiced afterwards exactly
/// if every frame at most `radius` frames away from it lies within the track and is near
/// voice. Gaps of at most `2 * radius` frames are filled, and voice closer than `radius`
/// frames to an end of the track, where it borders on the silence around, is worn away.
pub proof fn lemma_closed_in_silence(s: Seq<bool>, radius: nat, i: int)
    requires
        0 <= i < s.len(),
    ensures
        closed_in_silence(s, radius).len() == s.len(),
        closed_in_silence(s, radius)[i] <==> amid_voice(s, i, radius),
{
    let track = padded(s, radius);
    let dilated = dilation(track, radius);
    let q = i + radius;
    lemma_padded_at(s, radius, q);
    if radius == 0 {
        if s[i] {
            assert forall|p: int| i - radius <= p <= i + radius implies #[trigger] near_voice(s, p, radius) by {
                assert(voiced(s, i));
            }
        }
        if amid_voice(s, i, radius) {
            assert(near_voice(s, i, radius));
            let m = choose|m: int| i - radius <= m <= i + radius && #[trigger] voiced(s, m);
            assert(m == i);
        }
    } else {
        assert(closed_in_silence(s, radius)[i] == erosion(dilated, radius)[q]);
        assert(has_window(dilated.len() as int, radius as int, q));
        if erosion(dilated, radius)[q] {
            assert forall|p: int| i - radius <= p <= i + radius implies #[trigger] near_voice(s, p, radius) by {
                lemma_dilated_padded_at(s, radius, p + radius);
                if p < i {
                    assert(pair_set(dilated, q, i - p));
                } else if p > i {
                    assert(pair_set(dilated, q, p - i));
                }
            }
        }
        if amid_voice(s, i, radius) {
            assert(near_voice(s, i, radius));
            lemma_dilated_padded_at(s, radius, q);
            assert forall|j: int| 1 <= j <= radius implies #[trigger] pair_set(dilated, q, j) by {
                assert(near_voice(s, i - j, radius));
                assert(near_voice(s, i + j, radius));
                lemma_dilated_padded_at(s, radius, q - j);
                lemma_dilated_padded_at(s, radius, q + j);
            }
        }
    }
}

/// Copies the track and adds `radius` frames of silence at both ends.
fn pad(data: &[bool], radius: usize) -> (out: Vec<bool>)
    requires
        data@.len() + 2 * radius <= usize::MAX,
    ensures
        out@ == padded(data@, radius as nat),
{
    let mut out: Vec<bool> = Vec::new();
    let mut i: usize = 0;
    while i < radius
        invariant
            i <= radius,
            out@ == Seq::new(i as nat, |k: int| false),
        decreases radius - i,
    {
        out.push(false);
        i += 1;
        assert(out@ =~= Seq::new(i as nat, |k: int| false));
    }
    let mut k: usize = 0;
    while k < data.len()
        invariant
            k <= data@.len(),
            out@ == Seq::new(radius as nat, |k: int| false) + data@.subrange(0, k as int),
        decreases data@.len() - k,
    {
        out.push(data[k]);
        k += 1;
        assert(out@ =~= Seq::new(radius as nat, |k: int| false) + data@.subrange(0, k as int));
    }
    let mut j: usize = 0;
    while j < radius
        invariant
            j <= radius,
            out@ == Seq::new(radius as nat, |k: int| false) + data@ + Seq::new(
                j as nat,
                |k: int| false,
            ),
        decreases radius - j,
    {
        out.push(false);
        j += 1;
        assert(out@ =~= Seq::new(radius as nat, |k: int| false) + data@ + Seq::new(
            j as nat,
            |k: int| false,
        ));
    }
    out
}

/// Copies the track without its first and last `radius` frames.
fn unpad(data: &[bool], radius: usize) -> (out: Vec<bool>)
    requires
        2 * radius <= data@.len(),
    ensures
        out@ == unpadded(data@, radius as nat),
{
    let inner = vstd::slice::slice_subrange(data, radius, data.len() - radius);
    vstd::slice::slice_to_vec(inner)
}

impl VoiceActivity {
    /// Cleans the track with the morphological operators.
    ///
    /// Each radius sets a window of `2r + 1` frames. Opening with `opening_radius` removes
    /// stray runs of activity shorter than its window, then closing with `closing_radius`
    /// fills gaps shorter than its window. Before each operator the track is padded with
    /// silence, so that its ends are treated as bordering on silence, and the padding is
    /// removed afterwards. A radius of zero skips that operator. The result is a new track;
    /// this one is left as it is.
    pub fn clean(&self, opening_radius: usize, closing_radius: usize) -> (out: Self)
        requires
            self.data@.len() + 2 * opening_radius <= usize::MAX,
            self.data@.len() + 2 * closing_radius <= usize::MAX,
        ensures
            out.data@ == cleaned(self.data@, opening_radius as nat, closing_radius as nat),
            out.data@.len() == self.data@.len(),
            out.chunk_millis == self.chunk_millis,
    {
        let data = vstd::slice::slice_to_vec(self.data.as_slice());

        let data = if opening_radius > 0 {
            let opening_clone = pad(data.as_slice(), opening_radius);
            unpad(morph_opening(opening_clone.as_slice(), opening_radius).as_slice(), opening_radius)
        } else {
            data
        };

        let data = if closing_radius > 0 {
            let closing_clone = pad(data.as_slice(), closing_radius);
            unpad(morph_closing(closing_clone.as_slice(), closing_radius).as_slice(), closing_radius)
        } else {
            data
        };

        VoiceActivity { data, chunk_millis: self.chunk_millis }
    }
}

/// Padding with silence and removing the padding again leaves a track as it was.
pub proof fn lemma_unpadded_padded(s: Seq<bool>, radius: nat)
    ensures
        unpadded(padded(s, radius), radius) == s,
        padded(s, radius).len() == s.len() + 2 * radius,
{
    assert(unpadded(padded(s, radius), radius) =~= s);
}

/// A track without any activity is left as it is by cleaning, whatever the radii.
pub proof fn lemma_clean_keeps_silence(s: Seq<bool>, opening_radius: nat, closing_radius: nat)
    requires
        crate::morph::all_clear(s),
    ensures
        cleaned(s, opening_radius, closing_radius) == s,
{
    crate::morph::lemma_all_clear_is_fixed(padded(s, opening_radius), opening_radius);
    crate::morph::lemma_all_clear_is_fixed(padded(s, closing_radius), closing_radius);
    lemma_unpadded_padded(s, opening_radius);
    lemma_unpadded_padded(s, closing_radius);
}

} // verus!
