//! Time intervals: derived from voice activity, normalized from subtitle entries, quantized
//! for the alignment, and stored in a small binary format.

use crate::sync::SyncError;
use crate::util::{joined3, to_alass_timepoint, truncated_quotient};
use crate::voice_activity::VoiceActivity;
use crate::wire::{as_signed, as_unsigned, le_digits, le_value, read_i64, read_u32, write_i64, write_u32};
use vstd::prelude::*;
use vstd::string::StringExecFns;

verus! {

/// A time interval from `start` to `end`, both in milliseconds.
#[derive(Clone, Copy, Debug, PartialEq, Eq, Structural)]
pub struct TimeSpan {
    pub start: i64,
    pub end: i64,
}

impl TimeSpan {
    /// Whether the interval does not end before it starts.
    pub open spec fn is_ordered(self) -> bool {
        self.start <= self.end
    }

    /// The interval between the two time points, whichever of them comes first.
    pub open spec fn between(a: i64, b: i64) -> TimeSpan {
        if b < a {
            TimeSpan { start: b, end: a }
        } else {
            TimeSpan { start: a, end: b }
        }
    }

    /// The interval with its ends in order: they are swapped if they came reversed.
    pub open spec fn normalized(self) -> TimeSpan {
        TimeSpan::between(self.start, self.end)
    }

    /// An interval with the ends as they are given.
    pub fn new(start: i64, end: i64) -> (span: TimeSpan)
        ensures
            span == (TimeSpan { start, end }),
    {
        TimeSpan { start, end }
    }

    /// The interval between the two time points, whichever of them comes first.
    pub fn new_safe(a: i64, b: i64) -> (span: TimeSpan)
        ensures
            span == TimeSpan::between(a, b),
            span.is_ordered(),
    {
        if b < a {
            TimeSpan { start: b, end: a }
        } else {
            TimeSpan { start: a, end: b }
        }
    }
}

/// A list of time intervals, in the order in which they were given: the reference for the
/// synchronization.
///
/// It may be derived from the voice activity of an audio stream, taken from a subtitle file
/// whose timing is known to be good, or filled by hand. The intervals may overlap and need
/// not be sorted.
pub struct TimeSpans(pub Vec<TimeSpan>);

impl View for TimeSpans {
    type V = Seq<TimeSpan>;

    open spec fn view(&self) -> Seq<TimeSpan> {
        self.0@
    }
}

/// Whether the frame before boundary `i` of the track is voiced. Before the track lies silence.
pub open spec fn voiced_before(data: Seq<bool>, i: int) -> bool {
    0 < i <= data.len() && data[i - 1]
}

/// Whether the frame behind boundary `i` of the track is voiced. Behind the track lies silence.
pub open spec fn voiced_behind(data: Seq<bool>, i: int) -> bool {
    0 <= i < data.len() && data[i]
}

/// Whether the activity changes at boundary `i`, the one between frame `i - 1` and frame `i`.
pub open spec fn is_edge(data: Seq<bool>, i: int) -> bool {
    voiced_before(data, i) != voiced_behind(data, i)
}

/// The boundaries below `upto` at which the activity changes, in rising order.
pub open spec fn edges(data: Seq<bool>, upto: nat) -> Seq<int>
    decreases upto,
{
    if upto == 0 {
        Seq::empty()
    } else if is_edge(data, upto - 1) {
        edges(data, (upto - 1) as nat).push(upto - 1)
    } else {
        edges(data, (upto - 1) as nat)
    }
}

/// The boundary at which run `k` of voice begins: edge `2k` of the track.
pub open spec fn rise_of(data: Seq<bool>, k: int) -> int {
    edges(data, data.len() + 1)[2 * k]
}

/// The boundary at which run `k` of voice ends: edge `2k + 1` of the track.
pub open spec fn fall_of(data: Seq<bool>, k: int) -> int {
    edges(data, data.len() + 1)[2 * k + 1]
}

/// The intervals of a voice-activity track: the boundaries at which the activity changes are
/// taken in pairs, the first with the second, the third with the fourth and so on, and
/// boundary `i` lies at `i * chunk_millis` milliseconds.
pub open spec fn spans_of(data: Seq<bool>, chunk_millis: nat) -> Seq<TimeSpan> {
    Seq::new(
        edges(data, data.len() + 1).len() / 2,
        |k: int|
            TimeSpan {
                start: (rise_of(data, k) * chunk_millis) as i64,
                end: (fall_of(data, k) * chunk_millis) as i64,
            },
    )
}

/// The edges of a track come in rising order, a rising edge first, then falling and rising
/// edges in turn: their number below a boundary is odd exactly where the frame before that
/// boundary is voiced.
pub proof fn lemma_edges_alternate(data: Seq<bool>, upto: nat)
    requires
        upto <= data.len() + 1,
    ensures
        edges(data, upto).len() % 2 == if voiced_before(data, upto as int) {
            1nat
        } else {
            0nat
        },
        edges(data, upto).len() <= upto,
        forall|j: int| 0 <= j < edges(data, upto).len() ==> 0 <= #[trigger] edges(data, upto)[j] < upto,
        forall|j: int|
            0 <= j < edges(data, upto).len() ==> (voiced_behind(data, #[trigger] edges(data, upto)[j]) <==> j
                % 2 == 0),
        forall|j: int, k: int|
            0 <= j < k < edges(data, upto).len() ==> #[trigger] edges(data, upto)[j] < #[trigger] edges(
                data,
                upto,
            )[k],
    decreases upto,
{
    if upto > 0 {
        lemma_edges_alternate(data, (upto - 1) as nat);
    }
}

/// Every interval of a track starts at a rising edge and ends at the next falling edge, and
/// the track ends in silence: no edge is left without its partner.
pub proof fn lemma_spans_are_voiced_runs(data: Seq<bool>, chunk_millis: nat)
    ensures
        edges(data, data.len() + 1).len() == 2 * spans_of(data, chunk_millis).len(),
        forall|k: int|
            0 <= k < spans_of(data, chunk_millis).len() ==> {
                &&& 0 <= #[trigger] rise_of(data, k) < fall_of(data, k) <= data.len()
                &&& data[rise_of(data, k)]
                &&& !voiced_behind(data, fall_of(data, k))
            },
{
    lemma_edges_alternate(data, data.len() + 1);
    let all = edges(data, data.len() + 1);
    assert forall|k: int| 0 <= k < spans_of(data, chunk_millis).len() implies {
        &&& 0 <= #[trigger] rise_of(data, k) < fall_of(data, k) <= data.len()
        &&& data[rise_of(data, k)]
        &&& !voiced_behind(data, fall_of(data, k))
    } by {
        assert(voiced_behind(data, all[2 * k]) <==> (2 * k) % 2 == 0);
        assert(voiced_behind(data, all[2 * k + 1]) <==> (2 * k + 1) % 2 == 0);
    }
}

/// The edges below a boundary are the first of the edges below any later boundary, and the
/// edges that come behind them lie at or behind that boundary.
pub proof fn lemma_edges_prefix(data: Seq<bool>, at: nat, upto: nat)
    requires
        at <= upto,
    ensures
        edges(data, at).len() <= edges(data, upto).len(),
        edges(data, upto).take(edges(data, at).len() as int) == edges(data, at),
        forall|j: int|
            edges(data, at).len() <= j < edges(data, upto).len() ==> at <= #[trigger] edges(data, upto)[j],
    decreases upto,
{
    if at == upto {
        assert(edges(data, upto).take(edges(data, at).len() as int) =~= edges(data, at));
    } else {
        lemma_edges_prefix(data, at, (upto - 1) as nat);
        let before = edges(data, (upto - 1) as nat);
        assert(edges(data, upto).take(edges(data, at).len() as int) =~= before.take(
            edges(data, at).len() as int,
        ));
    }
}

/// The intervals of a track cover its voice and nothing else: a frame is voiced exactly if
/// it lies between the rising and the falling edge of one of the intervals.
pub proof fn lemma_spans_cover_voice(data: Seq<bool>, chunk_millis: nat, i: int)
    requires
        0 <= i < data.len(),
    ensures
        data[i] <==> exists|k: int|
            0 <= k < spans_of(data, chunk_millis).len() && #[trigger] rise_of(data, k) <= i < fall_of(
                data,
                k,
            ),
{
    let all = edges(data, data.len() + 1);
    let seen = edges(data, (i + 1) as nat);
    lemma_edges_alternate(data, (i + 1) as nat);
    lemma_edges_alternate(data, data.len() + 1);
    lemma_edges_prefix(data, (i + 1) as nat, data.len() + 1);
    assert(voiced_before(data, i + 1) == data[i]);
    if data[i] {
        let k = (seen.len() - 1) / 2;
        assert(seen.len() == 2 * k + 1);
        assert(all.take(seen.len() as int)[2 * k] == seen[2 * k]);
        assert(rise_of(data, k) <= i < fall_of(data, k));
    }
    if exists|k: int|
        0 <= k < spans_of(data, chunk_millis).len() && #[trigger] rise_of(data, k) <= i < fall_of(data, k) {
        let k = choose|k: int|
            0 <= k < spans_of(data, chunk_millis).len() && #[trigger] rise_of(data, k) <= i < fall_of(
                data,
                k,
            );
        // Edge `2k` lies at or before frame `i`, edge `2k + 1` behind it: the edges up to
        // frame `i` are the first `2k + 1` of all.
        if seen.len() <= 2 * k {
            assert(all[2 * k] >= i + 1);
        }
        if seen.len() > 2 * k + 1 {
            assert(all.take(seen.len() as int)[2 * k + 1] == seen[2 * k + 1]);
            assert(seen[2 * k + 1] < i + 1);
        }
        assert(seen.len() == 2 * k + 1);
    }
}

/// The intervals with the ends of each in order.
pub open spec fn normalized_all(spans: Seq<TimeSpan>) -> Seq<TimeSpan> {
    Seq::new(spans.len(), |i: int| spans[i].normalized())
}

/// The interval in units of `interval` milliseconds: both ends are divided by `interval`,
/// rounding towards zero, and put in order.
pub open spec fn quantized(span: TimeSpan, interval: int) -> TimeSpan {
    TimeSpan::between(
        truncated_quotient(span.start as int, interval) as i64,
        truncated_quotient(span.end as int, interval) as i64,
    )
}

/// The bytes of the records of `spans`: for each interval its start and its end, eight bytes
/// each.
pub open spec fn records(spans: Seq<TimeSpan>) -> Seq<u8>
    decreases spans.len(),
{
    if spans.len() == 0 {
        Seq::empty()
    } else {
        records(spans.drop_last()) + le_digits(as_unsigned(spans.last().start), 8) + le_digits(
            as_unsigned(spans.last().end),
            8,
        )
    }
}

/// The stored form of `spans`: the number of intervals as a little-endian `u32`, then for
/// each interval its start and its end in milliseconds as little-endian `i64`.
pub open spec fn encoded(spans: Seq<TimeSpan>) -> Seq<u8> {
    le_digits(spans.len(), 4) + records(spans)
}

/// The number of intervals that `bytes` declare in their first four bytes.
pub open spec fn declared_count(bytes: Seq<u8>) -> nat {
    le_value(bytes.subrange(0, 4))
}

/// Whether `bytes` hold a count and as many records as the count declares.
pub open spec fn decodable(bytes: Seq<u8>) -> bool {
    bytes.len() >= 4 && bytes.len() >= 4 + 16 * declared_count(bytes)
}

/// Record `i` of `bytes`.
pub open spec fn record_at(bytes: Seq<u8>, i: int) -> TimeSpan {
    TimeSpan {
        start: as_signed(le_value(bytes.subrange(4 + 16 * i, 12 + 16 * i))) as i64,
        end: as_signed(le_value(bytes.subrange(12 + 16 * i, 20 + 16 * i))) as i64,
    }
}

/// The intervals that `bytes` hold: as many records as the count declares. What follows them
/// is not looked at.
pub open spec fn decoded(bytes: Seq<u8>) -> Seq<TimeSpan> {
    Seq::new(declared_count(bytes), |i: int| record_at(bytes, i))
}

/// Each interval takes sixteen bytes.
proof fn lemma_records_len(spans: Seq<TimeSpan>)
    ensures
        records(spans).len() == 16 * spans.len(),
    decreases spans.len(),
{
    if spans.len() > 0 {
        lemma_records_len(spans.drop_last());
        crate::wire::lemma_le_digits_len(as_unsigned(spans.last().start), 8);
        crate::wire::lemma_le_digits_len(as_unsigned(spans.last().end), 8);
    }
}

/// Where the records of interval `i` lie among the records of `spans`.
proof fn lemma_record_bytes(spans: Seq<TimeSpan>, i: int)
    requires
        0 <= i < spans.len(),
    ensures
        records(spans).len() == 16 * spans.len(),
        records(spans).subrange(16 * i, 16 * i + 8) == le_digits(as_unsigned(spans[i].start), 8),
        records(spans).subrange(16 * i + 8, 16 * i + 16) == le_digits(as_unsigned(spans[i].end), 8),
    decreases spans.len(),
{
    let before = records(spans.drop_last());
    let start = le_digits(as_unsigned(spans.last().start), 8);
    let end = le_digits(as_unsigned(spans.last().end), 8);
    lemma_records_len(spans);
    lemma_records_len(spans.drop_last());
    crate::wire::lemma_le_digits_len(as_unsigned(spans.last().start), 8);
    crate::wire::lemma_le_digits_len(as_unsigned(spans.last().end), 8);
    if i == spans.len() - 1 {
        assert(records(spans).subrange(16 * i, 16 * i + 8) =~= start);
        assert(records(spans).subrange(16 * i + 8, 16 * i + 16) =~= end);
    } else {
        lemma_record_bytes(spans.drop_last(), i);
        assert(records(spans).subrange(16 * i, 16 * i + 8) =~= before.subrange(16 * i, 16 * i + 8));
        assert(records(spans).subrange(16 * i + 8, 16 * i + 16) =~= before.subrange(
            16 * i + 8,
            16 * i + 16,
        ));
    }
}

/// Round trip: the stored form of a list of intervals, whatever their values, is read back
/// as the same list, as long as a `u32` can count the intervals.
pub proof fn lemma_round_trip(spans: Seq<TimeSpan>)
    requires
        spans.len() <= u32::MAX,
    ensures
        encoded(spans).len() == 4 + 16 * spans.len(),
        decodable(encoded(spans)),
        decoded(encoded(spans)) == spans,
{
    let bytes = encoded(spans);
    let head = le_digits(spans.len(), 4);
    crate::wire::lemma_le_digits_len(spans.len(), 4);
    crate::wire::lemma_byte_ranges();
    crate::wire::lemma_value_of_digits(spans.len(), 4);
    lemma_records_len(spans);
    assert(bytes.subrange(0, 4) =~= head);
    assert forall|i: int| 0 <= i < spans.len() implies record_at(bytes, i) == spans[i] by {
        lemma_record_bytes(spans, i);
        assert(bytes.subrange(4 + 16 * i, 12 + 16 * i) =~= records(spans).subrange(16 * i, 16 * i + 8));
        assert(bytes.subrange(12 + 16 * i, 20 + 16 * i) =~= records(spans).subrange(
            16 * i + 8,
            16 * i + 16,
        ));
        crate::wire::lemma_signed_round_trip(spans[i].start);
        crate::wire::lemma_signed_round_trip(spans[i].end);
        crate::wire::lemma_value_of_digits(as_unsigned(spans[i].start), 8);
        crate::wire::lemma_value_of_digits(as_unsigned(spans[i].end), 8);
    }
    assert(decoded(bytes) =~= spans);
}

/// A stored list that was cut short anywhere is not read: what is left declares more
/// records than it holds, or has lost its count.
pub proof fn lemma_truncated_not_decodable(spans: Seq<TimeSpan>, kept: int)
    requires
        spans.len() <= u32::MAX,
        0 <= kept < encoded(spans).len(),
    ensures
        !decodable(encoded(spans).take(kept)),
{
    lemma_round_trip(spans);
    if kept >= 4 {
        assert(encoded(spans).take(kept).subrange(0, 4) =~= encoded(spans).subrange(0, 4));
    }
}

/// What is said of bytes that end before the count or before the last record.
pub open spec fn truncated_text() -> Seq<char> {
    "failed to fill whole buffer"@
}

/// What is said of a list with more intervals than a `u32` counts.
pub open spec fn too_many_text() -> Seq<char> {
    "more timespans than a 32-bit count can hold"@
}

/// Represents an error reading raw timespan data.
#[derive(Debug)]
pub enum TimeSpansLoadError {
    FileNotFound { path: String },
    ReadError { cause: String, path: String },
    DeserializeError { cause: String },
}

/// Represents an error writing raw timespan data.
#[derive(Debug)]
pub enum TimeSpansSaveError {
    SerializeError { cause: String },
    WriteError { cause: String },
}

impl TimeSpansLoadError {
    /// The text that `message` returns.
    pub open spec fn message_text(self) -> Seq<char> {
        match self {
            TimeSpansLoadError::FileNotFound { path } => "Span file does not exist (path='"@ + path@
                + "')"@,
            TimeSpansLoadError::ReadError { cause, path } => "Error reading timespans from disk (msg='"@
                + cause@ + "', path='"@ + path@ + "')"@,
            TimeSpansLoadError::DeserializeError { cause } => "Error parsing timespans from bytes (msg='"@
                + cause@ + "')"@,
        }
    }

    /// Describes the error for a reader.
    pub fn message(&self) -> (text: String)
        ensures
            text@ == self.message_text(),
    {
        match self {
            TimeSpansLoadError::FileNotFound { path } => joined3(
                "Span file does not exist (path='",
                path.as_str(),
                "')",
            ),
            TimeSpansLoadError::ReadError { cause, path } => {
                let mut text = joined3(
                    "Error reading timespans from disk (msg='",
                    cause.as_str(),
                    "', path='",
                );
                text.append(path.as_str());
                text.append("')");
                text
            },
            TimeSpansLoadError::DeserializeError { cause } => joined3(
                "Error parsing timespans from bytes (msg='",
                cause.as_str(),
                "')",
            ),
        }
    }

    /// The error for a span file at `path` that could not be opened or read: a file that is
    /// not there is told apart from every other failure, of which `cause` tells more.
    pub fn unreadable(not_found: bool, cause: String, path: String) -> (error: TimeSpansLoadError)
        ensures
            error == if not_found {
                TimeSpansLoadError::FileNotFound { path }
            } else {
                TimeSpansLoadError::ReadError { cause, path }
            },
    {
        if not_found {
            TimeSpansLoadError::FileNotFound { path }
        } else {
            TimeSpansLoadError::ReadError { cause, path }
        }
    }
}

impl TimeSpansSaveError {
    /// The text that `message` returns.
    pub open spec fn message_text(self) -> Seq<char> {
        match self {
            TimeSpansSaveError::SerializeError { cause } => "Error serializing timespans to bytes! (msg='"@
                + cause@ + "')"@,
            TimeSpansSaveError::WriteError { cause } => "Error saving timespan data to disk! (msg='"@
                + cause@ + "')"@,
        }
    }

    /// Describes the error for a reader.
    pub fn message(&self) -> (text: String)
        ensures
            text@ == self.message_text(),
    {
        match self {
            TimeSpansSaveError::SerializeError { cause } => joined3(
                "Error serializing timespans to bytes! (msg='",
                cause.as_str(),
                "')",
            ),
            TimeSpansSaveError::WriteError { cause } => joined3(
                "Error saving timespan data to disk! (msg='",
                cause.as_str(),
                "')",
            ),
        }
    }
}

impl TimeSpans {
    /// Appends a timespan.
    pub fn push(&mut self, span: TimeSpan)
        ensures
            final(self)@ == old(self)@.push(span),
    {
        self.0.push(span)
    }

    /// Analyzes a voice-activity track and produces its intervals of voice.
    ///
    /// The track is taken to lie in silence. Every change of the activity marks a boundary,
    /// boundary `i` at `i * chunk_millis` milliseconds; each interval runs from a change to
    /// voice to the next change to silence.
    pub fn from(activity: &VoiceActivity) -> (spans: TimeSpans)
        requires
            activity.data@.len() * activity.chunk_millis <= i64::MAX,
        ensures
            spans@ == spans_of(activity.data@, activity.chunk_millis as nat),
    {
        let ghost data = activity.data@;
        let ghost millis = activity.chunk_millis as nat;
        let len = activity.data.len();
        let step = activity.chunk_millis as u64;
        let mut out: Vec<TimeSpan> = Vec::new();
        let mut inside = false;
        let mut start: i64 = 0;
        let mut i: usize = 0;
        while i < len
            invariant
                data == activity.data@,
                millis == activity.chunk_millis as nat,
                step == millis,
                len == data.len(),
                len * millis <= i64::MAX,
                i <= len,
                inside == voiced_before(data, i as int),
                edges(data, i as nat).len() == 2 * out@.len() + if inside {
                    1nat
                } else {
                    0nat
                },
                forall|k: int|
                    0 <= k < out@.len() ==> #[trigger] out@[k] == (TimeSpan {
                        start: (edges(data, i as nat)[2 * k] * millis) as i64,
                        end: (edges(data, i as nat)[2 * k + 1] * millis) as i64,
                    }),
                inside ==> start == edges(data, i as nat).last() * millis,
            decreases len - i,
        {
            let voiced = activity.data[i];
            proof {
                assert(i * millis <= len * millis) by (nonlinear_arith)
                    requires
                        i <= len,
                ;
                assert(0 <= i * millis) by (nonlinear_arith);
                lemma_edges_alternate(data, i as nat);
            }
            if voiced != inside {
                let at = ((i as u64) * step) as i64;
                if voiced {
                    start = at;
                } else {
                    out.push(TimeSpan { start, end: at });
                }
                inside = voiced;
            }
            i += 1;
        }
        proof {
            assert(len * millis >= 0) by (nonlinear_arith);
            lemma_edges_alternate(data, len as nat);
        }
        if inside {
            let at = ((len as u64) * step) as i64;
            out.push(TimeSpan { start, end: at });
        }
        assert(out@ =~= spans_of(data, millis));
        TimeSpans(out)
    }

    /// Creates `TimeSpans` from the intervals of the entries of a subtitle file, in file
    /// order. The ends of each interval are put in order: entries may come with their ends
    /// reversed. This never fails.
    pub fn from_sub_file(entries: &[TimeSpan]) -> (made: Result<TimeSpans, SyncError>)
        ensures
            made matches Ok(spans) && spans@ == normalized_all(entries@) && forall|i: int|
                0 <= i < spans@.len() ==> (#[trigger] spans@[i]).is_ordered(),
    {
        let mut out: Vec<TimeSpan> = Vec::new();
        let mut i: usize = 0;
        while i < entries.len()
            invariant
                i <= entries@.len(),
                out@.len() == i,
                forall|k: int| 0 <= k < i ==> #[trigger] out@[k] == entries@[k].normalized(),
            decreases entries@.len() - i,
        {
            out.push(TimeSpan::new_safe(entries[i].start, entries[i].end));
            i += 1;
        }
        assert(out@ =~= normalized_all(entries@));
        Ok(TimeSpans(out))
    }

    /// Converts the timespans to the alignment's units of `interval` milliseconds.
    pub fn to_alass_timespans(&self, interval: i64) -> (out: Vec<TimeSpan>)
        requires
            interval >= 1,
        ensures
            out@.len() == self@.len(),
            forall|i: int| 0 <= i < out@.len() ==> #[trigger] out@[i] == quantized(self@[i], interval as int),
            forall|i: int| 0 <= i < out@.len() ==> (#[trigger] out@[i]).is_ordered(),
    {
        let mut out: Vec<TimeSpan> = Vec::new();
        let mut i: usize = 0;
        while i < self.0.len()
            invariant
                interval >= 1,
                i <= self@.len(),
                out@.len() == i,
                forall|k: int| 0 <= k < i ==> #[trigger] out@[k] == quantized(self@[k], interval as int),
                forall|k: int| 0 <= k < i ==> (#[trigger] out@[k]).is_ordered(),
            decreases self@.len() - i,
        {
            let span = self.0[i];
            out.push(
                TimeSpan::new_safe(
                    to_alass_timepoint(span.start, interval),
                    to_alass_timepoint(span.end, interval),
                ),
            );
            i += 1;
        }
        out
    }

    /// Makes the raw timespan data that is saved to disk: the number of intervals as a
    /// little-endian `u32`, then start and end of each in milliseconds as little-endian
    /// `i64`. Fails exactly where there are more intervals than a `u32` counts.
    pub fn save(&self) -> (made: Result<Vec<u8>, TimeSpansSaveError>)
        ensures
            match made {
                Ok(bytes) => self@.len() <= u32::MAX && bytes@ == encoded(self@),
                Err(error) => {
                    &&& self@.len() > u32::MAX
                    &&& error matches TimeSpansSaveError::SerializeError { cause }
                    &&& cause@ == too_many_text()
                },
            },
    {
        let count = self.0.len();
        if count > u32::MAX as usize {
            return Err(
                TimeSpansSaveError::SerializeError {
                    cause: String::from_str("more timespans than a 32-bit count can hold"),
                },
            );
        }
        let mut bytes = write_u32(count as u32);
        let mut i: usize = 0;
        while i < count
            invariant
                count == self@.len(),
                i <= count,
                bytes@ == le_digits(count as nat, 4) + records(self@.take(i as int)),
            decreases count - i,
        {
            let span = self.0[i];
            let mut start = write_i64(span.start);
            let mut end = write_i64(span.end);
            bytes.append(&mut start);
            bytes.append(&mut end);
            proof {
                assert(self@.take(i + 1).drop_last() =~= self@.take(i as int));
                assert(bytes@ =~= le_digits(count as nat, 4) + records(self@.take(i + 1)));
            }
            i += 1;
        }
        assert(self@.take(count as int) =~= self@);
        Ok(bytes)
    }

    /// Reads the raw timespan data that was loaded from disk. Fails exactly where the bytes
    /// end before the count or before the last of the records that the count declares;
    /// bytes behind the last record are not looked at.
    pub fn load(bytes: &[u8]) -> (made: Result<TimeSpans, TimeSpansLoadError>)
        ensures
            match made {
                Ok(spans) => decodable(bytes@) && spans@ == decoded(bytes@),
                Err(error) => {
                    &&& !decodable(bytes@)
                    &&& error matches TimeSpansLoadError::DeserializeError { cause }
                    &&& cause@ == truncated_text()
                },
            },
    {
        if bytes.len() < 4 {
            return Err(
                TimeSpansLoadError::DeserializeError {
                    cause: String::from_str("failed to fill whole buffer"),
                },
            );
        }
        let head = vstd::slice::slice_subrange(bytes, 0, 4);
        assert(head@.take(4) =~= bytes@.subrange(0, 4));
        let count = read_u32(head) as usize;
        if (bytes.len() - 4) / 16 < count {
            return Err(
                TimeSpansLoadError::DeserializeError {
                    cause: String::from_str("failed to fill whole buffer"),
                },
            );
        }
        let mut out: Vec<TimeSpan> = Vec::new();
        let mut i: usize = 0;
        while i < count
            invariant
                count == declared_count(bytes@),
                4 + 16 * count <= bytes@.len() <= usize::MAX,
                i <= count,
                out@.len() == i,
                forall|k: int| 0 <= k < i ==> #[trigger] out@[k] == record_at(bytes@, k),
            decreases count - i,
        {
            let at = 4 + 16 * i;
            let first = vstd::slice::slice_subrange(bytes, at, at + 8);
            let second = vstd::slice::slice_subrange(bytes, at + 8, at + 16);
            assert(first@.take(8) =~= bytes@.subrange(4 + 16 * i, 12 + 16 * i));
            assert(second@.take(8) =~= bytes@.subrange(12 + 16 * i, 20 + 16 * i));
            let start = read_i64(first);
            let end = read_i64(second);
            out.push(TimeSpan { start, end });
            i += 1;
        }
        assert(out@ =~= decoded(bytes@));
        Ok(TimeSpans(out))
    }
}

} // verus!
