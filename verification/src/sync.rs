//! The decisions of the synchronization: what may fail and how it is reported, which
//! framerate is taken, in which order the alignment is asked, and how its answer corrects
//! the subtitle entries.
//!
//! Reading, parsing and writing subtitle files and the alignment itself are not done here.
//! The caller does them, one step of a `SyncPlan` at a time, and hands the results back.

use crate::timespans::TimeSpan;
use crate::util::{delta_fits, joined3};
use vstd::prelude::*;
use vstd::string::StringExecFns;

verus! {

/// The subtitle formats that are told apart.
#[derive(Clone, Copy, Debug, PartialEq, Eq, Structural)]
pub enum SubtitleFormat {
    /// .srt file
    SubRip,
    /// .ssa/.ass file
    SubStationAlpha,
    /// .idx file
    VobSubIdx,
    /// .sub file (`VobSub`/binary)
    VobSubSub,
    /// .sub file (`MicroDVD`/text)
    MicroDVD,
}

impl SubtitleFormat {
    /// The text that `get_name` returns.
    pub open spec fn name_text(self) -> Seq<char> {
        match self {
            SubtitleFormat::SubRip => ".srt (SubRip)"@,
            SubtitleFormat::SubStationAlpha => ".ssa (SubStation Alpha)"@,
            SubtitleFormat::VobSubIdx => ".idx (VobSub)"@,
            SubtitleFormat::VobSubSub => ".sub (VobSub)"@,
            SubtitleFormat::MicroDVD => ".sub (MicroDVD)"@,
        }
    }

    /// A descriptive name of the format, like `".srt (SubRip)"`.
    pub fn get_name(&self) -> (name: &'static str)
        ensures
            name@ == self.name_text(),
    {
        match self {
            SubtitleFormat::SubRip => ".srt (SubRip)",
            SubtitleFormat::SubStationAlpha => ".ssa (SubStation Alpha)",
            SubtitleFormat::VobSubIdx => ".idx (VobSub)",
            SubtitleFormat::VobSubSub => ".sub (VobSub)",
            SubtitleFormat::MicroDVD => ".sub (MicroDVD)",
        }
    }
}

/// Why a file could not be read.
#[derive(Clone, Copy, Debug, PartialEq, Eq, Structural)]
pub enum ReadFailure {
    /// There is no file at the path.
    NotFound,
    /// The file may not be opened.
    PermissionDenied,
    /// Anything else.
    Other,
}

/// What the subtitle reader or writer reports when it fails.
#[derive(Debug)]
pub enum SubtitleFailure {
    /// The entries of a file of this format cannot be updated.
    UpdatingEntriesNotSupported { format: SubtitleFormat },
    /// Any other failure, in the words of the one that failed.
    Other { detail: String },
}

/// Represents errors that may occur during syncing.
#[derive(Debug)]
pub enum SyncError {
    UnsupportedFormat { path: String, format: Option<SubtitleFormat> },
    ReadError { path: String, cause: String },
    DoesNotExist { path: String },
    PermissionDenied { path: String },
    ParseError { path: String },
    WriteError { path: String, cause: String },
    SerializeError { path: String, cause: String },
    InternalError { msg: String },
}

/// The four pieces of text one behind the other, closed by `')`.
pub open spec fn with_cause_and_path(
    head: Seq<char>,
    cause: Seq<char>,
    between: Seq<char>,
    path: Seq<char>,
) -> Seq<char> {
    head + cause + between + path + "')"@
}

impl SyncError {
    /// The text that `message` returns.
    pub open spec fn message_text(self) -> Seq<char> {
        match self {
            SyncError::UnsupportedFormat { path, format } => with_cause_and_path(
                "Subtitle format not supported (path='"@,
                path@,
                "', format='"@,
                match format {
                    Some(format) => format.name_text(),
                    None => "N/A"@,
                },
            ),
            SyncError::ReadError { path, cause } => with_cause_and_path(
                "Error reading subtitle file from disk (msg='"@,
                cause@,
                "' path='"@,
                path@,
            ),
            SyncError::DoesNotExist { path } => "Subtitle file does not exist (path='"@ + path@ + "')"@,
            SyncError::PermissionDenied { path } => "Insufficient privileges to open subtitle file (path='"@
                + path@ + "')"@,
            SyncError::ParseError { path } => "Error parsing subtitle file (path='"@ + path@ + "')"@,
            SyncError::WriteError { path, cause } => with_cause_and_path(
                "Error writing subtitle data to disk (msg='"@,
                cause@,
                "' path='"@,
                path@,
            ),
            SyncError::SerializeError { path, cause } => with_cause_and_path(
                "Error serializing subtitle data (msg='"@,
                cause@,
                "', path='"@,
                path@,
            ),
            SyncError::InternalError { msg } => "Unknown sync error occurred (msg='"@ + msg@ + "')"@,
        }
    }

    /// Describes the error for a reader.
    pub fn message(&self) -> (text: String)
        ensures
            text@ == self.message_text(),
    {
        match self {
            SyncError::UnsupportedFormat { path, format } => {
                let format_name = match format {
                    Some(format) => format.get_name(),
                    None => "N/A",
                };
                joined5("Subtitle format not supported (path='", path.as_str(), "', format='", format_name)
            },
            SyncError::ReadError { path, cause } => joined5(
                "Error reading subtitle file from disk (msg='",
                cause.as_str(),
                "' path='",
                path.as_str(),
            ),
            SyncError::DoesNotExist { path } => joined3(
                "Subtitle file does not exist (path='",
                path.as_str(),
                "')",
            ),
            SyncError::PermissionDenied { path } => joined3(
                "Insufficient privileges to open subtitle file (path='",
                path.as_str(),
                "')",
            ),
            SyncError::ParseError { path } => joined3(
                "Error parsing subtitle file (path='",
                path.as_str(),
                "')",
            ),
            SyncError::WriteError { path, cause } => joined5(
                "Error writing subtitle data to disk (msg='",
                cause.as_str(),
                "' path='",
                path.as_str(),
            ),
            SyncError::SerializeError { path, cause } => joined5(
                "Error serializing subtitle data (msg='",
                cause.as_str(),
                "', path='",
                path.as_str(),
            ),
            SyncError::InternalError { msg } => joined3(
                "Unknown sync error occurred (msg='",
                msg.as_str(),
                "')",
            ),
        }
    }

    /// The error for a subtitle file at `path` that could not be read: a missing file and
    /// missing privileges are told apart from every other failure, of which `cause` tells
    /// more.
    pub fn unreadable(failure: ReadFailure, cause: String, path: String) -> (error: SyncError)
        ensures
            error == match failure {
                ReadFailure::NotFound => SyncError::DoesNotExist { path },
                ReadFailure::PermissionDenied => SyncError::PermissionDenied { path },
                ReadFailure::Other => SyncError::ReadError { path, cause },
            },
    {
        match failure {
            ReadFailure::NotFound => SyncError::DoesNotExist { path },
            ReadFailure::PermissionDenied => SyncError::PermissionDenied { path },
            ReadFailure::Other => SyncError::ReadError { path, cause },
        }
    }

    /// The error for a failure of the subtitle reader or writer on the file at `path`, met
    /// while doing `doing`. That the entries of the format cannot be updated is an unsupported
    /// format, named with the path; anything else is an internal error whose message holds
    /// `doing` and the failure's own words.
    pub fn from_failure(failure: SubtitleFailure, doing: &str, path: String) -> (error: SyncError)
        ensures
            match failure {
                SubtitleFailure::UpdatingEntriesNotSupported { format } => error == (
                SyncError::UnsupportedFormat { path, format: Some(format) }),
                SubtitleFailure::Other { detail } => {
                    &&& error matches SyncError::InternalError { msg }
                    &&& msg@ == doing@ + " ("@ + detail@ + ")"@
                },
            },
    {
        match failure {
            SubtitleFailure::UpdatingEntriesNotSupported { format } => SyncError::UnsupportedFormat {
                path,
                format: Some(format),
            },
            SubtitleFailure::Other { detail } => {
                let mut msg = joined3(doing, " (", detail.as_str());
                msg.append(")");
                SyncError::InternalError { msg }
            },
        }
    }
}

/// Puts the four pieces of text one behind the other and closes them with `')`.
fn joined5(head: &str, cause: &str, between: &str, path: &str) -> (text: String)
    ensures
        text@ == with_cause_and_path(head@, cause@, between@, path@),
{
    let mut text = joined3(head, cause, between);
    text.append(path);
    text.append("')");
    text
}

/// Ensures that a subtitle file of the detected `format` can be synced.
///
/// The extension of the file has to fit the format, which `extension_fits` says, and the
/// entries of the format have to be updatable, which those of binary `.sub` files are not.
pub fn is_format_supported(sub_path: &str, format: SubtitleFormat, extension_fits: bool) -> (checked:
    Result<(), SyncError>)
    ensures
        checked is Ok <==> extension_fits && format != SubtitleFormat::VobSubSub,
        checked matches Err(error) ==> {
            &&& error matches SyncError::UnsupportedFormat { path, format: named }
            &&& path@ == sub_path@
            &&& named == Some(format)
        },
{
    if !extension_fits {
        return Err(SyncError::UnsupportedFormat { path: String::from_str(sub_path), format: Some(format) });
    }
    match format {
        SubtitleFormat::VobSubSub => Err(
            SyncError::UnsupportedFormat { path: String::from_str(sub_path), format: Some(format) },
        ),
        _ => Ok(()),
    }
}

/// The position of the first of the highest scores among the first `upto` scores.
pub open spec fn first_max(scores: Seq<i64>, upto: nat) -> int
    decreases upto,
{
    if upto <= 1 {
        0
    } else if scores[upto - 1] > scores[first_max(scores, (upto - 1) as nat)] {
        upto - 1
    } else {
        first_max(scores, (upto - 1) as nat)
    }
}

/// `first_max` is a position of a highest score, and no score before it is as high.
pub proof fn lemma_first_max(scores: Seq<i64>, upto: nat)
    requires
        0 < upto <= scores.len(),
    ensures
        0 <= first_max(scores, upto) < upto,
        forall|j: int| 0 <= j < upto ==> #[trigger] scores[j] <= scores[first_max(scores, upto)],
        forall|j: int|
            0 <= j < first_max(scores, upto) ==> #[trigger] scores[j] < scores[first_max(scores, upto)],
    decreases upto,
{
    if upto > 1 {
        lemma_first_max(scores, (upto - 1) as nat);
    }
}

/// Picks the candidate with the highest score. Where several candidates share the highest
/// score, the first of them wins. `None` where there is no candidate.
pub fn best_candidate(scores: &[i64]) -> (best: Option<usize>)
    ensures
        best == if scores@.len() == 0 {
            None
        } else {
            Some(first_max(scores@, scores@.len()) as usize)
        },
        best matches Some(at) ==> {
            &&& at < scores@.len()
            &&& forall|j: int| 0 <= j < scores@.len() ==> #[trigger] scores@[j] <= scores@[at as int]
            &&& forall|j: int| 0 <= j < at ==> #[trigger] scores@[j] < scores@[at as int]
        },
{
    if scores.len() == 0 {
        return None;
    }
    proof {
        lemma_first_max(scores@, scores@.len());
    }
    let mut best: usize = 0;
    let mut i: usize = 1;
    while i < scores.len()
        invariant
            1 <= i <= scores@.len(),
            best == first_max(scores@, i as nat),
            0 <= best < i,
        decreases scores@.len() - i,
    {
        if scores[i] > scores[best] {
            best = i;
        }
        i += 1;
    }
    Some(best)
}

/// Whether `span` can be moved by `delta` milliseconds within what an `i64` holds.
pub open spec fn shift_fits(span: TimeSpan, delta: int) -> bool {
    &&& i64::MIN <= span.start + delta <= i64::MAX
    &&& i64::MIN <= span.end + delta <= i64::MAX
}

/// `span` moved by `delta` milliseconds.
pub open spec fn shifted(span: TimeSpan, delta: int) -> TimeSpan {
    TimeSpan { start: (span.start + delta) as i64, end: (span.end + delta) as i64 }
}

/// The smaller of two lengths.
pub open spec fn shorter(a: nat, b: nat) -> nat {
    if a <= b {
        a
    } else {
        b
    }
}

/// One and the same shift for each of `count` entries.
pub fn uniform_deltas(delta: i64, count: usize) -> (deltas: Vec<i64>)
    ensures
        deltas@ == Seq::new(count as nat, |i: int| delta),
{
    let mut deltas: Vec<i64> = Vec::new();
    let mut i: usize = 0;
    while i < count
        invariant
            i <= count,
            deltas@ == Seq::new(i as nat, |k: int| delta),
        decreases count - i,
    {
        deltas.push(delta);
        i += 1;
        assert(deltas@ =~= Seq::new(i as nat, |k: int| delta));
    }
    deltas
}

/// Corrects the entries: entry `i` is moved by shift `i`, which the alignment gave in units
/// of `interval` milliseconds. Entries and shifts are taken in pairs as far as both reach.
pub fn corrected_spans(entries: &[TimeSpan], deltas: &[i64], interval: i64) -> (corrected: Vec<TimeSpan>)
    requires
        forall|i: int|
            0 <= i < shorter(entries@.len(), deltas@.len()) ==> delta_fits(#[trigger] deltas@[i], interval)
                && shift_fits(entries@[i], deltas@[i] * interval),
    ensures
        corrected@.len() == shorter(entries@.len(), deltas@.len()),
        forall|i: int|
            0 <= i < corrected@.len() ==> #[trigger] corrected@[i] == shifted(
                entries@[i],
                deltas@[i] * interval,
            ),
{
    let count = if entries.len() <= deltas.len() {
        entries.len()
    } else {
        deltas.len()
    };
    let mut corrected: Vec<TimeSpan> = Vec::new();
    let mut i: usize = 0;
    while i < count
        invariant
            count == shorter(entries@.len(), deltas@.len()),
            i <= count,
            corrected@.len() == i,
            forall|k: int|
                0 <= k < count ==> delta_fits(#[trigger] deltas@[k], interval) && shift_fits(
                    entries@[k],
                    deltas@[k] * interval,
                ),
            forall|k: int|
                0 <= k < i ==> #[trigger] corrected@[k] == shifted(entries@[k], deltas@[k] * interval),
        decreases count - i,
    {
        let delta = crate::util::to_subparse_delta(deltas[i], interval);
        let entry = entries[i];
        corrected.push(TimeSpan { start: entry.start + delta, end: entry.end + delta });
        i += 1;
    }
    corrected
}

/// What the caller of a `SyncPlan` has to do next.
#[derive(Clone, Copy, Debug, PartialEq, Eq, Structural)]
pub enum SyncStep {
    /// Score candidate framerate number `candidate`: scale the incoming intervals by the
    /// ratio of that framerate to the reference framerate, have them matched to the
    /// reference without splits, by overlap, and report the score.
    ScoreFramerate { candidate: usize },
    /// Ask the alignment for one shift for all entries and report it. The incoming
    /// intervals are scaled for candidate `framerate` first, if there is one.
    AlignNoSplit { framerate: Option<usize> },
    /// Ask the alignment for a shift per entry and report the shifts. The incoming
    /// intervals are scaled for candidate `framerate` first, if there is one.
    AlignSplit { framerate: Option<usize> },
    /// The shifts are known: scale the entries for candidate `framerate`, if there is one,
    /// and correct them.
    Correct { framerate: Option<usize> },
}

/// What the caller of a `SyncPlan` reports back.
#[derive(Debug)]
pub enum SyncEvent {
    /// The score of the candidate framerate that was to be scored.
    Scored { score: i64 },
    /// The one shift for all entries, in the alignment's units.
    AlignedNoSplit { delta: i64 },
    /// The shifts of the entries, in the alignment's units.
    Aligned { deltas: Vec<i64> },
}

/// A `SyncPlan`, seen from outside.
pub struct PlanView {
    /// Whether the entries may be shifted each by its own amount.
    pub split_mode: bool,
    /// Whether a framerate is guessed before the alignment.
    pub framerate_correction: bool,
    /// Number of candidate framerates.
    pub candidates: nat,
    /// Number of entries of the subtitle file.
    pub entries: nat,
    /// The scores reported so far, one per candidate.
    pub scores: Seq<i64>,
    /// The shifts, once they are known.
    pub deltas: Option<Seq<i64>>,
}

impl PlanView {
    /// No more scores were reported than there are candidates, and none without framerate
    /// correction.
    pub open spec fn wf(self) -> bool {
        &&& self.scores.len() <= self.candidates
        &&& !self.framerate_correction ==> self.scores.len() == 0
    }

    /// Whether scores are still missing.
    pub open spec fn scoring(self) -> bool {
        self.framerate_correction && self.scores.len() < self.candidates
    }

    /// The framerate candidate that the scores so far make the best: the first of those
    /// with the highest score. None where nothing was scored.
    pub open spec fn chosen(self) -> Option<usize> {
        if self.scores.len() == 0 {
            None
        } else {
            Some(first_max(self.scores, self.scores.len()) as usize)
        }
    }

    /// The step that is due: first every candidate framerate is scored, in order, if
    /// framerates are to be corrected; then the alignment is asked, for one shift or for
    /// one per entry; then the entries are corrected.
    pub open spec fn step(self) -> SyncStep {
        if self.scoring() {
            SyncStep::ScoreFramerate { candidate: self.scores.len() as usize }
        } else if self.deltas is None {
            if self.split_mode {
                SyncStep::AlignSplit { framerate: self.chosen() }
            } else {
                SyncStep::AlignNoSplit { framerate: self.chosen() }
            }
        } else {
            SyncStep::Correct { framerate: self.chosen() }
        }
    }

    /// Whether `event` is the report that the step that is due asks for.
    pub open spec fn expects(self, event: SyncEvent) -> bool {
        match event {
            SyncEvent::Scored { .. } => self.step() is ScoreFramerate,
            SyncEvent::AlignedNoSplit { .. } => self.step() is AlignNoSplit,
            SyncEvent::Aligned { .. } => self.step() is AlignSplit,
        }
    }

    /// The plan after `event` was reported: a score is put behind the scores, one shift is
    /// taken for every entry, a list of shifts is taken as it is.
    pub open spec fn after(self, event: SyncEvent) -> PlanView {
        match event {
            SyncEvent::Scored { score } => PlanView { scores: self.scores.push(score), ..self },
            SyncEvent::AlignedNoSplit { delta } => PlanView {
                deltas: Some(Seq::new(self.entries, |i: int| delta)),
                ..self
            },
            SyncEvent::Aligned { deltas } => PlanView { deltas: Some(deltas@), ..self },
        }
    }
}

/// The course of one synchronization: keeps what is known so far and says what to do next.
pub struct SyncPlan {
    split_mode: bool,
    framerate_correction: bool,
    candidates: usize,
    entries: usize,
    scores: Vec<i64>,
    deltas: Option<Vec<i64>>,
}

impl View for SyncPlan {
    type V = PlanView;

    closed spec fn view(&self) -> PlanView {
        PlanView {
            split_mode: self.split_mode,
            framerate_correction: self.framerate_correction,
            candidates: self.candidates as nat,
            entries: self.entries as nat,
            scores: self.scores@,
            deltas: match self.deltas {
                Some(deltas) => Some(deltas@),
                None => None,
            },
        }
    }
}

impl SyncPlan {
    /// Plans the synchronization of a subtitle file with `entries` entries, with
    /// `candidates` candidate framerates to choose from.
    pub fn new(entries: usize, candidates: usize, split_mode: bool, framerate_correction: bool) -> (plan:
        SyncPlan)
        ensures
            plan@.wf(),
            plan@ == (PlanView {
                split_mode,
                framerate_correction,
                candidates: candidates as nat,
                entries: entries as nat,
                scores: Seq::empty(),
                deltas: None,
            }),
    {
        SyncPlan {
            split_mode,
            framerate_correction,
            candidates,
            entries,
            scores: Vec::new(),
            deltas: None,
        }
    }

    /// Says what is to be done next.
    pub fn next_step(&self) -> (step: SyncStep)
        requires
            self@.wf(),
        ensures
            step == self@.step(),
    {
        let framerate = match best_candidate(self.scores.as_slice()) {
            Some(best) => Some(best),
            None => None,
        };
        proof {
            if self.scores@.len() > 0 {
                lemma_first_max(self.scores@, self.scores@.len());
            }
        }
        if self.framerate_correction && self.scores.len() < self.candidates {
            SyncStep::ScoreFramerate { candidate: self.scores.len() }
        } else if self.deltas.is_none() {
            if self.split_mode {
                SyncStep::AlignSplit { framerate }
            } else {
                SyncStep::AlignNoSplit { framerate }
            }
        } else {
            SyncStep::Correct { framerate }
        }
    }

    /// Takes the report on the step that was due. A report that the step did not ask for is
    /// not taken and changes nothing.
    pub fn advance(&mut self, event: SyncEvent) -> (taken: bool)
        requires
            old(self)@.wf(),
        ensures
            final(self)@.wf(),
            taken == old(self)@.expects(event),
            final(self)@ == if taken {
                old(self)@.after(event)
            } else {
                old(self)@
            },
    {
        let scoring = self.framerate_correction && self.scores.len() < self.candidates;
        let aligning = !scoring && self.deltas.is_none();
        match event {
            SyncEvent::Scored { score } => {
                if scoring {
                    self.scores.push(score);
                }
                scoring
            },
            SyncEvent::AlignedNoSplit { delta } => {
                let fits = aligning && !self.split_mode;
                if fits {
                    self.deltas = Some(uniform_deltas(delta, self.entries));
                }
                fits
            },
            SyncEvent::Aligned { deltas } => {
                let fits = aligning && self.split_mode;
                if fits {
                    self.deltas = Some(deltas);
                }
                fits
            },
        }
    }

    /// Corrects the entries with the shifts of this plan, once they are known: entry `i` is
    /// moved by shift `i`, which counts units of `interval` milliseconds. `None` as long as
    /// the shifts are not known.
    pub fn corrected(&self, entries: &[TimeSpan], interval: i64) -> (corrected: Option<Vec<TimeSpan>>)
        requires
            self@.wf(),
            self@.deltas matches Some(deltas) ==> forall|i: int|
                0 <= i < shorter(entries@.len(), deltas.len()) ==> delta_fits(#[trigger] deltas[i], interval)
                    && shift_fits(entries@[i], deltas[i] * interval),
        ensures
            corrected is Some <==> self@.step() is Correct,
            corrected matches Some(spans) ==> {
                let deltas = self@.deltas->0;
                &&& spans@.len() == shorter(entries@.len(), deltas.len())
                &&& forall|i: int|
                    0 <= i < spans@.len() ==> #[trigger] spans@[i] == shifted(
                        entries@[i],
                        deltas[i] * interval,
                    )
            },
    {
        let scoring = self.framerate_correction && self.scores.len() < self.candidates;
        match &self.deltas {
            Some(deltas) => {
                if scoring {
                    None
                } else {
                    assert(self@.deltas == Some(deltas@));
                    assert forall|i: int|
                        0 <= i < shorter(entries@.len(), deltas@.len()) implies delta_fits(
                        #[trigger] deltas@[i],
                        interval,
                    ) && shift_fits(entries@[i], deltas@[i] * interval) by {
                        assert(delta_fits((self@.deltas->0)[i], interval));
                    }
                    Some(corrected_spans(entries, deltas.as_slice(), interval))
                }
            },
            None => None,
        }
    }
}

} // verus!
