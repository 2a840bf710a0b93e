use vstd::prelude::*;

use crate::rebase::{rebase_moment, rebase_moments};
use crate::text::{
    chars_of, contains, contains_str, string_of, strip_prefixes, strip_prefixes_window,
    strip_suffixes, strip_suffixes_window, trim, trim_window,
};
use crate::types::{moment_views, MomentView, VideoMoment};

verus! {

/// Status checks of an uploaded file before giving up on it.
pub const POLL_LIMIT: u32 = 60;

/// Seconds between two status checks of an uploaded file.
pub const POLL_INTERVAL_SECONDS: u64 = 2;

/// How a provider call failed, as far as the dispatcher cares.
#[derive(Debug, Clone, Copy, PartialEq, Eq, Structural)]
pub enum FailureKind {
    /// The credential ran out of quota or hit a rate limit.
    Quota,
    /// Anything else: network, malformed reply, server error, timeout.
    Transient,
}

/// A failure is a quota failure when its HTTP status is 429, or when its
/// message carries the word `quota`, the code `429` or the status
/// `RESOURCE_EXHAUSTED`.
pub open spec fn is_quota_failure(status: Option<u16>, message: Seq<char>) -> bool {
    status == Some(429u16) || contains(message, "quota"@) || contains(message, "429"@) || contains(
        message,
        "RESOURCE_EXHAUSTED"@,
    )
}

/// Sorts a provider failure into quota exhaustion or an ordinary failure.
pub fn classify_failure(status: Option<u16>, message: &str) -> (r: FailureKind)
    ensures
        r == (if is_quota_failure(status, message@) {
            FailureKind::Quota
        } else {
            FailureKind::Transient
        }),
{
    let by_status = match status {
        Some(code) => code == 429,
        None => false,
    };
    if by_status || contains_str(message, "quota") || contains_str(message, "429") || contains_str(
        message,
        "RESOURCE_EXHAUSTED",
    ) {
        FailureKind::Quota
    } else {
        FailureKind::Transient
    }
}

/// The JSON payload inside a reply that may be wrapped in a markdown code
/// fence: trimmed, opening ```` ```json ```` and ```` ``` ```` markers and
/// closing ```` ``` ```` markers removed, trimmed again.
pub open spec fn unfenced(text: Seq<char>) -> Seq<char> {
    trim(
        strip_suffixes(
            strip_prefixes(strip_prefixes(trim(text), "```json"@), "```"@),
            "```"@,
        ),
    )
}

/// Removes a markdown code fence around a JSON reply.
pub fn strip_code_fence(text: &str) -> (r: String)
    ensures
        r@ == unfenced(text@),
{
    let cs = chars_of(text);
    let json_fence = chars_of("```json");
    let fence = chars_of("```");
    let (a, b) = trim_window(&cs, 0, cs.len());
    let a = strip_prefixes_window(&cs, a, b, &json_fence);
    let a = strip_prefixes_window(&cs, a, b, &fence);
    let b = strip_suffixes_window(&cs, a, b, &fence);
    let (a, b) = trim_window(&cs, a, b);
    assert(cs@.subrange(0, cs@.len() as int) =~= text@);
    let mut out: Vec<char> = Vec::new();
    let mut i = a;
    while i < b
        invariant
            a <= i <= b <= cs@.len(),
            out@ == cs@.subrange(a as int, i as int),
        decreases b - i,
    {
        out.push(cs[i]);
        i = i + 1;
        assert(out@ =~= cs@.subrange(a as int, i as int));
    }
    string_of(&out)
}

/// State of an uploaded file on the provider's side.
#[derive(Debug, Clone, Copy, PartialEq, Eq, Structural)]
pub enum FileState {
    Processing,
    Active,
    Failed,
}

/// Where one attempt on one chunk stands.
#[derive(Debug, Clone, Copy, PartialEq, Eq, Structural)]
pub enum Phase {
    Uploading,
    Polling,
    Analyzing,
    Finished,
}

/// What the caller does next for an attempt.
#[derive(Debug, Clone, Copy, PartialEq, Eq, Structural)]
pub enum Step {
    /// Send the chunk's bytes with the attempt's credential.
    Upload,
    /// Wait this many seconds, then check the file's state with the same credential.
    Poll { delay_seconds: u64 },
    /// Ask for the analysis with the same credential.
    Analyze,
    /// The attempt is over; collect its outcome.
    Finish,
}

/// How an attempt ended.
#[derive(Debug)]
pub enum AttemptOutcome {
    /// Moments found, in source-relative time.
    Moments(Vec<VideoMoment>),
    Failed(FailureKind),
    Cancelled,
}

/// One upload-then-analyse attempt on one chunk, with one credential for
/// every phase.
#[derive(Debug)]
pub struct ChunkAttempt {
    credential: usize,
    offset: u64,
    phase: Phase,
    polls: u32,
    outcome: Option<AttemptOutcome>,
}

/// What an attempt holds, for contracts.
pub struct AttemptView {
    pub credential: nat,
    pub offset: u64,
    pub phase: Phase,
    pub polls: nat,
    pub failed: Option<FailureKind>,
    pub cancelled: bool,
    pub moments: Option<Seq<MomentView>>,
}

impl View for ChunkAttempt {
    type V = AttemptView;

    closed spec fn view(&self) -> AttemptView {
        AttemptView {
            credential: self.credential as nat,
            offset: self.offset,
            phase: self.phase,
            polls: self.polls as nat,
            failed: match self.outcome {
                Some(AttemptOutcome::Failed(k)) => Some(k),
                _ => None,
            },
            cancelled: self.outcome matches Some(AttemptOutcome::Cancelled),
            moments: match self.outcome {
                Some(AttemptOutcome::Moments(m)) => Some(moment_views(m@)),
                _ => None,
            },
        }
    }
}

impl ChunkAttempt {
    /// An outcome is recorded exactly when the attempt is finished.
    pub closed spec fn wf(&self) -> bool {
        &&& (self.phase == Phase::Finished <==> self.outcome is Some)
        &&& self.polls <= POLL_LIMIT
    }

    /// Starts an attempt with credential `credential` on a chunk that begins
    /// `offset` seconds into the source. A provider that takes the media
    /// inline has no upload phase.
    pub fn new(credential: usize, offset: u64, uploads: bool) -> (r: (Self, Step))
        ensures
            r.0.wf(),
            r.0@.credential == credential,
            r.0@.offset == offset,
            r.0@.polls == 0,
            r.0@.phase == (if uploads { Phase::Uploading } else { Phase::Analyzing }),
            r.1 == (if uploads { Step::Upload } else { Step::Analyze }),
    {
        let phase = if uploads { Phase::Uploading } else { Phase::Analyzing };
        let step = if uploads { Step::Upload } else { Step::Analyze };
        (ChunkAttempt { credential, offset, phase, polls: 0, outcome: None }, step)
    }

    pub fn credential(&self) -> (r: usize)
        ensures
            r == self@.credential,
    {
        self.credential
    }

    pub fn phase(&self) -> (r: Phase)
        ensures
            r == self@.phase,
    {
        self.phase
    }

    /// The upload finished: on success check the file's state at once, on
    /// failure end the attempt with that failure.
    pub fn on_upload(&mut self, result: Result<(), FailureKind>) -> (r: Step)
        requires
            old(self).wf(),
            old(self)@.phase == Phase::Uploading,
        ensures
            final(self).wf(),
            final(self)@.credential == old(self)@.credential,
            final(self)@.offset == old(self)@.offset,
            final(self)@.polls == old(self)@.polls,
            match result {
                Ok(()) => r == (Step::Poll { delay_seconds: 0 }) && final(self)@.phase
                    == Phase::Polling,
                Err(k) => r == Step::Finish && final(self)@.phase == Phase::Finished
                    && final(self)@.failed == Some(k),
            },
    {
        match result {
            Ok(()) => {
                self.phase = Phase::Polling;
                Step::Poll { delay_seconds: 0 }
            },
            Err(k) => {
                self.phase = Phase::Finished;
                self.outcome = Some(AttemptOutcome::Failed(k));
                Step::Finish
            },
        }
    }

    /// A status check came back. An active file goes on to analysis and a
    /// failed one ends the attempt. While the file is still processing, a
    /// cancellation ends the attempt, and so does the last allowed check;
    /// otherwise the next check comes after the poll interval.
    pub fn on_file_state(&mut self, state: FileState, cancelled: bool) -> (r: Step)
        requires
            old(self).wf(),
            old(self)@.phase == Phase::Polling,
            old(self)@.polls < POLL_LIMIT,
        ensures
            final(self).wf(),
            final(self)@.credential == old(self)@.credential,
            final(self)@.offset == old(self)@.offset,
            final(self)@.polls == old(self)@.polls + 1,
            state == FileState::Active ==> r == Step::Analyze && final(self)@.phase
                == Phase::Analyzing,
            state == FileState::Failed ==> r == Step::Finish && final(self)@.failed == Some(
                FailureKind::Transient,
            ),
            state == FileState::Processing && cancelled ==> r == Step::Finish
                && final(self)@.cancelled,
            state == FileState::Processing && !cancelled && final(self)@.polls == POLL_LIMIT
                ==> r == Step::Finish && final(self)@.failed == Some(FailureKind::Transient),
            state == FileState::Processing && !cancelled && final(self)@.polls < POLL_LIMIT
                ==> r == (Step::Poll { delay_seconds: POLL_INTERVAL_SECONDS })
                && final(self)@.phase == Phase::Polling,
            r == Step::Finish <==> final(self)@.phase == Phase::Finished,
    {
        self.polls = self.polls + 1;
        match state {
            FileState::Active => {
                self.phase = Phase::Analyzing;
                Step::Analyze
            },
            FileState::Failed => {
                self.phase = Phase::Finished;
                self.outcome = Some(AttemptOutcome::Failed(FailureKind::Transient));
                Step::Finish
            },
            FileState::Processing => {
                if cancelled {
                    self.phase = Phase::Finished;
                    self.outcome = Some(AttemptOutcome::Cancelled);
                    Step::Finish
                } else if self.polls >= POLL_LIMIT {
                    self.phase = Phase::Finished;
                    self.outcome = Some(AttemptOutcome::Failed(FailureKind::Transient));
                    Step::Finish
                } else {
                    Step::Poll { delay_seconds: POLL_INTERVAL_SECONDS }
                }
            },
        }
    }

    /// The analysis came back with chunk-relative moments, or failed. The
    /// moments are kept rebased by the chunk's offset.
    pub fn on_analysis(&mut self, result: Result<Vec<VideoMoment>, FailureKind>) -> (r: Step)
        requires
            old(self).wf(),
            old(self)@.phase == Phase::Analyzing,
        ensures
            final(self).wf(),
            r == Step::Finish,
            final(self)@.phase == Phase::Finished,
            final(self)@.credential == old(self)@.credential,
            final(self)@.offset == old(self)@.offset,
            match result {
                Ok(ms) => final(self)@.moments == Some(
                    moment_views(ms@).map_values(|m: MomentView| rebase_moment(m, old(self)@.offset)),
                ),
                Err(k) => final(self)@.failed == Some(k),
            },
    {
        self.phase = Phase::Finished;
        match result {
            Ok(ms) => {
                let rebased = rebase_moments(&ms, self.offset);
                self.outcome = Some(AttemptOutcome::Moments(rebased));
            },
            Err(k) => {
                self.outcome = Some(AttemptOutcome::Failed(k));
            },
        }
        Step::Finish
    }

    /// Hands out how a finished attempt ended.
    pub fn into_outcome(self) -> (r: AttemptOutcome)
        requires
            self.wf(),
            self@.phase == Phase::Finished,
        ensures
            match r {
                AttemptOutcome::Moments(m) => self@.moments == Some(moment_views(m@)),
                AttemptOutcome::Failed(k) => self@.failed == Some(k),
                AttemptOutcome::Cancelled => self@.cancelled,
            },
    {
        match self.outcome {
            Some(o) => o,
            None => AttemptOutcome::Cancelled,
        }
    }
}

} // verus!
