use vstd::prelude::*;

use crate::pool::{CredentialPool, PoolView};
use crate::provider::{AttemptOutcome, FailureKind};
use crate::types::{moment_views, MomentView, SessionState, VideoMoment};

verus! {

/// How a run of the pipeline ended.
#[derive(Debug, Clone, Copy, PartialEq, Eq, Structural)]
pub enum RunOutcome {
    /// Every chunk was worked through.
    Completed,
    /// The user cancelled; what was found so far is kept.
    Cancelled,
    /// No credential of the provider is left enabled.
    PoolExhausted,
}

/// What the caller does next.
#[derive(Debug, Clone, Copy, PartialEq, Eq, Structural)]
pub enum Directive {
    /// Run one attempt on chunk `chunk` with credential `credential`.
    Analyze { chunk: usize, credential: usize },
    /// The run is over.
    Stop(RunOutcome),
}

/// What an attempt's outcome did to the run.
#[derive(Debug, Clone, Copy, PartialEq, Eq, Structural)]
pub enum Progress {
    /// The chunk succeeded and its moments were added: persist the session.
    Checkpoint,
    /// The credential ran out of quota and was disabled; the chunk is retried.
    CredentialDisabled,
    /// The attempt failed for another reason; the chunk is retried with the next credential.
    Retry,
    /// The chunk used up its retries and was given up.
    ChunkAbandoned,
    /// The attempt was cancelled.
    Stopped,
}

/// Failed attempts allowed on one chunk: three per credential.
pub open spec fn retry_limit(pool_len: nat) -> nat {
    if 3 * pool_len <= usize::MAX {
        3 * pool_len
    } else {
        usize::MAX as nat
    }
}

/// The chunk dispatcher: walks the chunks in planner order, one attempt at a
/// time, and keeps the moments found so far.
pub struct Pipeline {
    starts: Vec<u64>,
    next: usize,
    attempts: usize,
    succeeded: usize,
    abandoned: usize,
    cancelled: bool,
    moments: Vec<VideoMoment>,
    pool: CredentialPool,
}

/// What a pipeline holds, for contracts.
pub struct PipelineView {
    /// Start offset of each chunk, in planner order.
    pub starts: Seq<u64>,
    /// The chunk being worked on.
    pub next: nat,
    /// Failed attempts on that chunk.
    pub attempts: nat,
    pub succeeded: nat,
    pub abandoned: nat,
    pub cancelled: bool,
    pub moments: Seq<MomentView>,
    pub pool: PoolView,
}

impl View for Pipeline {
    type V = PipelineView;

    closed spec fn view(&self) -> PipelineView {
        PipelineView {
            starts: self.starts@,
            next: self.next as nat,
            attempts: self.attempts as nat,
            succeeded: self.succeeded as nat,
            abandoned: self.abandoned as nat,
            cancelled: self.cancelled,
            moments: moment_views(self.moments@),
            pool: self.pool@,
        }
    }
}

impl Pipeline {
    pub closed spec fn wf(&self) -> bool {
        &&& self.pool.wf()
        &&& self.next <= self.starts@.len()
        &&& (self.attempts == 0 || self.attempts < retry_limit(self.pool@.len()))
        &&& self.succeeded + self.abandoned <= self.next
    }

    /// A run over chunks starting at `starts`, from chunk `first` on, with
    /// `moments` already found (empty for a fresh run, a saved session's for
    /// a resumed one).
    pub fn new(starts: Vec<u64>, first: usize, moments: Vec<VideoMoment>, pool: CredentialPool) -> (r: Self)
        requires
            pool.wf(),
            first <= starts@.len(),
        ensures
            r.wf(),
            r@.starts == starts@,
            r@.next == first,
            r@.attempts == 0,
            r@.succeeded == 0,
            r@.abandoned == 0,
            !r@.cancelled,
            r@.moments == moment_views(moments@),
            r@.pool == pool@,
    {
        proof {
            pool.lemma_wf();
        }
        let r = Pipeline {
            starts,
            next: first,
            attempts: 0,
            succeeded: 0,
            abandoned: 0,
            cancelled: false,
            moments,
            pool,
        };
        r
    }

    /// What to do next. A cancellation seen here is kept for the rest of the run.
    pub fn next_directive(&mut self, cancel_requested: bool) -> (r: Directive)
        requires
            old(self).wf(),
        ensures
            final(self).wf(),
            final(self)@.cancelled == (old(self)@.cancelled || cancel_requested),
            final(self)@.starts == old(self)@.starts,
            final(self)@.next == old(self)@.next,
            final(self)@.attempts == old(self)@.attempts,
            final(self)@.succeeded == old(self)@.succeeded,
            final(self)@.abandoned == old(self)@.abandoned,
            final(self)@.moments == old(self)@.moments,
            final(self)@.pool == old(self)@.pool,
            r == (if final(self)@.cancelled {
                Directive::Stop(RunOutcome::Cancelled)
            } else if old(self)@.next >= old(self)@.starts.len() {
                Directive::Stop(RunOutcome::Completed)
            } else {
                match old(self)@.pool.active() {
                    None => Directive::Stop(RunOutcome::PoolExhausted),
                    Some(i) => Directive::Analyze { chunk: old(self)@.next as usize, credential: i as usize },
                }
            }),
    {
        if cancel_requested {
            self.cancelled = true;
        }
        if self.cancelled {
            return Directive::Stop(RunOutcome::Cancelled);
        }
        if self.next >= self.starts.len() {
            return Directive::Stop(RunOutcome::Completed);
        }
        match self.pool.active_index() {
            None => Directive::Stop(RunOutcome::PoolExhausted),
            Some(i) => Directive::Analyze { chunk: self.next, credential: i },
        }
    }

    /// Applies the outcome of an attempt on the current chunk made with
    /// credential `credential`.
    ///
    /// Moments are appended in order and the run moves to the next chunk,
    /// rotating the pool. A quota failure disables the credential and a
    /// transient one rotates the pool; either counts against the chunk's
    /// retries, and the chunk is given up once they are used up. A cancelled
    /// attempt stops the run.
    pub fn record(&mut self, credential: usize, outcome: AttemptOutcome) -> (r: Progress)
        requires
            old(self).wf(),
            old(self)@.next < old(self)@.starts.len(),
            credential < old(self)@.pool.len(),
        ensures
            final(self).wf(),
            final(self)@.starts == old(self)@.starts,
            old(self)@.pool.only_disables(final(self)@.pool),
            match outcome {
                AttemptOutcome::Moments(ms) => {
                    &&& r == Progress::Checkpoint
                    &&& final(self)@.moments == old(self)@.moments + moment_views(ms@)
                    &&& final(self)@.next == old(self)@.next + 1
                    &&& final(self)@.attempts == 0
                    &&& final(self)@.succeeded == old(self)@.succeeded + 1
                    &&& final(self)@.abandoned == old(self)@.abandoned
                    &&& final(self)@.pool.enabled == old(self)@.pool.enabled
                    &&& final(self)@.pool.cursor == (old(self)@.pool.cursor + 1) % old(
                        self,
                    )@.pool.len()
                    &&& final(self)@.cancelled == old(self)@.cancelled
                },
                AttemptOutcome::Cancelled => {
                    &&& r == Progress::Stopped
                    &&& final(self)@.cancelled
                    &&& final(self)@.moments == old(self)@.moments
                    &&& final(self)@.next == old(self)@.next
                    &&& final(self)@.attempts == old(self)@.attempts
                    &&& final(self)@.succeeded == old(self)@.succeeded
                    &&& final(self)@.abandoned == old(self)@.abandoned
                    &&& final(self)@.pool == old(self)@.pool
                },
                AttemptOutcome::Failed(kind) => {
                    &&& final(self)@.moments == old(self)@.moments
                    &&& final(self)@.succeeded == old(self)@.succeeded
                    &&& final(self)@.cancelled == old(self)@.cancelled
                    &&& final(self)@.pool.cursor == (old(self)@.pool.cursor + 1) % old(
                        self,
                    )@.pool.len()
                    &&& (kind == FailureKind::Quota ==> forall|i: int|
                        0 <= i < old(self)@.pool.len() ==> final(self)@.pool.enabled[i] == (old(
                            self,
                        )@.pool.enabled[i] && old(self)@.pool.secrets[i] != old(
                            self,
                        )@.pool.secrets[credential as int]))
                    &&& (kind == FailureKind::Transient ==> final(self)@.pool.enabled == old(
                        self,
                    )@.pool.enabled)
                    &&& if old(self)@.attempts + 1 >= retry_limit(old(self)@.pool.len()) {
                        &&& r == Progress::ChunkAbandoned
                        &&& final(self)@.next == old(self)@.next + 1
                        &&& final(self)@.attempts == 0
                        &&& final(self)@.abandoned == old(self)@.abandoned + 1
                    } else {
                        &&& r == (if kind == FailureKind::Quota {
                            Progress::CredentialDisabled
                        } else {
                            Progress::Retry
                        })
                        &&& final(self)@.next == old(self)@.next
                        &&& final(self)@.attempts == old(self)@.attempts + 1
                        &&& final(self)@.abandoned == old(self)@.abandoned
                    }
                },
            },
    {
        proof {
            self.pool.lemma_wf();
        }
        let n = self.pool.len();
        let limit = if n <= usize::MAX / 3 {
            n * 3
        } else {
            usize::MAX
        };
        assert(limit == retry_limit(n as nat));
        let chunk_count = self.starts.len();
        assert(self.next < chunk_count);
        match outcome {
            AttemptOutcome::Moments(ms) => {
                let ghost before = self.moments@;
                let ghost added = ms@;
                let mut ms = ms;
                self.moments.append(&mut ms);
                assert(moment_views(self.moments@) =~= moment_views(before) + moment_views(added));
                self.next = self.next + 1;
                self.attempts = 0;
                self.succeeded = self.succeeded + 1;
                self.pool.rotate();
                Progress::Checkpoint
            },
            AttemptOutcome::Cancelled => {
                self.cancelled = true;
                Progress::Stopped
            },
            AttemptOutcome::Failed(kind) => {
                let progress = match kind {
                    FailureKind::Quota => {
                        let c = self.pool.credential(credential);
                        self.pool.disable(c.secret.as_str());
                        Progress::CredentialDisabled
                    },
                    FailureKind::Transient => {
                        self.pool.rotate();
                        Progress::Retry
                    },
                };
                if self.attempts + 1 >= limit {
                    self.next = self.next + 1;
                    self.attempts = 0;
                    self.abandoned = self.abandoned + 1;
                    Progress::ChunkAbandoned
                } else {
                    self.attempts = self.attempts + 1;
                    progress
                }
            },
        }
    }

    /// The moments found so far, in chunk order.
    pub fn moments(&self) -> (r: &Vec<VideoMoment>)
        ensures
            moment_views(r@) == self@.moments,
    {
        &self.moments
    }

    pub fn pool(&self) -> (r: &CredentialPool)
        requires
            self.wf(),
        ensures
            r@ == self@.pool,
            r.wf(),
    {
        &self.pool
    }

    /// Start offset of chunk `i`.
    pub fn chunk_start(&self, i: usize) -> (r: u64)
        requires
            i < self@.starts.len(),
        ensures
            r == self@.starts[i as int],
    {
        self.starts[i]
    }

    pub fn chunks_succeeded(&self) -> (r: usize)
        ensures
            r == self@.succeeded,
    {
        self.succeeded
    }

    pub fn chunk_count(&self) -> (r: usize)
        ensures
            r == self@.starts.len(),
    {
        self.starts.len()
    }

    /// Whether the run found nothing and left chunks unanalysed, so that
    /// the caller falls back to downloading the whole source: true when it
    /// was not cancelled, holds no moments, and fewer chunks succeeded than
    /// there are.
    pub fn needs_fallback(&self) -> (r: bool)
        ensures
            r == (!self@.cancelled && self@.moments.len() == 0 && self@.succeeded
                < self@.starts.len()),
    {
        !self.cancelled && self.moments.len() == 0 && self.succeeded < self.starts.len()
    }

    /// The session to persist: the source, the moments so far and the working directory.
    pub fn session(&self, youtube_url: &String, temp_dir: &String) -> (r: SessionState)
        ensures
            r.youtube_url@ == youtube_url@,
            r.temp_dir@ == temp_dir@,
            moment_views(r.moments@) == self@.moments,
    {
        SessionState {
            youtube_url: youtube_url.clone(),
            moments: clone_moments(&self.moments),
            temp_dir: temp_dir.clone(),
        }
    }
}

/// A copy of a list of moments.
pub fn clone_moments(ms: &Vec<VideoMoment>) -> (r: Vec<VideoMoment>)
    ensures
        moment_views(r@) == moment_views(ms@),
{
    let r = crate::rebase::rebase_moments(ms, 0);
    proof {
        assert forall|i: int| 0 <= i < ms@.len() implies #[trigger] moment_views(r@)[i]
            == moment_views(ms@)[i] by {
            crate::rebase::lemma_rebase_zero(ms@[i]@);
        }
        assert(moment_views(r@) =~= moment_views(ms@));
    }
    r
}

} // verus!
