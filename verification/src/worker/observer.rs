//! Records of finished jobs.

use vstd::prelude::*;

verus! {

/// How a job ended.
#[derive(Clone, Copy, Debug, PartialEq, Eq, Structural)]
pub enum JobOutcome {
    /// The handler succeeded.
    Acked,
    /// The handler failed and the job will be retried.
    Retried,
    /// The job exhausted its attempts.
    DeadLettered,
    /// The job ended in a way not known here.
    Other,
}

/// The name of an outcome.
pub open spec fn outcome_name(outcome: JobOutcome) -> Seq<char> {
    match outcome {
        JobOutcome::Acked => "acked"@,
        JobOutcome::Retried => "retried"@,
        JobOutcome::DeadLettered => "dead_lettered"@,
        JobOutcome::Other => "unknown"@,
    }
}

/// One finished job: which lane and kind ran, how it ended, how long it took.
#[derive(Debug, PartialEq, Eq)]
pub struct JobRecord {
    pub lane: String,
    pub kind: String,
    pub outcome: JobOutcome,
    /// The duration in nanoseconds.
    pub duration_nanos: u128,
}

impl JobRecord {
    /// A stable lower-case label of the outcome.
    pub fn outcome_label(&self) -> (r: &'static str)
        ensures
            r@ == outcome_name(self.outcome),
    {
        match self.outcome {
            JobOutcome::Acked => "acked",
            JobOutcome::Retried => "retried",
            JobOutcome::DeadLettered => "dead_lettered",
            JobOutcome::Other => "unknown",
        }
    }

    /// The duration in whole milliseconds.
    pub fn duration_ms(&self) -> (r: u128)
        ensures
            r == self.duration_nanos as int / 1_000_000,
    {
        self.duration_nanos / 1_000_000
    }
}

/// The contents of a [`JobRecord`].
pub struct JobRecordView {
    pub lane: Seq<char>,
    pub kind: Seq<char>,
    pub outcome: JobOutcome,
    pub duration_nanos: u128,
}

impl View for JobRecord {
    type V = JobRecordView;

    open spec fn view(&self) -> JobRecordView {
        JobRecordView {
            lane: self.lane@,
            kind: self.kind@,
            outcome: self.outcome,
            duration_nanos: self.duration_nanos,
        }
    }
}

impl Clone for JobRecord {
    fn clone(&self) -> (r: Self)
        ensures
            r@ == self@,
    {
        JobRecord {
            lane: self.lane.clone(),
            kind: self.kind.clone(),
            outcome: self.outcome,
            duration_nanos: self.duration_nanos,
        }
    }
}

/// A log of every finished job, in the order they finished.
#[derive(Debug)]
pub struct RecordingJobObserver {
    records: Vec<JobRecord>,
}

impl View for RecordingJobObserver {
    type V = Seq<JobRecordView>;

    closed spec fn view(&self) -> Seq<JobRecordView> {
        crate::model::seqs::views(self.records@)
    }
}

impl RecordingJobObserver {
    /// An observer with an empty log.
    pub fn new() -> (r: Self)
        ensures
            r@ == Seq::<JobRecordView>::empty(),
    {
        let r = RecordingJobObserver { records: Vec::new() };
        assert(r@ =~= Seq::<JobRecordView>::empty());
        r
    }

    /// The records collected so far.
    pub fn records(&self) -> (r: Vec<JobRecord>)
        ensures
            crate::model::seqs::views(r@) == self@,
    {
        let r = self.records.clone();
        assert(crate::model::seqs::views(r@) =~= self@);
        r
    }

    /// Records a finished job.
    pub fn on_job_finished(&mut self, lane: &str, kind: &str, outcome: JobOutcome, duration_nanos: u128)
        ensures
            final(self)@ == old(self)@.push(
                JobRecordView { lane: lane@, kind: kind@, outcome, duration_nanos },
            ),
    {
        let ghost before = self@;
        let record = JobRecord {
            lane: lane.to_string(),
            kind: kind.to_string(),
            outcome,
            duration_nanos,
        };
        let ghost added = record@;
        self.records.push(record);
        assert(self@ =~= before.push(added));
    }
}

impl Default for RecordingJobObserver {
    fn default() -> (r: Self)
        ensures
            r@ == Seq::<JobRecordView>::empty(),
    {
        RecordingJobObserver::new()
    }
}

} // verus!
