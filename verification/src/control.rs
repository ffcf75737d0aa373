//! The controller core: the job collection, validated add/edit/delete,
//! tick-based due-ness evaluation, manual runs, and the events through
//! which execution units report back.
//!
//! An execution unit for job `i` exists exactly while `running` is true
//! for job `i`: it is launched only for an index that `tick` returns or
//! that `run_now` accepts — both set `running` — and it ends with the
//! `RunCompleted` event that clears the flag. The caller performs the
//! launch and delivers the events in arrival order.
use vstd::prelude::*;

verus! {

use vstd::string::StrSliceExecFns;
use vstd::string::StringExecFns;
use crate::job::{Job, JobV, wf_job, record_text_ok, record_text_ok_exec, is_blank};
use crate::filter::{wf_ext_tokens, wf_folder_tokens, views_of};
use crate::text::{trim, trim_spec, str_eq, parse_u32_str, all_dec_digits, dec_val, push_char};

/// The model of a job collection.
pub open spec fn jobs_model(js: Seq<Job>) -> Seq<JobV> {
    js.map_values(|j: Job| j@)
}

pub open spec fn wf_jobs(js: Seq<JobV>) -> bool {
    forall|i: int| 0 <= i < js.len() ==> wf_job(#[trigger] js[i])
}

/// What an execution unit sends back to the controller.
pub enum Event {
    /// An informational line for the visible log.
    Log(String),
    /// The single terminal report of one launched execution: the job's
    /// index and whether the run succeeded.
    RunCompleted(usize, bool),
}

/// Why a job draft was rejected; no state changes on rejection.
#[derive(Debug)]
pub enum ValidationError {
    EmptySource,
    SourceMissing,
    EmptyDest,
    /// A path holds a comma or a line break, which the persisted
    /// record form cannot carry.
    InvalidPath,
    /// The period input is not a whole number of hours of at least
    /// one.
    InvalidPeriod,
    SameSourceAndDest,
    DestUnavailable,
    NoSuchJob,
}

/// Why a manual run request was refused (logged, never queued).
#[derive(Debug)]
pub enum RunRefusal {
    NoSuchJob,
    AlreadyRunning,
}

/// The fields of a job as a user submits them.
pub ghost struct DraftV {
    pub source: Seq<char>,
    pub dest: Seq<char>,
    pub period: Seq<char>,
    pub exts: Seq<Seq<char>>,
    pub folders: Seq<Seq<char>>,
    pub archive: bool,
}

/// A job draft: validated before it touches the collection. The
/// period is carried as entered; an invalid one is a validation
/// error, never silently replaced.
pub struct JobDraft {
    pub source_path: String,
    pub dest_path: String,
    pub period_input: String,
    pub skip_extensions: Vec<String>,
    pub skip_folders: Vec<String>,
    pub archive_enabled: bool,
}

impl View for JobDraft {
    type V = DraftV;

    open spec fn view(&self) -> DraftV {
        DraftV {
            source: self.source_path@,
            dest: self.dest_path@,
            period: self.period_input@,
            exts: views_of(self.skip_extensions@),
            folders: views_of(self.skip_folders@),
            archive: self.archive_enabled,
        }
    }
}

/// The first validation failure of a draft, in check order; `None`
/// when the draft is accepted. `source_exists` and `dest_available`
/// report what the filesystem said about the two paths.
pub open spec fn draft_error(d: DraftV, source_exists: bool, dest_available: bool) -> Option<
    ValidationError,
> {
    if trim_spec(d.source).len() == 0 {
        Some(ValidationError::EmptySource)
    } else if !record_text_ok(d.source) {
        Some(ValidationError::InvalidPath)
    } else if !source_exists {
        Some(ValidationError::SourceMissing)
    } else if trim_spec(d.dest).len() == 0 {
        Some(ValidationError::EmptyDest)
    } else if !record_text_ok(d.dest) {
        Some(ValidationError::InvalidPath)
    } else if parse_period_spec(d.period) is None {
        Some(ValidationError::InvalidPeriod)
    } else if d.source == d.dest {
        Some(ValidationError::SameSourceAndDest)
    } else if !dest_available {
        Some(ValidationError::DestUnavailable)
    } else {
        None
    }
}

/// The job a valid draft becomes: created idle, with the creation time
/// as its last-run time and its period as validated.
pub open spec fn job_of_draft(d: DraftV, now: i64) -> JobV {
    JobV {
        source: d.source,
        dest: d.dest,
        period: parse_period_spec(d.period).unwrap(),
        exts: d.exts,
        folders: d.folders,
        archive: d.archive,
        last_run: now,
        running: false,
    }
}

/// Due-ness: idle, and at least `period` whole hours have elapsed
/// since the last completed run.
pub open spec fn job_due_spec(j: JobV, now: i64) -> bool {
    &&& !j.running
    &&& now - j.last_run >= j.period as int * 3600
}

/// A job after one evaluation tick: launched (and so marked running)
/// exactly when due.
pub open spec fn tick_job(j: JobV, now: i64) -> JobV {
    JobV {
        source: j.source,
        dest: j.dest,
        period: j.period,
        exts: j.exts,
        folders: j.folders,
        archive: j.archive,
        last_run: j.last_run,
        running: j.running || job_due_spec(j, now),
    }
}

pub open spec fn tick_jobs(js: Seq<JobV>, now: i64) -> Seq<JobV> {
    js.map_values(|j: JobV| tick_job(j, now))
}

pub open spec fn seq_has_index(l: Seq<usize>, i: int) -> bool {
    exists|k: int| 0 <= k < l.len() && l[k] == i
}

/// A job after its run completed: idle again, with the completion time
/// as its last-run time, whatever the outcome.
pub open spec fn complete_job(j: JobV, now: i64) -> JobV {
    JobV {
        source: j.source,
        dest: j.dest,
        period: j.period,
        exts: j.exts,
        folders: j.folders,
        archive: j.archive,
        last_run: now,
        running: false,
    }
}

/// A timestamped visible-log line.
pub open spec fn log_line_spec(stamp: Seq<char>, msg: Seq<char>) -> Seq<char> {
    seq!['['] + stamp + seq![']', ' '] + msg
}

/// Decide due-ness of one job at `now` (seconds).
pub fn job_is_due(j: &Job, now: i64) -> (r: bool)
    ensures
        r == job_due_spec(j@, now),
{
    if j.running {
        return false;
    }
    let elapsed: i128 = (now as i128) - (j.last_run_at as i128);
    elapsed >= (j.period_hours as i128) * 3600
}

/// The period a user typed: a positive whole number of hours that
/// fits, or nothing. An invalid period is rejected at add and edit
/// time; the default of 24 belongs to the load path alone.
pub open spec fn parse_period_spec(s: Seq<char>) -> Option<u32> {
    let t = trim_spec(s);
    if t.len() > 0 && all_dec_digits(t) && 1 <= dec_val(t) <= u32::MAX as nat {
        Some((dec_val(t) as u32))
    } else {
        None
    }
}

pub fn parse_period(input: &str) -> (r: Option<u32>)
    ensures
        r == parse_period_spec(input@),
        r is Some ==> r.unwrap() >= 1,
{
    let t = trim(input);
    let p = parse_u32_str(t.as_str());
    match p {
        Some(v) => if v >= 1 {
            Some(v)
        } else {
            None
        },
        None => None,
    }
}

/// Build one visible-log line from a preformatted timestamp.
pub fn make_log_line(stamp: &str, msg: &str) -> (r: String)
    ensures
        r@ == log_line_spec(stamp@, msg@),
{
    let mut r = String::new();
    push_char(&mut r, '[');
    r.append(stamp);
    push_char(&mut r, ']');
    push_char(&mut r, ' ');
    r.append(msg);
    proof {
        assert(r@ =~= log_line_spec(stamp@, msg@));
    }
    r
}

/// The controller state: it alone owns the job collection and the
/// visible log; execution units reach it only through `Event`s.
pub struct AppCore {
    pub jobs: Vec<Job>,
    pub logs: Vec<String>,
}

impl AppCore {
    pub open spec fn wf(&self) -> bool {
        wf_jobs(jobs_model(self.jobs@))
    }

    /// An empty controller: no jobs, no log lines.
    pub fn new() -> (r: AppCore)
        ensures
            r.wf(),
            r.jobs@.len() == 0,
            r.logs@.len() == 0,
    {
        AppCore { jobs: Vec::new(), logs: Vec::new() }
    }

    /// A controller over an already well-formed job collection, as a
    /// load yields it.
    pub fn with_jobs(jobs: Vec<Job>) -> (r: AppCore)
        requires
            wf_jobs(jobs_model(jobs@)),
        ensures
            r.wf(),
            r.jobs@ == jobs@,
            r.logs@.len() == 0,
    {
        AppCore { jobs, logs: Vec::new() }
    }

    /// Append one timestamped line to the visible log.
    pub fn log_message(&mut self, stamp: &str, msg: &str)
        ensures
            final(self).jobs == old(self).jobs,
            final(self).logs@.map_values(|l: String| l@) == old(self).logs@.map_values(
                |l: String| l@,
            ).push(log_line_spec(stamp@, msg@)),
    {
        let ghost prev = self.logs@.map_values(|l: String| l@);
        let line = make_log_line(stamp, msg);
        self.logs.push(line);
        proof {
            assert(self.logs@.map_values(|l: String| l@) =~= prev.push(self.logs@.last()@));
        }
    }

    /// Validate a draft and append it as a new idle job; on rejection
    /// the collection is unchanged.
    pub fn add_job(
        &mut self,
        draft: JobDraft,
        source_exists: bool,
        dest_available: bool,
        now: i64,
    ) -> (r: Result<(), ValidationError>)
        requires
            old(self).wf(),
            wf_ext_tokens(draft@.exts),
            wf_folder_tokens(draft@.folders),
        ensures
            final(self).wf(),
            final(self).logs == old(self).logs,
            match r {
                Ok(()) => draft_error(draft@, source_exists, dest_available) is None && jobs_model(
                    final(self).jobs@,
                ) == jobs_model(old(self).jobs@).push(job_of_draft(draft@, now)),
                Err(e) => Some(e) == draft_error(draft@, source_exists, dest_available) && final(self).jobs@ == old(self).jobs@,
            },
    {
        if is_blank(draft.source_path.as_str()) {
            return Err(ValidationError::EmptySource);
        }
        if !record_text_ok_exec(draft.source_path.as_str()) {
            return Err(ValidationError::InvalidPath);
        }
        if !source_exists {
            return Err(ValidationError::SourceMissing);
        }
        if is_blank(draft.dest_path.as_str()) {
            return Err(ValidationError::EmptyDest);
        }
        if !record_text_ok_exec(draft.dest_path.as_str()) {
            return Err(ValidationError::InvalidPath);
        }
        let period_hours: u32 = match parse_period(draft.period_input.as_str()) {
            Some(p) => p,
            None => {
                return Err(ValidationError::InvalidPeriod);
            },
        };
        if str_eq(draft.source_path.as_str(), draft.dest_path.as_str()) {
            return Err(ValidationError::SameSourceAndDest);
        }
        if !dest_available {
            return Err(ValidationError::DestUnavailable);
        }
        proof {
            lemma_trimmed_nonempty(draft@.source);
            lemma_trimmed_nonempty(draft@.dest);
        }
        let job = Job {
            source_path: draft.source_path,
            dest_path: draft.dest_path,
            period_hours,
            skip_extensions: draft.skip_extensions,
            skip_folders: draft.skip_folders,
            archive_enabled: draft.archive_enabled,
            last_run_at: now,
            running: false,
        };
        let ghost prev = jobs_model(self.jobs@);
        self.jobs.push(job);
        proof {
            assert(jobs_model(self.jobs@) =~= prev.push(self.jobs@.last()@));
            assert forall|i: int| 0 <= i < jobs_model(self.jobs@).len() implies wf_job(
                #[trigger] jobs_model(self.jobs@)[i],
            ) by {
                if i < prev.len() {
                    assert(wf_job(prev[i]));
                }
            }
        }
        Ok(())
    }

    /// Validate a draft and replace the fields of job `idx` in place;
    /// its last-run time and running flag are kept.
    pub fn edit_job(
        &mut self,
        idx: usize,
        draft: JobDraft,
        source_exists: bool,
        dest_available: bool,
    ) -> (r: Result<(), ValidationError>)
        requires
            old(self).wf(),
            wf_ext_tokens(draft@.exts),
            wf_folder_tokens(draft@.folders),
        ensures
            final(self).wf(),
            final(self).logs == old(self).logs,
            match r {
                Ok(()) => idx < old(self).jobs@.len() && draft_error(
                    draft@,
                    source_exists,
                    dest_available,
                ) is None && jobs_model(final(self).jobs@) == jobs_model(old(self).jobs@).update(
                    idx as int,
                    JobV {
                        last_run: old(self).jobs@[idx as int]@.last_run,
                        running: old(self).jobs@[idx as int]@.running,
                        ..job_of_draft(draft@, 0)
                    },
                ),
                Err(e) => final(self).jobs@ == old(self).jobs@ && (if idx >= old(self).jobs@.len() {
                    e == ValidationError::NoSuchJob
                } else {
                    Some(e) == draft_error(draft@, source_exists, dest_available)
                }),
            },
    {
        if idx >= self.jobs.len() {
            return Err(ValidationError::NoSuchJob);
        }
        if is_blank(draft.source_path.as_str()) {
            return Err(ValidationError::EmptySource);
        }
        if !record_text_ok_exec(draft.source_path.as_str()) {
            return Err(ValidationError::InvalidPath);
        }
        if !source_exists {
            return Err(ValidationError::SourceMissing);
        }
        if is_blank(draft.dest_path.as_str()) {
            return Err(ValidationError::EmptyDest);
        }
        if !record_text_ok_exec(draft.dest_path.as_str()) {
            return Err(ValidationError::InvalidPath);
        }
        let period_hours: u32 = match parse_period(draft.period_input.as_str()) {
            Some(p) => p,
            None => {
                return Err(ValidationError::InvalidPeriod);
            },
        };
        if str_eq(draft.source_path.as_str(), draft.dest_path.as_str()) {
            return Err(ValidationError::SameSourceAndDest);
        }
        if !dest_available {
            return Err(ValidationError::DestUnavailable);
        }
        proof {
            lemma_trimmed_nonempty(draft@.source);
            lemma_trimmed_nonempty(draft@.dest);
        }
        let prev_job = self.jobs.remove(idx);
        let job = Job {
            source_path: draft.source_path,
            dest_path: draft.dest_path,
            period_hours,
            skip_extensions: draft.skip_extensions,
            skip_folders: draft.skip_folders,
            archive_enabled: draft.archive_enabled,
            last_run_at: prev_job.last_run_at,
            running: prev_job.running,
        };
        self.jobs.insert(idx, job);
        proof {
            let oldm = jobs_model(old(self).jobs@);
            assert(jobs_model(self.jobs@) =~= oldm.update(idx as int, self.jobs@[idx as int]@));
            assert forall|i: int| 0 <= i < jobs_model(self.jobs@).len() implies wf_job(
                #[trigger] jobs_model(self.jobs@)[i],
            ) by {
                if i != idx {
                    assert(wf_job(oldm[i]));
                }
            }
        }
        Ok(())
    }

    /// Remove job `idx`; later jobs shift down one place.
    pub fn delete_job(&mut self, idx: usize) -> (r: Result<(), ValidationError>)
        requires
            old(self).wf(),
        ensures
            final(self).wf(),
            final(self).logs == old(self).logs,
            match r {
                Ok(()) => idx < old(self).jobs@.len() && jobs_model(final(self).jobs@)
                    == jobs_model(old(self).jobs@).remove(idx as int),
                Err(e) => e == ValidationError::NoSuchJob && idx >= old(self).jobs@.len() && final(self).jobs@ == old(self).jobs@,
            },
    {
        if idx >= self.jobs.len() {
            return Err(ValidationError::NoSuchJob);
        }
        self.jobs.remove(idx);
        proof {
            let oldm = jobs_model(old(self).jobs@);
            assert(jobs_model(self.jobs@) =~= oldm.remove(idx as int));
            assert forall|i: int| 0 <= i < jobs_model(self.jobs@).len() implies wf_job(
                #[trigger] jobs_model(self.jobs@)[i],
            ) by {
                if i < idx {
                    assert(jobs_model(self.jobs@)[i] == oldm[i]);
                } else {
                    assert(jobs_model(self.jobs@)[i] == oldm[i + 1]);
                }
            }
        }
        Ok(())
    }

    /// A manual run request: bypasses due-ness but is refused while the
    /// job is already running.
    pub fn run_now(&mut self, idx: usize) -> (r: Result<(), RunRefusal>)
        requires
            old(self).wf(),
        ensures
            final(self).wf(),
            final(self).logs == old(self).logs,
            match r {
                Ok(()) => idx < old(self).jobs@.len() && !old(self).jobs@[idx as int]@.running
                    && jobs_model(final(self).jobs@) == jobs_model(old(self).jobs@).update(
                    idx as int,
                    JobV { running: true, ..old(self).jobs@[idx as int]@ },
                ),
                Err(RunRefusal::NoSuchJob) => idx >= old(self).jobs@.len() && final(self).jobs@
                    == old(self).jobs@,
                Err(RunRefusal::AlreadyRunning) => idx < old(self).jobs@.len() && old(self).jobs@[idx as int]@.running && final(self).jobs@ == old(self).jobs@,
            },
    {
        if idx >= self.jobs.len() {
            return Err(RunRefusal::NoSuchJob);
        }
        if self.jobs[idx].running {
            return Err(RunRefusal::AlreadyRunning);
        }
        self.jobs[idx].running = true;
        proof {
            let oldm = jobs_model(old(self).jobs@);
            assert(jobs_model(self.jobs@) =~= oldm.update(
                idx as int,
                JobV { running: true, ..old(self).jobs@[idx as int]@ },
            ));
            assert forall|i: int| 0 <= i < jobs_model(self.jobs@).len() implies wf_job(
                #[trigger] jobs_model(self.jobs@)[i],
            ) by {
                assert(wf_job(oldm[i]));
            }
        }
        Ok(())
    }

    /// One evaluation tick: every due job is marked running, and the
    /// ascending list of their indices — the launch list — is returned.
    /// In-flight jobs are skipped, so no index repeats and no running
    /// job is launched again.
    pub fn tick(&mut self, now: i64) -> (launched: Vec<usize>)
        requires
            old(self).wf(),
        ensures
            final(self).wf(),
            final(self).logs == old(self).logs,
            jobs_model(final(self).jobs@) == tick_jobs(jobs_model(old(self).jobs@), now),
            forall|k: int| 0 <= k < launched@.len() ==> (launched@[k] as int) < old(self).jobs@.len(),
            forall|k1: int, k2: int|
                0 <= k1 < k2 < launched@.len() ==> launched@[k1] < launched@[k2],
            forall|i: int|
                0 <= i < old(self).jobs@.len() ==> (seq_has_index(launched@, i) <==> job_due_spec(
                    #[trigger] jobs_model(old(self).jobs@)[i],
                    now,
                )),
    {
        let mut launched: Vec<usize> = Vec::new();
        let n = self.jobs.len();
        let mut i: usize = 0;
        while i < n
            invariant
                i <= n,
                n == self.jobs@.len(),
                n == old(self).jobs@.len(),
                self.logs == old(self).logs,
                forall|k: int|
                    0 <= k < i ==> jobs_model(self.jobs@)[k] == tick_job(
                        #[trigger] jobs_model(old(self).jobs@)[k],
                        now,
                    ),
                forall|k: int| i <= k < n ==> self.jobs@[k] == #[trigger] old(self).jobs@[k],
                forall|k: int| 0 <= k < launched@.len() ==> (launched@[k] as int) < i,
                forall|k1: int, k2: int|
                    0 <= k1 < k2 < launched@.len() ==> launched@[k1] < launched@[k2],
                forall|j: int|
                    0 <= j < i ==> (seq_has_index(launched@, j) <==> job_due_spec(
                        #[trigger] jobs_model(old(self).jobs@)[j],
                        now,
                    )),
            decreases n - i,
        {
            let due = job_is_due(&self.jobs[i], now);
            if due {
                self.jobs[i].running = true;
                let ghost prevl = launched@;
                launched.push(i);
                proof {
                    assert forall|j: int| 0 <= j < i + 1 implies (seq_has_index(launched@, j)
                        <==> job_due_spec(#[trigger] jobs_model(old(self).jobs@)[j], now)) by {
                        if j < i {
                            if seq_has_index(prevl, j) {
                                let k = choose|k: int|
                                    0 <= k < prevl.len() && prevl[k] == j;
                                assert(launched@[k] == j);
                            }
                            if seq_has_index(launched@, j) {
                                let k = choose|k: int|
                                    0 <= k < launched@.len() && launched@[k] == j;
                                assert(k < prevl.len());
                            }
                        } else {
                            assert(launched@[launched@.len() - 1] == i);
                        }
                    }
                }
            } else {
                proof {
                    assert forall|j: int| 0 <= j < i + 1 implies (seq_has_index(launched@, j)
                        <==> job_due_spec(#[trigger] jobs_model(old(self).jobs@)[j], now)) by {}
                }
            }
            i = i + 1;
        }
        proof {
            assert(jobs_model(self.jobs@) =~= tick_jobs(jobs_model(old(self).jobs@), now));
            assert forall|k: int| 0 <= k < jobs_model(self.jobs@).len() implies wf_job(
                #[trigger] jobs_model(self.jobs@)[k],
            ) by {
                assert(wf_job(jobs_model(old(self).jobs@)[k]));
            }
        }
        launched
    }

    /// Apply one event from an execution unit: a log line is appended
    /// to the visible log; a completion clears the running flag, stamps
    /// the completion time, and logs the outcome.
    pub fn handle_event(&mut self, ev: Event, now: i64, stamp: &str)
        requires
            old(self).wf(),
        ensures
            final(self).wf(),
            match ev {
                Event::Log(msg) => final(self).jobs@ == old(self).jobs@ && final(self).logs@.map_values(|l: String| l@) == old(self).logs@.map_values(
                    |l: String| l@,
                ).push(log_line_spec(stamp@, msg@)),
                Event::RunCompleted(idx, ok) => {
                    &&& final(self).logs@.map_values(|l: String| l@) == old(self).logs@.map_values(|l: String| l@).push(
                        log_line_spec(
                            stamp@,
                            if ok {
                                "Backup completed"@
                            } else {
                                "Backup failed"@
                            },
                        ),
                    )
                    &&& (idx as int) < old(self).jobs@.len() ==> jobs_model(final(self).jobs@)
                        == jobs_model(old(self).jobs@).update(
                        idx as int,
                        complete_job(jobs_model(old(self).jobs@)[idx as int], now),
                    )
                    &&& (idx as int) >= old(self).jobs@.len() ==> final(self).jobs@ == old(self).jobs@
                },
            },
    {
        match ev {
            Event::Log(msg) => {
                self.log_message(stamp, msg.as_str());
            },
            Event::RunCompleted(idx, ok) => {
                if idx < self.jobs.len() {
                    self.jobs[idx].running = false;
                    self.jobs[idx].last_run_at = now;
                    proof {
                        let oldm = jobs_model(old(self).jobs@);
                        assert(jobs_model(self.jobs@) =~= oldm.update(
                            idx as int,
                            complete_job(oldm[idx as int], now),
                        ));
                        assert forall|i: int| 0 <= i < jobs_model(self.jobs@).len() implies wf_job(
                            #[trigger] jobs_model(self.jobs@)[i],
                        ) by {
                            assert(wf_job(oldm[i]));
                        }
                    }
                }
                if ok {
                    self.log_message(stamp, "Backup completed");
                } else {
                    self.log_message(stamp, "Backup failed");
                }
            },
        }
    }
}

/// A nonempty trimmed string was nonempty to begin with.
pub proof fn lemma_trimmed_nonempty(s: Seq<char>)
    ensures
        trim_spec(s).len() > 0 ==> s.len() > 0,
{
    if s.len() == 0 {
        assert(trim_spec(s).len() == 0);
    }
}

/// Law: a job is never launched before its period has elapsed since
/// its last completed run, and a tick at or past that point launches
/// it, provided it is idle.
pub proof fn lemma_schedule_window(j: JobV, now: i64)
    ensures
        now - j.last_run < j.period as int * 3600 ==> !job_due_spec(j, now),
        !j.running && now - j.last_run >= j.period as int * 3600 ==> job_due_spec(j, now)
            && tick_job(j, now).running,
{
}

/// Law: at most one execution unit per job. A running job is never due
/// — neither a tick nor a manual request launches it — and the launch
/// itself marks the job running, so no later tick can launch it again
/// before its completion event clears the flag.
pub proof fn lemma_at_most_one_in_flight(j: JobV, now: i64, later: i64)
    ensures
        j.running ==> !job_due_spec(j, now),
        job_due_spec(j, now) ==> !job_due_spec(tick_job(j, now), later),
{
}

} // verus!
