//! The job model: one recurring backup definition and its invariants.
use vstd::prelude::*;

verus! {

use vstd::string::StrSliceExecFns;
use crate::filter::{views_of, wf_ext_tokens, wf_folder_tokens};
use crate::text::is_space_exec;

/// The mathematical model of a job.
pub ghost struct JobV {
    pub source: Seq<char>,
    pub dest: Seq<char>,
    pub period: u32,
    pub exts: Seq<Seq<char>>,
    pub folders: Seq<Seq<char>>,
    pub archive: bool,
    pub last_run: i64,
    pub running: bool,
}

/// One recurring backup definition.
pub struct Job {
    /// Where the mirrored tree is read from; must exist when the job
    /// is created or edited.
    pub source_path: String,
    /// Where the mirror is written; created when absent.
    pub dest_path: String,
    /// Hours between runs, at least one.
    pub period_hours: u32,
    /// Normalized extension tokens whose files the copy skips.
    pub skip_extensions: Vec<String>,
    /// Normalized folder-name tokens whose subtrees the copy skips.
    pub skip_folders: Vec<String>,
    /// Whether an archive step follows the copy.
    pub archive_enabled: bool,
    /// When the last run completed (seconds); starts at creation time.
    pub last_run_at: i64,
    /// Whether an execution unit for this job is in flight; transient,
    /// never persisted as true.
    pub running: bool,
}

impl View for Job {
    type V = JobV;

    open spec fn view(&self) -> JobV {
        JobV {
            source: self.source_path@,
            dest: self.dest_path@,
            period: self.period_hours,
            exts: views_of(self.skip_extensions@),
            folders: views_of(self.skip_folders@),
            archive: self.archive_enabled,
            last_run: self.last_run_at,
            running: self.running,
        }
    }
}

/// Text that can stand in one field of a persisted record: free of the
/// field separator and of line breaks.
pub open spec fn record_text_ok(s: Seq<char>) -> bool {
    forall|k: int| 0 <= k < s.len() ==> #[trigger] s[k] != ',' && s[k] != '\n' && s[k] != '\r'
}

/// A stored path: nonempty record text.
pub open spec fn wf_path(s: Seq<char>) -> bool {
    s.len() > 0 && record_text_ok(s)
}

/// The job invariant: distinct source and destination, a positive
/// period, and well-formed, duplicate-free skip sets.
pub open spec fn wf_job(j: JobV) -> bool {
    &&& wf_path(j.source)
    &&& wf_path(j.dest)
    &&& j.source != j.dest
    &&& j.period >= 1
    &&& wf_ext_tokens(j.exts)
    &&& wf_folder_tokens(j.folders)
}

/// Whether this text may stand in a persisted field.
pub fn record_text_ok_exec(s: &str) -> (r: bool)
    ensures
        r == record_text_ok(s@),
{
    let n: usize = s.unicode_len();
    let mut i: usize = 0;
    while i < n
        invariant
            i <= n,
            n == s@.len(),
            forall|k: int| 0 <= k < i ==> #[trigger] s@[k] != ',' && s@[k] != '\n' && s@[k] != '\r',
        decreases n - i,
    {
        let c = s.get_char(i);
        if c == ',' || c == '\n' || c == '\r' {
            return false;
        }
        i = i + 1;
    }
    true
}

/// Whether the string is all whitespace.
pub fn is_blank(s: &str) -> (r: bool)
    ensures
        r == (crate::text::trim_spec(s@).len() == 0),
{
    let t = crate::text::trim(s);
    t.as_str().unicode_len() == 0
}

/// Copy a token list; the views are preserved.
pub fn clone_tokens(v: &Vec<String>) -> (r: Vec<String>)
    ensures
        views_of(r@) == views_of(v@),
{
    let mut r: Vec<String> = Vec::new();
    let mut i: usize = 0;
    while i < v.len()
        invariant
            i <= v@.len(),
            views_of(r@) == views_of(v@).take(i as int),
        decreases v@.len() - i,
    {
        let ghost prev = views_of(r@);
        r.push(v[i].clone());
        proof {
            assert(views_of(r@) =~= prev.push(r@.last()@));
            assert(views_of(r@) =~= views_of(v@).take(i + 1));
        }
        i = i + 1;
    }
    proof {
        assert(views_of(v@).take(v@.len() as int) =~= views_of(v@));
    }
    r
}

impl Job {
    /// The configuration copy handed to an execution unit at launch, so
    /// that later edits do not affect the in-flight run.
    pub fn snapshot(&self) -> (r: Job)
        ensures
            r@ == self@,
    {
        let r = Job {
            source_path: self.source_path.clone(),
            dest_path: self.dest_path.clone(),
            period_hours: self.period_hours,
            skip_extensions: clone_tokens(&self.skip_extensions),
            skip_folders: clone_tokens(&self.skip_folders),
            archive_enabled: self.archive_enabled,
            last_run_at: self.last_run_at,
            running: self.running,
        };
        r
    }
}

} // verus!
