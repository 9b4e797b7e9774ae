//! The OCR batch job: starting it, cancelling it, and the worker that runs
//! OCR over the images one by one, as a state machine whose steps the
//! service performs under its lock.

use vstd::prelude::*;
use crate::text::{
    chars_of, copy_opt_string, copy_string, decimal, decimal_chars, opt_view, push_chars,
    push_str, string_from_chars,
};

verus! {

/// Where a batch job stands.
#[derive(Debug, PartialEq, Eq, Clone, Copy, Structural)]
pub enum JobStatus {
    Idle,
    Running,
    Done,
}

/// The OCR outcome for one image.
#[derive(Debug)]
pub struct OcrResult {
    pub filename: String,
    /// The reply text of the OCR service, or an error description.
    pub raw: String,
    pub extracted_date: Option<String>,
}

/// The mathematical content of an `OcrResult`.
pub struct OcrResultView {
    pub filename: Seq<char>,
    pub raw: Seq<char>,
    pub extracted_date: Option<Seq<char>>,
}

impl View for OcrResult {
    type V = OcrResultView;

    open spec fn view(&self) -> OcrResultView {
        OcrResultView { filename: self.filename@, raw: self.raw@, extracted_date: opt_view(self.extracted_date) }
    }
}

impl OcrResult {
    /// A copy of this result.
    pub fn duplicate(&self) -> (r: OcrResult)
        ensures
            r@ == self@,
    {
        OcrResult {
            filename: copy_string(&self.filename),
            raw: copy_string(&self.raw),
            extracted_date: copy_opt_string(&self.extracted_date),
        }
    }
}

/// The views of a vector of results.
pub open spec fn results_view(v: Seq<OcrResult>) -> Seq<OcrResultView> {
    v.map_values(|r: OcrResult| r@)
}

/// A copy of a vector of results.
pub fn copy_results(v: &Vec<OcrResult>) -> (r: Vec<OcrResult>)
    ensures
        results_view(r@) == results_view(v@),
{
    let mut out: Vec<OcrResult> = Vec::new();
    let mut i: usize = 0;
    while i < v.len()
        invariant
            i <= v@.len(),
            results_view(out@) == results_view(v@).take(i as int),
        decreases v@.len() - i,
    {
        let ghost before = out@;
        let x = v[i].duplicate();
        out.push(x);
        assert(results_view(out@) =~= results_view(before).push(x@));
        i = i + 1;
        assert(results_view(out@) =~= results_view(v@).take(i as int));
    }
    assert(results_view(v@).take(v@.len() as int) =~= results_view(v@));
    out
}

/// How many results found no date.
pub open spec fn failed_count(s: Seq<OcrResultView>) -> nat {
    s.filter(|r: OcrResultView| r.extracted_date is None).len()
}

/// The state of the current (or last) batch job. Times are nanoseconds
/// since the Unix epoch.
#[derive(Debug)]
pub struct OcrJobState {
    pub id: Option<String>,
    pub status: JobStatus,
    pub total: usize,
    pub done: usize,
    pub failed: usize,
    pub current: Option<String>,
    pub message: String,
    pub cancelled: bool,
    pub started_at: Option<u128>,
    pub finished_at: Option<u128>,
    pub results: Vec<OcrResult>,
}

/// The mathematical content of an `OcrJobState`.
pub struct JobView {
    pub id: Option<Seq<char>>,
    pub status: JobStatus,
    pub total: usize,
    pub done: usize,
    pub failed: usize,
    pub current: Option<Seq<char>>,
    pub message: Seq<char>,
    pub cancelled: bool,
    pub started_at: Option<u128>,
    pub finished_at: Option<u128>,
    pub results: Seq<OcrResultView>,
}

impl View for OcrJobState {
    type V = JobView;

    open spec fn view(&self) -> JobView {
        JobView {
            id: opt_view(self.id),
            status: self.status,
            total: self.total,
            done: self.done,
            failed: self.failed,
            current: opt_view(self.current),
            message: self.message@,
            cancelled: self.cancelled,
            started_at: self.started_at,
            finished_at: self.finished_at,
            results: results_view(self.results@),
        }
    }
}

/// The state before any job has run.
pub open spec fn idle_job() -> JobView {
    JobView {
        id: None,
        status: JobStatus::Idle,
        total: 0,
        done: 0,
        failed: 0,
        current: None,
        message: Seq::empty(),
        cancelled: false,
        started_at: None,
        finished_at: None,
        results: Seq::empty(),
    }
}

impl Default for OcrJobState {
    fn default() -> (r: OcrJobState)
        ensures
            r@ == idle_job(),
    {
        let r = OcrJobState {
            id: None,
            status: JobStatus::Idle,
            total: 0,
            done: 0,
            failed: 0,
            current: None,
            message: String::new(),
            cancelled: false,
            started_at: None,
            finished_at: None,
            results: Vec::new(),
        };
        assert(r@.results =~= Seq::<OcrResultView>::empty());
        r
    }
}

/// Why a job request was refused.
#[derive(Debug, PartialEq, Eq, Clone, Copy, Structural)]
pub enum JobError {
    /// None of the requested images exists.
    NoValidImages,
    /// A job is running already.
    AlreadyRunning,
    /// There is no running job to cancel.
    NotRunning,
}

/// The message sent back with each refusal.
pub open spec fn job_error_message(e: JobError) -> Seq<char> {
    match e {
        JobError::NoValidImages => "No valid images provided"@,
        JobError::AlreadyRunning => "An OCR job is already running"@,
        JobError::NotRunning => "No OCR job is running"@,
    }
}

impl JobError {
    /// The HTTP status of this refusal: 400 for a request without images,
    /// 409 when the job's state does not allow it.
    pub fn http_status(&self) -> (r: u16)
        ensures
            r == (if *self == JobError::NoValidImages { 400u16 } else { 409u16 }),
    {
        match self {
            JobError::NoValidImages => 400,
            _ => 409,
        }
    }

    /// The message sent back with this refusal.
    pub fn message(&self) -> (r: &'static str)
        ensures
            r@ == job_error_message(*self),
    {
        match self {
            JobError::NoValidImages => "No valid images provided",
            JobError::AlreadyRunning => "An OCR job is already running",
            JobError::NotRunning => "No OCR job is running",
        }
    }
}

/// What a started job reports.
#[derive(Debug)]
pub struct JobStart {
    pub job_id: String,
    pub total: usize,
}

/// The state of a job that has just started.
pub open spec fn started_job(id: Seq<char>, total: usize, now: u128) -> JobView {
    JobView {
        id: Some(id),
        status: JobStatus::Running,
        total,
        done: 0,
        failed: 0,
        current: None,
        message: "Starting OCR batch..."@,
        cancelled: false,
        started_at: Some(now),
        finished_at: None,
        results: Seq::empty(),
    }
}

/// A fresh random job id: `uuid::Uuid::new_v4()` in its hyphenated text
/// form. Only the shape of that form is stated (36 characters with `-` at
/// positions 8, 13, 18 and 23); the value is random.
#[verifier::external_body]
fn new_job_id() -> (r: String)
    ensures
        r@.len() == 36,
        r@[8] == '-' && r@[13] == '-' && r@[18] == '-' && r@[23] == '-',
{
    uuid::Uuid::new_v4().to_string()
}

/// Starts a job over `total` images under the given id at time `now`,
/// unless one is running; a running job is left as it is.
pub fn start_job_with_id(job: &mut OcrJobState, id: String, total: usize, now: u128) -> (r: Result<JobStart, JobError>)
    ensures
        old(job)@.status == JobStatus::Running ==> r == Err::<JobStart, JobError>(JobError::AlreadyRunning)
            && final(job)@ == old(job)@,
        old(job)@.status != JobStatus::Running ==> r is Ok && r->Ok_0.job_id@ == id@ && r->Ok_0.total == total
            && final(job)@ == started_job(id@, total, now),
{
    if job.status == JobStatus::Running {
        return Err(JobError::AlreadyRunning);
    }
    let job_id = copy_string(&id);
    *job = OcrJobState {
        id: Some(id),
        status: JobStatus::Running,
        total,
        done: 0,
        failed: 0,
        current: None,
        message: String::from_str("Starting OCR batch..."),
        cancelled: false,
        started_at: Some(now),
        finished_at: None,
        results: Vec::new(),
    };
    assert(job@.results =~= Seq::<OcrResultView>::empty());
    Ok(JobStart { job_id, total })
}

/// Starts a batch job over the given images (those of the request that
/// exist), with a fresh random id, at time `now`. Refused when the list is
/// empty, or when a job is running; a refusal changes nothing.
pub fn start_ocr_job(job: &mut OcrJobState, filenames: &Vec<String>, now: u128) -> (r: Result<JobStart, JobError>)
    ensures
        filenames@.len() == 0 ==> r == Err::<JobStart, JobError>(JobError::NoValidImages)
            && final(job)@ == old(job)@,
        filenames@.len() > 0 && old(job)@.status == JobStatus::Running ==> r == Err::<JobStart, JobError>(JobError::AlreadyRunning)
            && final(job)@ == old(job)@,
        filenames@.len() > 0 && old(job)@.status != JobStatus::Running ==> r is Ok
            && r->Ok_0.total == filenames@.len() && r->Ok_0.job_id@.len() == 36
            && final(job)@ == started_job(r->Ok_0.job_id@, filenames@.len() as usize, now),
{
    if filenames.len() == 0 {
        return Err(JobError::NoValidImages);
    }
    let id = new_job_id();
    start_job_with_id(job, id, filenames.len(), now)
}

/// Asks the running job to stop after the image it is working on.
pub fn cancel_ocr_job(job: &mut OcrJobState) -> (r: Result<(), JobError>)
    ensures
        old(job)@.status != JobStatus::Running ==> r == Err::<(), JobError>(JobError::NotRunning)
            && final(job)@ == old(job)@,
        old(job)@.status == JobStatus::Running ==> r is Ok
            && final(job)@ == (JobView { cancelled: true, ..old(job)@ }),
{
    if job.status != JobStatus::Running {
        return Err(JobError::NotRunning);
    }
    job.cancelled = true;
    Ok(())
}

// ---------------------------------------------------------------------------
// The worker
// ---------------------------------------------------------------------------

/// The progress message shown while image `index` (counting from 0) of
/// `total` is read.
pub open spec fn progress_message(index: nat, total: nat, name: Seq<char>) -> Seq<char> {
    "OCR "@ + decimal(index + 1) + seq!['/'] + decimal(total) + ": "@ + name
}

/// The message shown when a job has gone through all its images.
pub open spec fn complete_message(total: nat) -> Seq<char> {
    "OCR complete: "@ + decimal(total) + " files processed."@
}

/// The worker that runs a job's images in order.
#[derive(Debug)]
pub struct OcrWorker {
    pub filenames: Vec<String>,
    /// How many images have been read.
    pub next: usize,
    pub results: Vec<OcrResult>,
    /// Whether the worker has stopped.
    pub stopped: bool,
}

/// What the worker asks for next.
#[derive(Debug)]
pub enum WorkerStep {
    /// Run OCR on this image and report back with `record`.
    Read(String),
    /// Every image was read and the job is done.
    Stop,
    /// The job was cancelled. The worker goes no further, and the job is
    /// left as it was: still running, marked cancelled, with no finish
    /// time. The service keeps its read lock while it waits for the write
    /// lock that would record the cancellation, so that wait never ends.
    Blocked,
}

/// Whether a worker and the job state agree: the job counts the worker's
/// results, and how many of them found no date.
pub open spec fn worker_agrees(w: OcrWorker, j: JobView) -> bool {
    &&& w.next <= w.filenames@.len()
    &&& j.total == w.filenames@.len()
    &&& w.results@.len() == w.next
    &&& j.done == w.next
    &&& j.results == results_view(w.results@)
    &&& j.failed == failed_count(j.results)
}

impl OcrWorker {
    /// A worker over the images of a job that has just started.
    pub fn new(filenames: Vec<String>) -> (r: OcrWorker)
        ensures
            r.filenames@ == filenames@,
            r.next == 0,
            r.results@.len() == 0,
            !r.stopped,
    {
        OcrWorker { filenames, next: 0, results: Vec::new(), stopped: false }
    }

    /// The next step of the job: block if it was cancelled before an image
    /// (leaving the job as it is), stop if every image was read (marking it
    /// done), or else announce the next image and ask for it to be read.
    pub fn next_step(&mut self, job: &mut OcrJobState, now: u128) -> (r: WorkerStep)
        requires
            !old(self).stopped,
            old(self).next <= old(self).filenames@.len(),
        ensures
            final(self).filenames@ == old(self).filenames@,
            final(self).next == old(self).next,
            results_view(final(self).results@) == results_view(old(self).results@),
            old(self).next < old(self).filenames@.len() && old(job)@.cancelled ==> {
                &&& r is Blocked
                &&& final(self).stopped
                &&& final(job)@ == old(job)@
            },
            old(self).next < old(self).filenames@.len() && !old(job)@.cancelled ==> {
                let name = old(self).filenames@[old(self).next as int]@;
                &&& r matches WorkerStep::Read(f) && f@ == name
                &&& !final(self).stopped
                &&& final(job)@ == (JobView {
                    current: Some(name),
                    message: progress_message(old(self).next as nat, old(self).filenames@.len(), name),
                    ..old(job)@
                })
            },
            old(self).next == old(self).filenames@.len() ==> {
                &&& r is Stop
                &&& final(self).stopped
                &&& final(job)@ == (JobView {
                    status: JobStatus::Done,
                    current: None,
                    message: complete_message(old(self).filenames@.len()),
                    finished_at: Some(now),
                    results: results_view(old(self).results@),
                    ..old(job)@
                })
            },
    {
        let total = self.filenames.len();
        if self.next < total {
            if job.cancelled {
                self.stopped = true;
                return WorkerStep::Blocked;
            }
            let name = copy_string(&self.filenames[self.next]);
            let mut msg = chars_of("OCR ");
            let a = decimal_chars((self.next + 1) as u64);
            push_chars(&mut msg, &a);
            msg.push('/');
            let b = decimal_chars(total as u64);
            push_chars(&mut msg, &b);
            push_str(&mut msg, ": ");
            push_str(&mut msg, name.as_str());
            assert(msg@ =~= progress_message(self.next as nat, total as nat, name@));
            job.current = Some(copy_string(&name));
            job.message = string_from_chars(&msg);
            WorkerStep::Read(name)
        } else {
            let mut msg = chars_of("OCR complete: ");
            let b = decimal_chars(total as u64);
            push_chars(&mut msg, &b);
            push_str(&mut msg, " files processed.");
            assert(msg@ =~= complete_message(total as nat));
            job.status = JobStatus::Done;
            job.current = None;
            job.message = string_from_chars(&msg);
            job.finished_at = Some(now);
            job.results = copy_results(&self.results);
            self.stopped = true;
            WorkerStep::Stop
        }
    }

    /// Records the OCR outcome for the image the worker asked for: the
    /// result is appended, and the job's done and failed counts and result
    /// list follow.
    pub fn record(&mut self, job: &mut OcrJobState, raw: String, extracted_date: Option<String>)
        requires
            !old(self).stopped,
            old(self).next < old(self).filenames.len(),
        ensures
            final(self).filenames@ == old(self).filenames@,
            final(self).next == old(self).next + 1,
            !final(self).stopped,
            results_view(final(self).results@) == results_view(old(self).results@).push(OcrResultView {
                filename: old(self).filenames@[old(self).next as int]@,
                raw: raw@,
                extracted_date: opt_view(extracted_date),
            }),
            final(job)@ == (JobView {
                done: (old(self).next + 1) as usize,
                failed: failed_count(results_view(final(self).results@)) as usize,
                results: results_view(final(self).results@),
                ..old(job)@
            }),
    {
        let ghost before = results_view(self.results@);
        let ghost pred = |r: OcrResultView| r.extracted_date is None;
        let result = OcrResult {
            filename: copy_string(&self.filenames[self.next]),
            raw,
            extracted_date,
        };
        self.results.push(result);
        self.next = self.next + 1;
        assert(results_view(self.results@) =~= before.push(self.results@[self.results@.len() - 1]@));
        // count the results without a date
        let ghost all = results_view(self.results@);
        let mut failed: usize = 0;
        let mut i: usize = 0;
        while i < self.results.len()
            invariant
                i <= self.results@.len(),
                all == results_view(self.results@),
                pred == (|r: OcrResultView| r.extracted_date is None),
                failed == all.take(i as int).filter(pred).len(),
                failed <= i,
            decreases self.results@.len() - i,
        {
            reveal(Seq::filter);
            assert(all.take(i + 1).drop_last() =~= all.take(i as int));
            assert(all.take(i + 1).last() == self.results@[i as int]@);
            if self.results[i].extracted_date.is_none() {
                failed = failed + 1;
            }
            i = i + 1;
        }
        assert(all.take(all.len() as int) =~= all);
        job.done = self.next;
        job.failed = failed;
        job.results = copy_results(&self.results);
    }
}

/// How many results found no date: none of no results, and recording a
/// result adds one exactly when it has no extracted date, whatever its raw
/// text.
pub proof fn lemma_failed_count_steps(s: Seq<OcrResultView>, r: OcrResultView)
    ensures
        failed_count(Seq::<OcrResultView>::empty()) == 0,
        failed_count(s.push(r)) == failed_count(s) + (if r.extracted_date is None { 1nat } else { 0nat }),
{
    reveal(Seq::filter);
    assert(s.push(r).drop_last() =~= s);
}

/// Every step of the worker on a running job keeps the job state in
/// agreement with it, and a job that ends as done has read all its images.
pub proof fn lemma_worker_steps_agree(w: OcrWorker, j: JobView, w2: OcrWorker, j2: JobView, now: u128)
    requires
        worker_agrees(w, j),
        j.status == JobStatus::Running,
        w2.filenames@ == w.filenames@,
        w2.next == w.next,
        results_view(w2.results@) == results_view(w.results@),
        // any of the outcomes `next_step` allows
        (w.next < w.filenames@.len() && j.cancelled && j2 == j) || (w.next < w.filenames@.len() && !j.cancelled && j2 == (JobView {
            current: Some(w.filenames@[w.next as int]@),
            message: progress_message(w.next as nat, w.filenames@.len(), w.filenames@[w.next as int]@),
            ..j
        })) || (w.next == w.filenames@.len() && j2 == (JobView {
            status: JobStatus::Done,
            current: None,
            message: complete_message(w.filenames@.len()),
            finished_at: Some(now),
            results: results_view(w.results@),
            ..j
        })),
    ensures
        worker_agrees(w2, j2),
        j2.status == JobStatus::Done ==> j2.done == j2.total,
{
    assert(w2.results@.len() == results_view(w2.results@).len());
}

/// Recording a result keeps the job state in agreement with the worker.
pub proof fn lemma_record_agrees(w: OcrWorker, j: JobView, w2: OcrWorker, j2: JobView, r: OcrResultView)
    requires
        worker_agrees(w, j),
        w.next < w.filenames@.len(),
        w2.filenames@ == w.filenames@,
        w2.next == w.next + 1,
        results_view(w2.results@) == results_view(w.results@).push(r),
        j2 == (JobView {
            done: (w.next + 1) as usize,
            failed: failed_count(results_view(w2.results@)) as usize,
            results: results_view(w2.results@),
            ..j
        }),
    ensures
        worker_agrees(w2, j2),
        j2.done <= j2.total,
        j2.failed <= j2.done,
{
    assert(w2.results@.len() == results_view(w2.results@).len());
    let pred = |x: OcrResultView| x.extracted_date is None;
    results_view(w2.results@).lemma_filter_len(pred);
}

} // verus!
