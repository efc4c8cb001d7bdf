//! The table of jobs: one worker takes them in turn, listeners follow them, the finished ones leave.

use crate::json::Doc;
use crate::json::Json;
use crate::models;
use crate::text;
use vstd::prelude::*;

verus! {

/// How far a job is.
#[derive(Clone, Copy, Debug, PartialEq, Eq, Structural)]
pub enum JobStatus {
    Queued,
    Running,
    Done,
    Error,
}

/// A job; `R` is what it gives when it is done.
#[derive(Debug)]
pub struct Job<R> {
    pub status: JobStatus,
    pub result: Option<R>,
    pub error: Option<String>,
    /// Nobody waits for it any more.
    pub abandoned: bool,
    /// Somebody waits for what it gives.
    pub awaited: bool,
}

/// A job, as a value.
pub struct JobModel<R> {
    pub status: JobStatus,
    pub result: Option<R>,
    pub error: Option<Seq<char>>,
    pub abandoned: bool,
    pub awaited: bool,
}

pub open spec fn opt(s: Option<String>) -> Option<Seq<char>> {
    match s {
        Some(t) => Some(t@),
        None => None,
    }
}

impl<R> View for Job<R> {
    type V = JobModel<R>;

    open spec fn view(&self) -> JobModel<R> {
        JobModel {
            status: self.status,
            result: self.result,
            error: opt(self.error),
            abandoned: self.abandoned,
            awaited: self.awaited,
        }
    }
}

/// The jobs by their names.
#[derive(Debug)]
pub struct JobTable<R> {
    jobs: Vec<(String, Job<R>)>,
}

pub open spec fn at<R>(jobs: Seq<(String, Job<R>)>, id: Seq<char>, i: int) -> bool {
    0 <= i < jobs.len() && jobs[i].0@ == id
}

impl<R> View for JobTable<R> {
    type V = Map<Seq<char>, JobModel<R>>;

    closed spec fn view(&self) -> Map<Seq<char>, JobModel<R>> {
        Map::new(
            |id: Seq<char>| exists|i: int| #[trigger] at(self.jobs@, id, i),
            |id: Seq<char>| self.jobs@[choose|i: int| #[trigger] at(self.jobs@, id, i)].1@,
        )
    }
}

/// What the worker does with the next job of the queue.
#[derive(Clone, Copy, Debug, PartialEq, Eq, Structural)]
pub enum Turn {
    Skip,
    Run,
}

/// A job that waits for its turn.
pub open spec fn fresh<R>(awaited: bool) -> JobModel<R> {
    JobModel { status: JobStatus::Queued, result: None, error: None, abandoned: false, awaited }
}

pub open spec fn ended(s: JobStatus) -> bool {
    s == JobStatus::Done || s == JobStatus::Error
}

/// The job after the worker has taken it.
pub open spec fn running<R>(j: JobModel<R>) -> JobModel<R> {
    JobModel { status: JobStatus::Running, ..j }
}

/// The job after it has ended; nobody waits for it any more.
pub open spec fn finished<R>(j: JobModel<R>, outcome: Result<R, Seq<char>>) -> JobModel<R> {
    match outcome {
        Ok(v) => JobModel {
            status: JobStatus::Done,
            result: Some(v),
            awaited: false,
            ..j
        },
        Err(e) => JobModel {
            status: JobStatus::Error,
            error: Some(e),
            awaited: false,
            ..j
        },
    }
}

pub open spec fn told<R>(r: Result<R, String>) -> Result<R, Seq<char>> {
    match r {
        Ok(v) => Ok(v),
        Err(e) => Err(e@),
    }
}

/// What a follower who comes late is told at once.
pub open spec fn snapshot<R>(j: JobModel<R>) -> Option<Result<Option<R>, Seq<char>>> {
    match j.status {
        JobStatus::Done => Some(Ok(j.result)),
        JobStatus::Error => Some(
            Err(
                match j.error {
                    Some(e) => e,
                    None => Seq::empty(),
                },
            ),
        ),
        _ => None,
    }
}

impl<R> JobTable<R> {
    /// No name occurs twice.
    pub closed spec fn wf(&self) -> bool {
        forall|i: int, j: int|
            0 <= i < j < self.jobs@.len() ==> (#[trigger] self.jobs@[i]).0@ != (
            #[trigger] self.jobs@[j]).0@
    }

    proof fn lemma_at(&self, i: int)
        requires
            self.wf(),
            0 <= i < self.jobs@.len(),
        ensures
            self@.dom().contains(self.jobs@[i].0@),
            self@[self.jobs@[i].0@] == self.jobs@[i].1@,
    {
        let id = self.jobs@[i].0@;
        assert(at(self.jobs@, id, i));
        let k = choose|k: int| #[trigger] at(self.jobs@, id, k);
        assert(at(self.jobs@, id, k));
        assert(k == i) by {
            if k < i {
                assert(self.jobs@[k].0@ != self.jobs@[i].0@);
            } else if i < k {
                assert(self.jobs@[i].0@ != self.jobs@[k].0@);
            }
        }
    }

    fn find(&self, id: &str) -> (r: Option<usize>)
        requires
            self.wf(),
        ensures
            match r {
                Some(i) => i < self.jobs@.len() && self.jobs@[i as int].0@ == id@
                    && self@.dom().contains(id@) && self@[id@] == self.jobs@[i as int].1@,
                None => !self@.dom().contains(id@) && forall|j: int|
                    0 <= j < self.jobs@.len() ==> (#[trigger] self.jobs@[j]).0@ != id@,
            },
    {
        for i in 0..self.jobs.len()
            invariant
                self.wf(),
                forall|j: int| 0 <= j < i ==> (#[trigger] self.jobs@[j]).0@ != id@,
        {
            if text::same(self.jobs[i].0.as_str(), id) {
                proof {
                    self.lemma_at(i as int);
                }
                return Some(i);
            }
        }
        proof {
            if self@.dom().contains(id@) {
                let k = choose|k: int| #[trigger] at(self.jobs@, id@, k);
                assert(at(self.jobs@, id@, k));
            }
        }
        None
    }

    /// No jobs.
    pub fn new() -> (r: Self)
        ensures
            r.wf(),
            r@ == Map::<Seq<char>, JobModel<R>>::empty(),
    {
        let r = JobTable { jobs: Vec::new() };
        assert(r@ =~= Map::<Seq<char>, JobModel<R>>::empty());
        r
    }

    /// The job at the place `i` is another one now.
    proof fn lemma_changed(was: Self, now: Self, i: int)
        requires
            was.wf(),
            0 <= i < was.jobs@.len(),
            now.jobs@.len() == was.jobs@.len(),
            now.jobs@[i].0@ == was.jobs@[i].0@,
            forall|j: int| 0 <= j < was.jobs@.len() && j != i ==> #[trigger] now.jobs@[j] == was.jobs@[j],
        ensures
            now.wf(),
            now@ == was@.insert(was.jobs@[i].0@, now.jobs@[i].1@),
    {
        let id = was.jobs@[i].0@;
        let want = was@.insert(id, now.jobs@[i].1@);
        assert(forall|j: int|
            0 <= j < now.jobs@.len() ==> (#[trigger] now.jobs@[j]).0@ == was.jobs@[j].0@);
        assert(now.wf());
        assert forall|x: Seq<char>| #[trigger] now@.dom().contains(x) == want.dom().contains(x) by {
            if now@.dom().contains(x) {
                let k = choose|k: int| #[trigger] at(now.jobs@, x, k);
                assert(at(now.jobs@, x, k));
                assert(at(was.jobs@, x, k));
            }
            if want.dom().contains(x) {
                if x == id {
                    assert(at(now.jobs@, x, i));
                } else {
                    let k = choose|k: int| #[trigger] at(was.jobs@, x, k);
                    assert(at(was.jobs@, x, k));
                    assert(at(now.jobs@, x, k));
                }
            }
        }
        assert forall|x: Seq<char>| #[trigger] now@.dom().contains(x) implies now@[x] == want[x] by {
            let k = choose|k: int| #[trigger] at(now.jobs@, x, k);
            assert(at(now.jobs@, x, k));
            now.lemma_at(k);
            was.lemma_at(k);
            if x == id {
                now.lemma_at(i);
                was.lemma_at(i);
                if k < i {
                    assert(was.jobs@[k].0@ != was.jobs@[i].0@);
                } else if i < k {
                    assert(was.jobs@[i].0@ != was.jobs@[k].0@);
                }
            }
        }
        assert(now@ =~= want);
    }

    /// A new job joins the table, in the place of one of the same name.
    pub fn enqueue(&mut self, id: &str, awaited: bool)
        requires
            old(self).wf(),
        ensures
            final(self).wf(),
            final(self)@ == old(self)@.insert(id@, fresh(awaited)),
    {
        let job = Job {
            status: JobStatus::Queued,
            result: None,
            error: None,
            abandoned: false,
            awaited,
        };
        match self.find(id) {
            Some(i) => {
                let ghost was = *self;
                self.jobs[i].1 = job;
                proof {
                    Self::lemma_changed(was, *self, i as int);
                }
            },
            None => {
                let ghost was = *self;
                self.jobs.push((id.to_owned(), job));
                let ghost now = *self;
                proof {
                    let n = was.jobs@.len() as int;
                    let want = was@.insert(id@, job@);
                    assert forall|i: int, j: int| 0 <= i < j < now.jobs@.len() implies (
                    #[trigger] now.jobs@[i]).0@ != (#[trigger] now.jobs@[j]).0@ by {
                        assert(now.jobs@[i] == was.jobs@[i]);
                        if j < n {
                            assert(now.jobs@[j] == was.jobs@[j]);
                        }
                    }
                    assert forall|x: Seq<char>| #[trigger] now@.dom().contains(x)
                        == want.dom().contains(x) by {
                        if now@.dom().contains(x) {
                            let k = choose|k: int| #[trigger] at(now.jobs@, x, k);
                            assert(at(now.jobs@, x, k));
                            if k < n {
                                assert(at(was.jobs@, x, k));
                            }
                        }
                        if want.dom().contains(x) {
                            if x == id@ {
                                assert(at(now.jobs@, x, n));
                            } else {
                                let k = choose|k: int| #[trigger] at(was.jobs@, x, k);
                                assert(at(was.jobs@, x, k));
                                assert(at(now.jobs@, x, k));
                            }
                        }
                    }
                    assert forall|x: Seq<char>| #[trigger] now@.dom().contains(x) implies now@[x]
                        == want[x] by {
                        let k = choose|k: int| #[trigger] at(now.jobs@, x, k);
                        assert(at(now.jobs@, x, k));
                        now.lemma_at(k);
                        if k < n {
                            was.lemma_at(k);
                        }
                    }
                    assert(now@ =~= want);
                }
            },
        }
    }

    /// The job leaves the table.
    pub fn remove(&mut self, id: &str)
        requires
            old(self).wf(),
        ensures
            final(self).wf(),
            final(self)@ == old(self)@.remove(id@),
    {
        let ghost was = *self;
        match self.find(id) {
            Some(i) => {
                let _gone = self.jobs.remove(i);
                let ghost now = *self;
                proof {
                    let want = was@.remove(id@);
                    let n = now.jobs@.len() as int;
                    assert(forall|j: int|
                        0 <= j < n ==> #[trigger] now.jobs@[j] == if j < i {
                            was.jobs@[j]
                        } else {
                            was.jobs@[j + 1]
                        });
                    assert forall|a: int, b: int| 0 <= a < b < n implies (#[trigger] now.jobs@[a]).0@
                        != (#[trigger] now.jobs@[b]).0@ by {
                        let a0 = if a < i {
                            a
                        } else {
                            a + 1
                        };
                        let b0 = if b < i {
                            b
                        } else {
                            b + 1
                        };
                        assert(was.jobs@[a0].0@ != was.jobs@[b0].0@);
                    }
                    assert forall|x: Seq<char>| #[trigger] now@.dom().contains(x)
                        == want.dom().contains(x) by {
                        if now@.dom().contains(x) {
                            let k = choose|k: int| #[trigger] at(now.jobs@, x, k);
                            assert(at(now.jobs@, x, k));
                            let k0 = if k < i {
                                k
                            } else {
                                k + 1
                            };
                            assert(at(was.jobs@, x, k0));
                            if k0 < i {
                                assert(was.jobs@[k0].0@ != was.jobs@[i as int].0@);
                            } else {
                                assert(was.jobs@[i as int].0@ != was.jobs@[k0].0@);
                            }
                        }
                        if want.dom().contains(x) {
                            let k = choose|k: int| #[trigger] at(was.jobs@, x, k);
                            assert(at(was.jobs@, x, k));
                            if k < i {
                                assert(at(now.jobs@, x, k));
                            } else {
                                assert(at(now.jobs@, x, k - 1));
                            }
                        }
                    }
                    assert forall|x: Seq<char>| #[trigger] now@.dom().contains(x) implies now@[x]
                        == want[x] by {
                        let k = choose|k: int| #[trigger] at(now.jobs@, x, k);
                        assert(at(now.jobs@, x, k));
                        now.lemma_at(k);
                        if k < i {
                            was.lemma_at(k);
                        } else {
                            was.lemma_at(k + 1);
                        }
                    }
                    assert(now@ =~= want);
                }
            },
            None => {
                assert(was@.remove(id@) =~= was@);
            },
        }
    }

    /// The worker comes to the job: one that is gone is passed over, one that nobody waits for any more
    /// leaves, any other runs.
    pub fn take(&mut self, id: &str) -> (r: Turn)
        requires
            old(self).wf(),
        ensures
            final(self).wf(),
            if !old(self)@.dom().contains(id@) {
                r == Turn::Skip && final(self)@ == old(self)@
            } else if old(self)@[id@].abandoned {
                r == Turn::Skip && final(self)@ == old(self)@.remove(id@)
            } else {
                r == Turn::Run && final(self)@ == old(self)@.insert(id@, running(old(self)@[id@]))
            },
    {
        match self.find(id) {
            None => Turn::Skip,
            Some(i) => if self.jobs[i].1.abandoned {
                self.remove(id);
                Turn::Skip
            } else {
                let ghost was = *self;
                self.jobs[i].1.status = JobStatus::Running;
                proof {
                    Self::lemma_changed(was, *self, i as int);
                }
                Turn::Run
            },
        }
    }

    /// The job has ended. Says whether somebody waited for what it gives; nothing where it is gone.
    pub fn finish(&mut self, id: &str, outcome: Result<R, String>) -> (r: Option<bool>)
        requires
            old(self).wf(),
        ensures
            final(self).wf(),
            if !old(self)@.dom().contains(id@) {
                r is None && final(self)@ == old(self)@
            } else {
                r == Some(old(self)@[id@].awaited) && final(self)@ == old(self)@.insert(
                    id@,
                    finished(old(self)@[id@], told(outcome)),
                )
            },
    {
        match self.find(id) {
            None => None,
            Some(i) => {
                let ghost was = *self;
                let waited = self.jobs[i].1.awaited;
                match outcome {
                    Ok(v) => {
                        self.jobs[i].1.status = JobStatus::Done;
                        self.jobs[i].1.result = Some(v);
                    },
                    Err(e) => {
                        self.jobs[i].1.status = JobStatus::Error;
                        self.jobs[i].1.error = Some(e);
                    },
                }
                self.jobs[i].1.awaited = false;
                proof {
                    Self::lemma_changed(was, *self, i as int);
                }
                Some(waited)
            },
        }
    }

    /// Nobody waits for the job any more.
    pub fn mark_abandoned(&mut self, id: &str)
        requires
            old(self).wf(),
        ensures
            final(self).wf(),
            final(self)@ == if old(self)@.dom().contains(id@) {
                old(self)@.insert(id@, (JobModel { abandoned: true, ..old(self)@[id@] }))
            } else {
                old(self)@
            },
    {
        if let Some(i) = self.find(id) {
            let ghost was = *self;
            self.jobs[i].1.abandoned = true;
            proof {
                Self::lemma_changed(was, *self, i as int);
            }
        }
    }

    /// Whether the job is in the table.
    pub fn knows(&self, id: &str) -> (r: bool)
        requires
            self.wf(),
        ensures
            r == self@.dom().contains(id@),
    {
        self.find(id).is_some()
    }

    /// Whether the job is in the table and has ended.
    pub fn is_terminal(&self, id: &str) -> (r: bool)
        requires
            self.wf(),
        ensures
            r == (self@.dom().contains(id@) && ended(self@[id@].status)),
    {
        match self.find(id) {
            Some(i) => matches!(self.jobs[i].1.status, JobStatus::Done | JobStatus::Error),
            None => false,
        }
    }

    /// The job for a follower; nothing where it is gone.
    pub fn follow(&self, id: &str) -> (r: Option<&Job<R>>)
        requires
            self.wf(),
        ensures
            match r {
                Some(j) => self@.dom().contains(id@) && self@[id@] == j@,
                None => !self@.dom().contains(id@),
            },
    {
        match self.find(id) {
            Some(i) => Some(&self.jobs[i].1),
            None => None,
        }
    }
}

/// What a follower is told.
#[derive(Clone, Copy, Debug, PartialEq, Eq, Structural)]
pub enum Tell {
    /// The job goes on: the follower waits for what comes.
    Wait,
    /// The job is done: its result is the last that the follower hears.
    Done,
    /// The job failed: its error is the last that the follower hears.
    Error,
}

impl<R> Job<R> {
    /// What a follower who comes now is told.
    pub fn tell(&self) -> (r: Tell)
        ensures
            r == match snapshot(self@) {
                None => Tell::Wait,
                Some(Ok(_)) => Tell::Done,
                Some(Err(_)) => Tell::Error,
            },
    {
        match self.status {
            JobStatus::Done => Tell::Done,
            JobStatus::Error => Tell::Error,
            _ => Tell::Wait,
        }
    }

    /// The error that a follower is told, empty where none was kept.
    pub fn error_text(&self) -> (r: String)
        ensures
            snapshot(self@) matches Some(Err(e)) ==> r@ == e,
    {
        match &self.error {
            Some(e) => e.clone(),
            None => String::new(),
        }
    }
}

/// What followers hear of a step of a job: the members of the step, or the step as its message, marked as
/// progress.
pub fn progress_event(step: Json) -> (r: Json)
    ensures
        r@ == match step@ {
            Doc::Object(ms) => Doc::Object(models::put(ms, "type"@, "progress"@)),
            other => Doc::Object(
                seq![("msg"@, other), ("type"@, Doc::Text("progress"@))],
            ),
        },
{
    match step {
        Json::Object(v) => models::set_selection(Json::Object(v), "type", "progress"),
        other => {
            let mark = Json::Text("progress".to_owned());
            assert(mark@ == Doc::Text("progress"@));
            let v: Vec<(String, Json)> = vec![("msg".to_owned(), other), ("type".to_owned(), mark)];
            let r = Json::Object(v);
            assert(v@[0].1 == other && v@[1].1 == mark);
            assert(r@->Object_0 =~= seq![("msg"@, other@), ("type"@, Doc::Text("progress"@))]);
            r
        },
    }
}

/// A hexadecimal digit in lower case.
pub open spec fn is_hex(c: char) -> bool {
    text::is_digit(c) || 'a' <= c <= 'f'
}

pub open spec fn all_hex(s: Seq<char>) -> bool {
    forall|i: int| 0 <= i < s.len() ==> is_hex(#[trigger] s[i])
}

/// `uuid::Uuid::new_v4`, written by `uuid::Uuid::simple`: 32 hexadecimal digits in lower case. Which ones
/// they are is left to chance. The call gives up the process where the system has no random bytes.
#[verifier::external_body]
fn random_name() -> (r: String)
    ensures
        r@.len() == 32,
        all_hex(r@),
{
    uuid::Uuid::new_v4().simple().to_string()
}

/// How long a name of a job or a project is.
pub const ID_LENGTH: usize = 12;

/// The name of a job: the first characters of a random name.
pub fn short_id(name: &str) -> (r: String)
    ensures
        r@ == text::head(name@, ID_LENGTH as nat),
{
    text::first_chars(name, ID_LENGTH)
}

/// A new name of a job: random hexadecimal digits.
pub fn new_job_id() -> (r: String)
    ensures
        r@.len() == ID_LENGTH,
        all_hex(r@),
{
    let name = random_name();
    let r = short_id(name.as_str());
    assert(forall|i: int| 0 <= i < r@.len() ==> r@[i] == name@[i]);
    r
}

/// A job that has ended leaves the table this many seconds later.
pub const REAP_SECONDS: u64 = 300;

// ── Laws ────────────────────────────────────────────────────────────────────

/// A job that has ended is told to every follower, with what it gave or why it failed.
pub proof fn law_end_is_told<R>(j: JobModel<R>, outcome: Result<R, Seq<char>>)
    ensures
        ended(finished(j, outcome).status),
        !finished(j, outcome).awaited,
        snapshot(finished(j, outcome)) == match outcome {
            Ok(v) => Some(Ok::<Option<R>, Seq<char>>(Some(v))),
            Err(e) => Some(Err(e)),
        },
{
}

/// A job that has not ended tells a follower nothing yet.
pub proof fn law_nothing_is_told_early<R>(j: JobModel<R>, awaited: bool)
    ensures
        snapshot(fresh::<R>(awaited)) is None,
        snapshot(running(j)) is None,
{
}

/// The life of a job: it waits with nothing to tell, runs as it was, and ends with what it gave or why it failed.
/// Whether it was given up is never forgotten.
pub proof fn law_life_of_a_job<R>(j: JobModel<R>, awaited: bool, v: R, why: Seq<char>)
    ensures
        ({
            let f = fresh::<R>(awaited);
            f.status == JobStatus::Queued && f.result is None && f.error is None && !f.abandoned && f.awaited == awaited
        }),
        ({
            let r = running(j);
            r.status == JobStatus::Running && r.result == j.result && r.error == j.error && r.abandoned == j.abandoned
                && r.awaited == j.awaited
        }),
        ({
            let d = finished(j, Ok(v));
            d.status == JobStatus::Done && d.result == Some(v) && d.error == j.error && d.abandoned == j.abandoned
        }),
        ({
            let e = finished(j, Err(why));
            e.status == JobStatus::Error && e.error == Some(why) && e.result == j.result && e.abandoned == j.abandoned
        }),
        !ended(JobStatus::Queued) && !ended(JobStatus::Running) && ended(JobStatus::Done) && ended(JobStatus::Error),
{
}

} // verus!
