//! The table of background jobs. Between calls, every job in the table is running: `list` and
//! `reap` mark the jobs whose processes have exited as done, report them, and remove them
//! before they return.
use vstd::prelude::*;
use crate::builtin::Output;
use crate::text::{chars_of, decimal, pad_left, push_char, push_decimal, push_padded};
use vstd::string::*;

verus! {

/// Whether a job's process is still running.
#[derive(Debug, Clone, Copy, PartialEq, Eq, Structural)]
pub enum JobStatus {
    Running,
    Done,
}

impl JobStatus {
    /// The status as `jobs` writes it.
    pub fn as_str(&self) -> (r: &'static str)
        ensures
            r@ == status_text(*self),
    {
        match self {
            JobStatus::Running => "Running",
            JobStatus::Done => "Done",
        }
    }
}

/// The status as `jobs` writes it.
pub open spec fn status_text(s: JobStatus) -> Seq<char> {
    match s {
        JobStatus::Running => "Running"@,
        JobStatus::Done => "Done"@,
    }
}

/// A background job: its number, its process, and the command line that started it.
pub struct Job {
    pub id: u32,
    pub pid: u32,
    pub command: String,
    pub status: JobStatus,
}

/// The mathematical value of a `Job`.
pub struct JobView {
    pub id: u32,
    pub pid: u32,
    pub command: Seq<char>,
    pub status: JobStatus,
}

impl View for Job {
    type V = JobView;

    open spec fn view(&self) -> JobView {
        JobView { id: self.id, pid: self.pid, command: self.command@, status: self.status }
    }
}

/// The jobs, oldest first.
pub struct Jobs {
    jobs: Vec<Job>,
}

impl View for Jobs {
    type V = Seq<JobView>;

    closed spec fn view(&self) -> Seq<JobView> {
        self.jobs@.map_values(|j: Job| j@)
    }
}

/// Job numbers are positive and no two jobs share one.
pub open spec fn ids_distinct(v: Seq<JobView>) -> bool {
    &&& forall|i: int| 0 <= i < v.len() ==> v[i].id >= 1
    &&& forall|i: int, j: int| 0 <= i < v.len() && 0 <= j < v.len() && i != j ==> v[i].id != v[j].id
}

/// The table between calls: numbers distinct, and every job running.
pub open spec fn jobs_wf(v: Seq<JobView>) -> bool {
    &&& ids_distinct(v)
    &&& forall|i: int| 0 <= i < v.len() ==> v[i].status == JobStatus::Running
}

/// Whether some job has number `id`.
pub open spec fn id_in_use(v: Seq<JobView>, id: int) -> bool {
    exists|j: int| 0 <= j < v.len() && v[j].id == id
}

/// `id` is the smallest positive number that no job has.
pub open spec fn is_next_id(v: Seq<JobView>, id: int) -> bool {
    &&& id >= 1
    &&& !id_in_use(v, id)
    &&& forall|k: int| 1 <= k < id ==> id_in_use(v, k)
}

/// The table after the jobs whose numbers are in `exited` are marked done.
pub open spec fn refreshed(v: Seq<JobView>, exited: Seq<u32>) -> Seq<JobView> {
    v.map_values(
        |j: JobView|
            if exited.contains(j.id) {
                JobView { status: JobStatus::Done, ..j }
            } else {
                j
            },
    )
}

/// The marker of the job at position `i` of `len`: `+` for the newest, `-` for the one
/// before it, a space for the others.
pub open spec fn marker_text(i: int, len: int) -> Seq<char> {
    if i + 1 == len {
        "+"@
    } else if i + 2 == len {
        "-"@
    } else {
        " "@
    }
}

/// A job's line: `[n]`, its marker, two spaces, its status right-aligned in 24 columns, a
/// space, and its command.
pub open spec fn job_line(j: JobView, marker: Seq<char>) -> Seq<char> {
    seq!['['] + decimal(j.id as nat) + seq![']'] + marker + seq![' ', ' '] + pad_left(
        status_text(j.status),
        24,
    ) + seq![' '] + j.command
}

/// The lines, each with its newline, of the first `n` jobs of `v`; of the done ones only,
/// when `only_done` holds. Markers go by position in all of `v`.
pub open spec fn job_lines(v: Seq<JobView>, n: int, only_done: bool) -> Seq<char>
    decreases n,
{
    if n <= 0 {
        Seq::empty()
    } else {
        job_lines(v, n - 1, only_done) + if !only_done || v[n - 1].status == JobStatus::Done {
            job_line(v[n - 1], marker_text(n - 1, v.len() as int)) + seq!['\n']
        } else {
            Seq::empty()
        }
    }
}

/// The jobs of `v` that are still running, in order.
pub open spec fn still_running(v: Seq<JobView>) -> Seq<JobView>
    decreases v.len(),
{
    if v.len() == 0 {
        Seq::empty()
    } else {
        still_running(v.drop_last()) + if v.last().status == JobStatus::Running {
            seq![v.last()]
        } else {
            Seq::empty()
        }
    }
}

/// The test of a running job.
pub open spec fn is_running() -> spec_fn(JobView) -> bool {
    |j: JobView| j.status == JobStatus::Running
}

/// Removing the done jobs keeps exactly the running ones, in the order they had: the result
/// is the table filtered by "running".
pub proof fn lemma_still_running_in_order(v: Seq<JobView>)
    ensures
        still_running(v) == v.filter(is_running()),
    decreases v.len(),
{
    reveal(Seq::filter);
    if v.len() == 0 {
        assert(v =~= Seq::<JobView>::empty());
    } else {
        lemma_still_running_in_order(v.drop_last());
        let sub = v.drop_last().filter(is_running());
        assert(is_running()(v.last()) == (v.last().status == JobStatus::Running));
        if v.last().status == JobStatus::Running {
            assert(sub + seq![v.last()] =~= sub.push(v.last()));
        } else {
            assert(sub + Seq::<JobView>::empty() =~= sub);
        }
    }
}

/// Between prompts, when no job has exited, a table of running jobs is left as it is: `jobs`
/// and the reaping before a prompt remove nothing and reorder nothing.
pub proof fn lemma_nothing_exited_keeps_table(v: Seq<JobView>, exited: Seq<u32>)
    requires
        forall|i: int| 0 <= i < v.len() ==> (#[trigger] v[i]).status == JobStatus::Running,
        forall|i: int| 0 <= i < v.len() ==> !exited.contains(#[trigger] v[i].id),
    ensures
        still_running(refreshed(v, exited)) == v,
    decreases v.len(),
{
    let r = refreshed(v, exited);
    assert(r =~= v) by {
        assert forall|i: int| 0 <= i < v.len() implies r[i] == v[i] by {
            assert(!exited.contains(v[i].id));
        }
    }
    lemma_all_running_kept(v);
}

/// A table whose jobs all run is kept whole.
proof fn lemma_all_running_kept(v: Seq<JobView>)
    requires
        forall|i: int| 0 <= i < v.len() ==> (#[trigger] v[i]).status == JobStatus::Running,
    ensures
        still_running(v) == v,
    decreases v.len(),
{
    if v.len() > 0 {
        let u = v.drop_last();
        assert forall|i: int| 0 <= i < u.len() implies (#[trigger] u[i]).status
            == JobStatus::Running by {
            assert(u[i] == v[i]);
        }
        lemma_all_running_kept(u);
        assert(v[v.len() - 1].status == JobStatus::Running);
        assert(u + seq![v.last()] =~= v);
    }
}

/// Every job that is kept was in the table, and every kept job is running.
pub proof fn lemma_still_running(v: Seq<JobView>)
    ensures
        still_running(v).len() <= v.len(),
        forall|k: int|
            0 <= k < still_running(v).len() ==> exists|m: int|
                0 <= m < v.len() && #[trigger] still_running(v)[k] == v[m],
        forall|k: int|
            0 <= k < still_running(v).len() ==> (#[trigger] still_running(v)[k]).status
                == JobStatus::Running,
        ids_distinct(v) ==> ids_distinct(still_running(v)),
    decreases v.len(),
{
    if v.len() > 0 {
        let u = v.drop_last();
        lemma_still_running(u);
        let su = still_running(u);
        assert forall|k: int| 0 <= k < still_running(v).len() implies exists|m: int|
            0 <= m < v.len() && #[trigger] still_running(v)[k] == v[m] by {
            if k < su.len() {
                assert(still_running(v)[k] == su[k]);
                let m = choose|m: int| 0 <= m < u.len() && su[k] == u[m];
                assert(v[m] == u[m]);
            } else {
                assert(still_running(v)[k] == v[v.len() - 1]);
            }
        }
        if ids_distinct(v) {
            assert(ids_distinct(u)) by {
                assert forall|i: int, j: int|
                    0 <= i < u.len() && 0 <= j < u.len() && i != j implies u[i].id != u[j].id by {
                    assert(u[i] == v[i] && u[j] == v[j]);
                }
            }
            let s = still_running(v);
            assert forall|i: int, j: int|
                0 <= i < s.len() && 0 <= j < s.len() && i != j implies s[i].id != s[j].id by {
                if i < su.len() && j < su.len() {
                    assert(s[i] == su[i] && s[j] == su[j]);
                } else if i < su.len() {
                    let m = choose|m: int| 0 <= m < u.len() && su[i] == u[m];
                    assert(s[i] == u[m]);
                    assert(u[m] == v[m]);
                    assert(s[j] == v[v.len() - 1]);
                } else if j < su.len() {
                    let m = choose|m: int| 0 <= m < u.len() && su[j] == u[m];
                    assert(s[j] == u[m]);
                    assert(u[m] == v[m]);
                    assert(s[i] == v[v.len() - 1]);
                }
            }
            assert forall|i: int| 0 <= i < s.len() implies s[i].id >= 1 by {
                let m = choose|m: int| 0 <= m < v.len() && s[i] == v[m];
            }
        }
    }
}

/// When the numbers `1..id` are all in use, there are at least `id - 1` jobs.
proof fn lemma_used_ids_bound(v: Seq<JobView>, id: int)
    requires
        ids_distinct(v),
        id >= 1,
        forall|k: int| 1 <= k < id ==> id_in_use(v, k),
    ensures
        id - 1 <= v.len(),
{
    let used = v.map_values(|j: JobView| j.id as int);
    let range = vstd::set_lib::set_int_range(1, id);
    vstd::set_lib::lemma_int_range(1, id);
    assert(range.subset_of(used.to_set())) by {
        assert forall|k: int| range.contains(k) implies used.to_set().contains(k) by {
            assert(id_in_use(v, k));
            let j = choose|j: int| 0 <= j < v.len() && v[j].id == k;
            assert(used[j] == k);
        }
    }
    used.lemma_cardinality_of_set();
    vstd::seq_lib::seq_to_set_is_finite(used);
    vstd::set_lib::lemma_len_subset(range, used.to_set());
}

impl Jobs {
    /// An empty table.
    pub fn new() -> (r: Self)
        ensures
            r@ == Seq::<JobView>::empty(),
            jobs_wf(r@),
    {
        let r = Jobs { jobs: Vec::new() };
        assert(r@ =~= Seq::<JobView>::empty());
        r
    }

    /// How many jobs there are.
    pub fn len(&self) -> (n: usize)
        ensures
            n == self@.len(),
    {
        self.jobs.len()
    }

    /// The smallest positive number that no job has.
    fn get_next_id(&self) -> (id: u32)
        requires
            ids_distinct(self@),
            self@.len() < u32::MAX,
        ensures
            is_next_id(self@, id as int),
    {
        let mut id: u32 = 1;
        loop
            invariant
                ids_distinct(self@),
                self@.len() < u32::MAX,
                1 <= id,
                forall|k: int| 1 <= k < id ==> id_in_use(self@, k),
            decreases u32::MAX - id,
        {
            let mut available = true;
            let mut j: usize = 0;
            while j < self.jobs.len()
                invariant
                    j <= self.jobs@.len(),
                    self.jobs@.len() == self@.len(),
                    available ==> forall|m: int| 0 <= m < j ==> self@[m].id != id,
                    !available ==> id_in_use(self@, id as int),
                decreases self.jobs.len() - j,
            {
                if self.jobs[j].id == id {
                    assert(self@[j as int].id == id);
                    available = false;
                }
                j += 1;
            }
            if available {
                return id;
            }
            proof {
                lemma_used_ids_bound(self@, id + 1);
            }
            id += 1;
        }
    }

    /// Adds a running job for process `pid`, started by `command`, under the smallest free
    /// number, which it returns.
    pub fn add(&mut self, pid: u32, command: String) -> (id: u32)
        requires
            jobs_wf(old(self)@),
            old(self)@.len() < u32::MAX,
        ensures
            is_next_id(old(self)@, id as int),
            final(self)@ == old(self)@.push(
                JobView { id, pid, command: command@, status: JobStatus::Running },
            ),
            jobs_wf(final(self)@),
    {
        let id = self.get_next_id();
        let job = Job { id, pid, command, status: JobStatus::Running };
        let ghost jv = job@;
        self.jobs.push(job);
        assert(self@ =~= old(self)@.push(jv));
        id
    }

    /// Marks the jobs whose numbers are in `exited` as done.
    fn refresh(&mut self, exited: &Vec<u32>)
        ensures
            final(self)@ == refreshed(old(self)@, exited@),
    {
        let mut i: usize = 0;
        while i < self.jobs.len()
            invariant
                i <= self.jobs@.len(),
                self.jobs@.len() == old(self).jobs@.len(),
                forall|k: int|
                    0 <= k < i ==> (#[trigger] self.jobs@[k])@ == refreshed(old(self)@, exited@)[k],
                forall|k: int| i <= k < self.jobs@.len() ==> #[trigger] self.jobs@[k] == old(
                    self,
                ).jobs@[k],
            decreases self.jobs.len() - i,
        {
            let id = self.jobs[i].id;
            let ghost target = refreshed(old(self)@, exited@)[i as int];
            assert(old(self)@[i as int] == old(self).jobs@[i as int]@);
            if contains_id(exited, id) {
                self.jobs[i].status = JobStatus::Done;
            }
            assert(self.jobs@[i as int]@ == target);
            i += 1;
        }
        assert(self@ =~= refreshed(old(self)@, exited@));
    }

    /// The marker of the job at `job_index`.
    fn get_marker(&self, job_index: usize) -> (r: &'static str)
        ensures
            r@ == marker_text(job_index as int, self@.len() as int),
    {
        let n = self.jobs.len();
        if job_index < n && job_index + 1 == n {
            "+"
        } else if job_index < n && job_index + 2 == n {
            "-"
        } else {
            " "
        }
    }

    /// A job's line (see `job_line`), without the newline.
    fn format_line(&self, job: &Job, marker: &str) -> (r: String)
        ensures
            r@ == job_line(job@, marker@),
    {
        let mut line = String::new();
        push_char(&mut line, '[');
        push_decimal(&mut line, job.id as u64);
        push_char(&mut line, ']');
        line.append(marker);
        push_char(&mut line, ' ');
        push_char(&mut line, ' ');
        let status = chars_of(job.status.as_str());
        push_padded(&mut line, &status, 24);
        push_char(&mut line, ' ');
        line.append(job.command.as_str());
        assert(line@ =~= job_line(job@, marker@));
        line
    }

    /// Writes the lines of the jobs, of the done ones only when `only_done` holds.
    fn write_lines(&self, output: &mut Output, only_done: bool)
        ensures
            final(output).stdout@ == old(output).stdout@ + job_lines(
                self@,
                self@.len() as int,
                only_done,
            ),
            final(output).stderr@ == old(output).stderr@,
    {
        let mut i: usize = 0;
        while i < self.jobs.len()
            invariant
                i <= self.jobs@.len(),
                self.jobs@.len() == self@.len(),
                output.stdout@ == old(output).stdout@ + job_lines(self@, i as int, only_done),
                output.stderr@ == old(output).stderr@,
            decreases self.jobs.len() - i,
        {
            let ghost before = output.stdout@;
            if !only_done || self.jobs[i].status == JobStatus::Done {
                let marker = self.get_marker(i);
                let line = self.format_line(&self.jobs[i], marker);
                output.stdout.append(line.as_str());
                push_char(&mut output.stdout, '\n');
                assert(self.jobs[i as int]@ == self@[i as int]);
                assert(output.stdout@ =~= before + (job_line(
                    self@[i as int],
                    marker_text(i as int, self@.len() as int),
                ) + seq!['\n']));
            } else {
                assert(self.jobs[i as int]@ == self@[i as int]);
                assert(output.stdout@ =~= before + Seq::<char>::empty());
            }
            i += 1;
        }
    }

    /// Removes the jobs that are done, keeping the others in order.
    fn remove_done(&mut self)
        ensures
            final(self)@ == still_running(old(self)@),
            final(self)@ == old(self)@.filter(is_running()),
    {
        proof {
            lemma_still_running_in_order(self@);
        }
        let mut kept: Vec<Job> = Vec::new();
        let mut i: usize = 0;
        while i < self.jobs.len()
            invariant
                i <= self.jobs@.len(),
                kept@.map_values(|j: Job| j@) == still_running(self@.take(i as int)),
            decreases self.jobs.len() - i,
        {
            let ghost before = kept@.map_values(|j: Job| j@);
            assert(self@.take(i + 1).drop_last() =~= self@.take(i as int));
            assert(self@.take(i + 1).last() == self@[i as int]);
            if self.jobs[i].status == JobStatus::Running {
                let job = &self.jobs[i];
                let copy = Job {
                    id: job.id,
                    pid: job.pid,
                    command: job.command.clone(),
                    status: job.status,
                };
                kept.push(copy);
                assert(kept@.map_values(|j: Job| j@) =~= before + seq![self@[i as int]]);
            } else {
                assert(kept@.map_values(|j: Job| j@) =~= before + Seq::<JobView>::empty());
            }
            i += 1;
        }
        assert(self@.take(self.jobs.len() as int) =~= self@);
        self.jobs = kept;
    }

    /// `jobs`: marks the jobs whose numbers are in `exited` as done, writes a line for every
    /// job, then removes the done ones.
    pub fn list(&mut self, exited: &Vec<u32>, output: &mut Output)
        requires
            jobs_wf(old(self)@),
        ensures
            final(output).stdout@ == old(output).stdout@ + job_lines(
                refreshed(old(self)@, exited@),
                old(self)@.len() as int,
                false,
            ),
            final(output).stderr@ == old(output).stderr@,
            final(self)@ == still_running(refreshed(old(self)@, exited@)),
            final(self)@ == refreshed(old(self)@, exited@).filter(is_running()),
            jobs_wf(final(self)@),
    {
        self.refresh(exited);
        self.write_lines(output, false);
        proof {
            lemma_refreshed_distinct(old(self)@, exited@);
            lemma_still_running(self@);
        }
        self.remove_done();
    }

    /// Between prompts: marks the jobs whose numbers are in `exited` as done, writes a line
    /// for each done job, then removes them.
    pub fn reap(&mut self, exited: &Vec<u32>, output: &mut Output)
        requires
            jobs_wf(old(self)@),
        ensures
            final(output).stdout@ == old(output).stdout@ + job_lines(
                refreshed(old(self)@, exited@),
                old(self)@.len() as int,
                true,
            ),
            final(output).stderr@ == old(output).stderr@,
            final(self)@ == still_running(refreshed(old(self)@, exited@)),
            final(self)@ == refreshed(old(self)@, exited@).filter(is_running()),
            jobs_wf(final(self)@),
    {
        self.refresh(exited);
        self.write_lines(output, true);
        proof {
            lemma_refreshed_distinct(old(self)@, exited@);
            lemma_still_running(self@);
        }
        self.remove_done();
    }
}

proof fn lemma_refreshed_distinct(v: Seq<JobView>, exited: Seq<u32>)
    requires
        ids_distinct(v),
    ensures
        ids_distinct(refreshed(v, exited)),
        refreshed(v, exited).len() == v.len(),
{
    let r = refreshed(v, exited);
    assert forall|i: int, j: int|
        0 <= i < r.len() && 0 <= j < r.len() && i != j implies r[i].id != r[j].id by {
        assert(r[i].id == v[i].id && r[j].id == v[j].id);
    }
    assert forall|i: int| 0 <= i < r.len() implies r[i].id >= 1 by {
        assert(r[i].id == v[i].id);
    }
}

/// Whether `id` is in `ids`.
fn contains_id(ids: &Vec<u32>, id: u32) -> (r: bool)
    ensures
        r == ids@.contains(id),
{
    let mut i: usize = 0;
    while i < ids.len()
        invariant
            i <= ids@.len(),
            forall|k: int| 0 <= k < i ==> ids@[k] != id,
        decreases ids.len() - i,
    {
        if ids[i] == id {
            assert(ids@[i as int] == id);
            return true;
        }
        i += 1;
    }
    false
}

} // verus!
