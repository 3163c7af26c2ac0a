//! Downloads: what one download does next ([`Task`]), and which downloads
//! of a batch may run ([`Batch`]).
//!
//! Sending requests and writing files is the caller's part. For each
//! download it holds a [`Task`], does what the task's state names, and
//! reports the outcome to [`download_level`]. The [`Batch`] says when a
//! further download may start, so that no more than the chosen number run at
//! once, and keeps the outcome of each: a download that fails leaves the
//! others as they are.

use vstd::prelude::*;
use vstd::string::*;
use crate::collision::{lemma_ensured_base_name, lemma_ensured_path_is_free, spec_ensure_path,
    ClaimedNames, PathError};
use crate::filename::{get_filename, lemma_resolved_name_is_base, spec_get_filename, FilenameError};
use crate::path::spec_base_name;
use crate::prefs::UserPrefs;
use crate::text::spec_texts;

verus! {

/// Why a download failed.
#[derive(Clone, Copy, Debug, PartialEq, Eq, Structural)]
pub enum TaskError {
    /// The request, or reading the body, could not be completed.
    Network,
    /// No name was found for the file.
    Filename(FilenameError),
    /// No free path was found for the file.
    Path(PathError),
    /// The file could not be created or written.
    Filesystem,
}

/// How a download ended.
#[derive(Clone, Copy, Debug, PartialEq, Eq, Structural)]
pub enum Outcome {
    Completed,
    Failed(TaskError),
}

/// Where one download stands. Each state but the last two names what the
/// caller has to do next.
#[derive(Clone, Debug)]
pub enum Task {
    /// Send a request for `url`.
    Requesting { url: String },
    /// Create the file `path` in the folder; `name` is the name that was
    /// resolved for the download, and `total` the length that the response
    /// declared, if it declared one.
    Creating { name: String, path: String, total: Option<u64> },
    /// Read the next chunk of the body and write it to the file; `written`
    /// counts the bytes written so far.
    Writing { name: String, written: u64, total: Option<u64> },
    /// The file is complete.
    Completed { name: String, written: u64 },
    /// The download was given up.
    Failed(TaskError),
}

pub enum TaskView {
    Requesting { url: Seq<char> },
    Creating { name: Seq<char>, path: Seq<char>, total: Option<u64> },
    Writing { name: Seq<char>, written: u64, total: Option<u64> },
    Completed { name: Seq<char>, written: u64 },
    Failed(TaskError),
}

impl View for Task {
    type V = TaskView;

    open spec fn view(&self) -> TaskView {
        match self {
            Task::Requesting { url } => TaskView::Requesting { url: url@ },
            Task::Creating { name, path, total } => TaskView::Creating {
                name: name@,
                path: path@,
                total: *total,
            },
            Task::Writing { name, written, total } => TaskView::Writing {
                name: name@,
                written: *written,
                total: *total,
            },
            Task::Completed { name, written } => TaskView::Completed {
                name: name@,
                written: *written,
            },
            Task::Failed(e) => TaskView::Failed(*e),
        }
    }
}

/// What the caller saw.
#[derive(Clone, Debug)]
pub enum TaskEvent {
    /// The headers of the response are in: the path of the URL that was
    /// fetched, the value of the `Content-Disposition` header if there is
    /// one, and the declared length of the body if there is one.
    Response { url_path: String, content_disposition: Option<Vec<u8>>, content_length: Option<u64> },
    /// The file was created.
    Created,
    /// A chunk of that many bytes was read and written.
    Chunk(usize),
    /// The body has ended.
    BodyEnd,
    /// The request, or reading the body, failed.
    NetworkFailure,
    /// Creating the file, or writing to it, failed.
    FilesystemFailure,
}

pub enum TaskEventView {
    Response { url_path: Seq<char>, content_disposition: Option<Seq<u8>>, content_length: Option<u64> },
    Created,
    Chunk(usize),
    BodyEnd,
    NetworkFailure,
    FilesystemFailure,
}

impl View for TaskEvent {
    type V = TaskEventView;

    open spec fn view(&self) -> TaskEventView {
        match self {
            TaskEvent::Response { url_path, content_disposition, content_length } => {
                TaskEventView::Response {
                    url_path: url_path@,
                    content_disposition: match content_disposition {
                        Some(value) => Some(value@),
                        None => None,
                    },
                    content_length: *content_length,
                }
            },
            TaskEvent::Created => TaskEventView::Created,
            TaskEvent::Chunk(n) => TaskEventView::Chunk(*n),
            TaskEvent::BodyEnd => TaskEventView::BodyEnd,
            TaskEvent::NetworkFailure => TaskEventView::NetworkFailure,
            TaskEvent::FilesystemFailure => TaskEventView::FilesystemFailure,
        }
    }
}

/// `written` and `n` more bytes, as far as the counter reaches.
pub open spec fn spec_advance(written: u64, n: usize) -> u64 {
    if written + n > u64::MAX {
        u64::MAX
    } else {
        (written + n) as u64
    }
}

/// The download after `event`, and the paths in use after it, `taken`
/// being those in use before.
///
/// The response's headers resolve the name, which has no directory parts,
/// and claim a free path for it, or fail the download. Each chunk advances the count of bytes. A failure
/// that is reported fails the download. An event that does not answer the
/// state's request changes nothing, and a download that is over stays as it
/// is. Only a path that is claimed is added to the paths in use.
pub open spec fn spec_task_step(state: TaskView, event: TaskEventView, taken: Seq<Seq<char>>) -> (
    TaskView,
    Seq<Seq<char>>,
) {
    match state {
        TaskView::Requesting { url } => match event {
            TaskEventView::Response { url_path, content_disposition, content_length } => {
                match spec_get_filename(url_path, content_disposition) {
                    Err(e) => (TaskView::Failed(TaskError::Filename(e)), taken),
                    Ok(name) => match spec_ensure_path(name, taken) {
                        Err(e) => (TaskView::Failed(TaskError::Path(e)), taken),
                        Ok(path) => (
                            TaskView::Creating { name, path, total: content_length },
                            taken.push(path),
                        ),
                    },
                }
            },
            TaskEventView::NetworkFailure => (TaskView::Failed(TaskError::Network), taken),
            _ => (state, taken),
        },
        TaskView::Creating { name, path, total } => match event {
            TaskEventView::Created => (TaskView::Writing { name, written: 0, total }, taken),
            TaskEventView::FilesystemFailure => (TaskView::Failed(TaskError::Filesystem), taken),
            _ => (state, taken),
        },
        TaskView::Writing { name, written, total } => match event {
            TaskEventView::Chunk(n) => (
                TaskView::Writing { name, written: spec_advance(written, n), total },
                taken,
            ),
            TaskEventView::BodyEnd => (TaskView::Completed { name, written }, taken),
            TaskEventView::NetworkFailure => (TaskView::Failed(TaskError::Network), taken),
            TaskEventView::FilesystemFailure => (TaskView::Failed(TaskError::Filesystem), taken),
            _ => (state, taken),
        },
        _ => (state, taken),
    }
}

impl Task {
    /// A download of `url`, before its request.
    pub fn new(url: String) -> (task: Task)
        ensures
            task@ == (TaskView::Requesting { url: url@ }),
    {
        Task::Requesting { url }
    }

    /// How the download ended, if it is over.
    pub fn outcome(&self) -> (outcome: Option<Outcome>)
        ensures
            outcome == spec_outcome(self@),
    {
        match self {
            Task::Completed { .. } => Some(Outcome::Completed),
            Task::Failed(e) => Some(Outcome::Failed(*e)),
            _ => None,
        }
    }

    /// The bytes written so far and the length that the response declared,
    /// while the body is written or once it is complete.
    pub fn progress(&self) -> (progress: Option<(u64, Option<u64>)>)
        ensures
            progress == spec_progress(self@),
    {
        match self {
            Task::Writing { written, total, .. } => Some((*written, *total)),
            Task::Completed { written, .. } => Some((*written, Some(*written))),
            _ => None,
        }
    }
}

/// How a download ended, if it is over.
pub open spec fn spec_outcome(task: TaskView) -> Option<Outcome> {
    match task {
        TaskView::Completed { .. } => Some(Outcome::Completed),
        TaskView::Failed(e) => Some(Outcome::Failed(e)),
        _ => None,
    }
}

/// The position and the length of the progress of a download. A download
/// that is complete has the length that was written.
pub open spec fn spec_progress(task: TaskView) -> Option<(u64, Option<u64>)> {
    match task {
        TaskView::Writing { written, total, .. } => Some((written, total)),
        TaskView::Completed { written, .. } => Some((written, Some(written))),
        _ => None,
    }
}

/// One step of a download: takes what the caller saw, and says what is to
/// be done next. `claimed` holds the paths in use in the folder; the path
/// that the download is given is added to it.
pub fn download_level(state: Task, event: TaskEvent, claimed: &mut ClaimedNames) -> (next: Task)
    ensures
        (next@, final(claimed)@) == spec_task_step(state@, event@, old(claimed)@),
{
    match state {
        Task::Requesting { url } => match event {
            TaskEvent::Response { url_path, content_disposition, content_length } => {
                let name = match &content_disposition {
                    Some(value) => get_filename(url_path.as_str(), Some(value.as_slice())),
                    None => get_filename(url_path.as_str(), None),
                };
                match name {
                    Err(e) => Task::Failed(TaskError::Filename(e)),
                    Ok(name) => match claimed.claim(name.as_str()) {
                        Err(e) => Task::Failed(TaskError::Path(e)),
                        Ok(path) => Task::Creating { name, path, total: content_length },
                    },
                }
            },
            TaskEvent::NetworkFailure => Task::Failed(TaskError::Network),
            _ => Task::Requesting { url },
        },
        Task::Creating { name, path, total } => match event {
            TaskEvent::Created => Task::Writing { name, written: 0, total },
            TaskEvent::FilesystemFailure => Task::Failed(TaskError::Filesystem),
            _ => Task::Creating { name, path, total },
        },
        Task::Writing { name, written, total } => match event {
            TaskEvent::Chunk(n) => {
                let more: u64 = n as u64;
                let written = if written > u64::MAX - more {
                    u64::MAX
                } else {
                    written + more
                };
                Task::Writing { name, written, total }
            },
            TaskEvent::BodyEnd => Task::Completed { name, written },
            TaskEvent::NetworkFailure => Task::Failed(TaskError::Network),
            TaskEvent::FilesystemFailure => Task::Failed(TaskError::Filesystem),
            _ => Task::Writing { name, written, total },
        },
        Task::Completed { name, written } => Task::Completed { name, written },
        Task::Failed(e) => Task::Failed(e),
    }
}

/// A download that has its path keeps it: the paths in use change only when
/// the headers of a response are taken, and then by the one path that is
/// claimed, which was free.
pub proof fn lemma_task_claims_free_path(state: TaskView, event: TaskEventView, taken: Seq<Seq<char>>)
    ensures
        ({
            let (next, after) = spec_task_step(state, event, taken);
            if state is Requesting && next is Creating {
                &&& after == taken.push(next->Creating_path)
                &&& !taken.contains(next->Creating_path)
            } else {
                after == taken
            }
        }),
{
    if let TaskView::Requesting { url } = state {
        if let TaskEventView::Response { url_path, content_disposition, content_length } = event {
            if let Ok(name) = spec_get_filename(url_path, content_disposition) {
                lemma_ensured_path_is_free(name, taken);
            }
        }
    }
}

/// Every file lies directly in the folder: the path that a download is
/// given, and the name that was resolved for it, are names without directory
/// parts. Neither is empty, `.` or `..`, and neither holds a slash.
pub proof fn lemma_task_path_is_plain(state: TaskView, event: TaskEventView, taken: Seq<Seq<char>>)
    ensures
        ({
            let (next, after) = spec_task_step(state, event, taken);
            (state is Requesting && next is Creating) ==> {
                &&& spec_base_name(next->Creating_name)
                &&& spec_base_name(next->Creating_path)
                &&& forall|i: int|
                    0 <= i < next->Creating_path.len() ==> next->Creating_path[i] != '/'
            }
        }),
{
    if let TaskView::Requesting { url } = state {
        if let TaskEventView::Response { url_path, content_disposition, content_length } = event {
            lemma_resolved_name_is_base(url_path, content_disposition);
            if let Ok(name) = spec_get_filename(url_path, content_disposition) {
                lemma_ensured_base_name(name, taken);
            }
        }
    }
}

/// What the batch knows of one download.
#[derive(Clone, Copy, Debug, PartialEq, Eq, Structural)]
pub enum Slot {
    /// Not started yet.
    Pending,
    /// Started, and not over.
    Running,
    /// Over.
    Finished(Outcome),
}

/// The number of downloads among `slots` that run.
pub open spec fn spec_running(slots: Seq<Slot>) -> nat
    decreases slots.len(),
{
    if slots.len() == 0 {
        0
    } else {
        spec_running(slots.drop_last()) + if slots.last() is Running {
            1nat
        } else {
            0nat
        }
    }
}

/// The number of downloads among `slots` that are over.
pub open spec fn spec_finished(slots: Seq<Slot>) -> nat
    decreases slots.len(),
{
    if slots.len() == 0 {
        0
    } else {
        spec_finished(slots.drop_last()) + if slots.last() is Finished {
            1nat
        } else {
            0nat
        }
    }
}

/// Changing one download changes the two counts by that download alone.
pub proof fn lemma_counts_update(slots: Seq<Slot>, i: int, slot: Slot)
    requires
        0 <= i < slots.len(),
    ensures
        spec_running(slots.update(i, slot)) + (if slots[i] is Running {
            1nat
        } else {
            0nat
        }) == spec_running(slots) + (if slot is Running {
            1nat
        } else {
            0nat
        }),
        spec_finished(slots.update(i, slot)) + (if slots[i] is Finished {
            1nat
        } else {
            0nat
        }) == spec_finished(slots) + (if slot is Finished {
            1nat
        } else {
            0nat
        }),
    decreases slots.len(),
{
    let updated = slots.update(i, slot);
    if i == slots.len() - 1 {
        assert(updated.drop_last() =~= slots.drop_last());
    } else {
        assert(updated.drop_last() =~= slots.drop_last().update(i, slot));
        lemma_counts_update(slots.drop_last(), i, slot);
    }
}

/// Downloads that are all pending neither run nor are over, and those from
/// a place on where all are pending add nothing to the counts.
proof fn lemma_counts_pending(slots: Seq<Slot>, from: int)
    requires
        0 <= from <= slots.len(),
        forall|i: int| from <= i < slots.len() ==> slots[i] is Pending,
    ensures
        spec_running(slots) == spec_running(slots.take(from)),
        spec_finished(slots) == spec_finished(slots.take(from)),
    decreases slots.len(),
{
    if from == slots.len() {
        assert(slots.take(from) =~= slots);
    } else {
        assert(slots.drop_last().take(from) =~= slots.take(from));
        lemma_counts_pending(slots.drop_last(), from);
    }
}

/// Each download either runs, is over, or neither.
proof fn lemma_counts_bound(slots: Seq<Slot>)
    ensures
        spec_running(slots) + spec_finished(slots) <= slots.len(),
    decreases slots.len(),
{
    if slots.len() > 0 {
        lemma_counts_bound(slots.drop_last());
    }
}

/// A batch of downloads, of which at most `limit` run at once. Downloads
/// are numbered by their place in the list of URLs, and are started in that
/// order, each once.
pub struct Batch {
    urls: Vec<String>,
    limit: usize,
    slots: Vec<Slot>,
    started: usize,
    running: usize,
}

impl Batch {
    /// The URLs of the downloads.
    pub closed spec fn urls(&self) -> Seq<Seq<char>> {
        spec_texts(self.urls@)
    }

    /// The number of downloads that may run at once.
    pub closed spec fn limit(&self) -> nat {
        self.limit as nat
    }

    /// What is known of each download.
    pub closed spec fn slots(&self) -> Seq<Slot> {
        self.slots@
    }

    /// The number of downloads that have been started.
    pub closed spec fn started(&self) -> nat {
        self.started as nat
    }

    /// The number of downloads that run.
    pub open spec fn in_flight(&self) -> nat {
        spec_running(self.slots())
    }

    /// The number of downloads that are over.
    pub open spec fn finished(&self) -> nat {
        spec_finished(self.slots())
    }

    /// The batch is in order: the downloads started are the first ones of
    /// the list, and no more run than may.
    pub closed spec fn wf(&self) -> bool {
        &&& self.limit > 0
        &&& self.slots@.len() == self.urls@.len()
        &&& self.started <= self.slots@.len()
        &&& forall|i: int| 0 <= i < self.slots@.len() ==> ((#[trigger] self.slots@[i]) is Pending <==> i
            >= self.started)
        &&& self.running == spec_running(self.slots@)
        &&& self.running <= self.limit
        &&& self.running + spec_finished(self.slots@) == self.started
    }

    /// In a batch that is in order, no more downloads run than may, each
    /// download started runs or is over, and those not started are the last
    /// of the list.
    pub proof fn lemma_wf(&self)
        requires
            self.wf(),
        ensures
            self.limit() > 0,
            self.in_flight() <= self.limit(),
            self.in_flight() + self.finished() == self.started(),
            self.started() <= self.slots().len(),
            self.slots().len() == self.urls().len(),
            forall|i: int|
                0 <= i < self.slots().len() ==> ((#[trigger] self.slots()[i]) is Pending <==> i
                    >= self.started()),
    {
    }

    /// Whether a further download may start: one is left, and fewer run
    /// than may.
    pub open spec fn may_start(&self) -> bool {
        self.started() < self.slots().len() && self.in_flight() < self.limit()
    }

    /// Starts the next download, if one may start: gives its number and
    /// its task, and counts it as running.
    pub fn start_next(&mut self) -> (next: Option<(usize, Task)>)
        requires
            old(self).wf(),
        ensures
            final(self).wf(),
            final(self).urls() == old(self).urls(),
            final(self).limit() == old(self).limit(),
            match next {
                Some((index, task)) => {
                    &&& old(self).may_start()
                    &&& index == old(self).started()
                    &&& task@ == (TaskView::Requesting { url: old(self).urls()[index as int] })
                    &&& final(self).started() == index + 1
                    &&& final(self).slots() == old(self).slots().update(index as int, Slot::Running)
                    &&& final(self).in_flight() == old(self).in_flight() + 1
                },
                None => {
                    &&& !old(self).may_start()
                    &&& final(self).slots() == old(self).slots()
                    &&& final(self).started() == old(self).started()
                },
            },
    {
        if self.started >= self.slots.len() || self.running >= self.limit {
            return None;
        }
        let index = self.started;
        proof {
            lemma_counts_update(self.slots@, index as int, Slot::Running);
        }
        self.slots[index] = Slot::Running;
        self.started = index + 1;
        self.running = self.running + 1;
        let url = self.urls[index].clone();
        Some((index, Task::Requesting { url }))
    }

    /// Records how the download `index` ended, if it runs, and says whether
    /// it did. Nothing else changes: the other downloads are as they were.
    pub fn finish(&mut self, index: usize, outcome: Outcome) -> (recorded: bool)
        requires
            old(self).wf(),
        ensures
            final(self).wf(),
            final(self).urls() == old(self).urls(),
            final(self).limit() == old(self).limit(),
            final(self).started() == old(self).started(),
            recorded <==> (index < old(self).slots().len() && old(self).slots()[index as int]
                is Running),
            recorded ==> final(self).slots() == old(self).slots().update(
                index as int,
                Slot::Finished(outcome),
            ),
            recorded ==> final(self).in_flight() + 1 == old(self).in_flight(),
            recorded ==> final(self).finished() == old(self).finished() + 1,
            !recorded ==> final(self).slots() == old(self).slots(),
    {
        if index >= self.slots.len() {
            return false;
        }
        match self.slots[index] {
            Slot::Running => {},
            _ => {
                return false;
            },
        }
        proof {
            lemma_counts_update(self.slots@, index as int, Slot::Finished(outcome));
        }
        self.slots[index] = Slot::Finished(outcome);
        self.running = self.running - 1;
        true
    }

    /// Whether every download is over.
    pub fn is_done(&self) -> (done: bool)
        requires
            self.wf(),
        ensures
            done <==> self.finished() == self.slots().len(),
            done <==> forall|i: int| 0 <= i < self.slots().len() ==> (#[trigger] self.slots()[i]) is Finished,
    {
        proof {
            lemma_counts_bound(self.slots@);
            lemma_all_finished(self.slots@);
        }
        self.started == self.slots.len() && self.running == 0
    }

    /// The number of downloads that are over, for the overall progress.
    pub fn completed(&self) -> (count: usize)
        requires
            self.wf(),
        ensures
            count == self.finished(),
    {
        self.started - self.running
    }

    /// The number of downloads in the batch.
    pub fn total(&self) -> (count: usize)
        ensures
            count == self.slots().len(),
    {
        self.slots.len()
    }

    /// The number of downloads that run.
    pub fn running(&self) -> (count: usize)
        requires
            self.wf(),
        ensures
            count == self.in_flight(),
            count <= self.limit(),
    {
        self.running
    }

    /// What is known of each download, by its number.
    pub fn report(&self) -> (report: Report)
        ensures
            report.slots@ == self.slots(),
    {
        Report { slots: self.slots.clone() }
    }
}

/// All downloads are over exactly when as many are over as there are.
proof fn lemma_all_finished(slots: Seq<Slot>)
    ensures
        spec_finished(slots) == slots.len() <==> forall|i: int|
            0 <= i < slots.len() ==> (#[trigger] slots[i]) is Finished,
    decreases slots.len(),
{
    if slots.len() > 0 {
        let front = slots.drop_last();
        lemma_all_finished(front);
        lemma_counts_bound(front);
        if spec_finished(slots) == slots.len() {
            assert forall|i: int| 0 <= i < slots.len() implies (#[trigger] slots[i]) is Finished by {
                if i < front.len() {
                    assert(front[i] is Finished);
                }
            }
        }
        if forall|i: int| 0 <= i < slots.len() ==> (#[trigger] slots[i]) is Finished {
            assert forall|i: int| 0 <= i < front.len() implies (#[trigger] front[i]) is Finished by {
                assert(slots[i] is Finished);
            }
        }
    }
}

/// Sets up the downloads of `urls` under the preferences `prefs`: none is
/// started yet, and at most `prefs.download_threads` will run at once.
pub fn download_levels(urls: Vec<String>, prefs: &UserPrefs) -> (batch: Batch)
    requires
        prefs.wf(),
    ensures
        batch.wf(),
        batch.urls() == spec_texts(urls@),
        batch.limit() == prefs.download_threads,
        batch.started() == 0,
        batch.in_flight() == 0,
        batch.slots().len() == urls@.len(),
        forall|i: int| 0 <= i < batch.slots().len() ==> (#[trigger] batch.slots()[i]) is Pending,
{
    let mut slots: Vec<Slot> = Vec::new();
    let mut i: usize = 0;
    while i < urls.len()
        invariant
            i <= urls.len(),
            slots@.len() == i,
            forall|k: int| 0 <= k < slots@.len() ==> (#[trigger] slots@[k]) is Pending,
        decreases urls.len() - i,
    {
        slots.push(Slot::Pending);
        i += 1;
    }
    proof {
        lemma_counts_pending(slots@, 0);
        assert(slots@.take(0) =~= Seq::<Slot>::empty());
    }
    Batch { urls, limit: prefs.download_threads, slots, started: 0, running: 0 }
}

/// The outcome of a batch: what is known of each download, by its number.
#[derive(Clone, Debug)]
pub struct Report {
    pub slots: Vec<Slot>,
}

impl Report {
    /// The download `index` failed.
    pub open spec fn spec_failed(&self, index: int) -> bool {
        0 <= index < self.slots@.len() && self.slots@[index] matches Slot::Finished(Outcome::Failed(_))
    }

    /// The download `index` is complete.
    pub open spec fn spec_completed(&self, index: int) -> bool {
        0 <= index < self.slots@.len() && self.slots@[index] == Slot::Finished(Outcome::Completed)
    }

    /// Why the download `index` failed, if it did.
    pub fn failure(&self, index: usize) -> (reason: Option<TaskError>)
        ensures
            match reason {
                Some(e) => index < self.slots@.len() && self.slots@[index as int] == Slot::Finished(
                    Outcome::Failed(e),
                ),
                None => !self.spec_failed(index as int),
            },
    {
        if index >= self.slots.len() {
            return None;
        }
        match self.slots[index] {
            Slot::Finished(Outcome::Failed(e)) => Some(e),
            _ => None,
        }
    }

    /// Whether the download `index` is complete.
    pub fn is_completed(&self, index: usize) -> (completed: bool)
        ensures
            completed == self.spec_completed(index as int),
    {
        if index >= self.slots.len() {
            return false;
        }
        match self.slots[index] {
            Slot::Finished(Outcome::Completed) => true,
            _ => false,
        }
    }

    /// The numbers of the downloads that failed, in rising order.
    pub fn failed(&self) -> (failed: Vec<usize>)
        ensures
            forall|k: int| 0 <= k < failed@.len() ==> self.spec_failed(#[trigger] failed@[k] as int),
            forall|i: int| self.spec_failed(i) ==> failed@.contains(i as usize),
            forall|j: int, k: int| 0 <= j < k < failed@.len() ==> failed@[j] < failed@[k],
    {
        let mut failed: Vec<usize> = Vec::new();
        let mut i: usize = 0;
        while i < self.slots.len()
            invariant
                i <= self.slots.len(),
                forall|k: int| 0 <= k < failed@.len() ==> self.spec_failed(#[trigger] failed@[k] as int),
                forall|k: int| 0 <= k < failed@.len() ==> (#[trigger] failed@[k]) < i,
                forall|j: int| 0 <= j < i && self.spec_failed(j) ==> failed@.contains(j as usize),
                forall|j: int, k: int| 0 <= j < k < failed@.len() ==> failed@[j] < failed@[k],
            decreases self.slots.len() - i,
        {
            match self.slots[i] {
                Slot::Finished(Outcome::Failed(_)) => {
                    let ghost before = failed@;
                    failed.push(i);
                    assert forall|j: int| 0 <= j < i + 1 && self.spec_failed(j) implies failed@.contains(
                        j as usize,
                    ) by {
                        if j < i {
                            let k = choose|k: int| 0 <= k < before.len() && before[k] == j as usize;
                            assert(failed@[k] == j as usize);
                        } else {
                            assert(failed@[before.len() as int] == i);
                        }
                    }
                },
                _ => {},
            }
            i += 1;
        }
        failed
    }
}

} // verus!
