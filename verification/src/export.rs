//! The course of one export: which file is published next, how many are
//! published at once, and how the run ends.
//!
//! The library decides and the program around it acts. The program asks
//! `Export::next` what to do, does it, reports the end of each operation
//! with `Export::complete`, and asks again.

use crate::bridge::bytes_contents;
use crate::error::{failure_views, ConfigError, Error, Failure, FailureView};
use crate::files::{
    failures_in, is_export, lemma_failures_are_failed_entries, lemma_failures_concat,
    lemma_failures_of_export, object_path, path_of_object, Entry, EntryView, File, Files,
};
use crate::git::{
    check_temp_dir_path, first_failure, head_content, is_temp_dir_path, RefEntry, Reference,
};
use crate::ipfs::{path_in, publish_path, root_of, root_path};
use crate::oid::ObjectId;
use bytes::Bytes;
use vstd::prelude::*;

verus! {

/// How many files are published at once unless the caller says otherwise.
pub const QUEUE_SIZE: usize = 4096;

/// An operation in flight, as plain values: its number, and the path of its
/// file inside the export.
pub struct SlotView {
    pub slot: nat,
    pub path: Seq<char>,
}

/// What the program is to do for one file, as plain values.
pub enum JobView {
    Encode { slot: nat, id: ObjectId, path: Seq<char> },
    Publish { slot: nat, path: Seq<char>, data: Seq<u8> },
}

/// A run under way, as plain values.
pub struct ExportView {
    /// The directory of the run in the daemon's files.
    pub namespace: Seq<char>,
    /// The number of operations that may be in flight at once.
    pub limit: nat,
    /// The files that have not been taken yet.
    pub pending: Seq<EntryView>,
    /// The number of files that have been taken.
    pub started: nat,
    /// The number of files that are published.
    pub published: nat,
    /// The operations in flight.
    pub in_flight: Seq<SlotView>,
    /// The files that are given up.
    pub failures: Seq<FailureView>,
}

/// What `Export::next` answers, as plain values.
pub enum NextView {
    Start(ExportView, JobView),
    Wait(ExportView),
    Stat { path: Seq<char>, published: nat },
    Failed(Seq<FailureView>),
}

/// The place of the first operation with the number `slot`, if there is one.
pub open spec fn position(in_flight: Seq<SlotView>, slot: nat) -> Option<int>
    decreases in_flight.len(),
{
    if in_flight.len() == 0 {
        None
    } else if in_flight[0].slot == slot {
        Some(0)
    } else {
        match position(in_flight.drop_first(), slot) {
            Some(k) => Some(k + 1),
            None => None,
        }
    }
}

impl ExportView {
    /// What holds of every run: the limit is not zero and no more
    /// operations are in flight than it allows; every file that was taken
    /// is in flight, published or given up; and the operations in flight
    /// have numbers that were handed out.
    pub open spec fn wf(self) -> bool {
        &&& is_temp_dir_path(self.namespace)
        &&& self.limit >= 1
        &&& self.in_flight.len() <= self.limit
        &&& self.started == self.published + self.in_flight.len() + self.failures.len()
        &&& forall|k: int|
            0 <= k < self.in_flight.len() ==> (#[trigger] self.in_flight[k]).slot < self.started
    }

    /// The run before anything is taken.
    pub open spec fn begin(namespace: Seq<char>, limit: nat, files: Seq<EntryView>) -> ExportView {
        ExportView {
            namespace,
            limit,
            pending: files,
            started: 0,
            published: 0,
            in_flight: Seq::empty(),
            failures: Seq::empty(),
        }
    }

    /// Whether another file may be taken: none has been given up, none of
    /// those that are left is known to fail, a place is free, and a file is
    /// left.
    pub open spec fn may_start(self) -> bool {
        &&& self.failures.len() == 0
        &&& failures_in(self.pending).len() == 0
        &&& self.in_flight.len() < self.limit
        &&& self.pending.len() > 0
    }

    /// The files that the run gives up: those whose operation failed, then
    /// those that stand as failures among the files that are left.
    pub open spec fn given_up(self) -> Seq<FailureView> {
        self.failures + failures_in(self.pending)
    }

    /// The answer when no file is taken: wait while operations are in
    /// flight; after that, fail if a file is given up, and else look up the
    /// root of what is published.
    pub open spec fn settle(self) -> NextView {
        if self.in_flight.len() > 0 {
            NextView::Wait(self)
        } else if self.given_up().len() > 0 {
            NextView::Failed(self.given_up())
        } else {
            NextView::Stat { path: root_path(self.namespace), published: self.published }
        }
    }

    /// The run after the first pending file is taken and put in flight
    /// under the path `path`.
    pub open spec fn take(self, path: Seq<char>) -> ExportView {
        ExportView {
            pending: self.pending.drop_first(),
            started: self.started + 1,
            in_flight: self.in_flight.push(SlotView { slot: self.started, path }),
            ..self
        }
    }

    /// What is to be done next.
    ///
    /// While another file may be taken, the first pending one is: it is put
    /// in flight, under the number of files taken before it, and is to be
    /// published under the directory of the run. A file that stands as a
    /// failure is never taken: while one is pending no file may be taken,
    /// and the run ends with the failures.
    pub open spec fn next(self) -> NextView {
        if self.may_start() {
            match self.pending[0] {
                EntryView::Object(id) => NextView::Start(
                    self.take(object_path(id)),
                    JobView::Encode {
                        slot: self.started,
                        id,
                        path: publish_path(self.namespace, object_path(id)),
                    },
                ),
                EntryView::Ready { path, data } => NextView::Start(
                    self.take(path),
                    JobView::Publish {
                        slot: self.started,
                        path: publish_path(self.namespace, path),
                        data,
                    },
                ),
                EntryView::Failed(_) => self.settle(),
            }
        } else {
            self.settle()
        }
    }

    /// The run after the operation `slot` ended as `outcome` says: the
    /// operation is no longer in flight, and its file is published or given
    /// up. A number that no operation in flight has changes nothing.
    pub open spec fn complete(self, slot: nat, outcome: Result<(), Error>) -> ExportView {
        match position(self.in_flight, slot) {
            None => self,
            Some(k) => match outcome {
                Ok(_) => ExportView {
                    in_flight: self.in_flight.remove(k),
                    published: self.published + 1,
                    ..self
                },
                Err(cause) => ExportView {
                    in_flight: self.in_flight.remove(k),
                    failures: self.failures.push(
                        FailureView { path: self.in_flight[k].path, cause },
                    ),
                    ..self
                },
            },
        }
    }
}

/// Where `position` finds an operation, there is the first one with that
/// number; where it finds none, there is none.
pub proof fn lemma_position(in_flight: Seq<SlotView>, slot: nat)
    ensures
        match position(in_flight, slot) {
            Some(k) => 0 <= k < in_flight.len() && in_flight[k].slot == slot && forall|j: int|
                0 <= j < k ==> (#[trigger] in_flight[j]).slot != slot,
            None => forall|j: int|
                0 <= j < in_flight.len() ==> (#[trigger] in_flight[j]).slot != slot,
        },
    decreases in_flight.len(),
{
    if in_flight.len() > 0 && in_flight[0].slot != slot {
        let rest = in_flight.drop_first();
        lemma_position(rest, slot);
        match position(rest, slot) {
            Some(k) => {
                assert forall|j: int| 0 <= j < k + 1 implies (#[trigger] in_flight[j]).slot
                    != slot by {
                    if j > 0 {
                        assert(rest[j - 1] == in_flight[j]);
                    }
                }
            },
            None => {
                assert forall|j: int| 0 <= j < in_flight.len() implies (
                #[trigger] in_flight[j]).slot != slot by {
                    if j > 0 {
                        assert(rest[j - 1] == in_flight[j]);
                    }
                }
            },
        }
    }
}

/// The first operation with the number `slot` is where `position` finds it.
pub proof fn lemma_position_found(in_flight: Seq<SlotView>, slot: nat, k: int)
    requires
        0 <= k < in_flight.len(),
        in_flight[k].slot == slot,
        forall|j: int| 0 <= j < k ==> (#[trigger] in_flight[j]).slot != slot,
    ensures
        position(in_flight, slot) == Some(k),
{
    lemma_position(in_flight, slot);
}

/// What happens to a run: the program asks what to do next, or reports
/// that an operation has ended.
pub enum Event {
    Ask,
    Ended { slot: nat, outcome: Result<(), Error> },
}

impl ExportView {
    /// The run after an event. Asking what to do next moves the run on
    /// while it lasts, and changes nothing once it is over.
    pub open spec fn after(self, event: Event) -> ExportView {
        match event {
            Event::Ask => match self.next() {
                NextView::Start(run, _) => run,
                NextView::Wait(run) => run,
                _ => self,
            },
            Event::Ended { slot, outcome } => self.complete(slot, outcome),
        }
    }

    /// The run after a course of events.
    pub open spec fn after_all(self, events: Seq<Event>) -> ExportView
        decreases events.len(),
    {
        if events.len() == 0 {
            self
        } else {
            self.after_all(events.drop_last()).after(events.last())
        }
    }
}

/// A run begins well-formed, with nothing in flight.
pub proof fn lemma_begin_wf(namespace: Seq<char>, limit: nat, files: Seq<EntryView>)
    requires
        is_temp_dir_path(namespace),
        limit >= 1,
    ensures
        ExportView::begin(namespace, limit, files).wf(),
        ExportView::begin(namespace, limit, files).in_flight.len() == 0,
{
}

/// Asking what to do next keeps a run well-formed. An operation begins only
/// where fewer are in flight than the limit allows and no file has been
/// given up, and it is then the one more that is in flight.
pub proof fn lemma_next_keeps_wf(run: ExportView)
    requires
        run.wf(),
    ensures
        match run.next() {
            NextView::Start(then, _) => {
                &&& then.wf()
                &&& run.in_flight.len() < run.limit
                &&& run.failures.len() == 0
                &&& then.in_flight.len() == run.in_flight.len() + 1
            },
            NextView::Wait(then) => then.wf() && then.in_flight == run.in_flight,
            _ => true,
        },
{
}

/// Reporting the end of an operation keeps a run well-formed, and puts
/// nothing in flight.
pub proof fn lemma_complete_keeps_wf(run: ExportView, slot: nat, outcome: Result<(), Error>)
    requires
        run.wf(),
    ensures
        run.complete(slot, outcome).wf(),
        run.complete(slot, outcome).in_flight.len() <= run.in_flight.len(),
{
    lemma_position(run.in_flight, slot);
}

/// At no point of a run are more operations in flight than the limit
/// allows, whatever the program asks and reports, and in whatever order.
pub proof fn lemma_never_over_limit(
    namespace: Seq<char>,
    limit: nat,
    files: Seq<EntryView>,
    events: Seq<Event>,
)
    requires
        is_temp_dir_path(namespace),
        limit >= 1,
    ensures
        ExportView::begin(namespace, limit, files).after_all(events).wf(),
        ExportView::begin(namespace, limit, files).after_all(events).in_flight.len() <= limit,
        ExportView::begin(namespace, limit, files).after_all(events).limit == limit,
    decreases events.len(),
{
    let start = ExportView::begin(namespace, limit, files);
    if events.len() > 0 {
        lemma_never_over_limit(namespace, limit, files, events.drop_last());
        let before = start.after_all(events.drop_last());
        match events.last() {
            Event::Ask => lemma_next_keeps_wf(before),
            Event::Ended { slot, outcome } => lemma_complete_keeps_wf(before, slot, outcome),
        }
    }
}

/// Every file of an export is taken at most once, and in its order: at
/// each point of a run the files still pending are the last of the
/// export's files, and as many were taken as stand before them.
pub proof fn lemma_files_are_taken_in_order(
    namespace: Seq<char>,
    limit: nat,
    files: Seq<EntryView>,
    events: Seq<Event>,
)
    ensures
        ExportView::begin(namespace, limit, files).after_all(events).started <= files.len(),
        ExportView::begin(namespace, limit, files).after_all(events).pending == files.skip(
            ExportView::begin(namespace, limit, files).after_all(events).started as int,
        ),
    decreases events.len(),
{
    let start = ExportView::begin(namespace, limit, files);
    if events.len() == 0 {
        assert(files.skip(0) =~= files);
    } else {
        lemma_files_are_taken_in_order(namespace, limit, files, events.drop_last());
        let before = start.after_all(events.drop_last());
        let then = before.after(events.last());
        if then.started != before.started {
            assert(then.started == before.started + 1);
            assert(before.pending.len() > 0);
            assert(then.pending == before.pending.drop_first());
            assert(files.skip(before.started as int).drop_first() =~= files.skip(
                then.started as int,
            ));
        }
    }
}

/// The root of a run is looked up only when every file of the export is
/// published.
pub proof fn lemma_root_means_whole_export(
    namespace: Seq<char>,
    limit: nat,
    files: Seq<EntryView>,
    events: Seq<Event>,
)
    requires
        is_temp_dir_path(namespace),
        limit >= 1,
        ExportView::begin(namespace, limit, files).after_all(events).next() is Stat,
    ensures
        ExportView::begin(namespace, limit, files).after_all(events).next() == (NextView::Stat {
            path: root_path(namespace),
            published: files.len(),
        }),
        ExportView::begin(namespace, limit, files).after_all(events).failures.len() == 0,
{
    let run = ExportView::begin(namespace, limit, files).after_all(events);
    lemma_never_over_limit(namespace, limit, files, events);
    lemma_files_are_taken_in_order(namespace, limit, files, events);
    lemma_stat_means_all_published(run);
    lemma_namespace_stays(ExportView::begin(namespace, limit, files), events);
}

/// A run keeps its directory.
pub proof fn lemma_namespace_stays(run: ExportView, events: Seq<Event>)
    ensures
        run.after_all(events).namespace == run.namespace,
    decreases events.len(),
{
    if events.len() > 0 {
        lemma_namespace_stays(run, events.drop_last());
    }
}

/// Two runs of the same export that differ in their directory alone stay
/// the same in everything but their directory, whatever happens to both.
pub proof fn lemma_runs_differ_in_namespace_alone(
    run: ExportView,
    other: Seq<char>,
    events: Seq<Event>,
)
    ensures
        (ExportView { namespace: other, ..run }).after_all(events) == (ExportView {
            namespace: other,
            ..run.after_all(events)
        }),
    decreases events.len(),
{
    if events.len() > 0 {
        lemma_runs_differ_in_namespace_alone(run, other, events.drop_last());
        lemma_namespace_only_moves_paths(run.after_all(events.drop_last()), other);
    }
}

/// Once a file is given up, no operation begins any more.
pub proof fn lemma_nothing_starts_after_failure(run: ExportView)
    requires
        run.given_up().len() > 0,
    ensures
        !(run.next() is Start),
        !(run.next() is Stat),
{
}

/// The root is looked up only when every file was taken and is published:
/// nothing is pending, nothing is in flight, nothing was given up.
pub proof fn lemma_stat_means_all_published(run: ExportView)
    requires
        run.wf(),
        run.next() is Stat,
    ensures
        run.pending.len() == 0,
        run.in_flight.len() == 0,
        run.failures.len() == 0,
        run.published == run.started,
        run.next() == (NextView::Stat {
            path: root_path(run.namespace),
            published: run.started,
        }),
{
    lemma_failures_are_failed_entries(run.pending);
    assert(run.given_up().len() == run.failures.len() + failures_in(run.pending).len());
}

/// An export with a file that cannot be made ends at once, with every such
/// file as a failure and before any operation begins.
pub proof fn lemma_failed_entry_stops_export(
    namespace: Seq<char>,
    limit: nat,
    files: Seq<EntryView>,
)
    requires
        failures_in(files).len() > 0,
    ensures
        ExportView::begin(namespace, limit, files).next() == NextView::Failed(failures_in(files)),
{
    let run = ExportView::begin(namespace, limit, files);
    assert(run.given_up() =~= failures_in(files));
}

/// In an export with a file that cannot be made no operation ever begins:
/// whatever the program asks and reports, the run stays as it began.
pub proof fn lemma_failed_entry_blocks_run(
    namespace: Seq<char>,
    limit: nat,
    files: Seq<EntryView>,
    events: Seq<Event>,
)
    requires
        failures_in(files).len() > 0,
    ensures
        ExportView::begin(namespace, limit, files).after_all(events) == ExportView::begin(
            namespace,
            limit,
            files,
        ),
    decreases events.len(),
{
    if events.len() > 0 {
        lemma_failed_entry_blocks_run(namespace, limit, files, events.drop_last());
        lemma_failed_entry_stops_export(namespace, limit, files);
    }
}

/// A repository with a reference that cannot be listed is not exported: no
/// operation begins, and the run ends at once with the failure of that
/// reference first among its failures.
pub proof fn lemma_unlistable_reference_stops_export(
    files: Seq<EntryView>,
    oids: Vec<ObjectId>,
    refs: Vec<RefEntry>,
    head: Reference,
    namespace: Seq<char>,
    limit: nat,
)
    requires
        is_export(files, Ok(oids), Ok(refs), Ok(head)),
        first_failure(refs@) is Some,
    ensures
        ExportView::begin(namespace, limit, files).next() == NextView::Failed(failures_in(files)),
        failures_in(files)[0] == (FailureView {
            path: "/info/refs"@,
            cause: first_failure(refs@).unwrap(),
        }),
        failures_in(files).len() == 1 <==> head_content(head) is Some,
{
    lemma_failures_of_export(files, oids, refs, head);
    lemma_failed_entry_stops_export(namespace, limit, files);
}

/// A repository whose `HEAD` cannot be written down is not exported: no
/// operation begins, and the run ends at once with the failure of `/HEAD`
/// last among its failures.
pub proof fn lemma_unwritable_head_stops_export(
    files: Seq<EntryView>,
    oids: Vec<ObjectId>,
    refs: Vec<RefEntry>,
    head: Reference,
    namespace: Seq<char>,
    limit: nat,
)
    requires
        is_export(files, Ok(oids), Ok(refs), Ok(head)),
        head_content(head) is None,
    ensures
        ExportView::begin(namespace, limit, files).next() == NextView::Failed(failures_in(files)),
        failures_in(files).last().path == "/HEAD"@,
        EntryView::Failed(failures_in(files).last()) == files.last(),
{
    lemma_failures_of_export(files, oids, refs, head);
    lemma_failed_entry_stops_export(namespace, limit, files);
}

/// A repository that could be read, whose references can all be listed and
/// whose `HEAD` can be written down, has no file that stands as a failure:
/// its export begins.
pub proof fn lemma_sound_export_begins(
    files: Seq<EntryView>,
    oids: Vec<ObjectId>,
    refs: Vec<RefEntry>,
    head: Reference,
    namespace: Seq<char>,
    limit: nat,
)
    requires
        is_export(files, Ok(oids), Ok(refs), Ok(head)),
        first_failure(refs@) is None,
        head_content(head) is Some,
        limit >= 1,
    ensures
        ExportView::begin(namespace, limit, files).next() is Start,
{
    lemma_failures_of_export(files, oids, refs, head);
    lemma_failures_are_failed_entries(files);
}

/// Two runs that differ in their directory alone do the same: they begin
/// the same operation on the same file with the same content, each under
/// its own directory, or both wait, or both end in the same way.
pub proof fn lemma_namespace_only_moves_paths(run: ExportView, other: Seq<char>)
    ensures
        match (run.next(), (ExportView { namespace: other, ..run }).next()) {
            (NextView::Start(a, JobView::Encode { slot, id, path }), NextView::Start(b, job)) => {
                &&& b == ExportView { namespace: other, ..a }
                &&& path == publish_path(run.namespace, object_path(id))
                &&& job == JobView::Encode { slot, id, path: publish_path(other, object_path(id)) }
            },
            (
                NextView::Start(a, JobView::Publish { slot, path, data }),
                NextView::Start(b, job),
            ) => {
                &&& b == ExportView { namespace: other, ..a }
                &&& a.in_flight.len() > 0
                &&& path == publish_path(run.namespace, a.in_flight.last().path)
                &&& job == JobView::Publish {
                    slot,
                    path: publish_path(other, a.in_flight.last().path),
                    data,
                }
            },
            (NextView::Wait(a), NextView::Wait(b)) => b == ExportView { namespace: other, ..a },
            (NextView::Stat { path, published }, NextView::Stat { path: q, published: n }) => {
                &&& path == root_path(run.namespace)
                &&& q == root_path(other)
                &&& published == n
            },
            (NextView::Failed(a), NextView::Failed(b)) => a == b,
            _ => false,
        },
{
}

/// An operation in flight: its number, and the path of its file inside the
/// export.
#[derive(Debug)]
pub struct Slot {
    pub slot: usize,
    pub path: String,
}

impl View for Slot {
    type V = SlotView;

    open spec fn view(&self) -> SlotView {
        SlotView { slot: self.slot as nat, path: self.path@ }
    }
}

/// What the program is to do for one file. When it is done, or given up,
/// the program reports that with `Export::complete` under the number
/// `slot`.
#[derive(Debug)]
pub enum Job {
    /// Read the object `id`, encode it with `File::from_object`, and write
    /// the outcome at `path`.
    Encode { slot: usize, id: ObjectId, path: String },
    /// Write `data` at `path`.
    Publish { slot: usize, path: String, data: Bytes },
}

impl View for Job {
    type V = JobView;

    open spec fn view(&self) -> JobView {
        match self {
            Job::Encode { slot, id, path } => JobView::Encode {
                slot: *slot as nat,
                id: *id,
                path: path@,
            },
            Job::Publish { slot, path, data } => JobView::Publish {
                slot: *slot as nat,
                path: path@,
                data: bytes_contents(*data),
            },
        }
    }
}

/// A run under way.
#[derive(Debug)]
pub struct Export {
    namespace: String,
    limit: usize,
    files: Files,
    blocked: bool,
    started: usize,
    published: usize,
    in_flight: Vec<Slot>,
    failures: Vec<Failure>,
}

/// A run of which every file is published: what is left is to ask the
/// daemon for the root of the run's directory.
#[derive(Debug)]
pub struct Resolve {
    path: String,
    published: usize,
}

/// What is to be done next.
#[derive(Debug)]
pub enum Next {
    /// Begin this operation, and ask again.
    Start(Export, Job),
    /// Nothing can begin now. Wait for an operation in flight to end,
    /// report it, and ask again.
    Wait(Export),
    /// Every file is published: look up the root.
    Stat(Resolve),
    /// The run failed. Nothing is in flight any more, and these are the
    /// files that were given up.
    Failed(Vec<Failure>),
}

/// The views of the operations in flight, in their order.
pub open spec fn slot_views(in_flight: Seq<Slot>) -> Seq<SlotView> {
    Seq::new(in_flight.len(), |i: int| in_flight[i]@)
}

impl View for Export {
    type V = ExportView;

    closed spec fn view(&self) -> ExportView {
        ExportView {
            namespace: self.namespace@,
            limit: self.limit as nat,
            pending: self.files@,
            started: self.started as nat,
            published: self.published as nat,
            in_flight: slot_views(self.in_flight@),
            failures: failure_views(self.failures@),
        }
    }
}

impl View for Resolve {
    type V = (Seq<char>, nat);

    closed spec fn view(&self) -> (Seq<char>, nat) {
        (self.path@, self.published as nat)
    }
}

impl View for Next {
    type V = NextView;

    open spec fn view(&self) -> NextView {
        match self {
            Next::Start(export, job) => NextView::Start(export@, job@),
            Next::Wait(export) => NextView::Wait(export@),
            Next::Stat(resolve) => NextView::Stat { path: resolve@.0, published: resolve@.1 },
            Next::Failed(failures) => NextView::Failed(failure_views(failures@)),
        }
    }
}

/// Begins the export of `files` into the directory `namespace`, with at most
/// `concurrency_limit` files published at once.
///
/// A limit of zero is refused, and so is a directory name that is not
/// `TMP_PATH_LEN` ASCII letters and digits.
pub fn git2ipfs(files: Files, namespace: String, concurrency_limit: usize) -> (r: Result<
    Export,
    Error,
>)
    ensures
        concurrency_limit == 0 ==> r == Err::<Export, Error>(
            Error::Config { source: ConfigError::ConcurrencyLimit },
        ),
        concurrency_limit > 0 && !is_temp_dir_path(namespace@) ==> r == Err::<Export, Error>(
            Error::Config { source: ConfigError::Namespace },
        ),
        concurrency_limit > 0 && is_temp_dir_path(namespace@) ==> (r matches Ok(export)
            && export@ == ExportView::begin(namespace@, concurrency_limit as nat, files@)
            && export@.wf()),
{
    if concurrency_limit == 0 {
        return Err(Error::Config { source: ConfigError::ConcurrencyLimit });
    }
    if !check_temp_dir_path(namespace.as_str()) {
        return Err(Error::Config { source: ConfigError::Namespace });
    }
    let in_flight: Vec<Slot> = Vec::new();
    let failures: Vec<Failure> = Vec::new();
    let blocked = files.has_failed();
    proof {
        files.lemma_len_fits();
        assert(slot_views(in_flight@) =~= Seq::<SlotView>::empty());
        assert(failure_views(failures@) =~= Seq::<FailureView>::empty());
    }
    Ok(
        Export {
            namespace,
            limit: concurrency_limit,
            files,
            blocked,
            started: 0,
            published: 0,
            in_flight,
            failures,
        },
    )
}

/// Puts the files that stand as failures behind the failures that are
/// there, in their order.
fn gather(files: Files, failures: Vec<Failure>) -> (all: Vec<Failure>)
    ensures
        failure_views(all@) == failure_views(failures@) + failures_in(files@),
{
    let ghost goal = failure_views(failures@) + failures_in(files@);
    let mut files = files;
    let mut all = failures;
    while files.len() > 0
        invariant
            failure_views(all@) + failures_in(files@) == goal,
        decreases files@.len(),
    {
        let ghost left = files@;
        let ghost found = failure_views(all@);
        let entry = files.next().unwrap();
        proof {
            let first = seq![left[0]];
            assert(left =~= first + left.drop_first());
            lemma_failures_concat(first, left.drop_first());
            assert(first.drop_last() =~= Seq::<EntryView>::empty());
            assert(failures_in(first.drop_last()).len() == 0);
            assert(first.last() == left[0]);
        }
        if let Entry::Failed(failure) = entry {
            all.push(failure);
            proof {
                assert(failure_views(all@) =~= found.push(failure@));
                assert(found.push(failure@) + failures_in(files@) =~= found + (seq![failure@]
                    + failures_in(files@)));
                assert(failures_in(seq![left[0]]) =~= seq![failure@]);
            }
        } else {
            proof {
                assert(failures_in(seq![left[0]]) =~= Seq::<FailureView>::empty());
                assert(failures_in(left) =~= failures_in(files@));
            }
        }
    }
    assert(failure_views(all@) =~= goal) by {
        assert(files@ =~= Seq::<EntryView>::empty());
        assert(failures_in(files@).len() == 0);
    }
    all
}

impl Export {
    #[verifier::type_invariant]
    spec fn inv(self) -> bool {
        &&& self@.wf()
        &&& self.started + self.files@.len() <= usize::MAX
        &&& self.blocked == (failures_in(self.files@).len() > 0)
    }

    /// The number of operations in flight, which the limit bounds.
    pub fn in_flight(&self) -> (n: usize)
        ensures
            n == self@.in_flight.len(),
            n <= self@.limit,
            self@.wf(),
    {
        proof {
            use_type_invariant(self);
        }
        self.in_flight.len()
    }

    /// The answer when no file is taken.
    fn settle(self) -> (next: Next)
        ensures
            next@ == self@.settle(),
            next matches Next::Wait(export) ==> export@.wf(),
    {
        proof {
            use_type_invariant(&self);
        }
        if self.in_flight.len() > 0 {
            return Next::Wait(self);
        }
        let ghost before = self@;
        let Export { namespace, limit: _, files, blocked, started: _, published, in_flight: _, failures } =
            self;
        let failures = if blocked {
            gather(files, failures)
        } else {
            assert(failure_views(failures@) + failures_in(files@) =~= failure_views(failures@));
            failures
        };
        assert(failure_views(failures@) == before.given_up());
        if failures.len() > 0 {
            Next::Failed(failures)
        } else {
            Next::Stat(Resolve { path: root_of(namespace.as_str()), published })
        }
    }

    /// Says what is to be done next: see `ExportView::next`.
    ///
    /// An operation begins only while fewer are in flight than the limit
    /// allows, no file has been given up, and none of the files that are
    /// left stands as a failure. The root is looked up only when every file
    /// is published.
    pub fn next(self) -> (next: Next)
        ensures
            next@ == self@.next(),
            next matches Next::Start(export, _) ==> export@.wf(),
            next matches Next::Wait(export) ==> export@.wf(),
    {
        proof {
            use_type_invariant(&self);
        }
        if self.blocked || self.failures.len() > 0 || self.in_flight.len() >= self.limit
            || self.files.len() == 0 {
            return self.settle();
        }
        let ghost before = self@;
        let Export { namespace, limit, mut files, blocked, started, published, mut in_flight, failures } =
            self;
        let ghost flying = in_flight@;
        proof {
            lemma_failures_are_failed_entries(before.pending);
            lemma_failures_are_failed_entries(before.pending.drop_first());
            assert forall|i: int| 0 <= i < before.pending.drop_first().len() implies !(
            #[trigger] before.pending.drop_first()[i] is Failed) by {
                assert(before.pending.drop_first()[i] == before.pending[i + 1]);
            }
        }
        match files.next().unwrap() {
            Entry::Object(id) => {
                let inside = path_of_object(&id);
                let path = path_in(namespace.as_str(), inside.as_str());
                in_flight.push(Slot { slot: started, path: inside });
                proof {
                    assert(slot_views(in_flight@) =~= slot_views(flying).push(
                        SlotView { slot: started as nat, path: inside@ },
                    ));
                }
                let export = Export {
                    namespace,
                    limit,
                    files,
                    blocked,
                    started: started + 1,
                    published,
                    in_flight,
                    failures,
                };
                assert(export@ == before.take(object_path(id)));
                Next::Start(export, Job::Encode { slot: started, id, path })
            },
            Entry::Ready(file) => {
                let path = path_in(namespace.as_str(), file.path.as_str());
                let File { path: inside, data } = file;
                in_flight.push(Slot { slot: started, path: inside });
                proof {
                    assert(slot_views(in_flight@) =~= slot_views(flying).push(
                        SlotView { slot: started as nat, path: inside@ },
                    ));
                }
                let export = Export {
                    namespace,
                    limit,
                    files,
                    blocked,
                    started: started + 1,
                    published,
                    in_flight,
                    failures,
                };
                assert(export@ == before.take(inside@));
                Next::Start(export, Job::Publish { slot: started, path, data })
            },
            Entry::Failed(_) => {
                assert(before.pending[0] is Failed);
                vstd::pervasive::unreached()
            },
        }
    }

    /// Takes note that the operation `slot` has ended, as `outcome` says:
    /// see `ExportView::complete`.
    pub fn complete(self, slot: usize, outcome: Result<(), Error>) -> (export: Export)
        ensures
            export@ == self@.complete(slot as nat, outcome),
            export@.wf(),
    {
        proof {
            use_type_invariant(&self);
        }
        let mut k: usize = 0;
        while k < self.in_flight.len() && self.in_flight[k].slot != slot
            invariant
                k <= self.in_flight.len(),
                forall|j: int| 0 <= j < k ==> (#[trigger] self.in_flight@[j]).slot != slot,
            decreases self.in_flight.len() - k,
        {
            k += 1;
        }
        let ghost flying = slot_views(self.in_flight@);
        if k == self.in_flight.len() {
            proof {
                lemma_position(flying, slot as nat);
                if position(flying, slot as nat) is Some {
                    let found = position(flying, slot as nat).unwrap();
                    assert(flying[found] == self.in_flight@[found]@);
                }
            }
            return self;
        }
        proof {
            assert forall|j: int| 0 <= j < k implies (#[trigger] flying[j]).slot != slot as nat by {
                assert(flying[j] == self.in_flight@[j]@);
            }
            lemma_position_found(flying, slot as nat, k as int);
        }
        let Export { namespace, limit, files, blocked, started, published, mut in_flight, mut failures } =
            self;
        let ghost failed = failures@;
        let gone = in_flight.remove(k);
        proof {
            assert(slot_views(in_flight@) =~= flying.remove(k as int));
        }
        match outcome {
            Ok(_) => Export {
                namespace,
                limit,
                files,
                blocked,
                started,
                published: published + 1,
                in_flight,
                failures,
            },
            Err(cause) => {
                failures.push(Failure { path: gone.path, cause });
                proof {
                    assert(failure_views(failures@) =~= failure_views(failed).push(
                        FailureView { path: gone.path@, cause },
                    ));
                }
                Export { namespace, limit, files, blocked, started, published, in_flight, failures }
            },
        }
    }
}

impl Resolve {
    /// The directory whose root is to be looked up.
    pub fn path(&self) -> (path: &str)
        ensures
            path@ == self@.0,
    {
        self.path.as_str()
    }

    /// The number of files that are published.
    pub fn published(&self) -> (n: usize)
        ensures
            n == self@.1,
    {
        self.published
    }

    /// Ends the run with what the daemon said of the root: the root's
    /// content id, or the directory of the run and why its root is not
    /// known.
    pub fn resolved(self, stat: Result<String, Error>) -> (r: Result<String, Vec<Failure>>)
        ensures
            stat matches Ok(root) ==> r == Ok::<String, Vec<Failure>>(root),
            stat matches Err(cause) ==> (r matches Err(failures) && failure_views(failures@)
                == seq![FailureView { path: self@.0, cause }]),
    {
        match stat {
            Ok(root) => Ok(root),
            Err(cause) => {
                let mut failures: Vec<Failure> = Vec::new();
                failures.push(Failure { path: self.path, cause });
                assert(failure_views(failures@) =~= seq![FailureView { path: self@.0, cause }]);
                Err(failures)
            },
        }
    }
}

} // verus!
