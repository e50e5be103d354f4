//! Worker task and extraction coordinator.
//!
//! A worker owns one independently opened archive handle and one
//! [`WorkRange`]; it validates and plans the extraction of its assigned
//! entries in ascending index order. The coordinator partitions the
//! entry-index space, runs one worker per range, and aggregates per-worker
//! failures, in ascending worker-index order, into one report.
//!
//! Planned filesystem writes are returned as [`WriteAction`] values rather
//! than performed here: each action carries a validated path, confined to
//! the destination root, as resolved components.

use vstd::prelude::*;
use crate::archive::{ArchiveHandle, zip_contents, zip_entry_ok, zip_names, zip_parse_ok};
use crate::partition::{partition_of, plan_partition, range_bound, WorkRange};
use crate::path_safety::{is_normal_component, resolve_entry_path, resolve_path};

verus! {

/// Ghost model of one planned write below the destination root.
pub enum ActionModel {
    MakeDir { path: Seq<Seq<char>> },
    WriteFile { path: Seq<Seq<char>>, data: Seq<u8> },
}

impl ActionModel {
    /// The destination path the action writes, as resolved components.
    pub open spec fn path(self) -> Seq<Seq<char>> {
        match self {
            ActionModel::MakeDir { path } => path,
            ActionModel::WriteFile { path, .. } => path,
        }
    }
}

/// One planned write below the destination root: a directory to create
/// (idempotently) or a file to create or overwrite with the entry's
/// decompressed bytes. The path is the validated entry name's resolved
/// components.
#[derive(Clone, Debug, PartialEq, Eq)]
pub enum WriteAction {
    MakeDir { path: Vec<String> },
    WriteFile { path: Vec<String>, data: Vec<u8> },
}

impl View for WriteAction {
    type V = ActionModel;

    open spec fn view(&self) -> ActionModel {
        match self {
            WriteAction::MakeDir { path } => ActionModel::MakeDir { path: path.deep_view() },
            WriteAction::WriteFile { path, data } => ActionModel::WriteFile {
                path: path.deep_view(),
                data: data@,
            },
        }
    }
}

/// The models of a sequence of planned writes.
pub open spec fn actions_view(s: Seq<WriteAction>) -> Seq<ActionModel> {
    Seq::new(s.len(), |i: int| s[i]@)
}

/// Whether a stored entry name marks a directory: it ends with `/`.
pub open spec fn is_dir_name(name: Seq<char>) -> bool {
    name.len() > 0 && name[name.len() - 1] == '/'
}

/// What extracting the entry with stored name `name` and decompressed
/// contents `data` writes: nothing when the validator rejects the name or
/// the name resolves to the destination root itself, a directory when the
/// name is a directory marker, and otherwise a file holding `data`.
pub open spec fn entry_action(name: Seq<char>, data: Seq<u8>) -> Option<ActionModel> {
    match resolve_path(name) {
        Option::None => Option::None,
        Option::Some(path) => if path.len() == 0 {
            Option::None
        } else if is_dir_name(name) {
            Option::Some(ActionModel::MakeDir { path })
        } else {
            Option::Some(ActionModel::WriteFile { path, data })
        },
    }
}

/// Whether extracting the entry with stored name `name` writes a file, so
/// its decompressed contents must be read.
pub open spec fn entry_needs_data(name: Seq<char>) -> bool {
    match resolve_path(name) {
        Option::None => false,
        Option::Some(path) => path.len() > 0 && !is_dir_name(name),
    }
}

/// Every entry of `from .. to` whose extraction writes a file has readable
/// data: nothing stops those entries from being extracted.
pub open spec fn entries_readable(bytes: Seq<u8>, from: int, to: int) -> bool {
    forall|i: int|
        from <= i < to && entry_needs_data(#[trigger] zip_names(bytes)[i]) ==> zip_entry_ok(
            bytes,
            i,
        )
}

/// The writes planned for entries `from .. to`, in ascending index order.
pub open spec fn planned_actions(
    names: Seq<Seq<char>>,
    datas: Seq<Seq<u8>>,
    from: int,
    to: int,
) -> Seq<ActionModel>
    decreases to - from,
{
    if from < 0 || from >= to {
        Seq::empty()
    } else {
        let head = match entry_action(names[from], datas[from]) {
            Option::None => Seq::<ActionModel>::empty(),
            Option::Some(a) => seq![a],
        };
        head + planned_actions(names, datas, from + 1, to)
    }
}

/// Planned writes concatenate across adjacent index ranges.
pub proof fn lemma_planned_actions_concat(
    names: Seq<Seq<char>>,
    datas: Seq<Seq<u8>>,
    a: int,
    b: int,
    c: int,
)
    requires
        0 <= a <= b <= c,
    ensures
        planned_actions(names, datas, a, c) == planned_actions(names, datas, a, b)
            + planned_actions(names, datas, b, c),
    decreases b - a,
{
    if a == b {
        assert(planned_actions(names, datas, a, b) =~= Seq::empty());
        assert(planned_actions(names, datas, a, b) + planned_actions(names, datas, b, c)
            =~= planned_actions(names, datas, b, c));
    } else {
        lemma_planned_actions_concat(names, datas, a + 1, b, c);
        let head = match entry_action(names[a], datas[a]) {
            Option::None => Seq::<ActionModel>::empty(),
            Option::Some(x) => seq![x],
        };
        assert(planned_actions(names, datas, a, c) == head + planned_actions(
            names,
            datas,
            a + 1,
            c,
        ));
        assert(head + (planned_actions(names, datas, a + 1, b) + planned_actions(
            names,
            datas,
            b,
            c,
        )) =~= (head + planned_actions(names, datas, a + 1, b)) + planned_actions(
            names,
            datas,
            b,
            c,
        ));
    }
}

/// Raw per-entry metadata read from the archive's own index.
pub struct EntryDescriptor {
    /// The stored name, exactly as the archive's index holds it.
    pub name: String,
    /// Whether the entry is a directory marker.
    pub is_dir: bool,
}

/// Whether `name` ends with the directory-marker separator.
fn ends_with_slash(name: &str) -> (r: bool)
    ensures
        r == is_dir_name(name@),
{
    let len = name.unicode_len();
    len > 0 && name.get_char(len - 1) == '/'
}

/// Reads entry `i`'s metadata from the archive's index: its raw stored
/// name and whether it marks a directory. Returns `None` exactly when `i`
/// is not below the archive's entry count.
pub(crate) fn entry_descriptor(archive: &ArchiveHandle, i: usize) -> (r: Option<EntryDescriptor>)
    ensures
        match r {
            Some(d) => i < zip_names(archive.source_bytes()).len() && d.name@ == zip_names(
                archive.source_bytes(),
            )[i as int] && d.is_dir == is_dir_name(d.name@),
            None => i >= zip_names(archive.source_bytes()).len(),
        },
{
    match archive.entry_name(i) {
        Some(name) => {
            let is_dir = ends_with_slash(name.as_str());
            Some(EntryDescriptor { name, is_dir })
        },
        None => None,
    }
}

/// Reads the archive's own index once: the total entry count and each
/// entry's raw stored name and directory flag, in index order. Fails
/// exactly when the bytes do not parse as an archive.
pub fn read_index(bytes: &[u8]) -> (r: Result<Vec<EntryDescriptor>, String>)
    ensures
        r is Ok <==> zip_parse_ok(bytes@),
        r is Ok ==> {
            let v = r->Ok_0;
            let names = zip_names(bytes@);
            &&& v@.len() == names.len()
            &&& forall|i: int|
                0 <= i < v@.len() ==> (#[trigger] v@[i]).name@ == names[i] && v@[i].is_dir
                    == is_dir_name(names[i])
        },
{
    let archive = match ArchiveHandle::open(bytes) {
        Ok(a) => a,
        Err(m) => {
            return Err(m);
        },
    };
    let n = archive.entry_count();
    let mut v: Vec<EntryDescriptor> = Vec::new();
    let mut i: usize = 0;
    while i < n
        invariant
            i <= n,
            n == zip_names(bytes@).len(),
            archive.source_bytes() == bytes@,
            v@.len() == i,
            forall|j: int|
                0 <= j < i ==> (#[trigger] v@[j]).name@ == zip_names(bytes@)[j] && v@[j].is_dir
                    == is_dir_name(zip_names(bytes@)[j]),
        decreases n - i,
    {
        match entry_descriptor(&archive, i) {
            Some(d) => {
                v.push(d);
            },
            None => {
                return Err("entry index beyond the archive's index".to_owned());
            },
        }
        i = i + 1;
    }
    Ok(v)
}

/// Plans the extraction of entry `i`: validates the stored name, and for an
/// accepted name reads the decompressed contents when a file is to be
/// written. Returns `Ok(None)` when the entry is skipped, and `Err` with
/// the cause when the entry cannot be read.
pub(crate) fn plan_entry(archive: &mut ArchiveHandle, i: usize) -> (r: Result<Option<WriteAction>, String>)
    requires
        old(archive).wf(),
        i < zip_names(old(archive).source_bytes()).len(),
    ensures
        final(archive).source_bytes() == old(archive).source_bytes(),
        r is Ok <==> (!entry_needs_data(zip_names(old(archive).source_bytes())[i as int])
            || zip_entry_ok(old(archive).source_bytes(), i as int)),
        r is Ok ==> match r->Ok_0 {
            Some(a) => entry_action(
                zip_names(old(archive).source_bytes())[i as int],
                zip_contents(old(archive).source_bytes())[i as int],
            ) == Some(a@),
            None => entry_action(
                zip_names(old(archive).source_bytes())[i as int],
                zip_contents(old(archive).source_bytes())[i as int],
            ) is None,
        },
{
    let name = match archive.entry_name(i) {
        Some(n) => n,
        None => {
            return Err("entry index beyond the archive's index".to_owned());
        },
    };
    let is_dir = ends_with_slash(name.as_str());
    match resolve_entry_path(name.as_str()) {
        None => Ok(None),
        Some(path) => {
            if path.len() == 0 {
                Ok(None)
            } else if is_dir {
                Ok(Some(WriteAction::MakeDir { path }))
            } else {
                match archive.entry_data(i) {
                    Ok(data) => Ok(Some(WriteAction::WriteFile { path, data })),
                    Err(m) => Err(m),
                }
            }
        },
    }
}

/// A worker's own view of the archive, for planning one entry at a time:
/// the handle it opened and owns. It lets the extraction loop plan an
/// entry, perform the write, and only then read the next entry, in
/// ascending index order.
pub struct WorkerTask {
    archive: ArchiveHandle,
}

impl WorkerTask {
    /// The raw archive bytes this worker's handle was opened from.
    pub closed spec fn source_bytes(self) -> Seq<u8> {
        self.archive.source_bytes()
    }

    /// The handle is good for reading: every entry has both a name and
    /// contents. `start` establishes this and every step keeps it.
    pub closed spec fn wf(self) -> bool {
        self.archive.wf()
    }

    /// Opens a handle exclusive to this worker; succeeds exactly when the
    /// bytes parse as an archive.
    pub fn start(bytes: &[u8]) -> (r: Result<WorkerTask, String>)
        ensures
            r is Ok <==> zip_parse_ok(bytes@),
            r is Ok ==> (r->Ok_0).wf() && (r->Ok_0).source_bytes() == bytes@,
    {
        match ArchiveHandle::open(bytes) {
            Ok(archive) => Ok(WorkerTask { archive }),
            Err(m) => Err(m),
        }
    }

    /// The archive's total entry count.
    pub fn entry_count(&self) -> (n: usize)
        ensures
            n == zip_names(self.source_bytes()).len(),
    {
        self.archive.entry_count()
    }

    /// Plans the extraction of entry `i`: `Ok(None)` when the entry is
    /// skipped or its index is beyond the count, `Ok(Some(_))` with the
    /// planned write, and `Err` with the cause exactly when the entry's
    /// data is needed but cannot be read.
    pub fn plan_one(&mut self, i: usize) -> (r: Result<Option<WriteAction>, String>)
        requires
            old(self).wf(),
        ensures
            final(self).wf(),
            final(self).source_bytes() == old(self).source_bytes(),
            ({
                let names = zip_names(old(self).source_bytes());
                let datas = zip_contents(old(self).source_bytes());
                &&& i >= names.len() ==> r == Ok::<Option<WriteAction>, String>(None)
                &&& i < names.len() ==> {
                    &&& (r is Ok <==> (!entry_needs_data(names[i as int]) || zip_entry_ok(
                        old(self).source_bytes(),
                        i as int,
                    )))
                    &&& r is Ok ==> match r->Ok_0 {
                        Some(a) => entry_action(names[i as int], datas[i as int]) == Some(a@),
                        None => entry_action(names[i as int], datas[i as int]) is None,
                    }
                }
            }),
    {
        if i >= self.archive.entry_count() {
            return Ok(None);
        }
        plan_entry(&mut self.archive, i)
    }
}

/// Worker task: opens an archive handle exclusive to this worker over
/// `bytes` and plans the extraction of the entries of `range` in ascending
/// index order. Returns the planned writes, paired with `None` exactly when
/// nothing failed: the range is well-formed and within the archive's index,
/// the bytes parse, and every entry of the range that writes a file is
/// readable. A failure aborts only this worker's remaining entries, and the
/// writes planned before it stand.
pub fn plan_range(bytes: &[u8], range: WorkRange) -> (r: (Vec<WriteAction>, Option<String>))
    ensures
        r.1 is None <==> (range.start <= range.end && zip_parse_ok(bytes@) && range.end
            <= zip_names(bytes@).len() && entries_readable(
            bytes@,
            range.start as int,
            range.end as int,
        )),
        range.start > range.end ==> r.0@.len() == 0,
        range.start <= range.end ==> match r.1 {
            Option::None => range.end <= zip_names(bytes@).len() && actions_view(r.0@)
                == planned_actions(
                zip_names(bytes@),
                zip_contents(bytes@),
                range.start as int,
                range.end as int,
            ),
            Option::Some(_) => exists|k: int|
                range.start <= k <= range.end && actions_view(r.0@) == planned_actions(
                    zip_names(bytes@),
                    zip_contents(bytes@),
                    range.start as int,
                    k,
                ),
        },
{
    let ghost names = zip_names(bytes@);
    let ghost datas = zip_contents(bytes@);
    let mut actions: Vec<WriteAction> = Vec::new();
    proof {
        assert(actions_view(actions@) =~= Seq::<ActionModel>::empty());
        assert(planned_actions(names, datas, range.start as int, range.start as int)
            =~= Seq::<ActionModel>::empty());
    }
    if range.start > range.end {
        return (actions, Some("invalid work range".to_owned()));
    }
    let mut task = match WorkerTask::start(bytes) {
        Ok(t) => t,
        Err(m) => {
            return (actions, Some(m));
        },
    };
    let count = task.entry_count();
    if range.end > count {
        return (actions, Some("work range exceeds the archive's entry count".to_owned()));
    }
    let mut i: usize = range.start;
    while i < range.end
        invariant
            range.start <= i <= range.end,
            names == zip_names(bytes@),
            datas == zip_contents(bytes@),
            range.end <= names.len(),
            task.wf(),
            task.source_bytes() == bytes@,
            zip_parse_ok(bytes@),
            entries_readable(bytes@, range.start as int, i as int),
            actions_view(actions@) == planned_actions(names, datas, range.start as int, i as int),
        decreases range.end - i,
    {
        let ghost prev = actions@;
        let step = task.plan_one(i);
        proof {
            lemma_planned_actions_concat(names, datas, range.start as int, i as int, i as int + 1);
            assert(planned_actions(names, datas, i as int + 1, i as int + 1)
                =~= Seq::<ActionModel>::empty());
        }
        match step {
            Ok(Some(a)) => {
                proof {
                    assert(planned_actions(names, datas, i as int, i as int + 1) =~= seq![a@]);
                }
                actions.push(a);
                proof {
                    assert(actions_view(actions@) =~= actions_view(prev).push(a@));
                    assert(actions_view(prev) + seq![a@] =~= actions_view(prev).push(a@));
                }
            },
            Ok(None) => {
                proof {
                    assert(planned_actions(names, datas, i as int, i as int + 1)
                        =~= Seq::<ActionModel>::empty());
                    assert(actions_view(actions@) + Seq::<ActionModel>::empty()
                        =~= actions_view(actions@));
                }
            },
            Err(m) => {
                proof {
                    assert(entry_needs_data(zip_names(bytes@)[i as int]) && !zip_entry_ok(
                        bytes@,
                        i as int,
                    ));
                    assert(!entries_readable(bytes@, range.start as int, range.end as int));
                }
                return (actions, Some(m));
            },
        }
        proof {
            assert(entries_readable(bytes@, range.start as int, i as int + 1)) by {
                assert forall|j: int|
                    range.start <= j < i as int + 1 && entry_needs_data(
                        #[trigger] zip_names(bytes@)[j],
                    ) implies zip_entry_ok(bytes@, j) by {
                    if j < i as int {
                        assert(entries_readable(bytes@, range.start as int, i as int));
                    }
                }
            }
        }
        i = i + 1;
    }
    (actions, None)
}

/// Per-worker failure description: the worker's index and the cause.
#[derive(Clone, Debug, PartialEq, Eq)]
pub struct WorkerFailure {
    pub worker: usize,
    pub message: String,
}

impl View for WorkerFailure {
    type V = (int, Seq<char>);

    open spec fn view(&self) -> (int, Seq<char>) {
        (self.worker as int, self.message@)
    }
}

/// The models of a sequence of failure descriptions.
pub open spec fn failures_view(s: Seq<WorkerFailure>) -> Seq<(int, Seq<char>)> {
    Seq::new(s.len(), |i: int| s[i]@)
}

/// Outcome of one extraction run: either every worker succeeded, or the
/// ordered list of per-worker failure descriptions.
#[derive(Clone, Debug, PartialEq, Eq)]
pub enum ExtractionResult {
    Succeeded,
    Failed(Vec<WorkerFailure>),
}

/// The failure entries among `results[from ..]`, each under its worker
/// index, in ascending worker order.
pub open spec fn failure_report(results: Seq<Option<Seq<char>>>, from: int) -> Seq<
    (int, Seq<char>),
>
    decreases results.len() - from,
{
    if from < 0 || from >= results.len() {
        Seq::empty()
    } else {
        let rest = failure_report(results, from + 1);
        match results[from] {
            Option::Some(m) => seq![(from, m)] + rest,
            Option::None => rest,
        }
    }
}

/// The failure report holds exactly the workers whose result carries a
/// failure message, in strictly ascending worker order.
pub proof fn lemma_failure_report_exact(results: Seq<Option<Seq<char>>>, from: int)
    requires
        from >= 0,
    ensures
        forall|e: (int, Seq<char>)|
            #[trigger] failure_report(results, from).contains(e) <==> (from <= e.0 < results.len()
                && results[e.0] == Option::Some(e.1)),
        forall|x: int, y: int|
            0 <= x < y < failure_report(results, from).len() ==> (#[trigger] failure_report(
                results,
                from,
            )[x]).0 < (#[trigger] failure_report(results, from)[y]).0,
        forall|x: int|
            0 <= x < failure_report(results, from).len() ==> from <= (#[trigger] failure_report(
                results,
                from,
            )[x]).0 < results.len(),
    decreases results.len() - from,
{
    if from >= results.len() {
    } else {
        lemma_failure_report_exact(results, from + 1);
        let rest = failure_report(results, from + 1);
        let report = failure_report(results, from);
        match results[from] {
            Option::Some(m) => {
                assert forall|e: (int, Seq<char>)| #[trigger] report.contains(e) implies (from
                    <= e.0 < results.len() && results[e.0] == Option::Some(e.1)) by {
                    let ix = choose|ix: int| 0 <= ix < report.len() && report[ix] == e;
                    if ix == 0 {
                    } else {
                        assert(rest[ix - 1] == e);
                        assert(rest.contains(e));
                    }
                }
                assert forall|e: (int, Seq<char>)|
                    (from <= e.0 < results.len() && results[e.0] == Option::Some(
                        e.1,
                    )) implies #[trigger] report.contains(e) by {
                    if e.0 == from {
                        assert(report[0] == e);
                    } else {
                        assert(rest.contains(e));
                        let ix = choose|ix: int| 0 <= ix < rest.len() && rest[ix] == e;
                        assert(report[ix + 1] == e);
                    }
                }
                assert forall|x: int, y: int|
                    0 <= x < y < report.len() implies (#[trigger] report[x]).0 < (
                #[trigger] report[y]).0 by {
                    if x == 0 {
                        assert(rest[y - 1] == report[y]);
                        assert(rest.contains(rest[y - 1]));
                    } else {
                        assert(rest[x - 1] == report[x]);
                        assert(rest[y - 1] == report[y]);
                    }
                }
                assert forall|x: int| 0 <= x < report.len() implies from <= (
                #[trigger] report[x]).0 < results.len() by {
                    if x > 0 {
                        assert(rest[x - 1] == report[x]);
                        assert(rest.contains(rest[x - 1]));
                    }
                }
            },
            Option::None => {
                assert(report =~= rest);
                assert forall|e: (int, Seq<char>)| #[trigger] report.contains(e) implies (from
                    <= e.0 < results.len() && results[e.0] == Option::Some(e.1)) by {
                    assert(rest.contains(e));
                }
                assert forall|e: (int, Seq<char>)|
                    (from <= e.0 < results.len() && results[e.0] == Option::Some(
                        e.1,
                    )) implies #[trigger] report.contains(e) by {
                    assert(e.0 != from);
                    assert(rest.contains(e));
                }
            },
        }
    }
}

/// Aggregates per-worker outcomes into one result: success when every
/// worker succeeded, else the failure report naming exactly the workers
/// that failed, in ascending worker-index order.
pub fn aggregate_results(results: &Vec<Option<String>>) -> (r: ExtractionResult)
    ensures
        match r {
            ExtractionResult::Succeeded => failure_report(results.deep_view(), 0).len() == 0,
            ExtractionResult::Failed(fs) => fs@.len() > 0 && failures_view(fs@) == failure_report(
                results.deep_view(),
                0,
            ),
        },
{
    let ghost all = results.deep_view();
    let mut fails: Vec<WorkerFailure> = Vec::new();
    let mut k: usize = 0;
    proof {
        assert(failures_view(fails@) =~= Seq::<(int, Seq<char>)>::empty());
        assert(failures_view(fails@) + failure_report(all, 0) =~= failure_report(all, 0));
    }
    while k < results.len()
        invariant
            k <= results.len(),
            all == results.deep_view(),
            all.len() == results@.len(),
            failure_report(all, 0) == failures_view(fails@) + failure_report(all, k as int),
        decreases results.len() - k,
    {
        let ghost prev = fails@;
        let entry = &results[k];
        match entry {
            Some(m) => {
                proof {
                    assert(all[k as int] == Option::Some(m@));
                }
                fails.push(WorkerFailure { worker: k, message: m.clone() });
                proof {
                    assert(failures_view(fails@) =~= failures_view(prev).push((k as int, m@)));
                    assert(failures_view(prev) + (seq![(k as int, m@)] + failure_report(
                        all,
                        k as int + 1,
                    )) =~= failures_view(prev).push((k as int, m@)) + failure_report(
                        all,
                        k as int + 1,
                    ));
                }
            },
            None => {
                proof {
                    assert(all[k as int] is None);
                }
            },
        }
        k = k + 1;
    }
    proof {
        assert(failure_report(all, results@.len() as int) =~= Seq::<(int, Seq<char>)>::empty());
        assert(failures_view(fails@) + Seq::<(int, Seq<char>)>::empty() =~= failures_view(
            fails@,
        ));
    }
    if fails.len() == 0 {
        ExtractionResult::Succeeded
    } else {
        ExtractionResult::Failed(fails)
    }
}

/// Every worker in `results` succeeded.
pub open spec fn all_workers_ok(results: Seq<Option<Seq<char>>>) -> bool {
    forall|i: int| 0 <= i < results.len() ==> (#[trigger] results[i]) is None
}

/// Everything one extraction run produces: every worker's planned writes,
/// concatenated in ascending worker order, and the aggregate result.
pub struct ExtractionOutcome {
    pub actions: Vec<WriteAction>,
    pub result: ExtractionResult,
}

/// Extraction coordinator: reads the archive's entry count, partitions the
/// entry-index space into one range per worker, plans every worker's range
/// — every worker runs to its end even when another fails — and aggregates
/// failures in ascending worker-index order. It fails exactly when the
/// bytes do not parse as an archive, and the outcome is a success exactly
/// when every entry that writes a file is readable: entries the validator
/// rejects are skipped without a failure, and empty work — zero workers or
/// zero entries — is no error. On success the planned writes are exactly
/// those of every entry of the archive, in ascending index order.
pub fn plan_extraction(bytes: &[u8], workers: usize) -> (r: Result<ExtractionOutcome, String>)
    ensures
        r is Ok <==> zip_parse_ok(bytes@),
        r is Ok ==> {
            let o = r->Ok_0;
            let names = zip_names(bytes@);
            let datas = zip_contents(bytes@);
            &&& (workers == 0 ==> o.actions@.len() == 0 && o.result is Succeeded)
            &&& (workers >= 1 ==> (o.result is Succeeded <==> entries_readable(
                bytes@,
                0,
                names.len() as int,
            )))
            &&& (workers >= 1 && o.result is Succeeded ==> actions_view(o.actions@)
                == planned_actions(names, datas, 0, names.len() as int))
            &&& (o.result is Failed ==> {
                let fs = o.result->Failed_0;
                &&& fs@.len() >= 1
                &&& forall|x: int| 0 <= x < fs@.len() ==> (#[trigger] fs@[x]).worker < workers
                &&& forall|x: int, y: int|
                    0 <= x < y < fs@.len() ==> (#[trigger] fs@[x]).worker < (
                    #[trigger] fs@[y]).worker
            })
            &&& exists|cuts: Seq<int>| outcome_cuts(names, datas, workers as int, o, cuts)
        },
{
    let probe = match ArchiveHandle::open(bytes) {
        Ok(a) => a,
        Err(m) => {
            return Err(m);
        },
    };
    let n = probe.entry_count();
    let ranges = plan_partition(n, workers);
    let ghost names = zip_names(bytes@);
    let ghost datas = zip_contents(bytes@);
    let mut actions: Vec<WriteAction> = Vec::new();
    let mut results: Vec<Option<String>> = Vec::new();
    let mut w: usize = 0;
    let ghost mut cuts: Seq<int> = Seq::empty();
    proof {
        assert(actions_view(actions@) =~= Seq::<ActionModel>::empty());
        assert(planned_actions(names, datas, 0, 0) =~= Seq::<ActionModel>::empty());
        assert(planned_cuts(names, datas, n as int, workers as int, cuts, 0)
            =~= Seq::<ActionModel>::empty());
        if workers >= 1 {
            crate::partition::lemma_range_bound_ends(n as int, workers as int);
        }
    }
    while w < workers
        invariant
            w <= workers,
            names == zip_names(bytes@),
            datas == zip_contents(bytes@),
            n == names.len(),
            partition_of(ranges@, n as int, workers as int),
            results@.len() == w,
            results.deep_view().len() == w,
            workers == 0 ==> actions@.len() == 0,
            zip_parse_ok(bytes@),
            forall|x: int|
                0 <= x < w ==> ((#[trigger] results.deep_view()[x]) is None <==> entries_readable(
                    bytes@,
                    range_bound(n as int, workers as int, x),
                    range_bound(n as int, workers as int, x + 1),
                )),
            workers >= 1 ==> (all_workers_ok(results.deep_view()) ==> actions_view(actions@)
                == planned_actions(
                names,
                datas,
                0,
                range_bound(n as int, workers as int, w as int),
            )),
            cuts.len() == w,
            forall|x: int|
                0 <= x < w ==> range_bound(n as int, workers as int, x) <= #[trigger] cuts[x]
                    <= range_bound(n as int, workers as int, x + 1),
            actions_view(actions@) == planned_cuts(names, datas, n as int, workers as int, cuts, 0),
            forall|x: int|
                0 <= x < w ==> ((#[trigger] results.deep_view()[x]) is None ==> cuts[x]
                    == range_bound(n as int, workers as int, x + 1)),
        decreases workers - w,
    {
        let range = ranges[w];
        proof {
            crate::partition::lemma_range_bound_monotone(
                n as int,
                workers as int,
                w as int,
                w as int + 1,
            );
            crate::partition::lemma_range_bound_monotone(
                n as int,
                workers as int,
                w as int + 1,
                workers as int,
            );
        }
        let (mut acts, fail) = plan_range(bytes, range);
        let ghost prev_actions = actions@;
        let ghost prev_results = results.deep_view();
        let ghost fail_model = fail.deep_view();
        let ghost acts_model = acts@;
        let ghost cut_w: int = if fail_model is None {
            range.end as int
        } else {
            choose|k: int|
                range.start <= k <= range.end && actions_view(acts_model) == planned_actions(
                    names,
                    datas,
                    range.start as int,
                    k,
                )
        };
        actions.append(&mut acts);
        results.push(fail);
        proof {
            lemma_planned_cuts_push(names, datas, n as int, workers as int, cuts, cut_w, 0);
            cuts = cuts.push(cut_w);
            assert(results.deep_view() =~= prev_results.push(fail_model));
            crate::partition::lemma_range_bound_ends(n as int, workers as int);
            if fail_model is None {
                assert(entries_readable(bytes@, range.start as int, range.end as int));
            } else {
                assert(!entries_readable(bytes@, range.start as int, range.end as int));
            }
            assert forall|x: int|
                0 <= x < w + 1 implies ((#[trigger] results.deep_view()[x]) is None
                <==> entries_readable(
                bytes@,
                range_bound(n as int, workers as int, x),
                range_bound(n as int, workers as int, x + 1),
            )) by {
                if x < w {
                    assert(results.deep_view()[x] == prev_results[x]);
                }
            }
            assert(actions_view(actions@) =~= actions_view(prev_actions) + actions_view(
                acts_model,
            ));
            if fail_model is None {
                assert(actions_view(acts_model) == planned_actions(
                    names,
                    datas,
                    range.start as int,
                    range.end as int,
                ));
                lemma_planned_actions_concat(
                    names,
                    datas,
                    0,
                    range.start as int,
                    range.end as int,
                );
                if all_workers_ok(results.deep_view()) {
                    assert(all_workers_ok(prev_results)) by {
                        assert(forall|i: int|
                            0 <= i < prev_results.len() ==> #[trigger] prev_results[i]
                                == results.deep_view()[i]);
                    }
                }
            } else {
                assert(results.deep_view()[w as int] is Some);
                assert(!all_workers_ok(results.deep_view()));
            }
        }
        w = w + 1;
    }
    let result = aggregate_results(&results);
    let outcome = ExtractionOutcome { actions, result };
    proof {
        lemma_failure_report_exact(results.deep_view(), 0);
        let report = failure_report(results.deep_view(), 0);
        if outcome.result is Succeeded {
            if workers >= 1 {
                assert forall|x: int|
                    0 <= x < results.deep_view().len() implies (#[trigger] results.deep_view()[
                x]) is None by {
                    if results.deep_view()[x] is Some {
                        let m = results.deep_view()[x]->Some_0;
                        assert(report.contains((x, m)));
                    }
                }
                assert(all_workers_ok(results.deep_view()));
            }
        } else {
            let fs = outcome.result->Failed_0;
            assert forall|x: int| 0 <= x < fs@.len() implies (#[trigger] fs@[x]).worker
                < workers by {
                assert(failures_view(fs@)[x] == fs@[x]@);
            }
            assert forall|x: int, y: int|
                0 <= x < y < fs@.len() implies (#[trigger] fs@[x]).worker < (
            #[trigger] fs@[y]).worker by {
                assert(failures_view(fs@)[x] == fs@[x]@);
                assert(failures_view(fs@)[y] == fs@[y]@);
            }
        }
        if workers >= 1 {
            if outcome.result is Succeeded {
                assert(entries_readable(bytes@, 0, names.len() as int)) by {
                    assert forall|i: int|
                        0 <= i < names.len() && entry_needs_data(
                            #[trigger] zip_names(bytes@)[i],
                        ) implies zip_entry_ok(bytes@, i) by {
                        let x = crate::partition::lemma_partition_covers(
                            n as int,
                            workers as int,
                            i,
                        );
                        assert(results.deep_view()[x] is None);
                        assert(entries_readable(
                            bytes@,
                            range_bound(n as int, workers as int, x),
                            range_bound(n as int, workers as int, x + 1),
                        ));
                    }
                }
            } else {
                assert(report.len() > 0);
                assert(report.contains(report[0]));
                let x0 = report[0].0;
                assert(results.deep_view()[x0] == Option::Some(report[0].1));
                assert(!entries_readable(
                    bytes@,
                    range_bound(n as int, workers as int, x0),
                    range_bound(n as int, workers as int, x0 + 1),
                ));
                let i0 = choose|i: int|
                    range_bound(n as int, workers as int, x0) <= i < range_bound(
                        n as int,
                        workers as int,
                        x0 + 1,
                    ) && entry_needs_data(zip_names(bytes@)[i]) && !zip_entry_ok(bytes@, i);
                crate::partition::lemma_range_bound_monotone(n as int, workers as int, 0, x0);
                crate::partition::lemma_range_bound_monotone(
                    n as int,
                    workers as int,
                    x0 + 1,
                    workers as int,
                );
                crate::partition::lemma_range_bound_ends(n as int, workers as int);
                assert(0 <= i0 < names.len());
                assert(!entries_readable(bytes@, 0, names.len() as int));
            }
        }
        assert forall|x: int|
            0 <= x < workers && !failure_named(outcome.result, x) implies #[trigger] cuts[x]
                == range_bound(n as int, workers as int, x + 1) by {
            if outcome.result is Succeeded {
                assert(results.deep_view()[x] is None);
            } else {
                let fs = outcome.result->Failed_0;
                if results.deep_view()[x] is Some {
                    let m = results.deep_view()[x]->Some_0;
                    assert(report.contains((x, m)));
                    let y = choose|y: int| 0 <= y < report.len() && report[y] == (x, m);
                    assert(failures_view(fs@)[y] == fs@[y]@);
                    assert(fs@[y].worker == x);
                    assert(failure_named(outcome.result, x));
                }
            }
        }
        assert(outcome_cuts(names, datas, workers as int, outcome, cuts));
    }
    Ok(outcome)
}

/// The planned writes of workers `i ..`, concatenated in ascending worker
/// order.
pub open spec fn planned_for_ranges(
    names: Seq<Seq<char>>,
    datas: Seq<Seq<u8>>,
    ranges: Seq<WorkRange>,
    i: int,
) -> Seq<ActionModel>
    decreases ranges.len() - i,
{
    if i < 0 || i >= ranges.len() {
        Seq::empty()
    } else {
        planned_actions(names, datas, ranges[i].start as int, ranges[i].end as int)
            + planned_for_ranges(names, datas, ranges, i + 1)
    }
}

/// Helper for worker-count independence: workers `i ..` together plan
/// exactly the entries from their first boundary to `n`.
proof fn lemma_ranges_plan_suffix(
    names: Seq<Seq<char>>,
    datas: Seq<Seq<u8>>,
    n: int,
    w: int,
    ranges: Seq<WorkRange>,
    i: int,
)
    requires
        n >= 0,
        w >= 1,
        partition_of(ranges, n, w),
        0 <= i <= w,
    ensures
        planned_for_ranges(names, datas, ranges, i) == planned_actions(
            names,
            datas,
            range_bound(n, w, i),
            n,
        ),
    decreases w - i,
{
    crate::partition::lemma_range_bound_ends(n, w);
    if i == w {
        assert(planned_for_ranges(names, datas, ranges, i) =~= Seq::<ActionModel>::empty());
        assert(planned_actions(names, datas, n, n) =~= Seq::<ActionModel>::empty());
    } else {
        lemma_ranges_plan_suffix(names, datas, n, w, ranges, i + 1);
        crate::partition::lemma_range_bound_monotone(n, w, i, i + 1);
        crate::partition::lemma_range_bound_monotone(n, w, i + 1, w);
        lemma_planned_actions_concat(
            names,
            datas,
            range_bound(n, w, i),
            range_bound(n, w, i + 1),
            n,
        );
    }
}

/// Worker-count independence: however the entry-index space is partitioned,
/// the workers' planned writes concatenate to exactly the single ascending
/// pass over all `n` entries — so the planned destination tree does not
/// depend on the worker count.
pub proof fn lemma_worker_count_independence(
    names: Seq<Seq<char>>,
    datas: Seq<Seq<u8>>,
    n: int,
    w: int,
    ranges: Seq<WorkRange>,
)
    requires
        n >= 0,
        w >= 1,
        partition_of(ranges, n, w),
    ensures
        planned_for_ranges(names, datas, ranges, 0) == planned_actions(names, datas, 0, n),
    decreases w,
{
    lemma_ranges_plan_suffix(names, datas, n, w, ranges, 0);
    crate::partition::lemma_range_bound_ends(n, w);
}

/// Two partitions of the same entry-index space — one and eight workers,
/// say — plan identical writes.
pub proof fn lemma_plans_agree_across_worker_counts(
    names: Seq<Seq<char>>,
    datas: Seq<Seq<u8>>,
    n: int,
    w1: int,
    w2: int,
    ranges1: Seq<WorkRange>,
    ranges2: Seq<WorkRange>,
)
    requires
        n >= 0,
        w1 >= 1,
        w2 >= 1,
        partition_of(ranges1, n, w1),
        partition_of(ranges2, n, w2),
    ensures
        planned_for_ranges(names, datas, ranges1, 0) == planned_for_ranges(
            names,
            datas,
            ranges2,
            0,
        ),
{
    lemma_worker_count_independence(names, datas, n, w1, ranges1);
    lemma_worker_count_independence(names, datas, n, w2, ranges2);
}

/// Resolved destination paths are pairwise distinct across the archive's
/// accepted entries: no two entries name the same destination.
pub open spec fn unique_entry_paths(names: Seq<Seq<char>>) -> bool {
    forall|x: int, y: int|
        0 <= x < y < names.len() && resolve_path(#[trigger] names[x]) is Some && resolve_path(
            #[trigger] names[y],
        ) is Some ==> resolve_path(names[x]) != resolve_path(names[y])
}

/// No write collisions: with unique entries, two distinct workers never
/// write the same destination path during one run — the ranges are
/// disjoint, and distinct entries resolve to distinct paths. Unique means
/// pairwise distinct resolved paths: distinct stored names alone do not
/// suffice, since two names such as `a//b` and `a/b` resolve to one
/// destination.
pub proof fn lemma_no_write_collisions(
    names: Seq<Seq<char>>,
    datas: Seq<Seq<u8>>,
    n: int,
    w: int,
    ranges: Seq<WorkRange>,
    i: int,
    j: int,
    a: int,
    b: int,
)
    requires
        n >= 0,
        w >= 1,
        names.len() == n,
        unique_entry_paths(names),
        partition_of(ranges, n, w),
        0 <= i < w,
        0 <= j < w,
        i != j,
        ranges[i].spec_contains(a),
        ranges[j].spec_contains(b),
        entry_action(names[a], datas[a]) is Some,
        entry_action(names[b], datas[b]) is Some,
    ensures
        (entry_action(names[a], datas[a])->Some_0).path() != (entry_action(
            names[b],
            datas[b],
        )->Some_0).path(),
{
    crate::partition::lemma_range_bound_monotone(n, w, 0, i);
    crate::partition::lemma_range_bound_monotone(n, w, 0, j);
    crate::partition::lemma_range_bound_monotone(n, w, i + 1, w);
    crate::partition::lemma_range_bound_monotone(n, w, j + 1, w);
    if i < j {
        crate::partition::lemma_range_bound_monotone(n, w, i + 1, j);
    } else {
        crate::partition::lemma_range_bound_monotone(n, w, j + 1, i);
    }
    assert(a != b);
    assert(0 <= a < n && 0 <= b < n);
    if a < b {
        assert(resolve_path(names[a]) != resolve_path(names[b]));
    } else {
        assert(resolve_path(names[b]) != resolve_path(names[a]));
    }
}

/// A planned write's path holds normal components only: no `..`, `.` or
/// empty segment survives validation, so the write stays below whatever
/// destination root the path is resolved against.
pub proof fn lemma_action_path_confined(name: Seq<char>, data: Seq<u8>)
    requires
        entry_action(name, data) is Some,
    ensures
        ({
            let path = (entry_action(name, data)->Some_0).path();
            &&& path.len() > 0
            &&& forall|j: int| 0 <= j < path.len() ==> is_normal_component(#[trigger] path[j])
        }),
{
    crate::path_safety::lemma_resolved_path_confined(name, resolve_path(name)->Some_0);
}

/// Whether the outcome's report names worker `x`.
pub open spec fn failure_named(r: ExtractionResult, x: int) -> bool {
    match r {
        ExtractionResult::Succeeded => false,
        ExtractionResult::Failed(fs) => exists|y: int|
            0 <= y < fs@.len() && (#[trigger] fs@[y]).worker == x,
    }
}

/// The writes planned when worker `i` and those after it each covered their
/// range only up to their cut point.
pub open spec fn planned_cuts(
    names: Seq<Seq<char>>,
    datas: Seq<Seq<u8>>,
    n: int,
    w: int,
    cuts: Seq<int>,
    i: int,
) -> Seq<ActionModel>
    decreases cuts.len() - i,
{
    if i < 0 || i >= cuts.len() {
        Seq::empty()
    } else {
        planned_actions(names, datas, range_bound(n, w, i), cuts[i]) + planned_cuts(
            names,
            datas,
            n,
            w,
            cuts,
            i + 1,
        )
    }
}

/// Appending one more worker's cut appends that worker's planned prefix.
proof fn lemma_planned_cuts_push(
    names: Seq<Seq<char>>,
    datas: Seq<Seq<u8>>,
    n: int,
    w: int,
    cuts: Seq<int>,
    c: int,
    i: int,
)
    requires
        0 <= i <= cuts.len(),
    ensures
        planned_cuts(names, datas, n, w, cuts.push(c), i) == planned_cuts(
            names,
            datas,
            n,
            w,
            cuts,
            i,
        ) + planned_actions(names, datas, range_bound(n, w, cuts.len() as int), c),
    decreases cuts.len() - i,
{
    let tail = planned_actions(names, datas, range_bound(n, w, cuts.len() as int), c);
    if i == cuts.len() {
        assert(planned_cuts(names, datas, n, w, cuts.push(c), i + 1)
            =~= Seq::<ActionModel>::empty());
        assert(planned_cuts(names, datas, n, w, cuts.push(c), i) =~= tail);
        assert(planned_cuts(names, datas, n, w, cuts, i) + tail =~= tail);
    } else {
        lemma_planned_cuts_push(names, datas, n, w, cuts, c, i + 1);
        assert(cuts.push(c)[i] == cuts[i]);
        let head = planned_actions(names, datas, range_bound(n, w, i), cuts[i]);
        assert(head + (planned_cuts(names, datas, n, w, cuts, i + 1) + tail) =~= (head
            + planned_cuts(names, datas, n, w, cuts, i + 1)) + tail);
    }
}

/// How an outcome's planned writes relate to the partition: each worker
/// covered its range up to a cut point, the writes are those prefixes in
/// worker order, and a worker the report does not name covered its whole
/// range — its entries are all planned.
pub open spec fn outcome_cuts(
    names: Seq<Seq<char>>,
    datas: Seq<Seq<u8>>,
    w: int,
    o: ExtractionOutcome,
    cuts: Seq<int>,
) -> bool {
    let n = names.len() as int;
    &&& cuts.len() == w
    &&& forall|x: int|
        0 <= x < w ==> range_bound(n, w, x) <= #[trigger] cuts[x] <= range_bound(n, w, x + 1)
    &&& actions_view(o.actions@) == planned_cuts(names, datas, n, w, cuts, 0)
    &&& forall|x: int|
        0 <= x < w && !failure_named(o.result, x) ==> #[trigger] cuts[x] == range_bound(
            n,
            w,
            x + 1,
        )
}

} // verus!
