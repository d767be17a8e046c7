//! The coordinator: the table registry, ingest and partition loading, the
//! task queue that workers drain, and the memory-limit enforcement step.
//!
//! Worker threads, condition variables and the periodic enforcement timer
//! live outside the verified library; the decisions they carry out — which
//! task to run next, what to evict — are the functions here.

use std::collections::VecDeque;

use vstd::prelude::*;

use crate::store::{has_key, lru_view, lru_wf, Column, Lru, Partition};
use crate::table::{
    find_part_index, ingested, restored_table, snapshot_of, table_for, table_heap, table_wf,
    MemTreeTable, PartitionMetadata, Table, TableStats,
};
use crate::val::RawVal;

verus! {

/// Engine configuration: worker and disk-read parallelism, the soft table
/// memory limit, and whether resident data is kept compressed.
#[derive(Debug, Clone, Copy, PartialEq, Eq, Structural)]
pub struct Options {
    pub threads: usize,
    pub read_threads: usize,
    pub mem_size_limit_tables: usize,
    pub mem_lz4: bool,
}

impl Default for Options {
    /// One worker, one reader, no memory limit, no compression.
    fn default() -> (r: Options)
        ensures
            r.threads == 1,
            r.read_threads == 1,
            r.mem_size_limit_tables == usize::MAX,
            !r.mem_lz4,
    {
        Options { threads: 1, read_threads: 1, mem_size_limit_tables: usize::MAX, mem_lz4: false }
    }
}

/// One unit of queued work, as the scheduler sees it: whether it is done,
/// and whether several workers may run it concurrently.
#[derive(Debug, Clone, Copy, PartialEq, Eq, Structural)]
pub struct Task {
    pub task_id: u64,
    pub completed: bool,
    pub multithreaded: bool,
}

/// The disk-read scheduler's bound: how many blocking reads may run at
/// once.  The reads themselves happen outside the verified library.
#[derive(Debug)]
pub struct DiskReadScheduler {
    pub read_threads: usize,
}

impl DiskReadScheduler {
    /// A scheduler bounded to `read_threads` concurrent reads.
    pub fn new(read_threads: usize) -> (r: DiskReadScheduler)
        ensures
            r.read_threads == read_threads,
    {
        DiskReadScheduler { read_threads }
    }
}

/// The queue with its leading completed tasks dropped: what remains to
/// run.
pub open spec fn drop_completed(q: Seq<Task>) -> Seq<Task>
    decreases q.len(),
{
    if q.len() == 0 {
        Seq::empty()
    } else if q[0].completed {
        drop_completed(q.subrange(1, q.len() as int))
    } else {
        q
    }
}

/// Relies on std's `SystemTime::now` and `duration_since(UNIX_EPOCH)`: the
/// seconds since the unix epoch, clamped into the non-negative `i64`
/// range; a clock before the epoch reads as zero.
#[verifier::external_body]
fn now_unix_secs() -> (r: i64)
    ensures
        r >= 0,
{
    match std::time::SystemTime::now().duration_since(std::time::UNIX_EPOCH) {
        Ok(d) => {
            let s = d.as_secs();
            if s > i64::MAX as u64 {
                i64::MAX
            } else {
                s as i64
            }
        },
        Err(_) => 0,
    }
}

/// The coordinator: the tables, the shared recency structure, the task
/// queue, the partition id counter and the running flag.
#[derive(Debug)]
pub struct InnerLocustDB {
    pub tables: Vec<Table>,
    pub lru: Lru,
    pub disk_read_scheduler: DiskReadScheduler,
    pub opts: Options,
    pub next_partition_id: u64,
    pub running: bool,
    pub task_queue: VecDeque<Task>,
}

/// Every table is well-formed with a positive batch size and a buffer
/// below it, table names are distinct, and the LRU is well-formed.
pub open spec fn inner_wf(db: InnerLocustDB) -> bool {
    &&& forall|i: int| 0 <= i < db.tables@.len() ==> table_wf(#[trigger] db.tables@[i])
    &&& forall|i: int|
        0 <= i < db.tables@.len() ==> (#[trigger] db.tables@[i]).batch_size > 0 && db.tables@[
            i].buffer.len < db.tables@[i].batch_size
    &&& forall|i: int, j: int|
        0 <= i < j < db.tables@.len() ==> (#[trigger] db.tables@[i]).name@ != (
        #[trigger] db.tables@[j]).name@
    &&& lru_wf(db.lru)
}

/// The heap bytes of all tables together, capped at the machine size.
pub open spec fn tables_heap(ts: Seq<Table>) -> nat
    decreases ts.len(),
{
    if ts.len() == 0 {
        0
    } else {
        crate::store::sat_cap(tables_heap(ts.drop_last()) as int + table_heap(ts.last()) as int)
    }
}

/// Some partition of some table carries this id.
pub open spec fn has_pid(ts: Seq<Table>, id: u64) -> bool {
    exists|t: int, p: int|
        0 <= t < ts.len() && 0 <= p < ts[t].partitions@.len() && (#[trigger] ts[t].partitions@[
        p]).id == id
}

/// The registry row recorded for a newly created table: its name and an
/// integer creation timestamp.
pub open spec fn meta_row(ts: i64, name: Seq<char>) -> Seq<(Seq<char>, crate::val::ValView)> {
    seq![("timestamp"@, crate::val::ValView::Int(ts)), ("name"@, crate::val::ValView::Str(name))]
}

impl InnerLocustDB {
    /// A coordinator over the tables a persisted metadata listing
    /// describes: one table per distinct tablename holding its registered
    /// nonresident partitions.  The partition id counter starts past every
    /// registered id, and the database is running.
    pub fn new(metadata: &Vec<PartitionMetadata>, opts: &Options) -> (r: InnerLocustDB)
        requires
            forall|m: int|
                0 <= m < metadata@.len() ==> forall|i: int, j: int|
                    0 <= i < j < (#[trigger] metadata@[m]).columns@.len() ==> (
                    #[trigger] metadata@[m].columns@[i])@ != (#[trigger] metadata@[m].columns@[j])@,
        ensures
            inner_wf(r),
            r.running,
            r.opts == *opts,
            r.task_queue@.len() == 0,
            lru_view(r.lru.entries@).len() == 0,
            forall|m: int|
                0 <= m < metadata@.len() ==> table_for(r.tables@, #[trigger] metadata@[m]),
            forall|t: int|
                0 <= t < r.tables@.len() ==> crate::table::named_from(
                    metadata@,
                    #[trigger] r.tables@[t],
                ),
            forall|t: int, p: int|
                0 <= t < r.tables@.len() && 0 <= p < r.tables@[t].partitions@.len()
                    ==> r.next_partition_id == u64::MAX || (#[trigger] r.tables@[t].partitions@[
                    p]).id < r.next_partition_id,
            r.next_partition_id >= 1,
            r.next_partition_id != u64::MAX ==> (r.next_partition_id == 1 || has_pid(
                r.tables@,
                (r.next_partition_id - 1) as u64,
            )),
    {
        let tables = Table::load_table_metadata(1048576, metadata);
        let mut max_pid: u64 = 0;
        let mut i: usize = 0;
        while i < tables.len()
            invariant
                0 <= i <= tables@.len(),
                forall|t: int, p: int|
                    0 <= t < i && 0 <= p < tables@[t].partitions@.len() ==> (
                    #[trigger] tables@[t].partitions@[p]).id <= max_pid,
                max_pid == 0 || exists|t: int, p: int|
                    0 <= t < i && 0 <= p < tables@[t].partitions@.len() && (
                    #[trigger] tables@[t].partitions@[p]).id == max_pid,
            decreases tables@.len() - i,
        {
            let m = tables[i].max_partition_id();
            if m > max_pid {
                max_pid = m;
            }
            i += 1;
        }
        let next = if max_pid == u64::MAX {
            u64::MAX
        } else {
            max_pid + 1
        };
        proof {
            if next != u64::MAX && next != 1 {
                assert(max_pid != u64::MAX);
                assert(next == max_pid + 1);
                assert(max_pid != 0);
                let (t0, p0) = choose|t: int, p: int|
                    0 <= t < tables@.len() && 0 <= p < tables@[t].partitions@.len() && (
                    #[trigger] tables@[t].partitions@[p]).id == max_pid;
                assert(tables@[t0].partitions@[p0].id == (next - 1) as u64);
                assert(has_pid(tables@, (next - 1) as u64));
            }
        }
        InnerLocustDB {
            tables,
            lru: Lru::default(),
            disk_read_scheduler: DiskReadScheduler::new(opts.read_threads),
            opts: *opts,
            next_partition_id: next,
            running: true,
            task_queue: VecDeque::new(),
        }
    }

    /// The index of the named table.
    fn find_table(&self, table: &str) -> (r: Option<usize>)
        ensures
            r matches Some(i) ==> 0 <= i < self.tables@.len() && self.tables@[i as int].name@
                == table@,
            r is None ==> forall|i: int|
                0 <= i < self.tables@.len() ==> (#[trigger] self.tables@[i]).name@ != table@,
    {
        let name: String = table.to_owned();
        let mut i: usize = 0;
        while i < self.tables.len()
            invariant
                name@ == table@,
                0 <= i <= self.tables@.len(),
                forall|x: int| 0 <= x < i ==> (#[trigger] self.tables@[x]).name@ != table@,
            decreases self.tables@.len() - i,
        {
            if self.tables[i].name == name {
                return Some(i);
            }
            i += 1;
        }
        None
    }

    /// The named table's partitions, including a live view of its ingest
    /// buffer, or nothing for an unknown table.
    pub fn snapshot(&self, table: &str) -> (r: Option<Vec<Partition>>)
        requires
            inner_wf(*self),
        ensures
            r matches Some(v) ==> exists|i: int|
                0 <= i < self.tables@.len() && (#[trigger] self.tables@[i]).name@ == table@
                    && snapshot_of(self.tables@[i], v@),
            r is None ==> forall|i: int|
                0 <= i < self.tables@.len() ==> (#[trigger] self.tables@[i]).name@ != table@,
    {
        match self.find_table(table) {
            Some(i) => Some(self.tables[i].snapshot()),
            None => None,
        }
    }

    /// Every table's snapshot, in table order.
    pub fn full_snapshot(&self) -> (r: Vec<Vec<Partition>>)
        requires
            inner_wf(*self),
        ensures
            r@.len() == self.tables@.len(),
            forall|i: int|
                0 <= i < r@.len() ==> snapshot_of(self.tables@[i], (#[trigger] r@[i])@),
    {
        let mut r: Vec<Vec<Partition>> = Vec::new();
        let mut i: usize = 0;
        while i < self.tables.len()
            invariant
                inner_wf(*self),
                0 <= i <= self.tables@.len(),
                r@.len() == i,
                forall|x: int|
                    0 <= x < i ==> snapshot_of(self.tables@[x], (#[trigger] r@[x])@),
            decreases self.tables@.len() - i,
        {
            r.push(self.tables[i].snapshot());
            i += 1;
        }
        r
    }

    /// Stops the database: workers drain out once the queue empties.
    pub fn stop(&mut self)
        ensures
            !final(self).running,
            final(self).tables == old(self).tables,
            final(self).lru == old(self).lru,
            final(self).task_queue == old(self).task_queue,
            final(self).next_partition_id == old(self).next_partition_id,
            final(self).opts == old(self).opts,
    {
        self.running = false;
    }

    /// Queues one task at the back.
    pub fn schedule(&mut self, task: Task)
        ensures
            final(self).task_queue@ == old(self).task_queue@.push(task),
            final(self).tables == old(self).tables,
            final(self).lru == old(self).lru,
            final(self).running == old(self).running,
            final(self).next_partition_id == old(self).next_partition_id,
            final(self).opts == old(self).opts,
    {
        self.task_queue.push_back(task);
    }

    /// Picks the next task for a worker: completed tasks at the front are
    /// discarded; the first unfinished task is returned, and stays at the
    /// front when several workers may run it.  Returns nothing when only
    /// completed tasks were queued.
    pub fn await_task(&mut self) -> (r: Option<Task>)
        ensures
            final(self).tables == old(self).tables,
            final(self).lru == old(self).lru,
            final(self).running == old(self).running,
            final(self).next_partition_id == old(self).next_partition_id,
            final(self).opts == old(self).opts,
            r is None ==> drop_completed(old(self).task_queue@) == Seq::<Task>::empty()
                && final(self).task_queue@ == Seq::<Task>::empty(),
            r matches Some(t) ==> {
                &&& drop_completed(old(self).task_queue@).len() > 0
                &&& t == drop_completed(old(self).task_queue@)[0]
                &&& !t.completed
                &&& t.multithreaded ==> final(self).task_queue@ == drop_completed(
                    old(self).task_queue@,
                )
                &&& !t.multithreaded ==> final(self).task_queue@ == drop_completed(
                    old(self).task_queue@,
                ).subrange(1, drop_completed(old(self).task_queue@).len() as int)
            },
    {
        loop
            invariant
                self.tables == old(self).tables,
                self.lru == old(self).lru,
                self.running == old(self).running,
                self.next_partition_id == old(self).next_partition_id,
                self.opts == old(self).opts,
                drop_completed(old(self).task_queue@) == drop_completed(self.task_queue@),
            decreases self.task_queue@.len(),
        {
            let ghost pre = self.task_queue@;
            match self.task_queue.pop_front() {
                None => {
                    proof {
                        assert(drop_completed(pre) =~= Seq::<Task>::empty());
                        assert(self.task_queue@ =~= Seq::<Task>::empty());
                    }
                    return None;
                },
                Some(task) => {
                    proof {
                        assert(self.task_queue@ =~= pre.subrange(1, pre.len() as int));
                    }
                    if task.completed {
                        continue ;
                    }
                    proof {
                        assert(drop_completed(pre) == pre);
                    }
                    if task.multithreaded {
                        self.task_queue.push_front(task);
                        proof {
                            assert(self.task_queue@ =~= pre);
                        }
                    }
                    return Some(task);
                },
            }
        }
    }

    /// Drops every queued task.
    pub fn drop_pending_tasks(&mut self)
        ensures
            final(self).task_queue@ == Seq::<Task>::empty(),
            final(self).tables == old(self).tables,
            final(self).lru == old(self).lru,
            final(self).running == old(self).running,
            final(self).next_partition_id == old(self).next_partition_id,
            final(self).opts == old(self).opts,
    {
        self.task_queue.clear();
    }

    /// Creates the table if it does not exist, recording its creation in
    /// the table registry's own metadata table.
    fn create_if_empty(&mut self, table: &str)
        requires
            inner_wf(*old(self)),
        ensures
            inner_wf(*final(self)),
            exists|i: int|
                0 <= i < final(self).tables@.len() && (#[trigger] final(self).tables@[i]).name@
                    == table@,
            final(self).running == old(self).running,
            final(self).next_partition_id == old(self).next_partition_id,
            final(self).opts == old(self).opts,
            (exists|i: int|
                0 <= i < old(self).tables@.len() && (#[trigger] old(self).tables@[i]).name@
                    == table@) ==> *final(self) == *old(self),
            (forall|i: int|
                0 <= i < old(self).tables@.len() ==> (#[trigger] old(self).tables@[i]).name@
                    != table@) ==> {
                &&& final(self).tables@.len() > old(self).tables@.len()
                &&& forall|x: int|
                    0 <= x < old(self).tables@.len() ==> (#[trigger] final(self).tables@[x]).name@
                        == old(self).tables@[x].name@ && (old(self).tables@[x].name@
                        != "_meta_tables"@ ==> final(self).tables@[x] == old(self).tables@[x])
                &&& final(self).tables@[old(self).tables@.len() as int].name@ == table@
                &&& (table@ != "_meta_tables"@
                    ==> final(self).tables@[old(self).tables@.len() as int].partitions@.len()
                    == 0 && final(self).tables@[old(self).tables@.len() as int].buffer.len == 0)
                &&& final(self).tables@[old(self).tables@.len() as int].batch_size == (
                if table@ == "_meta_tables"@ {
                    1int
                } else if table@ == "_meta_queries"@ {
                    10int
                } else {
                    1048576int
                })
                &&& exists|m: int|
                    0 <= m < final(self).tables@.len()
                        && (#[trigger] final(self).tables@[m]).name@ == "_meta_tables"@
                &&& exists|m: int, ts: i64, prior: Table|
                    {
                        &&& 0 <= m < final(self).tables@.len()
                        &&& final(self).tables@[m].name@ == "_meta_tables"@
                        &&& ts >= 0
                        &&& #[trigger] ingested(prior, final(self).tables@[m], meta_row(ts, table@))
                    }
                &&& (table@ != "_meta_tables"@ && (exists|m: int|
                    0 <= m < old(self).tables@.len() && (#[trigger] old(self).tables@[m]).name@
                        == "_meta_tables"@)) ==> exists|m: int, ts: i64|
                    {
                        &&& 0 <= m < old(self).tables@.len()
                        &&& old(self).tables@[m].name@ == "_meta_tables"@
                        &&& ts >= 0
                        &&& #[trigger] ingested(
                            old(self).tables@[m],
                            final(self).tables@[m],
                            meta_row(ts, table@),
                        )
                    }
            },
    {
        match self.find_table(table) {
            Some(_) => {
                return ;
            },
            None => {},
        }
        let ghost pre_tables = self.tables@;
        let new_table = Table::new(1048576, table);
        self.tables.push(new_table);
        let ghost after_push = self.tables@;
        proof {
            assert(self.tables@.last().name@ == table@);
            assert forall|i: int, j: int|
                0 <= i < j < self.tables@.len() implies (#[trigger] self.tables@[i]).name@ != (
            #[trigger] self.tables@[j]).name@ by {
                if j == self.tables@.len() - 1 {
                    assert(pre_tables[i].name@ != table@);
                } else {
                    assert(pre_tables[i].name@ != pre_tables[j].name@);
                }
            }
        }
        // Record (timestamp, name) in the registry's metadata table, which
        // is created on first use and records its own creation too.
        let ghost table_idx = pre_tables.len() as int;
        let meta_idx = self.find_table("_meta_tables");
        let meta_exists = meta_idx.is_some();
        if !meta_exists {
            let ghost pre2 = self.tables@;
            let meta = Table::new(1048576, "_meta_tables");
            self.tables.push(meta);
            proof {
                assert(self.tables@.last().name@ == "_meta_tables"@);
                assert forall|i: int, j: int|
                    0 <= i < j < self.tables@.len() implies (#[trigger] self.tables@[i]).name@
                    != (#[trigger] self.tables@[j]).name@ by {
                    if j == self.tables@.len() - 1 {
                        assert(pre2[i].name@ != "_meta_tables"@);
                    } else {
                        assert(pre2[i].name@ != pre2[j].name@);
                    }
                }
                assert(self.tables@[table_idx].name@ == table@);
            }
            // The registry's own creation is recorded too, as the first
            // row of its history.
            let mut row: Vec<(String, RawVal)> = Vec::new();
            row.push(("timestamp".to_owned(), RawVal::Int(now_unix_secs())));
            row.push(("name".to_owned(), RawVal::Str("_meta_tables".to_owned())));
            proof {
                reveal_strlit("timestamp");
                reveal_strlit("name");
                assert(crate::store::distinct_row(crate::store::row_view(row@))) by {
                    assert(crate::store::row_view(row@)[0].0 == "timestamp"@);
                    assert(crate::store::row_view(row@)[1].0 == "name"@);
                }
            }
            let m = self.tables.len() - 1;
            let ghost pre_m = self.tables@;
            let mut lru = Lru { entries: Vec::new() };
            core::mem::swap(&mut lru, &mut self.lru);
            let tref = &mut self.tables[m];
            tref.ingest(row, &mut lru);
            core::mem::swap(&mut lru, &mut self.lru);
            proof {
                assert forall|i: int, j: int|
                    0 <= i < j < self.tables@.len() implies (#[trigger] self.tables@[i]).name@
                    != (#[trigger] self.tables@[j]).name@ by {
                    assert(self.tables@[i].name@ == pre_m[i].name@);
                    assert(self.tables@[j].name@ == pre_m[j].name@);
                }
                assert(self.tables@[table_idx].name@ == table@);
            }
        }
        match self.find_table("_meta_tables") {
            Some(m) => {
                let ts_now = now_unix_secs();
                let mut row: Vec<(String, RawVal)> = Vec::new();
                row.push(("timestamp".to_owned(), RawVal::Int(ts_now)));
                row.push(("name".to_owned(), RawVal::Str(table.to_owned())));
                proof {
                    reveal_strlit("timestamp");
                    reveal_strlit("name");
                    assert(crate::store::distinct_row(crate::store::row_view(row@))) by {
                        assert(crate::store::row_view(row@)[0].0 == "timestamp"@);
                        assert(crate::store::row_view(row@)[1].0 == "name"@);
                    }
                }
                let ghost pre3 = self.tables@;
                let ghost row_v = crate::store::row_view(row@);
                let mut lru = Lru { entries: Vec::new() };
                core::mem::swap(&mut lru, &mut self.lru);
                let tref = &mut self.tables[m];
                tref.ingest(row, &mut lru);
                core::mem::swap(&mut lru, &mut self.lru);
                proof {
                    assert forall|i: int, j: int|
                        0 <= i < j < self.tables@.len() implies (#[trigger] self.tables@[
                    i]).name@ != (#[trigger] self.tables@[j]).name@ by {
                        assert(self.tables@[i].name@ == pre3[i].name@);
                        assert(self.tables@[j].name@ == pre3[j].name@);
                    }
                    assert(self.tables@[table_idx].name@ == table@);
                    assert forall|x: int|
                        0 <= x < pre_tables.len() implies (#[trigger] self.tables@[x]).name@
                        == pre_tables[x].name@ && (pre_tables[x].name@ != "_meta_tables"@
                        ==> self.tables@[x] == pre_tables[x]) by {
                        assert(self.tables@[x].name@ == pre3[x].name@);
                    }
                    assert(self.tables@[m as int].name@ == "_meta_tables"@) by {
                        assert(self.tables@[m as int].name@ == pre3[m as int].name@);
                    }
                    assert(row_v =~= meta_row(ts_now, table@)) by {
                        assert(row_v[0] == ("timestamp"@, crate::val::ValView::Int(ts_now)));
                        assert(row_v[1] == ("name"@, crate::val::ValView::Str(table@)));
                    }
                    assert(ingested(pre3[m as int], self.tables@[m as int], meta_row(ts_now, table@)));
                    if table@ != "_meta_tables"@ && (exists|m0: int|
                        0 <= m0 < pre_tables.len() && (#[trigger] pre_tables[m0]).name@
                            == "_meta_tables"@) {
                        assert(meta_exists) by {
                            let m0 = choose|m0: int|
                                0 <= m0 < pre_tables.len() && (#[trigger] pre_tables[m0]).name@
                                    == "_meta_tables"@;
                            assert(after_push[m0] == pre_tables[m0]);
                            assert(after_push[m0].name@ == "_meta_tables"@);
                        }
                        assert(pre3 == after_push);
                        assert(m < pre_tables.len()) by {
                            assert(after_push.last().name@ == table@);
                        }
                        assert(pre3[m as int] == pre_tables[m as int]);
                        assert(row_v =~= meta_row(ts_now, table@)) by {
                            assert(row_v[0] == ("timestamp"@, crate::val::ValView::Int(ts_now)));
                            assert(row_v[1] == ("name"@, crate::val::ValView::Str(table@)));
                        }
                        assert(ingested(
                            pre_tables[m as int],
                            self.tables@[m as int],
                            meta_row(ts_now, table@),
                        ));
                    }
                }
            },
            None => {
                proof {
                    assert(self.tables@[table_idx].name@ == table@);
                }
            },
        }
    }

    /// Ingests one row into the named table, creating it first if needed.
    /// An already-known table changes exactly as its own ingest contract
    /// says: the row is appended, or the buffer seals into one new
    /// partition on reaching the batch size.
    pub fn ingest(&mut self, table: &str, row: Vec<(String, RawVal)>)
        requires
            inner_wf(*old(self)),
            crate::store::distinct_row(crate::store::row_view(row@)),
        ensures
            inner_wf(*final(self)),
            exists|i: int|
                0 <= i < final(self).tables@.len() && (#[trigger] final(self).tables@[i]).name@
                    == table@,
            (exists|i: int|
                0 <= i < old(self).tables@.len() && (#[trigger] old(self).tables@[i]).name@
                    == table@) ==> exists|i: int|
                {
                    &&& 0 <= i < old(self).tables@.len()
                    &&& (#[trigger] old(self).tables@[i]).name@ == table@
                    &&& final(self).tables@.len() == old(self).tables@.len()
                    &&& forall|x: int|
                        0 <= x < old(self).tables@.len() && x != i
                            ==> final(self).tables@[x] == old(self).tables@[x]
                    &&& ingested(
                        old(self).tables@[i],
                        final(self).tables@[i],
                        crate::store::row_view(row@),
                    )
                },
            (forall|i: int|
                0 <= i < old(self).tables@.len() ==> (#[trigger] old(self).tables@[i]).name@
                    != table@) ==> {
                &&& exists|i: int|
                    0 <= i < final(self).tables@.len() && (#[trigger] final(self).tables@[
                    i]).name@ == table@ && final(self).tables@[i].batch_size == (
                    if table@ == "_meta_tables"@ {
                        1int
                    } else if table@ == "_meta_queries"@ {
                        10int
                    } else {
                        1048576int
                    })
                &&& table@ != "_meta_tables"@ ==> exists|m: int, ts: i64, prior: Table|
                    {
                        &&& 0 <= m < final(self).tables@.len()
                        &&& final(self).tables@[m].name@ == "_meta_tables"@
                        &&& ts >= 0
                        &&& #[trigger] ingested(prior, final(self).tables@[m], meta_row(ts, table@))
                    }
            },
    {
        let ghost fresh = forall|i: int|
            0 <= i < self.tables@.len() ==> (#[trigger] self.tables@[i]).name@ != table@;
        self.create_if_empty(table);
        let ghost mid = *self;
        match self.find_table(table) {
            Some(i) => {
                let ghost pre = self.tables@;
                let mut lru = Lru { entries: Vec::new() };
                core::mem::swap(&mut lru, &mut self.lru);
                let tref = &mut self.tables[i];
                tref.ingest(row, &mut lru);
                core::mem::swap(&mut lru, &mut self.lru);
                proof {
                    assert forall|x: int, y: int|
                        0 <= x < y < self.tables@.len() implies (#[trigger] self.tables@[
                    x]).name@ != (#[trigger] self.tables@[y]).name@ by {
                        assert(self.tables@[x].name@ == pre[x].name@);
                        assert(self.tables@[y].name@ == pre[y].name@);
                    }
                    assert(self.tables@[i as int].name@ == table@);
                    if fresh {
                        assert(self.tables@[i as int].batch_size == pre[i as int].batch_size);
                        if table@ != "_meta_tables"@ {
                            let (m0, ts0, prior0) = choose|m: int, ts: i64, prior: Table|
                                {
                                    &&& 0 <= m < mid.tables@.len()
                                    &&& mid.tables@[m].name@ == "_meta_tables"@
                                    &&& ts >= 0
                                    &&& #[trigger] ingested(
                                        prior,
                                        mid.tables@[m],
                                        meta_row(ts, table@),
                                    )
                                };
                            assert(m0 != i as int);
                            assert(self.tables@[m0] == mid.tables@[m0]);
                            assert(ingested(prior0, self.tables@[m0], meta_row(ts0, table@)));
                        }
                    }
                }
            },
            None => {
                proof {
                    assert(false);
                }
            },
        }
    }

    /// Ingests whole columns into the named table, creating it first if
    /// needed.  An already-known table changes exactly as its own
    /// column-ingest contract says.
    pub fn ingest_heterogeneous(&mut self, table: &str, columns: Vec<(String, Vec<RawVal>)>)
        requires
            inner_wf(*old(self)),
            forall|i: int, j: int|
                0 <= i < j < columns@.len() ==> (#[trigger] columns@[i]).0@ != (
                #[trigger] columns@[j]).0@,
        ensures
            inner_wf(*final(self)),
            exists|i: int|
                0 <= i < final(self).tables@.len() && (#[trigger] final(self).tables@[i]).name@
                    == table@,
            (exists|i: int|
                0 <= i < old(self).tables@.len() && (#[trigger] old(self).tables@[i]).name@
                    == table@) ==> exists|i: int|
                {
                    &&& 0 <= i < old(self).tables@.len()
                    &&& (#[trigger] old(self).tables@[i]).name@ == table@
                    &&& final(self).tables@.len() == old(self).tables@.len()
                    &&& forall|x: int|
                        0 <= x < old(self).tables@.len() && x != i
                            ==> final(self).tables@[x] == old(self).tables@[x]
                    &&& crate::table::hetero_ingested(
                        old(self).tables@[i],
                        final(self).tables@[i],
                        columns@,
                    )
                },
            (forall|i: int|
                0 <= i < old(self).tables@.len() ==> (#[trigger] old(self).tables@[i]).name@
                    != table@) ==> {
                &&& exists|i: int|
                    0 <= i < final(self).tables@.len() && (#[trigger] final(self).tables@[
                    i]).name@ == table@ && final(self).tables@[i].batch_size == (
                    if table@ == "_meta_tables"@ {
                        1int
                    } else if table@ == "_meta_queries"@ {
                        10int
                    } else {
                        1048576int
                    })
                &&& table@ != "_meta_tables"@ ==> exists|m: int, ts: i64, prior: Table|
                    {
                        &&& 0 <= m < final(self).tables@.len()
                        &&& final(self).tables@[m].name@ == "_meta_tables"@
                        &&& ts >= 0
                        &&& #[trigger] ingested(prior, final(self).tables@[m], meta_row(ts, table@))
                    }
            },
    {
        let ghost fresh = forall|i: int|
            0 <= i < self.tables@.len() ==> (#[trigger] self.tables@[i]).name@ != table@;
        self.create_if_empty(table);
        let ghost mid = *self;
        match self.find_table(table) {
            Some(i) => {
                let ghost pre = self.tables@;
                let mut lru = Lru { entries: Vec::new() };
                core::mem::swap(&mut lru, &mut self.lru);
                let tref = &mut self.tables[i];
                tref.ingest_heterogeneous(columns, &mut lru);
                core::mem::swap(&mut lru, &mut self.lru);
                proof {
                    assert forall|x: int, y: int|
                        0 <= x < y < self.tables@.len() implies (#[trigger] self.tables@[x]).name@
                        != (#[trigger] self.tables@[y]).name@ by {
                        assert(self.tables@[x].name@ == pre[x].name@);
                        assert(self.tables@[y].name@ == pre[y].name@);
                    }
                    assert(self.tables@[i as int].name@ == table@);
                    if fresh {
                        assert(self.tables@[i as int].batch_size == pre[i as int].batch_size);
                        if table@ != "_meta_tables"@ {
                            let (m0, ts0, prior0) = choose|m: int, ts: i64, prior: Table|
                                {
                                    &&& 0 <= m < mid.tables@.len()
                                    &&& mid.tables@[m].name@ == "_meta_tables"@
                                    &&& ts >= 0
                                    &&& #[trigger] ingested(
                                        prior,
                                        mid.tables@[m],
                                        meta_row(ts, table@),
                                    )
                                };
                            assert(m0 != i as int);
                            assert(self.tables@[m0] == mid.tables@[m0]);
                            assert(ingested(prior0, self.tables@[m0], meta_row(ts0, table@)));
                        }
                    }
                }
            },
            None => {
                proof {
                    assert(false);
                }
            },
        }
    }

    /// Loads a fully built partition into the named table under a fresh
    /// partition id, marks each of its column keys in the LRU, and
    /// returns the id so that the caller can persist the partition.
    pub fn store_partition(&mut self, tablename: &str, partition: Vec<Column>) -> (r: u64)
        requires
            inner_wf(*old(self)),
            forall|i: int, j: int|
                0 <= i < j < partition@.len() ==> (#[trigger] partition@[i]).name@ != (
                #[trigger] partition@[j]).name@,
            forall|i: int|
                0 <= i < partition@.len() ==> (#[trigger] partition@[i]).data@.len() == (if partition@.len() > 0 {
                    partition@[0].data@.len()
                } else {
                    0
                }),
        ensures
            inner_wf(*final(self)),
            r == old(self).next_partition_id,
            final(self).next_partition_id == old(self).next_partition_id + (if old(
                self,
            ).next_partition_id < u64::MAX {
                1int
            } else {
                0int
            }),
            exists|i: int|
                {
                    &&& 0 <= i < final(self).tables@.len()
                    &&& (#[trigger] final(self).tables@[i]).name@ == tablename@
                    &&& match find_part_index(final(self).tables@[i].partitions@, r) {
                        Some(k) => {
                            let stored = final(self).tables@[i].partitions@[k];
                            &&& stored.id == r
                            &&& stored.len == (if partition@.len() > 0 {
                                partition@[0].data@.len() as int
                            } else {
                                0
                            })
                            &&& stored.cols@.len() == partition@.len()
                            &&& forall|c: int|
                                0 <= c < partition@.len()
                                    ==> (#[trigger] crate::store::part_cols_view(
                                    stored.cols@,
                                )[c]).0 == partition@[c].name@
                                    && crate::store::part_cols_view(stored.cols@)[c].1 == Some(
                                    crate::scratchpad::vals_view(partition@[c].data@),
                                )
                        },
                        None => false,
                    }
                },
            forall|c: int|
                0 <= c < partition@.len() ==> has_key(
                    lru_view(final(self).lru.entries@),
                    (r, (#[trigger] partition@[c]).name@),
                ),
    {
        self.create_if_empty(tablename);
        let i = match self.find_table(tablename) {
            Some(i) => i,
            None => {
                proof {
                    assert(false);
                }
                0
            },
        };
        let pid = self.next_partition_id;
        if self.next_partition_id < u64::MAX {
            self.next_partition_id = self.next_partition_id + 1;
        }
        let n = if partition.len() > 0 {
            partition[0].data.len()
        } else {
            0
        };
        let mut cols: Vec<(String, crate::store::ColumnData)> = Vec::new();
        let mut keys: Vec<(u64, String)> = Vec::new();
        let mut j: usize = 0;
        while j < partition.len()
            invariant
                forall|x: int, y: int|
                    0 <= x < y < partition@.len() ==> (#[trigger] partition@[x]).name@ != (
                    #[trigger] partition@[y]).name@,
                forall|x: int|
                    0 <= x < partition@.len() ==> (#[trigger] partition@[x]).data@.len() == (if partition@.len() > 0 {
                        partition@[0].data@.len()
                    } else {
                        0
                    }),
                n == (if partition@.len() > 0 {
                    partition@[0].data@.len()
                } else {
                    0
                }),
                0 <= j <= partition@.len(),
                cols@.len() == j,
                keys@.len() == j,
                forall|x: int|
                    0 <= x < j ==> (#[trigger] keys@[x]).0 == pid && keys@[x].1@ == partition@[
                        x].name@,
                forall|x: int|
                    0 <= x < j ==> (#[trigger] cols@[x]).0@ == partition@[x].name@
                        && (crate::store::cdata_view(cols@[x].1) matches Some(d) && d.len() == n)
                        && crate::store::cdata_view(cols@[x].1) == Some(
                        crate::scratchpad::vals_view(partition@[x].data@),
                    ),
            decreases partition@.len() - j,
        {
            let c = &partition[j];
            keys.push((pid, c.name.clone()));
            cols.push(
                (c.name.clone(), crate::store::ColumnData::Resident(
                    crate::type_conversion::clone_vals(&c.data),
                )),
            );
            proof {
                assert(crate::scratchpad::vals_view(partition@[j as int].data@).len() == partition@[
                    j as int].data@.len());
            }
            j += 1;
        }
        let p = Partition { id: pid, len: n, cols };
        proof {
            assert(crate::store::partition_wf(p)) by {
                assert forall|x: int, y: int|
                    0 <= x < y < p.cols@.len() implies (#[trigger] p.cols@[x]).0@ != (
                #[trigger] p.cols@[y]).0@ by {
                    assert(p.cols@[x].0@ == partition@[x].name@);
                    assert(p.cols@[y].0@ == partition@[y].name@);
                }
                assert forall|x: int|
                    0 <= x < p.cols@.len() implies match (#[trigger] crate::store::part_cols_view(
                    p.cols@,
                )[x]).1 {
                    Some(d) => d.len() == p.len,
                    None => true,
                } by {
                    assert(crate::store::part_cols_view(p.cols@)[x].1 == crate::store::cdata_view(
                        p.cols@[x].1,
                    ));
                }
            }
        }
        let ghost pre = self.tables@;
        let tref = &mut self.tables[i];
        tref.load_partition(p);
        proof {
            assert forall|x: int, y: int|
                0 <= x < y < self.tables@.len() implies (#[trigger] self.tables@[x]).name@ != (
            #[trigger] self.tables@[y]).name@ by {
                assert(self.tables@[x].name@ == pre[x].name@);
                assert(self.tables@[y].name@ == pre[y].name@);
            }
            crate::table::lemma_find_part_index(pre[i as int].partitions@, pid);
            match find_part_index(pre[i as int].partitions@, pid) {
                Some(k0) => {
                    crate::table::lemma_find_part_present(
                        self.tables@[i as int].partitions@,
                        pid,
                        k0,
                    );
                },
                None => {
                    crate::table::lemma_find_part_present(
                        self.tables@[i as int].partitions@,
                        pid,
                        pre[i as int].partitions@.len() as int,
                    );
                },
            }
            crate::table::lemma_find_part_index(self.tables@[i as int].partitions@, pid);
            let k = find_part_index(self.tables@[i as int].partitions@, pid)->Some_0;
            if self.tables@[i as int].partitions@[k] != p {
                assert(self.tables@[i as int].partitions@[k].id == p.id);
                match find_part_index(pre[i as int].partitions@, pid) {
                    Some(k0) => {
                        assert(self.tables@[i as int].partitions@[k0] == p);
                    },
                    None => {
                        assert(self.tables@[i as int].partitions@.last() == p);
                    },
                }
                assert(false);
            }
            assert forall|c: int|
                0 <= c < partition@.len() implies (#[trigger] crate::store::part_cols_view(
                p.cols@,
            )[c]).0 == partition@[c].name@ && crate::store::part_cols_view(p.cols@)[c].1 == Some(
                crate::scratchpad::vals_view(partition@[c].data@),
            ) by {
                assert(p.cols@[c].0@ == partition@[c].name@);
            }
        }
        let ghost tables_after = self.tables@;
        let mut k: usize = 0;
        while k < keys.len()
            invariant
                inner_wf(*self),
                self.tables@ == tables_after,
                keys@.len() == partition@.len(),
                forall|x: int|
                    0 <= x < keys@.len() ==> (#[trigger] keys@[x]).0 == pid && keys@[x].1@
                        == partition@[x].name@,
                forall|x: int, y: int|
                    0 <= x < y < partition@.len() ==> (#[trigger] partition@[x]).name@ != (
                    #[trigger] partition@[y]).name@,
                0 <= k <= keys@.len(),
                self.next_partition_id == old(self).next_partition_id + (if old(
                    self,
                ).next_partition_id < u64::MAX {
                    1int
                } else {
                    0int
                }),
                forall|x: int|
                    0 <= x < k ==> has_key(
                        lru_view(self.lru.entries@),
                        (pid, (#[trigger] partition@[x]).name@),
                    ),
            decreases keys@.len() - k,
        {
            let ghost pre_lru = lru_view(self.lru.entries@);
            self.lru.put(keys[k].0, keys[k].1.clone());
            proof {
                let key_k = (pid, partition@[k as int].name@);
                assert(lru_view(self.lru.entries@).last() == key_k);
                assert(has_key(lru_view(self.lru.entries@), key_k));
                assert forall|x: int|
                    0 <= x < k + 1 implies has_key(
                    lru_view(self.lru.entries@),
                    (pid, (#[trigger] partition@[x]).name@),
                ) by {
                    if x < k {
                        let key_x = (pid, partition@[x].name@);
                        assert(key_x != key_k);
                        crate::store::lemma_without_key_keeps_others(pre_lru, key_k, key_x);
                        let w = crate::store::without_key(pre_lru, key_k);
                        let y = choose|y: int| 0 <= y < w.len() && (#[trigger] w[y]) == key_x;
                        assert(lru_view(self.lru.entries@)[y] == key_x);
                    }
                }
            }
            k += 1;
        }
        pid
    }

    /// Restores an evicted column in whichever table holds the identified
    /// partition: every table changes exactly as its own restore contract
    /// says, so only the matching partition's column becomes resident.
    pub fn restore(&mut self, id: u64, column: Column)
        requires
            inner_wf(*old(self)),
        ensures
            inner_wf(*final(self)),
            final(self).tables@.len() == old(self).tables@.len(),
            forall|t: int|
                0 <= t < old(self).tables@.len() ==> restored_table(
                    #[trigger] old(self).tables@[t],
                    final(self).tables@[t],
                    id,
                    column.name@,
                    crate::scratchpad::vals_view(column.data@),
                ),
            forall|t: int|
                0 <= t < old(self).tables@.len() ==> crate::table::restore_exact(
                    #[trigger] old(self).tables@[t],
                    final(self).tables@[t],
                    id,
                    column.name@,
                    crate::scratchpad::vals_view(column.data@),
                ),
    {
        let mut i: usize = 0;
        while i < self.tables.len()
            invariant
                inner_wf(*self),
                self.tables@.len() == old(self).tables@.len(),
                0 <= i <= self.tables@.len(),
                forall|t: int|
                    0 <= t < i ==> restored_table(
                        #[trigger] old(self).tables@[t],
                        self.tables@[t],
                        id,
                        column.name@,
                        crate::scratchpad::vals_view(column.data@),
                    ),
                forall|t: int|
                    0 <= t < i ==> crate::table::restore_exact(
                        #[trigger] old(self).tables@[t],
                        self.tables@[t],
                        id,
                        column.name@,
                        crate::scratchpad::vals_view(column.data@),
                    ),
                forall|t: int|
                    i <= t < self.tables@.len() ==> self.tables@[t] == old(self).tables@[t],
            decreases self.tables@.len() - i,
        {
            let ghost pre = self.tables@;
            let tref = &mut self.tables[i];
            tref.restore(id, &column);
            proof {
                assert forall|x: int, y: int|
                    0 <= x < y < self.tables@.len() implies (#[trigger] self.tables@[x]).name@ != (
                #[trigger] self.tables@[y]).name@ by {
                    assert(self.tables@[x].name@ == pre[x].name@);
                    assert(self.tables@[y].name@ == pre[y].name@);
                }
            }
            i += 1;
        }
    }

    /// The total heap bytes of all tables.
    pub fn total_heap(&self) -> (r: usize)
        ensures
            r == tables_heap(self.tables@),
    {
        let mut acc: usize = 0;
        let mut i: usize = 0;
        while i < self.tables.len()
            invariant
                0 <= i <= self.tables@.len(),
                acc == tables_heap(self.tables@.take(i as int)),
            decreases self.tables@.len() - i,
        {
            proof {
                assert(self.tables@.take(i + 1).drop_last() =~= self.tables@.take(i as int));
                assert(self.tables@.take(i + 1).last() == self.tables@[i as int]);
            }
            let h = self.tables[i].heap_size_of_children();
            acc = if acc > usize::MAX - h {
                usize::MAX
            } else {
                acc + h
            };
            i += 1;
        }
        proof {
            assert(self.tables@.take(self.tables@.len() as int) =~= self.tables@);
        }
        acc
    }

    /// One round of memory-limit enforcement: while the tables' heap
    /// exceeds the soft limit, the least recently used column is evicted;
    /// the round ends only once the heap fits the limit or nothing is
    /// left to evict.  The surrounding once-a-second timer lives outside
    /// the library.
    pub fn enforce_mem_limit_step(&mut self)
        requires
            inner_wf(*old(self)),
        ensures
            inner_wf(*final(self)),
            final(self).running == old(self).running,
            final(self).opts == old(self).opts,
            tables_heap(final(self).tables@) <= final(self).opts.mem_size_limit_tables
                || lru_view(final(self).lru.entries@).len() == 0,
            tables_heap(old(self).tables@) <= old(self).opts.mem_size_limit_tables
                ==> *final(self) == *old(self),
            final(self).tables@.len() == old(self).tables@.len(),
            forall|t: int|
                0 <= t < old(self).tables@.len() ==> crate::table::evict_weakens(
                    old(self).tables@[t],
                    #[trigger] final(self).tables@[t],
                ),
    {
        let usage0 = self.total_heap();
        if usage0 <= self.opts.mem_size_limit_tables {
            proof {
                assert forall|t: int|
                    0 <= t < old(self).tables@.len() implies crate::table::evict_weakens(
                    old(self).tables@[t],
                    #[trigger] self.tables@[t],
                ) by {
                    crate::table::lemma_evict_weakens_refl(self.tables@[t]);
                }
            }
            return ;
        }
        loop
            invariant
                inner_wf(*self),
                self.running == old(self).running,
                self.opts == old(self).opts,
                self.tables@.len() == old(self).tables@.len(),
                forall|t: int|
                    0 <= t < old(self).tables@.len() ==> crate::table::evict_weakens(
                        old(self).tables@[t],
                        #[trigger] self.tables@[t],
                    ),
                tables_heap(old(self).tables@) > old(self).opts.mem_size_limit_tables,
            decreases lru_view(self.lru.entries@).len(),
        {
            let usage = self.total_heap();
            if usage <= self.opts.mem_size_limit_tables {
                return ;
            }
            match self.lru.evict() {
                Some(victim) => {
                    let ghost lru_len = lru_view(self.lru.entries@).len();
                    let mut i: usize = 0;
                    while i < self.tables.len()
                        invariant
                            inner_wf(*self),
                            self.running == old(self).running,
                            self.opts == old(self).opts,
                            lru_view(self.lru.entries@).len() == lru_len,
                            0 <= i <= self.tables@.len(),
                            self.tables@.len() == old(self).tables@.len(),
                            forall|t: int|
                                0 <= t < old(self).tables@.len()
                                    ==> crate::table::evict_weakens(
                                    old(self).tables@[t],
                                    #[trigger] self.tables@[t],
                                ),
                        decreases self.tables@.len() - i,
                    {
                        let ghost pre = self.tables@;
                        let tref = &mut self.tables[i];
                        let freed = tref.evict(&victim);
                        proof {
                            assert forall|x: int, y: int|
                                0 <= x < y < self.tables@.len() implies (#[trigger] self.tables@[
                            x]).name@ != (#[trigger] self.tables@[y]).name@ by {
                                assert(self.tables@[x].name@ == pre[x].name@);
                                assert(self.tables@[y].name@ == pre[y].name@);
                            }
                            crate::table::lemma_evict_step_weakens(
                                pre[i as int],
                                self.tables@[i as int],
                                (victim.0, victim.1@),
                                freed as nat,
                            );
                            assert forall|t: int|
                                0 <= t < old(self).tables@.len()
                                    implies crate::table::evict_weakens(
                                old(self).tables@[t],
                                #[trigger] self.tables@[t],
                            ) by {
                                if t == i as int {
                                    crate::table::lemma_evict_weakens_trans(
                                        old(self).tables@[t],
                                        pre[t],
                                        self.tables@[t],
                                    );
                                } else {
                                    assert(self.tables@[t] == pre[t]);
                                }
                            }
                        }
                        i += 1;
                    }
                },
                None => {
                    return ;
                },
            }
        }
    }

    /// The memory report of every table.
    pub fn mem_tree(&self, depth: usize) -> (r: Vec<MemTreeTable>)
        requires
            inner_wf(*self),
            depth > 0,
        ensures
            r@.len() == self.tables@.len(),
    {
        let mut r: Vec<MemTreeTable> = Vec::new();
        let mut i: usize = 0;
        while i < self.tables.len()
            invariant
                inner_wf(*self),
                depth > 0,
                0 <= i <= self.tables@.len(),
                r@.len() == i,
            decreases self.tables@.len() - i,
        {
            r.push(self.tables[i].mem_tree(depth));
            i += 1;
        }
        r
    }

    /// Point-in-time statistics of every table.
    pub fn stats(&self) -> (r: Vec<TableStats>)
        requires
            inner_wf(*self),
        ensures
            r@.len() == self.tables@.len(),
    {
        let mut r: Vec<TableStats> = Vec::new();
        let mut i: usize = 0;
        while i < self.tables.len()
            invariant
                inner_wf(*self),
                0 <= i <= self.tables@.len(),
                r@.len() == i,
            decreases self.tables@.len() - i,
        {
            r.push(self.tables[i].stats());
            i += 1;
        }
        r
    }

    /// The next partition id the coordinator would assign.
    pub fn max_partition_id(&self) -> (r: u64)
        ensures
            r == self.next_partition_id,
    {
        self.next_partition_id
    }

    /// The engine configuration.
    pub fn opts(&self) -> (r: &Options)
        ensures
            r == self.opts,
    {
        &self.opts
    }

    /// The disk-read scheduler.
    pub fn disk_read_scheduler(&self) -> (r: &DiskReadScheduler)
        ensures
            r == self.disk_read_scheduler,
    {
        &self.disk_read_scheduler
    }
}

} // verus!
