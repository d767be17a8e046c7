//! Tables: immutable partitions plus the row ingest buffer that seals into
//! a new partition whenever it reaches the table's batch size.

use vstd::prelude::*;

use crate::scratchpad::vals_view;
use crate::store::{
    appended_cols, buffer_wf, col_pairs_view, cols_heap, distinct_row, extended_cols,
    part_cols_view, partition_wf, row_view, Buffer, Column, Lru, Partition, LIVE_PARTITION_ID,
};
use crate::val::{RawVal, ValView};

verus! {

/// Persisted knowledge of one partition: enough to register it without its
/// data.
#[derive(Debug)]
pub struct PartitionMetadata {
    pub id: u64,
    pub tablename: String,
    pub len: usize,
    pub columns: Vec<String>,
}

/// Summary metadata of a table.
#[derive(Debug, Clone)]
pub struct Metadata {
    pub name: String,
    pub batch_count: u64,
}

/// Point-in-time statistics of a table.
#[derive(Debug)]
pub struct TableStats {
    pub name: String,
    pub rows: usize,
    pub batches: usize,
    pub batches_bytes: usize,
    pub buffer_length: usize,
    pub buffer_bytes: usize,
    pub size_per_column: Vec<(String, usize)>,
}

/// A node of the memory report tree: a table with its row count, heap
/// bytes, residency, and per-column sizes when depth permits.
#[derive(Debug)]
pub struct MemTreeTable {
    pub name: String,
    pub rows: usize,
    pub fully_resident: bool,
    pub size_bytes: usize,
    pub columns: Vec<(String, usize)>,
}

/// A table: its name, its batch size, its sealed partitions and its ingest
/// buffer.
#[derive(Debug)]
pub struct Table {
    pub name: String,
    pub batch_size: usize,
    pub partitions: Vec<Partition>,
    pub buffer: Buffer,
}

/// The buffer is well-formed, every partition is well-formed, and no two
/// partitions share an id.
pub open spec fn table_wf(t: Table) -> bool {
    &&& buffer_wf(t.buffer)
    &&& forall|i: int| 0 <= i < t.partitions@.len() ==> partition_wf(#[trigger] t.partitions@[i])
    &&& part_ids_distinct(t.partitions@)
}

/// No two partitions share an id.
pub open spec fn part_ids_distinct(ps: Seq<Partition>) -> bool {
    forall|i: int, j: int| 0 <= i < j < ps.len() ==> (#[trigger] ps[i]).id != (#[trigger] ps[j]).id
}

/// The index of the partition with this id, if one is held.
pub open spec fn find_part_index(ps: Seq<Partition>, id: u64) -> Option<int>
    decreases ps.len(),
{
    if ps.len() == 0 {
        None
    } else if ps[0].id == id {
        Some(0)
    } else {
        match find_part_index(ps.subrange(1, ps.len() as int), id) {
            None => None,
            Some(i) => Some(i + 1),
        }
    }
}

/// What is found is in range and carries the id searched for.
pub proof fn lemma_find_part_index(ps: Seq<Partition>, id: u64)
    ensures
        find_part_index(ps, id) matches Some(i) ==> 0 <= i < ps.len() && ps[i].id == id,
        find_part_index(ps, id) is None ==> forall|x: int|
            0 <= x < ps.len() ==> (#[trigger] ps[x]).id != id,
    decreases ps.len(),
{
    if ps.len() > 0 && ps[0].id != id {
        lemma_find_part_index(ps.subrange(1, ps.len() as int), id);
        match find_part_index(ps.subrange(1, ps.len() as int), id) {
            None => {
                assert forall|x: int| 0 <= x < ps.len() implies (#[trigger] ps[x]).id != id by {
                    if x > 0 {
                        assert(ps.subrange(1, ps.len() as int)[x - 1].id != id);
                    }
                }
            },
            Some(_) => {},
        }
    }
}

/// A held id is found.
pub proof fn lemma_find_part_present(ps: Seq<Partition>, id: u64, x: int)
    requires
        0 <= x < ps.len(),
        ps[x].id == id,
    ensures
        find_part_index(ps, id) is Some,
    decreases x,
{
    if ps.len() > 0 && ps[0].id != id {
        assert(ps.subrange(1, ps.len() as int)[x - 1].id == id);
        lemma_find_part_present(ps.subrange(1, ps.len() as int), id, x - 1);
    }
}

/// What registering persisted metadata leaves in a partition slot.
pub open spec fn registered_from(p: Partition, id: u64, len: usize, columns: Seq<String>) -> bool {
    &&& p.id == id
    &&& p.len == len
    &&& part_cols_view(p.cols@) == columns.map_values(|s: String| (s@, None::<Seq<ValView>>))
}

/// Every partition of the table is the nonresident registration of one
/// of the first `upto` metadata records, carrying the table's name.
/// The view of a per-column size list.
pub open spec fn spc_view(v: Seq<(String, usize)>) -> Seq<(Seq<char>, nat)> {
    v.map_values(|p: (String, usize)| (p.0@, p.1 as nat))
}

/// Adds one column's bytes under its name: the first entry carrying the
/// name grows by the saturating sum, or a new entry is appended.
pub open spec fn spc_upsert(
    acc: Seq<(Seq<char>, nat)>,
    name: Seq<char>,
    sz: nat,
) -> Seq<(Seq<char>, nat)>
    decreases acc.len(),
{
    if acc.len() == 0 {
        seq![(name, sz)]
    } else if acc[0].0 == name {
        seq![(acc[0].0, crate::store::sat_cap(acc[0].1 + sz as int))] + acc.subrange(
            1,
            acc.len() as int,
        )
    } else {
        seq![acc[0]] + spc_upsert(acc.subrange(1, acc.len() as int), name, sz)
    }
}

/// The sizes after folding one partition's columns into the list.
pub open spec fn spc_cols(
    acc: Seq<(Seq<char>, nat)>,
    cols: Seq<(Seq<char>, Option<Seq<ValView>>)>,
) -> Seq<(Seq<char>, nat)>
    decreases cols.len(),
{
    if cols.len() == 0 {
        acc
    } else {
        spc_cols(
            spc_upsert(acc, cols[0].0, crate::store::col_contrib(cols[0])),
            cols.subrange(1, cols.len() as int),
        )
    }
}

/// The per-column sizes of a partition list: each name's saturating sum
/// of resident bytes, keyed in first-occurrence order.
pub open spec fn spc_parts(acc: Seq<(Seq<char>, nat)>, parts: Seq<Partition>) -> Seq<
    (Seq<char>, nat),
>
    decreases parts.len(),
{
    if parts.len() == 0 {
        acc
    } else {
        spc_parts(
            spc_cols(acc, part_cols_view(parts[0].cols@)),
            parts.subrange(1, parts.len() as int),
        )
    }
}

/// Where the scan stopped is where the upsert lands: the first entry
/// carrying the name grows, or a new entry is appended.
proof fn lemma_spc_upsert_at(acc: Seq<(Seq<char>, nat)>, name: Seq<char>, sz: nat, k: int)
    requires
        0 <= k <= acc.len(),
        forall|x: int| 0 <= x < k ==> (#[trigger] acc[x]).0 != name,
        k < acc.len() ==> acc[k].0 == name,
    ensures
        k < acc.len() ==> spc_upsert(acc, name, sz) == acc.update(
            k,
            (acc[k].0, crate::store::sat_cap(acc[k].1 + sz as int)),
        ),
        k == acc.len() ==> spc_upsert(acc, name, sz) == acc.push((name, sz)),
    decreases acc.len(),
{
    if acc.len() == 0 {
        assert(spc_upsert(acc, name, sz) =~= acc.push((name, sz)));
    } else if k == 0 {
        assert(spc_upsert(acc, name, sz) =~= acc.update(
            0,
            (acc[0].0, crate::store::sat_cap(acc[0].1 + sz as int)),
        ));
    } else {
        let t = acc.subrange(1, acc.len() as int);
        assert forall|x: int| 0 <= x < k - 1 implies (#[trigger] t[x]).0 != name by {
            assert(t[x] == acc[x + 1]);
        }
        if k - 1 < t.len() {
            assert(t[k - 1] == acc[k]);
        }
        lemma_spc_upsert_at(t, name, sz, k - 1);
        if k < acc.len() {
            assert(spc_upsert(acc, name, sz) =~= acc.update(
                k,
                (acc[k].0, crate::store::sat_cap(acc[k].1 + sz as int)),
            ));
        } else {
            assert(spc_upsert(acc, name, sz) =~= acc.push((name, sz)));
        }
    }
}

pub open spec fn registered_by(
    metadata: Seq<PartitionMetadata>,
    upto: int,
    t: Table,
    p: int,
) -> bool {
    exists|x: int|
        #![trigger metadata[x]]
        0 <= x < upto && metadata[x].tablename@ == t.name@ && registered_from(
            t.partitions@[p],
            metadata[x].id,
            metadata[x].len,
            metadata[x].columns@,
        )
}

pub open spec fn partitions_registered(
    metadata: Seq<PartitionMetadata>,
    upto: int,
    t: Table,
) -> bool {
    forall|p: int|
        0 <= p < t.partitions@.len() ==> #[trigger] registered_by(metadata, upto, t, p)
}

/// Widening the record prefix keeps the registration claim.
proof fn lemma_registered_mono(metadata: Seq<PartitionMetadata>, a: int, b: int, t: Table)
    requires
        0 <= a <= b,
        partitions_registered(metadata, a, t),
    ensures
        partitions_registered(metadata, b, t),
{
    assert forall|p: int|
        0 <= p < t.partitions@.len() implies #[trigger] registered_by(metadata, b, t, p) by {
        assert(registered_by(metadata, a, t, p));
        let x0 = choose|x0: int|
            #![trigger metadata[x0]]
            0 <= x0 < a && metadata[x0].tablename@ == t.name@ && registered_from(
                t.partitions@[p],
                metadata[x0].id,
                metadata[x0].len,
                metadata[x0].columns@,
            );
        assert(metadata[x0].tablename@ == t.name@);
    }
}

/// Registering record `m` into a table whose partitions came from the
/// first `m` records leaves every partition from the first `m + 1`.
proof fn lemma_registration_registers(
    metadata: Seq<PartitionMetadata>,
    m: int,
    pre: Table,
    post: Table,
)
    requires
        0 <= m < metadata.len(),
        partitions_registered(metadata, m, pre),
        pre.name@ == metadata[m].tablename@,
        post.name@ == pre.name@,
        match find_part_index(pre.partitions@, metadata[m].id) {
            Some(i) => {
                &&& post.partitions@.len() == pre.partitions@.len()
                &&& forall|x: int|
                    0 <= x < pre.partitions@.len() && x != i ==> post.partitions@[x]
                        == pre.partitions@[x]
                &&& registered_from(
                    post.partitions@[i],
                    metadata[m].id,
                    metadata[m].len,
                    metadata[m].columns@,
                )
            },
            None => {
                &&& post.partitions@.len() == pre.partitions@.len() + 1
                &&& forall|x: int|
                    0 <= x < pre.partitions@.len() ==> post.partitions@[x] == pre.partitions@[x]
                &&& registered_from(
                    post.partitions@.last(),
                    metadata[m].id,
                    metadata[m].len,
                    metadata[m].columns@,
                )
            },
        },
    ensures
        partitions_registered(metadata, m + 1, post),
{
    assert forall|p: int|
        0 <= p < post.partitions@.len() implies #[trigger] registered_by(
        metadata,
        m + 1,
        post,
        p,
    ) by {
        let landed: int = match find_part_index(pre.partitions@, metadata[m].id) {
            Some(i) => i,
            None => pre.partitions@.len() as int,
        };
        if p == landed {
            assert(metadata[m].tablename@ == post.name@);
            assert(registered_from(
                post.partitions@[p],
                metadata[m].id,
                metadata[m].len,
                metadata[m].columns@,
            ));
        } else {
            assert(post.partitions@[p] == pre.partitions@[p]);
            assert(0 <= p < pre.partitions@.len());
            assert(registered_by(metadata, m, pre, p));
            let x0 = choose|x0: int|
                #![trigger metadata[x0]]
                0 <= x0 < m && metadata[x0].tablename@ == pre.name@ && registered_from(
                    pre.partitions@[p],
                    metadata[x0].id,
                    metadata[x0].len,
                    metadata[x0].columns@,
                );
            assert(metadata[x0].tablename@ == post.name@);
            assert(registered_from(
                post.partitions@[p],
                metadata[x0].id,
                metadata[x0].len,
                metadata[x0].columns@,
            ));
        }
    }
}

/// What a snapshot holds: every partition copied in order, plus, when the
/// ingest buffer is non-empty, a transient partition with the reserved
/// live id built from the buffer.
pub open spec fn snapshot_of(t: Table, snap: Seq<Partition>) -> bool {
    &&& snap.len() == t.partitions@.len() + (if t.buffer.len > 0 {
        1int
    } else {
        0int
    })
    &&& forall|i: int|
        0 <= i < t.partitions@.len() ==> (#[trigger] snap[i]).id == t.partitions@[i].id && snap[
            i].len == t.partitions@[i].len && part_cols_view(snap[i].cols@) == part_cols_view(
            t.partitions@[i].cols@,
        )
    &&& t.buffer.len > 0 ==> snap.last().id == LIVE_PARTITION_ID && snap.last().len
        == t.buffer.len && part_cols_view(snap.last().cols@) == col_pairs_view(
        t.buffer.cols@,
    ).map_values(|p: (Seq<char>, Seq<ValView>)| (p.0, Some(p.1)))
    &&& forall|i: int| 0 <= i < snap.len() ==> partition_wf(#[trigger] snap[i])
}

/// What ingesting one row leaves of a table: the row appended to the
/// buffer, or, when the buffer reaches the batch size, the buffer sealed
/// into one partition stored under the id `partitions.len()`.
pub open spec fn ingested(pre: Table, post: Table, row: Seq<(Seq<char>, ValView)>) -> bool {
    &&& post.name@ == pre.name@
    &&& post.batch_size == pre.batch_size
    &&& pre.buffer.len + 1 < pre.batch_size ==> {
        &&& post.partitions@ == pre.partitions@
        &&& post.buffer.len == pre.buffer.len + 1
        &&& col_pairs_view(post.buffer.cols@) == extended_cols(
            col_pairs_view(pre.buffer.cols@),
            row,
        ) + appended_cols(col_pairs_view(pre.buffer.cols@), row, pre.buffer.len as nat)
    }
    &&& pre.buffer.len + 1 >= pre.batch_size ==> {
        &&& post.buffer.len == 0
        &&& sealed_into(
            pre.partitions@,
            extended_cols(col_pairs_view(pre.buffer.cols@), row) + appended_cols(
                col_pairs_view(pre.buffer.cols@),
                row,
                pre.buffer.len as nat,
            ),
            (pre.buffer.len + 1) as nat,
            post.partitions@,
        )
    }
}

/// What ingesting whole columns leaves of a table: the columns replayed
/// as rows (when they fit the machine limit), and the buffer sealed under
/// the id `partitions.len()` if it reached the batch size.
pub open spec fn hetero_ingested(
    pre: Table,
    post: Table,
    columns: Seq<(String, Vec<RawVal>)>,
) -> bool {
    &&& post.name@ == pre.name@
    &&& post.batch_size == pre.batch_size
    &&& pre.batch_size > 0 ==> post.buffer.len < post.batch_size
    &&& pre.batch_size > 0 && pre.buffer.len + max_col_len(columns) <= usize::MAX ==> ({
        let filled = pre.buffer.len + max_col_len(columns);
        &&& (filled < pre.batch_size ==> post.partitions@ == pre.partitions@ && post.buffer.len
            == filled)
        &&& (filled >= pre.batch_size && filled > 0 ==> post.buffer.len == 0 && (
        match find_part_index(post.partitions@, pre.partitions@.len() as u64) {
            Some(k) => post.partitions@[k].len == filled,
            None => false,
        }) && (match find_part_index(pre.partitions@, pre.partitions@.len() as u64) {
            None => post.partitions@.len() == pre.partitions@.len() + 1 && (forall|i: int|
                0 <= i < pre.partitions@.len() ==> post.partitions@[i] == pre.partitions@[i]),
            Some(k) => post.partitions@.len() == pre.partitions@.len() && (forall|i: int|
                0 <= i < pre.partitions@.len() && i != k ==> post.partitions@[i]
                    == pre.partitions@[i]),
        }))
    })
}

/// What restoring a column leaves of a table: in the partition holding
/// `id`, the named column resident with the given values when the length
/// matches; nothing otherwise.
pub open spec fn restored_table(
    pre: Table,
    post: Table,
    id: u64,
    name: Seq<char>,
    data: Seq<ValView>,
) -> bool {
    &&& post.name@ == pre.name@
    &&& post.batch_size == pre.batch_size
    &&& post.buffer == pre.buffer
    &&& post.partitions@.len() == pre.partitions@.len()
    &&& match find_part_index(pre.partitions@, id) {
        None => post == pre,
        Some(i) => {
            &&& data.len() != pre.partitions@[i].len ==> post == pre
            &&& data.len() == pre.partitions@[i].len ==> (forall|x: int|
                0 <= x < pre.partitions@.len() && x != i
                    ==> post.partitions@[x] == pre.partitions@[x]) && restored_into(
                pre.partitions@[i],
                post.partitions@[i],
                name,
                data,
            )
        },
    }
}

/// Some table carries this record's tablename and holds its partition id.
pub open spec fn table_for(tables: Seq<Table>, md: PartitionMetadata) -> bool {
    exists|t: int|
        0 <= t < tables.len() && (#[trigger] tables[t]).name@ == md.tablename@ && find_part_index(
            tables[t].partitions@,
            md.id,
        ) is Some
}

/// The table's name comes from some metadata record.
pub open spec fn named_from(metadata: Seq<PartitionMetadata>, t: Table) -> bool {
    exists|x: int| 0 <= x < metadata.len() && t.name@ == (#[trigger] metadata[x]).tablename@
}

/// What sealing a buffer leaves in a partition slot.
pub open spec fn sealed_entry(
    p: Partition,
    id: u64,
    bufcols: Seq<(Seq<char>, Seq<ValView>)>,
    buflen: nat,
) -> bool {
    &&& p.id == id
    &&& p.len == buflen
    &&& part_cols_view(p.cols@) == bufcols.map_values(
        |q: (Seq<char>, Seq<ValView>)| (q.0, Some(q.1)),
    )
}

/// How a partition list changes when `p` is stored under its id: the
/// entry holding that id is replaced, or `p` is appended when the id is
/// fresh.
pub open spec fn put_shape(pre: Seq<Partition>, post: Seq<Partition>, p: Partition) -> bool {
    match find_part_index(pre, p.id) {
        Some(i) => post == pre.update(i, p),
        None => post == pre.push(p),
    }
}

/// Sealing put one partition with the buffer's columns under the id
/// `pre.len()`, replacing any partition already under that id.
pub open spec fn sealed_into(
    pre: Seq<Partition>,
    bufcols: Seq<(Seq<char>, Seq<ValView>)>,
    buflen: nat,
    post: Seq<Partition>,
) -> bool {
    match find_part_index(pre, pre.len() as u64) {
        None => {
            &&& post.len() == pre.len() + 1
            &&& forall|i: int| 0 <= i < pre.len() ==> post[i] == pre[i]
            &&& sealed_entry(post.last(), pre.len() as u64, bufcols, buflen)
        },
        Some(i) => {
            &&& post.len() == pre.len()
            &&& forall|x: int| 0 <= x < pre.len() && x != i ==> post[x] == pre[x]
            &&& sealed_entry(post[i], pre.len() as u64, bufcols, buflen)
        },
    }
}

/// After a seal, the id `pre.len()` is found and carries the sealed
/// length.
proof fn lemma_sealed_id_found(
    pre: Seq<Partition>,
    bufcols: Seq<(Seq<char>, Seq<ValView>)>,
    buflen: nat,
    post: Seq<Partition>,
    t: Table,
)
    requires
        sealed_into(pre, bufcols, buflen, post),
        t.partitions@ == post,
        table_wf(t),
    ensures
        match find_part_index(post, pre.len() as u64) {
            Some(k) => post[k].len == buflen,
            None => false,
        },
{
    lemma_find_part_index(pre, pre.len() as u64);
    match find_part_index(pre, pre.len() as u64) {
        None => {
            lemma_find_part_present(post, pre.len() as u64, pre.len() as int);
        },
        Some(i) => {
            lemma_find_part_present(post, pre.len() as u64, i);
        },
    }
    lemma_find_part_index(post, pre.len() as u64);
    let k = find_part_index(post, pre.len() as u64)->Some_0;
    match find_part_index(pre, pre.len() as u64) {
        None => {
            if k != pre.len() as int {
                assert(post[k].id == post[pre.len() as int].id);
            }
        },
        Some(i) => {
            if k != i {
                assert(post[k].id == post[i].id);
            }
        },
    }
}

/// Every column key `(id, name)` of the buffer is held by the LRU.
pub open spec fn keys_marked(
    l: Lru,
    id: u64,
    bufcols: Seq<(Seq<char>, Seq<ValView>)>,
) -> bool {
    forall|j: int|
        0 <= j < bufcols.len() ==> crate::store::has_key(
            crate::store::lru_view(l.entries@),
            (id, (#[trigger] bufcols[j]).0),
        )
}

/// What evicting the named column leaves of a partition: the same id,
/// length and column names; the named column possibly non-resident; the
/// heap shrunk by at most the freed bytes and never grown.
pub open spec fn evicted_from(pre: Partition, post: Partition, name: Seq<char>, freed: nat) -> bool {
    &&& post.id == pre.id
    &&& post.len == pre.len
    &&& post.cols@.len() == pre.cols@.len()
    &&& forall|c: int|
        0 <= c < pre.cols@.len() ==> (#[trigger] part_cols_view(post.cols@)[c]).0
            == part_cols_view(pre.cols@)[c].0 && (part_cols_view(post.cols@)[c].1
            == part_cols_view(pre.cols@)[c].1 || (part_cols_view(pre.cols@)[c].0 == name
            && part_cols_view(post.cols@)[c].1 is None))
    &&& cols_heap(part_cols_view(post.cols@)) <= cols_heap(part_cols_view(pre.cols@))
    &&& cols_heap(part_cols_view(pre.cols@)) <= cols_heap(part_cols_view(post.cols@)) + freed
}

/// The second table is the first with the resident storage of some
/// columns dropped: name, batch size, buffer, partition ids and lengths,
/// column names and every value still resident are unchanged.
pub open spec fn evict_weakens(pre: Table, post: Table) -> bool {
    &&& post.name@ == pre.name@
    &&& post.batch_size == pre.batch_size
    &&& post.buffer == pre.buffer
    &&& post.partitions@.len() == pre.partitions@.len()
    &&& forall|p: int|
        0 <= p < pre.partitions@.len() ==> {
            let a = pre.partitions@[p];
            let b = #[trigger] post.partitions@[p];
            &&& b.id == a.id
            &&& b.len == a.len
            &&& b.cols@.len() == a.cols@.len()
            &&& forall|c: int|
                0 <= c < a.cols@.len() ==> (#[trigger] crate::store::part_cols_view(b.cols@)[
                c]).0 == crate::store::part_cols_view(a.cols@)[c].0 && (
                crate::store::part_cols_view(b.cols@)[c].1 == crate::store::part_cols_view(
                    a.cols@,
                )[c].1 || crate::store::part_cols_view(b.cols@)[c].1 is None)
        }
}

/// The weakening is reflexive.
pub proof fn lemma_evict_weakens_refl(t: Table)
    ensures
        evict_weakens(t, t),
{
}

/// The weakening is transitive.
pub proof fn lemma_evict_weakens_trans(a: Table, b: Table, c: Table)
    requires
        evict_weakens(a, b),
        evict_weakens(b, c),
    ensures
        evict_weakens(a, c),
{
    assert forall|p: int| 0 <= p < a.partitions@.len() implies {
        let x = a.partitions@[p];
        let y = #[trigger] c.partitions@[p];
        &&& y.id == x.id
        &&& y.len == x.len
        &&& y.cols@.len() == x.cols@.len()
        &&& forall|cc: int|
            0 <= cc < x.cols@.len() ==> (#[trigger] crate::store::part_cols_view(y.cols@)[
            cc]).0 == crate::store::part_cols_view(x.cols@)[cc].0 && (
            crate::store::part_cols_view(y.cols@)[cc].1 == crate::store::part_cols_view(
                x.cols@,
            )[cc].1 || crate::store::part_cols_view(y.cols@)[cc].1 is None)
    } by {
        assert(b.partitions@[p].id == a.partitions@[p].id);
        assert(c.partitions@[p].id == b.partitions@[p].id);
    }
}

/// One eviction step weakens the table.
pub proof fn lemma_evict_step_weakens(pre: Table, post: Table, key: (u64, Seq<char>), freed: nat)
    requires
        post.name@ == pre.name@,
        post.batch_size == pre.batch_size,
        post.buffer == pre.buffer,
        post.partitions@.len() == pre.partitions@.len(),
        match find_part_index(pre.partitions@, key.0) {
            None => post == pre,
            Some(i) => (forall|x: int|
                0 <= x < pre.partitions@.len() && x != i ==> post.partitions@[x]
                    == pre.partitions@[x]) && evicted_from(
                pre.partitions@[i],
                post.partitions@[i],
                key.1,
                freed,
            ),
        },
    ensures
        evict_weakens(pre, post),
{
    match find_part_index(pre.partitions@, key.0) {
        None => {
            lemma_evict_weakens_refl(pre);
        },
        Some(i) => {
        },
    }
}

/// What restoring a column leaves of a partition: the same id, length and
/// column names; the named column resident with the given values.
/// The exact effect of restoring one column: the partition carrying the
/// id has the named column made resident with the given values when the
/// length matches; everything else is unchanged.
pub open spec fn restore_exact(
    pre: Table,
    post: Table,
    id: u64,
    name: Seq<char>,
    data: Seq<ValView>,
) -> bool {
    match find_part_index(pre.partitions@, id) {
        None => post == pre,
        Some(i) => {
            &&& (data.len() != pre.partitions@[i].len ==> post == pre)
            &&& (data.len() == pre.partitions@[i].len ==> (forall|x: int|
                0 <= x < pre.partitions@.len() && x != i ==> post.partitions@[x]
                    == pre.partitions@[x]) && post.name@ == pre.name@ && post.batch_size
                == pre.batch_size && post.buffer == pre.buffer && post.partitions@.len()
                == pre.partitions@.len() && (match crate::store::col_index(
                part_cols_view(pre.partitions@[i].cols@),
                name,
            ) {
                None => post.partitions@[i] == pre.partitions@[i],
                Some(c) => part_cols_view(post.partitions@[i].cols@)[c] == (
                    part_cols_view(pre.partitions@[i].cols@)[c].0,
                    Some(data),
                ) && post.partitions@[i].id == pre.partitions@[i].id && post.partitions@[i].len
                    == pre.partitions@[i].len && (forall|x: int|
                    0 <= x < pre.partitions@[i].cols@.len() && x != c
                        ==> part_cols_view(post.partitions@[i].cols@)[x] == part_cols_view(
                        pre.partitions@[i].cols@,
                    )[x]),
            }))
        },
    }
}

pub open spec fn restored_into(
    pre: Partition,
    post: Partition,
    name: Seq<char>,
    data: Seq<ValView>,
) -> bool {
    &&& post.id == pre.id
    &&& post.len == pre.len
    &&& post.cols@.len() == pre.cols@.len()
    &&& forall|c: int|
        0 <= c < pre.cols@.len() ==> (#[trigger] part_cols_view(post.cols@)[c]).0
            == part_cols_view(pre.cols@)[c].0 && (part_cols_view(post.cols@)[c].1
            == part_cols_view(pre.cols@)[c].1 || (part_cols_view(pre.cols@)[c].0 == name
            && part_cols_view(post.cols@)[c].1 == Some(data)))
}

/// Stores `p` under its id: replaces the entry holding that id, or
/// appends when the id is fresh.
fn put_partition(parts: &mut Vec<Partition>, p: Partition)
    ensures
        put_shape(old(parts)@, final(parts)@, p),
{
    proof {
        assert(old(parts)@.skip(0) =~= old(parts)@);
    }
    let ghost pid = p.id;
    let mut i: usize = 0;
    while i < parts.len()
        invariant
            parts@ == old(parts)@,
            pid == p.id,
            0 <= i <= parts@.len(),
            find_part_index(parts@, pid) == match find_part_index(parts@.skip(i as int), pid) {
                None => None::<int>,
                Some(x) => Some(x + i),
            },
        decreases parts@.len() - i,
    {
        let ghost rest = parts@.skip(i as int);
        proof {
            assert(rest[0] == parts@[i as int]);
            assert(rest.subrange(1, rest.len() as int) =~= parts@.skip(i + 1));
        }
        if parts[i].id == p.id {
            proof {
                assert(find_part_index(parts@, pid) == Some(i as int));
            }
            parts.set(i, p);
            return ;
        }
        i += 1;
    }
    proof {
        assert(parts@.skip(parts@.len() as int) =~= Seq::<Partition>::empty());
    }
    parts.push(p);
}

/// Storing a well-formed partition keeps the list's invariants.
proof fn lemma_put_preserves_wf(pre: Seq<Partition>, post: Seq<Partition>, p: Partition)
    requires
        part_ids_distinct(pre),
        forall|i: int| 0 <= i < pre.len() ==> partition_wf(#[trigger] pre[i]),
        partition_wf(p),
        put_shape(pre, post, p),
    ensures
        part_ids_distinct(post),
        forall|i: int| 0 <= i < post.len() ==> partition_wf(#[trigger] post[i]),
{
    lemma_find_part_index(pre, p.id);
    match find_part_index(pre, p.id) {
        Some(i) => {
            assert forall|x: int, y: int| 0 <= x < y < post.len() implies (#[trigger] post[x]).id
                != (#[trigger] post[y]).id by {
                assert(post[x].id == pre[x].id);
                assert(post[y].id == pre[y].id);
            }
        },
        None => {
            assert forall|x: int, y: int| 0 <= x < y < post.len() implies (#[trigger] post[x]).id
                != (#[trigger] post[y]).id by {
                if y == post.len() - 1 {
                    assert(pre[x].id != p.id);
                }
            }
        },
    }
}

/// An id found among the partitions stays found when the same ids are
/// held.
proof fn lemma_find_ids_pointwise(a: Seq<Partition>, b: Seq<Partition>, id: u64)
    requires
        a.len() == b.len(),
        forall|x: int| 0 <= x < a.len() ==> (#[trigger] a[x]).id == b[x].id,
    ensures
        find_part_index(a, id) == find_part_index(b, id),
    decreases a.len(),
{
    if a.len() > 0 && a[0].id != id {
        let ar = a.subrange(1, a.len() as int);
        let br = b.subrange(1, b.len() as int);
        assert forall|x: int| 0 <= x < ar.len() implies (#[trigger] ar[x]).id == br[x].id by {
            assert(a[x + 1].id == b[x + 1].id);
        }
        lemma_find_ids_pointwise(ar, br, id);
    }
}

/// An id found among the partitions stays found after an append.
proof fn lemma_find_push_stable(ps: Seq<Partition>, p: Partition, id: u64)
    requires
        find_part_index(ps, id) is Some,
    ensures
        find_part_index(ps.push(p), id) is Some,
    decreases ps.len(),
{
    if ps.len() > 0 {
        assert(ps.push(p)[0] == ps[0]);
        if ps[0].id != id {
            assert(ps.push(p).subrange(1, ps.len() as int + 1) =~= ps.subrange(
                1,
                ps.len() as int,
            ).push(p));
            lemma_find_push_stable(ps.subrange(1, ps.len() as int), p, id);
        }
    }
}

/// The row count of a partition list, capped at the machine size.
pub open spec fn parts_rows(ps: Seq<Partition>) -> nat
    decreases ps.len(),
{
    if ps.len() == 0 {
        0
    } else {
        crate::store::sat_cap(parts_rows(ps.drop_last()) as int + ps.last().len as int)
    }
}

/// The row count of a table: its partitions' rows plus the ingest
/// buffer's, capped at the machine size.
pub open spec fn table_rows(t: Table) -> nat {
    crate::store::sat_cap(parts_rows(t.partitions@) as int + t.buffer.len as int)
}

/// The length of the longest column in a column listing.
pub open spec fn max_col_len(cols: Seq<(String, Vec<RawVal>)>) -> nat
    decreases cols.len(),
{
    if cols.len() == 0 {
        0
    } else if cols.last().1@.len() >= max_col_len(cols.drop_last()) {
        cols.last().1@.len()
    } else {
        max_col_len(cols.drop_last())
    }
}

/// The row count depends only on the partitions' lengths.
proof fn lemma_parts_rows_pointwise(a: Seq<Partition>, b: Seq<Partition>)
    requires
        a.len() == b.len(),
        forall|x: int| 0 <= x < a.len() ==> (#[trigger] a[x]).len == b[x].len,
    ensures
        parts_rows(a) == parts_rows(b),
    decreases a.len(),
{
    if a.len() > 0 {
        assert forall|x: int| 0 <= x < a.drop_last().len() implies (
        #[trigger] a.drop_last()[x]).len == b.drop_last()[x].len by {
            assert(a[x].len == b[x].len);
        }
        lemma_parts_rows_pointwise(a.drop_last(), b.drop_last());
    }
}

/// The heap bytes depend only on the partitions' column views.
proof fn lemma_partitions_heap_pointwise(a: Seq<Partition>, b: Seq<Partition>)
    requires
        a.len() == b.len(),
        forall|x: int|
            0 <= x < a.len() ==> part_cols_view((#[trigger] a[x]).cols@) == part_cols_view(
                b[x].cols@,
            ),
    ensures
        partitions_heap(a) == partitions_heap(b),
    decreases a.len(),
{
    if a.len() > 0 {
        assert forall|x: int|
            0 <= x < a.drop_last().len() implies part_cols_view(
            (#[trigger] a.drop_last()[x]).cols@,
        ) == part_cols_view(b.drop_last()[x].cols@) by {
            assert(part_cols_view(a[x].cols@) == part_cols_view(b[x].cols@));
        }
        lemma_partitions_heap_pointwise(a.drop_last(), b.drop_last());
    }
}

/// The capped sums never exceed the machine size.
proof fn lemma_caps_bounded(ps: Seq<Partition>)
    ensures
        parts_rows(ps) <= usize::MAX,
        partitions_heap(ps) <= usize::MAX,
    decreases ps.len(),
{
    if ps.len() > 0 {
        lemma_caps_bounded(ps.drop_last());
    }
}

/// The heap bytes of a buffer: its columns are all resident.
pub open spec fn buffer_heap(b: Buffer) -> nat {
    cols_heap(
        col_pairs_view(b.cols@).map_values(|p: (Seq<char>, Seq<ValView>)| (p.0, Some(p.1))),
    )
}

/// The heap bytes of a table's partitions, capped at the machine size.
pub open spec fn partitions_heap(ps: Seq<Partition>) -> nat
    decreases ps.len(),
{
    if ps.len() == 0 {
        0
    } else {
        crate::store::sat_cap(
            partitions_heap(ps.drop_last()) as int + cols_heap(
                part_cols_view(ps.last().cols@),
            ) as int,
        )
    }
}

/// Every column of every partition is resident.
pub open spec fn all_resident(t: Table) -> bool {
    forall|p: int, c: int|
        0 <= p < t.partitions@.len() && 0 <= c < t.partitions@[p].cols@.len()
            ==> (#[trigger] part_cols_view(t.partitions@[p].cols@)[c]).1 is Some
}

/// The heap bytes of a table: partitions plus ingest buffer.
pub open spec fn table_heap(t: Table) -> nat {
    crate::store::sat_cap(partitions_heap(t.partitions@) as int + buffer_heap(t.buffer) as int)
}

/// The batch size a table actually uses: the metadata tables are sealed
/// almost immediately so their history is visible.
pub fn batch_size_override(batch_size: usize, tablename: &str) -> (r: usize)
    ensures
        tablename@ == "_meta_tables"@ ==> r == 1,
        tablename@ != "_meta_tables"@ && tablename@ == "_meta_queries"@ ==> r == 10,
        tablename@ != "_meta_tables"@ && tablename@ != "_meta_queries"@ ==> r == batch_size,
{
    let meta_tables: String = "_meta_tables".to_owned();
    let meta_queries: String = "_meta_queries".to_owned();
    let name: String = tablename.to_owned();
    if name == meta_tables {
        1
    } else if name == meta_queries {
        10
    } else {
        batch_size
    }
}

impl Table {
    /// A fresh table with no partitions and an empty ingest buffer.
    pub fn new(batch_size: usize, name: &str) -> (r: Table)
        ensures
            table_wf(r),
            r.name@ == name@,
            r.partitions@.len() == 0,
            r.buffer.len == 0,
            name@ == "_meta_tables"@ ==> r.batch_size == 1,
            name@ != "_meta_tables"@ && name@ == "_meta_queries"@ ==> r.batch_size == 10,
            name@ != "_meta_tables"@ && name@ != "_meta_queries"@ ==> r.batch_size == batch_size,
    {
        Table {
            name: name.to_owned(),
            batch_size: batch_size_override(batch_size, name),
            partitions: Vec::new(),
            buffer: Buffer::new(),
        }
    }

    /// The table's name.
    pub fn name(&self) -> (r: &str)
        ensures
            r@ == self.name@,
    {
        self.name.as_str()
    }

    /// Whether ingesting should seal, and if so, seals: when the buffer has
    /// reached the batch size, the whole buffer becomes one new partition
    /// stored under the id `partitions.len()`, each of its column keys is
    /// marked in the LRU, and the buffer is reset.
    fn batch_if_needed(&mut self, lru: &mut Lru)
        requires
            table_wf(*old(self)),
            crate::store::lru_wf(*old(lru)),
        ensures
            table_wf(*final(self)),
            crate::store::lru_wf(*final(lru)),
            final(self).name@ == old(self).name@,
            final(self).batch_size == old(self).batch_size,
            old(self).batch_size > 0 ==> final(self).buffer.len < final(self).batch_size,
            old(self).buffer.len < old(self).batch_size ==> *final(self) == *old(self)
                && *final(lru) == *old(lru),
            old(self).buffer.len >= old(self).batch_size ==> {
                &&& final(self).buffer.len == 0
                &&& sealed_into(
                    old(self).partitions@,
                    col_pairs_view(old(self).buffer.cols@),
                    old(self).buffer.len as nat,
                    final(self).partitions@,
                )
                &&& keys_marked(
                    *final(lru),
                    old(self).partitions@.len() as u64,
                    col_pairs_view(old(self).buffer.cols@),
                )
            },
    {
        if self.buffer.row_count() < self.batch_size {
            return ;
        }
        self.batch(lru);
    }

    /// Seals the ingest buffer into a new partition stored under the id
    /// `partitions.len()`, marking each of its column keys in the LRU.
    fn batch(&mut self, lru: &mut Lru)
        requires
            table_wf(*old(self)),
            crate::store::lru_wf(*old(lru)),
        ensures
            table_wf(*final(self)),
            crate::store::lru_wf(*final(lru)),
            final(self).name@ == old(self).name@,
            final(self).batch_size == old(self).batch_size,
            final(self).buffer.len == 0,
            sealed_into(
                old(self).partitions@,
                col_pairs_view(old(self).buffer.cols@),
                old(self).buffer.len as nat,
                final(self).partitions@,
            ),
            keys_marked(
                *final(lru),
                old(self).partitions@.len() as u64,
                col_pairs_view(old(self).buffer.cols@),
            ),
    {
        let ghost pre_parts = self.partitions@;
        let ghost bufcols = col_pairs_view(self.buffer.cols@);
        let mut buffer = Buffer::new();
        core::mem::swap(&mut buffer, &mut self.buffer);
        self.persist_batch(&buffer);
        let new_id = self.partitions.len() as u64;
        let (new_partition, keys) = Partition::from_buffer(new_id, buffer);
        put_partition(&mut self.partitions, new_partition);
        proof {
            lemma_put_preserves_wf(pre_parts, self.partitions@, new_partition);
            lemma_find_part_index(pre_parts, new_id);
            assert(sealed_into(
                pre_parts,
                bufcols,
                old(self).buffer.len as nat,
                self.partitions@,
            ));
        }
        let ghost table_after = *self;
        let mut k: usize = 0;
        while k < keys.len()
            invariant
                *self == table_after,
                crate::store::lru_wf(*lru),
                keys@.len() == bufcols.len(),
                forall|j: int|
                    0 <= j < keys@.len() ==> (#[trigger] keys@[j]).0 == new_id && keys@[j].1@
                        == bufcols[j].0,
                crate::store::distinct_cols(bufcols),
                0 <= k <= keys@.len(),
                forall|x: int|
                    0 <= x < k ==> crate::store::has_key(
                        crate::store::lru_view(lru.entries@),
                        (new_id, (#[trigger] bufcols[x]).0),
                    ),
            decreases keys@.len() - k,
        {
            let ghost pre_lru = crate::store::lru_view(lru.entries@);
            lru.put(keys[k].0, keys[k].1.clone());
            proof {
                let key_k = (new_id, bufcols[k as int].0);
                assert(crate::store::lru_view(lru.entries@).last() == key_k);
                assert(crate::store::has_key(crate::store::lru_view(lru.entries@), key_k));
                assert forall|x: int|
                    0 <= x < k + 1 implies crate::store::has_key(
                    crate::store::lru_view(lru.entries@),
                    (new_id, (#[trigger] bufcols[x]).0),
                ) by {
                    if x < k {
                        let key_x = (new_id, bufcols[x].0);
                        assert(key_x != key_k);
                        crate::store::lemma_without_key_keeps_others(pre_lru, key_k, key_x);
                        let w = crate::store::without_key(pre_lru, key_k);
                        let y = choose|y: int| 0 <= y < w.len() && (#[trigger] w[y]) == key_x;
                        assert(crate::store::lru_view(lru.entries@)[y] == key_x);
                    }
                }
            }
            k += 1;
        }
    }

    /// The hook through which a sealed batch would reach the persistent
    /// store; the in-memory engine keeps nothing besides the partition.
    fn persist_batch(&self, _batch: &Buffer) {
    }

    /// Ingests one row.  Once the buffer reaches the batch size the very
    /// same call seals it: the buffer never holds `batch_size` rows after
    /// an ingest returns, reaching the batch size stores exactly one new
    /// partition under the id `partitions.len()`, and each of its column
    /// keys is marked in the LRU.
    pub fn ingest(&mut self, row: Vec<(String, RawVal)>, lru: &mut Lru)
        requires
            table_wf(*old(self)),
            crate::store::lru_wf(*old(lru)),
            distinct_row(row_view(row@)),
            old(self).buffer.len < usize::MAX,
            old(self).batch_size > 0,
        ensures
            table_wf(*final(self)),
            crate::store::lru_wf(*final(lru)),
            ingested(*old(self), *final(self), row_view(row@)),
            final(self).buffer.len < final(self).batch_size,
            old(self).buffer.len + 1 >= old(self).batch_size ==> keys_marked(
                *final(lru),
                old(self).partitions@.len() as u64,
                extended_cols(col_pairs_view(old(self).buffer.cols@), row_view(row@))
                    + appended_cols(
                    col_pairs_view(old(self).buffer.cols@),
                    row_view(row@),
                    old(self).buffer.len as nat,
                ),
            ),
    {
        self.buffer.push_row(row);
        self.batch_if_needed(lru);
    }

    /// Ingests whole columns of untyped values: the columns are replayed
    /// as rows, each row holding one cell per column (null where a column
    /// is shorter), and the buffer is sealed if it has reached the batch
    /// size.
    pub fn ingest_heterogeneous(&mut self, columns: Vec<(String, Vec<RawVal>)>, lru: &mut Lru)
        requires
            table_wf(*old(self)),
            crate::store::lru_wf(*old(lru)),
            forall|i: int, j: int|
                0 <= i < j < columns@.len() ==> (#[trigger] columns@[i]).0@ != (
                #[trigger] columns@[j]).0@,
        ensures
            table_wf(*final(self)),
            crate::store::lru_wf(*final(lru)),
            hetero_ingested(*old(self), *final(self), columns@),
    {
        let ghost hyp = old(self).buffer.len + max_col_len(columns@) <= usize::MAX;
        let mut maxlen: usize = 0;
        let mut j: usize = 0;
        while j < columns.len()
            invariant
                0 <= j <= columns@.len(),
                maxlen == max_col_len(columns@.take(j as int)),
            decreases columns@.len() - j,
        {
            proof {
                assert(columns@.take(j + 1).drop_last() =~= columns@.take(j as int));
                assert(columns@.take(j + 1).last() == columns@[j as int]);
            }
            if columns[j].1.len() > maxlen {
                maxlen = columns[j].1.len();
            }
            j += 1;
        }
        proof {
            assert(columns@.take(columns@.len() as int) =~= columns@);
        }
        let mut i: usize = 0;
        while i < maxlen
            invariant
                table_wf(*self),
                crate::store::lru_wf(*lru),
                *lru == *old(lru),
                self.name@ == old(self).name@,
                self.batch_size == old(self).batch_size,
                self.partitions@ == old(self).partitions@,
                maxlen == max_col_len(columns@),
                hyp == (old(self).buffer.len + max_col_len(columns@) <= usize::MAX),
                forall|x: int, y: int|
                    0 <= x < y < columns@.len() ==> (#[trigger] columns@[x]).0@ != (
                    #[trigger] columns@[y]).0@,
                0 <= i <= maxlen,
                hyp ==> self.buffer.len == old(self).buffer.len + i,
            decreases maxlen - i,
        {
            let mut row: Vec<(String, RawVal)> = Vec::new();
            let mut j: usize = 0;
            while j < columns.len()
                invariant
                    forall|x: int, y: int|
                        0 <= x < y < columns@.len() ==> (#[trigger] columns@[x]).0@ != (
                        #[trigger] columns@[y]).0@,
                    0 <= j <= columns@.len(),
                    row@.len() == j,
                    forall|x: int| 0 <= x < j ==> (#[trigger] row@[x]).0@ == columns@[x].0@,
                decreases columns@.len() - j,
            {
                let v = if i < columns[j].1.len() {
                    columns[j].1[i].clone()
                } else {
                    RawVal::Null
                };
                row.push((columns[j].0.clone(), v));
                j += 1;
            }
            proof {
                assert forall|x: int, y: int|
                    0 <= x < y < row_view(row@).len() implies (#[trigger] row_view(row@)[x]).0 != (
                #[trigger] row_view(row@)[y]).0 by {
                    assert(row_view(row@)[x].0 == columns@[x].0@);
                    assert(row_view(row@)[y].0 == columns@[y].0@);
                }
            }
            if self.buffer.row_count() < usize::MAX {
                self.buffer.push_row(row);
            }
            i += 1;
        }
        let ghost pre_seal = *self;
        self.batch_if_needed(lru);
        proof {
            if old(self).batch_size > 0 && hyp {
                let filled = old(self).buffer.len + max_col_len(columns@);
                if filled >= old(self).batch_size && filled > 0 {
                    assert(sealed_into(
                        old(self).partitions@,
                        col_pairs_view(pre_seal.buffer.cols@),
                        filled as nat,
                        self.partitions@,
                    ));
                    lemma_sealed_id_found(
                        old(self).partitions@,
                        col_pairs_view(pre_seal.buffer.cols@),
                        filled as nat,
                        self.partitions@,
                        *self,
                    );
                }
            }
        }
    }

    /// Registers a partition known only from persisted metadata, replacing
    /// any partition already held under the same id.
    pub fn insert_nonresident_partition(&mut self, md: &PartitionMetadata)
        requires
            table_wf(*old(self)),
            forall|i: int, j: int|
                0 <= i < j < md.columns@.len() ==> (#[trigger] md.columns@[i])@ != (
                #[trigger] md.columns@[j])@,
        ensures
            table_wf(*final(self)),
            final(self).name@ == old(self).name@,
            final(self).batch_size == old(self).batch_size,
            final(self).buffer == old(self).buffer,
            match find_part_index(old(self).partitions@, md.id) {
                Some(i) => {
                    &&& final(self).partitions@.len() == old(self).partitions@.len()
                    &&& forall|x: int|
                        0 <= x < old(self).partitions@.len() && x != i
                            ==> final(self).partitions@[x] == old(self).partitions@[x]
                    &&& registered_from(final(self).partitions@[i], md.id, md.len, md.columns@)
                },
                None => {
                    &&& final(self).partitions@.len() == old(self).partitions@.len() + 1
                    &&& forall|x: int|
                        0 <= x < old(self).partitions@.len()
                            ==> final(self).partitions@[x] == old(self).partitions@[x]
                    &&& registered_from(
                        final(self).partitions@.last(),
                        md.id,
                        md.len,
                        md.columns@,
                    )
                },
            },
    {
        let p = Partition::nonresident(md.id, md.len, &md.columns);
        let ghost pre = self.partitions@;
        put_partition(&mut self.partitions, p);
        proof {
            lemma_put_preserves_wf(pre, self.partitions@, p);
            lemma_find_part_index(pre, md.id);
        }
    }

    /// Loads a fully built partition, replacing any partition already held
    /// under the same id.
    pub fn load_partition(&mut self, partition: Partition)
        requires
            table_wf(*old(self)),
            partition_wf(partition),
        ensures
            table_wf(*final(self)),
            final(self).name@ == old(self).name@,
            final(self).batch_size == old(self).batch_size,
            final(self).buffer == old(self).buffer,
            put_shape(old(self).partitions@, final(self).partitions@, partition),
    {
        let ghost pre = self.partitions@;
        put_partition(&mut self.partitions, partition);
        proof {
            lemma_put_preserves_wf(pre, self.partitions@, partition);
        }
    }

    /// Restores an evicted column of the partition holding `id` after a
    /// re-fault.  A column whose length does not match the partition
    /// cannot belong to it and is ignored, as is an unknown id.
    pub fn restore(&mut self, id: u64, col: &Column)
        requires
            table_wf(*old(self)),
        ensures
            table_wf(*final(self)),
            restored_table(*old(self), *final(self), id, col.name@, vals_view(col.data@)),
            restore_exact(*old(self), *final(self), id, col.name@, vals_view(col.data@)),
    {
        proof {
            assert(old(self).partitions@.skip(0) =~= old(self).partitions@);
        }
        let mut i: usize = 0;
        while i < self.partitions.len()
            invariant
                table_wf(*self),
                *self == *old(self),
                0 <= i <= self.partitions@.len(),
                find_part_index(self.partitions@, id) == match find_part_index(
                    self.partitions@.skip(i as int),
                    id,
                ) {
                    None => None::<int>,
                    Some(x) => Some(x + i),
                },
            decreases self.partitions@.len() - i,
        {
            let ghost rest = self.partitions@.skip(i as int);
            proof {
                assert(rest[0] == self.partitions@[i as int]);
                assert(rest.subrange(1, rest.len() as int) =~= self.partitions@.skip(i + 1));
            }
            if self.partitions[i].id == id {
                proof {
                    assert(find_part_index(self.partitions@, id) == Some(i as int));
                }
                if col.data.len() != self.partitions[i].len {
                    // A column of the wrong length cannot belong to this
                    // partition; the restore is ignored.
                    return ;
                }
                let ghost pre = self.partitions@[i as int];
                let part = &mut self.partitions[i];
                part.restore(col);
                proof {
                    lemma_restore_preserves_wf(pre, self.partitions@[i as int], col);
                }
                return ;
            }
            i += 1;
        }
        proof {
            assert(self.partitions@.skip(self.partitions@.len() as int) =~= Seq::<
                Partition,
            >::empty());
        }
    }

    /// Drops the resident data of the column the LRU evicted, returning
    /// the heap bytes freed.  The keyed column of the partition holding
    /// the key's id becomes non-resident, nothing else changes, and the
    /// table's heap never grows.
    pub fn evict(&mut self, key: &(u64, String)) -> (r: usize)
        requires
            table_wf(*old(self)),
        ensures
            table_wf(*final(self)),
            final(self).name@ == old(self).name@,
            final(self).batch_size == old(self).batch_size,
            final(self).buffer == old(self).buffer,
            final(self).partitions@.len() == old(self).partitions@.len(),
            table_heap(*final(self)) <= table_heap(*old(self)),
            match find_part_index(old(self).partitions@, key.0) {
                None => *final(self) == *old(self) && r == 0,
                Some(i) => (forall|x: int|
                    0 <= x < old(self).partitions@.len() && x != i
                        ==> final(self).partitions@[x] == old(self).partitions@[x])
                    && evicted_from(
                    old(self).partitions@[i],
                    final(self).partitions@[i],
                    key.1@,
                    r as nat,
                ) && (match crate::store::col_index(
                    part_cols_view(old(self).partitions@[i].cols@),
                    key.1@,
                ) {
                    None => final(self).partitions@[i] == old(self).partitions@[i] && r == 0,
                    Some(c) => part_cols_view(final(self).partitions@[i].cols@)[c] == (
                        part_cols_view(old(self).partitions@[i].cols@)[c].0,
                        None::<Seq<ValView>>,
                    ) && r == crate::store::col_contrib(
                        part_cols_view(old(self).partitions@[i].cols@)[c],
                    ) && (forall|x: int|
                        0 <= x < old(self).partitions@[i].cols@.len() && x != c
                            ==> part_cols_view(final(self).partitions@[i].cols@)[x]
                            == part_cols_view(old(self).partitions@[i].cols@)[x]),
                }),
            },
    {
        proof {
            assert(old(self).partitions@.skip(0) =~= old(self).partitions@);
        }
        let mut i: usize = 0;
        while i < self.partitions.len()
            invariant
                table_wf(*self),
                *self == *old(self),
                0 <= i <= self.partitions@.len(),
                find_part_index(self.partitions@, key.0) == match find_part_index(
                    self.partitions@.skip(i as int),
                    key.0,
                ) {
                    None => None::<int>,
                    Some(x) => Some(x + i),
                },
            decreases self.partitions@.len() - i,
        {
            let ghost rest = self.partitions@.skip(i as int);
            proof {
                assert(rest[0] == self.partitions@[i as int]);
                assert(rest.subrange(1, rest.len() as int) =~= self.partitions@.skip(i + 1));
            }
            if self.partitions[i].id == key.0 {
                proof {
                    assert(find_part_index(self.partitions@, key.0) == Some(i as int));
                }
                let ghost pre = self.partitions@;
                let ghost pre_table = *self;
                let part = &mut self.partitions[i];
                let freed = part.evict(&key.1);
                proof {
                    lemma_evict_preserves_wf(pre[i as int], self.partitions@[i as int], &key.1);
                    lemma_partitions_heap_mono(pre, self.partitions@, i as int);
                    assert(table_heap(*self) <= table_heap(pre_table));
                }
                return freed;
            }
            i += 1;
        }
        proof {
            assert(self.partitions@.skip(self.partitions@.len() as int) =~= Seq::<
                Partition,
            >::empty());
        }
        0
    }

    /// All partitions, plus, when the ingest buffer is non-empty, a
    /// transient partition with the reserved live id built from the
    /// buffer, so that reads see the live rows.
    pub fn snapshot(&self) -> (r: Vec<Partition>)
        requires
            table_wf(*self),
        ensures
            r@.len() == self.partitions@.len() + (if self.buffer.len > 0 {
                1int
            } else {
                0int
            }),
            forall|i: int|
                0 <= i < self.partitions@.len() ==> (#[trigger] r@[i]).id == self.partitions@[i].id
                    && r@[i].len == self.partitions@[i].len && part_cols_view(r@[i].cols@)
                    == part_cols_view(self.partitions@[i].cols@),
            self.buffer.len > 0 ==> r@.last().id == LIVE_PARTITION_ID && r@.last().len
                == self.buffer.len && part_cols_view(r@.last().cols@) == col_pairs_view(
                self.buffer.cols@,
            ).map_values(|p: (Seq<char>, Seq<ValView>)| (p.0, Some(p.1))),
            forall|i: int| 0 <= i < r@.len() ==> partition_wf(#[trigger] r@[i]),
            snapshot_of(*self, r@),
    {
        let mut r: Vec<Partition> = Vec::new();
        let mut i: usize = 0;
        while i < self.partitions.len()
            invariant
                table_wf(*self),
                0 <= i <= self.partitions@.len(),
                r@.len() == i,
                forall|x: int|
                    0 <= x < i ==> (#[trigger] r@[x]).id == self.partitions@[x].id && r@[x].len
                        == self.partitions@[x].len && part_cols_view(r@[x].cols@)
                        == part_cols_view(self.partitions@[x].cols@) && partition_wf(r@[x]),
            decreases self.partitions@.len() - i,
        {
            r.push(clone_partition(&self.partitions[i]));
            i += 1;
        }
        if self.buffer.row_count() > 0 {
            let live = clone_buffer(&self.buffer);
            let (p, _keys) = Partition::from_buffer(LIVE_PARTITION_ID, live);
            r.push(p);
        }
        r
    }

    /// The heap bytes of the table: partitions plus ingest buffer.
    pub fn heap_size_of_children(&self) -> (r: usize)
        ensures
            r == table_heap(*self),
    {
        let mut acc: usize = 0;
        let mut i: usize = 0;
        while i < self.partitions.len()
            invariant
                0 <= i <= self.partitions@.len(),
                acc == partitions_heap(self.partitions@.take(i as int)),
            decreases self.partitions@.len() - i,
        {
            proof {
                assert(self.partitions@.take(i + 1).drop_last() =~= self.partitions@.take(
                    i as int,
                ));
                assert(self.partitions@.take(i + 1).last() == self.partitions@[i as int]);
            }
            let h = self.partitions[i].heap_size_of_children();
            acc = if acc > usize::MAX - h {
                usize::MAX
            } else {
                acc + h
            };
            i += 1;
        }
        proof {
            assert(self.partitions@.take(self.partitions@.len() as int) =~= self.partitions@);
        }
        let bh = buffer_heap_exec(&self.buffer);
        if acc > usize::MAX - bh {
            usize::MAX
        } else {
            acc + bh
        }
    }

    /// The largest partition id held, or zero for none.
    pub fn max_partition_id(&self) -> (r: u64)
        ensures
            self.partitions@.len() == 0 ==> r == 0,
            forall|i: int| 0 <= i < self.partitions@.len() ==> (#[trigger] self.partitions@[i]).id <= r,
            self.partitions@.len() > 0 ==> exists|i: int|
                0 <= i < self.partitions@.len() && (#[trigger] self.partitions@[i]).id == r,
    {
        let mut r: u64 = 0;
        let mut seen = false;
        let mut i: usize = 0;
        while i < self.partitions.len()
            invariant
                0 <= i <= self.partitions@.len(),
                !seen ==> r == 0 && i == 0,
                forall|x: int| 0 <= x < i ==> (#[trigger] self.partitions@[x]).id <= r,
                i > 0 ==> seen,
                seen ==> exists|x: int|
                    0 <= x < i && (#[trigger] self.partitions@[x]).id == r,
            decreases self.partitions@.len() - i,
        {
            if !seen || self.partitions[i].id > r {
                r = self.partitions[i].id;
                seen = true;
            }
            i += 1;
        }
        r
    }

    /// Point-in-time statistics: row and batch counts, heap bytes, and the
    /// ingest buffer's size.
    pub fn stats(&self) -> (r: TableStats)
        requires
            table_wf(*self),
        ensures
            r.name@ == self.name@,
            r.batches == self.partitions@.len() + (if self.buffer.len > 0 {
                1int
            } else {
                0int
            }),
            r.rows == table_rows(*self),
            r.batches_bytes == table_heap(*self),
            r.buffer_length == self.buffer.len,
            r.buffer_bytes == buffer_heap(self.buffer),
            exists|snap: Seq<Partition>|
                #[trigger] snapshot_of(*self, snap) && spc_view(r.size_per_column@) == spc_parts(
                    Seq::empty(),
                    snap,
                ),
    {
        let partitions = self.snapshot();
        let mut rows: usize = 0;
        let mut bytes: usize = 0;
        let mut i: usize = 0;
        while i < partitions.len()
            invariant
                0 <= i <= partitions@.len(),
                rows == parts_rows(partitions@.take(i as int)),
                bytes == partitions_heap(partitions@.take(i as int)),
            decreases partitions@.len() - i,
        {
            proof {
                assert(partitions@.take(i + 1).drop_last() =~= partitions@.take(i as int));
                assert(partitions@.take(i + 1).last() == partitions@[i as int]);
            }
            let l = partitions[i].len;
            rows = if rows > usize::MAX - l {
                usize::MAX
            } else {
                rows + l
            };
            let h = partitions[i].heap_size_of_children();
            bytes = if bytes > usize::MAX - h {
                usize::MAX
            } else {
                bytes + h
            };
            i += 1;
        }
        proof {
            assert(partitions@.take(partitions@.len() as int) =~= partitions@);
            lemma_snapshot_totals(*self, partitions@);
        }
        TableStats {
            name: self.name.clone(),
            rows,
            batches: partitions.len(),
            batches_bytes: bytes,
            buffer_length: self.buffer.row_count(),
            buffer_bytes: buffer_heap_exec(&self.buffer),
            size_per_column: Table::size_per_column(&partitions),
        }
    }

    /// The heap bytes of each column name, summed across the partitions.
    fn size_per_column(partitions: &Vec<Partition>) -> (r: Vec<(String, usize)>)
        ensures
            spc_view(r@) == spc_parts(Seq::empty(), partitions@),
    {
        let ghost goal = spc_parts(Seq::<(Seq<char>, nat)>::empty(), partitions@);
        let mut sizes: Vec<(String, usize)> = Vec::new();
        proof {
            assert(partitions@.skip(0) =~= partitions@);
            assert(spc_view(sizes@) =~= Seq::<(Seq<char>, nat)>::empty());
        }
        let mut i: usize = 0;
        while i < partitions.len()
            invariant
                0 <= i <= partitions@.len(),
                spc_parts(spc_view(sizes@), partitions@.skip(i as int)) == goal,
            decreases partitions@.len() - i,
        {
            let p = &partitions[i];
            let ghost pcv = part_cols_view(p.cols@);
            proof {
                let rest = partitions@.skip(i as int);
                assert(rest[0] == partitions@[i as int]);
                assert(rest.subrange(1, rest.len() as int) =~= partitions@.skip(i + 1));
                assert(pcv.skip(0) =~= pcv);
            }
            let ghost after_cols = spc_cols(spc_view(sizes@), pcv);
            let mut j: usize = 0;
            while j < p.cols.len()
                invariant
                    0 <= j <= p.cols@.len(),
                    pcv == part_cols_view(p.cols@),
                    spc_cols(spc_view(sizes@), pcv.skip(j as int)) == after_cols,
                decreases p.cols@.len() - j,
            {
                proof {
                    let rest = pcv.skip(j as int);
                    assert(rest[0] == pcv[j as int]);
                    assert(rest.subrange(1, rest.len() as int) =~= pcv.skip(j + 1));
                }
                let sz: usize = match &p.cols[j].1 {
                    crate::store::ColumnData::Resident(d) => {
                        if d.len() > usize::MAX / 8 {
                            usize::MAX
                        } else {
                            8 * d.len()
                        }
                    },
                    crate::store::ColumnData::NonResident => 0,
                };
                proof {
                    assert(sz == crate::store::col_contrib(pcv[j as int]));
                }
                let ghost pre_view = spc_view(sizes@);
                let ghost cname = pcv[j as int].0;
                let mut k: usize = 0;
                while k < sizes.len() && !(sizes[k].0 == p.cols[j].0)
                    invariant
                        pcv == part_cols_view(p.cols@),
                        j < p.cols@.len(),
                        cname == pcv[j as int].0,
                        pre_view == spc_view(sizes@),
                        sizes@.len() == pre_view.len(),
                        0 <= k <= sizes@.len(),
                        forall|x: int| 0 <= x < k ==> (#[trigger] pre_view[x]).0 != cname,
                    decreases sizes@.len() - k,
                {
                    proof {
                        assert(pre_view[k as int].0 == sizes@[k as int].0@);
                    }
                    k += 1;
                }
                proof {
                    if k < sizes.len() {
                        assert(pre_view[k as int].0 == sizes@[k as int].0@);
                    }
                    lemma_spc_upsert_at(pre_view, cname, sz as nat, k as int);
                }
                if k < sizes.len() {
                    let cur = sizes[k].1;
                    let name_copy = sizes[k].0.clone();
                    let add = if cur > usize::MAX - sz {
                        usize::MAX
                    } else {
                        cur + sz
                    };
                    sizes.set(k, (name_copy, add));
                    proof {
                        assert(add as nat == crate::store::sat_cap(
                            pre_view[k as int].1 + sz as int,
                        ));
                        assert(spc_view(sizes@) =~= spc_upsert(pre_view, cname, sz as nat));
                    }
                } else {
                    sizes.push((p.cols[j].0.clone(), sz));
                    proof {
                        assert(spc_view(sizes@) =~= spc_upsert(pre_view, cname, sz as nat));
                    }
                }
                j += 1;
            }
            proof {
                assert(pcv.skip(p.cols@.len() as int).len() == 0);
                assert(spc_view(sizes@) == after_cols);
            }
            i += 1;
        }
        proof {
            assert(partitions@.skip(partitions@.len() as int).len() == 0);
        }
        sizes
    }

    /// The memory report of the table: row count, heap bytes, residency,
    /// and per-column sizes below the requested depth.
    pub fn mem_tree(&self, depth: usize) -> (r: MemTreeTable)
        requires
            table_wf(*self),
            depth > 0,
        ensures
            r.name@ == self.name@,
            r.rows == table_rows(*self),
            r.size_bytes == table_heap(*self),
            r.fully_resident == all_resident(*self),
            depth == 1 ==> r.columns@.len() == 0,
    {
        let partitions = self.snapshot();
        let mut rows: usize = 0;
        let mut resident = true;
        let mut i: usize = 0;
        while i < partitions.len()
            invariant
                0 <= i <= partitions@.len(),
                rows == parts_rows(partitions@.take(i as int)),
                resident == (forall|p: int, c: int|
                    0 <= p < i && 0 <= c < partitions@[p].cols@.len() ==> (
                    #[trigger] part_cols_view(partitions@[p].cols@)[c]).1 is Some),
            decreases partitions@.len() - i,
        {
            proof {
                assert(partitions@.take(i + 1).drop_last() =~= partitions@.take(i as int));
                assert(partitions@.take(i + 1).last() == partitions@[i as int]);
            }
            let l = partitions[i].len;
            rows = if rows > usize::MAX - l {
                usize::MAX
            } else {
                rows + l
            };
            let mut j: usize = 0;
            let mut here = true;
            while j < partitions[i].cols.len()
                invariant
                    i < partitions@.len(),
                    0 <= j <= partitions@[i as int].cols@.len(),
                    here == (forall|c: int|
                        0 <= c < j ==> (#[trigger] part_cols_view(
                            partitions@[i as int].cols@,
                        )[c]).1 is Some),
                decreases partitions@[i as int].cols@.len() - j,
            {
                if matches!(&partitions[i].cols[j].1, crate::store::ColumnData::NonResident) {
                    proof {
                        assert(!(part_cols_view(partitions@[i as int].cols@)[j as int].1
                            is Some));
                    }
                    here = false;
                } else {
                    proof {
                        assert(part_cols_view(partitions@[i as int].cols@)[j as int].1 is Some);
                    }
                }
                j += 1;
            }
            resident = resident && here;
            i += 1;
        }
        proof {
            assert(partitions@.take(partitions@.len() as int) =~= partitions@);
            lemma_snapshot_totals(*self, partitions@);
            assert(resident == all_resident(*self)) by {
                if resident {
                    assert forall|p: int, c: int|
                        0 <= p < self.partitions@.len() && 0 <= c < self.partitions@[
                        p].cols@.len() implies (#[trigger] part_cols_view(
                        self.partitions@[p].cols@,
                    )[c]).1 is Some by {
                        assert(part_cols_view(partitions@[p].cols@) == part_cols_view(
                            self.partitions@[p].cols@,
                        ));
                        assert(part_cols_view(partitions@[p].cols@).len() == partitions@[
                            p].cols@.len());
                        assert(0 <= c < partitions@[p].cols@.len());
                        assert(part_cols_view(partitions@[p].cols@)[c].1 is Some);
                    }
                } else {
                    let (p0, c0) = choose|p: int, c: int|
                        0 <= p < partitions@.len() && 0 <= c < partitions@[p].cols@.len() && !((
                        #[trigger] part_cols_view(partitions@[p].cols@)[c]).1 is Some);
                    if p0 >= self.partitions@.len() {
                        // Only the transient live partition remains, and a
                        // live column is built resident from the buffer.
                        assert(self.buffer.len > 0);
                        assert(partitions@[p0] == partitions@.last());
                        assert(part_cols_view(partitions@[p0].cols@)[c0].1 is Some);
                        assert(false);
                    }
                    assert(part_cols_view(self.partitions@[p0].cols@) == part_cols_view(
                        partitions@[p0].cols@,
                    ));
                    assert(part_cols_view(self.partitions@[p0].cols@).len()
                        == self.partitions@[p0].cols@.len());
                    assert(0 <= c0 < self.partitions@[p0].cols@.len());
                    assert(!(part_cols_view(self.partitions@[p0].cols@)[c0].1 is Some));
                }
            }
        }
        MemTreeTable {
            name: self.name.clone(),
            rows,
            fully_resident: resident,
            size_bytes: self.heap_size_of_children(),
            columns: if depth == 1 {
                Vec::new()
            } else {
                Table::size_per_column(&partitions)
            },
        }
    }

    /// The tables a persisted metadata listing describes: one table per
    /// distinct tablename, each holding a nonresident partition under the
    /// id of every record registered for it.
    pub fn load_table_metadata(batch_size: usize, metadata: &Vec<PartitionMetadata>) -> (r: Vec<
        Table,
    >)
        requires
            forall|m: int|
                0 <= m < metadata@.len() ==> forall|i: int, j: int|
                    0 <= i < j < (#[trigger] metadata@[m]).columns@.len() ==> (
                    #[trigger] metadata@[m].columns@[i])@ != (#[trigger] metadata@[m].columns@[j])@,
        ensures
            forall|i: int| 0 <= i < r@.len() ==> table_wf(#[trigger] r@[i]),
            forall|i: int, j: int| 0 <= i < j < r@.len() ==> (#[trigger] r@[i]).name@ != (
            #[trigger] r@[j]).name@,
            forall|m: int| 0 <= m < metadata@.len() ==> table_for(r@, #[trigger] metadata@[m]),
            forall|t: int| 0 <= t < r@.len() ==> named_from(metadata@, #[trigger] r@[t]),
            forall|t: int|
                0 <= t < r@.len() ==> (#[trigger] r@[t]).buffer.len == 0 && (r@[t].batch_size == 1
                    || r@[t].batch_size == 10 || r@[t].batch_size == batch_size),
            forall|t: int|
                0 <= t < r@.len() ==> (#[trigger] r@[t]).batch_size == (if r@[t].name@
                    == "_meta_tables"@ {
                    1int
                } else if r@[t].name@ == "_meta_queries"@ {
                    10int
                } else {
                    batch_size as int
                }),
            forall|t: int|
                0 <= t < r@.len() ==> partitions_registered(
                    metadata@,
                    metadata@.len() as int,
                    #[trigger] r@[t],
                ),
    {
        let mut tables: Vec<Table> = Vec::new();
        let mut m: usize = 0;
        while m < metadata.len()
            invariant
                forall|x: int|
                    0 <= x < metadata@.len() ==> forall|i: int, j: int|
                        0 <= i < j < (#[trigger] metadata@[x]).columns@.len() ==> (
                        #[trigger] metadata@[x].columns@[i])@ != (
                        #[trigger] metadata@[x].columns@[j])@,
                0 <= m <= metadata@.len(),
                forall|i: int| 0 <= i < tables@.len() ==> table_wf(#[trigger] tables@[i]),
                forall|i: int, j: int|
                    0 <= i < j < tables@.len() ==> (#[trigger] tables@[i]).name@ != (
                    #[trigger] tables@[j]).name@,
                forall|x: int| 0 <= x < m ==> table_for(tables@, #[trigger] metadata@[x]),
                forall|t: int|
                    0 <= t < tables@.len() ==> named_from(metadata@, #[trigger] tables@[t]),
                forall|t: int|
                    0 <= t < tables@.len() ==> (#[trigger] tables@[t]).buffer.len == 0 && (
                    tables@[t].batch_size == 1 || tables@[t].batch_size == 10
                        || tables@[t].batch_size == batch_size),
                forall|t: int|
                    0 <= t < tables@.len() ==> (#[trigger] tables@[t]).batch_size == (
                    if tables@[t].name@ == "_meta_tables"@ {
                        1int
                    } else if tables@[t].name@ == "_meta_queries"@ {
                        10int
                    } else {
                        batch_size as int
                    }),
                forall|t: int|
                    0 <= t < tables@.len() ==> partitions_registered(
                        metadata@,
                        m as int,
                        #[trigger] tables@[t],
                    ),
            decreases metadata@.len() - m,
        {
            let md = &metadata[m];
            let mut found: Option<usize> = None;
            let mut t: usize = 0;
            while t < tables.len() && found.is_none()
                invariant
                    0 <= t <= tables@.len(),
                    found matches Some(x) ==> 0 <= x < tables@.len() && tables@[
                        x as int].name@ == md.tablename@,
                    found is None ==> forall|x: int|
                        0 <= x < t ==> (#[trigger] tables@[x]).name@ != md.tablename@,
                decreases tables@.len() - t,
            {
                if tables[t].name == md.tablename {
                    found = Some(t);
                }
                t += 1;
            }
            let ghost pre = tables@;
            match found {
                Some(t) => {
                    let table = &mut tables[t];
                    table.insert_nonresident_partition(md);
                    proof {
                        lemma_registration_lands(pre[t as int], tables@[t as int], md);
                        assert forall|i: int, j: int|
                            0 <= i < j < tables@.len() implies (#[trigger] tables@[i]).name@ != (
                        #[trigger] tables@[j]).name@ by {
                            assert(tables@[i].name@ == pre[i].name@);
                            assert(tables@[j].name@ == pre[j].name@);
                        }
                        assert forall|x: int|
                            0 <= x < m + 1 implies table_for(
                            tables@,
                            #[trigger] metadata@[x],
                        ) by {
                            if x < m {
                                assert(table_for(pre, metadata@[x]));
                                let w = choose|w: int|
                                    0 <= w < pre.len() && (#[trigger] pre[w]).name@ == metadata@[
                                    x].tablename@ && find_part_index(
                                    pre[w].partitions@,
                                    metadata@[x].id,
                                ) is Some;
                                if w == t {
                                    lemma_registration_keeps_ids(
                                        pre[t as int],
                                        tables@[t as int],
                                        md,
                                        metadata@[x].id,
                                    );
                                }
                                assert(tables@[w].name@ == metadata@[x].tablename@);
                                assert(find_part_index(
                                    tables@[w].partitions@,
                                    metadata@[x].id,
                                ) is Some);
                            } else {
                                assert(tables@[t as int].name@ == metadata@[x].tablename@);
                            }
                        }
                        assert forall|w: int|
                            0 <= w < tables@.len() implies named_from(
                            metadata@,
                            #[trigger] tables@[w],
                        ) by {
                            assert(named_from(metadata@, pre[w]));
                            let x0 = choose|x0: int|
                                0 <= x0 < metadata@.len() && pre[w].name@ == (
                                #[trigger] metadata@[x0]).tablename@;
                            assert(tables@[w].name@ == pre[w].name@);
                            assert(tables@[w].name@ == metadata@[x0].tablename@);
                        }
                        assert forall|w: int|
                            0 <= w < tables@.len() implies partitions_registered(
                            metadata@,
                            m + 1,
                            #[trigger] tables@[w],
                        ) by {
                            if w == t as int {
                                lemma_registration_registers(
                                    metadata@,
                                    m as int,
                                    pre[w],
                                    tables@[w],
                                );
                            } else {
                                assert(tables@[w] == pre[w]);
                                lemma_registered_mono(metadata@, m as int, m + 1, tables@[w]);
                            }
                        }
                    }
                },
                None => {
                    let mut table = Table::new(batch_size, md.tablename.as_str());
                    table.insert_nonresident_partition(md);
                    tables.push(table);
                    proof {
                        assert(tables@.last().name@ == md.tablename@);
                        assert(find_part_index(
                            tables@.last().partitions@,
                            md.id,
                        ) is Some) by {
                            lemma_find_part_present(tables@.last().partitions@, md.id, 0);
                        }
                        assert forall|i: int, j: int|
                            0 <= i < j < tables@.len() implies (#[trigger] tables@[i]).name@ != (
                        #[trigger] tables@[j]).name@ by {
                            if j == tables@.len() - 1 {
                                assert(pre[i].name@ != md.tablename@);
                            }
                        }
                        assert forall|x: int|
                            0 <= x < m + 1 implies table_for(
                            tables@,
                            #[trigger] metadata@[x],
                        ) by {
                            if x < m {
                                assert(table_for(pre, metadata@[x]));
                                let w = choose|w: int|
                                    0 <= w < pre.len() && (#[trigger] pre[w]).name@ == metadata@[
                                    x].tablename@ && find_part_index(
                                    pre[w].partitions@,
                                    metadata@[x].id,
                                ) is Some;
                                assert(tables@[w] == pre[w]);
                            } else {
                                assert(tables@[tables@.len() - 1].name@ == metadata@[
                                    x].tablename@);
                            }
                        }
                        assert forall|w: int|
                            0 <= w < tables@.len() implies named_from(
                            metadata@,
                            #[trigger] tables@[w],
                        ) by {
                            if w < pre.len() {
                                assert(named_from(metadata@, pre[w]));
                                let x0 = choose|x0: int|
                                    0 <= x0 < metadata@.len() && pre[w].name@ == (
                                    #[trigger] metadata@[x0]).tablename@;
                                assert(tables@[w].name@ == metadata@[x0].tablename@);
                            } else {
                                assert(tables@[w].name@ == metadata@[m as int].tablename@);
                            }
                        }
                        assert forall|w: int|
                            0 <= w < tables@.len() implies partitions_registered(
                            metadata@,
                            m + 1,
                            #[trigger] tables@[w],
                        ) by {
                            if w < pre.len() {
                                assert(tables@[w] == pre[w]);
                                lemma_registered_mono(metadata@, m as int, m + 1, tables@[w]);
                            } else {
                                assert(tables@[w].partitions@.len() == 1);
                                assert(registered_from(
                                    tables@[w].partitions@[0],
                                    metadata@[m as int].id,
                                    metadata@[m as int].len,
                                    metadata@[m as int].columns@,
                                ));
                                assert(tables@[w].name@ == metadata@[m as int].tablename@);
                            }
                        }
                    }
                },
            }
            m += 1;
        }
        tables
    }
}

/// Registering metadata leaves the record's id present and keeps every
/// other table field.
proof fn lemma_registration_lands(pre: Table, post: Table, md: &PartitionMetadata)
    requires
        match find_part_index(pre.partitions@, md.id) {
            Some(i) => {
                &&& post.partitions@.len() == pre.partitions@.len()
                &&& forall|x: int|
                    0 <= x < pre.partitions@.len() && x != i
                        ==> post.partitions@[x] == pre.partitions@[x]
                &&& registered_from(post.partitions@[i], md.id, md.len, md.columns@)
            },
            None => {
                &&& post.partitions@.len() == pre.partitions@.len() + 1
                &&& forall|x: int|
                    0 <= x < pre.partitions@.len()
                        ==> post.partitions@[x] == pre.partitions@[x]
                &&& registered_from(post.partitions@.last(), md.id, md.len, md.columns@)
            },
        },
    ensures
        find_part_index(post.partitions@, md.id) is Some,
{
    lemma_find_part_index(pre.partitions@, md.id);
    match find_part_index(pre.partitions@, md.id) {
        Some(i) => {
            lemma_find_part_present(post.partitions@, md.id, i);
        },
        None => {
            lemma_find_part_present(post.partitions@, md.id, pre.partitions@.len() as int);
        },
    }
}

/// Registering metadata keeps every previously registered id present.
proof fn lemma_registration_keeps_ids(pre: Table, post: Table, md: &PartitionMetadata, id: u64)
    requires
        find_part_index(pre.partitions@, id) is Some,
        match find_part_index(pre.partitions@, md.id) {
            Some(i) => {
                &&& post.partitions@.len() == pre.partitions@.len()
                &&& forall|x: int|
                    0 <= x < pre.partitions@.len() && x != i
                        ==> post.partitions@[x] == pre.partitions@[x]
                &&& registered_from(post.partitions@[i], md.id, md.len, md.columns@)
            },
            None => {
                &&& post.partitions@.len() == pre.partitions@.len() + 1
                &&& forall|x: int|
                    0 <= x < pre.partitions@.len()
                        ==> post.partitions@[x] == pre.partitions@[x]
                &&& registered_from(post.partitions@.last(), md.id, md.len, md.columns@)
            },
        },
    ensures
        find_part_index(post.partitions@, id) is Some,
{
    lemma_find_part_index(pre.partitions@, md.id);
    lemma_find_part_index(pre.partitions@, id);
    let j = find_part_index(pre.partitions@, id)->Some_0;
    match find_part_index(pre.partitions@, md.id) {
        Some(i) => {
            if i == j {
                lemma_find_part_present(post.partitions@, id, i);
            } else {
                lemma_find_part_present(post.partitions@, id, j);
            }
        },
        None => {
            lemma_find_part_present(post.partitions@, id, j);
        },
    }
}

/// A snapshot's row and byte totals are the table's.
proof fn lemma_snapshot_totals(t: Table, snap: Seq<Partition>)
    requires
        table_wf(t),
        snap.len() == t.partitions@.len() + (if t.buffer.len > 0 {
            1int
        } else {
            0int
        }),
        forall|i: int|
            0 <= i < t.partitions@.len() ==> (#[trigger] snap[i]).len == t.partitions@[i].len
                && part_cols_view(snap[i].cols@) == part_cols_view(t.partitions@[i].cols@),
        t.buffer.len > 0 ==> snap.last().len == t.buffer.len && part_cols_view(
            snap.last().cols@,
        ) == col_pairs_view(t.buffer.cols@).map_values(
            |p: (Seq<char>, Seq<ValView>)| (p.0, Some(p.1)),
        ),
    ensures
        parts_rows(snap) == table_rows(t),
        partitions_heap(snap) == table_heap(t),
{
    lemma_caps_bounded(t.partitions@);
    crate::store::lemma_cols_heap_bound(
        col_pairs_view(t.buffer.cols@).map_values(
            |p: (Seq<char>, Seq<ValView>)| (p.0, Some(p.1)),
        ),
    );
    if t.buffer.len > 0 {
        assert(snap.drop_last().len() == t.partitions@.len());
        assert forall|x: int|
            0 <= x < t.partitions@.len() implies (#[trigger] snap.drop_last()[x]).len
            == t.partitions@[x].len && part_cols_view(snap.drop_last()[x].cols@)
            == part_cols_view(t.partitions@[x].cols@) by {
            assert(snap[x].len == t.partitions@[x].len);
            assert(part_cols_view(snap[x].cols@) == part_cols_view(t.partitions@[x].cols@));
        }
        lemma_parts_rows_pointwise(snap.drop_last(), t.partitions@);
        lemma_partitions_heap_pointwise(snap.drop_last(), t.partitions@);
    } else {
        lemma_parts_rows_pointwise(snap, t.partitions@);
        lemma_partitions_heap_pointwise(snap, t.partitions@);
        // An empty buffer holds only zero-length columns, so it weighs
        // nothing.
        lemma_empty_buffer_weightless(t.buffer);
    }
}

/// A buffer without rows holds only zero-length columns and weighs
/// nothing.
proof fn lemma_empty_buffer_weightless(b: Buffer)
    requires
        buffer_wf(b),
        b.len == 0,
    ensures
        buffer_heap(b) == 0,
{
    let mapped = col_pairs_view(b.cols@).map_values(
        |p: (Seq<char>, Seq<ValView>)| (p.0, Some(p.1)),
    );
    lemma_zero_cols_heap(mapped);
}

/// Columns of zero length weigh nothing.
proof fn lemma_zero_cols_heap(cols: Seq<(Seq<char>, Option<Seq<ValView>>)>)
    requires
        forall|j: int|
            0 <= j < cols.len() ==> match (#[trigger] cols[j]).1 {
                Some(d) => d.len() == 0,
                None => true,
            },
    ensures
        cols_heap(cols) == 0,
    decreases cols.len(),
{
    if cols.len() > 0 {
        assert forall|j: int|
            0 <= j < cols.drop_last().len() implies match (#[trigger] cols.drop_last()[j]).1 {
            Some(d) => d.len() == 0,
            None => true,
        } by {
            assert(match cols[j].1 {
                Some(d) => d.len() == 0,
                None => true,
            });
        }
        lemma_zero_cols_heap(cols.drop_last());
    }
}

/// A deep copy of a partition.
pub fn clone_partition(p: &Partition) -> (r: Partition)
    ensures
        r.id == p.id,
        r.len == p.len,
        part_cols_view(r.cols@) == part_cols_view(p.cols@),
        partition_wf(*p) ==> partition_wf(r),
{
    let mut cols: Vec<(String, crate::store::ColumnData)> = Vec::new();
    let mut j: usize = 0;
    while j < p.cols.len()
        invariant
            0 <= j <= p.cols@.len(),
            cols@.len() == j,
            forall|x: int|
                0 <= x < j ==> (#[trigger] cols@[x]).0@ == p.cols@[x].0@
                    && crate::store::cdata_view(cols@[x].1) == crate::store::cdata_view(
                    p.cols@[x].1,
                ),
        decreases p.cols@.len() - j,
    {
        let data = match &p.cols[j].1 {
            crate::store::ColumnData::Resident(d) => crate::store::ColumnData::Resident(
                crate::type_conversion::clone_vals(d),
            ),
            crate::store::ColumnData::NonResident => crate::store::ColumnData::NonResident,
        };
        cols.push((p.cols[j].0.clone(), data));
        j += 1;
    }
    let r = Partition { id: p.id, len: p.len, cols };
    proof {
        assert(part_cols_view(r.cols@) =~= part_cols_view(p.cols@)) by {
            assert forall|x: int| 0 <= x < r.cols@.len() implies (#[trigger] part_cols_view(
                r.cols@,
            )[x]) == part_cols_view(p.cols@)[x] by {
                assert(r.cols@[x].0@ == p.cols@[x].0@);
                assert(crate::store::cdata_view(r.cols@[x].1) == crate::store::cdata_view(
                    p.cols@[x].1,
                ));
            }
        }
        if partition_wf(*p) {
            assert forall|i: int, x: int|
                0 <= i < x < r.cols@.len() implies (#[trigger] r.cols@[i]).0@ != (
            #[trigger] r.cols@[x]).0@ by {
                assert(p.cols@[i].0@ != p.cols@[x].0@);
            }
            assert forall|x: int|
                0 <= x < r.cols@.len() implies match (#[trigger] part_cols_view(r.cols@)[x]).1 {
                Some(d) => d.len() == r.len,
                None => true,
            } by {
                assert(part_cols_view(r.cols@)[x] == part_cols_view(p.cols@)[x]);
            }
        }
    }
    r
}

/// A deep copy of a buffer.
pub fn clone_buffer(b: &Buffer) -> (r: Buffer)
    ensures
        r.len == b.len,
        col_pairs_view(r.cols@) == col_pairs_view(b.cols@),
        buffer_wf(*b) ==> buffer_wf(r),
{
    let mut cols: Vec<(String, Vec<RawVal>)> = Vec::new();
    let mut j: usize = 0;
    while j < b.cols.len()
        invariant
            0 <= j <= b.cols@.len(),
            cols@.len() == j,
            forall|x: int|
                0 <= x < j ==> (#[trigger] cols@[x]).0@ == b.cols@[x].0@ && vals_view(cols@[x].1@)
                    == vals_view(b.cols@[x].1@),
        decreases b.cols@.len() - j,
    {
        cols.push((b.cols[j].0.clone(), crate::type_conversion::clone_vals(&b.cols[j].1)));
        j += 1;
    }
    let r = Buffer { cols, len: b.len };
    proof {
        assert(col_pairs_view(r.cols@) =~= col_pairs_view(b.cols@)) by {
            assert forall|x: int| 0 <= x < r.cols@.len() implies (#[trigger] col_pairs_view(
                r.cols@,
            )[x]) == col_pairs_view(b.cols@)[x] by {
                assert(r.cols@[x].0@ == b.cols@[x].0@);
                assert(vals_view(r.cols@[x].1@) == vals_view(b.cols@[x].1@));
            }
        }
    }
    r
}

/// The heap bytes of the ingest buffer.
fn buffer_heap_exec(b: &Buffer) -> (r: usize)
    ensures
        r == buffer_heap(*b),
{
    let ghost bv = col_pairs_view(b.cols@).map_values(
        |p: (Seq<char>, Seq<ValView>)| (p.0, Some(p.1)),
    );
    let mut acc: usize = 0;
    let mut j: usize = 0;
    while j < b.cols.len()
        invariant
            bv == col_pairs_view(b.cols@).map_values(
                |p: (Seq<char>, Seq<ValView>)| (p.0, Some(p.1)),
            ),
            bv.len() == b.cols@.len(),
            0 <= j <= b.cols@.len(),
            acc == cols_heap(bv.take(j as int)),
        decreases b.cols@.len() - j,
    {
        proof {
            assert(bv.take(j + 1).drop_last() =~= bv.take(j as int));
            assert(bv.take(j + 1).last() == bv[j as int]);
            assert(bv[j as int].1 == Some(vals_view(b.cols@[j as int].1@)));
        }
        let d = &b.cols[j].1;
        let add: usize = if d.len() > usize::MAX / 8 {
            usize::MAX
        } else {
            8 * d.len()
        };
        proof {
            assert(add == crate::store::col_contrib(bv[j as int]));
        }
        acc = if acc > usize::MAX - add {
            usize::MAX
        } else {
            acc + add
        };
        j += 1;
    }
    proof {
        assert(bv.take(bv.len() as int) =~= bv);
    }
    acc
}

/// Restoring one column keeps the partition well-formed when the restored
/// data has the partition's length.
proof fn lemma_restore_preserves_wf(pre: Partition, post: Partition, col: &Column)
    requires
        partition_wf(pre),
        post.id == pre.id,
        post.len == pre.len,
        post.cols@.len() == pre.cols@.len(),
        forall|x: int|
            0 <= x < pre.cols@.len() ==> (#[trigger] part_cols_view(post.cols@)[x]).0
                == part_cols_view(pre.cols@)[x].0 && (part_cols_view(post.cols@)[x].1
                == part_cols_view(pre.cols@)[x].1 || (part_cols_view(pre.cols@)[x].0 == col.name@
                && part_cols_view(post.cols@)[x].1 == Some(vals_view(col.data@)))),
        col.data@.len() == pre.len,
    ensures
        partition_wf(post),
{
    assert forall|i: int, j: int|
        0 <= i < j < post.cols@.len() implies (#[trigger] post.cols@[i]).0@ != (
    #[trigger] post.cols@[j]).0@ by {
        assert(part_cols_view(post.cols@)[i].0 == part_cols_view(pre.cols@)[i].0);
        assert(part_cols_view(post.cols@)[j].0 == part_cols_view(pre.cols@)[j].0);
        assert(pre.cols@[i].0@ != pre.cols@[j].0@);
        assert(part_cols_view(pre.cols@)[i].0 == pre.cols@[i].0@);
        assert(part_cols_view(pre.cols@)[j].0 == pre.cols@[j].0@);
        assert(part_cols_view(post.cols@)[i].0 == post.cols@[i].0@);
        assert(part_cols_view(post.cols@)[j].0 == post.cols@[j].0@);
    }
    assert forall|j: int|
        0 <= j < post.cols@.len() implies match (#[trigger] part_cols_view(post.cols@)[j]).1 {
        Some(d) => d.len() == post.len,
        None => true,
    } by {
        assert(match part_cols_view(pre.cols@)[j].1 {
            Some(d) => d.len() == pre.len,
            None => true,
        });
    }
}

/// Evicting one column keeps the partition well-formed.
proof fn lemma_evict_preserves_wf(pre: Partition, post: Partition, name: &String)
    requires
        partition_wf(pre),
        post.id == pre.id,
        post.len == pre.len,
        post.cols@.len() == pre.cols@.len(),
        forall|x: int|
            0 <= x < pre.cols@.len() ==> (#[trigger] part_cols_view(post.cols@)[x]).0
                == part_cols_view(pre.cols@)[x].0 && (part_cols_view(post.cols@)[x].1
                == part_cols_view(pre.cols@)[x].1 || (part_cols_view(pre.cols@)[x].0 == name@
                && part_cols_view(post.cols@)[x].1 is None)),
    ensures
        partition_wf(post),
{
    assert forall|i: int, j: int|
        0 <= i < j < post.cols@.len() implies (#[trigger] post.cols@[i]).0@ != (
    #[trigger] post.cols@[j]).0@ by {
        assert(part_cols_view(post.cols@)[i].0 == part_cols_view(pre.cols@)[i].0);
        assert(part_cols_view(post.cols@)[j].0 == part_cols_view(pre.cols@)[j].0);
        assert(pre.cols@[i].0@ != pre.cols@[j].0@);
        assert(part_cols_view(pre.cols@)[i].0 == pre.cols@[i].0@);
        assert(part_cols_view(pre.cols@)[j].0 == pre.cols@[j].0@);
        assert(part_cols_view(post.cols@)[i].0 == post.cols@[i].0@);
        assert(part_cols_view(post.cols@)[j].0 == post.cols@[j].0@);
    }
    assert forall|j: int|
        0 <= j < post.cols@.len() implies match (#[trigger] part_cols_view(post.cols@)[j]).1 {
        Some(d) => d.len() == post.len,
        None => true,
    } by {
        assert(match part_cols_view(pre.cols@)[j].1 {
            Some(d) => d.len() == pre.len,
            None => true,
        });
    }
}

/// Shrinking one partition's heap never grows the total.
proof fn lemma_partitions_heap_mono(pre: Seq<Partition>, post: Seq<Partition>, i: int)
    requires
        pre.len() == post.len(),
        0 <= i < pre.len(),
        cols_heap(part_cols_view(post[i].cols@)) <= cols_heap(part_cols_view(pre[i].cols@)),
        forall|x: int| 0 <= x < pre.len() && x != i ==> post[x] == pre[x],
    ensures
        partitions_heap(post) <= partitions_heap(pre),
    decreases pre.len(),
{
    if pre.len() > 0 {
        if i == pre.len() - 1 {
            assert(pre.drop_last() =~= post.drop_last());
        } else {
            lemma_partitions_heap_mono(pre.drop_last(), post.drop_last(), i);
            assert(pre.last() == post.last());
        }
    }
}

} // verus!
