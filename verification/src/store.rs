//! The column store: the row ingest buffer, immutable partitions with
//! per-column residency, and the LRU recency structure that drives
//! eviction.

use vstd::prelude::*;

use crate::scratchpad::vals_view;
use crate::type_conversion::clone_vals;
use crate::val::{RawVal, ValView};

verus! {

/// The partition id reserved for the transient live view of the ingest
/// buffer.
pub const LIVE_PARTITION_ID: u64 = u64::MAX;

/// A pair view: column name and values.
pub open spec fn col_pairs_view(v: Seq<(String, Vec<RawVal>)>) -> Seq<(Seq<char>, Seq<ValView>)> {
    v.map_values(|p: (String, Vec<RawVal>)| (p.0@, vals_view(p.1@)))
}

/// A row view: column name and value per cell.
pub open spec fn row_view(v: Seq<(String, RawVal)>) -> Seq<(Seq<char>, ValView)> {
    v.map_values(|p: (String, RawVal)| (p.0@, p.1@))
}

/// The value the row holds for `name`, if any.
pub open spec fn row_val(row: Seq<(Seq<char>, ValView)>, name: Seq<char>) -> Option<ValView>
    decreases row.len(),
{
    if row.len() == 0 {
        None
    } else if row[0].0 == name {
        Some(row[0].1)
    } else {
        row_val(row.subrange(1, row.len() as int), name)
    }
}

/// Whether the columns hold one named `name`.
pub open spec fn has_col(cols: Seq<(Seq<char>, Seq<ValView>)>, name: Seq<char>) -> bool {
    exists|j: int| 0 <= j < cols.len() && (#[trigger] cols[j]).0 == name
}

/// No two columns share a name.
pub open spec fn distinct_cols(cols: Seq<(Seq<char>, Seq<ValView>)>) -> bool {
    forall|i: int, j: int| 0 <= i < j < cols.len() ==> cols[i].0 != cols[j].0
}

/// No two cells of a row name the same column.
pub open spec fn distinct_row(row: Seq<(Seq<char>, ValView)>) -> bool {
    forall|i: int, j: int| 0 <= i < j < row.len() ==> row[i].0 != row[j].0
}

/// A sequence of `n` nulls.
pub open spec fn nulls(n: nat) -> Seq<ValView> {
    Seq::new(n, |i: int| ValView::Null)
}

/// The columns a row adds to a buffer: one per row cell whose name is new,
/// in row order, padded with nulls for the earlier rows.
pub open spec fn appended_cols(
    old: Seq<(Seq<char>, Seq<ValView>)>,
    row: Seq<(Seq<char>, ValView)>,
    n: nat,
) -> Seq<(Seq<char>, Seq<ValView>)>
    decreases row.len(),
{
    if row.len() == 0 {
        Seq::empty()
    } else {
        let rest = appended_cols(old, row.subrange(1, row.len() as int), n);
        if has_col(old, row[0].0) {
            rest
        } else {
            seq![(row[0].0, nulls(n).push(row[0].1))] + rest
        }
    }
}

/// Every existing column extended by the row's value for it, null when the
/// row has none.
pub open spec fn extended_cols(
    old: Seq<(Seq<char>, Seq<ValView>)>,
    row: Seq<(Seq<char>, ValView)>,
) -> Seq<(Seq<char>, Seq<ValView>)> {
    Seq::new(
        old.len(),
        |j: int|
            (
                old[j].0,
                old[j].1.push(
                    match row_val(row, old[j].0) {
                        Some(v) => v,
                        None => ValView::Null,
                    },
                ),
            ),
    )
}

/// The row-oriented ingest buffer, stored column-wise: every column has one
/// cell per ingested row.
#[derive(Debug)]
pub struct Buffer {
    pub cols: Vec<(String, Vec<RawVal>)>,
    pub len: usize,
}

/// The buffer's columns share its length and have distinct names.
pub open spec fn buffer_wf(b: Buffer) -> bool {
    &&& distinct_cols(col_pairs_view(b.cols@))
    &&& forall|j: int|
        0 <= j < b.cols@.len() ==> (#[trigger] col_pairs_view(b.cols@)[j]).1.len() == b.len
}

impl Buffer {
    /// An empty buffer.
    pub fn new() -> (r: Buffer)
        ensures
            buffer_wf(r),
            r.len == 0,
            col_pairs_view(r.cols@) == Seq::<(Seq<char>, Seq<ValView>)>::empty(),
    {
        let r = Buffer { cols: Vec::new(), len: 0 };
        proof {
            assert(col_pairs_view(r.cols@) =~= Seq::<(Seq<char>, Seq<ValView>)>::empty());
        }
        r
    }

    /// The number of ingested rows.
    pub fn row_count(&self) -> (r: usize)
        ensures
            r == self.len,
    {
        self.len
    }

    /// Appends one row: every existing column gets the row's value for it
    /// or null, and each row cell naming a new column starts that column
    /// with nulls for the earlier rows.
    pub fn push_row(&mut self, row: Vec<(String, RawVal)>)
        requires
            buffer_wf(*old(self)),
            distinct_row(row_view(row@)),
            old(self).len < usize::MAX,
        ensures
            buffer_wf(*final(self)),
            final(self).len == old(self).len + 1,
            col_pairs_view(final(self).cols@) == extended_cols(
                col_pairs_view(old(self).cols@),
                row_view(row@),
            ) + appended_cols(
                col_pairs_view(old(self).cols@),
                row_view(row@),
                old(self).len as nat,
            ),
    {
        let ghost oldcols = col_pairs_view(self.cols@);
        let ghost rv = row_view(row@);
        let n = self.len;
        let old_col_count = self.cols.len();
        // Extend every existing column.
        let mut j: usize = 0;
        while j < old_col_count
            invariant
                rv == row_view(row@),
                distinct_row(rv),
                self.len == n,
                old_col_count == oldcols.len(),
                self.cols@.len() == oldcols.len(),
                0 <= j <= self.cols@.len(),
                forall|x: int|
                    j <= x < self.cols@.len() ==> (#[trigger] col_pairs_view(self.cols@)[x])
                        == oldcols[x],
                forall|x: int|
                    0 <= x < j ==> (#[trigger] col_pairs_view(self.cols@)[x]) == extended_cols(
                        oldcols,
                        rv,
                    )[x],
            decreases self.cols@.len() - j,
        {
            proof {
                assert(col_pairs_view(self.cols@)[j as int] == oldcols[j as int]);
            }
            let v = match find_row_val(&row, &self.cols[j].0) {
                Some(v) => v,
                None => RawVal::Null,
            };
            let ghost vv = v@;
            let name_copy = self.cols[j].0.clone();
            let mut data = clone_vals(&self.cols[j].1);
            data.push(v);
            let ghost pre = self.cols@;
            self.cols.set(j, (name_copy, data));
            proof {
                assert forall|x: int| 0 <= x < self.cols@.len() implies (#[trigger] col_pairs_view(
                    self.cols@,
                )[x]) == (if x == j {
                    extended_cols(oldcols, rv)[j as int]
                } else {
                    col_pairs_view(pre)[x]
                }) by {
                    if x == j {
                        assert(vals_view(self.cols@[x].1@) =~= oldcols[j as int].1.push(vv));
                    }
                }
            }
            j += 1;
        }
        // Start a column for each new name in the row.
        let ghost mid = col_pairs_view(self.cols@);
        proof {
            assert(mid =~= extended_cols(oldcols, rv));
            assert(rv.take(0) =~= Seq::<(Seq<char>, ValView)>::empty());
        }
        let mut t: usize = 0;
        while t < row.len()
            invariant
                rv == row_view(row@),
                distinct_row(rv),
                self.len == n,
                old_col_count == oldcols.len(),
                mid == extended_cols(oldcols, rv),
                self.cols@.len() >= old_col_count,
                0 <= t <= row@.len(),
                col_pairs_view(self.cols@) == mid + appended_cols(
                    oldcols,
                    rv.take(t as int),
                    n as nat,
                ),
            decreases row@.len() - t,
        {
            proof {
                assert(rv[t as int] == (row@[t as int].0@, row@[t as int].1@));
                lemma_appended_cols_take(oldcols, rv, n as nat, t as int);
            }
            let present = has_col_prefix(&self.cols, &row[t].0, old_col_count);
            proof {
                let cur = col_pairs_view(self.cols@);
                assert(cur.take(old_col_count as int) =~= mid);
                assert(present == has_col(mid, rv[t as int].0));
                assert(has_col(mid, rv[t as int].0) == has_col(oldcols, rv[t as int].0)) by {
                    if has_col(mid, rv[t as int].0) {
                        let x = choose|x: int|
                            0 <= x < mid.len() && (#[trigger] mid[x]).0 == rv[t as int].0;
                        assert(oldcols[x].0 == mid[x].0);
                    }
                    if has_col(oldcols, rv[t as int].0) {
                        let x = choose|x: int|
                            0 <= x < oldcols.len() && (#[trigger] oldcols[x]).0 == rv[t as int].0;
                        assert(mid[x].0 == oldcols[x].0);
                    }
                }
            }
            if !present {
                let mut data: Vec<RawVal> = Vec::new();
                let mut z: usize = 0;
                while z < n
                    invariant
                        0 <= z <= n,
                        data@.len() == z,
                        forall|x: int| 0 <= x < z ==> (#[trigger] data@[x])@ == ValView::Null,
                    decreases n - z,
                {
                    data.push(RawVal::Null);
                    z += 1;
                }
                data.push(row[t].1.clone());
                proof {
                    assert(vals_view(data@) =~= nulls(n as nat).push(rv[t as int].1));
                }
                self.cols.push((row[t].0.clone(), data));
                proof {
                    assert(col_pairs_view(self.cols@) =~= (mid + appended_cols(
                        oldcols,
                        rv.take(t as int),
                        n as nat,
                    )).push((rv[t as int].0, nulls(n as nat).push(rv[t as int].1))));
                    assert(appended_cols(oldcols, rv.take(t + 1), n as nat) =~= appended_cols(
                        oldcols,
                        rv.take(t as int),
                        n as nat,
                    ).push((rv[t as int].0, nulls(n as nat).push(rv[t as int].1))));
                    assert(col_pairs_view(self.cols@) =~= mid + appended_cols(
                        oldcols,
                        rv.take(t + 1),
                        n as nat,
                    ));
                }
            } else {
                proof {
                    assert(appended_cols(oldcols, rv.take(t + 1), n as nat) =~= appended_cols(
                        oldcols,
                        rv.take(t as int),
                        n as nat,
                    ));
                }
            }
            t += 1;
        }
        self.len = n + 1;
        proof {
            assert(rv.take(rv.len() as int) =~= rv);
            lemma_push_row_wf(oldcols, rv, n as nat);
        }
    }

    /// Whether the buffer holds a column named `name`.
    pub fn has_column(&self, name: &String) -> (r: bool)
        ensures
            r == has_col(col_pairs_view(self.cols@), name@),
    {
        let mut j: usize = 0;
        while j < self.cols.len()
            invariant
                0 <= j <= self.cols@.len(),
                forall|x: int| 0 <= x < j ==> (#[trigger] col_pairs_view(self.cols@)[x]).0 != name@,
            decreases self.cols@.len() - j,
        {
            if self.cols[j].0 == *name {
                proof {
                    assert(col_pairs_view(self.cols@)[j as int].0 == name@);
                }
                return true;
            }
            j += 1;
        }
        false
    }
}

/// The first value the row holds for `name`, if any.
pub fn find_row_val(row: &Vec<(String, RawVal)>, name: &String) -> (r: Option<RawVal>)
    ensures
        crate::type_conversion::opt_val_view(r) == row_val(row_view(row@), name@),
{
    proof {
        assert(row_view(row@).skip(0) =~= row_view(row@));
    }
    let mut t: usize = 0;
    while t < row.len()
        invariant
            0 <= t <= row@.len(),
            row_val(row_view(row@), name@) == row_val(row_view(row@).skip(t as int), name@),
        decreases row@.len() - t,
    {
        let ghost rest = row_view(row@).skip(t as int);
        proof {
            assert(rest[0] == row_view(row@)[t as int]);
            assert(rest.subrange(1, rest.len() as int) =~= row_view(row@).skip(t + 1));
        }
        if row[t].0 == *name {
            return Some(row[t].1.clone());
        }
        t += 1;
    }
    proof {
        assert(row_view(row@).skip(row@.len() as int) =~= Seq::<(Seq<char>, ValView)>::empty());
    }
    None
}


/// Whether one of the first `upto` columns is named `name`.
fn has_col_prefix(cols: &Vec<(String, Vec<RawVal>)>, name: &String, upto: usize) -> (r: bool)
    requires
        upto <= cols@.len(),
    ensures
        r == has_col(col_pairs_view(cols@).take(upto as int), name@),
{
    let mut j: usize = 0;
    while j < upto
        invariant
            upto <= cols@.len(),
            0 <= j <= upto,
            forall|x: int| 0 <= x < j ==> (#[trigger] col_pairs_view(cols@)[x]).0 != name@,
        decreases upto - j,
    {
        if cols[j].0 == *name {
            proof {
                assert(col_pairs_view(cols@).take(upto as int)[j as int].0 == name@);
            }
            return true;
        }
        j += 1;
    }
    proof {
        assert forall|x: int|
            0 <= x < upto implies (#[trigger] col_pairs_view(cols@).take(upto as int)[x]).0
            != name@ by {
            assert(col_pairs_view(cols@)[x].0 != name@);
        }
    }
    false
}

/// A named column of values.
#[derive(Debug)]
pub struct Column {
    pub name: String,
    pub data: Vec<RawVal>,
}

/// The stored data of one partition column: resident values, or only the
/// knowledge that the column exists and can be re-faulted from the store.
#[derive(Debug)]
pub enum ColumnData {
    Resident(Vec<RawVal>),
    NonResident,
}

/// The view of stored column data: the values when resident.
pub open spec fn cdata_view(d: ColumnData) -> Option<Seq<ValView>> {
    match d {
        ColumnData::Resident(v) => Some(vals_view(v@)),
        ColumnData::NonResident => None,
    }
}

/// The views of a partition's columns.
pub open spec fn part_cols_view(v: Seq<(String, ColumnData)>) -> Seq<
    (Seq<char>, Option<Seq<ValView>>),
> {
    v.map_values(|p: (String, ColumnData)| (p.0@, cdata_view(p.1)))
}

/// Caps an integer into the machine size range.
pub open spec fn sat_cap(x: int) -> nat {
    if x > usize::MAX {
        usize::MAX as nat
    } else if x < 0 {
        0
    } else {
        x as nat
    }
}

/// The heap bytes of one column: eight bytes per resident cell, capped.
pub open spec fn col_contrib(c: (Seq<char>, Option<Seq<ValView>>)) -> nat {
    match c.1 {
        Some(d) => sat_cap(8 * d.len() as int),
        None => 0,
    }
}

/// The heap bytes of a partition's columns, capped at the machine size.
pub open spec fn cols_heap(cols: Seq<(Seq<char>, Option<Seq<ValView>>)>) -> nat
    decreases cols.len(),
{
    if cols.len() == 0 {
        0
    } else {
        sat_cap(cols_heap(cols.drop_last()) as int + col_contrib(cols.last()) as int)
    }
}

/// An immutable partition: its id, its row count, and its columns, each
/// resident or evicted.  The heap model accounts eight bytes per resident
/// cell.
#[derive(Debug)]
pub struct Partition {
    pub id: u64,
    pub len: usize,
    pub cols: Vec<(String, ColumnData)>,
}

/// The partition's resident columns share its length and its names are
/// distinct.
/// The first column of the view with this name.
pub open spec fn col_index(
    cols: Seq<(Seq<char>, Option<Seq<ValView>>)>,
    name: Seq<char>,
) -> Option<int>
    decreases cols.len(),
{
    if cols.len() == 0 {
        None
    } else if cols[0].0 == name {
        Some(0int)
    } else {
        match col_index(cols.subrange(1, cols.len() as int), name) {
            None => None,
            Some(j) => Some(j + 1),
        }
    }
}

/// What [`col_index`] returns: the first index carrying the name, none
/// where no column carries it.
pub proof fn lemma_col_index(cols: Seq<(Seq<char>, Option<Seq<ValView>>)>, name: Seq<char>)
    ensures
        match col_index(cols, name) {
            None => forall|x: int| 0 <= x < cols.len() ==> (#[trigger] cols[x]).0 != name,
            Some(j) => 0 <= j < cols.len() && cols[j].0 == name && (forall|x: int|
                0 <= x < j ==> (#[trigger] cols[x]).0 != name),
        },
    decreases cols.len(),
{
    if cols.len() > 0 && cols[0].0 != name {
        let t = cols.subrange(1, cols.len() as int);
        lemma_col_index(t, name);
        match col_index(t, name) {
            None => {
                assert forall|x: int| 0 <= x < cols.len() implies (#[trigger] cols[x]).0
                    != name by {
                    if x > 0 {
                        assert(t[x - 1] == cols[x]);
                    }
                }
            },
            Some(j) => {
                assert(t[j] == cols[j + 1]);
                assert forall|x: int| 0 <= x < j + 1 implies (#[trigger] cols[x]).0 != name by {
                    if x > 0 {
                        assert(t[x - 1] == cols[x]);
                    }
                }
            },
        }
    }
}

pub open spec fn partition_wf(p: Partition) -> bool {
    &&& forall|i: int, j: int|
        0 <= i < j < p.cols@.len() ==> (#[trigger] p.cols@[i]).0@ != (#[trigger] p.cols@[j]).0@
    &&& forall|j: int|
        0 <= j < p.cols@.len() ==> match (#[trigger] part_cols_view(p.cols@)[j]).1 {
            Some(d) => d.len() == p.len,
            None => true,
        }
}

impl Partition {
    /// Seals a buffer into a partition: every buffer column becomes a
    /// resident column, and each column gets an LRU key `(id, name)`.
    pub fn from_buffer(id: u64, buffer: Buffer) -> (r: (Partition, Vec<(u64, String)>))
        requires
            buffer_wf(buffer),
        ensures
            partition_wf(r.0),
            r.0.id == id,
            r.0.len == buffer.len,
            part_cols_view(r.0.cols@) == col_pairs_view(buffer.cols@).map_values(
                |p: (Seq<char>, Seq<ValView>)| (p.0, Some(p.1)),
            ),
            r.1@.len() == buffer.cols@.len(),
            forall|j: int|
                0 <= j < r.1@.len() ==> (#[trigger] r.1@[j]).0 == id && r.1@[j].1@
                    == col_pairs_view(buffer.cols@)[j].0,
    {
        let ghost bv = col_pairs_view(buffer.cols@);
        let n = buffer.len;
        let mut cols: Vec<(String, ColumnData)> = Vec::new();
        let mut keys: Vec<(u64, String)> = Vec::new();
        let mut src = buffer.cols;
        let mut j: usize = 0;
        let total = src.len();
        while j < total
            invariant
                total == src@.len(),
                bv == col_pairs_view(src@),
                0 <= j <= total,
                cols@.len() == j,
                keys@.len() == j,
                forall|x: int|
                    0 <= x < j ==> (#[trigger] cols@[x]).0@ == bv[x].0 && cdata_view(cols@[x].1)
                        == Some(bv[x].1),
                forall|x: int|
                    0 <= x < j ==> (#[trigger] keys@[x]).0 == id && keys@[x].1@ == bv[x].0,
            decreases total - j,
        {
            let name = src[j].0.clone();
            let data = clone_vals(&src[j].1);
            keys.push((id, name.clone()));
            cols.push((name, ColumnData::Resident(data)));
            proof {
                assert(bv[j as int] == (src@[j as int].0@, vals_view(src@[j as int].1@)));
                assert(cols@[j as int].0@ == bv[j as int].0);
                assert(cdata_view(cols@[j as int].1) == Some(bv[j as int].1));
            }
            j += 1;
        }
        let p = Partition { id, len: n, cols };
        proof {
            assert forall|x: int| 0 <= x < p.cols@.len() implies (#[trigger] part_cols_view(
                p.cols@,
            )[x]) == (bv[x].0, Some(bv[x].1)) by {
                assert(p.cols@[x].0@ == bv[x].0);
                assert(cdata_view(p.cols@[x].1) == Some(bv[x].1));
            }
            assert(part_cols_view(p.cols@) =~= bv.map_values(
                |q: (Seq<char>, Seq<ValView>)| (q.0, Some(q.1)),
            ));
            assert forall|i: int, x: int|
                0 <= i < x < p.cols@.len() implies (#[trigger] p.cols@[i]).0@ != (
            #[trigger] p.cols@[x]).0@ by {
                assert(part_cols_view(p.cols@)[i].0 == p.cols@[i].0@);
                assert(part_cols_view(p.cols@)[x].0 == p.cols@[x].0@);
                assert(bv[i].0 != bv[x].0);
            }
        }
        (p, keys)
    }

    /// A partition known only from persisted metadata: every column is
    /// non-resident.
    pub fn nonresident(id: u64, len: usize, colnames: &Vec<String>) -> (r: Partition)
        requires
            forall|i: int, j: int|
                0 <= i < j < colnames@.len() ==> (#[trigger] colnames@[i])@ != (
                #[trigger] colnames@[j])@,
        ensures
            partition_wf(r),
            r.id == id,
            r.len == len,
            part_cols_view(r.cols@) == colnames@.map_values(
                |s: String| (s@, None::<Seq<ValView>>),
            ),
    {
        let mut cols: Vec<(String, ColumnData)> = Vec::new();
        let mut j: usize = 0;
        while j < colnames.len()
            invariant
                0 <= j <= colnames@.len(),
                cols@.len() == j,
                forall|x: int|
                    0 <= x < j ==> (#[trigger] cols@[x]).0@ == colnames@[x]@ && cdata_view(
                        cols@[x].1,
                    ) == None::<Seq<ValView>>,
            decreases colnames@.len() - j,
        {
            cols.push((colnames[j].clone(), ColumnData::NonResident));
            proof {
                assert(cols@[j as int].0@ == colnames@[j as int]@);
                assert(cdata_view(cols@[j as int].1) == None::<Seq<ValView>>);
            }
            j += 1;
        }
        let r = Partition { id, len, cols };
        proof {
            assert forall|x: int| 0 <= x < r.cols@.len() implies (#[trigger] part_cols_view(
                r.cols@,
            )[x]) == (colnames@[x]@, None::<Seq<ValView>>) by {
                assert(r.cols@[x].0@ == colnames@[x]@);
                assert(cdata_view(r.cols@[x].1) == None::<Seq<ValView>>);
            }
            assert(part_cols_view(r.cols@) =~= colnames@.map_values(
                |s: String| (s@, None::<Seq<ValView>>),
            ));
            assert forall|i: int, x: int|
                0 <= i < x < r.cols@.len() implies (#[trigger] r.cols@[i]).0@ != (
            #[trigger] r.cols@[x]).0@ by {
                assert(part_cols_view(r.cols@)[i].0 == r.cols@[i].0@);
                assert(part_cols_view(r.cols@)[x].0 == r.cols@[x].0@);
            }
        }
        r
    }

    /// The heap bytes of the partition's resident columns.
    pub fn heap_size_of_children(&self) -> (r: usize)
        ensures
            r == cols_heap(part_cols_view(self.cols@)),
    {
        let mut acc: usize = 0;
        let mut j: usize = 0;
        while j < self.cols.len()
            invariant
                0 <= j <= self.cols@.len(),
                acc == cols_heap(part_cols_view(self.cols@).take(j as int)),
            decreases self.cols@.len() - j,
        {
            proof {
                assert(part_cols_view(self.cols@).take(j + 1).drop_last() =~= part_cols_view(
                    self.cols@,
                ).take(j as int));
                assert(part_cols_view(self.cols@).take(j + 1).last() == part_cols_view(
                    self.cols@,
                )[j as int]);
            }
            let add: usize = match &self.cols[j].1 {
                ColumnData::Resident(d) => {
                    if d.len() > usize::MAX / 8 {
                        usize::MAX
                    } else {
                        8 * d.len()
                    }
                },
                ColumnData::NonResident => 0,
            };
            proof {
                assert(add == col_contrib(part_cols_view(self.cols@)[j as int]));
            }
            acc = if acc > usize::MAX - add {
                usize::MAX
            } else {
                acc + add
            };
            j += 1;
        }
        proof {
            assert(part_cols_view(self.cols@).take(self.cols@.len() as int) =~= part_cols_view(
                self.cols@,
            ));
        }
        acc
    }

    /// Drops the resident storage of the named column, keeping its
    /// metadata, and returns the heap bytes freed.  The heap size never
    /// grows by an eviction.
    pub fn evict(&mut self, name: &String) -> (r: usize)
        ensures
            cols_heap(part_cols_view(final(self).cols@)) <= cols_heap(
                part_cols_view(old(self).cols@),
            ),
            cols_heap(part_cols_view(old(self).cols@)) <= cols_heap(
                part_cols_view(final(self).cols@),
            ) + r,
            final(self).id == old(self).id,
            final(self).len == old(self).len,
            final(self).cols@.len() == old(self).cols@.len(),
            forall|x: int|
                0 <= x < old(self).cols@.len() ==> (#[trigger] part_cols_view(
                    final(self).cols@,
                )[x]).0 == part_cols_view(old(self).cols@)[x].0 && (part_cols_view(
                    final(self).cols@,
                )[x].1 == part_cols_view(old(self).cols@)[x].1 || (part_cols_view(
                    old(self).cols@,
                )[x].0 == name@ && part_cols_view(final(self).cols@)[x].1 is None)),
            partition_wf(*old(self)) ==> partition_wf(*final(self)),
            match col_index(part_cols_view(old(self).cols@), name@) {
                None => *final(self) == *old(self) && r == 0,
                Some(j) => part_cols_view(final(self).cols@)[j] == (
                    part_cols_view(old(self).cols@)[j].0,
                    None::<Seq<ValView>>,
                ) && r == col_contrib(part_cols_view(old(self).cols@)[j]) && (forall|x: int|
                    0 <= x < old(self).cols@.len() && x != j ==> part_cols_view(
                        final(self).cols@,
                    )[x] == part_cols_view(old(self).cols@)[x]),
            },
    {
        let ghost pv = part_cols_view(self.cols@);
        let mut j: usize = 0;
        while j < self.cols.len()
            invariant
                *self == *old(self),
                pv == part_cols_view(self.cols@),
                0 <= j <= self.cols@.len(),
                forall|x: int| 0 <= x < j ==> (#[trigger] pv[x]).0 != name@,
            decreases self.cols@.len() - j,
        {
            if self.cols[j].0 == *name {
                let freed: usize = match &self.cols[j].1 {
                    ColumnData::Resident(d) => {
                        if d.len() > usize::MAX / 8 {
                            usize::MAX
                        } else {
                            8 * d.len()
                        }
                    },
                    ColumnData::NonResident => 0,
                };
                let name_copy = self.cols[j].0.clone();
                let ghost pre = self.cols@;
                self.cols.set(j, (name_copy, ColumnData::NonResident));
                proof {
                    assert(freed == col_contrib(pv[j as int]));
                    assert forall|x: int|
                        0 <= x < self.cols@.len() implies (#[trigger] part_cols_view(
                        self.cols@,
                    )[x]) == (if x == j {
                        (pv[j as int].0, None::<Seq<ValView>>)
                    } else {
                        pv[x]
                    }) by {}
                    lemma_cols_heap_evict(pv, part_cols_view(self.cols@), j as int, freed as nat);
                    lemma_col_index(pv, name@);
                    assert(col_index(pv, name@) == Some(j as int)) by {
                        match col_index(pv, name@) {
                            None => {
                                assert(pv[j as int].0 == name@);
                            },
                            Some(j2) => {
                                if j2 < j {
                                    assert(pv[j2].0 != name@);
                                } else if j2 > j {
                                    assert(pv[j as int].0 != name@);
                                }
                            },
                        }
                    }
                }
                return freed;
            }
            j += 1;
        }
        proof {
            lemma_col_index(pv, name@);
            match col_index(pv, name@) {
                None => {},
                Some(j2) => {
                    assert(pv[j2].0 != name@);
                },
            }
        }
        0
    }

    /// Restores the resident storage of the named column after a re-fault.
    pub fn restore(&mut self, col: &Column)
        ensures
            final(self).id == old(self).id,
            final(self).len == old(self).len,
            final(self).cols@.len() == old(self).cols@.len(),
            forall|x: int|
                0 <= x < old(self).cols@.len() ==> (#[trigger] part_cols_view(
                    final(self).cols@,
                )[x]).0 == part_cols_view(old(self).cols@)[x].0 && (part_cols_view(
                    final(self).cols@,
                )[x].1 == part_cols_view(old(self).cols@)[x].1 || (part_cols_view(
                    old(self).cols@,
                )[x].0 == col.name@ && part_cols_view(final(self).cols@)[x].1 == Some(
                    vals_view(col.data@),
                ))),
            match col_index(part_cols_view(old(self).cols@), col.name@) {
                None => *final(self) == *old(self),
                Some(j) => part_cols_view(final(self).cols@)[j] == (
                    part_cols_view(old(self).cols@)[j].0,
                    Some(vals_view(col.data@)),
                ) && (forall|x: int|
                    0 <= x < old(self).cols@.len() && x != j ==> part_cols_view(
                        final(self).cols@,
                    )[x] == part_cols_view(old(self).cols@)[x]),
            },
    {
        let ghost pv = part_cols_view(self.cols@);
        let mut j: usize = 0;
        while j < self.cols.len()
            invariant
                *self == *old(self),
                pv == part_cols_view(self.cols@),
                0 <= j <= self.cols@.len(),
                forall|x: int| 0 <= x < j ==> (#[trigger] pv[x]).0 != col.name@,
            decreases self.cols@.len() - j,
        {
            if self.cols[j].0 == col.name {
                let name_copy = self.cols[j].0.clone();
                self.cols.set(j, (name_copy, ColumnData::Resident(clone_vals(&col.data))));
                proof {
                    assert(part_cols_view(self.cols@)[j as int].1 == Some(vals_view(col.data@)));
                    assert forall|x: int|
                        0 <= x < self.cols@.len() && x != j implies (#[trigger] part_cols_view(
                        self.cols@,
                    )[x]) == pv[x] by {}
                    lemma_col_index(pv, col.name@);
                    assert(col_index(pv, col.name@) == Some(j as int)) by {
                        match col_index(pv, col.name@) {
                            None => {
                                assert(pv[j as int].0 == col.name@);
                            },
                            Some(j2) => {
                                if j2 < j {
                                    assert(pv[j2].0 != col.name@);
                                } else if j2 > j {
                                    assert(pv[j as int].0 != col.name@);
                                }
                            },
                        }
                    }
                }
                return ;
            }
            j += 1;
        }
        proof {
            lemma_col_index(pv, col.name@);
            match col_index(pv, col.name@) {
                None => {},
                Some(j2) => {
                    assert(pv[j2].0 != col.name@);
                },
            }
        }
    }

    /// The partition's resident columns, for query execution; fails when
    /// some column has been evicted and must be re-faulted first.
    pub fn resident_columns(&self) -> (r: Option<Vec<(String, Vec<RawVal>)>>)
        ensures
            r matches Some(cols) ==> col_pairs_view(cols@).len() == part_cols_view(
                self.cols@,
            ).len() && forall|x: int|
                0 <= x < cols@.len() ==> (#[trigger] col_pairs_view(cols@)[x]).0 == part_cols_view(
                    self.cols@,
                )[x].0 && Some(col_pairs_view(cols@)[x].1) == part_cols_view(self.cols@)[x].1,
            r is None ==> exists|x: int|
                0 <= x < self.cols@.len() && (#[trigger] part_cols_view(self.cols@)[x]).1 is None,
    {
        let mut out: Vec<(String, Vec<RawVal>)> = Vec::new();
        let mut j: usize = 0;
        while j < self.cols.len()
            invariant
                0 <= j <= self.cols@.len(),
                out@.len() == j,
                forall|x: int|
                    0 <= x < j ==> (#[trigger] out@[x]).0@ == part_cols_view(self.cols@)[x].0
                        && Some(vals_view(out@[x].1@)) == part_cols_view(self.cols@)[x].1,
            decreases self.cols@.len() - j,
        {
            match &self.cols[j].1 {
                ColumnData::Resident(d) => {
                    out.push((self.cols[j].0.clone(), clone_vals(d)));
                    proof {
                        assert(out@[j as int].0@ == part_cols_view(self.cols@)[j as int].0);
                        assert(Some(vals_view(out@[j as int].1@)) == part_cols_view(self.cols@)[
                            j as int].1);
                    }
                },
                ColumnData::NonResident => {
                    proof {
                        assert(part_cols_view(self.cols@)[j as int].1 is None);
                    }
                    return None;
                },
            }
            j += 1;
        }
        proof {
            assert forall|x: int| 0 <= x < out@.len() implies (#[trigger] col_pairs_view(
                out@,
            )[x]).0 == part_cols_view(self.cols@)[x].0 && Some(col_pairs_view(out@)[x].1)
                == part_cols_view(self.cols@)[x].1 by {
                assert(out@[x].0@ == part_cols_view(self.cols@)[x].0);
                assert(Some(vals_view(out@[x].1@)) == part_cols_view(self.cols@)[x].1);
            }
        }
        Some(out)
    }
}

/// Evicting one column frees at most its contribution and never grows the
/// heap.
proof fn lemma_cols_heap_evict(
    pre: Seq<(Seq<char>, Option<Seq<ValView>>)>,
    post: Seq<(Seq<char>, Option<Seq<ValView>>)>,
    j: int,
    freed: nat,
)
    requires
        pre.len() == post.len(),
        0 <= j < pre.len(),
        freed == col_contrib(pre[j]),
        col_contrib(post[j]) == 0,
        forall|x: int| 0 <= x < pre.len() && x != j ==> post[x] == pre[x],
    ensures
        cols_heap(post) <= cols_heap(pre),
        cols_heap(pre) <= cols_heap(post) + freed,
    decreases pre.len(),
{
    lemma_cols_heap_bound(pre);
    lemma_cols_heap_bound(post);
    if j == pre.len() - 1 {
        assert(pre.drop_last() =~= post.drop_last());
    } else {
        lemma_cols_heap_evict(pre.drop_last(), post.drop_last(), j, freed);
        assert(pre.last() == post.last());
    }
}

/// A capped heap sum never exceeds the machine size.
pub proof fn lemma_cols_heap_bound(cols: Seq<(Seq<char>, Option<Seq<ValView>>)>)
    ensures
        cols_heap(cols) <= usize::MAX,
    decreases cols.len(),
{
    if cols.len() > 0 {
        lemma_cols_heap_bound(cols.drop_last());
    }
}

/// The views of LRU entries: `(partition id, column name)` keys, least
/// recently used first.
pub open spec fn lru_view(v: Seq<(u64, String)>) -> Seq<(u64, Seq<char>)> {
    v.map_values(|k: (u64, String)| (k.0, k.1@))
}

/// Whether the key occurs among the entries.
pub open spec fn has_key(s: Seq<(u64, Seq<char>)>, key: (u64, Seq<char>)) -> bool {
    exists|i: int| 0 <= i < s.len() && (#[trigger] s[i]) == key
}

/// The entries with the first occurrence of `key` removed.
pub open spec fn without_key(s: Seq<(u64, Seq<char>)>, key: (u64, Seq<char>)) -> Seq<
    (u64, Seq<char>),
>
    decreases s.len(),
{
    if s.len() == 0 {
        Seq::empty()
    } else if s[0] == key {
        s.subrange(1, s.len() as int)
    } else {
        seq![s[0]] + without_key(s.subrange(1, s.len() as int), key)
    }
}

/// No key occurs twice.
pub open spec fn distinct_keys(s: Seq<(u64, Seq<char>)>) -> bool {
    forall|i: int, j: int| 0 <= i < j < s.len() ==> s[i] != s[j]
}

/// The process-wide recency structure over `(partition id, column name)`
/// keys: the front entry is the least recently used.
#[derive(Debug)]
pub struct Lru {
    pub entries: Vec<(u64, String)>,
}

/// The LRU holds each key at most once.
pub open spec fn lru_wf(l: Lru) -> bool {
    distinct_keys(lru_view(l.entries@))
}

impl Default for Lru {
    /// An empty recency structure.
    fn default() -> (r: Lru)
        ensures
            lru_wf(r),
            lru_view(r.entries@) == Seq::<(u64, Seq<char>)>::empty(),
    {
        let r = Lru { entries: Vec::new() };
        proof {
            assert(lru_view(r.entries@) =~= Seq::<(u64, Seq<char>)>::empty());
        }
        r
    }
}

impl Lru {
    /// The index of the first entry with this key.
    fn find_key(&self, pid: u64, name: &String) -> (r: Option<usize>)
        ensures
            r matches Some(i) ==> 0 <= i < self.entries@.len() && lru_view(self.entries@)[i as int]
                == (pid, name@) && forall|x: int|
                0 <= x < i ==> (#[trigger] lru_view(self.entries@)[x]) != (pid, name@),
            r is None ==> !has_key(lru_view(self.entries@), (pid, name@)),
    {
        let mut i: usize = 0;
        while i < self.entries.len()
            invariant
                0 <= i <= self.entries@.len(),
                forall|x: int| 0 <= x < i ==> (#[trigger] lru_view(self.entries@)[x]) != (pid,
                name@),
            decreases self.entries@.len() - i,
        {
            if self.entries[i].0 == pid && self.entries[i].1 == *name {
                proof {
                    assert(lru_view(self.entries@)[i as int] == (pid, name@));
                }
                return Some(i);
            }
            proof {
                assert(lru_view(self.entries@)[i as int] != (pid, name@));
            }
            i += 1;
        }
        proof {
            assert forall|x: int| !(0 <= x < lru_view(self.entries@).len() && (#[trigger] lru_view(
                self.entries@,
            )[x]) == (pid, name@)) by {}
        }
        None
    }

    /// Marks the key most recently used, inserting it if absent.
    pub fn put(&mut self, pid: u64, name: String)
        requires
            lru_wf(*old(self)),
        ensures
            lru_wf(*final(self)),
            lru_view(final(self).entries@) == without_key(
                lru_view(old(self).entries@),
                (pid, name@),
            ).push((pid, name@)),
    {
        let ghost key = (pid, name@);
        let ghost pre = lru_view(self.entries@);
        match self.find_key(pid, &name) {
            Some(i) => {
                self.entries.remove(i);
                proof {
                    assert(lru_view(self.entries@) =~= pre.remove(i as int));
                    lemma_without_key_at(pre, key, i as int);
                }
            },
            None => {
                proof {
                    lemma_without_key_absent(pre, key);
                }
            },
        }
        let ghost mid = lru_view(self.entries@);
        self.entries.push((pid, name));
        proof {
            assert(lru_view(self.entries@) =~= mid.push(key));
            lemma_without_key_props(pre, key);
            assert forall|i: int, j: int|
                0 <= i < j < lru_view(self.entries@).len() implies lru_view(self.entries@)[i]
                != lru_view(self.entries@)[j] by {
                if j == lru_view(self.entries@).len() - 1 {
                    assert(!has_key(mid, key));
                    assert(lru_view(self.entries@)[i] == mid[i]);
                    if lru_view(self.entries@)[i] == key {
                        assert(has_key(mid, key));
                    }
                } else {
                    assert(lru_view(self.entries@)[i] == mid[i]);
                    assert(lru_view(self.entries@)[j] == mid[j]);
                }
            }
        }
    }

    /// Marks the key most recently used if it is present; an absent key is
    /// left to `put`.
    pub fn touch(&mut self, pid: u64, name: &String)
        requires
            lru_wf(*old(self)),
        ensures
            lru_wf(*final(self)),
            has_key(lru_view(old(self).entries@), (pid, name@)) ==> lru_view(
                final(self).entries@,
            ) == without_key(lru_view(old(self).entries@), (pid, name@)).push((pid, name@)),
            !has_key(lru_view(old(self).entries@), (pid, name@)) ==> *final(self) == *old(self),
    {
        let present = match self.find_key(pid, name) {
            Some(_) => true,
            None => false,
        };
        if present {
            self.put(pid, name.clone());
        }
    }

    /// Removes and returns the least recently used key, if any.
    pub fn evict(&mut self) -> (r: Option<(u64, String)>)
        requires
            lru_wf(*old(self)),
        ensures
            lru_wf(*final(self)),
            r matches Some(k) ==> lru_view(old(self).entries@).len() > 0 && (k.0, k.1@)
                == lru_view(old(self).entries@)[0] && lru_view(final(self).entries@) == lru_view(
                old(self).entries@,
            ).subrange(1, lru_view(old(self).entries@).len() as int),
            r is None ==> lru_view(old(self).entries@).len() == 0 && *final(self) == *old(self),
    {
        if self.entries.len() == 0 {
            return None;
        }
        let ghost pre = lru_view(self.entries@);
        let k = self.entries.remove(0);
        proof {
            assert(lru_view(self.entries@) =~= pre.subrange(1, pre.len() as int));
            assert forall|i: int, j: int|
                0 <= i < j < lru_view(self.entries@).len() implies lru_view(self.entries@)[i]
                != lru_view(self.entries@)[j] by {
                assert(pre[i + 1] != pre[j + 1]);
            }
        }
        Some(k)
    }

    /// The number of keys held.
    pub fn key_count(&self) -> (r: usize)
        ensures
            r == lru_view(self.entries@).len(),
    {
        self.entries.len()
    }
}

/// Removing the first occurrence removes exactly that index.
proof fn lemma_without_key_at(s: Seq<(u64, Seq<char>)>, key: (u64, Seq<char>), i: int)
    requires
        0 <= i < s.len(),
        s[i] == key,
        forall|x: int| 0 <= x < i ==> (#[trigger] s[x]) != key,
    ensures
        without_key(s, key) == s.remove(i),
    decreases i,
{
    if i == 0 {
        assert(without_key(s, key) =~= s.remove(0));
    } else {
        let rest = s.subrange(1, s.len() as int);
        assert(rest[i - 1] == key);
        assert forall|x: int| 0 <= x < i - 1 implies (#[trigger] rest[x]) != key by {
            assert(s[x + 1] != key);
        }
        lemma_without_key_at(rest, key, i - 1);
        assert(without_key(s, key) =~= s.remove(i));
    }
}

/// Removing one key leaves every other key present.
pub proof fn lemma_without_key_keeps_others(
    s: Seq<(u64, Seq<char>)>,
    key: (u64, Seq<char>),
    other: (u64, Seq<char>),
)
    requires
        other != key,
        has_key(s, other),
    ensures
        has_key(without_key(s, key), other),
    decreases s.len(),
{
    let x = choose|x: int| 0 <= x < s.len() && (#[trigger] s[x]) == other;
    let rest = s.subrange(1, s.len() as int);
    if s[0] == key {
        assert(rest[x - 1] == other);
    } else {
        if x == 0 {
            assert(without_key(s, key)[0] == other);
        } else {
            assert(rest[x - 1] == other);
            assert(has_key(rest, other));
            lemma_without_key_keeps_others(rest, key, other);
            let y = choose|y: int|
                0 <= y < without_key(rest, key).len() && (#[trigger] without_key(rest, key)[y])
                    == other;
            assert(without_key(s, key)[y + 1] == other);
        }
    }
}

/// Removing an absent key changes nothing.
proof fn lemma_without_key_absent(s: Seq<(u64, Seq<char>)>, key: (u64, Seq<char>))
    requires
        !has_key(s, key),
    ensures
        without_key(s, key) == s,
    decreases s.len(),
{
    if s.len() > 0 {
        assert(s[0] != key);
        let rest = s.subrange(1, s.len() as int);
        assert(!has_key(rest, key)) by {
            if has_key(rest, key) {
                let x = choose|x: int| 0 <= x < rest.len() && (#[trigger] rest[x]) == key;
                assert(s[x + 1] == key);
            }
        }
        lemma_without_key_absent(rest, key);
        assert(without_key(s, key) =~= s);
    }
}

/// Removing a key keeps the entries distinct and leaves the key absent.
proof fn lemma_without_key_props(s: Seq<(u64, Seq<char>)>, key: (u64, Seq<char>))
    requires
        distinct_keys(s),
    ensures
        distinct_keys(without_key(s, key)),
        !has_key(without_key(s, key), key),
    decreases s.len(),
{
    if s.len() > 0 {
        let rest = s.subrange(1, s.len() as int);
        assert(distinct_keys(rest)) by {
            assert forall|i: int, j: int| 0 <= i < j < rest.len() implies rest[i] != rest[j] by {
                assert(s[i + 1] != s[j + 1]);
            }
        }
        lemma_without_key_props(rest, key);
        if s[0] == key {
            if has_key(without_key(s, key), key) {
                let x = choose|x: int|
                    0 <= x < rest.len() && (#[trigger] without_key(s, key)[x]) == key;
                assert(rest[x] == key);
                assert(s[x + 1] == key);
                assert(s[0] == s[x + 1]);
            }
        } else {
            let w = seq![s[0]] + without_key(rest, key);
            assert(without_key(s, key) == w);
            assert forall|i: int, j: int| 0 <= i < j < w.len() implies w[i] != w[j] by {
                if i == 0 {
                    assert(w[j] == without_key(rest, key)[j - 1]);
                    lemma_without_key_sub(rest, key, j - 1);
                } else {
                    assert(w[i] == without_key(rest, key)[i - 1]);
                    assert(w[j] == without_key(rest, key)[j - 1]);
                }
            }
            if has_key(w, key) {
                let x = choose|x: int| 0 <= x < w.len() && (#[trigger] w[x]) == key;
                if x == 0 {
                } else {
                    assert(without_key(rest, key)[x - 1] == key);
                    assert(has_key(without_key(rest, key), key));
                }
            }
        }
    }
}

/// Every remaining entry was an entry before the removal.
proof fn lemma_without_key_sub(s: Seq<(u64, Seq<char>)>, key: (u64, Seq<char>), x: int)
    requires
        0 <= x < without_key(s, key).len(),
    ensures
        has_key(s, without_key(s, key)[x]),
    decreases s.len(),
{
    if s.len() > 0 {
        if s[0] == key {
            assert(without_key(s, key)[x] == s[x + 1]);
        } else {
            if x == 0 {
                assert(without_key(s, key)[0] == s[0]);
            } else {
                let rest = s.subrange(1, s.len() as int);
                lemma_without_key_sub(rest, key, x - 1);
                let v = without_key(rest, key)[x - 1];
                let y = choose|y: int| 0 <= y < rest.len() && (#[trigger] rest[y]) == v;
                assert(s[y + 1] == v);
            }
        }
    }
}

/// Appended columns carry names from the row.
proof fn lemma_appended_cols_names(
    old: Seq<(Seq<char>, Seq<ValView>)>,
    row: Seq<(Seq<char>, ValView)>,
    n: nat,
)
    ensures
        forall|x: int|
            0 <= x < appended_cols(old, row, n).len() ==> exists|y: int|
                0 <= y < row.len() && (#[trigger] appended_cols(old, row, n)[x]).0 == (
                #[trigger] row[y]).0,
    decreases row.len(),
{
    if row.len() > 0 {
        let rest = row.subrange(1, row.len() as int);
        lemma_appended_cols_names(old, rest, n);
        assert forall|x: int|
            0 <= x < appended_cols(old, row, n).len() implies exists|y: int|
            0 <= y < row.len() && (#[trigger] appended_cols(old, row, n)[x]).0 == (
            #[trigger] row[y]).0 by {
            if has_col(old, row[0].0) {
                let y0 = choose|y: int|
                    0 <= y < rest.len() && appended_cols(old, rest, n)[x].0 == (
                    #[trigger] rest[y]).0;
                assert(row[y0 + 1].0 == rest[y0].0);
                assert(appended_cols(old, row, n)[x].0 == row[y0 + 1].0);
            } else {
                if x == 0 {
                    assert(appended_cols(old, row, n)[0].0 == row[0].0);
                } else {
                    let y0 = choose|y: int|
                        0 <= y < rest.len() && appended_cols(old, rest, n)[x - 1].0 == (
                        #[trigger] rest[y]).0;
                    assert(row[y0 + 1].0 == rest[y0].0);
                    assert(appended_cols(old, row, n)[x].0 == row[y0 + 1].0);
                }
            }
        }
    }
}

/// Taking one more row cell appends that cell's column if its name is new.
proof fn lemma_appended_cols_take(
    old: Seq<(Seq<char>, Seq<ValView>)>,
    row: Seq<(Seq<char>, ValView)>,
    n: nat,
    t: int,
)
    requires
        0 <= t < row.len(),
    ensures
        appended_cols(old, row.take(t + 1), n) == appended_cols(old, row.take(t), n) + (if has_col(
            old,
            row[t].0,
        ) {
            Seq::<(Seq<char>, Seq<ValView>)>::empty()
        } else {
            seq![(row[t].0, nulls(n).push(row[t].1))]
        }),
    decreases t,
{
    if t == 0 {
        assert(row.take(0) =~= Seq::<(Seq<char>, ValView)>::empty());
        assert(row.take(1)[0] == row[0]);
        assert(row.take(1).subrange(1, 1) =~= Seq::<(Seq<char>, ValView)>::empty());
        if has_col(old, row[0].0) {
            assert(appended_cols(old, row.take(1), n) =~= appended_cols(old, row.take(0), n)
                + Seq::<(Seq<char>, Seq<ValView>)>::empty());
        } else {
            assert(appended_cols(old, row.take(1), n) =~= appended_cols(old, row.take(0), n)
                + seq![(row[0].0, nulls(n).push(row[0].1))]);
        }
    } else {
        let r1 = row.subrange(1, row.len() as int);
        lemma_appended_cols_take(old, r1, n, t - 1);
        assert(row.take(t + 1)[0] == row[0]);
        assert(row.take(t + 1).subrange(1, t + 1) =~= r1.take(t));
        assert(row.take(t)[0] == row[0]);
        assert(row.take(t).subrange(1, t) =~= r1.take(t - 1));
        assert(r1[t - 1] == row[t]);
        if has_col(old, row[0].0) {
            assert(appended_cols(old, row.take(t + 1), n) == appended_cols(old, r1.take(t), n));
            assert(appended_cols(old, row.take(t), n) == appended_cols(old, r1.take(t - 1), n));
        } else {
            let head = seq![(row[0].0, nulls(n).push(row[0].1))];
            assert(appended_cols(old, row.take(t + 1), n) == head + appended_cols(
                old,
                r1.take(t),
                n,
            ));
            assert(appended_cols(old, row.take(t), n) == head + appended_cols(
                old,
                r1.take(t - 1),
                n,
            ));
            if has_col(old, row[t].0) {
                assert(appended_cols(old, row.take(t + 1), n) =~= appended_cols(
                    old,
                    row.take(t),
                    n,
                ) + Seq::<(Seq<char>, Seq<ValView>)>::empty());
            } else {
                assert(appended_cols(old, row.take(t + 1), n) =~= appended_cols(
                    old,
                    row.take(t),
                    n,
                ) + seq![(row[t].0, nulls(n).push(row[t].1))]);
            }
        }
    }
}

/// A name is in a concatenation exactly when it is in one part.
proof fn lemma_has_col_concat(
    a: Seq<(Seq<char>, Seq<ValView>)>,
    b: Seq<(Seq<char>, Seq<ValView>)>,
    name: Seq<char>,
)
    ensures
        has_col(a + b, name) <==> has_col(a, name) || has_col(b, name),
{
    if has_col(a + b, name) {
        let x = choose|x: int| 0 <= x < (a + b).len() && (#[trigger] (a + b)[x]).0 == name;
        if x < a.len() {
            assert(a[x].0 == name);
        } else {
            assert(b[x - a.len()].0 == name);
        }
    }
    if has_col(a, name) {
        let x = choose|x: int| 0 <= x < a.len() && (#[trigger] a[x]).0 == name;
        assert((a + b)[x].0 == name);
    }
    if has_col(b, name) {
        let x = choose|x: int| 0 <= x < b.len() && (#[trigger] b[x]).0 == name;
        assert((a + b)[x + a.len()].0 == name);
    }
}

/// A pushed row keeps the buffer well-formed.
proof fn lemma_push_row_wf(
    oldcols: Seq<(Seq<char>, Seq<ValView>)>,
    row: Seq<(Seq<char>, ValView)>,
    n: nat,
)
    requires
        distinct_cols(oldcols),
        distinct_row(row),
        forall|j: int| 0 <= j < oldcols.len() ==> (#[trigger] oldcols[j]).1.len() == n,
    ensures
        distinct_cols(extended_cols(oldcols, row) + appended_cols(oldcols, row, n)),
        forall|j: int|
            0 <= j < (extended_cols(oldcols, row) + appended_cols(oldcols, row, n)).len() ==> (
            #[trigger] (extended_cols(oldcols, row) + appended_cols(oldcols, row, n))[j]).1.len()
                == n + 1,
    decreases row.len(),
{
    let ec = extended_cols(oldcols, row);
    let ac = appended_cols(oldcols, row, n);
    lemma_appended_props(oldcols, row, n);
    assert forall|i: int, j: int| 0 <= i < j < (ec + ac).len() implies (ec + ac)[i].0 != (ec
        + ac)[j].0 by {
        if j < ec.len() {
            assert(oldcols[i].0 != oldcols[j].0);
        } else if i < ec.len() {
            assert((ec + ac)[j] == ac[j - ec.len()]);
            assert(!has_col(oldcols, ac[j - ec.len()].0));
            if (ec + ac)[i].0 == (ec + ac)[j].0 {
                assert(oldcols[i].0 == ac[j - ec.len()].0);
            }
        } else {
            assert((ec + ac)[i] == ac[i - ec.len()]);
            assert((ec + ac)[j] == ac[j - ec.len()]);
        }
    }
    assert forall|j: int| 0 <= j < (ec + ac).len() implies (#[trigger] (ec + ac)[j]).1.len() == n
        + 1 by {
        if j < ec.len() {
            assert(ec[j].1.len() == oldcols[j].1.len() + 1);
        } else {
            assert((ec + ac)[j] == ac[j - ec.len()]);
        }
    }
}

/// The appended columns: distinct new names, each with `n + 1` values.
proof fn lemma_appended_props(
    old: Seq<(Seq<char>, Seq<ValView>)>,
    row: Seq<(Seq<char>, ValView)>,
    n: nat,
)
    requires
        distinct_row(row),
    ensures
        forall|x: int|
            0 <= x < appended_cols(old, row, n).len() ==> !has_col(
                old,
                (#[trigger] appended_cols(old, row, n)[x]).0,
            ) && appended_cols(old, row, n)[x].1.len() == n + 1,
        forall|x: int, y: int|
            0 <= x < y < appended_cols(old, row, n).len() ==> (#[trigger] appended_cols(
                old,
                row,
                n,
            )[x]).0 != (#[trigger] appended_cols(old, row, n)[y]).0,
    decreases row.len(),
{
    if row.len() > 0 {
        let rest = row.subrange(1, row.len() as int);
        assert(distinct_row(rest)) by {
            assert forall|i: int, j: int| 0 <= i < j < rest.len() implies (#[trigger] rest[i]).0
                != (#[trigger] rest[j]).0 by {
                assert(row[i + 1].0 != row[j + 1].0);
            }
        }
        lemma_appended_props(old, rest, n);
        if !has_col(old, row[0].0) {
            let ac = appended_cols(old, row, n);
            let acr = appended_cols(old, rest, n);
            lemma_appended_cols_names(old, rest, n);
            assert forall|x: int, y: int| 0 <= x < y < ac.len() implies (#[trigger] ac[x]).0 != (
            #[trigger] ac[y]).0 by {
                if x == 0 {
                    assert(ac[y] == acr[y - 1]);
                    let z = choose|z: int|
                        0 <= z < rest.len() && acr[y - 1].0 == (#[trigger] rest[z]).0;
                    assert(row[z + 1].0 == rest[z].0);
                    assert(row[0].0 != row[z + 1].0);
                } else {
                    assert(ac[x] == acr[x - 1]);
                    assert(ac[y] == acr[y - 1]);
                }
            }
        }
    }
}

} // verus!
