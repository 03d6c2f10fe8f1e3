//! The Lookup table: typed columns, rows of cells, one row selected by the
//! node's `index` input. Cells are stored row by row in one flat list;
//! each column takes as many cells as its port type has channels. Editing
//! the columns or rows re-lays the cells so that every kept cell keeps its
//! value.
use vstd::prelude::*;
use crate::ports::{NodeId, PortType, UiPortDef, PortView, plain_port, port_views, type_index, PORT_TYPE_COUNT, port_type_to_idx};
use crate::text::{decimal_chars, with_number};
use crate::nodes::ports1;

verus! {

/// Most columns a table can have.
pub const MAX_COLUMNS: usize = 8;

/// Fewest and most rows a table can have through row editing.
pub const MIN_ROWS: usize = 1;

pub const MAX_ROWS: usize = 64;

/// One column: its output name and port type.
pub struct LookupColumn {
    pub name: String,
    pub port_type: PortType,
}

/// Cells taken by a column of type `t`: `widths` holds the channel count
/// of each port type, by type picker position.
pub open spec fn width_of(widths: Seq<usize>, t: PortType) -> nat {
    widths[type_index(t) as int] as nat
}

/// Cells per row for the columns `cols`.
pub open spec fn stride_of(widths: Seq<usize>, cols: Seq<LookupColumn>) -> nat
    decreases cols.len(),
{
    if cols.len() == 0 {
        0
    } else {
        stride_of(widths, cols.drop_last()) + width_of(widths, cols.last().port_type)
    }
}

/// The rows of a flat cell list with `stride` cells per row.
pub open spec fn rows_of<T>(data: Seq<T>, stride: nat, n: nat) -> Seq<Seq<T>> {
    Seq::new(n, |r: int| data.subrange(r * stride, r * stride + stride))
}

/// `n` copies of `z`.
pub open spec fn zeros<T>(n: nat, z: T) -> Seq<T> {
    Seq::new(n, |i: int| z)
}

/// A row with `drop` cells at `at` replaced by `ins` cleared cells.
pub open spec fn splice_row<T>(row: Seq<T>, at: int, drop: int, ins: nat, z: T) -> Seq<T> {
    row.take(at) + zeros(ins, z) + row.skip(at + drop)
}

pub open spec fn splice_all<T>(rows: Seq<Seq<T>>, at: int, drop: int, ins: nat, z: T) -> Seq<Seq<T>> {
    rows.map_values(|row: Seq<T>| splice_row(row, at, drop, ins, z))
}

proof fn lemma_mul_step(k: int, n: int, s: int)
    requires
        0 <= k < n,
        0 <= s,
    ensures
        k * s + s <= n * s,
        (k + 1) * s == k * s + s,
        0 <= k * s,
{
    assert(k * s + s <= n * s) by (nonlinear_arith)
        requires
            0 <= k < n,
            0 <= s,
    ;
    assert((k + 1) * s == k * s + s) by (nonlinear_arith);
    assert(0 <= k * s) by (nonlinear_arith)
        requires
            0 <= k,
            0 <= s,
    ;
}

proof fn lemma_rows_push<T>(prev: Seq<T>, row: Seq<T>, s: nat, k: nat)
    requires
        prev.len() == k * s,
        row.len() == s,
    ensures
        rows_of(prev + row, s, k + 1) == rows_of(prev, s, k).push(row),
{
    let a = rows_of(prev + row, s, k + 1);
    let b = rows_of(prev, s, k).push(row);
    assert forall|r: int| 0 <= r < k + 1 implies a[r] == b[r] by {
        if r < k {
            lemma_mul_step(r, k as int, s as int);
            assert(a[r] =~= b[r]);
        } else {
            assert(a[r] =~= row);
        }
    }
    assert(a =~= b);
}

proof fn lemma_rows_extend<T>(data: Seq<T>, s: nat, n: nat, z: T)
    requires
        data.len() == n * s,
    ensures
        rows_of(data + zeros(s, z), s, n + 1) == rows_of(data, s, n).push(zeros(s, z)),
{
    lemma_rows_push(data, zeros(s, z), s, n);
}

proof fn lemma_rows_remove<T>(data: Seq<T>, s: nat, n: nat, i: int)
    requires
        data.len() == n * s,
        0 <= i < n,
    ensures
        (data.take(i * s) + data.skip(i * s + s)).len() == (n - 1) * s,
        rows_of(data.take(i * s) + data.skip(i * s + s), s, (n - 1) as nat) == rows_of(data, s, n).remove(i),
{
    lemma_mul_step(i, n as int, s as int);
    assert((n - 1) * s + s == n * s) by (nonlinear_arith);
    let d = data.take(i * s) + data.skip(i * s + s);
    let a = rows_of(d, s, (n - 1) as nat);
    let b = rows_of(data, s, n).remove(i);
    assert forall|r: int| 0 <= r < n - 1 implies a[r] == b[r] by {
        lemma_mul_step(r, (n - 1) as int, s as int);
        if r < i {
            lemma_mul_step(r, i, s as int);
            assert(a[r] =~= b[r]);
        } else {
            lemma_mul_step(r + 1, n as int, s as int);
            assert(i * s <= r * s) by (nonlinear_arith)
                requires
                    i <= r,
                    0 <= s,
            ;
            assert(a[r] =~= b[r]);
        }
    }
    assert(a =~= b);
}

proof fn lemma_stride_concat(widths: Seq<usize>, a: Seq<LookupColumn>, b: Seq<LookupColumn>)
    ensures
        stride_of(widths, a + b) == stride_of(widths, a) + stride_of(widths, b),
    decreases b.len(),
{
    if b.len() > 0 {
        lemma_stride_concat(widths, a, b.drop_last());
        assert((a + b).drop_last() =~= a + b.drop_last());
    } else {
        assert(a + b =~= a);
    }
}

proof fn lemma_stride_split(widths: Seq<usize>, cols: Seq<LookupColumn>, i: int)
    requires
        0 <= i < cols.len(),
    ensures
        stride_of(widths, cols) == stride_of(widths, cols.take(i)) + width_of(widths, cols[i].port_type)
            + stride_of(widths, cols.skip(i + 1)),
{
    let single = seq![cols[i]];
    assert(cols =~= cols.take(i) + single + cols.skip(i + 1));
    lemma_stride_concat(widths, cols.take(i) + single, cols.skip(i + 1));
    lemma_stride_concat(widths, cols.take(i), single);
    assert(single.drop_last() =~= Seq::<LookupColumn>::empty());
    assert(single.last() == cols[i]);
    assert(stride_of(widths, single) == stride_of(widths, single.drop_last()) + width_of(widths, cols[i].port_type));
}

/// A table of typed columns and rows of cells of type `T`.
pub struct LookupTable<T> {
    pub columns: Vec<LookupColumn>,
    /// Cells, row by row.
    pub data: Vec<T>,
    pub row_count: usize,
    /// Channel count of each port type, by picker position.
    pub widths: Vec<usize>,
    /// Value of a cleared cell.
    pub zero: T,
}

impl<T: Copy> LookupTable<T> {
    pub open spec fn stride(&self) -> nat {
        stride_of(self.widths@, self.columns@)
    }

    pub open spec fn offset(&self, i: int) -> nat {
        stride_of(self.widths@, self.columns@.take(i))
    }

    /// The cells, row by row.
    pub open spec fn rows(&self) -> Seq<Seq<T>> {
        rows_of(self.data@, self.stride(), self.row_count as nat)
    }

    pub open spec fn wf(&self) -> bool {
        &&& self.widths@.len() == PORT_TYPE_COUNT
        &&& self.stride() <= usize::MAX
        &&& self.data@.len() == self.row_count * self.stride()
    }

    /// A table with one untyped column "value" and the given four rows.
    pub fn new(widths: Vec<usize>, initial: Vec<T>, zero: T) -> (r: Self)
        requires
            widths@.len() == PORT_TYPE_COUNT,
            initial@.len() == 4 * width_of(widths@, PortType::Untyped),
        ensures
            r.wf(),
            r.columns@.len() == 1,
            r.columns@[0].name@ == "value"@,
            r.columns@[0].port_type == PortType::Untyped,
            r.row_count == 4,
            r.data@ == initial@,
            r.widths@ == widths@,
            r.zero == zero,
    {
        let mut columns: Vec<LookupColumn> = Vec::new();
        columns.push(LookupColumn { name: String::from_str("value"), port_type: PortType::Untyped });
        let r = LookupTable { columns, data: initial, row_count: 4, widths, zero };
        proof {
            assert(r.columns@.drop_last() =~= Seq::<LookupColumn>::empty());
            assert(stride_of(r.widths@, r.columns@.drop_last()) == 0);
            assert(r.stride() == width_of(widths@, PortType::Untyped));
            assert(widths@[type_index(PortType::Untyped) as int] <= usize::MAX);
        }
        r
    }

    fn width(&self, t: PortType) -> (r: usize)
        requires
            self.widths@.len() == PORT_TYPE_COUNT,
        ensures
            r == width_of(self.widths@, t),
    {
        self.widths[port_type_to_idx(t)]
    }

    /// Cells per row.
    pub fn row_stride(&self) -> (r: usize)
        requires
            self.widths@.len() == PORT_TYPE_COUNT,
            self.stride() <= usize::MAX,
        ensures
            r == self.stride(),
    {
        proof {
            assert(self.columns@.take(self.columns@.len() as int) =~= self.columns@);
        }
        self.column_channel_offset(self.columns.len())
    }

    /// Position, within a row, of the first cell of column `col_idx`.
    pub fn column_channel_offset(&self, col_idx: usize) -> (r: usize)
        requires
            self.widths@.len() == PORT_TYPE_COUNT,
            self.stride() <= usize::MAX,
            col_idx <= self.columns@.len(),
        ensures
            r == self.offset(col_idx as int),
    {
        let mut acc: usize = 0;
        let mut i: usize = 0;
        while i < col_idx
            invariant
                self.widths@.len() == PORT_TYPE_COUNT,
                self.stride() <= usize::MAX,
                col_idx <= self.columns@.len(),
                i <= col_idx,
                acc == stride_of(self.widths@, self.columns@.take(i as int)),
            decreases col_idx - i,
        {
            proof {
                assert(self.columns@.take(i + 1).drop_last() =~= self.columns@.take(i as int));
                lemma_stride_concat(self.widths@, self.columns@.take(i + 1), self.columns@.skip(i + 1));
                assert(self.columns@.take(i + 1) + self.columns@.skip(i + 1) =~= self.columns@);
            }
            acc = acc + self.width(self.columns[i].port_type);
            i += 1;
        }
        acc
    }

    /// Brings the cell list to `row_count` rows of the current stride:
    /// missing cells are cleared, extra cells dropped.
    pub fn fix_data_size(&mut self)
        requires
            old(self).widths@.len() == PORT_TYPE_COUNT,
            old(self).stride() <= usize::MAX,
            old(self).row_count * old(self).stride() <= usize::MAX,
        ensures
            final(self).wf(),
            final(self).columns@ == old(self).columns@,
            final(self).row_count == old(self).row_count,
            final(self).widths@ == old(self).widths@,
            final(self).zero == old(self).zero,
            ({
                let expected = old(self).row_count * old(self).stride();
                if old(self).data@.len() < expected {
                    final(self).data@ == old(self).data@ + zeros((expected - old(self).data@.len()) as nat, old(self).zero)
                } else {
                    final(self).data@ == old(self).data@.take(expected)
                }
            }),
    {
        let stride = self.row_stride();
        let expected = self.row_count * stride;
        if self.data.len() < expected {
            let ghost start = self.data@;
            while self.data.len() < expected
                invariant
                    start.len() <= self.data@.len() <= expected,
                    start == old(self).data@,
                    self.data@ == start + zeros((self.data@.len() - start.len()) as nat, self.zero),
                    self.columns@ == old(self).columns@,
                    self.row_count == old(self).row_count,
                    self.widths@ == old(self).widths@,
                    self.zero == old(self).zero,
                    expected == old(self).row_count * old(self).stride(),
                decreases expected - self.data@.len(),
            {
                let z = self.zero;
                self.data.push(z);
                proof {
                    assert(self.data@ =~= start + zeros((self.data@.len() - start.len()) as nat, self.zero));
                }
            }
        } else {
            self.data.truncate(expected);
        }
    }

    /// "+ Add Column": an untyped column "col{n}" (1-based) whose cells start
    /// cleared; nothing happens at `MAX_COLUMNS` columns.
    pub fn add_column(&mut self)
        requires
            old(self).wf(),
            old(self).columns@.len() < MAX_COLUMNS ==> {
                let ns = old(self).stride() + width_of(old(self).widths@, PortType::Untyped);
                ns <= usize::MAX && old(self).row_count * ns <= usize::MAX
            },
        ensures
            final(self).wf(),
            final(self).row_count == old(self).row_count,
            final(self).widths@ == old(self).widths@,
            final(self).zero == old(self).zero,
            old(self).columns@.len() >= MAX_COLUMNS ==> final(self).columns@ == old(self).columns@
                && final(self).data@ == old(self).data@,
            old(self).columns@.len() < MAX_COLUMNS ==> {
                let w = width_of(old(self).widths@, PortType::Untyped);
                &&& final(self).columns@.len() == old(self).columns@.len() + 1
                &&& final(self).columns@.take(old(self).columns@.len() as int) == old(self).columns@
                &&& final(self).columns@.last().name@ == "col"@ + decimal_chars(old(self).columns@.len() + 1)
                &&& final(self).columns@.last().port_type == PortType::Untyped
                &&& final(self).rows() == old(self).rows().map_values(|row: Seq<T>| row + zeros(w, old(self).zero))
            },
    {
        if self.columns.len() >= MAX_COLUMNS {
            return;
        }
        let s = self.row_stride();
        let w = self.width(PortType::Untyped);
        let name = with_number("col", self.columns.len() + 1);
        let new_data = self.splice_rows(s, 0, w);
        let ghost old_rows = self.rows();
        let ghost old_cols = self.columns@;
        let c = LookupColumn { name, port_type: PortType::Untyped };
        self.columns.push(c);
        self.data = new_data;
        proof {
            assert(self.columns@.drop_last() =~= old_cols);
            assert(self.columns@.take(old_cols.len() as int) =~= old_cols);
            assert forall|r: int| 0 <= r < old_rows.len() implies #[trigger] splice_row(old_rows[r], s as int, 0, w as nat, self.zero)
                == old_rows[r] + zeros(w as nat, self.zero) by {
                lemma_mul_step(r, self.row_count as int, s as int);
                assert(old_rows[r].len() == s);
                assert(old_rows[r].take(s as int) =~= old_rows[r]);
                assert(old_rows[r].skip(s as int) =~= Seq::<T>::empty());
                assert(splice_row(old_rows[r], s as int, 0, w as nat, self.zero) =~= old_rows[r] + zeros(w as nat, self.zero));
            }
            assert(self.rows() =~= old_rows.map_values(|row: Seq<T>| row + zeros(w as nat, self.zero)));
        }
    }

    /// Deletes column `col_idx` and its cells; the last column stays.
    pub fn remove_column(&mut self, col_idx: usize)
        requires
            old(self).wf(),
        ensures
            final(self).wf(),
            final(self).row_count == old(self).row_count,
            final(self).widths@ == old(self).widths@,
            final(self).zero == old(self).zero,
            (col_idx >= old(self).columns@.len() || old(self).columns@.len() == 1) ==> final(self).columns@
                == old(self).columns@ && final(self).data@ == old(self).data@,
            (col_idx < old(self).columns@.len() && old(self).columns@.len() != 1) ==> {
                let off = old(self).offset(col_idx as int);
                let cc = width_of(old(self).widths@, old(self).columns@[col_idx as int].port_type);
                &&& final(self).columns@ == old(self).columns@.remove(col_idx as int)
                &&& final(self).rows() == old(self).rows().map_values(
                    |row: Seq<T>| row.take(off as int) + row.skip((off + cc) as int),
                )
            },
    {
        if col_idx >= self.columns.len() || self.columns.len() == 1 {
            return;
        }
        let s = self.row_stride();
        let dl = self.data.len();
        let off = self.column_channel_offset(col_idx);
        let cc = self.width(self.columns[col_idx].port_type);
        proof {
            lemma_stride_split(self.widths@, self.columns@, col_idx as int);
            lemma_stride_concat(self.widths@, self.columns@.take(col_idx as int), self.columns@.skip(col_idx + 1));
            assert(self.columns@.remove(col_idx as int) =~= self.columns@.take(col_idx as int) + self.columns@.skip(col_idx + 1));
            assert(self.row_count * (s - cc) <= self.row_count * s) by (nonlinear_arith)
                requires
                    cc <= s,
            ;
        }
        let new_data = self.splice_rows(off, cc, 0);
        let ghost old_rows = self.rows();
        self.columns.remove(col_idx);
        self.data = new_data;
        proof {
            assert forall|r: int| 0 <= r < old_rows.len() implies #[trigger] splice_row(old_rows[r], off as int, cc as int, 0, self.zero)
                == old_rows[r].take(off as int) + old_rows[r].skip(off + cc) by {
                assert(splice_row(old_rows[r], off as int, cc as int, 0, self.zero) =~= old_rows[r].take(off as int) + old_rows[r].skip(off + cc));
            }
            assert(self.rows() =~= old_rows.map_values(|row: Seq<T>| row.take(off as int) + row.skip(off + cc)));
        }
    }

    /// Changes the type of column `col_idx`; its cells are cleared (old
    /// values mean nothing in the new type), all other cells are kept.
    pub fn set_column_type(&mut self, col_idx: usize, new_type: PortType)
        requires
            old(self).wf(),
            col_idx < old(self).columns@.len() ==> {
                let ns = old(self).stride() - width_of(old(self).widths@, old(self).columns@[col_idx as int].port_type)
                    + width_of(old(self).widths@, new_type);
                ns <= usize::MAX && old(self).row_count * ns <= usize::MAX
            },
        ensures
            final(self).wf(),
            final(self).row_count == old(self).row_count,
            final(self).widths@ == old(self).widths@,
            final(self).zero == old(self).zero,
            (col_idx >= old(self).columns@.len() || old(self).columns@[col_idx as int].port_type == new_type)
                ==> final(self).columns@ == old(self).columns@ && final(self).data@ == old(self).data@,
            (col_idx < old(self).columns@.len() && old(self).columns@[col_idx as int].port_type != new_type) ==> {
                let off = old(self).offset(col_idx as int);
                let cc = width_of(old(self).widths@, old(self).columns@[col_idx as int].port_type);
                let nc = width_of(old(self).widths@, new_type);
                &&& final(self).columns@.len() == old(self).columns@.len()
                &&& forall|i: int| 0 <= i < old(self).columns@.len() && i != col_idx ==> #[trigger] final(self).columns@[i]
                    == old(self).columns@[i]
                &&& final(self).columns@[col_idx as int].name@ == old(self).columns@[col_idx as int].name@
                &&& final(self).columns@[col_idx as int].port_type == new_type
                &&& final(self).rows() == splice_all(old(self).rows(), off as int, cc as int, nc, old(self).zero)
            },
    {
        if col_idx >= self.columns.len() {
            return;
        }
        if self.columns[col_idx].port_type == new_type {
            return;
        }
        let s = self.row_stride();
        let off = self.column_channel_offset(col_idx);
        let cc = self.width(self.columns[col_idx].port_type);
        let nc = self.width(new_type);
        proof {
            lemma_stride_split(self.widths@, self.columns@, col_idx as int);
        }
        let new_data = self.splice_rows(off, cc, nc);
        let ghost old_rows = self.rows();
        let ghost old_cols = self.columns@;
        let name = self.columns[col_idx].name.clone();
        self.columns.set(col_idx, LookupColumn { name, port_type: new_type });
        self.data = new_data;
        proof {
            lemma_stride_split(self.widths@, self.columns@, col_idx as int);
            assert(self.columns@.take(col_idx as int) =~= old_cols.take(col_idx as int));
            assert(self.columns@.skip(col_idx + 1) =~= old_cols.skip(col_idx + 1));
        }
    }

    /// "+ Add Row": a cleared row at the end; nothing happens at `MAX_ROWS`.
    pub fn add_row(&mut self)
        requires
            old(self).wf(),
            old(self).row_count < MAX_ROWS ==> (old(self).row_count + 1) * old(self).stride() <= usize::MAX,
        ensures
            final(self).wf(),
            final(self).columns@ == old(self).columns@,
            final(self).widths@ == old(self).widths@,
            final(self).zero == old(self).zero,
            old(self).row_count >= MAX_ROWS ==> final(self).row_count == old(self).row_count
                && final(self).data@ == old(self).data@,
            old(self).row_count < MAX_ROWS ==> final(self).row_count == old(self).row_count + 1
                && final(self).rows() == old(self).rows().push(zeros(old(self).stride(), old(self).zero)),
    {
        if self.row_count >= MAX_ROWS {
            return;
        }
        let ghost old_data = self.data@;
        let ghost n = self.row_count as nat;
        let ghost st = self.stride();
        self.row_count = self.row_count + 1;
        proof {
            assert((n + 1) * st == n * st + st) by (nonlinear_arith);
        }
        self.fix_data_size();
        proof {
            assert(self.data@ =~= old_data + zeros(st, self.zero));
            lemma_rows_extend(old_data, st, n, self.zero);
        }
    }

    /// Deletes row `row_idx`; the rows below move up. The last row stays.
    pub fn remove_row(&mut self, row_idx: usize)
        requires
            old(self).wf(),
        ensures
            final(self).wf(),
            final(self).columns@ == old(self).columns@,
            final(self).widths@ == old(self).widths@,
            final(self).zero == old(self).zero,
            (old(self).row_count <= MIN_ROWS || row_idx >= old(self).row_count) ==> final(self).row_count
                == old(self).row_count && final(self).data@ == old(self).data@,
            !(old(self).row_count <= MIN_ROWS || row_idx >= old(self).row_count) ==> final(self).row_count
                == old(self).row_count - 1 && final(self).rows() == old(self).rows().remove(row_idx as int),
    {
        if self.row_count <= MIN_ROWS || row_idx >= self.row_count {
            return;
        }
        let s = self.row_stride();
        let dl = self.data.len();
        let ghost old_data = self.data@;
        let ghost n = self.row_count as nat;
        proof {
            lemma_mul_step(row_idx as int, n as int, s as int);
            lemma_rows_remove(old_data, s as nat, n, row_idx as int);
        }
        let start = row_idx * s;
        let mut tail = self.data.split_off(start);
        let mut rest = tail.split_off(s);
        self.data.append(&mut rest);
        self.row_count = self.row_count - 1;
        proof {
            assert(self.data@ =~= old_data.take(start as int) + old_data.skip(start + s));
        }
    }

    /// Restores saved columns, row count and cells (each when present),
    /// then brings the cells to the saved shape.
    pub fn restore(&mut self, columns: Option<Vec<LookupColumn>>, row_count: Option<usize>, data: Option<Vec<T>>)
        requires
            old(self).widths@.len() == PORT_TYPE_COUNT,
            ({
                let cols = match columns {
                    Some(c) => c@,
                    None => old(self).columns@,
                };
                let n = match row_count {
                    Some(n) => n,
                    None => old(self).row_count,
                };
                stride_of(old(self).widths@, cols) <= usize::MAX && n * stride_of(old(self).widths@, cols)
                    <= usize::MAX
            }),
        ensures
            final(self).wf(),
            final(self).widths@ == old(self).widths@,
            final(self).zero == old(self).zero,
            final(self).columns@ == (match columns {
                Some(c) => c@,
                None => old(self).columns@,
            }),
            final(self).row_count == (match row_count {
                Some(n) => n,
                None => old(self).row_count,
            }),
            ({
                let d = match data {
                    Some(d) => d@,
                    None => old(self).data@,
                };
                let expected = final(self).row_count * final(self).stride();
                if d.len() < expected {
                    final(self).data@ == d + zeros((expected - d.len()) as nat, old(self).zero)
                } else {
                    final(self).data@ == d.take(expected)
                }
            }),
    {
        if let Some(c) = columns {
            self.columns = c;
        }
        if let Some(n) = row_count {
            self.row_count = n;
        }
        if let Some(d) = data {
            self.data = d;
        }
        self.fix_data_size();
    }

    /// Replaces, in every row, `drop` cells at `at` by `ins` cleared cells.
    fn splice_rows(&self, at: usize, drop: usize, ins: usize) -> (r: Vec<T>)
        requires
            self.wf(),
            at + drop <= self.stride(),
            self.row_count * (self.stride() - drop + ins) <= usize::MAX,
            self.stride() - drop + ins <= usize::MAX,
        ensures
            r@.len() == self.row_count * (self.stride() - drop + ins),
            rows_of(r@, (self.stride() - drop + ins) as nat, self.row_count as nat) == splice_all(
                self.rows(),
                at as int,
                drop as int,
                ins as nat,
                self.zero,
            ),
    {
        let s = self.row_stride();
        let ns = s - drop + ins;
        let n = self.row_count;
        let dl = self.data.len();
        let mut out: Vec<T> = Vec::new();
        let mut k: usize = 0;
        proof {
            assert(rows_of(out@, ns as nat, 0) =~= splice_all(self.rows(), at as int, drop as int, ins as nat, self.zero).take(0));
            assert(out@.len() == 0 * ns) by (nonlinear_arith)
                requires
                    out@.len() == 0,
            ;
        }
        while k < n
            invariant
                self.wf(),
                s == self.stride(),
                ns == s - drop + ins,
                n == self.row_count,
                dl == self.data@.len(),
                at + drop <= s,
                n * ns <= usize::MAX,
                k <= n,
                out@.len() == k * ns,
                rows_of(out@, ns as nat, k as nat) == splice_all(self.rows(), at as int, drop as int, ins as nat, self.zero).take(k as int),
            decreases n - k,
        {
            proof {
                lemma_mul_step(k as int, n as int, s as int);
                lemma_mul_step(k as int, n as int, ns as int);
            }
            let base = k * s;
            let ghost old_row = self.data@.subrange(base as int, base + s);
            proof {
                assert(self.rows()[k as int] == old_row);
            }
            let mut row: Vec<T> = Vec::new();
            let mut j: usize = 0;
            while j < at
                invariant
                    self.wf(),
                    base + s <= self.data@.len(),
                    dl == self.data@.len(),
                    old_row == self.data@.subrange(base as int, base + s),
                    at + drop <= s,
                    j <= at,
                    row@ == old_row.take(j as int),
                decreases at - j,
            {
                let x = self.data[base + j];
                row.push(x);
                proof {
                    assert(row@ =~= old_row.take(j + 1));
                }
                j += 1;
            }
            let mut z: usize = 0;
            while z < ins
                invariant
                    z <= ins,
                    row@ == old_row.take(at as int) + zeros(z as nat, self.zero),
                decreases ins - z,
            {
                let v = self.zero;
                row.push(v);
                proof {
                    assert(row@ =~= old_row.take(at as int) + zeros((z + 1) as nat, self.zero));
                }
                z += 1;
            }
            let mut j: usize = at + drop;
            while j < s
                invariant
                    self.wf(),
                    base + s <= self.data@.len(),
                    dl == self.data@.len(),
                    old_row == self.data@.subrange(base as int, base + s),
                    at + drop <= j <= s,
                    row@ == old_row.take(at as int) + zeros(ins as nat, self.zero) + old_row.subrange(
                        (at + drop) as int,
                        j as int,
                    ),
                decreases s - j,
            {
                let x = self.data[base + j];
                row.push(x);
                proof {
                    assert(row@ =~= old_row.take(at as int) + zeros(ins as nat, self.zero) + old_row.subrange(
                        (at + drop) as int,
                        j + 1,
                    ));
                }
                j += 1;
            }
            proof {
                assert(old_row.subrange((at + drop) as int, s as int) =~= old_row.skip((at + drop) as int));
                assert(row@ == splice_row(old_row, at as int, drop as int, ins as nat, self.zero));
                lemma_rows_push(out@, row@, ns as nat, k as nat);
                assert(splice_all(self.rows(), at as int, drop as int, ins as nat, self.zero).take(k + 1)
                    =~= splice_all(self.rows(), at as int, drop as int, ins as nat, self.zero).take(k as int).push(
                    row@));
            }
            let ghost prev = out@;
            out.append(&mut row);
            k += 1;
        }
        proof {
            assert(splice_all(self.rows(), at as int, drop as int, ins as nat, self.zero).take(n as int)
                =~= splice_all(self.rows(), at as int, drop as int, ins as nat, self.zero));
        }
        out
    }
}

/// Name shown for a column type in the type picker.
pub open spec fn column_type_label_spec(t: PortType) -> Seq<char> {
    match t {
        PortType::Untyped => "Untyped"@,
        PortType::Logic => "Logic"@,
        PortType::Phase => "Phase"@,
        PortType::Color => "Color"@,
        PortType::Position => "Position"@,
        PortType::Palette => "Palette"@,
        PortType::Gradient => "Gradient"@,
        _ => "—"@,
    }
}

pub fn column_type_label(t: PortType) -> (r: &'static str)
    ensures
        r@ == column_type_label_spec(t),
{
    match t {
        PortType::Untyped => "Untyped",
        PortType::Logic => "Logic",
        PortType::Phase => "Phase",
        PortType::Color => "Color",
        PortType::Position => "Position",
        PortType::Palette => "Palette",
        PortType::Gradient => "Gradient",
        _ => "—",
    }
}

/// The types a table column can take, in picker order.
pub open spec fn is_column_type(t: PortType) -> bool {
    match t {
        PortType::Any | PortType::ColorStack => false,
        _ => true,
    }
}

/// The column type a picker label names; a label that names none reads as
/// `Untyped`.
pub open spec fn column_type_from_label_spec(label: Seq<char>) -> PortType {
    if label == "Logic"@ {
        PortType::Logic
    } else if label == "Phase"@ {
        PortType::Phase
    } else if label == "Color"@ {
        PortType::Color
    } else if label == "Position"@ {
        PortType::Position
    } else if label == "Palette"@ {
        PortType::Palette
    } else if label == "Gradient"@ {
        PortType::Gradient
    } else {
        PortType::Untyped
    }
}

/// Reads a column type back from its picker label (as stored in saved
/// tables).
pub fn column_type_from_label(label: &str) -> (r: PortType)
    ensures
        r == column_type_from_label_spec(label@),
        is_column_type(r),
{
    let l = String::from_str(label);
    if l == String::from_str("Logic") {
        PortType::Logic
    } else if l == String::from_str("Phase") {
        PortType::Phase
    } else if l == String::from_str("Color") {
        PortType::Color
    } else if l == String::from_str("Position") {
        PortType::Position
    } else if l == String::from_str("Palette") {
        PortType::Palette
    } else if l == String::from_str("Gradient") {
        PortType::Gradient
    } else {
        PortType::Untyped
    }
}

/// Reading a column type's label back gives the type: the labels of the
/// column types are all different.
pub proof fn lemma_column_label_roundtrip(t: PortType)
    requires
        is_column_type(t),
    ensures
        column_type_from_label_spec(column_type_label_spec(t)) == t,
{
    reveal_strlit("Untyped");
    reveal_strlit("Logic");
    reveal_strlit("Phase");
    reveal_strlit("Color");
    reveal_strlit("Position");
    reveal_strlit("Palette");
    reveal_strlit("Gradient");
    match t {
        PortType::Untyped => {
            assert("Untyped"@[0] != "Logic"@[0]);
            assert("Untyped"@[0] != "Phase"@[0]);
            assert("Untyped"@[0] != "Color"@[0]);
            assert("Untyped"@[0] != "Position"@[0]);
            assert("Untyped"@[0] != "Palette"@[0]);
            assert("Untyped"@[0] != "Gradient"@[0]);
        },
        PortType::Logic => {
        },
        PortType::Phase => {
            assert("Phase"@[0] != "Logic"@[0]);
        },
        PortType::Color => {
            assert("Color"@[0] != "Logic"@[0]);
            assert("Color"@[0] != "Phase"@[0]);
        },
        PortType::Position => {
            assert("Position"@[0] != "Logic"@[0]);
            assert("Position"@[1] != "Phase"@[1]);
            assert("Position"@[0] != "Color"@[0]);
        },
        PortType::Palette => {
            assert("Palette"@[0] != "Logic"@[0]);
            assert("Palette"@[1] != "Phase"@[1]);
            assert("Palette"@[0] != "Color"@[0]);
            assert("Palette"@[1] != "Position"@[1]);
        },
        PortType::Gradient => {
            assert("Gradient"@[0] != "Logic"@[0]);
            assert("Gradient"@[0] != "Phase"@[0]);
            assert("Gradient"@[0] != "Color"@[0]);
            assert("Gradient"@[0] != "Position"@[0]);
            assert("Gradient"@[0] != "Palette"@[0]);
        },
        _ => {},
    }
}

pub const LOOKUP_DESCRIPTION: &'static str = "Table with one row selected by the `index` input. Each column becomes its own typed output (Untyped / Logic / Phase / Color / Position / Palette).";

/// The outputs of a table: "rows" first (so wires from it survive column
/// edits), then one output per column with its name and type.
pub open spec fn table_outputs(cols: Seq<LookupColumn>) -> Seq<PortView> {
    seq![plain_port("rows"@, PortType::Untyped)] + cols.map_values(
        |c: LookupColumn| plain_port(c.name@, c.port_type),
    )
}

/// A lookup table node. `B` is the shared gradient library, `T` a cell.
pub struct LookupWidget<B, S, T> {
    pub id: NodeId,
    pub shared: S,
    pub library: B,
    pub table: LookupTable<T>,
    /// The row the processing side currently outputs.
    pub current_row: usize,
}

impl<B, S, T: Copy> LookupWidget<B, S, T> {
    /// `widths` gives the channel count of each port type; `initial` the
    /// cells of the four starting rows of the "value" column.
    pub fn new(id: NodeId, shared: S, library: B, widths: Vec<usize>, initial: Vec<T>, zero: T) -> (r: Self)
        requires
            widths@.len() == PORT_TYPE_COUNT,
            initial@.len() == 4 * width_of(widths@, PortType::Untyped),
        ensures
            r.table.wf(),
            r.id == id,
            r.shared == shared,
            r.library == library,
            r.table.columns@.len() == 1,
            r.table.columns@[0].name@ == "value"@,
            r.table.columns@[0].port_type == PortType::Untyped,
            r.table.row_count == 4,
            r.table.data@ == initial@,
            r.current_row == 0,
    {
        LookupWidget { id, shared, library, table: LookupTable::new(widths, initial, zero), current_row: 0 }
    }

    pub fn node_id(&self) -> (r: NodeId)
        ensures
            r == self.id,
    {
        self.id
    }

    /// The node can be resized on the canvas.
    pub fn resizable(&self) -> (r: bool)
        ensures
            r == true,
    {
        true
    }

    pub fn type_label(&self) -> (r: &'static str)
        ensures
            r@ == "Lookup"@,
    {
        "Lookup"
    }

    pub fn title(&self) -> (r: &'static str)
        ensures
            r@ == "Lookup"@,
    {
        "Lookup"
    }

    pub fn description(&self) -> (r: &'static str)
        ensures
            r@ == LOOKUP_DESCRIPTION@,
    {
        LOOKUP_DESCRIPTION
    }

    pub fn ui_inputs(&self) -> (r: Vec<UiPortDef>)
        ensures
            port_views(r@) == seq![plain_port("index"@, PortType::Untyped)],
    {
        ports1(UiPortDef::plain("index", PortType::Untyped))
    }

    pub fn ui_outputs(&self) -> (r: Vec<UiPortDef>)
        ensures
            port_views(r@) == table_outputs(self.table.columns@),
    {
        let mut v: Vec<UiPortDef> = Vec::new();
        v.push(UiPortDef::plain("rows", PortType::Untyped));
        let cols = &self.table.columns;
        let mut i: usize = 0;
        while i < cols.len()
            invariant
                i <= cols.len(),
                *cols == self.table.columns,
                port_views(v@) == table_outputs(cols@.take(i as int)),
            decreases cols.len() - i,
        {
            let p = UiPortDef::plain_owned(cols[i].name.clone(), cols[i].port_type);
            let ghost prev = v@;
            v.push(p);
            proof {
                assert(port_views(v@) =~= port_views(prev).push(p@));
                assert(cols@.take(i + 1) =~= cols@.take(i as int).push(cols@[i as int]));
                assert(table_outputs(cols@.take(i + 1)) =~= table_outputs(cols@.take(i as int)).push(p@));
            }
            i += 1;
        }
        proof {
            assert(cols@.take(cols.len() as int) =~= cols@);
        }
        v
    }

    pub fn shared_state(&self) -> (r: &S)
        ensures
            *r == self.shared,
    {
        &self.shared
    }

    /// Takes over the row the processing side reports as current.
    pub fn sync_current_row(&mut self, row: usize)
        ensures
            final(self).shared == old(self).shared,
            final(self).current_row == row,
            final(self).table == old(self).table,
            final(self).id == old(self).id,
    {
        self.current_row = row;
    }
}

/// Removing a column right after adding it gives back every row: the
/// rows a new column extends are cut back to their old cells.
pub proof fn lemma_column_add_remove<T>(rows: Seq<Seq<T>>, s: nat, w: nat, z: T)
    requires
        forall|r: int| 0 <= r < rows.len() ==> (#[trigger] rows[r]).len() == s,
    ensures
        rows.map_values(|row: Seq<T>| row + zeros(w, z)).map_values(
            |row: Seq<T>| row.take(s as int) + row.skip((s + w) as int),
        ) == rows,
{
    let a = rows.map_values(|row: Seq<T>| row + zeros(w, z)).map_values(
        |row: Seq<T>| row.take(s as int) + row.skip((s + w) as int),
    );
    assert forall|r: int| 0 <= r < rows.len() implies a[r] == rows[r] by {
        let ext = rows[r] + zeros(w, z);
        assert(ext.take(s as int) =~= rows[r]);
        assert(ext.skip((s + w) as int) =~= Seq::<T>::empty());
        assert(a[r] =~= rows[r]);
    }
    assert(a =~= rows);
}

/// Removing the row just added gives back the table's rows.
pub proof fn lemma_row_add_remove<T>(rows: Seq<Seq<T>>, row: Seq<T>)
    ensures
        rows.push(row).remove(rows.len() as int) == rows,
{
    assert(rows.push(row).remove(rows.len() as int) =~= rows);
}

} // verus!
