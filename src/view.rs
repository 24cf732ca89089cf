//! The table state: columns, records, cursor and selection.
use vstd::prelude::*;
use vstd::laws_cmp::obeys_cmp;
use indexmap::IndexMap;
use crate::column::{
    column_entries, entries_after_insert, entries_after_remove, index_of_key, keys_unique,
    lemma_index_of_key, map_index_of, map_insert, map_key_at, map_len, map_new, map_pop,
    map_shift_remove, ColumnDef,
};
use crate::record::Record;
use crate::sort::{sort_by_cell, stable_sort_of};

verus! {

/// The cursor for a requested position `t` in a table of `c` columns and
/// `r` records: absent when either count is zero, else `t` clamped to the
/// last valid index on each axis.
pub open spec fn clamp_cursor(t: (int, int), c: int, r: int) -> Option<(int, int)> {
    if c <= 0 || r <= 0 {
        None
    } else {
        Some(
            (
                if t.0 < c - 1 {
                    t.0
                } else {
                    c - 1
                },
                if t.1 < r - 1 {
                    t.1
                } else {
                    r - 1
                },
            ),
        )
    }
}

/// The cells that one select action at `(col, row)` marks: the whole column
/// over `rows` records in column-select mode, else the one cell.
pub open spec fn select_expansion(col: usize, row: usize, rows: int, column_mode: bool) -> Set<
    (usize, usize),
> {
    if column_mode {
        Set::new(|p: (usize, usize)| p.0 == col && p.1 < rows)
    } else {
        set![(col, row)]
    }
}

/// The selection after one select action.
pub open spec fn selection_after(
    sel: Set<(usize, usize)>,
    col: usize,
    row: usize,
    rows: int,
    column_mode: bool,
) -> Set<(usize, usize)> {
    sel.union(select_expansion(col, row, rows, column_mode))
}

/// The data and interaction state of a table view over cells of type `D`.
pub struct SpreadsheetView<D> {
    columns: IndexMap<String, ColumnDef>,
    records: Vec<Record<D>>,
    enabled: bool,
    cursor_target: (usize, usize),
    selected_cells: Vec<(usize, usize)>,
    column_select: bool,
}

impl<D> SpreadsheetView<D> {
    /// The columns as (key, definition) pairs, in display order.
    pub closed spec fn columns(&self) -> Seq<(Seq<char>, ColumnDef)> {
        column_entries(self.columns)
    }

    /// The records, in row order.
    pub closed spec fn records(&self) -> Seq<Record<D>> {
        self.records@
    }

    /// Whether the view accepts cursor moves and selection changes.
    pub closed spec fn enabled(&self) -> bool {
        self.enabled
    }

    /// The position last asked for; the cursor is this, clamped to the table.
    pub closed spec fn target(&self) -> (int, int) {
        (self.cursor_target.0 as int, self.cursor_target.1 as int)
    }

    /// The selected cells, as (column, row) pairs.
    pub closed spec fn selection(&self) -> Set<(usize, usize)> {
        self.selected_cells@.to_set()
    }

    /// Whether a select action marks a whole column.
    pub closed spec fn column_mode(&self) -> bool {
        self.column_select
    }

    /// The enable flag, requested position, selection and select mode together.
    pub open spec fn interaction(&self) -> (bool, (int, int), Set<(usize, usize)>, bool) {
        (self.enabled(), self.target(), self.selection(), self.column_mode())
    }

    /// The focused cell as (column, row), or `None`.
    pub open spec fn cursor(&self) -> Option<(int, int)> {
        clamp_cursor(self.target(), self.columns().len() as int, self.records().len() as int)
    }

    /// Column keys are unique and the selection lists each cell once.
    pub closed spec fn wf(&self) -> bool {
        &&& keys_unique(column_entries(self.columns))
        &&& self.selected_cells@.no_duplicates()
    }

    /// In a well-formed view no two columns share a key.
    pub proof fn lemma_columns_unique(&self)
        requires
            self.wf(),
        ensures
            keys_unique(self.columns()),
    {
    }

    /// An empty, enabled view with no columns, no records and no selection.
    pub fn new() -> (r: Self)
        ensures
            r.wf(),
            r.columns().len() == 0,
            r.records().len() == 0,
            r.enabled(),
            r.target() == (0int, 0int),
            r.selection() == Set::<(usize, usize)>::empty(),
            !r.column_mode(),
    {
        let r = SpreadsheetView {
            columns: map_new(),
            records: Vec::new(),
            enabled: true,
            cursor_target: (0, 0),
            selected_cells: Vec::new(),
            column_select: false,
        };
        proof {
            assert(r.selected_cells@.to_set() =~= Set::empty());
        }
        r
    }

    // COLUMNS

    /// Adds a column under `key`, or replaces the definition of the column
    /// that already has that key, leaving it in its place.
    pub fn push_column(&mut self, key: String, column_def: ColumnDef)
        requires
            old(self).wf(),
        ensures
            final(self).wf(),
            final(self).columns() == entries_after_insert(old(self).columns(), key@, column_def),
            final(self).records() == old(self).records(),
            final(self).interaction() == old(self).interaction(),
    {
        let ghost e = self.columns();
        proof {
            lemma_index_of_key(e, key@);
        }
        map_insert(&mut self.columns, key, column_def);
    }

    /// Chainable form of `push_column`.
    pub fn with_column(&mut self, key: String, column_def: ColumnDef) -> (r: &mut Self)
        requires
            old(self).wf(),
        ensures
            r.wf(),
            r.columns() == entries_after_insert(old(self).columns(), key@, column_def),
            r.records() == old(self).records(),
            r.interaction() == old(self).interaction(),
            *final(self) == *final(r),
    {
        self.push_column(key, column_def);
        self
    }

    /// Removes the column with `key` and returns its definition; `None`, with
    /// nothing changed, where no column has that key.
    pub fn remove_column(&mut self, key: &str) -> (r: Option<ColumnDef>)
        requires
            old(self).wf(),
        ensures
            final(self).wf(),
            final(self).columns() == entries_after_remove(old(self).columns(), key@),
            match index_of_key(old(self).columns(), key@) {
                Some(i) => r == Some(old(self).columns()[i].1),
                None => r is None,
            },
            final(self).records() == old(self).records(),
            final(self).interaction() == old(self).interaction(),
    {
        let ghost e = self.columns();
        proof {
            lemma_index_of_key(e, key@);
        }
        let r = map_shift_remove(&mut self.columns, key);
        proof {
            if let Some(i) = index_of_key(e, key@) {
                let f = self.columns();
                assert forall|a: int, b: int| 0 <= a < b < f.len() implies #[trigger] f[a].0
                    != #[trigger] f[b].0 by {
                    let a0 = if a < i { a } else { a + 1 };
                    let b0 = if b < i { b } else { b + 1 };
                    assert(e[a0].0 != e[b0].0);
                }
            }
        }
        r
    }

    /// Removes the last column and returns its definition, or `None` where
    /// there are no columns.
    pub fn pop_column(&mut self) -> (r: Option<ColumnDef>)
        requires
            old(self).wf(),
        ensures
            final(self).wf(),
            old(self).columns().len() == 0 ==> r is None && final(self).columns() == old(
                self,
            ).columns(),
            old(self).columns().len() > 0 ==> r == Some(old(self).columns().last().1)
                && final(self).columns() == old(self).columns().drop_last(),
            final(self).records() == old(self).records(),
            final(self).interaction() == old(self).interaction(),
    {
        match map_pop(&mut self.columns) {
            Some(p) => Some(p.1),
            None => None,
        }
    }

    /// The number of columns.
    pub fn len_columns(&self) -> (r: usize)
        ensures
            r == self.columns().len(),
    {
        map_len(&self.columns)
    }

    /// The key of the column at `index`, or `None` past the last column.
    pub fn column_key(&self, index: usize) -> (r: Option<String>)
        ensures
            match r {
                Some(k) => index < self.columns().len() && k@ == self.columns()[index as int].0,
                None => index >= self.columns().len(),
            },
    {
        map_key_at(&self.columns, index)
    }

    /// The position of the column with `key`, or `None` where there is none.
    pub fn column_index(&self, key: &str) -> (r: Option<usize>)
        ensures
            match index_of_key(self.columns(), key@) {
                Some(i) => r == Some(i as usize),
                None => r is None,
            },
    {
        map_index_of(&self.columns, key)
    }

    /// The keys of all columns, in display order.
    pub fn column_keys(&self) -> (r: Vec<String>)
        ensures
            r@.len() == self.columns().len(),
            forall|i: int| 0 <= i < r@.len() ==> #[trigger] r@[i]@ == self.columns()[i].0,
    {
        let n = map_len(&self.columns);
        let mut keys: Vec<String> = Vec::new();
        let mut i: usize = 0;
        while i < n
            invariant
                n == self.columns().len(),
                i <= n,
                keys@.len() == i,
                forall|j: int| 0 <= j < i ==> #[trigger] keys@[j]@ == self.columns()[j].0,
            decreases n - i,
        {
            match map_key_at(&self.columns, i) {
                Some(k) => keys.push(k),
                None => {},
            }
            i = i + 1;
        }
        keys
    }

    // RECORDS

    /// Appends a record as the last row.
    pub fn push_record(&mut self, record: Record<D>)
        requires
            old(self).wf(),
        ensures
            final(self).wf(),
            final(self).records() == old(self).records().push(record),
            final(self).columns() == old(self).columns(),
            final(self).interaction() == old(self).interaction(),
    {
        self.records.push(record);
    }

    /// Chainable form of `push_record`.
    pub fn with_record(&mut self, record: Record<D>) -> (r: &mut Self)
        requires
            old(self).wf(),
        ensures
            r.wf(),
            r.records() == old(self).records().push(record),
            r.columns() == old(self).columns(),
            r.interaction() == old(self).interaction(),
            *final(self) == *final(r),
    {
        self.push_record(record);
        self
    }

    /// Appends the given records as the last rows, in their order.
    pub fn extend_records(&mut self, records: Vec<Record<D>>)
        requires
            old(self).wf(),
        ensures
            final(self).wf(),
            final(self).records() == old(self).records() + records@,
            final(self).columns() == old(self).columns(),
            final(self).interaction() == old(self).interaction(),
    {
        let mut records = records;
        self.records.append(&mut records);
    }

    /// Chainable form of `extend_records`.
    pub fn with_records(&mut self, records: Vec<Record<D>>) -> (r: &mut Self)
        requires
            old(self).wf(),
        ensures
            r.wf(),
            r.records() == old(self).records() + records@,
            r.columns() == old(self).columns(),
            r.interaction() == old(self).interaction(),
            *final(self) == *final(r),
    {
        self.extend_records(records);
        self
    }

    /// Removes and returns the last record, or `None` where there are none.
    pub fn pop_record(&mut self) -> (r: Option<Record<D>>)
        requires
            old(self).wf(),
        ensures
            final(self).wf(),
            old(self).records().len() == 0 ==> r is None && final(self).records() == old(
                self,
            ).records(),
            old(self).records().len() > 0 ==> r == Some(old(self).records().last())
                && final(self).records() == old(self).records().drop_last(),
            final(self).columns() == old(self).columns(),
            final(self).interaction() == old(self).interaction(),
    {
        self.records.pop()
    }

    /// Removes and returns the record at `index`, moving the later ones up one
    /// row; `None`, with nothing changed, where `index` is past the last row.
    pub fn remove_record(&mut self, index: usize) -> (r: Option<Record<D>>)
        requires
            old(self).wf(),
        ensures
            final(self).wf(),
            index < old(self).records().len() ==> r == Some(old(self).records()[index as int])
                && final(self).records() == old(self).records().remove(index as int),
            index >= old(self).records().len() ==> r is None && final(self).records() == old(
                self,
            ).records(),
            final(self).columns() == old(self).columns(),
            final(self).interaction() == old(self).interaction(),
    {
        if index < self.records.len() {
            Some(self.records.remove(index))
        } else {
            None
        }
    }

    /// Removes every record.
    pub fn clear_records(&mut self)
        requires
            old(self).wf(),
        ensures
            final(self).wf(),
            final(self).records().len() == 0,
            final(self).columns() == old(self).columns(),
            final(self).interaction() == old(self).interaction(),
    {
        self.records.clear();
    }

    /// The number of records.
    pub fn len_records(&self) -> (r: usize)
        ensures
            r == self.records().len(),
    {
        self.records.len()
    }

    /// The record at row `index`, or `None` past the last row.
    pub fn record(&self, index: usize) -> (r: Option<&Record<D>>)
        ensures
            match r {
                Some(rec) => index < self.records().len() && *rec == self.records()[index as int],
                None => index >= self.records().len(),
            },
    {
        if index < self.records.len() {
            Some(&self.records[index])
        } else {
            None
        }
    }

    // CURSOR

    /// Asks for the cursor at column `x`, row `y`. The cursor then sits there,
    /// clamped to the last column and row, or is absent while the table has
    /// no columns or no records. A disabled view ignores the call.
    pub fn set_cursor_pos(&mut self, x: usize, y: usize)
        requires
            old(self).wf(),
        ensures
            final(self).wf(),
            old(self).enabled() ==> final(self).target() == (x as int, y as int),
            !old(self).enabled() ==> final(self).target() == old(self).target(),
            final(self).cursor() == if old(self).enabled() {
                clamp_cursor(
                    (x as int, y as int),
                    old(self).columns().len() as int,
                    old(self).records().len() as int,
                )
            } else {
                old(self).cursor()
            },
            final(self).columns() == old(self).columns(),
            final(self).records() == old(self).records(),
            final(self).enabled() == old(self).enabled(),
            final(self).selection() == old(self).selection(),
            final(self).column_mode() == old(self).column_mode(),
    {
        if self.enabled {
            self.cursor_target = (x, y);
        }
    }

    /// The focused cell as (column, row), or `None` while the table has no
    /// columns or no records.
    pub fn cursor_pos(&self) -> (r: Option<(usize, usize)>)
        ensures
            match r {
                Some(p) => self.cursor() == Some((p.0 as int, p.1 as int)),
                None => self.cursor() is None,
            },
    {
        let cols = map_len(&self.columns);
        let rows = self.records.len();
        if cols == 0 || rows == 0 {
            None
        } else {
            let (x, y) = self.cursor_target;
            let cx = if x < cols - 1 {
                x
            } else {
                cols - 1
            };
            let cy = if y < rows - 1 {
                y
            } else {
                rows - 1
            };
            Some((cx, cy))
        }
    }

    // ENABLED STATE

    /// Disables the view: cursor moves and selection changes are then ignored.
    pub fn disable(&mut self)
        requires
            old(self).wf(),
        ensures
            final(self).wf(),
            !final(self).enabled(),
            final(self).columns() == old(self).columns(),
            final(self).records() == old(self).records(),
            final(self).target() == old(self).target(),
            final(self).selection() == old(self).selection(),
            final(self).column_mode() == old(self).column_mode(),
    {
        self.enabled = false;
    }

    /// Enables the view again.
    pub fn enable(&mut self)
        requires
            old(self).wf(),
        ensures
            final(self).wf(),
            final(self).enabled(),
            final(self).columns() == old(self).columns(),
            final(self).records() == old(self).records(),
            final(self).target() == old(self).target(),
            final(self).selection() == old(self).selection(),
            final(self).column_mode() == old(self).column_mode(),
    {
        self.enabled = true;
    }

    /// Enables or disables the view.
    pub fn set_enabled(&mut self, enabled: bool)
        requires
            old(self).wf(),
        ensures
            final(self).wf(),
            final(self).enabled() == enabled,
            final(self).columns() == old(self).columns(),
            final(self).records() == old(self).records(),
            final(self).target() == old(self).target(),
            final(self).selection() == old(self).selection(),
            final(self).column_mode() == old(self).column_mode(),
    {
        self.enabled = enabled;
    }

    /// Whether the view is enabled.
    pub fn is_enabled(&self) -> (r: bool)
        ensures
            r == self.enabled(),
    {
        self.enabled
    }

    // SELECTION

    /// Turns column-select mode on or off.
    pub fn set_column_select(&mut self, on: bool)
        requires
            old(self).wf(),
        ensures
            final(self).wf(),
            final(self).column_mode() == on,
            final(self).columns() == old(self).columns(),
            final(self).records() == old(self).records(),
            final(self).enabled() == old(self).enabled(),
            final(self).target() == old(self).target(),
            final(self).selection() == old(self).selection(),
    {
        self.column_select = on;
    }

    /// Whether column-select mode is on.
    pub fn is_column_select(&self) -> (r: bool)
        ensures
            r == self.column_mode(),
    {
        self.column_select
    }

    /// Position of `cell` in the selection list.
    fn find_cell(&self, cell: (usize, usize)) -> (r: Option<usize>)
        ensures
            match r {
                Some(i) => i < self.selected_cells@.len() && self.selected_cells@[i as int] == cell,
                None => !self.selected_cells@.contains(cell),
            },
    {
        let mut i: usize = 0;
        while i < self.selected_cells.len()
            invariant
                i <= self.selected_cells@.len(),
                forall|j: int| 0 <= j < i ==> self.selected_cells@[j] != cell,
            decreases self.selected_cells@.len() - i,
        {
            let c = self.selected_cells[i];
            if c.0 == cell.0 && c.1 == cell.1 {
                return Some(i);
            }
            i = i + 1;
        }
        None
    }

    /// Adds `cell` to the selection, unless it is there already.
    fn add_cell(&mut self, cell: (usize, usize))
        requires
            old(self).wf(),
        ensures
            final(self).wf(),
            final(self).selection() == old(self).selection().insert(cell),
            final(self).selected_cells@.len() == old(self).selected_cells@.len() + if old(
                self,
            ).selection().contains(cell) {
                0int
            } else {
                1int
            },
            final(self).columns() == old(self).columns(),
            final(self).records() == old(self).records(),
            final(self).enabled() == old(self).enabled(),
            final(self).target() == old(self).target(),
            final(self).column_mode() == old(self).column_mode(),
    {
        let ghost before = self.selected_cells@;
        match self.find_cell(cell) {
            Some(i) => {
                proof {
                    assert(before.to_set().contains(cell));
                    assert(before.to_set().insert(cell) =~= before.to_set());
                }
            },
            None => {
                self.selected_cells.push(cell);
                proof {
                    let after = self.selected_cells@;
                    assert(after.to_set() =~= before.to_set().insert(cell)) by {
                        assert forall|p: (usize, usize)| after.contains(p) <==> before.contains(p)
                            || p == cell by {
                            if after.contains(p) {
                                let k = choose|k: int| 0 <= k < after.len() && after[k] == p;
                                if k < before.len() {
                                    assert(before[k] == p);
                                }
                            }
                            if before.contains(p) {
                                let k = choose|k: int| 0 <= k < before.len() && before[k] == p;
                                assert(after[k] == p);
                            }
                            if p == cell {
                                assert(after[before.len() as int] == p);
                            }
                        }
                    }
                    assert(!before.to_set().contains(cell));
                }
            },
        }
    }

    /// Selects the cell at column `col`, row `row`; in column-select mode,
    /// every cell of column `col` instead. A disabled view ignores the call.
    pub fn select_cell(&mut self, col: usize, row: usize)
        requires
            old(self).wf(),
        ensures
            final(self).wf(),
            old(self).enabled() ==> final(self).selection() == selection_after(
                old(self).selection(),
                col,
                row,
                old(self).records().len() as int,
                old(self).column_mode(),
            ),
            !old(self).enabled() ==> final(self).selection() == old(self).selection(),
            final(self).columns() == old(self).columns(),
            final(self).records() == old(self).records(),
            final(self).enabled() == old(self).enabled(),
            final(self).target() == old(self).target(),
            final(self).column_mode() == old(self).column_mode(),
    {
        if !self.enabled {
            return;
        }
        if self.column_select {
            let rows = self.records.len();
            let ghost start = self.selection();
            let mut r: usize = 0;
            while r < rows
                invariant
                    self.wf(),
                    rows == self.records().len(),
                    r <= rows,
                    self.selection() == start.union(
                        Set::new(|p: (usize, usize)| p.0 == col && p.1 < r),
                    ),
                    self.columns() == old(self).columns(),
                    self.records() == old(self).records(),
                    self.enabled() == old(self).enabled(),
                    self.target() == old(self).target(),
                    self.column_mode() == old(self).column_mode(),
                    start == old(self).selection(),
                decreases rows - r,
            {
                self.add_cell((col, r));
                proof {
                    assert(start.union(Set::new(|p: (usize, usize)| p.0 == col && p.1 < r + 1))
                        =~= start.union(Set::new(|p: (usize, usize)| p.0 == col && p.1 < r)).insert(
                        (col, r),
                    ));
                }
                r = r + 1;
            }
        } else {
            self.add_cell((col, row));
            proof {
                assert(old(self).selection().insert((col, row)) =~= old(self).selection().union(
                    set![(col, row)],
                ));
            }
        }
    }

    /// Removes the cell at column `col`, row `row` from the selection, where it
    /// is there. A disabled view ignores the call.
    pub fn deselect_cell(&mut self, col: usize, row: usize)
        requires
            old(self).wf(),
        ensures
            final(self).wf(),
            old(self).enabled() ==> final(self).selection() == old(self).selection().remove(
                (col, row),
            ),
            !old(self).enabled() ==> final(self).selection() == old(self).selection(),
            final(self).columns() == old(self).columns(),
            final(self).records() == old(self).records(),
            final(self).enabled() == old(self).enabled(),
            final(self).target() == old(self).target(),
            final(self).column_mode() == old(self).column_mode(),
    {
        if !self.enabled {
            return;
        }
        let ghost before = self.selected_cells@;
        match self.find_cell((col, row)) {
            Some(i) => {
                self.selected_cells.remove(i);
                proof {
                    let after = self.selected_cells@;
                    assert forall|a: int, b: int| 0 <= a < b < after.len() implies after[a]
                        != after[b] by {
                        let a0 = if a < i { a } else { a + 1 };
                        let b0 = if b < i { b } else { b + 1 };
                        assert(before[a0] != before[b0]);
                    }
                    assert(after.to_set() =~= before.to_set().remove((col, row))) by {
                        assert forall|p: (usize, usize)| after.contains(p) <==> (before.contains(p)
                            && p != (col, row)) by {
                            if after.contains(p) {
                                let k = choose|k: int| 0 <= k < after.len() && after[k] == p;
                                let k0 = if k < i { k } else { k + 1 };
                                assert(before[k0] == p);
                                assert(k0 != i);
                            }
                            if before.contains(p) && p != (col, row) {
                                let k = choose|k: int| 0 <= k < before.len() && before[k] == p;
                                if k < i {
                                    assert(after[k] == p);
                                } else {
                                    assert(after[k - 1] == p);
                                }
                            }
                        }
                    }
                }
            },
            None => {
                proof {
                    assert(before.to_set().remove((col, row)) =~= before.to_set());
                }
            },
        }
    }

    /// Empties the selection. A disabled view ignores the call.
    pub fn clear_selection(&mut self)
        requires
            old(self).wf(),
        ensures
            final(self).wf(),
            old(self).enabled() ==> final(self).selection() == Set::<(usize, usize)>::empty(),
            !old(self).enabled() ==> final(self).selection() == old(self).selection(),
            final(self).columns() == old(self).columns(),
            final(self).records() == old(self).records(),
            final(self).enabled() == old(self).enabled(),
            final(self).target() == old(self).target(),
            final(self).column_mode() == old(self).column_mode(),
    {
        if self.enabled {
            self.selected_cells.clear();
            proof {
                assert(self.selected_cells@.to_set() =~= Set::empty());
            }
        }
    }

    /// Whether the cell at column `col`, row `row` is selected.
    pub fn is_cell_selected(&self, col: usize, row: usize) -> (r: bool)
        ensures
            r == self.selection().contains((col, row)),
    {
        self.find_cell((col, row)).is_some()
    }

    /// The number of selected cells.
    pub fn selection_len(&self) -> (r: usize)
        requires
            self.wf(),
        ensures
            r == self.selection().len(),
    {
        proof {
            self.selected_cells@.unique_seq_to_set();
        }
        self.selected_cells.len()
    }
}

impl<D> Default for SpreadsheetView<D> {
    /// An empty, enabled view with no columns, as `new` makes it.
    fn default() -> (r: Self)
        ensures
            r.wf(),
            r.columns().len() == 0,
            r.records().len() == 0,
            r.enabled(),
            r.target() == (0int, 0int),
            r.selection() == Set::<(usize, usize)>::empty(),
            !r.column_mode(),
    {
        Self::new()
    }
}

impl<D: Ord> SpreadsheetView<D> {
    /// Sorts the records stably by their cells in column `key`; does nothing
    /// where no column has that key.
    pub fn sort_records(&mut self, key: &str, ascending: bool)
        requires
            old(self).wf(),
            index_of_key(old(self).columns(), key@) is Some ==> obeys_cmp::<D>(),
        ensures
            final(self).wf(),
            index_of_key(old(self).columns(), key@) is None ==> final(self).records() == old(
                self,
            ).records(),
            index_of_key(old(self).columns(), key@) is Some ==> exists|perm: Seq<int>|
                stable_sort_of(old(self).records(), final(self).records(), perm, key@, ascending),
            final(self).columns() == old(self).columns(),
            final(self).interaction() == old(self).interaction(),
    {
        if map_index_of(&self.columns, key).is_some() {
            let ghost before = self.records@;
            sort_by_cell(&mut self.records, key, ascending);
            proof {
                let perm = choose|perm: Seq<int>|
                    stable_sort_of(before, self.records@, perm, key@, ascending);
                assert(stable_sort_of(old(self).records(), self.records(), perm, key@, ascending));
            }
        }
    }
}

} // verus!
