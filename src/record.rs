//! Records: sparse mappings from column key to cell value.
use vstd::prelude::*;

verus! {

/// The value stored under `k` in a list of cells, the latest entry winning.
pub open spec fn cell_of<D>(cells: Seq<(String, D)>, k: Seq<char>) -> Option<D>
    decreases cells.len(),
{
    if cells.len() == 0 {
        None
    } else if cells.last().0@ == k {
        Some(cells.last().1)
    } else {
        cell_of(cells.drop_last(), k)
    }
}

proof fn lemma_cell_of_update<D>(cells: Seq<(String, D)>, i: int, e: (String, D), k: Seq<char>)
    requires
        0 <= i < cells.len(),
        cells[i].0@ == e.0@,
        forall|j: int| i < j < cells.len() ==> cells[j].0@ != e.0@,
    ensures
        cell_of(cells.update(i, e), k) == if k == e.0@ {
            Some(e.1)
        } else {
            cell_of(cells, k)
        },
    decreases cells.len(),
{
    let u = cells.update(i, e);
    if i < cells.len() - 1 {
        assert(u.drop_last() =~= cells.drop_last().update(i, e));
        lemma_cell_of_update(cells.drop_last(), i, e, k);
    } else {
        assert(u.drop_last() =~= cells.drop_last());
    }
}

/// One row of the table: a value for some of the columns, looked up by key.
pub struct Record<D> {
    cells: Vec<(String, D)>,
}

impl<D> Record<D> {
    /// The value stored under `k`, if any.
    pub closed spec fn cell(&self, k: Seq<char>) -> Option<D> {
        cell_of(self.cells@, k)
    }

    /// A record with no values.
    pub fn new() -> (r: Self)
        ensures
            forall|k: Seq<char>| #[trigger] r.cell(k) is None,
    {
        Record { cells: Vec::new() }
    }

    /// Index of the latest entry with key `k`.
    fn find(&self, k: &String) -> (r: Option<usize>)
        ensures
            match r {
                Some(i) => i < self.cells@.len() && self.cells@[i as int].0@ == k@ && forall|j: int|
                    i < j < self.cells@.len() ==> self.cells@[j].0@ != k@,
                None => forall|j: int| 0 <= j < self.cells@.len() ==> self.cells@[j].0@ != k@,
            },
    {
        let mut i: usize = self.cells.len();
        while i > 0
            invariant
                i <= self.cells@.len(),
                forall|j: int| i <= j < self.cells@.len() ==> self.cells@[j].0@ != k@,
            decreases i,
        {
            if self.cells[i - 1].0 == *k {
                return Some(i - 1);
            }
            i = i - 1;
        }
        None
    }

    proof fn lemma_absent(cells: Seq<(String, D)>, k: Seq<char>)
        requires
            forall|j: int| 0 <= j < cells.len() ==> cells[j].0@ != k,
        ensures
            cell_of(cells, k) is None,
        decreases cells.len(),
    {
        if cells.len() > 0 {
            Self::lemma_absent(cells.drop_last(), k);
        }
    }

    proof fn lemma_found(cells: Seq<(String, D)>, i: int, k: Seq<char>)
        requires
            0 <= i < cells.len(),
            cells[i].0@ == k,
            forall|j: int| i < j < cells.len() ==> cells[j].0@ != k,
        ensures
            cell_of(cells, k) == Some(cells[i].1),
        decreases cells.len(),
    {
        if i < cells.len() - 1 {
            Self::lemma_found(cells.drop_last(), i, k);
        }
    }

    /// Stores `value` under `key`, returning the value it replaces.
    pub fn insert(&mut self, key: String, value: D) -> (r: Option<D>)
        ensures
            r == old(self).cell(key@),
            final(self).cell(key@) == Some(value),
            forall|k: Seq<char>| k != key@ ==> #[trigger] final(self).cell(k) == old(self).cell(k),
    {
        match self.find(&key) {
            Some(i) => {
                proof {
                    Self::lemma_found(self.cells@, i as int, key@);
                    assert forall|k: Seq<char>| true implies cell_of(
                        self.cells@.update(i as int, (key, value)),
                        k,
                    ) == if k == key@ {
                        Some(value)
                    } else {
                        cell_of(self.cells@, k)
                    } by {
                        lemma_cell_of_update(self.cells@, i as int, (key, value), k);
                    }
                }
                let ghost before = self.cells@;
                let old_cell = self.cells.remove(i);
                self.cells.insert(i, (key, value));
                proof {
                    assert(self.cells@ =~= before.update(i as int, (key, value)));
                }
                Some(old_cell.1)
            },
            None => {
                proof {
                    Self::lemma_absent(self.cells@, key@);
                }
                self.cells.push((key, value));
                proof {
                    assert(self.cells@.drop_last() =~= old(self).cells@);
                }
                None
            },
        }
    }

    /// The value stored under `key`, looked up with an owned key.
    pub fn get_by(&self, key: &String) -> (r: Option<&D>)
        ensures
            match r {
                Some(v) => self.cell(key@) == Some(*v),
                None => self.cell(key@) is None,
            },
    {
        match self.find(key) {
            Some(i) => {
                proof {
                    Self::lemma_found(self.cells@, i as int, key@);
                }
                Some(&self.cells[i].1)
            },
            None => {
                proof {
                    Self::lemma_absent(self.cells@, key@);
                }
                None
            },
        }
    }

    /// The value stored under `key`, if any.
    pub fn get(&self, key: &str) -> (r: Option<&D>)
        ensures
            match r {
                Some(v) => self.cell(key@) == Some(*v),
                None => self.cell(key@) is None,
            },
    {
        let k = key.to_owned();
        self.get_by(&k)
    }
}

} // verus!
