//! Properties that hold across calls of the view's operations.
use vstd::prelude::*;
use vstd::laws_cmp::obeys_cmp;
use crate::column::{
    entries_after_insert, entries_after_remove, index_of_key, keys_of, keys_unique,
    lemma_index_of_key, ColumnDef,
};
use crate::record::Record;
use crate::sort::{is_hit, lemma_cell_order_strict, sorts_before, stable_sort_of};
use crate::view::{selection_after, SpreadsheetView};

verus! {

/// One change to the column registry.
pub enum ColumnOp {
    /// `push_column` with a key and a definition.
    Insert(Seq<char>, ColumnDef),
    /// `remove_column` with a key.
    Remove(Seq<char>),
}

/// The column entries after applying `ops` in turn, starting from none, as
/// `push_column` and `remove_column` state them.
pub open spec fn replay(ops: Seq<ColumnOp>) -> Seq<(Seq<char>, ColumnDef)>
    decreases ops.len(),
{
    if ops.len() == 0 {
        Seq::empty()
    } else {
        let e = replay(ops.drop_last());
        match ops.last() {
            ColumnOp::Insert(k, d) => entries_after_insert(e, k, d),
            ColumnOp::Remove(k) => entries_after_remove(e, k),
        }
    }
}

/// The keys present after `ops`, in the order in which each was last added
/// while absent: inserting a present key moves nothing, a new key goes last,
/// and a removal leaves the others in order.
pub open spec fn arrival_order(ops: Seq<ColumnOp>) -> Seq<Seq<char>>
    decreases ops.len(),
{
    if ops.len() == 0 {
        Seq::empty()
    } else {
        let keys = arrival_order(ops.drop_last());
        match ops.last() {
            ColumnOp::Insert(k, _) => if keys.contains(k) {
                keys
            } else {
                keys.push(k)
            },
            ColumnOp::Remove(k) => keys.filter(other_than(k)),
        }
    }
}

/// The test that keeps every key but `k`.
pub open spec fn other_than(k: Seq<char>) -> spec_fn(Seq<char>) -> bool {
    |x: Seq<char>| x != k
}

proof fn lemma_filter_keeps_all(s: Seq<Seq<char>>, k: Seq<char>)
    requires
        forall|j: int| 0 <= j < s.len() ==> s[j] != k,
    ensures
        s.filter(other_than(k)) == s,
    decreases s.len(),
{
    reveal(Seq::filter);
    if s.len() > 0 {
        lemma_filter_keeps_all(s.drop_last(), k);
        assert(s.drop_last().push(s.last()) =~= s);
    }
}

proof fn lemma_filter_drops_one(s: Seq<Seq<char>>, i: int, k: Seq<char>)
    requires
        0 <= i < s.len(),
        s[i] == k,
        forall|j: int| 0 <= j < s.len() && j != i ==> s[j] != k,
    ensures
        s.filter(other_than(k)) == s.remove(i),
{
    let pred = other_than(k);
    let a = s.take(i);
    let b = seq![k];
    let c = s.skip(i + 1);
    assert(s =~= a + b + c);
    Seq::filter_distributes_over_add(a + b, c, pred);
    Seq::filter_distributes_over_add(a, b, pred);
    lemma_filter_keeps_all(a, k);
    lemma_filter_keeps_all(c, k);
    reveal(Seq::filter);
    assert(b.drop_last() =~= Seq::<Seq<char>>::empty());
    assert(b.drop_last().filter(pred) =~= Seq::<Seq<char>>::empty());
    assert(!pred(b.last()));
    assert(b.filter(pred) =~= Seq::<Seq<char>>::empty());
    assert(s.remove(i) =~= a + c);
}

/// Column order: after any sequence of inserts and removals, the columns
/// are the present keys in the order in which each first arrived, a key
/// removed and inserted again counting as arriving anew.
pub proof fn lemma_column_order(ops: Seq<ColumnOp>)
    ensures
        keys_unique(replay(ops)),
        keys_of(replay(ops)) == arrival_order(ops),
    decreases ops.len(),
{
    if ops.len() > 0 {
        let e = replay(ops.drop_last());
        let keys = arrival_order(ops.drop_last());
        lemma_column_order(ops.drop_last());
        lemma_index_of_key(e, match ops.last() {
            ColumnOp::Insert(k, _) => k,
            ColumnOp::Remove(k) => k,
        });
        match ops.last() {
            ColumnOp::Insert(k, d) => {
                match index_of_key(e, k) {
                    Some(i) => {
                        assert(keys[i] == k);
                        assert(keys_of(e.update(i, (k, d))) =~= keys);
                    },
                    None => {
                        assert(!keys.contains(k));
                        assert(keys_of(e.push((k, d))) =~= keys.push(k));
                    },
                }
            },
            ColumnOp::Remove(k) => {
                match index_of_key(e, k) {
                    Some(i) => {
                        lemma_filter_drops_one(keys, i, k);
                        assert(keys_of(e.remove(i)) =~= keys.remove(i));
                        let f = e.remove(i);
                        assert forall|a: int, b: int| 0 <= a < b < f.len() implies #[trigger] f[a].0
                            != #[trigger] f[b].0 by {
                            let a0 = if a < i { a } else { a + 1 };
                            let b0 = if b < i { b } else { b + 1 };
                            assert(e[a0].0 != e[b0].0);
                        }
                    },
                    None => {
                        lemma_filter_keeps_all(keys, k);
                    },
                }
            },
        }
    }
}

/// Sort stability: two records that stood at `a` before `b` with equal
/// values under the sort key land at positions `p` before `q`, in either
/// direction.
pub proof fn lemma_sort_keeps_ties<D: Ord>(
    before: Seq<Record<D>>,
    after: Seq<Record<D>>,
    perm: Seq<int>,
    k: Seq<char>,
    ascending: bool,
    a: int,
    b: int,
)
    requires
        obeys_cmp::<D>(),
        stable_sort_of(before, after, perm, k, ascending),
        0 <= a < b < before.len(),
        before[a].cell(k) == before[b].cell(k),
    ensures
        exists|p: int, q: int| 0 <= p < q < after.len() && perm[p] == a && perm[q] == b,
        forall|p: int, q: int|
            0 <= p < after.len() && 0 <= q < after.len() && #[trigger] perm[p] == a
                && #[trigger] perm[q] == b ==> p < q,
{
    assert forall|p: int, q: int|
        0 <= p < after.len() && 0 <= q < after.len() && #[trigger] perm[p] == a
            && #[trigger] perm[q] == b implies p < q by {
        lemma_cell_order_strict(before[a].cell(k), before[b].cell(k), ascending);
        if q < p {
            assert(perm[q] > perm[p]);
            assert(sorts_before(after[q], after[p], k, ascending));
        }
    }
    assert(is_hit(perm, a));
    assert(is_hit(perm, b));
    let p = choose|p: int| 0 <= p < perm.len() && #[trigger] perm[p] == a;
    let q = choose|q: int| 0 <= q < perm.len() && #[trigger] perm[q] == b;
    assert(p < q);
}

/// Cursor absence: a view with no columns or no records has no cursor.
pub proof fn lemma_cursor_absent<D>(v: &SpreadsheetView<D>)
    requires
        v.columns().len() == 0 || v.records().len() == 0,
    ensures
        v.cursor() is None,
{
}

/// Idempotent selection: a second identical select action changes nothing,
/// so the number of selected cells stays the same.
pub proof fn lemma_select_twice(
    sel: Set<(usize, usize)>,
    col: usize,
    row: usize,
    rows: int,
    column_mode: bool,
)
    ensures
        selection_after(selection_after(sel, col, row, rows, column_mode), col, row, rows, column_mode)
            == selection_after(sel, col, row, rows, column_mode),
        selection_after(selection_after(sel, col, row, rows, column_mode), col, row, rows, column_mode).len()
            == selection_after(sel, col, row, rows, column_mode).len(),
{
    assert(selection_after(selection_after(sel, col, row, rows, column_mode), col, row, rows, column_mode)
        =~= selection_after(sel, col, row, rows, column_mode));
}

} // verus!
