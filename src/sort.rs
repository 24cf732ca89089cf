//! Stable sorting of records by the value they hold under one column key.
use vstd::prelude::*;
use vstd::laws_eq::obeys_eq_spec_properties;
use vstd::set_lib::{lemma_int_range, lemma_len_subset, lemma_subset_equality, set_int_range};
use vstd::laws_cmp::{obeys_cmp, obeys_cmp_ord, obeys_cmp_partial_ord, obeys_partial_cmp_spec_properties};
use vstd::std_specs::cmp::{OrdSpec, PartialEqSpec, PartialOrdSpec};
use std::cmp::Ordering;
use crate::record::Record;

verus! {

/// How two optional cells compare in ascending order: an absent cell is less
/// than every present one, and present cells follow the item type's order.
pub open spec fn option_order<D: Ord>(a: Option<D>, b: Option<D>) -> Ordering {
    match (a, b) {
        (None, None) => Ordering::Equal,
        (None, Some(_)) => Ordering::Less,
        (Some(_), None) => Ordering::Greater,
        (Some(x), Some(y)) => x.cmp_spec(&y),
    }
}

/// How two optional cells compare under a sort direction: the ascending
/// order, reversed as a whole when `ascending` is false, so that absent
/// cells come first in ascending and last in descending order.
pub open spec fn cell_order<D: Ord>(a: Option<D>, b: Option<D>, ascending: bool) -> Ordering {
    if ascending {
        option_order(a, b)
    } else {
        option_order(b, a)
    }
}

/// Record `a` sorts strictly before record `b` by column `k`.
pub open spec fn sorts_before<D: Ord>(a: Record<D>, b: Record<D>, k: Seq<char>, ascending: bool) -> bool {
    cell_order(a.cell(k), b.cell(k), ascending) == Ordering::Less
}

/// Some position of `perm` holds `v`.
pub open spec fn is_hit(perm: Seq<int>, v: int) -> bool {
    exists|p: int| 0 <= p < perm.len() && #[trigger] perm[p] == v
}

/// `after` is `before` rearranged so that position `p` holds the record that
/// stood at `perm[p]`, each old position landing at exactly one new one; no record sorts strictly before one to its left;
/// and two records trade places only when the one moved ahead sorts strictly
/// before the other.
pub open spec fn stable_sort_of<D: Ord>(
    before: Seq<Record<D>>,
    after: Seq<Record<D>>,
    perm: Seq<int>,
    k: Seq<char>,
    ascending: bool,
) -> bool {
    &&& perm.len() == before.len()
    &&& after.len() == before.len()
    &&& forall|p: int| 0 <= p < perm.len() ==> 0 <= #[trigger] perm[p] < before.len()
    &&& forall|p: int| 0 <= p < perm.len() ==> #[trigger] after[p] == before[perm[p]]
    &&& forall|p: int, q: int| 0 <= p < q < perm.len() ==> #[trigger] perm[p] != #[trigger] perm[q]
    &&& forall|v: int| 0 <= v < before.len() ==> #[trigger] is_hit(perm, v)
    &&& forall|p: int, q: int|
        0 <= p < q < after.len() ==> !sorts_before(#[trigger] after[q], #[trigger] after[p], k, ascending)
    &&& forall|p: int, q: int|
        0 <= p < q < perm.len() && #[trigger] perm[p] > #[trigger] perm[q] ==> sorts_before(
            after[p],
            after[q],
            k,
            ascending,
        )
}

/// No value of a lawfully ordered type sorts strictly before itself, and
/// a strict order never holds both ways.
pub proof fn lemma_cell_order_strict<D: Ord>(a: Option<D>, b: Option<D>, ascending: bool)
    requires
        obeys_cmp::<D>(),
    ensures
        cell_order(a, a, ascending) != Ordering::Less,
        cell_order(a, b, ascending) == Ordering::Less ==> cell_order(b, a, ascending)
            != Ordering::Less,
{
    reveal(obeys_cmp_ord);
    reveal(obeys_partial_cmp_spec_properties);
    match (a, b) {
        (Some(x), Some(y)) => {
            assert(x.partial_cmp_spec(&x) == Some(x.cmp_spec(&x)));
            assert(x.partial_cmp_spec(&y) == Some(x.cmp_spec(&y)));
            assert(y.partial_cmp_spec(&x) == Some(y.cmp_spec(&x)));
        },
        (Some(x), None) => {
            assert(x.partial_cmp_spec(&x) == Some(x.cmp_spec(&x)));
        },
        _ => {},
    }
}

proof fn lemma_not_less_trans<D: Ord>(x: D, y: D, z: D)
    requires
        obeys_cmp::<D>(),
        y.cmp_spec(&x) != Ordering::Less,
        z.cmp_spec(&y) != Ordering::Less,
    ensures
        z.cmp_spec(&x) != Ordering::Less,
{
    reveal(obeys_cmp_ord);
    reveal(obeys_partial_cmp_spec_properties);
    reveal(obeys_cmp_partial_ord);
    reveal(obeys_eq_spec_properties);
    assert(x.partial_cmp_spec(&y) == Some(x.cmp_spec(&y)));
    assert(y.partial_cmp_spec(&x) == Some(y.cmp_spec(&x)));
    assert(y.partial_cmp_spec(&z) == Some(y.cmp_spec(&z)));
    assert(z.partial_cmp_spec(&y) == Some(z.cmp_spec(&y)));
    assert(x.partial_cmp_spec(&z) == Some(x.cmp_spec(&z)));
    assert(z.partial_cmp_spec(&x) == Some(z.cmp_spec(&x)));
    assert(x.eq_spec(&y) <==> y.eq_spec(&x));
    assert(z.eq_spec(&y) && y.eq_spec(&x) ==> z.eq_spec(&x));
}

proof fn lemma_option_order_trans<D: Ord>(a: Option<D>, b: Option<D>, c: Option<D>)
    requires
        obeys_cmp::<D>(),
        option_order(b, a) != Ordering::Less,
        option_order(c, b) != Ordering::Less,
    ensures
        option_order(c, a) != Ordering::Less,
{
    match (a, b, c) {
        (Some(x), Some(y), Some(z)) => {
            lemma_not_less_trans(x, y, z);
        },
        _ => {},
    }
}

/// "Not strictly before" is transitive over cells of a lawfully ordered type.
proof fn lemma_cell_order_trans<D: Ord>(a: Option<D>, b: Option<D>, c: Option<D>, ascending: bool)
    requires
        obeys_cmp::<D>(),
        cell_order(b, a, ascending) != Ordering::Less,
        cell_order(c, b, ascending) != Ordering::Less,
    ensures
        cell_order(c, a, ascending) != Ordering::Less,
{
    if ascending {
        lemma_option_order_trans(a, b, c);
    } else {
        lemma_option_order_trans(c, b, a);
    }
}

/// A sequence in which no record sorts strictly before its left neighbour
/// has no record sorting strictly before any record to its left.
proof fn lemma_sorted_throughout<D: Ord>(s: Seq<Record<D>>, k: Seq<char>, ascending: bool)
    requires
        obeys_cmp::<D>(),
        forall|p: int| 0 < p < s.len() ==> !sorts_before(#[trigger] s[p], s[p - 1], k, ascending),
    ensures
        forall|p: int, q: int|
            0 <= p < q < s.len() ==> !sorts_before(#[trigger] s[q], #[trigger] s[p], k, ascending),
{
    assert forall|p: int, q: int| 0 <= p < q < s.len() implies !sorts_before(
        #[trigger] s[q],
        #[trigger] s[p],
        k,
        ascending,
    ) by {
        lemma_sorted_from(s, k, ascending, p, q);
    }
}

proof fn lemma_sorted_from<D: Ord>(s: Seq<Record<D>>, k: Seq<char>, ascending: bool, p: int, q: int)
    requires
        obeys_cmp::<D>(),
        forall|r: int| 0 < r < s.len() ==> !sorts_before(#[trigger] s[r], s[r - 1], k, ascending),
        0 <= p < q < s.len(),
    ensures
        !sorts_before(s[q], s[p], k, ascending),
    decreases q - p,
{
    if q - 1 > p {
        lemma_sorted_from(s, k, ascending, p, q - 1);
        assert(!sorts_before(s[q], s[q - 1], k, ascending));
        lemma_cell_order_trans(s[p].cell(k), s[q - 1].cell(k), s[q].cell(k), ascending);
    } else {
        assert(!sorts_before(s[q], s[q - 1], k, ascending));
    }
}

/// Whether record `a` sorts strictly before record `b` by column `key`.
fn record_before<D: Ord>(a: &Record<D>, b: &Record<D>, key: &String, ascending: bool) -> (r: bool)
    requires
        obeys_cmp::<D>(),
    ensures
        r == sorts_before(*a, *b, key@, ascending),
{
    proof {
        reveal(obeys_cmp_ord);
    }
    let (first, second) = if ascending {
        (a.get_by(key), b.get_by(key))
    } else {
        (b.get_by(key), a.get_by(key))
    };
    match (first, second) {
        (None, Some(_)) => true,
        (Some(x), Some(y)) => matches!(x.cmp(y), Ordering::Less),
        _ => false,
    }
}

/// Where the record now at `p` stood before the record at `i` was moved
/// back to `j`.
spec fn moved_from(p: int, j: int, i: int) -> int {
    if p < j {
        p
    } else if p == j {
        i
    } else if p <= i {
        p - 1
    } else {
        p
    }
}

/// A sequence of distinct positions below its own length holds every one
/// of them.
proof fn lemma_injective_is_onto(perm: Seq<int>)
    requires
        forall|p: int| 0 <= p < perm.len() ==> 0 <= #[trigger] perm[p] < perm.len(),
        forall|p: int, q: int| 0 <= p < q < perm.len() ==> #[trigger] perm[p] != #[trigger] perm[q],
    ensures
        forall|v: int| 0 <= v < perm.len() ==> #[trigger] is_hit(perm, v),
{
    let n = perm.len() as int;
    assert forall|p: int, q: int| 0 <= p < perm.len() && 0 <= q < perm.len() && p != q implies perm[p]
        != perm[q] by {
        if p < q {
            assert(perm[p] != perm[q]);
        } else {
            assert(perm[q] != perm[p]);
        }
    }
    assert(perm.no_duplicates());
    perm.unique_seq_to_set();
    lemma_int_range(0, n);
    assert(perm.to_set().subset_of(set_int_range(0, n)));
    lemma_len_subset(perm.to_set(), set_int_range(0, n));
    lemma_subset_equality(perm.to_set(), set_int_range(0, n));
    assert forall|v: int| 0 <= v < perm.len() implies #[trigger] is_hit(perm, v) by {
        assert(set_int_range(0, n).contains(v));
        assert(perm.to_set().contains(v));
    }
}

/// Sorts `records` stably by the cells they hold under `key`: ascending,
/// records without a cell there come first and the rest follow the item
/// order; descending reverses that whole order; records that tie keep their
/// relative order.
pub fn sort_by_cell<D: Ord>(records: &mut Vec<Record<D>>, key: &str, ascending: bool)
    requires
        obeys_cmp::<D>(),
    ensures
        exists|perm: Seq<int>| stable_sort_of(old(records)@, final(records)@, perm, key@, ascending),
{
    let k = key.to_owned();
    let n = records.len();
    let ghost before = records@;
    let ghost mut perm: Seq<int> = Seq::new(n as nat, |p: int| p);
    let mut i: usize = 0;
    while i < n
        invariant
            obeys_cmp::<D>(),
            k@ == key@,
            before.len() == n,
            records@.len() == n,
            perm.len() == n,
            i <= n,
            forall|p: int| 0 <= p < n ==> 0 <= #[trigger] perm[p] < n,
            forall|p: int| 0 <= p < n ==> #[trigger] records@[p] == before[perm[p]],
            forall|p: int, q: int| 0 <= p < q < n ==> #[trigger] perm[p] != #[trigger] perm[q],
            forall|p: int| i <= p < n ==> #[trigger] perm[p] == p,
            forall|p: int| 0 <= p < i ==> #[trigger] perm[p] < i,
            forall|p: int|
                0 < p < i ==> !sorts_before(#[trigger] records@[p], records@[p - 1], k@, ascending),
            forall|p: int, q: int|
                0 <= p < q < n && #[trigger] perm[p] > #[trigger] perm[q] ==> sorts_before(
                    records@[p],
                    records@[q],
                    k@,
                    ascending,
                ),
        decreases n - i,
    {
        let ghost s = records@;
        let x = records.remove(i);
        let mut j: usize = i;
        while j > 0 && record_before(&x, &records[j - 1], &k, ascending)
            invariant
                obeys_cmp::<D>(),
                records@ == s.remove(i as int),
                s.len() == n,
                i < n,
                x == s[i as int],
                j <= i,
                forall|m: int| j <= m < i ==> sorts_before(x, #[trigger] s[m], k@, ascending),
            decreases j,
        {
            j = j - 1;
        }
        records.insert(j, x);
        proof {
            let jj = j as int;
            let ii = i as int;
            let r = records@;
            let old_perm = perm;
            assert(forall|p: int| 0 <= p < n ==> #[trigger] r[p] == s[moved_from(p, jj, ii)]);
            perm = Seq::new(n as nat, |p: int| old_perm[moved_from(p, jj, ii)]);
            assert forall|p: int, q: int| 0 <= p < q < n implies #[trigger] perm[p] != #[trigger] perm[q] by {
                let a = moved_from(p, jj, ii);
                let b = moved_from(q, jj, ii);
                if a < b {
                    assert(old_perm[a] != old_perm[b]);
                } else {
                    assert(old_perm[b] != old_perm[a]);
                }
            }
            assert forall|p: int| 0 < p < ii + 1 implies !sorts_before(#[trigger] r[p], r[p - 1], k@, ascending) by {
                if p == jj + 1 {
                    lemma_cell_order_strict(x.cell(k@), s[jj].cell(k@), ascending);
                }
            }
            assert forall|p: int, q: int|
                0 <= p < q < n && #[trigger] perm[p] > #[trigger] perm[q] implies sorts_before(
                    r[p],
                    r[q],
                    k@,
                    ascending,
                ) by {
                let a = moved_from(p, jj, ii);
                let b = moved_from(q, jj, ii);
                if p != jj && q != jj {
                    assert(old_perm[a] > old_perm[b]);
                }
            }
        }
        i = i + 1;
    }
    proof {
        lemma_sorted_throughout(records@, key@, ascending);
        lemma_injective_is_onto(perm);
        assert(stable_sort_of(before, records@, perm, key@, ascending));
    }
}

} // verus!
