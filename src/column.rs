//! Column definitions and the insertion-ordered registry that holds them.
use vstd::prelude::*;
use indexmap::IndexMap;
use crate::width::ColumnWidth;

verus! {

/// Where a column's cells sit horizontally.
#[derive(Clone, Copy, Debug, PartialEq, Eq, Structural)]
pub enum Alignment {
    Start,
    Center,
    End,
}

#[verifier::external_type_specification]
#[verifier::external_body]
#[verifier::reject_recursive_types(K)]
#[verifier::reject_recursive_types(V)]
#[verifier::reject_recursive_types(S)]
pub struct ExIndexMap<K, V, S>(IndexMap<K, V, S>);

/// How one column is shown: its title, width policy and alignment, and
/// whether it is marked selected.
pub struct ColumnDef {
    title: String,
    width: ColumnWidth,
    alignment: Alignment,
    selected: bool,
}

impl ColumnDef {
    /// The title.
    pub closed spec fn title_view(&self) -> Seq<char> {
        self.title@
    }

    /// The width policy.
    pub closed spec fn width_view(&self) -> ColumnWidth {
        self.width
    }

    /// The alignment.
    pub closed spec fn alignment_view(&self) -> Alignment {
        self.alignment
    }

    /// Whether the column is marked selected.
    pub closed spec fn selected_view(&self) -> bool {
        self.selected
    }

    /// A column with the given title, width policy and alignment, not selected.
    pub fn new(title: String, width: ColumnWidth, alignment: Alignment) -> (r: Self)
        ensures
            r.title_view() == title@,
            r.width_view() == width,
            r.alignment_view() == alignment,
            !r.selected_view(),
    {
        ColumnDef { title, width, alignment, selected: false }
    }

    /// The title shown in the header.
    pub fn title(&self) -> (r: &String)
        ensures
            r@ == self.title_view(),
    {
        &self.title
    }

    /// The width policy.
    pub fn width(&self) -> (r: ColumnWidth)
        ensures
            r == self.width_view(),
    {
        self.width
    }

    /// The horizontal alignment of the column's cells.
    pub fn alignment(&self) -> (r: Alignment)
        ensures
            r == self.alignment_view(),
    {
        self.alignment
    }

    /// Whether the column is marked selected.
    pub fn is_selected(&self) -> (r: bool)
        ensures
            r == self.selected_view(),
    {
        self.selected
    }

    /// Marks or unmarks the column as selected.
    pub fn set_selected(&mut self, selected: bool)
        ensures
            final(self).title_view() == old(self).title_view(),
            final(self).width_view() == old(self).width_view(),
            final(self).alignment_view() == old(self).alignment_view(),
            final(self).selected_view() == selected,
    {
        self.selected = selected;
    }
}

/// The entries of a column map, as (key, definition) pairs in iteration order.
pub uninterp spec fn column_entries(m: IndexMap<String, ColumnDef>) -> Seq<(Seq<char>, ColumnDef)>;

/// Position of the entry with key `k`, searching from the end.
pub open spec fn index_of_key(e: Seq<(Seq<char>, ColumnDef)>, k: Seq<char>) -> Option<int>
    decreases e.len(),
{
    if e.len() == 0 {
        None
    } else if e.last().0 == k {
        Some(e.len() - 1)
    } else {
        index_of_key(e.drop_last(), k)
    }
}

/// No two entries share a key.
pub open spec fn keys_unique(e: Seq<(Seq<char>, ColumnDef)>) -> bool {
    forall|i: int, j: int| 0 <= i < j < e.len() ==> #[trigger] e[i].0 != #[trigger] e[j].0
}

/// The keys of the entries, in order.
pub open spec fn keys_of(e: Seq<(Seq<char>, ColumnDef)>) -> Seq<Seq<char>> {
    e.map_values(|p: (Seq<char>, ColumnDef)| p.0)
}

/// The entries after inserting `def` under `key`: an existing key keeps its
/// place and takes the new definition, a new key goes last.
pub open spec fn entries_after_insert(e: Seq<(Seq<char>, ColumnDef)>, key: Seq<char>, def: ColumnDef) -> Seq<
    (Seq<char>, ColumnDef),
> {
    match index_of_key(e, key) {
        Some(i) => e.update(i, (key, def)),
        None => e.push((key, def)),
    }
}

/// The entries after removing `key`: the others keep their order.
pub open spec fn entries_after_remove(e: Seq<(Seq<char>, ColumnDef)>, key: Seq<char>) -> Seq<
    (Seq<char>, ColumnDef),
> {
    match index_of_key(e, key) {
        Some(i) => e.remove(i),
        None => e,
    }
}

/// What `index_of_key` finds: the last entry with the key, or none.
pub proof fn lemma_index_of_key(e: Seq<(Seq<char>, ColumnDef)>, k: Seq<char>)
    ensures
        match index_of_key(e, k) {
            Some(i) => 0 <= i < e.len() && e[i].0 == k && forall|j: int|
                i < j < e.len() ==> e[j].0 != k,
            None => forall|j: int| 0 <= j < e.len() ==> e[j].0 != k,
        },
    decreases e.len(),
{
    if e.len() > 0 {
        lemma_index_of_key(e.drop_last(), k);
        assert(forall|j: int| 0 <= j < e.len() - 1 ==> e.drop_last()[j] == e[j]);
    }
}

/// Relies on `IndexMap::new`: a new map has no entries.
#[verifier::external_body]
pub(crate) fn map_new() -> (r: IndexMap<String, ColumnDef>)
    ensures
        column_entries(r) == Seq::<(Seq<char>, ColumnDef)>::empty(),
{
    IndexMap::new()
}

/// Relies on `IndexMap::len`: the number of entries.
#[verifier::external_body]
pub(crate) fn map_len(m: &IndexMap<String, ColumnDef>) -> (r: usize)
    ensures
        r == column_entries(*m).len(),
{
    m.len()
}

/// Relies on `IndexMap::insert`: an existing key keeps its place and gets the
/// new value, returning the old one; a new key is appended last.
#[verifier::external_body]
pub(crate) fn map_insert(m: &mut IndexMap<String, ColumnDef>, key: String, def: ColumnDef) -> (r:
    Option<ColumnDef>)
    ensures
        match index_of_key(column_entries(*old(m)), key@) {
            Some(i) => r == Some(column_entries(*old(m))[i].1) && column_entries(*final(m))
                == column_entries(*old(m)).update(i, (key@, def)),
            None => r is None && column_entries(*final(m)) == column_entries(*old(m)).push((key@, def)),
        },
{
    m.insert(key, def)
}

/// Relies on `IndexMap::shift_remove`: the entry with the key is taken out
/// and those after it move up one place, keeping their order.
#[verifier::external_body]
pub(crate) fn map_shift_remove(m: &mut IndexMap<String, ColumnDef>, key: &str) -> (r: Option<
    ColumnDef,
>)
    ensures
        match index_of_key(column_entries(*old(m)), key@) {
            Some(i) => r == Some(column_entries(*old(m))[i].1) && column_entries(*final(m))
                == column_entries(*old(m)).remove(i),
            None => r is None && column_entries(*final(m)) == column_entries(*old(m)),
        },
{
    m.shift_remove(key)
}

/// Relies on `IndexMap::pop`: the last entry is taken out, if there is one.
#[verifier::external_body]
pub(crate) fn map_pop(m: &mut IndexMap<String, ColumnDef>) -> (r: Option<(String, ColumnDef)>)
    ensures
        column_entries(*old(m)).len() == 0 ==> r is None && column_entries(*final(m))
            == column_entries(*old(m)),
        column_entries(*old(m)).len() > 0 ==> (r matches Some(p) && p.0@ == column_entries(*old(m)).last().0
            && p.1 == column_entries(*old(m)).last().1),
        column_entries(*old(m)).len() > 0 ==> column_entries(*final(m)) == column_entries(*old(m)).drop_last(),
{
    m.pop()
}

/// Relies on `IndexMap::get_index_of`: the position of the key, if present.
#[verifier::external_body]
pub(crate) fn map_index_of(m: &IndexMap<String, ColumnDef>, key: &str) -> (r: Option<usize>)
    ensures
        match index_of_key(column_entries(*m), key@) {
            Some(i) => r == Some(i as usize),
            None => r is None,
        },
{
    m.get_index_of(key)
}

/// Relies on `IndexMap::get_index`: the key of the entry at a position.
#[verifier::external_body]
pub(crate) fn map_key_at(m: &IndexMap<String, ColumnDef>, index: usize) -> (r: Option<String>)
    ensures
        match r {
            Some(k) => index < column_entries(*m).len() && k@ == column_entries(*m)[index as int].0,
            None => index >= column_entries(*m).len(),
        },
{
    m.get_index(index).map(|(k, _)| k.clone())
}

} // verus!
