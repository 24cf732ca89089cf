use spreadsheet_view::{Alignment, ColumnDef, ColumnWidth, Record, SpreadsheetView};

fn col(title: &str) -> ColumnDef {
    ColumnDef::new(title.to_string(), ColumnWidth::Auto, Alignment::Start)
}

fn rec(pairs: &[(&str, &str)]) -> Record<String> {
    let mut r = Record::new();
    for (k, v) in pairs {
        r.insert(k.to_string(), v.to_string());
    }
    r
}

fn names(view: &SpreadsheetView<String>) -> Vec<String> {
    let mut out = Vec::new();
    for i in 0..view.len_records() {
        let r = view.record(i).unwrap();
        out.push(r.get("name").cloned().unwrap_or_default());
    }
    out
}

#[test]
fn bounds_of_each_policy() {
    assert_eq!(ColumnWidth::Auto.bounds(), (0, None));
    assert_eq!(ColumnWidth::Min(3).bounds(), (3, None));
    assert_eq!(ColumnWidth::Max(7).bounds(), (0, Some(7)));
    assert_eq!(ColumnWidth::Bound(4, 6).bounds(), (4, Some(10)));
    assert_eq!(ColumnWidth::Fixed(5).bounds(), (5, Some(5)));
}

#[test]
fn record_insert_replaces_value() {
    let mut r: Record<u32> = Record::new();
    assert_eq!(r.insert("a".to_string(), 1), None);
    assert_eq!(r.insert("b".to_string(), 2), None);
    assert_eq!(r.insert("a".to_string(), 3), Some(1));
    assert_eq!(r.get("a"), Some(&3));
    assert_eq!(r.get("b"), Some(&2));
    assert_eq!(r.get("c"), None);
}

#[test]
fn columns_keep_first_insertion_order() {
    let mut v: SpreadsheetView<String> = SpreadsheetView::new();
    v.push_column("a".to_string(), col("A"));
    v.push_column("b".to_string(), col("B"));
    v.push_column("c".to_string(), col("C"));
    v.push_column("a".to_string(), col("A2"));
    assert_eq!(v.column_keys(), vec!["a", "b", "c"]);
    assert_eq!(v.remove_column("b").map(|d| d.title().clone()), Some("B".to_string()));
    assert_eq!(v.column_keys(), vec!["a", "c"]);
    v.push_column("b".to_string(), col("B"));
    assert_eq!(v.column_keys(), vec!["a", "c", "b"]);
    assert_eq!(v.column_index("c"), Some(1));
    assert_eq!(v.column_key(2), Some("b".to_string()));
    assert_eq!(v.column_key(3), None);
}

#[test]
fn replacing_a_column_returns_nothing_to_caller_but_updates_title() {
    let mut v: SpreadsheetView<String> = SpreadsheetView::new();
    v.push_column("a".to_string(), col("A"));
    v.push_column("a".to_string(), col("A2"));
    assert_eq!(v.len_columns(), 1);
    assert_eq!(v.remove_column("a").map(|d| d.title().clone()), Some("A2".to_string()));
}

#[test]
fn remove_missing_column_is_noop() {
    let mut v: SpreadsheetView<String> = SpreadsheetView::new();
    v.push_column("a".to_string(), col("A"));
    assert!(v.remove_column("zzz").is_none());
    assert_eq!(v.len_columns(), 1);
}

#[test]
fn pop_column_takes_last() {
    let mut v: SpreadsheetView<String> = SpreadsheetView::new();
    assert!(v.pop_column().is_none());
    v.push_column("a".to_string(), col("A"));
    v.push_column("b".to_string(), col("B"));
    assert_eq!(v.pop_column().map(|d| d.title().clone()), Some("B".to_string()));
    assert_eq!(v.column_keys(), vec!["a"]);
}

#[test]
fn end_to_end_multi_key_sort() {
    let mut v: SpreadsheetView<String> = SpreadsheetView::new();
    v.push_column("name".to_string(), col("Name"));
    v.push_column("dept".to_string(), col("Dept"));
    v.push_record(rec(&[("name", "Bob"), ("dept", "B")]));
    v.push_record(rec(&[("name", "Amy"), ("dept", "A")]));
    v.push_record(rec(&[("name", "Cid"), ("dept", "A")]));
    v.sort_records("dept", true);
    v.sort_records("name", true);
    assert_eq!(names(&v), vec!["Amy", "Bob", "Cid"]);
    v.sort_records("dept", true);
    assert_eq!(names(&v), vec!["Amy", "Cid", "Bob"]);
}

#[test]
fn sort_is_stable_in_both_directions() {
    let mut v: SpreadsheetView<String> = SpreadsheetView::new();
    v.push_column("name".to_string(), col("Name"));
    v.push_column("dept".to_string(), col("Dept"));
    v.push_record(rec(&[("name", "Bob"), ("dept", "B")]));
    v.push_record(rec(&[("name", "Amy"), ("dept", "A")]));
    v.push_record(rec(&[("name", "Dan"), ("dept", "B")]));
    v.push_record(rec(&[("name", "Cid"), ("dept", "A")]));
    v.sort_records("dept", false);
    assert_eq!(names(&v), vec!["Bob", "Dan", "Amy", "Cid"]);
    v.sort_records("dept", true);
    assert_eq!(names(&v), vec!["Amy", "Cid", "Bob", "Dan"]);
}

#[test]
fn absent_cells_first_ascending_last_descending() {
    let mut v: SpreadsheetView<String> = SpreadsheetView::new();
    v.push_column("name".to_string(), col("Name"));
    v.push_column("dept".to_string(), col("Dept"));
    v.push_record(rec(&[("name", "Bob"), ("dept", "B")]));
    v.push_record(rec(&[("name", "Eve")]));
    v.push_record(rec(&[("name", "Amy"), ("dept", "A")]));
    v.sort_records("dept", true);
    assert_eq!(names(&v), vec!["Eve", "Amy", "Bob"]);
    v.sort_records("dept", false);
    assert_eq!(names(&v), vec!["Bob", "Amy", "Eve"]);
}

#[test]
fn sort_on_unknown_column_is_noop() {
    let mut v: SpreadsheetView<String> = SpreadsheetView::new();
    v.push_column("name".to_string(), col("Name"));
    v.push_record(rec(&[("name", "Cid")]));
    v.push_record(rec(&[("name", "Amy")]));
    v.sort_records("nonexistent", true);
    assert_eq!(names(&v), vec!["Cid", "Amy"]);
}

#[test]
fn cursor_is_clamped() {
    let mut v: SpreadsheetView<String> = SpreadsheetView::new();
    v.push_column("a".to_string(), col("A"));
    v.push_column("b".to_string(), col("B"));
    v.extend_records(vec![rec(&[]), rec(&[]), rec(&[])]);
    v.set_cursor_pos(1, 1);
    assert_eq!(v.cursor_pos(), Some((1, 1)));
    v.set_cursor_pos(10, 20);
    assert_eq!(v.cursor_pos(), Some((1, 2)));
    v.pop_record();
    assert_eq!(v.cursor_pos(), Some((1, 1)));
}

#[test]
fn cursor_absent_without_columns_or_records() {
    let mut v: SpreadsheetView<String> = SpreadsheetView::new();
    v.set_cursor_pos(0, 0);
    assert_eq!(v.cursor_pos(), None);
    v.push_column("a".to_string(), col("A"));
    v.set_cursor_pos(3, 3);
    assert_eq!(v.cursor_pos(), None);
    v.push_record(rec(&[]));
    assert_eq!(v.cursor_pos(), Some((0, 0)));
    v.clear_records();
    assert_eq!(v.cursor_pos(), None);
}

#[test]
fn record_without_columns_then_cursor() {
    let mut v: SpreadsheetView<String> = SpreadsheetView::new();
    v.push_record(rec(&[("x", "1")]));
    assert_eq!(v.len_records(), 1);
    v.set_cursor_pos(0, 0);
    assert_eq!(v.cursor_pos(), None);
    v.push_column("x".to_string(), col("X"));
    v.set_cursor_pos(0, 0);
    assert_eq!(v.cursor_pos(), Some((0, 0)));
}

#[test]
fn remove_record_bounds() {
    let mut v: SpreadsheetView<String> = SpreadsheetView::new();
    v.push_record(rec(&[("name", "a")]));
    v.push_record(rec(&[("name", "b")]));
    v.push_record(rec(&[("name", "c")]));
    assert!(v.remove_record(3).is_none());
    assert_eq!(names(&v), vec!["a", "b", "c"]);
    let r = v.remove_record(1).unwrap();
    assert_eq!(r.get("name"), Some(&"b".to_string()));
    assert_eq!(names(&v), vec!["a", "c"]);
    assert_eq!(v.pop_record().and_then(|r| r.get("name").cloned()), Some("c".to_string()));
}

#[test]
fn selecting_twice_keeps_size() {
    let mut v: SpreadsheetView<String> = SpreadsheetView::new();
    v.select_cell(1, 2);
    assert_eq!(v.selection_len(), 1);
    v.select_cell(1, 2);
    assert_eq!(v.selection_len(), 1);
    assert!(v.is_cell_selected(1, 2));
    v.deselect_cell(1, 2);
    assert_eq!(v.selection_len(), 0);
    v.deselect_cell(1, 2);
    assert_eq!(v.selection_len(), 0);
}

#[test]
fn column_select_expands_to_all_rows() {
    let mut v: SpreadsheetView<String> = SpreadsheetView::new();
    v.extend_records(vec![rec(&[]), rec(&[]), rec(&[])]);
    v.set_column_select(true);
    assert!(v.is_column_select());
    v.select_cell(2, 0);
    assert_eq!(v.selection_len(), 3);
    assert!(v.is_cell_selected(2, 0));
    assert!(v.is_cell_selected(2, 2));
    assert!(!v.is_cell_selected(1, 0));
    v.clear_selection();
    assert_eq!(v.selection_len(), 0);
}

#[test]
fn disabled_view_ignores_cursor_and_selection() {
    let mut v: SpreadsheetView<String> = SpreadsheetView::default();
    v.push_column("a".to_string(), col("A"));
    v.push_column("b".to_string(), col("B"));
    v.extend_records(vec![rec(&[]), rec(&[])]);
    v.disable();
    assert!(!v.is_enabled());
    v.set_cursor_pos(1, 1);
    assert_eq!(v.cursor_pos(), Some((0, 0)));
    v.select_cell(0, 0);
    assert_eq!(v.selection_len(), 0);
    v.set_enabled(true);
    v.set_cursor_pos(1, 1);
    assert_eq!(v.cursor_pos(), Some((1, 1)));
    v.enable();
    assert!(v.is_enabled());
}

#[test]
fn chained_builders() {
    let mut v: SpreadsheetView<u32> = SpreadsheetView::new();
    let mut r = Record::new();
    r.insert("n".to_string(), 5u32);
    v.with_column("n".to_string(), ColumnDef::new("N".to_string(), ColumnWidth::Fixed(4), Alignment::End))
        .with_record(r)
        .with_records(vec![Record::new()]);
    assert_eq!(v.len_columns(), 1);
    assert_eq!(v.len_records(), 2);
    v.sort_records("n", true);
    assert_eq!(v.record(0).unwrap().get("n"), None);
    assert_eq!(v.record(1).unwrap().get("n"), Some(&5));
}

#[test]
fn column_def_accessors() {
    let mut d = ColumnDef::new("T".to_string(), ColumnWidth::Bound(2, 3), Alignment::Center);
    assert_eq!(d.title(), "T");
    assert_eq!(d.width(), ColumnWidth::Bound(2, 3));
    assert_eq!(d.alignment(), Alignment::Center);
    assert!(!d.is_selected());
    d.set_selected(true);
    assert!(d.is_selected());
}
