use grid_group::entities::{same_value, RowSummary};
use grid_group::group::Group;

fn summary(id: &str, height: i32) -> RowSummary {
    RowSummary { id: id.to_owned(), block_id: "b1".to_owned(), height }
}

#[test]
fn add_row_appends_a_new_id_and_skips_a_known_one() {
    let mut g = Group::new("g".to_owned(), "f".to_owned(), "name".to_owned(), false);
    assert!(g.is_empty());
    g.add_row(summary("r1", 1));
    g.add_row(summary("r2", 2));
    g.add_row(summary("r1", 3));
    assert_eq!(g.rows, vec![summary("r1", 1), summary("r2", 2)]);
    assert_eq!(g.number_of_rows(), 2);
    assert!(!g.is_empty());
}

#[test]
fn index_of_row_and_contains_row() {
    let mut g = Group::new("g".to_owned(), "f".to_owned(), "name".to_owned(), false);
    g.add_row(summary("r1", 1));
    g.add_row(summary("r2", 2));
    assert_eq!(g.index_of_row("r2"), Some(1));
    assert_eq!(g.index_of_row("r3"), None);
    assert!(g.contains_row("r1"));
    assert!(!g.contains_row("r3"));
}

#[test]
fn snapshot_equals_the_group() {
    let mut g = Group::new("g".to_owned(), "f".to_owned(), "name".to_owned(), true);
    g.add_row(summary("r1", 1));
    g.add_row(summary("r2", 2));
    let copy = g.snapshot();
    assert_eq!(copy, g);
    assert_eq!(copy.id, "g");
    assert_eq!(copy.field_id, "f");
    assert_eq!(copy.name, "name");
    assert!(copy.is_default);
}

#[test]
fn same_value_compares_present_and_absent_values() {
    assert!(same_value(Some("a"), Some("a")));
    assert!(!same_value(Some("a"), Some("b")));
    assert!(!same_value(Some("a"), None));
    assert!(!same_value(None, Some("a")));
    assert!(same_value(None, None));
}
