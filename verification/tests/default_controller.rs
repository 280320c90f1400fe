use grid_group::action::{GroupingError, MoveGroupRowContext};
use grid_group::default_controller::DefaultGroupController;
use grid_group::entities::{Cell, Field, FieldType, Row, RowSummary};

fn text_field(id: &str) -> Field {
    Field { id: id.to_owned(), field_type: FieldType::RichText, options: vec![] }
}

fn row(id: &str) -> Row {
    Row { id: id.to_owned(), block_id: "b1".to_owned(), height: 60, cells: vec![] }
}

fn summary(id: &str) -> RowSummary {
    RowSummary { id: id.to_owned(), block_id: "b1".to_owned(), height: 60 }
}

#[test]
fn new_controller_has_one_empty_default_group() {
    let c = DefaultGroupController::new(&text_field("f1"));
    assert_eq!(c.field_id(), "f1");
    let groups = c.groups();
    assert_eq!(groups.len(), 1);
    assert_eq!(groups[0].id, "DefaultGroupController");
    assert_eq!(groups[0].field_id, "f1");
    assert_eq!(groups[0].name, "");
    assert!(groups[0].is_default);
    assert!(groups[0].rows.is_empty());
}

#[test]
fn fill_groups_puts_every_row_in_the_one_group_in_order() {
    let field = text_field("f1");
    let mut c = DefaultGroupController::new(&field);
    let rows = vec![row("r1"), row("r2"), row("r3")];
    assert_eq!(c.fill_groups(&rows, &field), Ok(()));
    let groups = c.groups();
    assert_eq!(groups.len(), 1);
    assert_eq!(groups[0].id, "DefaultGroupController");
    assert_eq!(groups[0].field_id, "f1");
    assert_eq!(groups[0].rows, vec![summary("r1"), summary("r2"), summary("r3")]);
}

#[test]
fn fill_groups_twice_is_the_same_as_once() {
    let field = text_field("f1");
    let mut c = DefaultGroupController::new(&field);
    let rows = vec![row("r1"), row("r2"), row("r3")];
    c.fill_groups(&rows, &field).unwrap();
    let once = c.clone();
    c.fill_groups(&rows, &field).unwrap();
    assert_eq!(c, once);
}

#[test]
fn fill_groups_skips_a_row_id_that_is_already_there() {
    let field = text_field("f1");
    let mut c = DefaultGroupController::new(&field);
    let mut second = row("r1");
    second.height = 99;
    let rows = vec![row("r1"), row("r2"), second, row("r3")];
    c.fill_groups(&rows, &field).unwrap();
    assert_eq!(c.group.rows, vec![summary("r1"), summary("r2"), summary("r3")]);
    c.fill_groups(&[row("r4"), row("r2")], &field).unwrap();
    assert_eq!(c.group.rows, vec![summary("r1"), summary("r2"), summary("r3"), summary("r4")]);
}

#[test]
fn fill_groups_with_no_rows_leaves_the_group_empty() {
    let field = text_field("f1");
    let mut c = DefaultGroupController::new(&field);
    assert_eq!(c.fill_groups(&[], &field), Ok(()));
    assert!(c.group.rows.is_empty());
    assert!(c.group.is_empty());
    assert_eq!(c.group.number_of_rows(), 0);
}

#[test]
fn summary_keeps_id_block_and_height_of_the_row() {
    let r = Row {
        id: "r7".to_owned(),
        block_id: "b9".to_owned(),
        height: 42,
        cells: vec![Cell { field_id: "f1".to_owned(), data: "x".to_owned() }],
    };
    let s = RowSummary::from_row(&r);
    assert_eq!(s, RowSummary { id: "r7".to_owned(), block_id: "b9".to_owned(), height: 42 });
    assert_eq!(s.duplicate(), s);
}

#[test]
fn get_group_finds_the_one_group_by_its_id() {
    let field = text_field("f1");
    let mut c = DefaultGroupController::new(&field);
    c.fill_groups(&[row("r1")], &field).unwrap();
    let (index, group) = c.get_group("DefaultGroupController").unwrap();
    assert_eq!(index, 0);
    assert_eq!(group, c.group);
    assert_eq!(c.get_group("x"), None);
}

#[test]
fn move_group_succeeds_and_changes_nothing() {
    let field = text_field("f1");
    let mut c = DefaultGroupController::new(&field);
    c.fill_groups(&[row("r1"), row("r2"), row("r3")], &field).unwrap();
    let before = c.clone();
    assert_eq!(c.move_group("x", "y"), Ok::<(), GroupingError>(()));
    assert_eq!(c, before);
}

#[test]
fn did_update_group_row_reports_no_change() {
    let field = text_field("f1");
    let mut c = DefaultGroupController::new(&field);
    c.fill_groups(&[row("r1"), row("r2"), row("r3")], &field).unwrap();
    let before = c.clone();
    let res = c.did_update_group_row(&Some(row("r1")), &row("r1"), &field).unwrap();
    assert_eq!(res.inserted_group, None);
    assert_eq!(res.deleted_group, None);
    assert_eq!(res.row_changesets, vec![]);
    assert_eq!(c, before);
}

#[test]
fn deleting_the_last_row_keeps_the_default_group() {
    let field = text_field("f1");
    let mut c = DefaultGroupController::new(&field);
    c.fill_groups(&[row("r1")], &field).unwrap();
    let before = c.clone();
    let res = c.did_delete_delete_row(&row("r1"), &field).unwrap();
    assert_eq!(res.deleted_group, None);
    assert_eq!(res.row_changesets, vec![]);
    assert_eq!(c, before);
    assert_eq!(c.groups().len(), 1);
}

#[test]
fn move_group_row_reports_no_change() {
    let field = text_field("f1");
    let mut c = DefaultGroupController::new(&field);
    c.fill_groups(&[row("r1"), row("r2")], &field).unwrap();
    let before = c.clone();
    let context = MoveGroupRowContext {
        row_id: "r1".to_owned(),
        from_group_id: "DefaultGroupController".to_owned(),
        to_group_id: "DefaultGroupController".to_owned(),
        to_index: 1,
    };
    let res = c.move_group_row(context).unwrap();
    assert_eq!(res.deleted_group, None);
    assert_eq!(res.row_changesets, vec![]);
    assert_eq!(c, before);
}

#[test]
fn field_update_and_row_creation_hooks_change_nothing() {
    let field = text_field("f1");
    let mut c = DefaultGroupController::new(&field);
    c.fill_groups(&[row("r1")], &field).unwrap();
    let before = c.clone();
    assert_eq!(c.did_update_group_field(&field), Ok(None));
    let mut fresh = row("r2");
    c.will_create_row(&mut fresh, &field, "DefaultGroupController");
    assert_eq!(fresh, row("r2"));
    c.did_create_row(&summary("r2"), "DefaultGroupController");
    assert_eq!(c, before);
}
