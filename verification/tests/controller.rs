use grid_group::action::{GroupChangeset, GroupingError, MoveGroupRowContext, RowChangeset};
use grid_group::controller::{FieldUpdate, GroupController, GroupingStrategy};
use grid_group::entities::{Cell, Field, FieldType, Row, RowSummary, SelectOption};
use grid_group::group::Group;
use grid_group::select_controller::SelectOptionGroupController;

fn opt(id: &str, name: &str) -> SelectOption {
    SelectOption { id: id.to_owned(), name: name.to_owned() }
}

fn field_of(id: &str, field_type: FieldType, options: Vec<SelectOption>) -> Field {
    Field { id: id.to_owned(), field_type, options }
}

fn status_field() -> Field {
    field_of("f2", FieldType::SingleSelect, vec![opt("A", "Alpha"), opt("B", "Beta")])
}

fn valued(id: &str, value: Option<&str>) -> Row {
    let cells = match value {
        Some(v) => vec![Cell { field_id: "f2".to_owned(), data: v.to_owned() }],
        None => vec![],
    };
    Row { id: id.to_owned(), block_id: "b1".to_owned(), height: 60, cells }
}

fn brief(id: &str) -> RowSummary {
    RowSummary { id: id.to_owned(), block_id: "b1".to_owned(), height: 60 }
}

fn some_rows() -> Vec<Row> {
    vec![valued("r1", Some("A")), valued("r2", Some("B")), valued("r3", None)]
}

fn layout(c: &GroupController) -> Vec<(String, Vec<String>)> {
    c.groups()
        .iter()
        .map(|g| (g.id.clone(), g.rows.iter().map(|r| r.id.clone()).collect()))
        .collect()
}

fn expect(layout: &[(&str, &[&str])]) -> Vec<(String, Vec<String>)> {
    layout
        .iter()
        .map(|(g, rows)| (g.to_string(), rows.iter().map(|r| r.to_string()).collect()))
        .collect()
}

#[test]
fn controller_picks_the_strategy_by_the_field_type() {
    let c = GroupController::new(&status_field());
    assert!(matches!(c.strategy, GroupingStrategy::SelectOption(_)));
    assert_eq!(c.field_id(), "f2");
    assert_eq!(layout(&c), expect(&[("f2", &[]), ("A", &[]), ("B", &[])]));
    let d = GroupController::new(&field_of("f1", FieldType::RichText, vec![]));
    assert!(matches!(d.strategy, GroupingStrategy::Default(_)));
    assert_eq!(d.field_id(), "f1");
    assert_eq!(layout(&d), expect(&[("DefaultGroupController", &[])]));
}

#[test]
fn controller_fills_by_option_and_by_default() {
    let field = status_field();
    let mut c = GroupController::new(&field);
    assert_eq!(c.fill_groups(&some_rows(), &field), Ok(()));
    assert_eq!(layout(&c), expect(&[("f2", &["r3"]), ("A", &["r1"]), ("B", &["r2"])]));
    let text = field_of("f1", FieldType::RichText, vec![]);
    let mut d = GroupController::new(&text);
    assert_eq!(d.fill_groups(&some_rows(), &text), Ok(()));
    assert_eq!(layout(&d), expect(&[("DefaultGroupController", &["r1", "r2", "r3"])]));
}

#[test]
fn controller_refuses_snapshots_of_another_field() {
    let text = field_of("f1", FieldType::RichText, vec![]);
    let other = field_of("f9", FieldType::RichText, vec![]);
    let mut d = GroupController::new(&text);
    d.fill_groups(&some_rows(), &text).unwrap();
    let before = d.clone();
    assert_eq!(d.fill_groups(&some_rows(), &other), Err(GroupingError::FieldMismatch));
    assert_eq!(
        d.did_update_group_row(&None, &valued("r1", None), &other),
        Err(GroupingError::FieldMismatch)
    );
    assert_eq!(d.did_delete_delete_row(&valued("r1", None), &other), Err(GroupingError::FieldMismatch));
    assert_eq!(d.did_update_group_field(&other, &some_rows()), Err(GroupingError::FieldMismatch));
    assert_eq!(d, before);
    let mut c = GroupController::new(&status_field());
    assert_eq!(
        c.did_update_group_field(&field_of("f9", FieldType::SingleSelect, vec![]), &[]),
        Err(GroupingError::FieldMismatch)
    );
}

#[test]
fn controller_with_one_group_reports_no_change() {
    let text = field_of("f1", FieldType::RichText, vec![]);
    let mut d = GroupController::new(&text);
    d.fill_groups(&some_rows(), &text).unwrap();
    let before = d.clone();
    assert_eq!(d.move_group("x", "y"), Ok(()));
    let res = d.did_update_group_row(&None, &valued("r1", None), &text).unwrap();
    assert_eq!(res.inserted_group, None);
    assert_eq!(res.deleted_group, None);
    assert!(res.row_changesets.is_empty());
    let res = d.did_delete_delete_row(&valued("r1", None), &text).unwrap();
    assert_eq!(res.deleted_group, None);
    assert!(res.row_changesets.is_empty());
    let context = MoveGroupRowContext {
        row_id: "r1".to_owned(),
        from_group_id: "a".to_owned(),
        to_group_id: "b".to_owned(),
        to_index: 0,
    };
    assert!(d.move_group_row(context).unwrap().row_changesets.is_empty());
    assert_eq!(d.did_update_group_field(&text, &some_rows()), Ok(FieldUpdate::Unchanged));
    d.did_create_row(&brief("r9"), "DefaultGroupController");
    let mut fresh = valued("r9", None);
    d.will_create_row(&mut fresh, &text, "DefaultGroupController");
    assert_eq!(fresh, valued("r9", None));
    assert_eq!(d, before);
    assert_eq!(d.get_group("DefaultGroupController").unwrap().0, 0);
    assert_eq!(d.get_group("x"), None);
}

#[test]
fn controller_hands_moves_to_the_option_strategy() {
    let field = status_field();
    let mut c = GroupController::new(&field);
    c.fill_groups(&some_rows(), &field).unwrap();
    assert_eq!(c.move_group("A", "x"), Err(GroupingError::UnknownGroup));
    assert_eq!(c.move_group("B", "f2"), Ok(()));
    assert_eq!(layout(&c), expect(&[("B", &["r2"]), ("f2", &["r3"]), ("A", &["r1"])]));
    let context = MoveGroupRowContext {
        row_id: "r1".to_owned(),
        from_group_id: "A".to_owned(),
        to_group_id: "B".to_owned(),
        to_index: 0,
    };
    let res = c.move_group_row(context).unwrap();
    assert_eq!(res.deleted_group, Some("A".to_owned()));
    assert_eq!(layout(&c), expect(&[("B", &["r1", "r2"]), ("f2", &["r3"])]));
    let res = c.did_delete_delete_row(&valued("r3", None), &field).unwrap();
    assert_eq!(res.deleted_group, None);
    assert_eq!(layout(&c), expect(&[("B", &["r1", "r2"]), ("f2", &[])]));
    let res = c.did_update_group_row(&None, &valued("r2", Some("A")), &field).unwrap();
    assert_eq!(
        res.row_changesets,
        vec![
            RowChangeset { group_id: "B".to_owned(), row_id: "r2".to_owned(), index: None },
            RowChangeset { group_id: "A".to_owned(), row_id: "r2".to_owned(), index: Some(0) },
        ]
    );
    assert_eq!(layout(&c), expect(&[("B", &["r1"]), ("f2", &[]), ("A", &["r2"])]));
    assert_eq!(c.get_group("A").unwrap().0, 2);
    c.did_create_row(&brief("r7"), "A");
    assert_eq!(layout(&c), expect(&[("B", &["r1"]), ("f2", &[]), ("A", &["r2", "r7"])]));
}

#[test]
fn renaming_an_option_renames_its_group_and_keeps_its_rows() {
    let field = status_field();
    let mut c = GroupController::new(&field);
    c.fill_groups(&some_rows(), &field).unwrap();
    let renamed = field_of("f2", FieldType::SingleSelect, vec![opt("A", "Apple"), opt("B", "Beta")]);
    let update = c.did_update_group_field(&renamed, &some_rows()).unwrap();
    let mut group = Group::new("A".to_owned(), "f2".to_owned(), "Apple".to_owned(), false);
    group.add_row(brief("r1"));
    assert_eq!(
        update,
        FieldUpdate::Changed(GroupChangeset {
            field_id: "f2".to_owned(),
            inserted_groups: vec![],
            deleted_group_ids: vec![],
            updated_groups: vec![group.clone()],
        })
    );
    assert_eq!(c.get_group("A"), Some((1, group)));
    assert_eq!(layout(&c), expect(&[("f2", &["r3"]), ("A", &["r1"]), ("B", &["r2"])]));
}

#[test]
fn deleting_an_option_moves_its_rows_to_the_default_group() {
    let field = status_field();
    let mut c = SelectOptionGroupController::new(&field).unwrap();
    c.fill_groups(&some_rows(), &field).unwrap();
    c.fill_groups(&[valued("r4", Some("A"))], &field).unwrap();
    let fewer = field_of("f2", FieldType::SingleSelect, vec![opt("B", "Beta"), opt("C", "Gamma")]);
    let changes = c.did_update_group_field(&fewer).unwrap().unwrap();
    assert_eq!(changes.field_id, "f2");
    assert_eq!(changes.deleted_group_ids, vec!["A".to_owned()]);
    assert_eq!(
        changes.inserted_groups,
        vec![Group::new("C".to_owned(), "f2".to_owned(), "Gamma".to_owned(), false)]
    );
    assert!(changes.updated_groups.is_empty());
    let c = GroupController { strategy: GroupingStrategy::SelectOption(c) };
    assert_eq!(layout(&c), expect(&[("f2", &["r3", "r1", "r4"]), ("B", &["r2"]), ("C", &[])]));
}

#[test]
fn a_field_update_that_changes_nothing_reports_none() {
    let field = status_field();
    let mut c = SelectOptionGroupController::new(&field).unwrap();
    c.fill_groups(&some_rows(), &field).unwrap();
    let before = c.clone();
    assert_eq!(c.did_update_group_field(&field), Ok(None));
    assert_eq!(c, before);
    let mut other = status_field();
    other.id = "f9".to_owned();
    assert_eq!(c.did_update_group_field(&other), Err(GroupingError::FieldMismatch));
    let mut text = status_field();
    text.field_type = FieldType::RichText;
    assert_eq!(c.did_update_group_field(&text), Err(GroupingError::RebuildRequired));
    assert_eq!(c, before);
}

#[test]
fn a_change_of_the_field_type_builds_the_grouping_anew() {
    let field = status_field();
    let mut c = GroupController::new(&field);
    c.fill_groups(&some_rows(), &field).unwrap();
    let text = field_of("f2", FieldType::RichText, vec![]);
    assert_eq!(c.did_update_group_field(&text, &some_rows()), Ok(FieldUpdate::Rebuilt));
    assert_eq!(layout(&c), expect(&[("DefaultGroupController", &["r1", "r2", "r3"])]));
    assert_eq!(c.did_update_group_field(&field, &some_rows()), Ok(FieldUpdate::Rebuilt));
    assert_eq!(layout(&c), expect(&[("f2", &["r3"]), ("A", &["r1"]), ("B", &["r2"])]));
}

#[test]
fn will_create_row_sets_the_value_so_that_the_row_lands_in_the_group() {
    let field = status_field();
    let mut c = GroupController::new(&field);
    c.fill_groups(&some_rows(), &field).unwrap();
    let mut fresh = valued("r8", None);
    c.will_create_row(&mut fresh, &field, "B");
    assert_eq!(fresh, valued("r8", Some("B")));
    c.will_create_row(&mut fresh, &field, "A");
    assert_eq!(fresh, valued("r8", Some("A")));
    c.will_create_row(&mut fresh, &field, "f2");
    c.will_create_row(&mut fresh, &field, "nope");
    assert_eq!(fresh, valued("r8", Some("A")));
    c.fill_groups(&[fresh], &field).unwrap();
    assert_eq!(layout(&c), expect(&[("f2", &["r3"]), ("A", &["r1", "r8"]), ("B", &["r2"])]));
}

#[test]
fn stamp_sets_the_first_cell_of_the_field_or_adds_one() {
    let mut r = Row {
        id: "r1".to_owned(),
        block_id: "b1".to_owned(),
        height: 60,
        cells: vec![
            Cell { field_id: "f1".to_owned(), data: "x".to_owned() },
            Cell { field_id: "f2".to_owned(), data: "A".to_owned() },
            Cell { field_id: "f2".to_owned(), data: "B".to_owned() },
        ],
    };
    r.stamp("f2", "C");
    assert_eq!(r.index_of_cell("f2"), Some(1));
    assert_eq!(r.cells[1].data, "C");
    assert_eq!(r.cells[2].data, "B");
    r.stamp("f3", "D");
    assert_eq!(r.cells.len(), 4);
    assert_eq!(r.value_of("f3"), Some("D"));
    assert_eq!(r.index_of_cell("f4"), None);
}
