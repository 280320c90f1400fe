use grid_group::action::{GroupingError, MoveGroupRowContext, RowChangeset};
use grid_group::entities::{Cell, Field, FieldType, Row, RowSummary, SelectOption};
use grid_group::group::Group;
use grid_group::select_controller::SelectOptionGroupController;

fn option(id: &str, name: &str) -> SelectOption {
    SelectOption { id: id.to_owned(), name: name.to_owned() }
}

fn select_field() -> Field {
    Field {
        id: "f2".to_owned(),
        field_type: FieldType::SingleSelect,
        options: vec![option("A", "Alpha"), option("B", "Beta")],
    }
}

fn row_with(id: &str, value: Option<&str>) -> Row {
    let cells = match value {
        Some(v) => vec![
            Cell { field_id: "f1".to_owned(), data: "other".to_owned() },
            Cell { field_id: "f2".to_owned(), data: v.to_owned() },
        ],
        None => vec![Cell { field_id: "f1".to_owned(), data: "other".to_owned() }],
    };
    Row { id: id.to_owned(), block_id: "b1".to_owned(), height: 60, cells }
}

fn summary_of(id: &str) -> RowSummary {
    RowSummary { id: id.to_owned(), block_id: "b1".to_owned(), height: 60 }
}

fn ids_of(group: &Group) -> Vec<String> {
    group.rows.iter().map(|r| r.id.clone()).collect()
}

fn group_ids_of(c: &SelectOptionGroupController) -> Vec<String> {
    c.groups().iter().map(|g| g.id.clone()).collect()
}

fn change(group: &str, row: &str, index: Option<usize>) -> RowChangeset {
    RowChangeset { group_id: group.to_owned(), row_id: row.to_owned(), index }
}

fn filled_controller() -> SelectOptionGroupController {
    let field = select_field();
    let mut c = SelectOptionGroupController::new(&field).unwrap();
    let rows = vec![
        row_with("r1", Some("A")),
        row_with("r2", Some("B")),
        row_with("r3", None),
        row_with("r4", Some("B")),
        row_with("r5", Some("Z")),
    ];
    c.fill_groups(&rows, &field).unwrap();
    c
}

fn count_of(c: &SelectOptionGroupController, row_id: &str) -> usize {
    c.groups().iter().map(|g| g.rows.iter().filter(|r| r.id == row_id).count()).sum()
}

#[test]
fn new_makes_the_default_group_and_one_group_for_each_option() {
    let c = SelectOptionGroupController::new(&select_field()).unwrap();
    assert_eq!(c.field_id(), "f2");
    assert_eq!(
        c.groups,
        vec![
            Group::new("f2".to_owned(), "f2".to_owned(), "".to_owned(), true),
            Group::new("A".to_owned(), "f2".to_owned(), "Alpha".to_owned(), false),
            Group::new("B".to_owned(), "f2".to_owned(), "Beta".to_owned(), false),
        ]
    );
}

#[test]
fn new_skips_an_option_whose_id_is_taken() {
    let mut field = select_field();
    field.options.push(option("A", "Again"));
    field.options.push(option("f2", "Field"));
    let c = SelectOptionGroupController::new(&field).unwrap();
    assert_eq!(group_ids_of(&c), vec!["f2", "A", "B"]);
    assert_eq!(c.groups[1].name, "Alpha");
}

#[test]
fn new_refuses_a_field_that_is_no_select_field() {
    let mut field = select_field();
    field.field_type = FieldType::Number;
    assert_eq!(SelectOptionGroupController::new(&field), Err(GroupingError::InvalidFieldType));
    field.field_type = FieldType::MultiSelect;
    assert!(SelectOptionGroupController::new(&field).is_ok());
}

#[test]
fn fill_groups_puts_each_row_in_the_group_of_its_option() {
    let c = filled_controller();
    assert_eq!(group_ids_of(&c), vec!["f2", "A", "B"]);
    assert_eq!(ids_of(&c.groups[0]), vec!["r3", "r5"]);
    assert_eq!(ids_of(&c.groups[1]), vec!["r1"]);
    assert_eq!(ids_of(&c.groups[2]), vec!["r2", "r4"]);
    assert_eq!(c.groups[1].rows[0], summary_of("r1"));
}

#[test]
fn fill_groups_holds_every_row_exactly_once() {
    let c = filled_controller();
    for id in ["r1", "r2", "r3", "r4", "r5"] {
        assert_eq!(count_of(&c, id), 1);
    }
}

#[test]
fn fill_groups_twice_gives_the_same_groups() {
    let field = select_field();
    let mut c = filled_controller();
    let once = c.clone();
    let rows = vec![
        row_with("r1", Some("A")),
        row_with("r2", Some("B")),
        row_with("r3", None),
        row_with("r4", Some("B")),
        row_with("r5", Some("Z")),
    ];
    assert_eq!(c.fill_groups(&rows, &field), Ok(()));
    assert_eq!(c, once);
}

#[test]
fn fill_groups_refuses_another_field() {
    let mut c = filled_controller();
    let before = c.clone();
    let mut other = select_field();
    other.id = "f9".to_owned();
    assert_eq!(c.fill_groups(&[row_with("r9", Some("A"))], &other), Err(GroupingError::FieldMismatch));
    assert_eq!(c, before);
}

#[test]
fn get_group_gives_position_and_snapshot_or_none() {
    let c = filled_controller();
    let (index, group) = c.get_group("B").unwrap();
    assert_eq!(index, 2);
    assert_eq!(group, c.groups[2]);
    assert_eq!(c.get_group("nope"), None);
    assert_eq!(c.index_of_group("A"), Some(1));
    assert_eq!(c.place_of_row("r4"), Some((2, 1)));
    assert_eq!(c.place_of_row("r0"), None);
}

#[test]
fn move_group_reorders_the_groups() {
    let mut c = filled_controller();
    assert_eq!(c.move_group("B", "f2"), Ok(()));
    assert_eq!(group_ids_of(&c), vec!["B", "f2", "A"]);
    assert_eq!(c.move_group("B", "A"), Ok(()));
    assert_eq!(group_ids_of(&c), vec!["f2", "A", "B"]);
    assert_eq!(ids_of(&c.groups[2]), vec!["r2", "r4"]);
}

#[test]
fn move_group_fails_on_an_unknown_id() {
    let mut c = filled_controller();
    let before = c.clone();
    assert_eq!(c.move_group("x", "A"), Err(GroupingError::UnknownGroup));
    assert_eq!(c.move_group("A", "y"), Err(GroupingError::UnknownGroup));
    assert_eq!(c, before);
}

#[test]
fn move_group_row_inside_a_group_reorders_it() {
    let mut c = filled_controller();
    let context = MoveGroupRowContext {
        row_id: "r2".to_owned(),
        from_group_id: "B".to_owned(),
        to_group_id: "B".to_owned(),
        to_index: 1,
    };
    let res = c.move_group_row(context).unwrap();
    assert_eq!(res.deleted_group, None);
    assert_eq!(res.row_changesets, vec![change("B", "r2", None), change("B", "r2", Some(1))]);
    assert_eq!(ids_of(&c.groups[2]), vec!["r4", "r2"]);
    assert_eq!(c.groups.iter().map(|g| g.rows.len()).sum::<usize>(), 5);
}

#[test]
fn move_group_row_between_groups_puts_the_row_at_the_index() {
    let mut c = filled_controller();
    let context = MoveGroupRowContext {
        row_id: "r3".to_owned(),
        from_group_id: "f2".to_owned(),
        to_group_id: "B".to_owned(),
        to_index: 1,
    };
    let res = c.move_group_row(context).unwrap();
    assert_eq!(res.deleted_group, None);
    assert_eq!(res.row_changesets, vec![change("f2", "r3", None), change("B", "r3", Some(1))]);
    assert_eq!(ids_of(&c.groups[0]), vec!["r5"]);
    assert_eq!(ids_of(&c.groups[2]), vec!["r2", "r3", "r4"]);
    assert_eq!(c.groups[2].rows[1], summary_of("r3"));
}

#[test]
fn move_group_row_deletes_the_group_it_empties() {
    let mut c = filled_controller();
    let context = MoveGroupRowContext {
        row_id: "r1".to_owned(),
        from_group_id: "A".to_owned(),
        to_group_id: "B".to_owned(),
        to_index: 99,
    };
    let res = c.move_group_row(context).unwrap();
    assert_eq!(res.deleted_group, Some("A".to_owned()));
    assert_eq!(res.row_changesets, vec![change("A", "r1", None), change("B", "r1", Some(2))]);
    assert_eq!(group_ids_of(&c), vec!["f2", "B"]);
    assert_eq!(ids_of(&c.groups[1]), vec!["r2", "r4", "r1"]);
}

#[test]
fn move_group_row_keeps_the_default_group_when_it_empties_it() {
    let field = select_field();
    let mut c = SelectOptionGroupController::new(&field).unwrap();
    c.fill_groups(&[row_with("r3", None)], &field).unwrap();
    let context = MoveGroupRowContext {
        row_id: "r3".to_owned(),
        from_group_id: "f2".to_owned(),
        to_group_id: "A".to_owned(),
        to_index: 0,
    };
    let res = c.move_group_row(context).unwrap();
    assert_eq!(res.deleted_group, None);
    assert_eq!(group_ids_of(&c), vec!["f2", "A", "B"]);
    assert!(c.groups[0].rows.is_empty());
    assert_eq!(ids_of(&c.groups[1]), vec!["r3"]);
}

#[test]
fn move_group_row_fails_on_an_unknown_group_and_ignores_a_missing_row() {
    let mut c = filled_controller();
    let before = c.clone();
    let unknown = MoveGroupRowContext {
        row_id: "r1".to_owned(),
        from_group_id: "A".to_owned(),
        to_group_id: "nope".to_owned(),
        to_index: 0,
    };
    assert_eq!(c.move_group_row(unknown), Err(GroupingError::UnknownGroup));
    let missing = MoveGroupRowContext {
        row_id: "r2".to_owned(),
        from_group_id: "A".to_owned(),
        to_group_id: "B".to_owned(),
        to_index: 0,
    };
    let res = c.move_group_row(missing).unwrap();
    assert_eq!(res.deleted_group, None);
    assert!(res.row_changesets.is_empty());
    assert_eq!(c, before);
}

#[test]
fn updating_a_row_to_another_option_moves_it_and_deletes_the_emptied_group() {
    let field = select_field();
    let mut c = SelectOptionGroupController::new(&field).unwrap();
    c.fill_groups(&[row_with("r1", Some("A")), row_with("r2", Some("B"))], &field).unwrap();
    assert_eq!(group_ids_of(&c), vec!["f2", "A", "B"]);
    let res = c
        .did_update_group_row(&Some(row_with("r1", Some("A"))), &row_with("r1", Some("B")), &field)
        .unwrap();
    assert_eq!(res.inserted_group, None);
    assert_eq!(res.deleted_group, Some("A".to_owned()));
    assert_eq!(res.row_changesets, vec![change("A", "r1", None), change("B", "r1", Some(1))]);
    assert_eq!(group_ids_of(&c), vec!["f2", "B"]);
    assert_eq!(ids_of(&c.groups[1]), vec!["r2", "r1"]);
}

#[test]
fn updating_a_row_to_an_option_without_group_makes_the_group() {
    let field = select_field();
    let mut c = SelectOptionGroupController::new(&field).unwrap();
    c.fill_groups(&[row_with("r1", Some("A")), row_with("r2", Some("B"))], &field).unwrap();
    c.did_update_group_row(&None, &row_with("r1", Some("B")), &field).unwrap();
    assert_eq!(group_ids_of(&c), vec!["f2", "B"]);
    let res = c.did_update_group_row(&None, &row_with("r2", Some("A")), &field).unwrap();
    assert_eq!(
        res.inserted_group,
        Some(Group::new("A".to_owned(), "f2".to_owned(), "Alpha".to_owned(), false))
    );
    assert_eq!(res.deleted_group, None);
    assert_eq!(res.row_changesets, vec![change("B", "r2", None), change("A", "r2", Some(0))]);
    assert_eq!(group_ids_of(&c), vec!["f2", "B", "A"]);
    assert_eq!(ids_of(&c.groups[1]), vec!["r1"]);
    assert_eq!(ids_of(&c.groups[2]), vec!["r2"]);
}

#[test]
fn updating_a_row_that_stays_in_its_group_changes_nothing() {
    let field = select_field();
    let mut c = filled_controller();
    let before = c.clone();
    let res = c.did_update_group_row(&None, &row_with("r2", Some("B")), &field).unwrap();
    assert_eq!(res.inserted_group, None);
    assert_eq!(res.deleted_group, None);
    assert!(res.row_changesets.is_empty());
    assert_eq!(c, before);
}

#[test]
fn a_manual_move_stands_until_the_value_is_edited() {
    let field = select_field();
    let mut c = filled_controller();
    let context = MoveGroupRowContext {
        row_id: "r2".to_owned(),
        from_group_id: "B".to_owned(),
        to_group_id: "A".to_owned(),
        to_index: 0,
    };
    c.move_group_row(context).unwrap();
    let moved = c.clone();
    let same = row_with("r2", Some("B"));
    let res = c.did_update_group_row(&Some(same.clone()), &same, &field).unwrap();
    assert!(res.row_changesets.is_empty());
    assert_eq!(c, moved);
    c.fill_groups(&[same.clone()], &field).unwrap();
    assert_eq!(c, moved);
    let res = c.did_update_group_row(&Some(same), &row_with("r2", None), &field).unwrap();
    assert_eq!(res.row_changesets, vec![change("A", "r2", None), change("f2", "r2", Some(2))]);
    assert_eq!(ids_of(&c.groups[0]), vec!["r3", "r5", "r2"]);
}

#[test]
fn updating_a_row_that_no_group_holds_places_it() {
    let field = select_field();
    let mut c = filled_controller();
    let res = c.did_update_group_row(&None, &row_with("r6", Some("A")), &field).unwrap();
    assert_eq!(res.inserted_group, None);
    assert_eq!(res.deleted_group, None);
    assert_eq!(res.row_changesets, vec![change("A", "r6", Some(1))]);
    assert_eq!(ids_of(&c.groups[1]), vec!["r1", "r6"]);
}

#[test]
fn updating_the_last_row_of_the_default_group_keeps_the_group() {
    let field = select_field();
    let mut c = SelectOptionGroupController::new(&field).unwrap();
    c.fill_groups(&[row_with("r3", None)], &field).unwrap();
    let res = c.did_update_group_row(&None, &row_with("r3", Some("A")), &field).unwrap();
    assert_eq!(res.deleted_group, None);
    assert_eq!(group_ids_of(&c), vec!["f2", "A", "B"]);
    assert!(c.groups[0].is_default);
    assert!(c.groups[0].rows.is_empty());
}

#[test]
fn did_update_group_row_refuses_another_field() {
    let mut c = filled_controller();
    let before = c.clone();
    let mut other = select_field();
    other.id = "f9".to_owned();
    assert_eq!(
        c.did_update_group_row(&None, &row_with("r1", Some("B")), &other),
        Err(GroupingError::FieldMismatch)
    );
    assert_eq!(c, before);
}

#[test]
fn deleting_a_row_takes_it_out_and_deletes_the_emptied_group() {
    let field = select_field();
    let mut c = filled_controller();
    let res = c.did_delete_delete_row(&row_with("r4", Some("B")), &field).unwrap();
    assert_eq!(res.deleted_group, None);
    assert_eq!(res.row_changesets, vec![change("B", "r4", None)]);
    assert_eq!(ids_of(&c.groups[2]), vec!["r2"]);
    let res = c.did_delete_delete_row(&row_with("r1", Some("A")), &field).unwrap();
    assert_eq!(res.deleted_group, Some("A".to_owned()));
    assert_eq!(res.row_changesets, vec![change("A", "r1", None)]);
    assert_eq!(group_ids_of(&c), vec!["f2", "B"]);
    assert_eq!(count_of(&c, "r1"), 0);
}

#[test]
fn deleting_the_last_row_of_the_default_group_keeps_the_group() {
    let field = select_field();
    let mut c = SelectOptionGroupController::new(&field).unwrap();
    c.fill_groups(&[row_with("r3", None)], &field).unwrap();
    let res = c.did_delete_delete_row(&row_with("r3", None), &field).unwrap();
    assert_eq!(res.deleted_group, None);
    assert_eq!(res.row_changesets, vec![change("f2", "r3", None)]);
    assert_eq!(group_ids_of(&c), vec!["f2", "A", "B"]);
    assert!(c.groups[0].rows.is_empty());
}

#[test]
fn deleting_a_row_that_no_group_holds_or_of_another_field() {
    let field = select_field();
    let mut c = filled_controller();
    let before = c.clone();
    let res = c.did_delete_delete_row(&row_with("r0", None), &field).unwrap();
    assert_eq!(res.deleted_group, None);
    assert!(res.row_changesets.is_empty());
    let mut other = select_field();
    other.id = "f9".to_owned();
    assert_eq!(
        c.did_delete_delete_row(&row_with("r1", None), &other),
        Err(GroupingError::FieldMismatch)
    );
    assert_eq!(c, before);
}

#[test]
fn did_create_row_appends_to_the_named_group() {
    let mut c = filled_controller();
    c.did_create_row(&summary_of("r6"), "A");
    assert_eq!(ids_of(&c.groups[1]), vec!["r1", "r6"]);
    let before = c.clone();
    c.did_create_row(&summary_of("r6"), "B");
    c.did_create_row(&summary_of("r7"), "nope");
    assert_eq!(c, before);
}

#[test]
fn row_value_is_that_of_the_first_cell_of_the_field() {
    let mut r = row_with("r1", Some("A"));
    r.cells.push(Cell { field_id: "f2".to_owned(), data: "B".to_owned() });
    assert_eq!(r.value_of("f2"), Some("A"));
    assert_eq!(r.value_of("f1"), Some("other"));
    assert_eq!(r.value_of("f3"), None);
    assert_eq!(select_field().index_of_option("B"), Some(1));
    assert_eq!(select_field().index_of_option("C"), None);
}
