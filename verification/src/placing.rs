//! Which group a row belongs to by the option that it holds for the field, and
//! how the groups change when rows are placed by it.

use crate::action::{DidUpdateGroupRowResultView, RowChangesetView};
use crate::entities::{
    first_place, lemma_first_place_of_present, option_ids, summary_of, value_of, FieldView, RowView,
    SelectOptionView,
};
use crate::group::GroupView;
use crate::partition::{
    default_place, defaults_kept, group_ids, holds_row, lemma_default_place_exists,
    lemma_defaults_kept_twice, lemma_group_added_keeps_partition, lemma_place_of_row,
    lemma_row_appended_keeps_partition, lemma_row_moved_keeps_defaults,
    lemma_row_moved_keeps_partition, place_of, row_move_keeps_every_row, well_grouped,
    with_row_moved, with_rows_of,
};
use vstd::prelude::*;

verus! {

/// The default group of a field: it takes the rows that match no option.
pub open spec fn default_group(field_id: Seq<char>) -> GroupView {
    GroupView { id: field_id, field_id, name: Seq::empty(), is_default: true, rows: Seq::empty() }
}

/// The empty group of an option.
pub open spec fn option_group(field_id: Seq<char>, option: SelectOptionView) -> GroupView {
    GroupView { id: option.id, field_id, name: option.name, is_default: false, rows: Seq::empty() }
}

/// `groups` with the group of `option` appended, unless a group has the
/// option's id already.
pub open spec fn with_option(groups: Seq<GroupView>, field_id: Seq<char>, option: SelectOptionView) -> Seq<
    GroupView,
> {
    if group_ids(groups).contains(option.id) {
        groups
    } else {
        groups.push(option_group(field_id, option))
    }
}

/// `groups` after each option of `options` was added in turn by
/// [`with_option`].
pub open spec fn with_options(
    groups: Seq<GroupView>,
    field_id: Seq<char>,
    options: Seq<SelectOptionView>,
) -> Seq<GroupView>
    decreases options.len(),
{
    if options.len() == 0 {
        groups
    } else {
        with_option(with_options(groups, field_id, options.drop_last()), field_id, options.last())
    }
}

/// The groups of a select field before any row is in them: the default
/// group, then a group for each option, in the order of the options.
pub open spec fn groups_of_field(field: FieldView) -> Seq<GroupView> {
    with_options(seq![default_group(field.id)], field.id, field.options)
}

/// The row's value for the field names an option of the field for which
/// there is no group.
pub open spec fn wants_new_group(groups: Seq<GroupView>, field: FieldView, row: RowView) -> bool {
    value_of(row, field.id) matches Some(d) && !group_ids(groups).contains(d) && option_ids(
        field.options,
    ).contains(d)
}

/// The group that [`with_target`] appends where the row wants a new group.
pub open spec fn new_group_for(field: FieldView, row: RowView) -> GroupView {
    let d = value_of(row, field.id).unwrap();
    option_group(field.id, field.options[first_place(option_ids(field.options), d)])
}

/// The groups with the group that the row's value asks for appended, where
/// the row wants a new group; else the groups as they are.
pub open spec fn with_target(groups: Seq<GroupView>, field: FieldView, row: RowView) -> Seq<GroupView> {
    if wants_new_group(groups, field, row) {
        groups.push(new_group_for(field, row))
    } else {
        groups
    }
}

/// The place of the group that the row belongs to by its value for the field:
/// the group with the value as its id, or the first default group where the
/// row has no value or no group has that id.
pub open spec fn target_of(groups: Seq<GroupView>, field_id: Seq<char>, row: RowView) -> int {
    match value_of(row, field_id) {
        Some(d) => if group_ids(groups).contains(d) {
            group_ids(groups).index_of(d)
        } else {
            default_place(groups)
        },
        None => default_place(groups),
    }
}

/// The groups after a row that no group holds was appended to the group that
/// it belongs to by its value, that group being made first where it was not
/// there.
pub open spec fn placed(groups: Seq<GroupView>, field: FieldView, row: RowView) -> Seq<GroupView> {
    let ready = with_target(groups, field, row);
    let to = target_of(ready, field.id, row);
    with_rows_of(ready, to, ready[to].rows.push(summary_of(row)))
}

/// The groups after a row that a group holds was moved to the end of the
/// group that it belongs to by its value, unless it is in that group.
pub open spec fn reclassified(groups: Seq<GroupView>, field: FieldView, row: RowView) -> Seq<GroupView> {
    let (from, at) = place_of(groups, row.id);
    let ready = with_target(groups, field, row);
    let to = target_of(ready, field.id, row);
    if from == to {
        ready
    } else {
        with_row_moved(ready, from, at, to, ready[to].rows.len() as int)
    }
}

/// The row is held, and its value for the field is that of the row before
/// the edit: the edit does not touch the grouping.
pub open spec fn keeps_its_group(
    groups: Seq<GroupView>,
    field: FieldView,
    old_row: Option<RowView>,
    row: RowView,
) -> bool {
    &&& holds_row(groups, row.id)
    &&& old_row matches Some(o) && value_of(o, field.id) == value_of(row, field.id)
}

/// The groups after an edited row was looked at again.
pub open spec fn updated(groups: Seq<GroupView>, field: FieldView, old_row: Option<RowView>, row: RowView) -> Seq<
    GroupView,
> {
    if !holds_row(groups, row.id) {
        placed(groups, field, row)
    } else if keeps_its_group(groups, field, old_row, row) {
        groups
    } else {
        reclassified(groups, field, row)
    }
}

/// What is reported of an edited row: the group that was made for it, the
/// group that it left empty and that was deleted, and where the row left and
/// where it now stands.
pub open spec fn update_report(
    groups: Seq<GroupView>,
    field: FieldView,
    old_row: Option<RowView>,
    row: RowView,
) -> DidUpdateGroupRowResultView {
    let ready = with_target(groups, field, row);
    let to = target_of(ready, field.id, row);
    let inserted_group = if wants_new_group(groups, field, row) {
        Some(new_group_for(field, row))
    } else {
        None
    };
    let arrival = RowChangesetView {
        group_id: ready[to].id,
        row_id: row.id,
        index: Some(ready[to].rows.len() as int),
    };
    if !holds_row(groups, row.id) {
        DidUpdateGroupRowResultView { inserted_group, deleted_group: None, row_changesets: seq![arrival] }
    } else {
        let (from, at) = place_of(groups, row.id);
        if keeps_its_group(groups, field, old_row, row) || from == to {
            DidUpdateGroupRowResultView {
                inserted_group: None,
                deleted_group: None,
                row_changesets: Seq::empty(),
            }
        } else {
            DidUpdateGroupRowResultView {
                inserted_group,
                deleted_group: if groups[from].rows.len() == 1 && !groups[from].is_default {
                    Some(groups[from].id)
                } else {
                    None
                },
                row_changesets: seq![
                    RowChangesetView { group_id: groups[from].id, row_id: row.id, index: None },
                    arrival,
                ],
            }
        }
    }
}

/// The groups after each row of `rows` that no group holds was placed in
/// turn by [`placed`].
pub open spec fn filled(groups: Seq<GroupView>, field: FieldView, rows: Seq<RowView>) -> Seq<GroupView>
    decreases rows.len(),
{
    if rows.len() == 0 {
        groups
    } else {
        let front = filled(groups, field, rows.drop_last());
        if holds_row(front, rows.last().id) {
            front
        } else {
            placed(front, field, rows.last())
        }
    }
}

/// Making the group that a row's value asks for changes no group's rows: the
/// same row ids are held.
pub proof fn lemma_with_target_holds_same(
    groups: Seq<GroupView>,
    field: FieldView,
    row: RowView,
    id: Seq<char>,
)
    ensures
        holds_row(with_target(groups, field, row), id) <==> holds_row(groups, id),
{
    let ready = with_target(groups, field, row);
    if holds_row(groups, id) {
        let (i, a): (int, int) = choose|i: int, a: int|
            0 <= i < groups.len() && 0 <= a < groups[i].rows.len() && (
            #[trigger] groups[i].rows[a]).id == id;
        assert(ready[i].rows[a].id == id);
    }
    if holds_row(ready, id) {
        let (i, a): (int, int) = choose|i: int, a: int|
            0 <= i < ready.len() && 0 <= a < ready[i].rows.len() && (#[trigger] ready[i].rows[a]).id
                == id;
        assert(groups[i].rows[a].id == id);
    }
}

/// Making the group that a row's value asks for keeps the groups well
/// grouped, and the row's group is then one of them.
pub proof fn lemma_with_target_well_grouped(groups: Seq<GroupView>, field: FieldView, row: RowView)
    requires
        well_grouped(groups),
    ensures
        well_grouped(with_target(groups, field, row)),
        defaults_kept(groups, with_target(groups, field, row)),
        0 <= target_of(with_target(groups, field, row), field.id, row) < with_target(
            groups,
            field,
            row,
        ).len(),
        groups.len() <= with_target(groups, field, row).len(),
        forall|k: int| 0 <= k < groups.len() ==> with_target(groups, field, row)[k] == groups[k],
{
    let ready = with_target(groups, field, row);
    if wants_new_group(groups, field, row) {
        let d = value_of(row, field.id).unwrap();
        let ids = option_ids(field.options);
        let k = choose|k: int| 0 <= k < ids.len() && ids[k] == d;
        lemma_first_place_of_present(ids, d, k);
        assert(new_group_for(field, row).id == ids[first_place(ids, d)]);
        lemma_group_added_keeps_partition(groups, new_group_for(field, row));
        assert(group_ids(ready)[groups.len() as int] == d);
    } else {
        assert forall|k: int| 0 <= k < groups.len() && (#[trigger] groups[k]).is_default implies exists|
            m: int,
        |
            0 <= m < ready.len() && (#[trigger] ready[m]).is_default && ready[m].id == groups[k].id by {
            assert(ready[k] == groups[k]);
        }
    }
    let c = choose|c: int| 0 <= c < ready.len() && (#[trigger] ready[c]).is_default;
    lemma_default_place_exists(ready, c);
}

/// Placing a row that no group holds keeps the groups well grouped; the row
/// is then held, and so is every row that was held before.
pub proof fn lemma_placed_well_grouped(groups: Seq<GroupView>, field: FieldView, row: RowView)
    requires
        well_grouped(groups),
        !holds_row(groups, row.id),
    ensures
        well_grouped(placed(groups, field, row)),
        holds_row(placed(groups, field, row), row.id),
        forall|id: Seq<char>| holds_row(groups, id) ==> holds_row(placed(groups, field, row), id),
{
    let ready = with_target(groups, field, row);
    let to = target_of(ready, field.id, row);
    let after = placed(groups, field, row);
    lemma_with_target_well_grouped(groups, field, row);
    lemma_with_target_holds_same(groups, field, row, row.id);
    lemma_row_appended_keeps_partition(ready, to, summary_of(row));
    assert forall|id: Seq<char>| holds_row(groups, id) implies holds_row(after, id) by {
        let (i, a): (int, int) = choose|i: int, a: int|
            0 <= i < groups.len() && 0 <= a < groups[i].rows.len() && (
            #[trigger] groups[i].rows[a]).id == id;
        assert(after[i].rows[a].id == id);
    }
}

/// Filling keeps the groups well grouped: afterwards every row handed in is
/// held by exactly one group, and so is every row that was held before.
pub proof fn fill_groups_partitions(groups: Seq<GroupView>, field: FieldView, rows: Seq<RowView>)
    requires
        well_grouped(groups),
    ensures
        well_grouped(filled(groups, field, rows)),
        forall|i: int| 0 <= i < rows.len() ==> holds_row(filled(groups, field, rows), #[trigger] rows[i].id),
        forall|id: Seq<char>| holds_row(groups, id) ==> holds_row(filled(groups, field, rows), id),
    decreases rows.len(),
{
    if rows.len() > 0 {
        let front = filled(groups, field, rows.drop_last());
        let after = filled(groups, field, rows);
        fill_groups_partitions(groups, field, rows.drop_last());
        if !holds_row(front, rows.last().id) {
            lemma_placed_well_grouped(front, field, rows.last());
        }
        assert forall|i: int| 0 <= i < rows.len() implies holds_row(after, #[trigger] rows[i].id) by {
            if i < rows.len() - 1 {
                assert(rows.drop_last()[i] == rows[i]);
                assert(holds_row(front, rows[i].id));
            }
        }
    }
}

/// Filling with rows that are all held changes nothing.
pub proof fn lemma_fill_of_held(groups: Seq<GroupView>, field: FieldView, rows: Seq<RowView>)
    requires
        forall|i: int| 0 <= i < rows.len() ==> holds_row(groups, #[trigger] rows[i].id),
    ensures
        filled(groups, field, rows) == groups,
    decreases rows.len(),
{
    if rows.len() > 0 {
        let front = rows.drop_last();
        assert forall|i: int| 0 <= i < front.len() implies holds_row(groups, #[trigger] front[i].id) by {
            assert(front[i] == rows[i]);
        }
        lemma_fill_of_held(groups, field, front);
        assert(holds_row(groups, rows[rows.len() - 1].id));
    }
}

/// Filling a second time with the same rows and the same field changes
/// nothing: the groups are those of the first filling.
pub proof fn fill_groups_is_idempotent(groups: Seq<GroupView>, field: FieldView, rows: Seq<RowView>)
    requires
        well_grouped(groups),
    ensures
        filled(filled(groups, field, rows), field, rows) == filled(groups, field, rows),
{
    fill_groups_partitions(groups, field, rows);
    lemma_fill_of_held(filled(groups, field, rows), field, rows);
}

/// No default group is ever deleted when an edited row is looked at again,
/// even where the row leaves it empty.
pub proof fn update_keeps_default_groups(
    groups: Seq<GroupView>,
    field: FieldView,
    old_row: Option<RowView>,
    row: RowView,
)
    requires
        well_grouped(groups),
    ensures
        defaults_kept(groups, updated(groups, field, old_row, row)),
{
    let ready = with_target(groups, field, row);
    let to = target_of(ready, field.id, row);
    let after = updated(groups, field, old_row, row);
    lemma_with_target_well_grouped(groups, field, row);
    if !holds_row(groups, row.id) {
        assert forall|k: int| 0 <= k < ready.len() && (#[trigger] ready[k]).is_default implies exists|
            m: int,
        |
            0 <= m < after.len() && (#[trigger] after[m]).is_default && after[m].id == ready[k].id by {
            assert(after[k].is_default && after[k].id == ready[k].id);
        }
        lemma_defaults_kept_twice(groups, ready, after);
    } else if keeps_its_group(groups, field, old_row, row) {
        assert forall|k: int| 0 <= k < groups.len() && (#[trigger] groups[k]).is_default implies exists|
            m: int,
        |
            0 <= m < after.len() && (#[trigger] after[m]).is_default && after[m].id == groups[k].id by {
            assert(after[k] == groups[k]);
        }
    } else {
        let (i, a): (int, int) = choose|i: int, a: int|
            0 <= i < groups.len() && 0 <= a < groups[i].rows.len() && (
            #[trigger] groups[i].rows[a]).id == row.id;
        lemma_place_of_row(groups, i, a);
        if i != to {
            lemma_row_moved_keeps_defaults(ready, i, a, to, ready[to].rows.len() as int);
            lemma_defaults_kept_twice(groups, ready, after);
        }
    }
}

/// A row that is placed stands at the end of the group that it belongs to by
/// its value: the group of its option, or the default group where it has no
/// value or its value names no group and no option.
pub proof fn placed_row_is_in_its_group(groups: Seq<GroupView>, field: FieldView, row: RowView)
    requires
        well_grouped(groups),
        !holds_row(groups, row.id),
    ensures
        ({
            let ready = with_target(groups, field, row);
            let to = target_of(ready, field.id, row);
            &&& place_of(placed(groups, field, row), row.id) == (to, ready[to].rows.len() as int)
            &&& placed(groups, field, row)[to].rows.last() == summary_of(row)
            &&& placed(groups, field, row)[to].is_default <==> !(value_of(row, field.id) matches Some(d)
                && group_ids(ready).contains(d) && !ready[group_ids(ready).index_of(d)].is_default)
        }),
{
    let ready = with_target(groups, field, row);
    let to = target_of(ready, field.id, row);
    let after = placed(groups, field, row);
    lemma_with_target_well_grouped(groups, field, row);
    lemma_placed_well_grouped(groups, field, row);
    lemma_place_of_row(after, to, ready[to].rows.len() as int);
    let c = choose|c: int| 0 <= c < ready.len() && (#[trigger] ready[c]).is_default;
    lemma_default_place_exists(ready, c);
}

/// After an edited row was looked at again, a group holds it.
pub proof fn update_holds_the_row(
    groups: Seq<GroupView>,
    field: FieldView,
    old_row: Option<RowView>,
    row: RowView,
)
    requires
        well_grouped(groups),
    ensures
        well_grouped(updated(groups, field, old_row, row)),
        holds_row(updated(groups, field, old_row, row), row.id),
{
    let ready = with_target(groups, field, row);
    let to = target_of(ready, field.id, row);
    lemma_with_target_well_grouped(groups, field, row);
    lemma_with_target_holds_same(groups, field, row, row.id);
    if !holds_row(groups, row.id) {
        lemma_placed_well_grouped(groups, field, row);
    } else if !keeps_its_group(groups, field, old_row, row) {
        let (i, a): (int, int) = choose|i: int, a: int|
            0 <= i < groups.len() && 0 <= a < groups[i].rows.len() && (
            #[trigger] groups[i].rows[a]).id == row.id;
        lemma_place_of_row(groups, i, a);
        if i != to {
            let end = ready[to].rows.len() as int;
            lemma_row_moved_keeps_partition(ready, i, a, to, end);
            lemma_row_moved_keeps_defaults(ready, i, a, to, end);
            row_move_keeps_every_row(ready, i, a, to, end, row.id);
        }
    }
}

/// Giving options their groups keeps the groups well grouped, and the same
/// row ids are held: the new groups are empty.
pub proof fn lemma_with_options_well_grouped(
    groups: Seq<GroupView>,
    field_id: Seq<char>,
    options: Seq<SelectOptionView>,
    id: Seq<char>,
)
    requires
        well_grouped(groups),
    ensures
        well_grouped(with_options(groups, field_id, options)),
        holds_row(with_options(groups, field_id, options), id) <==> holds_row(groups, id),
    decreases options.len(),
{
    if options.len() > 0 {
        let front = with_options(groups, field_id, options.drop_last());
        let after = with_options(groups, field_id, options);
        lemma_with_options_well_grouped(groups, field_id, options.drop_last(), id);
        if !group_ids(front).contains(options.last().id) {
            lemma_group_added_keeps_partition(front, option_group(field_id, options.last()));
            if holds_row(front, id) {
                let (i, a): (int, int) = choose|i: int, a: int|
                    0 <= i < front.len() && 0 <= a < front[i].rows.len() && (
                    #[trigger] front[i].rows[a]).id == id;
                assert(after[i].rows[a].id == id);
            }
            if holds_row(after, id) {
                let (i, a): (int, int) = choose|i: int, a: int|
                    0 <= i < after.len() && 0 <= a < after[i].rows.len() && (
                    #[trigger] after[i].rows[a]).id == id;
                assert(front[i].rows[a].id == id);
            }
        }
    }
}

} // verus!
