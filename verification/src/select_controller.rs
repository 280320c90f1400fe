//! Grouping by the option that a row holds for a select field: the controller
//! that owns the groups and keeps them a partition of the rows.

use crate::action::{
    DidMoveGroupRowResult, DidMoveGroupRowResultView, DidUpdateGroupRowResult, GroupChangeset,
    GroupingError, MoveGroupRowContext, MoveGroupRowContextView, RowChangeset, RowChangesetView,
};
use crate::entities::{
    row_view_of, row_views, same_value, stamped, summary_of, value_of, Field, FieldType, FieldView,
    Row, RowSummary, RowView, SelectOption,
};
use crate::group::{row_ids, with_row_at, Group, GroupView};
use crate::partition::{
    default_place, group_ids, group_views, has_default, holds_row, is_default_place,
    lemma_default_place, lemma_default_place_exists, lemma_group_added_keeps_partition,
    lemma_group_moved_keeps_defaults, lemma_group_moved_keeps_partition, lemma_index_of_group,
    lemma_index_of_row, lemma_place_of_row, lemma_row_appended_keeps_partition,
    lemma_row_deleted_keeps_defaults, lemma_row_deleted_keeps_partition,
    lemma_row_moved_keeps_defaults, lemma_row_moved_keeps_partition, lemma_same_rows_well_grouped,
    place_of, well_grouped, with_group_moved, with_row_deleted, with_row_moved, with_rows_of,
    without_emptied,
};
use crate::placing::{
    default_group, filled, groups_of_field, lemma_with_target_holds_same, new_group_for,
    option_group, placed, target_of, update_report, updated, wants_new_group, with_option,
    with_options, with_target,
};
use crate::reconcile::{
    added_options, first_stale, has_stale, is_empty_report, is_first_stale, is_stale,
    lemma_first_stale, lemma_without_group_well_grouped, pruned, pruned_ids, reconcile_report,
    reconciled, renamed, renamed_changes, renamed_group, without_group,
};
use vstd::prelude::*;

verus! {

/// What a row move reports: that the row left the one group, and the place
/// at which it now stands in the other.
pub open spec fn row_move_changes(groups: Seq<GroupView>, context: MoveGroupRowContextView) -> Seq<
    RowChangesetView,
> {
    let from = group_ids(groups).index_of(context.from_group_id);
    let to = group_ids(groups).index_of(context.to_group_id);
    let room = if from == to {
        groups[to].rows.len() - 1
    } else {
        groups[to].rows.len() as int
    };
    let index = if context.to_index < room {
        context.to_index
    } else {
        room
    };
    seq![
        RowChangesetView { group_id: context.from_group_id, row_id: context.row_id, index: None },
        RowChangesetView { group_id: context.to_group_id, row_id: context.row_id, index: Some(index) },
    ]
}

/// How the groups after a row move, and what the move reports, follow from
/// the groups before it and the request, both groups being there.
pub open spec fn row_move_outcome(
    before: Seq<GroupView>,
    context: MoveGroupRowContextView,
    after: Seq<GroupView>,
    res: DidMoveGroupRowResultView,
) -> bool {
    let from = group_ids(before).index_of(context.from_group_id);
    let to = group_ids(before).index_of(context.to_group_id);
    if row_ids(before[from].rows).contains(context.row_id) {
        let at = row_ids(before[from].rows).index_of(context.row_id);
        &&& after == with_row_moved(before, from, at, to, context.to_index)
        &&& res.deleted_group == (if after.len() < before.len() {
            Some(context.from_group_id)
        } else {
            None
        })
        &&& res.row_changesets == row_move_changes(before, context)
    } else {
        &&& after == before
        &&& res.deleted_group is None
        &&& res.row_changesets.len() == 0
    }
}

/// How the groups after a row was deleted, and what is reported, follow from
/// the groups before and the row's id.
pub open spec fn row_delete_outcome(
    before: Seq<GroupView>,
    row_id: Seq<char>,
    after: Seq<GroupView>,
    res: DidMoveGroupRowResultView,
) -> bool {
    if holds_row(before, row_id) {
        let (from, at) = place_of(before, row_id);
        &&& after == with_row_deleted(before, from, at)
        &&& res.deleted_group == (if after.len() < before.len() {
            Some(before[from].id)
        } else {
            None
        })
        &&& res.row_changesets == seq![
            RowChangesetView { group_id: before[from].id, row_id, index: None },
        ]
    } else {
        &&& after == before
        &&& res.deleted_group is None
        &&& res.row_changesets.len() == 0
    }
}

/// The groups of a select field, in the order in which they are shown.
#[derive(Clone, Debug, PartialEq, Eq)]
pub struct SelectOptionGroupController {
    pub field_id: String,
    pub groups: Vec<Group>,
}

/// What a [`SelectOptionGroupController`] holds, as plain values.
pub struct SelectOptionGroupControllerView {
    pub field_id: Seq<char>,
    pub groups: Seq<GroupView>,
}

impl View for SelectOptionGroupController {
    type V = SelectOptionGroupControllerView;

    open spec fn view(&self) -> SelectOptionGroupControllerView {
        SelectOptionGroupControllerView { field_id: self.field_id@, groups: group_views(self.groups@) }
    }
}

/// A new row for the group `group_id` gets its value set: the field is the
/// bound one, and the group is there and is no default group.
pub open spec fn stamps_row(c: SelectOptionGroupControllerView, field: FieldView, group_id: Seq<char>) -> bool {
    &&& field.id == c.field_id
    &&& group_ids(c.groups).contains(group_id)
    &&& !c.groups[group_ids(c.groups).index_of(group_id)].is_default
}

impl SelectOptionGroupController {
    /// No two groups share an id, and the groups partition their rows.
    pub open spec fn well_formed(&self) -> bool {
        well_grouped(self@.groups)
    }

    /// A controller bound to `field`, with the default group and a group for
    /// each option, all empty. Fails where the field is no select field.
    pub fn new(field: &Field) -> (r: Result<SelectOptionGroupController, GroupingError>)
        ensures
            r is Ok <==> field@.field_type == FieldType::SingleSelect || field@.field_type
                == FieldType::MultiSelect,
            r matches Err(e) ==> e == GroupingError::InvalidFieldType,
            r matches Ok(c) ==> c.well_formed() && c@.field_id == field@.id && c@.groups
                == groups_of_field(field@),
    {
        match field.field_type {
            FieldType::SingleSelect | FieldType::MultiSelect => {},
            _ => { return Err(GroupingError::InvalidFieldType); },
        }
        let mut groups: Vec<Group> = Vec::new();
        groups.push(Group::new(field.id.clone(), field.id.clone(), String::new(), true));
        let mut c = SelectOptionGroupController { field_id: field.id.clone(), groups };
        assert(c@.groups =~= seq![default_group(field@.id)]);
        assert(c@.groups[0].is_default);
        let mut i: usize = 0;
        while i < field.options.len()
            invariant
                i <= field.options.len(),
                c.well_formed(),
                c@.field_id == field@.id,
                c@.groups == with_options(
                    seq![default_group(field@.id)],
                    field@.id,
                    field@.options.take(i as int),
                ),
            decreases field.options.len() - i,
        {
            let option = &field.options[i];
            proof {
                assert(field@.options.take(i as int + 1).drop_last() =~= field@.options.take(i as int));
                assert(field@.options.take(i as int + 1).last() == option@);
            }
            c.add_option_group(option);
            i += 1;
        }
        assert(field@.options.take(i as int) =~= field@.options);
        Ok(c)
    }

    /// The id of the field that drives the grouping.
    pub fn field_id(&self) -> (id: &str)
        ensures
            id@ == self@.field_id,
    {
        self.field_id.as_str()
    }

    /// The groups in order.
    pub fn groups(&self) -> (gs: Vec<&Group>)
        ensures
            gs@.len() == self.groups@.len(),
            forall|i: int| 0 <= i < gs@.len() ==> *gs@[i] == self.groups@[i],
    {
        let mut gs: Vec<&Group> = Vec::new();
        let mut i: usize = 0;
        while i < self.groups.len()
            invariant
                i <= self.groups.len(),
                gs@.len() == i,
                forall|k: int| 0 <= k < i ==> *gs@[k] == self.groups@[k],
            decreases self.groups.len() - i,
        {
            gs.push(&self.groups[i]);
            i += 1;
        }
        gs
    }

    /// The position of the first group with the given id, if there is one.
    pub fn index_of_group(&self, group_id: &str) -> (r: Option<usize>)
        ensures
            r is None <==> !group_ids(self@.groups).contains(group_id@),
            r matches Some(k) ==> k < self@.groups.len() && self@.groups[k as int].id == group_id@
                && forall|j: int| 0 <= j < k ==> self@.groups[j].id != group_id@,
    {
        let key: String = group_id.to_owned();
        let mut i: usize = 0;
        while i < self.groups.len()
            invariant
                i <= self.groups.len(),
                key@ == group_id@,
                forall|j: int| 0 <= j < i ==> self@.groups[j].id != group_id@,
            decreases self.groups.len() - i,
        {
            if self.groups[i].id == key {
                assert(group_ids(self@.groups)[i as int] == group_id@);
                return Some(i);
            }
            i += 1;
        }
        assert forall|j: int| 0 <= j < group_ids(self@.groups).len() implies group_ids(
            self@.groups,
        )[j] != group_id@ by {
            assert(self@.groups[j].id != group_id@);
        }
        None
    }

    /// The position and a snapshot of the group with the given id; `None`
    /// where no group has that id.
    pub fn get_group(&self, group_id: &str) -> (r: Option<(usize, Group)>)
        ensures
            r is None <==> !group_ids(self@.groups).contains(group_id@),
            r matches Some(found) ==> found.0 < self@.groups.len() && found.1@
                == self@.groups[found.0 as int] && found.1@.id == group_id@
                && forall|j: int| 0 <= j < found.0 ==> self@.groups[j].id != group_id@,
    {
        match self.index_of_group(group_id) {
            Some(k) => Some((k, self.groups[k].snapshot())),
            None => None,
        }
    }

    /// The group and the place in it at which the row of the given id stands,
    /// if a group holds it.
    pub fn place_of_row(&self, row_id: &str) -> (r: Option<(usize, usize)>)
        ensures
            r is None <==> !holds_row(self@.groups, row_id@),
            r matches Some(p) ==> p.0 < self@.groups.len() && p.1 < self@.groups[p.0 as int].rows.len()
                && self@.groups[p.0 as int].rows[p.1 as int].id == row_id@,
    {
        let mut i: usize = 0;
        while i < self.groups.len()
            invariant
                i <= self.groups.len(),
                forall|k: int, a: int|
                    0 <= k < i && 0 <= a < self@.groups[k].rows.len() ==> (
                    #[trigger] self@.groups[k].rows[a]).id != row_id@,
            decreases self.groups.len() - i,
        {
            match self.groups[i].index_of_row(row_id) {
                Some(a) => {
                    assert(self@.groups[i as int].rows[a as int].id == row_id@);
                    return Some((i, a));
                },
                None => {
                    assert forall|a: int| 0 <= a < self@.groups[i as int].rows.len() implies (
                    #[trigger] self@.groups[i as int].rows[a]).id != row_id@ by {
                        assert(crate::group::row_ids(self@.groups[i as int].rows)[a]
                            == self@.groups[i as int].rows[a].id);
                    }
                },
            }
            i += 1;
        }
        None
    }

    /// Puts every row of `rows` that no group holds into the group that it
    /// belongs to by its value for the field, in the order given. A row that a
    /// group already holds stays where it is. Fails, and changes nothing, where
    /// `field` is not the bound field.
    pub fn fill_groups(&mut self, rows: &[Row], field: &Field) -> (r: Result<(), GroupingError>)
        requires
            old(self).well_formed(),
        ensures
            final(self).well_formed(),
            final(self)@.field_id == old(self)@.field_id,
            r is Ok <==> field@.id == old(self)@.field_id,
            r matches Err(e) ==> e == GroupingError::FieldMismatch && *final(self) == *old(self),
            r is Ok ==> final(self)@.groups == filled(old(self)@.groups, field@, row_views(rows@)),
    {
        if field.id != self.field_id {
            return Err(GroupingError::FieldMismatch);
        }
        let ghost all = row_views(rows@);
        let mut i: usize = 0;
        while i < rows.len()
            invariant
                i <= rows.len(),
                all == row_views(rows@),
                self.well_formed(),
                self@.field_id == old(self)@.field_id,
                field@.id == self@.field_id,
                self@.groups == filled(old(self)@.groups, field@, all.take(i as int)),
            decreases rows.len() - i,
        {
            proof {
                assert(all.take(i as int + 1).drop_last() =~= all.take(i as int));
                assert(all.take(i as int + 1).last() == rows[i as int]@);
            }
            if self.place_of_row(rows[i].id.as_str()).is_none() {
                self.place_row(&rows[i], field);
            }
            i += 1;
        }
        assert(all.take(i as int) =~= all);
        Ok(())
    }

    /// Takes the group `from_group_id` out of the list and puts it at the
    /// place of the group `to_group_id`. Fails, and changes nothing, where
    /// either id is not that of a group.
    pub fn move_group(&mut self, from_group_id: &str, to_group_id: &str) -> (r: Result<
        (),
        GroupingError,
    >)
        requires
            old(self).well_formed(),
        ensures
            final(self).well_formed(),
            final(self)@.field_id == old(self)@.field_id,
            r is Ok <==> group_ids(old(self)@.groups).contains(from_group_id@) && group_ids(
                old(self)@.groups,
            ).contains(to_group_id@),
            r matches Err(e) ==> e == GroupingError::UnknownGroup && *final(self) == *old(self),
            r is Ok ==> final(self)@.groups == with_group_moved(
                old(self)@.groups,
                group_ids(old(self)@.groups).index_of(from_group_id@),
                group_ids(old(self)@.groups).index_of(to_group_id@),
            ),
    {
        let from = match self.index_of_group(from_group_id) {
            Some(k) => k,
            None => { return Err(GroupingError::UnknownGroup); },
        };
        let to = match self.index_of_group(to_group_id) {
            Some(k) => k,
            None => { return Err(GroupingError::UnknownGroup); },
        };
        proof {
            lemma_index_of_group(self@.groups, from as int);
            lemma_index_of_group(self@.groups, to as int);
            lemma_group_moved_keeps_partition(self@.groups, from as int, to as int);
            lemma_group_moved_keeps_defaults(self@.groups, from as int, to as int);
        }
        let group = self.groups.remove(from);
        self.groups.insert(to, group);
        assert(self@.groups =~= with_group_moved(old(self)@.groups, from as int, to as int));
        Ok(())
    }

    /// Looks at an edited row again. A row that no group holds is put into
    /// the group that it belongs to by its value. A row whose value is that of
    /// the row before the edit stays where it is, and so does one that is in
    /// its group already. Any other row moves to the end of its group, which
    /// is made first where the value names an option without a group; a group
    /// that the row leaves empty is deleted, unless it is the default group.
    /// Fails, and changes nothing, where `field` is not the bound field.
    pub fn did_update_group_row(&mut self, old_row: &Option<Row>, row: &Row, field: &Field) -> (r:
        Result<DidUpdateGroupRowResult, GroupingError>)
        requires
            old(self).well_formed(),
        ensures
            final(self).well_formed(),
            final(self)@.field_id == old(self)@.field_id,
            r is Ok <==> field@.id == old(self)@.field_id,
            r matches Err(e) ==> e == GroupingError::FieldMismatch && *final(self) == *old(self),
            r matches Ok(res) ==> final(self)@.groups == updated(
                old(self)@.groups,
                field@,
                row_view_of(*old_row),
                row@,
            ) && res@ == update_report(old(self)@.groups, field@, row_view_of(*old_row), row@),
    {
        if field.id != self.field_id {
            return Err(GroupingError::FieldMismatch);
        }
        let ghost before = self@.groups;
        let (from, at) = match self.place_of_row(row.id.as_str()) {
            Some(p) => p,
            None => {
                let res = self.place_row(row, field);
                return Ok(res);
            },
        };
        proof {
            lemma_place_of_row(before, from as int, at as int);
        }
        let unchanged = DidUpdateGroupRowResult {
            inserted_group: None,
            deleted_group: None,
            row_changesets: Vec::new(),
        };
        assert(unchanged@.row_changesets =~= Seq::empty());
        if let Some(o) = old_row {
            if same_value(o.value_of(field.id.as_str()), row.value_of(field.id.as_str())) {
                return Ok(unchanged);
            }
        }
        let (to, inserted_group) = self.target(row, field);
        if from == to {
            return Ok(unchanged);
        }
        let end = self.groups[to].rows.len();
        let from_id = self.groups[from].id.clone();
        let to_id = self.groups[to].id.clone();
        let (index, deleted_group) = self.shift_row(from, at, to, end);
        let mut row_changesets: Vec<RowChangeset> = Vec::new();
        row_changesets.push(RowChangeset { group_id: from_id, row_id: row.id.clone(), index: None });
        row_changesets.push(RowChangeset { group_id: to_id, row_id: row.id.clone(), index: Some(index) });
        let res = DidUpdateGroupRowResult { inserted_group, deleted_group, row_changesets };
        assert(res@.row_changesets =~= update_report(
            before,
            field@,
            row_view_of(*old_row),
            row@,
        ).row_changesets);
        Ok(res)
    }

    /// Takes a deleted row out of the group that holds it. A group that this
    /// empties is deleted, unless it is the default group. Fails, and changes
    /// nothing, where `field` is not the bound field; where no group holds
    /// the row, nothing changes.
    pub fn did_delete_delete_row(&mut self, row: &Row, field: &Field) -> (r: Result<
        DidMoveGroupRowResult,
        GroupingError,
    >)
        requires
            old(self).well_formed(),
        ensures
            final(self).well_formed(),
            final(self)@.field_id == old(self)@.field_id,
            r is Ok <==> field@.id == old(self)@.field_id,
            r matches Err(e) ==> e == GroupingError::FieldMismatch && *final(self) == *old(self),
            r matches Ok(res) ==> row_delete_outcome(
                old(self)@.groups,
                row@.id,
                final(self)@.groups,
                res@,
            ),
    {
        if field.id != self.field_id {
            return Err(GroupingError::FieldMismatch);
        }
        let (from, at) = match self.place_of_row(row.id.as_str()) {
            Some(p) => p,
            None => {
                return Ok(DidMoveGroupRowResult { deleted_group: None, row_changesets: Vec::new() });
            },
        };
        let ghost before = self@.groups;
        proof {
            lemma_place_of_row(before, from as int, at as int);
            lemma_row_deleted_keeps_partition(before, from as int, at as int);
            lemma_row_deleted_keeps_defaults(before, from as int, at as int);
        }
        let group_id = self.groups[from].id.clone();
        self.take_row(from, at);
        let deleted_group = self.drop_emptied(from);
        let mut row_changesets: Vec<RowChangeset> = Vec::new();
        row_changesets.push(RowChangeset { group_id, row_id: row.id.clone(), index: None });
        let res = DidMoveGroupRowResult { deleted_group, row_changesets };
        assert(res@.row_changesets =~= seq![
            RowChangesetView { group_id: before[from as int].id, row_id: row@.id, index: None },
        ]);
        Ok(res)
    }

    /// Moves a row, as the user asked, out of the group `from_group_id` to
    /// the place `to_index` of the group `to_group_id` (to its end, where the
    /// index lies beyond it). A group that this empties is deleted, unless it
    /// is the default group. Fails, and changes nothing, where either id is
    /// not that of a group; where the row is not in the first group, nothing
    /// changes.
    pub fn move_group_row(&mut self, context: MoveGroupRowContext) -> (r: Result<
        DidMoveGroupRowResult,
        GroupingError,
    >)
        requires
            old(self).well_formed(),
        ensures
            final(self).well_formed(),
            final(self)@.field_id == old(self)@.field_id,
            r is Ok <==> group_ids(old(self)@.groups).contains(context.from_group_id@) && group_ids(
                old(self)@.groups,
            ).contains(context.to_group_id@),
            r matches Err(e) ==> e == GroupingError::UnknownGroup && *final(self) == *old(self),
            r matches Ok(res) ==> row_move_outcome(
                old(self)@.groups,
                context@,
                final(self)@.groups,
                res@,
            ),
    {
        let from = match self.index_of_group(context.from_group_id.as_str()) {
            Some(k) => k,
            None => { return Err(GroupingError::UnknownGroup); },
        };
        let to = match self.index_of_group(context.to_group_id.as_str()) {
            Some(k) => k,
            None => { return Err(GroupingError::UnknownGroup); },
        };
        proof {
            lemma_index_of_group(self@.groups, from as int);
            lemma_index_of_group(self@.groups, to as int);
        }
        let at = match self.groups[from].index_of_row(context.row_id.as_str()) {
            Some(a) => a,
            None => {
                return Ok(DidMoveGroupRowResult { deleted_group: None, row_changesets: Vec::new() });
            },
        };
        proof {
            lemma_index_of_row(self@.groups, from as int, at as int);
        }
        let ghost before = self@.groups;
        let (index, deleted_group) = self.shift_row(from, at, to, context.to_index);
        let mut row_changesets: Vec<RowChangeset> = Vec::new();
        row_changesets.push(
            RowChangeset {
                group_id: context.from_group_id.clone(),
                row_id: context.row_id.clone(),
                index: None,
            },
        );
        row_changesets.push(
            RowChangeset { group_id: context.to_group_id, row_id: context.row_id, index: Some(index) },
        );
        let res = DidMoveGroupRowResult { deleted_group, row_changesets };
        assert(res@.row_changesets =~= row_move_changes(before, context@));
        Ok(res)
    }

    /// Brings the groups in line with a changed definition of the field: a
    /// group of an option takes the option's name, its rows untouched; a group
    /// of an option that is gone hands its rows to the default group and is
    /// deleted; an option without a group gets one. `None` where nothing
    /// changed. Fails, and changes nothing, where `field` is not the bound
    /// field, or where it is no select field any more and the controller has
    /// to be built anew.
    pub fn did_update_group_field(&mut self, field: &Field) -> (r: Result<
        Option<GroupChangeset>,
        GroupingError,
    >)
        requires
            old(self).well_formed(),
        ensures
            final(self).well_formed(),
            final(self)@.field_id == old(self)@.field_id,
            r is Err ==> *final(self) == *old(self),
            r is Ok <==> field@.id == old(self)@.field_id && (field@.field_type
                == FieldType::SingleSelect || field@.field_type == FieldType::MultiSelect),
            r matches Err(e) ==> e == (if field@.id != old(self)@.field_id {
                GroupingError::FieldMismatch
            } else {
                GroupingError::RebuildRequired
            }),
            r is Ok ==> final(self)@.groups == reconciled(old(self)@.groups, field@),
            r matches Ok(report) ==> (report is None <==> is_empty_report(
                reconcile_report(old(self)@.groups, field@),
            )),
            r matches Ok(Some(changes)) ==> changes@ == reconcile_report(old(self)@.groups, field@),
    {
        if field.id != self.field_id {
            return Err(GroupingError::FieldMismatch);
        }
        match field.field_type {
            FieldType::SingleSelect | FieldType::MultiSelect => {},
            _ => { return Err(GroupingError::RebuildRequired); },
        }
        let updated_groups = self.rename_groups(field);
        let deleted_group_ids = self.prune_groups(field);
        let inserted_groups = self.add_option_groups(field);
        if updated_groups.len() == 0 && deleted_group_ids.len() == 0 && inserted_groups.len() == 0 {
            Ok(None)
        } else {
            Ok(
                Some(
                    GroupChangeset {
                        field_id: self.field_id.clone(),
                        inserted_groups,
                        deleted_group_ids,
                        updated_groups,
                    },
                ),
            )
        }
    }

    /// Called before a new row is stored in the group `group_id`: sets the
    /// row's value for the field to the option of that group, so that the row
    /// is then found to belong to it. The row is left as it is where `field`
    /// is not the bound field, where no group has that id and where the group
    /// is a default group.
    pub fn will_create_row(&mut self, row: &mut Row, field: &Field, group_id: &str)
        requires
            old(self).well_formed(),
        ensures
            *final(self) == *old(self),
            final(row)@ == (if stamps_row(old(self)@, field@, group_id@) {
                RowView { cells: stamped(old(row)@.cells, field@.id, group_id@), ..old(row)@ }
            } else {
                old(row)@
            }),
            stamps_row(old(self)@, field@, group_id@) ==> target_of(
                old(self)@.groups,
                field@.id,
                final(row)@,
            ) == group_ids(old(self)@.groups).index_of(group_id@),
    {
        if field.id != self.field_id {
            return;
        }
        match self.index_of_group(group_id) {
            Some(k) => {
                proof {
                    lemma_index_of_group(self@.groups, k as int);
                }
                if !self.groups[k].is_default {
                    row.stamp(field.id.as_str(), group_id);
                }
            },
            None => {},
        }
    }

    /// Called after a new row was stored: appends its summary to the group
    /// with the given id. Nothing changes where no group has that id, or
    /// where a group already holds a row of that id.
    pub fn did_create_row(&mut self, row: &RowSummary, group_id: &str)
        requires
            old(self).well_formed(),
        ensures
            final(self).well_formed(),
            final(self)@.field_id == old(self)@.field_id,
            final(self)@.groups == (if group_ids(old(self)@.groups).contains(group_id@) && !holds_row(
                old(self)@.groups,
                row@.id,
            ) {
                let to = group_ids(old(self)@.groups).index_of(group_id@);
                with_rows_of(old(self)@.groups, to, old(self)@.groups[to].rows.push(row@))
            } else {
                old(self)@.groups
            }),
    {
        let to = match self.index_of_group(group_id) {
            Some(k) => k,
            None => { return; },
        };
        if self.place_of_row(row.id.as_str()).is_some() {
            return;
        }
        proof {
            lemma_index_of_group(self@.groups, to as int);
            lemma_row_appended_keeps_partition(self@.groups, to as int, row@);
        }
        let end = self.groups[to].rows.len();
        self.put_row(to, end, row.duplicate());
    }

    /// Appends the empty group of `option`, unless a group has its id.
    fn add_option_group(&mut self, option: &SelectOption)
        requires
            old(self).well_formed(),
        ensures
            final(self).well_formed(),
            final(self)@.field_id == old(self)@.field_id,
            final(self)@.groups == with_option(old(self)@.groups, old(self)@.field_id, option@),
    {
        if self.index_of_group(option.id.as_str()).is_none() {
            proof {
                lemma_group_added_keeps_partition(self@.groups, option_group(self@.field_id, option@));
            }
            let group = Group::new(
                option.id.clone(),
                self.field_id.clone(),
                option.name.clone(),
                false,
            );
            self.groups.push(group);
            assert(self@.groups =~= old(self)@.groups.push(option_group(self@.field_id, option@)));
        }
    }

    /// Appends the empty group of every option that has none, and hands back
    /// the groups it appended.
    fn add_option_groups(&mut self, field: &Field) -> (inserted: Vec<Group>)
        requires
            old(self).well_formed(),
            field@.id == old(self)@.field_id,
        ensures
            final(self).well_formed(),
            final(self)@.field_id == old(self)@.field_id,
            final(self)@.groups == with_options(old(self)@.groups, field@.id, field@.options),
            group_views(inserted@) == added_options(old(self)@.groups, field@.id, field@.options),
    {
        let ghost before = self@.groups;
        let mut inserted: Vec<Group> = Vec::new();
        let mut i: usize = 0;
        assert(group_views(inserted@) =~= added_options(before, field@.id, field@.options.take(0)));
        while i < field.options.len()
            invariant
                i <= field.options.len(),
                self.well_formed(),
                self@.field_id == old(self)@.field_id,
                field@.id == self@.field_id,
                self@.groups == with_options(before, field@.id, field@.options.take(i as int)),
                group_views(inserted@) == added_options(
                    before,
                    field@.id,
                    field@.options.take(i as int),
                ),
            decreases field.options.len() - i,
        {
            let option = &field.options[i];
            let ghost so_far = group_views(inserted@);
            proof {
                assert(field@.options.take(i as int + 1).drop_last() =~= field@.options.take(i as int));
                assert(field@.options.take(i as int + 1).last() == option@);
            }
            let n = self.groups.len();
            assert(self.groups@.len() == self@.groups.len());
            self.add_option_group(option);
            assert(self.groups@.len() == self@.groups.len());
            if self.groups.len() > n {
                assert(self@.groups[n as int] == self.groups@[n as int]@);
                assert(self@.groups[n as int] == option_group(field@.id, option@));
                inserted.push(self.groups[n].snapshot());
                assert(group_views(inserted@) =~= so_far.push(option_group(field@.id, option@)));
            }
            i += 1;
        }
        assert(field@.options.take(i as int) =~= field@.options);
        inserted
    }

    /// The place of the first default group.
    fn index_of_default(&self) -> (k: usize)
        requires
            has_default(self@.groups),
        ensures
            k == default_place(self@.groups),
            is_default_place(self@.groups, k as int),
    {
        let mut i: usize = 0;
        while i < self.groups.len()
            invariant
                i <= self.groups.len(),
                forall|j: int| 0 <= j < i ==> !(#[trigger] self@.groups[j]).is_default,
            decreases self.groups.len() - i,
        {
            if self.groups[i].is_default {
                proof {
                    lemma_default_place(self@.groups, i as int);
                }
                return i;
            }
            i += 1;
        }
        proof {
            let k = choose|k: int| 0 <= k < self@.groups.len() && (#[trigger] self@.groups[k]).is_default;
            assert(!self@.groups[k].is_default);
        }
        0
    }

    /// Finds the group that the row belongs to by its value for the field,
    /// and makes it first where the value names an option without a group.
    fn target(&mut self, row: &Row, field: &Field) -> (r: (usize, Option<Group>))
        requires
            old(self).well_formed(),
            field@.id == old(self)@.field_id,
        ensures
            final(self).well_formed(),
            final(self)@.field_id == old(self)@.field_id,
            final(self)@.groups == with_target(old(self)@.groups, field@, row@),
            r.0 == target_of(final(self)@.groups, field@.id, row@),
            r.0 < final(self)@.groups.len(),
            r.1 is Some <==> wants_new_group(old(self)@.groups, field@, row@),
            r.1 matches Some(g) ==> g@ == new_group_for(field@, row@),
            r.1 is Some ==> r.0 == old(self)@.groups.len(),
    {
        match row.value_of(field.id.as_str()) {
            Some(d) => match self.index_of_group(d) {
                Some(k) => {
                    proof {
                        lemma_index_of_group(self@.groups, k as int);
                    }
                    (k, None)
                },
                None => match field.index_of_option(d) {
                    Some(o) => {
                        assert(field@.options[o as int] == field.options[o as int]@);
                        assert(wants_new_group(self@.groups, field@, row@));
                        self.add_option_group(&field.options[o]);
                        let k = self.groups.len() - 1;
                        proof {
                            lemma_index_of_group(self@.groups, k as int);
                        }
                        (k, Some(self.groups[k].snapshot()))
                    },
                    None => {
                        assert(!wants_new_group(self@.groups, field@, row@));
                        (self.index_of_default(), None)
                    },
                },
            },
            None => (self.index_of_default(), None),
        }
    }

    /// Appends a row that no group holds to the group that it belongs to by
    /// its value for the field.
    fn place_row(&mut self, row: &Row, field: &Field) -> (r: DidUpdateGroupRowResult)
        requires
            old(self).well_formed(),
            field@.id == old(self)@.field_id,
            !holds_row(old(self)@.groups, row@.id),
        ensures
            final(self).well_formed(),
            final(self)@.field_id == old(self)@.field_id,
            final(self)@.groups == placed(old(self)@.groups, field@, row@),
            r@ == update_report(old(self)@.groups, field@, None, row@),
    {
        let ghost before = self@.groups;
        let (to, inserted_group) = self.target(row, field);
        proof {
            lemma_with_target_holds_same(before, field@, row@, row@.id);
            lemma_row_appended_keeps_partition(self@.groups, to as int, summary_of(row@));
        }
        let end = self.groups[to].rows.len();
        let group_id = self.groups[to].id.clone();
        self.put_row(to, end, RowSummary::from_row(row));
        let mut row_changesets: Vec<RowChangeset> = Vec::new();
        row_changesets.push(RowChangeset { group_id, row_id: row.id.clone(), index: Some(end) });
        let r = DidUpdateGroupRowResult { inserted_group, deleted_group: None, row_changesets };
        assert(r@.row_changesets =~= update_report(before, field@, None, row@).row_changesets);
        r
    }

    /// Takes the row at place `at` out of the group at `from`.
    fn take_row(&mut self, from: usize, at: usize) -> (row: RowSummary)
        requires
            from < old(self)@.groups.len(),
            at < old(self)@.groups[from as int].rows.len(),
        ensures
            row@ == old(self)@.groups[from as int].rows[at as int],
            final(self)@.field_id == old(self)@.field_id,
            final(self)@.groups == with_rows_of(
                old(self)@.groups,
                from as int,
                old(self)@.groups[from as int].rows.remove(at as int),
            ),
    {
        let mut source = self.groups.remove(from);
        let row = source.rows.remove(at);
        assert(source@.rows =~= old(self)@.groups[from as int].rows.remove(at as int));
        self.groups.insert(from, source);
        assert(self@.groups =~= with_rows_of(
            old(self)@.groups,
            from as int,
            old(self)@.groups[from as int].rows.remove(at as int),
        ));
        row
    }

    /// Puts `row` at place `index` of the group at `to`, or at its end where
    /// `index` lies beyond it, and says where it was put.
    fn put_row(&mut self, to: usize, index: usize, row: RowSummary) -> (place: usize)
        requires
            to < old(self)@.groups.len(),
        ensures
            place == (if index < old(self)@.groups[to as int].rows.len() {
                index as int
            } else {
                old(self)@.groups[to as int].rows.len() as int
            }),
            final(self)@.field_id == old(self)@.field_id,
            final(self)@.groups == with_rows_of(
                old(self)@.groups,
                to as int,
                with_row_at(old(self)@.groups[to as int].rows, index as int, row@),
            ),
    {
        let mut target = self.groups.remove(to);
        let place = if index < target.rows.len() {
            index
        } else {
            target.rows.len()
        };
        target.rows.insert(place, row);
        assert(target@.rows =~= with_row_at(old(self)@.groups[to as int].rows, index as int, row@));
        self.groups.insert(to, target);
        assert(self@.groups =~= with_rows_of(
            old(self)@.groups,
            to as int,
            with_row_at(old(self)@.groups[to as int].rows, index as int, row@),
        ));
        place
    }

    /// Deletes the group at `at` where it is empty and not the default group,
    /// and hands back the id of the group it deleted.
    fn drop_emptied(&mut self, at: usize) -> (deleted: Option<String>)
        requires
            at < old(self)@.groups.len(),
        ensures
            final(self)@.field_id == old(self)@.field_id,
            final(self)@.groups == without_emptied(old(self)@.groups, at as int),
            deleted is Some <==> final(self)@.groups.len() < old(self)@.groups.len(),
            deleted matches Some(id) ==> id@ == old(self)@.groups[at as int].id,
    {
        if self.groups[at].rows.len() == 0 && !self.groups[at].is_default {
            let gone = self.groups.remove(at);
            assert(self@.groups =~= old(self)@.groups.remove(at as int));
            Some(gone.id)
        } else {
            None
        }
    }

    /// Moves the row at place `at` of the group at `from` to place `index` of
    /// the group at `to`, deletes the first group where that emptied it and it
    /// is not the default group, and says where the row was put and which
    /// group was deleted.
    fn shift_row(&mut self, from: usize, at: usize, to: usize, index: usize) -> (r: (
        usize,
        Option<String>,
    ))
        requires
            old(self).well_formed(),
            from < old(self)@.groups.len(),
            at < old(self)@.groups[from as int].rows.len(),
            to < old(self)@.groups.len(),
        ensures
            final(self).well_formed(),
            final(self)@.field_id == old(self)@.field_id,
            final(self)@.groups == with_row_moved(
                old(self)@.groups,
                from as int,
                at as int,
                to as int,
                index as int,
            ),
            r.0 == ({
                let room = if from == to {
                    old(self)@.groups[to as int].rows.len() - 1
                } else {
                    old(self)@.groups[to as int].rows.len() as int
                };
                if index < room {
                    index as int
                } else {
                    room
                }
            }),
            r.1 is Some <==> final(self)@.groups.len() < old(self)@.groups.len(),
            r.1 is Some <==> from != to && old(self)@.groups[from as int].rows.len() == 1
                && !old(self)@.groups[from as int].is_default,
            r.1 matches Some(id) ==> id@ == old(self)@.groups[from as int].id,
    {
        proof {
            lemma_row_moved_keeps_partition(
                self@.groups,
                from as int,
                at as int,
                to as int,
                index as int,
            );
            lemma_row_moved_keeps_defaults(
                self@.groups,
                from as int,
                at as int,
                to as int,
                index as int,
            );
        }
        let row = self.take_row(from, at);
        let place = self.put_row(to, index, row);
        let deleted = self.drop_emptied(from);
        (place, deleted)
    }

    /// Gives the group at `at` a new name.
    fn set_group_name(&mut self, at: usize, name: String)
        requires
            at < old(self)@.groups.len(),
        ensures
            final(self)@.field_id == old(self)@.field_id,
            final(self)@.groups == old(self)@.groups.update(
                at as int,
                GroupView { name: name@, ..old(self)@.groups[at as int] },
            ),
    {
        let mut group = self.groups.remove(at);
        group.name = name;
        self.groups.insert(at, group);
        assert(self@.groups =~= old(self)@.groups.update(
            at as int,
            GroupView { name: name@, ..old(self)@.groups[at as int] },
        ));
    }

    /// Gives every group of an option the option's name, and hands back the
    /// groups whose name changed.
    fn rename_groups(&mut self, field: &Field) -> (changed: Vec<Group>)
        requires
            old(self).well_formed(),
        ensures
            final(self).well_formed(),
            final(self)@.field_id == old(self)@.field_id,
            final(self)@.groups == renamed(old(self)@.groups, field@.options),
            group_views(changed@) == renamed_changes(
                old(self)@.groups,
                field@.options,
                old(self)@.groups.len() as int,
            ),
    {
        let ghost before = self@.groups;
        let mut changed: Vec<Group> = Vec::new();
        let mut i: usize = 0;
        assert(group_views(changed@) =~= renamed_changes(before, field@.options, 0));
        while i < self.groups.len()
            invariant
                i <= self.groups.len(),
                before == old(self)@.groups,
                self@.field_id == old(self)@.field_id,
                self@.groups.len() == before.len(),
                forall|j: int| 0 <= j < i ==> self@.groups[j] == renamed_group(before[j], field@.options),
                forall|j: int| i <= j < before.len() ==> self@.groups[j] == before[j],
                group_views(changed@) == renamed_changes(before, field@.options, i as int),
            decreases self.groups.len() - i,
        {
            let ghost so_far = group_views(changed@);
            if !self.groups[i].is_default {
                match field.index_of_option(self.groups[i].id.as_str()) {
                    Some(o) => {
                        assert(field@.options[o as int] == field.options[o as int]@);
                        if self.groups[i].name != field.options[o].name {
                            self.set_group_name(i, field.options[o].name.clone());
                            assert(self.groups@.len() == self@.groups.len());
                            assert(self@.groups[i as int] == self.groups@[i as int]@);
                            assert(self@.groups[i as int] == renamed_group(
                                before[i as int],
                                field@.options,
                            ));
                            changed.push(self.groups[i].snapshot());
                            assert(group_views(changed@) =~= so_far.push(
                                renamed_group(before[i as int], field@.options),
                            ));
                        }
                    },
                    None => {},
                }
            }
            i += 1;
        }
        proof {
            assert(self@.groups =~= renamed(before, field@.options));
            lemma_same_rows_well_grouped(before, self@.groups);
        }
        changed
    }

    /// The place of the first group of an option that the field no longer
    /// has, if there is one.
    fn index_of_stale(&self, field: &Field) -> (r: Option<usize>)
        ensures
            r is Some <==> has_stale(self@.groups, field@.options),
            r matches Some(k) ==> k == first_stale(self@.groups, field@.options) && is_first_stale(
                self@.groups,
                field@.options,
                k as int,
            ),
    {
        let mut i: usize = 0;
        while i < self.groups.len()
            invariant
                i <= self.groups.len(),
                forall|j: int| 0 <= j < i ==> !is_stale(#[trigger] self@.groups[j], field@.options),
            decreases self.groups.len() - i,
        {
            if !self.groups[i].is_default && field.index_of_option(
                self.groups[i].id.as_str(),
            ).is_none() {
                proof {
                    lemma_first_stale(self@.groups, field@.options, i as int);
                }
                return Some(i);
            }
            i += 1;
        }
        proof {
            if has_stale(self@.groups, field@.options) {
                let k = choose|k: int| is_first_stale(self@.groups, field@.options, k);
                assert(!is_stale(self@.groups[k], field@.options));
            }
        }
        None
    }

    /// Appends the rows of the group at `k`, which is no default group, to
    /// the first default group, deletes the group and hands back its id.
    fn merge_into_default(&mut self, k: usize) -> (id: String)
        requires
            old(self).well_formed(),
            k < old(self)@.groups.len(),
            !old(self)@.groups[k as int].is_default,
        ensures
            final(self).well_formed(),
            final(self)@.field_id == old(self)@.field_id,
            final(self)@.groups == without_group(old(self)@.groups, k as int),
            final(self)@.groups.len() == old(self)@.groups.len() - 1,
            id@ == old(self)@.groups[k as int].id,
    {
        let ghost before = self@.groups;
        let d = self.index_of_default();
        proof {
            lemma_without_group_well_grouped(before, k as int);
        }
        let mut gone = self.groups.remove(k);
        let at = if d < k {
            d
        } else {
            (d - 1) as usize
        };
        let mut target = self.groups.remove(at);
        target.rows.append(&mut gone.rows);
        assert(target@.rows =~= before[d as int].rows + before[k as int].rows);
        self.groups.insert(at, target);
        assert(self@.groups =~= without_group(before, k as int));
        gone.id
    }

    /// Deletes every group of an option that the field no longer has, its rows
    /// going to the default group, and hands back the ids of the groups it
    /// deleted.
    fn prune_groups(&mut self, field: &Field) -> (deleted: Vec<String>)
        requires
            old(self).well_formed(),
        ensures
            final(self).well_formed(),
            final(self)@.field_id == old(self)@.field_id,
            final(self)@.groups == pruned(old(self)@.groups, field@.options),
            deleted@.map_values(|id: String| id@) == pruned_ids(old(self)@.groups, field@.options),
    {
        let ghost before = self@.groups;
        let mut deleted: Vec<String> = Vec::new();
        assert(deleted@.map_values(|id: String| id@) + pruned_ids(before, field@.options)
            =~= pruned_ids(before, field@.options));
        loop
            invariant
                self.well_formed(),
                self@.field_id == old(self)@.field_id,
                pruned(self@.groups, field@.options) == pruned(before, field@.options),
                deleted@.map_values(|id: String| id@) + pruned_ids(self@.groups, field@.options)
                    == pruned_ids(before, field@.options),
            ensures
                self.well_formed(),
                self@.field_id == old(self)@.field_id,
                self@.groups == pruned(before, field@.options),
                deleted@.map_values(|id: String| id@) == pruned_ids(before, field@.options),
            decreases self@.groups.len(),
        {
            let ghost so_far = deleted@.map_values(|id: String| id@);
            let ghost current = self@.groups;
            proof {
                let c = choose|c: int| 0 <= c < current.len() && (#[trigger] current[c]).is_default;
                lemma_default_place_exists(current, c);
            }
            match self.index_of_stale(field) {
                Some(k) => {
                    let id = self.merge_into_default(k);
                    deleted.push(id);
                    assert(deleted@.map_values(|id: String| id@) =~= so_far.push(current[k as int].id));
                    assert(deleted@.map_values(|id: String| id@) + pruned_ids(
                        self@.groups,
                        field@.options,
                    ) =~= so_far + pruned_ids(current, field@.options));
                },
                None => {
                    assert(so_far + pruned_ids(current, field@.options) =~= so_far);
                    break ;
                },
            }
        }
        deleted
    }
}

} // verus!
