//! The controller of one field's grouping: it picks the strategy that fits
//! the field's type, refuses snapshots of another field, hands every
//! operation to the strategy, and builds the grouping anew where the field's
//! type no longer fits the strategy.

use crate::action::{
    DidMoveGroupRowResult, DidUpdateGroupRowResult, GroupChangeset, GroupingError,
    MoveGroupRowContext,
};
use crate::default_controller::{
    default_group_id, DefaultGroupController, DefaultGroupControllerView,
};
use crate::entities::{
    row_view_of, row_views, Field, FieldType, FieldView, Row, RowSummary, RowView,
};
use crate::group::{distinct_rows, Group, GroupView};
use crate::partition::{group_ids, holds_row, well_grouped, with_group_moved, with_rows_of};
use crate::placing::{groups_of_field, update_report, updated};
use crate::reconcile::{is_empty_report, reconcile_report, reconciled};
use crate::select_controller::{
    row_delete_outcome, row_move_outcome, stamps_row, SelectOptionGroupController,
    SelectOptionGroupControllerView,
};
use vstd::prelude::*;

verus! {

/// The strategies by which rows are grouped.
#[derive(Clone, Debug, PartialEq, Eq)]
pub enum GroupingStrategy {
    /// One group for every row.
    Default(DefaultGroupController),
    /// One group for each option of a select field.
    SelectOption(SelectOptionGroupController),
}

/// What a [`GroupController`] holds, as plain values.
pub enum GroupControllerView {
    Default(DefaultGroupControllerView),
    SelectOption(SelectOptionGroupControllerView),
}

/// The controller of one field's grouping.
#[derive(Clone, Debug, PartialEq, Eq)]
pub struct GroupController {
    pub strategy: GroupingStrategy,
}

impl View for GroupController {
    type V = GroupControllerView;

    open spec fn view(&self) -> GroupControllerView {
        match self.strategy {
            GroupingStrategy::Default(c) => GroupControllerView::Default(c@),
            GroupingStrategy::SelectOption(c) => GroupControllerView::SelectOption(c@),
        }
    }
}

/// What a change of the field's definition did to the grouping.
#[derive(Clone, Debug, PartialEq, Eq)]
pub enum FieldUpdate {
    /// The groups are as they were.
    Unchanged,
    /// Groups were inserted, deleted or renamed.
    Changed(GroupChangeset),
    /// The field's type no longer fits the strategy: the grouping was built
    /// anew from the rows.
    Rebuilt,
}

/// The field is a select field.
pub open spec fn is_select(field_type: FieldType) -> bool {
    field_type == FieldType::SingleSelect || field_type == FieldType::MultiSelect
}

/// The id of the field that a controller is bound to.
pub open spec fn bound_field(c: GroupControllerView) -> Seq<char> {
    match c {
        GroupControllerView::Default(d) => d.field_id,
        GroupControllerView::SelectOption(s) => s.field_id,
    }
}

/// The groups of a controller, in order.
pub open spec fn groups_of(c: GroupControllerView) -> Seq<GroupView> {
    match c {
        GroupControllerView::Default(d) => seq![d.group],
        GroupControllerView::SelectOption(s) => s.groups,
    }
}

/// The controller of a field before any row is in its groups: by option for
/// a select field, one group for any other.
pub open spec fn built(field: FieldView) -> GroupControllerView {
    if is_select(field.field_type) {
        GroupControllerView::SelectOption(
            SelectOptionGroupControllerView { field_id: field.id, groups: groups_of_field(field) },
        )
    } else {
        GroupControllerView::Default(
            DefaultGroupControllerView {
                field_id: field.id,
                group: GroupView {
                    id: default_group_id(),
                    field_id: field.id,
                    name: Seq::empty(),
                    is_default: true,
                    rows: Seq::empty(),
                },
            },
        )
    }
}

/// The controller after its groups were filled with rows.
pub open spec fn filled(c: GroupControllerView, field: FieldView, rows: Seq<RowView>) -> GroupControllerView {
    match c {
        GroupControllerView::Default(d) => GroupControllerView::Default(
            crate::default_controller::filled(d, rows),
        ),
        GroupControllerView::SelectOption(s) => GroupControllerView::SelectOption(
            SelectOptionGroupControllerView {
                groups: crate::placing::filled(s.groups, field, rows),
                ..s
            },
        ),
    }
}

/// The strategy of the controller fits the type of the field.
pub open spec fn fits(c: GroupControllerView, field: FieldView) -> bool {
    c is SelectOption <==> is_select(field.field_type)
}

/// The groups of the controller partition their rows: no row id stands at
/// two places, and there is a default group.
pub open spec fn is_partition(c: GroupControllerView) -> bool {
    match c {
        GroupControllerView::Default(d) => distinct_rows(d.group.rows),
        GroupControllerView::SelectOption(s) => well_grouped(s.groups),
    }
}

impl GroupController {
    /// The strategy's groups partition their rows.
    pub open spec fn well_formed(&self) -> bool {
        is_partition(self@)
    }

    /// A controller bound to `field`, with the strategy that fits the field's
    /// type and with empty groups.
    pub fn new(field: &Field) -> (c: GroupController)
        ensures
            c.well_formed(),
            c@ == built(field@),
    {
        match SelectOptionGroupController::new(field) {
            Ok(s) => GroupController { strategy: GroupingStrategy::SelectOption(s) },
            Err(_) => GroupController {
                strategy: GroupingStrategy::Default(DefaultGroupController::new(field)),
            },
        }
    }

    /// The id of the field that drives the grouping.
    pub fn field_id(&self) -> (id: &str)
        ensures
            id@ == bound_field(self@),
    {
        match &self.strategy {
            GroupingStrategy::Default(c) => c.field_id(),
            GroupingStrategy::SelectOption(c) => c.field_id(),
        }
    }

    /// The groups in order.
    pub fn groups(&self) -> (gs: Vec<&Group>)
        ensures
            gs@.len() == groups_of(self@).len(),
            forall|i: int| 0 <= i < gs@.len() ==> (*gs@[i])@ == groups_of(self@)[i],
    {
        match &self.strategy {
            GroupingStrategy::Default(c) => c.groups(),
            GroupingStrategy::SelectOption(c) => c.groups(),
        }
    }

    /// The position and a snapshot of the first group with the given id;
    /// `None` where no group has that id.
    pub fn get_group(&self, group_id: &str) -> (r: Option<(usize, Group)>)
        ensures
            r is None <==> !group_ids(groups_of(self@)).contains(group_id@),
            r matches Some(found) ==> found.0 < groups_of(self@).len() && found.1@ == groups_of(
                self@,
            )[found.0 as int] && found.1@.id == group_id@ && forall|j: int|
                0 <= j < found.0 ==> groups_of(self@)[j].id != group_id@,
    {
        match &self.strategy {
            GroupingStrategy::Default(c) => {
                proof {
                    let ids = group_ids(groups_of(self@));
                    assert(ids.len() == 1 && ids[0] == c@.group.id);
                }
                c.get_group(group_id)
            },
            GroupingStrategy::SelectOption(c) => c.get_group(group_id),
        }
    }

    /// Fills the groups from a full set of rows. Fails, and changes nothing,
    /// where `field` is not the bound field.
    pub fn fill_groups(&mut self, rows: &[Row], field: &Field) -> (r: Result<(), GroupingError>)
        requires
            old(self).well_formed(),
        ensures
            final(self).well_formed(),
            r is Ok <==> field@.id == bound_field(old(self)@),
            r matches Err(e) ==> e == GroupingError::FieldMismatch && *final(self) == *old(self),
            r is Ok ==> final(self)@ == filled(old(self)@, field@, row_views(rows@)),
    {
        match &mut self.strategy {
            GroupingStrategy::Default(c) => {
                if field.id != c.field_id {
                    return Err(GroupingError::FieldMismatch);
                }
                c.fill_groups(rows, field)
            },
            GroupingStrategy::SelectOption(c) => c.fill_groups(rows, field),
        }
    }

    /// Reorders the groups. With one group for every row there is nothing to
    /// reorder, and the call succeeds whatever the ids are; else it fails, and
    /// changes nothing, where either id is not that of a group.
    pub fn move_group(&mut self, from_group_id: &str, to_group_id: &str) -> (r: Result<
        (),
        GroupingError,
    >)
        requires
            old(self).well_formed(),
        ensures
            final(self).well_formed(),
            bound_field(final(self)@) == bound_field(old(self)@),
            r matches Err(e) ==> e == GroupingError::UnknownGroup && *final(self) == *old(self),
            match old(self)@ {
                GroupControllerView::Default(d) => r is Ok && final(self)@ == old(self)@,
                GroupControllerView::SelectOption(s) => {
                    let ids = group_ids(s.groups);
                    &&& final(self)@ is SelectOption
                    &&& r is Ok <==> ids.contains(from_group_id@) && ids.contains(to_group_id@)
                    &&& r is Ok ==> groups_of(final(self)@)
                        == with_group_moved(
                        s.groups,
                        ids.index_of(from_group_id@),
                        ids.index_of(to_group_id@),
                    )
                },
            },
    {
        match &mut self.strategy {
            GroupingStrategy::Default(c) => c.move_group(from_group_id, to_group_id),
            GroupingStrategy::SelectOption(c) => c.move_group(from_group_id, to_group_id),
        }
    }

    /// Looks at an edited row again. Fails, and changes nothing, where
    /// `field` is not the bound field.
    pub fn did_update_group_row(&mut self, old_row: &Option<Row>, row: &Row, field: &Field) -> (r:
        Result<DidUpdateGroupRowResult, GroupingError>)
        requires
            old(self).well_formed(),
        ensures
            final(self).well_formed(),
            bound_field(final(self)@) == bound_field(old(self)@),
            r is Ok <==> field@.id == bound_field(old(self)@),
            r matches Err(e) ==> e == GroupingError::FieldMismatch && *final(self) == *old(self),
            r matches Ok(res) ==> match old(self)@ {
                GroupControllerView::Default(d) => res.is_unchanged() && final(self)@ == old(self)@,
                GroupControllerView::SelectOption(s) => {
                    &&& final(self)@ is SelectOption
                    &&& groups_of(final(self)@) == updated(
                        s.groups,
                        field@,
                        row_view_of(*old_row),
                        row@,
                    )
                    &&& res@ == update_report(s.groups, field@, row_view_of(*old_row), row@)
                },
            },
    {
        match &mut self.strategy {
            GroupingStrategy::Default(c) => {
                if field.id != c.field_id {
                    return Err(GroupingError::FieldMismatch);
                }
                c.did_update_group_row(old_row, row, field)
            },
            GroupingStrategy::SelectOption(c) => c.did_update_group_row(old_row, row, field),
        }
    }

    /// Takes a deleted row out of its group. Fails, and changes nothing,
    /// where `field` is not the bound field.
    pub fn did_delete_delete_row(&mut self, row: &Row, field: &Field) -> (r: Result<
        DidMoveGroupRowResult,
        GroupingError,
    >)
        requires
            old(self).well_formed(),
        ensures
            final(self).well_formed(),
            bound_field(final(self)@) == bound_field(old(self)@),
            r is Ok <==> field@.id == bound_field(old(self)@),
            r matches Err(e) ==> e == GroupingError::FieldMismatch && *final(self) == *old(self),
            r matches Ok(res) ==> match old(self)@ {
                GroupControllerView::Default(d) => res.is_unchanged() && final(self)@ == old(self)@,
                GroupControllerView::SelectOption(s) => final(self)@ is SelectOption
                    && row_delete_outcome(s.groups, row@.id, groups_of(final(self)@), res@),
            },
    {
        match &mut self.strategy {
            GroupingStrategy::Default(c) => {
                if field.id != c.field_id {
                    return Err(GroupingError::FieldMismatch);
                }
                c.did_delete_delete_row(row, field)
            },
            GroupingStrategy::SelectOption(c) => c.did_delete_delete_row(row, field),
        }
    }

    /// Moves a row as the user asked. With one group for every row nothing
    /// changes; else the call fails, and changes nothing, where either id is
    /// not that of a group.
    pub fn move_group_row(&mut self, context: MoveGroupRowContext) -> (r: Result<
        DidMoveGroupRowResult,
        GroupingError,
    >)
        requires
            old(self).well_formed(),
        ensures
            final(self).well_formed(),
            bound_field(final(self)@) == bound_field(old(self)@),
            r matches Err(e) ==> e == GroupingError::UnknownGroup && *final(self) == *old(self),
            match old(self)@ {
                GroupControllerView::Default(d) => r matches Ok(res) && res.is_unchanged()
                    && final(self)@ == old(self)@,
                GroupControllerView::SelectOption(s) => {
                    let ids = group_ids(s.groups);
                    &&& final(self)@ is SelectOption
                    &&& r is Ok <==> ids.contains(context.from_group_id@) && ids.contains(
                        context.to_group_id@,
                    )
                    &&& r matches Ok(res) ==> row_move_outcome(
                        s.groups,
                        context@,
                        groups_of(final(self)@),
                        res@,
                    )
                },
            },
    {
        match &mut self.strategy {
            GroupingStrategy::Default(c) => c.move_group_row(context),
            GroupingStrategy::SelectOption(c) => c.move_group_row(context),
        }
    }

    /// Brings the groups in line with a changed definition of the field.
    /// Where the field's type no longer fits the strategy, the grouping is
    /// built anew for the field and filled from `rows`. Fails, and changes
    /// nothing, where `field` is not the bound field.
    pub fn did_update_group_field(&mut self, field: &Field, rows: &[Row]) -> (r: Result<
        FieldUpdate,
        GroupingError,
    >)
        requires
            old(self).well_formed(),
        ensures
            final(self).well_formed(),
            bound_field(final(self)@) == bound_field(old(self)@),
            r is Ok <==> field@.id == bound_field(old(self)@),
            r matches Err(e) ==> e == GroupingError::FieldMismatch && *final(self) == *old(self),
            r matches Ok(update) ==> if !fits(old(self)@, field@) {
                update is Rebuilt && final(self)@ == filled(built(field@), field@, row_views(rows@))
            } else {
                match old(self)@ {
                    GroupControllerView::Default(d) => update is Unchanged && final(self)@ == old(
                        self,
                    )@,
                    GroupControllerView::SelectOption(s) => {
                        let report = reconcile_report(s.groups, field@);
                        &&& final(self)@ is SelectOption
                        &&& groups_of(final(self)@) == reconciled(s.groups, field@)
                        &&& update is Unchanged <==> is_empty_report(report)
                        &&& update matches FieldUpdate::Changed(changes) ==> changes@ == report
                        &&& !(update is Rebuilt)
                    },
                }
            },
    {
        let select = match field.field_type {
            FieldType::SingleSelect | FieldType::MultiSelect => true,
            _ => false,
        };
        let outcome = match &mut self.strategy {
            GroupingStrategy::Default(c) => {
                if field.id != c.field_id {
                    return Err(GroupingError::FieldMismatch);
                }
                if select {
                    Err(GroupingError::RebuildRequired)
                } else {
                    c.did_update_group_field(field)
                }
            },
            GroupingStrategy::SelectOption(c) => c.did_update_group_field(field),
        };
        match outcome {
            Ok(None) => Ok(FieldUpdate::Unchanged),
            Ok(Some(changes)) => Ok(FieldUpdate::Changed(changes)),
            Err(GroupingError::RebuildRequired) => {
                let mut fresh = GroupController::new(field);
                let filled = fresh.fill_groups(rows, field);
                assert(filled is Ok);
                self.strategy = fresh.strategy;
                Ok(FieldUpdate::Rebuilt)
            },
            Err(e) => Err(GroupingError::FieldMismatch),
        }
    }

    /// Called before a new row is stored in the group `group_id`: lets the
    /// strategy set the row's value for the field so that the row is then
    /// found to belong to that group.
    pub fn will_create_row(&mut self, row: &mut Row, field: &Field, group_id: &str)
        requires
            old(self).well_formed(),
        ensures
            *final(self) == *old(self),
            match old(self)@ {
                GroupControllerView::Default(d) => *final(row) == *old(row),
                GroupControllerView::SelectOption(s) => final(row)@ == (
                if stamps_row(s, field@, group_id@) {
                    RowView {
                        cells: crate::entities::stamped(old(row)@.cells, field@.id, group_id@),
                        ..old(row)@
                    }
                } else {
                    old(row)@
                }),
            },
    {
        match &mut self.strategy {
            GroupingStrategy::Default(c) => c.will_create_row(row, field, group_id),
            GroupingStrategy::SelectOption(c) => c.will_create_row(row, field, group_id),
        }
    }

    /// Called after a new row was stored in the group `group_id`: appends its
    /// summary to that group. With one group for every row nothing changes.
    pub fn did_create_row(&mut self, row: &RowSummary, group_id: &str)
        requires
            old(self).well_formed(),
        ensures
            final(self).well_formed(),
            bound_field(final(self)@) == bound_field(old(self)@),
            match old(self)@ {
                GroupControllerView::Default(d) => final(self)@ == old(self)@,
                GroupControllerView::SelectOption(s) => final(self)@ is SelectOption && groups_of(
                    final(self)@,
                ) == (if group_ids(s.groups).contains(group_id@) && !holds_row(s.groups, row@.id) {
                    let to = group_ids(s.groups).index_of(group_id@);
                    with_rows_of(s.groups, to, s.groups[to].rows.push(row@))
                } else {
                    s.groups
                }),
            },
    {
        match &mut self.strategy {
            GroupingStrategy::Default(c) => c.did_create_row(row, group_id),
            GroupingStrategy::SelectOption(c) => c.did_create_row(row, group_id),
        }
    }
}

/// Filling keeps the groups a partition of their rows, and filling a second
/// time with the same rows and the same field changes nothing: the groups are
/// those of the first filling.
pub proof fn fill_groups_is_idempotent(c: GroupControllerView, field: FieldView, rows: Seq<RowView>)
    requires
        is_partition(c),
    ensures
        is_partition(filled(c, field, rows)),
        filled(filled(c, field, rows), field, rows) == filled(c, field, rows),
{
    match c {
        GroupControllerView::Default(d) => {
            crate::default_controller::fill_groups_partitions(d, rows);
            crate::default_controller::fill_groups_is_idempotent(d, rows);
        },
        GroupControllerView::SelectOption(s) => {
            crate::placing::fill_groups_partitions(s.groups, field, rows);
            crate::placing::fill_groups_is_idempotent(s.groups, field, rows);
        },
    }
}

} // verus!
