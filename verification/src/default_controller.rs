//! The grouping strategy for field types without grouping logic of their own:
//! one permanent group that holds every row.

use crate::action::{
    DidMoveGroupRowResult, DidUpdateGroupRowResult, GroupChangeset, GroupingError,
    MoveGroupRowContext,
};
use crate::entities::{row_views, summaries_of, Field, Row, RowSummary, RowView};
use crate::group::{
    distinct_rows, lemma_with_rows_distinct, lemma_with_rows_ids, lemma_with_rows_keeps_prefix,
    lemma_with_rows_of_new, lemma_with_rows_twice, row_ids, with_rows, Group, GroupView,
};
use vstd::prelude::*;

verus! {

/// The id of the one group of a [`DefaultGroupController`].
pub open spec fn default_group_id() -> Seq<char> {
    "DefaultGroupController"@
}

/// Handles the group actions of a field type that has no grouping strategy of
/// its own. It holds one group, and every row is in it.
#[derive(Clone, Debug, PartialEq, Eq)]
pub struct DefaultGroupController {
    pub field_id: String,
    pub group: Group,
}

/// What a [`DefaultGroupController`] holds, as plain values.
pub struct DefaultGroupControllerView {
    pub field_id: Seq<char>,
    pub group: GroupView,
}

impl View for DefaultGroupController {
    type V = DefaultGroupControllerView;

    open spec fn view(&self) -> DefaultGroupControllerView {
        DefaultGroupControllerView { field_id: self.field_id@, group: self.group@ }
    }
}

/// The controller after every row of `rows` was added to its one group, in the
/// order given, a row whose id the group already holds being left where it is.
pub open spec fn filled(c: DefaultGroupControllerView, rows: Seq<RowView>) -> DefaultGroupControllerView {
    DefaultGroupControllerView {
        group: GroupView { rows: with_rows(c.group.rows, summaries_of(rows)), ..c.group },
        ..c
    }
}

impl DefaultGroupController {
    /// The one group holds no row id twice.
    pub open spec fn well_formed(&self) -> bool {
        self.group.well_formed()
    }

    /// A controller bound to `field`, with its one group still empty.
    pub fn new(field: &Field) -> (c: DefaultGroupController)
        ensures
            c.well_formed(),
            c@.field_id == field@.id,
            c@.group == (GroupView {
                id: default_group_id(),
                field_id: field@.id,
                name: Seq::empty(),
                is_default: true,
                rows: Seq::empty(),
            }),
    {
        let group = Group::new(
            "DefaultGroupController".to_owned(),
            field.id.clone(),
            String::new(),
            true,
        );
        DefaultGroupController { field_id: field.id.clone(), group }
    }

    /// The id of the field that drives the grouping.
    pub fn field_id(&self) -> (id: &str)
        ensures
            id@ == self@.field_id,
    {
        self.field_id.as_str()
    }

    /// The groups in order: the one group.
    pub fn groups(&self) -> (gs: Vec<&Group>)
        ensures
            gs@.len() == 1,
            *gs@[0] == self.group,
    {
        let mut gs: Vec<&Group> = Vec::new();
        gs.push(&self.group);
        gs
    }

    /// The position and a snapshot of the group with the given id; `None`
    /// where the id is not that of the one group.
    pub fn get_group(&self, group_id: &str) -> (r: Option<(usize, Group)>)
        ensures
            r is Some <==> group_id@ == self@.group.id,
            r matches Some(found) ==> found.0 == 0 && found.1@ == self@.group,
    {
        let key: String = group_id.to_owned();
        if self.group.id == key {
            Some((0, self.group.snapshot()))
        } else {
            None
        }
    }

    /// Adds every row of `rows` to the one group, in the order given; a row
    /// whose id the group already holds is left where it is.
    pub fn fill_groups(&mut self, rows: &[Row], field: &Field) -> (r: Result<(), GroupingError>)
        requires
            old(self).well_formed(),
        ensures
            r is Ok,
            final(self).well_formed(),
            final(self)@ == filled(old(self)@, row_views(rows@)),
    {
        let ghost all = summaries_of(row_views(rows@));
        let mut i: usize = 0;
        while i < rows.len()
            invariant
                i <= rows.len(),
                all == summaries_of(row_views(rows@)),
                self.well_formed(),
                self@.field_id == old(self)@.field_id,
                self@.group == (GroupView {
                    rows: with_rows(old(self)@.group.rows, all.take(i as int)),
                    ..old(self)@.group
                }),
            decreases rows.len() - i,
        {
            let summary = RowSummary::from_row(&rows[i]);
            proof {
                assert(all.take(i as int + 1).drop_last() =~= all.take(i as int));
                assert(all.take(i as int + 1).last() == summary@);
            }
            self.group.add_row(summary);
            i += 1;
        }
        assert(all.take(i as int) =~= all);
        Ok(())
    }

    /// Reordering groups changes nothing where there is one group: success,
    /// whatever the two ids are.
    pub fn move_group(&mut self, from_group_id: &str, to_group_id: &str) -> (r: Result<
        (),
        GroupingError,
    >)
        ensures
            r is Ok,
            *final(self) == *old(self),
    {
        Ok(())
    }

    /// An edited row stays in the one group: nothing changes.
    pub fn did_update_group_row(&mut self, old_row: &Option<Row>, row: &Row, field: &Field) -> (r:
        Result<DidUpdateGroupRowResult, GroupingError>)
        ensures
            r matches Ok(res) && res.is_unchanged(),
            *final(self) == *old(self),
    {
        Ok(DidUpdateGroupRowResult { inserted_group: None, deleted_group: None, row_changesets: Vec::new() })
    }

    /// A deleted row changes nothing in the group list, and the one group is
    /// never deleted.
    pub fn did_delete_delete_row(&mut self, row: &Row, field: &Field) -> (r: Result<
        DidMoveGroupRowResult,
        GroupingError,
    >)
        ensures
            r matches Ok(res) && res.is_unchanged(),
            *final(self) == *old(self),
    {
        Ok(DidMoveGroupRowResult { deleted_group: None, row_changesets: Vec::new() })
    }

    /// With one group there is nowhere to move a row to: nothing changes.
    pub fn move_group_row(&mut self, context: MoveGroupRowContext) -> (r: Result<
        DidMoveGroupRowResult,
        GroupingError,
    >)
        ensures
            r matches Ok(res) && res.is_unchanged(),
            *final(self) == *old(self),
    {
        Ok(DidMoveGroupRowResult { deleted_group: None, row_changesets: Vec::new() })
    }

    /// A change of the field's definition needs no reconciliation.
    pub fn did_update_group_field(&mut self, field: &Field) -> (r: Result<
        Option<GroupChangeset>,
        GroupingError,
    >)
        ensures
            r matches Ok(changes) && changes is None,
            *final(self) == *old(self),
    {
        Ok(None)
    }

    /// Called before a new row is stored in a group: there is nothing to stamp
    /// on the row.
    pub fn will_create_row(&mut self, row: &mut Row, field: &Field, group_id: &str)
        ensures
            *final(self) == *old(self),
            *final(row) == *old(row),
    {
    }

    /// Called after a new row was stored: the one group is left as it is.
    pub fn did_create_row(&mut self, row: &RowSummary, group_id: &str)
        ensures
            *final(self) == *old(self),
    {
    }
}

/// Filling a second time with the same rows changes nothing: the groups are
/// those of the first filling.
pub proof fn fill_groups_is_idempotent(c: DefaultGroupControllerView, rows: Seq<RowView>)
    ensures
        filled(filled(c, rows), rows) == filled(c, rows),
{
    lemma_with_rows_twice(c.group.rows, summaries_of(rows));
}

/// After a filling every row handed in is in the one group, no row id is in
/// it twice, the rows that were there stand where they stood, and the group
/// holds no id but those it held before and those handed in.
pub proof fn fill_groups_partitions(c: DefaultGroupControllerView, rows: Seq<RowView>)
    requires
        distinct_rows(c.group.rows),
    ensures
        distinct_rows(filled(c, rows).group.rows),
        c.group.rows.is_prefix_of(filled(c, rows).group.rows),
        forall|i: int|
            0 <= i < rows.len() ==> row_ids(filled(c, rows).group.rows).contains(#[trigger] rows[i].id),
        forall|id: Seq<char>| #[trigger]
            row_ids(filled(c, rows).group.rows).contains(id) ==> row_ids(c.group.rows).contains(id)
                || exists|i: int| 0 <= i < rows.len() && #[trigger] rows[i].id == id,
{
    let more = summaries_of(rows);
    lemma_with_rows_distinct(c.group.rows, more);
    lemma_with_rows_keeps_prefix(c.group.rows, more);
    assert forall|i: int| 0 <= i < rows.len() implies row_ids(filled(c, rows).group.rows).contains(
        #[trigger] rows[i].id,
    ) by {
        assert(row_ids(more)[i] == rows[i].id);
        lemma_with_rows_ids(c.group.rows, more, rows[i].id);
    }
    assert forall|id: Seq<char>| #[trigger]
        row_ids(filled(c, rows).group.rows).contains(id) implies row_ids(c.group.rows).contains(id)
        || exists|i: int| 0 <= i < rows.len() && #[trigger] rows[i].id == id by {
        lemma_with_rows_ids(c.group.rows, more, id);
        if row_ids(more).contains(id) {
            let k = choose|k: int| 0 <= k < row_ids(more).len() && row_ids(more)[k] == id;
            assert(rows[k].id == id);
        }
    }
}

/// Filling an empty controller with rows of distinct ids puts exactly those
/// rows in the one group, in the order given.
pub proof fn fill_groups_of_empty(c: DefaultGroupControllerView, rows: Seq<RowView>)
    requires
        c.group.rows.len() == 0,
        distinct_rows(summaries_of(rows)),
    ensures
        filled(c, rows).group.rows == summaries_of(rows),
{
    assert(c.group.rows + summaries_of(rows) =~= summaries_of(rows));
    lemma_with_rows_of_new(c.group.rows, summaries_of(rows));
}

} // verus!
