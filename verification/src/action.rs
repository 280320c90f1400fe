//! What a grouping operation hands back: change descriptions for the view
//! layer, and the errors of the operations that cannot complete.

use crate::group::{Group, GroupView};
use vstd::prelude::*;

verus! {

/// Why a grouping operation could not complete. The state is then unchanged.
#[derive(Clone, Copy, Debug, PartialEq, Eq, Structural)]
pub enum GroupingError {
    /// A lookup or move named a group id that is not in the list.
    UnknownGroup,
    /// The operation was given a field other than the bound one.
    FieldMismatch,
    /// The strategy does not support the field's type.
    InvalidFieldType,
    /// The controller has to be discarded and filled anew.
    RebuildRequired,
}

/// What happened to one row in one group.
#[derive(Clone, Debug, PartialEq, Eq)]
pub struct RowChangeset {
    pub group_id: String,
    pub row_id: String,
    /// The row's new position in the group; `None` where the row left it.
    pub index: Option<usize>,
}

/// What a [`RowChangeset`] holds, as plain values.
pub struct RowChangesetView {
    pub group_id: Seq<char>,
    pub row_id: Seq<char>,
    pub index: Option<int>,
}

impl View for RowChangeset {
    type V = RowChangesetView;

    open spec fn view(&self) -> RowChangesetView {
        RowChangesetView {
            group_id: self.group_id@,
            row_id: self.row_id@,
            index: match self.index {
                Some(i) => Some(i as int),
                None => None,
            },
        }
    }
}

/// The views of a vector of row changesets.
pub open spec fn changeset_views(changes: Seq<RowChangeset>) -> Seq<RowChangesetView> {
    changes.map_values(|c: RowChangeset| c@)
}

/// The outcome of re-evaluating one row after an edit.
#[derive(Clone, Debug, PartialEq, Eq)]
pub struct DidUpdateGroupRowResult {
    pub inserted_group: Option<Group>,
    pub deleted_group: Option<String>,
    pub row_changesets: Vec<RowChangeset>,
}

/// What a [`DidUpdateGroupRowResult`] holds, as plain values.
pub struct DidUpdateGroupRowResultView {
    pub inserted_group: Option<GroupView>,
    pub deleted_group: Option<Seq<char>>,
    pub row_changesets: Seq<RowChangesetView>,
}

impl View for DidUpdateGroupRowResult {
    type V = DidUpdateGroupRowResultView;

    open spec fn view(&self) -> DidUpdateGroupRowResultView {
        DidUpdateGroupRowResultView {
            inserted_group: match self.inserted_group {
                Some(g) => Some(g@),
                None => None,
            },
            deleted_group: match self.deleted_group {
                Some(id) => Some(id@),
                None => None,
            },
            row_changesets: changeset_views(self.row_changesets@),
        }
    }
}

impl DidUpdateGroupRowResult {
    /// Nothing was inserted, deleted or moved.
    pub open spec fn is_unchanged(&self) -> bool {
        &&& self.inserted_group is None
        &&& self.deleted_group is None
        &&& self.row_changesets@.len() == 0
    }
}

/// The outcome of moving or deleting one row.
#[derive(Clone, Debug, PartialEq, Eq)]
pub struct DidMoveGroupRowResult {
    pub deleted_group: Option<String>,
    pub row_changesets: Vec<RowChangeset>,
}

/// What a [`DidMoveGroupRowResult`] holds, as plain values.
pub struct DidMoveGroupRowResultView {
    pub deleted_group: Option<Seq<char>>,
    pub row_changesets: Seq<RowChangesetView>,
}

impl View for DidMoveGroupRowResult {
    type V = DidMoveGroupRowResultView;

    open spec fn view(&self) -> DidMoveGroupRowResultView {
        DidMoveGroupRowResultView {
            deleted_group: match self.deleted_group {
                Some(id) => Some(id@),
                None => None,
            },
            row_changesets: changeset_views(self.row_changesets@),
        }
    }
}

impl DidMoveGroupRowResult {
    /// Nothing was deleted or moved.
    pub open spec fn is_unchanged(&self) -> bool {
        &&& self.deleted_group is None
        &&& self.row_changesets@.len() == 0
    }
}

/// The groups that a change of the field's definition inserted, deleted or
/// updated.
#[derive(Clone, Debug, PartialEq, Eq)]
pub struct GroupChangeset {
    pub field_id: String,
    pub inserted_groups: Vec<Group>,
    pub deleted_group_ids: Vec<String>,
    pub updated_groups: Vec<Group>,
}

/// What a [`GroupChangeset`] holds, as plain values.
pub struct GroupChangesetView {
    pub field_id: Seq<char>,
    pub inserted_groups: Seq<GroupView>,
    pub deleted_group_ids: Seq<Seq<char>>,
    pub updated_groups: Seq<GroupView>,
}

impl View for GroupChangeset {
    type V = GroupChangesetView;

    open spec fn view(&self) -> GroupChangesetView {
        GroupChangesetView {
            field_id: self.field_id@,
            inserted_groups: self.inserted_groups@.map_values(|g: Group| g@),
            deleted_group_ids: self.deleted_group_ids@.map_values(|id: String| id@),
            updated_groups: self.updated_groups@.map_values(|g: Group| g@),
        }
    }
}

/// A user's request to move a row to a position in a group.
#[derive(Clone, Debug, PartialEq, Eq)]
pub struct MoveGroupRowContext {
    pub row_id: String,
    pub from_group_id: String,
    pub to_group_id: String,
    pub to_index: usize,
}

/// What a [`MoveGroupRowContext`] holds, as plain values.
pub struct MoveGroupRowContextView {
    pub row_id: Seq<char>,
    pub from_group_id: Seq<char>,
    pub to_group_id: Seq<char>,
    pub to_index: int,
}

impl View for MoveGroupRowContext {
    type V = MoveGroupRowContextView;

    open spec fn view(&self) -> MoveGroupRowContextView {
        MoveGroupRowContextView {
            row_id: self.row_id@,
            from_group_id: self.from_group_id@,
            to_group_id: self.to_group_id@,
            to_index: self.to_index as int,
        }
    }
}

} // verus!
