//! How the groups follow a change of the field's options: groups are renamed,
//! the groups of options that are gone hand their rows to the default group,
//! and new options get their groups.

use crate::action::GroupChangesetView;
use crate::entities::{
    first_place, is_first_place, lemma_first_place, option_ids, FieldView, SelectOptionView,
};
use crate::group::GroupView;
use crate::partition::{
    default_place, group_ids, holds_row, is_default_place, lemma_default_place_exists,
    lemma_rows_of_keeps_ids, lemma_same_rows_well_grouped, well_grouped, with_rows_of,
};
use crate::placing::{lemma_with_options_well_grouped, option_group, with_options};
use vstd::prelude::*;

verus! {

/// The group after a change of the field's options: a group of an option
/// takes the option's name; its rows are not touched.
pub open spec fn renamed_group(group: GroupView, options: Seq<SelectOptionView>) -> GroupView {
    if !group.is_default && option_ids(options).contains(group.id) {
        GroupView { name: options[first_place(option_ids(options), group.id)].name, ..group }
    } else {
        group
    }
}

/// The groups with each group renamed by [`renamed_group`].
pub open spec fn renamed(groups: Seq<GroupView>, options: Seq<SelectOptionView>) -> Seq<GroupView> {
    groups.map_values(|g: GroupView| renamed_group(g, options))
}

/// Those of the first `n` groups whose name changes by [`renamed_group`],
/// renamed, in their order.
pub open spec fn renamed_changes(groups: Seq<GroupView>, options: Seq<SelectOptionView>, n: int) -> Seq<
    GroupView,
>
    decreases n,
{
    if n <= 0 {
        Seq::empty()
    } else {
        let rest = renamed_changes(groups, options, n - 1);
        if renamed_group(groups[n - 1], options).name != groups[n - 1].name {
            rest.push(renamed_group(groups[n - 1], options))
        } else {
            rest
        }
    }
}

/// The group is of an option that the field no longer has.
pub open spec fn is_stale(group: GroupView, options: Seq<SelectOptionView>) -> bool {
    !group.is_default && !option_ids(options).contains(group.id)
}

/// `k` is the place of the first stale group.
pub open spec fn is_first_stale(groups: Seq<GroupView>, options: Seq<SelectOptionView>, k: int) -> bool {
    &&& 0 <= k < groups.len()
    &&& is_stale(groups[k], options)
    &&& forall|j: int| 0 <= j < k ==> !is_stale(#[trigger] groups[j], options)
}

/// There is a stale group.
pub open spec fn has_stale(groups: Seq<GroupView>, options: Seq<SelectOptionView>) -> bool {
    exists|k: int| is_first_stale(groups, options, k)
}

/// The place of the first stale group, where there is one.
pub open spec fn first_stale(groups: Seq<GroupView>, options: Seq<SelectOptionView>) -> int {
    choose|k: int| is_first_stale(groups, options, k)
}

/// There is a stale group, and a default group to take its rows.
pub open spec fn can_prune(groups: Seq<GroupView>, options: Seq<SelectOptionView>) -> bool {
    &&& is_first_stale(groups, options, first_stale(groups, options))
    &&& is_default_place(groups, default_place(groups))
}

/// The groups after the rows of the group at `k` were appended to the first
/// default group and the group at `k` was deleted.
pub open spec fn without_group(groups: Seq<GroupView>, k: int) -> Seq<GroupView> {
    let d = default_place(groups);
    with_rows_of(groups, d, groups[d].rows + groups[k].rows).remove(k)
}

/// The groups after each stale group, the first one first, was deleted by
/// [`without_group`].
pub open spec fn pruned(groups: Seq<GroupView>, options: Seq<SelectOptionView>) -> Seq<GroupView>
    decreases groups.len(),
{
    if can_prune(groups, options) {
        pruned(without_group(groups, first_stale(groups, options)), options)
    } else {
        groups
    }
}

/// The ids of the groups that [`pruned`] deletes, in the order in which it
/// deletes them.
pub open spec fn pruned_ids(groups: Seq<GroupView>, options: Seq<SelectOptionView>) -> Seq<Seq<char>>
    decreases groups.len(),
{
    if can_prune(groups, options) {
        let k = first_stale(groups, options);
        seq![groups[k].id] + pruned_ids(without_group(groups, k), options)
    } else {
        Seq::empty()
    }
}

/// The groups that [`with_options`] appends, in their order.
pub open spec fn added_options(
    groups: Seq<GroupView>,
    field_id: Seq<char>,
    options: Seq<SelectOptionView>,
) -> Seq<GroupView>
    decreases options.len(),
{
    if options.len() == 0 {
        Seq::empty()
    } else {
        let rest = added_options(groups, field_id, options.drop_last());
        if group_ids(with_options(groups, field_id, options.drop_last())).contains(options.last().id) {
            rest
        } else {
            rest.push(option_group(field_id, options.last()))
        }
    }
}

/// The groups after a change of the field's definition: the groups of the
/// options that are left take their names, the groups of the options that are
/// gone hand their rows to the default group and are deleted, and the new
/// options get their groups.
pub open spec fn reconciled(groups: Seq<GroupView>, field: FieldView) -> Seq<GroupView> {
    with_options(pruned(renamed(groups, field.options), field.options), field.id, field.options)
}

/// What is reported of a change of the field's definition.
pub open spec fn reconcile_report(groups: Seq<GroupView>, field: FieldView) -> GroupChangesetView {
    let kept = renamed(groups, field.options);
    GroupChangesetView {
        field_id: field.id,
        inserted_groups: added_options(pruned(kept, field.options), field.id, field.options),
        deleted_group_ids: pruned_ids(kept, field.options),
        updated_groups: renamed_changes(groups, field.options, groups.len() as int),
    }
}

/// The report holds no change.
pub open spec fn is_empty_report(report: GroupChangesetView) -> bool {
    &&& report.inserted_groups.len() == 0
    &&& report.deleted_group_ids.len() == 0
    &&& report.updated_groups.len() == 0
}

/// The first stale group is the only one that meets [`is_first_stale`].
pub proof fn lemma_first_stale(groups: Seq<GroupView>, options: Seq<SelectOptionView>, k: int)
    requires
        is_first_stale(groups, options, k),
    ensures
        first_stale(groups, options) == k,
        has_stale(groups, options),
{
    let c = first_stale(groups, options);
    assert(is_first_stale(groups, options, c));
    if c < k {
        assert(!is_stale(groups[c], options));
    }
    if k < c {
        assert(!is_stale(groups[k], options));
    }
}

/// Handing the rows of a group that is no default group to the default group
/// and deleting it keeps the groups well grouped: its id is gone, and the
/// default group holds its own rows followed by those of the group.
pub proof fn lemma_without_group_well_grouped(groups: Seq<GroupView>, k: int)
    requires
        well_grouped(groups),
        0 <= k < groups.len(),
        !groups[k].is_default,
    ensures
        well_grouped(without_group(groups, k)),
        is_default_place(groups, default_place(groups)),
        default_place(groups) != k,
        without_group(groups, k).len() == groups.len() - 1,
        !group_ids(without_group(groups, k)).contains(groups[k].id),
        ({
            let d = default_place(groups);
            let at = if d < k { d } else { d - 1 };
            without_group(groups, k)[at] == (GroupView {
                rows: groups[d].rows + groups[k].rows,
                ..groups[d]
            })
        }),
{
    let c = choose|c: int| 0 <= c < groups.len() && (#[trigger] groups[c]).is_default;
    lemma_default_place_exists(groups, c);
    let d = default_place(groups);
    let merged = with_rows_of(groups, d, groups[d].rows + groups[k].rows);
    let after = without_group(groups, k);
    let at = if d < k { d } else { d - 1 };
    lemma_rows_of_keeps_ids(groups, d, groups[d].rows + groups[k].rows);
    assert forall|i: int, j: int| 0 <= i < after.len() && 0 <= j < after.len() && i != j implies
        #[trigger] group_ids(after)[i] != #[trigger] group_ids(after)[j] by {
        let oi = if i < k { i } else { i + 1 };
        let oj = if j < k { j } else { j + 1 };
        assert(group_ids(groups)[oi] != group_ids(groups)[oj]);
    }
    assert forall|m: int| 0 <= m < after.len() implies group_ids(after)[m] != groups[k].id by {
        let o = if m < k { m } else { m + 1 };
        assert(group_ids(groups)[o] == after[m].id);
        assert(group_ids(groups)[k] == groups[k].id);
    }
    assert forall|i: int, a: int, j: int, b: int|
        0 <= i < after.len() && 0 <= a < after[i].rows.len() && 0 <= j < after.len() && 0 <= b
            < after[j].rows.len() && (i != j || a != b) implies (#[trigger] after[i].rows[a]).id
        != (#[trigger] after[j].rows[b]).id by {
        let oi = if i < k { i } else { i + 1 };
        let oj = if j < k { j } else { j + 1 };
        let n = groups[d].rows.len() as int;
        let (gi, ga) = if i == at && a >= n { (k, a - n) } else { (oi, a) };
        let (gj, gb) = if j == at && b >= n { (k, b - n) } else { (oj, b) };
        assert(after[i].rows[a] == groups[gi].rows[ga]);
        assert(after[j].rows[b] == groups[gj].rows[gb]);
        assert(groups[gi].rows[ga].id != groups[gj].rows[gb].id);
    }
    assert(after[at].is_default);
}

/// Renaming touches no rows: every group keeps its id and its rows, and a
/// group of an option bears the option's name.
pub proof fn rename_keeps_rows(groups: Seq<GroupView>, options: Seq<SelectOptionView>, k: int, o: int)
    requires
        0 <= k < groups.len(),
        0 <= o < options.len(),
        !groups[k].is_default,
        is_first_place(option_ids(options), groups[k].id, o),
    ensures
        renamed(groups, options).len() == groups.len(),
        forall|j: int|
            0 <= j < groups.len() ==> (#[trigger] renamed(groups, options)[j]).rows == groups[j].rows
                && renamed(groups, options)[j].id == groups[j].id,
        renamed(groups, options)[k].name == options[o].name,
{
    lemma_first_place(option_ids(options), groups[k].id, o);
}

/// Deleting the group of an option that is gone loses no row: the groups
/// hold the same row ids before and after it.
pub proof fn group_delete_keeps_every_row(groups: Seq<GroupView>, k: int, id: Seq<char>)
    requires
        well_grouped(groups),
        0 <= k < groups.len(),
        !groups[k].is_default,
    ensures
        holds_row(without_group(groups, k), id) <==> holds_row(groups, id),
{
    lemma_without_group_well_grouped(groups, k);
    let d = default_place(groups);
    let n = groups[d].rows.len() as int;
    let at = if d < k { d } else { d - 1 };
    let after = without_group(groups, k);
    if holds_row(after, id) {
        let (i, a): (int, int) = choose|i: int, a: int|
            0 <= i < after.len() && 0 <= a < after[i].rows.len() && (#[trigger] after[i].rows[a]).id
                == id;
        let oi = if i < k { i } else { i + 1 };
        if i == at && a >= n {
            assert(groups[k].rows[a - n].id == id);
        } else {
            assert(groups[oi].rows[a].id == id);
        }
    }
    if holds_row(groups, id) {
        let (i, a): (int, int) = choose|i: int, a: int|
            0 <= i < groups.len() && 0 <= a < groups[i].rows.len() && (
            #[trigger] groups[i].rows[a]).id == id;
        if i == k {
            assert(after[at].rows[n + a].id == id);
        } else {
            let ni = if i < k { i } else { i - 1 };
            assert(after[ni].rows[a].id == id);
        }
    }
}

/// Renaming keeps the groups well grouped, and the same row ids are held.
pub proof fn lemma_renamed_well_grouped(
    groups: Seq<GroupView>,
    options: Seq<SelectOptionView>,
    id: Seq<char>,
)
    requires
        well_grouped(groups),
    ensures
        well_grouped(renamed(groups, options)),
        holds_row(renamed(groups, options), id) <==> holds_row(groups, id),
{
    let after = renamed(groups, options);
    lemma_same_rows_well_grouped(groups, after);
    if holds_row(groups, id) {
        let (i, a): (int, int) = choose|i: int, a: int|
            0 <= i < groups.len() && 0 <= a < groups[i].rows.len() && (
            #[trigger] groups[i].rows[a]).id == id;
        assert(after[i].rows[a].id == id);
    }
    if holds_row(after, id) {
        let (i, a): (int, int) = choose|i: int, a: int|
            0 <= i < after.len() && 0 <= a < after[i].rows.len() && (#[trigger] after[i].rows[a]).id
                == id;
        assert(groups[i].rows[a].id == id);
    }
}

/// Deleting the stale groups keeps the groups well grouped, and the same row
/// ids are held: the rows of a deleted group are in the default group.
pub proof fn lemma_pruned_well_grouped(
    groups: Seq<GroupView>,
    options: Seq<SelectOptionView>,
    id: Seq<char>,
)
    requires
        well_grouped(groups),
    ensures
        well_grouped(pruned(groups, options)),
        holds_row(pruned(groups, options), id) <==> holds_row(groups, id),
        forall|k: int|
            0 <= k < pruned(groups, options).len() ==> !is_stale(
                #[trigger] pruned(groups, options)[k],
                options,
            ),
    decreases groups.len(),
{
    if can_prune(groups, options) {
        let k = first_stale(groups, options);
        lemma_without_group_well_grouped(groups, k);
        group_delete_keeps_every_row(groups, k, id);
        lemma_pruned_well_grouped(without_group(groups, k), options, id);
    } else {
        let c = choose|c: int| 0 <= c < groups.len() && (#[trigger] groups[c]).is_default;
        lemma_default_place_exists(groups, c);
        assert forall|k: int| 0 <= k < groups.len() implies !is_stale(#[trigger] groups[k], options) by {
            if is_stale(groups[k], options) {
                lemma_first_stale_exists(groups, options, k);
            }
        }
    }
}

/// Where there is a stale group, there is a first one.
pub proof fn lemma_first_stale_exists(groups: Seq<GroupView>, options: Seq<SelectOptionView>, k: int)
    requires
        0 <= k < groups.len(),
        is_stale(groups[k], options),
    ensures
        is_first_stale(groups, options, first_stale(groups, options)),
    decreases k,
{
    if forall|j: int| 0 <= j < k ==> !is_stale(#[trigger] groups[j], options) {
        assert(is_first_stale(groups, options, k));
    } else {
        let j = choose|j: int| 0 <= j < k && is_stale(#[trigger] groups[j], options);
        lemma_first_stale_exists(groups, options, j);
    }
}

/// A change of the field's definition loses no row and adds none: the groups
/// stay well grouped and hold the same row ids before and after it, and no
/// group of an option that is gone is left.
pub proof fn field_update_keeps_every_row(groups: Seq<GroupView>, field: FieldView, id: Seq<char>)
    requires
        well_grouped(groups),
    ensures
        well_grouped(reconciled(groups, field)),
        holds_row(reconciled(groups, field), id) <==> holds_row(groups, id),
        forall|k: int|
            0 <= k < pruned(renamed(groups, field.options), field.options).len() ==> !is_stale(
                #[trigger] pruned(renamed(groups, field.options), field.options)[k],
                field.options,
            ),
{
    let kept = renamed(groups, field.options);
    lemma_renamed_well_grouped(groups, field.options, id);
    lemma_pruned_well_grouped(kept, field.options, id);
    lemma_with_options_well_grouped(pruned(kept, field.options), field.id, field.options, id);
}

} // verus!
