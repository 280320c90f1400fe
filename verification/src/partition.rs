//! An ordered list of groups that partition their rows: what it means, how
//! moving a group, moving a row and deleting a row change the list, and that
//! each of these keeps the partition and the default group.

use crate::entities::RowSummaryView;
use crate::group::{row_ids, with_row_at, Group, GroupView};
use vstd::prelude::*;

verus! {

/// The views of a vector of groups.
pub open spec fn group_views(groups: Seq<Group>) -> Seq<GroupView> {
    groups.map_values(|g: Group| g@)
}

/// The ids of a sequence of groups, in the same order.
pub open spec fn group_ids(groups: Seq<GroupView>) -> Seq<Seq<char>> {
    groups.map_values(|g: GroupView| g.id)
}

/// No row id stands at two places of the groups: neither twice in one group
/// nor in two groups.
pub open spec fn partitioned(groups: Seq<GroupView>) -> bool {
    forall|i: int, a: int, j: int, b: int|
        0 <= i < groups.len() && 0 <= a < groups[i].rows.len() && 0 <= j < groups.len() && 0 <= b
            < groups[j].rows.len() && (i != j || a != b) ==> (#[trigger] groups[i].rows[a]).id
            != (#[trigger] groups[j].rows[b]).id
}

/// Some group holds a row of the given id.
pub open spec fn holds_row(groups: Seq<GroupView>, row_id: Seq<char>) -> bool {
    exists|i: int, a: int|
        0 <= i < groups.len() && 0 <= a < groups[i].rows.len() && (#[trigger] groups[i].rows[a]).id
            == row_id
}

/// The groups after the group at `from` was taken out and put back at `to`.
pub open spec fn with_group_moved(groups: Seq<GroupView>, from: int, to: int) -> Seq<GroupView> {
    groups.remove(from).insert(to, groups[from])
}

/// The groups with the rows of the group at `at` replaced.
pub open spec fn with_rows_of(groups: Seq<GroupView>, at: int, rows: Seq<RowSummaryView>) -> Seq<
    GroupView,
> {
    groups.update(at, GroupView { rows, ..groups[at] })
}

/// The groups without the group at `at`, where that group is empty and not
/// the default group; else the groups as they are.
pub open spec fn without_emptied(groups: Seq<GroupView>, at: int) -> Seq<GroupView> {
    if groups[at].rows.len() == 0 && !groups[at].is_default {
        groups.remove(at)
    } else {
        groups
    }
}

/// The groups after the row at place `at` of the group at `from` was taken out
/// and put at `index` of the group at `to` (at its end, where `index` lies
/// beyond it), and the group at `from`, if that emptied it and it is not the
/// default group, was deleted.
pub open spec fn with_row_moved(groups: Seq<GroupView>, from: int, at: int, to: int, index: int) -> Seq<
    GroupView,
> {
    let row = groups[from].rows[at];
    let taken = with_rows_of(groups, from, groups[from].rows.remove(at));
    let put = with_rows_of(taken, to, with_row_at(taken[to].rows, index, row));
    without_emptied(put, from)
}

/// The groups after the row at place `at` of the group at `from` was taken
/// out, and the group, if that emptied it and it is not the default group, was
/// deleted.
pub open spec fn with_row_deleted(groups: Seq<GroupView>, from: int, at: int) -> Seq<GroupView> {
    without_emptied(with_rows_of(groups, from, groups[from].rows.remove(at)), from)
}

/// Some group is a default group.
pub open spec fn has_default(groups: Seq<GroupView>) -> bool {
    exists|k: int| 0 <= k < groups.len() && (#[trigger] groups[k]).is_default
}

/// Every default group of `before` is still a group of `after`, and still a
/// default group.
pub open spec fn defaults_kept(before: Seq<GroupView>, after: Seq<GroupView>) -> bool {
    forall|k: int|
        0 <= k < before.len() && (#[trigger] before[k]).is_default ==> exists|m: int|
            0 <= m < after.len() && (#[trigger] after[m]).is_default && after[m].id == before[k].id
}

/// The group and the place in it at which a row of the given id stands.
pub open spec fn place_of(groups: Seq<GroupView>, row_id: Seq<char>) -> (int, int) {
    choose|p: (int, int)|
        0 <= p.0 < groups.len() && 0 <= p.1 < groups[p.0].rows.len() && (
        #[trigger] groups[p.0].rows[p.1]).id == row_id
}

/// `k` is the place of the first default group.
pub open spec fn is_default_place(groups: Seq<GroupView>, k: int) -> bool {
    &&& 0 <= k < groups.len()
    &&& groups[k].is_default
    &&& forall|j: int| 0 <= j < k ==> !(#[trigger] groups[j]).is_default
}

/// The place of the first default group, where there is one.
pub open spec fn default_place(groups: Seq<GroupView>) -> int {
    choose|k: int| is_default_place(groups, k)
}

/// No two groups share an id, the groups partition their rows, and there is
/// a default group.
pub open spec fn well_grouped(groups: Seq<GroupView>) -> bool {
    &&& group_ids(groups).no_duplicates()
    &&& partitioned(groups)
    &&& has_default(groups)
}

/// Where no two groups share an id, a group is found by its id at its own
/// place.
pub proof fn lemma_index_of_group(groups: Seq<GroupView>, k: int)
    requires
        group_ids(groups).no_duplicates(),
        0 <= k < groups.len(),
    ensures
        group_ids(groups).index_of(groups[k].id) == k,
        group_ids(groups).contains(groups[k].id),
{
    let ids = group_ids(groups);
    assert(ids[k] == groups[k].id);
    let found = ids.index_of(groups[k].id);
    assert(0 <= found < ids.len() && ids[found] == groups[k].id);
}

/// The place that the group at place `i` after a move had before it.
pub open spec fn place_before_move(from: int, to: int, i: int) -> int {
    if i == to {
        from
    } else {
        let rest = if i < to { i } else { i - 1 };
        if rest < from { rest } else { rest + 1 }
    }
}

/// Moving a group keeps the group ids distinct and the rows partitioned.
pub proof fn lemma_group_moved_keeps_partition(groups: Seq<GroupView>, from: int, to: int)
    requires
        group_ids(groups).no_duplicates(),
        partitioned(groups),
        0 <= from < groups.len(),
        0 <= to < groups.len(),
    ensures
        group_ids(with_group_moved(groups, from, to)).no_duplicates(),
        partitioned(with_group_moved(groups, from, to)),
{
    let moved = with_group_moved(groups, from, to);
    assert forall|i: int| 0 <= i < moved.len() implies 0 <= #[trigger] place_before_move(
        from,
        to,
        i,
    ) < groups.len() && moved[i] == groups[place_before_move(from, to, i)] by {}
    assert forall|i: int, j: int| 0 <= i < moved.len() && 0 <= j < moved.len() && i != j implies
        #[trigger] group_ids(moved)[i] != #[trigger] group_ids(moved)[j] by {
        let oi = place_before_move(from, to, i);
        let oj = place_before_move(from, to, j);
        assert(moved[i] == groups[oi] && moved[j] == groups[oj]);
        assert(group_ids(groups)[oi] != group_ids(groups)[oj]);
    }
    assert forall|i: int, a: int, j: int, b: int|
        0 <= i < moved.len() && 0 <= a < moved[i].rows.len() && 0 <= j < moved.len() && 0 <= b
            < moved[j].rows.len() && (i != j || a != b) implies (#[trigger] moved[i].rows[a]).id
        != (#[trigger] moved[j].rows[b]).id by {
        let oi = place_before_move(from, to, i);
        let oj = place_before_move(from, to, j);
        assert(moved[i] == groups[oi] && moved[j] == groups[oj]);
        assert(groups[oi].rows[a].id != groups[oj].rows[b].id);
    }
}

/// Where the groups partition their rows, a row is found by its id at its own
/// place in its group.
pub proof fn lemma_index_of_row(groups: Seq<GroupView>, k: int, at: int)
    requires
        partitioned(groups),
        0 <= k < groups.len(),
        0 <= at < groups[k].rows.len(),
    ensures
        row_ids(groups[k].rows).index_of(groups[k].rows[at].id) == at,
        row_ids(groups[k].rows).contains(groups[k].rows[at].id),
{
    let ids = row_ids(groups[k].rows);
    assert(ids[at] == groups[k].rows[at].id);
    let found = ids.index_of(groups[k].rows[at].id);
    assert(0 <= found < ids.len() && ids[found] == groups[k].rows[at].id);
    assert(groups[k].rows[found].id == ids[found]);
}

/// Taking a row out keeps the partition, and no group holds the row's id
/// afterwards.
pub proof fn lemma_row_taken_keeps_partition(groups: Seq<GroupView>, from: int, at: int)
    requires
        partitioned(groups),
        0 <= from < groups.len(),
        0 <= at < groups[from].rows.len(),
    ensures
        partitioned(with_rows_of(groups, from, groups[from].rows.remove(at))),
        !holds_row(with_rows_of(groups, from, groups[from].rows.remove(at)), groups[from].rows[at].id),
{
    let taken = with_rows_of(groups, from, groups[from].rows.remove(at));
    assert forall|i: int, a: int| 0 <= i < taken.len() && 0 <= a < taken[i].rows.len() implies {
        let a0 = if i == from && a >= at { a + 1 } else { a };
        &&& 0 <= a0 < groups[i].rows.len()
        &&& (#[trigger] taken[i].rows[a]) == groups[i].rows[a0]
        &&& (i != from || a0 != at)
    } by {}
    assert forall|i: int, a: int, j: int, b: int|
        0 <= i < taken.len() && 0 <= a < taken[i].rows.len() && 0 <= j < taken.len() && 0 <= b
            < taken[j].rows.len() && (i != j || a != b) implies (#[trigger] taken[i].rows[a]).id
        != (#[trigger] taken[j].rows[b]).id by {
        let a0 = if i == from && a >= at { a + 1 } else { a };
        let b0 = if j == from && b >= at { b + 1 } else { b };
        assert(groups[i].rows[a0].id != groups[j].rows[b0].id);
    }
    assert forall|i: int, a: int| 0 <= i < taken.len() && 0 <= a < taken[i].rows.len() implies (
    #[trigger] taken[i].rows[a]).id != groups[from].rows[at].id by {
        let a0 = if i == from && a >= at { a + 1 } else { a };
        assert(groups[i].rows[a0].id != groups[from].rows[at].id);
    }
}

/// Putting a row whose id no group holds into a group keeps the partition.
pub proof fn lemma_row_put_keeps_partition(
    groups: Seq<GroupView>,
    to: int,
    index: int,
    row: RowSummaryView,
)
    requires
        partitioned(groups),
        !holds_row(groups, row.id),
        0 <= to < groups.len(),
    ensures
        partitioned(with_rows_of(groups, to, with_row_at(groups[to].rows, index, row))),
{
    let put = with_rows_of(groups, to, with_row_at(groups[to].rows, index, row));
    let p = if 0 <= index < groups[to].rows.len() { index } else { groups[to].rows.len() as int };
    assert forall|i: int, a: int| 0 <= i < put.len() && 0 <= a < put[i].rows.len() implies {
        let a0 = if i == to && a > p { a - 1 } else { a };
        if i == to && a == p {
            (#[trigger] put[i].rows[a]) == row
        } else {
            0 <= a0 < groups[i].rows.len() && put[i].rows[a] == groups[i].rows[a0]
        }
    } by {}
    assert forall|i: int, a: int, j: int, b: int|
        0 <= i < put.len() && 0 <= a < put[i].rows.len() && 0 <= j < put.len() && 0 <= b
            < put[j].rows.len() && (i != j || a != b) implies (#[trigger] put[i].rows[a]).id
        != (#[trigger] put[j].rows[b]).id by {
        let a0 = if i == to && a > p { a - 1 } else { a };
        let b0 = if j == to && b > p { b - 1 } else { b };
        if i == to && a == p {
            assert(groups[j].rows[b0].id != row.id);
        } else if j == to && b == p {
            assert(groups[i].rows[a0].id != row.id);
        } else {
            assert(groups[i].rows[a0].id != groups[j].rows[b0].id);
        }
    }
}

/// Deleting a group keeps the group ids distinct and the rows partitioned.
pub proof fn lemma_group_deleted_keeps_partition(groups: Seq<GroupView>, k: int)
    requires
        group_ids(groups).no_duplicates(),
        partitioned(groups),
        0 <= k < groups.len(),
    ensures
        group_ids(groups.remove(k)).no_duplicates(),
        partitioned(groups.remove(k)),
{
    let rest = groups.remove(k);
    assert forall|i: int, j: int| 0 <= i < rest.len() && 0 <= j < rest.len() && i != j implies
        #[trigger] group_ids(rest)[i] != #[trigger] group_ids(rest)[j] by {
        let oi = if i < k { i } else { i + 1 };
        let oj = if j < k { j } else { j + 1 };
        assert(group_ids(groups)[oi] != group_ids(groups)[oj]);
    }
    assert forall|i: int, a: int, j: int, b: int|
        0 <= i < rest.len() && 0 <= a < rest[i].rows.len() && 0 <= j < rest.len() && 0 <= b
            < rest[j].rows.len() && (i != j || a != b) implies (#[trigger] rest[i].rows[a]).id
        != (#[trigger] rest[j].rows[b]).id by {
        let oi = if i < k { i } else { i + 1 };
        let oj = if j < k { j } else { j + 1 };
        assert(groups[oi].rows[a].id != groups[oj].rows[b].id);
    }
}

/// Replacing the rows of a group leaves the group ids as they are.
pub proof fn lemma_rows_of_keeps_ids(groups: Seq<GroupView>, at: int, rows: Seq<RowSummaryView>)
    requires
        0 <= at < groups.len(),
    ensures
        group_ids(with_rows_of(groups, at, rows)) == group_ids(groups),
{
    assert(group_ids(with_rows_of(groups, at, rows)) =~= group_ids(groups));
}

/// Deleting a group that was emptied, if it is not the default group, keeps
/// the group ids distinct and the rows partitioned.
pub proof fn lemma_without_emptied_keeps_partition(groups: Seq<GroupView>, at: int)
    requires
        group_ids(groups).no_duplicates(),
        partitioned(groups),
        0 <= at < groups.len(),
    ensures
        group_ids(without_emptied(groups, at)).no_duplicates(),
        partitioned(without_emptied(groups, at)),
{
    lemma_group_deleted_keeps_partition(groups, at);
}

/// Moving a row keeps the group ids distinct and the rows partitioned.
pub proof fn lemma_row_moved_keeps_partition(
    groups: Seq<GroupView>,
    from: int,
    at: int,
    to: int,
    index: int,
)
    requires
        group_ids(groups).no_duplicates(),
        partitioned(groups),
        0 <= from < groups.len(),
        0 <= at < groups[from].rows.len(),
        0 <= to < groups.len(),
    ensures
        group_ids(with_row_moved(groups, from, at, to, index)).no_duplicates(),
        partitioned(with_row_moved(groups, from, at, to, index)),
{
    let row = groups[from].rows[at];
    let taken = with_rows_of(groups, from, groups[from].rows.remove(at));
    lemma_row_taken_keeps_partition(groups, from, at);
    lemma_rows_of_keeps_ids(groups, from, groups[from].rows.remove(at));
    let put = with_rows_of(taken, to, with_row_at(taken[to].rows, index, row));
    lemma_row_put_keeps_partition(taken, to, index, row);
    lemma_rows_of_keeps_ids(taken, to, with_row_at(taken[to].rows, index, row));
    lemma_without_emptied_keeps_partition(put, from);
}

/// Where the groups partition their rows, a row is found by its id at its own
/// place.
pub proof fn lemma_place_of_row(groups: Seq<GroupView>, k: int, at: int)
    requires
        partitioned(groups),
        0 <= k < groups.len(),
        0 <= at < groups[k].rows.len(),
    ensures
        place_of(groups, groups[k].rows[at].id) == (k, at),
        holds_row(groups, groups[k].rows[at].id),
{
    let id = groups[k].rows[at].id;
    let here = (k, at);
    assert(0 <= here.0 < groups.len() && 0 <= here.1 < groups[here.0].rows.len()
        && groups[here.0].rows[here.1].id == id);
    let p = place_of(groups, id);
    assert(0 <= p.0 < groups.len() && 0 <= p.1 < groups[p.0].rows.len() && groups[p.0].rows[p.1].id
        == id);
    assert(p.0 == k && p.1 == at);
}

/// Where default groups are kept, there is one afterwards if there was one.
pub proof fn lemma_defaults_kept_has_default(before: Seq<GroupView>, after: Seq<GroupView>)
    requires
        has_default(before),
        defaults_kept(before, after),
    ensures
        has_default(after),
{
    let k = choose|k: int| 0 <= k < before.len() && (#[trigger] before[k]).is_default;
    assert(before[k].is_default);
}

/// Moving a group deletes no default group.
pub proof fn lemma_group_moved_keeps_defaults(groups: Seq<GroupView>, from: int, to: int)
    requires
        0 <= from < groups.len(),
        0 <= to < groups.len(),
    ensures
        defaults_kept(groups, with_group_moved(groups, from, to)),
        has_default(groups) ==> has_default(with_group_moved(groups, from, to)),
{
    let moved = with_group_moved(groups, from, to);
    assert forall|k: int| 0 <= k < groups.len() && (#[trigger] groups[k]).is_default implies exists|
        m: int,
    |
        0 <= m < moved.len() && (#[trigger] moved[m]).is_default && moved[m].id == groups[k].id by {
        let rest = if k < from { k } else { k - 1 };
        let m = if k == from { to } else if rest < to { rest } else { rest + 1 };
        assert(moved[m] == groups[k]);
    }
    if has_default(groups) {
        lemma_defaults_kept_has_default(groups, moved);
    }
}

/// Deleting an emptied group that is not the default group deletes no
/// default group.
pub proof fn lemma_without_emptied_keeps_defaults(groups: Seq<GroupView>, at: int)
    requires
        0 <= at < groups.len(),
    ensures
        defaults_kept(groups, without_emptied(groups, at)),
{
    let rest = without_emptied(groups, at);
    assert forall|k: int| 0 <= k < groups.len() && (#[trigger] groups[k]).is_default implies exists|
        m: int,
    |
        0 <= m < rest.len() && (#[trigger] rest[m]).is_default && rest[m].id == groups[k].id by {
        if rest.len() == groups.len() {
            assert(rest[k] == groups[k]);
        } else {
            let m = if k < at { k } else { k - 1 };
            assert(rest[m] == groups[k]);
        }
    }
}

/// Moving a row deletes no default group, even where it empties one.
pub proof fn lemma_row_moved_keeps_defaults(
    groups: Seq<GroupView>,
    from: int,
    at: int,
    to: int,
    index: int,
)
    requires
        0 <= from < groups.len(),
        0 <= at < groups[from].rows.len(),
        0 <= to < groups.len(),
    ensures
        defaults_kept(groups, with_row_moved(groups, from, at, to, index)),
        has_default(groups) ==> has_default(with_row_moved(groups, from, at, to, index)),
{
    let row = groups[from].rows[at];
    let taken = with_rows_of(groups, from, groups[from].rows.remove(at));
    let put = with_rows_of(taken, to, with_row_at(taken[to].rows, index, row));
    let after = with_row_moved(groups, from, at, to, index);
    lemma_without_emptied_keeps_defaults(put, from);
    assert forall|k: int| 0 <= k < groups.len() && (#[trigger] groups[k]).is_default implies exists|
        m: int,
    |
        0 <= m < after.len() && (#[trigger] after[m]).is_default && after[m].id == groups[k].id by {
        assert(put[k].is_default && put[k].id == groups[k].id);
    }
    if has_default(groups) {
        lemma_defaults_kept_has_default(groups, after);
    }
}

/// Deleting a row keeps the group ids distinct and the rows partitioned.
pub proof fn lemma_row_deleted_keeps_partition(groups: Seq<GroupView>, from: int, at: int)
    requires
        group_ids(groups).no_duplicates(),
        partitioned(groups),
        0 <= from < groups.len(),
        0 <= at < groups[from].rows.len(),
    ensures
        group_ids(with_row_deleted(groups, from, at)).no_duplicates(),
        partitioned(with_row_deleted(groups, from, at)),
        !holds_row(with_row_deleted(groups, from, at), groups[from].rows[at].id),
{
    let id = groups[from].rows[at].id;
    let taken = with_rows_of(groups, from, groups[from].rows.remove(at));
    lemma_row_taken_keeps_partition(groups, from, at);
    lemma_rows_of_keeps_ids(groups, from, groups[from].rows.remove(at));
    lemma_without_emptied_keeps_partition(taken, from);
    let after = with_row_deleted(groups, from, at);
    if holds_row(after, id) {
        let (i, a): (int, int) = choose|i: int, a: int|
            0 <= i < after.len() && 0 <= a < after[i].rows.len() && (#[trigger] after[i].rows[a]).id
                == id;
        let oi = if after.len() == taken.len() || i < from { i } else { i + 1 };
        assert(taken[oi].rows[a].id == id);
    }
}

/// Deleting a row deletes no default group, even where it empties one.
pub proof fn lemma_row_deleted_keeps_defaults(groups: Seq<GroupView>, from: int, at: int)
    requires
        0 <= from < groups.len(),
        0 <= at < groups[from].rows.len(),
    ensures
        defaults_kept(groups, with_row_deleted(groups, from, at)),
        has_default(groups) ==> has_default(with_row_deleted(groups, from, at)),
{
    let taken = with_rows_of(groups, from, groups[from].rows.remove(at));
    let after = with_row_deleted(groups, from, at);
    lemma_without_emptied_keeps_defaults(taken, from);
    assert forall|k: int| 0 <= k < groups.len() && (#[trigger] groups[k]).is_default implies exists|
        m: int,
    |
        0 <= m < after.len() && (#[trigger] after[m]).is_default && after[m].id == groups[k].id by {
        assert(taken[k].is_default && taken[k].id == groups[k].id);
    }
    if has_default(groups) {
        lemma_defaults_kept_has_default(groups, after);
    }
}

/// Appending an empty group whose id is new keeps the group ids distinct,
/// the rows partitioned and the default groups.
pub proof fn lemma_group_added_keeps_partition(groups: Seq<GroupView>, group: GroupView)
    requires
        group_ids(groups).no_duplicates(),
        partitioned(groups),
        !group_ids(groups).contains(group.id),
        group.rows.len() == 0,
    ensures
        group_ids(groups.push(group)).no_duplicates(),
        partitioned(groups.push(group)),
        defaults_kept(groups, groups.push(group)),
        has_default(groups) ==> has_default(groups.push(group)),
{
    let more = groups.push(group);
    assert forall|i: int, j: int| 0 <= i < more.len() && 0 <= j < more.len() && i != j implies
        #[trigger] group_ids(more)[i] != #[trigger] group_ids(more)[j] by {
        if i < groups.len() && j < groups.len() {
            assert(group_ids(groups)[i] != group_ids(groups)[j]);
        } else if i < groups.len() {
            assert(group_ids(groups)[i] == more[i].id);
        } else {
            assert(group_ids(groups)[j] == more[j].id);
        }
    }
    assert forall|i: int, a: int, j: int, b: int|
        0 <= i < more.len() && 0 <= a < more[i].rows.len() && 0 <= j < more.len() && 0 <= b
            < more[j].rows.len() && (i != j || a != b) implies (#[trigger] more[i].rows[a]).id
        != (#[trigger] more[j].rows[b]).id by {
        assert(groups[i].rows[a].id != groups[j].rows[b].id);
    }
    assert forall|k: int| 0 <= k < groups.len() && (#[trigger] groups[k]).is_default implies exists|
        m: int,
    |
        0 <= m < more.len() && (#[trigger] more[m]).is_default && more[m].id == groups[k].id by {
        assert(more[k] == groups[k]);
    }
    if has_default(groups) {
        lemma_defaults_kept_has_default(groups, more);
    }
}

/// Appending a row whose id no group holds to a group keeps the group ids
/// distinct, the rows partitioned and the default groups; the row is then
/// held.
pub proof fn lemma_row_appended_keeps_partition(groups: Seq<GroupView>, to: int, row: RowSummaryView)
    requires
        partitioned(groups),
        !holds_row(groups, row.id),
        0 <= to < groups.len(),
    ensures
        with_row_at(groups[to].rows, groups[to].rows.len() as int, row) == groups[to].rows.push(row),
        partitioned(with_rows_of(groups, to, groups[to].rows.push(row))),
        group_ids(with_rows_of(groups, to, groups[to].rows.push(row))) == group_ids(groups),
        has_default(groups) ==> has_default(with_rows_of(groups, to, groups[to].rows.push(row))),
        holds_row(with_rows_of(groups, to, groups[to].rows.push(row)), row.id),
{
    let after = with_rows_of(groups, to, groups[to].rows.push(row));
    lemma_row_put_keeps_partition(groups, to, groups[to].rows.len() as int, row);
    lemma_rows_of_keeps_ids(groups, to, groups[to].rows.push(row));
    if has_default(groups) {
        let k = choose|k: int| 0 <= k < groups.len() && (#[trigger] groups[k]).is_default;
        assert(after[k].is_default);
    }
    assert(after[to].rows[groups[to].rows.len() as int].id == row.id);
}

/// The first default group is the only one that meets [`is_default_place`].
pub proof fn lemma_default_place(groups: Seq<GroupView>, k: int)
    requires
        is_default_place(groups, k),
    ensures
        default_place(groups) == k,
{
    let c = default_place(groups);
    assert(is_default_place(groups, c));
    if c < k {
        assert(!groups[c].is_default);
    }
    if k < c {
        assert(!groups[k].is_default);
    }
}

/// Where there is a default group, there is a first one.
pub proof fn lemma_default_place_exists(groups: Seq<GroupView>, k: int)
    requires
        0 <= k < groups.len(),
        groups[k].is_default,
    ensures
        is_default_place(groups, default_place(groups)),
    decreases k,
{
    if forall|j: int| 0 <= j < k ==> !(#[trigger] groups[j]).is_default {
        assert(is_default_place(groups, k));
    } else {
        let j = choose|j: int| 0 <= j < k && (#[trigger] groups[j]).is_default;
        lemma_default_place_exists(groups, j);
    }
}

/// Where `middle` keeps the default groups of `before` and `after` those of
/// `middle`, `after` keeps those of `before`.
pub proof fn lemma_defaults_kept_twice(
    before: Seq<GroupView>,
    middle: Seq<GroupView>,
    after: Seq<GroupView>,
)
    requires
        defaults_kept(before, middle),
        defaults_kept(middle, after),
    ensures
        defaults_kept(before, after),
{
    assert forall|k: int| 0 <= k < before.len() && (#[trigger] before[k]).is_default implies exists|
        m: int,
    |
        0 <= m < after.len() && (#[trigger] after[m]).is_default && after[m].id == before[k].id by {
        let j = choose|j: int|
            0 <= j < middle.len() && (#[trigger] middle[j]).is_default && middle[j].id
                == before[k].id;
        assert(middle[j].is_default);
    }
}

/// A move inside one group reorders that group: no group is deleted, every
/// other group is as it was, the group keeps its number of rows, the row
/// stands at the place asked for (at the end, where that lies beyond it), and
/// the other rows keep their order.
pub proof fn move_inside_group_reorders(groups: Seq<GroupView>, group: int, at: int, index: int)
    requires
        0 <= group < groups.len(),
        0 <= at < groups[group].rows.len(),
        0 <= index,
    ensures
        ({
            let after = with_row_moved(groups, group, at, group, index);
            let last = groups[group].rows.len() - 1;
            let place = if index < last { index } else { last };
            &&& after.len() == groups.len()
            &&& forall|k: int| 0 <= k < groups.len() && k != group ==> after[k] == groups[k]
            &&& after[group].rows.len() == groups[group].rows.len()
            &&& after[group].rows[place] == groups[group].rows[at]
            &&& after[group].rows.remove(place) == groups[group].rows.remove(at)
        }),
{
    let after = with_row_moved(groups, group, at, group, index);
    let last = groups[group].rows.len() - 1;
    let place = if index < last { index } else { last };
    assert(after[group].rows.remove(place) =~= groups[group].rows.remove(at));
}

/// A move between two groups takes the row out of the one and puts it at the
/// place asked for in the other (at the end, where that lies beyond it). The
/// first group is deleted exactly where that emptied it and it is not the
/// default group; no other group changes.
pub proof fn move_between_groups_moves(groups: Seq<GroupView>, from: int, at: int, to: int, index: int)
    requires
        group_ids(groups).no_duplicates(),
        0 <= from < groups.len(),
        0 <= at < groups[from].rows.len(),
        0 <= to < groups.len(),
        from != to,
        0 <= index,
    ensures
        ({
            let after = with_row_moved(groups, from, at, to, index);
            let emptied = groups[from].rows.len() == 1 && !groups[from].is_default;
            let target = if emptied && from < to { to - 1 } else { to };
            let place = if index < groups[to].rows.len() { index } else { groups[to].rows.len() as int };
            &&& after.len() == (if emptied { groups.len() - 1 } else { groups.len() as int })
            &&& emptied ==> !group_ids(after).contains(groups[from].id)
            &&& !emptied ==> after[from] == (GroupView {
                rows: groups[from].rows.remove(at),
                ..groups[from]
            })
            &&& after[target] == (GroupView {
                rows: groups[to].rows.insert(place, groups[from].rows[at]),
                ..groups[to]
            })
            &&& after[target].rows[place] == groups[from].rows[at]
        }),
{
    let after = with_row_moved(groups, from, at, to, index);
    let emptied = groups[from].rows.len() == 1 && !groups[from].is_default;
    let place = if index < groups[to].rows.len() { index } else { groups[to].rows.len() as int };
    assert(groups[to].rows.push(groups[from].rows[at]) =~= groups[to].rows.insert(
        groups[to].rows.len() as int,
        groups[from].rows[at],
    ));
    if emptied {
        assert forall|m: int| 0 <= m < after.len() implies group_ids(after)[m] != groups[from].id by {
            let o = if m < from { m } else { m + 1 };
            assert(group_ids(groups)[o] == after[m].id);
            assert(group_ids(groups)[from] == groups[from].id);
        }
    }
}

/// Groups that differ from well grouped ones in their names only are well
/// grouped.
pub proof fn lemma_same_rows_well_grouped(before: Seq<GroupView>, after: Seq<GroupView>)
    requires
        well_grouped(before),
        after.len() == before.len(),
        forall|k: int|
            0 <= k < before.len() ==> (#[trigger] after[k]).id == before[k].id && after[k].rows
                == before[k].rows && after[k].is_default == before[k].is_default,
    ensures
        well_grouped(after),
{
    assert(group_ids(after) =~= group_ids(before));
    assert forall|i: int, a: int, j: int, b: int|
        0 <= i < after.len() && 0 <= a < after[i].rows.len() && 0 <= j < after.len() && 0 <= b
            < after[j].rows.len() && (i != j || a != b) implies (#[trigger] after[i].rows[a]).id
        != (#[trigger] after[j].rows[b]).id by {
        assert(after[i].rows == before[i].rows && after[j].rows == before[j].rows);
        assert(before[i].rows[a].id != before[j].rows[b].id);
    }
    let k = choose|k: int| 0 <= k < before.len() && (#[trigger] before[k]).is_default;
    assert(after[k].is_default);
}

/// After a row was taken out, the groups hold the row ids they held before
/// but for the id of that row.
pub proof fn lemma_row_taken_holds(groups: Seq<GroupView>, from: int, at: int, id: Seq<char>)
    requires
        partitioned(groups),
        0 <= from < groups.len(),
        0 <= at < groups[from].rows.len(),
    ensures
        holds_row(with_rows_of(groups, from, groups[from].rows.remove(at)), id) <==> holds_row(
            groups,
            id,
        ) && id != groups[from].rows[at].id,
{
    let taken = with_rows_of(groups, from, groups[from].rows.remove(at));
    lemma_row_taken_keeps_partition(groups, from, at);
    if holds_row(taken, id) {
        let (i, a): (int, int) = choose|i: int, a: int|
            0 <= i < taken.len() && 0 <= a < taken[i].rows.len() && (#[trigger] taken[i].rows[a]).id
                == id;
        let a0 = if i == from && a >= at { a + 1 } else { a };
        assert(groups[i].rows[a0].id == id);
    }
    if holds_row(groups, id) && id != groups[from].rows[at].id {
        let (i, a): (int, int) = choose|i: int, a: int|
            0 <= i < groups.len() && 0 <= a < groups[i].rows.len() && (
            #[trigger] groups[i].rows[a]).id == id;
        let a1 = if i == from && a > at { a - 1 } else { a };
        assert(taken[i].rows[a1].id == id);
    }
}

/// After a row was put into a group, the groups hold the row ids they held
/// before and the id of that row.
pub proof fn lemma_row_put_holds(
    groups: Seq<GroupView>,
    to: int,
    index: int,
    row: RowSummaryView,
    id: Seq<char>,
)
    requires
        0 <= to < groups.len(),
    ensures
        holds_row(with_rows_of(groups, to, with_row_at(groups[to].rows, index, row)), id)
            <==> holds_row(groups, id) || id == row.id,
{
    let put = with_rows_of(groups, to, with_row_at(groups[to].rows, index, row));
    let p = if 0 <= index < groups[to].rows.len() { index } else { groups[to].rows.len() as int };
    assert(put[to].rows[p] == row);
    if holds_row(put, id) && id != row.id {
        let (i, a): (int, int) = choose|i: int, a: int|
            0 <= i < put.len() && 0 <= a < put[i].rows.len() && (#[trigger] put[i].rows[a]).id == id;
        let a0 = if i == to && a > p { a - 1 } else { a };
        assert(groups[i].rows[a0].id == id);
    }
    if holds_row(groups, id) {
        let (i, a): (int, int) = choose|i: int, a: int|
            0 <= i < groups.len() && 0 <= a < groups[i].rows.len() && (
            #[trigger] groups[i].rows[a]).id == id;
        let a1 = if i == to && a >= p { a + 1 } else { a };
        assert(put[i].rows[a1].id == id);
    }
}

/// Deleting an emptied group changes nothing in the row ids that are held.
pub proof fn lemma_without_emptied_holds(groups: Seq<GroupView>, at: int, id: Seq<char>)
    requires
        0 <= at < groups.len(),
    ensures
        holds_row(without_emptied(groups, at), id) <==> holds_row(groups, id),
{
    let rest = without_emptied(groups, at);
    if rest.len() < groups.len() {
        if holds_row(rest, id) {
            let (i, a): (int, int) = choose|i: int, a: int|
                0 <= i < rest.len() && 0 <= a < rest[i].rows.len() && (#[trigger] rest[i].rows[a]).id
                    == id;
            let oi = if i < at { i } else { i + 1 };
            assert(groups[oi].rows[a].id == id);
        }
        if holds_row(groups, id) {
            let (i, a): (int, int) = choose|i: int, a: int|
                0 <= i < groups.len() && 0 <= a < groups[i].rows.len() && (
                #[trigger] groups[i].rows[a]).id == id;
            let ni = if i < at { i } else { i - 1 };
            assert(rest[ni].rows[a].id == id);
        }
    }
}

/// A row move loses no row and adds none: the groups hold the same row ids
/// before and after it.
pub proof fn row_move_keeps_every_row(
    groups: Seq<GroupView>,
    from: int,
    at: int,
    to: int,
    index: int,
    id: Seq<char>,
)
    requires
        partitioned(groups),
        0 <= from < groups.len(),
        0 <= at < groups[from].rows.len(),
        0 <= to < groups.len(),
    ensures
        holds_row(with_row_moved(groups, from, at, to, index), id) <==> holds_row(groups, id),
{
    let row = groups[from].rows[at];
    let taken = with_rows_of(groups, from, groups[from].rows.remove(at));
    let put = with_rows_of(taken, to, with_row_at(taken[to].rows, index, row));
    lemma_row_taken_holds(groups, from, at, id);
    lemma_row_put_holds(taken, to, index, row, id);
    lemma_without_emptied_holds(put, from, id);
    assert(groups[from].rows[at].id == row.id);
}

/// Deleting a row takes that row out and no other: the groups hold the row
/// ids they held before but for the id of the row.
pub proof fn row_delete_takes_one_row(groups: Seq<GroupView>, from: int, at: int, id: Seq<char>)
    requires
        partitioned(groups),
        0 <= from < groups.len(),
        0 <= at < groups[from].rows.len(),
    ensures
        holds_row(with_row_deleted(groups, from, at), id) <==> holds_row(groups, id) && id
            != groups[from].rows[at].id,
{
    let taken = with_rows_of(groups, from, groups[from].rows.remove(at));
    lemma_row_taken_holds(groups, from, at, id);
    lemma_without_emptied_holds(taken, from, id);
}

} // verus!
