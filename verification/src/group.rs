//! A group: an ordered bucket of row summaries in which no row id occurs twice.

use crate::entities::{summary_views, RowSummary, RowSummaryView};
use vstd::prelude::*;

verus! {

/// The ids of a sequence of row summaries, in the same order.
pub open spec fn row_ids(rows: Seq<RowSummaryView>) -> Seq<Seq<char>> {
    rows.map_values(|r: RowSummaryView| r.id)
}

/// No row id occurs twice in `rows`.
pub open spec fn distinct_rows(rows: Seq<RowSummaryView>) -> bool {
    row_ids(rows).no_duplicates()
}

/// `rows` with `row` appended, unless a row of that id is already there.
pub open spec fn with_row(rows: Seq<RowSummaryView>, row: RowSummaryView) -> Seq<RowSummaryView> {
    if row_ids(rows).contains(row.id) {
        rows
    } else {
        rows.push(row)
    }
}

/// `rows` after each row of `more` was added in turn by [`with_row`].
pub open spec fn with_rows(rows: Seq<RowSummaryView>, more: Seq<RowSummaryView>) -> Seq<
    RowSummaryView,
>
    decreases more.len(),
{
    if more.len() == 0 {
        rows
    } else {
        with_row(with_rows(rows, more.drop_last()), more.last())
    }
}

/// `rows` with `row` put at `index`, or at the end where `index` lies beyond it.
pub open spec fn with_row_at(rows: Seq<RowSummaryView>, index: int, row: RowSummaryView) -> Seq<
    RowSummaryView,
> {
    if 0 <= index < rows.len() {
        rows.insert(index, row)
    } else {
        rows.push(row)
    }
}

/// An ordered bucket of rows that share a classification under one field.
#[derive(Clone, Debug, PartialEq, Eq)]
pub struct Group {
    pub id: String,
    pub field_id: String,
    pub name: String,
    pub is_default: bool,
    pub rows: Vec<RowSummary>,
}

/// What a [`Group`] holds, as plain values.
pub struct GroupView {
    pub id: Seq<char>,
    pub field_id: Seq<char>,
    pub name: Seq<char>,
    pub is_default: bool,
    pub rows: Seq<RowSummaryView>,
}

impl View for Group {
    type V = GroupView;

    open spec fn view(&self) -> GroupView {
        GroupView {
            id: self.id@,
            field_id: self.field_id@,
            name: self.name@,
            is_default: self.is_default,
            rows: summary_views(self.rows@),
        }
    }
}

impl Group {
    /// The group holds no row id twice.
    pub open spec fn well_formed(&self) -> bool {
        distinct_rows(self@.rows)
    }

    /// An empty group.
    pub fn new(id: String, field_id: String, name: String, is_default: bool) -> (g: Group)
        ensures
            g@ == (GroupView { id: id@, field_id: field_id@, name: name@, is_default, rows: Seq::empty() }),
            g.well_formed(),
    {
        let g = Group { id, field_id, name, is_default, rows: Vec::new() };
        assert(g@.rows =~= Seq::empty());
        g
    }

    /// A copy of this group, rows included.
    pub fn snapshot(&self) -> (g: Group)
        ensures
            g@ == self@,
    {
        let mut rows: Vec<RowSummary> = Vec::new();
        let mut i: usize = 0;
        while i < self.rows.len()
            invariant
                i <= self.rows.len(),
                rows@.len() == i,
                forall|j: int| 0 <= j < i ==> rows@[j]@ == self.rows@[j]@,
            decreases self.rows.len() - i,
        {
            rows.push(self.rows[i].duplicate());
            i += 1;
        }
        assert(summary_views(rows@) =~= summary_views(self.rows@));
        Group {
            id: self.id.clone(),
            field_id: self.field_id.clone(),
            name: self.name.clone(),
            is_default: self.is_default,
            rows,
        }
    }

    /// The number of rows in the group.
    pub fn number_of_rows(&self) -> (n: usize)
        ensures
            n == self@.rows.len(),
    {
        self.rows.len()
    }

    /// Whether the group holds no row.
    pub fn is_empty(&self) -> (b: bool)
        ensures
            b == (self@.rows.len() == 0),
    {
        self.rows.len() == 0
    }

    /// The position of the first row with the given id, if there is one.
    pub fn index_of_row(&self, row_id: &str) -> (r: Option<usize>)
        ensures
            r is None <==> !row_ids(self@.rows).contains(row_id@),
            r matches Some(i) ==> i < self@.rows.len() && self@.rows[i as int].id == row_id@
                && !row_ids(self@.rows.take(i as int)).contains(row_id@),
    {
        let key: String = row_id.to_owned();
        let mut i: usize = 0;
        while i < self.rows.len()
            invariant
                i <= self.rows.len(),
                key@ == row_id@,
                !row_ids(self@.rows.take(i as int)).contains(row_id@),
            decreases self.rows.len() - i,
        {
            if self.rows[i].id == key {
                assert(row_ids(self@.rows)[i as int] == row_id@);
                return Some(i);
            }
            proof {
                let ids = row_ids(self@.rows.take(i as int + 1));
                assert forall|j: int| 0 <= j < ids.len() implies ids[j] != row_id@ by {
                    if j < i {
                        assert(row_ids(self@.rows.take(i as int))[j] == ids[j]);
                    }
                }
            }
            i += 1;
        }
        assert(self@.rows.take(i as int) =~= self@.rows);
        None
    }

    /// Whether a row with the given id is in the group.
    pub fn contains_row(&self, row_id: &str) -> (b: bool)
        ensures
            b == row_ids(self@.rows).contains(row_id@),
    {
        self.index_of_row(row_id).is_some()
    }

    /// Appends the row unless a row of that id is already in the group.
    pub fn add_row(&mut self, row: RowSummary)
        requires
            old(self).well_formed(),
        ensures
            final(self).well_formed(),
            final(self)@ == (GroupView { rows: with_row(old(self)@.rows, row@), ..old(self)@ }),
    {
        if !self.contains_row(row.id.as_str()) {
            proof {
                lemma_push_distinct(self@.rows, row@);
            }
            self.rows.push(row);
            assert(self@.rows =~= old(self)@.rows.push(row@));
        }
    }
}

/// Appending a row whose id is new keeps the ids distinct.
pub proof fn lemma_push_distinct(rows: Seq<RowSummaryView>, row: RowSummaryView)
    requires
        distinct_rows(rows),
        !row_ids(rows).contains(row.id),
    ensures
        distinct_rows(rows.push(row)),
        row_ids(rows.push(row)) == row_ids(rows).push(row.id),
{
    assert(row_ids(rows.push(row)) =~= row_ids(rows).push(row.id));
    let ids = row_ids(rows).push(row.id);
    assert forall|i: int, j: int| 0 <= i < ids.len() && 0 <= j < ids.len() && i != j implies ids[i]
        != ids[j] by {
        if i < rows.len() && j < rows.len() {
            assert(row_ids(rows)[i] != row_ids(rows)[j]);
        } else if i < rows.len() {
            assert(row_ids(rows)[i] == ids[i]);
        } else {
            assert(row_ids(rows)[j] == ids[j]);
        }
    }
}

/// A sequence of ids holds `id` exactly where its front holds it or its last
/// element is `id`.
pub proof fn lemma_ids_of_front_and_last(rows: Seq<RowSummaryView>, id: Seq<char>)
    requires
        rows.len() > 0,
    ensures
        row_ids(rows).contains(id) <==> row_ids(rows.drop_last()).contains(id) || rows.last().id
            == id,
{
    let whole = row_ids(rows);
    let front = row_ids(rows.drop_last());
    if whole.contains(id) {
        let k = choose|k: int| 0 <= k < whole.len() && whole[k] == id;
        if k < rows.len() - 1 {
            assert(front[k] == id);
        }
    }
    if front.contains(id) {
        let k = choose|k: int| 0 <= k < front.len() && front[k] == id;
        assert(whole[k] == id);
    }
    if rows.last().id == id {
        assert(whole[rows.len() - 1] == id);
    }
}

/// After [`with_row`] the ids are those from before and the id of the row.
pub proof fn lemma_with_row_ids(rows: Seq<RowSummaryView>, row: RowSummaryView, id: Seq<char>)
    ensures
        row_ids(with_row(rows, row)).contains(id) <==> row_ids(rows).contains(id) || row.id == id,
{
    if !row_ids(rows).contains(row.id) {
        assert(rows.push(row).drop_last() =~= rows);
        lemma_ids_of_front_and_last(rows.push(row), id);
    }
}

/// [`with_row`] keeps the ids distinct.
pub proof fn lemma_with_row_distinct(rows: Seq<RowSummaryView>, row: RowSummaryView)
    requires
        distinct_rows(rows),
    ensures
        distinct_rows(with_row(rows, row)),
{
    if !row_ids(rows).contains(row.id) {
        lemma_push_distinct(rows, row);
    }
}

/// [`with_rows`] keeps the ids distinct.
pub proof fn lemma_with_rows_distinct(rows: Seq<RowSummaryView>, more: Seq<RowSummaryView>)
    requires
        distinct_rows(rows),
    ensures
        distinct_rows(with_rows(rows, more)),
    decreases more.len(),
{
    if more.len() > 0 {
        lemma_with_rows_distinct(rows, more.drop_last());
        lemma_with_row_distinct(with_rows(rows, more.drop_last()), more.last());
    }
}

/// After [`with_rows`] the ids are those from before and those of the rows
/// added, and no others.
pub proof fn lemma_with_rows_ids(rows: Seq<RowSummaryView>, more: Seq<RowSummaryView>, id: Seq<char>)
    ensures
        row_ids(with_rows(rows, more)).contains(id) <==> row_ids(rows).contains(id) || row_ids(
            more,
        ).contains(id),
    decreases more.len(),
{
    if more.len() > 0 {
        lemma_with_rows_ids(rows, more.drop_last(), id);
        lemma_with_row_ids(with_rows(rows, more.drop_last()), more.last(), id);
        lemma_ids_of_front_and_last(more, id);
    } else {
        assert(row_ids(more).len() == 0);
    }
}

/// [`with_rows`] leaves the rows that were there where they were.
pub proof fn lemma_with_rows_keeps_prefix(rows: Seq<RowSummaryView>, more: Seq<RowSummaryView>)
    ensures
        rows.is_prefix_of(with_rows(rows, more)),
    decreases more.len(),
{
    if more.len() > 0 {
        lemma_with_rows_keeps_prefix(rows, more.drop_last());
    }
}

/// Adding rows whose ids are all there already changes nothing.
pub proof fn lemma_with_rows_of_present(rows: Seq<RowSummaryView>, more: Seq<RowSummaryView>)
    requires
        forall|i: int| 0 <= i < more.len() ==> row_ids(rows).contains(#[trigger] more[i].id),
    ensures
        with_rows(rows, more) == rows,
    decreases more.len(),
{
    if more.len() > 0 {
        let front = more.drop_last();
        assert forall|i: int| 0 <= i < front.len() implies row_ids(rows).contains(
            #[trigger] front[i].id,
        ) by {
            assert(front[i] == more[i]);
        }
        lemma_with_rows_of_present(rows, front);
        assert(row_ids(rows).contains(more[more.len() - 1].id));
    }
}

/// Adding the same rows a second time changes nothing.
pub proof fn lemma_with_rows_twice(rows: Seq<RowSummaryView>, more: Seq<RowSummaryView>)
    ensures
        with_rows(with_rows(rows, more), more) == with_rows(rows, more),
{
    let once = with_rows(rows, more);
    assert forall|i: int| 0 <= i < more.len() implies row_ids(once).contains(
        #[trigger] more[i].id,
    ) by {
        assert(row_ids(more)[i] == more[i].id);
        lemma_with_rows_ids(rows, more, more[i].id);
    }
    lemma_with_rows_of_present(once, more);
}

/// Rows whose ids are distinct and new are all appended, in their order.
pub proof fn lemma_with_rows_of_new(rows: Seq<RowSummaryView>, more: Seq<RowSummaryView>)
    requires
        distinct_rows(rows + more),
    ensures
        with_rows(rows, more) == rows + more,
    decreases more.len(),
{
    if more.len() > 0 {
        let front = more.drop_last();
        let all = row_ids(rows + more);
        assert(rows + front =~= (rows + more).drop_last());
        assert forall|i: int, j: int| 0 <= i < j < rows.len() + front.len() implies row_ids(
            rows + front,
        )[i] != row_ids(rows + front)[j] by {
            assert(all[i] != all[j]);
        }
        lemma_with_rows_of_new(rows, front);
        let id = more.last().id;
        if row_ids(rows + front).contains(id) {
            let k = choose|k: int| 0 <= k < rows.len() + front.len() && row_ids(rows + front)[k]
                == id;
            assert(all[k] == id);
            assert(all[rows.len() + more.len() - 1] == id);
        }
        assert((rows + front).push(more.last()) =~= rows + more);
    } else {
        assert(rows + more =~= rows);
    }
}

} // verus!
