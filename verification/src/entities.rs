//! The data the grouping engine works on: row and field snapshots handed in by
//! the caller, and the groups the engine owns.

use vstd::prelude::*;

verus! {

/// The kind of value a field holds.
#[derive(Clone, Copy, Debug, PartialEq, Eq, Structural)]
pub enum FieldType {
    RichText,
    Number,
    DateTime,
    SingleSelect,
    MultiSelect,
    Checkbox,
    Url,
}

/// One choice of a select field.
#[derive(Clone, Debug, PartialEq, Eq)]
pub struct SelectOption {
    pub id: String,
    pub name: String,
}

/// What a [`SelectOption`] holds, as plain values.
pub struct SelectOptionView {
    pub id: Seq<char>,
    pub name: Seq<char>,
}

impl View for SelectOption {
    type V = SelectOptionView;

    open spec fn view(&self) -> SelectOptionView {
        SelectOptionView { id: self.id@, name: self.name@ }
    }
}

/// A field definition snapshot.
#[derive(Clone, Debug, PartialEq, Eq)]
pub struct Field {
    pub id: String,
    pub field_type: FieldType,
    pub options: Vec<SelectOption>,
}

/// What a [`Field`] holds, as plain values.
pub struct FieldView {
    pub id: Seq<char>,
    pub field_type: FieldType,
    pub options: Seq<SelectOptionView>,
}

impl View for Field {
    type V = FieldView;

    open spec fn view(&self) -> FieldView {
        FieldView {
            id: self.id@,
            field_type: self.field_type,
            options: self.options@.map_values(|o: SelectOption| o@),
        }
    }
}

/// The value a row holds for one field.
#[derive(Clone, Debug, PartialEq, Eq)]
pub struct Cell {
    pub field_id: String,
    pub data: String,
}

/// What a [`Cell`] holds, as plain values.
pub struct CellView {
    pub field_id: Seq<char>,
    pub data: Seq<char>,
}

impl View for Cell {
    type V = CellView;

    open spec fn view(&self) -> CellView {
        CellView { field_id: self.field_id@, data: self.data@ }
    }
}

/// A row snapshot: its identity and its field values by field id.
#[derive(Clone, Debug, PartialEq, Eq)]
pub struct Row {
    pub id: String,
    pub block_id: String,
    pub height: i32,
    pub cells: Vec<Cell>,
}

/// What a [`Row`] holds, as plain values.
pub struct RowView {
    pub id: Seq<char>,
    pub block_id: Seq<char>,
    pub height: int,
    pub cells: Seq<CellView>,
}

impl View for Row {
    type V = RowView;

    open spec fn view(&self) -> RowView {
        RowView {
            id: self.id@,
            block_id: self.block_id@,
            height: self.height as int,
            cells: self.cells@.map_values(|c: Cell| c@),
        }
    }
}

/// What a group keeps of a row: its id and what is needed to display it.
#[derive(Clone, Debug, PartialEq, Eq)]
pub struct RowSummary {
    pub id: String,
    pub block_id: String,
    pub height: i32,
}

/// What a [`RowSummary`] holds, as plain values.
pub struct RowSummaryView {
    pub id: Seq<char>,
    pub block_id: Seq<char>,
    pub height: int,
}

impl View for RowSummary {
    type V = RowSummaryView;

    open spec fn view(&self) -> RowSummaryView {
        RowSummaryView { id: self.id@, block_id: self.block_id@, height: self.height as int }
    }
}

/// The summary that stands for a row snapshot.
pub open spec fn summary_of(row: RowView) -> RowSummaryView {
    RowSummaryView { id: row.id, block_id: row.block_id, height: row.height }
}

/// The summaries of a sequence of row snapshots, in the same order.
pub open spec fn summaries_of(rows: Seq<RowView>) -> Seq<RowSummaryView> {
    rows.map_values(|r: RowView| summary_of(r))
}

/// The views of a vector of row snapshots.
pub open spec fn row_views(rows: Seq<Row>) -> Seq<RowView> {
    rows.map_values(|r: Row| r@)
}

/// The views of a vector of row summaries.
pub open spec fn summary_views(rows: Seq<RowSummary>) -> Seq<RowSummaryView> {
    rows.map_values(|r: RowSummary| r@)
}

impl RowSummary {
    /// Projects a row snapshot to its summary.
    pub fn from_row(row: &Row) -> (s: RowSummary)
        ensures
            s@ == summary_of(row@),
    {
        RowSummary { id: row.id.clone(), block_id: row.block_id.clone(), height: row.height }
    }

    /// A copy of this summary.
    pub fn duplicate(&self) -> (s: RowSummary)
        ensures
            s@ == self@,
    {
        RowSummary { id: self.id.clone(), block_id: self.block_id.clone(), height: self.height }
    }
}

/// `i` is the first place at which `id` stands in `ids`.
pub open spec fn is_first_place(ids: Seq<Seq<char>>, id: Seq<char>, i: int) -> bool {
    &&& 0 <= i < ids.len()
    &&& ids[i] == id
    &&& forall|j: int| 0 <= j < i ==> ids[j] != id
}

/// The first place at which `id` stands in `ids`, where it stands in it.
pub open spec fn first_place(ids: Seq<Seq<char>>, id: Seq<char>) -> int {
    choose|i: int| is_first_place(ids, id, i)
}

/// The first place of an id is the only one that meets [`is_first_place`].
pub proof fn lemma_first_place(ids: Seq<Seq<char>>, id: Seq<char>, k: int)
    requires
        is_first_place(ids, id, k),
    ensures
        first_place(ids, id) == k,
        ids.contains(id),
{
    let c = first_place(ids, id);
    assert(is_first_place(ids, id, c));
    if c < k {
        assert(ids[c] != id);
    }
    if k < c {
        assert(ids[k] != id);
    }
}

/// The field ids of a row's cells, in the order of the cells.
pub open spec fn cell_field_ids(cells: Seq<CellView>) -> Seq<Seq<char>> {
    cells.map_values(|c: CellView| c.field_id)
}

/// The ids of a field's options, in the order of the options.
pub open spec fn option_ids(options: Seq<SelectOptionView>) -> Seq<Seq<char>> {
    options.map_values(|o: SelectOptionView| o.id)
}

/// The value that a row holds for a field: that of its first cell for the
/// field, if it has one.
pub open spec fn value_of(row: RowView, field_id: Seq<char>) -> Option<Seq<char>> {
    if cell_field_ids(row.cells).contains(field_id) {
        Some(row.cells[first_place(cell_field_ids(row.cells), field_id)].data)
    } else {
        None
    }
}

/// The cells with the value for a field set: in the first cell of the field,
/// or in a new last cell where the field has none.
pub open spec fn stamped(cells: Seq<CellView>, field_id: Seq<char>, value: Seq<char>) -> Seq<CellView> {
    if cell_field_ids(cells).contains(field_id) {
        cells.update(first_place(cell_field_ids(cells), field_id), CellView { field_id, data: value })
    } else {
        cells.push(CellView { field_id, data: value })
    }
}

/// After [`stamped`] the row holds the value for the field.
pub proof fn lemma_stamped_value(row: RowView, field_id: Seq<char>, value: Seq<char>)
    ensures
        value_of(RowView { cells: stamped(row.cells, field_id, value), ..row }, field_id) == Some(
            value,
        ),
{
    let ids = cell_field_ids(row.cells);
    let cells = stamped(row.cells, field_id, value);
    let after = cell_field_ids(cells);
    if ids.contains(field_id) {
        let k = choose|k: int| 0 <= k < ids.len() && ids[k] == field_id;
        lemma_first_place_of_present(ids, field_id, k);
        let f = first_place(ids, field_id);
        assert(after[f] == field_id);
        assert forall|j: int| 0 <= j < f implies after[j] != field_id by {
            assert(after[j] == ids[j]);
        }
        lemma_first_place(after, field_id, f);
    } else {
        let f = row.cells.len() as int;
        assert(after[f] == field_id);
        assert forall|j: int| 0 <= j < f implies after[j] != field_id by {
            assert(after[j] == ids[j]);
        }
        lemma_first_place(after, field_id, f);
    }
}

impl Row {
    /// The place of the first cell for the field of the given id, if the row
    /// has one.
    pub fn index_of_cell(&self, field_id: &str) -> (r: Option<usize>)
        ensures
            r is Some <==> cell_field_ids(self@.cells).contains(field_id@),
            r matches Some(k) ==> k == first_place(cell_field_ids(self@.cells), field_id@) && k
                < self@.cells.len(),
    {
        let key: String = field_id.to_owned();
        let ghost ids = cell_field_ids(self@.cells);
        let mut i: usize = 0;
        while i < self.cells.len()
            invariant
                i <= self.cells.len(),
                key@ == field_id@,
                ids == cell_field_ids(self@.cells),
                forall|j: int| 0 <= j < i ==> ids[j] != field_id@,
            decreases self.cells.len() - i,
        {
            if self.cells[i].field_id == key {
                proof {
                    assert(ids[i as int] == field_id@);
                    lemma_first_place(ids, field_id@, i as int);
                }
                return Some(i);
            }
            i += 1;
        }
        None
    }

    /// The value that the row holds for the field of the given id.
    pub fn value_of(&self, field_id: &str) -> (v: Option<&str>)
        ensures
            v is Some <==> value_of(self@, field_id@) is Some,
            v matches Some(d) ==> Some(d@) == value_of(self@, field_id@),
    {
        match self.index_of_cell(field_id) {
            Some(k) => {
                assert(self@.cells[k as int] == self.cells@[k as int]@);
                Some(self.cells[k].data.as_str())
            },
            None => None,
        }
    }

    /// Sets the value that the row holds for the field of the given id.
    pub fn stamp(&mut self, field_id: &str, value: &str)
        ensures
            final(self)@ == (RowView {
                cells: stamped(old(self)@.cells, field_id@, value@),
                ..old(self)@
            }),
            value_of(final(self)@, field_id@) == Some(value@),
    {
        proof {
            lemma_stamped_value(self@, field_id@, value@);
        }
        let cell = Cell { field_id: field_id.to_owned(), data: value.to_owned() };
        match self.index_of_cell(field_id) {
            Some(k) => {
                self.cells.remove(k);
                self.cells.insert(k, cell);
                assert(self@.cells =~= old(self)@.cells.update(k as int, cell@));
            },
            None => {
                self.cells.push(cell);
                assert(self@.cells =~= old(self)@.cells.push(cell@));
            },
        }
    }
}

impl Field {
    /// The place of the first option with the given id, if there is one.
    pub fn index_of_option(&self, option_id: &str) -> (r: Option<usize>)
        ensures
            r is Some <==> option_ids(self@.options).contains(option_id@),
            r matches Some(k) ==> k == first_place(option_ids(self@.options), option_id@) && k
                < self@.options.len() && self@.options[k as int].id == option_id@,
    {
        let key: String = option_id.to_owned();
        let ghost ids = option_ids(self@.options);
        let mut i: usize = 0;
        while i < self.options.len()
            invariant
                i <= self.options.len(),
                key@ == option_id@,
                ids == option_ids(self@.options),
                forall|j: int| 0 <= j < i ==> ids[j] != option_id@,
            decreases self.options.len() - i,
        {
            if self.options[i].id == key {
                proof {
                    assert(ids[i as int] == option_id@);
                    lemma_first_place(ids, option_id@, i as int);
                }
                return Some(i);
            }
            i += 1;
        }
        None
    }
}

/// The view of a row snapshot that may be absent.
pub open spec fn row_view_of(row: Option<Row>) -> Option<RowView> {
    match row {
        Some(r) => Some(r@),
        None => None,
    }
}

/// Whether two values, each of which may be absent, are the same.
pub fn same_value(a: Option<&str>, b: Option<&str>) -> (same: bool)
    ensures
        same == match (a, b) {
            (Some(x), Some(y)) => x@ == y@,
            (None, None) => true,
            _ => false,
        },
{
    match (a, b) {
        (Some(x), Some(y)) => {
            let left: String = x.to_owned();
            let right: String = y.to_owned();
            left == right
        },
        (None, None) => true,
        _ => false,
    }
}

/// An id that stands in `ids` has a first place in it.
pub proof fn lemma_first_place_of_present(ids: Seq<Seq<char>>, id: Seq<char>, k: int)
    requires
        0 <= k < ids.len(),
        ids[k] == id,
    ensures
        is_first_place(ids, id, first_place(ids, id)),
    decreases k,
{
    if forall|j: int| 0 <= j < k ==> ids[j] != id {
        assert(is_first_place(ids, id, k));
    } else {
        let j = choose|j: int| 0 <= j < k && ids[j] == id;
        lemma_first_place_of_present(ids, id, j);
    }
}

} // verus!
