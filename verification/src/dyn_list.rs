//! A list of counters that rows can be added to and removed from.
//!
//! Every row carries an id that the list hands out once and never again, so
//! that a row can be found after others around it have gone.

use vstd::prelude::*;

verus! {

/// The number of rows a list starts with when nothing else is asked for.
pub const DEFAULT_LENGTH: usize = 3;

/// One row: a counter and the id by which the list finds it.
#[derive(Clone, Copy, Debug, PartialEq, Eq)]
pub struct Row {
    pub id: usize,
    pub count: usize,
}

/// The row that the list creates for the id `id`: its counter starts one
/// above the id.
pub open spec fn fresh_row(id: int) -> Row {
    Row { id: id as usize, count: (id + 1) as usize }
}

/// The rows of a list that was made with `n` rows and not touched since.
pub open spec fn initial_rows(n: nat) -> Seq<Row> {
    Seq::new(n, |i: int| fresh_row(i))
}

/// The test that a removal of `id` applies to each row: true for the rows
/// that stay.
pub open spec fn keeps(id: usize) -> spec_fn(Row) -> bool {
    |r: Row| r.id != id
}

/// What a click on the row `id` does to each row: the row with that id counts
/// one more, every other row is left alone.
pub open spec fn bump(id: usize) -> spec_fn(Row) -> Row {
    |r: Row|
        if r.id == id {
            Row { id: r.id, count: (r.count + 1) as usize }
        } else {
            r
        }
}

/// Whether some row of `rows` has the id `id`.
pub open spec fn has_id(rows: Seq<Row>, id: usize) -> bool {
    exists|i: int| 0 <= i < rows.len() && (#[trigger] rows[i]).id == id
}

/// The counter of the row with the id `id`, if there is such a row.
pub open spec fn count_at(rows: Seq<Row>, id: usize) -> Option<usize> {
    if has_id(rows, id) {
        Some(rows[choose|i: int| 0 <= i < rows.len() && (#[trigger] rows[i]).id == id].count)
    } else {
        None
    }
}

/// What holds of the rows of every list and of the id it will hand out next:
/// ids grow from row to row, so none occurs twice, and all of them lie below
/// the next id, so none is handed out again.
pub open spec fn well_formed(rows: Seq<Row>, next_id: int) -> bool {
    &&& 0 <= next_id <= usize::MAX
    &&& forall|i: int| 0 <= i < rows.len() ==> (#[trigger] rows[i]).id < next_id
    &&& forall|i: int, j: int|
        0 <= i < j < rows.len() ==> (#[trigger] rows[i]).id < (#[trigger] rows[j]).id
}

/// A list of counters, in the order in which they were added.
#[derive(Debug, PartialEq, Eq)]
pub struct CounterList {
    rows: Vec<Row>,
    next_id: usize,
}

impl View for CounterList {
    type V = Seq<Row>;

    closed spec fn view(&self) -> Seq<Row> {
        self.rows@
    }
}

impl CounterList {
    /// The id that the next added row will get.
    pub closed spec fn fresh_id(&self) -> int {
        self.next_id as int
    }

    #[verifier::type_invariant]
    spec fn ids_in_order(self) -> bool {
        well_formed(self.rows@, self.next_id as int)
    }

    /// A list of `initial_length` rows with the ids `0`, `1`, ... in order.
    pub fn new(initial_length: usize) -> (list: Self)
        ensures
            list@ == initial_rows(initial_length as nat),
            list.fresh_id() == initial_length,
            well_formed(list@, list.fresh_id()),
    {
        let mut rows: Vec<Row> = Vec::new();
        let mut id: usize = 0;
        while id < initial_length
            invariant
                id <= initial_length,
                rows@ == initial_rows(id as nat),
            decreases initial_length - id,
        {
            rows.push(Row { id, count: id + 1 });
            id = id + 1;
        }
        CounterList { rows, next_id: initial_length }
    }

    /// The number of rows.
    pub fn len(&self) -> (n: usize)
        ensures
            n == self@.len(),
    {
        self.rows.len()
    }

    /// Whether the list has no row.
    pub fn is_empty(&self) -> (empty: bool)
        ensures
            empty == (self@.len() == 0),
    {
        self.rows.len() == 0
    }

    /// The rows, first added first.
    pub fn rows(&self) -> (rows: &Vec<Row>)
        ensures
            rows@ == self@,
            well_formed(self@, self.fresh_id()),
    {
        proof {
            use_type_invariant(self);
        }
        &self.rows
    }

    /// The id that the next added row will get.
    pub fn next_id(&self) -> (id: usize)
        ensures
            id == self.fresh_id(),
    {
        self.next_id
    }

    /// Whether one more row can be added: the ids are not used up.
    pub fn can_add(&self) -> (room: bool)
        ensures
            room == (self.fresh_id() < usize::MAX),
    {
        self.next_id < usize::MAX
    }

    /// Adds a row at the end, under an id that no row ever had, and returns
    /// that id.
    pub fn add(&mut self) -> (id: usize)
        requires
            old(self).fresh_id() < usize::MAX,
        ensures
            id == old(self).fresh_id(),
            final(self)@ == old(self)@.push(fresh_row(id as int)),
            final(self).fresh_id() == id + 1,
            well_formed(final(self)@, final(self).fresh_id()),
    {
        proof {
            use_type_invariant(&*self);
        }
        let id: usize = self.next_id;
        // The rows leave the list while they change, so that it is in order
        // at every step.
        let mut rows: Vec<Row> = Vec::new();
        core::mem::swap(&mut self.rows, &mut rows);
        rows.push(Row { id, count: id + 1 });
        self.next_id = id + 1;
        self.rows = rows;
        id
    }

    /// Removes the row with the id `id`. Where there is none, nothing changes.
    pub fn remove(&mut self, id: usize)
        ensures
            final(self)@ == old(self)@.filter(keeps(id)),
            final(self).fresh_id() == old(self).fresh_id(),
            well_formed(final(self)@, final(self).fresh_id()),
    {
        proof {
            use_type_invariant(&*self);
        }
        let mut kept: Vec<Row> = Vec::new();
        let mut i: usize = 0;
        proof {
            lemma_filter_empty(id);
        }
        while i < self.rows.len()
            invariant
                i <= self.rows.len(),
                kept@ == self.rows@.take(i as int).filter(keeps(id)),
            decreases self.rows.len() - i,
        {
            let row: Row = self.rows[i];
            proof {
                let before = self.rows@.take(i as int);
                assert(self.rows@.take(i + 1) == before.push(row));
                before.lemma_filter_push(row, keeps(id));
            }
            if row.id != id {
                kept.push(row);
            }
            i = i + 1;
        }
        proof {
            assert(self.rows@.take(i as int) == self.rows@);
            lemma_filter_rows(self.rows@, self.next_id as int, id);
        }
        self.rows = kept;
    }

    /// The counter of the row with the id `id`, if there is such a row.
    pub fn count_of(&self, id: usize) -> (count: Option<usize>)
        ensures
            count == count_at(self@, id),
            well_formed(self@, self.fresh_id()),
    {
        proof {
            use_type_invariant(self);
        }
        let mut i: usize = 0;
        while i < self.rows.len()
            invariant
                i <= self.rows.len(),
                well_formed(self.rows@, self.next_id as int),
                forall|k: int| 0 <= k < i ==> (#[trigger] self.rows[k]).id != id,
            decreases self.rows.len() - i,
        {
            if self.rows[i].id == id {
                proof {
                    lemma_count_at(self.rows@, self.next_id as int, i as int);
                }
                return Some(self.rows[i].count);
            }
            i = i + 1;
        }
        None
    }

    /// Whether the row `id` can take one more click: it may be missing, but
    /// its counter may not stand at the largest number.
    pub fn can_increment(&self, id: usize) -> (room: bool)
        ensures
            room == (count_at(self@, id) != Some(usize::MAX)),
    {
        match self.count_of(id) {
            Some(count) => count < usize::MAX,
            None => true,
        }
    }

    /// One click on the row with the id `id`: its counter goes up by one.
    /// Returns whether there is such a row; where there is none, nothing
    /// changes.
    pub fn increment(&mut self, id: usize) -> (found: bool)
        requires
            count_at(old(self)@, id) != Some(usize::MAX),
        ensures
            found == has_id(old(self)@, id),
            final(self)@ == old(self)@.map_values(bump(id)),
            final(self).fresh_id() == old(self).fresh_id(),
            well_formed(final(self)@, final(self).fresh_id()),
    {
        proof {
            use_type_invariant(&*self);
        }
        let mut i: usize = 0;
        while i < self.rows.len()
            invariant
                i <= self.rows.len(),
                *self == *old(self),
                well_formed(self.rows@, self.next_id as int),
                count_at(self.rows@, id) != Some(usize::MAX),
                forall|k: int| 0 <= k < i ==> (#[trigger] self.rows[k]).id != id,
            decreases self.rows.len() - i,
        {
            let row: Row = self.rows[i];
            if row.id == id {
                proof {
                    lemma_count_at(self.rows@, self.next_id as int, i as int);
                }
                let mut rows: Vec<Row> = Vec::new();
                core::mem::swap(&mut self.rows, &mut rows);
                rows.set(i, Row { id, count: row.count + 1 });
                proof {
                }
                self.rows = rows;
                return true;
            }
            i = i + 1;
        }
        proof {
        }
        false
    }
}

impl Default for CounterList {
    /// A list of [`DEFAULT_LENGTH`] rows.
    fn default() -> (list: Self)
        ensures
            list@ == initial_rows(DEFAULT_LENGTH as nat),
            list.fresh_id() == DEFAULT_LENGTH,
    {
        CounterList::new(DEFAULT_LENGTH)
    }
}

impl Clone for CounterList {
    fn clone(&self) -> (list: Self)
        ensures
            list@ == self@,
            list.fresh_id() == self.fresh_id(),
    {
        proof {
            use_type_invariant(self);
        }
        let mut rows: Vec<Row> = Vec::new();
        let mut i: usize = 0;
        while i < self.rows.len()
            invariant
                i <= self.rows.len(),
                rows@ == self.rows@.take(i as int),
            decreases self.rows.len() - i,
        {
            rows.push(self.rows[i]);
            i = i + 1;
        }
        proof {
        }
        CounterList { rows, next_id: self.next_id }
    }
}

/// Nothing stays of no rows.
proof fn lemma_filter_empty(id: usize)
    ensures
        Seq::<Row>::empty().filter(keeps(id)) == Seq::<Row>::empty(),
{
    reveal(Seq::filter);
}

/// In a well-formed list the row at `at` is the only one with its id, so its
/// counter is what `count_at` finds.
proof fn lemma_count_at(rows: Seq<Row>, next_id: int, at: int)
    requires
        well_formed(rows, next_id),
        0 <= at < rows.len(),
    ensures
        has_id(rows, rows[at].id),
        count_at(rows, rows[at].id) == Some(rows[at].count),
        forall|k: int| 0 <= k < rows.len() && k != at ==> (#[trigger] rows[k]).id != rows[at].id,
{
    let id = rows[at].id;
    let found = choose|i: int| 0 <= i < rows.len() && (#[trigger] rows[i]).id == id;
    assert(found == at);
}

/// What a removal leaves of a well-formed list, row by row.
proof fn lemma_filter_rows(rows: Seq<Row>, next_id: int, id: usize)
    requires
        well_formed(rows, next_id),
    ensures
        well_formed(rows.filter(keeps(id)), next_id),
        forall|k: int|
            0 <= k < rows.filter(keeps(id)).len() ==> {
                let r = #[trigger] rows.filter(keeps(id))[k];
                r.id != id && rows.contains(r)
            },
        forall|j: int|
            0 <= j < rows.len() && rows[j].id != id
                ==> rows.filter(keeps(id)).contains(#[trigger] rows[j]),
        rows.filter(keeps(id)).len() == if has_id(rows, id) {
            rows.len() - 1
        } else {
            rows.len() as int
        },
        !has_id(rows, id) ==> rows.filter(keeps(id)) == rows,
    decreases rows.len(),
{
    let left = rows.filter(keeps(id));
    if rows.len() == 0 {
        lemma_filter_empty(id);
    } else {
        let front = rows.drop_last();
        let last = rows.last();
        let front_left = front.filter(keeps(id));
        assert(rows == front.push(last));
        front.lemma_filter_push(last, keeps(id));
        lemma_filter_rows(front, next_id, id);
        // Whatever stays of the front came from it, so it stands before `last`.
        assert forall|k: int| 0 <= k < front_left.len() implies (#[trigger] front_left[k]).id
            < last.id && rows.contains(front_left[k]) by {
            let j = choose|j: int| 0 <= j < front.len() && front[j] == front_left[k];
        }
        assert(has_id(rows, id) <==> has_id(front, id) || last.id == id) by {
            if has_id(rows, id) {
                let j = choose|j: int| 0 <= j < rows.len() && (#[trigger] rows[j]).id == id;
            }
            if has_id(front, id) {
                let j = choose|j: int| 0 <= j < front.len() && (#[trigger] front[j]).id == id;
            }
        }
        if last.id == id {
            assert(!has_id(front, id)) by {
                if has_id(front, id) {
                    let j = choose|j: int| 0 <= j < front.len() && (#[trigger] front[j]).id == id;
                }
            }
            assert forall|j: int| 0 <= j < rows.len() && rows[j].id != id implies left.contains(
                #[trigger] rows[j],
            ) by {}
        } else {
            assert forall|j: int| 0 <= j < rows.len() && rows[j].id != id implies left.contains(
                #[trigger] rows[j],
            ) by {
                if j < front.len() {
                    let k = choose|k: int| 0 <= k < front_left.len() && front_left[k] == front[j];
                }
            }
        }
    }
}

/// Where two well-formed lists agree on the rows that carry `id`, they hold
/// the same counter under it.
proof fn lemma_same_rows_same_counts(a: Seq<Row>, a_next: int, b: Seq<Row>, b_next: int, id: usize)
    requires
        well_formed(a, a_next),
        well_formed(b, b_next),
        forall|i: int| 0 <= i < a.len() && (#[trigger] a[i]).id == id ==> b.contains(a[i]),
        forall|i: int| 0 <= i < b.len() && (#[trigger] b[i]).id == id ==> a.contains(b[i]),
    ensures
        count_at(a, id) == count_at(b, id),
{
    if has_id(a, id) {
        let i = choose|i: int| 0 <= i < a.len() && (#[trigger] a[i]).id == id;
        let j = choose|j: int| 0 <= j < b.len() && b[j] == a[i];
        lemma_count_at(a, a_next, i);
        lemma_count_at(b, b_next, j);
    } else if has_id(b, id) {
        let j = choose|j: int| 0 <= j < b.len() && (#[trigger] b[j]).id == id;
        let i = choose|i: int| 0 <= i < a.len() && a[i] == b[j];
    }
}

/// Adding a row keeps a list well formed. The new row's id was in no row
/// before; the new row counts one more than its id; and every row that was
/// there still is, with the counter it had.
pub proof fn lemma_add(rows: Seq<Row>, next_id: int)
    requires
        well_formed(rows, next_id),
        next_id < usize::MAX,
    ensures
        well_formed(rows.push(fresh_row(next_id)), next_id + 1),
        !has_id(rows, next_id as usize),
        count_at(rows.push(fresh_row(next_id)), next_id as usize) == Some((next_id + 1) as usize),
        forall|id: usize|
            id != next_id ==> #[trigger] count_at(rows.push(fresh_row(next_id)), id)
                == count_at(rows, id),
{
    let grown = rows.push(fresh_row(next_id));
    assert(!has_id(rows, next_id as usize)) by {
        if has_id(rows, next_id as usize) {
            let i = choose|i: int|
                0 <= i < rows.len() && (#[trigger] rows[i]).id == next_id as usize;
        }
    }
    lemma_count_at(grown, next_id + 1, rows.len() as int);
    assert forall|id: usize| id != next_id implies #[trigger] count_at(grown, id)
        == count_at(rows, id) by {
        assert forall|i: int| 0 <= i < rows.len() && (#[trigger] rows[i]).id == id
            implies grown.contains(rows[i]) by {
            assert(grown[i] == rows[i]);
        }
        lemma_same_rows_same_counts(grown, next_id + 1, rows, next_id, id);
    }
}

/// Removing a row keeps a list well formed. No row has the removed id
/// afterwards; every other row is still there with the counter it had; the
/// list is one row shorter where the id was there, and unchanged where it was
/// not.
pub proof fn lemma_remove(rows: Seq<Row>, next_id: int, id: usize)
    requires
        well_formed(rows, next_id),
    ensures
        well_formed(rows.filter(keeps(id)), next_id),
        !has_id(rows.filter(keeps(id)), id),
        forall|other: usize|
            other != id ==> #[trigger] count_at(rows.filter(keeps(id)), other)
                == count_at(rows, other),
        rows.filter(keeps(id)).len() == if has_id(rows, id) {
            rows.len() - 1
        } else {
            rows.len() as int
        },
        !has_id(rows, id) ==> rows.filter(keeps(id)) == rows,
{
    let left = rows.filter(keeps(id));
    lemma_filter_rows(rows, next_id, id);
    assert(!has_id(left, id)) by {
        if has_id(left, id) {
            let k = choose|k: int| 0 <= k < left.len() && (#[trigger] left[k]).id == id;
        }
    }
    assert forall|other: usize| other != id implies #[trigger] count_at(left, other)
        == count_at(rows, other) by {
        lemma_same_rows_same_counts(left, next_id, rows, next_id, other);
    }
}

/// A row that was just added can be taken away again, and the list is what it
/// was, except that the id is spent.
pub proof fn lemma_add_then_remove(rows: Seq<Row>, next_id: int)
    requires
        well_formed(rows, next_id),
        next_id < usize::MAX,
    ensures
        rows.push(fresh_row(next_id)).filter(keeps(next_id as usize)) == rows,
{
    lemma_add(rows, next_id);
    lemma_remove(rows, next_id, next_id as usize);
    rows.lemma_filter_push(fresh_row(next_id), keeps(next_id as usize));
}

/// A click on a row keeps a list well formed and as long as it was. The
/// clicked row, if it is there, counts one more; every other row keeps its
/// counter.
pub proof fn lemma_increment(rows: Seq<Row>, next_id: int, id: usize)
    requires
        well_formed(rows, next_id),
        count_at(rows, id) != Some(usize::MAX),
    ensures
        well_formed(rows.map_values(bump(id)), next_id),
        rows.map_values(bump(id)).len() == rows.len(),
        count_at(rows.map_values(bump(id)), id) == match count_at(rows, id) {
            Some(count) => Some((count + 1) as usize),
            None => None,
        },
        forall|other: usize|
            other != id ==> #[trigger] count_at(rows.map_values(bump(id)), other)
                == count_at(rows, other),
{
    let after = rows.map_values(bump(id));
    assert forall|i: int| 0 <= i < rows.len() implies (#[trigger] after[i]).id == rows[i].id by {}
    if has_id(rows, id) {
        let i = choose|i: int| 0 <= i < rows.len() && (#[trigger] rows[i]).id == id;
        lemma_count_at(rows, next_id, i);
        lemma_count_at(after, next_id, i);
    } else if has_id(after, id) {
        let i = choose|i: int| 0 <= i < after.len() && (#[trigger] after[i]).id == id;
    }
    assert forall|other: usize| other != id implies #[trigger] count_at(after, other)
        == count_at(rows, other) by {
        assert forall|i: int| 0 <= i < rows.len() && (#[trigger] rows[i]).id == other
            implies after.contains(rows[i]) by {
            assert(after[i] == rows[i]);
        }
        lemma_same_rows_same_counts(after, next_id, rows, next_id, other);
    }
}

} // verus!
