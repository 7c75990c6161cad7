//! The tables of the engine: their schemas and their rows, held in memory.

use vstd::prelude::*;
use crate::ast::{lemma_push_view, ColumnDef, SpecColumnDef};
use crate::error::EngineError;
use crate::scalar::admits;
use crate::text::{same_name, strs_match};
use crate::value::{accepts, SpecValue, Value};

verus! {

/// A table: its name, its schema and its rows in the order of insertion.
#[derive(Debug)]
pub struct Table {
    pub name: String,
    pub columns: Vec<ColumnDef>,
    pub rows: Vec<Vec<Value>>,
}

/// The mathematical content of a [`Table`].
pub struct SpecTable {
    pub name: Seq<char>,
    pub columns: Seq<SpecColumnDef>,
    pub rows: Seq<Seq<SpecValue>>,
}

impl DeepView for Table {
    type V = SpecTable;

    open spec fn deep_view(&self) -> SpecTable {
        SpecTable {
            name: self.name@,
            columns: self.columns.deep_view(),
            rows: self.rows.deep_view(),
        }
    }
}

/// The tables of the engine, by name. Names are compared without regard to
/// ASCII case.
pub struct Storage {
    tables: Vec<Table>,
}

/// The index of the first table from `from` on whose name is `name`.
pub open spec fn find_from(db: Seq<SpecTable>, name: Seq<char>, from: int) -> Option<int>
    decreases db.len() - from,
{
    if from < 0 || from >= db.len() {
        None
    } else if same_name(db[from].name, name) {
        Some(from)
    } else {
        find_from(db, name, from + 1)
    }
}

/// The index of the table named `name`.
pub open spec fn find_table(db: Seq<SpecTable>, name: Seq<char>) -> Option<int> {
    find_from(db, name, 0)
}

/// Whether two columns of a schema share a name.
pub open spec fn has_duplicate(columns: Seq<SpecColumnDef>) -> bool {
    exists|i: int, j: int|
        0 <= i < j < columns.len() && same_name(
            (#[trigger] columns[i]).name,
            (#[trigger] columns[j]).name,
        )
}

/// Why a row cannot stand in a table of the given schema, if it cannot: it
/// has another number of values than the schema has columns, or a value that
/// its column does not accept.
pub open spec fn row_error(columns: Seq<SpecColumnDef>, row: Seq<SpecValue>) -> Option<
    EngineError,
> {
    if row.len() != columns.len() {
        Some(EngineError::ColumnCountMismatch)
    } else if exists|i: int|
        0 <= i < row.len() && !accepts(columns[i].ty, columns[i].not_null, #[trigger] row[i]) {
        Some(EngineError::TypeMismatch)
    } else {
        None
    }
}

/// The error of the first row from `from` on that has one.
pub open spec fn rows_error(
    columns: Seq<SpecColumnDef>,
    rows: Seq<Seq<SpecValue>>,
    from: int,
) -> Option<EngineError>
    decreases rows.len() - from,
{
    if from < 0 || from >= rows.len() {
        None
    } else {
        match row_error(columns, rows[from]) {
            Some(e) => Some(e),
            None => rows_error(columns, rows, from + 1),
        }
    }
}

/// Whether a table is well formed: no two columns share a name, and every
/// row fits the schema.
pub open spec fn valid_table(t: SpecTable) -> bool {
    &&& !has_duplicate(t.columns)
    &&& forall|i: int| 0 <= i < t.rows.len() ==> row_error(t.columns, #[trigger] t.rows[i]) is None
}

/// Whether a set of tables is well formed: each table is, and no two share a
/// name.
pub open spec fn valid(db: Seq<SpecTable>) -> bool {
    &&& forall|i: int| 0 <= i < db.len() ==> valid_table(#[trigger] db[i])
    &&& forall|i: int, j: int|
        0 <= i < j < db.len() ==> !same_name((#[trigger] db[i]).name, (#[trigger] db[j]).name)
}

/// A table with other rows.
pub open spec fn with_rows(t: SpecTable, rows: Seq<Seq<SpecValue>>) -> SpecTable {
    SpecTable { name: t.name, columns: t.columns, rows }
}

/// The tables after `CREATE TABLE`: the new table, empty, after the others;
/// an error where the name is taken or two columns share a name.
pub open spec fn create_spec(
    db: Seq<SpecTable>,
    name: Seq<char>,
    columns: Seq<SpecColumnDef>,
) -> Result<Seq<SpecTable>, EngineError> {
    if find_table(db, name) is Some {
        Err(EngineError::TableAlreadyExists)
    } else if has_duplicate(columns) {
        Err(EngineError::TypeMismatch)
    } else {
        Ok(db.push(SpecTable { name, columns, rows: Seq::empty() }))
    }
}

/// The tables after `DROP TABLE`.
pub open spec fn drop_spec(db: Seq<SpecTable>, name: Seq<char>) -> Result<
    Seq<SpecTable>,
    EngineError,
> {
    match find_table(db, name) {
        None => Err(EngineError::UnknownTable),
        Some(i) => Ok(db.remove(i)),
    }
}

/// The tables after an insertion: the rows stand after those that the table
/// held, in their order; nothing changes unless every row fits the schema.
pub open spec fn insert_spec(
    db: Seq<SpecTable>,
    name: Seq<char>,
    rows: Seq<Seq<SpecValue>>,
) -> Result<Seq<SpecTable>, EngineError> {
    match find_table(db, name) {
        None => Err(EngineError::UnknownTable),
        Some(i) => match rows_error(db[i].columns, rows, 0) {
            Some(e) => Err(e),
            None => Ok(db.update(i, with_rows(db[i], db[i].rows + rows))),
        },
    }
}

/// The row that replaces row `i`, if one does.
pub open spec fn change_at(changes: Seq<Option<Seq<SpecValue>>>, i: int) -> Option<
    Seq<SpecValue>,
> {
    if 0 <= i < changes.len() {
        changes[i]
    } else {
        None
    }
}

/// The rows after an update: each row for which a change is given is
/// replaced by it.
pub open spec fn changed_rows(
    rows: Seq<Seq<SpecValue>>,
    changes: Seq<Option<Seq<SpecValue>>>,
) -> Seq<Seq<SpecValue>> {
    Seq::new(
        rows.len(),
        |i: int|
            match change_at(changes, i) {
                Some(r) => r,
                None => rows[i],
            },
    )
}

/// How many of the first `n` rows are replaced.
pub open spec fn changed_count(changes: Seq<Option<Seq<SpecValue>>>, n: int) -> nat
    decreases n,
{
    if n <= 0 {
        0
    } else {
        changed_count(changes, n - 1) + if change_at(changes, n - 1) is Some {
            1nat
        } else {
            0nat
        }
    }
}

/// The tables after an update; nothing changes unless every new row fits the
/// schema.
pub open spec fn update_spec(
    db: Seq<SpecTable>,
    name: Seq<char>,
    changes: Seq<Option<Seq<SpecValue>>>,
) -> Result<Seq<SpecTable>, EngineError> {
    match find_table(db, name) {
        None => Err(EngineError::UnknownTable),
        Some(i) => match rows_error(db[i].columns, changed_rows(db[i].rows, changes), 0) {
            Some(e) => Err(e),
            None => Ok(db.update(i, with_rows(db[i], changed_rows(db[i].rows, changes)))),
        },
    }
}

/// Whether row `i` is marked for deletion.
pub open spec fn doomed_at(doomed: Seq<bool>, i: int) -> bool {
    0 <= i < doomed.len() && doomed[i]
}

/// The rows from `from` on that are not marked, in their order.
pub open spec fn kept_rows(rows: Seq<Seq<SpecValue>>, doomed: Seq<bool>, from: int) -> Seq<
    Seq<SpecValue>,
>
    decreases rows.len() - from,
{
    if from < 0 || from >= rows.len() {
        Seq::empty()
    } else if doomed_at(doomed, from) {
        kept_rows(rows, doomed, from + 1)
    } else {
        seq![rows[from]] + kept_rows(rows, doomed, from + 1)
    }
}

/// The tables after a deletion.
pub open spec fn delete_spec(db: Seq<SpecTable>, name: Seq<char>, doomed: Seq<bool>) -> Result<
    Seq<SpecTable>,
    EngineError,
> {
    match find_table(db, name) {
        None => Err(EngineError::UnknownTable),
        Some(i) => Ok(db.update(i, with_rows(db[i], kept_rows(db[i].rows, doomed, 0)))),
    }
}

/// Where the search for a name ends: at the first table of that name, or
/// nowhere where no table has it.
pub proof fn lemma_find(db: Seq<SpecTable>, name: Seq<char>, from: int)
    requires
        0 <= from,
    ensures
        match find_from(db, name, from) {
            Some(i) => from <= i < db.len() && same_name(db[i].name, name) && forall|j: int|
                from <= j < i ==> !same_name(#[trigger] db[j].name, name),
            None => forall|j: int| from <= j < db.len() ==> !same_name(#[trigger] db[j].name, name),
        },
    decreases db.len() - from,
{
    if from < db.len() && !same_name(db[from].name, name) {
        lemma_find(db, name, from + 1);
    }
}

/// Rows without an error have none one by one.
pub proof fn lemma_rows_fit(columns: Seq<SpecColumnDef>, rows: Seq<Seq<SpecValue>>, from: int)
    requires
        0 <= from,
        rows_error(columns, rows, from) is None,
    ensures
        forall|i: int| from <= i < rows.len() ==> row_error(columns, #[trigger] rows[i]) is None,
    decreases rows.len() - from,
{
    if from < rows.len() {
        lemma_rows_fit(columns, rows, from + 1);
    }
}

/// Every row that is kept is a row that was there.
pub proof fn lemma_kept_rows(rows: Seq<Seq<SpecValue>>, doomed: Seq<bool>, from: int)
    requires
        0 <= from,
    ensures
        kept_rows(rows, doomed, from).len() <= rows.len() - from || from >= rows.len(),
        forall|k: int|
            0 <= k < kept_rows(rows, doomed, from).len() ==> exists|i: int|
                from <= i < rows.len() && rows[i] == #[trigger] kept_rows(rows, doomed, from)[k],
    decreases rows.len() - from,
{
    if from < rows.len() {
        lemma_kept_rows(rows, doomed, from + 1);
        let rest = kept_rows(rows, doomed, from + 1);
        let all = kept_rows(rows, doomed, from);
        assert forall|k: int| 0 <= k < all.len() implies exists|i: int|
            from <= i < rows.len() && rows[i] == #[trigger] all[k] by {
            if doomed_at(doomed, from) {
                let i = choose|i: int| from + 1 <= i < rows.len() && rows[i] == rest[k];
                assert(rows[i] == all[k]);
            } else if k == 0 {
                assert(rows[from] == all[k]);
            } else {
                let i = choose|i: int| from + 1 <= i < rows.len() && rows[i] == rest[k - 1];
                assert(rows[i] == all[k]);
            }
        }
    }
}

/// A vector of values with the same values.
pub fn clone_row(row: &Vec<Value>) -> (copy: Vec<Value>)
    ensures
        copy@ == row@,
        copy.deep_view() == row.deep_view(),
{
    let mut copy: Vec<Value> = Vec::new();
    let mut i: usize = 0;
    while i < row.len()
        invariant
            i <= row.len(),
            copy@ == row@.take(i as int),
        decreases row.len() - i,
    {
        copy.push(row[i].clone());
        assert(row@.take(i + 1) == row@.take(i as int).push(row@[i as int]));
        i += 1;
    }
    assert(row@.take(row.len() as int) == row@);
    assert(copy.deep_view() =~= row.deep_view());
    copy
}

/// Why a row cannot stand in a table of the given schema, if it cannot.
pub fn check_row(columns: &Vec<ColumnDef>, row: &Vec<Value>) -> (r: Option<EngineError>)
    ensures
        r == row_error(columns.deep_view(), row.deep_view()),
{
    if row.len() != columns.len() {
        return Some(EngineError::ColumnCountMismatch);
    }
    let mut i: usize = 0;
    while i < row.len()
        invariant
            i <= row.len(),
            row.len() == columns.len(),
            forall|j: int|
                0 <= j < i ==> accepts(
                    columns.deep_view()[j].ty,
                    columns.deep_view()[j].not_null,
                    #[trigger] row.deep_view()[j],
                ),
        decreases row.len() - i,
    {
        if !admits(columns[i].ty, columns[i].not_null, &row[i]) {
            assert(!accepts(
                columns.deep_view()[i as int].ty,
                columns.deep_view()[i as int].not_null,
                row.deep_view()[i as int],
            ));
            return Some(EngineError::TypeMismatch);
        }
        i += 1;
    }
    None
}

/// The error of the first row that has one.
pub fn check_rows(columns: &Vec<ColumnDef>, rows: &Vec<Vec<Value>>) -> (r: Option<EngineError>)
    ensures
        r == rows_error(columns.deep_view(), rows.deep_view(), 0),
{
    let mut i: usize = 0;
    while i < rows.len()
        invariant
            i <= rows.len(),
            rows_error(columns.deep_view(), rows.deep_view(), 0) == rows_error(
                columns.deep_view(),
                rows.deep_view(),
                i as int,
            ),
        decreases rows.len() - i,
    {
        match check_row(columns, &rows[i]) {
            Some(e) => {
                return Some(e);
            },
            None => {},
        }
        i += 1;
    }
    None
}

/// Whether two columns of a schema share a name.
pub fn duplicate_column(columns: &Vec<ColumnDef>) -> (r: bool)
    ensures
        r == has_duplicate(columns.deep_view()),
{
    let mut j: usize = 0;
    while j < columns.len()
        invariant
            j <= columns.len(),
            forall|a: int, b: int|
                0 <= a < b < j ==> !same_name(
                    (#[trigger] columns.deep_view()[a]).name,
                    (#[trigger] columns.deep_view()[b]).name,
                ),
        decreases columns.len() - j,
    {
        let mut i: usize = 0;
        while i < j
            invariant
                i <= j < columns.len(),
                forall|a: int|
                    0 <= a < i ==> !same_name(
                        (#[trigger] columns.deep_view()[a]).name,
                        columns.deep_view()[j as int].name,
                    ),
            decreases j - i,
        {
            if strs_match(columns[i].name.as_str(), columns[j].name.as_str()) {
                assert(same_name(
                    columns.deep_view()[i as int].name,
                    columns.deep_view()[j as int].name,
                ));
                return true;
            }
            i += 1;
        }
        j += 1;
    }
    false
}

impl View for Storage {
    type V = Seq<SpecTable>;

    closed spec fn view(&self) -> Seq<SpecTable> {
        self.tables.deep_view()
    }
}

/// Whether a change of the tables went as the model says: on success the
/// tables are those of the model, on failure they are as they were.
pub open spec fn changed<T>(
    r: Result<T, EngineError>,
    before: Seq<SpecTable>,
    after: Seq<SpecTable>,
    model: Result<Seq<SpecTable>, EngineError>,
) -> bool {
    match r {
        Ok(_) => model == Ok::<Seq<SpecTable>, EngineError>(after),
        Err(e) => model == Err::<Seq<SpecTable>, EngineError>(e) && after == before,
    }
}

impl Storage {
    /// Whether the tables are well formed.
    pub open spec fn wf(&self) -> bool {
        valid(self@)
    }

    /// No tables.
    pub fn new() -> (s: Storage)
        ensures
            s@ == Seq::<SpecTable>::empty(),
            s.wf(),
    {
        let s = Storage { tables: Vec::new() };
        assert(s@ =~= Seq::<SpecTable>::empty());
        s
    }

    /// The index of the table named `name`.
    fn find(&self, name: &str) -> (r: Option<usize>)
        ensures
            match r {
                Some(i) => i < self.tables.len() && find_table(self@, name@) == Some(i as int),
                None => find_table(self@, name@) is None,
            },
    {
        let mut i: usize = 0;
        while i < self.tables.len()
            invariant
                i <= self.tables.len(),
                find_table(self@, name@) == find_from(self@, name@, i as int),
            decreases self.tables.len() - i,
        {
            if strs_match(self.tables[i].name.as_str(), name) {
                return Some(i);
            }
            i += 1;
        }
        None
    }

    /// The table named `name`.
    pub fn table(&self, name: &str) -> (r: Result<&Table, EngineError>)
        ensures
            match r {
                Ok(t) => find_table(self@, name@) is Some && t.deep_view() == self@[find_table(
                    self@,
                    name@,
                )->Some_0],
                Err(e) => e == EngineError::UnknownTable && find_table(self@, name@) is None,
            },
    {
        match self.find(name) {
            Some(i) => Ok(&self.tables[i]),
            None => Err(EngineError::UnknownTable),
        }
    }

    /// The rows of the table named `name`, in the order of insertion.
    pub fn scan(&self, name: &str) -> (r: Result<&Vec<Vec<Value>>, EngineError>)
        ensures
            match r {
                Ok(rows) => find_table(self@, name@) is Some && rows.deep_view() == self@[find_table(
                    self@,
                    name@,
                )->Some_0].rows,
                Err(e) => e == EngineError::UnknownTable && find_table(self@, name@) is None,
            },
    {
        match self.table(name) {
            Ok(t) => Ok(&t.rows),
            Err(e) => Err(e),
        }
    }

    /// Adds an empty table.
    pub fn create_table(&mut self, name: String, columns: Vec<ColumnDef>) -> (r: Result<
        (),
        EngineError,
    >)
        requires
            old(self).wf(),
        ensures
            final(self).wf(),
            changed(r, old(self)@, final(self)@, create_spec(old(self)@, name@, columns.deep_view())),
    {
        if self.find(name.as_str()).is_some() {
            return Err(EngineError::TableAlreadyExists);
        }
        if duplicate_column(&columns) {
            return Err(EngineError::TypeMismatch);
        }
        let rows: Vec<Vec<Value>> = Vec::new();
        let t = Table { name, columns, rows };
        proof {
            lemma_find(self@, t.name@, 0);
            assert(t.deep_view().rows =~= Seq::<Seq<SpecValue>>::empty());
        }
        let ghost before = self.tables;
        self.tables.push(t);
        proof {
            lemma_push_view(before, self.tables, t);
        }
        Ok(())
    }

    /// Removes a table.
    pub fn drop_table(&mut self, name: &str) -> (r: Result<(), EngineError>)
        requires
            old(self).wf(),
        ensures
            final(self).wf(),
            changed(r, old(self)@, final(self)@, drop_spec(old(self)@, name@)),
    {
        match self.find(name) {
            None => Err(EngineError::UnknownTable),
            Some(i) => {
                let ghost before = self@;
                self.tables.remove(i);
                assert(self@ =~= before.remove(i as int));
                Ok(())
            },
        }
    }

    /// Puts other rows in the place of those of table `i`.
    fn replace_rows(&mut self, i: usize, rows: Vec<Vec<Value>>)
        requires
            i < old(self).tables.len(),
            old(self).wf(),
            forall|k: int|
                0 <= k < rows.len() ==> row_error(
                    old(self)@[i as int].columns,
                    #[trigger] rows.deep_view()[k],
                ) is None,
        ensures
            final(self).wf(),
            final(self)@ == old(self)@.update(
                i as int,
                with_rows(old(self)@[i as int], rows.deep_view()),
            ),
    {
        let ghost before = self@;
        let mut t = self.tables.remove(i);
        t.rows = rows;
        self.tables.insert(i, t);
        assert(self@ =~= before.update(i as int, with_rows(before[i as int], rows.deep_view())));
    }

    /// Appends rows to a table, all or none. Gives their number.
    pub fn insert(&mut self, name: &str, rows: Vec<Vec<Value>>) -> (r: Result<usize, EngineError>)
        requires
            old(self).wf(),
        ensures
            final(self).wf(),
            changed(r, old(self)@, final(self)@, insert_spec(old(self)@, name@, rows.deep_view())),
            r is Ok ==> r->Ok_0 == rows.len(),
    {
        let i = match self.find(name) {
            None => {
                return Err(EngineError::UnknownTable);
            },
            Some(i) => i,
        };
        match check_rows(&self.tables[i].columns, &rows) {
            Some(e) => {
                return Err(e);
            },
            None => {},
        }
        let n = rows.len();
        let ghost before = self@;
        let ghost added = rows.deep_view();
        proof {
            lemma_rows_fit(before[i as int].columns, added, 0);
        }
        let mut t = self.tables.remove(i);
        let ghost held = t.rows.deep_view();
        let mut rows = rows;
        t.rows.append(&mut rows);
        assert(t.rows.deep_view() =~= held + added);
        self.tables.insert(i, t);
        assert(self@ =~= before.update(
            i as int,
            with_rows(before[i as int], before[i as int].rows + added),
        ));
        Ok(n)
    }

    /// Replaces the rows for which a change is given, all or none. Gives
    /// the number of rows replaced.
    pub fn update(&mut self, name: &str, changes: &Vec<Option<Vec<Value>>>) -> (r: Result<
        usize,
        EngineError,
    >)
        requires
            old(self).wf(),
        ensures
            final(self).wf(),
            changed(
                r,
                old(self)@,
                final(self)@,
                update_spec(old(self)@, name@, changes.deep_view()),
            ),
            r is Ok ==> r->Ok_0 == changed_count(
                changes.deep_view(),
                old(self)@[find_table(old(self)@, name@)->Some_0].rows.len() as int,
            ),
    {
        let i = match self.find(name) {
            None => {
                return Err(EngineError::UnknownTable);
            },
            Some(i) => i,
        };
        let ghost before = self@;
        let ghost held = before[i as int].rows;
        let ghost model = changes.deep_view();
        let mut rows: Vec<Vec<Value>> = Vec::new();
        let mut count: usize = 0;
        let mut k: usize = 0;
        while k < self.tables[i].rows.len()
            invariant
                i < self.tables.len(),
                self@ == before,
                held == before[i as int].rows,
                model == changes.deep_view(),
                k <= self.tables[i as int].rows.len(),
                held.len() == self.tables[i as int].rows.len(),
                rows.len() == k,
                count == changed_count(model, k as int),
                count <= k,
                forall|j: int|
                    0 <= j < k ==> #[trigger] rows.deep_view()[j] == changed_rows(held, model)[j],
            decreases self.tables[i as int].rows.len() - k,
        {
            let ghost prior = rows;
            let replaced = k < changes.len() && changes[k].is_some();
            let row = if replaced {
                match &changes[k] {
                    Some(r) => clone_row(r),
                    None => Vec::new(),
                }
            } else {
                clone_row(&self.tables[i].rows[k])
            };
            assert(row.deep_view() == changed_rows(held, model)[k as int]);
            rows.push(row);
            proof {
                lemma_push_view(prior, rows, row);
            }
            if replaced {
                count += 1;
            }
            k += 1;
        }
        assert(rows.deep_view() =~= changed_rows(held, model));
        match check_rows(&self.tables[i].columns, &rows) {
            Some(e) => {
                return Err(e);
            },
            None => {},
        }
        proof {
            lemma_rows_fit(before[i as int].columns, rows.deep_view(), 0);
        }
        self.replace_rows(i, rows);
        Ok(count)
    }

    /// Removes the rows that are marked. Gives the number of rows removed.
    pub fn delete(&mut self, name: &str, doomed: &Vec<bool>) -> (r: Result<usize, EngineError>)
        requires
            old(self).wf(),
        ensures
            final(self).wf(),
            changed(r, old(self)@, final(self)@, delete_spec(old(self)@, name@, doomed@)),
            r is Ok ==> r->Ok_0 == old(self)@[find_table(old(self)@, name@)->Some_0].rows.len()
                - final(self)@[find_table(old(self)@, name@)->Some_0].rows.len(),
    {
        let i = match self.find(name) {
            None => {
                return Err(EngineError::UnknownTable);
            },
            Some(i) => i,
        };
        let ghost before = self@;
        let ghost held = before[i as int].rows;
        let mut rows: Vec<Vec<Value>> = Vec::new();
        let mut k: usize = 0;
        proof {
            assert(rows.deep_view() + kept_rows(held, doomed@, 0) =~= kept_rows(held, doomed@, 0));
        }
        while k < self.tables[i].rows.len()
            invariant
                i < self.tables.len(),
                self@ == before,
                held == before[i as int].rows,
                k <= self.tables[i as int].rows.len(),
                held.len() == self.tables[i as int].rows.len(),
                rows.len() <= k,
                kept_rows(held, doomed@, 0) == rows.deep_view() + kept_rows(
                    held,
                    doomed@,
                    k as int,
                ),
            decreases self.tables[i as int].rows.len() - k,
        {
            if !(k < doomed.len() && doomed[k]) {
                let ghost prior = rows;
                let row = clone_row(&self.tables[i].rows[k]);
                rows.push(row);
                proof {
                    lemma_push_view(prior, rows, row);
                    assert(prior.deep_view() + (seq![held[k as int]] + kept_rows(
                        held,
                        doomed@,
                        k + 1,
                    )) =~= rows.deep_view() + kept_rows(held, doomed@, k + 1));
                }
            }
            k += 1;
        }
        assert(rows.deep_view() =~= kept_rows(held, doomed@, 0));
        proof {
            lemma_kept_rows(held, doomed@, 0);
        }
        let removed = self.tables[i].rows.len() - rows.len();
        self.replace_rows(i, rows);
        Ok(removed)
    }
}

} // verus!
