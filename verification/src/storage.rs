//! Table schemas and row storage.

use vstd::prelude::*;
use crate::text::{concat3, concat4, digits, lower, same_text, to_lower, usize_text};
use crate::types::{data_of, datum_type, DataType, Datum, Error, Fault, Value};

verus! {

/// A column of a table.
#[derive(Debug)]
pub struct Field {
    pub name: String,
    pub data_type: DataType,
    pub nullable: bool,
}

/// The columns of a table in order.
#[derive(Debug)]
pub struct Schema {
    fields: Vec<Field>,
}

/// The first column at or after `i` that `name` denotes, case aside.
pub open spec fn field_from(fields: Seq<Field>, name: Seq<char>, i: int) -> Option<int>
    decreases fields.len() - i,
{
    if i < 0 || i >= fields.len() {
        None
    } else if lower(fields[i].name@) == lower(name) {
        Some(i)
    } else {
        field_from(fields, name, i + 1)
    }
}

/// The column that `name` denotes.
pub open spec fn field_index(fields: Seq<Field>, name: Seq<char>) -> Option<int> {
    field_from(fields, name, 0)
}

/// The position of the first column whose name an earlier column has, at or after `i`.
pub open spec fn duplicate_from(fields: Seq<Field>, i: int) -> Option<int>
    decreases fields.len() - i,
{
    if i < 0 || i >= fields.len() {
        None
    } else if field_from(fields.take(i), fields[i].name@, 0) is Some {
        Some(i)
    } else {
        duplicate_from(fields, i + 1)
    }
}

/// Whether no two columns share a name.
pub open spec fn distinct_names(fields: Seq<Field>) -> bool {
    duplicate_from(fields, 0) is None
}

/// A found column is within the schema.
pub proof fn field_from_in_range(fields: Seq<Field>, name: Seq<char>, i: int)
    requires
        0 <= i,
    ensures
        field_from(fields, name, i) matches Some(k) ==> i <= k < fields.len() && lower(
            fields[k].name@,
        ) == lower(name),
    decreases fields.len() - i,
{
    if i < fields.len() && lower(fields[i].name@) != lower(name) {
        field_from_in_range(fields, name, i + 1);
    }
}

fn find_field(fields: &Vec<Field>, count: usize, name: &str) -> (r: Option<usize>)
    requires
        count <= fields.len(),
    ensures
        match r {
            Some(k) => k < count && field_from(fields@.take(count as int), name@, 0) == Some(k as int),
            None => field_from(fields@.take(count as int), name@, 0) is None,
        },
{
    let key = to_lower(name);
    let ghost seen = fields@.take(count as int);
    let mut i: usize = 0;
    while i < count
        invariant
            i <= count <= fields.len(),
            key@ == lower(name@),
            seen == fields@.take(count as int),
            field_from(seen, name@, 0) == field_from(seen, name@, i as int),
        decreases count - i,
    {
        let candidate = to_lower(fields[i].name.as_str());
        if same_text(candidate.as_str(), key.as_str()) {
            return Some(i);
        }
        i += 1;
    }
    None
}

impl Schema {
    /// The columns in order.
    pub closed spec fn view(&self) -> Seq<Field> {
        self.fields@
    }

    /// The schema with these columns, or the error for a repeated name.
    pub open spec fn checked(fields: Seq<Field>) -> Result<Seq<Field>, Fault> {
        match duplicate_from(fields, 0) {
            Some(i) => Err(
                Fault::Constraint("column "@ + fields[i].name@ + " is defined more than once"@),
            ),
            None => Ok(fields),
        }
    }

    /// Makes a schema; column names must differ, case aside.
    pub fn new(fields: Vec<Field>) -> (r: Result<Schema, Error>)
        ensures
            match r {
                Ok(schema) => Schema::checked(fields@) == Ok::<Seq<Field>, Fault>(schema@),
                Err(e) => Schema::checked(fields@) == Err::<Seq<Field>, Fault>(e@),
            },
    {
        let mut i: usize = 0;
        while i < fields.len()
            invariant
                i <= fields.len(),
                duplicate_from(fields@, 0) == duplicate_from(fields@, i as int),
            decreases fields.len() - i,
        {
            if find_field(&fields, i, fields[i].name.as_str()).is_some() {
                return Err(
                    Error::Constraint(
                        concat3("column ", fields[i].name.as_str(), " is defined more than once"),
                    ),
                );
            }
            i += 1;
        }
        Ok(Schema { fields })
    }

    /// The columns.
    pub fn fields(&self) -> (fields: &Vec<Field>)
        ensures
            fields@ == self@,
    {
        &self.fields
    }

    /// The number of columns.
    pub fn len(&self) -> (n: usize)
        ensures
            n == self@.len(),
    {
        self.fields.len()
    }

    /// The result of looking a column up.
    pub open spec fn found(&self, name: Seq<char>) -> Result<int, Fault> {
        match field_index(self@, name) {
            Some(i) => Ok(i),
            None => Err(Fault::ColumnNotFound(name)),
        }
    }

    /// Finds the column that `name` denotes, case aside.
    pub fn index_of(&self, name: &str) -> (r: Result<usize, Error>)
        ensures
            match r {
                Ok(i) => i < self@.len() && self.found(name@) == Ok::<int, Fault>(i as int),
                Err(e) => self.found(name@) == Err::<int, Fault>(e@),
            },
    {
        assert(self.fields@.take(self.fields.len() as int) =~= self.fields@);
        match find_field(&self.fields, self.fields.len(), name) {
            Some(i) => Ok(i),
            None => Err(Error::ColumnNotFound(name.to_owned())),
        }
    }
}

/// A table: a schema and rows that conform to it.
#[derive(Debug)]
pub struct Table {
    schema: Schema,
    rows: Vec<Vec<Value>>,
}

/// The mathematical content of a table.
pub struct TableData {
    pub fields: Seq<Field>,
    pub rows: Seq<Seq<Datum>>,
}

/// Whether a table's names differ and its rows have one datum for each column.
pub open spec fn table_sound(table: TableData) -> bool {
    &&& distinct_names(table.fields)
    &&& table.rows.len() <= usize::MAX
    &&& forall|i: int|
        0 <= i < table.rows.len() ==> (#[trigger] table.rows[i]).len() == table.fields.len()
}

/// What keeps a datum out of a column, if anything does.
pub open spec fn datum_misfit(field: Field, d: Datum) -> Option<Fault> {
    match datum_type(d) {
        None => if field.nullable {
            None
        } else {
            Some(Fault::Constraint("column "@ + field.name@ + " does not accept NULL"@))
        },
        Some(t) => if t == field.data_type {
            None
        } else {
            Some(
                Fault::Type(
                    "column "@ + field.name@ + " expects "@ + field.data_type.text() + (", found "@
                        + t.text()),
                ),
            )
        },
    }
}

/// What keeps a row out of a table, looking at its data from `i` on.
pub open spec fn row_misfit_from(fields: Seq<Field>, row: Seq<Datum>, i: int) -> Option<Fault>
    decreases fields.len() - i,
{
    if i < 0 || i >= fields.len() {
        None
    } else {
        match datum_misfit(fields[i], row[i]) {
            Some(fault) => Some(fault),
            None => row_misfit_from(fields, row, i + 1),
        }
    }
}

/// What keeps a row out of a table, if anything does.
pub open spec fn row_misfit(fields: Seq<Field>, row: Seq<Datum>) -> Option<Fault> {
    if row.len() != fields.len() {
        Some(
            Fault::Constraint(
                "expected "@ + digits(fields.len()) + " values, found "@ + digits(row.len()),
            ),
        )
    } else {
        row_misfit_from(fields, row, 0)
    }
}

/// What keeps the first misfitting row out of a table, looking from row `i` on.
pub open spec fn rows_misfit(fields: Seq<Field>, rows: Seq<Seq<Datum>>, i: int) -> Option<Fault>
    decreases rows.len() - i,
{
    if i < 0 || i >= rows.len() {
        None
    } else {
        match row_misfit(fields, rows[i]) {
            Some(fault) => Some(fault),
            None => rows_misfit(fields, rows, i + 1),
        }
    }
}

/// The contents of rows of values.
pub open spec fn rows_of(rows: Seq<Vec<Value>>) -> Seq<Seq<Datum>> {
    Seq::new(rows.len(), |i: int| data_of(rows[i]@))
}

fn check_row(fields: &Vec<Field>, row: &Vec<Value>) -> (r: Result<(), Error>)
    ensures
        match r {
            Ok(()) => row_misfit(fields@, data_of(row@)) is None && row.len() == fields.len(),
            Err(e) => row_misfit(fields@, data_of(row@)) == Some(e@),
        },
{
    if row.len() != fields.len() {
        let expected = usize_text(fields.len());
        let found = usize_text(row.len());
        return Err(
            Error::Constraint(
                concat4("expected ", expected.as_str(), " values, found ", found.as_str()),
            ),
        );
    }
    let mut i: usize = 0;
    while i < fields.len()
        invariant
            i <= fields.len(),
            row.len() == fields.len(),
            row_misfit(fields@, data_of(row@)) == row_misfit_from(fields@, data_of(row@), i as int),
        decreases fields.len() - i,
    {
        let field = &fields[i];
        assert(data_of(row@)[i as int] == row[i as int]@);
        match row[i].data_type() {
            None => {
                if !field.nullable {
                    return Err(
                        Error::Constraint(
                            concat3("column ", field.name.as_str(), " does not accept NULL"),
                        ),
                    );
                }
            },
            Some(found) => {
                if found != field.data_type {
                    let head = concat4(
                        "column ",
                        field.name.as_str(),
                        " expects ",
                        field.data_type.name(),
                    );
                    let tail = crate::text::concat2(", found ", found.name());
                    let message = crate::text::concat2(head.as_str(), tail.as_str());
                    return Err(Error::Type(message));
                }
            },
        }
        i += 1;
    }
    Ok(())
}

impl Table {
    /// The columns in order.
    pub closed spec fn fields(&self) -> Seq<Field> {
        self.schema@
    }

    /// The rows in order.
    pub closed spec fn view(&self) -> Seq<Seq<Datum>> {
        rows_of(self.rows@)
    }

    /// The fields and the rows.
    pub open spec fn data(&self) -> TableData {
        TableData { fields: self.fields(), rows: self@ }
    }

    /// Whether column names differ and every row conforms to the schema.
    pub closed spec fn wf(&self) -> bool {
        &&& distinct_names(self.schema@)
        &&& forall|i: int| #![trigger self.rows[i]]
            0 <= i < self.rows.len() ==> row_misfit(self.schema@, data_of(self.rows[i]@)) is None
    }

    /// Makes an empty table.
    pub fn new(schema: Schema) -> (t: Table)
        requires
            distinct_names(schema@),
        ensures
            t.wf(),
            t.fields() == schema@,
            t@ == Seq::<Seq<Datum>>::empty(),
    {
        let t = Table { schema, rows: Vec::new() };
        assert(t@ =~= Seq::<Seq<Datum>>::empty());
        t
    }

    /// The schema.
    pub fn schema(&self) -> (s: &Schema)
        ensures
            s@ == self.fields(),
    {
        &self.schema
    }

    /// The number of rows.
    pub fn row_count(&self) -> (n: usize)
        ensures
            n == self@.len(),
    {
        self.rows.len()
    }

    /// The value in a row and a column.
    pub fn value(&self, row: usize, column: usize) -> (v: Value)
        requires
            self.wf(),
            row < self@.len(),
            column < self.fields().len(),
        ensures
            v@ == self@[row as int][column as int],
    {
        proof {
            self.rows_are_full(row as int);
        }
        self.rows[row][column].clone()
    }

    /// The bytes accounted for the value in a row and a column.
    pub fn value_retained_bytes(&self, row: usize, column: usize) -> (n: usize)
        requires
            self.wf(),
            row < self@.len(),
            column < self.fields().len(),
        ensures
            n == crate::budget::datum_bytes(self@[row as int][column as int]),
    {
        proof {
            self.rows_are_full(row as int);
        }
        crate::budget::value_bytes(&self.rows[row][column])
    }

    /// Every stored row has one datum for each column, and the datum fits it.
    pub proof fn rows_are_full(&self, i: int)
        requires
            self.wf(),
            0 <= i < self@.len(),
        ensures
            self@[i].len() == self.fields().len(),
            row_misfit(self.fields(), self@[i]) is None,
    {
        assert(row_misfit(self.schema@, data_of(self.rows[i]@)) is None);
    }

    /// A well-formed table is sound.
    pub proof fn is_sound(&self)
        requires
            self.wf(),
        ensures
            table_sound(self.data()),
    {
        assert(self@.len() == self.rows.len());
        assert forall|i: int| 0 <= i < self@.len() implies (#[trigger] self@[i]).len()
            == self.fields().len() by {
            self.rows_are_full(i);
        }
    }

    /// Appends rows; either all of them conform and are stored, or none is.
    pub fn append_rows(&mut self, rows: Vec<Vec<Value>>) -> (r: Result<(), Error>)
        requires
            old(self).wf(),
        ensures
            final(self).wf(),
            final(self).fields() == old(self).fields(),
            match r {
                Ok(()) => {
                    &&& rows_misfit(old(self).fields(), rows_of(rows@), 0) is None
                    &&& final(self)@ == old(self)@ + rows_of(rows@)
                },
                Err(e) => {
                    &&& rows_misfit(old(self).fields(), rows_of(rows@), 0) == Some(e@)
                    &&& *final(self) == *old(self)
                },
            },
    {
        let mut i: usize = 0;
        while i < rows.len()
            invariant
                i <= rows.len(),
                *self == *old(self),
                self.wf(),
                rows_misfit(self.fields(), rows_of(rows@), 0) == rows_misfit(
                    self.fields(),
                    rows_of(rows@),
                    i as int,
                ),
                forall|j: int| 0 <= j < i ==> row_misfit(self.fields(), data_of(#[trigger] rows[j]@)) is None,
            decreases rows.len() - i,
        {
            assert(rows_of(rows@)[i as int] == data_of(rows[i as int]@));
            match check_row(self.schema.fields(), &rows[i]) {
                Ok(()) => {},
                Err(e) => {
                    return Err(e);
                },
            }
            i += 1;
        }
        let ghost added = rows@;
        let mut rows = rows;
        self.rows.append(&mut rows);
        proof {
            assert(self@ =~= old(self)@ + rows_of(added));
            assert forall|k: int| #![trigger self.rows[k]] 0 <= k < self.rows.len() implies row_misfit(
                self.schema@,
                data_of(self.rows[k]@),
            ) is None by {
                if k < old(self).rows.len() {
                    assert(self.rows[k] == old(self).rows[k]);
                } else {
                    assert(self.rows[k] == added[k - old(self).rows.len()]);
                }
            }
        }
        Ok(())
    }
}

} // verus!
