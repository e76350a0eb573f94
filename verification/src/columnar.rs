//! Nullable typed columns, batches of rows and tables.

use vstd::prelude::*;
use crate::text::{concat2, concat4, concat5, int_text, same_text, usize_text};
use crate::types::{data_of, datum_type, DataType, Datum, Value};

verus! {

/// The cells of one column. A floating-point value is held as its bit pattern.
#[derive(Debug, PartialEq, Eq)]
pub enum Column {
    Int64(Vec<Option<i64>>),
    Float64(Vec<Option<u64>>),
    Bool(Vec<Option<bool>>),
    String(Vec<Option<String>>),
}

/// Whether a cell may stand in a column of a type.
pub open spec fn suits(cell: Datum, data_type: DataType) -> bool {
    cell is Null || datum_type(cell) == Some(data_type)
}

impl Column {
    /// The type of the column.
    pub open spec fn kind(&self) -> DataType {
        match *self {
            Column::Int64(_) => DataType::Int64,
            Column::Float64(_) => DataType::Float64,
            Column::Bool(_) => DataType::Bool,
            Column::String(_) => DataType::String,
        }
    }

    /// The number of cells.
    pub open spec fn height(&self) -> nat {
        match *self {
            Column::Int64(values) => values@.len(),
            Column::Float64(values) => values@.len(),
            Column::Bool(values) => values@.len(),
            Column::String(values) => values@.len(),
        }
    }

    /// One cell.
    pub open spec fn cell(&self, row: int) -> Datum {
        match *self {
            Column::Int64(values) => match values@[row] {
                Some(value) => Datum::Int64(value),
                None => Datum::Null,
            },
            Column::Float64(values) => match values@[row] {
                Some(value) => Datum::Float64(value),
                None => Datum::Null,
            },
            Column::Bool(values) => match values@[row] {
                Some(value) => Datum::Bool(value),
                None => Datum::Null,
            },
            Column::String(values) => match values@[row] {
                Some(value) => Datum::Text(value@),
                None => Datum::Null,
            },
        }
    }

    /// All cells.
    pub open spec fn cells(&self) -> Seq<Datum> {
        Seq::new(self.height(), |row: int| self.cell(row))
    }

    /// Makes a column without cells.
    pub fn empty(data_type: DataType) -> (column: Column)
        ensures
            column.kind() == data_type,
            column.cells() == Seq::<Datum>::empty(),
    {
        match data_type {
            DataType::Int64 => Column::Int64(Vec::new()),
            DataType::Float64 => Column::Float64(Vec::new()),
            DataType::Bool => Column::Bool(Vec::new()),
            DataType::String => Column::String(Vec::new()),
        }
    }

    /// The type of the column.
    pub fn data_type(&self) -> (t: DataType)
        ensures
            t == self.kind(),
    {
        match self {
            Column::Int64(_) => DataType::Int64,
            Column::Float64(_) => DataType::Float64,
            Column::Bool(_) => DataType::Bool,
            Column::String(_) => DataType::String,
        }
    }

    /// The number of cells.
    pub fn len(&self) -> (n: usize)
        ensures
            n == self.height(),
    {
        match self {
            Column::Int64(values) => values.len(),
            Column::Float64(values) => values.len(),
            Column::Bool(values) => values.len(),
            Column::String(values) => values.len(),
        }
    }

    /// Copies one cell.
    pub fn value(&self, row: usize) -> (value: Value)
        requires
            row < self.height(),
        ensures
            value@ == self.cell(row as int),
            suits(value@, self.kind()),
    {
        match self {
            Column::Int64(values) => match values[row] {
                Some(value) => Value::Int64(value),
                None => Value::Null,
            },
            Column::Float64(values) => match values[row] {
                Some(value) => Value::Float64(value),
                None => Value::Null,
            },
            Column::Bool(values) => match values[row] {
                Some(value) => Value::Bool(value),
                None => Value::Null,
            },
            Column::String(values) => match &values[row] {
                Some(value) => Value::String(value.clone()),
                None => Value::Null,
            },
        }
    }

    /// Appends one cell.
    pub fn push(&mut self, value: Value)
        requires
            suits(value@, old(self).kind()),
        ensures
            final(self).kind() == old(self).kind(),
            final(self).height() == old(self).height() + 1,
            final(self).cells() == old(self).cells().push(value@),
    {
        let ghost before = *self;
        match self {
            Column::Int64(values) => values.push(
                match value {
                    Value::Int64(n) => Some(n),
                    _ => None,
                },
            ),
            Column::Float64(values) => values.push(
                match value {
                    Value::Float64(bits) => Some(bits),
                    _ => None,
                },
            ),
            Column::Bool(values) => values.push(
                match value {
                    Value::Bool(b) => Some(b),
                    _ => None,
                },
            ),
            Column::String(values) => values.push(
                match value {
                    Value::String(s) => Some(s),
                    _ => None,
                },
            ),
        }
        assert(self.cells() =~= before.cells().push(value@));
    }

    /// Keeps the first cells only.
    pub fn truncate(&mut self, rows: usize)
        ensures
            final(self).kind() == old(self).kind(),
            rows <= old(self).height() ==> final(self).height() == rows && final(self).cells() == old(
                self,
            ).cells().take(rows as int),
            rows > old(self).height() ==> final(self).height() == old(self).height()
                && final(self).cells() == old(self).cells(),
    {
        let ghost before = *self;
        match self {
            Column::Int64(values) => values.truncate(rows),
            Column::Float64(values) => values.truncate(rows),
            Column::Bool(values) => values.truncate(rows),
            Column::String(values) => values.truncate(rows),
        }
        assert(rows <= before.height() ==> self.cells() =~= before.cells().take(rows as int));
        assert(rows > before.height() ==> self.cells() =~= before.cells());
    }
}

/// The definition of one column.
#[derive(Debug, PartialEq, Eq)]
pub struct Field {
    pub name: String,
    pub data_type: DataType,
    pub nullable: bool,
}

impl Field {
    /// Defines a column.
    pub fn new(name: &str, data_type: DataType, nullable: bool) -> (f: Field)
        ensures
            f.name@ == name@,
            f.data_type == data_type,
            f.nullable == nullable,
    {
        Field { name: name.to_owned(), data_type, nullable }
    }
}

impl Clone for Field {
    fn clone(&self) -> (r: Field)
        ensures
            r == *self,
    {
        Field { name: self.name.clone(), data_type: self.data_type, nullable: self.nullable }
    }
}

/// The definitions of the columns of a table.
#[derive(Debug, PartialEq, Eq)]
pub struct Schema {
    pub fields: Vec<Field>,
}

/// The position of the first field of a name, from position `i` on.
pub open spec fn field_from(fields: Seq<Field>, name: Seq<char>, i: int) -> Option<int>
    decreases fields.len() - i,
{
    if !(0 <= i < fields.len()) {
        None
    } else if fields[i].name@ == name {
        Some(i)
    } else {
        field_from(fields, name, i + 1)
    }
}

/// A field that is found has the name.
pub proof fn found_fields_match(fields: Seq<Field>, name: Seq<char>, i: int)
    requires
        0 <= i,
    ensures
        field_from(fields, name, i) matches Some(c) ==> i <= c < fields.len() && fields[c].name@
            == name,
    decreases fields.len() - i,
{
    if i < fields.len() && fields[i].name@ != name {
        found_fields_match(fields, name, i + 1);
    }
}

impl Schema {
    /// The number of columns.
    pub fn len(&self) -> (n: usize)
        ensures
            n == self.fields@.len(),
    {
        self.fields.len()
    }

    /// Finds a column by its exact name.
    pub fn index_of(&self, name: &str) -> (r: Option<usize>)
        ensures
            match r {
                Some(i) => field_from(self.fields@, name@, 0) == Some(i as int) && i
                    < self.fields@.len(),
                None => field_from(self.fields@, name@, 0) is None,
            },
    {
        let mut i: usize = 0;
        while i < self.fields.len()
            invariant
                i <= self.fields.len(),
                field_from(self.fields@, name@, 0) == field_from(self.fields@, name@, i as int),
            decreases self.fields.len() - i,
        {
            if same_text(self.fields[i].name.as_str(), name) {
                return Some(i);
            }
            i = i + 1;
        }
        None
    }

    /// Copies the names of the columns.
    pub fn names(&self) -> (names: Vec<String>)
        ensures
            names@.len() == self.fields@.len(),
            forall|i: int| 0 <= i < names@.len() ==> names@[i]@ == (#[trigger] self.fields@[i]).name@,
    {
        let mut names: Vec<String> = Vec::new();
        let mut i: usize = 0;
        while i < self.fields.len()
            invariant
                i <= self.fields.len(),
                names@.len() == i,
                forall|k: int| 0 <= k < i ==> names@[k]@ == (#[trigger] self.fields@[k]).name@,
            decreases self.fields.len() - i,
        {
            names.push(self.fields[i].name.clone());
            i = i + 1;
        }
        names
    }
}

impl Clone for Schema {
    fn clone(&self) -> (r: Schema)
        ensures
            r.fields@ == self.fields@,
    {
        let mut fields: Vec<Field> = Vec::new();
        let mut i: usize = 0;
        while i < self.fields.len()
            invariant
                i <= self.fields.len(),
                fields@ == self.fields@.take(i as int),
            decreases self.fields.len() - i,
        {
            fields.push(self.fields[i].clone());
            assert(fields@ =~= self.fields@.take(i + 1));
            i = i + 1;
        }
        assert(self.fields@.take(i as int) =~= self.fields@);
        Schema { fields }
    }
}

/// One row of columns.
pub open spec fn row_at(columns: Seq<Column>, row: int) -> Seq<Datum> {
    Seq::new(columns.len(), |c: int| columns[c].cell(row))
}

/// The first `n` rows of columns.
pub open spec fn rows_of(columns: Seq<Column>, n: nat) -> Seq<Seq<Datum>> {
    Seq::new(n, |row: int| row_at(columns, row))
}

/// Whether a column suits its definition and has `n` cells.
pub open spec fn column_suits(column: Column, field: Field, n: nat) -> bool {
    &&& column.kind() == field.data_type
    &&& column.height() == n
    &&& !field.nullable ==> forall|row: int| 0 <= row < n ==> !((#[trigger] column.cell(row)) is Null)
}

/// Whether columns suit their definitions and have `n` cells each.
pub open spec fn shaped(columns: Seq<Column>, fields: Seq<Field>, n: nat) -> bool {
    &&& columns.len() == fields.len()
    &&& forall|c: int|
        0 <= c < columns.len() ==> column_suits(#[trigger] columns[c], fields[c], n)
}

/// Whether a row suits the definitions of its columns.
pub open spec fn row_suits(row: Seq<Datum>, fields: Seq<Field>) -> bool {
    &&& row.len() == fields.len()
    &&& forall|c: int|
        0 <= c < row.len() ==> suits(#[trigger] row[c], fields[c].data_type) && (row[c] is Null
            ==> fields[c].nullable)
}

/// An error of columnar storage.
#[derive(Debug, PartialEq, Eq)]
pub enum StorageError {
    ColumnCount { expected: usize, actual: usize },
    ColumnType { column: String, expected: DataType, actual: DataType },
    RowCount { column: String, expected: usize, actual: usize },
    UnexpectedNull { column: String, row: usize },
    TooManyRows,
}

/// The mathematical content of a storage error.
pub enum StorageFault {
    ColumnCount { expected: nat, actual: nat },
    ColumnType { column: Seq<char>, expected: DataType, actual: DataType },
    RowCount { column: Seq<char>, expected: nat, actual: nat },
    UnexpectedNull { column: Seq<char>, row: int },
    TooManyRows,
}

impl View for StorageError {
    type V = StorageFault;

    open spec fn view(&self) -> StorageFault {
        match *self {
            StorageError::ColumnCount { expected, actual } => StorageFault::ColumnCount {
                expected: expected as nat,
                actual: actual as nat,
            },
            StorageError::ColumnType { column, expected, actual } => StorageFault::ColumnType {
                column: column@,
                expected,
                actual,
            },
            StorageError::RowCount { column, expected, actual } => StorageFault::RowCount {
                column: column@,
                expected: expected as nat,
                actual: actual as nat,
            },
            StorageError::UnexpectedNull { column, row } => StorageFault::UnexpectedNull {
                column: column@,
                row: row as int,
            },
            StorageError::TooManyRows => StorageFault::TooManyRows,
        }
    }
}

/// The text of a storage error.
pub open spec fn storage_text(fault: StorageFault) -> Seq<char> {
    match fault {
        StorageFault::ColumnCount { expected, actual } => "batch has "@ + int_text(actual as int)
            + " columns, expected "@ + int_text(expected as int),
        StorageFault::ColumnType { column, expected, actual } => "column '"@ + column + "' has type "@
            + actual.text() + ", expected "@ + expected.text(),
        StorageFault::RowCount { column, expected, actual } => "column '"@ + column + "' has "@
            + int_text(actual as int) + " rows, expected "@ + int_text(expected as int),
        StorageFault::UnexpectedNull { column, row } => "column '"@ + column
            + "' cannot hold NULL at row "@ + int_text(row),
        StorageFault::TooManyRows => "table cannot hold more rows"@,
    }
}

impl StorageError {
    /// The text of the error.
    pub fn message(&self) -> (s: String)
        ensures
            s@ == storage_text(self@),
    {
        match self {
            StorageError::ColumnCount { expected, actual } => concat4(
                "batch has ",
                usize_text(*actual).as_str(),
                " columns, expected ",
                usize_text(*expected).as_str(),
            ),
            StorageError::ColumnType { column, expected, actual } => concat2(
                concat5("column '", column.as_str(), "' has type ", actual.name(), ", expected ").as_str(),
                expected.name(),
            ),
            StorageError::RowCount { column, expected, actual } => concat2(
                concat5(
                    "column '",
                    column.as_str(),
                    "' has ",
                    usize_text(*actual).as_str(),
                    " rows, expected ",
                ).as_str(),
                usize_text(*expected).as_str(),
            ),
            StorageError::UnexpectedNull { column, row } => concat4(
                "column '",
                column.as_str(),
                "' cannot hold NULL at row ",
                usize_text(*row).as_str(),
            ),
            StorageError::TooManyRows => "table cannot hold more rows".to_owned(),
        }
    }
}

/// The content of a storage result.
pub open spec fn stored<T>(r: Result<T, StorageError>) -> Result<T, StorageFault> {
    match r {
        Ok(v) => Ok(v),
        Err(e) => Err(e@),
    }
}

/// The first NULL of a column from row `row` on.
pub open spec fn null_from(column: Column, row: int) -> Option<int>
    decreases column.height() - row,
{
    if !(0 <= row < column.height()) {
        None
    } else if column.cell(row) is Null {
        Some(row)
    } else {
        null_from(column, row + 1)
    }
}

/// What is wrong with the columns from position `c` on.
pub open spec fn columns_fault(columns: Seq<Column>, fields: Seq<Field>, n: nat, c: int) -> Option<
    StorageFault,
>
    decreases columns.len() - c,
{
    if !(0 <= c < columns.len()) {
        None
    } else if columns[c].kind() != fields[c].data_type {
        Some(
            StorageFault::ColumnType {
                column: fields[c].name@,
                expected: fields[c].data_type,
                actual: columns[c].kind(),
            },
        )
    } else if columns[c].height() != n {
        Some(
            StorageFault::RowCount {
                column: fields[c].name@,
                expected: n,
                actual: columns[c].height(),
            },
        )
    } else if !fields[c].nullable && null_from(columns[c], 0) is Some {
        Some(
            StorageFault::UnexpectedNull {
                column: fields[c].name@,
                row: null_from(columns[c], 0)->Some_0,
            },
        )
    } else {
        columns_fault(columns, fields, n, c + 1)
    }
}

/// The number of rows of columns: that of the first.
pub open spec fn batch_height(columns: Seq<Column>) -> nat {
    if columns.len() == 0 {
        0
    } else {
        columns[0].height()
    }
}

/// Whether columns make a batch for a schema, or what is wrong with them.
pub open spec fn batch_check(columns: Seq<Column>, fields: Seq<Field>) -> Result<(), StorageFault> {
    if columns.len() != fields.len() {
        Err(StorageFault::ColumnCount { expected: fields.len(), actual: columns.len() })
    } else {
        match columns_fault(columns, fields, batch_height(columns), 0) {
            Some(fault) => Err(fault),
            None => Ok(()),
        }
    }
}

proof fn no_null_below(column: Column, row: int)
    requires
        0 <= row <= column.height(),
        null_from(column, row) is None,
    ensures
        forall|r: int| row <= r < column.height() ==> !((#[trigger] column.cell(r)) is Null),
    decreases column.height() - row,
{
    if row < column.height() {
        no_null_below(column, row + 1);
        assert forall|r: int| row <= r < column.height() implies !((#[trigger] column.cell(r)) is Null) by {
            if r > row {
                assert(row + 1 <= r);
            }
        }
    }
}

proof fn null_is_found(column: Column, row: int, at: int)
    requires
        0 <= row <= at < column.height(),
        column.cell(at) is Null,
    ensures
        null_from(column, row) is Some,
    decreases column.height() - row,
{
    if !(column.cell(row) is Null) {
        null_is_found(column, row + 1, at);
    }
}

proof fn faultless_columns_suit(columns: Seq<Column>, fields: Seq<Field>, n: nat, c: int)
    requires
        0 <= c <= columns.len(),
        columns.len() == fields.len(),
    ensures
        columns_fault(columns, fields, n, c) is None <==> forall|k: int|
            c <= k < columns.len() ==> column_suits(#[trigger] columns[k], fields[k], n),
    decreases columns.len() - c,
{
    if c < columns.len() {
        faultless_columns_suit(columns, fields, n, c + 1);
        if null_from(columns[c], 0) is None {
            no_null_below(columns[c], 0);
        } else {
            null_is_at(columns[c], 0);
        }
        if columns_fault(columns, fields, n, c) is None {
            assert forall|k: int| c <= k < columns.len() implies column_suits(
                #[trigger] columns[k],
                fields[k],
                n,
            ) by {
                if k > c {
                    assert(c + 1 <= k);
                }
            }
        } else if columns_fault(columns, fields, n, c + 1) is None {
            assert(!column_suits(columns[c], fields[c], n));
        }
    }
}

proof fn null_is_at(column: Column, row: int)
    requires
        0 <= row <= column.height(),
        null_from(column, row) is Some,
    ensures
        row <= null_from(column, row)->Some_0 < column.height(),
        column.cell(null_from(column, row)->Some_0) is Null,
    decreases column.height() - row,
{
    if row < column.height() && !(column.cell(row) is Null) {
        null_is_at(column, row + 1);
    }
}

/// Columns that suit their definitions have no fault.
pub proof fn suiting_columns_pass(columns: Seq<Column>, fields: Seq<Field>, n: nat)
    requires
        shaped(columns, fields, n),
    ensures
        columns_fault(columns, fields, n, 0) is None,
{
    faultless_columns_suit(columns, fields, n, 0);
}

/// A check passes exactly for columns that suit their definitions.
pub proof fn checked_columns_suit(columns: Seq<Column>, fields: Seq<Field>)
    ensures
        batch_check(columns, fields) is Ok <==> shaped(columns, fields, batch_height(columns)),
{
    if columns.len() == fields.len() {
        faultless_columns_suit(columns, fields, batch_height(columns), 0);
    }
}

fn first_null(column: &Column) -> (r: Option<usize>)
    ensures
        match r {
            Some(row) => null_from(*column, 0) == Some(row as int),
            None => null_from(*column, 0) is None,
        },
{
    let mut row: usize = 0;
    while row < column.len()
        invariant
            row <= column.height(),
            null_from(*column, 0) == null_from(*column, row as int),
        decreases column.height() - row,
    {
        if column.value(row).is_null() {
            return Some(row);
        }
        row = row + 1;
    }
    None
}

/// Rows held by columns.
#[derive(Debug, PartialEq, Eq)]
pub struct ColumnBatch {
    columns: Vec<Column>,
    rows: usize,
}

impl ColumnBatch {
    /// The columns.
    pub closed spec fn parts(&self) -> Seq<Column> {
        self.columns@
    }

    /// The number of rows.
    pub closed spec fn height(&self) -> nat {
        self.rows as nat
    }

    /// Whether every column has one cell for each row.
    pub open spec fn wf(&self) -> bool {
        forall|c: int|
            0 <= c < self.parts().len() ==> (#[trigger] self.parts()[c]).height() == self.height()
    }

    /// The rows of the batch.
    pub open spec fn content(&self) -> Seq<Seq<Datum>> {
        rows_of(self.parts(), self.height())
    }

    /// Checks columns against a schema.
    pub fn validate(schema: &Schema, columns: &Vec<Column>) -> (r: Result<(), StorageError>)
        ensures
            stored(r) == batch_check(columns@, schema.fields@),
    {
        if columns.len() != schema.len() {
            return Err(
                StorageError::ColumnCount { expected: schema.len(), actual: columns.len() },
            );
        }
        let rows = if columns.len() == 0 { 0 } else { columns[0].len() };
        let mut c: usize = 0;
        while c < columns.len()
            invariant
                c <= columns.len() == schema.fields@.len(),
                rows == batch_height(columns@),
                columns_fault(columns@, schema.fields@, rows as nat, 0) == columns_fault(
                    columns@,
                    schema.fields@,
                    rows as nat,
                    c as int,
                ),
            decreases columns.len() - c,
        {
            let field = &schema.fields[c];
            if columns[c].data_type() != field.data_type {
                return Err(
                    StorageError::ColumnType {
                        column: field.name.clone(),
                        expected: field.data_type,
                        actual: columns[c].data_type(),
                    },
                );
            }
            if columns[c].len() != rows {
                return Err(
                    StorageError::RowCount {
                        column: field.name.clone(),
                        expected: rows,
                        actual: columns[c].len(),
                    },
                );
            }
            if !field.nullable {
                if let Some(row) = first_null(&columns[c]) {
                    return Err(StorageError::UnexpectedNull { column: field.name.clone(), row });
                }
            }
            c = c + 1;
        }
        Ok(())
    }

    /// Makes a batch of columns that suit a schema.
    pub fn new(schema: &Schema, columns: Vec<Column>) -> (r: Result<ColumnBatch, StorageError>)
        ensures
            match r {
                Ok(batch) => {
                    &&& batch_check(columns@, schema.fields@) is Ok
                    &&& batch.wf()
                    &&& batch.parts() == columns@
                    &&& batch.height() == batch_height(columns@)
                },
                Err(e) => batch_check(columns@, schema.fields@) == Err::<(), StorageFault>(e@),
            },
    {
        match ColumnBatch::validate(schema, &columns) {
            Err(e) => Err(e),
            Ok(()) => {
                proof {
                    checked_columns_suit(columns@, schema.fields@);
                }
                let rows = if columns.len() == 0 { 0 } else { columns[0].len() };
                Ok(ColumnBatch { columns, rows })
            },
        }
    }

    /// Makes a batch of columns that are known to have `rows` cells each.
    pub(crate) fn of(columns: Vec<Column>, rows: usize) -> (batch: ColumnBatch)
        requires
            forall|c: int| 0 <= c < columns@.len() ==> (#[trigger] columns@[c]).height() == rows,
        ensures
            batch.wf(),
            batch.parts() == columns@,
            batch.height() == rows,
    {
        ColumnBatch { columns, rows }
    }

    /// The columns of the batch.
    pub fn columns(&self) -> (columns: &Vec<Column>)
        ensures
            columns@ == self.parts(),
    {
        &self.columns
    }

    /// The number of rows.
    pub fn rows(&self) -> (n: usize)
        ensures
            n == self.height(),
    {
        self.rows
    }
}

/// Makes the columns of a schema without cells.
pub fn empty_columns(schema: &Schema) -> (columns: Vec<Column>)
    ensures
        columns@.len() == schema.fields@.len(),
        forall|c: int|
            0 <= c < columns@.len() ==> (#[trigger] columns@[c]).kind()
                == schema.fields@[c].data_type && columns@[c].height() == 0,
        shaped(columns@, schema.fields@, 0),
{
    let mut columns: Vec<Column> = Vec::new();
    let mut c: usize = 0;
    while c < schema.fields.len()
        invariant
            c <= schema.fields.len(),
            columns@.len() == c,
            forall|k: int|
                0 <= k < c ==> (#[trigger] columns@[k]).kind() == schema.fields@[k].data_type
                    && columns@[k].height() == 0,
        decreases schema.fields.len() - c,
    {
        let column = Column::empty(schema.fields[c].data_type);
        assert(column.cells().len() == 0);
        columns.push(column);
        c = c + 1;
    }
    columns
}

/// Appends one row to columns.
pub(crate) fn push_row(
    columns: &mut Vec<Column>,
    row: Vec<Value>,
    Ghost(fields): Ghost<Seq<Field>>,
    Ghost(n): Ghost<nat>,
)
    requires
        shaped(old(columns)@, fields, n),
        row_suits(data_of(row@), fields),
    ensures
        shaped(final(columns)@, fields, n + 1),
        rows_of(final(columns)@, n + 1) == rows_of(old(columns)@, n).push(data_of(row@)),
{
    let ghost before = columns@;
    let ghost all = row@;
    let ghost data = data_of(row@);
    let mut c: usize = 0;
    let width = columns.len();
    for value in it: row
        invariant
            it.seq() == all,
            columns@.len() == width,
            c == it.index(),
            data == data_of(all),
            columns@.len() == before.len() == all.len(),
            shaped(before, fields, n),
            row_suits(data, fields),
            forall|k: int|
                0 <= k < c ==> (#[trigger] columns@[k]).kind() == fields[k].data_type
                    && columns@[k].height() == n + 1 && columns@[k].cells()
                    == before[k].cells().push(data[k]),
            forall|k: int| c <= k < before.len() ==> #[trigger] columns@[k] == before[k],
    {
        assert(value@ == data[c as int]);
        assert(column_suits(before[c as int], fields[c as int], n));
        columns[c].push(value);
        c = c + 1;
    }
    let ghost after = columns@;
    proof {
        assert forall|k: int| 0 <= k < after.len() implies column_suits(
            #[trigger] after[k],
            fields[k],
            n + 1,
        ) by {
            assert(column_suits(before[k], fields[k], n));
            if !fields[k].nullable {
                assert forall|r: int| 0 <= r < n + 1 implies !((#[trigger] after[k].cell(r)) is Null) by {
                    assert(after[k].cells()[r] == after[k].cell(r));
                    if r < n {
                        assert(before[k].cells()[r] == before[k].cell(r));
                    } else {
                        assert(after[k].cells()[r] == data[k]);
                    }
                }
            }
        }
        assert forall|r: int| 0 <= r < n + 1 implies row_at(after, r) == (if r < n {
            row_at(before, r)
        } else {
            data
        }) by {
            assert forall|k: int| 0 <= k < after.len() implies after[k].cell(r) == (if r < n {
                before[k].cell(r)
            } else {
                data[k]
            }) by {
                assert(column_suits(before[k], fields[k], n));
                assert(after[k].cells()[r] == after[k].cell(r));
                if r < n {
                    assert(before[k].cells()[r] == before[k].cell(r));
                }
            }
            assert(row_at(after, r) =~= (if r < n { row_at(before, r) } else { data }));
        }
        assert(rows_of(after, n + 1) =~= rows_of(before, n).push(data));
    }
}

/// A table of nullable columns.
#[derive(Debug)]
pub struct Table {
    schema: Schema,
    columns: Vec<Column>,
    rows: usize,
}

proof fn rows_survive(before: Seq<Column>, after: Seq<Column>, n: nat)
    requires
        before.len() == after.len(),
        forall|c: int, r: int|
            #![trigger after[c].cell(r)]
            0 <= c < after.len() && 0 <= r < n ==> after[c].cell(r) == before[c].cell(r),
    ensures
        rows_of(after, n) == rows_of(before, n),
{
    assert forall|r: int| 0 <= r < n implies row_at(after, r) == row_at(before, r) by {
        assert(row_at(after, r) =~= row_at(before, r));
    }
    assert(rows_of(after, n) =~= rows_of(before, n));
}

impl Table {
    /// The definitions of the columns.
    pub closed spec fn fields(&self) -> Seq<Field> {
        self.schema.fields@
    }

    /// The columns.
    pub closed spec fn parts(&self) -> Seq<Column> {
        self.columns@
    }

    /// The number of rows.
    pub closed spec fn height(&self) -> nat {
        self.rows as nat
    }

    /// Whether the columns suit their definitions.
    pub open spec fn wf(&self) -> bool {
        shaped(self.parts(), self.fields(), self.height())
    }

    /// The rows of the table.
    pub open spec fn content(&self) -> Seq<Seq<Datum>> {
        rows_of(self.parts(), self.height())
    }

    /// Makes a table without rows.
    pub fn new(schema: Schema) -> (table: Table)
        ensures
            table.wf(),
            table.fields() == schema.fields@,
            table.content() == Seq::<Seq<Datum>>::empty(),
    {
        let columns = empty_columns(&schema);
        let table = Table { schema, columns, rows: 0 };
        assert(table.content() =~= Seq::<Seq<Datum>>::empty());
        table
    }

    /// The definitions of the columns.
    pub fn schema(&self) -> (schema: &Schema)
        ensures
            schema.fields@ == self.fields(),
    {
        &self.schema
    }

    /// The columns.
    pub fn columns(&self) -> (columns: &Vec<Column>)
        ensures
            columns@ == self.parts(),
    {
        &self.columns
    }

    /// The number of rows.
    pub fn rows(&self) -> (n: usize)
        ensures
            n == self.height(),
    {
        self.rows
    }

    /// Appends the rows of a batch, if its columns suit the table; otherwise the table keeps
    /// its rows.
    pub fn append_batch(&mut self, batch: &ColumnBatch) -> (r: Result<(), StorageError>)
        requires
            old(self).wf(),
            batch.wf(),
        ensures
            final(self).wf(),
            final(self).fields() == old(self).fields(),
            match batch_check(batch.parts(), old(self).fields()) {
                Err(fault) => {
                    &&& stored(r) == Err::<(), StorageFault>(fault)
                    &&& final(self).content() == old(self).content()
                },
                Ok(()) => if old(self).height() + batch.height() > usize::MAX {
                    &&& stored(r) == Err::<(), StorageFault>(StorageFault::TooManyRows)
                    &&& final(self).content() == old(self).content()
                } else {
                    &&& r is Ok
                    &&& final(self).content() == old(self).content() + batch.content()
                },
            },
    {
        match ColumnBatch::validate(&self.schema, &batch.columns) {
            Err(e) => return Err(e),
            Ok(()) => {},
        }
        proof {
            checked_columns_suit(batch.parts(), self.fields());
        }
        let total = match self.rows.checked_add(batch.rows) {
            None => return Err(StorageError::TooManyRows),
            Some(total) => total,
        };
        let ghost before = self.columns@;
        let ghost fields = self.schema.fields@;
        let ghost n = self.rows as nat;
        let ghost m = batch.rows as nat;
        let ghost added = batch.columns@;
        let width = self.columns.len();
        let mut c: usize = 0;
        while c < width
            invariant
                c <= width == self.columns@.len() == before.len() == fields.len() == added.len(),
                batch.wf(),
                added == batch.columns@,
                m == batch.rows,
                self.schema.fields@ == fields,
                self.rows == n,
                shaped(before, fields, n),
                added.len() > 0 ==> shaped(added, fields, m),
                forall|k: int|
                    0 <= k < c ==> (#[trigger] self.columns@[k]).kind() == fields[k].data_type
                        && self.columns@[k].height() == n + m && self.columns@[k].cells()
                        == before[k].cells() + added[k].cells(),
                forall|k: int| c <= k < before.len() ==> #[trigger] self.columns@[k] == before[k],
            decreases width - c,
        {
            let source = &batch.columns[c];
            assert(column_suits(before[c as int], fields[c as int], n));
            assert(column_suits(added[c as int], fields[c as int], m));
            let mut row: usize = 0;
            assert(self.columns@[c as int].cells() =~= before[c as int].cells()
                + added[c as int].cells().take(0));
            while row < batch.rows
                invariant
                    row <= batch.rows == m,
                    c < width == self.columns@.len() == before.len() == fields.len() == added.len(),
                    *source == added[c as int],
                    source.height() == m,
                    source.kind() == fields[c as int].data_type,
                    self.schema.fields@ == fields,
                    self.rows == n,
                    self.columns@[c as int].kind() == fields[c as int].data_type,
                    self.columns@[c as int].height() == n + row,
                    self.columns@[c as int].cells() == before[c as int].cells()
                        + added[c as int].cells().take(row as int),
                    forall|k: int|
                        0 <= k < c ==> (#[trigger] self.columns@[k]).kind() == fields[k].data_type
                            && self.columns@[k].height() == n + m && self.columns@[k].cells()
                            == before[k].cells() + added[k].cells(),
                    forall|k: int|
                        c < k < before.len() ==> #[trigger] self.columns@[k] == before[k],
                decreases batch.rows - row,
            {
                let value = source.value(row);
                assert(added[c as int].cells()[row as int] == value@);
                self.columns[c].push(value);
                assert(self.columns@[c as int].cells() =~= before[c as int].cells()
                    + added[c as int].cells().take(row + 1));
                row = row + 1;
            }
            assert(added[c as int].cells().take(row as int) =~= added[c as int].cells());
            c = c + 1;
        }
        self.rows = total;
        proof {
            let after = self.columns@;
            assert forall|k: int| 0 <= k < after.len() implies column_suits(
                #[trigger] after[k],
                fields[k],
                n + m,
            ) by {
                assert(column_suits(before[k], fields[k], n));
                assert(column_suits(added[k], fields[k], m));
                assert forall|r: int| 0 <= r < n + m implies #[trigger] after[k].cell(r) == (if r < n {
                    before[k].cell(r)
                } else {
                    added[k].cell(r - n)
                }) by {
                    assert(after[k].cells()[r] == after[k].cell(r));
                }
            }
            assert forall|r: int| 0 <= r < n + m implies row_at(after, r) == (if r < n {
                row_at(before, r)
            } else {
                row_at(added, r - n)
            }) by {
                assert forall|k: int| 0 <= k < after.len() implies after[k].cell(r) == (if r < n {
                    before[k].cell(r)
                } else {
                    added[k].cell(r - n)
                }) by {
                    assert(column_suits(before[k], fields[k], n));
                    assert(column_suits(added[k], fields[k], m));
                    assert(after[k].cells()[r] == after[k].cell(r));
                }
                assert(row_at(after, r) =~= (if r < n {
                    row_at(before, r)
                } else {
                    row_at(added, r - n)
                }));
            }
            assert(rows_of(after, n + m) =~= rows_of(before, n) + rows_of(added, m));
        }
        Ok(())
    }

    /// Keeps the first rows only.
    pub fn truncate(&mut self, rows: usize)
        requires
            old(self).wf(),
        ensures
            final(self).wf(),
            final(self).fields() == old(self).fields(),
            rows <= old(self).height() ==> final(self).height() == rows && final(self).content()
                == old(self).content().take(rows as int),
            rows > old(self).height() ==> final(self).content() == old(self).content(),
    {
        if rows > self.rows {
            return ;
        }
        let ghost before = self.columns@;
        let ghost fields = self.schema.fields@;
        let ghost n = self.rows as nat;
        let width = self.columns.len();
        let mut c: usize = 0;
        while c < width
            invariant
                c <= width == self.columns@.len() == before.len() == fields.len(),
                rows <= n,
                self.schema.fields@ == fields,
                shaped(before, fields, n),
                forall|k: int|
                    0 <= k < c ==> (#[trigger] self.columns@[k]).kind() == fields[k].data_type
                        && self.columns@[k].height() == rows && self.columns@[k].cells()
                        == before[k].cells().take(rows as int),
                forall|k: int| c <= k < before.len() ==> #[trigger] self.columns@[k] == before[k],
            decreases width - c,
        {
            assert(column_suits(before[c as int], fields[c as int], n));
            self.columns[c].truncate(rows);
            c = c + 1;
        }
        self.rows = rows;
        proof {
            let after = self.columns@;
            assert forall|k: int, r: int|
                #![trigger after[k].cell(r)]
                0 <= k < after.len() && 0 <= r < rows implies after[k].cell(r) == before[k].cell(r) by {
                assert(column_suits(before[k], fields[k], n));
                assert(after[k].cells()[r] == after[k].cell(r));
            }
            assert forall|k: int| 0 <= k < after.len() implies column_suits(
                #[trigger] after[k],
                fields[k],
                rows as nat,
            ) by {
                assert(column_suits(before[k], fields[k], n));
            }
            rows_survive(before, after, rows as nat);
            assert(rows_of(before, n).take(rows as int) =~= rows_of(before, rows as nat));
        }
    }
}

} // verus!
