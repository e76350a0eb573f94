//! Tables of typed rows.

use rusthouse::error::StorageError;
use rusthouse::float::{FloatReply, FloatRequest};
use rusthouse::identifier::{Identifier, QualifiedName};
use rusthouse::insert::{execute_insert, parse_insert, ExecuteInsertError, InsertParseError, RowCatalog, RowField, RowTable};
use rusthouse::types::{DataType, Value};

fn floats(request: FloatRequest) -> FloatReply {
    let bits = |x: f64| FloatReply::Bits(x.to_bits());
    let of = f64::from_bits;
    match request {
        FloatRequest::Sum(a, b) => bits(of(a) + of(b)),
        FloatRequest::Difference(a, b) => bits(of(a) - of(b)),
        FloatRequest::Product(a, b) => bits(of(a) * of(b)),
        FloatRequest::Quotient(a, b) => bits(of(a) / of(b)),
        FloatRequest::Remainder(a, b) => bits(of(a) % of(b)),
        FloatRequest::FromInteger(i) => bits(i as f64),
        FloatRequest::Parse(text) => match text.parse::<f64>() {
            Ok(x) => bits(x),
            Err(_) => FloatReply::Invalid,
        },
        FloatRequest::Display(a) => FloatReply::Text(of(a).to_string()),
    }
}

fn fields() -> Vec<RowField> {
    vec![
        RowField { name: "id".to_owned(), data_type: DataType::Int64 },
        RowField { name: "x".to_owned(), data_type: DataType::Float64 },
    ]
}

#[test]
fn inserted_rows_are_read_back() {
    let mut catalog = RowCatalog::new();
    assert!(catalog.create_table(RowTable::new("t".to_owned(), fields(), 1).unwrap()));
    assert!(!catalog.create_table(RowTable::new("T".to_owned(), fields(), 1).unwrap()));
    execute_insert("INSERT INTO T VALUES (7, 2.5)", &mut catalog, &floats).unwrap();
    let table = catalog.table("t").unwrap();
    assert_eq!(table.len(), 1);
    assert_eq!(
        table.row(0).unwrap(),
        &vec![Value::Int64(7), Value::Float64(2.5f64.to_bits())]
    );
    assert!(matches!(
        execute_insert("INSERT INTO t VALUES (8, 1.0)", &mut catalog, &floats),
        Err(ExecuteInsertError::Insertion(StorageError::RowLimitExceeded { limit: 1, .. }))
    ));
    assert!(matches!(
        execute_insert("INSERT INTO u VALUES (8)", &mut catalog, &floats),
        Err(ExecuteInsertError::UnknownTable { name }) if name == "u"
    ));
    assert!(matches!(
        execute_insert("INSERT t", &mut catalog, &floats),
        Err(ExecuteInsertError::Parse(InsertParseError::Expected { position: 7, .. }))
    ));
}

#[test]
fn numbers_out_of_range_are_refused() {
    assert!(matches!(
        parse_insert("INSERT INTO t VALUES (9223372036854775808)", &floats),
        Err(InsertParseError::InvalidNumber { position: 22 })
    ));
    let insert = parse_insert("INSERT INTO t VALUES (-1, 'a', TRUE)", &floats).unwrap();
    assert_eq!(insert.table_name, "t");
    assert_eq!(
        insert.values,
        vec![Value::Int64(-1), Value::String("a".to_owned()), Value::Bool(true)]
    );
}

#[test]
fn rows_that_do_not_suit_are_refused() {
    let mut table = RowTable::new("t".to_owned(), fields(), 9).unwrap();
    assert!(matches!(
        table.insert_row(vec![Value::Int64(1)]),
        Err(StorageError::RowLength { expected: 2, actual: 1, .. })
    ));
    assert!(matches!(
        table.insert_row(vec![Value::Bool(true), Value::Float64(0)]),
        Err(StorageError::TypeMismatch { .. })
    ));
    assert!(matches!(
        table.insert_row(vec![Value::Int64(1), Value::Float64(f64::NAN.to_bits())]),
        Err(StorageError::NonFiniteFloat { .. })
    ));
    assert_eq!(table.len(), 0);
}

#[test]
fn definitions_are_checked() {
    assert!(matches!(RowTable::new(" ".to_owned(), fields(), 1), Err(StorageError::EmptyTableName)));
    assert!(matches!(
        RowTable::new("t".to_owned(), Vec::new(), 1),
        Err(StorageError::EmptySchema)
    ));
    let mut twice = fields();
    twice.push(RowField { name: "ID".to_owned(), data_type: DataType::Bool });
    assert!(matches!(
        RowTable::new("t".to_owned(), twice, 1),
        Err(StorageError::DuplicateColumn { name }) if name == "ID"
    ));
    let nameless = vec![RowField { name: String::new(), data_type: DataType::Bool }];
    assert!(matches!(
        RowTable::new("t".to_owned(), nameless, 1),
        Err(StorageError::EmptyColumnName { index: 0 })
    ));
}

#[test]
fn identifiers_are_equal_by_what_they_find() {
    let upper = Identifier::unquoted("Name".to_owned());
    assert!(upper == Identifier::unquoted("NAME".to_owned()));
    assert!(upper != Identifier::quoted("Name".to_owned()));
    assert_eq!(upper.lookup_key(), "name");
    let name = QualifiedName(vec![upper, Identifier::quoted("b".to_owned())]);
    assert_eq!(name.display(), "Name.b");
}
