//! Partitions of a grouping.

use rusthouse::engine::{Engine, StatementResult};
use rusthouse::float::{FloatReply, FloatRequest};
use rusthouse::group_spill::{read_row, repartition, rows_stand, write_initial_partitions, Partition, SpillError, TempWorkspace, PARTITION_FANOUT};

fn floats(request: FloatRequest) -> FloatReply {
    match request {
        FloatRequest::FromInteger(i) => FloatReply::Bits((i as f64).to_bits()),
        _ => FloatReply::Invalid,
    }
}

fn engine() -> Engine {
    let mut engine = Engine::default();
    let values: Vec<String> = (0..200).map(|n| format!("({}, 'k{}')", n, n % 40)).collect();
    let sql = format!("CREATE TABLE t (n Int64, k String); INSERT INTO t VALUES {}", values.join(","));
    let results = engine.execute(&sql, &floats).unwrap();
    assert!(matches!(results[1], StatementResult::Command { affected_rows: 200 }));
    engine
}

fn rows_of(content: &Vec<u8>) -> Vec<usize> {
    (0..content.len() / 8).map(|i| read_row(content, 8 * i).unwrap()).collect()
}

#[test]
fn every_row_is_kept_once_with_its_group() {
    let engine = engine();
    let table = engine.table("t").unwrap();
    let mut workspace = TempWorkspace::new(10_000);
    let rows: Vec<usize> = (0..200).collect();
    let parts = write_initial_partitions(&mut workspace, table, &rows, &vec![1]).unwrap();
    assert!(parts.len() > 1 && parts.len() <= PARTITION_FANOUT);
    assert_eq!(workspace.used_bytes(), 1_600);
    let mut seen = vec![0; 200];
    for (partition, content) in &parts {
        assert_eq!(partition.bytes, content.len() as u64);
        assert!(rows_stand(content, 200));
        assert!(!rows_stand(content, 0));
        let kept = rows_of(content);
        for row in &kept {
            seen[*row] += 1;
            assert!((0..200).filter(|other| other % 40 == row % 40).all(|other| kept.contains(&other)));
        }
    }
    assert!(seen.iter().all(|times| *times == 1));
}

#[test]
fn splitting_again_keeps_rows_and_bytes() {
    let engine = engine();
    let table = engine.table("t").unwrap();
    let mut workspace = TempWorkspace::new(10_000);
    let rows: Vec<usize> = (0..200).collect();
    let parts = write_initial_partitions(&mut workspace, table, &rows, &vec![1]).unwrap();
    let (partition, content) = &parts[0];
    let again = repartition(&mut workspace, table, partition, content, &vec![1]).unwrap();
    assert_eq!(workspace.used_bytes(), 1_600);
    let mut kept: Vec<usize> = again.iter().flat_map(|(_, content)| rows_of(content)).collect();
    kept.sort_unstable();
    assert_eq!(kept, rows_of(content));
    assert!(again.iter().all(|(part, _)| part.depth == 1 && part.name.starts_with("partition-1-")));
}

#[test]
fn refusals_have_their_kinds() {
    let engine = engine();
    let table = engine.table("t").unwrap();
    let mut tight = TempWorkspace::new(15);
    let limit = write_initial_partitions(&mut tight, table, &vec![0, 1], &vec![0]).unwrap_err();
    assert_eq!(limit.message(), "temporary storage limit of 15 bytes exceeded");
    // One row was placed, and a file is counted for the row that was refused if it goes elsewhere.
    assert_eq!(tight.used_bytes(), 8);
    assert!(tight.file_count() == 1 || tight.file_count() == 2);
    let files = tight.file_count();
    let deep = Partition { name: "p".to_owned(), bytes: 0, depth: 64 };
    let too_deep = repartition(&mut tight, table, &deep, &Vec::new(), &vec![0]).unwrap_err();
    assert_eq!(
        too_deep.message(),
        "group keys could not be partitioned within the configured memory limit after 64 repartitions"
    );
    assert_eq!((tight.used_bytes(), tight.file_count()), (8, files));
    let cut = Partition { name: "p".to_owned(), bytes: 3, depth: 0 };
    let incomplete = repartition(&mut tight, table, &cut, &vec![1, 0, 0], &vec![0]).unwrap_err();
    assert!(matches!(incomplete, SpillError::IncompleteRow));
    tight.remove_partition(&cut);
    tight.cleanup();
    assert_eq!(tight.used_bytes(), 0);
}
