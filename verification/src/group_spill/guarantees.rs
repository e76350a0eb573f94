//! What holds of every split into partitions.

use vstd::prelude::*;
use vstd::bytes::{lemma_auto_spec_u64_to_from_le_bytes, spec_u64_to_le_bytes};
use crate::group_spill::{bucket_of, encoded, given_back, keys_of, partitioned, placed, placed_from, reached_from, repartitioned, row_at, rows_read, unsplit, Output, SpillError, Split, MAX_PARTITION_DEPTH, PARTITION_FANOUT};
use crate::types::Datum;

verus! {

proof fn encoded_row(rows: Seq<usize>, i: int)
    requires
        0 <= i < rows.len(),
    ensures
        encoded(rows).len() == 8 * rows.len(),
        encoded(rows).subrange(8 * i, 8 * i + 8) == spec_u64_to_le_bytes(rows[i] as u64),
    decreases rows.len(),
{
    lemma_auto_spec_u64_to_from_le_bytes();
    let before = rows.drop_last();
    let tail = spec_u64_to_le_bytes(rows.last() as u64);
    if before.len() > 0 {
        encoded_row(before, if i < before.len() { i } else { 0 });
    }
    assert(encoded(before).len() == 8 * before.len());
    if i < before.len() {
        assert(encoded(rows).subrange(8 * i, 8 * i + 8) =~= encoded(before).subrange(
            8 * i,
            8 * i + 8,
        ));
    } else {
        assert(encoded(rows).subrange(8 * i, 8 * i + 8) =~= tail);
    }
}

proof fn encoded_rest(rows: Seq<usize>, i: int)
    requires
        0 <= i <= rows.len(),
    ensures
        encoded(rows).len() == 8 * rows.len(),
        rows_read(encoded(rows), 8 * i) == (rows.skip(i), None::<SpillError>),
    decreases rows.len() - i,
{
    lemma_auto_spec_u64_to_from_le_bytes();
    if rows.len() > 0 {
        encoded_row(rows, if i < rows.len() { i } else { 0 });
    }
    if i < rows.len() {
        encoded_rest(rows, i + 1);
        assert(8 * (i + 1) == 8 * i + 8);
        assert(row_at(encoded(rows), 8 * i) == Ok::<usize, SpillError>(rows[i]));
        assert(seq![rows[i]] + rows.skip(i + 1) =~= rows.skip(i));
    } else {
        assert(rows.skip(i) =~= Seq::<usize>::empty());
    }
}

/// The rows of a partition are read back from its file.
pub proof fn encoding_reads_back(rows: Seq<usize>)
    ensures
        encoded(rows).len() == 8 * rows.len(),
        rows_read(encoded(rows), 0) == (rows, None::<SpillError>),
{
    encoded_rest(rows, 0);
    assert(rows.skip(0) =~= rows);
}

/// The rows of an output.
pub open spec fn rows_in(outputs: Seq<Option<Output>>, bucket: int) -> Seq<usize> {
    match outputs[bucket] {
        Some(output) => output.rows,
        None => Seq::empty(),
    }
}

/// The rows of a list from a position on that belong to a partition.
pub open spec fn rows_for(
    depth: usize,
    table: Seq<Seq<Datum>>,
    columns: Seq<usize>,
    rows: Seq<usize>,
    bucket: int,
    i: int,
) -> Seq<usize>
    decreases rows.len() - i,
{
    if !(0 <= i < rows.len()) {
        Seq::empty()
    } else {
        let rest = rows_for(depth, table, columns, rows, bucket, i + 1);
        if bucket_of(keys_of(table, columns, rows[i] as int), depth) == bucket {
            seq![rows[i]] + rest
        } else {
            rest
        }
    }
}

proof fn buckets_are_few(keys: Seq<Datum>, depth: usize)
    ensures
        0 <= bucket_of(keys, depth) < PARTITION_FANOUT,
{
}

proof fn placing_keeps_rows(
    split: Split,
    limit: u64,
    depth: usize,
    table: Seq<Seq<Datum>>,
    columns: Seq<usize>,
    rows: Seq<usize>,
    i: int,
    bucket: int,
)
    requires
        0 <= i <= rows.len(),
        0 <= bucket < PARTITION_FANOUT,
        split.outputs.len() == PARTITION_FANOUT,
        split.used <= limit,
    ensures
        placed_from(split, limit, depth, table, columns, rows, i) matches Ok(last) ==> {
            &&& last.outputs.len() == PARTITION_FANOUT
            &&& rows_in(last.outputs, bucket) == rows_in(split.outputs, bucket) + rows_for(
                depth,
                table,
                columns,
                rows,
                bucket,
                i,
            )
            &&& last.used == split.used + 8 * (rows.len() - i)
            &&& last.used <= limit
        },
    decreases rows.len() - i,
{
    if i < rows.len() {
        let own = bucket_of(keys_of(table, columns, rows[i] as int), depth);
        buckets_are_few(keys_of(table, columns, rows[i] as int), depth);
        match placed(split, limit, depth, own, rows[i]) {
            Err(_) => {},
            Ok(next) => {
                placing_keeps_rows(next, limit, depth, table, columns, rows, i + 1, bucket);
                let rest = rows_for(depth, table, columns, rows, bucket, i + 1);
                let before = rows_in(split.outputs, bucket);
                if own == bucket {
                    assert(rows_in(next.outputs, bucket) =~= before.push(rows[i]));
                    assert(before.push(rows[i]) + rest =~= before + (seq![rows[i]] + rest));
                } else {
                    assert(rows_in(next.outputs, bucket) == before);
                }
            },
        }
    } else {
        assert(rows_in(split.outputs, bucket) + rows_for(depth, table, columns, rows, bucket, i)
            =~= rows_in(split.outputs, bucket));
    }
}

/// Every row is kept in the partition of its keys and in no other, in the order of the rows,
/// and takes its bytes of the limit.
pub proof fn partitions_hold_their_rows(
    used: u64,
    files: u64,
    limit: u64,
    depth: usize,
    table: Seq<Seq<Datum>>,
    columns: Seq<usize>,
    rows: Seq<usize>,
    bucket: int,
)
    requires
        used <= limit,
        0 <= bucket < PARTITION_FANOUT,
    ensures
        partitioned(used, files, limit, depth, table, columns, rows) matches Ok(split) ==> {
            &&& rows_in(split.outputs, bucket) == rows_for(depth, table, columns, rows, bucket, 0)
            &&& split.used == used + 8 * rows.len()
            &&& split.used <= limit
        },
{
    placing_keeps_rows(unsplit(used, files), limit, depth, table, columns, rows, 0, bucket);
    let all = rows_for(depth, table, columns, rows, bucket, 0);
    assert(Seq::<usize>::empty() + all =~= all);
}

proof fn own_rows_are_chosen(
    depth: usize,
    table: Seq<Seq<Datum>>,
    columns: Seq<usize>,
    rows: Seq<usize>,
    i: int,
    j: int,
)
    requires
        0 <= i <= j < rows.len(),
    ensures
        rows_for(
            depth,
            table,
            columns,
            rows,
            bucket_of(keys_of(table, columns, rows[j] as int), depth),
            i,
        ).contains(rows[j]),
    decreases j - i,
{
    let bucket = bucket_of(keys_of(table, columns, rows[j] as int), depth);
    let rest = rows_for(depth, table, columns, rows, bucket, i + 1);
    let all = rows_for(depth, table, columns, rows, bucket, i);
    if i == j {
        assert(all[0] == rows[j]);
    } else {
        own_rows_are_chosen(depth, table, columns, rows, i + 1, j);
        let k = choose|k: int| 0 <= k < rest.len() && rest[k] == rows[j];
        if bucket_of(keys_of(table, columns, rows[i] as int), depth) == bucket {
            assert(all[k + 1] == rows[j]);
        } else {
            assert(all[k] == rows[j]);
        }
    }
}

/// Rows with the same keys come into the same partition, so that a group is never divided.
pub proof fn equal_keys_stay_together(
    used: u64,
    files: u64,
    limit: u64,
    depth: usize,
    table: Seq<Seq<Datum>>,
    columns: Seq<usize>,
    rows: Seq<usize>,
    i: int,
    j: int,
)
    requires
        used <= limit,
        0 <= i < rows.len(),
        0 <= j < rows.len(),
        keys_of(table, columns, rows[i] as int) == keys_of(table, columns, rows[j] as int),
    ensures
        partitioned(used, files, limit, depth, table, columns, rows) matches Ok(split) ==> ({
            let bucket = bucket_of(keys_of(table, columns, rows[i] as int), depth);
            rows_in(split.outputs, bucket).contains(rows[i]) && rows_in(
                split.outputs,
                bucket,
            ).contains(rows[j])
        }),
{
    let bucket = bucket_of(keys_of(table, columns, rows[i] as int), depth);
    buckets_are_few(keys_of(table, columns, rows[i] as int), depth);
    partitions_hold_their_rows(used, files, limit, depth, table, columns, rows, bucket);
    own_rows_are_chosen(depth, table, columns, rows, 0, i);
    own_rows_are_chosen(depth, table, columns, rows, 0, j);
}

/// Splitting a partition again neither loses rows nor takes more bytes in the end.
pub proof fn repartitioning_keeps_rows_and_bytes(
    used: u64,
    files: u64,
    limit: u64,
    depth: usize,
    table: Seq<Seq<Datum>>,
    columns: Seq<usize>,
    rows: Seq<usize>,
    bytes: u64,
    bucket: int,
)
    requires
        used <= limit,
        bytes == encoded(rows).len(),
        0 <= bucket < PARTITION_FANOUT,
    ensures
        repartitioned(used, files, limit, depth, encoded(rows), table, columns) matches Ok(split)
            ==> {
            &&& depth < MAX_PARTITION_DEPTH
            &&& rows_in(split.outputs, bucket) == rows_for(
                (depth + 1) as usize,
                table,
                columns,
                rows,
                bucket,
                0,
            )
            &&& given_back(split.used, bytes) == used
        },
{
    encoding_reads_back(rows);
    if depth < MAX_PARTITION_DEPTH {
        partitions_hold_their_rows(
            used,
            files,
            limit,
            (depth + 1) as usize,
            table,
            columns,
            rows,
            bucket,
        );
    }
}

/// The number of rows from a position on that are placed before one is refused.
pub open spec fn placed_rows(
    split: Split,
    limit: u64,
    depth: usize,
    table: Seq<Seq<Datum>>,
    columns: Seq<usize>,
    rows: Seq<usize>,
    i: int,
) -> nat
    decreases rows.len() - i,
{
    if !(0 <= i < rows.len()) {
        0
    } else {
        let bucket = bucket_of(keys_of(table, columns, rows[i] as int), depth);
        match placed(split, limit, depth, bucket, rows[i]) {
            Err(_) => 0,
            Ok(next) => 1 + placed_rows(next, limit, depth, table, columns, rows, i + 1),
        }
    }
}

/// However a split ends, the rows that were placed hold their bytes and no others do, and the
/// limit holds.
pub proof fn placed_rows_keep_their_bytes(
    split: Split,
    limit: u64,
    depth: usize,
    table: Seq<Seq<Datum>>,
    columns: Seq<usize>,
    rows: Seq<usize>,
    i: int,
)
    requires
        split.used <= limit,
    ensures
        ({
            let end = reached_from(split, limit, depth, table, columns, rows, i);
            &&& end.used == split.used + 8 * placed_rows(split, limit, depth, table, columns, rows, i)
            &&& end.used <= limit
            &&& placed_from(split, limit, depth, table, columns, rows, i) matches Ok(last) ==> end
                == last
        }),
    decreases rows.len() - i,
{
    if 0 <= i < rows.len() {
        let bucket = bucket_of(keys_of(table, columns, rows[i] as int), depth);
        match placed(split, limit, depth, bucket, rows[i]) {
            Err(_) => {},
            Ok(next) => {
                placed_rows_keep_their_bytes(next, limit, depth, table, columns, rows, i + 1);
            },
        }
    }
}

} // verus!
