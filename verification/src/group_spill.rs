//! Rows of a grouping that are set aside in partitions by a hash of their keys.
//!
//! A partition is a file of row indices. One that is still too large is split again with
//! another hash. The bytes of all files together stay within a limit.

pub mod guarantees;

use vstd::prelude::*;
use vstd::bytes::{spec_u64_from_le_bytes, spec_u64_to_le_bytes, u64_from_le_bytes, u64_to_le_bytes};
use vstd::slice::slice_subrange;
use crate::bytes::append_bytes;
use crate::stable_hash::{mix_value, mix_word, mixed_data, mixed_word, scramble, scrambled, FNV_OFFSET};
use crate::storage::Table;
use crate::text::{concat3, concat4, int_text, u64_text, usize_text};
use crate::types::Datum;

verus! {

/// The number of partitions that rows are split into.
pub const PARTITION_FANOUT: usize = 16;

/// How often a partition may be split again.
pub const MAX_PARTITION_DEPTH: usize = 64;

/// The bytes of a row index.
pub const ROW_INDEX_BYTES: u64 = 8;

/// Why rows could not be set aside.
#[derive(Clone, Copy, Debug)]
pub enum SpillError {
    /// The files would exceed their limit.
    TemporaryStorageLimit { limit_bytes: u64 },
    /// The partition was split too often.
    TooDeep,
    /// A file ends inside a row index.
    IncompleteRow,
    /// A row index is too large for this platform.
    RowTooLarge,
}

/// The text of a failure.
pub open spec fn spill_text(e: SpillError) -> Seq<char> {
    match e {
        SpillError::TemporaryStorageLimit { limit_bytes } => "temporary storage limit of "@
            + int_text(limit_bytes as int) + " bytes exceeded"@,
        SpillError::TooDeep =>
            "group keys could not be partitioned within the configured memory limit after "@
            + int_text(MAX_PARTITION_DEPTH as int) + " repartitions"@,
        SpillError::IncompleteRow => "failed to fill whole buffer"@,
        SpillError::RowTooLarge => "row index does not fit this platform"@,
    }
}

impl SpillError {
    /// Describes the failure.
    pub fn message(&self) -> (s: String)
        ensures
            s@ == spill_text(*self),
    {
        match self {
            SpillError::TemporaryStorageLimit { limit_bytes } => concat3(
                "temporary storage limit of ",
                u64_text(*limit_bytes).as_str(),
                " bytes exceeded",
            ),
            SpillError::TooDeep => concat3(
                "group keys could not be partitioned within the configured memory limit after ",
                usize_text(MAX_PARTITION_DEPTH).as_str(),
                " repartitions",
            ),
            SpillError::IncompleteRow => "failed to fill whole buffer".to_owned(),
            SpillError::RowTooLarge => "row index does not fit this platform".to_owned(),
        }
    }
}

/// The keys of a row.
pub open spec fn keys_of(rows: Seq<Seq<Datum>>, columns: Seq<usize>, row: int) -> Seq<Datum> {
    Seq::new(columns.len(), |k: int| rows[row][columns[k] as int])
}

/// Where the hash of a depth begins.
pub open spec fn seed_of(depth: usize) -> u64 {
    FNV_OFFSET ^ (depth as u64).wrapping_mul(0x9e37_79b9_7f4a_7c15)
}

/// The hash of keys at a depth.
pub open spec fn keys_hash(keys: Seq<Datum>, depth: usize) -> u64 {
    scrambled(
        mixed_data(mixed_word(seed_of(depth), keys.len() as u64, 8), keys, keys.len() as int),
    )
}

/// The partition of keys at a depth.
pub open spec fn bucket_of(keys: Seq<Datum>, depth: usize) -> int {
    keys_hash(keys, depth) as usize as int % PARTITION_FANOUT as int
}

/// Hashes the keys of a row at a depth.
pub fn group_hash(table: &Table, group_columns: &Vec<usize>, row: usize, depth: usize) -> (hash: u64)
    requires
        table.wf(),
        row < table@.len(),
        forall|k: int| 0 <= k < group_columns@.len() ==> (#[trigger] group_columns@[k]) < table.fields().len(),
    ensures
        hash == keys_hash(keys_of(table@, group_columns@, row as int), depth),
{
    let ghost keys = keys_of(table@, group_columns@, row as int);
    let n = group_columns.len();
    let first = mix_word(FNV_OFFSET ^ (depth as u64).wrapping_mul(0x9e37_79b9_7f4a_7c15), n as u64);
    let mut hash = first;
    let mut k: usize = 0;
    while k < n
        invariant
            k <= n,
            n == group_columns@.len(),
            table.wf(),
            row < table@.len(),
            keys == keys_of(table@, group_columns@, row as int),
            hash == mixed_data(first, keys, k as int),
            forall|k: int|
                0 <= k < group_columns@.len() ==> (#[trigger] group_columns@[k])
                    < table.fields().len(),
        decreases n - k,
    {
        let value = table.value(row, group_columns[k]);
        hash = mix_value(hash, &value);
        k = k + 1;
    }
    scramble(hash)
}

/// The partition of a row at a depth.
pub fn row_bucket(table: &Table, group_columns: &Vec<usize>, row: usize, depth: usize) -> (bucket:
    usize)
    requires
        table.wf(),
        row < table@.len(),
        forall|k: int| 0 <= k < group_columns@.len() ==> (#[trigger] group_columns@[k]) < table.fields().len(),
    ensures
        bucket == bucket_of(keys_of(table@, group_columns@, row as int), depth),
        bucket < PARTITION_FANOUT,
{
    group_hash(table, group_columns, row, depth) as usize % PARTITION_FANOUT
}

/// The bytes of a list of row indices.
pub open spec fn encoded(rows: Seq<usize>) -> Seq<u8>
    decreases rows.len(),
{
    if rows.len() == 0 {
        Seq::empty()
    } else {
        encoded(rows.drop_last()) + spec_u64_to_le_bytes(rows.last() as u64)
    }
}

/// The row index at a position of a file.
pub open spec fn row_at(bytes: Seq<u8>, i: int) -> Result<usize, SpillError> {
    if i + 8 > bytes.len() {
        Err(SpillError::IncompleteRow)
    } else {
        let n = spec_u64_from_le_bytes(bytes.subrange(i, i + 8));
        if n > usize::MAX {
            Err(SpillError::RowTooLarge)
        } else {
            Ok(n as usize)
        }
    }
}

/// Reads a row index at a position of a file.
pub fn read_row(bytes: &Vec<u8>, i: usize) -> (r: Result<usize, SpillError>)
    requires
        i <= bytes.len(),
    ensures
        r == row_at(bytes@, i as int),
        r is Ok ==> i + 8 <= bytes.len(),
{
    if bytes.len() - i < 8 {
        return Err(SpillError::IncompleteRow);
    }
    let n = u64_from_le_bytes(slice_subrange(bytes.as_slice(), i, i + 8));
    if n > usize::MAX as u64 {
        return Err(SpillError::RowTooLarge);
    }
    Ok(n as usize)
}

/// Row indices of a file from a position on, or the failure behind those that can be read.
pub open spec fn rows_read(bytes: Seq<u8>, i: int) -> (Seq<usize>, Option<SpillError>)
    decreases bytes.len() - i,
{
    if !(0 <= i < bytes.len()) {
        (Seq::empty(), None)
    } else {
        match row_at(bytes, i) {
            Err(e) => (Seq::empty(), Some(e)),
            Ok(row) => if i + 8 <= bytes.len() {
                let rest = rows_read(bytes, i + 8);
                (seq![row] + rest.0, rest.1)
            } else {
                (Seq::empty(), None)
            },
        }
    }
}

/// Whether every row index of a file stands in a table with a number of rows.
#[verifier::loop_isolation(false)]
pub fn rows_stand(bytes: &Vec<u8>, rows: usize) -> (r: bool)
    ensures
        r == forall|k: int|
            0 <= k < rows_read(bytes@, 0).0.len() ==> (#[trigger] rows_read(bytes@, 0).0[k]) < rows,
{
    let ghost all = rows_read(bytes@, 0).0;
    let mut i: usize = 0;
    let ghost mut done: int = 0;
    assert(all.skip(0) =~= all);
    while i < bytes.len()
        invariant
            i <= bytes.len(),
            0 <= done <= all.len(),
            all.skip(done) == rows_read(bytes@, i as int).0,
            forall|k: int| 0 <= k < done ==> (#[trigger] all[k]) < rows,
        decreases bytes.len() - i,
    {
        match read_row(bytes, i) {
            Err(_) => {
                assert(all.skip(done).len() == 0);
                return true;
            },
            Ok(row) => {
                assert(all.skip(done)[0] == row);
                assert(all[done] == row);
                if row >= rows {
                    return false;
                }
                let ghost rest = rows_read(bytes@, i + 8).0;
                proof {
                    assert(all.skip(done + 1) =~= rest) by {
                        assert(all.skip(done) == seq![row] + rest);
                        assert(all.skip(done + 1) =~= all.skip(done).skip(1));
                        assert((seq![row] + rest).skip(1) =~= rest);
                    }
                    done = done + 1;
                }
                i = i + 8;
            },
        }
    }
    true
}

/// A partition: the name of its file, its bytes, and how often its rows were split before.
#[derive(Debug)]
pub struct Partition {
    pub name: String,
    pub bytes: u64,
    pub depth: usize,
}

/// The name of a file.
pub open spec fn file_name(depth: usize, bucket: int, file: u64) -> Seq<char> {
    "partition-"@ + int_text(depth as int) + "-"@ + int_text(bucket) + "-"@ + int_text(file as int)
        + ".bin"@
}

/// The bytes of the files of one grouping, and their number.
#[derive(Debug)]
pub struct TempWorkspace {
    limit_bytes: u64,
    used_bytes: u64,
    next_file: u64,
}

impl TempWorkspace {
    /// The largest number of bytes.
    pub closed spec fn limit(&self) -> u64 {
        self.limit_bytes
    }

    /// The bytes in use.
    pub closed spec fn used(&self) -> u64 {
        self.used_bytes
    }

    /// The number of files so far.
    pub closed spec fn files(&self) -> u64 {
        self.next_file
    }

    /// Starts without files.
    pub fn new(limit_bytes: u64) -> (w: TempWorkspace)
        ensures
            w.limit() == limit_bytes,
            w.used() == 0,
            w.files() == 0,
    {
        TempWorkspace { limit_bytes, used_bytes: 0, next_file: 0 }
    }

    /// The number of files so far.
    pub fn file_count(&self) -> (n: u64)
        ensures
            n == self.files(),
    {
        self.next_file
    }

    /// The bytes in use.
    pub fn used_bytes(&self) -> (n: u64)
        ensures
            n == self.used(),
    {
        self.used_bytes
    }

    fn allocate_name(&mut self, depth: usize, bucket: usize) -> (name: String)
        requires
            old(self).files() < u64::MAX,
        ensures
            name@ == file_name(depth, bucket as int, old(self).files()),
            final(self).limit() == old(self).limit(),
            final(self).used() == old(self).used(),
            final(self).files() == old(self).files() + 1,
    {
        let file = self.next_file;
        self.next_file = file + 1;
        let begin = concat4(
            "partition-",
            usize_text(depth).as_str(),
            "-",
            usize_text(bucket).as_str(),
        );
        concat4(begin.as_str(), "-", u64_text(file).as_str(), ".bin")
    }

    fn reserve(&mut self, bytes: u64) -> (r: Result<(), SpillError>)
        ensures
            final(self).limit() == old(self).limit(),
            final(self).files() == old(self).files(),
            match r {
                Ok(_) => old(self).used() + bytes <= old(self).limit() && final(self).used() == old(
                    self,
                ).used() + bytes,
                Err(e) => old(self).used() + bytes > old(self).limit() && final(self).used() == old(
                    self,
                ).used() && e == (SpillError::TemporaryStorageLimit {
                    limit_bytes: old(self).limit(),
                }),
            },
    {
        match self.used_bytes.checked_add(bytes) {
            Some(total) => {
                if total > self.limit_bytes {
                    return Err(
                        SpillError::TemporaryStorageLimit { limit_bytes: self.limit_bytes },
                    );
                }
                self.used_bytes = total;
                Ok(())
            },
            None => Err(SpillError::TemporaryStorageLimit { limit_bytes: self.limit_bytes }),
        }
    }

    /// Gives back the bytes of a partition whose file is gone.
    pub fn remove_partition(&mut self, partition: &Partition)
        ensures
            final(self).limit() == old(self).limit(),
            final(self).files() == old(self).files(),
            final(self).used() == (if partition.bytes < old(self).used() {
                old(self).used() - partition.bytes
            } else {
                0
            }),
    {
        self.used_bytes = if partition.bytes < self.used_bytes {
            self.used_bytes - partition.bytes
        } else {
            0
        };
    }

    /// Gives back all bytes once every file is gone.
    pub fn cleanup(&mut self)
        ensures
            final(self).limit() == old(self).limit(),
            final(self).files() == old(self).files(),
            final(self).used() == 0,
    {
        self.used_bytes = 0;
    }
}

/// A file that is being filled.
pub struct Output {
    pub name: Seq<char>,
    pub rows: Seq<usize>,
}

/// The bytes in use, the number of files, and the files of a split.
pub struct Split {
    pub used: u64,
    pub files: u64,
    pub outputs: Seq<Option<Output>>,
}

/// A split with a file for a partition.
pub open spec fn opened(split: Split, depth: usize, bucket: int) -> Split {
    match split.outputs[bucket] {
        Some(_) => split,
        None => Split {
            files: (split.files + 1) as u64,
            outputs: split.outputs.update(
                bucket,
                Some(
                    Output {
                        name: file_name(depth, bucket, split.files),
                        rows: Seq::empty(),
                    },
                ),
            ),
            ..split
        },
    }
}

/// A split behind one more row.
pub open spec fn placed(split: Split, limit: u64, depth: usize, bucket: int, row: usize) -> Result<
    Split,
    SpillError,
> {
    let open = opened(split, depth, bucket);
    if open.used + ROW_INDEX_BYTES > limit {
        Err(SpillError::TemporaryStorageLimit { limit_bytes: limit })
    } else {
        let output = open.outputs[bucket]->0;
        Ok(
            Split {
                used: (open.used + ROW_INDEX_BYTES) as u64,
                outputs: open.outputs.update(
                    bucket,
                    Some(Output { name: output.name, rows: output.rows.push(row) }),
                ),
                ..open
            },
        )
    }
}

/// A split behind the rows of a list from a position on, each in the partition of its keys.
pub open spec fn placed_from(
    split: Split,
    limit: u64,
    depth: usize,
    table: Seq<Seq<Datum>>,
    columns: Seq<usize>,
    rows: Seq<usize>,
    i: int,
) -> Result<Split, SpillError>
    decreases rows.len() - i,
{
    if !(0 <= i < rows.len()) {
        Ok(split)
    } else {
        let bucket = bucket_of(keys_of(table, columns, rows[i] as int), depth);
        match placed(split, limit, depth, bucket, rows[i]) {
            Err(e) => Err(e),
            Ok(next) => placed_from(next, limit, depth, table, columns, rows, i + 1),
        }
    }
}

/// Where a split stands when the rows of a list from a position on are placed, or when one of
/// them is refused: the rows before it have taken their bytes, and the file of its own
/// partition is counted.
pub open spec fn reached_from(
    split: Split,
    limit: u64,
    depth: usize,
    table: Seq<Seq<Datum>>,
    columns: Seq<usize>,
    rows: Seq<usize>,
    i: int,
) -> Split
    decreases rows.len() - i,
{
    if !(0 <= i < rows.len()) {
        split
    } else {
        let bucket = bucket_of(keys_of(table, columns, rows[i] as int), depth);
        match placed(split, limit, depth, bucket, rows[i]) {
            Err(_) => opened(split, depth, bucket),
            Ok(next) => reached_from(next, limit, depth, table, columns, rows, i + 1),
        }
    }
}

/// A split without files.
pub open spec fn unsplit(used: u64, files: u64) -> Split {
    Split { used, files, outputs: Seq::new(PARTITION_FANOUT as nat, |k: int| None::<Output>) }
}

/// A partition with the bytes of its file.
pub struct PartitionData {
    pub name: Seq<char>,
    pub depth: usize,
    pub content: Seq<u8>,
}

/// The partitions of the first `n` outputs, in order.
pub open spec fn partitions_of(outputs: Seq<Option<Output>>, depth: usize, n: int) -> Seq<
    PartitionData,
>
    decreases n,
{
    if n <= 0 {
        Seq::empty()
    } else {
        let before = partitions_of(outputs, depth, n - 1);
        match outputs[n - 1] {
            None => before,
            Some(output) => before.push(
                PartitionData { name: output.name, depth, content: encoded(output.rows) },
            ),
        }
    }
}

/// The partitions that rows of a table are split into, with the bytes in use and the number of
/// files then.
pub open spec fn partitioned(
    used: u64,
    files: u64,
    limit: u64,
    depth: usize,
    table: Seq<Seq<Datum>>,
    columns: Seq<usize>,
    rows: Seq<usize>,
) -> Result<Split, SpillError> {
    placed_from(unsplit(used, files), limit, depth, table, columns, rows, 0)
}

/// Where splitting rows of a table into partitions ends, whether it succeeds or not.
pub open spec fn reached(
    used: u64,
    files: u64,
    limit: u64,
    depth: usize,
    table: Seq<Seq<Datum>>,
    columns: Seq<usize>,
    rows: Seq<usize>,
) -> Split {
    reached_from(unsplit(used, files), limit, depth, table, columns, rows, 0)
}

struct PartitionOutput {
    name: String,
    content: Vec<u8>,
    rows: Ghost<Seq<usize>>,
}

struct PartitionWriters {
    outputs: Vec<Option<PartitionOutput>>,
    depth: usize,
}

impl PartitionWriters {
    spec fn filled(&self) -> Seq<Option<Output>> {
        Seq::new(
            self.outputs@.len(),
            |k: int|
                match self.outputs@[k] {
                    None => None,
                    Some(output) => Some(Output { name: output.name@, rows: output.rows@ }),
                },
        )
    }

    spec fn split(&self, workspace: TempWorkspace) -> Split {
        Split { used: workspace.used(), files: workspace.files(), outputs: self.filled() }
    }

    spec fn open_files(&self, n: int) -> int
        decreases n,
    {
        if n <= 0 {
            0
        } else {
            self.open_files(n - 1) + (if self.outputs@[n - 1] is Some {
                1int
            } else {
                0
            })
        }
    }

    spec fn wf(&self) -> bool {
        &&& self.outputs@.len() == PARTITION_FANOUT
        &&& forall|k: int|
            0 <= k < self.outputs@.len() ==> ((#[trigger] self.outputs@[k]) matches Some(output)
                ==> output.content@ == encoded(output.rows@))
    }

    fn new(depth: usize) -> (w: PartitionWriters)
        ensures
            w.wf(),
            w.depth == depth,
            w.filled() == unsplit(0, 0).outputs,
            w.open_files(PARTITION_FANOUT as int) == 0,
    {
        let mut outputs: Vec<Option<PartitionOutput>> = Vec::new();
        let mut k: usize = 0;
        while k < PARTITION_FANOUT
            invariant
                k <= PARTITION_FANOUT,
                outputs@.len() == k,
                forall|j: int| 0 <= j < k ==> (#[trigger] outputs@[j]) is None,
            decreases PARTITION_FANOUT - k,
        {
            outputs.push(None);
            k = k + 1;
        }
        let w = PartitionWriters { outputs, depth };
        proof {
            assert(w.filled() =~= unsplit(0, 0).outputs);
            w.none_are_open(PARTITION_FANOUT as int);
        }
        w
    }

    proof fn none_are_open(&self, n: int)
        requires
            n <= self.outputs@.len(),
            forall|j: int| 0 <= j < n ==> (#[trigger] self.outputs@[j]) is None,
        ensures
            self.open_files(n) == 0,
        decreases n,
    {
        if n > 0 {
            self.none_are_open(n - 1);
        }
    }

    proof fn open_files_fit(&self, n: int)
        requires
            n <= self.outputs@.len(),
        ensures
            0 <= self.open_files(n) <= (if n < 0 { 0 } else { n }),
            (exists|k: int| 0 <= k < n && (#[trigger] self.outputs@[k]) is None) ==> self.open_files(n) < n,
        decreases n,
    {
        if n > 0 {
            self.open_files_fit(n - 1);
        }
    }

    proof fn opening_adds_one(&self, other: &PartitionWriters, bucket: int, n: int)
        requires
            0 <= bucket < self.outputs@.len(),
            n <= self.outputs@.len(),
            self.outputs@[bucket] is None,
            other.outputs@.len() == self.outputs@.len(),
            other.outputs@[bucket] is Some,
            forall|k: int|
                0 <= k < self.outputs@.len() && k != bucket ==> (#[trigger] other.outputs@[k])
                    == self.outputs@[k],
        ensures
            other.open_files(n) == self.open_files(n) + (if bucket < n {
                1int
            } else {
                0
            }),
        decreases n,
    {
        if n > 0 {
            self.opening_adds_one(other, bucket, n - 1);
        }
    }

    proof fn filling_adds_none(&self, other: &PartitionWriters, n: int)
        requires
            n <= self.outputs@.len(),
            other.outputs@.len() == self.outputs@.len(),
            forall|k: int|
                0 <= k < self.outputs@.len() ==> (#[trigger] other.outputs@[k]) is Some
                    == self.outputs@[k] is Some,
        ensures
            other.open_files(n) == self.open_files(n),
        decreases n,
    {
        if n > 0 {
            assert(other.outputs@[n - 1] is Some == self.outputs@[n - 1] is Some);
            self.filling_adds_none(other, n - 1);
        }
    }

    fn write_row(&mut self, workspace: &mut TempWorkspace, bucket: usize, row: usize) -> (r: Result<
        (),
        SpillError,
    >)
        requires
            old(self).wf(),
            bucket < PARTITION_FANOUT,
            old(workspace).files() + PARTITION_FANOUT - old(self).open_files(PARTITION_FANOUT as int)
                <= u64::MAX,
        ensures
            final(self).depth == old(self).depth,
            final(workspace).limit() == old(workspace).limit(),
            final(workspace).files() - final(self).open_files(PARTITION_FANOUT as int) == old(
                workspace,
            ).files() - old(self).open_files(PARTITION_FANOUT as int),
            ({
                let found = placed(
                    old(self).split(*old(workspace)),
                    old(workspace).limit(),
                    old(self).depth,
                    bucket as int,
                    row,
                );
                match r {
                    Ok(_) => final(self).wf() && found == Ok::<_, SpillError>(
                        final(self).split(*final(workspace)),
                    ),
                    Err(e) => found == Err::<Split, _>(e) && final(workspace).used() == old(
                        workspace,
                    ).used() && final(workspace).files() == opened(
                        old(self).split(*old(workspace)),
                        old(self).depth,
                        bucket as int,
                    ).files,
                }
            }),
    {
        let ghost before = self.split(*workspace);
        let ghost open = opened(before, self.depth, bucket as int);
        let ghost start = *self;
        proof {
            self.open_files_fit(PARTITION_FANOUT as int);
        }
        if self.outputs[bucket].is_none() {
            let name = workspace.allocate_name(self.depth, bucket);
            let content: Vec<u8> = Vec::new();
            assert(content@ =~= encoded(Seq::<usize>::empty()));
            self.outputs.set(
                bucket,
                Some(PartitionOutput { name, content, rows: Ghost(Seq::empty()) }),
            );
            proof {
                start.opening_adds_one(&*self, bucket as int, PARTITION_FANOUT as int);
            }
        }
        assert(self.split(*workspace).outputs =~= open.outputs);
        let ghost middle = *self;
        workspace.reserve(ROW_INDEX_BYTES)?;
        let mut slot: Option<PartitionOutput> = None;
        std::mem::swap(&mut slot, &mut self.outputs[bucket]);
        if let Some(output) = slot {
            let PartitionOutput { name, content, rows } = output;
            let mut grown = content;
            let bytes = u64_to_le_bytes(row as u64);
            append_bytes(&mut grown, &bytes);
            let ghost more = rows@.push(row);
            assert(more.drop_last() =~= rows@);
            assert(grown@ == encoded(more));
            self.outputs.set(
                bucket,
                Some(PartitionOutput { name, content: grown, rows: Ghost(more) }),
            );
            proof {
                middle.filling_adds_none(&*self, PARTITION_FANOUT as int);
                assert(self.split(*workspace).outputs =~= open.outputs.update(
                    bucket as int,
                    Some(Output { name: open.outputs[bucket as int]->0.name, rows: more }),
                ));
            }
        }
        Ok(())
    }

    #[verifier::loop_isolation(false)]
    fn finish(self) -> (list: Vec<(Partition, Vec<u8>)>)
        requires
            self.wf(),
        ensures
            spilled(list@) == partitions_of(self.filled(), self.depth, PARTITION_FANOUT as int),
            sized(list@),
    {
        let ghost outputs = self.filled();
        let ghost all = self.outputs@;
        let depth = self.depth;
        let mut left = self.outputs;
        let mut list: Vec<(Partition, Vec<u8>)> = Vec::new();
        assert(spilled(list@) =~= Seq::<PartitionData>::empty());
        let mut k: usize = 0;
        while k < PARTITION_FANOUT
            invariant
                k <= PARTITION_FANOUT,
                left@.len() == PARTITION_FANOUT,
                forall|j: int| k <= j < PARTITION_FANOUT ==> #[trigger] left@[j] == all[j],
                spilled(list@) == partitions_of(outputs, depth, k as int),
                sized(list@),
            decreases PARTITION_FANOUT - k,
        {
            let mut slot: Option<PartitionOutput> = None;
            std::mem::swap(&mut slot, &mut left[k]);
            assert(slot == all[k as int]);
            if let Some(output) = slot {
                let PartitionOutput { name, content, rows } = output;
                let partition = Partition { name, bytes: content.len() as u64, depth };
                let ghost before = list@;
                list.push((partition, content));
                assert(spilled(list@) =~= spilled(before).push(
                    PartitionData { name: name@, depth, content: content@ },
                ));
            }
            k = k + 1;
        }
        list
    }
}

/// The content of partitions and their files.
pub open spec fn spilled(list: Seq<(Partition, Vec<u8>)>) -> Seq<PartitionData> {
    Seq::new(
        list.len(),
        |k: int|
            PartitionData { name: list[k].0.name@, depth: list[k].0.depth, content: list[k].1@ },
    )
}

/// Whether every partition knows the bytes of its file.
pub open spec fn sized(list: Seq<(Partition, Vec<u8>)>) -> bool {
    forall|k: int| 0 <= k < list.len() ==> (#[trigger] list[k]).0.bytes == list[k].1@.len()
}

/// Splits rows of a table into partitions by their keys.
///
/// The result holds each partition with the bytes of its file.
#[verifier::loop_isolation(false)]
pub fn write_initial_partitions(
    workspace: &mut TempWorkspace,
    table: &Table,
    rows: &Vec<usize>,
    group_columns: &Vec<usize>,
) -> (r: Result<Vec<(Partition, Vec<u8>)>, SpillError>)
    requires
        table.wf(),
        forall|k: int| 0 <= k < rows@.len() ==> (#[trigger] rows@[k]) < table@.len(),
        forall|k: int| 0 <= k < group_columns@.len() ==> (#[trigger] group_columns@[k]) < table.fields().len(),
        old(workspace).files() + PARTITION_FANOUT <= u64::MAX,
    ensures
        final(workspace).limit() == old(workspace).limit(),
        ({
            let found = partitioned(
                old(workspace).used(),
                old(workspace).files(),
                old(workspace).limit(),
                0,
                table@,
                group_columns@,
                rows@,
            );
            let end = reached(
                old(workspace).used(),
                old(workspace).files(),
                old(workspace).limit(),
                0,
                table@,
                group_columns@,
                rows@,
            );
            match r {
                Ok(list) => {
                    &&& found matches Ok(split)
                    &&& spilled(list@) == partitions_of(split.outputs, 0, PARTITION_FANOUT as int)
                    &&& sized(list@)
                    &&& final(workspace).used() == split.used
                    &&& final(workspace).files() == split.files
                },
                Err(e) => {
                    &&& found == Err::<Split, _>(e)
                    &&& final(workspace).used() == end.used
                    &&& final(workspace).files() == end.files
                },
            }
        }),
{
    let mut writers = PartitionWriters::new(0);
    let ghost goal = partitioned(
        workspace.used(),
        workspace.files(),
        workspace.limit(),
        0,
        table@,
        group_columns@,
        rows@,
    );
    let ghost end = reached(
        workspace.used(),
        workspace.files(),
        workspace.limit(),
        0,
        table@,
        group_columns@,
        rows@,
    );
    let ghost limit = workspace.limit();
    let mut i: usize = 0;
    while i < rows.len()
        invariant
            i <= rows.len(),
            writers.wf(),
            writers.depth == 0,
            workspace.limit() == limit,
            workspace.files() - writers.open_files(PARTITION_FANOUT as int) == old(workspace).files(),
            goal == placed_from(
                writers.split(*workspace),
                limit,
                0,
                table@,
                group_columns@,
                rows@,
                i as int,
            ),
            end == reached_from(
                writers.split(*workspace),
                limit,
                0,
                table@,
                group_columns@,
                rows@,
                i as int,
            ),
        decreases rows.len() - i,
    {
        let row = rows[i];
        let bucket = row_bucket(table, group_columns, row, 0);
        writers.write_row(workspace, bucket, row)?;
        i = i + 1;
    }
    Ok(writers.finish())
}

/// The bytes in use once some are given back.
pub open spec fn given_back(used: u64, bytes: u64) -> u64 {
    if bytes < used {
        (used - bytes) as u64
    } else {
        0
    }
}

/// The split of a partition with the bytes of its file.
pub open spec fn repartitioned(
    used: u64,
    files: u64,
    limit: u64,
    depth: usize,
    content: Seq<u8>,
    table: Seq<Seq<Datum>>,
    columns: Seq<usize>,
) -> Result<Split, SpillError> {
    let (rows, failure) = rows_read(content, 0);
    if depth >= MAX_PARTITION_DEPTH {
        Err(SpillError::TooDeep)
    } else {
        match partitioned(used, files, limit, (depth + 1) as usize, table, columns, rows) {
            Err(e) => Err(e),
            Ok(split) => match failure {
                Some(e) => Err(e),
                None => Ok(split),
            },
        }
    }
}

/// Where splitting a partition again ends, whether it succeeds or not: nothing happens to one
/// that was split too often, and otherwise the rows of its file up to a failure are placed.
pub open spec fn reached_again(
    used: u64,
    files: u64,
    limit: u64,
    depth: usize,
    content: Seq<u8>,
    table: Seq<Seq<Datum>>,
    columns: Seq<usize>,
) -> Split {
    if depth >= MAX_PARTITION_DEPTH {
        unsplit(used, files)
    } else {
        reached(used, files, limit, (depth + 1) as usize, table, columns, rows_read(content, 0).0)
    }
}

/// Splits a partition again, by another hash of its keys. The partition's own bytes stay in
/// use, as its file is still there.
#[verifier::loop_isolation(false)]
pub fn split_again(
    workspace: &mut TempWorkspace,
    table: &Table,
    partition: &Partition,
    content: &Vec<u8>,
    group_columns: &Vec<usize>,
) -> (r: Result<Vec<(Partition, Vec<u8>)>, SpillError>)
    requires
        table.wf(),
        forall|k: int|
            0 <= k < rows_read(content@, 0).0.len() ==> (#[trigger] rows_read(content@, 0).0[k])
                < table@.len(),
        forall|k: int| 0 <= k < group_columns@.len() ==> (#[trigger] group_columns@[k]) < table.fields().len(),
        old(workspace).files() + PARTITION_FANOUT <= u64::MAX,
    ensures
        final(workspace).limit() == old(workspace).limit(),
        ({
            let found = repartitioned(
                old(workspace).used(),
                old(workspace).files(),
                old(workspace).limit(),
                partition.depth,
                content@,
                table@,
                group_columns@,
            );
            let end = reached_again(
                old(workspace).used(),
                old(workspace).files(),
                old(workspace).limit(),
                partition.depth,
                content@,
                table@,
                group_columns@,
            );
            match r {
                Ok(list) => {
                    &&& found matches Ok(split)
                    &&& spilled(list@) == partitions_of(
                        split.outputs,
                        (partition.depth + 1) as usize,
                        PARTITION_FANOUT as int,
                    )
                    &&& sized(list@)
                    &&& final(workspace).used() == split.used
                    &&& final(workspace).files() == split.files
                },
                Err(e) => {
                    &&& found == Err::<Split, _>(e)
                    &&& final(workspace).used() == end.used
                    &&& final(workspace).files() == end.files
                },
            }
        }),
{
    if partition.depth >= MAX_PARTITION_DEPTH {
        return Err(SpillError::TooDeep);
    }
    let depth = partition.depth + 1;
    let mut writers = PartitionWriters::new(depth);
    let ghost all = rows_read(content@, 0).0;
    let ghost failure = rows_read(content@, 0).1;
    let ghost limit = workspace.limit();
    let ghost goal = partitioned(
        workspace.used(),
        workspace.files(),
        limit,
        depth,
        table@,
        group_columns@,
        all,
    );
    let ghost end = reached(
        workspace.used(),
        workspace.files(),
        limit,
        depth,
        table@,
        group_columns@,
        all,
    );
    let ghost mut done: int = 0;
    assert(all.skip(0) =~= all);
    let mut i: usize = 0;
    while i < content.len()
        invariant
            i <= content.len(),
            0 <= done <= all.len(),
            all.skip(done) == rows_read(content@, i as int).0,
            failure == rows_read(content@, i as int).1,
            writers.wf(),
            writers.depth == depth,
            workspace.limit() == limit,
            workspace.files() - writers.open_files(PARTITION_FANOUT as int) == old(workspace).files(),
            goal == placed_from(
                writers.split(*workspace),
                limit,
                depth,
                table@,
                group_columns@,
                all,
                done,
            ),
            end == reached_from(
                writers.split(*workspace),
                limit,
                depth,
                table@,
                group_columns@,
                all,
                done,
            ),
        decreases content.len() - i,
    {
        let row = match read_row(content, i) {
            Ok(row) => row,
            Err(e) => {
                assert(all.skip(done).len() == 0);
                return Err(e);
            },
        };
        let ghost rest = rows_read(content@, i + 8).0;
        proof {
            assert(all.skip(done)[0] == row);
            assert(all[done] == row);
            assert(all.skip(done + 1) =~= rest) by {
                assert(all.skip(done) == seq![row] + rest);
                assert(all.skip(done + 1) =~= all.skip(done).skip(1));
                assert((seq![row] + rest).skip(1) =~= rest);
            }
        }
        let bucket = row_bucket(table, group_columns, row, depth);
        writers.write_row(workspace, bucket, row)?;
        proof {
            done = done + 1;
        }
        i = i + 8;
    }
    assert(all.skip(done).len() == 0);
    Ok(writers.finish())
}

/// Splits a partition again, by another hash of its keys. The partition's own bytes are given
/// back, as its file is to be removed.
pub fn repartition(
    workspace: &mut TempWorkspace,
    table: &Table,
    partition: &Partition,
    content: &Vec<u8>,
    group_columns: &Vec<usize>,
) -> (r: Result<Vec<(Partition, Vec<u8>)>, SpillError>)
    requires
        table.wf(),
        forall|k: int|
            0 <= k < rows_read(content@, 0).0.len() ==> (#[trigger] rows_read(content@, 0).0[k])
                < table@.len(),
        forall|k: int| 0 <= k < group_columns@.len() ==> (#[trigger] group_columns@[k]) < table.fields().len(),
        old(workspace).files() + PARTITION_FANOUT <= u64::MAX,
    ensures
        final(workspace).limit() == old(workspace).limit(),
        ({
            let found = repartitioned(
                old(workspace).used(),
                old(workspace).files(),
                old(workspace).limit(),
                partition.depth,
                content@,
                table@,
                group_columns@,
            );
            let end = reached_again(
                old(workspace).used(),
                old(workspace).files(),
                old(workspace).limit(),
                partition.depth,
                content@,
                table@,
                group_columns@,
            );
            match r {
                Ok(list) => {
                    &&& found matches Ok(split)
                    &&& spilled(list@) == partitions_of(
                        split.outputs,
                        (partition.depth + 1) as usize,
                        PARTITION_FANOUT as int,
                    )
                    &&& sized(list@)
                    &&& final(workspace).used() == given_back(split.used, partition.bytes)
                    &&& final(workspace).files() == split.files
                },
                Err(e) => {
                    &&& found == Err::<Split, _>(e)
                    &&& final(workspace).used() == end.used
                    &&& final(workspace).files() == end.files
                },
            }
        }),
{
    let list = split_again(workspace, table, partition, content, group_columns)?;
    workspace.remove_partition(partition);
    Ok(list)
}

} // verus!
