//! Database metrics in the Prometheus text format.

use vstd::prelude::*;
use crate::budget::{sat_add, sat_mul};
use crate::bytes::{append_text, utf8};
use crate::http::response::{capped, usize_decimal_len};
use crate::text::{byte_len, int_text, usize_text};

verus! {

/// Totals over all tables.
#[derive(Debug, Clone, Copy, PartialEq, Eq)]
pub struct DatabaseMetrics {
    pub table_count: usize,
    pub column_count: usize,
    pub retained_row_count: usize,
    pub retained_value_bytes: usize,
}

/// How a sparse index has worked so far.
#[derive(Debug, Clone, Copy, PartialEq, Eq)]
pub struct IndexPruningMetrics {
    pub scanned_blocks: usize,
    pub pruned_blocks: usize,
}

/// The size of one table.
#[derive(Debug, Clone, PartialEq, Eq)]
pub struct TableMetrics {
    pub table: String,
    pub row_count: usize,
    pub retained_value_bytes: usize,
}

/// One consistent snapshot of all metrics.
#[derive(Debug, Clone, PartialEq, Eq)]
pub struct MetricsSnapshot {
    pub totals: DatabaseMetrics,
    pub aggregate_worker_cap: usize,
    pub index_pruning: IndexPruningMetrics,
    pub tables: Vec<TableMetrics>,
}

/// The help and type lines of the metrics without labels, each up to its value.
pub open spec fn metric_prefix(i: int) -> Seq<char> {
    if i == 0 {
        "# HELP rusthouse_tables Number of tables retained by the database.\n# TYPE rusthouse_tables gauge\nrusthouse_tables "@
    } else if i == 1 {
        "# HELP rusthouse_columns Number of columns retained by the database.\n# TYPE rusthouse_columns gauge\nrusthouse_columns "@
    } else if i == 2 {
        "# HELP rusthouse_retained_rows Number of rows retained across all tables.\n# TYPE rusthouse_retained_rows gauge\nrusthouse_retained_rows "@
    } else if i == 3 {
        "# HELP rusthouse_retained_value_bytes Scalar payload bytes retained across all tables.\n# TYPE rusthouse_retained_value_bytes gauge\nrusthouse_retained_value_bytes "@
    } else if i == 4 {
        "# HELP rusthouse_global_aggregate_worker_cap Configured computation-lane cap for supported aggregate queries.\n# TYPE rusthouse_global_aggregate_worker_cap gauge\nrusthouse_global_aggregate_worker_cap "@
    } else if i == 5 {
        "# HELP rusthouse_index_scanned_blocks Sparse-index blocks selected for exact evaluation by indexed query attempts.\n# TYPE rusthouse_index_scanned_blocks counter\nrusthouse_index_scanned_blocks "@
    } else {
        "# HELP rusthouse_index_pruned_blocks Sparse-index blocks rejected using metadata by indexed query attempts.\n# TYPE rusthouse_index_pruned_blocks counter\nrusthouse_index_pruned_blocks "@
    }
}

fn prefix(i: usize) -> (s: &'static str)
    requires
        i < 7,
    ensures
        s@ == metric_prefix(i as int),
{
    if i == 0 {
        "# HELP rusthouse_tables Number of tables retained by the database.\n# TYPE rusthouse_tables gauge\nrusthouse_tables "
    } else if i == 1 {
        "# HELP rusthouse_columns Number of columns retained by the database.\n# TYPE rusthouse_columns gauge\nrusthouse_columns "
    } else if i == 2 {
        "# HELP rusthouse_retained_rows Number of rows retained across all tables.\n# TYPE rusthouse_retained_rows gauge\nrusthouse_retained_rows "
    } else if i == 3 {
        "# HELP rusthouse_retained_value_bytes Scalar payload bytes retained across all tables.\n# TYPE rusthouse_retained_value_bytes gauge\nrusthouse_retained_value_bytes "
    } else if i == 4 {
        "# HELP rusthouse_global_aggregate_worker_cap Configured computation-lane cap for supported aggregate queries.\n# TYPE rusthouse_global_aggregate_worker_cap gauge\nrusthouse_global_aggregate_worker_cap "
    } else if i == 5 {
        "# HELP rusthouse_index_scanned_blocks Sparse-index blocks selected for exact evaluation by indexed query attempts.\n# TYPE rusthouse_index_scanned_blocks counter\nrusthouse_index_scanned_blocks "
    } else {
        "# HELP rusthouse_index_pruned_blocks Sparse-index blocks rejected using metadata by indexed query attempts.\n# TYPE rusthouse_index_pruned_blocks counter\nrusthouse_index_pruned_blocks "
    }
}

/// The help and type lines of the row counts of tables.
pub open spec fn rows_header() -> Seq<char> {
    "# HELP rusthouse_table_rows Number of rows retained by a table.\n# TYPE rusthouse_table_rows gauge\n"@
}

/// The help and type lines of the sizes of tables.
pub open spec fn bytes_header() -> Seq<char> {
    "# HELP rusthouse_table_retained_value_bytes Scalar payload bytes retained by a table.\n# TYPE rusthouse_table_retained_value_bytes gauge\n"@
}

/// The value of a metric without labels.
pub open spec fn metric_value(m: MetricsSnapshot, i: int) -> usize {
    if i == 0 {
        m.totals.table_count
    } else if i == 1 {
        m.totals.column_count
    } else if i == 2 {
        m.totals.retained_row_count
    } else if i == 3 {
        m.totals.retained_value_bytes
    } else if i == 4 {
        m.aggregate_worker_cap
    } else if i == 5 {
        m.index_pruning.scanned_blocks
    } else {
        m.index_pruning.pruned_blocks
    }
}

fn value_of(m: &MetricsSnapshot, i: usize) -> (n: usize)
    requires
        i < 7,
    ensures
        n == metric_value(*m, i as int),
{
    if i == 0 {
        m.totals.table_count
    } else if i == 1 {
        m.totals.column_count
    } else if i == 2 {
        m.totals.retained_row_count
    } else if i == 3 {
        m.totals.retained_value_bytes
    } else if i == 4 {
        m.aggregate_worker_cap
    } else if i == 5 {
        m.index_pruning.scanned_blocks
    } else {
        m.index_pruning.pruned_blocks
    }
}

/// The first `n` metrics without labels.
pub open spec fn totals_text(m: MetricsSnapshot, n: int) -> Seq<u8>
    decreases n,
{
    if n <= 0 {
        Seq::empty()
    } else {
        totals_text(m, n - 1) + utf8(metric_prefix(n - 1)) + utf8(
            int_text(metric_value(m, n - 1) as int),
        ) + utf8("\n"@)
    }
}

/// The lines of the first `n` tables with one of their two numbers.
pub open spec fn tables_text(tables: Seq<TableMetrics>, rows: bool, n: int) -> Seq<u8>
    decreases n,
{
    if n <= 0 {
        Seq::empty()
    } else {
        let t = tables[n - 1];
        tables_text(tables, rows, n - 1) + utf8(label_prefix(rows)) + utf8(t.table@) + utf8(
            "\"} "@,
        ) + utf8(int_text((if rows { t.row_count } else { t.retained_value_bytes }) as int)) + utf8(
            "\n"@,
        )
    }
}

/// The beginning of a line for a table.
pub open spec fn label_prefix(rows: bool) -> Seq<char> {
    if rows {
        "rusthouse_table_rows{table=\""@
    } else {
        "rusthouse_table_retained_value_bytes{table=\""@
    }
}

fn label(rows: bool) -> (s: &'static str)
    ensures
        s@ == label_prefix(rows),
{
    if rows {
        "rusthouse_table_rows{table=\""
    } else {
        "rusthouse_table_retained_value_bytes{table=\""
    }
}

/// All metrics.
pub open spec fn metrics_text(m: MetricsSnapshot) -> Seq<u8> {
    totals_text(m, 7) + utf8(rows_header()) + tables_text(m.tables@, true, m.tables@.len() as int)
        + utf8(bytes_header()) + tables_text(m.tables@, false, m.tables@.len() as int)
}

fn append_tables(target: &mut Vec<u8>, tables: &Vec<TableMetrics>, rows: bool)
    ensures
        final(target)@ == old(target)@ + tables_text(tables@, rows, tables.len() as int),
{
    let ghost before = target@;
    assert(target@ =~= before + tables_text(tables@, rows, 0));
    let mut i: usize = 0;
    while i < tables.len()
        invariant
            i <= tables.len(),
            target@ == before + tables_text(tables@, rows, i as int),
        decreases tables.len() - i,
    {
        append_text(target, label(rows));
        append_text(target, tables[i].table.as_str());
        append_text(target, "\"} ");
        let n = if rows {
            tables[i].row_count
        } else {
            tables[i].retained_value_bytes
        };
        append_text(target, usize_text(n).as_str());
        append_text(target, "\n");
        assert(target@ =~= before + tables_text(tables@, rows, i + 1));
        i = i + 1;
    }
}

/// Writes all metrics.
pub fn write_prometheus_metrics(m: &MetricsSnapshot) -> (bytes: Vec<u8>)
    ensures
        bytes@ == metrics_text(*m),
{
    let mut bytes: Vec<u8> = Vec::new();
    assert(bytes@ =~= totals_text(*m, 0));
    let mut i: usize = 0;
    while i < 7
        invariant
            i <= 7,
            bytes@ == totals_text(*m, i as int),
        decreases 7 - i,
    {
        append_text(&mut bytes, prefix(i));
        append_text(&mut bytes, usize_text(value_of(m, i)).as_str());
        append_text(&mut bytes, "\n");
        i = i + 1;
    }
    append_text(
        &mut bytes,
        "# HELP rusthouse_table_rows Number of rows retained by a table.\n# TYPE rusthouse_table_rows gauge\n",
    );
    append_tables(&mut bytes, &m.tables, true);
    append_text(
        &mut bytes,
        "# HELP rusthouse_table_retained_value_bytes Scalar payload bytes retained by a table.\n# TYPE rusthouse_table_retained_value_bytes gauge\n",
    );
    append_tables(&mut bytes, &m.tables, false);
    bytes
}

/// The length of the first `n` metrics without labels.
pub open spec fn totals_length(
    totals: DatabaseMetrics,
    aggregate_worker_cap: usize,
    index_pruning: IndexPruningMetrics,
    n: int,
) -> int
    decreases n,
{
    if n <= 0 {
        0
    } else {
        totals_length(totals, aggregate_worker_cap, index_pruning, n - 1) + utf8(
            metric_prefix(n - 1),
        ).len() + utf8(
            int_text(total_value(totals, aggregate_worker_cap, index_pruning, n - 1) as int),
        ).len() + utf8("\n"@).len()
    }
}

/// The value of a metric without labels.
pub open spec fn total_value(
    totals: DatabaseMetrics,
    aggregate_worker_cap: usize,
    index_pruning: IndexPruningMetrics,
    i: int,
) -> usize {
    if i == 0 {
        totals.table_count
    } else if i == 1 {
        totals.column_count
    } else if i == 2 {
        totals.retained_row_count
    } else if i == 3 {
        totals.retained_value_bytes
    } else if i == 4 {
        aggregate_worker_cap
    } else if i == 5 {
        index_pruning.scanned_blocks
    } else {
        index_pruning.pruned_blocks
    }
}

/// The length of all metrics, from totals and the summed lengths of the tables' names and
/// numbers.
pub open spec fn metrics_length(
    totals: DatabaseMetrics,
    aggregate_worker_cap: usize,
    index_pruning: IndexPruningMetrics,
    name_bytes: usize,
    row_count_bytes: usize,
    value_count_bytes: usize,
) -> int {
    let per_table = utf8(label_prefix(true)).len() + utf8(label_prefix(false)).len() + 2 * utf8(
        "\"} "@,
    ).len() + 2 * utf8("\n"@).len();
    totals_length(totals, aggregate_worker_cap, index_pruning, 7) + utf8(rows_header()).len() + utf8(
        bytes_header(),
    ).len() + totals.table_count * per_table + name_bytes * 2 + row_count_bytes + value_count_bytes
}

proof fn capped_product(k: usize, each: int)
    requires
        each >= 0,
    ensures
        capped(k * capped(each)) == capped(k * each),
        k * each >= 0,
{
    if each > usize::MAX && k > 0 {
        assert(k * each >= each) by (nonlinear_arith)
            requires
                k > 0,
                each >= 0,
        ;
        assert(k * usize::MAX >= usize::MAX) by (nonlinear_arith)
            requires
                k > 0,
        ;
    }
    assert(k * each >= 0) by (nonlinear_arith)
        requires
            k >= 0,
            each >= 0,
    ;
}

/// Computes the length of all metrics before they are collected.
pub fn prometheus_metrics_body_len(
    totals: DatabaseMetrics,
    aggregate_worker_cap: usize,
    index_pruning: IndexPruningMetrics,
    name_bytes: usize,
    row_count_bytes: usize,
    value_count_bytes: usize,
) -> (n: usize)
    ensures
        n == capped(
            metrics_length(
                totals,
                aggregate_worker_cap,
                index_pruning,
                name_bytes,
                row_count_bytes,
                value_count_bytes,
            ),
        ),
{
    let mut n: usize = 0;
    let mut i: usize = 0;
    while i < 7
        invariant
            i <= 7,
            n == capped(
                totals_length(totals, aggregate_worker_cap, index_pruning, i as int),
            ),
            totals_length(totals, aggregate_worker_cap, index_pruning, i as int) >= 0,
        decreases 7 - i,
    {
        let value = if i == 0 {
            totals.table_count
        } else if i == 1 {
            totals.column_count
        } else if i == 2 {
            totals.retained_row_count
        } else if i == 3 {
            totals.retained_value_bytes
        } else if i == 4 {
            aggregate_worker_cap
        } else if i == 5 {
            index_pruning.scanned_blocks
        } else {
            index_pruning.pruned_blocks
        };
        n = sat_add(n, byte_len(prefix(i)));
        n = sat_add(n, usize_decimal_len(value));
        n = sat_add(n, byte_len("\n"));
        i = i + 1;
    }
    n = sat_add(
        n,
        byte_len(
            "# HELP rusthouse_table_rows Number of rows retained by a table.\n# TYPE rusthouse_table_rows gauge\n",
        ),
    );
    n = sat_add(
        n,
        byte_len(
            "# HELP rusthouse_table_retained_value_bytes Scalar payload bytes retained by a table.\n# TYPE rusthouse_table_retained_value_bytes gauge\n",
        ),
    );
    let mut per_table: usize = byte_len(label(true));
    per_table = sat_add(per_table, byte_len(label(false)));
    per_table = sat_add(per_table, sat_mul(byte_len("\"} "), 2));
    per_table = sat_add(per_table, sat_mul(byte_len("\n"), 2));
    let ghost each = utf8(label_prefix(true)).len() + utf8(label_prefix(false)).len() + 2 * utf8(
        "\"} "@,
    ).len() + 2 * utf8("\n"@).len();
    assert(per_table == capped(each as int));
    let of_tables = sat_mul(totals.table_count, per_table);
    proof {
        capped_product(totals.table_count, each as int);
    }
    assert(of_tables == capped(totals.table_count * each));
    n = sat_add(n, of_tables);
    n = sat_add(n, sat_mul(name_bytes, 2));
    n = sat_add(n, row_count_bytes);
    sat_add(n, value_count_bytes)
}

/// The summed lengths of the first `n` tables' names.
pub open spec fn name_bytes(tables: Seq<TableMetrics>, n: int) -> int
    decreases n,
{
    if n <= 0 {
        0
    } else {
        name_bytes(tables, n - 1) + utf8(tables[n - 1].table@).len()
    }
}

/// The summed lengths of one number of the first `n` tables.
pub open spec fn count_bytes(tables: Seq<TableMetrics>, rows: bool, n: int) -> int
    decreases n,
{
    if n <= 0 {
        0
    } else {
        let t = tables[n - 1];
        count_bytes(tables, rows, n - 1) + utf8(
            int_text((if rows { t.row_count } else { t.retained_value_bytes }) as int),
        ).len()
    }
}

proof fn tables_length(tables: Seq<TableMetrics>, rows: bool, n: int)
    requires
        0 <= n <= tables.len(),
    ensures
        tables_text(tables, rows, n).len() == n * (utf8(label_prefix(rows)).len() + utf8("\"} "@).len()
            + utf8("\n"@).len()) + name_bytes(tables, n) + count_bytes(tables, rows, n),
    decreases n,
{
    let each = utf8(label_prefix(rows)).len() + utf8("\"} "@).len() + utf8("\n"@).len();
    if n > 0 {
        tables_length(tables, rows, n - 1);
        assert(n * each == (n - 1) * each + each) by (nonlinear_arith);
    } else {
        assert(0 * each == 0);
    }
}

proof fn totals_text_length(m: MetricsSnapshot, n: int)
    requires
        0 <= n <= 7,
    ensures
        totals_text(m, n).len() == totals_length(
            m.totals,
            m.aggregate_worker_cap,
            m.index_pruning,
            n,
        ),
    decreases n,
{
    if n > 0 {
        totals_text_length(m, n - 1);
    }
}

/// The length that is computed before the metrics are collected is the length of their
/// text.
pub proof fn metrics_length_is_exact(m: MetricsSnapshot, names: usize, row_counts: usize, value_counts: usize)
    requires
        m.totals.table_count == m.tables@.len(),
        names == name_bytes(m.tables@, m.tables@.len() as int),
        row_counts == count_bytes(m.tables@, true, m.tables@.len() as int),
        value_counts == count_bytes(m.tables@, false, m.tables@.len() as int),
    ensures
        metrics_text(m).len() == metrics_length(
            m.totals,
            m.aggregate_worker_cap,
            m.index_pruning,
            names,
            row_counts,
            value_counts,
        ),
{
    let n = m.tables@.len() as int;
    totals_text_length(m, 7);
    tables_length(m.tables@, true, n);
    tables_length(m.tables@, false, n);
    let (a, b, c, d) = (
        utf8(label_prefix(true)).len() as int,
        utf8(label_prefix(false)).len() as int,
        utf8("\"} "@).len() as int,
        utf8("\n"@).len() as int,
    );
    assert(n * (a + b + 2 * c + 2 * d) == n * (a + c + d) + n * (b + c + d)) by (nonlinear_arith);
}

} // verus!
