//! What holds of every grouping.

use vstd::prelude::*;
use crate::float::FloatModel;
use crate::kernels::aggregate::AggregateExpr;
use crate::kernels::batch::{BatchColumn, RecordBatch};
use crate::types::Datum;
use crate::kernels::group::{bare_bytes, base_bytes, cell_for, fresh, group_with, grouping_of, progress_from, progress_with, row_keys, tallied, tallies_from, GroupByConfig, GroupData, Progress, Tally};

verus! {

/// Whether no two groups have the same keys.
pub open spec fn keys_differ(groups: Seq<GroupData>) -> bool {
    forall|i: int, j: int|
        0 <= i < j < groups.len() ==> (#[trigger] groups[i]).keys != (#[trigger] groups[j]).keys
}

/// Whether a grouping keeps within its bounds.
pub open spec fn within_bounds(p: Progress, config: GroupByConfig) -> bool {
    &&& p.groups.len() <= config.max_groups
    &&& p.retained <= p.peak <= config.memory_limit_bytes
    &&& keys_differ(p.groups)
}

proof fn tallies_fit(
    tallies: Seq<Tally>,
    es: Seq<AggregateExpr>,
    parts: Seq<BatchColumn>,
    row: int,
    a: int,
    retained: usize,
    limit: usize,
    m: FloatModel,
)
    requires
        retained <= limit,
    ensures
        tallies_from(tallies, es, parts, row, a, retained, limit, m) matches Ok((_, bytes)) ==> bytes
            <= limit,
    decreases es.len() - a,
{
    if 0 <= a < es.len() {
        match tallied(
            tallies[a],
            cell_for(es[a], parts, row),
            retained,
            limit,
            m,
        ) {
            Err(_) => {},
            Ok((t, bytes)) => {
                tallies_fit(tallies.update(a, t), es, parts, row, a + 1, bytes, limit, m);
            },
        }
    }
}

proof fn search_is_exact(groups: Seq<GroupData>, keys: Seq<Datum>, i: int)
    requires
        0 <= i,
    ensures
        match group_with(groups, keys, i) {
            Some(g) => i <= g < groups.len() && groups[g].keys == keys,
            None => forall|k: int| i <= k < groups.len() ==> (#[trigger] groups[k]).keys != keys,
        },
    decreases groups.len() - i,
{
    if i < groups.len() && groups[i].keys != keys {
        search_is_exact(groups, keys, i + 1);
    }
}

proof fn step_keeps_bounds(
    p: Progress,
    parts: Seq<BatchColumn>,
    key_columns: Seq<usize>,
    es: Seq<AggregateExpr>,
    row: int,
    config: GroupByConfig,
    m: FloatModel,
)
    requires
        within_bounds(p, config),
    ensures
        progress_with(p, parts, key_columns, es, row, config, m) matches Ok(next) ==> within_bounds(
            next,
            config,
        ),
{
    let keys = row_keys(parts, key_columns, row);
    let limit = config.memory_limit_bytes;
    let bare = bare_bytes(keys, es.len());
    search_is_exact(p.groups, keys, 0);
    match group_with(p.groups, keys, 0) {
        Some(g) => {
            tallies_fit(p.groups[g].tallies, es, parts, row, 0, p.retained, limit, m);
        },
        None => {
            if p.retained + bare <= limit {
                tallies_fit(
                    Seq::new(es.len(), |a: int| fresh(es[a], parts)),
                    es,
                    parts,
                    row,
                    0,
                    (p.retained + bare) as usize,
                    limit,
                    m,
                );
            }
        },
    }
}

proof fn steps_keep_bounds(
    p: Progress,
    chosen: Seq<bool>,
    parts: Seq<BatchColumn>,
    key_columns: Seq<usize>,
    es: Seq<AggregateExpr>,
    row: int,
    config: GroupByConfig,
    m: FloatModel,
)
    requires
        within_bounds(p, config),
    ensures
        progress_from(p, chosen, parts, key_columns, es, row, config, m) matches Ok(next)
            ==> within_bounds(next, config),
    decreases chosen.len() - row,
{
    if 0 <= row < chosen.len() {
        if !chosen[row] {
            steps_keep_bounds(p, chosen, parts, key_columns, es, row + 1, config, m);
        } else {
            step_keeps_bounds(p, parts, key_columns, es, row, config, m);
            match progress_with(p, parts, key_columns, es, row, config, m) {
                Err(_) => {},
                Ok(next) => {
                    steps_keep_bounds(next, chosen, parts, key_columns, es, row + 1, config, m);
                },
            }
        }
    }
}

/// A grouping has no more groups than it may have, never more bytes in use than its limit, and
/// no two groups with the same keys.
pub proof fn groupings_keep_within_bounds(
    batch: RecordBatch,
    key_columns: Seq<usize>,
    es: Seq<AggregateExpr>,
    config: GroupByConfig,
    m: FloatModel,
)
    ensures
        grouping_of(batch, key_columns, es, config, m) matches Ok(p) ==> within_bounds(p, config),
{
    let base = base_bytes(config.max_groups);
    if base <= config.memory_limit_bytes {
        steps_keep_bounds(
            Progress { groups: Seq::empty(), retained: base as usize, peak: base as usize },
            batch.chosen(),
            batch.parts(),
            key_columns,
            es,
            0,
            config,
            m,
        );
    }
}

} // verus!
