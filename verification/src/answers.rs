//! What each query of the store answers, stated over the model.

use vstd::prelude::*;

use crate::model::{
    session_matches, u64_max, EdgeRecord, ProbeRecord, StatRecord, StoreModel, SymbolRecord,
};
use crate::protocol::{CallerCountView, HotPathView, StaticSummaryView, SymbolIdView, UncoveredView};
use crate::ranking::is_top_k;

verus! {

/// Which counter of a statistics row is added up.
#[derive(Clone, Copy)]
pub enum StatField {
    Invocations,
    Exceptions,
    DurationP50,
    DurationP95,
}

pub open spec fn stat_field(r: StatRecord, f: StatField) -> u64 {
    match f {
        StatField::Invocations => r.invocations,
        StatField::Exceptions => r.exceptions,
        StatField::DurationP50 => r.duration_ns_p50,
        StatField::DurationP95 => r.duration_ns_p95,
    }
}

/// The metric a hot-path request names: `duration_p95` and `exceptions` rank by
/// those totals, any other name ranks by invocations.
pub open spec fn metric_field(metric: Seq<char>) -> StatField {
    if metric == "duration_p95"@ {
        StatField::DurationP95
    } else if metric == "exceptions"@ {
        StatField::Exceptions
    } else {
        StatField::Invocations
    }
}

/// A statistics row of symbol `id` that the session filter lets through.
pub open spec fn stat_selected(r: StatRecord, id: Seq<char>, filter: Option<Seq<char>>) -> bool {
    r.symbol_id == id && session_matches(filter, r.session_id)
}

/// Sum of `field` over the selected statistics rows of symbol `id`.
pub open spec fn stat_total(
    stats: Seq<StatRecord>,
    id: Seq<char>,
    filter: Option<Seq<char>>,
    field: StatField,
) -> int
    decreases stats.len(),
{
    if stats.len() == 0 {
        0
    } else {
        stat_total(stats.drop_last(), id, filter, field) + if stat_selected(
            stats.last(),
            id,
            filter,
        ) {
            stat_field(stats.last(), field) as int
        } else {
            0
        }
    }
}

/// Number of selected statistics rows of symbol `id`.
pub open spec fn stat_count(stats: Seq<StatRecord>, id: Seq<char>, filter: Option<Seq<char>>) -> nat
    decreases stats.len(),
{
    if stats.len() == 0 {
        0
    } else {
        stat_count(stats.drop_last(), id, filter) + if stat_selected(stats.last(), id, filter) {
            1nat
        } else {
            0nat
        }
    }
}

/// Largest p95 duration over the selected statistics rows of symbol `id` (0 when none).
pub open spec fn stat_max_p95(stats: Seq<StatRecord>, id: Seq<char>, filter: Option<Seq<char>>) -> u64
    decreases stats.len(),
{
    if stats.len() == 0 {
        0
    } else {
        let rest = stat_max_p95(stats.drop_last(), id, filter);
        if stat_selected(stats.last(), id, filter) && stats.last().duration_ns_p95 > rest {
            stats.last().duration_ns_p95
        } else {
            rest
        }
    }
}

/// An observed edge between `anchor` and `other` that the session filter lets through:
/// `other` calls `anchor` when `incoming`, `anchor` calls `other` otherwise.
pub open spec fn link_selected(
    e: EdgeRecord,
    anchor: Seq<char>,
    other: Seq<char>,
    incoming: bool,
    filter: Option<Seq<char>>,
) -> bool {
    session_matches(filter, e.session_id) && if incoming {
        e.callee_id == anchor && e.caller_id == other
    } else {
        e.caller_id == anchor && e.callee_id == other
    }
}

/// Sum of the counts of the selected edges between `anchor` and `other`.
pub open spec fn link_total(
    edges: Seq<EdgeRecord>,
    anchor: Seq<char>,
    other: Seq<char>,
    incoming: bool,
    filter: Option<Seq<char>>,
) -> int
    decreases edges.len(),
{
    if edges.len() == 0 {
        0
    } else {
        link_total(edges.drop_last(), anchor, other, incoming, filter) + if link_selected(
            edges.last(),
            anchor,
            other,
            incoming,
            filter,
        ) {
            edges.last().count as int
        } else {
            0
        }
    }
}

/// Number of selected edges between `anchor` and `other`.
pub open spec fn link_count(
    edges: Seq<EdgeRecord>,
    anchor: Seq<char>,
    other: Seq<char>,
    incoming: bool,
    filter: Option<Seq<char>>,
) -> nat
    decreases edges.len(),
{
    if edges.len() == 0 {
        0
    } else {
        link_count(edges.drop_last(), anchor, other, incoming, filter) + if link_selected(
            edges.last(),
            anchor,
            other,
            incoming,
            filter,
        ) {
            1nat
        } else {
            0nat
        }
    }
}

/// The positions `j < n` with `pred(j)`, in increasing order.
pub open spec fn indices_where(n: nat, pred: spec_fn(int) -> bool) -> Seq<usize>
    decreases n,
{
    if n == 0 {
        Seq::empty()
    } else {
        let rest = indices_where((n - 1) as nat, pred);
        if pred(n - 1) {
            rest.push((n - 1) as usize)
        } else {
            rest
        }
    }
}

/// The entries of `names` whose paired entry of `ids` (same position) is not in
/// `other`, in order.
pub open spec fn names_of_ids_not_in(
    ids: Seq<Seq<char>>,
    names: Seq<Seq<char>>,
    other: Seq<Seq<char>>,
) -> Seq<Seq<char>>
    decreases ids.len(),
{
    if ids.len() == 0 {
        Seq::empty()
    } else {
        let rest = names_of_ids_not_in(ids.drop_last(), names, other);
        if other.contains(ids.last()) {
            rest
        } else {
            rest.push(names[ids.len() - 1])
        }
    }
}

/// A row of a ranked answer about symbol `s` with `value`.
pub open spec fn caller_entry(s: SymbolIdView, value: u64) -> CallerCountView {
    CallerCountView { qualname: s.qualname, count: value, symbol: Some(s) }
}

pub open spec fn static_view_of(r: SymbolRecord) -> StaticSummaryView {
    StaticSummaryView {
        symbol: r.symbol,
        kind: r.kind,
        complexity: r.complexity,
        param_count: r.param_count,
        lines: r.end_line - r.start_line + 1,
        syntactic_callee_count: r.syntactic_callee_count,
        start_line: r.start_line,
        end_line: r.end_line,
    }
}

impl StoreModel {
    /// Position of the symbol row with id `id` (meaningful when `has_symbol(id)`).
    pub open spec fn symbol_at(self, id: Seq<char>) -> int {
        choose|i: int| 0 <= i < self.symbols.len() && self.symbols[i].id == id
    }

    /// Position of the probe window with id `id` (meaningful when `has_probe(id)`).
    pub open spec fn probe_at(self, id: Seq<char>) -> int {
        choose|i: int| 0 <= i < self.probes.len() && self.probes[i].id == id
    }

    // ----- hot paths -----
    /// Symbol rows with at least one selected statistics row, in table order.
    pub open spec fn hot_groups(self, filter: Option<Seq<char>>) -> Seq<usize> {
        indices_where(self.symbols.len(), self.hot_member(filter))
    }

    pub open spec fn hot_member(self, filter: Option<Seq<char>>) -> spec_fn(int) -> bool {
        |j: int| stat_count(self.stats, self.symbols[j].id, filter) > 0
    }

    /// The metric total of each hot group.
    pub open spec fn hot_totals(self, filter: Option<Seq<char>>, field: StatField) -> Seq<int> {
        self.hot_groups(filter).map_values(
            |j: usize| stat_total(self.stats, self.symbols[j as int].id, filter, field),
        )
    }

    /// Some group total of the ranking passes `u64::MAX`.
    pub open spec fn hot_overflows(self, filter: Option<Seq<char>>, field: StatField) -> bool {
        exists|i: int|
            0 <= i < self.hot_totals(filter, field).len() && #[trigger] self.hot_totals(
                filter,
                field,
            )[i] > u64_max()
    }

    /// `res` ranks the `limit` symbols with the largest metric totals, largest first.
    pub open spec fn hot_paths_answer(
        self,
        filter: Option<Seq<char>>,
        limit: nat,
        metric: Seq<char>,
        res: Seq<HotPathView>,
    ) -> bool {
        let groups = self.hot_groups(filter);
        let vals = self.hot_totals(filter, metric_field(metric)).map_values(|v: int| v as u64);
        exists|sel: Seq<usize>|
            #[trigger] is_top_k(vals, limit, sel) && res.len() == sel.len() && forall|i: int|
                0 <= i < sel.len() ==> #[trigger] res[i] == HotPathView {
                    symbol: self.symbols[groups[sel[i] as int] as int].symbol,
                    value: vals[sel[i] as int],
                    metric,
                }
    }

    // ----- callers and callees -----
    /// Symbol rows linked to `anchor` by at least one selected edge, in table order.
    pub open spec fn neighbor_groups(
        self,
        anchor: Seq<char>,
        incoming: bool,
        filter: Option<Seq<char>>,
    ) -> Seq<usize> {
        indices_where(self.symbols.len(), self.neighbor_member(anchor, incoming, filter))
    }

    pub open spec fn neighbor_member(
        self,
        anchor: Seq<char>,
        incoming: bool,
        filter: Option<Seq<char>>,
    ) -> spec_fn(int) -> bool {
        |j: int| link_count(self.edges, anchor, self.symbols[j].id, incoming, filter) > 0
    }

    pub open spec fn neighbor_totals(
        self,
        anchor: Seq<char>,
        incoming: bool,
        filter: Option<Seq<char>>,
    ) -> Seq<int> {
        self.neighbor_groups(anchor, incoming, filter).map_values(
            |j: usize| link_total(self.edges, anchor, self.symbols[j as int].id, incoming, filter),
        )
    }

    pub open spec fn neighbor_overflows(
        self,
        anchor: Seq<char>,
        incoming: bool,
        filter: Option<Seq<char>>,
    ) -> bool {
        exists|i: int|
            0 <= i < self.neighbor_totals(anchor, incoming, filter).len()
                && #[trigger] self.neighbor_totals(anchor, incoming, filter)[i] > u64_max()
    }

    /// `res` ranks the `limit` callers (`incoming`) or callees of `anchor` with the
    /// most calls, most first.
    pub open spec fn neighbors_answer(
        self,
        anchor: Seq<char>,
        incoming: bool,
        filter: Option<Seq<char>>,
        limit: nat,
        res: Seq<CallerCountView>,
    ) -> bool {
        let groups = self.neighbor_groups(anchor, incoming, filter);
        let vals = self.neighbor_totals(anchor, incoming, filter).map_values(|v: int| v as u64);
        exists|sel: Seq<usize>|
            #[trigger] is_top_k(vals, limit, sel) && res.len() == sel.len() && forall|i: int|
                0 <= i < sel.len() ==> #[trigger] res[i] == caller_entry(
                    self.symbols[groups[sel[i] as int] as int].symbol,
                    vals[sel[i] as int],
                )
    }

    // ----- uncovered symbols -----
    /// Some selected statistics row of symbol `id` counted an invocation.
    pub open spec fn ran(self, id: Seq<char>, filter: Option<Seq<char>>) -> bool {
        exists|k: int|
            0 <= k < self.stats.len() && #[trigger] self.stats[k].symbol_id == id
                && self.stats[k].invocations > 0 && session_matches(
                filter,
                self.stats[k].session_id,
            )
    }

    /// Indexed symbols at least as complex as `min_complexity` that never ran.
    pub open spec fn uncovered_groups(self, min_complexity: int, filter: Option<Seq<char>>) -> Seq<
        usize,
    > {
        indices_where(self.symbols.len(), self.uncovered_member(min_complexity, filter))
    }

    pub open spec fn uncovered_member(self, min_complexity: int, filter: Option<Seq<char>>) -> spec_fn(
        int,
    ) -> bool {
        |j: int|
            self.symbols[j].build_id is Some && self.symbols[j].complexity >= min_complexity
                && !self.ran(self.symbols[j].id, filter)
    }

    /// `res` ranks the `limit` most complex uncovered symbols, most complex first.
    pub open spec fn uncovered_answer(
        self,
        min_complexity: int,
        limit: nat,
        filter: Option<Seq<char>>,
        res: Seq<UncoveredView>,
    ) -> bool {
        let groups = self.uncovered_groups(min_complexity, filter);
        let vals = groups.map_values(|j: usize| self.symbols[j as int].complexity as u64);
        exists|sel: Seq<usize>|
            #[trigger] is_top_k(vals, limit, sel) && res.len() == sel.len() && forall|i: int|
                0 <= i < sel.len() ==> #[trigger] res[i] == UncoveredView {
                    symbol: self.symbols[groups[sel[i] as int] as int].symbol,
                    complexity: self.symbols[groups[sel[i] as int] as int].complexity as i64,
                    path: self.symbols[groups[sel[i] as int] as int].symbol.path,
                }
    }

    // ----- probe windows -----
    /// Active windows visible to the filter: any session when there is no filter,
    /// otherwise the filter's session and windows of no session.
    pub open spec fn active_groups(self, filter: Option<Seq<char>>) -> Seq<usize> {
        indices_where(self.probes.len(), self.active_member(filter))
    }

    pub open spec fn active_member(self, filter: Option<Seq<char>>) -> spec_fn(int) -> bool {
        |j: int|
            self.probes[j].status == "active"@ && (filter is None || self.probes[j].session_id
                is None || self.probes[j].session_id == filter)
    }

    /// `res` lists every visible active window, latest start first.
    pub open spec fn active_answer(self, filter: Option<Seq<char>>, res: Seq<ProbeRecord>) -> bool {
        let groups = self.active_groups(filter);
        let vals = groups.map_values(|j: usize| self.probes[j as int].started_at_ms);
        exists|sel: Seq<usize>|
            #[trigger] is_top_k(vals, groups.len(), sel) && res.len() == sel.len() && forall|i: int|
                0 <= i < sel.len() ==> #[trigger] res[i] == self.probes[groups[sel[i] as int] as int]
    }

    // ----- static vs runtime -----
    /// Ids of the symbol rows that the static edges from `key` (among the first `n`
    /// static edges) point at, in edge order; edges to a symbol with no row are skipped.
    pub open spec fn static_ids_upto(self, key: Seq<char>, n: nat) -> Seq<Seq<char>>
        decreases n,
    {
        if n == 0 {
            Seq::empty()
        } else {
            let rest = self.static_ids_upto(key, (n - 1) as nat);
            let e = self.static_edges[n - 1];
            if e.caller_id == key && self.has_symbol(e.callee_id) {
                rest.push(e.callee_id)
            } else {
                rest
            }
        }
    }

    /// Qualified names of the same symbols, in the same order.
    pub open spec fn static_names_upto(self, key: Seq<char>, n: nat) -> Seq<Seq<char>>
        decreases n,
    {
        if n == 0 {
            Seq::empty()
        } else {
            let rest = self.static_names_upto(key, (n - 1) as nat);
            let e = self.static_edges[n - 1];
            if e.caller_id == key && self.has_symbol(e.callee_id) {
                rest.push(self.symbols[self.symbol_at(e.callee_id)].symbol.qualname)
            } else {
                rest
            }
        }
    }

    pub open spec fn static_ids(self, key: Seq<char>) -> Seq<Seq<char>> {
        self.static_ids_upto(key, self.static_edges.len())
    }

    pub open spec fn static_names(self, key: Seq<char>) -> Seq<Seq<char>> {
        self.static_names_upto(key, self.static_edges.len())
    }

    /// Ids of the symbols `key` was observed calling, one per symbol, in table order.
    pub open spec fn observed_ids(self, key: Seq<char>, filter: Option<Seq<char>>) -> Seq<
        Seq<char>,
    > {
        self.neighbor_groups(key, false, filter).map_values(|j: usize| self.symbols[j as int].id)
    }

    /// Qualified names of the same symbols, in the same order.
    pub open spec fn observed_names(self, key: Seq<char>, filter: Option<Seq<char>>) -> Seq<
        Seq<char>,
    > {
        self.neighbor_groups(key, false, filter).map_values(
            |j: usize| self.symbols[j as int].symbol.qualname,
        )
    }
}

/// A sum of `n` unsigned 64-bit values is at most `n * u64::MAX`.
pub proof fn lemma_stat_total_bound(
    stats: Seq<StatRecord>,
    id: Seq<char>,
    filter: Option<Seq<char>>,
    field: StatField,
)
    ensures
        0 <= stat_total(stats, id, filter, field) <= stats.len() * u64_max(),
    decreases stats.len(),
{
    if stats.len() > 0 {
        lemma_stat_total_bound(stats.drop_last(), id, filter, field);
        let n = stats.len() as int;
        assert((n - 1) * u64_max() + u64_max() == n * u64_max()) by (nonlinear_arith);
    }
}

/// A sum of `n` edge counts is at most `n * u64::MAX`.
pub proof fn lemma_link_total_bound(
    edges: Seq<EdgeRecord>,
    anchor: Seq<char>,
    other: Seq<char>,
    incoming: bool,
    filter: Option<Seq<char>>,
)
    ensures
        0 <= link_total(edges, anchor, other, incoming, filter) <= edges.len() * u64_max(),
    decreases edges.len(),
{
    if edges.len() > 0 {
        lemma_link_total_bound(edges.drop_last(), anchor, other, incoming, filter);
        let n = edges.len() as int;
        assert((n - 1) * u64_max() + u64_max() == n * u64_max()) by (nonlinear_arith);
    }
}

/// Every position `indices_where` lists is below `n`.
pub proof fn lemma_indices_where_bound(n: nat, pred: spec_fn(int) -> bool)
    ensures
        forall|q: int|
            0 <= q < indices_where(n, pred).len() ==> #[trigger] indices_where(n, pred)[q] < n,
        indices_where(n, pred).len() <= n,
    decreases n,
{
    if n > 0 {
        lemma_indices_where_bound((n - 1) as nat, pred);
    }
}

} // verus!
