//! Properties of the store that relate several operations.

use vstd::prelude::*;

use crate::answers::{
    caller_entry, indices_where, link_count, link_selected, link_total, metric_field,
    names_of_ids_not_in, stat_count, stat_field, stat_selected, stat_total, StatField,
};
use crate::identity::symbol_key;
use crate::model::{
    session_matches, same_edge_key, same_stat_key, EdgeRecord, StatRecord, StoreModel,
};
use crate::protocol::{CallerCountView, HotPathView, SymbolIdView, UncoveredView};
use crate::ranking::is_top_k;

verus! {

proof fn lemma_stat_total_update(
    s: Seq<StatRecord>,
    i: int,
    r: StatRecord,
    id: Seq<char>,
    filter: Option<Seq<char>>,
    field: StatField,
)
    requires
        0 <= i < s.len(),
    ensures
        stat_total(s.update(i, r), id, filter, field) == stat_total(s, id, filter, field) - (if stat_selected(
            s[i],
            id,
            filter,
        ) {
            stat_field(s[i], field) as int
        } else {
            0
        }) + (if stat_selected(r, id, filter) {
            stat_field(r, field) as int
        } else {
            0
        }),
    decreases s.len(),
{
    let u = s.update(i, r);
    if i == s.len() - 1 {
        assert(u.drop_last() =~= s.drop_last());
    } else {
        lemma_stat_total_update(s.drop_last(), i, r, id, filter, field);
        assert(u.drop_last() =~= s.drop_last().update(i, r));
    }
}

proof fn lemma_link_total_update(
    s: Seq<EdgeRecord>,
    i: int,
    r: EdgeRecord,
    anchor: Seq<char>,
    other: Seq<char>,
    incoming: bool,
    filter: Option<Seq<char>>,
)
    requires
        0 <= i < s.len(),
    ensures
        link_total(s.update(i, r), anchor, other, incoming, filter) == link_total(
            s,
            anchor,
            other,
            incoming,
            filter,
        ) - (if link_selected(s[i], anchor, other, incoming, filter) {
            s[i].count as int
        } else {
            0
        }) + (if link_selected(r, anchor, other, incoming, filter) {
            r.count as int
        } else {
            0
        }),
    decreases s.len(),
{
    let u = s.update(i, r);
    if i == s.len() - 1 {
        assert(u.drop_last() =~= s.drop_last());
    } else {
        lemma_link_total_update(s.drop_last(), i, r, anchor, other, incoming, filter);
        assert(u.drop_last() =~= s.drop_last().update(i, r));
    }
}

/// Recording a window's statistics adds its invocations and exceptions to what the
/// store reports for that symbol under every filter that admits the session, and
/// leaves every other symbol's totals as they were.
pub proof fn law_stat_upsert_accumulates(
    m: StoreModel,
    session_id: Seq<char>,
    symbol_id: Seq<char>,
    window_start_ms: u64,
    window_end_ms: u64,
    invocations: u64,
    exceptions: u64,
    duration_ns_p50: u64,
    duration_ns_p95: u64,
    id: Seq<char>,
    filter: Option<Seq<char>>,
)
    requires
        m.wf(),
        !m.stat_upsert_overflows(session_id, symbol_id, window_start_ms, invocations, exceptions),
    ensures
        ({
            let after = m.upsert_stat(
                session_id,
                symbol_id,
                window_start_ms,
                window_end_ms,
                invocations,
                exceptions,
                duration_ns_p50,
                duration_ns_p95,
            );
            let hit = id == symbol_id && session_matches(filter, session_id);
            &&& stat_total(after.stats, id, filter, StatField::Invocations) == stat_total(
                m.stats,
                id,
                filter,
                StatField::Invocations,
            ) + if hit {
                invocations as int
            } else {
                0
            }
            &&& stat_total(after.stats, id, filter, StatField::Exceptions) == stat_total(
                m.stats,
                id,
                filter,
                StatField::Exceptions,
            ) + if hit {
                exceptions as int
            } else {
                0
            }
        }),
{
    let after = m.upsert_stat(
        session_id,
        symbol_id,
        window_start_ms,
        window_end_ms,
        invocations,
        exceptions,
        duration_ns_p50,
        duration_ns_p95,
    );
    if m.has_stat(session_id, symbol_id, window_start_ms) {
        let i = choose|i: int|
            0 <= i < m.stats.len() && StoreModel::stat_key_matches(
                #[trigger] m.stats[i],
                session_id,
                symbol_id,
                window_start_ms,
            );
        let r = StatRecord {
            window_end_ms,
            invocations: (m.stats[i].invocations + invocations) as u64,
            exceptions: (m.stats[i].exceptions + exceptions) as u64,
            duration_ns_p50,
            duration_ns_p95,
            ..m.stats[i]
        };
        assert forall|k: int| 0 <= k < m.stats.len() && k != i implies !StoreModel::stat_key_matches(
            #[trigger] m.stats[k],
            session_id,
            symbol_id,
            window_start_ms,
        ) by {
            if k < i {
                assert(!same_stat_key(m.stats[k], m.stats[i]));
            } else {
                assert(!same_stat_key(m.stats[i], m.stats[k]));
            }
        }
        assert(after.stats =~= m.stats.update(i, r));
        lemma_stat_total_update(m.stats, i, r, id, filter, StatField::Invocations);
        lemma_stat_total_update(m.stats, i, r, id, filter, StatField::Exceptions);
    } else {
        let r = StatRecord {
            session_id,
            symbol_id,
            window_start_ms,
            window_end_ms,
            invocations,
            exceptions,
            duration_ns_p50,
            duration_ns_p95,
        };
        assert(after.stats.drop_last() =~= m.stats);
    }
}

/// Recording `count` calls from `caller_id` to `callee_id` adds `count` to the calls
/// the store reports between them, seen from either end, under every filter that
/// admits the session; every other pair keeps its total.
pub proof fn law_edge_upsert_accumulates(
    m: StoreModel,
    session_id: Seq<char>,
    caller_id: Seq<char>,
    callee_id: Seq<char>,
    window_start_ms: u64,
    count: u64,
    anchor: Seq<char>,
    other: Seq<char>,
    incoming: bool,
    filter: Option<Seq<char>>,
)
    requires
        m.wf(),
        !m.edge_upsert_overflows(session_id, caller_id, callee_id, window_start_ms, count),
    ensures
        ({
            let after = m.upsert_edge(session_id, caller_id, callee_id, window_start_ms, count);
            let ends = if incoming {
                anchor == callee_id && other == caller_id
            } else {
                anchor == caller_id && other == callee_id
            };
            let hit = ends && session_matches(filter, session_id);
            link_total(after.edges, anchor, other, incoming, filter) == link_total(
                m.edges,
                anchor,
                other,
                incoming,
                filter,
            ) + if hit {
                count as int
            } else {
                0
            }
        }),
{
    let after = m.upsert_edge(session_id, caller_id, callee_id, window_start_ms, count);
    if m.has_edge(session_id, caller_id, callee_id, window_start_ms) {
        let i = choose|i: int|
            0 <= i < m.edges.len() && StoreModel::edge_key_matches(
                #[trigger] m.edges[i],
                session_id,
                caller_id,
                callee_id,
                window_start_ms,
            );
        let r = EdgeRecord { count: (m.edges[i].count + count) as u64, ..m.edges[i] };
        assert forall|k: int| 0 <= k < m.edges.len() && k != i implies !StoreModel::edge_key_matches(
            #[trigger] m.edges[k],
            session_id,
            caller_id,
            callee_id,
            window_start_ms,
        ) by {
            if k < i {
                assert(!same_edge_key(m.edges[k], m.edges[i]));
            } else {
                assert(!same_edge_key(m.edges[i], m.edges[k]));
            }
        }
        assert(after.edges =~= m.edges.update(i, r));
        lemma_link_total_update(m.edges, i, r, anchor, other, incoming, filter);
    } else {
        assert(after.edges.drop_last() =~= m.edges);
    }
}

/// Recording the same runtime symbol twice is the same as recording it once.
pub proof fn law_ensure_symbol_idempotent(m: StoreModel, symbol: SymbolIdView)
    ensures
        m.ensure_symbol(symbol).ensure_symbol(symbol) == m.ensure_symbol(symbol),
{
    let once = m.ensure_symbol(symbol);
    if !m.has_symbol(symbol_key(symbol)) {
        assert(once.symbols[once.symbols.len() - 1].id == symbol_key(symbol));
        assert(once.has_symbol(symbol_key(symbol)));
    }
}

/// A symbol seen at runtime after the indexer recorded it keeps the indexer's facts:
/// recording it again changes nothing.
pub proof fn law_runtime_symbol_keeps_indexed_row(
    m: StoreModel,
    build_id: Seq<char>,
    symbol: SymbolIdView,
    kind: Seq<char>,
    start_line: u32,
    end_line: u32,
    param_count: u32,
    complexity: u32,
    syntactic_callee_count: u32,
)
    ensures
        ({
            let indexed = m.insert_indexed_symbol(
                build_id,
                symbol,
                kind,
                start_line,
                end_line,
                param_count,
                complexity,
                syntactic_callee_count,
            );
            indexed.ensure_symbol(symbol) == indexed
        }),
{
    let key = symbol_key(symbol);
    let indexed = m.insert_indexed_symbol(
        build_id,
        symbol,
        kind,
        start_line,
        end_line,
        param_count,
        complexity,
        syntactic_callee_count,
    );
    if m.has_symbol(key) {
        let i = choose|i: int| 0 <= i < m.symbols.len() && #[trigger] m.symbols[i].id == key;
        assert(indexed.symbols[i].id == key);
    } else {
        assert(indexed.symbols[indexed.symbols.len() - 1].id == key);
    }
    assert(indexed.has_symbol(key));
}

/// The indexer and the runtime share one row per symbol: indexing a symbol that was
/// seen at runtime updates that row instead of adding one.
pub proof fn law_indexed_symbol_joins_runtime_row(
    m: StoreModel,
    build_id: Seq<char>,
    symbol: SymbolIdView,
    kind: Seq<char>,
    start_line: u32,
    end_line: u32,
    param_count: u32,
    complexity: u32,
    syntactic_callee_count: u32,
)
    ensures
        ({
            let seen = m.ensure_symbol(symbol);
            seen.insert_indexed_symbol(
                build_id,
                symbol,
                kind,
                start_line,
                end_line,
                param_count,
                complexity,
                syntactic_callee_count,
            ).symbols.len() == seen.symbols.len()
        }),
{
    let seen = m.ensure_symbol(symbol);
    if !m.has_symbol(symbol_key(symbol)) {
        assert(seen.symbols[seen.symbols.len() - 1].id == symbol_key(symbol));
    }
    assert(seen.has_symbol(symbol_key(symbol)));
}

/// Recording the same static edge twice is the same as recording it once.
pub proof fn law_static_edge_idempotent(
    m: StoreModel,
    build_id: Seq<char>,
    caller_id: Seq<char>,
    callee_id: Seq<char>,
    uncertain: bool,
)
    ensures
        m.insert_static_edge(build_id, caller_id, callee_id, uncertain).insert_static_edge(
            build_id,
            caller_id,
            callee_id,
            uncertain,
        ) == m.insert_static_edge(build_id, caller_id, callee_id, uncertain),
{
    let once = m.insert_static_edge(build_id, caller_id, callee_id, uncertain);
    if !m.has_static_edge(build_id, caller_id, callee_id) {
        let last = once.static_edges.len() - 1;
        assert(once.static_edges[last].build_id == build_id);
        assert(once.has_static_edge(build_id, caller_id, callee_id));
    }
}

/// Clearing a build removes exactly its symbols and static edges: none of them is
/// left, and every row of another build (or of no build) stays.
pub proof fn law_clear_build_removes_only_that_build(m: StoreModel, build_id: Seq<char>)
    ensures
        ({
            let after = m.clear_build(build_id);
            &&& forall|k: int|
                0 <= k < after.symbols.len() ==> #[trigger] after.symbols[k].build_id != Some(
                    build_id,
                )
            &&& forall|k: int|
                0 <= k < after.static_edges.len() ==> #[trigger] after.static_edges[k].build_id
                    != build_id
            &&& forall|j: int|
                0 <= j < m.symbols.len() && #[trigger] m.symbols[j].build_id != Some(build_id)
                    ==> after.symbols.contains(m.symbols[j])
            &&& forall|j: int|
                0 <= j < m.static_edges.len() && #[trigger] m.static_edges[j].build_id != build_id
                    ==> after.static_edges.contains(m.static_edges[j])
            &&& after.stats == m.stats && after.edges == m.edges && after.probes == m.probes
        }),
{
    StoreModel::lemma_symbols_outside(m.symbols, build_id);
    StoreModel::lemma_static_edges_outside(m.static_edges, build_id);
}

/// After a status update, the window reads back with the new status and end time.
pub proof fn law_probe_update_reads_back(
    m: StoreModel,
    id: Seq<char>,
    status: Seq<char>,
    ended_at_ms: Option<u64>,
)
    requires
        m.wf(),
        m.has_probe(id),
    ensures
        ({
            let after = m.update_probe(id, status, ended_at_ms);
            &&& after.has_probe(id)
            &&& after.probes[after.probe_at(id)].status == status
            &&& after.probes[after.probe_at(id)].ended_at_ms == ended_at_ms
        }),
{
    let after = m.update_probe(id, status, ended_at_ms);
    let i = choose|i: int| 0 <= i < m.probes.len() && #[trigger] m.probes[i].id == id;
    assert(after.probes[i].id == id);
    assert(after.has_probe(id));
}

/// A new probe window is active and listed for its own session and for a query
/// with no session filter.
pub proof fn law_new_probe_is_active(
    m: StoreModel,
    id: Seq<char>,
    session_id: Option<Seq<char>>,
    started_at_ms: u64,
    duration_s: u64,
    targets_json: Seq<char>,
    filter: Option<Seq<char>>,
    res: Seq<crate::model::ProbeRecord>,
)
    requires
        m.probes.len() < usize::MAX,
        filter is None || filter == session_id,
        m.add_probe(id, session_id, started_at_ms, duration_s, targets_json).active_answer(
            filter,
            res,
        ),
    ensures
        res.contains(
            crate::model::ProbeRecord {
                id,
                session_id,
                started_at_ms,
                duration_s,
                ended_at_ms: None,
                status: "active"@,
                targets_json,
            },
        ),
{
    let after = m.add_probe(id, session_id, started_at_ms, duration_s, targets_json);
    let n = after.probes.len();
    let last = (n - 1) as usize;
    crate::answers::lemma_indices_where_bound(n, after.active_member(filter));
    let groups = after.active_groups(filter);
    assert(after.active_member(filter)(last as int));
    assert(groups == crate::answers::indices_where((n - 1) as nat, after.active_member(filter)).push(
        last,
    ));
    let q = groups.len() - 1;
    let vals = groups.map_values(|j: usize| after.probes[j as int].started_at_ms);
    let sel = choose|sel: Seq<usize>|
        #[trigger] crate::ranking::is_top_k(vals, groups.len(), sel) && res.len() == sel.len()
            && forall|i: int|
            0 <= i < sel.len() ==> #[trigger] res[i] == after.probes[groups[sel[i] as int] as int];
    assert(sel.contains(q as usize));
    let w = choose|w: int| 0 <= w < sel.len() && sel[w] == q as usize;
    assert(res[w] == after.probes[last as int]);
}

/// The comparison of static and observed callees is a join on symbol ids: a name
/// is listed exactly for the callees of one side whose id the other side lacks.
/// Applied to the static side against the observed side this gives the static
/// callees never observed; the other way round, the runtime-only callees.
pub proof fn law_compare_partitions(
    ids: Seq<Seq<char>>,
    names: Seq<Seq<char>>,
    other: Seq<Seq<char>>,
)
    requires
        names.len() == ids.len(),
    ensures
        forall|q: Seq<char>| #[trigger]
            names_of_ids_not_in(ids, names, other).contains(q) ==> exists|k: int|
                0 <= k < ids.len() && names[k] == q && !other.contains(ids[k]),
        forall|k: int|
            0 <= k < ids.len() && !other.contains(ids[k]) ==> #[trigger] names_of_ids_not_in(
                ids,
                names,
                other,
            ).contains(names[k]),
    decreases ids.len(),
{
    if ids.len() > 0 {
        let n = ids.len() - 1;
        let pre = ids.drop_last();
        let pnames = names.take(n);
        lemma_names_prefix(ids, names, other);
        law_compare_partitions(pre, pnames, other);
        let rest = names_of_ids_not_in(pre, names, other);
        let out = names_of_ids_not_in(ids, names, other);
        assert forall|q: Seq<char>| #[trigger] out.contains(q) implies exists|k: int|
            0 <= k < ids.len() && names[k] == q && !other.contains(ids[k]) by {
            let w = choose|w: int| 0 <= w < out.len() && out[w] == q;
            if w < rest.len() {
                assert(rest.contains(q));
                let k = choose|k: int|
                    0 <= k < pre.len() && pnames[k] == q && !other.contains(pre[k]);
                assert(names[k] == q && ids[k] == pre[k]);
            } else {
                assert(names[n] == q && !other.contains(ids[n]));
            }
        }
        assert forall|k: int| 0 <= k < ids.len() && !other.contains(ids[k]) implies #[trigger] out.contains(
            names[k],
        ) by {
            if k < n {
                assert(pre[k] == ids[k] && pnames[k] == names[k]);
                assert(rest.contains(names[k]));
                let w = choose|w: int| 0 <= w < rest.len() && rest[w] == names[k];
                assert(out[w] == names[k]);
            } else {
                assert(out[out.len() - 1] == names[k]);
            }
        }
    }
}

/// Only the first `ids.len()` names matter.
proof fn lemma_names_prefix(ids: Seq<Seq<char>>, names: Seq<Seq<char>>, other: Seq<Seq<char>>)
    requires
        names.len() >= ids.len(),
    ensures
        names_of_ids_not_in(ids, names, other) == names_of_ids_not_in(
            ids,
            names.take(ids.len() as int),
            other,
        ),
        ids.len() > 0 ==> names_of_ids_not_in(ids.drop_last(), names, other)
            == names_of_ids_not_in(ids.drop_last(), names.take(ids.len() - 1), other),
    decreases ids.len(),
{
    if ids.len() > 0 {
        lemma_names_prefix(ids.drop_last(), names, other);
        lemma_names_prefix(ids.drop_last(), names.take(ids.len() as int), other);
        assert(names.take(ids.len() as int).take(ids.len() - 1) =~= names.take(ids.len() - 1));
    }
}

proof fn lemma_stat_count_positive(
    s: Seq<StatRecord>,
    k: int,
    id: Seq<char>,
    filter: Option<Seq<char>>,
)
    requires
        0 <= k < s.len(),
        stat_selected(s[k], id, filter),
    ensures
        stat_count(s, id, filter) >= 1,
    decreases s.len(),
{
    if k < s.len() - 1 {
        lemma_stat_count_positive(s.drop_last(), k, id, filter);
    }
}

proof fn lemma_link_count_positive(
    s: Seq<EdgeRecord>,
    k: int,
    anchor: Seq<char>,
    other: Seq<char>,
    incoming: bool,
    filter: Option<Seq<char>>,
)
    requires
        0 <= k < s.len(),
        link_selected(s[k], anchor, other, incoming, filter),
    ensures
        link_count(s, anchor, other, incoming, filter) >= 1,
    decreases s.len(),
{
    if k < s.len() - 1 {
        lemma_link_count_positive(s.drop_last(), k, anchor, other, incoming, filter);
    }
}

proof fn lemma_indices_where_contains(n: nat, pred: spec_fn(int) -> bool, j: int)
    requires
        0 <= j < n,
        n <= usize::MAX,
        pred(j),
    ensures
        exists|q: int|
            0 <= q < indices_where(n, pred).len() && #[trigger] indices_where(n, pred)[q] == j,
    decreases n,
{
    let rest = indices_where((n - 1) as nat, pred);
    if j == n - 1 {
        assert(indices_where(n, pred)[rest.len() as int] == j);
    } else {
        lemma_indices_where_contains((n - 1) as nat, pred, j);
        let q = choose|q: int| 0 <= q < rest.len() && #[trigger] rest[q] == j;
        assert(indices_where(n, pred)[q] == j);
    }
}

/// A window recorded for a known symbol makes that symbol show up in the hot
/// paths of every session filter that admits the window, once the limit leaves
/// room for every ranked symbol.
pub proof fn law_recorded_symbol_is_ranked(
    m: StoreModel,
    session_id: Seq<char>,
    symbol: SymbolIdView,
    window_start_ms: u64,
    window_end_ms: u64,
    invocations: u64,
    exceptions: u64,
    duration_ns_p50: u64,
    duration_ns_p95: u64,
    filter: Option<Seq<char>>,
    limit: nat,
    metric: Seq<char>,
    res: Seq<HotPathView>,
)
    requires
        m.wf(),
        m.symbols.len() <= usize::MAX,
        m.has_symbol(symbol_key(symbol)),
        !m.stat_upsert_overflows(
            session_id,
            symbol_key(symbol),
            window_start_ms,
            invocations,
            exceptions,
        ),
        session_matches(filter, session_id),
        limit >= m.symbols.len(),
        m.upsert_stat(
            session_id,
            symbol_key(symbol),
            window_start_ms,
            window_end_ms,
            invocations,
            exceptions,
            duration_ns_p50,
            duration_ns_p95,
        ).hot_paths_answer(filter, limit, metric, res),
    ensures
        exists|i: int| 0 <= i < res.len() && symbol_key(#[trigger] res[i].symbol) == symbol_key(symbol),
{
    let key = symbol_key(symbol);
    let after = m.upsert_stat(
        session_id,
        key,
        window_start_ms,
        window_end_ms,
        invocations,
        exceptions,
        duration_ns_p50,
        duration_ns_p95,
    );
    let j = after.symbol_at(key);
    assert(after.symbols == m.symbols);
    assert(0 <= j < after.symbols.len() && after.symbols[j].id == key);
    // The recorded row is a selected statistics row of the symbol.
    if m.has_stat(session_id, key, window_start_ms) {
        let i = choose|i: int|
            0 <= i < m.stats.len() && StoreModel::stat_key_matches(
                #[trigger] m.stats[i],
                session_id,
                key,
                window_start_ms,
            );
        assert(StoreModel::stat_key_matches(after.stats[i], session_id, key, window_start_ms));
        lemma_stat_count_positive(after.stats, i, key, filter);
    } else {
        lemma_stat_count_positive(after.stats, after.stats.len() - 1, key, filter);
    }
    let member = after.hot_member(filter);
    assert(member(j));
    lemma_indices_where_contains(after.symbols.len(), member, j);
    crate::answers::lemma_indices_where_bound(after.symbols.len(), member);
    let groups = after.hot_groups(filter);
    let q = choose|q: int| 0 <= q < groups.len() && #[trigger] groups[q] == j;
    let vals = after.hot_totals(filter, metric_field(metric)).map_values(|v: int| v as u64);
    let sel = choose|sel: Seq<usize>|
        #[trigger] is_top_k(vals, limit, sel) && res.len() == sel.len() && forall|i: int|
            0 <= i < sel.len() ==> #[trigger] res[i] == HotPathView {
                symbol: after.symbols[groups[sel[i] as int] as int].symbol,
                value: vals[sel[i] as int],
                metric,
            };
    assert(sel.contains(q as usize));
    let w = choose|w: int| 0 <= w < sel.len() && sel[w] == q as usize;
    assert(res[w].symbol == after.symbols[j].symbol);
    assert(after.symbols[j].id == symbol_key(after.symbols[j].symbol));
}

/// Observed calls from `caller` to `callee` make `caller` show up among the actual
/// callers of `callee` (and `callee` among the actual callees of `caller`) for every
/// session filter that admits them, once the limit leaves room for every ranked symbol.
pub proof fn law_recorded_edge_is_ranked(
    m: StoreModel,
    session_id: Seq<char>,
    caller: SymbolIdView,
    callee: SymbolIdView,
    window_start_ms: u64,
    count: u64,
    incoming: bool,
    filter: Option<Seq<char>>,
    limit: nat,
    res: Seq<CallerCountView>,
)
    requires
        m.wf(),
        m.symbols.len() <= usize::MAX,
        m.has_symbol(symbol_key(caller)),
        m.has_symbol(symbol_key(callee)),
        !m.edge_upsert_overflows(
            session_id,
            symbol_key(caller),
            symbol_key(callee),
            window_start_ms,
            count,
        ),
        session_matches(filter, session_id),
        limit >= m.symbols.len(),
        m.upsert_edge(
            session_id,
            symbol_key(caller),
            symbol_key(callee),
            window_start_ms,
            count,
        ).neighbors_answer(
            if incoming {
                symbol_key(callee)
            } else {
                symbol_key(caller)
            },
            incoming,
            filter,
            limit,
            res,
        ),
    ensures
        exists|i: int|
            #![trigger res[i]]
            0 <= i < res.len() && res[i].symbol is Some && symbol_key(
                res[i].symbol->0,
            ) == symbol_key(
                if incoming {
                    caller
                } else {
                    callee
                },
            ),
{
    let from = symbol_key(caller);
    let to = symbol_key(callee);
    let anchor = if incoming {
        to
    } else {
        from
    };
    let other = if incoming {
        from
    } else {
        to
    };
    let after = m.upsert_edge(session_id, from, to, window_start_ms, count);
    assert(after.symbols == m.symbols);
    assert(after.has_symbol(other));
    let j = after.symbol_at(other);
    assert(0 <= j < after.symbols.len() && after.symbols[j].id == other);
    if m.has_edge(session_id, from, to, window_start_ms) {
        let i = choose|i: int|
            0 <= i < m.edges.len() && StoreModel::edge_key_matches(
                #[trigger] m.edges[i],
                session_id,
                from,
                to,
                window_start_ms,
            );
        assert(StoreModel::edge_key_matches(after.edges[i], session_id, from, to, window_start_ms));
        lemma_link_count_positive(after.edges, i, anchor, other, incoming, filter);
    } else {
        lemma_link_count_positive(
            after.edges,
            after.edges.len() - 1,
            anchor,
            other,
            incoming,
            filter,
        );
    }
    let member = after.neighbor_member(anchor, incoming, filter);
    assert(member(j));
    lemma_indices_where_contains(after.symbols.len(), member, j);
    crate::answers::lemma_indices_where_bound(after.symbols.len(), member);
    let groups = after.neighbor_groups(anchor, incoming, filter);
    let q = choose|q: int| 0 <= q < groups.len() && #[trigger] groups[q] == j;
    let vals = after.neighbor_totals(anchor, incoming, filter).map_values(|v: int| v as u64);
    let sel = choose|sel: Seq<usize>|
        #[trigger] is_top_k(vals, limit, sel) && res.len() == sel.len() && forall|i: int|
            0 <= i < sel.len() ==> #[trigger] res[i] == caller_entry(
                after.symbols[groups[sel[i] as int] as int].symbol,
                vals[sel[i] as int],
            );
    assert(sel.contains(q as usize));
    let w = choose|w: int| 0 <= w < sel.len() && sel[w] == q as usize;
    assert(res[w] == caller_entry(after.symbols[j].symbol, vals[q]));
    assert(after.symbols[j].id == symbol_key(after.symbols[j].symbol));
    assert(res[w].symbol is Some && symbol_key(res[w].symbol->0) == other);
}


/// Every position `indices_where` lists satisfies the predicate.
proof fn lemma_indices_where_member(n: nat, pred: spec_fn(int) -> bool)
    requires
        n <= usize::MAX,
    ensures
        forall|q: int|
            0 <= q < indices_where(n, pred).len() ==> pred(#[trigger] indices_where(n, pred)[q] as int),
    decreases n,
{
    if n > 0 {
        lemma_indices_where_member((n - 1) as nat, pred);
        let rest = indices_where((n - 1) as nat, pred);
        assert forall|q: int| 0 <= q < indices_where(n, pred).len() implies pred(
            #[trigger] indices_where(n, pred)[q] as int,
        ) by {
            if q < rest.len() {
                assert(indices_where(n, pred)[q] == rest[q]);
            }
        }
    }
}

/// An edge seen from its caller's side is the same edge seen from its callee's side.
proof fn lemma_link_symmetric(
    edges: Seq<EdgeRecord>,
    a: Seq<char>,
    b: Seq<char>,
    filter: Option<Seq<char>>,
)
    ensures
        link_total(edges, a, b, false, filter) == link_total(edges, b, a, true, filter),
        link_count(edges, a, b, false, filter) == link_count(edges, b, a, true, filter),
    decreases edges.len(),
{
    if edges.len() > 0 {
        lemma_link_symmetric(edges.drop_last(), a, b, filter);
    }
}

/// With room for every symbol, a ranked neighbor answer lists the symbol of row `j`
/// with count `c` exactly when some selected edge links it to `anchor` and `c` is
/// the total of those edges.
proof fn lemma_neighbor_listed(
    m: StoreModel,
    anchor: Seq<char>,
    incoming: bool,
    filter: Option<Seq<char>>,
    limit: nat,
    res: Seq<CallerCountView>,
    j: int,
    c: u64,
)
    requires
        m.wf(),
        m.symbols.len() <= usize::MAX,
        0 <= j < m.symbols.len(),
        limit >= m.symbols.len(),
        m.neighbors_answer(anchor, incoming, filter, limit, res),
    ensures
        (exists|i: int|
            #![trigger res[i]]
            0 <= i < res.len() && res[i].symbol is Some && symbol_key(res[i].symbol->0)
                == m.symbols[j].id && res[i].count == c) <==> (link_count(
            m.edges,
            anchor,
            m.symbols[j].id,
            incoming,
            filter,
        ) > 0 && c == link_total(m.edges, anchor, m.symbols[j].id, incoming, filter) as u64),
{
    let other = m.symbols[j].id;
    let member = m.neighbor_member(anchor, incoming, filter);
    let groups = m.neighbor_groups(anchor, incoming, filter);
    let vals = m.neighbor_totals(anchor, incoming, filter).map_values(|v: int| v as u64);
    crate::answers::lemma_indices_where_bound(m.symbols.len(), member);
    lemma_indices_where_member(m.symbols.len(), member);
    let sel = choose|sel: Seq<usize>|
        #[trigger] is_top_k(vals, limit, sel) && res.len() == sel.len() && forall|i: int|
            0 <= i < sel.len() ==> #[trigger] res[i] == caller_entry(
                m.symbols[groups[sel[i] as int] as int].symbol,
                vals[sel[i] as int],
            );
    if exists|i: int|
        #![trigger res[i]]
        0 <= i < res.len() && res[i].symbol is Some && symbol_key(res[i].symbol->0) == other
            && res[i].count == c {
        let i = choose|i: int|
            #![trigger res[i]]
            0 <= i < res.len() && res[i].symbol is Some && symbol_key(res[i].symbol->0) == other
                && res[i].count == c;
        let q = sel[i] as int;
        let g = groups[q] as int;
        assert(res[i] == caller_entry(m.symbols[g].symbol, vals[q]));
        assert(0 <= g < m.symbols.len());
        assert(m.symbols[g].id == symbol_key(m.symbols[g].symbol));
        if g < j {
            assert(m.symbols[g].id != m.symbols[j].id);
        } else if j < g {
            assert(m.symbols[j].id != m.symbols[g].id);
        }
        assert(g == j);
        assert(member(groups[q] as int));
    }
    if link_count(m.edges, anchor, other, incoming, filter) > 0 {
        assert(member(j));
        lemma_indices_where_contains(m.symbols.len(), member, j);
        let q = choose|q: int| 0 <= q < groups.len() && #[trigger] groups[q] == j;
        assert(sel.contains(q as usize));
        let w = choose|w: int| 0 <= w < sel.len() && sel[w] == q as usize;
        assert(res[w] == caller_entry(m.symbols[j].symbol, vals[q]));
        assert(m.symbols[j].id == symbol_key(m.symbols[j].symbol));
        if c == link_total(m.edges, anchor, other, incoming, filter) as u64 {
            assert(res[w].symbol is Some && symbol_key(res[w].symbol->0) == other
                && res[w].count == c);
        }
    }
}

/// Callers and callees are two views of the same edges: once the limit leaves room
/// for every symbol, `b` is listed among the callees of `a` with count `c` exactly
/// when `a` is listed among the callers of `b` with count `c`.
pub proof fn law_callers_callees_symmetric(
    m: StoreModel,
    a: SymbolIdView,
    b: SymbolIdView,
    filter: Option<Seq<char>>,
    limit: nat,
    callees_of_a: Seq<CallerCountView>,
    callers_of_b: Seq<CallerCountView>,
    c: u64,
)
    requires
        m.wf(),
        m.symbols.len() <= usize::MAX,
        m.has_symbol(symbol_key(a)),
        m.has_symbol(symbol_key(b)),
        limit >= m.symbols.len(),
        m.neighbors_answer(symbol_key(a), false, filter, limit, callees_of_a),
        m.neighbors_answer(symbol_key(b), true, filter, limit, callers_of_b),
    ensures
        (exists|i: int|
            #![trigger callees_of_a[i]]
            0 <= i < callees_of_a.len() && callees_of_a[i].symbol is Some && symbol_key(
                callees_of_a[i].symbol->0,
            ) == symbol_key(b) && callees_of_a[i].count == c) <==> (exists|i: int|
            #![trigger callers_of_b[i]]
            0 <= i < callers_of_b.len() && callers_of_b[i].symbol is Some && symbol_key(
                callers_of_b[i].symbol->0,
            ) == symbol_key(a) && callers_of_b[i].count == c),
{
    let ka = symbol_key(a);
    let kb = symbol_key(b);
    let ja = m.symbol_at(ka);
    let jb = m.symbol_at(kb);
    lemma_neighbor_listed(m, ka, false, filter, limit, callees_of_a, jb, c);
    lemma_neighbor_listed(m, kb, true, filter, limit, callers_of_b, ja, c);
    lemma_link_symmetric(m.edges, ka, kb, filter);
}


/// The store after the status updates `updates` (window id, status, end time), in order.
pub open spec fn apply_probe_updates(
    m: StoreModel,
    updates: Seq<(Seq<char>, Seq<char>, Option<u64>)>,
) -> StoreModel
    decreases updates.len(),
{
    if updates.len() == 0 {
        m
    } else {
        let u = updates.last();
        apply_probe_updates(m, updates.drop_last()).update_probe(u.0, u.1, u.2)
    }
}

/// Status and end time of the last update in `updates` that names window `id`.
pub open spec fn last_probe_update(
    updates: Seq<(Seq<char>, Seq<char>, Option<u64>)>,
    id: Seq<char>,
) -> Option<(Seq<char>, Option<u64>)>
    decreases updates.len(),
{
    if updates.len() == 0 {
        None
    } else if updates.last().0 == id {
        Some((updates.last().1, updates.last().2))
    } else {
        last_probe_update(updates.drop_last(), id)
    }
}

/// Status updates keep every window in place and change only status and end time,
/// each to what the last update naming the window set.
proof fn lemma_probe_updates(m: StoreModel, updates: Seq<(Seq<char>, Seq<char>, Option<u64>)>)
    ensures
        ({
            let a = apply_probe_updates(m, updates);
            &&& a.probes.len() == m.probes.len()
            &&& forall|i: int|
                0 <= i < m.probes.len() ==> {
                    let w = #[trigger] a.probes[i];
                    let o = m.probes[i];
                    &&& w.id == o.id
                    &&& w.session_id == o.session_id
                    &&& w.started_at_ms == o.started_at_ms
                    &&& w.duration_s == o.duration_s
                    &&& w.targets_json == o.targets_json
                    &&& match last_probe_update(updates, o.id) {
                        Some(u) => w.status == u.0 && w.ended_at_ms == u.1,
                        None => w.status == o.status && w.ended_at_ms == o.ended_at_ms,
                    }
                }
        }),
    decreases updates.len(),
{
    if updates.len() > 0 {
        lemma_probe_updates(m, updates.drop_last());
        let prev = apply_probe_updates(m, updates.drop_last());
        let a = apply_probe_updates(m, updates);
        assert forall|i: int| 0 <= i < m.probes.len() implies {
            let w = #[trigger] a.probes[i];
            let o = m.probes[i];
            &&& w.id == o.id
            &&& w.session_id == o.session_id
            &&& w.started_at_ms == o.started_at_ms
            &&& w.duration_s == o.duration_s
            &&& w.targets_json == o.targets_json
            &&& match last_probe_update(updates, o.id) {
                Some(u) => w.status == u.0 && w.ended_at_ms == u.1,
                None => w.status == o.status && w.ended_at_ms == o.ended_at_ms,
            }
        } by {
            assert(prev.probes[i].id == m.probes[i].id);
        }
    }
}

/// A probe window reads back as it was created, through any number of later status
/// updates (of it or of other windows): same id, session, start, duration and
/// targets; its status and end time are those of the last update naming it, or
/// `active` and none when no update named it.
pub proof fn law_probe_window_reads_back(
    m: StoreModel,
    id: Seq<char>,
    session_id: Option<Seq<char>>,
    started_at_ms: u64,
    duration_s: u64,
    targets_json: Seq<char>,
    updates: Seq<(Seq<char>, Seq<char>, Option<u64>)>,
)
    requires
        !m.has_probe(id),
    ensures
        ({
            let a = apply_probe_updates(
                m.add_probe(id, session_id, started_at_ms, duration_s, targets_json),
                updates,
            );
            let w = a.probes[a.probe_at(id)];
            &&& a.has_probe(id)
            &&& w.id == id
            &&& w.session_id == session_id
            &&& w.started_at_ms == started_at_ms
            &&& w.duration_s == duration_s
            &&& w.targets_json == targets_json
            &&& match last_probe_update(updates, id) {
                Some(u) => w.status == u.0 && w.ended_at_ms == u.1,
                None => w.status == "active"@ && w.ended_at_ms is None,
            }
        }),
{
    let b = m.add_probe(id, session_id, started_at_ms, duration_s, targets_json);
    let a = apply_probe_updates(b, updates);
    let p = m.probes.len() as int;
    lemma_probe_updates(b, updates);
    assert(b.probes[p].id == id);
    assert(a.probes[p].id == id);
    assert(a.has_probe(id));
    let q = a.probe_at(id);
    if q != p {
        assert(a.probes[q].id == b.probes[q].id);
        assert(b.probes[q] == m.probes[q]);
        assert(false);
    }
}


/// Two answers of the same ranked neighbor query (for instance the top callers of
/// a runtime summary and a callers query with limit ten, on the same store and
/// session filter) have the same length and the same counts in the same order;
/// they can differ only in which of several symbols with equal counts is listed.
pub proof fn law_ranked_neighbors_agree(
    m: StoreModel,
    anchor: Seq<char>,
    incoming: bool,
    filter: Option<Seq<char>>,
    limit: nat,
    first: Seq<CallerCountView>,
    second: Seq<CallerCountView>,
)
    requires
        m.neighbors_answer(anchor, incoming, filter, limit, first),
        m.neighbors_answer(anchor, incoming, filter, limit, second),
    ensures
        first.len() == second.len(),
        forall|i: int| 0 <= i < first.len() ==> #[trigger] first[i].count == second[i].count,
{
    let groups = m.neighbor_groups(anchor, incoming, filter);
    let vals = m.neighbor_totals(anchor, incoming, filter).map_values(|v: int| v as u64);
    let sel1 = choose|sel: Seq<usize>|
        #[trigger] is_top_k(vals, limit, sel) && first.len() == sel.len() && forall|i: int|
            0 <= i < sel.len() ==> #[trigger] first[i] == caller_entry(
                m.symbols[groups[sel[i] as int] as int].symbol,
                vals[sel[i] as int],
            );
    let sel2 = choose|sel: Seq<usize>|
        #[trigger] is_top_k(vals, limit, sel) && second.len() == sel.len() && forall|i: int|
            0 <= i < sel.len() ==> #[trigger] second[i] == caller_entry(
                m.symbols[groups[sel[i] as int] as int].symbol,
                vals[sel[i] as int],
            );
    crate::ranking::lemma_top_k_values_agree(vals, limit, sel1, sel2);
    assert forall|i: int| 0 <= i < first.len() implies #[trigger] first[i].count == second[i].count by {
        assert(first[i] == caller_entry(m.symbols[groups[sel1[i] as int] as int].symbol, vals[sel1[i] as int]));
        assert(second[i] == caller_entry(m.symbols[groups[sel2[i] as int] as int].symbol, vals[sel2[i] as int]));
        assert(vals[sel1[i] as int] == vals[sel2[i] as int]);
    }
}


/// The p95 a runtime summary reports is the largest p95 of the statistics rows it
/// covers: no covered row (same symbol, admitted by the session filter) has a
/// larger one, and it is the p95 of some covered row, or 0 when none is covered.
pub proof fn law_summary_p95_is_the_maximum(
    stats: Seq<StatRecord>,
    id: Seq<char>,
    filter: Option<Seq<char>>,
)
    ensures
        forall|k: int|
            0 <= k < stats.len() && stats[k].symbol_id == id && session_matches(
                filter,
                stats[k].session_id,
            ) ==> #[trigger] stats[k].duration_ns_p95 <= crate::answers::stat_max_p95(
                stats,
                id,
                filter,
            ),
        crate::answers::stat_max_p95(stats, id, filter) == 0 || exists|k: int|
            0 <= k < stats.len() && stats[k].symbol_id == id && session_matches(
                filter,
                stats[k].session_id,
            ) && #[trigger] stats[k].duration_ns_p95 == crate::answers::stat_max_p95(
                stats,
                id,
                filter,
            ),
    decreases stats.len(),
{
    if stats.len() > 0 {
        let pre = stats.drop_last();
        law_summary_p95_is_the_maximum(pre, id, filter);
        let best = crate::answers::stat_max_p95(stats, id, filter);
        let rest = crate::answers::stat_max_p95(pre, id, filter);
        assert forall|k: int|
            0 <= k < stats.len() && stats[k].symbol_id == id && session_matches(
                filter,
                stats[k].session_id,
            ) implies #[trigger] stats[k].duration_ns_p95 <= best by {
            if k < stats.len() - 1 {
                assert(pre[k] == stats[k]);
            }
        }
        if best != 0 {
            if best == rest {
                let k = choose|k: int|
                    0 <= k < pre.len() && pre[k].symbol_id == id && session_matches(
                        filter,
                        pre[k].session_id,
                    ) && #[trigger] pre[k].duration_ns_p95 == rest;
                assert(stats[k] == pre[k]);
            } else {
                assert(stats[stats.len() - 1].duration_ns_p95 == best);
            }
        }
    }
}

/// After an upsert of window `(session_id, symbol_id, window_start_ms)`, whether or
/// not that window had a row before, it has one, and every row with that key
/// carries the new window end and the new p50 and p95.
pub proof fn law_upsert_takes_the_new_window_values(
    m: StoreModel,
    session_id: Seq<char>,
    symbol_id: Seq<char>,
    window_start_ms: u64,
    window_end_ms: u64,
    invocations: u64,
    exceptions: u64,
    duration_ns_p50: u64,
    duration_ns_p95: u64,
)
    ensures
        ({
            let after = m.upsert_stat(
                session_id,
                symbol_id,
                window_start_ms,
                window_end_ms,
                invocations,
                exceptions,
                duration_ns_p50,
                duration_ns_p95,
            );
            &&& exists|k: int|
                0 <= k < after.stats.len() && #[trigger] after.stats[k].session_id == session_id
                    && after.stats[k].symbol_id == symbol_id && after.stats[k].window_start_ms
                    == window_start_ms
            &&& forall|k: int|
                0 <= k < after.stats.len() && #[trigger] after.stats[k].session_id == session_id
                    && after.stats[k].symbol_id == symbol_id && after.stats[k].window_start_ms
                    == window_start_ms ==> after.stats[k].window_end_ms == window_end_ms
                    && after.stats[k].duration_ns_p50 == duration_ns_p50
                    && after.stats[k].duration_ns_p95 == duration_ns_p95
        }),
{
    let after = m.upsert_stat(
        session_id,
        symbol_id,
        window_start_ms,
        window_end_ms,
        invocations,
        exceptions,
        duration_ns_p50,
        duration_ns_p95,
    );
    if m.has_stat(session_id, symbol_id, window_start_ms) {
        let i = choose|i: int|
            0 <= i < m.stats.len() && StoreModel::stat_key_matches(
                #[trigger] m.stats[i],
                session_id,
                symbol_id,
                window_start_ms,
            );
        assert(after.stats[i].session_id == session_id);
    } else {
        let n = m.stats.len() as int;
        assert(after.stats[n].session_id == session_id);
        assert forall|k: int|
            0 <= k < after.stats.len() && #[trigger] after.stats[k].session_id == session_id
                && after.stats[k].symbol_id == symbol_id && after.stats[k].window_start_ms
                == window_start_ms implies after.stats[k].window_end_ms == window_end_ms
                && after.stats[k].duration_ns_p50 == duration_ns_p50
                && after.stats[k].duration_ns_p95 == duration_ns_p95 by {
            if k < n {
                assert(after.stats[k] == m.stats[k]);
                assert(StoreModel::stat_key_matches(m.stats[k], session_id, symbol_id, window_start_ms));
            }
        }
    }
}

/// Indexing a symbol in build `build_id`, whether it had a row before (from runtime
/// or from an earlier build) or not, leaves it a row, and every row with its id
/// belongs to `build_id` and carries the facts given.
pub proof fn law_indexing_moves_the_symbol_to_the_build(
    m: StoreModel,
    build_id: Seq<char>,
    symbol: SymbolIdView,
    kind: Seq<char>,
    start_line: u32,
    end_line: u32,
    param_count: u32,
    complexity: u32,
    syntactic_callee_count: u32,
)
    ensures
        ({
            let after = m.insert_indexed_symbol(
                build_id,
                symbol,
                kind,
                start_line,
                end_line,
                param_count,
                complexity,
                syntactic_callee_count,
            );
            &&& exists|k: int|
                0 <= k < after.symbols.len() && #[trigger] after.symbols[k].id == symbol_key(symbol)
            &&& forall|k: int|
                0 <= k < after.symbols.len() && #[trigger] after.symbols[k].id == symbol_key(symbol)
                    ==> after.symbols[k].build_id == Some(build_id) && after.symbols[k].kind == kind
                    && after.symbols[k].start_line == start_line && after.symbols[k].end_line
                    == end_line && after.symbols[k].param_count == param_count
                    && after.symbols[k].complexity == complexity
                    && after.symbols[k].syntactic_callee_count == syntactic_callee_count
        }),
{
    let key = symbol_key(symbol);
    let after = m.insert_indexed_symbol(
        build_id,
        symbol,
        kind,
        start_line,
        end_line,
        param_count,
        complexity,
        syntactic_callee_count,
    );
    if m.has_symbol(key) {
        let i = choose|i: int| 0 <= i < m.symbols.len() && #[trigger] m.symbols[i].id == key;
        assert(after.symbols[i].id == key);
    } else {
        let n = m.symbols.len() as int;
        assert(after.symbols[n].id == key);
        assert forall|k: int|
            0 <= k < after.symbols.len() && #[trigger] after.symbols[k].id == key implies after.symbols[k].build_id
            == Some(build_id) && after.symbols[k].kind == kind && after.symbols[k].start_line
            == start_line && after.symbols[k].end_line == end_line
            && after.symbols[k].param_count == param_count && after.symbols[k].complexity
            == complexity && after.symbols[k].syntactic_callee_count == syntactic_callee_count by {
            if k < n {
                assert(after.symbols[k] == m.symbols[k]);
            }
        }
    }
}

/// Every window an active-windows answer lists has status `active` and is visible
/// to the filter: no filter, or the filter's session, or no session.
pub proof fn law_listed_windows_are_active(
    m: StoreModel,
    filter: Option<Seq<char>>,
    res: Seq<crate::model::ProbeRecord>,
)
    requires
        m.probes.len() <= usize::MAX,
        m.active_answer(filter, res),
    ensures
        forall|i: int|
            0 <= i < res.len() ==> #[trigger] res[i].status == "active"@ && (filter is None
                || res[i].session_id is None || res[i].session_id == filter),
{
    let member = m.active_member(filter);
    let groups = m.active_groups(filter);
    let vals = groups.map_values(|j: usize| m.probes[j as int].started_at_ms);
    crate::answers::lemma_indices_where_bound(m.probes.len(), member);
    lemma_indices_where_member(m.probes.len(), member);
    let sel = choose|sel: Seq<usize>|
        #[trigger] is_top_k(vals, groups.len(), sel) && res.len() == sel.len() && forall|i: int|
            0 <= i < sel.len() ==> #[trigger] res[i] == m.probes[groups[sel[i] as int] as int];
    assert forall|i: int| 0 <= i < res.len() implies #[trigger] res[i].status == "active"@ && (
    filter is None || res[i].session_id is None || res[i].session_id == filter) by {
        assert(res[i] == m.probes[groups[sel[i] as int] as int]);
        assert(member(groups[sel[i] as int] as int));
    }
}

/// A window whose status was set to anything but `active` is listed by no
/// active-windows answer, whatever the filter.
pub proof fn law_ended_window_is_not_active(
    m: StoreModel,
    id: Seq<char>,
    status: Seq<char>,
    ended_at_ms: Option<u64>,
    filter: Option<Seq<char>>,
    res: Seq<crate::model::ProbeRecord>,
)
    requires
        m.probes.len() <= usize::MAX,
        status != "active"@,
        m.update_probe(id, status, ended_at_ms).active_answer(filter, res),
    ensures
        forall|i: int| 0 <= i < res.len() ==> #[trigger] res[i].id != id,
{
    let after = m.update_probe(id, status, ended_at_ms);
    law_listed_windows_are_active(after, filter, res);
    let member = after.active_member(filter);
    let groups = after.active_groups(filter);
    let vals = groups.map_values(|j: usize| after.probes[j as int].started_at_ms);
    crate::answers::lemma_indices_where_bound(after.probes.len(), member);
    let sel = choose|sel: Seq<usize>|
        #[trigger] is_top_k(vals, groups.len(), sel) && res.len() == sel.len() && forall|i: int|
            0 <= i < sel.len() ==> #[trigger] res[i] == after.probes[groups[sel[i] as int] as int];
    assert forall|i: int| 0 <= i < res.len() implies #[trigger] res[i].id != id by {
        let g = groups[sel[i] as int] as int;
        assert(res[i] == after.probes[g]);
        assert(res[i].status == "active"@);
    }
}

/// No statistics row of symbol `id` that the filter admits counted an invocation.
pub open spec fn no_invocation_counted(
    stats: Seq<StatRecord>,
    id: Seq<char>,
    filter: Option<Seq<char>>,
) -> bool {
    forall|k: int|
        0 <= k < stats.len() && #[trigger] stats[k].symbol_id == id && session_matches(
            filter,
            stats[k].session_id,
        ) ==> stats[k].invocations == 0
}

/// An indexed symbol at least as complex as the threshold that never counted an
/// invocation in the statistics the filter admits (rows with zero invocations do
/// not count as running) is listed as uncovered once the limit leaves room for
/// every symbol.
pub proof fn law_idle_indexed_symbol_is_uncovered(
    m: StoreModel,
    j: int,
    min_complexity: int,
    filter: Option<Seq<char>>,
    limit: nat,
    res: Seq<UncoveredView>,
)
    requires
        m.symbols.len() <= usize::MAX,
        0 <= j < m.symbols.len(),
        m.symbols[j].build_id is Some,
        m.symbols[j].complexity >= min_complexity,
        no_invocation_counted(m.stats, m.symbols[j].id, filter),
        limit >= m.symbols.len(),
        m.uncovered_answer(min_complexity, limit, filter, res),
    ensures
        exists|i: int|
            0 <= i < res.len() && #[trigger] res[i].symbol == m.symbols[j].symbol
                && res[i].complexity == m.symbols[j].complexity as i64,
{
    let member = m.uncovered_member(min_complexity, filter);
    let groups = m.uncovered_groups(min_complexity, filter);
    let vals = groups.map_values(|g: usize| m.symbols[g as int].complexity as u64);
    assert(!m.ran(m.symbols[j].id, filter));
    assert(member(j));
    lemma_indices_where_contains(m.symbols.len(), member, j);
    crate::answers::lemma_indices_where_bound(m.symbols.len(), member);
    let q = choose|q: int| 0 <= q < groups.len() && #[trigger] groups[q] == j;
    let sel = choose|sel: Seq<usize>|
        #[trigger] is_top_k(vals, limit, sel) && res.len() == sel.len() && forall|i: int|
            0 <= i < sel.len() ==> #[trigger] res[i] == UncoveredView {
                symbol: m.symbols[groups[sel[i] as int] as int].symbol,
                complexity: m.symbols[groups[sel[i] as int] as int].complexity as i64,
                path: m.symbols[groups[sel[i] as int] as int].symbol.path,
            };
    assert(sel.contains(q as usize));
    let w = choose|w: int| 0 <= w < sel.len() && sel[w] == q as usize;
    assert(res[w].symbol == m.symbols[j].symbol);
}

/// Every symbol an uncovered answer lists is an indexed symbol at least as complex
/// as the threshold, none of whose filter-admitted statistics rows counted an
/// invocation.
pub proof fn law_uncovered_symbols_never_ran(
    m: StoreModel,
    min_complexity: int,
    filter: Option<Seq<char>>,
    limit: nat,
    res: Seq<UncoveredView>,
)
    requires
        m.symbols.len() <= usize::MAX,
        m.uncovered_answer(min_complexity, limit, filter, res),
    ensures
        forall|i: int|
            0 <= i < res.len() ==> #[trigger] idle_indexed_entry(m, min_complexity, filter, res[i]),
{
    assert forall|i: int| 0 <= i < res.len() implies #[trigger] idle_indexed_entry(
        m,
        min_complexity,
        filter,
        res[i],
    ) by {
        let j = lemma_listed_row_never_ran(m, min_complexity, filter, limit, res, i);
        assert(listed_row_never_ran(m, j, min_complexity, filter, res[i]));
    }
}

/// `entry` lists some symbol row as `listed_row_never_ran` describes.
pub open spec fn idle_indexed_entry(
    m: StoreModel,
    min_complexity: int,
    filter: Option<Seq<char>>,
    entry: UncoveredView,
) -> bool {
    exists|j: int|
        0 <= j < m.symbols.len() && #[trigger] listed_row_never_ran(
            m,
            j,
            min_complexity,
            filter,
            entry,
        )
}

/// Row `j` is an indexed symbol at least as complex as the threshold, listed as
/// `entry` with its complexity, and none of its filter-admitted statistics rows
/// counted an invocation.
pub open spec fn listed_row_never_ran(
    m: StoreModel,
    j: int,
    min_complexity: int,
    filter: Option<Seq<char>>,
    entry: UncoveredView,
) -> bool {
    &&& m.symbols[j].symbol == entry.symbol
    &&& m.symbols[j].build_id is Some
    &&& m.symbols[j].complexity >= min_complexity
    &&& entry.complexity == m.symbols[j].complexity as i64
    &&& no_invocation_counted(m.stats, m.symbols[j].id, filter)
}

proof fn lemma_listed_row_never_ran(
    m: StoreModel,
    min_complexity: int,
    filter: Option<Seq<char>>,
    limit: nat,
    res: Seq<UncoveredView>,
    i: int,
) -> (j: int)
    requires
        m.symbols.len() <= usize::MAX,
        m.uncovered_answer(min_complexity, limit, filter, res),
        0 <= i < res.len(),
    ensures
        0 <= j < m.symbols.len(),
        listed_row_never_ran(m, j, min_complexity, filter, res[i]),
{
    let member = m.uncovered_member(min_complexity, filter);
    let groups = m.uncovered_groups(min_complexity, filter);
    let vals = groups.map_values(|g: usize| m.symbols[g as int].complexity as u64);
    crate::answers::lemma_indices_where_bound(m.symbols.len(), member);
    lemma_indices_where_member(m.symbols.len(), member);
    let sel = choose|sel: Seq<usize>|
        #[trigger] is_top_k(vals, limit, sel) && res.len() == sel.len() && forall|i: int|
            0 <= i < sel.len() ==> #[trigger] res[i] == UncoveredView {
                symbol: m.symbols[groups[sel[i] as int] as int].symbol,
                complexity: m.symbols[groups[sel[i] as int] as int].complexity as i64,
                path: m.symbols[groups[sel[i] as int] as int].symbol.path,
            };
    let g = groups[sel[i] as int] as int;
    assert(res[i] == UncoveredView {
        symbol: m.symbols[g].symbol,
        complexity: m.symbols[g].complexity as i64,
        path: m.symbols[g].symbol.path,
    });
    assert(member(g));
    assert forall|k: int|
        0 <= k < m.stats.len() && #[trigger] m.stats[k].symbol_id == m.symbols[g].id
            && session_matches(filter, m.stats[k].session_id) implies m.stats[k].invocations
        == 0 by {
        if m.stats[k].invocations > 0 {
            assert(m.ran(m.symbols[g].id, filter));
        }
    }
    assert(listed_row_never_ran(m, g, min_complexity, filter, res[i]));
    g
}


/// After `ensure_session`, the session has a row; every row with its id carries
/// the new process id, takes the language given when one is, and otherwise keeps
/// its language; an existing row keeps its start time, a new one has the time given.
pub proof fn law_ensure_session_refreshes(
    m: StoreModel,
    id: Seq<char>,
    language: Option<Seq<char>>,
    process_id: u32,
    started_at_ms: u64,
)
    ensures
        ({
            let after = m.ensure_session(id, language, process_id, started_at_ms);
            &&& after.sessions.len() >= m.sessions.len()
            &&& exists|k: int| 0 <= k < after.sessions.len() && #[trigger] after.sessions[k].id == id
            &&& forall|k: int|
                0 <= k < after.sessions.len() && #[trigger] after.sessions[k].id == id ==> {
                    &&& after.sessions[k].process_id == process_id
                    &&& language is Some ==> after.sessions[k].language == language
                    &&& k < m.sessions.len() ==> after.sessions[k].started_at_ms
                        == m.sessions[k].started_at_ms && (language is None
                        ==> after.sessions[k].language == m.sessions[k].language)
                    &&& k >= m.sessions.len() ==> after.sessions[k].started_at_ms == started_at_ms
                        && after.sessions[k].language == language
                }
        }),
{
    let after = m.ensure_session(id, language, process_id, started_at_ms);
    if m.has_session(id) {
        let i = choose|i: int| 0 <= i < m.sessions.len() && #[trigger] m.sessions[i].id == id;
        assert(after.sessions[i].id == id);
    } else {
        let n = m.sessions.len() as int;
        assert(after.sessions[n].id == id);
        assert forall|k: int| 0 <= k < after.sessions.len() && #[trigger] after.sessions[k].id == id
            implies k == n by {
            if k < n {
                assert(after.sessions[k] == m.sessions[k]);
            }
        }
    }
}

/// The static callees compared for `key` are exactly the callees of the static edges
/// from `key` that have a symbol row: each listed id is such an edge's callee, each
/// such callee is listed, and each listed name is the qualified name of the row
/// with that id.
pub proof fn law_static_callees_are_the_static_edges(m: StoreModel, key: Seq<char>)
    ensures
        m.static_names(key).len() == m.static_ids(key).len(),
        forall|q: int|
            0 <= q < m.static_ids(key).len() ==> m.has_symbol(#[trigger] m.static_ids(key)[q])
                && m.static_names(key)[q] == m.symbols[m.symbol_at(m.static_ids(key)[q])].symbol.qualname
                && exists|e: int|
                0 <= e < m.static_edges.len() && m.static_edges[e].caller_id == key
                    && #[trigger] m.static_edges[e].callee_id == m.static_ids(key)[q],
        forall|e: int|
            0 <= e < m.static_edges.len() && m.static_edges[e].caller_id == key && m.has_symbol(
                #[trigger] m.static_edges[e].callee_id,
            ) ==> m.static_ids(key).contains(m.static_edges[e].callee_id),
{
    lemma_static_upto(m, key, m.static_edges.len());
}

proof fn lemma_static_upto(m: StoreModel, key: Seq<char>, n: nat)
    requires
        n <= m.static_edges.len(),
    ensures
        m.static_names_upto(key, n).len() == m.static_ids_upto(key, n).len(),
        forall|q: int|
            0 <= q < m.static_ids_upto(key, n).len() ==> m.has_symbol(
                #[trigger] m.static_ids_upto(key, n)[q],
            ) && m.static_names_upto(key, n)[q] == m.symbols[m.symbol_at(
                m.static_ids_upto(key, n)[q],
            )].symbol.qualname && exists|e: int|
                0 <= e < n && m.static_edges[e].caller_id == key
                    && #[trigger] m.static_edges[e].callee_id == m.static_ids_upto(key, n)[q],
        forall|e: int|
            0 <= e < n && m.static_edges[e].caller_id == key && m.has_symbol(
                #[trigger] m.static_edges[e].callee_id,
            ) ==> m.static_ids_upto(key, n).contains(m.static_edges[e].callee_id),
    decreases n,
{
    if n > 0 {
        let p = (n - 1) as nat;
        lemma_static_upto(m, key, p);
        let ids = m.static_ids_upto(key, n);
        let prev = m.static_ids_upto(key, p);
        assert forall|q: int| 0 <= q < ids.len() implies m.has_symbol(#[trigger] ids[q])
            && m.static_names_upto(key, n)[q] == m.symbols[m.symbol_at(ids[q])].symbol.qualname
            && exists|e: int|
            0 <= e < n && m.static_edges[e].caller_id == key && #[trigger] m.static_edges[e].callee_id
                == ids[q] by {
            if q < prev.len() {
                assert(ids[q] == prev[q]);
                let e = choose|e: int|
                    0 <= e < p && m.static_edges[e].caller_id == key
                        && #[trigger] m.static_edges[e].callee_id == prev[q];
                assert(m.static_edges[e].callee_id == ids[q]);
            } else {
                assert(m.static_edges[p as int].callee_id == ids[q]);
            }
        }
        assert forall|e: int|
            0 <= e < n && m.static_edges[e].caller_id == key && m.has_symbol(
                #[trigger] m.static_edges[e].callee_id,
            ) implies ids.contains(m.static_edges[e].callee_id) by {
            if e < p {
                let w = choose|w: int| 0 <= w < prev.len() && prev[w] == m.static_edges[e].callee_id;
                assert(ids[w] == prev[w]);
            } else {
                assert(ids[ids.len() - 1] == m.static_edges[e].callee_id);
            }
        }
    }
}

} // verus!
