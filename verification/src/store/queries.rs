//! The read side of the store: ranked runtime answers, per-symbol summaries,
//! static/runtime comparison, uncovered symbols and probe windows.

use vstd::prelude::*;

use super::{opt_owned, opt_string, opt_text, ProbeWindowRow, Result, StatRow, Store, StoreError};
use crate::answers::{
    caller_entry, indices_where, lemma_indices_where_bound, lemma_link_total_bound,
    lemma_stat_total_bound, link_count, link_total, metric_field, names_of_ids_not_in, stat_count,
    stat_field, stat_max_p95, stat_total, static_view_of, StatField,
};
use crate::identity::symbol_key;
use crate::model::{session_matches, u64_max};
use crate::protocol::{
    texts, CallerCount, CompareStaticRuntime, FunctionRuntimeSummary, HotPathEntry, HotPathView,
    StaticSummary, SymbolId, UncoveredSymbol, UncoveredView,
};
use crate::ranking::{is_top_k, top_k};

verus! {

fn session_ok(filter: &Option<String>, session_id: &String) -> (b: bool)
    ensures
        b == session_matches(opt_string(*filter), session_id@),
{
    match filter {
        Some(s) => *s == *session_id,
        None => true,
    }
}

fn field_value(row: &StatRow, field: StatField) -> (v: u64)
    ensures
        v == stat_field(row@, field),
{
    match field {
        StatField::Invocations => row.invocations,
        StatField::Exceptions => row.exceptions,
        StatField::DurationP50 => row.duration_ns_p50,
        StatField::DurationP95 => row.duration_ns_p95,
    }
}

/// The statistics counter a metric name selects.
fn metric_to_field(metric: &str) -> (f: StatField)
    ensures
        f == metric_field(metric@),
{
    let m = metric.to_owned();
    if m == "duration_p95".to_owned() {
        StatField::DurationP95
    } else if m == "exceptions".to_owned() {
        StatField::Exceptions
    } else {
        StatField::Invocations
    }
}

fn contains_text(v: &Vec<String>, x: &String) -> (b: bool)
    ensures
        b == texts(v@).contains(x@),
{
    let n = v.len();
    let mut i: usize = 0;
    while i < n
        invariant
            n == v.len(),
            i <= n,
            forall|k: int| 0 <= k < i ==> #[trigger] v@[k]@ != x@,
        decreases n - i,
    {
        if v[i] == *x {
            assert(texts(v@)[i as int] == x@);
            return true;
        }
        i = i + 1;
    }
    assert(!texts(v@).contains(x@)) by {
        if texts(v@).contains(x@) {
            let w = choose|w: int| 0 <= w < texts(v@).len() && texts(v@)[w] == x@;
            assert(v@[w]@ == x@);
        }
    }
    false
}

/// The entries of `names` whose paired entry of `ids` is not in `other`, in order.
fn names_of_ids_not_in_vec(ids: &Vec<String>, names: &Vec<String>, other: &Vec<String>) -> (r: Vec<
    String,
>)
    requires
        ids.len() == names.len(),
    ensures
        texts(r@) == names_of_ids_not_in(texts(ids@), texts(names@), texts(other@)),
{
    let ghost ti = texts(ids@);
    let ghost tn = texts(names@);
    let mut r: Vec<String> = Vec::new();
    let n = ids.len();
    let mut i: usize = 0;
    while i < n
        invariant
            n == ids.len(),
            n == names.len(),
            ti == texts(ids@),
            tn == texts(names@),
            i <= n,
            texts(r@) == names_of_ids_not_in(ti.take(i as int), tn, texts(other@)),
        decreases n - i,
    {
        assert(ti.take(i + 1).drop_last() =~= ti.take(i as int));
        assert(ti.take(i + 1).last() == ids@[i as int]@);
        if !contains_text(other, &ids[i]) {
            r.push(names[i].clone());
        }
        i = i + 1;
        assert(texts(r@) =~= names_of_ids_not_in(ti.take(i as int), tn, texts(other@)));
    }
    assert(ti.take(n as int) =~= ti);
    r
}

impl Store {
    /// Sum of `field` and number of rows over the selected statistics rows of symbol `id`.
    fn stat_sums(&self, id: &String, filter: &Option<String>, field: StatField) -> (r: (u128, usize))
        ensures
            r.0 == stat_total(self@.stats, id@, opt_string(*filter), field),
            r.1 == stat_count(self@.stats, id@, opt_string(*filter)),
            r.1 <= self@.stats.len(),
    {
        let ghost fv = opt_string(*filter);
        let ghost stats = self@.stats;
        let n = self.stats.len();
        let mut acc: u128 = 0;
        let mut cnt: usize = 0;
        let mut i: usize = 0;
        while i < n
            invariant
                n == self.stats.len(),
                stats == self@.stats,
                fv == opt_string(*filter),
                i <= n,
                cnt <= i,
                acc == stat_total(stats.take(i as int), id@, fv, field),
                cnt == stat_count(stats.take(i as int), id@, fv),
            decreases n - i,
        {
            let ghost prefix = stats.take(i + 1);
            assert(prefix.drop_last() =~= stats.take(i as int));
            assert(prefix.last() == self.stats@[i as int]@);
            let row = &self.stats[i];
            if row.symbol_id == *id && session_ok(filter, &row.session_id) {
                proof {
                    lemma_stat_total_bound(prefix, id@, fv, field);
                    let k = (i + 1) as int;
                    assert(k * u64_max() <= 0xffff_ffff_ffff_ffffint * u64_max()) by (nonlinear_arith)
                        requires
                            k <= 0xffff_ffff_ffff_ffffint,
                    ;
                }
                acc = acc + field_value(row, field) as u128;
                cnt = cnt + 1;
            }
            i = i + 1;
        }
        assert(stats.take(n as int) =~= stats);
        (acc, cnt)
    }

    /// Sum of counts and number of the selected edges between `anchor` and `other`.
    fn link_sums(
        &self,
        anchor: &String,
        other: &String,
        incoming: bool,
        filter: &Option<String>,
    ) -> (r: (u128, usize))
        ensures
            r.0 == link_total(self@.edges, anchor@, other@, incoming, opt_string(*filter)),
            r.1 == link_count(self@.edges, anchor@, other@, incoming, opt_string(*filter)),
    {
        let ghost fv = opt_string(*filter);
        let ghost edges = self@.edges;
        let n = self.edges.len();
        let mut acc: u128 = 0;
        let mut cnt: usize = 0;
        let mut i: usize = 0;
        while i < n
            invariant
                n == self.edges.len(),
                edges == self@.edges,
                fv == opt_string(*filter),
                i <= n,
                cnt <= i,
                acc == link_total(edges.take(i as int), anchor@, other@, incoming, fv),
                cnt == link_count(edges.take(i as int), anchor@, other@, incoming, fv),
            decreases n - i,
        {
            let ghost prefix = edges.take(i + 1);
            assert(prefix.drop_last() =~= edges.take(i as int));
            assert(prefix.last() == self.edges@[i as int]@);
            let row = &self.edges[i];
            let ends = if incoming {
                row.callee_id == *anchor && row.caller_id == *other
            } else {
                row.caller_id == *anchor && row.callee_id == *other
            };
            if ends && session_ok(filter, &row.session_id) {
                proof {
                    lemma_link_total_bound(prefix, anchor@, other@, incoming, fv);
                    let k = (i + 1) as int;
                    assert(k * u64_max() <= 0xffff_ffff_ffff_ffffint * u64_max()) by (nonlinear_arith)
                        requires
                            k <= 0xffff_ffff_ffff_ffffint,
                    ;
                }
                acc = acc + row.count as u128;
                cnt = cnt + 1;
            }
            i = i + 1;
        }
        assert(edges.take(n as int) =~= edges);
        (acc, cnt)
    }

    /// Ranks symbols by a runtime metric summed over their statistics rows:
    /// `duration_p95`, `exceptions`, or (any other name) `invocations`, largest
    /// first, at most `limit` of them, only rows of `session_id` when one is given.
    /// Fails when some symbol's total passes `u64::MAX`.
    pub fn hot_paths(&self, session_id: Option<&str>, limit: usize, metric: &str) -> (r: Result<
        Vec<HotPathEntry>,
    >)
        requires
            self.wf(),
        ensures
            match r {
                Ok(v) => !self@.hot_overflows(opt_text(session_id), metric_field(metric@))
                    && self@.hot_paths_answer(
                    opt_text(session_id),
                    limit as nat,
                    metric@,
                    v@.map_values(|e: HotPathEntry| e@),
                ),
                Err(e) => e is IntegerOverflow && self@.hot_overflows(
                    opt_text(session_id),
                    metric_field(metric@),
                ),
            },
    {
        let filter = opt_owned(session_id);
        let ghost fv = opt_text(session_id);
        let field = metric_to_field(metric);
        let ghost m = self@;
        let ghost member = m.hot_member(fv);
        let n = self.symbols.len();
        let mut groups: Vec<usize> = Vec::new();
        let mut totals: Vec<u128> = Vec::new();
        let mut j: usize = 0;
        while j < n
            invariant
                n == self.symbols.len(),
                m == self@,
                fv == opt_string(filter),
                member == m.hot_member(fv),
                j <= n,
                groups@ == indices_where(j as nat, member),
                totals@.len() == groups@.len(),
                forall|q: int|
                    0 <= q < groups@.len() ==> #[trigger] totals@[q] == stat_total(
                        m.stats,
                        m.symbols[groups@[q] as int].id,
                        fv,
                        field,
                    ),
            decreases n - j,
        {
            let (t, c) = self.stat_sums(&self.symbols[j].id, &filter, field);
            if c > 0 {
                groups.push(j);
                totals.push(t);
            }
            j = j + 1;
        }
        assert(groups@ == m.hot_groups(fv));
        assert(totals@.map_values(|t: u128| t as int) =~= m.hot_totals(fv, field));
        let mut vals: Vec<u64> = Vec::new();
        let mut q: usize = 0;
        while q < totals.len()
            invariant
                q <= totals@.len(),
                field == metric_field(metric@),
                fv == opt_text(session_id),
                m == self@,
                vals@.len() == q,
                totals@.map_values(|t: u128| t as int) == m.hot_totals(fv, field),
                forall|p: int| 0 <= p < q ==> #[trigger] vals@[p] == totals@[p],
            decreases totals@.len() - q,
        {
            if totals[q] > 0xffff_ffff_ffff_ffffu128 {
                assert(m.hot_totals(fv, field)[q as int] > u64_max());
                return Err(StoreError::IntegerOverflow);
            }
            vals.push(totals[q] as u64);
            q = q + 1;
        }
        let ghost vals_spec = m.hot_totals(fv, metric_field(metric@)).map_values(|v: int| v as u64);
        assert(vals@ =~= vals_spec);
        assert(!m.hot_overflows(fv, field)) by {
            assert forall|p: int| 0 <= p < m.hot_totals(fv, field).len() implies !(#[trigger] m.hot_totals(fv, field)[p] > u64_max()) by {
                assert(vals@[p] == totals@[p]);
            }
        }
        let sel = top_k(&vals, limit);
        let mut res: Vec<HotPathEntry> = Vec::new();
        let mut i: usize = 0;
        while i < sel.len()
            invariant
                m == self@,
                is_top_k(vals@, limit as nat, sel@),
                groups@ == m.hot_groups(fv),
                vals@.len() == groups@.len(),
                i <= sel@.len(),
                res@.len() == i,
                forall|p: int|
                    0 <= p < i ==> #[trigger] res@[p]@ == (HotPathView {
                        symbol: m.symbols[groups@[sel@[p] as int] as int].symbol,
                        value: vals@[sel@[p] as int],
                        metric: metric@,
                    }),
            decreases sel@.len() - i,
        {
            let g = groups[sel[i]];
            assert(indices_where(m.symbols.len(), m.hot_member(fv))[sel@[i as int] as int] < m.symbols.len()) by {
                crate::answers::lemma_indices_where_bound(m.symbols.len(), m.hot_member(fv));
            }
            res.push(
                HotPathEntry {
                    symbol: self.symbols[g].symbol.duplicate(),
                    value: vals[sel[i]],
                    metric: metric.to_owned(),
                },
            );
            i = i + 1;
        }
        proof {
            let rv = res@.map_values(|e: HotPathEntry| e@);
            assert(is_top_k(vals_spec, limit as nat, sel@));
            assert(rv.len() == sel@.len());
            assert forall|p: int| 0 <= p < sel@.len() implies #[trigger] rv[p] == (HotPathView {
                symbol: m.symbols[m.hot_groups(fv)[sel@[p] as int] as int].symbol,
                value: vals_spec[sel@[p] as int],
                metric: metric@,
            }) by {
                assert(rv[p] == res@[p]@);
            }
        }
        Ok(res)
    }

    /// Ranks the symbols linked to `anchor` (its callers when `incoming`, its callees
    /// otherwise) by the calls observed, most first, at most `limit` of them.
    fn ranked_neighbors(
        &self,
        anchor: &String,
        incoming: bool,
        filter: &Option<String>,
        limit: usize,
    ) -> (r: Result<(Vec<CallerCount>, usize)>)
        requires
            self.wf(),
        ensures
            match r {
                Ok((v, groups)) => !self@.neighbor_overflows(anchor@, incoming, opt_string(*filter))
                    && self@.neighbors_answer(
                    anchor@,
                    incoming,
                    opt_string(*filter),
                    limit as nat,
                    v@.map_values(|c: CallerCount| c@),
                ) && groups == self@.neighbor_groups(anchor@, incoming, opt_string(*filter)).len(),
                Err(e) => e is IntegerOverflow && self@.neighbor_overflows(
                    anchor@,
                    incoming,
                    opt_string(*filter),
                ),
            },
    {
        let ghost fv = opt_string(*filter);
        let ghost m = self@;
        let ghost member = m.neighbor_member(anchor@, incoming, fv);
        let n = self.symbols.len();
        let mut groups: Vec<usize> = Vec::new();
        let mut totals: Vec<u128> = Vec::new();
        let mut j: usize = 0;
        while j < n
            invariant
                n == self.symbols.len(),
                m == self@,
                fv == opt_string(*filter),
                member == m.neighbor_member(anchor@, incoming, fv),
                j <= n,
                groups@ == indices_where(j as nat, member),
                totals@.len() == groups@.len(),
                forall|q: int|
                    0 <= q < groups@.len() ==> #[trigger] totals@[q] == link_total(
                        m.edges,
                        anchor@,
                        m.symbols[groups@[q] as int].id,
                        incoming,
                        fv,
                    ),
            decreases n - j,
        {
            let (t, c) = self.link_sums(anchor, &self.symbols[j].id, incoming, filter);
            if c > 0 {
                groups.push(j);
                totals.push(t);
            }
            j = j + 1;
        }
        assert(groups@ == m.neighbor_groups(anchor@, incoming, fv));
        assert(totals@.map_values(|t: u128| t as int) =~= m.neighbor_totals(anchor@, incoming, fv));
        let mut vals: Vec<u64> = Vec::new();
        let mut q: usize = 0;
        while q < totals.len()
            invariant
                q <= totals@.len(),
                fv == opt_string(*filter),
                m == self@,
                vals@.len() == q,
                totals@.map_values(|t: u128| t as int) == m.neighbor_totals(anchor@, incoming, fv),
                forall|p: int| 0 <= p < q ==> #[trigger] vals@[p] == totals@[p],
            decreases totals@.len() - q,
        {
            if totals[q] > 0xffff_ffff_ffff_ffffu128 {
                assert(m.neighbor_totals(anchor@, incoming, fv)[q as int] > u64_max());
                return Err(StoreError::IntegerOverflow);
            }
            vals.push(totals[q] as u64);
            q = q + 1;
        }
        let ghost vals_spec = m.neighbor_totals(anchor@, incoming, fv).map_values(
            |v: int| v as u64,
        );
        assert(vals@ =~= vals_spec);
        assert(!m.neighbor_overflows(anchor@, incoming, fv)) by {
            assert forall|p: int|
                0 <= p < m.neighbor_totals(anchor@, incoming, fv).len() implies !(
            #[trigger] m.neighbor_totals(anchor@, incoming, fv)[p] > u64_max()) by {
                assert(vals@[p] == totals@[p]);
            }
        }
        let sel = top_k(&vals, limit);
        let mut res: Vec<CallerCount> = Vec::new();
        let mut i: usize = 0;
        while i < sel.len()
            invariant
                m == self@,
                is_top_k(vals@, limit as nat, sel@),
                groups@ == m.neighbor_groups(anchor@, incoming, fv),
                vals@.len() == groups@.len(),
                i <= sel@.len(),
                res@.len() == i,
                forall|p: int|
                    0 <= p < i ==> #[trigger] res@[p]@ == caller_entry(
                        m.symbols[groups@[sel@[p] as int] as int].symbol,
                        vals@[sel@[p] as int],
                    ),
            decreases sel@.len() - i,
        {
            let g = groups[sel[i]];
            proof {
                lemma_indices_where_bound(
                    m.symbols.len(),
                    m.neighbor_member(anchor@, incoming, fv),
                );
            }
            let sym = self.symbols[g].symbol.duplicate();
            let entry = CallerCount {
                qualname: sym.qualname.clone(),
                count: vals[sel[i]],
                symbol: Some(sym),
            };
            res.push(entry);
            i = i + 1;
        }
        proof {
            let rv = res@.map_values(|c: CallerCount| c@);
            assert(is_top_k(vals_spec, limit as nat, sel@));
            assert forall|p: int| 0 <= p < sel@.len() implies #[trigger] rv[p] == caller_entry(
                m.symbols[m.neighbor_groups(anchor@, incoming, fv)[sel@[p] as int] as int].symbol,
                vals_spec[sel@[p] as int],
            ) by {
                assert(rv[p] == res@[p]@);
            }
        }
        Ok((res, groups.len()))
    }

    /// Ranks the symbols observed calling `symbol` by call count, most first, at
    /// most `limit` of them, only edges of `session_id` when one is given.
    /// Fails when some caller's total passes `u64::MAX`.
    pub fn actual_callers(&self, symbol: &SymbolId, session_id: Option<&str>, limit: usize) -> (r:
        Result<Vec<CallerCount>>)
        requires
            self.wf(),
        ensures
            match r {
                Ok(v) => !self@.neighbor_overflows(symbol_key(symbol@), true, opt_text(session_id))
                    && self@.neighbors_answer(
                    symbol_key(symbol@),
                    true,
                    opt_text(session_id),
                    limit as nat,
                    v@.map_values(|c: CallerCount| c@),
                ),
                Err(e) => e is IntegerOverflow && self@.neighbor_overflows(
                    symbol_key(symbol@),
                    true,
                    opt_text(session_id),
                ),
            },
    {
        let key = Self::symbol_hash(symbol);
        let filter = opt_owned(session_id);
        match self.ranked_neighbors(&key, true, &filter, limit) {
            Ok((v, _)) => Ok(v),
            Err(e) => Err(e),
        }
    }

    /// Ranks the symbols `symbol` was observed calling by call count, most first, at
    /// most `limit` of them, only edges of `session_id` when one is given.
    /// Fails when some callee's total passes `u64::MAX`.
    pub fn actual_callees(&self, symbol: &SymbolId, session_id: Option<&str>, limit: usize) -> (r:
        Result<Vec<CallerCount>>)
        requires
            self.wf(),
        ensures
            match r {
                Ok(v) => !self@.neighbor_overflows(symbol_key(symbol@), false, opt_text(session_id))
                    && self@.neighbors_answer(
                    symbol_key(symbol@),
                    false,
                    opt_text(session_id),
                    limit as nat,
                    v@.map_values(|c: CallerCount| c@),
                ),
                Err(e) => e is IntegerOverflow && self@.neighbor_overflows(
                    symbol_key(symbol@),
                    false,
                    opt_text(session_id),
                ),
            },
    {
        let key = Self::symbol_hash(symbol);
        let filter = opt_owned(session_id);
        match self.ranked_neighbors(&key, false, &filter, limit) {
            Ok((v, _)) => Ok(v),
            Err(e) => Err(e),
        }
    }

    /// Largest p95 duration over the selected statistics rows of symbol `id`.
    fn stat_p95_max(&self, id: &String, filter: &Option<String>) -> (r: u64)
        ensures
            r == stat_max_p95(self@.stats, id@, opt_string(*filter)),
    {
        let ghost fv = opt_string(*filter);
        let ghost stats = self@.stats;
        let n = self.stats.len();
        let mut best: u64 = 0;
        let mut i: usize = 0;
        while i < n
            invariant
                n == self.stats.len(),
                stats == self@.stats,
                fv == opt_string(*filter),
                i <= n,
                best == stat_max_p95(stats.take(i as int), id@, fv),
            decreases n - i,
        {
            let ghost prefix = stats.take(i + 1);
            assert(prefix.drop_last() =~= stats.take(i as int));
            assert(prefix.last() == self.stats@[i as int]@);
            let row = &self.stats[i];
            if row.symbol_id == *id && session_ok(filter, &row.session_id) && row.duration_ns_p95
                > best {
                best = row.duration_ns_p95;
            }
            i = i + 1;
        }
        assert(stats.take(n as int) =~= stats);
        best
    }

    /// Runtime facts about `symbol`, over the rows of `session_id` when one is given:
    /// summed invocations and exceptions, the p50 samples' sum and number, the largest
    /// p95, the number of distinct callers, and the ten callers with the most calls.
    /// `None` when no invocation and no
    /// exception were recorded. Fails when a sum passes `u64::MAX`.
    pub fn function_runtime_summary(&self, symbol: &SymbolId, session_id: Option<&str>) -> (r:
        Result<Option<FunctionRuntimeSummary>>)
        requires
            self.wf(),
        ensures
            ({
                let key = symbol_key(symbol@);
                let f = opt_text(session_id);
                let inv = stat_total(self@.stats, key, f, StatField::Invocations);
                let exc = stat_total(self@.stats, key, f, StatField::Exceptions);
                match r {
                    Err(e) => e is IntegerOverflow && (inv > u64_max() || exc > u64_max() || (!(
                    inv == 0 && exc == 0) && self@.neighbor_overflows(key, true, f))),
                    Ok(None) => inv == 0 && exc == 0,
                    Ok(Some(s)) => {
                        &&& inv <= u64_max() && exc <= u64_max()
                        &&& !(inv == 0 && exc == 0)
                        &&& !self@.neighbor_overflows(key, true, f)
                        &&& s.symbol@ == symbol@
                        &&& s.invocations == inv
                        &&& s.exceptions == exc
                        &&& s.duration_ns_p50_total == stat_total(
                            self@.stats,
                            key,
                            f,
                            StatField::DurationP50,
                        )
                        &&& s.duration_samples == stat_count(self@.stats, key, f)
                        &&& s.duration_ns_p95_max == stat_max_p95(self@.stats, key, f)
                        &&& self@.neighbors_answer(
                            key,
                            true,
                            f,
                            10,
                            s.top_callers@.map_values(|c: CallerCount| c@),
                        )
                        &&& s.distinct_callers == self@.neighbor_groups(key, true, f).len()
                        &&& forall|k: int|
                            0 <= k < self@.stats.len() && self@.stats[k].symbol_id == key
                                && session_matches(f, self@.stats[k].session_id)
                                ==> #[trigger] self@.stats[k].duration_ns_p95
                                <= s.duration_ns_p95_max
                    },
                }
            }),
    {
        let key = Self::symbol_hash(symbol);
        let filter = opt_owned(session_id);
        let (inv, samples) = self.stat_sums(&key, &filter, StatField::Invocations);
        let (exc, _) = self.stat_sums(&key, &filter, StatField::Exceptions);
        if inv > 0xffff_ffff_ffff_ffffu128 || exc > 0xffff_ffff_ffff_ffffu128 {
            return Err(StoreError::IntegerOverflow);
        }
        if inv == 0 && exc == 0 {
            return Ok(None);
        }
        let (p50_total, _) = self.stat_sums(&key, &filter, StatField::DurationP50);
        let p95_max = self.stat_p95_max(&key, &filter);
        let (callers, groups) = match self.ranked_neighbors(&key, true, &filter, 10) {
            Ok(c) => c,
            Err(e) => {
                return Err(e);
            },
        };
        proof {
            assert(samples <= self@.stats.len());
        }
        let distinct = groups as u64;
        proof {
            crate::laws::law_summary_p95_is_the_maximum(self@.stats, key@, opt_text(session_id));
        }
        Ok(
            Some(
                FunctionRuntimeSummary {
                    symbol: symbol.duplicate(),
                    invocations: inv as u64,
                    exceptions: exc as u64,
                    duration_ns_p50_total: p50_total,
                    duration_samples: samples as u64,
                    duration_ns_p95_max: p95_max,
                    distinct_callers: distinct,
                    top_callers: callers,
                },
            ),
        )
    }

    /// What the indexer recorded about `symbol`, or `None` when it has no row.
    pub fn static_summary(&self, symbol: &SymbolId) -> (r: Result<Option<StaticSummary>>)
        requires
            self.wf(),
        ensures
            r matches Ok(o) && match o {
                None => !self@.has_symbol(symbol_key(symbol@)),
                Some(s) => self@.has_symbol(symbol_key(symbol@)) && s@ == static_view_of(
                    self@.symbols[self@.symbol_at(symbol_key(symbol@))],
                ),
            },
    {
        let key = Self::symbol_hash(symbol);
        match self.find_symbol(&key) {
            None => Ok(None),
            Some(i) => {
                let ghost m = self@;
                proof {
                    let c = m.symbol_at(key@);
                    assert(m.has_symbol(key@));
                    if c != i {
                        if c < i {
                            assert(m.symbols[c].id != m.symbols[i as int].id);
                        } else {
                            assert(m.symbols[i as int].id != m.symbols[c].id);
                        }
                    }
                }
                let row = &self.symbols[i];
                let lines: i64 = row.end_line as i64 - row.start_line as i64 + 1;
                Ok(
                    Some(
                        StaticSummary {
                            symbol: row.symbol.duplicate(),
                            kind: row.kind.clone(),
                            complexity: row.complexity,
                            param_count: row.param_count,
                            lines,
                            syntactic_callee_count: row.syntactic_callee_count,
                            start_line: row.start_line,
                            end_line: row.end_line,
                        },
                    ),
                )
            },
        }
    }

    /// The probe window with id `id`, if any.
    pub fn get_probe_window(&self, id: &str) -> (r: Result<Option<ProbeWindowRow>>)
        requires
            self.wf(),
        ensures
            r matches Ok(o) && match o {
                None => !self@.has_probe(id@),
                Some(w) => self@.has_probe(id@) && w@ == self@.probes[self@.probe_at(id@)],
            },
    {
        let key = id.to_owned();
        match self.find_probe(&key) {
            None => Ok(None),
            Some(i) => {
                let ghost m = self@;
                proof {
                    let c = m.probe_at(id@);
                    assert(m.has_probe(id@));
                    if c != i {
                        if c < i {
                            assert(m.probes[c].id != m.probes[i as int].id);
                        } else {
                            assert(m.probes[i as int].id != m.probes[c].id);
                        }
                    }
                }
                Ok(Some(self.probes[i].duplicate()))
            },
        }
    }

    /// Every active probe window visible to `session_id` (all of them when it is
    /// `None`; otherwise that session's and those of no session), latest start first.
    pub fn active_probe_windows(&self, session_id: Option<&str>) -> (r: Result<Vec<ProbeWindowRow>>)
        requires
            self.wf(),
        ensures
            r matches Ok(v) && self@.active_answer(
                opt_text(session_id),
                v@.map_values(|w: ProbeWindowRow| w@),
            ),
            r matches Ok(v) ==> forall|i: int|
                0 <= i < v@.len() ==> (#[trigger] v@[i])@.status == "active"@ && (session_id is None
                    || v@[i]@.session_id is None || v@[i]@.session_id == opt_text(session_id)),
    {
        let filter = opt_owned(session_id);
        let ghost fv = opt_text(session_id);
        let ghost m = self@;
        let ghost member = m.active_member(fv);
        let active = "active".to_owned();
        let n = self.probes.len();
        let mut groups: Vec<usize> = Vec::new();
        let mut vals: Vec<u64> = Vec::new();
        let mut j: usize = 0;
        while j < n
            invariant
                n == self.probes.len(),
                m == self@,
                fv == opt_string(filter),
                active@ == "active"@,
                member == m.active_member(fv),
                j <= n,
                groups@ == indices_where(j as nat, member),
                vals@.len() == groups@.len(),
                forall|q: int|
                    0 <= q < groups@.len() ==> #[trigger] vals@[q] == m.probes[groups@[q] as int].started_at_ms,
            decreases n - j,
        {
            let row = &self.probes[j];
            let visible = match &filter {
                None => true,
                Some(f) => match &row.session_id {
                    None => true,
                    Some(s) => *s == *f,
                },
            };
            if row.status == active && visible {
                groups.push(j);
                vals.push(row.started_at_ms);
            }
            j = j + 1;
        }
        let ghost groups_spec = m.active_groups(fv);
        assert(groups@ == groups_spec);
        let ghost vals_spec = groups_spec.map_values(|g: usize| m.probes[g as int].started_at_ms);
        assert(vals@ =~= vals_spec);
        let sel = top_k(&vals, groups.len());
        let mut res: Vec<ProbeWindowRow> = Vec::new();
        let mut i: usize = 0;
        while i < sel.len()
            invariant
                m == self@,
                is_top_k(vals@, groups@.len() as nat, sel@),
                groups@ == m.active_groups(fv),
                vals@.len() == groups@.len(),
                i <= sel@.len(),
                res@.len() == i,
                forall|p: int|
                    0 <= p < i ==> #[trigger] res@[p]@ == m.probes[groups@[sel@[p] as int] as int],
            decreases sel@.len() - i,
        {
            let g = groups[sel[i]];
            proof {
                lemma_indices_where_bound(m.probes.len(), m.active_member(fv));
            }
            res.push(self.probes[g].duplicate());
            i = i + 1;
        }
        proof {
            let rv = res@.map_values(|w: ProbeWindowRow| w@);
            assert(is_top_k(vals_spec, groups_spec.len(), sel@));
            assert forall|p: int| 0 <= p < sel@.len() implies #[trigger] rv[p]
                == m.probes[groups_spec[sel@[p] as int] as int] by {
                assert(rv[p] == res@[p]@);
            }
        }
        proof {
            let rv = res@.map_values(|w: ProbeWindowRow| w@);
            crate::laws::law_listed_windows_are_active(self@, fv, rv);
            assert forall|i: int| 0 <= i < res@.len() implies (#[trigger] res@[i])@.status
                == "active"@ && (session_id is None || res@[i]@.session_id is None
                || res@[i]@.session_id == opt_text(session_id)) by {
                assert(rv[i] == res@[i]@);
            }
        }
        Ok(res)
    }

    /// Some selected statistics row of symbol `id` counted an invocation.
    fn ran_exec(&self, id: &String, filter: &Option<String>) -> (b: bool)
        ensures
            b == self@.ran(id@, opt_string(*filter)),
    {
        let n = self.stats.len();
        let mut k: usize = 0;
        while k < n
            invariant
                n == self.stats.len(),
                k <= n,
                forall|q: int|
                    0 <= q < k ==> !(#[trigger] self@.stats[q].symbol_id == id@
                        && self@.stats[q].invocations > 0 && session_matches(
                        opt_string(*filter),
                        self@.stats[q].session_id,
                    )),
            decreases n - k,
        {
            let row = &self.stats[k];
            if row.symbol_id == *id && row.invocations > 0 && session_ok(filter, &row.session_id) {
                assert(self@.stats[k as int].symbol_id == id@);
                return true;
            }
            k = k + 1;
        }
        false
    }

    /// Indexed symbols at least as complex as `min_complexity` with no recorded
    /// invocation (in `session_id` when one is given), most complex first, at most
    /// `limit` of them.
    pub fn uncovered_hot_symbols(
        &self,
        min_complexity: i64,
        limit: usize,
        session_id: Option<&str>,
    ) -> (r: Result<Vec<UncoveredSymbol>>)
        requires
            self.wf(),
        ensures
            r matches Ok(v) && self@.uncovered_answer(
                min_complexity as int,
                limit as nat,
                opt_text(session_id),
                v@.map_values(|u: UncoveredSymbol| u@),
            ),
            r matches Ok(v) ==> forall|i: int|
                0 <= i < v@.len() ==> crate::laws::idle_indexed_entry(
                    self@,
                    min_complexity as int,
                    opt_text(session_id),
                    (#[trigger] v@[i])@,
                ),
    {
        let filter = opt_owned(session_id);
        let ghost fv = opt_text(session_id);
        let ghost m = self@;
        let ghost member = m.uncovered_member(min_complexity as int, fv);
        let n = self.symbols.len();
        let mut groups: Vec<usize> = Vec::new();
        let mut vals: Vec<u64> = Vec::new();
        let mut j: usize = 0;
        while j < n
            invariant
                n == self.symbols.len(),
                m == self@,
                fv == opt_string(filter),
                member == m.uncovered_member(min_complexity as int, fv),
                j <= n,
                groups@ == indices_where(j as nat, member),
                vals@.len() == groups@.len(),
                forall|q: int|
                    0 <= q < groups@.len() ==> #[trigger] vals@[q] == m.symbols[groups@[q] as int].complexity as u64,
            decreases n - j,
        {
            let row = &self.symbols[j];
            if row.build_id.is_some() && row.complexity as i64 >= min_complexity && !self.ran_exec(
                &row.id,
                &filter,
            ) {
                groups.push(j);
                vals.push(row.complexity as u64);
            }
            j = j + 1;
        }
        let ghost groups_spec = m.uncovered_groups(min_complexity as int, fv);
        assert(groups@ == groups_spec);
        let ghost vals_spec = groups_spec.map_values(
            |g: usize| m.symbols[g as int].complexity as u64,
        );
        assert(vals@ =~= vals_spec);
        let sel = top_k(&vals, limit);
        let mut res: Vec<UncoveredSymbol> = Vec::new();
        let mut i: usize = 0;
        while i < sel.len()
            invariant
                m == self@,
                is_top_k(vals@, limit as nat, sel@),
                groups@ == m.uncovered_groups(min_complexity as int, fv),
                vals@.len() == groups@.len(),
                i <= sel@.len(),
                res@.len() == i,
                forall|p: int|
                    0 <= p < i ==> #[trigger] res@[p]@ == (UncoveredView {
                        symbol: m.symbols[groups@[sel@[p] as int] as int].symbol,
                        complexity: m.symbols[groups@[sel@[p] as int] as int].complexity as i64,
                        path: m.symbols[groups@[sel@[p] as int] as int].symbol.path,
                    }),
            decreases sel@.len() - i,
        {
            let g = groups[sel[i]];
            proof {
                lemma_indices_where_bound(m.symbols.len(), m.uncovered_member(min_complexity as int, fv));
            }
            let row = &self.symbols[g];
            res.push(
                UncoveredSymbol {
                    symbol: row.symbol.duplicate(),
                    complexity: row.complexity as i64,
                    path: row.symbol.path.clone(),
                },
            );
            i = i + 1;
        }
        proof {
            let rv = res@.map_values(|u: UncoveredSymbol| u@);
            assert(is_top_k(vals_spec, limit as nat, sel@));
            assert forall|p: int| 0 <= p < sel@.len() implies #[trigger] rv[p] == (UncoveredView {
                symbol: m.symbols[groups_spec[sel@[p] as int] as int].symbol,
                complexity: m.symbols[groups_spec[sel@[p] as int] as int].complexity as i64,
                path: m.symbols[groups_spec[sel@[p] as int] as int].symbol.path,
            }) by {
                assert(rv[p] == res@[p]@);
            }
        }
        proof {
            let rv = res@.map_values(|u: UncoveredSymbol| u@);
            crate::laws::law_uncovered_symbols_never_ran(m, min_complexity as int, fv, limit as nat, rv);
            assert forall|i: int| 0 <= i < res@.len() implies crate::laws::idle_indexed_entry(
                m,
                min_complexity as int,
                fv,
                (#[trigger] res@[i])@,
            ) by {
                assert(rv[i] == res@[i]@);
            }
        }
        Ok(res)
    }

    /// Compares the callees the indexer found for `symbol` with the callees observed
    /// at runtime (in `session_id` when one is given): how many of each, the static
    /// callees never observed, and the observed callees with no static edge. Callees
    /// are matched by symbol id; the lists give their qualified names.
    pub fn compare_static_vs_runtime(&self, symbol: &SymbolId, session_id: Option<&str>) -> (r:
        Result<CompareStaticRuntime>)
        requires
            self.wf(),
        ensures
            r matches Ok(c) && {
                let key = symbol_key(symbol@);
                let f = opt_text(session_id);
                let stat_ids = self@.static_ids(key);
                let obs_ids = self@.observed_ids(key, f);
                &&& c.static_callees == stat_ids.len()
                &&& c.observed_callees == obs_ids.len()
                &&& texts(c.never_observed_static_callees@) == names_of_ids_not_in(
                    stat_ids,
                    self@.static_names(key),
                    obs_ids,
                )
                &&& texts(c.runtime_only_callees@) == names_of_ids_not_in(
                    obs_ids,
                    self@.observed_names(key, f),
                    stat_ids,
                )
            },
    {
        let key = Self::symbol_hash(symbol);
        let filter = opt_owned(session_id);
        let ghost fv = opt_text(session_id);
        let ghost m = self@;
        let mut static_ids: Vec<String> = Vec::new();
        let mut static_callees: Vec<String> = Vec::new();
        let n = self.static_edges.len();
        let mut i: usize = 0;
        while i < n
            invariant
                n == self.static_edges.len(),
                m == self@,
                m.wf(),
                i <= n,
                static_ids@.len() == static_callees@.len(),
                texts(static_ids@) == m.static_ids_upto(key@, i as nat),
                texts(static_callees@) == m.static_names_upto(key@, i as nat),
            decreases n - i,
        {
            let e = &self.static_edges[i];
            if e.caller_id == key {
                match self.find_symbol(&e.callee_id) {
                    Some(j) => {
                        proof {
                            let c = m.symbol_at(m.static_edges[i as int].callee_id);
                            assert(m.has_symbol(m.static_edges[i as int].callee_id));
                            if c != j {
                                if c < j {
                                    assert(m.symbols[c].id != m.symbols[j as int].id);
                                } else {
                                    assert(m.symbols[j as int].id != m.symbols[c].id);
                                }
                            }
                        }
                        static_ids.push(e.callee_id.clone());
                        static_callees.push(self.symbols[j].symbol.qualname.clone());
                    },
                    None => {},
                }
            }
            i = i + 1;
            assert(texts(static_ids@) =~= m.static_ids_upto(key@, i as nat));
            assert(texts(static_callees@) =~= m.static_names_upto(key@, i as nat));
        }
        let ghost member = m.neighbor_member(key@, false, fv);
        let mut observed_ids: Vec<String> = Vec::new();
        let mut observed: Vec<String> = Vec::new();
        let ns = self.symbols.len();
        let mut j: usize = 0;
        while j < ns
            invariant
                ns == self.symbols.len(),
                m == self@,
                fv == opt_string(filter),
                member == m.neighbor_member(key@, false, fv),
                j <= ns,
                observed@.len() == indices_where(j as nat, member).len(),
                observed_ids@.len() == observed@.len(),
                forall|k: int|
                    0 <= k < observed@.len() ==> #[trigger] observed@[k]@ == m.symbols[indices_where(
                        j as nat,
                        member,
                    )[k] as int].symbol.qualname,
                forall|k: int|
                    0 <= k < observed_ids@.len() ==> #[trigger] observed_ids@[k]@
                        == m.symbols[indices_where(j as nat, member)[k] as int].id,
            decreases ns - j,
        {
            let (_, c) = self.link_sums(&key, &self.symbols[j].id, false, &filter);
            let ghost prev = indices_where(j as nat, member);
            assert(member(j as int) == (c > 0));
            assert(indices_where((j + 1) as nat, member) == if member(j as int) {
                prev.push(j)
            } else {
                prev
            });
            if c > 0 {
                observed_ids.push(self.symbols[j].id.clone());
                observed.push(self.symbols[j].symbol.qualname.clone());
            }
            j = j + 1;
        }
        let ghost obs_ids = m.observed_ids(key@, fv);
        let ghost obs = m.observed_names(key@, fv);
        assert(texts(observed_ids@) =~= obs_ids);
        assert(texts(observed@) =~= obs);
        let never = names_of_ids_not_in_vec(&static_ids, &static_callees, &observed_ids);
        let runtime_only = names_of_ids_not_in_vec(&observed_ids, &observed, &static_ids);
        Ok(
            CompareStaticRuntime {
                static_callees: static_ids.len() as u64,
                observed_callees: observed_ids.len() as u64,
                never_observed_static_callees: never,
                runtime_only_callees: runtime_only,
            },
        )
    }
}

} // verus!
