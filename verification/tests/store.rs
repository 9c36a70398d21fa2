use codepulse::clock::{epoch_millis_to_u64, now_ms};
use codepulse::controller::{ControllerError, ProbeController};
use codepulse::indexer::{Indexer, IndexerError};
use codepulse::ingest::{IngestError, IngestService};
use codepulse::protocol::{RuntimeStatBatch, SymbolId, PROTOCOL_VERSION};
use codepulse::ranking::top_k;
use codepulse::store::{Store, StoreError};
use sha2::Digest;

#[test]
fn ingest_and_hot_paths() {
    let mut store = Store::open_in_memory().unwrap();
    let sym = SymbolId::new("python", "app.py", "foo");
    let sid = store.ensure_symbol(&sym).unwrap();
    store.ensure_session("sess1", Some("python"), 1, 1000).unwrap();
    store
        .upsert_runtime_stat("sess1", &sid, 1000, 2000, 42, 1, 10_000, 20_000)
        .unwrap();
    let hot = store.hot_paths(Some("sess1"), 10, "invocations").unwrap();
    assert_eq!(hot.len(), 1);
    assert_eq!(hot[0].value as f64, 42.0);
    assert_eq!(hot[0].symbol.qualname, "foo");
}

#[test]
fn callers() {
    let mut store = Store::open_in_memory().unwrap();
    let callee = SymbolId::new("python", "a.py", "target");
    let caller = SymbolId::new("python", "b.py", "caller");
    let callee_id = store.ensure_symbol(&callee).unwrap();
    let caller_id = store.ensure_symbol(&caller).unwrap();
    store.ensure_session("s", Some("python"), 1, 0).unwrap();
    store.upsert_edge("s", &caller_id, &callee_id, 0, 9).unwrap();
    let callers = store.actual_callers(&callee, Some("s"), 10).unwrap();
    assert_eq!(callers.len(), 1);
    assert_eq!(callers[0].count, 9);
}

fn same_symbol(x: &SymbolId, y: &SymbolId) -> bool {
    x.language == y.language && x.path == y.path && x.qualname == y.qualname
}

fn expected_hash(language: &str, path: &str, qualname: &str) -> String {
    let mut data = Vec::new();
    data.extend_from_slice(language.as_bytes());
    data.push(0);
    data.extend_from_slice(path.as_bytes());
    data.push(0);
    data.extend_from_slice(qualname.as_bytes());
    hex::encode(sha2::Sha256::digest(&data))
}

#[test]
fn symbol_hash_is_hex_sha256_of_the_identity() {
    let sym = SymbolId::new("python", "app.py", "foo");
    let id = Store::symbol_hash(&sym);
    assert_eq!(id, expected_hash("python", "app.py", "foo"));
    assert_eq!(id.len(), 64);
    assert!(id.chars().all(|c| c.is_ascii_digit() || ('a'..='f').contains(&c)));
    let other = SymbolId::new("python", "app.py", "bar");
    assert_ne!(Store::symbol_hash(&other), id);
    // The NUL separators keep field boundaries apart.
    let shifted = SymbolId::new("python", "app.pyf", "oo");
    assert_ne!(Store::symbol_hash(&shifted), id);
}

#[test]
fn ensure_symbol_returns_the_same_id_as_indexing() {
    let mut store = Store::open_in_memory().unwrap();
    let sym = SymbolId::new("python", "m.py", "f");
    let a = store.ensure_symbol(&sym).unwrap();
    let b = store
        .insert_indexed_symbol("b1", &sym, "function", 1, 9, 2, 5, 3)
        .unwrap();
    assert_eq!(a, b);
    assert_eq!(a, Store::symbol_hash(&sym));
}

#[test]
fn runtime_stats_accumulate_per_window() {
    let mut store = Store::open_in_memory().unwrap();
    let sym = SymbolId::new("python", "app.py", "foo");
    let sid = store.ensure_symbol(&sym).unwrap();
    store.upsert_runtime_stat("s", &sid, 0, 1000, 10, 1, 100, 200).unwrap();
    store.upsert_runtime_stat("s", &sid, 0, 1500, 5, 2, 300, 50).unwrap();
    store.upsert_runtime_stat("s", &sid, 2000, 3000, 7, 0, 500, 900).unwrap();
    let summary = store.function_runtime_summary(&sym, Some("s")).unwrap().unwrap();
    assert_eq!(summary.invocations, 22);
    assert_eq!(summary.exceptions, 3);
    // The first window's percentiles were replaced by the second upsert.
    assert_eq!(summary.duration_samples, 2);
    assert_eq!(summary.duration_ns_p50_total, 800);
    assert_eq!(summary.duration_ns_p95_max, 900);
    assert_eq!(summary.symbol.qualname, "foo");
}

#[test]
fn upsert_overflow_is_refused_and_changes_nothing() {
    let mut store = Store::open_in_memory().unwrap();
    let sym = SymbolId::new("python", "app.py", "foo");
    let sid = store.ensure_symbol(&sym).unwrap();
    store.upsert_runtime_stat("s", &sid, 0, 1, u64::MAX, 0, 0, 0).unwrap();
    let r = store.upsert_runtime_stat("s", &sid, 0, 2, 1, 0, 0, 0);
    assert!(matches!(r, Err(StoreError::IntegerOverflow)));
    let s = store.function_runtime_summary(&sym, None).unwrap().unwrap();
    assert_eq!(s.invocations, u64::MAX);

    let caller = SymbolId::new("python", "app.py", "main");
    let cid = store.ensure_symbol(&caller).unwrap();
    store.upsert_edge("s", &cid, &sid, 0, u64::MAX).unwrap();
    let r = store.upsert_edge("s", &cid, &sid, 0, 1);
    assert!(matches!(r, Err(StoreError::IntegerOverflow)));
}

#[test]
fn sums_past_u64_fail_the_query() {
    let mut store = Store::open_in_memory().unwrap();
    let sym = SymbolId::new("python", "app.py", "foo");
    let sid = store.ensure_symbol(&sym).unwrap();
    store.upsert_runtime_stat("s", &sid, 0, 1, u64::MAX, 0, 0, 0).unwrap();
    store.upsert_runtime_stat("s", &sid, 1, 2, 1, 0, 0, 0).unwrap();
    assert!(matches!(
        store.hot_paths(None, 10, "invocations"),
        Err(StoreError::IntegerOverflow)
    ));
    assert!(matches!(
        store.function_runtime_summary(&sym, None),
        Err(StoreError::IntegerOverflow)
    ));
    // Other metrics are still fine.
    assert_eq!(store.hot_paths(None, 10, "exceptions").unwrap().len(), 1);
}

#[test]
fn hot_paths_rank_by_metric_with_limit_and_session() {
    let mut store = Store::open_in_memory().unwrap();
    let a = SymbolId::new("python", "a.py", "a");
    let b = SymbolId::new("python", "b.py", "b");
    let c = SymbolId::new("python", "c.py", "c");
    let ida = store.ensure_symbol(&a).unwrap();
    let idb = store.ensure_symbol(&b).unwrap();
    let idc = store.ensure_symbol(&c).unwrap();
    store.upsert_runtime_stat("s1", &ida, 0, 1, 5, 9, 0, 100).unwrap();
    store.upsert_runtime_stat("s1", &idb, 0, 1, 50, 1, 0, 10).unwrap();
    store.upsert_runtime_stat("s2", &idc, 0, 1, 30, 0, 0, 1000).unwrap();
    store.upsert_runtime_stat("s2", &ida, 0, 1, 100, 0, 0, 0).unwrap();

    let all = store.hot_paths(None, 10, "invocations").unwrap();
    let names: Vec<_> = all.iter().map(|e| (e.symbol.qualname.clone(), e.value)).collect();
    assert_eq!(
        names,
        vec![("a".to_string(), 105), ("b".to_string(), 50), ("c".to_string(), 30)]
    );
    assert!(all.iter().all(|e| e.metric == "invocations"));

    let top1 = store.hot_paths(None, 1, "invocations").unwrap();
    assert_eq!(top1.len(), 1);
    assert_eq!(top1[0].symbol.qualname, "a");

    let s1 = store.hot_paths(Some("s1"), 10, "invocations").unwrap();
    let names: Vec<_> = s1.iter().map(|e| (e.symbol.qualname.clone(), e.value)).collect();
    assert_eq!(names, vec![("b".to_string(), 50), ("a".to_string(), 5)]);

    let exc = store.hot_paths(None, 10, "exceptions").unwrap();
    assert_eq!(exc[0].symbol.qualname, "a");
    assert_eq!(exc[0].value, 9);
    assert_eq!(exc[0].metric, "exceptions");

    let p95 = store.hot_paths(None, 10, "duration_p95").unwrap();
    assert_eq!(p95[0].symbol.qualname, "c");
    assert_eq!(p95[0].value, 1000);

    // An unknown metric ranks by invocations but reports the name it was given.
    let other = store.hot_paths(None, 10, "whatever").unwrap();
    assert_eq!(other[0].symbol.qualname, "a");
    assert_eq!(other[0].value, 105);
    assert_eq!(other[0].metric, "whatever");

    assert!(store.hot_paths(Some("nope"), 10, "invocations").unwrap().is_empty());
    assert!(store.hot_paths(None, 0, "invocations").unwrap().is_empty());
}

#[test]
fn stats_of_unknown_symbols_are_not_ranked() {
    let mut store = Store::open_in_memory().unwrap();
    store.upsert_runtime_stat("s", "no-such-id", 0, 1, 5, 0, 0, 0).unwrap();
    assert!(store.hot_paths(None, 10, "invocations").unwrap().is_empty());
}

#[test]
fn summary_is_none_without_activity() {
    let mut store = Store::open_in_memory().unwrap();
    let sym = SymbolId::new("python", "app.py", "idle");
    let sid = store.ensure_symbol(&sym).unwrap();
    assert!(store.function_runtime_summary(&sym, None).unwrap().is_none());
    store.upsert_runtime_stat("s", &sid, 0, 1, 0, 0, 5, 5).unwrap();
    assert!(store.function_runtime_summary(&sym, None).unwrap().is_none());
    store.upsert_runtime_stat("s", &sid, 1, 2, 0, 1, 5, 5).unwrap();
    let s = store.function_runtime_summary(&sym, None).unwrap().unwrap();
    assert_eq!(s.exceptions, 1);
    assert!(store.function_runtime_summary(&sym, Some("other")).unwrap().is_none());
}

#[test]
fn summary_lists_top_ten_callers() {
    let mut store = Store::open_in_memory().unwrap();
    let target = SymbolId::new("python", "t.py", "target");
    let tid = store.ensure_symbol(&target).unwrap();
    store.upsert_runtime_stat("s", &tid, 0, 1, 1, 0, 0, 0).unwrap();
    for i in 0..12u64 {
        let c = SymbolId::new("python", "c.py", &format!("caller{}", i));
        let cid = store.ensure_symbol(&c).unwrap();
        store.upsert_edge("s", &cid, &tid, 0, i + 1).unwrap();
    }
    let s = store.function_runtime_summary(&target, None).unwrap().unwrap();
    // Every distinct caller is counted, not only the ten listed.
    assert_eq!(s.distinct_callers, 12);
    assert_eq!(s.top_callers.len(), 10);
    assert_eq!(s.top_callers[0].qualname, "caller11");
    assert_eq!(s.top_callers[0].count, 12);
    assert_eq!(s.top_callers[9].count, 3);
    let sym = s.top_callers[0].symbol.as_ref().unwrap();
    assert_eq!(sym.path, "c.py");
}

#[test]
fn callers_and_callees_sum_windows_and_rank() {
    let mut store = Store::open_in_memory().unwrap();
    let f = SymbolId::new("python", "m.py", "f");
    let g = SymbolId::new("python", "m.py", "g");
    let h = SymbolId::new("python", "m.py", "h");
    let idf = store.ensure_symbol(&f).unwrap();
    let idg = store.ensure_symbol(&g).unwrap();
    let idh = store.ensure_symbol(&h).unwrap();
    store.upsert_edge("s", &idf, &idh, 0, 2).unwrap();
    store.upsert_edge("s", &idf, &idh, 1000, 3).unwrap();
    store.upsert_edge("s", &idf, &idh, 0, 4).unwrap();
    store.upsert_edge("t", &idg, &idh, 0, 7).unwrap();
    store.upsert_edge("s", &idf, &idg, 0, 1).unwrap();

    let callers = store.actual_callers(&h, None, 10).unwrap();
    let got: Vec<_> = callers.iter().map(|c| (c.qualname.clone(), c.count)).collect();
    assert_eq!(got, vec![("f".to_string(), 9), ("g".to_string(), 7)]);
    let only_t = store.actual_callers(&h, Some("t"), 10).unwrap();
    assert_eq!(only_t.len(), 1);
    assert_eq!(only_t[0].qualname, "g");

    let callees = store.actual_callees(&f, None, 10).unwrap();
    let got: Vec<_> = callees.iter().map(|c| (c.qualname.clone(), c.count)).collect();
    assert_eq!(got, vec![("h".to_string(), 9), ("g".to_string(), 1)]);
    assert_eq!(store.actual_callees(&f, None, 1).unwrap().len(), 1);
    assert!(store.actual_callees(&h, None, 10).unwrap().is_empty());
}

#[test]
fn static_summary_reads_indexed_facts() {
    let mut store = Store::open_in_memory().unwrap();
    let sym = SymbolId::new("python", "m.py", "f");
    assert!(store.static_summary(&sym).unwrap().is_none());
    store.ensure_symbol(&sym).unwrap();
    let s = store.static_summary(&sym).unwrap().unwrap();
    assert_eq!(s.kind, "function");
    assert_eq!(s.complexity, 1);
    assert_eq!(s.lines, 1);
    store
        .insert_indexed_symbol("b1", &sym, "method", 10, 24, 3, 7, 4)
        .unwrap();
    let s = store.static_summary(&sym).unwrap().unwrap();
    assert_eq!(s.kind, "method");
    assert_eq!(s.start_line, 10);
    assert_eq!(s.end_line, 24);
    assert_eq!(s.lines, 15);
    assert_eq!(s.param_count, 3);
    assert_eq!(s.complexity, 7);
    assert_eq!(s.syntactic_callee_count, 4);
    assert_eq!(s.symbol.qualname, "f");
    // Seeing the symbol at runtime afterwards keeps the indexed facts.
    store.ensure_symbol(&sym).unwrap();
    assert_eq!(store.static_summary(&sym).unwrap().unwrap().complexity, 7);
}

#[test]
fn compare_static_and_observed_callees() {
    let mut store = Store::open_in_memory().unwrap();
    let main = SymbolId::new("python", "m.py", "main");
    let a = SymbolId::new("python", "m.py", "a");
    let b = SymbolId::new("python", "m.py", "b");
    let c = SymbolId::new("python", "m.py", "c");
    let idm = store.insert_indexed_symbol("b1", &main, "function", 1, 5, 0, 2, 2).unwrap();
    let ida = store.insert_indexed_symbol("b1", &a, "function", 6, 8, 0, 1, 0).unwrap();
    let idb = store.insert_indexed_symbol("b1", &b, "function", 9, 9, 0, 1, 0).unwrap();
    let idc = store.ensure_symbol(&c).unwrap();
    store.insert_static_edge("b1", &idm, &ida, false).unwrap();
    store.insert_static_edge("b1", &idm, &idb, true).unwrap();
    store.insert_static_edge("b1", &idm, &idb, true).unwrap();
    store.upsert_edge("s", &idm, &ida, 0, 3).unwrap();
    store.upsert_edge("s", &idm, &idc, 0, 1).unwrap();
    store.upsert_edge("t", &idm, &idb, 0, 1).unwrap();

    let cmp = store.compare_static_vs_runtime(&main, Some("s")).unwrap();
    assert_eq!(cmp.static_callees, 2);
    assert_eq!(cmp.observed_callees, 2);
    assert_eq!(cmp.never_observed_static_callees, vec!["b".to_string()]);
    assert_eq!(cmp.runtime_only_callees, vec!["c".to_string()]);

    let all = store.compare_static_vs_runtime(&main, None).unwrap();
    assert_eq!(all.observed_callees, 3);
    assert!(all.never_observed_static_callees.is_empty());
    assert_eq!(all.runtime_only_callees, vec!["c".to_string()]);
}

#[test]
fn uncovered_lists_complex_indexed_symbols_that_never_ran() {
    let mut store = Store::open_in_memory().unwrap();
    let a = SymbolId::new("python", "m.py", "a");
    let b = SymbolId::new("python", "m.py", "b");
    let c = SymbolId::new("python", "n.py", "c");
    let d = SymbolId::new("python", "n.py", "d");
    let r = SymbolId::new("python", "n.py", "runtime_only");
    let ida = store.insert_indexed_symbol("b1", &a, "function", 1, 2, 0, 12, 0).unwrap();
    store.insert_indexed_symbol("b1", &b, "function", 1, 2, 0, 30, 0).unwrap();
    store.insert_indexed_symbol("b1", &c, "function", 1, 2, 0, 15, 0).unwrap();
    store.insert_indexed_symbol("b1", &d, "function", 1, 2, 0, 3, 0).unwrap();
    store.ensure_symbol(&r).unwrap();
    store.upsert_runtime_stat("s", &ida, 0, 1, 4, 0, 0, 0).unwrap();

    let u = store.uncovered_hot_symbols(10, 20, None).unwrap();
    let got: Vec<_> = u.iter().map(|x| (x.symbol.qualname.clone(), x.complexity)).collect();
    assert_eq!(got, vec![("b".to_string(), 30), ("c".to_string(), 15)]);
    assert_eq!(u[1].path, "n.py");

    // In another session `a` did not run.
    let other = store.uncovered_hot_symbols(10, 20, Some("t")).unwrap();
    assert_eq!(other.len(), 3);
    assert_eq!(store.uncovered_hot_symbols(10, 1, None).unwrap().len(), 1);
    assert_eq!(store.uncovered_hot_symbols(-5, 20, None).unwrap().len(), 3);
}

#[test]
fn clear_build_removes_its_symbols_and_static_edges() {
    let mut store = Store::open_in_memory().unwrap();
    let a = SymbolId::new("python", "m.py", "a");
    let b = SymbolId::new("python", "m.py", "b");
    let r = SymbolId::new("python", "m.py", "r");
    let ida = store.insert_indexed_symbol("b1", &a, "function", 1, 2, 0, 20, 0).unwrap();
    let idb = store.insert_indexed_symbol("b2", &b, "function", 1, 2, 0, 20, 0).unwrap();
    store.ensure_symbol(&r).unwrap();
    store.insert_static_edge("b1", &ida, &idb, false).unwrap();
    store.insert_static_edge("b2", &idb, &ida, false).unwrap();
    store.clear_build_symbols("b1").unwrap();
    assert!(store.static_summary(&a).unwrap().is_none());
    assert!(store.static_summary(&b).unwrap().is_some());
    assert!(store.static_summary(&r).unwrap().is_some());
    let cmp = store.compare_static_vs_runtime(&b, None).unwrap();
    // The edge of b2 stays, but its callee's row is gone.
    assert_eq!(cmp.static_callees, 0);
    store.clear_build_symbols("b2").unwrap();
    assert!(store.static_summary(&b).unwrap().is_none());
    assert!(store.uncovered_hot_symbols(0, 10, None).unwrap().is_empty());
}

#[test]
fn summary_top_callers_match_the_callers_query() {
    let mut store = Store::open_in_memory().unwrap();
    let target = SymbolId::new("python", "t.py", "target");
    let tid = store.ensure_symbol(&target).unwrap();
    store.upsert_runtime_stat("s", &tid, 0, 1, 3, 0, 0, 0).unwrap();
    for (i, n) in [5u64, 9, 2].iter().enumerate() {
        let c = SymbolId::new("python", "c.py", &format!("c{}", i));
        let cid = store.ensure_symbol(&c).unwrap();
        store.upsert_edge("s", &cid, &tid, 0, *n).unwrap();
    }
    let s = store.function_runtime_summary(&target, Some("s")).unwrap().unwrap();
    let q = store.actual_callers(&target, Some("s"), 10).unwrap();
    assert_eq!(s.distinct_callers, 3);
    let a: Vec<_> = s.top_callers.iter().map(|c| (c.qualname.clone(), c.count)).collect();
    let b: Vec<_> = q.iter().map(|c| (c.qualname.clone(), c.count)).collect();
    assert_eq!(a, b);
    assert_eq!(b[0], ("c1".to_string(), 9));
}

#[test]
fn callers_and_callees_are_symmetric() {
    let mut store = Store::open_in_memory().unwrap();
    let a = SymbolId::new("python", "m.py", "a");
    let b = SymbolId::new("python", "m.py", "b");
    let c = SymbolId::new("python", "m.py", "c");
    let ida = store.ensure_symbol(&a).unwrap();
    let idb = store.ensure_symbol(&b).unwrap();
    let idc = store.ensure_symbol(&c).unwrap();
    store.upsert_edge("s", &ida, &idb, 0, 4).unwrap();
    store.upsert_edge("t", &ida, &idb, 0, 6).unwrap();
    store.upsert_edge("s", &idc, &idb, 0, 1).unwrap();
    let callees = store.actual_callees(&a, None, 10).unwrap();
    let callers = store.actual_callers(&b, None, 10).unwrap();
    let b_in_callees = callees.iter().find(|x| x.qualname == "b").unwrap();
    let a_in_callers = callers.iter().find(|x| x.qualname == "a").unwrap();
    assert_eq!(b_in_callees.count, 10);
    assert_eq!(a_in_callers.count, 10);
    assert!(store.actual_callees(&b, None, 10).unwrap().is_empty());
}

#[test]
fn compare_joins_on_symbol_ids_not_names() {
    let mut s = Store::open_in_memory().unwrap();
    let f = SymbolId::new("py", "m.py", "f");
    let g1 = SymbolId::new("py", "a.py", "g");
    let g2 = SymbolId::new("py", "b.py", "g");
    let b = s.begin_build("/r").unwrap();
    let fi = s.insert_indexed_symbol(&b, &f, "function", 1, 5, 0, 1, 1).unwrap();
    let g1i = s.insert_indexed_symbol(&b, &g1, "function", 1, 2, 0, 1, 0).unwrap();
    let g2i = s.ensure_symbol(&g2).unwrap();
    s.insert_static_edge(&b, &fi, &g1i, false).unwrap();
    s.upsert_edge("s", &fi, &g2i, 0, 1).unwrap();
    let c = s.compare_static_vs_runtime(&f, None).unwrap();
    assert_eq!(c.static_callees, 1);
    assert_eq!(c.observed_callees, 1);
    assert_eq!(c.never_observed_static_callees, vec!["g".to_string()]);
    assert_eq!(c.runtime_only_callees, vec!["g".to_string()]);
}

#[test]
fn compare_after_a_build() {
    let mut s = Store::open_in_memory().unwrap();
    let f = SymbolId::new("py", "m.py", "f");
    let g = SymbolId::new("py", "m.py", "g");
    let h = SymbolId::new("py", "m.py", "h");
    let b = s.begin_build("/r").unwrap();
    let fi = s.insert_indexed_symbol(&b, &f, "function", 1, 5, 0, 1, 1).unwrap();
    let gi = s.insert_indexed_symbol(&b, &g, "function", 6, 9, 0, 1, 0).unwrap();
    let hi = s.ensure_symbol(&h).unwrap();
    s.insert_static_edge(&b, &fi, &gi, false).unwrap();
    s.upsert_edge("s", &fi, &hi, 0, 4).unwrap();
    let c = s.compare_static_vs_runtime(&f, None).unwrap();
    assert_eq!(c.static_callees, 1);
    assert_eq!(c.observed_callees, 1);
    assert_eq!(c.never_observed_static_callees, vec!["g".to_string()]);
    assert_eq!(c.runtime_only_callees, vec!["h".to_string()]);
}

#[test]
fn static_summary_after_a_build() {
    let mut s = Store::open_in_memory().unwrap();
    let f = SymbolId::new("python", "m.py", "f");
    let b = s.begin_build("/r").unwrap();
    s.insert_indexed_symbol(&b, &f, "method", 10, 14, 2, 3, 4).unwrap();
    let x = s.static_summary(&f).unwrap().unwrap();
    assert!(same_symbol(&x.symbol, &f));
    assert_eq!(x.kind, "method");
    assert_eq!(x.start_line, 10);
    assert_eq!(x.end_line, 14);
    assert_eq!(x.lines, 5);
    assert_eq!(x.param_count, 2);
    assert_eq!(x.complexity, 3);
    assert_eq!(x.syntactic_callee_count, 4);
}

#[test]
fn uncovered_after_a_build() {
    let mut s = Store::open_in_memory().unwrap();
    let a = SymbolId::new("py", "m.py", "a");
    let c = SymbolId::new("py", "m.py", "c");
    let d = SymbolId::new("py", "n.py", "d");
    let b = s.begin_build("/r").unwrap();
    s.insert_indexed_symbol(&b, &a, "function", 1, 9, 0, 12, 0).unwrap();
    let ci = s.insert_indexed_symbol(&b, &c, "function", 1, 9, 0, 15, 0).unwrap();
    s.insert_indexed_symbol(&b, &d, "function", 1, 9, 0, 5, 0).unwrap();
    s.upsert_runtime_stat("s", &ci, 0, 1000, 3, 0, 0, 0).unwrap();
    let v = s.uncovered_hot_symbols(10, 20, None).unwrap();
    assert_eq!(v.len(), 1);
    assert!(same_symbol(&v[0].symbol, &a));
    assert_eq!(v[0].complexity, 12);
    assert_eq!(v[0].path, "m.py");
    let w = s.uncovered_hot_symbols(10, 20, Some("t")).unwrap();
    assert_eq!(w.len(), 2);
    assert!(same_symbol(&w[0].symbol, &c));
    assert!(same_symbol(&w[1].symbol, &a));
    assert!(s.uncovered_hot_symbols(10, 0, Some("t")).unwrap().is_empty());
}

#[test]
fn probe_window_reads_back_through_updates() {
    let mut store = Store::open_in_memory().unwrap();
    store.create_probe_window("w", Some("s"), 50, 20, "[1]").unwrap();
    store.create_probe_window("v", None, 60, 5, "[]").unwrap();
    store.update_probe_status("w", "stopping", None).unwrap();
    store.update_probe_status("v", "completed", Some(65)).unwrap();
    store.update_probe_status("w", "completed", Some(70)).unwrap();
    let w = store.get_probe_window("w").unwrap().unwrap();
    assert_eq!(w.id, "w");
    assert_eq!(w.session_id.as_deref(), Some("s"));
    assert_eq!(w.started_at_ms, 50);
    assert_eq!(w.duration_s, 20);
    assert_eq!(w.targets_json, "[1]");
    assert_eq!(w.status, "completed");
    assert_eq!(w.ended_at_ms, Some(70));
}

#[test]
fn probe_windows_lifecycle() {
    let mut store = Store::open_in_memory().unwrap();
    let targets = vec![SymbolId::new("python", "app.py", "foo")];
    let json = format!(
        "[{{\"language\":\"{}\",\"path\":\"{}\",\"qualname\":\"{}\"}}]",
        targets[0].language, targets[0].path, targets[0].qualname
    );
    store.create_probe_window("w1", Some("s1"), 100, 30, &json).unwrap();
    store.create_probe_window("w2", None, 300, 10, "[]").unwrap();
    store.create_probe_window("w3", Some("s2"), 200, 10, "[]").unwrap();
    assert!(matches!(
        store.create_probe_window("w1", None, 1, 1, "[]"),
        Err(StoreError::UniqueConstraint)
    ));

    let all = store.active_probe_windows(None).unwrap();
    let ids: Vec<_> = all.iter().map(|w| w.id.clone()).collect();
    assert_eq!(ids, vec!["w2", "w3", "w1"]);
    let s1 = store.active_probe_windows(Some("s1")).unwrap();
    let ids: Vec<_> = s1.iter().map(|w| w.id.clone()).collect();
    assert_eq!(ids, vec!["w2", "w1"]);

    let w1 = store.get_probe_window("w1").unwrap().unwrap();
    assert_eq!(w1.status, "active");
    assert_eq!(w1.session_id.as_deref(), Some("s1"));
    assert_eq!(w1.duration_s, 30);
    assert_eq!(w1.ended_at_ms, None);
    assert_eq!(w1.targets_json, json);

    store.update_probe_status("w1", "completed", Some(130)).unwrap();
    let w1 = store.get_probe_window("w1").unwrap().unwrap();
    assert_eq!(w1.status, "completed");
    assert_eq!(w1.ended_at_ms, Some(130));
    let s1 = store.active_probe_windows(Some("s1")).unwrap();
    assert_eq!(s1.len(), 1);
    assert_eq!(s1[0].id, "w2");

    store.update_probe_status("missing", "completed", None).unwrap();
    assert!(store.get_probe_window("missing").unwrap().is_none());
}

#[test]
fn builds_get_fresh_ids() {
    let mut store = Store::open_in_memory().unwrap();
    let a = store.begin_build("/repo").unwrap();
    let b = store.begin_build("/repo").unwrap();
    assert_ne!(a, b);
    assert_eq!(a.len(), 36);
    for (i, ch) in a.chars().enumerate() {
        if [8, 13, 18, 23].contains(&i) {
            assert_eq!(ch, '-');
        } else {
            assert!(ch.is_ascii_digit() || ('a'..='f').contains(&ch));
        }
    }
    assert_eq!(a.chars().nth(14), Some('4'));
    assert!("89ab".contains(a.chars().nth(19).unwrap()));
    store.record_build("fixed", 5, "/x").unwrap();
    assert!(matches!(
        store.record_build("fixed", 6, "/y"),
        Err(StoreError::UniqueConstraint)
    ));
}

#[test]
fn sessions_can_be_refreshed() {
    let mut store = Store::open_in_memory().unwrap();
    store.ensure_session("s", Some("python"), 1, 0).unwrap();
    store.ensure_session("s", None, 2, 10).unwrap();
    store.ensure_session("t", None, 3, 10).unwrap();
}

#[test]
fn clock_reads_milliseconds() {
    let t = now_ms();
    assert!(t > 1_600_000_000_000);
    assert_eq!(epoch_millis_to_u64(None), 0);
    assert_eq!(epoch_millis_to_u64(Some(1234)), 1234);
    assert_eq!(epoch_millis_to_u64(Some((1u128 << 64) + 7)), 7);
}

#[test]
fn top_k_picks_largest_first() {
    let vals = vec![3u64, 9, 1, 9, 4];
    let sel = top_k(&vals, 3);
    assert_eq!(sel.len(), 3);
    assert_eq!(vals[sel[0]], 9);
    assert_eq!(vals[sel[1]], 9);
    assert_eq!(vals[sel[2]], 4);
    assert_eq!(top_k(&vals, 10).len(), 5);
    assert!(top_k(&Vec::new(), 3).is_empty());
}

#[test]
fn design_stubs_answer_not_implemented() {
    let c = ProbeController::new();
    let r = c.enable_targeted(vec![SymbolId::new("python", "a.py", "f")], 30);
    assert!(matches!(r, Err(ControllerError::NotImplemented)));
    let i = Indexer::new();
    assert!(matches!(i.index_root("."), Err(IndexerError::NotImplemented)));
    let s = IngestService::new();
    let batch = RuntimeStatBatch {
        protocol_version: PROTOCOL_VERSION,
        session_id: "s".to_string(),
        process_id: 1,
        window_start_ms: 0,
        window_end_ms: 1000,
        stats: Vec::new(),
        edges: Vec::new(),
    };
    assert!(matches!(s.accept_batch(batch), Err(IngestError::NotImplemented)));
    let _ = ProbeController::default();
    let _ = Indexer::default();
    let _ = IngestService::default();
    assert_eq!(PROTOCOL_VERSION, 1);
}
