//! The mathematical model of the store: one sequence of records per table,
//! the state change each write makes, and what each query answers.

use vstd::prelude::*;

use crate::identity::symbol_key;
use crate::protocol::SymbolIdView;

verus! {

/// A row of `builds`.
pub struct BuildRecord {
    pub id: Seq<char>,
    pub indexed_at_ms: u64,
    pub root_path: Seq<char>,
}

/// A row of `symbols`.
pub struct SymbolRecord {
    pub id: Seq<char>,
    pub build_id: Option<Seq<char>>,
    pub symbol: SymbolIdView,
    pub kind: Seq<char>,
    pub start_line: u32,
    pub end_line: u32,
    pub param_count: u32,
    pub complexity: u32,
    pub syntactic_callee_count: u32,
}

/// A row of `runtime_sessions`.
pub struct SessionRecord {
    pub id: Seq<char>,
    pub started_at_ms: u64,
    pub language: Option<Seq<char>>,
    pub process_id: u32,
}

/// A row of `runtime_stats`.
pub struct StatRecord {
    pub session_id: Seq<char>,
    pub symbol_id: Seq<char>,
    pub window_start_ms: u64,
    pub window_end_ms: u64,
    pub invocations: u64,
    pub exceptions: u64,
    pub duration_ns_p50: u64,
    pub duration_ns_p95: u64,
}

/// A row of `edges` (observed caller -> callee).
pub struct EdgeRecord {
    pub session_id: Seq<char>,
    pub caller_id: Seq<char>,
    pub callee_id: Seq<char>,
    pub window_start_ms: u64,
    pub count: u64,
}

/// A row of `probe_windows`.
pub struct ProbeRecord {
    pub id: Seq<char>,
    pub session_id: Option<Seq<char>>,
    pub started_at_ms: u64,
    pub duration_s: u64,
    pub ended_at_ms: Option<u64>,
    pub status: Seq<char>,
    pub targets_json: Seq<char>,
}

/// A row of `static_edges` (syntactic caller -> callee of one build).
pub struct StaticEdgeRecord {
    pub build_id: Seq<char>,
    pub caller_id: Seq<char>,
    pub callee_id: Seq<char>,
    pub uncertain: bool,
}

/// The whole store: every table, rows in insertion order.
#[verifier::ext_equal]
pub struct StoreModel {
    pub builds: Seq<BuildRecord>,
    pub symbols: Seq<SymbolRecord>,
    pub sessions: Seq<SessionRecord>,
    pub stats: Seq<StatRecord>,
    pub edges: Seq<EdgeRecord>,
    pub probes: Seq<ProbeRecord>,
    pub static_edges: Seq<StaticEdgeRecord>,
}

pub open spec fn u64_max() -> int {
    0xffff_ffff_ffff_ffffint
}

/// `(?filter IS NULL OR row.session_id = ?filter)`.
pub open spec fn session_matches(filter: Option<Seq<char>>, session_id: Seq<char>) -> bool {
    match filter {
        None => true,
        Some(s) => s == session_id,
    }
}

pub open spec fn same_stat_key(a: StatRecord, b: StatRecord) -> bool {
    a.session_id == b.session_id && a.symbol_id == b.symbol_id && a.window_start_ms
        == b.window_start_ms
}

pub open spec fn same_edge_key(a: EdgeRecord, b: EdgeRecord) -> bool {
    a.session_id == b.session_id && a.caller_id == b.caller_id && a.callee_id == b.callee_id
        && a.window_start_ms == b.window_start_ms
}

pub open spec fn same_static_key(a: StaticEdgeRecord, b: StaticEdgeRecord) -> bool {
    a.build_id == b.build_id && a.caller_id == b.caller_id && a.callee_id == b.callee_id
}

impl StoreModel {
    /// The store right after the schema is created: every table empty.
    pub open spec fn empty() -> StoreModel {
        StoreModel {
            builds: Seq::empty(),
            symbols: Seq::empty(),
            sessions: Seq::empty(),
            stats: Seq::empty(),
            edges: Seq::empty(),
            probes: Seq::empty(),
            static_edges: Seq::empty(),
        }
    }

    /// Primary keys are unique in every table, and a symbol's id is the
    /// hash of its own language, path and qualified name.
    pub open spec fn wf(self) -> bool {
        &&& forall|i: int, j: int|
            0 <= i < j < self.builds.len() ==> #[trigger] self.builds[i].id
                != #[trigger] self.builds[j].id
        &&& forall|i: int, j: int|
            0 <= i < j < self.symbols.len() ==> #[trigger] self.symbols[i].id
                != #[trigger] self.symbols[j].id
        &&& forall|i: int|
            0 <= i < self.symbols.len() ==> #[trigger] self.symbols[i].id == symbol_key(
                self.symbols[i].symbol,
            )
        &&& forall|i: int, j: int|
            0 <= i < j < self.sessions.len() ==> #[trigger] self.sessions[i].id
                != #[trigger] self.sessions[j].id
        &&& forall|i: int, j: int|
            0 <= i < j < self.stats.len() ==> !same_stat_key(
                #[trigger] self.stats[i],
                #[trigger] self.stats[j],
            )
        &&& forall|i: int, j: int|
            0 <= i < j < self.edges.len() ==> !same_edge_key(
                #[trigger] self.edges[i],
                #[trigger] self.edges[j],
            )
        &&& forall|i: int, j: int|
            0 <= i < j < self.probes.len() ==> #[trigger] self.probes[i].id
                != #[trigger] self.probes[j].id
        &&& forall|i: int, j: int|
            0 <= i < j < self.static_edges.len() ==> !same_static_key(
                #[trigger] self.static_edges[i],
                #[trigger] self.static_edges[j],
            )
    }

    // ----- runtime_sessions -----
    pub open spec fn has_session(self, id: Seq<char>) -> bool {
        exists|i: int| 0 <= i < self.sessions.len() && #[trigger] self.sessions[i].id == id
    }

    /// `INSERT ... ON CONFLICT(id) DO UPDATE SET language = COALESCE(new, old), process_id = new`.
    pub open spec fn ensure_session(
        self,
        id: Seq<char>,
        language: Option<Seq<char>>,
        process_id: u32,
        started_at_ms: u64,
    ) -> StoreModel {
        if self.has_session(id) {
            StoreModel {
                sessions: Seq::new(
                    self.sessions.len(),
                    |i: int|
                        if self.sessions[i].id == id {
                            SessionRecord {
                                language: if language is Some {
                                    language
                                } else {
                                    self.sessions[i].language
                                },
                                process_id,
                                ..self.sessions[i]
                            }
                        } else {
                            self.sessions[i]
                        },
                ),
                ..self
            }
        } else {
            StoreModel {
                sessions: self.sessions.push(
                    SessionRecord { id, started_at_ms, language, process_id },
                ),
                ..self
            }
        }
    }

    // ----- symbols -----
    pub open spec fn has_symbol(self, id: Seq<char>) -> bool {
        exists|i: int| 0 <= i < self.symbols.len() && #[trigger] self.symbols[i].id == id
    }

    /// A runtime-only symbol row: no build, kind `function`, lines 0, params 0,
    /// complexity 1, no syntactic callees.
    pub open spec fn runtime_symbol_record(symbol: SymbolIdView) -> SymbolRecord {
        SymbolRecord {
            id: symbol_key(symbol),
            build_id: None,
            symbol,
            kind: "function"@,
            start_line: 0,
            end_line: 0,
            param_count: 0,
            complexity: 1,
            syntactic_callee_count: 0,
        }
    }

    /// `INSERT ... ON CONFLICT(id) DO NOTHING` of a runtime-only symbol row.
    pub open spec fn ensure_symbol(self, symbol: SymbolIdView) -> StoreModel {
        if self.has_symbol(symbol_key(symbol)) {
            self
        } else {
            StoreModel {
                symbols: self.symbols.push(Self::runtime_symbol_record(symbol)),
                ..self
            }
        }
    }

    /// `INSERT ... ON CONFLICT(id) DO UPDATE` of the indexer's facts about a symbol;
    /// the identity fields of an existing row stay as they are.
    pub open spec fn insert_indexed_symbol(
        self,
        build_id: Seq<char>,
        symbol: SymbolIdView,
        kind: Seq<char>,
        start_line: u32,
        end_line: u32,
        param_count: u32,
        complexity: u32,
        syntactic_callee_count: u32,
    ) -> StoreModel {
        let key = symbol_key(symbol);
        if self.has_symbol(key) {
            StoreModel {
                symbols: Seq::new(
                    self.symbols.len(),
                    |i: int|
                        if self.symbols[i].id == key {
                            SymbolRecord {
                                build_id: Some(build_id),
                                kind,
                                start_line,
                                end_line,
                                param_count,
                                complexity,
                                syntactic_callee_count,
                                ..self.symbols[i]
                            }
                        } else {
                            self.symbols[i]
                        },
                ),
                ..self
            }
        } else {
            StoreModel {
                symbols: self.symbols.push(
                    SymbolRecord {
                        id: key,
                        build_id: Some(build_id),
                        symbol,
                        kind,
                        start_line,
                        end_line,
                        param_count,
                        complexity,
                        syntactic_callee_count,
                    },
                ),
                ..self
            }
        }
    }

    // ----- runtime_stats -----
    pub open spec fn stat_key_matches(
        r: StatRecord,
        session_id: Seq<char>,
        symbol_id: Seq<char>,
        window_start_ms: u64,
    ) -> bool {
        r.session_id == session_id && r.symbol_id == symbol_id && r.window_start_ms
            == window_start_ms
    }

    pub open spec fn has_stat(
        self,
        session_id: Seq<char>,
        symbol_id: Seq<char>,
        window_start_ms: u64,
    ) -> bool {
        exists|i: int|
            0 <= i < self.stats.len() && Self::stat_key_matches(
                #[trigger] self.stats[i],
                session_id,
                symbol_id,
                window_start_ms,
            )
    }

    /// Accumulating into the existing row would carry a counter past `u64::MAX`.
    pub open spec fn stat_upsert_overflows(
        self,
        session_id: Seq<char>,
        symbol_id: Seq<char>,
        window_start_ms: u64,
        invocations: u64,
        exceptions: u64,
    ) -> bool {
        exists|i: int|
            0 <= i < self.stats.len() && Self::stat_key_matches(
                #[trigger] self.stats[i],
                session_id,
                symbol_id,
                window_start_ms,
            ) && (self.stats[i].invocations + invocations > u64_max() || self.stats[i].exceptions
                + exceptions > u64_max())
    }

    /// `INSERT ... ON CONFLICT(session_id, symbol_id, window_start_ms) DO UPDATE`:
    /// counters add up, the window end and the percentiles take the new values.
    pub open spec fn upsert_stat(
        self,
        session_id: Seq<char>,
        symbol_id: Seq<char>,
        window_start_ms: u64,
        window_end_ms: u64,
        invocations: u64,
        exceptions: u64,
        duration_ns_p50: u64,
        duration_ns_p95: u64,
    ) -> StoreModel {
        if self.has_stat(session_id, symbol_id, window_start_ms) {
            StoreModel {
                stats: Seq::new(
                    self.stats.len(),
                    |i: int|
                        if Self::stat_key_matches(
                            self.stats[i],
                            session_id,
                            symbol_id,
                            window_start_ms,
                        ) {
                            StatRecord {
                                window_end_ms,
                                invocations: (self.stats[i].invocations + invocations) as u64,
                                exceptions: (self.stats[i].exceptions + exceptions) as u64,
                                duration_ns_p50,
                                duration_ns_p95,
                                ..self.stats[i]
                            }
                        } else {
                            self.stats[i]
                        },
                ),
                ..self
            }
        } else {
            StoreModel {
                stats: self.stats.push(
                    StatRecord {
                        session_id,
                        symbol_id,
                        window_start_ms,
                        window_end_ms,
                        invocations,
                        exceptions,
                        duration_ns_p50,
                        duration_ns_p95,
                    },
                ),
                ..self
            }
        }
    }

    // ----- edges -----
    pub open spec fn edge_key_matches(
        r: EdgeRecord,
        session_id: Seq<char>,
        caller_id: Seq<char>,
        callee_id: Seq<char>,
        window_start_ms: u64,
    ) -> bool {
        r.session_id == session_id && r.caller_id == caller_id && r.callee_id == callee_id
            && r.window_start_ms == window_start_ms
    }

    pub open spec fn has_edge(
        self,
        session_id: Seq<char>,
        caller_id: Seq<char>,
        callee_id: Seq<char>,
        window_start_ms: u64,
    ) -> bool {
        exists|i: int|
            0 <= i < self.edges.len() && Self::edge_key_matches(
                #[trigger] self.edges[i],
                session_id,
                caller_id,
                callee_id,
                window_start_ms,
            )
    }

    pub open spec fn edge_upsert_overflows(
        self,
        session_id: Seq<char>,
        caller_id: Seq<char>,
        callee_id: Seq<char>,
        window_start_ms: u64,
        count: u64,
    ) -> bool {
        exists|i: int|
            0 <= i < self.edges.len() && Self::edge_key_matches(
                #[trigger] self.edges[i],
                session_id,
                caller_id,
                callee_id,
                window_start_ms,
            ) && self.edges[i].count + count > u64_max()
    }

    /// `INSERT ... ON CONFLICT(...) DO UPDATE SET count = edges.count + excluded.count`.
    pub open spec fn upsert_edge(
        self,
        session_id: Seq<char>,
        caller_id: Seq<char>,
        callee_id: Seq<char>,
        window_start_ms: u64,
        count: u64,
    ) -> StoreModel {
        if self.has_edge(session_id, caller_id, callee_id, window_start_ms) {
            StoreModel {
                edges: Seq::new(
                    self.edges.len(),
                    |i: int|
                        if Self::edge_key_matches(
                            self.edges[i],
                            session_id,
                            caller_id,
                            callee_id,
                            window_start_ms,
                        ) {
                            EdgeRecord {
                                count: (self.edges[i].count + count) as u64,
                                ..self.edges[i]
                            }
                        } else {
                            self.edges[i]
                        },
                ),
                ..self
            }
        } else {
            StoreModel {
                edges: self.edges.push(
                    EdgeRecord { session_id, caller_id, callee_id, window_start_ms, count },
                ),
                ..self
            }
        }
    }

    // ----- builds -----
    pub open spec fn has_build(self, id: Seq<char>) -> bool {
        exists|i: int| 0 <= i < self.builds.len() && #[trigger] self.builds[i].id == id
    }

    /// `INSERT INTO builds` of a new build row (the caller checked the id is free).
    pub open spec fn add_build(
        self,
        id: Seq<char>,
        indexed_at_ms: u64,
        root_path: Seq<char>,
    ) -> StoreModel {
        StoreModel {
            builds: self.builds.push(BuildRecord { id, indexed_at_ms, root_path }),
            ..self
        }
    }

    /// The static edges that do not belong to `build_id`, in order.
    pub open spec fn static_edges_outside(
        edges: Seq<StaticEdgeRecord>,
        build_id: Seq<char>,
    ) -> Seq<StaticEdgeRecord>
        decreases edges.len(),
    {
        if edges.len() == 0 {
            Seq::empty()
        } else {
            let rest = Self::static_edges_outside(edges.drop_last(), build_id);
            if edges.last().build_id == build_id {
                rest
            } else {
                rest.push(edges.last())
            }
        }
    }

    /// The symbols that do not belong to `build_id`, in order.
    pub open spec fn symbols_outside(
        symbols: Seq<SymbolRecord>,
        build_id: Seq<char>,
    ) -> Seq<SymbolRecord>
        decreases symbols.len(),
    {
        if symbols.len() == 0 {
            Seq::empty()
        } else {
            let rest = Self::symbols_outside(symbols.drop_last(), build_id);
            if symbols.last().build_id == Some(build_id) {
                rest
            } else {
                rest.push(symbols.last())
            }
        }
    }

    /// `DELETE FROM static_edges WHERE build_id = ?; DELETE FROM symbols WHERE build_id = ?`.
    pub open spec fn clear_build(self, build_id: Seq<char>) -> StoreModel {
        StoreModel {
            static_edges: Self::static_edges_outside(self.static_edges, build_id),
            symbols: Self::symbols_outside(self.symbols, build_id),
            ..self
        }
    }

    // ----- static_edges -----
    pub open spec fn has_static_edge(
        self,
        build_id: Seq<char>,
        caller_id: Seq<char>,
        callee_id: Seq<char>,
    ) -> bool {
        exists|i: int|
            0 <= i < self.static_edges.len() && #[trigger] self.static_edges[i].build_id
                == build_id && self.static_edges[i].caller_id == caller_id
                && self.static_edges[i].callee_id == callee_id
    }

    /// `INSERT ... ON CONFLICT DO NOTHING`.
    pub open spec fn insert_static_edge(
        self,
        build_id: Seq<char>,
        caller_id: Seq<char>,
        callee_id: Seq<char>,
        uncertain: bool,
    ) -> StoreModel {
        if self.has_static_edge(build_id, caller_id, callee_id) {
            self
        } else {
            StoreModel {
                static_edges: self.static_edges.push(
                    StaticEdgeRecord { build_id, caller_id, callee_id, uncertain },
                ),
                ..self
            }
        }
    }

    // ----- probe_windows -----
    pub open spec fn has_probe(self, id: Seq<char>) -> bool {
        exists|i: int| 0 <= i < self.probes.len() && #[trigger] self.probes[i].id == id
    }

    /// `INSERT INTO probe_windows` of a new window with status `active`
    /// (the caller checked the id is free).
    pub open spec fn add_probe(
        self,
        id: Seq<char>,
        session_id: Option<Seq<char>>,
        started_at_ms: u64,
        duration_s: u64,
        targets_json: Seq<char>,
    ) -> StoreModel {
        StoreModel {
            probes: self.probes.push(
                ProbeRecord {
                    id,
                    session_id,
                    started_at_ms,
                    duration_s,
                    ended_at_ms: None,
                    status: "active"@,
                    targets_json,
                },
            ),
            ..self
        }
    }

    /// `UPDATE probe_windows SET status = ?, ended_at_ms = ? WHERE id = ?`.
    pub open spec fn update_probe(
        self,
        id: Seq<char>,
        status: Seq<char>,
        ended_at_ms: Option<u64>,
    ) -> StoreModel {
        StoreModel {
            probes: Seq::new(
                self.probes.len(),
                |i: int|
                    if self.probes[i].id == id {
                        ProbeRecord { status, ended_at_ms, ..self.probes[i] }
                    } else {
                        self.probes[i]
                    },
            ),
            ..self
        }
    }

    /// Every row kept by `static_edges_outside` is a row of the input, none of them
    /// belongs to the build, every row of another build is kept, and distinct keys stay distinct.
    pub proof fn lemma_static_edges_outside(edges: Seq<StaticEdgeRecord>, build_id: Seq<char>)
        ensures
            forall|k: int|
                0 <= k < Self::static_edges_outside(edges, build_id).len() ==> exists|j: int|
                    0 <= j < edges.len() && #[trigger] Self::static_edges_outside(
                        edges,
                        build_id,
                    )[k] == edges[j],
            forall|k: int|
                0 <= k < Self::static_edges_outside(edges, build_id).len()
                    ==> #[trigger] Self::static_edges_outside(edges, build_id)[k].build_id
                    != build_id,
            forall|j: int|
                0 <= j < edges.len() && #[trigger] edges[j].build_id != build_id
                    ==> Self::static_edges_outside(edges, build_id).contains(edges[j]),
            (forall|i: int, j: int|
                0 <= i < j < edges.len() ==> !same_static_key(#[trigger] edges[i], #[trigger] edges[j]))
                ==> forall|i: int, j: int|
                0 <= i < j < Self::static_edges_outside(edges, build_id).len() ==> !same_static_key(
                    #[trigger] Self::static_edges_outside(edges, build_id)[i],
                    #[trigger] Self::static_edges_outside(edges, build_id)[j],
                ),
        decreases edges.len(),
    {
        if edges.len() > 0 {
            let init = edges.drop_last();
            Self::lemma_static_edges_outside(init, build_id);
            let rest = Self::static_edges_outside(init, build_id);
            let out = Self::static_edges_outside(edges, build_id);
            assert forall|k: int| 0 <= k < out.len() implies exists|j: int|
                0 <= j < edges.len() && #[trigger] out[k] == edges[j] by {
                if k < rest.len() {
                    let j = choose|j: int| 0 <= j < init.len() && rest[k] == init[j];
                    assert(out[k] == edges[j]);
                } else {
                    assert(out[k] == edges[edges.len() - 1]);
                }
            }
            assert forall|j: int|
                0 <= j < edges.len() && #[trigger] edges[j].build_id != build_id implies out.contains(
                edges[j],
            ) by {
                if j < init.len() {
                    assert(init[j] == edges[j]);
                    assert(rest.contains(init[j]));
                    let w = choose|w: int| 0 <= w < rest.len() && rest[w] == init[j];
                    assert(out[w] == edges[j]);
                } else {
                    assert(out[out.len() - 1] == edges[j]);
                }
            }
            if forall|i: int, j: int|
                0 <= i < j < edges.len() ==> !same_static_key(#[trigger] edges[i], #[trigger] edges[j]) {
                assert forall|i: int, j: int| 0 <= i < j < out.len() implies !same_static_key(
                    #[trigger] out[i],
                    #[trigger] out[j],
                ) by {
                    assert forall|a: int, b: int| 0 <= a < b < init.len() implies !same_static_key(
                        #[trigger] init[a],
                        #[trigger] init[b],
                    ) by {
                        assert(init[a] == edges[a] && init[b] == edges[b]);
                    }
                    if j >= rest.len() {
                        let w = choose|w: int| 0 <= w < init.len() && rest[i] == init[w];
                        assert(edges[w] == init[w]);
                        assert(out[j] == edges[edges.len() - 1]);
                        assert(!same_static_key(edges[w], edges[edges.len() - 1]));
                    } else {
                        assert(out[i] == rest[i] && out[j] == rest[j]);
                    }
                }
            }
        }
    }

    /// Every row kept by `symbols_outside` is a row of the input, none of them
    /// belongs to the build, every row not of the build is kept, and distinct ids stay distinct.
    pub proof fn lemma_symbols_outside(symbols: Seq<SymbolRecord>, build_id: Seq<char>)
        ensures
            forall|k: int|
                0 <= k < Self::symbols_outside(symbols, build_id).len() ==> exists|j: int|
                    0 <= j < symbols.len() && #[trigger] Self::symbols_outside(
                        symbols,
                        build_id,
                    )[k] == symbols[j],
            forall|k: int|
                0 <= k < Self::symbols_outside(symbols, build_id).len()
                    ==> #[trigger] Self::symbols_outside(symbols, build_id)[k].build_id != Some(
                    build_id,
                ),
            forall|j: int|
                0 <= j < symbols.len() && #[trigger] symbols[j].build_id != Some(build_id)
                    ==> Self::symbols_outside(symbols, build_id).contains(symbols[j]),
            (forall|i: int, j: int|
                0 <= i < j < symbols.len() ==> #[trigger] symbols[i].id != #[trigger] symbols[j].id)
                ==> forall|i: int, j: int|
                0 <= i < j < Self::symbols_outside(symbols, build_id).len()
                    ==> #[trigger] Self::symbols_outside(symbols, build_id)[i].id
                    != #[trigger] Self::symbols_outside(symbols, build_id)[j].id,
        decreases symbols.len(),
    {
        if symbols.len() > 0 {
            let init = symbols.drop_last();
            Self::lemma_symbols_outside(init, build_id);
            let rest = Self::symbols_outside(init, build_id);
            let out = Self::symbols_outside(symbols, build_id);
            assert forall|k: int| 0 <= k < out.len() implies exists|j: int|
                0 <= j < symbols.len() && #[trigger] out[k] == symbols[j] by {
                if k < rest.len() {
                    let j = choose|j: int| 0 <= j < init.len() && rest[k] == init[j];
                    assert(out[k] == symbols[j]);
                } else {
                    assert(out[k] == symbols[symbols.len() - 1]);
                }
            }
            assert forall|j: int|
                0 <= j < symbols.len() && #[trigger] symbols[j].build_id != Some(
                    build_id,
                ) implies out.contains(symbols[j]) by {
                if j < init.len() {
                    assert(init[j] == symbols[j]);
                    assert(rest.contains(init[j]));
                    let w = choose|w: int| 0 <= w < rest.len() && rest[w] == init[j];
                    assert(out[w] == symbols[j]);
                } else {
                    assert(out[out.len() - 1] == symbols[j]);
                }
            }
            if forall|i: int, j: int|
                0 <= i < j < symbols.len() ==> #[trigger] symbols[i].id != #[trigger] symbols[j].id {
                assert forall|i: int, j: int| 0 <= i < j < out.len() implies #[trigger] out[i].id
                    != #[trigger] out[j].id by {
                    assert forall|a: int, b: int| 0 <= a < b < init.len() implies #[trigger] init[a].id
                        != #[trigger] init[b].id by {
                        assert(init[a] == symbols[a] && init[b] == symbols[b]);
                    }
                    if j >= rest.len() {
                        let w = choose|w: int| 0 <= w < init.len() && rest[i] == init[w];
                        assert(symbols[w] == init[w]);
                        assert(out[j] == symbols[symbols.len() - 1]);
                        assert(symbols[w].id != symbols[symbols.len() - 1].id);
                    } else {
                        assert(out[i] == rest[i] && out[j] == rest[j]);
                    }
                }
            }
        }
    }
}

} // verus!
