//! The local intelligence store: builds, symbols, runtime sessions, windowed
//! runtime statistics, observed and static call edges, and probe windows.

use vstd::prelude::*;

use crate::clock::now_ms;
use crate::identity::{is_lower_hex, symbol_id_text, symbol_key};
use crate::model::{
    same_edge_key, same_stat_key,
    BuildRecord, EdgeRecord, ProbeRecord, SessionRecord, StatRecord, StaticEdgeRecord, StoreModel,
    SymbolRecord,
};
use crate::protocol::SymbolId;

mod queries;

verus! {

/// Errors of the store.
#[derive(Debug)]
pub enum StoreError {
    /// A row with the same primary key already exists.
    UniqueConstraint,
    /// A counter or a sum left the range of `u64`.
    IntegerOverflow,
    Other(String),
}

pub type Result<T> = std::result::Result<T, StoreError>;

/// Model of an optional text argument.
pub open spec fn opt_text(o: Option<&str>) -> Option<Seq<char>> {
    match o {
        Some(s) => Some(s@),
        None => None,
    }
}

/// Model of an optional owned text.
pub open spec fn opt_string(o: Option<String>) -> Option<Seq<char>> {
    match o {
        Some(s) => Some(s@),
        None => None,
    }
}

fn opt_owned(o: Option<&str>) -> (r: Option<String>)
    ensures
        opt_string(r) == opt_text(o),
{
    match o {
        Some(s) => Some(s.to_owned()),
        None => None,
    }
}

fn opt_copy(o: &Option<String>) -> (r: Option<String>)
    ensures
        opt_string(r) == opt_string(*o),
{
    match o {
        Some(s) => Some(s.clone()),
        None => None,
    }
}

struct BuildRow {
    id: String,
    indexed_at_ms: u64,
    root_path: String,
}

impl View for BuildRow {
    type V = BuildRecord;

    closed spec fn view(&self) -> BuildRecord {
        BuildRecord { id: self.id@, indexed_at_ms: self.indexed_at_ms, root_path: self.root_path@ }
    }
}

struct SymbolRow {
    id: String,
    build_id: Option<String>,
    symbol: SymbolId,
    kind: String,
    start_line: u32,
    end_line: u32,
    param_count: u32,
    complexity: u32,
    syntactic_callee_count: u32,
}

impl View for SymbolRow {
    type V = SymbolRecord;

    closed spec fn view(&self) -> SymbolRecord {
        SymbolRecord {
            id: self.id@,
            build_id: opt_string(self.build_id),
            symbol: self.symbol@,
            kind: self.kind@,
            start_line: self.start_line,
            end_line: self.end_line,
            param_count: self.param_count,
            complexity: self.complexity,
            syntactic_callee_count: self.syntactic_callee_count,
        }
    }
}

impl SymbolRow {
    fn duplicate(&self) -> (r: SymbolRow)
        ensures
            r@ == self@,
    {
        SymbolRow {
            id: self.id.clone(),
            build_id: opt_copy(&self.build_id),
            symbol: self.symbol.duplicate(),
            kind: self.kind.clone(),
            start_line: self.start_line,
            end_line: self.end_line,
            param_count: self.param_count,
            complexity: self.complexity,
            syntactic_callee_count: self.syntactic_callee_count,
        }
    }
}

struct SessionRow {
    id: String,
    started_at_ms: u64,
    language: Option<String>,
    process_id: u32,
}

impl View for SessionRow {
    type V = SessionRecord;

    closed spec fn view(&self) -> SessionRecord {
        SessionRecord {
            id: self.id@,
            started_at_ms: self.started_at_ms,
            language: opt_string(self.language),
            process_id: self.process_id,
        }
    }
}

struct StatRow {
    session_id: String,
    symbol_id: String,
    window_start_ms: u64,
    window_end_ms: u64,
    invocations: u64,
    exceptions: u64,
    duration_ns_p50: u64,
    duration_ns_p95: u64,
}

impl View for StatRow {
    type V = StatRecord;

    closed spec fn view(&self) -> StatRecord {
        StatRecord {
            session_id: self.session_id@,
            symbol_id: self.symbol_id@,
            window_start_ms: self.window_start_ms,
            window_end_ms: self.window_end_ms,
            invocations: self.invocations,
            exceptions: self.exceptions,
            duration_ns_p50: self.duration_ns_p50,
            duration_ns_p95: self.duration_ns_p95,
        }
    }
}

struct EdgeRow {
    session_id: String,
    caller_id: String,
    callee_id: String,
    window_start_ms: u64,
    count: u64,
}

impl View for EdgeRow {
    type V = EdgeRecord;

    closed spec fn view(&self) -> EdgeRecord {
        EdgeRecord {
            session_id: self.session_id@,
            caller_id: self.caller_id@,
            callee_id: self.callee_id@,
            window_start_ms: self.window_start_ms,
            count: self.count,
        }
    }
}

struct StaticEdgeRow {
    build_id: String,
    caller_id: String,
    callee_id: String,
    uncertain: bool,
}

impl View for StaticEdgeRow {
    type V = StaticEdgeRecord;

    closed spec fn view(&self) -> StaticEdgeRecord {
        StaticEdgeRecord {
            build_id: self.build_id@,
            caller_id: self.caller_id@,
            callee_id: self.callee_id@,
            uncertain: self.uncertain,
        }
    }
}

impl StaticEdgeRow {
    fn duplicate(&self) -> (r: StaticEdgeRow)
        ensures
            r@ == self@,
    {
        StaticEdgeRow {
            build_id: self.build_id.clone(),
            caller_id: self.caller_id.clone(),
            callee_id: self.callee_id.clone(),
            uncertain: self.uncertain,
        }
    }
}

/// A lower-case hyphenated version-4 UUID: 36 characters, hyphens at positions
/// 8, 13, 18 and 23, the version digit `4` at 14, one of `8 9 a b` at 19, and
/// lower-case hexadecimal digits everywhere else.
pub open spec fn is_uuid_v4_text(s: Seq<char>) -> bool {
    &&& s.len() == 36
    &&& forall|i: int|
        0 <= i < 36 ==> if i == 8 || i == 13 || i == 18 || i == 23 {
            #[trigger] s[i] == '-'
        } else {
            is_lower_hex(s[i])
        }
    &&& s[14] == '4'
    &&& (s[19] == '8' || s[19] == '9' || s[19] == 'a' || s[19] == 'b')
}

/// Calls `uuid::Uuid::new_v4` and formats the id with `to_string`. Which id comes
/// out is random and not stated. Trusted: its form. `new_v4` masks 128 random bits
/// so that the version nibble is 4 and the variant bits are `10`, and `Display`
/// writes the lower-case hyphenated form (`LowerHex`).
#[verifier::external_body]
fn fresh_uuid_v4() -> (id: String)
    ensures
        is_uuid_v4_text(id@),
{
    uuid::Uuid::new_v4().to_string()
}

/// A row of the probe window table.
#[derive(Debug, Clone)]
pub struct ProbeWindowRow {
    pub id: String,
    pub session_id: Option<String>,
    pub started_at_ms: u64,
    pub duration_s: u64,
    pub ended_at_ms: Option<u64>,
    pub status: String,
    pub targets_json: String,
}

impl View for ProbeWindowRow {
    type V = ProbeRecord;

    open spec fn view(&self) -> ProbeRecord {
        ProbeRecord {
            id: self.id@,
            session_id: opt_string(self.session_id),
            started_at_ms: self.started_at_ms,
            duration_s: self.duration_s,
            ended_at_ms: self.ended_at_ms,
            status: self.status@,
            targets_json: self.targets_json@,
        }
    }
}

impl ProbeWindowRow {
    /// A field-by-field copy with the same model.
    pub fn duplicate(&self) -> (r: ProbeWindowRow)
        ensures
            r@ == self@,
    {
        ProbeWindowRow {
            id: self.id.clone(),
            session_id: opt_copy(&self.session_id),
            started_at_ms: self.started_at_ms,
            duration_s: self.duration_s,
            ended_at_ms: self.ended_at_ms,
            status: self.status.clone(),
            targets_json: self.targets_json.clone(),
        }
    }
}

/// The store: one table of rows per relation.
pub struct Store {
    builds: Vec<BuildRow>,
    symbols: Vec<SymbolRow>,
    sessions: Vec<SessionRow>,
    stats: Vec<StatRow>,
    edges: Vec<EdgeRow>,
    probes: Vec<ProbeWindowRow>,
    static_edges: Vec<StaticEdgeRow>,
}

impl View for Store {
    type V = StoreModel;

    closed spec fn view(&self) -> StoreModel {
        StoreModel {
            builds: self.builds@.map_values(|r: BuildRow| r@),
            symbols: self.symbols@.map_values(|r: SymbolRow| r@),
            sessions: self.sessions@.map_values(|r: SessionRow| r@),
            stats: self.stats@.map_values(|r: StatRow| r@),
            edges: self.edges@.map_values(|r: EdgeRow| r@),
            probes: self.probes@.map_values(|r: ProbeWindowRow| r@),
            static_edges: self.static_edges@.map_values(|r: StaticEdgeRow| r@),
        }
    }
}

impl Store {
    /// The store's tables satisfy their key and identity constraints.
    pub open spec fn wf(&self) -> bool {
        self@.wf()
    }

    /// A new store with the schema in place and every table empty.
    pub fn open_in_memory() -> (r: Result<Store>)
        ensures
            r matches Ok(s) && s.wf() && s@ == StoreModel::empty(),
    {
        let s = Store {
            builds: Vec::new(),
            symbols: Vec::new(),
            sessions: Vec::new(),
            stats: Vec::new(),
            edges: Vec::new(),
            probes: Vec::new(),
            static_edges: Vec::new(),
        };
        assert(s@ =~= StoreModel::empty());
        Ok(s)
    }

    /// The durable id of a symbol: lower-case hex SHA-256 of
    /// `language NUL path NUL qualname`.
    pub fn symbol_hash(symbol: &SymbolId) -> (id: String)
        ensures
            id@ == symbol_key(symbol@),
            id@.len() == 64,
            forall|i: int| 0 <= i < 64 ==> is_lower_hex(#[trigger] id@[i]),
    {
        symbol_id_text(symbol)
    }

    /// Records a runtime session, or refreshes its language (when one is given)
    /// and process id.
    pub fn ensure_session(
        &mut self,
        session_id: &str,
        language: Option<&str>,
        process_id: u32,
        started_at_ms: u64,
    ) -> (r: Result<()>)
        requires
            old(self).wf(),
        ensures
            final(self).wf(),
            r is Ok,
            final(self)@ == old(self)@.ensure_session(
                session_id@,
                opt_text(language),
                process_id,
                started_at_ms,
            ),
    {
        let id = session_id.to_owned();
        let lang = opt_owned(language);
        let ghost m = self@;
        let n = self.sessions.len();
        let mut i: usize = 0;
        while i < n
            invariant
                n == self.sessions.len(),
                i <= n,
                self@ == m,
                m == old(self)@,
                m.wf(),
                id@ == session_id@,
                opt_string(lang) == opt_text(language),
                forall|k: int| 0 <= k < i ==> #[trigger] m.sessions[k].id != id@,
            decreases n - i,
        {
            if self.sessions[i].id == id {
                let new_language = match lang {
                    Some(l) => Some(l),
                    None => opt_copy(&self.sessions[i].language),
                };
                let row = SessionRow {
                    id,
                    started_at_ms: self.sessions[i].started_at_ms,
                    language: new_language,
                    process_id,
                };
                self.sessions.set(i, row);
                proof {
                    assert(m.sessions[i as int].id == session_id@);
                    assert(m.has_session(session_id@));
                    let target = m.ensure_session(
                        session_id@,
                        opt_text(language),
                        process_id,
                        started_at_ms,
                    );
                    assert forall|k: int| 0 <= k < n implies #[trigger] self@.sessions[k]
                        == target.sessions[k] by {
                        if k != i {
                            if k < i {
                                assert(m.sessions[k].id != m.sessions[i as int].id);
                            } else {
                                assert(m.sessions[i as int].id != m.sessions[k].id);
                            }
                        }
                    }
                    assert(self@.sessions =~= target.sessions);
                    assert(self@ =~= target);
                }
                return Ok(());
            }
            i = i + 1;
        }
        let row = SessionRow { id, started_at_ms, language: lang, process_id };
        self.sessions.push(row);
        proof {
            assert(!m.has_session(session_id@));
            let target = m.ensure_session(
                session_id@,
                opt_text(language),
                process_id,
                started_at_ms,
            );
            assert(self@.sessions =~= target.sessions);
            assert(self@ =~= target);
        }
        Ok(())
    }

    fn find_symbol(&self, id: &String) -> (r: Option<usize>)
        ensures
            match r {
                Some(i) => i < self.symbols.len() && self@.symbols[i as int].id == id@,
                None => !self@.has_symbol(id@),
            },
    {
        let n = self.symbols.len();
        let mut i: usize = 0;
        while i < n
            invariant
                n == self.symbols.len(),
                i <= n,
                forall|k: int| 0 <= k < i ==> #[trigger] self@.symbols[k].id != id@,
            decreases n - i,
        {
            if self.symbols[i].id == *id {
                return Some(i);
            }
            i = i + 1;
        }
        None
    }

    fn find_stat(&self, session_id: &String, symbol_id: &String, window_start_ms: u64) -> (r:
        Option<usize>)
        ensures
            match r {
                Some(i) => i < self.stats.len() && StoreModel::stat_key_matches(
                    self@.stats[i as int],
                    session_id@,
                    symbol_id@,
                    window_start_ms,
                ),
                None => !self@.has_stat(session_id@, symbol_id@, window_start_ms),
            },
    {
        let n = self.stats.len();
        let mut i: usize = 0;
        while i < n
            invariant
                n == self.stats.len(),
                i <= n,
                forall|k: int|
                    0 <= k < i ==> !StoreModel::stat_key_matches(
                        #[trigger] self@.stats[k],
                        session_id@,
                        symbol_id@,
                        window_start_ms,
                    ),
            decreases n - i,
        {
            let row = &self.stats[i];
            if row.session_id == *session_id && row.symbol_id == *symbol_id && row.window_start_ms
                == window_start_ms {
                return Some(i);
            }
            i = i + 1;
        }
        None
    }

    fn find_edge(
        &self,
        session_id: &String,
        caller_id: &String,
        callee_id: &String,
        window_start_ms: u64,
    ) -> (r: Option<usize>)
        ensures
            match r {
                Some(i) => i < self.edges.len() && StoreModel::edge_key_matches(
                    self@.edges[i as int],
                    session_id@,
                    caller_id@,
                    callee_id@,
                    window_start_ms,
                ),
                None => !self@.has_edge(session_id@, caller_id@, callee_id@, window_start_ms),
            },
    {
        let n = self.edges.len();
        let mut i: usize = 0;
        while i < n
            invariant
                n == self.edges.len(),
                i <= n,
                forall|k: int|
                    0 <= k < i ==> !StoreModel::edge_key_matches(
                        #[trigger] self@.edges[k],
                        session_id@,
                        caller_id@,
                        callee_id@,
                        window_start_ms,
                    ),
            decreases n - i,
        {
            let row = &self.edges[i];
            if row.session_id == *session_id && row.caller_id == *caller_id && row.callee_id
                == *callee_id && row.window_start_ms == window_start_ms {
                return Some(i);
            }
            i = i + 1;
        }
        None
    }

    fn find_build(&self, id: &String) -> (r: bool)
        ensures
            r == self@.has_build(id@),
    {
        let n = self.builds.len();
        let mut i: usize = 0;
        while i < n
            invariant
                n == self.builds.len(),
                i <= n,
                forall|k: int| 0 <= k < i ==> #[trigger] self@.builds[k].id != id@,
            decreases n - i,
        {
            if self.builds[i].id == *id {
                assert(self@.builds[i as int].id == id@);
                return true;
            }
            i = i + 1;
        }
        false
    }

    fn find_probe(&self, id: &String) -> (r: Option<usize>)
        ensures
            match r {
                Some(i) => i < self.probes.len() && self@.probes[i as int].id == id@,
                None => !self@.has_probe(id@),
            },
    {
        let n = self.probes.len();
        let mut i: usize = 0;
        while i < n
            invariant
                n == self.probes.len(),
                i <= n,
                forall|k: int| 0 <= k < i ==> #[trigger] self@.probes[k].id != id@,
            decreases n - i,
        {
            if self.probes[i].id == *id {
                return Some(i);
            }
            i = i + 1;
        }
        None
    }

    fn find_static_edge(&self, build_id: &String, caller_id: &String, callee_id: &String) -> (r:
        bool)
        ensures
            r == self@.has_static_edge(build_id@, caller_id@, callee_id@),
    {
        let n = self.static_edges.len();
        let mut i: usize = 0;
        while i < n
            invariant
                n == self.static_edges.len(),
                i <= n,
                forall|k: int|
                    0 <= k < i ==> !(#[trigger] self@.static_edges[k].build_id == build_id@
                        && self@.static_edges[k].caller_id == caller_id@
                        && self@.static_edges[k].callee_id == callee_id@),
            decreases n - i,
        {
            let row = &self.static_edges[i];
            if row.build_id == *build_id && row.caller_id == *caller_id && row.callee_id
                == *callee_id {
                assert(self@.static_edges[i as int].build_id == build_id@);
                return true;
            }
            i = i + 1;
        }
        false
    }

    /// Records a symbol seen at runtime, keeping any row that already has its id.
    /// Returns the symbol's id.
    pub fn ensure_symbol(&mut self, symbol: &SymbolId) -> (r: Result<String>)
        requires
            old(self).wf(),
        ensures
            final(self).wf(),
            r matches Ok(id) && id@ == symbol_key(symbol@),
            final(self)@ == old(self)@.ensure_symbol(symbol@),
    {
        let id = Self::symbol_hash(symbol);
        match self.find_symbol(&id) {
            Some(_) => {
                return Ok(id);
            },
            None => {
                let ghost m = self@;
                let row = SymbolRow {
                    id: id.clone(),
                    build_id: None,
                    symbol: symbol.duplicate(),
                    kind: "function".to_owned(),
                    start_line: 0,
                    end_line: 0,
                    param_count: 0,
                    complexity: 1,
                    syntactic_callee_count: 0,
                };
                self.symbols.push(row);
                proof {
                    let target = m.ensure_symbol(symbol@);
                    assert(self@.symbols =~= target.symbols);
                    assert(self@ =~= target);
                }
                Ok(id)
            },
        }
    }

    /// Records what the indexer found about a symbol in build `build_id`,
    /// creating its row or updating the indexed facts of the existing one.
    /// Returns the symbol's id.
    pub fn insert_indexed_symbol(
        &mut self,
        build_id: &str,
        symbol: &SymbolId,
        kind: &str,
        start_line: u32,
        end_line: u32,
        param_count: u32,
        complexity: u32,
        syntactic_callee_count: u32,
    ) -> (r: Result<String>)
        requires
            old(self).wf(),
        ensures
            final(self).wf(),
            r matches Ok(id) && id@ == symbol_key(symbol@),
            exists|k: int|
                0 <= k < final(self)@.symbols.len() && #[trigger] final(self)@.symbols[k].id
                    == symbol_key(symbol@),
            forall|k: int|
                0 <= k < final(self)@.symbols.len() && #[trigger] final(self)@.symbols[k].id
                    == symbol_key(symbol@) ==> final(self)@.symbols[k].build_id == Some(build_id@)
                    && final(self)@.symbols[k].kind == kind@ && final(self)@.symbols[k].start_line
                    == start_line && final(self)@.symbols[k].end_line == end_line
                    && final(self)@.symbols[k].param_count == param_count
                    && final(self)@.symbols[k].complexity == complexity
                    && final(self)@.symbols[k].syntactic_callee_count == syntactic_callee_count,
            final(self)@ == old(self)@.insert_indexed_symbol(
                build_id@,
                symbol@,
                kind@,
                start_line,
                end_line,
                param_count,
                complexity,
                syntactic_callee_count,
            ),
    {
        let id = Self::symbol_hash(symbol);
        let ghost m = self@;
        let ghost target = m.insert_indexed_symbol(
            build_id@,
            symbol@,
            kind@,
            start_line,
            end_line,
            param_count,
            complexity,
            syntactic_callee_count,
        );
        match self.find_symbol(&id) {
            Some(i) => {
                let row = SymbolRow {
                    id: self.symbols[i].id.clone(),
                    build_id: Some(build_id.to_owned()),
                    symbol: self.symbols[i].symbol.duplicate(),
                    kind: kind.to_owned(),
                    start_line,
                    end_line,
                    param_count,
                    complexity,
                    syntactic_callee_count,
                };
                self.symbols.set(i, row);
                proof {
                    assert(m.has_symbol(id@));
                    assert forall|k: int| 0 <= k < m.symbols.len() implies #[trigger] self@.symbols[k]
                        == target.symbols[k] by {
                        if k != i {
                            if k < i {
                                assert(m.symbols[k].id != m.symbols[i as int].id);
                            } else {
                                assert(m.symbols[i as int].id != m.symbols[k].id);
                            }
                        }
                    }
                    assert(self@.symbols =~= target.symbols);
                    assert(self@ =~= target);
                }
            },
            None => {
                let row = SymbolRow {
                    id: id.clone(),
                    build_id: Some(build_id.to_owned()),
                    symbol: symbol.duplicate(),
                    kind: kind.to_owned(),
                    start_line,
                    end_line,
                    param_count,
                    complexity,
                    syntactic_callee_count,
                };
                self.symbols.push(row);
                proof {
                    assert(self@.symbols =~= target.symbols);
                    assert(self@ =~= target);
                }
            },
        }
        proof {
            crate::laws::law_indexing_moves_the_symbol_to_the_build(
                m,
                build_id@,
                symbol@,
                kind@,
                start_line,
                end_line,
                param_count,
                complexity,
                syntactic_callee_count,
            );
        }
        Ok(id)
    }

    /// Adds a window's aggregates for one symbol of one session: counters add up
    /// with the row already at `(session_id, symbol_id, window_start_ms)`, the window
    /// end and percentiles are replaced. Fails, changing nothing, when a counter
    /// would pass `u64::MAX`.
    pub fn upsert_runtime_stat(
        &mut self,
        session_id: &str,
        symbol_id: &str,
        window_start_ms: u64,
        window_end_ms: u64,
        invocations: u64,
        exceptions: u64,
        duration_ns_p50: u64,
        duration_ns_p95: u64,
    ) -> (r: Result<()>)
        requires
            old(self).wf(),
        ensures
            final(self).wf(),
            match r {
                Ok(()) => !old(self)@.stat_upsert_overflows(
                    session_id@,
                    symbol_id@,
                    window_start_ms,
                    invocations,
                    exceptions,
                ) && final(self)@ == old(self)@.upsert_stat(
                    session_id@,
                    symbol_id@,
                    window_start_ms,
                    window_end_ms,
                    invocations,
                    exceptions,
                    duration_ns_p50,
                    duration_ns_p95,
                ),
                Err(e) => e is IntegerOverflow && old(self)@.stat_upsert_overflows(
                    session_id@,
                    symbol_id@,
                    window_start_ms,
                    invocations,
                    exceptions,
                ) && final(self)@ == old(self)@,
            },
            r is Ok ==> exists|k: int|
                0 <= k < final(self)@.stats.len() && #[trigger] final(self)@.stats[k].session_id
                    == session_id@ && final(self)@.stats[k].symbol_id == symbol_id@
                    && final(self)@.stats[k].window_start_ms == window_start_ms,
            r is Ok ==> forall|k: int|
                0 <= k < final(self)@.stats.len() && #[trigger] final(self)@.stats[k].session_id
                    == session_id@ && final(self)@.stats[k].symbol_id == symbol_id@
                    && final(self)@.stats[k].window_start_ms == window_start_ms
                    ==> final(self)@.stats[k].window_end_ms == window_end_ms
                    && final(self)@.stats[k].duration_ns_p50 == duration_ns_p50
                    && final(self)@.stats[k].duration_ns_p95 == duration_ns_p95,
    {
        let sid = session_id.to_owned();
        let sym = symbol_id.to_owned();
        let ghost m = self@;
        let ghost target = m.upsert_stat(
            session_id@,
            symbol_id@,
            window_start_ms,
            window_end_ms,
            invocations,
            exceptions,
            duration_ns_p50,
            duration_ns_p95,
        );
        proof {
            crate::laws::law_upsert_takes_the_new_window_values(
                m,
                session_id@,
                symbol_id@,
                window_start_ms,
                window_end_ms,
                invocations,
                exceptions,
                duration_ns_p50,
                duration_ns_p95,
            );
        }
        match self.find_stat(&sid, &sym, window_start_ms) {
            Some(i) => {
                let new_inv = self.stats[i].invocations.checked_add(invocations);
                let new_exc = self.stats[i].exceptions.checked_add(exceptions);
                if new_inv.is_none() || new_exc.is_none() {
                    assert(m.stat_upsert_overflows(
                        session_id@,
                        symbol_id@,
                        window_start_ms,
                        invocations,
                        exceptions,
                    )) by {
                        assert(StoreModel::stat_key_matches(
                            m.stats[i as int],
                            session_id@,
                            symbol_id@,
                            window_start_ms,
                        ));
                    }
                    return Err(StoreError::IntegerOverflow);
                }
                proof {
                    assert forall|k: int| 0 <= k < m.stats.len() && k != i implies !StoreModel::stat_key_matches(
                        #[trigger] m.stats[k],
                        session_id@,
                        symbol_id@,
                        window_start_ms,
                    ) by {
                        if k < i {
                            assert(!same_stat_key(m.stats[k], m.stats[i as int]));
                        } else {
                            assert(!same_stat_key(m.stats[i as int], m.stats[k]));
                        }
                    }
                }
                let row = StatRow {
                    session_id: sid,
                    symbol_id: sym,
                    window_start_ms,
                    window_end_ms,
                    invocations: new_inv.unwrap(),
                    exceptions: new_exc.unwrap(),
                    duration_ns_p50,
                    duration_ns_p95,
                };
                self.stats.set(i, row);
                proof {
                    assert(m.has_stat(session_id@, symbol_id@, window_start_ms));
                    assert(self@.stats =~= target.stats);
                    assert(self@ =~= target);
                }
                Ok(())
            },
            None => {
                let row = StatRow {
                    session_id: sid,
                    symbol_id: sym,
                    window_start_ms,
                    window_end_ms,
                    invocations,
                    exceptions,
                    duration_ns_p50,
                    duration_ns_p95,
                };
                self.stats.push(row);
                proof {
                    assert(self@.stats =~= target.stats);
                    assert(self@ =~= target);
                }
                Ok(())
            },
        }
    }

    /// Adds `count` observed calls from `caller_id` to `callee_id` in one window of a
    /// session. Fails, changing nothing, when the edge's count would pass `u64::MAX`.
    pub fn upsert_edge(
        &mut self,
        session_id: &str,
        caller_id: &str,
        callee_id: &str,
        window_start_ms: u64,
        count: u64,
    ) -> (r: Result<()>)
        requires
            old(self).wf(),
        ensures
            final(self).wf(),
            match r {
                Ok(()) => !old(self)@.edge_upsert_overflows(
                    session_id@,
                    caller_id@,
                    callee_id@,
                    window_start_ms,
                    count,
                ) && final(self)@ == old(self)@.upsert_edge(
                    session_id@,
                    caller_id@,
                    callee_id@,
                    window_start_ms,
                    count,
                ),
                Err(e) => e is IntegerOverflow && old(self)@.edge_upsert_overflows(
                    session_id@,
                    caller_id@,
                    callee_id@,
                    window_start_ms,
                    count,
                ) && final(self)@ == old(self)@,
            },
    {
        let sid = session_id.to_owned();
        let caller = caller_id.to_owned();
        let callee = callee_id.to_owned();
        let ghost m = self@;
        let ghost target = m.upsert_edge(
            session_id@,
            caller_id@,
            callee_id@,
            window_start_ms,
            count,
        );
        match self.find_edge(&sid, &caller, &callee, window_start_ms) {
            Some(i) => {
                let new_count = self.edges[i].count.checked_add(count);
                if new_count.is_none() {
                    assert(m.edge_upsert_overflows(
                        session_id@,
                        caller_id@,
                        callee_id@,
                        window_start_ms,
                        count,
                    )) by {
                        assert(StoreModel::edge_key_matches(
                            m.edges[i as int],
                            session_id@,
                            caller_id@,
                            callee_id@,
                            window_start_ms,
                        ));
                    }
                    return Err(StoreError::IntegerOverflow);
                }
                proof {
                    assert forall|k: int| 0 <= k < m.edges.len() && k != i implies !StoreModel::edge_key_matches(
                        #[trigger] m.edges[k],
                        session_id@,
                        caller_id@,
                        callee_id@,
                        window_start_ms,
                    ) by {
                        if k < i {
                            assert(!same_edge_key(m.edges[k], m.edges[i as int]));
                        } else {
                            assert(!same_edge_key(m.edges[i as int], m.edges[k]));
                        }
                    }
                }
                let row = EdgeRow {
                    session_id: sid,
                    caller_id: caller,
                    callee_id: callee,
                    window_start_ms,
                    count: new_count.unwrap(),
                };
                self.edges.set(i, row);
                proof {
                    assert(m.has_edge(session_id@, caller_id@, callee_id@, window_start_ms));
                    assert(self@.edges =~= target.edges);
                    assert(self@ =~= target);
                }
                Ok(())
            },
            None => {
                let row = EdgeRow {
                    session_id: sid,
                    caller_id: caller,
                    callee_id: callee,
                    window_start_ms,
                    count,
                };
                self.edges.push(row);
                proof {
                    assert(self@.edges =~= target.edges);
                    assert(self@ =~= target);
                }
                Ok(())
            },
        }
    }

    /// Inserts a build row with the given id, time and root. Fails, changing
    /// nothing, when a build with that id exists.
    pub fn record_build(&mut self, id: &str, indexed_at_ms: u64, root_path: &str) -> (r: Result<
        ()>)
        requires
            old(self).wf(),
        ensures
            final(self).wf(),
            match r {
                Ok(()) => !old(self)@.has_build(id@) && final(self)@ == old(self)@.add_build(
                    id@,
                    indexed_at_ms,
                    root_path@,
                ),
                Err(e) => e is UniqueConstraint && old(self)@.has_build(id@) && final(self)@
                    == old(self)@,
            },
    {
        let key = id.to_owned();
        if self.find_build(&key) {
            return Err(StoreError::UniqueConstraint);
        }
        let ghost m = self@;
        self.builds.push(BuildRow { id: key, indexed_at_ms, root_path: root_path.to_owned() });
        proof {
            let target = m.add_build(id@, indexed_at_ms, root_path@);
            assert(self@.builds =~= target.builds);
            assert(self@ =~= target);
        }
        Ok(())
    }

    /// Records a syntactic call edge of a build; an edge already recorded for the
    /// same build, caller and callee is kept as it is.
    pub fn insert_static_edge(
        &mut self,
        build_id: &str,
        caller_id: &str,
        callee_id: &str,
        uncertain: bool,
    ) -> (r: Result<()>)
        requires
            old(self).wf(),
        ensures
            final(self).wf(),
            r is Ok,
            final(self)@ == old(self)@.insert_static_edge(
                build_id@,
                caller_id@,
                callee_id@,
                uncertain,
            ),
    {
        let build = build_id.to_owned();
        let caller = caller_id.to_owned();
        let callee = callee_id.to_owned();
        if self.find_static_edge(&build, &caller, &callee) {
            return Ok(());
        }
        let ghost m = self@;
        self.static_edges.push(
            StaticEdgeRow { build_id: build, caller_id: caller, callee_id: callee, uncertain },
        );
        proof {
            let target = m.insert_static_edge(build_id@, caller_id@, callee_id@, uncertain);
            assert(self@.static_edges =~= target.static_edges);
            assert(self@ =~= target);
        }
        Ok(())
    }

    /// Opens a probe window with status `active`. Fails, changing nothing, when a
    /// window with that id exists.
    pub fn create_probe_window(
        &mut self,
        id: &str,
        session_id: Option<&str>,
        started_at_ms: u64,
        duration_s: u64,
        targets_json: &str,
    ) -> (r: Result<()>)
        requires
            old(self).wf(),
        ensures
            final(self).wf(),
            match r {
                Ok(()) => !old(self)@.has_probe(id@) && final(self)@ == old(self)@.add_probe(
                    id@,
                    opt_text(session_id),
                    started_at_ms,
                    duration_s,
                    targets_json@,
                ),
                Err(e) => e is UniqueConstraint && old(self)@.has_probe(id@) && final(self)@
                    == old(self)@,
            },
    {
        let key = id.to_owned();
        if self.find_probe(&key).is_some() {
            return Err(StoreError::UniqueConstraint);
        }
        let ghost m = self@;
        let row = ProbeWindowRow {
            id: key,
            session_id: opt_owned(session_id),
            started_at_ms,
            duration_s,
            ended_at_ms: None,
            status: "active".to_owned(),
            targets_json: targets_json.to_owned(),
        };
        self.probes.push(row);
        proof {
            let target = m.add_probe(
                id@,
                opt_text(session_id),
                started_at_ms,
                duration_s,
                targets_json@,
            );
            assert(self@.probes =~= target.probes);
            assert(self@ =~= target);
        }
        Ok(())
    }

    /// Sets the status and end time of the probe window `id`, if there is one.
    pub fn update_probe_status(&mut self, id: &str, status: &str, ended_at_ms: Option<u64>) -> (r:
        Result<()>)
        requires
            old(self).wf(),
        ensures
            final(self).wf(),
            r is Ok,
            final(self)@ == old(self)@.update_probe(id@, status@, ended_at_ms),
    {
        let key = id.to_owned();
        let ghost m = self@;
        let ghost target = m.update_probe(id@, status@, ended_at_ms);
        match self.find_probe(&key) {
            Some(i) => {
                let row = ProbeWindowRow {
                    id: key,
                    session_id: opt_copy(&self.probes[i].session_id),
                    started_at_ms: self.probes[i].started_at_ms,
                    duration_s: self.probes[i].duration_s,
                    ended_at_ms,
                    status: status.to_owned(),
                    targets_json: self.probes[i].targets_json.clone(),
                };
                self.probes.set(i, row);
                proof {
                    assert forall|k: int| 0 <= k < m.probes.len() implies #[trigger] self@.probes[k]
                        == target.probes[k] by {
                        if k != i {
                            if k < i {
                                assert(m.probes[k].id != m.probes[i as int].id);
                            } else {
                                assert(m.probes[i as int].id != m.probes[k].id);
                            }
                        }
                    }
                    assert(self@.probes =~= target.probes);
                    assert(self@ =~= target);
                }
            },
            None => {
                proof {
                    assert(self@.probes =~= target.probes);
                    assert(self@ =~= target);
                }
            },
        }
        Ok(())
    }

    /// Starts a build of `root_path`: a fresh random id and the current time.
    /// Returns the build id; fails, changing nothing, only if the drawn id is
    /// already a build id.
    pub fn begin_build(&mut self, root_path: &str) -> (r: Result<String>)
        requires
            old(self).wf(),
        ensures
            final(self).wf(),
            match r {
                Ok(id) => is_uuid_v4_text(id@) && !old(self)@.has_build(id@) && exists|t: u64|
                    final(self)@ == #[trigger] old(self)@.add_build(id@, t, root_path@),
                Err(e) => e is UniqueConstraint && final(self)@ == old(self)@ && exists|
                    id: Seq<char>,
                | #[trigger] old(self)@.has_build(id) && is_uuid_v4_text(id),
            },
    {
        let id = fresh_uuid_v4();
        let now = now_ms();
        match self.record_build(id.as_str(), now, root_path) {
            Ok(()) => {
                assert(!old(self)@.has_build(id@));
                assert(self@ == old(self)@.add_build(id@, now, root_path@));
                assert(exists|t: u64| self@ == #[trigger] old(self)@.add_build(id@, t, root_path@));
                Ok(id)
            },
            Err(e) => {
                assert(old(self)@.has_build(id@));
                Err(e)
            },
        }
    }

    /// Deletes the symbols and static edges that belong to build `build_id`.
    pub fn clear_build_symbols(&mut self, build_id: &str) -> (r: Result<()>)
        requires
            old(self).wf(),
        ensures
            final(self).wf(),
            r is Ok,
            final(self)@ == old(self)@.clear_build(build_id@),
    {
        let key = build_id.to_owned();
        let ghost m = self@;
        let mut kept_edges: Vec<StaticEdgeRow> = Vec::new();
        let n = self.static_edges.len();
        let mut i: usize = 0;
        while i < n
            invariant
                n == self.static_edges.len(),
                i <= n,
                self@ == m,
                key@ == build_id@,
                kept_edges@.map_values(|r: StaticEdgeRow| r@) == StoreModel::static_edges_outside(
                    m.static_edges.take(i as int),
                    build_id@,
                ),
            decreases n - i,
        {
            assert(m.static_edges.take(i + 1).drop_last() =~= m.static_edges.take(i as int));
            if self.static_edges[i].build_id != key {
                kept_edges.push(self.static_edges[i].duplicate());
            }
            i = i + 1;
            assert(kept_edges@.map_values(|r: StaticEdgeRow| r@) =~= StoreModel::static_edges_outside(
                m.static_edges.take(i as int),
                build_id@,
            ));
        }
        let mut kept_symbols: Vec<SymbolRow> = Vec::new();
        let n2 = self.symbols.len();
        let mut j: usize = 0;
        while j < n2
            invariant
                n2 == self.symbols.len(),
                j <= n2,
                self@ == m,
                key@ == build_id@,
                kept_symbols@.map_values(|r: SymbolRow| r@) == StoreModel::symbols_outside(
                    m.symbols.take(j as int),
                    build_id@,
                ),
            decreases n2 - j,
        {
            assert(m.symbols.take(j + 1).drop_last() =~= m.symbols.take(j as int));
            let keep = match &self.symbols[j].build_id {
                Some(b) => *b != key,
                None => true,
            };
            if keep {
                kept_symbols.push(self.symbols[j].duplicate());
            }
            j = j + 1;
            assert(kept_symbols@.map_values(|r: SymbolRow| r@) =~= StoreModel::symbols_outside(
                m.symbols.take(j as int),
                build_id@,
            ));
        }
        assert(m.static_edges.take(n as int) =~= m.static_edges);
        assert(m.symbols.take(n2 as int) =~= m.symbols);
        self.static_edges = kept_edges;
        self.symbols = kept_symbols;
        proof {
            let target = m.clear_build(build_id@);
            assert(self@ =~= target);
            StoreModel::lemma_static_edges_outside(m.static_edges, build_id@);
            StoreModel::lemma_symbols_outside(m.symbols, build_id@);
            assert forall|k: int| 0 <= k < target.symbols.len() implies #[trigger] target.symbols[k].id
                == symbol_key(target.symbols[k].symbol) by {
                let w = choose|w: int| 0 <= w < m.symbols.len() && target.symbols[k] == m.symbols[w];
                assert(m.symbols[w].id == symbol_key(m.symbols[w].symbol));
            }
        }
        Ok(())
    }
}

} // verus!
