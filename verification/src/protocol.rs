//! Shared wire types for agent <-> core and MCP <-> core.

use vstd::prelude::*;

verus! {

/// Protocol version spoken by agents and the daemon.
pub const PROTOCOL_VERSION: u32 = 1;

/// Logical identity of a function-like symbol.
#[derive(Debug, Clone)]
pub struct SymbolId {
    pub language: String,
    pub path: String,
    pub qualname: String,
}

/// Mathematical model of a [`SymbolId`]: its three text fields.
pub struct SymbolIdView {
    pub language: Seq<char>,
    pub path: Seq<char>,
    pub qualname: Seq<char>,
}

impl View for SymbolId {
    type V = SymbolIdView;

    open spec fn view(&self) -> SymbolIdView {
        SymbolIdView { language: self.language@, path: self.path@, qualname: self.qualname@ }
    }
}

impl SymbolId {
    pub fn new(language: &str, path: &str, qualname: &str) -> (r: SymbolId)
        ensures
            r.language@ == language@,
            r.path@ == path@,
            r.qualname@ == qualname@,
    {
        SymbolId {
            language: language.to_owned(),
            path: path.to_owned(),
            qualname: qualname.to_owned(),
        }
    }

    /// A field-by-field copy with the same model.
    pub fn duplicate(&self) -> (r: SymbolId)
        ensures
            r@ == self@,
    {
        SymbolId {
            language: self.language.clone(),
            path: self.path.clone(),
            qualname: self.qualname.clone(),
        }
    }
}


/// A runtime aggregate for one symbol over one window, as agents send it.
#[derive(Debug, Clone)]
pub struct FunctionRuntimeStat {
    pub symbol: SymbolId,
    pub invocations: u64,
    pub exceptions: u64,
    pub duration_ns_p50: u64,
    pub duration_ns_p95: u64,
}

/// An observed caller -> callee edge with its call count.
#[derive(Debug, Clone)]
pub struct CallEdge {
    pub caller: SymbolId,
    pub callee: SymbolId,
    pub count: u64,
}

/// One flush of an agent: the aggregates of one time window of one session.
#[derive(Debug, Clone)]
pub struct RuntimeStatBatch {
    pub protocol_version: u32,
    pub session_id: String,
    pub process_id: u32,
    pub window_start_ms: u64,
    pub window_end_ms: u64,
    pub stats: Vec<FunctionRuntimeStat>,
    pub edges: Vec<CallEdge>,
}

/// What a probe command asks an agent to do.
#[derive(Debug, Clone, Copy)]
pub enum ProbeAction {
    Enable,
    Disable,
}

/// A command from the controller to the agents of a session.
#[derive(Debug, Clone)]
pub struct ProbeCommand {
    pub protocol_version: u32,
    pub window_id: String,
    pub action: ProbeAction,
    pub targets: Vec<SymbolId>,
    pub duration_s: u64,
}

/// A ranked symbol of a hot-path query and its metric total.
#[derive(Debug)]
pub struct HotPathEntry {
    pub symbol: SymbolId,
    pub value: u64,
    pub metric: String,
}

pub struct HotPathView {
    pub symbol: SymbolIdView,
    pub value: u64,
    pub metric: Seq<char>,
}

impl View for HotPathEntry {
    type V = HotPathView;

    open spec fn view(&self) -> HotPathView {
        HotPathView { symbol: self.symbol@, value: self.value, metric: self.metric@ }
    }
}

/// A caller (or callee) of a symbol and the number of calls observed.
#[derive(Debug)]
pub struct CallerCount {
    pub qualname: String,
    pub count: u64,
    pub symbol: Option<SymbolId>,
}

pub struct CallerCountView {
    pub qualname: Seq<char>,
    pub count: u64,
    pub symbol: Option<SymbolIdView>,
}

impl View for CallerCount {
    type V = CallerCountView;

    open spec fn view(&self) -> CallerCountView {
        CallerCountView {
            qualname: self.qualname@,
            count: self.count,
            symbol: match self.symbol {
                Some(s) => Some(s@),
                None => None,
            },
        }
    }
}

/// Observed runtime facts about one symbol. Durations are kept in nanoseconds:
/// the sum and number of the p50 samples (their mean is the p50 average) and
/// the largest p95.
#[derive(Debug)]
pub struct FunctionRuntimeSummary {
    pub symbol: SymbolId,
    pub invocations: u64,
    pub exceptions: u64,
    pub duration_ns_p50_total: u128,
    pub duration_samples: u64,
    pub duration_ns_p95_max: u64,
    pub distinct_callers: u64,
    pub top_callers: Vec<CallerCount>,
}

/// What the indexer recorded about a symbol.
#[derive(Debug)]
pub struct StaticSummary {
    pub symbol: SymbolId,
    pub kind: String,
    pub complexity: u32,
    pub param_count: u32,
    pub lines: i64,
    pub syntactic_callee_count: u32,
    pub start_line: u32,
    pub end_line: u32,
}

/// Static callees of a symbol against the callees observed at runtime.
#[derive(Debug)]
pub struct CompareStaticRuntime {
    pub static_callees: u64,
    pub observed_callees: u64,
    pub never_observed_static_callees: Vec<String>,
    pub runtime_only_callees: Vec<String>,
}

/// An indexed symbol that did not run.
#[derive(Debug)]
pub struct UncoveredSymbol {
    pub symbol: SymbolId,
    pub complexity: i64,
    pub path: String,
}

pub struct UncoveredView {
    pub symbol: SymbolIdView,
    pub complexity: i64,
    pub path: Seq<char>,
}

impl View for UncoveredSymbol {
    type V = UncoveredView;

    open spec fn view(&self) -> UncoveredView {
        UncoveredView { symbol: self.symbol@, complexity: self.complexity, path: self.path@ }
    }
}

/// What the store knows statically about a symbol row.
pub struct StaticSummaryView {
    pub symbol: SymbolIdView,
    pub kind: Seq<char>,
    pub complexity: u32,
    pub param_count: u32,
    pub lines: int,
    pub syntactic_callee_count: u32,
    pub start_line: u32,
    pub end_line: u32,
}

impl View for StaticSummary {
    type V = StaticSummaryView;

    open spec fn view(&self) -> StaticSummaryView {
        StaticSummaryView {
            symbol: self.symbol@,
            kind: self.kind@,
            complexity: self.complexity,
            param_count: self.param_count,
            lines: self.lines as int,
            syntactic_callee_count: self.syntactic_callee_count,
            start_line: self.start_line,
            end_line: self.end_line,
        }
    }
}

/// The models of a sequence of texts.
pub open spec fn texts(v: Seq<String>) -> Seq<Seq<char>> {
    v.map_values(|s: String| s@)
}

} // verus!
