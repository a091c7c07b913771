//! Recorded build events, as the conversion reads them.

use vstd::prelude::*;

verus! {

/// The contents of each string.
pub open spec fn string_views(v: Seq<String>) -> Seq<Seq<char>> {
    v.map_values(|k: String| k@)
}

/// What a span is about, as its start event tells.
pub enum SpanStartData {
    /// The whole command; the root span.
    Command,
    /// Analysis of a target, with the target's rendered label.
    Analysis { target: String },
    /// Loading of a build file, with the module's identifier.
    Load { module_id: String },
    /// Execution of an action, with its key and its rendered identity.
    ActionExecution { key: String, name: String },
    /// One stage of an action's execution, with the stage's readable name and whether it
    /// ran on this machine.
    ExecutorStage { stage: String, local: bool },
    /// Synchronisation with the file watcher.
    FileWatcher,
    /// A kind of span that the conversion does not show.
    Other,
    /// A kind of span that this library does not know.
    Unrecognized,
}

/// What kind of span ended.
#[derive(Clone, Copy, PartialEq, Eq, Debug, Structural)]
pub enum SpanEndKind {
    Analysis,
    Load,
    Other,
}

/// Transfer counts of one network interface.
pub struct NetworkInterfaceStats {
    pub interface: String,
    pub tx_bytes: u64,
    pub rx_bytes: u64,
}

/// A periodic sample of resource usage; the byte and time amounts are cumulative.
pub struct Snapshot {
    pub buck2_max_rss: u64,
    pub buck2_user_cpu_us: u64,
    pub buck2_system_cpu_us: u64,
    pub blocking_executor_io_queue_size: u64,
    pub network_interface_stats: Vec<NetworkInterfaceStats>,
    pub re_upload_bytes: u64,
    pub re_download_bytes: u64,
}

/// The critical path of the build: the keys of its actions, and the span ids of its entries
/// where they have one.
pub struct BuildGraphInfo {
    pub critical_path_action_keys: Vec<String>,
    pub critical_path_span_ids: Vec<Option<u64>>,
}

pub enum InstantData {
    Snapshot(Snapshot),
    BuildGraphInfo(BuildGraphInfo),
    /// A kind of instant that the conversion does not read.
    Other,
    /// A kind of instant that this library does not know.
    Unrecognized,
}

pub enum EventData {
    SpanStart { span_id: u64, data: SpanStartData },
    SpanEnd { span_id: u64, kind: SpanEndKind, duration_us: Option<u64> },
    Instant(InstantData),
    Record,
}

/// One recorded event: its time in microseconds since the epoch, the span it belongs to,
/// and what it says.
pub struct Event {
    pub timestamp_us: u64,
    pub parent_id: Option<u64>,
    pub data: EventData,
}

} // verus!
