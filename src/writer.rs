//! The second pass: keeps the open spans, puts the ones worth showing on tracks, and
//! gathers the closed spans and the counter series of the trace.

use vstd::prelude::*;
use std::collections::HashMap;

use crate::counters::{
    normalized, valid_timestamp, MAX_TIMESTAMP_US, AverageRateOfChangeCounters, CounterRecord, CounterRecordModel,
    CounterValue, RateModel, SeriesModel, SimpleCounters, SpanCounters, SpanCountersModel,
};
use crate::error::TraceError;
use crate::event::{
    string_views, Event, EventData, InstantData, NetworkInterfaceStats, Snapshot, SpanStartData,
};
use crate::first_pass::{ChromeTraceFirstPass, FirstPassModel};
use crate::track::{
    after_allocation, allocation, track_label, Category, SpanTrackAssignment, TrackId,
    TrackIdAllocator,
};

verus! {

/// Bytes in the unit in which the largest resident set size is shown.
pub const BYTES_PER_GIGABYTE: u64 = 1_000_000_000;

/// A span that has closed, as the trace shows it: name, start and duration in microseconds,
/// process, track, categories, and the span's id.
#[derive(Debug)]
pub struct CompleteEvent {
    pub name: String,
    pub ts: u64,
    pub dur: u64,
    pub pid: u64,
    pub tid: String,
    pub cat: String,
    pub span_id: u64,
}

pub struct CompleteEventModel {
    pub name: Seq<char>,
    pub ts: u64,
    pub dur: u64,
    pub pid: u64,
    pub tid: Seq<char>,
    pub cat: Seq<char>,
    pub span_id: u64,
}

impl View for CompleteEvent {
    type V = CompleteEventModel;

    open spec fn view(&self) -> CompleteEventModel {
        CompleteEventModel {
            name: self.name@,
            ts: self.ts,
            dur: self.dur,
            pid: self.pid,
            tid: self.tid@,
            cat: self.cat@,
            span_id: self.span_id,
        }
    }
}

pub open spec fn span_views(v: Seq<CompleteEvent>) -> Seq<CompleteEventModel> {
    v.map_values(|c: CompleteEvent| c@)
}

pub open spec fn counter_views(v: Seq<CounterRecord>) -> Seq<CounterRecordModel> {
    v.map_values(|c: CounterRecord| c@)
}

/// The records of a trace: the closed spans in the order they closed, then the samples of
/// the counter series.
#[derive(Debug)]
pub struct TraceEvents {
    pub spans: Vec<CompleteEvent>,
    pub counters: Vec<CounterRecord>,
}

pub struct TraceModel {
    pub spans: Seq<CompleteEventModel>,
    pub counters: Seq<CounterRecordModel>,
}

impl View for TraceEvents {
    type V = TraceModel;

    open spec fn view(&self) -> TraceModel {
        TraceModel { spans: span_views(self.spans@), counters: counter_views(self.counters@) }
    }
}

/// A span that is shown and has not yet ended.
pub struct ChromeTraceOpenSpan {
    pub name: String,
    pub start: u64,
    pub process_id: u64,
    pub track: SpanTrackAssignment,
    pub span_id: u64,
}

pub struct OpenSpanModel {
    pub name: Seq<char>,
    pub start: u64,
    pub process_id: u64,
    pub track: SpanTrackAssignment,
    pub span_id: u64,
}

impl View for ChromeTraceOpenSpan {
    type V = OpenSpanModel;

    open spec fn view(&self) -> OpenSpanModel {
        OpenSpanModel {
            name: self.name@,
            start: self.start,
            process_id: self.process_id,
            track: self.track,
            span_id: self.span_id,
        }
    }
}

/// The record of an open span that closed after `duration` microseconds.
pub open spec fn closed_record(open: OpenSpanModel, duration: u64) -> CompleteEventModel {
    CompleteEventModel {
        name: open.name,
        ts: open.start,
        dur: duration,
        pid: open.process_id,
        tid: track_label(open.track.track()),
        cat: "buck2"@,
        span_id: open.span_id,
    }
}

/// An open span together with how long it lasted.
pub struct ChromeTraceClosedSpan {
    pub open: ChromeTraceOpenSpan,
    pub duration: u64,
}

impl ChromeTraceClosedSpan {
    pub fn to_record(self) -> (r: CompleteEvent)
        ensures
            r@ == closed_record(self.open@, self.duration),
    {
        let tid = self.open.track.get_track_id().render();
        CompleteEvent {
            name: self.open.name,
            ts: self.open.start,
            dur: self.duration,
            pid: self.open.process_id,
            tid,
            cat: String::from_str("buck2"),
            span_id: self.open.span_id,
        }
    }
}

/// The words of a command line, each followed by a space but the last.
pub open spec fn joined(words: Seq<Seq<char>>) -> Seq<char>
    decreases words.len(),
{
    if words.len() == 0 {
        Seq::empty()
    } else if words.len() == 1 {
        words[0]
    } else {
        joined(words.drop_last()) + " "@ + words.last()
    }
}

pub fn join_with_spaces(words: &Vec<String>) -> (r: String)
    ensures
        r@ == joined(string_views(words@)),
{
    let mut r = String::new();
    let mut i: usize = 0;
    while i < words.len()
        invariant
            0 <= i <= words@.len(),
            r@ == joined(string_views(words@.subrange(0, i as int))),
        decreases words@.len() - i,
    {
        let ghost before = string_views(words@.subrange(0, i as int));
        let ghost after = string_views(words@.subrange(0, i + 1));
        assert(after.drop_last() =~= before);
        assert(after.last() == words@[i as int]@);
        if i > 0 {
            r.append(" ");
        } else {
            assert(before.len() == 0);
        }
        r.append(words[i].as_str());
        proof {
            if i > 0 {
                assert(r@ =~= joined(before) + " "@ + words@[i as int]@);
            } else {
                assert(r@ =~= words@[i as int]@);
            }
        }
        i = i + 1;
    }
    assert(words@.subrange(0, words@.len() as int) =~= words@);
    r
}

/// Samples a rate series, unless an earlier sample failed.
pub open spec fn and_sample(r: Result<RateModel, TraceError>, ts: u64, key: Seq<char>, amount: u64) -> Result<
    RateModel,
    TraceError,
> {
    match r {
        Ok(m) => m.sample(ts, key, amount),
        Err(e) => Err(e),
    }
}

/// Samples the send and receive counts of the first `n` network interfaces.
pub open spec fn sample_interfaces(
    r: Result<RateModel, TraceError>,
    ts: u64,
    nics: Seq<NetworkInterfaceStats>,
    n: int,
) -> Result<RateModel, TraceError>
    decreases n,
{
    if n <= 0 {
        r
    } else {
        let prev = sample_interfaces(r, ts, nics, n - 1);
        let nic = nics[n - 1];
        and_sample(
            and_sample(prev, ts, nic.interface@ + "_send_bytes"@, nic.tx_bytes),
            ts,
            nic.interface@ + "_receive_bytes"@,
            nic.rx_bytes,
        )
    }
}

/// The state of the second pass.
pub struct WriterModel {
    pub spans: Seq<CompleteEventModel>,
    pub open: Map<u64, OpenSpanModel>,
    pub command_line: Seq<char>,
    pub first_pass: FirstPassModel,
    pub span_counters: SpanCountersModel,
    pub uncategorized_tracks: Set<u64>,
    pub critical_path_tracks: Set<u64>,
    pub snapshot_counters: SeriesModel,
    pub max_rss: SeriesModel,
    pub rates: RateModel,
}

impl WriterModel {
    pub open spec fn wf(self) -> bool {
        &&& self.span_counters.series.wf()
        &&& self.snapshot_counters.wf()
        &&& self.max_rss.wf()
        &&& self.rates.wf()
    }

    pub open spec fn tracks(self, c: Category) -> Set<u64> {
        match c {
            Category::Uncategorized => self.uncategorized_tracks,
            Category::CriticalPath => self.critical_path_tracks,
        }
    }

    pub open spec fn with_tracks(self, c: Category, t: Set<u64>) -> WriterModel {
        match c {
            Category::Uncategorized => WriterModel { uncategorized_tracks: t, ..self },
            Category::CriticalPath => WriterModel { critical_path_tracks: t, ..self },
        }
    }

    /// The track of the parent span, where the parent is open.
    pub open spec fn parent_track(self, parent_id: Option<u64>) -> Option<TrackId> {
        match parent_id {
            Some(p) => if self.open.contains_key(p) {
                Some(self.open[p].track.track())
            } else {
                None
            },
            None => None,
        }
    }

    pub open spec fn bump_while_span(self, span_id: u64, ts: u64, key: Seq<char>) -> WriterModel {
        WriterModel {
            span_counters: self.span_counters.bump_while_span(span_id, ts, key, 1),
            ..self
        }
    }

    /// Shown on the critical path, shown because it ran long, or not shown.
    pub open spec fn long_or_critical(on_critical_path: bool, long: bool) -> Option<Category> {
        if on_critical_path {
            Some(Category::CriticalPath)
        } else if long {
            Some(Category::Uncategorized)
        } else {
            None
        }
    }

    /// The counters that a span start moves, and the name and category under which the span
    /// is shown, if it is.
    pub open spec fn categorize(
        self,
        ts: u64,
        parent_id: Option<u64>,
        span_id: u64,
        data: SpanStartData,
    ) -> (WriterModel, Option<(Seq<char>, Category)>) {
        let on_critical_path = self.first_pass.critical_path_span_ids.contains(span_id);
        match data {
            SpanStartData::Command => (self, Some((self.command_line, Category::Uncategorized))),
            SpanStartData::Analysis { target } => (
                self.bump_while_span(span_id, ts, "analysis"@),
                match WriterModel::long_or_critical(
                    on_critical_path,
                    self.first_pass.long_analyses.contains(span_id),
                ) {
                    Some(c) => Some(("analysis "@ + target@, c)),
                    None => None,
                },
            ),
            SpanStartData::Load { module_id } => (
                self.bump_while_span(span_id, ts, "load"@),
                match WriterModel::long_or_critical(
                    on_critical_path,
                    self.first_pass.long_loads.contains(span_id),
                ) {
                    Some(c) => Some(("load "@ + module_id@, c)),
                    None => None,
                },
            ),
            SpanStartData::ActionExecution { key, name } => (
                self,
                match WriterModel::long_or_critical(
                    self.first_pass.critical_path_action_keys.contains(key@) || on_critical_path,
                    self.first_pass.local_actions.contains(span_id),
                ) {
                    Some(c) => Some((name@, c)),
                    None => None,
                },
            ),
            SpanStartData::ExecutorStage { stage, local } => (
                self.bump_while_span(span_id, ts, stage@),
                if self.parent_track(parent_id) is Some {
                    Some((stage@, Category::Uncategorized))
                } else {
                    None
                },
            ),
            SpanStartData::FileWatcher => (
                self,
                Some(("file_watcher_sync"@, Category::CriticalPath)),
            ),
            _ => (self, None),
        }
    }

    /// Opens a shown span on its parent's track where the parent is open, else on the
    /// smallest free track of its category.
    pub open spec fn open_named_span(
        self,
        ts: u64,
        parent_id: Option<u64>,
        span_id: u64,
        name: Seq<char>,
        category: Category,
    ) -> Result<WriterModel, TraceError> {
        let open_span = |track: SpanTrackAssignment|
            OpenSpanModel { name, start: ts, process_id: 0, track, span_id };
        match self.parent_track(parent_id) {
            Some(t) => Ok(
                WriterModel {
                    open: self.open.insert(span_id, open_span(SpanTrackAssignment::Inherited(t))),
                    ..self
                },
            ),
            None => match allocation(self.tracks(category)) {
                None => Err(TraceError::TracksExhausted),
                Some(o) => {
                    let s = self.with_tracks(category, after_allocation(self.tracks(category)));
                    Ok(
                        WriterModel {
                            open: s.open.insert(
                                span_id,
                                open_span(
                                    SpanTrackAssignment::Owned(
                                        TrackId { category, ordinal: o },
                                    ),
                                ),
                            ),
                            ..s
                        },
                    )
                },
            },
        }
    }

    pub open spec fn start_span(
        self,
        ts: u64,
        parent_id: Option<u64>,
        span_id: u64,
        data: SpanStartData,
    ) -> Result<WriterModel, TraceError> {
        let (s, shown) = self.categorize(ts, parent_id, span_id, data);
        match shown {
            Some((name, category)) => s.open_named_span(ts, parent_id, span_id, name, category),
            None => Ok(s),
        }
    }

    /// Takes back the span's counter contribution, and closes it if it is open: its owned
    /// track is released and its record added.
    pub open spec fn end_span(self, ts: u64, span_id: u64, duration_us: Option<u64>) -> Result<
        WriterModel,
        TraceError,
    > {
        let s = WriterModel { span_counters: self.span_counters.span_end(span_id, ts), ..self };
        if s.open.contains_key(span_id) {
            match duration_us {
                None => Err(TraceError::MissingDuration),
                Some(d) => Ok(s.end_span_opened(span_id, d)),
            }
        } else {
            Ok(s)
        }
    }

    /// Closes the open span `span_id` after `d` microseconds.
    pub open spec fn end_span_opened(self, span_id: u64, d: u64) -> WriterModel {
        let o = self.open[span_id];
        let s2 = match o.track {
            SpanTrackAssignment::Owned(t) => self.with_tracks(
                t.category,
                self.tracks(t.category).remove(t.ordinal),
            ),
            SpanTrackAssignment::Inherited(_) => self,
        };
        WriterModel {
            open: s2.open.remove(span_id),
            spans: s2.spans.push(closed_record(o, d)),
            ..s2
        }
    }

    pub open spec fn snapshot(self, ts: u64, snap: Snapshot) -> Result<WriterModel, TraceError> {
        let r = and_sample(
            and_sample(
                Ok(self.rates),
                ts,
                "average_user_cpu_in_usecs_per_s"@,
                snap.buck2_user_cpu_us,
            ),
            ts,
            "average_system_cpu_in_usecs_per_s"@,
            snap.buck2_system_cpu_us,
        );
        let r = sample_interfaces(
            r,
            ts,
            snap.network_interface_stats@,
            snap.network_interface_stats@.len() as int,
        );
        let r = and_sample(
            and_sample(r, ts, "re_upload_bytes"@, snap.re_upload_bytes),
            ts,
            "re_download_bytes"@,
            snap.re_download_bytes,
        );
        match r {
            Err(e) => Err(e),
            Ok(rates) => Ok(
                WriterModel {
                    max_rss: self.max_rss.set(
                        ts,
                        "max_rss_gigabyte"@,
                        normalized(snap.buck2_max_rss as i128, BYTES_PER_GIGABYTE),
                    ),
                    snapshot_counters: self.snapshot_counters.set(
                        ts,
                        "blocking_executor_io_queue_size"@,
                        CounterValue { num: snap.blocking_executor_io_queue_size as i128, den: 1 },
                    ),
                    rates,
                    ..self
                },
            ),
        }
    }

    /// What one event does to the second pass.
    pub open spec fn step(self, e: Event) -> Result<WriterModel, TraceError> {
        if !valid_timestamp(e.timestamp_us) {
            Err(TraceError::TimestampOutOfRange)
        } else {
            match e.data {
                EventData::SpanStart { span_id, data } => self.start_span(
                    e.timestamp_us,
                    e.parent_id,
                    span_id,
                    data,
                ),
                EventData::SpanEnd { span_id, kind, duration_us } => self.end_span(
                    e.timestamp_us,
                    span_id,
                    duration_us,
                ),
                EventData::Instant(InstantData::Snapshot(snap)) => self.snapshot(e.timestamp_us, snap),
                _ => Ok(self),
            }
        }
    }

    /// The trace: the closed spans, then a last sample of each series after what it holds.
    pub open spec fn finish(self) -> TraceModel {
        TraceModel {
            spans: self.spans,
            counters: self.span_counters.series.flush().records + self.snapshot_counters.flush().records
                + self.max_rss.flush().records + self.rates.series.flush().records,
        }
    }
}

pub open spec fn open_views(m: Map<u64, ChromeTraceOpenSpan>) -> Map<u64, OpenSpanModel> {
    m.map_values(|o: ChromeTraceOpenSpan| o@)
}

/// The second pass over the events of one build.
pub struct ChromeTraceWriter {
    trace_events: Vec<CompleteEvent>,
    open_spans: HashMap<u64, ChromeTraceOpenSpan>,
    command_line: String,
    first_pass: ChromeTraceFirstPass,
    span_counters: SpanCounters,
    uncategorized_tracks: TrackIdAllocator,
    critical_path_tracks: TrackIdAllocator,
    snapshot_counters: SimpleCounters,
    max_rss_gigabytes_counter: SimpleCounters,
    rate_of_change_counters: AverageRateOfChangeCounters,
}

impl View for ChromeTraceWriter {
    type V = WriterModel;

    closed spec fn view(&self) -> WriterModel {
        WriterModel {
            spans: span_views(self.trace_events@),
            open: open_views(self.open_spans@),
            command_line: self.command_line@,
            first_pass: self.first_pass@,
            span_counters: self.span_counters@,
            uncategorized_tracks: self.uncategorized_tracks@,
            critical_path_tracks: self.critical_path_tracks@,
            snapshot_counters: self.snapshot_counters@,
            max_rss: self.max_rss_gigabytes_counter@,
            rates: self.rate_of_change_counters@,
        }
    }
}

impl ChromeTraceWriter {
    pub closed spec fn wf(&self) -> bool {
        &&& self@.wf()
        &&& self.uncategorized_tracks.wf()
        &&& self.critical_path_tracks.wf()
    }

    /// The model of a writer that has seen no event yet.
    pub open spec fn initial(command_line_args: Seq<Seq<char>>, first_pass: FirstPassModel) -> WriterModel {
        WriterModel {
            spans: Seq::empty(),
            open: Map::empty(),
            command_line: joined(command_line_args),
            first_pass,
            span_counters: SpanCountersModel {
                series: SeriesModel::new_series("spans"@, CounterValue::zero()),
                open: Map::empty(),
            },
            uncategorized_tracks: Set::empty(),
            critical_path_tracks: Set::empty(),
            snapshot_counters: SeriesModel::new_series("snapshot_counters"@, CounterValue::zero()),
            max_rss: SeriesModel::new_series("max_rss"@, CounterValue::zero()),
            rates: RateModel {
                series: SeriesModel::new_series("rate_of_change_counters"@, CounterValue::zero()),
                keys: Seq::empty(),
                previous: Seq::empty(),
            },
        }
    }

    pub fn new(command_line_args: &Vec<String>, first_pass: ChromeTraceFirstPass) -> (r: Self)
        ensures
            r.wf(),
            r@ == ChromeTraceWriter::initial(string_views(command_line_args@), first_pass@),
    {
        let rates = AverageRateOfChangeCounters::new(String::from_str("rate_of_change_counters"));
        let r = ChromeTraceWriter {
            trace_events: Vec::new(),
            open_spans: HashMap::new(),
            command_line: join_with_spaces(command_line_args),
            first_pass,
            span_counters: SpanCounters::new(String::from_str("spans")),
            uncategorized_tracks: TrackIdAllocator::new(),
            critical_path_tracks: TrackIdAllocator::new(),
            snapshot_counters: SimpleCounters::new(
                String::from_str("snapshot_counters"),
                CounterValue::integer(0),
            ),
            max_rss_gigabytes_counter: SimpleCounters::new(
                String::from_str("max_rss"),
                CounterValue::integer(0),
            ),
            rate_of_change_counters: rates,
        };
        assert(r@.spans =~= Seq::<CompleteEventModel>::empty());
        assert(r@.open =~= Map::<u64, OpenSpanModel>::empty());
        assert(r@.rates.keys =~= Seq::<Seq<char>>::empty());
        assert(r@.rates.previous.len() == 0);
        assert(r@.rates.previous =~= Seq::<(u64, u64)>::empty());
        assert(r@ =~= ChromeTraceWriter::initial(string_views(command_line_args@), r.first_pass@));
        r
    }

    fn parent_track(&self, parent_id: Option<u64>) -> (r: Option<TrackId>)
        ensures
            r == self@.parent_track(parent_id),
    {
        broadcast use vstd::std_specs::hash::group_hash_axioms;

        match parent_id {
            Some(p) => match self.open_spans.get(&p) {
                Some(open) => Some(open.track.get_track_id()),
                None => None,
            },
            None => None,
        }
    }

    fn assign_track_for_span(&mut self, category: Category, parent_id: Option<u64>) -> (r: Result<
        SpanTrackAssignment,
        TraceError,
    >)
        requires
            old(self).wf(),
        ensures
            final(self).wf(),
            match old(self)@.parent_track(parent_id) {
                Some(t) => r == Ok::<SpanTrackAssignment, TraceError>(SpanTrackAssignment::Inherited(t))
                    && final(self)@ == old(self)@,
                None => match allocation(old(self)@.tracks(category)) {
                    None => r == Err::<SpanTrackAssignment, TraceError>(TraceError::TracksExhausted)
                        && final(self)@ == old(self)@,
                    Some(o) => r == Ok::<SpanTrackAssignment, TraceError>(SpanTrackAssignment::Owned(TrackId { category, ordinal: o }))
                        && final(self)@ == old(self)@.with_tracks(category, after_allocation(old(self)@.tracks(category))),
                },
            },
    {
        match self.parent_track(parent_id) {
            Some(t) => Ok(SpanTrackAssignment::Inherited(t)),
            None => {
                let got = match category {
                    Category::Uncategorized => self.uncategorized_tracks.get_smallest(),
                    Category::CriticalPath => self.critical_path_tracks.get_smallest(),
                };
                match got {
                    Some(o) => {
                        assert(self@ =~= old(self)@.with_tracks(category, after_allocation(old(self)@.tracks(category))));
                        Ok(SpanTrackAssignment::Owned(TrackId { category, ordinal: o }))
                    },
                    None => {
                        assert(self@ =~= old(self)@);
                        Err(TraceError::TracksExhausted)
                    },
                }
            },
        }
    }

    fn open_named_span(
        &mut self,
        ts: u64,
        parent_id: Option<u64>,
        span_id: u64,
        name: String,
        category: Category,
    ) -> (r: Result<(), TraceError>)
        requires
            old(self).wf(),
        ensures
            final(self).wf(),
            match old(self)@.open_named_span(ts, parent_id, span_id, name@, category) {
                Ok(m) => r is Ok && final(self)@ == m,
                Err(e) => r == Err::<(), TraceError>(e),
            },
    {
        broadcast use vstd::std_specs::hash::group_hash_axioms;

        let track = match self.assign_track_for_span(category, parent_id) {
            Ok(t) => t,
            Err(e) => {
                return Err(e);
            },
        };
        let ghost mid = self@;
        let open = ChromeTraceOpenSpan { name, start: ts, process_id: 0, track, span_id };
        self.open_spans.insert(span_id, open);
        assert(self@.open =~= mid.open.insert(span_id, open@));
        assert(self@ =~= old(self)@.open_named_span(ts, parent_id, span_id, name@, category).unwrap());
        Ok(())
    }

    fn release_track(&mut self, track: SpanTrackAssignment)
        requires
            old(self).wf(),
        ensures
            final(self).wf(),
            final(self)@ == match track {
                SpanTrackAssignment::Owned(t) => old(self)@.with_tracks(
                    t.category,
                    old(self)@.tracks(t.category).remove(t.ordinal),
                ),
                SpanTrackAssignment::Inherited(_) => old(self)@,
            },
    {
        match track {
            SpanTrackAssignment::Owned(t) => {
                match t.category {
                    Category::Uncategorized => self.uncategorized_tracks.mark_unused(t.ordinal),
                    Category::CriticalPath => self.critical_path_tracks.mark_unused(t.ordinal),
                }
                assert(self@ =~= old(self)@.with_tracks(t.category, old(self)@.tracks(t.category).remove(t.ordinal)));
            },
            SpanTrackAssignment::Inherited(_) => {},
        }
    }

    pub fn handle_event_end(&mut self, ts: u64, span_id: u64, duration_us: Option<u64>) -> (r: Result<(), TraceError>)
        requires
            old(self).wf(),
            valid_timestamp(ts),
        ensures
            final(self).wf(),
            match old(self)@.end_span(ts, span_id, duration_us) {
                Ok(m) => r is Ok && final(self)@ == m,
                Err(e) => r == Err::<(), TraceError>(e),
            },
    {
        broadcast use vstd::std_specs::hash::group_hash_axioms;

        self.span_counters.handle_event_end(span_id, ts);
        let ghost s = self@;
        assert(s =~= (WriterModel { span_counters: old(self)@.span_counters.span_end(span_id, ts), ..old(self)@ }));
        match self.open_spans.remove(&span_id) {
            Some(open) => {
                assert(s.open.contains_key(span_id));
                assert(s.open[span_id] == open@);
                let duration = match duration_us {
                    Some(d) => d,
                    None => {
                        return Err(TraceError::MissingDuration);
                    },
                };
                let ghost removed = self@;
                assert(removed.open =~= s.open.remove(span_id));
                self.release_track(open.track);
                let closed = ChromeTraceClosedSpan { open, duration };
                let rec = closed.to_record();
                self.trace_events.push(rec);
                assert(span_views(self.trace_events@) =~= removed.spans.push(rec@));
                assert(self@ =~= s.end_span_opened(span_id, duration));
                Ok(())
            },
            None => {
                assert(!s.open.contains_key(span_id));
                assert(self.open_spans@ =~= old(self).open_spans@);
                assert(self@.open =~= s.open);
                assert(self@ =~= s);
                Ok(())
            },
        }
    }

    fn sample_rate(&mut self, ts: u64, key: &String, amount: u64) -> (r: Result<(), TraceError>)
        requires
            old(self).wf(),
            valid_timestamp(ts),
        ensures
            final(self).wf(),
            match old(self)@.rates.sample(ts, key@, amount) {
                Ok(m) => r is Ok && final(self)@ == (WriterModel { rates: m, ..old(self)@ }),
                Err(e) => r == Err::<(), TraceError>(e) && final(self)@ == old(self)@,
            },
    {
        let r = self.rate_of_change_counters.set_average_rate_of_change_per_s(ts, key, amount);
        proof {
            match old(self)@.rates.sample(ts, key@, amount) {
                Ok(m) => {
                    assert(self@ =~= (WriterModel { rates: m, ..old(self)@ }));
                },
                Err(e) => {
                    assert(self@ =~= old(self)@);
                },
            }
        }
        r
    }

    fn handle_snapshot(&mut self, ts: u64, snap: &Snapshot) -> (r: Result<(), TraceError>)
        requires
            old(self).wf(),
            valid_timestamp(ts),
        ensures
            final(self).wf(),
            match old(self)@.snapshot(ts, *snap) {
                Ok(m) => r is Ok && final(self)@ == m,
                Err(e) => r == Err::<(), TraceError>(e),
            },
    {
        let ghost nics = snap.network_interface_stats@;
        let ghost n = nics.len() as int;
        let ghost r0 = and_sample(
            and_sample(
                Ok(old(self)@.rates),
                ts,
                "average_user_cpu_in_usecs_per_s"@,
                snap.buck2_user_cpu_us,
            ),
            ts,
            "average_system_cpu_in_usecs_per_s"@,
            snap.buck2_system_cpu_us,
        );
        let ghost r1 = sample_interfaces(r0, ts, nics, n);
        let ghost r2 = and_sample(
            and_sample(r1, ts, "re_upload_bytes"@, snap.re_upload_bytes),
            ts,
            "re_download_bytes"@,
            snap.re_download_bytes,
        );
        assert(old(self)@.snapshot(ts, *snap) == match r2 {
            Err(e) => Err(e),
            Ok(rates) => Ok(
                WriterModel {
                    max_rss: old(self)@.max_rss.set(
                        ts,
                        "max_rss_gigabyte"@,
                        normalized(snap.buck2_max_rss as i128, BYTES_PER_GIGABYTE),
                    ),
                    snapshot_counters: old(self)@.snapshot_counters.set(
                        ts,
                        "blocking_executor_io_queue_size"@,
                        CounterValue { num: snap.blocking_executor_io_queue_size as i128, den: 1 },
                    ),
                    rates,
                    ..old(self)@
                },
            ),
        });
        self.max_rss_gigabytes_counter.set(
            ts,
            &String::from_str("max_rss_gigabyte"),
            CounterValue::ratio(snap.buck2_max_rss as i128, BYTES_PER_GIGABYTE),
        );
        let r = self.sample_rate(ts, &String::from_str("average_user_cpu_in_usecs_per_s"), snap.buck2_user_cpu_us);
        if let Err(e) = r {
            proof { lemma_failed_chain(r0, ts, *snap, e); }
            return Err(e);
        }
        let r = self.sample_rate(ts, &String::from_str("average_system_cpu_in_usecs_per_s"), snap.buck2_system_cpu_us);
        if let Err(e) = r {
            proof { lemma_failed_chain(r0, ts, *snap, e); }
            return Err(e);
        }
        assert(r0 == Ok::<RateModel, TraceError>(self@.rates));
        self.snapshot_counters.set(
            ts,
            &String::from_str("blocking_executor_io_queue_size"),
            CounterValue { num: snap.blocking_executor_io_queue_size as i128, den: 1 },
        );
        let ghost fixed = self@;
        let mut i: usize = 0;
        while i < snap.network_interface_stats.len()
            invariant
                0 <= i <= n,
                n == snap.network_interface_stats@.len(),
                nics == snap.network_interface_stats@,
                r1 == sample_interfaces(r0, ts, nics, n),
                r2 == and_sample(
                    and_sample(r1, ts, "re_upload_bytes"@, snap.re_upload_bytes),
                    ts,
                    "re_download_bytes"@,
                    snap.re_download_bytes,
                ),
                forall|e: TraceError|
                    r2 == Err::<RateModel, TraceError>(e) ==> old(self)@.snapshot(ts, *snap)
                        == Err::<WriterModel, TraceError>(e),
                valid_timestamp(ts),
                self.wf(),
                sample_interfaces(r0, ts, nics, i as int) == Ok::<RateModel, TraceError>(self@.rates),
                self@ == (WriterModel { rates: self@.rates, ..fixed }),
            decreases n - i,
        {
            let nic = &snap.network_interface_stats[i];
            let mut send = nic.interface.clone();
            send.append("_send_bytes");
            let mut receive = nic.interface.clone();
            receive.append("_receive_bytes");
            let ghost before = self@.rates;
            let r = self.sample_rate(ts, &send, nic.tx_bytes);
            if let Err(e) = r {
                proof {
                    assert(sample_interfaces(r0, ts, nics, i as int + 1) == Err::<RateModel, TraceError>(e));
                    lemma_failed_interfaces(r0, ts, nics, i as int + 1, n);
                    assert(r1 == Err::<RateModel, TraceError>(e));
                    lemma_err_sticks(e, ts, "re_upload_bytes"@, snap.re_upload_bytes);
                    lemma_err_sticks(e, ts, "re_download_bytes"@, snap.re_download_bytes);
                    assert(r2 == Err::<RateModel, TraceError>(e));
                }
                return Err(e);
            }
            let r = self.sample_rate(ts, &receive, nic.rx_bytes);
            if let Err(e) = r {
                proof {
                    assert(sample_interfaces(r0, ts, nics, i as int + 1) == Err::<RateModel, TraceError>(e));
                    lemma_failed_interfaces(r0, ts, nics, i as int + 1, n);
                    assert(r1 == Err::<RateModel, TraceError>(e));
                    lemma_err_sticks(e, ts, "re_upload_bytes"@, snap.re_upload_bytes);
                    lemma_err_sticks(e, ts, "re_download_bytes"@, snap.re_download_bytes);
                    assert(r2 == Err::<RateModel, TraceError>(e));
                }
                return Err(e);
            }
            i = i + 1;
        }
        assert(r1 == Ok::<RateModel, TraceError>(self@.rates));
        let r = self.sample_rate(ts, &String::from_str("re_upload_bytes"), snap.re_upload_bytes);
        if let Err(e) = r {
            return Err(e);
        }
        let r = self.sample_rate(ts, &String::from_str("re_download_bytes"), snap.re_download_bytes);
        if let Err(e) = r {
            return Err(e);
        }
        assert(self@ =~= old(self)@.snapshot(ts, *snap).unwrap());
        Ok(())
    }

    fn handle_span_start(
        &mut self,
        ts: u64,
        parent_id: Option<u64>,
        span_id: u64,
        data: &SpanStartData,
    ) -> (r: Result<(), TraceError>)
        requires
            old(self).wf(),
            valid_timestamp(ts),
        ensures
            final(self).wf(),
            match old(self)@.start_span(ts, parent_id, span_id, *data) {
                Ok(m) => r is Ok && final(self)@ == m,
                Err(e) => r == Err::<(), TraceError>(e),
            },
    {
        broadcast use vstd::std_specs::hash::group_hash_axioms;

        let on_critical_path = self.first_pass.critical_path_span_ids.contains(&span_id);
        let shown: Option<(String, Category)> = match data {
            SpanStartData::Command => Some((self.command_line.clone(), Category::Uncategorized)),
            SpanStartData::Analysis { target } => {
                self.span_counters.bump_counter_while_span(span_id, ts, String::from_str("analysis"), 1);
                let category = if on_critical_path {
                    Some(Category::CriticalPath)
                } else if self.first_pass.long_analyses.contains(&span_id) {
                    Some(Category::Uncategorized)
                } else {
                    None
                };
                match category {
                    Some(c) => {
                        let mut name = String::from_str("analysis ");
                        name.append(target.as_str());
                        Some((name, c))
                    },
                    None => None,
                }
            },
            SpanStartData::Load { module_id } => {
                self.span_counters.bump_counter_while_span(span_id, ts, String::from_str("load"), 1);
                let category = if on_critical_path {
                    Some(Category::CriticalPath)
                } else if self.first_pass.long_loads.contains(&span_id) {
                    Some(Category::Uncategorized)
                } else {
                    None
                };
                match category {
                    Some(c) => {
                        let mut name = String::from_str("load ");
                        name.append(module_id.as_str());
                        Some((name, c))
                    },
                    None => None,
                }
            },
            SpanStartData::ActionExecution { key, name } => {
                let category = if self.first_pass.on_critical_path(key) {
                    Some(Category::CriticalPath)
                } else if on_critical_path {
                    Some(Category::CriticalPath)
                } else if self.first_pass.local_actions.contains(&span_id) {
                    Some(Category::Uncategorized)
                } else {
                    None
                };
                match category {
                    Some(c) => Some((name.clone(), c)),
                    None => None,
                }
            },
            SpanStartData::ExecutorStage { stage, local } => {
                let parent = self.parent_track(parent_id);
                self.span_counters.bump_counter_while_span(span_id, ts, stage.clone(), 1);
                if parent.is_some() {
                    Some((stage.clone(), Category::Uncategorized))
                } else {
                    None
                }
            },
            SpanStartData::FileWatcher => Some(
                (String::from_str("file_watcher_sync"), Category::CriticalPath),
            ),
            _ => None,
        };
        let ghost cat = old(self)@.categorize(ts, parent_id, span_id, *data);
        assert(self@ =~= cat.0);
        assert(match shown {
            Some(p) => cat.1 == Some((p.0@, p.1)),
            None => cat.1 is None,
        });
        match shown {
            Some((name, category)) => self.open_named_span(ts, parent_id, span_id, name, category),
            None => Ok(()),
        }
    }

    pub fn handle_event(&mut self, event: &Event) -> (r: Result<(), TraceError>)
        requires
            old(self).wf(),
        ensures
            final(self).wf(),
            match old(self)@.step(*event) {
                Ok(m) => r is Ok && final(self)@ == m,
                Err(e) => r == Err::<(), TraceError>(e),
            },
    {
        let ts = event.timestamp_us;
        if ts < 1 || ts > MAX_TIMESTAMP_US {
            return Err(TraceError::TimestampOutOfRange);
        }
        match &event.data {
            EventData::SpanStart { span_id, data } => self.handle_span_start(ts, event.parent_id, *span_id, data),
            EventData::SpanEnd { span_id, kind, duration_us } => self.handle_event_end(ts, *span_id, *duration_us),
            EventData::Instant(InstantData::Snapshot(snap)) => self.handle_snapshot(ts, snap),
            _ => Ok(()),
        }
    }

    /// The trace: closed spans, then a last sample of each counter series after all it holds.
    pub fn into_trace_events(self) -> (r: TraceEvents)
        requires
            self.wf(),
        ensures
            r@ == self@.finish(),
    {
        let ghost m = self@;
        let mut w = self;
        let mut counters: Vec<CounterRecord> = Vec::new();
        w.span_counters.flush_all_to(&mut counters);
        w.snapshot_counters.flush_all_to(&mut counters);
        w.max_rss_gigabytes_counter.flush_all_to(&mut counters);
        w.rate_of_change_counters.flush_all_to(&mut counters);
        let r = TraceEvents { spans: w.trace_events, counters };
        assert(counter_views(r.counters@) =~= m.finish().counters);
        r
    }
}

/// Once a rate sample fails, every later one in the chain gives the same error.
proof fn lemma_err_sticks(e: TraceError, ts: u64, key: Seq<char>, amount: u64)
    ensures
        and_sample(Err(e), ts, key, amount) == Err::<RateModel, TraceError>(e),
{
}

proof fn lemma_failed_interfaces(
    r: Result<RateModel, TraceError>,
    ts: u64,
    nics: Seq<NetworkInterfaceStats>,
    k: int,
    n: int,
)
    requires
        0 <= k <= n,
        sample_interfaces(r, ts, nics, k) is Err,
    ensures
        sample_interfaces(r, ts, nics, n) == sample_interfaces(r, ts, nics, k),
    decreases n - k,
{
    if k < n {
        lemma_failed_interfaces(r, ts, nics, k, n - 1);
    }
}

proof fn lemma_failed_chain(r: Result<RateModel, TraceError>, ts: u64, snap: Snapshot, e: TraceError)
    requires
        r == Err::<RateModel, TraceError>(e),
    ensures
        sample_interfaces(r, ts, snap.network_interface_stats@, snap.network_interface_stats@.len() as int)
            == Err::<RateModel, TraceError>(e),
{
    lemma_failed_interfaces(r, ts, snap.network_interface_stats@, 0, snap.network_interface_stats@.len() as int);
}

/// A span that a start event shows is opened with that event's timestamp as its start.
pub proof fn lemma_shown_span_starts_at_its_event(
    w: WriterModel,
    ts: u64,
    parent_id: Option<u64>,
    span_id: u64,
    data: SpanStartData,
)
    requires
        w.categorize(ts, parent_id, span_id, data).1 is Some,
        w.start_span(ts, parent_id, span_id, data) is Ok,
    ensures
        ({
            let m = w.start_span(ts, parent_id, span_id, data).unwrap();
            m.open.contains_key(span_id) && m.open[span_id].start == ts
        }),
{
}

/// When an open span ends, its record starts at the span's recorded start, lasts the
/// duration its end reports, and is added after the records already there.
pub proof fn lemma_closed_span_timing(w: WriterModel, ts: u64, span_id: u64, duration: u64)
    requires
        w.open.contains_key(span_id),
    ensures
        w.end_span(ts, span_id, Some(duration)) is Ok,
        ({
            let m = w.end_span(ts, span_id, Some(duration)).unwrap();
            &&& m.spans == w.spans.push(closed_record(w.open[span_id], duration))
            &&& m.spans.last().ts == w.open[span_id].start
            &&& m.spans.last().dur == duration
            &&& !m.open.contains_key(span_id)
        }),
{
}

/// A shown span whose parent is open is drawn on the parent's track.
pub proof fn lemma_child_inherits_parent_track(
    w: WriterModel,
    ts: u64,
    parent: u64,
    span_id: u64,
    data: SpanStartData,
)
    requires
        w.open.contains_key(parent),
        w.categorize(ts, Some(parent), span_id, data).1 is Some,
    ensures
        w.start_span(ts, Some(parent), span_id, data) is Ok,
        ({
            let m = w.start_span(ts, Some(parent), span_id, data).unwrap();
            &&& m.open[span_id].track == SpanTrackAssignment::Inherited(w.open[parent].track.track())
            &&& track_label(m.open[span_id].track.track()) == track_label(w.open[parent].track.track())
        }),
{
    let s = w.categorize(ts, Some(parent), span_id, data).0;
    assert(s.open == w.open);
}

/// An end event for a span that is not open adds no record, changes no open span, and is
/// no error.
pub proof fn lemma_end_of_unopened_span(w: WriterModel, e: Event)
    requires
        valid_timestamp(e.timestamp_us),
        e.data matches EventData::SpanEnd { span_id, .. } && !w.open.contains_key(span_id),
    ensures
        w.step(e) is Ok,
        w.step(e).unwrap().spans == w.spans,
        w.step(e).unwrap().open == w.open,
{
}

} // verus!
