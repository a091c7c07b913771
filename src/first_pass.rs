//! The first pass: which spans are interesting enough to show, as far as that is known only
//! at their end or from later events.

use vstd::prelude::*;
use std::collections::HashSet;

use crate::error::TraceError;
use crate::event::{string_views, BuildGraphInfo, Event, EventData, SpanEndKind, SpanStartData, InstantData};

verus! {

/// Analyses that take longer than this, in microseconds, are shown.
pub const LONG_ANALYSIS_CUTOFF_US: u64 = 50_000;

/// Loads that take longer than this, in microseconds, are shown.
pub const LONG_LOAD_CUTOFF_US: u64 = 50_000;

pub struct FirstPassModel {
    pub long_analyses: Set<u64>,
    pub long_loads: Set<u64>,
    pub local_actions: Set<u64>,
    pub critical_path_action_keys: Set<Seq<char>>,
    pub critical_path_span_ids: Set<u64>,
}

/// The span ids that a critical path names.
pub open spec fn named_span_ids(ids: Seq<Option<u64>>) -> Set<u64> {
    Set::new(|s: u64| ids.contains(Some(s)))
}

impl FirstPassModel {
    pub open spec fn empty() -> FirstPassModel {
        FirstPassModel {
            long_analyses: Set::empty(),
            long_loads: Set::empty(),
            local_actions: Set::empty(),
            critical_path_action_keys: Set::empty(),
            critical_path_span_ids: Set::empty(),
        }
    }

    /// What one event adds to the sets.
    pub open spec fn step(self, e: Event) -> Result<FirstPassModel, TraceError> {
        match e.data {
            EventData::SpanStart { span_id, data } => match data {
                SpanStartData::ExecutorStage { stage, local } => if local && e.parent_id is Some {
                    Ok(
                        FirstPassModel {
                            local_actions: self.local_actions.insert(e.parent_id.unwrap()),
                            ..self
                        },
                    )
                } else {
                    Ok(self)
                },
                _ => Ok(self),
            },
            EventData::SpanEnd { span_id, kind, duration_us } => match kind {
                SpanEndKind::Analysis => match duration_us {
                    None => Err(TraceError::MissingDuration),
                    Some(d) => Ok(
                        if d > LONG_ANALYSIS_CUTOFF_US {
                            FirstPassModel { long_analyses: self.long_analyses.insert(span_id), ..self }
                        } else {
                            self
                        },
                    ),
                },
                SpanEndKind::Load => match duration_us {
                    None => Err(TraceError::MissingDuration),
                    Some(d) => Ok(
                        if d > LONG_LOAD_CUTOFF_US {
                            FirstPassModel { long_loads: self.long_loads.insert(span_id), ..self }
                        } else {
                            self
                        },
                    ),
                },
                SpanEndKind::Other => Ok(self),
            },
            EventData::Instant(InstantData::BuildGraphInfo(info)) => Ok(
                FirstPassModel {
                    critical_path_action_keys: string_views(info.critical_path_action_keys@).to_set(),
                    critical_path_span_ids: named_span_ids(info.critical_path_span_ids@),
                    ..self
                },
            ),
            _ => Ok(self),
        }
    }

    /// The sets after the first `n` events, or the first error among them.
    pub open spec fn over(events: Seq<Event>, n: int) -> Result<FirstPassModel, TraceError>
        decreases n,
    {
        if n <= 0 {
            Ok(FirstPassModel::empty())
        } else {
            match FirstPassModel::over(events, n - 1) {
                Ok(m) => m.step(events[n - 1]),
                Err(e) => Err(e),
            }
        }
    }
}

/// The sets of spans that the second pass shows on the strength of what comes later.
pub struct ChromeTraceFirstPass {
    pub long_analyses: HashSet<u64>,
    pub long_loads: HashSet<u64>,
    pub local_actions: HashSet<u64>,
    pub critical_path_action_keys: Vec<String>,
    pub critical_path_span_ids: HashSet<u64>,
}

impl View for ChromeTraceFirstPass {
    type V = FirstPassModel;

    open spec fn view(&self) -> FirstPassModel {
        FirstPassModel {
            long_analyses: self.long_analyses@,
            long_loads: self.long_loads@,
            local_actions: self.local_actions@,
            critical_path_action_keys: string_views(self.critical_path_action_keys@).to_set(),
            critical_path_span_ids: self.critical_path_span_ids@,
        }
    }
}

fn collect_action_keys(info: &BuildGraphInfo) -> (r: Vec<String>)
    ensures
        string_views(r@) == string_views(info.critical_path_action_keys@),
{
    let src = &info.critical_path_action_keys;
    let mut r: Vec<String> = Vec::new();
    let mut i: usize = 0;
    while i < src.len()
        invariant
            0 <= i <= src@.len(),
            r@.len() == i,
            forall|j: int| 0 <= j < i ==> #[trigger] r@[j]@ == src@[j]@,
        decreases src@.len() - i,
    {
        r.push(src[i].clone());
        i = i + 1;
    }
    assert(string_views(r@) =~= string_views(src@));
    r
}

fn collect_span_ids(info: &BuildGraphInfo) -> (r: HashSet<u64>)
    ensures
        r@ == named_span_ids(info.critical_path_span_ids@),
{
    broadcast use vstd::std_specs::hash::group_hash_axioms;

    let src = &info.critical_path_span_ids;
    let mut r: HashSet<u64> = HashSet::new();
    let mut i: usize = 0;
    while i < src.len()
        invariant
            0 <= i <= src@.len(),
            r@ == named_span_ids(src@.subrange(0, i as int)),
        decreases src@.len() - i,
    {
        let ghost before = src@.subrange(0, i as int);
        let ghost after = src@.subrange(0, i + 1);
        assert(after =~= before.push(src@[i as int]));
        match src[i] {
            Some(s) => {
                r.insert(s);
            },
            None => {},
        }
        assert forall|x: u64| after.contains(Some(x)) <==> (before.contains(Some(x)) || src@[i as int] == Some(x)) by {
            if after.contains(Some(x)) {
                let j = choose|j: int| 0 <= j < after.len() && after[j] == Some(x);
                if j < before.len() {
                    assert(before[j] == Some(x));
                }
            }
            if before.contains(Some(x)) {
                let j = choose|j: int| 0 <= j < before.len() && before[j] == Some(x);
                assert(after[j] == Some(x));
            }
            if src@[i as int] == Some(x) {
                assert(after[before.len() as int] == Some(x));
            }
        }
        assert(r@ =~= named_span_ids(after));
        i = i + 1;
    }
    assert(src@.subrange(0, src@.len() as int) =~= src@);
    r
}

impl ChromeTraceFirstPass {
    pub fn new() -> (r: Self)
        ensures
            r@ == FirstPassModel::empty(),
    {
        let r = ChromeTraceFirstPass {
            long_analyses: HashSet::new(),
            long_loads: HashSet::new(),
            local_actions: HashSet::new(),
            critical_path_action_keys: Vec::new(),
            critical_path_span_ids: HashSet::new(),
        };
        assert(r@.critical_path_action_keys =~= Set::<Seq<char>>::empty());
        r
    }

    pub fn handle_event(&mut self, event: &Event) -> (r: Result<(), TraceError>)
        ensures
            match old(self)@.step(*event) {
                Ok(m) => r is Ok && final(self)@ == m,
                Err(e) => r == Err::<(), TraceError>(e) && final(self)@ == old(self)@,
            },
    {
        broadcast use vstd::std_specs::hash::group_hash_axioms;

        match &event.data {
            EventData::SpanStart { span_id, data } => {
                match data {
                    SpanStartData::ExecutorStage { stage, local } => {
                        if *local {
                            match event.parent_id {
                                Some(p) => {
                                    self.local_actions.insert(p);
                                },
                                None => {},
                            }
                        }
                    },
                    _ => {},
                }
            },
            EventData::SpanEnd { span_id, kind, duration_us } => {
                match kind {
                    SpanEndKind::Analysis => match duration_us {
                        None => {
                            return Err(TraceError::MissingDuration);
                        },
                        Some(d) => {
                            if *d > LONG_ANALYSIS_CUTOFF_US {
                                self.long_analyses.insert(*span_id);
                            }
                        },
                    },
                    SpanEndKind::Load => match duration_us {
                        None => {
                            return Err(TraceError::MissingDuration);
                        },
                        Some(d) => {
                            if *d > LONG_LOAD_CUTOFF_US {
                                self.long_loads.insert(*span_id);
                            }
                        },
                    },
                    SpanEndKind::Other => {},
                }
            },
            EventData::Instant(InstantData::BuildGraphInfo(info)) => {
                self.critical_path_action_keys = collect_action_keys(info);
                self.critical_path_span_ids = collect_span_ids(info);
            },
            _ => {},
        }
        Ok(())
    }

    /// Whether an action key is on the critical path.
    pub fn on_critical_path(&self, key: &String) -> (r: bool)
        ensures
            r == self@.critical_path_action_keys.contains(key@),
    {
        let ks = &self.critical_path_action_keys;
        let ghost view = string_views(ks@);
        let mut i: usize = 0;
        while i < ks.len()
            invariant
                0 <= i <= ks@.len(),
                view == string_views(ks@),
                ks == &self.critical_path_action_keys,
                forall|j: int| 0 <= j < i ==> view[j] != key@,
            decreases ks@.len() - i,
        {
            if ks[i] == *key {
                assert(view[i as int] == key@);
                assert(view.contains(key@));
                assert(view.to_set().contains(key@));
                return true;
            }
            i = i + 1;
        }
        assert(!view.contains(key@));
        assert(!view.to_set().contains(key@));
        false
    }
}

} // verus!
