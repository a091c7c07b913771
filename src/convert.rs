//! The whole conversion: a first pass over the events, then a second one that builds the
//! trace.

use vstd::prelude::*;

use crate::error::TraceError;
use crate::event::{string_views, Event};
use crate::first_pass::{ChromeTraceFirstPass, FirstPassModel};
use crate::writer::{ChromeTraceWriter, TraceEvents, TraceModel, WriterModel};

verus! {

/// The second pass after the first `n` events, or the first error among them.
pub open spec fn second_pass(w: WriterModel, events: Seq<Event>, n: int) -> Result<WriterModel, TraceError>
    decreases n,
{
    if n <= 0 {
        Ok(w)
    } else {
        match second_pass(w, events, n - 1) {
            Ok(m) => m.step(events[n - 1]),
            Err(e) => Err(e),
        }
    }
}

/// The trace of a build with the given command line and events.
pub open spec fn trace_of(command_line_args: Seq<Seq<char>>, events: Seq<Event>) -> Result<
    TraceModel,
    TraceError,
> {
    match FirstPassModel::over(events, events.len() as int) {
        Err(e) => Err(e),
        Ok(first) => match second_pass(
            ChromeTraceWriter::initial(command_line_args, first),
            events,
            events.len() as int,
        ) {
            Err(e) => Err(e),
            Ok(w) => Ok(w.finish()),
        },
    }
}

/// Whether the event at `i` is the one on which the conversion fails: the first pass fails
/// there, or the first pass succeeds and the second fails there.
pub open spec fn fails_at(command_line_args: Seq<Seq<char>>, events: Seq<Event>, i: int) -> bool {
    &&& 0 <= i < events.len()
    &&& match FirstPassModel::over(events, events.len() as int) {
        Err(_) => FirstPassModel::over(events, i) is Ok && FirstPassModel::over(events, i + 1) is Err,
        Ok(first) => {
            let w0 = ChromeTraceWriter::initial(command_line_args, first);
            second_pass(w0, events, i) is Ok && second_pass(w0, events, i + 1) is Err
        },
    }
}

/// A failed conversion: the position of the event that could not be converted, and why.
#[derive(Clone, Copy, PartialEq, Eq, Debug, Structural)]
pub struct ConversionError {
    pub event_index: usize,
    pub error: TraceError,
}

proof fn lemma_first_pass_error_sticks(events: Seq<Event>, k: int, n: int)
    requires
        0 <= k <= n,
        FirstPassModel::over(events, k) is Err,
    ensures
        FirstPassModel::over(events, n) == FirstPassModel::over(events, k),
    decreases n - k,
{
    if k < n {
        lemma_first_pass_error_sticks(events, k, n - 1);
    }
}

proof fn lemma_second_pass_error_sticks(w: WriterModel, events: Seq<Event>, k: int, n: int)
    requires
        0 <= k <= n,
        second_pass(w, events, k) is Err,
    ensures
        second_pass(w, events, n) == second_pass(w, events, k),
    decreases n - k,
{
    if k < n {
        lemma_second_pass_error_sticks(w, events, k, n - 1);
    }
}

/// Converts the events of one build, in the order they were recorded, into its trace.
pub fn build_trace(command_line_args: &Vec<String>, events: &Vec<Event>) -> (r: Result<
    TraceEvents,
    ConversionError,
>)
    ensures
        match trace_of(string_views(command_line_args@), events@) {
            Ok(t) => r matches Ok(te) && te@ == t,
            Err(e) => r matches Err(ce) && ce.error == e && fails_at(
                string_views(command_line_args@),
                events@,
                ce.event_index as int,
            ),
        },
{
    let ghost n = events@.len() as int;
    let mut first_pass = ChromeTraceFirstPass::new();
    let mut i: usize = 0;
    while i < events.len()
        invariant
            0 <= i <= n,
            n == events@.len(),
            FirstPassModel::over(events@, i as int) == Ok::<FirstPassModel, TraceError>(first_pass@),
        decreases n - i,
    {
        if let Err(e) = first_pass.handle_event(&events[i]) {
            proof {
                lemma_first_pass_error_sticks(events@, i + 1, n);
            }
            return Err(ConversionError { event_index: i, error: e });
        }
        i = i + 1;
    }
    let ghost first = first_pass@;
    let mut writer = ChromeTraceWriter::new(command_line_args, first_pass);
    let ghost w0 = writer@;
    let mut i: usize = 0;
    while i < events.len()
        invariant
            0 <= i <= n,
            n == events@.len(),
            FirstPassModel::over(events@, n) == Ok::<FirstPassModel, TraceError>(first),
            w0 == ChromeTraceWriter::initial(string_views(command_line_args@), first),
            writer.wf(),
            second_pass(w0, events@, i as int) == Ok::<WriterModel, TraceError>(writer@),
        decreases n - i,
    {
        if let Err(e) = writer.handle_event(&events[i]) {
            proof {
                lemma_second_pass_error_sticks(w0, events@, i + 1, n);
            }
            return Err(ConversionError { event_index: i, error: e });
        }
        i = i + 1;
    }
    Ok(writer.into_trace_events())
}

/// Converting the same command line and events twice gives the same trace, record for
/// record.
pub proof fn lemma_conversion_is_deterministic(
    command_line_args: Seq<Seq<char>>,
    events: Seq<Event>,
    first: Result<TraceModel, TraceError>,
    second: Result<TraceModel, TraceError>,
)
    requires
        first == trace_of(command_line_args, events),
        second == trace_of(command_line_args, events),
    ensures
        first == second,
{
}

} // verus!
