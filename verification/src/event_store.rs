//! The canonical event stream file (`<run_id>.events.json`) kept beside each
//! run record: what is written, and the checks a loaded file must pass.

use crate::text::{concat2, owned, push_str, str_eq};
use crate::trace::{clone_events, event_views, EventView, ExecutionEvent, ExecutionTrace};
use vstd::prelude::*;

verus! {

/// Schema tag of event stream files.
pub const EVENT_STREAM_SCHEMA_V1: &'static str = "aion/event_stream/v1";

/// The contents of an event stream file.
#[derive(Debug)]
pub struct EventStreamFile {
    pub schema: String,
    pub run_id: String,
    pub events: Vec<ExecutionEvent>,
}

/// The file name of a run's event stream.
pub fn events_file_name(run_id: &str) -> (r: String)
    ensures
        r@ == run_id@ + ".events.json"@,
{
    concat2(run_id, ".events.json")
}

/// The temporary name the stream is written under before it is renamed into place.
pub fn events_temp_file_name(run_id: &str) -> (r: String)
    ensures
        r@ == run_id@ + ".events.json.tmp"@,
{
    concat2(run_id, ".events.json.tmp")
}

/// `f` is the event stream file of run `run_id` with these events, under the current schema.
pub open spec fn saved_stream(f: EventStreamFile, run_id: Seq<char>, events: Seq<EventView>) -> bool {
    &&& f.schema@ == EVENT_STREAM_SCHEMA_V1@
    &&& f.run_id@ == run_id
    &&& event_views(f.events@) == events
}

/// The event stream file saved for `run_id`: the current schema and the trace's events.
pub fn save_event_stream(run_id: &str, trace: &ExecutionTrace) -> (f: EventStreamFile)
    ensures
        saved_stream(f, run_id@, event_views(trace.events@)),
{
    EventStreamFile {
        schema: owned(EVENT_STREAM_SCHEMA_V1),
        run_id: owned(run_id),
        events: clone_events(&trace.events),
    }
}

/// The error for a file of another schema.
pub open spec fn schema_error(schema: Seq<char>) -> Seq<char> {
    "unsupported event stream schema: "@ + schema
}

/// The error for a file of another run.
pub open spec fn run_id_error(file_run_id: Seq<char>, requested: Seq<char>) -> Seq<char> {
    "event stream run_id mismatch: file "@ + file_run_id + " vs requested "@ + requested
}

/// What loading `file` for `run_id` gives: refused when the schema is not the
/// current one, or when the file belongs to another run; else the file's trace.
pub open spec fn loaded_stream(file: EventStreamFile, run_id: Seq<char>, r: Result<ExecutionTrace, String>) -> bool {
    &&& file.schema@ != EVENT_STREAM_SCHEMA_V1@ ==> (r matches Err(e) && e@ == schema_error(file.schema@))
    &&& file.schema@ == EVENT_STREAM_SCHEMA_V1@ && file.run_id@ != run_id ==> (r matches Err(e) && e@
        == run_id_error(file.run_id@, run_id))
    &&& file.schema@ == EVENT_STREAM_SCHEMA_V1@ && file.run_id@ == run_id ==> (r matches Ok(t) && t.run_id@
        == run_id && t.events@ == file.events@)
}

/// The trace held by an event stream file loaded for `run_id`: refused when the
/// schema is not the current one, or when the file belongs to another run.
pub fn load_event_stream(file: EventStreamFile, run_id: &str) -> (r: Result<ExecutionTrace, String>)
    ensures
        loaded_stream(file, run_id@, r),
{
    if !str_eq(file.schema.as_str(), EVENT_STREAM_SCHEMA_V1) {
        return Err(concat2("unsupported event stream schema: ", file.schema.as_str()));
    }
    if !str_eq(file.run_id.as_str(), run_id) {
        let mut e = owned("event stream run_id mismatch: file ");
        push_str(&mut e, file.run_id.as_str());
        push_str(&mut e, " vs requested ");
        push_str(&mut e, run_id);
        return Err(e);
    }
    Ok(ExecutionTrace { run_id: file.run_id, events: file.events })
}

} // verus!
