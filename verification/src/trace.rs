//! The canonical event timeline of one captured execution.

use crate::text::{dec_text, i32_text, int_text, join_seq, join_strings, owned, push_str, u128_text, views};
use vstd::prelude::*;

verus! {

/// One event of an execution timeline.
#[derive(Debug)]
pub enum ExecutionEvent {
    Spawn { command: String },
    EnvResolved { keys: Vec<String> },
    Stdout { chunk: String },
    Stderr { chunk: String },
    Exit { code: i32 },
    Timing { duration_ms: u128 },
}

/// The mathematical value of an event: its strings as character sequences.
pub enum EventView {
    Spawn(Seq<char>),
    EnvResolved(Seq<Seq<char>>),
    Stdout(Seq<char>),
    Stderr(Seq<char>),
    Exit(int),
    Timing(nat),
}

impl View for ExecutionEvent {
    type V = EventView;

    open spec fn view(&self) -> EventView {
        match self {
            ExecutionEvent::Spawn { command } => EventView::Spawn(command@),
            ExecutionEvent::EnvResolved { keys } => EventView::EnvResolved(views(keys@)),
            ExecutionEvent::Stdout { chunk } => EventView::Stdout(chunk@),
            ExecutionEvent::Stderr { chunk } => EventView::Stderr(chunk@),
            ExecutionEvent::Exit { code } => EventView::Exit(*code as int),
            ExecutionEvent::Timing { duration_ms } => EventView::Timing(*duration_ms as nat),
        }
    }
}

/// An ordered execution timeline for one run.
#[derive(Debug)]
pub struct ExecutionTrace {
    pub run_id: String,
    pub events: Vec<ExecutionEvent>,
}

/// The views of a sequence of events.
pub open spec fn event_views(v: Seq<ExecutionEvent>) -> Seq<EventView> {
    v.map_values(|e: ExecutionEvent| e@)
}

/// Equality of two string vectors by content.
pub fn strings_eq(a: &Vec<String>, b: &Vec<String>) -> (r: bool)
    ensures
        r == (views(a@) == views(b@)),
{
    if a.len() != b.len() {
        assert(views(a@).len() != views(b@).len());
        return false;
    }
    let n = a.len();
    for i in 0..n
        invariant
            n == a@.len(),
            n == b@.len(),
            forall|j: int| 0 <= j < i ==> a@[j]@ == b@[j]@,
    {
        if a[i] != b[i] {
            assert(views(a@)[i as int] != views(b@)[i as int]);
            return false;
        }
    }
    assert(views(a@) =~= views(b@));
    true
}

/// Copies a string vector.
pub fn clone_strings(v: &Vec<String>) -> (r: Vec<String>)
    ensures
        r@ == v@,
{
    let mut r: Vec<String> = Vec::new();
    let n = v.len();
    for i in 0..n
        invariant
            n == v@.len(),
            r@ == v@.take(i as int),
    {
        r.push(v[i].clone());
        assert(v@.take(i + 1) == v@.take(i as int).push(v@[i as int]));
    }
    assert(v@.take(n as int) == v@);
    r
}

impl ExecutionEvent {
    /// Equality of two events by content.
    pub fn same_as(&self, other: &ExecutionEvent) -> (r: bool)
        ensures
            r == (self@ == other@),
    {
        match (self, other) {
            (ExecutionEvent::Spawn { command: a }, ExecutionEvent::Spawn { command: b }) => {
                crate::text::str_eq(a.as_str(), b.as_str())
            },
            (ExecutionEvent::EnvResolved { keys: a }, ExecutionEvent::EnvResolved { keys: b }) => {
                strings_eq(a, b)
            },
            (ExecutionEvent::Stdout { chunk: a }, ExecutionEvent::Stdout { chunk: b }) => {
                crate::text::str_eq(a.as_str(), b.as_str())
            },
            (ExecutionEvent::Stderr { chunk: a }, ExecutionEvent::Stderr { chunk: b }) => {
                crate::text::str_eq(a.as_str(), b.as_str())
            },
            (ExecutionEvent::Exit { code: a }, ExecutionEvent::Exit { code: b }) => *a == *b,
            (
                ExecutionEvent::Timing { duration_ms: a },
                ExecutionEvent::Timing { duration_ms: b },
            ) => *a == *b,
            _ => false,
        }
    }

    /// A copy of the event.
    pub fn duplicate(&self) -> (r: ExecutionEvent)
        ensures
            r@ == self@,
    {
        match self {
            ExecutionEvent::Spawn { command } => ExecutionEvent::Spawn { command: command.clone() },
            ExecutionEvent::EnvResolved { keys } => ExecutionEvent::EnvResolved {
                keys: clone_strings(keys),
            },
            ExecutionEvent::Stdout { chunk } => ExecutionEvent::Stdout { chunk: chunk.clone() },
            ExecutionEvent::Stderr { chunk } => ExecutionEvent::Stderr { chunk: chunk.clone() },
            ExecutionEvent::Exit { code } => ExecutionEvent::Exit { code: *code },
            ExecutionEvent::Timing { duration_ms } => ExecutionEvent::Timing {
                duration_ms: *duration_ms,
            },
        }
    }
}

/// Copies a sequence of events.
pub fn clone_events(v: &Vec<ExecutionEvent>) -> (r: Vec<ExecutionEvent>)
    ensures
        event_views(r@) == event_views(v@),
{
    let mut r: Vec<ExecutionEvent> = Vec::new();
    let n = v.len();
    for i in 0..n
        invariant
            n == v@.len(),
            r@.len() == i,
            forall|j: int| 0 <= j < i ==> r@[j]@ == v@[j]@,
    {
        r.push(v[i].duplicate());
    }
    assert(event_views(r@) =~= event_views(v@));
    r
}

/// The mathematical value of a trace.
pub struct TraceView {
    pub run_id: Seq<char>,
    pub events: Seq<EventView>,
}

impl View for ExecutionTrace {
    type V = TraceView;

    open spec fn view(&self) -> TraceView {
        TraceView { run_id: self.run_id@, events: event_views(self.events@) }
    }
}

impl ExecutionTrace {
    /// A copy of the trace.
    pub fn duplicate(&self) -> (r: ExecutionTrace)
        ensures
            r@ == self@,
    {
        ExecutionTrace { run_id: self.run_id.clone(), events: clone_events(&self.events) }
    }
}

// ---------------------------------------------------------------------------
// Debug rendering (`{:?}`)
// ---------------------------------------------------------------------------

/// The `Debug` rendering of a string: quoted, with `char::escape_debug` escapes.
pub uninterp spec fn debug_quoted(s: Seq<char>) -> Seq<char>;

/// `format!("{:?}", s)` for a string slice (std's `Debug for str`).
/// Trusted: the result is taken to be `debug_quoted(s)`, a function of `s` alone.
#[verifier::external_body]
pub(crate) fn debug_text(s: &str) -> (r: String)
    ensures
        r@ == debug_quoted(s@),
{
    format!("{:?}", s)
}

/// The `Debug` rendering of a list of strings: `["a", "b"]`.
pub open spec fn debug_list(items: Seq<Seq<char>>) -> Seq<char> {
    "["@ + join_seq(items.map_values(|s: Seq<char>| debug_quoted(s)), ", "@) + "]"@
}

/// The derived `Debug` rendering of an event, e.g. `Spawn { command: "echo hi" }`.
pub open spec fn event_debug(e: EventView) -> Seq<char> {
    match e {
        EventView::Spawn(c) => "Spawn { command: "@ + debug_quoted(c) + " }"@,
        EventView::EnvResolved(k) => "EnvResolved { keys: "@ + debug_list(k) + " }"@,
        EventView::Stdout(c) => "Stdout { chunk: "@ + debug_quoted(c) + " }"@,
        EventView::Stderr(c) => "Stderr { chunk: "@ + debug_quoted(c) + " }"@,
        EventView::Exit(code) => "Exit { code: "@ + int_text(code) + " }"@,
        EventView::Timing(d) => "Timing { duration_ms: "@ + dec_text(d) + " }"@,
    }
}

/// Appends the `Debug` rendering of a list of strings.
pub fn push_debug_list(s: &mut String, items: &Vec<String>)
    ensures
        final(s)@ == old(s)@ + debug_list(views(items@)),
{
    let mut quoted: Vec<String> = Vec::new();
    let n = items.len();
    for i in 0..n
        invariant
            n == items@.len(),
            quoted@.len() == i,
            forall|j: int| 0 <= j < i ==> quoted@[j]@ == debug_quoted(items@[j]@),
    {
        quoted.push(debug_text(items[i].as_str()));
    }
    let body = join_strings(&quoted, ", ");
    assert(views(quoted@) =~= views(items@).map_values(|t: Seq<char>| debug_quoted(t)));
    push_str(s, "[");
    push_str(s, body.as_str());
    push_str(s, "]");
}

/// Appends the `Debug` rendering of an event.
pub fn push_event_debug(s: &mut String, e: &ExecutionEvent)
    ensures
        final(s)@ == old(s)@ + event_debug(e@),
{
    match e {
        ExecutionEvent::Spawn { command } => {
            push_str(s, "Spawn { command: ");
            push_str(s, debug_text(command.as_str()).as_str());
            push_str(s, " }");
        },
        ExecutionEvent::EnvResolved { keys } => {
            push_str(s, "EnvResolved { keys: ");
            push_debug_list(s, keys);
            push_str(s, " }");
        },
        ExecutionEvent::Stdout { chunk } => {
            push_str(s, "Stdout { chunk: ");
            push_str(s, debug_text(chunk.as_str()).as_str());
            push_str(s, " }");
        },
        ExecutionEvent::Stderr { chunk } => {
            push_str(s, "Stderr { chunk: ");
            push_str(s, debug_text(chunk.as_str()).as_str());
            push_str(s, " }");
        },
        ExecutionEvent::Exit { code } => {
            push_str(s, "Exit { code: ");
            push_str(s, i32_text(*code).as_str());
            push_str(s, " }");
        },
        ExecutionEvent::Timing { duration_ms } => {
            push_str(s, "Timing { duration_ms: ");
            push_str(s, u128_text(*duration_ms).as_str());
            push_str(s, " }");
        },
    }
}

// ---------------------------------------------------------------------------
// Event classification
// ---------------------------------------------------------------------------

/// The name of an event's kind, as used by the causal graph.
pub open spec fn event_type_of(e: EventView) -> Seq<char> {
    match e {
        EventView::Spawn(_) => "spawn"@,
        EventView::EnvResolved(_) => "env_resolved"@,
        EventView::Stdout(_) => "stdout"@,
        EventView::Stderr(_) => "stderr"@,
        EventView::Exit(_) => "exit"@,
        EventView::Timing(_) => "timing"@,
    }
}

/// The observable payload of an event, as used by the causal graph.
pub open spec fn surface_of(e: EventView) -> Seq<char> {
    match e {
        EventView::Spawn(c) => c,
        EventView::EnvResolved(k) => join_seq(k, ","@),
        EventView::Stdout(c) => c,
        EventView::Stderr(c) => c,
        EventView::Exit(code) => int_text(code),
        EventView::Timing(d) => dec_text(d),
    }
}

/// The kind name of an event.
pub fn event_type(e: &ExecutionEvent) -> (r: String)
    ensures
        r@ == event_type_of(e@),
{
    match e {
        ExecutionEvent::Spawn { .. } => owned("spawn"),
        ExecutionEvent::EnvResolved { .. } => owned("env_resolved"),
        ExecutionEvent::Stdout { .. } => owned("stdout"),
        ExecutionEvent::Stderr { .. } => owned("stderr"),
        ExecutionEvent::Exit { .. } => owned("exit"),
        ExecutionEvent::Timing { .. } => owned("timing"),
    }
}

/// The payload text of an event.
pub fn event_surface(e: &ExecutionEvent) -> (r: String)
    ensures
        r@ == surface_of(e@),
{
    match e {
        ExecutionEvent::Spawn { command } => command.clone(),
        ExecutionEvent::EnvResolved { keys } => join_strings(keys, ","),
        ExecutionEvent::Stdout { chunk } => chunk.clone(),
        ExecutionEvent::Stderr { chunk } => chunk.clone(),
        ExecutionEvent::Exit { code } => i32_text(*code),
        ExecutionEvent::Timing { duration_ms } => u128_text(*duration_ms),
    }
}

} // verus!
