//! Run ids as the command line accepts them: a literal id, or `last` / `prev`
//! for the newest and the second-newest run of the index (oldest first); and
//! what replaying a run prints.

use crate::text::{push_str, str_eq, views};
use crate::trace::{event_views, EventView, ExecutionEvent, ExecutionTrace};
use vstd::prelude::*;

verus! {

/// What an id or alias names, given the index of runs (oldest first).
pub open spec fn alias_target(id: Seq<char>, index: Seq<Seq<char>>) -> Option<Seq<char>> {
    if id == "last"@ {
        if index.len() >= 1 {
            Some(index[index.len() - 1])
        } else {
            None
        }
    } else if id == "prev"@ {
        if index.len() >= 2 {
            Some(index[index.len() - 2])
        } else {
            None
        }
    } else {
        Some(id)
    }
}

/// Resolves `last` and `prev` against the index; any other text is taken as a
/// run id. `None` when the index has too few runs for the alias.
pub fn resolve_alias(id: &str, index: &Vec<String>) -> (r: Option<String>)
    ensures
        match alias_target(id@, views(index@)) {
            Some(t) => r matches Some(s) && s@ == t,
            None => r is None,
        },
{
    let n = index.len();
    if str_eq(id, "last") {
        if n >= 1 {
            assert(views(index@)[n - 1] == index@[n - 1]@);
            return Some(index[n - 1].clone());
        }
        return None;
    }
    if str_eq(id, "prev") {
        if n >= 2 {
            assert(views(index@)[n - 2] == index@[n - 2]@);
            return Some(index[n - 2].clone());
        }
        return None;
    }
    Some(crate::text::owned(id))
}

/// The stdout chunks of a timeline, concatenated in order.
pub open spec fn stdout_of(events: Seq<EventView>) -> Seq<char>
    decreases events.len(),
{
    if events.len() == 0 {
        Seq::empty()
    } else {
        stdout_of(events.drop_last()) + match events.last() {
            EventView::Stdout(chunk) => chunk,
            _ => Seq::empty(),
        }
    }
}

/// What replaying a run prints: its `Stdout` chunks, concatenated in order.
pub fn replay_stdout(trace: &ExecutionTrace) -> (r: String)
    ensures
        r@ == stdout_of(event_views(trace.events@)),
{
    let mut r = String::new();
    let n = trace.events.len();
    for i in 0..n
        invariant
            n == trace.events@.len(),
            r@ == stdout_of(event_views(trace.events@).take(i as int)),
    {
        let ghost evs = event_views(trace.events@);
        assert(evs.take(i + 1).drop_last() =~= evs.take(i as int));
        assert(evs.take(i + 1).last() == trace.events@[i as int]@);
        match &trace.events[i] {
            ExecutionEvent::Stdout { chunk } => push_str(&mut r, chunk.as_str()),
            _ => {},
        }
    }
    assert(event_views(trace.events@).take(n as int) =~= event_views(trace.events@));
    r
}

} // verus!
