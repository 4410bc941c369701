//! Log sinks and the OpenTelemetry exporter: the configuration and the JSON
//! bodies posted for an event (the event itself given as compact JSON text).

use crate::json::{json_string, json_string_literal};
use crate::text::{owned, push_str};
use vstd::prelude::*;

verus! {

/// Where a sink posts and the bearer token it uses.
#[derive(Debug)]
pub struct SinkConfig {
    pub endpoint: String,
    pub token: String,
}

/// The Splunk HEC body: `{"event":<event>}`.
pub open spec fn splunk_body(event: Seq<char>) -> Seq<char> {
    "{\"event\":"@ + event + "}"@
}

/// The Datadog logs body: `[<event>]`.
pub open spec fn datadog_body(event: Seq<char>) -> Seq<char> {
    "["@ + event + "]"@
}

/// The Elastic ingest body: `{"docs":[<event>]}`.
pub open spec fn elastic_body(event: Seq<char>) -> Seq<char> {
    "{\"docs\":["@ + event + "]}"@
}

/// The OTLP logs body: one INFO log record of service `sealrun`, scope
/// `sealrun.enterprise`, whose body is the event's JSON text as a JSON string
/// (members in the order they are written).
pub open spec fn otel_body(event: Seq<char>) -> Seq<char> {
    "{\"resourceLogs\":[{\"resource\":{\"attributes\":[{\"key\":\"service.name\",\"value\":{\"stringValue\":\"sealrun\"}}]},\"scopeLogs\":[{\"scope\":{\"name\":\"sealrun.enterprise\"},\"logRecords\":[{\"severityText\":\"INFO\",\"body\":{\"stringValue\":"@
        + json_string(event) + "}}]}]}]}"@
}

/// The body posted to a Splunk HTTP event collector.
pub fn splunk_payload(event_json: &str) -> (r: String)
    ensures
        r@ == splunk_body(event_json@),
{
    let mut s = owned("{\"event\":");
    push_str(&mut s, event_json);
    push_str(&mut s, "}");
    s
}

/// The body posted to the Datadog logs intake.
pub fn datadog_payload(event_json: &str) -> (r: String)
    ensures
        r@ == datadog_body(event_json@),
{
    let mut s = owned("[");
    push_str(&mut s, event_json);
    push_str(&mut s, "]");
    s
}

/// The body posted to an Elastic ingest endpoint.
pub fn elastic_payload(event_json: &str) -> (r: String)
    ensures
        r@ == elastic_body(event_json@),
{
    let mut s = owned("{\"docs\":[");
    push_str(&mut s, event_json);
    push_str(&mut s, "]}");
    s
}

/// The body posted to an OTLP/HTTP logs endpoint.
pub fn otel_payload(event_json: &str) -> (r: String)
    ensures
        r@ == otel_body(event_json@),
{
    let mut s = owned(
        "{\"resourceLogs\":[{\"resource\":{\"attributes\":[{\"key\":\"service.name\",\"value\":{\"stringValue\":\"sealrun\"}}]},\"scopeLogs\":[{\"scope\":{\"name\":\"sealrun.enterprise\"},\"logRecords\":[{\"severityText\":\"INFO\",\"body\":{\"stringValue\":",
    );
    let quoted = json_string_literal(event_json);
    push_str(&mut s, quoted.as_str());
    push_str(&mut s, "}}]}]}]}");
    s
}

} // verus!
