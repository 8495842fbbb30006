//! The per-request cycle of one open tunnel.
//!
//! Within one tunnel the cycle is strictly sequential: read a raw request,
//! run the script pipeline over it, parse the result under a fresh id and
//! emit the request flow, forward, then emit the response flow and hand
//! the rebuilt wire bytes back for the client.  A script failure or a
//! parse failure aborts the cycle before anything is emitted or forwarded;
//! the tunnel then simply reads the next request.

use vstd::prelude::*;

use crate::codec::{build_response_flow, parse_request, req_ok, response_raw_spec,
    spec_parse_request};
use crate::errors::{ParseError, PipelineError};
use crate::flow::{has_request, pair_views, FlowEventSpec, FlowLog, FlowRequest, FlowResponse};
use crate::script::{pipeline_fail_name, pipeline_spec, Registry, Script};

verus! {

/// Why one request cycle was aborted before forwarding.
#[derive(Debug, Clone, PartialEq, Eq)]
pub enum CycleError {
    /// A script in the pipeline failed; nothing was emitted or forwarded.
    Script(PipelineError),
    /// The transformed request did not parse; nothing was emitted.
    Parse(ParseError),
}

/// Relies on uuid::Uuid::new_v4 and its Display rendering: a fresh random
/// version-4 UUID in the standard hyphenated form, 36 characters.  Nothing
/// more can be promised of a random identifier.
#[verifier::external_body]
fn new_flow_id() -> (r: String)
    ensures
        r@.len() == 36,
{
    uuid::Uuid::new_v4().to_string()
}

/// The capture half of one cycle: applies the script pipeline to the raw
/// request, parses the transformed text under a fresh id, and emits the
/// request flow.  On any failure the log is left untouched — a request
/// that produced no flow is never forwarded.
pub fn capture_request<S: Script>(
    log: &mut FlowLog,
    registry: &Registry<S>,
    raw: String,
) -> (r: Result<(String, FlowRequest), CycleError>)
    requires
        old(log).wf(),
    ensures
        final (log).wf(),
        match r {
            Ok(p) => {
                &&& pipeline_spec(registry@, raw@) == Some(p.0@)
                &&& req_ok(p.0@)
                &&& p.1@ == spec_parse_request(p.0@, p.1@.id)
                &&& p.1@.id.len() == 36
                &&& final (log)@ == old(log)@.push(
                    FlowEventSpec { response: false, id: p.1@.id },
                )
            },
            Err(e) => {
                &&& final (log)@ == old(log)@
                &&& match e {
                    CycleError::Script(pe) => pipeline_spec(registry@, raw@) is None
                        && pe.script@ == pipeline_fail_name(registry@, raw@),
                    CycleError::Parse(_) => pipeline_spec(registry@, raw@) matches Some(t)
                        && !req_ok(t),
                }
            },
        },
{
    let transformed = match registry.apply(raw) {
        Ok(t) => t,
        Err(e) => {
            return Err(CycleError::Script(e));
        },
    };
    let id = new_flow_id();
    match parse_request(transformed.clone(), id) {
        Ok(flow) => {
            log.record_request(&flow);
            Ok((transformed, flow))
        },
        Err(pe) => Err(CycleError::Parse(pe)),
    }
}

/// The response half of one cycle: builds the response flow for the data
/// the origin handed back, emits it, and returns it — its `raw` field is
/// what goes back to the client.  Only callable under an id whose request
/// flow was emitted, which is what keeps the log paired.
pub fn capture_response(
    log: &mut FlowLog,
    id: String,
    status: String,
    headers: Vec<(String, String)>,
    body: String,
) -> (r: FlowResponse)
    requires
        old(log).wf(),
        has_request(old(log)@, id@),
    ensures
        final (log).wf(),
        r@.id == id@,
        r@.status == status@,
        r@.headers == pair_views(headers@),
        r@.body == body@,
        r@.raw == response_raw_spec(status@, pair_views(headers@), body@),
        final (log)@ == old(log)@.push(FlowEventSpec { response: true, id: id@ }),
{
    let flow = build_response_flow(id, status, headers, body);
    log.record_response(&flow);
    flow
}

} // verus!
