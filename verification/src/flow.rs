//! Captured flows and the ordered flow log.
//!
//! A flow is the unit of observation: one captured request or one captured
//! response, tagged with a correlation id.  A request and its response share
//! the id, which is generated when the request is parsed and reused for the
//! response.  The [`FlowLog`] records every emission in receipt order and
//! maintains the pairing invariant: a response is only ever emitted after a
//! request with the same id.

use vstd::prelude::*;

verus! {

/// A captured request: the parsed pieces next to the full wire bytes.
#[derive(Debug, Clone, PartialEq, Eq)]
pub struct FlowRequest {
    pub id: String,
    pub method: String,
    pub path: String,
    pub host: String,
    pub headers: String,
    pub body: String,
    pub raw: String,
}

/// A captured response.  Header order matters and duplicates are allowed,
/// so the headers are an ordered list of pairs, not a map.
#[derive(Debug, Clone, PartialEq, Eq)]
pub struct FlowResponse {
    pub id: String,
    pub status: String,
    pub headers: Vec<(String, String)>,
    pub body: String,
    pub raw: String,
}

/// Mathematical image of a [`FlowRequest`].
pub struct FlowRequestSpec {
    pub id: Seq<char>,
    pub method: Seq<char>,
    pub path: Seq<char>,
    pub host: Seq<char>,
    pub headers: Seq<char>,
    pub body: Seq<char>,
    pub raw: Seq<char>,
}

/// Mathematical image of a [`FlowResponse`].
pub struct FlowResponseSpec {
    pub id: Seq<char>,
    pub status: Seq<char>,
    pub headers: Seq<(Seq<char>, Seq<char>)>,
    pub body: Seq<char>,
    pub raw: Seq<char>,
}

/// The views of a list of header pairs.
pub open spec fn pair_views(v: Seq<(String, String)>) -> Seq<(Seq<char>, Seq<char>)> {
    v.map_values(|p: (String, String)| (p.0@, p.1@))
}

impl View for FlowRequest {
    type V = FlowRequestSpec;

    open spec fn view(&self) -> FlowRequestSpec {
        FlowRequestSpec {
            id: self.id@,
            method: self.method@,
            path: self.path@,
            host: self.host@,
            headers: self.headers@,
            body: self.body@,
            raw: self.raw@,
        }
    }
}

impl View for FlowResponse {
    type V = FlowResponseSpec;

    open spec fn view(&self) -> FlowResponseSpec {
        FlowResponseSpec {
            id: self.id@,
            status: self.status@,
            headers: pair_views(self.headers@),
            body: self.body@,
            raw: self.raw@,
        }
    }
}

impl FlowRequest {
    /// Plain record constructor.
    pub fn new(
        id: String,
        method: String,
        path: String,
        host: String,
        headers: String,
        body: String,
        raw: String,
    ) -> (r: FlowRequest)
        ensures
            r.id == id,
            r.method == method,
            r.path == path,
            r.host == host,
            r.headers == headers,
            r.body == body,
            r.raw == raw,
    {
        FlowRequest { id, method, path, host, headers, body, raw }
    }
}

impl FlowResponse {
    /// Plain record constructor.
    pub fn new(
        id: String,
        status: String,
        headers: Vec<(String, String)>,
        body: String,
        raw: String,
    ) -> (r: FlowResponse)
        ensures
            r.id == id,
            r.status == status,
            r.headers == headers,
            r.body == body,
            r.raw == raw,
    {
        FlowResponse { id, status, headers, body, raw }
    }
}

/// One captured flow, as the dispatch channel carries it.
#[derive(Debug, Clone)]
pub enum Flow {
    Request(FlowRequest),
    Response(FlowResponse),
}

/// One emission as the log remembers it: which kind, and under which id.
#[derive(Debug, Clone)]
pub struct FlowEvent {
    pub response: bool,
    pub id: String,
}

/// Mathematical image of a [`FlowEvent`].
pub struct FlowEventSpec {
    pub response: bool,
    pub id: Seq<char>,
}

impl View for FlowEvent {
    type V = FlowEventSpec;

    open spec fn view(&self) -> FlowEventSpec {
        FlowEventSpec { response: self.response, id: self.id@ }
    }
}

/// The events of `log` up to `i` hold a request with id `id`.
pub open spec fn has_request(events: Seq<FlowEventSpec>, id: Seq<char>) -> bool {
    exists|j: int| 0 <= j < events.len() && !(#[trigger] events[j]).response && events[j].id == id
}

/// Every response in `events` is preceded by a request with the same id.
pub open spec fn paired(events: Seq<FlowEventSpec>) -> bool {
    forall|i: int|
        0 <= i < events.len() && (#[trigger] events[i]).response ==> has_request(
            events.take(i),
            events[i].id,
        )
}

/// The receipt-order record of every flow emitted towards the event
/// boundary.  Many connections append to one log; the consumer drains in
/// exactly this order, so the log is the channel's history.
pub struct FlowLog {
    events: Vec<FlowEvent>,
}

impl View for FlowLog {
    type V = Seq<FlowEventSpec>;

    closed spec fn view(&self) -> Seq<FlowEventSpec> {
        self.events@.map_values(|e: FlowEvent| e@)
    }
}

impl FlowLog {
    /// The pairing invariant: it holds of every log the library ever
    /// produces, because responses can only be recorded over an open id.
    pub open spec fn wf(&self) -> bool {
        paired(self@)
    }

    /// An empty log.
    pub fn new() -> (r: FlowLog)
        ensures
            r@ =~= Seq::<FlowEventSpec>::empty(),
            r.wf(),
    {
        let log = FlowLog { events: Vec::new() };
        proof {
            assert(log@ =~= Seq::<FlowEventSpec>::empty());
        }
        log
    }

    /// How many flows have been emitted so far.
    pub fn len(&self) -> (r: usize)
        ensures
            r == self@.len(),
    {
        self.events.len()
    }

    /// Whether a request flow with this id has been emitted already.
    pub fn has_request_for(&self, id: &str) -> (r: bool)
        ensures
            r == has_request(self@, id@),
    {
        let n = self.events.len();
        let mut i: usize = 0;
        while i < n
            invariant
                n == self.events@.len(),
                i <= n,
                forall|j: int|
                    0 <= j < i ==> ((#[trigger] self@[j]).response || self@[j].id != id@),
            decreases n - i,
        {
            let e = &self.events[i];
            if !e.response && crate::text::str_eq(e.id.as_str(), id) {
                proof {
                    assert(!(self@[i as int]).response && self@[i as int].id == id@);
                }
                return true;
            }
            i += 1;
        }
        false
    }

    /// Records the emission of a request flow.
    pub fn record_request(&mut self, flow: &FlowRequest)
        requires
            old(self).wf(),
        ensures
            final (self)@ == old(self)@.push(FlowEventSpec { response: false, id: flow@.id }),
            final (self).wf(),
    {
        let ghost before = self@;
        self.events.push(FlowEvent { response: false, id: flow.id.clone() });
        proof {
            assert(self@ =~= before.push(FlowEventSpec { response: false, id: flow@.id }));
            assert forall|i: int|
                0 <= i < self@.len() && (#[trigger] self@[i]).response implies has_request(
                self@.take(i),
                self@[i].id,
            ) by {
                assert(self@.take(i) =~= before.take(i));
            }
        }
    }

    /// Records the emission of a response flow; only possible once a
    /// request with the same id has been emitted.
    pub fn record_response(&mut self, flow: &FlowResponse)
        requires
            old(self).wf(),
            has_request(old(self)@, flow@.id),
        ensures
            final (self)@ == old(self)@.push(FlowEventSpec { response: true, id: flow@.id }),
            final (self).wf(),
    {
        let ghost before = self@;
        self.events.push(FlowEvent { response: true, id: flow.id.clone() });
        proof {
            assert(self@ =~= before.push(FlowEventSpec { response: true, id: flow@.id }));
            assert forall|i: int|
                0 <= i < self@.len() && (#[trigger] self@[i]).response implies has_request(
                self@.take(i),
                self@[i].id,
            ) by {
                if i < before.len() {
                    assert(self@.take(i) =~= before.take(i));
                } else {
                    assert(self@.take(i) =~= before);
                }
            }
        }
    }
}

/// Law: in a well-formed log, every response emission is preceded, strictly
/// earlier in receipt order, by a request emission with the same id.
pub proof fn lemma_flow_pairing(log: &FlowLog, i: int)
    requires
        log.wf(),
        0 <= i < log@.len(),
        log@[i].response,
    ensures
        exists|j: int|
            0 <= j < i && !(#[trigger] log@[j]).response && log@[j].id == log@[i].id,
{
    assert(has_request(log@.take(i), log@[i].id));
    let j = choose|j: int|
        0 <= j < log@.take(i).len() && !(#[trigger] log@.take(i)[j]).response && log@.take(i)[j].id
            == log@[i].id;
    assert(!log@[j].response && log@[j].id == log@[i].id);
}

} // verus!
