//! The per-request pipeline: resolve the inbound path to a route, rewrite
//! the path, filter the headers, and map the forwarding outcome to the
//! response the caller receives. The transport itself lives outside; it is
//! handed the plan computed here and reports back a result.

use std::time::Duration;
use vstd::prelude::*;
use crate::config::Client;
use crate::config::Route;
use crate::headers::filter;
use crate::headers::filter_spec;
use crate::paths::rewrite;
use crate::paths::rewrite_spec;
use crate::paths::split_segs;
use crate::routes::RouteTable;
use crate::routes::more_specific;
use crate::routes::params_of;

verus! {

/// A response synthesized by the proxy itself (no route, or a failed
/// forward): a status code and a plain-text body.
pub struct GatewayResponse {
    pub status: u16,
    pub body: String,
}

/// What the transport reports back from a forwarded request, as the
/// pipeline models it: the upstream's status and headers. The body is
/// streamed through by the transport and never buffered here.
pub struct UpstreamResponse {
    pub status: u16,
    pub headers: Vec<(String, String)>,
}

/// The response the caller receives: the upstream response relayed
/// verbatim, or one the proxy synthesized.
pub enum Reply {
    Relay(UpstreamResponse),
    Synth(GatewayResponse),
}

/// What to do with one inbound request: answer not-found, or forward it
/// with the rewritten target and filtered headers.
pub enum Plan {
    NotFound,
    Forward {
        route_index: usize,
        uri: String,
        headers: Vec<(String, String)>,
        params: Vec<(String, String)>,
    },
}

/// Decides one inbound request up to the forwarding call: no matching
/// predicate means not-found; otherwise the most specific matching route
/// (ties to the earliest inserted) gives the rewritten target, the filtered
/// headers, and the captures it extracted from the path.
pub fn plan_request(table: &RouteTable, path: &str, headers: &Vec<(String, String)>) -> (p: Plan)
    requires
        table.wf(),
    ensures
        match p {
            Plan::NotFound => forall|j: int|
                0 <= j < table.spec_routes().len() ==> !table.spec_matches(j, path@),
            Plan::Forward { route_index, uri, headers: fwd, params } => {
                &&& route_index < table.spec_routes().len()
                &&& table.spec_matches(route_index as int, path@)
                &&& forall|j: int|
                    0 <= j < table.spec_routes().len() && table.spec_matches(j, path@)
                        ==> !more_specific(
                        table.spec_pattern(j),
                        table.spec_pattern(route_index as int),
                    )
                &&& forall|j: int|
                    0 <= j < route_index as int && table.spec_matches(j, path@) ==> more_specific(
                        table.spec_pattern(route_index as int),
                        table.spec_pattern(j),
                    )
                &&& uri@ == rewrite_spec(
                    table.spec_routes()[route_index as int].spec_uri(),
                    path@,
                    table.spec_routes()[route_index as int].spec_strip() as int,
                )
                &&& fwd@ == filter_spec(headers@)
                &&& params@.map_values(|h: (String, String)| (h.0@, h.1@)) == params_of(
                    table.spec_pattern(route_index as int),
                    split_segs(path@),
                )
            },
        },
{
    match table.resolve(path) {
        None => Plan::NotFound,
        Some(m) => {
            let route = table.route(m.route_index);
            let uri = rewrite(path, route);
            let fwd = filter(headers);
            Plan::Forward { route_index: m.route_index, uri, headers: fwd, params: m.params }
        },
    }
}

/// The response for a path no predicate matched: status 404, empty body.
pub fn not_found_response() -> (r: GatewayResponse)
    ensures
        r.status == 404,
        r.body@ == Seq::<char>::empty(),
{
    GatewayResponse { status: 404, body: String::new() }
}

/// The response for a failed forward: status 502, the failure's textual
/// description as the body.
pub fn gateway_error_response(description: String) -> (r: GatewayResponse)
    ensures
        r.status == 502,
        r.body@ == description@,
{
    GatewayResponse { status: 502, body: description }
}

/// Maps the forwarding outcome to the outbound response: an upstream
/// response is relayed verbatim; a transport failure becomes a 502 whose
/// body is the failure's description. Nothing is retried.
pub fn forward_outcome(result: Result<UpstreamResponse, String>) -> (r: Reply)
    ensures
        match result {
            Ok(u) => r == Reply::Relay(u),
            Err(e) => match r {
                Reply::Synth(g) => g.status == 502 && g.body@ == e@,
                Reply::Relay(_) => false,
            },
        },
{
    match result {
        Ok(u) => Reply::Relay(u),
        Err(e) => Reply::Synth(gateway_error_response(e)),
    }
}

/// The pool settings handed to the transport: a zero
/// `pool_max_idle_per_host` and an absent `pool_idle_timeout` each mean
/// "leave the transport's default in place".
pub fn pool_overrides(client: &Client) -> (r: (Option<usize>, Option<Duration>))
    ensures
        r.0 == if client.spec_pool_max_idle_per_host() > 0 {
            Some(client.spec_pool_max_idle_per_host())
        } else {
            None::<usize>
        },
        r.1 == client.spec_pool_idle_timeout(),
{
    let max_idle = client.pool_max_idle_per_host();
    let first = if max_idle > 0 {
        Some(max_idle)
    } else {
        None
    };
    (first, client.pool_idle_timeout())
}

} // verus!
