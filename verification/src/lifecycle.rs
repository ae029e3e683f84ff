use vstd::prelude::*;

use crate::emitter::{emit, EmitPhase, ResponseEmitter};
use crate::headers::{first_match, fold_lines};
use crate::request::{
    is_absolute_path, method_of_token, BridgeError, HttpVersion, Request, Scheme,
};
use crate::response::{choose_response, Response};

verus! {

/// The states one connection's handling passes through, in order, none
/// skipped and none revisited.
#[derive(Clone, Copy, PartialEq, Eq, Structural, Debug)]
pub enum ConnState {
    Received,
    Adapted,
    HandlerInvoked,
    ResponseChosen,
    Emitted,
}

pub open spec fn state_index(s: ConnState) -> int {
    match s {
        ConnState::Received => 0,
        ConnState::Adapted => 1,
        ConnState::HandlerInvoked => 2,
        ConnState::ResponseChosen => 3,
        ConnState::Emitted => 4,
    }
}

pub open spec fn spec_next_state(s: ConnState) -> Option<ConnState> {
    match s {
        ConnState::Received => Some(ConnState::Adapted),
        ConnState::Adapted => Some(ConnState::HandlerInvoked),
        ConnState::HandlerInvoked => Some(ConnState::ResponseChosen),
        ConnState::ResponseChosen => Some(ConnState::Emitted),
        ConnState::Emitted => None,
    }
}

/// The single transition each lifecycle step takes.
pub fn next_state(s: ConnState) -> (r: Option<ConnState>)
    ensures
        r == spec_next_state(s),
{
    match s {
        ConnState::Received => Some(ConnState::Adapted),
        ConnState::Adapted => Some(ConnState::HandlerInvoked),
        ConnState::HandlerInvoked => Some(ConnState::ResponseChosen),
        ConnState::ResponseChosen => Some(ConnState::Emitted),
        ConnState::Emitted => None,
    }
}

/// The lifecycle is linear: every transition advances the state by
/// exactly one position, and only the final state has no successor.
pub proof fn lemma_lifecycle_linear(s: ConnState)
    ensures
        spec_next_state(s) matches Some(t) ==> state_index(t) == state_index(s) + 1,
        spec_next_state(s) is None <==> state_index(s) == 4,
{
}

/// The pluggable unit of business logic invoked once per request.  On
/// failure it reports an opaque error whose display text becomes the
/// fallback response's body.
pub trait Handler {
    fn call(&self, request: &mut Request) -> Result<Response, String>;
}

/// Handle one connection: adapt the transport's request data, invoke
/// the handler, choose its response or the synthesized 500 fallback,
/// and emit it under the two-phase protocol.  A request the adapter
/// rejects aborts the connection before the handler runs; once the
/// handler has run, a response is always emitted in full.
pub fn handle_connection<H: Handler>(
    handler: &H,
    version: HttpVersion,
    method_token: &str,
    target: String,
    scheme: Scheme,
    remote_addr: String,
    raw_lines: &Vec<(String, String)>,
) -> (r: Result<ResponseEmitter, BridgeError>)
    ensures
        match r {
            Ok(e) => {
                &&& e.wf()
                &&& e.spec_phase() == EmitPhase::Closed
                &&& method_of_token(method_token@) is Some
                &&& is_absolute_path(target@)
                &&& first_match(fold_lines(raw_lines.deep_view()), "Host"@) != -1
            },
            Err(e) => match e {
                BridgeError::UnsupportedMethod(t) => {
                    &&& method_of_token(method_token@) is None
                    &&& t@ == method_token@
                },
                BridgeError::UnsupportedUriForm(t) => {
                    &&& method_of_token(method_token@) is Some
                    &&& !is_absolute_path(target@)
                    &&& t@ == target@
                },
                BridgeError::MissingHost => {
                    &&& method_of_token(method_token@) is Some
                    &&& is_absolute_path(target@)
                    &&& first_match(fold_lines(raw_lines.deep_view()), "Host"@) == -1
                },
            },
        },
{
    let mut request = match Request::new(
        version,
        method_token,
        target,
        scheme,
        remote_addr,
        raw_lines,
    ) {
        Ok(req) => req,
        Err(e) => {
            return Err(e);
        },
    };
    let outcome = handler.call(&mut request);
    let response = choose_response(outcome);
    Ok(emit(response))
}

} // verus!
