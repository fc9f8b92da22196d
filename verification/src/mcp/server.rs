use vstd::prelude::*;

use crate::text::{chars_eq_str, chars_of, push_str};

verus! {

/// How the server answers a JSON-RPC request, by its method.
#[derive(Debug, Clone, Copy, PartialEq, Eq, Structural)]
pub enum RequestRoute {
    /// `initialize`: the protocol version, capabilities and server info.
    Initialize,
    /// A notification, or an unknown method without an id: no answer.
    NoResponse,
    /// `ping`: an empty result.
    Ping,
    /// `tools/list`: the tool catalogue.
    ListTools,
    /// `tools/call`: the result of running a tool.
    CallTool,
    /// An unknown method with an id: a "method not found" error.
    MethodNotFound,
}

/// The route of a request with method `method`, which has an id or not.
pub open spec fn route_of(method: Seq<char>, has_id: bool) -> RequestRoute {
    if method == "initialize"@ {
        RequestRoute::Initialize
    } else if method == "notifications/initialized"@ || method == "initialized"@ {
        RequestRoute::NoResponse
    } else if method == "ping"@ {
        RequestRoute::Ping
    } else if method == "tools/list"@ {
        RequestRoute::ListTools
    } else if method == "tools/call"@ {
        RequestRoute::CallTool
    } else if has_id {
        RequestRoute::MethodNotFound
    } else {
        RequestRoute::NoResponse
    }
}

/// Decides how to answer a request with method `method`.
pub fn route_request(method: &str, has_id: bool) -> (r: RequestRoute)
    ensures
        r == route_of(method@, has_id),
{
    let m = chars_of(method);
    if chars_eq_str(&m, "initialize") {
        RequestRoute::Initialize
    } else if chars_eq_str(&m, "notifications/initialized") || chars_eq_str(&m, "initialized") {
        RequestRoute::NoResponse
    } else if chars_eq_str(&m, "ping") {
        RequestRoute::Ping
    } else if chars_eq_str(&m, "tools/list") {
        RequestRoute::ListTools
    } else if chars_eq_str(&m, "tools/call") {
        RequestRoute::CallTool
    } else if has_id {
        RequestRoute::MethodNotFound
    } else {
        RequestRoute::NoResponse
    }
}

/// The message of the error for an unknown method.
pub fn method_not_found_message(method: &str) -> (m: String)
    ensures
        m@ == "Method not found: "@ + method@,
{
    let mut m = String::new();
    push_str(&mut m, "Method not found: ");
    push_str(&mut m, method);
    m
}


/// A message without an id (a notification) never gets an error answer, and
/// a message with an id always gets an answer unless it is the
/// `initialized` notification.
pub proof fn law_errors_only_for_requests(method: Seq<char>)
    ensures
        route_of(method, false) != RequestRoute::MethodNotFound,
        route_of(method, true) == RequestRoute::NoResponse
            <==> (method == "notifications/initialized"@ || method == "initialized"@),
{
    reveal_strlit("initialize");
    reveal_strlit("initialized");
    reveal_strlit("notifications/initialized");
    assert("initialize"@.len() != "initialized"@.len());
    assert("initialize"@.len() != "notifications/initialized"@.len());
}


/// Each method is answered by its own route, whether or not the message has
/// an id: `initialize` by the handshake, `ping` by an empty result,
/// `tools/list` by the catalogue and `tools/call` by running the tool; an
/// unknown method is refused exactly when the message has an id.
pub proof fn law_request_routes(method: Seq<char>, has_id: bool)
    ensures
        route_of(method, has_id) == RequestRoute::Initialize <==> method == "initialize"@,
        route_of(method, has_id) == RequestRoute::Ping <==> method == "ping"@,
        route_of(method, has_id) == RequestRoute::ListTools <==> method == "tools/list"@,
        route_of(method, has_id) == RequestRoute::CallTool <==> method == "tools/call"@,
        route_of(method, has_id) == RequestRoute::MethodNotFound <==> has_id && !(method == "initialize"@
            || method == "notifications/initialized"@ || method == "initialized"@ || method == "ping"@
            || method == "tools/list"@ || method == "tools/call"@),
{
    reveal_strlit("initialize");
    reveal_strlit("notifications/initialized");
    reveal_strlit("initialized");
    reveal_strlit("ping");
    reveal_strlit("tools/list");
    reveal_strlit("tools/call");
    if method == "initialize"@ {
        assert(method.len() == 10);
        assert(method[0] != "tools/list"@[0]);
        assert(method[0] != "tools/call"@[0]);
    }
    if method == "notifications/initialized"@ {
        assert(method.len() == 25);
    }
    if method == "initialized"@ {
        assert(method.len() == 11);
    }
    if method == "ping"@ {
        assert(method.len() == 4);
    }
    if method == "tools/list"@ {
        assert(method.len() == 10);
        assert(method[0] != "initialize"@[0]);
        assert(method[6] != "tools/call"@[6]);
    }
    if method == "tools/call"@ {
        assert(method.len() == 10);
        assert(method[0] != "initialize"@[0]);
        assert(method[6] != "tools/list"@[6]);
    }
}
} // verus!
