//! Dispatch of a dynamic request: resolving the method, picking one of the
//! four access patterns from the two streaming flags, shaping the body into
//! request frames, and validating headers — all before any network activity.

use vstd::prelude::*;
use vstd::string::*;

use crate::descriptor::{DescriptorPool, MethodDecl, ServiceDecl, has_service};
use crate::json::JsonValue;
use crate::metadata::{MetadataError, header_ok, validate_headers};
use crate::status::Status;

verus! {

/// One of the four gRPC access patterns.
#[derive(Debug, Clone, Copy, PartialEq, Eq, Structural)]
pub enum MethodKind {
    Unary,
    ServerStreaming,
    ClientStreaming,
    BidiStreaming,
}

/// The access pattern that a pair of streaming flags selects.
pub open spec fn spec_kind(client_streaming: bool, server_streaming: bool) -> MethodKind {
    if !client_streaming && !server_streaming {
        MethodKind::Unary
    } else if !client_streaming && server_streaming {
        MethodKind::ServerStreaming
    } else if client_streaming && !server_streaming {
        MethodKind::ClientStreaming
    } else {
        MethodKind::BidiStreaming
    }
}

/// Picks the dispatch arm from the two streaming flags of a method.
pub fn classify(client_streaming: bool, server_streaming: bool) -> (r: MethodKind)
    ensures
        r == spec_kind(client_streaming, server_streaming),
{
    match (client_streaming, server_streaming) {
        (false, false) => MethodKind::Unary,
        (false, true) => MethodKind::ServerStreaming,
        (true, false) => MethodKind::ClientStreaming,
        (true, true) => MethodKind::BidiStreaming,
    }
}

/// Law: the two streaming bits select exactly one of the four dispatch arms;
/// each arm is selected for exactly one combination of the bits.
pub proof fn lemma_dispatch_arms_exclusive(cs: bool, ss: bool)
    ensures
        (spec_kind(cs, ss) == MethodKind::Unary) <==> (!cs && !ss),
        (spec_kind(cs, ss) == MethodKind::ServerStreaming) <==> (!cs && ss),
        (spec_kind(cs, ss) == MethodKind::ClientStreaming) <==> (cs && !ss),
        (spec_kind(cs, ss) == MethodKind::BidiStreaming) <==> (cs && ss),
{
}

/// Whether the arm sends a stream of request messages.
pub open spec fn takes_request_stream(k: MethodKind) -> bool {
    k == MethodKind::ClientStreaming || k == MethodKind::BidiStreaming
}

/// A request to call `service`/`method` with a JSON body and headers.
/// For a client-streaming or bidirectional method the body must be a JSON
/// array, one element per request message; otherwise it is the one request
/// message.
#[derive(Debug)]
pub struct DynamicRequest {
    pub service: String,
    pub method: String,
    pub body: JsonValue,
    pub headers: Vec<(String, String)>,
}

/// The result of a dynamic call: one message for unary and client-streaming
/// methods, a collected list for server-streaming and bidirectional ones. The
/// outer `Status` is an early failure opening the stream; inner entries are
/// per-message results in arrival order.
#[derive(Debug)]
pub enum DynamicResponse {
    Unary(Result<JsonValue, Status>),
    Streaming(Result<Vec<Result<JsonValue, Status>>, Status>),
}

/// Why a dynamic call was rejected before reaching the wire.
#[derive(Debug, PartialEq)]
pub enum DynamicCallError {
    InvalidInput(String),
    ServiceNotFound(String),
    MethodNotFound(String),
    Metadata(MetadataError),
}

/// Everything the transport needs to perform one call: the HTTP path, the
/// dispatch arm, the input and output message types for the codec, the
/// validated headers, and the request frames in send order.
#[derive(Debug)]
pub struct CallPlan {
    pub path: String,
    pub kind: MethodKind,
    pub input_fqn: String,
    pub output_fqn: String,
    pub headers: Vec<(String, String)>,
    pub messages: Vec<JsonValue>,
}

/// The HTTP/2 path of a method: `/service-fqn/method-name`.
pub open spec fn spec_http_path(service: Seq<char>, method: Seq<char>) -> Seq<char> {
    seq!['/'] + service + seq!['/'] + method
}

/// Builds the HTTP/2 path `/service/method`.
pub fn http_path(service: &str, method: &str) -> (r: String)
    ensures
        r@ == spec_http_path(service@, method@),
{
    proof {
        reveal_strlit("/");
    }
    let mut p = String::from_str("/");
    p.append(service);
    p.append("/");
    p.append(method);
    proof {
        assert(p@ =~= spec_http_path(service@, method@));
    }
    p
}

/// The first index of a service named `name`.
pub open spec fn first_service_idx(svcs: Seq<ServiceDecl>, name: Seq<char>, i: int) -> bool {
    &&& 0 <= i < svcs.len()
    &&& svcs[i].fqn@ == name
    &&& forall|j: int| 0 <= j < i ==> svcs[j].fqn@ != name
}

/// The first index of a method named `name`.
pub open spec fn first_method_idx(ms: Seq<MethodDecl>, name: Seq<char>, j: int) -> bool {
    &&& 0 <= j < ms.len()
    &&& ms[j].name@ == name
    &&& forall|k: int| 0 <= k < j ==> ms[k].name@ != name
}

/// What a successful plan promises, given the resolved method `m`.
pub open spec fn plan_matches(plan: CallPlan, req: DynamicRequest, m: MethodDecl) -> bool {
    &&& plan.kind == spec_kind(m.client_streaming, m.server_streaming)
    &&& plan.input_fqn@ == m.input@
    &&& plan.output_fqn@ == m.output@
    &&& plan.path@ == spec_http_path(req.service@, m.name@)
    &&& plan.headers@ == req.headers@
    &&& forall|i: int|
        0 <= i < plan.headers@.len() ==> header_ok(
            (#[trigger] plan.headers@[i]).0@,
            plan.headers@[i].1@,
        )
    &&& if takes_request_stream(plan.kind) {
        match req.body {
            JsonValue::Arr(items) => plan.messages == items,
            _ => false,
        }
    } else {
        plan.messages@ == seq![req.body]
    }
}

/// Exactly when and what `plan_call` returns: a plan for the first matching
/// method, or the one rejection the request earns.
pub open spec fn plan_call_post(
    pool: DescriptorPool,
    request: DynamicRequest,
    r: Result<CallPlan, DynamicCallError>,
) -> bool {
    match r {
            Ok(plan) => exists|i: int, j: int|
                {
                    &&& #[trigger] first_service_idx(pool.services@, request.service@, i)
                    &&& #[trigger] first_method_idx(
                        pool.services@[i].methods@,
                        request.method@,
                        j,
                    )
                    &&& plan_matches(plan, request, pool.services@[i].methods@[j])
                },
            Err(DynamicCallError::ServiceNotFound(s)) => s@ == request.service@ && !has_service(
                pool.services@,
                request.service@,
            ),
            Err(DynamicCallError::MethodNotFound(m)) => m@ == request.method@ && exists|i: int|
                {
                    &&& #[trigger] first_service_idx(pool.services@, request.service@, i)
                    &&& forall|k: int|
                        0 <= k < pool.services@[i].methods@.len()
                            ==> pool.services@[i].methods@[k].name@ != request.method@
                },
            Err(DynamicCallError::InvalidInput(_)) => exists|i: int, j: int|
                {
                    &&& #[trigger] first_service_idx(pool.services@, request.service@, i)
                    &&& #[trigger] first_method_idx(
                        pool.services@[i].methods@,
                        request.method@,
                        j,
                    )
                    &&& takes_request_stream(
                        spec_kind(
                            pool.services@[i].methods@[j].client_streaming,
                            pool.services@[i].methods@[j].server_streaming,
                        ),
                    )
                    &&& !(request.body is Arr)
                },
            Err(DynamicCallError::Metadata(e)) => exists|i: int|
                0 <= i < request.headers@.len() && !header_ok(
                    (#[trigger] request.headers@[i]).0@,
                    request.headers@[i].1@,
                ),
    }
}

/// Resolves the request against the pool and builds the call plan.
///
/// Lookup failures, a non-array body handed to a request-streaming method, and
/// invalid metadata are all rejected here, before any network call. Request
/// frames keep the array order of the body, and headers keep their given
/// order.
pub fn plan_call(pool: &DescriptorPool, request: DynamicRequest) -> (r: Result<
    CallPlan,
    DynamicCallError,
>)
    ensures
        plan_call_post(*pool, request, r),
{
    let service = match self::find_first_service(pool, request.service.as_str()) {
        Some(s) => s,
        None => {
            return Err(DynamicCallError::ServiceNotFound(request.service));
        },
    };
    let method = match service.find_method_first(request.method.as_str()) {
        Some(m) => m,
        None => {
            return Err(DynamicCallError::MethodNotFound(request.method));
        },
    };
    let kind = classify(method.client_streaming, method.server_streaming);
    let path = http_path(request.service.as_str(), method.name.as_str());
    let input_fqn = method.input.clone();
    let output_fqn = method.output.clone();
    if let Err(e) = validate_headers(&request.headers) {
        return Err(DynamicCallError::Metadata(e));
    }
    let messages: Vec<JsonValue> = match kind {
        MethodKind::ClientStreaming | MethodKind::BidiStreaming => {
            match request.body {
                JsonValue::Arr(items) => items,
                _ => {
                    return Err(
                        DynamicCallError::InvalidInput(
                            String::from_str("Client streaming requires a JSON Array body"),
                        ),
                    );
                },
            }
        },
        _ => {
            let mut one: Vec<JsonValue> = Vec::new();
            one.push(request.body);
            one
        },
    };
    Ok(CallPlan { path, kind, input_fqn, output_fqn, headers: request.headers, messages })
}

/// The first service of the pool named `name`, with its first-index witness.
fn find_first_service<'a>(pool: &'a DescriptorPool, name: &str) -> (r: Option<&'a ServiceDecl>)
    ensures
        match r {
            Some(s) => exists|i: int|
                #[trigger] first_service_idx(pool.services@, name@, i) && *s == pool.services@[i],
            None => !has_service(pool.services@, name@),
        },
{
    match crate::descriptor::find_service(&pool.services, name) {
        Some(i) => {
            proof {
                assert(first_service_idx(pool.services@, name@, i as int));
            }
            Some(&pool.services[i])
        },
        None => None,
    }
}

impl ServiceDecl {
    /// The first method named `name`, with its first-index witness.
    fn find_method_first(&self, name: &str) -> (r: Option<&MethodDecl>)
        ensures
            match r {
                Some(m) => exists|j: int|
                    #[trigger] first_method_idx(self.methods@, name@, j) && *m == self.methods@[j],
                None => forall|k: int|
                    0 <= k < self.methods@.len() ==> self.methods@[k].name@ != name@,
            },
    {
        let n: usize = self.methods.len();
        let mut i: usize = 0;
        while i < n
            invariant
                0 <= i <= n,
                n == self.methods@.len(),
                forall|k: int| 0 <= k < i ==> self.methods@[k].name@ != name@,
            decreases n - i,
        {
            if crate::text::str_eq(self.methods[i].name.as_str(), name) {
                proof {
                    assert(first_method_idx(self.methods@, name@, i as int));
                }
                return Some(&self.methods[i]);
            }
            i += 1;
        }
        None
    }
}

} // verus!
