use granc::descriptor::{
    DescriptorPool, FieldCard, FieldDecl, FieldKind, FileDecl, MessageDecl, MethodDecl, ServiceDecl,
};
use granc::dispatch::{
    CallPlan, DynamicCallError, DynamicRequest, MethodKind, classify, http_path, plan_call,
};
use granc::echo::EchoServiceImpl;
use granc::json::JsonValue;
use granc::metadata::MetadataError;

fn echo_pool() -> DescriptorPool {
    let message_field = FieldDecl {
        name: "message".to_string(),
        json_name: "message".to_string(),
        number: 1,
        kind: FieldKind::Str,
        card: FieldCard::Singular,
    };
    let mk_msg = |fqn: &str, name: &str| MessageDecl {
        fqn: fqn.to_string(),
        package: "echo".to_string(),
        name: name.to_string(),
        fields: vec![message_field.clone()],
    };
    let mk_method = |name: &str, cs: bool, ss: bool| MethodDecl {
        name: name.to_string(),
        input: "echo.EchoRequest".to_string(),
        output: "echo.EchoResponse".to_string(),
        client_streaming: cs,
        server_streaming: ss,
    };
    let file = FileDecl {
        name: "echo.proto".to_string(),
        package: "echo".to_string(),
        imports: vec![],
        messages: vec![mk_msg("echo.EchoRequest", "EchoRequest"), mk_msg("echo.EchoResponse", "EchoResponse")],
        enums: vec![],
        services: vec![ServiceDecl {
            fqn: "echo.EchoService".to_string(),
            package: "echo".to_string(),
            name: "EchoService".to_string(),
            methods: vec![
                mk_method("UnaryEcho", false, false),
                mk_method("ServerStreamingEcho", false, true),
                mk_method("ClientStreamingEcho", true, false),
                mk_method("BidirectionalEcho", true, true),
            ],
        }],
    };
    DescriptorPool::from_file_descriptor_set(vec![file]).expect("builds")
}

fn obj(message: &str) -> JsonValue {
    JsonValue::Obj(vec![("message".to_string(), JsonValue::Str(message.to_string()))])
}

fn request(method: &str, body: JsonValue) -> DynamicRequest {
    DynamicRequest {
        service: "echo.EchoService".to_string(),
        method: method.to_string(),
        body,
        headers: vec![],
    }
}

fn body_text(v: &JsonValue) -> &str {
    match v {
        JsonValue::Obj(fields) => match &fields[0].1 {
            JsonValue::Str(s) => s.as_str(),
            other => panic!("expected a string member, got {:?}", other),
        },
        other => panic!("expected an object, got {:?}", other),
    }
}

#[test]
fn test_classify_covers_all_four_arms() {
    assert_eq!(classify(false, false), MethodKind::Unary);
    assert_eq!(classify(false, true), MethodKind::ServerStreaming);
    assert_eq!(classify(true, false), MethodKind::ClientStreaming);
    assert_eq!(classify(true, true), MethodKind::BidiStreaming);
}

#[test]
fn test_http_path_shape() {
    let p = http_path("echo.EchoService", "UnaryEcho");
    assert_eq!(p, "/echo.EchoService/UnaryEcho");
}

#[test]
fn test_unary_echo_round_trip() {
    let pool = echo_pool();
    let plan: CallPlan = plan_call(&pool, request("UnaryEcho", obj("hello"))).expect("plan");
    assert_eq!(plan.kind, MethodKind::Unary);
    assert_eq!(plan.path, "/echo.EchoService/UnaryEcho");
    assert_eq!(plan.input_fqn, "echo.EchoRequest");
    assert_eq!(plan.output_fqn, "echo.EchoResponse");
    assert_eq!(plan.messages.len(), 1);
    // The echo server answers a unary call with the request message.
    let sent = body_text(&plan.messages[0]).to_string();
    let answer = EchoServiceImpl::unary_echo(sent);
    assert_eq!(answer, "hello");
}

#[test]
fn test_server_streaming_echo_sequence() {
    let pool = echo_pool();
    let plan = plan_call(&pool, request("ServerStreamingEcho", obj("stream"))).expect("plan");
    assert_eq!(plan.kind, MethodKind::ServerStreaming);
    assert_eq!(plan.messages.len(), 1);
    let answers = EchoServiceImpl::server_streaming_echo(body_text(&plan.messages[0]));
    assert_eq!(
        answers,
        vec!["stream - seq 0".to_string(), "stream - seq 1".to_string(), "stream - seq 2".to_string()]
    );
}

#[test]
fn test_client_streaming_echo_concatenates() {
    let pool = echo_pool();
    let body = JsonValue::Arr(vec![obj("A"), obj("B"), obj("C")]);
    let plan = plan_call(&pool, request("ClientStreamingEcho", body)).expect("plan");
    assert_eq!(plan.kind, MethodKind::ClientStreaming);
    assert_eq!(plan.messages.len(), 3);
    let sent: Vec<String> = plan.messages.iter().map(|m| body_text(m).to_string()).collect();
    let answer = EchoServiceImpl::client_streaming_echo(&sent);
    assert_eq!(answer, "ABC");
}

#[test]
fn test_bidirectional_echo_in_order() {
    let pool = echo_pool();
    let body = JsonValue::Arr(vec![obj("Ping"), obj("Pong")]);
    let plan = plan_call(&pool, request("BidirectionalEcho", body)).expect("plan");
    assert_eq!(plan.kind, MethodKind::BidiStreaming);
    assert_eq!(plan.messages.len(), 2);
    let sent: Vec<String> = plan.messages.iter().map(|m| body_text(m).to_string()).collect();
    let answers = EchoServiceImpl::bidirectional_echo(&sent);
    assert_eq!(answers, vec!["echo: Ping".to_string(), "echo: Pong".to_string()]);
}

#[test]
fn test_client_streaming_rejects_non_array_body() {
    let pool = echo_pool();
    match plan_call(&pool, request("ClientStreamingEcho", obj("oops"))) {
        Err(DynamicCallError::InvalidInput(msg)) => {
            assert_eq!(msg, "Client streaming requires a JSON Array body");
        },
        other => panic!("expected InvalidInput, got {:?}", other),
    }
}

#[test]
fn test_client_streaming_empty_array_plans_zero_frames() {
    let pool = echo_pool();
    let plan = plan_call(&pool, request("ClientStreamingEcho", JsonValue::Arr(vec![])))
        .expect("plan");
    assert_eq!(plan.kind, MethodKind::ClientStreaming);
    assert!(plan.messages.is_empty());
    // The echo answer over zero messages is still one valid response.
    let answer = EchoServiceImpl::client_streaming_echo(&Vec::new());
    assert_eq!(answer, "");
}

#[test]
fn test_lookup_failures() {
    let pool = echo_pool();
    let mut req = request("UnaryEcho", obj("x"));
    req.service = "echo.Nope".to_string();
    match plan_call(&pool, req) {
        Err(DynamicCallError::ServiceNotFound(s)) => assert_eq!(s, "echo.Nope"),
        other => panic!("expected ServiceNotFound, got {:?}", other),
    }
    match plan_call(&pool, request("NoSuchMethod", obj("x"))) {
        Err(DynamicCallError::MethodNotFound(m)) => assert_eq!(m, "NoSuchMethod"),
        other => panic!("expected MethodNotFound, got {:?}", other),
    }
}

#[test]
fn test_headers_validated_and_order_kept() {
    let pool = echo_pool();
    let mut req = request("UnaryEcho", obj("x"));
    req.headers = vec![
        ("x-first".to_string(), "one".to_string()),
        ("x-second".to_string(), "two".to_string()),
        ("x-data-bin".to_string(), "\u{7f}raw".to_string()),
    ];
    let plan = plan_call(&pool, req).expect("plan");
    assert_eq!(plan.headers[0], ("x-first".to_string(), "one".to_string()));
    assert_eq!(plan.headers[1], ("x-second".to_string(), "two".to_string()));
    assert_eq!(plan.headers[2].0, "x-data-bin");

    let mut req = request("UnaryEcho", obj("x"));
    req.headers = vec![("bad key".to_string(), "v".to_string())];
    match plan_call(&pool, req) {
        Err(DynamicCallError::Metadata(MetadataError::InvalidMetadataKey { key })) => {
            assert_eq!(key, "bad key");
        },
        other => panic!("expected InvalidMetadataKey, got {:?}", other),
    }

    let mut req = request("UnaryEcho", obj("x"));
    // Two offending headers: the error names the first.
    req.headers = vec![
        ("x-fine".to_string(), "ok".to_string()),
        ("first bad".to_string(), "v".to_string()),
        ("second bad".to_string(), "v".to_string()),
    ];
    match plan_call(&pool, req) {
        Err(DynamicCallError::Metadata(MetadataError::InvalidMetadataKey { key })) => {
            assert_eq!(key, "first bad");
        },
        other => panic!("expected InvalidMetadataKey, got {:?}", other),
    }

    let mut req = request("UnaryEcho", obj("x"));
    req.headers = vec![("x-ok".to_string(), "bad\u{1}value".to_string())];
    match plan_call(&pool, req) {
        Err(DynamicCallError::Metadata(MetadataError::InvalidMetadataValue { key })) => {
            assert_eq!(key, "x-ok");
        },
        other => panic!("expected InvalidMetadataValue, got {:?}", other),
    }
}
