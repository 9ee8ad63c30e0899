use granc::client::{GetDescriptorError, GrancClient, Online};
use granc::descriptor::{
    Descriptor, FieldCard, FieldDecl, FieldKind, FileDecl, MessageDecl, MethodDecl, ServiceDecl,
};
use granc::dispatch::{DynamicRequest, MethodKind};
use granc::json::JsonValue;
use granc::reflection::ReflectionResolveError;
use granc::status::{CODE_NOT_FOUND, CODE_UNAVAILABLE, Status};

fn echo_files() -> Vec<FileDecl> {
    let mk_msg = |fqn: &str, name: &str| MessageDecl {
        fqn: fqn.to_string(),
        package: "echo".to_string(),
        name: name.to_string(),
        fields: vec![FieldDecl {
            name: "message".to_string(),
            json_name: "message".to_string(),
            number: 1,
            kind: FieldKind::Str,
            card: FieldCard::Singular,
        }],
    };
    vec![FileDecl {
        name: "echo.proto".to_string(),
        package: "echo".to_string(),
        imports: vec![],
        messages: vec![mk_msg("echo.EchoRequest", "EchoRequest"), mk_msg("echo.EchoResponse", "EchoResponse")],
        enums: vec![],
        services: vec![ServiceDecl {
            fqn: "echo.EchoService".to_string(),
            package: "echo".to_string(),
            name: "EchoService".to_string(),
            methods: vec![MethodDecl {
                name: "UnaryEcho".to_string(),
                input: "echo.EchoRequest".to_string(),
                output: "echo.EchoResponse".to_string(),
                client_streaming: false,
                server_streaming: false,
            }],
        }],
    }]
}

#[test]
fn test_offline_client_introspects() {
    let client = GrancClient::offline(echo_files()).expect("builds");
    assert_eq!(client.list_services(), vec!["echo.EchoService".to_string()]);
    match client.get_descriptor_by_symbol("echo.EchoService") {
        Some(Descriptor::ServiceDescriptor(s)) => assert_eq!(s.name, "EchoService"),
        other => panic!("expected a service, got {:?}", other),
    }
    assert!(client.get_descriptor_by_symbol("echo.Ghost").is_none());
}

#[test]
fn test_offline_rejects_bad_descriptor_set() {
    let mut files = echo_files();
    files.push(files[0].clone());
    assert!(GrancClient::offline(files).is_err());
}

#[test]
fn test_transition_keeps_transport_and_loads_pool() {
    // The transport here is a stand-in handle; the state machine is what is
    // under test.
    let online: GrancClient<Online<u32>> = GrancClient::from_transport(7);
    let client = online.with_file_descriptor(echo_files()).expect("loads");
    assert_eq!(client.state.transport, 7);
    assert_eq!(client.list_services(), vec!["echo.EchoService".to_string()]);
    let plan = client
        .dynamic(DynamicRequest {
            service: "echo.EchoService".to_string(),
            method: "UnaryEcho".to_string(),
            body: JsonValue::Obj(vec![(
                "message".to_string(),
                JsonValue::Str("hello".to_string()),
            )]),
            headers: vec![("x-tag".to_string(), "v".to_string())],
        })
        .expect("plans");
    assert_eq!(plan.kind, MethodKind::Unary);
    assert_eq!(plan.path, "/echo.EchoService/UnaryEcho");
    assert_eq!(plan.headers, vec![("x-tag".to_string(), "v".to_string())]);
}

#[test]
fn test_describe_not_found_maps_to_symbol_error() {
    let e = ReflectionResolveError::ServerStreamFailure(Status::new(
        CODE_NOT_FOUND,
        "symbol not found".to_string(),
    ));
    match granc::client::map_describe_error("echo.Ghost", e) {
        GetDescriptorError::NotFound(s) => assert_eq!(s, "echo.Ghost"),
        other => panic!("expected NotFound, got {:?}", other),
    }
    let e = ReflectionResolveError::ServerStreamFailure(Status::new(
        CODE_UNAVAILABLE,
        "down".to_string(),
    ));
    match granc::client::map_describe_error("echo.Ghost", e) {
        GetDescriptorError::ReflectionResolve(ReflectionResolveError::ServerStreamFailure(st)) => {
            assert_eq!(st.code, CODE_UNAVAILABLE);
        },
        other => panic!("expected the failure to pass through, got {:?}", other),
    }
    let e = ReflectionResolveError::StreamClosed;
    match granc::client::map_describe_error("echo.Ghost", e) {
        GetDescriptorError::ReflectionResolve(ReflectionResolveError::StreamClosed) => {},
        other => panic!("expected the failure to pass through, got {:?}", other),
    }
}

#[test]
fn test_stream_init_failure_keeps_status() {
    // A server without the reflection service fails the stream open with
    // UNIMPLEMENTED; the error carries that status through.
    let status = Status::new(granc::status::CODE_UNIMPLEMENTED, "unimplemented".to_string());
    match ReflectionResolveError::ServerStreamInitFailed(status) {
        ReflectionResolveError::ServerStreamInitFailed(st) => {
            assert_eq!(st.code, granc::status::CODE_UNIMPLEMENTED);
        },
        _ => unreachable!(),
    }
}
