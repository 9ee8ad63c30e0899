use granc::reflection::{
    FileRecord, MessageResponse, ReflectionEvent, ReflectionResolveError, ReflectionResolver,
    ReflectionServerModel, fetch_closure, list_services_response,
};
use granc::status::{CODE_NOT_FOUND, Status};

fn rec(name: &str, imports: &[&str]) -> FileRecord {
    FileRecord {
        name: name.to_string(),
        imports: imports.iter().map(|s| s.to_string()).collect(),
        bytes: vec![],
    }
}

fn diamond_server() -> ReflectionServerModel {
    // root imports a and b; both import common: the classic diamond.
    ReflectionServerModel {
        files: vec![
            rec("root.proto", &["a.proto", "b.proto"]),
            rec("a.proto", &["common.proto"]),
            rec("b.proto", &["common.proto"]),
            rec("common.proto", &[]),
        ],
        symbols: vec![("pkg.Root".to_string(), "root.proto".to_string())],
    }
}

#[test]
fn test_reflection_closure_diamond_collects_each_file_once() {
    let server = diamond_server();
    let (root, files) = fetch_closure(&server, "pkg.Root").expect("closure");
    assert_eq!(root, "root.proto");
    let mut names: Vec<String> = files.iter().map(|f| f.name.clone()).collect();
    names.sort();
    assert_eq!(names, vec!["a.proto", "b.proto", "common.proto", "root.proto"]);
}

#[test]
fn test_reflection_closure_leaves_unreachable_files_alone() {
    // A file nothing imports is not fetched.
    let mut server = diamond_server();
    server.files.push(rec("stray.proto", &[]));
    let (_, files) = fetch_closure(&server, "pkg.Root").expect("closure");
    assert_eq!(files.len(), 4);
    assert!(files.iter().all(|f| f.name != "stray.proto"));
}

#[test]
fn test_reflection_shared_import_requested_once() {
    // Drive the resolver by hand: the shared import is requested exactly once.
    let mut st = ReflectionResolver::new();
    let reqs = st.on_file_response(rec("root.proto", &["a.proto", "b.proto"]));
    assert_eq!(reqs, vec!["a.proto".to_string(), "b.proto".to_string()]);
    assert_eq!(st.in_flight, 2);
    let reqs_a = st.on_file_response(rec("a.proto", &["common.proto"]));
    assert_eq!(reqs_a, vec!["common.proto".to_string()]);
    let reqs_b = st.on_file_response(rec("b.proto", &["common.proto"]));
    assert_eq!(reqs_b, Vec::<String>::new());
    let reqs_c = st.on_file_response(rec("common.proto", &[]));
    assert_eq!(reqs_c, Vec::<String>::new());
    assert_eq!(st.in_flight, 0);
    assert_eq!(st.collected.len(), 4);
    // Every by-name request went out exactly once.
    assert_eq!(
        st.requested,
        vec!["a.proto".to_string(), "b.proto".to_string(), "common.proto".to_string()]
    );
}

#[test]
fn test_reflection_duplicate_response_changes_nothing() {
    let mut st = ReflectionResolver::new();
    let _ = st.on_file_response(rec("root.proto", &["a.proto"]));
    let _ = st.on_file_response(rec("a.proto", &[]));
    let collected_before = st.collected.len();
    let requested_before = st.requested.len();
    // The server repeats a file it already sent: nothing changes but the
    // in-flight count going negative is impossible — feed it as a response to
    // one more synthetic request.
    st.in_flight = 1;
    let reqs = st.on_file_response(rec("a.proto", &[]));
    assert!(reqs.is_empty());
    assert_eq!(st.collected.len(), collected_before);
    assert_eq!(st.requested.len(), requested_before);
}

#[test]
fn test_reflection_unknown_symbol_fails_not_found() {
    let server = diamond_server();
    match fetch_closure(&server, "pkg.Ghost") {
        Err(ReflectionResolveError::ServerStreamFailure(st)) => {
            assert_eq!(st.code, CODE_NOT_FOUND);
        },
        other => panic!("expected a NOT_FOUND stream failure, got {:?}", other),
    }
}

#[test]
fn test_step_decodes_real_file_descriptor() {
    // Encode a real FileDescriptorProto and let the resolver decode it.
    let fd = prost_types::FileDescriptorProto {
        name: Some("x.proto".to_string()),
        dependency: vec!["y.proto".to_string()],
        ..Default::default()
    };
    let bytes = prost::Message::encode_to_vec(&fd);
    let mut st = ReflectionResolver::new();
    let reqs = st
        .step(ReflectionEvent::Response(MessageResponse::FileDescriptorResponse(vec![
            bytes.clone(),
        ])))
        .expect("step");
    assert_eq!(reqs, vec!["y.proto".to_string()]);
    assert_eq!(st.collected.len(), 1);
    assert_eq!(st.collected[0].name, "x.proto");
    assert_eq!(st.collected[0].imports, vec!["y.proto".to_string()]);
    assert_eq!(st.collected[0].bytes, bytes);
    assert_eq!(st.in_flight, 1);
}

#[test]
fn test_step_rejects_garbage_bytes() {
    let mut st = ReflectionResolver::new();
    let r = st.step(ReflectionEvent::Response(MessageResponse::FileDescriptorResponse(vec![
        vec![0xff, 0xff, 0xff, 0xff],
    ])));
    match r {
        Err(ReflectionResolveError::DecodeError(_)) => {},
        other => panic!("expected a decode error, got {:?}", other),
    }
}

#[test]
fn test_step_protocol_failures() {
    let mut st = ReflectionResolver::new();
    match st.step(ReflectionEvent::Closed) {
        Err(ReflectionResolveError::StreamClosed) => {},
        other => panic!("expected StreamClosed, got {:?}", other),
    }
    let mut st = ReflectionResolver::new();
    match st.step(ReflectionEvent::Response(MessageResponse::ErrorResponse {
        code: 5,
        message: "nope".to_string(),
    })) {
        Err(ReflectionResolveError::ServerError { code, message }) => {
            assert_eq!(code, 5);
            assert_eq!(message, "nope");
        },
        other => panic!("expected ServerError, got {:?}", other),
    }
    let mut st = ReflectionResolver::new();
    match st.step(ReflectionEvent::EmptyMessage) {
        Err(ReflectionResolveError::UnexpectedResponseType(t)) => {
            assert_eq!(t, "Empty Message");
        },
        other => panic!("expected UnexpectedResponseType, got {:?}", other),
    }
}

#[test]
fn test_list_services_response_variants() {
    let names = vec!["a.S".to_string(), "b.T".to_string()];
    let r = list_services_response(ReflectionEvent::Response(
        MessageResponse::ListServicesResponse(names.clone()),
    ));
    assert_eq!(r.expect("services"), names);
    match list_services_response(ReflectionEvent::Failed(Status::new(14, "down".to_string()))) {
        Err(ReflectionResolveError::ServerStreamFailure(st)) => assert_eq!(st.code, 14),
        other => panic!("expected a stream failure, got {:?}", other),
    }
    match list_services_response(ReflectionEvent::Response(
        MessageResponse::FileDescriptorResponse(vec![]),
    )) {
        Err(ReflectionResolveError::UnexpectedResponseType(_)) => {},
        other => panic!("expected UnexpectedResponseType, got {:?}", other),
    }
    match list_services_response(ReflectionEvent::Closed) {
        Err(ReflectionResolveError::StreamClosed) => {},
        other => panic!("expected StreamClosed, got {:?}", other),
    }
}
