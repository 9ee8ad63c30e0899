use granc::descriptor::{
    DescriptorError, Descriptor, DescriptorPool, EnumDecl, EnumValueDecl, FieldCard, FieldDecl,
    FieldKind, FileDecl, MessageDecl, MethodDecl, ServiceDecl,
};

fn string_field(name: &str, number: u32) -> FieldDecl {
    FieldDecl {
        name: name.to_string(),
        json_name: name.to_string(),
        number,
        kind: FieldKind::Str,
        card: FieldCard::Singular,
    }
}

fn echo_message(fqn: &str, name: &str) -> MessageDecl {
    MessageDecl {
        fqn: fqn.to_string(),
        package: "echo".to_string(),
        name: name.to_string(),
        fields: vec![string_field("message", 1)],
    }
}

fn echo_method(name: &str, cs: bool, ss: bool) -> MethodDecl {
    MethodDecl {
        name: name.to_string(),
        input: "echo.EchoRequest".to_string(),
        output: "echo.EchoResponse".to_string(),
        client_streaming: cs,
        server_streaming: ss,
    }
}

fn echo_file() -> FileDecl {
    FileDecl {
        name: "echo.proto".to_string(),
        package: "echo".to_string(),
        imports: vec![],
        messages: vec![
            echo_message("echo.EchoRequest", "EchoRequest"),
            echo_message("echo.EchoResponse", "EchoResponse"),
        ],
        enums: vec![],
        services: vec![ServiceDecl {
            fqn: "echo.EchoService".to_string(),
            package: "echo".to_string(),
            name: "EchoService".to_string(),
            methods: vec![
                echo_method("UnaryEcho", false, false),
                echo_method("ServerStreamingEcho", false, true),
                echo_method("ClientStreamingEcho", true, false),
                echo_method("BidirectionalEcho", true, true),
            ],
        }],
    }
}

#[test]
fn test_pool_build_and_lookups() {
    let pool = DescriptorPool::from_file_descriptor_set(vec![echo_file()]).expect("builds");
    assert_eq!(pool.list_services(), vec!["echo.EchoService".to_string()]);
    let svc = pool.get_service_by_name("echo.EchoService").expect("service");
    assert_eq!(svc.name, "EchoService");
    assert_eq!(svc.methods.len(), 4);
    let m = svc.find_method("UnaryEcho").expect("method");
    assert!(!m.client_streaming);
    assert!(!m.server_streaming);
    assert_eq!(m.input, "echo.EchoRequest");
    let msg = pool.get_message_by_name("echo.EchoRequest").expect("message");
    assert_eq!(msg.fields[0].number, 1);
    assert!(pool.get_enum_by_name("echo.Missing").is_none());
}

#[test]
fn test_describe_resolves_in_fixed_order() {
    let pool = DescriptorPool::from_file_descriptor_set(vec![echo_file()]).expect("builds");
    match pool.get_descriptor_by_symbol("echo.EchoService") {
        Some(Descriptor::ServiceDescriptor(s)) => assert_eq!(s.fqn, "echo.EchoService"),
        other => panic!("expected a service, got {:?}", other),
    }
    match pool.get_descriptor_by_symbol("echo.EchoRequest") {
        Some(Descriptor::MessageDescriptor(m)) => {
            assert_eq!(m.fqn, "echo.EchoRequest");
            assert_eq!(m.package, "echo");
            assert_eq!(m.name, "EchoRequest");
        },
        other => panic!("expected a message, got {:?}", other),
    }
    assert!(pool.get_descriptor_by_symbol("echo.Ghost").is_none());
}

#[test]
fn test_pool_rejects_duplicate_filename() {
    let e = DescriptorPool::from_file_descriptor_set(vec![echo_file(), echo_file()]).unwrap_err();
    assert_eq!(e, DescriptorError::DuplicateFileName("echo.proto".to_string()));
}

#[test]
fn test_pool_rejects_missing_import() {
    let mut f = echo_file();
    f.imports.push("absent.proto".to_string());
    let e = DescriptorPool::from_file_descriptor_set(vec![f]).unwrap_err();
    assert_eq!(
        e,
        DescriptorError::MissingImport {
            file: "echo.proto".to_string(),
            import: "absent.proto".to_string(),
        }
    );
}

#[test]
fn test_pool_rejects_duplicate_symbol() {
    let mut f = echo_file();
    f.messages.push(echo_message("echo.EchoRequest", "EchoRequest"));
    let e = DescriptorPool::from_file_descriptor_set(vec![f]).unwrap_err();
    assert_eq!(e, DescriptorError::DuplicateSymbol("echo.EchoRequest".to_string()));
}

#[test]
fn test_pool_rejects_duplicate_field_number() {
    let mut f = echo_file();
    f.messages[0].fields.push(string_field("other", 1));
    let e = DescriptorPool::from_file_descriptor_set(vec![f]).unwrap_err();
    assert_eq!(
        e,
        DescriptorError::DuplicateFieldNumber { message: "echo.EchoRequest".to_string(), number: 1 }
    );
}

#[test]
fn test_pool_rejects_unresolved_reference() {
    let mut f = echo_file();
    f.messages[0].fields.push(FieldDecl {
        name: "inner".to_string(),
        json_name: "inner".to_string(),
        number: 2,
        kind: FieldKind::Message("echo.Nowhere".to_string()),
        card: FieldCard::Singular,
    });
    let e = DescriptorPool::from_file_descriptor_set(vec![f]).unwrap_err();
    assert_eq!(
        e,
        DescriptorError::UnresolvedReference {
            referrer: "echo.EchoRequest".to_string(),
            target: "echo.Nowhere".to_string(),
        }
    );
}

#[test]
fn test_pool_closed_after_build() {
    // A pool with a message reference and an enum reference resolves both.
    let file = FileDecl {
        name: "deps.proto".to_string(),
        package: "deps".to_string(),
        imports: vec![],
        messages: vec![
            MessageDecl {
                fqn: "deps.Outer".to_string(),
                package: "deps".to_string(),
                name: "Outer".to_string(),
                fields: vec![
                    FieldDecl {
                        name: "inner".to_string(),
                        json_name: "inner".to_string(),
                        number: 1,
                        kind: FieldKind::Message("deps.Inner".to_string()),
                        card: FieldCard::Singular,
                    },
                    FieldDecl {
                        name: "status".to_string(),
                        json_name: "status".to_string(),
                        number: 2,
                        kind: FieldKind::Enum("deps.Status".to_string()),
                        card: FieldCard::Singular,
                    },
                ],
            },
            MessageDecl {
                fqn: "deps.Inner".to_string(),
                package: "deps".to_string(),
                name: "Inner".to_string(),
                fields: vec![string_field("id", 1)],
            },
        ],
        enums: vec![EnumDecl {
            fqn: "deps.Status".to_string(),
            package: "deps".to_string(),
            name: "Status".to_string(),
            values: vec![
                EnumValueDecl { name: "UNKNOWN".to_string(), number: 0 },
                EnumValueDecl { name: "OK".to_string(), number: 1 },
            ],
        }],
        services: vec![],
    };
    let pool = DescriptorPool::from_file_descriptor_set(vec![file]).expect("builds");
    assert!(pool.get_message_by_name("deps.Inner").is_some());
    assert!(pool.get_enum_by_name("deps.Status").is_some());
}
