use granc::descriptor::{
    DescriptorPool, EnumDecl, EnumValueDecl, FieldCard, FieldDecl, FieldKind, FileDecl,
    MessageDecl, MethodDecl, ServiceDecl,
};
use granc::docgen::{
    DocsGenerator, collect_message_dependencies, packages_from_service, render_expansion,
    resolve_link,
};
use granc::format::{MethodData, format_enum, format_message, format_method, format_service};

fn sample_pool() -> DescriptorPool {
    let file = FileDecl {
        name: "test.proto".to_string(),
        package: "test".to_string(),
        imports: vec![],
        messages: vec![
            MessageDecl {
                fqn: "test.Request".to_string(),
                package: "test".to_string(),
                name: "Request".to_string(),
                fields: vec![FieldDecl {
                    name: "status".to_string(),
                    json_name: "status".to_string(),
                    number: 1,
                    kind: FieldKind::Enum("test.Status".to_string()),
                    card: FieldCard::Singular,
                }],
            },
            MessageDecl {
                fqn: "test.Response".to_string(),
                package: "test".to_string(),
                name: "Response".to_string(),
                fields: vec![FieldDecl {
                    name: "status".to_string(),
                    json_name: "status".to_string(),
                    number: 1,
                    kind: FieldKind::Enum("test.Status".to_string()),
                    card: FieldCard::Singular,
                }],
            },
        ],
        enums: vec![EnumDecl {
            fqn: "test.Status".to_string(),
            package: "test".to_string(),
            name: "Status".to_string(),
            values: vec![
                EnumValueDecl { name: "UNKNOWN".to_string(), number: 0 },
                EnumValueDecl { name: "OK".to_string(), number: 1 },
            ],
        }],
        services: vec![ServiceDecl {
            fqn: "test.MyService".to_string(),
            package: "test".to_string(),
            name: "MyService".to_string(),
            methods: vec![MethodDecl {
                name: "DoSomething".to_string(),
                input: "test.Request".to_string(),
                output: "test.Response".to_string(),
                client_streaming: false,
                server_streaming: true,
            }],
        }],
    };
    DescriptorPool::from_file_descriptor_set(vec![file]).expect("builds")
}

#[test]
fn test_format_method_exact() {
    let m = MethodDecl {
        name: "DoSomething".to_string(),
        input: "test.Request".to_string(),
        output: "test.Response".to_string(),
        client_streaming: true,
        server_streaming: false,
    };
    assert_eq!(format_method(&m), "rpc DoSomething(stream test.Request) returns (test.Response);");
    let data = MethodData::from_method(&m);
    assert_eq!(data.name, "DoSomething");
    assert_eq!(data.signature, "rpc DoSomething(stream test.Request) returns (test.Response);");
}

#[test]
fn test_format_service_exact() {
    let pool = sample_pool();
    let s = pool.get_service_by_name("test.MyService").expect("service");
    assert_eq!(
        format_service(s),
        "service MyService {\n  rpc DoSomething(test.Request) returns (stream test.Response);\n\n}"
    );
}

#[test]
fn test_format_message_and_enum_exact() {
    let pool = sample_pool();
    let m = pool.get_message_by_name("test.Request").expect("message");
    assert_eq!(format_message(m), "message Request {\n  test.Status status = 1;\n}");
    let e = pool.get_enum_by_name("test.Status").expect("enum");
    assert_eq!(format_enum(e), "enum Status {\n  UNKNOWN = 0;\n  OK = 1;\n}");
}

#[test]
fn test_package_collection_groups_and_dedups() {
    let pool = sample_pool();
    let service = pool.get_service_by_name("test.MyService").expect("service");
    let packages = packages_from_service(&pool, service);
    let pages = packages.values();
    assert_eq!(pages.len(), 1);
    let page = &pages[0];
    assert_eq!(page.name, "test");
    assert_eq!(page.services.len(), 1);
    assert_eq!(page.services[0].name, "MyService");
    let mut msg_names: Vec<&str> = page.messages.iter().map(|m| m.name.as_str()).collect();
    msg_names.sort();
    assert_eq!(msg_names, vec!["Request", "Response"]);
    // The shared enum appears exactly once.
    assert_eq!(page.enums.len(), 1);
    assert_eq!(page.enums[0].name, "Status");
    assert_eq!(packages.names(), vec!["test".to_string()]);
}

#[test]
fn test_expanded_message_rendering() {
    let pool = sample_pool();
    let root = pool.get_message_by_name("test.Request").expect("message");
    let (dep_msgs, dep_enums) = collect_message_dependencies(&pool, root);
    // The root comes first; the referenced enum appears exactly once.
    assert_eq!(dep_msgs.len(), 1);
    assert_eq!(dep_msgs[0].fqn, "test.Request");
    assert_eq!(dep_enums.len(), 1);
    assert_eq!(dep_enums[0].fqn, "test.Status");
    let rendered = render_expansion(&dep_msgs, &dep_enums);
    assert_eq!(
        rendered,
        "message Request {
  test.Status status = 1;
}

enum Status {
  UNKNOWN = 0;
  OK = 1;
}
"
    );
}

#[test]
fn test_resolve_link_shape() {
    assert_eq!(resolve_link("common", "Shared"), "common.md#Shared");
}

#[test]
fn test_generated_pages() {
    let pool = sample_pool();
    let mut generator = DocsGenerator::new("docs".to_string());
    assert_eq!(generator.output_dir, "docs");
    let pages = generator.generate(&pool, "test.MyService").expect("service exists");
    assert_eq!(pages.len(), 2);
    assert_eq!(pages[0].0, "test.md");
    let page = &pages[0].1;
    assert!(page.starts_with("# Namespace: `test`\n\n"));
    assert!(page.contains("<a id=\"MyService\"></a>\n## MyService\n\n**Type**: `Service`"));
    assert!(page.contains("- Request: [Request](test.md#Request)\n"));
    assert!(page.contains("- Field `status`: [Status](test.md#Status)\n"));
    assert!(page.contains("**Type**: `Enum`"));
    assert_eq!(pages[1].0, "index.md");
    let index = &pages[1].1;
    assert!(index.starts_with("# Documentation: `MyService`\n\n## Entry Point\n\n"));
    assert!(index.contains("- [**Service: MyService**](test.md#MyService)\n"));
    assert!(index.contains("- [test](test.md)\n"));
    assert!(generator.generate(&pool, "test.Ghost").is_none());
}
