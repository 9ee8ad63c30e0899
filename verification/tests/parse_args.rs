use granc::parse::{Source, SourceSelection, parse_endpoint, parse_header, parse_method_path};
use granc::text::{i64_to_string, trim_str, u64_to_string};

#[test]
fn test_parse_endpoint_splits_at_first_slash() {
    let (service, method) = parse_endpoint("helloworld.Greeter/SayHello").expect("parses");
    assert_eq!(service, "helloworld.Greeter");
    assert_eq!(method, "SayHello");
}

#[test]
fn test_parse_endpoint_keeps_later_slashes_in_method() {
    let (service, method) = parse_endpoint("a.B/c/d").expect("parses");
    assert_eq!(service, "a.B");
    assert_eq!(method, "c/d");
}

#[test]
fn test_parse_endpoint_requires_slash() {
    let err = parse_endpoint("OnlyServiceNoMethod").unwrap_err();
    assert!(err.contains("Invalid endpoint format"));
}

#[test]
fn test_parse_endpoint_rejects_blank_parts() {
    assert!(parse_endpoint("  /Method").is_err());
    assert!(parse_endpoint("svc.S/   ").is_err());
}

#[test]
fn test_parse_header_trims_both_sides() {
    let (k, v) = parse_header(" auth :  bearer ").expect("parses");
    assert_eq!(k, "auth");
    assert_eq!(v, "bearer");
    let (k, v) = parse_header("auth:bearer").expect("parses");
    assert_eq!(k, "auth");
    assert_eq!(v, "bearer");
}

#[test]
fn test_parse_header_requires_colon() {
    let err = parse_header("no separator").unwrap_err();
    assert_eq!(err, "Format must be 'key:value'");
}

#[test]
fn test_parse_method_path() {
    let (service, method) = parse_method_path("my.pkg.Svc/Do").expect("parses");
    assert_eq!(service, "my.pkg.Svc");
    assert_eq!(method, "Do");
    assert!(parse_method_path("noslash").is_none());
}

#[test]
fn test_source_selection_prefers_uri() {
    let s = SourceSelection { uri: Some("http://localhost:50051".to_string()), file_descriptor_set: None };
    match s.value() {
        Source::Uri(u) => assert_eq!(u, "http://localhost:50051"),
        other => panic!("expected a URI source, got another variant: {:?}", matches!(other, Source::File(_))),
    }
    let s = SourceSelection { uri: None, file_descriptor_set: Some("desc.bin".to_string()) };
    match s.value() {
        Source::File(p) => assert_eq!(p, "desc.bin"),
        _ => panic!("expected a file source"),
    }
}

#[test]
fn test_decimal_rendering() {
    assert_eq!(u64_to_string(0), "0");
    assert_eq!(u64_to_string(42), "42");
    assert_eq!(u64_to_string(18446744073709551615), "18446744073709551615");
    assert_eq!(i64_to_string(-7), "-7");
    assert_eq!(i64_to_string(0), "0");
    assert_eq!(i64_to_string(-9223372036854775808), "-9223372036854775808");
}

#[test]
fn test_trim_str_edges() {
    assert_eq!(trim_str("  x  "), "x");
    assert_eq!(trim_str("\t\n"), "");
    assert_eq!(trim_str("inner space kept"), "inner space kept");
}
