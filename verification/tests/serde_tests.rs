use protoc_gen_axum_connect::module::Module;
use protoc_gen_axum_connect::request::{GenerateError, GeneratedFile, ModuleRequest, ModuleRequestSet};
use protoc_gen_axum_connect::serde_gen::{
    assemble, module_of_serde_package, place_output, rewrite_namespaces, AxumConnectSerdeGenerator,
};

fn request(package: &str, output_dir: &str, output_filename: Option<&str>) -> ModuleRequest {
    ModuleRequest {
        proto_package_name: package.to_string(),
        module: Module::from_protobuf_package_name(package),
        output_dir: output_dir.to_string(),
        output_filename: output_filename.map(|name| name.to_string()),
        files: vec![],
    }
}

fn set() -> ModuleRequestSet {
    ModuleRequestSet::new(vec![
        request("hello.v1", "hello/v1/", Some("hello.v1.rs")),
        request("quiet", "quiet/", None),
        request("type.v1", "type/v1/", Some("type.v1.rs")),
    ])
}

fn fragment(name: &str, content: &str) -> GeneratedFile {
    GeneratedFile {
        name: name.to_string(),
        content: content.to_string(),
        insertion_point: Some("module".to_string()),
    }
}

fn unqualified(text: &str, namespace: &str) -> usize {
    text.match_indices(namespace)
        .filter(|(at, _)| !text[..*at].ends_with("axum_connect::"))
        .count()
}

#[test]
fn namespaces_are_rewritten_to_the_exports() {
    assert_eq!(
        rewrite_namespaces("impl serde::Serialize for X { pbjson::private::f(prost::Message) }"),
        "impl axum_connect::serde::Serialize for X { axum_connect::pbjson::private::f(axum_connect::prost::Message) }"
    );
    assert_eq!(rewrite_namespaces("::pbjson::private::N"), "::axum_connect::pbjson::private::N");
    assert_eq!(rewrite_namespaces("nothing to see"), "nothing to see");
    assert_eq!(rewrite_namespaces(""), "");
}

#[test]
fn rewriting_is_plain_find_and_replace() {
    assert_eq!(rewrite_namespaces("my_serde::X"), "my_axum_connect::serde::X");
    assert_eq!(rewrite_namespaces("serde::serde::"), "axum_connect::serde::axum_connect::serde::");
    assert_eq!(
        rewrite_namespaces("axum_connect::prost::Y"),
        "axum_connect::axum_connect::prost::Y"
    );
}

#[test]
fn rewriting_agrees_with_chained_str_replace() {
    for body in ["pbjson::prost::serde::", "xpbjson::yprost::zserde::w", "pbjson:prost::", "serde:::", "ppbjson::::"] {
        let expected = body
            .replace("pbjson::", "axum_connect::pbjson::")
            .replace("prost::", "axum_connect::prost::")
            .replace("serde::", "axum_connect::serde::");
        assert_eq!(rewrite_namespaces(body), expected);
    }
}

#[test]
fn no_namespace_is_left_without_its_export() {
    for body in ["pbjson::a prost::b serde::c", "pbjson::pbjson::", "prost::serde::pbjson::prost::", "::serde::de", "pprost::"] {
        let rewritten = rewrite_namespaces(body);
        for namespace in ["pbjson::", "prost::", "serde::"] {
            assert_eq!(unqualified(&rewritten, namespace), 0);
        }
    }
}

#[test]
fn serde_module_drops_raw_identifier_marks() {
    assert_eq!(module_of_serde_package("r#type.v1").parts, vec!["r#type".to_string(), "v1".to_string()]);
    assert_eq!(module_of_serde_package("hello.v1").parts, vec!["hello".to_string(), "v1".to_string()]);
}

#[test]
fn output_is_appended_to_the_main_file_of_its_module() {
    let placed = place_output(&set(), "hello.v1", &b"use serde::Serialize;\n".to_vec()).unwrap();
    assert_eq!(
        placed,
        Some(fragment("hello/v1/hello.v1.rs", "// @generated\nuse axum_connect::serde::Serialize;\n"))
    );
}

#[test]
fn appended_output_ends_with_a_line_break() {
    let placed = place_output(&set(), "hello.v1", &b"struct X;".to_vec()).unwrap().unwrap();
    assert_eq!(placed.content, "// @generated\nstruct X;\n");
    let empty = place_output(&set(), "hello.v1", &Vec::new()).unwrap().unwrap();
    assert_eq!(empty.content, "// @generated\n");
}

#[test]
fn output_for_a_raw_identifier_package_finds_its_module() {
    let placed = place_output(&set(), "r#type.v1", &b"x".to_vec()).unwrap().unwrap();
    assert_eq!(placed.name, "type/v1/type.v1.rs");
}

#[test]
fn output_without_a_requested_module_is_dropped() {
    assert_eq!(place_output(&set(), "quiet", &b"x".to_vec()).unwrap(), None);
    assert_eq!(place_output(&set(), "unknown", &b"x".to_vec()).unwrap(), None);
}

#[test]
fn output_that_is_not_utf8_is_an_error_where_it_is_read() {
    let broken = vec![0xff, 0xfe];
    assert_eq!(place_output(&set(), "hello.v1", &broken), Err(GenerateError::Encoding));
    assert_eq!(place_output(&set(), "quiet", &broken), Err(GenerateError::Encoding));
    assert_eq!(place_output(&set(), "unknown", &broken), Ok(None));
}

#[test]
fn assemble_keeps_the_order_of_the_outputs() {
    let outputs = vec![
        ("r#type.v1".to_string(), b"prost::a".to_vec()),
        ("unknown".to_string(), vec![0xff]),
        ("hello.v1".to_string(), b"pbjson::b\n".to_vec()),
    ];
    let files = assemble(&set(), &outputs).unwrap();
    assert_eq!(
        files,
        vec![
            fragment("type/v1/type.v1.rs", "// @generated\naxum_connect::prost::a\n"),
            fragment("hello/v1/hello.v1.rs", "// @generated\naxum_connect::pbjson::b\n"),
        ]
    );
}

#[test]
fn assemble_fails_without_partial_output() {
    let outputs = vec![
        ("hello.v1".to_string(), b"fine".to_vec()),
        ("type.v1".to_string(), vec![0xc0]),
    ];
    assert_eq!(assemble(&set(), &outputs), Err(GenerateError::Encoding));
}

#[test]
fn serde_stage_hands_on_the_error_of_the_library() {
    let failed = AxumConnectSerdeGenerator::new(Err("invalid descriptor".to_string()));
    assert_eq!(failed.generate(&set()), Err(GenerateError::Codegen("invalid descriptor".to_string())));
    let worked = AxumConnectSerdeGenerator::new(Ok(vec![("hello.v1".to_string(), b"x".to_vec())]));
    assert_eq!(worked.generate(&set()), Ok(vec![fragment("hello/v1/hello.v1.rs", "// @generated\nx\n")]));
    let idle = AxumConnectSerdeGenerator::new(Ok(vec![]));
    assert_eq!(idle.generate(&set()), Ok(vec![]));
}
