use protoc_gen_axum_connect::base::CoreProstGenerator;
use protoc_gen_axum_connect::chain::Generator;
use protoc_gen_axum_connect::descriptor::{FileDescriptor, MethodDescriptor, ServiceDescriptor};
use protoc_gen_axum_connect::generator::AxumConnectGenerator;
use protoc_gen_axum_connect::module::Module;
use protoc_gen_axum_connect::request::{GenerateError, ModuleRequest, ModuleRequestSet};
use protoc_gen_axum_connect::serde_gen::AxumConnectSerdeGenerator;

fn set() -> ModuleRequestSet {
    let ping = MethodDescriptor {
        name: "Ping".to_string(),
        input_type: ".hello.v1.PingRequest".to_string(),
        output_type: ".hello.v1.PingResponse".to_string(),
        client_streaming: false,
        server_streaming: false,
    };
    let file = FileDescriptor {
        package: "hello.v1".to_string(),
        services: vec![ServiceDescriptor { name: "Pinger".to_string(), methods: vec![ping] }],
        message_types: vec!["PingRequest".to_string(), "PingResponse".to_string()],
    };
    ModuleRequestSet::new(vec![ModuleRequest {
        proto_package_name: "hello.v1".to_string(),
        module: Module::from_protobuf_package_name("hello.v1"),
        output_dir: "hello/v1/".to_string(),
        output_filename: Some("hello.v1.rs".to_string()),
        files: vec![file],
    }])
}

fn base(outcome: Result<&str, &str>) -> Generator {
    Generator::Base(CoreProstGenerator::new(match outcome {
        Ok(content) => Ok(vec![(Module::from_protobuf_package_name("hello.v1"), content.to_string())]),
        Err(message) => Err(message.to_string()),
    }))
}

fn route() -> Generator {
    Generator::Route(AxumConnectGenerator::new(vec![]))
}

fn serde(outcome: Result<&str, &str>) -> Generator {
    Generator::Serde(AxumConnectSerdeGenerator::new(match outcome {
        Ok(body) => Ok(vec![("hello.v1".to_string(), body.as_bytes().to_vec())]),
        Err(message) => Err(message.to_string()),
    }))
}

#[test]
fn chain_concatenates_in_stage_order() {
    let set = set();
    let first = base(Ok("messages\n")).generate(&set).unwrap();
    let second = route().generate(&set).unwrap();
    let third = serde(Ok("json\n")).generate(&set).unwrap();
    let all = base(Ok("messages\n")).chain(route()).chain(serde(Ok("json\n"))).generate(&set).unwrap();
    let mut expected = first.clone();
    expected.extend(second.clone());
    expected.extend(third.clone());
    assert_eq!(all, expected);
    let main: Vec<&str> = all
        .iter()
        .filter(|file| file.name == "hello/v1/hello.v1.rs")
        .map(|file| file.content.as_str())
        .collect();
    assert_eq!(
        main,
        vec![
            "// @generated\nmessages\n// @@protoc_insertion_point(module)\n",
            "include!(\"hello.v1.axum.connect.rs\");\n",
            "// @generated\njson\n",
        ]
    );
}

#[test]
fn chain_grouping_does_not_matter() {
    let set = set();
    let left = base(Ok("m")).chain(route()).chain(serde(Ok("j"))).generate(&set);
    let right = base(Ok("m")).chain(route().chain(serde(Ok("j")))).generate(&set);
    assert_eq!(left, right);
}

#[test]
fn chain_fails_with_the_first_error() {
    let set = set();
    let early = base(Err("first")).chain(route()).chain(serde(Err("second"))).generate(&set);
    assert_eq!(early, Err(GenerateError::Codegen("first".to_string())));
    let late = base(Ok("m")).chain(route()).chain(serde(Err("second"))).generate(&set);
    assert_eq!(late, Err(GenerateError::Codegen("second".to_string())));
}

#[test]
fn chain_returns_no_partial_output() {
    let set = set();
    let broken = Generator::Serde(AxumConnectSerdeGenerator::new(Ok(vec![(
        "hello.v1".to_string(),
        vec![0xff],
    )])));
    assert_eq!(route().chain(broken).generate(&set), Err(GenerateError::Encoding));
}

#[test]
fn generation_is_repeatable() {
    let set = set();
    let first = base(Ok("m")).chain(route()).chain(serde(Ok("serde::x"))).generate(&set);
    let second = base(Ok("m")).chain(route()).chain(serde(Ok("serde::x"))).generate(&set);
    assert_eq!(first, second);
    let generator = route().chain(serde(Ok("y")));
    assert_eq!(generator.generate(&set), generator.generate(&set));
}

#[test]
fn every_whole_file_stands_between_the_two_markers() {
    let set = set();
    let files = base(Ok("m")).chain(route()).chain(serde(Ok("j"))).generate(&set).unwrap();
    assert_eq!(files.len(), 4);
    let mut whole = 0;
    for file in &files {
        if file.insertion_point.is_none() {
            whole += 1;
            assert!(file.content.starts_with("// @generated\n"));
            assert!(file.content.ends_with("// @@protoc_insertion_point(module)\n"));
        }
    }
    assert_eq!(whole, 2);
    assert_eq!(files[0].name, "hello/v1/hello.v1.rs");
    assert_eq!(files[2].name, "hello/v1/hello.v1.axum.connect.rs");
}

#[test]
fn module_without_routes_still_gets_the_other_stages() {
    let mut set = set();
    set.requests[0].files[0].services[0].methods[0].client_streaming = true;
    let files = base(Ok("m")).chain(route()).chain(serde(Ok("j"))).generate(&set).unwrap();
    let contents: Vec<&str> = files.iter().map(|file| file.content.as_str()).collect();
    assert_eq!(
        contents,
        vec!["// @generated\nm// @@protoc_insertion_point(module)\n", "// @generated\nj\n"]
    );
    assert!(files.iter().all(|file| file.name == "hello/v1/hello.v1.rs"));
}

#[test]
fn stages_without_routes_take_any_requests() {
    let mut set = set();
    set.requests[0].files[0].services[0].methods[0].name = "a.b".to_string();
    assert!(!set.is_well_formed());
    let files = base(Ok("m")).chain(serde(Ok("j"))).generate(&set).unwrap();
    assert_eq!(files.len(), 2);
}

#[test]
fn created_files_have_their_own_names() {
    let mut set = set();
    let mut other = set.requests[0].clone();
    other.proto_package_name = "other.v1".to_string();
    other.module = Module::from_protobuf_package_name("other.v1");
    other.output_dir = "other/v1/".to_string();
    other.output_filename = Some("other.v1.rs".to_string());
    other.files[0].package = "other.v1".to_string();
    set.requests.push(other);
    assert!(set.is_well_formed());
    let files = base(Ok("m")).chain(route()).chain(serde(Ok("j"))).generate(&set).unwrap();
    let mut created: Vec<&str> = files
        .iter()
        .filter(|file| file.insertion_point.is_none())
        .map(|file| file.name.as_str())
        .collect();
    assert_eq!(created.len(), 4);
    created.sort();
    created.dedup();
    assert_eq!(created.len(), 4);
}
