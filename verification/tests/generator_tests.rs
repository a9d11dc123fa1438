use protoc_gen_axum_connect::descriptor::{FileDescriptor, MethodDescriptor, ServiceDescriptor};
use protoc_gen_axum_connect::generator::{
    bindings_for, render_binding, render_bindings, render_entry, rendered_or_source,
    route_file_content, AxumConnectGenerator, Binding, Verb,
};
use protoc_gen_axum_connect::module::Module;
use protoc_gen_axum_connect::request::{GeneratedFile, ModuleRequest, ModuleRequestSet};

fn tokens(source: &str) -> String {
    source.parse::<proc_macro2::TokenStream>().unwrap().to_string()
}

fn method(name: &str, client_streaming: bool, server_streaming: bool) -> MethodDescriptor {
    MethodDescriptor {
        name: name.to_string(),
        input_type: ".hello.v1.HelloRequest".to_string(),
        output_type: ".google.protobuf.Empty".to_string(),
        client_streaming,
        server_streaming,
    }
}

fn service(name: &str, methods: Vec<MethodDescriptor>) -> ServiceDescriptor {
    ServiceDescriptor { name: name.to_string(), methods }
}

fn file(package: &str, services: Vec<ServiceDescriptor>) -> FileDescriptor {
    FileDescriptor { package: package.to_string(), services, message_types: vec![] }
}

fn hello_module() -> Module {
    Module::from_protobuf_package_name("hello.v1")
}

fn request(files: Vec<FileDescriptor>, output_filename: Option<&str>) -> ModuleRequest {
    ModuleRequest {
        proto_package_name: "hello.v1".to_string(),
        module: hello_module(),
        output_dir: "hello/v1/".to_string(),
        output_filename: output_filename.map(|name| name.to_string()),
        files,
    }
}

fn generator() -> AxumConnectGenerator {
    AxumConnectGenerator::new(vec![(
        ".google.protobuf".to_string(),
        "::axum_connect::pbjson_types".to_string(),
    )])
}

fn entry(name: &str, handler: &str, verb: &str, path: &str) -> String {
    format!(
        "pub fn {name}<T, H, S>(
            handler: H
        ) -> impl FnOnce(axum::Router<S>) -> axum_connect::router::RpcRouter<S>
        where
            H: axum_connect::handler::{handler}<HelloRequest, ::axum_connect::pbjson_types::Empty, T, S>,
            T: 'static,
            S: Clone + Send + Sync + 'static,
        {{
            move |router: axum::Router<S>| {{
                router.route(
                    \"{path}\",
                    axum::routing::{verb}(|
                        axum::extract::State(state): axum::extract::State<S>,
                        request: axum::http::Request<axum::body::Body>
                    | async move {{
                        handler.call(request, state).await
                    }}),
                )
            }}
        }}"
    )
}

fn namespace(name: &str, entries: &[String]) -> String {
    format!(
        "pub struct {name};

        #[allow(dead_code)]
        impl {name} {{
            {}
        }}",
        entries.join("\n")
    )
}

fn policy(client_streaming: bool, server_streaming: bool) -> Vec<Binding> {
    bindings_for(
        "ping".to_string(),
        "/p.S/Ping".to_string(),
        "In".to_string(),
        "Out".to_string(),
        client_streaming,
        server_streaming,
    )
}

#[test]
fn streaming_policy_for_all_four_flag_combinations() {
    let by_body = Binding {
        name: "ping".to_string(),
        verb: Verb::Post,
        path: "/p.S/Ping".to_string(),
        input_type: "In".to_string(),
        output_type: "Out".to_string(),
        streaming: false,
    };
    let by_query = Binding { name: "ping_unary_get".to_string(), verb: Verb::Get, ..by_body.clone() };
    let streamed = Binding { streaming: true, ..by_body.clone() };
    assert_eq!(policy(true, false), vec![]);
    assert_eq!(policy(true, true), vec![]);
    assert_eq!(policy(false, true), vec![streamed]);
    assert_eq!(policy(false, false), vec![by_body, by_query]);
}

#[test]
fn entry_source_takes_the_literal_as_it_is() {
    let binding = policy(false, true).remove(0);
    let source = render_entry(&binding, "\"/elsewhere\"");
    assert!(source.starts_with("pub fn ping<T, H, S>(handler: H)"));
    assert!(source.contains("H: axum_connect::handler::RpcHandlerStream<In, Out, T, S>,"));
    assert!(source.contains("router.route(\n            \"/elsewhere\",\n            axum::routing::post(|"));
    assert!(source.ends_with("handler.call(request, state).await\n            }),\n        )\n    }\n}\n"));
    assert_eq!(render_binding(&binding), render_entry(&binding, "\"/p.S/Ping\""));
}

#[test]
fn route_file_content_stands_between_the_two_markers() {
    assert_eq!(
        route_file_content("struct A;".to_string(), Some("struct A ;".to_string())),
        "// @generated\nstruct A ;\n// @@protoc_insertion_point(module)\n"
    );
    assert_eq!(
        route_file_content("struct A;\n".to_string(), None),
        "// @generated\nstruct A;\n// @@protoc_insertion_point(module)\n"
    );
    assert_eq!(
        route_file_content(String::new(), None),
        "// @generated\n// @@protoc_insertion_point(module)\n"
    );
}

#[test]
fn client_streaming_method_is_not_bound() {
    let generator = generator();
    for server_streaming in [false, true] {
        let bindings = generator.bind_method(
            &hello_module(),
            "hello.v1",
            "Greeter",
            &method("Upload", true, server_streaming),
        );
        assert!(bindings.is_empty());
    }
}

#[test]
fn server_streaming_method_is_bound_once_by_body() {
    let bindings =
        generator().bind_method(&hello_module(), "hello.v1", "Greeter", &method("Watch", false, true));
    assert_eq!(
        bindings,
        vec![Binding {
            name: "watch".to_string(),
            verb: Verb::Post,
            path: "/hello.v1.Greeter/Watch".to_string(),
            input_type: "HelloRequest".to_string(),
            output_type: "::axum_connect::pbjson_types::Empty".to_string(),
            streaming: true,
        }]
    );
}

#[test]
fn unary_method_is_bound_by_body_and_by_query() {
    let bindings = generator().bind_method(
        &hello_module(),
        "hello.v1",
        "Greeter",
        &method("SayHello", false, false),
    );
    assert_eq!(bindings.len(), 2);
    assert_eq!(bindings[0].name, "say_hello");
    assert_eq!(bindings[1].name, "say_hello_unary_get");
    assert_eq!(bindings[0].verb, Verb::Post);
    assert_eq!(bindings[1].verb, Verb::Get);
    for binding in &bindings {
        assert_eq!(binding.path, "/hello.v1.Greeter/SayHello");
        assert_eq!(binding.input_type, "HelloRequest");
        assert_eq!(binding.output_type, "::axum_connect::pbjson_types::Empty");
        assert!(!binding.streaming);
    }
}

#[test]
fn route_path_keeps_the_dot_for_an_empty_package() {
    let bindings =
        generator().bind_method(&Module::from_parts(vec![]), "", "Greeter", &method("Ping", false, true));
    assert_eq!(bindings[0].path, "/.Greeter/Ping");
}

#[test]
fn binding_source_has_the_tokens_of_the_entry_point() {
    let binding = Binding {
        name: "say_hello".to_string(),
        verb: Verb::Get,
        path: "/hello.v1.Greeter/SayHello".to_string(),
        input_type: "HelloRequest".to_string(),
        output_type: "::axum_connect::pbjson_types::Empty".to_string(),
        streaming: false,
    };
    let source = render_binding(&binding);
    assert_eq!(
        tokens(&source),
        tokens(&entry("say_hello", "RpcHandlerUnary", "get", "/hello.v1.Greeter/SayHello"))
    );
    let streaming = Binding { verb: Verb::Post, streaming: true, ..binding.clone() };
    assert_eq!(
        tokens(&render_binding(&streaming)),
        tokens(&entry("say_hello", "RpcHandlerStream", "post", "/hello.v1.Greeter/SayHello"))
    );
    assert_eq!(
        render_bindings(&vec![binding.clone(), streaming.clone()]),
        format!("{}{}", render_binding(&binding), render_binding(&streaming))
    );
    assert_eq!(render_bindings(&vec![]), "");
}

#[test]
fn binding_source_escapes_the_path() {
    let binding = Binding {
        name: "odd".to_string(),
        verb: Verb::Post,
        path: "/a\"b\\c/M".to_string(),
        input_type: "In".to_string(),
        output_type: "Out".to_string(),
        streaming: false,
    };
    let source = render_binding(&binding);
    assert!(source.contains("\"/a\\\"b\\\\c/M\""));
    assert!(source.parse::<proc_macro2::TokenStream>().is_ok());
}

#[test]
fn service_without_bindings_has_no_namespace() {
    let generator = generator();
    let only_uploads = service("Uploads", vec![method("A", true, false), method("B", true, true)]);
    let container = file("hello.v1", vec![only_uploads.clone()]);
    assert_eq!(generator.generate_service(&hello_module(), &container, &only_uploads), None);
    let empty = service("Empty", vec![]);
    assert_eq!(generator.generate_service(&hello_module(), &container, &empty), None);
}

#[test]
fn service_namespace_has_the_tokens_of_its_entry_points() {
    let generator = generator();
    let greeter = service(
        "greeter",
        vec![method("SayHello", false, false), method("Upload", true, false), method("Watch", false, true)],
    );
    let container = file("hello.v1", vec![greeter.clone()]);
    let source = generator.generate_service(&hello_module(), &container, &greeter).unwrap();
    let expected = namespace(
        "Greeter",
        &[
            entry("say_hello", "RpcHandlerUnary", "post", "/hello.v1.greeter/SayHello"),
            entry("say_hello_unary_get", "RpcHandlerUnary", "get", "/hello.v1.greeter/SayHello"),
            entry("watch", "RpcHandlerStream", "post", "/hello.v1.greeter/Watch"),
        ],
    );
    assert_eq!(tokens(&source), tokens(&expected));
}

#[test]
fn service_named_self_is_guarded() {
    let generator = generator();
    let odd = service("self", vec![method("Ping", false, true)]);
    let container = file("hello.v1", vec![odd.clone()]);
    let source = generator.generate_service(&hello_module(), &container, &odd).unwrap();
    assert!(source.starts_with("pub struct Self_;"));
    assert!(source.contains("impl Self_ {"));
}

#[test]
fn module_request_yields_directive_and_route_file() {
    let greeter = service("Greeter", vec![method("SayHello", false, false)]);
    let watcher = service("Watcher", vec![method("Watch", false, true)]);
    let silent = service("Silent", vec![method("Upload", true, false)]);
    let request = request(
        vec![file("hello.v1", vec![greeter, silent]), file("hello.v1", vec![watcher])],
        Some("hello.v1.rs"),
    );
    let files = generator().handle_module_request(&hello_module(), &request).unwrap();
    assert_eq!(files.len(), 2);
    assert_eq!(
        files[0],
        GeneratedFile {
            name: "hello/v1/hello.v1.rs".to_string(),
            content: "include!(\"hello.v1.axum.connect.rs\");\n".to_string(),
            insertion_point: Some("module".to_string()),
        }
    );
    assert_eq!(files[1].name, "hello/v1/hello.v1.axum.connect.rs");
    assert_eq!(files[1].insertion_point, None);
    let expected = format!(
        "{}\n{}",
        namespace(
            "Greeter",
            &[
                entry("say_hello", "RpcHandlerUnary", "post", "/hello.v1.Greeter/SayHello"),
                entry("say_hello_unary_get", "RpcHandlerUnary", "get", "/hello.v1.Greeter/SayHello"),
            ]
        ),
        namespace("Watcher", &[entry("watch", "RpcHandlerStream", "post", "/hello.v1.Watcher/Watch")])
    );
    assert_eq!(
        files[1].content,
        format!("// @generated\n{}\n// @@protoc_insertion_point(module)\n", tokens(&expected))
    );
}

#[test]
fn route_file_is_rust() {
    let greeter = service(
        "Greeter",
        vec![method("SayHello", false, false), method("Watch", false, true), method("type", false, false)],
    );
    let request = request(vec![file("hello.v1", vec![greeter])], Some("hello.v1.rs"));
    let files = generator().handle_module_request(&hello_module(), &request).unwrap();
    let parsed = syn::parse_file(&files[1].content).unwrap();
    assert_eq!(parsed.items.len(), 2);
    assert!(files[1].content.starts_with("// @generated\n"));
    assert!(files[1].content.ends_with(" }\n// @@protoc_insertion_point(module)\n"));
}

#[test]
fn module_without_bindings_yields_nothing() {
    let silent = service("Silent", vec![method("Upload", true, false), method("Both", true, true)]);
    let request = request(vec![file("hello.v1", vec![silent, service("Empty", vec![])])], Some("hello.v1.rs"));
    assert_eq!(generator().handle_module_request(&hello_module(), &request), None);
    let no_files = self::request(vec![], Some("hello.v1.rs"));
    assert_eq!(generator().handle_module_request(&hello_module(), &no_files), None);
}

#[test]
fn module_that_was_not_asked_for_yields_nothing() {
    let greeter = service("Greeter", vec![method("SayHello", false, false)]);
    let request = request(vec![file("hello.v1", vec![greeter])], None);
    assert_eq!(generator().handle_module_request(&hello_module(), &request), None);
}

#[test]
fn source_that_has_no_tokens_is_written_as_it_is() {
    assert_eq!(rendered_or_source("fn f ( {".to_string(), None), "fn f ( {");
    assert_eq!(
        rendered_or_source("fn f(){}".to_string(), Some("fn f () { }".to_string())),
        "fn f () { }"
    );
    let broken = AxumConnectGenerator::new(vec![(".".to_string(), "(((".to_string())]);
    let greeter = service("Greeter", vec![method("Watch", false, true)]);
    let request = request(vec![file("hello.v1", vec![greeter])], Some("hello.v1.rs"));
    let files = broken.handle_module_request(&hello_module(), &request).unwrap();
    assert!(files[1].content.starts_with("// @generated\npub struct Greeter;\n"));
    assert!(files[1].content.ends_with("    }\n}\n}\n// @@protoc_insertion_point(module)\n"));
    assert!(files[1].content.contains("RpcHandlerStream<(((::hello::v1::HelloRequest, (((::google::protobuf::Empty, T, S>"));
}

#[test]
fn generate_goes_through_the_requests_in_order() {
    let first = ModuleRequest {
        proto_package_name: "a".to_string(),
        module: Module::from_protobuf_package_name("a"),
        output_dir: "".to_string(),
        output_filename: Some("a.rs".to_string()),
        files: vec![file("a", vec![service("One", vec![method("Ping", false, true)])])],
    };
    let skipped = ModuleRequest {
        proto_package_name: "b".to_string(),
        module: Module::from_protobuf_package_name("b"),
        output_dir: "".to_string(),
        output_filename: Some("b.rs".to_string()),
        files: vec![file("b", vec![service("None", vec![method("Up", true, false)])])],
    };
    let last = ModuleRequest {
        proto_package_name: "c.d".to_string(),
        module: Module::from_protobuf_package_name("c.d"),
        output_dir: "c/d/".to_string(),
        output_filename: Some("c.d.rs".to_string()),
        files: vec![file("c.d", vec![service("Two", vec![method("Ping", false, false)])])],
    };
    let set = ModuleRequestSet::new(vec![first, skipped, last]);
    assert!(set.is_well_formed());
    let files = generator().generate(&set).unwrap();
    let names: Vec<&str> = files.iter().map(|file| file.name.as_str()).collect();
    assert_eq!(names, vec!["a.rs", "a.axum.connect.rs", "c/d/c.d.rs", "c/d/c.d.axum.connect.rs"]);
    for file in &files {
        if file.insertion_point.is_none() {
            assert!(file.content.starts_with("// @generated\n"));
            assert!(file.content.ends_with("\n// @@protoc_insertion_point(module)\n"));
        }
    }
    assert_eq!(generator().generate(&set).unwrap(), files);
}

#[test]
fn method_name_must_be_one_identifier() {
    assert!(method("SayHello", false, false).is_well_formed());
    assert!(!method("", false, false).is_well_formed());
    assert!(!method("a.b", false, false).is_well_formed());
    let bad = service("S", vec![method("ok", false, false), method("a.b", true, false)]);
    assert!(!bad.is_well_formed());
    assert!(!file("p", vec![bad.clone()]).is_well_formed());
    assert!(!request(vec![file("p", vec![bad.clone()])], None).is_well_formed());
    assert!(!ModuleRequestSet::new(vec![request(vec![file("p", vec![bad])], None)]).is_well_formed());
    assert!(ModuleRequestSet::new(vec![]).is_well_formed());
}
