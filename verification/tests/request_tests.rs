use protoc_gen_axum_connect::module::Module;
use protoc_gen_axum_connect::request::{GeneratedFile, ModuleRequest, ModuleRequestSet};

fn request(package: &str, output_dir: &str, output_filename: Option<&str>) -> ModuleRequest {
    ModuleRequest {
        proto_package_name: package.to_string(),
        module: Module::from_protobuf_package_name(package),
        output_dir: output_dir.to_string(),
        output_filename: output_filename.map(|name| name.to_string()),
        files: vec![],
    }
}

#[test]
fn output_filepath_joins_directory_and_name() {
    assert_eq!(
        request("a.b", "a/b/", Some("a.b.rs")).output_filepath(),
        Some("a/b/a.b.rs".to_string())
    );
    assert_eq!(request("a.b", "", Some("a.b.rs")).output_filepath(), Some("a.b.rs".to_string()));
    assert_eq!(request("a.b", "a/b/", None).output_filepath(), None);
}

#[test]
fn write_to_file_creates_whole_file() {
    let file = request("a", "a/", Some("a.rs")).write_to_file("content".to_string());
    assert_eq!(
        file,
        Some(GeneratedFile {
            name: "a/a.rs".to_string(),
            content: "content".to_string(),
            insertion_point: None,
        })
    );
    assert_eq!(request("a", "a/", None).write_to_file("content".to_string()), None);
}

#[test]
fn append_to_file_targets_the_module_insertion_point() {
    let file = request("a", "a/", Some("a.rs")).append_to_file("more".to_string());
    assert_eq!(
        file,
        Some(GeneratedFile {
            name: "a/a.rs".to_string(),
            content: "more".to_string(),
            insertion_point: Some("module".to_string()),
        })
    );
}

#[test]
fn append_to_file_never_creates_an_unrequested_file() {
    assert_eq!(request("a", "a/", None).append_to_file("more".to_string()), None);
}

#[test]
fn for_module_finds_the_first_request() {
    let set = ModuleRequestSet::new(vec![
        request("a", "a/", Some("a.rs")),
        request("b.c", "b/c/", None),
        request("a", "other/", Some("late.rs")),
    ]);
    let found = set.for_module(&Module::from_protobuf_package_name("a")).unwrap();
    assert_eq!(found.output_dir, "a/");
    let other = set.for_module(&Module::from_protobuf_package_name(".b.c")).unwrap();
    assert_eq!(other.proto_package_name, "b.c");
    assert!(set.for_module(&Module::from_protobuf_package_name("b")).is_none());
    assert!(ModuleRequestSet::new(vec![]).for_module(&Module::from_parts(vec![])).is_none());
}

#[test]
fn route_filepath_is_named_after_the_package() {
    assert_eq!(request("a.b", "a/b/", Some("a.b.rs")).route_output_filepath(), "a/b/a.b.axum.connect.rs");
    assert_eq!(request("", "", None).route_output_filepath(), ".axum.connect.rs");
}

#[test]
fn requests_for_different_modules_and_paths_keep_apart() {
    let set = ModuleRequestSet::new(vec![
        request("a", "a/", Some("a.rs")),
        request("a.b", "a/b/", Some("a.b.rs")),
        request("c", "c/", None),
        request("d", "d/", None),
    ]);
    assert!(set.is_distinct());
    assert!(set.is_bindable());
    assert!(set.is_well_formed());
    assert!(ModuleRequestSet::new(vec![]).is_distinct());
}

#[test]
fn two_requests_for_one_module_clash() {
    let first = request("a", "a/", Some("a.rs"));
    let second = request("a", "elsewhere/", Some("other.rs"));
    assert!(first.is_clashing_with(&second));
    let set = ModuleRequestSet::new(vec![first, request("b", "b/", None), second]);
    assert!(!set.is_distinct());
    assert!(set.is_bindable());
    assert!(!set.is_well_formed());
}

#[test]
fn two_main_files_of_one_path_clash() {
    let first = request("a", "out/", Some("main.rs"));
    let second = request("b", "out/", Some("main.rs"));
    assert!(first.is_clashing_with(&second));
    assert!(second.is_clashing_with(&first));
    assert!(!ModuleRequestSet::new(vec![first, second]).is_distinct());
    let unasked = request("a", "out/", None);
    assert!(!unasked.is_clashing_with(&request("b", "other/", None)));
}

#[test]
fn two_route_files_of_one_path_clash() {
    let first = request("a", "", Some("a.rs"));
    let mut second = request("b", "", Some("b.rs"));
    second.proto_package_name = "a".to_string();
    assert!(first.is_clashing_with(&second));
    assert!(!ModuleRequestSet::new(vec![first, second]).is_distinct());
}

#[test]
fn main_file_with_the_path_of_a_route_file_clashes() {
    let routed = request("pkg", "", Some("pkg.rs"));
    let named_alike = request("pkg.axum.connect", "", Some("pkg.axum.connect.rs"));
    assert!(routed.is_clashing_with(&named_alike));
    assert!(named_alike.is_clashing_with(&routed));
    assert!(!ModuleRequestSet::new(vec![named_alike, routed]).is_distinct());
}

#[test]
fn main_file_with_the_path_of_its_own_route_file_is_refused() {
    let odd = request("pkg", "", Some("pkg.axum.connect.rs"));
    assert!(odd.is_overwriting_itself());
    assert!(!ModuleRequestSet::new(vec![odd]).is_distinct());
    assert!(!request("pkg", "", Some("pkg.rs")).is_overwriting_itself());
    assert!(!request("pkg", "", None).is_overwriting_itself());
}
