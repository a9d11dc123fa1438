use protoc_gen_axum_connect::module::Module;
use protoc_gen_axum_connect::resolver::Resolver;

fn module(parts: &[&str]) -> Module {
    Module::from_parts(parts.iter().map(|part| part.to_string()).collect())
}

fn resolver(overrides: &[(&str, &str)]) -> Resolver {
    Resolver::new(
        overrides.iter().map(|(prefix, target)| (prefix.to_string(), target.to_string())).collect(),
    )
}

#[test]
fn longest_prefix_override_wins() {
    let table = resolver(&[("a.b", "X"), ("a", "Y")]);
    assert_eq!(table.resolve_ident(&module(&[]), "a.b.c.Msg"), "X::c::Msg");
}

#[test]
fn longest_prefix_wins_whatever_the_order() {
    let table = resolver(&[("a", "Y"), ("a.b", "X")]);
    assert_eq!(table.resolve_ident(&module(&[]), "a.b.c.Msg"), "X::c::Msg");
    assert_eq!(table.resolve_ident(&module(&[]), "a.c.Msg"), "Y::c::Msg");
}

// Which of two overrides with the same prefix wins is this library's choice:
// the table is read in order and a later entry must match more to win.
#[test]
fn equal_prefixes_first_in_table_wins() {
    let table = resolver(&[(".a.b", "First"), ("a.b", "Second")]);
    assert_eq!(table.resolve_ident(&module(&["x"]), ".a.b.Msg"), "First::Msg");
}

#[test]
fn override_ignores_referencing_module() {
    let table = resolver(&[(".google.protobuf", "::axum_connect::pbjson_types")]);
    let from_root = table.resolve_ident(&module(&[]), ".google.protobuf.Empty");
    let from_deep = table.resolve_ident(&module(&["a", "b", "c"]), ".google.protobuf.Empty");
    assert_eq!(from_root, "::axum_connect::pbjson_types::Empty");
    assert_eq!(from_deep, "::axum_connect::pbjson_types::Empty");
}

#[test]
fn override_of_the_type_itself_is_taken_whole() {
    let table = resolver(&[(".a.Msg", "::other::Thing"), (".a", "::a_types")]);
    assert_eq!(table.resolve_ident(&module(&["a"]), ".a.Msg"), "::other::Thing");
    assert_eq!(table.resolve_ident(&module(&["a"]), ".a.Other"), "::a_types::Other");
}

#[test]
fn override_must_match_whole_segments() {
    let table = resolver(&[(".a.b", "X")]);
    assert_eq!(table.resolve_ident(&module(&[]), ".a.bc.Msg"), "a::bc::Msg");
}

#[test]
fn root_override_applies_to_every_type() {
    let table = resolver(&[(".", "::root")]);
    assert_eq!(table.resolve_ident(&module(&["a"]), ".a.b.Msg"), "::root::a::b::Msg");
}

#[test]
fn reference_from_child_module_ascends_once() {
    let table = resolver(&[]);
    assert_eq!(table.resolve_ident(&module(&["a", "b", "c"]), ".a.b.Msg"), "super::Msg");
}

#[test]
fn reference_within_same_module_is_bare() {
    let table = resolver(&[]);
    assert_eq!(table.resolve_ident(&module(&["a", "b"]), ".a.b.Msg"), "Msg");
}

#[test]
fn reference_to_sibling_module_ascends_and_descends() {
    let table = resolver(&[]);
    assert_eq!(table.resolve_ident(&module(&["a", "b"]), ".a.c.Msg"), "super::c::Msg");
    assert_eq!(table.resolve_ident(&module(&["a", "b"]), ".x.y.Msg"), "super::super::x::y::Msg");
}

#[test]
fn reference_to_descendant_module_descends() {
    let table = resolver(&[]);
    assert_eq!(table.resolve_ident(&module(&["a"]), ".a.b.c.Msg"), "b::c::Msg");
    assert_eq!(table.resolve_ident(&module(&[]), ".a.Msg"), "a::Msg");
}

#[test]
fn reference_converts_names() {
    let table = resolver(&[]);
    assert_eq!(table.resolve_ident(&module(&[]), ".myPkg.type.hello_request"), "my_pkg::r#type::HelloRequest");
    assert_eq!(table.resolve_ident(&module(&["my_pkg"]), ".myPkg.Msg"), "Msg");
}

#[test]
fn reference_guards_self() {
    let table = resolver(&[]);
    assert_eq!(table.resolve_ident(&module(&["a"]), ".a.self"), "Self_");
}

#[test]
fn reference_without_leading_dot() {
    let table = resolver(&[]);
    assert_eq!(table.resolve_ident(&module(&["a"]), "a.b.Msg"), "b::Msg");
}

#[test]
fn reference_for_empty_name_is_the_way_up() {
    let table = resolver(&[]);
    assert_eq!(table.resolve_ident(&module(&["a", "b"]), ""), "super::super");
    assert_eq!(table.resolve_ident(&module(&[]), ""), "");
}

#[test]
fn resolution_is_repeatable() {
    let table = resolver(&[(".a", "::x")]);
    let again = resolver(&[(".a", "::x")]);
    for name in [".a.b.Msg", ".c.Msg", "Msg", ""] {
        let first = table.resolve_ident(&module(&["c", "d"]), name);
        let second = table.resolve_ident(&module(&["c", "d"]), name);
        let third = again.resolve_ident(&module(&["c", "d"]), name);
        assert_eq!(first, second);
        assert_eq!(first, third);
    }
}
