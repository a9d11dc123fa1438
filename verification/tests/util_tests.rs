use protoc_gen_axum_connect::util::{guard_reserved, segment_to_snake, to_snake, to_upper_camel};

#[test]
fn upper_camel_of_snake_name() {
    assert_eq!(to_upper_camel("hello_world"), "HelloWorld");
    assert_eq!(to_upper_camel("HelloRequest"), "HelloRequest");
    assert_eq!(to_upper_camel("greeter"), "Greeter");
    assert_eq!(to_upper_camel("XMLHttpRequest"), "XmlHttpRequest");
}

#[test]
fn upper_camel_guards_self() {
    assert_eq!(to_upper_camel("self"), "Self_");
    assert_eq!(to_upper_camel("Self"), "Self_");
    assert_eq!(to_upper_camel("selfie"), "Selfie");
}

#[test]
fn guard_appends_underscore_to_self_only() {
    assert_eq!(guard_reserved("Self".to_string()), "Self_");
    assert_eq!(guard_reserved("Selfie".to_string()), "Selfie");
    assert_eq!(guard_reserved("self".to_string()), "self");
    assert_eq!(guard_reserved("".to_string()), "");
}

#[test]
fn snake_of_camel_name() {
    assert_eq!(to_snake("SayHello"), "say_hello");
    assert_eq!(to_snake("sayHello"), "say_hello");
    assert_eq!(to_snake("already_snake"), "already_snake");
}

#[test]
fn snake_escapes_keywords() {
    assert_eq!(to_snake("type"), "r#type");
    assert_eq!(to_snake("Match"), "r#match");
    assert_eq!(to_snake("self"), "self_");
    assert_eq!(segment_to_snake("Super"), "super_");
}

#[test]
fn snake_reads_past_dots_around_one_segment() {
    assert_eq!(to_snake(".SayHello"), "say_hello");
    assert_eq!(to_snake("SayHello."), "say_hello");
}
