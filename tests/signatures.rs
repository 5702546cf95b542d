use retrofit::signature::{
    analyze, is_collection_type, value_type_of, Declaration, Param, Pattern, SignatureError,
};
use retrofit::synth::{api, call_arguments, get_api, post_api, ArgSource, CallArg};
use retrofit::token::Style;

fn param(name: &str, ty: &str) -> Param {
    Param::Typed(Pattern::Ident(name.to_string()), ty.to_string())
}

fn decl(name: &str, params: Vec<Param>, output: Option<&str>) -> Declaration {
    Declaration { name: name.to_string(), params, output: output.map(|s| s.to_string()) }
}

#[test]
fn plain_parameters_travel_as_values() {
    let d = decl("plus", vec![param("num1", "i32"), param("num2", "i32")], Some("i32"));
    let sig = analyze(&d, None, Style::Query).ok().unwrap();
    assert_eq!(sig.name, "plus");
    assert_eq!(sig.params.len(), 2);
    assert_eq!(sig.params[0].name, "num1");
    assert_eq!(sig.params[0].value_type, "i32");
    assert!(!sig.params[0].by_ref);
    assert!(sig.state.is_none());
    assert_eq!(sig.output, "i32");
}

#[test]
fn reference_marker_is_stripped() {
    let d = decl("greet", vec![param("nm", "& String"), param("num", "i32")], Some("String"));
    let sig = analyze(&d, None, Style::Body).ok().unwrap();
    assert_eq!(sig.params[0].value_type, "String");
    assert!(sig.params[0].by_ref);
    assert_eq!(value_type_of("&String"), "String");
    assert_eq!(value_type_of("Vec<i32>"), "Vec<i32>");
    assert_eq!(value_type_of("& mut String"), "String");
    assert_eq!(value_type_of("& 'a str"), "str");
    assert_eq!(value_type_of("& 'a mut Vec < u8 >"), "Vec < u8 >");
    assert_eq!(value_type_of("& mutable"), "mutable");
}

#[test]
fn missing_return_type_is_unit() {
    let d = decl("hello_world", vec![], None);
    let sig = analyze(&d, None, Style::Body).ok().unwrap();
    assert_eq!(sig.output, "()");
    assert!(sig.params.is_empty());
}

#[test]
fn state_takes_the_last_parameter() {
    let d = decl(
        "greet",
        vec![param("name", "String"), param("state", "&std::sync::Arc<std::sync::Mutex<String>>")],
        Some("String"),
    );
    let state = "std::sync::Arc<std::sync::Mutex<String>>".to_string();
    let sig = analyze(&d, Some(state.clone()), Style::Body).ok().unwrap();
    assert_eq!(sig.params.len(), 1);
    assert_eq!(sig.params[0].name, "name");
    let st = sig.state.as_ref().unwrap();
    assert_eq!(st.ty, state);
    assert!(st.by_ref);
    let call = call_arguments(&sig);
    assert_eq!(
        call,
        vec![
            CallArg { source: ArgSource::Wire(0), by_ref: false },
            CallArg { source: ArgSource::State, by_ref: true },
        ]
    );
}

#[test]
fn receiver_is_rejected() {
    let d = decl("m", vec![Param::Receiver, param("a", "i32")], None);
    assert_eq!(analyze(&d, None, Style::Body).err(), Some(SignatureError::Receiver(0)));
}

#[test]
fn non_simple_pattern_is_rejected() {
    let d = decl("m", vec![param("a", "i32"), Param::Typed(Pattern::Other, "(i32, i32)".to_string())], None);
    assert_eq!(analyze(&d, None, Style::Body).err(), Some(SignatureError::NonSimplePattern(1)));
}

#[test]
fn collections_need_the_body_style() {
    let d = decl("sum", vec![param("nums", "Vec<i32>")], Some("i32"));
    assert_eq!(get_api(&d, None).err(), Some(SignatureError::CollectionArgument(0)));
    assert!(post_api(&d, None).is_ok());
    assert!(is_collection_type("std::collections::HashMap<String, i32>"));
    assert!(is_collection_type("[u8; 4]"));
    assert!(is_collection_type("VEC<u8>"));
    assert!(!is_collection_type("String"));
    assert!(!is_collection_type("i32"));
}

#[test]
fn state_without_parameter_is_rejected() {
    let d = decl("f", vec![], None);
    assert_eq!(api(&d, Some("Mutex<i32>".to_string())).err(), Some(SignatureError::MissingStateParameter));
}

#[test]
fn artifact_names() {
    let d = decl("plus", vec![param("num1", "i32"), param("num2", "i32")], Some("i32"));
    let a = get_api(&d, None).ok().unwrap();
    assert_eq!(a.style, Style::Query);
    assert_eq!(a.record_name, "plusData");
    assert_eq!(a.handler_name, "plus_route");
    assert_eq!(a.stub_name, "plus_request");
    assert_eq!(a.route_path, "/plus");
    let g = a.guard.as_ref().unwrap();
    assert_eq!(g.name, "plusSecure");
    assert_eq!(g.rejection, "plusForbidden");
    assert!(g.secret.starts_with("Bearer "));
    let open = api(&d, None).ok().unwrap();
    assert!(open.guard.is_none());
    assert_eq!(open.style, Style::Body);
}

#[test]
fn derivation_is_deterministic() {
    let d = decl("greet", vec![param("nm", "&String"), param("num", "i32")], Some("String"));
    let a = get_api(&d, None).ok().unwrap();
    let b = get_api(&d, None).ok().unwrap();
    assert_eq!(a.route_path, b.route_path);
    assert_eq!(a.route_path, "/greet");
    assert_eq!(a.guard.as_ref().unwrap().secret, b.guard.as_ref().unwrap().secret);
    let c = post_api(&d, None).ok().unwrap();
    assert_eq!(a.guard.as_ref().unwrap().secret, c.guard.as_ref().unwrap().secret);
}
