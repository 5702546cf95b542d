use retrofit::signature::{Declaration, Param, Pattern};
use retrofit::synth::{api, decide_admission, get_api, post_api, stub_authorization, Admission, Artifacts};
use retrofit::wire::{field_values, parse_query_string, query_target_of, Field};
use std::sync::Mutex;

fn param(name: &str, ty: &str) -> Param {
    Param::Typed(Pattern::Ident(name.to_string()), ty.to_string())
}

fn decl(name: &str, params: Vec<Param>, output: &str) -> Declaration {
    Declaration { name: name.to_string(), params, output: Some(output.to_string()) }
}

/// What a client stub sends for a query-style call: the request target,
/// with each argument already encoded by the codec.
fn query_request(a: &Artifacts, encoded: Vec<String>) -> String {
    let fields: Vec<Field> = a
        .signature
        .params
        .iter()
        .zip(encoded)
        .map(|(p, v)| Field { name: p.name.clone(), value: v })
        .collect();
    query_target_of(&a.signature.name, &fields)
}

/// What a handler decodes from a query-style request target: the encoded
/// argument of each wire parameter, in order.
fn query_arguments(a: &Artifacts, target: &str) -> Vec<String> {
    let query = target.split_once('?').map(|(_, q)| q).unwrap_or("");
    let fields = parse_query_string(query).unwrap();
    let names: Vec<String> = a.signature.params.iter().map(|p| p.name.clone()).collect();
    field_values(&fields, &names).unwrap()
}

/// A body-style request: one document with a field per wire parameter.
fn body_request(a: &Artifacts, values: Vec<serde_json::Value>) -> String {
    let mut doc = serde_json::Map::new();
    for (p, v) in a.signature.params.iter().zip(values) {
        doc.insert(p.name.clone(), v);
    }
    serde_json::Value::Object(doc).to_string()
}

fn body_arguments(a: &Artifacts, body: &str) -> Vec<serde_json::Value> {
    let doc: serde_json::Value = serde_json::from_str(body).unwrap();
    a.signature.params.iter().map(|p| doc[p.name.as_str()].clone()).collect()
}

fn plus(num1: i32, num2: i32) -> i32 {
    num1 + num2
}

fn sum(nums: Vec<i32>) -> i32 {
    nums.iter().sum()
}

fn greet_ref(name: &String) -> String {
    format!("Hello {}", name)
}

fn greet_state(name: String, state: &Mutex<String>) -> String {
    let mut state = state.lock().unwrap();
    let greeting = format!("Hello {}, I'm here with {}", name, state);
    *state = name;
    greeting
}

fn plus_decl() -> Declaration {
    decl("plus", vec![param("num1", "i32"), param("num2", "i32")], "i32")
}

#[test]
fn plus_round_trips_over_query_fields() {
    let a = get_api(&plus_decl(), None).ok().unwrap();
    let target = query_request(&a, vec![serde_json::to_string(&10).unwrap(), serde_json::to_string(&100).unwrap()]);
    assert_eq!(target, "/plus?num1=10&num2=100");
    let secret = a.guard.as_ref().unwrap().secret.clone();
    assert_eq!(decide_admission(&a, Some(&secret)), Admission::Invoke);
    let args = query_arguments(&a, &target);
    let reply = serde_json::to_string(&plus(
        serde_json::from_str(&args[0]).unwrap(),
        serde_json::from_str(&args[1]).unwrap(),
    ))
    .unwrap();
    let result: i32 = serde_json::from_str(&reply).unwrap();
    assert_eq!(result, plus(10, 100));
    assert_eq!(result, 110);
}

#[test]
fn plus_round_trips_over_the_body() {
    let a = post_api(&plus_decl(), None).ok().unwrap();
    let body = body_request(&a, vec![serde_json::Value::from(10), serde_json::Value::from(100)]);
    let args = body_arguments(&a, &body);
    let result = plus(args[0].as_i64().unwrap() as i32, args[1].as_i64().unwrap() as i32);
    assert_eq!(result, 110);
}

#[test]
fn sum_round_trips_over_the_body() {
    let a = post_api(&decl("sum", vec![param("nums", "Vec<i32>")], "i32"), None).ok().unwrap();
    let inputs = vec![10, 123, 4354];
    let body = body_request(&a, vec![serde_json::to_value(&inputs).unwrap()]);
    let args = body_arguments(&a, &body);
    let nums: Vec<i32> = serde_json::from_value(args[0].clone()).unwrap();
    assert_eq!(sum(nums), sum(inputs));
    assert_eq!(sum(vec![10, 123, 4354]), 4487);
}

#[test]
fn greet_by_reference_round_trips_over_query_fields() {
    let a = get_api(&decl("greet", vec![param("name", "&String")], "String"), None).ok().unwrap();
    assert!(a.signature.params[0].by_ref);
    assert_eq!(a.signature.params[0].value_type, "String");
    let name = "Sheila".to_string();
    let target = query_request(&a, vec![serde_json::to_string(&name).unwrap()]);
    let args = query_arguments(&a, &target);
    let decoded: String = serde_json::from_str(&args[0]).unwrap();
    assert_eq!(greet_ref(&decoded), greet_ref(&name));
    assert_eq!(greet_ref(&decoded), "Hello Sheila");
}

#[test]
fn state_evolves_as_with_direct_calls() {
    let d = decl("greet", vec![param("name", "String"), param("state", "&Mutex<String>")], "String");
    let a = api(&d, Some("Mutex<String>".to_string())).ok().unwrap();
    assert_eq!(a.signature.params.len(), 1);
    let state = Mutex::new("Robert".to_string());
    let mut replies = Vec::new();
    for who in ["Joe", "Frank"] {
        let body = body_request(&a, vec![serde_json::Value::from(who)]);
        let args = body_arguments(&a, &body);
        replies.push(greet_state(args[0].as_str().unwrap().to_string(), &state));
    }
    assert_eq!(replies[0], "Hello Joe, I'm here with Robert");
    assert_eq!(replies[1], "Hello Frank, I'm here with Joe");
}

#[test]
fn secured_routes_refuse_requests_without_the_secret() {
    let a = get_api(&plus_decl(), None).ok().unwrap();
    assert_eq!(decide_admission(&a, None), Admission::Forbidden);
    assert_eq!(decide_admission(&a, Some("Bearer 0000000000")), Admission::Forbidden);
    let other = post_api(&decl("sum", vec![param("nums", "Vec<i32>")], "i32"), None).ok().unwrap();
    let wrong = other.guard.as_ref().unwrap().secret.clone();
    assert_eq!(decide_admission(&a, Some(&wrong)), Admission::Forbidden);
    let right = a.guard.as_ref().unwrap().secret.clone();
    assert_eq!(decide_admission(&a, Some(&right)), Admission::Invoke);
    let open = api(&plus_decl(), None).ok().unwrap();
    assert_eq!(decide_admission(&open, None), Admission::Invoke);
}

#[test]
fn stub_header_is_admitted() {
    let a = get_api(&plus_decl(), None).ok().unwrap();
    let header = stub_authorization(&a).unwrap();
    assert_eq!(header, a.guard.as_ref().unwrap().secret);
    assert_eq!(decide_admission(&a, Some(&header)), Admission::Invoke);
    let open = api(&plus_decl(), None).ok().unwrap();
    assert_eq!(stub_authorization(&open), None);
}
