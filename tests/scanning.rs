use retrofit::route_table::{generate_rocket_routes, routes, routes_module, ModuleError};
use retrofit::scanner::scan_group;
use retrofit::token::{Style, TokenTree};

fn ident(s: &str) -> TokenTree {
    TokenTree::Ident(s.to_string())
}

fn punct(c: char) -> TokenTree {
    TokenTree::Punct(c)
}

fn group(v: Vec<TokenTree>) -> TokenTree {
    TokenTree::Group(v)
}

/// Splits source text into identifiers and punctuation, as a lexer would.
fn lex(text: &str) -> Vec<TokenTree> {
    let mut out = Vec::new();
    let mut word = String::new();
    for c in text.chars() {
        if c.is_alphanumeric() || c == '_' {
            word.push(c);
        } else {
            if !word.is_empty() {
                out.push(ident(&word));
                word.clear();
            }
            if !c.is_whitespace() {
                out.push(punct(c));
            }
        }
    }
    if !word.is_empty() {
        out.push(ident(&word));
    }
    out
}

/// `#[path(arg)] pub fn name(params) -> ret { body }`
fn declaration(path: &str, arg: Option<&str>, name: &str, params: &str, ret: &str) -> Vec<TokenTree> {
    let mut attr = lex(path);
    if let Some(a) = arg {
        attr.push(group(lex(a)));
    }
    let mut out = vec![punct('#'), group(attr), ident("pub"), ident("fn"), ident(name), group(lex(params))];
    out.extend(lex(ret));
    out.push(group(vec![ident("format"), punct('!'), group(vec![TokenTree::Literal("\"Hello\"".to_string())])]));
    out
}

const STATE: &str = "std::sync::Arc<std::sync::Mutex<String>>";

fn greet_module_body() -> Vec<TokenTree> {
    let mut body = declaration("crate::api", None, "greet", "nm: &String, num: i32", "-> String");
    body.extend(declaration("crate::api", Some(STATE), "greet2", "name: String, state: &std::sync::Arc<std::sync::Mutex<String>>", "-> String"));
    body.extend(declaration("crate::api", Some(STATE), "greet3", "name: String, state: &std::sync::Arc<std::sync::Mutex<String>>", "-> String"));
    body
}

#[test]
fn routes_of_a_group_share_one_state_type() {
    let table = routes(&greet_module_body()).ok().unwrap();
    assert_eq!(table.state, Some(STATE.to_string()));
    let paths: Vec<&str> = table.entries.iter().map(|e| e.path.as_str()).collect();
    assert_eq!(paths, vec!["/greet", "/greet2", "/greet3"]);
    let handlers: Vec<&str> = table.entries.iter().map(|e| e.handler.as_str()).collect();
    assert_eq!(handlers, vec!["greet_route", "greet2_route", "greet3_route"]);
    assert!(table.entries.iter().all(|e| e.style == Style::Body));
}

#[test]
fn routes_without_state_type() {
    let mut body = declaration("get_api", None, "plus", "num1: i32, num2: i32", "-> i32");
    body.extend(declaration("post_api", None, "sum", "nums: Vec<i32>", "-> i32"));
    let table = routes(&body).ok().unwrap();
    assert_eq!(table.state, None);
    assert_eq!(table.entries.len(), 2);
    assert_eq!(table.entries[0].style, Style::Query);
    assert_eq!(table.entries[1].style, Style::Body);
}

#[test]
fn conflicting_state_types_name_both() {
    let mut body = declaration("api", Some("Mutex<String>"), "greet", "name: String, state: &Mutex<String>", "-> String");
    body.extend(declaration("api", Some("Mutex<i32>"), "count", "state: &Mutex<i32>", "-> i32"));
    let err = routes(&body).err().unwrap();
    assert_eq!(err.first, "Mutex<String>");
    assert_eq!(err.second, "Mutex<i32>");
    assert_eq!(err.message(), "Only one type is allowed. First type: Mutex<String> Second Type: Mutex<i32>");
}

#[test]
fn nested_declarations_are_found() {
    let inner = declaration("api", None, "hello_world", "", "");
    let body = vec![ident("mod"), ident("inner"), group(inner)];
    let found = scan_group(&body).ok().unwrap();
    assert_eq!(found.routes.len(), 1);
    assert_eq!(found.routes[0].name, "hello_world");
}

#[test]
fn annotation_without_function_is_inert() {
    let body = vec![punct('#'), group(vec![ident("api")]), ident("struct"), ident("S"), punct(';')];
    let found = scan_group(&body).ok().unwrap();
    assert!(found.routes.is_empty());
    assert_eq!(found.state, None);
}

#[test]
fn unannotated_functions_are_skipped() {
    let mut body = vec![ident("fn"), ident("helper"), group(vec![]), group(vec![])];
    body.extend(declaration("api", None, "plus", "num1: i32, num2: i32", "-> i32"));
    let found = scan_group(&body).ok().unwrap();
    assert_eq!(found.routes.len(), 1);
    assert_eq!(found.routes[0].name, "plus");
}

#[test]
fn module_routes_carry_the_module_name() {
    let item = vec![ident("mod"), ident("functions"), group(greet_module_body())];
    let m = routes_module(&item).ok().unwrap();
    assert_eq!(m.module_name, "functions");
    assert_eq!(m.table.entries.len(), 3);
    assert_eq!(m.table.state, Some(STATE.to_string()));
}

#[test]
fn module_routes_reject_other_items() {
    let item = vec![ident("struct"), ident("S"), punct(';')];
    assert!(matches!(routes_module(&item), Err(ModuleError::NotAModule)));
    assert!(matches!(routes_module(&vec![ident("mod")]), Err(ModuleError::NotAModule)));
}

#[test]
fn module_routes_report_conflicts() {
    let mut body = declaration("api", Some("A"), "f", "a: &A", "");
    body.extend(declaration("api", Some("B"), "g", "b: &B", ""));
    let item = vec![ident("mod"), ident("m"), group(body)];
    match routes_module(&item) {
        Err(ModuleError::Conflict(c)) => {
            assert_eq!(c.first, "A");
            assert_eq!(c.second, "B");
        }
        _ => panic!("expected a conflict"),
    }
}

#[test]
fn rocket_handler_list() {
    let mut body = declaration("get_api", None, "plus", "num1: i32, num2: i32", "-> i32");
    body.extend(declaration("post_api", Some("Mutex<String>"), "greet", "name: String, state: &Mutex<String>", "-> String"));
    body.extend(declaration("post_api", Some("Mutex < String >"), "greet2", "state: &Mutex<String>", "-> String"));
    body.extend(declaration("api", None, "other", "", ""));
    let item = vec![ident("mod"), ident("functions"), group(body)];
    let list = generate_rocket_routes(&item).ok().unwrap();
    assert_eq!(list.module_name, "functions");
    assert_eq!(list.handlers, vec!["plus_route", "greet_route", "greet2_route"]);
    assert!(matches!(generate_rocket_routes(&vec![ident("mod"), ident("m")]), Err(ModuleError::NotAModule)));
}

#[test]
fn rocket_handler_list_reports_conflicts() {
    let mut body = declaration("get_api", Some("A"), "f", "x: i32, a: &A", "-> i32");
    body.extend(declaration("post_api", Some("B"), "g", "b: &B", "-> i32"));
    let item = vec![ident("mod"), ident("functions"), group(body)];
    match generate_rocket_routes(&item) {
        Err(ModuleError::Conflict(c)) => {
            assert_eq!(c.first, "A");
            assert_eq!(c.second, "B");
        }
        _ => panic!("expected a conflict"),
    }
}

#[test]
fn conflicts_are_found_in_nested_groups_and_across_argumentless_annotations() {
    let mut inner = declaration("api", None, "plain", "", "");
    inner.extend(declaration("api", Some("Mutex<i32>"), "count", "state: &Mutex<i32>", "-> i32"));
    let mut body = declaration("api", Some("Mutex<String>"), "greet", "name: String, state: &Mutex<String>", "-> String");
    body.push(ident("mod"));
    body.push(ident("inner"));
    body.push(group(inner));
    let err = routes(&body).err().unwrap();
    assert_eq!(err.first, "Mutex<String>");
    assert_eq!(err.second, "Mutex<i32>");
}
