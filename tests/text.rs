use rust_commandlines::kv::{kv_reply, KvCommand, KvReply};
use rust_commandlines::config::Config;
use rust_commandlines::http::{http_response, response_body, route, Route};
use rust_commandlines::query::in_list_query;
use rust_commandlines::text::{
    camelcase_lines, parse_request, reverse_chars, reversed_lines, underscore_to_camelcase,
    uppercase_lines,
};

fn strings(v: &[&str]) -> Vec<String> {
    v.iter().map(|s| s.to_string()).collect()
}

#[test]
fn config_build_takes_third_and_fourth() {
    let args = strings(&["prog", "minigrep", "needle", "file.txt"]);
    let c = Config::build(&args).unwrap();
    assert_eq!(c.query, "needle");
    assert_eq!(c.file_path, "file.txt");
}

#[test]
fn config_build_needs_four_arguments() {
    let args = strings(&["prog", "minigrep", "needle"]);
    assert_eq!(Config::build(&args).err(), Some("not enough arguments"));
    assert!(Config::build(&[]).is_err());
}

#[test]
fn camelcase_examples() {
    assert_eq!(underscore_to_camelcase("hello_world"), "helloWorld");
    assert_eq!(underscore_to_camelcase("a__b_c"), "aBC");
    assert_eq!(underscore_to_camelcase("_x"), "X");
    assert_eq!(underscore_to_camelcase("end_"), "end");
    assert_eq!(underscore_to_camelcase("n_1é_é"), "n1éé");
    assert_eq!(underscore_to_camelcase(""), "");
}

#[test]
fn parse_request_takes_target() {
    assert_eq!(parse_request("GET /hello HTTP/1.1\r\nHost: x\r\n\r\n"), "/hello");
    assert_eq!(parse_request("  GET   /  HTTP/1.1"), "/");
    assert_eq!(parse_request("GET\n/hello"), "");
    assert_eq!(parse_request(""), "");
    assert_eq!(parse_request("GET\t/a\u{3000}b"), "/a");
}

#[test]
fn routes_and_bodies() {
    assert_eq!(route("/"), Route::Root);
    assert_eq!(route("/hello"), Route::Hello);
    assert_eq!(route("/other"), Route::NotFound);
    assert_eq!(response_body(Route::Root, None), "hello world");
    assert_eq!(response_body(Route::NotFound, None), "Not Found");
    assert_eq!(response_body(Route::Hello, Some("page".to_string())), "page");
    assert_eq!(response_body(Route::Hello, None), "Error reading hello.html");
}

#[test]
fn response_carries_byte_length() {
    assert_eq!(http_response("hello world"), "HTTP/1.1 200 OK\r\nContent-Length: 11\r\n\r\nhello world");
    assert_eq!(http_response("é"), "HTTP/1.1 200 OK\r\nContent-Length: 2\r\n\r\né");
}

#[test]
fn query_lists_ids() {
    assert_eq!(in_list_query(0), "SELECT * FROM User WHERE account_id IN ()");
    assert_eq!(in_list_query(1), "SELECT * FROM User WHERE account_id IN (1)");
    assert_eq!(in_list_query(12), "SELECT * FROM User WHERE account_id IN (1, 2, 3, 4, 5, 6, 7, 8, 9, 10, 11, 12)");
    let big = in_list_query(20000);
    assert!(big.ends_with(", 19999, 20000)"));
}

#[test]
fn uppercase_and_reverse_lines() {
    let args = strings(&["abc", "straße", ""]);
    assert_eq!(uppercase_lines(&args), strings(&["ABC", "STRASSE", ""]));
    assert_eq!(reversed_lines(&args), strings(&["cba", "eßarts", ""]));
    assert_eq!(reverse_chars("héllo"), "olléh");
    assert_eq!(camelcase_lines(&strings(&["a_b", "c"])), strings(&["aB", "c"]));
}

#[test]
fn kv_replies() {
    let set = KvCommand::Store { key: "k".to_string(), value: b"v".to_vec() };
    assert_eq!(kv_reply(&set, None), Some(KvReply::Done));
    let get = KvCommand::Fetch { key: "k".to_string() };
    assert_eq!(kv_reply(&get, Some(b"v".to_vec())), Some(KvReply::Value(b"v".to_vec())));
    assert_eq!(kv_reply(&get, None), Some(KvReply::Null));
    assert_eq!(kv_reply(&KvCommand::Unsupported, None), None);
}
