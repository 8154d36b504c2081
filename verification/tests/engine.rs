use cartero::codec::{encode_headers, encode_query, ValidationError};
use cartero::executor::build_request;
use cartero::extract::apply_rules;
use cartero::json::{filter_with_pointer, pretty_body};
use cartero::method::HttpMethod;
use cartero::persist::{deserialize_repository, serialize_repository};
use cartero::repository::{default_env, emtpy_string, LocalStorageRepository};
use cartero::request::RequestInput;
use cartero::rules::parse_rules;
use cartero::strmap::StrMap;
use cartero::template::expand;

fn env_of(pairs: &[(&str, &str)]) -> StrMap {
    let mut m = StrMap::new();
    for (k, v) in pairs {
        m.insert(k.to_string(), v.to_string());
    }
    m
}

#[test]
fn query_codec_joins_lines() {
    assert_eq!(encode_query("a=1\nb=2"), Ok("a=1&b=2".to_string()));
}

#[test]
fn query_codec_rejects_bad_text() {
    assert_eq!(encode_query("bad"), Err(ValidationError::QueryFormat));
}

#[test]
fn query_codec_accepts_empty() {
    assert_eq!(encode_query(""), Ok(String::new()));
}

#[test]
fn query_codec_strips_trailing_newlines() {
    assert_eq!(encode_query("a=1\nb=2\n\n"), Ok("a=1&b=2".to_string()));
}

#[test]
fn query_codec_rejects_space_in_key() {
    assert_eq!(encode_query("a b=1"), Err(ValidationError::QueryFormat));
    assert_eq!(encode_query("a==1"), Err(ValidationError::QueryFormat));
    assert_eq!(encode_query("=1"), Err(ValidationError::QueryFormat));
    assert_eq!(encode_query("a="), Err(ValidationError::QueryFormat));
}

#[test]
fn header_codec_expands_then_splits() {
    let env = env_of(&[("token", "xyz")]);
    let m = encode_headers("Authorization: Bearer {{token}}", &env).unwrap();
    let got = m.get(&"Authorization".to_string()).unwrap();
    assert_eq!(got.as_str(), "Bearer xyz");
    assert_eq!(m.len(), 1);
}

#[test]
fn header_codec_last_duplicate_wins() {
    let env = StrMap::new();
    let m = encode_headers("Accept: a\nAccept: b", &env).unwrap();
    assert_eq!(m.get(&"Accept".to_string()).unwrap().as_str(), "b");
    assert_eq!(m.len(), 1);
}

#[test]
fn header_codec_rejects_bad_line() {
    let env = StrMap::new();
    assert!(matches!(
        encode_headers("no colon here", &env),
        Err(ValidationError::HeaderFormat)
    ));
    assert!(matches!(
        encode_headers("a:b\nbroken", &env),
        Err(ValidationError::HeaderFormat)
    ));
}

#[test]
fn header_codec_empty_is_empty_map() {
    let env = StrMap::new();
    let m = encode_headers("", &env).unwrap();
    assert_eq!(m.len(), 0);
}

#[test]
fn header_codec_validates_after_expansion() {
    // The raw text has no colon; the substituted value provides one, so the
    // text is validated only after expansion.
    let env = env_of(&[("line", "X: y")]);
    let m = encode_headers("{{line}}", &env).unwrap();
    assert_eq!(m.get(&"X".to_string()).unwrap().as_str(), "y");
}

#[test]
fn template_unknown_expands_to_empty() {
    let env = StrMap::new();
    assert_eq!(expand("{{missing}}", &env), "");
    assert_eq!(expand("a{{missing}}b", &env), "ab");
}

#[test]
fn template_repeated_token() {
    let env = env_of(&[("a", "1")]);
    let once = expand("{{a}}-{{a}}", &env);
    assert_eq!(once, "1-1");
    // The expanded text holds no further tokens, so expansion is idempotent.
    assert_eq!(expand(&once, &env), once);
}

#[test]
fn template_mixed_tokens() {
    let env = env_of(&[("a", "1"), ("b-c", "2")]);
    assert_eq!(expand("x{{a}}y{{b-c}}z", &env), "x1y2z");
    assert_eq!(expand("{{", &env), "{{");
    assert_eq!(expand("{{}}", &env), "{{}}");
}

#[test]
fn rules_parser_picks_rule_lines() {
    let rules = parse_rules("userId -> /data/id\nbad line");
    assert_eq!(rules.len(), 1);
    assert_eq!(rules[0].0, "userId");
    assert_eq!(rules[0].1, "/data/id");
}

#[test]
fn rules_parser_arrow_without_spaces() {
    let rules = parse_rules("a->/x");
    assert_eq!(rules.len(), 1);
    assert_eq!(rules[0].0, "a");
    assert_eq!(rules[0].1, "/x");
}

#[test]
fn rules_parser_empty_text() {
    assert!(parse_rules("").is_empty());
    assert!(parse_rules("-> /x").is_empty());
    assert!(parse_rules("name -> x").is_empty());
}

#[test]
fn extraction_last_rule_per_name_wins() {
    let mut env = StrMap::new();
    apply_rules("x -> /a\nx -> /b", "{\"a\":1,\"b\":2}", &mut env);
    assert_eq!(env.get(&"x".to_string()).unwrap().as_str(), "2");
    let mut env2 = StrMap::new();
    apply_rules("x -> /a\nx -> /missing", "{\"a\":1,\"b\":2}", &mut env2);
    assert_eq!(env2.get(&"x".to_string()).unwrap().as_str(), "1");
}

#[test]
fn extraction_updates_env() {
    let mut env = StrMap::new();
    apply_rules(
        "userId -> /data/id\nbad line",
        "{\"data\":{\"id\":42}}",
        &mut env,
    );
    assert_eq!(env.get(&"userId".to_string()).unwrap().as_str(), "42");
    assert_eq!(env.len(), 1);
}

#[test]
fn extraction_skips_unresolved_pointer() {
    let mut env = env_of(&[("keep", "old")]);
    apply_rules("gone -> /not/there", "{\"a\":1}", &mut env);
    assert!(env.get(&"gone".to_string()).is_none());
    assert_eq!(env.get(&"keep".to_string()).unwrap().as_str(), "old");
}

#[test]
fn extraction_ignores_non_json_body() {
    let mut env = StrMap::new();
    apply_rules("a -> /x", "not json at all", &mut env);
    assert_eq!(env.len(), 0);
}

#[test]
fn extraction_stringifies_non_string_values() {
    let mut env = StrMap::new();
    apply_rules(
        "num -> /n\nobj -> /o\nflag -> /b\nnothing -> /z\ntext -> /t",
        "{\"n\":42,\"o\":{\"k\":1},\"b\":true,\"z\":null,\"t\":\"plain\"}",
        &mut env,
    );
    assert_eq!(env.get(&"num".to_string()).unwrap().as_str(), "42");
    assert_eq!(env.get(&"obj".to_string()).unwrap().as_str(), "{\"k\":1}");
    assert_eq!(env.get(&"flag".to_string()).unwrap().as_str(), "true");
    assert_eq!(env.get(&"nothing".to_string()).unwrap().as_str(), "null");
    assert_eq!(env.get(&"text".to_string()).unwrap().as_str(), "plain");
}

#[test]
fn collection_next_wraps() {
    let mut repo = LocalStorageRepository::bootstrap();
    repo.add_request();
    repo.add_request();
    assert_eq!(repo.get_request_list().len(), 3);
    repo.next_request();
    repo.next_request();
    assert_eq!(repo.get_active_request_idx(), 2);
    repo.next_request();
    assert_eq!(repo.get_active_request_idx(), 0);
}

#[test]
fn collection_previous_wraps() {
    let mut repo = LocalStorageRepository::bootstrap();
    repo.add_request();
    repo.add_request();
    assert_eq!(repo.get_active_request_idx(), 0);
    repo.previous_request();
    assert_eq!(repo.get_active_request_idx(), 2);
}

#[test]
fn deletion_of_last_request_leaves_empty_collection() {
    let mut repo = LocalStorageRepository::bootstrap();
    repo.delete_request();
    assert_eq!(repo.get_request_list().len(), 0);
    assert_eq!(repo.get_active_request_idx(), 0);
    // Reads on the empty collection return the default definition.
    assert_eq!(repo.get_method(), HttpMethod::GET);
    assert_eq!(repo.get_path(), "");
    assert_eq!(repo.get_query(), "");
}

#[test]
fn deletion_in_middle_keeps_position() {
    let mut repo = LocalStorageRepository::bootstrap();
    repo.add_request();
    repo.add_request();
    repo.next_request();
    assert_eq!(repo.get_active_request_idx(), 1);
    repo.delete_request();
    assert_eq!(repo.get_request_list().len(), 2);
    assert_eq!(repo.get_active_request_idx(), 1);
    repo.delete_request();
    assert_eq!(repo.get_active_request_idx(), 0);
}

#[test]
fn duplicate_keeps_selection_and_copies() {
    let mut repo = LocalStorageRepository::bootstrap();
    repo.push_to_path('/');
    repo.push_to_path('x');
    repo.duplicate_request();
    assert_eq!(repo.get_request_list().len(), 2);
    assert_eq!(repo.get_active_request_idx(), 0);
    assert_eq!(repo.get_request_list()[1].path, "/x");
}

#[test]
fn field_edits_reach_the_active_request() {
    let mut repo = LocalStorageRepository::bootstrap();
    repo.push_to_querystring('a');
    repo.push_to_querystring('=');
    repo.push_to_querystring('1');
    assert_eq!(repo.get_query(), "a=1");
    repo.pop_querystring();
    assert_eq!(repo.get_query(), "a=");
    repo.clear_querystring();
    assert_eq!(repo.get_query(), "");
    repo.push_to_headers('H');
    assert_eq!(repo.get_headers(), "H");
    repo.push_to_payload('{');
    assert_eq!(repo.get_payload(), "{");
    repo.push_to_server('x');
    assert_eq!(repo.get_server(), "http://localhostx");
    repo.pop_server();
    assert_eq!(repo.get_server(), "http://localhost");
}

#[test]
fn method_cycle() {
    let mut repo = LocalStorageRepository::bootstrap();
    assert_eq!(repo.get_method(), HttpMethod::GET);
    repo.set_next_method();
    assert_eq!(repo.get_method(), HttpMethod::POST);
    repo.set_next_method();
    assert_eq!(repo.get_method(), HttpMethod::PUT);
    repo.set_next_method();
    assert_eq!(repo.get_method(), HttpMethod::DELETE);
    repo.set_next_method();
    assert_eq!(repo.get_method(), HttpMethod::GET);
    repo.set_previous_method();
    assert_eq!(repo.get_method(), HttpMethod::DELETE);
    assert_eq!(HttpMethod::GET.to_string(), "GET");
}

#[test]
fn compose_builds_url_and_body() {
    let mut def = RequestInput::default();
    def.path = "/api".to_string();
    def.query = "a=1\nb=2".to_string();
    def.payload = "{}".to_string();
    def.headers = "X: {{v}}".to_string();
    let env = env_of(&[("v", "7")]);
    let c = build_request(&def, &env).unwrap();
    assert_eq!(c.url, "http://localhost/api?a=1&b=2");
    assert_eq!(c.method, HttpMethod::GET);
    assert_eq!(c.body.as_deref(), Some("{}"));
    assert_eq!(c.headers.get(&"X".to_string()).unwrap().as_str(), "7");
}

#[test]
fn compose_omits_empty_body_and_checks_query_first() {
    let def = RequestInput::default();
    let env = StrMap::new();
    let c = build_request(&def, &env).unwrap();
    assert_eq!(c.body, None);
    assert_eq!(c.url, "http://localhost?");

    let mut bad = RequestInput::default();
    bad.query = "nope".to_string();
    bad.headers = "also bad".to_string();
    assert!(matches!(build_request(&bad, &env), Err(ValidationError::QueryFormat)));

    let mut badh = RequestInput::default();
    badh.headers = "also bad".to_string();
    assert!(matches!(build_request(&badh, &env), Err(ValidationError::HeaderFormat)));
}

#[test]
fn body_filter_follows_pointer() {
    let body = "{\"data\":{\"id\":42,\"name\":\"ada\"}}";
    assert_eq!(filter_with_pointer(body, "/data/name").unwrap(), "ada");
    assert_eq!(filter_with_pointer(body, "/data/id").unwrap(), "42");
    assert_eq!(filter_with_pointer(body, "/missing").unwrap(), body);
    assert_eq!(filter_with_pointer("not json", "/x"), None);
}

#[test]
fn response_body_pretty_prints_json() {
    let pretty = pretty_body("{\"a\":1}");
    assert_eq!(pretty, "{\n  \"a\": 1\n}");
    assert_eq!(pretty_body("plain text"), "plain text");
}

#[test]
fn persistence_round_trips_populated_repository() {
    let mut repo = LocalStorageRepository::bootstrap();
    repo.env.insert("token".to_string(), "se\"cr\\et\n".to_string());
    repo.env.insert("other".to_string(), "v".to_string());
    repo.servers.add_server("https://example.test".to_string());
    repo.push_to_path('/');
    repo.push_to_path('p');
    repo.push_to_querystring('a');
    repo.push_to_querystring('=');
    repo.push_to_querystring('1');
    repo.set_next_method();
    repo.add_request();
    let text = serialize_repository(&repo);
    let back = deserialize_repository(&text).unwrap();
    assert_eq!(serialize_repository(&back), text);
    assert_eq!(back.get_request_list().len(), 2);
    assert_eq!(back.get_active_request_idx(), 0);
    assert_eq!(back.get_method(), HttpMethod::POST);
    assert_eq!(back.get_path(), "/p");
    assert_eq!(back.get_query(), "a=1");
    assert_eq!(back.get_server(), "https://example.test");
    assert_eq!(back.env.get(&"token".to_string()).unwrap().as_str(), "se\"cr\\et\n");
    assert_eq!(back.env.get(&"other".to_string()).unwrap().as_str(), "v");
}

#[test]
fn persistence_rejects_foreign_text() {
    assert!(deserialize_repository("").is_none());
    assert!(deserialize_repository("not a document").is_none());
    assert!(deserialize_repository("{\"env\":{}}").is_none());
}

#[test]
fn persistence_rejects_out_of_range_active() {
    let repo = LocalStorageRepository::bootstrap();
    let text = serialize_repository(&repo);
    // Push the request active index out of the list's range.
    let broken = text.replacen("\"active\": 0\n  }\n}", "\"active\": 7\n  }\n}", 1);
    assert_ne!(broken, text);
    assert!(deserialize_repository(&broken).is_none());
}

#[test]
fn bootstrap_document_shape() {
    let repo = LocalStorageRepository::bootstrap();
    let text = serialize_repository(&repo);
    let expected = "{\n  \"env\": {},\n  \"servers\": {\n    \"value\": [\n      \"http://localhost\"\n    ],\n    \"active\": 0\n  },\n  \"requests\": {\n    \"value\": [\n      {\n        \"method\": \"GET\",\n        \"server\": \"http://localhost\",\n        \"path\": \"\",\n        \"query\": \"\",\n        \"payload\": \"\",\n        \"headers\": \"\",\n        \"parsing_rules\": \"\"\n      }\n    ],\n    \"active\": 0\n  }\n}";
    assert_eq!(text, expected);
    // The document is itself valid JSON for outside readers.
    let reparsed: serde_json::Value = serde_json::from_str(&text).unwrap();
    assert_eq!(reparsed["servers"]["active"], 0);
    assert_eq!(reparsed["requests"]["value"][0]["method"], "GET");
}

#[test]
fn persistence_reads_schema_documents() {
    // Another whitespace layout, a missing rule-text field (defaulting to
    // empty), and standard escapes are all part of the document schema.
    let text = "{ \"env\": { \"a\": \"x\\u0041\\/y\" },\n\"servers\": { \"value\": [ \"http://h\" ], \"active\": 0 },\n\"requests\": { \"value\": [ { \"method\": \"PUT\", \"server\": \"s\", \"path\": \"/p\", \"query\": \"\", \"payload\": \"\", \"headers\": \"\" } ], \"active\": 0 } }";
    let repo = deserialize_repository(text).unwrap();
    assert_eq!(repo.env.get(&"a".to_string()).unwrap().as_str(), "xA/y");
    assert_eq!(repo.get_server(), "http://h");
    assert_eq!(repo.get_method(), HttpMethod::PUT);
    assert_eq!(repo.get_path(), "/p");
    assert_eq!(repo.get_parsing_rules(), "");
}

#[test]
fn persistence_reads_documents_from_earlier_tools() {
    // A pretty-printed document in the schema's field order, as earlier
    // tools wrote it, with its own indentation width.
    let text = "{\n    \"env\": {\n        \"token\": \"t\"\n    },\n    \"servers\": {\n        \"value\": [\n            \"http://a\",\n            \"http://b\"\n        ],\n        \"active\": 1\n    },\n    \"requests\": {\n        \"value\": [\n            {\n                \"method\": \"POST\",\n                \"server\": \"http://a\",\n                \"path\": \"/x\",\n                \"query\": \"a=1\",\n                \"payload\": \"{}\",\n                \"headers\": \"\",\n                \"parsing_rules\": \"id -> /id\"\n            }\n        ],\n        \"active\": 0\n    }\n}";
    let back = deserialize_repository(text).unwrap();
    assert_eq!(back.get_server(), "http://b");
    assert_eq!(back.get_method(), HttpMethod::POST);
    assert_eq!(back.get_query(), "a=1");
    assert_eq!(back.get_parsing_rules(), "id -> /id");
}

#[test]
fn persistence_escapes_control_characters() {
    let mut repo = LocalStorageRepository::bootstrap();
    repo.env.insert("ctl".to_string(), "a\u{1}b\u{8}c\u{c}d".to_string());
    let text = serialize_repository(&repo);
    // The document stays valid JSON even with control characters stored.
    assert!(serde_json::from_str::<serde_json::Value>(&text).is_ok());
    let back = deserialize_repository(&text).unwrap();
    assert_eq!(back.env.get(&"ctl".to_string()).unwrap().as_str(), "a\u{1}b\u{8}c\u{c}d");
}

#[test]
fn defaults_are_empty() {
    assert_eq!(emtpy_string(), "");
    let env = default_env();
    assert_eq!(env.len(), 0);
}
