use kook_onebot::config::{
    deal_path_str, default_config_text, listen_addr, parse_config, run_dir_from, ConfigError, ConfigField,
};
use kook_onebot::json::Json;
use kook_onebot::onebot_http::{
    action_from_path, check_auth, failed_call, form_params, get_param, get_params_from_uri, http_plan,
    onebot_call_json, params_json, HttpPlan,
};
use kook_onebot::onebot_http_rev::{http_targets, is_http_url, is_ws_url, reply_has_body, signature_header, ws_targets};

fn s(x: &str) -> Json {
    Json::Str(x.to_string())
}

fn obj(fields: Vec<(&str, Json)>) -> Json {
    Json::Object(fields.into_iter().map(|(k, v)| (k.to_string(), v)).collect())
}

fn render(j: &Json) -> String {
    match j {
        Json::Null => "null".to_string(),
        Json::Bool(b) => b.to_string(),
        Json::PosInt(n) => n.to_string(),
        Json::NegInt(i) => i.to_string(),
        Json::Float(f) => f.clone(),
        Json::Str(t) => format!("{:?}", t),
        Json::Array(v) => format!("[{}]", v.iter().map(render).collect::<Vec<_>>().join(",")),
        Json::Object(f) => format!(
            "{{{}}}",
            f.iter().map(|(k, v)| format!("{:?}:{}", k, render(v))).collect::<Vec<_>>().join(",")
        ),
    }
}

fn pairs(v: &[(&str, &str)]) -> Vec<(String, String)> {
    v.iter().map(|(a, b)| (a.to_string(), b.to_string())).collect()
}

fn full_config() -> Json {
    obj(vec![
        ("kook_token", s("tok")),
        ("web_host", s("localhost")),
        ("web_port", Json::PosInt(8080)),
        ("secret", s("sec")),
        ("access_token", s("acc")),
        ("reverse_uri", Json::Array(vec![s("http://a"), s("ws://b")])),
    ])
}

#[test]
fn verbatim_prefix_is_dropped() {
    assert_eq!(deal_path_str("\\\\?\\C:\\bot\\"), "C:\\bot\\");
    assert_eq!(deal_path_str("/usr/bin/"), "/usr/bin/");
    assert_eq!(deal_path_str("\\\\?"), "\\\\?");
}

#[test]
fn run_dir_ends_with_separator() {
    assert_eq!(run_dir_from("/usr/bin", '/'), "/usr/bin/");
    assert_eq!(run_dir_from("/usr/bin/", '/'), "/usr/bin/");
    assert_eq!(run_dir_from("\\\\?\\C:\\a", '\\'), "C:\\a\\");
}

#[test]
fn config_is_read() {
    let c = parse_config(&full_config()).unwrap();
    assert_eq!(c.kook_token, "tok");
    assert_eq!(c.web_host, "localhost");
    assert_eq!(c.web_port, 8080);
    assert_eq!(c.secret, "sec");
    assert_eq!(c.access_token, "acc");
    assert_eq!(c.reverse_uri, vec!["http://a".to_string(), "ws://b".to_string()]);
}

#[test]
fn config_errors() {
    assert!(matches!(parse_config(&obj(vec![])), Err(ConfigError::Missing(ConfigField::KookToken))));
    let mut c = full_config();
    if let Json::Object(f) = &mut c {
        f[2].1 = s("8080");
    }
    assert!(matches!(parse_config(&c), Err(ConfigError::WrongType(ConfigField::WebPort))));
    let mut c = full_config();
    if let Json::Object(f) = &mut c {
        f[5].1 = Json::Array(vec![Json::PosInt(1)]);
    }
    assert!(matches!(parse_config(&c), Err(ConfigError::ReverseUriNotStr)));
}

#[test]
fn default_config_lacks_secret() {
    assert_eq!(
        default_config_text(),
        "{\"web_port\":8080,\"kook_token\":\"\",\"access_token\":\"\",\"web_host\":\"127.0.0.1\",\"reverse_uri\":[]}"
    );
    let d = obj(vec![
        ("web_port", Json::PosInt(8080)),
        ("kook_token", s("")),
        ("access_token", s("")),
        ("web_host", s("127.0.0.1")),
        ("reverse_uri", Json::Array(vec![])),
    ]);
    assert!(matches!(parse_config(&d), Err(ConfigError::Missing(ConfigField::Secret))));
}

#[test]
fn listen_address() {
    assert_eq!(listen_addr("localhost", 8080), Some("127.0.0.1:8080".to_string()));
    assert_eq!(listen_addr("0.0.0.0", 5700), Some("0.0.0.0:5700".to_string()));
    assert_eq!(listen_addr("", 8080), None);
    assert_eq!(listen_addr("127.0.0.1", 0), None);
}

#[test]
fn query_parameters() {
    assert_eq!(get_params_from_uri(None), pairs(&[]));
    assert_eq!(
        get_params_from_uri(Some("a=1&b=x%20y&&c&d=%E4%BD%A0")),
        pairs(&[("a", "1"), ("b", "x y"), ("c", ""), ("d", "你")])
    );
    assert_eq!(get_params_from_uri(Some("a=1&a=2")), pairs(&[("a", "2")]));
    assert_eq!(get_params_from_uri(Some("k=a=b")), pairs(&[("k", "a=b")]));
    assert_eq!(get_params_from_uri(Some("bad=%FF&ok=1")), pairs(&[("ok", "1")]));
}

#[test]
fn form_parameters() {
    assert_eq!(form_params(b"a=1&b=hello+world&a=3"), pairs(&[("a", "3"), ("b", "hello world")]));
    assert_eq!(form_params(b""), pairs(&[]));
}

#[test]
fn parameters_as_json() {
    let ps = pairs(&[("group_id", "1"), ("message", "hi")]);
    assert_eq!(render(&params_json(&ps)), r#"{"group_id":"1","message":"hi"}"#);
    assert_eq!(get_param(&ps, "message"), Some(&"hi".to_string()));
    assert_eq!(get_param(&ps, "user_id"), None);
}

#[test]
fn access_token_checks() {
    assert!(check_auth("", None, None));
    assert!(check_auth("tok", Some("Bearer tok"), None));
    assert!(check_auth("tok", None, Some("access_token=tok")));
    assert!(check_auth("tok", Some("Bearer x"), Some("a=1&access_token=tok")));
    assert!(!check_auth("tok", Some("Bearer x"), Some("access_token=no")));
    assert!(!check_auth("tok", Some("tok"), None));
    assert!(!check_auth("tok", None, None));
}

#[test]
fn http_call_plans() {
    assert_eq!(http_plan("GET", None), HttpPlan::Query);
    assert_eq!(http_plan("POST", Some("application/json")), HttpPlan::JsonBody);
    assert_eq!(http_plan("POST", Some("application/x-www-form-urlencoded")), HttpPlan::FormBody);
    assert_eq!(http_plan("POST", None), HttpPlan::FormBody);
    assert_eq!(http_plan("POST", Some("text/plain")), HttpPlan::NotAcceptable);
    assert_eq!(http_plan("PUT", None), HttpPlan::Ignore);
}

#[test]
fn action_of_path() {
    assert_eq!(action_from_path("/send_msg"), Some("send_msg".to_string()));
    assert_eq!(action_from_path("/"), Some("".to_string()));
    assert_eq!(action_from_path(""), None);
}

#[test]
fn http_replies() {
    assert_eq!(render(&failed_call(1400)), r#"{"status":"failed","retcode":1400}"#);
    assert_eq!(
        render(&onebot_call_json("get_status", obj(vec![]))),
        r#"{"action":"get_status","params":{}}"#
    );
}

#[test]
fn hmac_signature() {
    assert_eq!(
        signature_header("Jefe", "what do ya want for nothing?"),
        Some("sha1=effcdf6ae5eb2fa2d27416d5f184df9c259a7c79".to_string())
    );
    assert_eq!(signature_header("", "body"), None);
}

#[test]
fn reverse_targets() {
    let urls = vec!["http://a".to_string(), "ws://b".to_string(), "https://c".to_string(), "x".to_string(), "wss://d".to_string()];
    assert_eq!(http_targets(&urls), vec!["http://a".to_string(), "https://c".to_string()]);
    assert_eq!(ws_targets(&urls), vec!["ws://b".to_string(), "wss://d".to_string()]);
    assert!(is_http_url("http"));
    assert!(!is_ws_url("http://w"));
}

#[test]
fn reply_body_presence() {
    assert!(reply_has_body(200, 5));
    assert!(!reply_has_body(204, 5));
    assert!(!reply_has_body(200, 0));
}
