use gemini_web2api::config::{account_prefix, config_candidates, find_config, Config};
use gemini_web2api::json::parse_json;

#[test]
fn config_defaults() {
    let c = Config::default();
    assert_eq!(c.port, 8081);
    assert_eq!(c.host, "0.0.0.0");
    assert_eq!(c.retry_attempts, 3);
    assert_eq!(c.retry_delay_sec, 2);
    assert_eq!(c.request_timeout_sec, 180);
    assert_eq!(c.gemini_bl, "boq_assistant-bard-web-server_20260525.09_p0");
    assert!(c.auth_user.is_none());
    assert!(c.xsrf_token.is_none());
    assert_eq!(c.default_model, "gemini-3.5-flash");
    assert!(c.log_requests);
    assert!(c.cookie_file.is_none());
    assert!(c.proxy.is_none());
    assert!(c.api_keys.is_empty());
}

fn with_auth(text: &str) -> Config {
    let mut c = Config::default();
    c.auth_user = Some(parse_json(text).unwrap());
    c
}

#[test]
fn auth_user_str_cases() {
    assert_eq!(Config::default().auth_user_str(), None);
    assert_eq!(with_auth("null").auth_user_str(), None);
    assert_eq!(with_auth("\"\"").auth_user_str(), None);
    assert_eq!(with_auth("\"2\"").auth_user_str(), Some("2".to_string()));
    assert_eq!(with_auth("3").auth_user_str(), Some("3".to_string()));
    assert_eq!(with_auth("true").auth_user_str(), Some("true".to_string()));
}

#[test]
fn account_prefix_cases() {
    assert_eq!(account_prefix(&Config::default()), "");
    assert_eq!(account_prefix(&with_auth("1")), "/u/1");
    assert_eq!(account_prefix(&with_auth("\"0\"")), "/u/0");
}

#[test]
fn config_candidates_with_and_without_home() {
    assert_eq!(config_candidates(None), vec!["./config.json".to_string()]);
    assert_eq!(
        config_candidates(Some("/home/ann")),
        vec!["./config.json".to_string(), "/home/ann/.config/gemini-web2api/config.json".to_string()]
    );
}

#[test]
fn find_config_takes_first_existing() {
    let c = vec![("./config.json".to_string(), false), ("/h/.config/gemini-web2api/config.json".to_string(), true)];
    assert_eq!(find_config(&c), Some("/h/.config/gemini-web2api/config.json".to_string()));
    let c = vec![("./config.json".to_string(), true), ("/h/x".to_string(), true)];
    assert_eq!(find_config(&c), Some("./config.json".to_string()));
    let c = vec![("./config.json".to_string(), false)];
    assert_eq!(find_config(&c), None);
}
