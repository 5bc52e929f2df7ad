use comfy_serve::api::{api_gate, dashboard_gate, openai_gate, OPENAPI_DOCUMENT};
use comfy_serve::auth::{
    api_key_authorized, bearer_token, dashboard_authorized, env_file_entries, login,
    new_session_token, LoginOutcome,
};
use comfy_serve::config::parse_api_keys;
use comfy_serve::{hash_password, verify_password};

#[test]
fn hashed_password_verifies() {
    let h = hash_password("hunter2");
    assert!(h.starts_with("$argon2id$"));
    assert!(verify_password("hunter2", &h));
    assert!(!verify_password("hunter3", &h));
}

#[test]
fn stored_hash_is_trimmed_before_verifying() {
    let h = hash_password("pw");
    let padded = format!("  {}\n", h);
    assert!(verify_password("pw", &padded));
}

#[test]
fn malformed_hash_rejects_every_password() {
    assert!(!verify_password("pw", "not a hash"));
    assert!(!verify_password("", ""));
}

#[test]
fn first_login_sets_the_password() {
    match login("", "secret") {
        LoginOutcome::FirstRun { hash } => {
            assert!(verify_password("secret", &hash));
            match login(&hash, "secret") {
                LoginOutcome::Accepted => {}
                _ => panic!("the new password must be accepted"),
            }
            match login(&hash, "wrong") {
                LoginOutcome::Rejected => {}
                _ => panic!("a wrong password must be rejected"),
            }
        }
        _ => panic!("an empty stored hash means first run"),
    }
}

#[test]
fn env_file_lines() {
    assert_eq!(env_file_entries("$argon2id$x"), "DASHBOARD_PASSWORD_HASH='$argon2id$x'\nAPI_KEYS=''\n");
}

#[test]
fn session_tokens_are_hyphenated_uuids() {
    let t = new_session_token();
    assert_eq!(t.len(), 36);
    for (i, c) in t.chars().enumerate() {
        if i == 8 || i == 13 || i == 18 || i == 23 {
            assert_eq!(c, '-');
        } else {
            assert!(c.is_ascii_hexdigit() && !c.is_ascii_uppercase());
        }
    }
    assert_ne!(t, new_session_token());
}

#[test]
fn bearer_prefix_is_removed_everywhere() {
    assert_eq!(bearer_token(Some("Bearer abc")), "abc");
    assert_eq!(bearer_token(Some("abc")), "abc");
    assert_eq!(bearer_token(Some("Bearer Bearer x")), "x");
    assert_eq!(bearer_token(None), "");
}

#[test]
fn session_token_opens_the_dashboard() {
    let t = new_session_token();
    let header = format!("Bearer {}", t);
    let session = Some(t.clone());
    assert!(dashboard_authorized(&bearer_token(Some(&header)), &session));
    assert!(dashboard_gate(Some(&header), &session).is_none());
    assert!(dashboard_gate(Some("Bearer other"), &session).is_some());
    let refused = dashboard_gate(None, &None).unwrap();
    assert_eq!(refused.status, 401);
    assert_eq!(refused.message, "Unauthorized");
    assert!(!dashboard_authorized("", &Some(String::new())));
}

#[test]
fn api_keys_setting_is_split_and_trimmed() {
    assert_eq!(parse_api_keys(" sk-a, ,sk-b ,,"), vec!["sk-a".to_string(), "sk-b".to_string()]);
    assert!(parse_api_keys("").is_empty());
    assert!(parse_api_keys("   ").is_empty());
    assert_eq!(parse_api_keys("sk-mysecretkey,sk-anotherkey"), vec!["sk-mysecretkey".to_string(), "sk-anotherkey".to_string()]);
}

#[test]
fn no_api_keys_leaves_endpoints_open() {
    let keys = parse_api_keys("");
    assert!(api_key_authorized(&keys, None));
    assert!(api_key_authorized(&keys, Some("Bearer anything")));
    assert!(api_gate(&keys, None).is_none());
}

#[test]
fn configured_api_keys_are_required() {
    let keys = parse_api_keys("sk-mysecretkey,sk-anotherkey");
    assert!(api_key_authorized(&keys, Some("Bearer sk-anotherkey")));
    assert!(!api_key_authorized(&keys, None));
    assert!(!api_key_authorized(&keys, Some("Bearer sk-wrong")));
    let refused = api_gate(&keys, Some("Bearer nope")).unwrap();
    assert_eq!(refused.status, 401);
    assert_eq!(refused.message, "Invalid or missing API key");
}

#[test]
fn openai_gate_checks_key_then_switch() {
    let keys = parse_api_keys("k1");
    let r = openai_gate(&keys, None, false).unwrap();
    assert_eq!(r.status, 401);
    let r = openai_gate(&keys, Some("Bearer k1"), false).unwrap();
    assert_eq!(r.status, 403);
    assert_eq!(r.message, "OpenAI compat is disabled");
    assert!(openai_gate(&keys, Some("Bearer k1"), true).is_none());
}

#[test]
fn openapi_document_is_json() {
    let v: serde_json::Value = serde_json::from_str(OPENAPI_DOCUMENT).unwrap();
    assert_eq!(v["openapi"], "3.0.0");
    assert_eq!(v["servers"][0]["url"], "/v1");
    assert!(v["paths"]["/images/edits"]["post"].is_object());
    assert_eq!(v["paths"]["/images/generations"]["post"]["requestBody"]["content"]["application/json"]["schema"]["required"][0], "prompt");
}
