use xfyun_rtasr::signing::session_url_at;
use xfyun_rtasr::{build_session_url, XfyunCredentials, DEFAULT_ENDPOINT, DEFAULT_LANG};

fn credentials(app_id: &str, api_key: &str, endpoint: &str) -> XfyunCredentials {
    XfyunCredentials {
        app_id: app_id.to_string(),
        api_key: api_key.to_string(),
        endpoint: endpoint.to_string(),
    }
}

#[test]
fn build_session_url_contains_required_params() {
    let creds = XfyunCredentials {
        app_id: "test123".to_string(),
        api_key: "key456".to_string(),
        endpoint: "wss://rtasr.xfyun.cn/v1/ws".to_string(),
    };
    let url = build_session_url(&creds).unwrap();
    assert!(url.starts_with("wss://rtasr.xfyun.cn/v1/ws?"));
    assert!(url.contains("appid=test123"));
    assert!(url.contains("signa="));
    assert!(url.contains("lang=cn"));
    assert!(url.contains("ts="));
}

#[test]
fn build_session_url_uses_default_endpoint_when_empty() {
    let creds = XfyunCredentials {
        app_id: "test".to_string(),
        api_key: "key".to_string(),
        endpoint: "".to_string(),
    };
    let url = build_session_url(&creds).unwrap();
    assert!(url.starts_with("wss://rtasr.xfyun.cn/v1/ws?"));
}

#[test]
fn defaults() {
    assert_eq!(DEFAULT_ENDPOINT, "wss://rtasr.xfyun.cn/v1/ws");
    assert_eq!(DEFAULT_LANG, "cn");
}

#[test]
fn known_signature() {
    let creds = credentials("595f23df", "d9f4aa7ea6d94faca62cd88a28fd5234", "");
    assert_eq!(
        session_url_at(&creds, 1512041814),
        "wss://rtasr.xfyun.cn/v1/ws?appid=595f23df&ts=1512041814&signa=IrrzsJeOFk1NGfJHW6SkHUoN9CU%3D&lang=cn"
    );
}

#[test]
fn parameters_are_percent_encoded_and_appended() {
    let creds = credentials("a b/é", "k", "wss://host/ws?x=1");
    assert_eq!(
        session_url_at(&creds, 0),
        "wss://host/ws?x=1&appid=a%20b%2F%C3%A9&ts=0&signa=paZeSC%2B5FvzMdYoLludnivFfwsU%3D&lang=cn"
    );
}

#[test]
fn long_key_and_largest_time() {
    let key = "k".repeat(100);
    let creds = credentials("测试", &key, "wss://host/ws");
    assert_eq!(
        session_url_at(&creds, u64::MAX),
        "wss://host/ws?appid=%E6%B5%8B%E8%AF%95&ts=18446744073709551615&signa=zftP8JaswPnGwL%2F0C1R8TsB8I3M%3D&lang=cn"
    );
}

#[test]
fn white_space_around_credentials_is_ignored() {
    let bare = credentials("595f23df", "secret", "wss://host/ws");
    let padded = credentials("\u{3000} 595f23df\t\r\n", "\u{a0}secret\u{2029}", "\n wss://host/ws ");
    assert_eq!(session_url_at(&padded, 7), session_url_at(&bare, 7));
    let blank = credentials("595f23df", "secret", " \u{1680}\u{85}\u{205f} ");
    assert!(session_url_at(&blank, 7).starts_with("wss://rtasr.xfyun.cn/v1/ws?appid="));
}

#[test]
fn zero_width_space_is_no_white_space() {
    let creds = credentials("\u{200b}x", "secret", "wss://host/ws");
    assert!(session_url_at(&creds, 7).contains("appid=%E2%80%8Bx&"));
}

#[test]
fn parameters_hold_no_separator() {
    let creds = credentials("a&b=c?d#e%f", "key", "wss://host/ws");
    let url = session_url_at(&creds, 12);
    assert!(url.starts_with("wss://host/ws?appid=a%26b%3Dc%3Fd%23e%25f&ts=12&signa="));
    assert_eq!(url.matches('&').count(), 3);
    assert_eq!(url.matches('=').count(), 4);
}

#[test]
fn time_of_the_session_is_now() {
    let creds = credentials("app", "key", "");
    let seconds = || {
        std::time::SystemTime::now()
            .duration_since(std::time::UNIX_EPOCH)
            .unwrap()
            .as_secs()
    };
    let before = seconds();
    let url = build_session_url(&creds).unwrap();
    let after = seconds();
    assert!((before..=after).any(|ts| url == session_url_at(&creds, ts)));
}
