use download_manager_engine::auth::{
    AuthorizationInput, ContextError, CookieInput, CredentialsInput, RequestContext, RequestContextInput,
};

const DAY_NANOS: i128 = 86_400 * 1_000_000_000;

fn cookie(name: &str, value: &str, domain: &str, path: &str, secure: bool, expires_at: Option<&str>) -> CookieInput {
    CookieInput {
        name: name.to_owned(),
        value: value.to_owned(),
        domain: domain.to_owned(),
        path: path.to_owned(),
        secure,
        expires_at: expires_at.map(str::to_owned),
    }
}

fn with_cookies(cookies: Vec<CookieInput>) -> RequestContextInput {
    RequestContextInput {
        referrer: None,
        credentials: Some(CredentialsInput { authorization: None, cookies: Some(cookies) }),
    }
}

fn utc(text: &str) -> i128 {
    time::OffsetDateTime::parse(text, &time::format_description::well_known::Rfc3339)
        .expect("timestamp")
        .unix_timestamp_nanos()
}

#[test]
fn cookie_expiry_is_rechecked_on_every_send_with_exact_utc_boundary() {
    let input = with_cookies(vec![cookie(
        "fixture",
        "synthetic",
        "example.test",
        "/",
        true,
        Some("2099-01-01T02:00:00+02:00"),
    )]);
    let target = "https://example.test/file";
    let context = RequestContext::new(target, &input).expect("valid lifetime");
    let expiry = utc("2099-01-01T00:00:00Z");
    assert!(context.headers_at(target, expiry - 1).is_ok());
    assert_eq!(context.headers_at(target, expiry).err(), Some(ContextError::Expired));
    assert_eq!(context.headers_at(target, expiry + DAY_NANOS).err(), Some(ContextError::Expired));
}

#[test]
fn cookies_are_sent_longest_path_first_only_where_they_apply() {
    let now = utc("2024-01-01T00:00:00Z");
    let input = with_cookies(vec![
        cookie("root", "1", ".example.test", "/", false, None),
        cookie("deep", "2", "example.test", "/files/", false, None),
        cookie("same", "3", "EXAMPLE.test", "/", false, None),
    ]);
    let target = "https://example.test/files/a.bin";
    let context = RequestContext::new_at(target, &input, now).expect("context");
    let headers = context.headers_at(target, now).expect("headers");
    assert_eq!(headers.cookie.as_deref(), Some("deep=2; root=1; same=3"));
    let elsewhere = context.headers_at("https://example.test/other", now).expect("headers");
    assert_eq!(elsewhere.cookie.as_deref(), Some("root=1; same=3"));
    assert_eq!(context.headers_at("https://other.test/files/a.bin", now).err(), Some(ContextError::Invalid));
}

#[test]
fn cookies_must_be_valid_and_apply_to_the_target() {
    let now = 0;
    let target = "https://example.test/files/a.bin";
    for bad in [
        cookie("", "v", "example.test", "/", false, None),
        cookie("na me", "v", "example.test", "/", false, None),
        cookie("n", "a;b", "example.test", "/", false, None),
        cookie("n", "v", "example.test", "files", false, None),
        cookie("n", "v", "", "/", false, None),
        cookie("n", "v", "other.test", "/", false, None),
        cookie("n", "v", "example.test", "/private", false, None),
        cookie("n", "v", "example.test", "/", false, Some("tomorrow")),
    ] {
        assert_eq!(RequestContext::new_at(target, &with_cookies(vec![bad]), now).err(), Some(ContextError::Invalid));
    }
    let secure = with_cookies(vec![cookie("n", "v", "example.test", "/", true, None)]);
    assert_eq!(RequestContext::new_at("http://example.test/a", &secure, now).err(), Some(ContextError::Invalid));
    let many: Vec<CookieInput> = (0..257).map(|i| cookie(&format!("c{i}"), "v", "example.test", "/", false, None)).collect();
    assert_eq!(RequestContext::new_at(target, &with_cookies(many), now).err(), Some(ContextError::Invalid));
}

#[test]
fn authorization_needs_https_and_a_known_scheme() {
    let now = 0;
    let input = |scheme: &str, value: &str| RequestContextInput {
        referrer: None,
        credentials: Some(CredentialsInput {
            authorization: Some(AuthorizationInput { scheme: scheme.to_owned(), value: value.to_owned() }),
            cookies: None,
        }),
    };
    let context = RequestContext::new_at("https://example.test/a", &input("Bearer", "token"), now).expect("context");
    let headers = context.headers_at("https://example.test/b", now).expect("headers");
    assert_eq!(headers.authorization.as_deref(), Some("Bearer token"));
    assert_eq!(headers.cookie, None);
    assert!(RequestContext::new_at("https://example.test/a", &input("Basic", "dXNlcg=="), now).is_ok());
    assert_eq!(
        RequestContext::new_at("http://example.test/a", &input("Bearer", "token"), now).err(),
        Some(ContextError::Invalid)
    );
    assert_eq!(
        RequestContext::new_at("https://example.test/a", &input("Digest", "token"), now).err(),
        Some(ContextError::Invalid)
    );
    assert_eq!(
        RequestContext::new_at("https://example.test/a", &input("Bearer", "two words"), now).err(),
        Some(ContextError::Invalid)
    );
}

#[test]
fn referrers_stay_on_the_target_origin() {
    let now = 0;
    let input = |referrer: &str| RequestContextInput { referrer: Some(referrer.to_owned()), credentials: None };
    let context = RequestContext::new_at("https://example.test/a", &input("https://example.test/page"), now).expect("context");
    assert_eq!(context.headers_at("https://example.test/a", now).expect("headers").referrer.as_deref(), Some("https://example.test/page"));
    assert_eq!(
        RequestContext::new_at("https://example.test/a", &input("https://other.test/page"), now).err(),
        Some(ContextError::Invalid)
    );
    assert_eq!(
        RequestContext::new_at("https://example.test/a", &input("https://example.test/page#top"), now).err(),
        Some(ContextError::Invalid)
    );
    assert_eq!(
        RequestContext::new_at("https://user@example.test/a", &input("https://example.test/page"), now).err(),
        Some(ContextError::Invalid)
    );
}
