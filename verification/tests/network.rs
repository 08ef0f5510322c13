use download_manager_engine::persistence::{ResourceIdentity, TransferMode};
use download_manager_engine::clock::Instant;
use download_manager_engine::network::{
    ContentRange, EntityTag, FallbackReason, ProbeError, ProbeMode, ProbeStep, RangeAssignment,
    RangeValidationError, ResponseHeaders, Validators, count_body_chunk, finish_body, probe_first_response,
    redirect_target, request_failure, validate_probe_url,
    filename_from_content_disposition, filename_from_headers_or_url, if_range_value, parse_content_range,
    parse_etag, percent_decode, retry_after_at, single_header, validate_range_response, format_entity_tag,
};

#[test]
fn parses_strict_content_range() {
    assert_eq!(
        parse_content_range("bytes 10-19/100"),
        Ok(ContentRange { start: 10, end: 19, total: 100 })
    );
    for invalid in [
        "bytes */100",
        "bytes 19-10/100",
        "bytes 10-100/100",
        "bytes 10-19/*",
        "bytes 10-19/100/2",
        "items 10-19/100",
        "bytes +10-19/100",
    ] {
        assert!(parse_content_range(invalid).is_err(), "accepted {invalid}");
    }
}

#[test]
fn if_range_prefers_only_strong_entity_tags() {
    let date = "Mon, 01 Jan 2024 00:00:00 GMT".to_owned();
    let strong = Validators {
        etag: Some(parse_etag("\"strong\"").expect("strong tag")),
        last_modified: Some(date.clone()),
    };
    assert_eq!(if_range_value(&strong).as_deref(), Some("\"strong\""));

    let weak = Validators {
        etag: Some(parse_etag("W/\"weak\"").expect("weak tag")),
        last_modified: Some(date.clone()),
    };
    assert_eq!(if_range_value(&weak), Some(date));
    assert_eq!(
        if_range_value(&Validators {
            etag: Some(parse_etag("W/\"weak\"").expect("weak tag")),
            last_modified: None,
        }),
        None
    );
}

#[test]
fn parses_entity_tags_without_normalizing_identity() {
    let tag = parse_etag("\"opaque-value\"").expect("strong tag");
    assert!(!tag.is_weak());
    assert_eq!(tag.opaque(), "opaque-value");
    assert!(parse_etag("W/\"weak\"").is_ok());
    assert!(parse_etag("unquoted").is_err());
    assert!(parse_etag("\"contains space\"").is_err());
}

#[test]
fn prefers_utf8_content_disposition_filename() {
    let value = "attachment; filename=plain.bin; filename*=UTF-8''report%20final.bin";
    assert_eq!(
        filename_from_content_disposition(value).as_deref(),
        Some("report final.bin")
    );
    assert_eq!(
        filename_from_content_disposition("attachment; filename=\"semi;colon.bin\"").as_deref(),
        Some("semi;colon.bin")
    );
    assert_eq!(percent_decode("bad%2"), None);
    assert_eq!(filename_from_content_disposition("attachment; filename=\"\""), None);
    assert_eq!(
        filename_from_content_disposition("attachment; odd; filename=fallback.bin").as_deref(),
        Some("fallback.bin")
    );
}

fn headers(fields: &[(&str, &str)]) -> ResponseHeaders {
    let mut headers = ResponseHeaders::new();
    for (name, value) in fields {
        headers.append(name, value.as_bytes());
    }
    headers
}

#[test]
fn retry_after_http_date_rounds_up_instead_of_retrying_before_the_deadline() {
    let headers = headers(&[("retry-after", "Thu, 01 Jan 1970 00:00:02 GMT")]);
    for (millis, expected) in [(1000u128, 1u64), (1500, 1), (1999, 1), (2000, 0), (3000, 0)] {
        assert_eq!(
            retry_after_at(&headers, Instant::from_nanos_since_epoch(millis * 1_000_000)),
            Some(expected)
        );
    }
    let seconds = self::headers(&[("retry-after", "120")]);
    assert_eq!(retry_after_at(&seconds, Instant::from_nanos_since_epoch(0)), Some(120));
    let garbage = self::headers(&[("retry-after", "soon")]);
    assert_eq!(retry_after_at(&garbage, Instant::from_nanos_since_epoch(0)), None);
}

#[test]
fn content_disposition_header_remains_bounded() {
    let headers = headers(&[("content-disposition", "attachment; filename=fixture.bin")]);
    assert_eq!(
        filename_from_headers_or_url(&headers, "https://example.test/fallback.bin").as_deref(),
        Some("fixture.bin")
    );
    let empty = ResponseHeaders::new();
    assert_eq!(
        filename_from_headers_or_url(&empty, "https://example.test/dir/report%20v2.bin?x=1#frag").as_deref(),
        Some("report v2.bin")
    );
    assert_eq!(filename_from_headers_or_url(&empty, "https://example.test/"), None);
}

#[test]
fn singleton_headers_are_strict() {
    let duplicated = headers(&[("ETag", "\"a\""), ("etag", "\"b\"")]);
    assert_eq!(single_header(&duplicated, "etag"), Err(RangeValidationError::DuplicateHeader));
    let mut control = ResponseHeaders::new();
    control.append("etag", b"\"a\tb\"");
    assert_eq!(single_header(&control, "etag"), Err(RangeValidationError::InvalidHeader));
    let present = headers(&[("Content-Length", "12")]);
    assert_eq!(single_header(&present, "content-length"), Ok(Some("12".to_owned())));
    assert_eq!(single_header(&present, "etag"), Ok(None));
}

#[test]
fn ranged_responses_must_prove_their_assignment() {
    let assignment = RangeAssignment::new(10, 19, 100).expect("assignment");
    let good = headers(&[
        ("content-range", "bytes 10-19/100"),
        ("content-length", "10"),
        ("etag", "\"v1\""),
    ]);
    let validated = validate_range_response(206, &good, assignment, &Validators::default()).expect("valid");
    assert_eq!(validated.assignment, assignment);
    assert_eq!(validated.validators.etag.as_ref().map(|tag| tag.opaque().to_owned()), Some("v1".to_owned()));
    assert_eq!(
        validate_range_response(200, &good, assignment, &Validators::default()).map(|_| ()),
        Err(RangeValidationError::WrongStatus)
    );
    let shifted = headers(&[("content-range", "bytes 11-20/100")]);
    assert_eq!(
        validate_range_response(206, &shifted, assignment, &Validators::default()).map(|_| ()),
        Err(RangeValidationError::ContentRangeMismatch)
    );
    let other_total = headers(&[("content-range", "bytes 10-19/101")]);
    assert_eq!(
        validate_range_response(206, &other_total, assignment, &Validators::default()).map(|_| ()),
        Err(RangeValidationError::TotalMismatch)
    );
    let short = headers(&[("content-range", "bytes 10-19/100"), ("content-length", "9")]);
    assert_eq!(
        validate_range_response(206, &short, assignment, &Validators::default()).map(|_| ()),
        Err(RangeValidationError::ContentLengthMismatch)
    );
    let gzip = headers(&[("content-encoding", "gzip"), ("content-range", "bytes 10-19/100")]);
    assert_eq!(
        validate_range_response(206, &gzip, assignment, &Validators::default()).map(|_| ()),
        Err(RangeValidationError::UnexpectedContentEncoding)
    );
    let missing = headers(&[("content-length", "10")]);
    assert_eq!(
        validate_range_response(206, &missing, assignment, &Validators::default()).map(|_| ()),
        Err(RangeValidationError::MissingHeader)
    );
    let expected = Validators { etag: Some(parse_etag("\"v2\"").expect("tag")), last_modified: None };
    assert_eq!(
        validate_range_response(206, &good, assignment, &expected).map(|_| ()),
        Err(RangeValidationError::ValidatorChanged)
    );
    let untagged = headers(&[("content-range", "bytes 10-19/100")]);
    assert_eq!(
        validate_range_response(206, &untagged, assignment, &expected).map(|_| ()),
        Err(RangeValidationError::ValidatorMissing)
    );
    let bad_date = headers(&[("content-range", "bytes 10-19/100"), ("last-modified", "yesterday")]);
    assert_eq!(
        validate_range_response(206, &bad_date, assignment, &Validators::default()).map(|_| ()),
        Err(RangeValidationError::InvalidHeader)
    );
}

#[test]
fn entity_tags_format_back_to_their_header_text() {
    let weak: EntityTag = EntityTag::parse("W/\"abc\"").expect("weak");
    assert_eq!(format_entity_tag(&weak), "W/\"abc\"");
    let strong = EntityTag::parse("\"x-1\"").expect("strong");
    assert_eq!(format_entity_tag(&strong), "\"x-1\"");
    assert_eq!(EntityTag::parse(&format_entity_tag(&weak)).map(|t| t.opaque().to_owned()), Ok("abc".to_owned()));
}

#[test]
fn assignments_are_in_bounds() {
    assert_eq!(RangeAssignment::new(0, 0, 0), Err(RangeValidationError::InvalidAssignment));
    assert_eq!(RangeAssignment::new(5, 4, 10), Err(RangeValidationError::InvalidAssignment));
    assert_eq!(RangeAssignment::new(0, 10, 10), Err(RangeValidationError::InvalidAssignment));
    let a = RangeAssignment::new(3, 7, 10).expect("valid");
    assert_eq!((a.start(), a.end(), a.total(), a.len(), a.is_empty()), (3, 7, 10, 5, false));
}

#[test]
fn probe_urls_must_be_plain_web_urls() {
    assert_eq!(validate_probe_url("https://example.test/a#frag").as_deref(), Ok("https://example.test/a"));
    assert_eq!(validate_probe_url("ftp://example.test/a"), Err(ProbeError::UnsupportedScheme));
    assert_eq!(validate_probe_url("https://user@example.test/a"), Err(ProbeError::UserInfoForbidden));
    assert_eq!(validate_probe_url("https://user:pw@example.test/a"), Err(ProbeError::UserInfoForbidden));
    assert_eq!(validate_probe_url("not a url"), Err(ProbeError::InvalidUrl));
}

#[test]
fn redirects_are_bounded_and_never_downgrade() {
    let current = "https://example.test/a";
    let relative = headers(&[("location", "/b#frag")]);
    assert_eq!(redirect_target(current, 302, &relative, true, 0, false).as_deref(), Ok("https://example.test/b"));
    assert_eq!(redirect_target(current, 302, &relative, false, 0, false), Err(ProbeError::RedirectRejected));
    assert_eq!(redirect_target(current, 302, &relative, true, 10, false), Err(ProbeError::RedirectRejected));
    assert_eq!(redirect_target(current, 304, &relative, true, 0, false), Err(ProbeError::RedirectRejected));
    let downgrade = headers(&[("location", "http://example.test/b")]);
    assert_eq!(redirect_target(current, 301, &downgrade, true, 0, false), Err(ProbeError::RedirectRejected));
    let upgrade = headers(&[("location", "https://example.test/b")]);
    assert_eq!(
        redirect_target("http://example.test/a", 307, &upgrade, true, 0, false).as_deref(),
        Ok("https://example.test/b")
    );
    let credentials = headers(&[("location", "https://user@example.test/b")]);
    assert_eq!(redirect_target(current, 308, &credentials, true, 0, false), Err(ProbeError::RedirectRejected));
    assert_eq!(redirect_target(current, 302, &headers(&[]), true, 0, false), Err(ProbeError::RedirectRejected));
    let twice = headers(&[("location", "/b"), ("location", "/c")]);
    assert_eq!(
        redirect_target(current, 302, &twice, true, 0, false),
        Err(ProbeError::InvalidRange(RangeValidationError::DuplicateHeader))
    );
}

#[test]
fn session_redirects_stay_on_their_origin() {
    let current = "https://example.test/a";
    let other = headers(&[("location", "https://other.test/b")]);
    assert_eq!(redirect_target(current, 302, &other, true, 0, true), Err(ProbeError::RedirectRejected));
    assert_eq!(redirect_target(current, 302, &other, true, 0, false).as_deref(), Ok("https://other.test/b"));
    let same = headers(&[("location", "/b")]);
    assert_eq!(redirect_target(current, 302, &same, true, 0, true).as_deref(), Ok("https://example.test/b"));
}

#[test]
fn first_probe_responses_select_a_transfer_mode() {
    let now = Instant { nanos: 0 };
    let url = "https://example.test/file.bin";
    let ranged = headers(&[("content-range", "bytes 0-0/100"), ("content-length", "1"), ("etag", "\"v1\"")]);
    match probe_first_response(206, &ranged, url, false, now).expect("ranged") {
        ProbeStep::Ranged { probe, first, last } => {
            assert_eq!(probe.mode(), ProbeMode::Segmented);
            assert_eq!(probe.size(), Some(100));
            assert_eq!(probe.final_url(), url);
            assert_eq!(probe.filename(), Some("file.bin"));
            assert_eq!((first.start(), first.end()), (0, 0));
            let last = last.expect("last byte");
            assert_eq!((last.start(), last.end(), last.total()), (99, 99, 100));
        }
        _ => panic!("unexpected probe step"),
    }
    let weak = headers(&[("content-range", "bytes 0-0/1"), ("etag", "W/\"v1\"")]);
    match probe_first_response(206, &weak, url, false, now).expect("ranged") {
        ProbeStep::Ranged { probe, last, .. } => {
            assert_eq!(probe.mode(), ProbeMode::SingleStream(FallbackReason::InsufficientIdentity));
            assert!(last.is_none());
        }
        _ => panic!("unexpected probe step"),
    }
    let ignored = headers(&[("content-length", "42")]);
    match probe_first_response(200, &ignored, url, false, now).expect("plain") {
        ProbeStep::Done(probe) => {
            assert_eq!(probe.mode(), ProbeMode::SingleStream(FallbackReason::RangeIgnored));
            assert_eq!(probe.size(), Some(42));
        }
        _ => panic!("unexpected probe step"),
    }
    let empty = headers(&[("content-range", "bytes */0")]);
    match probe_first_response(416, &empty, url, false, now).expect("empty") {
        ProbeStep::Done(probe) => assert_eq!(probe.mode(), ProbeMode::Empty),
        _ => panic!("unexpected probe step"),
    }
    assert_eq!(
        probe_first_response(302, &headers(&[]), url, false, now).map(|_| ()),
        Err(ProbeError::RedirectRejected)
    );
    assert_eq!(
        probe_first_response(404, &headers(&[]), url, false, now).map(|_| ()),
        Err(ProbeError::HttpStatus { status: 404, retry_after_seconds: None })
    );
    let gzip = headers(&[("content-encoding", "gzip")]);
    assert_eq!(
        probe_first_response(200, &gzip, url, false, now).map(|_| ()),
        Err(ProbeError::InvalidRange(RangeValidationError::UnexpectedContentEncoding))
    );
}

#[test]
fn probe_bodies_have_their_exact_length() {
    assert_eq!(count_body_chunk(0, 1, 1), Ok(1));
    assert_eq!(count_body_chunk(1, 1, 1), Err(ProbeError::BodyLengthMismatch));
    assert_eq!(finish_body(1, 1), Ok(()));
    assert_eq!(finish_body(0, 1), Err(ProbeError::BodyLengthMismatch));
}

#[test]
fn a_probe_becomes_a_persistent_identity() {
    let now = Instant { nanos: 0 };
    let url = "https://example.test/file.bin";
    let ranged = headers(&[("content-range", "bytes 0-0/100"), ("content-length", "1"), ("etag", "\"v1\"")]);
    match probe_first_response(206, &ranged, url, false, now).expect("ranged") {
        ProbeStep::Ranged { probe, .. } => {
            let identity = ResourceIdentity::from_probe(&probe).expect("identity");
            assert_eq!(identity.transfer_mode(), TransferMode::Segmented);
            assert_eq!(identity.expected_size(), Some(100));
            assert_eq!(identity.final_url(), url);
            assert!(identity.validators() == probe.validators());
        }
        _ => panic!("unexpected probe step"),
    }
    let ignored = headers(&[("content-length", "42")]);
    match probe_first_response(200, &ignored, url, false, now).expect("plain") {
        ProbeStep::Done(probe) => {
            let identity = ResourceIdentity::from_probe(&probe).expect("identity");
            assert_eq!(identity.transfer_mode(), TransferMode::Single);
            assert_eq!(identity.expected_size(), Some(42));
        }
        _ => panic!("unexpected probe step"),
    }
}

#[test]
fn refused_redirects_are_reported_apart_from_other_request_failures() {
    assert_eq!(request_failure(true), ProbeError::RedirectRejected);
    assert_eq!(request_failure(false), ProbeError::Request);
}
