use pingap::errors::{
    classify_error, new_internal_error, replace_all, u64_to_dec, ErrorKind, ErrorSource,
    ProxyError,
};

fn err(kind: ErrorKind, source: ErrorSource) -> ProxyError {
    ProxyError { kind, source, message: "boom".to_string() }
}

#[test]
fn upstream_errors_classify_to_502() {
    assert_eq!(classify_error(&err(ErrorKind::Other, ErrorSource::Upstream)), 502);
    assert_eq!(classify_error(&err(ErrorKind::ReadError, ErrorSource::Upstream)), 502);
}

#[test]
fn downstream_read_write_errors_classify_to_500() {
    assert_eq!(classify_error(&err(ErrorKind::ReadError, ErrorSource::Downstream)), 500);
    assert_eq!(classify_error(&err(ErrorKind::WriteError, ErrorSource::Downstream)), 500);
}

#[test]
fn downstream_close_classifies_to_499() {
    assert_eq!(
        classify_error(&err(ErrorKind::ConnectionClosed, ErrorSource::Downstream)),
        499
    );
}

#[test]
fn other_downstream_errors_classify_to_400() {
    assert_eq!(classify_error(&err(ErrorKind::Other, ErrorSource::Downstream)), 400);
}

#[test]
fn internal_and_unset_classify_to_500() {
    assert_eq!(classify_error(&err(ErrorKind::Other, ErrorSource::Internal)), 500);
    assert_eq!(classify_error(&err(ErrorKind::Other, ErrorSource::Unset)), 500);
}

#[test]
fn explicit_status_wins() {
    assert_eq!(
        classify_error(&err(ErrorKind::HttpStatus(418), ErrorSource::Upstream)),
        418
    );
    let e = new_internal_error(503, "full".to_string());
    assert_eq!(classify_error(&e), 503);
}

#[test]
fn replace_all_replaces_every_occurrence() {
    assert_eq!(replace_all("a{{x}}b{{x}}c", "{{x}}", "Y"), "aYbYc");
    assert_eq!(replace_all("none here", "{{x}}", "Y"), "none here");
    assert_eq!(replace_all("{{x}}", "{{x}}", ""), "");
}

#[test]
fn decimal_rendering() {
    assert_eq!(u64_to_dec(0), "0");
    assert_eq!(u64_to_dec(7), "7");
    assert_eq!(u64_to_dec(1234), "1234");
    assert_eq!(u64_to_dec(u64::MAX), "18446744073709551615");
}
