use pingap::otel::{get_service_name, TracerService};

#[test]
fn tracer_parses_endpoint_settings() {
    let t = TracerService::new(
        "web",
        "http://127.0.0.1:4317?timeout=10s&max_attributes=5&max_events=64&jaeger",
    );
    assert_eq!(t.name, "web");
    assert_eq!(t.options.timeout_secs, 10);
    assert_eq!(t.options.max_attributes, 5);
    assert_eq!(t.options.max_events, 64);
    assert!(t.options.support_jaeger_propagator);
    assert!(!t.options.support_baggage_propagator);
}

#[test]
fn tracer_defaults_survive_a_bad_endpoint() {
    let t = TracerService::new("web", "not a url");
    assert_eq!(t.options.timeout_secs, 3);
    assert_eq!(t.options.max_attributes, 16);
    assert_eq!(t.options.max_events, 16);
    assert!(!t.options.support_jaeger_propagator);
    assert!(!t.options.support_baggage_propagator);
}

#[test]
fn tracer_duration_units_are_understood() {
    let t = TracerService::new("web", "http://collector:4317?timeout=2m&baggage");
    assert_eq!(t.options.timeout_secs, 120);
    assert!(t.options.support_baggage_propagator);
}

#[test]
fn tracer_malformed_values_keep_defaults() {
    let t = TracerService::new("web", "http://collector:4317?timeout=soon&max_attributes=zz");
    assert_eq!(t.options.timeout_secs, 3);
    assert_eq!(t.options.max_attributes, 16);
}

#[test]
fn service_name_is_prefixed() {
    assert_eq!(get_service_name("web"), "pingap-web");
}
