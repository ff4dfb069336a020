use iggy_core::error::Error;
use iggy_core::http_plan::client_endpoint;
use iggy_core::http_plan::u32_decimal;
use iggy_core::http_plan::{
    build_cors_plan, classify_origins, client_lookup_result, parse_method, CorsConfig, HttpMethod,
    OriginPolicy,
};

#[test]
fn methods_parse_case_insensitively() {
    assert_eq!(parse_method(b"GET"), Some(HttpMethod::Get));
    assert_eq!(parse_method(b"get"), Some(HttpMethod::Get));
    assert_eq!(parse_method(b"pOsT"), Some(HttpMethod::Post));
    assert_eq!(parse_method(b"PUT"), Some(HttpMethod::Put));
    assert_eq!(parse_method(b"delete"), Some(HttpMethod::Delete));
    assert_eq!(parse_method(b"head"), Some(HttpMethod::Head));
    assert_eq!(parse_method(b"options"), Some(HttpMethod::Options));
    assert_eq!(parse_method(b"connect"), Some(HttpMethod::Connect));
    assert_eq!(parse_method(b"patch"), Some(HttpMethod::Patch));
    assert_eq!(parse_method(b"trace"), Some(HttpMethod::Trace));
    assert_eq!(parse_method(b"FETCH"), None);
    assert_eq!(parse_method(b""), None);
}

#[test]
fn origin_classification() {
    assert_eq!(classify_origins(&vec![]), OriginPolicy::Default);
    assert_eq!(classify_origins(&vec![b"*".to_vec()]), OriginPolicy::Any);
    assert_eq!(
        classify_origins(&vec![b"https://a.example".to_vec(), b"*".to_vec()]),
        OriginPolicy::List
    );
}

#[test]
fn cors_plan_follows_configuration() {
    let config = CorsConfig {
        enabled: true,
        allowed_methods: vec![b"get".to_vec(), b"POST".to_vec()],
        allowed_origins: vec![b"*".to_vec()],
        allow_credentials: true,
        allow_private_network: false,
    };
    let plan = build_cors_plan(&config).unwrap();
    assert_eq!(plan.methods, vec![HttpMethod::Get, HttpMethod::Post]);
    assert_eq!(plan.origin, OriginPolicy::Any);
    assert!(plan.allow_credentials);
    assert!(!plan.allow_private_network);
}

#[test]
fn cors_plan_rejects_unknown_method() {
    let config = CorsConfig {
        enabled: true,
        allowed_methods: vec![b"get".to_vec(), b"teapot".to_vec()],
        allowed_origins: vec![],
        allow_credentials: false,
        allow_private_network: false,
    };
    assert!(matches!(build_cors_plan(&config), Err(Error::InvalidArgument)));
}

#[test]
fn client_lookup_maps_not_found_to_none() {
    assert_eq!(client_lookup_result::<u32>(Ok(5)), Ok(Some(5)));
    assert_eq!(client_lookup_result::<u32>(Err(Error::NotFound)), Ok(None));
    assert_eq!(
        client_lookup_result::<u32>(Err(Error::Timeout)),
        Err(Error::Timeout)
    );
}

#[test]
fn decimal_rendering() {
    assert_eq!(u32_decimal(0), b"0".to_vec());
    assert_eq!(u32_decimal(7), b"7".to_vec());
    assert_eq!(u32_decimal(10), b"10".to_vec());
    assert_eq!(u32_decimal(4_294_967_295), b"4294967295".to_vec());
    assert_eq!(client_endpoint(42), b"/clients/42".to_vec());
}

#[test]
fn error_codes_are_distinct_and_nonzero() {
    let all = [
        Error::Unauthenticated,
        Error::Unauthorized,
        Error::NotFound,
        Error::AlreadyExists,
        Error::InvalidArgument,
        Error::OffsetOutOfRange,
        Error::SegmentClosed,
        Error::StorageFull,
        Error::IoError,
        Error::CorruptedData,
        Error::Backpressured,
        Error::FeatureUnavailable,
        Error::Timeout,
        Error::Cancelled,
    ];
    for (i, e) in all.iter().enumerate() {
        assert_eq!(e.as_code(), (i + 1) as u32);
    }
}
