use clockpin::version::{desired_tag, key_less, normalize, relax_cap, version_key};

#[test]
fn normalizes_names() {
    assert_eq!(normalize("Boto3"), "boto3");
    assert_eq!(normalize("boto3.stubs"), "boto3-stubs");
    assert_eq!(normalize("types__requests"), "types-requests");
    assert_eq!(normalize("A.B-c_D"), "a-b-c-d");
}

#[test]
fn orders_versions_numerically() {
    assert!(version_key("1.34.0") < version_key("1.43.36"));
    assert!(version_key("2.7.0") > version_key("1.26.0"));
    // non-numeric suffix segments do not panic and sort low
    assert!(version_key("2.33.0.20260518") > version_key("2.31.0"));
}

#[test]
fn desired_tag_preserves_granularity() {
    assert_eq!(desired_tag("v6", "v7.0.0"), "v7"); // major-only stays major-only
    assert_eq!(desired_tag("v3", "v3.1.2"), "v3");
    assert_eq!(desired_tag("v1.2.3", "v1.4.0"), "v1.4.0"); // full pin takes full
    assert_eq!(desired_tag("6", "7.0.0"), "7"); // no-v major pin
}

#[test]
fn relax_cap_raises_upper_bound() {
    assert_eq!(relax_cap(",<5.0.0", 6).as_deref(), Some(",<6.0.0"));
    assert_eq!(relax_cap("", 6), None); // no cap present
}

#[test]
fn version_key_pieces() {
    assert_eq!(version_key("1.2.3"), vec![1, 2, 3]);
    assert_eq!(version_key("2.0.0rc1"), vec![2, 0, 0]);
    assert_eq!(version_key("1!2+local-x"), vec![1, 2, 0, 0]);
    assert_eq!(version_key(""), vec![0]);
    assert_eq!(version_key("99999999999999999999.1"), vec![0, 1]);
}

#[test]
fn desired_tag_edge_cases() {
    assert_eq!(desired_tag("v6", "7.1"), "v7"); // a v-pin keeps its v
    assert_eq!(desired_tag("6", "v7.1"), "v7"); // upstream's v wins too
    assert_eq!(desired_tag("v6", "latest"), "latest"); // no leading major upstream
    assert_eq!(desired_tag("main", "v7.0.0"), "v7.0.0");
}

#[test]
fn relax_cap_keeps_the_rest() {
    assert_eq!(relax_cap(",< 2.0 ; python_version>'3'", 3).as_deref(), Some(",< 3.0.0 ; python_version>'3'"));
    assert_eq!(relax_cap(",<6.0.0", 6).as_deref(), Some(",<6.0.0")); // already there: same text
    assert_eq!(relax_cap(",<=x", 6), None); // a `<` with no number after it
}

#[test]
fn normalize_collapses_runs() {
    assert_eq!(normalize("a.-_b"), "a-b");
    assert_eq!(normalize("-x-"), "-x-");
}

#[test]
fn key_order_is_strict() {
    let a = version_key("1.2.3");
    let b = version_key("1.10");
    assert!(key_less(&a, &b));
    assert!(!key_less(&b, &a));
    assert!(!key_less(&a, &a));
    assert!(key_less(&version_key("1.2"), &version_key("1.2.0")));
}
