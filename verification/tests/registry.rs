use clockpin::registry::{parse_json, JsonValue, Registry};

fn obj(members: Vec<(&str, JsonValue)>) -> JsonValue {
    JsonValue::Object(members.into_iter().map(|(k, v)| (k.to_string(), v)).collect())
}

fn s(v: &str) -> JsonValue {
    JsonValue::Str(v.to_string())
}

fn reg(base: &str) -> Registry {
    Registry {
        pypi_base: base.to_string(),
        npm_base: base.to_string(),
        crates_base: base.to_string(),
        docker_base: base.to_string(),
        ghcr_base: base.to_string(),
        max_bytes: 1_000_000,
    }
}

#[test]
fn parses_latest_pypi() {
    let r = reg("http://127.0.0.1:1234");
    assert_eq!(r.pypi_url("orjson"), "http://127.0.0.1:1234/pypi/orjson/json");
    let fetch = |u: &str| {
        if u == "http://127.0.0.1:1234/pypi/orjson/json" {
            Some(obj(vec![("info", obj(vec![("version", s("3.11.9"))]))]))
        } else {
            None
        }
    };
    assert_eq!(r.latest_pypi(&fetch, "orjson").as_deref(), Some("3.11.9"));
}

#[test]
fn parses_latest_npm() {
    let r = reg("http://127.0.0.1:1234");
    assert_eq!(r.npm_url("left-pad"), "http://127.0.0.1:1234/left-pad/latest");
    let fetch = |u: &str| {
        if u == "http://127.0.0.1:1234/left-pad/latest" {
            Some(obj(vec![("version", s("1.3.0"))]))
        } else {
            None
        }
    };
    assert_eq!(r.latest_npm(&fetch, "left-pad").as_deref(), Some("1.3.0"));
}

#[test]
fn parses_latest_crate() {
    let r = reg("http://127.0.0.1:1234");
    assert_eq!(r.crate_url("serde"), "http://127.0.0.1:1234/api/v1/crates/serde");
    let fetch = |u: &str| {
        if u == "http://127.0.0.1:1234/api/v1/crates/serde" {
            Some(obj(vec![("crate", obj(vec![("max_stable_version", s("1.0.215"))]))]))
        } else {
            None
        }
    };
    assert_eq!(r.latest_crate(&fetch, "serde").as_deref(), Some("1.0.215"));
}

#[test]
fn none_on_http_error() {
    let r = reg("http://127.0.0.1:1234");
    // the request for the package's document fails (an HTTP 404): no document
    let fetch = |u: &str| -> Option<JsonValue> {
        assert_eq!(u, "http://127.0.0.1:1234/pypi/ghost/json");
        None
    };
    assert_eq!(r.latest_pypi(&fetch, "ghost"), None);
}

#[test]
fn latest_docker_tag_stays_on_numeric_line() {
    let r = reg("http://127.0.0.1:1234");
    assert_eq!(
        r.docker_tags_url("python"),
        "http://127.0.0.1:1234/v2/repositories/library/python/tags?page_size=100&ordering=last_updated"
    );
    let names = ["3.13-slim", "3.13.5-slim", "3.14-slim", "3.14.2-slim", "3-slim"];
    let doc = obj(vec![(
        "results",
        JsonValue::Array(names.iter().map(|n| obj(vec![("name", s(n))])).collect()),
    )]);
    // Must stay on the 3.13 line (3.13.5-slim), never cross into 3.14.x.
    assert_eq!(
        Registry::latest_docker_tag(&doc, "3.13-slim").as_deref(),
        Some("3.13.5-slim")
    );
}

#[test]
fn missing_fields_give_none() {
    let r = reg("http://127.0.0.1:1234");
    assert_eq!(r.latest_pypi(&|_: &str| Some(obj(vec![("info", obj(vec![]))])), "x"), None);
    assert_eq!(r.latest_npm(&|_: &str| Some(JsonValue::Null), "x"), None);
    assert_eq!(r.latest_crate(&|_: &str| Some(obj(vec![("crate", s("x"))])), "x"), None);
    assert_eq!(Registry::latest_docker_tag(&obj(vec![]), "3.13"), None);
    assert_eq!(Registry::docker_digest(&obj(vec![("images", JsonValue::Array(vec![]))])), None);
}

#[test]
fn docker_tag_keeps_suffix_and_numeric_prefix() {
    let names = ["22.04", "22.04.3", "24.04", "latest", "", "22.10-alpine"];
    let doc = obj(vec![(
        "results",
        JsonValue::Array(names.iter().map(|n| obj(vec![("name", s(n))])).collect()),
    )]);
    assert_eq!(Registry::latest_docker_tag(&doc, "22.04").as_deref(), Some("22.04.3"));
    assert_eq!(Registry::latest_docker_tag(&doc, "22").as_deref(), Some("22.04.3"));
    assert_eq!(Registry::latest_docker_tag(&doc, "22.10-alpine").as_deref(), Some("22.10-alpine"));
    assert_eq!(Registry::latest_docker_tag(&doc, "3.13-slim"), None);
}

#[test]
fn docker_digest_prefers_top_level_then_first_image() {
    let top = obj(vec![("digest", s("sha256:aa")), ("images", JsonValue::Array(vec![obj(vec![("digest", s("sha256:bb"))])]))]);
    assert_eq!(Registry::docker_digest(&top).as_deref(), Some("sha256:aa"));
    let nested = obj(vec![("images", JsonValue::Array(vec![obj(vec![("digest", s("sha256:bb"))])]))]);
    assert_eq!(Registry::docker_digest(&nested).as_deref(), Some("sha256:bb"));
    let r = reg("https://hub");
    assert_eq!(r.docker_tag_url("grafana/grafana", "11.0"), "https://hub/v2/repositories/grafana/grafana/tags/11.0");
}

#[test]
fn default_registry_and_size_cap() {
    let r = Registry::default();
    assert_eq!(r.pypi_base, "https://pypi.org");
    assert_eq!(r.npm_base, "https://registry.npmjs.org");
    assert_eq!(r.crates_base, "https://crates.io");
    assert_eq!(r.docker_base, "https://hub.docker.com");
    assert_eq!(r.ghcr_base, "https://ghcr.io");
    assert_eq!(r.max_bytes, 2_000_000);
    let small = Registry { max_bytes: 3, ..Registry::default() };
    assert!(small.within_cap("abc"));
    assert!(!small.within_cap("abcd"));
    assert!(!small.within_cap("é·"));
}

#[test]
fn ghcr_urls_and_tags() {
    let r = reg("https://ghcr.io");
    assert_eq!(r.ghcr_token_url("owner/img"), "https://ghcr.io/token?scope=repository:owner/img:pull");
    assert_eq!(r.ghcr_tags_url("owner/img"), "https://ghcr.io/v2/owner/img/tags/list");
    assert_eq!(r.ghcr_manifest_url("owner/img", "1.3"), "https://ghcr.io/v2/owner/img/manifests/1.3");
    assert_eq!(Registry::token(&obj(vec![("token", s("abc"))])).as_deref(), Some("abc"));
    let doc = obj(vec![("tags", JsonValue::Array(vec![s("1.2"), s("1.2.9"), s("1.3"), JsonValue::Null, s("latest")]))]);
    assert_eq!(Registry::latest_ghcr_tag(&doc, "1.2").as_deref(), Some("1.2.9"));
    assert_eq!(Registry::latest_ghcr_tag(&obj(vec![]), "1.2"), None);
}

#[test]
fn body_json_caps_and_parses() {
    let small = Registry { max_bytes: 20, ..Registry::default() };
    let fetch = |_: &str| small.body_json(r#"{"version":"1.3.0"}"#);
    assert_eq!(small.latest_npm(&fetch, "left-pad").as_deref(), Some("1.3.0"));
    assert!(small.body_json(r#"{"version":"1.3.0.0000001"}"#).is_none());
    assert!(small.body_json("not json").is_none());
    match parse_json(r#"[1, true, null, "x", {"k": []}]"#) {
        Some(JsonValue::Array(items)) => assert_eq!(items.len(), 5),
        _ => panic!("expected an array"),
    }
}
