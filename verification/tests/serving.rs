//! What is answered over HTTP, and what is logged of it.

use den_embed::auth::{constant_time_eq, metrics_authorized};
use den_embed::config::{Config, Environment};
use den_embed::embed::{DIMS, VECTOR_EPOCH};
use den_embed::http::{
    batch_resp, cors, embed_resp, health, log_line, metrics, not_found, request_line, CorsStep, Page,
    VERSION,
};
use den_embed::idle::IdleClock;
use den_embed::key::MODEL_LABEL;
use den_embed::lru::Lru;
use den_embed::metrics::{model_loaded, render_metrics, snapshot, LockProbe, Snapshot};

fn defaults() -> Config {
    Config::from_env(&Environment {
        port: None,
        model_dir: None,
        onnx_path: None,
        tokenizer_path: None,
        idle_unload_secs: None,
        max_chars: None,
        max_tokens: None,
        max_request_tokens: None,
        max_batch: None,
        max_body_bytes: None,
        cache_max_entries: None,
        intra_threads: None,
        metrics_token: None,
        log_requests: None,
    })
    .0
}

/// A service that has been up for a minute, with idle unloading on and nothing loaded or used.
fn untouched() -> Snapshot {
    snapshot(LockProbe::Free(false), &Lru::new(8192), &IdleClock::new(), 60_000, Some(600))
}

fn header<'a>(page: &'a Page, name: &str) -> &'a str {
    page.headers.iter().find(|h| h.name == name).map_or("", |h| h.value)
}

/// /health has to distinguish two builds that return different vectors for the same text.
#[test]
fn health_reports_what_actually_embedded() {
    let body = health(&defaults());
    assert_eq!(body.status, "ok");
    assert_eq!(body.model, MODEL_LABEL);
    assert_eq!(body.dims, DIMS);
    assert_eq!(body.max_tokens, 512);
    assert_eq!(body.vector_epoch, VECTOR_EPOCH);
    assert_eq!(body.runtime, format!("den-embed/{}", VERSION));
    assert_ne!(body.runtime, "den-embed/");
}

/// The epoch must not track the crate version.
#[test]
fn the_vector_epoch_is_not_the_crate_version() {
    assert!(!VERSION.starts_with(&VECTOR_EPOCH.to_string()));
}

#[test]
fn answers_name_the_model_and_its_dimensions() {
    let one = embed_resp(vec![1, 2]);
    assert_eq!((one.vector, one.dims, one.model), (vec![1, 2], 1024, "bge-m3"));
    let many = batch_resp(vec![vec![1], vec![2]]);
    assert_eq!((many.vectors, many.dims, many.model), (vec![vec![1], vec![2]], 1024, "bge-m3"));
}

#[test]
fn constant_time_eq_is_plain_equality() {
    assert!(constant_time_eq(b"s3cret", b"s3cret"));
    assert!(!constant_time_eq(b"s3cret", b"s3creT"));
    assert!(!constant_time_eq(b"s3cret", b"s3cre"));
    assert!(!constant_time_eq(b"", b"s3cret"));
}

#[test]
fn the_token_may_come_with_or_without_its_scheme() {
    for auth in ["Bearer s3cret", "s3cret", "Bearer   s3cret ", " s3cret"] {
        assert!(metrics_authorized(Some("s3cret"), Some(auth)), "{auth:?}");
    }
    for auth in ["bearer s3cret", "Bearer Bearer s3cret", "Basic s3cret", ""] {
        assert!(!metrics_authorized(Some("s3cret"), Some(auth)), "{auth:?}");
    }
    assert!(!metrics_authorized(None, Some("")));
    assert!(!metrics_authorized(None, None));
}

/// Unset means off, and indistinguishable from a route that does not exist.
#[test]
fn metrics_is_not_found_without_a_configured_token() {
    for auth in [None, Some("Bearer "), Some("Bearer anything")] {
        let page = metrics(None, auth, &untouched());
        assert_eq!(page.status, 404, "served metrics with no token configured ({auth:?})");
        assert_eq!(header(&page, "content-type"), "application/json");
        assert_eq!(page.body, r#"{"error":"not_found"}"#, "unlike an unknown route's 404");
    }
}

#[test]
fn metrics_is_not_found_with_the_wrong_token() {
    for auth in [None, Some("Bearer wrong"), Some("Bearer s3cre"), Some("Bearer s3cret2")] {
        let page = metrics(Some("s3cret"), auth, &untouched());
        assert_eq!(page.status, 404, "{auth:?} was accepted");
    }
}

#[test]
fn a_refusal_cannot_be_told_from_a_missing_page() {
    let (refused, missing) = (metrics(Some("s3cret"), None, &untouched()), not_found());
    assert_eq!(refused.status, missing.status);
    assert_eq!(refused.body, missing.body);
    let headers = |p: &Page| p.headers.iter().map(|h| (h.name, h.value)).collect::<Vec<_>>();
    assert_eq!(headers(&refused), headers(&missing));
}

#[test]
fn metrics_serves_prometheus_text_with_the_right_token() {
    let page = metrics(Some("s3cret"), Some("Bearer s3cret"), &untouched());
    assert_eq!(page.status, 200);
    assert_eq!(header(&page, "content-type"), "text/plain; version=0.0.4; charset=utf-8");
    assert_eq!(header(&page, "cache-control"), "no-store");
    let body = page.body;
    let build_info = format!("embed_build_info{{version=\"{}\",model=\"bge-m3\"}} 1\n", VERSION);
    assert!(body.contains(&build_info), "no build_info line in:\n{body}");
    assert!(body.contains("\nembed_idle_unload_seconds 600\n"), "{body}");
    assert!(body.contains("# TYPE embed_model_loaded gauge\n"), "{body}");
}

/// A scrape must not keep the model warm.
#[test]
fn a_scrape_is_not_activity_and_does_not_load_the_model() {
    let clock = IdleClock::new();
    let cache = Lru::new(8192);
    let shown = snapshot(LockProbe::Free(false), &cache, &clock, 60_000, Some(600));
    let body = metrics(Some("s3cret"), Some("Bearer s3cret"), &shown).body;

    assert_eq!(clock.last_used(), 0, "the scrape reset the idle clock");
    assert!(body.contains("\nembed_model_loaded 0\n"), "{body}");
    let idle: u64 = body
        .lines()
        .find_map(|l| l.strip_prefix("embed_idle_seconds "))
        .and_then(|v| v.parse().ok())
        .expect("no embed_idle_seconds sample");
    assert!(idle >= 60, "idle clock reads {idle}s on a service untouched for a minute");
}

#[test]
fn the_metrics_are_these_lines() {
    let mut cache = Lru::new(3);
    cache.put("k".into(), vec![1]);
    let mut clock = IdleClock::new();
    clock.touch(10_500);
    let shown = snapshot(LockProbe::Busy, &cache, &clock, 15_499, None);
    assert_eq!(
        render_metrics("9.8.7", &shown),
        "# HELP embed_build_info Build identity.
# TYPE embed_build_info gauge
embed_build_info{version=\"9.8.7\",model=\"bge-m3\"} 1
# HELP embed_model_loaded Model resident (1) or idle-unloaded (0).
# TYPE embed_model_loaded gauge
embed_model_loaded 1
# HELP embed_cache_entries Vectors held in the embedding cache.
# TYPE embed_cache_entries gauge
embed_cache_entries 1
# HELP embed_cache_capacity Most vectors the embedding cache will hold (0 = cache off).
# TYPE embed_cache_capacity gauge
embed_cache_capacity 3
# HELP embed_idle_seconds Seconds since the last inference, or since boot if there has been none.
# TYPE embed_idle_seconds gauge
embed_idle_seconds 4
# HELP embed_idle_unload_seconds Idle time after which the model is unloaded (0 = never).
# TYPE embed_idle_unload_seconds gauge
embed_idle_unload_seconds 0
"
    );
}

#[test]
fn a_held_lock_means_a_loaded_model() {
    assert!(model_loaded(LockProbe::Busy));
    assert!(model_loaded(LockProbe::Free(true)));
    assert!(!model_loaded(LockProbe::Free(false)));
    assert!(model_loaded(LockProbe::Poisoned(true)));
    assert!(!model_loaded(LockProbe::Poisoned(false)));
}

#[test]
fn a_preflight_is_answered_and_every_other_response_marked() {
    match cors("OPTIONS") {
        CorsStep::Answer(page) => {
            assert_eq!(page.status, 204);
            assert_eq!(header(&page, "access-control-allow-origin"), "*");
            assert_eq!(header(&page, "access-control-allow-methods"), "GET, HEAD, POST, OPTIONS");
            assert_eq!(header(&page, "access-control-allow-headers"), "*");
            assert_eq!(header(&page, "access-control-max-age"), "86400");
            assert_eq!(page.body, "");
        }
        CorsStep::Pass(_) => panic!("a preflight was passed on"),
    }
    for method in ["GET", "HEAD", "POST", "DELETE", "options"] {
        match cors(method) {
            CorsStep::Pass(h) => assert_eq!((h.name, h.value), ("access-control-allow-origin", "*")),
            CorsStep::Answer(_) => panic!("{method} was answered as a preflight"),
        }
    }
}

/// A preflight is answered by its method alone, so that no path makes a difference; nothing that it is
/// decided by could load the model or move the idle clock.
#[test]
fn a_preflight_on_any_path_is_answered_without_waking_the_model() {
    let clock = IdleClock::new();
    for path in ["/embed", "/embed/batch", "/health", "/metrics", "/nope"] {
        match cors("OPTIONS") {
            CorsStep::Answer(page) => {
                assert_eq!(page.status, 204, "{path}");
                assert_eq!(header(&page, "access-control-allow-origin"), "*", "{path}");
                assert_eq!(
                    header(&page, "access-control-allow-methods"),
                    "GET, HEAD, POST, OPTIONS",
                    "{path}"
                );
                assert_eq!(header(&page, "access-control-allow-headers"), "*", "{path}");
                assert_eq!(header(&page, "access-control-max-age"), "86400", "{path}");
            }
            CorsStep::Pass(_) => panic!("{path} reached its handler"),
        }
    }
    assert_eq!(clock.last_used(), 0, "a preflight reset the idle clock");
}

/// Success, a refused route, an unknown path and a wrong method alike. Of the statuses, the two that are
/// decided here are looked at.
#[test]
fn every_response_is_readable_cross_origin() {
    assert_eq!(metrics(None, None, &untouched()).status, 404);
    assert_eq!(not_found().status, 404);
    for (method, path) in [
        ("GET", "/health"),
        ("GET", "/embed?text="),
        ("GET", "/metrics"),
        ("GET", "/nope"),
        ("DELETE", "/health"),
    ] {
        match cors(method) {
            CorsStep::Pass(h) => {
                assert_eq!(h.name, "access-control-allow-origin", "{method} {path}");
                assert_eq!(h.value, "*", "{method} {path}");
            }
            CorsStep::Answer(_) => panic!("{method} {path} was answered as a preflight"),
        }
    }
}

/// A target that starts with a slash has a line where it is not too long and holds what it may.
#[test]
fn which_targets_have_a_line() {
    let line = |target: &str| request_line("GET", target, 200, 1);
    for (target, path) in [
        ("/", "/"),
        ("/embed", "/embed"),
        ("/embed?text=una%20b%C3%BAsqueda", "/embed"),
        ("/\"{ñ}|~!$'()*+,-.:;=@[]^_", "/\"{ñ}|~!$'()*+,-.:;=@[]^_"),
        ("/a?`?{}'", "/a"),
        ("/a#<> `", "/a"),
        ("/a?b#<> `", "/a"),
        ("/?", "/"),
    ] {
        assert_eq!(line(target), Some(format!("GET {path} 200 1ms")), "{target}");
    }
    for target in ["/a b", "/<", "/>", "/`", "/\n", "/\u{7f}", "/a?\"", "/a?<", "/a?b c", "/a?>"] {
        assert_eq!(line(target), None, "{target:?}");
    }
    assert!(line(&format!("/{}", "a".repeat(65_533))).is_some());
    assert!(line(&format!("/{}", "a".repeat(65_534))).is_none());
    assert!(line(&format!("/{}", "é".repeat(32_766))).is_some());
    assert!(line(&format!("/{}", "é".repeat(32_767))).is_none());
}

#[test]
fn an_unknown_path_is_a_json_404() {
    let resp = not_found();
    assert_eq!(resp.status, 404);
    assert_eq!(header(&resp, "content-type"), "application/json");
    assert_eq!(header(&resp, "cache-control"), "no-store");
    assert_eq!(resp.body, r#"{"error":"not_found"}"#);
}

/// `GET /embed?text=` carries the user's search in the query, so the line has the path alone.
#[test]
fn the_request_log_never_carries_the_query() {
    let line = request_line("GET", "/embed?text=a%20private%20search", 200, 12).unwrap();
    assert_eq!(line, "GET /embed 200 12ms");
    assert!(!line.contains("private"), "{line}");
}

#[test]
fn request_lines_show_the_path_of_any_target() {
    assert_eq!(request_line("GET", "/a/b#c?d", 404, 0).unwrap(), "GET /a/b 404 0ms");
    assert_eq!(
        request_line("POST", "http://den-embed:8080/embed/batch?x=1", 413, 7).unwrap(),
        "POST /embed/batch 413 7ms"
    );
    assert_eq!(request_line("OPTIONS", "*", 204, 1).unwrap(), "OPTIONS * 204 1ms");
    assert_eq!(request_line("GET", "/a b", 200, 1), None);
    assert_eq!(request_line("GET", "", 200, 1), None);
    assert_eq!(log_line("GET", "/x", 200, 3), "GET /x 200 3ms");
}
