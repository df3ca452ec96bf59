//! Settings and the configuration.

use den_embed::config::{drain_grace, Config, Environment};
use den_embed::settings::{env_clamped, malformed, unusable};

fn unset() -> Environment {
    Environment {
        port: None,
        model_dir: None,
        onnx_path: None,
        tokenizer_path: None,
        idle_unload_secs: None,
        max_chars: None,
        max_tokens: None,
        max_request_tokens: None,
        max_batch: None,
        max_body_bytes: None,
        cache_max_entries: None,
        intra_threads: None,
        metrics_token: None,
        log_requests: None,
    }
}

fn set(text: &str) -> Option<String> {
    Some(text.to_string())
}

/// The token cap is what bounds the memory of an inference, and the character cap does not imply it.
#[test]
fn the_token_cap_is_below_what_the_memory_limit_allows() {
    let (cfg, _) = Config::from_env(&unset());
    assert!(cfg.max_tokens <= 1024, "max_tokens {} exceeds what 1536 MB can hold", cfg.max_tokens);
    assert!(cfg.max_tokens >= 16, "max_tokens {} is too small to embed a query", cfg.max_tokens);
}

/// No setting of an operator undoes the bounds on time and memory.
#[test]
fn no_env_setting_can_undo_the_request_budget() {
    let worst_case_tokens = |max_request_tokens: usize| max_request_tokens;
    for raw in [None, Some("32768")] {
        let ceiling = env_clamped("MAX_REQUEST_TOKENS", raw, 8192, 512, 12_288).value;
        assert!(
            worst_case_tokens(ceiling) as f64 * 0.33 / 512.0 < 10.0,
            "a legal batch can outlast den-atlas's 10s timeout on this call"
        );
    }

    let raised = env_clamped("MAX_TOKENS", Some("8192"), 512, 16, 1024).value;
    assert_eq!(raised, 1024, "an operator could raise the token cap back into the OOM");

    let peak_at_max_tokens_mb = 1219.0;
    for raw in [None, Some("65536")] {
        let cache_ceiling = env_clamped("CACHE_MAX_ENTRIES", raw, 8192, 0, 32_768).value;
        let cache_mb = cache_ceiling as f64 * 4.2 / 1024.0;
        assert!(
            peak_at_max_tokens_mb + cache_mb < 1400.0,
            "both ceilings at once is {:.0} MB against a 1536 MB cgroup",
            peak_at_max_tokens_mb + cache_mb
        );
    }
}

/// A malformed value must not silently become the opposite of what was asked for.
#[test]
fn a_malformed_setting_falls_back_to_the_default_not_to_zero() {
    let read = |raw| env_clamped("TEST_MALFORMED", Some(raw), 600, 0, 86_400).value;
    assert_eq!(read("600s"), 600);
    assert_eq!(read(""), 600);
    assert_eq!(read("-5"), 600);
    assert_eq!(read(" 42 "), 42, "a padded number is still a number");
}

#[test]
fn a_setting_says_what_became_of_it() {
    let s = env_clamped("MAX_TOKENS", Some("8192"), 512, 16, 1024);
    assert_eq!(s.warning.as_deref(), Some("MAX_TOKENS=8192 is outside 16..=1024; using 1024"));
    let s = env_clamped("MAX_TOKENS", Some(" 3 "), 512, 16, 1024);
    assert_eq!(s.warning.as_deref(), Some("MAX_TOKENS=3 is outside 16..=1024; using 16"));
    let s = env_clamped("IDLE_UNLOAD_SECS", Some("600\ts"), 0, 0, 86_400);
    assert_eq!(s.value, 0);
    assert_eq!(
        s.warning.as_deref(),
        Some("IDLE_UNLOAD_SECS=\"600\\ts\" is not a number; using the default 0")
    );
    assert!(env_clamped("MAX_TOKENS", None, 512, 16, 1024).warning.is_none());
    assert!(env_clamped("MAX_TOKENS", Some("16"), 512, 16, 1024).warning.is_none());
    assert_eq!(unusable("A", "\"b\"", "port", 1), malformed("A", "b", "port", 1));
}

#[test]
fn an_empty_environment_gives_the_defaults() {
    let (cfg, lines) = Config::from_env(&unset());
    assert!(lines.is_empty());
    assert_eq!(cfg.port, 8080);
    assert_eq!(cfg.onnx_path, "/models/model_int8.onnx");
    assert_eq!(cfg.tokenizer_path, "/models/tokenizer.json");
    assert_eq!(cfg.max_chars, 8000);
    assert_eq!(cfg.max_tokens, 512);
    assert_eq!(cfg.max_request_tokens, 8192);
    assert_eq!(cfg.max_batch, 512);
    assert_eq!(cfg.max_body_bytes, 4 * 1024 * 1024);
    assert_eq!(cfg.cache_max, 8192);
    assert_eq!(cfg.idle_unload, None);
    assert_eq!(cfg.intra_threads, 0);
    assert_eq!(cfg.metrics_token, None);
    assert!(!cfg.log_requests);
}

#[test]
fn every_setting_is_read() {
    let env = Environment {
        port: set("9000"),
        model_dir: set("/m"),
        onnx_path: None,
        tokenizer_path: set("/t.json"),
        idle_unload_secs: set("600"),
        max_chars: set("499"),
        max_tokens: set("64"),
        max_request_tokens: set("1000"),
        max_batch: set("8"),
        max_body_bytes: set("99999999"),
        cache_max_entries: set("0"),
        intra_threads: set("two"),
        metrics_token: set("  s3cret\n"),
        log_requests: set("1"),
    };
    let (cfg, lines) = Config::from_env(&env);
    assert_eq!(cfg.port, 9000);
    assert_eq!(cfg.onnx_path, "/m/model_int8.onnx");
    assert_eq!(cfg.tokenizer_path, "/t.json");
    assert_eq!(cfg.idle_unload, Some(600));
    assert_eq!(cfg.max_chars, 500);
    assert_eq!(cfg.max_tokens, 64);
    assert_eq!(cfg.max_request_tokens, 1000);
    assert_eq!(cfg.max_batch, 8);
    assert_eq!(cfg.max_body_bytes, 16 * 1024 * 1024);
    assert_eq!(cfg.cache_max, 0);
    assert_eq!(cfg.intra_threads, 0);
    assert_eq!(cfg.metrics_token.as_deref(), Some("s3cret"));
    assert!(cfg.log_requests);
    assert_eq!(
        lines,
        vec![
            "MAX_CHARS=499 is outside 500..=100000; using 500".to_string(),
            "MAX_BODY_BYTES=99999999 is outside 65536..=16777216; using 16777216".to_string(),
            "INTRA_THREADS=\"two\" is not a number; using the default 0".to_string(),
        ]
    );
}

#[test]
fn a_port_that_is_none_is_the_default_and_reported() {
    for text in ["http", "", "70000", " 80", "-1"] {
        let (cfg, lines) = Config::from_env(&Environment { port: set(text), ..unset() });
        assert_eq!(cfg.port, 8080, "{text:?}");
        assert_eq!(lines, vec![format!("PORT={text:?} is not a port; using the default 8080")]);
    }
    let (cfg, lines) = Config::from_env(&Environment { port: set("0"), ..unset() });
    assert_eq!(cfg.port, 0);
    assert!(lines.is_empty());
}

#[test]
fn a_blank_token_is_no_token() {
    for text in ["", "  ", "\n"] {
        let (cfg, _) = Config::from_env(&Environment { metrics_token: set(text), ..unset() });
        assert_eq!(cfg.metrics_token, None);
    }
}

#[test]
fn the_request_log_is_off_unless_it_is_turned_on() {
    for (text, on) in [("", false), (" ", false), ("0", false), (" 0 ", false), ("1", true), ("no", true)] {
        let (cfg, _) = Config::from_env(&Environment { log_requests: set(text), ..unset() });
        assert_eq!(cfg.log_requests, on, "{text:?}");
    }
}

/// An over-large grace is clamped, and says so.
#[test]
fn an_over_large_drain_grace_is_clamped() {
    let grace = drain_grace(Some("600"));
    let out = grace.warning.unwrap();
    assert!(
        out.contains("is outside") && out.contains("using 9"),
        "600s was accepted as a drain grace; the ceiling is not enforced. Server said:\n{out}"
    );
    assert_eq!(grace.value, 9);
    assert_eq!(drain_grace(None).value, 8);
    assert_eq!(drain_grace(Some("0")).value, 1);
    assert_eq!(drain_grace(Some("2")).value, 2);
}

/// A number too large for any machine word is still a number, and held to its range.
#[test]
fn a_number_of_any_size_is_clamped() {
    let s = env_clamped("MAX_TOKENS", Some("100000000000000000000"), 512, 16, 1024);
    assert_eq!(s.value, 1024);
    assert_eq!(
        s.warning.as_deref(),
        Some("MAX_TOKENS=100000000000000000000 is outside 16..=1024; using 1024")
    );
    let s = env_clamped("MAX_TOKENS", Some(" +0018446744073709551616\n"), 512, 16, 1024);
    assert_eq!(s.value, 1024);
    assert_eq!(
        s.warning.as_deref(),
        Some("MAX_TOKENS=18446744073709551616 is outside 16..=1024; using 1024")
    );
    let s = env_clamped("MAX_TOKENS", Some("00"), 512, 16, 1024);
    assert_eq!(s.warning.as_deref(), Some("MAX_TOKENS=0 is outside 16..=1024; using 16"));
    let s = env_clamped("MAX_TOKENS", Some("100000000000000000000x"), 512, 16, 1024);
    assert_eq!(s.value, 512);
    let s = env_clamped("MAX_TOKENS", Some("000000000000000000000000000064"), 512, 16, 1024);
    assert_eq!((s.value, s.warning), (64, None));
}
