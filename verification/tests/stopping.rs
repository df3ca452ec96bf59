//! Idle models, failures, signals and the wait for requests in flight.

use den_embed::config::{Config, Environment};
use den_embed::failure::{internal, Failure, FailureLog, FAILURE_LOG_EVERY_NS};
use den_embed::idle::{boot, ensure_loaded, poll_interval, Boot, IdleClock};
use den_embed::shutdown::{
    listening_line, seconds, uncaught_line, Drain, DrainEvent, Outcome, StopAction, StopSignals,
};

#[test]
fn idle_models_are_looked_for_in_time() {
    assert_eq!(poll_interval(0), 15_000);
    assert_eq!(poll_interval(1), 15_000);
    assert_eq!(poll_interval(30), 15_000);
    assert_eq!(poll_interval(31), 15_500);
    assert_eq!(poll_interval(119), 59_500);
    assert_eq!(poll_interval(120), 60_000);
    assert_eq!(poll_interval(600), 60_000);
    assert_eq!(poll_interval(u64::MAX), 60_000);
}

#[test]
fn a_model_that_is_never_dropped_is_loaded_at_once() {
    assert!(matches!(boot(None), Boot::Warm));
    assert!(matches!(boot(Some(100)), Boot::Lazy { idle_secs: 100, poll_ms: 50_000 }));
}

#[test]
fn a_model_is_dropped_once_it_has_been_idle_for_long_enough() {
    let mut clock = IdleClock::new();
    clock.touch(5_000);
    assert!(!clock.should_unload(true, 604_999, 600));
    assert!(clock.should_unload(true, 605_000, 600));
    assert!(clock.should_unload(true, 9_605_000, 600));
    assert!(!clock.should_unload(false, 605_000, 600));
    // A reading from before the last inference counts as no time at all.
    assert!(!clock.should_unload(true, 0, 600));
    assert_eq!(clock.idle_seconds(0), 0);
    assert_eq!(clock.idle_seconds(6_999), 1);
    clock.touch(605_000);
    assert!(!clock.should_unload(true, 605_001, 600));
    assert_eq!(clock.last_used(), 605_000);
}

/// Whenever the first look comes, one finds the model due within the set time and one interval.
#[test]
fn an_idle_model_is_found_within_one_interval() {
    for idle_secs in [1, 30, 77, 600] {
        let poll = poll_interval(idle_secs);
        for first in [0, 1, 14_999, poll] {
            let mut clock = IdleClock::new();
            clock.touch(2_000);
            let mut now = first;
            while !clock.should_unload(true, now, idle_secs) {
                now += poll;
            }
            assert!(now < 2_000 + idle_secs * 1000 + poll, "{idle_secs} {first}");
        }
    }
}

#[test]
fn a_model_is_loaded_only_where_there_is_none() {
    let mut slot: Option<u32> = None;
    assert_eq!(ensure_loaded(&mut slot, || Err("no file")), Err("no file"));
    assert_eq!(slot, None);
    assert_eq!(ensure_loaded(&mut slot, || Ok::<u32, &str>(7)), Ok(()));
    assert_eq!(slot, Some(7));
    assert_eq!(ensure_loaded(&mut slot, || -> Result<u32, &str> { panic!("loaded again") }), Ok(()));
    assert_eq!(slot, Some(7));
}

fn load_failed() -> Failure {
    Failure::ModelLoad("no such file".into())
}

#[test]
fn a_failure_is_logged_once_a_minute_with_a_count() {
    let mut log = FailureLog::new();
    let (line, answer) = internal(&mut log, &load_failed(), 1_000);
    assert_eq!(line.as_deref(), Some("model load failed: no such file"));
    assert_eq!(answer.status, 500);
    assert_eq!(answer.detail, "embedding failed");

    for i in 1..=3 {
        assert_eq!(internal(&mut log, &load_failed(), 1_000 + i).0, None);
    }
    assert_eq!(internal(&mut log, &load_failed(), 999 + FAILURE_LOG_EVERY_NS).0, None);
    let (line, _) = internal(&mut log, &load_failed(), 1_000 + FAILURE_LOG_EVERY_NS);
    assert_eq!(
        line.as_deref(),
        Some("model load failed: no such file (4 more since the last line)")
    );
    let (line, _) = internal(&mut log, &load_failed(), 1_000 + 2 * FAILURE_LOG_EVERY_NS);
    assert_eq!(line.as_deref(), Some("model load failed: no such file"));
}

#[test]
fn one_condition_does_not_stand_in_for_another() {
    let mut log = FailureLog::new();
    assert!(internal(&mut log, &load_failed(), 0).0.is_some());
    let (line, _) = internal(&mut log, &Failure::Embedding("ort: bad input".into()), 1);
    assert_eq!(line.as_deref(), Some("embedding failed: ort: bad input"));
    assert!(internal(&mut log, &load_failed(), 2).0.is_none());
}

/// Every failure is in a line or waits to be counted in the next.
#[test]
fn no_failure_is_lost() {
    let mut log = FailureLog::new();
    let (mut told, mut now) = (0u64, 0u64);
    for i in 0..500u64 {
        now += (i * 7919) % 13 * 1_000_000_000;
        let before = log.embedding.repeats;
        if internal(&mut log, &Failure::Embedding("e".into()), now).0.is_some() {
            told += 1 + before;
        }
        assert_eq!(told + log.embedding.repeats, i + 1);
    }
}

/// However the failures of two conditions follow one another, the lines for each are a minute apart.
#[test]
fn any_two_lines_for_one_condition_are_a_minute_apart() {
    let mut log = FailureLog::new();
    let (mut lines, mut now) = ([Vec::new(), Vec::new()], 0u64);
    for i in 0..1000u64 {
        now += (i * 7919) % 29 * 1_000_000_000;
        let which = ((i * 31) % 7 % 2) as usize;
        let failure = if which == 0 { load_failed() } else { Failure::Embedding("e".into()) };
        if internal(&mut log, &failure, now).0.is_some() {
            lines[which].push(now);
        }
    }
    for times in lines {
        assert!(times.len() > 10);
        assert!(times.windows(2).all(|w| w[1] - w[0] >= FAILURE_LOG_EVERY_NS));
    }
}

#[test]
fn only_a_failed_server_is_a_failed_process() {
    assert_eq!(Outcome::Drained.exit_code(), 0);
    assert_eq!(Outcome::DeadlineHit("x".into()).exit_code(), 0);
    assert_eq!(Outcome::Failed("x".into()).exit_code(), 1);
    assert_eq!(Outcome::Drained.line(), "shut down cleanly");
    assert_eq!(Outcome::DeadlineHit("why".into()).line(), "why");
    assert_eq!(Outcome::Failed("why".into()).line(), "why");
}

#[test]
fn the_wait_starts_at_the_signal() {
    let mut drain = Drain::new(2);
    assert!(drain.step(DrainEvent::Clock { now_ms: 1_000_000 }).is_none());
    assert!(drain.step(DrainEvent::Asked { now_ms: 1_000_000 }).is_none());
    assert!(drain.step(DrainEvent::Clock { now_ms: 1_001_999 }).is_none());
    // Being asked again does not start it over.
    assert!(drain.step(DrainEvent::Asked { now_ms: 1_001_999 }).is_none());
    match drain.step(DrainEvent::Clock { now_ms: 1_002_000 }) {
        Some(Outcome::DeadlineHit(why)) => {
            assert_eq!(why, "drain deadline (2s) reached with requests still in flight")
        }
        _ => panic!("the wait did not end"),
    }
}

#[test]
fn a_lost_asker_is_not_a_signal() {
    let mut drain = Drain::new(2);
    assert!(drain.step(DrainEvent::AskerGone).is_none());
    assert!(drain.step(DrainEvent::Clock { now_ms: u64::MAX }).is_none());
    assert!(matches!(drain.step(DrainEvent::ServeEnded), Some(Outcome::Drained)));
}

#[test]
fn a_server_that_ends_by_itself_has_its_own_outcome() {
    let mut drain = Drain::new(8);
    drain.step(DrainEvent::Asked { now_ms: 5 });
    assert!(matches!(drain.step(DrainEvent::ServeEnded), Some(Outcome::Drained)));
    match Drain::new(8).step(DrainEvent::ServeFailed("address in use".into())) {
        Some(Outcome::Failed(why)) => assert_eq!(why, "serve error: address in use"),
        _ => panic!("a failed server was not reported"),
    }
}

#[test]
fn a_length_of_time_is_printed_as_the_standard_library_prints_it() {
    for n in [0, 1, 8, 9, 86_400] {
        assert_eq!(seconds(n), format!("{:?}", std::time::Duration::from_secs(n)));
    }
}

#[test]
fn a_second_signal_ends_the_process() {
    let mut signals = StopSignals::new();
    match signals.received("SIGTERM") {
        StopAction::Drain(line) => assert_eq!(line, "SIGTERM — draining in-flight requests"),
        StopAction::ExitNow { .. } => panic!("the first signal ended the process"),
    }
    match signals.received("SIGINT") {
        StopAction::ExitNow { code, line } => {
            assert_eq!(code, 0);
            assert_eq!(line, "second signal — exiting without finishing the drain");
        }
        StopAction::Drain(_) => panic!("the second signal started another wait"),
    }
    assert_eq!(
        uncaught_line("SIGINT", "denied"),
        "SIGINT handler unavailable (denied); it will be a hard kill"
    );
}

/// The bound port from the readiness line.
fn listening_port(line: &str) -> Option<u16> {
    line.split("listening on :").nth(1)?.split_whitespace().next()?.parse().ok()
}

fn configured(token: &str, unload: &str) -> Config {
    let env = Environment {
        port: None,
        model_dir: None,
        onnx_path: None,
        tokenizer_path: None,
        idle_unload_secs: Some(unload.into()),
        max_chars: None,
        max_tokens: None,
        max_request_tokens: None,
        max_batch: None,
        max_body_bytes: None,
        cache_max_entries: None,
        intra_threads: None,
        metrics_token: Some(token.into()),
        log_requests: None,
    };
    Config::from_env(&env).0
}

#[test]
fn the_readiness_line_tells_the_port_and_no_secret() {
    let line = listening_line(&configured("s3cret", "600"), 45_123);
    assert_eq!(listening_port(&line), Some(45_123));
    assert_eq!(
        line,
        "den-embed 0.1.0 listening on :45123 — bge-m3, idle-unload 600s, max_tokens 512, \
         max_request_tokens 8192, metrics on, request log off"
    );
    assert_eq!(line, listening_line(&configured("other", "600"), 45_123));
    let line = listening_line(&configured("", "0"), 8080);
    assert!(line.contains("idle-unload off") && line.contains("metrics off"), "{line}");
}
