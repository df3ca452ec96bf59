//! The metrics, in Prometheus' text format.

use crate::idle::{idle_ms, IdleClock};
use crate::key::MODEL_LABEL;
use crate::lru::Lru;
use crate::number::{decimal, decimal_of};
use vstd::prelude::*;
use vstd::string::*;

verus! {

/// What trying the model's lock, without waiting for it, brought.
pub enum LockProbe {
    /// The lock was free: whether the model is there.
    Free(bool),
    /// Somebody holds it.
    Busy,
    /// Whoever held it panicked: whether the model is there.
    Poisoned(bool),
}

/// Whether a model is there, going by its lock.
pub open spec fn loaded_by(probe: LockProbe) -> bool {
    match probe {
        LockProbe::Free(loaded) => loaded,
        LockProbe::Busy => true,
        LockProbe::Poisoned(loaded) => loaded,
    }
}

/// Whether a model is there, going by its lock. What holds the lock for any time is inference, which
/// loads the model before anything else: a lock that is held means that the model is in use.
pub fn model_loaded(probe: LockProbe) -> (r: bool)
    ensures
        r == loaded_by(probe),
        probe is Busy ==> r,
        probe matches LockProbe::Free(loaded) ==> r == loaded,
        probe matches LockProbe::Poisoned(loaded) ==> r == loaded,
{
    match probe {
        LockProbe::Free(loaded) => loaded,
        LockProbe::Busy => true,
        LockProbe::Poisoned(loaded) => loaded,
    }
}

/// What the metrics show.
pub struct Snapshot {
    pub loaded: bool,
    pub entries: usize,
    pub capacity: usize,
    pub idle_secs: u64,
    /// Idle time after which the model is dropped; 0 for never.
    pub unload_secs: u64,
}

/// What the metrics show of the state that the service keeps for its own ends. It is read and left as
/// it is: a reading neither uses nor loads the model.
pub fn snapshot(
    probe: LockProbe,
    cache: &Lru,
    clock: &IdleClock,
    now_ms: u64,
    idle_unload: Option<u64>,
) -> (r: Snapshot)
    requires
        cache.wf(),
    ensures
        r.loaded == loaded_by(probe),
        r.entries == cache@.entries.len(),
        r.capacity == cache@.cap,
        r.idle_secs == idle_ms(now_ms as nat, clock@) / 1000,
        r.unload_secs == (match idle_unload {
            Some(secs) => secs,
            None => 0,
        }),
        probe is Busy ==> r.loaded,
        probe matches LockProbe::Free(loaded) ==> r.loaded == loaded,
        probe matches LockProbe::Poisoned(loaded) ==> r.loaded == loaded,
        now_ms >= clock@ ==> r.idle_secs * 1000 <= now_ms - clock@ < (r.idle_secs + 1) * 1000,
        now_ms < clock@ ==> r.idle_secs == 0,
{
    Snapshot {
        loaded: model_loaded(probe),
        entries: cache.len(),
        capacity: cache.capacity(),
        idle_secs: clock.idle_seconds(now_ms),
        unload_secs: match idle_unload {
            Some(secs) => secs,
            None => 0,
        },
    }
}

/// One gauge: what it is for, what it is, and its value.
pub open spec fn gauge(
    name: Seq<char>,
    help: Seq<char>,
    labels: Seq<char>,
    value: Seq<char>,
) -> Seq<char> {
    "# HELP "@ + name + " "@ + help + "\n# TYPE "@ + name + " gauge\n"@ + name + labels + " "@
        + value + "\n"@
}

/// The labels that identify a build.
pub open spec fn build_labels(version: Seq<char>) -> Seq<char> {
    "{version=\""@ + version + "\",model=\""@ + MODEL_LABEL@ + "\"}"@
}

/// The metrics as text.
pub open spec fn metrics_text(version: Seq<char>, s: Snapshot) -> Seq<char> {
    gauge("embed_build_info"@, "Build identity."@, build_labels(version), "1"@) + gauge(
        "embed_model_loaded"@,
        "Model resident (1) or idle-unloaded (0)."@,
        ""@,
        if s.loaded {
            "1"@
        } else {
            "0"@
        },
    ) + gauge(
        "embed_cache_entries"@,
        "Vectors held in the embedding cache."@,
        ""@,
        decimal_of(s.entries as nat),
    ) + gauge(
        "embed_cache_capacity"@,
        "Most vectors the embedding cache will hold (0 = cache off)."@,
        ""@,
        decimal_of(s.capacity as nat),
    ) + gauge(
        "embed_idle_seconds"@,
        "Seconds since the last inference, or since boot if there has been none."@,
        ""@,
        decimal_of(s.idle_secs as nat),
    ) + gauge(
        "embed_idle_unload_seconds"@,
        "Idle time after which the model is unloaded (0 = never)."@,
        ""@,
        decimal_of(s.unload_secs as nat),
    )
}

fn append_gauge(out: &mut String, name: &str, help: &str, labels: &str, value: &str)
    ensures
        final(out)@ == old(out)@ + gauge(name@, help@, labels@, value@),
        final(out)@ == old(out)@ + ("# HELP "@ + name@ + " "@ + help@ + "\n# TYPE "@ + name@
            + " gauge\n"@ + name@ + labels@ + " "@ + value@ + "\n"@),
{
    let ghost before = out@;
    out.append("# HELP ");
    out.append(name);
    out.append(" ");
    out.append(help);
    out.append("\n# TYPE ");
    out.append(name);
    out.append(" gauge\n");
    out.append(name);
    out.append(labels);
    out.append(" ");
    out.append(value);
    out.append("\n");
    assert(out@ =~= before + gauge(name@, help@, labels@, value@));
}

/// The metrics as text.
pub fn render_metrics(version: &str, s: &Snapshot) -> (r: String)
    ensures
        r@ == metrics_text(version@, *s),
        ({
            let loaded = if s.loaded {
                "1"@
            } else {
                "0"@
            };
            let gauges = seq![
                "# HELP "@ + "embed_build_info"@ + " "@
                    + "Build identity."@
                    + "\n# TYPE "@ + "embed_build_info"@ + " gauge\n"@ + "embed_build_info"@
                    + ("{version=\""@ + version@ + "\",model=\""@ + "bge-m3"@ + "\"}"@) + " "@ + "1"@ + "\n"@,
                "# HELP "@ + "embed_model_loaded"@ + " "@
                    + "Model resident (1) or idle-unloaded (0)."@
                    + "\n# TYPE "@ + "embed_model_loaded"@ + " gauge\n"@ + "embed_model_loaded"@
                    + ""@ + " "@ + loaded + "\n"@,
                "# HELP "@ + "embed_cache_entries"@ + " "@
                    + "Vectors held in the embedding cache."@
                    + "\n# TYPE "@ + "embed_cache_entries"@ + " gauge\n"@ + "embed_cache_entries"@
                    + ""@ + " "@ + decimal_of(s.entries as nat) + "\n"@,
                "# HELP "@ + "embed_cache_capacity"@ + " "@
                    + "Most vectors the embedding cache will hold (0 = cache off)."@
                    + "\n# TYPE "@ + "embed_cache_capacity"@ + " gauge\n"@ + "embed_cache_capacity"@
                    + ""@ + " "@ + decimal_of(s.capacity as nat) + "\n"@,
                "# HELP "@ + "embed_idle_seconds"@ + " "@
                    + "Seconds since the last inference, or since boot if there has been none."@
                    + "\n# TYPE "@ + "embed_idle_seconds"@ + " gauge\n"@ + "embed_idle_seconds"@
                    + ""@ + " "@ + decimal_of(s.idle_secs as nat) + "\n"@,
                "# HELP "@ + "embed_idle_unload_seconds"@ + " "@
                    + "Idle time after which the model is unloaded (0 = never)."@
                    + "\n# TYPE "@ + "embed_idle_unload_seconds"@ + " gauge\n"@ + "embed_idle_unload_seconds"@
                    + ""@ + " "@ + decimal_of(s.unload_secs as nat) + "\n"@,
            ];
            r@ == gauges[0] + gauges[1] + gauges[2] + gauges[3] + gauges[4] + gauges[5]
        }),
{
    let mut labels: String = "{version=\"".to_owned();
    labels.append(version);
    labels.append("\",model=\"");
    labels.append(MODEL_LABEL);
    labels.append("\"}");
    let loaded: &str = if s.loaded {
        "1"
    } else {
        "0"
    };
    let mut out: String = String::new();
    append_gauge(&mut out, "embed_build_info", "Build identity.", labels.as_str(), "1");
    append_gauge(
        &mut out,
        "embed_model_loaded",
        "Model resident (1) or idle-unloaded (0).",
        "",
        loaded,
    );
    append_gauge(
        &mut out,
        "embed_cache_entries",
        "Vectors held in the embedding cache.",
        "",
        decimal(s.entries as u64).as_str(),
    );
    append_gauge(
        &mut out,
        "embed_cache_capacity",
        "Most vectors the embedding cache will hold (0 = cache off).",
        "",
        decimal(s.capacity as u64).as_str(),
    );
    append_gauge(
        &mut out,
        "embed_idle_seconds",
        "Seconds since the last inference, or since boot if there has been none.",
        "",
        decimal(s.idle_secs).as_str(),
    );
    append_gauge(
        &mut out,
        "embed_idle_unload_seconds",
        "Idle time after which the model is unloaded (0 = never).",
        "",
        decimal(s.unload_secs).as_str(),
    );
    assert(out@ =~= metrics_text(version@, *s));
    out
}

proof fn lemma_a_gauge_shows_its_value(name: Seq<char>, help: Seq<char>, value: Seq<char>)
    ensures
        gauge(name, help, ""@, value) == ("# HELP "@ + name + " "@ + help) + ("\n# TYPE "@ + name
            + " gauge\n"@ + name + " "@ + value + "\n"@),
{
    reveal_strlit("");
    assert(gauge(name, help, ""@, value) =~= ("# HELP "@ + name + " "@ + help) + ("\n# TYPE "@ + name
        + " gauge\n"@ + name + " "@ + value + "\n"@));
}

/// Every number of a reading is in the metrics, in decimal and whole, on a line of its own under its own name: the
/// text can be parted into what comes before that line, the line, and what comes after it.
pub proof fn law_every_number_is_shown_under_its_name(
    version: Seq<char>,
    s: Snapshot,
    name: Seq<char>,
    n: nat,
)
    requires
        ({
            ||| name == "embed_model_loaded"@ && n == if s.loaded { 1nat } else { 0nat }
            ||| name == "embed_cache_entries"@ && n == s.entries
            ||| name == "embed_cache_capacity"@ && n == s.capacity
            ||| name == "embed_idle_seconds"@ && n == s.idle_secs
            ||| name == "embed_idle_unload_seconds"@ && n == s.unload_secs
        }),
    ensures
        exists|before: Seq<char>, after: Seq<char>|
            metrics_text(version, s) == #[trigger] (before + ("\n# TYPE "@ + name + " gauge\n"@ + name
                + " "@ + decimal_of(n) + "\n"@) + after),
{
    let g0 = gauge("embed_build_info"@, "Build identity."@, build_labels(version), "1"@);
    let flag = if s.loaded {
        "1"@
    } else {
        "0"@
    };
    let h1 = "Model resident (1) or idle-unloaded (0)."@;
    let h2 = "Vectors held in the embedding cache."@;
    let h3 = "Most vectors the embedding cache will hold (0 = cache off)."@;
    let h4 = "Seconds since the last inference, or since boot if there has been none."@;
    let h5 = "Idle time after which the model is unloaded (0 = never)."@;
    let g1 = gauge("embed_model_loaded"@, h1, ""@, flag);
    let g2 = gauge("embed_cache_entries"@, h2, ""@, decimal_of(s.entries as nat));
    let g3 = gauge("embed_cache_capacity"@, h3, ""@, decimal_of(s.capacity as nat));
    let g4 = gauge("embed_idle_seconds"@, h4, ""@, decimal_of(s.idle_secs as nat));
    let g5 = gauge("embed_idle_unload_seconds"@, h5, ""@, decimal_of(s.unload_secs as nat));
    let text = metrics_text(version, s);
    let line = "\n# TYPE "@ + name + " gauge\n"@ + name + " "@ + decimal_of(n) + "\n"@;
    reveal_strlit("0");
    reveal_strlit("1");
    assert(decimal_of(0) =~= "0"@);
    assert(decimal_of(1) =~= "1"@);
    assert(text == g0 + g1 + g2 + g3 + g4 + g5);
    lemma_one_of_six(g0, g1, g2, g3, g4, g5);
    if name == "embed_model_loaded"@ && n == (if s.loaded { 1nat } else { 0nat }) {
        lemma_a_gauge_shows_its_value(name, h1, flag);
        lemma_within(text, g0, g1, "# HELP "@ + name + " "@ + h1, line, g2 + g3 + g4 + g5);
    } else if name == "embed_cache_entries"@ && n == s.entries {
        lemma_a_gauge_shows_its_value(name, h2, decimal_of(n));
        lemma_within(text, g0 + g1, g2, "# HELP "@ + name + " "@ + h2, line, g3 + g4 + g5);
    } else if name == "embed_cache_capacity"@ && n == s.capacity {
        lemma_a_gauge_shows_its_value(name, h3, decimal_of(n));
        lemma_within(text, g0 + g1 + g2, g3, "# HELP "@ + name + " "@ + h3, line, g4 + g5);
    } else if name == "embed_idle_seconds"@ && n == s.idle_secs {
        lemma_a_gauge_shows_its_value(name, h4, decimal_of(n));
        lemma_within(text, g0 + g1 + g2 + g3, g4, "# HELP "@ + name + " "@ + h4, line, g5);
    } else {
        lemma_a_gauge_shows_its_value(name, h5, decimal_of(n));
        lemma_within(
            text,
            g0 + g1 + g2 + g3 + g4,
            g5,
            "# HELP "@ + name + " "@ + h5,
            line,
            Seq::empty(),
        );
    }
}

proof fn lemma_one_of_six(
    a: Seq<char>,
    b: Seq<char>,
    c: Seq<char>,
    d: Seq<char>,
    e: Seq<char>,
    f: Seq<char>,
)
    ensures
        a + b + c + d + e + f == a + b + (c + d + e + f),
        a + b + c + d + e + f == (a + b) + c + (d + e + f),
        a + b + c + d + e + f == (a + b + c) + d + (e + f),
        a + b + c + d + e + f == (a + b + c + d) + e + f,
        a + b + c + d + e + f == (a + b + c + d + e) + f + Seq::empty(),
{
    let all = a + b + c + d + e + f;
    assert(all =~= a + b + (c + d + e + f));
    assert(all =~= (a + b) + c + (d + e + f));
    assert(all =~= (a + b + c) + d + (e + f));
    assert(all =~= (a + b + c + d + e) + f + Seq::empty());
}

proof fn lemma_within(
    text: Seq<char>,
    before: Seq<char>,
    gauge: Seq<char>,
    head: Seq<char>,
    line: Seq<char>,
    after: Seq<char>,
)
    requires
        text == before + gauge + after,
        gauge == head + line,
    ensures
        text == (before + head) + line + after,
{
    assert(before + (head + line) + after =~= (before + head) + line + after);
}

} // verus!
