//! The service's configuration, read from the texts of its environment variables.

use crate::number::{
    decimal_of, digits_value, is_digit, is_digits, parse_number, parsed, unsigned,
};
use crate::settings::{
    env_clamped, given, law_a_setting_is_a_number_or_the_default, malformed, quoted_text,
    setting_number, setting_value, setting_warning, unusable_line, Setting,
};
use crate::text::{
    blank, law_blank_is_trimmed_away, law_trimming_takes_the_white_space_around, same_text, trim,
    trimmed, white_space,
};
use vstd::prelude::*;
use vstd::string::*;

verus! {

/// The environment variables that the service reads: each `None` where it is unset.
pub struct Environment {
    pub port: Option<String>,
    pub model_dir: Option<String>,
    pub onnx_path: Option<String>,
    pub tokenizer_path: Option<String>,
    pub idle_unload_secs: Option<String>,
    pub max_chars: Option<String>,
    pub max_tokens: Option<String>,
    pub max_request_tokens: Option<String>,
    pub max_batch: Option<String>,
    pub max_body_bytes: Option<String>,
    pub cache_max_entries: Option<String>,
    pub intra_threads: Option<String>,
    pub metrics_token: Option<String>,
    pub log_requests: Option<String>,
}

/// What the service runs with.
pub struct Config {
    /// The port to listen on, on every interface.
    pub port: u16,
    pub onnx_path: String,
    pub tokenizer_path: String,
    /// Characters of one text that are looked at.
    pub max_chars: usize,
    /// Tokens of one text that reach the model. Memory grows faster than linearly with them, so this
    /// is what bounds it: characters do not, since some scripts give a token per character or more.
    pub max_tokens: usize,
    /// Tokens of one whole request, which is what costs time.
    pub max_request_tokens: usize,
    /// Texts of one request.
    pub max_batch: usize,
    pub max_body_bytes: usize,
    /// Vectors that the cache holds at most; 0 turns it off.
    pub cache_max: usize,
    /// Seconds without an inference after which the model is dropped; `None` keeps it.
    pub idle_unload: Option<u64>,
    /// Threads of one inference; 0 leaves the number to the runtime.
    pub intra_threads: usize,
    /// The token that opens the metrics; `None` turns them off.
    pub metrics_token: Option<String>,
    /// Whether each request is logged.
    pub log_requests: bool,
}

/// The characters of an optional string.
pub open spec fn chars_of(s: Option<String>) -> Option<Seq<char>> {
    match s {
        Some(t) => Some(t@),
        None => None,
    }
}

/// The characters of each string.
pub open spec fn lines_of(s: Seq<String>) -> Seq<Seq<char>> {
    s.map_values(|t: String| t@)
}

/// `lines`, with `line` behind them where there is one.
pub open spec fn with_line(lines: Seq<Seq<char>>, line: Option<Seq<char>>) -> Seq<Seq<char>> {
    match line {
        Some(l) => lines.push(l),
        None => lines,
    }
}

/// The text of a variable, or `default` where it is unset.
pub open spec fn or_else(s: Option<String>, default: Seq<char>) -> Seq<char> {
    match s {
        Some(t) => t@,
        None => default,
    }
}

/// The value of a numeric setting.
pub open spec fn number_of(raw: Option<String>, default: nat, min: nat, max: nat) -> nat {
    setting_value(chars_of(raw), default, min, max)
}

/// The port that a text names: 8080 where it is unset or names none.
pub open spec fn port_of(raw: Option<String>) -> nat {
    match raw {
        Some(t) => match parsed(t@, u16::MAX as nat) {
            Some(p) => p,
            None => 8080,
        },
        None => 8080,
    }
}

/// The line to log for the port: one where its text names no port.
pub open spec fn port_warning(raw: Option<String>) -> Option<Seq<char>> {
    match raw {
        Some(t) => if parsed(t@, u16::MAX as nat) is None {
            Some(unusable_line("PORT"@, quoted_text(t@), "port"@, 8080))
        } else {
            None
        },
        None => None,
    }
}

/// A token is what is left of its text after trimming, and none where nothing is left.
pub open spec fn token_of(raw: Option<String>) -> Option<Seq<char>> {
    match raw {
        Some(t) => if trimmed(t@).len() == 0 {
            None
        } else {
            Some(trimmed(t@))
        },
        None => None,
    }
}

/// A switch is off where its text is unset, blank or a zero, and on otherwise.
pub open spec fn switch_of(raw: Option<String>) -> bool {
    match raw {
        Some(t) => !(trimmed(t@) == ""@ || trimmed(t@) == "0"@),
        None => false,
    }
}

/// A length of time in seconds: none where it is zero.
pub open spec fn seconds_of(n: nat) -> Option<u64> {
    if n > 0 {
        Some(n as u64)
    } else {
        None
    }
}

/// The lines to log for the whole environment, in the order in which its settings are read.
pub open spec fn warnings_of(env: Environment) -> Seq<Seq<char>> {
    let none = Seq::<Seq<char>>::empty();
    let a = with_line(
        none,
        setting_warning("IDLE_UNLOAD_SECS"@, chars_of(env.idle_unload_secs), 0, 0, 86_400),
    );
    let b = with_line(a, port_warning(env.port));
    let c = with_line(
        b,
        setting_warning("MAX_CHARS"@, chars_of(env.max_chars), 8000, 500, 100_000),
    );
    let d = with_line(
        c,
        setting_warning("MAX_TOKENS"@, chars_of(env.max_tokens), 512, 16, 1024),
    );
    let e = with_line(
        d,
        setting_warning(
            "MAX_REQUEST_TOKENS"@,
            chars_of(env.max_request_tokens),
            8192,
            512,
            12_288,
        ),
    );
    let f = with_line(
        e,
        setting_warning("MAX_BATCH"@, chars_of(env.max_batch), 512, 1, 4096),
    );
    let g = with_line(
        f,
        setting_warning(
            "MAX_BODY_BYTES"@,
            chars_of(env.max_body_bytes),
            4_194_304,
            65_536,
            16_777_216,
        ),
    );
    let h = with_line(
        g,
        setting_warning("CACHE_MAX_ENTRIES"@, chars_of(env.cache_max_entries), 8192, 0, 32_768),
    );
    with_line(h, setting_warning("INTRA_THREADS"@, chars_of(env.intra_threads), 0, 0, 256))
}

impl Config {
    /// The configuration that an environment asks for.
    pub open spec fn read_from(self, env: Environment) -> bool {
        let dir = or_else(env.model_dir, "/models"@);
        &&& self.port == port_of(env.port)
        &&& self.onnx_path@ == or_else(env.onnx_path, dir + "/model_int8.onnx"@)
        &&& self.tokenizer_path@ == or_else(env.tokenizer_path, dir + "/tokenizer.json"@)
        &&& self.max_chars == number_of(env.max_chars, 8000, 500, 100_000)
        &&& self.max_tokens == number_of(env.max_tokens, 512, 16, 1024)
        &&& self.max_request_tokens == number_of(env.max_request_tokens, 8192, 512, 12_288)
        &&& self.max_batch == number_of(env.max_batch, 512, 1, 4096)
        &&& self.max_body_bytes == number_of(env.max_body_bytes, 4_194_304, 65_536, 16_777_216)
        &&& self.cache_max == number_of(env.cache_max_entries, 8192, 0, 32_768)
        &&& self.idle_unload == seconds_of(number_of(env.idle_unload_secs, 0, 0, 86_400))
        &&& self.intra_threads == number_of(env.intra_threads, 0, 0, 256)
        &&& chars_of(self.metrics_token) == token_of(env.metrics_token)
        &&& self.log_requests == switch_of(env.log_requests)
    }

    /// Every bound that the settings are held to.
    pub open spec fn bounded(self) -> bool {
        &&& 500 <= self.max_chars <= 100_000
        &&& 16 <= self.max_tokens <= 1024
        &&& 512 <= self.max_request_tokens <= 12_288
        &&& 1 <= self.max_batch <= 4096
        &&& 65_536 <= self.max_body_bytes <= 16_777_216
        &&& self.cache_max <= 32_768
        &&& self.intra_threads <= 256
        &&& self.idle_unload matches Some(secs) ==> 1 <= secs <= 86_400
        &&& self.metrics_token matches Some(t) ==> t@.len() > 0
    }

    /// The configuration that `env` asks for, and the lines to log about it.
    #[verifier::rlimit(50)]
    pub fn from_env(env: &Environment) -> (r: (Config, Vec<String>))
        ensures
            r.0.read_from(*env),
            r.0.bounded(),
            lines_of(r.1@) == warnings_of(*env),
            r.1@.len() == warnings_of(*env).len(),
            forall|i: int| 0 <= i < r.1@.len() ==> (#[trigger] r.1@[i])@ == warnings_of(*env)[i],
    {
        let mut lines: Vec<String> = Vec::new();
        assert(lines_of(lines@) =~= Seq::<Seq<char>>::empty());
        let model_dir: String = text_or(&env.model_dir, "/models");
        let onnx_path: String = file_or(&env.onnx_path, &model_dir, "/model_int8.onnx");
        let tokenizer_path: String = file_or(&env.tokenizer_path, &model_dir, "/tokenizer.json");
        let idle: usize = numeric(&mut lines, "IDLE_UNLOAD_SECS", &env.idle_unload_secs, 0, 0, 86_400);
        let port: u16 = port_number(&mut lines, &env.port);
        let max_chars: usize = numeric(
            &mut lines,
            "MAX_CHARS",
            &env.max_chars,
            8000,
            500,
            100_000,
        );
        let max_tokens: usize = numeric(&mut lines, "MAX_TOKENS", &env.max_tokens, 512, 16, 1024);
        let max_request_tokens: usize = numeric(
            &mut lines,
            "MAX_REQUEST_TOKENS",
            &env.max_request_tokens,
            8192,
            512,
            12_288,
        );
        let max_batch: usize = numeric(&mut lines, "MAX_BATCH", &env.max_batch, 512, 1, 4096);
        let max_body_bytes: usize = numeric(
            &mut lines,
            "MAX_BODY_BYTES",
            &env.max_body_bytes,
            4_194_304,
            65_536,
            16_777_216,
        );
        let cache_max: usize = numeric(
            &mut lines,
            "CACHE_MAX_ENTRIES",
            &env.cache_max_entries,
            8192,
            0,
            32_768,
        );
        let intra_threads: usize = numeric(
            &mut lines,
            "INTRA_THREADS",
            &env.intra_threads,
            0,
            0,
            256,
        );
        let config: Config = Config {
            port,
            onnx_path,
            tokenizer_path,
            max_chars,
            max_tokens,
            max_request_tokens,
            max_batch,
            max_body_bytes,
            cache_max,
            idle_unload: if idle > 0 {
                Some(idle as u64)
            } else {
                None
            },
            intra_threads,
            metrics_token: token(&env.metrics_token),
            log_requests: switch(&env.log_requests),
        };
        proof {
            assert(lines_of(lines@).len() == lines@.len());
            assert forall|i: int| 0 <= i < lines@.len() implies (#[trigger] lines@[i])@
                == warnings_of(*env)[i] by {
                assert(lines_of(lines@)[i] == lines@[i]@);
            }
        }
        (config, lines)
    }
}

fn text_or(raw: &Option<String>, default: &str) -> (r: String)
    ensures
        r@ == or_else(*raw, default@),
{
    match raw {
        Some(t) => t.clone(),
        None => default.to_owned(),
    }
}

fn file_or(raw: &Option<String>, dir: &String, file: &str) -> (r: String)
    ensures
        r@ == or_else(*raw, dir@ + file@),
{
    match raw {
        Some(t) => t.clone(),
        None => dir.clone().concat(file),
    }
}

fn numeric(
    lines: &mut Vec<String>,
    key: &str,
    raw: &Option<String>,
    default: usize,
    min: usize,
    max: usize,
) -> (r: usize)
    requires
        min <= default <= max,
    ensures
        r == number_of(*raw, default as nat, min as nat, max as nat),
        min <= r <= max,
        lines_of(final(lines)@) == with_line(
            lines_of(old(lines)@),
            setting_warning(key@, chars_of(*raw), default as nat, min as nat, max as nat),
        ),
{
    let text: Option<&str> = match raw {
        Some(t) => Some(t.as_str()),
        None => None,
    };
    assert(given(text) == chars_of(*raw));
    let setting: Setting = env_clamped(key, text, default, min, max);
    let ghost before = lines@;
    if let Some(line) = setting.warning {
        lines.push(line);
        assert(lines_of(lines@) =~= lines_of(before).push(line@));
    }
    setting.value
}

fn port_number(lines: &mut Vec<String>, raw: &Option<String>) -> (r: u16)
    ensures
        r == port_of(*raw),
        lines_of(final(lines)@) == with_line(lines_of(old(lines)@), port_warning(*raw)),
{
    match raw {
        None => 8080,
        Some(t) => match parse_number(t.as_str(), u16::MAX as u64) {
            Some(p) => p as u16,
            None => {
                let line: String = malformed("PORT", t.as_str(), "port", 8080);
                let ghost before = lines@;
                let ghost text = line@;
                lines.push(line);
                assert(lines_of(lines@) =~= lines_of(before).push(text));
                8080
            },
        },
    }
}

fn token(raw: &Option<String>) -> (r: Option<String>)
    ensures
        chars_of(r) == token_of(*raw),
{
    match raw {
        None => None,
        Some(t) => {
            let t: &str = trim(t.as_str());
            if t.is_empty() {
                None
            } else {
                Some(t.to_owned())
            }
        },
    }
}

fn switch(raw: &Option<String>) -> (r: bool)
    ensures
        r == switch_of(*raw),
{
    match raw {
        None => false,
        Some(t) => {
            let t: &str = trim(t.as_str());
            !(same_text(t, "") || same_text(t, "0"))
        },
    }
}

/// No environment undoes the bounds that keep the service inside its memory and its callers' patience:
/// at 0.33 s per 512 tokens the largest request takes under 10 s, and the model at its largest token
/// cap (1219 MB) and a full cache (4.2 KB an entry) stay under 1400 MB together.
pub proof fn law_ceilings_hold_together(cfg: Config)
    requires
        cfg.bounded(),
    ensures
        cfg.max_request_tokens * 33 < 10 * 512 * 100,
        cfg.max_tokens <= 1024,
        1219 * 10_240 + cfg.cache_max * 42 < 1400 * 10_240,
{
}

/// Whatever the environment holds, the configuration read from it is within every bound.
pub proof fn law_every_environment_is_bounded(cfg: Config, env: Environment)
    requires
        cfg.read_from(env),
    ensures
        cfg.bounded(),
{
}

/// A port is never replaced in silence: with no line to log, it is the one that was written.
pub proof fn law_no_silent_change_of_port(text: String)
    requires
        port_warning(Some(text)) is None,
    ensures
        parsed(text@, u16::MAX as nat) == Some(port_of(Some(text))),
{
}

/// Every numeric setting is what its variable says: the default where the variable is unset or its text, without
/// the white space around it, is no number; the number that is written where it lies within the bounds, and
/// the nearer bound where it does not. A time without use after which the model is dropped is 0 where it never
/// is.
#[verifier::rlimit(50)]
pub proof fn law_every_number_is_read(
    cfg: Config,
    env: Environment,
    raw: Option<String>,
    value: nat,
    default: nat,
    min: nat,
    max: nat,
)
    requires
        cfg.read_from(env),
        ({
            let idle: nat = match cfg.idle_unload {
                Some(secs) => secs as nat,
                None => 0,
            };
            let bounds = (default, min, max);
            ||| raw == env.idle_unload_secs && value == idle && bounds == (0nat, 0nat, 86_400nat)
            ||| raw == env.max_chars && value == cfg.max_chars as nat && bounds == (8000nat, 500nat, 100_000nat)
            ||| raw == env.max_tokens && value == cfg.max_tokens as nat && bounds == (512nat, 16nat, 1024nat)
            ||| raw == env.max_request_tokens && value == cfg.max_request_tokens as nat && bounds == (8192nat, 512nat, 12_288nat)
            ||| raw == env.max_batch && value == cfg.max_batch as nat && bounds == (512nat, 1nat, 4096nat)
            ||| raw == env.max_body_bytes && value == cfg.max_body_bytes as nat && bounds == (4_194_304nat, 65_536nat, 16_777_216nat)
            ||| raw == env.cache_max_entries && value == cfg.cache_max as nat && bounds == (8192nat, 0nat, 32_768nat)
            ||| raw == env.intra_threads && value == cfg.intra_threads as nat && bounds == (0nat, 0nat, 256nat)
        }),
    ensures
        raw is None ==> value == default,
        raw matches Some(t) ==> {
            let text = trimmed(t@);
            let from: int = if text.len() > 0 && text[0] == '+' { 1 } else { 0 };
            let v = digits_value(text.skip(from));
            if from < text.len() && (forall|i: int|
                from <= i < text.len() ==> '0' <= #[trigger] text[i] <= '9') {
                &&& min <= v <= max ==> value == v
                &&& v < min ==> value == min
                &&& v > max ==> value == max
            } else {
                value == default
            }
        },
{
    if let Some(t) = raw {
        law_a_setting_is_a_number_or_the_default(t@, default, min, max);
    }
}

/// No number is replaced in silence: where no line to log begins with a setting's name and an equals sign, the
/// setting is its default if its variable is unset, and otherwise the number that is written there.
#[verifier::rlimit(50)]
pub proof fn law_no_number_is_changed_in_silence(
    cfg: Config,
    env: Environment,
    key: Seq<char>,
    raw: Option<String>,
    value: nat,
    default: nat,
    min: nat,
    max: nat,
)
    requires
        cfg.read_from(env),
        ({
            let idle: nat = match cfg.idle_unload {
                Some(secs) => secs as nat,
                None => 0,
            };
            let bounds = (default, min, max);
            ||| key == "IDLE_UNLOAD_SECS"@ && raw == env.idle_unload_secs && value == idle && bounds == (0nat, 0nat, 86_400nat)
            ||| key == "MAX_CHARS"@ && raw == env.max_chars && value == cfg.max_chars as nat && bounds == (8000nat, 500nat, 100_000nat)
            ||| key == "MAX_TOKENS"@ && raw == env.max_tokens && value == cfg.max_tokens as nat && bounds == (512nat, 16nat, 1024nat)
            ||| key == "MAX_REQUEST_TOKENS"@ && raw == env.max_request_tokens && value == cfg.max_request_tokens as nat && bounds == (8192nat, 512nat, 12_288nat)
            ||| key == "MAX_BATCH"@ && raw == env.max_batch && value == cfg.max_batch as nat && bounds == (512nat, 1nat, 4096nat)
            ||| key == "MAX_BODY_BYTES"@ && raw == env.max_body_bytes && value == cfg.max_body_bytes as nat && bounds == (4_194_304nat, 65_536nat, 16_777_216nat)
            ||| key == "CACHE_MAX_ENTRIES"@ && raw == env.cache_max_entries && value == cfg.cache_max as nat && bounds == (8192nat, 0nat, 32_768nat)
            ||| key == "INTRA_THREADS"@ && raw == env.intra_threads && value == cfg.intra_threads as nat && bounds == (0nat, 0nat, 256nat)
        }),
        forall|i: int|
            0 <= i < warnings_of(env).len() ==> !(key + "="@).is_prefix_of(
                #[trigger] warnings_of(env)[i],
            ),
    ensures
        raw is None ==> value == default,
        raw matches Some(t) ==> {
            let text = trimmed(t@);
            let from: int = if text.len() > 0 && text[0] == '+' { 1 } else { 0 };
            &&& from < text.len()
            &&& forall|i: int| from <= i < text.len() ==> '0' <= #[trigger] text[i] <= '9'
            &&& value == digits_value(text.skip(from))
        },
{
    if let Some(t) = raw {
        let warning = setting_warning(key, chars_of(raw), default, min, max);
        assert(warning is Some ==> warnings_of(env).contains(warning->0)) by {
            lemma_every_line_is_there(env);
        }
        lemma_a_line_begins_with_its_setting(warnings_of(env), key, t@, default, min, max);
        assert(value == number_of(raw, default, min, max));
        law_a_setting_is_a_number_or_the_default(t@, default, min, max);
    }
}

proof fn lemma_a_line_begins_with_its_setting(
    lines: Seq<Seq<char>>,
    key: Seq<char>,
    text: Seq<char>,
    default: nat,
    min: nat,
    max: nat,
)
    requires
        setting_warning(key, Some(text), default, min, max) matches Some(l) ==> lines.contains(l),
        forall|i: int| 0 <= i < lines.len() ==> !(key + "="@).is_prefix_of(#[trigger] lines[i]),
    ensures
        setting_warning(key, Some(text), default, min, max) is None,
{
    if let Some(line) = setting_warning(key, Some(text), default, min, max) {
        let i = choose|i: int| 0 <= i < lines.len() && lines[i] == line;
        assert((key + "="@) =~= line.subrange(0, (key + "="@).len() as int));
        assert((key + "="@).is_prefix_of(lines[i]));
    }
}

proof fn lemma_with_line_keeps(lines: Seq<Seq<char>>, line: Option<Seq<char>>)
    ensures
        forall|l: Seq<char>| lines.contains(l) ==> #[trigger] with_line(lines, line).contains(l),
        line matches Some(l) ==> with_line(lines, line).contains(l),
{
    if let Some(new) = line {
        let all = with_line(lines, line);
        assert forall|l: Seq<char>| lines.contains(l) implies #[trigger] all.contains(l) by {
            let i = choose|i: int| 0 <= i < lines.len() && lines[i] == l;
            assert(all[i] == l);
        }
        assert(all[lines.len() as int] == new);
    }
}

#[verifier::rlimit(50)]
proof fn lemma_every_line_is_there(env: Environment)
    ensures
        setting_warning("IDLE_UNLOAD_SECS"@, chars_of(env.idle_unload_secs), 0, 0, 86_400) matches Some(l)
            ==> warnings_of(env).contains(l),
        setting_warning("MAX_CHARS"@, chars_of(env.max_chars), 8000, 500, 100_000) matches Some(l)
            ==> warnings_of(env).contains(l),
        setting_warning("MAX_TOKENS"@, chars_of(env.max_tokens), 512, 16, 1024) matches Some(l)
            ==> warnings_of(env).contains(l),
        setting_warning("MAX_REQUEST_TOKENS"@, chars_of(env.max_request_tokens), 8192, 512, 12_288) matches Some(l)
            ==> warnings_of(env).contains(l),
        setting_warning("MAX_BATCH"@, chars_of(env.max_batch), 512, 1, 4096) matches Some(l)
            ==> warnings_of(env).contains(l),
        setting_warning("MAX_BODY_BYTES"@, chars_of(env.max_body_bytes), 4_194_304, 65_536, 16_777_216) matches Some(l)
            ==> warnings_of(env).contains(l),
        setting_warning("CACHE_MAX_ENTRIES"@, chars_of(env.cache_max_entries), 8192, 0, 32_768) matches Some(l)
            ==> warnings_of(env).contains(l),
        setting_warning("INTRA_THREADS"@, chars_of(env.intra_threads), 0, 0, 256) matches Some(l)
            ==> warnings_of(env).contains(l),
        port_warning(env.port) matches Some(l) ==> warnings_of(env).contains(l),
{
    let l0 = Seq::<Seq<char>>::empty();
    let w0 = setting_warning("IDLE_UNLOAD_SECS"@, chars_of(env.idle_unload_secs), 0, 0, 86_400);
    let l1 = with_line(l0, w0);
    lemma_with_line_keeps(l0, w0);
    let w1 = port_warning(env.port);
    let l2 = with_line(l1, w1);
    lemma_with_line_keeps(l1, w1);
    let w2 = setting_warning("MAX_CHARS"@, chars_of(env.max_chars), 8000, 500, 100_000);
    let l3 = with_line(l2, w2);
    lemma_with_line_keeps(l2, w2);
    let w3 = setting_warning("MAX_TOKENS"@, chars_of(env.max_tokens), 512, 16, 1024);
    let l4 = with_line(l3, w3);
    lemma_with_line_keeps(l3, w3);
    let w4 = setting_warning("MAX_REQUEST_TOKENS"@, chars_of(env.max_request_tokens), 8192, 512, 12_288);
    let l5 = with_line(l4, w4);
    lemma_with_line_keeps(l4, w4);
    let w5 = setting_warning("MAX_BATCH"@, chars_of(env.max_batch), 512, 1, 4096);
    let l6 = with_line(l5, w5);
    lemma_with_line_keeps(l5, w5);
    let w6 = setting_warning("MAX_BODY_BYTES"@, chars_of(env.max_body_bytes), 4_194_304, 65_536, 16_777_216);
    let l7 = with_line(l6, w6);
    lemma_with_line_keeps(l6, w6);
    let w7 = setting_warning("CACHE_MAX_ENTRIES"@, chars_of(env.cache_max_entries), 8192, 0, 32_768);
    let l8 = with_line(l7, w7);
    lemma_with_line_keeps(l7, w7);
    let w8 = setting_warning("INTRA_THREADS"@, chars_of(env.intra_threads), 0, 0, 256);
    let l9 = with_line(l8, w8);
    lemma_with_line_keeps(l8, w8);
    assert(warnings_of(env) == l9);
}

/// A line to log comes behind those that there are, and they stay as they are; of each string, the characters are
/// taken, all of them and in their place.
pub proof fn law_lines_are_kept_in_their_order(
    lines: Seq<Seq<char>>,
    line: Seq<char>,
    strings: Seq<String>,
)
    ensures
        with_line(lines, None) == lines,
        with_line(lines, Some(line)).len() == lines.len() + 1,
        with_line(lines, Some(line)).last() == line,
        with_line(lines, Some(line)).drop_last() == lines,
        lines_of(strings).len() == strings.len(),
        forall|i: int| 0 <= i < strings.len() ==> #[trigger] lines_of(strings)[i] == strings[i]@,
{
    assert(with_line(lines, Some(line)).drop_last() =~= lines);
}

/// There is one line for each variable that is not in order, and no other.
pub proof fn law_each_variable_has_a_line_at_most(env: Environment)
    ensures
        ({
            let said = |warning: Option<Seq<char>>|
                if warning is Some {
                    1int
                } else {
                    0int
                };
            warnings_of(env).len() == said(port_warning(env.port))
                + said(setting_warning("IDLE_UNLOAD_SECS"@, chars_of(env.idle_unload_secs), 0, 0, 86_400))
                + said(setting_warning("MAX_CHARS"@, chars_of(env.max_chars), 8000, 500, 100_000))
                + said(setting_warning("MAX_TOKENS"@, chars_of(env.max_tokens), 512, 16, 1024))
                + said(setting_warning("MAX_REQUEST_TOKENS"@, chars_of(env.max_request_tokens), 8192, 512, 12_288))
                + said(setting_warning("MAX_BATCH"@, chars_of(env.max_batch), 512, 1, 4096))
                + said(setting_warning("MAX_BODY_BYTES"@, chars_of(env.max_body_bytes), 4_194_304, 65_536, 16_777_216))
                + said(setting_warning("CACHE_MAX_ENTRIES"@, chars_of(env.cache_max_entries), 8192, 0, 32_768))
                + said(setting_warning("INTRA_THREADS"@, chars_of(env.intra_threads), 0, 0, 256))
        }),
{
}

/// Where every variable is unset or in order, there is no line to log.
pub proof fn law_nothing_is_said_of_what_is_in_order(env: Environment)
    requires
        env.idle_unload_secs matches Some(t) ==> setting_number(t@) is Some && 0 <= setting_number(t@)->0 <= 86_400,
        env.max_chars matches Some(t) ==> setting_number(t@) is Some && 500 <= setting_number(t@)->0 <= 100_000,
        env.max_tokens matches Some(t) ==> setting_number(t@) is Some && 16 <= setting_number(t@)->0 <= 1024,
        env.max_request_tokens matches Some(t) ==> setting_number(t@) is Some && 512 <= setting_number(t@)->0 <= 12_288,
        env.max_batch matches Some(t) ==> setting_number(t@) is Some && 1 <= setting_number(t@)->0 <= 4096,
        env.max_body_bytes matches Some(t) ==> setting_number(t@) is Some && 65_536 <= setting_number(t@)->0 <= 16_777_216,
        env.cache_max_entries matches Some(t) ==> setting_number(t@) is Some && 0 <= setting_number(t@)->0 <= 32_768,
        env.intra_threads matches Some(t) ==> setting_number(t@) is Some && 0 <= setting_number(t@)->0 <= 256,
        env.port matches Some(t) ==> parsed(t@, 65_535) is Some,
    ensures
        warnings_of(env).len() == 0,
{
}

/// The port is what its variable says: 8080 where the variable is unset or its text is anything but a number up
/// to 65535, which then is said; else that number. White space around it is not taken away.
pub proof fn law_the_port_is_read(cfg: Config, env: Environment)
    requires
        cfg.read_from(env),
    ensures
        env.port is None ==> cfg.port == 8080,
        env.port matches Some(t) ==> {
            let from: int = if t@.len() > 0 && t@[0] == '+' { 1 } else { 0 };
            let v = digits_value(t@.skip(from));
            if from < t@.len() && v <= 65_535 && (forall|i: int|
                from <= i < t@.len() ==> '0' <= #[trigger] t@[i] <= '9') {
                cfg.port == v
            } else {
                &&& cfg.port == 8080
                &&& warnings_of(env).contains(
                    "PORT="@ + quoted_text(t@) + " is not a port; using the default 8080"@,
                )
            }
        },
{
    if let Some(t) = env.port {
        let from: int = if t@.len() > 0 && t@[0] == '+' { 1 } else { 0 };
        let digits = unsigned(t@);
        assert(digits =~= t@.skip(from));
        if from < t@.len() && (forall|i: int|
            from <= i < t@.len() ==> '0' <= #[trigger] t@[i] <= '9') {
            assert forall|i: int| 0 <= i < digits.len() implies is_digit(#[trigger] digits[i]) by {
                assert('0' <= t@[i + from] <= '9');
            }
            assert(is_digits(digits));
        } else if from < t@.len() {
            let i = choose|i: int| from <= i < t@.len() && !('0' <= #[trigger] t@[i] <= '9');
            assert(!is_digit(digits[i - from]));
            assert(!is_digits(digits));
        }
        lemma_every_line_is_there(env);
        lemma_port_line(t@);
    }
}

proof fn lemma_port_line(text: Seq<char>)
    ensures
        unusable_line("PORT"@, quoted_text(text), "port"@, 8080) == "PORT="@ + quoted_text(text)
            + " is not a port; using the default 8080"@,
{
    reveal_strlit("PORT");
    reveal_strlit("=");
    reveal_strlit("PORT=");
    reveal_strlit(" is not a ");
    reveal_strlit("port");
    reveal_strlit("; using the default ");
    reveal_strlit(" is not a port; using the default 8080");
    reveal_with_fuel(decimal_of, 5);
    assert(decimal_of(8080) =~= seq!['8', '0', '8', '0']);
    assert("PORT"@ + "="@ =~= "PORT="@);
    assert(" is not a "@ + "port"@ + "; using the default "@ + seq!['8', '0', '8', '0']
        =~= " is not a port; using the default 8080"@);
    assert(unusable_line("PORT"@, quoted_text(text), "port"@, 8080) =~= ("PORT"@ + "="@) + quoted_text(
        text,
    ) + (" is not a "@ + "port"@ + "; using the default "@ + seq!['8', '0', '8', '0']));
}

/// Each of the model's two files is where its own variable says; where that is unset, it is under its own name
/// in the model's directory, which is `/models` where no other is set.
pub proof fn law_the_files_are_where_they_are_said_to_be(cfg: Config, env: Environment)
    requires
        cfg.read_from(env),
    ensures
        env.onnx_path matches Some(p) ==> cfg.onnx_path@ == p@,
        env.tokenizer_path matches Some(p) ==> cfg.tokenizer_path@ == p@,
        env.onnx_path is None && env.model_dir is Some ==> cfg.onnx_path@ == env.model_dir->0@
            + "/model_int8.onnx"@,
        env.tokenizer_path is None && env.model_dir is Some ==> cfg.tokenizer_path@
            == env.model_dir->0@ + "/tokenizer.json"@,
        env.onnx_path is None && env.model_dir is None ==> cfg.onnx_path@
            == "/models/model_int8.onnx"@,
        env.tokenizer_path is None && env.model_dir is None ==> cfg.tokenizer_path@
            == "/models/tokenizer.json"@,
{
    reveal_strlit("/models");
    reveal_strlit("/model_int8.onnx");
    reveal_strlit("/tokenizer.json");
    reveal_strlit("/models/model_int8.onnx");
    reveal_strlit("/models/tokenizer.json");
    assert("/models"@ + "/model_int8.onnx"@ =~= "/models/model_int8.onnx"@);
    assert("/models"@ + "/tokenizer.json"@ =~= "/models/tokenizer.json"@);
}

/// The token is what is set, whatever white space stands around it, and every character of it counts.
pub proof fn law_the_token_is_what_is_set(
    cfg: Config,
    env: Environment,
    before: Seq<char>,
    core: Seq<char>,
    after: Seq<char>,
)
    requires
        cfg.read_from(env),
        env.metrics_token is Some,
        env.metrics_token->0@ == before + core + after,
        forall|i: int| 0 <= i < before.len() ==> white_space(#[trigger] before[i]),
        forall|i: int| 0 <= i < after.len() ==> white_space(#[trigger] after[i]),
        core.len() > 0,
        !white_space(core[0]),
        !white_space(core[core.len() - 1]),
    ensures
        cfg.metrics_token is Some,
        cfg.metrics_token->0@ == core,
{
    law_trimming_takes_the_white_space_around(before, core, after);
}

/// Requests are logged exactly where the switch is set to something that is neither blank nor a zero, whatever
/// white space stands around it.
pub proof fn law_the_switch_is_off_only_where_it_is_blank_or_zero(
    cfg: Config,
    env: Environment,
    before: Seq<char>,
    core: Seq<char>,
    after: Seq<char>,
)
    requires
        cfg.read_from(env),
        env.log_requests matches Some(t) ==> {
            &&& t@ == before + core + after
            &&& forall|i: int| 0 <= i < before.len() ==> white_space(#[trigger] before[i])
            &&& forall|i: int| 0 <= i < after.len() ==> white_space(#[trigger] after[i])
            &&& core.len() > 0 ==> !white_space(core[0]) && !white_space(core[core.len() - 1])
        },
    ensures
        env.log_requests is None ==> !cfg.log_requests,
        env.log_requests is Some ==> (cfg.log_requests <==> core.len() > 0 && core != seq!['0']),
{
    reveal_strlit("");
    reveal_strlit("0");
    if env.log_requests is Some {
        law_trimming_takes_the_white_space_around(before, core, after);
        assert(core.len() == 0 ==> core =~= ""@);
        assert("0"@ =~= seq!['0']);
    }
}

/// A token that is unset or blank turns the metrics off.
pub proof fn law_blank_token_is_none(cfg: Config, env: Environment)
    requires
        cfg.read_from(env),
        env.metrics_token matches Some(t) ==> blank(t@),
    ensures
        cfg.metrics_token is None,
{
    if let Some(t) = env.metrics_token {
        law_blank_is_trimmed_away(t@);
    }
}

/// How many seconds a stop waits for requests in flight where nothing else is asked for.
pub const DEFAULT_DRAIN_GRACE: usize = 8;

/// The longest such wait that still ends before a container runtime that was told nothing kills the
/// process, which it does after ten seconds.
pub const MAX_DRAIN_GRACE: usize = 9;

/// How many seconds a stop waits for requests in flight.
pub fn drain_grace(raw: Option<&str>) -> (r: Setting)
    ensures
        r.value == setting_value(given(raw), 8, 1, 9),
        r.warning_text() == setting_warning("DRAIN_GRACE_SECS"@, given(raw), 8, 1, 9),
        1 <= r.value < 10,
        raw is None ==> r.value == 8 && r.warning is None,
        raw matches Some(t) ==> {
            let text = trimmed(t@);
            let from: int = if text.len() > 0 && text[0] == '+' { 1 } else { 0 };
            let v = digits_value(text.skip(from));
            if from < text.len() && (forall|i: int|
                from <= i < text.len() ==> '0' <= #[trigger] text[i] <= '9') {
                &&& 1 <= v <= 9 ==> r.value == v
                &&& v < 1 ==> r.value == 1
                &&& v > 9 ==> r.value == 9
                &&& r.warning is None <==> 1 <= v <= 9
            } else {
                r.value == 8 && r.warning is Some
            }
        },
{
    env_clamped("DRAIN_GRACE_SECS", raw, DEFAULT_DRAIN_GRACE, 1, MAX_DRAIN_GRACE)
}

} // verus!
