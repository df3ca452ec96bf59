//! What the service answers over HTTP, and what it logs of a request.

use crate::auth::{metrics_authorized, presented};
use crate::config::Config;
use crate::embed::{DIMS, VECTOR_EPOCH};
use crate::key::MODEL_LABEL;
use crate::metrics::{metrics_text, render_metrics, Snapshot};
use crate::number::{decimal, decimal_of};
use crate::text::same_text;
use axum::http::Uri;
use vstd::prelude::*;
use vstd::string::*;
use vstd::utf8::encode_utf8;

verus! {

/// The release of this build, for people to read. It is no part of what identifies a vector.
pub const VERSION: &'static str = "0.1.0";

/// What the service says of itself.
pub struct HealthResp {
    pub status: &'static str,
    pub model: &'static str,
    pub dims: usize,
    /// The generation of the vectors. This, `dims` and `max_tokens` identify what a text's vector is;
    /// vectors of another generation cannot be compared with them.
    pub vector_epoch: u32,
    /// The release, for logs and error messages alone.
    pub runtime: String,
    /// Texts are cut to so many tokens, so another number gives other vectors for longer ones.
    pub max_tokens: usize,
}

/// What the service says of itself: always the same, whether or not the model is there.
pub fn health(cfg: &Config) -> (r: HealthResp)
    ensures
        r.status@ == "ok"@,
        r.model@ == MODEL_LABEL@,
        r.dims == 1024,
        r.vector_epoch == 1,
        r.runtime@ == "den-embed/"@ + VERSION@,
        r.max_tokens == cfg.max_tokens,
{
    HealthResp {
        status: "ok",
        model: MODEL_LABEL,
        dims: DIMS,
        vector_epoch: VECTOR_EPOCH,
        runtime: "den-embed/".to_owned().concat(VERSION),
        max_tokens: cfg.max_tokens,
    }
}

/// The answer to a request for one vector.
pub struct EmbedResp {
    pub vector: Vec<i32>,
    pub dims: usize,
    pub model: &'static str,
}

/// The answer that carries `vector`.
pub fn embed_resp(vector: Vec<i32>) -> (r: EmbedResp)
    ensures
        r.vector == vector,
        r.dims == 1024,
        r.model@ == MODEL_LABEL@,
{
    EmbedResp { vector, dims: DIMS, model: MODEL_LABEL }
}

/// The answer to a request for several vectors.
pub struct BatchResp {
    pub vectors: Vec<Vec<i32>>,
    pub dims: usize,
    pub model: &'static str,
}

/// The answer that carries `vectors`.
pub fn batch_resp(vectors: Vec<Vec<i32>>) -> (r: BatchResp)
    ensures
        r.vectors == vectors,
        r.dims == 1024,
        r.model@ == MODEL_LABEL@,
{
    BatchResp { vectors, dims: DIMS, model: MODEL_LABEL }
}

/// A header of a response, its name in lower case.
pub struct Header {
    pub name: &'static str,
    pub value: &'static str,
}

impl Header {
    /// Whether the header is `name` with `value`.
    pub open spec fn says(self, name: Seq<char>, value: Seq<char>) -> bool {
        self.name@ == name && self.value@ == value
    }
}

/// A response whose body is text.
pub struct Page {
    pub status: u16,
    pub headers: Vec<Header>,
    pub body: String,
}

impl Page {
    /// Whether the response carries the header `name` with `value`.
    pub open spec fn carries(self, name: Seq<char>, value: Seq<char>) -> bool {
        exists|i: int|
            0 <= i < self.headers@.len() && (#[trigger] self.headers@[i]).says(name, value)
    }

    /// The answer to a request for something that is not there.
    pub open spec fn is_not_found(self) -> bool {
        &&& self.status == 404
        &&& self.headers@.len() == 2
        &&& self.headers@[0].says("content-type"@, "application/json"@)
        &&& self.headers@[1].says("cache-control"@, "no-store"@)
        &&& self.body@ == "{\"error\":\"not_found\"}"@
    }

    /// The answer that shows the metrics.
    pub open spec fn shows_metrics(self, s: Snapshot) -> bool {
        &&& self.status == 200
        &&& self.headers@.len() == 2
        &&& self.headers@[0].says("content-type"@, "text/plain; version=0.0.4; charset=utf-8"@)
        &&& self.headers@[1].says("cache-control"@, "no-store"@)
        &&& self.body@ == metrics_text(VERSION@, s)
    }

    /// The answer to a browser that asks what it may send.
    pub open spec fn is_preflight(self) -> bool {
        &&& self.status == 204
        &&& self.headers@.len() == 4
        &&& self.headers@[0].says("access-control-allow-origin"@, "*"@)
        &&& self.headers@[1].says("access-control-allow-methods"@, "GET, HEAD, POST, OPTIONS"@)
        &&& self.headers@[2].says("access-control-allow-headers"@, "*"@)
        &&& self.headers@[3].says("access-control-max-age"@, "86400"@)
        &&& self.body@.len() == 0
    }
}

/// The answer to a request for something that is not there.
pub fn not_found() -> (r: Page)
    ensures
        r.is_not_found(),
        r.status == 404,
        r.body@ == "{\"error\":\"not_found\"}"@,
        r.headers@.len() == 2,
        r.headers@[0].name@ == "content-type"@ && r.headers@[0].value@ == "application/json"@,
        r.headers@[1].name@ == "cache-control"@ && r.headers@[1].value@ == "no-store"@,
{
    Page {
        status: 404,
        headers: vec![
            Header { name: "content-type", value: "application/json" },
            Header { name: "cache-control", value: "no-store" },
        ],
        body: "{\"error\":\"not_found\"}".to_owned(),
    }
}

/// The answer to a request for the metrics: they are shown to whoever presents the token, and to anyone
/// else, or where there is no token, they are not there.
pub fn metrics(want: Option<&str>, authorization: Option<&str>, s: &Snapshot) -> (r: Page)
    ensures
        (want matches Some(token) && presented(authorization) == token@) ==> r.shows_metrics(*s),
        !(want matches Some(token) && presented(authorization) == token@) ==> r.is_not_found(),
        (want matches Some(token) && presented(authorization) == token@) ==> {
            &&& r.status == 200
            &&& r.body@ == metrics_text(VERSION@, *s)
            &&& r.headers@.len() == 2
            &&& r.headers@[0].name@ == "content-type"@
            &&& r.headers@[0].value@ == "text/plain; version=0.0.4; charset=utf-8"@
            &&& r.headers@[1].name@ == "cache-control"@ && r.headers@[1].value@ == "no-store"@
        },
        !(want matches Some(token) && presented(authorization) == token@) ==> {
            &&& r.status == 404
            &&& r.body@ == "{\"error\":\"not_found\"}"@
            &&& r.headers@.len() == 2
            &&& r.headers@[0].name@ == "content-type"@
            &&& r.headers@[0].value@ == "application/json"@
            &&& r.headers@[1].name@ == "cache-control"@ && r.headers@[1].value@ == "no-store"@
        },
{
    if !metrics_authorized(want, authorization) {
        return not_found();
    }
    Page {
        status: 200,
        headers: vec![
            Header { name: "content-type", value: "text/plain; version=0.0.4; charset=utf-8" },
            Header { name: "cache-control", value: "no-store" },
        ],
        body: render_metrics(VERSION, s),
    }
}

/// What is done with a request before it is routed.
pub enum CorsStep {
    /// It is answered here and goes no further.
    Answer(Page),
    /// It is passed on, and the response to it, whatever it is, gets this header.
    Pass(Header),
}

/// What is done with a request by its method, whatever its path: a preflight is answered at once, so it
/// reaches no handler and uses nothing; the response to any other is made readable to every origin.
pub fn cors(method: &str) -> (r: CorsStep)
    ensures
        match r {
            CorsStep::Answer(page) => method@ == "OPTIONS"@ && page.is_preflight(),
            CorsStep::Pass(header) => method@ != "OPTIONS"@ && header.says(
                "access-control-allow-origin"@,
                "*"@,
            ),
        },
        r is Answer <==> method@ == "OPTIONS"@,
        r matches CorsStep::Answer(page) ==> page.status == 204 && page.body@.len() == 0
            && page.headers@.len() == 4 && page.headers@[0].name@ == "access-control-allow-origin"@
            && page.headers@[0].value@ == "*"@ && page.headers@[1].name@
            == "access-control-allow-methods"@ && page.headers@[1].value@
            == "GET, HEAD, POST, OPTIONS"@ && page.headers@[2].name@
            == "access-control-allow-headers"@ && page.headers@[2].value@ == "*"@
            && page.headers@[3].name@ == "access-control-max-age"@ && page.headers@[3].value@
            == "86400"@,
        r matches CorsStep::Pass(header) ==> header.name@ == "access-control-allow-origin"@
            && header.value@ == "*"@,
{
    if same_text(method, "OPTIONS") {
        return CorsStep::Answer(
            Page {
                status: 204,
                headers: vec![
                    Header { name: "access-control-allow-origin", value: "*" },
                    Header {
                        name: "access-control-allow-methods",
                        value: "GET, HEAD, POST, OPTIONS",
                    },
                    Header { name: "access-control-allow-headers", value: "*" },
                    Header { name: "access-control-max-age", value: "86400" },
                ],
                body: String::new(),
            },
        );
    }
    CorsStep::Pass(Header { name: "access-control-allow-origin", value: "*" })
}

/// Whatever is done with a request, its response is readable to every origin: the answer given at once
/// says so, and any other response gets the header that does.
pub proof fn law_every_response_is_readable_cross_origin(step: CorsStep, method: Seq<char>)
    requires
        match step {
            CorsStep::Answer(page) => method == "OPTIONS"@ && page.is_preflight(),
            CorsStep::Pass(header) => method != "OPTIONS"@ && header.says(
                "access-control-allow-origin"@,
                "*"@,
            ),
        },
    ensures
        match step {
            CorsStep::Answer(page) => page.carries("access-control-allow-origin"@, "*"@),
            CorsStep::Pass(header) => header.says("access-control-allow-origin"@, "*"@),
        },
{
    if let CorsStep::Answer(page) = step {
        assert(page.headers@[0].says("access-control-allow-origin"@, "*"@));
    }
}

/// A request for the metrics that is refused cannot be told from one for something that is not there:
/// the answers are the same in status, headers and body.
pub proof fn law_refusal_tells_nothing(refused: Page, missing: Page)
    requires
        refused.is_not_found(),
        missing.is_not_found(),
    ensures
        refused.status == missing.status,
        refused.body@ == missing.body@,
        refused.headers@.len() == missing.headers@.len(),
        forall|i: int|
            #![trigger refused.headers@[i]]
            0 <= i < refused.headers@.len() ==> refused.headers@[i].says(
                missing.headers@[i].name@,
                missing.headers@[i].value@,
            ),
{
}

/// The path of a request's target, where the target is a URI.
pub uninterp spec fn path_of(target: Seq<char>) -> Option<Seq<char>>;

/// What precedes the query and the fragment.
pub open spec fn before_query(target: Seq<char>) -> Seq<char>
    decreases target.len(),
{
    if target.len() == 0 || target[0] == '?' || target[0] == '#' {
        Seq::empty()
    } else {
        seq![target[0]] + before_query(target.skip(1))
    }
}

/// The most bytes that a URI may have.
pub const MAX_URI_BYTES: usize = 65_534;

/// A character that may stand in a path: of ASCII, those that can be seen save a few.
pub open spec fn path_char(c: char) -> bool {
    c >= '\u{80}' || ('!' <= c && c <= '~' && c != '#' && c != '<' && c != '>' && c != '?' && c != '`')
}

/// A character that may stand in a query.
pub open spec fn query_char(c: char) -> bool {
    c >= '\u{80}' || ('!' <= c && c <= '~' && c != '"' && c != '#' && c != '<' && c != '>')
}

/// Whether a path, or a query where `in_query` says so, may go on with these characters: a question mark
/// begins the query, and what stands behind a number sign is not looked at.
pub open spec fn goes_on(target: Seq<char>, in_query: bool) -> bool
    decreases target.len(),
{
    if target.len() == 0 || target[0] == '#' {
        true
    } else if !in_query && target[0] == '?' {
        goes_on(target.skip(1), true)
    } else if in_query {
        query_char(target[0]) && goes_on(target.skip(1), true)
    } else {
        path_char(target[0]) && goes_on(target.skip(1), false)
    }
}

/// The path of a target that starts with a slash, as a request to a server has it: what precedes the query
/// and the fragment, where the target is not too long and holds only characters that it may.
pub open spec fn origin_path(target: Seq<char>) -> Option<Seq<char>> {
    if encode_utf8(target).len() <= MAX_URI_BYTES && goes_on(target, false) {
        Some(before_query(target))
    } else {
        None
    }
}

/// `Uri::path` of the `http` crate, on a target read as a `Uri`; `None` where it is no URI. It depends
/// on the target alone and holds no question mark. Of a target that starts with a slash it is what
/// `origin_path` says; which others are URIs, and what their paths are, is left to the name `path_of`.
#[verifier::external_body]
fn uri_path(target: &str) -> (r: Option<String>)
    ensures
        match r {
            Some(path) => {
                &&& path_of(target@) == Some(path@)
                &&& !path@.contains('?')
                &&& target@.len() > 0 && target@[0] == '/' ==> origin_path(target@) == Some(path@)
            },
            None => {
                &&& path_of(target@) is None
                &&& target@.len() > 0 && target@[0] == '/' ==> origin_path(target@) is None
            },
        },
{
    target.parse::<Uri>().ok().map(|uri| uri.path().to_string())
}

/// The line for a request: method, path, status and how long it took.
pub open spec fn line_of(method: Seq<char>, path: Seq<char>, status: nat, took_ms: nat) -> Seq<
    char,
> {
    method + " "@ + path + " "@ + decimal_of(status) + " "@ + decimal_of(took_ms) + "ms"@
}

/// The line for a request to `path`.
pub fn log_line(method: &str, path: &str, status: u16, took_ms: u64) -> (r: String)
    ensures
        r@ == line_of(method@, path@, status as nat, took_ms as nat),
        r@ == method@ + " "@ + path@ + " "@ + decimal_of(status as nat) + " "@ + decimal_of(
            took_ms as nat,
        ) + "ms"@,
{
    let mut line: String = method.to_owned();
    line.append(" ");
    line.append(path);
    line.append(" ");
    line.append(decimal(status as u64).as_str());
    line.append(" ");
    line.append(decimal(took_ms).as_str());
    line.append("ms");
    line
}

/// The line for a request to `target`, with its path alone: the query holds what somebody searches for,
/// and must never reach a log. `None` where the target is no URI.
pub fn request_line(method: &str, target: &str, status: u16, took_ms: u64) -> (r: Option<String>)
    ensures
        match path_of(target@) {
            Some(path) => {
                &&& r matches Some(line) && line@ == line_of(
                    method@,
                    path,
                    status as nat,
                    took_ms as nat,
                )
                &&& !path.contains('?')
            },
            None => r is None,
        },
        target@.len() > 0 && target@[0] == '/' ==> path_of(target@) == origin_path(target@),
        r is Some <==> path_of(target@) is Some,
        r matches Some(line) ==> line@ == method@ + " "@ + path_of(target@)->0 + " "@ + decimal_of(
            status as nat,
        ) + " "@ + decimal_of(took_ms as nat) + "ms"@,
{
    match uri_path(target) {
        Some(path) => Some(log_line(method, path.as_str(), status, took_ms)),
        None => None,
    }
}

proof fn lemma_query_goes_on(query: Seq<char>, fragment: Seq<char>)
    requires
        !query.contains('#'),
        fragment.len() == 0 || fragment[0] == '#',
    ensures
        goes_on(query + fragment, true) <==> forall|i: int|
            0 <= i < query.len() ==> query_char(#[trigger] query[i]),
    decreases query.len(),
{
    let whole = query + fragment;
    if query.len() > 0 {
        let rest = query.skip(1);
        assert(query.contains(query[0]));
        assert(!rest.contains('#')) by {
            if rest.contains('#') {
                let i = choose|i: int| 0 <= i < rest.len() && rest[i] == '#';
                assert(query[i + 1] == '#');
            }
        }
        lemma_query_goes_on(rest, fragment);
        assert(whole.skip(1) =~= rest + fragment);
        if forall|i: int| 0 <= i < query.len() ==> query_char(#[trigger] query[i]) {
            assert forall|i: int| 0 <= i < rest.len() implies query_char(#[trigger] rest[i]) by {
                assert(query_char(query[i + 1]));
            }
        } else if query_char(query[0]) {
            let i = choose|i: int| 0 <= i < query.len() && !query_char(#[trigger] query[i]);
            assert(!query_char(rest[i - 1]));
        }
    } else {
        assert(whole =~= fragment);
    }
}

/// The rest of a target goes on as a target does exactly where every character of its path may stand in a path and
/// every character of its query in a query, whatever its fragment holds.
pub proof fn law_a_target_is_held_to_its_characters(
    path: Seq<char>,
    query: Option<Seq<char>>,
    fragment: Seq<char>,
)
    requires
        !path.contains('?'),
        !path.contains('#'),
        query matches Some(q) ==> !q.contains('#'),
        fragment.len() == 0 || fragment[0] == '#',
    ensures
        ({
            let rest = match query {
                Some(q) => seq!['?'] + q,
                None => Seq::empty(),
            };
            goes_on(path + (rest + fragment), false) <==> {
                &&& forall|i: int|
                    0 <= i < path.len() ==> {
                        ||| #[trigger] path[i] >= '\u{80}'
                        ||| '!' <= path[i] <= '~' && path[i] != '<' && path[i] != '>' && path[i] != '`'
                    }
                &&& query matches Some(q) ==> forall|i: int|
                    0 <= i < q.len() ==> {
                        ||| #[trigger] q[i] >= '\u{80}'
                        ||| '!' <= q[i] <= '~' && q[i] != '"' && q[i] != '<' && q[i] != '>'
                    }
            }
        }),
    decreases path.len(),
{
    let rest = match query {
        Some(q) => seq!['?'] + q,
        None => Seq::empty(),
    };
    let whole = path + (rest + fragment);
    if path.len() > 0 {
        let tail = path.skip(1);
        assert(path.contains(path[0]));
        assert forall|c: char| tail.contains(c) implies path.contains(c) by {
            let i = choose|i: int| 0 <= i < tail.len() && tail[i] == c;
            assert(path[i + 1] == c);
        }
        law_a_target_is_held_to_its_characters(tail, query, fragment);
        assert(whole.skip(1) =~= tail + (rest + fragment));
        assert(goes_on(whole, false) <==> path_char(path[0]) && goes_on(whole.skip(1), false));
        assert forall|i: int| 0 <= i < tail.len() implies #[trigger] tail[i] == path[i + 1] by {}
        assert forall|i: int| 0 < i < path.len() implies #[trigger] path[i] == tail[i - 1] by {}
    } else {
        assert(whole =~= rest + fragment);
        if let Some(q) = query {
            assert(whole.skip(1) =~= q + fragment);
            lemma_query_goes_on(q, fragment);
            assert forall|i: int| 0 <= i < q.len() implies #[trigger] q[i] != '#' by {
                assert(q.contains(q[i]));
            }
            assert(goes_on(whole, false) == goes_on(q + fragment, true));
            assert forall|i: int| 0 <= i < q.len() implies (query_char(#[trigger] q[i]) <==> q[i]
                >= '\u{80}' || ('!' <= q[i] <= '~' && q[i] != '"' && q[i] != '<' && q[i] != '>')) by {}
        } else {
            assert(whole =~= fragment);
        }
    }
}

/// The path of a target that starts with a slash is there exactly where the target is not too long and holds
/// what it may, and is what precedes the query and the fragment.
pub proof fn law_a_target_has_a_path_where_it_is_in_order(target: Seq<char>)
    ensures
        origin_path(target) is Some <==> encode_utf8(target).len() <= 65_534 && goes_on(target, false),
        origin_path(target) matches Some(path) ==> path == before_query(target),
{
}

/// What precedes the query and the fragment is all of a target up to the first question mark or number sign, or
/// the whole of it where it has neither.
pub proof fn law_the_path_ends_where_the_query_or_the_fragment_begins(target: Seq<char>)
    ensures
        ({
            let path = before_query(target);
            &&& path.is_prefix_of(target)
            &&& !path.contains('?')
            &&& !path.contains('#')
            &&& path.len() < target.len() ==> target[path.len() as int] == '?'
                || target[path.len() as int] == '#'
        }),
    decreases target.len(),
{
    if target.len() > 0 && target[0] != '?' && target[0] != '#' {
        let rest = target.skip(1);
        law_the_path_ends_where_the_query_or_the_fragment_begins(rest);
        let path = before_query(target);
        let tail = before_query(rest);
        assert forall|i: int| 0 <= i < path.len() implies path[i] == target[i] && path[i] != '?'
            && path[i] != '#' by {
            if i > 0 {
                assert(path[i] == tail[i - 1]);
                assert(tail[i - 1] == rest[i - 1]);
                assert(tail.contains(tail[i - 1]));
            }
        }
        assert(path =~= target.subrange(0, path.len() as int));
        if path.len() < target.len() {
            assert(target[path.len() as int] == rest[tail.len() as int]);
        }
    } else {
        assert(before_query(target) =~= target.subrange(0, 0));
    }
}

/// What precedes the query does not depend on the query.
pub proof fn law_the_query_is_left_out(path: Seq<char>, query: Seq<char>)
    requires
        !path.contains('?'),
        !path.contains('#'),
    ensures
        before_query(path + seq!['?'] + query) == path,
    decreases path.len(),
{
    let whole = path + seq!['?'] + query;
    if path.len() > 0 {
        let rest = path.skip(1);
        assert(path.contains(path[0]));
        assert forall|c: char| rest.contains(c) implies path.contains(c) by {
            let i = choose|i: int| 0 <= i < rest.len() && rest[i] == c;
            assert(path[i + 1] == c);
        }
        law_the_query_is_left_out(rest, query);
        assert(whole.skip(1) =~= rest + seq!['?'] + query);
        assert(seq![path[0]] + rest =~= path);
    } else {
        assert(whole[0] == '?');
        assert(before_query(whole) =~= path);
    }
}

} // verus!
