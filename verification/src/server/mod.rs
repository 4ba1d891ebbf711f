//! What the local HTTP server answers.
//!
//! It serves one endpoint per dialect (`POST /v1/messages` and
//! `POST /v1/chat/completions`) plus a merged `GET /v1/models` listing that
//! satisfies both Anthropic and OpenAI clients.
//!
//! Security: it binds loopback by default and requires a local token. Anything
//! that can reach this port can spend the configured API keys.

pub mod pipeline;
pub mod trial;

use std::sync::Arc;

use crate::config::{AppConfig, ConfigV, ProviderConfig, ProviderV, ServerConfig, ServerV};
use crate::error;
use crate::error::{Error, ErrorV};
use crate::headers;
use crate::headers::is_header_value;
use crate::ir::{Capability, Dialect};
use crate::json;
use crate::json::{array, js, texts, whole, Build, Fields, Json, Tree};
use crate::registry;
use crate::registry::{InfoV, ModelInfo, Registry};
use crate::router;
use crate::router::{Candidate, CandidateV, Router, RouterV};
use crate::stats;
use crate::stats::{Stats, StatsV};
use crate::text;
use crate::text::{concat, concat3, contains, same, strip_prefix, trim};
use crate::views;
use vstd::prelude::*;
use vstd::utf8::encode_utf8_decode_utf8;

verus! {

broadcast use crate::views::group_views;

// --------------------------------------------------------------------- state

/// Everything a request handler needs.
///
/// Fields are private so nothing outside can leave the registry out of step with
/// the configuration it was built from.
pub struct AppState {
    /// The registry of the configuration, swapped with it.
    registry: Registry,
    router: Router,
    stats: Stats,
}

pub struct StateV {
    pub config: ConfigV,
    pub router: RouterV,
    pub stats: StatsV,
}

impl View for AppState {
    type V = StateV;

    closed spec fn view(&self) -> StateV {
        StateV { config: self.registry@, router: self.router@, stats: self.stats@ }
    }
}

/// The key of a provider: none where it needs none, and what the secret store holds
/// where that is not empty.
pub open spec fn key_of(p: ProviderV, secret: Option<Seq<char>>) -> Result<Option<Seq<char>>, ErrorV> {
    if p.key_ref.len() == 0 {
        Ok(None)
    } else {
        match secret {
            Some(k) => if k.len() > 0 {
                Ok(Some(k))
            } else {
                Err(ErrorV::MissingApiKey(p.name))
            },
            None => Err(ErrorV::MissingApiKey(p.name)),
        }
    }
}

/// Resolve a provider's secret, failing loudly when one is expected but absent.
/// `secret` is what the secret store holds under the provider's reference.
pub fn api_key(provider: &ProviderConfig, secret: Option<String>) -> (r: Result<Option<String>, Error>)
    ensures
        match r {
            Ok(k) => key_of(provider@, views::opt(secret)) == Ok::<Option<Seq<char>>, ErrorV>(views::opt(k)),
            Err(e) => key_of(provider@, views::opt(secret)) == Err::<Option<Seq<char>>, ErrorV>(e@),
        },
{
    if provider.key_ref.as_str().unicode_len() == 0 {
        return Ok(None);
    }
    match secret {
        Some(k) => {
            if k.as_str().unicode_len() > 0 {
                Ok(Some(k))
            } else {
                Err(Error::MissingApiKey(provider.name.clone()))
            }
        },
        None => Err(Error::MissingApiKey(provider.name.clone())),
    }
}

impl AppState {
    /// A state that starts at `now` (unix seconds).
    pub fn starting_at(config: AppConfig, now: i64) -> (r: AppState)
        ensures
            r@ == (StateV {
                config: config@,
                router: router::new_router(),
                stats: StatsV::fresh(config.server.log_limit, now),
            }),
    {
        let limit = config.server.log_limit;
        AppState {
            registry: Registry::new(Arc::new(config)),
            router: Router::new(),
            stats: Stats::starting_at(limit, now),
        }
    }

    pub fn new(config: AppConfig) -> (r: AppState)
        ensures
            r@ == (StateV {
                config: config@,
                router: router::new_router(),
                stats: StatsV::fresh(config.server.log_limit, r@.stats.since),
            }),
    {
        AppState::starting_at(config, crate::draw::unix_now())
    }

    pub fn router(&mut self) -> (r: &mut Router)
        ensures
            r@ == old(self)@.router,
            final(self)@ == (StateV { router: final(r)@, ..old(self)@ }),
    {
        &mut self.router
    }

    pub fn stats(&mut self) -> (r: &mut Stats)
        ensures
            r@ == old(self)@.stats,
            final(self)@ == (StateV { stats: final(r)@, ..old(self)@ }),
    {
        &mut self.stats
    }

    pub fn config(&self) -> (r: Arc<AppConfig>)
        ensures
            (*r)@ == self@.config,
    {
        self.registry.snapshot()
    }

    pub fn registry(&self) -> (r: &Registry)
        ensures
            r@ == self@.config,
    {
        &self.registry
    }

    /// Swap in a new configuration, and its registry with it.
    pub fn set_config(&mut self, config: AppConfig)
        ensures
            final(self)@ == (StateV {
                config: config@,
                router: old(self)@.router,
                stats: old(self)@.stats.limited(config.server.log_limit),
            }),
    {
        self.stats.set_limit(config.server.log_limit);
        self.registry = Registry::new(Arc::new(config));
    }
}

// ------------------------------------------------------------------- routes

/// Every path the proxy answers on, in the order the docs list them.
pub open spec fn endpoints() -> Seq<Seq<char>> {
    Seq::empty().push("/v1/messages"@).push("/v1/messages/count_tokens"@).push("/v1/chat/completions"@).push(
        "/v1/models"@,
    ).push("/v1/models/{id}"@).push("/v1/status"@).push("/health"@)
}

fn endpoint_list() -> (r: Json)
    ensures
        r@ == json::text_list(endpoints()),
{
    let mut list: Vec<String> = Vec::new();
    list.push("/v1/messages".to_owned());
    list.push("/v1/messages/count_tokens".to_owned());
    list.push("/v1/chat/completions".to_owned());
    list.push("/v1/models".to_owned());
    list.push("/v1/models/{id}".to_owned());
    list.push("/v1/status".to_owned());
    list.push("/health".to_owned());
    assert(views::of(list@) =~= endpoints());
    texts(&list)
}

/// The dialect of the client that most likely asked for a path.
pub open spec fn likely_dialect(path: Seq<char>) -> Dialect {
    if text::occurs(path, "messages"@) || text::occurs(path, "count_tokens"@) {
        Dialect::Anthropic
    } else {
        Dialect::OpenAI
    }
}

/// What may help whoever asked for an unknown path.
pub open spec fn route_hint(path: Seq<char>) -> Seq<(Seq<char>, Tree)> {
    let hint = json::fs().with("endpoints"@, json::text_list(endpoints()));
    if "/v1/v1/"@.is_prefix_of(path) {
        hint.with(
            "likely_cause"@,
            json::st(
                "the base URL already ends in /v1 and the client added another; drop the /v1 from the base URL and this becomes /v1/"@
                    + path.skip("/v1/v1/"@.len() as int),
            ),
        )
    } else {
        hint
    }
}

/// The error of an unknown path.
pub open spec fn route_error(method: Seq<char>, path: Seq<char>) -> ErrorV {
    ErrorV::UnknownRoute(method + " "@ + path)
}

/// Answer an unknown path with something a human can act on.
///
/// Only route names are listed, never configuration: this runs before
/// authentication, because an unmatched path never reaches the auth layer.
pub fn unknown_route(method: &str, path: &str) -> (r: (u16, Json))
    ensures
        r.0 == 404,
        r.1@ == route_error(method@, path@).wire(likely_dialect(path@)).with_field(
            "zroutery"@,
            Tree::Obj(route_hint(path@)),
        ),
{
    let error = Error::UnknownRoute(concat3(method, " ", path));
    // Anthropic clients parse a different error envelope, so answer in the shape
    // the caller is most likely to understand.
    let dialect = if contains(path, "messages") || contains(path, "count_tokens") {
        Dialect::Anthropic
    } else {
        Dialect::OpenAI
    };
    let mut hint = Fields::new().with("endpoints", endpoint_list());
    // The usual cause: a base URL that already ends in /v1 while the client
    // appends /v1 as well, which the Anthropic SDKs do.
    if let Some(rest) = strip_prefix(path, "/v1/v1/") {
        let cause = concat(
            "the base URL already ends in /v1 and the client added another; drop the /v1 from the base URL and this becomes /v1/",
            rest,
        );
        hint = hint.with("likely_cause", js(cause.as_str()));
    }
    let mut body = error.to_wire(dialect);
    body.set_field("zroutery", hint.done());
    (error.status(), body)
}

/// A path without the `/v1` that may stand in front.
pub open spec fn unversioned(path: Seq<char>) -> Seq<char> {
    if "/v1"@.is_prefix_of(path) {
        path.skip("/v1"@.len() as int)
    } else {
        path
    }
}

/// The verb that a path wants: the lists, one model, the status and the health
/// check are read, everything else is posted to.
pub open spec fn wanted_verb(path: Seq<char>) -> Seq<char> {
    let p = unversioned(path);
    if p == "/models"@ || "/models/"@.is_prefix_of(p) || p == "/status"@ || p == "/health"@ {
        "GET"@
    } else {
        "POST"@
    }
}

/// The answer to a verb that a path does not take.
pub open spec fn wrong_verb(method: Seq<char>, path: Seq<char>) -> Tree {
    let message = path + " is a "@ + wanted_verb(path) + " endpoint, not "@ + method;
    Tree::Obj(
        json::fs().with(
            "error"@,
            Tree::Obj(
                json::fs().with("message"@, json::st(message)).with("type"@, json::st("invalid_request_error"@)).with(
                    "code"@,
                    json::st("method_not_allowed"@),
                ),
            ),
        ).with("zroutery"@, Tree::Obj(json::fs().with("endpoints"@, json::text_list(endpoints())))),
    )
}

/// The path exists but not for this verb. Say which one it wants, since an empty
/// 405 reads exactly like a broken proxy.
///
/// Like the 404 handler this runs before authentication, so it names routes and
/// nothing else. That a well known path exists is already public.
pub fn wrong_method(method: &str, path: &str) -> (r: (u16, Json))
    ensures
        r.0 == 405,
        r.1@ == wrong_verb(method@, path@),
{
    let plain = match strip_prefix(path, "/v1") {
        Some(rest) => rest,
        None => path,
    };
    let wanted = if same(plain, "/models") || strip_prefix(plain, "/models/").is_some() || same(plain, "/status")
        || same(plain, "/health") {
        "GET"
    } else {
        "POST"
    };
    let front = concat3(path, " is a ", wanted);
    let message = concat3(front.as_str(), " endpoint, not ", method);
    let error = Fields::new().with("message", js(message.as_str())).with("type", js("invalid_request_error")).with(
        "code",
        js("method_not_allowed"),
    ).done();
    let hint = Fields::new().with("endpoints", endpoint_list()).done();
    (405, Fields::new().with("error", error).with("zroutery", hint).done())
}

/// The origins from the `i`th on that a header can hold, trimmed, behind `sofar`.
pub open spec fn origins_from(list: Seq<Seq<char>>, i: int, sofar: Seq<Seq<char>>) -> Seq<Seq<char>>
    decreases list.len() - i,
{
    if i < 0 || i >= list.len() {
        sofar
    } else if headers::is_value(text::trimmed(list[i])) {
        origins_from(list, i + 1, sofar.push(text::trimmed(list[i])))
    } else {
        origins_from(list, i + 1, sofar)
    }
}

/// Which origins browsers may call from.
#[derive(Debug, PartialEq)]
pub enum Cors {
    /// None: CORS is off.
    Off,
    /// Any.
    Any,
    /// These and no others.
    Only(Vec<String>),
}

pub enum CorsV {
    Off,
    Any,
    Only(Seq<Seq<char>>),
}

impl View for Cors {
    type V = CorsV;

    open spec fn view(&self) -> CorsV {
        match self {
            Cors::Off => CorsV::Off,
            Cors::Any => CorsV::Any,
            Cors::Only(list) => CorsV::Only(views::of(list@)),
        }
    }
}

/// The origins that browsers may call from: none where CORS is off, any where no
/// origin is configured, otherwise those configured that a header can hold.
pub open spec fn admitted_origins(allow_cors: bool, configured: Seq<Seq<char>>) -> CorsV {
    if !allow_cors {
        CorsV::Off
    } else if configured.len() == 0 {
        CorsV::Any
    } else {
        CorsV::Only(origins_from(configured, 0, Seq::empty()))
    }
}

/// The origins that browsers may call from. An empty list means any origin.
///
/// A malformed origin is dropped rather than rejected: the rest still works. A list
/// of nothing but malformed origins admits none.
pub fn cors_origins(server: &ServerConfig) -> (r: Cors)
    ensures
        r@ == admitted_origins(server.allow_cors, server@.cors_origins),
{
    if !server.allow_cors {
        return Cors::Off;
    }
    if server.cors_origins.len() == 0 {
        return Cors::Any;
    }
    let ghost all = server@.cors_origins;
    let mut out: Vec<String> = Vec::new();
    for i in 0..server.cors_origins.len()
        invariant
            all == views::of(server.cors_origins@),
            origins_from(all, 0, Seq::empty()) == origins_from(all, i as int, views::of(out@)),
    {
        assert(all[i as int] == server.cors_origins@[i as int]@);
        let origin = trim(server.cors_origins[i].as_str());
        if is_header_value(origin) {
            out.push(origin.to_owned());
        }
    }
    Cors::Only(out)
}

// --------------------------------------------------------------------- auth

/// Length-independent comparison to avoid leaking the token via timing.
pub fn constant_time_eq(a: &[u8], b: &[u8]) -> (r: bool)
    ensures
        r == (a@ == b@),
{
    if a.len() != b.len() {
        return false;
    }
    let mut diff: u8 = 0;
    assert(a@.take(0) =~= b@.take(0));
    for i in 0..a.len()
        invariant
            a@.len() == b@.len(),
            diff == 0 <==> a@.take(i as int) == b@.take(i as int),
    {
        let x = a[i];
        let y = b[i];
        assert((diff | (x ^ y)) == 0 <==> (diff == 0 && x == y)) by (bit_vector);
        proof {
            let n = i as int;
            assert(a@.take(n + 1) =~= a@.take(n).push(x));
            assert(b@.take(n + 1) =~= b@.take(n).push(y));
            if a@.take(n + 1) == b@.take(n + 1) {
                assert(a@.take(n + 1)[n] == b@.take(n + 1)[n]);
                assert(a@.take(n) =~= a@.take(n + 1).take(n));
                assert(b@.take(n) =~= b@.take(n + 1).take(n));
            }
        }
        diff = diff | (x ^ y);
    }
    assert(a@.take(a@.len() as int) =~= a@);
    assert(b@.take(b@.len() as int) =~= b@);
    diff == 0
}

/// The token that a request shows: its key header, else what follows `Bearer ` in
/// its authorization header.
pub open spec fn shown_token(api_key: Option<Seq<char>>, authorization: Option<Seq<char>>) -> Option<Seq<char>> {
    match api_key {
        Some(k) => Some(k),
        None => match authorization {
            Some(a) => if "Bearer "@.is_prefix_of(a) {
                Some(a.skip("Bearer "@.len() as int))
            } else {
                None
            },
            None => None,
        },
    }
}

/// Whether a request may pass: authentication is off, or it shows the token and
/// there is one.
pub open spec fn may_pass(server: ServerV, api_key: Option<Seq<char>>, authorization: Option<Seq<char>>) -> bool {
    ||| !server.require_auth
    ||| server.auth_token.len() > 0 && shown_token(api_key, authorization) == Some(server.auth_token)
}

/// Whether a request may pass. `api_key` and `authorization` are its `x-api-key` and
/// `Authorization` headers, where they are text.
pub fn authorized(server: &ServerConfig, api_key: Option<&str>, authorization: Option<&str>) -> (r: bool)
    ensures
        r == may_pass(server@, views::opt_str(api_key), views::opt_str(authorization)),
{
    if !server.require_auth {
        return true;
    }
    let presented: Option<&str> = match api_key {
        Some(k) => Some(k),
        None => match authorization {
            Some(a) => strip_prefix(a, "Bearer "),
            None => None,
        },
    };
    let expected = server.auth_token.as_str();
    match presented {
        Some(token) => {
            if expected.unicode_len() > 0 {
                proof {
                    encode_utf8_decode_utf8(token@);
                    encode_utf8_decode_utf8(expected@);
                }
                constant_time_eq(token.as_bytes(), expected.as_bytes())
            } else {
                false
            }
        },
        None => false,
    }
}

// ----------------------------------------------------------------- handlers

/// Why a request body could not be read.
#[derive(Debug)]
pub enum BodyFault {
    /// It is over the limit.
    TooLarge,
    /// It is no JSON, or not declared as such.
    Malformed(String),
}

/// The error of a body that could not be read.
///
/// A body over the limit is a different problem from malformed JSON, and
/// clients back off differently for 413 than for 400.
pub fn body_error(server: &ServerConfig, fault: BodyFault) -> (r: Error)
    ensures
        r@ == match fault {
            BodyFault::TooLarge => ErrorV::TooLarge { limit_mib: server.max_body_mib },
            BodyFault::Malformed(m) => ErrorV::InvalidRequest(m@),
        },
{
    match fault {
        BodyFault::TooLarge => Error::TooLarge { limit_mib: server.max_body_mib },
        BodyFault::Malformed(m) => Error::InvalidRequest(m),
    }
}

/// The status and the body that tell a client of an error.
pub fn error_response(dialect: Dialect, err: &Error) -> (r: (u16, Json))
    ensures
        r.0 == err@.status(),
        r.1@ == err@.wire(dialect),
{
    (err.status(), err.to_wire(dialect))
}

/// Liveness probe. Says nothing about the configuration on purpose: it is the
/// only route that does not require the token.
pub fn health() -> (r: Json)
    ensures
        r@ == Tree::Obj(json::fs().with("status"@, json::st("ok"@))),
{
    Fields::new().with("status", js("ok")).done()
}

/// How many of the providers from `i` on are in use.
pub open spec fn in_use_from(providers: Seq<ProviderV>, i: int) -> int
    decreases providers.len() - i,
{
    if i < 0 || i >= providers.len() {
        0
    } else {
        in_use_from(providers, i + 1) + if providers[i].enabled {
            1int
        } else {
            0
        }
    }
}

/// The detail that `/health` keeps to itself, behind authentication.
pub fn status(registry: &Registry, version: &str) -> (r: Json)
    ensures
        r@ == Tree::Obj(
            json::fs().with("status"@, json::st("ok"@)).with("version"@, json::st(version@)).with(
                "models"@,
                json::num(registry::listing(registry@).len() as int),
            ).with("providers"@, json::num(in_use_from(registry@.providers, 0))).with(
                "auth_required"@,
                Tree::Bool(registry@.server.require_auth),
            ),
        ),
{
    let config = registry.config();
    let list = registry.list();
    let ghost all = registry@.providers;
    let mut n: u64 = 0;
    let total: usize = config.providers.len();
    let mut i: usize = total;
    assert(in_use_from(all, i as int) == 0);
    while i > 0
        invariant
            total == config.providers@.len(),
            i <= total,
            all == views::of(config.providers@),
            n == in_use_from(all, i as int),
            n <= total - i,
        decreases i,
    {
        i = i - 1;
        assert(all[i as int] == config.providers@[i as int]@);
        if config.providers[i].enabled {
            n = n + 1;
        }
    }
    assert(views::of(list@).len() == list@.len());
    Fields::new().with("status", js("ok")).with("version", js(version)).with(
        "models",
        Json::UInt(list.len() as u64),
    ).with("providers", Json::UInt(n)).with("auth_required", Json::Bool(config.server.require_auth)).done()
}

/// An optional text as a value.
pub open spec fn opt_text(s: Option<Seq<char>>) -> Tree {
    match s {
        Some(t) => json::st(t),
        None => Tree::Null,
    }
}

/// One listing entry, carrying both the Anthropic and the OpenAI field names.
pub open spec fn listed_model(info: InfoV, created: i64, created_at: Seq<char>) -> Tree {
    Tree::Obj(
        json::fs().with("id"@, json::st(info.id)).with("object"@, json::st("model"@)).with(
            "type"@,
            json::st("model"@),
        ).with("created"@, json::integer(created)).with("created_at"@, json::st(created_at)).with(
            "display_name"@,
            json::st(info.display_name),
        ).with(
            "owned_by"@,
            json::st(
                match info.provider_name {
                    Some(p) => p,
                    None => "zroutery"@,
                },
            ),
        ).with(
            "zroutery"@,
            Tree::Obj(
                json::fs().with(
                    "class"@,
                    opt_text(
                        match info.class {
                            Some(c) => Some(c.name()),
                            None => None,
                        },
                    ),
                ).with("virtual"@, Tree::Bool(info.virtual_model)).with(
                    "member_count"@,
                    json::num(info.member_count),
                ).with("provider"@, opt_text(info.provider_name)).with(
                    "supports_tools"@,
                    Tree::Bool(info.supports_tools),
                ).with("supports_vision"@, Tree::Bool(info.supports_vision)).with(
                    "supports_thinking"@,
                    Tree::Bool(info.supports_thinking),
                ),
            ),
        ),
    )
}

/// One listing entry, carrying both the Anthropic and the OpenAI field names.
/// `created` and `created_at` are the time of the listing, as a Unix timestamp and
/// in words.
pub fn model_json(info: &ModelInfo, created: i64, created_at: &str) -> (r: Json)
    ensures
        r@ == listed_model(info@, created, created_at@),
{
    let owner = match &info.provider_name {
        Some(p) => js(p.as_str()),
        None => js("zroutery"),
    };
    let provider = match &info.provider_name {
        Some(p) => js(p.as_str()),
        None => Json::Null,
    };
    let class = match &info.class {
        Some(c) => js(c.as_str()),
        None => Json::Null,
    };
    let own = Fields::new().with("class", class).with("virtual", Json::Bool(info.virtual_model)).with(
        "member_count",
        Json::UInt(info.member_count as u64),
    ).with("provider", provider).with("supports_tools", Json::Bool(info.supports_tools)).with(
        "supports_vision",
        Json::Bool(info.supports_vision),
    ).with("supports_thinking", Json::Bool(info.supports_thinking)).done();
    Fields::new().with("id", js(info.id.as_str())).with("object", js("model")).with("type", js("model")).with(
        "created",
        whole(created),
    ).with("created_at", js(created_at)).with("display_name", js(info.display_name.as_str())).with(
        "owned_by",
        owner,
    ).with("zroutery", own).done()
}

/// The listing that `GET /v1/models` answers with.
pub open spec fn model_listing(list: Seq<InfoV>, created: i64, created_at: Seq<char>) -> Tree {
    Tree::Obj(
        json::fs().with("object"@, json::st("list"@)).with(
            "data"@,
            Tree::Arr(Seq::new(list.len(), |i: int| listed_model(list[i], created, created_at))),
        ).with("has_more"@, Tree::Bool(false)).with(
            "first_id"@,
            json::st(
                if list.len() > 0 {
                    list[0].id
                } else {
                    ""@
                },
            ),
        ).with(
            "last_id"@,
            json::st(
                if list.len() > 0 {
                    list.last().id
                } else {
                    ""@
                },
            ),
        ),
    )
}

/// The listing that `GET /v1/models` answers with.
pub fn list_models(registry: &Registry, created: i64, created_at: &str) -> (r: Json)
    ensures
        r@ == model_listing(registry::listing(registry@), created, created_at@),
{
    let list = registry.list();
    let ghost all = views::of(list@);
    let n = list.len();
    let mut items: Vec<Json> = Vec::new();
    for i in 0..n
        invariant
            all == views::of(list@),
            n == list@.len(),
            items@.len() == i,
            forall|j: int| 0 <= j < i ==> (#[trigger] items@[j])@ == listed_model(all[j], created, created_at@),
    {
        assert(all[i as int] == list@[i as int]@);
        items.push(model_json(&list[i], created, created_at));
    }
    assert(views::of(items@) =~= Seq::new(all.len(), |i: int| listed_model(all[i], created, created_at@)));
    assert(n > 0 ==> all[0] == list@[0]@ && all.last() == list@[n - 1]@);
    let first = if n > 0 {
        js(list[0].id.as_str())
    } else {
        js("")
    };
    let last = if n > 0 {
        js(list[n - 1].id.as_str())
    } else {
        js("")
    };
    Fields::new().with("object", js("list")).with("data", array(items)).with("has_more", Json::Bool(false)).with(
        "first_id",
        first,
    ).with("last_id", last).done()
}

/// The first entry from `i` on with that id.
pub open spec fn info_from(list: Seq<InfoV>, id: Seq<char>, i: int) -> Option<InfoV>
    decreases list.len() - i,
{
    if i < 0 || i >= list.len() {
        None
    } else if list[i].id == id {
        Some(list[i])
    } else {
        info_from(list, id, i + 1)
    }
}

/// The listing entry that `GET /v1/models/{id}` answers with.
pub fn get_model(registry: &Registry, id: &str, created: i64, created_at: &str) -> (r: Result<Json, Error>)
    ensures
        error::outcome(r) == match info_from(registry::listing(registry@), id@, 0) {
            Some(info) => Ok::<Tree, ErrorV>(listed_model(info, created, created_at@)),
            None => Err(ErrorV::UnknownModel(id@)),
        },
{
    let list = registry.list();
    let ghost all = registry::listing(registry@);
    for i in 0..list.len()
        invariant
            all == views::of(list@),
            all == registry::listing(registry@),
            info_from(all, id@, 0) == info_from(all, id@, i as int),
    {
        assert(all[i as int] == list@[i as int]@);
        if same(list[i].id.as_str(), id) {
            return Ok(model_json(&list[i], created, created_at));
        }
    }
    Err(Error::UnknownModel(id.to_owned()))
}

/// What the model that would answer charges, as numbers to be shown.
#[derive(Debug)]
pub struct PriceTag {
    pub currency: String,
    /// What the prompt alone would cost.
    pub input_cost: Json,
    pub input_per_mtok: Json,
    pub output_per_mtok: Json,
}

pub struct PriceV {
    pub currency: Seq<char>,
    pub input_cost: Tree,
    pub input_per_mtok: Tree,
    pub output_per_mtok: Tree,
}

impl View for PriceTag {
    type V = PriceV;

    open spec fn view(&self) -> PriceV {
        PriceV {
            currency: self.currency@,
            input_cost: self.input_cost@,
            input_per_mtok: self.input_per_mtok@,
            output_per_mtok: self.output_per_mtok@,
        }
    }
}

/// The answer to a request to count tokens.
pub open spec fn token_count(estimate: u64, model: Option<Seq<char>>, price: Option<PriceV>) -> Tree {
    let base = json::fs().with("estimated"@, Tree::Bool(true));
    let extra = match model {
        Some(id) => match price {
            Some(p) => base.with("model"@, json::st(id)).with(
                "estimated_input_cost"@,
                Tree::Obj(
                    json::fs().with("currency"@, json::st(p.currency)).with("amount"@, p.input_cost),
                ),
            ).with("input_per_mtok"@, p.input_per_mtok).with("output_per_mtok"@, p.output_per_mtok),
            None => base.with("model"@, json::st(id)),
        },
        None => base,
    };
    Tree::Obj(json::fs().with("input_tokens"@, Tree::UInt(estimate)).with("zroutery"@, Tree::Obj(extra)))
}

/// The answer to a request to count tokens.
///
/// Best effort: providers do not expose a shared tokenizer, so this is an
/// estimate, and the price beside it covers the prompt only.
pub fn count_tokens(estimate: u64, model: Option<&str>, price: Option<PriceTag>) -> (r: Json)
    ensures
        r@ == token_count(estimate, views::opt_str(model), views::opt(price)),
{
    let mut extra = Fields::new().with("estimated", Json::Bool(true));
    if let Some(id) = model {
        extra = extra.with("model", js(id));
        if let Some(p) = price {
            let cost = Fields::new().with("currency", js(p.currency.as_str())).with("amount", p.input_cost).done();
            extra = extra.with("estimated_input_cost", cost).with("input_per_mtok", p.input_per_mtok).with(
                "output_per_mtok",
                p.output_per_mtok,
            );
        }
    }
    // Namespaced, so Anthropic clients that only read `input_tokens` ignore it.
    Fields::new().with("input_tokens", Json::UInt(estimate)).with("zroutery", extra.done()).done()
}

/// Whether `first` is the first attempt of a plan that a fair draw gives.
pub open spec fn drawn_first(
    before: RouterV,
    after: RouterV,
    c: ConfigV,
    resolution: crate::registry::ResolutionV,
    now: u64,
    first: Option<CandidateV>,
) -> bool {
    exists|r: Result<Seq<CandidateV>, ErrorV>|
        #[trigger] router::drawn_plan(before, after, c, resolution, Seq::empty(), now, r) && first == match r {
            Ok(list) => if list.len() > 0 {
                Some(list[0])
            } else {
                None
            },
            Err(_) => None,
        }
}

/// Which model would answer a request for `requested`.
pub fn first_candidate(router: &mut Router, registry: &Registry, requested: &str, now: u64) -> (r: Option<Candidate>)
    requires
        registry@.models.len() <= 0xffff_ffff,
    ensures
        match registry::asked_for(registry@, requested@) {
            Ok(resolution) => drawn_first(
                old(router)@,
                final(router)@,
                registry@,
                resolution,
                now,
                views::opt(r),
            ),
            Err(_) => r is None && final(router)@ == old(router)@,
        },
{
    let resolution = match registry.resolve_request(requested) {
        Ok(resolution) => resolution,
        Err(_) => {
            return None;
        },
    };
    let none: Vec<Capability> = Vec::new();
    assert(none@ =~= Seq::<Capability>::empty());
    let ghost before = router@;
    let planned = router.plan(registry, &resolution, &none, now);
    assert(router::drawn_plan(
        before,
        router@,
        registry@,
        resolution@,
        Seq::empty(),
        now,
        error::outcomes(planned),
    ));
    match planned {
        Ok(list) => {
            let mut list = list;
            assert(views::of(list@).len() == list@.len());
            assert(list@.len() > 0 ==> views::of(list@)[0] == list@[0]@);
            if list.len() == 0 {
                None
            } else {
                Some(list.remove(0))
            }
        },
        Err(_) => None,
    }
}

// --------------------------------------------------------------------- laws

/// No request passes an installation that requires a token and has none.
pub proof fn no_token_no_entry(server: ServerV, api_key: Option<Seq<char>>, authorization: Option<Seq<char>>)
    requires
        server.require_auth,
        server.auth_token.len() == 0,
    ensures
        !may_pass(server, api_key, authorization),
{
}

/// The answer to an unknown path says nothing of the configuration: it depends on
/// the verb and the path alone, and lists the endpoints.
pub proof fn unknown_paths_list_the_endpoints(method: Seq<char>, path: Seq<char>)
    ensures
        Tree::Obj(route_hint(path)).at("endpoints"@) == Some(json::text_list(endpoints())),
        "/v1/v1/"@.is_prefix_of(path) <==> Tree::Obj(route_hint(path)).at("likely_cause"@) is Some,
{
    reveal_strlit("endpoints");
    reveal_strlit("likely_cause");
    assert("endpoints"@ != "likely_cause"@) by {
        assert("endpoints"@[0] == 'e');
        assert("likely_cause"@[0] == 'l');
    }
    reveal_with_fuel(json::find_from, 4);
}

} // verus!
