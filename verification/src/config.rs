//! Configuration: providers, models and how requests are routed among them.

use crate::circuit_breaker::CircuitBreakerConfig;
use crate::ir::{copy_opt_string, copy_strings, Capability, Dialect};
use crate::protocol;
use crate::protocol::ProviderQuirks;
use crate::sorting::Ranked;
use crate::text;
use crate::text::{chars_of, comes_before, concat, concat3, is_listed, push_char, same};
use crate::views;
use vstd::prelude::*;

verus! {

broadcast use crate::views::group_views;

// ------------------------------------------------------------------- classes

/// The level of a model, assigned by hand.
#[derive(Debug, Clone, Copy, PartialEq, Eq, Structural)]
pub enum ModelClass {
    Opus,
    Sonnet,
    Haiku,
}

impl ModelClass {
    /// The id under which clients ask for the class.
    pub open spec fn id(self) -> Seq<char> {
        match self {
            ModelClass::Opus => "opus-class"@,
            ModelClass::Sonnet => "sonnet-class"@,
            ModelClass::Haiku => "haiku-class"@,
        }
    }

    pub open spec fn of_id(id: Seq<char>) -> Option<ModelClass> {
        if id == "opus-class"@ {
            Some(ModelClass::Opus)
        } else if id == "sonnet-class"@ {
            Some(ModelClass::Sonnet)
        } else if id == "haiku-class"@ {
            Some(ModelClass::Haiku)
        } else {
            None
        }
    }

    /// The name in listings.
    pub open spec fn name(self) -> Seq<char> {
        match self {
            ModelClass::Opus => "opus"@,
            ModelClass::Sonnet => "sonnet"@,
            ModelClass::Haiku => "haiku"@,
        }
    }

    /// The id under which clients ask for the class.
    pub fn virtual_id(&self) -> (r: &'static str)
        ensures
            r@ == self.id(),
    {
        match self {
            ModelClass::Opus => "opus-class",
            ModelClass::Sonnet => "sonnet-class",
            ModelClass::Haiku => "haiku-class",
        }
    }

    /// The class that clients ask for under that id.
    pub fn from_virtual_id(id: &str) -> (r: Option<ModelClass>)
        ensures
            r == ModelClass::of_id(id@),
    {
        if same(id, "opus-class") {
            Some(ModelClass::Opus)
        } else if same(id, "sonnet-class") {
            Some(ModelClass::Sonnet)
        } else if same(id, "haiku-class") {
            Some(ModelClass::Haiku)
        } else {
            None
        }
    }

    /// The name in listings.
    pub fn as_str(&self) -> (r: &'static str)
        ensures
            r@ == self.name(),
    {
        match self {
            ModelClass::Opus => "opus",
            ModelClass::Sonnet => "sonnet",
            ModelClass::Haiku => "haiku",
        }
    }
}

/// The class ids name the classes: each id leads back to its class.
pub proof fn class_ids_lead_back(class: ModelClass)
    ensures
        ModelClass::of_id(class.id()) == Some(class),
{
    reveal_strlit("opus-class");
    reveal_strlit("sonnet-class");
    reveal_strlit("haiku-class");
    assert("opus-class"@[0] == 'o');
    assert("sonnet-class"@[0] == 's');
    assert("haiku-class"@[0] == 'h');
}

// ----------------------------------------------------------------- providers

/// Which API a provider speaks.
#[derive(Debug, Clone, Copy, PartialEq, Eq, Structural)]
pub enum ProviderKind {
    Anthropic,
    OpenAICompatible,
}

impl ProviderKind {
    pub open spec fn speaks(self) -> Dialect {
        match self {
            ProviderKind::Anthropic => Dialect::Anthropic,
            ProviderKind::OpenAICompatible => Dialect::OpenAI,
        }
    }

    pub fn dialect(&self) -> (r: Dialect)
        ensures
            r == self.speaks(),
    {
        match self {
            ProviderKind::Anthropic => Dialect::Anthropic,
            ProviderKind::OpenAICompatible => Dialect::OpenAI,
        }
    }
}

/// The texts by which a provider knows the client that a request is presented as.
#[derive(Debug, PartialEq)]
pub struct ClientIdentity {
    /// The client's `user-agent`.
    pub user_agent: String,
    /// The beta feature that the client asks for.
    pub beta: String,
    /// The line with which the client's system prompt begins.
    pub system_line: String,
}

pub struct IdentityV {
    pub user_agent: Seq<char>,
    pub beta: Seq<char>,
    pub system_line: Seq<char>,
}

impl View for ClientIdentity {
    type V = IdentityV;

    open spec fn view(&self) -> IdentityV {
        IdentityV { user_agent: self.user_agent@, beta: self.beta@, system_line: self.system_line@ }
    }
}

impl Clone for ClientIdentity {
    fn clone(&self) -> (r: Self)
        ensures
            r@ == self@,
    {
        ClientIdentity {
            user_agent: self.user_agent.clone(),
            beta: self.beta.clone(),
            system_line: self.system_line.clone(),
        }
    }
}

/// One upstream provider.
#[derive(Debug, PartialEq)]
pub struct ProviderConfig {
    pub id: String,
    pub name: String,
    pub kind: ProviderKind,
    pub base_url: String,
    pub enabled: bool,
    /// Where the secret is kept; empty for a provider that needs none.
    pub key_ref: String,
    pub timeout_secs: u64,
    pub anthropic_version: Option<String>,
    /// Headers by name. Where a name stands twice, the later value holds.
    pub extra_headers: Vec<(String, String)>,
    /// Present requests as those of the client in `client_identity`.
    pub impersonate_claude_code: bool,
    pub client_identity: ClientIdentity,
    pub quirks: ProviderQuirks,
}

pub struct ProviderV {
    pub id: Seq<char>,
    pub name: Seq<char>,
    pub kind: ProviderKind,
    pub base_url: Seq<char>,
    pub enabled: bool,
    pub key_ref: Seq<char>,
    pub timeout_secs: u64,
    pub anthropic_version: Option<Seq<char>>,
    pub extra_headers: Seq<(Seq<char>, Seq<char>)>,
    pub impersonate_claude_code: bool,
    pub client_identity: IdentityV,
    pub quirks: ProviderQuirks,
}

impl View for ProviderConfig {
    type V = ProviderV;

    open spec fn view(&self) -> ProviderV {
        ProviderV {
            id: self.id@,
            name: self.name@,
            kind: self.kind,
            base_url: self.base_url@,
            enabled: self.enabled,
            key_ref: self.key_ref@,
            timeout_secs: self.timeout_secs,
            anthropic_version: views::opt(self.anthropic_version),
            extra_headers: views::of(self.extra_headers@),
            impersonate_claude_code: self.impersonate_claude_code,
            client_identity: self.client_identity@,
            quirks: self.quirks,
        }
    }
}

fn copy_headers(v: &Vec<(String, String)>) -> (r: Vec<(String, String)>)
    ensures
        views::of(r@) == views::of(v@),
{
    let mut out: Vec<(String, String)> = Vec::new();
    for i in 0..v.len()
        invariant
            out@.len() == i,
            forall|j: int| 0 <= j < i ==> (#[trigger] out@[j])@ == v@[j]@,
    {
        out.push((v[i].0.clone(), v[i].1.clone()));
    }
    assert(views::of(out@) =~= views::of(v@));
    out
}

impl Clone for ProviderConfig {
    fn clone(&self) -> (r: Self)
        ensures
            r@ == self@,
    {
        ProviderConfig {
            id: self.id.clone(),
            name: self.name.clone(),
            kind: self.kind,
            base_url: self.base_url.clone(),
            enabled: self.enabled,
            key_ref: self.key_ref.clone(),
            timeout_secs: self.timeout_secs,
            anthropic_version: copy_opt_string(&self.anthropic_version),
            extra_headers: copy_headers(&self.extra_headers),
            impersonate_claude_code: self.impersonate_claude_code,
            client_identity: self.client_identity.clone(),
            quirks: self.quirks,
        }
    }
}

/// A text without the slashes at its end.
pub open spec fn without_end_slashes(s: Seq<char>) -> Seq<char>
    decreases s.len(),
{
    if s.len() > 0 && s.last() == '/' {
        without_end_slashes(s.drop_last())
    } else {
        s
    }
}

/// A text without the slashes at its end.
pub fn trim_end_slashes(s: &str) -> (r: String)
    ensures
        r@ == without_end_slashes(s@),
{
    let chars = chars_of(s);
    let mut n: usize = chars.len();
    assert(chars@.take(n as int) =~= s@);
    while n > 0 && chars[n - 1] == '/'
        invariant
            chars@ == s@,
            n <= chars@.len(),
            without_end_slashes(s@) == without_end_slashes(chars@.take(n as int)),
        decreases n,
    {
        assert(chars@.take(n as int).drop_last() =~= chars@.take(n - 1));
        n = n - 1;
    }
    assert(n > 0 ==> chars@.take(n as int).last() == chars@[n - 1]);
    let r = text::string_of(&chars, 0, n);
    assert(r@ =~= chars@.take(n as int));
    r
}

impl ProviderV {
    /// Where chat requests go.
    pub open spec fn chat_url(self) -> Seq<char> {
        match self.kind {
            ProviderKind::Anthropic => without_end_slashes(self.base_url) + "/v1/messages"@,
            ProviderKind::OpenAICompatible => without_end_slashes(self.base_url) + "/chat/completions"@,
        }
    }

    /// Where the model catalogue is.
    pub open spec fn models_url(self) -> Seq<char> {
        match self.kind {
            ProviderKind::Anthropic => without_end_slashes(self.base_url) + "/v1/models"@,
            ProviderKind::OpenAICompatible => without_end_slashes(self.base_url) + "/models"@,
        }
    }
}

impl ProviderConfig {
    /// A provider with everything else at its default.
    pub fn new(id: &str, name: &str, kind: ProviderKind) -> (r: ProviderConfig)
        ensures
            r@ == (ProviderV {
                id: id@,
                name: name@,
                kind,
                base_url: ""@,
                enabled: true,
                key_ref: ""@,
                timeout_secs: 600,
                anthropic_version: None,
                extra_headers: Seq::empty(),
                impersonate_claude_code: false,
                client_identity: (IdentityV { user_agent: ""@, beta: ""@, system_line: ""@ }),
                quirks: protocol::default_quirks(),
            }),
    {
        ProviderConfig {
            id: id.to_owned(),
            name: name.to_owned(),
            kind,
            base_url: "".to_owned(),
            enabled: true,
            key_ref: "".to_owned(),
            timeout_secs: 600,
            anthropic_version: None,
            extra_headers: Vec::new(),
            impersonate_claude_code: false,
            client_identity: ClientIdentity {
                user_agent: "".to_owned(),
                beta: "".to_owned(),
                system_line: "".to_owned(),
            },
            quirks: ProviderQuirks::default(),
        }
    }

    /// Where chat requests go. The base URL of an Anthropic provider is its root;
    /// that of an OpenAI compatible one has the version in it already.
    pub fn chat_url(&self) -> (r: String)
        ensures
            r@ == self@.chat_url(),
    {
        let base = trim_end_slashes(self.base_url.as_str());
        match self.kind {
            ProviderKind::Anthropic => concat(base.as_str(), "/v1/messages"),
            ProviderKind::OpenAICompatible => concat(base.as_str(), "/chat/completions"),
        }
    }

    /// Where the model catalogue is.
    pub fn models_url(&self) -> (r: String)
        ensures
            r@ == self@.models_url(),
    {
        let base = trim_end_slashes(self.base_url.as_str());
        match self.kind {
            ProviderKind::Anthropic => concat(base.as_str(), "/v1/models"),
            ProviderKind::OpenAICompatible => concat(base.as_str(), "/models"),
        }
    }
}

// -------------------------------------------------------------------- models

/// One model on one provider.
#[derive(Debug, PartialEq)]
pub struct ModelEntry {
    pub provider_id: String,
    /// The name the provider knows it by.
    pub upstream_model: String,
    pub display_name: Option<String>,
    /// Extra ids that also resolve to this model.
    pub aliases: Vec<String>,
    pub class: Option<ModelClass>,
    pub enabled: bool,
    /// Lower comes first.
    pub priority: i32,
    pub weight: u32,
    pub max_output_tokens: Option<u32>,
    pub supports_tools: bool,
    pub supports_vision: bool,
    pub supports_thinking: bool,
}

pub struct EntryV {
    pub provider_id: Seq<char>,
    pub upstream_model: Seq<char>,
    pub display_name: Option<Seq<char>>,
    pub aliases: Seq<Seq<char>>,
    pub class: Option<ModelClass>,
    pub enabled: bool,
    pub priority: i32,
    pub weight: u32,
    pub max_output_tokens: Option<u32>,
    pub supports_tools: bool,
    pub supports_vision: bool,
    pub supports_thinking: bool,
}

impl View for ModelEntry {
    type V = EntryV;

    open spec fn view(&self) -> EntryV {
        EntryV {
            provider_id: self.provider_id@,
            upstream_model: self.upstream_model@,
            display_name: views::opt(self.display_name),
            aliases: views::of(self.aliases@),
            class: self.class,
            enabled: self.enabled,
            priority: self.priority,
            weight: self.weight,
            max_output_tokens: self.max_output_tokens,
            supports_tools: self.supports_tools,
            supports_vision: self.supports_vision,
            supports_thinking: self.supports_thinking,
        }
    }
}

impl Clone for ModelEntry {
    fn clone(&self) -> (r: Self)
        ensures
            r@ == self@,
    {
        ModelEntry {
            provider_id: self.provider_id.clone(),
            upstream_model: self.upstream_model.clone(),
            display_name: copy_opt_string(&self.display_name),
            aliases: copy_strings(&self.aliases),
            class: self.class,
            enabled: self.enabled,
            priority: self.priority,
            weight: self.weight,
            max_output_tokens: self.max_output_tokens,
            supports_tools: self.supports_tools,
            supports_vision: self.supports_vision,
            supports_thinking: self.supports_thinking,
        }
    }
}

/// A character of a model name as it stands in an id: slashes and colons become
/// hyphens.
pub open spec fn id_char(c: char) -> char {
    if c == '/' || c == ':' {
        '-'
    } else {
        c
    }
}

/// A model name as it stands in an id.
pub open spec fn id_text(s: Seq<char>) -> Seq<char> {
    Seq::new(s.len(), |i: int| id_char(s[i]))
}

fn in_id(s: &str) -> (r: String)
    ensures
        r@ == id_text(s@),
{
    let chars = chars_of(s);
    let mut out = String::new();
    assert(out@ =~= Seq::empty());
    for i in 0..chars.len()
        invariant
            chars@ == s@,
            out@ == id_text(s@).take(i as int),
    {
        let c = if chars[i] == '/' || chars[i] == ':' {
            '-'
        } else {
            chars[i]
        };
        push_char(&mut out, c);
        assert(out@ =~= id_text(s@).take(i + 1));
    }
    assert(out@ =~= id_text(s@));
    out
}

impl EntryV {
    /// The id that clients see: the provider and the model name.
    pub open spec fn exposed_id(self) -> Seq<char> {
        self.provider_id + "-"@ + id_text(self.upstream_model)
    }

    pub open spec fn answers_to(self, id: Seq<char>) -> bool {
        self.exposed_id() == id || text::listed(self.aliases, id)
    }

    pub open spec fn supports(self, cap: Capability) -> bool {
        match cap {
            Capability::Tools => self.supports_tools,
            Capability::Vision => self.supports_vision,
            Capability::Thinking => self.supports_thinking,
        }
    }
}

/// A model that two providers offer under one name has two ids.
pub proof fn providers_keep_ids_apart(a: EntryV, b: EntryV)
    requires
        a.upstream_model == b.upstream_model,
        a.provider_id != b.provider_id,
    ensures
        a.exposed_id() != b.exposed_id(),
{
    let tail = "-"@ + id_text(a.upstream_model);
    let (x, y) = (a.exposed_id(), b.exposed_id());
    assert(x =~= a.provider_id + tail && y =~= b.provider_id + tail);
    if x == y {
        assert(x.len() == a.provider_id.len() + tail.len() && y.len() == b.provider_id.len() + tail.len());
        assert(x.take(a.provider_id.len() as int) =~= a.provider_id);
        assert(y.take(b.provider_id.len() as int) =~= b.provider_id);
    }
}

impl ModelEntry {
    /// A model of a provider, with everything else at its default.
    pub fn for_upstream(provider_id: &str, upstream_model: &str, class: Option<ModelClass>) -> (r: ModelEntry)
        ensures
            r@ == (EntryV {
                provider_id: provider_id@,
                upstream_model: upstream_model@,
                display_name: None,
                aliases: Seq::empty(),
                class,
                enabled: true,
                priority: 0,
                weight: 1,
                max_output_tokens: None,
                supports_tools: true,
                supports_vision: false,
                supports_thinking: false,
            }),
    {
        ModelEntry {
            provider_id: provider_id.to_owned(),
            upstream_model: upstream_model.to_owned(),
            display_name: None,
            aliases: Vec::new(),
            class,
            enabled: true,
            priority: 0,
            weight: 1,
            max_output_tokens: None,
            supports_tools: true,
            supports_vision: false,
            supports_thinking: false,
        }
    }

    /// The same model with that priority.
    pub fn with_priority(self, priority: i32) -> (r: ModelEntry)
        ensures
            r@ == (EntryV { priority, ..self@ }),
    {
        let mut entry = self;
        entry.priority = priority;
        entry
    }

    /// The id that clients see, derived from the provider and the model name.
    pub fn exposed_id(&self) -> (r: String)
        ensures
            r@ == self@.exposed_id(),
    {
        let name = in_id(self.upstream_model.as_str());
        concat3(self.provider_id.as_str(), "-", name.as_str())
    }

    /// Whether the id or one of the aliases is that.
    pub fn answers_to(&self, id: &str) -> (r: bool)
        ensures
            r == self@.answers_to(id@),
    {
        let own = self.exposed_id();
        same(own.as_str(), id) || is_listed(&self.aliases, id)
    }

    /// Whether the model declares a capability.
    pub fn supports(&self, cap: Capability) -> (r: bool)
        ensures
            r == self@.supports(cap),
    {
        match cap {
            Capability::Tools => self.supports_tools,
            Capability::Vision => self.supports_vision,
            Capability::Thinking => self.supports_thinking,
        }
    }
}

impl Ranked for ModelEntry {
    /// By priority, and at the same priority by id.
    open spec fn before(a: EntryV, b: EntryV) -> bool {
        a.priority < b.priority || (a.priority == b.priority && text::before(a.exposed_id(), b.exposed_id()))
    }

    fn comes_before(&self, other: &Self) -> (r: bool) {
        if self.priority == other.priority {
            let own = self.exposed_id();
            let theirs = other.exposed_id();
            comes_before(own.as_str(), theirs.as_str())
        } else {
            self.priority < other.priority
        }
    }
}

// ------------------------------------------------------------------- routing

/// How the members of a pool are ordered.
#[derive(Debug, Clone, Copy, PartialEq, Eq, Structural)]
pub enum RoutingStrategy {
    /// As the last election decided.
    Balanced,
    /// By priority, at random by weight within one priority.
    Priority,
    /// At random by weight.
    WeightedRandom,
    /// In turn.
    RoundRobin,
    /// The fastest so far first.
    LowestLatency,
}

/// Which rectifiers may repair a rejected request.
#[derive(Debug, Clone, Copy, PartialEq, Eq, Structural)]
pub struct RectifierConfig {
    pub enabled: bool,
    pub thinking_signature: bool,
    pub thinking_budget: bool,
    pub media_fallback: bool,
}

/// A name that clients use, and the class it stands for.
#[derive(Debug, PartialEq)]
pub struct ClientAlias {
    pub name: String,
    pub class: ModelClass,
}

pub struct AliasV {
    pub name: Seq<char>,
    pub class: ModelClass,
}

impl View for ClientAlias {
    type V = AliasV;

    open spec fn view(&self) -> AliasV {
        AliasV { name: self.name@, class: self.class }
    }
}

/// How requests are routed.
#[derive(Debug, PartialEq)]
pub struct RoutingConfig {
    pub strategy: RoutingStrategy,
    pub failover: bool,
    pub max_attempts: u32,
    pub capability_filter: bool,
    pub circuit_breaker: CircuitBreakerConfig,
    pub client_aliases: Vec<ClientAlias>,
    /// Map names such as `anthropic-sonnet-4-5` to the class they mention.
    pub match_claude_names: bool,
    /// The class that unknown ids fall back to.
    pub unknown_model_fallback: Option<ModelClass>,
    pub rectifier: RectifierConfig,
}

pub struct RoutingV {
    pub strategy: RoutingStrategy,
    pub failover: bool,
    pub max_attempts: u32,
    pub capability_filter: bool,
    pub circuit_breaker: CircuitBreakerConfig,
    pub client_aliases: Seq<AliasV>,
    pub match_claude_names: bool,
    pub unknown_model_fallback: Option<ModelClass>,
    pub rectifier: RectifierConfig,
}

impl View for RoutingConfig {
    type V = RoutingV;

    open spec fn view(&self) -> RoutingV {
        RoutingV {
            strategy: self.strategy,
            failover: self.failover,
            max_attempts: self.max_attempts,
            capability_filter: self.capability_filter,
            circuit_breaker: self.circuit_breaker,
            client_aliases: views::of(self.client_aliases@),
            match_claude_names: self.match_claude_names,
            unknown_model_fallback: self.unknown_model_fallback,
            rectifier: self.rectifier,
        }
    }
}

/// The routing of a new installation.
pub open spec fn default_routing() -> RoutingV {
    RoutingV {
        strategy: RoutingStrategy::Balanced,
        failover: true,
        max_attempts: 3,
        capability_filter: true,
        circuit_breaker: crate::circuit_breaker::default_breaker(),
        client_aliases: Seq::empty(),
        match_claude_names: true,
        unknown_model_fallback: None,
        rectifier: RectifierConfig {
            enabled: true,
            thinking_signature: true,
            thinking_budget: true,
            media_fallback: true,
        },
    }
}

impl Default for RoutingConfig {
    fn default() -> (r: Self)
        ensures
            r@ == default_routing(),
    {
        RoutingConfig {
            strategy: RoutingStrategy::Balanced,
            failover: true,
            max_attempts: 3,
            capability_filter: true,
            circuit_breaker: CircuitBreakerConfig::default(),
            client_aliases: Vec::new(),
            match_claude_names: true,
            unknown_model_fallback: None,
            rectifier: RectifierConfig {
                enabled: true,
                thinking_signature: true,
                thinking_budget: true,
                media_fallback: true,
            },
        }
    }
}

/// One member of the classifier pool.
#[derive(Debug, PartialEq)]
pub struct ClassifierCandidate {
    /// An exposed id or an alias.
    pub model: String,
    /// The place in the pool; lower comes first.
    pub priority: i32,
    pub enabled: bool,
}

pub struct MemberV {
    pub model: Seq<char>,
    pub priority: i32,
    pub enabled: bool,
}

impl View for ClassifierCandidate {
    type V = MemberV;

    open spec fn view(&self) -> MemberV {
        MemberV { model: self.model@, priority: self.priority, enabled: self.enabled }
    }
}

/// The pool that answers classifier requests.
#[derive(Debug, PartialEq)]
pub struct ClassifierConfig {
    pub enabled: bool,
    pub candidates: Vec<ClassifierCandidate>,
    pub strategy: RoutingStrategy,
    pub failover: bool,
    pub max_attempts: u32,
}

pub struct ClassifierV {
    pub enabled: bool,
    pub candidates: Seq<MemberV>,
    pub strategy: RoutingStrategy,
    pub failover: bool,
    pub max_attempts: u32,
}

impl View for ClassifierConfig {
    type V = ClassifierV;

    open spec fn view(&self) -> ClassifierV {
        ClassifierV {
            enabled: self.enabled,
            candidates: views::of(self.candidates@),
            strategy: self.strategy,
            failover: self.failover,
            max_attempts: self.max_attempts,
        }
    }
}

/// The classifier pool of a new installation.
pub open spec fn default_classifier() -> ClassifierV {
    ClassifierV {
        enabled: false,
        candidates: Seq::empty(),
        strategy: RoutingStrategy::Priority,
        failover: true,
        max_attempts: 3,
    }
}

impl Default for ClassifierConfig {
    fn default() -> (r: Self)
        ensures
            r@ == default_classifier(),
    {
        ClassifierConfig {
            enabled: false,
            candidates: Vec::new(),
            strategy: RoutingStrategy::Priority,
            failover: true,
            max_attempts: 3,
        }
    }
}

// -------------------------------------------------------------------- server

/// How the local server listens.
#[derive(Debug, PartialEq)]
pub struct ServerConfig {
    pub host: String,
    pub port: u16,
    pub require_auth: bool,
    pub auth_token: String,
    pub allow_cors: bool,
    pub cors_origins: Vec<String>,
    pub max_body_mib: u64,
    /// How many requests the log keeps.
    pub log_limit: usize,
}

pub struct ServerV {
    pub host: Seq<char>,
    pub port: u16,
    pub require_auth: bool,
    pub auth_token: Seq<char>,
    pub allow_cors: bool,
    pub cors_origins: Seq<Seq<char>>,
    pub max_body_mib: u64,
    pub log_limit: usize,
}

impl View for ServerConfig {
    type V = ServerV;

    open spec fn view(&self) -> ServerV {
        ServerV {
            host: self.host@,
            port: self.port,
            require_auth: self.require_auth,
            auth_token: self.auth_token@,
            allow_cors: self.allow_cors,
            cors_origins: views::of(self.cors_origins@),
            max_body_mib: self.max_body_mib,
            log_limit: self.log_limit,
        }
    }
}

/// The server of a new installation.
pub open spec fn default_server() -> ServerV {
    ServerV {
        host: "127.0.0.1"@,
        port: 8787,
        require_auth: true,
        auth_token: ""@,
        allow_cors: false,
        cors_origins: Seq::empty(),
        max_body_mib: 32,
        log_limit: 500,
    }
}

impl Default for ServerConfig {
    fn default() -> (r: Self)
        ensures
            r@ == default_server(),
    {
        ServerConfig {
            host: "127.0.0.1".to_owned(),
            port: 8787,
            require_auth: true,
            auth_token: "".to_owned(),
            allow_cors: false,
            cors_origins: Vec::new(),
            max_body_mib: 32,
            log_limit: 500,
        }
    }
}

/// The vision fallback.
#[derive(Debug, PartialEq)]
pub struct VisionConfig {
    pub enabled: bool,
    /// What stands where an image could not be described.
    pub placeholder: String,
}

impl Default for VisionConfig {
    fn default() -> (r: Self)
        ensures
            !r.enabled,
            r.placeholder@ == "[image omitted]"@,
    {
        VisionConfig { enabled: false, placeholder: "[image omitted]".to_owned() }
    }
}

/// The whole configuration.
#[derive(Debug, PartialEq)]
pub struct AppConfig {
    pub server: ServerConfig,
    pub providers: Vec<ProviderConfig>,
    pub models: Vec<ModelEntry>,
    pub routing: RoutingConfig,
    pub classifier: ClassifierConfig,
    pub vision: VisionConfig,
}

pub struct ConfigV {
    pub server: ServerV,
    pub providers: Seq<ProviderV>,
    pub models: Seq<EntryV>,
    pub routing: RoutingV,
    pub classifier: ClassifierV,
    pub describe_images: bool,
    pub placeholder: Seq<char>,
}

impl View for AppConfig {
    type V = ConfigV;

    open spec fn view(&self) -> ConfigV {
        ConfigV {
            server: self.server@,
            providers: views::of(self.providers@),
            models: views::of(self.models@),
            routing: self.routing@,
            classifier: self.classifier@,
            describe_images: self.vision.enabled,
            placeholder: self.vision.placeholder@,
        }
    }
}

impl Default for AppConfig {
    fn default() -> (r: Self)
        ensures
            r@ == (ConfigV {
                server: default_server(),
                providers: Seq::empty(),
                models: Seq::empty(),
                routing: default_routing(),
                classifier: default_classifier(),
                describe_images: false,
                placeholder: "[image omitted]"@,
            }),
    {
        AppConfig {
            server: ServerConfig::default(),
            providers: Vec::new(),
            models: Vec::new(),
            routing: RoutingConfig::default(),
            classifier: ClassifierConfig::default(),
            vision: VisionConfig::default(),
        }
    }
}

/// The first provider from `i` on with that id.
pub open spec fn provider_from(providers: Seq<ProviderV>, id: Seq<char>, i: int) -> Option<ProviderV>
    decreases providers.len() - i,
{
    if i < 0 || i >= providers.len() {
        None
    } else if providers[i].id == id {
        Some(providers[i])
    } else {
        provider_from(providers, id, i + 1)
    }
}

impl ConfigV {
    /// The provider with that id.
    pub open spec fn provider(self, id: Seq<char>) -> Option<ProviderV> {
        provider_from(self.providers, id, 0)
    }

    /// Whether the provider with that id is there and in use.
    pub open spec fn provider_in_use(self, id: Seq<char>) -> bool {
        match self.provider(id) {
            Some(p) => p.enabled,
            None => false,
        }
    }
}

impl AppConfig {
    /// The provider with that id.
    pub fn provider(&self, id: &str) -> (r: Option<&ProviderConfig>)
        ensures
            views::opt_ref(r) == self@.provider(id@),
    {
        let ghost all = views::of(self.providers@);
        for i in 0..self.providers.len()
            invariant
                all == views::of(self.providers@),
                self@.provider(id@) == provider_from(all, id@, i as int),
        {
            assert(all[i as int] == self.providers@[i as int]@);
            if same(self.providers[i].id.as_str(), id) {
                return Some(&self.providers[i]);
            }
        }
        None
    }

    /// Whether the provider with that id is there and in use.
    pub fn provider_in_use(&self, id: &str) -> (r: bool)
        ensures
            r == self@.provider_in_use(id@),
    {
        match self.provider(id) {
            Some(p) => p.enabled,
            None => false,
        }
    }
}

} // verus!
