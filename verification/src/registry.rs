//! Maps a client supplied model id onto either one concrete model or a class of
//! models, and produces the `/v1/models` listing.

use std::sync::Arc;

use crate::config;
use crate::config::{AliasV, AppConfig, ConfigV, EntryV, ModelClass, ModelEntry, ProviderConfig, ProviderV};
use crate::error;
use crate::error::{Error, ErrorV};
use crate::ir::copy_strings;
use crate::query;
use crate::query::strip_client_model_modifier;
use crate::sorting;
use crate::sorting::{sort, sort_refs, Ranked};
use crate::text;
use crate::text::{comes_before, concat, concat3, contains, is_listed, same, to_ascii_lowercase, trim};
use crate::views;
use vstd::prelude::*;

verus! {

broadcast use crate::views::group_views;

/// Outcome of resolving a client model id.
#[derive(Debug, PartialEq)]
pub enum Resolution {
    /// The client named an exact model (or one of its aliases).
    Direct(String),
    /// The client named a virtual `*-class` id, or an alias that maps to a class.
    Class(ModelClass),
}

pub enum ResolutionV {
    Direct(Seq<char>),
    Class(ModelClass),
}

impl View for Resolution {
    type V = ResolutionV;

    open spec fn view(&self) -> ResolutionV {
        match self {
            Resolution::Direct(id) => ResolutionV::Direct(id@),
            Resolution::Class(class) => ResolutionV::Class(*class),
        }
    }
}

impl Clone for Resolution {
    fn clone(&self) -> (r: Self)
        ensures
            r@ == self@,
    {
        match self {
            Resolution::Direct(id) => Resolution::Direct(id.clone()),
            Resolution::Class(class) => Resolution::Class(*class),
        }
    }
}

/// Immutable snapshot of the model registry.
///
/// Cheap to clone; the server swaps in a new snapshot when configuration
/// changes so in-flight requests keep using a consistent view.
#[derive(Debug)]
pub struct Registry {
    config: Arc<AppConfig>,
}

impl View for Registry {
    type V = ConfigV;

    closed spec fn view(&self) -> ConfigV {
        (*self.config)@
    }
}

/// One entry of the `/v1/models` listing.
#[derive(Debug, PartialEq)]
pub struct ModelInfo {
    pub id: String,
    pub display_name: String,
    /// `None` for virtual class ids.
    pub provider_name: Option<String>,
    pub class: Option<ModelClass>,
    pub virtual_model: bool,
    /// For virtual ids: how many enabled models back it.
    pub member_count: usize,
    /// Extra ids that also resolve to this model.
    pub aliases: Vec<String>,
    pub supports_tools: bool,
    pub supports_vision: bool,
    pub supports_thinking: bool,
}

pub struct InfoV {
    pub id: Seq<char>,
    pub display_name: Seq<char>,
    pub provider_name: Option<Seq<char>>,
    pub class: Option<ModelClass>,
    pub virtual_model: bool,
    pub member_count: int,
    pub aliases: Seq<Seq<char>>,
    pub supports_tools: bool,
    pub supports_vision: bool,
    pub supports_thinking: bool,
}

impl View for ModelInfo {
    type V = InfoV;

    open spec fn view(&self) -> InfoV {
        InfoV {
            id: self.id@,
            display_name: self.display_name@,
            provider_name: views::opt(self.provider_name),
            class: self.class,
            virtual_model: self.virtual_model,
            member_count: self.member_count as int,
            aliases: views::of(self.aliases@),
            supports_tools: self.supports_tools,
            supports_vision: self.supports_vision,
            supports_thinking: self.supports_thinking,
        }
    }
}

impl Ranked for ModelInfo {
    open spec fn before(a: InfoV, b: InfoV) -> bool {
        text::before(a.id, b.id)
    }

    fn comes_before(&self, other: &Self) -> (r: bool) {
        comes_before(self.id.as_str(), other.id.as_str())
    }
}

// ---------------------------------------------------------------- resolution

/// The first enabled model from `i` on whose own id is `id`.
pub open spec fn by_id(models: Seq<EntryV>, id: Seq<char>, i: int) -> Option<EntryV>
    decreases models.len() - i,
{
    if i < 0 || i >= models.len() {
        None
    } else if models[i].enabled && models[i].exposed_id() == id {
        Some(models[i])
    } else {
        by_id(models, id, i + 1)
    }
}

/// The first enabled model from `i` on with the alias `id`.
pub open spec fn by_alias(models: Seq<EntryV>, id: Seq<char>, i: int) -> Option<EntryV>
    decreases models.len() - i,
{
    if i < 0 || i >= models.len() {
        None
    } else if models[i].enabled && text::listed(models[i].aliases, id) {
        Some(models[i])
    } else {
        by_alias(models, id, i + 1)
    }
}

/// The first model from `i` on that answers to `id`, enabled or not.
pub open spec fn answering(models: Seq<EntryV>, id: Seq<char>, i: int) -> Option<EntryV>
    decreases models.len() - i,
{
    if i < 0 || i >= models.len() {
        None
    } else if models[i].answers_to(id) {
        Some(models[i])
    } else {
        answering(models, id, i + 1)
    }
}

/// The class of the first client alias from `i` on with that name.
pub open spec fn aliased(aliases: Seq<AliasV>, name: Seq<char>, i: int) -> Option<ModelClass>
    decreases aliases.len() - i,
{
    if i < 0 || i >= aliases.len() {
        None
    } else if aliases[i].name == name {
        Some(aliases[i].class)
    } else {
        aliased(aliases, name, i + 1)
    }
}

/// The class that a name mentions, whatever its case.
pub open spec fn class_in_name(name: Seq<char>) -> Option<ModelClass> {
    let n = text::ascii_lowered(name);
    if text::occurs(n, "opus"@) {
        Some(ModelClass::Opus)
    } else if text::occurs(n, "sonnet"@) {
        Some(ModelClass::Sonnet)
    } else if text::occurs(n, "haiku"@) {
        Some(ModelClass::Haiku)
    } else {
        None
    }
}

/// The class that no model, only a rule, gives an id.
pub open spec fn class_for(c: ConfigV, asked: Seq<char>) -> Option<ModelClass> {
    match ModelClass::of_id(asked) {
        Some(class) => Some(class),
        None => match aliased(c.routing.client_aliases, asked, 0) {
            Some(class) => Some(class),
            None => if c.routing.match_claude_names {
                class_in_name(asked)
            } else {
                None
            },
        },
    }
}

/// What a client asks for with an id. In this order: an enabled model of that id,
/// an enabled model with that alias, a class, the fallback class, nothing.
pub open spec fn resolved(c: ConfigV, requested: Seq<char>) -> Result<ResolutionV, ErrorV> {
    let asked = text::trimmed(requested);
    if asked.len() == 0 {
        Err(ErrorV::InvalidRequest("`model` must not be empty"@))
    } else if by_id(c.models, asked, 0) is Some {
        Ok(ResolutionV::Direct(by_id(c.models, asked, 0)->0.exposed_id()))
    } else if by_alias(c.models, asked, 0) is Some {
        Ok(ResolutionV::Direct(by_alias(c.models, asked, 0)->0.exposed_id()))
    } else if class_for(c, asked) is Some {
        Ok(ResolutionV::Class(class_for(c, asked)->0))
    } else if c.routing.unknown_model_fallback is Some {
        Ok(ResolutionV::Class(c.routing.unknown_model_fallback->0))
    } else {
        match answering(c.models, asked, 0) {
            Some(m) => Err(ErrorV::UnknownModel(m.exposed_id() + " (disabled)"@)),
            None => Err(ErrorV::UnknownModel(asked)),
        }
    }
}

/// What a request asks for: the plain model behind a client's modifier. Where that
/// is nothing the registry knows, the id as it was sent.
pub open spec fn asked_for(c: ConfigV, requested: Seq<char>) -> Result<ResolutionV, ErrorV> {
    match resolved(c, query::stripped(text::trimmed(requested))) {
        Ok(r) => Ok(r),
        Err(_) => resolved(c, requested),
    }
}

// ------------------------------------------------------------------- members

/// Whether a model takes part in a class.
pub open spec fn is_member(c: ConfigV, m: EntryV, class: ModelClass) -> bool {
    m.enabled && m.class == Some(class) && c.provider_in_use(m.provider_id)
}

/// The models from `i` on that take part in a class, behind `sofar`.
pub open spec fn members_from(c: ConfigV, class: ModelClass, i: int, sofar: Seq<EntryV>) -> Seq<EntryV>
    decreases c.models.len() - i,
{
    if i < 0 || i >= c.models.len() {
        sofar
    } else if is_member(c, c.models[i], class) {
        members_from(c, class, i + 1, sofar.push(c.models[i]))
    } else {
        members_from(c, class, i + 1, sofar)
    }
}

/// The members of a class, by priority and then by id.
pub open spec fn members(c: ConfigV, class: ModelClass) -> Seq<EntryV> {
    sorting::sorted::<ModelEntry>(members_from(c, class, 0, Seq::empty()))
}

// ------------------------------------------------------------------- listing

/// A model as it is listed.
pub open spec fn model_info(m: EntryV, p: ProviderV) -> InfoV {
    InfoV {
        id: m.exposed_id(),
        display_name: match m.display_name {
            Some(name) => name,
            None => m.upstream_model,
        },
        provider_name: Some(p.name),
        class: m.class,
        virtual_model: false,
        member_count: 0,
        aliases: m.aliases,
        supports_tools: m.supports_tools,
        supports_vision: m.supports_vision,
        supports_thinking: m.supports_thinking,
    }
}

/// The listed models from `i` on, behind `sofar`: those that are enabled, on a
/// provider in use.
pub open spec fn infos_from(c: ConfigV, i: int, sofar: Seq<InfoV>) -> Seq<InfoV>
    decreases c.models.len() - i,
{
    if i < 0 || i >= c.models.len() {
        sofar
    } else {
        let m = c.models[i];
        if m.enabled && c.provider_in_use(m.provider_id) {
            infos_from(c, i + 1, sofar.push(model_info(m, c.provider(m.provider_id)->0)))
        } else {
            infos_from(c, i + 1, sofar)
        }
    }
}

/// A class as it is listed.
pub open spec fn class_info(class: ModelClass, members: Seq<EntryV>) -> InfoV {
    InfoV {
        id: class.id(),
        display_name: class.id() + " (auto)"@,
        provider_name: None,
        class: Some(class),
        virtual_model: true,
        member_count: members.len() as int,
        aliases: Seq::empty(),
        supports_tools: forall|i: int| 0 <= i < members.len() ==> (#[trigger] members[i]).supports_tools,
        supports_vision: forall|i: int| 0 <= i < members.len() ==> (#[trigger] members[i]).supports_vision,
        supports_thinking: forall|i: int| 0 <= i < members.len() ==> (#[trigger] members[i]).supports_thinking,
    }
}

/// The listing with a class behind it, where the class has a member.
pub open spec fn with_class(c: ConfigV, class: ModelClass, sofar: Seq<InfoV>) -> Seq<InfoV> {
    if members(c, class).len() == 0 {
        sofar
    } else {
        sofar.push(class_info(class, members(c, class)))
    }
}

/// The listing: the models by id, then every class with a member.
pub open spec fn listing(c: ConfigV) -> Seq<InfoV> {
    with_class(
        c,
        ModelClass::Haiku,
        with_class(
            c,
            ModelClass::Sonnet,
            with_class(c, ModelClass::Opus, sorting::sorted::<ModelInfo>(infos_from(c, 0, Seq::empty()))),
        ),
    )
}

impl Registry {
    pub fn new(config: Arc<AppConfig>) -> (r: Registry)
        ensures
            r@ == (*config)@,
    {
        Registry { config }
    }

    pub fn config(&self) -> (r: &AppConfig)
        ensures
            r@ == self@,
    {
        &self.config
    }

    pub fn snapshot(&self) -> (r: Arc<AppConfig>)
        ensures
            (*r)@ == self@,
    {
        Arc::clone(&self.config)
    }

    fn find_by_id(&self, id: &str) -> (r: Option<&ModelEntry>)
        ensures
            views::opt_ref(r) == by_id(self@.models, id@, 0),
    {
        let models = &self.config().models;
        let ghost all = self@.models;
        for i in 0..models.len()
            invariant
                all == self@.models,
                all == views::of(models@),
                by_id(all, id@, 0) == by_id(all, id@, i as int),
        {
            assert(all[i as int] == models@[i as int]@);
            if models[i].enabled {
                let own = models[i].exposed_id();
                if same(own.as_str(), id) {
                    return Some(&models[i]);
                }
            }
        }
        None
    }

    fn find_by_alias(&self, id: &str) -> (r: Option<&ModelEntry>)
        ensures
            views::opt_ref(r) == by_alias(self@.models, id@, 0),
    {
        let models = &self.config().models;
        let ghost all = self@.models;
        for i in 0..models.len()
            invariant
                all == self@.models,
                all == views::of(models@),
                by_alias(all, id@, 0) == by_alias(all, id@, i as int),
        {
            assert(all[i as int] == models@[i as int]@);
            if models[i].enabled && is_listed(&models[i].aliases, id) {
                return Some(&models[i]);
            }
        }
        None
    }

    fn find(&self, id: &str) -> (r: Option<&ModelEntry>)
        ensures
            views::opt_ref(r) == answering(self@.models, id@, 0),
    {
        let models = &self.config().models;
        let ghost all = self@.models;
        for i in 0..models.len()
            invariant
                all == self@.models,
                all == views::of(models@),
                answering(all, id@, 0) == answering(all, id@, i as int),
        {
            assert(all[i as int] == models@[i as int]@);
            if models[i].answers_to(id) {
                return Some(&models[i]);
            }
        }
        None
    }

    fn find_client_alias(&self, name: &str) -> (r: Option<ModelClass>)
        ensures
            r == aliased(self@.routing.client_aliases, name@, 0),
    {
        let aliases = &self.config().routing.client_aliases;
        let ghost all = self@.routing.client_aliases;
        for i in 0..aliases.len()
            invariant
                all == self@.routing.client_aliases,
                all == views::of(aliases@),
                aliased(all, name@, 0) == aliased(all, name@, i as int),
        {
            assert(all[i as int] == aliases@[i as int]@);
            if same(aliases[i].name.as_str(), name) {
                return Some(aliases[i].class);
            }
        }
        None
    }

    fn class_of(&self, asked: &str) -> (r: Option<ModelClass>)
        ensures
            r == class_for(self@, asked@),
    {
        if let Some(class) = ModelClass::from_virtual_id(asked) {
            return Some(class);
        }
        if let Some(class) = self.find_client_alias(asked) {
            return Some(class);
        }
        if self.config().routing.match_claude_names {
            class_from_name(asked)
        } else {
            None
        }
    }

    /// Resolve the model id of a request. A modifier that the client appended is a
    /// hint and no part of the name, so it goes first; an error speaks of the id as
    /// it was sent.
    pub fn resolve_request(&self, requested: &str) -> (r: Result<Resolution, Error>)
        ensures
            error::outcome(r) == asked_for(self@, requested@),
    {
        let asked = trim(requested);
        match self.resolve(strip_client_model_modifier(&asked)) {
            Ok(resolution) => Ok(resolution),
            Err(_) => self.resolve(requested),
        }
    }

    /// Resolve what the client asked for.
    ///
    /// Order: exact model id, model alias, `*-class` virtual id, configured
    /// client alias, class name heuristic (opt-in), unknown-model
    /// fallback class.
    pub fn resolve(&self, requested: &str) -> (r: Result<Resolution, Error>)
        ensures
            error::outcome(r) == resolved(self@, requested@),
    {
        let asked = trim(requested);
        if asked.unicode_len() == 0 {
            return Err(Error::invalid("`model` must not be empty"));
        }
        if let Some(m) = self.find_by_id(asked) {
            return Ok(Resolution::Direct(m.exposed_id()));
        }
        if let Some(m) = self.find_by_alias(asked) {
            return Ok(Resolution::Direct(m.exposed_id()));
        }
        if let Some(class) = self.class_of(asked) {
            return Ok(Resolution::Class(class));
        }
        if let Some(class) = self.config().routing.unknown_model_fallback {
            return Ok(Resolution::Class(class));
        }
        // A disabled-but-known id gets a clearer error than a typo.
        match self.find(asked) {
            Some(m) => {
                let id = m.exposed_id();
                Err(Error::UnknownModel(concat(id.as_str(), " (disabled)")))
            },
            None => Err(Error::UnknownModel(asked.to_owned())),
        }
    }

    /// All enabled models of a class, sorted by priority (ascending) then id.
    pub fn class_members(&self, class: ModelClass) -> (r: Vec<&ModelEntry>)
        ensures
            views::of(r@) == members(self@, class),
    {
        let config = self.config();
        let mut out: Vec<&ModelEntry> = Vec::new();
        for i in 0..config.models.len()
            invariant
                config@ == self@,
                members_from(self@, class, 0, Seq::empty()) == members_from(
                    self@,
                    class,
                    i as int,
                    views::of(out@),
                ),
        {
            let m: &ModelEntry = &config.models[i];
            assert(self@.models[i as int] == m@);
            let takes_part = match m.class {
                Some(c) => c == class,
                None => false,
            };
            if m.enabled && takes_part && config.provider_in_use(m.provider_id.as_str()) {
                out.push(m);
            }
        }
        sort_refs(out)
    }

    /// Look up a model by exposed id or alias, enabled or not.
    pub fn entry(&self, id: &str) -> (r: Result<&ModelEntry, Error>)
        ensures
            error::outcome(r) == entry_of(self@, id@),
    {
        match self.find(id) {
            Some(m) => Ok(m),
            None => Err(Error::UnknownModel(id.to_owned())),
        }
    }

    pub fn provider_of(&self, entry: &ModelEntry) -> (r: Result<&ProviderConfig, Error>)
        ensures
            error::outcome(r) == provider_for(self@, entry@),
    {
        match self.config().provider(entry.provider_id.as_str()) {
            Some(p) => Ok(p),
            None => {
                let front = concat3("model `", entry.upstream_model.as_str(), "` references unknown provider `");
                Err(Error::Internal(concat3(front.as_str(), entry.provider_id.as_str(), "`")))
            },
        }
    }

    fn push_class(&self, class: ModelClass, out: &mut Vec<ModelInfo>)
        ensures
            views::of(final(out)@) == with_class(self@, class, views::of(old(out)@)),
    {
        let found = self.class_members(class);
        if found.len() == 0 {
            return;
        }
        let ghost all = views::of(found@);
        let mut tools = true;
        let mut vision = true;
        let mut thinking = true;
        for i in 0..found.len()
            invariant
                all == views::of(found@),
                tools == (forall|j: int| 0 <= j < i ==> (#[trigger] all[j]).supports_tools),
                vision == (forall|j: int| 0 <= j < i ==> (#[trigger] all[j]).supports_vision),
                thinking == (forall|j: int| 0 <= j < i ==> (#[trigger] all[j]).supports_thinking),
        {
            assert(all[i as int] == found@[i as int]@);
            tools = tools && found[i].supports_tools;
            vision = vision && found[i].supports_vision;
            thinking = thinking && found[i].supports_thinking;
        }
        out.push(
            ModelInfo {
                id: class.virtual_id().to_owned(),
                display_name: concat(class.virtual_id(), " (auto)"),
                provider_name: None,
                class: Some(class),
                virtual_model: true,
                member_count: found.len(),
                aliases: Vec::new(),
                supports_tools: tools,
                supports_vision: vision,
                supports_thinking: thinking,
            },
        );
    }

    /// The listing returned by `GET /v1/models`: concrete models first, then any
    /// class id that currently has at least one usable member.
    pub fn list(&self) -> (r: Vec<ModelInfo>)
        ensures
            views::of(r@) == listing(self@),
    {
        let config = self.config();
        let mut out: Vec<ModelInfo> = Vec::new();
        for i in 0..config.models.len()
            invariant
                config@ == self@,
                infos_from(self@, 0, Seq::empty()) == infos_from(self@, i as int, views::of(out@)),
        {
            let m: &ModelEntry = &config.models[i];
            assert(self@.models[i as int] == m@);
            if m.enabled {
                if let Some(p) = config.provider(m.provider_id.as_str()) {
                    if p.enabled {
                        let display_name = match &m.display_name {
                            Some(name) => name.clone(),
                            None => m.upstream_model.clone(),
                        };
                        out.push(
                            ModelInfo {
                                id: m.exposed_id(),
                                display_name,
                                provider_name: Some(p.name.clone()),
                                class: m.class,
                                virtual_model: false,
                                member_count: 0,
                                aliases: copy_strings(&m.aliases),
                                supports_tools: m.supports_tools,
                                supports_vision: m.supports_vision,
                                supports_thinking: m.supports_thinking,
                            },
                        );
                    }
                }
            }
        }
        let mut out = sort(out);
        self.push_class(ModelClass::Opus, &mut out);
        self.push_class(ModelClass::Sonnet, &mut out);
        self.push_class(ModelClass::Haiku, &mut out);
        out
    }
}

/// The model that answers to an id.
pub open spec fn entry_of(c: ConfigV, id: Seq<char>) -> Result<EntryV, ErrorV> {
    match answering(c.models, id, 0) {
        Some(m) => Ok(m),
        None => Err(ErrorV::UnknownModel(id)),
    }
}

/// The provider of a model.
pub open spec fn provider_for(c: ConfigV, m: EntryV) -> Result<ProviderV, ErrorV> {
    match c.provider(m.provider_id) {
        Some(p) => Ok(p),
        None => Err(
            ErrorV::Internal(
                "model `"@ + m.upstream_model + "` references unknown provider `"@ + m.provider_id + "`"@,
            ),
        ),
    }
}

/// Recognise Anthropic-style model names sent by clients.
pub fn class_from_name(name: &str) -> (r: Option<ModelClass>)
    ensures
        r == class_in_name(name@),
{
    let n = to_ascii_lowercase(name);
    if contains(n.as_str(), "opus") {
        Some(ModelClass::Opus)
    } else if contains(n.as_str(), "sonnet") {
        Some(ModelClass::Sonnet)
    } else if contains(n.as_str(), "haiku") {
        Some(ModelClass::Haiku)
    } else {
        None
    }
}

// ---------------------------------------------------------------------- laws

/// Models are ordered by priority and id as sorting asks.
pub proof fn models_are_ordered()
    ensures
        sorting::is_order::<ModelEntry>(),
{
    assert forall|a: EntryV| !#[trigger] <ModelEntry as Ranked>::before(a, a) by {
        text::texts_are_ordered(a.exposed_id(), a.exposed_id(), a.exposed_id());
    }
    assert forall|a: EntryV, b: EntryV, c: EntryV|
        #[trigger] <ModelEntry as Ranked>::before(a, b) && #[trigger] <ModelEntry as Ranked>::before(
            b,
            c,
        ) implies <ModelEntry as Ranked>::before(a, c) by {
        text::texts_are_ordered(a.exposed_id(), b.exposed_id(), c.exposed_id());
    }
    assert forall|a: EntryV, b: EntryV, c: EntryV|
        !#[trigger] <ModelEntry as Ranked>::before(b, a) && !#[trigger] <ModelEntry as Ranked>::before(
            c,
            b,
        ) implies !<ModelEntry as Ranked>::before(c, a) by {
        let (x, y, z) = (a.exposed_id(), b.exposed_id(), c.exposed_id());
        text::texts_are_ordered(x, y, z);
        text::texts_are_ordered(y, z, x);
        text::texts_are_ordered(z, x, y);
        text::texts_are_ordered(z, y, x);
        text::texts_are_ordered(y, x, z);
        text::texts_are_ordered(x, z, y);
    }
}

/// The members of a class come by priority.
pub proof fn members_come_by_priority(c: ConfigV, class: ModelClass)
    ensures
        forall|i: int, j: int|
            0 <= i < j < members(c, class).len() ==> (#[trigger] members(c, class)[i]).priority <= (
            #[trigger] members(c, class)[j]).priority,
{
    models_are_ordered();
    let all = members_from(c, class, 0, Seq::empty());
    sorting::sorting_orders::<ModelEntry>(all);
    let ms = members(c, class);
    assert forall|i: int, j: int| 0 <= i < j < ms.len() implies (#[trigger] ms[i]).priority <= (
    #[trigger] ms[j]).priority by {
        assert(!<ModelEntry as Ranked>::before(ms[j], ms[i]));
    }
}

proof fn gathered_members(c: ConfigV, class: ModelClass, i: int, sofar: Seq<EntryV>, m: EntryV)
    requires
        0 <= i <= c.models.len(),
    ensures
        members_from(c, class, i, sofar).contains(m) <==> sofar.contains(m) || (is_member(c, m, class) && exists|k: int|
            i <= k < c.models.len() && #[trigger] c.models[k] == m),
    decreases c.models.len() - i,
{
    if i < c.models.len() {
        let x = c.models[i];
        let next = if is_member(c, x, class) {
            sofar.push(x)
        } else {
            sofar
        };
        gathered_members(c, class, i + 1, next, m);
        assert(next.contains(m) <==> sofar.contains(m) || (is_member(c, x, class) && x == m)) by {
            if is_member(c, x, class) {
                assert(next[sofar.len() as int] == x);
                if sofar.contains(m) {
                    let k = choose|k: int| 0 <= k < sofar.len() && sofar[k] == m;
                    assert(next[k] == m);
                }
            }
        }
    }
}

/// The members of a class are the enabled models of that class whose provider is in
/// use, and no others: a provider that is switched off takes its models out of every
/// class.
pub proof fn classes_hold_their_members(c: ConfigV, class: ModelClass, m: EntryV)
    ensures
        members(c, class).contains(m) <==> c.models.contains(m) && m.enabled && m.class == Some(class)
            && c.provider_in_use(m.provider_id),
{
    let all = members_from(c, class, 0, Seq::empty());
    gathered_members(c, class, 0, Seq::empty(), m);
    sorting::sorting_keeps_items::<ModelEntry>(all);
    all.to_multiset_ensures();
    members(c, class).to_multiset_ensures();
    assert(members(c, class).contains(m) <==> all.contains(m)) by {
        assert(members(c, class).to_multiset().count(m) > 0 <==> all.to_multiset().count(m) > 0);
    }
}

proof fn an_answering_model_is_found(models: Seq<EntryV>, id: Seq<char>, i: int, k: int)
    requires
        0 <= i <= k < models.len(),
        models[k].answers_to(id),
    ensures
        answering(models, id, i) is Some,
    decreases k - i,
{
    if !models[i].answers_to(id) {
        an_answering_model_is_found(models, id, i + 1, k);
    }
}

proof fn an_id_is_a_model(models: Seq<EntryV>, id: Seq<char>, i: int) -> (k: int)
    requires
        0 <= i <= models.len(),
        by_id(models, id, i) is Some,
    ensures
        0 <= k < models.len(),
        by_id(models, id, i) == Some(models[k]),
    decreases models.len() - i,
{
    if models[i].enabled && models[i].exposed_id() == id {
        i
    } else {
        an_id_is_a_model(models, id, i + 1)
    }
}

proof fn an_alias_is_a_model(models: Seq<EntryV>, id: Seq<char>, i: int) -> (k: int)
    requires
        0 <= i <= models.len(),
        by_alias(models, id, i) is Some,
    ensures
        0 <= k < models.len(),
        by_alias(models, id, i) == Some(models[k]),
    decreases models.len() - i,
{
    if models[i].enabled && text::listed(models[i].aliases, id) {
        i
    } else {
        an_alias_is_a_model(models, id, i + 1)
    }
}

/// An id that leads to one model leads to a model that is there.
pub proof fn resolutions_lead_to_models(c: ConfigV, requested: Seq<char>)
    ensures
        resolved(c, requested) matches Ok(ResolutionV::Direct(id)) ==> entry_of(c, id) is Ok,
{
    let asked = text::trimmed(requested);
    if let Ok(ResolutionV::Direct(id)) = resolved(c, requested) {
        let k = if by_id(c.models, asked, 0) is Some {
            an_id_is_a_model(c.models, asked, 0)
        } else {
            an_alias_is_a_model(c.models, asked, 0)
        };
        assert(c.models[k].exposed_id() == id);
        an_answering_model_is_found(c.models, id, 0, k);
    }
}

/// What the listing says of a model: nothing of one that is switched off, or whose
/// provider is not in use.
pub open spec fn listed_model(c: ConfigV, m: EntryV) -> Option<InfoV> {
    if m.enabled && c.provider_in_use(m.provider_id) {
        Some(model_info(m, c.provider(m.provider_id)->0))
    } else {
        None
    }
}

/// What the listing says of a class: nothing of one without members.
pub open spec fn listed_class(c: ConfigV, class: ModelClass) -> Option<InfoV> {
    if members(c, class).len() > 0 {
        Some(class_info(class, members(c, class)))
    } else {
        None
    }
}

/// The listed models, as they are configured.
pub open spec fn listed_models(c: ConfigV) -> Seq<InfoV> {
    c.models.filter_map(|m: EntryV| listed_model(c, m))
}

/// The listed classes, the largest first.
pub open spec fn listed_classes(c: ConfigV) -> Seq<InfoV> {
    seq![ModelClass::Opus, ModelClass::Sonnet, ModelClass::Haiku].filter_map(|k: ModelClass| listed_class(c, k))
}

proof fn infos_are_listed(c: ConfigV, i: int)
    requires
        0 <= i <= c.models.len(),
    ensures
        infos_from(c, 0, Seq::empty()) == infos_from(
            c,
            i,
            c.models.take(i).filter_map(|m: EntryV| listed_model(c, m)),
        ),
    decreases i,
{
    let f = |m: EntryV| listed_model(c, m);
    if i > 0 {
        infos_are_listed(c, i - 1);
        let front = c.models.take(i);
        assert(front.drop_last() =~= c.models.take(i - 1));
        let before = c.models.take(i - 1).filter_map(f);
        let m = c.models[i - 1];
        assert(front.last() == m);
        if let Some(info) = f(m) {
            assert(front.filter_map(f) =~= before.push(info));
        } else {
            assert(front.filter_map(f) == before);
        }
    } else {
        assert(c.models.take(0).filter_map(f) =~= Seq::empty());
    }
}

proof fn infos_are_ordered()
    ensures
        sorting::is_order::<ModelInfo>(),
{
    assert forall|a: InfoV| !#[trigger] <ModelInfo as Ranked>::before(a, a) by {
        text::texts_are_ordered(a.id, a.id, a.id);
    }
    assert forall|a: InfoV, b: InfoV, c: InfoV|
        #[trigger] <ModelInfo as Ranked>::before(a, b) && #[trigger] <ModelInfo as Ranked>::before(
            b,
            c,
        ) implies <ModelInfo as Ranked>::before(a, c) by {
        text::texts_are_ordered(a.id, b.id, c.id);
    }
    assert forall|a: InfoV, b: InfoV, c: InfoV|
        !#[trigger] <ModelInfo as Ranked>::before(b, a) && !#[trigger] <ModelInfo as Ranked>::before(
            c,
            b,
        ) implies !<ModelInfo as Ranked>::before(c, a) by {
        let (x, y, z) = (a.id, b.id, c.id);
        text::texts_are_ordered(x, y, z);
        text::texts_are_ordered(y, z, x);
        text::texts_are_ordered(z, x, y);
        text::texts_are_ordered(z, y, x);
        text::texts_are_ordered(y, x, z);
        text::texts_are_ordered(x, z, y);
    }
}

/// The listing holds the models first, by id, one entry for each that is enabled on a
/// provider in use. Behind them come the classes that have members, the largest first,
/// one entry for each.
pub proof fn listing_is_models_then_classes(c: ConfigV)
    ensures
        ({
            let n = listed_models(c).len() as int;
            let first = listing(c).take(n);
            &&& n <= listing(c).len()
            &&& first.to_multiset() == listed_models(c).to_multiset()
            &&& forall|i: int, j: int|
                0 <= i < j < n ==> !text::before((#[trigger] first[j]).id, (#[trigger] first[i]).id)
            &&& listing(c).skip(n) == listed_classes(c)
        }),
{
    let all = infos_from(c, 0, Seq::empty());
    infos_are_listed(c, c.models.len() as int);
    assert(c.models.take(c.models.len() as int) =~= c.models);
    assert(all == listed_models(c));
    infos_are_ordered();
    let sorted = sorting::sorted::<ModelInfo>(all);
    sorting::sorting_keeps_items::<ModelInfo>(all);
    sorting::sorting_orders::<ModelInfo>(all);
    let n = all.len() as int;
    assert(listing(c).take(n) =~= sorted);
    assert forall|i: int, j: int| 0 <= i < j < n implies !text::before(
        (#[trigger] sorted[j]).id,
        (#[trigger] sorted[i]).id,
    ) by {
        assert(!<ModelInfo as Ranked>::before(sorted[j], sorted[i]));
    }
    let f = |k: ModelClass| listed_class(c, k);
    let classes = seq![ModelClass::Opus, ModelClass::Sonnet, ModelClass::Haiku];
    assert(classes.drop_last() =~= seq![ModelClass::Opus, ModelClass::Sonnet]);
    assert(classes.drop_last().drop_last() =~= seq![ModelClass::Opus]);
    assert(classes.drop_last().drop_last().drop_last() =~= Seq::empty());
    reveal_with_fuel(Seq::filter_map, 4);
    assert(listing(c).skip(n) =~= classes.filter_map(f));
}

} // verus!
