//! Who is let in, where a request goes, and what the gateway itself answers.

use vstd::prelude::*;

use crate::config::{EntryV, ModelClass, ProviderV, ServerV};
use crate::error::ErrorV;
use crate::headers;
use crate::ir::Dialect;
use crate::json;
use crate::json::{Lookup, Tree};
use crate::laws;
use crate::registry;
use crate::registry::InfoV;
use crate::router;
use crate::router::{HealthV, ModelHealthV};
use crate::server;
use crate::server::{CorsV, PriceV};
use crate::text;

verus! {

// --------------------------------------------------------------------- entry

/// Where entry is guarded, exactly those pass that show the token, in either of two
/// headers, and nobody passes where no token is set. Of two headers the first counts.
pub proof fn entry_takes_the_token(server: ServerV, key: Option<Seq<char>>, auth: Option<Seq<char>>)
    ensures
        !server.require_auth ==> server::may_pass(server, key, auth),
        server.require_auth && server.auth_token.len() == 0 ==> !server::may_pass(server, key, auth),
        server.require_auth && server.auth_token.len() > 0 ==> (server::may_pass(server, key, auth) <==> match key {
            Some(k) => k == server.auth_token,
            None => auth == Some("Bearer "@ + server.auth_token),
        }),
{
    let b = "Bearer "@;
    if key is None && auth is Some {
        let a = auth->0;
        if b.is_prefix_of(a) && a.skip(b.len() as int) == server.auth_token {
            assert(a =~= b + server.auth_token);
        }
        if a == b + server.auth_token {
            assert(a.subrange(0, b.len() as int) =~= b);
            assert(a.skip(b.len() as int) =~= server.auth_token);
        }
    }
}

/// A provider without a key reference needs no key; any other has the key that is kept
/// for it, and without one it cannot be asked.
pub proof fn keys_are_found(p: ProviderV, secret: Option<Seq<char>>)
    ensures
        p.key_ref.len() == 0 ==> server::key_of(p, secret) == Ok::<Option<Seq<char>>, ErrorV>(None),
        p.key_ref.len() > 0 && secret is Some && secret->0.len() > 0 ==> server::key_of(p, secret) == Ok::<
            Option<Seq<char>>,
            ErrorV,
        >(secret),
        p.key_ref.len() > 0 && (secret is None || secret->0.len() == 0) ==> server::key_of(p, secret) == Err::<
            Option<Seq<char>>,
            ErrorV,
        >(ErrorV::MissingApiKey(p.name)),
{
}

/// What an origin in the settings admits: itself, without the blanks around it, where it
/// can stand in a header.
pub open spec fn admits() -> spec_fn(Seq<char>) -> Option<Seq<char>> {
    |s: Seq<char>|
        if headers::is_value(text::trimmed(s)) {
            Some(text::trimmed(s))
        } else {
            None
        }
}

proof fn origins_are_kept(list: Seq<Seq<char>>, i: int)
    requires
        0 <= i <= list.len(),
    ensures
        server::origins_from(list, 0, Seq::empty()) == server::origins_from(
            list,
            i,
            list.take(i).filter_map(admits()),
        ),
    decreases i,
{
    if i > 0 {
        origins_are_kept(list, i - 1);
        laws::keeping_takes(list, i - 1, admits());
    } else {
        assert(list.take(0).filter_map(admits()) =~= Seq::empty());
    }
}

/// Pages of other origins are let in only where that is on: all of them where none is
/// named, else those that are named, in order.
pub proof fn named_origins_are_admitted(allow: bool, list: Seq<Seq<char>>)
    ensures
        !allow ==> server::admitted_origins(allow, list) == CorsV::Off,
        allow && list.len() == 0 ==> server::admitted_origins(allow, list) == CorsV::Any,
        allow && list.len() > 0 ==> server::admitted_origins(allow, list) == CorsV::Only(list.filter_map(admits())),
{
    origins_are_kept(list, list.len() as int);
    assert(list.take(list.len() as int) =~= list);
}

// --------------------------------------------------------------------- paths

/// A path that speaks of messages or of counting tokens is meant in Anthropic's dialect,
/// any other in OpenAI's.
pub proof fn paths_hint_at_a_dialect(a: Seq<char>, b: Seq<char>, path: Seq<char>)
    ensures
        server::likely_dialect(a + "messages"@ + b) == Dialect::Anthropic,
        server::likely_dialect(a + "count_tokens"@ + b) == Dialect::Anthropic,
        !text::occurs(path, "messages"@) && !text::occurs(path, "count_tokens"@) ==> server::likely_dialect(path)
            == Dialect::OpenAI,
{
    let m = "messages"@;
    let s = a + m + b;
    assert(s.subrange(a.len() as int, (a.len() + m.len()) as int) =~= m);
    assert(text::occurs_at(s, m, a.len() as int));
    let c = "count_tokens"@;
    let t = a + c + b;
    assert(t.subrange(a.len() as int, (a.len() + c.len()) as int) =~= c);
    assert(text::occurs_at(t, c, a.len() as int));
}

/// What an endpoint is asked with, under its path with the version or without: the
/// lists, a model, the status and the health are read, everything else is posted.
pub proof fn endpoints_have_their_verb(id: Seq<char>, path: Seq<char>)
    ensures
        server::wanted_verb("/v1/models"@) == "GET"@,
        server::wanted_verb("/v1/models/"@ + id) == "GET"@,
        server::wanted_verb("/v1/status"@) == "GET"@,
        server::wanted_verb("/health"@) == "GET"@,
        server::wanted_verb(path) == "GET"@ || server::wanted_verb(path) == "POST"@,
        server::wanted_verb(path) == "GET"@ <==> ({
            let p = server::unversioned(path);
            p == "/models"@ || "/models/"@.is_prefix_of(p) || p == "/status"@ || p == "/health"@
        }),
        "/v1"@.is_prefix_of(path) ==> path == "/v1"@ + server::unversioned(path),
        !"/v1"@.is_prefix_of(path) ==> server::unversioned(path) == path,
{
    reveal_strlit("/v1");
    reveal_strlit("/v1/models");
    reveal_strlit("/v1/models/");
    reveal_strlit("/v1/status");
    reveal_strlit("/health");
    reveal_strlit("/models");
    reveal_strlit("/models/");
    reveal_strlit("/status");
    reveal_strlit("GET");
    reveal_strlit("POST");
    assert("GET"@.len() == 3 && "POST"@.len() == 4);
    let v = "/v1"@;
    assert("/v1/models"@.subrange(0, 3) =~= v);
    assert("/v1/models"@.skip(3) =~= "/models"@);
    let one = "/v1/models/"@ + id;
    assert(one.subrange(0, 3) =~= v);
    assert(one.skip(3) =~= "/models/"@ + id);
    assert(("/models/"@ + id).subrange(0, 8) =~= "/models/"@);
    assert("/v1/status"@.subrange(0, 3) =~= v);
    assert("/v1/status"@.skip(3) =~= "/status"@);
    assert("/health"@[1] == 'h' && v[1] == 'v');
    if v.is_prefix_of("/health"@) {
        assert("/health"@.subrange(0, 3)[1] == v[1]);
    }
    if v.is_prefix_of(path) {
        assert(path =~= v + path.skip(3));
    }
}

/// The endpoints there are, in the order in which they are told.
pub proof fn endpoints_are_told()
    ensures
        server::endpoints() == seq![
            "/v1/messages"@,
            "/v1/messages/count_tokens"@,
            "/v1/chat/completions"@,
            "/v1/models"@,
            "/v1/models/{id}"@,
            "/v1/status"@,
            "/health"@,
        ],
{
    assert(server::endpoints() =~= seq![
        "/v1/messages"@,
        "/v1/messages/count_tokens"@,
        "/v1/chat/completions"@,
        "/v1/models"@,
        "/v1/models/{id}"@,
        "/v1/status"@,
        "/health"@,
    ]);
}

/// Who asks for what is not there is told what is, and where the version stands twice
/// in the path, that this may be why, with the path without it.
pub proof fn lost_requests_are_helped(method: Seq<char>, path: Seq<char>, rest: Seq<char>)
    ensures
        Tree::Obj(server::route_hint(path)).at("endpoints"@) == Some(json::text_list(server::endpoints())),
        !"/v1/v1/"@.is_prefix_of(path) ==> Tree::Obj(server::route_hint(path)).at("likely_cause"@) is None,
        Tree::Obj(server::route_hint("/v1/v1/"@ + rest)).at("likely_cause"@) == Some(
            Tree::Str(
                "the base URL already ends in /v1 and the client added another; drop the /v1 from the base URL and this becomes /v1/"@
                    + rest,
            ),
        ),
        server::route_error(method, path) == ErrorV::UnknownRoute(method + " "@ + path),
{
    reveal_strlit("endpoints");
    reveal_strlit("likely_cause");
    assert("endpoints"@.len() == 9 && "likely_cause"@.len() == 12);
    reveal_with_fuel(json::find_from, 3);
    let v = "/v1/v1/"@;
    let p = v + rest;
    assert(p.subrange(0, v.len() as int) =~= v);
    assert(p.skip(v.len() as int) =~= rest);
}

/// Who asks with the wrong verb is told which one is right.
pub proof fn wrong_verbs_are_corrected(method: Seq<char>, path: Seq<char>)
    ensures
        ({
            let t = server::wrong_verb(method, path);
            &&& t.at("error"@).at("message"@) == Some(
                Tree::Str(path + " is a "@ + server::wanted_verb(path) + " endpoint, not "@ + method),
            )
            &&& t.at("error"@).at("type"@) == Some(Tree::Str("invalid_request_error"@))
            &&& t.at("error"@).at("code"@) == Some(Tree::Str("method_not_allowed"@))
            &&& t.at("zroutery"@).at("endpoints"@) == Some(json::text_list(server::endpoints()))
        }),
{
    reveal_strlit("error");
    reveal_strlit("message");
    reveal_strlit("type");
    reveal_strlit("code");
    reveal_strlit("zroutery");
    assert("error"@.len() == 5 && "message"@.len() == 7 && "type"@.len() == 4 && "code"@.len() == 4 && "zroutery"@.len()
        == 8 && "type"@[0] == 't' && "code"@[0] == 'c');
    reveal_with_fuel(json::find_from, 4);
}

// ------------------------------------------------------------------- answers

proof fn listed_names()
    ensures
        "id"@.len() == 2,
        "object"@.len() == 6,
        "type"@.len() == 4,
        "created"@.len() == 7,
        "created_at"@.len() == 10,
        "display_name"@.len() == 12 && "display_name"@[0] == 'd',
        "owned_by"@.len() == 8 && "owned_by"@[0] == 'o',
        "zroutery"@.len() == 8 && "zroutery"@[0] == 'z',
        "class"@.len() == 5,
        "virtual"@.len() == 7,
        "member_count"@.len() == 12 && "member_count"@[0] == 'm',
        "provider"@.len() == 8 && "provider"@[0] == 'p',
        "supports_tools"@.len() == 14,
        "supports_vision"@.len() == 15,
        "supports_thinking"@.len() == 17,
{
    reveal_strlit("id");
    reveal_strlit("object");
    reveal_strlit("type");
    reveal_strlit("created");
    reveal_strlit("created_at");
    reveal_strlit("display_name");
    reveal_strlit("owned_by");
    reveal_strlit("zroutery");
    reveal_strlit("class");
    reveal_strlit("virtual");
    reveal_strlit("member_count");
    reveal_strlit("provider");
    reveal_strlit("supports_tools");
    reveal_strlit("supports_vision");
    reveal_strlit("supports_thinking");
}

/// The name of a class.
pub open spec fn class_name(c: ModelClass) -> Seq<char> {
    match c {
        ModelClass::Opus => "opus"@,
        ModelClass::Sonnet => "sonnet"@,
        ModelClass::Haiku => "haiku"@,
    }
}

/// A listed model tells its id and name, whose it is, its class and what it can do.
pub proof fn models_are_listed(i: InfoV, created: i64, at: Seq<char>)
    ensures
        ({
            let t = server::listed_model(i, created, at);
            let z = t.at("zroutery"@);
            &&& t.at("id"@) == Some(Tree::Str(i.id))
            &&& t.at("object"@) == Some(Tree::Str("model"@))
            &&& t.at("type"@) == Some(Tree::Str("model"@))
            &&& t.at("created"@) == Some(json::integer(created))
            &&& t.at("created_at"@) == Some(Tree::Str(at))
            &&& t.at("display_name"@) == Some(Tree::Str(i.display_name))
            &&& t.at("owned_by"@) == Some(
                Tree::Str(if i.provider_name is Some { i.provider_name->0 } else { "zroutery"@ }),
            )
            &&& z.at("class"@) == Some(if i.class is Some { Tree::Str(class_name(i.class->0)) } else { Tree::Null })
            &&& z.at("virtual"@) == Some(Tree::Bool(i.virtual_model))
            &&& z.at("member_count"@) == Some(json::num(i.member_count))
            &&& z.at("provider"@) == Some(
                if i.provider_name is Some { Tree::Str(i.provider_name->0) } else { Tree::Null },
            )
            &&& z.at("supports_tools"@) == Some(Tree::Bool(i.supports_tools))
            &&& z.at("supports_vision"@) == Some(Tree::Bool(i.supports_vision))
            &&& z.at("supports_thinking"@) == Some(Tree::Bool(i.supports_thinking))
        }),
{
    listed_names();
    reveal_with_fuel(json::find_from, 9);
}

/// The listing holds every model in order, and says which is the first and the last.
pub proof fn listings_are_whole(list: Seq<InfoV>, created: i64, at: Seq<char>)
    ensures
        ({
            let t = server::model_listing(list, created, at);
            &&& t.at("object"@) == Some(Tree::Str("list"@))
            &&& t.at("data"@) == Some(
                Tree::Arr(list.map_values(|i: InfoV| server::listed_model(i, created, at))),
            )
            &&& t.at("has_more"@) == Some(Tree::Bool(false))
            &&& list.len() > 0 ==> t.at("first_id"@) == Some(Tree::Str(list[0].id)) && t.at("last_id"@) == Some(
                Tree::Str(list[list.len() - 1].id),
            )
            &&& list.len() == 0 ==> t.at("first_id"@) == Some(Tree::Str(""@)) && t.at("last_id"@) == Some(
                Tree::Str(""@),
            )
        }),
{
    reveal_strlit("object");
    reveal_strlit("data");
    reveal_strlit("has_more");
    reveal_strlit("first_id");
    reveal_strlit("last_id");
    assert("object"@.len() == 6 && "data"@.len() == 4 && "has_more"@.len() == 8 && "first_id"@.len() == 8
        && "last_id"@.len() == 7 && "has_more"@[0] == 'h' && "first_id"@[0] == 'f');
    reveal_with_fuel(json::find_from, 6);
    let f = |i: InfoV| server::listed_model(i, created, at);
    assert(Seq::new(list.len(), |i: int| server::listed_model(list[i], created, at)) =~= list.map_values(f));
}

proof fn the_first_info(list: Seq<InfoV>, id: Seq<char>, i: int)
    requires
        0 <= i <= list.len(),
        forall|j: int| 0 <= j < i ==> (#[trigger] list[j]).id != id,
    ensures
        laws::is_first(list, |x: InfoV| x.id == id, server::info_from(list, id, i)),
    decreases list.len() - i,
{
    if i < list.len() {
        if list[i].id == id {
            let p = |x: InfoV| x.id == id;
            assert(list[i] == list[i] && p(list[i]) && forall|j: int| 0 <= j < i ==> !p(#[trigger] list[j]));
        } else {
            the_first_info(list, id, i + 1);
        }
    }
}

/// One model of the listing is found by its id.
pub proof fn listed_models_are_found(list: Seq<InfoV>, id: Seq<char>)
    ensures
        laws::is_first(list, |x: InfoV| x.id == id, server::info_from(list, id, 0)),
{
    the_first_info(list, id, 0);
}

/// What a count of tokens tells: the estimate, that it is one, for which model, and
/// where the model has a price what the input would cost.
pub proof fn counts_are_told(n: u64, model: Option<Seq<char>>, price: Option<PriceV>)
    ensures
        ({
            let t = server::token_count(n, model, price);
            let z = t.at("zroutery"@);
            &&& t.at("input_tokens"@) == Some(Tree::UInt(n))
            &&& z.at("estimated"@) == Some(Tree::Bool(true))
            &&& z.at("model"@) == match model {
                Some(id) => Some(Tree::Str(id)),
                None => None,
            }
            &&& model is Some && price is Some ==> {
                &&& z.at("estimated_input_cost"@).at("currency"@) == Some(Tree::Str(price->0.currency))
                &&& z.at("estimated_input_cost"@).at("amount"@) == Some(price->0.input_cost)
                &&& z.at("input_per_mtok"@) == Some(price->0.input_per_mtok)
                &&& z.at("output_per_mtok"@) == Some(price->0.output_per_mtok)
            }
            &&& model is None || price is None ==> z.at("estimated_input_cost"@) is None
        }),
{
    reveal_strlit("input_tokens");
    reveal_strlit("zroutery");
    reveal_strlit("estimated");
    reveal_strlit("model");
    reveal_strlit("estimated_input_cost");
    reveal_strlit("currency");
    reveal_strlit("amount");
    reveal_strlit("input_per_mtok");
    reveal_strlit("output_per_mtok");
    assert("input_tokens"@.len() == 12 && "zroutery"@.len() == 8 && "estimated"@.len() == 9 && "model"@.len() == 5
        && "estimated_input_cost"@.len() == 20 && "currency"@.len() == 8 && "amount"@.len() == 6
        && "input_per_mtok"@.len() == 14 && "output_per_mtok"@.len() == 15);
    reveal_with_fuel(json::find_from, 6);
}

/// How many providers are in use is how many are switched on.
pub proof fn providers_in_use_are_counted(ps: Seq<ProviderV>, i: int)
    requires
        0 <= i <= ps.len(),
    ensures
        server::in_use_from(ps, i) == laws::those(ps.skip(i), |p: ProviderV| p.enabled).len(),
    decreases ps.len() - i,
{
    let on = |p: ProviderV| p.enabled;
    if i < ps.len() {
        providers_in_use_are_counted(ps, i + 1);
        laws::keeping_first(ps, i, laws::keeper(on));
    } else {
        laws::nothing_is_left(ps, laws::keeper(on), |p: ProviderV| Seq::<ProviderV>::empty());
    }
}

/// What the listing says of a model is what is configured of it: the name it is shown
/// under or else its own, whose it is, and what it can do.
pub proof fn infos_are_of_their_model(m: EntryV, p: ProviderV)
    ensures
        registry::model_info(m, p) == (InfoV {
            id: m.exposed_id(),
            display_name: if m.display_name is Some { m.display_name->0 } else { m.upstream_model },
            provider_name: Some(p.name),
            class: m.class,
            virtual_model: false,
            member_count: 0,
            aliases: m.aliases,
            supports_tools: m.supports_tools,
            supports_vision: m.supports_vision,
            supports_thinking: m.supports_thinking,
        }),
{
}

/// A class is listed under its own id with how many members it has, and as able to do
/// what every one of them can.
pub proof fn classes_can_what_all_members_can(class: ModelClass, members: Seq<EntryV>)
    ensures
        ({
            let i = registry::class_info(class, members);
            &&& i.id == class.id()
            &&& i.display_name == class.id() + " (auto)"@
            &&& i.provider_name is None
            &&& i.class == Some(class)
            &&& i.virtual_model
            &&& i.member_count == members.len()
            &&& i.aliases.len() == 0
            &&& i.supports_tools <==> laws::those(members, |m: EntryV| !m.supports_tools).len() == 0
            &&& i.supports_vision <==> laws::those(members, |m: EntryV| !m.supports_vision).len() == 0
            &&& i.supports_thinking <==> laws::those(members, |m: EntryV| !m.supports_thinking).len() == 0
        }),
{
    let (t, v, h) = (
        |m: EntryV| !m.supports_tools,
        |m: EntryV| !m.supports_vision,
        |m: EntryV| !m.supports_thinking,
    );
    none_of_those(members, t);
    none_of_those(members, v);
    none_of_those(members, h);
}

proof fn none_of_those(s: Seq<EntryV>, p: spec_fn(EntryV) -> bool)
    ensures
        laws::those(s, p).len() == 0 <==> forall|i: int| 0 <= i < s.len() ==> !p(#[trigger] s[i]),
{
    let kept = laws::those(s, p);
    if kept.len() > 0 {
        laws::those_are_there(s, p, kept[0]);
        assert(kept.contains(kept[0]));
        let k = choose|k: int| 0 <= k < s.len() && s[k] == kept[0];
        assert(p(s[k]));
    } else {
        assert forall|i: int| 0 <= i < s.len() implies !p(#[trigger] s[i]) by {
            laws::those_are_there(s, p, s[i]);
            assert(s.contains(s[i]));
        }
    }
}

/// The health that is shown of a model is what is known of it.
pub proof fn health_is_shown_as_known(id: Seq<char>, h: HealthV, now: u64)
    ensures
        router::shown(id, h, now) == (ModelHealthV {
            model_id: id,
            state: h.breaker.state,
            consecutive_failures: h.breaker.failures,
            total_success: h.total_success,
            total_failure: h.total_failure,
            latency_rank: h.latency_rank,
            cooldown_remaining_secs: h.breaker.remaining_secs(now),
            last_error: h.last_error,
        }),
{
}

} // verus!
