//! What reading gives back of OpenAI requests that were written, settings and all.

use crate::error::ErrorV;
use crate::ir::{ChoiceV, Dialect, RequestV, ThinkingConfig, ToolV, UnsupportedContentPolicy};
use crate::json;
use crate::json::{Build, Lookup, Tree};
use crate::protocol::openai;
use crate::protocol::round_trips;
use crate::protocol::round_trips::openai::Turn;
use crate::protocol::ProviderQuirks;
use vstd::prelude::*;

verus! {

/// A tool as OpenAI tells it: a description that is missing is an empty one.
pub open spec fn told_tool(t: ToolV) -> ToolV {
    ToolV {
        description: Some(
            match t.description {
                Some(d) => d,
                None => Seq::empty(),
            },
        ),
        cache_control: None,
        ..t
    }
}

pub open spec fn told_tools(ts: Seq<ToolV>) -> Seq<ToolV> {
    Seq::new(ts.len(), |i: int| told_tool(ts[i]))
}

/// A budget as OpenAI tells it: one of three efforts, or none.
pub open spec fn told_effort(t: ThinkingConfig) -> ThinkingConfig {
    let budget = match t.budget_tokens {
        Some(b) => b,
        None => 4096,
    };
    if !t.enabled {
        ThinkingConfig { enabled: false, budget_tokens: None }
    } else if budget <= 1024 {
        ThinkingConfig { enabled: true, budget_tokens: Some(1024) }
    } else if budget >= 16384 {
        ThinkingConfig { enabled: true, budget_tokens: Some(16384) }
    } else {
        ThinkingConfig { enabled: true, budget_tokens: Some(4096) }
    }
}

/// The request that is read from what was written of one for a provider with quirks.
pub open spec fn read_back(req: RequestV, model: Seq<char>, q: ProviderQuirks) -> RequestV {
    RequestV {
        model,
        source_dialect: Dialect::OpenAI,
        system: req.system,
        messages: req.messages,
        max_tokens: req.max_tokens,
        temperature: if q.drop_temperature { None } else { req.temperature },
        top_p: if q.drop_top_p { None } else { req.top_p },
        top_k: None,
        stop_sequences: if q.drop_stop { Seq::empty() } else { req.stop_sequences },
        stream: req.stream,
        tools: told_tools(req.tools),
        tool_choice: req.tool_choice,
        thinking: match req.thinking {
            Some(t) => if q.send_reasoning_effort { Some(told_effort(t)) } else { None },
            None => None,
        },
        metadata_user: req.metadata_user,
        passthrough: if req.source_dialect == Dialect::OpenAI { req.passthrough } else { Seq::empty() },
        unsupported_content_policy: UnsupportedContentPolicy::Drop,
    }
}

/// Fields that OpenAI requests do not have, none twice: what reading a request leaves
/// over.
pub open spec fn left_over(m: Seq<(Seq<char>, Tree)>) -> bool {
    &&& forall|i: int| 0 <= i < m.len() ==> !openai::known_key((#[trigger] m[i]).0)
    &&& forall|i: int, j: int| 0 <= i < j < m.len() ==> (#[trigger] m[i]).0 != (#[trigger] m[j]).0
}

/// Every field is one that OpenAI requests have.
spec fn all_known(m: Seq<(Seq<char>, Tree)>) -> bool {
    forall|i: int| 0 <= i < m.len() ==> openai::known_key((#[trigger] m[i]).0)
}

broadcast proof fn known_fields_stay_known(m: Seq<(Seq<char>, Tree)>, key: Seq<char>, v: Option<Tree>)
    requires
        all_known(m),
        openai::known_key(key),
    ensures
        #[trigger] all_known(round_trips::with_some(m, key, v)),
{
    reveal(json::put);
    reveal(round_trips::with_some);
}

proof fn filling_appends(b: Seq<(Seq<char>, Tree)>, more: Seq<(Seq<char>, Tree)>, i: int)
    requires
        0 <= i <= more.len(),
        all_known(b),
        left_over(more),
    ensures
        openai::filled(b + more.take(i), more, i) == b + more,
    decreases more.len() - i,
{
    let m = b + more.take(i);
    if i < more.len() {
        reveal(json::put_new);
        json::find_from_bounds(m, more[i].0, 0);
        let at = json::find_from(m, more[i].0, 0);
        if at < m.len() {
            if at < b.len() {
                assert(m[at] == b[at]);
            } else {
                assert(m[at] == more[at - b.len()]);
            }
        }
        assert(m.push(more[i]) =~= b + more.take(i + 1));
        filling_appends(b, more, i + 1);
    } else {
        assert(m =~= b + more);
    }
}

proof fn known_fields_are_skipped(b: Seq<(Seq<char>, Tree)>, more: Seq<(Seq<char>, Tree)>, i: int)
    requires
        0 <= i <= b.len(),
        all_known(b),
    ensures
        openai::unknown_fields(b + more, i, json::fs()) == openai::unknown_fields(
            b + more,
            b.len() as int,
            json::fs(),
        ),
    decreases b.len() - i,
{
    if i < b.len() {
        assert((b + more)[i] == b[i]);
        known_fields_are_skipped(b, more, i + 1);
    }
}

proof fn left_over_fields_come_back(b: Seq<(Seq<char>, Tree)>, more: Seq<(Seq<char>, Tree)>, i: int)
    requires
        0 <= i <= more.len(),
        left_over(more),
    ensures
        openai::unknown_fields(b + more, b.len() + i, more.take(i)) == more,
    decreases more.len() - i,
{
    if i < more.len() {
        let acc = more.take(i);
        assert((b + more)[b.len() + i] == more[i]);
        reveal(json::put);
        json::find_from_bounds(acc, more[i].0, 0);
        let at = json::find_from(acc, more[i].0, 0);
        if at < acc.len() {
            assert(acc[at] == more[at]);
        }
        assert(acc.push(more[i]) =~= more.take(i + 1));
        left_over_fields_come_back(b, more, i + 1);
    } else {
        assert(more.take(i) =~= more);
    }
}

proof fn known_keys_show_through(b: Seq<(Seq<char>, Tree)>, more: Seq<(Seq<char>, Tree)>, key: Seq<char>)
    requires
        left_over(more),
        openai::known_key(key),
    ensures
        json::field(b + more, key) == json::field(b, key),
{
    let m = b + more;
    json::find_from_bounds(b, key, 0);
    json::find_from_bounds(m, key, 0);
    let a = json::find_from(b, key, 0);
    let at = json::find_from(m, key, 0);
    if at < m.len() {
        if at < b.len() {
            assert(m[at] == b[at]);
        } else {
            assert(m[at] == more[at - b.len()]);
        }
    }
    if a < b.len() {
        assert(m[a] == b[a]);
    }
}

// ------------------------------------------------------------------- settings

/// The names of the fields of OpenAI requests, as far as it takes to tell them apart.
proof fn request_names()
    ensures
        "stop"@.len() == 4 && "stop"@[0] == 's',
        "user"@.len() == 4 && "user"@[0] == 'u',
        "model"@.len() == 5 && "model"@[0] == 'm',
        "top_p"@.len() == 5 && "top_p"@[0] == 't' && "top_p"@[4] == 'p',
        "tools"@.len() == 5 && "tools"@[0] == 't' && "tools"@[4] == 's',
        "stream"@.len() == 6,
        "messages"@.len() == 8,
        "max_tokens"@.len() == 10,
        "temperature"@.len() == 11 && "temperature"@[1] == 'e',
        "tool_choice"@.len() == 11 && "tool_choice"@[1] == 'o',
        "stream_options"@.len() == 14,
        "reasoning_effort"@.len() == 16,
        "max_completion_tokens"@.len() == 21,
{
    reveal_strlit("stop");
    reveal_strlit("user");
    reveal_strlit("model");
    reveal_strlit("top_p");
    reveal_strlit("tools");
    reveal_strlit("stream");
    reveal_strlit("messages");
    reveal_strlit("max_tokens");
    reveal_strlit("temperature");
    reveal_strlit("tool_choice");
    reveal_strlit("stream_options");
    reveal_strlit("reasoning_effort");
    reveal_strlit("max_completion_tokens");
}

spec fn chosen(c: Option<ChoiceV>) -> Option<Tree> {
    match c {
        Some(c) => Some(openai::choice_out(c)),
        None => None,
    }
}

spec fn named(u: Option<Seq<char>>) -> Option<Tree> {
    match u {
        Some(u) => Some(json::st(u)),
        None => None,
    }
}

spec fn tried(t: Option<ThinkingConfig>, q: ProviderQuirks) -> Option<Tree> {
    match t {
        Some(t) => round_trips::when(q.send_reasoning_effort, json::st(openai::effort_out(t))),
        None => None,
    }
}

/// The fields that hold the settings of a request.
spec fn shows(m: Seq<(Seq<char>, Tree)>, req: RequestV, q: ProviderQuirks) -> bool {
    let stops = req.stop_sequences.len() > 0 && !q.drop_stop;
    &&& json::field(m, "max_completion_tokens"@) == if q.use_max_completion_tokens {
        round_trips::whole(req.max_tokens)
    } else {
        None
    }
    &&& json::field(m, "max_tokens"@) == if q.use_max_completion_tokens {
        None
    } else {
        round_trips::whole(req.max_tokens)
    }
    &&& json::field(m, "temperature"@) == round_trips::fraction(if q.drop_temperature { None } else { req.temperature })
    &&& json::field(m, "top_p"@) == round_trips::fraction(if q.drop_top_p { None } else { req.top_p })
    &&& json::field(m, "stop"@) == round_trips::when(stops, json::text_list(req.stop_sequences))
    &&& json::field(m, "stream"@) == round_trips::when(req.stream, Tree::Bool(true))
    &&& json::field(m, "tools"@) == round_trips::when(req.tools.len() > 0, openai::tools_out(req.tools))
    &&& json::field(m, "tool_choice"@) == chosen(req.tool_choice)
    &&& json::field(m, "reasoning_effort"@) == tried(req.thinking, q)
    &&& json::field(m, "user"@) == named(req.metadata_user)
}

proof fn listed_settings_show(req: RequestV, model: Seq<char>, q: ProviderQuirks, ms: Seq<Tree>)
    ensures
        shows(round_trips::openai::listed_fields(req, model, q, ms), req, q),
{
    broadcast use round_trips::some_shows;

    request_names();
}

proof fn listed_fields_are_known(req: RequestV, model: Seq<char>, q: ProviderQuirks, ms: Seq<Tree>)
    ensures
        all_known(round_trips::openai::listed_fields(req, model, q, ms)),
{
    broadcast use known_fields_stay_known;

    assert(all_known(json::fs()));
}

proof fn settings_show_through(
    own: Seq<(Seq<char>, Tree)>,
    more: Seq<(Seq<char>, Tree)>,
    req: RequestV,
    q: ProviderQuirks,
)
    requires
        left_over(more),
        shows(own, req, q),
    ensures
        shows(own + more, req, q),
{
    known_keys_show_through(own, more, "max_completion_tokens"@);
    known_keys_show_through(own, more, "max_tokens"@);
    known_keys_show_through(own, more, "temperature"@);
    known_keys_show_through(own, more, "top_p"@);
    known_keys_show_through(own, more, "stop"@);
    known_keys_show_through(own, more, "stream"@);
    known_keys_show_through(own, more, "tools"@);
    known_keys_show_through(own, more, "tool_choice"@);
    known_keys_show_through(own, more, "reasoning_effort"@);
    known_keys_show_through(own, more, "user"@);
}

proof fn tools_come_back(ts: Seq<ToolV>, i: int)
    requires
        0 <= i <= ts.len(),
    ensures
        openai::tools(openai::tools_out(ts)->Arr_0, i, told_tools(ts).take(i)) == told_tools(ts),
    decreases ts.len() - i,
{
    let all = told_tools(ts);
    if i < ts.len() {
        reveal_strlit("type");
        reveal_strlit("name");
        reveal_strlit("function");
        reveal_strlit("parameters");
        reveal_strlit("description");
        assert("type"@.len() == 4 && "name"@.len() == 4 && "function"@.len() == 8 && "parameters"@.len() == 10
            && "description"@.len() == 11);
        reveal_with_fuel(json::find_from, 4);
        let t = openai::tool_out(ts[i]);
        assert(openai::tool(t) == Some(all[i]));
        assert(all.take(i).push(all[i]) =~= all.take(i + 1));
        tools_come_back(ts, i + 1);
    } else {
        assert(all.take(i) =~= all);
    }
}

proof fn choice_comes_back(c: ChoiceV)
    ensures
        openai::choice(Some(openai::choice_out(c))) == Some(c),
{
    reveal_strlit("type");
    reveal_strlit("name");
    reveal_strlit("auto");
    reveal_strlit("none");
    reveal_strlit("required");
    reveal_strlit("any");
    reveal_strlit("function");
    assert("type"@.len() == 4 && "name"@.len() == 4 && "function"@.len() == 8 && "any"@.len() == 3);
    assert("auto"@.len() == 4 && "auto"@[0] == 'a' && "none"@.len() == 4 && "none"@[0] == 'n' && "required"@.len() == 8);
    reveal_with_fuel(json::find_from, 3);
}

/// An effort that is written is read as the budget that stands for it.
pub proof fn efforts_come_back(t: ThinkingConfig)
    ensures
        openai::effort(Some(openai::effort_out(t))) == Some(told_effort(t)),
        told_effort(told_effort(t)) == told_effort(t),
{
    reveal_strlit("none");
    reveal_strlit("minimal");
    reveal_strlit("low");
    reveal_strlit("high");
    reveal_strlit("medium");
    assert("none"@.len() == 4 && "none"@[0] == 'n' && "minimal"@.len() == 7 && "low"@.len() == 3 && "high"@.len() == 4
        && "high"@[0] == 'h' && "medium"@.len() == 6);
}

/// What is read of the settings.
proof fn settings_are_read(m: Seq<(Seq<char>, Tree)>, req: RequestV, model: Seq<char>, q: ProviderQuirks)
    requires
        shows(m, req, q),
    ensures
        ({
            let t = Tree::Obj(m);
            let back = read_back(req, model, q);
            &&& t.at("max_completion_tokens"@).or_else_at(t.at("max_tokens"@)).limit() == back.max_tokens
            &&& t.at("temperature"@).float() == back.temperature
            &&& t.at("top_p"@).float() == back.top_p
            &&& openai::stops(t.at("stop"@)) == back.stop_sequences
            &&& (t.at("stream"@).flag() == Some(true)) == back.stream
            &&& (match t.at("tools"@).list() {
                Some(ts) => openai::tools(ts, 0, Seq::empty()),
                None => Seq::empty(),
            }) == back.tools
            &&& openai::choice(t.at("tool_choice"@)) == back.tool_choice
            &&& openai::effort(t.at("reasoning_effort"@).text()) == back.thinking
            &&& t.at("user"@).text() == back.metadata_user
        }),
{
    round_trips::texts_come_back(req.stop_sequences, 0);
    assert(req.stop_sequences.take(0) =~= Seq::empty());
    assert(req.stop_sequences.len() == 0 ==> req.stop_sequences =~= Seq::empty());
    tools_come_back(req.tools, 0);
    assert(told_tools(req.tools).take(0) =~= Seq::empty());
    assert(req.tools.len() == 0 ==> told_tools(req.tools) =~= Seq::empty());
    if let Some(c) = req.tool_choice {
        choice_comes_back(c);
    }
    if let Some(t) = req.thinking {
        efforts_come_back(t);
    }
}

/// An OpenAI request that is written and read again is the same request: the
/// conversation, and the settings that the provider's quirks let through. The model is
/// the one it is sent to, a tool without a description has an empty one, a budget for
/// thinking is one of three, and what is left over is written for its own dialect only.
pub proof fn openai_requests_come_back(req: RequestV, ts: Seq<Turn>, model: Seq<char>, q: ProviderQuirks)
    requires
        req.messages == Seq::new(ts.len(), |i: int| ts[i].message()),
        forall|i: int| 0 <= i < ts.len() ==> (#[trigger] ts[i]).carries(req.source_dialect == Dialect::OpenAI),
        forall|i: int| 0 < i < ts.len() && (#[trigger] ts[i]) is Returned ==> !(ts[i - 1] is Returned),
        req.system.len() <= 1,
        req.system.len() == 1 ==> req.system[0].cache_control is None,
        left_over(req.passthrough),
    ensures
        openai::request_body(req, model, q) is Ok,
        openai::request_of(openai::request_body(req, model, q)->Ok_0) == Ok::<RequestV, ErrorV>(
            read_back(req, model, q),
        ),
{
    round_trips::openai::openai_histories_come_back(req, ts, model, q);
    let t = openai::request_body(req, model, q)->Ok_0;
    let ms = openai::messages_out(
        openai::system_out(req.system, q),
        req.messages,
        0,
        req.source_dialect == Dialect::OpenAI,
        req.unsupported_content_policy,
    )->Ok_0;
    let own = round_trips::openai::listed_fields(req, model, q, ms);
    let more = read_back(req, model, q).passthrough;
    round_trips::openai::fields_are_listed(req, model, q, ms);
    listed_settings_show(req, model, q, ms);
    listed_fields_are_known(req, model, q, ms);
    assert(own + more.take(0) =~= own);
    filling_appends(own, more, 0);
    assert(openai::filled(own, Seq::empty(), 0) == own);
    assert(more.len() == 0 ==> own + more =~= own);
    assert(t == Tree::Obj(own + more));
    settings_show_through(own, more, req, q);
    settings_are_read(own + more, req, model, q);
    known_fields_are_skipped(own, more, 0);
    left_over_fields_come_back(own, more, 0);
    assert(more.take(0) =~= json::fs());
}

} // verus!
