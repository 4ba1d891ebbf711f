//! What reading gives back of Anthropic bodies that were written.

use crate::error::ErrorV;
use crate::ir::{
    BlockV, ChoiceV, Dialect, MessageV, PartV, RequestV, ResponseV, SourceV, SystemV, ThinkingConfig, ToolV,
    UnsupportedContentPolicy, Usage,
};
use crate::json;
use crate::json::{Build, Lookup, Tree};
use crate::protocol::anthropic;
use crate::protocol::openai;
use crate::protocol::round_trips;
use vstd::prelude::*;

verus! {



/// The names of the fields and kinds of Anthropic blocks, as far as it takes to tell
/// them apart.
proof fn block_names()
    ensures
        "type"@.len() == 4 && "type"@[1] == 'y',
        "text"@.len() == 4 && "text"@[1] == 'e',
        "data"@.len() == 4 && "data"@[0] == 'd' && "data"@[1] == 'a',
        "name"@.len() == 4 && "name"@[0] == 'n' && "name"@[1] == 'a',
        "role"@.len() == 4 && "role"@[1] == 'o',
        "user"@.len() == 4 && "user"@[1] == 's',
        "id"@.len() == 2,
        "url"@.len() == 3,
        "input"@.len() == 5 && "input"@[1] == 'n',
        "image"@.len() == 5 && "image"@[1] == 'm',
        "source"@.len() == 6 && "source"@[0] == 's',
        "base64"@.len() == 6 && "base64"@[0] == 'b',
        "content"@.len() == 7,
        "thinking"@.len() == 8 && "thinking"@[0] == 't' && "thinking"@[1] == 'h',
        "is_error"@.len() == 8 && "is_error"@[1] == 's',
        "tool_use"@.len() == 8 && "tool_use"@[0] == 't' && "tool_use"@[1] == 'o',
        "document"@.len() == 8 && "document"@[0] == 'd',
        "signature"@.len() == 9 && "signature"@[0] == 's',
        "assistant"@.len() == 9 && "assistant"@[0] == 'a',
        "media_type"@.len() == 10,
        "tool_use_id"@.len() == 11 && "tool_use_id"@[5] == 'u',
        "tool_result"@.len() == 11 && "tool_result"@[5] == 'r',
        "cache_control"@.len() == 13,
        "redacted_thinking"@.len() == 17,
{
    reveal_strlit("type");
    reveal_strlit("text");
    reveal_strlit("data");
    reveal_strlit("name");
    reveal_strlit("role");
    reveal_strlit("user");
    reveal_strlit("id");
    reveal_strlit("url");
    reveal_strlit("input");
    reveal_strlit("image");
    reveal_strlit("source");
    reveal_strlit("base64");
    reveal_strlit("content");
    reveal_strlit("thinking");
    reveal_strlit("is_error");
    reveal_strlit("tool_use");
    reveal_strlit("document");
    reveal_strlit("signature");
    reveal_strlit("assistant");
    reveal_strlit("media_type");
    reveal_strlit("tool_use_id");
    reveal_strlit("tool_result");
    reveal_strlit("cache_control");
    reveal_strlit("redacted_thinking");
}

/// A source that Anthropic has a form for.
pub open spec fn source_carries(s: SourceV) -> bool {
    !(s is Reference)
}

pub open spec fn part_carries(p: PartV) -> bool {
    p matches PartV::Image { source } ==> source_carries(source)
}

/// A block that an Anthropic body carries whole. Thinking has to be signed, and the
/// name of the tool that a result is for is not written.
pub open spec fn block_carries(b: BlockV) -> bool {
    match b {
        BlockV::Text { .. } | BlockV::ToolUse { .. } | BlockV::RedactedThinking { .. } => true,
        BlockV::Thinking { signature, .. } => signature is Some,
        BlockV::Image { source } | BlockV::Document { source } => source_carries(source),
        BlockV::ToolResult { name, content, .. } => name.len() == 0 && (forall|i: int|
            0 <= i < content.len() ==> part_carries(#[trigger] content[i])),
        _ => false,
    }
}

proof fn source_comes_back(s: SourceV)
    requires
        source_carries(s),
    ensures
        anthropic::source_of(Some(anthropic::source_out(s))) == Ok::<SourceV, ErrorV>(s),
{
    block_names();
    reveal_with_fuel(json::find_from, 4);
}

proof fn part_comes_back(p: PartV)
    requires
        part_carries(p),
    ensures
        anthropic::result_part(anthropic::part_out(p)) == Some(p),
{
    block_names();
    reveal_with_fuel(json::find_from, 3);
    if let PartV::Image { source } = p {
        source_comes_back(source);
    }
}

proof fn parts_come_back(ps: Seq<PartV>, i: int)
    requires
        0 <= i <= ps.len(),
        forall|j: int| 0 <= j < ps.len() ==> part_carries(#[trigger] ps[j]),
    ensures
        anthropic::result_parts(anthropic::parts_out(ps)->Arr_0, i, ps.take(i)) == ps,
    decreases ps.len() - i,
{
    if i < ps.len() {
        part_comes_back(ps[i]);
        assert(ps.take(i).push(ps[i]) =~= ps.take(i + 1));
        parts_come_back(ps, i + 1);
    } else {
        assert(ps.take(i) =~= ps);
    }
}

proof fn block_comes_back(b: BlockV)
    requires
        block_carries(b),
    ensures
        anthropic::block_of(anthropic::block_out(b)) == Ok::<Option<BlockV>, ErrorV>(Some(b)),
{
    block_names();
    reveal_with_fuel(json::find_from, 5);
    reveal(json::put);
    match b {
        BlockV::Image { source } => source_comes_back(source),
        BlockV::Document { source } => source_comes_back(source),
        BlockV::ToolResult { name, content, .. } => {
            parts_come_back(content, 0);
            assert(content.take(0) =~= Seq::empty());
            assert(name =~= Seq::empty());
        },
        _ => {},
    }
}

/// A message that an Anthropic body carries whole.
pub open spec fn message_carries(m: MessageV) -> bool {
    forall|i: int| 0 <= i < m.content.len() ==> block_carries(#[trigger] m.content[i])
}

spec fn out_blocks(bs: Seq<BlockV>) -> Seq<Tree> {
    Seq::new(bs.len(), |i: int| anthropic::block_out(bs[i]))
}

proof fn blocks_are_written(bs: Seq<BlockV>, policy: UnsupportedContentPolicy, i: int)
    requires
        0 <= i <= bs.len(),
        forall|j: int| 0 <= j < bs.len() ==> block_carries(#[trigger] bs[j]),
    ensures
        anthropic::blocks_out(bs, policy, i, out_blocks(bs).take(i)) == Ok::<Seq<Tree>, ErrorV>(out_blocks(bs)),
    decreases bs.len() - i,
{
    let out = out_blocks(bs);
    if i < bs.len() {
        assert(block_carries(bs[i]));
        assert(out.take(i).push(out[i]) =~= out.take(i + 1));
        blocks_are_written(bs, policy, i + 1);
    } else {
        assert(out.take(i) =~= out);
    }
}

proof fn blocks_come_back(bs: Seq<BlockV>, i: int)
    requires
        0 <= i <= bs.len(),
        forall|j: int| 0 <= j < bs.len() ==> block_carries(#[trigger] bs[j]),
    ensures
        anthropic::blocks_of(out_blocks(bs), i, bs.take(i)) == Ok::<Seq<BlockV>, ErrorV>(bs),
    decreases bs.len() - i,
{
    if i < bs.len() {
        block_comes_back(bs[i]);
        assert(bs.take(i).push(bs[i]) =~= bs.take(i + 1));
        blocks_come_back(bs, i + 1);
    } else {
        assert(bs.take(i) =~= bs);
    }
}

proof fn message_comes_back(m: MessageV, policy: UnsupportedContentPolicy)
    requires
        message_carries(m),
    ensures
        anthropic::message_out(m, policy) is Ok,
        anthropic::message_of(anthropic::message_out(m, policy)->Ok_0) == Ok::<MessageV, ErrorV>(m),
{
    block_names();
    reveal_with_fuel(json::find_from, 3);
    blocks_are_written(m.content, policy, 0);
    assert(out_blocks(m.content).take(0) =~= Seq::empty());
    blocks_come_back(m.content, 0);
    assert(m.content.take(0) =~= Seq::empty());
}

spec fn out_messages(ms: Seq<MessageV>, policy: UnsupportedContentPolicy) -> Seq<Tree> {
    Seq::new(ms.len(), |i: int| anthropic::message_out(ms[i], policy)->Ok_0)
}

proof fn messages_are_written(ms: Seq<MessageV>, policy: UnsupportedContentPolicy, i: int)
    requires
        0 <= i <= ms.len(),
        forall|j: int| 0 <= j < ms.len() ==> message_carries(#[trigger] ms[j]),
    ensures
        anthropic::messages_out(ms, policy, i, out_messages(ms, policy).take(i)) == Ok::<Seq<Tree>, ErrorV>(
            out_messages(ms, policy),
        ),
    decreases ms.len() - i,
{
    let out = out_messages(ms, policy);
    if i < ms.len() {
        message_comes_back(ms[i], policy);
        assert(out.take(i).push(out[i]) =~= out.take(i + 1));
        messages_are_written(ms, policy, i + 1);
    } else {
        assert(out.take(i) =~= out);
    }
}

proof fn messages_come_back(ms: Seq<MessageV>, policy: UnsupportedContentPolicy, i: int)
    requires
        0 <= i <= ms.len(),
        forall|j: int| 0 <= j < ms.len() ==> message_carries(#[trigger] ms[j]),
    ensures
        anthropic::messages_of(out_messages(ms, policy), i, ms.take(i)) == Ok::<Seq<MessageV>, ErrorV>(ms),
    decreases ms.len() - i,
{
    if i < ms.len() {
        message_comes_back(ms[i], policy);
        assert(ms.take(i).push(ms[i]) =~= ms.take(i + 1));
        messages_come_back(ms, policy, i + 1);
    } else {
        assert(ms.take(i) =~= ms);
    }
}

proof fn system_comes_back(s: Seq<SystemV>, i: int)
    requires
        0 <= i <= s.len(),
    ensures
        anthropic::system_parts(anthropic::system_out(s)->Arr_0, i, s.take(i)) == s,
    decreases s.len() - i,
{
    if i < s.len() {
        block_names();
        reveal_with_fuel(json::find_from, 4);
        reveal(json::put);
        let part = anthropic::with_cache(anthropic::text_fields(s[i].text), s[i].cache_control);
        assert(part.at("text"@).text() == Some(s[i].text));
        assert(part.at("cache_control"@) == s[i].cache_control);
        assert(s.take(i).push(s[i]) =~= s.take(i + 1));
        system_comes_back(s, i + 1);
    } else {
        assert(s.take(i) =~= s);
    }
}

/// The names of the fields of Anthropic requests, as far as it takes to tell them
/// apart.
proof fn request_names()
    ensures
        "model"@.len() == 5 && "model"@[0] == 'm',
        "top_p"@.len() == 5 && "top_p"@[0] == 't' && "top_p"@[4] == 'p',
        "top_k"@.len() == 5 && "top_k"@[0] == 't' && "top_k"@[4] == 'k',
        "tools"@.len() == 5 && "tools"@[0] == 't' && "tools"@[4] == 's',
        "system"@.len() == 6 && "system"@[1] == 'y',
        "stream"@.len() == 6 && "stream"@[1] == 't',
        "messages"@.len() == 8 && "messages"@[0] == 'm' && "messages"@[3] == 's',
        "thinking"@.len() == 8 && "thinking"@[0] == 't',
        "metadata"@.len() == 8 && "metadata"@[0] == 'm' && "metadata"@[3] == 'a',
        "max_tokens"@.len() == 10,
        "temperature"@.len() == 11 && "temperature"@[1] == 'e',
        "tool_choice"@.len() == 11 && "tool_choice"@[1] == 'o',
        "stop_sequences"@.len() == 14,
{
    reveal_strlit("model");
    reveal_strlit("top_p");
    reveal_strlit("top_k");
    reveal_strlit("tools");
    reveal_strlit("system");
    reveal_strlit("stream");
    reveal_strlit("messages");
    reveal_strlit("thinking");
    reveal_strlit("metadata");
    reveal_strlit("max_tokens");
    reveal_strlit("temperature");
    reveal_strlit("tool_choice");
    reveal_strlit("stop_sequences");
}

proof fn tools_come_back(ts: Seq<ToolV>, i: int)
    requires
        0 <= i <= ts.len(),
    ensures
        anthropic::tools(anthropic::tools_out(ts)->Arr_0, i, ts.take(i)) == ts,
    decreases ts.len() - i,
{
    broadcast use json::set_shows;

    if i < ts.len() {
        reveal_strlit("name");
        reveal_strlit("description");
        reveal_strlit("input_schema");
        reveal_strlit("cache_control");
        let t = anthropic::tool_out(ts[i]);
        assert("name"@.len() == 4 && "description"@.len() == 11 && "input_schema"@.len() == 12
            && "cache_control"@.len() == 13);
        assert(json::field(json::fs(), "description"@) is None);
        assert(json::field(json::fs(), "cache_control"@) is None);
        assert(anthropic::tool(t) == Some(ts[i]));
        assert(ts.take(i).push(ts[i]) =~= ts.take(i + 1));
        tools_come_back(ts, i + 1);
    } else {
        assert(ts.take(i) =~= ts);
    }
}

proof fn choice_comes_back(c: ChoiceV)
    ensures
        anthropic::choice(Some(anthropic::choice_out(c))) == Some(c),
{
    reveal_with_fuel(json::find_from, 3);
    reveal_strlit("type");
    reveal_strlit("name");
    reveal_strlit("auto");
    reveal_strlit("any");
    reveal_strlit("none");
    reveal_strlit("tool");
    assert("type"@.len() == 4 && "type"@[0] == 't' && "type"@[1] == 'y');
    assert("name"@.len() == 4 && "name"@[0] == 'n' && "any"@.len() == 3);
    assert("auto"@.len() == 4 && "none"@.len() == 4 && "tool"@.len() == 4);
    assert("auto"@[0] == 'a' && "none"@[0] == 'n' && "tool"@[0] == 't');
}

/// Every field is one that Anthropic requests have.
spec fn all_known(m: Seq<(Seq<char>, Tree)>) -> bool {
    forall|i: int| 0 <= i < m.len() ==> anthropic::known_key((#[trigger] m[i]).0)
}

broadcast proof fn known_fields_stay_known(m: Seq<(Seq<char>, Tree)>, key: Seq<char>, v: Tree)
    requires
        all_known(m),
        anthropic::known_key(key),
    ensures
        #[trigger] all_known(json::put(m, key, v)),
{
    reveal(json::put);
}

/// Fields that Anthropic requests do not have, none twice: what reading a request
/// leaves over.
pub open spec fn left_over(m: Seq<(Seq<char>, Tree)>) -> bool {
    &&& forall|i: int| 0 <= i < m.len() ==> !anthropic::known_key((#[trigger] m[i]).0)
    &&& forall|i: int, j: int| 0 <= i < j < m.len() ==> (#[trigger] m[i]).0 != (#[trigger] m[j]).0
}

proof fn filling_appends(b: Seq<(Seq<char>, Tree)>, more: Seq<(Seq<char>, Tree)>, i: int)
    requires
        0 <= i <= more.len(),
        all_known(b),
        left_over(more),
    ensures
        openai::filled(b + more.take(i), more, i) == b + more,
    decreases more.len() - i,
{
    let m = b + more.take(i);
    if i < more.len() {
        reveal(json::put_new);
        json::find_from_bounds(m, more[i].0, 0);
        let at = json::find_from(m, more[i].0, 0);
        if at < m.len() {
            if at < b.len() {
                assert(m[at] == b[at]);
            } else {
                assert(m[at] == more[at - b.len()]);
            }
        }
        assert(m.push(more[i]) =~= b + more.take(i + 1));
        filling_appends(b, more, i + 1);
    } else {
        assert(m =~= b + more);
    }
}

proof fn known_fields_are_skipped(b: Seq<(Seq<char>, Tree)>, more: Seq<(Seq<char>, Tree)>, i: int)
    requires
        0 <= i <= b.len(),
        all_known(b),
    ensures
        anthropic::unknown_fields(b + more, i, json::fs()) == anthropic::unknown_fields(
            b + more,
            b.len() as int,
            json::fs(),
        ),
    decreases b.len() - i,
{
    if i < b.len() {
        assert((b + more)[i] == b[i]);
        known_fields_are_skipped(b, more, i + 1);
    }
}

proof fn left_over_fields_come_back(b: Seq<(Seq<char>, Tree)>, more: Seq<(Seq<char>, Tree)>, i: int)
    requires
        0 <= i <= more.len(),
        left_over(more),
    ensures
        anthropic::unknown_fields(b + more, b.len() + i, more.take(i)) == more,
    decreases more.len() - i,
{
    if i < more.len() {
        let acc = more.take(i);
        assert((b + more)[b.len() + i] == more[i]);
        reveal(json::put);
        json::find_from_bounds(acc, more[i].0, 0);
        let at = json::find_from(acc, more[i].0, 0);
        if at < acc.len() {
            assert(acc[at] == more[at]);
        }
        assert(acc.push(more[i]) =~= more.take(i + 1));
        left_over_fields_come_back(b, more, i + 1);
    } else {
        assert(more.take(i) =~= more);
    }
}

proof fn known_keys_show_through(b: Seq<(Seq<char>, Tree)>, more: Seq<(Seq<char>, Tree)>, key: Seq<char>)
    requires
        left_over(more),
        anthropic::known_key(key),
    ensures
        json::field(b + more, key) == json::field(b, key),
{
    let m = b + more;
    json::find_from_bounds(b, key, 0);
    json::find_from_bounds(m, key, 0);
    let a = json::find_from(b, key, 0);
    let at = json::find_from(m, key, 0);
    if at < m.len() {
        if at < b.len() {
            assert(m[at] == b[at]);
        } else {
            assert(m[at] == more[at - b.len()]);
        }
    }
    if a < b.len() {
        assert(m[a] == b[a]);
    }
}

/// What is read of a thinking budget that was written: one that is off is not written,
/// and one without a number gets one.
pub open spec fn thinking_read_back(t: Option<ThinkingConfig>) -> Option<ThinkingConfig> {
    match t {
        Some(t) => if t.enabled {
            Some(
                ThinkingConfig {
                    enabled: true,
                    budget_tokens: Some(
                        match t.budget_tokens {
                            Some(n) => n,
                            None => 2048,
                        },
                    ),
                },
            )
        } else {
            None
        },
        None => None,
    }
}

/// The request that is read of an Anthropic body that was written for `req`.
pub open spec fn read_back(req: RequestV, model: Seq<char>) -> RequestV {
    RequestV {
        model,
        source_dialect: Dialect::Anthropic,
        max_tokens: Some(
            match req.max_tokens {
                Some(n) => n,
                None => anthropic::DEFAULT_MAX_TOKENS,
            },
        ),
        thinking: thinking_read_back(req.thinking),
        passthrough: if req.source_dialect == Dialect::Anthropic {
            req.passthrough
        } else {
            Seq::empty()
        },
        unsupported_content_policy: UnsupportedContentPolicy::Drop,
        ..req
    }
}

/// The fields of a request body but for those that were left over.
spec fn own_fields(req: RequestV, model: Seq<char>, messages: Seq<Tree>) -> Seq<(Seq<char>, Tree)> {
    anthropic::request_fields(RequestV { passthrough: Seq::empty(), ..req }, model, messages)
}

proof fn fields_are_own_and_left_over(req: RequestV, model: Seq<char>, messages: Seq<Tree>)
    requires
        ({
            let own = own_fields(req, model, messages);
            let more = read_back(req, model).passthrough;
            openai::filled(own, more, 0) == own + more
        }),
    ensures
        anthropic::request_fields(req, model, messages) == own_fields(req, model, messages) + read_back(
            req,
            model,
        ).passthrough,
{
    let own = own_fields(req, model, messages);
    if req.source_dialect != Dialect::Anthropic {
        assert(own + Seq::<(Seq<char>, Tree)>::empty() =~= own);
    }
}

/// What the fields of a request body show.
spec fn shows(t: Tree, req: RequestV, model: Seq<char>, messages: Seq<Tree>) -> bool {
    &&& t.at("model"@) == Some(json::st(model))
    &&& t.at("messages"@) == Some(Tree::Arr(messages))
    &&& t.at("system"@) == if req.system.len() > 0 {
        Some(anthropic::system_out(req.system))
    } else {
        None
    }
    &&& t.at("max_tokens"@).limit() == read_back(req, model).max_tokens
    &&& t.at("temperature"@).float() == req.temperature
    &&& t.at("top_p"@).float() == req.top_p
    &&& t.at("top_k"@).limit() == req.top_k
    &&& t.at("stop_sequences"@) == if req.stop_sequences.len() > 0 {
        Some(json::text_list(req.stop_sequences))
    } else {
        None
    }
    &&& t.at("stream"@).flag() == if req.stream {
        Some(true)
    } else {
        None
    }
    &&& t.at("tools"@) == if req.tools.len() > 0 {
        Some(anthropic::tools_out(req.tools))
    } else {
        None
    }
    &&& t.at("tool_choice"@) == match req.tool_choice {
        Some(c) => Some(anthropic::choice_out(c)),
        None => None,
    }
    &&& anthropic::thinking_of(t.at("thinking"@)) == thinking_read_back(req.thinking)
    &&& t.at("metadata"@).at("user_id"@).text() == req.metadata_user
}

spec fn chosen(c: Option<ChoiceV>) -> Option<Tree> {
    match c {
        Some(c) => Some(anthropic::choice_out(c)),
        None => None,
    }
}

spec fn budget(t: Option<ThinkingConfig>) -> Option<Tree> {
    match thinking_read_back(t) {
        Some(t) => Some(
            Tree::Obj(
                json::fs().set("type"@, json::st("enabled"@)).set("budget_tokens"@, json::num(t.budget_tokens->0 as int)),
            ),
        ),
        None => None,
    }
}

spec fn named(u: Option<Seq<char>>) -> Option<Tree> {
    match u {
        Some(u) => Some(Tree::Obj(json::fs().with("user_id"@, json::st(u)))),
        None => None,
    }
}

/// The fields of a request body, one after the other.
spec fn listed_fields(req: RequestV, model: Seq<char>, messages: Seq<Tree>) -> Seq<(Seq<char>, Tree)> {
    let b = round_trips::with_some(json::fs(), "model"@, Some(json::st(model)));
    let b = round_trips::with_some(b, "max_tokens"@, round_trips::whole(read_back(req, model).max_tokens));
    let b = round_trips::with_some(b, "system"@, round_trips::when(req.system.len() > 0, anthropic::system_out(req.system)));
    let b = round_trips::with_some(b, "messages"@, Some(Tree::Arr(messages)));
    let b = round_trips::with_some(b, "temperature"@, round_trips::fraction(req.temperature));
    let b = round_trips::with_some(b, "top_p"@, round_trips::fraction(req.top_p));
    let b = round_trips::with_some(b, "top_k"@, round_trips::whole(req.top_k));
    let b = round_trips::with_some(b, "stop_sequences"@, round_trips::when(req.stop_sequences.len() > 0, json::text_list(req.stop_sequences)));
    let b = round_trips::with_some(b, "stream"@, round_trips::when(req.stream, Tree::Bool(true)));
    let b = round_trips::with_some(b, "tools"@, round_trips::when(req.tools.len() > 0, anthropic::tools_out(req.tools)));
    let b = round_trips::with_some(b, "tool_choice"@, chosen(req.tool_choice));
    let b = round_trips::with_some(b, "thinking"@, budget(req.thinking));
    round_trips::with_some(b, "metadata"@, named(req.metadata_user))
}

proof fn own_fields_are_listed(req: RequestV, model: Seq<char>, messages: Seq<Tree>)
    ensures
        own_fields(req, model, messages) == listed_fields(req, model, messages),
{
    reveal(round_trips::with_some);
}

proof fn own_fields_show(req: RequestV, model: Seq<char>, messages: Seq<Tree>)
    ensures
        shows(Tree::Obj(own_fields(req, model, messages)), req, model, messages),
{
    own_fields_are_listed(req, model, messages);
    let m = listed_fields(req, model, messages);
    assert({
        &&& json::field(m, "model"@) == Some(json::st(model))
        &&& json::field(m, "messages"@) == Some(Tree::Arr(messages))
        &&& json::field(m, "system"@) == round_trips::when(req.system.len() > 0, anthropic::system_out(req.system))
        &&& json::field(m, "max_tokens"@) == round_trips::whole(read_back(req, model).max_tokens)
        &&& json::field(m, "temperature"@) == round_trips::fraction(req.temperature)
        &&& json::field(m, "top_p"@) == round_trips::fraction(req.top_p)
        &&& json::field(m, "top_k"@) == round_trips::whole(req.top_k)
        &&& json::field(m, "stop_sequences"@) == round_trips::when(
            req.stop_sequences.len() > 0,
            json::text_list(req.stop_sequences),
        )
        &&& json::field(m, "stream"@) == round_trips::when(req.stream, Tree::Bool(true))
        &&& json::field(m, "tools"@) == round_trips::when(req.tools.len() > 0, anthropic::tools_out(req.tools))
        &&& json::field(m, "tool_choice"@) == chosen(req.tool_choice)
        &&& json::field(m, "thinking"@) == budget(req.thinking)
        &&& json::field(m, "metadata"@) == named(req.metadata_user)
    }) by {
        broadcast use round_trips::some_shows;

        request_names();
    }
    assert(anthropic::thinking_of(budget(req.thinking)) == thinking_read_back(req.thinking)) by {
        broadcast use json::set_shows;

        reveal_strlit("type");
        reveal_strlit("budget_tokens");
        assert("type"@.len() == 4 && "budget_tokens"@.len() == 13);
    }
    assert(named(req.metadata_user).at("user_id"@).text() == req.metadata_user) by {
        reveal_with_fuel(json::find_from, 2);
    }
}

proof fn own_fields_are_known(req: RequestV, model: Seq<char>, messages: Seq<Tree>)
    ensures
        all_known(own_fields(req, model, messages)),
{
    broadcast use known_fields_stay_known;

    assert(all_known(json::fs()));
}

proof fn known_fields_show_through(
    own: Seq<(Seq<char>, Tree)>,
    more: Seq<(Seq<char>, Tree)>,
    req: RequestV,
    model: Seq<char>,
    messages: Seq<Tree>,
)
    requires
        left_over(more),
        shows(Tree::Obj(own), req, model, messages),
    ensures
        shows(Tree::Obj(own + more), req, model, messages),
{
    known_keys_show_through(own, more, "model"@);
    known_keys_show_through(own, more, "messages"@);
    known_keys_show_through(own, more, "system"@);
    known_keys_show_through(own, more, "max_tokens"@);
    known_keys_show_through(own, more, "temperature"@);
    known_keys_show_through(own, more, "top_p"@);
    known_keys_show_through(own, more, "top_k"@);
    known_keys_show_through(own, more, "stop_sequences"@);
    known_keys_show_through(own, more, "stream"@);
    known_keys_show_through(own, more, "tools"@);
    known_keys_show_through(own, more, "tool_choice"@);
    known_keys_show_through(own, more, "thinking"@);
    known_keys_show_through(own, more, "metadata"@);
}

proof fn shown_fields_are_read(t: Tree, req: RequestV, model: Seq<char>, messages: Seq<Tree>)
    requires
        t is Obj,
        shows(t, req, model, messages),
        anthropic::messages_of(messages, 0, Seq::empty()) == Ok::<Seq<MessageV>, ErrorV>(req.messages),
        anthropic::unknown_fields(t->Obj_0, 0, json::fs()) == read_back(req, model).passthrough,
    ensures
        anthropic::request_of(t) == Ok::<RequestV, ErrorV>(read_back(req, model)),
{
    system_comes_back(req.system, 0);
    assert(req.system.take(0) =~= Seq::empty());
    assert(anthropic::system_of(t.at("system"@))->Ok_0 =~= req.system);
    round_trips::texts_come_back(req.stop_sequences, 0);
    assert(req.stop_sequences.take(0) =~= Seq::empty());
    assert(req.stop_sequences.len() == 0 ==> req.stop_sequences =~= Seq::empty());
    tools_come_back(req.tools, 0);
    assert(req.tools.take(0) =~= Seq::empty());
    assert(req.tools.len() == 0 ==> req.tools =~= Seq::empty());
    assert(anthropic::choice(t.at("tool_choice"@)) == req.tool_choice) by {
        if let Some(c) = req.tool_choice {
            choice_comes_back(c);
        }
    }
}

/// An Anthropic request that is written and read again is the same request, but for
/// the model it is sent to, the limit that Anthropic insists on, and what is only
/// written for its own dialect.
pub proof fn anthropic_requests_come_back(req: RequestV, model: Seq<char>)
    requires
        forall|i: int| 0 <= i < req.messages.len() ==> message_carries(#[trigger] req.messages[i]),
        left_over(req.passthrough),
    ensures
        anthropic::request_body(req, model) is Ok,
        anthropic::request_of(anthropic::request_body(req, model)->Ok_0) == Ok::<RequestV, ErrorV>(
            read_back(req, model),
        ),
{
    let policy = req.unsupported_content_policy;
    let ms = out_messages(req.messages, policy);
    messages_are_written(req.messages, policy, 0);
    assert(ms.take(0) =~= Seq::empty());
    messages_come_back(req.messages, policy, 0);
    assert(req.messages.take(0) =~= Seq::empty());
    let own = own_fields(req, model, ms);
    let more = read_back(req, model).passthrough;
    own_fields_show(req, model, ms);
    own_fields_are_known(req, model, ms);
    let all = own + more;
    assert(own + more.take(0) =~= own);
    filling_appends(own, more, 0);
    fields_are_own_and_left_over(req, model, ms);
    known_fields_are_skipped(own, more, 0);
    left_over_fields_come_back(own, more, 0);
    assert(more.take(0) =~= json::fs());
    known_fields_show_through(own, more, req, model, ms);
    shown_fields_are_read(Tree::Obj(all), req, model, ms);
}

proof fn usage_comes_back(u: Usage)
    ensures
        anthropic::usage_of(Some(anthropic::usage_out(u))) == (Usage { reasoning_tokens: 0, ..u }),
{
    reveal_strlit("input_tokens");
    reveal_strlit("output_tokens");
    reveal_strlit("cache_read_input_tokens");
    reveal_strlit("cache_creation_input_tokens");
    assert("input_tokens"@.len() == 12 && "output_tokens"@.len() == 13 && "cache_read_input_tokens"@.len() == 23
        && "cache_creation_input_tokens"@.len() == 27);
    reveal_with_fuel(json::find_from, 5);
}

proof fn answer_fields_show(resp: ResponseV)
    ensures
        ({
            let t = anthropic::response_body(resp);
            &&& t.at("id"@) == Some(json::st(resp.id))
            &&& t.at("type"@) == Some(json::st("message"@))
            &&& t.at("model"@) == Some(json::st(resp.model))
            &&& t.at("content"@) == Some(anthropic::content_out(resp.content))
            &&& t.at("stop_reason"@) == Some(anthropic::text_or_null(anthropic::stop_reason_text(resp.stop_reason)))
            &&& t.at("stop_sequence"@) == Some(anthropic::text_or_null(resp.stop_sequence))
            &&& t.at("usage"@) == Some(anthropic::usage_out(resp.usage))
        }),
{
    block_names();
    reveal_strlit("model");
    reveal_strlit("usage");
    reveal_strlit("stop_reason");
    reveal_strlit("stop_sequence");
    assert("model"@.len() == 5 && "model"@[0] == 'm' && "usage"@.len() == 5 && "usage"@[0] == 'u');
    assert("stop_reason"@.len() == 11 && "stop_sequence"@.len() == 13);
    reveal_with_fuel(json::find_from, 9);
}

/// An answer that is written for an Anthropic client and read again is the same
/// answer, but for the tokens spent on reasoning, which Anthropic does not tell, and
/// what was left over of another dialect's answer.
pub proof fn anthropic_answers_come_back(resp: ResponseV)
    requires
        forall|i: int| 0 <= i < resp.content.len() ==> block_carries(#[trigger] resp.content[i]),
    ensures
        anthropic::response_of(anthropic::response_body(resp)) == Ok::<ResponseV, ErrorV>(
            ResponseV {
                usage: Usage { reasoning_tokens: 0, ..resp.usage },
                passthrough: Seq::empty(),
                ..resp
            },
        ),
{
    answer_fields_show(resp);
    usage_comes_back(resp.usage);
    anthropic::stop_reasons_round_trip(resp.stop_reason);
    blocks_come_back(resp.content, 0);
    assert(resp.content.take(0) =~= Seq::empty());
    assert(anthropic::content_out(resp.content)->Arr_0 =~= out_blocks(resp.content));
    reveal_strlit("message");
    reveal_strlit("error");
    assert("message"@.len() == 7 && "error"@.len() == 5);
}

} // verus!
