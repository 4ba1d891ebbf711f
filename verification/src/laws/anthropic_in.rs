//! What is read of an Anthropic request and of an Anthropic answer.

use vstd::prelude::*;

use crate::error::ErrorV;
use crate::ir::{
    BlockV, ChoiceV, Dialect, MessageV, PartV, Role, SourceV, StopReason, SystemV, ThinkingConfig, ToolV,
};
use crate::json;
use crate::json::{Build, Lookup, Tree};
use crate::laws;
use crate::laws::openai_in;
use crate::protocol::anthropic;
use crate::protocol::openai;

verus! {

// -------------------------------------------------------------------- blocks

/// A picture or a document is given as data with its kind, or by where it is; anything
/// else is refused.
pub proof fn sources_are_read(s: Tree)
    ensures
        s.at("type"@).text() == Some("base64"@) ==> anthropic::source_of(Some(s)) == Ok::<SourceV, ErrorV>(
            SourceV::Base64 {
                media_type: s.at("media_type"@).text_or("application/octet-stream"@),
                data: s.at("data"@).text_or(Seq::empty()),
            },
        ),
        s.at("type"@).text() == Some("url"@) ==> anthropic::source_of(Some(s)) == Ok::<SourceV, ErrorV>(
            SourceV::Url { url: s.at("url"@).text_or(Seq::empty()) },
        ),
        anthropic::source_of(Some(s)) is Ok <==> s.at("type"@).text() == Some("base64"@) || s.at("type"@).text()
            == Some("url"@),
        anthropic::source_of(None) is Err,
        anthropic::source_of(Some(s)) matches Err(e) ==> e is InvalidRequest,
{
    reveal_strlit("base64");
    reveal_strlit("url");
    assert("base64"@.len() == 6 && "url"@.len() == 3);
}

/// What a part of a tool's result is: words, or a picture that can be read.
pub open spec fn part_reader() -> spec_fn(Tree) -> Option<PartV> {
    |p: Tree|
        {
            let kind = p.at("type"@).text();
            let source = anthropic::source_of(p.at("source"@));
            if kind == Some("text"@) {
                Some(PartV::Text { text: p.at("text"@).text_or(Seq::empty()) })
            } else if kind == Some("image"@) && source is Ok {
                Some(PartV::Image { source: source->Ok_0 })
            } else {
                None
            }
        }
}

proof fn parts_are_kept(ps: Seq<Tree>, i: int)
    requires
        0 <= i <= ps.len(),
    ensures
        anthropic::result_parts(ps, 0, Seq::empty()) == anthropic::result_parts(
            ps,
            i,
            ps.take(i).filter_map(part_reader()),
        ),
    decreases i,
{
    if i > 0 {
        parts_are_kept(ps, i - 1);
        laws::keeping_takes(ps, i - 1, part_reader());
        reveal_strlit("text");
        reveal_strlit("image");
        assert("text"@.len() == 4 && "image"@.len() == 5);
    } else {
        assert(ps.take(0).filter_map(part_reader()) =~= Seq::empty());
    }
}

/// A tool's result is read whole: a text is one part, a list gives each of its words
/// and pictures in order.
pub proof fn results_are_read_whole(v: Option<Tree>)
    ensures
        v matches Some(Tree::Str(s)) ==> anthropic::result_content(v) == seq![PartV::Text { text: s }],
        v matches Some(Tree::Arr(ps)) ==> anthropic::result_content(v) == ps.filter_map(part_reader()),
        v.text() is None && v.list() is None ==> anthropic::result_content(v).len() == 0,
{
    if let Some(Tree::Arr(ps)) = v {
        parts_are_kept(ps, ps.len() as int);
        assert(ps.take(ps.len() as int) =~= ps);
    }
    if let Some(Tree::Str(s)) = v {
        assert(anthropic::result_content(v) =~= seq![PartV::Text { text: s }]);
    }
}

proof fn kinds_differ()
    ensures
        "text"@ != "thinking"@,
        "text"@ != "redacted_thinking"@,
        "text"@ != "image"@,
        "text"@ != "document"@,
        "text"@ != "tool_use"@,
        "text"@ != "tool_result"@,
        "thinking"@ != "redacted_thinking"@,
        "thinking"@ != "image"@,
        "thinking"@ != "document"@,
        "thinking"@ != "tool_use"@,
        "thinking"@ != "tool_result"@,
        "redacted_thinking"@ != "image"@,
        "redacted_thinking"@ != "document"@,
        "redacted_thinking"@ != "tool_use"@,
        "redacted_thinking"@ != "tool_result"@,
        "image"@ != "document"@,
        "image"@ != "tool_use"@,
        "image"@ != "tool_result"@,
        "document"@ != "tool_use"@,
        "document"@ != "tool_result"@,
        "tool_use"@ != "tool_result"@,
{
    reveal_strlit("text");
    reveal_strlit("thinking");
    reveal_strlit("redacted_thinking");
    reveal_strlit("image");
    reveal_strlit("document");
    reveal_strlit("tool_use");
    reveal_strlit("tool_result");
    assert("text"@.len() == 4 && "thinking"@.len() == 8 && "redacted_thinking"@.len() == 17 && "image"@.len() == 5);
    assert("document"@.len() == 8 && "tool_use"@.len() == 8 && "tool_result"@.len() == 11);
    assert("thinking"@[1] == 'h' && "document"@[1] == 'o' && "tool_use"@[1] == 'o' && "document"@[0] == 'd'
        && "tool_use"@[0] == 't');
}

/// Each kind of block is read with what it carries. One without a kind, a call without
/// a name, a result without a call and a picture that cannot be read are refused; what
/// is of no known kind is passed over.
pub proof fn blocks_are_read(b: Tree)
    ensures
        ({
            let kind = b.at("type"@).text();
            let r = anthropic::block_of(b);
            let source = anthropic::source_of(b.at("source"@));
            &&& kind is None ==> r is Err
            &&& kind == Some("text"@) ==> r == Ok::<Option<BlockV>, ErrorV>(
                Some(
                    BlockV::Text {
                        text: b.at("text"@).text_or(Seq::empty()),
                        cache_control: b.at("cache_control"@),
                    },
                ),
            )
            &&& kind == Some("thinking"@) ==> r == Ok::<Option<BlockV>, ErrorV>(
                Some(
                    BlockV::Thinking {
                        text: b.at("thinking"@).text_or(Seq::empty()),
                        signature: b.at("signature"@).text(),
                    },
                ),
            )
            &&& kind == Some("redacted_thinking"@) ==> r == Ok::<Option<BlockV>, ErrorV>(
                Some(BlockV::RedactedThinking { data: b.at("data"@).text_or(Seq::empty()) }),
            )
            &&& kind == Some("image"@) && source is Ok ==> r == Ok::<Option<BlockV>, ErrorV>(
                Some(BlockV::Image { source: source->Ok_0 }),
            )
            &&& kind == Some("document"@) && source is Ok ==> r == Ok::<Option<BlockV>, ErrorV>(
                Some(BlockV::Document { source: source->Ok_0 }),
            )
            &&& (kind == Some("image"@) || kind == Some("document"@)) && source is Err ==> r == Err::<
                Option<BlockV>,
                ErrorV,
            >(source->Err_0)
            &&& kind == Some("tool_use"@) ==> match b.at("name"@).text() {
                Some(name) => r == Ok::<Option<BlockV>, ErrorV>(
                    Some(
                        BlockV::ToolUse {
                            id: b.at("id"@).text_or(Seq::empty()),
                            name,
                            input: if b.at("input"@) is Some { b.at("input"@)->0 } else { Tree::Obj(Seq::empty()) },
                        },
                    ),
                ),
                None => r is Err,
            }
            &&& kind == Some("tool_result"@) ==> match b.at("tool_use_id"@).text() {
                Some(id) => r == Ok::<Option<BlockV>, ErrorV>(
                    Some(
                        BlockV::ToolResult {
                            tool_use_id: id,
                            name: Seq::empty(),
                            content: anthropic::result_content(b.at("content"@)),
                            is_error: b.at("is_error"@).flag() == Some(true),
                        },
                    ),
                ),
                None => r is Err,
            }
            &&& kind is Some && !(seq![
                "text"@,
                "thinking"@,
                "redacted_thinking"@,
                "image"@,
                "document"@,
                "tool_use"@,
                "tool_result"@,
            ].contains(kind->0)) ==> r == Ok::<Option<BlockV>, ErrorV>(None)
            &&& r matches Err(e) ==> e is InvalidRequest
        }),
{
    kinds_differ();
    if let Some(s) = b.at("source"@) {
        sources_are_read(s);
    }
    let known = seq![
        "text"@,
        "thinking"@,
        "redacted_thinking"@,
        "image"@,
        "document"@,
        "tool_use"@,
        "tool_result"@,
    ];
    assert(known[0] == "text"@ && known[1] == "thinking"@ && known[2] == "redacted_thinking"@ && known[3] == "image"@
        && known[4] == "document"@ && known[5] == "tool_use"@ && known[6] == "tool_result"@);
}

/// What a block is read as.
pub open spec fn block_reader() -> spec_fn(Tree) -> Option<BlockV> {
    |b: Tree|
        match anthropic::block_of(b) {
            Ok(r) => r,
            Err(_) => None,
        }
}

proof fn blocks_are_kept(bs: Seq<Tree>, i: int)
    requires
        0 <= i <= bs.len(),
        forall|j: int| 0 <= j < i ==> anthropic::block_of(#[trigger] bs[j]) is Ok,
    ensures
        anthropic::blocks_of(bs, 0, Seq::empty()) == anthropic::blocks_of(
            bs,
            i,
            bs.take(i).filter_map(block_reader()),
        ),
    decreases i,
{
    if i > 0 {
        blocks_are_kept(bs, i - 1);
        laws::keeping_takes(bs, i - 1, block_reader());
    } else {
        assert(bs.take(0).filter_map(block_reader()) =~= Seq::empty());
    }
}

proof fn the_first_fault(bs: Seq<Tree>, i: int) -> (k: int)
    requires
        0 <= i <= bs.len(),
        exists|j: int| i <= j < bs.len() && anthropic::block_of(#[trigger] bs[j]) is Err,
        forall|j: int| 0 <= j < i ==> anthropic::block_of(#[trigger] bs[j]) is Ok,
    ensures
        i <= k < bs.len(),
        anthropic::block_of(bs[k]) is Err,
        forall|j: int| 0 <= j < k ==> anthropic::block_of(#[trigger] bs[j]) is Ok,
    decreases bs.len() - i,
{
    if anthropic::block_of(bs[i]) is Err {
        i
    } else {
        the_first_fault(bs, i + 1)
    }
}

/// A list of blocks is read whole, each in its place, and refused exactly where one of
/// them is: with the fault of the first.
pub proof fn contents_are_read_whole(bs: Seq<Tree>)
    ensures
        (forall|j: int| 0 <= j < bs.len() ==> anthropic::block_of(#[trigger] bs[j]) is Ok)
            ==> anthropic::blocks_of(bs, 0, Seq::empty()) == Ok::<Seq<BlockV>, ErrorV>(
            bs.filter_map(block_reader()),
        ),
        forall|k: int|
            0 <= k < bs.len() && anthropic::block_of(#[trigger] bs[k]) is Err && (forall|j: int|
                0 <= j < k ==> anthropic::block_of(#[trigger] bs[j]) is Ok) ==> anthropic::blocks_of(
                bs,
                0,
                Seq::empty(),
            ) == Err::<Seq<BlockV>, ErrorV>(anthropic::block_of(bs[k])->Err_0),
{
    let n = bs.len() as int;
    if forall|j: int| 0 <= j < bs.len() ==> anthropic::block_of(#[trigger] bs[j]) is Ok {
        blocks_are_kept(bs, n);
        assert(bs.take(n) =~= bs);
    }
    assert forall|k: int|
        0 <= k < bs.len() && anthropic::block_of(#[trigger] bs[k]) is Err && (forall|j: int|
            0 <= j < k ==> anthropic::block_of(#[trigger] bs[j]) is Ok) implies anthropic::blocks_of(
        bs,
        0,
        Seq::empty(),
    ) == Err::<Seq<BlockV>, ErrorV>(anthropic::block_of(bs[k])->Err_0) by {
        blocks_are_kept(bs, k);
    }
}

/// A content is one text, a list of blocks, or nothing.
pub proof fn contents_are_told_apart(v: Option<Tree>)
    ensures
        v matches Some(Tree::Str(s)) ==> anthropic::content_of(v) == Ok::<Seq<BlockV>, ErrorV>(
            seq![BlockV::Text { text: s, cache_control: None }],
        ),
        v matches Some(Tree::Arr(bs)) ==> anthropic::content_of(v) == anthropic::blocks_of(bs, 0, Seq::empty()),
        v is None || v == Some(Tree::Null) ==> anthropic::content_of(v) == Ok::<Seq<BlockV>, ErrorV>(Seq::empty()),
        v is Some && v->0 !is Str && v->0 !is Arr && v->0 !is Null ==> anthropic::content_of(v) is Err,
{
    if let Some(Tree::Str(s)) = v {
        assert(anthropic::content_of(v)->Ok_0 =~= seq![BlockV::Text { text: s, cache_control: None }]);
    }
}

/// A message of a user or an assistant has that role and its content; one of anybody
/// else is refused.
pub proof fn messages_are_read(m: Tree)
    ensures
        ({
            let role = m.at("role"@).text();
            let content = anthropic::content_of(m.at("content"@));
            &&& role == Some("user"@) && content is Ok ==> anthropic::message_of(m) == Ok::<MessageV, ErrorV>(
                MessageV { role: Role::User, content: content->Ok_0 },
            )
            &&& role == Some("assistant"@) && content is Ok ==> anthropic::message_of(m) == Ok::<MessageV, ErrorV>(
                MessageV { role: Role::Assistant, content: content->Ok_0 },
            )
            &&& role != Some("user"@) && role != Some("assistant"@) ==> anthropic::message_of(m) is Err
            &&& content is Err ==> anthropic::message_of(m) is Err
        }),
{
    reveal_strlit("user");
    reveal_strlit("assistant");
    assert("user"@.len() == 4 && "assistant"@.len() == 9);
}

proof fn messages_stay(ms: Seq<Tree>, i: int, acc: Seq<MessageV>)
    requires
        0 <= i <= ms.len(),
        acc.len() == i,
        forall|j: int| 0 <= j < i ==> Ok::<MessageV, ErrorV>(acc[j]) == anthropic::message_of(#[trigger] ms[j]),
    ensures
        match anthropic::messages_of(ms, i, acc) {
            Ok(out) => out.len() == ms.len() && forall|j: int|
                0 <= j < ms.len() ==> Ok::<MessageV, ErrorV>(out[j]) == anthropic::message_of(#[trigger] ms[j]),
            Err(e) => exists|k: int|
                0 <= k < ms.len() && anthropic::message_of(#[trigger] ms[k]) == Err::<MessageV, ErrorV>(e) && forall|
                    j: int,
                |
                    0 <= j < k ==> anthropic::message_of(#[trigger] ms[j]) is Ok,
        },
    decreases ms.len() - i,
{
    if i < ms.len() {
        match anthropic::message_of(ms[i]) {
            Ok(m) => {
                messages_stay(ms, i + 1, acc.push(m));
            },
            Err(e) => {
                assert(anthropic::message_of(ms[i]) == Err::<MessageV, ErrorV>(e));
            },
        }
    }
}

/// The `k`th message of a conversation is the `k`th that was sent. The first that
/// cannot be read refuses it.
pub proof fn conversations_are_read_whole(ms: Seq<Tree>)
    ensures
        match anthropic::messages_of(ms, 0, Seq::empty()) {
            Ok(out) => out.len() == ms.len() && forall|j: int|
                0 <= j < ms.len() ==> Ok::<MessageV, ErrorV>(out[j]) == anthropic::message_of(#[trigger] ms[j]),
            Err(e) => exists|k: int|
                0 <= k < ms.len() && anthropic::message_of(#[trigger] ms[k]) == Err::<MessageV, ErrorV>(e) && forall|
                    j: int,
                |
                    0 <= j < k ==> anthropic::message_of(#[trigger] ms[j]) is Ok,
        },
{
    messages_stay(ms, 0, Seq::empty());
}

// -------------------------------------------------------------------- fields

/// A part of the instructions: its words, and whether they may be kept.
pub open spec fn system_reader() -> spec_fn(Tree) -> Option<SystemV> {
    |p: Tree|
        match p.at("text"@).text() {
            Some(text) => Some(SystemV { text, cache_control: p.at("cache_control"@) }),
            None => None,
        }
}

proof fn system_parts_are_kept(ps: Seq<Tree>, i: int)
    requires
        0 <= i <= ps.len(),
    ensures
        anthropic::system_parts(ps, 0, Seq::empty()) == anthropic::system_parts(
            ps,
            i,
            ps.take(i).filter_map(system_reader()),
        ),
    decreases i,
{
    if i > 0 {
        system_parts_are_kept(ps, i - 1);
        laws::keeping_takes(ps, i - 1, system_reader());
    } else {
        assert(ps.take(0).filter_map(system_reader()) =~= Seq::empty());
    }
}

/// The instructions are read whole: one text, or every text of a list in order.
pub proof fn instructions_are_read_whole(v: Option<Tree>)
    ensures
        v matches Some(Tree::Str(s)) ==> anthropic::system_of(v) == Ok::<Seq<SystemV>, ErrorV>(
            seq![SystemV { text: s, cache_control: None }],
        ),
        v matches Some(Tree::Arr(ps)) ==> anthropic::system_of(v) == Ok::<Seq<SystemV>, ErrorV>(
            ps.filter_map(system_reader()),
        ),
        v is None || v == Some(Tree::Null) ==> anthropic::system_of(v) == Ok::<Seq<SystemV>, ErrorV>(Seq::empty()),
        v is Some && v->0 !is Str && v->0 !is Arr && v->0 !is Null ==> anthropic::system_of(v) is Err,
{
    if let Some(Tree::Arr(ps)) = v {
        system_parts_are_kept(ps, ps.len() as int);
        assert(ps.take(ps.len() as int) =~= ps);
    }
    if let Some(Tree::Str(s)) = v {
        assert(anthropic::system_of(v)->Ok_0 =~= seq![SystemV { text: s, cache_control: None }]);
    }
}

/// What a tool is read as: one without a name is passed over.
pub open spec fn tool_reader() -> spec_fn(Tree) -> Option<ToolV> {
    |t: Tree|
        match t.at("name"@).text() {
            Some(name) => Some(
                ToolV {
                    name,
                    description: t.at("description"@).text(),
                    input_schema: if t.at("input_schema"@) is Some {
                        t.at("input_schema"@)->0
                    } else {
                        openai::object_schema()
                    },
                    cache_control: t.at("cache_control"@),
                },
            ),
            None => None,
        }
}

proof fn tools_are_kept(ts: Seq<Tree>, i: int)
    requires
        0 <= i <= ts.len(),
    ensures
        anthropic::tools(ts, 0, Seq::empty()) == anthropic::tools(ts, i, ts.take(i).filter_map(tool_reader())),
    decreases i,
{
    if i > 0 {
        tools_are_kept(ts, i - 1);
        laws::keeping_takes(ts, i - 1, tool_reader());
    } else {
        assert(ts.take(0).filter_map(tool_reader()) =~= Seq::empty());
    }
}

/// Which tools may be called is said by its kind, and by its name for one.
pub proof fn choices_are_read(v: Option<Tree>)
    ensures
        ({
            let kind = v.at("type"@).text();
            &&& kind == Some("auto"@) ==> anthropic::choice(v) == Some(ChoiceV::Auto)
            &&& kind == Some("any"@) ==> anthropic::choice(v) == Some(ChoiceV::Any)
            &&& kind == Some("none"@) ==> anthropic::choice(v) == Some(ChoiceV::NoTool)
            &&& kind == Some("tool"@) ==> anthropic::choice(v) == match v.at("name"@).text() {
                Some(name) => Some(ChoiceV::Specific { name }),
                None => None,
            }
            &&& kind is None || !(seq!["auto"@, "any"@, "none"@, "tool"@].contains(kind->0)) ==> anthropic::choice(
                v,
            ) is None
        }),
{
    let known = seq!["auto"@, "any"@, "none"@, "tool"@];
    assert(known[0] == "auto"@ && known[1] == "any"@ && known[2] == "none"@ && known[3] == "tool"@);
    reveal_strlit("auto");
    reveal_strlit("any");
    reveal_strlit("none");
    reveal_strlit("tool");
    assert("auto"@.len() == 4 && "any"@.len() == 3 && "none"@.len() == 4 && "tool"@.len() == 4);
    assert("auto"@[0] == 'a' && "none"@[0] == 'n' && "tool"@[0] == 't');
}

/// The names of the fields that have a place of their own in a request.
pub open spec fn placed() -> Seq<Seq<char>> {
    seq![
        "model"@,
        "messages"@,
        "system"@,
        "max_tokens"@,
        "temperature"@,
        "top_p"@,
        "top_k"@,
        "stop_sequences"@,
        "stream"@,
        "tools"@,
        "tool_choice"@,
        "thinking"@,
        "metadata"@,
    ]
}

proof fn placed_is_known(k: Seq<char>)
    ensures
        anthropic::known_key(k) == placed().contains(k),
{
    let p = placed();
    assert(p[0] == "model"@ && p[1] == "messages"@ && p[2] == "system"@ && p[3] == "max_tokens"@ && p[4]
        == "temperature"@ && p[5] == "top_p"@ && p[6] == "top_k"@ && p[7] == "stop_sequences"@ && p[8] == "stream"@
        && p[9] == "tools"@ && p[10] == "tool_choice"@ && p[11] == "thinking"@ && p[12] == "metadata"@);
}

proof fn the_rest_is_kept(m: Seq<(Seq<char>, Tree)>, i: int, acc: Seq<(Seq<char>, Tree)>, k: Seq<char>)
    requires
        0 <= i <= m.len(),
        json::named_once(m),
        forall|j: int| i <= j < m.len() ==> json::field(acc, (#[trigger] m[j]).0) is None,
    ensures
        json::field(anthropic::unknown_fields(m, i, acc), k) == if exists|j: int|
            i <= j < m.len() && (#[trigger] m[j]).0 == k && !placed().contains(k) {
            json::field(m, k)
        } else {
            json::field(acc, k)
        },
    decreases m.len() - i,
{
    if i < m.len() {
        let (key, v) = m[i];
        placed_is_known(key);
        json::find_from_bounds(m, key, 0);
        let f = json::find_from(m, key, 0);
        assert(m[f].0 == m[i].0);
        if anthropic::known_key(key) {
            the_rest_is_kept(m, i + 1, acc, k);
        } else {
            let next = acc.set(key, v);
            json::set_is_found(acc, key, v, k);
            assert forall|j: int| i + 1 <= j < m.len() implies json::field(next, (#[trigger] m[j]).0) is None by {
                json::set_is_found(acc, key, v, m[j].0);
            }
            the_rest_is_kept(m, i + 1, next, k);
        }
    }
}

/// A request without a model or without messages is refused. Of any other every field
/// is read to its place, and every field that has none is left as it is.
pub proof fn anthropic_fields_are_read(body: Tree, k: Seq<char>)
    ensures
        body.at("model"@).text() is None || body.at("messages"@).list() is None ==> anthropic::request_of(body) is Err,
        body is Obj && body.at("model"@).text() is Some && body.at("messages"@).list() is Some ==> (
        anthropic::request_of(body) is Ok <==> anthropic::system_of(body.at("system"@)) is Ok
            && anthropic::messages_of(body.at("messages"@).list()->0, 0, Seq::empty()) is Ok),
        anthropic::request_of(body) matches Ok(r) ==> {
            &&& Some(r.model) == body.at("model"@).text()
            &&& r.source_dialect == Dialect::Anthropic
            &&& anthropic::system_of(body.at("system"@)) == Ok::<Seq<SystemV>, ErrorV>(r.system)
            &&& anthropic::messages_of(body.at("messages"@).list()->0, 0, Seq::empty()) == Ok::<
                Seq<MessageV>,
                ErrorV,
            >(r.messages)
            &&& r.max_tokens == body.at("max_tokens"@).limit()
            &&& r.temperature == body.at("temperature"@).float()
            &&& r.top_p == body.at("top_p"@).float()
            &&& r.top_k == body.at("top_k"@).limit()
            &&& r.stream <==> body.at("stream"@).flag() == Some(true)
            &&& body.at("stop_sequences"@).list() is Some ==> r.stop_sequences == body.at(
                "stop_sequences"@,
            ).list()->0.filter_map(openai_in::text_reader())
            &&& body.at("stop_sequences"@).list() is None ==> r.stop_sequences.len() == 0
            &&& body.at("tools"@).list() is Some ==> r.tools == body.at("tools"@).list()->0.filter_map(tool_reader())
            &&& body.at("tools"@).list() is None ==> r.tools.len() == 0
            &&& r.tool_choice == anthropic::choice(body.at("tool_choice"@))
            &&& r.thinking == match body.at("thinking"@) {
                Some(t) => Some(
                    ThinkingConfig {
                        enabled: t.at("type"@).text() == Some("enabled"@),
                        budget_tokens: t.at("budget_tokens"@).limit(),
                    },
                ),
                None => None,
            }
            &&& r.metadata_user == body.at("metadata"@).at("user_id"@).text()
            &&& json::named_once(body->Obj_0) ==> json::field(r.passthrough, k) == if placed().contains(k) {
                None
            } else {
                body.at(k)
            }
        },
{
    if let Ok(r) = anthropic::request_of(body) {
        let m = body->Obj_0;
        if let Some(ts) = body.at("tools"@).list() {
            tools_are_kept(ts, ts.len() as int);
            assert(ts.take(ts.len() as int) =~= ts);
        }
        if let Some(ts) = body.at("stop_sequences"@).list() {
            assert(ts.take(0) =~= Seq::<Tree>::empty());
            openai_in::texts_are_kept(ts, 0);
        }
        if json::named_once(m) {
            the_rest_is_kept(m, 0, json::fs(), k);
            json::find_from_bounds(m, k, 0);
            let f = json::find_from(m, k, 0);
            if f < m.len() {
                assert(m[f].0 == k);
            }
        }
    }
}

// ------------------------------------------------------------------- answers

/// The usage in an answer is read number by number.
pub proof fn usage_is_read(v: Option<Tree>)
    ensures
        anthropic::usage_of(v).input_tokens == v.at("input_tokens"@).count(),
        anthropic::usage_of(v).output_tokens == v.at("output_tokens"@).count(),
        anthropic::usage_of(v).cache_read_tokens == v.at("cache_read_input_tokens"@).count(),
        anthropic::usage_of(v).cache_write_tokens == v.at("cache_creation_input_tokens"@).count(),
        anthropic::usage_of(v).reasoning_tokens == 0,
{
}

/// Why an answer stopped is read by name; a name that is not known says nothing.
pub proof fn reasons_are_read(s: Seq<char>)
    ensures
        s == "end_turn"@ <==> anthropic::stop_reason(s) == StopReason::EndTurn,
        s == "max_tokens"@ <==> anthropic::stop_reason(s) == StopReason::MaxTokens,
        s == "stop_sequence"@ <==> anthropic::stop_reason(s) == StopReason::StopSequence,
        s == "tool_use"@ <==> anthropic::stop_reason(s) == StopReason::ToolUse,
        s == "refusal"@ <==> anthropic::stop_reason(s) == StopReason::Refusal,
{
    reveal_strlit("end_turn");
    reveal_strlit("max_tokens");
    reveal_strlit("stop_sequence");
    reveal_strlit("tool_use");
    reveal_strlit("refusal");
    assert("end_turn"@.len() == 8 && "max_tokens"@.len() == 10 && "stop_sequence"@.len() == 13 && "tool_use"@.len()
        == 8 && "refusal"@.len() == 7);
    assert("end_turn"@[0] == 'e' && "tool_use"@[0] == 't');
}

/// An answer is read whole: every block of it in order, who gave it, why it stopped and
/// what it cost. One that reports an error is that error.
pub proof fn answers_are_read_whole(body: Tree)
    ensures
        body.at("type"@).text() == Some("error"@) ==> anthropic::response_of(body) == Err::<
            crate::ir::ResponseV,
            ErrorV,
        >(ErrorV::BadUpstreamPayload(body.at("error"@).at("message"@).text_or("unknown upstream error"@))),
        anthropic::response_of(body) matches Ok(r) ==> {
            &&& r.id == body.at("id"@).text_or("msg_unknown"@)
            &&& r.model == body.at("model"@).text_or(Seq::empty())
            &&& r.stop_sequence == body.at("stop_sequence"@).text()
            &&& r.stop_reason == match body.at("stop_reason"@).text() {
                Some(s) => anthropic::stop_reason(s),
                None => StopReason::Unknown,
            }
            &&& r.usage == anthropic::usage_of(body.at("usage"@))
            &&& body.at("content"@).list() is None ==> r.content.len() == 0
            &&& body.at("content"@) matches Some(Tree::Arr(bs)) ==> r.content == bs.filter_map(block_reader())
        },
        body.at("type"@).text() != Some("error"@) ==> (anthropic::response_of(body) is Ok <==> (body.at(
            "content"@,
        ) matches Some(Tree::Arr(bs)) ==> forall|j: int|
            0 <= j < bs.len() ==> anthropic::block_of(#[trigger] bs[j]) is Ok)),
{
    if let Some(Tree::Arr(bs)) = body.at("content"@) {
        contents_are_read_whole(bs);
        if exists|j: int| 0 <= j < bs.len() && anthropic::block_of(#[trigger] bs[j]) is Err {
            let k = the_first_fault(bs, 0);
            assert(anthropic::block_of(bs[k]) is Err);
        }
    }
}

} // verus!
