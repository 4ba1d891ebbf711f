//! What is read of a Responses request and of a Responses answer.

use vstd::prelude::*;

use crate::error::ErrorV;
use crate::ir;
use crate::ir::{BlockV, ChoiceV, Dialect, MessageV, PartV, Role, SourceV, StopReason, SystemV, ToolV};
use crate::json;
use crate::json::{Build, Lookup, Tree};
use crate::laws;
use crate::protocol::openai;
use crate::protocol::reasoning_bridge;
use crate::protocol::responses;

verus! {

// --------------------------------------------------------------------- parts

proof fn part_names()
    ensures
        "output_text"@.len() == 11 && "output_text"@[0] == 'o',
        "input_text"@.len() == 10 && "input_text"@[6] == 't',
        "input_image"@.len() == 11 && "input_image"@[0] == 'i' && "input_image"@[6] == 'i',
        "input_audio"@.len() == 11 && "input_audio"@[0] == 'i' && "input_audio"@[6] == 'a',
        "input_file"@.len() == 10 && "input_file"@[6] == 'f',
        "function_call"@.len() == 13,
        "function_call_output"@.len() == 20,
        "reasoning"@.len() == 9,
        "message"@.len() == 7,
        "mp3"@.len() == 3,
{
    reveal_strlit("output_text");
    reveal_strlit("input_text");
    reveal_strlit("input_image");
    reveal_strlit("input_audio");
    reveal_strlit("input_file");
    reveal_strlit("function_call");
    reveal_strlit("function_call_output");
    reveal_strlit("reasoning");
    reveal_strlit("message");
    reveal_strlit("mp3");
}

/// Words, a picture, a sound or a file: what each part of a message is read as. A
/// picture has an address or an id; a sound its data and format; a file its data, an
/// address or an id, in that order.
pub proof fn parts_are_read(p: Tree)
    ensures
        ({
            let kind = p.at("type"@).text();
            let r = responses::part_block(p);
            let media_type = p.at("media_type"@).text_or("application/octet-stream"@);
            let name = p.at("filename"@).text();
            &&& kind == Some("output_text"@) || kind == Some("input_text"@) ==> r == match p.at("text"@).text() {
                Some(text) => Some(BlockV::Text { text, cache_control: None }),
                None => None,
            }
            &&& kind == Some("input_image"@) ==> match p.at("image_url"@).at("url"@).text() {
                Some(url) => r == Some(BlockV::Image { source: ir::source_of_url(url) }),
                None => match p.at("file_id"@).text() {
                    Some(id) => r == Some(BlockV::Image { source: SourceV::Reference { id } }),
                    None => r is None,
                },
            }
            &&& kind == Some("input_audio"@) ==> match p.at("input_audio"@) {
                Some(a) => r matches Some(BlockV::Audio { source, media_type }) && ({
                    let format = a.at("format"@).text_or("wav"@);
                    &&& media_type == "audio/"@ + (if format == "mp3"@ { "mpeg"@ } else { format })
                    &&& source == SourceV::Base64 { media_type, data: a.at("data"@).text_or(Seq::empty()) }
                }),
                None => r is None,
            }
            &&& kind == Some("input_file"@) && p.at("file_data"@).text() is Some ==> r == Some(
                BlockV::File {
                    source: SourceV::Base64 { media_type, data: p.at("file_data"@).text()->0 },
                    media_type,
                    name,
                },
            )
            &&& kind == Some("input_file"@) && p.at("file_data"@).text() is None && p.at("file_url"@).text() is Some
                ==> r == Some(
                BlockV::File { source: SourceV::Url { url: p.at("file_url"@).text()->0 }, media_type, name },
            )
            &&& kind == Some("input_file"@) && p.at("file_data"@).text() is None && p.at("file_url"@).text() is None
                && p.at("file_id"@).text() is Some ==> r == Some(
                BlockV::File { source: SourceV::Reference { id: p.at("file_id"@).text()->0 }, media_type, name },
            )
            &&& kind == Some("input_file"@) && p.at("file_data"@).text() is None && p.at("file_url"@).text() is None
                && p.at("file_id"@).text() is None ==> r is None
            &&& kind is None || !(seq![
                "output_text"@,
                "input_text"@,
                "input_image"@,
                "input_audio"@,
                "input_file"@,
            ].contains(kind->0)) ==> r is None
        }),
{
    part_names();
    let known = seq!["output_text"@, "input_text"@, "input_image"@, "input_audio"@, "input_file"@];
    assert(known[0] == "output_text"@ && known[1] == "input_text"@ && known[2] == "input_image"@ && known[3]
        == "input_audio"@ && known[4] == "input_file"@);
}

pub open spec fn part_reader() -> spec_fn(Tree) -> Option<BlockV> {
    |p: Tree| responses::part_block(p)
}

proof fn parts_are_kept(ps: Seq<Tree>, i: int)
    requires
        0 <= i <= ps.len(),
    ensures
        responses::part_blocks(ps, 0, Seq::empty()) == responses::part_blocks(
            ps,
            i,
            ps.take(i).filter_map(part_reader()),
        ),
    decreases i,
{
    if i > 0 {
        parts_are_kept(ps, i - 1);
        laws::keeping_takes(ps, i - 1, part_reader());
    } else {
        assert(ps.take(0).filter_map(part_reader()) =~= Seq::empty());
    }
}

// --------------------------------------------------------------------- items

/// A call with the id, the name and the arguments of an item; arguments that are no
/// document stay the text they are.
pub open spec fn call_in(item: Tree) -> BlockV {
    let arguments = item.at("arguments"@).text_or("{}"@);
    BlockV::ToolUse {
        id: item.at("call_id"@).text_or(Seq::empty()),
        name: item.at("name"@).text_or(Seq::empty()),
        input: if json::parsed(arguments) is Ok { json::parsed(arguments)->Ok_0 } else { Tree::Str(arguments) },
    }
}

/// What an item of reasoning holds: the thought it was made from, or else the words of
/// its first summary.
pub open spec fn thought_in(item: Tree) -> Option<BlockV> {
    let first = item.at("summary"@).list();
    if reasoning_bridge::block_of(item) is Some {
        reasoning_bridge::block_of(item)
    } else if first is Some && first->0.len() > 0 && first->0[0].at("text"@).text() is Some {
        Some(BlockV::Thinking { text: first->0[0].at("text"@).text()->0, signature: None })
    } else {
        None
    }
}

/// The turn of one block.
pub open spec fn turn(role: Role, b: BlockV) -> MessageV {
    MessageV { role, content: seq![b] }
}

/// What each item of an input is read as. A call and a thought are the assistant's;
/// what a tool returned, and words, pictures, sounds and files on their own, are the
/// user's; a message has the role it names and all its parts in order.
pub proof fn items_are_read(item: Tree)
    ensures
        ({
            let kind = item.at("type"@).text();
            let r = responses::item_turn(item);
            &&& kind == Some("function_call"@) ==> r == Some(turn(Role::Assistant, call_in(item)))
            &&& kind == Some("function_call_output"@) ==> r == Some(
                turn(
                    Role::User,
                    BlockV::ToolResult {
                        tool_use_id: item.at("call_id"@).text_or(Seq::empty()),
                        name: Seq::empty(),
                        content: seq![PartV::Text { text: item.at("output"@).text_or(Seq::empty()) }],
                        is_error: false,
                    },
                ),
            )
            &&& kind == Some("input_text"@) ==> r == Some(
                turn(
                    Role::User,
                    BlockV::Text { text: item.at("text"@).text_or(Seq::empty()), cache_control: None },
                ),
            )
            &&& kind == Some("input_image"@) || kind == Some("input_audio"@) || kind == Some("input_file"@)
                ==> match responses::part_block(item) {
                Some(b) => r == Some(turn(Role::User, b)),
                None => r is None,
            }
            &&& kind == Some("reasoning"@) ==> match thought_in(item) {
                Some(b) => r == Some(turn(Role::Assistant, b)),
                None => r is None,
            }
            &&& kind == Some("message"@) ==> r is Some && r->0.role == (if item.at("role"@).text() == Some(
                "assistant"@,
            ) { Role::Assistant } else { Role::User }) && r->0.content == match item.at("content"@).list() {
                Some(ps) => ps.filter_map(part_reader()),
                None => Seq::empty(),
            }
            &&& kind is None || !(seq![
                "function_call"@,
                "function_call_output"@,
                "input_text"@,
                "input_image"@,
                "input_audio"@,
                "input_file"@,
                "reasoning"@,
                "message"@,
            ].contains(kind->0)) ==> r is None
        }),
{
    part_names();
    let known = seq![
        "function_call"@,
        "function_call_output"@,
        "input_text"@,
        "input_image"@,
        "input_audio"@,
        "input_file"@,
        "reasoning"@,
        "message"@,
    ];
    assert(known[0] == "function_call"@ && known[1] == "function_call_output"@ && known[2] == "input_text"@
        && known[3] == "input_image"@ && known[4] == "input_audio"@ && known[5] == "input_file"@ && known[6]
        == "reasoning"@ && known[7] == "message"@);
    if let Some(ps) = item.at("content"@).list() {
        parts_are_kept(ps, ps.len() as int);
        assert(ps.take(ps.len() as int) =~= ps);
    }
    if let Some(m) = responses::item_turn(item) {
        if item.at("type"@).text() != Some("message"@) {
            assert(m.content =~= seq![m.content[0]]);
        }
        if let BlockV::ToolResult { content, .. } = m.content[0] {
            assert(item.at("type"@).text() == Some("function_call_output"@) ==> content =~= seq![
                PartV::Text { text: item.at("output"@).text_or(Seq::empty()) },
            ]);
        }
    }
}

pub open spec fn turn_reader() -> spec_fn(Tree) -> Option<MessageV> {
    |item: Tree| responses::item_turn(item)
}

proof fn turns_are_kept(items: Seq<Tree>, i: int)
    requires
        0 <= i <= items.len(),
    ensures
        responses::turns(items, 0, Seq::empty()) == responses::turns(
            items,
            i,
            items.take(i).filter_map(turn_reader()),
        ),
    decreases i,
{
    if i > 0 {
        turns_are_kept(items, i - 1);
        laws::keeping_takes(items, i - 1, turn_reader());
    } else {
        assert(items.take(0).filter_map(turn_reader()) =~= Seq::empty());
    }
}

// -------------------------------------------------------------------- fields

/// An instruction in a list: a part with a text, or a text.
pub open spec fn instruction_reader() -> spec_fn(Tree) -> Option<SystemV> {
    |p: Tree|
        match (p.at("text"@).text(), p) {
            (Some(text), _) => Some(SystemV { text, cache_control: None }),
            (None, Tree::Str(text)) => Some(SystemV { text, cache_control: None }),
            _ => None,
        }
}

proof fn instructions_are_kept(ps: Seq<Tree>, i: int)
    requires
        0 <= i <= ps.len(),
    ensures
        responses::instructions(ps, 0, Seq::empty()) == responses::instructions(
            ps,
            i,
            ps.take(i).filter_map(instruction_reader()),
        ),
    decreases i,
{
    if i > 0 {
        instructions_are_kept(ps, i - 1);
        laws::keeping_takes(ps, i - 1, instruction_reader());
    } else {
        assert(ps.take(0).filter_map(instruction_reader()) =~= Seq::empty());
    }
}

/// The instructions are read whole: one text, or every one of a list in order.
pub proof fn instructions_are_read_whole(v: Option<Tree>)
    ensures
        v matches Some(Tree::Str(s)) ==> responses::system_of(v) == seq![SystemV { text: s, cache_control: None }],
        v matches Some(Tree::Arr(ps)) ==> responses::system_of(v) == ps.filter_map(instruction_reader()),
        v.text() is None && v.list() is None ==> responses::system_of(v).len() == 0,
{
    if let Some(Tree::Arr(ps)) = v {
        instructions_are_kept(ps, ps.len() as int);
        assert(ps.take(ps.len() as int) =~= ps);
    }
    if let Some(Tree::Str(s)) = v {
        assert(responses::system_of(v) =~= seq![SystemV { text: s, cache_control: None }]);
    }
}

pub open spec fn tool_reader() -> spec_fn(Tree) -> Option<ToolV> {
    |t: Tree|
        match t.at("name"@).text() {
            Some(name) => Some(
                ToolV {
                    name,
                    description: t.at("description"@).text(),
                    input_schema: if t.at("parameters"@) is Some {
                        t.at("parameters"@)->0
                    } else {
                        openai::object_schema()
                    },
                    cache_control: None,
                },
            ),
            None => None,
        }
}

proof fn tools_are_kept(ts: Seq<Tree>, i: int)
    requires
        0 <= i <= ts.len(),
    ensures
        responses::tools(ts, 0, Seq::empty()) == responses::tools(ts, i, ts.take(i).filter_map(tool_reader())),
    decreases i,
{
    if i > 0 {
        tools_are_kept(ts, i - 1);
        laws::keeping_takes(ts, i - 1, tool_reader());
    } else {
        assert(ts.take(0).filter_map(tool_reader()) =~= Seq::empty());
    }
}

/// Which tools may be called is said by a word, or by the name of one.
pub proof fn choices_are_read(v: Option<Tree>)
    ensures
        v == Some(Tree::Str("auto"@)) ==> responses::choice(v) == Some(ChoiceV::Auto),
        v == Some(Tree::Str("none"@)) ==> responses::choice(v) == Some(ChoiceV::NoTool),
        v == Some(Tree::Str("required"@)) || v == Some(Tree::Str("any"@)) ==> responses::choice(v) == Some(
            ChoiceV::Any,
        ),
        v.text() is None ==> responses::choice(v) == match v.at("name"@).text() {
            Some(name) => Some(ChoiceV::Specific { name }),
            None => None,
        },
        v matches Some(Tree::Str(s)) ==> !(seq!["auto"@, "none"@, "required"@, "any"@].contains(s))
            ==> responses::choice(v) is None,
{
    reveal_strlit("auto");
    reveal_strlit("none");
    reveal_strlit("required");
    reveal_strlit("any");
    assert("auto"@.len() == 4 && "none"@.len() == 4 && "required"@.len() == 8 && "any"@.len() == 3);
    assert("auto"@[0] == 'a' && "none"@[0] == 'n');
    let known = seq!["auto"@, "none"@, "required"@, "any"@];
    assert(known[0] == "auto"@ && known[1] == "none"@ && known[2] == "required"@ && known[3] == "any"@);
}

/// The fields that are carried along as they are.
pub open spec fn is_carried(k: Seq<char>) -> bool {
    k == "store"@ || k == "previous_response_id"@ || k == "truncation"@ || k == "include"@
}

/// What the fields hold when what is carried along was put over them.
pub(crate) proof fn carrying_shows(m: Seq<(Seq<char>, Tree)>, from: Tree, k: Seq<char>)
    ensures
        json::field(responses::carried_fields(m, from), k) == if is_carried(k) && from.at(k) is Some {
            from.at(k)
        } else {
            json::field(m, k)
        },
{
    reveal_strlit("store");
    reveal_strlit("previous_response_id");
    reveal_strlit("truncation");
    reveal_strlit("include");
    assert("store"@.len() == 5 && "previous_response_id"@.len() == 20 && "truncation"@.len() == 10 && "include"@.len()
        == 7);
    let a = responses::carried(m, "store"@, from.at("store"@));
    if let Some(t) = from.at("store"@) {
        json::set_is_found(m, "store"@, t, k);
    }
    let b = responses::carried(a, "previous_response_id"@, from.at("previous_response_id"@));
    if let Some(t) = from.at("previous_response_id"@) {
        json::set_is_found(a, "previous_response_id"@, t, k);
    }
    let c = responses::carried(b, "truncation"@, from.at("truncation"@));
    if let Some(t) = from.at("truncation"@) {
        json::set_is_found(b, "truncation"@, t, k);
    }
    if let Some(t) = from.at("include"@) {
        json::set_is_found(c, "include"@, t, k);
    }
}

/// A request without a model is refused. Of any other every field is read to its
/// place: the input item by item, and four fields as they are.
pub proof fn responses_fields_are_read(body: Tree, k: Seq<char>)
    ensures
        responses::request_of(body) is Ok <==> body is Obj && body.at("model"@).text() is Some,
        responses::request_of(body) matches Err(e) ==> e is InvalidRequest,
        responses::request_of(body) matches Ok(r) ==> {
            &&& Some(r.model) == body.at("model"@).text()
            &&& r.source_dialect == Dialect::OpenAIResponses
            &&& r.system == responses::system_of(body.at("instructions"@))
            &&& body.at("input"@) matches Some(Tree::Arr(items)) ==> r.messages == items.filter_map(turn_reader())
            &&& body.at("input"@).list() is None ==> r.messages.len() == 0
            &&& r.max_tokens == body.at("max_output_tokens"@).limit()
            &&& r.temperature == body.at("temperature"@).float()
            &&& r.top_p == body.at("top_p"@).float()
            &&& r.top_k is None
            &&& r.stop_sequences.len() == 0
            &&& r.stream <==> body.at("stream"@).flag() == Some(true)
            &&& body.at("tools"@) matches Some(Tree::Arr(ts)) ==> r.tools == ts.filter_map(tool_reader())
            &&& body.at("tools"@).list() is None ==> r.tools.len() == 0
            &&& r.tool_choice == responses::choice(body.at("tool_choice"@))
            &&& r.thinking == openai::effort(body.at("reasoning"@).at("effort"@).text())
            &&& r.metadata_user == body.at("metadata"@).at("user"@).text()
            &&& json::field(r.passthrough, k) == if is_carried(k) { body.at(k) } else { None }
        },
{
    if let Some(Tree::Arr(items)) = body.at("input"@) {
        turns_are_kept(items, items.len() as int);
        assert(items.take(items.len() as int) =~= items);
    }
    if let Some(Tree::Arr(ts)) = body.at("tools"@) {
        tools_are_kept(ts, ts.len() as int);
        assert(ts.take(ts.len() as int) =~= ts);
    }
    carrying_shows(json::fs(), body, k);
    assert(json::field(json::fs(), k) is None);
}

// ------------------------------------------------------------------- answers

/// The words of a part of an answer.
pub open spec fn words_reader() -> spec_fn(Tree) -> Option<BlockV> {
    |p: Tree|
        if p.at("type"@).text() == Some("output_text"@) && p.at("text"@).text() is Some {
            Some(BlockV::Text { text: p.at("text"@).text()->0, cache_control: None })
        } else {
            None
        }
}

proof fn words_are_kept(ps: Seq<Tree>, i: int, acc: Seq<BlockV>)
    requires
        0 <= i <= ps.len(),
    ensures
        responses::output_texts(ps, i, acc) == acc + ps.skip(i).filter_map(words_reader()),
    decreases ps.len() - i,
{
    if i < ps.len() {
        laws::keeping_first(ps, i, words_reader());
        if let Some(b) = words_reader()(ps[i]) {
            words_are_kept(ps, i + 1, acc.push(b));
            assert(acc + (Seq::empty().push(b) + ps.skip(i + 1).filter_map(words_reader())) =~= acc.push(b)
                + ps.skip(i + 1).filter_map(words_reader()));
        } else {
            words_are_kept(ps, i + 1, acc);
            assert(acc + (Seq::empty() + ps.skip(i + 1).filter_map(words_reader())) =~= acc + ps.skip(
                i + 1,
            ).filter_map(words_reader()));
        }
    } else {
        laws::nothing_is_left(ps, words_reader(), |p: Tree| Seq::<BlockV>::empty());
        assert(acc + Seq::<BlockV>::empty() =~= acc);
    }
}

/// What an item of an answer brings: a message all its words in order, a call or a
/// thought itself, anything else nothing.
pub open spec fn item_blocks() -> spec_fn(Tree) -> Seq<BlockV> {
    |item: Tree|
        {
            let kind = item.at("type"@).text();
            if kind == Some("message"@) && item.at("content"@).list() is Some {
                item.at("content"@).list()->0.filter_map(words_reader())
            } else if kind == Some("function_call"@) {
                seq![call_in(item)]
            } else if kind == Some("reasoning"@) && thought_in(item) is Some {
                seq![thought_in(item)->0]
            } else {
                Seq::empty()
            }
        }
}

proof fn one_item_more(acc: Seq<BlockV>, item: Tree)
    ensures
        responses::output_item(acc, item) == acc + item_blocks()(item),
{
    part_names();
    if let Some(ps) = item.at("content"@).list() {
        words_are_kept(ps, 0, acc);
        assert(ps.skip(0) =~= ps);
    }
    assert(responses::output_item(acc, item) =~= acc + item_blocks()(item));
}

proof fn items_unfold(items: Seq<Tree>, i: int)
    requires
        0 <= i <= items.len(),
    ensures
        responses::output_items(items, 0, Seq::empty()) == responses::output_items(
            items,
            i,
            items.take(i).flat_map(item_blocks()),
        ),
    decreases i,
{
    if i > 0 {
        items_unfold(items, i - 1);
        laws::unfolding_takes(items, i - 1, item_blocks());
        one_item_more(items.take(i - 1).flat_map(item_blocks()), items[i - 1]);
    } else {
        assert(items.take(0).map_values(item_blocks()) =~= Seq::empty());
        assert(items.take(0).flat_map(item_blocks()) =~= Seq::empty());
    }
}

/// The usage in an answer is read number by number; none is none.
pub proof fn usage_is_read(v: Option<Tree>)
    ensures
        v is None || v == Some(Tree::Null) ==> responses::usage_of(v) == ir::no_usage(),
        responses::usage_of(v).input_tokens == v.at("input_tokens"@).count(),
        responses::usage_of(v).output_tokens == v.at("output_tokens"@).count(),
        responses::usage_of(v).cache_read_tokens == v.at("input_tokens_details"@).at("cached_tokens"@).count(),
        responses::usage_of(v).reasoning_tokens == v.at("output_tokens_details"@).at("reasoning_tokens"@).count(),
        responses::usage_of(v).cache_write_tokens == 0,
{
}

/// An answer is read whole: what every item brings, in order, and what it cost. One
/// that is incomplete was cut off, any other is at its end; one that reports an error
/// is that error.
pub proof fn answers_are_read_whole(body: Tree)
    ensures
        body.at("error"@) matches Some(e) ==> responses::response_of(body) == Err::<ir::ResponseV, ErrorV>(
            ErrorV::BadUpstreamPayload(e.at("message"@).text_or("unknown upstream error"@)),
        ),
        responses::response_of(body) is Ok <==> body.at("error"@) is None,
        responses::response_of(body) matches Ok(r) ==> {
            &&& r.id == body.at("id"@).text_or("resp_unknown"@)
            &&& r.model == body.at("model"@).text_or(Seq::empty())
            &&& body.at("output"@) matches Some(Tree::Arr(items)) ==> r.content == items.flat_map(item_blocks())
            &&& body.at("output"@).list() is None ==> r.content.len() == 0
            &&& r.stop_reason == if body.at("status"@).text() == Some("incomplete"@) {
                StopReason::MaxTokens
            } else {
                StopReason::EndTurn
            }
            &&& r.stop_sequence is None
            &&& r.usage == responses::usage_of(body.at("usage"@))
            &&& json::field(r.passthrough, "previous_response_id"@) == match body.at("previous_response_id"@).text() {
                Some(id) => Some(Tree::Str(id)),
                None => None,
            }
            &&& json::field(r.passthrough, "incomplete_details"@) == match body.at("incomplete_details"@).at(
                "reason"@,
            ).text() {
                Some(reason) if body.at("status"@).text() == Some("incomplete"@) => Some(
                    Tree::Obj(seq![("reason"@, Tree::Str(reason))]),
                ),
                _ => None,
            }
        },
{
    if let Some(Tree::Arr(items)) = body.at("output"@) {
        items_unfold(items, items.len() as int);
        assert(items.take(items.len() as int) =~= items);
    }
    let (a, b) = ("previous_response_id"@, "incomplete_details"@);
    reveal_strlit("previous_response_id");
    reveal_strlit("incomplete_details");
    assert(a.len() == 20 && b.len() == 18);
    assert(json::field(json::fs(), a) is None && json::field(json::fs(), b) is None);
    let m = match body.at(a).text() {
        Some(id) => json::fs().set(a, json::st(id)),
        None => json::fs(),
    };
    if let Some(id) = body.at(a).text() {
        json::set_is_found(json::fs(), a, json::st(id), a);
        json::set_is_found(json::fs(), a, json::st(id), b);
    }
    if let Some(reason) = body.at(b).at("reason"@).text() {
        let d = Tree::Obj(json::fs().with("reason"@, json::st(reason)));
        assert(d->Obj_0 =~= seq![("reason"@, Tree::Str(reason))]);
        json::set_is_found(m, b, d, a);
        json::set_is_found(m, b, d, b);
    }
}

} // verus!
