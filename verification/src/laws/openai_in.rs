//! What reading an OpenAI request keeps of it.

use crate::error::ErrorV;
use crate::ir;
use crate::ir::{BlockV, ChoiceV, Dialect, MessageV, PartV, Role, SourceV, SystemV, ToolV};
use crate::json;
use crate::json::{Build, Lookup, Tree};
use crate::laws;
use crate::protocol::openai;
use crate::protocol::openai::Conversation;
use crate::protocol::reasoning_bridge;
use crate::text;
use vstd::prelude::*;

verus! {

/// The words of one part of a content list.
pub open spec fn part_words() -> spec_fn(Tree) -> Seq<char> {
    |p: Tree| match p {
        Tree::Str(s) => s,
        _ => p.at("text"@).text_or(Seq::empty()),
    }
}

proof fn pieces_are_words(parts: Seq<Tree>, i: int)
    requires
        0 <= i <= parts.len(),
    ensures
        openai::pieces(parts, i, parts.take(i).flat_map(part_words())) == parts.flat_map(part_words()),
    decreases parts.len() - i,
{
    if i < parts.len() {
        laws::unfolding_takes(parts, i, part_words());
        pieces_are_words(parts, i + 1);
    } else {
        assert(parts.take(i) =~= parts);
    }
}

/// The text of a content list is the texts of all its parts, one behind the other, and
/// the text of two lists is the text of the one and then of the other. A string is its
/// own text; anything else has none.
pub proof fn content_is_read_whole(a: Seq<Tree>, b: Seq<Tree>, s: Seq<char>, c: Option<Tree>)
    ensures
        openai::flat(Some(Tree::Arr(a))) == Some(a.flat_map(part_words())),
        openai::flat(Some(Tree::Arr(a + b)))->0 == openai::flat(Some(Tree::Arr(a)))->0 + openai::flat(
            Some(Tree::Arr(b)),
        )->0,
        openai::flat(Some(Tree::Str(s))) == Some(s),
        c.list() is None && c.text() is None ==> openai::flat(c) is None,
{
    let none = Seq::<Tree>::empty();
    assert(a.take(0) =~= none && b.take(0) =~= none && (a + b).take(0) =~= none);
    assert(none.map_values(part_words()) =~= Seq::empty());
    pieces_are_words(a, 0);
    pieces_are_words(b, 0);
    pieces_are_words(a + b, 0);
    laws::unfolding_joins(a, b, part_words());
}

// ----------------------------------------------------------------- user turns

/// What the parts of a user turn are read as: text, a picture at a URL, or sound. A part
/// of no type is text, and any other kind of part is left out.
pub proof fn user_parts_are_read(p: Tree)
    ensures
        ({
            let kind = p.at("type"@).text_or("text"@);
            let url = p.at("image_url"@).at("url"@).text();
            let sound = p.at("input_audio"@);
            &&& kind == "text"@ ==> openai::user_part(p) == match p.at("text"@).text() {
                Some(t) => Some(BlockV::Text { text: t, cache_control: None }),
                None => None,
            }
            &&& kind == "image_url"@ && url is Some ==> openai::user_part(p) == Some(
                BlockV::Image { source: ir::source_of_url(url->0) },
            )
            &&& kind == "input_audio"@ && sound is Some ==> (openai::user_part(p) matches Some(
                BlockV::Audio { source, media_type },
            ) && media_type == "audio/"@ + sound.at("format"@).text_or("wav"@) && source == (SourceV::Base64 {
                media_type,
                data: sound.at("data"@).text_or(Seq::empty()),
            }))
            &&& kind != "text"@ && kind != "image_url"@ && kind != "input_audio"@ ==> openai::user_part(p) is None
        }),
{
    names_differ();
}

proof fn names_differ()
    ensures
        "text"@ != "image_url"@,
        "text"@ != "input_audio"@,
        "image_url"@ != "input_audio"@,
{
    reveal_strlit("text");
    reveal_strlit("image_url");
    reveal_strlit("input_audio");
    assert("text"@.len() == 4 && "image_url"@.len() == 9 && "input_audio"@.len() == 11);
}

/// One part of a user turn, where it is read.
pub open spec fn user_reader() -> spec_fn(Tree) -> Option<BlockV> {
    |p: Tree| openai::user_part(p)
}

proof fn user_parts_are_kept(parts: Seq<Tree>, i: int)
    requires
        0 <= i <= parts.len(),
    ensures
        openai::user_parts(parts, i, parts.take(i).filter_map(user_reader())) == parts.filter_map(user_reader()),
    decreases parts.len() - i,
{
    if i < parts.len() {
        laws::keeping_takes(parts, i, user_reader());
        user_parts_are_kept(parts, i + 1);
    } else {
        assert(parts.take(i) =~= parts);
    }
}

/// A user turn is read part by part: every part that can be read is a block, in order. A
/// string is one block of text, nothing is no block, and any other content is refused.
pub proof fn user_turns_are_read_whole(parts: Seq<Tree>, s: Seq<char>, c: Option<Tree>)
    ensures
        openai::user_blocks(Some(Tree::Arr(parts))) == Ok::<Seq<BlockV>, ErrorV>(parts.filter_map(user_reader())),
        openai::user_blocks(Some(Tree::Str(s))) == Ok::<Seq<BlockV>, ErrorV>(
            seq![BlockV::Text { text: s, cache_control: None }],
        ),
        openai::user_blocks(c) is Err <==> c.not_null() is Some && c.list() is None && c.text() is None,
        c.not_null() is None ==> openai::user_blocks(c) == Ok::<Seq<BlockV>, ErrorV>(Seq::empty()),
{
    assert(parts.take(0) =~= Seq::<Tree>::empty());
    user_parts_are_kept(parts, 0);
    assert(Seq::empty().push(ir::text_block(s)) =~= seq![BlockV::Text { text: s, cache_control: None }]);
}

// ------------------------------------------------------------ assistant turns

/// A tool call of a history: its own identifier and name, and its arguments read as JSON
/// where they are JSON, as they stand where not, and as an empty object where there are
/// none.
pub proof fn calls_are_read(c: Tree, id: Seq<char>)
    ensures
        openai::called(c, id) is ToolUse,
        openai::called(c, id)->ToolUse_id == id,
        openai::called(c, id)->ToolUse_name == c.at("function"@).at("name"@).text_or(Seq::empty()),
        ({
            let said = c.at("function"@).at("arguments"@).text();
            let input = openai::called(c, id)->ToolUse_input;
            &&& said is None || text::trimmed(said->0).len() == 0 ==> input == Tree::Obj(Seq::empty())
            &&& said is Some && text::trimmed(said->0).len() > 0 && json::parsed(said->0) is Ok ==> input
                == json::parsed(said->0)->Ok_0
            &&& said is Some && text::trimmed(said->0).len() > 0 && json::parsed(said->0) is Err ==> input
                == Tree::Str(said->0)
        }),
{
}

/// One call of a history, under its own identifier.
pub open spec fn call_reader() -> spec_fn(Tree) -> BlockV {
    |c: Tree| openai::called(c, c.at("id"@).text_or(Seq::empty()))
}

pub open spec fn bridge_reader() -> spec_fn(Tree) -> Option<BlockV> {
    |c: Tree| reasoning_bridge::block_of(c)
}

proof fn calls_are_mapped(cs: Seq<Tree>, i: int, acc: Seq<BlockV>)
    requires
        0 <= i <= cs.len(),
    ensures
        openai::calls(cs, i, acc) == acc + cs.skip(i).map_values(call_reader()),
    decreases cs.len() - i,
{
    if i < cs.len() {
        let x = openai::called(cs[i], cs[i].at("id"@).text_or(Seq::empty()));
        calls_are_mapped(cs, i + 1, acc.push(x));
        assert(acc.push(x) + cs.skip(i + 1).map_values(call_reader()) =~= acc + cs.skip(i).map_values(call_reader()));
    } else {
        assert(acc + cs.skip(i).map_values(call_reader()) =~= acc);
    }
}

proof fn items_are_kept(items: Seq<Tree>, i: int, acc: Seq<BlockV>)
    requires
        0 <= i <= items.len(),
    ensures
        openai::bridged(items, i, acc + items.take(i).filter_map(bridge_reader())) == acc + items.filter_map(
            bridge_reader(),
        ),
    decreases items.len() - i,
{
    if i < items.len() {
        laws::keeping_takes(items, i, bridge_reader());
        if let Some(b) = reasoning_bridge::block_of(items[i]) {
            assert((acc + items.take(i).filter_map(bridge_reader())).push(b) =~= acc + items.take(
                i + 1,
            ).filter_map(bridge_reader()));
        }
        items_are_kept(items, i + 1, acc);
    } else {
        assert(items.take(i) =~= items);
    }
}

/// An assistant turn is read whole: its reasoning under the one name or else the other,
/// what its reasoning items bridge, its text where there is any, and all its tool calls,
/// in that order.
pub proof fn assistant_turns_are_read_whole(m: Tree)
    ensures
        ({
            let said = m.at("reasoning_content"@).words();
            let thought = if said is Some {
                said
            } else {
                m.at("reasoning"@).words()
            };
            let words = openai::flat(m.at("content"@));
            let items = m.at("reasoning"@).list();
            let cs = m.at("tool_calls"@).list();
            openai::assistant_blocks(m) == (if thought is Some {
                seq![BlockV::Thinking { text: thought->0, signature: None }]
            } else {
                Seq::empty()
            }) + (if items is Some {
                items->0.filter_map(bridge_reader())
            } else {
                Seq::empty()
            }) + (if words is Some && words->0.len() > 0 {
                seq![BlockV::Text { text: words->0, cache_control: None }]
            } else {
                Seq::empty()
            }) + (if cs is Some {
                cs->0.map_values(call_reader())
            } else {
                Seq::empty()
            })
        }),
{
    let said = m.at("reasoning_content"@).words();
    let thought = if said is Some {
        said
    } else {
        m.at("reasoning"@).words()
    };
    let none = Seq::<BlockV>::empty();
    let a = if thought is Some {
        seq![BlockV::Thinking { text: thought->0, signature: None }]
    } else {
        none
    };
    if thought is Some {
        assert(a =~= none.push(BlockV::Thinking { text: thought->0, signature: None }));
    }
    let b = match m.at("reasoning"@).list() {
        Some(items) => {
            assert(items.take(0) =~= Seq::<Tree>::empty());
            assert(a + items.take(0).filter_map(bridge_reader()) =~= a);
            items_are_kept(items, 0, a);
            a + items.filter_map(bridge_reader())
        },
        None => {
            assert(a + none =~= a);
            a
        },
    };
    let c = match openai::flat(m.at("content"@)) {
        Some(t) => if t.len() > 0 {
            assert(b.push(ir::text_block(t)) =~= b + seq![BlockV::Text { text: t, cache_control: None }]);
            b.push(ir::text_block(t))
        } else {
            assert(b + none =~= b);
            b
        },
        None => {
            assert(b + none =~= b);
            b
        },
    };
    match m.at("tool_calls"@).list() {
        Some(cs) => {
            calls_are_mapped(cs, 0, c);
            assert(cs.skip(0) =~= cs);
        },
        None => {
            assert(c + none =~= c);
        },
    }
}

// ------------------------------------------------------------- conversations

pub open spec fn role_of(m: Tree) -> Seq<char> {
    m.at("role"@).text_or("user"@)
}

pub open spec fn is_system(m: Tree) -> bool {
    role_of(m) == "system"@ || role_of(m) == "developer"@
}

pub open spec fn is_result(m: Tree) -> bool {
    role_of(m) == "tool"@ || role_of(m) == "function"@
}

pub open spec fn is_assistant(m: Tree) -> bool {
    role_of(m) == "assistant"@
}

/// Whoever is not one of the others is the user.
pub open spec fn is_user(m: Tree) -> bool {
    !is_system(m) && !is_result(m) && !is_assistant(m)
}

proof fn roles_differ()
    ensures
        "system"@ != "tool"@,
        "system"@ != "function"@,
        "system"@ != "assistant"@,
        "developer"@ != "tool"@,
        "developer"@ != "function"@,
        "developer"@ != "assistant"@,
        "tool"@ != "assistant"@,
        "function"@ != "assistant"@,
{
    reveal_strlit("system");
    reveal_strlit("developer");
    reveal_strlit("tool");
    reveal_strlit("function");
    reveal_strlit("assistant");
    assert("system"@.len() == 6 && "developer"@.len() == 9 && "tool"@.len() == 4 && "function"@.len() == 8
        && "assistant"@.len() == 9);
    assert("developer"@[0] == 'd' && "assistant"@[0] == 'a');
}

/// The part of the system prompt that a message is, where it is one.
pub open spec fn system_reader() -> spec_fn(Tree) -> Option<SystemV> {
    |m: Tree|
        if is_system(m) && openai::flat(m.at("content"@)) is Some {
            Some(SystemV { text: openai::flat(m.at("content"@))->0, cache_control: None })
        } else {
            None
        }
}

/// The tool result that a message is.
pub open spec fn result_of(m: Tree) -> BlockV {
    let words = openai::flat(m.at("content"@));
    BlockV::ToolResult {
        tool_use_id: m.at("tool_call_id"@).text_or(Seq::empty()),
        name: Seq::empty(),
        content: seq![
            PartV::Text {
                text: if words is Some {
                    words->0
                } else {
                    Seq::empty()
                },
            },
        ],
        is_error: false,
    }
}

/// The blocks that a message adds to the conversation.
pub open spec fn blocks_reader() -> spec_fn(Tree) -> Seq<BlockV> {
    |m: Tree|
        if is_system(m) {
            Seq::empty()
        } else if is_result(m) {
            seq![result_of(m)]
        } else if is_assistant(m) {
            openai::assistant_blocks(m)
        } else {
            openai::user_blocks(m.at("content"@))->Ok_0
        }
}

pub open spec fn content_of() -> spec_fn(MessageV) -> Seq<BlockV> {
    |m: MessageV| m.content
}

pub open spec fn answers() -> spec_fn(MessageV) -> Option<Seq<BlockV>> {
    |m: MessageV|
        if m.role == Role::Assistant {
            Some(m.content)
        } else {
            None
        }
}

pub open spec fn answer_reader() -> spec_fn(Tree) -> Option<Seq<BlockV>> {
    |m: Tree|
        if is_assistant(m) {
            Some(openai::assistant_blocks(m))
        } else {
            None
        }
}

pub open spec fn unreadable(m: Tree) -> bool {
    is_user(m) && openai::user_blocks(m.at("content"@)) is Err
}

/// What one message adds: a part of the system prompt; or a turn of its own, with what it
/// holds and whose it is; or, for a tool result right behind other results, one block of
/// their turn.
pub proof fn one_turn_more(c: Conversation, m: Tree)
    ensures
        openai::turn(c, m) is Err <==> unreadable(m),
        openai::turn(c, m) matches Ok(d) ==> {
            let behind = c.messages.len() > 0 && c.messages.last().role == Role::User && (forall|i: int|
                0 <= i < c.messages.last().content.len() ==> (#[trigger] c.messages.last().content[i]) is ToolResult);
            &&& d.system == match system_reader()(m) {
                Some(p) => c.system.push(p),
                None => c.system,
            }
            &&& is_system(m) ==> d.messages == c.messages
            &&& is_assistant(m) ==> d.messages == c.messages.push(
                MessageV { role: Role::Assistant, content: openai::assistant_blocks(m) },
            )
            &&& is_user(m) ==> openai::user_blocks(m.at("content"@)) is Ok && d.messages == c.messages.push(
                MessageV { role: Role::User, content: openai::user_blocks(m.at("content"@))->Ok_0 },
            )
            &&& is_result(m) && behind ==> d.messages == c.messages.update(
                c.messages.len() - 1,
                MessageV { role: Role::User, content: c.messages.last().content.push(result_of(m)) },
            )
            &&& is_result(m) && !behind ==> d.messages == c.messages.push(
                MessageV { role: Role::User, content: seq![result_of(m)] },
            )
        },
{
    roles_differ();
    let b = openai::result_block(m);
    assert(b->ToolResult_content =~= result_of(m)->ToolResult_content);
    assert(Seq::empty().push(b) =~= seq![result_of(m)]);
    let ms = c.messages;
    if ms.len() > 0 {
        let x = MessageV { role: Role::User, content: ms.last().content.push(b) };
        assert(ms.drop_last().push(x) =~= ms.update(ms.len() - 1, x));
    }
}

proof fn turn_adds(c: Conversation, m: Tree)
    ensures
        openai::turn(c, m) matches Ok(d) ==> {
            &&& d.system == match system_reader()(m) {
                Some(p) => c.system.push(p),
                None => c.system,
            }
            &&& d.messages.flat_map(content_of()) == c.messages.flat_map(content_of()) + blocks_reader()(m)
            &&& d.messages.filter_map(answers()) == match answer_reader()(m) {
                Some(a) => c.messages.filter_map(answers()).push(a),
                None => c.messages.filter_map(answers()),
            }
        },
{
    roles_differ();
    one_turn_more(c, m);
    let ms = c.messages;
    let none = Seq::<BlockV>::empty();
    assert(ms.flat_map(content_of()) + none =~= ms.flat_map(content_of()));
    if let Ok(d) = openai::turn(c, m) {
        if !is_system(m) {
            let last = d.messages.last();
            let most = d.messages.drop_last();
            assert(d.messages =~= most.push(last));
            most.lemma_flat_map_push(content_of(), last);
            let one = seq![last];
            laws::keeping_joins(most, one, answers());
            assert(most + one =~= d.messages);
            reveal_with_fuel(Seq::filter_map, 2);
            assert(one.drop_last() =~= Seq::empty());
            if d.messages.len() == ms.len() {
                let before = ms.last();
                assert(most =~= ms.drop_last());
                assert(ms =~= most.push(before));
                most.lemma_flat_map_push(content_of(), before);
                let was = seq![before];
                laws::keeping_joins(most, was, answers());
                assert(most + was =~= ms);
                assert(was.drop_last() =~= Seq::empty());
                assert(last.content =~= before.content + seq![result_of(m)]);
                assert(most.flat_map(content_of()) + last.content =~= ms.flat_map(content_of()) + seq![result_of(m)]);
            } else {
                assert(most =~= ms);
                assert(ms.filter_map(answers()) + one.filter_map(answers()) =~= d.messages.filter_map(answers()));
                if last.role == Role::Assistant {
                    assert(one.filter_map(answers()) =~= seq![last.content]);
                    assert(ms.filter_map(answers()) + seq![last.content] =~= ms.filter_map(answers()).push(
                        last.content,
                    ));
                } else {
                    assert(one.filter_map(answers()) =~= Seq::empty());
                }
            }
        }
    }
}

proof fn turns_add(c: Conversation, ms: Seq<Tree>, i: int)
    requires
        0 <= i <= ms.len(),
    ensures
        openai::turns(c, ms, i) is Err <==> exists|k: int| i <= k < ms.len() && #[trigger] unreadable(ms[k]),
        openai::turns(c, ms, i) matches Ok(d) ==> {
            &&& d.system == c.system + ms.skip(i).filter_map(system_reader())
            &&& d.messages.flat_map(content_of()) == c.messages.flat_map(content_of()) + ms.skip(i).flat_map(
                blocks_reader(),
            )
            &&& d.messages.filter_map(answers()) == c.messages.filter_map(answers()) + ms.skip(i).filter_map(
                answer_reader(),
            )
        },
    decreases ms.len() - i,
{
    let rest = ms.skip(i);
    if i < ms.len() {
        let one = seq![ms[i]];
        assert(rest =~= one + ms.skip(i + 1));
        laws::keeping_joins(one, ms.skip(i + 1), system_reader());
        laws::keeping_joins(one, ms.skip(i + 1), answer_reader());
        laws::unfolding_joins(one, ms.skip(i + 1), blocks_reader());
        laws::one_unfolds(ms[i], blocks_reader());
        assert(one =~= Seq::empty().push(ms[i]));
        reveal_with_fuel(Seq::filter_map, 2);
        assert(one.drop_last() =~= Seq::empty());
        one_turn_more(c, ms[i]);
        turn_adds(c, ms[i]);
        if let Ok(d) = openai::turn(c, ms[i]) {
            turns_add(d, ms, i + 1);
            if let Ok(z) = openai::turns(d, ms, i + 1) {
                assert(z.system =~= c.system + rest.filter_map(system_reader()));
                assert(z.messages.flat_map(content_of()) =~= c.messages.flat_map(content_of()) + rest.flat_map(
                    blocks_reader(),
                ));
                assert(z.messages.filter_map(answers()) =~= c.messages.filter_map(answers()) + rest.filter_map(
                    answer_reader(),
                ));
            }
        } else {
            assert(unreadable(ms[i]));
        }
    } else {
        assert(rest =~= Seq::empty());
        assert(rest.map_values(blocks_reader()) =~= Seq::empty());
        if let Ok(d) = openai::turns(c, ms, i) {
            assert(d.system =~= c.system + rest.filter_map(system_reader()));
            assert(d.messages.flat_map(content_of()) =~= c.messages.flat_map(content_of()) + rest.flat_map(
                blocks_reader(),
            ));
            assert(d.messages.filter_map(answers()) =~= c.messages.filter_map(answers()) + rest.filter_map(
                answer_reader(),
            ));
        }
    }
}

/// Nothing of a conversation is lost: the system prompt has the text of every system
/// message, in order; the blocks of all turns, one behind the other, are the blocks of
/// all messages; and the assistant's turns are its messages. Only a user message whose
/// content is neither text nor a list is refused.
pub proof fn conversations_are_read_whole(ms: Seq<Tree>)
    ensures
        openai::turns(openai::no_conversation(), ms, 0) is Err <==> exists|k: int|
            0 <= k < ms.len() && #[trigger] unreadable(ms[k]),
        openai::turns(openai::no_conversation(), ms, 0) matches Ok(d) ==> {
            &&& d.system == ms.filter_map(system_reader())
            &&& d.messages.flat_map(content_of()) == ms.flat_map(blocks_reader())
            &&& d.messages.filter_map(answers()) == ms.filter_map(answer_reader())
        },
{
    turns_add(openai::no_conversation(), ms, 0);
    assert(ms.skip(0) =~= ms);
    let none = Seq::<MessageV>::empty();
    assert(none.map_values(content_of()) =~= Seq::empty());
    if let Ok(d) = openai::turns(openai::no_conversation(), ms, 0) {
        assert(d.system =~= ms.filter_map(system_reader()));
        assert(d.messages.flat_map(content_of()) =~= ms.flat_map(blocks_reader()));
        assert(d.messages.filter_map(answers()) =~= ms.filter_map(answer_reader()));
    }
}

// -------------------------------------------------------------------- fields

pub open spec fn tool_reader() -> spec_fn(Tree) -> Option<ToolV> {
    |t: Tree| openai::tool(t)
}

/// A text of a list, where it is one.
pub open spec fn text_reader() -> spec_fn(Tree) -> Option<Seq<char>> {
    |t: Tree|
        match t {
            Tree::Str(s) => Some(s),
            _ => None,
        }
}

/// A tool is known by its name, with its own description and its own parameters, of any
/// object where it names none; its definition may stand under `function`.
pub proof fn tools_are_read(t: Tree)
    ensures
        ({
            let f = if t.at("function"@) is Some {
                t.at("function"@)->0
            } else {
                t
            };
            &&& openai::tool(t) is Some <==> f.at("name"@).text() is Some
            &&& openai::tool(t) matches Some(x) ==> {
                &&& Some(x.name) == f.at("name"@).text()
                &&& x.description == f.at("description"@).text()
                &&& f.at("parameters"@) is Some ==> x.input_schema == f.at("parameters"@)->0
                &&& f.at("parameters"@) is None ==> x.input_schema == Tree::Obj(seq![("type"@, Tree::Str("object"@))])
                &&& x.cache_control is None
            }
        }),
{
    assert(json::fs().with("type"@, json::st("object"@)) =~= seq![("type"@, Tree::Str("object"@))]);
}

pub(crate) proof fn tools_are_kept(ts: Seq<Tree>, i: int)
    requires
        0 <= i <= ts.len(),
    ensures
        openai::tools(ts, i, ts.take(i).filter_map(tool_reader())) == ts.filter_map(tool_reader()),
    decreases ts.len() - i,
{
    if i < ts.len() {
        laws::keeping_takes(ts, i, tool_reader());
        tools_are_kept(ts, i + 1);
    } else {
        assert(ts.take(i) =~= ts);
    }
}

pub(crate) proof fn texts_are_kept(ts: Seq<Tree>, i: int)
    requires
        0 <= i <= ts.len(),
    ensures
        openai::texts(ts, i, ts.take(i).filter_map(text_reader())) == ts.filter_map(text_reader()),
    decreases ts.len() - i,
{
    if i < ts.len() {
        laws::keeping_takes(ts, i, text_reader());
        texts_are_kept(ts, i + 1);
    } else {
        assert(ts.take(i) =~= ts);
    }
}

/// What a reasoning effort allows to think.
pub proof fn efforts_are_budgets(e: Seq<char>)
    ensures
        openai::effort(None) is None,
        openai::effort(Some(e)) matches Some(t) && (t.enabled <==> e != "none"@ && e != "minimal"@) && (t.enabled
            ==> t.budget_tokens == if e == "low"@ {
            Some(1024u32)
        } else if e == "high"@ {
            Some(16384u32)
        } else {
            Some(4096u32)
        }) && (!t.enabled ==> t.budget_tokens is None),
{
    reveal_strlit("none");
    reveal_strlit("minimal");
    reveal_strlit("low");
    reveal_strlit("high");
    assert("none"@.len() == 4 && "none"@[0] == 'n' && "minimal"@.len() == 7 && "low"@.len() == 3 && "high"@.len() == 4
        && "high"@[0] == 'h');
}

/// Whom a tool choice lets call: a word for all tools alike, or one tool by its name.
pub proof fn choices_are_read(w: Seq<char>, v: Option<Tree>)
    ensures
        openai::choice(Some(Tree::Str("auto"@))) == Some(ChoiceV::Auto),
        openai::choice(Some(Tree::Str("none"@))) == Some(ChoiceV::NoTool),
        openai::choice(Some(Tree::Str("required"@))) == Some(ChoiceV::Any),
        openai::choice(Some(Tree::Str("any"@))) == Some(ChoiceV::Any),
        w != "auto"@ && w != "none"@ && w != "required"@ && w != "any"@ ==> openai::choice(Some(Tree::Str(w))) is None,
        v.text() is None ==> openai::choice(v) == match v.at("function"@).at("name"@).text() {
            Some(name) => Some(ChoiceV::Specific { name }),
            None => None,
        },
{
    reveal_strlit("auto");
    reveal_strlit("none");
    reveal_strlit("required");
    reveal_strlit("any");
    assert("auto"@.len() == 4 && "auto"@[0] == 'a' && "none"@.len() == 4 && "none"@[0] == 'n' && "required"@.len() == 8
        && "any"@.len() == 3);
}

/// The names of the fields that have a place of their own in a request, or none at all.
pub open spec fn placed() -> Seq<Seq<char>> {
    seq![
        "model"@,
        "messages"@,
        "max_tokens"@,
        "max_completion_tokens"@,
        "temperature"@,
        "top_p"@,
        "stop"@,
        "stream"@,
        "stream_options"@,
        "tools"@,
        "tool_choice"@,
        "functions"@,
        "function_call"@,
        "reasoning_effort"@,
        "user"@,
        "n"@,
    ]
}

proof fn placed_is_known(k: Seq<char>)
    ensures
        openai::known_key(k) == placed().contains(k),
{
    let p = placed();
    assert(p[0] == "model"@ && p[1] == "messages"@ && p[2] == "max_tokens"@ && p[3] == "max_completion_tokens"@ && p[4]
        == "temperature"@ && p[5] == "top_p"@ && p[6] == "stop"@ && p[7] == "stream"@ && p[8] == "stream_options"@
        && p[9] == "tools"@ && p[10] == "tool_choice"@ && p[11] == "functions"@ && p[12] == "function_call"@ && p[13]
        == "reasoning_effort"@ && p[14] == "user"@ && p[15] == "n"@);
    if p.contains(k) {
        let i = choose|i: int| 0 <= i < p.len() && p[i] == k;
    }
}

proof fn the_rest_is_kept(m: Seq<(Seq<char>, Tree)>, i: int, acc: Seq<(Seq<char>, Tree)>, k: Seq<char>)
    requires
        0 <= i <= m.len(),
        json::named_once(m),
        forall|j: int| i <= j < m.len() ==> json::field(acc, (#[trigger] m[j]).0) is None,
    ensures
        json::field(openai::unknown_fields(m, i, acc), k) == if exists|j: int|
            i <= j < m.len() && (#[trigger] m[j]).0 == k && !placed().contains(k) {
            json::field(m, k)
        } else {
            json::field(acc, k)
        },
    decreases m.len() - i,
{
    if i < m.len() {
        let (key, v) = m[i];
        placed_is_known(key);
        json::find_from_bounds(m, key, 0);
        let f = json::find_from(m, key, 0);
        assert(m[f].0 == m[i].0);
        if openai::known_key(key) {
            the_rest_is_kept(m, i + 1, acc, k);
        } else {
            let next = acc.set(key, v);
            json::set_is_found(acc, key, v, k);
            assert forall|j: int| i + 1 <= j < m.len() implies json::field(next, (#[trigger] m[j]).0) is None by {
                json::set_is_found(acc, key, v, m[j].0);
            }
            the_rest_is_kept(m, i + 1, next, k);
        }
    }
}

/// A request without a model or without messages is refused, and so is what is no object.
/// Of any other every field is read to its place, and every field that has none is left
/// as it is.
pub proof fn openai_fields_are_read(body: Tree, k: Seq<char>)
    ensures
        body.at("model"@).text() is None || body.at("messages"@).list() is None ==> openai::request_of(body) is Err,
        body is Obj && body.at("model"@).text() is Some && body.at("messages"@).list() is Some ==> (openai::request_of(
            body,
        ) is Ok <==> openai::turns(openai::no_conversation(), body.at("messages"@).list()->0, 0) is Ok),
        openai::request_of(body) matches Ok(r) ==> {
            &&& Some(r.model) == body.at("model"@).text()
            &&& r.source_dialect == Dialect::OpenAI
            &&& openai::turns(openai::no_conversation(), body.at("messages"@).list()->0, 0) == Ok::<
                Conversation,
                ErrorV,
            >(Conversation { system: r.system, messages: r.messages })
            &&& r.max_tokens == if body.at("max_completion_tokens"@) is Some {
                body.at("max_completion_tokens"@).limit()
            } else {
                body.at("max_tokens"@).limit()
            }
            &&& r.temperature == body.at("temperature"@).float()
            &&& r.top_p == body.at("top_p"@).float()
            &&& r.top_k is None
            &&& r.stream <==> body.at("stream"@).flag() == Some(true)
            &&& body.at("stop"@).text() is Some ==> r.stop_sequences == seq![body.at("stop"@).text()->0]
            &&& body.at("stop"@).list() is Some ==> r.stop_sequences == body.at("stop"@).list()->0.filter_map(
                text_reader(),
            )
            &&& body.at("stop"@).text() is None && body.at("stop"@).list() is None ==> r.stop_sequences.len() == 0
            &&& body.at("tools"@).list() is Some ==> r.tools == body.at("tools"@).list()->0.filter_map(tool_reader())
            &&& body.at("tools"@).list() is None ==> r.tools.len() == 0
            &&& r.tool_choice == openai::choice(body.at("tool_choice"@))
            &&& r.thinking == openai::effort(body.at("reasoning_effort"@).text())
            &&& r.metadata_user == body.at("user"@).text()
            &&& json::named_once(body->Obj_0) ==> json::field(r.passthrough, k) == if placed().contains(k) {
                None
            } else {
                body.at(k)
            }
        },
{
    if let Ok(r) = openai::request_of(body) {
        let m = body->Obj_0;
        if let Some(ts) = body.at("tools"@).list() {
            assert(ts.take(0) =~= Seq::<Tree>::empty());
            tools_are_kept(ts, 0);
        }
        if let Some(ts) = body.at("stop"@).list() {
            assert(ts.take(0) =~= Seq::<Tree>::empty());
            texts_are_kept(ts, 0);
        }
        if let Some(t) = body.at("stop"@).text() {
            assert(Seq::empty().push(t) =~= seq![t]);
        }
        if json::named_once(m) {
            the_rest_is_kept(m, 0, json::fs(), k);
            json::find_from_bounds(m, k, 0);
            let f = json::find_from(m, k, 0);
            if f < m.len() {
                assert(m[f].0 == k);
            }
        }
    }
}

} // verus!
