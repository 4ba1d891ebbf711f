//! What is written of a stream for clients of OpenAI's two dialects, event by event.

use vstd::prelude::*;

use crate::ir::{EventV, StopReason, Usage};
use crate::json;
use crate::json::{Build, Tree};
use crate::laws::responses_out;
use crate::protocol::openai;
use crate::protocol::responses;
use crate::protocol::responses::{OutputItemKind, ToolStateV};
use crate::protocol::sse::FrameV;
use crate::text;

verus! {

// -------------------------------------------------------------------- openai

/// A chunk of an answer: who answers, one choice with what is new, and why it stopped
/// where it did.
pub open spec fn chunk(e: openai::EncoderV, delta: Seq<(Seq<char>, Tree)>, finish: Option<Seq<char>>) -> FrameV {
    FrameV {
        event: None,
        data: json::rendered(
            Tree::Obj(
                seq![
                    ("id"@, Tree::Str(e.id)),
                    ("object"@, Tree::Str("chat.completion.chunk"@)),
                    ("created"@, json::integer(e.created)),
                    ("model"@, Tree::Str(e.model)),
                    (
                        "choices"@,
                        Tree::Arr(
                            seq![
                                Tree::Obj(
                                    seq![
                                        ("index"@, json::num(0)),
                                        ("delta"@, Tree::Obj(delta)),
                                        ("logprobs"@, Tree::Null),
                                        (
                                            "finish_reason"@,
                                            if finish is Some { Tree::Str(finish->0) } else { Tree::Null },
                                        ),
                                    ],
                                ),
                            ],
                        ),
                    ),
                ],
            ),
        ),
    }
}

pub(crate) proof fn chunks_are_told(e: openai::EncoderV, delta: Seq<(Seq<char>, Tree)>, finish: Option<Seq<char>>)
    ensures
        e.chunk(Tree::Obj(delta), finish) == chunk(e, delta, finish),
{
    reveal_strlit("index");
    reveal_strlit("delta");
    reveal_strlit("logprobs");
    reveal_strlit("finish_reason");
    assert("index"@.len() == 5 && "delta"@.len() == 5 && "index"@[0] == 'i' && "delta"@[0] == 'd' && "logprobs"@.len()
        == 8 && "finish_reason"@.len() == 13);
    reveal(json::put);
    reveal_with_fuel(json::find_from, 5);
    let why = match finish {
        Some(r) => json::st(r),
        None => Tree::Null,
    };
    let choice = json::fs().set("index"@, json::num(0)).set("delta"@, Tree::Obj(delta)).set(
        "logprobs"@,
        Tree::Null,
    ).set("finish_reason"@, why);
    let want = seq![
        ("index"@, json::num(0)),
        ("delta"@, Tree::Obj(delta)),
        ("logprobs"@, Tree::Null),
        ("finish_reason"@, if finish is Some { Tree::Str(finish->0) } else { Tree::Null }),
    ];
    assert(choice =~= want);
    assert(Seq::empty().push(Tree::Obj(want)) =~= seq![Tree::Obj(want)]);
    let doc = json::fs().with("id"@, json::st(e.id)).with("object"@, json::st("chat.completion.chunk"@)).with(
        "created"@,
        json::integer(e.created),
    ).with("model"@, json::st(e.model)).with("choices"@, Tree::Arr(seq![Tree::Obj(want)]));
    assert(doc =~= seq![
        ("id"@, Tree::Str(e.id)),
        ("object"@, Tree::Str("chat.completion.chunk"@)),
        ("created"@, json::integer(e.created)),
        ("model"@, Tree::Str(e.model)),
        ("choices"@, Tree::Arr(seq![Tree::Obj(want)])),
    ]);
}

/// One entry of a call in a chunk.
pub open spec fn calls(entry: Seq<(Seq<char>, Tree)>) -> Seq<(Seq<char>, Tree)> {
    seq![("tool_calls"@, Tree::Arr(seq![Tree::Obj(entry)]))]
}

proof fn calls_are_told(entry: Seq<(Seq<char>, Tree)>)
    ensures
        openai::delta1("tool_calls"@, Tree::Arr(Seq::empty().push(Tree::Obj(entry)))) == Tree::Obj(calls(entry)),
{
    assert(Seq::empty().push(Tree::Obj(entry)) =~= seq![Tree::Obj(entry)]);
    let list = Tree::Arr(seq![Tree::Obj(entry)]);
    assert(openai::delta1("tool_calls"@, list)->Obj_0 =~= calls(entry));
}

/// The first chunk of an answer says who speaks, once.
pub proof fn roles_are_told_once(w: openai::Written)
    ensures
        w.e.role_sent ==> w.ensure_role() == w,
        !w.e.role_sent ==> w.ensure_role() == (openai::Written {
            e: openai::EncoderV { role_sent: true, ..w.e },
            out: w.out.push(
                chunk(w.e, seq![("role"@, Tree::Str("assistant"@)), ("content"@, Tree::Str(Seq::empty()))], None),
            ),
        }),
{
    let d = seq![("role"@, Tree::Str("assistant"@)), ("content"@, Tree::Str(Seq::empty()))];
    assert(json::fs().with("role"@, json::st("assistant"@)).with("content"@, json::st(Seq::empty())) =~= d);
    chunks_are_told(openai::EncoderV { role_sent: true, ..w.e }, d, None);
    assert(chunk(openai::EncoderV { role_sent: true, ..w.e }, d, None) == chunk(w.e, d, None));
}

/// In an answer that was begun each piece is one chunk with all that it brings: words,
/// thoughts, a call that begins by its id and name, arguments under the same slot.
pub proof fn openai_pieces_are_told(
    e: openai::EncoderV,
    index: u32,
    id: Seq<char>,
    name: Seq<char>,
    text: Seq<char>,
)
    requires
        e.role_sent,
    ensures
        openai::encoded_event(e, EventV::TextDelta { index, text }) == (openai::Written {
            e,
            out: seq![chunk(e, seq![("content"@, Tree::Str(text))], None)],
        }),
        openai::encoded_event(e, EventV::ThinkingDelta { index, text }) == (openai::Written {
            e,
            out: seq![chunk(e, seq![("reasoning_content"@, Tree::Str(text))], None)],
        }),
        openai::encoded_event(e, EventV::ToolUseStart { index, id, name }).out == seq![
            chunk(
                e,
                calls(
                    seq![
                        ("index"@, json::num(e.slot(index) as int)),
                        ("id"@, Tree::Str(id)),
                        ("type"@, Tree::Str("function"@)),
                        (
                            "function"@,
                            Tree::Obj(seq![("name"@, Tree::Str(name)), ("arguments"@, Tree::Str(Seq::empty()))]),
                        ),
                    ],
                ),
                None,
            ),
        ],
        openai::encoded_event(e, EventV::ToolUseDelta { index, partial_json: text }).out == seq![
            chunk(
                e,
                calls(
                    seq![
                        ("index"@, json::num(e.slot(index) as int)),
                        ("function"@, Tree::Obj(seq![("arguments"@, Tree::Str(text))])),
                    ],
                ),
                None,
            ),
        ],
        openai::encoded_event(e, EventV::ToolUseStart { index, id, name }).e == e.with_slot(index),
        openai::encoded_event(e, EventV::ToolUseDelta { index, partial_json: text }).e == e.with_slot(index),
{
    let none = Seq::<FrameV>::empty();
    let a = seq![("content"@, Tree::Str(text))];
    assert(openai::delta1("content"@, json::st(text))->Obj_0 =~= a);
    chunks_are_told(e, a, None);
    assert(none.push(chunk(e, a, None)) =~= seq![chunk(e, a, None)]);
    let b = seq![("reasoning_content"@, Tree::Str(text))];
    assert(openai::delta1("reasoning_content"@, json::st(text))->Obj_0 =~= b);
    chunks_are_told(e, b, None);
    assert(none.push(chunk(e, b, None)) =~= seq![chunk(e, b, None)]);
    let f = seq![("name"@, Tree::Str(name)), ("arguments"@, Tree::Str(Seq::empty()))];
    assert(json::fs().with("name"@, json::st(name)).with("arguments"@, json::st(Seq::empty())) =~= f);
    let c = seq![
        ("index"@, json::num(e.slot(index) as int)),
        ("id"@, Tree::Str(id)),
        ("type"@, Tree::Str("function"@)),
        ("function"@, Tree::Obj(f)),
    ];
    assert(json::fs().with("index"@, json::num(e.slot(index) as int)).with("id"@, json::st(id)).with(
        "type"@,
        json::st("function"@),
    ).with("function"@, Tree::Obj(f)) =~= c);
    calls_are_told(c);
    let next = e.with_slot(index);
    chunks_are_told(next, calls(c), None);
    assert(chunk(next, calls(c), None) == chunk(e, calls(c), None));
    assert(none.push(chunk(e, calls(c), None)) =~= seq![chunk(e, calls(c), None)]);
    let g = seq![("arguments"@, Tree::Str(text))];
    assert(openai::delta1("arguments"@, json::st(text))->Obj_0 =~= g);
    let d = seq![("index"@, json::num(e.slot(index) as int)), ("function"@, Tree::Obj(g))];
    assert(json::fs().with("index"@, json::num(e.slot(index) as int)).with("function"@, Tree::Obj(g)) =~= d);
    calls_are_told(d);
    chunks_are_told(next, calls(d), None);
    assert(chunk(next, calls(d), None) == chunk(e, calls(d), None));
    assert(none.push(chunk(e, calls(d), None)) =~= seq![chunk(e, calls(d), None)]);
}

/// The end of an answer: a chunk that says why it stopped, the usage where the client
/// asked for it, and the mark of the end.
pub proof fn openai_ends_are_told(e: openai::EncoderV, reason: StopReason, sequence: Option<Seq<char>>, usage: Usage)
    requires
        e.role_sent,
    ensures
        ({
            let w = openai::encoded_event(
                e,
                EventV::Stop { stop_reason: reason, stop_sequence: sequence, usage },
            );
            let why = chunk(e, Seq::empty(), Some(openai::finish_or_stop(reason)));
            let spent = FrameV {
                event: None,
                data: json::rendered(
                    Tree::Obj(
                        seq![
                            ("id"@, Tree::Str(e.id)),
                            ("object"@, Tree::Str("chat.completion.chunk"@)),
                            ("created"@, json::integer(e.created)),
                            ("model"@, Tree::Str(e.model)),
                            ("choices"@, Tree::Arr(Seq::empty())),
                            ("usage"@, openai::usage_out(usage)),
                        ],
                    ),
                ),
            };
            let mark = FrameV { event: None, data: "[DONE]"@ };
            &&& w.out == if e.include_usage { seq![why, spent, mark] } else { seq![why, mark] }
            &&& w.e == (openai::EncoderV { usage, done: true, ..e })
        }),
{
    let w = openai::encoded_event(e, EventV::Stop { stop_reason: reason, stop_sequence: sequence, usage });
    let now = openai::EncoderV { usage, ..e };
    let finish = Some(openai::finish_or_stop(reason));
    assert(openai::no_delta() == Tree::Obj(Seq::empty()));
    chunks_are_told(now, Seq::empty(), finish);
    let why = chunk(e, Seq::empty(), finish);
    assert(chunk(now, Seq::empty(), finish) == why);
    let doc = json::fs().with("id"@, json::st(e.id)).with("object"@, json::st("chat.completion.chunk"@)).with(
        "created"@,
        json::integer(e.created),
    ).with("model"@, json::st(e.model)).with("choices"@, Tree::Arr(Seq::empty())).with(
        "usage"@,
        openai::usage_out(usage),
    );
    let want = seq![
        ("id"@, Tree::Str(e.id)),
        ("object"@, Tree::Str("chat.completion.chunk"@)),
        ("created"@, json::integer(e.created)),
        ("model"@, Tree::Str(e.model)),
        ("choices"@, Tree::Arr(Seq::empty())),
        ("usage"@, openai::usage_out(usage)),
    ];
    assert(doc =~= want);
    let spent = FrameV { event: None, data: json::rendered(Tree::Obj(want)) };
    let mark = FrameV { event: None, data: "[DONE]"@ };
    if e.include_usage {
        assert(w.out =~= seq![why, spent, mark]);
    } else {
        assert(w.out =~= seq![why, mark]);
    }
}

proof fn the_slot_stays(slots: Seq<(u32, u64)>, x: (u32, u64), index: u32, i: int)
    requires
        0 <= i <= slots.len(),
    ensures
        openai::block_slot(slots.push(x), index, i) == match openai::block_slot(slots, index, i) {
            Some(s) => Some(s),
            None => if x.0 == index { Some(x.1) } else { None },
        },
    decreases slots.len() - i,
{
    let more = slots.push(x);
    if i < slots.len() {
        assert(more[i] == slots[i]);
        if slots[i].0 != index {
            the_slot_stays(slots, x, index, i + 1);
        }
    } else {
        assert(more[i] == x);
        assert(openai::block_slot(more, index, i + 1) is None);
    }
}

/// A block keeps the slot it was first given, and the slots of others stay as they are;
/// a new block has the next one.
pub proof fn slots_are_kept(e: openai::EncoderV, index: u32, other: u32)
    requires
        e.tool_slots.len() < u64::MAX,
        other != index,
    ensures
        e.with_slot(index).slot(index) == e.slot(index),
        openai::block_slot(e.tool_slots, other, 0) is Some ==> e.with_slot(index).slot(other) == e.slot(other),
        openai::block_slot(e.tool_slots, index, 0) is None ==> e.slot(index) == e.tool_slots.len(),
        openai::block_slot(e.with_slot(index).tool_slots, index, 0) is Some,
{
    let x = (index, e.tool_slots.len() as u64);
    the_slot_stays(e.tool_slots, x, index, 0);
    the_slot_stays(e.tool_slots, x, other, 0);
}

// ----------------------------------------------------------------- responses

/// An event of a stream under its name.
pub open spec fn event(kind: Seq<char>, rest: Seq<(Seq<char>, Tree)>) -> FrameV {
    FrameV { event: Some(kind), data: json::rendered(Tree::Obj(seq![("type"@, Tree::Str(kind))] + rest)) }
}

/// A piece of words or of thoughts, under the item and the part that are open.
pub open spec fn piece(e: responses::EncoderV, kind: OutputItemKind, t: Seq<char>) -> FrameV {
    event(
        match kind {
            OutputItemKind::Text => "response.output_text.delta"@,
            OutputItemKind::Thinking => "response.reasoning_summary_text.delta"@,
        },
        seq![
            ("item_id"@, Tree::Str(e.current_item_id)),
            ("output_index"@, json::num(e.current_output_index as int)),
            ("content_index"@, json::num(e.content_index as int)),
            ("delta"@, Tree::Str(t)),
        ],
    )
}

/// Words and thoughts that go on are one event each, whole, under the item that is open
/// for them, which holds from then on what it held and them.
pub proof fn responses_pieces_are_told(e: responses::EncoderV, index: u32, t: Seq<char>)
    requires
        e.content_part_open,
    ensures
        e.current_kind == Some(OutputItemKind::Text) ==> responses::encoded_event(
            e,
            EventV::TextDelta { index, text: t },
        ) == (responses::Written {
            e: responses::EncoderV { current_text: e.current_text + t, ..e },
            out: seq![piece(e, OutputItemKind::Text, t)],
        }),
        e.current_kind == Some(OutputItemKind::Thinking) ==> responses::encoded_event(
            e,
            EventV::ThinkingDelta { index, text: t },
        ) == (responses::Written {
            e: responses::EncoderV { current_thinking: e.current_thinking + t, ..e },
            out: seq![piece(e, OutputItemKind::Thinking, t)],
        }),
{
    let a = "response.output_text.delta"@;
    let b = "response.reasoning_summary_text.delta"@;
    let rest = seq![
        ("item_id"@, Tree::Str(e.current_item_id)),
        ("output_index"@, json::num(e.current_output_index as int)),
        ("content_index"@, json::num(e.content_index as int)),
        ("delta"@, Tree::Str(t)),
    ];
    assert(e.part_head(a).with("delta"@, json::st(t)) =~= seq![("type"@, Tree::Str(a))] + rest);
    assert(e.part_head(b).with("delta"@, json::st(t)) =~= seq![("type"@, Tree::Str(b))] + rest);
    let none = Seq::<FrameV>::empty();
    assert(none.push(piece(e, OutputItemKind::Text, t)) =~= seq![piece(e, OutputItemKind::Text, t)]);
    assert(none.push(piece(e, OutputItemKind::Thinking, t)) =~= seq![piece(e, OutputItemKind::Thinking, t)]);
}

proof fn the_first_call(s: Seq<(u32, ToolStateV)>, index: u32, i: int)
    requires
        0 <= i <= s.len(),
        forall|j: int| 0 <= j < i ==> (#[trigger] s[j]).0 != index,
    ensures
        ({
            let at = responses::tool_at(s, index, i);
            &&& i <= at <= s.len()
            &&& at < s.len() ==> s[at].0 == index
            &&& forall|j: int| 0 <= j < at ==> (#[trigger] s[j]).0 != index
        }),
    decreases s.len() - i,
{
    if i < s.len() && s[i].0 != index {
        the_first_call(s, index, i + 1);
    }
}

/// The first call that is open under that index, in the `k`th place.
pub open spec fn is_call(e: responses::EncoderV, index: u32, k: int) -> bool {
    &&& 0 <= k < e.tool_states.len()
    &&& e.tool_states[k].0 == index
    &&& forall|j: int| 0 <= j < k ==> (#[trigger] e.tool_states[j]).0 != index
}

/// Arguments go on, whole, under the item of their call, which holds from then on what
/// it held and them.
pub proof fn responses_arguments_are_told(e: responses::EncoderV, index: u32, k: int, t: Seq<char>)
    requires
        is_call(e, index, k),
    ensures
        ({
            let call = e.tool_states[k].1;
            let w = responses::encoded_event(e, EventV::ToolUseDelta { index, partial_json: t });
            &&& w.out == seq![
                event(
                    "response.function_call_arguments.delta"@,
                    seq![
                        ("item_id"@, Tree::Str(call.item_id)),
                        ("output_index"@, json::num(call.output_index as int)),
                        ("content_index"@, json::num(0)),
                        ("delta"@, Tree::Str(t)),
                    ],
                ),
            ]
            &&& w.e == (responses::EncoderV {
                tool_states: e.tool_states.update(
                    k,
                    (index, ToolStateV { arguments: call.arguments + t, ..call }),
                ),
                ..e
            })
        }),
{
    the_first_call(e.tool_states, index, 0);
    let at = responses::tool_at(e.tool_states, index, 0);
    assert(at == k) by {
        if at < k {
            assert(e.tool_states[at].0 != index);
        }
        if k < at {
            assert(e.tool_states[k].0 != index);
        }
    }
    let call = e.tool_states[k].1;
    let kind = "response.function_call_arguments.delta"@;
    let rest = seq![
        ("item_id"@, Tree::Str(call.item_id)),
        ("output_index"@, json::num(call.output_index as int)),
        ("content_index"@, json::num(0)),
        ("delta"@, Tree::Str(t)),
    ];
    assert(responses::typed(kind).with("item_id"@, json::st(call.item_id)).with(
        "output_index"@,
        json::num(call.output_index as int),
    ).with("content_index"@, json::num(0)).with("delta"@, json::st(t)) =~= seq![("type"@, Tree::Str(kind))] + rest);
    assert(Seq::<FrameV>::empty().push(event(kind, rest)) =~= seq![event(kind, rest)]);
}

/// The item of a call: its ids, its name and all its arguments.
pub open spec fn call_told(call: ToolStateV, status: Seq<char>) -> Tree {
    Tree::Obj(
        seq![
            ("type"@, Tree::Str("function_call"@)),
            ("id"@, Tree::Str(call.item_id)),
            ("call_id"@, Tree::Str(call.call_id)),
            ("name"@, Tree::Str(call.name)),
            ("arguments"@, Tree::Str(if call.arguments.len() > 0 { call.arguments } else { "{}"@ })),
            ("status"@, Tree::Str(status)),
        ],
    )
}

/// A call that ends is told with all the arguments that came, and then as an item; it is
/// among the items of the answer from then on, and no longer open.
pub proof fn responses_calls_are_ended(e: responses::EncoderV, index: u32, k: int)
    requires
        is_call(e, index, k),
    ensures
        ({
            let call = e.tool_states[k].1;
            let w = responses::encoded_event(e, EventV::BlockStop { index });
            &&& w.out == seq![
                event(
                    "response.function_call_arguments.done"@,
                    seq![
                        ("item_id"@, Tree::Str(call.item_id)),
                        ("output_index"@, json::num(call.output_index as int)),
                        ("content_index"@, json::num(0)),
                        ("arguments"@, Tree::Str(call.arguments)),
                    ],
                ),
                event(
                    "response.output_item.done"@,
                    seq![
                        ("output_index"@, json::num(call.output_index as int)),
                        ("item"@, call_told(call, "completed"@)),
                    ],
                ),
            ]
            &&& w.e.tool_states == e.tool_states.remove(k)
            &&& w.e.output_items == responses::with_item(
                e.output_items,
                call.output_index,
                call_told(call, "completed"@),
            )
        }),
{
    the_first_call(e.tool_states, index, 0);
    let at = responses::tool_at(e.tool_states, index, 0);
    assert(at == k) by {
        if at < k {
            assert(e.tool_states[at].0 != index);
        }
        if k < at {
            assert(e.tool_states[k].0 != index);
        }
    }
    let call = e.tool_states[k].1;
    assert(responses::call_item(call, "completed"@)->Obj_0 =~= call_told(call, "completed"@)->Obj_0);
    let a = "response.function_call_arguments.done"@;
    let ra = seq![
        ("item_id"@, Tree::Str(call.item_id)),
        ("output_index"@, json::num(call.output_index as int)),
        ("content_index"@, json::num(0)),
        ("arguments"@, Tree::Str(call.arguments)),
    ];
    assert(responses::typed(a).with("item_id"@, json::st(call.item_id)).with(
        "output_index"@,
        json::num(call.output_index as int),
    ).with("content_index"@, json::num(0)).with("arguments"@, json::st(call.arguments)) =~= seq![
        ("type"@, Tree::Str(a)),
    ] + ra);
    let b = "response.output_item.done"@;
    let rb = seq![("output_index"@, json::num(call.output_index as int)), ("item"@, call_told(call, "completed"@))];
    assert(responses::typed(b).with("output_index"@, json::num(call.output_index as int)).with(
        "item"@,
        call_told(call, "completed"@),
    ) =~= seq![("type"@, Tree::Str(b))] + rb);
    let w = responses::encoded_event(e, EventV::BlockStop { index });
    assert(w.out =~= seq![event(a, ra), event(b, rb)]);
}

/// A call that begins has the next place among the items, is told as one in progress,
/// and is open under its index.
pub proof fn responses_calls_are_begun(e: responses::EncoderV, index: u32, id: Seq<char>, name: Seq<char>)
    requires
        e.next_output_index < u32::MAX,
    ensures
        ({
            let w = responses::encoded_event(e, EventV::ToolUseStart { index, id, name });
            let call = ToolStateV {
                output_index: e.next_output_index,
                item_id: "fc_"@ + id,
                call_id: id,
                name,
                arguments: Seq::empty(),
            };
            &&& w.out == seq![
                event(
                    "response.output_item.added"@,
                    seq![
                        ("output_index"@, json::num(e.next_output_index as int)),
                        (
                            "item"@,
                            Tree::Obj(
                                seq![
                                    ("id"@, Tree::Str("fc_"@ + id)),
                                    ("type"@, Tree::Str("function_call"@)),
                                    ("call_id"@, Tree::Str(id)),
                                    ("name"@, Tree::Str(name)),
                                    ("arguments"@, Tree::Str(Seq::empty())),
                                    ("status"@, Tree::Str("in_progress"@)),
                                ],
                            ),
                        ),
                    ],
                ),
            ]
            &&& w.e.next_output_index == e.next_output_index + 1
            &&& (forall|j: int| 0 <= j < e.tool_states.len() ==> (#[trigger] e.tool_states[j]).0 != index)
                ==> w.e.tool_states == e.tool_states.push((index, call))
        }),
{
    the_first_call(e.tool_states, index, 0);
    let at = responses::tool_at(e.tool_states, index, 0);
    let item = seq![
        ("id"@, Tree::Str("fc_"@ + id)),
        ("type"@, Tree::Str("function_call"@)),
        ("call_id"@, Tree::Str(id)),
        ("name"@, Tree::Str(name)),
        ("arguments"@, Tree::Str(Seq::empty())),
        ("status"@, Tree::Str("in_progress"@)),
    ];
    assert(json::fs().with("id"@, json::st("fc_"@ + id)).with("type"@, json::st("function_call"@)).with(
        "call_id"@,
        json::st(id),
    ).with("name"@, json::st(name)).with("arguments"@, json::st(Seq::empty())).with(
        "status"@,
        json::st("in_progress"@),
    ) =~= item);
    let a = "response.output_item.added"@;
    let rest = seq![("output_index"@, json::num(e.next_output_index as int)), ("item"@, Tree::Obj(item))];
    assert(responses::typed(a).with("output_index"@, json::num(e.next_output_index as int)).with(
        "item"@,
        Tree::Obj(item),
    ) =~= seq![("type"@, Tree::Str(a))] + rest);
    assert(Seq::<FrameV>::empty().push(event(a, rest)) =~= seq![event(a, rest)]);
}

/// The last event tells the whole answer: who gave it, every item of it in order, how it
/// ended, and what it cost.
pub proof fn responses_ends_are_told(e: responses::EncoderV, status: Seq<char>, usage: Option<Usage>)
    ensures
        e.completed(status, usage) == event(
            "response.completed"@,
            seq![
                (
                    "response"@,
                    Tree::Obj(
                        seq![
                            ("id"@, Tree::Str(e.id)),
                            ("object"@, Tree::Str("response"@)),
                            ("created_at"@, json::integer(e.created_at)),
                            ("status"@, Tree::Str(status)),
                            ("model"@, Tree::Str(e.model)),
                            ("output"@, Tree::Arr(e.output_items.map_values(|x: (u32, Tree)| x.1))),
                        ] + (match usage {
                            Some(u) => seq![("usage"@, responses::usage_out(u))],
                            None => Seq::empty(),
                        }),
                    ),
                ),
            ],
        ),
{
    let items = e.output_items.map_values(|x: (u32, Tree)| x.1);
    assert(e.output()->Arr_0 =~= items);
    let want = seq![
        ("id"@, Tree::Str(e.id)),
        ("object"@, Tree::Str("response"@)),
        ("created_at"@, json::integer(e.created_at)),
        ("status"@, Tree::Str(status)),
        ("model"@, Tree::Str(e.model)),
        ("output"@, Tree::Arr(items)),
    ] + (match usage {
        Some(u) => seq![("usage"@, responses::usage_out(u))],
        None => Seq::empty(),
    });
    let m = json::fs().with("id"@, json::st(e.id)).with("object"@, json::st("response"@)).with(
        "created_at"@,
        json::integer(e.created_at),
    ).with("status"@, json::st(status)).with("model"@, json::st(e.model)).with("output"@, e.output());
    let m = match usage {
        Some(u) => m.with("usage"@, responses::usage_out(u)),
        None => m,
    };
    assert(m =~= want);
    let kind = "response.completed"@;
    assert(responses::typed(kind).with("response"@, Tree::Obj(want)) =~= seq![("type"@, Tree::Str(kind))] + seq![
        ("response"@, Tree::Obj(want)),
    ]);
}

/// What is kept of words or thoughts when their item is done: all of them, under the
/// item's place.
pub proof fn responses_items_are_whole(e: responses::EncoderV)
    ensures
        e.current_kind == Some(OutputItemKind::Text) && e.current_text.len() > 0 ==> e.finished_item() == Some(
            Tree::Obj(
                seq![
                    ("id"@, Tree::Str(e.current_item_id)),
                    ("type"@, Tree::Str("message"@)),
                    ("role"@, Tree::Str("assistant"@)),
                    ("status"@, Tree::Str("completed"@)),
                    ("content"@, responses_out::words_told(e.current_text)),
                ],
            ),
        ),
        e.current_kind == Some(OutputItemKind::Thinking) && e.current_thinking.len() > 0 ==> e.finished_item() == Some(
            Tree::Obj(
                seq![
                    ("id"@, Tree::Str(e.current_item_id)),
                    ("type"@, Tree::Str("reasoning"@)),
                    (
                        "summary"@,
                        Tree::Arr(
                            seq![
                                Tree::Obj(
                                    seq![
                                        ("type"@, Tree::Str("summary_text"@)),
                                        ("text"@, Tree::Str(e.current_thinking)),
                                    ],
                                ),
                            ],
                        ),
                    ),
                ],
            ),
        ),
        e.current_kind is None ==> e.finished_item() is None,
        e.finished_item() matches Some(item) ==> e.finalized().output_items == responses::with_item(
            e.output_items,
            e.current_output_index,
            item,
        ),
        e.finished_item() is None ==> e.finalized() == e,
{
    responses_out::words_are_told(e.current_text);
    if let Some(item) = e.finished_item() {
        match e.current_kind {
            Some(OutputItemKind::Text) => {
                assert(item->Obj_0 =~= seq![
                    ("id"@, Tree::Str(e.current_item_id)),
                    ("type"@, Tree::Str("message"@)),
                    ("role"@, Tree::Str("assistant"@)),
                    ("status"@, Tree::Str("completed"@)),
                    ("content"@, responses_out::words_told(e.current_text)),
                ]);
            },
            Some(OutputItemKind::Thinking) => {
                let s = seq![("type"@, Tree::Str("summary_text"@)), ("text"@, Tree::Str(e.current_thinking))];
                assert(json::fs().with("type"@, json::st("summary_text"@)).with(
                    "text"@,
                    json::st(e.current_thinking),
                ) =~= s);
                assert(Seq::empty().push(Tree::Obj(s)) =~= seq![Tree::Obj(s)]);
                assert(item->Obj_0 =~= seq![
                    ("id"@, Tree::Str(e.current_item_id)),
                    ("type"@, Tree::Str("reasoning"@)),
                    ("summary"@, Tree::Arr(seq![Tree::Obj(s)])),
                ]);
            },
            None => {},
        }
    }
}

/// Words or thoughts that no item is open for have one opened, in the next place and
/// under an id of its own, with nothing in it yet, and a part in it; what came before
/// in another item is not in it.
pub proof fn responses_items_are_begun(e: responses::EncoderV, index: u32, t: Seq<char>)
    requires
        !e.output_item_open,
        !e.content_part_open,
        e.current_kind is None,
        e.next_output_index < u32::MAX,
    ensures
        ({
            let w = responses::encoded_event(e, EventV::TextDelta { index, text: t });
            let id = "msg_"@ + text::digits(e.next_output_index as nat);
            &&& w.out.len() == 3
            &&& w.out[0] == event(
                "response.output_item.added"@,
                seq![
                    ("output_index"@, json::num(e.next_output_index as int)),
                    (
                        "item"@,
                        Tree::Obj(
                            seq![
                                ("id"@, Tree::Str(id)),
                                ("type"@, Tree::Str("message"@)),
                                ("role"@, Tree::Str("assistant"@)),
                                ("status"@, Tree::Str("in_progress"@)),
                                ("content"@, Tree::Arr(Seq::empty())),
                            ],
                        ),
                    ),
                ],
            )
            &&& w.out[2] == piece(w.e, OutputItemKind::Text, t)
            &&& w.e.current_text == t
            &&& w.e.current_item_id == id
            &&& w.e.current_output_index == e.next_output_index
            &&& w.e.next_output_index == e.next_output_index + 1
            &&& w.e.current_kind == Some(OutputItemKind::Text)
            &&& w.e.content_part_open && w.e.output_item_open
            &&& w.e.output_items == e.output_items && w.e.tool_states == e.tool_states
        }),
        ({
            let w = responses::encoded_event(e, EventV::ThinkingDelta { index, text: t });
            let id = "rs_"@ + text::digits(e.next_output_index as nat);
            &&& w.out.len() == 3
            &&& w.out[0] == event(
                "response.output_item.added"@,
                seq![
                    ("output_index"@, json::num(e.next_output_index as int)),
                    (
                        "item"@,
                        Tree::Obj(
                            seq![
                                ("id"@, Tree::Str(id)),
                                ("type"@, Tree::Str("reasoning"@)),
                                ("summary"@, Tree::Arr(Seq::empty())),
                            ],
                        ),
                    ),
                ],
            )
            &&& w.out[2] == piece(w.e, OutputItemKind::Thinking, t)
            &&& w.e.current_thinking == t
            &&& w.e.current_item_id == id
            &&& w.e.current_output_index == e.next_output_index
            &&& w.e.next_output_index == e.next_output_index + 1
            &&& w.e.current_kind == Some(OutputItemKind::Thinking)
            &&& w.e.output_items == e.output_items && w.e.tool_states == e.tool_states
        }),
{
    let n = json::num(e.next_output_index as int);
    let added = "response.output_item.added"@;
    let mid = "msg_"@ + text::digits(e.next_output_index as nat);
    let m = seq![
        ("id"@, Tree::Str(mid)),
        ("type"@, Tree::Str("message"@)),
        ("role"@, Tree::Str("assistant"@)),
        ("status"@, Tree::Str("in_progress"@)),
        ("content"@, Tree::Arr(Seq::empty())),
    ];
    assert(json::fs().with("id"@, json::st(mid)).with("type"@, json::st("message"@)).with(
        "role"@,
        json::st("assistant"@),
    ).with("status"@, json::st("in_progress"@)).with("content"@, Tree::Arr(Seq::empty())) =~= m);
    assert(responses::typed(added).with("output_index"@, n).with("item"@, Tree::Obj(m)) =~= seq![
        ("type"@, Tree::Str(added)),
    ] + seq![("output_index"@, n), ("item"@, Tree::Obj(m))]);
    let rid = "rs_"@ + text::digits(e.next_output_index as nat);
    let r = seq![
        ("id"@, Tree::Str(rid)),
        ("type"@, Tree::Str("reasoning"@)),
        ("summary"@, Tree::Arr(Seq::empty())),
    ];
    assert(json::fs().with("id"@, json::st(rid)).with("type"@, json::st("reasoning"@)).with(
        "summary"@,
        Tree::Arr(Seq::empty()),
    ) =~= r);
    assert(responses::typed(added).with("output_index"@, n).with("item"@, Tree::Obj(r)) =~= seq![
        ("type"@, Tree::Str(added)),
    ] + seq![("output_index"@, n), ("item"@, Tree::Obj(r))]);
    let a = responses::encoded_event(e, EventV::TextDelta { index, text: t });
    let b = responses::encoded_event(e, EventV::ThinkingDelta { index, text: t });
    let (x, y) = ("response.output_text.delta"@, "response.reasoning_summary_text.delta"@);
    assert(a.e.part_head(x).with("delta"@, json::st(t)) =~= seq![("type"@, Tree::Str(x))] + seq![
        ("item_id"@, Tree::Str(a.e.current_item_id)),
        ("output_index"@, json::num(a.e.current_output_index as int)),
        ("content_index"@, json::num(a.e.content_index as int)),
        ("delta"@, Tree::Str(t)),
    ]);
    assert(b.e.part_head(y).with("delta"@, json::st(t)) =~= seq![("type"@, Tree::Str(y))] + seq![
        ("item_id"@, Tree::Str(b.e.current_item_id)),
        ("output_index"@, json::num(b.e.current_output_index as int)),
        ("content_index"@, json::num(b.e.content_index as int)),
        ("delta"@, Tree::Str(t)),
    ]);
    assert(a.e.current_text =~= t);
    assert(b.e.current_thinking =~= t);
}

} // verus!
