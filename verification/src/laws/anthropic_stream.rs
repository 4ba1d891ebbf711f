//! What is read of an Anthropic stream, frame by frame, and what is written of one.

use vstd::prelude::*;

use crate::error::ErrorV;
use crate::ir::{EventV, StopReason, Usage};
use crate::json;
use crate::json::{Build, Lookup, Tree};
use crate::laws;
use crate::protocol::anthropic;
use crate::protocol::anthropic::{EncoderV, OpenKind, ParserV, Written};
use crate::protocol::sse::FrameV;

verus! {

// ------------------------------------------------------------------- reading

proof fn kinds_differ()
    ensures
        "message_start"@.len() == 13,
        "content_block_start"@.len() == 19 && "content_block_start"@[14] == 's',
        "content_block_delta"@.len() == 19 && "content_block_delta"@[14] == 'd',
        "content_block_stop"@.len() == 18,
        "message_delta"@.len() == 13 && "message_delta"@[8] == 'd' && "message_start"@[8] == 's',
        "ping"@.len() == 4,
        "error"@.len() == 5,
        "message_stop"@.len() == 12,
{
    reveal_strlit("message_start");
    reveal_strlit("content_block_start");
    reveal_strlit("content_block_delta");
    reveal_strlit("content_block_stop");
    reveal_strlit("message_delta");
    reveal_strlit("message_stop");
    reveal_strlit("ping");
    reveal_strlit("error");
}

/// The first frame of an answer starts it, with who answers and what it has cost so
/// far; nothing that was open before is closed by it.
pub proof fn beginnings_are_read(p: ParserV, v: Tree)
    ensures
        ({
            let msg = v.at("message"@);
            let r = anthropic::push_payload(p, "message_start"@, v);
            &&& r is Ok
            &&& r->Ok_0.out == seq![
                EventV::Start {
                    id: msg.at("id"@).text_or("msg_stream"@),
                    model: msg.at("model"@).text_or(p.model),
                    usage: anthropic::usage_of(msg.at("usage"@)),
                },
            ]
            &&& r->Ok_0.p == (ParserV { usage: anthropic::usage_of(msg.at("usage"@)), started: true, ..p })
        }),
{
    kinds_differ();
    let msg = v.at("message"@);
    assert(anthropic::push_payload(p, "message_start"@, v)->Ok_0.out =~= seq![
        EventV::Start {
            id: msg.at("id"@).text_or("msg_stream"@),
            model: msg.at("model"@).text_or(p.model),
            usage: anthropic::usage_of(msg.at("usage"@)),
        },
    ]);
}

/// What a block that starts brings at once.
pub open spec fn opening(index: u32, block: Option<Tree>) -> Seq<EventV> {
    let kind = block.at("type"@).text();
    let thoughts = block.at("thinking"@).text_or(Seq::empty());
    let words = block.at("text"@).text_or(Seq::empty());
    if kind == Some("tool_use"@) {
        seq![
            EventV::ToolUseStart {
                index,
                id: block.at("id"@).text_or(Seq::empty()),
                name: block.at("name"@).text_or(Seq::empty()),
            },
        ]
    } else if kind == Some("redacted_thinking"@) {
        seq![EventV::RedactedThinking { index, data: block.at("data"@).text_or(Seq::empty()) }]
    } else if kind == Some("thinking"@) && thoughts.len() > 0 {
        seq![EventV::ThinkingDelta { index, text: thoughts }]
    } else if kind != Some("thinking"@) && words.len() > 0 {
        seq![EventV::TextDelta { index, text: words }]
    } else {
        Seq::empty()
    }
}

/// A block that starts is open, and what it brings at once is not lost.
pub proof fn openings_are_read(p: ParserV, v: Tree)
    ensures
        ({
            let index = v.at("index"@).count();
            let r = anthropic::push_payload(p, "content_block_start"@, v);
            &&& r is Ok
            &&& r->Ok_0.out == opening(index, v.at("content_block"@))
            &&& r->Ok_0.p == (ParserV { open: p.open.push(index), ..p })
        }),
{
    kinds_differ();
    reveal_strlit("tool_use");
    reveal_strlit("redacted_thinking");
    reveal_strlit("thinking");
    assert("tool_use"@.len() == 8 && "redacted_thinking"@.len() == 17 && "thinking"@.len() == 8 && "tool_use"@[1]
        == 'o' && "thinking"@[1] == 'h');
    let index = v.at("index"@).count();
    assert(anthropic::push_payload(p, "content_block_start"@, v)->Ok_0.out =~= opening(
        index,
        v.at("content_block"@),
    ));
}

/// A piece of a block goes on under the block's own index, whatever it brings: words,
/// thoughts, what they are signed with, or a call's arguments.
pub proof fn pieces_are_read(p: ParserV, v: Tree)
    ensures
        ({
            let index = v.at("index"@).count();
            let delta = v.at("delta"@);
            let kind = delta.at("type"@).text();
            let r = anthropic::push_payload(p, "content_block_delta"@, v);
            &&& r is Ok
            &&& r->Ok_0.p == p
            &&& kind == Some("text_delta"@) ==> r->Ok_0.out == seq![
                EventV::TextDelta { index, text: delta.at("text"@).text_or(Seq::empty()) },
            ]
            &&& kind == Some("thinking_delta"@) ==> r->Ok_0.out == seq![
                EventV::ThinkingDelta { index, text: delta.at("thinking"@).text_or(Seq::empty()) },
            ]
            &&& kind == Some("signature_delta"@) ==> r->Ok_0.out == seq![
                EventV::ThinkingSignature { index, signature: delta.at("signature"@).text_or(Seq::empty()) },
            ]
            &&& kind == Some("input_json_delta"@) ==> r->Ok_0.out == seq![
                EventV::ToolUseDelta { index, partial_json: delta.at("partial_json"@).text_or(Seq::empty()) },
            ]
            &&& kind is None || !(seq![
                "text_delta"@,
                "thinking_delta"@,
                "signature_delta"@,
                "input_json_delta"@,
            ].contains(kind->0)) ==> r->Ok_0.out.len() == 0
        }),
{
    kinds_differ();
    reveal_strlit("text_delta");
    reveal_strlit("thinking_delta");
    reveal_strlit("signature_delta");
    reveal_strlit("input_json_delta");
    assert("text_delta"@.len() == 10 && "thinking_delta"@.len() == 14 && "signature_delta"@.len() == 15
        && "input_json_delta"@.len() == 16);
    let known = seq!["text_delta"@, "thinking_delta"@, "signature_delta"@, "input_json_delta"@];
    assert(known[0] == "text_delta"@ && known[1] == "thinking_delta"@ && known[2] == "signature_delta"@ && known[3]
        == "input_json_delta"@);
    let index = v.at("index"@).count();
    let delta = v.at("delta"@);
    let out = anthropic::push_payload(p, "content_block_delta"@, v)->Ok_0.out;
    if let Some(e) = anthropic::block_delta(index, delta) {
        assert(out =~= seq![e]);
    }
}

proof fn but_keeps(open: Seq<u32>, index: u32, i: int)
    requires
        0 <= i <= open.len(),
    ensures
        anthropic::but(open, index, 0, Seq::empty()) == anthropic::but(
            open,
            index,
            i,
            laws::those(open.take(i), |x: u32| x != index),
        ),
    decreases i,
{
    let p = |x: u32| x != index;
    if i > 0 {
        but_keeps(open, index, i - 1);
        laws::keeping_takes(open, i - 1, laws::keeper(p));
    } else {
        assert(open.take(0).filter_map(laws::keeper(p)) =~= Seq::empty());
    }
}

/// A block that stops is no longer open; all others stay so.
pub proof fn closings_are_read(p: ParserV, v: Tree)
    ensures
        ({
            let index = v.at("index"@).count();
            let r = anthropic::push_payload(p, "content_block_stop"@, v);
            &&& r is Ok
            &&& r->Ok_0.out == seq![EventV::BlockStop { index }]
            &&& r->Ok_0.p == (ParserV { open: laws::those(p.open, |x: u32| x != index), ..p })
        }),
{
    kinds_differ();
    let index = v.at("index"@).count();
    but_keeps(p.open, index, p.open.len() as int);
    assert(p.open.take(p.open.len() as int) =~= p.open);
    assert(anthropic::push_payload(p, "content_block_stop"@, v)->Ok_0.out =~= seq![EventV::BlockStop { index }]);
}

/// The frame that ends an answer says why it stopped. What it reports of the usage
/// replaces what the first frame reported: the tokens that came out always, those that
/// went in where it says any; what was read from a cache or written to one stays as
/// first reported.
pub proof fn endings_are_read(p: ParserV, v: Tree)
    ensures
        ({
            let r = anthropic::push_payload(p, "message_delta"@, v);
            let told = v.at("usage"@);
            let usage = r->Ok_0.p.usage;
            &&& r is Ok
            &&& r->Ok_0.out == seq![
                EventV::Stop {
                    stop_reason: match v.at("delta"@).at("stop_reason"@).text() {
                        Some(s) => anthropic::stop_reason(s),
                        None => StopReason::Unknown,
                    },
                    stop_sequence: v.at("delta"@).at("stop_sequence"@).text(),
                    usage,
                },
            ]
            &&& r->Ok_0.p == (ParserV { usage, stopped: true, ..p })
            &&& usage.output_tokens == if told is Some {
                told.at("output_tokens"@).count()
            } else {
                p.usage.output_tokens
            }
            &&& usage.input_tokens == if told.at("input_tokens"@).count() > 0 {
                told.at("input_tokens"@).count()
            } else {
                p.usage.input_tokens
            }
            &&& usage.cache_read_tokens == p.usage.cache_read_tokens
            &&& usage.cache_write_tokens == p.usage.cache_write_tokens
            &&& usage.reasoning_tokens == p.usage.reasoning_tokens
        }),
{
    kinds_differ();
    let r = anthropic::push_payload(p, "message_delta"@, v);
    assert(r->Ok_0.out =~= seq![
        EventV::Stop {
            stop_reason: match v.at("delta"@).at("stop_reason"@).text() {
                Some(s) => anthropic::stop_reason(s),
                None => StopReason::Unknown,
            },
            stop_sequence: v.at("delta"@).at("stop_sequence"@).text(),
            usage: r->Ok_0.p.usage,
        },
    ]);
}

/// A ping is passed on, an error ends the stream with its message, and a frame of no
/// known kind brings nothing.
pub proof fn other_frames_are_read(p: ParserV, kind: Seq<char>, v: Tree)
    ensures
        kind == "ping"@ ==> anthropic::push_payload(p, kind, v) is Ok && anthropic::push_payload(p, kind, v)->Ok_0.out
            == seq![EventV::Ping] && anthropic::push_payload(p, kind, v)->Ok_0.p == p,
        kind == "error"@ ==> anthropic::push_payload(p, kind, v) == Err::<anthropic::Step, ErrorV>(
            ErrorV::BadUpstreamPayload(v.at("error"@).at("message"@).text_or("upstream stream error"@)),
        ),
        anthropic::push_payload(p, kind, v) is Err <==> kind == "error"@,
        !(seq![
            "message_start"@,
            "content_block_start"@,
            "content_block_delta"@,
            "content_block_stop"@,
            "message_delta"@,
            "ping"@,
            "error"@,
        ].contains(kind)) ==> anthropic::push_payload(p, kind, v) is Ok && anthropic::push_payload(
            p,
            kind,
            v,
        )->Ok_0.out.len() == 0 && anthropic::push_payload(p, kind, v)->Ok_0.p == p,
{
    kinds_differ();
    let known = seq![
        "message_start"@,
        "content_block_start"@,
        "content_block_delta"@,
        "content_block_stop"@,
        "message_delta"@,
        "ping"@,
        "error"@,
    ];
    assert(known[0] == "message_start"@ && known[1] == "content_block_start"@ && known[2] == "content_block_delta"@
        && known[3] == "content_block_stop"@ && known[4] == "message_delta"@ && known[5] == "ping"@ && known[6]
        == "error"@);
    if kind == "ping"@ {
        assert(anthropic::push_payload(p, kind, v)->Ok_0.out =~= seq![EventV::Ping]);
    }
}

/// A frame is read by the name it is sent under, or else by the type it says it has.
pub proof fn frames_are_read_by_kind(p: ParserV, f: FrameV)
    ensures
        crate::text::trimmed(f.data) == "[DONE]"@ ==> anthropic::push_frame(p, f) is Ok && anthropic::push_frame(
            p,
            f,
        )->Ok_0.out.len() == 0 && anthropic::push_frame(p, f)->Ok_0.p == p,
        crate::text::trimmed(f.data) != "[DONE]"@ ==> match f.json() {
            Ok(v) => {
                &&& f.event matches Some(e) ==> anthropic::push_frame(p, f) == anthropic::push_payload(p, e, v)
                &&& f.event is None ==> anthropic::push_frame(p, f) == anthropic::push_payload(
                    p,
                    v.at("type"@).text_or(Seq::empty()),
                    v,
                )
            },
            Err(e) => anthropic::push_frame(p, f) == Err::<anthropic::Step, ErrorV>(e),
        },
{
}

/// A stream that breaks off closes each block that is still open, once and in order,
/// and stops an answer that was begun with the usage that is known.
pub proof fn broken_streams_are_closed(p: ParserV)
    ensures
        ({
            let closed = p.open.map_values(|i: u32| EventV::BlockStop { index: i });
            let r = anthropic::finished(p);
            &&& r.p.open.len() == 0
            &&& p.started && !p.stopped ==> r.p.stopped && r.out == closed.push(
                EventV::Stop { stop_reason: StopReason::Unknown, stop_sequence: None, usage: p.usage },
            )
            &&& !p.started || p.stopped ==> r.out == closed
        }),
{
    assert(anthropic::block_stops(p.open) =~= p.open.map_values(|i: u32| EventV::BlockStop { index: i }));
}

// ------------------------------------------------------------------- writing

/// A frame under a name, with a document of that type.
pub open spec fn told(kind: Seq<char>, rest: Seq<(Seq<char>, Tree)>) -> FrameV {
    FrameV { event: Some(kind), data: json::rendered(Tree::Obj(seq![("type"@, Tree::Str(kind))] + rest)) }
}

/// A piece of a block.
pub open spec fn piece(index: u32, kind: Seq<char>, key: Seq<char>, text: Seq<char>) -> FrameV {
    told(
        "content_block_delta"@,
        seq![
            ("index"@, json::num(index as int)),
            ("delta"@, Tree::Obj(seq![("type"@, Tree::Str(kind)), (key, Tree::Str(text))])),
        ],
    )
}

/// The start of a block.
pub open spec fn start_of(index: u32, block: Tree) -> FrameV {
    told("content_block_start"@, seq![("index"@, json::num(index as int)), ("content_block"@, block)])
}

/// The end of a block.
pub open spec fn end_of(index: u32) -> FrameV {
    told("content_block_stop"@, seq![("index"@, json::num(index as int))])
}

/// Whether a block of that kind is open under that index.
pub open spec fn is_open(e: EncoderV, index: u32, kind: OpenKind) -> bool {
    exists|k: int|
        0 <= k < e.open.len() && #[trigger] e.open[k] == (index, kind) && forall|j: int|
            0 <= j < k ==> (#[trigger] e.open[j]).0 != index
}

pub(crate) proof fn pieces_are_frames(index: u32, kind: Seq<char>, key: Seq<char>, text: Seq<char>)
    ensures
        anthropic::delta_frame(index, kind, key, text) == piece(index, kind, key, text),
{
    let inner = seq![("type"@, Tree::Str(kind)), (key, Tree::Str(text))];
    assert(anthropic::type_only(kind).with(key, json::st(text)) =~= inner);
    let doc = anthropic::type_only("content_block_delta"@).with("index"@, json::num(index as int)).with(
        "delta"@,
        Tree::Obj(inner),
    );
    assert(doc =~= seq![("type"@, Tree::Str("content_block_delta"@))] + seq![
        ("index"@, json::num(index as int)),
        ("delta"@, Tree::Obj(inner)),
    ]);
}

pub(crate) proof fn starts_are_frames(index: u32, block: Tree)
    ensures
        anthropic::named_frame("content_block_start"@, anthropic::start_data(index, block)) == start_of(index, block),
        anthropic::stop_frame(index) == end_of(index),
{
    assert(anthropic::start_data(index, block)->Obj_0 =~= seq![("type"@, Tree::Str("content_block_start"@))] + seq![
        ("index"@, json::num(index as int)),
        ("content_block"@, block),
    ]);
    let doc = anthropic::type_only("content_block_stop"@).with("index"@, json::num(index as int));
    assert(doc =~= seq![("type"@, Tree::Str("content_block_stop"@))] + seq![("index"@, json::num(index as int))]);
}

proof fn the_first_is_found(open: Seq<(u32, OpenKind)>, index: u32, i: int)
    requires
        0 <= i <= open.len(),
        forall|j: int| 0 <= j < i ==> (#[trigger] open[j]).0 != index,
    ensures
        ({
            let at = anthropic::open_at(open, index, i);
            &&& i <= at <= open.len()
            &&& at < open.len() ==> open[at].0 == index
            &&& forall|j: int| 0 <= j < at ==> (#[trigger] open[j]).0 != index
        }),
    decreases open.len() - i,
{
    if i < open.len() && open[i].0 != index {
        the_first_is_found(open, index, i + 1);
    }
}

/// The frame that starts an answer, and what it says.
pub open spec fn beginning(e: EncoderV) -> FrameV {
    told(
        "message_start"@,
        seq![
            (
                "message"@,
                Tree::Obj(
                    seq![
                        ("id"@, Tree::Str(e.id)),
                        ("type"@, Tree::Str("message"@)),
                        ("role"@, Tree::Str("assistant"@)),
                        ("model"@, Tree::Str(e.model)),
                        ("content"@, Tree::Arr(Seq::empty())),
                        ("stop_reason"@, Tree::Null),
                        ("stop_sequence"@, Tree::Null),
                        ("usage"@, anthropic::usage_out(e.usage)),
                    ],
                ),
            ),
        ],
    )
}

/// An answer begins once, with the frame that says who answers.
pub proof fn answers_begin_once(w: Written)
    ensures
        w.e.started ==> w.ensure_started() == w,
        !w.e.started ==> w.ensure_started() == (Written {
            e: EncoderV { started: true, ..w.e },
            out: w.out.push(beginning(w.e)),
        }),
{
    let e = w.e;
    let message = seq![
        ("id"@, Tree::Str(e.id)),
        ("type"@, Tree::Str("message"@)),
        ("role"@, Tree::Str("assistant"@)),
        ("model"@, Tree::Str(e.model)),
        ("content"@, Tree::Arr(Seq::empty())),
        ("stop_reason"@, Tree::Null),
        ("stop_sequence"@, Tree::Null),
        ("usage"@, anthropic::usage_out(e.usage)),
    ];
    let built = json::fs().with("id"@, json::st(e.id)).with("type"@, json::st("message"@)).with(
        "role"@,
        json::st("assistant"@),
    ).with("model"@, json::st(e.model)).with("content"@, Tree::Arr(Seq::empty())).with(
        "stop_reason"@,
        Tree::Null,
    ).with("stop_sequence"@, Tree::Null).with("usage"@, anthropic::usage_out(e.usage));
    assert(built =~= message);
    assert(anthropic::type_only("message_start"@).with("message"@, Tree::Obj(message)) =~= seq![
        ("type"@, Tree::Str("message_start"@)),
    ] + seq![("message"@, Tree::Obj(message))]);
}

/// In an answer that was begun, a piece of an open block is one frame, under the
/// block's index, with all that the piece brings.
pub proof fn pieces_are_told(e: EncoderV, index: u32, text: Seq<char>)
    requires
        e.started,
    ensures
        is_open(e, index, OpenKind::Text) ==> anthropic::encoded_event(e, EventV::TextDelta { index, text }) == (
        Written { e, out: seq![piece(index, "text_delta"@, "text"@, text)] }),
        is_open(e, index, OpenKind::Thinking) ==> anthropic::encoded_event(e, EventV::ThinkingDelta { index, text })
            == (Written { e, out: seq![piece(index, "thinking_delta"@, "thinking"@, text)] }),
        is_open(e, index, OpenKind::Thinking) ==> anthropic::encoded_event(
            e,
            EventV::ThinkingSignature { index, signature: text },
        ) == (Written { e, out: seq![piece(index, "signature_delta"@, "signature"@, text)] }),
        anthropic::encoded_event(e, EventV::ToolUseDelta { index, partial_json: text }) == (Written {
            e,
            out: seq![piece(index, "input_json_delta"@, "partial_json"@, text)],
        }),
{
    pieces_are_frames(index, "text_delta"@, "text"@, text);
    pieces_are_frames(index, "thinking_delta"@, "thinking"@, text);
    pieces_are_frames(index, "signature_delta"@, "signature"@, text);
    pieces_are_frames(index, "input_json_delta"@, "partial_json"@, text);
    the_first_is_found(e.open, index, 0);
    let at = anthropic::open_at(e.open, index, 0);
    assert forall|kind: OpenKind| #[trigger] is_open(e, index, kind) implies 0 <= at < e.open.len() && e.open[at].1
        == kind by {
        let k = choose|k: int|
            0 <= k < e.open.len() && #[trigger] e.open[k] == (index, kind) && forall|j: int|
                0 <= j < k ==> (#[trigger] e.open[j]).0 != index;
        assert(e.open[k].0 == index);
        if at < k {
            assert(e.open[at].0 != index);
        }
    }
    let none = Seq::<FrameV>::empty();
    assert(none.push(piece(index, "text_delta"@, "text"@, text)) =~= seq![
        piece(index, "text_delta"@, "text"@, text),
    ]);
    assert(none.push(piece(index, "thinking_delta"@, "thinking"@, text)) =~= seq![
        piece(index, "thinking_delta"@, "thinking"@, text),
    ]);
    assert(none.push(piece(index, "signature_delta"@, "signature"@, text)) =~= seq![
        piece(index, "signature_delta"@, "signature"@, text),
    ]);
    assert(none.push(piece(index, "input_json_delta"@, "partial_json"@, text)) =~= seq![
        piece(index, "input_json_delta"@, "partial_json"@, text),
    ]);
}

/// A block that no block is open for is started by a frame with an empty block of its
/// kind, and its first piece follows.
pub proof fn blocks_are_begun(e: EncoderV, index: u32, id: Seq<char>, name: Seq<char>, text: Seq<char>)
    requires
        e.started,
        forall|j: int| 0 <= j < e.open.len() ==> (#[trigger] e.open[j]).0 != index,
    ensures
        anthropic::encoded_event(e, EventV::TextDelta { index, text }).out == seq![
            start_of(index, Tree::Obj(seq![("type"@, Tree::Str("text"@)), ("text"@, Tree::Str(Seq::empty()))])),
            piece(index, "text_delta"@, "text"@, text),
        ],
        anthropic::encoded_event(e, EventV::ThinkingDelta { index, text }).out == seq![
            start_of(
                index,
                Tree::Obj(
                    seq![
                        ("type"@, Tree::Str("thinking"@)),
                        ("thinking"@, Tree::Str(Seq::empty())),
                        ("signature"@, Tree::Str(Seq::empty())),
                    ],
                ),
            ),
            piece(index, "thinking_delta"@, "thinking"@, text),
        ],
        anthropic::encoded_event(e, EventV::ToolUseStart { index, id, name }).out == seq![
            start_of(
                index,
                Tree::Obj(
                    seq![
                        ("type"@, Tree::Str("tool_use"@)),
                        ("id"@, Tree::Str(id)),
                        ("name"@, Tree::Str(name)),
                        ("input"@, Tree::Obj(Seq::empty())),
                    ],
                ),
            ),
        ],
        anthropic::encoded_event(e, EventV::RedactedThinking { index, data: text }).out == seq![
            start_of(
                index,
                Tree::Obj(seq![("type"@, Tree::Str("redacted_thinking"@)), ("data"@, Tree::Str(text))]),
            ),
            end_of(index),
        ],
        anthropic::encoded_event(e, EventV::TextDelta { index, text }).e.open == e.open.push(
            (index, OpenKind::Text),
        ),
        anthropic::encoded_event(e, EventV::ThinkingDelta { index, text }).e.open == e.open.push(
            (index, OpenKind::Thinking),
        ),
        anthropic::encoded_event(e, EventV::ToolUseStart { index, id, name }).e.open == e.open.push(
            (index, OpenKind::ToolUse),
        ),
{
    pieces_are_frames(index, "text_delta"@, "text"@, text);
    pieces_are_frames(index, "thinking_delta"@, "thinking"@, text);
    the_first_is_found(e.open, index, 0);
    let t = seq![("type"@, Tree::Str("text"@)), ("text"@, Tree::Str(Seq::empty()))];
    assert(anthropic::text_start()->Obj_0 =~= t);
    starts_are_frames(index, Tree::Obj(t));
    let h = seq![
        ("type"@, Tree::Str("thinking"@)),
        ("thinking"@, Tree::Str(Seq::empty())),
        ("signature"@, Tree::Str(Seq::empty())),
    ];
    assert(anthropic::thinking_start()->Obj_0 =~= h);
    starts_are_frames(index, Tree::Obj(h));
    let u = seq![
        ("type"@, Tree::Str("tool_use"@)),
        ("id"@, Tree::Str(id)),
        ("name"@, Tree::Str(name)),
        ("input"@, Tree::Obj(Seq::empty())),
    ];
    assert(anthropic::type_only("tool_use"@).with("id"@, json::st(id)).with("name"@, json::st(name)).with(
        "input"@,
        Tree::Obj(json::fs()),
    ) =~= u);
    starts_are_frames(index, Tree::Obj(u));
    let d = seq![("type"@, Tree::Str("redacted_thinking"@)), ("data"@, Tree::Str(text))];
    assert(anthropic::type_only("redacted_thinking"@).with("data"@, json::st(text)) =~= d);
    starts_are_frames(index, Tree::Obj(d));
    assert(anthropic::encoded_event(e, EventV::TextDelta { index, text }).out =~= seq![
        start_of(index, Tree::Obj(t)),
        piece(index, "text_delta"@, "text"@, text),
    ]);
    assert(anthropic::encoded_event(e, EventV::ThinkingDelta { index, text }).out =~= seq![
        start_of(index, Tree::Obj(h)),
        piece(index, "thinking_delta"@, "thinking"@, text),
    ]);
    assert(anthropic::encoded_event(e, EventV::ToolUseStart { index, id, name }).out =~= seq![
        start_of(index, Tree::Obj(u)),
    ]);
    assert(anthropic::encoded_event(e, EventV::RedactedThinking { index, data: text }).out =~= seq![
        start_of(index, Tree::Obj(d)),
        end_of(index),
    ]);
}

/// The end of an answer: every block that is open is closed, in order, and two frames
/// say why it stopped, what came out of it, and that it is over. Nothing is open then.
pub proof fn answers_are_ended(e: EncoderV, reason: StopReason, sequence: Option<Seq<char>>, usage: Usage)
    requires
        e.started,
    ensures
        ({
            let w = anthropic::encoded_event(
                e,
                EventV::Stop { stop_reason: reason, stop_sequence: sequence, usage },
            );
            &&& w.e.open.len() == 0
            &&& w.e.finished
            &&& w.e.usage == usage
            &&& w.out == e.open.map_values(|o: (u32, OpenKind)| end_of(o.0)) + seq![
                told(
                    "message_delta"@,
                    seq![
                        (
                            "delta"@,
                            Tree::Obj(
                                seq![
                                    (
                                        "stop_reason"@,
                                        match anthropic::stop_reason_text(reason) {
                                            Some(s) => Tree::Str(s),
                                            None => Tree::Null,
                                        },
                                    ),
                                    (
                                        "stop_sequence"@,
                                        match sequence {
                                            Some(s) => Tree::Str(s),
                                            None => Tree::Null,
                                        },
                                    ),
                                ],
                            ),
                        ),
                        (
                            "usage"@,
                            Tree::Obj(seq![("output_tokens"@, json::num(usage.output_tokens as int))]),
                        ),
                    ],
                ),
                told("message_stop"@, Seq::empty()),
            ]
        }),
{
    let w = anthropic::encoded_event(e, EventV::Stop { stop_reason: reason, stop_sequence: sequence, usage });
    let ends = e.open.map_values(|o: (u32, OpenKind)| end_of(o.0));
    assert forall|i: int| 0 <= i < e.open.len() implies anthropic::stop_frame((#[trigger] e.open[i]).0) == end_of(
        e.open[i].0,
    ) by {
        starts_are_frames(e.open[i].0, Tree::Null);
    }
    assert(Seq::new(e.open.len(), |i: int| anthropic::stop_frame(e.open[i].0)) =~= ends);
    let why = seq![
        (
            "stop_reason"@,
            match anthropic::stop_reason_text(reason) {
                Some(s) => Tree::Str(s),
                None => Tree::Null,
            },
        ),
        (
            "stop_sequence"@,
            match sequence {
                Some(s) => Tree::Str(s),
                None => Tree::Null,
            },
        ),
    ];
    assert(json::fs().with(
        "stop_reason"@,
        anthropic::text_or_null(anthropic::stop_reason_text(reason)),
    ).with("stop_sequence"@, anthropic::text_or_null(sequence)) =~= why);
    let cost = seq![("output_tokens"@, json::num(usage.output_tokens as int))];
    assert(json::fs().with("output_tokens"@, json::num(usage.output_tokens as int)) =~= cost);
    assert(anthropic::type_only("message_delta"@).with("delta"@, Tree::Obj(why)).with("usage"@, Tree::Obj(cost))
        =~= seq![("type"@, Tree::Str("message_delta"@))] + seq![
        ("delta"@, Tree::Obj(why)),
        ("usage"@, Tree::Obj(cost)),
    ]);
    assert(anthropic::type_only("message_stop"@) =~= seq![("type"@, Tree::Str("message_stop"@))] + Seq::empty());
    let a = told("message_delta"@, seq![("delta"@, Tree::Obj(why)), ("usage"@, Tree::Obj(cost))]);
    let b = told("message_stop"@, Seq::empty());
    assert(Seq::<FrameV>::empty() + ends =~= ends);
    assert(w.out =~= ends + seq![a, b]);
}

} // verus!
