//! How streams begin and end for each dialect's clients, and how every dialect is served
//! by its own reader and writer.

use vstd::prelude::*;

use crate::error::ErrorV;
use crate::ir;
use crate::ir::{Dialect, EventV, RequestV, ResponseV, Usage};
use crate::json;
use crate::json::{Build, Tree};
use crate::laws::anthropic_stream;
use crate::laws::gemini as gemini_laws;
use crate::laws::streams_told;
use crate::protocol;
use crate::protocol::anthropic;
use crate::protocol::gemini;
use crate::protocol::openai;
use crate::protocol::responses;
use crate::protocol::responses::OutputItemKind;
use crate::protocol::sse::FrameV;
use crate::protocol::ProviderQuirks;

verus! {

/// Each dialect is read and written by its own rules.
pub proof fn dialects_have_their_own_rules(
    body: Tree,
    req: RequestV,
    resp: ResponseV,
    model: Seq<char>,
    quirks: ProviderQuirks,
    ids: Seq<Seq<char>>,
    created: i64,
)
    ensures
        protocol::request_of(Dialect::Anthropic, body) == anthropic::request_of(body),
        protocol::request_of(Dialect::OpenAI, body) == openai::request_of(body),
        protocol::request_of(Dialect::OpenAIResponses, body) == responses::request_of(body),
        protocol::request_of(Dialect::Gemini, body) == gemini::request_of(body),
        protocol::request_body(Dialect::Anthropic, req, model, quirks) == anthropic::request_body(req, model),
        protocol::request_body(Dialect::OpenAI, req, model, quirks) == openai::request_body(req, model, quirks),
        protocol::request_body(Dialect::OpenAIResponses, req, model, quirks) == responses::request_body(req, model),
        protocol::request_body(Dialect::Gemini, req, model, quirks) == Ok::<Tree, ErrorV>(
            gemini::request_body(req, model),
        ),
        protocol::response_of(Dialect::Anthropic, body, ids) == anthropic::response_of(body),
        protocol::response_of(Dialect::OpenAI, body, ids) == openai::response_of(body, ids),
        protocol::response_of(Dialect::OpenAIResponses, body, ids) == responses::response_of(body),
        protocol::response_of(Dialect::Gemini, body, ids) == gemini::response_of(body),
        protocol::response_body(Dialect::Anthropic, resp, created) == anthropic::response_body(resp),
        protocol::response_body(Dialect::OpenAI, resp, created) == openai::response_body(resp, created),
        protocol::response_body(Dialect::OpenAIResponses, resp, created) == responses::response_body(resp, created),
        protocol::response_body(Dialect::Gemini, resp, created) == gemini::response_body(resp),
{
}

// ----------------------------------------------------------------- anthropic

/// A block that another kind of block is open for is closed and begun anew; one that
/// stops is closed once, and only where it is open.
pub proof fn anthropic_blocks_change_hands(e: anthropic::EncoderV, index: u32, k: int, text: Seq<char>)
    requires
        e.started,
        0 <= k < e.open.len(),
        e.open[k].0 == index,
        forall|j: int| 0 <= j < k ==> (#[trigger] e.open[j]).0 != index,
    ensures
        anthropic::encoded_event(e, EventV::BlockStop { index }) == (anthropic::Written {
            e: anthropic::EncoderV { open: e.open.remove(k), ..e },
            out: seq![anthropic_stream::end_of(index)],
        }),
        e.open[k].1 != anthropic::OpenKind::Text ==> ({
            let w = anthropic::encoded_event(e, EventV::TextDelta { index, text });
            &&& w.out.len() == 3
            &&& w.out[0] == anthropic_stream::end_of(index)
            &&& w.out[2] == anthropic_stream::piece(index, "text_delta"@, "text"@, text)
            &&& w.e.open == e.open.remove(k).push((index, anthropic::OpenKind::Text))
        }),
{
    the_open_one(e.open, index, 0, k);
    anthropic_stream::starts_are_frames(index, anthropic::text_start());
    anthropic_stream::pieces_are_frames(index, "text_delta"@, "text"@, text);
    assert(Seq::<FrameV>::empty().push(anthropic_stream::end_of(index)) =~= seq![anthropic_stream::end_of(index)]);
}

proof fn the_open_one(open: Seq<(u32, anthropic::OpenKind)>, index: u32, i: int, k: int)
    requires
        0 <= i <= k < open.len(),
        open[k].0 == index,
        forall|j: int| i <= j < k ==> (#[trigger] open[j]).0 != index,
    ensures
        anthropic::open_at(open, index, i) == k,
    decreases k - i,
{
    if i < k {
        assert(open[i].0 != index);
        the_open_one(open, index, i + 1, k);
    }
}

/// The start of an answer names who gives it, as the upstream said; a ping is passed on.
pub proof fn anthropic_starts_name_who_answers(e: anthropic::EncoderV, id: Seq<char>, model: Seq<char>, usage: Usage)
    ensures
        ({
            let now = anthropic::EncoderV { id, model, usage, ..e };
            let w = anthropic::encoded_event(e, EventV::Start { id, model, usage });
            &&& !e.started ==> w.out == seq![anthropic_stream::beginning(now)]
            &&& e.started ==> w.out.len() == 0
            &&& w.e == (anthropic::EncoderV { started: true, ..now })
        }),
        anthropic::encoded_event(e, EventV::Ping).out == seq![anthropic_stream::told("ping"@, Seq::empty())],
{
    let now = anthropic::EncoderV { id, model, usage, ..e };
    let none = Seq::<FrameV>::empty();
    anthropic_stream::answers_begin_once(anthropic::Written { e: now, out: none });
    assert(none.push(anthropic_stream::beginning(now)) =~= seq![anthropic_stream::beginning(now)]);
    assert(anthropic::type_only("ping"@) =~= seq![("type"@, Tree::Str("ping"@))] + Seq::empty());
    assert(anthropic::encoded_event(e, EventV::Ping).out =~= seq![anthropic_stream::told("ping"@, Seq::empty())]);
}

/// A stream that was not ended is ended as if the model had said all it had to say; one
/// that was is left as it is.
pub proof fn anthropic_streams_are_ended(e: anthropic::EncoderV)
    requires
        e.started,
    ensures
        e.finished ==> anthropic::encoded_finish(e).out.len() == 0 && anthropic::encoded_finish(e).e == e,
        !e.finished ==> ({
            let w = anthropic::encoded_finish(e);
            let n = e.open.len() as int;
            &&& w.out.len() == n + 2
            &&& forall|i: int| 0 <= i < n ==> #[trigger] w.out[i] == anthropic_stream::end_of(e.open[i].0)
            &&& w.out[n] == anthropic_stream::told(
                "message_delta"@,
                seq![
                    (
                        "delta"@,
                        Tree::Obj(seq![("stop_reason"@, Tree::Str("end_turn"@)), ("stop_sequence"@, Tree::Null)]),
                    ),
                    ("usage"@, Tree::Obj(seq![("output_tokens"@, json::num(e.usage.output_tokens as int))])),
                ],
            )
            &&& w.out[n + 1] == anthropic_stream::told("message_stop"@, Seq::empty())
            &&& w.e.finished && w.e.open.len() == 0
        }),
{
    if !e.finished {
        let w = anthropic::encoded_finish(e);
        let n = e.open.len() as int;
        assert forall|i: int| 0 <= i < n implies #[trigger] w.out[i] == anthropic_stream::end_of(e.open[i].0) by {
            anthropic_stream::starts_are_frames(e.open[i].0, Tree::Null);
        }
        let why = seq![("stop_reason"@, Tree::Str("end_turn"@)), ("stop_sequence"@, Tree::Null)];
        assert(json::fs().with("stop_reason"@, json::st("end_turn"@)).with("stop_sequence"@, Tree::Null) =~= why);
        let cost = seq![("output_tokens"@, json::num(e.usage.output_tokens as int))];
        assert(json::fs().with("output_tokens"@, json::num(e.usage.output_tokens as int)) =~= cost);
        assert(anthropic::type_only("message_delta"@).with("delta"@, Tree::Obj(why)).with("usage"@, Tree::Obj(cost))
            =~= seq![("type"@, Tree::Str("message_delta"@))] + seq![
            ("delta"@, Tree::Obj(why)),
            ("usage"@, Tree::Obj(cost)),
        ]);
        assert(anthropic::type_only("message_stop"@) =~= seq![("type"@, Tree::Str("message_stop"@))] + Seq::empty());
    }
}

// -------------------------------------------------------------------- openai

/// An answer has an id of its dialect's form: the upstream's own where it has that form,
/// else that behind the form's mark.
pub proof fn openai_starts_name_who_answers(e: openai::EncoderV, id: Seq<char>, model: Seq<char>, usage: Usage)
    ensures
        ({
            let w = openai::encoded_event(e, EventV::Start { id, model, usage });
            &&& w.e.id == if "chatcmpl"@.is_prefix_of(id) { id } else { "chatcmpl-"@ + id }
            &&& w.e.model == model
            &&& w.e.usage == usage
            &&& w.e.role_sent
            &&& w.out.len() == if e.role_sent { 0int } else { 1 }
            &&& w.e.tool_slots == e.tool_slots
        }),
        openai::encoded_event(e, EventV::Ping).out.len() == 0,
{
}

/// A stream that was not ended is ended as if the model had stopped by itself; one that
/// was is left as it is. An error is told and ends it.
pub proof fn openai_streams_are_ended(e: openai::EncoderV, err: ErrorV)
    requires
        e.role_sent,
    ensures
        e.done ==> openai::encoded_finish(e) == (openai::Written { e, out: Seq::empty() }),
        !e.done ==> openai::encoded_finish(e) == (openai::Written {
            e: openai::EncoderV { done: true, ..e },
            out: seq![
                streams_told::chunk(e, Seq::empty(), Some("stop"@)),
                FrameV { event: None, data: "[DONE]"@ },
            ],
        }),
        openai::encoded_error(e, err).out == (if e.done {
            seq![FrameV { event: None, data: json::rendered(err.wire(Dialect::OpenAI)) }]
        } else {
            seq![
                FrameV { event: None, data: json::rendered(err.wire(Dialect::OpenAI)) },
                FrameV { event: None, data: "[DONE]"@ },
            ]
        }),
        openai::encoded_error(e, err).e.done,
{
    assert(openai::no_delta() == Tree::Obj(Seq::empty()));
    streams_told::chunks_are_told(e, Seq::empty(), Some("stop"@));
    if !e.done {
        assert(openai::encoded_finish(e).out =~= seq![
            streams_told::chunk(e, Seq::empty(), Some("stop"@)),
            FrameV { event: None, data: "[DONE]"@ },
        ]);
        assert(openai::encoded_error(e, err).out =~= seq![
            FrameV { event: None, data: json::rendered(err.wire(Dialect::OpenAI)) },
            FrameV { event: None, data: "[DONE]"@ },
        ]);
    } else {
        assert(openai::encoded_error(e, err).out =~= seq![
            FrameV { event: None, data: json::rendered(err.wire(Dialect::OpenAI)) },
        ]);
    }
}

// ----------------------------------------------------------------- responses

/// The start of an answer is told with who gives it, as one in progress with nothing in
/// it yet; what the upstream does not say stays as it was.
pub proof fn responses_starts_name_who_answers(
    e: responses::EncoderV,
    id: Seq<char>,
    model: Seq<char>,
    usage: Usage,
)
    ensures
        ({
            let w = responses::encoded_event(e, EventV::Start { id, model, usage });
            let own = if id.len() > 0 { id } else { e.id };
            let by = if model.len() > 0 { model } else { e.model };
            &&& w.e == (responses::EncoderV { id: own, model: by, ..e })
            &&& w.out == seq![
                streams_told::event(
                    "response.created"@,
                    seq![
                        (
                            "response"@,
                            Tree::Obj(
                                seq![
                                    ("id"@, Tree::Str(own)),
                                    ("object"@, Tree::Str("response"@)),
                                    ("created_at"@, json::integer(e.created_at)),
                                    ("status"@, Tree::Str("in_progress"@)),
                                    ("model"@, Tree::Str(by)),
                                    ("output"@, Tree::Arr(Seq::empty())),
                                ],
                            ),
                        ),
                    ],
                ),
            ]
        }),
{
    let own = if id.len() > 0 { id } else { e.id };
    let by = if model.len() > 0 { model } else { e.model };
    let doc = seq![
        ("id"@, Tree::Str(own)),
        ("object"@, Tree::Str("response"@)),
        ("created_at"@, json::integer(e.created_at)),
        ("status"@, Tree::Str("in_progress"@)),
        ("model"@, Tree::Str(by)),
        ("output"@, Tree::Arr(Seq::empty())),
    ];
    assert(json::fs().with("id"@, json::st(own)).with("object"@, json::st("response"@)).with(
        "created_at"@,
        json::integer(e.created_at),
    ).with("status"@, json::st("in_progress"@)).with("model"@, json::st(by)).with("output"@, Tree::Arr(Seq::empty()))
        =~= doc);
    let kind = "response.created"@;
    let rest = seq![("response"@, Tree::Obj(doc))];
    assert(responses::typed(kind).with("response"@, Tree::Obj(doc)) =~= seq![("type"@, Tree::Str(kind))] + rest);
    assert(Seq::<FrameV>::empty().push(streams_told::event(kind, rest)) =~= seq![streams_told::event(kind, rest)]);
}

/// What a part of words or of thoughts held is told whole when it is done.
pub proof fn responses_parts_are_closed_whole(w: responses::Written)
    requires
        w.e.content_part_open,
        w.e.current_kind is Some,
    ensures
        ({
            let e = w.e;
            let now = w.close_part();
            let words = e.current_kind == Some(OutputItemKind::Text);
            let place = seq![
                ("item_id"@, Tree::Str(e.current_item_id)),
                ("output_index"@, json::num(e.current_output_index as int)),
                ("content_index"@, json::num(e.content_index as int)),
            ];
            &&& now.e == (responses::EncoderV { content_part_open: false, ..e })
            &&& now.out.len() == w.out.len() + 2
            &&& now.out.take(w.out.len() as int) == w.out
            &&& words ==> now.out[w.out.len() as int] == streams_told::event(
                "response.output_text.done"@,
                place.push(("text"@, Tree::Str(e.current_text))),
            )
            &&& !words ==> now.out[w.out.len() as int] == streams_told::event(
                "response.reasoning_summary_text.done"@,
                place.push(("text"@, Tree::Str(e.current_thinking))),
            )
            &&& now.out[w.out.len() as int + 1] == streams_told::event(
                "response.content_part.done"@,
                place.push(
                    ("part"@, Tree::Obj(seq![("type"@, Tree::Str(if words { "output_text"@ } else { "reasoning"@ }))])),
                ),
            )
        }),
{
    let e = w.e;
    let place = seq![
        ("item_id"@, Tree::Str(e.current_item_id)),
        ("output_index"@, json::num(e.current_output_index as int)),
        ("content_index"@, json::num(e.content_index as int)),
    ];
    let a = "response.output_text.done"@;
    let b = "response.reasoning_summary_text.done"@;
    let c = "response.content_part.done"@;
    assert(e.part_head(a).with("text"@, json::st(e.current_text)) =~= seq![("type"@, Tree::Str(a))] + place.push(
        ("text"@, Tree::Str(e.current_text)),
    ));
    assert(e.part_head(b).with("text"@, json::st(e.current_thinking)) =~= seq![("type"@, Tree::Str(b))] + place.push(
        ("text"@, Tree::Str(e.current_thinking)),
    ));
    let kind = e.current_kind->0;
    let part = seq![("type"@, Tree::Str(responses::part_kind(kind)))];
    assert(responses::part_out(kind)->Obj_0 =~= part);
    let closed = responses::EncoderV { content_part_open: false, ..e };
    assert(closed.part_head(c).with("part"@, Tree::Obj(part)) =~= seq![("type"@, Tree::Str(c))] + place.push(
        ("part"@, Tree::Obj(part)),
    ));
    assert(w.close_part().out.take(w.out.len() as int) =~= w.out);
}

// -------------------------------------------------------------------- gemini

/// A stream that was not ended is ended with a last chunk that says so; one that was is
/// left as it is.
pub proof fn gemini_streams_are_ended(e: gemini::EncoderV)
    ensures
        e.done ==> gemini::encoded_finish(e) == (gemini::Written { e, out: Seq::empty() }),
        !e.done ==> gemini::encoded_finish(e) == (gemini::Written {
            e: gemini::EncoderV { done: true, ..e },
            out: seq![
                FrameV {
                    event: None,
                    data: json::rendered(
                        gemini_laws::one(
                            "candidates"@,
                            Tree::Arr(
                                seq![
                                    Tree::Obj(
                                        seq![
                                            ("content"@, gemini_laws::content_told(Seq::empty())),
                                            ("finishReason"@, Tree::Str("STOP"@)),
                                        ],
                                    ),
                                ],
                            ),
                        ),
                    ),
                },
            ],
        }),
{
    gemini_laws::contents_are_told(Seq::empty(), ir::no_usage());
    let last = seq![("content"@, gemini_laws::content_told(Seq::empty())), ("finishReason"@, Tree::Str("STOP"@))];
    assert(json::fs().with("content"@, gemini_laws::content_told(Seq::empty())).with(
        "finishReason"@,
        json::st("STOP"@),
    ) =~= last);
    assert(gemini::last_candidates()->Arr_0 =~= seq![Tree::Obj(last)]);
    gemini_laws::ones_are_one("candidates"@, gemini::last_candidates());
    if !e.done {
        let w = gemini::encoded_finish(e);
        assert(w.out =~= seq![w.out[0]]);
    }
}

} // verus!
