//! Google Gemini native API dialect (`generateContent`).
//!
//! A practical subset of the Gemini translation: system instructions,
//! multi-part contents, function declarations/calls, image parts, and a
//! snapshot-style SSE parser/encoder.

use crate::draw;
use crate::error;
use crate::error::{Error, ErrorV};
use crate::ir;
use crate::ir::{
    BlockV, ChatRequest, ChatResponse, ChoiceV, ContentBlock, Dialect, EventV, MediaSource, Message, MessageV, PartV,
    RequestV, ResponseV, Role, SourceV, StopReason, StreamEvent, SystemPart, SystemV, ToolChoice, ToolDef,
    ToolResultPart, ToolV, UnsupportedContentPolicy, Usage,
};
use crate::json;
use crate::json::{array, array1, js, no_items, At, Build, Fields, Json, Lookup, Tree};
use crate::protocol::openai;
use crate::protocol::openai::{decode_texts, tool_result_text};
use crate::protocol::sse::{FrameV, SseFrame};
use crate::protocol::{StreamEncoder, StreamParser};
use crate::text;
use crate::text::{concat, concat3, decimal, same, trim};
use crate::views;
use vstd::prelude::*;

verus! {

broadcast use crate::views::group_views;

/// The low half of a number.
pub open spec fn low_half(n: u64) -> u32 {
    (n % 0x1_0000_0000) as u32
}

pub open spec fn low_half_of(v: Option<Tree>) -> u32 {
    match v.uint() {
        Some(n) => low_half(n),
        None => 0,
    }
}

fn counter(v: At<'_>) -> (r: u32)
    ensures
        r == low_half_of(v@),
{
    match v.uint() {
        Some(n) => (n % 0x1_0000_0000) as u32,
        None => 0,
    }
}

// -------------------------------------------------------------- request in

pub open spec fn call_block(call: Tree) -> BlockV {
    BlockV::ToolUse {
        id: call.at("id"@).text_or(Seq::empty()),
        name: call.at("name"@).text_or(Seq::empty()),
        input: match call.at("args"@) {
            Some(a) => a,
            None => Tree::Obj(json::fs()),
        },
    }
}

fn decode_call(call: At<'_>) -> (r: ContentBlock)
    requires
        call@ is Some,
    ensures
        r@ == call_block(call@->0),
{
    ContentBlock::ToolUse {
        id: call.at("id").string(),
        name: call.at("name").string(),
        input: match call.at("args").copied() {
            Some(a) => a,
            None => Fields::new().done(),
        },
    }
}

/// The block of one part: text, or else a call, or else an answer to one, or else a picture.
pub open spec fn part_block(p: Tree) -> Option<BlockV> {
    match p.at("text"@).text() {
        Some(t) => Some(ir::text_block(t)),
        None => match p.at("functionCall"@) {
            Some(call) => Some(call_block(call)),
            None => match p.at("functionResponse"@) {
                Some(response) => Some(
                    BlockV::ToolResult {
                        tool_use_id: response.at("id"@).text_or(Seq::empty()),
                        name: Seq::empty(),
                        content: Seq::empty().push(
                            PartV::Text {
                                text: json::rendered(
                                    match response.at("response"@) {
                                        Some(v) => v,
                                        None => Tree::Null,
                                    },
                                ),
                            },
                        ),
                        is_error: false,
                    },
                ),
                None => match p.at("inlineData"@) {
                    Some(data) => Some(
                        BlockV::Image {
                            source: SourceV::Base64 {
                                media_type: data.at("mimeType"@).text_or("application/octet-stream"@),
                                data: data.at("data"@).text_or(Seq::empty()),
                            },
                        },
                    ),
                    None => None,
                },
            },
        },
    }
}

fn decode_part(p: &Json) -> (r: Option<ContentBlock>)
    ensures
        views::opt(r) == part_block(p@),
{
    if let Some(t) = p.at("text").text() {
        return Some(ContentBlock::text(t));
    }
    let call = p.at("functionCall");
    if call.is_some() {
        return Some(decode_call(call));
    }
    let response = p.at("functionResponse");
    if response.is_some() {
        let t = match response.at("response").v {
            Some(v) => json::render(v),
            None => json::render(&Json::Null),
        };
        let mut content: Vec<ToolResultPart> = Vec::new();
        content.push(ToolResultPart::Text { text: t });
        return Some(
            ContentBlock::ToolResult {
                tool_use_id: response.at("id").string(),
                name: String::new(),
                content,
                is_error: false,
            },
        );
    }
    let data = p.at("inlineData");
    if data.is_some() {
        return Some(
            ContentBlock::Image {
                source: MediaSource::Base64 {
                    media_type: data.at("mimeType").string_or("application/octet-stream"),
                    data: data.at("data").string(),
                },
            },
        );
    }
    None
}

pub open spec fn part_blocks(ps: Seq<Tree>, i: int, acc: Seq<BlockV>) -> Seq<BlockV>
    decreases ps.len() - i,
{
    if i < 0 || i >= ps.len() {
        acc
    } else {
        match part_block(ps[i]) {
            Some(b) => part_blocks(ps, i + 1, acc.push(b)),
            None => part_blocks(ps, i + 1, acc),
        }
    }
}

/// The turn of one content.
pub open spec fn turn(c: Tree) -> MessageV {
    MessageV {
        role: if c.at("role"@).text() == Some("model"@) { Role::Assistant } else { Role::User },
        content: match c.at("parts"@).list() {
            Some(ps) => part_blocks(ps, 0, Seq::empty()),
            None => Seq::empty(),
        },
    }
}

fn decode_turn(c: &Json) -> (r: Message)
    ensures
        r@ == turn(c@),
{
    let mut content: Vec<ContentBlock> = Vec::new();
    if let Some(ps) = c.at("parts").list() {
        let ghost trees = views::of(ps@);
        for i in 0..ps.len()
            invariant
                trees == views::of(ps@),
                part_blocks(trees, 0, Seq::empty()) == part_blocks(trees, i as int, views::of(content@)),
        {
            assert(trees[i as int] == ps@[i as int]@);
            if let Some(b) = decode_part(&ps[i]) {
                content.push(b);
            }
        }
    }
    Message { role: if c.at("role").is_text("model") { Role::Assistant } else { Role::User }, content }
}

pub open spec fn turns(cs: Seq<Tree>) -> Seq<MessageV> {
    Seq::new(cs.len(), |i: int| turn(cs[i]))
}

fn decode_turns(v: At<'_>) -> (r: Vec<Message>)
    ensures
        views::of(r@) == match v@.list() {
            Some(cs) => turns(cs),
            None => Seq::empty(),
        },
{
    let mut out: Vec<Message> = Vec::new();
    if let Some(cs) = v.list() {
        let ghost trees = views::of(cs@);
        for i in 0..cs.len()
            invariant
                trees == views::of(cs@),
                out@.len() == i,
                forall|j: int| 0 <= j < i ==> (#[trigger] out@[j])@ == turn(trees[j]),
        {
            assert(trees[i as int] == cs@[i as int]@);
            let m = decode_turn(&cs[i]);
            out.push(m);
        }
        assert(views::of(out@) =~= turns(trees));
    }
    out
}

pub open spec fn system_parts(ps: Seq<Tree>, i: int, acc: Seq<SystemV>) -> Seq<SystemV>
    decreases ps.len() - i,
{
    if i < 0 || i >= ps.len() {
        acc
    } else {
        match ps[i].at("text"@).text() {
            Some(t) => system_parts(ps, i + 1, acc.push(ir::system_part(t))),
            None => system_parts(ps, i + 1, acc),
        }
    }
}

fn decode_system(v: At<'_>) -> (r: Vec<SystemPart>)
    ensures
        views::of(r@) == match v@.list() {
            Some(ps) => system_parts(ps, 0, Seq::empty()),
            None => Seq::empty(),
        },
{
    let mut out: Vec<SystemPart> = Vec::new();
    if let Some(ps) = v.list() {
        let ghost trees = views::of(ps@);
        for i in 0..ps.len()
            invariant
                trees == views::of(ps@),
                system_parts(trees, 0, Seq::empty()) == system_parts(trees, i as int, views::of(out@)),
        {
            assert(trees[i as int] == ps@[i as int]@);
            if let Some(t) = ps[i].at("text").text() {
                out.push(SystemPart::new(t));
            }
        }
    }
    out
}

/// A function declaration; one without a name is skipped.
pub open spec fn declaration(d: Tree) -> Option<ToolV> {
    match d.at("name"@).text() {
        Some(name) => Some(
            ToolV {
                name,
                description: d.at("description"@).text(),
                input_schema: match d.at("parameters"@) {
                    Some(p) => p,
                    None => openai::object_schema(),
                },
                cache_control: None,
            },
        ),
        None => None,
    }
}

pub open spec fn declarations(ds: Seq<Tree>, i: int, acc: Seq<ToolV>) -> Seq<ToolV>
    decreases ds.len() - i,
{
    if i < 0 || i >= ds.len() {
        acc
    } else {
        match declaration(ds[i]) {
            Some(t) => declarations(ds, i + 1, acc.push(t)),
            None => declarations(ds, i + 1, acc),
        }
    }
}

pub open spec fn tools(ts: Seq<Tree>, i: int, acc: Seq<ToolV>) -> Seq<ToolV>
    decreases ts.len() - i,
{
    if i < 0 || i >= ts.len() {
        acc
    } else {
        match ts[i].at("functionDeclarations"@).list() {
            Some(ds) => tools(ts, i + 1, declarations(ds, 0, acc)),
            None => tools(ts, i + 1, acc),
        }
    }
}

fn decode_declarations(ds: &Vec<Json>, out: &mut Vec<ToolDef>)
    ensures
        views::of(final(out)@) == declarations(views::of(ds@), 0, views::of(old(out)@)),
{
    let ghost trees = views::of(ds@);
    let ghost start = views::of(out@);
    for i in 0..ds.len()
        invariant
            trees == views::of(ds@),
            declarations(trees, 0, start) == declarations(trees, i as int, views::of(out@)),
    {
        assert(trees[i as int] == ds@[i as int]@);
        let d: &Json = &ds[i];
        if let Some(name) = d.at("name").opt_string() {
            out.push(
                ToolDef {
                    name,
                    description: d.at("description").opt_string(),
                    input_schema: match d.at("parameters").copied() {
                        Some(p) => p,
                        None => Fields::new().with("type", js("object")).done(),
                    },
                    cache_control: None,
                },
            );
        }
    }
}

fn decode_tools(v: At<'_>) -> (r: Vec<ToolDef>)
    ensures
        views::of(r@) == match v@.list() {
            Some(ts) => tools(ts, 0, Seq::empty()),
            None => Seq::empty(),
        },
{
    let mut out: Vec<ToolDef> = Vec::new();
    if let Some(ts) = v.list() {
        let ghost trees = views::of(ts@);
        for i in 0..ts.len()
            invariant
                trees == views::of(ts@),
                tools(trees, 0, Seq::empty()) == tools(trees, i as int, views::of(out@)),
        {
            assert(trees[i as int] == ts@[i as int]@);
            if let Some(ds) = ts[i].at("functionDeclarations").list() {
                decode_declarations(ds, &mut out);
            }
        }
    }
    out
}

pub open spec fn choice(mode: Option<Seq<char>>) -> Option<ChoiceV> {
    match mode {
        Some(m) => Some(
            if m == "NONE"@ {
                ChoiceV::NoTool
            } else if m == "ANY"@ {
                ChoiceV::Any
            } else {
                ChoiceV::Auto
            },
        ),
        None => None,
    }
}

fn decode_choice(mode: Option<&str>) -> (r: Option<ToolChoice>)
    ensures
        views::opt(r) == choice(views::opt_str(mode)),
{
    match mode {
        Some(m) => Some(
            if same(m, "NONE") {
                ToolChoice::NoTool
            } else if same(m, "ANY") {
                ToolChoice::Any
            } else {
                ToolChoice::Auto
            },
        ),
        None => None,
    }
}

/// The request that a body holds.
pub open spec fn request_of(body: Tree) -> Result<RequestV, ErrorV> {
    match Some(body).fields() {
        None => Err(ErrorV::InvalidRequest("Gemini request body must be a JSON object"@)),
        Some(_) => {
            let gc = body.at("generationConfig"@);
            Ok(
                RequestV {
                    model: body.at("model"@).text_or(Seq::empty()),
                    source_dialect: Dialect::Gemini,
                    system: match body.at("system_instruction"@).at("parts"@).list() {
                        Some(ps) => system_parts(ps, 0, Seq::empty()),
                        None => Seq::empty(),
                    },
                    messages: match body.at("contents"@).list() {
                        Some(cs) => turns(cs),
                        None => Seq::empty(),
                    },
                    max_tokens: match gc.at("maxOutputTokens"@).uint() {
                        Some(n) => Some(low_half(n)),
                        None => None,
                    },
                    temperature: gc.at("temperature"@).float(),
                    top_p: gc.at("topP"@).float(),
                    top_k: None,
                    stop_sequences: match gc.at("stopSequences"@).list() {
                        Some(a) => openai::texts(a, 0, Seq::empty()),
                        None => Seq::empty(),
                    },
                    stream: false,
                    tools: match body.at("tools"@).list() {
                        Some(ts) => tools(ts, 0, Seq::empty()),
                        None => Seq::empty(),
                    },
                    tool_choice: choice(
                        body.at("toolConfig"@).at("functionCallingConfig"@).at("mode"@).text(),
                    ),
                    thinking: None,
                    metadata_user: None,
                    passthrough: json::fs(),
                    unsupported_content_policy: UnsupportedContentPolicy::Drop,
                },
            )
        },
    }
}

/// Decode a `generateContent` request.
pub fn decode_request(body: Json) -> (r: Result<ChatRequest, Error>)
    ensures
        error::outcome(r) == request_of(body@),
{
    if body.here().fields().is_none() {
        return Err(Error::invalid("Gemini request body must be a JSON object"));
    }
    let mut req = ChatRequest::new(body.at("model").string().as_str(), Dialect::Gemini);
    req.system = decode_system(body.at("system_instruction").at("parts"));
    req.messages = decode_turns(body.at("contents"));
    let gc = body.at("generationConfig");
    req.max_tokens = match gc.at("maxOutputTokens").uint() {
        Some(n) => Some((n % 0x1_0000_0000) as u32),
        None => None,
    };
    req.temperature = gc.at("temperature").float();
    req.top_p = gc.at("topP").float();
    if let Some(a) = gc.at("stopSequences").list() {
        req.stop_sequences = decode_texts(a);
    }
    req.tools = decode_tools(body.at("tools"));
    req.tool_choice = decode_choice(body.at("toolConfig").at("functionCallingConfig").at("mode").text());
    Ok(req)
}

// ------------------------------------------------------------- request out

pub open spec fn one_field(key: Seq<char>, v: Tree) -> Tree {
    Tree::Obj(json::fs().with(key, v))
}

fn obj1(key: &str, v: Json) -> (r: Json)
    ensures
        r@ == one_field(key@, v@),
{
    Fields::new().with(key, v).done()
}

pub open spec fn call_out(id: Seq<char>, name: Seq<char>, input: Tree) -> Tree {
    one_field(
        "functionCall"@,
        Tree::Obj(
            json::fs().with("id"@, json::st(id)).with("name"@, json::st(name)).with("args"@, input),
        ),
    )
}

fn encode_call(id: &str, name: &str, input: Json) -> (r: Json)
    ensures
        r@ == call_out(id@, name@, input@),
{
    obj1("functionCall", Fields::new().with("id", js(id)).with("name", js(name)).with("args", input).done())
}

/// The part of a block; some make none.
pub open spec fn part_out(b: BlockV) -> Option<Tree> {
    match b {
        BlockV::Text { text, .. } => Some(one_field("text"@, json::st(text))),
        BlockV::Image { source: SourceV::Base64 { media_type, data } } => Some(
            one_field(
                "inlineData"@,
                Tree::Obj(
                    json::fs().with("mimeType"@, json::st(media_type)).with("data"@, json::st(data)),
                ),
            ),
        ),
        BlockV::Image { source } => Some(one_field("text"@, json::st(ir::url_of_source(source)))),
        BlockV::ToolUse { id, name, input } => Some(call_out(id, name, input)),
        BlockV::ToolResult { tool_use_id, content, .. } => Some(
            one_field(
                "functionResponse"@,
                Tree::Obj(
                    json::fs().with("id"@, json::st(tool_use_id)).with("name"@, json::st(Seq::empty())).with(
                        "response"@,
                        one_field("text"@, json::st(text::joined(openai::result_texts(content), "\n"@))),
                    ),
                ),
            ),
        ),
        _ => None,
    }
}

fn encode_part(b: &ContentBlock) -> (r: Option<Json>)
    ensures
        views::opt(r) == part_out(b@),
{
    match b {
        ContentBlock::Text { text, .. } => Some(obj1("text", js(text.as_str()))),
        ContentBlock::Image { source: MediaSource::Base64 { media_type, data } } => Some(
            obj1(
                "inlineData",
                Fields::new().with("mimeType", js(media_type.as_str())).with("data", js(data.as_str())).done(),
            ),
        ),
        ContentBlock::Image { source } => Some(obj1("text", Json::Str(source.to_data_url()))),
        ContentBlock::ToolUse { id, name, input } => Some(
            encode_call(id.as_str(), name.as_str(), input.clone()),
        ),
        ContentBlock::ToolResult { tool_use_id, content, .. } => Some(
            obj1(
                "functionResponse",
                Fields::new().with("id", js(tool_use_id.as_str())).with("name", Json::Str(String::new())).with(
                    "response",
                    obj1("text", Json::Str(tool_result_text(content))),
                ).done(),
            ),
        ),
        _ => None,
    }
}

pub open spec fn parts_out(bs: Seq<BlockV>, i: int, acc: Seq<Tree>) -> Seq<Tree>
    decreases bs.len() - i,
{
    if i < 0 || i >= bs.len() {
        acc
    } else {
        match part_out(bs[i]) {
            Some(p) => parts_out(bs, i + 1, acc.push(p)),
            None => parts_out(bs, i + 1, acc),
        }
    }
}

pub open spec fn turn_out(m: MessageV) -> Tree {
    Tree::Obj(
        json::fs().with(
            "role"@,
            json::st(
                match m.role {
                    Role::User => "user"@,
                    Role::Assistant => "model"@,
                },
            ),
        ).with("parts"@, Tree::Arr(parts_out(m.content, 0, Seq::empty()))),
    )
}

fn encode_turn(m: &Message) -> (r: Json)
    ensures
        r@ == turn_out(m@),
{
    let role = match m.role {
        Role::User => "user",
        Role::Assistant => "model",
    };
    let ghost blocks = m@.content;
    let mut parts: Vec<Json> = Vec::new();
    for i in 0..m.content.len()
        invariant
            blocks == views::of(m.content@),
            parts_out(blocks, 0, Seq::empty()) == parts_out(blocks, i as int, views::of(parts@)),
    {
        assert(blocks[i as int] == m.content@[i as int]@);
        if let Some(p) = encode_part(&m.content[i]) {
            parts.push(p);
        }
    }
    Fields::new().with("role", js(role)).with("parts", array(parts)).done()
}

pub open spec fn turns_out(ms: Seq<MessageV>) -> Tree {
    Tree::Arr(Seq::new(ms.len(), |i: int| turn_out(ms[i])))
}

fn encode_turns(ms: &Vec<Message>) -> (r: Json)
    ensures
        r@ == turns_out(views::of(ms@)),
{
    let mut out: Vec<Json> = Vec::new();
    for i in 0..ms.len()
        invariant
            out@.len() == i,
            forall|j: int| 0 <= j < i ==> (#[trigger] out@[j])@ == turn_out(ms@[j]@),
    {
        let t = encode_turn(&ms[i]);
        out.push(t);
    }
    let r = array(out);
    assert(r@->Arr_0 =~= turns_out(views::of(ms@))->Arr_0);
    r
}

pub open spec fn system_out(s: Seq<SystemV>) -> Tree {
    Tree::Arr(Seq::new(s.len(), |i: int| one_field("text"@, json::st(s[i].text))))
}

fn encode_system(s: &Vec<SystemPart>) -> (r: Json)
    ensures
        r@ == system_out(views::of(s@)),
{
    let mut out: Vec<Json> = Vec::new();
    for i in 0..s.len()
        invariant
            out@.len() == i,
            forall|j: int| 0 <= j < i ==> (#[trigger] out@[j])@ == one_field("text"@, json::st(s@[j]@.text)),
    {
        let t = obj1("text", js(s[i].text.as_str()));
        out.push(t);
    }
    let r = array(out);
    assert(r@->Arr_0 =~= system_out(views::of(s@))->Arr_0);
    r
}

pub open spec fn declaration_out(t: ToolV) -> Tree {
    Tree::Obj(
        json::fs().with("name"@, json::st(t.name)).with(
            "description"@,
            json::st(
                match t.description {
                    Some(d) => d,
                    None => Seq::empty(),
                },
            ),
        ).with("parameters"@, t.input_schema),
    )
}

pub open spec fn declarations_out(ts: Seq<ToolV>) -> Tree {
    Tree::Arr(Seq::new(ts.len(), |i: int| declaration_out(ts[i])))
}

fn encode_declarations(ts: &Vec<ToolDef>) -> (r: Json)
    ensures
        r@ == declarations_out(views::of(ts@)),
{
    let mut out: Vec<Json> = Vec::new();
    for i in 0..ts.len()
        invariant
            out@.len() == i,
            forall|j: int| 0 <= j < i ==> (#[trigger] out@[j])@ == declaration_out(ts@[j]@),
    {
        let t: &ToolDef = &ts[i];
        let description = match &t.description {
            Some(d) => js(d.as_str()),
            None => Json::Str(String::new()),
        };
        let x = Fields::new().with("name", js(t.name.as_str())).with("description", description).with(
            "parameters",
            t.input_schema.clone(),
        ).done();
        assert(x@ == declaration_out(t@));
        out.push(x);
    }
    let r = array(out);
    assert(r@->Arr_0 =~= declarations_out(views::of(ts@))->Arr_0);
    r
}

pub open spec fn generation_config(req: RequestV) -> Seq<(Seq<char>, Tree)> {
    let m = match req.max_tokens {
        Some(n) => json::fs().set("maxOutputTokens"@, json::num(n as int)),
        None => json::fs(),
    };
    let m = match req.temperature {
        Some(t) => m.set("temperature"@, Tree::Float(t)),
        None => m,
    };
    let m = match req.top_p {
        Some(p) => m.set("topP"@, Tree::Float(p)),
        None => m,
    };
    if req.stop_sequences.len() > 0 {
        m.set("stopSequences"@, json::text_list(req.stop_sequences))
    } else {
        m
    }
}

fn encode_generation_config(req: &ChatRequest) -> (r: Fields)
    ensures
        r@ == generation_config(req@),
{
    let mut m = Fields::new();
    if let Some(n) = req.max_tokens {
        m.put("maxOutputTokens", Json::UInt(n as u64));
    }
    if let Some(t) = &req.temperature {
        m.put("temperature", Json::Float(t.clone()));
    }
    if let Some(p) = &req.top_p {
        m.put("topP", Json::Float(p.clone()));
    }
    if req.stop_sequences.len() > 0 {
        m.put("stopSequences", json::texts(&req.stop_sequences));
    }
    m
}

pub open spec fn mode_out(c: ChoiceV) -> Seq<char> {
    match c {
        ChoiceV::Auto => "AUTO"@,
        ChoiceV::NoTool => "NONE"@,
        ChoiceV::Any | ChoiceV::Specific { .. } => "ANY"@,
    }
}

/// The body for a request.
pub open spec fn request_body(req: RequestV, model: Seq<char>) -> Tree {
    let b = json::fs().set("model"@, json::st(model));
    let b = if req.system.len() > 0 {
        b.set("system_instruction"@, one_field("parts"@, system_out(req.system)))
    } else {
        b
    };
    let b = b.set("contents"@, turns_out(req.messages));
    let gc = generation_config(req);
    let b = if gc.len() > 0 { b.set("generationConfig"@, Tree::Obj(gc)) } else { b };
    let b = if req.tools.len() > 0 {
        b.set(
            "tools"@,
            Tree::Arr(Seq::empty().push(one_field("functionDeclarations"@, declarations_out(req.tools)))),
        )
    } else {
        b
    };
    let b = match req.tool_choice {
        Some(c) => b.set(
            "toolConfig"@,
            one_field("functionCallingConfig"@, one_field("mode"@, json::st(mode_out(c)))),
        ),
        None => b,
    };
    Tree::Obj(b)
}

/// Encode a request for a Gemini upstream. It never fails.
pub fn encode_request(req: &ChatRequest, upstream_model: &str) -> (r: Result<Json, Error>)
    ensures
        error::outcome(r) == Ok::<Tree, ErrorV>(request_body(req@, upstream_model@)),
{
    let mut body = Fields::new();
    body.put("model", js(upstream_model));
    if req.system.len() > 0 {
        body.put("system_instruction", obj1("parts", encode_system(&req.system)));
    }
    body.put("contents", encode_turns(&req.messages));
    let gc = encode_generation_config(req);
    if gc.list.len() > 0 {
        body.put("generationConfig", gc.done());
    }
    if req.tools.len() > 0 {
        body.put("tools", array1(obj1("functionDeclarations", encode_declarations(&req.tools))));
    }
    if let Some(c) = &req.tool_choice {
        let mode = match c {
            ToolChoice::Auto => "AUTO",
            ToolChoice::NoTool => "NONE",
            ToolChoice::Any | ToolChoice::Specific { .. } => "ANY",
        };
        body.put("toolConfig", obj1("functionCallingConfig", obj1("mode", js(mode))));
    }
    Ok(body.done())
}

// --------------------------------------------------------------- responses

/// The block of one part of an answer.
pub open spec fn answer_block(p: Tree) -> Option<BlockV> {
    match p.at("text"@).text() {
        Some(t) => Some(ir::text_block(t)),
        None => match p.at("functionCall"@) {
            Some(call) => Some(call_block(call)),
            None => None,
        },
    }
}

pub open spec fn answer_blocks(ps: Seq<Tree>, i: int, acc: Seq<BlockV>) -> Seq<BlockV>
    decreases ps.len() - i,
{
    if i < 0 || i >= ps.len() {
        acc
    } else {
        match answer_block(ps[i]) {
            Some(b) => answer_blocks(ps, i + 1, acc.push(b)),
            None => answer_blocks(ps, i + 1, acc),
        }
    }
}

pub open spec fn stop_reason(s: Seq<char>) -> StopReason {
    if s == "STOP"@ {
        StopReason::EndTurn
    } else if s == "MAX_TOKENS"@ {
        StopReason::MaxTokens
    } else if s == "SAFETY"@ {
        StopReason::Refusal
    } else {
        StopReason::Unknown
    }
}

fn decode_stop_reason(s: &str) -> (r: StopReason)
    ensures
        r == stop_reason(s@),
{
    if same(s, "STOP") {
        StopReason::EndTurn
    } else if same(s, "MAX_TOKENS") {
        StopReason::MaxTokens
    } else if same(s, "SAFETY") {
        StopReason::Refusal
    } else {
        StopReason::Unknown
    }
}

pub open spec fn usage_of(v: Option<Tree>) -> Usage {
    Usage {
        input_tokens: low_half_of(v.at("promptTokenCount"@)),
        output_tokens: low_half_of(v.at("candidatesTokenCount"@)),
        cache_read_tokens: 0,
        cache_write_tokens: 0,
        reasoning_tokens: low_half_of(v.at("thoughtsTokenCount"@)),
    }
}

fn decode_usage(v: At<'_>) -> (r: Usage)
    ensures
        r == usage_of(v@),
{
    Usage {
        input_tokens: counter(v.at("promptTokenCount")),
        output_tokens: counter(v.at("candidatesTokenCount")),
        cache_read_tokens: 0,
        cache_write_tokens: 0,
        reasoning_tokens: counter(v.at("thoughtsTokenCount")),
    }
}

pub open spec fn first_candidate(body: Tree) -> Option<Tree> {
    match body.at("candidates"@).list() {
        Some(cs) => if cs.len() > 0 { Some(cs[0]) } else { None },
        None => None,
    }
}

fn first_candidate_of(body: &Json) -> (r: At<'_>)
    ensures
        r@ == first_candidate(body@),
{
    match body.at("candidates").list() {
        Some(cs) => if cs.len() > 0 {
            assert(views::of(cs@)[0] == cs@[0]@);
            cs[0].here()
        } else {
            At { v: None }
        },
        None => At { v: None },
    }
}

pub open spec fn response_of(body: Tree) -> Result<ResponseV, ErrorV> {
    match body.at("error"@) {
        Some(err) => Err(ErrorV::BadUpstreamPayload(err.at("message"@).text_or("unknown Gemini error"@))),
        None => {
            let candidate = first_candidate(body);
            Ok(
                ResponseV {
                    id: body.at("id"@).text_or("gemini_unknown"@),
                    model: body.at("model"@).text_or(Seq::empty()),
                    content: match candidate.at("content"@).at("parts"@).list() {
                        Some(ps) => answer_blocks(ps, 0, Seq::empty()),
                        None => Seq::empty(),
                    },
                    stop_reason: stop_reason(candidate.at("finishReason"@).text_or(Seq::empty())),
                    stop_sequence: None,
                    usage: usage_of(body.at("usageMetadata"@)),
                    passthrough: json::fs(),
                },
            )
        },
    }
}

/// Decode an answer.
pub fn decode_response(body: Json) -> (r: Result<ChatResponse, Error>)
    ensures
        error::outcome(r) == response_of(body@),
{
    let err = body.at("error");
    if err.is_some() {
        return Err(Error::BadUpstreamPayload(err.at("message").string_or("unknown Gemini error")));
    }
    let candidate = first_candidate_of(&body);
    let mut content: Vec<ContentBlock> = Vec::new();
    if let Some(ps) = candidate.at("content").at("parts").list() {
        let ghost trees = views::of(ps@);
        for i in 0..ps.len()
            invariant
                trees == views::of(ps@),
                answer_blocks(trees, 0, Seq::empty()) == answer_blocks(trees, i as int, views::of(content@)),
        {
            assert(trees[i as int] == ps@[i as int]@);
            if let Some(t) = ps[i].at("text").text() {
                content.push(ContentBlock::text(t));
            } else {
                let call = ps[i].at("functionCall");
                if call.is_some() {
                    content.push(decode_call(call));
                }
            }
        }
    }
    Ok(
        ChatResponse {
            id: body.at("id").string_or("gemini_unknown"),
            model: body.at("model").string(),
            content,
            stop_reason: decode_stop_reason(candidate.at("finishReason").string().as_str()),
            stop_sequence: None,
            usage: decode_usage(body.at("usageMetadata")),
            passthrough: Fields::new(),
        },
    )
}

pub open spec fn answer_part(b: BlockV) -> Option<Tree> {
    match b {
        BlockV::Text { text, .. } => Some(one_field("text"@, json::st(text))),
        BlockV::ToolUse { id, name, input } => Some(call_out(id, name, input)),
        _ => None,
    }
}

pub open spec fn answer_parts(bs: Seq<BlockV>, i: int, acc: Seq<Tree>) -> Seq<Tree>
    decreases bs.len() - i,
{
    if i < 0 || i >= bs.len() {
        acc
    } else {
        match answer_part(bs[i]) {
            Some(p) => answer_parts(bs, i + 1, acc.push(p)),
            None => answer_parts(bs, i + 1, acc),
        }
    }
}

pub open spec fn finish_reason(r: StopReason) -> Seq<char> {
    match r {
        StopReason::MaxTokens => "MAX_TOKENS"@,
        StopReason::Refusal => "SAFETY"@,
        _ => "STOP"@,
    }
}

pub open spec fn usage_out(u: Usage) -> Tree {
    Tree::Obj(
        json::fs().with("promptTokenCount"@, json::num(u.input_tokens as int)).with(
            "candidatesTokenCount"@,
            json::num(u.output_tokens as int),
        ).with("totalTokenCount"@, json::num(u.input_tokens + u.output_tokens)).with(
            "thoughtsTokenCount"@,
            json::num(u.reasoning_tokens as int),
        ),
    )
}

fn encode_usage(u: &Usage) -> (r: Json)
    ensures
        r@ == usage_out(*u),
{
    Fields::new().with("promptTokenCount", Json::UInt(u.input_tokens as u64)).with(
        "candidatesTokenCount",
        Json::UInt(u.output_tokens as u64),
    ).with("totalTokenCount", Json::UInt(u.total())).with(
        "thoughtsTokenCount",
        Json::UInt(u.reasoning_tokens as u64),
    ).done()
}

pub open spec fn model_content(parts: Seq<Tree>) -> Tree {
    Tree::Obj(json::fs().with("role"@, json::st("model"@)).with("parts"@, Tree::Arr(parts)))
}

fn encode_content(parts: Vec<Json>) -> (r: Json)
    ensures
        r@ == model_content(views::of(parts@)),
{
    Fields::new().with("role", js("model")).with("parts", array(parts)).done()
}

pub open spec fn response_body(resp: ResponseV) -> Tree {
    Tree::Obj(
        json::fs().with(
            "candidates"@,
            Tree::Arr(
                Seq::empty().push(
                    Tree::Obj(
                        json::fs().with(
                            "content"@,
                            model_content(answer_parts(resp.content, 0, Seq::empty())),
                        ).with("finishReason"@, json::st(finish_reason(resp.stop_reason))),
                    ),
                ),
            ),
        ).with("usageMetadata"@, usage_out(resp.usage)),
    )
}

/// Encode an answer.
pub fn encode_response(resp: &ChatResponse) -> (r: Json)
    ensures
        r@ == response_body(resp@),
{
    let ghost blocks = resp@.content;
    let mut parts: Vec<Json> = Vec::new();
    for i in 0..resp.content.len()
        invariant
            blocks == views::of(resp.content@),
            answer_parts(blocks, 0, Seq::empty()) == answer_parts(blocks, i as int, views::of(parts@)),
    {
        assert(blocks[i as int] == resp.content@[i as int]@);
        match &resp.content[i] {
            ContentBlock::Text { text, .. } => parts.push(obj1("text", js(text.as_str()))),
            ContentBlock::ToolUse { id, name, input } => parts.push(
                encode_call(id.as_str(), name.as_str(), input.clone()),
            ),
            _ => {},
        }
    }
    let reason = match resp.stop_reason {
        StopReason::MaxTokens => "MAX_TOKENS",
        StopReason::Refusal => "SAFETY",
        _ => "STOP",
    };
    Fields::new().with(
        "candidates",
        array1(Fields::new().with("content", encode_content(parts)).with("finishReason", js(reason)).done()),
    ).with("usageMetadata", encode_usage(&resp.usage)).done()
}

// --------------------------------------------------------------- stream in

pub struct GeminiStreamParser {
    pub model: String,
    pub started: bool,
    pub stopped: bool,
    pub usage: Usage,
}

pub struct ParserV {
    pub model: Seq<char>,
    pub started: bool,
    pub stopped: bool,
    pub usage: Usage,
}

impl View for GeminiStreamParser {
    type V = ParserV;

    open spec fn view(&self) -> ParserV {
        ParserV { model: self.model@, started: self.started, stopped: self.stopped, usage: self.usage }
    }
}

pub open spec fn fresh_parser(model: Seq<char>) -> ParserV {
    ParserV { model, started: false, stopped: false, usage: ir::no_usage() }
}

/// A parser after a frame, with the events of the frame.
pub struct Step {
    pub p: ParserV,
    pub out: Seq<EventV>,
}

/// The events of one part.
pub open spec fn part_events(out: Seq<EventV>, p: Tree) -> Seq<EventV> {
    match p.at("text"@).text() {
        Some(text) => out.push(EventV::TextDelta { index: 0, text }),
        None => match p.at("functionCall"@) {
            Some(call) => {
                let o = out.push(
                    EventV::ToolUseStart {
                        index: 0,
                        id: call.at("id"@).text_or(Seq::empty()),
                        name: call.at("name"@).text_or(Seq::empty()),
                    },
                );
                match call.at("args"@) {
                    Some(args) => o.push(EventV::ToolUseDelta { index: 0, partial_json: json::rendered(args) }),
                    None => o,
                }
            },
            None => out,
        },
    }
}

pub open spec fn parts_events(out: Seq<EventV>, ps: Seq<Tree>, i: int) -> Seq<EventV>
    decreases ps.len() - i,
{
    if i < 0 || i >= ps.len() {
        out
    } else {
        parts_events(part_events(out, ps[i]), ps, i + 1)
    }
}

pub open spec fn stop_event(usage: Usage) -> EventV {
    EventV::Stop { stop_reason: StopReason::EndTurn, stop_sequence: None, usage }
}

/// One snapshot; `id` names the stream where it starts.
pub open spec fn push_value(p: ParserV, v: Tree, id: Seq<char>) -> Step {
    let candidate = first_candidate(v);
    let out = if p.started {
        Seq::empty()
    } else {
        Seq::empty().push(EventV::Start { id, model: p.model, usage: p.usage })
    };
    let out = match candidate.at("content"@).at("parts"@).list() {
        Some(ps) => parts_events(out, ps, 0),
        None => out,
    };
    let stops = candidate.at("finishReason"@) is Some;
    Step {
        p: ParserV {
            model: p.model,
            started: true,
            stopped: p.stopped || stops,
            usage: if v.at("usageMetadata"@) is Some { usage_of(v.at("usageMetadata"@)) } else { p.usage },
        },
        out: if stops { out.push(stop_event(p.usage)) } else { out },
    }
}

/// One frame; `id` names the stream where it starts.
pub open spec fn push_frame(p: ParserV, frame: FrameV, id: Seq<char>) -> Result<Step, ErrorV> {
    let data = text::trimmed(frame.data);
    if data.len() == 0 || data == "[DONE]"@ {
        Ok(Step { p, out: Seq::empty() })
    } else {
        match json::parsed(data) {
            Ok(v) => Ok(push_value(p, v, id)),
            Err(e) => Err(ErrorV::BadUpstreamPayload("bad Gemini SSE: "@ + e + ": "@ + data)),
        }
    }
}

/// The end of the body: a stop that did not come is made up for.
pub open spec fn finished(p: ParserV) -> Step {
    if p.started && !p.stopped {
        Step { p: ParserV { stopped: true, ..p }, out: Seq::empty().push(stop_event(p.usage)) }
    } else {
        Step { p, out: Seq::empty() }
    }
}

/// A stream stops once: what ended does not end again.
pub proof fn finishing_twice_adds_nothing(p: ParserV)
    ensures
        finished(finished(p).p).out == Seq::<EventV>::empty(),
        finished(finished(p).p).p == finished(p).p,
{
}

/// What became of a parser that took a frame, and what it gave back.
pub open spec fn pushed(
    before: ParserV,
    after: ParserV,
    frame: FrameV,
    id: Seq<char>,
    r: Result<Vec<StreamEvent>, Error>,
) -> bool {
    match r {
        Ok(out) => push_frame(before, frame, id) == Ok::<Step, ErrorV>(Step { p: after, out: views::of(out@) }),
        Err(e) => push_frame(before, frame, id) == Err::<Step, ErrorV>(e@) && after == before,
    }
}

/// The same, where a stream that starts got a fresh name.
pub open spec fn pushed_fresh(
    before: ParserV,
    after: ParserV,
    frame: FrameV,
    r: Result<Vec<StreamEvent>, Error>,
) -> bool {
    exists|id: Seq<char>| #[trigger] pushed(before, after, frame, id, r) && draw::is_fresh_id(id, "gemini-"@)
}

fn encode_part_events(p: &Json, out: &mut Vec<StreamEvent>)
    ensures
        views::of(final(out)@) == part_events(views::of(old(out)@), p@),
{
    if let Some(t) = p.at("text").text() {
        out.push(StreamEvent::TextDelta { index: 0, text: t.to_owned() });
        return;
    }
    let call = p.at("functionCall");
    if call.is_some() {
        out.push(StreamEvent::ToolUseStart { index: 0, id: call.at("id").string(), name: call.at("name").string() });
        if let Some(args) = call.at("args").v {
            out.push(StreamEvent::ToolUseDelta { index: 0, partial_json: json::render(args) });
        }
    }
}

impl GeminiStreamParser {
    pub fn new(model: &str) -> (r: Self)
        ensures
            r@ == fresh_parser(model@),
    {
        GeminiStreamParser { model: model.to_owned(), started: false, stopped: false, usage: Usage::default() }
    }

    fn push_value(&mut self, v: &Json, id: &str) -> (r: Vec<StreamEvent>)
        ensures
            (Step { p: final(self)@, out: views::of(r@) }) == push_value(old(self)@, v@, id@),
    {
        let mut out: Vec<StreamEvent> = Vec::new();
        if !self.started {
            self.started = true;
            out.push(StreamEvent::Start { id: id.to_owned(), model: self.model.clone(), usage: self.usage });
        }
        let candidate = first_candidate_of(v);
        if let Some(ps) = candidate.at("content").at("parts").list() {
            let ghost trees = views::of(ps@);
            let ghost start = views::of(out@);
            for i in 0..ps.len()
                invariant
                    trees == views::of(ps@),
                    parts_events(start, trees, 0) == parts_events(views::of(out@), trees, i as int),
            {
                assert(trees[i as int] == ps@[i as int]@);
                encode_part_events(&ps[i], &mut out);
            }
        }
        if candidate.at("finishReason").is_some() {
            self.stopped = true;
            out.push(StreamEvent::Stop { stop_reason: StopReason::EndTurn, stop_sequence: None, usage: self.usage });
        }
        if v.at("usageMetadata").is_some() {
            self.usage = decode_usage(v.at("usageMetadata"));
        }
        out
    }

    /// One frame; `id` names the stream where it starts.
    pub fn push_with_id(&mut self, frame: &SseFrame, id: &str) -> (r: Result<Vec<StreamEvent>, Error>)
        ensures
            pushed(old(self)@, final(self)@, frame@, id@, r),
    {
        let data = trim(frame.data.as_str());
        if data.unicode_len() == 0 || same(data, "[DONE]") {
            return Ok(Vec::new());
        }
        match json::parse(data) {
            Ok(v) => Ok(self.push_value(&v, id)),
            Err(e) => {
                let mut m = concat3("bad Gemini SSE: ", e.as_str(), ": ");
                m.append(data);
                Err(Error::BadUpstreamPayload(m))
            },
        }
    }
}

impl StreamParser for GeminiStreamParser {
    /// One frame. A stream gets a fresh name where it starts.
    fn push(&mut self, frame: &SseFrame) -> (r: Result<Vec<StreamEvent>, Error>)
        ensures
            pushed_fresh(old(self)@, final(self)@, frame@, r),
    {
        let id = draw::fresh_id("gemini-");
        let r = self.push_with_id(frame, id.as_str());
        assert(pushed(old(self)@, self@, frame@, id@, r));
        r
    }

    fn finish(&mut self) -> (r: Vec<StreamEvent>)
        ensures
            (Step { p: final(self)@, out: views::of(r@) }) == finished(old(self)@),
    {
        let mut out: Vec<StreamEvent> = Vec::new();
        if self.started && !self.stopped {
            self.stopped = true;
            out.push(StreamEvent::Stop { stop_reason: StopReason::EndTurn, stop_sequence: None, usage: self.usage });
        }
        out
    }
}

// -------------------------------------------------------------- stream out

pub struct GeminiStreamEncoder {
    pub model: String,
    pub done: bool,
}

pub struct EncoderV {
    pub model: Seq<char>,
    pub done: bool,
}

impl View for GeminiStreamEncoder {
    type V = EncoderV;

    open spec fn view(&self) -> EncoderV {
        EncoderV { model: self.model@, done: self.done }
    }
}

/// An encoder with the frames that it has put out.
pub struct Written {
    pub e: EncoderV,
    pub out: Seq<FrameV>,
}

pub open spec fn data_frame(t: Tree) -> FrameV {
    FrameV { event: None, data: json::rendered(t) }
}

/// A snapshot with one part.
pub open spec fn part_frame(part: Tree) -> FrameV {
    data_frame(
        one_field(
            "candidates"@,
            Tree::Arr(Seq::empty().push(one_field("content"@, model_content(Seq::empty().push(part))))),
        ),
    )
}

/// The candidate of the last snapshot.
pub open spec fn last_candidates() -> Tree {
    Tree::Arr(
        Seq::empty().push(
            Tree::Obj(
                json::fs().with("content"@, model_content(Seq::empty())).with("finishReason"@, json::st("STOP"@)),
            ),
        ),
    )
}

pub open spec fn delta_args(partial: Seq<char>) -> Tree {
    match json::parsed(partial) {
        Ok(t) => t,
        Err(_) => one_field("__raw"@, json::st(partial)),
    }
}

/// One event.
pub open spec fn encoded_event(e: EncoderV, ev: EventV) -> Written {
    match ev {
        EventV::Start { model, .. } => Written { e: EncoderV { model, ..e }, out: Seq::empty() },
        EventV::TextDelta { text, .. } => Written {
            e,
            out: Seq::empty().push(part_frame(one_field("text"@, json::st(text)))),
        },
        EventV::ToolUseStart { id, name, .. } => Written {
            e,
            out: Seq::empty().push(part_frame(call_out(id, name, Tree::Obj(json::fs())))),
        },
        EventV::ToolUseDelta { index, partial_json } => Written {
            e,
            out: Seq::empty().push(
                part_frame(
                    call_out("call_"@ + text::digits(index as nat), Seq::empty(), delta_args(partial_json)),
                ),
            ),
        },
        EventV::Stop { usage, .. } => Written {
            e: EncoderV { done: true, ..e },
            out: Seq::empty().push(
                data_frame(
                    Tree::Obj(
                        json::fs().with("candidates"@, last_candidates()).with("usageMetadata"@, usage_out(usage)),
                    ),
                ),
            ),
        },
        _ => Written { e, out: Seq::empty() },
    }
}

/// The end of the stream: once, and only where no stop came.
pub open spec fn encoded_finish(e: EncoderV) -> Written {
    if e.done {
        Written { e, out: Seq::empty() }
    } else {
        Written {
            e: EncoderV { done: true, ..e },
            out: Seq::empty().push(data_frame(one_field("candidates"@, last_candidates()))),
        }
    }
}

fn frames1(t: Json) -> (r: Vec<SseFrame>)
    ensures
        views::of(r@) == Seq::empty().push(data_frame(t@)),
{
    let mut out: Vec<SseFrame> = Vec::new();
    out.push(SseFrame { event: None, data: json::render(&t) });
    out
}

fn encode_part_frame(part: Json) -> (r: Vec<SseFrame>)
    ensures
        views::of(r@) == Seq::empty().push(part_frame(part@)),
{
    let mut parts: Vec<Json> = Vec::new();
    parts.push(part);
    frames1(obj1("candidates", array1(obj1("content", encode_content(parts)))))
}

fn encode_last_candidates() -> (r: Json)
    ensures
        r@ == last_candidates(),
{
    let parts: Vec<Json> = Vec::new();
    array1(Fields::new().with("content", encode_content(parts)).with("finishReason", js("STOP")).done())
}

impl GeminiStreamEncoder {
    pub fn new(model: &str) -> (r: Self)
        ensures
            r@ == (EncoderV { model: model@, done: false }),
    {
        GeminiStreamEncoder { model: model.to_owned(), done: false }
    }
}

impl StreamEncoder for GeminiStreamEncoder {
    fn encode(&mut self, event: &StreamEvent) -> (r: Vec<SseFrame>)
        ensures
            (Written { e: final(self)@, out: views::of(r@) }) == encoded_event(old(self)@, event@),
    {
        match event {
            StreamEvent::Start { model, .. } => {
                self.model = model.clone();
                Vec::new()
            },
            StreamEvent::TextDelta { text, .. } => encode_part_frame(obj1("text", js(text.as_str()))),
            StreamEvent::ToolUseStart { id, name, .. } => encode_part_frame(
                encode_call(id.as_str(), name.as_str(), Fields::new().done()),
            ),
            StreamEvent::ToolUseDelta { index, partial_json } => {
                let args = match json::parse(partial_json.as_str()) {
                    Ok(v) => v,
                    Err(_) => obj1("__raw", js(partial_json.as_str())),
                };
                let id = concat("call_", decimal(*index as u64).as_str());
                encode_part_frame(encode_call(id.as_str(), String::new().as_str(), args))
            },
            StreamEvent::Stop { usage, .. } => {
                self.done = true;
                frames1(
                    Fields::new().with("candidates", encode_last_candidates()).with(
                        "usageMetadata",
                        encode_usage(usage),
                    ).done(),
                )
            },
            _ => Vec::new(),
        }
    }

    fn finish(&mut self) -> (r: Vec<SseFrame>)
        ensures
            (Written { e: final(self)@, out: views::of(r@) }) == encoded_finish(old(self)@),
    {
        if self.done {
            return Vec::new();
        }
        self.done = true;
        frames1(obj1("candidates", encode_last_candidates()))
    }

    fn error(&mut self, err: &Error) -> (r: Vec<SseFrame>)
        ensures
            views::of(r@) == Seq::empty().push(
                data_frame(one_field("error"@, err@.wire(Dialect::Gemini))),
            ),
            final(self)@ == (EncoderV { done: true, ..old(self)@ }),
    {
        self.done = true;
        frames1(obj1("error", err.to_wire(Dialect::Gemini)))
    }
}

} // verus!
