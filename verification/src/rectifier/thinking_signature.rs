//! Rectifier for Anthropic thinking-signature errors.
//!
//! When a request carries a thinking block that is stale, malformed or out of
//! place, the provider rejects it with a signature validation error. The fix is
//! to strip the offending thinking/redacted-thinking blocks and their signature
//! fields so the same provider can accept the repaired request.

use crate::error::{Error, ErrorV};
use crate::json;
use crate::json::{array, Json, Lookup, Tree};
use crate::rectifier;
use crate::rectifier::{error_text, Rectifier, RectifyResult, Repair};
use crate::text;
use crate::text::contains;
use crate::views;
use vstd::prelude::*;

verus! {

broadcast use crate::views::group_views;

#[derive(Debug, Clone, Copy, PartialEq, Eq, Structural)]
pub struct ThinkingSignatureRectifier;

pub open spec fn is_thinking(b: Tree) -> bool {
    let kind = b.at("type"@).text();
    kind == Some("thinking"@) || kind == Some("redacted_thinking"@)
}

pub open spec fn without_signature(b: Tree) -> Tree {
    if b.at("signature"@) is Some {
        b.without_field("signature"@)
    } else {
        b
    }
}

/// Blocks kept so far, and whether any was dropped or changed.
pub struct Kept {
    pub items: Seq<Tree>,
    pub touched: bool,
}

/// The blocks that are no thinking, without signatures.
pub open spec fn clean_blocks(k: Kept, bs: Seq<Tree>, i: int) -> Kept
    decreases bs.len() - i,
{
    if i < 0 || i >= bs.len() {
        k
    } else if is_thinking(bs[i]) {
        clean_blocks(Kept { touched: true, ..k }, bs, i + 1)
    } else {
        clean_blocks(
            Kept {
                items: k.items.push(without_signature(bs[i])),
                touched: k.touched || bs[i].at("signature"@) is Some,
            },
            bs,
            i + 1,
        )
    }
}

pub open spec fn nothing_kept() -> Kept {
    Kept { items: Seq::empty(), touched: false }
}

pub open spec fn clean_message(m: Tree) -> Tree {
    match m.at("content"@).list() {
        Some(bs) => m.with_field("content"@, Tree::Arr(clean_blocks(nothing_kept(), bs, 0).items)),
        None => m,
    }
}

pub open spec fn message_touched(m: Tree) -> bool {
    match m.at("content"@).list() {
        Some(bs) => clean_blocks(nothing_kept(), bs, 0).touched,
        None => false,
    }
}

pub open spec fn clean_messages(k: Kept, ms: Seq<Tree>, i: int) -> Kept
    decreases ms.len() - i,
{
    if i < 0 || i >= ms.len() {
        k
    } else {
        clean_messages(
            Kept { items: k.items.push(clean_message(ms[i])), touched: k.touched || message_touched(ms[i]) },
            ms,
            i + 1,
        )
    }
}

/// The last assistant message before `i`.
pub open spec fn last_assistant(ms: Seq<Tree>, i: int) -> Option<Tree>
    decreases i,
{
    if i <= 0 || i > ms.len() {
        None
    } else if ms[i - 1].at("role"@).text() == Some("assistant"@) {
        Some(ms[i - 1])
    } else {
        last_assistant(ms, i - 1)
    }
}

pub open spec fn starts_with_thinking(m: Tree) -> bool {
    match m.at("content"@).list() {
        Some(bs) => bs.len() > 0 && bs[0].at("type"@).text() == Some("thinking"@),
        None => false,
    }
}

/// Thinking is on, but the last assistant message does not start with it.
pub open spec fn thinking_misplaced(body: Tree) -> bool {
    body.at("thinking"@).at("type"@).text() == Some("enabled"@) && match body.at("messages"@).list() {
        Some(ms) => match last_assistant(ms, ms.len() as int) {
            Some(m) => !starts_with_thinking(m),
            None => false,
        },
        None => false,
    }
}

/// The body with its messages cleaned.
pub open spec fn cleaned(body: Tree) -> Tree {
    match body.at("messages"@).list() {
        Some(ms) => body.with_field("messages"@, Tree::Arr(clean_messages(nothing_kept(), ms, 0).items)),
        None => body,
    }
}

pub open spec fn body_touched(body: Tree) -> bool {
    match body.at("messages"@).list() {
        Some(ms) => clean_messages(nothing_kept(), ms, 0).touched,
        None => false,
    }
}

/// What becomes of a body.
pub open spec fn without_thinking(body: Tree) -> Repair {
    let b = cleaned(body);
    let applied = body_touched(body) || thinking_misplaced(b);
    Repair {
        body: if thinking_misplaced(b) { b.without_field("thinking"@) } else { b },
        applied,
        details: if applied {
            "removed thinking/redacted_thinking blocks and signatures"@
        } else {
            "no thinking signature content to repair"@
        },
    }
}

/// None of the blocks is thinking.
pub open spec fn no_thinking(bs: Seq<Tree>) -> bool {
    forall|j: int| 0 <= j < bs.len() ==> !is_thinking(#[trigger] bs[j])
}

proof fn clean_blocks_hold_no_thinking(k: Kept, bs: Seq<Tree>, i: int)
    requires
        0 <= i <= bs.len(),
        no_thinking(k.items),
        forall|j: int| 0 <= j < bs.len() ==> kind_survives(#[trigger] bs[j]),
    ensures
        no_thinking(clean_blocks(k, bs, i).items),
    decreases bs.len() - i,
{
    if i < bs.len() {
        assert(kind_survives(bs[i]));
        if is_thinking(bs[i]) {
            clean_blocks_hold_no_thinking(Kept { touched: true, ..k }, bs, i + 1);
        } else {
            let next = Kept {
                items: k.items.push(without_signature(bs[i])),
                touched: k.touched || bs[i].at("signature"@) is Some,
            };
            clean_blocks_hold_no_thinking(next, bs, i + 1);
        }
    }
}

/// Taking the signature out of a block leaves its type alone, as where no field is named twice.
pub open spec fn kind_survives(b: Tree) -> bool {
    without_signature(b).at("type"@) == b.at("type"@)
}

/// A repaired message holds no thinking.
pub proof fn repaired_content_holds_no_thinking(bs: Seq<Tree>)
    requires
        forall|j: int| 0 <= j < bs.len() ==> kind_survives(#[trigger] bs[j]),
    ensures
        no_thinking(clean_blocks(nothing_kept(), bs, 0).items),
{
    clean_blocks_hold_no_thinking(nothing_kept(), bs, 0);
}

/// Nothing is left to take out of the blocks.
pub open spec fn settled(bs: Seq<Tree>) -> bool {
    forall|j: int| 0 <= j < bs.len() ==> !is_thinking(#[trigger] bs[j]) && bs[j].at("signature"@) is None
}

/// No block names a field twice.
pub open spec fn blocks_named_once(bs: Seq<Tree>) -> bool {
    forall|j: int| 0 <= j < bs.len() ==> ((#[trigger] bs[j]) matches Tree::Obj(m) ==> json::named_once(m))
}

/// Neither the body nor any block in its messages names a field twice.
pub open spec fn fields_named_once(body: Tree) -> bool {
    &&& body matches Tree::Obj(m) ==> json::named_once(m)
    &&& body.at("messages"@).list() matches Some(ms) ==> forall|i: int|
        0 <= i < ms.len() ==> ((#[trigger] ms[i]).at("content"@).list() matches Some(bs) ==> blocks_named_once(bs))
}

proof fn unsigned_is_unsigned(b: Tree)
    requires
        b matches Tree::Obj(m) ==> json::named_once(m),
    ensures
        without_signature(b).at("signature"@) is None,
        is_thinking(without_signature(b)) == is_thinking(b),
{
    if let Tree::Obj(m) = b {
        reveal_strlit("type");
        reveal_strlit("signature");
        assert("type"@.len() != "signature"@.len());
        json::without_shows(m, "signature"@, "type"@);
    }
}

proof fn clean_blocks_are_settled(k: Kept, bs: Seq<Tree>, i: int)
    requires
        0 <= i <= bs.len(),
        settled(k.items),
        blocks_named_once(bs),
    ensures
        settled(clean_blocks(k, bs, i).items),
    decreases bs.len() - i,
{
    if i < bs.len() {
        unsigned_is_unsigned(bs[i]);
        let next = if is_thinking(bs[i]) {
            Kept { touched: true, ..k }
        } else {
            Kept {
                items: k.items.push(without_signature(bs[i])),
                touched: k.touched || bs[i].at("signature"@) is Some,
            }
        };
        clean_blocks_are_settled(next, bs, i + 1);
    }
}

proof fn settled_blocks_stay(k: Kept, bs: Seq<Tree>, i: int)
    requires
        0 <= i <= bs.len(),
        settled(bs),
    ensures
        clean_blocks(k, bs, i) == (Kept { items: k.items + bs.skip(i), touched: k.touched }),
    decreases bs.len() - i,
{
    if i < bs.len() {
        settled_blocks_stay(Kept { items: k.items.push(bs[i]), ..k }, bs, i + 1);
        assert(k.items.push(bs[i]) + bs.skip(i + 1) =~= k.items + bs.skip(i));
    } else {
        assert(k.items + bs.skip(i) =~= k.items);
    }
}

/// A message that cleaning would leave alone.
spec fn settled_message(m: Tree) -> bool {
    m.at("content"@).list() matches Some(bs) ==> settled(bs)
}

spec fn settled_messages(ms: Seq<Tree>) -> bool {
    forall|j: int| 0 <= j < ms.len() ==> settled_message(#[trigger] ms[j])
}

proof fn clean_messages_are_settled(k: Kept, ms: Seq<Tree>, i: int)
    requires
        0 <= i <= ms.len(),
        settled_messages(k.items),
        forall|j: int|
            0 <= j < ms.len() ==> ((#[trigger] ms[j]).at("content"@).list() matches Some(bs) ==> blocks_named_once(
                bs,
            )),
    ensures
        settled_messages(clean_messages(k, ms, i).items),
    decreases ms.len() - i,
{
    if i < ms.len() {
        let m = ms[i];
        let c = clean_message(m);
        assert(settled_message(c)) by {
            if let Some(bs) = m.at("content"@).list() {
                clean_blocks_are_settled(nothing_kept(), bs, 0);
                json::set_is_found(
                    m->Obj_0,
                    "content"@,
                    Tree::Arr(clean_blocks(nothing_kept(), bs, 0).items),
                    "content"@,
                );
            }
        }
        let next = Kept { items: k.items.push(c), touched: k.touched || message_touched(m) };
        assert forall|j: int| 0 <= j < next.items.len() implies settled_message(#[trigger] next.items[j]) by {
            if j < k.items.len() {
                assert(next.items[j] == k.items[j]);
            }
        }
        clean_messages_are_settled(next, ms, i + 1);
    }
}

proof fn settled_messages_stay(k: Kept, ms: Seq<Tree>, i: int)
    requires
        0 <= i <= ms.len(),
        settled_messages(ms),
    ensures
        clean_messages(k, ms, i) == (Kept { items: k.items + ms.skip(i), touched: k.touched }),
    decreases ms.len() - i,
{
    if i < ms.len() {
        let m = ms[i];
        assert(settled_message(m));
        if let Some(bs) = m.at("content"@).list() {
            settled_blocks_stay(nothing_kept(), bs, 0);
            assert(Seq::<Tree>::empty() + bs.skip(0) =~= bs);
            json::same_value_stays(m->Obj_0, "content"@, Tree::Arr(bs));
        }
        assert(clean_message(m) == m && !message_touched(m));
        settled_messages_stay(Kept { items: k.items.push(m), ..k }, ms, i + 1);
        assert(k.items.push(m) + ms.skip(i + 1) =~= k.items + ms.skip(i));
    } else {
        assert(k.items + ms.skip(i) =~= k.items);
    }
}

proof fn cleaned_stays(body: Tree)
    requires
        fields_named_once(body),
    ensures
        cleaned(cleaned(body)) == cleaned(body),
        !body_touched(cleaned(body)),
{
    if let Some(ms) = body.at("messages"@).list() {
        let m = body->Obj_0;
        let items = clean_messages(nothing_kept(), ms, 0).items;
        clean_messages_are_settled(nothing_kept(), ms, 0);
        json::set_is_found(m, "messages"@, Tree::Arr(items), "messages"@);
        settled_messages_stay(nothing_kept(), items, 0);
        assert(Seq::<Tree>::empty() + items.skip(0) =~= items);
        json::same_value_stays(json::put(m, "messages"@, Tree::Arr(items)), "messages"@, Tree::Arr(items));
    }
}

/// A repaired body has nothing left to repair: a second run changes nothing, and says
/// so.
pub proof fn second_repair_changes_nothing(body: Tree)
    requires
        fields_named_once(body),
    ensures
        without_thinking(without_thinking(body).body).body == without_thinking(body).body,
        !without_thinking(without_thinking(body).body).applied,
{
    let b = cleaned(body);
    cleaned_stays(body);
    if thinking_misplaced(b) {
        let m = b->Obj_0;
        reveal_strlit("thinking");
        reveal_strlit("messages");
        assert("thinking"@ != "messages"@) by {
            assert("thinking"@[0] != "messages"@[0]);
        }
        assert(body.at("messages"@).list() is Some);
        let ms = body.at("messages"@).list()->0;
        let items = clean_messages(nothing_kept(), ms, 0).items;
        json::put_names_once(body->Obj_0, "messages"@, Tree::Arr(items));
        json::without_shows(m, "thinking"@, "messages"@);
        let gone = json::without(m, "thinking"@);
        clean_messages_are_settled(nothing_kept(), ms, 0);
        json::set_is_found(body->Obj_0, "messages"@, Tree::Arr(items), "messages"@);
        settled_messages_stay(nothing_kept(), items, 0);
        assert(Seq::<Tree>::empty() + items.skip(0) =~= items);
        json::same_value_stays(gone, "messages"@, Tree::Arr(items));
    }
}

fn clean_block_list(bs: &Vec<Json>) -> (r: (Vec<Json>, bool))
    ensures
        clean_blocks(nothing_kept(), views::of(bs@), 0) == (Kept { items: views::of(r.0@), touched: r.1 }),
{
    let ghost trees = views::of(bs@);
    let mut out: Vec<Json> = Vec::new();
    let mut touched = false;
    for i in 0..bs.len()
        invariant
            trees == views::of(bs@),
            clean_blocks(nothing_kept(), trees, 0) == clean_blocks(
                (Kept { items: views::of(out@), touched }),
                trees,
                i as int,
            ),
    {
        let b: &Json = &bs[i];
        assert(trees[i as int] == b@);
        let kind = b.at("type");
        if kind.is_text("thinking") || kind.is_text("redacted_thinking") {
            touched = true;
        } else {
            let mut c = b.clone();
            if b.at("signature").is_some() {
                c.remove_field("signature");
                touched = true;
            }
            out.push(c);
        }
    }
    (out, touched)
}

fn clean_message_list(ms: &Vec<Json>) -> (r: (Vec<Json>, bool))
    ensures
        clean_messages(nothing_kept(), views::of(ms@), 0) == (Kept { items: views::of(r.0@), touched: r.1 }),
{
    let ghost trees = views::of(ms@);
    let mut out: Vec<Json> = Vec::new();
    let mut touched = false;
    for i in 0..ms.len()
        invariant
            trees == views::of(ms@),
            clean_messages(nothing_kept(), trees, 0) == clean_messages(
                (Kept { items: views::of(out@), touched }),
                trees,
                i as int,
            ),
    {
        let m: &Json = &ms[i];
        assert(trees[i as int] == m@);
        let mut c = m.clone();
        if let Some(bs) = m.at("content").list() {
            let (items, t) = clean_block_list(bs);
            c.set_field("content", array(items));
            touched = touched || t;
        }
        out.push(c);
    }
    (out, touched)
}

fn is_thinking_misplaced(body: &Json) -> (r: bool)
    ensures
        r == thinking_misplaced(body@),
{
    if !body.at("thinking").at("type").is_text("enabled") {
        return false;
    }
    let ms = match body.at("messages").list() {
        Some(ms) => ms,
        None => {
            return false;
        },
    };
    let ghost trees = views::of(ms@);
    let mut i: usize = ms.len();
    while i > 0
        invariant
            i <= ms@.len(),
            trees == views::of(ms@),
            body@.at("thinking"@).at("type"@).text() == Some("enabled"@),
            body@.at("messages"@).list() == Some(trees),
            last_assistant(trees, trees.len() as int) == last_assistant(trees, i as int),
        decreases i,
    {
        i -= 1;
        assert(trees[i as int] == ms@[i as int]@);
        if ms[i].at("role").is_text("assistant") {
            return match ms[i].at("content").list() {
                Some(bs) => if bs.len() > 0 {
                    assert(views::of(bs@)[0] == bs@[0]@);
                    !bs[0].at("type").is_text("thinking")
                } else {
                    true
                },
                None => true,
            };
        }
    }
    false
}

impl Rectifier for ThinkingSignatureRectifier {
    open spec fn applies(&self, error: ErrorV) -> bool {
        let msg = rectifier::lower_message(error);
        ||| (text::occurs(msg, "invalid"@) && text::occurs(msg, "signature"@) && text::occurs(msg, "thinking"@)
            && text::occurs(msg, "block"@))
        ||| (text::occurs(msg, "thought signature"@) && (text::occurs(msg, "not valid"@) || text::occurs(
            msg,
            "invalid"@,
        )))
        ||| text::occurs(msg, "must start with a thinking block"@)
        ||| (text::occurs(msg, "expected"@) && text::occurs(msg, "found"@) && text::occurs(msg, "tool_use"@) && (
        text::occurs(msg, "thinking"@) || text::occurs(msg, "redacted_thinking"@)))
        ||| (text::occurs(msg, "signature"@) && text::occurs(msg, "field required"@))
        ||| (text::occurs(msg, "signature"@) && text::occurs(msg, "extra inputs are not permitted"@))
        ||| ((text::occurs(msg, "thinking"@) || text::occurs(msg, "redacted_thinking"@)) && text::occurs(
            msg,
            "cannot be modified"@,
        ))
    }

    open spec fn repaired(&self, body: Tree) -> Repair {
        without_thinking(body)
    }

    open spec fn label(&self) -> Seq<char> {
        "thinking_signature"@
    }

    fn should_apply(&self, error: &Error, _body: &Json) -> (r: bool) {
        let msg = error_text(error);
        let msg = msg.as_str();
        (contains(msg, "invalid") && contains(msg, "signature") && contains(msg, "thinking") && contains(msg, "block"))
            || (contains(msg, "thought signature") && (contains(msg, "not valid") || contains(msg, "invalid")))
            || contains(msg, "must start with a thinking block") || (contains(msg, "expected") && contains(
            msg,
            "found",
        ) && contains(msg, "tool_use") && (contains(msg, "thinking") || contains(msg, "redacted_thinking"))) || (
        contains(msg, "signature") && contains(msg, "field required")) || (contains(msg, "signature") && contains(
            msg,
            "extra inputs are not permitted",
        )) || ((contains(msg, "thinking") || contains(msg, "redacted_thinking")) && contains(
            msg,
            "cannot be modified",
        ))
    }

    fn rectify(&self, body: &mut Json) -> (r: RectifyResult) {
        let mut applied = false;
        let repaired = match body.at("messages").list() {
            Some(ms) => {
                let (items, touched) = clean_message_list(ms);
                applied = touched;
                Some(array(items))
            },
            None => None,
        };
        if let Some(items) = repaired {
            body.set_field("messages", items);
        }
        if is_thinking_misplaced(body) {
            body.remove_field("thinking");
            applied = true;
        }
        RectifyResult {
            applied,
            details: if applied {
                "removed thinking/redacted_thinking blocks and signatures".to_owned()
            } else {
                "no thinking signature content to repair".to_owned()
            },
        }
    }

    fn name(&self) -> (r: &'static str) {
        "thinking_signature"
    }
}

} // verus!
