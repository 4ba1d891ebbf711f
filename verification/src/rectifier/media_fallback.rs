//! Rectifier for providers that reject images or multimodal content.
//!
//! The fix replaces image/image_url blocks with a text placeholder instead of
//! deleting them, so message structure and cache markers stay intact.

use crate::error::{Error, ErrorV};
use crate::json;
use crate::json::{array, js, Build, Fields, Json, Lookup, Tree};
use crate::rectifier;
use crate::rectifier::{error_text, Rectifier, RectifyResult, Repair};
use crate::text;
use crate::text::contains;
use crate::views;
use vstd::prelude::*;

verus! {

broadcast use crate::views::group_views;

#[derive(Debug, Clone, Copy, PartialEq, Eq, Structural)]
pub struct MediaFallbackRectifier;

pub open spec fn is_image(b: Tree) -> bool {
    let kind = b.at("type"@).text();
    kind == Some("image"@) || kind == Some("image_url"@) || kind == Some("input_image"@)
}

/// What stands in for a picture; its cache marker stays.
pub open spec fn placeholder(b: Tree) -> Tree {
    let m = json::fs().with("type"@, json::st("text"@)).with("text"@, json::st("[Unsupported Image]"@));
    Tree::Obj(
        match b.at("cache_control"@) {
            Some(c) => m.set("cache_control"@, c),
            None => m,
        },
    )
}

pub open spec fn replaced(b: Tree) -> Tree {
    if is_image(b) {
        placeholder(b)
    } else {
        b
    }
}

pub open spec fn replaced_blocks(bs: Seq<Tree>) -> Seq<Tree> {
    Seq::new(bs.len(), |i: int| replaced(bs[i]))
}

pub open spec fn has_image(bs: Seq<Tree>) -> bool {
    exists|i: int| 0 <= i < bs.len() && is_image(#[trigger] bs[i])
}

pub open spec fn replaced_message(m: Tree) -> Tree {
    match m.at("content"@).list() {
        Some(bs) => m.with_field("content"@, Tree::Arr(replaced_blocks(bs))),
        None => m,
    }
}

pub open spec fn message_has_image(m: Tree) -> bool {
    match m.at("content"@).list() {
        Some(bs) => has_image(bs),
        None => false,
    }
}

pub open spec fn replaced_messages(ms: Seq<Tree>) -> Seq<Tree> {
    Seq::new(ms.len(), |i: int| replaced_message(ms[i]))
}

pub open spec fn any_image(ms: Seq<Tree>) -> bool {
    exists|i: int| 0 <= i < ms.len() && message_has_image(#[trigger] ms[i])
}

/// What becomes of a body.
pub open spec fn without_images(body: Tree) -> Repair {
    let applied = match body.at("messages"@).list() {
        Some(ms) => any_image(ms),
        None => false,
    };
    Repair {
        body: match body.at("messages"@).list() {
            Some(ms) => body.with_field("messages"@, Tree::Arr(replaced_messages(ms))),
            None => body,
        },
        applied,
        details: if applied {
            "replaced image blocks with a text placeholder"@
        } else {
            "no image blocks to replace"@
        },
    }
}

/// No picture is left, every block keeps its place, and blocks that are no
/// pictures stay as they are.
pub proof fn replacing_keeps_the_structure(bs: Seq<Tree>)
    ensures
        replaced_blocks(bs).len() == bs.len(),
        !has_image(replaced_blocks(bs)),
        forall|i: int| 0 <= i < bs.len() && !is_image(bs[i]) ==> #[trigger] replaced_blocks(bs)[i] == bs[i],
        replaced_blocks(replaced_blocks(bs)) == replaced_blocks(bs),
{
    assert forall|i: int| 0 <= i < bs.len() implies !is_image(#[trigger] replaced_blocks(bs)[i]) by {
        placeholder_is_text(bs[i]);
    }
    assert(replaced_blocks(replaced_blocks(bs)) =~= replaced_blocks(bs));
}

proof fn placeholder_is_text(b: Tree)
    ensures
        !is_image(placeholder(b)),
        placeholder(b).at("cache_control"@) == b.at("cache_control"@),
{
    reveal_strlit("type");
    reveal_strlit("text");
    reveal_strlit("cache_control");
    reveal_strlit("image");
    reveal_strlit("image_url");
    reveal_strlit("input_image");
    reveal(json::put);
    reveal_with_fuel(json::find_from, 4);
    assert("type"@[1] != "text"@[1]);
    assert("type"@.len() != "cache_control"@.len());
    assert("text"@.len() != "cache_control"@.len());
    assert("text"@.len() != "image"@.len());
    assert("text"@.len() != "image_url"@.len());
    assert("text"@.len() != "input_image"@.len());
}

/// A cache marker on a picture is still there on what stands in for it.
pub proof fn cache_markers_stay(b: Tree)
    ensures
        replaced(b).at("cache_control"@) == b.at("cache_control"@),
{
    placeholder_is_text(b);
}

fn encode_placeholder(b: &Json) -> (r: Json)
    ensures
        r@ == placeholder(b@),
{
    let mut m = Fields::new().with("type", js("text")).with("text", js("[Unsupported Image]"));
    if let Some(c) = b.at("cache_control").copied() {
        m.put("cache_control", c);
    }
    m.done()
}

fn replace_blocks(bs: &Vec<Json>) -> (r: (Vec<Json>, bool))
    ensures
        views::of(r.0@) == replaced_blocks(views::of(bs@)),
        r.1 == has_image(views::of(bs@)),
{
    let ghost trees = views::of(bs@);
    let mut out: Vec<Json> = Vec::new();
    let mut found = false;
    for i in 0..bs.len()
        invariant
            trees == views::of(bs@),
            out@.len() == i,
            forall|j: int| 0 <= j < i ==> (#[trigger] out@[j])@ == replaced(trees[j]),
            found == exists|j: int| 0 <= j < i && is_image(#[trigger] trees[j]),
    {
        let b: &Json = &bs[i];
        assert(trees[i as int] == b@);
        let kind = b.at("type");
        if kind.is_text("image") || kind.is_text("image_url") || kind.is_text("input_image") {
            assert(is_image(trees[i as int]));
            out.push(encode_placeholder(b));
            found = true;
        } else {
            out.push(b.clone());
        }
    }
    assert(views::of(out@) =~= replaced_blocks(trees));
    (out, found)
}

fn replace_messages(ms: &Vec<Json>) -> (r: (Vec<Json>, bool))
    ensures
        views::of(r.0@) == replaced_messages(views::of(ms@)),
        r.1 == any_image(views::of(ms@)),
{
    let ghost trees = views::of(ms@);
    let mut out: Vec<Json> = Vec::new();
    let mut found = false;
    for i in 0..ms.len()
        invariant
            trees == views::of(ms@),
            out@.len() == i,
            forall|j: int| 0 <= j < i ==> (#[trigger] out@[j])@ == replaced_message(trees[j]),
            found == exists|j: int| 0 <= j < i && message_has_image(#[trigger] trees[j]),
    {
        let m: &Json = &ms[i];
        assert(trees[i as int] == m@);
        let mut c = m.clone();
        let mut here = false;
        if let Some(bs) = m.at("content").list() {
            let (items, f) = replace_blocks(bs);
            c.set_field("content", array(items));
            here = f;
        }
        assert(here == message_has_image(trees[i as int]));
        found = found || here;
        out.push(c);
    }
    assert(views::of(out@) =~= replaced_messages(trees));
    (out, found)
}

impl Rectifier for MediaFallbackRectifier {
    open spec fn applies(&self, error: ErrorV) -> bool {
        let msg = rectifier::lower_message(error);
        &&& error is Upstream
        &&& ({
            let status = error->Upstream_status;
            status == 400 || status == 415 || status == 422 || status == 501
        })
        &&& text::occurs(msg, "image"@) || text::occurs(msg, "vision"@) || text::occurs(msg, "multimodal"@)
        &&& text::occurs(msg, "unsupported"@) || text::occurs(msg, "not supported"@) || text::occurs(
            msg,
            "text only"@,
        )
    }

    open spec fn repaired(&self, body: Tree) -> Repair {
        without_images(body)
    }

    open spec fn label(&self) -> Seq<char> {
        "media_fallback"@
    }

    fn should_apply(&self, error: &Error, _body: &Json) -> (r: bool) {
        let matching = match error {
            Error::Upstream { status, .. } => *status == 400 || *status == 415 || *status == 422 || *status == 501,
            _ => false,
        };
        if !matching {
            return false;
        }
        let msg = error_text(error);
        let msg = msg.as_str();
        let media = contains(msg, "image") || contains(msg, "vision") || contains(msg, "multimodal");
        let rejection = contains(msg, "unsupported") || contains(msg, "not supported") || contains(msg, "text only");
        media && rejection
    }

    fn rectify(&self, body: &mut Json) -> (r: RectifyResult) {
        let mut applied = false;
        let repaired = match body.at("messages").list() {
            Some(ms) => {
                let (items, found) = replace_messages(ms);
                applied = found;
                Some(array(items))
            },
            None => None,
        };
        if let Some(items) = repaired {
            body.set_field("messages", items);
        }
        RectifyResult {
            applied,
            details: if applied {
                "replaced image blocks with a text placeholder".to_owned()
            } else {
                "no image blocks to replace".to_owned()
            },
        }
    }

    fn name(&self) -> (r: &'static str) {
        "media_fallback"
    }
}

} // verus!
