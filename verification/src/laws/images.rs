//! What becomes of the pictures in a request, and what the headers of an answer say.

use vstd::prelude::*;

use crate::config::{ConfigV, EntryV};
use crate::headers;
use crate::ir::{BlockV, MessageV, SourceV};
use crate::laws;
use crate::query::RequestKind;
use crate::router::CandidateV;
use crate::server::pipeline;
use crate::server::pipeline::Described;
use crate::upstream;

verus! {

/// The picture that a block is.
pub open spec fn picture() -> spec_fn(BlockV) -> Option<SourceV> {
    |b: BlockV|
        match b {
            BlockV::Image { source } => Some(source),
            _ => None,
        }
}

/// The pictures of a message.
pub open spec fn pictures() -> spec_fn(MessageV) -> Seq<SourceV> {
    |m: MessageV| m.content.filter_map(picture())
}

proof fn block_pictures(bs: Seq<BlockV>, i: int, acc: Seq<SourceV>)
    requires
        0 <= i <= bs.len(),
    ensures
        pipeline::block_images(bs, i, acc) == acc + bs.skip(i).filter_map(picture()),
    decreases bs.len() - i,
{
    if i < bs.len() {
        laws::keeping_first(bs, i, picture());
        let rest = bs.skip(i + 1).filter_map(picture());
        if let Some(s) = picture()(bs[i]) {
            block_pictures(bs, i + 1, acc.push(s));
            assert(acc + (Seq::empty().push(s) + rest) =~= acc.push(s) + rest);
        } else {
            block_pictures(bs, i + 1, acc);
            assert(acc + (Seq::empty() + rest) =~= acc + rest);
        }
    } else {
        laws::nothing_is_left(bs, picture(), |b: BlockV| Seq::<SourceV>::empty());
        assert(acc + Seq::<SourceV>::empty() =~= acc);
    }
}

proof fn message_pictures(ms: Seq<MessageV>, i: int)
    requires
        0 <= i <= ms.len(),
    ensures
        pipeline::message_images(ms, 0, Seq::empty()) == pipeline::message_images(
            ms,
            i,
            ms.take(i).flat_map(pictures()),
        ),
    decreases i,
{
    if i > 0 {
        message_pictures(ms, i - 1);
        laws::unfolding_takes(ms, i - 1, pictures());
        block_pictures(ms[i - 1].content, 0, ms.take(i - 1).flat_map(pictures()));
        assert(ms[i - 1].content.skip(0) =~= ms[i - 1].content);
    } else {
        assert(ms.take(0).map_values(pictures()) =~= Seq::empty());
        assert(ms.take(0).flat_map(pictures()) =~= Seq::empty());
    }
}

/// Every picture of a request is found, message by message and block by block.
pub proof fn every_picture_is_found(ms: Seq<MessageV>)
    ensures
        pipeline::message_images(ms, 0, Seq::empty()) == ms.flat_map(pictures()),
{
    message_pictures(ms, ms.len() as int);
    assert(ms.take(ms.len() as int) =~= ms);
}

/// What stands for the picture with that number: its description, and where it has none
/// the placeholder.
pub open spec fn stands_for(descriptions: Seq<Option<Seq<char>>>, placeholder: Seq<char>, n: int) -> BlockV {
    BlockV::Text {
        text: if 0 <= n < descriptions.len() && descriptions[n] is Some { descriptions[n]->0 } else { placeholder },
        cache_control: None,
    }
}

proof fn blocks_described(
    bs: Seq<BlockV>,
    i: int,
    d: Described,
    before: int,
    descriptions: Seq<Option<Seq<char>>>,
    placeholder: Seq<char>,
)
    requires
        0 <= i <= bs.len(),
        d.blocks.len() == i,
        d.images == before + bs.take(i).filter_map(picture()).len(),
        forall|j: int|
            0 <= j < i ==> #[trigger] d.blocks[j] == if bs[j] is Image {
                stands_for(descriptions, placeholder, before + bs.take(j).filter_map(picture()).len())
            } else {
                bs[j]
            },
    ensures
        ({
            let out = pipeline::blocks_described(bs, i, d, descriptions, placeholder);
            &&& out.blocks.len() == bs.len()
            &&& out.images == before + bs.filter_map(picture()).len()
            &&& forall|j: int|
                0 <= j < bs.len() ==> #[trigger] out.blocks[j] == if bs[j] is Image {
                    stands_for(descriptions, placeholder, before + bs.take(j).filter_map(picture()).len())
                } else {
                    bs[j]
                }
        }),
    decreases bs.len() - i,
{
    if i < bs.len() {
        laws::keeping_takes(bs, i, picture());
        if bs[i] is Image {
            blocks_described(
                bs,
                i + 1,
                Described {
                    blocks: d.blocks.push(pipeline::stand_in(descriptions, placeholder, d.images)),
                    images: d.images + 1,
                },
                before,
                descriptions,
                placeholder,
            );
        } else {
            blocks_described(
                bs,
                i + 1,
                Described { blocks: d.blocks.push(bs[i]), ..d },
                before,
                descriptions,
                placeholder,
            );
        }
    } else {
        assert(bs.take(i) =~= bs);
    }
}

/// How many pictures come before the `j`th block of the `i`th message.
pub open spec fn pictures_before(ms: Seq<MessageV>, i: int, j: int) -> int {
    (ms.take(i).flat_map(pictures()).len() + ms[i].content.take(j).filter_map(picture()).len()) as int
}

/// Whether that message is the `i`th with its pictures described.
pub open spec fn is_described(
    ms: Seq<MessageV>,
    i: int,
    m: MessageV,
    descriptions: Seq<Option<Seq<char>>>,
    placeholder: Seq<char>,
) -> bool {
    &&& m.role == ms[i].role
    &&& m.content.len() == ms[i].content.len()
    &&& forall|j: int|
        0 <= j < m.content.len() ==> #[trigger] m.content[j] == if ms[i].content[j] is Image {
            stands_for(descriptions, placeholder, pictures_before(ms, i, j))
        } else {
            ms[i].content[j]
        }
}

proof fn messages_described(
    ms: Seq<MessageV>,
    i: int,
    acc: Seq<MessageV>,
    images: int,
    descriptions: Seq<Option<Seq<char>>>,
    placeholder: Seq<char>,
)
    requires
        0 <= i <= ms.len(),
        acc.len() == i,
        images == ms.take(i).flat_map(pictures()).len(),
        forall|k: int| 0 <= k < i ==> is_described(ms, k, #[trigger] acc[k], descriptions, placeholder),
    ensures
        ({
            let out = pipeline::messages_described(ms, i, acc, images, descriptions, placeholder);
            &&& out.len() == ms.len()
            &&& forall|k: int| 0 <= k < ms.len() ==> is_described(ms, k, #[trigger] out[k], descriptions, placeholder)
        }),
    decreases ms.len() - i,
{
    if i < ms.len() {
        let bs = ms[i].content;
        let start = Described { blocks: Seq::empty(), images };
        assert(bs.take(0).filter_map(picture()) =~= Seq::empty());
        blocks_described(bs, 0, start, images, descriptions, placeholder);
        let d = pipeline::blocks_described(bs, 0, start, descriptions, placeholder);
        laws::unfolding_takes(ms, i, pictures());
        let m = MessageV { role: ms[i].role, content: d.blocks };
        assert(is_described(ms, i, m, descriptions, placeholder));
        messages_described(ms, i + 1, acc.push(m), d.images, descriptions, placeholder);
    }
}

/// The description that stands for a picture is the one with the picture's own number,
/// counted over all messages; a picture without one has the placeholder. Every other
/// block, and every message, stays where and what it is.
pub proof fn pictures_have_their_own_descriptions(
    ms: Seq<MessageV>,
    descriptions: Seq<Option<Seq<char>>>,
    placeholder: Seq<char>,
)
    ensures
        ({
            let out = pipeline::messages_described(ms, 0, Seq::empty(), 0, descriptions, placeholder);
            &&& out.len() == ms.len()
            &&& forall|k: int| 0 <= k < ms.len() ==> is_described(ms, k, #[trigger] out[k], descriptions, placeholder)
        }),
{
    assert(ms.take(0).map_values(pictures()) =~= Seq::empty());
    assert(ms.take(0).flat_map(pictures()) =~= Seq::empty());
    messages_described(ms, 0, Seq::empty(), 0, descriptions, placeholder);
}

/// Whether a model can be asked what is in a picture.
pub open spec fn can_see(c: ConfigV) -> spec_fn(EntryV) -> bool {
    |m: EntryV| m.enabled && m.supports_vision && c.provider_in_use(m.provider_id)
}

proof fn the_first_that_sees(c: ConfigV, i: int)
    requires
        0 <= i <= c.models.len(),
        forall|j: int| 0 <= j < i ==> !can_see(c)(#[trigger] c.models[j]),
    ensures
        match pipeline::seeing_from(c, i) {
            Some(x) => laws::is_first(c.models, can_see(c), Some(x.entry)) && x == (CandidateV {
                exposed_id: x.entry.exposed_id(),
                entry: x.entry,
                provider: c.provider(x.entry.provider_id)->0,
                degraded: false,
            }),
            None => laws::is_first(c.models, can_see(c), None),
        },
    decreases c.models.len() - i,
{
    if i < c.models.len() {
        if can_see(c)(c.models[i]) {
            assert(c.models[i] == c.models[i]);
        } else {
            the_first_that_sees(c, i + 1);
        }
    }
}

/// Pictures are described by the first model that sees and is in use, on its provider.
pub proof fn the_first_seeing_model_describes(c: ConfigV)
    ensures
        match pipeline::seeing_from(c, 0) {
            Some(x) => laws::is_first(c.models, can_see(c), Some(x.entry)) && x == (CandidateV {
                exposed_id: x.entry.exposed_id(),
                entry: x.entry,
                provider: c.provider(x.entry.provider_id)->0,
                degraded: false,
            }),
            None => laws::is_first(c.models, can_see(c), None),
        },
{
    the_first_that_sees(c, 0);
}

// ------------------------------------------------------------------- headers

/// The headers of an answer name the model and the provider that gave it, where their
/// names can stand in a header, and say whether it was a probe and whether it was a side
/// query. All other headers stay.
pub proof fn headers_name_who_answered(m: upstream::Texts, c: CandidateV, kind: RequestKind, name: Seq<char>)
    ensures
        ({
            let out = pipeline::routed_headers(m, c, kind);
            &&& headers::is_value(c.exposed_id) ==> out.contains_key("x-zroutery-model"@) && out["x-zroutery-model"@]
                == c.exposed_id
            &&& headers::is_value(c.provider.name) ==> out.contains_key("x-zroutery-provider"@)
                && out["x-zroutery-provider"@] == c.provider.name
            &&& c.degraded ==> out.contains_key("x-zroutery-degraded"@) && out["x-zroutery-degraded"@] == "1"@
            &&& kind != RequestKind::Main ==> out.contains_key("x-zroutery-classifier"@)
                && out["x-zroutery-classifier"@] == "1"@
            &&& !c.degraded ==> (out.contains_key("x-zroutery-degraded"@) <==> m.contains_key(
                "x-zroutery-degraded"@,
            ))
            &&& kind == RequestKind::Main ==> (out.contains_key("x-zroutery-classifier"@) <==> m.contains_key(
                "x-zroutery-classifier"@,
            ))
            &&& !(seq![
                "x-zroutery-model"@,
                "x-zroutery-provider"@,
                "x-zroutery-degraded"@,
                "x-zroutery-classifier"@,
            ].contains(name)) ==> (out.contains_key(name) <==> m.contains_key(name)) && (m.contains_key(name)
                ==> out[name] == m[name])
        }),
{
    reveal_strlit("x-zroutery-model");
    reveal_strlit("x-zroutery-provider");
    reveal_strlit("x-zroutery-degraded");
    reveal_strlit("x-zroutery-classifier");
    assert("x-zroutery-model"@.len() == 16 && "x-zroutery-provider"@.len() == 19 && "x-zroutery-degraded"@.len() == 19
        && "x-zroutery-classifier"@.len() == 21);
    assert("x-zroutery-provider"@[11] == 'p' && "x-zroutery-degraded"@[11] == 'd');
    let known = seq![
        "x-zroutery-model"@,
        "x-zroutery-provider"@,
        "x-zroutery-degraded"@,
        "x-zroutery-classifier"@,
    ];
    assert(known[0] == "x-zroutery-model"@ && known[1] == "x-zroutery-provider"@ && known[2] == "x-zroutery-degraded"@
        && known[3] == "x-zroutery-classifier"@);
}

} // verus!
