//! What is repaired of a request that was refused, by whom and how often.

use vstd::prelude::*;

use crate::config::RectifierConfig;
use crate::error::ErrorV;
use crate::ir::RequestV;
use crate::json;
use crate::json::{Build, Lookup, Tree};
use crate::laws;
use crate::rectifier;
use crate::rectifier::media_fallback;
use crate::rectifier::media_fallback::MediaFallbackRectifier;
use crate::rectifier::thinking_budget;
use crate::rectifier::thinking_budget::ThinkingBudgetRectifier;
use crate::rectifier::thinking_signature;
use crate::rectifier::thinking_signature::{Kept, ThinkingSignatureRectifier};
use crate::rectifier::{AnyRectifier, Rectifier};
use crate::router::CandidateV;
use crate::server::pipeline;
use crate::server::pipeline::RepairsV;
use crate::server::trial;
use crate::server::trial::{DescribingV, PreparingV, ProbingV, SendingV, TrialV, TriedV};
use crate::text;
use crate::upstream;
use crate::upstream::EncodeMode;

verus! {

// ---------------------------------------------------------------- rectifiers

/// The rectifiers that are on, in the order in which they are tried: none where
/// repairing is off altogether.
pub proof fn rectifiers_take_turns(c: RectifierConfig)
    ensures
        !c.enabled ==> rectifier::enabled(c).len() == 0,
        c.enabled ==> rectifier::enabled(c) == (if c.thinking_signature {
            seq![AnyRectifier::ThinkingSignature(ThinkingSignatureRectifier)]
        } else {
            Seq::empty()
        }) + (if c.media_fallback {
            seq![AnyRectifier::MediaFallback(MediaFallbackRectifier)]
        } else {
            Seq::empty()
        }) + (if c.thinking_budget {
            seq![AnyRectifier::ThinkingBudget(ThinkingBudgetRectifier)]
        } else {
            Seq::empty()
        }),
{
    if c.enabled {
        assert(rectifier::enabled(c) =~= (if c.thinking_signature {
            seq![AnyRectifier::ThinkingSignature(ThinkingSignatureRectifier)]
        } else {
            Seq::empty()
        }) + (if c.media_fallback {
            seq![AnyRectifier::MediaFallback(MediaFallbackRectifier)]
        } else {
            Seq::empty()
        }) + (if c.thinking_budget {
            seq![AnyRectifier::ThinkingBudget(ThinkingBudgetRectifier)]
        } else {
            Seq::empty()
        }));
    }
}

/// Whether an error speaks of something, whatever its case.
pub open spec fn says(e: ErrorV, what: Seq<char>) -> bool {
    text::occurs(text::lowercase(e.message()), what)
}

/// When each rectifier has something to repair: pictures after a refusal that speaks of
/// pictures as not supported; a budget after one that speaks of a thinking budget;
/// signatures after one that speaks of the signature of a thought, of where thoughts
/// stand, or of thoughts that may not be changed.
pub proof fn errors_call_their_rectifier(e: ErrorV)
    ensures
        MediaFallbackRectifier.applies(e) <==> (e matches ErrorV::Upstream { status, .. } && (status == 400 || status
            == 415 || status == 422 || status == 501)) && (says(e, "image"@) || says(e, "vision"@) || says(
            e,
            "multimodal"@,
        )) && (says(e, "unsupported"@) || says(e, "not supported"@) || says(e, "text only"@)),
        ThinkingBudgetRectifier.applies(e) <==> (says(e, "budget"@) && (says(e, "thinking"@) || says(e, "reasoning"@)))
            || says(e, "maximum thinking budget"@) || says(e, "thinking budget must"@),
        ThinkingSignatureRectifier.applies(e) <==> {
            ||| says(e, "invalid"@) && says(e, "signature"@) && says(e, "thinking"@) && says(e, "block"@)
            ||| says(e, "thought signature"@) && (says(e, "not valid"@) || says(e, "invalid"@))
            ||| says(e, "must start with a thinking block"@)
            ||| says(e, "expected"@) && says(e, "found"@) && says(e, "tool_use"@) && (says(e, "thinking"@) || says(
                e,
                "redacted_thinking"@,
            ))
            ||| says(e, "signature"@) && says(e, "field required"@)
            ||| says(e, "signature"@) && says(e, "extra inputs are not permitted"@)
            ||| (says(e, "thinking"@) || says(e, "redacted_thinking"@)) && says(e, "cannot be modified"@)
        },
{
}

/// A picture in any of its three forms.
pub open spec fn is_picture(b: Tree) -> bool {
    let kind = b.at("type"@).text();
    kind is Some && seq!["image"@, "image_url"@, "input_image"@].contains(kind->0)
}

/// Every picture in every message has a text in its place, with the picture's cache
/// marker; every other block stays, and so do all other fields. The repair applies
/// exactly where there was a picture.
pub proof fn pictures_are_replaced(body: Tree, k: Seq<char>)
    ensures
        ({
            let r = MediaFallbackRectifier.repaired(body);
            &&& k != "messages"@ ==> r.body.at(k) == body.at(k)
            &&& body.at("messages"@) matches Some(Tree::Arr(ms)) ==> {
                &&& r.body.at("messages"@).list() is Some
                &&& r.body.at("messages"@).list()->0.len() == ms.len()
                &&& forall|i: int|
                    0 <= i < ms.len() ==> ((#[trigger] ms[i]).at("content"@).list() is None
                        ==> r.body.at("messages"@).list()->0[i] == ms[i])
                &&& forall|i: int, j: int|
                    0 <= i < ms.len() && ms[i].at("content"@).list() is Some && 0 <= j < ms[i].at(
                        "content"@,
                    ).list()->0.len() ==> ({
                        let b = #[trigger] ms[i].at("content"@).list()->0[j];
                        let now = r.body.at("messages"@).list()->0[i].at("content"@).list();
                        &&& now is Some && now->0.len() == ms[i].at("content"@).list()->0.len()
                        &&& !is_picture(b) ==> now->0[j] == b
                        &&& is_picture(b) ==> now->0[j].at("type"@) == Some(Tree::Str("text"@)) && now->0[j].at(
                            "text"@,
                        ) == Some(Tree::Str("[Unsupported Image]"@)) && now->0[j].at("cache_control"@) == b.at(
                            "cache_control"@,
                        )
                    })
                &&& r.applied <==> exists|i: int, j: int|
                    0 <= i < ms.len() && ms[i].at("content"@).list() is Some && 0 <= j < ms[i].at(
                        "content"@,
                    ).list()->0.len() && is_picture(#[trigger] ms[i].at("content"@).list()->0[j])
            }
            &&& body.at("messages"@).list() is None ==> r.body == body && !r.applied
        }),
{
    let names = seq!["image"@, "image_url"@, "input_image"@];
    assert(names[0] == "image"@ && names[1] == "image_url"@ && names[2] == "input_image"@);
    assert forall|b: Tree| #[trigger] media_fallback::is_image(b) == is_picture(b) by {}
    let r = MediaFallbackRectifier.repaired(body);
    if let Some(Tree::Arr(ms)) = body.at("messages"@) {
        let out = media_fallback::replaced_messages(ms);
        json::set_is_found(body->Obj_0, "messages"@, Tree::Arr(out), k);
        json::set_is_found(body->Obj_0, "messages"@, Tree::Arr(out), "messages"@);
        assert forall|i: int, j: int|
            0 <= i < ms.len() && ms[i].at("content"@).list() is Some && 0 <= j < ms[i].at(
                "content"@,
            ).list()->0.len() implies ({
            let b = #[trigger] ms[i].at("content"@).list()->0[j];
            let now = out[i].at("content"@).list();
            &&& now is Some && now->0.len() == ms[i].at("content"@).list()->0.len()
            &&& !is_picture(b) ==> now->0[j] == b
            &&& is_picture(b) ==> now->0[j].at("type"@) == Some(Tree::Str("text"@)) && now->0[j].at("text"@) == Some(
                Tree::Str("[Unsupported Image]"@),
            ) && now->0[j].at("cache_control"@) == b.at("cache_control"@)
        }) by {
            let bs = ms[i].at("content"@).list()->0;
            let b = bs[j];
            json::set_is_found(
                ms[i]->Obj_0,
                "content"@,
                Tree::Arr(media_fallback::replaced_blocks(bs)),
                "content"@,
            );
            assert(media_fallback::is_image(b) == is_picture(b));
            if is_picture(b) {
                let m = json::fs().with("type"@, json::st("text"@)).with("text"@, json::st("[Unsupported Image]"@));
                reveal_strlit("type");
                reveal_strlit("text");
                reveal_strlit("cache_control");
                assert("type"@.len() == 4 && "text"@.len() == 4 && "cache_control"@.len() == 13 && "type"@[1] == 'y'
                    && "text"@[1] == 'e');
                reveal_with_fuel(json::find_from, 3);
                if let Some(c) = b.at("cache_control"@) {
                    json::set_is_found(m, "cache_control"@, c, "type"@);
                    json::set_is_found(m, "cache_control"@, c, "text"@);
                    json::set_is_found(m, "cache_control"@, c, "cache_control"@);
                }
            }
        }
        if r.applied {
            let i = choose|i: int| 0 <= i < ms.len() && media_fallback::message_has_image(#[trigger] ms[i]);
            let bs = ms[i].at("content"@).list()->0;
            let j = choose|j: int| 0 <= j < bs.len() && media_fallback::is_image(#[trigger] bs[j]);
            assert(is_picture(ms[i].at("content"@).list()->0[j]));
        }
        if exists|i: int, j: int|
            0 <= i < ms.len() && ms[i].at("content"@).list() is Some && 0 <= j < ms[i].at("content"@).list()->0.len()
                && is_picture(#[trigger] ms[i].at("content"@).list()->0[j]) {
            let (i, j) = choose|i: int, j: int|
                0 <= i < ms.len() && ms[i].at("content"@).list() is Some && 0 <= j < ms[i].at(
                    "content"@,
                ).list()->0.len() && is_picture(#[trigger] ms[i].at("content"@).list()->0[j]);
            let bs = ms[i].at("content"@).list()->0;
            assert(media_fallback::is_image(bs[j]));
            assert(media_fallback::message_has_image(ms[i]));
        }
    }
}

/// A thinking budget is halved, down to a least one, and only where that makes it less.
/// Nothing else in the body changes.
pub proof fn budgets_are_halved(body: Tree, budget: u64, k: Seq<char>)
    requires
        body.at("thinking"@).at("budget_tokens"@) == Some(Tree::UInt(budget)),
    ensures
        ({
            let r = ThinkingBudgetRectifier.repaired(body);
            &&& r.applied <==> budget != 1024 && (budget >= 2 || budget < 1024)
            &&& budget >= 2048 ==> r.applied && r.body.at("thinking"@).at("budget_tokens"@) == Some(
                Tree::UInt((budget / 2) as u64),
            )
            &&& budget < 2048 && budget != 1024 ==> r.applied && r.body.at("thinking"@).at("budget_tokens"@) == Some(
                Tree::UInt(1024),
            )
            &&& !r.applied ==> r.body == body
            &&& k != "thinking"@ ==> r.body.at(k) == body.at(k)
            &&& k != "budget_tokens"@ ==> r.body.at("thinking"@).at(k) == body.at("thinking"@).at(k)
        }),
{
    let m = body.at("thinking"@)->0->Obj_0;
    let n = Tree::UInt(thinking_budget::reduced(budget));
    json::set_is_found(m, "budget_tokens"@, n, "budget_tokens"@);
    json::set_is_found(m, "budget_tokens"@, n, k);
    let inner = Tree::Obj(m).with_field("budget_tokens"@, n);
    json::set_is_found(body->Obj_0, "thinking"@, inner, "thinking"@);
    json::set_is_found(body->Obj_0, "thinking"@, inner, k);
}

/// A thought, open or sealed.
pub open spec fn is_thought(b: Tree) -> bool {
    b.at("type"@).text() == Some("thinking"@) || b.at("type"@).text() == Some("redacted_thinking"@)
}

/// What is left of a block: nothing of a thought, and of any other block all but its
/// signature.
pub open spec fn left() -> spec_fn(Tree) -> Option<Tree> {
    |b: Tree|
        if is_thought(b) {
            None
        } else if b.at("signature"@) is Some {
            Some(b.without_field("signature"@))
        } else {
            Some(b)
        }
}

/// Whether a block is changed.
pub open spec fn is_changed(b: Tree) -> bool {
    is_thought(b) || b.at("signature"@) is Some
}

proof fn blocks_are_cleaned(bs: Seq<Tree>, i: int, k: Kept)
    requires
        0 <= i <= bs.len(),
    ensures
        thinking_signature::clean_blocks(k, bs, i).items == k.items + bs.skip(i).filter_map(left()),
        thinking_signature::clean_blocks(k, bs, i).touched <==> k.touched || exists|j: int|
            i <= j < bs.len() && is_changed(#[trigger] bs[j]),
    decreases bs.len() - i,
{
    if i < bs.len() {
        laws::keeping_first(bs, i, left());
        let rest = bs.skip(i + 1).filter_map(left());
        if is_thought(bs[i]) {
            blocks_are_cleaned(bs, i + 1, Kept { touched: true, ..k });
            assert(is_changed(bs[i]));
            assert(k.items + (Seq::empty() + rest) =~= k.items + rest);
        } else {
            let b = thinking_signature::without_signature(bs[i]);
            assert(left()(bs[i]) == Some(b));
            blocks_are_cleaned(
                bs,
                i + 1,
                Kept { items: k.items.push(b), touched: k.touched || bs[i].at("signature"@) is Some },
            );
            assert(bs[i].at("signature"@) is Some ==> is_changed(bs[i]));
            assert(k.items + (Seq::empty().push(b) + rest) =~= k.items.push(b) + rest);
        }
    } else {
        laws::nothing_is_left(bs, left(), |b: Tree| Seq::<Tree>::empty());
        assert(k.items + Seq::<Tree>::empty() =~= k.items);
    }
}

/// A message without its thoughts and signatures; all else in it stays.
pub open spec fn cleaned() -> spec_fn(Tree) -> Tree {
    |m: Tree|
        match m.at("content"@) {
            Some(Tree::Arr(bs)) => m.with_field("content"@, Tree::Arr(bs.filter_map(left()))),
            _ => m,
        }
}

proof fn messages_are_cleaned(ms: Seq<Tree>, i: int, k: Kept)
    requires
        0 <= i <= ms.len(),
    ensures
        thinking_signature::clean_messages(k, ms, i).items == k.items + ms.skip(i).map_values(cleaned()),
    decreases ms.len() - i,
{
    if i < ms.len() {
        if let Some(bs) = ms[i].at("content"@).list() {
            blocks_are_cleaned(bs, 0, thinking_signature::nothing_kept());
            assert(bs.skip(0) =~= bs);
            assert(Seq::<Tree>::empty() + bs.filter_map(left()) =~= bs.filter_map(left()));
        }
        let m = thinking_signature::clean_message(ms[i]);
        assert(m == cleaned()(ms[i]));
        messages_are_cleaned(
            ms,
            i + 1,
            Kept { items: k.items.push(m), touched: k.touched || thinking_signature::message_touched(ms[i]) },
        );
        assert(k.items.push(m) + ms.skip(i + 1).map_values(cleaned()) =~= k.items + ms.skip(i).map_values(cleaned()));
    } else {
        assert(k.items + ms.skip(i).map_values(cleaned()) =~= k.items);
    }
}

proof fn some_message_is_changed(ms: Seq<Tree>, i: int, k: Kept)
    requires
        0 <= i <= ms.len(),
    ensures
        thinking_signature::clean_messages(k, ms, i).touched <==> k.touched || exists|a: int, j: int|
            i <= a < ms.len() && ms[a].at("content"@).list() is Some && 0 <= j < ms[a].at("content"@).list()->0.len()
                && is_changed(#[trigger] ms[a].at("content"@).list()->0[j]),
    decreases ms.len() - i,
{
    if i < ms.len() {
        let next = Kept {
            items: k.items.push(thinking_signature::clean_message(ms[i])),
            touched: k.touched || thinking_signature::message_touched(ms[i]),
        };
        some_message_is_changed(ms, i + 1, next);
        if let Some(bs) = ms[i].at("content"@).list() {
            blocks_are_cleaned(bs, 0, thinking_signature::nothing_kept());
            if thinking_signature::message_touched(ms[i]) {
                let j = choose|j: int| 0 <= j < bs.len() && is_changed(#[trigger] bs[j]);
                assert(is_changed(ms[i].at("content"@).list()->0[j]));
            }
        }
    }
}

/// Every thought and every signature is taken out of every message, and nothing else:
/// all other blocks stay in order, and so do all other fields of the body but for the
/// thinking that the last turn could no longer begin with.
pub proof fn thoughts_are_taken_out(body: Tree, k: Seq<char>)
    ensures
        ({
            let r = ThinkingSignatureRectifier.repaired(body);
            &&& body.at("messages"@) matches Some(Tree::Arr(ms)) ==> {
                &&& k == "messages"@ ==> (thinking_signature::thinking_misplaced(
                    thinking_signature::cleaned(body),
                ) || r.body.at(k) == Some(Tree::Arr(ms.map_values(cleaned()))))
                &&& thinking_signature::cleaned(body).at("messages"@) == Some(Tree::Arr(ms.map_values(cleaned())))
                &&& (exists|a: int, j: int|
                    0 <= a < ms.len() && ms[a].at("content"@).list() is Some && 0 <= j < ms[a].at(
                        "content"@,
                    ).list()->0.len() && is_changed(#[trigger] ms[a].at("content"@).list()->0[j])) ==> r.applied
            }
            &&& k != "messages"@ && k != "thinking"@ && !thinking_signature::thinking_misplaced(
                thinking_signature::cleaned(body),
            ) ==> r.body.at(k) == body.at(k)
            &&& body.at("messages"@).list() is None ==> r.body == body && !r.applied
        }),
{
    if let Some(Tree::Arr(ms)) = body.at("messages"@) {
        let none = thinking_signature::nothing_kept();
        messages_are_cleaned(ms, 0, none);
        some_message_is_changed(ms, 0, none);
        assert(ms.skip(0) =~= ms);
        assert(Seq::<Tree>::empty() + ms.map_values(cleaned()) =~= ms.map_values(cleaned()));
        let items = ms.map_values(cleaned());
        json::set_is_found(body->Obj_0, "messages"@, Tree::Arr(items), "messages"@);
        json::set_is_found(body->Obj_0, "messages"@, Tree::Arr(items), k);
    }
}

// -------------------------------------------------------------------- rounds

proof fn the_next_repairer(r: RepairsV, i: int)
    requires
        0 <= i <= r.rectifiers.len(),
    ensures
        match r.repairer(i) {
            Some(k) => i <= k < r.rectifiers.len() && r.rectifiers[k].applies(r.error) && r.rectifiers[k].repaired(
                r.body,
            ).applied && !(k == r.at && r.rounds >= 3) && forall|j: int|
                i <= j < k ==> !((#[trigger] r.rectifiers[j]).applies(r.error) && r.rectifiers[j].repaired(
                    r.body,
                ).applied) || (j == r.at && r.rounds >= 3),
            None => forall|j: int|
                i <= j < r.rectifiers.len() ==> !((#[trigger] r.rectifiers[j]).applies(r.error)
                    && r.rectifiers[j].repaired(r.body).applied) || (j == r.at && r.rounds >= 3),
        },
    decreases r.rectifiers.len() - i,
{
    if i < r.rectifiers.len() {
        if !(pipeline::can_repair(r.rectifiers[i], r.error, r.body) && !(i == r.at && r.rounds >= 3)) {
            the_next_repairer(r, i + 1);
        }
    }
}

/// The next repair is made by the first rectifier, from the one whose turn it is on,
/// that the error calls and that finds something to repair; the one whose turn it is
/// has three rounds, and a rectifier that was passed by does not come again.
pub proof fn repairs_go_in_order(r: RepairsV)
    requires
        0 <= r.at <= r.rectifiers.len(),
        r.rounds <= 3,
    ensures
        match r.repairer(r.at) {
            Some(k) => {
                &&& r.at <= k < r.rectifiers.len()
                &&& r.rectifiers[k].applies(r.error)
                &&& r.rectifiers[k].repaired(r.body).applied
                &&& k == r.at ==> r.rounds < 3
                &&& forall|j: int|
                    r.at <= j < k ==> !((#[trigger] r.rectifiers[j]).applies(r.error) && r.rectifiers[j].repaired(
                        r.body,
                    ).applied) || (j == r.at && r.rounds == 3)
                &&& r.repaired_by(k).at == k
                &&& r.repaired_by(k).rounds == if k == r.at { r.rounds + 1 } else { 1 }
                &&& r.repaired_by(k).body == r.rectifiers[k].repaired(r.body).body
                &&& r.repaired_by(k).rectifiers == r.rectifiers
                &&& r.repaired_by(k).error == r.error
            },
            None => forall|j: int|
                r.at <= j < r.rectifiers.len() ==> !((#[trigger] r.rectifiers[j]).applies(r.error)
                    && r.rectifiers[j].repaired(r.body).applied) || (j == r.at && r.rounds == 3),
        },
{
    the_next_repairer(r, r.at);
}

// -------------------------------------------------------------------- trials

/// A candidate that cannot see is first given descriptions, where that is on and the
/// request holds pictures; any other gets the request as it is.
pub proof fn blind_models_get_descriptions(vision: bool, c: CandidateV, req: RequestV)
    ensures
        ({
            let pictures = pipeline::message_images(req.messages, 0, Seq::empty());
            &&& vision && !c.entry.supports_vision && pictures.len() > 0 ==> trial::begun(vision, c, req)
                == TrialV::Describe(DescribingV { req, rejected: None })
            &&& !vision || c.entry.supports_vision || pictures.len() == 0 ==> trial::begun(vision, c, req)
                == TrialV::Prepare(PreparingV { req })
        }),
{
}

/// Descriptions change the messages alone. Those made before a first sending lead to
/// preparing; those made after a refusal lead to sending again, with the same key.
pub proof fn descriptions_lead_on(
    d: DescribingV,
    c: CandidateV,
    descriptions: Seq<Option<Seq<char>>>,
    placeholder: Seq<char>,
)
    ensures
        ({
            let req = RequestV {
                messages: pipeline::messages_described(
                    d.req.messages,
                    0,
                    Seq::empty(),
                    0,
                    descriptions,
                    placeholder,
                ),
                ..d.req
            };
            let body = upstream::provider_body(
                c.provider,
                req,
                c.entry.upstream_model,
                c.entry.max_output_tokens,
                EncodeMode::Normal,
            );
            &&& d.rejected is None ==> d.described(c, descriptions, placeholder) == TrialV::Prepare(PreparingV { req })
            &&& d.rejected matches Some((key, e)) ==> match body {
                Ok(b) => d.described(c, descriptions, placeholder) == TrialV::Send(
                    SendingV { req, key, tried: TriedV::Described(b, e) },
                ),
                Err(_) => d.described(c, descriptions, placeholder) == TrialV::Fail(e),
            }
        }),
{
}

/// What is sent in an attempt is the request as the candidate's provider is spoken to,
/// for the candidate's own model and under its own limit, with the provider's key. A
/// provider that needs a key and has none is not asked.
pub proof fn attempts_are_made_for_their_candidate(
    p: PreparingV,
    c: CandidateV,
    secret: Option<Seq<char>>,
    mode: EncodeMode,
)
    ensures
        ({
            let body = upstream::provider_body(
                c.provider,
                p.req,
                c.entry.upstream_model,
                c.entry.max_output_tokens,
                mode,
            );
            let needs = c.provider.key_ref.len() > 0;
            let given = secret is Some && secret->0.len() > 0;
            &&& needs && !given ==> p.keyed(c, secret, mode) == TrialV::Unprepared(
                ErrorV::MissingApiKey(c.provider.name),
            )
            &&& !needs || given ==> match body {
                Ok(b) => p.keyed(c, secret, mode) == TrialV::Probe(
                    ProbingV { req: p.req, key: if needs { secret } else { None }, body: b },
                ),
                Err(e) => p.keyed(c, secret, mode) == TrialV::Unprepared(e),
            }
        }),
{
}

/// What was prepared is sent unchanged, where the breaker lets it through.
pub proof fn what_was_prepared_is_sent(p: ProbingV)
    ensures
        p.answered(false) == TrialV::Skip,
        p.answered(true) == TrialV::Send(SendingV { req: p.req, key: p.key, tried: TriedV::AsItIs(p.body) }),
        (SendingV { req: p.req, key: p.key, tried: TriedV::AsItIs(p.body) }).body() == p.body,
{
}

/// A refusal of the request as it was that pictures explain leads to descriptions; any
/// other to the rectifiers, with the refusal they are to repair. A repaired request that
/// is refused again goes on with the new refusal. What nobody can repair has failed with
/// the refusal.
pub proof fn refusals_lead_on(s: SendingV, c: CandidateV, e: ErrorV, vision: bool, rectifiers: RectifierConfig)
    ensures
        ({
            let pictures = pipeline::message_images(s.req.messages, 0, Seq::empty()).len() > 0;
            let now = s.rejected(c, e, vision, rectifiers);
            &&& s.tried is AsItIs && vision && MediaFallbackRectifier.applies(e) && pictures ==> now
                == TrialV::Describe(DescribingV { req: s.req, rejected: Some((s.key, e)) })
            &&& s.tried is AsItIs && !(vision && MediaFallbackRectifier.applies(e) && pictures) ==> goes_to_repair(
                s,
                c,
                e,
                rectifiers,
                now,
            )
            &&& s.tried matches TriedV::Described(_, first) ==> goes_to_repair(s, c, first, rectifiers, now)
            &&& s.tried matches TriedV::Repaired(r) ==> is_next_repair(
                s,
                RepairsV { error: e, retried: true, ..r },
                now,
            )
        }),
{
}

/// Whether the trial goes on with the next repair, or has failed where there is none.
pub open spec fn is_next_repair(s: SendingV, r: RepairsV, now: TrialV) -> bool {
    match r.repairer(r.at) {
        Some(i) => now == TrialV::Send(SendingV { req: s.req, key: s.key, tried: TriedV::Repaired(r.repaired_by(i)) }),
        None => now == TrialV::Fail(r.error),
    }
}

/// Whether the trial goes on with the first repair of the request as it is written for
/// the candidate.
pub open spec fn goes_to_repair(s: SendingV, c: CandidateV, e: ErrorV, rectifiers: RectifierConfig, now: TrialV) -> bool {
    match upstream::provider_body(
        c.provider,
        s.req,
        c.entry.upstream_model,
        c.entry.max_output_tokens,
        EncodeMode::Normal,
    ) {
        Ok(body) => is_next_repair(
            s,
            RepairsV { rectifiers: rectifier::enabled(rectifiers), at: 0, rounds: 0, body, error: e, retried: false },
            now,
        ),
        Err(_) => now == TrialV::Fail(e),
    }
}

} // verus!
