//! What holds of whole OpenAI streams.

use crate::ir::{Dialect, EventV};
use crate::protocol;
use crate::protocol::openai;
use crate::protocol::round_trips::openai_streams;
use crate::protocol::stream_laws;
use crate::protocol::AnyEncoder;
use vstd::prelude::*;

verus! {

/// An encoder that does or does not report the usage.
pub open spec fn flagged(e: openai::EncoderV, include_usage: bool) -> openai::EncoderV {
    openai::EncoderV { include_usage, ..e }
}

/// Outside a stop the flag changes nothing.
proof fn flag_waits(e: openai::EncoderV, ev: EventV, on: bool)
    requires
        !(ev is Stop),
    ensures
        openai::encoded_event(flagged(e, on), ev) == (openai::Written {
            e: flagged(openai::encoded_event(e, ev).e, on),
            out: openai::encoded_event(e, ev).out,
        }),
{
}

proof fn flag_waits_on(e: openai::EncoderV, es: Seq<EventV>, on: bool)
    requires
        forall|n: int| 0 <= n < es.len() ==> !(#[trigger] es[n] is Stop),
    ensures
        openai_streams::written(flagged(e, on), es) == (openai::Written {
            e: flagged(openai_streams::written(e, es).e, on),
            out: openai_streams::written(e, es).out,
        }),
    decreases es.len(),
{
    if es.len() > 0 {
        let most = es.drop_last();
        assert forall|n: int| 0 <= n < most.len() implies !(#[trigger] most[n] is Stop) by {
            assert(most[n] == es[n]);
        }
        flag_waits_on(e, most, on);
        assert(es.last() == es[es.len() - 1]);
        flag_waits(openai_streams::written(e, most).e, es.last(), on);
    }
}

/// The usage flag adds one frame to an OpenAI stream that stops, right before the final
/// `[DONE]`: it has no choices and reports the usage that the stop names. Nothing else
/// changes.
pub proof fn usage_is_one_frame_more(e: openai::EncoderV, es: Seq<EventV>)
    requires
        es.len() > 0,
        es.last() is Stop,
        stream_laws::stops_last(es),
    ensures
        ({
            let off = openai_streams::written(flagged(e, false), es);
            let on = openai_streams::written(flagged(e, true), es);
            &&& off.out.len() > 0
            &&& off.out.last() == openai_streams::done_frame()
            &&& on.out == off.out.drop_last().push(off.e.usage_chunk(es.last()->Stop_usage)).push(
                openai_streams::done_frame(),
            )
            &&& openai::encoded_finish(off.e).out.len() == 0
            &&& openai::encoded_finish(on.e).out.len() == 0
        }),
{
    let most = es.drop_last();
    assert forall|n: int| 0 <= n < most.len() implies !(#[trigger] most[n] is Stop) by {
        assert(most[n] == es[n]);
    }
    flag_waits_on(e, most, false);
    flag_waits_on(e, most, true);
    let w = openai_streams::written(e, most);
    let off = openai::encoded_event(flagged(w.e, false), es.last());
    let on = openai::encoded_event(flagged(w.e, true), es.last());
    let usage = es.last()->Stop_usage;
    assert(on.out =~= off.out.drop_last().push(off.e.usage_chunk(usage)).push(openai_streams::done_frame()));
    assert((w.out + off.out).drop_last() =~= w.out + off.out.drop_last());
    assert(w.out + on.out =~= (w.out + off.out).drop_last().push(off.e.usage_chunk(usage)).push(
        openai_streams::done_frame(),
    ));
}

/// The usage flag matters to the OpenAI dialect alone: of every other dialect the same
/// encoders are made with it and without.
pub proof fn usage_is_openais_alone(dialect: Dialect, model: Seq<char>, e: AnyEncoder)
    requires
        dialect != Dialect::OpenAI,
    ensures
        protocol::made_for(dialect, model, true, e) == protocol::made_for(dialect, model, false, e),
{
}

/// The blocks that tool calls were told of, in the order of their events.
pub open spec fn blocks_called(es: Seq<EventV>) -> Seq<u32>
    decreases es.len(),
{
    if es.len() == 0 {
        Seq::empty()
    } else {
        match es.last() {
            EventV::ToolUseStart { index, .. } => blocks_called(es.drop_last()).push(index),
            EventV::ToolUseDelta { index, .. } => blocks_called(es.drop_last()).push(index),
            _ => blocks_called(es.drop_last()),
        }
    }
}

/// Each once, in the order of first use.
pub open spec fn first_uses(s: Seq<u32>) -> Seq<u32>
    decreases s.len(),
{
    if s.len() == 0 {
        Seq::empty()
    } else {
        let most = first_uses(s.drop_last());
        if most.contains(s.last()) {
            most
        } else {
            most.push(s.last())
        }
    }
}

/// Slots counted up from nothing, one for each block.
pub open spec fn counted_up(blocks: Seq<u32>) -> Seq<(u32, u64)> {
    Seq::new(blocks.len(), |i: int| (blocks[i], i as u64))
}

pub open spec fn all_different(s: Seq<u32>) -> bool {
    forall|i: int, j: int| 0 <= i < j < s.len() ==> #[trigger] s[i] != #[trigger] s[j]
}

proof fn first_uses_differ(s: Seq<u32>)
    ensures
        all_different(first_uses(s)),
        first_uses(s).len() <= s.len(),
    decreases s.len(),
{
    if s.len() > 0 {
        first_uses_differ(s.drop_last());
        let most = first_uses(s.drop_last());
        if !most.contains(s.last()) {
            let all = most.push(s.last());
            assert forall|i: int, j: int| 0 <= i < j < all.len() implies #[trigger] all[i] != #[trigger] all[j] by {
                assert(all[i] == most[i]);
                if j < most.len() {
                    assert(all[j] == most[j]);
                }
            }
        }
    }
}

proof fn slot_is_place(blocks: Seq<u32>, index: u32, i: int)
    requires
        0 <= i <= blocks.len(),
        forall|j: int| 0 <= j < i ==> #[trigger] blocks[j] != index,
    ensures
        blocks.contains(index) ==> ({
            let slot = openai::block_slot(counted_up(blocks), index, i);
            slot is Some && exists|k: int| i <= k < blocks.len() && blocks[k] == index && slot == Some(k as u64)
        }),
        !blocks.contains(index) ==> openai::block_slot(counted_up(blocks), index, i) is None,
    decreases blocks.len() - i,
{
    let slots = counted_up(blocks);
    if i < blocks.len() {
        assert(slots[i] == (blocks[i], i as u64));
        if blocks[i] == index {
            assert(blocks.contains(index));
        } else {
            slot_is_place(blocks, index, i + 1);
        }
    }
}

proof fn blocks_called_are_few(es: Seq<EventV>)
    ensures
        blocks_called(es).len() <= es.len(),
    decreases es.len(),
{
    if es.len() > 0 {
        blocks_called_are_few(es.drop_last());
    }
}

/// An encoder that was asked for the slots of those blocks, one after the other.
pub open spec fn asked(e: openai::EncoderV, blocks: Seq<u32>) -> openai::EncoderV
    decreases blocks.len(),
{
    if blocks.len() == 0 {
        e
    } else {
        asked(e, blocks.drop_last()).with_slot(blocks.last())
    }
}

proof fn asking_counts_up(e: openai::EncoderV, blocks: Seq<u32>)
    requires
        e.tool_slots.len() == 0,
        blocks.len() <= u64::MAX,
    ensures
        asked(e, blocks).tool_slots == counted_up(first_uses(blocks)),
    decreases blocks.len(),
{
    if blocks.len() > 0 {
        let most = blocks.drop_last();
        asking_counts_up(e, most);
        first_uses_differ(most);
        slot_is_place(first_uses(most), blocks.last(), 0);
        assert(counted_up(first_uses(most)).push((blocks.last(), first_uses(most).len() as u64)) =~= counted_up(
            first_uses(most).push(blocks.last()),
        ));
    } else {
        assert(counted_up(first_uses(blocks)) =~= e.tool_slots);
    }
}

/// The tool slots of an OpenAI stream count up from nothing, one for each block that a
/// tool call was told of, in the order of first use.
pub proof fn slots_count_up(model: Seq<char>, id: Seq<char>, created: i64, es: Seq<EventV>)
    requires
        es.len() <= u64::MAX,
    ensures
        openai_streams::written(openai::fresh_encoder(model, id, created), es).e.tool_slots == counted_up(
            first_uses(blocks_called(es)),
        ),
{
    let e = openai::fresh_encoder(model, id, created);
    blocks_called_are_few(es);
    asking_counts_up(e, blocks_called(es));
    events_ask(e, es);
}

/// A stream asks for the slots of the blocks that its tool calls are told of.
proof fn events_ask(e: openai::EncoderV, es: Seq<EventV>)
    ensures
        openai_streams::written(e, es).e.tool_slots == asked(e, blocks_called(es)).tool_slots,
    decreases es.len(),
{
    if es.len() > 0 {
        let most = es.drop_last();
        events_ask(e, most);
        match es.last() {
            EventV::ToolUseStart { .. } => {
                assert(blocks_called(es).drop_last() =~= blocks_called(most));
            },
            EventV::ToolUseDelta { .. } => {
                assert(blocks_called(es).drop_last() =~= blocks_called(most));
            },
            _ => {},
        }
    }
}

/// Whatever slots were asked for before, a block keeps the slot that it got, a new one
/// gets the number of blocks before it, and no two blocks share one.
pub proof fn slots_are_kept_apart(model: Seq<char>, id: Seq<char>, created: i64, asks: Seq<u32>, a: u32, b: u32)
    requires
        asks.len() < u64::MAX,
    ensures
        ({
            let e = asked(openai::fresh_encoder(model, id, created), asks);
            let blocks = first_uses(asks);
            &&& e.tool_slots == counted_up(blocks)
            &&& all_different(blocks)
            &&& blocks.contains(a) == asks.contains(a)
            &&& asks.contains(a) ==> 0 <= e.slot(a) < blocks.len() && blocks[e.slot(a) as int] == a
            &&& !asks.contains(a) ==> e.slot(a) == blocks.len()
            &&& e.with_slot(a).slot(a) == e.slot(a)
            &&& asks.contains(b) ==> e.with_slot(a).slot(b) == e.slot(b)
            &&& a != b ==> e.with_slot(a).slot(b) != e.slot(a)
        }),
{
    let e = asked(openai::fresh_encoder(model, id, created), asks);
    let blocks = first_uses(asks);
    asking_counts_up(openai::fresh_encoder(model, id, created), asks);
    first_uses_differ(asks);
    first_uses_hold(asks, a);
    first_uses_hold(asks, b);
    slot_is_place(blocks, a, 0);
    slot_is_place(blocks, b, 0);
    if !blocks.contains(a) {
        let more = blocks.push(a);
        assert(counted_up(blocks).push((a, blocks.len() as u64)) =~= counted_up(more));
        assert(more.contains(a)) by {
            assert(more[blocks.len() as int] == a);
        }
        slot_is_place(more, a, 0);
        slot_is_place(more, b, 0);
        assert forall|k: int| 0 <= k < more.len() && more[k] == a implies k == blocks.len() by {
            if k < blocks.len() {
                assert(blocks[k] == a);
            }
        }
        if blocks.contains(b) {
            let k = choose|k: int| 0 <= k < blocks.len() && blocks[k] == b;
            assert(more[k] == b);
        } else if a != b {
            assert(!more.contains(b)) by {
                if more.contains(b) {
                    let k = choose|k: int| 0 <= k < more.len() && more[k] == b;
                    assert(k < blocks.len() && blocks[k] == b);
                }
            }
        }
    }
}

proof fn first_uses_hold(s: Seq<u32>, x: u32)
    ensures
        first_uses(s).contains(x) == s.contains(x),
    decreases s.len(),
{
    if s.len() > 0 {
        let most = s.drop_last();
        first_uses_hold(most, x);
        if s.contains(x) && x != s.last() {
            let j = choose|j: int| 0 <= j < s.len() && s[j] == x;
            assert(most[j] == x);
        }
        if most.contains(x) {
            let j = choose|j: int| 0 <= j < most.len() && most[j] == x;
            assert(s[j] == x);
        }
        assert(s[s.len() - 1] == s.last());
        let uses = first_uses(most);
        if !uses.contains(s.last()) {
            let more = uses.push(s.last());
            assert(more[uses.len() as int] == s.last());
            if uses.contains(x) {
                let j = choose|j: int| 0 <= j < uses.len() && uses[j] == x;
                assert(more[j] == x);
            }
            if more.contains(x) && x != s.last() {
                let j = choose|j: int| 0 <= j < more.len() && more[j] == x;
                assert(uses[j] == x);
            }
        }
    }
}

/// The same of a stream: the slots are those of the blocks that its tool calls were told
/// of.
pub proof fn streams_keep_slots_apart(
    model: Seq<char>,
    id: Seq<char>,
    created: i64,
    es: Seq<EventV>,
    a: u32,
    b: u32,
)
    requires
        es.len() < u64::MAX,
    ensures
        ({
            let e = openai_streams::written(openai::fresh_encoder(model, id, created), es).e;
            let blocks = first_uses(blocks_called(es));
            &&& blocks.contains(a) ==> 0 <= e.slot(a) < blocks.len() && blocks[e.slot(a) as int] == a
            &&& !blocks.contains(a) ==> e.slot(a) == blocks.len()
            &&& e.with_slot(a).slot(a) == e.slot(a)
            &&& blocks.contains(b) ==> e.with_slot(a).slot(b) == e.slot(b)
            &&& a != b ==> e.with_slot(a).slot(b) != e.slot(a)
        }),
{
    blocks_called_are_few(es);
    events_ask(openai::fresh_encoder(model, id, created), es);
    slots_are_kept_apart(model, id, created, blocks_called(es), a, b);
    first_uses_hold(blocks_called(es), b);
}

} // verus!
