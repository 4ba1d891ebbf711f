//! What the events say that an OpenAI stream is read as.

use crate::error::ErrorV;
use crate::ir::{EventV, StopReason, Usage};
use crate::json::{Lookup, Tree};
use crate::laws;
use crate::protocol::openai;
use crate::protocol::openai::{Block, ParserV, Run, Step};
use crate::protocol::sse::FrameV;
use crate::text;
use vstd::prelude::*;

verus! {

// -------------------------------------------------------------- what is heard

/// The words that an event tells.
pub open spec fn words_told() -> spec_fn(EventV) -> Seq<char> {
    |e: EventV|
        match e {
            EventV::TextDelta { text, .. } => text,
            _ => Seq::empty(),
        }
}

/// The reasoning that an event tells.
pub open spec fn thoughts_told() -> spec_fn(EventV) -> Seq<char> {
    |e: EventV|
        match e {
            EventV::ThinkingDelta { text, .. } => text,
            _ => Seq::empty(),
        }
}

/// The arguments that an event tells of a block.
pub open spec fn arguments_told(i: u32) -> spec_fn(EventV) -> Seq<char> {
    |e: EventV|
        match e {
            EventV::ToolUseDelta { index, partial_json } => if index == i {
                partial_json
            } else {
                Seq::empty()
            },
            _ => Seq::empty(),
        }
}

/// The tool calls that are begun in a block: their name and their identifier.
pub open spec fn begun_at(i: u32) -> spec_fn(EventV) -> Option<(Seq<char>, Seq<char>)> {
    |e: EventV|
        match e {
            EventV::ToolUseStart { index, name, id } => if index == i {
                Some((name, id))
            } else {
                None
            },
            _ => None,
        }
}

/// The blocks that are closed.
pub open spec fn blocks_closed() -> spec_fn(EventV) -> Option<u32> {
    |e: EventV|
        match e {
            EventV::BlockStop { index } => Some(index),
            _ => None,
        }
}

/// The ends of the answer.
pub open spec fn stops_told() -> spec_fn(EventV) -> Option<(StopReason, Usage)> {
    |e: EventV|
        match e {
            EventV::Stop { stop_reason, usage, .. } => Some((stop_reason, usage)),
            _ => None,
        }
}

// ------------------------------------------------------------- what was said

/// The delta of a choice, or the whole message in its place.
pub open spec fn delta_in(choice: Tree) -> Option<Tree> {
    if choice.at("delta"@) is Some {
        choice.at("delta"@)
    } else {
        choice.at("message"@)
    }
}

/// Only the first choice is heard.
pub open spec fn is_heard(choice: Tree) -> bool {
    choice.at("index"@).uint() is None || choice.at("index"@).uint() == Some(0u64)
}

pub open spec fn words_in() -> spec_fn(Tree) -> Seq<char> {
    |c: Tree|
        if is_heard(c) && openai::flat(delta_in(c).at("content"@)) is Some {
            openai::flat(delta_in(c).at("content"@))->0
        } else {
            Seq::empty()
        }
}

pub open spec fn thoughts_in() -> spec_fn(Tree) -> Seq<char> {
    |c: Tree|
        if !is_heard(c) {
            Seq::empty()
        } else if delta_in(c).at("reasoning_content"@) is Some {
            delta_in(c).at("reasoning_content"@).text_or(Seq::empty())
        } else {
            delta_in(c).at("reasoning"@).text_or(Seq::empty())
        }
}

/// The entries of tool calls in a choice.
pub open spec fn entries_in() -> spec_fn(Tree) -> Seq<Tree> {
    |c: Tree|
        if is_heard(c) && delta_in(c).at("tool_calls"@).list() is Some {
            delta_in(c).at("tool_calls"@).list()->0
        } else {
            Seq::empty()
        }
}

/// The slot that an entry is about.
pub open spec fn slot_in(entry: Tree) -> u64 {
    if entry.at("index"@).uint() is Some {
        entry.at("index"@).uint()->0
    } else {
        0
    }
}

/// The arguments that an entry adds to a slot.
pub open spec fn arguments_in(slot: u64) -> spec_fn(Tree) -> Seq<char> {
    |entry: Tree|
        if slot_in(entry) == slot {
            entry.at("function"@).at("arguments"@).text_or(Seq::empty())
        } else {
            Seq::empty()
        }
}

/// An entry that is about a slot.
pub open spec fn about(slot: u64) -> spec_fn(Tree) -> Option<Tree> {
    |entry: Tree|
        if slot_in(entry) == slot {
            Some(entry)
        } else {
            None
        }
}

// -------------------------------------------------------------------- reading

/// Slots and their blocks are kept apart, and every block is behind us.
pub open spec fn slots_apart(p: ParserV) -> bool {
    &&& forall|i: int| 0 <= i < p.tool_slots.len() ==> (#[trigger] p.tool_slots[i]).1 < p.next_index
    &&& forall|i: int, j: int|
        0 <= i < j < p.tool_slots.len() ==> (#[trigger] p.tool_slots[i]).0 != (#[trigger] p.tool_slots[j]).0
            && p.tool_slots[i].1 != p.tool_slots[j].1
    &&& p.current matches Some((i, _)) ==> i < p.next_index
}

/// Nothing is told of the block.
pub open spec fn untold(out: Seq<EventV>, i: u32) -> bool {
    out.flat_map(arguments_told(i)).len() == 0 && out.filter_map(begun_at(i)).len() == 0
}

/// Nothing is told of a block that is still ahead.
pub open spec fn nothing_ahead(s: Step) -> bool {
    forall|i: u32| i >= s.p.next_index ==> #[trigger] untold(s.out, i)
}

/// The block of a slot.
pub open spec fn block_of(p: ParserV, slot: u64) -> Option<u32> {
    openai::slot_block(p.tool_slots, slot, 0)
}

proof fn one_more_event(out: Seq<EventV>, e: EventV, i: u32)
    ensures
        out.push(e).flat_map(words_told()) == out.flat_map(words_told()) + words_told()(e),
        out.push(e).flat_map(thoughts_told()) == out.flat_map(thoughts_told()) + thoughts_told()(e),
        out.push(e).flat_map(arguments_told(i)) == out.flat_map(arguments_told(i)) + arguments_told(i)(e),
        out.push(e).filter_map(begun_at(i)) == match begun_at(i)(e) {
            Some(x) => out.filter_map(begun_at(i)).push(x),
            None => out.filter_map(begun_at(i)),
        },
        out.push(e).filter_map(blocks_closed()) == match blocks_closed()(e) {
            Some(x) => out.filter_map(blocks_closed()).push(x),
            None => out.filter_map(blocks_closed()),
        },
        out.push(e).filter_map(stops_told()) == match stops_told()(e) {
            Some(x) => out.filter_map(stops_told()).push(x),
            None => out.filter_map(stops_told()),
        },
{
    out.lemma_flat_map_push(words_told(), e);
    out.lemma_flat_map_push(thoughts_told(), e);
    out.lemma_flat_map_push(arguments_told(i), e);
    assert(out.push(e).drop_last() =~= out);
    if let Some(x) = begun_at(i)(e) {
        assert(out.filter_map(begun_at(i)) + seq![x] =~= out.filter_map(begun_at(i)).push(x));
    }
    if let Some(x) = blocks_closed()(e) {
        assert(out.filter_map(blocks_closed()) + seq![x] =~= out.filter_map(blocks_closed()).push(x));
    }
    if let Some(x) = stops_told()(e) {
        assert(out.filter_map(stops_told()) + seq![x] =~= out.filter_map(stops_told()).push(x));
    }
}

/// One where a block is open.
pub open spec fn is_open(p: ParserV) -> int {
    if p.current is Some {
        1
    } else {
        0
    }
}

/// How a step goes on from another, but for what it tells: the blocks that were opened
/// are closed or open, and no end is told.
spec fn goes_on(a: Step, b: Step) -> bool {
    &&& a.p.next_index <= b.p.next_index
    &&& a.out.filter_map(blocks_closed()).len() + is_open(a.p) + (b.p.next_index - a.p.next_index) == b.out.filter_map(
        blocks_closed(),
    ).len() + is_open(b.p)
    &&& a.out.filter_map(stops_told()) == b.out.filter_map(stops_told())
    &&& b.p.usage == a.p.usage
    &&& b.p.emitted_stop == a.p.emitted_stop
    &&& b.p.started == a.p.started
}

proof fn block_is_ready(s: Step, kind: Block, fresh: bool, i: u32)
    requires
        slots_apart(s.p),
        nothing_ahead(s),
        s.p.next_index < u32::MAX,
    ensures
        ({
            let t = if fresh {
                s.open_block(kind)
            } else {
                s.block_for(kind)
            };
            &&& slots_apart(t.p)
            &&& nothing_ahead(t)
            &&& goes_on(s, t)
            &&& t.p.next_index <= s.p.next_index + 1
            &&& t.p.tool_slots == s.p.tool_slots
            &&& t.p.pending_stop == s.p.pending_stop
            &&& t.p.current == Some((t.index(), kind))
            &&& fresh ==> t.index() == s.p.next_index && t.p.next_index == s.p.next_index + 1
            &&& t.out.flat_map(words_told()) == s.out.flat_map(words_told())
            &&& t.out.flat_map(thoughts_told()) == s.out.flat_map(thoughts_told())
            &&& t.out.flat_map(arguments_told(i)) == s.out.flat_map(arguments_told(i))
            &&& t.out.filter_map(begun_at(i)) == s.out.filter_map(begun_at(i))
        }),
{
    let t = if fresh {
        s.open_block(kind)
    } else {
        s.block_for(kind)
    };
    if let Some((index, _)) = s.p.current {
        let e = EventV::BlockStop { index };
        one_more_event(s.out, e, i);
        assert(s.out.flat_map(words_told()) + Seq::empty() =~= s.out.flat_map(words_told()));
        assert(s.out.flat_map(thoughts_told()) + Seq::empty() =~= s.out.flat_map(thoughts_told()));
        assert(s.out.flat_map(arguments_told(i)) + Seq::empty() =~= s.out.flat_map(arguments_told(i)));
        assert forall|j: u32| j >= t.p.next_index implies #[trigger] untold(t.out, j) by {
            one_more_event(s.out, e, j);
            assert(untold(s.out, j));
        }
    } else {
        assert forall|j: u32| j >= t.p.next_index implies #[trigger] untold(t.out, j) by {
            assert(untold(s.out, j));
        }
    }
}

/// An event that is told of a block behind us.
proof fn telling_goes_on(s: Step, e: EventV)
    requires
        nothing_ahead(s),
        blocks_closed()(e) is None,
        stops_told()(e) is None,
        e matches EventV::ToolUseDelta { index, .. } ==> index < s.p.next_index,
        e matches EventV::ToolUseStart { index, .. } ==> index < s.p.next_index,
    ensures
        goes_on(s, s.emit(e)),
        nothing_ahead(s.emit(e)),
{
    one_more_event(s.out, e, 0);
    let t = s.emit(e);
    assert forall|j: u32| j >= t.p.next_index implies #[trigger] untold(t.out, j) by {
        one_more_event(s.out, e, j);
        assert(untold(s.out, j));
    }
}

proof fn slots_are_found(slots: Seq<(u64, u32)>, slot: u64, i: int)
    requires
        0 <= i <= slots.len(),
    ensures
        openai::slot_block(slots, slot, i) matches Some(b) ==> exists|k: int|
            i <= k < slots.len() && #[trigger] slots[k] == (slot, b),
        openai::slot_block(slots, slot, i) is None ==> forall|k: int|
            i <= k < slots.len() ==> (#[trigger] slots[k]).0 != slot,
    decreases slots.len() - i,
{
    if i < slots.len() {
        if slots[i].0 == slot {
            assert(slots[i] == (slot, slots[i].1));
        } else {
            slots_are_found(slots, slot, i + 1);
        }
    }
}

proof fn slot_is_added(slots: Seq<(u64, u32)>, new: (u64, u32), slot: u64, i: int)
    requires
        0 <= i <= slots.len(),
    ensures
        openai::slot_block(slots.push(new), slot, i) == match openai::slot_block(slots, slot, i) {
            Some(b) => Some(b),
            None => if new.0 == slot {
                Some(new.1)
            } else {
                None
            },
        },
    decreases slots.len() - i,
{
    if i < slots.len() {
        assert(slots.push(new)[i] == slots[i]);
        if slots[i].0 != slot {
            slot_is_added(slots, new, slot, i + 1);
        }
    } else {
        assert(slots.push(new)[i] == new);
        if new.0 != slot {
            assert(openai::slot_block(slots.push(new), slot, i + 1) is None);
        }
    }
}

/// What an entry adds to its slot, and to no other. One that opens a slot begins a call.
proof fn entry_is_told(r: Run, call: Tree, ids: Seq<Seq<char>>, slot: u64)
    requires
        slots_apart(r.s.p),
        nothing_ahead(r.s),
        r.s.p.next_index < u32::MAX,
    ensures
        ({
            let t = openai::push_call(r, call, ids).s;
            &&& slots_apart(t.p)
            &&& nothing_ahead(t)
            &&& goes_on(r.s, t)
            &&& t.p.next_index <= r.s.p.next_index + 1
            &&& t.p.pending_stop == r.s.p.pending_stop
            &&& t.out.flat_map(words_told()) == r.s.out.flat_map(words_told())
            &&& t.out.flat_map(thoughts_told()) == r.s.out.flat_map(thoughts_told())
            &&& slot_grows(r.s, t, seq![call], slot)
        }),
{
    let s = r.s;
    let mine = slot_in(call);
    let known = block_of(s.p, mine);
    let b = match block_of(openai::push_call(r, call, ids).s.p, slot) {
        Some(i) => i,
        None => 0,
    };
    slots_are_found(s.p.tool_slots, mine, 0);
    slots_are_found(s.p.tool_slots, slot, 0);
    let (opened, index) = if known is Some {
        (s, known->0)
    } else {
        block_is_ready(s, Block::Tool, true, b);
        let t = s.open_block(Block::Tool);
        let start = EventV::ToolUseStart {
            index: t.index(),
            id: call.at("id"@).text_or(openai::id_at(ids, r.used as int)),
            name: call.at("function"@).at("name"@).text_or(Seq::empty()),
        };
        let u = Step { p: ParserV { tool_slots: t.p.tool_slots.push((mine, t.index())), ..t.p }, ..t };
        slot_is_added(s.p.tool_slots, (mine, t.index()), slot, 0);
        slot_is_added(s.p.tool_slots, (mine, t.index()), mine, 0);
        assert forall|i: int, j: int| 0 <= i < j < u.p.tool_slots.len() implies (#[trigger] u.p.tool_slots[i]).0 != (
        #[trigger] u.p.tool_slots[j]).0 && u.p.tool_slots[i].1 != u.p.tool_slots[j].1 by {
            assert(u.p.tool_slots[i] == s.p.tool_slots[i]);
            if j < s.p.tool_slots.len() {
                assert(u.p.tool_slots[j] == s.p.tool_slots[j]);
            }
        }
        assert forall|i: int| 0 <= i < u.p.tool_slots.len() implies (#[trigger] u.p.tool_slots[i]).1
            < u.p.next_index by {
            if i < s.p.tool_slots.len() {
                assert(u.p.tool_slots[i] == s.p.tool_slots[i]);
            }
        }
        assert(nothing_ahead(u)) by {
            assert(u.out == t.out);
            assert forall|j: u32| j >= u.p.next_index implies #[trigger] untold(u.out, j) by {
                assert(untold(t.out, j));
            }
        }
        telling_goes_on(u, start);
        one_more_event(u.out, start, b);
        assert(u.out.flat_map(words_told()) + Seq::empty() =~= u.out.flat_map(words_told()));
        assert(u.out.flat_map(thoughts_told()) + Seq::empty() =~= u.out.flat_map(thoughts_told()));
        assert(u.out.flat_map(arguments_told(b)) + Seq::empty() =~= u.out.flat_map(arguments_told(b)));
        (u.emit(start), t.index())
    };
    let said = call.at("function"@).at("arguments"@).words();
    if let Some(args) = said {
        let e = EventV::ToolUseDelta { index, partial_json: args };
        telling_goes_on(opened, e);
        one_more_event(opened.out, e, b);
        assert(opened.out.flat_map(words_told()) + Seq::empty() =~= opened.out.flat_map(words_told()));
        assert(opened.out.flat_map(thoughts_told()) + Seq::empty() =~= opened.out.flat_map(thoughts_told()));
        assert(opened.out.flat_map(arguments_told(b)) + Seq::empty() =~= opened.out.flat_map(arguments_told(b)));
    } else {
        assert(call.at("function"@).at("arguments"@).text_or(Seq::empty()) =~= Seq::empty());
        assert(opened.out.flat_map(arguments_told(b)) + Seq::empty() =~= opened.out.flat_map(arguments_told(b)));
    }
    let t = openai::push_call(r, call, ids).s;
    if block_of(t.p, slot) is Some {
        if slot != mine {
            // Two slots never share a block.
            if block_of(s.p, slot) is Some && known is Some {
                let i = choose|i: int| 0 <= i < s.p.tool_slots.len() && #[trigger] s.p.tool_slots[i] == (slot, b);
                let j = choose|j: int| 0 <= j < s.p.tool_slots.len() && #[trigger] s.p.tool_slots[j] == (mine, index);
                assert(b != index);
            }
        }
        if block_of(s.p, slot) is None {
            assert(untold(s.out, b));
            assert(t.out.filter_map(begun_at(b)).len() == 1);
        }
    }
    let one = seq![call];
    assert(one =~= Seq::empty().push(call));
    laws::one_unfolds(call, arguments_in(slot));
    reveal_with_fuel(Seq::filter_map, 2);
    assert(one.drop_last() =~= Seq::empty());
    if slot == mine {
        assert(one.filter_map(about(slot)) =~= one);
    } else {
        assert(one.filter_map(about(slot)) =~= Seq::empty());
    }
}

/// What entries add to a slot from one step to another: its arguments grow by theirs, and
/// the first one that is about a new slot names its call.
pub open spec fn slot_grows(a: Step, b: Step, entries: Seq<Tree>, slot: u64) -> bool {
    let mine = entries.filter_map(about(slot));
    let more = entries.flat_map(arguments_in(slot));
    match block_of(b.p, slot) {
        Some(i) => {
            &&& b.out.flat_map(arguments_told(i)) == a.out.flat_map(arguments_told(i)) + more
            &&& block_of(a.p, slot) is Some ==> block_of(a.p, slot) == Some(i) && b.out.filter_map(begun_at(i))
                == a.out.filter_map(begun_at(i))
            &&& block_of(a.p, slot) is None ==> i >= a.p.next_index && mine.len() > 0 && is_begun(
                b.out.filter_map(begun_at(i)),
                mine[0],
            )
        },
        None => mine.len() == 0 && more.len() == 0 && block_of(a.p, slot) is None,
    }
}

/// One call was begun, as the entry names it.
pub open spec fn is_begun(calls: Seq<(Seq<char>, Seq<char>)>, entry: Tree) -> bool {
    &&& calls.len() == 1
    &&& calls[0].0 == entry.at("function"@).at("name"@).text_or(Seq::empty())
    &&& entry.at("id"@).text() is Some ==> calls[0].1 == entry.at("id"@).text()->0
}

/// From one step to another all of that was heard, and nothing else.
spec fn hears(a: Step, b: Step, words: Seq<char>, thoughts: Seq<char>, entries: Seq<Tree>) -> bool {
    tells(a, b, words, thoughts, entries) && goes_on(a, b)
}

spec fn tells(a: Step, b: Step, words: Seq<char>, thoughts: Seq<char>, entries: Seq<Tree>) -> bool {
    &&& slots_apart(b.p)
    &&& nothing_ahead(b)
    &&& a.p.next_index <= b.p.next_index
    &&& b.out.flat_map(words_told()) == a.out.flat_map(words_told()) + words
    &&& b.out.flat_map(thoughts_told()) == a.out.flat_map(thoughts_told()) + thoughts
    &&& forall|slot: u64| #[trigger] slot_grows(a, b, entries, slot)
}

proof fn hears_nothing(a: Step)
    requires
        slots_apart(a.p),
        nothing_ahead(a),
    ensures
        hears(a, a, Seq::empty(), Seq::empty(), Seq::empty()),
{
    assert(a.out.flat_map(words_told()) + Seq::empty() =~= a.out.flat_map(words_told()));
    assert(a.out.flat_map(thoughts_told()) + Seq::empty() =~= a.out.flat_map(thoughts_told()));
    assert forall|slot: u64| #[trigger] slot_grows(a, a, Seq::empty(), slot) by {
        let none = Seq::<Tree>::empty();
        assert(none.map_values(arguments_in(slot)) =~= Seq::empty());
        if let Some(i) = block_of(a.p, slot) {
            assert(a.out.flat_map(arguments_told(i)) + Seq::empty() =~= a.out.flat_map(arguments_told(i)));
        }
    }
}

proof fn hears_on(
    a: Step,
    b: Step,
    c: Step,
    w: Seq<char>,
    t: Seq<char>,
    es: Seq<Tree>,
    w2: Seq<char>,
    t2: Seq<char>,
    es2: Seq<Tree>,
)
    requires
        nothing_ahead(a),
        hears(a, b, w, t, es),
        hears(b, c, w2, t2, es2),
    ensures
        hears(a, c, w + w2, t + t2, es + es2),
{
    tells_on(a, b, c, w, t, es, w2, t2, es2);
}

proof fn tells_on(
    a: Step,
    b: Step,
    c: Step,
    w: Seq<char>,
    t: Seq<char>,
    es: Seq<Tree>,
    w2: Seq<char>,
    t2: Seq<char>,
    es2: Seq<Tree>,
)
    requires
        nothing_ahead(a),
        tells(a, b, w, t, es),
        tells(b, c, w2, t2, es2),
    ensures
        tells(a, c, w + w2, t + t2, es + es2),
{
    assert(a.out.flat_map(words_told()) + w + w2 =~= a.out.flat_map(words_told()) + (w + w2));
    assert(a.out.flat_map(thoughts_told()) + t + t2 =~= a.out.flat_map(thoughts_told()) + (t + t2));
    assert forall|slot: u64| #[trigger] slot_grows(a, c, es + es2, slot) by {
        assert(slot_grows(a, b, es, slot));
        assert(slot_grows(b, c, es2, slot));
        laws::unfolding_joins(es, es2, arguments_in(slot));
        laws::keeping_joins(es, es2, about(slot));
        let m = es.filter_map(about(slot));
        let m2 = es2.filter_map(about(slot));
        if let Some(i) = block_of(c.p, slot) {
            let x = es.flat_map(arguments_in(slot));
            let x2 = es2.flat_map(arguments_in(slot));
            if block_of(b.p, slot) is None {
                assert(untold(a.out, i));
                assert(untold(b.out, i));
                assert(x =~= Seq::empty());
                assert((m + m2)[0] == m2[0]);
                assert(b.out.flat_map(arguments_told(i)) =~= a.out.flat_map(arguments_told(i)));
            } else if block_of(a.p, slot) is None {
                assert((m + m2)[0] == m[0]);
            }
            assert(a.out.flat_map(arguments_told(i)) + x + x2 =~= a.out.flat_map(arguments_told(i)) + (x + x2));
        }
    }
}

proof fn entries_are_told(r: Run, cs: Seq<Tree>, ids: Seq<Seq<char>>, i: int)
    requires
        0 <= i <= cs.len(),
        slots_apart(r.s.p),
        nothing_ahead(r.s),
        r.s.p.next_index + (cs.len() - i) <= u32::MAX,
    ensures
        ({
            let t = openai::push_calls(r, cs, ids, i).s;
            &&& hears(r.s, t, Seq::empty(), Seq::empty(), cs.skip(i))
            &&& t.p.next_index <= r.s.p.next_index + (cs.len() - i)
            &&& t.p.pending_stop == r.s.p.pending_stop
        }),
    decreases cs.len() - i,
{
    let none = Seq::<char>::empty();
    if i < cs.len() {
        let next = openai::push_call(r, cs[i], ids);
        entry_is_told(r, cs[i], ids, 0);
        assert(hears(r.s, next.s, none, none, seq![cs[i]])) by {
            assert(r.s.out.flat_map(words_told()) + none =~= r.s.out.flat_map(words_told()));
            assert(r.s.out.flat_map(thoughts_told()) + none =~= r.s.out.flat_map(thoughts_told()));
            assert forall|slot: u64| #[trigger] slot_grows(r.s, next.s, seq![cs[i]], slot) by {
                entry_is_told(r, cs[i], ids, slot);
            }
        }
        entries_are_told(next, cs, ids, i + 1);
        let t = openai::push_calls(next, cs, ids, i + 1).s;
        hears_on(r.s, next.s, t, none, none, seq![cs[i]], none, none, cs.skip(i + 1));
        assert(none + none =~= none);
        assert(seq![cs[i]] + cs.skip(i + 1) =~= cs.skip(i));
    } else {
        hears_nothing(r.s);
        assert(cs.skip(i) =~= Seq::empty());
    }
}

/// One event of text or reasoning, told of a block of its kind.
proof fn telling_is_heard(s: Step, thinking: bool, text: Seq<char>)
    requires
        slots_apart(s.p),
        nothing_ahead(s),
        s.p.next_index < u32::MAX,
    ensures
        ({
            let none = Seq::<char>::empty();
            let b = s.block_for(if thinking { Block::Thinking } else { Block::Text });
            let e = if thinking {
                EventV::ThinkingDelta { index: b.index(), text }
            } else {
                EventV::TextDelta { index: b.index(), text }
            };
            &&& hears(
                s,
                b.emit(e),
                if thinking { none } else { text },
                if thinking { text } else { none },
                Seq::empty(),
            )
            &&& b.emit(e).p.next_index <= s.p.next_index + 1
            &&& b.emit(e).p.pending_stop == s.p.pending_stop
        }),
{
    let none = Seq::<char>::empty();
    let kind = if thinking { Block::Thinking } else { Block::Text };
    let b = s.block_for(kind);
    let e = if thinking {
        EventV::ThinkingDelta { index: b.index(), text }
    } else {
        EventV::TextDelta { index: b.index(), text }
    };
    block_is_ready(s, kind, false, 0);
    telling_goes_on(b, e);
    one_more_event(b.out, e, 0);
    assert(b.out.flat_map(words_told()) + none =~= b.out.flat_map(words_told()));
    assert(b.out.flat_map(thoughts_told()) + none =~= b.out.flat_map(thoughts_told()));
    assert(s.out.flat_map(words_told()) + none =~= s.out.flat_map(words_told()));
    assert(s.out.flat_map(thoughts_told()) + none =~= s.out.flat_map(thoughts_told()));
    assert forall|slot: u64| #[trigger] slot_grows(s, b.emit(e), Seq::empty(), slot) by {
        let nobody = Seq::<Tree>::empty();
        assert(nobody.map_values(arguments_in(slot)) =~= Seq::empty());
        if let Some(i) = block_of(s.p, slot) {
            block_is_ready(s, kind, false, i);
            one_more_event(b.out, e, i);
            assert(b.out.flat_map(arguments_told(i)) + none =~= b.out.flat_map(arguments_told(i)));
            assert(s.out.flat_map(arguments_told(i)) + none =~= s.out.flat_map(arguments_told(i)));
        }
    }
}

/// How many blocks a choice opens at most.
pub open spec fn room_for(c: Tree) -> nat {
    2 + entries_in()(c).len()
}

proof fn choice_is_heard(r: Run, c: Tree, ids: Seq<Seq<char>>)
    requires
        slots_apart(r.s.p),
        nothing_ahead(r.s),
        r.s.p.next_index + room_for(c) <= u32::MAX,
    ensures
        ({
            let t = openai::push_choice(r, c, ids).s;
            &&& hears(r.s, t, words_in()(c), thoughts_in()(c), entries_in()(c))
            &&& t.p.next_index <= r.s.p.next_index + room_for(c)
            &&& t.p.pending_stop == reason_after(r.s.p.pending_stop, c)
        }),
{
    let none = Seq::<char>::empty();
    let nobody = Seq::<Tree>::empty();
    if is_heard(c) {
        let s = r.s;
        let thought = thoughts_in()(c);
        let words = words_in()(c);
        hears_nothing(s);
        let a = match openai::delta_reasoning(c) {
            Some(t) => {
                telling_is_heard(s, true, t);
                let b = s.block_for(Block::Thinking);
                b.emit(EventV::ThinkingDelta { index: b.index(), text: t })
            },
            None => s,
        };
        if openai::delta_reasoning(c) is None {
            assert(thought =~= none);
        }
        assert(hears(s, a, none, thought, nobody));
        hears_nothing(a);
        let b = match openai::delta_text(c) {
            Some(t) => {
                telling_is_heard(a, false, t);
                let b = a.block_for(Block::Text);
                b.emit(EventV::TextDelta { index: b.index(), text: t })
            },
            None => a,
        };
        if openai::delta_text(c) is None {
            assert(words =~= none);
        }
        assert(hears(a, b, words, none, nobody));
        hears_on(s, a, b, none, thought, nobody, words, none, nobody);
        assert(b == openai::push_texts(s, c));
        let x = Run { s: b, ..r };
        let cs = openai::delta_calls(c);
        assert(cs =~= entries_in()(c));
        entries_are_told(x, cs, ids, 0);
        assert(cs.skip(0) =~= cs);
        let d = openai::push_calls(x, cs, ids, 0).s;
        hears_on(s, b, d, none + words, thought + none, nobody + nobody, none, none, cs);
        assert(none + words + none =~= words);
        assert(thought + none + none =~= thought);
        assert(nobody + nobody + cs =~= cs);
        let t = openai::push_choice(r, c, ids).s;
        assert(t.out == d.out && t.p == (ParserV { pending_stop: t.p.pending_stop, ..d.p }));
        assert forall|slot: u64| #[trigger] slot_grows(s, t, cs, slot) by {
            assert(slot_grows(s, d, cs, slot));
        }
        assert forall|j: u32| j >= t.p.next_index implies #[trigger] untold(t.out, j) by {
            assert(untold(d.out, j));
        }
    } else {
        hears_nothing(r.s);
    }
}

/// Why the answer ends, as far as it is known behind a choice.
pub open spec fn reason_after(before: Option<StopReason>, c: Tree) -> Option<StopReason> {
    if is_heard(c) && c.at("finish_reason"@).words() is Some {
        Some(openai::stop_reason(c.at("finish_reason"@).words()->0))
    } else {
        before
    }
}

pub open spec fn reason_after_all(before: Option<StopReason>, cs: Seq<Tree>) -> Option<StopReason> {
    cs.fold_left(before, |r: Option<StopReason>, c: Tree| reason_after(r, c))
}

/// How many blocks choices open at most.
pub open spec fn room(cs: Seq<Tree>) -> nat {
    2 * cs.len() + cs.flat_map(entries_in()).len()
}

proof fn choices_are_heard(r: Run, cs: Seq<Tree>, ids: Seq<Seq<char>>, i: int)
    requires
        0 <= i <= cs.len(),
        slots_apart(r.s.p),
        nothing_ahead(r.s),
        r.s.p.next_index + room(cs.skip(i)) <= u32::MAX,
    ensures
        ({
            let t = openai::push_choices(r, cs, ids, i).s;
            let rest = cs.skip(i);
            &&& hears(
                r.s,
                t,
                rest.flat_map(words_in()),
                rest.flat_map(thoughts_in()),
                rest.flat_map(entries_in()),
            )
            &&& t.p.next_index <= r.s.p.next_index + room(rest)
        }),
    decreases cs.len() - i,
{
    let rest = cs.skip(i);
    if i < cs.len() {
        let c = cs[i];
        laws::unfolding_first(cs, i, words_in());
        laws::unfolding_first(cs, i, thoughts_in());
        laws::unfolding_first(cs, i, entries_in());
        let next = openai::push_choice(r, c, ids);
        choice_is_heard(r, c, ids);
        choices_are_heard(next, cs, ids, i + 1);
        let more = cs.skip(i + 1);
        hears_on(
            r.s,
            next.s,
            openai::push_choices(next, cs, ids, i + 1).s,
            words_in()(c),
            thoughts_in()(c),
            entries_in()(c),
            more.flat_map(words_in()),
            more.flat_map(thoughts_in()),
            more.flat_map(entries_in()),
        );
    } else {
        hears_nothing(r.s);
        laws::nothing_is_left(cs, |c: Tree| None::<char>, words_in());
        laws::nothing_is_left(cs, |c: Tree| None::<char>, thoughts_in());
        laws::nothing_is_left(cs, |c: Tree| None::<Tree>, entries_in());
    }
}

proof fn reasons_are_kept(r: Run, cs: Seq<Tree>, ids: Seq<Seq<char>>, i: int)
    requires
        0 <= i <= cs.len(),
    ensures
        openai::push_choices(r, cs, ids, i).s.p.pending_stop == reason_after_all(r.s.p.pending_stop, cs.skip(i)),
    decreases cs.len() - i,
{
    let f = |r: Option<StopReason>, c: Tree| reason_after(r, c);
    let rest = cs.skip(i);
    if i < cs.len() {
        let next = openai::push_choice(r, cs[i], ids);
        calls_keep_reason(Run { s: openai::push_texts(r.s, cs[i]), ..r }, openai::delta_calls(cs[i]), ids, 0);
        assert(next.s.p.pending_stop == reason_after(r.s.p.pending_stop, cs[i]));
        reasons_are_kept(next, cs, ids, i + 1);
        rest.lemma_fold_left_alt(r.s.p.pending_stop, f);
        cs.skip(i + 1).lemma_fold_left_alt(next.s.p.pending_stop, f);
        assert(rest.subrange(1, rest.len() as int) =~= cs.skip(i + 1));
        assert(rest[0] == cs[i]);
    }
}

proof fn calls_keep_reason(r: Run, cs: Seq<Tree>, ids: Seq<Seq<char>>, i: int)
    ensures
        openai::push_calls(r, cs, ids, i).s.p.pending_stop == r.s.p.pending_stop,
    decreases cs.len() - i,
{
    if 0 <= i < cs.len() {
        calls_keep_reason(openai::push_call(r, cs[i], ids), cs, ids, i + 1);
    }
}

// --------------------------------------------------------------------- frames

/// The chunk that a frame is, where it is one.
pub open spec fn chunk_in(f: FrameV) -> Option<Tree> {
    if text::trimmed(f.data).len() == 0 || text::trimmed(f.data) == "[DONE]"@ || f.json() is Err {
        None
    } else {
        Some(f.json()->Ok_0)
    }
}

pub open spec fn choices_in() -> spec_fn(FrameV) -> Seq<Tree> {
    |f: FrameV|
        if chunk_in(f).at("choices"@).list() is Some {
            chunk_in(f).at("choices"@).list()->0
        } else {
            Seq::empty()
        }
}

/// The usage that a frame reports, where it reports any tokens.
pub open spec fn usage_in(f: FrameV) -> Option<Usage> {
    let u = openai::usage_of(chunk_in(f).at("usage"@));
    if u.input_tokens + u.output_tokens > 0 {
        Some(u)
    } else {
        None
    }
}

/// Whether the frame ends an answer that goes on: the last frame of all, or one without
/// choices behind the reason to stop.
pub open spec fn ends(p: ParserV, f: FrameV) -> bool {
    !p.emitted_stop && if text::trimmed(f.data) == "[DONE]"@ {
        p.started
    } else {
        chunk_in(f) is Some && choices_in()(f).len() == 0 && p.pending_stop is Some
    }
}

proof fn rest_tells_nothing(p: ParserV)
    ensures
        ({
            let s = openai::at_rest(p);
            &&& nothing_ahead(s)
            &&& s.out.flat_map(words_told()) == Seq::<char>::empty()
            &&& s.out.flat_map(thoughts_told()) == Seq::<char>::empty()
            &&& s.out.filter_map(stops_told()).len() == 0
            &&& s.out.filter_map(blocks_closed()).len() == 0
        }),
{
    let none = Seq::<EventV>::empty();
    assert(none.map_values(words_told()) =~= Seq::empty());
    assert(none.map_values(thoughts_told()) =~= Seq::empty());
    assert forall|i: u32| #[trigger] untold(none, i) by {
        assert(none.map_values(arguments_told(i)) =~= Seq::empty());
    }
}

/// An event that tells no words, no thoughts and nothing of a call.
proof fn silence_is_kept(a: Step, b: Step, e: EventV)
    requires
        slots_apart(a.p),
        nothing_ahead(a),
        slots_apart(b.p),
        b.out == a.out.push(e),
        b.p.tool_slots == a.p.tool_slots,
        b.p.next_index == a.p.next_index,
        e is Start || e is BlockStop || e is Stop,
    ensures
        tells(a, b, Seq::empty(), Seq::empty(), Seq::empty()),
{
    let none = Seq::<char>::empty();
    one_more_event(a.out, e, 0);
    assert(a.out.flat_map(words_told()) + none =~= a.out.flat_map(words_told()));
    assert(a.out.flat_map(thoughts_told()) + none =~= a.out.flat_map(thoughts_told()));
    assert forall|i: u32| i >= b.p.next_index implies #[trigger] untold(b.out, i) by {
        one_more_event(a.out, e, i);
        assert(untold(a.out, i));
    }
    assert forall|slot: u64| #[trigger] slot_grows(a, b, Seq::empty(), slot) by {
        let nobody = Seq::<Tree>::empty();
        assert(nobody.map_values(arguments_in(slot)) =~= Seq::empty());
        if let Some(i) = block_of(a.p, slot) {
            one_more_event(a.out, e, i);
            assert(a.out.flat_map(arguments_told(i)) + none =~= a.out.flat_map(arguments_told(i)));
        }
    }
}

/// The end of an answer: what is open is closed, and one stop tells the reason and the
/// usage.
proof fn stop_is_told(s: Step)
    requires
        slots_apart(s.p),
        nothing_ahead(s),
        !s.p.emitted_stop,
    ensures
        ({
            let t = s.emit_stop();
            &&& tells(s, t, Seq::empty(), Seq::empty(), Seq::empty())
            &&& t.p.next_index == s.p.next_index
            &&& t.p.emitted_stop
            &&& t.p.current is None
            &&& t.p.usage == s.p.usage
            &&& t.p.started == s.p.started
            &&& t.out.filter_map(stops_told()) == s.out.filter_map(stops_told()).push(
                (
                    if s.p.pending_stop is Some {
                        s.p.pending_stop->0
                    } else {
                        StopReason::Unknown
                    },
                    s.p.usage,
                ),
            )
            &&& t.out.filter_map(blocks_closed()).len() == s.out.filter_map(blocks_closed()).len() + is_open(s.p)
        }),
{
    let none = Seq::<char>::empty();
    let nobody = Seq::<Tree>::empty();
    let t = s.emit_stop();
    let a = Step { p: ParserV { pending_stop: None, ..s.p }, ..s };
    assert forall|i: u32| i >= a.p.next_index implies #[trigger] untold(a.out, i) by {
        assert(untold(s.out, i));
    }
    let b = a.close_current();
    let stop = t.out.last();
    assert(stop is Stop);
    if let Some((index, _)) = s.p.current {
        let e = EventV::BlockStop { index };
        silence_is_kept(s, b, e);
        one_more_event(s.out, e, 0);
        silence_is_kept(b, t, stop);
        one_more_event(b.out, stop, 0);
        tells_on(s, b, t, none, none, nobody, none, none, nobody);
        assert(none + none =~= none);
        assert(nobody + nobody =~= nobody);
    } else {
        silence_is_kept(s, t, stop);
        one_more_event(s.out, stop, 0);
    }
}

/// What one frame is read as: its words, its reasoning and the arguments of its calls,
/// all of them and nothing else; the usage that it reports; and where it ends the answer,
/// one stop with the reason and the usage known by then. Every block that was opened is
/// closed again or open, and none is open behind the end.
pub proof fn frames_are_read_whole(p: ParserV, f: FrameV, ids: Seq<Seq<char>>)
    requires
        slots_apart(p),
        p.next_index + room(choices_in()(f)) <= u32::MAX,
    ensures
        openai::push_frame(p, f, ids) matches Ok(s) ==> {
            let cs = choices_in()(f);
            &&& slots_apart(s.p)
            &&& nothing_ahead(s)
            &&& p.next_index <= s.p.next_index <= p.next_index + room(cs)
            &&& s.out.flat_map(words_told()) == cs.flat_map(words_in())
            &&& s.out.flat_map(thoughts_told()) == cs.flat_map(thoughts_in())
            &&& forall|slot: u64| #[trigger] slot_grows(openai::at_rest(p), s, cs.flat_map(entries_in()), slot)
            &&& s.p.usage == if usage_in(f) is Some {
                usage_in(f)->0
            } else {
                p.usage
            }
            &&& s.p.emitted_stop == (p.emitted_stop || ends(p, f))
            &&& s.out.filter_map(stops_told()) == if ends(p, f) {
                seq![
                    (
                        if p.pending_stop is Some {
                            p.pending_stop->0
                        } else {
                            StopReason::Unknown
                        },
                        s.p.usage,
                    ),
                ]
            } else {
                Seq::empty()
            }
            &&& ends(p, f) ==> s.p.current is None
            &&& s.out.filter_map(blocks_closed()).len() + is_open(s.p) == is_open(p) + (s.p.next_index - p.next_index)
            &&& !ends(p, f) ==> s.p.pending_stop == reason_after_all(p.pending_stop, cs)
        },
{
    if let Ok(s) = openai::push_frame(p, f, ids) {
        let none = Seq::<char>::empty();
        let nobody = Seq::<Tree>::empty();
        let cs = choices_in()(f);
        let rest = openai::at_rest(p);
        rest_tells_nothing(p);
        let empty = Seq::<Tree>::empty();
        assert(empty.map_values(words_in()) =~= Seq::empty());
        assert(empty.map_values(thoughts_in()) =~= Seq::empty());
        assert(empty.map_values(entries_in()) =~= Seq::empty());
        let last = text::trimmed(f.data) == "[DONE]"@;
        done_is_something();
        if text::trimmed(f.data).len() == 0 || last {
            assert(cs =~= empty);
            hears_nothing(rest);
            if last && p.started && !p.emitted_stop {
                stop_is_told(rest);
                assert(s.out.filter_map(stops_told()) =~= seq![s.out.filter_map(stops_told())[0]]);
            } else {
                assert(s == rest);
            }
            assert(s.p.usage == p.usage);
            assert(openai::usage_of(None) == crate::ir::no_usage());
        } else {
            let chunk = f.json()->Ok_0;
            assert(cs =~= openai::choices_of(chunk));
            let usage = openai::usage_of(chunk.at("usage"@));
            let p1 = if chunk.at("usage"@).not_null() is Some && usage.total_spec() > 0 {
                ParserV { usage, ..p }
            } else {
                p
            };
            let a = openai::at_rest(p1);
            rest_tells_nothing(p1);
            hears_nothing(a);
            let b = a.ensure_started(chunk);
            if cs.len() == 0 && p1.pending_stop is None {
                assert(s == a);
                assert(cs =~= empty);
            } else {
                if p1.started {
                    assert(b == a);
                } else {
                    silence_is_kept(a, b, b.out[0]);
                    one_more_event(a.out, b.out[0], 0);
                    assert(b.out =~= a.out.push(b.out[0]));
                }
                if cs.len() == 0 {
                    assert(cs =~= empty);
                    if p1.emitted_stop {
                        assert(s == b);
                    } else {
                        stop_is_told(b);
                        tells_on(a, b, s, none, none, nobody, none, none, nobody);
                        assert(none + none =~= none);
                        assert(nobody + nobody =~= nobody);
                        assert(s.out.filter_map(stops_told()) =~= seq![s.out.filter_map(stops_told())[0]]);
                    }
                } else {
                    let r = Run { s: b, used: 0 };
                    assert(cs.skip(0) =~= cs);
                    choices_are_heard(r, cs, ids, 0);
                    reasons_are_kept(r, cs, ids, 0);
                    tells_on(
                        a,
                        b,
                        s,
                        none,
                        none,
                        nobody,
                        cs.flat_map(words_in()),
                        cs.flat_map(thoughts_in()),
                        cs.flat_map(entries_in()),
                    );
                    assert(none + cs.flat_map(words_in()) =~= cs.flat_map(words_in()));
                    assert(none + cs.flat_map(thoughts_in()) =~= cs.flat_map(thoughts_in()));
                    assert(nobody + cs.flat_map(entries_in()) =~= cs.flat_map(entries_in()));
                    assert(s.out.filter_map(stops_told()) =~= Seq::empty());
                }
            }
            assert(tells(a, s, cs.flat_map(words_in()), cs.flat_map(thoughts_in()), cs.flat_map(entries_in())));
            assert(s.out.flat_map(words_told()) =~= cs.flat_map(words_in()));
            assert(s.out.flat_map(thoughts_told()) =~= cs.flat_map(thoughts_in()));
            assert forall|slot: u64| #[trigger] slot_grows(rest, s, cs.flat_map(entries_in()), slot) by {
                assert(slot_grows(a, s, cs.flat_map(entries_in()), slot));
            }
        }
    }
}

proof fn done_is_something()
    ensures
        "[DONE]"@.len() == 6,
{
    reveal_strlit("[DONE]");
}

/// A parser that has read a number of frames, with all their events; the frames draw
/// their identifiers from `ids`.
pub open spec fn read(p: ParserV, frames: Seq<FrameV>, ids: Seq<Seq<Seq<char>>>) -> Result<Step, ErrorV>
    decreases frames.len(),
{
    if frames.len() == 0 {
        Ok(Step { p, out: Seq::empty() })
    } else {
        match read(p, frames.drop_last(), ids) {
            Err(e) => Err(e),
            Ok(s) => match openai::push_frame(s.p, frames.last(), ids[frames.len() - 1]) {
                Err(e) => Err(e),
                Ok(t) => Ok(Step { p: t.p, out: s.out + t.out }),
            },
        }
    }
}

/// The events of a frame behind those before it.
proof fn batches_join(a: Step, s: Step, w: Seq<char>, t: Seq<char>, es: Seq<Tree>)
    requires
        slots_apart(a.p),
        nothing_ahead(a),
        slots_apart(s.p),
        nothing_ahead(s),
        a.p.next_index <= s.p.next_index,
        s.out.flat_map(words_told()) == w,
        s.out.flat_map(thoughts_told()) == t,
        forall|slot: u64| #[trigger] slot_grows(openai::at_rest(a.p), s, es, slot),
    ensures
        tells(a, Step { p: s.p, out: a.out + s.out }, w, t, es),
{
    let b = Step { p: s.p, out: a.out + s.out };
    let none = Seq::<EventV>::empty();
    laws::unfolding_joins(a.out, s.out, words_told());
    laws::unfolding_joins(a.out, s.out, thoughts_told());
    assert forall|i: u32| i >= b.p.next_index implies #[trigger] untold(b.out, i) by {
        laws::unfolding_joins(a.out, s.out, arguments_told(i));
        laws::keeping_joins(a.out, s.out, begun_at(i));
        assert(untold(a.out, i));
        assert(untold(s.out, i));
    }
    assert forall|slot: u64| #[trigger] slot_grows(a, b, es, slot) by {
        assert(slot_grows(openai::at_rest(a.p), s, es, slot));
        if let Some(i) = block_of(b.p, slot) {
            laws::unfolding_joins(a.out, s.out, arguments_told(i));
            laws::keeping_joins(a.out, s.out, begun_at(i));
            assert(none.map_values(arguments_told(i)) =~= Seq::empty());
            assert(s.out.flat_map(arguments_told(i)) =~= es.flat_map(arguments_in(slot)));
            if block_of(a.p, slot) is None {
                assert(untold(a.out, i));
                assert(a.out.filter_map(begun_at(i)) + s.out.filter_map(begun_at(i)) =~= s.out.filter_map(
                    begun_at(i),
                ));
            } else {
                assert(a.out.filter_map(begun_at(i)) + s.out.filter_map(begun_at(i)) =~= a.out.filter_map(
                    begun_at(i),
                ));
            }
        }
    }
}

/// All that an OpenAI stream says arrives, whatever it is cut into: the words of all its
/// frames, one behind the other, and their reasoning; and for every tool slot one call,
/// named as its first entry names it, with the arguments of all its entries one behind
/// the other, those of the first among them. A slot that no entry is about has no call.
pub proof fn streams_are_read_whole(model: Seq<char>, frames: Seq<FrameV>, ids: Seq<Seq<Seq<char>>>)
    requires
        room(frames.flat_map(choices_in())) <= u32::MAX,
    ensures
        read(openai::fresh_parser(model), frames, ids) matches Ok(s) ==> {
            let cs = frames.flat_map(choices_in());
            &&& slots_apart(s.p)
            &&& nothing_ahead(s)
            &&& s.p.next_index <= room(cs)
            &&& s.out.flat_map(words_told()) == cs.flat_map(words_in())
            &&& s.out.flat_map(thoughts_told()) == cs.flat_map(thoughts_in())
            &&& forall|slot: u64| #[trigger] slot_is_told(s, cs.flat_map(entries_in()), slot)
        },
    decreases frames.len(),
{
    let fresh = openai::fresh_parser(model);
    let start = openai::at_rest(fresh);
    rest_tells_nothing(fresh);
    hears_nothing(start);
    stream_tells(model, frames, ids);
    if let Ok(s) = read(fresh, frames, ids) {
        let cs = frames.flat_map(choices_in());
        let es = cs.flat_map(entries_in());
        assert(s.out.flat_map(words_told()) =~= cs.flat_map(words_in()));
        assert(s.out.flat_map(thoughts_told()) =~= cs.flat_map(thoughts_in()));
        assert forall|slot: u64| #[trigger] slot_is_told(s, es, slot) by {
            assert(slot_grows(start, s, es, slot));
            assert(block_of(fresh, slot) is None);
            if let Some(i) = block_of(s.p, slot) {
                assert(untold(start.out, i));
                assert(s.out.flat_map(arguments_told(i)) =~= es.flat_map(arguments_in(slot)));
            }
        }
    }
}

/// What is told of a slot is what its entries said.
pub open spec fn slot_is_told(s: Step, entries: Seq<Tree>, slot: u64) -> bool {
    let mine = entries.filter_map(about(slot));
    match block_of(s.p, slot) {
        Some(i) => {
            &&& mine.len() > 0
            &&& is_begun(s.out.filter_map(begun_at(i)), mine[0])
            &&& s.out.flat_map(arguments_told(i)) == entries.flat_map(arguments_in(slot))
        },
        None => mine.len() == 0,
    }
}

proof fn stream_tells(model: Seq<char>, frames: Seq<FrameV>, ids: Seq<Seq<Seq<char>>>)
    requires
        room(frames.flat_map(choices_in())) <= u32::MAX,
    ensures
        read(openai::fresh_parser(model), frames, ids) matches Ok(s) ==> {
            let cs = frames.flat_map(choices_in());
            &&& s.p.next_index <= room(cs)
            &&& tells(
                openai::at_rest(openai::fresh_parser(model)),
                s,
                cs.flat_map(words_in()),
                cs.flat_map(thoughts_in()),
                cs.flat_map(entries_in()),
            )
        },
    decreases frames.len(),
{
    let fresh = openai::fresh_parser(model);
    let start = openai::at_rest(fresh);
    rest_tells_nothing(fresh);
    hears_nothing(start);
    if frames.len() > 0 {
        let most = frames.drop_last();
        let f = frames.last();
        let old = most.flat_map(choices_in());
        let new = choices_in()(f);
        most.lemma_flat_map_push(choices_in(), f);
        assert(most.push(f) =~= frames);
        let all = frames.flat_map(choices_in());
        assert(all == old + new);
        laws::unfolding_joins(old, new, words_in());
        laws::unfolding_joins(old, new, thoughts_in());
        laws::unfolding_joins(old, new, entries_in());
        assert(room(all) == room(old) + room(new));
        stream_tells(model, most, ids);
        if let Ok(a) = read(fresh, most, ids) {
            let drawn = ids[frames.len() - 1];
            frames_are_read_whole(a.p, f, drawn);
            if let Ok(s) = openai::push_frame(a.p, f, drawn) {
                batches_join(a, s, new.flat_map(words_in()), new.flat_map(thoughts_in()), new.flat_map(entries_in()));
                tells_on(
                    start,
                    a,
                    Step { p: s.p, out: a.out + s.out },
                    old.flat_map(words_in()),
                    old.flat_map(thoughts_in()),
                    old.flat_map(entries_in()),
                    new.flat_map(words_in()),
                    new.flat_map(thoughts_in()),
                    new.flat_map(entries_in()),
                );
            }
        }
    } else {
        assert(frames.map_values(choices_in()) =~= Seq::empty());
        let empty = Seq::<Tree>::empty();
        assert(empty.map_values(words_in()) =~= Seq::empty());
        assert(empty.map_values(thoughts_in()) =~= Seq::empty());
        assert(empty.map_values(entries_in()) =~= Seq::empty());
    }
}

/// An answer begins once, with the identifier of its first chunk and the model that the
/// chunk names, or the model that was asked where it names none.
pub proof fn answers_begin_once(p: ParserV, f: FrameV, ids: Seq<Seq<char>>)
    ensures
        openai::push_frame(p, f, ids) matches Ok(s) ==> {
            &&& p.started ==> s.p.started
            &&& !p.started && s.out.len() > 0 ==> s.p.started && s.out[0] == (EventV::Start {
                id: chunk_in(f).at("id"@).text_or("chatcmpl_stream"@),
                model: if chunk_in(f).at("model"@).words() is Some {
                    chunk_in(f).at("model"@).words()->0
                } else {
                    p.model
                },
                usage: s.p.usage,
            })
            &&& !p.started && choices_in()(f).len() > 0 ==> s.out.len() > 0
            &&& forall|i: int| 0 <= i < s.out.len() && (p.started || i > 0) ==> !((#[trigger] s.out[i]) is Start)
        },
{
    done_is_something();
    if let Ok(s) = openai::push_frame(p, f, ids) {
        if text::trimmed(f.data).len() > 0 && text::trimmed(f.data) != "[DONE]"@ {
            let chunk = f.json()->Ok_0;
            let cs = openai::choices_of(chunk);
            assert(cs =~= choices_in()(f));
            let usage = openai::usage_of(chunk.at("usage"@));
            let p1 = if chunk.at("usage"@).not_null() is Some && usage.total_spec() > 0 {
                ParserV { usage, ..p }
            } else {
                p
            };
            let b = openai::at_rest(p1).ensure_started(chunk);
            if cs.len() > 0 {
                choices_begin_nothing(Run { s: b, used: 0 }, cs, ids, 0);
            }
        }
    }
}

/// What follows begins no second answer and keeps what came before.
spec fn follows(a: Step, b: Step) -> bool {
    &&& a.out.len() <= b.out.len()
    &&& forall|i: int| 0 <= i < a.out.len() ==> #[trigger] b.out[i] == a.out[i]
    &&& forall|i: int| a.out.len() <= i < b.out.len() ==> !((#[trigger] b.out[i]) is Start)
    &&& b.p.started == a.p.started
    &&& b.p.usage == a.p.usage
}

proof fn choices_begin_nothing(r: Run, cs: Seq<Tree>, ids: Seq<Seq<char>>, i: int)
    ensures
        follows(r.s, openai::push_choices(r, cs, ids, i).s),
    decreases cs.len() - i,
{
    if 0 <= i < cs.len() {
        let c = cs[i];
        let x = Run { s: openai::push_texts(r.s, c), ..r };
        assert(follows(r.s, x.s));
        calls_begin_nothing(x, openai::delta_calls(c), ids, 0);
        let next = openai::push_choice(r, c, ids);
        assert(follows(r.s, next.s));
        choices_begin_nothing(next, cs, ids, i + 1);
    }
}

proof fn calls_begin_nothing(r: Run, cs: Seq<Tree>, ids: Seq<Seq<char>>, i: int)
    ensures
        follows(r.s, openai::push_calls(r, cs, ids, i).s),
    decreases cs.len() - i,
{
    if 0 <= i < cs.len() {
        let next = openai::push_call(r, cs[i], ids);
        assert(follows(r.s, next.s));
        calls_begin_nothing(next, cs, ids, i + 1);
    }
}

/// The end of the body ends an answer that began, once: what is open is closed, and one
/// stop tells the reason and the usage known by then.
pub proof fn bodies_end_answers(p: ParserV)
    requires
        slots_apart(p),
    ensures
        ({
            let s = openai::finished(p);
            &&& !p.started || p.emitted_stop ==> s.out.len() == 0 && s.p == p
            &&& p.started && !p.emitted_stop ==> s.p.emitted_stop && s.p.current is None && s.out.filter_map(
                stops_told(),
            ) == seq![
                (
                    if p.pending_stop is Some {
                        p.pending_stop->0
                    } else {
                        StopReason::Unknown
                    },
                    p.usage,
                ),
            ] && s.out.filter_map(blocks_closed()).len() == if p.current is Some {
                1nat
            } else {
                0
            }
        }),
{
    rest_tells_nothing(p);
    if p.started && !p.emitted_stop {
        stop_is_told(openai::at_rest(p));
        let s = openai::finished(p);
        assert(s.out.filter_map(stops_told()) =~= seq![s.out.filter_map(stops_told())[0]]);
    }
}

} // verus!
