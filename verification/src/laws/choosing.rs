//! How one of several models is chosen, and how budgets have their say.

use vstd::prelude::*;

use crate::config::{AliasV, ClassifierV, ConfigV, EntryV, MemberV, ModelClass, RoutingStrategy};
use crate::election;
use crate::election::OrderV;
use crate::error::ErrorV;
use crate::laws;
use crate::query;
use crate::registry;
use crate::registry::ResolutionV;
use crate::router;
use crate::router::RouterV;
use crate::server::pipeline;
use crate::server::pipeline::{StepV, VerdictV, WalkV};
use crate::text;

verus! {

// -------------------------------------------------------------------- shares

/// The part of a draw that a model has: its weight, and no less than one.
pub open spec fn part(e: EntryV) -> int {
    if e.weight > 1 { e.weight as int } else { 1 }
}

/// The parts of models, together.
pub open spec fn parts(s: Seq<EntryV>) -> int {
    s.fold_left(0int, |n: int, e: EntryV| n + part(e))
}

proof fn one_part_more(s: Seq<EntryV>, i: int)
    requires
        0 <= i < s.len(),
    ensures
        parts(s.take(i + 1)) == parts(s.take(i)) + part(s[i]),
{
    reveal(Seq::fold_left);
    assert(s.take(i + 1).drop_last() =~= s.take(i));
}

proof fn parts_are_shares(s: Seq<EntryV>, i: int)
    requires
        0 <= i <= s.len(),
    ensures
        parts(s) == parts(s.take(i)) + router::shares_from(s, i),
    decreases s.len() - i,
{
    if i < s.len() {
        one_part_more(s, i);
        parts_are_shares(s, i + 1);
    } else {
        assert(s.take(i) =~= s);
    }
}

proof fn picks_fall_in_order(s: Seq<EntryV>, pick: int, i: int, k: int)
    requires
        0 <= i <= k < s.len(),
        parts(s.take(k)) - parts(s.take(i)) <= pick < parts(s.take(k + 1)) - parts(s.take(i)),
    ensures
        router::falls_on(s, pick, i) == k,
    decreases k - i,
{
    one_part_more(s, i);
    if i < k {
        parts_rise(s, i + 1, k);
        picks_fall_in_order(s, pick - part(s[i]), i + 1, k);
    }
}

proof fn parts_rise(s: Seq<EntryV>, i: int, k: int)
    requires
        0 <= i <= k <= s.len(),
    ensures
        parts(s.take(i)) <= parts(s.take(k)),
    decreases k - i,
{
    if i < k {
        parts_rise(s, i, k - 1);
        one_part_more(s, k - 1);
    }
}

/// A draw falls on the `k`th model for exactly as many picks as its part has: those from
/// the parts of all models before it on. Together the parts are all the picks there are.
pub proof fn draws_are_weighted(s: Seq<EntryV>, k: int, pick: int)
    requires
        0 <= k < s.len(),
    ensures
        router::shares_from(s, 0) == parts(s),
        parts(s.take(k)) <= pick < parts(s.take(k)) + part(s[k]) ==> router::falls_on(s, pick, 0) == k,
{
    parts_are_shares(s, 0);
    reveal(Seq::fold_left);
    assert(parts(s.take(0)) == 0);
    one_part_more(s, k);
    if parts(s.take(k)) <= pick < parts(s.take(k)) + part(s[k]) {
        picks_fall_in_order(s, pick, 0, k);
    }
}

/// A shuffled pool begins with the model that the first pick falls on, and goes on as
/// the rest of the pool is shuffled.
pub proof fn shuffles_draw_one_by_one(pool: Seq<EntryV>, picks: Seq<u64>, done: Seq<EntryV>)
    requires
        pool.len() > 0,
    ensures
        ({
            let pick = if done.len() < picks.len() { picks[done.len() as int] as int } else { 0 };
            let k = router::falls_on(pool, pick, 0);
            &&& 0 <= k < pool.len()
            &&& router::shuffled(pool, picks, done) == router::shuffled(pool.remove(k), picks, done.push(pool[k]))
        }),
        router::shuffled(Seq::empty(), picks, done) == done,
{
    let pick = if done.len() < picks.len() { picks[done.len() as int] as int } else { 0 };
    router::falls_inside(pool, pick, 0);
}

// ----------------------------------------------------------------- elections

pub open spec fn is_named(id: Seq<char>) -> spec_fn(EntryV) -> bool {
    |m: EntryV| m.exposed_id() == id
}

proof fn the_first_member(s: Seq<EntryV>, id: Seq<char>, i: int)
    requires
        0 <= i <= s.len(),
        forall|j: int| 0 <= j < i ==> !is_named(id)(#[trigger] s[j]),
    ensures
        laws::is_first(s, is_named(id), router::member_from(s, id, i)),
    decreases s.len() - i,
{
    if i < s.len() {
        if is_named(id)(s[i]) {
            assert(s[i] == s[i]);
        } else {
            the_first_member(s, id, i + 1);
        }
    }
}

pub open spec fn member_of(members: Seq<EntryV>) -> spec_fn(Seq<char>) -> Option<EntryV> {
    |id: Seq<char>| router::member_from(members, id, 0)
}

proof fn the_named_are_kept(members: Seq<EntryV>, order: Seq<Seq<char>>, i: int)
    requires
        0 <= i <= order.len(),
    ensures
        router::named_from(members, order, 0, Seq::empty()) == router::named_from(
            members,
            order,
            i,
            order.take(i).filter_map(member_of(members)),
        ),
    decreases i,
{
    if i > 0 {
        the_named_are_kept(members, order, i - 1);
        laws::keeping_takes(order, i - 1, member_of(members));
    } else {
        assert(order.take(0).filter_map(member_of(members)) =~= Seq::empty());
    }
}

pub open spec fn is_unnamed(order: Seq<Seq<char>>) -> spec_fn(EntryV) -> bool {
    |m: EntryV| !order.contains(m.exposed_id())
}

proof fn the_unnamed_are_kept(members: Seq<EntryV>, order: Seq<Seq<char>>, i: int)
    requires
        0 <= i <= members.len(),
    ensures
        router::unnamed_from(members, order, 0, Seq::empty()) == router::unnamed_from(
            members,
            order,
            i,
            laws::those(members.take(i), is_unnamed(order)),
        ),
    decreases i,
{
    let p = is_unnamed(order);
    if i > 0 {
        the_unnamed_are_kept(members, order, i - 1);
        laws::keeping_takes(members, i - 1, laws::keeper(p));
        let id = members[i - 1].exposed_id();
        if text::listed(order, id) {
            let k = choose|k: int| 0 <= k < order.len() && #[trigger] order[k] == id;
            assert(order[k] == id);
        }
    } else {
        assert(members.take(0).filter_map(laws::keeper(p)) =~= Seq::empty());
    }
}

/// An election's order is followed: the members that it names, in its order, and behind
/// them by priority and id those that it does not name.
pub proof fn elections_are_followed(members: Seq<EntryV>, order: Seq<Seq<char>>)
    ensures
        ({
            let named = order.filter_map(member_of(members));
            let out = router::elected(members, Some(order));
            let rest = out.skip(named.len() as int);
            &&& out.len() >= named.len()
            &&& out.take(named.len() as int) == named
            &&& rest.to_multiset() == laws::those(members, is_unnamed(order)).to_multiset()
            &&& forall|i: int, j: int|
                0 <= i < j < rest.len() ==> (#[trigger] rest[i]).priority <= (#[trigger] rest[j]).priority
        }),
        forall|id: Seq<char>| #[trigger]
            laws::is_first(members, is_named(id), router::member_from(members, id, 0)),
{
    the_named_are_kept(members, order, order.len() as int);
    assert(order.take(order.len() as int) =~= order);
    the_unnamed_are_kept(members, order, members.len() as int);
    assert(members.take(members.len() as int) =~= members);
    let named = order.filter_map(member_of(members));
    let left = laws::those(members, is_unnamed(order));
    let sorted = crate::sorting::sorted::<crate::config::ModelEntry>(left);
    let out = router::elected(members, Some(order));
    assert(out.take(named.len() as int) =~= named);
    assert(out.skip(named.len() as int) =~= sorted);
    registry::models_are_ordered();
    crate::sorting::sorting_orders::<crate::config::ModelEntry>(left);
    crate::sorting::sorting_keeps_items::<crate::config::ModelEntry>(left);
    assert forall|i: int, j: int| 0 <= i < j < sorted.len() implies (#[trigger] sorted[i]).priority <= (
    #[trigger] sorted[j]).priority by {
        assert(!<crate::config::ModelEntry as crate::sorting::Ranked>::before(sorted[j], sorted[i]));
    }
    assert forall|id: Seq<char>| #[trigger]
        laws::is_first(members, is_named(id), router::member_from(members, id, 0)) by {
        the_first_member(members, id, 0);
    }
}

/// The order of a class is the first that was decided for it.
pub proof fn orders_are_found(orders: Seq<OrderV>, class: ModelClass, i: int)
    requires
        0 <= i <= orders.len(),
        forall|j: int| 0 <= j < i ==> (#[trigger] orders[j]).class != class,
    ensures
        match election::order_from(orders, class, i) {
            Some(ids) => exists|k: int|
                0 <= k < orders.len() && (#[trigger] orders[k]).class == class && orders[k].ids == ids && forall|j: int|
                    0 <= j < k ==> (#[trigger] orders[j]).class != class,
            None => forall|j: int| 0 <= j < orders.len() ==> (#[trigger] orders[j]).class != class,
        },
    decreases orders.len() - i,
{
    if i < orders.len() {
        if orders[i].class != class {
            orders_are_found(orders, class, i + 1);
        }
    }
}

// --------------------------------------------------------------------- names

/// A name gives a class where it is the class's own id, or else one of the client's
/// aliases, or else, where that is on, where it mentions one.
pub proof fn names_give_classes(c: ConfigV, asked: Seq<char>)
    ensures
        ({
            let own = ModelClass::of_id(asked);
            let given = registry::aliased(c.routing.client_aliases, asked, 0);
            let r = registry::class_for(c, asked);
            &&& own is Some ==> r == own
            &&& own is None && given is Some ==> r == given
            &&& own is None && given is None && c.routing.match_claude_names ==> r == registry::class_in_name(asked)
            &&& own is None && given is None && !c.routing.match_claude_names ==> r is None
        }),
{
}

/// A request for a model under a modifier is for the plain model, where there is one;
/// otherwise for what was asked, as it stands.
pub proof fn modifiers_are_looked_through(c: ConfigV, requested: Seq<char>)
    ensures
        ({
            let plain = registry::resolved(c, query::stripped(text::trimmed(requested)));
            &&& plain is Ok ==> registry::asked_for(c, requested) == plain
            &&& plain is Err ==> registry::asked_for(c, requested) == registry::resolved(c, requested)
        }),
{
}

// ---------------------------------------------------------------- classifier

/// What a member of the classifier pool stands for: the model it names, under the
/// member's own priority, where both are on and the provider is in use.
pub open spec fn classifier(c: ConfigV) -> spec_fn(MemberV) -> Option<EntryV> {
    |m: MemberV|
        {
            let e = registry::entry_of(c, m.model);
            if e is Ok && m.enabled && e->Ok_0.enabled && c.provider_in_use(e->Ok_0.provider_id) {
                Some(EntryV { priority: m.priority, ..e->Ok_0 })
            } else {
                None
            }
        }
}

proof fn classifiers_are_kept(c: ConfigV, list: Seq<MemberV>, i: int)
    requires
        0 <= i <= list.len(),
    ensures
        router::pool_from(c, list, 0, Seq::empty()) == router::pool_from(
            c,
            list,
            i,
            list.take(i).filter_map(classifier(c)),
        ),
    decreases i,
{
    if i > 0 {
        classifiers_are_kept(c, list, i - 1);
        laws::keeping_takes(list, i - 1, classifier(c));
    } else {
        assert(list.take(0).filter_map(classifier(c)) =~= Seq::empty());
    }
}

/// The classifier pool holds every member that stands for a model, in order, under the
/// classifier's own strategy and limits.
pub proof fn classifier_pools_are_whole(c: ConfigV, cc: ClassifierV)
    ensures
        ({
            let pool = router::classifier_pool(c, cc);
            &&& pool.members == cc.candidates.filter_map(classifier(c))
            &&& pool.strategy == cc.strategy
            &&& pool.failover == cc.failover
            &&& pool.max_attempts == cc.max_attempts
            &&& pool.class is None
            &&& pool.name == "classifier"@
        }),
{
    classifiers_are_kept(c, cc.candidates, cc.candidates.len() as int);
    assert(cc.candidates.take(cc.candidates.len() as int) =~= cc.candidates);
}

/// A classifier plan is the plan for its pool; with nobody in the pool there is no
/// candidate.
pub proof fn classifier_plans_try_their_pool(st: RouterV, c: ConfigV, cc: ClassifierV, now: u64, picks: Seq<u64>)
    ensures
        ({
            let pool = router::classifier_pool(c, cc);
            &&& pool.members.len() > 0 ==> router::classifier_plan(st, c, cc, now, picks) == router::pool_plan(
                st,
                c,
                pool,
                now,
                picks,
            )
            &&& pool.members.len() == 0 ==> router::classifier_plan(st, c, cc, now, picks).0 == Err::<
                Seq<router::CandidateV>,
                ErrorV,
            >(ErrorV::NoCandidate("classifier"@)) && router::classifier_plan(st, c, cc, now, picks).1 == st
        }),
{
}

// ------------------------------------------------------------------- budgets

/// What a verdict does. What is allowed passes as it stands and what is rejected is
/// refused for that reason. What is degraded is asked about again as the cheaper class,
/// unless the request has been there: then it is refused. The class that it leaves is
/// remembered.
pub proof fn verdicts_are_carried_out(w: WalkV, c: ConfigV, because: Seq<char>, to: ModelClass)
    ensures
        w.judged(c, VerdictV::Allow) == (StepV::Pass, w),
        w.judged(c, VerdictV::Reject { because }) == (StepV::Refuse(ErrorV::OverBudget(because)), w),
        ({
            let own = pipeline::billed_class(c, w.resolution);
            let been = w.visited.contains(to) || own == Some(to);
            let (step, next) = w.judged(c, VerdictV::Degrade { to, because });
            &&& been ==> (step matches StepV::Refuse(ErrorV::OverBudget(why)) && why == because
                + ", and the class it degrades to is over its own limit"@) && next.resolution == w.resolution
            &&& !been ==> step == StepV::Ask && next.resolution == ResolutionV::Class(to)
            &&& next.visited == if own is Some { w.visited.push(own->0) } else { w.visited }
        }),
        WalkV::starting(w.resolution).visited.len() == 0,
        WalkV::starting(w.resolution).resolution == w.resolution,
{
    let own = pipeline::billed_class(c, w.resolution);
    if let Some(class) = own {
        let all = w.visited.push(class);
        assert(all.contains(to) <==> w.visited.contains(to) || class == to) by {
            assert(all[w.visited.len() as int] == class);
            if w.visited.contains(to) {
                let k = choose|k: int| 0 <= k < w.visited.len() && w.visited[k] == to;
                assert(all[k] == to);
            }
        }
    }
}

// --------------------------------------------------------------------- turns

/// Ordering a pool that goes in turn moves that pool's turn on by one and no other's;
/// ordering any other way, or a pool of one, moves none.
pub proof fn turns_move_on_alone(
    st: RouterV,
    members: Seq<EntryV>,
    key: Seq<char>,
    strategy: RoutingStrategy,
    other: Seq<char>,
)
    ensures
        ({
            let after = router::after_ordering(st, members, key, strategy);
            &&& after.health == st.health && after.election == st.election
            &&& other != key ==> router::cursor_of(after.cursors, other) == router::cursor_of(st.cursors, other)
            &&& strategy != RoutingStrategy::RoundRobin || members.len() <= 1 ==> after == st
            &&& strategy == RoutingStrategy::RoundRobin && members.len() > 1 && router::cursor_of(st.cursors, key)
                < usize::MAX ==> router::cursor_of(after.cursors, key) == router::cursor_of(st.cursors, key) + 1
        }),
{
}

/// A name that leads nowhere is told as it was asked for; one that leads to a model that
/// is switched off says so.
pub proof fn lost_names_are_told(c: ConfigV, requested: Seq<char>)
    ensures
        registry::resolved(c, requested) matches Err(ErrorV::UnknownModel(what)) ==> {
            let asked = text::trimmed(requested);
            match registry::entry_of(c, asked) {
                Ok(m) => what == m.exposed_id() + " (disabled)"@,
                Err(_) => what == asked,
            }
        },
{
}

/// The class of an alias is that of the first alias of that name.
pub proof fn aliases_are_found(aliases: Seq<AliasV>, name: Seq<char>, i: int)
    requires
        0 <= i <= aliases.len(),
        forall|j: int| 0 <= j < i ==> (#[trigger] aliases[j]).name != name,
    ensures
        match registry::aliased(aliases, name, i) {
            Some(class) => exists|k: int|
                0 <= k < aliases.len() && (#[trigger] aliases[k]).name == name && aliases[k].class == class && forall|
                    j: int,
                |
                    0 <= j < k ==> (#[trigger] aliases[j]).name != name,
            None => forall|j: int| 0 <= j < aliases.len() ==> (#[trigger] aliases[j]).name != name,
        },
    decreases aliases.len() - i,
{
    if i < aliases.len() && aliases[i].name != name {
        aliases_are_found(aliases, name, i + 1);
    }
}

} // verus!
