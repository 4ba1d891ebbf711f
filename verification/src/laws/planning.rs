//! Which models a request can reach: how a name is resolved, which plan is made for
//! what it resolves to, and whose budgets are asked.

use vstd::prelude::*;

use crate::config::{ConfigV, EntryV, ModelClass, ProviderV};
use crate::config;
use crate::error::ErrorV;
use crate::ir::Capability;
use crate::laws;
use crate::registry;
use crate::registry::ResolutionV;
use crate::router;
use crate::router::{CandidateV, PoolV, RouterV, Standing};
use crate::server::pipeline;
use crate::text;

verus! {

// --------------------------------------------------------------------- names

proof fn the_first_provider(s: Seq<ProviderV>, id: Seq<char>, i: int)
    requires
        0 <= i <= s.len(),
        forall|j: int| 0 <= j < i ==> (#[trigger] s[j]).id != id,
    ensures
        laws::is_first(s, |p: ProviderV| p.id == id, config::provider_from(s, id, i)),
    decreases s.len() - i,
{
    if i < s.len() {
        if s[i].id == id {
            let p = |p: ProviderV| p.id == id;
            assert(s[i] == s[i] && p(s[i]) && forall|j: int| 0 <= j < i ==> !p(#[trigger] s[j]));
        } else {
            the_first_provider(s, id, i + 1);
        }
    }
}

/// A provider is found by its id: the first that has it.
pub proof fn providers_are_found(c: ConfigV, id: Seq<char>)
    ensures
        laws::is_first(c.providers, |p: ProviderV| p.id == id, c.provider(id)),
        c.provider_in_use(id) <==> exists|p: ProviderV| c.provider(id) == Some(p) && p.enabled && p.id == id,
{
    the_first_provider(c.providers, id, 0);
}

pub open spec fn has_id(id: Seq<char>) -> spec_fn(EntryV) -> bool {
    |m: EntryV| m.enabled && m.provider_id + "-"@ + config::id_text(m.upstream_model) == id
}

pub open spec fn has_alias(id: Seq<char>) -> spec_fn(EntryV) -> bool {
    |m: EntryV| m.enabled && m.aliases.contains(id)
}

pub open spec fn has_name(id: Seq<char>) -> spec_fn(EntryV) -> bool {
    |m: EntryV| m.provider_id + "-"@ + config::id_text(m.upstream_model) == id || m.aliases.contains(id)
}

proof fn listing_is_containing(list: Seq<Seq<char>>, s: Seq<char>)
    ensures
        text::listed(list, s) <==> list.contains(s),
{
    if text::listed(list, s) {
        let k = choose|k: int| 0 <= k < list.len() && #[trigger] list[k] == s;
        assert(list[k] == s);
    }
}

proof fn the_first_by_id(s: Seq<EntryV>, id: Seq<char>, i: int)
    requires
        0 <= i <= s.len(),
        forall|j: int| 0 <= j < i ==> !has_id(id)(#[trigger] s[j]),
    ensures
        laws::is_first(s, has_id(id), registry::by_id(s, id, i)),
    decreases s.len() - i,
{
    if i < s.len() {
        if !has_id(id)(s[i]) {
            the_first_by_id(s, id, i + 1);
        } else {
            assert(s[i] == s[i]);
        }
    }
}

proof fn the_first_by_alias(s: Seq<EntryV>, id: Seq<char>, i: int)
    requires
        0 <= i <= s.len(),
        forall|j: int| 0 <= j < i ==> !has_alias(id)(#[trigger] s[j]),
    ensures
        laws::is_first(s, has_alias(id), registry::by_alias(s, id, i)),
    decreases s.len() - i,
{
    if i < s.len() {
        listing_is_containing(s[i].aliases, id);
        if !has_alias(id)(s[i]) {
            the_first_by_alias(s, id, i + 1);
        } else {
            assert(s[i] == s[i]);
        }
    }
}

proof fn the_first_by_name(s: Seq<EntryV>, id: Seq<char>, i: int)
    requires
        0 <= i <= s.len(),
        forall|j: int| 0 <= j < i ==> !has_name(id)(#[trigger] s[j]),
    ensures
        laws::is_first(s, has_name(id), registry::answering(s, id, i)),
    decreases s.len() - i,
{
    if i < s.len() {
        listing_is_containing(s[i].aliases, id);
        if !has_name(id)(s[i]) {
            the_first_by_name(s, id, i + 1);
        } else {
            assert(s[i] == s[i]);
        }
    }
}

/// A model is found by its own id, its provider's and its name, or by an alias; of
/// several the first counts.
pub proof fn models_are_found(c: ConfigV, id: Seq<char>)
    ensures
        laws::is_first(c.models, has_id(id), registry::by_id(c.models, id, 0)),
        laws::is_first(c.models, has_alias(id), registry::by_alias(c.models, id, 0)),
        laws::is_first(
            c.models,
            has_name(id),
            match registry::entry_of(c, id) {
                Ok(m) => Some(m),
                Err(_) => None,
            },
        ),
        registry::entry_of(c, id) matches Err(e) ==> e == ErrorV::UnknownModel(id),
{
    the_first_by_id(c.models, id, 0);
    the_first_by_alias(c.models, id, 0);
    the_first_by_name(c.models, id, 0);
}

/// A name that an enabled model has for its id reaches that model, whatever aliases,
/// classes or rules the name would also fit. An alias of an enabled model comes before
/// a class, and a class before the fallback.
pub proof fn names_are_resolved_in_order(c: ConfigV, requested: Seq<char>)
    ensures
        ({
            let asked = text::trimmed(requested);
            let named = exists|k: int| 0 <= k < c.models.len() && has_id(asked)(#[trigger] c.models[k]);
            let aliased = exists|k: int| 0 <= k < c.models.len() && has_alias(asked)(#[trigger] c.models[k]);
            let r = registry::resolved(c, requested);
            &&& asked.len() == 0 ==> r == Err::<ResolutionV, ErrorV>(
                ErrorV::InvalidRequest("`model` must not be empty"@),
            )
            &&& asked.len() > 0 && named ==> r == Ok::<ResolutionV, ErrorV>(ResolutionV::Direct(asked))
            &&& asked.len() > 0 && !named && aliased ==> (r matches Ok(ResolutionV::Direct(id)) && exists|k: int|
                0 <= k < c.models.len() && has_alias(asked)(#[trigger] c.models[k]) && c.models[k].exposed_id() == id
                    && forall|j: int| 0 <= j < k ==> !has_alias(asked)(#[trigger] c.models[j]))
            &&& asked.len() > 0 && !named && !aliased ==> match registry::class_for(c, asked) {
                Some(class) => r == Ok::<ResolutionV, ErrorV>(ResolutionV::Class(class)),
                None => match c.routing.unknown_model_fallback {
                    Some(class) => r == Ok::<ResolutionV, ErrorV>(ResolutionV::Class(class)),
                    None => r matches Err(ErrorV::UnknownModel(_)),
                },
            }
        }),
{
    let asked = text::trimmed(requested);
    models_are_found(c, asked);
    if let Some(m) = registry::by_alias(c.models, asked, 0) {
        let k = choose|k: int|
            0 <= k < c.models.len() && #[trigger] c.models[k] == m && has_alias(asked)(m) && forall|j: int|
                0 <= j < k ==> !has_alias(asked)(#[trigger] c.models[j]);
        assert(has_alias(asked)(c.models[k]));
    }
    if let Some(m) = registry::by_id(c.models, asked, 0) {
        let k = choose|k: int|
            0 <= k < c.models.len() && #[trigger] c.models[k] == m && has_id(asked)(m) && forall|j: int|
                0 <= j < k ==> !has_id(asked)(#[trigger] c.models[j]);
        assert(has_id(asked)(c.models[k]));
    }
}

// --------------------------------------------------------------------- pools

/// Whether a model stands so when a plan is made.
pub open spec fn stands(st: RouterV, now: u64, how: Standing) -> spec_fn(EntryV) -> bool {
    |m: EntryV| router::standing(st.health, m.exposed_id(), now) == how
}

proof fn the_standing_are_kept(members: Seq<EntryV>, st: RouterV, now: u64, how: Standing, i: int)
    requires
        0 <= i <= members.len(),
    ensures
        router::standing_so(members, st.health, now, how) == router::standing_from(
            members,
            st.health,
            now,
            how,
            i,
            laws::those(members.take(i), stands(st, now, how)),
        ),
    decreases i,
{
    let p = stands(st, now, how);
    if i > 0 {
        the_standing_are_kept(members, st, now, how, i - 1);
        laws::keeping_takes(members, i - 1, laws::keeper(p));
    } else {
        assert(members.take(0).filter_map(laws::keeper(p)) =~= Seq::empty());
    }
}

/// Whether a model has every capability that is asked for.
pub open spec fn able(required: Seq<Capability>) -> spec_fn(EntryV) -> bool {
    |m: EntryV|
        {
            &&& required.contains(Capability::Tools) ==> m.supports_tools
            &&& required.contains(Capability::Vision) ==> m.supports_vision
            &&& required.contains(Capability::Thinking) ==> m.supports_thinking
        }
}

proof fn ability_is_every_capability(m: EntryV, required: Seq<Capability>)
    ensures
        router::satisfies(m, required) <==> able(required)(m),
{
    if router::satisfies(m, required) {
        assert forall|cap: Capability| required.contains(cap) implies m.supports(cap) by {
            let k = choose|k: int| 0 <= k < required.len() && required[k] == cap;
            assert(m.supports(required[k]));
        }
        assert(required.contains(Capability::Tools) ==> m.supports(Capability::Tools));
        assert(required.contains(Capability::Vision) ==> m.supports(Capability::Vision));
        assert(required.contains(Capability::Thinking) ==> m.supports(Capability::Thinking));
    }
    if able(required)(m) {
        assert forall|i: int| 0 <= i < required.len() implies m.supports(#[trigger] required[i]) by {
            assert(required.contains(required[i]));
        }
    }
}

proof fn the_able_are_kept(members: Seq<EntryV>, required: Seq<Capability>, i: int)
    requires
        0 <= i <= members.len(),
    ensures
        router::satisfying_from(members, required, 0, Seq::empty()) == router::satisfying_from(
            members,
            required,
            i,
            laws::those(members.take(i), able(required)),
        ),
    decreases i,
{
    let p = able(required);
    if i > 0 {
        the_able_are_kept(members, required, i - 1);
        laws::keeping_takes(members, i - 1, laws::keeper(p));
        ability_is_every_capability(members[i - 1], required);
    } else {
        assert(members.take(0).filter_map(laws::keeper(p)) =~= Seq::empty());
    }
}

/// The pool of a class holds its members, or with the capability filter those of them
/// that can do what is asked for, unless none can.
pub proof fn pools_hold_the_able(c: ConfigV, class: ModelClass, required: Seq<Capability>)
    ensures
        ({
            let all = registry::members(c, class);
            let can = laws::those(all, able(required));
            let pool = router::class_pool(c, class, required);
            &&& pool.members == if c.routing.capability_filter && required.len() > 0 && can.len() > 0 {
                can
            } else {
                all
            }
            &&& pool.name == class.id()
            &&& pool.class == Some(class)
            &&& pool.strategy == c.routing.strategy
            &&& pool.failover == c.routing.failover
            &&& pool.max_attempts == c.routing.max_attempts
        }),
{
    let all = registry::members(c, class);
    the_able_are_kept(all, required, all.len() as int);
    assert(all.take(all.len() as int) =~= all);
}

/// How far a queue of candidates is tried.
pub open spec fn reach(queue: Seq<EntryV>, limit: int) -> int {
    if queue.len() < limit {
        queue.len() as int
    } else {
        limit
    }
}

proof fn the_queue_is_tried(
    c: ConfigV,
    queue: Seq<EntryV>,
    degraded: Seq<Seq<char>>,
    limit: int,
    i: int,
    sofar: Seq<CandidateV>,
)
    requires
        0 <= i <= queue.len(),
        i <= limit,
        sofar.len() == i,
        forall|k: int|
            0 <= k < i ==> c.provider(queue[k].provider_id) is Some && #[trigger] sofar[k] == (CandidateV {
                exposed_id: queue[k].exposed_id(),
                entry: queue[k],
                provider: c.provider(queue[k].provider_id)->0,
                degraded: text::listed(degraded, queue[k].exposed_id()),
            }),
    ensures
        match router::attempts_from(c, queue, degraded, limit, i, sofar) {
            Ok(list) => {
                &&& list.len() == reach(queue, limit)
                &&& forall|k: int|
                    0 <= k < list.len() ==> c.provider(queue[k].provider_id) is Some && #[trigger] list[k] == (
                    CandidateV {
                        exposed_id: queue[k].exposed_id(),
                        entry: queue[k],
                        provider: c.provider(queue[k].provider_id)->0,
                        degraded: text::listed(degraded, queue[k].exposed_id()),
                    })
            },
            Err(e) => exists|k: int|
                0 <= k < reach(queue, limit) && c.provider((#[trigger] queue[k]).provider_id) is None && e
                    == ErrorV::Internal(
                    "model `"@ + queue[k].upstream_model + "` references unknown provider `"@ + queue[k].provider_id
                        + "`"@,
                ),
        },
    decreases queue.len() - i,
{
    if i < queue.len() && i < limit {
        match registry::provider_for(c, queue[i]) {
            Ok(p) => {
                the_queue_is_tried(
                    c,
                    queue,
                    degraded,
                    limit,
                    i + 1,
                    sofar.push(router::attempt(queue[i], p, text::listed(degraded, queue[i].exposed_id()))),
                );
            },
            Err(_) => {
                assert(c.provider(queue[i].provider_id) is None);
            },
        }
    }
}

/// The members of a pool in the order in which they are tried: the healthy ones, as
/// the pool's strategy has them, and where failover is on or none is healthy those
/// that may be probed behind them.
pub open spec fn queue_of(st: RouterV, pool: PoolV, now: u64, picks: Seq<u64>) -> Seq<EntryV> {
    let ready = router::ordered(
        st,
        laws::those(pool.members, stands(st, now, Standing::Ready)),
        pool.name,
        pool.class,
        pool.strategy,
        picks,
    );
    if pool.failover || ready.len() == 0 {
        ready + laws::those(pool.members, stands(st, now, Standing::Probe))
    } else {
        ready
    }
}

/// The plan for a pool tries its queue from the front: with failover as many as it
/// allows and at least one, without it one. Each candidate is a model of the queue on
/// the provider that the model names, marked where it may only be probed. Without
/// anyone in the queue there is no candidate.
pub proof fn plans_try_the_queue(st: RouterV, c: ConfigV, pool: PoolV, now: u64, picks: Seq<u64>)
    requires
        forall|m: EntryV| #[trigger] pool.members.contains(m) ==> c.provider(m.provider_id) is Some,
    ensures
        ({
            let queue = queue_of(st, pool, now, picks);
            let limit = if pool.failover && pool.max_attempts > 1 { pool.max_attempts as int } else { 1 };
            match router::pool_plan(st, c, pool, now, picks).0 {
                Ok(list) => {
                    &&& queue.len() > 0
                    &&& list.len() == reach(queue, limit)
                    &&& forall|k: int|
                        0 <= k < list.len() ==> pool.members.contains(queue[k]) && c.provider(
                            queue[k].provider_id,
                        ) is Some && #[trigger] list[k] == (CandidateV {
                            exposed_id: queue[k].exposed_id(),
                            entry: queue[k],
                            provider: c.provider(queue[k].provider_id)->0,
                            degraded: router::standing(st.health, queue[k].exposed_id(), now) == Standing::Probe,
                        })
                },
                Err(e) => queue.len() == 0 && e == ErrorV::NoCandidate(pool.name),
            }
        }),
{
    let queue = queue_of(st, pool, now, picks);
    let n = pool.members.len() as int;
    the_standing_are_kept(pool.members, st, now, Standing::Ready, n);
    the_standing_are_kept(pool.members, st, now, Standing::Probe, n);
    assert(pool.members.take(n) =~= pool.members);
    let able = laws::those(pool.members, stands(st, now, Standing::Ready));
    let probes = laws::those(pool.members, stands(st, now, Standing::Probe));
    let ready = router::ordered(st, able, pool.name, pool.class, pool.strategy, picks);
    let degraded = if pool.failover || ready.len() == 0 {
        router::ids_of(probes)
    } else {
        Seq::empty()
    };
    assert forall|k: int| 0 <= k < queue.len() implies pool.members.contains(#[trigger] queue[k]) by {
        let m = queue[k];
        if k < ready.len() {
            assert(ready[k] == m);
            router::ordering_keeps_the_pool(st, able, pool.name, pool.class, pool.strategy, picks, m);
            laws::those_are_there(pool.members, stands(st, now, Standing::Ready), m);
        } else {
            assert(probes[k - ready.len()] == m);
            laws::those_are_there(pool.members, stands(st, now, Standing::Probe), m);
        }
    }
    the_queue_is_tried(c, queue, degraded, router::attempt_limit(pool), 0, Seq::empty());
    router::plans_respect_health(st, c, pool, now, picks);
}

// ------------------------------------------------------------------- budgets

/// Every candidate of every plan that can be made for what a name resolved to runs on
/// a provider whose budget was asked, and belongs to the class that is billed. For a
/// class, the providers of all its members are asked and no others.
pub proof fn every_reachable_provider_is_asked(
    st: RouterV,
    c: ConfigV,
    resolution: ResolutionV,
    required: Seq<Capability>,
    now: u64,
    picks: Seq<u64>,
)
    ensures
        router::planned(st, c, resolution, required, now, picks).0 matches Ok(list) ==> {
            &&& list.len() > 0
            &&& forall|k: int|
                0 <= k < list.len() ==> {
                    &&& pipeline::possible_providers(c, resolution).contains((#[trigger] list[k]).provider.id)
                    &&& list[k].provider.id == list[k].entry.provider_id
                    &&& c.provider(list[k].provider.id) == Some(list[k].provider)
                    &&& list[k].provider.enabled
                    &&& list[k].exposed_id == list[k].entry.exposed_id()
                    &&& pipeline::billed_class(c, resolution) == list[k].entry.class
                    &&& c.models.contains(list[k].entry)
                }
        },
{
    if let Ok(list) = router::planned(st, c, resolution, required, now, picks).0 {
        match resolution {
            ResolutionV::Direct(id) => {
                models_are_found(c, id);
                let m = list[0].entry;
                providers_are_found(c, m.provider_id);
                assert(pipeline::possible_providers(c, resolution)[0] == m.provider_id);
            },
            ResolutionV::Class(class) => {
                let pool = router::class_pool(c, class, required);
                pools_hold_the_able(c, class, required);
                assert forall|m: EntryV| #[trigger] pool.members.contains(m) implies registry::members(
                    c,
                    class,
                ).contains(m) && c.provider(m.provider_id) is Some by {
                    laws::those_are_there(registry::members(c, class), able(required), m);
                    registry::classes_hold_their_members(c, class, m);
                }
                plans_try_the_queue(st, c, pool, now, picks);
                let queue = queue_of(st, pool, now, picks);
                assert forall|k: int| 0 <= k < list.len() implies {
                    &&& pipeline::possible_providers(c, resolution).contains((#[trigger] list[k]).provider.id)
                    &&& list[k].provider.id == list[k].entry.provider_id
                    &&& c.provider(list[k].provider.id) == Some(list[k].provider)
                    &&& list[k].provider.enabled
                    &&& list[k].exposed_id == list[k].entry.exposed_id()
                    &&& pipeline::billed_class(c, resolution) == list[k].entry.class
                    &&& c.models.contains(list[k].entry)
                } by {
                    let m = queue[k];
                    assert(list[k].entry == m);
                    assert(pool.members.contains(m));
                    providers_are_found(c, m.provider_id);
                    registry::classes_hold_their_members(c, class, m);
                    class_providers_are_asked(c, class, m);
                }
            },
        }
    }
}

/// For a class, the budgets of exactly the providers of its members are asked: of the
/// enabled models of that class on providers in use.
pub proof fn class_providers_are_asked(c: ConfigV, class: ModelClass, m: EntryV)
    ensures
        c.models.contains(m) && m.enabled && m.class == Some(class) && c.provider_in_use(m.provider_id)
            ==> pipeline::possible_providers(c, ResolutionV::Class(class)).contains(m.provider_id),
        forall|id: Seq<char>| #[trigger]
            pipeline::possible_providers(c, ResolutionV::Class(class)).contains(id) ==> exists|e: EntryV|
                #![trigger c.models.contains(e)]
                c.models.contains(e) && e.enabled && e.class == Some(class) && e.provider_id == id
                    && c.provider_in_use(id),
{
    let all = registry::members(c, class);
    let ids = pipeline::possible_providers(c, ResolutionV::Class(class));
    registry::classes_hold_their_members(c, class, m);
    if all.contains(m) {
        let k = choose|k: int| 0 <= k < all.len() && all[k] == m;
        assert(ids[k] == m.provider_id);
    }
    assert forall|id: Seq<char>| #[trigger] ids.contains(id) implies exists|e: EntryV|
        #![trigger c.models.contains(e)]
        c.models.contains(e) && e.enabled && e.class == Some(class) && e.provider_id == id && c.provider_in_use(
            id,
        ) by {
        let k = choose|k: int| 0 <= k < ids.len() && ids[k] == id;
        registry::classes_hold_their_members(c, class, all[k]);
        assert(all.contains(all[k]));
    }
}

/// For one model, its provider's budget is asked and its class is billed; for a name
/// that no model has, none.
pub proof fn a_models_provider_is_asked(c: ConfigV, id: Seq<char>)
    ensures
        ({
            let r = ResolutionV::Direct(id);
            let asked = pipeline::possible_providers(c, r);
            exists|m: Option<EntryV>| #[trigger]
                laws::is_first(c.models, has_name(id), m) && match m {
                    Some(e) => asked == Seq::empty().push(e.provider_id) && pipeline::billed_class(c, r) == e.class,
                    None => asked.len() == 0 && pipeline::billed_class(c, r) is None,
                }
        }),
{
    models_are_found(c, id);
    let m = match registry::entry_of(c, id) {
        Ok(e) => Some(e),
        Err(_) => None,
    };
    assert(laws::is_first(c.models, has_name(id), m));
}

} // verus!
