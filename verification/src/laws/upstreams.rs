//! What is sent to a provider beside the conversation, and what is made of its answer.

use vstd::prelude::*;

use crate::config;
use crate::config::{ProviderKind, ProviderV};
use crate::error::ErrorV;
use crate::headers;
use crate::ir::{BlockV, Dialect, EventV, MessageV, RequestV, Role, StreamEvent};
use crate::json;
use crate::json::{Lookup, Tree};
use crate::laws;
use crate::protocol;
use crate::protocol::sse::FrameV;
use crate::protocol::{AnyParser, ProviderQuirks};
use crate::query::RequestKind;
use crate::sorting;
use crate::sorting::Ranked;
use crate::text;
use crate::upstream;
use crate::upstream::{DiscoveredModel, DiscoveredV, EncodeMode, Handshake, Texts};
use crate::views;

verus! {

// ------------------------------------------------------------------- headers

/// Whether the headers hold that value under that name.
pub open spec fn holds(m: Texts, name: Seq<char>, value: Seq<char>) -> bool {
    m.contains_key(name) && m[name] == value
}

/// Whether two sets of headers say the same under a name.
pub open spec fn same_at(a: Texts, b: Texts, name: Seq<char>) -> bool {
    (a.contains_key(name) <==> b.contains_key(name)) && (a.contains_key(name) ==> a[name] == b[name])
}

/// A key goes into the header that its provider reads, whole; without one none does. A
/// key that no header can hold is refused.
pub proof fn keys_go_where_they_are_read(m: Texts, kind: ProviderKind, key: Option<Seq<char>>, name: Seq<char>)
    ensures
        key is None || key->0.len() == 0 ==> upstream::with_key(m, kind, key) == Ok::<Texts, ErrorV>(m),
        key is Some && key->0.len() > 0 ==> ({
            let header = if kind == ProviderKind::Anthropic { "x-api-key"@ } else { "authorization"@ };
            let value = if kind == ProviderKind::Anthropic { key->0 } else { "Bearer "@ + key->0 };
            let r = upstream::with_key(m, kind, key);
            &&& r is Ok <==> headers::is_value(value)
            &&& r matches Ok(h) ==> holds(h, header, value) && (name != header ==> same_at(h, m, name))
        }),
{
}

/// Anthropic is told which version is spoken, the configured one or else the one that
/// is; nobody else is.
pub proof fn versions_are_told(m: Texts, p: ProviderV, name: Seq<char>)
    ensures
        p.kind == ProviderKind::OpenAICompatible ==> upstream::with_version(m, p) == Ok::<Texts, ErrorV>(m),
        p.kind == ProviderKind::Anthropic ==> ({
            let v = if p.anthropic_version is Some { p.anthropic_version->0 } else { "2023-06-01"@ };
            let r = upstream::with_version(m, p);
            &&& r is Ok <==> headers::is_value(v)
            &&& r matches Ok(h) ==> holds(h, "anthropic-version"@, v) && (name != "anthropic-version"@ ==> same_at(
                h,
                m,
                name,
            ))
        }),
{
}

/// The last of the extra headers from `i` on with that name, whatever its case.
pub open spec fn last_extra(extra: Seq<(Seq<char>, Seq<char>)>, i: int, name: Seq<char>, k: int) -> bool {
    &&& i <= k < extra.len()
    &&& text::ascii_lowered(extra[k].0) == name
    &&& forall|j: int| k < j < extra.len() ==> text::ascii_lowered((#[trigger] extra[j]).0) != name
}

/// Every extra header is set, under its name in small letters; of two of one name the
/// last counts. All other headers stay. One that is no header refuses them all.
pub proof fn extra_headers_are_set(m: Texts, extra: Seq<(Seq<char>, Seq<char>)>, i: int, name: Seq<char>)
    requires
        0 <= i <= extra.len(),
    ensures
        upstream::with_extra(m, extra, i) is Ok <==> forall|j: int|
            i <= j < extra.len() ==> headers::is_name((#[trigger] extra[j]).0) && headers::is_value(extra[j].1),
        upstream::with_extra(m, extra, i) matches Ok(h) ==> {
            &&& forall|k: int| #[trigger] last_extra(extra, i, name, k) ==> holds(h, name, extra[k].1)
            &&& (forall|j: int| i <= j < extra.len() ==> text::ascii_lowered((#[trigger] extra[j]).0) != name)
                ==> same_at(h, m, name)
        },
    decreases extra.len() - i,
{
    if i < extra.len() {
        if headers::is_name(extra[i].0) && headers::is_value(extra[i].1) {
            let next = m.insert(text::ascii_lowered(extra[i].0), extra[i].1);
            extra_headers_are_set(next, extra, i + 1, name);
            if let Ok(h) = upstream::with_extra(m, extra, i) {
                assert forall|k: int| #[trigger] last_extra(extra, i, name, k) implies holds(
                    h,
                    name,
                    extra[k].1,
                ) by {
                    if k > i {
                        assert(last_extra(extra, i + 1, name, k));
                    } else {
                        assert(forall|j: int|
                            i + 1 <= j < extra.len() ==> text::ascii_lowered((#[trigger] extra[j]).0) != name);
                    }
                }
            }
        }
    }
}

/// The headers of a request begin with what is sent and what is taken, then the key and
/// the version, then the extra ones, and for a provider that is to take it for its own
/// client the marks of that.
pub proof fn headers_are_built_in_order(p: ProviderV, key: Option<Seq<char>>)
    ensures
        holds(upstream::base_headers(), "content-type"@, "application/json"@),
        holds(upstream::base_headers(), "accept"@, "application/json, text/event-stream"@),
        ({
            let keyed = upstream::with_key(upstream::base_headers(), p.kind, key);
            let told = upstream::with_version(keyed->Ok_0, p);
            let all = upstream::with_extra(told->Ok_0, p.extra_headers, 0);
            let r = upstream::built_headers(p, key);
            &&& keyed is Err || told is Err || all is Err ==> r is Err
            &&& keyed is Ok && told is Ok && all is Ok && !p.impersonate_claude_code ==> r == all
            &&& keyed is Ok && told is Ok && all is Ok && p.impersonate_claude_code ==> r
                == upstream::with_fingerprint(all->Ok_0, p.client_identity)
        }),
{
    reveal_strlit("content-type");
    reveal_strlit("accept");
    assert("content-type"@.len() == 12 && "accept"@.len() == 6);
}

/// The marks of a client: its name, what it is, and its beta marker before whatever was
/// asked for already, once.
pub proof fn marks_are_set(m: Texts, client: config::IdentityV, name: Seq<char>)
    ensures
        upstream::with_fingerprint(m, client) matches Ok(h) ==> {
            &&& holds(h, "user-agent"@, client.user_agent)
            &&& holds(h, "x-app"@, "cli"@)
            &&& holds(h, "anthropic-dangerous-direct-browser-access"@, "true"@)
            &&& h.contains_key("anthropic-beta"@)
            &&& !m.contains_key("anthropic-beta"@) ==> h["anthropic-beta"@] == client.beta
            &&& m.contains_key("anthropic-beta"@) && headers::is_visible(m["anthropic-beta"@]) ==> h["anthropic-beta"@]
                == if text::occurs(m["anthropic-beta"@], client.beta) {
                m["anthropic-beta"@]
            } else {
                client.beta + ","@ + m["anthropic-beta"@]
            }
            &&& !(seq![
                "user-agent"@,
                "x-app"@,
                "anthropic-dangerous-direct-browser-access"@,
                "anthropic-beta"@,
            ].contains(name)) ==> same_at(h, m, name)
        },
{
    reveal_strlit("user-agent");
    reveal_strlit("x-app");
    reveal_strlit("anthropic-dangerous-direct-browser-access");
    reveal_strlit("anthropic-beta");
    assert("user-agent"@.len() == 10 && "x-app"@.len() == 5 && "anthropic-dangerous-direct-browser-access"@.len() == 41
        && "anthropic-beta"@.len() == 14);
    let known = seq![
        "user-agent"@,
        "x-app"@,
        "anthropic-dangerous-direct-browser-access"@,
        "anthropic-beta"@,
    ];
    assert(known[0] == "user-agent"@ && known[1] == "x-app"@ && known[2]
        == "anthropic-dangerous-direct-browser-access"@ && known[3] == "anthropic-beta"@);
}

// ---------------------------------------------------------------------- body

/// The lesser of what was asked for and what the model allows; where only one is given,
/// that one.
pub proof fn limits_are_the_lesser(asked: Option<u32>, cap: Option<u32>)
    ensures
        cap is None ==> upstream::capped(asked, cap) == asked,
        asked is None ==> upstream::capped(asked, cap) == cap,
        asked is Some && cap is Some ==> upstream::capped(asked, cap) == Some(
            if asked->0 <= cap->0 { asked->0 } else { cap->0 },
        ),
{
}

/// A side query keeps its temperature and where it stops, whatever the provider would
/// drop; nothing else of the provider's ways changes. Any other request is written as
/// the provider has it.
pub proof fn side_queries_are_written_true(kind: RequestKind, q: ProviderQuirks)
    ensures
        upstream::mode_for(kind) == if kind == RequestKind::Main { EncodeMode::Normal } else { EncodeMode::Classifier },
        upstream::quirks_in(EncodeMode::Normal, q) == q,
        upstream::quirks_in(EncodeMode::Classifier, q) == (ProviderQuirks {
            drop_temperature: false,
            drop_stop: false,
            ..q
        }),
{
}

/// A body is the request in the provider's dialect, for the upstream's own model, under
/// the lesser limit. A provider that is to take it for its own client has that client's
/// line before all other instructions.
pub proof fn bodies_are_written_for_their_provider(
    p: ProviderV,
    req: RequestV,
    model: Seq<char>,
    cap: Option<u32>,
    mode: EncodeMode,
)
    ensures
        ({
            let dialect = if p.kind == ProviderKind::Anthropic { Dialect::Anthropic } else { Dialect::OpenAI };
            let asked = RequestV { max_tokens: upstream::capped(req.max_tokens, cap), ..req };
            let plain = protocol::request_body(dialect, asked, model, upstream::quirks_in(mode, p.quirks));
            let r = upstream::provider_body(p, req, model, cap, mode);
            &&& plain matches Err(e) ==> r == Err::<Tree, ErrorV>(e)
            &&& plain matches Ok(b) ==> r == Ok::<Tree, ErrorV>(
                if p.impersonate_claude_code && p.kind == ProviderKind::Anthropic {
                    upstream::with_identity(b, p.client_identity.system_line)
                } else {
                    b
                },
            )
        }),
{
}

/// The line of a client comes first among the instructions, and every instruction that
/// was there stays, in order, behind it. Nothing else in the body changes.
pub proof fn lines_come_first(body: Tree, line: Seq<char>, k: Seq<char>)
    requires
        body is Obj,
    ensures
        ({
            let out = upstream::with_identity(body, line);
            let first = Tree::Obj(seq![("type"@, Tree::Str("text"@)), ("text"@, Tree::Str(line))]);
            let now = out.at("system"@).list();
            &&& k != "system"@ ==> out.at(k) == body.at(k)
            &&& now is Some && now->0.len() > 0
            &&& body.at("system"@) is None ==> now->0 == seq![first]
            &&& body.at("system"@) matches Some(Tree::Str(s)) ==> now->0 == if s.len() > 0 {
                seq![first, Tree::Obj(seq![("type"@, Tree::Str("text"@)), ("text"@, Tree::Str(s))])]
            } else {
                seq![first]
            }
            &&& body.at("system"@) matches Some(Tree::Arr(bs)) ==> if bs.len() > 0 && bs[0].at("text"@).text() == Some(
                line,
            ) {
                now->0 == bs
            } else {
                now->0 == seq![first] + bs
            }
        }),
{
    let m = body->Obj_0;
    let first = Tree::Obj(seq![("type"@, Tree::Str("text"@)), ("text"@, Tree::Str(line))]);
    assert(upstream::text_part(line)->Obj_0 =~= first->Obj_0);
    assert(Seq::empty().push(first) =~= seq![first]);
    match body.at("system"@) {
        Some(system) => {
            let list = upstream::identified(system, line);
            json::set_is_found(m, "system"@, Tree::Arr(list), "system"@);
            json::set_is_found(m, "system"@, Tree::Arr(list), k);
            if let Tree::Str(s) = system {
                let second = Tree::Obj(seq![("type"@, Tree::Str("text"@)), ("text"@, Tree::Str(s))]);
                assert(upstream::text_part(s)->Obj_0 =~= second->Obj_0);
                assert(s.len() > 0 ==> list =~= seq![first, second]);
            }
            if let Tree::Arr(bs) = system {
                assert(list =~= seq![first] + bs);
            }
        },
        None => {
            let list = Seq::empty().push(upstream::text_part(line));
            json::set_is_found(m, "system"@, Tree::Arr(list), "system"@);
            json::set_is_found(m, "system"@, Tree::Arr(list), k);
        },
    }
}

/// A provider is tried with one short word, for one token.
pub proof fn probes_are_short(p: ProviderV, model: Seq<char>)
    ensures
        ({
            let r = upstream::probe_request(p, model);
            &&& r.model == model
            &&& r.max_tokens == Some(1u32)
            &&& r.messages == seq![
                MessageV {
                    role: Role::User,
                    content: seq![BlockV::Text { text: "ping"@, cache_control: None }],
                },
            ]
            &&& !r.stream
            &&& r.tools.len() == 0 && r.system.len() == 0
        }),
{
    let r = upstream::probe_request(p, model);
    assert(r.messages[0].content =~= seq![BlockV::Text { text: "ping"@, cache_control: None }]);
    assert(r.messages =~= seq![r.messages[0]]);
}

// -------------------------------------------------------------------- answer

/// An answer counts where its status does. A refusal keeps the status and the head of
/// what was said; an answer that is no document is not one.
pub proof fn answers_are_taken(provider: Seq<char>, status: u16, said: Seq<char>)
    ensures
        ({
            let r = upstream::answered(provider, status, said);
            &&& !(200 <= status < 300) ==> (r matches Err(ErrorV::Upstream { provider: p, status: s, body }) && p
                == provider && s == status && body.len() <= 2001 && (said.len() <= 2000 ==> body == said) && (
            said.len() > 2000 ==> body.take(2000) == said.take(2000)))
            &&& 200 <= status < 300 ==> match json::parsed(said) {
                Ok(t) => r == Ok::<Tree, ErrorV>(t),
                Err(_) => r matches Err(ErrorV::BadUpstreamPayload(_)),
            }
        }),
{
    upstream::truncation_keeps_the_head(said, 2000);
}

/// What a provider answered is read in its own dialect.
pub proof fn answers_are_read_in_their_dialect(p: ProviderV, status: u16, said: Seq<char>, ids: Seq<Seq<char>>)
    ensures
        200 <= status < 300 && json::parsed(said) is Ok ==> upstream::chat_answer(p, status, said, ids)
            == protocol::response_of(
            if p.kind == ProviderKind::Anthropic { Dialect::Anthropic } else { Dialect::OpenAI },
            json::parsed(said)->Ok_0,
            ids,
        ),
        !(200 <= status < 300) ==> upstream::chat_answer(p, status, said, ids) is Err,
        json::parsed(said) is Err ==> upstream::chat_answer(p, status, said, ids) is Err,
{
}

/// A stream is opened again after a fault that may pass, at most twice, each time after
/// a longer wait; any other fault is final.
pub proof fn streams_are_opened_again(attempt: u32, e: ErrorV)
    ensures
        ({
            let passes = e is Transport || (e matches ErrorV::Upstream { status, .. } && (status == 408 || status == 502
                || status == 503 || status == 504));
            &&& attempt < 3 && passes ==> upstream::after_failure(attempt, e) == (Handshake::Retry {
                delay_ms: (750 * attempt) as u64,
            })
            &&& attempt >= 3 || !passes ==> upstream::after_failure(attempt, e) == Handshake::Fail
        }),
{
}

// ----------------------------------------------------------------- discovery

/// What an entry of a provider's catalogue offers.
pub open spec fn offer() -> spec_fn(Tree) -> Option<DiscoveredV> {
    |t: Tree|
        match t.at("id"@).text() {
            Some(id) => Some(DiscoveredV { id, pricing: t.at("pricing"@) }),
            None => None,
        }
}

proof fn offers_are_kept(items: Seq<Tree>, i: int)
    requires
        0 <= i <= items.len(),
    ensures
        upstream::entries_from(items, 0, Seq::empty()) == upstream::entries_from(
            items,
            i,
            items.take(i).filter_map(offer()),
        ),
    decreases i,
{
    if i > 0 {
        offers_are_kept(items, i - 1);
        laws::keeping_takes(items, i - 1, offer());
    } else {
        assert(items.take(0).filter_map(offer()) =~= Seq::empty());
    }
}

proof fn offers_are_ordered()
    ensures
        sorting::is_order::<DiscoveredModel>(),
{
    assert forall|a: DiscoveredV| !#[trigger] <DiscoveredModel as Ranked>::before(a, a) by {
        text::texts_are_ordered(a.id, a.id, a.id);
    }
    assert forall|a: DiscoveredV, b: DiscoveredV, c: DiscoveredV|
        #[trigger] <DiscoveredModel as Ranked>::before(a, b) && #[trigger] <DiscoveredModel as Ranked>::before(
            b,
            c,
        ) implies <DiscoveredModel as Ranked>::before(a, c) by {
        text::texts_are_ordered(a.id, b.id, c.id);
    }
    assert forall|a: DiscoveredV, b: DiscoveredV, c: DiscoveredV|
        !#[trigger] <DiscoveredModel as Ranked>::before(b, a) && !#[trigger] <DiscoveredModel as Ranked>::before(
            c,
            b,
        ) implies !<DiscoveredModel as Ranked>::before(c, a) by {
        let (x, y, z) = (a.id, b.id, c.id);
        text::texts_are_ordered(x, y, z);
        text::texts_are_ordered(y, z, x);
        text::texts_are_ordered(z, x, y);
        text::texts_are_ordered(z, y, x);
        text::texts_are_ordered(y, x, z);
        text::texts_are_ordered(x, z, y);
    }
}

/// Whether the ids rise from one to the next.
pub open spec fn rising(s: Seq<DiscoveredV>) -> bool {
    forall|a: int, b: int| 0 <= a < b < s.len() ==> text::before((#[trigger] s[a]).id, (#[trigger] s[b]).id)
}

/// Whether one of a list has that id.
pub open spec fn offers(s: Seq<DiscoveredV>, id: Seq<char>) -> bool {
    exists|a: int| 0 <= a < s.len() && (#[trigger] s[a]).id == id
}

spec fn never_falling(s: Seq<DiscoveredV>) -> bool {
    forall|a: int, b: int| 0 <= a < b < s.len() ==> !text::before((#[trigger] s[b]).id, (#[trigger] s[a]).id)
}

spec fn all_from(s: Seq<DiscoveredV>, list: Seq<DiscoveredV>) -> bool {
    forall|a: int| 0 <= a < s.len() ==> list.contains(#[trigger] s[a])
}

spec fn covers(s: Seq<DiscoveredV>, list: Seq<DiscoveredV>, n: int) -> bool {
    forall|b: int| 0 <= b < n ==> offers(s, (#[trigger] list[b]).id)
}

proof fn one_more(list: Seq<DiscoveredV>, i: int, sofar: Seq<DiscoveredV>)
    requires
        0 <= i < list.len(),
        never_falling(list),
        rising(sofar),
        all_from(sofar, list),
        covers(sofar, list, i),
        i > 0 ==> sofar.len() > 0 && sofar.last().id == list[i - 1].id,
        i == 0 ==> sofar.len() == 0,
        sofar.len() > 0 ==> sofar.last().id != list[i].id,
    ensures
        rising(sofar.push(list[i])),
        all_from(sofar.push(list[i]), list),
        covers(sofar.push(list[i]), list, i + 1),
{
    let x = list[i];
    let next = sofar.push(x);
    assert(rising(next)) by {
        assert forall|a: int, b: int| 0 <= a < b < next.len() implies text::before(
            (#[trigger] next[a]).id,
            (#[trigger] next[b]).id,
        ) by {
            if b == sofar.len() {
                let last = sofar[sofar.len() - 1].id;
                assert(!text::before(list[i].id, list[i - 1].id));
                text::texts_are_ordered(last, x.id, last);
                if a < sofar.len() - 1 {
                    assert(text::before(sofar[a].id, sofar[sofar.len() - 1].id));
                    text::texts_are_ordered(sofar[a].id, last, x.id);
                }
            } else {
                assert(text::before(sofar[a].id, sofar[b].id));
            }
        }
    }
    assert(all_from(next, list)) by {
        assert forall|a: int| 0 <= a < next.len() implies list.contains(#[trigger] next[a]) by {
            if a < sofar.len() {
                assert(list.contains(sofar[a]));
            }
        }
    }
    assert(covers(next, list, i + 1)) by {
        assert forall|b: int| 0 <= b < i + 1 implies offers(next, (#[trigger] list[b]).id) by {
            if b == i {
                assert(next[sofar.len() as int].id == list[b].id);
            } else {
                assert(offers(sofar, list[b].id));
                let a = choose|a: int| 0 <= a < sofar.len() && (#[trigger] sofar[a]).id == list[b].id;
                assert(next[a].id == list[b].id);
            }
        }
    }
}

proof fn one_of_each(list: Seq<DiscoveredV>, i: int, sofar: Seq<DiscoveredV>)
    requires
        0 <= i <= list.len(),
        never_falling(list),
        rising(sofar),
        all_from(sofar, list),
        covers(sofar, list, i),
        i > 0 ==> sofar.len() > 0 && sofar.last().id == list[i - 1].id,
        i == 0 ==> sofar.len() == 0,
    ensures
        rising(upstream::distinct_from(list, i, sofar)),
        all_from(upstream::distinct_from(list, i, sofar), list),
        covers(upstream::distinct_from(list, i, sofar), list, list.len() as int),
    decreases list.len() - i,
{
    if i < list.len() {
        if sofar.len() > 0 && sofar.last().id == list[i].id {
            assert(covers(sofar, list, i + 1)) by {
                assert forall|b: int| 0 <= b < i + 1 implies offers(sofar, (#[trigger] list[b]).id) by {
                    if b == i {
                        assert(sofar[sofar.len() - 1].id == list[b].id);
                    }
                }
            }
            one_of_each(list, i + 1, sofar);
        } else {
            one_more(list, i, sofar);
            one_of_each(list, i + 1, sofar.push(list[i]));
        }
    }
}

/// A catalogue is read whole: every model that it offers once, and no other, by id.
pub proof fn catalogues_are_read_whole(body: Tree, x: DiscoveredV)
    ensures
        body.at("data"@).list() is None ==> upstream::discovered(body).len() == 0,
        body.at("data"@) matches Some(Tree::Arr(items)) ==> ({
            let out = upstream::discovered(body);
            let all = items.filter_map(offer());
            &&& rising(out)
            &&& out.contains(x) ==> all.contains(x)
            &&& all.contains(x) ==> offers(out, x.id)
        }),
{
    if let Some(Tree::Arr(items)) = body.at("data"@) {
        offers_are_kept(items, items.len() as int);
        assert(items.take(items.len() as int) =~= items);
        let all = items.filter_map(offer());
        let s = sorting::sorted::<DiscoveredModel>(all);
        offers_are_ordered();
        sorting::sorting_orders::<DiscoveredModel>(all);
        sorting::sorting_keeps_items::<DiscoveredModel>(all);
        all.to_multiset_ensures();
        s.to_multiset_ensures();
        assert(s.contains(x) <==> all.contains(x)) by {
            assert(s.to_multiset().count(x) > 0 <==> all.to_multiset().count(x) > 0);
        }
        assert(never_falling(s)) by {
            assert forall|a: int, b: int| 0 <= a < b < s.len() implies !text::before(
                (#[trigger] s[b]).id,
                (#[trigger] s[a]).id,
            ) by {
                assert(!<DiscoveredModel as Ranked>::before(s[b], s[a]));
            }
        }
        one_of_each(s, 0, Seq::empty());
        let out = upstream::discovered(body);
        if out.contains(x) {
            let a = choose|a: int| 0 <= a < out.len() && out[a] == x;
            assert(s.contains(out[a]));
        }
        if all.contains(x) {
            let b = choose|b: int| 0 <= b < s.len() && s[b] == x;
            assert(offers(out, s[b].id));
        }
    }
}

// ----------------------------------------------------------------- addresses

/// What is left of an address is what stands before its last slashes.
pub proof fn last_slashes_go(s: Seq<char>, n: nat)
    ensures
        s.len() == 0 || s.last() != '/' ==> config::without_end_slashes(s + Seq::new(n, |i: int| '/')) == s,
        s.len() > 0 && s.last() == '/' ==> config::without_end_slashes(s).len() < s.len(),
        config::without_end_slashes(s).len() == 0 || config::without_end_slashes(s).last() != '/',
        config::without_end_slashes(s).is_prefix_of(s),
    decreases n + s.len(),
{
    if n > 0 {
        last_slashes_go(s, (n - 1) as nat);
        let t = s + Seq::new(n, |i: int| '/');
        assert(t.drop_last() =~= s + Seq::new((n - 1) as nat, |i: int| '/'));
    } else {
        assert(s + Seq::new(0, |i: int| '/') =~= s);
        if s.len() > 0 && s.last() == '/' {
            last_slashes_go(s.drop_last(), 0);
            let r = config::without_end_slashes(s);
            assert(r =~= s.drop_last().take(r.len() as int));
            assert(r =~= s.take(r.len() as int));
        } else {
            assert(s.take(s.len() as int) =~= s);
        }
    }
}

/// Chats and catalogues are where their provider's kind has them, below the base address
/// without its last slashes.
pub proof fn addresses_are_below_the_base(p: ProviderV)
    ensures
        p.kind == ProviderKind::Anthropic ==> p.chat_url() == config::without_end_slashes(p.base_url)
            + "/v1/messages"@ && p.models_url() == config::without_end_slashes(p.base_url) + "/v1/models"@,
        p.kind == ProviderKind::OpenAICompatible ==> p.chat_url() == config::without_end_slashes(p.base_url)
            + "/chat/completions"@ && p.models_url() == config::without_end_slashes(p.base_url) + "/models"@,
{
}

proof fn first_slashes_go(s: Seq<char>, n: nat)
    ensures
        s.len() == 0 || s[0] != '/' ==> upstream::without_start_slashes(Seq::new(n, |i: int| '/') + s) == s,
    decreases n,
{
    let t = Seq::new(n, |i: int| '/') + s;
    if n > 0 {
        first_slashes_go(s, (n - 1) as nat);
        assert(t.skip(1) =~= Seq::new((n - 1) as nat, |i: int| '/') + s);
    } else {
        assert(t =~= s);
    }
}

/// A balance is at its own address, or below the base address with one slash between,
/// however many either has.
pub proof fn balances_are_found(base: Seq<char>, path: Seq<char>, n: nat, m: nat)
    requires
        base.len() == 0 || base.last() != '/',
        path.len() == 0 || path[0] != '/',
        !"http://"@.is_prefix_of(Seq::new(m, |i: int| '/') + path),
        !"https://"@.is_prefix_of(Seq::new(m, |i: int| '/') + path),
    ensures
        upstream::balance_at(base + Seq::new(n, |i: int| '/'), Seq::new(m, |i: int| '/') + path) == base + "/"@ + path,
        upstream::balance_at(base, "http://"@ + path) == "http://"@ + path,
        upstream::balance_at(base, "https://"@ + path) == "https://"@ + path,
{
    last_slashes_go(base, n);
    first_slashes_go(path, m);
    let (a, b) = ("http://"@, "https://"@);
    assert((a + path).subrange(0, a.len() as int) =~= a);
    assert((b + path).subrange(0, b.len() as int) =~= b);
}

// -------------------------------------------------------------------- frames

/// What frames bring is given in order behind what was given before: with no frame
/// nothing, and with one frame more what that frame brings.
pub proof fn frames_are_taken_in_order(
    before: AnyParser,
    start: Seq<EventV>,
    frames: Seq<FrameV>,
    n: int,
    after: AnyParser,
    out: Seq<EventV>,
)
    requires
        0 <= n,
        upstream::takes(before, start, frames, n, after, out),
    ensures
        out.len() >= start.len(),
        out.take(start.len() as int) == start,
        n == 0 ==> after == before && out == start,
        n == 1 ==> exists|more: Vec<StreamEvent>| #[trigger]
            protocol::took(before, after, frames[0], Ok(more)) && out == start + views::of(more@),
    decreases n,
{
    if n > 0 {
        let (mid, given, more) = choose|mid: AnyParser, given: Seq<EventV>, more: Vec<StreamEvent>|
            {
                &&& #[trigger] upstream::takes_one(mid, given, frames[n - 1], more, after, out)
                &&& upstream::takes(before, start, frames, n - 1, mid, given)
            };
        frames_are_taken_in_order(before, start, frames, n - 1, mid, given);
        assert(out.take(start.len() as int) =~= given.take(start.len() as int));
        if n == 1 {
            assert(protocol::took(before, after, frames[0], Ok(more)));
        }
    } else {
        assert(out.take(start.len() as int) =~= start);
    }
}

} // verus!
