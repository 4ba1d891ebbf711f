//! What is recorded of a request, and how it goes from one candidate to the next.

use vstd::prelude::*;

use crate::error::ErrorV;
use crate::ir::{EventV, Usage};
use crate::query::RequestKind;
use crate::router::CandidateV;
use crate::server::pipeline::{AttemptsV, RunV};
use crate::stats;
use crate::stats::RecordV;
use crate::text;

verus! {

// ------------------------------------------------------------------- streams

/// An event of a stream, with the milliseconds into the request at which it came.
pub type Timed = (EventV, u64);

/// What a run knows when it has seen events.
pub open spec fn after(run: RunV, seen: Seq<Timed>) -> RunV {
    seen.fold_left(run, |r: RunV, e: Timed| r.saw(e.0, e.1))
}

/// The usage that an event reports: one that starts or stops an answer does.
pub open spec fn reports() -> spec_fn(Timed) -> Option<Usage> {
    |e: Timed|
        match e.0 {
            EventV::Start { usage, .. } => Some(usage),
            EventV::Stop { usage, .. } => Some(usage),
            _ => None,
        }
}

/// The words that an event brings.
pub open spec fn words() -> spec_fn(Timed) -> Seq<char> {
    |e: Timed|
        match e.0 {
            EventV::TextDelta { text, .. } => text,
            _ => Seq::empty(),
        }
}

/// When an event brought words or thoughts.
pub open spec fn arrivals() -> spec_fn(Timed) -> Option<u64> {
    |e: Timed|
        if e.0 is TextDelta || e.0 is ThinkingDelta {
            Some(e.1)
        } else {
            None
        }
}

proof fn one_event_more(run: RunV, seen: Seq<Timed>)
    requires
        seen.len() > 0,
    ensures
        after(run, seen) == after(run, seen.drop_last()).saw(seen.last().0, seen.last().1),
{
    reveal(Seq::fold_left);
}

/// Whatever events a stream brings, the usage it comes to is that of the last event
/// that reports one. All its words are kept, in order, where words are kept. The time
/// to the first token is that of the first event with words or thoughts, unless it was
/// known before. Nothing else in the record moves.
pub proof fn streams_are_counted(run: RunV, seen: Seq<Timed>)
    ensures
        after(run, seen).usage == if seen.filter_map(reports()).len() == 0 {
            run.usage
        } else {
            seen.filter_map(reports()).last()
        },
        after(run, seen).classifier_text == match run.classifier_text {
            Some(t) => Some(t + seen.flat_map(words())),
            None => None,
        },
        after(run, seen).record == match run.record {
            Some(r) => Some(
                RecordV {
                    ttft_ms: match r.ttft_ms {
                        Some(t) => Some(t),
                        None => if seen.filter_map(arrivals()).len() == 0 {
                            None
                        } else {
                            Some(seen.filter_map(arrivals())[0])
                        },
                    },
                    ..r
                },
            ),
            None => None,
        },
    decreases seen.len(),
{
    reveal(Seq::filter_map);
    if seen.len() == 0 {
        reveal(Seq::fold_left);
        assert(seen.map_values(words()) =~= Seq::empty());
        assert(seen.flat_map(words()) =~= Seq::empty());
        if let Some(t) = run.classifier_text {
            assert(t + seen.flat_map(words()) =~= t);
        }
    } else {
        let front = seen.drop_last();
        let e = seen.last();
        streams_are_counted(run, front);
        one_event_more(run, seen);
        assert(front.push(e) =~= seen);
        front.lemma_flat_map_push(words(), e);
        assert(seen.flat_map(words()) == front.flat_map(words()) + words()(e));
        if let Some(t) = run.classifier_text {
            assert(t + seen.flat_map(words()) =~= t + front.flat_map(words()) + words()(e));
        }
        let (a, b) = (front.filter_map(reports()), front.filter_map(arrivals()));
        if reports()(e) is Some {
            assert(seen.filter_map(reports()) == a.push(reports()(e)->0));
        }
        if arrivals()(e) is Some {
            assert(seen.filter_map(arrivals()) == b.push(arrivals()(e)->0));
        }
    }
}

proof fn the_last_report_counts(seen: Seq<Timed>, k: int)
    requires
        0 <= k < seen.len(),
        reports()(seen[k]) is Some,
        forall|j: int| k < j < seen.len() ==> #[trigger] reports()(seen[j]) is None,
    ensures
        seen.filter_map(reports()).len() > 0,
        Some(seen.filter_map(reports()).last()) == reports()(seen[k]),
    decreases seen.len(),
{
    reveal(Seq::filter_map);
    let front = seen.drop_last();
    if k < seen.len() - 1 {
        assert(reports()(seen[seen.len() - 1]) is None);
        assert forall|j: int| k < j < front.len() implies #[trigger] reports()(front[j]) is None by {
            assert(reports()(seen[j]) is None);
        }
        the_last_report_counts(front, k);
    }
}

/// The record that a stream leaves carries the usage of the last `Stop` where no
/// `Start` comes behind it, and that of the last `Start` where there is no `Stop`. It
/// is the record of the request, with how long it took; where the stream ended in an
/// error it has failed, with that error's status and what may be told of it.
pub proof fn streams_leave_their_usage(run: RunV, seen: Seq<Timed>, k: int, error: Option<ErrorV>, latency_ms: u64)
    requires
        0 <= k < seen.len(),
        seen[k].0 is Start || seen[k].0 is Stop,
        forall|j: int| k < j < seen.len() ==> (#[trigger] seen[j]).0 !is Start && seen[j].0 !is Stop,
    ensures
        ({
            let end = after(run, seen).final_record(error, latency_ms);
            &&& end is Some <==> run.record is Some
            &&& end matches Some(r) ==> {
                &&& seen[k].0 matches EventV::Stop { usage, .. } ==> r.usage == usage
                &&& seen[k].0 matches EventV::Start { usage, .. } ==> r.usage == usage
            }
        }),
{
    streams_are_counted(run, seen);
    assert forall|j: int| k < j < seen.len() implies #[trigger] reports()(seen[j]) is None by {
        assert(seen[j].0 !is Start);
    }
    the_last_report_counts(seen, k);
}

/// A stream's record says how it ended: without an error as the request stood, with
/// one as failed, with the status and the message of the error. Its latency is the
/// time it took, its usage the usage that was counted; who asked and who answered
/// stays.
pub proof fn streams_end_as_they_ended(run: RunV, error: Option<ErrorV>, latency_ms: u64)
    requires
        run.record is Some,
    ensures
        ({
            let before = run.record->0;
            let end = run.final_record(error, latency_ms);
            &&& end is Some
            &&& end->0 == (RecordV {
                usage: run.usage,
                latency_ms,
                ok: if error is Some { false } else { before.ok },
                status: match error {
                    Some(e) => e.status(),
                    None => before.status,
                },
                error: match error {
                    Some(e) => Some(stats::redacted(e.message())),
                    None => before.error,
                },
                ..before
            })
        }),
{
}

// ------------------------------------------------------------------ attempts

/// What a request that begins knows of its plan: nothing was tried, and if nothing
/// can be, no candidate answers for the model that was asked for.
pub proof fn requests_begin_untried(record: RecordV, plan: Seq<CandidateV>, kind: RequestKind)
    ensures
        ({
            let a = AttemptsV::starting(record, plan, kind);
            &&& a.plan == plan
            &&& a.goes_on() <==> plan.len() > 0
            &&& a.begun().current() == plan[0]
            &&& a.last_error == ErrorV::NoCandidate(record.requested_model)
            &&& a.record == (RecordV { kind, ..record })
            &&& a.kind == kind
        }),
{
}

/// Each candidate of a plan is tried in its turn, with the request's record counting
/// the attempt and naming the candidate's model and provider, whatever errors came
/// before that others may mend.
pub proof fn candidates_take_turns(a: AttemptsV, e: ErrorV)
    requires
        a.goes_on(),
        0 <= a.tried,
        a.record.attempts < u32::MAX,
    ensures
        ({
            let b = a.begun();
            let c = a.plan[a.tried];
            &&& b.current() == c
            &&& b.plan == a.plan
            &&& b.kind == a.kind
            &&& b.record == (RecordV {
                attempts: (a.record.attempts + 1) as u32,
                resolved_model: Some(c.exposed_id),
                provider_name: Some(c.provider.name),
                ..a.record
            })
            &&& b.record.attempts == a.record.attempts + 1
            &&& b.failed(e).last_error == e
            &&& b.failed(e).plan == a.plan
            &&& b.failed(e).record == b.record
            &&& b.failed(e).goes_on() <==> e.retryable() && a.tried + 1 < a.plan.len()
            &&& b.failed(e).goes_on() ==> b.failed(e).begun().current() == a.plan[a.tried + 1]
            &&& b.passed_over(e).last_error == e
            &&& b.passed_over(e).plan == a.plan
            &&& b.passed_over(e).record == b.record
            &&& b.passed_over(e).goes_on() <==> a.tried + 1 < a.plan.len()
            &&& b.passed_over(e).goes_on() ==> b.passed_over(e).begun().current() == a.plan[a.tried + 1]
        }),
{
}

/// A request that was given up is recorded as failed, with the status and the message
/// of the last error, and with what was tried.
pub proof fn given_up_is_recorded(a: AttemptsV, latency_ms: u64)
    ensures
        a.failure_record(latency_ms) == (RecordV {
            ok: false,
            status: a.last_error.status(),
            error: Some(stats::redacted(a.last_error.message())),
            latency_ms,
            ..a.record
        }),
{
}

/// An answer to a classifier request counts exactly where `<block>` stands in it and
/// `</block>` somewhere behind that; any other answer counts as it is.
pub proof fn verdicts_stand_between_marks(a: AttemptsV, s: Seq<char>)
    ensures
        a.accepts(s) <==> a.kind == RequestKind::Main || exists|i: int, j: int|
            #![trigger text::occurs_at(s, "<block>"@, i), text::occurs_at(s, "</block>"@, j)]
            text::occurs_at(s, "<block>"@, i) && text::occurs_at(s, "</block>"@, j) && i + 7 <= j,
{
    let (open, close) = ("<block>"@, "</block>"@);
    reveal_strlit("<block>");
    let first = text::first_at(s, open, 0);
    if exists|i: int, j: int|
        #![trigger text::occurs_at(s, open, i), text::occurs_at(s, close, j)]
        text::occurs_at(s, open, i) && text::occurs_at(s, close, j) && i + 7 <= j {
        let (i, j) = choose|i: int, j: int|
            #![trigger text::occurs_at(s, open, i), text::occurs_at(s, close, j)]
            text::occurs_at(s, open, i) && text::occurs_at(s, close, j) && i + 7 <= j;
        first_is_no_later(s, open, 0, i);
        let rest = s.skip(first + open.len());
        let k = j - (first + open.len());
        assert(rest.subrange(k, k + close.len()) =~= s.subrange(j, j + close.len()));
        assert(text::occurs_at(rest, close, k));
    }
    if first >= 0 && text::occurs(s.skip(first + open.len()), close) {
        first_occurs(s, open, 0);
        let rest = s.skip(first + open.len());
        let k = choose|k: int| #[trigger] text::occurs_at(rest, close, k);
        let j = first + open.len() + k;
        assert(rest.subrange(k, k + close.len()) =~= s.subrange(j, j + close.len()));
        assert(text::occurs_at(s, close, j));
    }
}

proof fn first_occurs(s: Seq<char>, p: Seq<char>, i: int)
    requires
        0 <= i,
        text::first_at(s, p, i) >= 0,
    ensures
        text::occurs_at(s, p, text::first_at(s, p, i)),
    decreases s.len() + 1 - i,
{
    if s.subrange(i, i + p.len()) != p {
        first_occurs(s, p, i + 1);
    }
}

proof fn first_is_no_later(s: Seq<char>, p: Seq<char>, i: int, k: int)
    requires
        0 <= i <= k,
        text::occurs_at(s, p, k),
    ensures
        i <= text::first_at(s, p, i) <= k,
        text::occurs_at(s, p, text::first_at(s, p, i)),
    decreases k - i,
{
    if !text::occurs_at(s, p, i) {
        first_is_no_later(s, p, i + 1, k);
    }
}

} // verus!
