//! How names, addresses and lines are taken apart and put together.

use vstd::prelude::*;

use crate::config;
use crate::config::{EntryV, ModelClass};
use crate::ir;
use crate::ir::SourceV;
use crate::protocol;
use crate::protocol::sse;
use crate::protocol::sse::Lines;
use crate::query;
use crate::registry;
use crate::text;

verus! {

// ---------------------------------------------------------------------- text

pub open spec fn all_blank(s: Seq<char>) -> bool {
    forall|i: int| 0 <= i < s.len() ==> text::is_white_space(#[trigger] s[i])
}

proof fn blanks_before_go(a: Seq<char>, s: Seq<char>)
    requires
        all_blank(a),
        s.len() == 0 || !text::is_white_space(s[0]),
    ensures
        text::trimmed_start(a + s) == s,
    decreases a.len(),
{
    if a.len() > 0 {
        assert((a + s)[0] == a[0]);
        assert((a + s).skip(1) =~= a.skip(1) + s);
        assert forall|i: int| 0 <= i < a.skip(1).len() implies text::is_white_space(#[trigger] a.skip(1)[i]) by {
            assert(text::is_white_space(a[i + 1]));
        }
        blanks_before_go(a.skip(1), s);
    } else {
        assert(a + s =~= s);
    }
}

proof fn blanks_behind_go(s: Seq<char>, b: Seq<char>)
    requires
        all_blank(b),
        s.len() == 0 || !text::is_white_space(s.last()),
    ensures
        text::trimmed_end(s + b) == s,
    decreases b.len(),
{
    if b.len() > 0 {
        assert((s + b).last() == b.last());
        assert((s + b).drop_last() =~= s + b.drop_last());
        assert forall|i: int| 0 <= i < b.drop_last().len() implies text::is_white_space(
            #[trigger] b.drop_last()[i],
        ) by {
            assert(text::is_white_space(b[i]));
        }
        blanks_behind_go(s, b.drop_last());
    } else {
        assert(s + b =~= s);
    }
}

/// What is trimmed loses the blanks around it and nothing else.
pub proof fn blanks_around_go(a: Seq<char>, s: Seq<char>, b: Seq<char>)
    requires
        all_blank(a),
        all_blank(b),
        s.len() > 0,
        !text::is_white_space(s[0]),
        !text::is_white_space(s.last()),
    ensures
        text::trimmed(a + s + b) == s,
        text::trimmed(a) == Seq::<char>::empty(),
{
    assert(a + s + b =~= a + (s + b));
    blanks_before_go(a, s + b);
    blanks_behind_go(s, b);
    blanks_before_go(a, Seq::empty());
    assert(a + Seq::<char>::empty() =~= a);
}

/// One text comes before another where it has the lesser character at the first place
/// at which they differ, or where it ends first.
pub proof fn texts_come_by_their_first_difference(p: Seq<char>, x: char, a: Seq<char>, y: char, b: Seq<char>)
    ensures
        (x as int) < (y as int) ==> text::before(p.push(x) + a, p.push(y) + b),
        text::before(p, p.push(y) + b),
        !text::before(p.push(y) + b, p),
{
    shared_start(p.push(x) + a, p.push(y) + b, p, 0);
    shared_start(p, p.push(y) + b, p, 0);
    let (s, t) = (p.push(x) + a, p.push(y) + b);
    let n = p.len() as int;
    assert(s[n] == x && t[n] == y);
    text::texts_are_ordered(p, t, p);
}

proof fn shared_start(s: Seq<char>, t: Seq<char>, p: Seq<char>, i: int)
    requires
        0 <= i <= p.len(),
        p.len() <= s.len(),
        p.len() <= t.len(),
        forall|j: int| 0 <= j < p.len() ==> s[j] == t[j],
    ensures
        text::before_from(s, t, i) == text::before_from(s, t, p.len() as int),
    decreases p.len() - i,
{
    if i < p.len() {
        assert(s[i] == t[i]);
        shared_start(s, t, p, i + 1);
    }
}

/// The number that digits stand for.
pub open spec fn worth(s: Seq<char>) -> int {
    s.fold_left(0int, |n: int, c: char| n * 10 + (c as int - '0' as int))
}

/// A number is written by its digits.
pub proof fn digits_are_worth_their_number(n: nat)
    ensures
        worth(text::digits(n)) == n,
        forall|i: int| 0 <= i < text::digits(n).len() ==> '0' as int <= #[trigger] text::digits(n)[i] as int <= '9' as int,
    decreases n,
{
    reveal(Seq::fold_left);
    let f = |n: int, c: char| n * 10 + (c as int - '0' as int);
    if n < 10 {
        let d = text::digit(n);
        assert('0' as int + n <= '9' as int);
        assert(d as int == '0' as int + n);
        let one = seq![d];
        assert(one.drop_last() =~= Seq::empty());
        assert(one.drop_last().fold_left(0int, f) == 0);
        assert(text::digits(n) == one);
        assert(one.fold_left(0int, f) == f(one.drop_last().fold_left(0int, f), one.last()));
    } else {
        digits_are_worth_their_number(n / 10);
        let r = n % 10;
        let d = text::digit(r);
        assert(0 <= r < 10);
        assert('0' as int + r <= '9' as int);
        assert(d as int == '0' as int + r);
        let most = text::digits(n / 10);
        let all = most.push(d);
        assert(all.drop_last() =~= most);
        assert(all.fold_left(0int, f) == f(most.fold_left(0int, f), d));
        assert(n == 10 * (n / 10) + n % 10);
    }
}

/// Small letters stay, and so does what is no letter; a capital becomes small.
pub proof fn capitals_become_small(s: Seq<char>, i: int)
    requires
        0 <= i < s.len(),
    ensures
        text::ascii_lowered(s).len() == s.len(),
        !('A' as int <= s[i] as int <= 'Z' as int) ==> text::ascii_lowered(s)[i] == s[i],
        'A' as int <= s[i] as int <= 'Z' as int ==> text::ascii_lowered(s)[i] as int == s[i] as int + 32,
{
}

// --------------------------------------------------------------------- media

proof fn the_first_mark(m: Seq<char>, d: Seq<char>, mark: Seq<char>, i: int)
    requires
        0 <= i <= m.len(),
        forall|k: int| 0 <= k < m.len() ==> !text::occurs_at(m + mark + d, mark, k),
    ensures
        text::first_at(m + mark + d, mark, i) == m.len(),
    decreases m.len() - i,
{
    let s = m + mark + d;
    if i < m.len() {
        assert(!text::occurs_at(s, mark, i));
        the_first_mark(m, d, mark, i + 1);
    } else {
        assert(s.subrange(i, i + mark.len()) =~= mark);
    }
}

/// Data in an address is read back as the data it was, with its kind; any other address
/// is where something is.
pub proof fn data_stands_in_its_address(media_type: Seq<char>, data: Seq<char>, url: Seq<char>)
    requires
        forall|k: int|
            0 <= k < media_type.len() ==> !text::occurs_at(media_type + ";base64,"@ + data, ";base64,"@, k),
    ensures
        ir::source_of_url(ir::url_of_source(SourceV::Base64 { media_type, data })) == (SourceV::Base64 {
            media_type,
            data,
        }),
        ir::url_of_source(SourceV::Base64 { media_type, data }) == "data:"@ + media_type + ";base64,"@ + data,
        ir::url_of_source(SourceV::Url { url }) == url,
        ir::url_of_source(SourceV::Reference { id: url }) == url,
        !"data:"@.is_prefix_of(url) ==> ir::source_of_url(url) == (SourceV::Url { url }),
{
    let p = "data:"@;
    let mark = ";base64,"@;
    let rest = media_type + mark + data;
    let all = p + media_type + mark + data;
    assert(all.subrange(0, p.len() as int) =~= p);
    assert(all.skip(p.len() as int) =~= rest);
    the_first_mark(media_type, data, mark, 0);
    assert(rest.take(media_type.len() as int) =~= media_type);
    assert(rest.skip((media_type.len() + mark.len()) as int) =~= data);
}

/// The format of a sound is its kind, by the short names of two.
pub proof fn sounds_have_formats(x: Seq<char>)
    ensures
        protocol::audio_format("audio/mpeg"@) == "mp3"@,
        protocol::audio_format("audio/x-wav"@) == "wav"@,
        x != "mpeg"@ && x != "x-wav"@ ==> protocol::audio_format("audio/"@ + x) == x,
{
    let p = "audio/"@;
    reveal_strlit("audio/");
    reveal_strlit("audio/mpeg");
    reveal_strlit("audio/x-wav");
    reveal_strlit("mpeg");
    reveal_strlit("x-wav");
    assert("audio/mpeg"@.subrange(0, 6) =~= p && "audio/mpeg"@.skip(6) =~= "mpeg"@);
    assert("audio/x-wav"@.subrange(0, 6) =~= p && "audio/x-wav"@.skip(6) =~= "x-wav"@);
    assert((p + x).subrange(0, 6) =~= p && (p + x).skip(6) =~= x);
    assert("mpeg"@.len() == 4 && "x-wav"@.len() == 5);
}

// --------------------------------------------------------------------- names

proof fn the_bracket_is_last(s: Seq<char>, tag: Seq<char>, i: int)
    requires
        s.len() < i <= s.len() + tag.len() + 2,
        forall|k: int| 0 <= k < tag.len() ==> #[trigger] tag[k] != '[',
    ensures
        query::last_bracket(s + seq!['['] + tag + seq![']'], i) == s.len(),
    decreases i,
{
    let t = s + seq!['['] + tag + seq![']'];
    if i - 1 > s.len() {
        if i - 1 < s.len() + 1 + tag.len() {
            assert(t[i - 1] == tag[i - 2 - s.len()]);
        }
        the_bracket_is_last(s, tag, i - 1);
    }
}

/// A client's modifier, a short word in brackets behind a model's name, is taken off; a
/// name that does not end in a bracket is left alone.
pub proof fn modifiers_are_taken_off(s: Seq<char>, tag: Seq<char>)
    requires
        s.len() > 0,
        0 < tag.len() <= 8,
        forall|i: int|
            0 <= i < tag.len() ==> '0' as int <= #[trigger] tag[i] as int <= '9' as int || 'A' as int <= tag[i] as int
                <= 'Z' as int || 'a' as int <= tag[i] as int <= 'z' as int,
    ensures
        query::stripped(s + seq!['['] + tag + seq![']']) == s,
        s.last() != ']' ==> query::stripped(s) == s,
{
    let t = s + seq!['['] + tag + seq![']'];
    the_bracket_is_last(s, tag, t.len() as int);
    assert(t.subrange(s.len() as int + 1, t.len() - 1) =~= tag);
    assert(t.last() == ']');
    assert(query::is_modifier(tag)) by {
        assert forall|i: int| 0 <= i < tag.len() implies query::is_alphanumeric(#[trigger] tag[i]) by {}
    }
    assert(t.take(s.len() as int) =~= s);
}

/// The id of a model is its provider's, a dash, and its name, character for character,
/// with a dash for each slash and colon.
pub proof fn ids_are_made_of_their_parts(m: EntryV, i: int)
    requires
        0 <= i < m.upstream_model.len(),
    ensures
        m.exposed_id().len() == m.provider_id.len() + 1 + m.upstream_model.len(),
        m.exposed_id().take(m.provider_id.len() as int) == m.provider_id,
        m.exposed_id()[m.provider_id.len() as int] == '-',
        m.exposed_id()[m.provider_id.len() + 1 + i] == if m.upstream_model[i] == '/' || m.upstream_model[i] == ':' {
            '-'
        } else {
            m.upstream_model[i]
        },
{
    reveal_strlit("-");
    assert("-"@.len() == 1 && "-"@[0] == '-');
    assert(m.exposed_id().take(m.provider_id.len() as int) =~= m.provider_id);
}

/// The ids and the names of the classes.
pub proof fn classes_have_names(c: ModelClass)
    ensures
        ModelClass::Opus.id() == "opus-class"@ && ModelClass::Opus.name() == "opus"@,
        ModelClass::Sonnet.id() == "sonnet-class"@ && ModelClass::Sonnet.name() == "sonnet"@,
        ModelClass::Haiku.id() == "haiku-class"@ && ModelClass::Haiku.name() == "haiku"@,
        ModelClass::of_id(c.id()) == Some(c),
{
    config::class_ids_lead_back(c);
}

/// A name that mentions a class is of that class, whatever its case; of two the larger
/// counts.
pub proof fn names_mention_classes(name: Seq<char>)
    ensures
        ({
            let n = text::ascii_lowered(name);
            let r = registry::class_in_name(name);
            &&& r == Some(ModelClass::Opus) <==> text::occurs(n, "opus"@)
            &&& r == Some(ModelClass::Sonnet) <==> text::occurs(n, "sonnet"@) && !text::occurs(n, "opus"@)
            &&& r == Some(ModelClass::Haiku) <==> text::occurs(n, "haiku"@) && !text::occurs(n, "opus"@)
                && !text::occurs(n, "sonnet"@)
        }),
{
}

// --------------------------------------------------------------------- lines

proof fn the_first_is_there(s: Seq<char>, c: char, i: int, k: int)
    requires
        0 <= i <= k < s.len(),
        s[k] == c,
        forall|j: int| i <= j < k ==> #[trigger] s[j] != c,
    ensures
        sse::next_index(s, c, i) == k,
    decreases k - i,
{
    if i < k {
        assert(s[i] != c);
        the_first_is_there(s, c, i + 1, k);
    }
}

/// A line of a stream names the event or adds to its data, with or without a blank
/// behind the colon; a comment and any other line change nothing.
pub proof fn lines_are_taken(l: Lines, v: Seq<char>)
    requires
        v.len() > 0 ==> v[0] != ' ',
    ensures
        sse::take_line(l, "data:"@ + v) == (Lines { data: l.data.push(v), ..l }),
        sse::take_line(l, "data: "@ + v) == (Lines { data: l.data.push(v), ..l }),
        sse::take_line(l, "event:"@ + v) == (Lines { event: Some(v), ..l }),
        sse::take_line(l, "event: "@ + v) == (Lines { event: Some(v), ..l }),
        sse::take_line(l, ":"@ + v) == l,
        sse::take_line(l, "id:"@ + v) == l,
        sse::take_line(l, "retry:"@ + v) == l,
        sse::take_line(l, Seq::empty()) == l,
{
    reveal_strlit("data");
    reveal_strlit("event");
    reveal_strlit("data:");
    reveal_strlit("data: ");
    reveal_strlit("event:");
    reveal_strlit("event: ");
    reveal_strlit(":");
    reveal_strlit("id:");
    reveal_strlit("retry:");
    let a = "data:"@ + v;
    the_first_is_there(a, ':', 0, 4);
    assert(a.take(4) =~= "data"@ && a.skip(5) =~= v);
    let b = "data: "@ + v;
    the_first_is_there(b, ':', 0, 4);
    assert(b.take(4) =~= "data"@ && b.skip(5).skip(1) =~= v);
    let c = "event:"@ + v;
    the_first_is_there(c, ':', 0, 5);
    assert(c.take(5) =~= "event"@ && c.skip(6) =~= v);
    let d = "event: "@ + v;
    the_first_is_there(d, ':', 0, 5);
    assert(d.take(5) =~= "event"@ && d.skip(6).skip(1) =~= v);
    assert("data"@.len() == 4 && "event"@.len() == 5);
    assert("data"@ != "event"@);
    let e = "id:"@ + v;
    the_first_is_there(e, ':', 0, 2);
    assert(e.take(2).len() == 2);
    let f = "retry:"@ + v;
    the_first_is_there(f, ':', 0, 5);
    assert(f.take(5)[0] == 'r' && "event"@[0] == 'e');
    assert((":"@ + v)[0] == ':');
}

/// A return before a newline goes, so that lines end alike however they were ended; a
/// frame is complete at an empty line, and not before.
pub proof fn lines_end_alike(p: Seq<u8>, b: u8)
    ensures
        sse::extended(sse::extended(p, 13), 10) == p.push(10),
        b != 10 ==> sse::extended(p, b) == p.push(b),
        p.len() == 0 || p.last() != 13 ==> sse::extended(p, b) == p.push(b),
        sse::complete(p.push(10).push(10)),
        sse::complete(p) ==> p.len() >= 2 && p.last() == 10 && p.drop_last().last() == 10,
{
    assert(p.push(13).drop_last() =~= p);
}

/// What is fed ends a frame where an empty line does: the frame is what was pending and
/// nothing is left; before that nothing comes out and all of it is pending.
pub proof fn frames_end_at_empty_lines(pending: Seq<u8>, b: u8)
    ensures
        ({
            let now = sse::extended(pending, b);
            let (frames, left) = sse::fed(pending, seq![b]);
            &&& sse::complete(now) ==> left.len() == 0 && frames == match sse::parsed_frame(sse::lossy(now)) {
                Some(f) => seq![f],
                None => Seq::empty(),
            }
            &&& !sse::complete(now) ==> left == now && frames.len() == 0
        }),
{
    let one = seq![b];
    assert(one.drop_last() =~= Seq::empty());
    reveal_with_fuel(sse::fed, 2);
    let now = sse::extended(pending, b);
    if let Some(f) = sse::parsed_frame(sse::lossy(now)) {
        assert(Seq::empty().push(f) =~= seq![f]);
    }
}

} // verus!
