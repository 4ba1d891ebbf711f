//! Server-sent events: frames on the wire.

use crate::error;
use crate::error::{Error, ErrorV};
use crate::json;
use crate::json::{Json, Tree};
use crate::text;
use crate::text::{chars_of, concat3, string_of};
use crate::views;
use vstd::prelude::*;
use vstd::utf8::*;

verus! {

/// One `event:`/`data:` block from an SSE stream.
#[derive(Debug, PartialEq, Eq)]
pub struct SseFrame {
    pub event: Option<String>,
    pub data: String,
}

pub struct FrameV {
    pub event: Option<Seq<char>>,
    pub data: Seq<char>,
}

impl View for SseFrame {
    type V = FrameV;

    open spec fn view(&self) -> FrameV {
        FrameV { event: views::opt(self.event), data: self.data@ }
    }
}

/// Data on the wire, from `from` on: one `data` line for each of its lines.
pub open spec fn data_lines(data: Seq<char>, from: int) -> Seq<char>
    decreases data.len() + 1 - from,
{
    let e = next_index(data, '\n', from);
    if from <= e < data.len() {
        "data: "@ + data.subrange(from, e) + "\n"@ + data_lines(data, e + 1)
    } else {
        "data: "@ + data.skip(from) + "\n"@
    }
}

impl FrameV {
    /// The line that names the event, where there is one.
    pub open spec fn event_line(self) -> Seq<char> {
        match self.event {
            Some(e) => "event: "@ + e + "\n"@,
            None => Seq::empty(),
        }
    }

    /// The frame on the wire, with the blank line that ends it.
    pub open spec fn wire(self) -> Seq<char> {
        self.event_line() + data_lines(self.data, 0) + "\n"@
    }

    /// The payload read as JSON.
    pub open spec fn json(self) -> Result<Tree, ErrorV> {
        match json::parsed(self.data) {
            Ok(t) => Ok(t),
            Err(e) => Err(ErrorV::BadUpstreamPayload("bad SSE json: "@ + e + ": "@ + self.data)),
        }
    }
}

impl SseFrame {
    /// Serialise back to the wire, including the trailing blank line.
    pub fn to_wire(&self) -> (r: String)
        ensures
            r@ == self@.wire(),
    {
        let mut out = match &self.event {
            Some(e) => concat3("event: ", e.as_str(), "\n"),
            None => String::new(),
        };
        let chars = chars_of(self.data.as_str());
        let ghost head = self@.event_line();
        let mut from: usize = 0;
        let mut e = index_of_char(&chars, '\n', 0);
        assert(out@ + data_lines(chars@, 0) =~= head + data_lines(chars@, 0));
        while e < chars.len()
            invariant
                chars@ == self.data@,
                from <= e <= chars@.len(),
                e == next_index(chars@, '\n', from as int),
                out@ + data_lines(chars@, from as int) == head + data_lines(chars@, 0),
            decreases chars@.len() - from,
        {
            let ghost before = out@;
            let line = string_of(&chars, from, e);
            out.append("data: ");
            out.append(line.as_str());
            out.append("\n");
            assert(before + data_lines(chars@, from as int) =~= out@ + data_lines(chars@, e + 1));
            from = e + 1;
            e = index_of_char(&chars, '\n', from);
        }
        let ghost before = out@;
        let line = string_of(&chars, from, chars.len());
        assert(line@ =~= chars@.skip(from as int));
        out.append("data: ");
        out.append(line.as_str());
        out.append("\n");
        assert(out@ =~= before + data_lines(chars@, from as int));
        out.append("\n");
        out
    }

    /// The payload read as JSON.
    pub fn json(&self) -> (r: Result<Json, Error>)
        ensures
            error::outcome(r) == self@.json(),
    {
        match json::parse(self.data.as_str()) {
            Ok(v) => Ok(v),
            Err(e) => {
                let mut m = concat3("bad SSE json: ", e.as_str(), ": ");
                m.append(self.data.as_str());
                Err(Error::BadUpstreamPayload(m))
            },
        }
    }
}

/// The index of the first `c` in `s` from `i` on; the length where there is none.
pub open spec fn next_index(s: Seq<char>, c: char, i: int) -> int
    decreases s.len() - i,
{
    if i < 0 || i >= s.len() {
        s.len() as int
    } else if s[i] == c {
        i
    } else {
        next_index(s, c, i + 1)
    }
}

proof fn next_index_bounds(s: Seq<char>, c: char, i: int)
    requires
        0 <= i <= s.len(),
    ensures
        i <= next_index(s, c, i) <= s.len(),
        next_index(s, c, i) < s.len() ==> s[next_index(s, c, i)] == c,
        forall|j: int| i <= j < next_index(s, c, i) ==> s[j] != c,
    decreases s.len() - i,
{
    if i < s.len() && s[i] != c {
        next_index_bounds(s, c, i + 1);
    }
}

/// What the lines read so far add up to: the last event name and the data lines.
pub struct Lines {
    pub event: Option<Seq<char>>,
    pub data: Seq<Seq<char>>,
}

/// The value behind a colon, without the one space that may lead it.
pub open spec fn field_value(line: Seq<char>, colon: int) -> Seq<char> {
    let v = line.skip(colon + 1);
    if v.len() > 0 && v[0] == ' ' {
        v.skip(1)
    } else {
        v
    }
}

/// One line more. Empty lines and comments say nothing; `event` names the event,
/// `data` adds a line of data, and other fields are ignored.
pub open spec fn take_line(l: Lines, line: Seq<char>) -> Lines {
    let colon = next_index(line, ':', 0);
    let field = line.take(colon);
    let value = if colon < line.len() { field_value(line, colon) } else { Seq::empty() };
    if line.len() == 0 || line[0] == ':' {
        l
    } else if field == "event"@ {
        Lines { event: Some(value), data: l.data }
    } else if field == "data"@ {
        Lines { event: l.event, data: l.data.push(value) }
    } else {
        l
    }
}

/// The lines of `s` from `from` on. A line ends at a line feed, and a carriage
/// return right before it belongs to the line end.
pub open spec fn take_lines(l: Lines, s: Seq<char>, from: int) -> Lines
    decreases s.len() + 1 - from,
{
    if from < 0 || from >= s.len() {
        l
    } else {
        let e = next_index(s, '\n', from);
        let end = if e < s.len() && e > from && s[e - 1] == '\r' { e - 1 } else { e };
        if e < from || e > s.len() {
            l
        } else {
            take_lines(take_line(l, s.subrange(from, end)), s, e + 1)
        }
    }
}

pub open spec fn no_lines() -> Lines {
    Lines { event: None, data: Seq::empty() }
}

/// The frame that lines make; nothing where they hold neither an event nor data.
pub open spec fn frame_of(l: Lines) -> Option<FrameV> {
    if l.data.len() == 0 && l.event is None {
        None
    } else {
        Some(FrameV { event: l.event, data: text::joined(l.data, "\n"@) })
    }
}

/// The frame that a raw block holds.
pub open spec fn parsed_frame(raw: Seq<char>) -> Option<FrameV> {
    frame_of(take_lines(no_lines(), raw, 0))
}

fn index_of_char(s: &Vec<char>, c: char, from: usize) -> (r: usize)
    requires
        from <= s@.len(),
    ensures
        r == next_index(s@, c, from as int),
        from <= r <= s@.len(),
{
    let mut i: usize = from;
    while i < s.len() && s[i] != c
        invariant
            from <= i <= s@.len(),
            next_index(s@, c, from as int) == next_index(s@, c, i as int),
        decreases s@.len() - i,
    {
        i += 1;
    }
    i
}

pub(crate) fn parse_frame(raw: &str) -> (r: Option<SseFrame>)
    ensures
        views::opt(r) == parsed_frame(raw@),
{
    let s: Vec<char> = chars_of(raw);
    let mut event: Option<String> = None;
    let mut data = String::new();
    let mut any = false;
    let ghost mut lines = no_lines();
    let mut from: usize = 0;
    while from < s.len()
        invariant
            s@ == raw@,
            from <= s@.len() + 1,
            take_lines(no_lines(), s@, 0) == take_lines(lines, s@, from as int),
            views::opt(event) == lines.event,
            any == (lines.data.len() > 0),
            data@ == text::joined(lines.data, "\n"@),
        decreases s@.len() + 1 - from,
    {
        let e: usize = index_of_char(&s, '\n', from);
        let end: usize = if e < s.len() && e > from && s[e - 1] == '\r' { e - 1 } else { e };
        let ghost line = s@.subrange(from as int, end as int);
        let ghost before = lines;
        proof {
            lines = take_line(lines, line);
        }
        if from < end && s[from] != ':' {
            let colon: usize = index_of_char(&s, ':', from);
            proof {
                shifted_index(s@, ':', from as int, end as int, from as int);
                next_index_bounds(line, ':', 0);
            }
            let cut: usize = if colon < end { colon } else { end };
            let field = string_of(&s, from, cut);
            assert(field@ =~= line.take(next_index(line, ':', 0)));
            let start: usize = if cut >= end {
                end
            } else if cut + 1 < end && s[cut + 1] == ' ' {
                cut + 2
            } else {
                cut + 1
            };
            let value = string_of(&s, start, end);
            assert(value@ =~= if cut < end { field_value(line, next_index(line, ':', 0)) } else { Seq::empty() });
            if text::same(field.as_str(), "event") {
                event = Some(value);
            } else if text::same(field.as_str(), "data") {
                if any {
                    data.append("\n");
                }
                data.append(value.as_str());
                any = true;
                assert(before.data.push(value@).drop_last() =~= before.data);
                assert(data@ =~= text::joined(lines.data, "\n"@));
            }
        }
        assert(take_lines(before, s@, from as int) == take_lines(lines, s@, e + 1));
        if e >= s.len() {
            from = s.len();
        } else {
            from = e + 1;
        }
    }
    if !any && event.is_none() {
        None
    } else {
        Some(SseFrame { event, data })
    }
}

/// Looking for a character in a stretch of `s` is looking in `s` and stopping at the end.
proof fn shifted_index(s: Seq<char>, c: char, from: int, end: int, i: int)
    requires
        0 <= from <= i <= end <= s.len(),
    ensures
        next_index(s.subrange(from, end), c, i - from) == if next_index(s, c, i) < end {
            next_index(s, c, i) - from
        } else {
            end - from
        },
    decreases end - i,
{
    let t = s.subrange(from, end);
    next_index_bounds(s, c, i);
    if i < end {
        assert(t[i - from] == s[i]);
        if s[i] != c {
            shifted_index(s, c, from, end, i + 1);
        }
    }
}

/// The text that is made of bytes that are not UTF-8.
pub uninterp spec fn replaced(bytes: Seq<u8>) -> Seq<char>;

/// The text that bytes stand for, with what is not UTF-8 replaced.
pub open spec fn lossy(bytes: Seq<u8>) -> Seq<char> {
    if valid_utf8(bytes) {
        decode_utf8(bytes)
    } else {
        replaced(bytes)
    }
}

/// `String::from_utf8_lossy`: bytes that are UTF-8 are read as they stand; of others
/// the text depends on the bytes alone.
#[verifier::external_body]
fn from_utf8_lossy(bytes: &Vec<u8>) -> (r: String)
    ensures
        r@ == if valid_utf8(bytes@) { decode_utf8(bytes@) } else { replaced(bytes@) },
{
    String::from_utf8_lossy(bytes).into_owned()
}

/// What is pending after one byte more: a line feed swallows the carriage return before it.
pub open spec fn extended(pending: Seq<u8>, b: u8) -> Seq<u8> {
    if b == 10 && pending.len() > 0 && pending.last() == 13 {
        pending.drop_last().push(10)
    } else {
        pending.push(b)
    }
}

/// A blank line ends the block.
pub open spec fn complete(pending: Seq<u8>) -> bool {
    pending.len() >= 2 && pending[pending.len() - 1] == 10 && pending[pending.len() - 2] == 10
}

/// What a decoder makes of `bytes` where `pending` was left over: the frames, and
/// what is left over now.
pub open spec fn fed(pending: Seq<u8>, bytes: Seq<u8>) -> (Seq<FrameV>, Seq<u8>)
    decreases bytes.len(),
{
    if bytes.len() == 0 {
        (Seq::empty(), pending)
    } else {
        let (frames, left) = fed(pending, bytes.drop_last());
        let now = extended(left, bytes.last());
        if complete(now) {
            match parsed_frame(lossy(now)) {
                Some(f) => (frames.push(f), Seq::empty()),
                None => (frames, Seq::empty()),
            }
        } else {
            (frames, now)
        }
    }
}

/// Incremental SSE parser that tolerates chunk boundaries anywhere.
#[derive(Debug)]
pub struct SseDecoder {
    pub pending: Vec<u8>,
}

impl Default for SseDecoder {
    fn default() -> (r: Self)
        ensures
            r.pending@ == Seq::<u8>::empty(),
    {
        SseDecoder { pending: Vec::new() }
    }
}

impl SseDecoder {
    pub fn new() -> (r: Self)
        ensures
            r.pending@ == Seq::<u8>::empty(),
    {
        SseDecoder { pending: Vec::new() }
    }

    /// Feed raw bytes, returning every complete frame that became available.
    pub fn push(&mut self, chunk: &[u8]) -> (r: Vec<SseFrame>)
        ensures
            (views::of(r@), final(self).pending@) == fed(old(self).pending@, chunk@),
    {
        broadcast use crate::views::group_views;

        let mut frames: Vec<SseFrame> = Vec::new();
        let ghost start = self.pending@;
        for i in 0..chunk.len()
            invariant
                (views::of(frames@), self.pending@) == fed(start, chunk@.take(i as int)),
        {
            let b: u8 = chunk[i];
            proof {
                crate::views::take_one_more(chunk@, i as int);
            }
            let n: usize = self.pending.len();
            if b == 10 && n > 0 && self.pending[n - 1] == 13 {
                self.pending.truncate(n - 1);
                assert(self.pending@ =~= fed(start, chunk@.take(i as int)).1.drop_last());
            }
            self.pending.push(b);
            let n: usize = self.pending.len();
            if n >= 2 && self.pending[n - 1] == 10 && self.pending[n - 2] == 10 {
                let raw = from_utf8_lossy(&self.pending);
                self.pending.clear();
                if let Some(frame) = parse_frame(raw.as_str()) {
                    frames.push(frame);
                }
            }
        }
        proof {
            crate::views::take_all(chunk@, chunk@.len() as int);
        }
        frames
    }

    /// Flush a trailing frame that was not terminated by a blank line.
    pub fn finish(&mut self) -> (r: Option<SseFrame>)
        ensures
            views::opt(r) == parsed_frame(lossy(old(self).pending@)),
            final(self).pending@ == Seq::<u8>::empty(),
    {
        let raw = from_utf8_lossy(&self.pending);
        self.pending.clear();
        parse_frame(raw.as_str())
    }
}

/// Chunk boundaries do not matter: two chunks give the frames that they give as one.
pub proof fn chunks_join(pending: Seq<u8>, a: Seq<u8>, b: Seq<u8>)
    ensures
        fed(pending, a + b) == (
            fed(pending, a).0 + fed(fed(pending, a).1, b).0,
            fed(fed(pending, a).1, b).1,
        ),
    decreases b.len(),
{
    if b.len() == 0 {
        assert(a + b =~= a);
        assert(fed(pending, a).0 + Seq::empty() =~= fed(pending, a).0);
    } else {
        chunks_join(pending, a, b.drop_last());
        assert((a + b).drop_last() =~= a + b.drop_last());
        let left = fed(fed(pending, a).1, b.drop_last());
        let now = extended(left.1, b.last());
        if complete(now) {
            if let Some(f) = parsed_frame(lossy(now)) {
                assert((fed(pending, a).0 + left.0).push(f) =~= fed(pending, a).0 + left.0.push(f));
            }
        }
    }
}

// ---------------------------------------------------------------- round trip

/// The bytes of a character: a line feed or a carriage return only where the
/// character is one.
proof fn only_line_ends_look_like_them(c: char)
    ensures
        encode_scalar(c as u32).len() > 0,
        forall|i: int|
            0 <= i < encode_scalar(c as u32).len() && (#[trigger] encode_scalar(c as u32)[i]) == 10 ==> c == '\n',
        forall|i: int|
            0 <= i < encode_scalar(c as u32).len() && (#[trigger] encode_scalar(c as u32)[i]) == 13 ==> c == '\r',
{
    char_is_scalar(c);
    let u = c as u32;
    assert(u <= 0x7f ==> (u & 0x7F) as u8 == u) by (bit_vector);
    assert(0xC0u8 | ((u >> 6) & 0x1F) as u8 >= 0x80) by (bit_vector);
    assert(0xE0u8 | ((u >> 12) & 0x0F) as u8 >= 0x80) by (bit_vector);
    assert(0xF0u8 | ((u >> 18) & 0x7) as u8 >= 0x80) by (bit_vector);
    assert(0x80u8 | (u & 0x3F) as u8 >= 0x80) by (bit_vector);
    assert(0x80u8 | ((u >> 6) & 0x3F) as u8 >= 0x80) by (bit_vector);
    assert(0x80u8 | ((u >> 12) & 0x3F) as u8 >= 0x80) by (bit_vector);
}

/// A text that is one line, and whose line end is told from it.
pub open spec fn one_line(s: Seq<char>) -> bool {
    &&& forall|i: int| 0 <= i < s.len() ==> #[trigger] s[i] != '\n'
    &&& s.len() > 0 ==> s.last() != '\r'
}

proof fn lines_have_no_line_feed(s: Seq<char>)
    requires
        forall|i: int| 0 <= i < s.len() ==> #[trigger] s[i] != '\n',
    ensures
        forall|i: int| 0 <= i < encode_utf8(s).len() ==> #[trigger] encode_utf8(s)[i] != 10,
        s.len() > 0 ==> encode_utf8(s).len() > 0,
        s.len() > 0 && s.last() != '\r' ==> encode_utf8(s).last() != 13,
    decreases s.len(),
{
    if s.len() > 0 {
        let rest = s.drop_first();
        let first = encode_scalar(s[0] as u32);
        only_line_ends_look_like_them(s[0]);
        assert forall|i: int| 0 <= i < rest.len() implies #[trigger] rest[i] != '\n' by {
            assert(rest[i] == s[i + 1]);
        }
        lines_have_no_line_feed(rest);
        let all = encode_utf8(s);
        assert forall|i: int| 0 <= i < all.len() implies #[trigger] all[i] != 10 by {
            if i < first.len() {
                assert(all[i] == first[i]);
            } else {
                assert(all[i] == encode_utf8(rest)[i - first.len()]);
            }
        }
        if rest.len() > 0 {
            assert(rest.last() == s.last());
            assert(all.last() == encode_utf8(rest).last());
        } else {
            assert(all =~= first);
            assert(all.last() == first[first.len() - 1]);
        }
    }
}

proof fn bytes_of_both(a: Seq<char>, b: Seq<char>)
    ensures
        encode_utf8(a + b) == encode_utf8(a) + encode_utf8(b),
    decreases a.len(),
{
    if a.len() == 0 {
        assert(a + b =~= b);
        assert(encode_utf8(a) + encode_utf8(b) =~= encode_utf8(b));
    } else {
        assert((a + b).drop_first() =~= a.drop_first() + b);
        bytes_of_both(a.drop_first(), b);
        let first = encode_scalar(a[0] as u32);
        assert(first + (encode_utf8(a.drop_first()) + encode_utf8(b)) =~= (first + encode_utf8(a.drop_first()))
            + encode_utf8(b));
    }
}

proof fn line_feed_bytes()
    ensures
        encode_utf8("\n"@) == Seq::empty().push(10u8),
{
    reveal_strlit("\n");
    let s = "\n"@;
    assert(s.len() == 1 && s[0] == '\n');
    assert(s.drop_first() =~= Seq::empty());
    assert((10u32 & 0x7F) as u8 == 10u8) by (bit_vector);
    reveal_with_fuel(encode_utf8, 2);
    assert(encode_utf8(s) =~= Seq::empty().push(10u8));
}

proof fn inside_a_line_nothing_ends(pending: Seq<u8>, bytes: Seq<u8>)
    requires
        forall|i: int| 0 <= i < bytes.len() ==> #[trigger] bytes[i] != 10,
    ensures
        fed(pending, bytes) == (Seq::<FrameV>::empty(), pending + bytes),
    decreases bytes.len(),
{
    if bytes.len() == 0 {
        assert(pending + bytes =~= pending);
    } else {
        let most = bytes.drop_last();
        assert forall|i: int| 0 <= i < most.len() implies #[trigger] most[i] != 10 by {
            assert(most[i] == bytes[i]);
        }
        inside_a_line_nothing_ends(pending, most);
        assert(bytes.last() != 10);
        assert((pending + most).push(bytes.last()) =~= pending + bytes);
    }
}

/// A line feed behind a line that is not empty.
proof fn a_line_ends(pending: Seq<u8>)
    requires
        pending.len() > 0,
        pending.last() != 10,
        pending.last() != 13,
    ensures
        fed(pending, Seq::empty().push(10u8)) == (Seq::<FrameV>::empty(), pending.push(10)),
{
    let bytes = Seq::empty().push(10u8);
    assert(bytes.drop_last() =~= Seq::empty());
    reveal_with_fuel(fed, 2);
}

/// A second one.
proof fn a_block_ends(pending: Seq<u8>, f: FrameV)
    requires
        pending.len() > 0,
        pending.last() == 10,
        parsed_frame(lossy(pending.push(10))) == Some(f),
    ensures
        fed(pending, Seq::empty().push(10u8)) == (Seq::empty().push(f), Seq::<u8>::empty()),
{
    let bytes = Seq::empty().push(10u8);
    assert(bytes.drop_last() =~= Seq::empty());
    reveal_with_fuel(fed, 2);
    assert(Seq::<FrameV>::empty().push(f) =~= Seq::empty().push(f));
}

proof fn first_is_found(s: Seq<char>, c: char, from: int, k: int)
    requires
        0 <= from <= k < s.len(),
        s[k] == c,
        forall|j: int| from <= j < k ==> s[j] != c,
    ensures
        next_index(s, c, from) == k,
{
    next_index_bounds(s, c, from);
}

/// One line of a block is taken.
proof fn line_is_taken(l: Lines, s: Seq<char>, from: int, line: Seq<char>)
    requires
        0 <= from,
        from + line.len() < s.len(),
        s.subrange(from, from + line.len()) == line,
        s[from + line.len()] == '\n',
        one_line(line),
    ensures
        take_lines(l, s, from) == take_lines(take_line(l, line), s, from + line.len() + 1),
{
    let e = from + line.len();
    assert forall|j: int| from <= j < e implies s[j] != '\n' by {
        assert(s[j] == line[j - from]);
    }
    first_is_found(s, '\n', from, e);
    if line.len() > 0 {
        assert(s[e - 1] == line.last());
    }
}

proof fn event_line_is_taken(l: Lines, e: Seq<char>)
    ensures
        take_line(l, "event: "@ + e) == (Lines { event: Some(e), data: l.data }),
{
    reveal_strlit("event: ");
    reveal_strlit("event");
    let line = "event: "@ + e;
    assert(line[0] == 'e' && line[1] == 'v' && line[2] == 'e' && line[3] == 'n' && line[4] == 't' && line[5] == ':'
        && line[6] == ' ');
    first_is_found(line, ':', 0, 5);
    assert(line.take(5) =~= "event"@);
    assert(line.skip(6)[0] == ' ');
    assert(line.skip(6).skip(1) =~= e);
}

proof fn data_line_is_taken(l: Lines, d: Seq<char>)
    ensures
        take_line(l, "data: "@ + d) == (Lines { event: l.event, data: l.data.push(d) }),
{
    reveal_strlit("data: ");
    reveal_strlit("data");
    reveal_strlit("event");
    let line = "data: "@ + d;
    assert(line[0] == 'd' && line[1] == 'a' && line[2] == 't' && line[3] == 'a' && line[4] == ':' && line[5] == ' ');
    first_is_found(line, ':', 0, 4);
    assert(line.take(4) =~= "data"@);
    assert("event"@.len() == 5 && "data"@.len() == 4);
    assert(line.skip(5)[0] == ' ');
    assert(line.skip(5).skip(1) =~= d);
}

/// A text whose line ends are told from it: no carriage return stands before a line
/// feed or at the end.
pub open spec fn tellable_lines(s: Seq<char>) -> bool {
    forall|i: int| 0 <= i < s.len() && #[trigger] s[i] == '\r' ==> i + 1 < s.len() && s[i + 1] != '\n'
}

/// A field with a value of one line is one line, and not an empty one.
proof fn fields_are_lines(field: Seq<char>, value: Seq<char>)
    requires
        one_line(field),
        one_line(value),
        field.len() > 0,
    ensures
        one_line(field + value),
        (field + value).len() > 0,
{
    let line = field + value;
    assert forall|i: int| 0 <= i < line.len() implies #[trigger] line[i] != '\n' by {
        if i < field.len() {
            assert(line[i] == field[i]);
        } else {
            assert(line[i] == value[i - field.len()]);
        }
    }
    if value.len() > 0 {
        assert(line.last() == value.last());
    } else {
        assert(line.last() == field.last());
    }
}

proof fn field_names()
    ensures
        one_line("data: "@),
        one_line("event: "@),
        "data: "@.len() == 6,
        "event: "@.len() == 7,
        "\n"@.len() == 1,
        "\n"@[0] == '\n',
{
    reveal_strlit("data: ");
    reveal_strlit("event: ");
    reveal_strlit("\n");
}

/// The first line of data, from `from` on.
spec fn first_line(data: Seq<char>, from: int) -> Seq<char> {
    data.subrange(from, next_index(data, '\n', from))
}

proof fn first_line_is_one(data: Seq<char>, from: int)
    requires
        tellable_lines(data),
        0 <= from <= data.len(),
    ensures
        one_line(first_line(data, from)),
        one_line("data: "@ + first_line(data, from)),
{
    next_index_bounds(data, '\n', from);
    let line = first_line(data, from);
    let e = next_index(data, '\n', from);
    assert forall|i: int| 0 <= i < line.len() implies #[trigger] line[i] != '\n' by {
        assert(line[i] == data[from + i]);
    }
    if line.len() > 0 {
        assert(line.last() == data[e - 1]);
    }
    field_names();
    fields_are_lines("data: "@, line);
}

/// The lines of data that were taken so far, and the rest of it, in one text.
spec fn with_rest(taken: Seq<Seq<char>>, rest: Seq<char>) -> Seq<char> {
    if taken.len() == 0 {
        rest
    } else {
        text::joined(taken, "\n"@) + "\n"@ + rest
    }
}

/// Reading the lines of data, and the blank one behind them, puts the data together.
proof fn data_is_read(l: Lines, s: Seq<char>, at: int, data: Seq<char>, from: int)
    requires
        tellable_lines(data),
        0 <= from <= data.len(),
        0 <= at <= s.len(),
        s.skip(at) == data_lines(data, from) + "\n"@,
    ensures
        take_lines(l, s, at).event == l.event,
        take_lines(l, s, at).data.len() > 0,
        text::joined(take_lines(l, s, at).data, "\n"@) == with_rest(l.data, data.skip(from)),
    decreases data.len() - from,
{
    field_names();
    first_line_is_one(data, from);
    next_index_bounds(data, '\n', from);
    let e = next_index(data, '\n', from);
    let value = first_line(data, from);
    let line = "data: "@ + value;
    let rest = s.skip(at);
    let after = at + line.len();
    if e >= data.len() {
        assert(data.skip(from) =~= value);
    }
    let behind = if e < data.len() {
        data_lines(data, e + 1) + "\n"@
    } else {
        "\n"@
    };
    assert(rest =~= line + "\n"@ + behind);
    assert(s.subrange(at, after) =~= line) by {
        assert(rest.take(line.len() as int) =~= line);
        assert forall|i: int| 0 <= i < line.len() implies s.subrange(at, after)[i] == line[i] by {
            assert(rest[i] == line[i]);
        }
    }
    assert(s[after] == '\n') by {
        assert(rest[line.len() as int] == '\n');
    }
    line_is_taken(l, s, at, line);
    data_line_is_taken(l, value);
    let m = take_line(l, line);
    assert(m.data.drop_last() =~= l.data);
    assert(s.skip(after + 1) =~= behind) by {
        assert(rest.skip(line.len() as int + 1) =~= behind);
        assert forall|i: int| 0 <= i < behind.len() implies s.skip(after + 1)[i] == behind[i] by {
            assert(rest.skip(line.len() as int + 1)[i] == behind[i]);
        }
    }
    assert(text::joined(m.data, "\n"@) == with_rest(l.data, value));
    if e < data.len() {
        data_is_read(m, s, after + 1, data, e + 1);
        assert(value + "\n"@ + data.skip(e + 1) =~= data.skip(from)) by {
            assert(data[e] == '\n');
        }
        assert(with_rest(m.data, data.skip(e + 1)) =~= with_rest(l.data, data.skip(from)));
    } else {
        assert(s.skip(after + 1)[0] == '\n');
        assert(s[after + 1] == '\n');
        assert(s.subrange(after + 1, after + 1) =~= Seq::empty());
        line_is_taken(m, s, after + 1, Seq::empty());
        assert(after + 2 == s.len());
    }
}

proof fn frame_is_read(f: FrameV)
    requires
        tellable_lines(f.data),
        f.event matches Some(e) ==> one_line(e),
    ensures
        parsed_frame(f.wire()) == Some(f),
{
    let s = f.wire();
    let head = f.event_line();
    field_names();
    assert(s.skip(head.len() as int) =~= data_lines(f.data, 0) + "\n"@);
    assert(f.data.skip(0) =~= f.data);
    match f.event {
        Some(e) => {
            let line = "event: "@ + e;
            fields_are_lines("event: "@, e);
            assert(s.subrange(0, line.len() as int) =~= line);
            assert(s[line.len() as int] == '\n');
            line_is_taken(no_lines(), s, 0, line);
            event_line_is_taken(no_lines(), e);
            data_is_read(take_line(no_lines(), line), s, head.len() as int, f.data, 0);
        },
        None => {
            data_is_read(no_lines(), s, 0, f.data, 0);
        },
    }
}

/// A line that is fed to a decoder becomes pending, whatever was pending.
proof fn a_line_is_pending(pending: Seq<u8>, line: Seq<char>)
    requires
        one_line(line),
        line.len() > 0,
    ensures
        fed(pending, encode_utf8(line + "\n"@)) == (Seq::<FrameV>::empty(), pending + encode_utf8(line + "\n"@)),
        encode_utf8(line + "\n"@).len() > 0,
        encode_utf8(line + "\n"@).last() == 10,
{
    let lf = Seq::empty().push(10u8);
    let b = encode_utf8(line);
    line_feed_bytes();
    lines_have_no_line_feed(line);
    bytes_of_both(line, "\n"@);
    inside_a_line_nothing_ends(pending, b);
    let now = pending + b;
    assert(now.last() == b.last());
    assert(b[b.len() - 1] != 10);
    a_line_ends(now);
    chunks_join(pending, b, lf);
    assert(now.push(10) =~= pending + (b + lf));
    assert((b + lf).last() == 10);
}

/// So do the lines of data.
proof fn data_is_pending(pending: Seq<u8>, data: Seq<char>, from: int)
    requires
        tellable_lines(data),
        0 <= from <= data.len(),
    ensures
        fed(pending, encode_utf8(data_lines(data, from))) == (
            Seq::<FrameV>::empty(),
            pending + encode_utf8(data_lines(data, from)),
        ),
        encode_utf8(data_lines(data, from)).len() > 0,
        encode_utf8(data_lines(data, from)).last() == 10,
    decreases data.len() - from,
{
    field_names();
    first_line_is_one(data, from);
    next_index_bounds(data, '\n', from);
    let e = next_index(data, '\n', from);
    let line = "data: "@ + first_line(data, from);
    a_line_is_pending(pending, line);
    if e < data.len() {
        let rest = data_lines(data, e + 1);
        let a = encode_utf8(line + "\n"@);
        let b = encode_utf8(rest);
        data_is_pending(pending + a, data, e + 1);
        bytes_of_both(line + "\n"@, rest);
        chunks_join(pending, a, b);
        assert((pending + a) + b =~= pending + (a + b));
        assert(Seq::<FrameV>::empty() + Seq::<FrameV>::empty() =~= Seq::<FrameV>::empty());
        assert((a + b).last() == b.last());
    } else {
        assert(data.skip(from) =~= first_line(data, from));
    }
}

/// A frame that is written to the wire comes out of a decoder that has nothing pending
/// as it went in, and leaves nothing pending, where its event is one line. Its data may
/// have many, unless a carriage return would pass for a part of a line end.
pub proof fn frames_come_back(f: FrameV)
    requires
        tellable_lines(f.data),
        f.event matches Some(e) ==> one_line(e),
    ensures
        fed(Seq::empty(), encode_utf8(f.wire())) == (Seq::empty().push(f), Seq::<u8>::empty()),
{
    frame_is_read(f);
    line_feed_bytes();
    field_names();
    let lf = Seq::empty().push(10u8);
    let head = f.event_line();
    let lines = data_lines(f.data, 0);
    let a = encode_utf8(head);
    let b = encode_utf8(lines);
    assert(fed(Seq::empty(), a) == (Seq::<FrameV>::empty(), a)) by {
        match f.event {
            Some(e) => {
                fields_are_lines("event: "@, e);
                a_line_is_pending(Seq::empty(), "event: "@ + e);
                assert(Seq::<u8>::empty() + a =~= a);
            },
            None => {
                assert(a =~= Seq::empty());
            },
        }
    }
    data_is_pending(a, f.data, 0);
    bytes_of_both(head, lines);
    bytes_of_both(head + lines, "\n"@);
    chunks_join(Seq::empty(), a, b);
    let all = a + b;
    assert(all.last() == b.last());
    assert(all + lf =~= all.push(10));
    encode_utf8_valid_utf8(f.wire());
    encode_utf8_decode_utf8(f.wire());
    a_block_ends(all, f);
    chunks_join(Seq::empty(), all, lf);
    assert(Seq::<FrameV>::empty() + Seq::empty().push(f) =~= Seq::empty().push(f));
}

} // verus!
