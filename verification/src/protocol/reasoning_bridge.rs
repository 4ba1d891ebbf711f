//! Bridge between Anthropic thinking blocks and OpenAI Responses API
//! encrypted reasoning items.
//!
//! Anthropic keeps thinking signatures in the clear on `thinking` blocks.
//! OpenAI's Responses API stores them inside an opaque `encrypted_content`
//! blob. This module encodes the whole Anthropic block into that blob and
//! decodes it back, so reasoning can survive a round trip.

use crate::ir::{BlockV, ContentBlock};
use crate::json;
use crate::json::{array, js, Build, Fields, Json, Lookup, Tree};
use crate::text::{chars_of, concat, push_char, strip_prefix};
use crate::views;
use vstd::prelude::*;
use vstd::utf8::*;

verus! {

/// Prefix used to identify blobs produced by this bridge.
pub const PREFIX: &'static str = "zroutery-reasoning-v1:";

// ------------------------------------------------------------------ base64

/// The character for six bits.
pub open spec fn letter(n: int) -> char {
    if n < 26 {
        ('A' as int + n) as char
    } else if n < 52 {
        ('a' as int + (n - 26)) as char
    } else if n < 62 {
        ('0' as int + (n - 52)) as char
    } else if n == 62 {
        '-'
    } else {
        '_'
    }
}

/// The six bits of a character.
pub open spec fn sextet(c: char) -> Option<int> {
    let n = c as int;
    if 'A' as int <= n <= 'Z' as int {
        Some(n - 'A' as int)
    } else if 'a' as int <= n <= 'z' as int {
        Some(n - 'a' as int + 26)
    } else if '0' as int <= n <= '9' as int {
        Some(n - '0' as int + 52)
    } else if c == '-' {
        Some(62)
    } else if c == '_' {
        Some(63)
    } else {
        None
    }
}

/// Bytes in URL-safe base64 without padding: three bytes are four characters,
/// and one or two at the end are two or three.
pub open spec fn encoded(d: Seq<u8>) -> Seq<char>
    decreases d.len(),
{
    if d.len() == 0 {
        Seq::empty()
    } else if d.len() == 1 {
        seq![letter(d[0] as int / 4), letter(d[0] as int % 4 * 16)]
    } else if d.len() == 2 {
        seq![
            letter(d[0] as int / 4),
            letter(d[0] as int % 4 * 16 + d[1] as int / 16),
            letter(d[1] as int % 16 * 4),
        ]
    } else {
        seq![
            letter(d[0] as int / 4),
            letter(d[0] as int % 4 * 16 + d[1] as int / 16),
            letter(d[1] as int % 16 * 4 + d[2] as int / 64),
            letter(d[2] as int % 64),
        ] + encoded(d.skip(3))
    }
}

/// The bytes that a text encodes; nothing where it encodes none. The bits that
/// are left over at the end must be zero.
pub open spec fn decoded(s: Seq<char>) -> Option<Seq<u8>>
    decreases s.len(),
{
    if s.len() == 0 {
        Some(Seq::empty())
    } else if s.len() == 1 {
        None
    } else {
        match (sextet(s[0]), sextet(s[1])) {
            (Some(a), Some(b)) => if s.len() == 2 {
                if b % 16 == 0 {
                    Some(seq![(a * 4 + b / 16) as u8])
                } else {
                    None
                }
            } else {
                match sextet(s[2]) {
                    Some(c) => if s.len() == 3 {
                        if c % 4 == 0 {
                            Some(seq![(a * 4 + b / 16) as u8, (b % 16 * 16 + c / 4) as u8])
                        } else {
                            None
                        }
                    } else {
                        match (sextet(s[3]), decoded(s.skip(4))) {
                            (Some(d), Some(rest)) => Some(
                                seq![
                                    (a * 4 + b / 16) as u8,
                                    (b % 16 * 16 + c / 4) as u8,
                                    (c % 4 * 64 + d) as u8,
                                ] + rest,
                            ),
                            _ => None,
                        }
                    },
                    None => None,
                }
            },
            _ => None,
        }
    }
}

proof fn letters_are_sextets(n: int)
    requires
        0 <= n < 64,
    ensures
        sextet(letter(n)) == Some(n),
{
}

proof fn sextets_are_letters(c: char)
    ensures
        sextet(c) is Some ==> 0 <= sextet(c)->0 < 64 && letter(sextet(c)->0) == c,
{
}

/// What was encoded is decoded again.
#[verifier::spinoff_prover]
#[verifier::rlimit(60)]
pub proof fn decode_undoes_encode(d: Seq<u8>)
    ensures
        decoded(encoded(d)) == Some(d),
    decreases d.len(),
{
    let e = encoded(d);
    if d.len() > 0 {
        letters_are_sextets(d[0] as int / 4);
        letters_are_sextets(d[0] as int % 4 * 16);
        if d.len() == 1 {
            assert(decoded(e)->0 =~= d);
        } else {
            letters_are_sextets(d[0] as int % 4 * 16 + d[1] as int / 16);
            letters_are_sextets(d[1] as int % 16 * 4);
            if d.len() == 2 {
                assert(decoded(e)->0 =~= d);
            } else {
                letters_are_sextets(d[1] as int % 16 * 4 + d[2] as int / 64);
                letters_are_sextets(d[2] as int % 64);
                decode_undoes_encode(d.skip(3));
                assert(e.skip(4) =~= encoded(d.skip(3)));
                assert(decoded(e)->0 =~= d);
            }
        }
    }
}

/// Only what encodes bytes is decoded: a text that is decoded is the encoding of its bytes.
#[verifier::spinoff_prover]
#[verifier::rlimit(60)]
pub proof fn encode_undoes_decode(s: Seq<char>)
    ensures
        decoded(s) is Some ==> encoded(decoded(s)->0) == s,
    decreases s.len(),
{
    if decoded(s) is Some && s.len() > 0 {
        let d = decoded(s)->0;
        sextets_are_letters(s[0]);
        sextets_are_letters(s[1]);
        if s.len() > 2 {
            sextets_are_letters(s[2]);
            if s.len() > 3 {
                sextets_are_letters(s[3]);
                encode_undoes_decode(s.skip(4));
                let rest = decoded(s.skip(4))->0;
                assert(d.skip(3) =~= rest);
                assert(encoded(d) =~= s);
            } else {
                assert(encoded(d) =~= s);
            }
        } else {
            assert(encoded(d) =~= s);
        }
    }
}

fn letter_of(n: u8) -> (r: char)
    requires
        n < 64,
    ensures
        r == letter(n as int),
{
    if n < 26 {
        (65 + n) as char
    } else if n < 52 {
        (97 + (n - 26)) as char
    } else if n < 62 {
        (48 + (n - 52)) as char
    } else if n == 62 {
        '-'
    } else {
        '_'
    }
}

fn sextet_of(c: char) -> (r: Option<u8>)
    ensures
        r is Some == sextet(c) is Some,
        r is Some ==> r->0 == sextet(c)->0 && r->0 < 64,
{
    let n: u32 = c as u32;
    if 65 <= n && n <= 90 {
        Some((n - 65) as u8)
    } else if 97 <= n && n <= 122 {
        Some((n - 97 + 26) as u8)
    } else if 48 <= n && n <= 57 {
        Some((n - 48 + 52) as u8)
    } else if c == '-' {
        Some(62)
    } else if c == '_' {
        Some(63)
    } else {
        None
    }
}

/// Bytes in URL-safe base64 without padding.
pub fn base64url_encode(data: &[u8]) -> (r: String)
    ensures
        r@ == encoded(data@),
{
    let mut out = String::new();
    let mut i: usize = 0;
    assert(data@.skip(0) =~= data@);
    while data.len() - i >= 3
        invariant
            i <= data@.len(),
            encoded(data@) == out@ + encoded(data@.skip(i as int)),
        decreases data@.len() - i,
    {
        let ghost before = out@;
        let b0: u8 = data[i];
        let b1: u8 = data[i + 1];
        let b2: u8 = data[i + 2];
        push_char(&mut out, letter_of(b0 / 4));
        push_char(&mut out, letter_of(b0 % 4 * 16 + b1 / 16));
        push_char(&mut out, letter_of(b1 % 16 * 4 + b2 / 64));
        push_char(&mut out, letter_of(b2 % 64));
        proof {
            let d = data@.skip(i as int);
            assert(d.skip(3) =~= data@.skip(i + 3));
            assert(out@ + encoded(d.skip(3)) =~= before + encoded(d));
        }
        i += 3;
    }
    let ghost before = out@;
    let ghost d = data@.skip(i as int);
    if data.len() - i == 1 {
        let b0: u8 = data[i];
        push_char(&mut out, letter_of(b0 / 4));
        push_char(&mut out, letter_of(b0 % 4 * 16));
    } else if data.len() - i == 2 {
        let b0: u8 = data[i];
        let b1: u8 = data[i + 1];
        push_char(&mut out, letter_of(b0 / 4));
        push_char(&mut out, letter_of(b0 % 4 * 16 + b1 / 16));
        push_char(&mut out, letter_of(b1 % 16 * 4));
    }
    assert(out@ =~= before + encoded(d));
    out
}

/// The bytes of a text in URL-safe base64 without padding; nothing where it is not that.
pub fn base64url_decode(input: &str) -> (r: Option<Vec<u8>>)
    ensures
        views::opt(r) == decoded(input@),
{
    let s: Vec<char> = chars_of(input);
    let mut out: Vec<u8> = Vec::new();
    let mut i: usize = 0;
    assert(s@.skip(0) =~= s@);
    while s.len() - i >= 4
        invariant
            i <= s@.len(),
            s@ == input@,
            match decoded(s@.skip(i as int)) {
                Some(rest) => decoded(s@) == Some(out@ + rest),
                None => decoded(s@) is None,
            },
        decreases s@.len() - i,
    {
        proof {
            assert(s@.skip(i as int).skip(4) =~= s@.skip(i + 4));
        }
        match (sextet_of(s[i]), sextet_of(s[i + 1]), sextet_of(s[i + 2]), sextet_of(s[i + 3])) {
            (Some(a), Some(b), Some(c), Some(d)) => {
                let ghost before = out@;
                out.push(a * 4 + b / 16);
                out.push(b % 16 * 16 + c / 4);
                out.push(c % 4 * 64 + d);
                proof {
                    if let Some(rest) = decoded(s@.skip(i + 4)) {
                        assert(out@ + rest =~= before + decoded(s@.skip(i as int))->0);
                    }
                }
            },
            _ => {
                return None;
            },
        }
        i += 4;
    }
    let ghost before = out@;
    let ghost tail = s@.skip(i as int);
    if s.len() - i == 1 {
        return None;
    }
    if s.len() - i >= 2 {
        match (sextet_of(s[i]), sextet_of(s[i + 1])) {
            (Some(a), Some(b)) => {
                out.push(a * 4 + b / 16);
                if s.len() - i == 2 {
                    if b % 16 != 0 {
                        return None;
                    }
                } else {
                    match sextet_of(s[i + 2]) {
                        Some(c) => {
                            if c % 4 != 0 {
                                return None;
                            }
                            out.push(b % 16 * 16 + c / 4);
                        },
                        None => {
                            return None;
                        },
                    }
                }
            },
            _ => {
                return None;
            },
        }
    }
    assert(decoded(tail) is Some);
    assert(out@ =~= before + decoded(tail)->0);
    Some(out)
}

// ------------------------------------------------------------------ blocks

/// What the blob holds for a block. An unsigned thought has no need of the bridge; a
/// redacted one is opaque already, whatever it holds.
pub open spec fn payload(b: BlockV) -> Option<Tree> {
    match b {
        BlockV::Thinking { text, signature: Some(signature) } => if signature.len() > 0 {
            Some(
                Tree::Obj(
                    json::fs().with("type"@, json::st("thinking"@)).with("text"@, json::st(text)).with(
                        "signature"@,
                        json::st(signature),
                    ),
                ),
            )
        } else {
            None
        },
        BlockV::RedactedThinking { data } => Some(
            Tree::Obj(json::fs().with("type"@, json::st("redacted_thinking"@)).with("data"@, json::st(data))),
        ),
        _ => None,
    }
}

/// The reasoning item around a payload.
pub open spec fn reasoning_item(payload: Tree) -> Tree {
    Tree::Obj(
        json::fs().with("type"@, json::st("reasoning"@)).with(
            "encrypted_content"@,
            json::st(PREFIX@ + encoded(encode_utf8(json::rendered(payload)))),
        ).with("summary"@, Tree::Arr(Seq::empty())),
    )
}

/// The item for a block.
pub open spec fn item_of(b: BlockV) -> Option<Tree> {
    match payload(b) {
        Some(p) => Some(reasoning_item(p)),
        None => None,
    }
}

/// The block that a payload holds.
pub open spec fn block_of_payload(v: Tree) -> Option<BlockV> {
    match v.at("type"@).text() {
        Some(kind) => if kind == "thinking"@ {
            match (v.at("text"@).text(), v.at("signature"@).text()) {
                (Some(text), Some(signature)) => Some(BlockV::Thinking { text, signature: Some(signature) }),
                _ => None,
            }
        } else if kind == "redacted_thinking"@ {
            match v.at("data"@).text() {
                Some(data) => Some(BlockV::RedactedThinking { data }),
                None => None,
            }
        } else {
            None
        },
        None => None,
    }
}

/// The block that a reasoning item holds; nothing where the item is not one of
/// this bridge's or its blob is corrupt.
pub open spec fn block_of(item: Tree) -> Option<BlockV> {
    match item.at("encrypted_content"@).text() {
        Some(blob) => if PREFIX@.is_prefix_of(blob) {
            match decoded(blob.skip(PREFIX@.len() as int)) {
                Some(bytes) => match json::parsed_bytes(bytes) {
                    Some(v) => block_of_payload(v),
                    None => None,
                },
                None => None,
            }
        } else {
            None
        },
        None => None,
    }
}

proof fn payload_is_canonical(b: BlockV)
    requires
        payload(b) is Some,
    ensures
        json::canonical(payload(b)->0) == payload(b)->0,
        json::plain(payload(b)->0, 127),
        block_of_payload(payload(b)->0) == Some(b),
{
    reveal_strlit("type");
    reveal_strlit("text");
    reveal_strlit("signature");
    reveal_strlit("data");
    reveal_strlit("thinking");
    reveal_strlit("redacted_thinking");
    reveal(json::put);
    reveal_with_fuel(json::canonical, 3);
    reveal_with_fuel(json::canonical_fields, 4);
    reveal_with_fuel(json::find_from, 4);
    reveal_with_fuel(json::plain, 3);
    let p = payload(b)->0;
    let m = p->Obj_0;
    let c = json::canonical_fields(m, m.len());
    assert("type"@ != json::RESERVED_NAME@) by {
        reveal_strlit("$serde_json::private::RawValue");
        assert("type"@.len() != json::RESERVED_NAME@.len());
    }
    assert("type"@ != "text"@) by {
        assert("type"@[1] != "text"@[1]);
    }
    assert("type"@ != "signature"@) by {
        assert("type"@.len() != "signature"@.len());
    }
    assert("text"@ != "signature"@) by {
        assert("text"@.len() != "signature"@.len());
    }
    assert("type"@ != "data"@) by {
        assert("type"@[0] != "data"@[0]);
    }
    assert("thinking"@ != "redacted_thinking"@) by {
        assert("thinking"@.len() != "redacted_thinking"@.len());
    }
    assert(json::canonical_fields(m, 0) =~= json::fs());
    assert(json::canonical_fields(m, 1) =~= m.take(1));
    assert(json::canonical_fields(m, 2) =~= m.take(2));
    if m.len() == 3 {
        assert(json::canonical_fields(m, 3) =~= m.take(3));
    }
    assert(c =~= m);
}

/// Encode an Anthropic thinking block into a Responses API reasoning item.
///
/// A normal `thinking` block is only encoded when it carries a signature:
/// unsigned reasoning text has no need for the opaque bridge. `redacted_thinking`
/// is always encoded because it is already opaque. What is encoded is decoded
/// again to the same block.
pub fn encode_thinking_block(block: &ContentBlock) -> (r: Option<Json>)
    ensures
        views::opt(r) == item_of(block@),
        r is Some ==> block_of(r->0@) == Some(block@),
{
    let payload = match block {
        ContentBlock::Thinking { text, signature: Some(signature) } => {
            if signature.as_str().unicode_len() == 0 {
                return None;
            }
            Fields::new().with("type", js("thinking")).with("text", js(text.as_str())).with(
                "signature",
                js(signature.as_str()),
            ).done()
        },
        ContentBlock::RedactedThinking { data } => {
            Fields::new().with("type", js("redacted_thinking")).with("data", js(data.as_str())).done()
        },
        _ => {
            return None;
        },
    };
    let printed = json::render(&payload);
    let blob = concat(PREFIX, base64url_encode(printed.as_str().as_bytes()).as_str());
    let summary: Vec<Json> = Vec::new();
    let item = Fields::new().with("type", js("reasoning")).with("encrypted_content", js(blob.as_str())).with(
        "summary",
        array(summary),
    ).done();
    proof {
        broadcast use crate::views::group_views;

        payload_is_canonical(block@);
        let bytes = encode_utf8(printed@);
        decode_undoes_encode(bytes);
        assert(blob@.skip(PREFIX@.len() as int) =~= encoded(bytes));
        assert(PREFIX@ =~= blob@.take(PREFIX@.len() as int));
        encode_utf8_valid_utf8(printed@);
        encode_utf8_decode_utf8(printed@);
        reveal_strlit("type");
        reveal_strlit("encrypted_content");
        reveal_with_fuel(json::find_from, 3);
        assert("type"@ != "encrypted_content"@) by {
            assert("type"@.len() != "encrypted_content"@.len());
        }
    }
    Some(item)
}

/// Decode a Responses API reasoning item back into an Anthropic thinking block.
///
/// Returns `None` for anything that is not one of our prefixed blobs, and also
/// for corrupted base64/JSON so callers can safely fall back to ignoring it.
pub fn decode_reasoning_item(item: &Json) -> (r: Option<ContentBlock>)
    ensures
        views::opt(r) == block_of(item@),
{
    let blob = match item.at("encrypted_content").text() {
        Some(b) => b,
        None => {
            return None;
        },
    };
    let raw = match strip_prefix(blob, PREFIX) {
        Some(x) => x,
        None => {
            return None;
        },
    };
    let bytes = match base64url_decode(raw) {
        Some(x) => x,
        None => {
            return None;
        },
    };
    let v = match json::parse_bytes(bytes.as_slice()) {
        Some(x) => x,
        None => {
            return None;
        },
    };
    let kind = v.at("type");
    if kind.is_text("thinking") {
        match (v.at("text").opt_string(), v.at("signature").opt_string()) {
            (Some(text), Some(signature)) => Some(ContentBlock::Thinking { text, signature: Some(signature) }),
            _ => None,
        }
    } else if kind.is_text("redacted_thinking") {
        match v.at("data").opt_string() {
            Some(data) => Some(ContentBlock::RedactedThinking { data }),
            None => None,
        }
    } else {
        None
    }
}

} // verus!
