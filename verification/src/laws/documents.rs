//! How values are looked up in a document, and how a thought is sealed in one.

use vstd::prelude::*;

use crate::ir::BlockV;
use crate::json;
use crate::json::{Lookup, Tree};
use crate::protocol::reasoning_bridge;
use crate::stats;

verus! {

/// A field of an object is the first of that name; nothing else has fields.
pub proof fn fields_are_found(m: Seq<(Seq<char>, Tree)>, key: Seq<char>, t: Tree)
    ensures
        match Tree::Obj(m).at(key) {
            Some(v) => exists|k: int|
                0 <= k < m.len() && #[trigger] m[k] == (key, v) && forall|j: int| 0 <= j < k ==> (#[trigger] m[j]).0 != key,
            None => forall|j: int| 0 <= j < m.len() ==> (#[trigger] m[j]).0 != key,
        },
        t !is Obj ==> t.at(key) is None,
        Some(t).at(key) == t.at(key),
        None::<Tree>.at(key) is None,
{
    the_first_field(m, key, 0);
}

proof fn the_first_field(m: Seq<(Seq<char>, Tree)>, key: Seq<char>, i: int)
    requires
        0 <= i <= m.len(),
        forall|j: int| 0 <= j < i ==> (#[trigger] m[j]).0 != key,
    ensures
        ({
            let at = json::find_from(m, key, i);
            &&& i <= at <= m.len()
            &&& at < m.len() ==> m[at] == (key, m[at].1)
            &&& forall|j: int| 0 <= j < at ==> (#[trigger] m[j]).0 != key
        }),
    decreases m.len() - i,
{
    if i < m.len() && m[i].0 != key {
        the_first_field(m, key, i + 1);
    }
}

/// A value is read as what it is, and as nothing else. A counter that is not there is
/// zero; a number that is too large counts as the largest.
pub proof fn values_are_read_as_they_are(v: Option<Tree>, d: Seq<char>)
    ensures
        v.text() is Some <==> v is Some && v->0 is Str,
        v matches Some(Tree::Str(s)) ==> v.text() == Some(s) && v.text_or(d) == s && v.words() == if s.len() > 0 {
            Some(s)
        } else {
            None
        },
        v.text() is None ==> v.text_or(d) == d && v.words() is None,
        v.list() is Some <==> v is Some && v->0 is Arr,
        v matches Some(Tree::Arr(a)) ==> v.list() == Some(a),
        v.flag() is Some <==> v is Some && v->0 is Bool,
        v matches Some(Tree::Bool(b)) ==> v.flag() == Some(b),
        v.uint() is Some <==> v is Some && v->0 is UInt,
        v matches Some(Tree::UInt(n)) ==> v.uint() == Some(n) && v.count() == (if n <= u32::MAX { n } else {
            u32::MAX as u64
        }) && v.limit() == Some(v.count()),
        v.uint() is None ==> v.count() == 0 && v.limit() is None,
        v matches Some(Tree::Float(f)) ==> v.float() == Some(f),
        v matches Some(Tree::UInt(n)) ==> v.float() == Some(json::nearest_float(n as int)),
        v matches Some(Tree::Int(n)) ==> v.float() == Some(json::nearest_float(n as int)),
        v is None || v->0 is Str || v->0 is Bool || v->0 is Null || v->0 is Arr || v->0 is Obj ==> v.float() is None,
        v.not_null() == if v == Some(Tree::Null) { None } else { v },
{
}

/// A signed thought and a sealed one have an item that holds them; an unsigned one has
/// none, and neither does anything else.
pub proof fn thoughts_have_items(b: BlockV)
    ensures
        reasoning_bridge::payload(b) is Some <==> b is RedactedThinking || (b matches BlockV::Thinking {
            signature: Some(s),
            ..
        } && s.len() > 0),
        reasoning_bridge::item_of(b) is Some <==> reasoning_bridge::payload(b) is Some,
        reasoning_bridge::item_of(b) matches Some(item) ==> item.at("type"@) == Some(Tree::Str("reasoning"@))
            && item.at("summary"@) == Some(Tree::Arr(Seq::empty())) && item.at("encrypted_content"@) is Some,
{
    reveal_strlit("type");
    reveal_strlit("summary");
    reveal_strlit("encrypted_content");
    assert("type"@.len() == 4 && "summary"@.len() == 7 && "encrypted_content"@.len() == 17);
    reveal_with_fuel(json::find_from, 4);
}

/// What is sealed of a thought is all of it: it is read back from what was sealed.
pub proof fn sealed_thoughts_are_whole(b: BlockV)
    requires
        reasoning_bridge::payload(b) is Some,
    ensures
        reasoning_bridge::block_of_payload(reasoning_bridge::payload(b)->0) == Some(b),
{
    reveal_strlit("type");
    reveal_strlit("text");
    reveal_strlit("signature");
    reveal_strlit("data");
    reveal_strlit("thinking");
    reveal_strlit("redacted_thinking");
    assert("type"@.len() == 4 && "text"@.len() == 4 && "signature"@.len() == 9 && "data"@.len() == 4 && "type"@[1]
        == 'y' && "text"@[1] == 'e' && "data"@[1] == 'a' && "thinking"@.len() == 8 && "redacted_thinking"@.len() == 17);
    reveal_with_fuel(json::find_from, 4);
}

/// The letters that bytes are written in: capitals, small letters, digits, a dash and an
/// underscore, each for its own number.
pub proof fn letters_stand_for_numbers(n: int)
    requires
        0 <= n < 64,
    ensures
        n < 26 ==> reasoning_bridge::letter(n) as int == 'A' as int + n,
        26 <= n < 52 ==> reasoning_bridge::letter(n) as int == 'a' as int + (n - 26),
        52 <= n < 62 ==> reasoning_bridge::letter(n) as int == '0' as int + (n - 52),
        n == 62 ==> reasoning_bridge::letter(n) == '-',
        n == 63 ==> reasoning_bridge::letter(n) == '_',
        reasoning_bridge::sextet(reasoning_bridge::letter(n)) == Some(n),
{
}

/// Three bytes are four letters that stand for the same bits, and what follows them is
/// written as if on its own.
pub proof fn letters_carry_the_bits(d: Seq<u8>)
    requires
        d.len() >= 3,
    ensures
        ({
            let s = reasoning_bridge::encoded(d);
            let (a, b, c, e) = (
                reasoning_bridge::sextet(s[0])->0,
                reasoning_bridge::sextet(s[1])->0,
                reasoning_bridge::sextet(s[2])->0,
                reasoning_bridge::sextet(s[3])->0,
            );
            &&& s.len() >= 4
            &&& a * 262144 + b * 4096 + c * 64 + e == d[0] * 65536 + d[1] * 256 + d[2]
            &&& s.skip(4) == reasoning_bridge::encoded(d.skip(3))
        }),
{
    let (x, y, z) = (d[0] as int, d[1] as int, d[2] as int);
    letters_stand_for_numbers(x / 4);
    letters_stand_for_numbers(x % 4 * 16 + y / 16);
    letters_stand_for_numbers(y % 16 * 4 + z / 64);
    letters_stand_for_numbers(z % 64);
    let s = reasoning_bridge::encoded(d);
    let head = seq![
        reasoning_bridge::letter(x / 4),
        reasoning_bridge::letter(x % 4 * 16 + y / 16),
        reasoning_bridge::letter(y % 16 * 4 + z / 64),
        reasoning_bridge::letter(z % 64),
    ];
    assert(s == head + reasoning_bridge::encoded(d.skip(3)));
    assert(s[0] == head[0] && s[1] == head[1] && s[2] == head[2] && s[3] == head[3]);
    assert(s.skip(4) =~= reasoning_bridge::encoded(d.skip(3)));
}

/// An error that is not an upstream's refusal is recorded as it is.
pub proof fn other_errors_are_recorded_whole(error: Seq<char>)
    ensures
        !"upstream "@.is_prefix_of(error) ==> stats::redacted(error) == error,
{
}

} // verus!
