//! HTTP headers, as `reqwest` keeps them.

use crate::text;
use vstd::prelude::*;

verus! {

/// `reqwest::header::HeaderMap`.
#[verifier::external_type_specification]
#[verifier::external_body]
#[verifier::reject_recursive_types(T)]
pub struct ExHeaderMap<T>(reqwest::header::HeaderMap<T>);

/// `reqwest::header::HeaderValue`.
#[verifier::external_type_specification]
#[verifier::external_body]
pub struct ExHeaderValue(reqwest::header::HeaderValue);

/// The text of the first value under each name of a header map.
pub uninterp spec fn header_texts(headers: reqwest::header::HeaderMap<reqwest::header::HeaderValue>) -> Map<Seq<char>, Seq<char>>;

/// Whether a character may stand in a header name.
pub open spec fn is_name_char(c: char) -> bool {
    ||| 'a' as int <= c as int <= 'z' as int
    ||| 'A' as int <= c as int <= 'Z' as int
    ||| '0' as int <= c as int <= '9' as int
    ||| c == '!' || c == '#' || c == '$' || c == '%' || c == '&' || c == '\'' || c == '*' || c == '+'
    ||| c == '-' || c == '.' || c == '^' || c == '_' || c == '`' || c == '|' || c == '~'
}

/// Whether a text is a header name.
pub open spec fn is_name(s: Seq<char>) -> bool {
    1 <= s.len() <= 65535 && forall|i: int| 0 <= i < s.len() ==> is_name_char(#[trigger] s[i])
}

/// Whether a text is a header name in lower case.
pub open spec fn is_plain_name(s: Seq<char>) -> bool {
    is_name(s) && text::ascii_lowered(s) == s
}

/// Whether a character may stand in a header value.
pub open spec fn is_value_char(c: char) -> bool {
    (c as int >= 32 && c as int != 127) || c as int == 9
}

/// Whether a text is a header value.
pub open spec fn is_value(s: Seq<char>) -> bool {
    forall|i: int| 0 <= i < s.len() ==> is_value_char(#[trigger] s[i])
}

/// Whether a text holds nothing but visible ASCII characters, spaces and tabs.
pub open spec fn is_visible(s: Seq<char>) -> bool {
    forall|i: int| 0 <= i < s.len() ==> (32 <= (#[trigger] s[i]) as int <= 126 || s[i] as int == 9)
}

/// The texts of a map with nothing in it.
pub open spec fn no_texts() -> Map<Seq<char>, Seq<char>> {
    Map::empty()
}

/// `HeaderMap::new`: a map with nothing in it.
#[verifier::external_body]
pub(crate) fn no_headers() -> (r: reqwest::header::HeaderMap<reqwest::header::HeaderValue>)
    ensures
        header_texts(r) == no_texts(),
{
    reqwest::header::HeaderMap::new()
}

/// `HeaderName::from_bytes` on a text: the name in lower case, where the text is a
/// header name.
#[verifier::external_body]
pub(crate) fn header_name(name: &str) -> (r: Option<String>)
    ensures
        r is Some == is_name(name@),
        r is Some ==> r->0@ == text::ascii_lowered(name@),
{
    reqwest::header::HeaderName::from_bytes(name.as_bytes()).ok().map(|n| n.as_str().to_owned())
}

/// `HeaderValue::from_str`: whether a text is a header value.
#[verifier::external_body]
pub(crate) fn is_header_value(value: &str) -> (r: bool)
    ensures
        r == is_value(value@),
{
    reqwest::header::HeaderValue::from_str(value).is_ok()
}

/// `HeaderMap::insert` with a name and a value made of texts: the value is the one
/// under the name, in place of all that was there. A name or a value that is none
/// would panic here, and so could one name more beside 6,554 or more: a table of the
/// largest size that is this full may have to grow.
#[verifier::external_body]
pub(crate) fn insert_header(
    headers: &mut reqwest::header::HeaderMap<reqwest::header::HeaderValue>,
    name: &str,
    value: &str,
)
    requires
        is_plain_name(name@),
        is_value(value@),
        header_texts(*old(headers)).dom().finite(),
        header_texts(*old(headers)).dom().len() <= 6553,
    ensures
        header_texts(*final(headers)) == header_texts(*old(headers)).insert(name@, value@),
{
    headers.insert(
        reqwest::header::HeaderName::from_bytes(name.as_bytes()).unwrap(),
        reqwest::header::HeaderValue::from_str(value).unwrap(),
    );
}

/// A map holds that many names.
pub open spec fn holds_names(m: Map<Seq<char>, Seq<char>>, n: int) -> bool {
    m.dom().finite() && m.dom().len() == n
}

/// `HeaderMap::keys_len`: how many names there are.
#[verifier::external_body]
fn count_names(headers: &reqwest::header::HeaderMap<reqwest::header::HeaderValue>) -> (r: usize)
    ensures
        holds_names(header_texts(*headers), r as int),
{
    headers.keys_len()
}

/// Whether a map takes the headers of an answer beside those it has.
pub open spec fn has_room(m: Map<Seq<char>, Seq<char>>) -> bool {
    m.dom().finite() && m.dom().len() <= 6500
}

/// Whether a map takes the headers of an answer beside those it has.
pub fn takes_more(headers: &reqwest::header::HeaderMap<reqwest::header::HeaderValue>) -> (r: bool)
    ensures
        r == has_room(header_texts(*headers)),
{
    count_names(headers) <= 6500
}

/// `HeaderMap::get` and `HeaderValue::to_str`: the text of the first value under a
/// name, where there is one and it holds visible characters alone.
#[verifier::external_body]
pub(crate) fn visible_header(
    headers: &reqwest::header::HeaderMap<reqwest::header::HeaderValue>,
    name: &str,
) -> (r: Option<Result<String, ()>>)
    requires
        is_plain_name(name@),
    ensures
        r is Some == header_texts(*headers).contains_key(name@),
        r is Some ==> (r->0 is Ok) == is_visible(header_texts(*headers)[name@]),
        r is Some && r->0 is Ok ==> r->0->Ok_0@ == header_texts(*headers)[name@],
{
    headers.get(name).map(|v| v.to_str().map(|s| s.to_owned()).map_err(|_| ()))
}

/// Whether the characters from `i` on may stand in a header name in lower case.
spec fn plain_from(s: Seq<char>, i: int) -> bool
    decreases s.len() - i,
{
    i < 0 || i >= s.len() || (is_name_char(s[i]) && !('A' as int <= s[i] as int <= 'Z' as int) && plain_from(
        s,
        i + 1,
    ))
}

proof fn plain_all(s: Seq<char>, i: int, k: int)
    requires
        plain_from(s, i),
        0 <= i <= k < s.len(),
    ensures
        is_name_char(s[k]),
        !('A' as int <= s[k] as int <= 'Z' as int),
    decreases k - i,
{
    if i < k {
        plain_all(s, i + 1, k);
    }
}

proof fn plain_is_plain(s: Seq<char>)
    requires
        1 <= s.len() <= 65535,
        plain_from(s, 0),
    ensures
        is_plain_name(s),
{
    assert forall|k: int| 0 <= k < s.len() implies is_name_char(#[trigger] s[k]) && text::ascii_lowered(s)[k] == s[k] by {
        plain_all(s, 0, k);
    }
    assert(text::ascii_lowered(s) =~= s);
}

/// Whether the characters from `i` on may stand in a header value.
spec fn value_from(s: Seq<char>, i: int) -> bool
    decreases s.len() - i,
{
    i < 0 || i >= s.len() || (is_value_char(s[i]) && value_from(s, i + 1))
}

proof fn value_all(s: Seq<char>, i: int, k: int)
    requires
        value_from(s, i),
        0 <= i <= k < s.len(),
    ensures
        is_value_char(s[k]),
    decreases k - i,
{
    if i < k {
        value_all(s, i + 1, k);
    }
}

proof fn value_is_value(s: Seq<char>)
    requires
        value_from(s, 0),
    ensures
        is_value(s),
{
    assert forall|k: int| 0 <= k < s.len() implies is_value_char(#[trigger] s[k]) by {
        value_all(s, 0, k);
    }
}

/// A header name in lower case stays one.
pub proof fn lowering_gives_a_plain_name(s: Seq<char>)
    requires
        is_name(s),
    ensures
        is_plain_name(text::ascii_lowered(s)),
{
    let t = text::ascii_lowered(s);
    assert forall|k: int| 0 <= k < t.len() implies is_name_char(#[trigger] t[k]) && text::ascii_lowered(t)[k] == t[k] by {
        assert(is_name_char(s[k]));
    }
    assert(text::ascii_lowered(t) =~= t);
}

/// The names that every request may carry are header names.
pub proof fn own_names_are_names()
    ensures
        is_plain_name("content-type"@),
        is_plain_name("accept"@),
        is_plain_name("x-api-key"@),
        is_plain_name("authorization"@),
        is_plain_name("anthropic-version"@),
        is_plain_name("user-agent"@),
        is_plain_name("x-app"@),
        is_plain_name("anthropic-dangerous-direct-browser-access"@),
        is_plain_name("anthropic-beta"@),
{
    reveal_with_fuel(plain_from, 45);
    reveal_strlit("content-type");
    plain_is_plain("content-type"@);
    reveal_strlit("accept");
    plain_is_plain("accept"@);
    reveal_strlit("x-api-key");
    plain_is_plain("x-api-key"@);
    reveal_strlit("authorization");
    plain_is_plain("authorization"@);
    reveal_strlit("anthropic-version");
    plain_is_plain("anthropic-version"@);
    reveal_strlit("user-agent");
    plain_is_plain("user-agent"@);
    reveal_strlit("x-app");
    plain_is_plain("x-app"@);
    reveal_strlit("anthropic-dangerous-direct-browser-access");
    plain_is_plain("anthropic-dangerous-direct-browser-access"@);
    reveal_strlit("anthropic-beta");
    plain_is_plain("anthropic-beta"@);
}

/// The values that every request may carry are header values.
pub proof fn own_values_are_values()
    ensures
        is_value("application/json"@),
        is_value("application/json, text/event-stream"@),
        is_value("cli"@),
        is_value("true"@),
{
    reveal_with_fuel(value_from, 45);
    reveal_strlit("application/json");
    value_is_value("application/json"@);
    reveal_strlit("application/json, text/event-stream");
    value_is_value("application/json, text/event-stream"@);
    reveal_strlit("cli");
    value_is_value("cli"@);
    reveal_strlit("true");
    value_is_value("true"@);
}

/// The names and the value that tell how a request was routed are header names and
/// a header value.
pub proof fn routing_names_are_names()
    ensures
        is_plain_name("x-zroutery-model"@),
        is_plain_name("x-zroutery-provider"@),
        is_plain_name("x-zroutery-degraded"@),
        is_plain_name("x-zroutery-classifier"@),
        is_plain_name("x-zroutery-cost"@),
        is_value("1"@),
{
    reveal_with_fuel(plain_from, 25);
    reveal_with_fuel(value_from, 3);
    reveal_strlit("x-zroutery-model");
    plain_is_plain("x-zroutery-model"@);
    reveal_strlit("x-zroutery-provider");
    plain_is_plain("x-zroutery-provider"@);
    reveal_strlit("x-zroutery-degraded");
    plain_is_plain("x-zroutery-degraded"@);
    reveal_strlit("x-zroutery-classifier");
    plain_is_plain("x-zroutery-classifier"@);
    reveal_strlit("x-zroutery-cost");
    plain_is_plain("x-zroutery-cost"@);
    reveal_strlit("1");
    value_is_value("1"@);
}

} // verus!
