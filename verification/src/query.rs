//! What kind of request this is, as opposed to which model it asks for.
//!
//! `Resolution` answers "which model" — a direct id or a class. This module
//! answers "which *purpose*": a request from the client's main conversation, or
//! one of the side queries that a client issues alongside it.
//!
//! The two dimensions are deliberately kept apart. The same model string
//! (`opus-4-8[1m]`) can arrive as a main request and as an Auto Mode
//! classifier request, so "is this the classifier" can never be derived from
//! the model name — only from the request's own shape.

use crate::text::{chars_of, same};
use vstd::prelude::*;

verus! {

/// The kinds of side query that are routed separately.
#[derive(Debug, Clone, Copy, PartialEq, Eq, Hash, Structural)]
pub enum SideQueryKind {
    /// The permission classifier of a client's Auto Mode: a small, deterministic
    /// request asking a model to judge a proposed action and answer with an
    /// XML `<block>` verdict.
    AutoMode,
}

impl SideQueryKind {
    /// Stable name used in stats and logs.
    pub fn as_str(&self) -> (r: &'static str)
        ensures
            r@ == "auto_mode"@,
    {
        match self {
            SideQueryKind::AutoMode => "auto_mode",
        }
    }
}

/// Why the request exists, decided before any model resolution happens.
#[derive(Debug, Clone, Copy, PartialEq, Eq, Hash, Structural)]
pub enum RequestKind {
    /// A normal request from the client's conversation.
    Main,
    /// A side query the client issued alongside the main conversation.
    Side(SideQueryKind),
}

impl Default for RequestKind {
    fn default() -> (r: Self)
        ensures
            r == RequestKind::Main,
    {
        RequestKind::Main
    }
}

/// The stable name of a kind.
pub open spec fn kind_name(k: RequestKind) -> Seq<char> {
    match k {
        RequestKind::Main => "main"@,
        RequestKind::Side(SideQueryKind::AutoMode) => "auto_mode"@,
    }
}

impl RequestKind {
    /// Stable name used in stats and logs: `main` / `auto_mode`.
    pub fn as_str(&self) -> (r: &'static str)
        ensures
            r@ == kind_name(*self),
    {
        match self {
            RequestKind::Main => "main",
            RequestKind::Side(SideQueryKind::AutoMode) => "auto_mode",
        }
    }

    /// The kind with that stable name.
    pub fn from_name(name: &str) -> (r: Option<RequestKind>)
        ensures
            match r {
                Some(k) => kind_name(k) == name@,
                None => forall|k: RequestKind| #[trigger] kind_name(k) != name@,
            },
    {
        proof {
            reveal_strlit("main");
            reveal_strlit("auto_mode");
        }
        if same(name, "main") {
            Some(RequestKind::Main)
        } else if same(name, "auto_mode") {
            Some(RequestKind::Side(SideQueryKind::AutoMode))
        } else {
            None
        }
    }

    pub fn is_main(&self) -> (r: bool)
        ensures
            r == (*self is Main),
    {
        match self {
            RequestKind::Main => true,
            _ => false,
        }
    }
}

/// No two kinds share a name.
pub proof fn kind_names_differ(a: RequestKind, b: RequestKind)
    ensures
        kind_name(a) == kind_name(b) ==> a == b,
{
    reveal_strlit("main");
    reveal_strlit("auto_mode");
    assert("main"@.len() != "auto_mode"@.len());
}

pub open spec fn is_alphanumeric(c: char) -> bool {
    '0' as int <= c as int <= '9' as int || 'A' as int <= c as int <= 'Z' as int || 'a' as int <= c as int <= 'z' as int
}

/// The index of the last `[` before `i`; `-1` where there is none.
pub open spec fn last_bracket(s: Seq<char>, i: int) -> int
    decreases i,
{
    if i <= 0 || i > s.len() {
        -1
    } else if s[i - 1] == '[' {
        i - 1
    } else {
        last_bracket(s, i - 1)
    }
}

/// A tag that is short and alphanumeric, such as `1m`.
pub open spec fn is_modifier(tag: Seq<char>) -> bool {
    0 < tag.len() <= 8 && forall|i: int| 0 <= i < tag.len() ==> is_alphanumeric(#[trigger] tag[i])
}

/// The model id without a trailing modifier in brackets. What is only a modifier
/// stays: stripping it would leave nothing to route.
pub open spec fn stripped(s: Seq<char>) -> Seq<char> {
    let open = last_bracket(s, s.len() as int);
    if open > 0 && open + 1 < s.len() && s.last() == ']' && is_modifier(s.subrange(open + 1, s.len() - 1)) {
        s.take(open)
    } else {
        s
    }
}

/// What is left starts the id, and is nothing only where the id is nothing.
pub proof fn stripping_leaves_a_prefix(s: Seq<char>)
    ensures
        stripped(s).is_prefix_of(s),
        s.len() > 0 ==> stripped(s).len() > 0,
{
    last_bracket_bounds(s, s.len() as int);
}

proof fn last_bracket_bounds(s: Seq<char>, i: int)
    requires
        0 <= i <= s.len(),
    ensures
        -1 <= last_bracket(s, i) < i || (i == 0 && last_bracket(s, i) == -1),
        last_bracket(s, i) >= 0 ==> s[last_bracket(s, i)] == '[',
    decreases i,
{
    if i > 0 && s[i - 1] != '[' {
        last_bracket_bounds(s, i - 1);
    }
}

fn alphanumeric(c: char) -> (r: bool)
    ensures
        r == is_alphanumeric(c),
{
    let n: u32 = c as u32;
    (48 <= n && n <= 57) || (65 <= n && n <= 90) || (97 <= n && n <= 122)
}

/// The client-visible model id with any client-side suffix modifier stripped.
///
/// Coding clients append modifiers such as `[1m]` to
/// select a context-window tier. The modifier is a client-side routing hint,
/// not part of the model's name: `opus-4-8[1m]` is the same model as
/// `opus-4-8`, seen through a one-million-token window. The registry keys
/// on the plain name, so the modifier has to go before resolution — but the
/// original string is what gets logged and echoed, since that is what the client
/// asked for.
///
/// Only a short alphanumeric tag in trailing brackets is treated as a
/// modifier, so genuine ids containing brackets are left alone.
pub fn strip_client_model_modifier(model: &str) -> (r: &str)
    ensures
        r@ == stripped(model@),
{
    let s: Vec<char> = chars_of(model);
    let n: usize = s.len();
    let mut i: usize = n;
    while i > 0 && s[i - 1] != '['
        invariant
            i <= n,
            n == s@.len(),
            last_bracket(s@, n as int) == last_bracket(s@, i as int),
        decreases i,
    {
        i -= 1;
    }
    if i <= 1 || i >= n || s[n - 1] != ']' {
        return model;
    }
    let open: usize = i - 1;
    let ghost tag = s@.subrange(open + 1, n - 1);
    if n - 1 <= i || n - 1 - i > 8 {
        return model;
    }
    let mut j: usize = i;
    while j < n - 1
        invariant
            n == s@.len(),
            1 < i <= j <= n - 1,
            tag == s@.subrange(i as int, n - 1),
            forall|k: int| 0 <= k < j - i ==> is_alphanumeric(#[trigger] tag[k]),
            s@ == model@,
            last_bracket(s@, n as int) == i - 1,
        decreases n - j,
    {
        assert(tag[j - i] == s@[j as int]);
        if !alphanumeric(s[j]) {
            assert(!is_alphanumeric(tag[j - i]));
            return model;
        }
        j += 1;
    }
    model.substring_char(0, open)
}

} // verus!
