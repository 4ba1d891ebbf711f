//! JSON documents.
//!
//! [`Json`] is the document type that the dialects read and write. Parsing and
//! printing are `serde_json`'s; everything else here is plain tree work.

use crate::text::same;
use crate::views;
use vstd::prelude::*;
use vstd::utf8::*;

verus! {

#[verifier::external_type_specification]
#[verifier::external_body]
pub struct ExNumber(serde_json::Number);

#[verifier::external_type_specification]
#[verifier::external_body]
pub struct ExValue(serde_json::Value);

/// A number with a fraction or an exponent, carried as it was read.
///
/// The field is private: a `Float` only ever comes out of a number that
/// `serde_json` holds as a float.
#[derive(Debug, PartialEq)]
pub struct Float {
    number: serde_json::Number,
}

/// A JSON document. Objects keep their fields in order.
#[derive(Debug, PartialEq)]
pub enum Json {
    Null,
    Bool(bool),
    /// A whole number that is not negative.
    UInt(u64),
    /// A negative whole number.
    Int(i64),
    Float(Float),
    Str(String),
    Arr(Vec<Json>),
    Obj(Vec<(String, Json)>),
}

/// What a [`Json`] says.
pub enum Tree {
    Null,
    Bool(bool),
    UInt(u64),
    Int(i64),
    Float(Float),
    Str(Seq<char>),
    Arr(Seq<Tree>),
    Obj(Seq<(Seq<char>, Tree)>),
}

/// The tree of a document.
pub open spec fn tree_of(v: Json) -> Tree
    decreases v,
{
    match v {
        Json::Null => Tree::Null,
        Json::Bool(b) => Tree::Bool(b),
        Json::UInt(n) => Tree::UInt(n),
        Json::Int(n) => Tree::Int(n),
        Json::Float(n) => Tree::Float(n),
        Json::Str(s) => Tree::Str(s@),
        Json::Arr(a) => Tree::Arr(
            Seq::new(a@.len(), |i: int| if 0 <= i < a@.len() { tree_of(a@[i]) } else { Tree::Null }),
        ),
        Json::Obj(o) => Tree::Obj(
            Seq::new(
                o@.len(),
                |i: int| if 0 <= i < o@.len() { (o@[i].0@, tree_of(o@[i].1)) } else { (Seq::empty(), Tree::Null) },
            ),
        ),
    }
}

impl View for Json {
    type V = Tree;

    open spec fn view(&self) -> Tree {
        tree_of(*self)
    }
}

/// The document that a `serde_json` tree holds.
pub uninterp spec fn outside_tree(v: serde_json::Value) -> Tree;

/// What `serde_json` reads a text as: the document, or the message it refuses it with.
pub uninterp spec fn parsed(text: Seq<char>) -> Result<Tree, Seq<char>>;

/// One layer of a `serde_json` tree.
enum Layer {
    Null,
    Bool(bool),
    UInt(u64),
    Int(i64),
    Float(Float),
    Str(String),
    Arr(Vec<serde_json::Value>),
    Obj(Vec<(String, serde_json::Value)>),
}

spec fn layer_tree(l: Layer) -> Tree {
    match l {
        Layer::Null => Tree::Null,
        Layer::Bool(b) => Tree::Bool(b),
        Layer::UInt(n) => Tree::UInt(n),
        Layer::Int(n) => Tree::Int(n),
        Layer::Float(n) => Tree::Float(n),
        Layer::Str(s) => Tree::Str(s@),
        Layer::Arr(a) => Tree::Arr(Seq::new(a@.len(), |i: int| outside_tree(a@[i]))),
        Layer::Obj(o) => Tree::Obj(Seq::new(o@.len(), |i: int| (o@[i].0@, outside_tree(o@[i].1)))),
    }
}

/// `serde_json::Value`, taken apart: the tree that the layer stands for is the
/// value's own. A number is told apart by `Number::{as_u64, as_i64}`, and an
/// object's fields come in the map's order.
#[verifier::external_body]
fn open(v: serde_json::Value) -> (r: Layer)
    ensures
        layer_tree(r) == outside_tree(v),
{
    match v {
        serde_json::Value::Null => Layer::Null,
        serde_json::Value::Bool(b) => Layer::Bool(b),
        serde_json::Value::Number(n) => match (n.as_u64(), n.as_i64()) {
            (Some(u), _) => Layer::UInt(u),
            (None, Some(i)) => Layer::Int(i),
            (None, None) => Layer::Float(Float { number: n }),
        },
        serde_json::Value::String(s) => Layer::Str(s),
        serde_json::Value::Array(a) => Layer::Arr(a),
        serde_json::Value::Object(o) => Layer::Obj(o.into_iter().collect()),
    }
}

/// The document of a `serde_json` tree.
pub fn from_outside(v: serde_json::Value) -> (r: Json)
    ensures
        r@ == outside_tree(v),
    decreases outside_tree(v),
{
    match open(v) {
        Layer::Null => Json::Null,
        Layer::Bool(b) => Json::Bool(b),
        Layer::UInt(n) => Json::UInt(n),
        Layer::Int(n) => Json::Int(n),
        Layer::Float(n) => Json::Float(n),
        Layer::Str(s) => Json::Str(s),
        Layer::Arr(a) => {
            let mut out: Vec<Json> = Vec::new();
            let ghost items = a@;
            for x in it: a
                invariant
                    it.seq() == items,
                    outside_tree(v) == Tree::Arr(Seq::new(items.len(), |i: int| outside_tree(items[i]))),
                    out@.len() == it.index(),
                    forall|j: int| 0 <= j < out@.len() ==> (#[trigger] out@[j])@ == outside_tree(items[j]),
            {
                assert(outside_tree(v)->Arr_0[it.index()] == outside_tree(x));
                out.push(from_outside(x));
            }
            let r = Json::Arr(out);
            assert(r@->Arr_0 =~= outside_tree(v)->Arr_0);
            r
        },
        Layer::Obj(o) => {
            let mut out: Vec<(String, Json)> = Vec::new();
            let ghost items = o@;
            for x in it: o
                invariant
                    it.seq() == items,
                    outside_tree(v) == Tree::Obj(Seq::new(items.len(), |i: int| (items[i].0@, outside_tree(items[i].1)))),
                    out@.len() == it.index(),
                    forall|j: int| 0 <= j < out@.len() ==> (#[trigger] out@[j]).0@ == items[j].0@ && out@[j].1@ == outside_tree(items[j].1),
            {
                assert(outside_tree(v)->Obj_0[it.index()].1 == outside_tree(x.1));
                out.push((x.0, from_outside(x.1)));
            }
            let r = Json::Obj(out);
            assert(r@->Obj_0 =~= outside_tree(v)->Obj_0);
            r
        },
    }
}

/// `serde_json::from_str`: its result depends on the text alone.
#[verifier::external_body]
fn parse_outside(text: &str) -> (r: Result<serde_json::Value, String>)
    ensures
        match r {
            Ok(v) => parsed(text@) == Ok::<Tree, Seq<char>>(outside_tree(v)),
            Err(e) => parsed(text@) == Err::<Tree, Seq<char>>(e@),
        },
{
    serde_json::from_str(text).map_err(|e: serde_json::Error| e.to_string())
}

/// Read a document.
pub fn parse(text: &str) -> (r: Result<Json, String>)
    ensures
        match r {
            Ok(v) => parsed(text@) == Ok::<Tree, Seq<char>>(v@),
            Err(e) => parsed(text@) == Err::<Tree, Seq<char>>(e@),
        },
{
    match parse_outside(text) {
        Ok(v) => Ok(from_outside(v)),
        Err(e) => Err(e),
    }
}


// ------------------------------------------------------------------ lookup

/// The first field of that name, from index `i` on; the length where there is none.
pub open spec fn find_from(m: Seq<(Seq<char>, Tree)>, key: Seq<char>, i: int) -> int
    decreases m.len() - i,
{
    if i < 0 || i >= m.len() {
        m.len() as int
    } else if m[i].0 == key {
        i
    } else {
        find_from(m, key, i + 1)
    }
}

/// The value of the first field of that name.
pub open spec fn field(m: Seq<(Seq<char>, Tree)>, key: Seq<char>) -> Option<Tree> {
    let i = find_from(m, key, 0);
    if 0 <= i < m.len() {
        Some(m[i].1)
    } else {
        None
    }
}

/// The fields with `key` set: in place where it is there, else at the end.
#[verifier::opaque]
pub open spec fn put(m: Seq<(Seq<char>, Tree)>, key: Seq<char>, v: Tree) -> Seq<(Seq<char>, Tree)> {
    let i = find_from(m, key, 0);
    if 0 <= i < m.len() {
        m.update(i, (key, v))
    } else {
        m.push((key, v))
    }
}

/// The fields with `key` added where it is not there.
#[verifier::opaque]
pub open spec fn put_new(m: Seq<(Seq<char>, Tree)>, key: Seq<char>, v: Tree) -> Seq<(Seq<char>, Tree)> {
    if find_from(m, key, 0) < m.len() {
        m
    } else {
        m.push((key, v))
    }
}

/// The fields without the first one named `key`; the last field takes its place.
pub open spec fn without(m: Seq<(Seq<char>, Tree)>, key: Seq<char>) -> Seq<(Seq<char>, Tree)> {
    let i = find_from(m, key, 0);
    if 0 <= i < m.len() {
        m.update(i, m.last()).drop_last()
    } else {
        m
    }
}

/// No field is named twice.
pub open spec fn named_once(m: Seq<(Seq<char>, Tree)>) -> bool {
    forall|i: int, j: int| 0 <= i < j < m.len() ==> (#[trigger] m[i]).0 != (#[trigger] m[j]).0
}

/// What is taken out is gone, and nothing else is, where no field is named twice.
pub proof fn without_shows(m: Seq<(Seq<char>, Tree)>, key: Seq<char>, other: Seq<char>)
    requires
        named_once(m),
    ensures
        field(without(m, key), key) is None,
        other != key ==> field(without(m, key), other) == field(m, other),
{
    let n = without(m, key);
    find_from_bounds(m, key, 0);
    find_from_bounds(n, key, 0);
    find_from_bounds(m, other, 0);
    find_from_bounds(n, other, 0);
    let i = find_from(m, key, 0);
    if i < m.len() {
        assert forall|j: int| 0 <= j < n.len() implies n[j] == if j == i {
            m[m.len() - 1]
        } else {
            m[j]
        } by {}
        let gone = find_from(n, key, 0);
        if gone < n.len() {
            assert(n[gone].0 == key);
        }
        if other != key {
            let a = find_from(m, other, 0);
            let b = find_from(n, other, 0);
            if a < m.len() {
                let c = if a == m.len() - 1 {
                    i
                } else {
                    a
                };
                assert(n[c] == m[a]);
                assert(b < n.len());
                assert(n[b].0 == other);
                let d = if b == i {
                    m.len() - 1
                } else {
                    b
                };
                assert(m[d].0 == other);
            } else if b < n.len() {
                let d = if b == i {
                    m.len() - 1
                } else {
                    b
                };
                assert(m[d].0 == other);
            }
        }
    }
}

/// Setting a field to what it is changes nothing.
pub proof fn same_value_stays(m: Seq<(Seq<char>, Tree)>, key: Seq<char>, v: Tree)
    requires
        field(m, key) == Some(v),
    ensures
        put(m, key, v) == m,
{
    reveal(put);
    find_from_bounds(m, key, 0);
    assert(put(m, key, v) =~= m);
}

pub proof fn find_from_bounds(m: Seq<(Seq<char>, Tree)>, key: Seq<char>, i: int)
    requires
        0 <= i <= m.len(),
    ensures
        i <= find_from(m, key, i) <= m.len(),
        find_from(m, key, i) < m.len() ==> m[find_from(m, key, i)].0 == key,
        forall|j: int| i <= j < find_from(m, key, i) ==> (#[trigger] m[j]).0 != key,
    decreases m.len() - i,
{
    if i < m.len() && m[i].0 != key {
        find_from_bounds(m, key, i + 1);
    }
}

/// A field that is set is found, and setting it changes no other field.
pub proof fn set_is_found(m: Seq<(Seq<char>, Tree)>, key: Seq<char>, v: Tree, other: Seq<char>)
    ensures
        field(put(m, key, v), key) == Some(v),
        other != key ==> field(put(m, key, v), other) == field(m, other),
{
    reveal(put);
    let n = put(m, key, v);
    find_from_bounds(m, key, 0);
    find_from_bounds(n, key, 0);
    find_from_bounds(m, other, 0);
    find_from_bounds(n, other, 0);
    let i = find_from(m, key, 0);
    assert(n[i].0 == key);
    assert(find_from(n, key, 0) == i) by {
        if find_from(n, key, 0) < i {
            assert(m[find_from(n, key, 0)].0 == key);
        }
    }
    if other != key {
        let a = find_from(m, other, 0);
        let b = find_from(n, other, 0);
        if a < m.len() {
            assert(n[a] == m[a]);
            if b < a {
                assert(n[b] == m[b]);
            }
            assert(a == b);
        } else if b < n.len() {
            assert(b != i);
            assert(n[b] == m[b]);
        }
    }
}

/// What a field shows after one was set.
pub broadcast proof fn set_shows(m: Seq<(Seq<char>, Tree)>, key: Seq<char>, v: Tree, other: Seq<char>)
    ensures
        #[trigger] field(put(m, key, v), other) == if other == key {
            Some(v)
        } else {
            field(m, other)
        },
{
    set_is_found(m, key, v, other);
}

/// What a field shows after one was added where it was not there.
pub proof fn new_shows(m: Seq<(Seq<char>, Tree)>, key: Seq<char>, v: Tree, other: Seq<char>)
    ensures
        field(put_new(m, key, v), other) == if field(m, other) is None && other == key {
            Some(v)
        } else {
            field(m, other)
        },
{
    reveal(put_new);
    let n = put_new(m, key, v);
    find_from_bounds(m, key, 0);
    find_from_bounds(m, other, 0);
    find_from_bounds(n, other, 0);
    let a = find_from(m, other, 0);
    let b = find_from(n, other, 0);
    if n != m {
        if a < m.len() {
            assert(n[a] == m[a]);
            if b < a {
                assert(n[b] == m[b]);
            }
        } else if b < m.len() {
            assert(n[b] == m[b]);
        } else if other == key {
            assert(n[m.len() as int].0 == key);
        }
    }
}

/// The nearest float to a whole number.
pub uninterp spec fn nearest_float(n: int) -> Float;

impl Tree {
    /// The field of that name, in an object.
    pub open spec fn at(self, key: Seq<char>) -> Option<Tree> {
        match self {
            Tree::Obj(m) => field(m, key),
            _ => None,
        }
    }
}

/// Reading on through a value that may not be there.
pub trait Lookup: Sized {
    /// The value itself.
    spec fn it(self) -> Option<Tree>;

    /// The field of that name.
    open spec fn at(self, key: Seq<char>) -> Option<Tree> {
        match self.it() {
            Some(t) => t.at(key),
            None => None,
        }
    }

    open spec fn text(self) -> Option<Seq<char>> {
        match self.it() {
            Some(Tree::Str(s)) => Some(s),
            _ => None,
        }
    }

    /// The text, or `d` where there is none.
    open spec fn text_or(self, d: Seq<char>) -> Seq<char> {
        match self.text() {
            Some(s) => s,
            None => d,
        }
    }

    /// The text, where it is not empty.
    open spec fn words(self) -> Option<Seq<char>> {
        match self.text() {
            Some(s) if s.len() > 0 => Some(s),
            _ => None,
        }
    }

    open spec fn uint(self) -> Option<u64> {
        match self.it() {
            Some(Tree::UInt(n)) => Some(n),
            _ => None,
        }
    }

    /// A counter: zero where there is none, and no more than a `u32` holds.
    open spec fn count(self) -> u32 {
        match self.uint() {
            Some(n) => if n <= u32::MAX { n as u32 } else { u32::MAX },
            None => 0,
        }
    }

    /// A limit, where there is one: no more than a `u32` holds.
    open spec fn limit(self) -> Option<u32> {
        match self.uint() {
            Some(n) => Some(if n <= u32::MAX { n as u32 } else { u32::MAX }),
            None => None,
        }
    }

    open spec fn flag(self) -> Option<bool> {
        match self.it() {
            Some(Tree::Bool(b)) => Some(b),
            _ => None,
        }
    }

    open spec fn float(self) -> Option<Float> {
        match self.it() {
            Some(Tree::Float(f)) => Some(f),
            Some(Tree::UInt(n)) => Some(nearest_float(n as int)),
            Some(Tree::Int(n)) => Some(nearest_float(n as int)),
            _ => None,
        }
    }

    open spec fn list(self) -> Option<Seq<Tree>> {
        match self.it() {
            Some(Tree::Arr(a)) => Some(a),
            _ => None,
        }
    }

    open spec fn fields(self) -> Option<Seq<(Seq<char>, Tree)>> {
        match self.it() {
            Some(Tree::Obj(m)) => Some(m),
            _ => None,
        }
    }

    /// The value, unless it is `null`.
    open spec fn not_null(self) -> Option<Tree> {
        match self.it() {
            Some(Tree::Null) => None,
            o => o,
        }
    }

    /// The value, or else the other one.
    open spec fn or_else_at(self, other: Option<Tree>) -> Option<Tree> {
        match self.it() {
            Some(t) => Some(t),
            None => other,
        }
    }
}

impl Lookup for Option<Tree> {
    open spec fn it(self) -> Option<Tree> {
        self
    }
}

pub proof fn arr_tree(a: Vec<Json>)
    ensures
        tree_of(Json::Arr(a)) == Tree::Arr(views::of(a@)),
{
    assert(tree_of(Json::Arr(a))->Arr_0 =~= views::of(a@));
}

pub proof fn obj_tree(o: Vec<(String, Json)>)
    ensures
        tree_of(Json::Obj(o)) == Tree::Obj(views::of(o@)),
{
    assert(tree_of(Json::Obj(o))->Obj_0 =~= views::of(o@));
}

/// A place in a document, which may not be there.
#[derive(Clone, Copy)]
pub struct At<'a> {
    pub v: Option<&'a Json>,
}

impl<'a> View for At<'a> {
    type V = Option<Tree>;

    open spec fn view(&self) -> Option<Tree> {
        views::opt_ref(self.v)
    }
}

/// The index of the first field of that name; the length where there is none.
pub(crate) fn position(m: &Vec<(String, Json)>, key: &str) -> (r: usize)
    ensures
        r == find_from(views::of(m@), key@, 0),
        r <= m@.len(),
{
    let mut i: usize = 0;
    while i < m.len()
        invariant
            i <= m@.len(),
            find_from(views::of(m@), key@, 0) == find_from(views::of(m@), key@, i as int),
        decreases m@.len() - i,
    {
        if same(m[i].0.as_str(), key) {
            return i;
        }
        i += 1;
    }
    i
}

impl Json {
    pub fn here(&self) -> (r: At<'_>)
        ensures
            r@ == Some(self@),
    {
        At { v: Some(self) }
    }

    /// The field of that name, in an object.
    pub fn at(&self, key: &str) -> (r: At<'_>)
        ensures
            r@ == self@.at(key@),
    {
        match self {
            Json::Obj(m) => {
                proof {
                    obj_tree(*m);
                }
                let i: usize = position(m, key);
                if i < m.len() {
                    At { v: Some(&m[i].1) }
                } else {
                    At { v: None }
                }
            },
            _ => At { v: None },
        }
    }
}

impl<'a> At<'a> {
    /// The field of that name.
    pub fn at(self, key: &str) -> (r: At<'a>)
        ensures
            r@ == self@.at(key@),
    {
        match self.v {
            Some(j) => j.at(key),
            None => At { v: None },
        }
    }

    pub fn text(self) -> (r: Option<&'a str>)
        ensures
            views::opt_str(r) == self@.text(),
    {
        match self.v {
            Some(Json::Str(s)) => Some(s.as_str()),
            _ => None,
        }
    }

    /// The text, where it is not empty.
    pub fn words(self) -> (r: Option<&'a str>)
        ensures
            views::opt_str(r) == self@.words(),
    {
        match self.v {
            Some(Json::Str(s)) => {
                let t = s.as_str();
                if t.unicode_len() == 0 {
                    None
                } else {
                    Some(t)
                }
            },
            _ => None,
        }
    }

    /// The text, or `d` where there is none.
    pub fn string_or(self, d: &str) -> (r: String)
        ensures
            r@ == self@.text_or(d@),
    {
        match self.text() {
            Some(s) => s.to_owned(),
            None => d.to_owned(),
        }
    }

    /// The text; empty where there is none.
    pub fn string(self) -> (r: String)
        ensures
            r@ == self@.text_or(Seq::empty()),
    {
        match self.text() {
            Some(s) => s.to_owned(),
            None => String::new(),
        }
    }

    pub fn opt_string(self) -> (r: Option<String>)
        ensures
            views::opt(r) == self@.text(),
    {
        match self.text() {
            Some(s) => Some(s.to_owned()),
            None => None,
        }
    }

    /// Whether the text is there and is this one.
    pub fn is_text(self, s: &str) -> (r: bool)
        ensures
            r == (self@.text() == Some(s@)),
    {
        match self.text() {
            Some(t) => same(t, s),
            None => false,
        }
    }

    pub fn uint(self) -> (r: Option<u64>)
        ensures
            r == self@.uint(),
    {
        match self.v {
            Some(Json::UInt(n)) => Some(*n),
            _ => None,
        }
    }

    /// A counter: zero where there is none, and no more than a `u32` holds.
    pub fn count(self) -> (r: u32)
        ensures
            r == self@.count(),
    {
        match self.uint() {
            Some(n) => if n <= u32::MAX as u64 { n as u32 } else { u32::MAX },
            None => 0,
        }
    }

    /// A limit, where there is one: no more than a `u32` holds.
    pub fn limit(self) -> (r: Option<u32>)
        ensures
            r == self@.limit(),
    {
        match self.uint() {
            Some(n) => Some(if n <= u32::MAX as u64 { n as u32 } else { u32::MAX }),
            None => None,
        }
    }

    pub fn flag(self) -> (r: Option<bool>)
        ensures
            r == self@.flag(),
    {
        match self.v {
            Some(Json::Bool(b)) => Some(*b),
            _ => None,
        }
    }

    pub fn float(self) -> (r: Option<Float>)
        ensures
            r == self@.float(),
    {
        match self.v {
            Some(Json::Float(f)) => Some(f.clone()),
            Some(Json::UInt(n)) => float_of_uint(*n),
            Some(Json::Int(n)) => float_of_int(*n),
            _ => None,
        }
    }

    pub fn list(self) -> (r: Option<&'a Vec<Json>>)
        ensures
            match r {
                Some(a) => self@.list() == Some(views::of(a@)) && self@ == Some(Tree::Arr(views::of(a@))),
                None => self@.list() is None,
            },
    {
        match self.v {
            Some(Json::Arr(a)) => {
                proof {
                    arr_tree(*a);
                }
                Some(a)
            },
            _ => None,
        }
    }

    pub fn fields(self) -> (r: Option<&'a Vec<(String, Json)>>)
        ensures
            match r {
                Some(m) => self@.fields() == Some(views::of(m@)) && self@ == Some(Tree::Obj(views::of(m@))),
                None => self@.fields() is None,
            },
    {
        match self.v {
            Some(Json::Obj(m)) => {
                proof {
                    obj_tree(*m);
                }
                Some(m)
            },
            _ => None,
        }
    }

    /// The value, unless it is `null`.
    pub fn not_null(self) -> (r: At<'a>)
        ensures
            r@ == self@.not_null(),
    {
        match self.v {
            Some(Json::Null) => At { v: None },
            _ => self,
        }
    }

    /// The value, or else the other one.
    pub fn or_else_at(self, other: At<'a>) -> (r: At<'a>)
        ensures
            r@ == self@.or_else_at(other@),
    {
        match self.v {
            Some(_) => self,
            None => other,
        }
    }

    pub fn is_some(self) -> (r: bool)
        ensures
            r == (self@ is Some),
    {
        self.v.is_some()
    }

    pub fn copied(self) -> (r: Option<Json>)
        ensures
            views::opt(r) == self@,
    {
        match self.v {
            Some(j) => Some(j.clone()),
            None => None,
        }
    }
}

/// `serde_json::Number::{from, as_f64, from_f64}`: a `u64` as the nearest float,
/// which is finite.
#[verifier::external_body]
fn float_of_uint(n: u64) -> (r: Option<Float>)
    ensures
        r == Some(nearest_float(n as int)),
{
    serde_json::Number::from(n).as_f64().and_then(serde_json::Number::from_f64).map(|number| Float { number })
}

/// `serde_json::Number::{from, as_f64, from_f64}`: an `i64` as the nearest float,
/// which is finite.
#[verifier::external_body]
fn float_of_int(n: i64) -> (r: Option<Float>)
    ensures
        r == Some(nearest_float(n as int)),
{
    serde_json::Number::from(n).as_f64().and_then(serde_json::Number::from_f64).map(|number| Float { number })
}

/// `serde_json::Number::clone`: the same number.
#[verifier::external_body]
fn copy_number(n: &serde_json::Number) -> (r: serde_json::Number)
    ensures
        r == *n,
{
    n.clone()
}

impl Clone for Float {
    fn clone(&self) -> (r: Self)
        ensures
            r == *self,
    {
        Float { number: copy_number(&self.number) }
    }
}

impl Clone for Json {
    fn clone(&self) -> (r: Self)
        ensures
            r@ == self@,
        decreases self@,
    {
        match self {
            Json::Null => Json::Null,
            Json::Bool(b) => Json::Bool(*b),
            Json::UInt(n) => Json::UInt(*n),
            Json::Int(n) => Json::Int(*n),
            Json::Float(f) => Json::Float(f.clone()),
            Json::Str(s) => Json::Str(s.clone()),
            Json::Arr(a) => {
                let mut out: Vec<Json> = Vec::new();
                for i in 0..a.len()
                    invariant
                        *self == Json::Arr(*a),
                        out@.len() == i,
                        forall|j: int| 0 <= j < i ==> (#[trigger] out@[j])@ == a@[j]@,
                {
                    proof {
                        arr_tree(*a);
                        assert(self@->Arr_0[i as int] == a@[i as int]@);
                    }
                    let x = a[i].clone();
                    out.push(x);
                }
                proof {
                    arr_tree(out);
                    arr_tree(*a);
                    assert(views::of(out@) =~= views::of(a@));
                }
                Json::Arr(out)
            },
            Json::Obj(m) => {
                let mut out: Vec<(String, Json)> = Vec::new();
                for i in 0..m.len()
                    invariant
                        *self == Json::Obj(*m),
                        out@.len() == i,
                        forall|j: int| 0 <= j < i ==> (#[trigger] out@[j])@ == m@[j]@,
                {
                    proof {
                        obj_tree(*m);
                        assert(self@->Obj_0[i as int].1 == m@[i as int].1@);
                    }
                    let x = m[i].1.clone();
                    out.push((m[i].0.clone(), x));
                }
                proof {
                    obj_tree(out);
                    obj_tree(*m);
                    assert(views::of(out@) =~= views::of(m@));
                }
                Json::Obj(out)
            },
        }
    }
}

// ---------------------------------------------------------------- building

/// No fields yet.
pub open spec fn fs() -> Seq<(Seq<char>, Tree)> {
    Seq::empty()
}

/// A text value.
pub open spec fn st(s: Seq<char>) -> Tree {
    Tree::Str(s)
}

/// A whole number.
pub open spec fn num(n: int) -> Tree {
    Tree::UInt(n as u64)
}

/// Adding to the fields of an object.
pub trait Build: Sized {
    /// One field more, at the end.
    spec fn with(self, key: Seq<char>, v: Tree) -> Self;

    /// A field set: in place where it is there, else at the end.
    spec fn set(self, key: Seq<char>, v: Tree) -> Self;
}

impl Build for Seq<(Seq<char>, Tree)> {
    open spec fn with(self, key: Seq<char>, v: Tree) -> Self {
        self.push((key, v))
    }

    open spec fn set(self, key: Seq<char>, v: Tree) -> Self {
        put(self, key, v)
    }
}

/// A text value.
pub fn js(s: &str) -> (r: Json)
    ensures
        r@ == Tree::Str(s@),
{
    Json::Str(s.to_owned())
}

/// A list of texts.
pub open spec fn text_list(s: Seq<Seq<char>>) -> Tree {
    Tree::Arr(Seq::new(s.len(), |i: int| Tree::Str(s[i])))
}

/// A list of texts.
pub fn texts(v: &Vec<String>) -> (r: Json)
    ensures
        r@ == text_list(views::of(v@)),
{
    let mut out: Vec<Json> = Vec::new();
    for i in 0..v.len()
        invariant
            out@.len() == i,
            forall|j: int| 0 <= j < i ==> (#[trigger] out@[j])@ == Tree::Str(v@[j]@),
    {
        out.push(js(v[i].as_str()));
    }
    let r = array(out);
    assert(r@->Arr_0 =~= text_list(views::of(v@))->Arr_0);
    r
}

/// A whole number, on the side of zero it is on.
pub open spec fn integer(n: i64) -> Tree {
    if n < 0 {
        Tree::Int(n)
    } else {
        Tree::UInt(n as u64)
    }
}

/// A whole number, on the side of zero it is on.
pub fn whole(n: i64) -> (r: Json)
    ensures
        r@ == integer(n),
{
    if n < 0 {
        Json::Int(n)
    } else {
        Json::UInt(n as u64)
    }
}

/// An array of one value.
pub fn array1(v: Json) -> (r: Json)
    ensures
        r@ == Tree::Arr(Seq::empty().push(v@)),
{
    let mut a: Vec<Json> = Vec::new();
    a.push(v);
    assert(views::of(a@) =~= Seq::empty().push(v@));
    array(a)
}

/// An empty array.
pub fn no_items() -> (r: Json)
    ensures
        r@ == Tree::Arr(Seq::empty()),
{
    let a: Vec<Json> = Vec::new();
    assert(views::of(a@) =~= Seq::empty());
    array(a)
}

/// An array value.
pub fn array(a: Vec<Json>) -> (r: Json)
    ensures
        r@ == Tree::Arr(views::of(a@)),
{
    proof {
        arr_tree(a);
    }
    Json::Arr(a)
}

/// The fields of an object under construction.
#[derive(Debug, PartialEq)]
pub struct Fields {
    pub list: Vec<(String, Json)>,
}

impl View for Fields {
    type V = Seq<(Seq<char>, Tree)>;

    open spec fn view(&self) -> Seq<(Seq<char>, Tree)> {
        views::of(self.list@)
    }
}

impl Clone for Fields {
    fn clone(&self) -> (r: Self)
        ensures
            r@ == self@,
    {
        let mut list: Vec<(String, Json)> = Vec::new();
        for i in 0..self.list.len()
            invariant
                list@.len() == i,
                forall|j: int| 0 <= j < i ==> (#[trigger] list@[j])@ == self.list@[j]@,
        {
            list.push((self.list[i].0.clone(), self.list[i].1.clone()));
        }
        assert(views::of(list@) =~= views::of(self.list@));
        Fields { list }
    }
}

impl Fields {
    pub fn new() -> (r: Fields)
        ensures
            r@ == fs(),
    {
        Fields { list: Vec::new() }
    }

    /// One field more, at the end.
    pub fn with(self, key: &str, v: Json) -> (r: Fields)
        ensures
            r@ == self@.with(key@, v@),
    {
        let mut list = self.list;
        list.push((key.to_owned(), v));
        let r = Fields { list };
        assert(r@ =~= self@.push((key@, v@)));
        r
    }

    /// Set a field: in place where it is there, else at the end.
    pub fn put(&mut self, key: &str, v: Json)
        ensures
            final(self)@ == old(self)@.set(key@, v@),
    {
        reveal(put);
        let i: usize = position(&self.list, key);
        if i < self.list.len() {
            self.list.set(i, (key.to_owned(), v));
        } else {
            self.list.push((key.to_owned(), v));
        }
        assert(self@ =~= put(old(self)@, key@, v@));
    }

    /// Add a field where it is not there.
    pub fn put_new(&mut self, key: &str, v: Json)
        ensures
            final(self)@ == put_new(old(self)@, key@, v@),
    {
        reveal(put_new);
        let i: usize = position(&self.list, key);
        if i >= self.list.len() {
            self.list.push((key.to_owned(), v));
        }
        assert(self@ =~= put_new(old(self)@, key@, v@));
    }

    /// Take a field out; the last field takes its place.
    pub fn remove(&mut self, key: &str) -> (r: bool)
        ensures
            final(self)@ == without(old(self)@, key@),
            r == (find_from(old(self)@, key@, 0) < old(self)@.len()),
    {
        let i: usize = position(&self.list, key);
        if i < self.list.len() {
            let _ = self.list.swap_remove(i);
            assert(self@ =~= without(old(self)@, key@));
            true
        } else {
            false
        }
    }

    /// The finished object.
    pub fn done(self) -> (r: Json)
        ensures
            r@ == Tree::Obj(self@),
    {
        proof {
            obj_tree(self.list);
        }
        Json::Obj(self.list)
    }
}

impl Fields {
    /// The field of that name.
    pub fn at(&self, key: &str) -> (r: At<'_>)
        ensures
            r@ == Tree::Obj(self@).at(key@),
    {
        let i: usize = position(&self.list, key);
        if i < self.list.len() {
            At { v: Some(&self.list[i].1) }
        } else {
            At { v: None }
        }
    }
}

impl Tree {
    /// The object with a field set; anything else stays as it is.
    pub open spec fn with_field(self, key: Seq<char>, v: Tree) -> Tree {
        match self {
            Tree::Obj(m) => Tree::Obj(m.set(key, v)),
            t => t,
        }
    }

    /// The object without a field; anything else stays as it is.
    pub open spec fn without_field(self, key: Seq<char>) -> Tree {
        match self {
            Tree::Obj(m) => Tree::Obj(without(m, key)),
            t => t,
        }
    }
}

impl Json {
    /// Set a field of an object.
    pub fn set_field(&mut self, key: &str, v: Json)
        ensures
            final(self)@ == old(self)@.with_field(key@, v@),
    {
        let mut tmp = Json::Null;
        std::mem::swap(self, &mut tmp);
        match tmp {
            Json::Obj(list) => {
                proof {
                    obj_tree(list);
                }
                let mut f = Fields { list };
                f.put(key, v);
                *self = f.done();
            },
            other => {
                *self = other;
            },
        }
    }

    /// Take a field out of an object.
    pub fn remove_field(&mut self, key: &str)
        ensures
            final(self)@ == old(self)@.without_field(key@),
    {
        let mut tmp = Json::Null;
        std::mem::swap(self, &mut tmp);
        match tmp {
            Json::Obj(list) => {
                proof {
                    obj_tree(list);
                }
                let mut f = Fields { list };
                let _ = f.remove(key);
                *self = f.done();
            },
            other => {
                *self = other;
            },
        }
    }
}

// ---------------------------------------------------------------- printing

/// The fields as a map holds them: a name that comes again keeps its place and
/// takes the later value. The first `n` fields.
pub open spec fn canonical_fields(m: Seq<(Seq<char>, Tree)>, n: nat) -> Seq<(Seq<char>, Tree)>
    decreases m, n,
{
    if n == 0 || n > m.len() {
        Seq::empty()
    } else {
        put(canonical_fields(m, (n - 1) as nat), m[n - 1].0, canonical(m[n - 1].1))
    }
}

/// A tree as `serde_json` holds it: no name twice in an object, and no whole
/// number under the negative ones that is not negative.
pub open spec fn canonical(t: Tree) -> Tree
    decreases t, 0nat,
{
    match t {
        Tree::Int(n) => if n < 0 { Tree::Int(n) } else { Tree::UInt(n as u64) },
        Tree::Arr(a) => Tree::Arr(
            Seq::new(a.len(), |i: int| if 0 <= i < a.len() { canonical(a[i]) } else { Tree::Null }),
        ),
        Tree::Obj(m) => Tree::Obj(canonical_fields(m, m.len())),
        _ => t,
    }
}

/// What `serde_json` prints a tree as.
pub uninterp spec fn json_text(t: Tree) -> Seq<char>;

/// The text of a document.
pub open spec fn rendered(t: Tree) -> Seq<char> {
    json_text(canonical(t))
}

/// The name that `serde_json` keeps for itself: an object that begins with it is
/// read as the document that stands as a text behind the name.
pub const RESERVED_NAME: &'static str = "$serde_json::private::RawValue";

/// No float in it, no object that begins with the reserved name, and no more than
/// `limit` arrays and objects inside each other.
pub open spec fn plain(t: Tree, limit: nat) -> bool
    decreases t,
{
    match t {
        Tree::Float(_) => false,
        Tree::Arr(a) => limit > 0 && forall|i: int|
            0 <= i < a.len() ==> #[trigger] plain(a[i], (limit - 1) as nat),
        Tree::Obj(m) => limit > 0 && (m.len() > 0 ==> m[0].0 != RESERVED_NAME@) && forall|i: int|
            0 <= i < m.len() ==> #[trigger] plain(m[i].1, (limit - 1) as nat),
        _ => true,
    }
}

proof fn later_fields_leave_the_front(m: Seq<(Seq<char>, Tree)>, x: (Seq<char>, Tree), n: nat)
    requires
        n <= m.len(),
    ensures
        canonical_fields(m.push(x), n) == canonical_fields(m, n),
    decreases n,
{
    if n > 0 {
        later_fields_leave_the_front(m, x, (n - 1) as nat);
    }
}

/// An object stays as it is read when it gets one field more, of a name of its own.
pub proof fn new_fields_stay(m: Seq<(Seq<char>, Tree)>, key: Seq<char>, v: Tree)
    requires
        canonical(Tree::Obj(m)) == Tree::Obj(m),
        canonical(v) == v,
        field(m, key) is None,
    ensures
        canonical(Tree::Obj(m.push((key, v)))) == Tree::Obj(m.push((key, v))),
{
    reveal(put);
    let n = m.push((key, v));
    later_fields_leave_the_front(m, (key, v), m.len());
    find_from_bounds(m, key, 0);
    assert(canonical_fields(n, n.len()) == put(m, key, v));
}

spec fn outside_fields(o: Seq<(String, serde_json::Value)>) -> Seq<(Seq<char>, Tree)> {
    Seq::new(o.len(), |i: int| (o[i].0@, outside_tree(o[i].1)))
}

/// Setting a field keeps every name single.
pub proof fn put_names_once(m: Seq<(Seq<char>, Tree)>, key: Seq<char>, v: Tree)
    requires
        named_once(m),
    ensures
        named_once(put(m, key, v)),
{
    reveal(put);
    find_from_bounds(m, key, 0);
}

/// `serde_json::Value`, put together: the value's tree is the one that the layer
/// stands for. `Map::from_iter` keeps the order of the fields; where no name
/// comes twice it keeps every one.
#[verifier::external_body]
fn close(l: Layer) -> (r: serde_json::Value)
    requires
        l is Obj ==> named_once(outside_fields(l->Obj_0@)),
        l is Int ==> l->Int_0 < 0,
    ensures
        outside_tree(r) == layer_tree(l),
{
    match l {
        Layer::Null => serde_json::Value::Null,
        Layer::Bool(b) => serde_json::Value::Bool(b),
        Layer::UInt(n) => serde_json::Value::from(n),
        Layer::Int(n) => serde_json::Value::from(n),
        Layer::Float(f) => serde_json::Value::Number(f.number),
        Layer::Str(s) => serde_json::Value::String(s),
        Layer::Arr(a) => serde_json::Value::Array(a),
        Layer::Obj(o) => serde_json::Value::Object(o.into_iter().collect()),
    }
}

/// The `serde_json` tree of a document.
pub fn to_outside(v: &Json) -> (r: serde_json::Value)
    ensures
        outside_tree(r) == canonical(v@),
    decreases v@,
{
    let layer = match v {
        Json::Null => Layer::Null,
        Json::Bool(b) => Layer::Bool(*b),
        Json::UInt(n) => Layer::UInt(*n),
        Json::Int(n) => if *n < 0 { Layer::Int(*n) } else { Layer::UInt(*n as u64) },
        Json::Float(f) => Layer::Float(f.clone()),
        Json::Str(s) => Layer::Str(s.clone()),
        Json::Arr(a) => {
            let mut out: Vec<serde_json::Value> = Vec::new();
            for i in 0..a.len()
                invariant
                    *v == Json::Arr(*a),
                    out@.len() == i,
                    forall|j: int| 0 <= j < i ==> outside_tree(#[trigger] out@[j]) == canonical(a@[j]@),
            {
                proof {
                    arr_tree(*a);
                    assert(v@->Arr_0[i as int] == a@[i as int]@);
                }
                let x = to_outside(&a[i]);
                out.push(x);
            }
            proof {
                arr_tree(*a);
                assert(layer_tree(Layer::Arr(out))->Arr_0 =~= canonical(v@)->Arr_0);
            }
            Layer::Arr(out)
        },
        Json::Obj(m) => {
            let mut out: Vec<(String, serde_json::Value)> = Vec::new();
            proof {
                obj_tree(*m);
                assert(outside_fields(out@) =~= Seq::empty());
            }
            for i in 0..m.len()
                invariant
                    *v == Json::Obj(*m),
                    v@ == Tree::Obj(views::of(m@)),
                    named_once(outside_fields(out@)),
                    outside_fields(out@) == canonical_fields(views::of(m@), i as nat),
            {
                assert(v@->Obj_0[i as int].1 == m@[i as int].1@);
                let x = to_outside(&m[i].1);
                let ghost before = out@;
                let ghost key = m@[i as int].0@;
                let mut at: usize = 0;
                while at < out.len() && !same(out[at].0.as_str(), m[i].0.as_str())
                    invariant
                        i < m@.len(),
                        key == m@[i as int].0@,
                        at <= out@.len(),
                        out@ == before,
                        find_from(outside_fields(before), key, 0) == find_from(outside_fields(before), key, at as int),
                    decreases out@.len() - at,
                {
                    at += 1;
                }
                if at < out.len() {
                    out.set(at, (m[i].0.clone(), x));
                } else {
                    out.push((m[i].0.clone(), x));
                }
                proof {
                    reveal(put);
                    put_names_once(outside_fields(before), key, outside_tree(x));
                    assert(outside_fields(out@) =~= put(outside_fields(before), key, outside_tree(x)));
                }
            }
            Layer::Obj(out)
        },
    };
    close(layer)
}

/// `serde_json::Value`'s `Display`: the text depends on the tree alone. Read
/// back, it gives the tree again, where that holds no float, no object that begins
/// with the reserved name and is not nested deeper than `serde_json` reads (its
/// recursion limit).
#[verifier::external_body]
fn print_outside(v: &serde_json::Value) -> (r: String)
    ensures
        r@ == json_text(outside_tree(*v)),
        plain(outside_tree(*v), 127) ==> (parsed(r@) is Ok && parsed(r@)->Ok_0 == outside_tree(*v)),
{
    v.to_string()
}

/// The text of a document. Read back, it gives the document again, where that
/// holds no float and no object that begins with the reserved name, and is not
/// nested too deep.
pub fn render(v: &Json) -> (r: String)
    ensures
        r@ == rendered(v@),
        plain(canonical(v@), 127) ==> parsed(r@) == Ok::<Tree, Seq<char>>(canonical(v@)),
{
    print_outside(&to_outside(v))
}

/// What `serde_json` reads bytes as.
pub open spec fn parsed_bytes(bytes: Seq<u8>) -> Option<Tree> {
    if valid_utf8(bytes) {
        match parsed(decode_utf8(bytes)) {
            Ok(t) => Some(t),
            Err(_) => None,
        }
    } else {
        None
    }
}

/// `serde_json::from_slice`: bytes that are UTF-8 read as their text does; others
/// are refused.
#[verifier::external_body]
fn parse_slice_outside(bytes: &[u8]) -> (r: Option<serde_json::Value>)
    ensures
        r is Some == parsed_bytes(bytes@) is Some,
        r is Some ==> parsed_bytes(bytes@) == Some(outside_tree(r->0)),
{
    serde_json::from_slice(bytes).ok()
}

/// Read a document from bytes.
pub fn parse_bytes(bytes: &[u8]) -> (r: Option<Json>)
    ensures
        views::opt(r) == parsed_bytes(bytes@),
{
    match parse_slice_outside(bytes) {
        Some(v) => Some(from_outside(v)),
        None => None,
    }
}

} // verus!
