//! JSON values.
//!
//! `serde_json` reads and writes JSON text; [`Json`] is the library's own tree,
//! which the rest of the library takes apart. `Json::parse`, `Json::compact` and
//! `Json::pretty` lead from one to the other.

use vstd::hash_set::StringHashSet;
use vstd::prelude::*;
use vstd::string::*;
use vstd::utf8::*;

use crate::text::{contains, same, trim};

verus! {

// ───────────────────────── the model ─────────────────────────

/// What a JSON value is, disregarding the order of an object's members.
pub enum JsonView {
    Null,
    Bool(bool),
    Number(serde_json::Number),
    Text(Seq<char>),
    Array(Seq<JsonView>),
    Object(Map<Seq<char>, JsonView>),
}

impl JsonView {
    /// The member `key` of an object.
    pub open spec fn get(self, key: Seq<char>) -> Option<JsonView> {
        match self {
            JsonView::Object(m) => if m.dom().contains(key) {
                Some(m[key])
            } else {
                None
            },
            _ => None,
        }
    }

    pub open spec fn as_text(self) -> Option<Seq<char>> {
        match self {
            JsonView::Text(s) => Some(s),
            _ => None,
        }
    }

    /// The member `key`, where it is a string.
    pub open spec fn get_text(self, key: Seq<char>) -> Option<Seq<char>> {
        match self.get(key) {
            Some(v) => v.as_text(),
            None => None,
        }
    }

    /// Containers are nested at most `depth` deep, no object has the member that the
    /// reader keeps for itself, and every number is a whole one from `i64::MIN` to
    /// `u64::MAX`.
    pub open spec fn plain(self, depth: nat) -> bool
        decreases depth,
    {
        match self {
            JsonView::Number(n) => number_as_u64(n) is Some || number_as_i64(n) is Some,
            JsonView::Array(items) => depth > 0 && forall|i: int|
                0 <= i < items.len() ==> (#[trigger] items[i]).plain((depth - 1) as nat),
            JsonView::Object(m) => depth > 0 && !m.dom().contains(RESERVED@) && forall|k: Seq<char>|
                m.dom().contains(k) ==> (#[trigger] m[k]).plain((depth - 1) as nat),
            _ => true,
        }
    }
}

/// The member that `serde_json` keeps for its raw values. An object in which it comes
/// first is read as what that member's text says.
pub const RESERVED: &'static str = "$serde_json::private::RawValue";

// ───────────────────────── the reader's limits ─────────────────────────

/// Where a reader stands in a JSON text.
pub struct Lexed {
    /// How many brackets are open.
    pub depth: nat,
    /// How many were open at most.
    pub most: nat,
    /// Inside a string.
    pub quoted: bool,
    /// Behind a backslash in a string.
    pub escaped: bool,
}

pub open spec fn lexed(text: Seq<char>) -> Lexed
    decreases text.len(),
{
    if text.len() == 0 {
        Lexed { depth: 0, most: 0, quoted: false, escaped: false }
    } else {
        let at = lexed(text.drop_last());
        let c = text.last();
        if at.quoted {
            Lexed {
                quoted: at.escaped || c != '"',
                escaped: !at.escaped && c == '\\',
                ..at
            }
        } else if c == '"' {
            Lexed { quoted: true, ..at }
        } else if c == '[' || c == '{' {
            Lexed {
                depth: at.depth + 1,
                most: if at.depth + 1 > at.most {
                    at.depth + 1
                } else {
                    at.most
                },
                ..at
            }
        } else if (c == ']' || c == '}') && at.depth > 0 {
            Lexed { depth: (at.depth - 1) as nat, ..at }
        } else {
            at
        }
    }
}

/// A JSON text keeps to what the reader takes: its brackets are nested at most 127
/// deep, and the reserved name stands nowhere in it.
pub open spec fn within_reach(text: Seq<char>) -> bool {
    lexed(text).most <= 127 && !contains(text, RESERVED@)
}

// ───────────────────────── the order of names ─────────────────────────

/// `a` comes before `b`, byte by byte.
pub open spec fn bytes_before(a: Seq<u8>, b: Seq<u8>) -> bool
    decreases a.len(),
{
    b.len() > 0 && (a.len() == 0 || a[0] < b[0] || (a[0] == b[0] && bytes_before(
        a.drop_first(),
        b.drop_first(),
    )))
}

/// Names in the order of their bytes, none of them twice.
pub open spec fn in_order(names: Seq<Seq<char>>) -> bool {
    forall|i: int, j: int|
        #![trigger names[i], names[j]]
        0 <= i < j < names.len() ==> bytes_before(encode_utf8(names[i]), encode_utf8(names[j]))
}

proof fn lemma_not_both_before(a: Seq<u8>, b: Seq<u8>)
    ensures
        !(bytes_before(a, b) && bytes_before(b, a)),
    decreases a.len(),
{
    if a.len() > 0 && b.len() > 0 {
        lemma_not_both_before(a.drop_first(), b.drop_first());
    }
}

/// Two lists of the same names in order are one list.
proof fn lemma_one_order(s: Seq<Seq<char>>, t: Seq<Seq<char>>)
    requires
        in_order(s),
        in_order(t),
        forall|k: Seq<char>| s.contains(k) <==> #[trigger] t.contains(k),
    ensures
        s == t,
    decreases s.len(),
{
    if s.len() == 0 {
        if t.len() > 0 {
            assert(t.contains(t[0]));
            assert(s.contains(t[0]));
        }
        assert(s =~= t);
    } else {
        assert(s.contains(s[0]));
        assert(t.contains(s[0]));
        let j = t.index_of(s[0]);
        assert(t.contains(t[0]));
        assert(s.contains(t[0]));
        let i = s.index_of(t[0]);
        if j > 0 {
            assert(bytes_before(encode_utf8(t[0]), encode_utf8(t[j])));
            lemma_not_both_before(encode_utf8(t[0]), encode_utf8(s[0]));
            if i > 0 {
                assert(bytes_before(encode_utf8(s[0]), encode_utf8(s[i])));
            }
        }
        assert(s[0] == t[0]);
        let a = s.drop_first();
        let b = t.drop_first();
        assert forall|x: int, y: int|
            #![trigger a[x], a[y]]
            0 <= x < y < a.len() implies bytes_before(encode_utf8(a[x]), encode_utf8(a[y])) by {
            assert(bytes_before(encode_utf8(s[x + 1]), encode_utf8(s[y + 1])));
        }
        assert forall|x: int, y: int|
            #![trigger b[x], b[y]]
            0 <= x < y < b.len() implies bytes_before(encode_utf8(b[x]), encode_utf8(b[y])) by {
            assert(bytes_before(encode_utf8(t[x + 1]), encode_utf8(t[y + 1])));
        }
        assert forall|k: Seq<char>| a.contains(k) <==> #[trigger] b.contains(k) by {
            lemma_not_both_before(encode_utf8(k), encode_utf8(k));
            if a.contains(k) {
                let x = a.index_of(k);
                assert(s[x + 1] == k);
                assert(bytes_before(encode_utf8(s[0]), encode_utf8(s[x + 1])));
                assert(s.contains(k));
                assert(t.contains(k));
                let y = t.index_of(k);
                assert(y > 0);
                assert(b[y - 1] == k);
            }
            if b.contains(k) {
                let x = b.index_of(k);
                assert(t[x + 1] == k);
                assert(bytes_before(encode_utf8(t[0]), encode_utf8(t[x + 1])));
                assert(t.contains(k));
                assert(s.contains(k));
                let y = s.index_of(k);
                assert(y > 0);
                assert(a[y - 1] == k);
            }
        }
        lemma_one_order(a, b);
        assert(s =~= seq![s[0]] + a);
        assert(t =~= seq![t[0]] + b);
    }
}

// ───────────────────────── serde_json ─────────────────────────

/// `serde_json::Value`.
#[verifier::external_type_specification]
#[verifier::external_body]
pub struct ExValue(serde_json::Value);

/// `serde_json::Number`.
#[verifier::external_type_specification]
#[verifier::external_body]
pub struct ExNumber(serde_json::Number);

/// The tree that a `serde_json::Value` holds.
pub uninterp spec fn value_view(v: serde_json::Value) -> JsonView;

/// What `serde_json::from_str` makes of a text: the tree, or the error's message.
pub uninterp spec fn json_parse(text: Seq<char>) -> Result<JsonView, Seq<char>>;

/// What `serde_json::from_slice` makes of bytes: the tree, or the error's message.
pub uninterp spec fn json_parse_bytes(bytes: Seq<u8>) -> Result<JsonView, Seq<char>>;

/// What `serde_json::Value::to_string` writes for a tree.
pub uninterp spec fn json_text(v: JsonView) -> Seq<char>;

/// What `serde_json::to_string_pretty` writes for a tree.
pub uninterp spec fn json_pretty(v: JsonView) -> Seq<char>;

/// What `serde_json::Number::as_u64` gives for a number.
pub uninterp spec fn number_as_u64(n: serde_json::Number) -> Option<u64>;

/// What `serde_json::Number::as_i64` gives for a number.
pub uninterp spec fn number_as_i64(n: serde_json::Number) -> Option<i64>;

/// What `serde_json::Number::from` makes of a `u64`.
pub uninterp spec fn number_of(n: u64) -> serde_json::Number;

/// The text is JSON for the tree `v`.
pub open spec fn reads_as(text: Seq<char>, v: JsonView) -> bool {
    json_parse(text) == Ok::<JsonView, Seq<char>>(v)
}

/// One level of a `serde_json::Value`.
pub enum Opened {
    Null,
    Bool(bool),
    Number(serde_json::Number),
    Text(String),
    Array(Vec<serde_json::Value>),
    Object(Vec<(String, serde_json::Value)>),
}

/// The members of an object, a later one replacing an earlier one of the same name.
pub open spec fn value_members(list: Seq<(String, serde_json::Value)>) -> Map<Seq<char>, JsonView>
    decreases list.len(),
{
    if list.len() == 0 {
        Map::empty()
    } else {
        value_members(list.drop_last()).insert(list.last().0@, value_view(list.last().1))
    }
}

impl Opened {
    pub open spec fn model(self) -> JsonView {
        match self {
            Opened::Null => JsonView::Null,
            Opened::Bool(b) => JsonView::Bool(b),
            Opened::Number(n) => JsonView::Number(n),
            Opened::Text(s) => JsonView::Text(s@),
            Opened::Array(items) => JsonView::Array(
                items@.map_values(|v: serde_json::Value| value_view(v)),
            ),
            Opened::Object(list) => JsonView::Object(value_members(list@)),
        }
    }
}

/// `serde_json::from_str` into a `Value`. The claim: its outcome depends on the
/// text alone.
#[verifier::external_body]
fn parse_value(text: &str) -> (r: Result<serde_json::Value, String>)
    ensures
        match json_parse(text@) {
            Ok(tree) => r matches Ok(v) && value_view(v) == tree,
            Err(message) => r matches Err(e) && e@ == message,
        },
{
    match serde_json::from_str::<serde_json::Value>(text) {
        Ok(v) => Ok(v),
        Err(e) => Err(e.to_string()),
    }
}

/// `serde_json::from_slice` into a `Value`. The claim: its outcome depends on the
/// bytes alone.
#[verifier::external_body]
fn parse_slice(bytes: &[u8]) -> (r: Result<serde_json::Value, String>)
    ensures
        match json_parse_bytes(bytes@) {
            Ok(tree) => r matches Ok(v) && value_view(v) == tree,
            Err(message) => r matches Err(e) && e@ == message,
        },
{
    match serde_json::from_slice::<serde_json::Value>(bytes) {
        Ok(v) => Ok(v),
        Err(e) => Err(e.to_string()),
    }
}

/// The names of a list of members.
pub open spec fn value_names(list: Seq<(String, serde_json::Value)>) -> Seq<Seq<char>> {
    list.map_values(|e: (String, serde_json::Value)| e.0@)
}

/// No two members have one name.
pub open spec fn distinct(list: Seq<(String, serde_json::Value)>) -> bool {
    forall|i: int, j: int| 0 <= i < j < list.len() ==> list[i].0@ != list[j].0@
}

/// The variants of `serde_json::Value`, taken apart. The claim: the parts make up
/// the value; an object has no two members of one name, and gives its members in the
/// order of their names' bytes, which is the order of the map that holds them.
#[verifier::external_body]
fn open_value(v: serde_json::Value) -> (r: Opened)
    ensures
        r.model() == value_view(v),
        r matches Opened::Object(list) ==> distinct(list@) && in_order(value_names(list@)),
{
    match v {
        serde_json::Value::Null => Opened::Null,
        serde_json::Value::Bool(b) => Opened::Bool(b),
        serde_json::Value::Number(n) => Opened::Number(n),
        serde_json::Value::String(s) => Opened::Text(s),
        serde_json::Value::Array(a) => Opened::Array(a),
        serde_json::Value::Object(m) => Opened::Object(m.into_iter().collect()),
    }
}

/// The variants of `serde_json::Value`, put together. The claim: the value is made
/// up of the parts. Nothing is said of an object with two members of one name.
#[verifier::external_body]
fn close_value(parts: Opened) -> (r: serde_json::Value)
    requires
        parts matches Opened::Object(list) ==> distinct(list@),
    ensures
        value_view(r) == parts.model(),
{
    match parts {
        Opened::Null => serde_json::Value::Null,
        Opened::Bool(b) => serde_json::Value::Bool(b),
        Opened::Number(n) => serde_json::Value::Number(n),
        Opened::Text(s) => serde_json::Value::String(s),
        Opened::Array(a) => serde_json::Value::Array(a),
        Opened::Object(m) => serde_json::Value::Object(m.into_iter().collect()),
    }
}

/// `serde_json::Value::to_string`. The claims: what it writes depends on the tree
/// alone; it neither begins nor ends with white space; for an empty object it is `{}`;
/// it is JSON, so it can be read within the reader's limits (127 levels, no reserved
/// member); and a tree within those limits is read back as it was where its numbers
/// are whole.
#[verifier::external_body]
fn print_value(v: &serde_json::Value) -> (r: String)
    ensures
        r@ == json_text(value_view(*v)),
        trim(r@) == r@,
        value_view(*v) == JsonView::Object(Map::empty()) ==> r@ == "{}"@,
        within_reach(r@) ==> json_parse(r@) is Ok,
        value_view(*v).plain(127) ==> reads_as(r@, value_view(*v)),
{
    v.to_string()
}

/// `serde_json::to_string_pretty` of a `Value`. The claim: what it writes depends
/// on the tree alone.
#[verifier::external_body]
fn pretty_value(v: &serde_json::Value) -> (r: String)
    ensures
        r@ == json_pretty(value_view(*v)),
{
    serde_json::to_string_pretty(v).unwrap_or_else(|_| v.to_string())
}

/// `serde_json::Number::as_u64`. The claim: the answer depends on the number alone.
#[verifier::external_body]
fn number_u64(n: &serde_json::Number) -> (r: Option<u64>)
    ensures
        r == number_as_u64(*n),
{
    n.as_u64()
}

/// `serde_json::Number::as_i64`. The claim: the answer depends on the number alone.
#[verifier::external_body]
fn number_i64(n: &serde_json::Number) -> (r: Option<i64>)
    ensures
        r == number_as_i64(*n),
{
    n.as_i64()
}

/// `serde_json::Number::from` for a `u64`. The claims: the number depends on the
/// argument alone, and `as_u64` gives it back.
#[verifier::external_body]
fn number_from(n: u64) -> (r: serde_json::Number)
    ensures
        r == number_of(n),
        number_as_u64(r) == Some(n),
{
    serde_json::Number::from(n)
}

/// `serde_json::Number::clone`. The claim: the copy is the number.
#[verifier::external_body]
fn number_copy(n: &serde_json::Number) -> (r: serde_json::Number)
    ensures
        r == *n,
{
    n.clone()
}

// ───────────────────────── the library's tree ─────────────────────────

/// A JSON value. Of two members of one name in an object the later one counts.
#[derive(Debug)]
pub enum Json {
    Null,
    Bool(bool),
    Number(serde_json::Number),
    Text(String),
    Array(Vec<Json>),
    Object(Vec<(String, Json)>),
}

pub open spec fn json_view(j: Json) -> JsonView
    decreases j,
{
    match j {
        Json::Null => JsonView::Null,
        Json::Bool(b) => JsonView::Bool(b),
        Json::Number(n) => JsonView::Number(n),
        Json::Text(s) => JsonView::Text(s@),
        Json::Array(items) => JsonView::Array(json_views(items@)),
        Json::Object(list) => JsonView::Object(json_members(list@)),
    }
}

pub open spec fn json_views(items: Seq<Json>) -> Seq<JsonView>
    decreases items,
{
    if items.len() == 0 {
        Seq::empty()
    } else {
        json_views(items.drop_last()).push(json_view(items.last()))
    }
}

/// The members of an object, a later one replacing an earlier one of the same name.
pub open spec fn json_members(list: Seq<(String, Json)>) -> Map<Seq<char>, JsonView>
    decreases list,
{
    if list.len() == 0 {
        Map::empty()
    } else {
        json_members(list.drop_last()).insert(list.last().0@, json_view(list.last().1))
    }
}

impl View for Json {
    type V = JsonView;

    open spec fn view(&self) -> JsonView {
        json_view(*self)
    }
}

pub proof fn lemma_json_views(items: Seq<Json>)
    ensures
        json_views(items).len() == items.len(),
        forall|i: int| 0 <= i < items.len() ==> #[trigger] json_views(items)[i] == json_view(items[i]),
    decreases items.len(),
{
    if items.len() > 0 {
        lemma_json_views(items.drop_last());
    }
}

pub proof fn lemma_json_push(list: Seq<(String, Json)>, key: String, value: Json)
    ensures
        json_members(list.push((key, value))) == json_members(list).insert(
            key@,
            json_view(value),
        ),
{
    assert(list.push((key, value)).drop_last() =~= list);
}

/// Looking a member up means looking at the last entry of that name.
pub proof fn lemma_json_member(list: Seq<(String, Json)>, i: int)
    requires
        0 <= i < list.len(),
        forall|j: int| i < j < list.len() ==> (#[trigger] list[j]).0@ != list[i].0@,
    ensures
        json_members(list).dom().contains(list[i].0@),
        json_members(list)[list[i].0@] == json_view(list[i].1),
    decreases list.len(),
{
    if i < list.len() - 1 {
        let front = list.drop_last();
        assert forall|j: int| i < j < front.len() implies (#[trigger] front[j]).0@ != front[i].0@ by {
            assert(front[j] == list[j]);
        }
        lemma_json_member(front, i);
        assert(list.last() == list[list.len() - 1]);
    }
}

pub proof fn lemma_json_no_member(list: Seq<(String, Json)>, key: Seq<char>)
    requires
        forall|j: int| 0 <= j < list.len() ==> (#[trigger] list[j]).0@ != key,
    ensures
        !json_members(list).dom().contains(key),
    decreases list.len(),
{
    if list.len() > 0 {
        let front = list.drop_last();
        assert forall|j: int| 0 <= j < front.len() implies (#[trigger] front[j]).0@ != key by {
            assert(front[j] == list[j]);
        }
        lemma_json_no_member(front, key);
        assert(list.last() == list[list.len() - 1]);
    }
}

proof fn lemma_value_member(list: Seq<(String, serde_json::Value)>, i: int)
    requires
        0 <= i < list.len(),
        forall|a: int, b: int| 0 <= a < b < list.len() ==> list[a].0@ != list[b].0@,
    ensures
        value_members(list).dom().contains(list[i].0@),
        value_members(list)[list[i].0@] == value_view(list[i].1),
    decreases list.len(),
{
    if i < list.len() - 1 {
        let front = list.drop_last();
        assert(front[i] == list[i]);
        lemma_value_member(front, i);
        assert(list[i].0@ != list[list.len() - 1].0@);
    }
}

proof fn lemma_value_members_finite(list: Seq<(String, serde_json::Value)>)
    ensures
        value_members(list).dom().finite(),
    decreases list.len(),
{
    if list.len() > 0 {
        lemma_value_members_finite(list.drop_last());
    }
}

/// The names of an object's members, as they stand.
pub open spec fn keys_of(j: Json) -> Seq<Seq<char>> {
    match j {
        Json::Object(list) => list@.map_values(|e: (String, Json)| e.0@),
        _ => seq![],
    }
}

proof fn lemma_keys_are_members(list: Seq<(String, Json)>, k: Seq<char>)
    ensures
        json_members(list).dom().contains(k) <==> list.map_values(
            |e: (String, Json)| e.0@,
        ).contains(k),
    decreases list.len(),
{
    let keys = list.map_values(|e: (String, Json)| e.0@);
    if list.len() > 0 {
        let front = list.drop_last();
        let front_keys = front.map_values(|e: (String, Json)| e.0@);
        lemma_keys_are_members(front, k);
        if front_keys.contains(k) {
            let i = front_keys.index_of(k);
            assert(keys[i] == k);
        }
        if keys.contains(k) {
            let i = keys.index_of(k);
            if i < front.len() {
                assert(front_keys[i] == k);
            }
        }
        assert(keys[list.len() - 1] == list.last().0@);
    }
}

/// Of a tree whose names are in order, the names follow from what the tree is.
pub proof fn law_names_are_fixed(a: Json, b: Json)
    requires
        in_order(keys_of(a)),
        in_order(keys_of(b)),
        a@ == b@,
    ensures
        keys_of(a) == keys_of(b),
{
    match (a, b) {
        (Json::Object(x), Json::Object(y)) => {
            assert forall|k: Seq<char>| keys_of(a).contains(k) <==> #[trigger] keys_of(b).contains(
                k,
            ) by {
                lemma_keys_are_members(x@, k);
                lemma_keys_are_members(y@, k);
            }
            lemma_one_order(keys_of(a), keys_of(b));
        },
        _ => {},
    }
}

/// The library's tree for a `serde_json` value.
pub fn from_value(v: serde_json::Value) -> (r: Json)
    ensures
        r@ == value_view(v),
        in_order(keys_of(r)),
    decreases value_view(v),
{
    let ghost whole = value_view(v);
    match open_value(v) {
        Opened::Null => Json::Null,
        Opened::Bool(b) => Json::Bool(b),
        Opened::Number(n) => Json::Number(n),
        Opened::Text(s) => Json::Text(s),
        Opened::Array(items) => {
            let ghost all = items@;
            let ghost trees = all.map_values(|v: serde_json::Value| value_view(v));
            let mut out: Vec<Json> = Vec::new();
            for item in it: items
                invariant
                    it.seq() == all,
                    trees == all.map_values(|v: serde_json::Value| value_view(v)),
                    whole == JsonView::Array(trees),
                    whole == value_view(v),
                    out@.len() == it.index(),
                    json_views(out@) == trees.take(it.index()),
            {
                assert(value_view(item) == trees[it.index()]);
                assert(decreases_to!(trees => trees[it.index()]));
                assert(decreases_to!(whole => whole->Array_0));
                let next = from_value(item);
                let ghost before = out@;
                out.push(next);
                assert(out@.drop_last() =~= before);
                assert(json_views(out@) =~= trees.take(it.index() + 1));
            }
            assert(trees.take(trees.len() as int) =~= trees);
            Json::Array(out)
        },
        Opened::Object(list) => {
            let ghost all = list@;
            let mut out: Vec<(String, Json)> = Vec::new();
            proof {
                assert(all.take(0) =~= Seq::<(String, serde_json::Value)>::empty());
            }
            for entry in it: list
                invariant
                    it.seq() == all,
                    whole == JsonView::Object(value_members(all)),
                    whole == value_view(v),
                    forall|a: int, b: int| 0 <= a < b < all.len() ==> all[a].0@ != all[b].0@,
                    out@.len() == it.index(),
                    json_members(out@) == value_members(all.take(it.index())),
                    forall|k: int| 0 <= k < out@.len() ==> (#[trigger] out@[k]).0 == all[k].0,
                    in_order(value_names(all)),
            {
                proof {
                    lemma_value_member(all, it.index());
                    lemma_value_members_finite(all);
                    let m = value_members(all);
                    assert(decreases_to!(m => m[entry.0@]));
                    assert(decreases_to!(whole => whole->Object_0));
                }
                let next = from_value(entry.1);
                let ghost before = out@;
                out.push((entry.0, next));
                assert(out@.drop_last() =~= before);
                assert(all.take(it.index() + 1).drop_last() =~= all.take(it.index()));
            }
            assert(all.take(all.len() as int) =~= all);
            assert(out@.map_values(|e: (String, Json)| e.0@) =~= value_names(all));
            Json::Object(out)
        },
    }
}

/// A member before all others counts unless there is a later one of its name.
proof fn lemma_members_front(first: (String, Json), rest: Seq<(String, Json)>)
    ensures
        json_members(seq![first] + rest) == (if json_members(rest).dom().contains(first.0@) {
            json_members(rest)
        } else {
            json_members(rest).insert(first.0@, json_view(first.1))
        }),
    decreases rest.len(),
{
    let all = seq![first] + rest;
    if rest.len() == 0 {
        assert(all.drop_last() =~= seq![]);
        assert(all.last() == first);
        assert(json_members(all.drop_last()) =~= Map::empty());
    } else {
        let front = rest.drop_last();
        lemma_members_front(first, front);
        assert(all.drop_last() =~= seq![first] + front);
        assert(all.last() == rest.last());
        assert(json_members(all) =~= (if json_members(rest).dom().contains(first.0@) {
            json_members(rest)
        } else {
            json_members(rest).insert(first.0@, json_view(first.1))
        }));
    }
}

/// The `serde_json` value of a tree of the library.
pub fn to_value(j: &Json) -> (r: serde_json::Value)
    ensures
        value_view(r) == j@,
    decreases *j,
{
    match j {
        Json::Null => close_value(Opened::Null),
        Json::Bool(b) => close_value(Opened::Bool(*b)),
        Json::Number(n) => close_value(Opened::Number(number_copy(n))),
        Json::Text(s) => close_value(Opened::Text(s.clone())),
        Json::Array(items) => {
            let mut out: Vec<serde_json::Value> = Vec::new();
            let mut i: usize = 0;
            while i < items.len()
                invariant
                    i <= items@.len(),
                    *j == Json::Array(*items),
                    out@.len() == i,
                    forall|k: int| 0 <= k < i ==> value_view(#[trigger] out@[k]) == json_view(items@[k]),
                decreases items@.len() - i,
            {
                assert(decreases_to!(items => items[i as int]));
                assert(decreases_to!(*j => j->Array_0));
                out.push(to_value(&items[i]));
                i += 1;
            }
            proof {
                lemma_json_views(items@);
                assert(out@.map_values(|v: serde_json::Value| value_view(v)) =~= json_views(items@));
            }
            close_value(Opened::Array(out))
        },
        Json::Object(list) => {
            // From the end, so that of two members of one name the later one is met first.
            let mut out: Vec<(String, serde_json::Value)> = Vec::new();
            let mut seen = StringHashSet::new();
            let mut i: usize = list.len();
            proof {
                assert(list@.skip(i as int) =~= Seq::<(String, Json)>::empty());
                assert(value_members(out@) =~= json_members(list@.skip(i as int)));
                assert(seen@ =~= value_members(out@).dom());
            }
            while i > 0
                invariant
                    i <= list@.len(),
                    *j == Json::Object(*list),
                    value_members(out@) == json_members(list@.skip(i as int)),
                    seen@ == value_members(out@).dom(),
                    distinct(out@),
                decreases i,
            {
                let ghost rest = list@.skip(i as int);
                i -= 1;
                proof {
                    assert(list@.skip(i as int) =~= seq![list@[i as int]] + rest);
                    lemma_members_front(list@[i as int], rest);
                }
                if !seen.contains(list[i].0.as_str()) {
                    assert(decreases_to!(list => list[i as int]));
                    assert(decreases_to!(list[i as int] => list[i as int].1));
                    assert(decreases_to!(*j => j->Object_0));
                    let next = to_value(&list[i].1);
                    let ghost before = out@;
                    seen.insert(list[i].0.clone());
                    out.push((list[i].0.clone(), next));
                    proof {
                        assert(out@.drop_last() =~= before);
                        assert forall|a: int, b: int| 0 <= a < b < out@.len() implies out@[a].0@
                            != out@[b].0@ by {
                            if b == before.len() {
                                lemma_value_member(before, a);
                            }
                        }
                        assert(seen@ =~= value_members(out@).dom());
                    }
                }
            }
            assert(list@.skip(0) =~= list@);
            close_value(Opened::Object(out))
        },
    }
}

/// An object with one member.
pub open spec fn object1(a: Seq<char>, x: JsonView) -> JsonView {
    JsonView::Object(Map::empty().insert(a, x))
}

pub open spec fn object2(a: Seq<char>, x: JsonView, b: Seq<char>, y: JsonView) -> JsonView {
    JsonView::Object(Map::empty().insert(a, x).insert(b, y))
}

pub open spec fn object3(
    a: Seq<char>,
    x: JsonView,
    b: Seq<char>,
    y: JsonView,
    c: Seq<char>,
    z: JsonView,
) -> JsonView {
    JsonView::Object(Map::empty().insert(a, x).insert(b, y).insert(c, z))
}

impl Json {
    /// A whole number.
    pub fn number(n: u64) -> (r: Json)
        ensures
            r@ == JsonView::Number(number_of(n)),
            number_as_u64(number_of(n)) == Some(n),
    {
        Json::Number(number_from(n))
    }

    /// A string.
    pub fn text(s: &str) -> (r: Json)
        ensures
            r@ == JsonView::Text(s@),
    {
        Json::Text(s.to_owned())
    }

    /// An object with one member.
    pub fn object1(a: &str, x: Json) -> (r: Json)
        ensures
            r@ == object1(a@, x@),
    {
        let mut list: Vec<(String, Json)> = Vec::new();
        assert(json_members(list@) =~= Map::empty());
        let key = a.to_owned();
        proof {
            lemma_json_push(list@, key, x);
        }
        list.push((key, x));
        Json::Object(list)
    }

    /// An object with two members.
    pub fn object2(a: &str, x: Json, b: &str, y: Json) -> (r: Json)
        ensures
            r@ == object2(a@, x@, b@, y@),
    {
        let mut list: Vec<(String, Json)> = Vec::new();
        assert(json_members(list@) =~= Map::empty());
        let key = a.to_owned();
        proof {
            lemma_json_push(list@, key, x);
        }
        list.push((key, x));
        let key = b.to_owned();
        proof {
            lemma_json_push(list@, key, y);
        }
        list.push((key, y));
        Json::Object(list)
    }

    /// An object with three members.
    pub fn object3(a: &str, x: Json, b: &str, y: Json, c: &str, z: Json) -> (r: Json)
        ensures
            r@ == object3(a@, x@, b@, y@, c@, z@),
    {
        let mut list: Vec<(String, Json)> = Vec::new();
        assert(json_members(list@) =~= Map::empty());
        let key = a.to_owned();
        proof {
            lemma_json_push(list@, key, x);
        }
        list.push((key, x));
        let key = b.to_owned();
        proof {
            lemma_json_push(list@, key, y);
        }
        list.push((key, y));
        let key = c.to_owned();
        proof {
            lemma_json_push(list@, key, z);
        }
        list.push((key, z));
        Json::Object(list)
    }

    /// Reads a JSON text; the error is the reader's message.
    pub fn parse(text: &str) -> (r: Result<Json, String>)
        ensures
            match json_parse(text@) {
                Ok(tree) => r matches Ok(j) && j@ == tree && in_order(keys_of(j)),
                Err(message) => r matches Err(e) && e@ == message,
            },
    {
        match parse_value(text) {
            Ok(v) => Ok(from_value(v)),
            Err(e) => Err(e),
        }
    }

    /// Reads JSON bytes; the error is the reader's message.
    pub fn parse_bytes(bytes: &[u8]) -> (r: Result<Json, String>)
        ensures
            match json_parse_bytes(bytes@) {
                Ok(tree) => r matches Ok(j) && j@ == tree && in_order(keys_of(j)),
                Err(message) => r matches Err(e) && e@ == message,
            },
    {
        match parse_slice(bytes) {
            Ok(v) => Ok(from_value(v)),
            Err(e) => Err(e),
        }
    }

    /// Compact JSON text.
    pub fn compact(&self) -> (r: String)
        ensures
            r@ == json_text(self@),
            trim(r@) == r@,
            self@ == JsonView::Object(Map::empty()) ==> r@ == "{}"@,
            within_reach(r@) ==> json_parse(r@) is Ok,
            self@.plain(127) ==> reads_as(r@, self@),
    {
        print_value(&to_value(self))
    }

    /// Indented JSON text.
    pub fn pretty(&self) -> (r: String)
        ensures
            r@ == json_pretty(self@),
    {
        pretty_value(&to_value(self))
    }

    /// The member `key` of an object.
    pub fn get(&self, key: &str) -> (r: Option<&Json>)
        ensures
            match r {
                Some(j) => self@.get(key@) == Some(j@),
                None => self@.get(key@) is None,
            },
    {
        match self {
            Json::Object(list) => {
                let mut i: usize = list.len();
                while i > 0
                    invariant
                        i <= list@.len(),
                        *self == Json::Object(*list),
                        forall|k: int| i <= k < list@.len() ==> (#[trigger] list@[k]).0@ != key@,
                    decreases i,
                {
                    i -= 1;
                    if same(list[i].0.as_str(), key) {
                        proof {
                            lemma_json_member(list@, i as int);
                        }
                        return Some(&list[i].1);
                    }
                }
                proof {
                    lemma_json_no_member(list@, key@);
                }
                None
            },
            _ => None,
        }
    }

    pub fn as_text(&self) -> (r: Option<&str>)
        ensures
            match r {
                Some(s) => self@.as_text() == Some(s@),
                None => self@.as_text() is None,
            },
    {
        match self {
            Json::Text(s) => Some(s.as_str()),
            _ => None,
        }
    }

    /// The member `key`, where it is a string.
    pub fn get_text(&self, key: &str) -> (r: Option<&str>)
        ensures
            match r {
                Some(s) => self@.get_text(key@) == Some(s@),
                None => self@.get_text(key@) is None,
            },
    {
        match self.get(key) {
            Some(j) => j.as_text(),
            None => None,
        }
    }

    /// The number, where it is a whole one from 0 to `u64::MAX`.
    pub fn as_u64(&self) -> (r: Option<u64>)
        ensures
            r == match self@ {
                JsonView::Number(n) => number_as_u64(n),
                _ => None,
            },
    {
        match self {
            Json::Number(n) => number_u64(n),
            _ => None,
        }
    }

    /// The number, where it is a whole one from `i64::MIN` to `i64::MAX`.
    pub fn as_i64(&self) -> (r: Option<i64>)
        ensures
            r == match self@ {
                JsonView::Number(n) => number_as_i64(n),
                _ => None,
            },
    {
        match self {
            Json::Number(n) => number_i64(n),
            _ => None,
        }
    }

    /// A copy of the tree.
    pub fn copy(&self) -> (r: Json)
        ensures
            r@ == self@,
        decreases *self,
    {
        match self {
            Json::Null => Json::Null,
            Json::Bool(b) => Json::Bool(*b),
            Json::Number(n) => Json::Number(number_copy(n)),
            Json::Text(s) => Json::Text(s.clone()),
            Json::Array(items) => {
                let mut out: Vec<Json> = Vec::new();
                let mut i: usize = 0;
                while i < items.len()
                    invariant
                        i <= items@.len(),
                        *self == Json::Array(*items),
                        out@.len() == i,
                        forall|k: int| 0 <= k < i ==> json_view(#[trigger] out@[k]) == json_view(items@[k]),
                    decreases items@.len() - i,
                {
                    assert(decreases_to!(items => items[i as int]));
                    assert(decreases_to!(*self => self->Array_0));
                    out.push(items[i].copy());
                    i += 1;
                }
                proof {
                    lemma_json_views(items@);
                    lemma_json_views(out@);
                    assert(json_views(out@) =~= json_views(items@));
                }
                Json::Array(out)
            },
            Json::Object(list) => {
                let mut out: Vec<(String, Json)> = Vec::new();
                let mut i: usize = 0;
                proof {
                    assert(list@.take(0) =~= Seq::<(String, Json)>::empty());
                }
                while i < list.len()
                    invariant
                        i <= list@.len(),
                        *self == Json::Object(*list),
                        json_members(out@) == json_members(list@.take(i as int)),
                    decreases list@.len() - i,
                {
                    assert(decreases_to!(list => list[i as int]));
                    assert(decreases_to!(list[i as int] => list[i as int].1));
                    assert(decreases_to!(*self => self->Object_0));
                    let next = list[i].1.copy();
                    let ghost before = out@;
                    out.push((list[i].0.clone(), next));
                    proof {
                        assert(out@.drop_last() =~= before);
                        assert(list@.take(i + 1).drop_last() =~= list@.take(i as int));
                    }
                    i += 1;
                }
                assert(list@.take(list@.len() as int) =~= list@);
                Json::Object(out)
            },
        }
    }
}

} // verus!
