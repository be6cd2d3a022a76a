//! Reading records out of JSON: a record is an object, whose members may go by more
//! than one name, or an array, whose items stand for the fields in order.

use vstd::prelude::*;
use vstd::string::*;

use crate::json::{lemma_json_views, number_as_u64, Json, JsonView};
use crate::openai::opt_text;

verus! {

/// A field of a record.
pub enum FieldView {
    Absent,
    Present(JsonView),
    /// It is there under two names.
    Twice,
}

pub enum Field<'a> {
    Absent,
    Present(&'a Json),
    Twice,
}

impl<'a> Field<'a> {
    pub open spec fn model(self) -> FieldView {
        match self {
            Field::Absent => FieldView::Absent,
            Field::Present(j) => FieldView::Present(j@),
            Field::Twice => FieldView::Twice,
        }
    }
}

/// A value that can be read as a record of `width` fields.
pub open spec fn record(v: JsonView, width: nat) -> bool {
    match v {
        JsonView::Object(_) => true,
        JsonView::Array(items) => items.len() <= width,
        _ => false,
    }
}

pub fn is_record(v: &Json, width: usize) -> (r: bool)
    ensures
        r == record(v@, width as nat),
{
    match v {
        Json::Object(_) => true,
        Json::Array(items) => {
            proof {
                lemma_json_views(items@);
            }
            items.len() <= width
        },
        _ => false,
    }
}

/// The field under one name.
pub open spec fn field(v: JsonView, at: nat, name: Seq<char>) -> FieldView {
    match v {
        JsonView::Array(items) => if at < items.len() {
            FieldView::Present(items[at as int])
        } else {
            FieldView::Absent
        },
        _ => match v.get(name) {
            Some(x) => FieldView::Present(x),
            None => FieldView::Absent,
        },
    }
}

/// The field under either of two names.
pub open spec fn either(a: FieldView, b: FieldView) -> FieldView {
    match (a, b) {
        (FieldView::Absent, _) => b,
        (_, FieldView::Absent) => a,
        _ => FieldView::Twice,
    }
}

pub open spec fn field2(v: JsonView, at: nat, a: Seq<char>, b: Seq<char>) -> FieldView {
    if v is Array {
        field(v, at, a)
    } else {
        either(field(v, at, a), field(v, at, b))
    }
}

pub open spec fn field3(
    v: JsonView,
    at: nat,
    a: Seq<char>,
    b: Seq<char>,
    c: Seq<char>,
) -> FieldView {
    if v is Array {
        field(v, at, a)
    } else {
        either(field2(v, at, a, b), field(v, at, c))
    }
}

pub open spec fn field4(
    v: JsonView,
    at: nat,
    a: Seq<char>,
    b: Seq<char>,
    c: Seq<char>,
    d: Seq<char>,
) -> FieldView {
    if v is Array {
        field(v, at, a)
    } else {
        either(field2(v, at, a, b), field2(v, at, c, d))
    }
}

pub fn get_field<'a>(v: &'a Json, at: usize, name: &str) -> (r: Field<'a>)
    ensures
        r.model() == field(v@, at as nat, name@),
{
    match v {
        Json::Array(items) => {
            proof {
                lemma_json_views(items@);
            }
            if at < items.len() {
                Field::Present(&items[at])
            } else {
                Field::Absent
            }
        },
        _ => match v.get(name) {
            Some(x) => Field::Present(x),
            None => Field::Absent,
        },
    }
}

fn one_of<'a>(a: Field<'a>, b: Field<'a>) -> (r: Field<'a>)
    ensures
        r.model() == either(a.model(), b.model()),
{
    match (a, b) {
        (Field::Absent, b) => b,
        (a, Field::Absent) => a,
        _ => Field::Twice,
    }
}

fn is_array(v: &Json) -> (r: bool)
    ensures
        r == (v@ is Array),
{
    match v {
        Json::Array(_) => true,
        _ => false,
    }
}

pub fn get_field2<'a>(v: &'a Json, at: usize, a: &str, b: &str) -> (r: Field<'a>)
    ensures
        r.model() == field2(v@, at as nat, a@, b@),
{
    if is_array(v) {
        get_field(v, at, a)
    } else {
        one_of(get_field(v, at, a), get_field(v, at, b))
    }
}

pub fn get_field3<'a>(v: &'a Json, at: usize, a: &str, b: &str, c: &str) -> (r: Field<'a>)
    ensures
        r.model() == field3(v@, at as nat, a@, b@, c@),
{
    if is_array(v) {
        get_field(v, at, a)
    } else {
        one_of(get_field2(v, at, a, b), get_field(v, at, c))
    }
}

pub fn get_field4<'a>(v: &'a Json, at: usize, a: &str, b: &str, c: &str, d: &str) -> (r: Field<'a>)
    ensures
        r.model() == field4(v@, at as nat, a@, b@, c@, d@),
{
    if is_array(v) {
        get_field(v, at, a)
    } else {
        one_of(get_field2(v, at, a, b), get_field2(v, at, c, d))
    }
}

/// A field that may be left out or null. The outer option is empty where the field
/// cannot be read.
pub open spec fn optional(f: FieldView) -> Option<Option<JsonView>> {
    match f {
        FieldView::Absent => Some(None),
        FieldView::Present(JsonView::Null) => Some(None),
        FieldView::Present(v) => Some(Some(v)),
        FieldView::Twice => None,
    }
}

pub fn get_optional<'a>(f: Field<'a>) -> (r: Option<Option<&'a Json>>)
    ensures
        match r {
            Some(Some(j)) => optional(f.model()) == Some(Some(j@)),
            Some(None) => optional(f.model()) == Some(None::<JsonView>),
            None => optional(f.model()) is None,
        },
{
    match f {
        Field::Absent => Some(None),
        Field::Present(v) => match v {
            Json::Null => Some(None),
            _ => Some(Some(v)),
        },
        Field::Twice => None,
    }
}

pub open spec fn text_field(f: FieldView) -> Option<Option<Seq<char>>> {
    match optional(f) {
        Some(Some(JsonView::Text(s))) => Some(Some(s)),
        Some(Some(_)) => None,
        Some(None) => Some(None),
        None => None,
    }
}

pub fn read_text(f: Field) -> (r: Option<Option<String>>)
    ensures
        match r {
            Some(s) => text_field(f.model()) == Some(opt_text(s)),
            None => text_field(f.model()) is None,
        },
{
    match get_optional(f) {
        Some(Some(Json::Text(s))) => Some(Some(s.clone())),
        Some(Some(_)) => None,
        Some(None) => Some(None),
        None => None,
    }
}

pub open spec fn flag_field(f: FieldView) -> Option<Option<bool>> {
    match optional(f) {
        Some(Some(JsonView::Bool(b))) => Some(Some(b)),
        Some(Some(_)) => None,
        Some(None) => Some(None),
        None => None,
    }
}

pub fn read_flag(f: Field) -> (r: Option<Option<bool>>)
    ensures
        r == flag_field(f.model()),
{
    match get_optional(f) {
        Some(Some(Json::Bool(b))) => Some(Some(*b)),
        Some(Some(_)) => None,
        Some(None) => Some(None),
        None => None,
    }
}

/// The number from 0 to `u32::MAX` that a value is.
pub open spec fn small_number(v: JsonView) -> Option<u32> {
    match v {
        JsonView::Number(n) => match number_as_u64(n) {
            Some(k) => if k <= u32::MAX {
                Some(k as u32)
            } else {
                None
            },
            None => None,
        },
        _ => None,
    }
}

pub open spec fn count_field(f: FieldView) -> Option<Option<u32>> {
    match optional(f) {
        Some(Some(v)) => match small_number(v) {
            Some(k) => Some(Some(k)),
            None => None,
        },
        Some(None) => Some(None),
        None => None,
    }
}

pub fn read_count(f: Field) -> (r: Option<Option<u32>>)
    ensures
        r == count_field(f.model()),
{
    match get_optional(f) {
        Some(Some(v)) => match v.as_u64() {
            Some(k) => {
                if k <= 0xffff_ffff {
                    Some(Some(k as u32))
                } else {
                    None
                }
            },
            None => None,
        },
        Some(None) => Some(None),
        None => None,
    }
}

} // verus!
