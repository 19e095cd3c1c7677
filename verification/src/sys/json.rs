//! Reading and writing JSON: texts are parsed and printed by `serde_json`, and
//! what they say is looked at here.

use vstd::prelude::*;

use crate::sys::output;
use crate::sys::output::{Json, JsonV};
use crate::text;

verus! {

/// `serde_json::Value`, which the parser returns. Nothing is claimed of what is
/// inside one; its content is read as a [`Json`].
#[verifier::external_type_specification]
#[verifier::external_body]
pub struct ExValue(serde_json::Value);

/// What `serde_json` reads in a text; none where the text is not JSON.
pub uninterp spec fn parsed(text: Seq<char>) -> Option<JsonV>;

pub open spec fn json_view(j: Option<Json>) -> Option<JsonV> {
    match j {
        Some(v) => Some(v@),
        None => None,
    }
}

/// A `serde_json::Value` as a [`Json`], variant by variant: `Number` by
/// `as_u64` where it is such a number and by its text where it is not, arrays
/// and objects element by element in their own order. Nothing is stated of the
/// result; what a text reads as is named by [`parsed`].
#[verifier::external_body]
fn convert(value: serde_json::Value) -> (r: Json) {
    match value {
        serde_json::Value::Null => Json::Null,
        serde_json::Value::Bool(b) => Json::Bool(b),
        serde_json::Value::Number(n) => match n.as_u64() {
            Some(u) => Json::Num(u),
            None => Json::Other(n.to_string()),
        },
        serde_json::Value::String(s) => Json::Str(s),
        serde_json::Value::Array(a) => Json::List(a.into_iter().map(convert).collect()),
        serde_json::Value::Object(m) => {
            Json::Obj(m.into_iter().map(|(k, v)| (k, convert(v))).collect())
        },
    }
}

/// `serde_json::from_str` on a text, its value taken by `convert`. The claim is
/// that the outcome depends on the text alone: which texts are JSON and what
/// they say is the parser's affair and is named, not stated.
#[verifier::external_body]
pub(crate) fn parse(text: &str) -> (r: Option<Json>)
    ensures
        json_view(r) == parsed(text@),
{
    serde_json::from_str::<serde_json::Value>(text).ok().map(convert)
}

/// The text that `serde_json` writes for a value, without any white space.
pub uninterp spec fn printed(v: JsonV) -> Seq<char>;

/// The numbers below zero that 64 bits hold, as they are written.
pub open spec fn is_negative(t: Seq<char>) -> bool {
    exists|k: nat| 1 <= k <= 0x8000_0000_0000_0000 && t == "-"@ + #[trigger] text::decimal(k)
}

/// A value that has no values in it, and a whole number of 64 bits where it is a
/// number.
pub open spec fn is_simple(v: JsonV) -> bool {
    match v {
        JsonV::Null => true,
        JsonV::Bool(_) => true,
        JsonV::Num(n) => n <= u64::MAX,
        JsonV::Other(t) => is_negative(t),
        JsonV::Str(_) => true,
        JsonV::List(_) => false,
        JsonV::Obj(_) => false,
    }
}

/// An object of simple values, none of whose keys comes twice.
pub open spec fn is_flat(v: JsonV) -> bool {
    match v {
        JsonV::Obj(ms) => {
            &&& forall|i: int| 0 <= i < ms.len() ==> is_simple((#[trigger] ms[i]).1)
            &&& forall|i: int, j: int|
                0 <= i < j < ms.len() ==> (#[trigger] ms[i]).0 != (#[trigger] ms[j]).0
        },
        _ => false,
    }
}

/// A text that is read as an object with the members of `v`, in whatever order.
pub open spec fn reads_as(text: Seq<char>, v: JsonV) -> bool {
    match parsed(text) {
        Some(back) => back is Obj && forall|key: Seq<char>|
            #[trigger] member(back, key) == member(v, key),
        None => false,
    }
}

/// A [`Json`] as a `serde_json::Value`, variant by variant: a number that is no
/// `u64` from its text, lists and objects element by element. Nothing is stated
/// of the result; what a value is written as is named by [`printed`].
#[verifier::external_body]
fn restore(json: &Json) -> (r: serde_json::Value) {
    match json {
        Json::Null => serde_json::Value::Null,
        Json::Bool(b) => serde_json::Value::Bool(*b),
        Json::Num(n) => serde_json::Value::from(*n),
        Json::Other(t) => serde_json::from_str(t).unwrap_or(serde_json::Value::Null),
        Json::Str(s) => serde_json::Value::String(s.clone()),
        Json::List(v) => serde_json::Value::Array(v.iter().map(restore).collect()),
        Json::Obj(v) => {
            serde_json::Value::Object(v.iter().map(|(k, j)| (k.clone(), restore(j))).collect())
        },
    }
}

/// A value taken by `restore` and written by `to_string` of `serde_json::Value`.
/// The claims are that the text depends on the value alone, and that
/// `serde_json::from_str` reads an object of simple values back with the members
/// it had. In which order its members are written and how strings are escaped is
/// not stated.
#[verifier::external_body]
fn print(json: &Json) -> (r: String)
    ensures
        r@ == printed(json@),
        is_flat(json@) ==> reads_as(r@, json@),
{
    restore(json).to_string()
}

/// The text of a value.
pub fn show(json: &Json) -> (r: String)
    ensures
        r@ == printed(json@),
        is_flat(json@) ==> reads_as(r@, json@),
{
    print(json)
}

/// The value of the first member with this key.
pub open spec fn first_member(ms: Seq<(Seq<char>, JsonV)>, key: Seq<char>) -> Option<JsonV>
    decreases ms.len(),
{
    if ms.len() == 0 {
        None
    } else if ms[0].0 == key {
        Some(ms[0].1)
    } else {
        first_member(ms.skip(1), key)
    }
}

/// The value of a member of an object. What is not an object has none.
pub open spec fn member(v: JsonV, key: Seq<char>) -> Option<JsonV> {
    match v {
        JsonV::Obj(ms) => first_member(ms, key),
        _ => None,
    }
}

pub open spec fn text_member(v: JsonV, key: Seq<char>) -> Option<Seq<char>> {
    match member(v, key) {
        Some(JsonV::Str(s)) => Some(s),
        _ => None,
    }
}

pub open spec fn number_member(v: JsonV, key: Seq<char>) -> Option<nat> {
    match member(v, key) {
        Some(JsonV::Num(n)) => Some(n),
        _ => None,
    }
}

/// The keys of an object. What is not an object has none.
pub open spec fn keys(v: JsonV) -> Seq<Seq<char>> {
    match v {
        JsonV::Obj(ms) => Seq::new(ms.len(), |i: int| ms[i].0),
        _ => Seq::empty(),
    }
}

/// The keys of the object under this key.
pub open spec fn keys_under(v: JsonV, key: Seq<char>) -> Seq<Seq<char>> {
    match member(v, key) {
        Some(o) => keys(o),
        None => Seq::empty(),
    }
}

/// Members with this key set to a value: in place where it is there, else at
/// the end.
pub open spec fn with_member(
    ms: Seq<(Seq<char>, JsonV)>,
    key: Seq<char>,
    value: JsonV,
) -> Seq<(Seq<char>, JsonV)>
    decreases ms.len(),
{
    if ms.len() == 0 {
        seq![(key, value)]
    } else if ms[0].0 == key {
        seq![(key, value)] + ms.skip(1)
    } else {
        seq![ms[0]] + with_member(ms.skip(1), key, value)
    }
}

proof fn lemma_members(v: Vec<(String, Json)>)
    ensures
        Json::Obj(v)@ == JsonV::Obj(output::members(v@)),
{
    reveal_with_fuel(<Json as View>::view, 2);
    assert(Json::Obj(v)@->Obj_0 =~= output::members(v@));
}

impl Json {
    /// The value of a member, as `Value::get`.
    pub fn get(&self, key: &str) -> (r: Option<&Json>)
        ensures
            match r {
                Some(j) => member(self@, key@) == Some(j@),
                None => member(self@, key@) is None,
            },
    {
        match self {
            Json::Obj(v) => {
                proof {
                    lemma_members(*v);
                }
                let ghost ms = output::members(v@);
                let mut i: usize = 0;
                assert(ms.skip(0) =~= ms);
                while i < v.len()
                    invariant
                        ms == output::members(v@),
                        self@ == JsonV::Obj(ms),
                        i <= v@.len(),
                        first_member(ms, key@) == first_member(ms.skip(i as int), key@),
                    decreases v@.len() - i,
                {
                    assert(ms.skip(i as int)[0] == (v@[i as int].0@, v@[i as int].1@));
                    if text::same(&v[i].0, key) {
                        return Some(&v[i].1);
                    }
                    assert(ms.skip(i as int).skip(1) =~= ms.skip(i + 1));
                    i = i + 1;
                }
                None
            },
            _ => None,
        }
    }

    /// The text of a member that is a string.
    pub fn get_text(&self, key: &str) -> (r: Option<String>)
        ensures
            crate::command::opt(r) == text_member(self@, key@),
    {
        match self.get(key) {
            Some(Json::Str(s)) => Some(s.clone()),
            _ => None,
        }
    }

    /// The number of a member that is one.
    pub fn get_number(&self, key: &str) -> (r: Option<u64>)
        ensures
            crate::sys::state::nat_of(r) == number_member(self@, key@),
    {
        match self.get(key) {
            Some(Json::Num(n)) => Some(*n),
            _ => None,
        }
    }

    /// The keys of an object.
    pub fn key_list(&self) -> (r: Vec<String>)
        ensures
            text::views(r@) == keys(self@),
    {
        let mut out: Vec<String> = Vec::new();
        match self {
            Json::Obj(v) => {
                proof {
                    lemma_members(*v);
                }
                let mut i: usize = 0;
                while i < v.len()
                    invariant
                        i <= v@.len(),
                        out@.len() == i,
                        forall|j: int| 0 <= j < i ==> (#[trigger] out@[j])@ == v@[j].0@,
                    decreases v@.len() - i,
                {
                    out.push(v[i].0.clone());
                    i = i + 1;
                }
                assert(text::views(out@) =~= keys(self@));
            },
            _ => {
                assert(text::views(out@) =~= keys(self@));
            },
        }
        out
    }

    /// The keys of the object under this key.
    pub fn keys_of(&self, key: &str) -> (r: Vec<String>)
        ensures
            text::views(r@) == keys_under(self@, key@),
    {
        match self.get(key) {
            Some(o) => o.key_list(),
            None => {
                let out: Vec<String> = Vec::new();
                assert(text::views(out@) =~= Seq::<Seq<char>>::empty());
                out
            },
        }
    }

    /// The object with this member set. What is not an object stays as it is.
    pub fn set(self, key: &str, value: Json) -> (r: Json)
        ensures
            r@ == (match self@ {
                JsonV::Obj(ms) => JsonV::Obj(with_member(ms, key@, value@)),
                other => other,
            }),
    {
        match self {
            Json::Obj(v) => {
                proof {
                    lemma_members(v);
                }
                let ghost ms = output::members(v@);
                let mut list = v;
                let n: usize = list.len();
                let mut i: usize = 0;
                assert(ms.skip(0) =~= ms);
                assert(ms.take(0) + with_member(ms.skip(0), key@, value@) =~= with_member(
                    ms,
                    key@,
                    value@,
                ));
                while i < n && !text::same(&list[i].0, key)
                    invariant
                        ms == output::members(list@),
                        n == list@.len(),
                        i <= n,
                        ms.take(i as int) + with_member(ms.skip(i as int), key@, value@)
                            == with_member(ms, key@, value@),
                    decreases n - i,
                {
                    let ghost rest = ms.skip(i as int);
                    assert(rest[0] == ms[i as int]);
                    assert(ms[i as int].0 != key@);
                    assert(rest.skip(1) =~= ms.skip(i + 1));
                    assert(ms.take(i as int) + (seq![rest[0]] + with_member(
                        ms.skip(i + 1),
                        key@,
                        value@,
                    )) =~= ms.take(i + 1) + with_member(ms.skip(i + 1), key@, value@));
                    i = i + 1;
                }
                let ghost rest = ms.skip(i as int);
                let ghost shown = value@;
                if i < n {
                    assert(rest[0] == ms[i as int]);
                    list.set(i, (key.to_string(), value));
                    assert(output::members(list@) =~= ms.take(i as int) + (seq![(key@, shown)]
                        + rest.skip(1)));
                } else {
                    list.push((key.to_string(), value));
                    assert(output::members(list@) =~= ms.take(i as int) + seq![(key@, shown)]);
                }
                output::object(list)
            },
            other => other,
        }
    }
}

/// A member is found by its key, the first one where there are several; a key that
/// no member has gives none.
pub proof fn law_members_are_found_by_key(
    before: Seq<(Seq<char>, JsonV)>,
    key: Seq<char>,
    value: JsonV,
    after: Seq<(Seq<char>, JsonV)>,
)
    requires
        forall|i: int| 0 <= i < before.len() ==> (#[trigger] before[i]).0 != key,
    ensures
        member(JsonV::Obj(before.push((key, value)) + after), key) == Some(value),
        member(JsonV::Obj(before), key) is None,
    decreases before.len(),
{
    let all = before.push((key, value)) + after;
    if before.len() == 0 {
        assert(all[0] == (key, value));
    } else {
        let rest = before.skip(1);
        assert forall|i: int| 0 <= i < rest.len() implies (#[trigger] rest[i]).0 != key by {
            assert(rest[i] == before[i + 1]);
        }
        law_members_are_found_by_key(rest, key, value, after);
        assert(all[0] == before[0]);
        assert(all.skip(1) =~= rest.push((key, value)) + after);
    }
}

/// Setting a member gives its key the value and leaves every other member as it
/// was.
pub proof fn law_setting_a_member_leaves_the_others(
    ms: Seq<(Seq<char>, JsonV)>,
    key: Seq<char>,
    value: JsonV,
    other: Seq<char>,
)
    ensures
        member(JsonV::Obj(with_member(ms, key, value)), key) == Some(value),
        other != key ==> member(JsonV::Obj(with_member(ms, key, value)), other) == member(
            JsonV::Obj(ms),
            other,
        ),
    decreases ms.len(),
{
    let r = with_member(ms, key, value);
    if ms.len() == 0 {
        assert(r[0] == (key, value));
        assert(r.skip(1) =~= Seq::<(Seq<char>, JsonV)>::empty());
        assert(first_member(r.skip(1), other) is None);
    } else if ms[0].0 == key {
        assert(r[0] == (key, value));
        assert(r.skip(1) =~= ms.skip(1));
    } else {
        law_setting_a_member_leaves_the_others(ms.skip(1), key, value, other);
        assert(r[0] == ms[0]);
        assert(r.skip(1) =~= with_member(ms.skip(1), key, value));
    }
}

/// The keys of an object are those of its members, in order; what is no object has
/// none, and neither has a member that is not there.
pub proof fn law_keys_are_those_of_the_members(
    ms: Seq<(Seq<char>, JsonV)>,
    key: Seq<char>,
    v: JsonV,
    s: Seq<char>,
)
    ensures
        keys(JsonV::Obj(ms)).len() == ms.len(),
        keys(JsonV::Obj(ms.push((key, v)))) == keys(JsonV::Obj(ms)).push(key),
        keys(JsonV::Str(s)).len() == 0,
        keys(JsonV::Null).len() == 0,
        member(v, key) is None ==> keys_under(v, key).len() == 0,
        member(v, key) matches Some(o) ==> keys_under(v, key) == keys(o),
{
    assert(keys(JsonV::Obj(ms.push((key, v)))) =~= keys(JsonV::Obj(ms)).push(key));
}

/// A member is read as a text only when it is one, and as a number likewise.
pub proof fn law_members_are_read_by_kind(v: JsonV, key: Seq<char>, s: Seq<char>, n: nat)
    ensures
        member(v, key) == Some(JsonV::Str(s)) ==> text_member(v, key) == Some(s) && number_member(
            v,
            key,
        ) is None,
        member(v, key) == Some(JsonV::Num(n)) ==> number_member(v, key) == Some(n) && text_member(
            v,
            key,
        ) is None,
        member(v, key) is None ==> text_member(v, key) is None && number_member(v, key) is None,
{
}

} // verus!
