//! Answers: one JSON object and an exit code.

use vstd::prelude::*;

use crate::text;

verus! {

/// What a JSON value says. Objects keep their members in order.
pub enum JsonV {
    Null,
    Bool(bool),
    Num(nat),
    /// A number that is not a whole number from 0 to 2^64 - 1, by its text.
    Other(Seq<char>),
    Str(Seq<char>),
    List(Seq<JsonV>),
    Obj(Seq<(Seq<char>, JsonV)>),
}

/// A JSON value.
#[derive(Debug, PartialEq, Eq)]
pub enum Json {
    Null,
    Bool(bool),
    Num(u64),
    Other(String),
    Str(String),
    List(Vec<Json>),
    Obj(Vec<(String, Json)>),
}

impl View for Json {
    type V = JsonV;

    open spec fn view(&self) -> JsonV
        decreases self,
    {
        match self {
            Json::Null => JsonV::Null,
            Json::Bool(b) => JsonV::Bool(*b),
            Json::Num(n) => JsonV::Num(*n as nat),
            Json::Other(s) => JsonV::Other(s@),
            Json::Str(s) => JsonV::Str(s@),
            Json::List(v) => JsonV::List(
                Seq::new(
                    v@.len(),
                    |i: int|
                        if 0 <= i < v@.len() {
                            v@[i].view()
                        } else {
                            JsonV::Null
                        },
                ),
            ),
            Json::Obj(v) => JsonV::Obj(
                Seq::new(
                    v@.len(),
                    |i: int|
                        if 0 <= i < v@.len() {
                            (v@[i].0@, v@[i].1.view())
                        } else {
                            (Seq::empty(), JsonV::Null)
                        },
                ),
            ),
        }
    }
}

/// What the members of an object under construction say.
pub open spec fn members(v: Seq<(String, Json)>) -> Seq<(Seq<char>, JsonV)> {
    Seq::new(v.len(), |i: int| (v[i].0@, v[i].1@))
}

pub open spec fn json_views(v: Seq<Json>) -> Seq<JsonV> {
    Seq::new(v.len(), |i: int| v[i]@)
}

/// The members of an object, in the order in which they were put in.
pub struct Members {
    pub list: Vec<(String, Json)>,
}

impl View for Members {
    type V = Seq<(Seq<char>, JsonV)>;

    open spec fn view(&self) -> Seq<(Seq<char>, JsonV)> {
        members(self.list@)
    }
}

impl Members {
    pub fn new() -> (r: Members)
        ensures
            r@ == Seq::<(Seq<char>, JsonV)>::empty(),
    {
        let r = Members { list: Vec::new() };
        assert(r@ =~= Seq::<(Seq<char>, JsonV)>::empty());
        r
    }

    pub fn put(&mut self, key: &str, value: Json)
        ensures
            final(self)@ == old(self)@.push((key@, value@)),
    {
        let ghost before = self@;
        self.list.push((key.to_string(), value));
        assert(self@ =~= before.push((key@, value@)));
    }

    pub fn put_text(&mut self, key: &str, value: &str)
        ensures
            final(self)@ == old(self)@.push((key@, JsonV::Str(value@))),
    {
        self.put(key, string(value))
    }

    pub fn put_number(&mut self, key: &str, value: u64)
        ensures
            final(self)@ == old(self)@.push((key@, JsonV::Num(value as nat))),
    {
        self.put(key, Json::Num(value))
    }

    pub fn put_bool(&mut self, key: &str, value: bool)
        ensures
            final(self)@ == old(self)@.push((key@, JsonV::Bool(value))),
    {
        self.put(key, Json::Bool(value))
    }

    /// Puts a number in, or `null` where there is none.
    pub fn put_optional(&mut self, key: &str, value: Option<u64>)
        ensures
            final(self)@ == old(self)@.push((key@, optional_view(value))),
    {
        self.put(key, optional(value))
    }

    pub fn object(self) -> (r: Json)
        ensures
            r@ == JsonV::Obj(self@),
    {
        object(self.list)
    }
}

/// A number, or `null` where there is none.
pub open spec fn optional_view(value: Option<u64>) -> JsonV {
    match value {
        Some(n) => JsonV::Num(n as nat),
        None => JsonV::Null,
    }
}

pub fn optional(value: Option<u64>) -> (r: Json)
    ensures
        r@ == optional_view(value),
{
    match value {
        Some(n) => Json::Num(n),
        None => Json::Null,
    }
}

/// A whole number that may be negative.
pub open spec fn signed_view(n: int) -> JsonV {
    if n >= 0 {
        JsonV::Num(n as nat)
    } else {
        JsonV::Other("-"@ + text::decimal((-n) as nat))
    }
}

pub fn signed(n: i32) -> (r: Json)
    ensures
        r@ == signed_view(n as int),
{
    if n >= 0 {
        Json::Num(n as u64)
    } else {
        let size: u64 = (0 - n as i64) as u64;
        let mut out = "-".to_string();
        out.append(&text::show_u64(size));
        Json::Other(out)
    }
}

/// A string, or `null` where there is none.
pub open spec fn optional_text_view(value: Option<Seq<char>>) -> JsonV {
    match value {
        Some(s) => JsonV::Str(s),
        None => JsonV::Null,
    }
}

pub fn string(s: &str) -> (r: Json)
    ensures
        r@ == JsonV::Str(s@),
{
    Json::Str(s.to_string())
}

pub fn object(list: Vec<(String, Json)>) -> (r: Json)
    ensures
        r@ == JsonV::Obj(members(list@)),
{
    let r = Json::Obj(list);
    proof {
        reveal_with_fuel(<Json as View>::view, 2);
        assert(r@->Obj_0 =~= members(list@));
    }
    r
}

pub fn list(items: Vec<Json>) -> (r: Json)
    ensures
        r@ == JsonV::List(json_views(items@)),
{
    let r = Json::List(items);
    proof {
        reveal_with_fuel(<Json as View>::view, 2);
        assert(r@->List_0 =~= json_views(items@));
    }
    r
}

pub open spec fn text_views(v: Seq<Seq<char>>) -> Seq<JsonV> {
    Seq::new(v.len(), |i: int| JsonV::Str(v[i]))
}

/// A list of strings.
pub fn strings(items: &Vec<String>) -> (r: Json)
    ensures
        r@ == JsonV::List(text_views(text::views(items@))),
{
    let mut out: Vec<Json> = Vec::new();
    let mut i: usize = 0;
    while i < items.len()
        invariant
            i <= items@.len(),
            out@.len() == i,
            forall|j: int| 0 <= j < i ==> (#[trigger] out@[j])@ == JsonV::Str(items@[j]@),
        decreases items@.len() - i,
    {
        out.push(string(&items[i]));
        i = i + 1;
    }
    assert(json_views(out@) =~= text_views(text::views(items@)));
    list(out)
}

/// An answer: the object to print and the code to exit with.
#[derive(Debug, PartialEq, Eq)]
pub struct Response {
    pub exit: u8,
    pub body: Json,
}

/// What an answer says.
pub struct ResponseV {
    pub exit: int,
    pub body: JsonV,
}

impl View for Response {
    type V = ResponseV;

    open spec fn view(&self) -> ResponseV {
        ResponseV { exit: self.exit as int, body: self.body@ }
    }
}

/// The answer of a command that did what was asked: exit code 0, and `ok`
/// before the members of its own.
pub open spec fn accepted(extra: Seq<(Seq<char>, JsonV)>) -> ResponseV {
    ResponseV { exit: 0, body: JsonV::Obj(seq![("ok"@, JsonV::Bool(true))] + extra) }
}

/// The answer of a command that failed.
pub open spec fn failed(exit: int, error: Seq<char>, message: Seq<char>) -> ResponseV {
    ResponseV {
        exit,
        body: JsonV::Obj(
            seq![
                ("ok"@, JsonV::Bool(false)),
                ("error"@, JsonV::Str(error)),
                ("message"@, JsonV::Str(message)),
            ],
        ),
    }
}

/// A request that cannot be met as it was made: exit code 1.
pub open spec fn refused(error: Seq<char>, message: Seq<char>) -> ResponseV {
    failed(1, error, message)
}

/// A request that the system around the panel did not let through: exit code 2.
pub open spec fn broken(error: Seq<char>, message: Seq<char>) -> ResponseV {
    failed(2, error, message)
}

/// The members with the debug block behind them, where there is one.
pub open spec fn debugged(
    extra: Seq<(Seq<char>, JsonV)>,
    debug: Option<JsonV>,
) -> Seq<(Seq<char>, JsonV)> {
    match debug {
        Some(d) => extra.push(("_debug"@, d)),
        None => extra,
    }
}

pub open spec fn debug_view(debug: Option<Json>) -> Option<JsonV> {
    match debug {
        Some(d) => Some(d@),
        None => None,
    }
}

/// Adds the `_debug` block to an answer when debug mode is on.
pub fn with_debug(extra: Members, debug: Option<Json>) -> (r: Members)
    ensures
        r@ == debugged(extra@, debug_view(debug)),
{
    let mut out = extra;
    if let Some(d) = debug {
        out.put("_debug", d);
    }
    out
}

/// The answer of a command that did what was asked.
pub fn success(extra: Members) -> (r: Response)
    ensures
        r@ == accepted(extra@),
{
    let ghost given = extra@;
    let mut all = Members::new();
    all.put_bool("ok", true);
    let mut rest = extra;
    let ghost head = all@;
    let ghost head_list = all.list@;
    let ghost rest_list = rest.list@;
    all.list.append(&mut rest.list);
    proof {
        assert(all.list@ == head_list + rest_list);
        assert(all@ =~= seq![("ok"@, JsonV::Bool(true))] + given);
    }
    Response { exit: 0, body: all.object() }
}

fn failure(exit: u8, error: &str, message: &str) -> (r: Response)
    ensures
        r@ == failed(exit as int, error@, message@),
{
    let mut all = Members::new();
    all.put_bool("ok", false);
    all.put_text("error", error);
    all.put_text("message", message);
    assert(all@ =~= failed(exit as int, error@, message@).body->Obj_0);
    Response { exit, body: all.object() }
}

/// The answer to a request that cannot be met as it was made.
pub fn user_error(error: &str, message: &str) -> (r: Response)
    ensures
        r@ == refused(error@, message@),
{
    failure(1, error, message)
}

/// The answer to a request that the system did not let through.
pub fn system_error(error: &str, message: &str) -> (r: Response)
    ensures
        r@ == broken(error@, message@),
{
    failure(2, error, message)
}

/// Every answer says in `ok`, its first member, whether the exit code is 0.
pub proof fn law_ok_tells_the_exit_code(
    extra: Seq<(Seq<char>, JsonV)>,
    error: Seq<char>,
    message: Seq<char>,
)
    ensures
        accepted(extra).body->Obj_0[0] == ("ok"@, JsonV::Bool(true)) && accepted(extra).exit == 0,
        refused(error, message).body->Obj_0[0] == ("ok"@, JsonV::Bool(false)) && refused(
            error,
            message,
        ).exit == 1,
        broken(error, message).body->Obj_0[0] == ("ok"@, JsonV::Bool(false)) && broken(
            error,
            message,
        ).exit == 2,
{
}

/// What was asked for and done ends in exit code 0, what was asked for wrongly in
/// 1, and what the system did not let through in 2. The answer says which it was
/// before anything else, and an error has its code and its message.
pub proof fn law_answers_say_how_it_went(
    extra: Seq<(Seq<char>, JsonV)>,
    error: Seq<char>,
    message: Seq<char>,
)
    ensures
        accepted(extra).exit == 0,
        refused(error, message).exit == 1,
        broken(error, message).exit == 2,
        accepted(extra).body matches JsonV::Obj(ms) && ms.len() == 1 + extra.len() && ms[0] == (
            "ok"@,
            JsonV::Bool(true),
        ) && ms.skip(1) == extra,
        refused(error, message).body == broken(error, message).body,
        refused(error, message).body matches JsonV::Obj(ms) && ms == seq![
            ("ok"@, JsonV::Bool(false)),
            ("error"@, JsonV::Str(error)),
            ("message"@, JsonV::Str(message)),
        ],
{
    assert((seq![("ok"@, JsonV::Bool(true))] + extra).skip(1) =~= extra);
}

/// The debug block comes behind everything else, where it was asked for.
pub proof fn law_debug_block_comes_last(extra: Seq<(Seq<char>, JsonV)>, d: JsonV)
    ensures
        debugged(extra, None) == extra,
        debugged(extra, Some(d)).len() == extra.len() + 1,
        debugged(extra, Some(d)).last() == ("_debug"@, d),
        debugged(extra, Some(d)).drop_last() == extra,
{
    assert(extra.push(("_debug"@, d)).drop_last() =~= extra);
}

/// A number is shown as it is, with its sign where it is below zero, and what is not
/// there as `null`.
pub proof fn law_values_are_shown_as_they_are(n: u64, k: nat, s: Seq<char>)
    ensures
        optional_view(Some(n)) == JsonV::Num(n as nat),
        optional_view(None) == JsonV::Null,
        signed_view(k as int) == JsonV::Num(k),
        k > 0 ==> signed_view(-(k as int)) == JsonV::Other(seq!['-'] + text::decimal(k)),
        optional_text_view(Some(s)) == JsonV::Str(s),
        optional_text_view(None) == JsonV::Null,
{
    reveal_strlit("-");
    assert("-"@ =~= seq!['-']);
}

} // verus!
