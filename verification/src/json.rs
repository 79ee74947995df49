//! JSON values as the library reads them.
use crate::error::{Error, ErrorView};
use crate::text::same_text;
use vstd::prelude::*;

verus! {

/// A JSON value. Integers that fit in 64 bits are held as such; any other number is held as
/// text.
#[derive(Debug)]
pub enum Json {
    Null,
    Bool(bool),
    UInt(u64),
    NegInt(i64),
    Real(String),
    Str(String),
    Arr(Vec<Json>),
    /// The members in order. No name occurs twice in what the parser hands out.
    Obj(Vec<(String, Json)>),
}

pub enum JsonView {
    Null,
    Bool(bool),
    UInt(u64),
    NegInt(i64),
    Real(Seq<char>),
    Str(Seq<char>),
    Arr(Seq<JsonView>),
    Obj(Seq<(Seq<char>, JsonView)>),
}

pub open spec fn json_view(j: Json) -> JsonView
    decreases j,
{
    match j {
        Json::Null => JsonView::Null,
        Json::Bool(b) => JsonView::Bool(b),
        Json::UInt(n) => JsonView::UInt(n),
        Json::NegInt(n) => JsonView::NegInt(n),
        Json::Real(s) => JsonView::Real(s@),
        Json::Str(s) => JsonView::Str(s@),
        Json::Arr(v) => JsonView::Arr(
            Seq::new(
                v@.len(),
                |i: int|
                    if 0 <= i < v@.len() {
                        json_view(v[i])
                    } else {
                        JsonView::Null
                    },
            ),
        ),
        Json::Obj(v) => JsonView::Obj(
            Seq::new(
                v@.len(),
                |i: int|
                    if 0 <= i < v@.len() {
                        (v[i].0@, json_view(v[i].1))
                    } else {
                        (seq![], JsonView::Null)
                    },
            ),
        ),
    }
}

impl View for Json {
    type V = JsonView;

    open spec fn view(&self) -> JsonView {
        json_view(*self)
    }
}

impl DeepView for Json {
    type V = JsonView;

    open spec fn deep_view(&self) -> JsonView {
        self.view()
    }
}

/// The place of the first member with that name, or the number of members.
pub open spec fn member_index(members: Seq<(Seq<char>, JsonView)>, key: Seq<char>) -> int
    decreases members.len(),
{
    if members.len() == 0 {
        0
    } else if members[0].0 == key {
        0
    } else {
        1 + member_index(members.drop_first(), key)
    }
}

impl JsonView {
    /// The member of an object with that name; nothing for a missing one, or where the
    /// value is no object.
    pub open spec fn member(self, key: Seq<char>) -> Option<JsonView> {
        match self {
            JsonView::Obj(members) => {
                let i = member_index(members, key);
                if i < members.len() {
                    Some(members[i].1)
                } else {
                    None
                }
            },
            _ => None,
        }
    }

    pub open spec fn text(self) -> Option<Seq<char>> {
        match self {
            JsonView::Str(s) => Some(s),
            _ => None,
        }
    }

    pub open spec fn uint(self) -> Option<u64> {
        match self {
            JsonView::UInt(n) => Some(n),
            _ => None,
        }
    }

    pub open spec fn items(self) -> Option<Seq<JsonView>> {
        match self {
            JsonView::Arr(v) => Some(v),
            _ => None,
        }
    }

    /// The text of the member with that name.
    pub open spec fn member_text(self, key: Seq<char>) -> Option<Seq<char>> {
        match self.member(key) {
            Some(v) => v.text(),
            None => None,
        }
    }

    /// The unsigned number of the member with that name.
    pub open spec fn member_uint(self, key: Seq<char>) -> Option<u64> {
        match self.member(key) {
            Some(v) => v.uint(),
            None => None,
        }
    }

    /// The items of the array that is the member with that name.
    pub open spec fn member_items(self, key: Seq<char>) -> Option<Seq<JsonView>> {
        match self.member(key) {
            Some(v) => v.items(),
            None => None,
        }
    }
}

impl Json {
    pub fn get(&self, key: &str) -> (r: Option<&Json>)
        ensures
            r.deep_view() == self@.member(key@),
    {
        match self {
            Json::Obj(members) => {
                let ghost d = self@->Obj_0;
                let mut i: usize = 0;
                assert(d.skip(0) =~= d);
                while i < members.len()
                    invariant
                        i <= members.len(),
                        self is Obj,
                        self->Obj_0 == *members,
                        d == self@->Obj_0,
                        d.len() == members@.len(),
                        member_index(d, key@) == i + member_index(d.skip(i as int), key@),
                    decreases members.len() - i,
                {
                    assert(d[i as int] == (members[i as int].0@, members[i as int].1@));
                    assert(d.skip(i as int).drop_first() =~= d.skip(i + 1));
                    if same_text(&members[i].0, key) {
                        assert(d.skip(i as int)[0].0 == key@);
                        assert(member_index(d, key@) == i);
                        return Some(&members[i].1);
                    }
                    i += 1;
                }
                None
            },
            _ => None,
        }
    }

    pub fn as_str(&self) -> (r: Option<&String>)
        ensures
            r.deep_view() == self@.text(),
    {
        match self {
            Json::Str(s) => Some(s),
            _ => None,
        }
    }

    pub fn as_u64(&self) -> (r: Option<u64>)
        ensures
            r == self@.uint(),
    {
        match self {
            Json::UInt(n) => Some(*n),
            _ => None,
        }
    }

    pub fn as_array(&self) -> (r: Option<&Vec<Json>>)
        ensures
            r.deep_view() == self@.items(),
    {
        match self {
            Json::Arr(v) => {
                assert(v.deep_view() =~= self@->Arr_0);
                Some(v)
            },
            _ => None,
        }
    }

    pub fn get_str(&self, key: &str) -> (r: Option<String>)
        ensures
            r.deep_view() == self@.member_text(key@),
    {
        match self.get(key) {
            Some(v) => match v.as_str() {
                Some(s) => Some(s.clone()),
                None => None,
            },
            None => None,
        }
    }

    pub fn get_u64(&self, key: &str) -> (r: Option<u64>)
        ensures
            r == self@.member_uint(key@),
    {
        match self.get(key) {
            Some(v) => v.as_u64(),
            None => None,
        }
    }

    pub fn get_array(&self, key: &str) -> (r: Option<&Vec<Json>>)
        ensures
            r.deep_view() == self@.member_items(key@),
    {
        match self.get(key) {
            Some(v) => v.as_array(),
            None => None,
        }
    }
}

proof fn lemma_member_index(members: Seq<(Seq<char>, JsonView)>, key: Seq<char>)
    ensures
        0 <= member_index(members, key) <= members.len(),
        member_index(members, key) < members.len() ==> members[member_index(members, key)].0 == key,
        forall|j: int| 0 <= j < member_index(members, key) ==> (#[trigger] members[j]).0 != key,
    decreases members.len(),
{
    if members.len() > 0 && members[0].0 != key {
        let rest = members.drop_first();
        lemma_member_index(rest, key);
        assert forall|j: int| 0 <= j < member_index(members, key) implies (
        #[trigger] members[j]).0 != key by {
            if j > 0 {
                assert(members[j] == rest[j - 1]);
            }
        }
    }
}

/// A member is found under its name, and nothing under a name that no member has. Of texts,
/// numbers and lists only a value of that kind is one.
pub proof fn members_are_found_by_name(members: Seq<(Seq<char>, JsonView)>, key: Seq<char>, k: int)
    ensures
        0 <= k < members.len() && members[k].0 == key && (forall|j: int|
            0 <= j < k ==> (#[trigger] members[j]).0 != key) ==> {
            let v = members[k].1;
            let obj = JsonView::Obj(members);
            &&& obj.member(key) == Some(v)
            &&& v matches JsonView::Str(s) ==> obj.member_text(key) == Some(s)
            &&& !(v is Str) ==> obj.member_text(key) is None
            &&& v matches JsonView::UInt(n) ==> obj.member_uint(key) == Some(n)
            &&& !(v is UInt) ==> obj.member_uint(key) is None
            &&& v matches JsonView::Arr(items) ==> obj.member_items(key) == Some(items)
            &&& !(v is Arr) ==> obj.member_items(key) is None
        },
        (forall|j: int| 0 <= j < members.len() ==> (#[trigger] members[j]).0 != key) ==> {
            let obj = JsonView::Obj(members);
            obj.member(key) is None && obj.member_text(key) is None && obj.member_uint(key) is None
                && obj.member_items(key) is None
        },
{
    lemma_member_index(members, key);
    let i = member_index(members, key);
    if 0 <= k < members.len() && members[k].0 == key && (forall|j: int|
        0 <= j < k ==> (#[trigger] members[j]).0 != key) {
        if i < k {
            assert(members[i].0 != key);
        } else if k < i {
            assert(members[k].0 != key);
        }
    }
}

// ------------------------------------------------------------------------ parsing

/// A value of the `serde_json` crate.
#[verifier::external_type_specification]
#[verifier::external_body]
pub struct ExValue(serde_json::Value);

/// What a `serde_json::Value` holds.
pub uninterp spec fn json_of(v: serde_json::Value) -> JsonView;

/// What `serde_json::from_str` reads a text as, or its message.
pub uninterp spec fn parsed_json(text: Seq<char>) -> Result<JsonView, Seq<char>>;

/// What `serde_json::from_str` reads a text as where a list is asked for, or its message.
pub uninterp spec fn parsed_json_list(text: Seq<char>) -> Result<Seq<JsonView>, Seq<char>>;

/// A value of the `serde_json` crate, opened one level deep. A number is given in each of the
/// forms in which it can be had.
enum Layer {
    Null,
    Bool(bool),
    Number(Option<u64>, Option<i64>, String),
    Str(String),
    Arr(Vec<serde_json::Value>),
    Obj(Vec<(String, serde_json::Value)>),
}

/// What some values of the `serde_json` crate hold.
spec fn values_of(v: Seq<serde_json::Value>) -> Seq<JsonView> {
    Seq::new(v.len(), |i: int| json_of(v[i]))
}

/// What a value that was opened holds.
spec fn layer_view(l: Layer) -> JsonView {
    match l {
        Layer::Null => JsonView::Null,
        Layer::Bool(b) => JsonView::Bool(b),
        Layer::Number(Some(n), _, _) => JsonView::UInt(n),
        Layer::Number(None, Some(n), _) => JsonView::NegInt(n),
        Layer::Number(None, None, s) => JsonView::Real(s@),
        Layer::Str(s) => JsonView::Str(s@),
        Layer::Arr(v) => JsonView::Arr(values_of(v@)),
        Layer::Obj(v) => JsonView::Obj(Seq::new(v@.len(), |i: int| (v@[i].0@, json_of(v@[i].1)))),
    }
}

/// The variants of `serde_json::Value`, with `serde_json::Number::as_u64`, `as_i64` and its
/// text: the value one level deep. An object gives its members in the order of its map.
#[verifier::external_body]
fn open_value(v: serde_json::Value) -> (r: Layer)
    ensures
        layer_view(r) == json_of(v),
{
    match v {
        serde_json::Value::Null => Layer::Null,
        serde_json::Value::Bool(b) => Layer::Bool(b),
        serde_json::Value::Number(n) => Layer::Number(n.as_u64(), n.as_i64(), n.to_string()),
        serde_json::Value::String(s) => Layer::Str(s),
        serde_json::Value::Array(a) => Layer::Arr(a),
        serde_json::Value::Object(m) => Layer::Obj(m.into_iter().collect()),
    }
}

/// `serde_json::from_str` into a `serde_json::Value`: the value that the text is read as, or
/// the message of the error. Both depend on the text alone.
#[verifier::external_body]
fn read_value(text: &str) -> (r: Result<serde_json::Value, String>)
    ensures
        match r {
            Ok(v) => parsed_json(text@) == Ok::<JsonView, Seq<char>>(json_of(v)),
            Err(m) => parsed_json(text@) == Err::<JsonView, Seq<char>>(m@),
        },
{
    serde_json::from_str(text).map_err(|e| e.to_string())
}

/// `serde_json::from_str` into a `Vec<serde_json::Value>`: the values of the list that the
/// text is read as, or the message of the error. Both depend on the text alone.
#[verifier::external_body]
fn read_values(text: &str) -> (r: Result<Vec<serde_json::Value>, String>)
    ensures
        match r {
            Ok(v) => parsed_json_list(text@) == Ok::<Seq<JsonView>, Seq<char>>(values_of(v@)),
            Err(m) => parsed_json_list(text@) == Err::<Seq<JsonView>, Seq<char>>(m@),
        },
{
    serde_json::from_str(text).map_err(|e| e.to_string())
}

fn take_value(v: serde_json::Value) -> (r: Json)
    ensures
        r@ == json_of(v),
    decreases json_of(v),
{
    match open_value(v) {
        Layer::Null => Json::Null,
        Layer::Bool(b) => Json::Bool(b),
        Layer::Number(Some(n), _, _) => Json::UInt(n),
        Layer::Number(None, Some(n), _) => Json::NegInt(n),
        Layer::Number(None, None, s) => Json::Real(s),
        Layer::Str(s) => Json::Str(s),
        Layer::Arr(a) => {
            let ghost all = a@;
            let mut out: Vec<Json> = Vec::new();
            for x in it: a
                invariant
                    it.seq() == all,
                    json_of(v) == JsonView::Arr(values_of(all)),
                    out@.len() == it.index(),
                    forall|k: int| 0 <= k < out@.len() ==> (#[trigger] out@[k])@ == json_of(all[k]),
            {
                proof {
                    let items = json_of(v)->Arr_0;
                    assert(items[it.index() as int] == json_of(x));
                    assert(decreases_to!(json_of(v) => items));
                    assert(decreases_to!(items => items[it.index() as int]));
                }
                out.push(take_value(x));
            }
            let r = Json::Arr(out);
            assert(r@->Arr_0 =~= values_of(all));
            r
        },
        Layer::Obj(m) => {
            let ghost all = m@;
            let ghost members = json_of(v)->Obj_0;
            let mut out: Vec<(String, Json)> = Vec::new();
            for x in it: m
                invariant
                    it.seq() == all,
                    json_of(v) == JsonView::Obj(members),
                    members.len() == all.len(),
                    forall|k: int|
                        0 <= k < all.len() ==> #[trigger] members[k] == (
                            all[k].0@,
                            json_of(all[k].1),
                        ),
                    out@.len() == it.index(),
                    forall|k: int|
                        0 <= k < out@.len() ==> (#[trigger] out@[k]).0@ == all[k].0@ && out@[k].1@
                            == json_of(all[k].1),
            {
                proof {
                    let all_members = json_of(v)->Obj_0;
                    let member = all_members[it.index() as int];
                    assert(member.1 == json_of(x.1));
                    assert(decreases_to!(json_of(v) => all_members));
                    assert(decreases_to!(all_members => all_members[it.index() as int]));
                    assert(decreases_to!(member => member.1));
                }
                let (name, value) = x;
                out.push((name, take_value(value)));
            }
            let r = Json::Obj(out);
            assert(r@->Obj_0 =~= members);
            r
        },
    }
}

/// Reads a value from its text.
pub fn parse_json(text: &str) -> (r: Result<Json, Error>)
    ensures
        match parsed_json(text@) {
            Ok(v) => r is Ok && r->Ok_0@ == v,
            Err(m) => r is Err && r->Err_0@ == ErrorView::Other(m),
        },
{
    match read_value(text) {
        Ok(v) => Ok(take_value(v)),
        Err(m) => Err(Error::Other(m)),
    }
}

/// Reads a list of values from its text.
pub fn parse_json_list(text: &str) -> (r: Result<Vec<Json>, Error>)
    ensures
        match parsed_json_list(text@) {
            Ok(v) => r is Ok && r->Ok_0.deep_view() == v,
            Err(m) => r is Err && r->Err_0@ == ErrorView::Other(m),
        },
{
    match read_values(text) {
        Ok(values) => {
            let ghost all = values@;
            let mut out: Vec<Json> = Vec::new();
            for x in it: values
                invariant
                    it.seq() == all,
                    out@.len() == it.index(),
                    forall|k: int| 0 <= k < out@.len() ==> (#[trigger] out@[k])@ == json_of(all[k]),
            {
                out.push(take_value(x));
            }
            assert(out.deep_view() =~= values_of(all));
            Ok(out)
        },
        Err(m) => Err(Error::Other(m)),
    }
}

} // verus!
