//! JSON values as the store's answers hold them.

use vstd::prelude::*;

use crate::text::same_text;

verus! {

/// What is read of a JSON number: its value as a signed 64-bit integer, where it is one, and the
/// bit pattern of its value as a 64-bit float, where it has one.
#[derive(Clone, Copy, Debug, PartialEq, Eq)]
pub struct Number {
    pub integer: Option<i64>,
    pub float: Option<u64>,
}

/// A JSON value. The members of an object stand in the order in which its map is walked.
#[derive(Debug, PartialEq, Eq)]
pub enum Value {
    Null,
    Bool(bool),
    Number(Number),
    Text(String),
    Array(Vec<Value>),
    Object(Vec<Member>),
}

/// A member of a JSON object.
#[derive(Debug, PartialEq, Eq)]
pub struct Member {
    pub key: String,
    pub value: Value,
}

/// The mathematical content of a [`Value`].
pub ghost enum Json {
    Null,
    Bool(bool),
    Number(Number),
    Text(Seq<char>),
    Array(Seq<Json>),
    Object(Seq<(Seq<char>, Json)>),
}

/// The value of the first member with the given key.
pub open spec fn lookup(members: Seq<(Seq<char>, Json)>, key: Seq<char>) -> Option<Json>
    decreases members.len(),
{
    if members.len() == 0 {
        None
    } else if members[0].0 == key {
        Some(members[0].1)
    } else {
        lookup(members.drop_first(), key)
    }
}

impl Json {
    /// The member of an object with the given key.
    pub open spec fn get(self, key: Seq<char>) -> Option<Json> {
        match self {
            Json::Object(members) => lookup(members, key),
            _ => None,
        }
    }

    pub open spec fn text(self) -> Option<Seq<char>> {
        match self {
            Json::Text(s) => Some(s),
            _ => None,
        }
    }

    pub open spec fn items(self) -> Option<Seq<Json>> {
        match self {
            Json::Array(items) => Some(items),
            _ => None,
        }
    }

    pub open spec fn integer(self) -> Option<i64> {
        match self {
            Json::Number(n) => n.integer,
            _ => None,
        }
    }

    pub open spec fn float(self) -> Option<u64> {
        match self {
            Json::Number(n) => n.float,
            _ => None,
        }
    }

    /// The text under a key of an object.
    pub open spec fn text_at(self, key: Seq<char>) -> Option<Seq<char>> {
        match self.get(key) {
            Some(j) => j.text(),
            None => None,
        }
    }

    /// The integer under a key of an object.
    pub open spec fn integer_at(self, key: Seq<char>) -> Option<i64> {
        match self.get(key) {
            Some(j) => j.integer(),
            None => None,
        }
    }

    /// The float under a key of an object.
    pub open spec fn float_at(self, key: Seq<char>) -> Option<u64> {
        match self.get(key) {
            Some(j) => j.float(),
            None => None,
        }
    }

    /// The rows that an answer gives under a name: an array, either there or one level down, under
    /// `properties`. Anything else stands for no rows.
    pub open spec fn rows(self, name: Seq<char>) -> Seq<Json> {
        match self.get(name) {
            Some(found) => {
                let holder = match found.get("properties"@) {
                    Some(inner) => inner,
                    None => found,
                };
                match holder.items() {
                    Some(items) => items,
                    None => Seq::empty(),
                }
            },
            None => Seq::empty(),
        }
    }
}

/// The contents of a run of values.
pub open spec fn views(values: Seq<Value>) -> Seq<Json> {
    values.map_values(|v: Value| v@)
}

/// The contents of a run of members.
pub open spec fn member_views(members: Seq<Member>) -> Seq<(Seq<char>, Json)> {
    members.map_values(|m: Member| (m.key@, m.value@))
}

/// The content of a value.
pub open spec fn content(value: Value) -> Json
    decreases value,
{
    match value {
        Value::Null => Json::Null,
        Value::Bool(b) => Json::Bool(b),
        Value::Number(n) => Json::Number(n),
        Value::Text(s) => Json::Text(s@),
        Value::Array(items) => Json::Array(
            Seq::new(
                items@.len(),
                |i: int|
                    if 0 <= i < items@.len() {
                        content(items@[i])
                    } else {
                        Json::Null
                    },
            ),
        ),
        Value::Object(members) => Json::Object(
            Seq::new(
                members@.len(),
                |i: int|
                    if 0 <= i < members@.len() {
                        (members@[i].key@, content(members@[i].value))
                    } else {
                        (Seq::empty(), Json::Null)
                    },
            ),
        ),
    }
}

impl View for Value {
    type V = Json;

    open spec fn view(&self) -> Json {
        content(*self)
    }
}

/// The content of an array is the contents of its items, in order.
pub proof fn lemma_array_view(items: Vec<Value>)
    ensures
        Value::Array(items)@ == Json::Array(views(items@)),
{
    assert(content(Value::Array(items))->Array_0 =~= views(items@));
}

/// The content of an object is the keys and contents of its members, in order.
pub proof fn lemma_object_view(members: Vec<Member>)
    ensures
        Value::Object(members)@ == Json::Object(member_views(members@)),
{
    assert(content(Value::Object(members))->Object_0 =~= member_views(members@));
}

impl Value {
    /// The member of an object with the given key.
    pub fn get(&self, key: &str) -> (found: Option<&Value>)
        ensures
            match found {
                Some(v) => self@.get(key@) == Some(v@),
                None => self@.get(key@) is None,
            },
    {
        match self {
            Value::Object(members) => {
                proof {
                    lemma_object_view(*members);
                }
                let ghost all = member_views(members@);
                assert(all.skip(0) == all);
                let mut i: usize = 0;
                while i < members.len()
                    invariant
                        i <= members.len(),
                        all == member_views(members@),
                        self@ == Json::Object(all),
                        lookup(all, key@) == lookup(all.skip(i as int), key@),
                    decreases members.len() - i,
                {
                    if same_text(members[i].key.as_str(), key) {
                        return Some(&members[i].value);
                    }
                    assert(all.skip(i as int).drop_first() == all.skip(i + 1));
                    i = i + 1;
                }
                None
            },
            _ => None,
        }
    }

    pub fn as_str(&self) -> (found: Option<&str>)
        ensures
            match found {
                Some(s) => self@.text() == Some(s@),
                None => self@.text() is None,
            },
    {
        match self {
            Value::Text(s) => Some(s.as_str()),
            _ => None,
        }
    }

    pub fn as_array(&self) -> (found: Option<&Vec<Value>>)
        ensures
            match found {
                Some(items) => self@.items() == Some(views(items@)),
                None => self@.items() is None,
            },
    {
        match self {
            Value::Array(items) => {
                proof {
                    lemma_array_view(*items);
                }
                Some(items)
            },
            _ => None,
        }
    }

    pub fn as_object(&self) -> (found: Option<&Vec<Member>>)
        ensures
            match found {
                Some(members) => self@ == Json::Object(member_views(members@)),
                None => !(self@ is Object),
            },
    {
        match self {
            Value::Object(members) => {
                proof {
                    lemma_object_view(*members);
                }
                Some(members)
            },
            _ => None,
        }
    }

    pub fn as_i64(&self) -> (found: Option<i64>)
        ensures
            found == self@.integer(),
    {
        match self {
            Value::Number(n) => n.integer,
            _ => None,
        }
    }

    /// The bit pattern of a number's value as a 64-bit float.
    pub fn as_f64_bits(&self) -> (found: Option<u64>)
        ensures
            found == self@.float(),
    {
        match self {
            Value::Number(n) => n.float,
            _ => None,
        }
    }

    /// The integer under a key of an object.
    pub fn integer_at(&self, key: &str) -> (found: Option<i64>)
        ensures
            found == self@.integer_at(key@),
    {
        match self.get(key) {
            Some(v) => v.as_i64(),
            None => None,
        }
    }

    /// The bit pattern of the float under a key of an object.
    pub fn float_at(&self, key: &str) -> (found: Option<u64>)
        ensures
            found == self@.float_at(key@),
    {
        match self.get(key) {
            Some(v) => v.as_f64_bits(),
            None => None,
        }
    }

    /// The text under a key of an object.
    pub fn text_at(&self, key: &str) -> (found: Option<&str>)
        ensures
            match found {
                Some(s) => self@.text_at(key@) == Some(s@),
                None => self@.text_at(key@) is None,
            },
    {
        match self.get(key) {
            Some(v) => v.as_str(),
            None => None,
        }
    }

    /// The rows that an answer gives under a name, or `None` where it gives no array.
    pub fn rows(&self, name: &str) -> (found: Option<&Vec<Value>>)
        ensures
            match found {
                Some(items) => self@.rows(name@) == views(items@),
                None => self@.rows(name@) == Seq::<Json>::empty(),
            },
    {
        match self.get(name) {
            Some(v) => match v.get("properties") {
                Some(inner) => inner.as_array(),
                None => v.as_array(),
            },
            None => None,
        }
    }
}

impl Clone for Value {
    fn clone(&self) -> (copy: Self)
        ensures
            copy@ == self@,
        decreases self,
    {
        match self {
            Value::Null => Value::Null,
            Value::Bool(b) => Value::Bool(*b),
            Value::Number(n) => Value::Number(*n),
            Value::Text(s) => Value::Text(s.clone()),
            Value::Array(items) => {
                let mut copies: Vec<Value> = Vec::new();
                let mut i: usize = 0;
                while i < items.len()
                    invariant
                        i <= items.len(),
                        copies@.len() == i,
                        *self == Value::Array(*items),
                        forall|j: int| 0 <= j < i ==> (#[trigger] copies@[j])@ == items@[j]@,
                    decreases items.len() - i,
                {
                    assert(decreases_to!(*self => self->Array_0@[i as int]));
                    copies.push(items[i].clone());
                    i = i + 1;
                }
                proof {
                    lemma_array_view(*items);
                    lemma_array_view(copies);
                    assert(views(copies@) =~= views(items@));
                }
                Value::Array(copies)
            },
            Value::Object(members) => {
                let mut copies: Vec<Member> = Vec::new();
                let mut i: usize = 0;
                while i < members.len()
                    invariant
                        i <= members.len(),
                        copies@.len() == i,
                        *self == Value::Object(*members),
                        forall|j: int|
                            0 <= j < i ==> (#[trigger] copies@[j]).key@ == members@[j].key@
                                && copies@[j].value@ == members@[j].value@,
                    decreases members.len() - i,
                {
                    assert(decreases_to!(*self => self->Object_0@[i as int].value));
                    copies.push(
                        Member { key: members[i].key.clone(), value: members[i].value.clone() },
                    );
                    i = i + 1;
                }
                proof {
                    lemma_object_view(*members);
                    lemma_object_view(copies);
                    assert(member_views(copies@) =~= member_views(members@));
                }
                Value::Object(copies)
            },
        }
    }
}

/// The text of a value that may be there, as a string of its own.
pub fn value_as_string(value: Option<&Value>) -> (text: Option<String>)
    ensures
        match value {
            Some(v) => match text {
                Some(s) => v@.text() == Some(s@),
                None => v@.text() is None,
            },
            None => text is None,
        },
{
    match value {
        Some(v) => match v.as_str() {
            Some(s) => Some(s.to_owned()),
            None => None,
        },
        None => None,
    }
}

/// What stands under a key of an object is the value of the first member with that key; nothing else
/// has anything under a key.
pub proof fn key_gives_its_first_member(j: Json, key: Seq<char>, value: Json)
    ensures
        j.get(key) == Some(value) <==> (j matches Json::Object(members) && exists|i: int|
            {
                &&& 0 <= i < members.len()
                &&& #[trigger] members[i] == (key, value)
                &&& forall|k: int| 0 <= k < i ==> (#[trigger] members[k]).0 != key
            }),
        j.get(key) is None <==> !(j matches Json::Object(members) && exists|i: int|
            0 <= i < members.len() && (#[trigger] members[i]).0 == key),
{
    if let Json::Object(members) = j {
        lemma_lookup(members, key);
        if exists|i: int|
            {
                &&& 0 <= i < members.len()
                &&& #[trigger] members[i] == (key, value)
                &&& forall|k: int| 0 <= k < i ==> (#[trigger] members[k]).0 != key
            } {
            let i = choose|i: int|
                {
                    &&& 0 <= i < members.len()
                    &&& #[trigger] members[i] == (key, value)
                    &&& forall|k: int| 0 <= k < i ==> (#[trigger] members[k]).0 != key
                };
            assert(members[i].0 == key);
            let f = choose|f: int|
                {
                    &&& 0 <= f < members.len()
                    &&& (#[trigger] members[f]).0 == key
                    &&& Some(members[f].1) == lookup(members, key)
                    &&& forall|k: int| 0 <= k < f ==> (#[trigger] members[k]).0 != key
                };
            assert(f == i) by {
                assert(members[f].0 == key && members[i].0 == key);
            }
        }
    }
}

proof fn lemma_lookup(members: Seq<(Seq<char>, Json)>, key: Seq<char>)
    ensures
        lookup(members, key) is None ==> forall|i: int|
            0 <= i < members.len() ==> (#[trigger] members[i]).0 != key,
        lookup(members, key) is Some ==> exists|f: int|
            {
                &&& 0 <= f < members.len()
                &&& (#[trigger] members[f]).0 == key
                &&& Some(members[f].1) == lookup(members, key)
                &&& forall|k: int| 0 <= k < f ==> (#[trigger] members[k]).0 != key
            },
    decreases members.len(),
{
    if members.len() > 0 {
        if members[0].0 == key {
            assert(members[0].0 == key);
        } else {
            let rest = members.drop_first();
            lemma_lookup(rest, key);
            if lookup(members, key) is None {
                assert forall|i: int| 0 <= i < members.len() implies (#[trigger] members[i]).0
                    != key by {
                    if i > 0 {
                        assert(rest[i - 1] == members[i]);
                    }
                }
            } else {
                let f = choose|f: int|
                    {
                        &&& 0 <= f < rest.len()
                        &&& (#[trigger] rest[f]).0 == key
                        &&& Some(rest[f].1) == lookup(rest, key)
                        &&& forall|k: int| 0 <= k < f ==> (#[trigger] rest[k]).0 != key
                    };
                assert(members[f + 1] == rest[f]);
                assert forall|k: int| 0 <= k < f + 1 implies (#[trigger] members[k]).0 != key by {
                    if k > 0 {
                        assert(rest[k - 1] == members[k]);
                    }
                }
            }
        }
    }
}

/// What is read under a key is what stands there, where it has the wanted form.
pub proof fn values_are_read_as_they_stand(j: Json, key: Seq<char>, text: Seq<char>, n: i64, bits: u64)
    ensures
        j.text_at(key) == Some(text) <==> j.get(key) == Some(Json::Text(text)),
        j.integer_at(key) == Some(n) <==> (j.get(key) matches Some(Json::Number(number))
            && number.integer == Some(n)),
        j.float_at(key) == Some(bits) <==> (j.get(key) matches Some(Json::Number(number))
            && number.float == Some(bits)),
{
}

/// The rows under a name are the array that stands there, or the array under `properties` of what
/// stands there; there are no others.
pub proof fn rows_stand_under_their_name(answer: Json, name: Seq<char>, items: Seq<Json>)
    ensures
        answer.get(name) == Some(Json::Array(items)) ==> answer.rows(name) == items,
        (answer.get(name) matches Some(found) && found.get("properties"@) == Some(
            Json::Array(items),
        )) ==> answer.rows(name) == items,
        answer.rows(name).len() > 0 ==> {
            let rows = answer.rows(name);
            ||| answer.get(name) == Some(Json::Array(rows))
            ||| answer.get(name) matches Some(found) && found.get("properties"@) == Some(
                Json::Array(rows),
            )
        },
{
}

/// The content of a value is the value itself, with its texts as characters.
pub proof fn content_is_what_the_value_holds(
    b: bool,
    n: Number,
    s: String,
    items: Vec<Value>,
    members: Vec<Member>,
)
    ensures
        Value::Null@ == Json::Null,
        Value::Bool(b)@ == Json::Bool(b),
        Value::Number(n)@ == Json::Number(n),
        Value::Text(s)@ == Json::Text(s@),
        Value::Array(items)@ matches Json::Array(contents) && contents.len() == items@.len()
            && forall|i: int| 0 <= i < items@.len() ==> #[trigger] contents[i] == items@[i]@,
        Value::Object(members)@ matches Json::Object(contents) && contents.len() == members@.len()
            && forall|i: int|
            0 <= i < members@.len() ==> #[trigger] contents[i] == (
                members@[i].key@,
                members@[i].value@,
            ),
        views(items@).len() == items@.len(),
        forall|i: int| 0 <= i < items@.len() ==> #[trigger] views(items@)[i] == items@[i]@,
        member_views(members@).len() == members@.len(),
        forall|i: int|
            0 <= i < members@.len() ==> #[trigger] member_views(members@)[i] == (
                members@[i].key@,
                members@[i].value@,
            ),
{
    lemma_array_view(items);
    lemma_object_view(members);
}

} // verus!
