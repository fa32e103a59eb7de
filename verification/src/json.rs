//! JSON documents, as far as the adapters read and build them.
use crate::double;
use crate::double::Double;
use crate::text;
use vstd::prelude::*;

verus! {

/// A JSON number, as it is written: an integer that fits in 64 bits, or a binary64 value.
#[derive(Debug, Clone, Copy, PartialEq, Eq, Structural)]
pub enum Number {
    Unsigned(u64),
    Negative(i64),
    Float(Double),
}

/// A JSON document. An object's members are listed by key.
#[derive(Debug)]
pub enum Json {
    Null,
    Bool(bool),
    Number(Number),
    Text(String),
    Array(Vec<Json>),
    Object(Vec<(String, Json)>),
}

/// The model of a [`Json`]: an object maps keys to documents.
pub enum JsonView {
    Null,
    Bool(bool),
    Number(Number),
    Text(Seq<char>),
    Array(Seq<JsonView>),
    Object(Map<Seq<char>, JsonView>),
}

impl Number {
    /// The number as a binary64 value; an integer is rounded to nearest, ties to even.
    pub open spec fn double(self) -> Double {
        match self {
            Number::Unsigned(n) => double::of_integer(n as int),
            Number::Negative(n) => double::of_integer(n as int),
            Number::Float(d) => d,
        }
    }

    /// The number as a binary64 value; an integer is rounded to nearest, ties to even.
    pub fn to_double(&self) -> (r: Double)
        ensures
            r == self.double(),
    {
        match self {
            Number::Unsigned(n) => Double::from_u64(*n),
            Number::Negative(n) => Double::from_i64(*n),
            Number::Float(d) => *d,
        }
    }
}

/// The documents of a list.
pub open spec fn items_view(items: Seq<Json>) -> Seq<JsonView>
    decreases items,
{
    if items.len() == 0 {
        Seq::empty()
    } else {
        items_view(items.drop_last()).push(items.last().view())
    }
}

/// The map that an object's members list; of two members with one key the first counts.
pub open spec fn members_view(members: Seq<(String, Json)>) -> Map<Seq<char>, JsonView>
    decreases members,
{
    if members.len() == 0 {
        Map::empty()
    } else {
        members_view(members.drop_first()).insert(members[0].0@, members[0].1.view())
    }
}

impl JsonView {
    /// The number of a number, as a binary64 value.
    pub open spec fn number(self) -> Option<Double> {
        match self {
            JsonView::Number(n) => Some(n.double()),
            _ => None,
        }
    }

    /// The state of a boolean.
    pub open spec fn boolean(self) -> Option<bool> {
        match self {
            JsonView::Bool(b) => Some(b),
            _ => None,
        }
    }

    /// The text of a string.
    pub open spec fn string(self) -> Option<Seq<char>> {
        match self {
            JsonView::Text(s) => Some(s),
            _ => None,
        }
    }

    /// The number of a number that is written as an unsigned integer.
    pub open spec fn unsigned(self) -> Option<u64> {
        match self {
            JsonView::Number(Number::Unsigned(n)) => Some(n),
            _ => None,
        }
    }

    /// The member `key` of an object.
    pub open spec fn member(self, key: Seq<char>) -> Option<JsonView> {
        match self {
            JsonView::Object(m) => if m.contains_key(key) {
                Some(m[key])
            } else {
                None
            },
            _ => None,
        }
    }
}

impl Json {
    /// The model of this document.
    pub open spec fn view(self) -> JsonView
        decreases self,
    {
        match self {
            Json::Null => JsonView::Null,
            Json::Bool(b) => JsonView::Bool(b),
            Json::Number(n) => JsonView::Number(n),
            Json::Text(s) => JsonView::Text(s@),
            Json::Array(a) => JsonView::Array(items_view(a@)),
            Json::Object(m) => JsonView::Object(members_view(m@)),
        }
    }

    /// The number of a number, as a binary64 value.
    pub fn as_f64(&self) -> (r: Option<Double>)
        ensures
            r == self@.number(),
    {
        match self {
            Json::Number(n) => Some(n.to_double()),
            _ => None,
        }
    }

    /// The state of a boolean.
    pub fn as_bool(&self) -> (r: Option<bool>)
        ensures
            r == self@.boolean(),
    {
        match self {
            Json::Bool(b) => Some(*b),
            _ => None,
        }
    }

    /// The text of a string.
    pub fn as_str(&self) -> (r: Option<&str>)
        ensures
            match r {
                Some(t) => self@.string() == Some(t@),
                None => self@.string() is None,
            },
    {
        match self {
            Json::Text(s) => Some(s.as_str()),
            _ => None,
        }
    }

    /// The number of a number that is written as an unsigned integer.
    pub fn as_u64(&self) -> (r: Option<u64>)
        ensures
            r == self@.unsigned(),
    {
        match self {
            Json::Number(Number::Unsigned(n)) => Some(*n),
            _ => None,
        }
    }

    /// The member `key` of an object.
    pub fn get(&self, key: &str) -> (r: Option<&Json>)
        ensures
            match r {
                Some(v) => self@.member(key@) == Some(v@),
                None => self@.member(key@) is None,
            },
    {
        match self {
            Json::Object(m) => match find(m, key) {
                Some(i) => Some(&m[i].1),
                None => None,
            },
            _ => None,
        }
    }
}

/// The document of a binary64 value; JSON has no infinities and no NaN.
pub open spec fn number_document(d: Double) -> JsonView {
    if d.finite() {
        JsonView::Number(Number::Float(d))
    } else {
        JsonView::Null
    }
}

/// The document of a binary64 value; JSON has no infinities and no NaN.
pub fn from_double(d: Double) -> (r: Json)
    ensures
        r@ == number_document(d),
{
    if d.bits % double::SIGN < double::INFINITE {
        Json::Number(Number::Float(d))
    } else {
        Json::Null
    }
}

/// Whether the member at `i` is the first with the key `key`.
pub open spec fn first_at(members: Seq<(String, Json)>, i: int, key: Seq<char>) -> bool {
    &&& 0 <= i < members.len()
    &&& members[i].0@ == key
    &&& forall|j: int| 0 <= j < i ==> (#[trigger] members[j]).0@ != key
}

/// Whether no member has the key `key`.
pub open spec fn absent(members: Seq<(String, Json)>, key: Seq<char>) -> bool {
    forall|j: int| 0 <= j < members.len() ==> (#[trigger] members[j]).0@ != key
}

proof fn lemma_first(members: Seq<(String, Json)>, i: int, key: Seq<char>)
    requires
        first_at(members, i, key),
    ensures
        members_view(members).contains_key(key),
        members_view(members)[key] == members[i].1@,
    decreases members.len(),
{
    if i > 0 {
        let rest = members.drop_first();
        assert(members[0].0@ != key);
        assert forall|j: int| 0 <= j < i - 1 implies (#[trigger] rest[j]).0@ != key by {
            assert(rest[j] == members[j + 1]);
        }
        lemma_first(rest, i - 1, key);
    }
}

proof fn lemma_absent(members: Seq<(String, Json)>, key: Seq<char>)
    requires
        absent(members, key),
    ensures
        !members_view(members).contains_key(key),
    decreases members.len(),
{
    if members.len() > 0 {
        let rest = members.drop_first();
        assert(members[0].0@ != key);
        assert forall|j: int| 0 <= j < rest.len() implies (#[trigger] rest[j]).0@ != key by {
            assert(rest[j] == members[j + 1]);
        }
        lemma_absent(rest, key);
    }
}

proof fn lemma_replace(members: Seq<(String, Json)>, i: int, key: Seq<char>, m: (String, Json))
    requires
        first_at(members, i, key),
        m.0@ == key,
    ensures
        members_view(members.update(i, m)) == members_view(members).insert(key, m.1@),
    decreases members.len(),
{
    let rest = members.drop_first();
    let new = members.update(i, m);
    if i > 0 {
        assert(members[0].0@ != key);
        assert forall|j: int| 0 <= j < i - 1 implies (#[trigger] rest[j]).0@ != key by {
            assert(rest[j] == members[j + 1]);
        }
        lemma_replace(rest, i - 1, key, m);
        assert(new.drop_first() == rest.update(i - 1, m));
        assert(members_view(new) == members_view(members).insert(key, m.1@));
    } else {
        assert(new.drop_first() == rest);
        assert(members_view(new) == members_view(members).insert(key, m.1@));
    }
}

proof fn lemma_append(members: Seq<(String, Json)>, m: (String, Json))
    requires
        absent(members, m.0@),
    ensures
        members_view(members.push(m)) == members_view(members).insert(m.0@, m.1@),
    decreases members.len(),
{
    let new = members.push(m);
    if members.len() > 0 {
        let rest = members.drop_first();
        assert(members[0].0@ != m.0@);
        assert forall|j: int| 0 <= j < rest.len() implies (#[trigger] rest[j]).0@ != m.0@ by {
            assert(rest[j] == members[j + 1]);
        }
        lemma_append(rest, m);
        assert(new.drop_first() == rest.push(m));
        assert(members_view(new) == members_view(members).insert(m.0@, m.1@));
    } else {
        assert(new.drop_first() == members);
    }
}

/// The position of the first member with the key `key`.
pub fn find(members: &Vec<(String, Json)>, key: &str) -> (r: Option<usize>)
    ensures
        match r {
            Some(i) => {
                &&& first_at(members@, i as int, key@)
                &&& members_view(members@).contains_key(key@)
                &&& members_view(members@)[key@] == members@[i as int].1@
            },
            None => absent(members@, key@) && !members_view(members@).contains_key(key@),
        },
{
    let mut i: usize = 0;
    while i < members.len()
        invariant
            i <= members.len(),
            forall|j: int| 0 <= j < i ==> (#[trigger] members@[j]).0@ != key@,
        decreases members.len() - i,
    {
        if text::same(members[i].0.as_str(), key) {
            proof {
                lemma_first(members@, i as int, key@);
            }
            return Some(i);
        }
        i = i + 1;
    }
    proof {
        lemma_absent(members@, key@);
    }
    None
}

/// Sets the member `key` of an object.
pub fn set_member(members: &mut Vec<(String, Json)>, key: &str, value: Json)
    ensures
        members_view(final(members)@) == members_view(old(members)@).insert(key@, value@),
{
    let at: Option<usize> = find(members, key);
    let m: (String, Json) = (key.to_owned(), value);
    match at {
        Some(i) => {
            proof {
                lemma_replace(members@, i as int, key@, m);
            }
            members.set(i, m);
        },
        None => {
            proof {
                lemma_append(members@, m);
            }
            members.push(m);
        },
    }
}

} // verus!
