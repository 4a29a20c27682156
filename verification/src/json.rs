//! A JSON value model for Tiptap documents.
//!
//! `Json` is the executable value; `JsonV` is its mathematical view, in which
//! strings are character sequences.  Objects are association lists that keep
//! their members in insertion order; a lookup finds the first member with the
//! requested key, and a missing key reads as `null`, as JSON indexing does.
use vstd::prelude::*;

verus! {

/// A JSON value.  Numbers that are not unsigned 64-bit integers are kept
/// only as the fact that they are some other number.
pub enum Json {
    Null,
    Bool(bool),
    UInt(u64),
    OtherNumber,
    Str(String),
    Array(Vec<Json>),
    Object(Vec<Member>),
}

/// One `key: value` member of a JSON object.
pub struct Member {
    pub key: String,
    pub value: Json,
}

/// The mathematical view of a JSON value.
pub enum JsonV {
    Null,
    Bool(bool),
    UInt(u64),
    OtherNumber,
    Str(Seq<char>),
    Array(Seq<JsonV>),
    Object(Seq<MemberV>),
}

/// The view of one object member.
pub struct MemberV {
    pub key: Seq<char>,
    pub value: JsonV,
}

pub open spec fn json_view(j: Json) -> JsonV
    decreases j,
{
    match j {
        Json::Null => JsonV::Null,
        Json::Bool(b) => JsonV::Bool(b),
        Json::UInt(n) => JsonV::UInt(n),
        Json::OtherNumber => JsonV::OtherNumber,
        Json::Str(s) => JsonV::Str(s@),
        Json::Array(items) => JsonV::Array(
            Seq::new(
                items.len() as nat,
                |i: int|
                    if 0 <= i < items.len() {
                        json_view(items@[i])
                    } else {
                        JsonV::Null
                    },
            ),
        ),
        Json::Object(ms) => JsonV::Object(
            Seq::new(
                ms.len() as nat,
                |i: int|
                    if 0 <= i < ms.len() {
                        MemberV { key: ms@[i].key@, value: json_view(ms@[i].value) }
                    } else {
                        MemberV { key: Seq::empty(), value: JsonV::Null }
                    },
            ),
        ),
    }
}

impl View for Json {
    type V = JsonV;

    open spec fn view(&self) -> JsonV {
        json_view(*self)
    }
}

impl View for Member {
    type V = MemberV;

    open spec fn view(&self) -> MemberV {
        MemberV { key: self.key@, value: self.value@ }
    }
}

/// The views of a sequence of JSON values.
pub open spec fn views(s: Seq<Json>) -> Seq<JsonV> {
    Seq::new(s.len(), |i: int| s[i]@)
}

/// The views of a sequence of members.
pub open spec fn member_views(s: Seq<Member>) -> Seq<MemberV> {
    Seq::new(s.len(), |i: int| s[i]@)
}

/// `i` is the position of the first member of `ms` whose key is `key`.
pub open spec fn is_first_key(ms: Seq<MemberV>, key: Seq<char>, i: int) -> bool {
    &&& 0 <= i < ms.len()
    &&& ms[i].key == key
    &&& forall|j: int| 0 <= j < i ==> ms[j].key != key
}

/// The position of the first member with key `key`, if any.
pub open spec fn key_pos(ms: Seq<MemberV>, key: Seq<char>) -> Option<int> {
    if exists|i: int| is_first_key(ms, key, i) {
        Some(choose|i: int| is_first_key(ms, key, i))
    } else {
        None
    }
}

/// The value stored under `key` in a member list.
pub open spec fn members_lookup(ms: Seq<MemberV>, key: Seq<char>) -> Option<JsonV> {
    match key_pos(ms, key) {
        Some(i) => Some(ms[i].value),
        None => None,
    }
}

impl JsonV {
    /// The value under `key`, when `self` is an object that has that key.
    pub open spec fn lookup(self, key: Seq<char>) -> Option<JsonV> {
        match self {
            JsonV::Object(ms) => members_lookup(ms, key),
            _ => None,
        }
    }

    /// `self[key]`: the value under `key`, or `null` when there is none.
    pub open spec fn field(self, key: Seq<char>) -> JsonV {
        match self.lookup(key) {
            Some(v) => v,
            None => JsonV::Null,
        }
    }

    pub open spec fn as_str(self) -> Option<Seq<char>> {
        match self {
            JsonV::Str(s) => Some(s),
            _ => None,
        }
    }

    pub open spec fn as_u64(self) -> Option<u64> {
        match self {
            JsonV::UInt(n) => Some(n),
            _ => None,
        }
    }

    pub open spec fn as_array(self) -> Option<Seq<JsonV>> {
        match self {
            JsonV::Array(items) => Some(items),
            _ => None,
        }
    }

    /// `self[key].as_str()`.
    pub open spec fn str_field(self, key: Seq<char>) -> Option<Seq<char>> {
        self.field(key).as_str()
    }

    /// `self["type"].as_str()`: the node type of a Tiptap node.
    pub open spec fn node_type(self) -> Option<Seq<char>> {
        self.str_field("type"@)
    }

    /// `self["content"].as_array()`: the children of a Tiptap node.
    pub open spec fn children(self) -> Option<Seq<JsonV>> {
        self.field("content"@).as_array()
    }

    /// `self["attrs"][key]`.
    pub open spec fn attr(self, key: Seq<char>) -> JsonV {
        self.field("attrs"@).field(key)
    }
}

/// A string member of an object.
pub open spec fn str_member(key: Seq<char>, value: Seq<char>) -> MemberV {
    MemberV { key, value: JsonV::Str(value) }
}

/// The first key match sits at a unique position.
pub proof fn lemma_first_key_unique(ms: Seq<MemberV>, key: Seq<char>, i: int)
    requires
        is_first_key(ms, key, i),
    ensures
        key_pos(ms, key) == Some(i),
{
    let k = choose|k: int| is_first_key(ms, key, k);
    assert(is_first_key(ms, key, k));
    if k < i {
        assert(ms[k].key != key);
    } else if i < k {
        assert(ms[i].key != key);
    }
}

/// A key held by exactly one member is found at that member.
pub proof fn lemma_unique_key(ms: Seq<MemberV>, key: Seq<char>, i: int)
    requires
        0 <= i < ms.len(),
        ms[i].key == key,
        forall|j: int| 0 <= j < ms.len() && j != i ==> ms[j].key != key,
    ensures
        members_lookup(ms, key) == Some(ms[i].value),
{
    assert(is_first_key(ms, key, i));
    lemma_first_key_unique(ms, key, i);
}

/// A key held by no member is not found.
pub proof fn lemma_absent_key(ms: Seq<MemberV>, key: Seq<char>)
    requires
        forall|j: int| 0 <= j < ms.len() ==> ms[j].key != key,
    ensures
        members_lookup(ms, key) is None,
{
    assert(!exists|i: int| is_first_key(ms, key, i));
}

/// A value found under a key is structurally smaller than the object.
pub proof fn lemma_lookup_smaller(node: JsonV, key: Seq<char>)
    requires
        node.lookup(key) is Some,
    ensures
        decreases_to!(node => node.lookup(key)->0),
{
    if let JsonV::Object(ms) = node {
        let i = key_pos(ms, key)->0;
        assert(is_first_key(ms, key, i));
        assert(decreases_to!(node => ms));
        assert(decreases_to!(ms => ms[i]));
        assert(decreases_to!(ms[i] => ms[i].value));
    }
}

/// The children of a node are structurally smaller than the node.
pub proof fn lemma_children_smaller(node: JsonV)
    requires
        node.children() is Some,
    ensures
        decreases_to!(node => node.children()->0),
{
    lemma_lookup_smaller(node, "content"@);
    let c = node.lookup("content"@)->0;
    if let JsonV::Array(items) = c {
        assert(decreases_to!(c => items));
    }
}

impl Member {
    pub fn new(key: &str, value: Json) -> (m: Member)
        ensures
            m@ == (MemberV { key: key@, value: value@ }),
    {
        Member { key: key.to_owned(), value }
    }
}

impl Json {
    /// A JSON string holding the characters of `s`.
    pub fn string(s: &str) -> (j: Json)
        ensures
            j@ == JsonV::Str(s@),
    {
        Json::Str(s.to_owned())
    }

    /// A JSON array.
    pub fn array(items: Vec<Json>) -> (j: Json)
        ensures
            j@ == JsonV::Array(views(items@)),
    {
        let j = Json::Array(items);
        assert(j@->Array_0 =~= views(items@));
        j
    }

    /// A JSON object with the given members, in order.
    pub fn object(ms: Vec<Member>) -> (j: Json)
        ensures
            j@ == JsonV::Object(member_views(ms@)),
    {
        let j = Json::Object(ms);
        assert(j@->Object_0 =~= member_views(ms@));
        j
    }

    /// A copy of `self` with the same view.
    pub fn deep_copy(&self) -> (c: Json)
        ensures
            c@ == self@,
        decreases self,
    {
        match self {
            Json::Null => Json::Null,
            Json::Bool(b) => Json::Bool(*b),
            Json::UInt(n) => Json::UInt(*n),
            Json::OtherNumber => Json::OtherNumber,
            Json::Str(s) => Json::Str(s.clone()),
            Json::Array(items) => {
                let mut v: Vec<Json> = Vec::new();
                let mut i: usize = 0;
                while i < items.len()
                    invariant
                        0 <= i <= items.len(),
                        v@.len() == i,
                        forall|k: int| 0 <= k < i ==> #[trigger] v@[k]@ == items@[k]@,
                        *self == Json::Array(*items),
                    decreases items.len() - i,
                {
                    assert(decreases_to!(*self => (*self)->Array_0));
                    assert(decreases_to!(*items => items@));
                    assert(decreases_to!(items@ => items@[i as int]));
                    assert(decreases_to!(*self => items@[i as int]));
                    v.push(items[i].deep_copy());
                    i += 1;
                }
                let c = Json::Array(v);
                assert forall|k: int| 0 <= k < v.len() implies c@->Array_0[k] == self@->Array_0[k] by {
                    assert(v@[k]@ == items@[k]@);
                }
                assert(c@->Array_0 =~= self@->Array_0);
                c
            },
            Json::Object(ms) => {
                let mut v: Vec<Member> = Vec::new();
                let mut i: usize = 0;
                while i < ms.len()
                    invariant
                        0 <= i <= ms.len(),
                        v@.len() == i,
                        forall|k: int| 0 <= k < i ==> #[trigger] v@[k]@ == ms@[k]@,
                        *self == Json::Object(*ms),
                    decreases ms.len() - i,
                {
                    assert(decreases_to!(*self => (*self)->Object_0));
                    assert(decreases_to!(*ms => ms@));
                    assert(decreases_to!(ms@ => ms@[i as int]));
                    assert(decreases_to!(ms@[i as int] => ms@[i as int].value));
                    assert(decreases_to!(*self => ms@[i as int].value));
                    let value = ms[i].value.deep_copy();
                    v.push(Member { key: ms[i].key.clone(), value });
                    i += 1;
                }
                let c = Json::Object(v);
                assert forall|k: int| 0 <= k < v.len() implies c@->Object_0[k] == self@->Object_0[k] by {
                    assert(v@[k]@ == ms@[k]@);
                }
                assert(c@->Object_0 =~= self@->Object_0);
                c
            },
        }
    }

    /// `self[key]` as a reference, when `self` is an object with that key.
    pub fn get<'a>(&'a self, key: &str) -> (r: Option<&'a Json>)
        ensures
            match r {
                Some(v) => self@.lookup(key@) == Some(v@),
                None => self@.lookup(key@) is None,
            },
    {
        match self {
            Json::Object(ms) => {
                let ghost mv = self@->Object_0;
                let mut i: usize = 0;
                while i < ms.len()
                    invariant
                        0 <= i <= ms.len(),
                        mv.len() == ms.len(),
                        self@ == JsonV::Object(mv),
                        forall|k: int| 0 <= k < ms.len() ==> #[trigger] mv[k] == ms@[k]@,
                        forall|j: int| 0 <= j < i ==> mv[j].key != key@,
                    decreases ms.len() - i,
                {
                    assert(mv[i as int] == ms@[i as int]@);
                    if str_eq(ms[i].key.as_str(), key) {
                        proof {
                            lemma_first_key_unique(mv, key@, i as int);
                        }
                        return Some(&ms[i].value);
                    }
                    i += 1;
                }
                assert(!exists|k: int| is_first_key(mv, key@, k));
                None
            },
            _ => None,
        }
    }

    /// `self.as_str()`.
    pub fn as_str(&self) -> (r: Option<&str>)
        ensures
            match r {
                Some(s) => self@.as_str() == Some(s@),
                None => self@.as_str() is None,
            },
    {
        match self {
            Json::Str(s) => Some(s.as_str()),
            _ => None,
        }
    }

    /// `self.as_u64()`.
    pub fn as_u64(&self) -> (r: Option<u64>)
        ensures
            r == self@.as_u64(),
    {
        match self {
            Json::UInt(n) => Some(*n),
            _ => None,
        }
    }

    /// `self.as_array()`.
    pub fn as_array(&self) -> (r: Option<&Vec<Json>>)
        ensures
            match r {
                Some(v) => self@.as_array() == Some(views(v@)),
                None => self@.as_array() is None,
            },
    {
        match self {
            Json::Array(items) => {
                assert(self@->Array_0 =~= views(items@));
                Some(items)
            },
            _ => None,
        }
    }

    /// `self[key].as_str()`.
    pub fn str_field(&self, key: &str) -> (r: Option<&str>)
        ensures
            match r {
                Some(s) => self@.str_field(key@) == Some(s@),
                None => self@.str_field(key@) is None,
            },
    {
        match self.get(key) {
            Some(v) => v.as_str(),
            None => None,
        }
    }

    /// `self[key].as_array()`.
    pub fn array_field(&self, key: &str) -> (r: Option<&Vec<Json>>)
        ensures
            match r {
                Some(v) => self@.field(key@).as_array() == Some(views(v@)),
                None => self@.field(key@).as_array() is None,
            },
    {
        match self.get(key) {
            Some(v) => v.as_array(),
            None => None,
        }
    }

    /// `self["attrs"][key]`, when present.
    pub fn attr<'a>(&'a self, key: &str) -> (r: Option<&'a Json>)
        ensures
            match r {
                Some(v) => self@.attr(key@) == v@ && self@.field("attrs"@).lookup(key@) == Some(v@),
                None => self@.field("attrs"@).lookup(key@) is None,
            },
    {
        match self.get("attrs") {
            Some(a) => a.get(key),
            None => None,
        }
    }
}

/// Whether `a` and `b` hold the same characters.
pub fn str_eq(a: &str, b: &str) -> (r: bool)
    ensures
        r == (a@ == b@),
{
    let x = crate::text::chars_of(a);
    let y = crate::text::chars_of(b);
    if x.len() != y.len() {
        return false;
    }
    let mut i: usize = 0;
    while i < x.len()
        invariant
            0 <= i <= x.len(),
            x.len() == y.len(),
            x@ == a@,
            y@ == b@,
            forall|k: int| 0 <= k < i ==> x@[k] == y@[k],
        decreases x.len() - i,
    {
        if x[i] != y[i] {
            return false;
        }
        i += 1;
    }
    assert(x@ =~= y@);
    true
}

} // verus!
