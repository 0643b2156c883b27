//! JSON documents: the tree that the proxy reads and edits, and its text form.
use crate::text::{opt_str_view, same};
use vstd::prelude::*;

verus! {

/// A number of the `serde_json` crate, carried through unread.
#[verifier::external_type_specification]
#[verifier::external_body]
pub struct ExNumber(serde_json::Number);

/// A parsed document of the `serde_json` crate, on its way to [`Json`].
#[verifier::external_type_specification]
#[verifier::external_body]
pub struct ExValue(serde_json::Value);

/// A number of a document: the number as it was read, and its value when that
/// is an integer of 64 bits. Numbers only come from documents that were read,
/// so the two always agree.
#[derive(Debug)]
pub struct JsonNumber {
    whole: Option<i64>,
    raw: serde_json::Number,
}

impl JsonNumber {
    pub closed spec fn whole_value(self) -> Option<i64> {
        self.whole
    }

    pub closed spec fn number(self) -> serde_json::Number {
        self.raw
    }
}

/// A JSON document. Of two members of an object with one name the later counts.
#[derive(Debug)]
pub enum Json {
    Null,
    Bool(bool),
    Number(JsonNumber),
    Text(String),
    Array(Vec<Json>),
    Object(Vec<(String, Json)>),
}

/// What a document says.
pub enum JsonView {
    Null,
    Bool(bool),
    Number(Option<i64>, serde_json::Number),
    Text(Seq<char>),
    Array(Seq<JsonView>),
    Object(Map<Seq<char>, JsonView>),
}

pub open spec fn items_view(s: Seq<Json>) -> Seq<JsonView>
    decreases s,
{
    if s.len() == 0 {
        Seq::empty()
    } else {
        items_view(s.drop_last()).push(json_view(s.last()))
    }
}

pub open spec fn members_view(s: Seq<(String, Json)>) -> Map<Seq<char>, JsonView>
    decreases s,
{
    if s.len() == 0 {
        Map::empty()
    } else {
        members_view(s.drop_last()).insert(s.last().0@, json_view(s.last().1))
    }
}

pub open spec fn json_view(j: Json) -> JsonView
    decreases j,
{
    match j {
        Json::Null => JsonView::Null,
        Json::Bool(b) => JsonView::Bool(b),
        Json::Number(n) => JsonView::Number(n.whole_value(), n.number()),
        Json::Text(s) => JsonView::Text(s@),
        Json::Array(v) => JsonView::Array(items_view(v@)),
        Json::Object(v) => JsonView::Object(members_view(v@)),
    }
}

impl View for Json {
    type V = JsonView;

    open spec fn view(&self) -> JsonView {
        json_view(*self)
    }
}

impl JsonView {
    /// The member with the name `key`, of an object.
    pub open spec fn get(self, key: Seq<char>) -> Option<JsonView> {
        match self {
            JsonView::Object(m) => if m.contains_key(key) {
                Some(m[key])
            } else {
                None
            },
            _ => None,
        }
    }

    pub open spec fn text(self) -> Option<Seq<char>> {
        match self {
            JsonView::Text(s) => Some(s),
            _ => None,
        }
    }

    pub open spec fn whole(self) -> Option<i64> {
        match self {
            JsonView::Number(i, _) => i,
            _ => None,
        }
    }

    pub open spec fn truth(self) -> Option<bool> {
        match self {
            JsonView::Bool(b) => Some(b),
            _ => None,
        }
    }

    pub open spec fn items(self) -> Option<Seq<JsonView>> {
        match self {
            JsonView::Array(s) => Some(s),
            _ => None,
        }
    }
}

/// The member of an optional document.
pub open spec fn get_in(v: Option<JsonView>, key: Seq<char>) -> Option<JsonView> {
    match v {
        Some(v) => v.get(key),
        None => None,
    }
}

/// The text of an optional document.
pub open spec fn text_in(v: Option<JsonView>) -> Option<Seq<char>> {
    match v {
        Some(v) => v.text(),
        None => None,
    }
}

/// The integer of an optional document.
pub open spec fn whole_in(v: Option<JsonView>) -> Option<i64> {
    match v {
        Some(v) => v.whole(),
        None => None,
    }
}

/// The truth value of an optional document.
pub open spec fn truth_in(v: Option<JsonView>) -> Option<bool> {
    match v {
        Some(v) => v.truth(),
        None => None,
    }
}

/// The view of an optional reference to a document.
pub open spec fn ref_view(o: Option<&Json>) -> Option<JsonView> {
    match o {
        Some(j) => Some(j@),
        None => None,
    }
}

pub proof fn lemma_items(s: Seq<Json>)
    ensures
        items_view(s).len() == s.len(),
        forall|i: int| 0 <= i < s.len() ==> #[trigger] items_view(s)[i] == json_view(s[i]),
    decreases s.len(),
{
    if s.len() > 0 {
        lemma_items(s.drop_last());
        assert forall|i: int| 0 <= i < s.len() implies #[trigger] items_view(s)[i] == json_view(
            s[i],
        ) by {
            if i < s.len() - 1 {
                assert(items_view(s.drop_last())[i] == json_view(s.drop_last()[i]));
            }
        }
    }
}

/// The member at `i` is the last one with its name.
pub open spec fn last_named(s: Seq<(String, Json)>, i: int) -> bool {
    &&& 0 <= i < s.len()
    &&& forall|j: int| i < j < s.len() ==> #[trigger] s[j].0@ != s[i].0@
}

pub proof fn lemma_members(s: Seq<(String, Json)>)
    ensures
        forall|i: int|
            #[trigger] last_named(s, i) ==> members_view(s).contains_key(s[i].0@)
                && members_view(s)[s[i].0@] == json_view(s[i].1),
        forall|k: Seq<char>| #[trigger]
            members_view(s).contains_key(k) ==> exists|i: int| last_named(s, i) && s[i].0@ == k,
    decreases s.len(),
{
    if s.len() > 0 {
        let t = s.drop_last();
        lemma_members(t);
        assert forall|i: int| #[trigger] last_named(s, i) implies members_view(s).contains_key(
            s[i].0@,
        ) && members_view(s)[s[i].0@] == json_view(s[i].1) by {
            if i < s.len() - 1 {
                assert(s[s.len() - 1].0@ != s[i].0@);
                assert forall|j: int| i < j < t.len() implies #[trigger] t[j].0@ != t[i].0@ by {
                    assert(s[j].0@ != s[i].0@);
                }
                assert(last_named(t, i));
            }
        }
        assert forall|k: Seq<char>| #[trigger] members_view(s).contains_key(k) implies exists|
            i: int,
        |
            last_named(s, i) && s[i].0@ == k by {
            if k == s.last().0@ {
                assert(last_named(s, s.len() - 1));
            } else {
                assert(members_view(t).contains_key(k));
                let i = choose|i: int| last_named(t, i) && t[i].0@ == k;
                assert forall|j: int| i < j < s.len() implies #[trigger] s[j].0@ != s[i].0@ by {
                    if j < t.len() {
                        assert(t[j].0@ != t[i].0@);
                    }
                }
                assert(last_named(s, i));
            }
        }
    }
}

/// The index of the last member named `key`.
pub(crate) fn find_member(members: &Vec<(String, Json)>, key: &str) -> (r: Option<usize>)
    ensures
        match r {
            Some(i) => last_named(members@, i as int) && members@[i as int].0@ == key@,
            None => forall|j: int| 0 <= j < members@.len() ==> #[trigger] members@[j].0@ != key@,
        },
{
    let mut i: usize = members.len();
    while i > 0
        invariant
            i <= members@.len(),
            forall|j: int| i <= j < members@.len() ==> #[trigger] members@[j].0@ != key@,
        decreases i,
    {
        if same(members[i - 1].0.as_str(), key) {
            return Some(i - 1);
        }
        i = i - 1;
    }
    None
}

/// `Clone` of a `serde_json` number yields the same number.
pub assume_specification[ <serde_json::Number as Clone>::clone ](
    n: &serde_json::Number,
) -> (r: serde_json::Number)
    ensures
        r == *n,
;

impl Json {
    /// The member with the name `key`, of an object.
    pub fn get(&self, key: &str) -> (r: Option<&Json>)
        ensures
            ref_view(r) == self@.get(key@),
    {
        match self {
            Json::Object(members) => {
                proof {
                    lemma_members(members@);
                }
                match find_member(members, key) {
                    Some(i) => Some(&members[i].1),
                    None => None,
                }
            },
            _ => None,
        }
    }

    pub fn as_str(&self) -> (r: Option<&str>)
        ensures
            opt_str_view(r) == self@.text(),
    {
        match self {
            Json::Text(s) => Some(s.as_str()),
            _ => None,
        }
    }

    pub fn as_i64(&self) -> (r: Option<i64>)
        ensures
            r == self@.whole(),
    {
        match self {
            Json::Number(n) => n.whole,
            _ => None,
        }
    }

    pub fn as_bool(&self) -> (r: Option<bool>)
        ensures
            r == self@.truth(),
    {
        match self {
            Json::Bool(b) => Some(*b),
            _ => None,
        }
    }

    /// The items of an array.
    pub fn as_array(&self) -> (r: Option<&Vec<Json>>)
        ensures
            match r {
                Some(v) => {
                    &&& self@.items() matches Some(s)
                    &&& v@.len() == s.len()
                    &&& forall|i: int| 0 <= i < s.len() ==> (#[trigger] v@[i])@ == s[i]
                },
                None => self@.items() is None,
            },
    {
        match self {
            Json::Array(v) => {
                proof {
                    lemma_items(v@);
                    assert forall|i: int| 0 <= i < v@.len() implies (#[trigger] v@[i])@
                        == items_view(v@)[i] by {}
                }
                Some(v)
            },
            _ => None,
        }
    }

    /// A copy of the document.
    pub fn copy(&self) -> (r: Json)
        ensures
            r@ == self@,
        decreases *self,
    {
        match self {
            Json::Null => Json::Null,
            Json::Bool(b) => Json::Bool(*b),
            Json::Number(n) => Json::Number(JsonNumber { whole: n.whole, raw: n.raw.clone() }),
            Json::Text(s) => Json::Text(s.clone()),
            Json::Array(v) => {
                let mut out: Vec<Json> = Vec::new();
                for i in 0..v.len()
                    invariant
                        *self == Json::Array(*v),
                        items_view(out@) == items_view(v@.take(i as int)),
                {
                    assert(decreases_to!(*self => self->Array_0));
                    assert(decreases_to!(*v => v@));
                    assert(decreases_to!(v@ => v@[i as int]));
                    let item = v[i].copy();
                    let ghost before = out@;
                    out.push(item);
                    assert(out@.drop_last() =~= before);
                    assert(v@.take(i + 1).drop_last() =~= v@.take(i as int));
                }
                assert(v@.take(v@.len() as int) =~= v@);
                Json::Array(out)
            },
            Json::Object(v) => {
                let mut out: Vec<(String, Json)> = Vec::new();
                for i in 0..v.len()
                    invariant
                        *self == Json::Object(*v),
                        members_view(out@) == members_view(v@.take(i as int)),
                {
                    assert(decreases_to!(*self => self->Object_0));
                    assert(decreases_to!(*v => v@));
                    assert(decreases_to!(v@ => v@[i as int]));
                    assert(decreases_to!(v@[i as int] => v@[i as int].1));
                    let item = v[i].1.copy();
                    let ghost before = out@;
                    out.push((v[i].0.clone(), item));
                    assert(out@.drop_last() =~= before);
                    assert(v@.take(i + 1).drop_last() =~= v@.take(i as int));
                }
                assert(v@.take(v@.len() as int) =~= v@);
                Json::Object(out)
            },
        }
    }

    /// Sets the member `key` of an object; any other document stays as it is.
    pub fn set(&mut self, key: &str, value: Json)
        ensures
            final(self)@ == (match old(self)@ {
                JsonView::Object(m) => JsonView::Object(m.insert(key@, value@)),
                v => v,
            }),
    {
        match self {
            Json::Object(members) => {
                let ghost before = members@;
                members.push((key.to_owned(), value));
                assert(members@.drop_last() =~= before);
            },
            _ => {},
        }
    }
}

/// Whether an optional text is there and is `word`.
pub fn is_text(s: Option<&str>, word: &str) -> (r: bool)
    ensures
        r == (opt_str_view(s) == Some(word@)),
{
    match s {
        Some(s) => same(s, word),
        None => false,
    }
}

/// The member of an optional document.
pub fn member<'a>(j: Option<&'a Json>, key: &str) -> (r: Option<&'a Json>)
    ensures
        ref_view(r) == get_in(ref_view(j), key@),
{
    match j {
        Some(j) => j.get(key),
        None => None,
    }
}

/// The text of an optional document.
pub fn text_of<'a>(j: Option<&'a Json>) -> (r: Option<&'a str>)
    ensures
        opt_str_view(r) == text_in(ref_view(j)),
{
    match j {
        Some(j) => j.as_str(),
        None => None,
    }
}

/// The truth value of an optional document.
pub fn truth_of(j: Option<&Json>) -> (r: Option<bool>)
    ensures
        r == truth_in(ref_view(j)),
{
    match j {
        Some(j) => j.as_bool(),
        None => None,
    }
}

/// The integer of an optional document.
pub fn whole_of(j: Option<&Json>) -> (r: Option<i64>)
    ensures
        r == whole_in(ref_view(j)),
{
    match j {
        Some(j) => j.as_i64(),
        None => None,
    }
}

/// The tree that a `serde_json` document holds: an array item by item, an
/// object as the map of its members, a number with the value that
/// `Number::as_i64` gives.
pub uninterp spec fn value_tree(v: serde_json::Value) -> JsonView;

/// What `serde_json::from_slice` makes of a text, read as a
/// `serde_json::Value`: the tree of the document, or the message of the error.
pub uninterp spec fn parsed_json(bytes: Seq<u8>) -> Result<JsonView, Seq<char>>;

/// The text that `serde_json::to_vec` writes for a tree.
pub uninterp spec fn json_text(v: JsonView) -> Seq<u8>;

/// `serde_json::from_slice`: the document that the bytes hold, or the message
/// of the error, is a function of the bytes.
#[verifier::external_body]
fn parse_value(bytes: &[u8]) -> (r: Result<serde_json::Value, String>)
    ensures
        match r {
            Ok(v) => parsed_json(bytes@) == Ok::<JsonView, Seq<char>>(value_tree(v)),
            Err(e) => parsed_json(bytes@) == Err::<JsonView, Seq<char>>(e@),
        },
{
    serde_json::from_slice::<serde_json::Value>(bytes).map_err(|e| e.to_string())
}

/// `serde_json::to_vec`, which writes a `serde_json::Value` without fail: the
/// text is a function of the tree.
#[verifier::external_body]
fn value_bytes(value: &serde_json::Value) -> (r: Vec<u8>)
    ensures
        r@ == json_text(value_tree(*value)),
{
    serde_json::to_vec(value).unwrap()
}

/// A `serde_json::Value` as a [`Json`]: variant by variant, item by item.
#[verifier::external_body]
fn json_of(value: serde_json::Value) -> (r: Json)
    ensures
        r@ == value_tree(value),
{
    match value {
        serde_json::Value::Null => Json::Null,
        serde_json::Value::Bool(b) => Json::Bool(b),
        serde_json::Value::Number(n) => Json::Number(JsonNumber { whole: n.as_i64(), raw: n }),
        serde_json::Value::String(s) => Json::Text(s),
        serde_json::Value::Array(v) => Json::Array(v.into_iter().map(json_of).collect()),
        serde_json::Value::Object(m) => Json::Object(
            m.into_iter().map(|(k, v)| (k, json_of(v))).collect(),
        ),
    }
}

/// A [`Json`] as a `serde_json::Value`: variant by variant, item by item. The
/// map of an object keeps the later of two members with one name.
#[verifier::external_body]
fn value_of(json: &Json) -> (r: serde_json::Value)
    ensures
        value_tree(r) == json@,
{
    match json {
        Json::Null => serde_json::Value::Null,
        Json::Bool(b) => serde_json::Value::Bool(*b),
        Json::Number(n) => serde_json::Value::Number(n.raw.clone()),
        Json::Text(s) => serde_json::Value::String(s.clone()),
        Json::Array(v) => serde_json::Value::Array(v.iter().map(value_of).collect()),
        Json::Object(m) => serde_json::Value::Object(
            m.iter().map(|(k, v)| (k.clone(), value_of(v))).collect(),
        ),
    }
}

/// The document that `bytes` hold, or the message that says why they hold none.
pub fn parse_json(bytes: &[u8]) -> (r: Result<Json, String>)
    ensures
        match r {
            Ok(j) => parsed_json(bytes@) == Ok::<JsonView, Seq<char>>(j@),
            Err(e) => parsed_json(bytes@) == Err::<JsonView, Seq<char>>(e@),
        },
{
    match parse_value(bytes) {
        Ok(v) => Ok(json_of(v)),
        Err(e) => Err(e),
    }
}

/// The text form of a document.
pub fn json_bytes(json: &Json) -> (r: Vec<u8>)
    ensures
        r@ == json_text(json@),
{
    let value = value_of(json);
    value_bytes(&value)
}

/// The tree that a text holds, if it is a document.
pub open spec fn document(bytes: Seq<u8>) -> Option<JsonView> {
    match parsed_json(bytes) {
        Ok(v) => Some(v),
        Err(_) => None,
    }
}

} // verus!
