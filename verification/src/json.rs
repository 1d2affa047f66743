//! A JSON tree of the library's own, with the accessors that the diff of
//! two revision documents reads it through.

use crate::text::{chars_of, parse_unsigned, str_eq, unsigned_value};
use vstd::prelude::*;

verus! {

/// A JSON value. An object keeps its members in the order in which they
/// are walked; a number is kept as the text that writes it.
#[derive(Debug, PartialEq)]
pub enum Json {
    Null,
    Bool(bool),
    Number(String),
    Text(String),
    Array(Vec<Json>),
    Object(Vec<(String, Json)>),
}

/// The mathematical value of a [`Json`] tree. A number stands in it by its
/// text, negative zero by the text of zero.
pub enum JsonView {
    Null,
    Bool(bool),
    Number(Seq<char>),
    Text(Seq<char>),
    Array(Seq<JsonView>),
    Object(Seq<(Seq<char>, JsonView)>),
}

/// The members of an object: keys with their values, in order.
pub type Members = Seq<(Seq<char>, JsonView)>;

/// The text that a number is compared by: its own, but for negative zero,
/// which is the same number as zero.
pub open spec fn number_value(text: Seq<char>) -> Seq<char> {
    if text == "-0.0"@ {
        "0.0"@
    } else {
        text
    }
}

impl View for Json {
    type V = JsonView;

    open spec fn view(&self) -> JsonView
        decreases self,
    {
        match self {
            Json::Null => JsonView::Null,
            Json::Bool(b) => JsonView::Bool(*b),
            Json::Number(n) => JsonView::Number(number_value(n@)),
            Json::Text(s) => JsonView::Text(s@),
            Json::Array(items) => JsonView::Array(
                Seq::new(
                    items.len() as nat,
                    |i: int|
                        if 0 <= i < items.len() {
                            items[i].view()
                        } else {
                            JsonView::Null
                        },
                ),
            ),
            Json::Object(members) => JsonView::Object(
                Seq::new(
                    members.len() as nat,
                    |i: int|
                        if 0 <= i < members.len() {
                            (members[i].0@, members[i].1.view())
                        } else {
                            (Seq::empty(), JsonView::Null)
                        },
                ),
            ),
        }
    }
}

/// The value of the first member with the given key, if there is one.
pub open spec fn lookup(members: Members, key: Seq<char>) -> Option<JsonView>
    decreases members.len(),
{
    if members.len() == 0 {
        None
    } else if members[0].0 == key {
        Some(members[0].1)
    } else {
        lookup(members.drop_first(), key)
    }
}

/// No key stands twice among the members.
pub open spec fn distinct_keys(members: Members) -> bool {
    forall|i: int, j: int| 0 <= i < j < members.len() ==> members[i].0 != members[j].0
}

/// Whether some member has the given key.
pub open spec fn has_key(members: Members, key: Seq<char>) -> bool {
    exists|i: int| 0 <= i < members.len() && (#[trigger] members[i]).0 == key
}

impl JsonView {
    /// Whether no object of the tree, at any depth, has a key twice.
    pub open spec fn well_formed(self) -> bool
        decreases self,
    {
        match self {
            JsonView::Array(items) => forall|i: int|
                0 <= i < items.len() ==> (#[trigger] items[i]).well_formed(),
            JsonView::Object(members) => distinct_keys(members) && forall|i: int|
                0 <= i < members.len() ==> (#[trigger] members[i]).1.well_formed(),
            _ => true,
        }
    }

    /// The member of an object under `key`; `None` for a missing key and for
    /// a value that is no object.
    pub open spec fn get(self, key: Seq<char>) -> Option<JsonView> {
        match self {
            JsonView::Object(members) => lookup(members, key),
            _ => None,
        }
    }

    /// The characters of a string value.
    pub open spec fn as_text(self) -> Option<Seq<char>> {
        match self {
            JsonView::Text(s) => Some(s),
            _ => None,
        }
    }

    /// The truth value of a boolean.
    pub open spec fn as_bool(self) -> Option<bool> {
        match self {
            JsonView::Bool(b) => Some(b),
            _ => None,
        }
    }

    /// The number as a `u64`: defined where the value is a number whose
    /// text is made of decimal digits and fits.
    pub open spec fn as_u64(self) -> Option<u64> {
        match self {
            JsonView::Number(n) => unsigned_value(n),
            _ => None,
        }
    }

    /// The members of an object; none for any other value.
    pub open spec fn members(self) -> Members {
        match self {
            JsonView::Object(members) => members,
            _ => Seq::empty(),
        }
    }

    /// The items of an array; none for any other value.
    pub open spec fn items(self) -> Seq<JsonView> {
        match self {
            JsonView::Array(items) => items,
            _ => Seq::empty(),
        }
    }

    /// The string under `key`: defined where the value is an object whose
    /// first member of that key is a string.
    pub open spec fn text_field(self, key: Seq<char>) -> Option<Seq<char>> {
        match self.get(key) {
            Some(v) => v.as_text(),
            None => None,
        }
    }

    /// The members of the object under `key`; none where the key is missing
    /// or holds no object.
    pub open spec fn object_field(self, key: Seq<char>) -> Members {
        match self.get(key) {
            Some(v) => v.members(),
            None => Seq::empty(),
        }
    }

    /// The items of the array under `key`; none where the key is missing or
    /// holds no array.
    pub open spec fn array_field(self, key: Seq<char>) -> Seq<JsonView> {
        match self.get(key) {
            Some(v) => v.items(),
            None => Seq::empty(),
        }
    }
}

/// The values of a list of trees.
pub open spec fn items_view(items: Seq<Json>) -> Seq<JsonView> {
    Seq::new(items.len(), |i: int| items[i]@)
}

/// The keys and values of a list of members.
pub open spec fn members_view(members: Seq<(String, Json)>) -> Members {
    Seq::new(members.len(), |i: int| (members[i].0@, members[i].1@))
}

/// The view of an array is the list of its items' views.
pub proof fn lemma_array_view(items: Vec<Json>)
    ensures
        Json::Array(items)@ == JsonView::Array(items_view(items@)),
{
    assert(Json::Array(items)@.items() =~= items_view(items@));
}

/// The view of an object is the list of its members' views.
pub proof fn lemma_object_view(members: Vec<(String, Json)>)
    ensures
        Json::Object(members)@ == JsonView::Object(members_view(members@)),
{
    reveal_with_fuel(<Json as View>::view, 2);
    assert(Json::Object(members)@.members() =~= members_view(members@));
}

/// The first member with a key is the one that `lookup` finds.
pub proof fn lemma_lookup_found(members: Members, key: Seq<char>, i: int)
    requires
        0 <= i < members.len(),
        members[i].0 == key,
        forall|j: int| 0 <= j < i ==> (#[trigger] members[j]).0 != key,
    ensures
        lookup(members, key) == Some(members[i].1),
    decreases i,
{
    if i > 0 {
        let rest = members.drop_first();
        assert(members[0].0 != key);
        assert forall|j: int| 0 <= j < i - 1 implies (#[trigger] rest[j]).0 != key by {
            assert(rest[j] == members[j + 1]);
        }
        lemma_lookup_found(rest, key, i - 1);
    }
}

/// `lookup` finds a member exactly where one has the key.
pub proof fn lemma_lookup_has_key(members: Members, key: Seq<char>)
    ensures
        lookup(members, key) is Some <==> has_key(members, key),
    decreases members.len(),
{
    if members.len() > 0 {
        if members[0].0 == key {
            assert(has_key(members, key));
        } else {
            let rest = members.drop_first();
            lemma_lookup_has_key(rest, key);
            if has_key(rest, key) {
                let i = choose|i: int| 0 <= i < rest.len() && (#[trigger] rest[i]).0 == key;
                assert(members[i + 1] == rest[i]);
            }
            if has_key(members, key) {
                let i = choose|i: int| 0 <= i < members.len() && (#[trigger] members[i]).0 == key;
                assert(rest[i - 1] == members[i]);
            }
        }
    }
}

/// What `lookup` finds is the value of one of the members.
pub proof fn lemma_lookup_is_member(members: Members, key: Seq<char>)
    ensures
        lookup(members, key) matches Some(value) ==> exists|i: int|
            0 <= i < members.len() && (#[trigger] members[i]) == (key, value),
    decreases members.len(),
{
    if members.len() > 0 && members[0].0 != key {
        let rest = members.drop_first();
        lemma_lookup_is_member(rest, key);
        if lookup(rest, key) is Some {
            let value = lookup(rest, key)->0;
            let i = choose|i: int| 0 <= i < rest.len() && (#[trigger] rest[i]) == (key, value);
            assert(members[i + 1] == rest[i]);
        }
    }
}

/// In a well-formed tree every section is well formed: no key stands twice
/// among the members of the object under a key.
pub proof fn lemma_section_distinct_keys(tree: JsonView, key: Seq<char>)
    requires
        tree.well_formed(),
    ensures
        distinct_keys(tree.object_field(key)),
{
    match tree {
        JsonView::Object(members) => {
            lemma_lookup_is_member(members, key);
            match lookup(members, key) {
                Some(value) => {
                    let i = choose|i: int|
                        0 <= i < members.len() && (#[trigger] members[i]) == (key, value);
                    assert(members[i].1.well_formed());
                },
                None => {},
            }
        },
        _ => {},
    }
}

/// `serde_json::Value`, carried from the parser to the copy that makes a
/// tree of it; nothing is known of what it holds but by [`value_tree`].
#[verifier::external_type_specification]
#[verifier::external_body]
pub struct ExValue(serde_json::Value);

/// `serde_json::Error`, which the parser gives for a text that is no JSON.
#[verifier::external_type_specification]
#[verifier::external_body]
pub struct ExError(serde_json::Error);

/// The tree that `serde_json` reads a text as; none where it rejects the
/// text.
pub uninterp spec fn json_text_value(text: Seq<char>) -> Option<JsonView>;

/// The tree that a value of `serde_json` holds.
pub uninterp spec fn value_tree(value: serde_json::Value) -> JsonView;

/// `serde_json::from_str`, read as a `serde_json::Value`. The result is a
/// function of the text alone: either the value of the text, or an error
/// where the text is no JSON or nests deeper than the parser goes.
#[verifier::external_body]
fn parse_value(text: &str) -> (r: Result<serde_json::Value, serde_json::Error>)
    ensures
        match r {
            Ok(value) => json_text_value(text@) == Some(value_tree(value)),
            Err(_) => json_text_value(text@) is None,
        },
{
    serde_json::from_str::<serde_json::Value>(text)
}

/// Copies a `serde_json::Value` into a tree, variant by variant: a number
/// by the text that `serde_json` prints it as, an object's members in the
/// order in which `serde_json::Map` walks them. A `serde_json::Map` holds
/// each key once, so the tree is well formed.
#[verifier::external_body]
fn tree_of_value(value: &serde_json::Value) -> (tree: Json)
    ensures
        tree@ == value_tree(*value),
        tree@.well_formed(),
{
    match value {
        serde_json::Value::Null => Json::Null,
        serde_json::Value::Bool(b) => Json::Bool(*b),
        serde_json::Value::Number(n) => Json::Number(n.to_string()),
        serde_json::Value::String(s) => Json::Text(s.clone()),
        serde_json::Value::Array(a) => Json::Array(a.iter().map(tree_of_value).collect()),
        serde_json::Value::Object(o) => Json::Object(
            o.iter().map(|(k, v)| (k.clone(), tree_of_value(v))).collect(),
        ),
    }
}

/// The text that a number is compared by.
fn number_text(text: &str) -> (r: &str)
    ensures
        r@ == number_value(text@),
{
    if str_eq(text, "-0.0") {
        "0.0"
    } else {
        text
    }
}

/// Negative zero and zero are no whole numbers as they are written, so
/// a number reads as a `u64` by its own text as by the one that it is
/// compared by.
proof fn lemma_number_value_unsigned(text: Seq<char>)
    ensures
        unsigned_value(number_value(text)) == unsigned_value(text),
{
    reveal_strlit("-0.0");
    reveal_strlit("0.0");
    if text == "-0.0"@ {
        assert(!crate::text::is_digit("-0.0"@[0]));
        assert(!crate::text::is_digit("0.0"@[1]));
    }
}

/// The value of the first member with the given key.
pub fn find_member<'a>(members: &'a [(String, Json)], key: &str) -> (r: Option<&'a Json>)
    ensures
        match r {
            Some(v) => lookup(members_view(members@), key@) == Some(v@),
            None => lookup(members_view(members@), key@) is None,
        },
{
    let ghost m = members_view(members@);
    let mut i: usize = 0;
    while i < members.len()
        invariant
            0 <= i <= members.len(),
            m == members_view(members@),
            forall|j: int| 0 <= j < i ==> (#[trigger] m[j]).0 != key@,
        decreases members.len() - i,
    {
        if str_eq(members[i].0.as_str(), key) {
            proof {
                lemma_lookup_found(m, key@, i as int);
            }
            return Some(&members[i].1);
        }
        i += 1;
    }
    proof {
        lemma_lookup_has_key(m, key@);
    }
    None
}

impl Json {
    /// The member of an object under `key`.
    pub fn get(&self, key: &str) -> (r: Option<&Json>)
        ensures
            match r {
                Some(v) => self@.get(key@) == Some(v@),
                None => self@.get(key@) is None,
            },
    {
        match self {
            Json::Object(members) => {
                proof {
                    lemma_object_view(*members);
                }
                find_member(members.as_slice(), key)
            },
            _ => None,
        }
    }

    /// The characters of a string value.
    pub fn as_str(&self) -> (r: Option<&str>)
        ensures
            match r {
                Some(s) => self@.as_text() == Some(s@),
                None => self@.as_text() is None,
            },
    {
        match self {
            Json::Text(s) => Some(s.as_str()),
            _ => None,
        }
    }

    /// The truth value of a boolean.
    pub fn as_bool(&self) -> (r: Option<bool>)
        ensures
            r == self@.as_bool(),
    {
        match self {
            Json::Bool(b) => Some(*b),
            _ => None,
        }
    }

    /// The number as a `u64`.
    pub fn as_u64(&self) -> (r: Option<u64>)
        ensures
            r == self@.as_u64(),
    {
        match self {
            Json::Number(n) => {
                let digits = chars_of(n.as_str());
                proof {
                    assert(digits@.subrange(0, digits.len() as int) =~= n@);
                    lemma_number_value_unsigned(n@);
                }
                parse_unsigned(&digits, 0)
            },
            _ => None,
        }
    }

    /// Reads a JSON text. There is no tree where the parser rejects the
    /// text. A tree that was read is well formed.
    pub fn parse(text: &str) -> (r: Option<Json>)
        ensures
            match r {
                Some(tree) => json_text_value(text@) == Some(tree@) && tree@.well_formed(),
                None => json_text_value(text@) is None,
            },
    {
        match parse_value(text) {
            Ok(value) => Some(tree_of_value(&value)),
            Err(_) => None,
        }
    }

    /// The string under `key`.
    pub fn text_field(&self, key: &str) -> (r: Option<&str>)
        ensures
            match r {
                Some(s) => self@.text_field(key@) == Some(s@),
                None => self@.text_field(key@) is None,
            },
    {
        match self.get(key) {
            Some(v) => v.as_str(),
            None => None,
        }
    }

    /// Whether two trees have the same value.
    pub fn deep_eq(&self, other: &Json) -> (r: bool)
        ensures
            r == (self@ == other@),
        decreases self,
    {
        match self {
            Json::Null => match other {
                Json::Null => true,
                _ => false,
            },
            Json::Bool(a) => match other {
                Json::Bool(b) => *a == *b,
                _ => false,
            },
            Json::Number(a) => match other {
                Json::Number(b) => str_eq(number_text(a.as_str()), number_text(b.as_str())),
                _ => false,
            },
            Json::Text(a) => match other {
                Json::Text(b) => str_eq(a.as_str(), b.as_str()),
                _ => false,
            },
            Json::Array(a) => match other {
                Json::Array(b) => {
                    proof {
                        lemma_array_view(*a);
                        lemma_array_view(*b);
                    }
                    if a.len() != b.len() {
                        proof {
                            assert(items_view(a@).len() != items_view(b@).len());
                        }
                        return false;
                    }
                    let mut i: usize = 0;
                    while i < a.len()
                        invariant
                            0 <= i <= a.len(),
                            a.len() == b.len(),
                            self == Json::Array(*a),
                            self@ == JsonView::Array(items_view(a@)),
                            other@ == JsonView::Array(items_view(b@)),
                            forall|j: int| 0 <= j < i ==> a@[j]@ == b@[j]@,
                        decreases a.len() - i,
                    {
                        proof {
                            vstd::std_specs::vec::axiom_vec_index_decreases(*a, i as int);
                        }
                        if !a[i].deep_eq(&b[i]) {
                            proof {
                                assert(items_view(a@)[i as int] != items_view(b@)[i as int]);
                            }
                            return false;
                        }
                        i += 1;
                    }
                    proof {
                        assert(items_view(a@) =~= items_view(b@));
                    }
                    true
                },
                _ => false,
            },
            Json::Object(a) => match other {
                Json::Object(b) => {
                    proof {
                        lemma_object_view(*a);
                        lemma_object_view(*b);
                    }
                    if a.len() != b.len() {
                        proof {
                            assert(members_view(a@).len() != members_view(b@).len());
                        }
                        return false;
                    }
                    let mut i: usize = 0;
                    while i < a.len()
                        invariant
                            0 <= i <= a.len(),
                            a.len() == b.len(),
                            self == Json::Object(*a),
                            self@ == JsonView::Object(members_view(a@)),
                            other@ == JsonView::Object(members_view(b@)),
                            forall|j: int|
                                0 <= j < i ==> a@[j].0@ == b@[j].0@ && a@[j].1@ == b@[j].1@,
                        decreases a.len() - i,
                    {
                        proof {
                            vstd::std_specs::vec::axiom_vec_index_decreases(*a, i as int);
                        }
                        if !str_eq(a[i].0.as_str(), b[i].0.as_str()) || !a[i].1.deep_eq(&b[i].1) {
                            proof {
                                assert(members_view(a@)[i as int] != members_view(b@)[i as int]);
                            }
                            return false;
                        }
                        i += 1;
                    }
                    proof {
                        assert(members_view(a@) =~= members_view(b@));
                    }
                    true
                },
                _ => false,
            },
        }
    }
}

/// The members of the object under `key` of `j`; none where the key is
/// missing or holds no object.
pub fn json_object<'a>(j: &'a Json, key: &str) -> (r: &'a [(String, Json)])
    ensures
        members_view(r@) == j@.object_field(key@),
{
    let r: &'a [(String, Json)] = match j.get(key) {
        Some(v) => match v {
            Json::Object(members) => {
                proof {
                    lemma_object_view(*members);
                }
                members.as_slice()
            },
            _ => &[],
        },
        None => &[],
    };
    proof {
        if r@.len() == 0 {
            assert(members_view(r@) =~= Seq::empty());
        }
    }
    r
}

/// The items of the array under `key` of `j`; none where the key is
/// missing or holds no array.
pub fn json_array<'a>(j: &'a Json, key: &str) -> (r: &'a [Json])
    ensures
        items_view(r@) == j@.array_field(key@),
{
    let r: &'a [Json] = match j.get(key) {
        Some(v) => match v {
            Json::Array(items) => {
                proof {
                    lemma_array_view(*items);
                }
                items.as_slice()
            },
            _ => &[],
        },
        None => &[],
    };
    proof {
        if r@.len() == 0 {
            assert(items_view(r@) =~= Seq::empty());
        }
    }
    r
}

} // verus!
