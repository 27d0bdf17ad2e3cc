//! JSON documents: a plain tree that logic can read, and its construction from text.

use serde_json::Value;
use vstd::prelude::*;

use crate::text::same_text;

verus! {

/// A JSON document as plain data. Numbers are told apart from the rest but carry no magnitude.
#[derive(Debug)]
pub enum Json {
    Null,
    Bool(bool),
    Number,
    Text(String),
    Array(Vec<Json>),
    /// Members in any order; of two with one key the later counts.
    Object(Vec<(String, Json)>),
}

/// The mathematical value of a JSON document.
pub enum JsonTree {
    Null,
    Bool(bool),
    Number,
    Text(Seq<char>),
    Array(Seq<JsonTree>),
    Object(Map<Seq<char>, JsonTree>),
}

/// The map that a list of members stands for: a later member replaces an earlier one of the
/// same key.
pub open spec fn members_map(members: Seq<(Seq<char>, JsonTree)>) -> Map<Seq<char>, JsonTree>
    decreases members.len(),
{
    if members.len() == 0 {
        Map::empty()
    } else {
        members_map(members.drop_last()).insert(members.last().0, members.last().1)
    }
}

impl JsonTree {
    /// The member `key`, where this is an object that has it.
    pub open spec fn member(self, key: Seq<char>) -> Option<JsonTree> {
        match self {
            JsonTree::Object(members) => if members.contains_key(key) {
                Some(members[key])
            } else {
                None
            },
            _ => None,
        }
    }

    /// The text, where this is a string.
    pub open spec fn text(self) -> Option<Seq<char>> {
        match self {
            JsonTree::Text(s) => Some(s),
            _ => None,
        }
    }

    /// The truth value, where this is a boolean.
    pub open spec fn truth(self) -> Option<bool> {
        match self {
            JsonTree::Bool(b) => Some(b),
            _ => None,
        }
    }

    /// The elements, where this is an array.
    pub open spec fn elements(self) -> Option<Seq<JsonTree>> {
        match self {
            JsonTree::Array(items) => Some(items),
            _ => None,
        }
    }

    /// The text of the member `key`, where this is an object that has it as a string.
    pub open spec fn member_text(self, key: Seq<char>) -> Option<Seq<char>> {
        match self.member(key) {
            Some(v) => v.text(),
            None => None,
        }
    }
}

/// The map that the members of an object stand for.
pub open spec fn object_tree(members: Seq<(String, Json)>) -> Map<Seq<char>, JsonTree>
    decreases members,
{
    if members.len() == 0 {
        Map::empty()
    } else {
        object_tree(members.drop_last()).insert(members.last().0@, members.last().1.tree())
    }
}

impl Json {
    /// The mathematical value of the document.
    pub open spec fn tree(self) -> JsonTree
        decreases self,
    {
        match self {
            Json::Null => JsonTree::Null,
            Json::Bool(b) => JsonTree::Bool(b),
            Json::Number => JsonTree::Number,
            Json::Text(s) => JsonTree::Text(s@),
            Json::Array(items) => JsonTree::Array(
                Seq::new(
                    items@.len(),
                    |i: int|
                        if 0 <= i < items@.len() {
                            items@[i].tree()
                        } else {
                            JsonTree::Null
                        },
                ),
            ),
            Json::Object(members) => JsonTree::Object(object_tree(members@)),
        }
    }
}

impl View for Json {
    type V = JsonTree;

    open spec fn view(&self) -> JsonTree {
        self.tree()
    }
}

/// The values of an array, one by one.
pub open spec fn trees_of(items: Seq<Json>) -> Seq<JsonTree> {
    items.map_values(|v: Json| v@)
}

/// The members of an object, one by one.
pub open spec fn members_of(members: Seq<(String, Json)>) -> Seq<(Seq<char>, JsonTree)> {
    members.map_values(|m: (String, Json)| (m.0@, m.1@))
}

/// An object stands for the map of its members.
proof fn lemma_object_tree(members: Seq<(String, Json)>)
    ensures
        object_tree(members) == members_map(members_of(members)),
    decreases members.len(),
{
    if members.len() > 0 {
        lemma_object_tree(members.drop_last());
        assert(members_of(members).drop_last() =~= members_of(members.drop_last()));
    }
}

/// Looking a key up in a list of members finds the last one that has it.
proof fn lemma_members_map(members: Seq<(Seq<char>, JsonTree)>, key: Seq<char>, at: int)
    requires
        -1 <= at < members.len(),
        forall|j: int| at < j < members.len() ==> (#[trigger] members[j]).0 != key,
        at >= 0 ==> members[at].0 == key,
    ensures
        members_map(members).contains_key(key) == (at >= 0),
        at >= 0 ==> members_map(members)[key] == members[at].1,
    decreases members.len(),
{
    if members.len() > 0 && at < members.len() - 1 {
        let rest = members.drop_last();
        assert forall|j: int| at < j < rest.len() implies (#[trigger] rest[j]).0 != key by {
            assert(members[j] == rest[j]);
        }
        lemma_members_map(rest, key, at);
        assert(members[members.len() - 1].0 != key);
    }
}

impl Json {
    /// The member `key`, where this is an object that has it.
    pub fn member(&self, key: &str) -> (r: Option<&Json>)
        ensures
            match r {
                Some(v) => self@.member(key@) == Some(v@),
                None => self@.member(key@) is None,
            },
    {
        match self {
            Json::Object(members) => {
                let ghost list = members_of(members@);
                proof {
                    lemma_object_tree(members@);
                }
                let mut i: usize = members.len();
                while i > 0
                    invariant
                        i <= members.len(),
                        list == members_of(members@),
                        self@ == JsonTree::Object(members_map(list)),
                        forall|j: int| i <= j < list.len() ==> (#[trigger] list[j]).0 != key@,
                    decreases i,
                {
                    i = i - 1;
                    let m = &members[i];
                    assert(list[i as int] == (m.0@, m.1@));
                    if same_text(m.0.as_str(), key) {
                        proof {
                            lemma_members_map(list, key@, i as int);
                        }
                        return Some(&m.1);
                    }
                }
                proof {
                    lemma_members_map(list, key@, -1);
                }
                None
            },
            _ => None,
        }
    }

    /// The text, where this is a string.
    pub fn text(&self) -> (r: Option<&str>)
        ensures
            match r {
                Some(s) => self@.text() == Some(s@),
                None => self@.text() is None,
            },
    {
        match self {
            Json::Text(s) => Some(s.as_str()),
            _ => None,
        }
    }

    /// The truth value, where this is a boolean.
    pub fn truth(&self) -> (r: Option<bool>)
        ensures
            r == self@.truth(),
    {
        match self {
            Json::Bool(b) => Some(*b),
            _ => None,
        }
    }

    /// The elements, where this is an array.
    pub fn elements(&self) -> (r: Option<&Vec<Json>>)
        ensures
            match r {
                Some(items) => self@.elements() == Some(trees_of(items@)),
                None => self@.elements() is None,
            },
    {
        match self {
            Json::Array(items) => {
                assert(self@->Array_0 =~= trees_of(items@));
                Some(items)
            },
            _ => None,
        }
    }

    /// The text of the member `key`, where this is an object that has it as a string.
    pub fn member_text(&self, key: &str) -> (r: Option<&str>)
        ensures
            match r {
                Some(s) => self@.member_text(key@) == Some(s@),
                None => self@.member_text(key@) is None,
            },
    {
        match self.member(key) {
            Some(v) => v.text(),
            None => None,
        }
    }
}

/// The position of the last member that has a key, or -1 where none has it.
proof fn lemma_last_member(members: Seq<(Seq<char>, JsonTree)>, key: Seq<char>) -> (at: int)
    ensures
        -1 <= at < members.len(),
        forall|j: int| at < j < members.len() ==> (#[trigger] members[j]).0 != key,
        at >= 0 ==> members[at].0 == key,
    decreases members.len(),
{
    if members.len() == 0 {
        -1
    } else if members.last().0 == key {
        members.len() - 1
    } else {
        let rest = members.drop_last();
        let at = lemma_last_member(rest, key);
        assert forall|j: int| at < j < members.len() implies (#[trigger] members[j]).0 != key by {
            if j < rest.len() {
                assert(members[j] == rest[j]);
            }
        }
        at
    }
}

/// What a document stands for. A simple value stands for itself and an array for its items, in
/// order. An object has exactly the keys of its members, and under each key what the last member
/// of that key stands for.
pub proof fn law_json_value(v: Json)
    ensures
        v is Null ==> v@ == JsonTree::Null,
        v is Number ==> v@ == JsonTree::Number,
        v matches Json::Bool(b) ==> v@ == JsonTree::Bool(b),
        v matches Json::Text(s) ==> v@ == JsonTree::Text(s@),
        v matches Json::Array(items) ==> {
            &&& v@ matches JsonTree::Array(list)
            &&& list.len() == items@.len()
            &&& forall|i: int| 0 <= i < list.len() ==> #[trigger] list[i] == items@[i]@
        },
        v matches Json::Object(members) ==> {
            &&& v@ matches JsonTree::Object(map)
            &&& forall|key: Seq<char>| #[trigger]
                map.contains_key(key) <==> exists|i: int|
                    0 <= i < members@.len() && (#[trigger] members@[i]).0@ == key
            &&& forall|i: int|
                #![trigger members@[i]]
                0 <= i < members@.len() && (forall|j: int|
                    i < j < members@.len() ==> (#[trigger] members@[j]).0@ != members@[i].0@)
                    ==> map[members@[i].0@] == members@[i].1@
        },
{
    match v {
        Json::Object(members) => {
            let list = members_of(members@);
            lemma_object_tree(members@);
            assert forall|key: Seq<char>| #[trigger]
                members_map(list).contains_key(key) <==> exists|i: int|
                    0 <= i < members@.len() && (#[trigger] members@[i]).0@ == key by {
                let at = lemma_last_member(list, key);
                lemma_members_map(list, key, at);
                if at >= 0 {
                    assert(members@[at].0@ == key);
                } else {
                    assert forall|i: int| 0 <= i < members@.len() implies (
                    #[trigger] members@[i]).0@ != key by {
                        assert(list[i].0 == members@[i].0@);
                    }
                }
            }
            assert forall|i: int|
                #![trigger members@[i]]
                0 <= i < members@.len() && (forall|j: int|
                    i < j < members@.len() ==> (#[trigger] members@[j]).0@
                        != members@[i].0@) implies members_map(list)[members@[i].0@]
                == members@[i].1@ by {
                assert(list[i] == (members@[i].0@, members@[i].1@));
                assert forall|j: int| i < j < list.len() implies (#[trigger] list[j]).0
                    != members@[i].0@ by {
                    assert(list[j].0 == members@[j].0@);
                }
                lemma_members_map(list, members@[i].0@, i);
            }
        },
        _ => {},
    }
}

/// The JSON value of `serde_json`.
#[verifier::external_type_specification]
#[verifier::external_body]
pub struct ExValue(Value);

/// The reason for which `serde_json` refuses a text.
#[verifier::external_type_specification]
#[verifier::external_body]
pub struct ExError(serde_json::Error);

/// What a `serde_json::Value` holds.
pub uninterp spec fn value_tree(v: Value) -> JsonTree;

/// What `serde_json::from_str` reads a text as: a JSON value, or nothing where it refuses the
/// text.
pub uninterp spec fn parsed_text(text: Seq<char>) -> Option<JsonTree>;

/// One level of a `serde_json::Value`.
enum Level<'a> {
    Null,
    Bool(bool),
    Number,
    Text(&'a String),
    Array(&'a Vec<Value>),
    Object(Vec<(&'a String, &'a Value)>),
}

/// What the items of an array hold.
spec fn item_trees(items: Seq<Value>) -> Seq<JsonTree> {
    items.map_values(|v: Value| value_tree(v))
}

/// The keys of the members of an object, with what the members hold.
spec fn member_trees(members: Seq<(&String, &Value)>) -> Seq<(Seq<char>, JsonTree)> {
    members.map_values(|m: (&String, &Value)| (m.0@, value_tree(*m.1)))
}

/// The value that one level and what its children hold make up.
spec fn level_tree(level: Level) -> JsonTree {
    match level {
        Level::Null => JsonTree::Null,
        Level::Bool(b) => JsonTree::Bool(b),
        Level::Number => JsonTree::Number,
        Level::Text(s) => JsonTree::Text(s@),
        Level::Array(items) => JsonTree::Array(item_trees(items@)),
        Level::Object(members) => JsonTree::Object(members_map(member_trees(members@))),
    }
}

/// `serde_json::from_str`, asked for a `serde_json::Value`, is a function of the text: it gives
/// the value that the text stands for, or an error.
#[verifier::external_body]
fn read_value(text: &str) -> (r: Result<Value, serde_json::Error>)
    ensures
        match r {
            Ok(v) => parsed_text(text@) == Some(value_tree(v)),
            Err(_) => parsed_text(text@) is None,
        },
{
    serde_json::from_str(text)
}

/// Tells the variants of a `serde_json::Value` apart. What the value holds is what the variant
/// and its children hold. `serde_json::Map::iter` visits each member of an object once, and no
/// two members share a key.
#[verifier::external_body]
fn level_of<'a>(v: &'a Value) -> (r: Level<'a>)
    ensures
        level_tree(r) == value_tree(*v),
        r matches Level::Object(members) ==> forall|i: int, j: int|
            0 <= i < j < members@.len() ==> (#[trigger] members@[i]).0@ != (
            #[trigger] members@[j]).0@,
{
    match v {
        Value::Null => Level::Null,
        Value::Bool(b) => Level::Bool(*b),
        Value::Number(_) => Level::Number,
        Value::String(s) => Level::Text(s),
        Value::Array(items) => Level::Array(items),
        Value::Object(members) => Level::Object(members.iter().collect()),
    }
}

/// The map of a list of members is finite.
proof fn lemma_members_map_finite(members: Seq<(Seq<char>, JsonTree)>)
    ensures
        members_map(members).dom().finite(),
    decreases members.len(),
{
    if members.len() > 0 {
        lemma_members_map_finite(members.drop_last());
    }
}

/// The plain tree of a `serde_json::Value`.
fn plain(v: &Value) -> (r: Json)
    ensures
        r@ == value_tree(*v),
    decreases value_tree(*v),
{
    match level_of(v) {
        Level::Null => Json::Null,
        Level::Bool(b) => Json::Bool(b),
        Level::Number => Json::Number,
        Level::Text(s) => Json::Text(s.clone()),
        Level::Array(items) => {
            let mut out: Vec<Json> = Vec::new();
            for i in 0..items.len()
                invariant
                    value_tree(*v) == JsonTree::Array(item_trees(items@)),
                    trees_of(out@) == item_trees(items@).take(i as int),
            {
                let ghost held = value_tree(*v)->Array_0;
                assert(held[i as int] == value_tree(items@[i as int]));
                assert(decreases_to!(value_tree(*v) => value_tree(*v)->Array_0));
                let ghost before = out@;
                out.push(plain(&items[i]));
                assert(trees_of(out@) =~= trees_of(before).push(held[i as int]));
                assert(trees_of(out@) =~= item_trees(items@).take(i + 1));
            }
            let r = Json::Array(out);
            assert(r@->Array_0 =~= trees_of(out@));
            assert(item_trees(items@).take(items.len() as int) =~= item_trees(items@));
            r
        },
        Level::Object(members) => {
            let mut out: Vec<(String, Json)> = Vec::new();
            let ghost list = member_trees(members@);
            for i in 0..members.len()
                invariant
                    list == member_trees(members@),
                    forall|i: int, j: int|
                        0 <= i < j < members@.len() ==> (#[trigger] members@[i]).0@ != (
                        #[trigger] members@[j]).0@,
                    value_tree(*v) == JsonTree::Object(members_map(list)),
                    members_of(out@) == list.take(i as int),
            {
                let (key, held) = members[i];
                proof {
                    assert forall|j: int| i < j < list.len() implies (#[trigger] list[j]).0
                        != key@ by {
                        assert(list[j].0 == members@[j].0@);
                        assert(members@[i as int].0@ == key@);
                    }
                    lemma_members_map(list, key@, i as int);
                    lemma_members_map_finite(list);
                    assert(decreases_to!(value_tree(*v) => value_tree(*v)->Object_0));
                    assert(decreases_to!(members_map(list) => members_map(list)[key@]));
                }
                let ghost before = out@;
                out.push((key.clone(), plain(held)));
                assert(members_of(out@) =~= members_of(before).push(list[i as int]));
                assert(members_of(out@) =~= list.take(i + 1));
            }
            proof {
                lemma_object_tree(out@);
            }
            assert(list.take(members.len() as int) =~= list);
            Json::Object(out)
        },
    }
}

/// Reads a text as a JSON document.
pub fn parse_json(text: &str) -> (r: Option<Json>)
    ensures
        match r {
            Some(doc) => parsed_text(text@) == Some(doc@),
            None => parsed_text(text@) is None,
        },
{
    match read_value(text) {
        Ok(v) => Some(plain(&v)),
        Err(_) => None,
    }
}

} // verus!
