//! JSON values.

use vstd::prelude::*;

verus! {

/// A JSON value.
#[derive(Debug)]
pub enum Json {
    Null,
    Bool(bool),
    /// A number, as far as it is an integer that an `i64` can hold.
    Number(Option<i64>),
    Str(String),
    Array(Vec<Json>),
    /// Name and value of each member. Under a repeated name the last value counts.
    Object(Vec<(String, Json)>),
}

/// What a JSON value says.
pub enum JsonTree {
    Null,
    Bool(bool),
    Number(Option<i64>),
    Str(Seq<char>),
    Array(Seq<JsonTree>),
    Object(Seq<(Seq<char>, JsonTree)>),
}

/// What `value` says.
pub open spec fn tree_of(value: Json) -> JsonTree
    decreases value,
{
    match value {
        Json::Null => JsonTree::Null,
        Json::Bool(b) => JsonTree::Bool(b),
        Json::Number(n) => JsonTree::Number(n),
        Json::Str(s) => JsonTree::Str(s@),
        Json::Array(items) => JsonTree::Array(
            Seq::new(
                items@.len(),
                |i: int|
                    if 0 <= i < items@.len() {
                        tree_of(items@[i])
                    } else {
                        arbitrary()
                    },
            ),
        ),
        Json::Object(members) => JsonTree::Object(
            Seq::new(
                members@.len(),
                |i: int|
                    if 0 <= i < members@.len() {
                        (members@[i].0@, tree_of(members@[i].1))
                    } else {
                        arbitrary()
                    },
            ),
        ),
    }
}

impl View for Json {
    type V = JsonTree;

    open spec fn view(&self) -> JsonTree {
        tree_of(*self)
    }
}

/// The value of the last of `members` that is called `name`.
pub open spec fn member(members: Seq<(Seq<char>, JsonTree)>, name: Seq<char>) -> Option<JsonTree>
    decreases members.len(),
{
    if members.len() == 0 {
        None
    } else if members.last().0 == name {
        Some(members.last().1)
    } else {
        member(members.drop_last(), name)
    }
}

impl JsonTree {
    /// The member called `name`, where this is an object that has one.
    pub open spec fn get(self, name: Seq<char>) -> Option<JsonTree> {
        match self {
            JsonTree::Object(members) => member(members, name),
            _ => None,
        }
    }

    /// The text, where this is a string.
    pub open spec fn text(self) -> Option<Seq<char>> {
        match self {
            JsonTree::Str(text) => Some(text),
            _ => None,
        }
    }

    /// The items, where this is an array.
    pub open spec fn items(self) -> Option<Seq<JsonTree>> {
        match self {
            JsonTree::Array(items) => Some(items),
            _ => None,
        }
    }

    /// The integer, where this is a number that an `i64` can hold.
    pub open spec fn integer(self) -> Option<i64> {
        match self {
            JsonTree::Number(n) => n,
            _ => None,
        }
    }

    /// The string member called `name`, where there is one.
    pub open spec fn text_at(self, name: Seq<char>) -> Option<Seq<char>> {
        match self.get(name) {
            Some(value) => value.text(),
            None => None,
        }
    }

    /// The array member called `name`, where there is one.
    pub open spec fn items_at(self, name: Seq<char>) -> Option<Seq<JsonTree>> {
        match self.get(name) {
            Some(value) => value.items(),
            None => None,
        }
    }
}

impl Json {
    /// The member called `name`, where this is an object that has one.
    pub fn get(&self, name: &str) -> (found: Option<&Json>)
        ensures
            match found {
                Some(value) => self@.get(name@) == Some(value@),
                None => self@.get(name@) is None,
            },
    {
        match self {
            Json::Object(members) => {
                let ghost all = self@->Object_0;
                let wanted = name.to_owned();
                let mut i: usize = members.len();
                assert(all.take(i as int) =~= all);
                while i > 0
                    invariant
                        i <= members@.len(),
                        wanted@ == name@,
                        self@.get(name@) == member(all, name@),
                        all == (Json::Object(*members))@->Object_0,
                        member(all, name@) == member(all.take(i as int), name@),
                    decreases i,
                {
                    i -= 1;
                    proof {
                        assert(all.take(i + 1).drop_last() =~= all.take(i as int));
                        assert(all.take(i + 1).last() == all[i as int]);
                    }
                    if members[i].0 == wanted {
                        return Some(&members[i].1);
                    }
                }
                None
            },
            _ => None,
        }
    }

    /// The text, where this is a string.
    pub fn as_str(&self) -> (found: Option<&str>)
        ensures
            match found {
                Some(text) => self@.text() == Some(text@),
                None => self@.text() is None,
            },
    {
        match self {
            Json::Str(text) => Some(text.as_str()),
            _ => None,
        }
    }

    /// The items, where this is an array.
    pub fn as_array(&self) -> (found: Option<&Vec<Json>>)
        ensures
            match found {
                Some(items) => self@.items() == Some(tree_views(items@)),
                None => self@.items() is None,
            },
    {
        match self {
            Json::Array(items) => {
                assert(self@->Array_0 =~= tree_views(items@));
                Some(items)
            },
            _ => None,
        }
    }

    /// The integer, where this is a number that an `i64` can hold.
    pub fn as_i64(&self) -> (found: Option<i64>)
        ensures
            found == self@.integer(),
    {
        match self {
            Json::Number(n) => *n,
            _ => None,
        }
    }

    /// The string member called `name`, where there is one.
    pub fn str_at(&self, name: &str) -> (found: Option<&str>)
        ensures
            match found {
                Some(text) => self@.text_at(name@) == Some(text@),
                None => self@.text_at(name@) is None,
            },
    {
        match self.get(name) {
            Some(value) => value.as_str(),
            None => None,
        }
    }

    /// The array member called `name`, where there is one.
    pub fn array_at(&self, name: &str) -> (found: Option<&Vec<Json>>)
        ensures
            match found {
                Some(items) => self@.items_at(name@) == Some(tree_views(items@)),
                None => self@.items_at(name@) is None,
            },
    {
        match self.get(name) {
            Some(value) => value.as_array(),
            None => None,
        }
    }
}

/// What each of several JSON values says.
pub open spec fn tree_views(values: Seq<Json>) -> Seq<JsonTree> {
    Seq::new(values.len(), |i: int| values[i]@)
}

/// `serde_json::Value`: a JSON value as `serde_json` holds it.
#[verifier::external_type_specification]
#[verifier::external_body]
pub struct ExValue(serde_json::Value);

/// What a `serde_json::Value` holds: a null, a boolean, a number, a string, or further values
/// one after the other or under names.
pub uninterp spec fn value_tree(value: serde_json::Value) -> JsonTree;

/// What `serde_json::from_str` reads from a text: a JSON value, or none where the text is not
/// the text of one.
pub uninterp spec fn json_text(text: Seq<char>) -> Option<JsonTree>;

/// The outermost layer of a `serde_json::Value`.
enum Layer {
    Null,
    Bool(bool),
    Number(Option<i64>),
    Str(String),
    Array(Vec<serde_json::Value>),
    Object(Vec<(String, serde_json::Value)>),
}

/// What each of several values holds.
pub open spec fn value_trees(values: Seq<serde_json::Value>) -> Seq<JsonTree> {
    Seq::new(values.len(), |i: int| value_tree(values[i]))
}

/// The name of each of several members, and what its value holds.
pub open spec fn member_trees(
    members: Seq<(String, serde_json::Value)>,
) -> Seq<(Seq<char>, JsonTree)> {
    Seq::new(members.len(), |i: int| (members[i].0@, value_tree(members[i].1)))
}

/// Calls `serde_json::from_str` for a `serde_json::Value`. Whether the text is that of a JSON
/// value, and of which, follows from the text alone.
#[verifier::external_body]
fn read_value(text: &str) -> (value: Option<serde_json::Value>)
    ensures
        match value {
            Some(value) => json_text(text@) == Some(value_tree(value)),
            None => json_text(text@) is None,
        },
{
    serde_json::from_str::<serde_json::Value>(text).ok()
}

/// Tells the variants of `serde_json::Value` apart and hands out what the variant holds: the
/// items of an array in their order, the members of an object in the order of the map, a number
/// as `serde_json::Number::as_i64` gives it.
#[verifier::external_body]
fn outermost_layer(value: serde_json::Value) -> (layer: Layer)
    ensures
        match layer {
            Layer::Null => value_tree(value) == JsonTree::Null,
            Layer::Bool(b) => value_tree(value) == JsonTree::Bool(b),
            Layer::Number(n) => value_tree(value) == JsonTree::Number(n),
            Layer::Str(s) => value_tree(value) == JsonTree::Str(s@),
            Layer::Array(items) => value_tree(value) == JsonTree::Array(value_trees(items@)),
            Layer::Object(members) => value_tree(value) == JsonTree::Object(member_trees(members@)),
        },
{
    match value {
        serde_json::Value::Null => Layer::Null,
        serde_json::Value::Bool(b) => Layer::Bool(b),
        serde_json::Value::Number(n) => Layer::Number(n.as_i64()),
        serde_json::Value::String(s) => Layer::Str(s),
        serde_json::Value::Array(items) => Layer::Array(items),
        serde_json::Value::Object(members) => Layer::Object(members.into_iter().collect()),
    }
}

/// `value` as a `Json`.
fn from_value(value: serde_json::Value) -> (json: Json)
    ensures
        json@ == value_tree(value),
    decreases value_tree(value),
{
    let ghost whole = value_tree(value);
    match outermost_layer(value) {
        Layer::Null => Json::Null,
        Layer::Bool(b) => Json::Bool(b),
        Layer::Number(n) => Json::Number(n),
        Layer::Str(s) => Json::Str(s),
        Layer::Array(items) => {
            let ghost trees = value_trees(items@);
            let mut converted: Vec<Json> = Vec::new();
            for item in it: items
                invariant
                    whole == value_tree(value),
                    whole == JsonTree::Array(trees),
                    trees == value_trees(it.seq()),
                    converted@.len() == it.index(),
                    forall|i: int|
                        0 <= i < converted@.len() ==> trees[i] == (#[trigger] converted@[i])@,
            {
                let ghost tree = whole->Array_0[it.index() as int];
                assert(value_tree(item) == tree);
                assert(decreases_to!(whole->Array_0 => tree));
                assert(decreases_to!(whole => whole->Array_0));
                converted.push(from_value(item));
            }
            let json = Json::Array(converted);
            assert(json@->Array_0 =~= trees);
            json
        },
        Layer::Object(members) => {
            let ghost trees = member_trees(members@);
            let mut converted: Vec<(String, Json)> = Vec::new();
            for pair in it: members
                invariant
                    whole == value_tree(value),
                    whole == JsonTree::Object(trees),
                    trees == member_trees(it.seq()),
                    converted@.len() == it.index(),
                    forall|i: int|
                        0 <= i < converted@.len() ==> trees[i] == (
                            (#[trigger] converted@[i]).0@,
                            converted@[i].1@,
                        ),
            {
                let ghost tree = whole->Object_0[it.index() as int];
                assert(value_tree(pair.1) == tree.1);
                assert(decreases_to!(whole->Object_0 => whole->Object_0[it.index() as int]));
                assert(decreases_to!(tree => tree.1));
                assert(decreases_to!(whole => whole->Object_0));
                converted.push((pair.0, from_value(pair.1)));
            }
            let json = Json::Object(converted);
            assert(json@->Object_0 =~= trees);
            json
        },
    }
}

impl Json {
    /// Reads a JSON text; none where `text` is not one.
    pub fn parse(text: &str) -> (json: Option<Json>)
        ensures
            match json {
                Some(json) => json_text(text@) == Some(json@),
                None => json_text(text@) is None,
            },
    {
        match read_value(text) {
            Some(value) => Some(from_value(value)),
            None => None,
        }
    }
}

/// What is found in an object under a name is the value of the last member of that name, and
/// nothing is found exactly where no member has the name. Other values have no members.
pub proof fn member_is_found_by_its_name(members: Seq<(Seq<char>, JsonTree)>, name: Seq<char>)
    ensures
        match JsonTree::Object(members).get(name) {
            Some(value) => exists|i: int|
                0 <= i < members.len() && #[trigger] members[i] == (name, value) && forall|j: int|
                    i < j < members.len() ==> (#[trigger] members[j]).0 != name,
            None => forall|i: int| 0 <= i < members.len() ==> (#[trigger] members[i]).0 != name,
        },
    decreases members.len(),
{
    if members.len() > 0 {
        let last = members.len() - 1;
        if members[last].0 == name {
            assert(members[last] == (name, members[last].1));
        } else {
            let earlier = members.drop_last();
            member_is_found_by_its_name(earlier, name);
            if let Some(value) = JsonTree::Object(earlier).get(name) {
                let i = choose|i: int|
                    0 <= i < earlier.len() && #[trigger] earlier[i] == (name, value) && forall|
                        j: int,
                    |
                        i < j < earlier.len() ==> (#[trigger] earlier[j]).0 != name;
                assert(members[i] == (name, value));
                assert forall|j: int| i < j < members.len() implies (#[trigger] members[j]).0
                    != name by {
                    if j < last {
                        assert(earlier[j] == members[j]);
                    }
                }
            } else {
                assert forall|i: int| 0 <= i < members.len() implies (#[trigger] members[i]).0
                    != name by {
                    if i < last {
                        assert(earlier[i] == members[i]);
                    }
                }
            }
        }
    }
}

/// Only objects have members.
pub proof fn only_objects_have_members(tree: JsonTree, name: Seq<char>)
    requires
        !(tree is Object),
    ensures
        tree.get(name) is None,
{
}

/// A string, an array and an integer give what they hold, and nothing else gives such a thing.
pub proof fn values_give_what_they_hold(tree: JsonTree)
    ensures
        forall|text: Seq<char>| #[trigger] JsonTree::Str(text).text() == Some(text),
        forall|items: Seq<JsonTree>| #[trigger] JsonTree::Array(items).items() == Some(items),
        forall|n: Option<i64>| #[trigger] JsonTree::Number(n).integer() == n,
        !(tree is Str) ==> tree.text() is None,
        !(tree is Array) ==> tree.items() is None,
        !(tree is Number) ==> tree.integer() is None,
{
}

/// A member is looked up and then read: a string or an array under the name gives what it holds,
/// anything else nothing.
pub proof fn members_give_what_they_hold(tree: JsonTree, name: Seq<char>)
    ensures
        tree.get(name) matches Some(JsonTree::Str(text)) ==> tree.text_at(name) == Some(text),
        !(tree.get(name) matches Some(JsonTree::Str(_))) ==> tree.text_at(name) is None,
        tree.get(name) matches Some(JsonTree::Array(items)) ==> tree.items_at(name) == Some(items),
        !(tree.get(name) matches Some(JsonTree::Array(_))) ==> tree.items_at(name) is None,
{
}

/// The view of a value shows all that it holds: items and members one for one and in order.
pub proof fn view_shows_the_whole_value(value: Json)
    ensures
        value is Null <==> value@ is Null,
        value matches Json::Bool(b) ==> value@ == JsonTree::Bool(b),
        value matches Json::Number(n) ==> value@ == JsonTree::Number(n),
        value matches Json::Str(s) ==> value@ == JsonTree::Str(s@),
        value matches Json::Array(items) ==> (value@ matches JsonTree::Array(trees) && trees.len()
            == items@.len() && forall|i: int|
            0 <= i < trees.len() ==> #[trigger] trees[i] == items@[i]@),
        value matches Json::Object(members) ==> (value@ matches JsonTree::Object(trees)
            && trees.len() == members@.len() && forall|i: int|
            0 <= i < trees.len() ==> #[trigger] trees[i] == (members@[i].0@, members@[i].1@)),
{
}

} // verus!
