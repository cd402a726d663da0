//! JSON values, and reading them.

use crate::text::{copy_text, same_text};
use vstd::prelude::*;

verus! {

/// A JSON value. A number is held as its text.
#[derive(Debug)]
pub enum Json {
    Null,
    Bool(bool),
    Number(String),
    Text(String),
    Items(Vec<Json>),
    Fields(Vec<Field>),
}

/// A named value in an object.
#[derive(Debug)]
pub struct Field {
    pub name: String,
    pub value: Json,
}

/// What a JSON value is.
pub enum Tree {
    Null,
    Bool(bool),
    Number(Seq<char>),
    Text(Seq<char>),
    Items(Seq<Tree>),
    Fields(Seq<Member>),
}

/// What a named value in an object is.
pub struct Member {
    pub name: Seq<char>,
    pub value: Tree,
}

impl View for Json {
    type V = Tree;

    open spec fn view(&self) -> Tree
        decreases self,
    {
        match self {
            Json::Null => Tree::Null,
            Json::Bool(yes) => Tree::Bool(*yes),
            Json::Number(text) => Tree::Number(text@),
            Json::Text(text) => Tree::Text(text@),
            Json::Items(items) => Tree::Items(
                Seq::new(
                    items@.len(),
                    |index: int|
                        if 0 <= index < items@.len() {
                            items@[index].view()
                        } else {
                            Tree::Null
                        },
                ),
            ),
            Json::Fields(fields) => Tree::Fields(
                Seq::new(
                    fields@.len(),
                    |index: int|
                        if 0 <= index < fields@.len() {
                            Member { name: fields@[index].name@, value: fields@[index].value.view() }
                        } else {
                            Member { name: Seq::empty(), value: Tree::Null }
                        },
                ),
            ),
        }
    }
}

/// What JSON values are.
pub open spec fn trees(items: Seq<Json>) -> Seq<Tree> {
    items.map_values(|item: Json| item@)
}

/// What the named values of an object are.
pub open spec fn pairs(fields: Seq<Field>) -> Seq<Member> {
    fields.map_values(|field: Field| Member { name: field.name@, value: field.value@ })
}

/// What the parts of a JSON value say of the whole.
pub proof fn lemma_view(json: Json)
    ensures
        json matches Json::Items(items) ==> json@ == Tree::Items(trees(items@)),
        json matches Json::Fields(fields) ==> json@ == Tree::Fields(pairs(fields@)),
{
    match json {
        Json::Items(items) => {
            assert(json@->Items_0 =~= trees(items@));
        },
        Json::Fields(fields) => {
            assert forall|index: int| 0 <= index < fields@.len() implies json@->Fields_0[index]
                == pairs(fields@)[index] by {
                assert(json@->Fields_0[index].name == fields@[index].name@);
                assert(json@->Fields_0[index].value == fields@[index].value@);
            }
            assert(json@->Fields_0 =~= pairs(fields@));
        },
        _ => {},
    }
}

/// The first place of a name among named values.
pub open spec fn place_of(fields: Seq<Member>, name: Seq<char>) -> Option<int>
    decreases fields.len(),
{
    if fields.len() == 0 {
        None
    } else if place_of(fields.drop_last(), name) is Some {
        place_of(fields.drop_last(), name)
    } else if fields.last().name == name {
        Some(fields.len() - 1)
    } else {
        None
    }
}

impl Tree {
    /// The value with a name in an object.
    pub open spec fn field(self, name: Seq<char>) -> Option<Tree> {
        match self {
            Tree::Fields(fields) => match place_of(fields, name) {
                Some(at) => Some(fields[at].value),
                None => None,
            },
            _ => None,
        }
    }

    /// The values in an array.
    pub open spec fn elements(self) -> Option<Seq<Tree>> {
        match self {
            Tree::Items(items) => Some(items),
            _ => None,
        }
    }

    /// The text of a string.
    pub open spec fn string(self) -> Option<Seq<char>> {
        match self {
            Tree::Text(text) => Some(text),
            _ => None,
        }
    }
}

/// A name that stands nowhere among named values has no place, and the first that has it
/// is its place.
pub proof fn lemma_place(fields: Seq<Member>, name: Seq<char>, at: int)
    requires
        0 <= at <= fields.len(),
        forall|earlier: int| 0 <= earlier < at ==> (#[trigger] fields[earlier]).name != name,
    ensures
        at == fields.len() ==> place_of(fields, name) is None,
        at < fields.len() && fields[at].name == name ==> place_of(fields, name) == Some(at),
    decreases fields.len(),
{
    if fields.len() > 0 {
        let head = fields.drop_last();
        if at < fields.len() {
            assert forall|earlier: int| 0 <= earlier < at implies (#[trigger] head[earlier]).name
                != name by {
                assert(head[earlier] == fields[earlier]);
            }
            lemma_place(head, name, at);
        } else {
            assert forall|earlier: int| 0 <= earlier < head.len() implies (
            #[trigger] head[earlier]).name != name by {
                assert(head[earlier] == fields[earlier]);
            }
            lemma_place(head, name, head.len() as int);
        }
    }
}

/// A name has its place where it stands.
pub proof fn lemma_place_found(fields: Seq<Member>, name: Seq<char>)
    ensures
        place_of(fields, name) matches Some(at) ==> 0 <= at < fields.len() && fields[at].name == name,
    decreases fields.len(),
{
    if fields.len() > 0 {
        lemma_place_found(fields.drop_last(), name);
    }
}

/// The first place of a name among named values.
pub fn find_field(fields: &Vec<Field>, name: &str) -> (found: Option<usize>)
    ensures
        match found {
            Some(at) => at < fields@.len() && place_of(pairs(fields@), name@) == Some(at as int),
            None => place_of(pairs(fields@), name@) is None,
        },
{
    let ghost all = pairs(fields@);
    let mut index: usize = 0;
    while index < fields.len()
        invariant
            index <= fields.len(),
            all == pairs(fields@),
            forall|earlier: int| 0 <= earlier < index ==> (#[trigger] all[earlier]).name != name@,
        decreases fields.len() - index,
    {
        if same_text(fields[index].name.as_str(), name) {
            proof {
                lemma_place(all, name@, index as int);
            }
            return Some(index);
        }
        index += 1;
    }
    proof {
        lemma_place(all, name@, all.len() as int);
    }
    None
}

impl Json {
    /// A string.
    pub fn text(value: &str) -> (json: Json)
        ensures
            json@ == Tree::Text(value@),
    {
        Json::Text(copy_text(value))
    }

    /// An array.
    pub fn items(items: Vec<Json>) -> (json: Json)
        ensures
            json@ == Tree::Items(trees(items@)),
    {
        let json: Json = Json::Items(items);
        proof {
            lemma_view(json);
        }
        json
    }

    /// An object.
    pub fn fields(fields: Vec<Field>) -> (json: Json)
        ensures
            json@ == Tree::Fields(pairs(fields@)),
    {
        let json: Json = Json::Fields(fields);
        proof {
            lemma_view(json);
        }
        json
    }

    /// The value with a name in an object.
    pub fn get(&self, name: &str) -> (found: Option<&Json>)
        ensures
            match found {
                Some(value) => self@.field(name@) == Some(value@),
                None => self@.field(name@) is None,
            },
    {
        proof {
            lemma_view(*self);
        }
        match self {
            Json::Fields(fields) => match find_field(fields, name) {
                Some(at) => Some(&fields[at].value),
                None => None,
            },
            _ => None,
        }
    }

    /// The values in an array.
    pub fn as_items(&self) -> (found: Option<&Vec<Json>>)
        ensures
            match found {
                Some(items) => self@.elements() == Some(trees(items@)),
                None => self@.elements() is None,
            },
    {
        proof {
            lemma_view(*self);
        }
        match self {
            Json::Items(items) => Some(items),
            _ => None,
        }
    }

    /// The text of a string.
    pub fn as_text(&self) -> (found: Option<&String>)
        ensures
            match found {
                Some(text) => self@.string() == Some(text@),
                None => self@.string() is None,
            },
    {
        match self {
            Json::Text(text) => Some(text),
            _ => None,
        }
    }
}

/// A named value.
pub fn field(name: &str, value: Json) -> (field: Field)
    ensures
        field.name@ == name@,
        field.value == value,
{
    Field { name: copy_text(name), value }
}

/// `serde_json::Value`, a JSON value of the JSON library.
#[verifier::external_type_specification]
#[verifier::external_body]
pub struct ExValue(serde_json::Value);

/// `serde_json::Error`, why a text is not JSON.
#[verifier::external_type_specification]
#[verifier::external_body]
pub struct ExJsonError(serde_json::Error);

/// What a JSON value of the JSON library holds: its members in the order in which it
/// hands them out, a number as the text in which it shows it.
pub uninterp spec fn tree_of(value: serde_json::Value) -> Tree;

/// What a text stands for as JSON, where it is JSON.
pub uninterp spec fn json_text(text: Seq<char>) -> Option<Tree>;

/// How the JSON library shows a JSON value: in one line, without spaces between its
/// parts.
pub uninterp spec fn shown_tree(tree: Tree) -> Seq<char>;

/// A JSON value of the JSON library, one level of it taken apart.
enum Shape {
    Null,
    Bool(bool),
    Number(String),
    Text(String),
    Items(Vec<serde_json::Value>),
    Fields(Vec<(String, serde_json::Value)>),
}

/// What a value that was taken apart holds.
spec fn shape_tree(shape: Shape) -> Tree {
    match shape {
        Shape::Null => Tree::Null,
        Shape::Bool(yes) => Tree::Bool(yes),
        Shape::Number(text) => Tree::Number(text@),
        Shape::Text(text) => Tree::Text(text@),
        Shape::Items(items) => Tree::Items(
            items@.map_values(|item: serde_json::Value| tree_of(item)),
        ),
        Shape::Fields(fields) => Tree::Fields(
            fields@.map_values(
                |field: (String, serde_json::Value)| Member { name: field.0@, value: tree_of(field.1) },
            ),
        ),
    }
}

/// `serde_json::from_str` reads a text as a JSON value: a function of the text alone, and
/// an error where the text is not JSON.
#[verifier::external_body]
fn read_value(text: &str) -> (value: Result<serde_json::Value, serde_json::Error>)
    ensures
        match value {
            Ok(found) => json_text(text@) == Some(tree_of(found)),
            Err(_) => json_text(text@) is None,
        },
{
    serde_json::from_str(text)
}

/// `serde_json::Value` is one of six kinds of values, whose parts it owns: nothing, a
/// truth value, a number, a string, an array, or an object with its named values in the
/// order in which `serde_json::Map` hands them out.
#[verifier::external_body]
fn take_apart(value: serde_json::Value) -> (shape: Shape)
    ensures
        shape_tree(shape) == tree_of(value),
{
    match value {
        serde_json::Value::Null => Shape::Null,
        serde_json::Value::Bool(yes) => Shape::Bool(yes),
        serde_json::Value::Number(number) => Shape::Number(number.to_string()),
        serde_json::Value::String(text) => Shape::Text(text),
        serde_json::Value::Array(items) => Shape::Items(items),
        serde_json::Value::Object(fields) => Shape::Fields(fields.into_iter().collect()),
    }
}

/// `serde_json::Value::to_string` shows a JSON value: a function of what it holds alone.
#[verifier::external_body]
fn show_value(value: &serde_json::Value) -> (text: String)
    ensures
        text@ == shown_tree(tree_of(*value)),
{
    value.to_string()
}

/// Takes a JSON value of the JSON library over.
fn to_json(value: serde_json::Value) -> (json: Json)
    ensures
        json@ == tree_of(value),
    decreases tree_of(value),
{
    let ghost whole = tree_of(value);
    match take_apart(value) {
        Shape::Null => Json::Null,
        Shape::Bool(yes) => Json::Bool(yes),
        Shape::Number(text) => Json::Number(text),
        Shape::Text(text) => Json::Text(text),
        Shape::Items(values) => {
            let ghost all = values@.map_values(|item: serde_json::Value| tree_of(item));
            let ghost given = values@;
            let mut items: Vec<Json> = Vec::new();
            assert(trees(items@) == all.take(0));
            for item in iter: values
                invariant
                    iter.seq() == given,
                    all == given.map_values(|item: serde_json::Value| tree_of(item)),
                    whole == Tree::Items(all),
                    whole == tree_of(value),
                    trees(items@) == all.take(iter.index()),
            {
                let ghost earlier = items@;
                assert(all[iter.index()] == tree_of(item));
                assert(decreases_to!(whole => whole->Items_0));
                assert(decreases_to!(whole->Items_0 => whole->Items_0[iter.index()]));
                items.push(to_json(item));
                assert(trees(items@) == trees(earlier).push(all[iter.index()]));
                assert(all.take(iter.index() + 1) == all.take(iter.index()).push(all[iter.index()]));
            }
            assert(all.take(all.len() as int) == all);
            Json::items(items)
        },
        Shape::Fields(values) => {
            let ghost all = values@.map_values(
                |field: (String, serde_json::Value)| Member { name: field.0@, value: tree_of(field.1) },
            );
            let ghost given = values@;
            let mut fields: Vec<Field> = Vec::new();
            assert(pairs(fields@) == all.take(0));
            for entry in iter: values
                invariant
                    iter.seq() == given,
                    all == given.map_values(
                        |field: (String, serde_json::Value)| Member { name: field.0@, value: tree_of(field.1) },
                    ),
                    whole == Tree::Fields(all),
                    whole == tree_of(value),
                    pairs(fields@) == all.take(iter.index()),
            {
                let ghost earlier = fields@;
                assert(all[iter.index()] == (Member { name: entry.0@, value: tree_of(entry.1) }));
                assert(decreases_to!(whole => whole->Fields_0));
                assert(decreases_to!(whole->Fields_0 => whole->Fields_0[iter.index()]));
                assert(decreases_to!(whole->Fields_0[iter.index()] => whole->Fields_0[iter.index()].value));
                let (name, part): (String, serde_json::Value) = entry;
                fields.push(Field { name, value: to_json(part) });
                assert(pairs(fields@) == pairs(earlier).push(all[iter.index()]));
                assert(all.take(iter.index() + 1) == all.take(iter.index()).push(all[iter.index()]));
            }
            assert(all.take(all.len() as int) == all);
            Json::fields(fields)
        },
    }
}

/// Reads a text as JSON.
pub fn parse_json(text: &str) -> (json: Result<Json, serde_json::Error>)
    ensures
        match json {
            Ok(found) => json_text(text@) == Some(found@),
            Err(_) => json_text(text@) is None,
        },
{
    match read_value(text) {
        Ok(value) => Ok(to_json(value)),
        Err(error) => Err(error),
    }
}

/// Reads a text as JSON and shows it in one line.
pub fn reread_json(text: &str) -> (shown: Result<(Json, String), serde_json::Error>)
    ensures
        match shown {
            Ok(found) => json_text(text@) == Some(found.0@) && found.1@ == shown_tree(found.0@),
            Err(_) => json_text(text@) is None,
        },
{
    match read_value(text) {
        Ok(value) => {
            let shown: String = show_value(&value);
            Ok((to_json(value), shown))
        },
        Err(error) => Err(error),
    }
}

/// The value with a name is that of the first member with the name, and there is none where
/// no member has it.
pub proof fn law_field_is_the_first_of_its_name(fields: Seq<Member>, name: Seq<char>, at: int)
    requires
        0 <= at <= fields.len(),
        forall|earlier: int| 0 <= earlier < at ==> (#[trigger] fields[earlier]).name != name,
        at < fields.len() ==> fields[at].name == name,
    ensures
        Tree::Fields(fields).field(name) == if at < fields.len() {
            Some(fields[at].value)
        } else {
            None
        },
{
    lemma_place(fields, name, at);
}

/// Only an object has members, only an array elements and only a string a text.
pub proof fn law_values_are_what_they_are(tree: Tree, name: Seq<char>)
    ensures
        tree.field(name) is Some ==> tree is Fields,
        tree.elements() is Some <==> tree is Items,
        tree matches Tree::Items(items) ==> tree.elements() == Some(items),
        tree.string() is Some <==> tree is Text,
        tree matches Tree::Text(text) ==> tree.string() == Some(text),
{
}

} // verus!
