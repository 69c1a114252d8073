//! JSON documents.

use serde_json::Value;
use vstd::prelude::*;

verus! {

/// A JSON number as `serde_json` holds it.
#[verifier::external_type_specification]
#[verifier::external_body]
pub struct ExNumber(serde_json::Number);

/// A JSON document as `serde_json` holds it.
#[verifier::external_type_specification]
#[verifier::external_body]
pub struct ExValue(serde_json::Value);

/// `Clone` of `serde_json::Number` is derived: the copy is the number.
pub assume_specification[ <serde_json::Number as Clone>::clone ](
    number: &serde_json::Number,
) -> (copy: serde_json::Number)
    ensures
        copy == *number,
;

/// What a JSON document says.
#[verifier::ext_equal]
pub enum Tree {
    Null,
    Bool(bool),
    Unsigned(u64),
    Negative(i64),
    Float(serde_json::Number),
    Text(Seq<char>),
    Array(Seq<Tree>),
    Object(Map<Seq<char>, Tree>),
}

/// A JSON document.
#[derive(Debug)]
pub enum Json {
    Null,
    Bool(bool),
    /// An integer that is not negative.
    Unsigned(u64),
    /// An integer below zero.
    Negative(i64),
    /// A number that is no 64-bit integer.
    Float(serde_json::Number),
    Text(String),
    Array(Vec<Json>),
    /// Keys with their values; where a key occurs twice, the last entry counts.
    Object(Vec<(String, Json)>),
}

/// The document that `json` holds.
pub open spec fn tree(json: Json) -> Tree
    decreases json,
{
    match json {
        Json::Null => Tree::Null,
        Json::Bool(b) => Tree::Bool(b),
        Json::Unsigned(n) => Tree::Unsigned(n),
        Json::Negative(n) => Tree::Negative(n),
        Json::Float(n) => Tree::Float(n),
        Json::Text(s) => Tree::Text(s@),
        Json::Array(items) => Tree::Array(trees(items@)),
        Json::Object(entries) => Tree::Object(fields(entries@)),
    }
}

/// The documents that `items` hold, in order.
pub open spec fn trees(items: Seq<Json>) -> Seq<Tree>
    decreases items,
{
    if items.len() == 0 {
        Seq::empty()
    } else {
        trees(items.drop_last()).push(tree(items.last()))
    }
}

/// The object that `entries` hold: each entry is put in after those before it.
pub open spec fn fields(entries: Seq<(String, Json)>) -> Map<Seq<char>, Tree>
    decreases entries,
{
    if entries.len() == 0 {
        Map::empty()
    } else {
        fields(entries.drop_last()).insert(entries.last().0@, tree(entries.last().1))
    }
}

impl View for Json {
    type V = Tree;

    open spec fn view(&self) -> Tree {
        tree(*self)
    }
}

pub proof fn lemma_trees(items: Seq<Json>)
    ensures
        trees(items).len() == items.len(),
        forall|i: int| 0 <= i < items.len() ==> #[trigger] trees(items)[i] == items[i]@,
    decreases items.len(),
{
    if items.len() > 0 {
        lemma_trees(items.drop_last());
    }
}

pub proof fn lemma_trees_push(items: Seq<Json>, item: Json)
    ensures
        trees(items.push(item)) == trees(items).push(item@),
{
    assert(items.push(item).drop_last() =~= items);
}

proof fn lemma_fields_push(entries: Seq<(String, Json)>, key: String, value: Json)
    ensures
        fields(entries.push((key, value))) == fields(entries).insert(key@, value@),
{
    assert(entries.push((key, value)).drop_last() =~= entries);
}

/// Replacing the value of the last entry for a key puts the value in.
proof fn lemma_fields_update(entries: Seq<(String, Json)>, at: int, entry: (String, Json))
    requires
        0 <= at < entries.len(),
        entries[at].0@ == entry.0@,
        forall|i: int| at < i < entries.len() ==> (#[trigger] entries[i]).0@ != entry.0@,
    ensures
        fields(entries.update(at, entry)) == fields(entries).insert(entry.0@, entry.1@),
    decreases entries.len(),
{
    let updated = entries.update(at, entry);
    if at == entries.len() - 1 {
        assert(updated.drop_last() =~= entries.drop_last());
        assert(fields(updated) =~= fields(entries).insert(entry.0@, entry.1@));
    } else {
        lemma_fields_update(entries.drop_last(), at, entry);
        assert(updated.drop_last() =~= entries.drop_last().update(at, entry));
        assert(entries[entries.len() - 1].0@ != entry.0@);
        assert(fields(updated) =~= fields(entries).insert(entry.0@, entry.1@));
    }
}

/// A key that no entry has is not in the object.
proof fn lemma_fields_absent(entries: Seq<(String, Json)>, key: Seq<char>)
    requires
        forall|i: int| 0 <= i < entries.len() ==> (#[trigger] entries[i]).0@ != key,
    ensures
        !fields(entries).contains_key(key),
    decreases entries.len(),
{
    if entries.len() > 0 {
        assert(entries[entries.len() - 1].0@ != key);
        lemma_fields_absent(entries.drop_last(), key);
    }
}

/// The last entry for a key is the one that counts.
proof fn lemma_fields_at(entries: Seq<(String, Json)>, at: int)
    requires
        0 <= at < entries.len(),
        forall|i: int| at < i < entries.len() ==> (#[trigger] entries[i]).0@ != entries[at].0@,
    ensures
        fields(entries).contains_key(entries[at].0@),
        fields(entries)[entries[at].0@] == entries[at].1@,
    decreases entries.len(),
{
    if at < entries.len() - 1 {
        assert(entries[entries.len() - 1].0@ != entries[at].0@);
        lemma_fields_at(entries.drop_last(), at);
    }
}

/// The last entry for `key`.
fn position(entries: &Vec<(String, Json)>, key: &str) -> (res: Option<usize>)
    ensures
        match res {
            Some(at) => {
                &&& at < entries@.len()
                &&& entries@[at as int].0@ == key@
                &&& forall|i: int| at < i < entries@.len() ==> (#[trigger] entries@[i]).0@ != key@
            },
            None => forall|i: int|
                0 <= i < entries@.len() ==> (#[trigger] entries@[i]).0@ != key@,
        },
{
    let name = key.to_owned();
    let mut i: usize = entries.len();
    while i > 0
        invariant
            i <= entries@.len(),
            name@ == key@,
            forall|j: int| i <= j < entries@.len() ==> (#[trigger] entries@[j]).0@ != key@,
        decreases i,
    {
        i = i - 1;
        if entries[i].0 == name {
            return Some(i);
        }
    }
    None
}

/// What an answer says: a document, or the message of a failure.
pub open spec fn told(answer: Result<Json, String>) -> Result<Tree, Seq<char>> {
    match answer {
        Ok(json) => Ok(json@),
        Err(message) => Err(message@),
    }
}

/// What an attempt at a text says: the text, or the message of a failure.
pub open spec fn worded(attempt: Result<String, String>) -> Result<Seq<char>, Seq<char>> {
    match attempt {
        Ok(text) => Ok(text@),
        Err(message) => Err(message@),
    }
}

/// The value under `key`, where the document is an object that has it.
pub open spec fn field(doc: Tree, key: Seq<char>) -> Option<Tree> {
    match doc {
        Tree::Object(map) => if map.contains_key(key) {
            Some(map[key])
        } else {
            None
        },
        _ => None,
    }
}

/// The text under `key`, where there is one.
pub open spec fn text_field(doc: Tree, key: Seq<char>) -> Option<Seq<char>> {
    match field(doc, key) {
        Some(Tree::Text(text)) => Some(text),
        _ => None,
    }
}

/// The integer under `key`, where there is one that is not negative.
pub open spec fn unsigned_field(doc: Tree, key: Seq<char>) -> Option<u64> {
    match field(doc, key) {
        Some(Tree::Unsigned(n)) => Some(n),
        _ => None,
    }
}

/// The truth value under `key`, where there is one.
pub open spec fn bool_field(doc: Tree, key: Seq<char>) -> Option<bool> {
    match field(doc, key) {
        Some(Tree::Bool(b)) => Some(b),
        _ => None,
    }
}

/// The documents that writing and reading keep: no number but 64-bit integers, and no more than
/// `depth` arrays and objects inside one another.
pub open spec fn reads_back(doc: Tree, depth: nat) -> bool
    decreases depth,
{
    match doc {
        Tree::Negative(n) => n < 0,
        Tree::Float(_) => false,
        Tree::Array(items) => depth > 0 && forall|i: int|
            0 <= i < items.len() ==> #[trigger] reads_back(items[i], (depth - 1) as nat),
        Tree::Object(map) => depth > 0 && forall|key: Seq<char>|
            map.contains_key(key) ==> #[trigger] reads_back(map[key], (depth - 1) as nat),
        _ => true,
    }
}

/// How many arrays and objects inside one another the reader takes.
pub open spec fn depth_limit() -> nat {
    127
}

/// What `serde_json::from_str` reads in `text`: the document, or its error's message.
pub uninterp spec fn parsed_text(text: Seq<char>) -> Result<Tree, Seq<char>>;

/// What `serde_json::from_slice` reads in `bytes`: the document, or its error's message.
pub uninterp spec fn parsed_bytes(bytes: Seq<u8>) -> Result<Tree, Seq<char>>;

/// What `serde_json::to_string` writes for `doc`: the text, or its error's message.
pub uninterp spec fn rendered(doc: Tree) -> Result<Seq<char>, Seq<char>>;

/// The document that a `serde_json::Value` holds, variant by variant.
#[verifier::external_body]
fn from_value(value: Value) -> Json {
    match value {
        Value::Null => Json::Null,
        Value::Bool(b) => Json::Bool(b),
        Value::Number(n) => match (n.as_u64(), n.as_i64()) {
            (Some(u), _) => Json::Unsigned(u),
            (None, Some(i)) => Json::Negative(i),
            (None, None) => Json::Float(n),
        },
        Value::String(s) => Json::Text(s),
        Value::Array(a) => Json::Array(a.into_iter().map(from_value).collect()),
        Value::Object(m) => {
            Json::Object(m.into_iter().map(|(k, v)| (k, from_value(v))).collect())
        },
    }
}

/// The `serde_json::Value` that holds the document, variant by variant. The entries of an object
/// go into a `serde_json::Map` in order, where `insert` updates the value of a key that is there,
/// so that the last entry counts.
#[verifier::external_body]
fn to_value(json: &Json) -> Value {
    match json {
        Json::Null => Value::Null,
        Json::Bool(b) => Value::Bool(*b),
        Json::Unsigned(n) => Value::Number((*n).into()),
        Json::Negative(n) => Value::Number((*n).into()),
        Json::Float(n) => Value::Number(n.clone()),
        Json::Text(s) => Value::String(s.clone()),
        Json::Array(a) => Value::Array(a.iter().map(to_value).collect()),
        Json::Object(entries) => {
            let mut map = serde_json::Map::new();
            for (k, v) in entries { map.insert(k.clone(), to_value(v)); }
            Value::Object(map)
        },
    }
}

/// Calls `serde_json::from_str`. Its result depends on the text alone.
#[verifier::external_body]
pub(crate) fn parse_text(text: &str) -> (answer: Result<Json, String>)
    ensures
        told(answer) == parsed_text(text@),
{
    match serde_json::from_str::<Value>(text) {
        Ok(value) => Ok(from_value(value)),
        Err(e) => Err(e.to_string()),
    }
}

/// Calls `serde_json::from_slice`. Its result depends on the bytes alone.
#[verifier::external_body]
pub(crate) fn parse_bytes(bytes: &[u8]) -> (answer: Result<Json, String>)
    ensures
        told(answer) == parsed_bytes(bytes@),
{
    match serde_json::from_slice::<Value>(bytes) {
        Ok(value) => Ok(from_value(value)),
        Err(e) => Err(e.to_string()),
    }
}

/// Calls `serde_json::to_string`. Its result depends on the document alone, and it succeeds: it
/// could fail only on a map whose keys are no strings, or where a `Serialize` decides to, which
/// that of `serde_json::Value` never does. The text is compact, with every control character in a
/// string escaped, so it holds no character below the blank; an object stands between braces; and
/// `serde_json::from_str` reads the document back out of it, where floats and too deep a nesting
/// do not stand in the way.
#[verifier::external_body]
pub(crate) fn render(json: &Json) -> (res: Result<String, String>)
    ensures
        worded(res) == rendered(json@),
        res is Ok,
        res matches Ok(text) ==> forall|i: int|
            0 <= i < text@.len() ==> ' ' <= #[trigger] text@[i],
        res matches Ok(text) ==> json@ is Object ==> text@.len() >= 2 && text@[0] == '{'
            && text@.last() == '}',
        res matches Ok(text) ==> reads_back(json@, depth_limit()) ==> {
            parsed_text(text@) matches Ok(doc) && doc == json@
        },
{
    serde_json::to_string(&to_value(json)).map_err(|e| e.to_string())
}

impl Json {
    /// An empty object.
    pub fn object() -> (json: Json)
        ensures
            json@ == Tree::Object(Map::empty()),
    {
        Json::Object(Vec::new())
    }

    /// A text.
    pub fn text(text: &str) -> (json: Json)
        ensures
            json@ == Tree::Text(text@),
    {
        Json::Text(text.to_owned())
    }

    /// The object with `value` under `key`, in place of what was there.
    pub fn with(self, key: &str, value: Json) -> (json: Json)
        requires
            self@ is Object,
        ensures
            json@ == Tree::Object(self@->Object_0.insert(key@, value@)),
    {
        match self {
            Json::Object(entries) => {
                let mut entries = entries;
                let name = key.to_owned();
                match position(&entries, key) {
                    Some(at) => {
                        proof {
                            lemma_fields_update(entries@, at as int, (name, value));
                        }
                        entries[at] = (name, value);
                    },
                    None => {
                        proof {
                            lemma_fields_push(entries@, name, value);
                        }
                        entries.push((name, value));
                    },
                }
                Json::Object(entries)
            },
            other => other,
        }
    }

    /// The value under `key`, where the document is an object that has it.
    pub fn get(&self, key: &str) -> (res: Option<&Json>)
        ensures
            match res {
                Some(value) => field(self@, key@) == Some(value@),
                None => field(self@, key@) is None,
            },
    {
        match self {
            Json::Object(entries) => match position(entries, key) {
                Some(at) => {
                    proof {
                        lemma_fields_at(entries@, at as int);
                    }
                    Some(&entries[at].1)
                },
                None => {
                    proof {
                        lemma_fields_absent(entries@, key@);
                    }
                    None
                },
            },
            _ => None,
        }
    }

    /// The text that the document is.
    pub fn as_str(&self) -> (res: Option<&str>)
        ensures
            match res {
                Some(text) => self@ == Tree::Text(text@),
                None => !(self@ is Text),
            },
    {
        match self {
            Json::Text(text) => Some(text.as_str()),
            _ => None,
        }
    }

    /// The integer that the document is, where it is not negative.
    pub fn as_u64(&self) -> (res: Option<u64>)
        ensures
            match res {
                Some(n) => self@ == Tree::Unsigned(n),
                None => !(self@ is Unsigned),
            },
    {
        match self {
            Json::Unsigned(n) => Some(*n),
            _ => None,
        }
    }

    /// The truth value that the document is.
    pub fn as_bool(&self) -> (res: Option<bool>)
        ensures
            match res {
                Some(b) => self@ == Tree::Bool(b),
                None => !(self@ is Bool),
            },
    {
        match self {
            Json::Bool(b) => Some(*b),
            _ => None,
        }
    }

    /// The items of the array that the document is.
    pub fn as_array(&self) -> (res: Option<&Vec<Json>>)
        ensures
            match res {
                Some(items) => self@ == Tree::Array(trees(items@)),
                None => !(self@ is Array),
            },
    {
        match self {
            Json::Array(items) => Some(items),
            _ => None,
        }
    }

    /// The text under `key`.
    pub fn get_str(&self, key: &str) -> (res: Option<&str>)
        ensures
            match res {
                Some(text) => text_field(self@, key@) == Some(text@),
                None => text_field(self@, key@) is None,
            },
    {
        match self.get(key) {
            Some(value) => value.as_str(),
            None => None,
        }
    }

    /// The integer under `key`, where it is not negative.
    pub fn get_u64(&self, key: &str) -> (res: Option<u64>)
        ensures
            res == unsigned_field(self@, key@),
    {
        match self.get(key) {
            Some(value) => value.as_u64(),
            None => None,
        }
    }

    /// The truth value under `key`.
    pub fn get_bool(&self, key: &str) -> (res: Option<bool>)
        ensures
            res == bool_field(self@, key@),
    {
        match self.get(key) {
            Some(value) => value.as_bool(),
            None => None,
        }
    }
}

impl Clone for Json {
    fn clone(&self) -> (copy: Json)
        ensures
            copy@ == self@,
        decreases self,
    {
        match self {
            Json::Null => Json::Null,
            Json::Bool(b) => Json::Bool(*b),
            Json::Unsigned(n) => Json::Unsigned(*n),
            Json::Negative(n) => Json::Negative(*n),
            Json::Float(n) => Json::Float(n.clone()),
            Json::Text(s) => Json::Text(s.clone()),
            Json::Array(items) => {
                let mut out: Vec<Json> = Vec::new();
                let mut i: usize = 0;
                while i < items.len()
                    invariant
                        *self == Json::Array(*items),
                        i <= items.len(),
                        trees(out@) == trees(items@.take(i as int)),
                    decreases items.len() - i,
                {
                    assert(decreases_to!(*self => self->Array_0));
                    assert(decreases_to!(*items => items@));
                    assert(decreases_to!(items@ => items@[i as int]));
                    let item = items[i].clone();
                    proof {
                        lemma_trees_push(out@, item);
                        lemma_trees_push(items@.take(i as int), items@[i as int]);
                        assert(items@.take(i as int).push(items@[i as int]) =~= items@.take(i + 1));
                    }
                    out.push(item);
                    i = i + 1;
                }
                assert(items@.take(i as int) =~= items@);
                Json::Array(out)
            }
            Json::Object(entries) => {
                let mut out: Vec<(String, Json)> = Vec::new();
                let mut i: usize = 0;
                while i < entries.len()
                    invariant
                        *self == Json::Object(*entries),
                        i <= entries.len(),
                        fields(out@) == fields(entries@.take(i as int)),
                    decreases entries.len() - i,
                {
                    let key = entries[i].0.clone();
                    assert(decreases_to!(*self => self->Object_0));
                    assert(decreases_to!(*entries => entries@));
                    assert(decreases_to!(entries@ => entries@[i as int]));
                    assert(decreases_to!(entries@[i as int] => entries@[i as int].1));
                    let value = entries[i].1.clone();
                    proof {
                        lemma_fields_push(out@, key, value);
                        lemma_fields_push(
                            entries@.take(i as int),
                            entries@[i as int].0,
                            entries@[i as int].1,
                        );
                        assert(entries@.take(i as int).push(
                            (entries@[i as int].0, entries@[i as int].1),
                        ) =~= entries@.take(i + 1));
                    }
                    out.push((key, value));
                    i = i + 1;
                }
                assert(entries@.take(i as int) =~= entries@);
                Json::Object(out)
            }
        }
    }
}

} // verus!
