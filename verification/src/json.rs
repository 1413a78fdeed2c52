//! JSON values: what the control socket takes and gives.
use crate::table;
use crate::table::Table;
use vstd::prelude::*;

verus! {

/// A JSON value. A number that is no unsigned 64-bit integer has no value of its
/// own here.
#[derive(Debug)]
pub enum Json {
    Null,
    Bool(bool),
    Number(u64),
    OtherNumber,
    String(String),
    Array(Vec<Json>),
    Object(Table<Json>),
}

/// What a JSON value is.
pub enum JsonTree {
    Null,
    Bool(bool),
    Number(int),
    OtherNumber,
    String(Seq<char>),
    Array(Seq<JsonTree>),
    Object(Seq<(Seq<char>, JsonTree)>),
}

impl Json {
    /// The tree of a value, level by level.
    pub open spec fn tree(self) -> JsonTree
        decreases self,
    {
        match self {
            Json::Null => JsonTree::Null,
            Json::Bool(b) => JsonTree::Bool(b),
            Json::Number(n) => JsonTree::Number(n as int),
            Json::OtherNumber => JsonTree::OtherNumber,
            Json::String(s) => JsonTree::String(s@),
            Json::Array(a) => JsonTree::Array(
                Seq::new(
                    a@.len(),
                    |i: int|
                        if 0 <= i < a@.len() {
                            a@[i].tree()
                        } else {
                            arbitrary()
                        },
                ),
            ),
            Json::Object(t) => JsonTree::Object(
                Seq::new(
                    t.entries@.len(),
                    |i: int|
                        if 0 <= i < t.entries@.len() {
                            (t.entries@[i].0@, t.entries@[i].1.tree())
                        } else {
                            arbitrary()
                        },
                ),
            ),
        }
    }
}

impl View for Json {
    type V = JsonTree;

    open spec fn view(&self) -> JsonTree {
        self.tree()
    }
}

/// The trees of an array's values.
pub open spec fn json_trees(a: Seq<Json>) -> Seq<JsonTree> {
    Seq::new(a.len(), |i: int| a[i]@)
}

/// The trees of an object's values, under their names.
pub open spec fn named_json(entries: Seq<(Seq<char>, Json)>) -> Seq<(Seq<char>, JsonTree)> {
    Seq::new(entries.len(), |i: int| (entries[i].0, entries[i].1@))
}

/// An array is the trees of its values, an object those of its values by name.
pub proof fn lemma_json_view(v: Json)
    ensures
        v matches Json::Array(a) ==> v@ == JsonTree::Array(json_trees(a@)),
        v matches Json::Object(t) ==> v@ == JsonTree::Object(named_json(t.model())),
{
    match v {
        Json::Array(a) => {
            assert(v@->Array_0 =~= json_trees(a@));
        },
        Json::Object(t) => {
            assert(v@->Object_0 =~= named_json(t.model()));
        },
        _ => {},
    }
}

proof fn lemma_named_json_put(entries: Seq<(Seq<char>, Json)>, key: Seq<char>, value: Json)
    ensures
        named_json(table::put(entries, key, value)) == table::put(named_json(entries), key, value@),
    decreases entries.len(),
{
    let e = named_json(entries);
    if entries.len() > 0 {
        lemma_named_json_put(entries.skip(1), key, value);
        assert(named_json(entries.skip(1)) =~= e.skip(1));
    }
    assert(named_json(table::put(entries, key, value)) =~= table::put(e, key, value@));
}

proof fn lemma_named_json_lookup(entries: Seq<(Seq<char>, Json)>, key: Seq<char>)
    ensures
        match table::lookup(entries, key) {
            Some(v) => table::lookup(named_json(entries), key) == Some(v@),
            None => table::lookup(named_json(entries), key) is None,
        },
    decreases entries.len(),
{
    if entries.len() > 0 {
        lemma_named_json_lookup(entries.skip(1), key);
        assert(named_json(entries.skip(1)) =~= named_json(entries).skip(1));
    }
}

/// The value under a name, where the value is an object that has it.
pub open spec fn member(t: JsonTree, key: Seq<char>) -> Option<JsonTree> {
    match t {
        JsonTree::Object(e) => table::lookup(e, key),
        _ => None,
    }
}

/// The text under a name.
pub open spec fn member_text(t: JsonTree, key: Seq<char>) -> Option<Seq<char>> {
    match member(t, key) {
        Some(JsonTree::String(s)) => Some(s),
        _ => None,
    }
}

/// The number under a name.
pub open spec fn member_number(t: JsonTree, key: Seq<char>) -> Option<int> {
    match member(t, key) {
        Some(JsonTree::Number(n)) => Some(n),
        _ => None,
    }
}

impl Json {
    /// The value under a name.
    pub fn get(&self, key: &str) -> (r: Option<&Json>)
        ensures
            match r {
                Some(v) => member(self@, key@) == Some(v@),
                None => member(self@, key@) is None,
            },
    {
        proof {
            lemma_json_view(*self);
        }
        match self {
            Json::Object(t) => {
                proof {
                    lemma_named_json_lookup(t.model(), key@);
                }
                t.get(key)
            },
            _ => None,
        }
    }

    /// The text under a name.
    pub fn get_str(&self, key: &str) -> (r: Option<&str>)
        ensures
            match r {
                Some(s) => member_text(self@, key@) == Some(s@),
                None => member_text(self@, key@) is None,
            },
    {
        match self.get(key) {
            Some(Json::String(s)) => Some(s.as_str()),
            _ => None,
        }
    }

    /// The number under a name.
    pub fn get_u64(&self, key: &str) -> (r: Option<u64>)
        ensures
            match r {
                Some(n) => member_number(self@, key@) == Some(n as int),
                None => member_number(self@, key@) is None,
            },
    {
        match self.get(key) {
            Some(Json::Number(n)) => Some(*n),
            _ => None,
        }
    }
}

/// An object under construction.
pub struct Members {
    pub table: Table<Json>,
}

impl View for Members {
    type V = Seq<(Seq<char>, JsonTree)>;

    open spec fn view(&self) -> Seq<(Seq<char>, JsonTree)> {
        named_json(self.table.model())
    }
}

impl Members {
    /// No members.
    pub fn new() -> (r: Self)
        ensures
            r@ == Seq::<(Seq<char>, JsonTree)>::empty(),
    {
        let r = Members { table: Table::new() };
        assert(r@ =~= Seq::<(Seq<char>, JsonTree)>::empty());
        r
    }

    /// Puts a member in.
    pub fn put(&mut self, key: &str, value: Json)
        ensures
            final(self)@ == table::put(old(self)@, key@, value@),
    {
        proof {
            lemma_named_json_put(self.table.model(), key@, value);
        }
        self.table.insert(key.to_owned(), value);
    }

    /// The object.
    pub fn object(self) -> (r: Json)
        ensures
            r@ == JsonTree::Object(self@),
    {
        let r = Json::Object(self.table);
        proof {
            lemma_json_view(r);
        }
        r
    }
}

/// Whether a value is an object with `v` under a name, which counts by its first entry.
pub open spec fn stands_under(t: JsonTree, key: Seq<char>, v: JsonTree) -> bool {
    t matches JsonTree::Object(e) && exists|i: int|
        0 <= i < e.len() && #[trigger] e[i] == (key, v) && forall|j: int| 0 <= j < i ==> (#[trigger] e[j]).0 != key
}

/// The value under a name is what stands there; the text under it is that where it is a
/// text, and so is the number.
pub proof fn law_members(t: JsonTree, key: Seq<char>, v: JsonTree, s: Seq<char>, n: int)
    ensures
        member(t, key) == Some(v) <==> stands_under(t, key, v),
        member_text(t, key) == Some(s) <==> stands_under(t, key, JsonTree::String(s)),
        member_number(t, key) == Some(n) <==> stands_under(t, key, JsonTree::Number(n)),
{
    lemma_member(t, key, v);
    lemma_member(t, key, JsonTree::String(s));
    lemma_member(t, key, JsonTree::Number(n));
}

proof fn lemma_member(t: JsonTree, key: Seq<char>, v: JsonTree)
    ensures
        member(t, key) == Some(v) <==> stands_under(t, key, v),
{
    if let JsonTree::Object(e) = t {
        if stands_under(t, key, v) {
            let i = choose|i: int|
                0 <= i < e.len() && #[trigger] e[i] == (key, v) && forall|j: int|
                    0 <= j < i ==> (#[trigger] e[j]).0 != key;
            table::law_lookup_finds_the_first(e, key, i);
        }
        if member(t, key) == Some(v) {
            let i = table::law_what_is_found_is_there(e, key);
            assert(e[i] == (key, v));
        }
    }
}

/// A JSON value and its tree have the same parts.
pub proof fn law_tree_of_a_value(s: String, n: u64, b: bool)
    ensures
        Json::String(s)@ == JsonTree::String(s@),
        Json::Number(n)@ == JsonTree::Number(n as int),
        Json::Bool(b)@ == JsonTree::Bool(b),
{
}

/// An array and an object have the trees of their parts.
pub proof fn law_tree_of_parts(a: Vec<Json>, t: Table<Json>, k: int)
    ensures
        Json::Array(a)@ matches JsonTree::Array(x) && x.len() == a@.len() && (0 <= k < a@.len() ==> x[k] == a@[k]@),
        Json::Object(t)@ matches JsonTree::Object(e) && e.len() == t.entries@.len() && (0 <= k < t.entries@.len()
            ==> e[k] == (t.entries@[k].0@, t.entries@[k].1@)),
{
    lemma_json_view(Json::Array(a));
    lemma_json_view(Json::Object(t));
}

/// The members of an object under construction are those that were put in.
pub proof fn law_model_of_members(m: Members, k: int)
    ensures
        m@.len() == m.table.entries@.len(),
        0 <= k < m.table.entries@.len() ==> m@[k] == (m.table.entries@[k].0@, m.table.entries@[k].1@),
{
}

}
