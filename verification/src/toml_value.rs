//! TOML values: the library's own tree, and the way to and from text.
use crate::table;
use crate::table::Table;
use crate::toml_text;
use crate::toml_text::Scalar;
use vstd::prelude::*;

verus! {

/// A value of a TOML document.
#[derive(Debug)]
pub enum TomlValue {
    String(String),
    Integer(i64),
    Boolean(bool),
    Array(Vec<TomlValue>),
    Table(Table<TomlValue>),
    Other(Scalar),
}

/// What a value is.
pub enum Tree {
    String(Seq<char>),
    Integer(int),
    Boolean(bool),
    Array(Seq<Tree>),
    Table(Seq<(Seq<char>, Tree)>),
    Other(toml::Value),
}

impl TomlValue {
    /// The tree of a value, level by level.
    pub open spec fn tree(self) -> Tree
        decreases self,
    {
        match self {
            TomlValue::String(s) => Tree::String(s@),
            TomlValue::Integer(i) => Tree::Integer(i as int),
            TomlValue::Boolean(b) => Tree::Boolean(b),
            TomlValue::Array(a) => Tree::Array(
                Seq::new(
                    a@.len(),
                    |i: int|
                        if 0 <= i < a@.len() {
                            a@[i].tree()
                        } else {
                            arbitrary()
                        },
                ),
            ),
            TomlValue::Table(t) => Tree::Table(
                Seq::new(
                    t.entries@.len(),
                    |i: int|
                        if 0 <= i < t.entries@.len() {
                            (t.entries@[i].0@, t.entries@[i].1.tree())
                        } else {
                            arbitrary()
                        },
                ),
            ),
            TomlValue::Other(v) => v@,
        }
    }
}

impl View for TomlValue {
    type V = Tree;

    open spec fn view(&self) -> Tree {
        self.tree()
    }
}

/// The trees of an array's values.
pub open spec fn trees(a: Seq<TomlValue>) -> Seq<Tree> {
    Seq::new(a.len(), |i: int| a[i]@)
}

/// The trees of a table's values, under their names.
pub open spec fn named_trees(entries: Seq<(Seq<char>, TomlValue)>) -> Seq<(Seq<char>, Tree)> {
    Seq::new(entries.len(), |i: int| (entries[i].0, entries[i].1@))
}

/// An array is the trees of its values, a table those of its values by name.
pub proof fn lemma_view(v: TomlValue)
    ensures
        v matches TomlValue::Array(a) ==> v@ == Tree::Array(trees(a@)),
        v matches TomlValue::Table(t) ==> v@ == Tree::Table(named_trees(t.model())),
        v is Other ==> v@ is Other,
{
    match v {
        TomlValue::Array(a) => {
            assert(v@->Array_0 =~= trees(a@));
        },
        TomlValue::Table(t) => {
            assert(v@->Table_0 =~= named_trees(t.model()));
        },
        TomlValue::Other(s) => {
            toml_text::lemma_scalar(s);
        },
        _ => {},
    }
}

/// Putting a value in puts its tree in.
pub proof fn lemma_named_trees_put(entries: Seq<(Seq<char>, TomlValue)>, key: Seq<char>, value: TomlValue)
    ensures
        named_trees(table::put(entries, key, value)) == table::put(named_trees(entries), key, value@),
    decreases entries.len(),
{
    let e = named_trees(entries);
    if entries.len() > 0 {
        lemma_named_trees_put(entries.skip(1), key, value);
        assert(named_trees(entries.skip(1)) =~= e.skip(1));
    }
    assert(named_trees(table::put(entries, key, value)) =~= table::put(e, key, value@));
}

/// Looking a value up looks its tree up.
pub proof fn lemma_named_trees_lookup(entries: Seq<(Seq<char>, TomlValue)>, key: Seq<char>)
    ensures
        match table::lookup(entries, key) {
            Some(v) => table::lookup(named_trees(entries), key) == Some(v@),
            None => table::lookup(named_trees(entries), key) is None,
        },
    decreases entries.len(),
{
    if entries.len() > 0 {
        lemma_named_trees_lookup(entries.skip(1), key);
        assert(named_trees(entries.skip(1)) =~= named_trees(entries).skip(1));
    }
}

impl TomlValue {
    /// The table, where the value is one.
    pub fn as_table(&self) -> (r: Option<&Table<TomlValue>>)
        ensures
            match r {
                Some(t) => self@ == Tree::Table(named_trees(t.model())) && *self == TomlValue::Table(*t),
                None => !(self@ is Table),
            },
    {
        proof {
            lemma_view(*self);
        }
        match self {
            TomlValue::Table(t) => Some(t),
            _ => None,
        }
    }

    /// The items, where the value is an array.
    pub fn as_array(&self) -> (r: Option<&Vec<TomlValue>>)
        ensures
            match r {
                Some(a) => self@ == Tree::Array(trees(a@)) && *self == TomlValue::Array(*a),
                None => !(self@ is Array),
            },
    {
        proof {
            lemma_view(*self);
        }
        match self {
            TomlValue::Array(a) => Some(a),
            _ => None,
        }
    }

    /// The text, where the value is a string.
    pub fn as_str(&self) -> (r: Option<&str>)
        ensures
            match r {
                Some(s) => self@ == Tree::String(s@),
                None => !(self@ is String),
            },
    {
        proof {
            lemma_view(*self);
        }
        match self {
            TomlValue::String(s) => Some(s.as_str()),
            _ => None,
        }
    }

    /// The number, where the value is an integer.
    pub fn as_integer(&self) -> (r: Option<i64>)
        ensures
            match r {
                Some(i) => self@ == Tree::Integer(i as int),
                None => !(self@ is Integer),
            },
    {
        proof {
            lemma_view(*self);
        }
        match self {
            TomlValue::Integer(i) => Some(*i),
            _ => None,
        }
    }

    /// The truth value, where the value is one.
    pub fn as_bool(&self) -> (r: Option<bool>)
        ensures
            match r {
                Some(b) => self@ == Tree::Boolean(b),
                None => !(self@ is Boolean),
            },
    {
        proof {
            lemma_view(*self);
        }
        match self {
            TomlValue::Boolean(b) => Some(*b),
            _ => None,
        }
    }
}

/// A value and its tree have the same parts.
pub proof fn law_tree_of_a_value(s: String, i: i64, b: bool, a: Vec<TomlValue>, t: Table<TomlValue>, k: int)
    ensures
        TomlValue::String(s)@ == Tree::String(s@),
        TomlValue::Integer(i)@ == Tree::Integer(i as int),
        TomlValue::Boolean(b)@ == Tree::Boolean(b),
        TomlValue::Array(a)@ matches Tree::Array(x) && x.len() == a@.len() && (0 <= k < a@.len() ==> x[k] == a@[k]@),
        TomlValue::Table(t)@ matches Tree::Table(e) && e.len() == t.entries@.len() && (0 <= k < t.entries@.len() ==> e[k]
            == (t.entries@[k].0@, t.entries@[k].1@)),
{
    lemma_view(TomlValue::Array(a));
    lemma_view(TomlValue::Table(t));
}

}
