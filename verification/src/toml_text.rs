//! TOML documents as text, read and written by the `toml` crate.
use crate::table;
use crate::table::Table;
use crate::text;
use crate::toml_value;
use crate::toml_value::{TomlValue, Tree};
use vstd::prelude::*;

verus! {

/// `toml::Value`, opaque here. [`toml_tree`] names what it holds.
#[verifier::external_type_specification]
#[verifier::external_body]
pub struct ExTomlValue(toml::Value);

/// `Clone` of `toml::Value`: the clone is the same value.
pub assume_specification[ <toml::Value as Clone>::clone ](v: &toml::Value) -> (r: toml::Value)
    ensures
        r == *v,
;

/// What a `toml::Value` holds.
pub uninterp spec fn toml_tree(v: toml::Value) -> Tree;

/// What `toml::from_str` makes of a document, or the text of its error.
pub uninterp spec fn toml_parsed(text: Seq<char>) -> Result<Tree, Seq<char>>;

/// The document that `toml::to_string_pretty` writes for a value, or the text
/// of its error.
pub uninterp spec fn toml_written(tree: Tree) -> Result<Seq<char>, Seq<char>>;

/// One level of a `toml::Value`.
enum Level {
    String(String),
    Integer(i64),
    Boolean(bool),
    Array(Vec<toml::Value>),
    Table(Vec<(String, toml::Value)>),
    Other(toml::Value),
}

impl Level {
    spec fn tree(self) -> Tree {
        match self {
            Level::String(s) => Tree::String(s@),
            Level::Integer(i) => Tree::Integer(i as int),
            Level::Boolean(b) => Tree::Boolean(b),
            Level::Array(a) => Tree::Array(outside_trees(a@)),
            Level::Table(t) => Tree::Table(outside_named_trees(t@)),
            Level::Other(v) => Tree::Other(v),
        }
    }
}

spec fn outside_trees(a: Seq<toml::Value>) -> Seq<Tree> {
    Seq::new(a.len(), |i: int| toml_tree(a[i]))
}

spec fn outside_named_trees(t: Seq<(String, toml::Value)>) -> Seq<(Seq<char>, Tree)> {
    Seq::new(t.len(), |i: int| (t[i].0@, toml_tree(t[i].1)))
}

/// Takes the top level of a `toml::Value` off. The variants of the two enums
/// stand for each other; the entries of a table come out one by one.
#[verifier::external_body]
fn take_apart(v: toml::Value) -> (r: Level)
    ensures
        toml_tree(v) == r.tree(),
        r matches Level::Other(w) ==> w == v,
{
    match v {
        toml::Value::String(s) => Level::String(s),
        toml::Value::Integer(i) => Level::Integer(i),
        toml::Value::Boolean(b) => Level::Boolean(b),
        toml::Value::Array(a) => Level::Array(a),
        toml::Value::Table(t) => Level::Table(t.into_iter().collect()),
        toml::Value::Float(f) => Level::Other(toml::Value::Float(f)),
        toml::Value::Datetime(d) => Level::Other(toml::Value::Datetime(d)),
    }
}

/// Makes a `toml::Value` of its top level. The variants of the two enums stand
/// for each other; a table takes its entries in one after the other and keeps
/// them in the order of their names.
#[verifier::external_body]
fn put_together(level: Level) -> (r: toml::Value)
    ensures
        toml_tree(r) == (match level {
            Level::Table(t) => Tree::Table(table::put_all(outside_named_trees(t@))),
            Level::Other(v) => toml_tree(v),
            _ => level.tree(),
        }),
{
    match level {
        Level::String(s) => toml::Value::String(s),
        Level::Integer(i) => toml::Value::Integer(i),
        Level::Boolean(b) => toml::Value::Boolean(b),
        Level::Array(a) => toml::Value::Array(a),
        Level::Table(t) => toml::Value::Table(t.into_iter().collect()),
        Level::Other(v) => v,
    }
}

/// The outcome of a parse, as its name has it.
spec fn parse_outcome(r: Result<toml::Value, String>) -> Result<Tree, Seq<char>> {
    match r {
        Ok(v) => Ok(toml_tree(v)),
        Err(e) => Err(e@),
    }
}

/// An outcome that is a text either way.
pub open spec fn text_outcome(r: Result<String, String>) -> Result<Seq<char>, Seq<char>> {
    match r {
        Ok(text) => Ok(text@),
        Err(e) => Err(e@),
    }
}

/// The value that a document reads as, where it reads as one.
pub open spec fn read_back(text: Seq<char>) -> Option<Tree> {
    match toml_parsed(text) {
        Ok(tree) => Some(tree),
        Err(_) => None,
    }
}

/// `toml::from_str` into a `toml::Value`. The result is named by
/// [`toml_parsed`], of which nothing is said but what
/// [`to_string_pretty`] adds.
#[verifier::external_body]
fn from_str(text: &str) -> (r: Result<toml::Value, String>)
    ensures
        toml_parsed(text@) == parse_outcome(r),
{
    toml::from_str::<toml::Value>(text).map_err(|e| e.to_string())
}

/// `toml::to_string_pretty` of a `toml::Value`. The result is named by
/// [`toml_written`]. A flat table is always written, and `toml::from_str` reads
/// the document back as the same table. A text with a longer run of quotes than
/// its counters hold is left out.
#[verifier::external_body]
fn to_string_pretty(v: &toml::Value) -> (r: Result<String, String>)
    requires
        quotes_countable(toml_tree(*v)),
    ensures
        toml_written(toml_tree(*v)) == text_outcome(r),
        is_flat_table(toml_tree(*v)) ==> (r is Ok && read_back(r->Ok_0@) == Some(toml_tree(*v))),
{
    toml::to_string_pretty(v).map_err(|e| e.to_string())
}

/// A floating-point number or a date, carried through as it came.
#[derive(Debug)]
pub struct Scalar {
    v: toml::Value,
}

impl Scalar {
    #[verifier::type_invariant]
    spec fn well_formed(self) -> bool {
        toml_tree(self.v) == Tree::Other(self.v)
    }
}

/// A scalar is no value of another kind.
pub proof fn lemma_scalar(s: Scalar)
    ensures
        s@ is Other,
{
}

impl View for Scalar {
    type V = Tree;

    closed spec fn view(&self) -> Tree {
        Tree::Other(self.v)
    }
}

/// The longest run of one kind of quote that the writer can count.
pub const LONGEST_QUOTE_RUN: usize = 255;

/// Whether `s` holds no run of `quote` that is longer than the writer can count.
pub open spec fn runs_countable(s: Seq<char>, quote: char) -> bool {
    forall|i: int| 0 <= i < s.len() - LONGEST_QUOTE_RUN ==> #[trigger] run_ends(s, quote, i)
}

/// Whether a run of `quote` that starts at `i` ends within what the writer can
/// count.
pub open spec fn run_ends(s: Seq<char>, quote: char, i: int) -> bool {
    exists|j: int| i <= j <= i + LONGEST_QUOTE_RUN && #[trigger] s[j] != quote
}

/// Whether no text in a value holds a run of quotes that the writer cannot count.
pub open spec fn quotes_countable(t: Tree) -> bool
    decreases t,
{
    match t {
        Tree::String(s) => runs_countable(s, '\'') && runs_countable(s, '"'),
        Tree::Array(a) => forall|i: int| 0 <= i < a.len() ==> quotes_countable(#[trigger] a[i]),
        Tree::Table(e) => forall|i: int| 0 <= i < e.len() ==> quotes_countable((#[trigger] e[i]).1),
        _ => true,
    }
}

/// Whether a name needs no quotes in a document.
pub open spec fn is_bare_key(s: Seq<char>) -> bool {
    s.len() > 0 && forall|i: int| 0 <= i < s.len() ==> is_bare_char(#[trigger] s[i])
}

/// A letter or digit of ASCII, a hyphen or an underscore.
pub open spec fn is_bare_char(c: char) -> bool {
    ('a' <= c && c <= 'z') || ('A' <= c && c <= 'Z') || ('0' <= c && c <= '9') || c == '-' || c == '_'
}

/// A text, an integer or a truth value.
pub open spec fn is_plain(t: Tree) -> bool {
    t is String || t is Integer || t is Boolean
}

/// A table in order whose names need no quotes and whose values are plain, or
/// arrays of plain values.
pub open spec fn is_flat_table(t: Tree) -> bool {
    match t {
        Tree::Table(e) => table::sorted(e) && forall|i: int| 0 <= i < e.len() ==> is_flat_entry(#[trigger] e[i]),
        _ => false,
    }
}

/// A name that needs no quotes with a plain value, or an array of plain values.
pub open spec fn is_flat_entry(e: (Seq<char>, Tree)) -> bool {
    is_bare_key(e.0) && (is_plain(e.1) || (e.1 matches Tree::Array(a) && forall|k: int|
        0 <= k < a.len() ==> is_plain(#[trigger] a[k])))
}

/// A value with the entries of each table put in order, the last of equal names
/// kept.
pub open spec fn canonical(t: Tree) -> Tree
    decreases t,
{
    match t {
        Tree::Array(a) => Tree::Array(canonical_items(a)),
        Tree::Table(e) => Tree::Table(table::put_all(canonical_entries(e))),
        _ => t,
    }
}

/// The items of an array, each put in order.
pub open spec fn canonical_items(a: Seq<Tree>) -> Seq<Tree>
    decreases a,
{
    if a.len() == 0 {
        seq![]
    } else {
        canonical_items(a.drop_last()).push(canonical(a.last()))
    }
}

/// The entries of a table, the value of each put in order.
pub open spec fn canonical_entries(e: Seq<(Seq<char>, Tree)>) -> Seq<(Seq<char>, Tree)>
    decreases e,
{
    if e.len() == 0 {
        seq![]
    } else {
        canonical_entries(e.drop_last()).push((e.last().0, canonical(e.last().1)))
    }
}

proof fn lemma_canonical_items(a: Seq<Tree>)
    ensures
        canonical_items(a).len() == a.len(),
        forall|i: int| 0 <= i < a.len() ==> #[trigger] canonical_items(a)[i] == canonical(a[i]),
    decreases a.len(),
{
    if a.len() > 0 {
        lemma_canonical_items(a.drop_last());
        assert forall|i: int| 0 <= i < a.len() implies #[trigger] canonical_items(a)[i] == canonical(a[i]) by {
            if i < a.len() - 1 {
                assert(canonical_items(a.drop_last())[i] == canonical(a.drop_last()[i]));
            }
        }
    }
}

proof fn lemma_canonical_entries(e: Seq<(Seq<char>, Tree)>)
    ensures
        canonical_entries(e).len() == e.len(),
        forall|i: int|
            0 <= i < e.len() ==> #[trigger] canonical_entries(e)[i] == (e[i].0, canonical(e[i].1)),
    decreases e.len(),
{
    if e.len() > 0 {
        lemma_canonical_entries(e.drop_last());
        assert forall|i: int| 0 <= i < e.len() implies #[trigger] canonical_entries(e)[i] == (
            e[i].0,
            canonical(e[i].1),
        ) by {
            if i < e.len() - 1 {
                let d = e.drop_last();
                assert(canonical_entries(d)[i] == (d[i].0, canonical(d[i].1)));
            }
        }
    }
}

/// A flat table is in order already.
pub proof fn lemma_canonical_flat(t: Tree)
    requires
        is_flat_table(t),
    ensures
        canonical(t) == t,
{
    let e = t->Table_0;
    lemma_canonical_entries(e);
    assert forall|i: int| 0 <= i < e.len() implies canonical_entries(e)[i] == e[i] by {
        assert(is_flat_entry(e[i]));
        if let Tree::Array(a) = e[i].1 {
            lemma_canonical_items(a);
            assert forall|k: int| 0 <= k < a.len() implies canonical_items(a)[k] == a[k] by {
                assert(is_plain(a[k]));
            }
            assert(canonical_items(a) =~= a);
        }
    }
    assert(canonical_entries(e) =~= e);
    table::lemma_put_all_sorted(e);
}

/// Putting a value in order changes none of its texts.
proof fn lemma_canonical_quotes(t: Tree)
    requires
        quotes_countable(t),
    ensures
        quotes_countable(canonical(t)),
    decreases t, 0int,
{
    match t {
        Tree::Array(a) => {
            lemma_canonical_items(a);
            assert forall|i: int| 0 <= i < a.len() implies quotes_countable(#[trigger] canonical_items(a)[i]) by {
                assert(decreases_to!(t => a[i]));
                lemma_canonical_quotes(a[i]);
            }
        },
        Tree::Table(e) => {
            lemma_canonical_entries(e);
            let c = canonical_entries(e);
            assert forall|i: int| 0 <= i < c.len() implies quotes_countable((#[trigger] c[i]).1) by {
                assert(decreases_to!(t => e[i].1));
                lemma_canonical_quotes(e[i].1);
            }
            lemma_put_all_quotes(c);
        },
        _ => {},
    }
}

proof fn lemma_put_all_quotes(e: Seq<(Seq<char>, Tree)>)
    requires
        forall|i: int| 0 <= i < e.len() ==> quotes_countable((#[trigger] e[i]).1),
    ensures
        forall|i: int| 0 <= i < table::put_all(e).len() ==> quotes_countable((#[trigger] table::put_all(e)[i]).1),
    decreases e.len(),
{
    if e.len() > 0 {
        let front = e.drop_last();
        assert forall|i: int| 0 <= i < front.len() implies quotes_countable((#[trigger] front[i]).1) by {
            assert(front[i] == e[i]);
        }
        lemma_put_all_quotes(front);
        let p = |x: (Seq<char>, Tree)| quotes_countable(x.1);
        let done = table::put_all(front);
        assert forall|i: int| 0 <= i < done.len() implies p(#[trigger] done[i]) by {
            assert(quotes_countable(done[i].1));
        }
        assert(quotes_countable(e[e.len() - 1].1));
        table::lemma_put_holds(done, e.last().0, e.last().1, p);
        assert forall|i: int| 0 <= i < table::put_all(e).len() implies quotes_countable(
            (#[trigger] table::put_all(e)[i]).1,
        ) by {
            assert(p(table::put_all(e)[i]));
        }
    }
}

/// Whether a text holds no run of `quote` that is too long to be counted.
fn runs_fit(s: &str, quote: char) -> (r: bool)
    ensures
        r == runs_countable(s@, quote),
{
    let c = text::chars_of(s);
    let mut run: usize = 0;
    let mut i: usize = 0;
    while i < c.len()
        invariant
            c@ == s@,
            run <= i <= c.len(),
            run <= LONGEST_QUOTE_RUN,
            forall|j: int| i - run <= j < i ==> s@[j] == quote,
            run < i ==> s@[i - run - 1] != quote,
            forall|k: int| 0 <= k && k + LONGEST_QUOTE_RUN < i ==> #[trigger] run_ends(s@, quote, k),
        decreases c.len() - i,
    {
        if c[i] == quote {
            if run == LONGEST_QUOTE_RUN {
                assert(!run_ends(s@, quote, i - LONGEST_QUOTE_RUN));
                return false;
            }
            run += 1;
            proof {
                let k = i - LONGEST_QUOTE_RUN;
                if k >= 0 {
                    assert(s@[i - run] != quote);
                    assert(run_ends(s@, quote, k));
                }
            }
        } else {
            run = 0;
            proof {
                let k = i - LONGEST_QUOTE_RUN;
                if k >= 0 {
                    assert(s@[i as int] != quote);
                    assert(run_ends(s@, quote, k));
                }
            }
        }
        i += 1;
    }
    true
}

/// Whether every text in a value can be written.
pub fn quotes_fit(v: &TomlValue) -> (r: bool)
    ensures
        r == quotes_countable(v@),
    decreases v,
{
    proof {
        toml_value::lemma_view(*v);
    }
    match v {
        TomlValue::String(s) => runs_fit(s.as_str(), '\'') && runs_fit(s.as_str(), '"'),
        TomlValue::Array(a) => {
            let mut i: usize = 0;
            while i < a.len()
                invariant
                    i <= a.len(),
                    *v == TomlValue::Array(*a),
                    v@ == Tree::Array(toml_value::trees(a@)),
                    forall|k: int| 0 <= k < i ==> quotes_countable(#[trigger] toml_value::trees(a@)[k]),
                decreases a.len() - i,
            {
                assert(decreases_to!(v => v->Array_0@[i as int]));
                assert(toml_value::trees(a@)[i as int] == a@[i as int]@);
                if !quotes_fit(&a[i]) {
                    assert(!quotes_countable(v@->Array_0[i as int]));
                    return false;
                }
                i += 1;
            }
            true
        },
        TomlValue::Table(t) => {
            let ghost e = toml_value::named_trees(t.model());
            let mut i: usize = 0;
            while i < t.entries.len()
                invariant
                    i <= t.entries.len(),
                    *v == TomlValue::Table(*t),
                    e == toml_value::named_trees(t.model()),
                    v@ == Tree::Table(e),
                    forall|k: int| 0 <= k < i ==> quotes_countable((#[trigger] e[k]).1),
                decreases t.entries.len() - i,
            {
                assert(decreases_to!(v => v->Table_0.entries@[i as int].1));
                assert(e[i as int].1 == t.entries@[i as int].1@);
                if !quotes_fit(&t.entries[i].1) {
                    assert(!quotes_countable(v@->Table_0[i as int].1));
                    return false;
                }
                i += 1;
            }
            true
        },
        _ => true,
    }
}

/// Turns a `toml::Value` into the library's own.
fn import(v: toml::Value) -> (r: TomlValue)
    ensures
        r@ == toml_tree(v),
    decreases toml_tree(v),
{
    let ghost tree = toml_tree(v);
    match take_apart(v) {
        Level::String(s) => TomlValue::String(s),
        Level::Integer(i) => TomlValue::Integer(i),
        Level::Boolean(b) => TomlValue::Boolean(b),
        Level::Array(a) => {
            let ghost all = a@;
            let mut out: Vec<TomlValue> = Vec::new();
            for x in it: a
                invariant
                    it.seq() == all,
                    tree == Tree::Array(outside_trees(all)),
                    tree == toml_tree(v),
                    out@.len() == it.index(),
                    forall|k: int| 0 <= k < it.index() ==> (#[trigger] out@[k])@ == toml_tree(all[k]),
            {
                proof {
                    assert(outside_trees(all)[it.index()] == toml_tree(x));
                    assert(decreases_to!(tree => tree->Array_0[it.index()]));
                }
                out.push(import(x));
            }
            let r = TomlValue::Array(out);
            proof {
                toml_value::lemma_view(r);
                assert(r@->Array_0 =~= outside_trees(all));
            }
            r
        },
        Level::Table(t) => {
            let ghost all = t@;
            let mut out: Vec<(String, TomlValue)> = Vec::new();
            for x in it: t
                invariant
                    it.seq() == all,
                    tree == Tree::Table(outside_named_trees(all)),
                    tree == toml_tree(v),
                    out@.len() == it.index(),
                    forall|k: int|
                        0 <= k < it.index() ==> (#[trigger] out@[k]).0@ == all[k].0@ && out@[k].1@ == toml_tree(
                            all[k].1,
                        ),
            {
                proof {
                    assert(outside_named_trees(all)[it.index()] == (x.0@, toml_tree(x.1)));
                    assert(decreases_to!(tree => tree->Table_0[it.index()].1));
                }
                let (name, y) = x;
                let y = import(y);
                out.push((name, y));
            }
            let r = TomlValue::Table(Table { entries: out });
            proof {
                toml_value::lemma_view(r);
                assert(r@->Table_0 =~= outside_named_trees(all));
            }
            r
        },
        Level::Other(v) => TomlValue::Other(Scalar { v }),
    }
}

/// Turns a value of the library into a `toml::Value`.
fn export(v: &TomlValue) -> (r: toml::Value)
    ensures
        toml_tree(r) == canonical(v@),
    decreases v,
{
    proof {
        toml_value::lemma_view(*v);
    }
    match v {
        TomlValue::String(s) => put_together(Level::String(s.clone())),
        TomlValue::Integer(i) => put_together(Level::Integer(*i)),
        TomlValue::Boolean(b) => put_together(Level::Boolean(*b)),
        TomlValue::Array(a) => {
            let mut out: Vec<toml::Value> = Vec::new();
            let mut i: usize = 0;
            while i < a.len()
                invariant
                    i <= a.len(),
                    *v == TomlValue::Array(*a),
                    out@.len() == i,
                    forall|k: int| 0 <= k < i ==> toml_tree(#[trigger] out@[k]) == canonical(a@[k]@),
                decreases a.len() - i,
            {
                assert(decreases_to!(v => v->Array_0@[i as int]));
                out.push(export(&a[i]));
                i += 1;
            }
            proof {
                lemma_canonical_items(v@->Array_0);
                assert(outside_trees(out@) =~= canonical_items(v@->Array_0));
            }
            put_together(Level::Array(out))
        },
        TomlValue::Table(t) => {
            let mut out: Vec<(String, toml::Value)> = Vec::new();
            let mut i: usize = 0;
            while i < t.entries.len()
                invariant
                    i <= t.entries.len(),
                    *v == TomlValue::Table(*t),
                    out@.len() == i,
                    forall|k: int|
                        0 <= k < i ==> (#[trigger] out@[k]).0@ == t.entries@[k].0@ && toml_tree(out@[k].1) == canonical(
                            t.entries@[k].1@,
                        ),
                decreases t.entries.len() - i,
            {
                assert(decreases_to!(v => v->Table_0.entries@[i as int].1));
                let name = t.entries[i].0.clone();
                out.push((name, export(&t.entries[i].1)));
                i += 1;
            }
            proof {
                lemma_canonical_entries(v@->Table_0);
                assert(outside_named_trees(out@) =~= canonical_entries(v@->Table_0));
            }
            put_together(Level::Table(out))
        },
        TomlValue::Other(s) => {
            proof {
                use_type_invariant(s);
            }
            put_together(Level::Other(s.v.clone()))
        },
    }
}

/// Reads a document.
pub fn parse(text: &str) -> (r: Result<TomlValue, String>)
    ensures
        match r {
            Ok(v) => toml_parsed(text@) == Ok::<Tree, Seq<char>>(v@),
            Err(e) => toml_parsed(text@) == Err::<Tree, Seq<char>>(e@),
        },
{
    match from_str(text) {
        Ok(v) => Ok(import(v)),
        Err(e) => Err(e),
    }
}

/// Writes a document. A flat table is always written, and reads back as itself.
pub fn write(v: &TomlValue) -> (r: Result<String, String>)
    requires
        quotes_countable(v@),
    ensures
        text_outcome(r) == toml_written(canonical(v@)),
        is_flat_table(v@) ==> r is Ok && read_back(r->Ok_0@) == Some(v@),
{
    proof {
        if is_flat_table(v@) {
            lemma_canonical_flat(v@);
        }
        lemma_canonical_quotes(v@);
    }
    to_string_pretty(&export(v))
}

/// What is written of a value is the value itself, with the entries of each table in order:
/// each plain value and each item of an array in its place, and each entry of a table under
/// its name, none left out and none added.
pub proof fn law_written_values(t: Tree, i: int, key: Seq<char>)
    ensures
        !(t is Array) && !(t is Table) ==> canonical(t) == t,
        t matches Tree::Array(a) ==> (canonical(t) matches Tree::Array(c) && c.len() == a.len() && (0 <= i < a.len()
            ==> c[i] == canonical(a[i]))),
        t matches Tree::Table(e) ==> table::sorted(e) ==> (canonical(t) matches Tree::Table(c) && c.len() == e.len()
            && (0 <= i < e.len() ==> c[i] == (e[i].0, canonical(e[i].1)))),
        t matches Tree::Table(e) ==> (canonical(t) matches Tree::Table(c) && table::sorted(c)),
{
    match t {
        Tree::Array(a) => {
            lemma_canonical_items(a);
            if 0 <= i < a.len() {
                assert(canonical_items(a)[i] == canonical(a[i]));
            }
        },
        Tree::Table(e) => {
            lemma_canonical_entries(e);
            let c = canonical_entries(e);
            if table::sorted(e) {
                assert forall|i: int, j: int|
                    #![trigger c[i], c[j]]
                    0 <= i < j < c.len() implies text::text_lt(c[i].0, c[j].0) by {
                    assert(c[i].0 == e[i].0 && c[j].0 == e[j].0);
                }
                table::lemma_put_all_sorted(c);
            }
            table::law_put_all_is_in_order(c);
        },
        _ => {},
    }
}

/// Of the entries of a table, each comes out under its name as it was put in last.
pub proof fn law_written_entries(e: Seq<(Seq<char>, Tree)>, name: Seq<char>, v: Tree, key: Seq<char>)
    ensures
        ({
            let now = canonical(Tree::Table(e.push((name, v))))->Table_0;
            let before = canonical(Tree::Table(e))->Table_0;
            table::lookup(now, key) == (if key == name {
                Some(canonical(v))
            } else {
                table::lookup(before, key)
            })
        }),
{
    let all = e.push((name, v));
    assert(all.drop_last() =~= e);
    let c = canonical_entries(all);
    assert(c.drop_last() =~= canonical_entries(e));
    table::law_lookup_after_put(table::put_all(canonical_entries(e)), name, canonical(v), key);
}

/// A document that reads as a value reads back as that value.
pub proof fn law_reading_back(text: Seq<char>)
    ensures
        toml_parsed(text) matches Ok(tree) ==> read_back(text) == Some(tree),
        toml_parsed(text) is Err ==> read_back(text) is None,
{
}

/// A table is flat as soon as its entries are in order, each name is of letters, digits,
/// underscores and hyphens, at least one, and each value is a text, an integer, a truth value
/// or an array of these.
pub proof fn law_flat_tables(e: Seq<(Seq<char>, Tree)>)
    requires
        table::sorted(e),
        forall|i: int|
            0 <= i < e.len() ==> (#[trigger] e[i]).0.len() > 0 && (forall|k: int|
                0 <= k < e[i].0.len() ==> ('a' <= #[trigger] e[i].0[k] <= 'z' || 'A' <= e[i].0[k] <= 'Z' || '0'
                    <= e[i].0[k] <= '9' || e[i].0[k] == '_' || e[i].0[k] == '-')),
        forall|i: int|
            0 <= i < e.len() ==> match (#[trigger] e[i]).1 {
                Tree::String(_) | Tree::Integer(_) | Tree::Boolean(_) => true,
                Tree::Array(a) => forall|k: int|
                    0 <= k < a.len() ==> #[trigger] a[k] is String || a[k] is Integer || a[k] is Boolean,
                _ => false,
            },
    ensures
        is_flat_table(Tree::Table(e)),
{
    assert forall|i: int| 0 <= i < e.len() implies is_flat_entry(#[trigger] e[i]) by {
        assert(is_bare_key(e[i].0));
    }
}

/// An outcome and its model say the same.
pub proof fn law_model_of_an_outcome(s: String)
    ensures
        text_outcome(Ok(s)) == Ok::<Seq<char>, Seq<char>>(s@),
        text_outcome(Err(s)) == Err::<Seq<char>, Seq<char>>(s@),
{
}

/// Whether 256 quotes of one kind come in a row in a text, from `i` on.
pub open spec fn is_long_run(s: Seq<char>, quote: char, i: int) -> bool {
    0 <= i && i + 256 <= s.len() && forall|j: int| i <= j < i + 256 ==> #[trigger] s[j] == quote
}

/// A text cannot be written if and only if 256 quotes of one kind come in a row in it. An
/// array or a table can be written if and only if all in it can, and anything else can.
pub proof fn law_what_can_be_written(t: Tree)
    ensures
        t matches Tree::String(s) ==> (quotes_countable(t) <==> forall|i: int|
            !(#[trigger] is_long_run(s, '\'', i)) && !is_long_run(s, '"', i)),
        t matches Tree::Array(a) ==> (quotes_countable(t) <==> forall|i: int|
            0 <= i < a.len() ==> quotes_countable(#[trigger] a[i])),
        t matches Tree::Table(e) ==> (quotes_countable(t) <==> forall|i: int|
            0 <= i < e.len() ==> quotes_countable((#[trigger] e[i]).1)),
        !(t is String) && !(t is Array) && !(t is Table) ==> quotes_countable(t),
{
    if let Tree::String(s) = t {
        lemma_long_runs(s, '\'');
        lemma_long_runs(s, '"');
        if forall|i: int| !(#[trigger] is_long_run(s, '\'', i)) && !is_long_run(s, '"', i) {
            assert forall|i: int| !(#[trigger] is_long_run(s, '"', i)) by {
                assert(!is_long_run(s, '\'', i));
            }
        }
    }
}

proof fn lemma_long_runs(s: Seq<char>, quote: char)
    ensures
        runs_countable(s, quote) <==> forall|i: int| !(#[trigger] is_long_run(s, quote, i)),
{
    if runs_countable(s, quote) {
        assert forall|i: int| !(#[trigger] is_long_run(s, quote, i)) by {
            if is_long_run(s, quote, i) {
                assert(run_ends(s, quote, i));
                let j = choose|j: int| i <= j <= i + LONGEST_QUOTE_RUN && #[trigger] s[j] != quote;
                assert(s[j] != quote);
            }
        }
    }
    if forall|i: int| !(#[trigger] is_long_run(s, quote, i)) {
        assert forall|i: int| 0 <= i < s.len() - LONGEST_QUOTE_RUN implies #[trigger] run_ends(s, quote, i) by {
            assert(!is_long_run(s, quote, i));
            let j = choose|j: int| i <= j < i + 256 && #[trigger] s[j] != quote;
            assert(s[j] != quote);
        }
    }
}

}
