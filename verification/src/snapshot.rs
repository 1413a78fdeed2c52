//! Snapshots of the machine: the manifest, and numbers in saved state.
//!
//! A snapshot is a directory. Its manifest, `snapshot.toml`, is written first and
//! read first; the state of each device stands in a file of its own.
use crate::bits;
use crate::clock;
use crate::path;
use crate::table;
use crate::table::Table;
use crate::text;
use crate::toml_text;
use crate::toml_value;
use crate::toml_value::{TomlValue, Tree};
use vstd::prelude::*;

verus! {

/// The version of the layout that is written. A snapshot without a manifest has
/// version 0.
pub const SCHEMA_VERSION: u32 = 2;

/// What a snapshot says of itself.
#[derive(Clone, Debug)]
pub struct Manifest {
    pub schema_version: u32,
    pub iris_git_rev: Option<String>,
    pub host_arch: String,
    pub created_at_unix: u64,
    pub parent: Option<String>,
    pub description: Option<String>,
    pub installed_bundles: Vec<String>,
}

/// What a manifest holds.
pub struct ManifestModel {
    pub schema_version: int,
    pub iris_git_rev: Option<Seq<char>>,
    pub host_arch: Seq<char>,
    pub created_at_unix: int,
    pub parent: Option<Seq<char>>,
    pub description: Option<Seq<char>>,
    pub installed_bundles: Seq<Seq<char>>,
}

/// The text of a string that may be there.
pub open spec fn opt_text(s: Option<String>) -> Option<Seq<char>> {
    match s {
        Some(t) => Some(t@),
        None => None,
    }
}

impl View for Manifest {
    type V = ManifestModel;

    open spec fn view(&self) -> ManifestModel {
        ManifestModel {
            schema_version: self.schema_version as int,
            iris_git_rev: opt_text(self.iris_git_rev),
            host_arch: self.host_arch@,
            created_at_unix: self.created_at_unix as int,
            parent: opt_text(self.parent),
            description: opt_text(self.description),
            installed_bundles: text::texts(self.installed_bundles@),
        }
    }
}

impl ManifestModel {
    /// The numbers lie in their ranges.
    pub open spec fn well_formed(self) -> bool {
        0 <= self.schema_version <= u32::MAX && 0 <= self.created_at_unix <= u64::MAX
    }

    /// What stands in the document under a name.
    pub open spec fn field(self, key: Seq<char>) -> Option<Tree> {
        if key == "schema_version"@ {
            Some(Tree::Integer(self.schema_version))
        } else if key == "host_arch"@ {
            Some(Tree::String(self.host_arch))
        } else if key == "created_at_unix"@ {
            Some(Tree::Integer(bits::as_signed(self.created_at_unix)))
        } else if key == "installed_bundles"@ {
            Some(Tree::Array(strings(self.installed_bundles)))
        } else if key == "iris_git_rev"@ {
            opt_string(self.iris_git_rev)
        } else if key == "parent"@ {
            opt_string(self.parent)
        } else if key == "description"@ {
            opt_string(self.description)
        } else {
            None
        }
    }
}

/// A text as a value, where there is one.
pub open spec fn opt_string(s: Option<Seq<char>>) -> Option<Tree> {
    match s {
        Some(t) => Some(Tree::String(t)),
        None => None,
    }
}

/// Texts as values.
pub open spec fn strings(s: Seq<Seq<char>>) -> Seq<Tree> {
    Seq::new(s.len(), |i: int| Tree::String(s[i]))
}

/// Puts a text in, where there is one.
pub open spec fn put_opt(e: Seq<(Seq<char>, Tree)>, key: Seq<char>, s: Option<Seq<char>>) -> Seq<(Seq<char>, Tree)> {
    match s {
        Some(t) => table::put(e, key, Tree::String(t)),
        None => e,
    }
}

/// The entries of a manifest's document, put in one after the other.
pub open spec fn manifest_entries(m: ManifestModel) -> Seq<(Seq<char>, Tree)> {
    let e = table::put(seq![], "schema_version"@, Tree::Integer(m.schema_version));
    let e = put_opt(e, "iris_git_rev"@, m.iris_git_rev);
    let e = table::put(e, "host_arch"@, Tree::String(m.host_arch));
    let e = table::put(e, "created_at_unix"@, Tree::Integer(bits::as_signed(m.created_at_unix)));
    let e = put_opt(e, "parent"@, m.parent);
    let e = put_opt(e, "description"@, m.description);
    table::put(e, "installed_bundles"@, Tree::Array(strings(m.installed_bundles)))
}

/// The document of a manifest.
pub open spec fn manifest_tree(m: ManifestModel) -> Tree {
    Tree::Table(manifest_entries(m))
}

/// The integer under a name.
pub open spec fn lookup_integer(e: Seq<(Seq<char>, Tree)>, key: Seq<char>) -> Option<int> {
    match table::lookup(e, key) {
        Some(Tree::Integer(i)) => Some(i),
        _ => None,
    }
}

/// The text under a name.
pub open spec fn lookup_string(e: Seq<(Seq<char>, Tree)>, key: Seq<char>) -> Option<Seq<char>> {
    match table::lookup(e, key) {
        Some(Tree::String(s)) => Some(s),
        _ => None,
    }
}

/// The texts among some values, in their order.
pub open spec fn string_items(a: Seq<Tree>) -> Seq<Seq<char>>
    decreases a.len(),
{
    if a.len() == 0 {
        seq![]
    } else {
        match a.last() {
            Tree::String(s) => string_items(a.drop_last()).push(s),
            _ => string_items(a.drop_last()),
        }
    }
}

/// The texts of the array under a name; none where there is no array.
pub open spec fn lookup_strings(e: Seq<(Seq<char>, Tree)>, key: Seq<char>) -> Seq<Seq<char>> {
    match table::lookup(e, key) {
        Some(Tree::Array(a)) => string_items(a),
        _ => seq![],
    }
}

/// The manifest that a document holds, or what is missing. A number keeps its low
/// bits.
pub open spec fn manifest_of(t: Tree) -> Result<ManifestModel, Seq<char>> {
    match t {
        Tree::Table(e) => match (lookup_integer(e, "schema_version"@), lookup_string(e, "host_arch"@)) {
            (None, _) => Err("manifest: missing schema_version"@),
            (Some(_), None) => Err("manifest: missing host_arch"@),
            (Some(version), Some(arch)) => Ok(
                ManifestModel {
                    schema_version: version % (bits::TWO_TO_32 as int),
                    iris_git_rev: lookup_string(e, "iris_git_rev"@),
                    host_arch: arch,
                    created_at_unix: match lookup_integer(e, "created_at_unix"@) {
                        Some(i) => i % bits::two_to_64(),
                        None => 0,
                    },
                    parent: lookup_string(e, "parent"@),
                    description: lookup_string(e, "description"@),
                    installed_bundles: lookup_strings(e, "installed_bundles"@),
                },
            ),
        },
        _ => Err("manifest: not a table"@),
    }
}

/// Puts a value in a table, and its tree in the table's tree.
fn insert(tbl: &mut Table<TomlValue>, key: &str, value: TomlValue)
    ensures
        toml_value::named_trees(final(tbl).model()) == table::put(
            toml_value::named_trees(old(tbl).model()),
            key@,
            value@,
        ),
{
    proof {
        toml_value::lemma_named_trees_put(tbl.model(), key@, value);
    }
    tbl.insert(key.to_owned(), value);
}

/// Puts a text in a table, where there is one.
fn insert_opt(tbl: &mut Table<TomlValue>, key: &str, s: &Option<String>)
    ensures
        toml_value::named_trees(final(tbl).model()) == put_opt(
            toml_value::named_trees(old(tbl).model()),
            key@,
            opt_text(*s),
        ),
{
    match s {
        Some(t) => {
            insert(tbl, key, TomlValue::String(t.clone()));
        },
        None => {},
    }
}

/// The value under a name.
fn lookup<'a>(tbl: &'a Table<TomlValue>, key: &str) -> (r: Option<&'a TomlValue>)
    ensures
        match r {
            Some(v) => table::lookup(toml_value::named_trees(tbl.model()), key@) == Some(v@),
            None => table::lookup(toml_value::named_trees(tbl.model()), key@) is None,
        },
{
    proof {
        toml_value::lemma_named_trees_lookup(tbl.model(), key@);
    }
    tbl.get(key)
}

/// The integer under a name.
fn integer(tbl: &Table<TomlValue>, key: &str) -> (r: Option<i64>)
    ensures
        match r {
            Some(i) => lookup_integer(toml_value::named_trees(tbl.model()), key@) == Some(i as int),
            None => lookup_integer(toml_value::named_trees(tbl.model()), key@) is None,
        },
{
    match lookup(tbl, key) {
        Some(v) => v.as_integer(),
        None => None,
    }
}

/// The text under a name.
fn string(tbl: &Table<TomlValue>, key: &str) -> (r: Option<String>)
    ensures
        opt_text(r) == lookup_string(toml_value::named_trees(tbl.model()), key@),
{
    match lookup(tbl, key) {
        Some(v) => match v.as_str() {
            Some(s) => Some(s.to_owned()),
            None => None,
        },
        None => None,
    }
}

/// The texts of the array under a name.
fn string_array(tbl: &Table<TomlValue>, key: &str) -> (r: Vec<String>)
    ensures
        text::texts(r@) == lookup_strings(toml_value::named_trees(tbl.model()), key@),
{
    let mut r: Vec<String> = Vec::new();
    assert(text::texts(r@) =~= seq![]);
    let a: &Vec<TomlValue> = match lookup(tbl, key) {
        Some(v) => match v.as_array() {
            Some(a) => a,
            None => {
                return r;
            },
        },
        None => {
            return r;
        },
    };
    let ghost all = toml_value::trees(a@);
    let mut i: usize = 0;
    assert(all.take(0) =~= seq![]);
    while i < a.len()
        invariant
            i <= a.len(),
            all == toml_value::trees(a@),
            text::texts(r@) == string_items(all.take(i as int)),
        decreases a.len() - i,
    {
        proof {
            assert(all.take(i + 1).drop_last() =~= all.take(i as int));
            assert(all.take(i + 1).last() == a@[i as int]@);
        }
        let ghost had = text::texts(r@);
        match a[i].as_str() {
            Some(s) => {
                r.push(s.to_owned());
                assert(text::texts(r@) =~= had.push(s@));
            },
            None => {},
        }
        i += 1;
    }
    assert(all.take(i as int) =~= all);
    r
}

/// Texts as values.
fn string_values(items: &Vec<String>) -> (r: Vec<TomlValue>)
    ensures
        toml_value::trees(r@) == strings(text::texts(items@)),
{
    let mut r: Vec<TomlValue> = Vec::new();
    let mut i: usize = 0;
    while i < items.len()
        invariant
            i <= items.len(),
            r@.len() == i,
            forall|k: int| 0 <= k < i ==> (#[trigger] r@[k])@ == Tree::String(items@[k]@),
        decreases items.len() - i,
    {
        r.push(TomlValue::String(items[i].clone()));
        i += 1;
    }
    assert(toml_value::trees(r@) =~= strings(text::texts(items@)));
    r
}

impl Manifest {
    /// A manifest for this build and host at a given time, without a parent or a
    /// description.
    pub fn for_save_at(git_rev: Option<String>, host_arch: &str, created_at_unix: u64) -> (r: Self)
        ensures
            r@ == (ManifestModel {
                schema_version: SCHEMA_VERSION as int,
                iris_git_rev: opt_text(git_rev),
                host_arch: host_arch@,
                created_at_unix: created_at_unix as int,
                parent: None,
                description: None,
                installed_bundles: seq![],
            }),
    {
        let r = Manifest {
            schema_version: SCHEMA_VERSION,
            iris_git_rev: git_rev,
            host_arch: host_arch.to_owned(),
            created_at_unix,
            parent: None,
            description: None,
            installed_bundles: Vec::new(),
        };
        assert(r@.installed_bundles =~= seq![]);
        r
    }

    /// A manifest for this build and host, created now.
    pub fn for_current_save(git_rev: Option<String>, host_arch: &str) -> (r: Self)
        ensures
            r.schema_version == SCHEMA_VERSION,
            r.iris_git_rev == git_rev,
            r.host_arch@ == host_arch@,
            r.parent is None,
            r.description is None,
            r.installed_bundles@.len() == 0,
    {
        let now: u64 = clock::unix_secs();
        Manifest {
            schema_version: SCHEMA_VERSION,
            iris_git_rev: git_rev,
            host_arch: host_arch.to_owned(),
            created_at_unix: now,
            parent: None,
            description: None,
            installed_bundles: Vec::new(),
        }
    }

    /// The document of the manifest.
    pub fn to_toml(&self) -> (r: TomlValue)
        ensures
            r@ == manifest_tree(self@),
    {
        let mut tbl: Table<TomlValue> = Table::new();
        assert(toml_value::named_trees(tbl.model()) =~= seq![]);
        insert(&mut tbl, "schema_version", TomlValue::Integer(self.schema_version as i64));
        insert_opt(&mut tbl, "iris_git_rev", &self.iris_git_rev);
        insert(&mut tbl, "host_arch", TomlValue::String(self.host_arch.clone()));
        insert(&mut tbl, "created_at_unix", TomlValue::Integer(bits::signed(self.created_at_unix)));
        insert_opt(&mut tbl, "parent", &self.parent);
        insert_opt(&mut tbl, "description", &self.description);
        let bundles = TomlValue::Array(string_values(&self.installed_bundles));
        proof {
            toml_value::lemma_view(bundles);
        }
        insert(&mut tbl, "installed_bundles", bundles);
        let r = TomlValue::Table(tbl);
        proof {
            toml_value::lemma_view(r);
        }
        r
    }

    /// The manifest that a document holds. The version and the architecture have to
    /// be there.
    pub fn from_toml(v: &TomlValue) -> (r: Result<Self, String>)
        ensures
            match r {
                Ok(m) => manifest_of(v@) == Ok::<ManifestModel, Seq<char>>(m@),
                Err(e) => manifest_of(v@) == Err::<ManifestModel, Seq<char>>(e@),
            },
    {
        let tbl: &Table<TomlValue> = match v.as_table() {
            Some(t) => t,
            None => {
                return Err("manifest: not a table".to_owned());
            },
        };
        let version: i64 = match integer(tbl, "schema_version") {
            Some(i) => i,
            None => {
                return Err("manifest: missing schema_version".to_owned());
            },
        };
        let host_arch: String = match string(tbl, "host_arch") {
            Some(s) => s,
            None => {
                return Err("manifest: missing host_arch".to_owned());
            },
        };
        let created_at_unix: u64 = match integer(tbl, "created_at_unix") {
            Some(i) => bits::unsigned(i),
            None => 0,
        };
        let low: u64 = bits::unsigned(version) % bits::TWO_TO_32;
        proof {
            lemma_low_bits(version as int, bits::TWO_TO_32 as int);
        }
        Ok(
            Manifest {
                schema_version: low as u32,
                iris_git_rev: string(tbl, "iris_git_rev"),
                host_arch,
                created_at_unix,
                parent: string(tbl, "parent"),
                description: string(tbl, "description"),
                installed_bundles: string_array(tbl, "installed_bundles"),
            },
        )
    }
}

/// The low bits of a number are those of its low 64 bits.
proof fn lemma_low_bits(i: int, m: int)
    requires
        m == bits::TWO_TO_32 || m == bits::TWO_TO_16 || m == bits::TWO_TO_8,
    ensures
        (i % bits::two_to_64()) % m == i % m,
{
    if m == bits::TWO_TO_32 {
        assert((i % 0x1_0000_0000_0000_0000) % 0x1_0000_0000 == i % 0x1_0000_0000);
    } else if m == bits::TWO_TO_16 {
        assert((i % 0x1_0000_0000_0000_0000) % 0x1_0000 == i % 0x1_0000);
    } else {
        assert((i % 0x1_0000_0000_0000_0000) % 0x100 == i % 0x100);
    }
}


proof fn lemma_keys_differ()
    ensures
        "schema_version"@.len() == 14,
        "host_arch"@.len() == 9,
        "created_at_unix"@.len() == 15,
        "installed_bundles"@.len() == 17,
        "iris_git_rev"@.len() == 12,
        "parent"@.len() == 6,
        "description"@.len() == 11,
{
    reveal_strlit("schema_version");
    reveal_strlit("host_arch");
    reveal_strlit("created_at_unix");
    reveal_strlit("installed_bundles");
    reveal_strlit("iris_git_rev");
    reveal_strlit("parent");
    reveal_strlit("description");
}

proof fn lemma_lookup_put_opt(e: Seq<(Seq<char>, Tree)>, key: Seq<char>, s: Option<Seq<char>>, other: Seq<char>)
    ensures
        table::lookup(put_opt(e, key, s), other) == (if other == key && s is Some {
            Some(Tree::String(s->0))
        } else {
            table::lookup(e, other)
        }),
{
    if let Some(t) = s {
        table::law_lookup_after_put(e, key, Tree::String(t), other);
    }
}

/// The document of a manifest holds each field under its name, and nothing else.
pub proof fn law_manifest_fields(m: ManifestModel, key: Seq<char>)
    ensures
        table::lookup(manifest_entries(m), key) == m.field(key),
{
    lemma_keys_differ();
    let e0 = Seq::<(Seq<char>, Tree)>::empty();
    let e1 = table::put(e0, "schema_version"@, Tree::Integer(m.schema_version));
    let e2 = put_opt(e1, "iris_git_rev"@, m.iris_git_rev);
    let e3 = table::put(e2, "host_arch"@, Tree::String(m.host_arch));
    let e4 = table::put(e3, "created_at_unix"@, Tree::Integer(bits::as_signed(m.created_at_unix)));
    let e5 = put_opt(e4, "parent"@, m.parent);
    let e6 = put_opt(e5, "description"@, m.description);
    let bundles = Tree::Array(strings(m.installed_bundles));
    table::law_lookup_after_put(e0, "schema_version"@, Tree::Integer(m.schema_version), key);
    lemma_lookup_put_opt(e1, "iris_git_rev"@, m.iris_git_rev, key);
    table::law_lookup_after_put(e2, "host_arch"@, Tree::String(m.host_arch), key);
    table::law_lookup_after_put(
        e3,
        "created_at_unix"@,
        Tree::Integer(bits::as_signed(m.created_at_unix)),
        key,
    );
    lemma_lookup_put_opt(e4, "parent"@, m.parent, key);
    lemma_lookup_put_opt(e5, "description"@, m.description, key);
    table::law_lookup_after_put(e6, "installed_bundles"@, bundles, key);
    assert(table::lookup(e0, key) is None);
}

proof fn lemma_string_items(s: Seq<Seq<char>>)
    ensures
        string_items(strings(s)) == s,
    decreases s.len(),
{
    let t = strings(s);
    if s.len() > 0 {
        lemma_string_items(s.drop_last());
        assert(t.drop_last() =~= strings(s.drop_last()));
        assert(s.drop_last().push(s.last()) =~= s);
    } else {
        assert(s =~= seq![]);
    }
}

/// The document of a manifest reads as that manifest.
pub proof fn law_manifest_round_trip(m: ManifestModel)
    requires
        m.well_formed(),
    ensures
        manifest_of(manifest_tree(m)) == Ok::<ManifestModel, Seq<char>>(m),
{
    lemma_keys_differ();
    law_manifest_fields(m, "schema_version"@);
    law_manifest_fields(m, "host_arch"@);
    law_manifest_fields(m, "created_at_unix"@);
    law_manifest_fields(m, "installed_bundles"@);
    law_manifest_fields(m, "iris_git_rev"@);
    law_manifest_fields(m, "parent"@);
    law_manifest_fields(m, "description"@);
    lemma_string_items(m.installed_bundles);
    bits::lemma_signed_and_back(m.created_at_unix);
}

proof fn lemma_put_flat(e: Seq<(Seq<char>, Tree)>, key: Seq<char>, value: Tree)
    requires
        table::sorted(e),
        forall|i: int| 0 <= i < e.len() ==> toml_text::is_flat_entry(#[trigger] e[i]),
        toml_text::is_flat_entry((key, value)),
    ensures
        table::sorted(table::put(e, key, value)),
        forall|i: int| 0 <= i < table::put(e, key, value).len() ==> toml_text::is_flat_entry(#[trigger] table::put(e, key, value)[i]),
{
    table::law_put_keeps_order(e, key, value);
    table::lemma_put_holds(e, key, value, |x: (Seq<char>, Tree)| toml_text::is_flat_entry(x));
    let p = |x: (Seq<char>, Tree)| toml_text::is_flat_entry(x);
    assert forall|i: int| 0 <= i < table::put(e, key, value).len() implies toml_text::is_flat_entry(
        #[trigger] table::put(e, key, value)[i],
    ) by {
        assert(p(table::put(e, key, value)[i]));
    }
}

proof fn lemma_put_opt_flat(e: Seq<(Seq<char>, Tree)>, key: Seq<char>, s: Option<Seq<char>>)
    requires
        table::sorted(e),
        forall|i: int| 0 <= i < e.len() ==> toml_text::is_flat_entry(#[trigger] e[i]),
        toml_text::is_bare_key(key),
    ensures
        table::sorted(put_opt(e, key, s)),
        forall|i: int| 0 <= i < put_opt(e, key, s).len() ==> toml_text::is_flat_entry(#[trigger] put_opt(e, key, s)[i]),
{
    if let Some(t) = s {
        lemma_put_flat(e, key, Tree::String(t));
    }
}

proof fn lemma_keys_bare()
    ensures
        toml_text::is_bare_key("schema_version"@),
        toml_text::is_bare_key("host_arch"@),
        toml_text::is_bare_key("created_at_unix"@),
        toml_text::is_bare_key("installed_bundles"@),
        toml_text::is_bare_key("iris_git_rev"@),
        toml_text::is_bare_key("parent"@),
        toml_text::is_bare_key("description"@),
{
    reveal_strlit("schema_version");
    reveal_strlit("host_arch");
    reveal_strlit("created_at_unix");
    reveal_strlit("installed_bundles");
    reveal_strlit("iris_git_rev");
    reveal_strlit("parent");
    reveal_strlit("description");
}

/// The document of a manifest is a flat table.
proof fn lemma_manifest_flat(m: ManifestModel)
    ensures
        toml_text::is_flat_table(manifest_tree(m)),
{
    lemma_keys_bare();
    let e0 = Seq::<(Seq<char>, Tree)>::empty();
    let e1 = table::put(e0, "schema_version"@, Tree::Integer(m.schema_version));
    lemma_put_flat(e0, "schema_version"@, Tree::Integer(m.schema_version));
    let e2 = put_opt(e1, "iris_git_rev"@, m.iris_git_rev);
    lemma_put_opt_flat(e1, "iris_git_rev"@, m.iris_git_rev);
    let e3 = table::put(e2, "host_arch"@, Tree::String(m.host_arch));
    lemma_put_flat(e2, "host_arch"@, Tree::String(m.host_arch));
    let created = Tree::Integer(bits::as_signed(m.created_at_unix));
    let e4 = table::put(e3, "created_at_unix"@, created);
    lemma_put_flat(e3, "created_at_unix"@, created);
    let e5 = put_opt(e4, "parent"@, m.parent);
    lemma_put_opt_flat(e4, "parent"@, m.parent);
    let e6 = put_opt(e5, "description"@, m.description);
    lemma_put_opt_flat(e5, "description"@, m.description);
    let a = strings(m.installed_bundles);
    lemma_put_flat(e6, "installed_bundles"@, Tree::Array(a));
}

/// The directory of a snapshot.
#[derive(Debug)]
pub struct Snapshot {
    pub dir: String,
}

/// A text file to be written.
#[derive(Debug)]
pub struct TextFile {
    pub path: String,
    pub text: String,
}

/// What was found of a text file.
#[derive(Debug)]
pub enum Contents {
    /// There is no such file.
    Absent,
    /// The file is there and could not be read.
    Unreadable(String),
    Text(String),
}

/// The manifest that a file holds, or what is wrong with it. A snapshot without the
/// file has none.
pub open spec fn manifest_in(contents: Contents) -> Result<Option<ManifestModel>, Seq<char>> {
    match contents {
        Contents::Absent => Ok(None),
        Contents::Unreadable(e) => Err(e@),
        Contents::Text(text) => match toml_text::toml_parsed(text@) {
            Err(e) => Err(e),
            Ok(tree) => match manifest_of(tree) {
                Err(e) => Err(e),
                Ok(m) => Ok(Some(m)),
            },
        },
    }
}

/// The outcome of reading a manifest, as a model.
pub open spec fn manifest_outcome(r: Result<Option<Manifest>, String>) -> Result<Option<ManifestModel>, Seq<char>> {
    match r {
        Ok(Some(m)) => Ok(Some(m@)),
        Ok(None) => Ok(None),
        Err(e) => Err(e@),
    }
}

impl Snapshot {
    /// The snapshot in a directory.
    pub fn new(dir: String) -> (r: Self)
        ensures
            r.dir@ == dir@,
    {
        Snapshot { dir }
    }

    /// The path of a file of the snapshot.
    pub fn path_of(&self, name: &str) -> (r: String)
        ensures
            r@ == path::joined(self.dir@, name@),
    {
        path::join(self.dir.as_str(), name)
    }

    /// The file that holds a document. A flat table can always be written, and the
    /// file reads back as it.
    pub fn write_toml(&self, name: &str, v: &TomlValue) -> (r: Result<TextFile, String>)
        requires
            toml_text::quotes_countable(v@),
        ensures
            match r {
                Ok(f) => f.path@ == path::joined(self.dir@, name@) && toml_text::toml_written(
                    toml_text::canonical(v@),
                ) == Ok::<Seq<char>, Seq<char>>(f.text@),
                Err(e) => toml_text::toml_written(toml_text::canonical(v@)) == Err::<Seq<char>, Seq<char>>(e@),
            },
            toml_text::is_flat_table(v@) ==> r is Ok && toml_text::read_back(r->Ok_0.text@) == Some(v@),
    {
        match toml_text::write(v) {
            Ok(text) => Ok(TextFile { path: self.path_of(name), text }),
            Err(e) => Err(e),
        }
    }

    /// The document in a file that was read, or the error.
    pub fn read_toml(&self, contents: Result<String, String>) -> (r: Result<TomlValue, String>)
        ensures
            match contents {
                Ok(text) => match r {
                    Ok(v) => toml_text::toml_parsed(text@) == Ok::<Tree, Seq<char>>(v@),
                    Err(e) => toml_text::toml_parsed(text@) == Err::<Tree, Seq<char>>(e@),
                },
                Err(e) => r is Err && r->Err_0@ == e@,
            },
    {
        match contents {
            Ok(text) => toml_text::parse(text.as_str()),
            Err(e) => Err(e),
        }
    }

    /// The path of the manifest.
    pub fn manifest_path(&self) -> (r: String)
        ensures
            r@ == path::joined(self.dir@, "snapshot.toml"@),
    {
        self.path_of("snapshot.toml")
    }

    /// The file that holds a manifest. It reads back as the same manifest.
    pub fn write_manifest(&self, m: &Manifest) -> (r: Result<TextFile, String>)
        requires
            toml_text::quotes_countable(manifest_tree(m@)),
        ensures
            r is Ok,
            r->Ok_0.path@ == path::joined(self.dir@, "snapshot.toml"@),
            toml_text::toml_written(manifest_tree(m@)) == Ok::<Seq<char>, Seq<char>>(r->Ok_0.text@),
            manifest_in(Contents::Text(r->Ok_0.text)) == Ok::<Option<ManifestModel>, Seq<char>>(Some(m@)),
    {
        proof {
            lemma_manifest_flat(m@);
            toml_text::lemma_canonical_flat(manifest_tree(m@));
            law_manifest_round_trip(m@);
        }
        self.write_toml("snapshot.toml", &m.to_toml())
    }

    /// The manifest in a file; none where there is no file.
    pub fn read_manifest(&self, contents: &Contents) -> (r: Result<Option<Manifest>, String>)
        ensures
            manifest_outcome(r) == manifest_in(*contents),
    {
        match contents {
            Contents::Absent => Ok(None),
            Contents::Unreadable(e) => Err(e.clone()),
            Contents::Text(text) => match toml_text::parse(text.as_str()) {
                Err(e) => Err(e),
                Ok(v) => match Manifest::from_toml(&v) {
                    Err(e) => Err(e),
                    Ok(m) => Ok(Some(m)),
                },
            },
        }
    }
}

/// A number as hexadecimal text of `width` digits.
pub open spec fn hex_tree(n: int, width: nat) -> Tree {
    Tree::String("0x"@ + text::hex_chars(n as nat, width))
}

/// The number that a value stands for, in 64 bits: hexadecimal text, with or
/// without `0x`, or an integer.
pub open spec fn tree_number(t: Tree) -> Option<int> {
    match t {
        Tree::String(s) => match text::parsed_unsigned(text::without_0x(s), 16, u64::MAX as nat) {
            Some(n) => Some(n as int),
            None => None,
        },
        Tree::Integer(i) => Some(i % bits::two_to_64()),
        _ => None,
    }
}

/// The number that a value stands for, below `m`: the rest of it by `m`.
pub open spec fn tree_number_below(t: Tree, m: int) -> Option<int> {
    match tree_number(t) {
        Some(n) => Some(n % m),
        None => None,
    }
}

/// A number of `width` digits as text.
fn hex_value(v: u64, width: u32) -> (r: TomlValue)
    ensures
        r@ == hex_tree(v as int, width as nat),
{
    let mut s = "0x".to_owned();
    s.append(text::hex(v, width).as_str());
    TomlValue::String(s)
}

/// A 64-bit number as text, such as `0x000000001234abcd`.
pub fn hex_u64(v: u64) -> (r: TomlValue)
    ensures
        r@ == hex_tree(v as int, 16),
{
    hex_value(v, 16)
}

/// A 32-bit number as text, such as `0x1234abcd`.
pub fn hex_u32(v: u32) -> (r: TomlValue)
    ensures
        r@ == hex_tree(v as int, 8),
{
    hex_value(v as u64, 8)
}

/// A 16-bit number as text, such as `0x1234`.
pub fn hex_u16(v: u16) -> (r: TomlValue)
    ensures
        r@ == hex_tree(v as int, 4),
{
    hex_value(v as u64, 4)
}

/// An 8-bit number as text, such as `0x12`.
pub fn hex_u8(v: u8) -> (r: TomlValue)
    ensures
        r@ == hex_tree(v as int, 2),
{
    hex_value(v as u64, 2)
}

/// An array of 64-bit numbers as text.
pub fn u64_slice_to_toml(slice: &[u64]) -> (r: TomlValue)
    ensures
        r@ == Tree::Array(Seq::new(slice@.len(), |i: int| hex_tree(slice@[i] as int, 16))),
{
    let mut a: Vec<TomlValue> = Vec::new();
    let mut i: usize = 0;
    while i < slice.len()
        invariant
            i <= slice.len(),
            a@.len() == i,
            forall|k: int| 0 <= k < i ==> (#[trigger] a@[k])@ == hex_tree(slice@[k] as int, 16),
        decreases slice.len() - i,
    {
        a.push(hex_u64(slice[i]));
        i += 1;
    }
    let r = TomlValue::Array(a);
    proof {
        toml_value::lemma_view(r);
        assert(r@->Array_0 =~= Seq::new(slice@.len(), |i: int| hex_tree(slice@[i] as int, 16)));
    }
    r
}

/// An array of 32-bit numbers as text.
pub fn u32_slice_to_toml(slice: &[u32]) -> (r: TomlValue)
    ensures
        r@ == Tree::Array(Seq::new(slice@.len(), |i: int| hex_tree(slice@[i] as int, 8))),
{
    let mut a: Vec<TomlValue> = Vec::new();
    let mut i: usize = 0;
    while i < slice.len()
        invariant
            i <= slice.len(),
            a@.len() == i,
            forall|k: int| 0 <= k < i ==> (#[trigger] a@[k])@ == hex_tree(slice@[k] as int, 8),
        decreases slice.len() - i,
    {
        a.push(hex_u32(slice[i]));
        i += 1;
    }
    let r = TomlValue::Array(a);
    proof {
        toml_value::lemma_view(r);
        assert(r@->Array_0 =~= Seq::new(slice@.len(), |i: int| hex_tree(slice@[i] as int, 8)));
    }
    r
}

/// An array of 16-bit numbers as text.
pub fn u16_slice_to_toml(slice: &[u16]) -> (r: TomlValue)
    ensures
        r@ == Tree::Array(Seq::new(slice@.len(), |i: int| hex_tree(slice@[i] as int, 4))),
{
    let mut a: Vec<TomlValue> = Vec::new();
    let mut i: usize = 0;
    while i < slice.len()
        invariant
            i <= slice.len(),
            a@.len() == i,
            forall|k: int| 0 <= k < i ==> (#[trigger] a@[k])@ == hex_tree(slice@[k] as int, 4),
        decreases slice.len() - i,
    {
        a.push(hex_u16(slice[i]));
        i += 1;
    }
    let r = TomlValue::Array(a);
    proof {
        toml_value::lemma_view(r);
        assert(r@->Array_0 =~= Seq::new(slice@.len(), |i: int| hex_tree(slice@[i] as int, 4)));
    }
    r
}

/// An array of 8-bit numbers as text.
pub fn u8_slice_to_toml(slice: &[u8]) -> (r: TomlValue)
    ensures
        r@ == Tree::Array(Seq::new(slice@.len(), |i: int| hex_tree(slice@[i] as int, 2))),
{
    let mut a: Vec<TomlValue> = Vec::new();
    let mut i: usize = 0;
    while i < slice.len()
        invariant
            i <= slice.len(),
            a@.len() == i,
            forall|k: int| 0 <= k < i ==> (#[trigger] a@[k])@ == hex_tree(slice@[k] as int, 2),
        decreases slice.len() - i,
    {
        a.push(hex_u8(slice[i]));
        i += 1;
    }
    let r = TomlValue::Array(a);
    proof {
        toml_value::lemma_view(r);
        assert(r@->Array_0 =~= Seq::new(slice@.len(), |i: int| hex_tree(slice@[i] as int, 2)));
    }
    r
}

/// The 64-bit number that a value stands for.
pub fn toml_u64(v: &TomlValue) -> (r: Option<u64>)
    ensures
        match r {
            Some(n) => tree_number(v@) == Some(n as int),
            None => tree_number(v@) is None,
        },
{
    proof {
        toml_value::lemma_view(*v);
    }
    match v {
        TomlValue::String(s) => {
            let chars = text::chars_of(s.as_str());
            let from: usize = text::prefix_0x(&chars);
            text::parse_unsigned(&chars, from, 16, u64::MAX)
        },
        TomlValue::Integer(i) => Some(bits::unsigned(*i)),
        _ => None,
    }
}

/// The low 32 bits of the number that a value stands for.
pub fn toml_u32(v: &TomlValue) -> (r: Option<u32>)
    ensures
        match r {
            Some(n) => tree_number_below(v@, bits::TWO_TO_32 as int) == Some(n as int),
            None => tree_number(v@) is None,
        },
{
    match toml_u64(v) {
        Some(n) => Some((n % bits::TWO_TO_32) as u32),
        None => None,
    }
}

/// The low 16 bits of the number that a value stands for.
pub fn toml_u16(v: &TomlValue) -> (r: Option<u16>)
    ensures
        match r {
            Some(n) => tree_number_below(v@, bits::TWO_TO_16 as int) == Some(n as int),
            None => tree_number(v@) is None,
        },
{
    match toml_u64(v) {
        Some(n) => Some((n % bits::TWO_TO_16) as u16),
        None => None,
    }
}

/// The low 8 bits of the number that a value stands for.
pub fn toml_u8(v: &TomlValue) -> (r: Option<u8>)
    ensures
        match r {
            Some(n) => tree_number_below(v@, bits::TWO_TO_8 as int) == Some(n as int),
            None => tree_number(v@) is None,
        },
{
    match toml_u64(v) {
        Some(n) => Some((n % bits::TWO_TO_8) as u8),
        None => None,
    }
}

/// The truth value that a value is.
pub fn toml_bool(v: &TomlValue) -> (r: Option<bool>)
    ensures
        match r {
            Some(b) => v@ == Tree::Boolean(b),
            None => !(v@ is Boolean),
        },
{
    v.as_bool()
}

/// The number that item `i` of an array stands for, below `m`; `None` where the
/// value is no array, or has no such item, or the item stands for no number.
pub open spec fn item_number(t: Tree, i: int, m: int) -> Option<int> {
    match t {
        Tree::Array(a) => if i < a.len() {
            tree_number_below(a[i], m)
        } else {
            None
        },
        _ => None,
    }
}

/// Takes 64-bit numbers from an array, as many as both have. An item that is no
/// number leaves its place as it was.
pub fn load_u64_slice(v: &TomlValue, dst: &mut [u64])
    ensures
        final(dst)@.len() == old(dst)@.len(),
        forall|i: int|
            0 <= i < final(dst)@.len() ==> (#[trigger] final(dst)@[i]) as int == (match item_number(
                v@,
                i,
                bits::two_to_64(),
            ) {
                Some(n) => n,
                None => old(dst)@[i] as int,
            }),
{
    let a: &Vec<TomlValue> = match v.as_array() {
        Some(a) => a,
        None => {
            return;
        },
    };
    let mut i: usize = 0;
    while i < a.len() && i < dst.len()
        invariant
            v@ == Tree::Array(toml_value::trees(a@)),
            i <= a.len(),
            i <= dst@.len(),
            dst@.len() == old(dst)@.len(),
            forall|k: int|
                0 <= k < i ==> (#[trigger] dst@[k]) as int == (match item_number(v@, k, bits::two_to_64()) {
                    Some(n) => n,
                    None => old(dst)@[k] as int,
                }),
            forall|k: int| i <= k < dst@.len() ==> #[trigger] dst@[k] == old(dst)@[k],
        decreases a.len() - i,
    {
        match toml_u64(&a[i]) {
            Some(x) => {
                dst[i] = x;
            },
            None => {},
        }
        i += 1;
    }
}

/// Takes 32-bit numbers from an array, as many as both have. An item that is no
/// number leaves its place as it was.
pub fn load_u32_slice(v: &TomlValue, dst: &mut [u32])
    ensures
        final(dst)@.len() == old(dst)@.len(),
        forall|i: int|
            0 <= i < final(dst)@.len() ==> (#[trigger] final(dst)@[i]) as int == (match item_number(
                v@,
                i,
                bits::TWO_TO_32 as int,
            ) {
                Some(n) => n,
                None => old(dst)@[i] as int,
            }),
{
    let a: &Vec<TomlValue> = match v.as_array() {
        Some(a) => a,
        None => {
            return;
        },
    };
    let mut i: usize = 0;
    while i < a.len() && i < dst.len()
        invariant
            v@ == Tree::Array(toml_value::trees(a@)),
            i <= a.len(),
            i <= dst@.len(),
            dst@.len() == old(dst)@.len(),
            forall|k: int|
                0 <= k < i ==> (#[trigger] dst@[k]) as int == (match item_number(v@, k, bits::TWO_TO_32 as int) {
                    Some(n) => n,
                    None => old(dst)@[k] as int,
                }),
            forall|k: int| i <= k < dst@.len() ==> #[trigger] dst@[k] == old(dst)@[k],
        decreases a.len() - i,
    {
        match toml_u32(&a[i]) {
            Some(x) => {
                dst[i] = x;
            },
            None => {},
        }
        i += 1;
    }
}

/// Takes 16-bit numbers from an array, as many as both have. An item that is no
/// number leaves its place as it was.
pub fn load_u16_slice(v: &TomlValue, dst: &mut [u16])
    ensures
        final(dst)@.len() == old(dst)@.len(),
        forall|i: int|
            0 <= i < final(dst)@.len() ==> (#[trigger] final(dst)@[i]) as int == (match item_number(
                v@,
                i,
                bits::TWO_TO_16 as int,
            ) {
                Some(n) => n,
                None => old(dst)@[i] as int,
            }),
{
    let a: &Vec<TomlValue> = match v.as_array() {
        Some(a) => a,
        None => {
            return;
        },
    };
    let mut i: usize = 0;
    while i < a.len() && i < dst.len()
        invariant
            v@ == Tree::Array(toml_value::trees(a@)),
            i <= a.len(),
            i <= dst@.len(),
            dst@.len() == old(dst)@.len(),
            forall|k: int|
                0 <= k < i ==> (#[trigger] dst@[k]) as int == (match item_number(v@, k, bits::TWO_TO_16 as int) {
                    Some(n) => n,
                    None => old(dst)@[k] as int,
                }),
            forall|k: int| i <= k < dst@.len() ==> #[trigger] dst@[k] == old(dst)@[k],
        decreases a.len() - i,
    {
        match toml_u16(&a[i]) {
            Some(x) => {
                dst[i] = x;
            },
            None => {},
        }
        i += 1;
    }
}

/// Takes 8-bit numbers from an array, as many as both have. An item that is no
/// number leaves its place as it was.
pub fn load_u8_slice(v: &TomlValue, dst: &mut [u8])
    ensures
        final(dst)@.len() == old(dst)@.len(),
        forall|i: int|
            0 <= i < final(dst)@.len() ==> (#[trigger] final(dst)@[i]) as int == (match item_number(
                v@,
                i,
                bits::TWO_TO_8 as int,
            ) {
                Some(n) => n,
                None => old(dst)@[i] as int,
            }),
{
    let a: &Vec<TomlValue> = match v.as_array() {
        Some(a) => a,
        None => {
            return;
        },
    };
    let mut i: usize = 0;
    while i < a.len() && i < dst.len()
        invariant
            v@ == Tree::Array(toml_value::trees(a@)),
            i <= a.len(),
            i <= dst@.len(),
            dst@.len() == old(dst)@.len(),
            forall|k: int|
                0 <= k < i ==> (#[trigger] dst@[k]) as int == (match item_number(v@, k, bits::TWO_TO_8 as int) {
                    Some(n) => n,
                    None => old(dst)@[k] as int,
                }),
            forall|k: int| i <= k < dst@.len() ==> #[trigger] dst@[k] == old(dst)@[k],
        decreases a.len() - i,
    {
        match toml_u8(&a[i]) {
            Some(x) => {
                dst[i] = x;
            },
            None => {},
        }
        i += 1;
    }
}

/// The value under a name of a table.
pub fn get_field<'a>(table: &'a TomlValue, key: &str) -> (r: Option<&'a TomlValue>)
    ensures
        match table@ {
            Tree::Table(e) => match r {
                Some(v) => table::lookup(e, key@) == Some(v@),
                None => table::lookup(e, key@) is None,
            },
            _ => r is None,
        },
{
    match table.as_table() {
        Some(t) => lookup(t, key),
        None => None,
    }
}

/// Hexadecimal text of enough digits reads back as the number.
pub proof fn law_hex_reads_back(n: int, width: nat)
    requires
        0 <= n < text::pow16(width),
        n <= u64::MAX,
        width >= 1,
    ensures
        tree_number(hex_tree(n, width)) == Some(n),
{
    reveal_strlit("0x");
    let digits = text::hex_chars(n as nat, width);
    let s = "0x"@ + digits;
    text::lemma_hex_value(n as nat, width);
    assert(s.skip(2) =~= digits);
    assert(digits[0] != '+');
    if digits.len() >= 2 {
        assert(digits[1] != 'x');
    }
    assert(text::without_0x(digits) == digits);
    assert(text::without_0x(s) == digits);
    vstd::arithmetic::div_mod::lemma_small_mod(n as nat, text::pow16(width));
}

/// The powers of sixteen that the widths of the number formats reach.
proof fn lemma_pow16_values()
    ensures
        text::pow16(2) == bits::TWO_TO_8,
        text::pow16(4) == bits::TWO_TO_16,
        text::pow16(8) == bits::TWO_TO_32,
        text::pow16(16) == bits::two_to_64(),
{
    reveal_with_fuel(text::pow16, 17);
}

/// Every number survives being written as text and read again, whatever its size.
pub proof fn law_numbers_round_trip(a: u64, b: u32, c: u16, d: u8)
    ensures
        tree_number(hex_tree(a as int, 16)) == Some(a as int),
        tree_number_below(hex_tree(b as int, 8), bits::TWO_TO_32 as int) == Some(b as int),
        tree_number_below(hex_tree(c as int, 4), bits::TWO_TO_16 as int) == Some(c as int),
        tree_number_below(hex_tree(d as int, 2), bits::TWO_TO_8 as int) == Some(d as int),
{
    lemma_pow16_values();
    law_hex_reads_back(a as int, 16);
    law_hex_reads_back(b as int, 8);
    law_hex_reads_back(c as int, 4);
    law_hex_reads_back(d as int, 2);
}

/// An array of numbers written as text gives each number back at its place.
pub proof fn law_number_arrays_round_trip(a: Seq<u64>, b: Seq<u32>, c: Seq<u16>, d: Seq<u8>, i: int)
    requires
        0 <= i,
    ensures
        i < a.len() ==> item_number(
            Tree::Array(Seq::new(a.len(), |k: int| hex_tree(a[k] as int, 16))),
            i,
            bits::two_to_64(),
        ) == Some(a[i] as int),
        i < b.len() ==> item_number(
            Tree::Array(Seq::new(b.len(), |k: int| hex_tree(b[k] as int, 8))),
            i,
            bits::TWO_TO_32 as int,
        ) == Some(b[i] as int),
        i < c.len() ==> item_number(
            Tree::Array(Seq::new(c.len(), |k: int| hex_tree(c[k] as int, 4))),
            i,
            bits::TWO_TO_16 as int,
        ) == Some(c[i] as int),
        i < d.len() ==> item_number(
            Tree::Array(Seq::new(d.len(), |k: int| hex_tree(d[k] as int, 2))),
            i,
            bits::TWO_TO_8 as int,
        ) == Some(d[i] as int),
{
    if i < a.len() {
        law_numbers_round_trip(a[i], 0, 0, 0);
    }
    if i < b.len() {
        law_numbers_round_trip(0, b[i], 0, 0);
    }
    if i < c.len() {
        law_numbers_round_trip(0, 0, c[i], 0);
    }
    if i < d.len() {
        law_numbers_round_trip(0, 0, 0, d[i]);
    }
}

/// The document of a manifest has its version, architecture, time and bundles under their
/// names, and the other texts where the manifest has them; and it has nothing else. A time
/// from two to the power of 63 on is written as the negative number with the same 64 bits.
pub proof fn law_manifest_document(m: ManifestModel, key: Seq<char>)
    requires
        m.well_formed(),
    ensures
        manifest_tree(m) == Tree::Table(manifest_entries(m)),
        table::lookup(manifest_entries(m), key) == (if key == "schema_version"@ {
            Some(Tree::Integer(m.schema_version))
        } else if key == "host_arch"@ {
            Some(Tree::String(m.host_arch))
        } else if key == "created_at_unix"@ {
            Some(
                Tree::Integer(
                    if m.created_at_unix < 0x8000_0000_0000_0000 {
                        m.created_at_unix
                    } else {
                        m.created_at_unix - 0x1_0000_0000_0000_0000
                    },
                ),
            )
        } else if key == "installed_bundles"@ {
            Some(Tree::Array(Seq::new(m.installed_bundles.len(), |i: int| Tree::String(m.installed_bundles[i]))))
        } else if key == "iris_git_rev"@ && m.iris_git_rev is Some {
            Some(Tree::String(m.iris_git_rev->0))
        } else if key == "parent"@ && m.parent is Some {
            Some(Tree::String(m.parent->0))
        } else if key == "description"@ && m.description is Some {
            Some(Tree::String(m.description->0))
        } else {
            None
        }),
{
    law_manifest_fields(m, key);
    lemma_keys_differ();
    assert(strings(m.installed_bundles) =~= Seq::new(
        m.installed_bundles.len(),
        |i: int| Tree::String(m.installed_bundles[i]),
    ));
}

/// A document is a manifest if and only if it is a table with an integer for the version and
/// a text for the architecture. Each field is what stands under its name, as far as it is of
/// the right kind: a number by its low bits, 32 of the version and 64 of the time, a text as
/// it is. What is not there is left out, and the time is then zero.
pub proof fn law_manifest_of_a_document(e: Seq<(Seq<char>, Tree)>, other: Tree)
    requires
        !(other is Table),
    ensures
        manifest_of(other) == Err::<ManifestModel, Seq<char>>("manifest: not a table"@),
        !(table::lookup(e, "schema_version"@) matches Some(Tree::Integer(_))) ==> manifest_of(Tree::Table(e)) == Err::<
            ManifestModel,
            Seq<char>,
        >("manifest: missing schema_version"@),
        (table::lookup(e, "schema_version"@) matches Some(Tree::Integer(_))) && !(table::lookup(
            e,
            "host_arch"@,
        ) matches Some(Tree::String(_))) ==> manifest_of(Tree::Table(e)) == Err::<ManifestModel, Seq<char>>(
            "manifest: missing host_arch"@,
        ),
        table::lookup(e, "schema_version"@) matches Some(Tree::Integer(v)) ==> (table::lookup(
            e,
            "host_arch"@,
        ) matches Some(Tree::String(arch)) ==> (manifest_of(Tree::Table(e)) matches Ok(m) && {
            &&& m.schema_version == v % 0x1_0000_0000
            &&& m.host_arch == arch
            &&& m.created_at_unix == (match table::lookup(e, "created_at_unix"@) {
                Some(Tree::Integer(t)) => t % 0x1_0000_0000_0000_0000,
                _ => 0,
            })
            &&& m.iris_git_rev == (match table::lookup(e, "iris_git_rev"@) {
                Some(Tree::String(s)) => Some(s),
                _ => None,
            })
            &&& m.parent == (match table::lookup(e, "parent"@) {
                Some(Tree::String(s)) => Some(s),
                _ => None,
            })
            &&& m.description == (match table::lookup(e, "description"@) {
                Some(Tree::String(s)) => Some(s),
                _ => None,
            })
            &&& m.installed_bundles == (match table::lookup(e, "installed_bundles"@) {
                Some(Tree::Array(a)) => string_items(a),
                _ => seq![],
            })
        })),
{
}

/// Of an array, each text is a bundle, in order; a value of another kind counts for nothing.
pub proof fn law_bundles_are_read_one_by_one(a: Seq<Tree>, s: Seq<char>, other: Tree)
    requires
        !(other is String),
    ensures
        string_items(seq![]) == Seq::<Seq<char>>::empty(),
        string_items(a.push(Tree::String(s))) == string_items(a).push(s),
        string_items(a.push(other)) == string_items(a),
{
    assert(a.push(Tree::String(s)).drop_last() =~= a);
    assert(a.push(other).drop_last() =~= a);
}

/// A snapshot without the file has no manifest; one whose file cannot be read, or holds no
/// document or no manifest, gives that error.
pub proof fn law_manifest_of_a_file(e: String, t: String)
    ensures
        manifest_in(Contents::Absent) == Ok::<Option<ManifestModel>, Seq<char>>(None),
        manifest_in(Contents::Unreadable(e)) == Err::<Option<ManifestModel>, Seq<char>>(e@),
        toml_text::toml_parsed(t@) matches Err(x) ==> manifest_in(Contents::Text(t)) == Err::<
            Option<ManifestModel>,
            Seq<char>,
        >(x),
        toml_text::toml_parsed(t@) matches Ok(tree) ==> (manifest_of(tree) matches Ok(m) ==> manifest_in(
            Contents::Text(t),
        ) == Ok::<Option<ManifestModel>, Seq<char>>(Some(m))),
        toml_text::toml_parsed(t@) matches Ok(tree) ==> (manifest_of(tree) matches Err(x) ==> manifest_in(
            Contents::Text(t),
        ) == Err::<Option<ManifestModel>, Seq<char>>(x)),
{
}

/// A number is written as `0x` and its hexadecimal digits. It is read from such a text, also
/// without the prefix, and from an integer by its 64 bits; nothing else is a number. A
/// narrower number is the low bits of that.
pub proof fn law_numbers_in_documents(n: int, width: nat, s: Seq<char>, i: int, other: Tree, m: int)
    requires
        !(other is String) && !(other is Integer),
        m > 0,
    ensures
        hex_tree(n, width) == Tree::String(seq!['0', 'x'] + text::hex_chars(n as nat, width)),
        tree_number(Tree::String(seq!['0', 'x'] + s)) == tree_number(Tree::String(s)),
        (s.len() < 2 || s[0] != '0' || s[1] != 'x') ==> (match text::parsed_unsigned(s, 16, u64::MAX as nat) {
            Some(v) => tree_number(Tree::String(s)) == Some(v as int),
            None => tree_number(Tree::String(s)) is None,
        }),
        tree_number(Tree::Integer(i)) == Some(i % 0x1_0000_0000_0000_0000),
        tree_number(other) is None,
        tree_number(Tree::String(s)) matches Some(v) ==> tree_number_below(Tree::String(s), m) == Some(v % m),
        tree_number(Tree::String(s)) is None ==> tree_number_below(Tree::String(s), m) is None,
        tree_number_below(Tree::Integer(i), m) == Some(i % 0x1_0000_0000_0000_0000 % m),
        tree_number_below(other, m) is None,
{
    reveal_strlit("0x");
    assert("0x"@ =~= seq!['0', 'x']);
    text::law_prefixes_are_taken_off(s);
}

/// Each place of an array is filled from the item of the same number, as far as there is one
/// and it stands for a number.
pub proof fn law_items_go_to_their_places(a: Seq<Tree>, i: int, m: int, other: Tree)
    requires
        0 <= i,
        !(other is Array),
    ensures
        i < a.len() ==> item_number(Tree::Array(a), i, m) == tree_number_below(a[i], m),
        i >= a.len() ==> item_number(Tree::Array(a), i, m) is None,
        item_number(other, i, m) is None,
{
}

/// A manifest and its model have the same fields.
pub proof fn law_model_of_a_manifest(m: Manifest, s: String, i: int)
    ensures
        opt_text(None) is None,
        opt_text(Some(s)) == Some(s@),
        m@.schema_version == m.schema_version,
        m@.host_arch == m.host_arch@,
        m@.created_at_unix == m.created_at_unix,
        m@.iris_git_rev == opt_text(m.iris_git_rev),
        m@.parent == opt_text(m.parent),
        m@.description == opt_text(m.description),
        m@.installed_bundles.len() == m.installed_bundles@.len(),
        0 <= i < m.installed_bundles@.len() ==> m@.installed_bundles[i] == m.installed_bundles@[i]@,
        m@.well_formed(),
{
}

/// The outcome of reading a manifest and its model say the same.
pub proof fn law_model_of_an_outcome(m: Manifest, e: String)
    ensures
        manifest_outcome(Ok(Some(m))) == Ok::<Option<ManifestModel>, Seq<char>>(Some(m@)),
        manifest_outcome(Ok(None)) == Ok::<Option<ManifestModel>, Seq<char>>(None),
        manifest_outcome(Err(e)) == Err::<Option<ManifestModel>, Seq<char>>(e@),
{
}

}
