//! The dirty sectors of copy-on-write overlays, as a document.
//!
//! `cow.toml` holds an array of sector numbers for each disk under the name of the
//! disk, `scsi` and its number.
use crate::bits;
use crate::snapshot::{Snapshot, TextFile};
use crate::path;
use crate::table;
use crate::table::Table;
use crate::text;
use crate::toml_text;
use crate::toml_value;
use crate::toml_value::{TomlValue, Tree};
use vstd::prelude::*;

verus! {

/// The number of a disk and its dirty sectors.
pub type OverlaySet = (usize, Vec<u64>);

/// Disks with their dirty sectors.
pub open spec fn sets_model(v: Seq<OverlaySet>) -> Seq<(nat, Seq<u64>)> {
    Seq::new(v.len(), |i: int| (v[i].0 as nat, v[i].1@))
}

/// The name of a disk.
pub open spec fn disk_key(id: nat) -> Seq<char> {
    "scsi"@ + text::decimal_chars(id)
}

/// The number of the disk that a name is of.
pub open spec fn disk_id(key: Seq<char>) -> Option<nat> {
    if key.len() >= 4 && key.take(4) == "scsi"@ {
        text::parsed_unsigned(key.skip(4), 10, usize::MAX as nat)
    } else {
        None
    }
}

/// Sector numbers as values.
pub open spec fn sector_trees(sectors: Seq<u64>) -> Seq<Tree> {
    Seq::new(sectors.len(), |i: int| Tree::Integer(bits::as_signed(sectors[i] as int)))
}

/// The sector numbers among some values, in their order.
pub open spec fn sectors_of(a: Seq<Tree>) -> Seq<u64>
    decreases a.len(),
{
    if a.len() == 0 {
        seq![]
    } else {
        match a.last() {
            Tree::Integer(i) => sectors_of(a.drop_last()).push((i % bits::two_to_64()) as u64),
            _ => sectors_of(a.drop_last()),
        }
    }
}

/// The entries of the document, put in one after the other.
pub open spec fn cow_entries(sets: Seq<(nat, Seq<u64>)>) -> Seq<(Seq<char>, Tree)>
    decreases sets.len(),
{
    if sets.len() == 0 {
        seq![]
    } else {
        table::put(
            cow_entries(sets.drop_last()),
            disk_key(sets.last().0),
            Tree::Array(sector_trees(sets.last().1)),
        )
    }
}

/// The disk and the sectors that an entry of the document holds.
pub open spec fn entry_set(e: (Seq<char>, Tree)) -> Option<(nat, Seq<u64>)> {
    match (disk_id(e.0), e.1) {
        (Some(id), Tree::Array(a)) => Some((id, sectors_of(a))),
        _ => None,
    }
}

/// The disks of a document's entries, in their order. An entry that is none of a
/// disk does not count.
pub open spec fn entry_sets(e: Seq<(Seq<char>, Tree)>) -> Seq<(nat, Seq<u64>)>
    decreases e.len(),
{
    if e.len() == 0 {
        seq![]
    } else {
        match entry_set(e.last()) {
            Some(s) => entry_sets(e.drop_last()).push(s),
            None => entry_sets(e.drop_last()),
        }
    }
}

/// The disks of a document; none where it is no table.
pub open spec fn sets_of(t: Tree) -> Seq<(nat, Seq<u64>)> {
    match t {
        Tree::Table(e) => entry_sets(e),
        _ => seq![],
    }
}

/// The document for some overlays.
pub fn cow_table(overlays: &Vec<OverlaySet>) -> (r: TomlValue)
    ensures
        r@ == Tree::Table(cow_entries(sets_model(overlays@))),
{
    let ghost sets = sets_model(overlays@);
    let mut tbl: Table<TomlValue> = Table::new();
    let mut i: usize = 0;
    assert(sets.take(0) =~= seq![]);
    assert(toml_value::named_trees(tbl.model()) =~= seq![]);
    while i < overlays.len()
        invariant
            i <= overlays.len(),
            sets == sets_model(overlays@),
            toml_value::named_trees(tbl.model()) == cow_entries(sets.take(i as int)),
        decreases overlays.len() - i,
    {
        proof {
            assert(sets.take(i + 1).drop_last() =~= sets.take(i as int));
            assert(sets.take(i + 1).last() == (overlays@[i as int].0 as nat, overlays@[i as int].1@));
        }
        let mut key = "scsi".to_owned();
        key.append(text::decimal(overlays[i].0 as u128).as_str());
        let value = TomlValue::Array(sector_values(&overlays[i].1));
        proof {
            toml_value::lemma_view(value);
            toml_value::lemma_named_trees_put(tbl.model(), key@, value);
        }
        tbl.insert(key, value);
        i += 1;
    }
    assert(sets.take(i as int) =~= sets);
    let r = TomlValue::Table(tbl);
    proof {
        toml_value::lemma_view(r);
    }
    r
}

/// Sector numbers as values.
fn sector_values(sectors: &Vec<u64>) -> (r: Vec<TomlValue>)
    ensures
        toml_value::trees(r@) == sector_trees(sectors@),
{
    let mut r: Vec<TomlValue> = Vec::new();
    let mut i: usize = 0;
    while i < sectors.len()
        invariant
            i <= sectors.len(),
            r@.len() == i,
            forall|k: int| 0 <= k < i ==> (#[trigger] r@[k])@ == Tree::Integer(bits::as_signed(sectors@[k] as int)),
        decreases sectors.len() - i,
    {
        r.push(TomlValue::Integer(bits::signed(sectors[i])));
        i += 1;
    }
    assert(toml_value::trees(r@) =~= sector_trees(sectors@));
    r
}

/// The number of the disk that a name is of.
fn parse_disk_key(key: &str) -> (r: Option<usize>)
    ensures
        match r {
            Some(id) => disk_id(key@) == Some(id as nat),
            None => disk_id(key@) is None,
        },
{
    let c = text::chars_of(key);
    proof {
        reveal_strlit("scsi");
    }
    if c.len() < 4 || c[0] != 's' || c[1] != 'c' || c[2] != 's' || c[3] != 'i' {
        proof {
            if c.len() >= 4 && key@.take(4) == "scsi"@ {
                assert(key@.take(4)[0] == 's' && key@.take(4)[1] == 'c' && key@.take(4)[2] == 's' && key@.take(4)[3]
                    == 'i');
            }
        }
        return None;
    }
    assert(key@.take(4) =~= "scsi"@);
    match text::parse_unsigned(&c, 4, 10, usize::MAX as u64) {
        Some(n) => Some(n as usize),
        None => None,
    }
}

/// The sector numbers in an array.
fn parse_sectors(a: &Vec<TomlValue>) -> (r: Vec<u64>)
    ensures
        r@ == sectors_of(toml_value::trees(a@)),
{
    let ghost all = toml_value::trees(a@);
    let mut r: Vec<u64> = Vec::new();
    let mut i: usize = 0;
    assert(all.take(0) =~= seq![]);
    while i < a.len()
        invariant
            i <= a.len(),
            all == toml_value::trees(a@),
            r@ == sectors_of(all.take(i as int)),
        decreases a.len() - i,
    {
        proof {
            assert(all.take(i + 1).drop_last() =~= all.take(i as int));
            assert(all.take(i + 1).last() == a@[i as int]@);
        }
        match a[i].as_integer() {
            Some(n) => {
                r.push(bits::unsigned(n));
            },
            None => {},
        }
        i += 1;
    }
    assert(all.take(i as int) =~= all);
    r
}

/// The overlays that a document holds.
pub fn overlay_sets(v: &TomlValue) -> (r: Vec<OverlaySet>)
    ensures
        sets_model(r@) == sets_of(v@),
{
    let mut r: Vec<OverlaySet> = Vec::new();
    assert(sets_model(r@) =~= seq![]);
    let t: &Table<TomlValue> = match v.as_table() {
        Some(t) => t,
        None => {
            return r;
        },
    };
    let ghost e = toml_value::named_trees(t.model());
    let mut i: usize = 0;
    assert(e.take(0) =~= seq![]);
    while i < t.entries.len()
        invariant
            i <= t.entries.len(),
            e == toml_value::named_trees(t.model()),
            sets_model(r@) == entry_sets(e.take(i as int)),
        decreases t.entries.len() - i,
    {
        proof {
            assert(e.take(i + 1).drop_last() =~= e.take(i as int));
            assert(e.take(i + 1).last() == (t.entries@[i as int].0@, t.entries@[i as int].1@));
        }
        match parse_disk_key(t.entries[i].0.as_str()) {
            Some(id) => match t.entries[i].1.as_array() {
                Some(a) => {
                    let ghost had = sets_model(r@);
                    let sectors = parse_sectors(a);
                    let ghost s = sectors@;
                    r.push((id, sectors));
                    assert(sets_model(r@) =~= had.push((id as nat, s)));
                },
                None => {},
            },
            None => {},
        }
        i += 1;
    }
    assert(e.take(i as int) =~= e);
    r
}

proof fn lemma_sectors_back(s: Seq<u64>)
    ensures
        sectors_of(sector_trees(s)) == s,
    decreases s.len(),
{
    let t = sector_trees(s);
    if s.len() > 0 {
        lemma_sectors_back(s.drop_last());
        assert(t.drop_last() =~= sector_trees(s.drop_last()));
        bits::lemma_signed_and_back(s.last() as int);
        assert(s.drop_last().push(s.last()) =~= s);
    } else {
        assert(s =~= seq![]);
    }
}

proof fn lemma_disk_key(id: nat)
    requires
        id <= usize::MAX,
    ensures
        disk_id(disk_key(id)) == Some(id),
        toml_text::is_bare_key(disk_key(id)),
{
    reveal_strlit("scsi");
    let k = disk_key(id);
    let d = text::decimal_chars(id);
    text::lemma_decimal_value(id);
    assert(k.take(4) =~= "scsi"@);
    assert(k.skip(4) =~= d);
    assert(d[0] != '+');
    assert forall|i: int| 0 <= i < k.len() implies toml_text::is_bare_char(#[trigger] k[i]) by {
        if i >= 4 {
            assert(k[i] == d[i - 4]);
        }
    }
}

/// Whether no two entries have one number.
pub open spec fn ids_differ(sets: Seq<(nat, Seq<u64>)>) -> bool {
    forall|i: int, j: int| 0 <= i < j < sets.len() ==> (#[trigger] sets[i]).0 != (#[trigger] sets[j]).0
}

/// Whether every number is one of a disk.
pub open spec fn ids_fit(sets: Seq<(nat, Seq<u64>)>) -> bool {
    forall|i: int| 0 <= i < sets.len() ==> (#[trigger] sets[i]).0 <= usize::MAX
}

/// Putting an entry in under a new name keeps all others and adds it.
proof fn lemma_put_adds(e: Seq<(Seq<char>, Tree)>, key: Seq<char>, value: Tree)
    requires
        forall|i: int| 0 <= i < e.len() ==> (#[trigger] e[i]).0 != key,
    ensures
        table::put(e, key, value).len() == e.len() + 1,
        exists|k: int|
            0 <= k <= e.len() && #[trigger] table::put(e, key, value) == e.insert(k, (key, value)),
    decreases e.len(),
{
    let after = table::put(e, key, value);
    if e.len() == 0 {
        assert(after =~= e.insert(0, (key, value)));
    } else if text::text_lt(key, e[0].0) {
        assert(e[0].0 != key);
        assert(after =~= e.insert(0, (key, value)));
    } else {
        assert(e[0].0 != key);
        let rest = e.skip(1);
        assert forall|i: int| 0 <= i < rest.len() implies (#[trigger] rest[i]).0 != key by {
            assert(rest[i] == e[i + 1]);
        }
        lemma_put_adds(rest, key, value);
        let k = choose|k: int| 0 <= k <= rest.len() && #[trigger] table::put(rest, key, value) == rest.insert(
            k,
            (key, value),
        );
        assert(after =~= e.insert(k + 1, (key, value)));
    }
}

/// An entry among others gives its disk among theirs.
proof fn lemma_entry_sets_insert(e: Seq<(Seq<char>, Tree)>, k: int, x: (Seq<char>, Tree), s: (nat, Seq<u64>))
    requires
        0 <= k <= e.len(),
        entry_set(x) == Some(s),
    ensures
        exists|j: int| 0 <= j <= entry_sets(e).len() && #[trigger] entry_sets(e.insert(k, x)) == entry_sets(e).insert(
            j,
            s,
        ),
    decreases e.len(),
{
    let all = e.insert(k, x);
    if k == e.len() {
        assert(all.drop_last() =~= e);
        assert(entry_sets(all) =~= entry_sets(e).insert(entry_sets(e).len() as int, s));
    } else {
        let front = e.drop_last();
        lemma_entry_sets_insert(front, k, x, s);
        let j = choose|j: int| 0 <= j <= entry_sets(front).len() && #[trigger] entry_sets(front.insert(k, x))
            == entry_sets(front).insert(j, s);
        assert(all.drop_last() =~= front.insert(k, x));
        assert(all.last() == e.last());
        assert(entry_sets(all) =~= entry_sets(e).insert(j, s));
    }
}

/// The names in the document are those of the disks.
proof fn lemma_cow_names(sets: Seq<(nat, Seq<u64>)>, i: int)
    requires
        0 <= i < cow_entries(sets).len(),
    ensures
        exists|j: int| 0 <= j < sets.len() && cow_entries(sets)[i].0 == disk_key((#[trigger] sets[j]).0),
    decreases sets.len(),
{
    if sets.len() > 0 {
        let front = sets.drop_last();
        let e = cow_entries(front);
        let p = |x: (Seq<char>, Tree)| exists|j: int| 0 <= j < sets.len() && x.0 == disk_key((#[trigger] sets[j]).0);
        assert forall|k: int| 0 <= k < e.len() implies p(#[trigger] e[k]) by {
            lemma_cow_names(front, k);
            let j = choose|j: int| 0 <= j < front.len() && e[k].0 == disk_key((#[trigger] front[j]).0);
            assert(sets[j] == front[j]);
        }
        let value = Tree::Array(sector_trees(sets.last().1));
        assert(p((disk_key(sets.last().0), value))) by {
            assert(sets[sets.len() - 1] == sets.last());
        }
        table::lemma_put_holds(e, disk_key(sets.last().0), value, p);
        assert(p(cow_entries(sets)[i]));
    }
}

/// The document of overlays gives every overlay back: as many disks as there were,
/// each with its sectors.
pub proof fn law_overlays_round_trip(sets: Seq<(nat, Seq<u64>)>)
    requires
        ids_differ(sets),
        ids_fit(sets),
    ensures
        entry_sets(cow_entries(sets)).len() == sets.len(),
        entry_sets(cow_entries(sets)).to_multiset() == sets.to_multiset(),
    decreases sets.len(),
{
    broadcast use vstd::seq_lib::group_to_multiset_ensures;
    if sets.len() > 0 {
        let front = sets.drop_last();
        assert forall|i: int, j: int| 0 <= i < j < front.len() implies (#[trigger] front[i]).0 != (
        #[trigger] front[j]).0 by {
            assert(front[i] == sets[i] && front[j] == sets[j]);
        }
        assert forall|i: int| 0 <= i < front.len() implies (#[trigger] front[i]).0 <= usize::MAX by {
            assert(front[i] == sets[i]);
        }
        law_overlays_round_trip(front);
        let last = sets.last();
        assert(sets[sets.len() - 1] == last);
        let e = cow_entries(front);
        let value = Tree::Array(sector_trees(last.1));
        lemma_disk_key(last.0);
        assert forall|i: int| 0 <= i < e.len() implies (#[trigger] e[i]).0 != disk_key(last.0) by {
            lemma_cow_names(front, i);
            let j = choose|j: int| 0 <= j < front.len() && e[i].0 == disk_key((#[trigger] front[j]).0);
            assert(front[j] == sets[j]);
            lemma_disk_key(front[j].0);
        }
        lemma_put_adds(e, disk_key(last.0), value);
        let k = choose|k: int| 0 <= k <= e.len() && #[trigger] table::put(e, disk_key(last.0), value) == e.insert(
            k,
            (disk_key(last.0), value),
        );
        lemma_sectors_back(last.1);
        assert(entry_set((disk_key(last.0), value)) == Some(last));
        lemma_entry_sets_insert(e, k, (disk_key(last.0), value), last);
        let j = choose|j: int| 0 <= j <= entry_sets(e).len() && #[trigger] entry_sets(
            e.insert(k, (disk_key(last.0), value)),
        ) == entry_sets(e).insert(j, last);
        let more = entry_sets(e).insert(j, last);
        more.to_multiset_ensures();
        assert(more.remove(j) =~= entry_sets(e));
        assert(more[j] == last);
        assert(more.contains(last));
        assert(more.to_multiset() =~= entry_sets(e).to_multiset().insert(last));
        front.to_multiset_ensures();
        assert(sets =~= front.push(last));
    } else {
        assert(cow_entries(sets) =~= seq![]);
        assert(entry_sets(cow_entries(sets)) =~= sets);
    }
}


/// The document of overlays is a flat table without texts.
proof fn lemma_cow_flat(sets: Seq<(nat, Seq<u64>)>)
    requires
        ids_fit(sets),
    ensures
        toml_text::is_flat_table(Tree::Table(cow_entries(sets))),
        toml_text::quotes_countable(Tree::Table(cow_entries(sets))),
    decreases sets.len(),
{
    let e = cow_entries(sets);
    if sets.len() > 0 {
        let front = sets.drop_last();
        assert forall|i: int| 0 <= i < front.len() implies (#[trigger] front[i]).0 <= usize::MAX by {
            assert(front[i] == sets[i]);
        }
        lemma_cow_flat(front);
        assert(sets[sets.len() - 1] == sets.last());
        let had = cow_entries(front);
        let key = disk_key(sets.last().0);
        let value = Tree::Array(sector_trees(sets.last().1));
        lemma_disk_key(sets.last().0);
        table::law_put_keeps_order(had, key, value);
        let p = |x: (Seq<char>, Tree)| toml_text::is_flat_entry(x) && toml_text::quotes_countable(x.1);
        let a = sector_trees(sets.last().1);
        assert forall|k: int| 0 <= k < a.len() implies toml_text::quotes_countable(#[trigger] a[k]) by {
            assert(a[k] is Integer);
        }
        assert(toml_text::quotes_countable(value));
        assert(p((key, value)));
        assert forall|i: int| 0 <= i < had.len() implies p(#[trigger] had[i]) by {
            assert(toml_text::is_flat_entry(had[i]));
            assert(toml_text::quotes_countable(had[i].1));
        }
        table::lemma_put_holds(had, key, value, p);
        assert forall|i: int| 0 <= i < e.len() implies toml_text::is_flat_entry(#[trigger] e[i]) by {
            assert(p(e[i]));
        }
        assert forall|i: int| 0 <= i < e.len() implies toml_text::quotes_countable((#[trigger] e[i]).1) by {
            assert(p(e[i]));
        }
    }
}

/// The disks in the text of a document; `None` where it does not read as one.
pub open spec fn sets_in_text(text: Seq<char>) -> Option<Seq<(nat, Seq<u64>)>> {
    match toml_text::read_back(text) {
        Some(tree) => Some(sets_of(tree)),
        None => None,
    }
}

/// The file `cow.toml` of a snapshot with some overlays. It reads back as the
/// document of the overlays.
pub fn cow_file(snap: &Snapshot, overlays: &Vec<OverlaySet>) -> (r: Result<TextFile, String>)
    ensures
        r is Ok,
        r->Ok_0.path@ == path::joined(snap.dir@, "cow.toml"@),
        toml_text::toml_written(Tree::Table(cow_entries(sets_model(overlays@)))) == Ok::<Seq<char>, Seq<char>>(
            r->Ok_0.text@,
        ),
        sets_in_text(r->Ok_0.text@) == Some(entry_sets(cow_entries(sets_model(overlays@)))),
        toml_text::toml_parsed(r->Ok_0.text@) == Ok::<Tree, Seq<char>>(
            Tree::Table(cow_entries(sets_model(overlays@))),
        ),
        ids_differ(sets_model(overlays@)) ==> (sets_in_text(r->Ok_0.text@) matches Some(back) && back.to_multiset()
            == sets_model(overlays@).to_multiset()),
{
    proof {
        let sets = sets_model(overlays@);
        lemma_cow_flat(sets);
        toml_text::lemma_canonical_flat(Tree::Table(cow_entries(sets)));
        if ids_differ(sets) {
            law_overlays_round_trip(sets);
        }
    }
    snap.write_toml("cow.toml", &cow_table(overlays))
}

/// The model of some disks has each at its place, with all its sectors.
pub proof fn law_model_has_every_disk(v: Seq<OverlaySet>, i: int)
    requires
        0 <= i < v.len(),
    ensures
        sets_model(v).len() == v.len(),
        sets_model(v)[i] == (v[i].0 as nat, v[i].1@),
{
}

/// The document holds the sectors of each disk as an array of integers, in their order,
/// under `scsi` and the number of the disk in decimal; and it holds nothing else. A sector
/// number from two to the power of 63 on is written as the negative number with the same
/// 64 bits.
pub proof fn law_document_names_each_disk(sets: Seq<(nat, Seq<u64>)>, i: int)
    requires
        ids_differ(sets),
        ids_fit(sets),
        0 <= i < sets.len(),
    ensures
        cow_entries(sets).len() == sets.len(),
        table::lookup(cow_entries(sets), "scsi"@ + text::decimal_chars(sets[i].0)) matches Some(Tree::Array(a)) && {
            &&& a.len() == sets[i].1.len()
            &&& forall|k: int|
                0 <= k < a.len() ==> #[trigger] a[k] == Tree::Integer(
                    if sets[i].1[k] < 0x8000_0000_0000_0000 {
                        sets[i].1[k] as int
                    } else {
                        sets[i].1[k] - 0x1_0000_0000_0000_0000
                    },
                )
        },
    decreases sets.len(),
{
    let front = sets.drop_last();
    let last = sets.last();
    let e = cow_entries(front);
    let value = Tree::Array(sector_trees(last.1));
    assert forall|a: int, b: int| 0 <= a < b < front.len() implies (#[trigger] front[a]).0 != (
    #[trigger] front[b]).0 by {
        assert(front[a] == sets[a] && front[b] == sets[b]);
    }
    assert forall|a: int| 0 <= a < front.len() implies (#[trigger] front[a]).0 <= usize::MAX by {
        assert(front[a] == sets[a]);
    }
    assert(sets[sets.len() - 1] == last);
    lemma_disk_key(last.0);
    assert forall|a: int| 0 <= a < e.len() implies (#[trigger] e[a]).0 != disk_key(last.0) by {
        lemma_cow_names(front, a);
        let j = choose|j: int| 0 <= j < front.len() && e[a].0 == disk_key((#[trigger] front[j]).0);
        assert(front[j] == sets[j]);
        lemma_disk_key(front[j].0);
    }
    lemma_put_adds(e, disk_key(last.0), value);
    if front.len() > 0 {
        law_document_names_each_disk(front, 0);
    } else {
        assert(e =~= seq![]);
    }
    table::law_lookup_after_put(e, disk_key(last.0), value, disk_key(sets[i].0));
    if i < front.len() {
        law_document_names_each_disk(front, i);
        assert(front[i] == sets[i]);
        lemma_disk_key(sets[i].0);
    }
}

/// Of a document, an entry with an array under `scsi` and a number is a disk. An entry of
/// another kind or name counts for nothing, wherever it stands.
pub proof fn law_entries_are_read_one_by_one(
    e: Seq<(Seq<char>, Tree)>,
    name: Seq<char>,
    id: nat,
    a: Seq<Tree>,
    other: (Seq<char>, Tree),
)
    requires
        id <= usize::MAX,
        name == "scsi"@ + text::decimal_chars(id),
        !(other.1 is Array) || other.0.len() < 4 || other.0[0] != 's' || other.0[1] != 'c' || other.0[2] != 's'
            || other.0[3] != 'i',
    ensures
        entry_sets(seq![]) == Seq::<(nat, Seq<u64>)>::empty(),
        entry_sets(e.push((name, Tree::Array(a)))) == entry_sets(e).push((id, sectors_of(a))),
        entry_sets(e.push(other)) == entry_sets(e),
{
    lemma_disk_key(id);
    assert(e.push((name, Tree::Array(a))).drop_last() =~= e);
    assert(e.push(other).drop_last() =~= e);
    reveal_strlit("scsi");
    if other.0.len() >= 4 && other.0.take(4) == "scsi"@ {
        let k = other.0.take(4);
        assert(k[0] == 's' && k[1] == 'c' && k[2] == 's' && k[3] == 'i');
    }
}

/// Of an array, each integer is a sector, by its 64 bits; a value of another kind counts for
/// nothing.
pub proof fn law_sectors_are_read_one_by_one(a: Seq<Tree>, i: int, other: Tree)
    requires
        i64::MIN <= i <= i64::MAX,
        !(other is Integer),
    ensures
        sectors_of(seq![]) == Seq::<u64>::empty(),
        i >= 0 ==> sectors_of(a.push(Tree::Integer(i))) == sectors_of(a).push(i as u64),
        i < 0 ==> sectors_of(a.push(Tree::Integer(i))) == sectors_of(a).push((i + 0x1_0000_0000_0000_0000) as u64),
        sectors_of(a.push(other)) == sectors_of(a),
{
    assert(a.push(Tree::Integer(i)).drop_last() =~= a);
    assert(a.push(other).drop_last() =~= a);
    if i < 0 {
        assert(i % 0x1_0000_0000_0000_0000 == i + 0x1_0000_0000_0000_0000);
    } else {
        assert(i % 0x1_0000_0000_0000_0000 == i);
    }
}

/// The text of a document holds the disks of the table that it reads as; one that reads as
/// something else holds none, and one that does not read tells of none.
pub proof fn law_disks_of_a_text(text: Seq<char>)
    ensures
        toml_text::toml_parsed(text) matches Ok(Tree::Table(e)) ==> sets_in_text(text) == Some(entry_sets(e)),
        toml_text::toml_parsed(text) matches Ok(t) ==> !(t is Table) ==> sets_in_text(text) == Some(
            Seq::<(nat, Seq<u64>)>::empty(),
        ),
        toml_text::toml_parsed(text) is Err ==> sets_in_text(text) is None,
{
}

/// The disks of a table are those of its entries, and nothing else has any. A name is that of
/// a disk if and only if it is `scsi` and a number that fits.
pub proof fn law_disks_of_a_document(e: Seq<(Seq<char>, Tree)>, other: Tree, rest: Seq<char>, name: Seq<char>)
    requires
        !(other is Table),
        name.len() < 4 || name[0] != 's' || name[1] != 'c' || name[2] != 's' || name[3] != 'i',
    ensures
        sets_of(Tree::Table(e)) == entry_sets(e),
        sets_of(other).len() == 0,
        disk_id("scsi"@ + rest) == text::parsed_unsigned(rest, 10, usize::MAX as nat),
        disk_id(name) is None,
{
    reveal_strlit("scsi");
    let k = "scsi"@ + rest;
    assert(k.take(4) =~= "scsi"@);
    assert(k.skip(4) =~= rest);
    if name.len() >= 4 && name.take(4) == "scsi"@ {
        let t = name.take(4);
        assert(t[0] == 's' && t[1] == 'c' && t[2] == 's' && t[3] == 'i');
    }
}

/// What is asked of the numbers of disks: no two are the same, and each fits.
pub proof fn law_numbers_of_disks(sets: Seq<(nat, Seq<u64>)>)
    ensures
        ids_differ(sets) <==> forall|i: int, j: int|
            0 <= i < j < sets.len() ==> (#[trigger] sets[i]).0 != (#[trigger] sets[j]).0,
        ids_fit(sets) <==> forall|i: int| 0 <= i < sets.len() ==> (#[trigger] sets[i]).0 <= usize::MAX,
{
}

/// One more disk puts its sectors under its name, in place of what stood there, and leaves
/// what stands under every other name.
pub proof fn law_one_more_disk(sets: Seq<(nat, Seq<u64>)>, id: nat, sectors: Seq<u64>, key: Seq<char>)
    ensures
        cow_entries(seq![]).len() == 0,
        key != "scsi"@ + text::decimal_chars(id) ==> table::lookup(cow_entries(sets.push((id, sectors))), key)
            == table::lookup(cow_entries(sets), key),
        key == "scsi"@ + text::decimal_chars(id) ==> (table::lookup(
            cow_entries(sets.push((id, sectors))),
            key,
        ) matches Some(Tree::Array(a)) && a.len() == sectors.len() && forall|k: int|
            0 <= k < a.len() ==> #[trigger] a[k] == Tree::Integer(
                if sectors[k] < 0x8000_0000_0000_0000 {
                    sectors[k] as int
                } else {
                    sectors[k] - 0x1_0000_0000_0000_0000
                },
            )),
{
    let all = sets.push((id, sectors));
    assert(all.drop_last() =~= sets);
    table::law_lookup_after_put(cow_entries(sets), disk_key(id), Tree::Array(sector_trees(sectors)), key);
}

/// One more entry with an array is one more disk where its name is that of a disk.
pub proof fn law_one_more_entry(e: Seq<(Seq<char>, Tree)>, name: Seq<char>, a: Seq<Tree>)
    ensures
        disk_id(name) matches Some(id) ==> entry_sets(e.push((name, Tree::Array(a)))) == entry_sets(e).push(
            (id, sectors_of(a)),
        ),
        disk_id(name) is None ==> entry_sets(e.push((name, Tree::Array(a)))) == entry_sets(e),
{
    assert(e.push((name, Tree::Array(a))).drop_last() =~= e);
}

}
