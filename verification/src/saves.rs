//! The snapshots below a directory.
use crate::text;
use vstd::prelude::*;

verus! {

/// The directory of a snapshot: below `saves/`, whatever its name.
pub open spec fn snapshot_dir(name: Seq<char>) -> Seq<char> {
    "saves/"@ + name
}

/// The directory of a snapshot.
pub fn dir_of(name: &str) -> (r: String)
    ensures
        r@ == snapshot_dir(name@),
{
    let mut dir = "saves/".to_owned();
    dir.append(name);
    dir
}

/// A directory that was read: its name, the names of its files and its
/// subdirectories.
#[derive(Debug)]
pub struct SaveDir {
    pub name: String,
    pub files: Vec<String>,
    pub dirs: Vec<SaveDir>,
}

/// Whether a file of this name makes its directory a snapshot: the manifest, or
/// the state that snapshots had before there was one.
pub open spec fn is_marker(name: Seq<char>) -> bool {
    name == "snapshot.toml"@ || name == "cpu.toml"@
}

/// Backslashes as slashes.
pub open spec fn slashed(s: Seq<char>) -> Seq<char> {
    Seq::new(
        s.len(),
        |i: int|
            if s[i] == '\\' {
                '/'
            } else {
                s[i]
            },
    )
}

/// The path of a subdirectory, seen from the top.
pub open spec fn below(rel: Seq<char>, name: Seq<char>) -> Seq<char> {
    if rel.len() == 0 {
        name
    } else {
        rel.push('/') + name
    }
}

impl SaveDir {
    /// Whether the directory is a snapshot.
    pub open spec fn marked(self) -> bool {
        exists|i: int| 0 <= i < self.files@.len() && is_marker((#[trigger] self.files@[i])@)
    }

    /// The snapshots in the directory itself, whose path is `rel`: one or none.
    pub open spec fn own_names(self, rel: Seq<char>) -> Seq<Seq<char>> {
        if self.marked() && rel.len() > 0 {
            seq![slashed(rel)]
        } else {
            seq![]
        }
    }

    /// The snapshots in the directory and below it, by their paths. The directory
    /// that the search starts in has no path and does not count.
    pub open spec fn names(self, rel: Seq<char>) -> Seq<Seq<char>>
        decreases self, 1int,
    {
        self.own_names(rel) + self.names_below(rel, self.dirs@.len())
    }

    /// The snapshots in the first `n` subdirectories and below them.
    pub open spec fn names_below(self, rel: Seq<char>, n: nat) -> Seq<Seq<char>>
        decreases self, 0int, n,
    {
        if n == 0 || n > self.dirs@.len() {
            seq![]
        } else {
            self.names_below(rel, (n - 1) as nat) + self.dirs@[n - 1].names(below(rel, self.dirs@[n - 1].name@))
        }
    }
}

/// Backslashes as slashes.
fn slash(s: &str) -> (r: String)
    ensures
        r@ == slashed(s@),
{
    let c = text::chars_of(s);
    let mut r = String::new();
    let mut i: usize = 0;
    assert(r@ =~= slashed(s@).take(0));
    while i < c.len()
        invariant
            i <= c.len(),
            c@ == s@,
            r@ == slashed(s@).take(i as int),
        decreases c.len() - i,
    {
        proof {
            assert(slashed(s@).take(i + 1) =~= slashed(s@).take(i as int).push(slashed(s@)[i as int]));
        }
        if c[i] == '\\' {
            r.push('/');
        } else {
            r.push(c[i]);
        }
        i += 1;
    }
    assert(slashed(s@).take(i as int) =~= slashed(s@));
    r
}

/// The path of a subdirectory, seen from the top.
fn path_below(rel: &str, name: &str) -> (r: String)
    ensures
        r@ == below(rel@, name@),
{
    if rel.is_empty() {
        name.to_owned()
    } else {
        let mut r = rel.to_owned();
        r.push('/');
        r.append(name);
        r
    }
}

impl SaveDir {
    /// Whether the directory is a snapshot.
    fn is_snapshot(&self) -> (r: bool)
        ensures
            r == self.marked(),
    {
        let mut i: usize = 0;
        while i < self.files.len()
            invariant
                i <= self.files.len(),
                forall|k: int| 0 <= k < i ==> !is_marker((#[trigger] self.files@[k])@),
            decreases self.files.len() - i,
        {
            let name = self.files[i].as_str();
            if text::same(name, "snapshot.toml") || text::same(name, "cpu.toml") {
                assert(is_marker(self.files@[i as int]@));
                return true;
            }
            i += 1;
        }
        false
    }

    /// Adds the snapshots in the directory and below it.
    fn collect(&self, rel: &str, out: &mut Vec<String>)
        ensures
            text::texts(final(out)@) == text::texts(old(out)@) + self.names(rel@),
        decreases self,
    {
        let ghost start = text::texts(out@);
        if !rel.is_empty() && self.is_snapshot() {
            let s = slash(rel);
            out.push(s);
            assert(text::texts(out@) =~= start + self.own_names(rel@));
        } else {
            assert(text::texts(out@) =~= start + self.own_names(rel@));
        }
        let mut i: usize = 0;
        assert(self.names_below(rel@, 0) =~= seq![]);
        assert(text::texts(out@) =~= start + self.own_names(rel@) + self.names_below(rel@, 0));
        while i < self.dirs.len()
            invariant
                i <= self.dirs.len(),
                text::texts(out@) == start + self.own_names(rel@) + self.names_below(rel@, i as nat),
            decreases self.dirs.len() - i,
        {
            let sub: &SaveDir = &self.dirs[i];
            assert(decreases_to!(self => self.dirs@[i as int]));
            let path = path_below(rel, sub.name.as_str());
            sub.collect(path.as_str(), out);
            proof {
                let before = start + self.own_names(rel@);
                assert(before + self.names_below(rel@, i as nat) + sub.names(path@) =~= before + self.names_below(
                    rel@,
                    (i + 1) as nat,
                ));
            }
            i += 1;
        }
        assert(text::texts(out@) =~= start + self.names(rel@));
    }
}

/// Not after.
pub open spec fn text_le(a: Seq<char>, b: Seq<char>) -> bool {
    a == b || text::text_lt(a, b)
}

/// Whether texts stand in order.
pub open spec fn in_order(s: Seq<Seq<char>>) -> bool {
    forall|i: int, j: int| 0 <= i < j < s.len() ==> text_le(#[trigger] s[i], #[trigger] s[j])
}

/// Puts a text in its place among texts in order.
fn insert_in_order(v: &mut Vec<String>, s: String)
    requires
        in_order(text::texts(old(v)@)),
    ensures
        in_order(text::texts(final(v)@)),
        text::texts(final(v)@).to_multiset() == text::texts(old(v)@).to_multiset().insert(s@),
{
    let ghost had = text::texts(v@);
    let mut i: usize = 0;
    while i < v.len() && !text::before(s.as_str(), v[i].as_str())
        invariant
            i <= v.len(),
            had == text::texts(v@),
            had == text::texts(old(v)@),
            forall|k: int| 0 <= k < i ==> !text::text_lt(s@, #[trigger] had[k]),
        decreases v.len() - i,
    {
        i += 1;
    }
    let ghost x = s@;
    let ghost at = i as int;
    proof {
        assert(at < had.len() ==> text::text_lt(x, had[at]));
    }
    v.insert(i, s);
    proof {
        let now = text::texts(v@);
        assert(now =~= had.insert(at, x));
        lemma_insert_in_order(had, at, x);
        lemma_insert_multiset(had, at, x);
    }
}

proof fn lemma_insert_in_order(had: Seq<Seq<char>>, at: int, x: Seq<char>)
    requires
        in_order(had),
        0 <= at <= had.len(),
        forall|k: int| 0 <= k < at ==> !text::text_lt(x, #[trigger] had[k]),
        at < had.len() ==> text::text_lt(x, had[at]),
    ensures
        in_order(had.insert(at, x)),
{
    let now = had.insert(at, x);
    assert forall|i: int, j: int| 0 <= i < j < now.len() implies text_le(#[trigger] now[i], #[trigger] now[j]) by {
        if j < at {
            assert(now[i] == had[i] && now[j] == had[j]);
        } else if j == at {
            assert(now[i] == had[i]);
            text::lemma_text_lt_total(x, had[i]);
        } else if i == at {
            assert(now[j] == had[j - 1]);
            if j - 1 > at {
                assert(text_le(had[at], had[j - 1]));
                if had[at] != had[j - 1] {
                    text::lemma_text_lt_transitive(x, had[at], had[j - 1]);
                }
            }
        } else if i < at {
            assert(now[i] == had[i] && now[j] == had[j - 1]);
        } else {
            assert(now[i] == had[i - 1] && now[j] == had[j - 1]);
        }
    }
}

proof fn lemma_insert_multiset(had: Seq<Seq<char>>, at: int, x: Seq<char>)
    requires
        0 <= at <= had.len(),
    ensures
        had.insert(at, x).to_multiset() == had.to_multiset().insert(x),
{
    let now = had.insert(at, x);
    now.to_multiset_ensures();
    assert(now.remove(at) =~= had);
    assert(now[at] == x);
    assert(now.contains(x));
    assert(now.to_multiset() =~= had.to_multiset().insert(x));
}

/// The texts in order.
fn sort_texts(v: Vec<String>) -> (r: Vec<String>)
    ensures
        in_order(text::texts(r@)),
        text::texts(r@).to_multiset() == text::texts(v@).to_multiset(),
{
    let ghost all = text::texts(v@);
    let mut r: Vec<String> = Vec::new();
    let mut i: usize = 0;
    proof {
        assert(text::texts(r@) =~= all.take(0));
    }
    while i < v.len()
        invariant
            i <= v.len(),
            all == text::texts(v@),
            in_order(text::texts(r@)),
            text::texts(r@).to_multiset() == all.take(i as int).to_multiset(),
        decreases v.len() - i,
    {
        proof {
            all.take(i as int).to_multiset_ensures();
            assert(all.take(i + 1) =~= all.take(i as int).push(all[i as int]));
        }
        insert_in_order(&mut r, v[i].clone());
        i += 1;
    }
    assert(all.take(i as int) =~= all);
    r
}

/// The snapshots below a directory, by their paths, in order.
pub fn list_snapshots(root: &SaveDir) -> (r: Vec<String>)
    ensures
        in_order(text::texts(r@)),
        text::texts(r@).to_multiset() == root.names(seq![]).to_multiset(),
{
    let mut out: Vec<String> = Vec::new();
    proof {
        reveal_strlit("");
        assert(""@ =~= seq![]);
        assert(text::texts(out@) =~= seq![]);
    }
    root.collect("", &mut out);
    assert(text::texts(out@) =~= root.names(seq![]));
    sort_texts(out)
}

/// The directory that is reached from `root` by going down, each time to the
/// subdirectory of the given number.
pub open spec fn descend(root: SaveDir, way: Seq<int>) -> Option<SaveDir>
    decreases way.len(),
{
    if way.len() == 0 {
        Some(root)
    } else if 0 <= way[0] < root.dirs@.len() {
        descend(root.dirs@[way[0]], way.skip(1))
    } else {
        None
    }
}

/// The path of the directory that is reached by going down.
pub open spec fn descent(root: SaveDir, rel: Seq<char>, way: Seq<int>) -> Seq<char>
    decreases way.len(),
{
    if way.len() == 0 {
        rel
    } else {
        descent(root.dirs@[way[0]], below(rel, root.dirs@[way[0]].name@), way.skip(1))
    }
}

proof fn lemma_names_below(root: SaveDir, rel: Seq<char>, n: nat, i: int, x: Seq<char>)
    requires
        0 <= i < n <= root.dirs@.len(),
        root.dirs@[i].names(below(rel, root.dirs@[i].name@)).contains(x),
    ensures
        root.names_below(rel, n).contains(x),
    decreases n,
{
    let front = root.names_below(rel, (n - 1) as nat);
    let last = root.dirs@[n - 1].names(below(rel, root.dirs@[n - 1].name@));
    if i == n - 1 {
        let k = choose|k: int| 0 <= k < last.len() && last[k] == x;
        assert((front + last)[front.len() + k] == x);
    } else {
        lemma_names_below(root, rel, (n - 1) as nat, i, x);
        let k = choose|k: int| 0 <= k < front.len() && front[k] == x;
        assert((front + last)[k] == x);
    }
}

/// Every directory below the top that is a snapshot is listed, however deep it
/// lies.
pub proof fn law_every_snapshot_is_listed(root: SaveDir, rel: Seq<char>, way: Seq<int>)
    requires
        descend(root, way) is Some,
        descend(root, way)->0.marked(),
        descent(root, rel, way).len() > 0,
    ensures
        root.names(rel).contains(slashed(descent(root, rel, way))),
    decreases way.len(),
{
    let own = root.own_names(rel);
    let rest = root.names_below(rel, root.dirs@.len());
    let x = slashed(descent(root, rel, way));
    if way.len() == 0 {
        assert((own + rest)[0] == x);
    } else {
        let sub = root.dirs@[way[0]];
        law_every_snapshot_is_listed(sub, below(rel, sub.name@), way.skip(1));
        lemma_names_below(root, rel, root.dirs@.len(), way[0], x);
        let k = choose|k: int| 0 <= k < rest.len() && rest[k] == x;
        assert((own + rest)[own.len() + k] == x);
    }
}

proof fn lemma_listed_below(root: SaveDir, rel: Seq<char>, n: nat, x: Seq<char>) -> (i: int)
    requires
        n <= root.dirs@.len(),
        root.names_below(rel, n).contains(x),
    ensures
        0 <= i < n,
        root.dirs@[i].names(below(rel, root.dirs@[i].name@)).contains(x),
    decreases n,
{
    let all = root.names_below(rel, n);
    let k = choose|k: int| 0 <= k < all.len() && all[k] == x;
    assert(n > 0);
    let front = root.names_below(rel, (n - 1) as nat);
    let last = root.dirs@[n - 1].names(below(rel, root.dirs@[n - 1].name@));
    assert(all == front + last);
    if k < front.len() {
        assert(front[k] == x);
        lemma_listed_below(root, rel, (n - 1) as nat, x)
    } else {
        assert(last[k - front.len()] == x);
        n - 1
    }
}

/// Only snapshots are listed: every name is the path of a directory below the top that is
/// one, and `way` leads to it.
pub proof fn law_only_snapshots_are_listed(root: SaveDir, rel: Seq<char>, x: Seq<char>) -> (way: Seq<int>)
    requires
        root.names(rel).contains(x),
    ensures
        descend(root, way) is Some,
        descend(root, way)->0.marked(),
        descent(root, rel, way).len() > 0,
        x == slashed(descent(root, rel, way)),
    decreases root,
{
    let own = root.own_names(rel);
    let rest = root.names_below(rel, root.dirs@.len());
    let k = choose|k: int| 0 <= k < root.names(rel).len() && root.names(rel)[k] == x;
    if k < own.len() {
        assert(own[k] == x);
        seq![]
    } else {
        assert(rest[k - own.len()] == x);
        let i = lemma_listed_below(root, rel, root.dirs@.len(), x);
        let sub = root.dirs@[i];
        let tail = law_only_snapshots_are_listed(sub, below(rel, sub.name@), x);
        let way = seq![i] + tail;
        assert(way.skip(1) =~= tail);
        way
    }
}

/// Whether a text is the name of a directory: not empty, and without a slash of either
/// kind.
pub open spec fn is_name(s: Seq<char>) -> bool {
    s.len() > 0 && forall|i: int| 0 <= i < s.len() ==> #[trigger] s[i] != '/' && s[i] != '\\'
}

/// Whether what is below a directory has names, and different ones side by side.
pub open spec fn is_tidy(d: SaveDir) -> bool
    decreases d,
{
    &&& forall|i: int| 0 <= i < d.dirs@.len() ==> is_name((#[trigger] d.dirs@[i]).name@) && is_tidy(d.dirs@[i])
    &&& forall|i: int, j: int|
        0 <= i < j < d.dirs@.len() ==> (#[trigger] d.dirs@[i]).name@ != (#[trigger] d.dirs@[j]).name@
}

/// Whether a text has no backslash.
pub open spec fn is_slashed(s: Seq<char>) -> bool {
    forall|i: int| 0 <= i < s.len() ==> #[trigger] s[i] != '\\'
}

/// Whether `x` is the path `p` or one below it.
pub open spec fn is_at_or_below(x: Seq<char>, p: Seq<char>) -> bool {
    x.len() >= p.len() && x.take(p.len() as int) == p && (x.len() > p.len() ==> x[p.len() as int] == '/')
}

/// What is listed for a directory is its own path or one below it.
proof fn lemma_listed_at_or_below(d: SaveDir, rel: Seq<char>, x: Seq<char>)
    requires
        is_tidy(d),
        is_slashed(rel),
        rel.len() > 0,
        d.names(rel).contains(x),
    ensures
        is_at_or_below(x, rel),
    decreases d,
{
    let own = d.own_names(rel);
    let rest = d.names_below(rel, d.dirs@.len());
    let k = choose|k: int| 0 <= k < d.names(rel).len() && d.names(rel)[k] == x;
    if k < own.len() {
        assert(slashed(rel) =~= rel);
        assert(x == rel);
        assert(x.take(rel.len() as int) =~= rel);
    } else {
        assert(rest[k - own.len()] == x);
        let i = lemma_listed_below(d, rel, d.dirs@.len(), x);
        let sub = d.dirs@[i];
        let p = below(rel, sub.name@);
        assert(is_name(sub.name@));
        lemma_below_slashed(rel, sub.name@);
        lemma_listed_at_or_below(sub, p, x);
        assert(x.take(rel.len() as int) =~= x.take(p.len() as int).take(rel.len() as int));
        assert(p.take(rel.len() as int) =~= rel);
        assert(x[rel.len() as int] == x.take(p.len() as int)[rel.len() as int]);
    }
}

proof fn lemma_below_slashed(rel: Seq<char>, name: Seq<char>)
    requires
        is_slashed(rel),
        is_name(name),
    ensures
        is_slashed(below(rel, name)),
        below(rel, name).len() > 0,
{
    let p = below(rel, name);
    assert forall|i: int| 0 <= i < p.len() implies #[trigger] p[i] != '\\' by {
        if rel.len() == 0 {
            assert(p[i] == name[i]);
        } else if i < rel.len() {
            assert(p[i] == rel[i]);
        } else if i > rel.len() {
            assert(p[i] == name[i - rel.len() - 1]);
        }
    }
}

/// Nothing is at or below two directories that stand side by side.
proof fn lemma_siblings_apart(rel: Seq<char>, a: Seq<char>, b: Seq<char>, x: Seq<char>)
    requires
        is_name(a),
        is_name(b),
        a.len() <= b.len(),
        is_at_or_below(x, below(rel, a)),
        is_at_or_below(x, below(rel, b)),
    ensures
        a == b,
{
    let (p, q) = (below(rel, a), below(rel, b));
    let at: int = if rel.len() == 0 {
        0
    } else {
        rel.len() as int + 1
    };
    assert forall|i: int| 0 <= i < a.len() implies #[trigger] a[i] == b[i] by {
        assert(p[at + i] == a[i] && q[at + i] == b[i]);
        assert(x.take(p.len() as int)[at + i] == x.take(q.len() as int)[at + i]);
    }
    if a.len() < b.len() {
        assert(q[at + a.len()] == b[a.len() as int]);
        assert(x.take(q.len() as int)[p.len() as int] == x[p.len() as int]);
    }
    assert(a =~= b);
}

proof fn lemma_below_unrepeated(d: SaveDir, rel: Seq<char>, n: nat)
    requires
        is_tidy(d),
        is_slashed(rel),
        n <= d.dirs@.len(),
    ensures
        d.names_below(rel, n).no_duplicates(),
    decreases d, 0int, n,
{
    if n > 0 {
        let front = d.names_below(rel, (n - 1) as nat);
        let sub = d.dirs@[n - 1];
        let p = below(rel, sub.name@);
        let last = sub.names(p);
        let all = d.names_below(rel, n);
        assert(is_name(sub.name@));
        lemma_below_slashed(rel, sub.name@);
        lemma_below_unrepeated(d, rel, (n - 1) as nat);
        lemma_names_unrepeated(sub, p);
        assert(all == front + last);
        assert forall|i: int, j: int| 0 <= i < j < all.len() implies all[i] != all[j] by {
            if i < front.len() && j >= front.len() && all[i] == all[j] {
                let x = all[i];
                assert(front[i] == x);
                assert(front.contains(x));
                assert(last[j - front.len()] == x);
                assert(last.contains(x));
                let k = lemma_listed_below(d, rel, (n - 1) as nat, x);
                let other = d.dirs@[k];
                assert(is_name(other.name@));
                lemma_below_slashed(rel, other.name@);
                lemma_listed_at_or_below(other, below(rel, other.name@), x);
                lemma_listed_at_or_below(sub, p, x);
                if other.name@.len() <= sub.name@.len() {
                    lemma_siblings_apart(rel, other.name@, sub.name@, x);
                } else {
                    lemma_siblings_apart(rel, sub.name@, other.name@, x);
                }
            } else if j < front.len() {
                assert(all[i] == front[i] && all[j] == front[j]);
            } else if i >= front.len() {
                assert(all[i] == last[i - front.len()] && all[j] == last[j - front.len()]);
            }
        }
    }
}

proof fn lemma_names_unrepeated(d: SaveDir, rel: Seq<char>)
    requires
        is_tidy(d),
        is_slashed(rel),
    ensures
        d.names(rel).no_duplicates(),
    decreases d, 1int, 0nat,
{
    let own = d.own_names(rel);
    let rest = d.names_below(rel, d.dirs@.len());
    let all = d.names(rel);
    lemma_below_unrepeated(d, rel, d.dirs@.len());
    assert forall|i: int, j: int| 0 <= i < j < all.len() implies all[i] != all[j] by {
        if i < own.len() {
            let x = rest[j - own.len()];
            assert(all[j] == x);
            assert(rest.contains(x));
            assert(slashed(rel) =~= rel);
            assert(all[i] == rel);
            let k = lemma_listed_below(d, rel, d.dirs@.len(), x);
            let sub = d.dirs@[k];
            assert(is_name(sub.name@));
            lemma_below_slashed(rel, sub.name@);
            lemma_listed_at_or_below(sub, below(rel, sub.name@), x);
        } else {
            assert(all[i] == rest[i - own.len()] && all[j] == rest[j - own.len()]);
        }
    }
}

/// No snapshot is listed twice, as long as directories side by side have different names
/// without slashes of either kind: not in the order in which they are found, and not in
/// any other, such as the one that they are put in.
pub proof fn law_no_snapshot_is_listed_twice(root: SaveDir, listed: Seq<Seq<char>>)
    requires
        is_tidy(root),
        listed.to_multiset() == root.names(seq![]).to_multiset(),
    ensures
        root.names(seq![]).no_duplicates(),
        listed.no_duplicates(),
{
    let found = root.names(seq![]);
    lemma_names_unrepeated(root, seq![]);
    found.lemma_multiset_has_no_duplicates();
    listed.lemma_multiset_has_no_duplicates_conv();
}

/// The directory of a snapshot is `saves/` and its name. A directory is a snapshot if and
/// only if one of its files is named `snapshot.toml` or `cpu.toml`.
pub proof fn law_what_is_a_snapshot(d: SaveDir, name: Seq<char>)
    ensures
        snapshot_dir(name) == "saves/"@ + name,
        d.marked() <==> exists|i: int|
            0 <= i < d.files@.len() && ((#[trigger] d.files@[i])@ == "snapshot.toml"@ || d.files@[i]@ == "cpu.toml"@),
{
    if d.marked() {
        let i = choose|i: int| 0 <= i < d.files@.len() && is_marker((#[trigger] d.files@[i])@);
        assert(d.files@[i]@ == "snapshot.toml"@ || d.files@[i]@ == "cpu.toml"@);
    }
    if exists|i: int|
        0 <= i < d.files@.len() && ((#[trigger] d.files@[i])@ == "snapshot.toml"@ || d.files@[i]@ == "cpu.toml"@) {
        let i = choose|i: int|
            0 <= i < d.files@.len() && ((#[trigger] d.files@[i])@ == "snapshot.toml"@ || d.files@[i]@ == "cpu.toml"@);
        assert(is_marker(d.files@[i]@));
    }
}

/// A snapshot is named by the directories that lead to it, with slashes between them and in
/// place of backslashes.
pub proof fn law_names_of_snapshots(rel: Seq<char>, name: Seq<char>, i: int)
    ensures
        rel.len() == 0 ==> below(rel, name) == name,
        rel.len() > 0 ==> below(rel, name) == rel + seq!['/'] + name,
        slashed(name).len() == name.len(),
        0 <= i < name.len() && name[i] == '\\' ==> slashed(name)[i] == '/',
        0 <= i < name.len() && name[i] != '\\' ==> slashed(name)[i] == name[i],
{
    assert(rel.push('/') =~= rel + seq!['/']);
}

/// The names in a directory are its own, where it is a snapshot and not the top, and those
/// of its subdirectories, one after the other.
pub proof fn law_names_in_a_directory(d: SaveDir, rel: Seq<char>)
    ensures
        d.dirs@.len() == 0 && rel.len() > 0 && d.marked() ==> d.names(rel) == seq![slashed(rel)],
        d.dirs@.len() == 0 && (rel.len() == 0 || !d.marked()) ==> d.names(rel).len() == 0,
        rel.len() > 0 && d.marked() ==> d.names(rel) == seq![slashed(rel)] + d.names_below(rel, d.dirs@.len()),
        rel.len() == 0 || !d.marked() ==> d.names(rel) == d.names_below(rel, d.dirs@.len()),
        forall|n: nat|
            0 < n <= d.dirs@.len() ==> #[trigger] d.names_below(rel, n) == d.names_below(rel, (n - 1) as nat)
                + d.dirs@[n - 1].names(below(rel, d.dirs@[n - 1].name@)),
        d.names_below(rel, 0).len() == 0,
{
    assert(seq![slashed(rel)] + Seq::<Seq<char>>::empty() =~= seq![slashed(rel)]);
    assert(Seq::<Seq<char>>::empty() + d.names_below(rel, d.dirs@.len()) =~= d.names_below(rel, d.dirs@.len()));
    if d.dirs@.len() == 0 {
        assert(d.names_below(rel, d.dirs@.len()) =~= Seq::<Seq<char>>::empty());
    }
}

/// Names are in order if and only if none comes before an earlier one.
pub proof fn law_names_in_order(s: Seq<Seq<char>>)
    ensures
        in_order(s) <==> forall|i: int, j: int| 0 <= i < j < s.len() ==> !text::text_lt(#[trigger] s[j], #[trigger] s[i]),
{
    if in_order(s) {
        assert forall|i: int, j: int| 0 <= i < j < s.len() implies !text::text_lt(#[trigger] s[j], #[trigger] s[i]) by {
            assert(text_le(s[i], s[j]));
            if s[i] == s[j] {
                text::lemma_text_lt_irreflexive(s[i]);
            } else {
                text::lemma_text_lt_asymmetric(s[i], s[j]);
            }
        }
    }
    if forall|i: int, j: int| 0 <= i < j < s.len() ==> !text::text_lt(#[trigger] s[j], #[trigger] s[i]) {
        assert forall|i: int, j: int| 0 <= i < j < s.len() implies text_le(#[trigger] s[i], #[trigger] s[j]) by {
            text::lemma_text_lt_total(s[i], s[j]);
        }
    }
}

}
