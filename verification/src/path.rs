//! Paths as text, with `/` between the parts.
use crate::text;
use vstd::prelude::*;

verus! {

/// Whether a path starts at the root.
pub open spec fn is_absolute(p: Seq<char>) -> bool {
    p.len() > 0 && p[0] == '/'
}

/// `name` below `dir`. An absolute name stands by itself.
pub open spec fn joined(dir: Seq<char>, name: Seq<char>) -> Seq<char> {
    if is_absolute(name) {
        name
    } else if dir.len() == 0 || dir.last() == '/' {
        dir + name
    } else {
        dir.push('/') + name
    }
}

/// Whether `p[i..j]` is a part of the path: no `/` in it, and one on either side
/// or the end of the path.
pub open spec fn is_part(p: Seq<char>, i: int, j: int) -> bool {
    &&& 0 <= i <= j <= p.len()
    &&& i == 0 || p[i - 1] == '/'
    &&& j == p.len() || p[j] == '/'
    &&& forall|k: int| i <= k < j ==> p[k] != '/'
}

/// Whether some part of the path is `..`.
pub open spec fn has_parent_part(p: Seq<char>) -> bool {
    exists|i: int| #[trigger] is_part(p, i, i + 2) && p[i] == '.' && p[i + 1] == '.'
}

/// The parts of a path, empty ones included.
pub open spec fn parts(p: Seq<char>) -> Seq<Seq<char>>
    decreases p.len(),
{
    if p.len() == 0 {
        seq![seq![]]
    } else {
        let before = parts(p.drop_last());
        if p.last() == '/' {
            before.push(seq![])
        } else {
            before.update(before.len() - 1, before.last().push(p.last()))
        }
    }
}

/// Whether a part that is not the first counts: `.` and nothing at all do not.
pub open spec fn counts(part: Seq<char>) -> bool {
    part.len() > 0 && part != seq!['.']
}

/// The parts that tell where a path leads. Of the parts behind the first only
/// those that count; the first part of a relative path also where it is `.`, and
/// an empty one, which the root is.
pub open spec fn components(p: Seq<char>) -> Seq<Seq<char>> {
    let all = parts(p);
    let rest = all.skip(1).filter(|part: Seq<char>| counts(part));
    if p.len() == 0 {
        seq![]
    } else {
        seq![all[0]] + rest
    }
}

/// Whether two paths have the same components.
pub open spec fn same_components(a: Seq<char>, b: Seq<char>) -> bool {
    components(a) == components(b)
}

/// Whether a path starts at the root.
pub fn starts_at_root(p: &str) -> (r: bool)
    ensures
        r == is_absolute(p@),
{
    let c = text::chars_of(p);
    c.len() > 0 && c[0] == '/'
}

/// `name` below `dir`.
pub fn join(dir: &str, name: &str) -> (r: String)
    ensures
        r@ == joined(dir@, name@),
{
    if starts_at_root(name) {
        return name.to_owned();
    }
    let d = text::chars_of(dir);
    let mut r = dir.to_owned();
    if d.len() > 0 && d[d.len() - 1] != '/' {
        r.push('/');
    }
    r.append(name);
    r
}

/// Whether some part of the path is `..`.
pub fn has_parent(p: &str) -> (r: bool)
    ensures
        r == has_parent_part(p@),
{
    let c = text::chars_of(p);
    let mut i: usize = 0;
    while c.len() - i >= 2
        invariant
            i <= c.len(),
            c@ == p@,
            forall|k: int| 0 <= k < i ==> !(#[trigger] is_part(p@, k, k + 2) && p@[k] == '.' && p@[k + 1] == '.'),
        decreases c.len() - i,
    {
        if c[i] == '.' && c[i + 1] == '.' && (i == 0 || c[i - 1] == '/') && (i + 2 == c.len() || c[i + 2] == '/') {
            assert(is_part(p@, i as int, i + 2));
            return true;
        }
        i += 1;
    }
    false
}

/// The components of a path.
fn components_of(p: &str) -> (r: Vec<Vec<char>>)
    ensures
        r@.len() == components(p@).len(),
        forall|i: int| 0 <= i < r@.len() ==> (#[trigger] r@[i])@ == components(p@)[i],
{
    let c = text::chars_of(p);
    let mut all: Vec<Vec<char>> = Vec::new();
    let mut part: Vec<char> = Vec::new();
    let mut i: usize = 0;
    assert(p@.take(0) =~= seq![]);
    while i < c.len()
        invariant
            i <= c.len(),
            c@ == p@,
            parts(p@.take(i as int)).len() == all@.len() + 1,
            forall|k: int| 0 <= k < all@.len() ==> (#[trigger] all@[k])@ == parts(p@.take(i as int))[k],
            part@ == parts(p@.take(i as int)).last(),
        decreases c.len() - i,
    {
        proof {
            let next = p@.take(i + 1);
            assert(next.drop_last() =~= p@.take(i as int));
            assert(next.last() == p@[i as int]);
        }
        if c[i] == '/' {
            all.push(part);
            part = Vec::new();
            assert(part@ =~= seq![]);
        } else {
            part.push(c[i]);
        }
        i += 1;
    }
    assert(p@.take(i as int) =~= p@);
    all.push(part);
    let mut r: Vec<Vec<char>> = Vec::new();
    if c.len() == 0 {
        return r;
    }
    let ghost keep = |part: Seq<char>| counts(part);
    let ghost tail = parts(p@).skip(1);
    let mut k: usize = 1;
    let n: usize = all.len();
    assert(tail.take(0).filter(keep) =~= seq![]) by {
        reveal(Seq::filter);
    }
    while k < n
        invariant
            1 <= k <= n,
            n == all@.len(),
            n == parts(p@).len(),
            tail == parts(p@).skip(1),
            forall|j: int| 0 <= j < n ==> (#[trigger] all@[j])@ == parts(p@)[j],
            keep == (|part: Seq<char>| counts(part)),
            r@.len() == tail.take(k - 1).filter(keep).len(),
            forall|j: int| 0 <= j < r@.len() ==> (#[trigger] r@[j])@ == tail.take(k - 1).filter(keep)[j],
        decreases n - k,
    {
        let part: &Vec<char> = &all[k];
        proof {
            let next = tail.take(k as int);
            assert(next.drop_last() =~= tail.take(k - 1));
            assert(next.last() == part@);
            reveal(Seq::filter);
        }
        let dot = part.len() == 1 && part[0] == '.';
        proof {
            if dot {
                assert(part@ =~= seq!['.']);
            }
        }
        if part.len() > 0 && !dot {
            r.push(copy_chars(part));
        }
        k += 1;
    }
    assert(tail.take(n - 1) =~= tail);
    let first = copy_chars(&all[0]);
    r.insert(0, first);
    r
}

fn copy_chars(chars: &Vec<char>) -> (r: Vec<char>)
    ensures
        r@ == chars@,
{
    let mut r: Vec<char> = Vec::new();
    r.extend_from_slice(chars.as_slice());
    assert(r@ =~= chars@);
    r
}

/// Whether two paths have the same components.
pub fn same_path(a: &str, b: &str) -> (r: bool)
    ensures
        r == same_components(a@, b@),
{
    let x = components_of(a);
    let y = components_of(b);
    if x.len() != y.len() {
        return false;
    }
    let mut i: usize = 0;
    while i < x.len()
        invariant
            i <= x.len(),
            x@.len() == y@.len(),
            x@.len() == components(a@).len(),
            y@.len() == components(b@).len(),
            forall|k: int| 0 <= k < x@.len() ==> (#[trigger] x@[k])@ == components(a@)[k],
            forall|k: int| 0 <= k < y@.len() ==> (#[trigger] y@[k])@ == components(b@)[k],
            forall|k: int| 0 <= k < i ==> components(a@)[k] == components(b@)[k],
        decreases x.len() - i,
    {
        if !same_chars(&x[i], &y[i]) {
            assert(components(a@)[i as int] != components(b@)[i as int]);
            return false;
        }
        i += 1;
    }
    assert(components(a@) =~= components(b@));
    true
}

fn same_chars(a: &Vec<char>, b: &Vec<char>) -> (r: bool)
    ensures
        r == (a@ == b@),
{
    if a.len() != b.len() {
        return false;
    }
    let mut i: usize = 0;
    while i < a.len()
        invariant
            i <= a.len() == b.len(),
            forall|k: int| 0 <= k < i ==> a@[k] == b@[k],
        decreases a.len() - i,
    {
        if a[i] != b[i] {
            return false;
        }
        i += 1;
    }
    assert(a@ =~= b@);
    true
}

/// A name below a directory comes behind it with one slash between them, which a directory
/// that is empty or ends in a slash has no need of. A name that starts at the root is a path
/// by itself.
pub proof fn law_joined_paths(dir: Seq<char>, name: Seq<char>)
    ensures
        name.len() > 0 && name[0] == '/' ==> joined(dir, name) == name,
        dir.len() == 0 ==> joined(dir, name) == name,
        (name.len() == 0 || name[0] != '/') && dir.len() > 0 && dir[dir.len() - 1] == '/' ==> joined(dir, name) == dir
            + name,
        (name.len() == 0 || name[0] != '/') && dir.len() > 0 && dir[dir.len() - 1] != '/' ==> joined(dir, name) == dir
            + seq!['/'] + name,
        is_absolute(name) <==> name.len() > 0 && name[0] == '/',
{
    if dir.len() == 0 {
        assert(dir + name =~= name);
    } else if dir[dir.len() - 1] != '/' {
        assert(dir.push('/') =~= dir + seq!['/']);
    }
}

/// A path that is made up of something, two dots and something, where a slash or nothing is
/// on either side of the dots, has a part `..`.
pub proof fn law_parent_parts(before: Seq<char>, behind: Seq<char>)
    requires
        before.len() == 0 || before[before.len() - 1] == '/',
        behind.len() == 0 || behind[0] == '/',
    ensures
        has_parent_part(before + seq!['.', '.'] + behind),
{
    let whole = before + seq!['.', '.'] + behind;
    let i = before.len() as int;
    assert(is_part(whole, i, i + 2));
}

/// A path that has a part `..` is made up in that way.
pub proof fn law_parent_parts_stand_alone(p: Seq<char>) -> (around: (Seq<char>, Seq<char>))
    requires
        has_parent_part(p),
    ensures
        p == around.0 + seq!['.', '.'] + around.1,
        around.0.len() == 0 || around.0[around.0.len() - 1] == '/',
        around.1.len() == 0 || around.1[0] == '/',
{
    let k = choose|k: int| #[trigger] is_part(p, k, k + 2) && p[k] == '.' && p[k + 1] == '.';
    let (a, b) = (p.take(k), p.skip(k + 2));
    assert(p =~= a + seq!['.', '.'] + b);
    (a, b)
}

/// Whether a text is without slashes.
pub open spec fn is_slashless(s: Seq<char>) -> bool {
    forall|i: int| 0 <= i < s.len() ==> #[trigger] s[i] != '/'
}

proof fn lemma_parts_of_one(b: Seq<char>)
    requires
        is_slashless(b),
    ensures
        parts(b) == seq![b],
    decreases b.len(),
{
    if b.len() > 0 {
        let front = b.drop_last();
        assert forall|i: int| 0 <= i < front.len() implies #[trigger] front[i] != '/' by {
            assert(front[i] == b[i]);
        }
        lemma_parts_of_one(front);
        assert(b[b.len() - 1] != '/');
        assert(front.push(b.last()) =~= b);
        assert(parts(b) =~= seq![b]);
    } else {
        assert(b =~= seq![]);
    }
}

proof fn lemma_parts_nonempty(p: Seq<char>)
    ensures
        parts(p).len() > 0,
    decreases p.len(),
{
    if p.len() > 0 {
        lemma_parts_nonempty(p.drop_last());
    }
}

proof fn lemma_parts_behind_a_slash(a: Seq<char>, b: Seq<char>)
    requires
        is_slashless(b),
    ensures
        parts(a + seq!['/'] + b) == parts(a).push(b),
    decreases b.len(),
{
    let p = a + seq!['/'] + b;
    if b.len() == 0 {
        assert(p.drop_last() =~= a);
        assert(b =~= seq![]);
    } else {
        let front = b.drop_last();
        assert forall|i: int| 0 <= i < front.len() implies #[trigger] front[i] != '/' by {
            assert(front[i] == b[i]);
        }
        lemma_parts_behind_a_slash(a, front);
        assert(p.drop_last() =~= a + seq!['/'] + front);
        assert(p.last() == b[b.len() - 1]);
        assert(front.push(b.last()) =~= b);
        assert(parts(p) =~= parts(a).push(b));
    }
}

/// Where a path leads does not change with a part behind a slash that is empty or `.`; any
/// other part leads one further. A path of one part leads by that part, and one that starts
/// with a slash from the root.
pub proof fn law_components_part_by_part(a: Seq<char>, b: Seq<char>)
    requires
        is_slashless(b),
    ensures
        components(seq![]) == Seq::<Seq<char>>::empty(),
        b.len() > 0 ==> components(b) == seq![b],
        b.len() == 0 || b == seq!['.'] ==> components(seq!['/'] + b) == seq![Seq::<char>::empty()],
        b.len() > 0 && b != seq!['.'] ==> components(seq!['/'] + b) == seq![Seq::<char>::empty(), b],
        a.len() > 0 && (b.len() == 0 || b == seq!['.']) ==> components(a + seq!['/'] + b) == components(a),
        a.len() > 0 && b.len() > 0 && b != seq!['.'] ==> components(a + seq!['/'] + b) == components(a).push(b),
{
    let keep = |part: Seq<char>| counts(part);
    reveal(Seq::filter);
    if b.len() > 0 {
        lemma_parts_of_one(b);
        assert(seq![b].skip(1) =~= seq![]);
        assert(components(b) =~= seq![b]);
    }
    let none = Seq::<char>::empty();
    assert(none + seq!['/'] + b =~= seq!['/'] + b);
    lemma_parts_behind_a_slash(none, b);
    lemma_parts_of_one(none);
    assert(parts(seq!['/'] + b) =~= seq![none, b]);
    assert(seq![none, b].skip(1) =~= Seq::<Seq<char>>::empty().push(b));
    Seq::<Seq<char>>::empty().lemma_filter_push(b, keep);
    if counts(b) {
        assert(components(seq!['/'] + b) =~= seq![none, b]);
    } else {
        assert(components(seq!['/'] + b) =~= seq![none]);
    }
    if a.len() > 0 {
        lemma_parts_behind_a_slash(a, b);
        lemma_parts_nonempty(a);
        let all = parts(a);
        assert(all.push(b).skip(1) =~= all.skip(1).push(b));
        all.skip(1).lemma_filter_push(b, keep);
        if counts(b) {
            assert(components(a + seq!['/'] + b) =~= components(a).push(b));
        } else {
            assert(components(a + seq!['/'] + b) =~= components(a));
        }
    }
}

/// Two paths are the same if and only if they have the same components.
pub proof fn law_same_paths(a: Seq<char>, b: Seq<char>)
    ensures
        same_components(a, b) <==> components(a) == components(b),
        same_components(a, a),
{
}

}
