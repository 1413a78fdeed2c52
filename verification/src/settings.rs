//! What the graphical front end remembers.
use crate::clock;
use crate::path;
use crate::table;
use crate::table::Table;
use crate::text;
use vstd::prelude::*;

verus! {

/// The most configuration files that are remembered.
pub const MAX_RECENT: usize = 10;

/// A name gets numbers up to this one, and the clock behind it.
pub const NAME_LIMIT: u128 = 1000;

/// The settings that no number with a fraction is part of. `machines` holds a
/// configuration for each machine, by its name.
pub struct GuiSettings<M> {
    pub fullscreen: bool,
    pub machines: Table<M>,
    pub active_machine: Option<String>,
    pub recent_configs: Vec<String>,
    pub last_config: Option<String>,
}

/// The paths of a list that do not lead where `p` does.
pub open spec fn others(list: Seq<Seq<char>>, p: Seq<char>) -> Seq<Seq<char>>
    decreases list.len(),
{
    if list.len() == 0 {
        seq![]
    } else if path::same_components(list.last(), p) {
        others(list.drop_last(), p)
    } else {
        others(list.drop_last(), p).push(list.last())
    }
}

/// At most the first `n` of a list.
pub open spec fn at_most(list: Seq<Seq<char>>, n: int) -> Seq<Seq<char>> {
    if list.len() > n {
        list.take(n)
    } else {
        list
    }
}

/// A list of recent paths after `p` was used: `p`, then the others in their order,
/// as many as are remembered.
pub open spec fn pushed(list: Seq<Seq<char>>, p: Seq<char>) -> Seq<Seq<char>> {
    at_most(seq![p] + others(list, p), MAX_RECENT as int)
}

/// The numbered form of a name.
pub open spec fn numbered(base: Seq<char>, n: nat) -> Seq<char> {
    base + "-"@ + text::decimal_chars(n)
}

/// The least number from `n` on, below the limit, whose name is free.
pub open spec fn free_number<M>(machines: Seq<(Seq<char>, M)>, base: Seq<char>, n: nat) -> Option<nat>
    decreases NAME_LIMIT - n,
{
    if n >= NAME_LIMIT {
        None
    } else if table::lookup(machines, numbered(base, n)) is None {
        Some(n)
    } else {
        free_number(machines, base, n + 1)
    }
}

/// A name for a new machine: `base` where it is free, else `base-2`, `base-3` and
/// so on, else `base` with `fallback`.
pub open spec fn fresh_name<M>(machines: Seq<(Seq<char>, M)>, base: Seq<char>, fallback: Seq<char>) -> Seq<char> {
    if table::lookup(machines, base) is None {
        base
    } else {
        match free_number(machines, base, 2) {
            Some(n) => numbered(base, n),
            None => base + "-"@ + fallback,
        }
    }
}

/// A text that differs from one call to the next: the time in nanoseconds.
pub fn uuid_like() -> (r: String)
    ensures
        exists|n: nat| r@ == #[trigger] text::decimal_chars(n),
{
    let n: u128 = clock::unix_nanos();
    let r = text::decimal(n);
    assert(r@ == text::decimal_chars(n as nat));
    r
}

impl<M> GuiSettings<M> {
    /// The settings before anything was chosen.
    pub fn new() -> (r: Self)
        ensures
            !r.fullscreen,
            r.machines.model().len() == 0,
            r.active_machine is None,
            r.recent_configs@.len() == 0,
            r.last_config is None,
    {
        GuiSettings {
            fullscreen: false,
            machines: Table::new(),
            active_machine: None,
            recent_configs: Vec::new(),
            last_config: None,
        }
    }

    /// Where the settings are kept, below the directory for configuration.
    pub fn config_path(config_dir: Option<&str>) -> (r: Option<String>)
        ensures
            match (config_dir, r) {
                (Some(d), Some(p)) => p@ == path::joined(path::joined(d@, "iris"@), "gui.json"@),
                (None, None) => true,
                _ => false,
            },
    {
        match config_dir {
            Some(d) => {
                let dir = path::join(d, "iris");
                Some(path::join(dir.as_str(), "gui.json"))
            },
            None => None,
        }
    }

    /// Remembers a configuration file as the last one used.
    pub fn push_recent(&mut self, path: String)
        ensures
            text::texts(final(self).recent_configs@) == pushed(text::texts(old(self).recent_configs@), path@),
            final(self).last_config is Some,
            final(self).last_config->0@ == path@,
            final(self).fullscreen == old(self).fullscreen,
            final(self).machines == old(self).machines,
            final(self).active_machine == old(self).active_machine,
    {
        let ghost list = text::texts(self.recent_configs@);
        let mut next: Vec<String> = Vec::new();
        next.push(path.clone());
        let mut i: usize = 0;
        assert(list.take(0) =~= seq![]);
        assert(text::texts(next@) =~= seq![path@] + others(list.take(0), path@));
        while i < self.recent_configs.len()
            invariant
                i <= self.recent_configs.len(),
                list == text::texts(self.recent_configs@),
                text::texts(next@) == seq![path@] + others(list.take(i as int), path@),
            decreases self.recent_configs.len() - i,
        {
            proof {
                assert(list.take(i + 1).drop_last() =~= list.take(i as int));
                assert(list.take(i + 1).last() == self.recent_configs@[i as int]@);
            }
            if !path::same_path(self.recent_configs[i].as_str(), path.as_str()) {
                let ghost had = text::texts(next@);
                next.push(self.recent_configs[i].clone());
                assert(text::texts(next@) =~= had.push(list[i as int]));
                assert(text::texts(next@) =~= seq![path@] + others(list.take(i + 1), path@));
            }
            i += 1;
        }
        assert(list.take(i as int) =~= list);
        let ghost whole = text::texts(next@);
        if next.len() > MAX_RECENT {
            next.truncate(MAX_RECENT);
            assert(text::texts(next@) =~= whole.take(MAX_RECENT as int));
        }
        self.recent_configs = next;
        self.last_config = Some(path);
    }

    /// A name for a new machine, given a text to fall back on.
    pub fn unique_name_or(&self, base: &str, fallback: &str) -> (r: String)
        ensures
            r@ == fresh_name(self.machines.model(), base@, fallback@),
    {
        if !self.machines.contains_key(base) {
            return base.to_owned();
        }
        let mut n: u128 = 2;
        while n < NAME_LIMIT
            invariant
                2 <= n <= NAME_LIMIT,
                table::lookup(self.machines.model(), base@) is Some,
                free_number(self.machines.model(), base@, 2) == free_number(self.machines.model(), base@, n as nat),
            decreases NAME_LIMIT - n,
        {
            let mut candidate = base.to_owned();
            candidate.append("-");
            candidate.append(text::decimal(n).as_str());
            if !self.machines.contains_key(candidate.as_str()) {
                return candidate;
            }
            n += 1;
        }
        let mut r = base.to_owned();
        r.append("-");
        r.append(fallback);
        r
    }

    /// A name for a new machine: a free one like `indy`, `indy-2`, `indy-3`.
    pub fn unique_name(&self, base: &str) -> (r: String)
        ensures
            exists|n: nat| r@ == fresh_name(self.machines.model(), base@, #[trigger] text::decimal_chars(n)),
    {
        let fallback = uuid_like();
        let r = self.unique_name_or(base, fallback.as_str());
        r
    }
}

proof fn lemma_others(list: Seq<Seq<char>>, p: Seq<char>)
    ensures
        others(list, p).len() <= list.len(),
        forall|i: int|
            0 <= i < others(list, p).len() ==> !path::same_components(#[trigger] others(list, p)[i], p) && list.contains(
                others(list, p)[i],
            ),
    decreases list.len(),
{
    if list.len() > 0 {
        let front = list.drop_last();
        lemma_others(front, p);
        assert forall|i: int| 0 <= i < others(list, p).len() implies !path::same_components(
            #[trigger] others(list, p)[i],
            p,
        ) && list.contains(others(list, p)[i]) by {
            if i < others(front, p).len() {
                let q = others(front, p)[i];
                assert(front.contains(q));
                let k = choose|k: int| 0 <= k < front.len() && front[k] == q;
                assert(list[k] == q);
            } else {
                assert(list[list.len() - 1] == list.last());
            }
        }
    }
}

/// Where nothing in a list leads where `p` does, all of it stays.
proof fn lemma_others_all(list: Seq<Seq<char>>, p: Seq<char>)
    requires
        forall|i: int| 0 <= i < list.len() ==> !path::same_components(#[trigger] list[i], p),
    ensures
        others(list, p) == list,
    decreases list.len(),
{
    if list.len() > 0 {
        let front = list.drop_last();
        assert forall|i: int| 0 <= i < front.len() implies !path::same_components(#[trigger] front[i], p) by {
            assert(front[i] == list[i]);
        }
        lemma_others_all(front, p);
        assert(!path::same_components(list[list.len() - 1], p));
        assert(front.push(list.last()) =~= list);
    } else {
        assert(list =~= seq![]);
    }
}

/// The newest path comes first, no more than ten are remembered, and no other
/// leads where the newest does.
pub proof fn law_recent_newest_first(list: Seq<Seq<char>>, p: Seq<char>)
    ensures
        1 <= pushed(list, p).len() <= MAX_RECENT,
        pushed(list, p)[0] == p,
        forall|i: int| 1 <= i < pushed(list, p).len() ==> !path::same_components(#[trigger] pushed(list, p)[i], p),
{
    lemma_others(list, p);
    assert forall|i: int| 1 <= i < pushed(list, p).len() implies !path::same_components(
        #[trigger] pushed(list, p)[i],
        p,
    ) by {
        assert(pushed(list, p)[i] == others(list, p)[i - 1]);
    }
}

/// Using the same path again changes nothing.
pub proof fn law_recent_again_changes_nothing(list: Seq<Seq<char>>, p: Seq<char>)
    ensures
        pushed(pushed(list, p), p) == pushed(list, p),
{
    let l = pushed(list, p);
    law_recent_newest_first(list, p);
    let rest = l.skip(1);
    assert forall|i: int| 0 <= i < rest.len() implies !path::same_components(#[trigger] rest[i], p) by {
        assert(rest[i] == l[i + 1]);
    }
    lemma_others_all(rest, p);
    lemma_others_split(p, rest);
    assert(l =~= seq![p] + rest);
    assert(seq![p] + others(l, p) =~= l);
}

/// A list that starts with `p` loses it.
proof fn lemma_others_split(p: Seq<char>, rest: Seq<Seq<char>>)
    ensures
        others(seq![p] + rest, p) == others(rest, p),
    decreases rest.len(),
{
    let l = seq![p] + rest;
    if rest.len() == 0 {
        assert(l.drop_last() =~= seq![]);
        assert(others(l.drop_last(), p) =~= seq![]);
    } else {
        assert(l.drop_last() =~= seq![p] + rest.drop_last());
        lemma_others_split(p, rest.drop_last());
    }
}

/// Whether no two paths of a list lead to one place.
pub open spec fn all_differ(list: Seq<Seq<char>>) -> bool {
    forall|i: int, j: int|
        0 <= i < j < list.len() ==> !path::same_components(#[trigger] list[i], #[trigger] list[j])
}

/// A list without two paths to one place stays one.
pub proof fn law_recent_stays_without_repeats(list: Seq<Seq<char>>, p: Seq<char>)
    requires
        all_differ(list),
    ensures
        all_differ(pushed(list, p)),
{
    lemma_others_differ(list, p);
    lemma_others(list, p);
    let l = pushed(list, p);
    let o = others(list, p);
    assert forall|i: int, j: int| 0 <= i < j < l.len() implies !path::same_components(
        #[trigger] l[i],
        #[trigger] l[j],
    ) by {
        assert(l[j] == o[j - 1]);
        if i == 0 {
            assert(path::same_components(l[j], p) == path::same_components(p, l[j]));
        } else {
            assert(l[i] == o[i - 1]);
        }
    }
}

proof fn lemma_others_differ(list: Seq<Seq<char>>, p: Seq<char>)
    requires
        all_differ(list),
    ensures
        all_differ(others(list, p)),
    decreases list.len(),
{
    if list.len() > 0 {
        let front = list.drop_last();
        assert forall|i: int, j: int| 0 <= i < j < front.len() implies !path::same_components(
            #[trigger] front[i],
            #[trigger] front[j],
        ) by {
            assert(front[i] == list[i] && front[j] == list[j]);
        }
        lemma_others_differ(front, p);
        lemma_others(front, p);
        let o = others(list, p);
        assert forall|i: int, j: int| 0 <= i < j < o.len() implies !path::same_components(
            #[trigger] o[i],
            #[trigger] o[j],
        ) by {
            let f = others(front, p);
            assert(o[i] == f[i]);
            if j < f.len() {
                assert(o[j] == f[j]);
            } else {
                assert(front.contains(f[i]));
                let k = choose|k: int| 0 <= k < front.len() && front[k] == f[i];
                assert(list[k] == f[i] && list[list.len() - 1] == o[j]);
            }
        }
    }
}

proof fn lemma_free_number<M>(machines: Seq<(Seq<char>, M)>, base: Seq<char>, n: nat, k: nat)
    requires
        n <= k < NAME_LIMIT,
        table::lookup(machines, numbered(base, k)) is None,
    ensures
        free_number(machines, base, n) is Some,
    decreases k - n,
{
    if n < k {
        if table::lookup(machines, numbered(base, n)) is Some {
            lemma_free_number(machines, base, n + 1, k);
        }
    }
}

proof fn lemma_free_number_is_free<M>(machines: Seq<(Seq<char>, M)>, base: Seq<char>, n: nat)
    ensures
        match free_number(machines, base, n) {
            Some(k) => table::lookup(machines, numbered(base, k)) is None,
            None => true,
        },
    decreases NAME_LIMIT - n,
{
    if n < NAME_LIMIT {
        lemma_free_number_is_free(machines, base, n + 1);
    }
}

/// As long as the base name or one of its numbered forms is free, the name given
/// is no machine's.
pub proof fn law_fresh_name_is_free<M>(
    machines: Seq<(Seq<char>, M)>,
    base: Seq<char>,
    fallback: Seq<char>,
    k: nat,
)
    requires
        table::lookup(machines, base) is None || (2 <= k < NAME_LIMIT && table::lookup(machines, numbered(base, k))
            is None),
    ensures
        table::lookup(machines, fresh_name(machines, base, fallback)) is None,
{
    if table::lookup(machines, base) is Some {
        lemma_free_number(machines, base, 2, k);
        lemma_free_number_is_free(machines, base, 2);
    }
}

/// Of a list of recent paths, the newest comes first and the others keep their order: those
/// that lead elsewhere, as many as there is room for behind it.
pub proof fn law_recent_keeps_the_order(list: Seq<Seq<char>>, p: Seq<char>, q: Seq<char>, i: int)
    ensures
        others(seq![], p).len() == 0,
        path::components(q) == path::components(p) ==> others(list.push(q), p) == others(list, p),
        path::components(q) != path::components(p) ==> others(list.push(q), p) == others(list, p).push(q),
        others(list, p).len() < 10 ==> pushed(list, p).len() == others(list, p).len() + 1,
        others(list, p).len() >= 10 ==> pushed(list, p).len() == 10,
        pushed(list, p)[0] == p,
        1 <= i < pushed(list, p).len() ==> pushed(list, p)[i] == others(list, p)[i - 1],
{
    assert(list.push(q).drop_last() =~= list);
}

/// A path that leads where none of up to nine others does comes before all of them.
pub proof fn law_new_recent_path(list: Seq<Seq<char>>, p: Seq<char>)
    requires
        list.len() <= 9,
        forall|i: int| 0 <= i < list.len() ==> path::components(#[trigger] list[i]) != path::components(p),
    ensures
        pushed(list, p) == seq![p] + list,
{
    assert forall|i: int| 0 <= i < list.len() implies !path::same_components(#[trigger] list[i], p) by {
        assert(path::components(list[i]) != path::components(p));
    }
    lemma_others_all(list, p);
}

proof fn lemma_first_free_number<M>(machines: Seq<(Seq<char>, M)>, base: Seq<char>, n: nat, k: nat)
    requires
        n <= k <= NAME_LIMIT,
        forall|j: nat| n <= j < k ==> table::lookup(machines, #[trigger] numbered(base, j)) is Some,
        k < NAME_LIMIT ==> table::lookup(machines, numbered(base, k)) is None,
    ensures
        k < NAME_LIMIT ==> free_number(machines, base, n) == Some(k),
        k == NAME_LIMIT ==> free_number(machines, base, n) is None,
    decreases k - n,
{
    if n < k {
        assert(table::lookup(machines, numbered(base, n)) is Some);
        lemma_first_free_number(machines, base, n + 1, k);
    }
}

/// A base name that no machine has is taken as it is. Else it gets a dash and the least
/// number from 2 to 999 with which it is free, and the text to fall back on where there is
/// none.
pub proof fn law_least_free_name<M>(
    machines: Seq<(Seq<char>, M)>,
    base: Seq<char>,
    fallback: Seq<char>,
    k: nat,
)
    requires
        2 <= k <= 1000,
        forall|j: nat| 2 <= j < k ==> table::lookup(machines, #[trigger] numbered(base, j)) is Some,
        k < 1000 ==> table::lookup(machines, base + "-"@ + text::decimal_chars(k)) is None,
    ensures
        table::lookup(machines, base) is None ==> fresh_name(machines, base, fallback) == base,
        table::lookup(machines, base) is Some && k < 1000 ==> fresh_name(machines, base, fallback) == base + "-"@
            + text::decimal_chars(k),
        table::lookup(machines, base) is Some && k == 1000 ==> fresh_name(machines, base, fallback) == base + "-"@
            + fallback,
{
    assert(numbered(base, k) == base + "-"@ + text::decimal_chars(k));
    lemma_first_free_number(machines, base, 2, k);
}

/// The numbered form of a name is the name, a dash and the number.
pub proof fn law_numbered_names(base: Seq<char>, n: nat)
    ensures
        numbered(base, n) == base + "-"@ + text::decimal_chars(n),
{
}

}
