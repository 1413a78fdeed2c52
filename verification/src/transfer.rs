//! What the scripts move between the machine, the snapshot on disk and the checkpoint in
//! memory.
use crate::ops;
use crate::ops::{Device, Equipment, Op};
use vstd::prelude::*;

verus! {

/// A piece of the state of the machine.
pub enum Piece {
    State(Device),
    Bank(u8),
    Framebuffers,
    Overlays,
}

/// The pieces that the machine holds, those of the snapshot, and those kept in memory.
/// `fresh` are the ones that a machine has when the power comes on.
pub struct Store<X> {
    pub live: spec_fn(Piece) -> X,
    pub disk: spec_fn(Piece) -> X,
    pub kept: spec_fn(Piece) -> X,
    pub fresh: spec_fn(Piece) -> X,
}

/// The piece that an operation writes to the snapshot, if any.
pub open spec fn saves(op: Op) -> Option<Piece> {
    match op {
        Op::SaveState(d) => Some(Piece::State(d)),
        Op::SaveBank(b) => Some(Piece::Bank(b)),
        Op::SaveFramebuffers => Some(Piece::Framebuffers),
        Op::ExportOverlays => Some(Piece::Overlays),
        _ => None,
    }
}

/// The piece that an operation gives the machine from the snapshot, if any.
pub open spec fn loads(op: Op) -> Option<Piece> {
    match op {
        Op::LoadState(d) => Some(Piece::State(d)),
        Op::LoadBank(b) => Some(Piece::Bank(b)),
        Op::LoadFramebuffers => Some(Piece::Framebuffers),
        Op::ImportOverlays => Some(Piece::Overlays),
        _ => None,
    }
}

/// The piece that an operation takes into memory, if any.
pub open spec fn takes(op: Op) -> Option<Piece> {
    match op {
        Op::TakeState(d) => Some(Piece::State(d)),
        Op::TakeBank(b) => Some(Piece::Bank(b)),
        Op::TakeFramebuffers => Some(Piece::Framebuffers),
        _ => None,
    }
}

/// The piece that an operation gives the machine back from memory, if any.
pub open spec fn puts(op: Op) -> Option<Piece> {
    match op {
        Op::PutState(d) => Some(Piece::State(d)),
        Op::PutBank(b) => Some(Piece::Bank(b)),
        Op::PutFramebuffers => Some(Piece::Framebuffers),
        _ => None,
    }
}

/// Whether an operation brings a piece to what it is when the power comes on.
pub open spec fn freshens(op: Op, p: Piece) -> bool {
    match op {
        Op::PowerOn(d) => p == Piece::State(d),
        Op::ResetMemory => p is Bank,
        _ => false,
    }
}

/// One piece replaced.
pub open spec fn with_piece<X>(f: spec_fn(Piece) -> X, p: Piece, x: X) -> spec_fn(Piece) -> X {
    |q: Piece|
        if q == p {
            x
        } else {
            f(q)
        }
}

impl<X> Store<X> {
    /// The pieces after an operation.
    pub open spec fn after(self, op: Op) -> Store<X> {
        let live = match (loads(op), puts(op)) {
            (Some(p), _) => with_piece(self.live, p, (self.disk)(p)),
            (None, Some(p)) => with_piece(self.live, p, (self.kept)(p)),
            (None, None) => |q: Piece|
                if freshens(op, q) {
                    (self.fresh)(q)
                } else {
                    (self.live)(q)
                },
        };
        let disk = match saves(op) {
            Some(p) => with_piece(self.disk, p, (self.live)(p)),
            None => self.disk,
        };
        let kept = match takes(op) {
            Some(p) => with_piece(self.kept, p, (self.live)(p)),
            None => self.kept,
        };
        Store { live, disk, kept, fresh: self.fresh }
    }

    /// The pieces after a script.
    pub open spec fn after_all(self, script: Seq<Op>) -> Store<X>
        decreases script.len(),
    {
        if script.len() == 0 {
            self
        } else {
            self.after_all(script.drop_last()).after(script.last())
        }
    }
}

/// Whether an operation changes a piece of the machine.
pub open spec fn changes(op: Op, p: Piece) -> bool {
    loads(op) == Some(p) || puts(op) == Some(p) || freshens(op, p)
}

/// Whether a piece is one that the machine has.
pub open spec fn has_piece(e: Equipment, p: Piece) -> bool {
    match p {
        Piece::State(d) => e.devices().contains(d),
        Piece::Bank(b) => b < 4,
        Piece::Framebuffers => e.display,
        Piece::Overlays => true,
    }
}

proof fn lemma_after_concat<X>(s: Store<X>, a: Seq<Op>, b: Seq<Op>)
    ensures
        s.after_all(a + b) == s.after_all(a).after_all(b),
    decreases b.len(),
{
    if b.len() == 0 {
        assert(a + b =~= a);
    } else {
        assert((a + b).drop_last() =~= a + b.drop_last());
        lemma_after_concat(s, a, b.drop_last());
    }
}

/// A piece of the machine stays what it is as long as no operation changes it.
proof fn lemma_live_stays<X>(s: Store<X>, script: Seq<Op>, p: Piece)
    requires
        forall|i: int| 0 <= i < script.len() ==> !changes(#[trigger] script[i], p),
    ensures
        (s.after_all(script).live)(p) == (s.live)(p),
    decreases script.len(),
{
    if script.len() > 0 {
        let front = script.drop_last();
        assert forall|i: int| 0 <= i < front.len() implies !changes(#[trigger] front[i], p) by {
            assert(front[i] == script[i]);
        }
        lemma_live_stays(s, front, p);
        assert(!changes(script[script.len() - 1], p));
    }
}

/// A piece of the snapshot stays what it is as long as no operation writes it.
proof fn lemma_disk_stays<X>(s: Store<X>, script: Seq<Op>, p: Piece)
    requires
        forall|i: int| 0 <= i < script.len() ==> saves(#[trigger] script[i]) != Some(p),
    ensures
        (s.after_all(script).disk)(p) == (s.disk)(p),
    decreases script.len(),
{
    if script.len() > 0 {
        let front = script.drop_last();
        assert forall|i: int| 0 <= i < front.len() implies saves(#[trigger] front[i]) != Some(p) by {
            assert(front[i] == script[i]);
        }
        lemma_disk_stays(s, front, p);
        assert(saves(script[script.len() - 1]) != Some(p));
    }
}

/// A piece in memory stays what it is as long as no operation takes it.
proof fn lemma_kept_stays<X>(s: Store<X>, script: Seq<Op>, p: Piece)
    requires
        forall|i: int| 0 <= i < script.len() ==> takes(#[trigger] script[i]) != Some(p),
    ensures
        (s.after_all(script).kept)(p) == (s.kept)(p),
    decreases script.len(),
{
    if script.len() > 0 {
        let front = script.drop_last();
        assert forall|i: int| 0 <= i < front.len() implies takes(#[trigger] front[i]) != Some(p) by {
            assert(front[i] == script[i]);
        }
        lemma_kept_stays(s, front, p);
        assert(takes(script[script.len() - 1]) != Some(p));
    }
}

/// A script split at one of its operations.
proof fn lemma_split_at(script: Seq<Op>, k: int)
    requires
        0 <= k < script.len(),
    ensures
        script == script.take(k) + seq![script[k]] + script.skip(k + 1),
{
    assert(script =~= script.take(k) + seq![script[k]] + script.skip(k + 1));
}

/// A script that changes no piece of the machine but once saves this one: the snapshot
/// then has what the machine has.
proof fn lemma_saved<X>(s: Store<X>, script: Seq<Op>, p: Piece, k: int)
    requires
        0 <= k < script.len(),
        saves(script[k]) == Some(p),
        forall|i: int| 0 <= i < script.len() ==> !changes(#[trigger] script[i], p),
        forall|i: int| k < i < script.len() ==> saves(#[trigger] script[i]) != Some(p),
    ensures
        (s.after_all(script).disk)(p) == (s.live)(p),
{
    let (a, b) = (script.take(k), script.skip(k + 1));
    lemma_split_at(script, k);
    assert forall|i: int| 0 <= i < a.len() implies !changes(#[trigger] a[i], p) by {
        assert(a[i] == script[i]);
    }
    assert forall|i: int| 0 <= i < b.len() implies saves(#[trigger] b[i]) != Some(p) by {
        assert(b[i] == script[i + k + 1]);
    }
    lemma_live_stays(s, a, p);
    lemma_after_concat(s, a + seq![script[k]], b);
    assert((a + seq![script[k]]).drop_last() =~= a);
    lemma_disk_stays(s.after_all(a + seq![script[k]]), b, p);
}

/// A script that takes this piece once and changes it never.
proof fn lemma_taken<X>(s: Store<X>, script: Seq<Op>, p: Piece, k: int)
    requires
        0 <= k < script.len(),
        takes(script[k]) == Some(p),
        forall|i: int| 0 <= i < script.len() ==> !changes(#[trigger] script[i], p),
        forall|i: int| k < i < script.len() ==> takes(#[trigger] script[i]) != Some(p),
    ensures
        (s.after_all(script).kept)(p) == (s.live)(p),
{
    let (a, b) = (script.take(k), script.skip(k + 1));
    lemma_split_at(script, k);
    assert forall|i: int| 0 <= i < a.len() implies !changes(#[trigger] a[i], p) by {
        assert(a[i] == script[i]);
    }
    assert forall|i: int| 0 <= i < b.len() implies takes(#[trigger] b[i]) != Some(p) by {
        assert(b[i] == script[i + k + 1]);
    }
    lemma_live_stays(s, a, p);
    lemma_after_concat(s, a + seq![script[k]], b);
    assert((a + seq![script[k]]).drop_last() =~= a);
    lemma_kept_stays(s.after_all(a + seq![script[k]]), b, p);
}

/// A script that saves nothing and whose last change of this piece is a load.
proof fn lemma_loaded<X>(s: Store<X>, script: Seq<Op>, p: Piece, k: int)
    requires
        0 <= k < script.len(),
        loads(script[k]) == Some(p),
        forall|i: int| 0 <= i < script.len() ==> saves(#[trigger] script[i]) is None,
        forall|i: int| k < i < script.len() ==> !changes(#[trigger] script[i], p),
    ensures
        (s.after_all(script).live)(p) == (s.disk)(p),
{
    let (a, b) = (script.take(k), script.skip(k + 1));
    lemma_split_at(script, k);
    assert forall|i: int| 0 <= i < a.len() implies saves(#[trigger] a[i]) != Some(p) by {
        assert(a[i] == script[i]);
    }
    assert forall|i: int| 0 <= i < b.len() implies !changes(#[trigger] b[i], p) by {
        assert(b[i] == script[i + k + 1]);
    }
    lemma_disk_stays(s, a, p);
    lemma_after_concat(s, a + seq![script[k]], b);
    assert((a + seq![script[k]]).drop_last() =~= a);
    lemma_live_stays(s.after_all(a + seq![script[k]]), b, p);
}

/// A script that takes nothing and whose last change of this piece puts it back.
proof fn lemma_put_back<X>(s: Store<X>, script: Seq<Op>, p: Piece, k: int)
    requires
        0 <= k < script.len(),
        puts(script[k]) == Some(p),
        forall|i: int| 0 <= i < script.len() ==> takes(#[trigger] script[i]) is None,
        forall|i: int| k < i < script.len() ==> !changes(#[trigger] script[i], p),
    ensures
        (s.after_all(script).live)(p) == (s.kept)(p),
{
    let (a, b) = (script.take(k), script.skip(k + 1));
    lemma_split_at(script, k);
    assert forall|i: int| 0 <= i < a.len() implies takes(#[trigger] a[i]) != Some(p) by {
        assert(a[i] == script[i]);
    }
    assert forall|i: int| 0 <= i < b.len() implies !changes(#[trigger] b[i], p) by {
        assert(b[i] == script[i + k + 1]);
    }
    lemma_kept_stays(s, a, p);
    lemma_after_concat(s, a + seq![script[k]], b);
    assert((a + seq![script[k]]).drop_last() =~= a);
    lemma_live_stays(s.after_all(a + seq![script[k]]), b, p);
}

/// Where a piece stands among those that a save writes and a load reads.
spec fn state_index(e: Equipment, p: Piece) -> int {
    let n = e.devices().len() as int;
    let fb: int = if e.display {
        1
    } else {
        0
    };
    match p {
        Piece::State(d) => e.devices().index_of(d),
        Piece::Framebuffers => n,
        Piece::Bank(b) => n + fb + b,
        Piece::Overlays => -1,
    }
}

/// Where a piece stands among those that a checkpoint takes and gives back.
spec fn kept_index(e: Equipment, p: Piece) -> int {
    let n = e.devices().len() as int;
    match p {
        Piece::State(d) => e.devices().index_of(d),
        Piece::Bank(b) => n + b,
        Piece::Framebuffers => n + 4,
        Piece::Overlays => -1,
    }
}

proof fn lemma_device_index(e: Equipment, d: Device)
    requires
        e.devices().contains(d),
    ensures
        0 <= e.devices().index_of(d) < e.devices().len(),
        e.devices()[e.devices().index_of(d)] == d,
        forall|i: int| 0 <= i < e.devices().len() && #[trigger] e.devices()[i] == d ==> i == e.devices().index_of(d),
{
    let k = choose|k: int| 0 <= k < e.devices().len() && e.devices()[k] == d;
    assert(e.devices()[k] == d);
    assert(forall|i: int, j: int|
        0 <= i < e.devices().len() && 0 <= j < e.devices().len() && i != j ==> e.devices()[i] != e.devices()[j]);
}

/// The states, framebuffers and banks of a script, each piece once.
proof fn lemma_save_states(e: Equipment, p: Piece)
    requires
        has_piece(e, p),
        p != Piece::Overlays,
    ensures
        0 <= state_index(e, p) < e.save_state_script().len(),
        saves(e.save_state_script()[state_index(e, p)]) == Some(p),
        forall|i: int|
            0 <= i < e.save_state_script().len() && i != state_index(e, p) ==> saves(
                #[trigger] e.save_state_script()[i],
            ) != Some(p),
        forall|i: int| 0 <= i < e.save_state_script().len() ==> !changes(#[trigger] e.save_state_script()[i], p),
{
    if let Piece::State(d) = p {
        lemma_device_index(e, d);
    }
}

proof fn lemma_load_states(e: Equipment, p: Piece)
    requires
        has_piece(e, p),
        p != Piece::Overlays,
    ensures
        0 <= state_index(e, p) < e.load_state_script().len(),
        loads(e.load_state_script()[state_index(e, p)]) == Some(p),
        forall|i: int|
            0 <= i < e.load_state_script().len() && i != state_index(e, p) ==> !changes(
                #[trigger] e.load_state_script()[i],
                p,
            ),
        forall|i: int| 0 <= i < e.load_state_script().len() ==> saves(#[trigger] e.load_state_script()[i]) is None,
{
    if let Piece::State(d) = p {
        lemma_device_index(e, d);
    }
}

proof fn lemma_take_states(e: Equipment, p: Piece)
    requires
        has_piece(e, p),
        p != Piece::Overlays,
    ensures
        0 <= kept_index(e, p) < e.take_script().len(),
        takes(e.take_script()[kept_index(e, p)]) == Some(p),
        forall|i: int|
            0 <= i < e.take_script().len() && i != kept_index(e, p) ==> takes(#[trigger] e.take_script()[i]) != Some(p),
        forall|i: int| 0 <= i < e.take_script().len() ==> !changes(#[trigger] e.take_script()[i], p),
{
    if let Piece::State(d) = p {
        lemma_device_index(e, d);
    }
}

proof fn lemma_put_states(e: Equipment, p: Piece)
    requires
        has_piece(e, p),
        p != Piece::Overlays,
    ensures
        0 <= kept_index(e, p) < e.put_script().len(),
        puts(e.put_script()[kept_index(e, p)]) == Some(p),
        forall|i: int|
            0 <= i < e.put_script().len() && i != kept_index(e, p) ==> !changes(#[trigger] e.put_script()[i], p),
        forall|i: int| 0 <= i < e.put_script().len() ==> takes(#[trigger] e.put_script()[i]) is None,
{
    if let Piece::State(d) = p {
        lemma_device_index(e, d);
    }
}

/// Saving leaves the machine's own state as it is, and the snapshot then has every
/// piece of it.
pub proof fn law_save_captures_the_machine<X>(e: Equipment, s: Store<X>, p: Piece)
    requires
        has_piece(e, p),
    ensures
        (s.after_all(e.save_script()).disk)(p) == (s.live)(p),
        (s.after_all(e.save_script()).live)(p) == (s.live)(p),
{
    let script = e.save_script();
    let at = e.stop_script().len() + 2;
    let states = e.save_state_script();
    let stop = e.stop_script();
    let start = e.resume_script();
    assert forall|i: int| 0 <= i < script.len() implies !changes(#[trigger] script[i], p) && (saves(script[i]) is Some
        ==> at <= i <= at + states.len()) by {
        if i < stop.len() {
            assert(script[i] == stop[i]);
        } else if at <= i < at + states.len() {
            assert(script[i] == states[i - at]);
            assert(!changes(states[i - at], p));
        } else if i >= at + states.len() + 2 {
            assert(script[i] == start[i - at - states.len() - 2]);
        }
    }
    assert(script[(at + states.len()) as int] == Op::ExportOverlays);
    if p == Piece::Overlays {
        lemma_saved(s, script, p, (at + states.len()) as int);
    } else {
        lemma_save_states(e, p);
        let k = at + state_index(e, p);
        assert(script[k] == states[state_index(e, p)]);
        assert forall|i: int| k < i < script.len() implies saves(#[trigger] script[i]) != Some(p) by {
            if i < at + states.len() {
                assert(script[i] == states[i - at]);
            }
        }
        lemma_saved(s, script, p, k);
    }
    lemma_live_stays(s, script, p);
}

/// Loading gives the machine every piece of the snapshot, whatever it held before.
pub proof fn law_load_restores_the_snapshot<X>(e: Equipment, s: Store<X>, p: Piece)
    requires
        has_piece(e, p),
    ensures
        (s.after_all(e.load_script()).live)(p) == (s.disk)(p),
        (s.after_all(e.load_script()).disk)(p) == (s.disk)(p),
{
    let script = e.load_script();
    let stop = e.stop_script();
    let power = e.power_on_script();
    let states = e.load_state_script();
    let start = e.resume_script();
    let at = stop.len() + power.len() + 1;
    assert(script[(at + states.len() + 1) as int] == Op::ImportOverlays);
    assert forall|i: int| 0 <= i < script.len() implies saves(#[trigger] script[i]) is None && (i >= at
        + states.len() + 2 ==> !changes(script[i], p)) by {
        if i < stop.len() {
            assert(script[i] == stop[i]);
        } else if i < stop.len() + power.len() {
            assert(script[i] == power[i - stop.len()]);
        } else if at <= i < at + states.len() {
            assert(script[i] == states[i - at]);
            assert(saves(states[i - at]) is None);
        } else if i >= at + states.len() + 2 {
            assert(script[i] == start[i - at - states.len() - 2]);
        }
    }
    if p == Piece::Overlays {
        lemma_loaded(s, script, p, (at + states.len() + 1) as int);
    } else {
        lemma_load_states(e, p);
        let k = at + state_index(e, p);
        assert(script[k] == states[state_index(e, p)]);
        assert forall|i: int| k < i < script.len() implies !changes(#[trigger] script[i], p) by {
            if i < at + states.len() {
                assert(script[i] == states[i - at]);
            } else if i < at + states.len() + 2 {
                assert(script[i] == Op::ReadCow || script[i] == Op::ImportOverlays);
            }
        }
        lemma_loaded(s, script, p, k);
    }
    lemma_disk_stays(s, script, p);
}

/// What was saved is what a later load gives back, whatever the machine did in between,
/// as long as the snapshot is left alone.
pub proof fn law_load_gives_back_what_was_saved<X>(e: Equipment, s: Store<X>, later: Store<X>, p: Piece)
    requires
        has_piece(e, p),
        (later.disk)(p) == (s.after_all(e.save_script()).disk)(p),
    ensures
        (later.after_all(e.load_script()).live)(p) == (s.live)(p),
{
    law_save_captures_the_machine(e, s, p);
    law_load_restores_the_snapshot(e, later, p);
}

/// A checkpoint has every piece of the machine but the overlays, which stay in the
/// snapshot, and leaves the machine as it is.
pub proof fn law_capture_takes_the_machine<X>(e: Equipment, s: Store<X>, p: Piece)
    requires
        has_piece(e, p),
    ensures
        p != Piece::Overlays ==> (s.after_all(e.capture_script()).kept)(p) == (s.live)(p),
        (s.after_all(e.capture_script()).live)(p) == (s.live)(p),
        (s.after_all(e.capture_script()).disk)(p) == (s.disk)(p),
{
    let script = e.capture_script();
    let stop = e.stop_script();
    let states = e.take_script();
    let start = e.resume_script();
    let at = stop.len();
    assert forall|i: int| 0 <= i < script.len() implies !changes(#[trigger] script[i], p) && saves(script[i]) is None
        && (takes(script[i]) is Some ==> at <= i < at + states.len()) by {
        if i < at {
            assert(script[i] == stop[i]);
        } else if i < at + states.len() {
            assert(script[i] == states[i - at]);
        } else if i >= at + states.len() + 1 {
            assert(script[i] == start[i - at - states.len() - 1]);
        }
    }
    if p != Piece::Overlays {
        lemma_take_states(e, p);
        let k = at + kept_index(e, p);
        assert(script[k] == states[kept_index(e, p)]);
        assert forall|i: int| k < i < script.len() implies takes(#[trigger] script[i]) != Some(p) by {
            if i < at + states.len() {
                assert(script[i] == states[i - at]);
            }
        }
        lemma_taken(s, script, p, k);
    }
    lemma_live_stays(s, script, p);
    lemma_disk_stays(s, script, p);
}

/// Going back gives the machine every piece of the checkpoint, and the overlays of the
/// snapshot; the checkpoint stays, so that one can go back again.
pub proof fn law_rollback_restores_the_checkpoint<X>(e: Equipment, s: Store<X>, p: Piece)
    requires
        has_piece(e, p),
    ensures
        (s.after_all(e.rollback_script()).live)(p) == (if p == Piece::Overlays {
            (s.disk)(p)
        } else {
            (s.kept)(p)
        }),
        (s.after_all(e.rollback_script()).kept)(p) == (s.kept)(p),
        (s.after_all(e.rollback_script()).disk)(p) == (s.disk)(p),
{
    let script = e.rollback_script();
    let stop = e.stop_script();
    let power = e.power_on_script();
    let states = e.put_script();
    let start = e.resume_script();
    let at = stop.len() + power.len();
    assert(script[(at + states.len()) as int] == Op::ImportOverlays);
    assert forall|i: int| 0 <= i < script.len() implies takes(#[trigger] script[i]) is None && saves(
        script[i],
    ) is None && (i >= at + states.len() + 1 ==> !changes(script[i], p)) by {
        if i < stop.len() {
            assert(script[i] == stop[i]);
        } else if i < at {
            assert(script[i] == power[i - stop.len()]);
        } else if i < at + states.len() {
            assert(script[i] == states[i - at]);
        } else if i >= at + states.len() + 1 {
            assert(script[i] == start[i - at - states.len() - 1]);
        }
    }
    if p == Piece::Overlays {
        lemma_loaded(s, script, p, (at + states.len()) as int);
    } else {
        lemma_put_states(e, p);
        let k = at + kept_index(e, p);
        assert(script[k] == states[kept_index(e, p)]);
        assert forall|i: int| k < i < script.len() implies !changes(#[trigger] script[i], p) by {
            if i < at + states.len() {
                assert(script[i] == states[i - at]);
            }
        }
        lemma_put_back(s, script, p, k);
    }
    lemma_kept_stays(s, script, p);
    lemma_disk_stays(s, script, p);
}

/// A restore and a later rollback: the machine is back in the state that the snapshot
/// holds, whatever it did in between.
pub proof fn law_rollback_gives_back_the_snapshot<X>(e: Equipment, s: Store<X>, later: Store<X>, p: Piece)
    requires
        has_piece(e, p),
        (later.kept)(p) == (s.after_all(e.load_script()).after_all(e.capture_script()).kept)(p),
        (later.disk)(p) == (s.disk)(p),
    ensures
        (later.after_all(e.rollback_script()).live)(p) == (s.disk)(p),
{
    law_load_restores_the_snapshot(e, s, p);
    law_capture_takes_the_machine(e, s.after_all(e.load_script()), p);
    law_rollback_restores_the_checkpoint(e, later, p);
}

/// A reset brings every device and the memory to what they are when the power comes on.
pub proof fn law_reset_freshens_the_machine<X>(e: Equipment, s: Store<X>, p: Piece)
    requires
        has_piece(e, p),
    ensures
        (s.after_all(e.reset_script()).live)(p) == (if p is State || p is Bank {
            (s.fresh)(p)
        } else {
            (s.live)(p)
        }),
{
    let script = e.reset_script();
    let stop = e.stop_script();
    let power = e.power_on_script();
    let start = e.peripherals_script();
    assert forall|i: int| 0 <= i < script.len() implies loads(#[trigger] script[i]) is None && puts(
        script[i],
    ) is None && (i >= stop.len() + power.len() ==> !changes(script[i], p)) by {
        if i < stop.len() {
            assert(script[i] == stop[i]);
        } else if i < stop.len() + power.len() {
            assert(script[i] == power[i - stop.len()]);
        } else {
            assert(script[i] == start[i - stop.len() - power.len()]);
        }
    }
    lemma_freshened(s, script, p);
    let at = e.stop_script().len() as int;
    let hal2: int = if e.hal2 {
        1
    } else {
        0
    };
    match p {
        Piece::State(d) => {
            lemma_device_index(e, d);
            let k = e.devices().index_of(d);
            // The memory comes behind the CPU, the audio device before the last two.
            let j: int = if k == 0 {
                0
            } else if k < 10 {
                k + 1
            } else {
                k + 1 + hal2
            };
            assert(freshens(power[j], p));
            assert(script[at + j] == power[j]);
        },
        Piece::Bank(_) => {
            assert(freshens(power[1], p));
            assert(script[at + 1] == power[1]);
        },
        _ => {},
    }
}

/// A script without loads whose operations may only freshen a piece: it is fresh at the
/// end where one of them does.
proof fn lemma_freshened<X>(s: Store<X>, script: Seq<Op>, p: Piece)
    requires
        forall|i: int| 0 <= i < script.len() ==> loads(#[trigger] script[i]) is None && puts(script[i]) is None,
    ensures
        (s.after_all(script).live)(p) == (if exists|i: int|
            0 <= i < script.len() && freshens(#[trigger] script[i], p) {
            (s.fresh)(p)
        } else {
            (s.live)(p)
        }),
        s.after_all(script).fresh == s.fresh,
    decreases script.len(),
{
    if script.len() > 0 {
        let front = script.drop_last();
        assert forall|i: int| 0 <= i < front.len() implies loads(#[trigger] front[i]) is None && puts(front[i]) is None by {
            assert(front[i] == script[i]);
        }
        lemma_freshened(s, front, p);
        let last = script[script.len() - 1];
        assert(loads(last) is None && puts(last) is None);
        if exists|i: int| 0 <= i < front.len() && freshens(#[trigger] front[i], p) {
            let i = choose|i: int| 0 <= i < front.len() && freshens(#[trigger] front[i], p);
            assert(freshens(script[i], p));
        } else if exists|i: int| 0 <= i < script.len() && freshens(#[trigger] script[i], p) {
            let i = choose|i: int| 0 <= i < script.len() && freshens(#[trigger] script[i], p);
            if i < front.len() {
                assert(freshens(front[i], p));
            }
        }
    }
}

/// The pieces of a machine are the state of every device, the display only where there is
/// one, the four banks of memory, the framebuffers of a display, and the overlays.
pub proof fn law_pieces_of_a_machine(e: Equipment, d: Device, b: u8)
    ensures
        has_piece(e, Piece::State(d)) <==> (d != Device::Rex3 || e.display),
        has_piece(e, Piece::Bank(b)) <==> b <= 3,
        has_piece(e, Piece::Framebuffers) <==> e.display,
        has_piece(e, Piece::Overlays),
{
    ops::law_devices_of_a_machine(e, d);
}

}
