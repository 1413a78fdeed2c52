//! The operations on the parts of the machine, and the scripts made of them.
//!
//! A script is a list of operations that are carried out one after the other, up to
//! the first that fails.
use vstd::prelude::*;

verus! {

/// The parts of the machine that run on their own.
#[derive(Clone, Copy, Debug, PartialEq, Eq, Structural)]
pub enum Part {
    Cpu,
    Rex3,
    Hpc3,
    Mc,
}

/// The devices that have a state to save.
#[derive(Clone, Copy, Debug, PartialEq, Eq, Structural)]
pub enum Device {
    Cpu,
    Mc,
    Ioc,
    Scc,
    Pit,
    Ps2,
    Rtc,
    Eeprom,
    Scsi,
    Seeq,
    Hpc3,
    Rex3,
}

/// An operation on the machine or on a snapshot.
#[derive(Clone, Copy, Debug, PartialEq, Eq, Structural)]
pub enum Op {
    /// Empties the serial console.
    ResetSerial,
    Stop(Part),
    Start(Part),
    /// Serves the monitor.
    StartMonitor,
    PowerOn(Device),
    /// Powers the audio device on.
    PowerOnHal2,
    /// Clears the memory.
    ResetMemory,
    /// Makes the directory of the snapshot.
    EnsureDir,
    WriteManifest,
    ReadManifest,
    /// Writes the state of a device to the snapshot.
    SaveState(Device),
    /// Loads the state of a device from the snapshot.
    LoadState(Device),
    SaveFramebuffers,
    LoadFramebuffers,
    SaveBank(u8),
    LoadBank(u8),
    /// Copies the overlays of the disks to the snapshot.
    ExportOverlays,
    /// Copies the overlays of the disks from the snapshot.
    ImportOverlays,
    WriteCow,
    ReadCow,
    /// Takes the state of a device into memory.
    TakeState(Device),
    TakeBank(u8),
    TakeFramebuffers,
    /// Gives a device its state back from memory.
    PutState(Device),
    PutBank(u8),
    PutFramebuffers,
}

/// What the machine has: a display, and an audio device.
#[derive(Clone, Copy, Debug, PartialEq, Eq, Structural)]
pub struct Equipment {
    pub display: bool,
    pub hal2: bool,
}

/// `op`, where the machine has what it is for.
pub open spec fn only_if(present: bool, op: Op) -> Seq<Op> {
    if present {
        seq![op]
    } else {
        seq![]
    }
}

impl Equipment {
    /// The devices with a state, in the order in which they are saved and loaded.
    pub open spec fn devices(self) -> Seq<Device> {
        let base = seq![
            Device::Cpu,
            Device::Mc,
            Device::Ioc,
            Device::Scc,
            Device::Pit,
            Device::Ps2,
            Device::Rtc,
            Device::Eeprom,
            Device::Scsi,
            Device::Seeq,
            Device::Hpc3,
        ];
        if self.display {
            base.push(Device::Rex3)
        } else {
            base
        }
    }

    /// Stops everything, the CPU first.
    pub open spec fn stop_script(self) -> Seq<Op> {
        seq![Op::Stop(Part::Cpu)] + only_if(self.display, Op::Stop(Part::Rex3)) + seq![
            Op::Stop(Part::Hpc3),
            Op::Stop(Part::Mc),
        ]
    }

    /// Starts everything but the CPU.
    pub open spec fn peripherals_script(self) -> Seq<Op> {
        seq![Op::Start(Part::Mc), Op::Start(Part::Hpc3)] + only_if(self.display, Op::Start(Part::Rex3))
    }

    /// Starts everything, the CPU last.
    pub open spec fn resume_script(self) -> Seq<Op> {
        self.peripherals_script() + seq![Op::Start(Part::Cpu)]
    }

    /// Starts everything but the CPU, and the CPU where it is wanted.
    pub open spec fn unpause_script(self, cpu: bool) -> Seq<Op> {
        self.peripherals_script() + only_if(cpu, Op::Start(Part::Cpu))
    }

    /// Brings every device to the state that it has when the power comes on.
    pub open spec fn power_on_script(self) -> Seq<Op> {
        seq![
            Op::PowerOn(Device::Cpu),
            Op::ResetMemory,
            Op::PowerOn(Device::Mc),
            Op::PowerOn(Device::Ioc),
            Op::PowerOn(Device::Scc),
            Op::PowerOn(Device::Pit),
            Op::PowerOn(Device::Ps2),
            Op::PowerOn(Device::Rtc),
            Op::PowerOn(Device::Eeprom),
            Op::PowerOn(Device::Scsi),
            Op::PowerOn(Device::Seeq),
        ] + only_if(self.hal2, Op::PowerOnHal2) + seq![Op::PowerOn(Device::Hpc3)] + only_if(
            self.display,
            Op::PowerOn(Device::Rex3),
        )
    }

    /// Stops everything, powers it on, and starts all but the CPU.
    pub open spec fn reset_script(self) -> Seq<Op> {
        self.stop_script() + self.power_on_script() + self.peripherals_script()
    }

    /// Brings the machine up. Under the control socket there is no monitor, and the
    /// CPU waits to be started; so it does in a build that does not start it.
    pub open spec fn start_script(self, ci: bool, autostart: bool) -> Seq<Op> {
        self.peripherals_script() + only_if(!ci, Op::StartMonitor) + only_if(
            !ci && autostart,
            Op::Start(Part::Cpu),
        )
    }

    /// Saves the states, the framebuffers and the memory.
    pub open spec fn save_state_script(self) -> Seq<Op> {
        self.devices().map_values(|d: Device| Op::SaveState(d)) + only_if(self.display, Op::SaveFramebuffers) + seq![
            Op::SaveBank(0),
            Op::SaveBank(1),
            Op::SaveBank(2),
            Op::SaveBank(3),
        ]
    }

    /// Loads the states, the framebuffers and the memory.
    pub open spec fn load_state_script(self) -> Seq<Op> {
        self.devices().map_values(|d: Device| Op::LoadState(d)) + only_if(self.display, Op::LoadFramebuffers) + seq![
            Op::LoadBank(0),
            Op::LoadBank(1),
            Op::LoadBank(2),
            Op::LoadBank(3),
        ]
    }

    /// Takes the states, the memory and the framebuffers.
    pub open spec fn take_script(self) -> Seq<Op> {
        self.devices().map_values(|d: Device| Op::TakeState(d)) + seq![
            Op::TakeBank(0),
            Op::TakeBank(1),
            Op::TakeBank(2),
            Op::TakeBank(3),
        ] + only_if(self.display, Op::TakeFramebuffers)
    }

    /// Gives the states, the memory and the framebuffers back.
    pub open spec fn put_script(self) -> Seq<Op> {
        self.devices().map_values(|d: Device| Op::PutState(d)) + seq![
            Op::PutBank(0),
            Op::PutBank(1),
            Op::PutBank(2),
            Op::PutBank(3),
        ] + only_if(self.display, Op::PutFramebuffers)
    }

    /// Saves a snapshot: the manifest first, so that one that is cut short can be
    /// told, then the states, then the overlays of the disks.
    pub open spec fn save_script(self) -> Seq<Op> {
        self.stop_script() + seq![Op::EnsureDir, Op::WriteManifest] + self.save_state_script() + seq![
            Op::ExportOverlays,
            Op::WriteCow,
        ] + self.resume_script()
    }

    /// Loads a snapshot: from a clean state, and nothing before its manifest was
    /// accepted.
    pub open spec fn load_script(self) -> Seq<Op> {
        self.stop_script() + self.power_on_script() + seq![Op::ReadManifest] + self.load_state_script() + seq![
            Op::ReadCow,
            Op::ImportOverlays,
        ] + self.resume_script()
    }

    /// Takes a checkpoint of the state that was just loaded.
    pub open spec fn capture_script(self) -> Seq<Op> {
        self.stop_script() + self.take_script() + seq![Op::ReadCow] + self.resume_script()
    }

    /// Goes back to a checkpoint.
    pub open spec fn rollback_script(self) -> Seq<Op> {
        self.stop_script() + self.power_on_script() + self.put_script() + seq![Op::ImportOverlays]
            + self.resume_script()
    }
}

/// Which parts run.
pub struct Running {
    pub cpu: bool,
    pub rex3: bool,
    pub hpc3: bool,
    pub mc: bool,
}

impl Running {
    /// The parts that run after an operation.
    pub open spec fn after(self, op: Op) -> Running {
        match op {
            Op::Stop(Part::Cpu) => Running { cpu: false, ..self },
            Op::Stop(Part::Rex3) => Running { rex3: false, ..self },
            Op::Stop(Part::Hpc3) => Running { hpc3: false, ..self },
            Op::Stop(Part::Mc) => Running { mc: false, ..self },
            Op::Start(Part::Cpu) => Running { cpu: true, ..self },
            Op::Start(Part::Rex3) => Running { rex3: true, ..self },
            Op::Start(Part::Hpc3) => Running { hpc3: true, ..self },
            Op::Start(Part::Mc) => Running { mc: true, ..self },
            _ => self,
        }
    }

    /// The parts that run after a script.
    pub open spec fn after_all(self, ops: Seq<Op>) -> Running
        decreases ops.len(),
    {
        if ops.len() == 0 {
            self
        } else {
            self.after_all(ops.drop_last()).after(ops.last())
        }
    }

    /// Nothing runs.
    pub open spec fn quiet(self) -> bool {
        !self.cpu && !self.rex3 && !self.hpc3 && !self.mc
    }
}

/// Whether an operation touches the state of the machine and may only be done while
/// nothing runs.
pub open spec fn touches_state(op: Op) -> bool {
    match op {
        Op::ResetSerial | Op::Stop(_) | Op::Start(_) | Op::StartMonitor => false,
        Op::EnsureDir | Op::WriteManifest | Op::ReadManifest | Op::WriteCow | Op::ReadCow => false,
        _ => true,
    }
}

/// Whether every operation of a script that touches the state comes while nothing
/// runs.
pub open spec fn is_safe(running: Running, ops: Seq<Op>) -> bool {
    forall|i: int| 0 <= i < ops.len() && touches_state(#[trigger] ops[i]) ==> running.after_all(ops.take(i)).quiet()
}

/// Whether a script starts and stops nothing.
pub open spec fn is_still(ops: Seq<Op>) -> bool {
    forall|i: int| 0 <= i < ops.len() ==> !(#[trigger] ops[i] is Stop) && !(ops[i] is Start)
}

proof fn lemma_after_all_concat(r: Running, a: Seq<Op>, b: Seq<Op>)
    ensures
        r.after_all(a + b) == r.after_all(a).after_all(b),
    decreases b.len(),
{
    if b.len() == 0 {
        assert(a + b =~= a);
    } else {
        assert((a + b).drop_last() =~= a + b.drop_last());
        assert((a + b).last() == b.last());
        lemma_after_all_concat(r, a, b.drop_last());
    }
}

proof fn lemma_still(r: Running, ops: Seq<Op>)
    requires
        is_still(ops),
    ensures
        r.after_all(ops) == r,
    decreases ops.len(),
{
    if ops.len() > 0 {
        let front = ops.drop_last();
        assert forall|i: int| 0 <= i < front.len() implies !(#[trigger] front[i] is Stop) && !(front[i] is Start) by {
            assert(front[i] == ops[i]);
        }
        lemma_still(r, front);
        assert(ops[ops.len() - 1] == ops.last());
    }
}

/// Scripts that are safe one after the other are safe together.
proof fn lemma_safe_concat(r: Running, a: Seq<Op>, b: Seq<Op>)
    requires
        is_safe(r, a),
        is_safe(r.after_all(a), b),
    ensures
        is_safe(r, a + b),
{
    assert forall|i: int| 0 <= i < (a + b).len() && touches_state(#[trigger] (a + b)[i]) implies r.after_all(
        (a + b).take(i),
    ).quiet() by {
        if i < a.len() {
            assert((a + b).take(i) =~= a.take(i));
            assert(a[i] == (a + b)[i]);
        } else {
            let j = i - a.len();
            assert((a + b).take(i) =~= a + b.take(j));
            lemma_after_all_concat(r, a, b.take(j));
            assert(b[j] == (a + b)[i]);
        }
    }
}

/// A script that starts and stops nothing is safe while nothing runs.
proof fn lemma_still_safe(r: Running, ops: Seq<Op>)
    requires
        is_still(ops),
        r.quiet(),
    ensures
        is_safe(r, ops),
        r.after_all(ops) == r,
{
    assert forall|i: int| 0 <= i < ops.len() && touches_state(#[trigger] ops[i]) implies r.after_all(
        ops.take(i),
    ).quiet() by {
        let front = ops.take(i);
        assert forall|k: int| 0 <= k < front.len() implies !(#[trigger] front[k] is Stop) && !(front[k] is Start) by {
            assert(front[k] == ops[k]);
        }
        lemma_still(r, front);
    }
    lemma_still(r, ops);
}

/// Appends an operation, where the machine has what it is for.
fn push_if(ops: &mut Vec<Op>, present: bool, op: Op)
    ensures
        final(ops)@ == old(ops)@ + only_if(present, op),
{
    if present {
        ops.push(op);
    }
    assert(ops@ =~= old(ops)@ + only_if(present, op));
}

/// One script behind the other.
fn chain(a: Vec<Op>, b: Vec<Op>) -> (r: Vec<Op>)
    ensures
        r@ == a@ + b@,
{
    let mut a = a;
    let mut b = b;
    a.append(&mut b);
    a
}

impl Equipment {
    /// The devices with a state, in the order in which they are saved and loaded.
    pub fn state_devices(&self) -> (r: Vec<Device>)
        ensures
            r@ == self.devices(),
    {
        let mut r: Vec<Device> = Vec::new();
        r.push(Device::Cpu);
        r.push(Device::Mc);
        r.push(Device::Ioc);
        r.push(Device::Scc);
        r.push(Device::Pit);
        r.push(Device::Ps2);
        r.push(Device::Rtc);
        r.push(Device::Eeprom);
        r.push(Device::Scsi);
        r.push(Device::Seeq);
        r.push(Device::Hpc3);
        if self.display {
            r.push(Device::Rex3);
        }
        assert(r@ =~= self.devices());
        r
    }

    /// Stops everything.
    pub fn stop(&self) -> (r: Vec<Op>)
        ensures
            r@ == self.stop_script(),
    {
        let mut r: Vec<Op> = Vec::new();
        r.push(Op::Stop(Part::Cpu));
        push_if(&mut r, self.display, Op::Stop(Part::Rex3));
        r.push(Op::Stop(Part::Hpc3));
        r.push(Op::Stop(Part::Mc));
        assert(r@ =~= self.stop_script());
        r
    }

    /// Starts everything but the CPU.
    pub fn restart_peripherals(&self) -> (r: Vec<Op>)
        ensures
            r@ == self.peripherals_script(),
    {
        let mut r: Vec<Op> = Vec::new();
        r.push(Op::Start(Part::Mc));
        r.push(Op::Start(Part::Hpc3));
        push_if(&mut r, self.display, Op::Start(Part::Rex3));
        assert(r@ =~= self.peripherals_script());
        r
    }

    /// Starts everything but the CPU, and the CPU where it is wanted.
    pub fn unpause(&self, cpu: bool) -> (r: Vec<Op>)
        ensures
            r@ == self.unpause_script(cpu),
    {
        let mut r = self.restart_peripherals();
        push_if(&mut r, cpu, Op::Start(Part::Cpu));
        r
    }

    /// Starts everything, the CPU last.
    pub fn resume(&self) -> (r: Vec<Op>)
        ensures
            r@ == self.resume_script(),
    {
        let mut r = self.restart_peripherals();
        r.push(Op::Start(Part::Cpu));
        assert(r@ =~= self.resume_script());
        r
    }

    /// Brings every device to the state that it has when the power comes on.
    pub fn power_on_devices(&self) -> (r: Vec<Op>)
        ensures
            r@ == self.power_on_script(),
    {
        let mut r: Vec<Op> = Vec::new();
        r.push(Op::PowerOn(Device::Cpu));
        r.push(Op::ResetMemory);
        r.push(Op::PowerOn(Device::Mc));
        r.push(Op::PowerOn(Device::Ioc));
        r.push(Op::PowerOn(Device::Scc));
        r.push(Op::PowerOn(Device::Pit));
        r.push(Op::PowerOn(Device::Ps2));
        r.push(Op::PowerOn(Device::Rtc));
        r.push(Op::PowerOn(Device::Eeprom));
        r.push(Op::PowerOn(Device::Scsi));
        r.push(Op::PowerOn(Device::Seeq));
        push_if(&mut r, self.hal2, Op::PowerOnHal2);
        r.push(Op::PowerOn(Device::Hpc3));
        push_if(&mut r, self.display, Op::PowerOn(Device::Rex3));
        assert(r@ =~= self.power_on_script());
        r
    }

    /// Resets the machine. The CPU is left stopped.
    pub fn reset(&self) -> (r: Vec<Op>)
        ensures
            r@ == self.reset_script(),
    {
        chain(chain(self.stop(), self.power_on_devices()), self.restart_peripherals())
    }

    /// Brings the machine up.
    pub fn start(&self, ci: bool, autostart: bool) -> (r: Vec<Op>)
        ensures
            r@ == self.start_script(ci, autostart),
    {
        let mut r = self.restart_peripherals();
        push_if(&mut r, !ci, Op::StartMonitor);
        push_if(&mut r, !ci && autostart, Op::Start(Part::Cpu));
        r
    }

    /// Saves the states, the framebuffers and the memory.
    fn save_state(&self) -> (r: Vec<Op>)
        ensures
            r@ == self.save_state_script(),
    {
        let devices = self.state_devices();
        let mut r: Vec<Op> = Vec::new();
        let mut i: usize = 0;
        while i < devices.len()
            invariant
                i <= devices.len(),
                r@ == devices@.take(i as int).map_values(|d: Device| Op::SaveState(d)),
            decreases devices.len() - i,
        {
            r.push(Op::SaveState(devices[i]));
            i += 1;
            assert(r@ =~= devices@.take(i as int).map_values(|d: Device| Op::SaveState(d)));
        }
        assert(devices@.take(i as int) =~= devices@);
        push_if(&mut r, self.display, Op::SaveFramebuffers);
        r.push(Op::SaveBank(0));
        r.push(Op::SaveBank(1));
        r.push(Op::SaveBank(2));
        r.push(Op::SaveBank(3));
        assert(r@ =~= self.save_state_script());
        r
    }

    /// Loads the states, the framebuffers and the memory.
    fn load_state(&self) -> (r: Vec<Op>)
        ensures
            r@ == self.load_state_script(),
    {
        let devices = self.state_devices();
        let mut r: Vec<Op> = Vec::new();
        let mut i: usize = 0;
        while i < devices.len()
            invariant
                i <= devices.len(),
                r@ == devices@.take(i as int).map_values(|d: Device| Op::LoadState(d)),
            decreases devices.len() - i,
        {
            r.push(Op::LoadState(devices[i]));
            i += 1;
            assert(r@ =~= devices@.take(i as int).map_values(|d: Device| Op::LoadState(d)));
        }
        assert(devices@.take(i as int) =~= devices@);
        push_if(&mut r, self.display, Op::LoadFramebuffers);
        r.push(Op::LoadBank(0));
        r.push(Op::LoadBank(1));
        r.push(Op::LoadBank(2));
        r.push(Op::LoadBank(3));
        assert(r@ =~= self.load_state_script());
        r
    }

    /// Takes the states, the memory and the framebuffers.
    fn take(&self) -> (r: Vec<Op>)
        ensures
            r@ == self.take_script(),
    {
        let devices = self.state_devices();
        let mut r: Vec<Op> = Vec::new();
        let mut i: usize = 0;
        while i < devices.len()
            invariant
                i <= devices.len(),
                r@ == devices@.take(i as int).map_values(|d: Device| Op::TakeState(d)),
            decreases devices.len() - i,
        {
            r.push(Op::TakeState(devices[i]));
            i += 1;
            assert(r@ =~= devices@.take(i as int).map_values(|d: Device| Op::TakeState(d)));
        }
        assert(devices@.take(i as int) =~= devices@);
        r.push(Op::TakeBank(0));
        r.push(Op::TakeBank(1));
        r.push(Op::TakeBank(2));
        r.push(Op::TakeBank(3));
        push_if(&mut r, self.display, Op::TakeFramebuffers);
        assert(r@ =~= self.take_script());
        r
    }

    /// Gives the states, the memory and the framebuffers back.
    fn put(&self) -> (r: Vec<Op>)
        ensures
            r@ == self.put_script(),
    {
        let devices = self.state_devices();
        let mut r: Vec<Op> = Vec::new();
        let mut i: usize = 0;
        while i < devices.len()
            invariant
                i <= devices.len(),
                r@ == devices@.take(i as int).map_values(|d: Device| Op::PutState(d)),
            decreases devices.len() - i,
        {
            r.push(Op::PutState(devices[i]));
            i += 1;
            assert(r@ =~= devices@.take(i as int).map_values(|d: Device| Op::PutState(d)));
        }
        assert(devices@.take(i as int) =~= devices@);
        r.push(Op::PutBank(0));
        r.push(Op::PutBank(1));
        r.push(Op::PutBank(2));
        r.push(Op::PutBank(3));
        push_if(&mut r, self.display, Op::PutFramebuffers);
        assert(r@ =~= self.put_script());
        r
    }

    /// Saves a snapshot.
    pub fn save(&self) -> (r: Vec<Op>)
        ensures
            r@ == self.save_script(),
    {
        let mut r = self.stop();
        r.push(Op::EnsureDir);
        r.push(Op::WriteManifest);
        assert(r@ =~= self.stop_script() + seq![Op::EnsureDir, Op::WriteManifest]);
        let mut r = chain(r, self.save_state());
        let ghost before = r@;
        r.push(Op::ExportOverlays);
        r.push(Op::WriteCow);
        assert(r@ =~= before + seq![Op::ExportOverlays, Op::WriteCow]);
        chain(r, self.resume())
    }

    /// Loads a snapshot.
    pub fn load(&self) -> (r: Vec<Op>)
        ensures
            r@ == self.load_script(),
    {
        let mut r = chain(self.stop(), self.power_on_devices());
        let ghost first = r@;
        r.push(Op::ReadManifest);
        assert(r@ =~= first + seq![Op::ReadManifest]);
        let mut r = chain(r, self.load_state());
        let ghost second = r@;
        r.push(Op::ReadCow);
        r.push(Op::ImportOverlays);
        assert(r@ =~= second + seq![Op::ReadCow, Op::ImportOverlays]);
        chain(r, self.resume())
    }

    /// Takes a checkpoint.
    pub fn capture(&self) -> (r: Vec<Op>)
        ensures
            r@ == self.capture_script(),
    {
        let mut r = chain(self.stop(), self.take());
        let ghost before = r@;
        r.push(Op::ReadCow);
        assert(r@ =~= before + seq![Op::ReadCow]);
        chain(r, self.resume())
    }

    /// Goes back to a checkpoint.
    pub fn rollback(&self) -> (r: Vec<Op>)
        ensures
            r@ == self.rollback_script(),
    {
        let mut r = chain(chain(self.stop(), self.power_on_devices()), self.put());
        let ghost before = r@;
        r.push(Op::ImportOverlays);
        assert(r@ =~= before + seq![Op::ImportOverlays]);
        chain(r, self.resume())
    }
}

/// The parts that run once everything was started.
pub open spec fn all_running(e: Equipment) -> Running {
    Running { cpu: true, rex3: e.display, hpc3: true, mc: true }
}

/// Whether what runs are parts that the machine has.
pub open spec fn can_run(e: Equipment, r: Running) -> bool {
    !e.display ==> !r.rex3
}

proof fn lemma_stop(e: Equipment, r: Running)
    requires
        can_run(e, r),
    ensures
        r.after_all(e.stop_script()).quiet(),
        is_safe(r, e.stop_script()),
{
    let ops = e.stop_script();
    assert forall|i: int| 0 <= i < ops.len() implies !touches_state(#[trigger] ops[i]) by {}
    reveal_with_fuel(Running::after_all, 6);
    if e.display {
        assert(ops =~= seq![
            Op::Stop(Part::Cpu),
            Op::Stop(Part::Rex3),
            Op::Stop(Part::Hpc3),
            Op::Stop(Part::Mc),
        ]);
        let three = ops.drop_last();
        let two = three.drop_last();
        let one = two.drop_last();
        assert(one.drop_last() =~= seq![]);
        assert(ops.last() == Op::Stop(Part::Mc) && three.last() == Op::Stop(Part::Hpc3) && two.last() == Op::Stop(
            Part::Rex3,
        ) && one.last() == Op::Stop(Part::Cpu));
    } else {
        assert(ops =~= seq![Op::Stop(Part::Cpu), Op::Stop(Part::Hpc3), Op::Stop(Part::Mc)]);
        let two = ops.drop_last();
        let one = two.drop_last();
        assert(one.drop_last() =~= seq![]);
        assert(ops.last() == Op::Stop(Part::Mc) && two.last() == Op::Stop(Part::Hpc3) && one.last() == Op::Stop(
            Part::Cpu,
        ));
    }
}

proof fn lemma_unpause(e: Equipment, r: Running, cpu: bool)
    requires
        r.quiet(),
    ensures
        r.after_all(e.unpause_script(cpu)) == (Running { cpu, ..all_running(e) }),
        is_safe(r, e.unpause_script(cpu)),
        e.unpause_script(false) == e.peripherals_script(),
        e.unpause_script(true) == e.resume_script(),
{
    assert(e.unpause_script(false) =~= e.peripherals_script());
    assert(e.unpause_script(true) =~= e.resume_script());
    let ops = e.unpause_script(cpu);
    assert forall|i: int| 0 <= i < ops.len() implies !touches_state(#[trigger] ops[i]) by {}
    reveal_with_fuel(Running::after_all, 6);
    let mc = Op::Start(Part::Mc);
    let hpc3 = Op::Start(Part::Hpc3);
    let rex3 = Op::Start(Part::Rex3);
    let c = Op::Start(Part::Cpu);
    let a = ops.drop_last();
    let b = a.drop_last();
    if e.display && cpu {
        assert(ops =~= seq![mc, hpc3, rex3, c]);
        let d = b.drop_last();
        assert(d.drop_last() =~= seq![]);
        assert(ops.last() == c && a.last() == rex3 && b.last() == hpc3 && d.last() == mc);
    } else if e.display {
        assert(ops =~= seq![mc, hpc3, rex3]);
        assert(b.drop_last() =~= seq![]);
        assert(ops.last() == rex3 && a.last() == hpc3 && b.last() == mc);
    } else if cpu {
        assert(ops =~= seq![mc, hpc3, c]);
        assert(b.drop_last() =~= seq![]);
        assert(ops.last() == c && a.last() == hpc3 && b.last() == mc);
    } else {
        assert(ops =~= seq![mc, hpc3]);
        assert(b =~= seq![]);
        assert(ops.last() == hpc3 && a.last() == mc);
    }
}

/// A script that stops everything, then does `middle`, then starts all but the CPU,
/// and the CPU where it is wanted.
pub open spec fn stopped_during(e: Equipment, middle: Seq<Op>, cpu: bool) -> Seq<Op> {
    e.stop_script() + middle + e.unpause_script(cpu)
}

/// Whatever is done between stopping and starting again, if it starts nothing
/// itself, is done while nothing runs; at the end all but the CPU runs, and the CPU
/// where it was wanted. A script that fails in between leaves nothing running.
pub proof fn law_stopped_during(e: Equipment, r: Running, middle: Seq<Op>, cpu: bool)
    requires
        can_run(e, r),
        is_still(middle),
    ensures
        is_safe(r, stopped_during(e, middle, cpu)),
        r.after_all(stopped_during(e, middle, cpu)) == (Running { cpu, ..all_running(e) }),
        forall|i: int|
            e.stop_script().len() <= i <= e.stop_script().len() + middle.len() ==> #[trigger] r.after_all(
                stopped_during(e, middle, cpu).take(i),
            ).quiet(),
{
    let stop = e.stop_script();
    let start = e.unpause_script(cpu);
    lemma_stop(e, r);
    let q = r.after_all(stop);
    lemma_still_safe(q, middle);
    lemma_unpause(e, q, cpu);
    lemma_safe_concat(r, stop, middle);
    lemma_after_all_concat(r, stop, middle);
    lemma_safe_concat(r, stop + middle, start);
    lemma_after_all_concat(r, stop + middle, start);
    let all = stopped_during(e, middle, cpu);
    assert forall|i: int| stop.len() <= i <= stop.len() + middle.len() implies #[trigger] r.after_all(
        all.take(i),
    ).quiet() by {
        let part = middle.take(i - stop.len());
        assert(all.take(i) =~= stop + part);
        lemma_after_all_concat(r, stop, part);
        assert forall|k: int| 0 <= k < part.len() implies !(#[trigger] part[k] is Stop) && !(part[k] is Start) by {
            assert(part[k] == middle[k]);
        }
        lemma_still(q, part);
    }
}

impl Equipment {
    /// What `save` does while everything is stopped.
    pub open spec fn save_middle(self) -> Seq<Op> {
        seq![Op::EnsureDir, Op::WriteManifest] + self.save_state_script() + seq![Op::ExportOverlays, Op::WriteCow]
    }

    /// What `load` does while everything is stopped.
    pub open spec fn load_middle(self) -> Seq<Op> {
        self.power_on_script() + seq![Op::ReadManifest] + self.load_state_script() + seq![
            Op::ReadCow,
            Op::ImportOverlays,
        ]
    }

    /// What taking a checkpoint does while everything is stopped.
    pub open spec fn capture_middle(self) -> Seq<Op> {
        self.take_script() + seq![Op::ReadCow]
    }

    /// What going back to a checkpoint does while everything is stopped.
    pub open spec fn rollback_middle(self) -> Seq<Op> {
        self.power_on_script() + self.put_script() + seq![Op::ImportOverlays]
    }
}

proof fn lemma_still_concat(a: Seq<Op>, b: Seq<Op>)
    requires
        is_still(a),
        is_still(b),
    ensures
        is_still(a + b),
{
    assert forall|i: int| 0 <= i < (a + b).len() implies !(#[trigger] (a + b)[i] is Stop) && !((a + b)[i] is Start) by {
        if i < a.len() {
            assert((a + b)[i] == a[i]);
        } else {
            assert((a + b)[i] == b[i - a.len()]);
        }
    }
}

proof fn lemma_power_on_still(e: Equipment)
    ensures
        is_still(e.power_on_script()),
{
    let first = seq![
        Op::PowerOn(Device::Cpu),
        Op::ResetMemory,
        Op::PowerOn(Device::Mc),
        Op::PowerOn(Device::Ioc),
        Op::PowerOn(Device::Scc),
        Op::PowerOn(Device::Pit),
        Op::PowerOn(Device::Ps2),
        Op::PowerOn(Device::Rtc),
        Op::PowerOn(Device::Eeprom),
        Op::PowerOn(Device::Scsi),
        Op::PowerOn(Device::Seeq),
    ];
    let hal2 = only_if(e.hal2, Op::PowerOnHal2);
    let hpc3 = seq![Op::PowerOn(Device::Hpc3)];
    lemma_still_concat(first, hal2);
    lemma_still_concat(first + hal2, hpc3);
    lemma_still_concat(first + hal2 + hpc3, only_if(e.display, Op::PowerOn(Device::Rex3)));
}

proof fn lemma_states_still(e: Equipment)
    ensures
        is_still(e.save_state_script()),
        is_still(e.load_state_script()),
        is_still(e.take_script()),
        is_still(e.put_script()),
{
    let d = e.devices();
    let save = d.map_values(|d: Device| Op::SaveState(d));
    let load = d.map_values(|d: Device| Op::LoadState(d));
    let take = d.map_values(|d: Device| Op::TakeState(d));
    let put = d.map_values(|d: Device| Op::PutState(d));
    let save_fb = only_if(e.display, Op::SaveFramebuffers);
    let load_fb = only_if(e.display, Op::LoadFramebuffers);
    lemma_still_concat(save, save_fb);
    lemma_still_concat(save + save_fb, seq![Op::SaveBank(0), Op::SaveBank(1), Op::SaveBank(2), Op::SaveBank(3)]);
    lemma_still_concat(load, load_fb);
    lemma_still_concat(load + load_fb, seq![Op::LoadBank(0), Op::LoadBank(1), Op::LoadBank(2), Op::LoadBank(3)]);
    let taken = seq![Op::TakeBank(0), Op::TakeBank(1), Op::TakeBank(2), Op::TakeBank(3)];
    lemma_still_concat(take, taken);
    lemma_still_concat(take + taken, only_if(e.display, Op::TakeFramebuffers));
    let given = seq![Op::PutBank(0), Op::PutBank(1), Op::PutBank(2), Op::PutBank(3)];
    lemma_still_concat(put, given);
    lemma_still_concat(put + given, only_if(e.display, Op::PutFramebuffers));
}

proof fn lemma_save_shape(stop: Seq<Op>, states: Seq<Op>, start: Seq<Op>)
    requires
        is_still(states),
    ensures
        ({
            let first = seq![Op::EnsureDir, Op::WriteManifest];
            let last = seq![Op::ExportOverlays, Op::WriteCow];
            &&& stop + first + states + last + start == stop + (first + states + last) + start
            &&& is_still(first + states + last)
        }),
{
    let first = seq![Op::EnsureDir, Op::WriteManifest];
    let last = seq![Op::ExportOverlays, Op::WriteCow];
    assert(stop + first + states + last + start =~= stop + (first + states + last) + start);
    lemma_still_concat(first, states);
    lemma_still_concat(first + states, last);
}

proof fn lemma_load_shape(stop: Seq<Op>, power: Seq<Op>, states: Seq<Op>, start: Seq<Op>)
    requires
        is_still(power),
        is_still(states),
    ensures
        ({
            let read = seq![Op::ReadManifest];
            let last = seq![Op::ReadCow, Op::ImportOverlays];
            &&& stop + power + read + states + last + start == stop + (power + read + states + last) + start
            &&& is_still(power + read + states + last)
        }),
{
    let read = seq![Op::ReadManifest];
    let last = seq![Op::ReadCow, Op::ImportOverlays];
    assert(stop + power + read + states + last + start =~= stop + (power + read + states + last) + start);
    lemma_still_concat(power, read);
    lemma_still_concat(power + read, states);
    lemma_still_concat(power + read + states, last);
}

proof fn lemma_capture_shape(stop: Seq<Op>, take: Seq<Op>, start: Seq<Op>)
    requires
        is_still(take),
    ensures
        stop + take + seq![Op::ReadCow] + start == stop + (take + seq![Op::ReadCow]) + start,
        is_still(take + seq![Op::ReadCow]),
{
    assert(stop + take + seq![Op::ReadCow] + start =~= stop + (take + seq![Op::ReadCow]) + start);
    lemma_still_concat(take, seq![Op::ReadCow]);
}

proof fn lemma_rollback_shape(stop: Seq<Op>, power: Seq<Op>, put: Seq<Op>, start: Seq<Op>)
    requires
        is_still(power),
        is_still(put),
    ensures
        stop + power + put + seq![Op::ImportOverlays] + start == stop + (power + put + seq![Op::ImportOverlays])
            + start,
        is_still(power + put + seq![Op::ImportOverlays]),
{
    assert(stop + power + put + seq![Op::ImportOverlays] + start =~= stop + (power + put + seq![Op::ImportOverlays])
        + start);
    lemma_still_concat(power, put);
    lemma_still_concat(power + put, seq![Op::ImportOverlays]);
}

/// Saving, loading, taking a checkpoint, going back to it and resetting all touch
/// the machine only while it is stopped. The first four leave it running, the CPU
/// too; a reset leaves the CPU stopped.
pub proof fn law_machine_is_stopped_while_touched(e: Equipment)
    ensures
        e.save_script() == stopped_during(e, e.save_middle(), true),
        e.load_script() == stopped_during(e, e.load_middle(), true),
        e.capture_script() == stopped_during(e, e.capture_middle(), true),
        e.rollback_script() == stopped_during(e, e.rollback_middle(), true),
        e.reset_script() == stopped_during(e, e.power_on_script(), false),
        is_still(e.save_middle()),
        is_still(e.load_middle()),
        is_still(e.capture_middle()),
        is_still(e.rollback_middle()),
        is_still(e.power_on_script()),
{
    let quiet = Running { cpu: false, rex3: false, hpc3: false, mc: false };
    lemma_unpause(e, quiet, true);
    lemma_unpause(e, quiet, false);
    lemma_power_on_still(e);
    lemma_states_still(e);
    let (stop, start) = (e.stop_script(), e.resume_script());
    lemma_save_shape(stop, e.save_state_script(), start);
    lemma_load_shape(stop, e.power_on_script(), e.load_state_script(), start);
    lemma_capture_shape(stop, e.take_script(), start);
    lemma_rollback_shape(stop, e.power_on_script(), e.put_script(), start);
}

/// What a load reads back is what a save wrote: the same devices in the same order,
/// then the framebuffers, then the banks of memory.
pub proof fn law_load_mirrors_save(e: Equipment, i: int)
    requires
        0 <= i < e.save_state_script().len(),
    ensures
        e.load_state_script().len() == e.save_state_script().len(),
        match e.save_state_script()[i] {
            Op::SaveState(d) => e.load_state_script()[i] == Op::LoadState(d),
            Op::SaveBank(b) => e.load_state_script()[i] == Op::LoadBank(b),
            Op::SaveFramebuffers => e.load_state_script()[i] == Op::LoadFramebuffers,
            _ => false,
        },
{
}

/// Going back gives back what the checkpoint took: the same devices in the same
/// order, then the banks of memory, then the framebuffers.
pub proof fn law_put_mirrors_take(e: Equipment, i: int)
    requires
        0 <= i < e.take_script().len(),
    ensures
        e.put_script().len() == e.take_script().len(),
        match e.take_script()[i] {
            Op::TakeState(d) => e.put_script()[i] == Op::PutState(d),
            Op::TakeBank(b) => e.put_script()[i] == Op::PutBank(b),
            Op::TakeFramebuffers => e.put_script()[i] == Op::PutFramebuffers,
            _ => false,
        },
{
}

/// A load reads no state before it read the manifest.
pub proof fn law_load_checks_the_manifest_first(e: Equipment, i: int)
    requires
        0 <= i < e.load_script().len(),
        match e.load_script()[i] {
            Op::LoadState(_) | Op::LoadBank(_) | Op::LoadFramebuffers | Op::ReadCow | Op::ImportOverlays => true,
            _ => false,
        },
    ensures
        e.stop_script().len() + e.power_on_script().len() < i,
        e.load_script()[(e.stop_script().len() + e.power_on_script().len()) as int] == Op::ReadManifest,
{
    let k = (e.stop_script().len() + e.power_on_script().len()) as int;
    let s = e.load_script();
    assert(s[k] == Op::ReadManifest);
    if i <= k {
        if i < e.stop_script().len() {
            assert(s[i] == e.stop_script()[i]);
        } else if i < k {
            assert(s[i] == e.power_on_script()[i - e.stop_script().len()]);
        }
    }
}

/// A save writes the manifest before anything else of the snapshot.
pub proof fn law_save_writes_the_manifest_first(e: Equipment, i: int)
    requires
        0 <= i < e.save_script().len(),
        match e.save_script()[i] {
            Op::SaveState(_) | Op::SaveBank(_) | Op::SaveFramebuffers | Op::ExportOverlays | Op::WriteCow => true,
            _ => false,
        },
    ensures
        e.stop_script().len() + 1 < i,
        e.save_script()[e.stop_script().len() as int] == Op::EnsureDir,
        e.save_script()[(e.stop_script().len() + 1) as int] == Op::WriteManifest,
{
    let s = e.save_script();
    if i < e.stop_script().len() {
        assert(s[i] == e.stop_script()[i]);
    }
}

/// Every device has a state to save; the display has one where there is a display. The
/// order is that of the list, and none comes twice.
pub proof fn law_devices_of_a_machine(e: Equipment, d: Device)
    ensures
        e.devices().contains(d) <==> (d != Device::Rex3 || e.display),
        e.devices().len() == (if e.display {
            12int
        } else {
            11int
        }),
        e.devices().no_duplicates(),
        e.devices().take(11) == seq![
            Device::Cpu,
            Device::Mc,
            Device::Ioc,
            Device::Scc,
            Device::Pit,
            Device::Ps2,
            Device::Rtc,
            Device::Eeprom,
            Device::Scsi,
            Device::Seeq,
            Device::Hpc3,
        ],
        e.display ==> e.devices()[11] == Device::Rex3,
{
    let all = e.devices();
    assert(all[0] == Device::Cpu && all[1] == Device::Mc && all[2] == Device::Ioc && all[3] == Device::Scc);
    assert(all[4] == Device::Pit && all[5] == Device::Ps2 && all[6] == Device::Rtc && all[7] == Device::Eeprom);
    assert(all[8] == Device::Scsi && all[9] == Device::Seeq && all[10] == Device::Hpc3);
    if e.display {
        assert(all[11] == Device::Rex3);
    }
    assert(all.take(11) =~= seq![
        Device::Cpu,
        Device::Mc,
        Device::Ioc,
        Device::Scc,
        Device::Pit,
        Device::Ps2,
        Device::Rtc,
        Device::Eeprom,
        Device::Scsi,
        Device::Seeq,
        Device::Hpc3,
    ]);
}

/// The parts are stopped from the CPU down to the memory controller, and started the other
/// way round, the display by itself where there is one. The CPU comes last where it is
/// started.
pub proof fn law_order_of_stopping_and_starting(e: Equipment, cpu: bool)
    ensures
        e.display ==> e.stop_script() == seq![
            Op::Stop(Part::Cpu),
            Op::Stop(Part::Rex3),
            Op::Stop(Part::Hpc3),
            Op::Stop(Part::Mc),
        ],
        !e.display ==> e.stop_script() == seq![Op::Stop(Part::Cpu), Op::Stop(Part::Hpc3), Op::Stop(Part::Mc)],
        e.display ==> e.peripherals_script() == seq![
            Op::Start(Part::Mc),
            Op::Start(Part::Hpc3),
            Op::Start(Part::Rex3),
        ],
        !e.display ==> e.peripherals_script() == seq![Op::Start(Part::Mc), Op::Start(Part::Hpc3)],
        e.resume_script() == e.peripherals_script().push(Op::Start(Part::Cpu)),
        cpu ==> e.unpause_script(cpu) == e.peripherals_script().push(Op::Start(Part::Cpu)),
        !cpu ==> e.unpause_script(cpu) == e.peripherals_script(),
{
    if e.display {
        assert(e.stop_script() =~= seq![
            Op::Stop(Part::Cpu),
            Op::Stop(Part::Rex3),
            Op::Stop(Part::Hpc3),
            Op::Stop(Part::Mc),
        ]);
        assert(e.peripherals_script() =~= seq![Op::Start(Part::Mc), Op::Start(Part::Hpc3), Op::Start(Part::Rex3)]);
    } else {
        assert(e.stop_script() =~= seq![Op::Stop(Part::Cpu), Op::Stop(Part::Hpc3), Op::Stop(Part::Mc)]);
        assert(e.peripherals_script() =~= seq![Op::Start(Part::Mc), Op::Start(Part::Hpc3)]);
    }
    assert(e.resume_script() =~= e.peripherals_script().push(Op::Start(Part::Cpu)));
    if cpu {
        assert(e.unpause_script(cpu) =~= e.peripherals_script().push(Op::Start(Part::Cpu)));
    } else {
        assert(e.unpause_script(cpu) =~= e.peripherals_script());
    }
}

/// Bringing the machine up starts all but the CPU. Without the control socket the monitor is
/// served, and the CPU is started in a build that does so; under it neither is.
pub proof fn law_bringing_up(e: Equipment, ci: bool, autostart: bool)
    ensures
        ci ==> e.start_script(ci, autostart) == e.peripherals_script(),
        !ci && !autostart ==> e.start_script(ci, autostart) == e.peripherals_script().push(Op::StartMonitor),
        !ci && autostart ==> e.start_script(ci, autostart) == e.peripherals_script().push(Op::StartMonitor).push(
            Op::Start(Part::Cpu),
        ),
{
    let s = e.start_script(ci, autostart);
    if ci {
        assert(s =~= e.peripherals_script());
    } else if autostart {
        assert(s =~= e.peripherals_script().push(Op::StartMonitor).push(Op::Start(Part::Cpu)));
    } else {
        assert(s =~= e.peripherals_script().push(Op::StartMonitor));
    }
}

/// At power-on the CPU comes first, then the memory, then every other device that has a
/// state, in the order in which states are saved; the audio device comes before the
/// peripheral controller, where there is one. Nothing else happens, and nothing twice.
pub proof fn law_power_on_reaches_every_device(e: Equipment, d: Device)
    ensures
        ({
            let s = e.power_on_script();
            let hal2: int = if e.hal2 {
                1
            } else {
                0
            };
            &&& s.contains(Op::PowerOn(d)) <==> (d != Device::Rex3 || e.display)
            &&& s.contains(Op::PowerOnHal2) <==> e.hal2
            &&& s[0] == Op::PowerOn(Device::Cpu)
            &&& s[1] == Op::ResetMemory
            &&& s.len() == e.devices().len() + 1 + hal2
            &&& forall|i: int| 1 <= i < 10 ==> #[trigger] s[i + 1] == Op::PowerOn(e.devices()[i])
            &&& e.hal2 ==> s[11] == Op::PowerOnHal2
            &&& s[11 + hal2] == Op::PowerOn(Device::Hpc3)
            &&& e.display ==> s[12 + hal2] == Op::PowerOn(Device::Rex3)
        }),
{
    let s = e.power_on_script();
    let hal2: int = if e.hal2 {
        1
    } else {
        0
    };
    let dev = e.devices();
    assert(s[0] == Op::PowerOn(Device::Cpu) && s[1] == Op::ResetMemory && s[2] == Op::PowerOn(Device::Mc));
    assert(s[3] == Op::PowerOn(Device::Ioc) && s[4] == Op::PowerOn(Device::Scc) && s[5] == Op::PowerOn(Device::Pit));
    assert(s[6] == Op::PowerOn(Device::Ps2) && s[7] == Op::PowerOn(Device::Rtc) && s[8] == Op::PowerOn(
        Device::Eeprom,
    ));
    assert(s[9] == Op::PowerOn(Device::Scsi) && s[10] == Op::PowerOn(Device::Seeq));
    assert(e.hal2 ==> s[11] == Op::PowerOnHal2);
    assert(s[11 + hal2] == Op::PowerOn(Device::Hpc3));
    assert(e.display ==> s[12 + hal2] == Op::PowerOn(Device::Rex3));
    assert(dev[1] == Device::Mc && dev[2] == Device::Ioc && dev[3] == Device::Scc && dev[4] == Device::Pit);
    assert(dev[5] == Device::Ps2 && dev[6] == Device::Rtc && dev[7] == Device::Eeprom && dev[8] == Device::Scsi);
    assert(dev[9] == Device::Seeq);
}

/// Saving and loading move the state of every device, in order, then the framebuffers where
/// there is a display, then the four banks. A checkpoint takes and gives back the states,
/// then the banks, then the framebuffers.
pub proof fn law_states_are_moved_in_order(e: Equipment, i: int)
    ensures
        ({
            let n = e.devices().len() as int;
            let fb: int = if e.display {
                1
            } else {
                0
            };
            let (save, load, take, put) = (
                e.save_state_script(),
                e.load_state_script(),
                e.take_script(),
                e.put_script(),
            );
            &&& save.len() == n + fb + 4 && load.len() == n + fb + 4 && take.len() == n + fb + 4 && put.len() == n + fb
                + 4
            &&& 0 <= i < n ==> {
                &&& save[i] == Op::SaveState(e.devices()[i])
                &&& load[i] == Op::LoadState(e.devices()[i])
                &&& take[i] == Op::TakeState(e.devices()[i])
                &&& put[i] == Op::PutState(e.devices()[i])
            }
            &&& e.display ==> {
                &&& save[n] == Op::SaveFramebuffers
                &&& load[n] == Op::LoadFramebuffers
                &&& take[n + 4] == Op::TakeFramebuffers
                &&& put[n + 4] == Op::PutFramebuffers
            }
            &&& 0 <= i < 4 ==> {
                &&& save[n + fb + i] == Op::SaveBank(i as u8)
                &&& load[n + fb + i] == Op::LoadBank(i as u8)
                &&& take[n + i] == Op::TakeBank(i as u8)
                &&& put[n + i] == Op::PutBank(i as u8)
            }
        }),
{
}

/// What the five scripts are made of: each stops the machine first and starts it last, a
/// reset all but the CPU.
pub proof fn law_scripts_are_made_of_their_parts(e: Equipment)
    ensures
        e.save_script() == e.stop_script() + seq![Op::EnsureDir, Op::WriteManifest] + e.save_state_script() + seq![
            Op::ExportOverlays,
            Op::WriteCow,
        ] + e.resume_script(),
        e.load_script() == e.stop_script() + e.power_on_script() + seq![Op::ReadManifest] + e.load_state_script()
            + seq![Op::ReadCow, Op::ImportOverlays] + e.resume_script(),
        e.capture_script() == e.stop_script() + e.take_script() + seq![Op::ReadCow] + e.resume_script(),
        e.rollback_script() == e.stop_script() + e.power_on_script() + e.put_script() + seq![Op::ImportOverlays]
            + e.resume_script(),
        e.reset_script() == e.stop_script() + e.power_on_script() + e.peripherals_script(),
{
}

/// Starting and stopping, the console, the monitor, the directory, the manifest and the list
/// of overlays leave the state of the machine alone. Everything else touches it.
pub proof fn law_what_touches_the_state(op: Op)
    ensures
        touches_state(op) <==> (op is PowerOn || op is PowerOnHal2 || op is ResetMemory || op is SaveState || op
            is LoadState || op is SaveFramebuffers || op is LoadFramebuffers || op is SaveBank || op is LoadBank || op
            is ExportOverlays || op is ImportOverlays || op is TakeState || op is TakeBank || op is TakeFramebuffers
            || op is PutState || op is PutBank || op is PutFramebuffers),
{
}

/// An operation for which the machine has what it is for is carried out once, any other not
/// at all.
pub proof fn law_optional_operations(op: Op)
    ensures
        only_if(true, op) == seq![op],
        only_if(false, op).len() == 0,
{
}

}
