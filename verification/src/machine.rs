//! The machine as a whole: its name, its life cycle, and going back in time.
use crate::clock;
use crate::job::Job;
use crate::ops;
use crate::ops::{Device, Equipment, Op, Part};
use crate::overlay;
use crate::overlay::OverlaySet;
use crate::saves;
use crate::scsi_plan;
use crate::scsi_plan::{ScsiDevice, ScsiStep};
use crate::snapshot;
use crate::snapshot::{Manifest, ManifestModel};
use crate::text;
use crate::toml_value::TomlValue;
use vstd::prelude::*;

verus! {

/// The name of the emulator at a time in nanoseconds: mostly the plain one.
pub open spec fn name_at(now: u64) -> Seq<char> {
    if now % 4 != 0 {
        "Irresponsible Rust IRIX Simulator"@
    } else {
        first_words()[(now / 4 % 8) as int] + " Rust "@ + third_words()[(now / 64 % 4) as int] + " "@
            + fourth_words()[(now / 256 % 4) as int]
    }
}

pub open spec fn first_words() -> Seq<Seq<char>> {
    seq![
        "Irresponsible"@,
        "Incredible"@,
        "Insufferable"@,
        "Infuriating"@,
        "Inaccurate"@,
        "Incomplete"@,
        "Interactive"@,
        "Indomitable"@,
    ]
}

pub open spec fn third_words() -> Seq<Seq<char>> {
    seq!["IRIX"@, "Indy"@, "Iris"@, "IP22"@]
}

pub open spec fn fourth_words() -> Seq<Seq<char>> {
    seq!["Simulator"@, "System"@, "Substitute"@, "Sandbox"@]
}

fn first_word(n: u64) -> (r: &'static str)
    requires
        n < 8,
    ensures
        r@ == first_words()[n as int],
{
    if n == 0 {
        "Irresponsible"
    } else if n == 1 {
        "Incredible"
    } else if n == 2 {
        "Insufferable"
    } else if n == 3 {
        "Infuriating"
    } else if n == 4 {
        "Inaccurate"
    } else if n == 5 {
        "Incomplete"
    } else if n == 6 {
        "Interactive"
    } else {
        "Indomitable"
    }
}

fn third_word(n: u64) -> (r: &'static str)
    requires
        n < 4,
    ensures
        r@ == third_words()[n as int],
{
    if n == 0 {
        "IRIX"
    } else if n == 1 {
        "Indy"
    } else if n == 2 {
        "Iris"
    } else {
        "IP22"
    }
}

fn fourth_word(n: u64) -> (r: &'static str)
    requires
        n < 4,
    ensures
        r@ == fourth_words()[n as int],
{
    if n == 0 {
        "Simulator"
    } else if n == 1 {
        "System"
    } else if n == 2 {
        "Substitute"
    } else {
        "Sandbox"
    }
}

/// The name of the emulator at a time in nanoseconds.
pub fn emulator_name_at(now: u64) -> (r: String)
    ensures
        r@ == name_at(now),
{
    if now % 4 != 0 {
        return "Irresponsible Rust IRIX Simulator".to_owned();
    }
    let mut s = first_word(now / 4 % 8).to_owned();
    s.append(" Rust ");
    s.append(third_word(now / 64 % 4));
    s.append(" ");
    s.append(fourth_word(now / 256 % 4));
    s
}

/// The name of the emulator, given the one that was kept so far and a time for a new one.
pub open spec fn name_or_kept(kept: Option<Seq<char>>, now: u64) -> Seq<char> {
    match kept {
        Some(name) => name,
        None => name_at(now),
    }
}

/// The name of the emulator: the one that was kept, else the one of a time in
/// nanoseconds.
pub fn emulator_name_or_kept(kept: &Option<String>, now: u64) -> (r: String)
    ensures
        r@ == name_or_kept(snapshot::opt_text(*kept), now),
{
    match kept {
        Some(name) => name.clone(),
        None => emulator_name_at(now),
    }
}

/// The name of the emulator. The first call draws it by the clock and keeps it in
/// `kept`; every later one gives it back.
pub fn emulator_name(kept: &mut Option<String>) -> (r: String)
    ensures
        exists|now: u64| r@ == #[trigger] name_or_kept(snapshot::opt_text(*old(kept)), now),
        snapshot::opt_text(*final(kept)) == Some(r@),
{
    let now: u64 = (clock::unix_nanos() % 0x1_0000_0000_0000_0000) as u64;
    let r = emulator_name_or_kept(kept, now);
    assert(r@ == name_or_kept(snapshot::opt_text(*old(kept)), now));
    *kept = Some(r.clone());
    r
}

/// The name of the emulator after some calls, at these times.
pub open spec fn name_after(kept: Option<Seq<char>>, times: Seq<u64>) -> Option<Seq<char>>
    decreases times.len(),
{
    if times.len() == 0 {
        kept
    } else {
        Some(name_or_kept(name_after(kept, times.drop_last()), times.last()))
    }
}

/// The name stays the same, however often and whenever it is asked for: it is the one of
/// the first call.
pub proof fn law_name_is_kept(times: Seq<u64>)
    requires
        times.len() > 0,
    ensures
        name_after(None, times) == Some(name_at(times[0])),
    decreases times.len(),
{
    if times.len() > 1 {
        law_name_is_kept(times.drop_last());
    } else {
        assert(name_after(None, times.drop_last()) is None);
    }
}

/// A word: not empty, and without a space.
pub open spec fn is_word(s: Seq<char>) -> bool {
    s.len() > 0 && forall|i: int| 0 <= i < s.len() ==> #[trigger] s[i] != ' '
}

/// Every name is four words with the initials I, R, I and S, the second being `Rust`.
pub proof fn law_name_spells_iris(now: u64) -> (words: (Seq<char>, Seq<char>, Seq<char>))
    ensures
        name_at(now) == words.0 + " Rust "@ + words.1 + " "@ + words.2,
        is_word(words.0) && is_word(words.1) && is_word(words.2),
        words.0[0] == 'I' && words.1[0] == 'I' && words.2[0] == 'S',
{
    lemma_words(now / 4 % 8, now / 64 % 4, now / 256 % 4);
    if now % 4 != 0 {
        lemma_words(0, 0, 0);
        reveal_strlit("Irresponsible Rust IRIX Simulator");
        reveal_strlit("Irresponsible");
        reveal_strlit(" Rust ");
        reveal_strlit("IRIX");
        reveal_strlit(" ");
        reveal_strlit("Simulator");
        assert("Irresponsible Rust IRIX Simulator"@ =~= "Irresponsible"@ + " Rust "@ + "IRIX"@ + " "@ + "Simulator"@);
        ("Irresponsible"@, "IRIX"@, "Simulator"@)
    } else {
        (
            first_words()[(now / 4 % 8) as int],
            third_words()[(now / 64 % 4) as int],
            fourth_words()[(now / 256 % 4) as int],
        )
    }
}

proof fn lemma_words(a: u64, b: u64, c: u64)
    requires
        a < 8,
        b < 4,
        c < 4,
    ensures
        is_word(first_words()[a as int]) && first_words()[a as int][0] == 'I',
        is_word(third_words()[b as int]) && third_words()[b as int][0] == 'I',
        is_word(fourth_words()[c as int]) && fourth_words()[c as int][0] == 'S',
{
    reveal_strlit("Irresponsible");
    reveal_strlit("Incredible");
    reveal_strlit("Insufferable");
    reveal_strlit("Infuriating");
    reveal_strlit("Inaccurate");
    reveal_strlit("Incomplete");
    reveal_strlit("Interactive");
    reveal_strlit("Indomitable");
    reveal_strlit("IRIX");
    reveal_strlit("Indy");
    reveal_strlit("Iris");
    reveal_strlit("IP22");
    reveal_strlit("Simulator");
    reveal_strlit("System");
    reveal_strlit("Substitute");
    reveal_strlit("Sandbox");
}

/// The state of the machine right after it was loaded, kept in memory.
#[derive(Debug)]
pub struct RollbackCheckpoint {
    /// The directory of the snapshot, which has the overlays of the disks.
    pub overlay_dir: String,
    /// The dirty sectors of the overlays.
    pub overlay_sets: Vec<OverlaySet>,
    /// The words of the banks of memory.
    pub bank_words: [Vec<u32>; 4],
    /// The two framebuffers, where there is a display.
    pub framebuffers: Option<(Vec<u32>, Vec<u32>)>,
    /// The state of each device.
    pub states: Vec<(Device, TomlValue)>,
}

/// The state of a device among some.
pub open spec fn state_among(states: Seq<(Device, TomlValue)>, d: Device) -> Option<TomlValue>
    decreases states.len(),
{
    if states.len() == 0 {
        None
    } else if states[0].0 == d {
        Some(states[0].1)
    } else {
        state_among(states.skip(1), d)
    }
}

impl RollbackCheckpoint {
    /// A checkpoint of the snapshot `name`, made of what was taken: the state of each
    /// device in their order, the four banks, the framebuffers, and the overlays as
    /// far as they are known.
    pub fn collect(
        name: &str,
        equipment: Equipment,
        states: Vec<TomlValue>,
        bank_words: [Vec<u32>; 4],
        framebuffers: Option<(Vec<u32>, Vec<u32>)>,
        overlays: Option<Vec<OverlaySet>>,
    ) -> (r: Self)
        requires
            states@.len() == equipment.devices().len(),
        ensures
            r.overlay_dir@ == saves::snapshot_dir(name@),
            overlay::sets_model(r.overlay_sets@) == (match overlays {
                Some(v) => overlay::sets_model(v@),
                None => seq![],
            }),
            r.bank_words == bank_words,
            r.framebuffers == framebuffers,
            r.states@.len() == states@.len(),
            forall|i: int|
                0 <= i < states@.len() ==> #[trigger] r.states@[i] == (equipment.devices()[i], states@[i]),
    {
        let devices = equipment.state_devices();
        let ghost all = states@;
        let mut pairs: Vec<(Device, TomlValue)> = Vec::new();
        let mut i: usize = 0;
        for state in it: states
            invariant
                it.seq() == all,
                i == it.index(),
                devices@ == equipment.devices(),
                all.len() == devices@.len(),
                pairs@.len() == i,
                forall|k: int| 0 <= k < i ==> #[trigger] pairs@[k] == (devices@[k], all[k]),
        {
            pairs.push((devices[i], state));
            i += 1;
        }
        let overlay_sets: Vec<OverlaySet> = match overlays {
            Some(v) => v,
            None => {
                let none: Vec<OverlaySet> = Vec::new();
                assert(overlay::sets_model(none@) =~= seq![]);
                none
            },
        };
        RollbackCheckpoint {
            overlay_dir: saves::dir_of(name),
            overlay_sets,
            bank_words,
            framebuffers,
            states: pairs,
        }
    }

    /// The state of a device.
    pub fn state_of(&self, d: Device) -> (r: Option<&TomlValue>)
        ensures
            match r {
                Some(v) => state_among(self.states@, d) == Some(*v),
                None => state_among(self.states@, d) is None,
            },
    {
        let mut i: usize = 0;
        assert(self.states@.skip(0) =~= self.states@);
        while i < self.states.len()
            invariant
                i <= self.states.len(),
                state_among(self.states@, d) == state_among(self.states@.skip(i as int), d),
            decreases self.states.len() - i,
        {
            if self.states[i].0 == d {
                return Some(&self.states[i].1);
            }
            proof {
                assert(self.states@.skip(i as int).skip(1) =~= self.states@.skip(i + 1));
            }
            i += 1;
        }
        None
    }
}

/// The configuration of the machine, as far as it decides on its parts.
#[derive(Debug)]
pub struct MachineConfig {
    /// Driven by the control socket.
    pub ci: bool,
    /// Without a display.
    pub headless: bool,
    /// With an audio device.
    pub hal2: bool,
    /// The sizes of the banks of memory.
    pub banks: [u32; 4],
    /// The SCSI devices by their numbers.
    pub scsi: Vec<(u8, ScsiDevice)>,
}

/// The machine.
#[derive(Debug)]
pub struct Machine {
    pub equipment: Equipment,
    pub ci: bool,
    /// The snapshot that was restored last.
    pub last_restore: Option<String>,
    /// The state right after the last restore, as long as nothing else was loaded.
    pub last_restore_checkpoint: Option<RollbackCheckpoint>,
    /// The scratch volume, where one is configured.
    pub scratch_path: Option<String>,
}

/// What the machine remembers of the snapshots that it took in.
pub struct Memory {
    pub restored: Option<Seq<char>>,
    pub checkpoint: Option<RollbackCheckpoint>,
}

/// Where a rollback takes the state from, as a model.
pub enum Source {
    Memory(RollbackCheckpoint),
    Disk(Seq<char>),
}

impl Memory {
    /// Once a load has begun.
    pub open spec fn load_begun(self) -> Memory {
        Memory { checkpoint: None, ..self }
    }

    /// Once the load of a restore is over.
    pub open spec fn restore_loaded(self, name: Seq<char>, went_well: bool) -> Memory {
        if went_well {
            Memory { restored: Some(name), ..self }
        } else {
            self
        }
    }

    /// Once a checkpoint was taken, or could not be.
    pub open spec fn captured(self, checkpoint: Option<RollbackCheckpoint>) -> Memory {
        Memory { checkpoint, ..self }
    }

    /// Where a rollback takes the state from.
    pub open spec fn rollback_source(self) -> Option<Source> {
        match (self.checkpoint, self.restored) {
            (Some(checkpoint), _) => Some(Source::Memory(checkpoint)),
            (None, Some(name)) => Some(Source::Disk(name)),
            (None, None) => None,
        }
    }
}

/// What a new machine is made of.
#[derive(Debug)]
pub struct Assembly {
    pub machine: Machine,
    /// The sizes of the banks of memory; a bank that is not there has one unit.
    pub bank_sizes: [usize; 4],
    /// The steps that attach the SCSI devices.
    pub scsi_steps: Vec<ScsiStep>,
}

/// The size of a bank.
pub open spec fn bank_size(configured: u32) -> int {
    if configured == 0 {
        1
    } else {
        configured as int
    }
}

/// Where a rollback takes the state from.
#[derive(Debug)]
pub enum Rollback {
    /// The checkpoint in memory, by this script.
    Memory(Job),
    /// The snapshot of this name, which is restored anew.
    Disk(String),
}

/// Whether a job is a script at its beginning.
pub open spec fn is_new_job(job: Job, script: Seq<Op>, import_error: Seq<char>, host_arch: Seq<char>) -> bool {
    &&& job.ops@ == script
    &&& job.at == 0
    &&& job.import_error@ == import_error
    &&& job.host_arch@ == host_arch
    &&& job.schema_version == 0
}

/// A job that has not begun.
fn new_job(script: Vec<Op>, import_error: &str, host_arch: &str, overlays: Option<Vec<OverlaySet>>) -> (r: Job)
    ensures
        is_new_job(r, script@, import_error@, host_arch@),
        r.overlays == overlays,
{
    Job {
        ops: script,
        at: 0,
        import_error: import_error.to_owned(),
        host_arch: host_arch.to_owned(),
        schema_version: 0,
        overlays,
    }
}

/// A copy of some overlays.
fn copy_overlays(sets: &Vec<OverlaySet>) -> (r: Vec<OverlaySet>)
    ensures
        overlay::sets_model(r@) == overlay::sets_model(sets@),
{
    let mut r: Vec<OverlaySet> = Vec::new();
    let mut i: usize = 0;
    while i < sets.len()
        invariant
            i <= sets.len(),
            r@.len() == i,
            forall|k: int| 0 <= k < i ==> (#[trigger] r@[k]).0 == sets@[k].0 && r@[k].1@ == sets@[k].1@,
        decreases sets.len() - i,
    {
        let mut sectors: Vec<u64> = Vec::new();
        sectors.extend_from_slice(sets[i].1.as_slice());
        assert(sectors@ =~= sets@[i as int].1@);
        r.push((sets[i].0, sectors));
        i += 1;
    }
    assert(overlay::sets_model(r@) =~= overlay::sets_model(sets@));
    r
}

impl Machine {
    /// What the machine remembers of the snapshots that it took in.
    pub open spec fn memory(self) -> Memory {
        Memory { restored: snapshot::opt_text(self.last_restore), checkpoint: self.last_restore_checkpoint }
    }

    /// The parts of the machine that no snapshot changes.
    pub open spec fn same_build(self, other: Machine) -> bool {
        &&& self.equipment == other.equipment
        &&& self.ci == other.ci
        &&& self.scratch_path == other.scratch_path
    }

    /// The machine for a configuration, and what it is put together from. `pid` is
    /// the number of this process.
    pub fn new(cfg: &MachineConfig, pid: u32) -> (r: Assembly)
        ensures
            r.machine.equipment == (Equipment { display: !cfg.headless, hal2: cfg.hal2 }),
            r.machine.ci == cfg.ci,
            r.machine.memory() == (Memory { restored: None, checkpoint: None }),
            snapshot::opt_text(r.machine.scratch_path) == scsi_plan::scratch_volume(cfg.scsi@),
            forall|i: int| 0 <= i < 4 ==> #[trigger] r.bank_sizes@[i] == bank_size(cfg.banks@[i]),
            scsi_plan::step_models(r.scsi_steps@) == scsi_plan::scsi_steps(cfg.scsi@, cfg.ci, pid),
    {
        let mut bank_sizes: [usize; 4] = [1usize; 4];
        let mut i: usize = 0;
        while i < 4
            invariant
                i <= 4,
                forall|k: int| 0 <= k < i ==> #[trigger] bank_sizes@[k] == bank_size(cfg.banks@[k]),
            decreases 4 - i,
        {
            let n: u32 = cfg.banks[i];
            bank_sizes[i] = if n == 0 {
                1
            } else {
                n as usize
            };
            i += 1;
        }
        let (scsi_steps, scratch_path) = scsi_plan::plan(&cfg.scsi, cfg.ci, pid);
        Assembly {
            machine: Machine {
                equipment: Equipment { display: !cfg.headless, hal2: cfg.hal2 },
                ci: cfg.ci,
                last_restore: None,
                last_restore_checkpoint: None,
                scratch_path,
            },
            bank_sizes,
            scsi_steps,
        }
    }

    /// The scratch volume, where one is configured.
    pub fn scratch_path(&self) -> (r: Option<&str>)
        ensures
            match (self.scratch_path, r) {
                (Some(p), Some(q)) => q@ == p@,
                (None, None) => true,
                _ => false,
            },
    {
        match &self.scratch_path {
            Some(p) => Some(p.as_str()),
            None => None,
        }
    }

    /// The manifest of a snapshot of this machine, saved at a given time: its parent
    /// is the snapshot that was restored last.
    pub fn manifest_at(&self, git_rev: Option<String>, host_arch: &str, created_at_unix: u64) -> (r: Manifest)
        ensures
            r@ == (ManifestModel {
                schema_version: snapshot::SCHEMA_VERSION as int,
                iris_git_rev: snapshot::opt_text(git_rev),
                host_arch: host_arch@,
                created_at_unix: created_at_unix as int,
                parent: snapshot::opt_text(self.last_restore),
                description: None,
                installed_bundles: seq![],
            }),
    {
        let mut m = Manifest::for_save_at(git_rev, host_arch, created_at_unix);
        m.parent = match &self.last_restore {
            Some(n) => Some(n.clone()),
            None => None,
        };
        m
    }

    /// The manifest of a snapshot of this machine, saved now.
    pub fn manifest_now(&self, git_rev: Option<String>, host_arch: &str) -> (r: Manifest)
        ensures
            r.schema_version == snapshot::SCHEMA_VERSION,
            snapshot::opt_text(r.iris_git_rev) == snapshot::opt_text(git_rev),
            r.host_arch@ == host_arch@,
            snapshot::opt_text(r.parent) == snapshot::opt_text(self.last_restore),
            r.description is None,
            r.installed_bundles@.len() == 0,
    {
        let mut m = Manifest::for_current_save(git_rev, host_arch);
        m.parent = match &self.last_restore {
            Some(n) => Some(n.clone()),
            None => None,
        };
        m
    }

    /// Begins to save a snapshot.
    pub fn save_snapshot(&self, host_arch: &str) -> (r: Job)
        ensures
            is_new_job(r, self.equipment.save_script(), ""@, host_arch@),
            r.overlays is None,
    {
        new_job(self.equipment.save(), "", host_arch, None)
    }

    /// Begins to load a snapshot. A checkpoint in memory does not go with it and is
    /// given up.
    pub fn load_snapshot(&mut self, host_arch: &str) -> (r: Job)
        ensures
            is_new_job(r, old(self).equipment.load_script(), "COW overlay import: "@, host_arch@),
            r.overlays is None,
            final(self).memory() == old(self).memory().load_begun(),
            final(self).same_build(*old(self)),
    {
        self.last_restore_checkpoint = None;
        new_job(self.equipment.load(), "COW overlay import: ", host_arch, None)
    }

    /// Begins to restore a snapshot for the control socket: as a load, with the
    /// console emptied first.
    pub fn ci_restore(&mut self, host_arch: &str) -> (r: Job)
        ensures
            is_new_job(
                r,
                ops::only_if(old(self).ci, Op::ResetSerial) + old(self).equipment.load_script(),
                "COW overlay import: "@,
                host_arch@,
            ),
            r.overlays is None,
            final(self).memory() == old(self).memory().load_begun(),
            final(self).same_build(*old(self)),
    {
        let mut job = self.load_snapshot(host_arch);
        if self.ci {
            job.ops.insert(0, Op::ResetSerial);
        }
        assert(job.ops@ =~= ops::only_if(self.ci, Op::ResetSerial) + self.equipment.load_script());
        job
    }

    /// Takes in what came of the load of a restore. After a load that went well the
    /// snapshot is the one that was restored last, and a checkpoint is to be taken by
    /// the job given back; one that failed is reported.
    pub fn ci_restore_loaded(&mut self, name: &str, loaded: Result<(), String>, host_arch: &str) -> (r: Result<
        Job,
        String,
    >)
        ensures
            match loaded {
                Ok(_) => r matches Ok(job) && {
                    &&& is_new_job(job, old(self).equipment.capture_script(), ""@, host_arch@)
                    &&& job.overlays is None
                },
                Err(e) => r matches Err(x) && x@ == e@,
            },
            final(self).memory() == old(self).memory().restore_loaded(name@, loaded is Ok),
            final(self).same_build(*old(self)),
    {
        match loaded {
            Ok(_) => {
                self.last_restore = Some(name.to_owned());
                Ok(new_job(self.equipment.capture(), "", host_arch, None))
            },
            Err(e) => Err(e),
        }
    }

    /// Takes in the checkpoint of a restore, where it could be taken. Without one a
    /// rollback reads the snapshot from disk.
    pub fn ci_restore_captured(&mut self, checkpoint: Option<RollbackCheckpoint>)
        ensures
            final(self).memory() == old(self).memory().captured(checkpoint),
            final(self).same_build(*old(self)),
    {
        self.last_restore_checkpoint = checkpoint;
    }

    /// Begins to go back to the state of the last restore: from memory where there
    /// is a checkpoint, else from disk. Nothing was restored where there is neither.
    /// The script given back comes first in any case: it empties the console.
    pub fn ci_rollback(&self, host_arch: &str) -> (r: (Vec<Op>, Result<Rollback, String>))
        ensures
            r.0@ == ops::only_if(self.ci, Op::ResetSerial),
            match self.memory().rollback_source() {
                Some(Source::Memory(cp)) => r.1 matches Ok(Rollback::Memory(job)) && {
                    &&& is_new_job(
                        job,
                        self.equipment.rollback_script(),
                        "rollback: COW overlay import: "@,
                        host_arch@,
                    )
                    &&& job.overlays matches Some(v) && overlay::sets_model(v@) == overlay::sets_model(
                        cp.overlay_sets@,
                    )
                },
                Some(Source::Disk(name)) => r.1 matches Ok(Rollback::Disk(n)) && n@ == name,
                None => r.1 matches Err(e) && e@ == "no previous restore to roll back to"@,
            },
    {
        let mut first: Vec<Op> = Vec::new();
        if self.ci {
            first.push(Op::ResetSerial);
        }
        assert(first@ =~= ops::only_if(self.ci, Op::ResetSerial));
        let rollback = match &self.last_restore_checkpoint {
            Some(cp) => Ok(
                Rollback::Memory(
                    new_job(
                        self.equipment.rollback(),
                        "rollback: COW overlay import: ",
                        host_arch,
                        Some(copy_overlays(&cp.overlay_sets)),
                    ),
                ),
            ),
            None => match &self.last_restore {
                Some(name) => Ok(Rollback::Disk(name.clone())),
                None => Err("no previous restore to roll back to".to_owned()),
            },
        };
        (first, rollback)
    }

    /// The scripts round work that is done while the machine is stopped: the one
    /// before it, and the one after it, which starts the CPU only if it ran.
    pub fn with_paused(&self, was_running: bool) -> (r: (Vec<Op>, Vec<Op>))
        ensures
            r.0@ == self.equipment.stop_script(),
            r.1@ == self.equipment.unpause_script(was_running),
    {
        (self.equipment.stop(), self.equipment.unpause(was_running))
    }

    /// The script that brings the machine up. `autostart` tells whether this build
    /// starts the CPU by itself.
    pub fn start(&self, autostart: bool) -> (r: Vec<Op>)
        ensures
            r@ == self.equipment.start_script(self.ci, autostart),
    {
        self.equipment.start(self.ci, autostart)
    }

    /// The script that stops everything.
    pub fn stop(&self) -> (r: Vec<Op>)
        ensures
            r@ == self.equipment.stop_script(),
    {
        self.equipment.stop()
    }

    /// The script that brings everything to its state at power-on. The CPU is left
    /// stopped.
    pub fn reset(&self) -> (r: Vec<Op>)
        ensures
            r@ == self.equipment.reset_script(),
    {
        self.equipment.reset()
    }

    /// The operation that starts the CPU, which nothing else does under the control
    /// socket before the first restore.
    pub fn cpu_start(&self) -> (r: Op)
        ensures
            r == Op::Start(Part::Cpu),
    {
        Op::Start(Part::Cpu)
    }
}

/// A rollback after a restore goes back to that restore: to the state that was taken
/// right after it, or to the snapshot itself where none could be taken.
pub proof fn law_rollback_goes_back_to_the_restore(
    m: Memory,
    name: Seq<char>,
    checkpoint: Option<RollbackCheckpoint>,
)
    ensures
        m.load_begun().restore_loaded(name, true).captured(checkpoint).rollback_source() == Some(
            match checkpoint {
                Some(cp) => Source::Memory(cp),
                None => Source::Disk(name),
            },
        ),
{
}

/// No rollback goes back to a state from before a load: once one has begun, the
/// checkpoint is gone, also where the load fails.
pub proof fn law_load_gives_up_the_checkpoint(m: Memory, name: Seq<char>)
    ensures
        !(m.load_begun().rollback_source() matches Some(Source::Memory(_))),
        m.load_begun().restore_loaded(name, false).rollback_source() == m.load_begun().rollback_source(),
{
}

/// A rollback from disk restores the snapshot that was restored last, so that it
/// stays the one to go back to.
pub proof fn law_rollback_can_be_repeated(m: Memory, checkpoint: Option<RollbackCheckpoint>)
    ensures
        m.rollback_source() matches Some(Source::Disk(name)) ==> m.load_begun().restore_loaded(
            name,
            true,
        ).captured(checkpoint).restored == Some(name),
{
}

/// Work that is done while the machine is paused finds nothing running, and the CPU
/// runs afterwards if and only if it ran before.
pub proof fn law_pause_keeps_the_cpu_as_it_was(e: Equipment, r: ops::Running)
    requires
        ops::can_run(e, r),
    ensures
        r.after_all(e.stop_script()).quiet(),
        r.after_all(e.stop_script() + e.unpause_script(r.cpu)).cpu == r.cpu,
{
    ops::law_stopped_during(e, r, seq![], r.cpu);
    let all = ops::stopped_during(e, seq![], r.cpu);
    assert(all =~= e.stop_script() + e.unpause_script(r.cpu));
    assert(all.take(e.stop_script().len() as int) =~= e.stop_script());
    assert(r.after_all(all.take(e.stop_script().len() as int)).quiet());
}

/// The state that a checkpoint holds of a device is the one that was taken of it.
pub proof fn law_checkpoint_holds_each_state(
    e: Equipment,
    states: Seq<(Device, TomlValue)>,
    taken: Seq<TomlValue>,
    i: int,
)
    requires
        taken.len() == e.devices().len(),
        states.len() == taken.len(),
        forall|k: int| 0 <= k < taken.len() ==> #[trigger] states[k] == (e.devices()[k], taken[k]),
        0 <= i < taken.len(),
    ensures
        state_among(states, e.devices()[i]) == Some(taken[i]),
        e.take_script()[i] == Op::TakeState(e.devices()[i]),
        e.put_script()[i] == Op::PutState(e.devices()[i]),
{
    lemma_state_among(e, states, taken, i, 0);
    assert(states.skip(0) =~= states);
}

proof fn lemma_state_among(e: Equipment, states: Seq<(Device, TomlValue)>, taken: Seq<TomlValue>, i: int, k: int)
    requires
        taken.len() == e.devices().len(),
        states.len() == taken.len(),
        forall|k: int| 0 <= k < taken.len() ==> #[trigger] states[k] == (e.devices()[k], taken[k]),
        0 <= k <= i < taken.len(),
    ensures
        state_among(states.skip(k), e.devices()[i]) == Some(taken[i]),
    decreases i - k,
{
    let rest = states.skip(k);
    assert(rest[0] == states[k]);
    if k < i {
        assert(e.devices()[k] != e.devices()[i]);
        assert(rest.skip(1) =~= states.skip(k + 1));
        lemma_state_among(e, states, taken, i, k + 1);
    }
}

/// What the monitor asks for.
#[derive(Debug)]
pub enum MonitorAction {
    Stop,
    Start,
    Reset,
    Save(String),
    Load(String),
}

/// What the monitor asks for, as a model.
pub enum MonitorWish {
    Stop,
    Start,
    Reset,
    Save(Seq<char>),
    Load(Seq<char>),
}

impl View for MonitorAction {
    type V = MonitorWish;

    open spec fn view(&self) -> MonitorWish {
        match self {
            MonitorAction::Stop => MonitorWish::Stop,
            MonitorAction::Start => MonitorWish::Start,
            MonitorAction::Reset => MonitorWish::Reset,
            MonitorAction::Save(n) => MonitorWish::Save(n@),
            MonitorAction::Load(n) => MonitorWish::Load(n@),
        }
    }
}

/// What a command of the monitor comes to: what is asked for and the line that says
/// so, or why the command is refused.
pub open spec fn monitor_command(cmd: Seq<char>, args: Seq<Seq<char>>) -> Result<
    (MonitorWish, Seq<char>),
    Seq<char>,
> {
    if cmd == "machine-stop"@ {
        Ok((MonitorWish::Stop, "Stopping machine..."@))
    } else if cmd == "machine-start"@ {
        Ok((MonitorWish::Start, "Starting machine..."@))
    } else if cmd == "reset"@ {
        Ok((MonitorWish::Reset, "Resetting machine..."@))
    } else if cmd == "save"@ {
        if args.len() == 0 {
            Err("Usage: save <name>"@)
        } else {
            Ok((MonitorWish::Save(args[0]), "Saving snapshot '"@ + args[0] + "'..."@))
        }
    } else if cmd == "load"@ {
        if args.len() == 0 {
            Err("Usage: load <name>"@)
        } else {
            Ok((MonitorWish::Load(args[0]), "Loading snapshot '"@ + args[0] + "'..."@))
        }
    } else {
        Err("Unknown command: "@ + cmd)
    }
}

/// An event that a device raises.
#[derive(Clone, Copy, Debug, PartialEq, Eq, Structural)]
pub enum MachineEvent {
    HardReset,
    PowerOff,
}

/// The commands of the monitor that act on the machine as a whole.
#[derive(Debug)]
pub struct SystemController {
    pub equipment: Equipment,
}

impl SystemController {
    /// The commands and what they do.
    pub fn register_commands() -> (r: Vec<(&'static str, &'static str)>)
        ensures
            r@.len() == 5,
            r@[0].0@ == "machine-stop"@ && r@[0].1@ == "Stop CPU and all peripherals"@,
            r@[1].0@ == "machine-start"@ && r@[1].1@ == "Start CPU and all peripherals"@,
            r@[2].0@ == "reset"@ && r@[2].1@ == "Reset all hardware to power-on state"@,
            r@[3].0@ == "save"@ && r@[3].1@ == "save <name> — Save snapshot to saves/<name>/"@,
            r@[4].0@ == "load"@ && r@[4].1@ == "load <name> — Load snapshot from saves/<name>/"@,
    {
        let mut r: Vec<(&'static str, &'static str)> = Vec::new();
        r.push(("machine-stop", "Stop CPU and all peripherals"));
        r.push(("machine-start", "Start CPU and all peripherals"));
        r.push(("reset", "Reset all hardware to power-on state"));
        r.push(("save", "save <name> — Save snapshot to saves/<name>/"));
        r.push(("load", "load <name> — Load snapshot from saves/<name>/"));
        r
    }

    /// Decides a command of the monitor.
    pub fn execute_command(cmd: &str, args: &Vec<String>) -> (r: Result<(MonitorAction, String), String>)
        ensures
            match r {
                Ok((a, line)) => monitor_command(cmd@, text::texts(args@)) == Ok::<
                    (MonitorWish, Seq<char>),
                    Seq<char>,
                >((a@, line@)),
                Err(e) => monitor_command(cmd@, text::texts(args@)) == Err::<(MonitorWish, Seq<char>), Seq<char>>(e@),
            },
    {
        if text::same(cmd, "machine-stop") {
            Ok((MonitorAction::Stop, "Stopping machine...".to_owned()))
        } else if text::same(cmd, "machine-start") {
            Ok((MonitorAction::Start, "Starting machine...".to_owned()))
        } else if text::same(cmd, "reset") {
            Ok((MonitorAction::Reset, "Resetting machine...".to_owned()))
        } else if text::same(cmd, "save") {
            if args.len() == 0 {
                return Err("Usage: save <name>".to_owned());
            }
            let mut line = "Saving snapshot '".to_owned();
            line.append(args[0].as_str());
            line.append("'...");
            Ok((MonitorAction::Save(args[0].clone()), line))
        } else if text::same(cmd, "load") {
            if args.len() == 0 {
                return Err("Usage: load <name>".to_owned());
            }
            let mut line = "Loading snapshot '".to_owned();
            line.append(args[0].as_str());
            line.append("'...");
            Ok((MonitorAction::Load(args[0].clone()), line))
        } else {
            let mut e = "Unknown command: ".to_owned();
            e.append(cmd);
            Err(e)
        }
    }

    /// The script for an event: a hard reset starts the CPU again, and at power-off
    /// everything stops.
    pub fn event_script(&self, event: MachineEvent) -> (r: Vec<Op>)
        ensures
            r@ == (match event {
                MachineEvent::HardReset => self.equipment.reset_script().push(Op::Start(Part::Cpu)),
                MachineEvent::PowerOff => self.equipment.stop_script(),
            }),
    {
        match event {
            MachineEvent::HardReset => {
                let mut r = self.equipment.reset();
                r.push(Op::Start(Part::Cpu));
                r
            },
            MachineEvent::PowerOff => self.equipment.stop(),
        }
    }
}

/// The name of the emulator at a time of `256 * d + 64 * c + 4 * a + r` nanoseconds, where
/// `r` is below 4, `a` below 16, `c` and `d` any number: the plain one unless `r` is zero,
/// and else made of the words that `a`, `c` and `d` pick.
pub proof fn law_name_by_the_clock(now: u64, a: int, c: int, d: int, r: int)
    requires
        now == 256 * d + 64 * c + 4 * a + r,
        0 <= r < 4,
        0 <= a < 16,
        0 <= c < 4,
        0 <= d,
    ensures
        r != 0 ==> name_at(now) == "Irresponsible Rust IRIX Simulator"@,
        r == 0 ==> name_at(now) == (if a % 8 == 0 {
            "Irresponsible"@
        } else if a % 8 == 1 {
            "Incredible"@
        } else if a % 8 == 2 {
            "Insufferable"@
        } else if a % 8 == 3 {
            "Infuriating"@
        } else if a % 8 == 4 {
            "Inaccurate"@
        } else if a % 8 == 5 {
            "Incomplete"@
        } else if a % 8 == 6 {
            "Interactive"@
        } else {
            "Indomitable"@
        }) + " Rust "@ + (if c == 0 {
            "IRIX"@
        } else if c == 1 {
            "Indy"@
        } else if c == 2 {
            "Iris"@
        } else {
            "IP22"@
        }) + " "@ + (if d % 4 == 0 {
            "Simulator"@
        } else if d % 4 == 1 {
            "System"@
        } else if d % 4 == 2 {
            "Substitute"@
        } else {
            "Sandbox"@
        }),
{
    let n = now as int;
    assert(n % 4 == r && n / 4 == 64 * d + 16 * c + a);
    assert(n / 4 % 8 == a % 8);
    assert(n / 64 == 4 * d + c && n / 64 % 4 == c);
    assert(n / 256 == d);
}

/// A name that is kept is given back; one is drawn only where none is.
pub proof fn law_kept_names_are_given_back(name: Seq<char>, now: u64)
    ensures
        name_or_kept(Some(name), now) == name,
        name_or_kept(None, now) == name_at(now),
{
}

/// Of the states in a checkpoint, that of a device is the first that is named after it, and
/// there is none where none is.
pub proof fn law_state_of_a_device(states: Seq<(Device, TomlValue)>, d: Device, i: int)
    requires
        0 <= i <= states.len(),
        forall|k: int| 0 <= k < i ==> (#[trigger] states[k]).0 != d,
        i < states.len() ==> states[i].0 == d,
    ensures
        i < states.len() ==> state_among(states, d) == Some(states[i].1),
        i == states.len() ==> state_among(states, d) is None,
    decreases states.len(),
{
    if i > 0 {
        assert(states[0].0 != d);
        let rest = states.skip(1);
        assert forall|k: int| 0 <= k < i - 1 implies (#[trigger] rest[k]).0 != d by {
            assert(rest[k] == states[k + 1]);
        }
        law_state_of_a_device(rest, d, i - 1);
    }
}

/// What the machine remembers: a load that has begun takes the checkpoint away and leaves
/// the name of the last restore; a restore that went well puts its name there, one that did
/// not changes nothing; and the checkpoint that was taken, or none, is what is there then. A
/// rollback goes to the checkpoint, else to the snapshot of that name, else nowhere.
pub proof fn law_what_the_machine_remembers(m: Memory, name: Seq<char>, cp: Option<RollbackCheckpoint>)
    ensures
        m.load_begun().checkpoint is None && m.load_begun().restored == m.restored,
        m.restore_loaded(name, true).restored == Some(name),
        m.restore_loaded(name, true).checkpoint == m.checkpoint,
        m.restore_loaded(name, false) == m,
        m.captured(cp).checkpoint == cp && m.captured(cp).restored == m.restored,
        m.checkpoint matches Some(c) ==> m.rollback_source() == Some(Source::Memory(c)),
        m.checkpoint is None ==> (m.restored matches Some(n) ==> m.rollback_source() == Some(Source::Disk(n))),
        m.checkpoint is None && m.restored is None ==> m.rollback_source() is None,
{
}

/// The overlays that a rollback imports are the disks and sectors that were saved: those
/// that the job of the checkpoint ended with, kept in the checkpoint.
pub proof fn law_rollback_imports_what_was_saved(
    captured: Job,
    cp: RollbackCheckpoint,
    rollback: Job,
    sets: Seq<(nat, Seq<u64>)>,
)
    requires
        captured@.overlays matches Some(o) && o.to_multiset() == sets.to_multiset(),
        captured.overlays matches Some(v) && overlay::sets_model(cp.overlay_sets@) == overlay::sets_model(v@),
        rollback.overlays matches Some(v) && overlay::sets_model(v@) == overlay::sets_model(cp.overlay_sets@),
    ensures
        rollback@.overlays matches Some(o) && o.to_multiset() == sets.to_multiset(),
{
}

/// A new job is a script at its beginning, with what was given for it.
pub proof fn law_new_job(job: Job, script: Seq<Op>, import_error: Seq<char>, host_arch: Seq<char>)
    requires
        is_new_job(job, script, import_error, host_arch),
    ensures
        job@.ops == script,
        job@.at == 0,
        job@.import_error == import_error,
        job@.host_arch == host_arch,
        job@.schema_version == 0,
{
}

/// A bank of memory has its configured size; one that is not there has one unit.
pub proof fn law_bank_sizes(configured: u32)
    ensures
        configured > 0 ==> bank_size(configured) == configured,
        configured == 0 ==> bank_size(configured) == 1,
{
}

/// The monitor takes five commands. Saving and loading take the first word behind them as
/// the name, whatever it is, and need one; every other command is unknown.
pub proof fn law_monitor_commands(cmd: Seq<char>, args: Seq<Seq<char>>)
    ensures
        monitor_command("machine-stop"@, args) == Ok::<(MonitorWish, Seq<char>), Seq<char>>(
            (MonitorWish::Stop, "Stopping machine..."@),
        ),
        monitor_command("machine-start"@, args) == Ok::<(MonitorWish, Seq<char>), Seq<char>>(
            (MonitorWish::Start, "Starting machine..."@),
        ),
        monitor_command("reset"@, args) == Ok::<(MonitorWish, Seq<char>), Seq<char>>(
            (MonitorWish::Reset, "Resetting machine..."@),
        ),
        args.len() > 0 ==> monitor_command("save"@, args) == Ok::<(MonitorWish, Seq<char>), Seq<char>>(
            (MonitorWish::Save(args[0]), "Saving snapshot '"@ + args[0] + "'..."@),
        ),
        args.len() > 0 ==> monitor_command("load"@, args) == Ok::<(MonitorWish, Seq<char>), Seq<char>>(
            (MonitorWish::Load(args[0]), "Loading snapshot '"@ + args[0] + "'..."@),
        ),
        args.len() == 0 ==> monitor_command("save"@, args) == Err::<(MonitorWish, Seq<char>), Seq<char>>(
            "Usage: save <name>"@,
        ),
        args.len() == 0 ==> monitor_command("load"@, args) == Err::<(MonitorWish, Seq<char>), Seq<char>>(
            "Usage: load <name>"@,
        ),
        cmd != "machine-stop"@ && cmd != "machine-start"@ && cmd != "reset"@ && cmd != "save"@ && cmd != "load"@
            ==> monitor_command(cmd, args) == Err::<(MonitorWish, Seq<char>), Seq<char>>("Unknown command: "@ + cmd),
{
    reveal_strlit("machine-stop");
    reveal_strlit("machine-start");
    reveal_strlit("reset");
    reveal_strlit("save");
    reveal_strlit("load");
    assert("machine-stop"@.len() == 12 && "machine-start"@.len() == 13 && "reset"@.len() == 5);
    assert("save"@.len() == 4 && "load"@.len() == 4);
    assert("save"@[0] != "load"@[0]);
}

/// What a machine remembers is the name of its last restore and its checkpoint; what it is
/// built of are its equipment, its control socket and its scratch volume.
pub proof fn law_memory_of_a_machine(m: Machine, other: Machine)
    ensures
        m.memory().checkpoint == m.last_restore_checkpoint,
        m.last_restore is None <==> m.memory().restored is None,
        m.last_restore matches Some(n) ==> m.memory().restored == Some(n@),
        m.same_build(other) <==> m.equipment == other.equipment && m.ci == other.ci && m.scratch_path
            == other.scratch_path,
{
}

/// What the monitor asks for is what was decided, with the same name.
pub proof fn law_monitor_actions(n: String)
    ensures
        MonitorAction::Stop@ == MonitorWish::Stop && MonitorAction::Start@ == MonitorWish::Start,
        MonitorAction::Reset@ == MonitorWish::Reset,
        MonitorAction::Save(n)@ == MonitorWish::Save(n@),
        MonitorAction::Load(n)@ == MonitorWish::Load(n@),
{
}

}
