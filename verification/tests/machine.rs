use iris::job::{
    bank_file, check_manifest, device_name, state_file_to_read, state_file_to_write, Job, Progress, Reply, StateFormat,
};
use iris::machine::{
    emulator_name, emulator_name_at, emulator_name_or_kept, Machine, MachineConfig, MachineEvent, MonitorAction, Rollback,
    RollbackCheckpoint, SystemController,
};
use iris::ops::{Device, Equipment, Op, Part};
use iris::scsi_plan::{ScsiDevice, ScsiStep};
use iris::snapshot::{Contents, Manifest, Snapshot};
use iris::toml_value::TomlValue;

const ARCH: &str = "x86_64";

fn disk(path: &str) -> ScsiDevice {
    ScsiDevice {
        path: path.to_string(),
        cdrom: false,
        discs: vec![],
        overlay: false,
        scratch: false,
        size_mb: None,
    }
}

fn config(ci: bool, headless: bool) -> MachineConfig {
    MachineConfig { ci, headless, hal2: true, banks: [128, 64, 0, 0], scsi: vec![] }
}

fn machine(ci: bool, headless: bool) -> Machine {
    Machine::new(&config(ci, headless), 7).machine
}

fn checkpoint(m: &Machine) -> RollbackCheckpoint {
    let n = m.equipment.state_devices().len();
    let states = (0..n).map(|i| TomlValue::Integer(i as i64)).collect();
    RollbackCheckpoint::collect(
        "base",
        m.equipment,
        states,
        [vec![1], vec![2], vec![3], vec![4]],
        None,
        Some(vec![(1, vec![5, 6])]),
    )
}

fn manifest_text(arch: &str, version: u32) -> String {
    let m = Manifest {
        schema_version: version,
        iris_git_rev: None,
        host_arch: arch.to_string(),
        created_at_unix: 0,
        parent: None,
        description: None,
        installed_bundles: vec![],
    };
    Snapshot::new("saves/x".to_string()).write_manifest(&m).unwrap().text
}

#[test]
fn emulator_has_its_names() {
    assert_eq!(emulator_name_at(1), "Irresponsible Rust IRIX Simulator");
    assert_eq!(emulator_name_at(0), "Irresponsible Rust IRIX Simulator");
    assert_eq!(emulator_name_at(4), "Incredible Rust IRIX Simulator");
    assert_eq!(emulator_name_at(28), "Indomitable Rust IRIX Simulator");
    assert_eq!(emulator_name_at(64), "Irresponsible Rust Indy Simulator");
    assert_eq!(emulator_name_at(128 + 8), "Insufferable Rust Iris Simulator");
    assert_eq!(emulator_name_at(192), "Irresponsible Rust IP22 Simulator");
    assert_eq!(emulator_name_at(256 + 12), "Infuriating Rust IRIX System");
    assert_eq!(emulator_name_at(512 + 16), "Inaccurate Rust IRIX Substitute");
    assert_eq!(emulator_name_at(768 + 20), "Incomplete Rust IRIX Sandbox");
    assert_eq!(emulator_name_at(24), "Interactive Rust IRIX Simulator");
}

#[test]
fn emulator_keeps_its_name() {
    let mut kept = None;
    let first = emulator_name(&mut kept);
    assert_eq!(kept.as_deref(), Some(first.as_str()));
    let initials: Vec<char> = first.split(' ').map(|w| w.chars().next().unwrap()).collect();
    assert_eq!(initials, vec!['I', 'R', 'I', 'S']);
    for _ in 0..100 {
        assert_eq!(emulator_name(&mut kept), first);
    }
    let mut other = Some("Indomitable Rust IP22 Sandbox".to_string());
    assert_eq!(emulator_name(&mut other), "Indomitable Rust IP22 Sandbox");
    assert_eq!(emulator_name_or_kept(&other, 4), "Indomitable Rust IP22 Sandbox");
    assert_eq!(emulator_name_or_kept(&None, 4), "Incredible Rust IRIX Simulator");
}

#[test]
fn stop_and_start_are_in_order() {
    let e = Equipment { display: true, hal2: false };
    assert_eq!(
        e.stop(),
        vec![Op::Stop(Part::Cpu), Op::Stop(Part::Rex3), Op::Stop(Part::Hpc3), Op::Stop(Part::Mc)]
    );
    assert_eq!(
        e.resume(),
        vec![Op::Start(Part::Mc), Op::Start(Part::Hpc3), Op::Start(Part::Rex3), Op::Start(Part::Cpu)]
    );
    let headless = Equipment { display: false, hal2: false };
    assert_eq!(headless.stop(), vec![Op::Stop(Part::Cpu), Op::Stop(Part::Hpc3), Op::Stop(Part::Mc)]);
}

#[test]
fn power_on_reaches_every_device() {
    let e = Equipment { display: true, hal2: true };
    let ops = e.power_on_devices();
    assert_eq!(ops.len(), 14);
    assert_eq!(&ops[..3], &[Op::PowerOn(Device::Cpu), Op::ResetMemory, Op::PowerOn(Device::Mc)]);
    assert_eq!(&ops[11..], &[Op::PowerOnHal2, Op::PowerOn(Device::Hpc3), Op::PowerOn(Device::Rex3)]);
    assert_eq!(Equipment { display: false, hal2: false }.power_on_devices().len(), 12);
}

#[test]
fn machine_comes_up_by_its_mode() {
    let ui = machine(false, false);
    assert_eq!(
        ui.start(true),
        vec![
            Op::Start(Part::Mc),
            Op::Start(Part::Hpc3),
            Op::Start(Part::Rex3),
            Op::StartMonitor,
            Op::Start(Part::Cpu)
        ]
    );
    assert_eq!(ui.start(false).last(), Some(&Op::StartMonitor));
    let ci = machine(true, true);
    assert_eq!(ci.start(true), vec![Op::Start(Part::Mc), Op::Start(Part::Hpc3)]);
    assert_eq!(ci.cpu_start(), Op::Start(Part::Cpu));
    assert_eq!(ci.stop(), ci.equipment.stop());
    assert_eq!(ci.reset(), ci.equipment.reset());
}

#[test]
fn pausing_keeps_the_cpu_as_it_was() {
    let m = machine(true, true);
    let (before, after) = m.with_paused(false);
    assert_eq!(before, m.equipment.stop());
    assert_eq!(after, vec![Op::Start(Part::Mc), Op::Start(Part::Hpc3)]);
    let (_, after) = m.with_paused(true);
    assert_eq!(after.last(), Some(&Op::Start(Part::Cpu)));
}

#[test]
fn save_and_load_mirror_each_other() {
    let e = Equipment { display: true, hal2: true };
    let save = e.save();
    let load = e.load();
    let saved: Vec<Device> = save
        .iter()
        .filter_map(|op| match op {
            Op::SaveState(d) => Some(*d),
            _ => None,
        })
        .collect();
    let loaded: Vec<Device> = load
        .iter()
        .filter_map(|op| match op {
            Op::LoadState(d) => Some(*d),
            _ => None,
        })
        .collect();
    assert_eq!(saved, loaded);
    assert_eq!(saved.len(), 12);
    assert_eq!(&save[4..6], &[Op::EnsureDir, Op::WriteManifest]);
    assert_eq!(load[4 + 14], Op::ReadManifest);
    assert_eq!(save.last(), Some(&Op::Start(Part::Cpu)));
}

#[test]
fn checkpoint_is_given_back_as_it_was_taken() {
    let e = Equipment { display: false, hal2: false };
    let put = e.rollback();
    for (i, op) in e.capture()[3..18].iter().enumerate() {
        let back = put[3 + 12 + i];
        match op {
            Op::TakeState(d) => assert_eq!(back, Op::PutState(*d)),
            Op::TakeBank(b) => assert_eq!(back, Op::PutBank(*b)),
            _ => panic!("not a part of the state"),
        }
    }
    let m = machine(true, true);
    let cp = checkpoint(&m);
    assert_eq!(cp.overlay_dir, "saves/base");
    assert_eq!(cp.overlay_sets, vec![(1, vec![5, 6])]);
    assert_eq!(cp.state_of(Device::Cpu).unwrap().as_integer(), Some(0));
    assert_eq!(cp.state_of(Device::Scsi).unwrap().as_integer(), Some(8));
    assert_eq!(cp.state_of(Device::Hpc3).unwrap().as_integer(), Some(10));
    assert!(cp.state_of(Device::Rex3).is_none());
}

#[test]
fn scsi_devices_are_attached_by_number() {
    let mut cfg = config(true, true);
    let mut cd = disk("irix.iso");
    cd.cdrom = true;
    cd.discs = vec!["apps.iso".to_string()];
    let mut root = disk("root.raw");
    root.overlay = true;
    let mut scratch = disk("scratch.raw");
    scratch.scratch = true;
    let mut second = disk("other.raw");
    second.scratch = true;
    second.size_mb = Some(2);
    let mut odd = disk("odd.raw");
    odd.scratch = true;
    odd.overlay = true;
    cfg.scsi = vec![(4, cd), (1, root), (5, second), (2, scratch), (6, odd)];
    let made = Machine::new(&cfg, 42);
    assert_eq!(made.bank_sizes, [128, 64, 1, 1]);
    assert_eq!(made.machine.scratch_path(), Some("scratch.raw"));
    let steps = made.scsi_steps;
    assert_eq!(steps.len(), 9);
    match &steps[0] {
        ScsiStep::Attach(a) => {
            assert_eq!((a.id, a.path.as_str(), a.overlay, a.cdrom), (1, "root.raw", true, false));
            assert_eq!(a.overlay_file.as_deref(), Some("/tmp/iris-ci-42-scsi1.overlay"));
            assert!(a.discs.is_empty());
        }
        other => panic!("{:?}", other),
    }
    assert!(matches!(&steps[1], ScsiStep::EnsureScratch(p, 67_108_864) if p == "scratch.raw"));
    assert!(matches!(&steps[2], ScsiStep::Attach(a) if a.id == 2 && a.overlay_file.is_none()));
    match &steps[3] {
        ScsiStep::Attach(a) => {
            assert_eq!((a.id, a.path.as_str()), (4, "irix.iso"));
            assert_eq!(a.discs, vec!["irix.iso".to_string(), "apps.iso".to_string()]);
        }
        other => panic!("{:?}", other),
    }
    assert!(matches!(&steps[4], ScsiStep::EnsureScratch(p, 2_097_152) if p == "other.raw"));
    assert!(matches!(&steps[5], ScsiStep::ScratchSurplus(5)));
    assert!(matches!(&steps[6], ScsiStep::Attach(a) if a.id == 5));
    assert!(matches!(&steps[7], ScsiStep::ScratchIgnored(6)));
    assert!(matches!(&steps[8], ScsiStep::Attach(a) if a.id == 6));
}

#[test]
fn overlays_lie_beside_the_image_without_the_control_socket() {
    let mut cfg = config(false, true);
    let mut root = disk("root.raw");
    root.overlay = true;
    let mut cd = disk("a.iso");
    cd.cdrom = true;
    cfg.scsi = vec![(1, root), (3, cd)];
    let steps = Machine::new(&cfg, 42).scsi_steps;
    assert!(matches!(&steps[0], ScsiStep::Attach(a) if a.overlay && a.overlay_file.is_none()));
    assert!(matches!(&steps[1], ScsiStep::Attach(a) if a.discs == vec!["a.iso".to_string()]));
}

#[test]
fn rollback_without_a_restore_is_refused() {
    let m = machine(true, true);
    let (first, r) = m.ci_rollback(ARCH);
    assert_eq!(first, vec![Op::ResetSerial]);
    assert_eq!(r.err().unwrap(), "no previous restore to roll back to");
    assert!(machine(false, true).ci_rollback(ARCH).0.is_empty());
}

#[test]
fn rollback_goes_back_to_the_restore() {
    let mut m = machine(true, true);
    let job = m.ci_restore(ARCH);
    assert_eq!(job.ops[0], Op::ResetSerial);
    assert_eq!(&job.ops[1..], &m.equipment.load()[..]);
    let capture = m.ci_restore_loaded("base", Ok(()), ARCH).unwrap();
    assert_eq!(capture.ops, m.equipment.capture());
    let cp = checkpoint(&m);
    m.ci_restore_captured(Some(cp));
    for _ in 0..2 {
        match m.ci_rollback(ARCH).1.unwrap() {
            Rollback::Memory(job) => {
                assert_eq!(job.ops, m.equipment.rollback());
                assert_eq!(job.overlays, Some(vec![(1, vec![5, 6])]));
                assert_eq!(job.import_error, "rollback: COW overlay import: ");
            }
            Rollback::Disk(n) => panic!("from disk: {}", n),
        }
    }
    // A load gives the checkpoint up; what was restored last stays known.
    let job = m.load_snapshot(ARCH);
    assert_eq!(job.ops, m.equipment.load());
    assert!(matches!(m.ci_rollback(ARCH).1.unwrap(), Rollback::Disk(n) if n == "base"));
}

#[test]
fn failed_restore_is_not_remembered() {
    let mut m = machine(true, true);
    let _ = m.ci_restore(ARCH);
    assert_eq!(m.ci_restore_loaded("bad", Err("broken".into()), ARCH).err().unwrap(), "broken");
    assert!(m.last_restore.is_none());
    let _ = m.ci_restore(ARCH);
    let _ = m.ci_restore_loaded("good", Ok(()), ARCH).unwrap();
    m.ci_restore_captured(None);
    assert!(matches!(m.ci_rollback(ARCH).1.unwrap(), Rollback::Disk(n) if n == "good"));
}

#[test]
fn saved_manifest_names_its_parent() {
    let mut m = machine(true, true);
    assert!(m.manifest_at(None, ARCH, 5).parent.is_none());
    let _ = m.ci_restore(ARCH);
    let _ = m.ci_restore_loaded("base", Ok(()), ARCH);
    let saved = m.manifest_at(Some("abc".into()), ARCH, 5);
    assert_eq!(saved.parent.as_deref(), Some("base"));
    assert_eq!((saved.schema_version, saved.created_at_unix), (2, 5));
    assert_eq!(saved.iris_git_rev.as_deref(), Some("abc"));
    let now = m.manifest_now(None, ARCH);
    assert_eq!(now.parent.as_deref(), Some("base"));
    assert!(now.created_at_unix > 1_590_000_000);
    assert_eq!(m.save_snapshot(ARCH).ops, m.equipment.save());
}

fn run(job: &mut Job, reply: impl Fn(Op) -> Reply) -> (Vec<Op>, Result<(), String>) {
    let mut done = vec![];
    let mut op = job.ops[0];
    loop {
        done.push(op);
        match job.next(reply(op)) {
            Progress::Next(n) => op = n,
            Progress::Finished => return (done, Ok(())),
            Progress::Failed(e) => return (done, Err(e)),
        }
    }
}

#[test]
fn job_runs_to_its_end() {
    let m = machine(true, true);
    let mut job = m.save_snapshot(ARCH);
    let (done, r) = run(&mut job, |_| Reply::Done);
    assert!(r.is_ok());
    assert_eq!(done, m.equipment.save());
}

#[test]
fn job_stops_at_the_first_failure() {
    let m = machine(true, true);
    let mut job = m.save_snapshot(ARCH);
    let (done, r) = run(&mut job, |op| match op {
        Op::SaveState(Device::Mc) => Reply::Failed("disk full".into()),
        _ => Reply::Done,
    });
    assert_eq!(r.err().unwrap(), "disk full");
    assert_eq!(done.last(), Some(&Op::SaveState(Device::Mc)));
    let mut job = m.save_snapshot(ARCH);
    let (_, r) = run(&mut job, |op| match op {
        Op::ExportOverlays => Reply::Failed("x".into()),
        _ => Reply::Done,
    });
    assert_eq!(r.err().unwrap(), "COW overlay export: x");
}

#[test]
fn load_takes_in_manifest_and_overlays() {
    let mut m = machine(true, true);
    let mut job = m.load_snapshot(ARCH);
    let text = manifest_text(ARCH, 2);
    let (done, r) = run(&mut job, |op| match op {
        Op::ReadManifest => Reply::Manifest(Contents::Text(text.clone())),
        Op::ReadCow => Reply::Cow(Ok("scsi1 = [4, 5]".into())),
        _ => Reply::Done,
    });
    assert!(r.is_ok());
    assert!(done.contains(&Op::ImportOverlays));
    assert_eq!(job.schema_version, 2);
    assert_eq!(job.overlays, Some(vec![(1, vec![4, 5])]));
}

#[test]
fn load_of_a_legacy_snapshot_leaves_the_overlays() {
    let mut m = machine(true, true);
    let mut job = m.load_snapshot(ARCH);
    let (done, r) = run(&mut job, |op| match op {
        Op::ReadManifest => Reply::Manifest(Contents::Absent),
        Op::ReadCow => Reply::Cow(Err("no such file".into())),
        _ => Reply::Done,
    });
    assert!(r.is_ok());
    assert!(!done.contains(&Op::ImportOverlays));
    assert_eq!(done.last(), Some(&Op::Start(Part::Cpu)));
    assert_eq!(job.schema_version, 0);
}

#[test]
fn load_refuses_what_it_cannot_read() {
    let load = |contents: fn() -> Contents| {
        let mut m = machine(true, true);
        let mut job = m.load_snapshot(ARCH);
        run(&mut job, |op| match op {
            Op::ReadManifest => Reply::Manifest(contents()),
            _ => Reply::Done,
        })
    };
    let (done, r) = load(|| Contents::Text(manifest_text("aarch64", 2)));
    assert_eq!(
        r.err().unwrap(),
        "snapshot host_arch 'aarch64' does not match current host 'x86_64'; cross-arch load is not supported"
    );
    assert_eq!(done.last(), Some(&Op::ReadManifest));
    let (_, r) = load(|| Contents::Text(manifest_text(ARCH, 3)));
    assert_eq!(r.err().unwrap(), "snapshot schema_version 3 is newer than this iris build supports (2)");
    let (_, r) = load(|| Contents::Unreadable("denied".into()));
    assert_eq!(r.err().unwrap(), "denied");
}

#[test]
fn load_does_not_go_on_without_a_manifest() {
    let mut m = machine(true, false);
    for cow in [false, true] {
        let mut job = m.ci_restore(ARCH);
        let (done, r) = run(&mut job, |_| if cow { Reply::Cow(Ok("".into())) } else { Reply::Done });
        assert_eq!(r.err().unwrap(), "manifest: not read");
        assert_eq!(done.last(), Some(&Op::ReadManifest));
        assert!(!done.iter().any(|op| matches!(op, Op::LoadState(_) | Op::LoadBank(_) | Op::ImportOverlays)));
    }
    // A manifest that comes before it is asked for does not count.
    let early = manifest_text(ARCH, 2);
    let mut job = m.load_snapshot(ARCH);
    let (done, r) = run(&mut job, |op| match op {
        Op::ReadManifest => Reply::Done,
        _ => Reply::Manifest(Contents::Text(early.clone())),
    });
    assert!(r.is_err());
    assert_eq!(done.last(), Some(&Op::ReadManifest));
}

#[test]
fn overlay_import_errors_tell_where_they_come_from() {
    let mut m = machine(true, true);
    let failing = |op: Op| match op {
        Op::ReadManifest => Reply::Manifest(Contents::Absent),
        Op::ReadCow => Reply::Cow(Ok("".into())),
        Op::ImportOverlays => Reply::Failed("gone".into()),
        _ => Reply::Done,
    };
    let mut job = m.ci_restore(ARCH);
    assert_eq!(run(&mut job, failing).1.err().unwrap(), "COW overlay import: gone");
    let _ = m.ci_restore_loaded("base", Ok(()), ARCH);
    let cp = checkpoint(&m);
    m.ci_restore_captured(Some(cp));
    match m.ci_rollback(ARCH).1.unwrap() {
        Rollback::Memory(mut job) => {
            assert_eq!(run(&mut job, failing).1.err().unwrap(), "rollback: COW overlay import: gone")
        }
        Rollback::Disk(_) => panic!("from disk"),
    }
}

#[test]
fn manifest_is_checked() {
    assert_eq!(check_manifest(&None, ARCH).unwrap(), 0);
    let mut m = Manifest::for_save_at(None, ARCH, 0);
    assert_eq!(check_manifest(&Some(m.clone()), ARCH).unwrap(), 2);
    m.schema_version = 1;
    assert_eq!(check_manifest(&Some(m), ARCH).unwrap(), 1);
}

#[test]
fn states_have_their_files() {
    assert_eq!(device_name(Device::Eeprom), "eeprom");
    let binary = |name: &str| (name.to_string(), StateFormat::Binary);
    let document = |name: &str| (name.to_string(), StateFormat::Document);
    assert_eq!(state_file_to_write(Device::Cpu, 2), binary("cpu.bin"));
    assert_eq!(state_file_to_write(Device::Rex3, 1), document("rex3.toml"));
    assert_eq!(state_file_to_read(Device::Cpu, 2, true), binary("cpu.bin"));
    assert_eq!(state_file_to_read(Device::Cpu, 2, false), document("cpu.toml"));
    assert_eq!(state_file_to_read(Device::Cpu, 0, true), document("cpu.toml"));
    assert_eq!(bank_file("saves/x", 3), "saves/x/bank3.bin");
}

#[test]
fn monitor_commands_are_decided() {
    let none: Vec<String> = vec![];
    let name = vec!["base/desktop".to_string(), "ignored".to_string()];
    let (a, line) = SystemController::execute_command("machine-stop", &none).unwrap();
    assert!(matches!(a, MonitorAction::Stop));
    assert_eq!(line, "Stopping machine...");
    let (a, line) = SystemController::execute_command("machine-start", &none).unwrap();
    assert!(matches!(a, MonitorAction::Start));
    assert_eq!(line, "Starting machine...");
    let (a, line) = SystemController::execute_command("reset", &none).unwrap();
    assert!(matches!(a, MonitorAction::Reset));
    assert_eq!(line, "Resetting machine...");
    let (a, line) = SystemController::execute_command("save", &name).unwrap();
    assert!(matches!(a, MonitorAction::Save(n) if n == "base/desktop"));
    assert_eq!(line, "Saving snapshot 'base/desktop'...");
    let (a, line) = SystemController::execute_command("load", &name).unwrap();
    assert!(matches!(a, MonitorAction::Load(n) if n == "base/desktop"));
    assert_eq!(line, "Loading snapshot 'base/desktop'...");
    assert_eq!(SystemController::execute_command("save", &none).err().unwrap(), "Usage: save <name>");
    assert_eq!(SystemController::execute_command("load", &none).err().unwrap(), "Usage: load <name>");
    assert_eq!(SystemController::execute_command("boot", &name).err().unwrap(), "Unknown command: boot");
}

#[test]
fn monitor_commands_are_registered() {
    let all = SystemController::register_commands();
    assert_eq!(all.len(), 5);
    assert_eq!(all[0], ("machine-stop", "Stop CPU and all peripherals"));
    assert_eq!(all[3], ("save", "save <name> — Save snapshot to saves/<name>/"));
    for (name, _) in all {
        let args = vec!["x".to_string()];
        assert!(SystemController::execute_command(name, &args).is_ok());
    }
}

#[test]
fn events_are_answered_by_scripts() {
    let ctrl = SystemController { equipment: Equipment { display: false, hal2: false } };
    let reset = ctrl.event_script(MachineEvent::HardReset);
    assert_eq!(&reset[..reset.len() - 1], &ctrl.equipment.reset()[..]);
    assert_eq!(reset.last(), Some(&Op::Start(Part::Cpu)));
    assert_eq!(ctrl.event_script(MachineEvent::PowerOff), ctrl.equipment.stop());
}

/// A machine, a snapshot and a checkpoint that hold one number for each piece.
#[derive(Default, Clone)]
struct Store {
    live: std::collections::HashMap<String, u32>,
    disk: std::collections::HashMap<String, u32>,
    kept: std::collections::HashMap<String, u32>,
    running: std::collections::HashSet<String>,
}

impl Store {
    fn new(base: u32) -> Store {
        let mut s = Store::default();
        let devices = Equipment { display: true, hal2: true }.state_devices();
        for (i, d) in devices.iter().enumerate() {
            s.live.insert(format!("{:?}", d), base + i as u32);
        }
        for b in 0..4 {
            s.live.insert(format!("bank{}", b), base + 100 + b);
        }
        s.live.insert("framebuffers".to_string(), base + 200);
        s.live.insert("overlays".to_string(), base + 300);
        s
    }

    fn carry_out(&mut self, op: Op) {
        let piece = match op {
            Op::SaveState(d) | Op::LoadState(d) | Op::TakeState(d) | Op::PutState(d) | Op::PowerOn(d) => {
                format!("{:?}", d)
            }
            Op::SaveBank(b) | Op::LoadBank(b) | Op::TakeBank(b) | Op::PutBank(b) => format!("bank{}", b),
            Op::SaveFramebuffers | Op::LoadFramebuffers | Op::TakeFramebuffers | Op::PutFramebuffers => {
                "framebuffers".to_string()
            }
            Op::ExportOverlays | Op::ImportOverlays => "overlays".to_string(),
            _ => String::new(),
        };
        match op {
            Op::SaveState(_) | Op::SaveBank(_) | Op::SaveFramebuffers | Op::ExportOverlays => {
                assert!(self.running.is_empty());
                let v = self.live[&piece];
                self.disk.insert(piece, v);
            }
            Op::LoadState(_) | Op::LoadBank(_) | Op::LoadFramebuffers | Op::ImportOverlays => {
                assert!(self.running.is_empty());
                let v = self.disk[&piece];
                self.live.insert(piece, v);
            }
            Op::TakeState(_) | Op::TakeBank(_) | Op::TakeFramebuffers => {
                assert!(self.running.is_empty());
                let v = self.live[&piece];
                self.kept.insert(piece, v);
            }
            Op::PutState(_) | Op::PutBank(_) | Op::PutFramebuffers => {
                assert!(self.running.is_empty());
                let v = self.kept[&piece];
                self.live.insert(piece, v);
            }
            Op::PowerOn(_) => {
                assert!(self.running.is_empty());
                self.live.insert(piece, 0);
            }
            Op::ResetMemory => {
                assert!(self.running.is_empty());
                for b in 0..4 {
                    self.live.insert(format!("bank{}", b), 0);
                }
            }
            Op::Start(p) => {
                self.running.insert(format!("{:?}", p));
            }
            Op::Stop(p) => {
                self.running.remove(&format!("{:?}", p));
            }
            _ => {}
        }
    }

    fn carry_out_all(&mut self, ops: &[Op]) {
        for op in ops {
            self.carry_out(*op);
        }
    }
}

#[test]
fn load_gives_back_what_was_saved() {
    let e = Equipment { display: true, hal2: true };
    let mut s = Store::new(1000);
    let before = s.live.clone();
    s.carry_out_all(&e.resume());
    s.carry_out_all(&e.save());
    assert_eq!(s.live, before);
    assert_eq!(s.running.len(), 4);
    s.live = Store::new(5000).live;
    s.carry_out_all(&e.load());
    assert_eq!(s.live, before);
    assert_eq!(s.running.len(), 4);
}

#[test]
fn rollback_gives_back_the_snapshot() {
    let e = Equipment { display: true, hal2: true };
    let mut s = Store::new(1000);
    let before = s.live.clone();
    s.carry_out_all(&e.save());
    s.carry_out_all(&e.load());
    s.carry_out_all(&e.capture());
    assert_eq!(s.live, before);
    for base in [5000, 7000] {
        s.live = Store::new(base).live;
        s.carry_out_all(&e.rollback());
        assert_eq!(s.live, before);
    }
}

#[test]
fn reset_freshens_the_machine() {
    let e = Equipment { display: true, hal2: true };
    let mut s = Store::new(1000);
    s.carry_out_all(&e.resume());
    s.carry_out_all(&e.reset());
    assert!(!s.running.contains("Cpu"));
    assert_eq!(s.running.len(), 3);
    for (piece, v) in &s.live {
        assert_eq!(*v == 0, piece != "framebuffers" && piece != "overlays", "{}", piece);
    }
}

#[test]
fn overlays_of_two_processes_differ() {
    let file = |pid: u32, id: u8| {
        let mut cfg = config(true, true);
        let mut root = disk("root.raw");
        root.overlay = true;
        cfg.scsi = vec![(id, root)];
        match &Machine::new(&cfg, pid).scsi_steps[0] {
            ScsiStep::Attach(a) => a.overlay_file.clone().unwrap(),
            other => panic!("{:?}", other),
        }
    };
    let all = [file(1, 1), file(11, 1), file(1, 11), file(2, 1)];
    for i in 0..4 {
        for j in 0..i {
            assert_ne!(all[i], all[j]);
        }
    }
}
