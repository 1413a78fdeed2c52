//! Which disks the machine gets, and how.
use crate::text;
use vstd::prelude::*;

verus! {

/// A SCSI device as it is configured.
#[derive(Debug)]
pub struct ScsiDevice {
    pub path: String,
    pub cdrom: bool,
    pub discs: Vec<String>,
    pub overlay: bool,
    pub scratch: bool,
    pub size_mb: Option<u32>,
}

/// The size of a scratch volume where the configuration does not say, in MiB.
pub const DEFAULT_SCRATCH_MB: u32 = 64;

/// The bytes of a MiB.
pub const MIB: u64 = 1_048_576;

/// One step of attaching the devices.
#[derive(Debug)]
pub enum ScsiStep {
    /// The device cannot be a scratch volume as well: it is a CD-ROM or has an
    /// overlay.
    ScratchIgnored(u8),
    /// The file of a scratch volume is created with this size if it is not there.
    EnsureScratch(String, u64),
    /// There is a scratch volume with a lower number already.
    ScratchSurplus(u8),
    Attach(Attachment),
}

/// A device to attach.
#[derive(Debug)]
pub struct Attachment {
    pub id: u8,
    pub path: String,
    pub cdrom: bool,
    pub discs: Vec<String>,
    pub overlay: bool,
    /// The file of the overlay, where it is not the one beside the image.
    pub overlay_file: Option<String>,
}

/// A device to attach, as a model.
pub struct AttachModel {
    pub id: u8,
    pub path: Seq<char>,
    pub cdrom: bool,
    pub discs: Seq<Seq<char>>,
    pub overlay: bool,
    pub overlay_file: Option<Seq<char>>,
}

/// One step of attaching the devices, as a model.
pub enum StepModel {
    ScratchIgnored(u8),
    EnsureScratch(Seq<char>, int),
    ScratchSurplus(u8),
    Attach(AttachModel),
}

impl View for ScsiStep {
    type V = StepModel;

    open spec fn view(&self) -> StepModel {
        match self {
            ScsiStep::ScratchIgnored(id) => StepModel::ScratchIgnored(*id),
            ScsiStep::EnsureScratch(p, n) => StepModel::EnsureScratch(p@, *n as int),
            ScsiStep::ScratchSurplus(id) => StepModel::ScratchSurplus(*id),
            ScsiStep::Attach(a) => StepModel::Attach(
                AttachModel {
                    id: a.id,
                    path: a.path@,
                    cdrom: a.cdrom,
                    discs: text::texts(a.discs@),
                    overlay: a.overlay,
                    overlay_file: match a.overlay_file {
                        Some(f) => Some(f@),
                        None => None,
                    },
                },
            ),
        }
    }
}

/// Steps as models.
pub open spec fn step_models(v: Seq<ScsiStep>) -> Seq<StepModel> {
    Seq::new(v.len(), |i: int| v[i]@)
}

impl ScsiDevice {
    /// Whether the device is a scratch volume: it is marked as one and is neither a
    /// CD-ROM nor has an overlay.
    pub open spec fn is_scratch(self) -> bool {
        self.scratch && !self.cdrom && !self.overlay
    }

    /// The discs of a changer, the configured one first; none for a disk.
    pub open spec fn disc_list(self) -> Seq<Seq<char>> {
        let discs = text::texts(self.discs@);
        if !self.cdrom {
            seq![]
        } else if discs.len() > 0 && discs[0] == self.path@ {
            discs
        } else {
            seq![self.path@] + discs
        }
    }

    /// The bytes of the scratch volume.
    pub open spec fn scratch_bytes(self) -> int {
        match self.size_mb {
            Some(n) => n * MIB,
            None => DEFAULT_SCRATCH_MB * MIB,
        }
    }
}

/// The file of an overlay under the control socket: one for each process, so that
/// several can run side by side.
pub open spec fn ci_overlay(pid: int, id: int) -> Seq<char> {
    "/tmp/iris-ci-"@ + text::decimal_chars(pid as nat) + "-scsi"@ + text::decimal_chars(id as nat) + ".overlay"@
}

/// How a device is attached.
pub open spec fn attachment(id: u8, dev: ScsiDevice, ci: bool, pid: u32) -> AttachModel {
    AttachModel {
        id,
        path: dev.path@,
        cdrom: dev.cdrom,
        discs: dev.disc_list(),
        overlay: dev.overlay,
        overlay_file: if ci && dev.overlay && !dev.cdrom {
            Some(ci_overlay(pid as int, id as int))
        } else {
            None
        },
    }
}

/// The steps for one device. `taken` tells whether there is a scratch volume
/// already.
pub open spec fn device_steps(id: u8, dev: ScsiDevice, ci: bool, pid: u32, taken: bool) -> Seq<StepModel> {
    let scratch = if !dev.scratch {
        seq![]
    } else if !dev.is_scratch() {
        seq![StepModel::ScratchIgnored(id)]
    } else if taken {
        seq![StepModel::EnsureScratch(dev.path@, dev.scratch_bytes()), StepModel::ScratchSurplus(id)]
    } else {
        seq![StepModel::EnsureScratch(dev.path@, dev.scratch_bytes())]
    };
    scratch.push(StepModel::Attach(attachment(id, dev, ci, pid)))
}

/// The device with a number.
pub open spec fn device_with(scsi: Seq<(u8, ScsiDevice)>, id: int) -> Option<ScsiDevice>
    decreases scsi.len(),
{
    if scsi.len() == 0 {
        None
    } else if scsi[0].0 == id {
        Some(scsi[0].1)
    } else {
        device_with(scsi.skip(1), id)
    }
}

/// The scratch volume among the devices with numbers below `n`: the one with the
/// lowest number.
pub open spec fn scratch_below(scsi: Seq<(u8, ScsiDevice)>, n: int) -> Option<Seq<char>>
    decreases n,
{
    if n <= 0 {
        None
    } else {
        match scratch_below(scsi, n - 1) {
            Some(p) => Some(p),
            None => match device_with(scsi, n - 1) {
                Some(dev) => if dev.is_scratch() {
                    Some(dev.path@)
                } else {
                    None
                },
                None => None,
            },
        }
    }
}

/// The steps for the devices with numbers below `n`, by their numbers.
pub open spec fn steps_below(scsi: Seq<(u8, ScsiDevice)>, ci: bool, pid: u32, n: int) -> Seq<StepModel>
    decreases n,
{
    if n <= 0 {
        seq![]
    } else {
        let before = steps_below(scsi, ci, pid, n - 1);
        match device_with(scsi, n - 1) {
            Some(dev) => before + device_steps(
                (n - 1) as u8,
                dev,
                ci,
                pid,
                scratch_below(scsi, n - 1) is Some,
            ),
            None => before,
        }
    }
}

/// The numbers of devices.
pub const ID_COUNT: usize = 256;

/// The steps for all devices, in the order of their numbers.
pub open spec fn scsi_steps(scsi: Seq<(u8, ScsiDevice)>, ci: bool, pid: u32) -> Seq<StepModel> {
    steps_below(scsi, ci, pid, ID_COUNT as int)
}

/// The scratch volume that the control socket works on.
pub open spec fn scratch_volume(scsi: Seq<(u8, ScsiDevice)>) -> Option<Seq<char>> {
    scratch_below(scsi, ID_COUNT as int)
}

/// The device with a number.
fn find_device(scsi: &Vec<(u8, ScsiDevice)>, id: u8) -> (r: Option<&ScsiDevice>)
    ensures
        match r {
            Some(d) => device_with(scsi@, id as int) == Some(*d),
            None => device_with(scsi@, id as int) is None,
        },
{
    let mut i: usize = 0;
    assert(scsi@.skip(0) =~= scsi@);
    while i < scsi.len()
        invariant
            i <= scsi.len(),
            device_with(scsi@, id as int) == device_with(scsi@.skip(i as int), id as int),
        decreases scsi.len() - i,
    {
        if scsi[i].0 == id {
            return Some(&scsi[i].1);
        }
        proof {
            assert(scsi@.skip(i as int).skip(1) =~= scsi@.skip(i + 1));
        }
        i += 1;
    }
    None
}

/// The discs of a changer.
fn discs_of(dev: &ScsiDevice) -> (r: Vec<String>)
    ensures
        text::texts(r@) == dev.disc_list(),
{
    let mut r: Vec<String> = Vec::new();
    if !dev.cdrom {
        assert(text::texts(r@) =~= seq![]);
        return r;
    }
    let ghost discs = text::texts(dev.discs@);
    if dev.discs.len() == 0 || !text::same(dev.discs[0].as_str(), dev.path.as_str()) {
        r.push(dev.path.clone());
    }
    let ghost head = text::texts(r@);
    let mut i: usize = 0;
    assert(head =~= head + discs.take(0));
    while i < dev.discs.len()
        invariant
            i <= dev.discs.len(),
            discs == text::texts(dev.discs@),
            text::texts(r@) == head + discs.take(i as int),
        decreases dev.discs.len() - i,
    {
        let ghost had = text::texts(r@);
        r.push(dev.discs[i].clone());
        proof {
            assert(text::texts(r@) =~= had.push(discs[i as int]));
            assert(discs.take(i + 1) =~= discs.take(i as int).push(discs[i as int]));
            assert(text::texts(r@) =~= head + discs.take(i + 1));
        }
        i += 1;
    }
    assert(discs.take(i as int) =~= discs);
    assert(text::texts(r@) =~= dev.disc_list());
    r
}

/// How a device is attached.
fn attach(id: u8, dev: &ScsiDevice, ci: bool, pid: u32) -> (r: ScsiStep)
    ensures
        r@ == StepModel::Attach(attachment(id, *dev, ci, pid)),
{
    let overlay_file: Option<String> = if ci && dev.overlay && !dev.cdrom {
        let mut f = "/tmp/iris-ci-".to_owned();
        f.append(text::decimal(pid as u128).as_str());
        f.append("-scsi");
        f.append(text::decimal(id as u128).as_str());
        f.append(".overlay");
        Some(f)
    } else {
        None
    };
    ScsiStep::Attach(
        Attachment {
            id,
            path: dev.path.clone(),
            cdrom: dev.cdrom,
            discs: discs_of(dev),
            overlay: dev.overlay,
            overlay_file,
        },
    )
}

/// Adds the steps for one device.
fn add_device(steps: &mut Vec<ScsiStep>, id: u8, dev: &ScsiDevice, ci: bool, pid: u32, taken: bool)
    ensures
        step_models(final(steps)@) == step_models(old(steps)@) + device_steps(id, *dev, ci, pid, taken),
{
    let ghost had = step_models(steps@);
    if dev.scratch {
        if dev.cdrom || dev.overlay {
            steps.push(ScsiStep::ScratchIgnored(id));
        } else {
            let mb: u32 = match dev.size_mb {
                Some(n) => n,
                None => DEFAULT_SCRATCH_MB,
            };
            assert(mb * MIB <= u64::MAX);
            steps.push(ScsiStep::EnsureScratch(dev.path.clone(), (mb as u64) * MIB));
            if taken {
                steps.push(ScsiStep::ScratchSurplus(id));
            }
        }
    }
    steps.push(attach(id, dev, ci, pid));
    assert(step_models(steps@) =~= had + device_steps(id, *dev, ci, pid, taken));
}

/// The steps that attach the configured devices, in the order of their numbers, and
/// the scratch volume among them. `pid` is the number of this process.
pub fn plan(scsi: &Vec<(u8, ScsiDevice)>, ci: bool, pid: u32) -> (r: (Vec<ScsiStep>, Option<String>))
    ensures
        step_models(r.0@) == scsi_steps(scsi@, ci, pid),
        match r.1 {
            Some(p) => scratch_volume(scsi@) == Some(p@),
            None => scratch_volume(scsi@) is None,
        },
{
    let mut steps: Vec<ScsiStep> = Vec::new();
    let mut scratch: Option<String> = None;
    let mut n: usize = 0;
    assert(step_models(steps@) =~= seq![]);
    while n < ID_COUNT
        invariant
            n <= ID_COUNT,
            step_models(steps@) == steps_below(scsi@, ci, pid, n as int),
            match scratch {
                Some(p) => scratch_below(scsi@, n as int) == Some(p@),
                None => scratch_below(scsi@, n as int) is None,
            },
        decreases ID_COUNT - n,
    {
        let id: u8 = n as u8;
        match find_device(scsi, id) {
            Some(dev) => {
                let taken = scratch.is_some();
                add_device(&mut steps, id, dev, ci, pid, taken);
                if !taken && dev.scratch && !dev.cdrom && !dev.overlay {
                    scratch = Some(dev.path.clone());
                }
            },
            None => {},
        }
        n += 1;
    }
    (steps, scratch)
}

/// The scratch volume is that of the lowest number: no device with a lower number
/// is one.
pub proof fn law_lowest_scratch_wins(scsi: Seq<(u8, ScsiDevice)>, n: int) -> (id: int)
    requires
        0 <= n,
        scratch_below(scsi, n) is Some,
    ensures
        0 <= id < n,
        device_with(scsi, id) is Some,
        device_with(scsi, id)->0.is_scratch(),
        scratch_below(scsi, n) == Some(device_with(scsi, id)->0.path@),
        forall|k: int| 0 <= k < id ==> !(#[trigger] device_with(scsi, k) matches Some(d) && d.is_scratch()),
    decreases n,
{
    if scratch_below(scsi, n - 1) is Some {
        law_lowest_scratch_wins(scsi, n - 1)
    } else {
        lemma_no_scratch(scsi, n - 1);
        n - 1
    }
}

proof fn lemma_no_scratch(scsi: Seq<(u8, ScsiDevice)>, n: int)
    requires
        scratch_below(scsi, n) is None,
    ensures
        forall|k: int| 0 <= k < n ==> !(#[trigger] device_with(scsi, k) matches Some(d) && d.is_scratch()),
    decreases n,
{
    if n > 0 {
        lemma_no_scratch(scsi, n - 1);
    }
}

/// A changer has its configured disc in the first place, and a disk has none.
pub proof fn law_configured_disc_comes_first(dev: ScsiDevice)
    ensures
        dev.cdrom ==> dev.disc_list().len() > 0 && dev.disc_list()[0] == dev.path@,
        !dev.cdrom ==> dev.disc_list().len() == 0,
{
}

/// Two processes, or two devices, never share an overlay under the control socket.
pub proof fn law_overlays_do_not_collide(pid1: nat, id1: nat, pid2: nat, id2: nat)
    requires
        ci_overlay(pid1 as int, id1 as int) == ci_overlay(pid2 as int, id2 as int),
    ensures
        pid1 == pid2,
        id1 == id2,
{
    let a = ci_overlay(pid1 as int, id1 as int);
    let b = ci_overlay(pid2 as int, id2 as int);
    reveal_strlit("/tmp/iris-ci-");
    reveal_strlit("-scsi");
    reveal_strlit(".overlay");
    let (p1, p2) = (text::decimal_chars(pid1), text::decimal_chars(pid2));
    let (d1, d2) = (text::decimal_chars(id1), text::decimal_chars(id2));
    text::lemma_decimal_value(pid1);
    text::lemma_decimal_value(pid2);
    text::lemma_decimal_value(id1);
    text::lemma_decimal_value(id2);
    let head = "/tmp/iris-ci-"@.len() as int;
    assert(a[head + p1.len()] == '-');
    assert(b[head + p2.len()] == '-');
    if p1.len() < p2.len() {
        assert(b[head + p1.len()] == p2[p1.len() as int]);
        assert(false);
    }
    if p2.len() < p1.len() {
        assert(a[head + p2.len()] == p1[p2.len() as int]);
        assert(false);
    }
    assert(p1 =~= a.subrange(head, head + p1.len()));
    assert(p2 =~= b.subrange(head, head + p2.len()));
    let at = head + p1.len() + "-scsi"@.len();
    assert(a.len() == head + p1.len() + "-scsi"@.len() + d1.len() + ".overlay"@.len());
    assert(b.len() == head + p2.len() + "-scsi"@.len() + d2.len() + ".overlay"@.len());
    assert(d1 =~= a.subrange(at, at + d1.len()));
    assert(d2 =~= b.subrange(at, at + d2.len()));
}

/// A device is attached under its number with its path, its kind and its overlay as they are
/// configured. The overlay of a disk is in a file of its own under the control socket, and
/// beside the image otherwise; a CD-ROM never has such a file.
pub proof fn law_devices_are_attached_as_configured(id: u8, dev: ScsiDevice, ci: bool, pid: u32)
    ensures
        ({
            let a = attachment(id, dev, ci, pid);
            &&& a.id == id
            &&& a.path == dev.path@
            &&& a.cdrom == dev.cdrom
            &&& a.overlay == dev.overlay
            &&& a.discs == dev.disc_list()
            &&& ci && dev.overlay && !dev.cdrom ==> a.overlay_file == Some(
                "/tmp/iris-ci-"@ + text::decimal_chars(pid as nat) + "-scsi"@ + text::decimal_chars(id as nat)
                    + ".overlay"@,
            )
            &&& !ci || !dev.overlay || dev.cdrom ==> a.overlay_file is None
        }),
{
}

/// A changer has the configured disc first and then all its discs, the configured one not
/// twice where it is the first of them.
pub proof fn law_discs_of_a_changer(dev: ScsiDevice, i: int)
    requires
        dev.cdrom,
    ensures
        dev.discs@.len() > 0 && dev.discs@[0]@ == dev.path@ ==> {
            &&& dev.disc_list().len() == dev.discs@.len()
            &&& 0 <= i < dev.discs@.len() ==> dev.disc_list()[i] == dev.discs@[i]@
        },
        dev.discs@.len() == 0 || dev.discs@[0]@ != dev.path@ ==> {
            &&& dev.disc_list().len() == dev.discs@.len() + 1
            &&& dev.disc_list()[0] == dev.path@
            &&& 0 <= i < dev.discs@.len() ==> dev.disc_list()[i + 1] == dev.discs@[i]@
        },
{
}

/// A device that is marked as a scratch volume is one unless it is a CD-ROM or has an
/// overlay. Its file has the configured number of mebibytes, 64 where none is given.
pub proof fn law_scratch_volumes(dev: ScsiDevice)
    ensures
        dev.is_scratch() <==> dev.scratch && !dev.cdrom && !dev.overlay,
        dev.size_mb matches Some(n) ==> dev.scratch_bytes() == n * 1_048_576,
        dev.size_mb is None ==> dev.scratch_bytes() == 67_108_864,
{
}

/// Every device is attached, last of its steps. Before that the file of a scratch volume is
/// seen to, with a word where there is such a volume already; a mark that counts for nothing
/// gets a word, too.
pub proof fn law_steps_of_a_device(id: u8, dev: ScsiDevice, ci: bool, pid: u32, taken: bool)
    ensures
        ({
            let steps = device_steps(id, dev, ci, pid, taken);
            let attach = StepModel::Attach(attachment(id, dev, ci, pid));
            &&& !dev.scratch ==> steps == seq![attach]
            &&& dev.scratch && (dev.cdrom || dev.overlay) ==> steps == seq![StepModel::ScratchIgnored(id), attach]
            &&& dev.scratch && !dev.cdrom && !dev.overlay && !taken ==> steps == seq![
                StepModel::EnsureScratch(dev.path@, dev.scratch_bytes()),
                attach,
            ]
            &&& dev.scratch && !dev.cdrom && !dev.overlay && taken ==> steps == seq![
                StepModel::EnsureScratch(dev.path@, dev.scratch_bytes()),
                StepModel::ScratchSurplus(id),
                attach,
            ]
        }),
{
    let steps = device_steps(id, dev, ci, pid, taken);
    let attach = StepModel::Attach(attachment(id, dev, ci, pid));
    if !dev.scratch {
        assert(steps =~= seq![attach]);
    } else if dev.cdrom || dev.overlay {
        assert(steps =~= seq![StepModel::ScratchIgnored(id), attach]);
    } else if taken {
        assert(steps =~= seq![
            StepModel::EnsureScratch(dev.path@, dev.scratch_bytes()),
            StepModel::ScratchSurplus(id),
            attach,
        ]);
    } else {
        assert(steps =~= seq![StepModel::EnsureScratch(dev.path@, dev.scratch_bytes()), attach]);
    }
}

/// The device with a number is the first that is configured under it.
pub proof fn law_device_with_a_number(scsi: Seq<(u8, ScsiDevice)>, id: int, i: int)
    requires
        0 <= i <= scsi.len(),
        forall|k: int| 0 <= k < i ==> (#[trigger] scsi[k]).0 != id,
        i < scsi.len() ==> scsi[i].0 == id,
    ensures
        i < scsi.len() ==> device_with(scsi, id) == Some(scsi[i].1),
        i == scsi.len() ==> device_with(scsi, id) is None,
    decreases scsi.len(),
{
    if i > 0 {
        assert(scsi[0].0 != id);
        let rest = scsi.skip(1);
        assert forall|k: int| 0 <= k < i - 1 implies (#[trigger] rest[k]).0 != id by {
            assert(rest[k] == scsi[k + 1]);
        }
        law_device_with_a_number(rest, id, i - 1);
    }
}

/// The steps for all devices are those for each, number by number from 0 to 255, the scratch
/// volume being taken as soon as a lower number is one.
pub proof fn law_steps_number_by_number(scsi: Seq<(u8, ScsiDevice)>, ci: bool, pid: u32, id: u8)
    ensures
        steps_below(scsi, ci, pid, 0).len() == 0,
        device_with(scsi, id as int) is None ==> steps_below(scsi, ci, pid, id + 1) == steps_below(
            scsi,
            ci,
            pid,
            id as int,
        ),
        device_with(scsi, id as int) matches Some(dev) ==> steps_below(scsi, ci, pid, id + 1) == steps_below(
            scsi,
            ci,
            pid,
            id as int,
        ) + device_steps(id, dev, ci, pid, scratch_below(scsi, id as int) is Some),
        scsi_steps(scsi, ci, pid) == steps_below(scsi, ci, pid, 256),
        scratch_volume(scsi) == scratch_below(scsi, 256),
{
}

/// There is a scratch volume as soon as one device with a number below the bound is one.
pub proof fn law_scratch_volume_is_found(scsi: Seq<(u8, ScsiDevice)>, n: int, id: int)
    requires
        0 <= id < n,
        device_with(scsi, id) is Some,
        device_with(scsi, id)->0.is_scratch(),
    ensures
        scratch_below(scsi, n) is Some,
{
    if scratch_below(scsi, n) is None {
        lemma_no_scratch(scsi, n);
        assert(device_with(scsi, id)->0.is_scratch());
    }
}

/// A step and its model say the same.
pub proof fn law_model_of_a_step(v: Seq<ScsiStep>, i: int, id: u8, p: String, n: u64, a: Attachment)
    ensures
        step_models(v).len() == v.len(),
        0 <= i < v.len() ==> step_models(v)[i] == v[i]@,
        ScsiStep::ScratchIgnored(id)@ == StepModel::ScratchIgnored(id),
        ScsiStep::ScratchSurplus(id)@ == StepModel::ScratchSurplus(id),
        ScsiStep::EnsureScratch(p, n)@ == StepModel::EnsureScratch(p@, n as int),
        ScsiStep::Attach(a)@ matches StepModel::Attach(m) && {
            &&& m.id == a.id
            &&& m.path == a.path@
            &&& m.cdrom == a.cdrom
            &&& m.overlay == a.overlay
            &&& m.discs == text::texts(a.discs@)
            &&& a.overlay_file is None <==> m.overlay_file is None
            &&& a.overlay_file matches Some(f) ==> m.overlay_file == Some(f@)
        },
{
}

}
