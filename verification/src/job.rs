//! A script on its way: which operation comes next, and when it fails.
use crate::ops;
use crate::ops::{Device, Equipment, Op};
use crate::overlay;
use crate::overlay::OverlaySet;
use crate::path;
use crate::snapshot;
use crate::snapshot::{Contents, Manifest, ManifestModel, Snapshot, SCHEMA_VERSION};
use crate::text;
use crate::toml_text;
use crate::toml_value::Tree;
use vstd::prelude::*;

verus! {

/// What came of an operation.
#[derive(Debug)]
pub enum Reply {
    Done,
    Failed(String),
    /// What was found of the manifest.
    Manifest(Contents),
    /// The text of `cow.toml`, or why it could not be read.
    Cow(Result<String, String>),
}

/// How a script goes on.
#[derive(Debug)]
pub enum Progress {
    /// This operation is next.
    Next(Op),
    Finished,
    Failed(String),
}

/// A script on its way. `at` is the operation that is being carried out.
#[derive(Debug)]
pub struct Job {
    pub ops: Vec<Op>,
    pub at: usize,
    /// What precedes the error of an overlay import.
    pub import_error: String,
    /// The architecture of this host.
    pub host_arch: String,
    /// The version of the snapshot that is being loaded.
    pub schema_version: u32,
    /// The overlays to import, once they are known.
    pub overlays: Option<Vec<OverlaySet>>,
}

/// Why a snapshot with this manifest is not loaded, where it is not: it is from
/// another architecture, or newer than this build. One without a manifest is.
pub open spec fn refusal(m: Option<ManifestModel>, host_arch: Seq<char>) -> Option<Seq<char>> {
    match m {
        None => None,
        Some(m) => if m.host_arch != host_arch {
            Some(
                "snapshot host_arch '"@ + m.host_arch + "' does not match current host '"@ + host_arch
                    + "'; cross-arch load is not supported"@,
            )
        } else if m.schema_version > SCHEMA_VERSION {
            Some(
                "snapshot schema_version "@ + text::decimal_chars(m.schema_version as nat)
                    + " is newer than this iris build supports ("@ + text::decimal_chars(SCHEMA_VERSION as nat) + ")"@,
            )
        } else {
            None
        },
    }
}

/// The version of a snapshot with this manifest, zero for one without.
pub open spec fn version_of(m: Option<ManifestModel>) -> int {
    match m {
        None => 0,
        Some(m) => m.schema_version,
    }
}

/// Decides whether a snapshot with this manifest is loaded: its version, or why not.
pub fn check_manifest(m: &Option<Manifest>, host_arch: &str) -> (r: Result<u32, String>)
    ensures
        ({
            let model = match m {
                Some(x) => Some(x@),
                None => None,
            };
            match r {
                Ok(v) => refusal(model, host_arch@) is None && v == version_of(model),
                Err(e) => refusal(model, host_arch@) == Some(e@),
            }
        }),
{
    match m {
        None => Ok(0),
        Some(m) => {
            if !text::same(m.host_arch.as_str(), host_arch) {
                let mut e = "snapshot host_arch '".to_owned();
                e.append(m.host_arch.as_str());
                e.append("' does not match current host '");
                e.append(host_arch);
                e.append("'; cross-arch load is not supported");
                return Err(e);
            }
            if m.schema_version > SCHEMA_VERSION {
                let mut e = "snapshot schema_version ".to_owned();
                e.append(text::decimal(m.schema_version as u128).as_str());
                e.append(" is newer than this iris build supports (");
                e.append(text::decimal(SCHEMA_VERSION as u128).as_str());
                e.append(")");
                return Err(e);
            }
            Ok(m.schema_version)
        },
    }
}

/// What precedes the error of an operation.
pub open spec fn error_prefix(op: Op, import_error: Seq<char>) -> Seq<char> {
    match op {
        Op::ExportOverlays => "COW overlay export: "@,
        Op::ImportOverlays => import_error,
        _ => seq![],
    }
}

/// The overlays in what was read of `cow.toml`. A file that is not there, or is no
/// document, tells of none.
pub open spec fn cow_overlays(cow: Result<String, String>) -> Option<Seq<(nat, Seq<u64>)>> {
    match cow {
        Ok(t) => overlay::sets_in_text(t@),
        Err(_) => None,
    }
}

/// The overlays of a job as a model.
pub open spec fn overlays_model(o: Option<Vec<OverlaySet>>) -> Option<Seq<(nat, Seq<u64>)>> {
    match o {
        Some(v) => Some(overlay::sets_model(v@)),
        None => None,
    }
}

/// A script on its way, as a model.
pub struct JobModel {
    pub ops: Seq<Op>,
    pub at: int,
    pub import_error: Seq<char>,
    pub host_arch: Seq<char>,
    pub schema_version: int,
    pub overlays: Option<Seq<(nat, Seq<u64>)>>,
}

impl View for Job {
    type V = JobModel;

    open spec fn view(&self) -> JobModel {
        JobModel {
            ops: self.ops@,
            at: self.at as int,
            import_error: self.import_error@,
            host_arch: self.host_arch@,
            schema_version: self.schema_version as int,
            overlays: overlays_model(self.overlays),
        }
    }
}

/// Whether a reply is a manifest by which the snapshot is loaded on this host. A snapshot
/// without a manifest is, too.
pub open spec fn accepts(reply: Reply, host_arch: Seq<char>) -> bool {
    reply matches Reply::Manifest(c) && (snapshot::manifest_in(c) matches Ok(m) && refusal(m, host_arch) is None)
}

impl JobModel {
    /// The operation that is being carried out.
    pub open spec fn op(self) -> Op {
        self.ops[self.at]
    }

    /// Whether the script is at its end.
    pub open spec fn is_over(self) -> bool {
        self.at >= self.ops.len()
    }

    /// Why the script fails on a reply, where it does. A manifest has to be read and
    /// accepted. The overlays are read as far as they are there: that they cannot be is
    /// no failure.
    pub open spec fn failure(self, reply: Reply) -> Option<Seq<char>> {
        match reply {
            Reply::Failed(e) => if self.op() == Op::ReadCow {
                None
            } else {
                Some(error_prefix(self.op(), self.import_error) + e@)
            },
            Reply::Manifest(c) => if self.op() == Op::ReadManifest {
                match snapshot::manifest_in(c) {
                    Err(e) => Some(e),
                    Ok(m) => refusal(m, self.host_arch),
                }
            } else {
                None
            },
            _ => if self.op() == Op::ReadManifest {
                Some("manifest: not read"@)
            } else {
                None
            },
        }
    }

    /// The version of the snapshot after a reply.
    pub open spec fn version_after(self, reply: Reply) -> int {
        match reply {
            Reply::Manifest(c) => if self.op() == Op::ReadManifest {
                match snapshot::manifest_in(c) {
                    Err(_) => self.schema_version,
                    Ok(m) => version_of(m),
                }
            } else {
                self.schema_version
            },
            _ => self.schema_version,
        }
    }

    /// The overlays to import after a reply.
    pub open spec fn overlays_after(self, reply: Reply) -> Option<Seq<(nat, Seq<u64>)>> {
        if self.op() == Op::ReadCow {
            match reply {
                Reply::Cow(c) => cow_overlays(c),
                _ => None,
            }
        } else {
            self.overlays
        }
    }

    /// The place behind the present one. An import of overlays that are not known is
    /// passed over.
    pub open spec fn next_at(self, overlays_known: bool) -> int {
        if self.at + 1 < self.ops.len() && self.ops[self.at + 1] == Op::ImportOverlays && !overlays_known {
            self.at + 2
        } else {
            self.at + 1
        }
    }

    /// The script after a reply, or why it fails.
    pub open spec fn after(self, reply: Reply) -> Result<JobModel, Seq<char>> {
        match self.failure(reply) {
            Some(e) => Err(e),
            None => Ok(
                JobModel {
                    at: self.next_at(self.overlays_after(reply) is Some),
                    schema_version: self.version_after(reply),
                    overlays: self.overlays_after(reply),
                    ..self
                },
            ),
        }
    }

    /// The script after some replies, or why it fails. Replies behind its end are not
    /// asked for.
    pub open spec fn after_all(self, replies: Seq<Reply>) -> Result<JobModel, Seq<char>>
        decreases replies.len(),
    {
        if replies.len() == 0 {
            Ok(self)
        } else {
            match self.after_all(replies.drop_last()) {
                Err(e) => Err(e),
                Ok(m) => if m.is_over() {
                    Ok(m)
                } else {
                    m.after(replies.last())
                },
            }
        }
    }
}

impl Job {
    /// Takes in what came of the present operation and says what is next.
    pub fn next(&mut self, reply: Reply) -> (r: Progress)
        requires
            !old(self)@.is_over(),
        ensures
            match old(self)@.after(reply) {
                Err(e) => (r matches Progress::Failed(x) && x@ == e) && final(self)@ == old(self)@,
                Ok(m) => {
                    &&& final(self)@ == m
                    &&& if m.is_over() {
                        r is Finished
                    } else {
                        r == Progress::Next(m.op())
                    }
                },
            },
    {
        let op: Op = self.ops[self.at];
        match reply {
            Reply::Failed(e) => {
                if op == Op::ReadCow {
                    self.overlays = None;
                } else {
                    return Progress::Failed(self.with_prefix(op, e));
                }
            },
            Reply::Manifest(c) => {
                if op == Op::ReadManifest {
                    let snap = Snapshot::new(String::new());
                    let m: Option<Manifest> = match snap.read_manifest(&c) {
                        Ok(m) => m,
                        Err(e) => {
                            return Progress::Failed(e);
                        },
                    };
                    match check_manifest(&m, self.host_arch.as_str()) {
                        Ok(v) => {
                            self.schema_version = v;
                        },
                        Err(e) => {
                            return Progress::Failed(e);
                        },
                    }
                } else if op == Op::ReadCow {
                    self.overlays = None;
                }
            },
            Reply::Cow(c) => {
                if op == Op::ReadManifest {
                    return Progress::Failed("manifest: not read".to_owned());
                }
                if op == Op::ReadCow {
                    self.overlays = match c {
                        Ok(t) => match toml_text::parse(t.as_str()) {
                            Ok(v) => Some(overlay::overlay_sets(&v)),
                            Err(_) => None,
                        },
                        Err(_) => None,
                    };
                }
            },
            Reply::Done => {
                if op == Op::ReadManifest {
                    return Progress::Failed("manifest: not read".to_owned());
                }
                if op == Op::ReadCow {
                    self.overlays = None;
                }
            },
        }
        let len: usize = self.ops.len();
        if len - self.at >= 2 && self.ops[self.at + 1] == Op::ImportOverlays && self.overlays.is_none() {
            self.at = self.at + 2;
        } else {
            self.at = self.at + 1;
        }
        if self.at < len {
            Progress::Next(self.ops[self.at])
        } else {
            Progress::Finished
        }
    }

    /// The error of an operation.
    fn with_prefix(&self, op: Op, error: String) -> (r: String)
        ensures
            r@ == error_prefix(op, self.import_error@) + error@,
    {
        match op {
            Op::ExportOverlays => {
                let mut e = "COW overlay export: ".to_owned();
                e.append(error.as_str());
                e
            },
            Op::ImportOverlays => {
                let mut e = self.import_error.clone();
                e.append(error.as_str());
                e
            },
            _ => {
                assert(seq![] + error@ =~= error@);
                error
            },
        }
    }
}

/// The name of a device's state in a snapshot.
pub open spec fn state_name(d: Device) -> Seq<char> {
    match d {
        Device::Cpu => "cpu"@,
        Device::Mc => "mc"@,
        Device::Ioc => "ioc"@,
        Device::Scc => "scc"@,
        Device::Pit => "pit"@,
        Device::Ps2 => "ps2"@,
        Device::Rtc => "rtc"@,
        Device::Eeprom => "eeprom"@,
        Device::Scsi => "scsi"@,
        Device::Seeq => "seeq"@,
        Device::Hpc3 => "hpc3"@,
        Device::Rex3 => "rex3"@,
    }
}

/// The version from which on states are binary files.
pub const BINARY_SCHEMA: u32 = 2;

/// How a state stands in a file.
#[derive(Clone, Copy, Debug, PartialEq, Eq, Structural)]
pub enum StateFormat {
    Binary,
    Document,
}

/// The form in which a state is written: binary from version 2 on, else a document.
pub open spec fn written_format(schema_version: int) -> StateFormat {
    if schema_version >= BINARY_SCHEMA {
        StateFormat::Binary
    } else {
        StateFormat::Document
    }
}

/// The form in which a state is read: as it is written, but a document where there is
/// no binary file.
pub open spec fn read_format(schema_version: int, binary_exists: bool) -> StateFormat {
    if binary_exists {
        written_format(schema_version)
    } else {
        StateFormat::Document
    }
}

/// The file of a state in one of the two forms.
pub open spec fn state_file(d: Device, format: StateFormat) -> Seq<char> {
    match format {
        StateFormat::Binary => state_name(d) + ".bin"@,
        StateFormat::Document => state_name(d) + ".toml"@,
    }
}

/// The name of a device's state in a snapshot.
pub fn device_name(d: Device) -> (r: &'static str)
    ensures
        r@ == state_name(d),
{
    match d {
        Device::Cpu => "cpu",
        Device::Mc => "mc",
        Device::Ioc => "ioc",
        Device::Scc => "scc",
        Device::Pit => "pit",
        Device::Ps2 => "ps2",
        Device::Rtc => "rtc",
        Device::Eeprom => "eeprom",
        Device::Scsi => "scsi",
        Device::Seeq => "seeq",
        Device::Hpc3 => "hpc3",
        Device::Rex3 => "rex3",
    }
}

/// The file of a state in one of the two forms.
pub fn state_file_name(d: Device, format: StateFormat) -> (r: String)
    ensures
        r@ == state_file(d, format),
{
    let mut name = device_name(d).to_owned();
    match format {
        StateFormat::Binary => name.append(".bin"),
        StateFormat::Document => name.append(".toml"),
    }
    name
}

/// The file that the state of a device is written to, and in which form.
pub fn state_file_to_write(d: Device, schema_version: u32) -> (r: (String, StateFormat))
    ensures
        r.1 == written_format(schema_version as int),
        r.0@ == state_file(d, r.1),
{
    let format = if schema_version >= BINARY_SCHEMA {
        StateFormat::Binary
    } else {
        StateFormat::Document
    };
    (state_file_name(d, format), format)
}

/// The file that the state of a device is read from, and in which form, given whether
/// there is a binary file.
pub fn state_file_to_read(d: Device, schema_version: u32, binary_exists: bool) -> (r: (String, StateFormat))
    ensures
        r.1 == read_format(schema_version as int, binary_exists),
        r.0@ == state_file(d, r.1),
{
    if binary_exists {
        state_file_to_write(d, schema_version)
    } else {
        (state_file_name(d, StateFormat::Document), StateFormat::Document)
    }
}

/// The file of a bank of memory.
pub fn bank_file(dir: &str, bank: u8) -> (r: String)
    ensures
        r@ == path::joined(dir@, "bank"@ + text::decimal_chars(bank as nat) + ".bin"@),
{
    let mut name = "bank".to_owned();
    name.append(text::decimal(bank as u128).as_str());
    name.append(".bin");
    path::join(dir, name.as_str())
}

/// A snapshot is loaded only on the architecture that it was saved on, and only
/// where it is not newer than this build. A manifest as this build writes it is
/// accepted on this host.
pub proof fn law_load_only_what_is_understood(m: ManifestModel, host_arch: Seq<char>)
    ensures
        refusal(Some(m), host_arch) is None <==> (m.host_arch == host_arch && m.schema_version <= SCHEMA_VERSION),
        refusal(None, host_arch) is None,
{
}

/// A script goes through its operations one by one. None is left out but an import of
/// overlays that are not known.
pub proof fn law_job_goes_step_by_step(job: JobModel, reply: Reply)
    requires
        !job.is_over(),
        job.after(reply) is Ok,
    ensures
        ({
            let next = job.after(reply)->Ok_0;
            &&& next.ops == job.ops
            &&& next.at == job.at + 1 || (next.at == job.at + 2 && next.overlays is None && job.ops[job.at + 1]
                == Op::ImportOverlays)
        }),
{
}

/// Whether an operation gives the machine something of a snapshot.
pub open spec fn loads_state(op: Op) -> bool {
    match op {
        Op::LoadState(_) | Op::LoadBank(_) | Op::LoadFramebuffers | Op::ImportOverlays => true,
        _ => false,
    }
}

/// Whether a script reads the manifest before it loads anything.
pub open spec fn manifest_comes_first(ops: Seq<Op>) -> bool {
    forall|i: int|
        0 <= i < ops.len() && loads_state(#[trigger] ops[i]) ==> exists|k: int| 0 <= k < i && ops[k] == Op::ReadManifest
}

/// Whether reply `i` was a manifest that the script had asked for, and was accepted.
pub open spec fn accepted_at(job: JobModel, replies: Seq<Reply>, i: int) -> bool {
    &&& 0 <= i < replies.len()
    &&& job.after_all(replies.take(i)) matches Ok(m) && !m.is_over() && m.op() == Op::ReadManifest
    &&& accepts(replies[i], job.host_arch)
}

/// A script that reads the manifest first gets to an operation that loads something only
/// once a manifest was accepted, whatever the replies.
pub proof fn law_nothing_is_loaded_before_the_manifest_is_accepted(job: JobModel, replies: Seq<Reply>)
    requires
        job.at == 0,
        manifest_comes_first(job.ops),
    ensures
        job.after_all(replies) matches Ok(m) ==> !m.is_over() && loads_state(m.op()) ==> exists|i: int|
            accepted_at(job, replies, i),
{
    lemma_manifests_were_accepted(job, replies);
    if let Ok(m) = job.after_all(replies) {
        if !m.is_over() && loads_state(m.op()) {
            assert(loads_state(job.ops[m.at]));
            let k = choose|k: int| 0 <= k < m.at && job.ops[k] == Op::ReadManifest;
            assert(job.ops[k] == Op::ReadManifest);
        }
    }
}

/// Every manifest that a script has passed was accepted.
proof fn lemma_manifests_were_accepted(job: JobModel, replies: Seq<Reply>)
    requires
        job.at == 0,
    ensures
        job.after_all(replies) matches Ok(m) ==> {
            &&& m.ops == job.ops
            &&& m.host_arch == job.host_arch
            &&& 0 <= m.at
            &&& forall|k: int|
                0 <= k < m.at && k < job.ops.len() && #[trigger] job.ops[k] == Op::ReadManifest ==> exists|i: int|
                    accepted_at(job, replies, i)
        },
    decreases replies.len(),
{
    if replies.len() > 0 {
        let front = replies.drop_last();
        lemma_manifests_were_accepted(job, front);
        if job.after_all(replies) is Ok {
            let b = job.after_all(front)->Ok_0;
            let m = job.after_all(replies)->Ok_0;
            let last = replies.len() - 1;
            assert forall|k: int|
                0 <= k < m.at && k < job.ops.len() && #[trigger] job.ops[k] == Op::ReadManifest implies exists|i: int|
                accepted_at(job, replies, i) by {
                if k < b.at {
                    let i = choose|i: int| accepted_at(job, front, i);
                    assert(front.take(i) =~= replies.take(i));
                    assert(accepted_at(job, replies, i));
                } else {
                    assert(k == b.at);
                    assert(replies.take(last) =~= front);
                    assert(accepted_at(job, replies, last));
                }
            }
        }
    }
}

/// Nothing of a snapshot is loaded or restored before its manifest was read and accepted,
/// whatever the replies: also where the manifest cannot be read, is from another
/// architecture or newer than this build, or is not answered for.
pub proof fn law_load_waits_for_the_manifest(e: Equipment, ci: bool, job: JobModel, replies: Seq<Reply>)
    requires
        job.at == 0,
        job.ops == e.load_script() || job.ops == ops::only_if(ci, Op::ResetSerial) + e.load_script(),
    ensures
        job.after_all(replies) matches Ok(m) ==> !m.is_over() && loads_state(m.op()) ==> exists|i: int|
            accepted_at(job, replies, i),
{
    lemma_load_reads_the_manifest_first(e, ci);
    law_nothing_is_loaded_before_the_manifest_is_accepted(job, replies);
}

proof fn lemma_load_reads_the_manifest_first(e: Equipment, ci: bool)
    ensures
        manifest_comes_first(e.load_script()),
        manifest_comes_first(ops::only_if(ci, Op::ResetSerial) + e.load_script()),
{
    let load = e.load_script();
    let first = ops::only_if(ci, Op::ResetSerial);
    let restore = first + load;
    let k = (e.stop_script().len() + e.power_on_script().len()) as int;
    assert forall|i: int| 0 <= i < load.len() && loads_state(#[trigger] load[i]) implies exists|j: int|
        0 <= j < i && load[j] == Op::ReadManifest by {
        ops::law_load_checks_the_manifest_first(e, i);
        assert(load[k] == Op::ReadManifest);
    }
    assert forall|i: int| 0 <= i < restore.len() && loads_state(#[trigger] restore[i]) implies exists|j: int|
        0 <= j < i && restore[j] == Op::ReadManifest by {
        if i >= first.len() {
            assert(restore[i] == load[i - first.len()]);
            ops::law_load_checks_the_manifest_first(e, i - first.len());
            assert(restore[k + first.len()] == load[k]);
        }
    }
}

/// A state is read from the file that it was written to, in the same form, once that file
/// is there.
pub proof fn law_state_is_read_where_it_was_written(d: Device, schema_version: int, binary_exists: bool)
    requires
        written_format(schema_version) == StateFormat::Binary ==> binary_exists,
    ensures
        read_format(schema_version, binary_exists) == written_format(schema_version),
        state_file(d, read_format(schema_version, binary_exists)) == state_file(d, written_format(schema_version)),
{
}

/// The model of a job has what the job has.
pub proof fn law_model_of_a_job(job: Job)
    ensures
        job@.ops == job.ops@,
        job@.at == job.at,
        job@.import_error == job.import_error@,
        job@.host_arch == job.host_arch@,
        job@.schema_version == job.schema_version,
        job.overlays is None <==> job@.overlays is None,
        job.overlays matches Some(v) ==> {
            &&& job@.overlays->0.len() == v@.len()
            &&& forall|i: int| 0 <= i < v@.len() ==> #[trigger] job@.overlays->0[i] == (v@[i].0 as nat, v@[i].1@)
        },
        job@.is_over() <==> job.at >= job.ops@.len(),
        job@.op() == job.ops@[job.at as int],
{
}

/// After `cow.toml` was read, the overlays of a job are those that were saved to it: the
/// same disks, each with the same sectors, whichever script the operation stands in and
/// whatever comes behind it.
pub proof fn law_overlays_are_those_that_were_saved(job: JobModel, text: String, sets: Seq<(nat, Seq<u64>)>)
    requires
        0 <= job.at < job.ops.len(),
        job.ops[job.at] == Op::ReadCow,
        forall|i: int, j: int| 0 <= i < j < sets.len() ==> (#[trigger] sets[i]).0 != (#[trigger] sets[j]).0,
        forall|i: int| 0 <= i < sets.len() ==> (#[trigger] sets[i]).0 <= usize::MAX,
        toml_text::toml_parsed(text@) == Ok::<Tree, Seq<char>>(Tree::Table(overlay::cow_entries(sets))),
    ensures
        job.after(Reply::Cow(Ok(text))) matches Ok(next) && {
            &&& next.at == job.at + 1
            &&& next.overlays matches Some(o) && o.len() == sets.len() && o.to_multiset() == sets.to_multiset()
        },
{
    overlay::law_overlays_round_trip(sets);
    overlay::law_disks_of_a_text(text@);
}

/// Where `cow.toml` could not be read, or is no document, or the reply is another, there
/// are no overlays, and the job goes on.
pub proof fn law_overlays_that_cannot_be_read(job: JobModel, reply: Reply)
    requires
        0 <= job.at < job.ops.len(),
        job.ops[job.at] == Op::ReadCow,
        match reply {
            Reply::Cow(Ok(t)) => toml_text::toml_parsed(t@) is Err,
            _ => true,
        },
    ensures
        job.after(reply) matches Ok(next) && next.overlays is None,
{
    if let Reply::Cow(Ok(t)) = reply {
        overlay::law_disks_of_a_text(t@);
    }
}

/// No operation but the reading of `cow.toml` changes the overlays of a job.
pub proof fn law_only_cow_changes_the_overlays(job: JobModel, reply: Reply)
    requires
        0 <= job.at < job.ops.len(),
        job.ops[job.at] != Op::ReadCow,
    ensures
        job.after(reply) matches Ok(next) ==> next.overlays == job.overlays,
{
}

/// Where a job went on from one operation to the next, it went to the next operation of its
/// script. An import of overlays is left out if and only if none are known. The script, the
/// architecture and the text of an import error stay.
pub proof fn law_next_operation(job: JobModel, reply: Reply)
    requires
        0 <= job.at < job.ops.len(),
    ensures
        job.after(reply) matches Ok(next) ==> {
            &&& next.ops == job.ops
            &&& next.import_error == job.import_error
            &&& next.host_arch == job.host_arch
            &&& job.at + 1 < job.ops.len() && job.ops[job.at + 1] == Op::ImportOverlays && next.overlays is None
                ==> next.at == job.at + 2
            &&& !(job.at + 1 < job.ops.len() && job.ops[job.at + 1] == Op::ImportOverlays && next.overlays is None)
                ==> next.at == job.at + 1
        },
{
}

/// Every failure of an operation ends the job with that error, but for the reading of
/// `cow.toml`. The errors of an export and of an import of overlays say so.
pub proof fn law_failures_end_the_job(job: JobModel, e: String)
    requires
        0 <= job.at < job.ops.len(),
        job.ops[job.at] != Op::ReadCow,
    ensures
        job.after(Reply::Failed(e)) matches Err(x) && x == (if job.ops[job.at] == Op::ExportOverlays {
            "COW overlay export: "@ + e@
        } else if job.ops[job.at] == Op::ImportOverlays {
            job.import_error + e@
        } else {
            e@
        }),
{
    assert(seq![] + e@ =~= e@);
}

/// An operation that was done lets the job go on and leaves the version of the snapshot as
/// it was. Only the manifest has to be answered for by what was found of it.
pub proof fn law_done_goes_on(job: JobModel)
    requires
        0 <= job.at < job.ops.len(),
    ensures
        job.ops[job.at] != Op::ReadManifest ==> (job.after(Reply::Done) matches Ok(next) && next.schema_version
            == job.schema_version),
        job.ops[job.at] == Op::ReadManifest ==> job.after(Reply::Done) is Err,
{
}

/// The manifest decides whether a snapshot is loaded: one that is not there is accepted as
/// that of the oldest version, one that cannot be read or is no manifest ends the job with
/// that error, and any other is accepted if and only if it is from this architecture and of
/// version 2 or older. Its version is then that of the snapshot.
pub proof fn law_manifest_decides(job: JobModel, c: Contents)
    requires
        0 <= job.at < job.ops.len(),
        job.ops[job.at] == Op::ReadManifest,
    ensures
        match c {
            Contents::Absent => job.after(Reply::Manifest(c)) matches Ok(next) && next.schema_version == 0,
            Contents::Unreadable(e) => job.after(Reply::Manifest(c)) == Err::<JobModel, Seq<char>>(e@),
            Contents::Text(t) => match toml_text::toml_parsed(t@) {
                Err(e) => job.after(Reply::Manifest(c)) == Err::<JobModel, Seq<char>>(e),
                Ok(tree) => match snapshot::manifest_of(tree) {
                    Err(e) => job.after(Reply::Manifest(c)) == Err::<JobModel, Seq<char>>(e),
                    Ok(m) => if m.host_arch != job.host_arch {
                        job.after(Reply::Manifest(c)) == Err::<JobModel, Seq<char>>(
                            "snapshot host_arch '"@ + m.host_arch + "' does not match current host '"@ + job.host_arch
                                + "'; cross-arch load is not supported"@,
                        )
                    } else if m.schema_version > 2 {
                        job.after(Reply::Manifest(c)) == Err::<JobModel, Seq<char>>(
                            "snapshot schema_version "@ + text::decimal_chars(m.schema_version as nat)
                                + " is newer than this iris build supports ("@ + text::decimal_chars(2) + ")"@,
                        )
                    } else {
                        job.after(Reply::Manifest(c)) matches Ok(next) && next.schema_version == m.schema_version
                    },
                },
            },
        },
{
}

/// The overlays that were read stay those of the job to its end, where it reads `cow.toml`
/// but once.
pub proof fn law_overlays_last(job: JobModel, replies: Seq<Reply>, i: int, text: String, sets: Seq<(nat, Seq<u64>)>)
    requires
        0 <= i < replies.len(),
        replies[i] == Reply::Cow(Ok(text)),
        job.after_all(replies.take(i)) matches Ok(m) && {
            &&& m.ops == job.ops
            &&& 0 <= m.at < m.ops.len()
            &&& m.ops[m.at] == Op::ReadCow
            &&& forall|k: int| m.at < k < m.ops.len() ==> #[trigger] m.ops[k] != Op::ReadCow
        },
        forall|i: int, j: int| 0 <= i < j < sets.len() ==> (#[trigger] sets[i]).0 != (#[trigger] sets[j]).0,
        forall|i: int| 0 <= i < sets.len() ==> (#[trigger] sets[i]).0 <= usize::MAX,
        toml_text::toml_parsed(text@) == Ok::<Tree, Seq<char>>(Tree::Table(overlay::cow_entries(sets))),
    ensures
        job.after_all(replies) matches Ok(end) ==> {
            &&& end.ops == job.ops
            &&& end.at > job.after_all(replies.take(i))->Ok_0.at
            &&& end.overlays matches Some(o) && o.len() == sets.len() && o.to_multiset() == sets.to_multiset()
        },
    decreases replies.len(),
{
    let front = replies.drop_last();
    let last = replies.len() - 1;
    if i == last {
        assert(replies.take(i) =~= front);
        law_overlays_are_those_that_were_saved(job.after_all(front)->Ok_0, text, sets);
    } else {
        assert(front.take(i) =~= replies.take(i));
        assert(front[i] == replies[i]);
        law_overlays_last(job, front, i, text, sets);
        if let Ok(m) = job.after_all(front) {
            if !m.is_over() {
                assert(m.ops[m.at] != Op::ReadCow);
            }
        }
    }
}

/// Loading and restoring a snapshot, and taking a checkpoint, read `cow.toml` exactly once:
/// a load right before it imports the overlays, a checkpoint once all else was taken.
pub proof fn law_scripts_read_the_overlays_once(e: Equipment, ci: bool) -> (at: (int, int, int))
    ensures
        ({
            let load = e.load_script();
            let restore = ops::only_if(ci, Op::ResetSerial) + e.load_script();
            let capture = e.capture_script();
            &&& 0 <= at.0 && at.0 + 1 < load.len() && load[at.0] == Op::ReadCow && load[at.0 + 1] == Op::ImportOverlays
            &&& 0 <= at.1 && at.1 + 1 < restore.len() && restore[at.1] == Op::ReadCow && restore[at.1 + 1]
                == Op::ImportOverlays
            &&& 0 <= at.2 < capture.len() && capture[at.2] == Op::ReadCow
            &&& forall|k: int| 0 <= k < load.len() && k != at.0 ==> #[trigger] load[k] != Op::ReadCow
            &&& forall|k: int| 0 <= k < restore.len() && k != at.1 ==> #[trigger] restore[k] != Op::ReadCow
            &&& forall|k: int| 0 <= k < capture.len() && k != at.2 ==> #[trigger] capture[k] != Op::ReadCow
        }),
{
    let (stop, power, states, take) = (
        e.stop_script(),
        e.power_on_script(),
        e.load_state_script(),
        e.take_script(),
    );
    let load = e.load_script();
    let first = ops::only_if(ci, Op::ResetSerial);
    let restore = first + load;
    let capture = e.capture_script();
    let a = (stop.len() + power.len() + 1 + states.len()) as int;
    let b = a + first.len();
    let c = (stop.len() + take.len()) as int;
    assert(load[a] == Op::ReadCow && load[a + 1] == Op::ImportOverlays);
    assert(restore[b] == load[a] && restore[b + 1] == load[a + 1]);
    assert(capture[c] == Op::ReadCow);
    assert forall|k: int| 0 <= k < load.len() && k != a implies #[trigger] load[k] != Op::ReadCow by {
        if k < stop.len() {
            assert(load[k] == stop[k]);
        } else if k < stop.len() + power.len() {
            assert(load[k] == power[k - stop.len()]);
        } else if k > stop.len() + power.len() && k < a {
            assert(load[k] == states[k - stop.len() - power.len() - 1]);
        } else if k > a + 1 {
            assert(load[k] == e.resume_script()[k - a - 2]);
        }
    }
    assert forall|k: int| 0 <= k < restore.len() && k != b implies #[trigger] restore[k] != Op::ReadCow by {
        if k >= first.len() {
            assert(restore[k] == load[k - first.len()]);
        } else {
            assert(restore[k] == first[k]);
        }
    }
    assert forall|k: int| 0 <= k < capture.len() && k != c implies #[trigger] capture[k] != Op::ReadCow by {
        if k < stop.len() {
            assert(capture[k] == stop[k]);
        } else if k < c {
            assert(capture[k] == take[k - stop.len()]);
        } else {
            assert(capture[k] == e.resume_script()[k - c - 1]);
        }
    }
    (a, b, c)
}

/// The file of a state is the name of the device in lower case with `.bin` from version 2 of
/// the layout on, and with `.toml` before. It is read from the `.toml` file, too, where there
/// is no `.bin` file.
pub proof fn law_state_files(d: Device, schema_version: int, binary_exists: bool)
    ensures
        schema_version >= 2 ==> written_format(schema_version) == StateFormat::Binary,
        schema_version < 2 ==> written_format(schema_version) == StateFormat::Document,
        schema_version >= 2 && binary_exists ==> read_format(schema_version, binary_exists) == StateFormat::Binary,
        schema_version < 2 || !binary_exists ==> read_format(schema_version, binary_exists) == StateFormat::Document,
        state_file(d, StateFormat::Binary) == state_name(d) + ".bin"@,
        state_file(d, StateFormat::Document) == state_name(d) + ".toml"@,
        state_name(Device::Cpu) == "cpu"@ && state_name(Device::Mc) == "mc"@ && state_name(Device::Ioc) == "ioc"@,
        state_name(Device::Scc) == "scc"@ && state_name(Device::Pit) == "pit"@ && state_name(Device::Ps2) == "ps2"@,
        state_name(Device::Rtc) == "rtc"@ && state_name(Device::Eeprom) == "eeprom"@,
        state_name(Device::Scsi) == "scsi"@ && state_name(Device::Seeq) == "seeq"@,
        state_name(Device::Hpc3) == "hpc3"@ && state_name(Device::Rex3) == "rex3"@,
{
}

/// How the name of a device starts, and how long it is.
proof fn lemma_state_name(d: Device)
    ensures
        ({
            let s = state_name(d);
            match d {
                Device::Cpu => s.len() == 3 && s[0] == 'c' && s[1] == 'p',
                Device::Mc => s.len() == 2 && s[0] == 'm' && s[1] == 'c',
                Device::Ioc => s.len() == 3 && s[0] == 'i' && s[1] == 'o',
                Device::Scc => s.len() == 3 && s[0] == 's' && s[1] == 'c',
                Device::Pit => s.len() == 3 && s[0] == 'p' && s[1] == 'i',
                Device::Ps2 => s.len() == 3 && s[0] == 'p' && s[1] == 's',
                Device::Rtc => s.len() == 3 && s[0] == 'r' && s[1] == 't',
                Device::Eeprom => s.len() == 6 && s[0] == 'e' && s[1] == 'e',
                Device::Scsi => s.len() == 4 && s[0] == 's' && s[1] == 'c',
                Device::Seeq => s.len() == 4 && s[0] == 's' && s[1] == 'e',
                Device::Hpc3 => s.len() == 4 && s[0] == 'h' && s[1] == 'p',
                Device::Rex3 => s.len() == 4 && s[0] == 'r' && s[1] == 'e',
            }
        }),
{
    match d {
        Device::Cpu => {
            reveal_strlit("cpu");
        },
        Device::Mc => {
            reveal_strlit("mc");
        },
        Device::Ioc => {
            reveal_strlit("ioc");
        },
        Device::Scc => {
            reveal_strlit("scc");
        },
        Device::Pit => {
            reveal_strlit("pit");
        },
        Device::Ps2 => {
            reveal_strlit("ps2");
        },
        Device::Rtc => {
            reveal_strlit("rtc");
        },
        Device::Eeprom => {
            reveal_strlit("eeprom");
        },
        Device::Scsi => {
            reveal_strlit("scsi");
        },
        Device::Seeq => {
            reveal_strlit("seeq");
        },
        Device::Hpc3 => {
            reveal_strlit("hpc3");
        },
        Device::Rex3 => {
            reveal_strlit("rex3");
        },
    }
}

/// Each device has a file name of its own.
pub proof fn law_state_names_differ(a: Device, b: Device)
    requires
        state_name(a) == state_name(b),
    ensures
        a == b,
{
    lemma_state_name(a);
    lemma_state_name(b);
}

/// The version of a snapshot is that of its manifest, and zero without one. The two reasons
/// not to load one are the architecture and, behind it, the version.
pub proof fn law_refusals(m: ManifestModel, host_arch: Seq<char>)
    ensures
        version_of(None) == 0,
        version_of(Some(m)) == m.schema_version,
        refusal(None, host_arch) is None,
        m.host_arch != host_arch ==> refusal(Some(m), host_arch) == Some(
            "snapshot host_arch '"@ + m.host_arch + "' does not match current host '"@ + host_arch
                + "'; cross-arch load is not supported"@,
        ),
        m.host_arch == host_arch && m.schema_version > 2 ==> refusal(Some(m), host_arch) == Some(
            "snapshot schema_version "@ + text::decimal_chars(m.schema_version as nat)
                + " is newer than this iris build supports ("@ + text::decimal_chars(2) + ")"@,
        ),
        m.host_arch == host_arch && m.schema_version <= 2 ==> refusal(Some(m), host_arch) is None,
{
}

}
