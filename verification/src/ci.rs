//! The control socket: requests, what each asks for, and the answers.
//!
//! A request is decided in two steps. [`dispatch`] answers it at once, or says what
//! is to be done; the answer to what came of that is made by the function for the
//! command.
use crate::json;
use crate::json::{Json, JsonTree, Members};
use crate::path;
use crate::saves;
use crate::saves::SaveDir;
use crate::scratch;
use crate::screenshot;
use crate::sgi_vh::SCRATCH_PAYLOAD_OFFSET;
use crate::snapshot;
use crate::snapshot::{Contents, Manifest, ManifestModel, Snapshot};
use crate::std_text;
use crate::table;
use crate::text;
use vstd::prelude::*;

verus! {

/// The time that `wait-serial` waits where the request does not say, in
/// milliseconds.
pub const DEFAULT_TIMEOUT_MS: u64 = 10_000;

/// A request.
#[derive(Debug)]
pub struct Request {
    pub cmd: String,
    pub args: Json,
}

/// An answer.
#[derive(Debug)]
pub struct Response {
    pub ok: bool,
    pub data: Option<Json>,
    pub error: Option<String>,
}

/// What an answer says.
pub enum Answer {
    Done,
    Data(JsonTree),
    Failed(Seq<char>),
}

impl Response {
    /// Whether the answer says this, and nothing else.
    pub open spec fn says(self, a: Answer) -> bool {
        match a {
            Answer::Done => self.ok && self.data is None && self.error is None,
            Answer::Data(t) => self.ok && self.error is None && (self.data matches Some(d) && d@ == t),
            Answer::Failed(e) => !self.ok && self.data is None && (self.error matches Some(s) && s@ == e),
        }
    }

    /// The answer to a request that went well and gives nothing back.
    pub fn ok() -> (r: Self)
        ensures
            r.says(Answer::Done),
    {
        Response { ok: true, data: None, error: None }
    }

    /// The answer that gives a value back.
    pub fn data(v: Json) -> (r: Self)
        ensures
            r.says(Answer::Data(v@)),
    {
        Response { ok: true, data: Some(v), error: None }
    }

    /// The answer to a request that failed.
    pub fn err(msg: String) -> (r: Self)
        ensures
            r.says(Answer::Failed(msg@)),
    {
        Response { ok: false, data: None, error: Some(msg) }
    }
}

/// What a request asks for that needs the machine or the disk.
#[derive(Debug)]
pub enum Action {
    Quit,
    Start,
    Save(String),
    Restore(String),
    Rollback,
    List,
    /// The name of a snapshot and its directory.
    Info(String, String),
    /// The name of a snapshot and its directory.
    Delete(String, String),
    SerialSend(String),
    SerialRead,
    /// The pattern and the milliseconds to wait for it.
    WaitSerial(String, u64),
    Screenshot(String),
    /// The host file and the offset in the payload.
    ScratchWrite(String, u64),
    /// The host file, the offset in the payload and the length, if it is given.
    ScratchRead(String, u64, Option<u64>),
    ScratchClear,
    ScratchInfo,
}

/// What a request asks for.
pub enum Wish {
    Quit,
    Start,
    Save(Seq<char>),
    Restore(Seq<char>),
    Rollback,
    List,
    Info(Seq<char>, Seq<char>),
    Delete(Seq<char>, Seq<char>),
    SerialSend(Seq<char>),
    SerialRead,
    WaitSerial(Seq<char>, int),
    Screenshot(Seq<char>),
    ScratchWrite(Seq<char>, int),
    ScratchRead(Seq<char>, int, Option<int>),
    ScratchClear,
    ScratchInfo,
}

impl View for Action {
    type V = Wish;

    open spec fn view(&self) -> Wish {
        match self {
            Action::Quit => Wish::Quit,
            Action::Start => Wish::Start,
            Action::Save(n) => Wish::Save(n@),
            Action::Restore(n) => Wish::Restore(n@),
            Action::Rollback => Wish::Rollback,
            Action::List => Wish::List,
            Action::Info(n, d) => Wish::Info(n@, d@),
            Action::Delete(n, d) => Wish::Delete(n@, d@),
            Action::SerialSend(s) => Wish::SerialSend(s@),
            Action::SerialRead => Wish::SerialRead,
            Action::WaitSerial(p, t) => Wish::WaitSerial(p@, *t as int),
            Action::Screenshot(p) => Wish::Screenshot(p@),
            Action::ScratchWrite(p, o) => Wish::ScratchWrite(p@, *o as int),
            Action::ScratchRead(p, o, l) => Wish::ScratchRead(
                p@,
                *o as int,
                match l {
                    Some(n) => Some(*n as int),
                    None => None,
                },
            ),
            Action::ScratchClear => Wish::ScratchClear,
            Action::ScratchInfo => Wish::ScratchInfo,
        }
    }
}

/// The first step of a request: the answer, or what is to be done.
#[derive(Debug)]
pub enum Step {
    Reply(Response),
    Do(Action),
}

/// What the first step comes to.
pub enum Decision {
    Reply(Answer),
    Do(Wish),
}

impl Step {
    /// Whether the step is this decision.
    pub open spec fn is(self, d: Decision) -> bool {
        match (self, d) {
            (Step::Reply(r), Decision::Reply(a)) => r.says(a),
            (Step::Do(x), Decision::Do(w)) => x@ == w,
            _ => false,
        }
    }
}

/// What a request that needs a name is decided to.
pub open spec fn needs_text(args: JsonTree, key: Seq<char>, missing: Seq<char>, wish: spec_fn(Seq<char>) -> Wish) -> Decision {
    match json::member_text(args, key) {
        Some(s) => Decision::Do(wish(s)),
        None => Decision::Reply(Answer::Failed(missing)),
    }
}

/// The number under a name, zero where there is none.
pub open spec fn number_or_zero(args: JsonTree, key: Seq<char>) -> int {
    match json::member_number(args, key) {
        Some(n) => n,
        None => 0,
    }
}

/// A character that a shell does not take as it stands. The space, which is common in
/// names of files, is left out.
pub open spec fn is_metacharacter(c: char) -> bool {
    ||| c == ';'
    ||| c == '&'
    ||| c == '|'
    ||| c == '$'
    ||| c == '<'
    ||| c == '>'
    ||| c == '('
    ||| c == ')'
    ||| c == '*'
    ||| c == '?'
    ||| c == '`'
    ||| c == '\''
    ||| c == '"'
    ||| c == '\\'
    ||| c == '\n'
    ||| c == '\t'
    ||| c == '['
    ||| c == ']'
    ||| c == '{'
    ||| c == '}'
    ||| c == '~'
    ||| c == '!'
    ||| c == '#'
}

/// Whether a text holds a character that a shell does not take as it stands.
pub open spec fn has_metacharacter(s: Seq<char>) -> bool {
    exists|i: int| 0 <= i < s.len() && is_metacharacter(#[trigger] s[i])
}

/// What is wrong with a path on the host, where it is not accepted: an empty one, one
/// with a part `..`, and one with a shell metacharacter.
pub open spec fn host_path_error(p: Seq<char>) -> Option<Seq<char>> {
    if p.len() == 0 {
        Some("path: empty"@)
    } else if path::has_parent_part(p) {
        Some("path: '..' components not allowed in "@ + std_text::debug_text(p))
    } else if has_metacharacter(p) {
        Some("path: shell metacharacters not allowed in "@ + std_text::debug_text(p))
    } else {
        None
    }
}

/// What a request that needs a path on the host is decided to.
pub open spec fn needs_host_path(
    args: JsonTree,
    key: Seq<char>,
    cmd: Seq<char>,
    missing: Seq<char>,
    wish: spec_fn(Seq<char>) -> Wish,
) -> Decision {
    match json::member_text(args, key) {
        None => Decision::Reply(Answer::Failed(missing)),
        Some(p) => match host_path_error(p) {
            Some(e) => Decision::Reply(Answer::Failed(cmd + e)),
            None => Decision::Do(wish(p)),
        },
    }
}

/// What `delete` is decided to: a name that is empty, has two dots in a row or starts at
/// the root is refused.
pub open spec fn decide_delete(args: JsonTree) -> Decision {
    match json::member_text(args, "name"@) {
        None => Decision::Reply(Answer::Failed("delete: missing 'name' arg"@)),
        Some(n) => if n.len() == 0 || text::has_infix(n, ".."@) || path::is_absolute(n) {
            Decision::Reply(Answer::Failed("delete: invalid name"@))
        } else {
            Decision::Do(Wish::Delete(n, saves::snapshot_dir(n)))
        },
    }
}

/// What `wait-serial` is decided to.
pub open spec fn decide_wait(args: JsonTree) -> Decision {
    match json::member_text(args, "pattern"@) {
        None => Decision::Reply(Answer::Failed("wait-serial: missing 'pattern' arg"@)),
        Some(p) => Decision::Do(
            Wish::WaitSerial(
                p,
                match json::member_number(args, "timeout_ms"@) {
                    Some(n) => n,
                    None => DEFAULT_TIMEOUT_MS as int,
                },
            ),
        ),
    }
}

/// What `screenshot` is decided to: there has to be a display.
pub open spec fn decide_screenshot(args: JsonTree, has_display: bool) -> Decision {
    if !has_display {
        Decision::Reply(Answer::Failed("screenshot: REX3 not present (running with --headless?)"@))
    } else {
        match json::member_text(args, "path"@) {
            None => Decision::Reply(Answer::Failed("screenshot: missing 'path' arg"@)),
            Some(p) => Decision::Do(Wish::Screenshot(p)),
        }
    }
}

/// What a request is decided to.
pub open spec fn decide(cmd: Seq<char>, args: JsonTree, has_display: bool) -> Decision {
    if cmd == "ping"@ {
        Decision::Reply(Answer::Done)
    } else if cmd == "quit"@ {
        Decision::Do(Wish::Quit)
    } else if cmd == "start"@ {
        Decision::Do(Wish::Start)
    } else if cmd == "save"@ {
        needs_text(args, "name"@, "save: missing 'name' arg"@, |n: Seq<char>| Wish::Save(n))
    } else if cmd == "restore"@ {
        needs_text(args, "name"@, "restore: missing 'name' arg"@, |n: Seq<char>| Wish::Restore(n))
    } else if cmd == "rollback"@ {
        Decision::Do(Wish::Rollback)
    } else if cmd == "list"@ {
        Decision::Do(Wish::List)
    } else if cmd == "info"@ {
        needs_text(args, "name"@, "info: missing 'name' arg"@, |n: Seq<char>| Wish::Info(n, saves::snapshot_dir(n)))
    } else if cmd == "delete"@ {
        decide_delete(args)
    } else if cmd == "serial-send"@ {
        needs_text(args, "data"@, "serial-send: missing 'data' arg"@, |d: Seq<char>| Wish::SerialSend(d))
    } else if cmd == "serial-read"@ {
        Decision::Do(Wish::SerialRead)
    } else if cmd == "wait-serial"@ {
        decide_wait(args)
    } else if cmd == "screenshot"@ {
        decide_screenshot(args, has_display)
    } else if cmd == "scratch-write"@ {
        needs_host_path(
            args,
            "host_path"@,
            "scratch-write: "@,
            "scratch-write: missing 'host_path' arg"@,
            |p: Seq<char>| Wish::ScratchWrite(p, number_or_zero(args, "offset"@)),
        )
    } else if cmd == "scratch-read"@ {
        needs_host_path(
            args,
            "to_path"@,
            "scratch-read: "@,
            "scratch-read: missing 'to_path' arg"@,
            |p: Seq<char>|
                Wish::ScratchRead(p, number_or_zero(args, "offset"@), json::member_number(args, "length"@)),
        )
    } else if cmd == "scratch-clear"@ {
        Decision::Do(Wish::ScratchClear)
    } else if cmd == "scratch-info"@ {
        Decision::Do(Wish::ScratchInfo)
    } else {
        Decision::Reply(Answer::Failed("unknown command: "@ + cmd))
    }
}

/// A failure, given its text.
fn failed(msg: &str) -> (r: Response)
    ensures
        r.says(Answer::Failed(msg@)),
{
    Response::err(msg.to_owned())
}

/// Two texts, one behind the other.
fn two(a: &str, b: &str) -> (r: String)
    ensures
        r@ == a@ + b@,
{
    let mut s = a.to_owned();
    s.append(b);
    s
}

/// Whether a text holds a character that a shell does not take as it stands.
fn holds_metacharacter(s: &str) -> (r: bool)
    ensures
        r == has_metacharacter(s@),
{
    let c = text::chars_of(s);
    let mut i: usize = 0;
    while i < c.len()
        invariant
            i <= c.len(),
            c@ == s@,
            forall|k: int| 0 <= k < i ==> !is_metacharacter(#[trigger] s@[k]),
        decreases c.len() - i,
    {
        let x: char = c[i];
        if x == ';' || x == '&' || x == '|' || x == '$' || x == '<' || x == '>' || x == '(' || x == ')' || x == '*'
            || x == '?' || x == '`' || x == '\'' || x == '"' || x == '\\' || x == '\n' || x == '\t' || x
            == '[' || x == ']' || x == '{' || x == '}' || x == '~' || x == '!' || x == '#' {
            assert(is_metacharacter(s@[i as int]));
            return true;
        }
        i += 1;
    }
    false
}

/// Accepts a path on the host that is not empty, has no part `..` and holds no shell
/// metacharacter.
pub fn validate_host_path(p: &str) -> (r: Result<String, String>)
    ensures
        match r {
            Ok(s) => host_path_error(p@) is None && s@ == p@ && !has_metacharacter(s@),
            Err(e) => host_path_error(p@) == Some(e@),
        },
{
    if p.is_empty() {
        return Err("path: empty".to_owned());
    }
    if path::has_parent(p) {
        return Err(two("path: '..' components not allowed in ", std_text::debug_string(p).as_str()));
    }
    if holds_metacharacter(p) {
        return Err(two("path: shell metacharacters not allowed in ", std_text::debug_string(p).as_str()));
    }
    Ok(p.to_owned())
}

/// The number under a name, zero where there is none.
fn number_arg(args: &Json, key: &str) -> (r: u64)
    ensures
        r == number_or_zero(args@, key@),
{
    match args.get_u64(key) {
        Some(n) => n,
        None => 0,
    }
}

/// Decides `delete`.
fn dispatch_delete(args: &Json) -> (r: Step)
    ensures
        r.is(decide_delete(args@)),
{
    match args.get_str("name") {
        None => Step::Reply(failed("delete: missing 'name' arg")),
        Some(n) => {
            if n.is_empty() || text::contains(n, "..") || path::starts_at_root(n) {
                Step::Reply(failed("delete: invalid name"))
            } else {
                Step::Do(Action::Delete(n.to_owned(), saves::dir_of(n)))
            }
        },
    }
}

/// Decides `scratch-write`.
fn dispatch_scratch_write(args: &Json) -> (r: Step)
    ensures
        r.is(
            needs_host_path(
                args@,
                "host_path"@,
                "scratch-write: "@,
                "scratch-write: missing 'host_path' arg"@,
                |p: Seq<char>| Wish::ScratchWrite(p, number_or_zero(args@, "offset"@)),
            ),
        ),
{
    match args.get_str("host_path") {
        None => Step::Reply(failed("scratch-write: missing 'host_path' arg")),
        Some(p) => match validate_host_path(p) {
            Err(e) => Step::Reply(Response::err(two("scratch-write: ", e.as_str()))),
            Ok(p) => Step::Do(Action::ScratchWrite(p, number_arg(args, "offset"))),
        },
    }
}

/// Decides `scratch-read`.
fn dispatch_scratch_read(args: &Json) -> (r: Step)
    ensures
        r.is(
            needs_host_path(
                args@,
                "to_path"@,
                "scratch-read: "@,
                "scratch-read: missing 'to_path' arg"@,
                |p: Seq<char>|
                    Wish::ScratchRead(p, number_or_zero(args@, "offset"@), json::member_number(args@, "length"@)),
            ),
        ),
{
    match args.get_str("to_path") {
        None => Step::Reply(failed("scratch-read: missing 'to_path' arg")),
        Some(p) => match validate_host_path(p) {
            Err(e) => Step::Reply(Response::err(two("scratch-read: ", e.as_str()))),
            Ok(p) => Step::Do(Action::ScratchRead(p, number_arg(args, "offset"), args.get_u64("length"))),
        },
    }
}

/// Decides a request: the answer, or what is to be done for it.
pub fn dispatch(req: &Request, has_display: bool) -> (r: Step)
    ensures
        r.is(decide(req.cmd@, req.args@, has_display)),
{
    let cmd: &str = req.cmd.as_str();
    let args: &Json = &req.args;
    if text::same(cmd, "ping") {
        Step::Reply(Response::ok())
    } else if text::same(cmd, "quit") {
        Step::Do(Action::Quit)
    } else if text::same(cmd, "start") {
        Step::Do(Action::Start)
    } else if text::same(cmd, "save") {
        match args.get_str("name") {
            Some(n) => Step::Do(Action::Save(n.to_owned())),
            None => Step::Reply(failed("save: missing 'name' arg")),
        }
    } else if text::same(cmd, "restore") {
        match args.get_str("name") {
            Some(n) => Step::Do(Action::Restore(n.to_owned())),
            None => Step::Reply(failed("restore: missing 'name' arg")),
        }
    } else if text::same(cmd, "rollback") {
        Step::Do(Action::Rollback)
    } else if text::same(cmd, "list") {
        Step::Do(Action::List)
    } else if text::same(cmd, "info") {
        match args.get_str("name") {
            Some(n) => Step::Do(Action::Info(n.to_owned(), saves::dir_of(n))),
            None => Step::Reply(failed("info: missing 'name' arg")),
        }
    } else if text::same(cmd, "delete") {
        dispatch_delete(args)
    } else if text::same(cmd, "serial-send") {
        match args.get_str("data") {
            Some(d) => Step::Do(Action::SerialSend(d.to_owned())),
            None => Step::Reply(failed("serial-send: missing 'data' arg")),
        }
    } else if text::same(cmd, "serial-read") {
        Step::Do(Action::SerialRead)
    } else if text::same(cmd, "wait-serial") {
        match args.get_str("pattern") {
            Some(p) => {
                let timeout: u64 = match args.get_u64("timeout_ms") {
                    Some(n) => n,
                    None => DEFAULT_TIMEOUT_MS,
                };
                Step::Do(Action::WaitSerial(p.to_owned(), timeout))
            },
            None => Step::Reply(failed("wait-serial: missing 'pattern' arg")),
        }
    } else if text::same(cmd, "screenshot") {
        if !has_display {
            Step::Reply(failed("screenshot: REX3 not present (running with --headless?)"))
        } else {
            match args.get_str("path") {
                Some(p) => Step::Do(Action::Screenshot(p.to_owned())),
                None => Step::Reply(failed("screenshot: missing 'path' arg")),
            }
        }
    } else if text::same(cmd, "scratch-write") {
        dispatch_scratch_write(args)
    } else if text::same(cmd, "scratch-read") {
        dispatch_scratch_read(args)
    } else if text::same(cmd, "scratch-clear") {
        Step::Do(Action::ScratchClear)
    } else if text::same(cmd, "scratch-info") {
        Step::Do(Action::ScratchInfo)
    } else {
        Step::Reply(Response::err(two("unknown command: ", cmd)))
    }
}

/// The answer to what came of an action without a result.
pub open spec fn outcome_answer(failure: Seq<char>, outcome: Result<(), String>) -> Answer {
    match outcome {
        Ok(_) => Answer::Done,
        Err(e) => Answer::Failed(failure + e@),
    }
}

/// The answer to what came of an action without a result.
fn outcome_reply(failure: &str, outcome: &Result<(), String>) -> (r: Response)
    ensures
        r.says(outcome_answer(failure@, *outcome)),
{
    match outcome {
        Ok(_) => Response::ok(),
        Err(e) => Response::err(two(failure, e.as_str())),
    }
}

/// The answer to `save`.
pub fn cmd_save(outcome: &Result<(), String>) -> (r: Response)
    ensures
        r.says(outcome_answer("save failed: "@, *outcome)),
{
    outcome_reply("save failed: ", outcome)
}

/// The answer to `restore`.
pub fn cmd_restore(outcome: &Result<(), String>) -> (r: Response)
    ensures
        r.says(outcome_answer("restore failed: "@, *outcome)),
{
    outcome_reply("restore failed: ", outcome)
}

/// The answer to `rollback`.
pub fn cmd_rollback(outcome: &Result<(), String>) -> (r: Response)
    ensures
        r.says(outcome_answer("rollback failed: "@, *outcome)),
{
    outcome_reply("rollback failed: ", outcome)
}

/// An object with the names of snapshots.
pub open spec fn list_tree(names: Seq<Seq<char>>) -> JsonTree {
    JsonTree::Object(table::put(seq![], "snapshots"@, JsonTree::Array(text_trees(names))))
}

/// Texts as values.
pub open spec fn text_trees(s: Seq<Seq<char>>) -> Seq<JsonTree> {
    Seq::new(s.len(), |i: int| JsonTree::String(s[i]))
}

/// Texts as a value.
fn text_array(items: &Vec<String>) -> (r: Json)
    ensures
        r@ == JsonTree::Array(text_trees(text::texts(items@))),
{
    let mut a: Vec<Json> = Vec::new();
    let mut i: usize = 0;
    while i < items.len()
        invariant
            i <= items.len(),
            a@.len() == i,
            forall|k: int| 0 <= k < i ==> (#[trigger] a@[k])@ == JsonTree::String(items@[k]@),
        decreases items.len() - i,
    {
        a.push(Json::String(items[i].clone()));
        i += 1;
    }
    let r = Json::Array(a);
    proof {
        json::lemma_json_view(r);
        assert(r@->Array_0 =~= text_trees(text::texts(items@)));
    }
    r
}

/// The snapshots below the directory for saves; none where there is none.
pub open spec fn names_in(root: Option<&SaveDir>) -> Seq<Seq<char>> {
    match root {
        Some(d) => d.names(seq![]),
        None => seq![],
    }
}

/// The answer to `list`: the snapshots below the directory for saves, in order.
pub fn cmd_list(root: Option<&SaveDir>) -> (r: Response)
    ensures
        exists|names: Seq<Seq<char>>|
            saves::in_order(names) && names.to_multiset() == names_in(root).to_multiset() && r.says(
                Answer::Data(#[trigger] list_tree(names)),
            ),
{
    let names: Vec<String> = match root {
        Some(d) => saves::list_snapshots(d),
        None => {
            let none: Vec<String> = Vec::new();
            assert(text::texts(none@) =~= seq![]);
            none
        },
    };
    let mut m = Members::new();
    m.put("snapshots", text_array(&names));
    let r = Response::data(m.object());
    assert(r.says(Answer::Data(list_tree(text::texts(names@)))));
    r
}

/// Puts a text in, where there is one.
pub open spec fn put_text(
    e: Seq<(Seq<char>, JsonTree)>,
    key: Seq<char>,
    s: Option<Seq<char>>,
) -> Seq<(Seq<char>, JsonTree)> {
    match s {
        Some(t) => table::put(e, key, JsonTree::String(t)),
        None => e,
    }
}

/// What is known of a snapshot: its name and size, and its manifest. One without a
/// manifest is a legacy one of version 0.
pub open spec fn info_members(name: Seq<char>, bytes: int, manifest: Option<ManifestModel>) -> Seq<
    (Seq<char>, JsonTree),
> {
    let e = table::put(seq![], "name"@, JsonTree::String(name));
    let e = table::put(e, "bytes_on_disk"@, JsonTree::Number(bytes));
    match manifest {
        Some(m) => {
            let e = table::put(e, "schema_version"@, JsonTree::Number(m.schema_version));
            let e = table::put(e, "host_arch"@, JsonTree::String(m.host_arch));
            let e = table::put(e, "created_at_unix"@, JsonTree::Number(m.created_at_unix));
            let e = put_text(e, "iris_git_rev"@, m.iris_git_rev);
            let e = put_text(e, "parent"@, m.parent);
            let e = put_text(e, "description"@, m.description);
            table::put(e, "installed_bundles"@, JsonTree::Array(text_trees(m.installed_bundles)))
        },
        None => {
            let e = table::put(e, "schema_version"@, JsonTree::Number(0));
            table::put(e, "legacy"@, JsonTree::Bool(true))
        },
    }
}

/// The answer to `info`.
pub open spec fn info_answer(name: Seq<char>, exists_dir: bool, contents: Contents, bytes: int) -> Answer {
    if !exists_dir {
        Answer::Failed("info: snapshot '"@ + name + "' not found"@)
    } else {
        match snapshot::manifest_in(contents) {
            Err(e) => Answer::Failed("info: manifest read failed: "@ + e),
            Ok(m) => Answer::Data(JsonTree::Object(info_members(name, bytes, m))),
        }
    }
}

/// Puts a text in, where there is one.
fn put_opt(m: &mut Members, key: &str, s: &Option<String>)
    ensures
        final(m)@ == put_text(old(m)@, key@, snapshot::opt_text(*s)),
{
    match s {
        Some(t) => {
            m.put(key, Json::String(t.clone()));
        },
        None => {},
    }
}

/// The sum of the sizes of files.
fn sum_sizes(sizes: &Vec<u64>) -> (r: u64)
    requires
        scratch::total(sizes@) <= u64::MAX,
    ensures
        r == scratch::total(sizes@),
{
    let mut sum: u64 = 0;
    let mut i: usize = 0;
    assert(sizes@.take(0) =~= seq![]);
    while i < sizes.len()
        invariant
            i <= sizes.len(),
            scratch::total(sizes@) <= u64::MAX,
            sum == scratch::total(sizes@.take(i as int)),
        decreases sizes.len() - i,
    {
        proof {
            assert(sizes@.take(i + 1).drop_last() =~= sizes@.take(i as int));
            lemma_total_prefix(sizes@, i + 1);
        }
        sum = sum + sizes[i];
        i += 1;
    }
    assert(sizes@.take(i as int) =~= sizes@);
    sum
}

proof fn lemma_total_prefix(s: Seq<u64>, n: int)
    requires
        0 <= n <= s.len(),
    ensures
        0 <= scratch::total(s.take(n)) <= scratch::total(s),
    decreases s.len(),
{
    if n == s.len() {
        assert(s.take(n) =~= s);
        if n > 0 {
            lemma_total_prefix(s.drop_last(), n - 1);
            assert(s.drop_last().take(n - 1) =~= s.drop_last());
        }
    } else {
        lemma_total_prefix(s.drop_last(), n);
        assert(s.drop_last().take(n) =~= s.take(n));
    }
}

/// The answer to `info`: `exists_dir` tells whether the snapshot has a directory,
/// `contents` what was found of its manifest, and `sizes` the sizes of its files.
pub fn cmd_info(name: &str, exists_dir: bool, contents: &Contents, sizes: &Vec<u64>) -> (r: Response)
    requires
        scratch::total(sizes@) <= u64::MAX,
    ensures
        r.says(info_answer(name@, exists_dir, *contents, scratch::total(sizes@))),
{
    if !exists_dir {
        let mut e = two("info: snapshot '", name);
        e.append("' not found");
        return Response::err(e);
    }
    let snap = Snapshot::new(saves::dir_of(name));
    let manifest: Option<Manifest> = match snap.read_manifest(contents) {
        Ok(m) => m,
        Err(e) => {
            return Response::err(two("info: manifest read failed: ", e.as_str()));
        },
    };
    let mut m = Members::new();
    m.put("name", Json::String(name.to_owned()));
    m.put("bytes_on_disk", Json::Number(sum_sizes(sizes)));
    match manifest {
        Some(x) => {
            m.put("schema_version", Json::Number(x.schema_version as u64));
            m.put("host_arch", Json::String(x.host_arch.clone()));
            m.put("created_at_unix", Json::Number(x.created_at_unix));
            put_opt(&mut m, "iris_git_rev", &x.iris_git_rev);
            put_opt(&mut m, "parent", &x.parent);
            put_opt(&mut m, "description", &x.description);
            m.put("installed_bundles", text_array(&x.installed_bundles));
        },
        None => {
            m.put("schema_version", Json::Number(0));
            m.put("legacy", Json::Bool(true));
        },
    }
    Response::data(m.object())
}

/// The answer to `delete`: `None` where there was no directory, else what came of
/// removing it.
pub fn cmd_delete(name: &str, dir: &str, removal: Option<&Result<(), String>>) -> (r: Response)
    ensures
        r.says(
            match removal {
                None => Answer::Failed("delete: snapshot '"@ + name@ + "' not found"@),
                Some(Ok(_)) => Answer::Done,
                Some(Err(e)) => Answer::Failed("delete: "@ + dir@ + ": "@ + e@),
            },
        ),
{
    match removal {
        None => {
            let mut e = two("delete: snapshot '", name);
            e.append("' not found");
            Response::err(e)
        },
        Some(Ok(_)) => Response::ok(),
        Some(Err(x)) => {
            let mut e = two("delete: ", dir);
            e.append(": ");
            e.append(x.as_str());
            Response::err(e)
        },
    }
}

/// The answer to `serial-read`: what the console wrote.
pub fn cmd_serial_read(bytes: &[u8]) -> (r: Response)
    ensures
        r.says(Answer::Data(JsonTree::String(std_text::lossy_text(bytes@)))),
{
    Response::data(Json::String(std_text::lossy_string(bytes)))
}

/// The answer to `wait-serial`: what the console wrote up to the pattern, or that
/// the time went by.
pub fn cmd_wait_serial(pattern: &str, timeout_ms: u64, consumed: Option<&[u8]>) -> (r: Response)
    ensures
        r.says(
            match consumed {
                Some(bytes) => Answer::Data(JsonTree::String(std_text::lossy_text(bytes@))),
                None => Answer::Failed(
                    "wait-serial: timeout after "@ + text::decimal_chars(timeout_ms as nat) + "ms waiting for "@
                        + std_text::debug_text(pattern@),
                ),
            },
        ),
{
    match consumed {
        Some(bytes) => cmd_serial_read(bytes),
        None => {
            let mut e = two("wait-serial: timeout after ", text::decimal(timeout_ms as u128).as_str());
            e.append("ms waiting for ");
            e.append(std_text::debug_string(pattern).as_str());
            Response::err(e)
        },
    }
}

/// The PNG file of a screenshot, or the answer that there is none.
pub fn screenshot_file(rgb: &Vec<u8>, width: u32, height: u32) -> (r: Result<Vec<u8>, Response>)
    requires
        rgb@.len() == width * height * 3,
        rgb@.len() < usize::MAX,
    ensures
        match r {
            Ok(file) => screenshot::png_outcome(rgb@, width as int, height as int) == Ok::<Seq<u8>, Seq<char>>(file@),
            Err(reply) => screenshot::png_outcome(rgb@, width as int, height as int) is Err && reply.says(
                Answer::Failed(
                    "screenshot: png header: "@ + screenshot::png_outcome(rgb@, width as int, height as int)->Err_0,
                ),
            ),
        },
{
    match screenshot::png_of(rgb, width, height) {
        Ok(file) => Ok(file),
        Err(e) => Err(Response::err(two("screenshot: png header: ", e.as_str()))),
    }
}

/// The bytes that a PNG file may take beyond its pixels, roughly.
pub const PNG_OVERHEAD: u64 = 100;

/// The members of the answer to `screenshot`.
pub open spec fn screenshot_members(path: Seq<char>, width: int, height: int) -> Seq<(Seq<char>, JsonTree)> {
    let e = table::put(seq![], "path"@, JsonTree::String(path));
    let e = table::put(e, "width"@, JsonTree::Number(width));
    let e = table::put(e, "height"@, JsonTree::Number(height));
    table::put(e, "bytes"@, JsonTree::Number(width * height * 3 + PNG_OVERHEAD))
}

/// What came of writing the file of a screenshot.
#[derive(Debug)]
pub enum FileOutcome {
    Written,
    NotCreated(String),
    NotWritten(String),
}

/// The answer to `screenshot`.
pub open spec fn screenshot_answer(path: Seq<char>, width: int, height: int, outcome: FileOutcome) -> Answer {
    match outcome {
        FileOutcome::Written => Answer::Data(JsonTree::Object(screenshot_members(path, width, height))),
        FileOutcome::NotCreated(e) => Answer::Failed("screenshot: create "@ + path + ": "@ + e@),
        FileOutcome::NotWritten(e) => Answer::Failed("screenshot: png write: "@ + e@),
    }
}

/// The answer to `screenshot`, given what came of writing its file.
pub fn cmd_screenshot(path: &str, width: u32, height: u32, outcome: &FileOutcome) -> (r: Response)
    requires
        width * height * 3 + PNG_OVERHEAD <= u64::MAX,
    ensures
        r.says(screenshot_answer(path@, width as int, height as int, *outcome)),
{
    match outcome {
        FileOutcome::Written => {
            proof {
                assert(0 <= width * height) by (nonlinear_arith);
            }
            let pixels: u64 = (width as u64) * (height as u64);
            let mut m = Members::new();
            m.put("path", Json::String(path.to_owned()));
            m.put("width", Json::Number(width as u64));
            m.put("height", Json::Number(height as u64));
            m.put("bytes", Json::Number(pixels * 3 + PNG_OVERHEAD));
            Response::data(m.object())
        },
        FileOutcome::NotCreated(x) => {
            let mut e = two("screenshot: create ", path);
            e.append(": ");
            e.append(x.as_str());
            Response::err(e)
        },
        FileOutcome::NotWritten(x) => Response::err(two("screenshot: png write: ", x.as_str())),
    }
}

/// The scratch volume that a command works on; an error where there is none.
pub fn scratch_volume(configured: &Option<String>) -> (r: Result<String, String>)
    ensures
        match (*configured, r) {
            (Some(p), Ok(q)) => q@ == p@,
            (None, Err(e)) => e@
                == "scratch volume not configured (set `scratch = true` on a SCSI device in iris.toml)"@,
            _ => false,
        },
{
    match configured {
        Some(p) => Ok(p.clone()),
        None => Err(
            "scratch volume not configured (set `scratch = true` on a SCSI device in iris.toml)".to_owned(),
        ),
    }
}

/// The scratch volume that `scratch-clear` works on; an error where there is none.
pub fn volume_to_clear(configured: &Option<String>) -> (r: Result<String, String>)
    ensures
        match (*configured, r) {
            (Some(p), Ok(q)) => q@ == p@,
            (None, Err(e)) => e@ == "scratch volume not configured"@,
            _ => false,
        },
{
    match configured {
        Some(p) => Ok(p.clone()),
        None => Err("scratch volume not configured".to_owned()),
    }
}

/// The members of the answer to a command that moved bytes.
pub open spec fn moved_members(count: Seq<char>, n: int, offset: int, file: Seq<char>, path: Seq<char>) -> Seq<
    (Seq<char>, JsonTree),
> {
    let e = table::put(seq![], count, JsonTree::Number(n));
    let e = table::put(e, "offset"@, JsonTree::Number(offset));
    table::put(e, file, JsonTree::String(path))
}

/// The answer to `scratch-write`.
pub fn cmd_scratch_write(host_path: &str, offset: u64, outcome: &Result<u64, String>) -> (r: Response)
    ensures
        r.says(
            match outcome {
                Ok(n) => Answer::Data(
                    JsonTree::Object(
                        moved_members("bytes_written"@, *n as int, offset as int, "host_path"@, host_path@),
                    ),
                ),
                Err(e) => Answer::Failed("scratch-write: "@ + e@),
            },
        ),
{
    match outcome {
        Ok(n) => {
            let mut m = Members::new();
            m.put("bytes_written", Json::Number(*n));
            m.put("offset", Json::Number(offset));
            m.put("host_path", Json::String(host_path.to_owned()));
            Response::data(m.object())
        },
        Err(e) => Response::err(two("scratch-write: ", e.as_str())),
    }
}

/// The answer to `scratch-read`.
pub fn cmd_scratch_read(to_path: &str, offset: u64, outcome: &Result<u64, String>) -> (r: Response)
    ensures
        r.says(
            match outcome {
                Ok(n) => Answer::Data(
                    JsonTree::Object(moved_members("bytes_read"@, *n as int, offset as int, "to_path"@, to_path@)),
                ),
                Err(e) => Answer::Failed("scratch-read: "@ + e@),
            },
        ),
{
    match outcome {
        Ok(n) => {
            let mut m = Members::new();
            m.put("bytes_read", Json::Number(*n));
            m.put("offset", Json::Number(offset));
            m.put("to_path", Json::String(to_path.to_owned()));
            Response::data(m.object())
        },
        Err(e) => Response::err(two("scratch-read: ", e.as_str())),
    }
}

/// The answer to `scratch-clear`.
pub fn cmd_scratch_clear(outcome: &Result<u64, String>) -> (r: Response)
    ensures
        r.says(
            match outcome {
                Ok(n) => Answer::Data(
                    JsonTree::Object(table::put(seq![], "bytes_cleared"@, JsonTree::Number(*n as int))),
                ),
                Err(e) => Answer::Failed("scratch-clear: "@ + e@),
            },
        ),
{
    match outcome {
        Ok(n) => {
            let mut m = Members::new();
            m.put("bytes_cleared", Json::Number(*n));
            Response::data(m.object())
        },
        Err(e) => Response::err(two("scratch-clear: ", e.as_str())),
    }
}

/// The members of the answer to `scratch-info`.
pub open spec fn scratch_members(path: Seq<char>, size: int) -> Seq<(Seq<char>, JsonTree)> {
    let e = table::put(seq![], "path"@, JsonTree::String(path));
    let e = table::put(e, "size_bytes"@, JsonTree::Number(size));
    let e = table::put(e, "payload_offset"@, JsonTree::Number(SCRATCH_PAYLOAD_OFFSET as int));
    table::put(e, "payload_size_bytes"@, JsonTree::Number(scratch::payload_bytes(size)))
}

/// The answer to `scratch-info`, given the volume and its size.
pub fn cmd_scratch_info(configured: &Option<String>, size: u64) -> (r: Response)
    ensures
        r.says(
            match configured {
                Some(p) => Answer::Data(JsonTree::Object(scratch_members(p@, size as int))),
                None => Answer::Failed("scratch-info: scratch volume not configured"@),
            },
        ),
{
    match configured {
        Some(p) => {
            let mut m = Members::new();
            m.put("path", Json::String(p.clone()));
            m.put("size_bytes", Json::Number(size));
            m.put("payload_offset", Json::Number(SCRATCH_PAYLOAD_OFFSET));
            m.put("payload_size_bytes", Json::Number(scratch::payload_size(size)));
            Response::data(m.object())
        },
        None => failed("scratch-info: scratch volume not configured"),
    }
}

/// A character of white space, as Unicode has it.
pub open spec fn is_white(c: char) -> bool {
    ||| '\u{9}' <= c && c <= '\u{d}'
    ||| c == ' '
    ||| c == '\u{85}'
    ||| c == '\u{a0}'
    ||| c == '\u{1680}'
    ||| '\u{2000}' <= c && c <= '\u{200a}'
    ||| c == '\u{2028}'
    ||| c == '\u{2029}'
    ||| c == '\u{202f}'
    ||| c == '\u{205f}'
    ||| c == '\u{3000}'
}

/// Whether a line is more than white space.
pub open spec fn is_served(line: Seq<char>) -> bool {
    exists|i: int| 0 <= i < line.len() && !is_white(#[trigger] line[i])
}

/// Whether a line is served: it is more than white space.
pub fn line_is_served(line: &str) -> (r: bool)
    ensures
        r == is_served(line@),
{
    let c = text::chars_of(line);
    let mut i: usize = 0;
    while i < c.len()
        invariant
            i <= c.len(),
            c@ == line@,
            forall|k: int| 0 <= k < i ==> is_white(#[trigger] line@[k]),
        decreases c.len() - i,
    {
        let x: char = c[i];
        let white: bool = ('\u{9}' <= x && x <= '\u{d}') || x == ' ' || x == '\u{85}' || x == '\u{a0}' || x
            == '\u{1680}' || ('\u{2000}' <= x && x <= '\u{200a}') || x == '\u{2028}' || x == '\u{2029}' || x
            == '\u{202f}' || x == '\u{205f}' || x == '\u{3000}';
        if !white {
            assert(!is_white(line@[i as int]));
            return true;
        }
        i += 1;
    }
    false
}

/// Decides a line, given the request that it holds or why it holds none. A line of white
/// space gets no answer; any other gets one, at once or once something was done for it.
pub fn handle_line(line: &str, parsed: &Result<Request, String>, has_display: bool) -> (r: Option<Step>)
    ensures
        r is Some <==> is_served(line@),
        r matches Some(step) ==> (match parsed {
            Ok(req) => step.is(decide(req.cmd@, req.args@, has_display)),
            Err(e) => step.is(Decision::Reply(Answer::Failed("invalid json: "@ + e@))),
        }),
{
    if !line_is_served(line) {
        return None;
    }
    match parsed {
        Ok(req) => Some(dispatch(req, has_display)),
        Err(e) => Some(Step::Reply(invalid_request(e.as_str()))),
    }
}

/// The answer to a line that is no request.
pub fn invalid_request(error: &str) -> (r: Response)
    ensures
        r.says(Answer::Failed("invalid json: "@ + error@)),
{
    Response::err(two("invalid json: ", error))
}

/// A path that leads up is never accepted, and neither is an empty one nor one with a
/// shell metacharacter: no scratch command is carried out for it.
pub proof fn law_host_paths_are_harmless(cmd: Seq<char>, args: JsonTree, has_display: bool)
    ensures
        match decide(cmd, args, has_display) {
            Decision::Do(Wish::ScratchWrite(p, _)) => p.len() > 0 && !path::has_parent_part(p) && !has_metacharacter(p),
            Decision::Do(Wish::ScratchRead(p, _, _)) => p.len() > 0 && !path::has_parent_part(p) && !has_metacharacter(
                p,
            ),
            _ => true,
        },
{
}

/// No snapshot is deleted whose name is empty, has two dots in a row or starts at the
/// root, and what is deleted is the directory of that name below `saves/`.
pub proof fn law_delete_refuses_bad_names(cmd: Seq<char>, args: JsonTree, has_display: bool)
    ensures
        match decide(cmd, args, has_display) {
            Decision::Do(Wish::Delete(n, d)) => {
                &&& n.len() > 0
                &&& !text::has_infix(n, ".."@)
                &&& !path::is_absolute(n)
                &&& d == "saves/"@ + n
                &&& !path::has_parent_part(d)
            },
            _ => true,
        },
{
    match decide(cmd, args, has_display) {
        Decision::Do(Wish::Delete(n, d)) => {
            if path::has_parent_part(d) {
                reveal_strlit("saves/");
                reveal_strlit("..");
                let i = choose|i: int| #[trigger] path::is_part(d, i, i + 2) && d[i] == '.' && d[i + 1] == '.';
                assert(n.subrange(i - 6, i - 6 + 2) =~= ".."@);
            }
        },
        _ => {},
    }
}

/// What info and delete look at lies below `saves/`.
pub proof fn law_snapshots_lie_below_saves(cmd: Seq<char>, args: JsonTree, has_display: bool)
    ensures
        match decide(cmd, args, has_display) {
            Decision::Do(Wish::Info(n, d)) => d == "saves/"@ + n,
            Decision::Do(Wish::Delete(n, d)) => d == "saves/"@ + n,
            _ => true,
        },
{
}

proof fn lemma_commands_differ()
    ensures
        "ping"@.len() == 4,
        "quit"@.len() == 4,
        "start"@.len() == 5,
        "save"@.len() == 4,
        "restore"@.len() == 7,
        "rollback"@.len() == 8,
        "list"@.len() == 4,
        "info"@.len() == 4,
        "delete"@.len() == 6,
        "serial-send"@.len() == 11,
        "serial-read"@.len() == 11,
        "wait-serial"@.len() == 11,
        "screenshot"@.len() == 10,
        "scratch-write"@.len() == 13,
        "scratch-read"@.len() == 12,
        "scratch-clear"@.len() == 13,
        "scratch-info"@.len() == 12,
        "ping"@[0] == 'p' && "quit"@[0] == 'q' && "save"@[0] == 's' && "list"@[0] == 'l' && "info"@[0] == 'i',
        "serial-send"@[0] == 's' && "serial-read"@[0] == 's' && "wait-serial"@[0] == 'w',
        "serial-send"@[7] == 's' && "serial-read"@[7] == 'r',
        "scratch-write"@[8] == 'w' && "scratch-clear"@[8] == 'c',
        "scratch-read"@[8] == 'r' && "scratch-info"@[8] == 'i',
{
    reveal_strlit("ping");
    reveal_strlit("quit");
    reveal_strlit("start");
    reveal_strlit("save");
    reveal_strlit("restore");
    reveal_strlit("rollback");
    reveal_strlit("list");
    reveal_strlit("info");
    reveal_strlit("delete");
    reveal_strlit("serial-send");
    reveal_strlit("serial-read");
    reveal_strlit("wait-serial");
    reveal_strlit("screenshot");
    reveal_strlit("scratch-write");
    reveal_strlit("scratch-read");
    reveal_strlit("scratch-clear");
    reveal_strlit("scratch-info");
}

/// Whether a request has a text under a name.
pub open spec fn gives_text(args: JsonTree, key: Seq<char>) -> bool {
    exists|s: Seq<char>| #[trigger] json::stands_under(args, key, JsonTree::String(s))
}

/// Whether a request has a number under a name.
pub open spec fn gives_number(args: JsonTree, key: Seq<char>) -> bool {
    exists|n: int| #[trigger] json::stands_under(args, key, JsonTree::Number(n))
}

proof fn lemma_text_given(args: JsonTree, key: Seq<char>)
    ensures
        json::member_text(args, key) is Some <==> gives_text(args, key),
        json::member_text(args, key) matches Some(s) ==> json::stands_under(args, key, JsonTree::String(s)),
{
    if let Some(s) = json::member_text(args, key) {
        json::law_members(args, key, JsonTree::Null, s, 0);
    }
    if gives_text(args, key) {
        let s = choose|s: Seq<char>| #[trigger] json::stands_under(args, key, JsonTree::String(s));
        json::law_members(args, key, JsonTree::Null, s, 0);
    }
}

proof fn lemma_number_given(args: JsonTree, key: Seq<char>)
    ensures
        json::member_number(args, key) is Some <==> gives_number(args, key),
        json::member_number(args, key) matches Some(n) ==> json::stands_under(args, key, JsonTree::Number(n)),
{
    if let Some(n) = json::member_number(args, key) {
        json::law_members(args, key, JsonTree::Null, seq![], n);
    }
    if gives_number(args, key) {
        let n = choose|n: int| #[trigger] json::stands_under(args, key, JsonTree::Number(n));
        json::law_members(args, key, JsonTree::Null, seq![], n);
    }
}

/// A `save` or a `restore` whose member `name` is a text is carried out for exactly that
/// name, whatever it is: every name that a save takes can be restored. So is an `info`, for
/// the directory `saves/` and the name.
pub proof fn law_every_name_is_taken(args: JsonTree, n: Seq<char>, has_display: bool)
    requires
        json::stands_under(args, "name"@, JsonTree::String(n)),
    ensures
        decide("save"@, args, has_display) == Decision::Do(Wish::Save(n)),
        decide("restore"@, args, has_display) == Decision::Do(Wish::Restore(n)),
        decide("info"@, args, has_display) == Decision::Do(Wish::Info(n, "saves/"@ + n)),
{
    lemma_commands_differ();
    json::law_members(args, "name"@, JsonTree::Null, n, 0);
}

/// `save`, `restore`, `info` and `delete` are refused for want of a name only where there is
/// no text under `name`.
pub proof fn law_names_are_needed(args: JsonTree, has_display: bool)
    requires
        !gives_text(args, "name"@),
    ensures
        decide("save"@, args, has_display) == Decision::Reply(Answer::Failed("save: missing 'name' arg"@)),
        decide("restore"@, args, has_display) == Decision::Reply(Answer::Failed("restore: missing 'name' arg"@)),
        decide("info"@, args, has_display) == Decision::Reply(Answer::Failed("info: missing 'name' arg"@)),
        decide("delete"@, args, has_display) == Decision::Reply(Answer::Failed("delete: missing 'name' arg"@)),
{
    lemma_commands_differ();
    lemma_text_given(args, "name"@);
}

/// A `delete` is carried out for every name that is not empty, does not start with a slash
/// and has no two dots in a row, and is refused for every other.
pub proof fn law_delete_takes_every_other_name(args: JsonTree, n: Seq<char>, has_display: bool)
    requires
        json::stands_under(args, "name"@, JsonTree::String(n)),
    ensures
        ({
            let good = n.len() > 0 && n[0] != '/' && forall|i: int|
                0 <= i < n.len() - 1 ==> !(#[trigger] n[i] == '.' && n[i + 1] == '.');
            &&& good ==> decide("delete"@, args, has_display) == Decision::Do(Wish::Delete(n, "saves/"@ + n))
            &&& !good ==> decide("delete"@, args, has_display) == Decision::Reply(
                Answer::Failed("delete: invalid name"@),
            )
        }),
{
    lemma_commands_differ();
    json::law_members(args, "name"@, JsonTree::Null, n, 0);
    reveal_strlit("..");
    if text::has_infix(n, ".."@) {
        let i = choose|i: int| 0 <= i <= n.len() - ".."@.len() && #[trigger] n.subrange(i, i + ".."@.len()) == ".."@;
        assert(n.subrange(i, i + 2)[0] == '.' && n.subrange(i, i + 2)[1] == '.');
        assert(n[i] == '.' && n[i + 1] == '.');
    }
    if exists|i: int| 0 <= i < n.len() - 1 && #[trigger] n[i] == '.' && n[i + 1] == '.' {
        let i = choose|i: int| 0 <= i < n.len() - 1 && #[trigger] n[i] == '.' && n[i + 1] == '.';
        assert(n.subrange(i, i + 2) =~= ".."@);
        assert(n.subrange(i, i + ".."@.len()) == ".."@);
    }
}

/// What is sent to the console is exactly the text under `data`.
pub proof fn law_console_input(args: JsonTree, d: Seq<char>, has_display: bool)
    ensures
        json::stands_under(args, "data"@, JsonTree::String(d)) ==> decide("serial-send"@, args, has_display)
            == Decision::Do(Wish::SerialSend(d)),
        !gives_text(args, "data"@) ==> decide("serial-send"@, args, has_display) == Decision::Reply(
            Answer::Failed("serial-send: missing 'data' arg"@),
        ),
{
    lemma_commands_differ();
    json::law_members(args, "data"@, JsonTree::Null, d, 0);
    lemma_text_given(args, "data"@);
}

/// The console is waited on for exactly the text under `pattern`, for as many milliseconds
/// as the number under `timeout_ms` says, and for ten seconds where there is none.
pub proof fn law_console_wait(args: JsonTree, p: Seq<char>, ms: int, has_display: bool)
    ensures
        json::stands_under(args, "pattern"@, JsonTree::String(p)) && json::stands_under(
            args,
            "timeout_ms"@,
            JsonTree::Number(ms),
        ) ==> decide("wait-serial"@, args, has_display) == Decision::Do(Wish::WaitSerial(p, ms)),
        json::stands_under(args, "pattern"@, JsonTree::String(p)) && !gives_number(args, "timeout_ms"@) ==> decide(
            "wait-serial"@,
            args,
            has_display,
        ) == Decision::Do(Wish::WaitSerial(p, 10000)),
        !gives_text(args, "pattern"@) ==> decide("wait-serial"@, args, has_display) == Decision::Reply(
            Answer::Failed("wait-serial: missing 'pattern' arg"@),
        ),
{
    lemma_commands_differ();
    json::law_members(args, "pattern"@, JsonTree::Null, p, 0);
    json::law_members(args, "timeout_ms"@, JsonTree::Null, seq![], ms);
    lemma_text_given(args, "pattern"@);
    lemma_number_given(args, "timeout_ms"@);
}

/// A screenshot goes to exactly the text under `path`, wherever there is a display.
pub proof fn law_screenshots_need_a_display(args: JsonTree, p: Seq<char>)
    ensures
        json::stands_under(args, "path"@, JsonTree::String(p)) ==> decide("screenshot"@, args, true) == Decision::Do(
            Wish::Screenshot(p),
        ),
        !gives_text(args, "path"@) ==> decide("screenshot"@, args, true) == Decision::Reply(
            Answer::Failed("screenshot: missing 'path' arg"@),
        ),
        decide("screenshot"@, args, false) == Decision::Reply(
            Answer::Failed("screenshot: REX3 not present (running with --headless?)"@),
        ),
{
    lemma_commands_differ();
    json::law_members(args, "path"@, JsonTree::Null, p, 0);
    lemma_text_given(args, "path"@);
}

/// The characters that a shell does not take as they stand are these, and no others.
pub proof fn law_metacharacters(c: char)
    ensures
        is_metacharacter(c) <==> ";&|$<>()*?`'\"\\\n\t[]{}~!#"@.contains(c),
{
    reveal_strlit(";&|$<>()*?`'\"\\\n\t[]{}~!#");
    let s = ";&|$<>()*?`'\"\\\n\t[]{}~!#"@;
    assert(s[0] == ';' && s[1] == '&' && s[2] == '|' && s[3] == '$' && s[4] == '<' && s[5] == '>');
    assert(s[6] == '(' && s[7] == ')' && s[8] == '*' && s[9] == '?' && s[10] == '`' && s[11] == '\'');
    assert(s[12] == '"' && s[13] == '\\' && s[14] == '\n' && s[15] == '\t' && s[16] == '[' && s[17] == ']');
    assert(s[18] == '{' && s[19] == '}' && s[20] == '~' && s[21] == '!' && s[22] == '#');
}

/// Whether a path on the host is one that a scratch command may use: it is not empty, no
/// part of it is `..`, and no shell takes a character of it in another way.
pub open spec fn is_usable_path(p: Seq<char>) -> bool {
    &&& p.len() > 0
    &&& !path::has_parent_part(p)
    &&& forall|i: int| 0 <= i < p.len() ==> !";&|$<>()*?`'\"\\\n\t[]{}~!#"@.contains(#[trigger] p[i])
}

proof fn lemma_usable_path(p: Seq<char>)
    ensures
        host_path_error(p) is None <==> is_usable_path(p),
{
    if has_metacharacter(p) {
        let i = choose|i: int| 0 <= i < p.len() && is_metacharacter(#[trigger] p[i]);
        law_metacharacters(p[i]);
    } else {
        assert forall|i: int| 0 <= i < p.len() implies !";&|$<>()*?`'\"\\\n\t[]{}~!#"@.contains(#[trigger] p[i]) by {
            law_metacharacters(p[i]);
        }
    }
}

/// A path on the host is accepted if and only if it is usable. An error tells which of the
/// three it is, the first of them.
pub proof fn law_host_paths(p: Seq<char>)
    ensures
        host_path_error(p) is None <==> is_usable_path(p),
        p.len() == 0 ==> host_path_error(p) == Some("path: empty"@),
        p.len() > 0 && path::has_parent_part(p) ==> host_path_error(p) == Some(
            "path: '..' components not allowed in "@ + std_text::debug_text(p),
        ),
        p.len() > 0 && !path::has_parent_part(p) && !is_usable_path(p) ==> host_path_error(p) == Some(
            "path: shell metacharacters not allowed in "@ + std_text::debug_text(p),
        ),
{
    lemma_usable_path(p);
}

/// The scratch volume is written from, and read to, exactly the path that the request gives,
/// wherever it is usable, at the offset that it gives or the start. A read has the length
/// that it gives, or none.
pub proof fn law_scratch_requests(args: JsonTree, p: Seq<char>, offset: int, length: int, has_display: bool)
    requires
        is_usable_path(p),
    ensures
        ({
            let at = if gives_number(args, "offset"@) {
                offset
            } else {
                0
            };
            let len = if gives_number(args, "length"@) {
                Some(length)
            } else {
                None
            };
            &&& json::stands_under(args, "host_path"@, JsonTree::String(p)) && (gives_number(args, "offset"@)
                ==> json::stands_under(args, "offset"@, JsonTree::Number(offset))) ==> decide(
                "scratch-write"@,
                args,
                has_display,
            ) == Decision::Do(Wish::ScratchWrite(p, at))
            &&& json::stands_under(args, "to_path"@, JsonTree::String(p)) && (gives_number(args, "offset"@)
                ==> json::stands_under(args, "offset"@, JsonTree::Number(offset))) && (gives_number(args, "length"@)
                ==> json::stands_under(args, "length"@, JsonTree::Number(length))) ==> decide(
                "scratch-read"@,
                args,
                has_display,
            ) == Decision::Do(Wish::ScratchRead(p, at, len))
        }),
{
    lemma_commands_differ();
    lemma_usable_path(p);
    json::law_members(args, "host_path"@, JsonTree::Null, p, 0);
    json::law_members(args, "to_path"@, JsonTree::Null, p, 0);
    json::law_members(args, "offset"@, JsonTree::Null, seq![], offset);
    json::law_members(args, "length"@, JsonTree::Null, seq![], length);
    lemma_number_given(args, "offset"@);
    lemma_number_given(args, "length"@);
}

/// A scratch command without a path, or with one that is not usable, is refused and says
/// why.
pub proof fn law_scratch_requests_that_are_refused(args: JsonTree, p: Seq<char>, has_display: bool)
    requires
        !is_usable_path(p),
    ensures
        !gives_text(args, "host_path"@) ==> decide("scratch-write"@, args, has_display) == Decision::Reply(
            Answer::Failed("scratch-write: missing 'host_path' arg"@),
        ),
        !gives_text(args, "to_path"@) ==> decide("scratch-read"@, args, has_display) == Decision::Reply(
            Answer::Failed("scratch-read: missing 'to_path' arg"@),
        ),
        json::stands_under(args, "host_path"@, JsonTree::String(p)) ==> decide("scratch-write"@, args, has_display)
            == Decision::Reply(Answer::Failed("scratch-write: "@ + host_path_error(p)->0)),
        json::stands_under(args, "to_path"@, JsonTree::String(p)) ==> decide("scratch-read"@, args, has_display)
            == Decision::Reply(Answer::Failed("scratch-read: "@ + host_path_error(p)->0)),
{
    lemma_commands_differ();
    lemma_usable_path(p);
    json::law_members(args, "host_path"@, JsonTree::Null, p, 0);
    json::law_members(args, "to_path"@, JsonTree::Null, p, 0);
    lemma_text_given(args, "host_path"@);
    lemma_text_given(args, "to_path"@);
}

/// The commands that need no arguments do what they are named after, whatever arguments come
/// with them; and a command that is none is refused by its name.
pub proof fn law_requests_without_arguments(cmd: Seq<char>, args: JsonTree, has_display: bool)
    ensures
        decide("ping"@, args, has_display) == Decision::Reply(Answer::Done),
        decide("quit"@, args, has_display) == Decision::Do(Wish::Quit),
        decide("start"@, args, has_display) == Decision::Do(Wish::Start),
        decide("rollback"@, args, has_display) == Decision::Do(Wish::Rollback),
        decide("list"@, args, has_display) == Decision::Do(Wish::List),
        decide("serial-read"@, args, has_display) == Decision::Do(Wish::SerialRead),
        decide("scratch-clear"@, args, has_display) == Decision::Do(Wish::ScratchClear),
        decide("scratch-info"@, args, has_display) == Decision::Do(Wish::ScratchInfo),
        cmd != "ping"@
            && cmd != "quit"@
            && cmd != "start"@
            && cmd != "save"@
            && cmd != "restore"@
            && cmd != "rollback"@
            && cmd != "list"@
            && cmd != "info"@
            && cmd != "delete"@
            && cmd != "serial-send"@
            && cmd != "serial-read"@
            && cmd != "wait-serial"@
            && cmd != "screenshot"@
            && cmd != "scratch-write"@
            && cmd != "scratch-read"@
            && cmd != "scratch-clear"@
            && cmd != "scratch-info"@
            ==> decide(cmd, args, has_display) == Decision::Reply(Answer::Failed("unknown command: "@ + cmd)),
{
    lemma_commands_differ();
}

/// What is to be done is what the decision says, with the same names and numbers.
pub proof fn law_actions_are_what_was_decided(s: String, t: String, n: u64, len: Option<u64>)
    ensures
        Action::Quit@ == Wish::Quit && Action::Start@ == Wish::Start && Action::Rollback@ == Wish::Rollback,
        Action::List@ == Wish::List && Action::SerialRead@ == Wish::SerialRead,
        Action::ScratchClear@ == Wish::ScratchClear && Action::ScratchInfo@ == Wish::ScratchInfo,
        Action::Save(s)@ == Wish::Save(s@) && Action::Restore(s)@ == Wish::Restore(s@),
        Action::Info(s, t)@ == Wish::Info(s@, t@) && Action::Delete(s, t)@ == Wish::Delete(s@, t@),
        Action::SerialSend(s)@ == Wish::SerialSend(s@) && Action::Screenshot(s)@ == Wish::Screenshot(s@),
        Action::WaitSerial(s, n)@ == Wish::WaitSerial(s@, n as int),
        Action::ScratchWrite(s, n)@ == Wish::ScratchWrite(s@, n as int),
        Action::ScratchRead(s, n, len)@ == Wish::ScratchRead(
            s@,
            n as int,
            match len {
                Some(l) => Some(l as int),
                None => None,
            },
        ),
{
}

/// An answer that something was done has neither a value nor an error, one that gives a
/// value has no error, and one that something failed has an error and no value. A step is an
/// answer or something to be done, never both.
pub proof fn law_answers(r: Response, t: JsonTree, e: Seq<char>, a: Answer, w: Wish, x: Action)
    ensures
        r.says(Answer::Done) <==> r.ok && r.data is None && r.error is None,
        r.says(Answer::Data(t)) <==> r.ok && r.error is None && r.data is Some && r.data->0@ == t,
        r.says(Answer::Failed(e)) <==> !r.ok && r.data is None && r.error is Some && r.error->0@ == e,
        Step::Reply(r).is(Decision::Reply(a)) <==> r.says(a),
        Step::Do(x).is(Decision::Do(w)) <==> x@ == w,
        !Step::Reply(r).is(Decision::Do(w)),
        !Step::Do(x).is(Decision::Reply(a)),
{
}

/// The answer to something that went well says so, and that to something that did not says
/// why behind what it was.
pub proof fn law_outcomes(failure: Seq<char>, e: String)
    ensures
        outcome_answer(failure, Ok::<(), String>(())) == Answer::Done,
        outcome_answer(failure, Err::<(), String>(e)) == Answer::Failed(failure + e@),
{
}

/// The answer to `list` has the names, in their order, under `snapshots`, and nothing else.
pub proof fn law_list_answer(names: Seq<Seq<char>>, i: int)
    ensures
        list_tree(names) matches JsonTree::Object(e) && e.len() == 1 && e[0].0 == "snapshots"@ && (
        e[0].1 matches JsonTree::Array(a) && a.len() == names.len() && (0 <= i < names.len() ==> a[i]
            == JsonTree::String(names[i]))),
{
}

proof fn lemma_lookup_put_text(
    e: Seq<(Seq<char>, JsonTree)>,
    key: Seq<char>,
    s: Option<Seq<char>>,
    other: Seq<char>,
)
    ensures
        table::lookup(put_text(e, key, s), other) == (if other == key && s is Some {
            Some(JsonTree::String(s->0))
        } else {
            table::lookup(e, other)
        }),
{
    if let Some(t) = s {
        table::law_lookup_after_put(e, key, JsonTree::String(t), other);
    }
}

proof fn lemma_info_names()
    ensures
        "name"@.len() == 4 && "bytes_on_disk"@.len() == 13 && "schema_version"@.len() == 14,
        "host_arch"@.len() == 9 && "created_at_unix"@.len() == 15 && "iris_git_rev"@.len() == 12,
        "parent"@.len() == 6 && "description"@.len() == 11 && "installed_bundles"@.len() == 17,
        "legacy"@.len() == 6 && "parent"@[0] == 'p' && "legacy"@[0] == 'l',
{
    reveal_strlit("name");
    reveal_strlit("bytes_on_disk");
    reveal_strlit("schema_version");
    reveal_strlit("host_arch");
    reveal_strlit("created_at_unix");
    reveal_strlit("iris_git_rev");
    reveal_strlit("parent");
    reveal_strlit("description");
    reveal_strlit("installed_bundles");
    reveal_strlit("legacy");
}

/// The answer to `info` on a snapshot with a manifest has each of its fields under its name,
/// as they are, besides the name of the snapshot and its bytes; a text that the manifest
/// does not have is left out, and nothing else is in the answer.
pub proof fn law_info_answer(name: Seq<char>, bytes: int, m: ManifestModel, key: Seq<char>)
    ensures
        table::lookup(info_members(name, bytes, Some(m)), key) == (if key == "name"@ {
            Some(JsonTree::String(name))
        } else if key == "bytes_on_disk"@ {
            Some(JsonTree::Number(bytes))
        } else if key == "schema_version"@ {
            Some(JsonTree::Number(m.schema_version))
        } else if key == "host_arch"@ {
            Some(JsonTree::String(m.host_arch))
        } else if key == "created_at_unix"@ {
            Some(JsonTree::Number(m.created_at_unix))
        } else if key == "installed_bundles"@ {
            Some(JsonTree::Array(Seq::new(m.installed_bundles.len(), |i: int| JsonTree::String(m.installed_bundles[i]))))
        } else if key == "iris_git_rev"@ && m.iris_git_rev is Some {
            Some(JsonTree::String(m.iris_git_rev->0))
        } else if key == "parent"@ && m.parent is Some {
            Some(JsonTree::String(m.parent->0))
        } else if key == "description"@ && m.description is Some {
            Some(JsonTree::String(m.description->0))
        } else {
            None
        }),
{
    lemma_info_names();
    let e0 = Seq::<(Seq<char>, JsonTree)>::empty();
    let e1 = table::put(e0, "name"@, JsonTree::String(name));
    let e2 = table::put(e1, "bytes_on_disk"@, JsonTree::Number(bytes));
    let e3 = table::put(e2, "schema_version"@, JsonTree::Number(m.schema_version));
    let e4 = table::put(e3, "host_arch"@, JsonTree::String(m.host_arch));
    let e5 = table::put(e4, "created_at_unix"@, JsonTree::Number(m.created_at_unix));
    let e6 = put_text(e5, "iris_git_rev"@, m.iris_git_rev);
    let e7 = put_text(e6, "parent"@, m.parent);
    let e8 = put_text(e7, "description"@, m.description);
    let bundles = JsonTree::Array(text_trees(m.installed_bundles));
    assert(text_trees(m.installed_bundles) =~= Seq::new(
        m.installed_bundles.len(),
        |i: int| JsonTree::String(m.installed_bundles[i]),
    ));
    assert(table::lookup(e0, key) is None);
    table::law_lookup_after_put(e0, "name"@, JsonTree::String(name), key);
    table::law_lookup_after_put(e1, "bytes_on_disk"@, JsonTree::Number(bytes), key);
    table::law_lookup_after_put(e2, "schema_version"@, JsonTree::Number(m.schema_version), key);
    table::law_lookup_after_put(e3, "host_arch"@, JsonTree::String(m.host_arch), key);
    table::law_lookup_after_put(e4, "created_at_unix"@, JsonTree::Number(m.created_at_unix), key);
    lemma_lookup_put_text(e5, "iris_git_rev"@, m.iris_git_rev, key);
    lemma_lookup_put_text(e6, "parent"@, m.parent, key);
    lemma_lookup_put_text(e7, "description"@, m.description, key);
    table::law_lookup_after_put(e8, "installed_bundles"@, bundles, key);
}

/// The answer to `info` on a snapshot without a manifest says that it is a legacy one, of
/// version 0, besides its name and its bytes.
pub proof fn law_info_answer_without_manifest(name: Seq<char>, bytes: int, key: Seq<char>)
    ensures
        table::lookup(info_members(name, bytes, None), key) == (if key == "name"@ {
            Some(JsonTree::String(name))
        } else if key == "bytes_on_disk"@ {
            Some(JsonTree::Number(bytes))
        } else if key == "schema_version"@ {
            Some(JsonTree::Number(0))
        } else if key == "legacy"@ {
            Some(JsonTree::Bool(true))
        } else {
            None
        }),
{
    lemma_info_names();
    let e0 = Seq::<(Seq<char>, JsonTree)>::empty();
    let e1 = table::put(e0, "name"@, JsonTree::String(name));
    let e2 = table::put(e1, "bytes_on_disk"@, JsonTree::Number(bytes));
    let e3 = table::put(e2, "schema_version"@, JsonTree::Number(0));
    assert(table::lookup(e0, key) is None);
    table::law_lookup_after_put(e0, "name"@, JsonTree::String(name), key);
    table::law_lookup_after_put(e1, "bytes_on_disk"@, JsonTree::Number(bytes), key);
    table::law_lookup_after_put(e2, "schema_version"@, JsonTree::Number(0), key);
    table::law_lookup_after_put(e3, "legacy"@, JsonTree::Bool(true), key);
}

/// An `info` finds every snapshot that has a directory. It fails on one without, and on one
/// whose manifest cannot be read or is none.
pub proof fn law_info_finds_every_snapshot(name: Seq<char>, contents: Contents, bytes: int)
    ensures
        info_answer(name, false, contents, bytes) == Answer::Failed("info: snapshot '"@ + name + "' not found"@),
        contents is Absent ==> info_answer(name, true, contents, bytes) == Answer::Data(
            JsonTree::Object(info_members(name, bytes, None)),
        ),
        snapshot::manifest_in(contents) matches Ok(Some(m)) ==> info_answer(name, true, contents, bytes) == Answer::Data(
            JsonTree::Object(info_members(name, bytes, Some(m))),
        ),
        snapshot::manifest_in(contents) matches Err(e) ==> info_answer(name, true, contents, bytes) == Answer::Failed(
            "info: manifest read failed: "@ + e,
        ),
{
}

/// The answer to `screenshot` tells the path and the size of the picture, and how many bytes
/// three to the pixel and a hundred more are.
pub proof fn law_screenshot_answer(path: Seq<char>, width: int, height: int, e: String, key: Seq<char>)
    ensures
        screenshot_answer(path, width, height, FileOutcome::Written) == Answer::Data(
            JsonTree::Object(screenshot_members(path, width, height)),
        ),
        screenshot_answer(path, width, height, FileOutcome::NotCreated(e)) == Answer::Failed(
            "screenshot: create "@ + path + ": "@ + e@,
        ),
        screenshot_answer(path, width, height, FileOutcome::NotWritten(e)) == Answer::Failed(
            "screenshot: png write: "@ + e@,
        ),
        table::lookup(screenshot_members(path, width, height), key) == (if key == "path"@ {
            Some(JsonTree::String(path))
        } else if key == "width"@ {
            Some(JsonTree::Number(width))
        } else if key == "height"@ {
            Some(JsonTree::Number(height))
        } else if key == "bytes"@ {
            Some(JsonTree::Number(width * height * 3 + 100))
        } else {
            None
        }),
{
    reveal_strlit("path");
    reveal_strlit("width");
    reveal_strlit("height");
    reveal_strlit("bytes");
    assert("path"@.len() == 4 && "width"@.len() == 5 && "height"@.len() == 6 && "bytes"@.len() == 5);
    assert("width"@[0] != "bytes"@[0]);
    let e0 = Seq::<(Seq<char>, JsonTree)>::empty();
    let e1 = table::put(e0, "path"@, JsonTree::String(path));
    let e2 = table::put(e1, "width"@, JsonTree::Number(width));
    let e3 = table::put(e2, "height"@, JsonTree::Number(height));
    assert(table::lookup(e0, key) is None);
    table::law_lookup_after_put(e0, "path"@, JsonTree::String(path), key);
    table::law_lookup_after_put(e1, "width"@, JsonTree::Number(width), key);
    table::law_lookup_after_put(e2, "height"@, JsonTree::Number(height), key);
    table::law_lookup_after_put(e3, "bytes"@, JsonTree::Number(width * height * 3 + PNG_OVERHEAD), key);
}

/// The answer to a command that moved bytes has how many, where, and the file on the host.
pub proof fn law_moved_answer(count: Seq<char>, n: int, offset: int, file: Seq<char>, path: Seq<char>, key: Seq<char>)
    requires
        count != "offset"@,
        file != "offset"@,
        count != file,
    ensures
        table::lookup(moved_members(count, n, offset, file, path), key) == (if key == count {
            Some(JsonTree::Number(n))
        } else if key == "offset"@ {
            Some(JsonTree::Number(offset))
        } else if key == file {
            Some(JsonTree::String(path))
        } else {
            None
        }),
{
    let e0 = Seq::<(Seq<char>, JsonTree)>::empty();
    let e1 = table::put(e0, count, JsonTree::Number(n));
    let e2 = table::put(e1, "offset"@, JsonTree::Number(offset));
    assert(table::lookup(e0, key) is None);
    table::law_lookup_after_put(e0, count, JsonTree::Number(n), key);
    table::law_lookup_after_put(e1, "offset"@, JsonTree::Number(offset), key);
    table::law_lookup_after_put(e2, file, JsonTree::String(path), key);
}

/// The answer to `scratch-info` has the volume and its size, where the payload starts, and
/// how many bytes it has: all behind the first 4096.
pub proof fn law_scratch_info_answer(path: Seq<char>, size: int, key: Seq<char>)
    ensures
        table::lookup(scratch_members(path, size), key) == (if key == "path"@ {
            Some(JsonTree::String(path))
        } else if key == "size_bytes"@ {
            Some(JsonTree::Number(size))
        } else if key == "payload_offset"@ {
            Some(JsonTree::Number(4096))
        } else if key == "payload_size_bytes"@ {
            Some(
                JsonTree::Number(
                    if size >= 4096 {
                        size - 4096
                    } else {
                        0
                    },
                ),
            )
        } else {
            None
        }),
{
    reveal_strlit("path");
    reveal_strlit("size_bytes");
    reveal_strlit("payload_offset");
    reveal_strlit("payload_size_bytes");
    assert("path"@.len() == 4 && "size_bytes"@.len() == 10);
    assert("payload_offset"@.len() == 14 && "payload_size_bytes"@.len() == 18);
    let e0 = Seq::<(Seq<char>, JsonTree)>::empty();
    let e1 = table::put(e0, "path"@, JsonTree::String(path));
    let e2 = table::put(e1, "size_bytes"@, JsonTree::Number(size));
    let e3 = table::put(e2, "payload_offset"@, JsonTree::Number(SCRATCH_PAYLOAD_OFFSET as int));
    assert(table::lookup(e0, key) is None);
    table::law_lookup_after_put(e0, "path"@, JsonTree::String(path), key);
    table::law_lookup_after_put(e1, "size_bytes"@, JsonTree::Number(size), key);
    table::law_lookup_after_put(e2, "payload_offset"@, JsonTree::Number(SCRATCH_PAYLOAD_OFFSET as int), key);
    table::law_lookup_after_put(e3, "payload_size_bytes"@, JsonTree::Number(scratch::payload_bytes(size)), key);
}

/// A line is served as soon as one character of it is no white space: of the first 128
/// characters those are all but the space and the five from tab to carriage return. What is
/// put around a line does not take that away.
pub proof fn law_lines_that_are_served(before: Seq<char>, c: char, behind: Seq<char>)
    ensures
        c as int >= 33 && (c as int) < 128 ==> is_served(before + seq![c] + behind),
        !is_served(seq![]),
        (9 <= c as int <= 13 || c as int == 32) ==> is_served(before + seq![c] + behind) == is_served(before + behind),
{
    let line = before + seq![c] + behind;
    let short = before + behind;
    assert(line[before.len() as int] == c);
    if is_served(short) {
        let i = choose|i: int| 0 <= i < short.len() && !is_white(#[trigger] short[i]);
        if i < before.len() {
            assert(line[i] == short[i]);
        } else {
            assert(line[i + 1] == short[i]);
        }
    }
    if is_served(line) && (9 <= c as int <= 13 || c as int == 32) {
        let i = choose|i: int| 0 <= i < line.len() && !is_white(#[trigger] line[i]);
        if i < before.len() {
            assert(short[i] == line[i]);
        } else if i > before.len() {
            assert(short[i - 1] == line[i]);
        }
    }
}

/// White space is, by number: 9 to 13, 32, 133, 160, 5760, 8192 to 8202, 8232, 8233, 8239,
/// 8287 and 12288.
pub proof fn law_white_space(c: char)
    ensures
        is_white(c) <==> ({
            let n = c as int;
            9 <= n <= 13 || n == 32 || n == 133 || n == 160 || n == 5760 || 8192 <= n <= 8202 || n == 8232 || n
                == 8233 || n == 8239 || n == 8287 || n == 12288
        }),
{
}

/// Without a directory for saves there are no snapshots; with one there are those below it.
pub proof fn law_snapshots_to_list(d: SaveDir)
    ensures
        names_in(None).len() == 0,
        names_in(Some(&d)) == d.names(seq![]),
{
}

}
