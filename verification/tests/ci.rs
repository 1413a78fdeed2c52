use iris::ci::{
    cmd_delete, cmd_info, cmd_list, cmd_restore, cmd_rollback, cmd_save, cmd_scratch_clear, cmd_scratch_info,
    cmd_scratch_read, cmd_scratch_write, cmd_screenshot, cmd_serial_read, cmd_wait_serial, dispatch, handle_line,
    invalid_request, line_is_served, scratch_volume, screenshot_file, validate_host_path, volume_to_clear, Action, FileOutcome, Request, Response, Step,
};
use iris::json::{Json, Members};
use iris::saves::{list_snapshots, SaveDir};
use iris::scratch::{clear_chunks, payload_size, raw_offset, read_len};
use iris::screenshot::{png_of, screen_rgb};
use iris::snapshot::{Contents, Manifest, Snapshot};

fn text(s: &str) -> Json {
    Json::String(s.to_string())
}

fn object(members: Vec<(&str, Json)>) -> Json {
    let mut m = Members::new();
    for (k, v) in members {
        m.put(k, v);
    }
    m.object()
}

fn ask(cmd: &str, members: Vec<(&str, Json)>) -> Step {
    dispatch(&Request { cmd: cmd.to_string(), args: object(members) }, true)
}

fn action(step: Step) -> Action {
    match step {
        Step::Do(a) => a,
        Step::Reply(r) => panic!("answered at once: {:?}", r),
    }
}

fn refusal(step: Step) -> String {
    match step {
        Step::Reply(r) => error(r),
        Step::Do(a) => panic!("not refused: {:?}", a),
    }
}

fn error(r: Response) -> String {
    assert!(!r.ok && r.data.is_none());
    r.error.unwrap()
}

fn data(r: Response) -> Json {
    assert!(r.ok && r.error.is_none());
    r.data.unwrap()
}

fn done(r: &Response) -> bool {
    r.ok && r.data.is_none() && r.error.is_none()
}

fn names(v: &Json) -> Vec<String> {
    match v {
        Json::Array(a) => a
            .iter()
            .map(|x| match x {
                Json::String(s) => s.clone(),
                _ => panic!("no text"),
            })
            .collect(),
        _ => panic!("no array"),
    }
}

#[test]
fn ping_is_answered() {
    match ask("ping", vec![]) {
        Step::Reply(r) => assert!(done(&r)),
        Step::Do(_) => panic!("ping does nothing"),
    }
}

#[test]
fn commands_without_arguments_are_carried_out() {
    assert!(matches!(action(ask("quit", vec![])), Action::Quit));
    assert!(matches!(action(ask("start", vec![])), Action::Start));
    assert!(matches!(action(ask("rollback", vec![])), Action::Rollback));
    assert!(matches!(action(ask("list", vec![])), Action::List));
    assert!(matches!(action(ask("serial-read", vec![])), Action::SerialRead));
    assert!(matches!(action(ask("scratch-clear", vec![])), Action::ScratchClear));
    assert!(matches!(action(ask("scratch-info", vec![])), Action::ScratchInfo));
}

#[test]
fn unknown_commands_are_refused() {
    assert_eq!(refusal(ask("reboot", vec![])), "unknown command: reboot");
    assert_eq!(refusal(ask("", vec![])), "unknown command: ");
}

#[test]
fn missing_arguments_are_told() {
    assert_eq!(refusal(ask("save", vec![])), "save: missing 'name' arg");
    assert_eq!(refusal(ask("restore", vec![("name", Json::Number(1))])), "restore: missing 'name' arg");
    assert_eq!(refusal(ask("info", vec![])), "info: missing 'name' arg");
    assert_eq!(refusal(ask("delete", vec![])), "delete: missing 'name' arg");
    assert_eq!(refusal(ask("serial-send", vec![])), "serial-send: missing 'data' arg");
    assert_eq!(refusal(ask("wait-serial", vec![])), "wait-serial: missing 'pattern' arg");
    assert_eq!(refusal(ask("screenshot", vec![])), "screenshot: missing 'path' arg");
    assert_eq!(refusal(ask("scratch-write", vec![])), "scratch-write: missing 'host_path' arg");
    assert_eq!(refusal(ask("scratch-read", vec![])), "scratch-read: missing 'to_path' arg");
    let bare = Request { cmd: "save".to_string(), args: Json::Null };
    assert_eq!(refusal(dispatch(&bare, true)), "save: missing 'name' arg");
}

#[test]
fn arguments_are_handed_on() {
    assert!(matches!(action(ask("save", vec![("name", text("a/b"))])), Action::Save(n) if n == "a/b"));
    assert!(matches!(action(ask("restore", vec![("name", text("x"))])), Action::Restore(n) if n == "x"));
    assert!(matches!(
        action(ask("info", vec![("name", text("x"))])),
        Action::Info(n, d) if n == "x" && d == "saves/x"
    ));
    assert!(matches!(
        action(ask("info", vec![("name", text("/etc"))])),
        Action::Info(n, d) if n == "/etc" && d == "saves//etc"
    ));
    assert!(matches!(action(ask("serial-send", vec![("data", text("root\r"))])), Action::SerialSend(s) if s == "root\r"));
    assert!(matches!(action(ask("screenshot", vec![("path", text("s.png"))])), Action::Screenshot(p) if p == "s.png"));
}

#[test]
fn waiting_has_a_default_time() {
    assert!(matches!(
        action(ask("wait-serial", vec![("pattern", text("login:"))])),
        Action::WaitSerial(p, 10_000) if p == "login:"
    ));
    assert!(matches!(
        action(ask("wait-serial", vec![("pattern", text("login:")), ("timeout_ms", Json::Number(120_000))])),
        Action::WaitSerial(_, 120_000)
    ));
    assert!(matches!(
        action(ask("wait-serial", vec![("pattern", text("login:")), ("timeout_ms", Json::OtherNumber)])),
        Action::WaitSerial(_, 10_000)
    ));
}

#[test]
fn screenshot_needs_a_display() {
    let req = Request { cmd: "screenshot".to_string(), args: Json::Null };
    assert_eq!(refusal(dispatch(&req, false)), "screenshot: REX3 not present (running with --headless?)");
}

#[test]
fn delete_refuses_bad_names() {
    assert_eq!(refusal(ask("delete", vec![("name", text(""))])), "delete: invalid name");
    assert_eq!(refusal(ask("delete", vec![("name", text("../etc"))])), "delete: invalid name");
    assert_eq!(refusal(ask("delete", vec![("name", text("a..b"))])), "delete: invalid name");
    assert_eq!(refusal(ask("delete", vec![("name", text("/tmp/x"))])), "delete: invalid name");
    assert!(matches!(
        action(ask("delete", vec![("name", text("a.b"))])),
        Action::Delete(n, d) if n == "a.b" && d == "saves/a.b"
    ));
}

#[test]
fn scratch_commands_refuse_paths_that_lead_up() {
    assert_eq!(refusal(ask("scratch-write", vec![("host_path", text(""))])), "scratch-write: path: empty");
    assert_eq!(
        refusal(ask("scratch-read", vec![("to_path", text("a/../b\n"))])),
        "scratch-read: path: '..' components not allowed in \"a/../b\\n\""
    );
    assert!(matches!(
        action(ask("scratch-write", vec![("host_path", text("b.tar")), ("offset", Json::Number(512))])),
        Action::ScratchWrite(p, 512) if p == "b.tar"
    ));
    assert!(matches!(
        action(ask("scratch-read", vec![("to_path", text("a..b")), ("length", Json::Number(9))])),
        Action::ScratchRead(p, 0, Some(9)) if p == "a..b"
    ));
}

#[test]
fn host_paths_are_validated() {
    assert_eq!(validate_host_path("/tmp/x").unwrap(), "/tmp/x");
    assert_eq!(validate_host_path("").err().unwrap(), "path: empty");
    assert_eq!(validate_host_path("..").err().unwrap(), "path: '..' components not allowed in \"..\"");
    assert_eq!(
        validate_host_path("a;b").err().unwrap(),
        "path: shell metacharacters not allowed in \"a;b\""
    );
    assert!(validate_host_path("$(x)").is_err());
    for c in ";&|$<>()*?`'\"\\\n\t[]{}~!#".chars() {
        assert!(validate_host_path(&format!("dir/file{}x", c)).is_err(), "{:?}", c);
    }
    assert!(validate_host_path("/home/u/my file_1-2.tar.gz").is_ok());
}

#[test]
fn blank_lines_are_not_served() {
    // The test agrees with that of std on every character.
    for c in '\0'..=char::MAX {
        assert_eq!(line_is_served(&c.to_string()), !c.is_whitespace(), "{:?}", c);
    }
    assert!(!line_is_served(""));
    assert!(!line_is_served(" \t\u{3000}"));
    assert!(line_is_served("  x "));
}

#[test]
fn every_other_line_gets_one_answer() {
    let ping = || Ok(Request { cmd: "ping".to_string(), args: Json::Null });
    assert!(handle_line("  ", &ping(), true).is_none());
    assert!(handle_line("  ", &Err("eof".into()), true).is_none());
    assert!(matches!(handle_line("{}", &ping(), true), Some(Step::Reply(r)) if r.ok));
    match handle_line("{", &Err("eof".into()), true) {
        Some(Step::Reply(r)) => assert_eq!(error(r), "invalid json: eof"),
        other => panic!("{:?}", other),
    }
}

#[test]
fn outcomes_are_answered() {
    assert!(done(&cmd_save(&Ok(()))));
    assert!(done(&cmd_restore(&Ok(()))));
    assert!(done(&cmd_rollback(&Ok(()))));
    assert_eq!(error(cmd_save(&Err("x".into()))), "save failed: x");
    assert_eq!(error(cmd_restore(&Err("x".into()))), "restore failed: x");
    assert_eq!(error(cmd_rollback(&Err("x".into()))), "rollback failed: x");
    assert_eq!(error(invalid_request("eof")), "invalid json: eof");
}

fn dir(name: &str, files: Vec<&str>, dirs: Vec<SaveDir>) -> SaveDir {
    SaveDir { name: name.to_string(), files: files.into_iter().map(String::from).collect(), dirs }
}

#[test]
fn snapshots_are_listed_in_order() {
    let root = dir(
        "saves",
        vec!["snapshot.toml"],
        vec![
            dir("z", vec!["cpu.toml"], vec![]),
            dir(
                "base",
                vec!["notes.txt"],
                vec![dir("multi", vec!["snapshot.toml", "cpu.bin"], vec![]), dir("empty", vec![], vec![])],
            ),
            dir("a\\b", vec!["snapshot.toml"], vec![dir("c", vec!["cpu.toml"], vec![])]),
        ],
    );
    assert_eq!(list_snapshots(&root), vec!["a/b", "a/b/c", "base/multi", "z"]);
    let d = data(cmd_list(Some(&root)));
    assert_eq!(names(d.get("snapshots").unwrap()).len(), 4);
    assert!(names(data(cmd_list(None)).get("snapshots").unwrap()).is_empty());
}

#[test]
fn only_snapshots_are_listed_and_once() {
    let root = dir(
        "saves",
        vec![],
        vec![
            dir("a", vec!["snapshot.toml"], vec![dir("b", vec!["cpu.toml", "snapshot.toml"], vec![])]),
            dir("a-b", vec!["snapshot.toml"], vec![]),
            dir("ab", vec!["other.toml"], vec![dir("a", vec!["snapshot.toml"], vec![])]),
        ],
    );
    assert_eq!(list_snapshots(&root), vec!["a", "a-b", "a/b", "ab/a"]);
}

#[test]
fn info_tells_the_manifest() {
    let snap = Snapshot::new("saves/x".to_string());
    let m = Manifest {
        schema_version: 2,
        iris_git_rev: Some("abc".into()),
        host_arch: "aarch64".into(),
        created_at_unix: 9,
        parent: None,
        description: None,
        installed_bundles: vec!["sed".into()],
    };
    let file = snap.write_manifest(&m).unwrap();
    let d = data(cmd_info("x", true, &Contents::Text(file.text), &vec![10, 20]));
    assert_eq!(d.get_str("name"), Some("x"));
    assert_eq!(d.get_u64("bytes_on_disk"), Some(30));
    assert_eq!(d.get_u64("schema_version"), Some(2));
    assert_eq!(d.get_str("host_arch"), Some("aarch64"));
    assert_eq!(d.get_u64("created_at_unix"), Some(9));
    assert_eq!(d.get_str("iris_git_rev"), Some("abc"));
    assert!(d.get("parent").is_none() && d.get("description").is_none() && d.get("legacy").is_none());
    assert_eq!(names(d.get("installed_bundles").unwrap()), vec!["sed"]);
}

#[test]
fn info_of_a_legacy_snapshot() {
    let d = data(cmd_info("old", true, &Contents::Absent, &vec![]));
    assert_eq!(d.get_u64("schema_version"), Some(0));
    assert!(matches!(d.get("legacy"), Some(Json::Bool(true))));
    assert!(d.get("host_arch").is_none());
}

#[test]
fn info_errors() {
    assert_eq!(error(cmd_info("x", false, &Contents::Absent, &vec![])), "info: snapshot 'x' not found");
    assert_eq!(
        error(cmd_info("x", true, &Contents::Unreadable("io".into()), &vec![])),
        "info: manifest read failed: io"
    );
}

#[test]
fn delete_is_answered() {
    assert!(done(&cmd_delete("x", "saves/x", Some(&Ok(())))));
    assert_eq!(error(cmd_delete("x", "saves/x", None)), "delete: snapshot 'x' not found");
    assert_eq!(error(cmd_delete("x", "saves/x", Some(&Err("busy".into())))), "delete: saves/x: busy");
}

#[test]
fn console_output_is_text() {
    assert!(matches!(data(cmd_serial_read(b"login: ")), Json::String(s) if s == "login: "));
    assert!(matches!(data(cmd_serial_read(&[b'a', 0xFF])), Json::String(s) if s == "a\u{FFFD}"));
    assert!(matches!(data(cmd_wait_serial("n:", 5, Some(b"in:"))), Json::String(s) if s == "in:"));
    assert_eq!(
        error(cmd_wait_serial("a\"b", 10, None)),
        "wait-serial: timeout after 10ms waiting for \"a\\\"b\""
    );
}

#[test]
fn screen_is_copied_without_its_stride() {
    let mut screen = vec![0u32; 2048 + 2];
    screen[0] = 0xFF112233;
    screen[1] = 0xFF445566;
    screen[2048] = 0xFF778899;
    screen[2049] = 0xFFAABBCC;
    assert_eq!(
        screen_rgb(&screen, 2, 2),
        vec![0x11, 0x22, 0x33, 0x44, 0x55, 0x66, 0x77, 0x88, 0x99, 0xAA, 0xBB, 0xCC]
    );
}

#[test]
fn screenshot_decodes_to_its_pixels() {
    let rgb = vec![1, 2, 3, 4, 5, 6];
    let file = screenshot_file(&rgb, 2, 1).unwrap();
    let mut reader = png::Decoder::new(&file[..]).read_info().unwrap();
    let mut pixels = vec![0; reader.output_buffer_size()];
    let info = reader.next_frame(&mut pixels).unwrap();
    assert_eq!((info.width, info.height), (2, 1));
    assert_eq!(&pixels[..info.buffer_size()], &rgb[..]);
}

#[test]
fn screenshot_of_nothing_is_an_error() {
    assert_eq!(png_of(&vec![], 0, 5).err().unwrap(), "Zero width not allowed");
    assert_eq!(png_of(&vec![], 5, 0).err().unwrap(), "Zero height not allowed");
    assert_eq!(
        error(screenshot_file(&vec![], 0, 0).err().unwrap()),
        "screenshot: png header: Zero width not allowed"
    );
}

#[test]
fn screenshot_is_answered() {
    let d = data(cmd_screenshot("s.png", 1024, 768, &FileOutcome::Written));
    assert_eq!(d.get_str("path"), Some("s.png"));
    assert_eq!(d.get_u64("width"), Some(1024));
    assert_eq!(d.get_u64("height"), Some(768));
    assert_eq!(d.get_u64("bytes"), Some(1024 * 768 * 3 + 100));
    assert_eq!(
        error(cmd_screenshot("s.png", 1, 1, &FileOutcome::NotCreated("denied".into()))),
        "screenshot: create s.png: denied"
    );
    assert_eq!(
        error(cmd_screenshot("s.png", 1, 1, &FileOutcome::NotWritten("full".into()))),
        "screenshot: png write: full"
    );
}

#[test]
fn scratch_answers() {
    assert_eq!(scratch_volume(&Some("s.raw".into())).unwrap(), "s.raw");
    assert_eq!(
        scratch_volume(&None).err().unwrap(),
        "scratch volume not configured (set `scratch = true` on a SCSI device in iris.toml)"
    );
    assert_eq!(volume_to_clear(&Some("s.raw".into())).unwrap(), "s.raw");
    assert_eq!(volume_to_clear(&None).err().unwrap(), "scratch volume not configured");
    let d = data(cmd_scratch_write("b.tar", 512, &Ok(7)));
    assert_eq!((d.get_u64("bytes_written"), d.get_u64("offset")), (Some(7), Some(512)));
    assert_eq!(d.get_str("host_path"), Some("b.tar"));
    assert_eq!(error(cmd_scratch_write("b.tar", 0, &Err("seek: x".into()))), "scratch-write: seek: x");
    let d = data(cmd_scratch_read("o", 1, &Ok(8)));
    assert_eq!((d.get_u64("bytes_read"), d.get_u64("offset"), d.get_str("to_path")), (Some(8), Some(1), Some("o")));
    assert_eq!(error(cmd_scratch_read("o", 0, &Err("x".into()))), "scratch-read: x");
    assert_eq!(data(cmd_scratch_clear(&Ok(3))).get_u64("bytes_cleared"), Some(3));
    assert_eq!(error(cmd_scratch_clear(&Err("x".into()))), "scratch-clear: x");
    let d = data(cmd_scratch_info(&Some("s.raw".into()), 5000));
    assert_eq!(d.get_str("path"), Some("s.raw"));
    assert_eq!(d.get_u64("size_bytes"), Some(5000));
    assert_eq!(d.get_u64("payload_offset"), Some(4096));
    assert_eq!(d.get_u64("payload_size_bytes"), Some(904));
    assert_eq!(error(cmd_scratch_info(&None, 0)), "scratch-info: scratch volume not configured");
}

#[test]
fn scratch_offsets_count_from_the_payload() {
    assert_eq!(raw_offset(0).unwrap(), 4096);
    assert_eq!(raw_offset(u64::MAX - 4096).unwrap(), u64::MAX);
    assert_eq!(raw_offset(u64::MAX - 4095).err().unwrap(), "offset overflow");
    assert_eq!(payload_size(4095), 0);
    assert_eq!(payload_size(5000), 904);
}

#[test]
fn scratch_reads_stay_in_the_payload() {
    assert_eq!(read_len(5000, 0, None), 904);
    assert_eq!(read_len(5000, 900, Some(100)), 4);
    assert_eq!(read_len(5000, 900, Some(2)), 2);
    assert_eq!(read_len(5000, 1000, Some(2)), 0);
}

#[test]
fn scratch_is_cleared_in_chunks() {
    assert_eq!(clear_chunks(4096), Vec::<u64>::new());
    assert_eq!(clear_chunks(4096 + 5), vec![5]);
    assert_eq!(clear_chunks(4096 + 2_097_152), vec![1_048_576, 1_048_576]);
    assert_eq!(clear_chunks(4096 + 1_048_577), vec![1_048_576, 1]);
}
