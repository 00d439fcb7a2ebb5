use nix::errno::Errno;
use nix::fcntl::{open, OFlag};
use nix::sys::stat::Mode;
use wpipe::repo::{CheckCompletion, Repo, RepoError};
use wpipe::fsrepo::DirectoryRepo;
use wpipe::sys;

const ECHO_SIDECAR: &str = "{\"human_name\":\"Echo\",\"description\":\"d\",\"category\":\"c\",\"inputs\":{\"in\":{\"name\":\"in\",\"data_format\":\"Tick\"}},\"outputs\":{\"out\":{\"name\":\"out\",\"data_format\":\"Tick\"}}}";

fn ensure_dir(path: &str) {
    match nix::unistd::mkdir(path, Mode::from_bits_truncate(0o755)) {
        Ok(()) => {},
        Err(Errno::EEXIST) => {},
        Err(e) => panic!("mkdir {}: {}", path, e),
    }
}

fn write_file(path: &str, bytes: &[u8], mode: u32) {
    let fd = open(
        path,
        OFlag::O_CREAT | OFlag::O_WRONLY | OFlag::O_TRUNC,
        Mode::from_bits_truncate(mode),
    )
    .expect("open for write");
    let mut off = 0;
    while off < bytes.len() {
        off += nix::unistd::write(fd, &bytes[off..]).expect("write");
    }
    nix::unistd::close(fd).expect("close");
}

fn pipe_dir_entries() -> Vec<String> {
    ensure_dir("/tmp/wpipe");
    let mut v = sys::list_dir(&"/tmp/wpipe".to_string()).expect("transient dir listable");
    v.retain(|n| n != "." && n != "..");
    v.sort();
    v
}

#[test]
fn scenario_list_lookup_invoke_echo() {
    let root = "/tmp/wpipe_repo_scenario";
    ensure_dir(root);
    write_file(
        &format!("{}/echo_tick", root),
        b"#!/bin/sh\nhead -c 1 \"$in\" > \"$out\"\n",
        0o755,
    );
    write_file(&format!("{}/echo_tick.json", root), ECHO_SIDECAR.as_bytes(), 0o644);

    let mut repo = DirectoryRepo::new(root.to_string());

    let ids = repo.ls_programs().expect("listable");
    assert_eq!(ids, vec!["echo_tick".to_string()]);

    let (info, fp) = repo.get_program(&"echo_tick".to_string()).expect("lookup succeeds");
    assert_eq!(info.human_name, "Echo");
    assert_eq!(fp, sys::sha256_hex_of(&ECHO_SIDECAR.as_bytes().to_vec()));

    let before = pipe_dir_entries();

    let rt = tokio::runtime::Runtime::new().expect("runtime");
    let _guard = rt.enter();
    let (ins, mut child, outs) =
        repo.exec_program(&"echo_tick".to_string(), &info).expect("invoke succeeds");

    assert_eq!(ins.len(), 1);
    assert_eq!(outs.len(), 1);
    assert_eq!(ins[0].0, "in");
    assert_eq!(outs[0].0, "out");
    assert_ne!(ins[0].1.path(), outs[0].1.path(), "channels never share a backing path");

    let wrote = ins[0].1.write_bytes(&vec![b'\n']).expect("tick byte accepted");
    assert_eq!(wrote, 1);
    let got = outs[0].1.read_chunk().expect("echoed chunk");
    assert_eq!(got, vec![b'\n'], "the echoed tick comes back");

    assert!(child.is_program_finished());

    for (_, p) in ins {
        assert!(p.release());
    }
    for (_, p) in outs {
        assert!(p.release());
    }
    let after = pipe_dir_entries();
    assert_eq!(before, after, "every channel's backing file is gone after release");
}

#[test]
fn spawn_failure_releases_every_channel() {
    let root = "/tmp/wpipe_repo_spawnfail";
    ensure_dir(root);
    // A sidecar without its executable: channels are created first, the
    // spawn then fails, and every backing file must be gone again.
    write_file(&format!("{}/ghost.json", root), ECHO_SIDECAR.as_bytes(), 0o644);
    let _ = nix::unistd::unlink(format!("{}/ghost", root).as_str());

    let mut repo = DirectoryRepo::new(root.to_string());
    let (info, _) = repo.get_program(&"ghost".to_string()).expect("sidecar parses");

    let before = pipe_dir_entries();
    let rt = tokio::runtime::Runtime::new().expect("runtime");
    let _guard = rt.enter();
    match repo.exec_program(&"ghost".to_string(), &info) {
        Err(RepoError::SpawnFailure) => {},
        Err(e) => panic!("expected a spawn failure, got {:?}", e),
        Ok(_) => panic!("spawning a missing binary cannot succeed"),
    }
    let after = pipe_dir_entries();
    assert_eq!(before, after, "no orphaned FIFO file survives a failed invocation");
}

#[test]
fn listing_never_returns_a_sidecar_name() {
    let root = "/tmp/wpipe_repo_listing";
    ensure_dir(root);
    write_file(&format!("{}/prog_a", root), b"#!/bin/sh\n", 0o755);
    write_file(&format!("{}/prog_a.json", root), ECHO_SIDECAR.as_bytes(), 0o644);
    write_file(&format!("{}/orphan.json", root), b"{}", 0o644);

    let repo = DirectoryRepo::new(root.to_string());
    let mut ids = repo.ls_programs().expect("listable");
    ids.sort();
    assert_eq!(ids, vec!["prog_a".to_string()]);
    for id in &ids {
        assert!(!id.ends_with(".json"));
    }
}

#[test]
fn lookup_of_missing_program_is_not_found() {
    let root = "/tmp/wpipe_repo_missing";
    ensure_dir(root);
    let mut repo = DirectoryRepo::new(root.to_string());
    assert!(matches!(
        repo.get_program(&"nothing_here".to_string()),
        Err(RepoError::NotFound)
    ));
}

#[test]
fn listing_a_missing_root_is_not_found() {
    let repo = DirectoryRepo::new("/tmp/wpipe_no_such_root".to_string());
    let _ = nix::unistd::unlink("/tmp/wpipe_no_such_root");
    assert!(matches!(repo.ls_programs(), Err(RepoError::NotFound)));
}

#[test]
fn channel_lifecycle_creates_and_removes_the_backing_file() {
    let before = pipe_dir_entries();
    let pipe = wpipe::channel::NamedPipe::new().expect("channel init");
    let path = pipe.path().clone();
    assert!(path.starts_with("/tmp/wpipe/"));
    let during = pipe_dir_entries();
    assert_eq!(during.len(), before.len() + 1);
    // The channel is a plain byte stream: what goes in comes out.
    let n = pipe.write_bytes(&vec![1u8, 2, 3]).expect("write");
    assert_eq!(n, 3);
    let got = pipe.read_chunk().expect("read");
    assert_eq!(got, vec![1u8, 2, 3]);
    assert!(pipe.release());
    let after = pipe_dir_entries();
    assert_eq!(before, after);
}

#[test]
fn filtering_keeps_order_and_drops_sidecars_and_dot_entries() {
    let names = vec![
        ".".to_string(),
        "..".to_string(),
        "b.json".to_string(),
        "a".to_string(),
        "c".to_string(),
    ];
    let ids = wpipe::fsrepo::filter_program_ids(&names);
    assert_eq!(ids, vec!["a".to_string(), "c".to_string()]);
}
