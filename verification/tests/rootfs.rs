use nsbox::path::_Path;
use nsbox::plan::{assure_steps, next_step, source_kind, SetupAction, SourceKind, Step};
use nsbox::rootfs;
use nsbox::rootfs_view::{run, run_stage2, run_stage3, RootPaths};
use nsbox::sys::{mount, Group, MountFlag, User, UserInfo};

fn show(step: &Step) -> String {
    match step {
        Step::Mount(c) => format!(
            "mount {} {} {} {:#x} {}",
            c.source,
            c.target,
            c.fs.as_deref().unwrap_or("-"),
            c.flags,
            c.data.as_deref().unwrap_or("-")
        ),
        Step::Assure(c) => format!("assure {} {} {:#x}", c.source, c.target, c.flags),
        Step::Umount(c) => format!("umount {} {}", c.path, c.flags),
        Step::PivotRoot(c) => format!("pivot {} {}", c.new_root, c.old_root),
        Step::CreateDir { path } => format!("mkdir {}", path),
        Step::CreateDirAll { path } => format!("mkdir -p {}", path),
        Step::CreateFile { path } => format!("touch {}", path),
        Step::SetMode { path, mode } => format!("chmod {:o} {}", mode, path),
        Step::WriteFile { path, content } => format!("write {}\n{}", path, content),
        Step::WriteProc(w) => format!("proc {} {}", w.path, w.content.trim_end()),
        Step::Unshare { flags } => format!("unshare {:#x}", flags),
        Step::OpenRoot => "open /".to_string(),
        Step::ReturnToRoot => "fchdir".to_string(),
        Step::ChangeDir { path } => format!("cd {}", path),
        Step::SetupStdio => "stdio".to_string(),
        Step::Spawn { program } => format!("spawn {}", program),
        Step::RunReactor => "reactor".to_string(),
        Step::CloseOtherSide => "close".to_string(),
        Step::Fork => "fork".to_string(),
        Step::WaitPid => "wait".to_string(),
    }
}

fn show_all(steps: &Vec<Step>) -> Vec<String> {
    steps.iter().map(show).collect()
}

fn user() -> UserInfo {
    UserInfo {
        user: User { id: 1000, name: "ann".to_string() },
        group: Group { id: 100, name: "users".to_string() },
        shell: "/bin/zsh".to_string(),
    }
}

#[test]
fn places() {
    let paths = RootPaths::new();
    assert_eq!(paths.init_path.as_path(), "/tmp");
    assert_eq!(paths.init_new_path.as_path(), "/tmp/new-root");
    assert_eq!(paths.init_old_path.as_path(), "/tmp/old-root");
    assert_eq!(paths.new_path.as_path(), "/new-root");
    assert_eq!(paths.old_path.as_path(), "/old-root");
}

#[test]
fn new_root_is_built() {
    let paths = RootPaths::new();
    let view = paths.borrow();
    let expected = vec![
        "mount /tmp /tmp tmpfs 0x4006 -",
        "mkdir /tmp/new-root",
        "mkdir /tmp/old-root",
        "mount /tmp/new-root /tmp/new-root tmpfs 0x0 -",
        "pivot /tmp /tmp/old-root",
    ];
    assert_eq!(show_all(&view.newroot()), expected);
    assert_eq!(show_all(&rootfs::newroot()), expected);
    let expected = vec!["mkdir /new-root/proc", "mount /new-root/proc /new-root/proc proc 0xe -"];
    assert_eq!(show_all(&view.mount_proc()), expected);
    assert_eq!(show_all(&rootfs::mount_proc()), expected);
}

#[test]
fn devices() {
    let dirs = vec![
        "mkdir /new-root/dev",
        "chmod 755 /new-root/dev",
        "mkdir /new-root/dev/shm",
        "chmod 755 /new-root/dev/shm",
        "mkdir /new-root/dev/pts",
        "chmod 755 /new-root/dev/pts",
        "mount /new-root/dev/pts /new-root/dev/pts devpts 0xa newinstance,ptmxmode=0666,mode=620",
    ];
    let names = ["dri", "null", "zero", "full", "random", "urandom", "tty"];
    let paths = RootPaths::new();
    let shown = show_all(&paths.borrow().mount_dev());
    assert_eq!(shown[..7], dirs);
    for (i, name) in names.iter().enumerate() {
        assert_eq!(
            shown[7 + i],
            format!("assure /old-root/dev/{} /new-root/dev/{} 0xd000", name, name)
        );
    }
    assert_eq!(shown.len(), 14);
    let shown = show_all(&rootfs::mount_dev());
    assert_eq!(shown[..7], dirs);
    for (i, name) in names.iter().enumerate() {
        assert_eq!(
            shown[7 + i],
            format!("assure /old-root/dev/{} /new-root/dev/{} 0xd000", name, name)
        );
    }
    assert_eq!(shown.len(), 14);
}

#[test]
fn host_paths() {
    let paths = RootPaths::new();
    let view = paths.borrow();
    assert_eq!(
        show(&view.mount_host("/usr", None, true)),
        "assure /old-root/usr /new-root/usr 0xd005"
    );
    assert_eq!(
        show(&view.mount_host("etc/bash", None, false)),
        "assure /old-root/etc/bash /new-root/etc/bash 0xd004"
    );
    assert_eq!(
        show(&view.mount_host("/home//ann/", Some("/work"), false)),
        "assure /old-root/home/ann /new-root/work 0xd004"
    );
    assert_eq!(
        show(&rootfs::mount_host("/usr", None, true)),
        "assure /old-root/usr /new-root/usr 0xd005"
    );
    assert_eq!(
        show(&rootfs::mount_host("/home/ann", Some("/work"), false)),
        "assure /old-root/home/ann /new-root/work 0xd004"
    );
    assert_eq!(
        show(&rootfs::assure_root_path5("/a", "/b", "c", None, &vec![MountFlag::Silent])),
        "assure /ac /bc 0x9000"
    );
    assert_eq!(
        show(&view.assure_root_path("c", Some("./d"), &vec![MountFlag::Silent])),
        "assure /old-root/c /new-root/./d 0x9000"
    );
}

#[test]
fn old_root_is_given_up() {
    let expected = vec![
        "mount /old-root /old-root - 0x4d000 -",
        "umount /old-root 2",
        "open /",
        "pivot /new-root /new-root",
        "fchdir",
        "umount . 2",
        "cd /",
    ];
    let paths = RootPaths::new();
    assert_eq!(show_all(&paths.borrow().cleanup_newroot()), expected);
    assert_eq!(show_all(&rootfs::cleanup_newroot()), expected);
}

#[test]
fn databases() {
    let paths = RootPaths::new();
    assert_eq!(
        show_all(&paths.borrow().write_user_info(&user())),
        vec![
            "write /new-root/etc/passwd\n\
             ann:x:1000:100:user:/home:/bin/zsh\n\
             nobody:x:65534:65534:nobody:/var/empty:/bin/false\n",
            "write /new-root/etc/group\nusers:x:100:ann\nnobody:x:65534:ann\n",
        ]
    );
}

#[test]
fn whole_setup() {
    let paths = RootPaths::new();
    let shown = show_all(&run_stage3(&paths.borrow(), &user()));
    assert_eq!(shown.len(), 1 + 5 + 2 + 14 + 10 + 2 + 7 + 2);
    assert_eq!(shown[0], "stdio");
    assert_eq!(shown[22], "assure /old-root/lib /new-root/lib 0xd005");
    assert_eq!(
        shown[31],
        "assure /old-root/etc/bash_completion.d /new-root/etc/bash_completion.d 0xd005"
    );
    assert_eq!(shown[41..], ["spawn /bin/zsh", "reactor"]);
    let shown = show_all(&rootfs::child());
    assert_eq!(shown.len(), 5 + 2 + 14 + 10 + 7 + 1);
    assert_eq!(shown[26], "assure /old-root/etc/ld.so.conf /new-root/etc/ld.so.conf 0xd005");
    assert_eq!(shown[38], "spawn bash");
}

#[test]
fn namespaces_are_left() {
    let expected = vec![
        "unshare 0x7c020000",
        "proc /proc/self/setgroups deny",
        "proc /proc/self/uid_map 1000 1000 1",
        "proc /proc/self/gid_map 100 100 1",
        "fork",
        "wait",
    ];
    assert_eq!(show_all(&run_stage2(&user())), expected);
    assert_eq!(show_all(&rootfs::run(1000, 100)), expected);
}

#[test]
fn first_process() {
    assert_eq!(show_all(&run()), vec!["fork", "close", "reactor", "wait"]);
}

#[test]
fn targets_are_made() {
    let call = || mount(Some("/s"), "/n/a/b", None, &vec![], None);
    assert_eq!(source_kind(false, false), SourceKind::Missing);
    assert_eq!(source_kind(false, true), SourceKind::Missing);
    assert_eq!(source_kind(true, true), SourceKind::Directory);
    assert_eq!(source_kind(true, false), SourceKind::File);
    assert!(assure_steps(SourceKind::Missing, call()).is_empty());
    assert_eq!(
        show_all(&assure_steps(SourceKind::Directory, call())),
        vec!["mkdir -p /n/a/b", "mount /s /n/a/b - 0x1000 -"]
    );
    assert_eq!(
        show_all(&assure_steps(SourceKind::File, call())),
        vec!["mkdir -p /n/a", "touch /n/a/b", "mount /s /n/a/b - 0x1000 -"]
    );
}

#[test]
fn mounts_stay_below_the_roots() {
    let paths = RootPaths {
        init_path: _Path::from("/i"),
        init_new_path: _Path::from("/i/n"),
        init_old_path: _Path::from("/i/o"),
        new_path: _Path::from("/n"),
        old_path: _Path::from("/o"),
    };
    let view = paths.borrow();
    for path in ["/", "//a", "/a/b", "a", "a//b/", "/./a", "."] {
        match view.assure_root_path(path, None, &vec![]) {
            Step::Assure(call) => {
                assert!(call.source.starts_with("/o"));
                assert!(call.target.starts_with("/n"));
            }
            _ => unreachable!(),
        }
    }
}

#[test]
fn missing_setgroups_is_passed_over() {
    for steps in [rootfs::run(1000, 100), run_stage2(&user())] {
        let optional: Vec<bool> = steps
            .iter()
            .filter_map(|step| match step {
                Step::WriteProc(w) => Some(w.optional),
                _ => None,
            })
            .collect();
        assert_eq!(optional, vec![true, false, false]);
    }
}

fn taken_until(mut steps: Vec<Step>, failing: usize) -> (Vec<String>, Result<(), i32>) {
    let mut shown = Vec::new();
    let mut last = Ok(());
    loop {
        match next_step(&mut steps, last) {
            SetupAction::Take(step) => {
                last = if shown.len() == failing { Err(5) } else { Ok(()) };
                shown.push(show(&step));
            }
            SetupAction::Finished(result) => {
                return (shown, result);
            }
        }
    }
}

#[test]
fn first_failure_ends_a_setup() {
    let (shown, result) = taken_until(run_stage2(&user()), 2);
    assert_eq!(
        shown,
        vec![
            "unshare 0x7c020000",
            "proc /proc/self/setgroups deny",
            "proc /proc/self/uid_map 1000 1000 1",
        ]
    );
    assert_eq!(result, Err(5));
    let (shown, result) = taken_until(run_stage2(&user()), 100);
    assert_eq!(shown, show_all(&run_stage2(&user())));
    assert_eq!(result, Ok(()));
    assert_eq!(taken_until(Vec::new(), 0), (Vec::new(), Ok(())));
}
