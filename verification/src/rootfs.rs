//! The root file system of a container, with paths that are put together as plain strings.
//!
//! It is built in the same way as that of `rootfs_view`, at fixed places.  Where a path is put
//! behind a root, it brings the separator with it.
use vstd::prelude::*;

use crate::path::{slice_texts, NEW_ROOT_DIR, OLD_ROOT_DIR, ROOT_INIT_PATH};
use crate::plan::{actions, append, Action, Step};
use crate::rootfs_view::{
    all_namespaces, append_writes, cleanup_steps, device_names, host_flags, mount_host_flags,
    unshare_all, DEV_MODE,
};
use crate::sys::{
    clone_bits, mount, mount_args, pivot_root, uid_gid_map, umount_bits, write_uid_gid_map,
    MountFlag, PivotRootArgs, ProcText, UmountArgs, UmountFlag,
};
use crate::text::opt_text;

verus! {

fn concat(a: &str, b: &str) -> (r: String)
    ensures
        r@ == a@ + b@,
{
    let mut r = a.to_owned();
    r.append(b);
    r
}

/// The new root before the root of the host is moved.
pub open spec fn init_new_root() -> Seq<char> {
    ROOT_INIT_PATH@ + "/"@ + NEW_ROOT_DIR@
}

/// The old root before the root of the host is moved.
pub open spec fn init_old_root() -> Seq<char> {
    ROOT_INIT_PATH@ + "/"@ + OLD_ROOT_DIR@
}

/// The new root once the root of the host was moved.
pub open spec fn new_root() -> Seq<char> {
    "/"@ + NEW_ROOT_DIR@
}

/// The old root once the root of the host was moved.
pub open spec fn old_root() -> Seq<char> {
    "/"@ + OLD_ROOT_DIR@
}

/// Mounts the initial root, makes both roots below it, and moves the root of the host.
pub open spec fn newroot_actions() -> Seq<Action> {
    seq![
        Action::Mount(
            mount_args(
                None,
                ROOT_INIT_PATH@,
                Some("tmpfs"@),
                seq![MountFlag::NoSuid, MountFlag::NoDev, MountFlag::Recursive],
                None,
            ),
        ),
        Action::CreateDir { path: init_new_root() },
        Action::CreateDir { path: init_old_root() },
        Action::Mount(
            mount_args(Some(init_new_root()), init_new_root(), Some("tmpfs"@), seq![], None),
        ),
        Action::PivotRoot(
            PivotRootArgs { new_root: ROOT_INIT_PATH@, old_root: init_old_root() },
        ),
    ]
}

pub fn newroot() -> (steps: Vec<Step>)
    ensures
        actions(steps@) == newroot_actions(),
{
    let init = concat(ROOT_INIT_PATH, "/");
    let new_root = concat(init.as_str(), NEW_ROOT_DIR);
    let old_root = concat(init.as_str(), OLD_ROOT_DIR);
    let flags = vec![MountFlag::NoSuid, MountFlag::NoDev, MountFlag::Recursive];
    let no_flags: Vec<MountFlag> = Vec::new();
    let mut steps: Vec<Step> = Vec::new();
    steps.push(Step::Mount(mount(None, ROOT_INIT_PATH, Some("tmpfs"), &flags, None)));
    steps.push(Step::CreateDir { path: new_root.clone() });
    steps.push(Step::CreateDir { path: old_root.clone() });
    steps.push(
        Step::Mount(
            mount(Some(new_root.as_str()), new_root.as_str(), Some("tmpfs"), &no_flags, None),
        ),
    );
    steps.push(Step::PivotRoot(pivot_root(ROOT_INIT_PATH, old_root.as_str())));
    proof {
        assert(flags@ =~= seq![MountFlag::NoSuid, MountFlag::NoDev, MountFlag::Recursive]);
        assert(actions(steps@) =~= newroot_actions());
    }
    steps
}

/// Mounts the file system of processes.
pub open spec fn mount_proc_actions() -> Seq<Action> {
    let target = new_root() + "/proc"@;
    seq![
        Action::CreateDir { path: target },
        Action::Mount(
            mount_args(
                None,
                target,
                Some("proc"@),
                seq![MountFlag::NoSuid, MountFlag::NoDev, MountFlag::NoExec],
                None,
            ),
        ),
    ]
}

pub fn mount_proc() -> (steps: Vec<Step>)
    ensures
        actions(steps@) == mount_proc_actions(),
{
    let target = concat(concat("/", NEW_ROOT_DIR).as_str(), "/proc");
    let flags = vec![MountFlag::NoSuid, MountFlag::NoDev, MountFlag::NoExec];
    let mut steps: Vec<Step> = Vec::new();
    steps.push(Step::CreateDir { path: target.clone() });
    steps.push(Step::Mount(mount(None, target.as_str(), Some("proc"), &flags, None)));
    proof {
        assert(flags@ =~= seq![MountFlag::NoSuid, MountFlag::NoDev, MountFlag::NoExec]);
        assert(actions(steps@) =~= mount_proc_actions());
    }
    steps
}

/// Mounts a path of one root at a path of another, the same one unless another is given, if
/// there is anything at the first.
pub open spec fn assure_action(
    source_root: Seq<char>,
    target_root: Seq<char>,
    source_path: Seq<char>,
    target_path: Option<Seq<char>>,
    flags: Seq<MountFlag>,
) -> Action {
    let inner = match target_path {
        Some(path) => path,
        None => source_path,
    };
    Action::Assure(
        mount_args(Some(source_root + source_path), target_root + inner, None, flags, None),
    )
}

pub fn assure_root_path5(
    source_root: &str,
    target_root: &str,
    source_path: &str,
    target_path: Option<&str>,
    flags: &Vec<MountFlag>,
) -> (step: Step)
    ensures
        step@ == assure_action(
            source_root@,
            target_root@,
            source_path@,
            opt_text(target_path),
            flags@,
        ),
{
    let inner = match target_path {
        Some(path) => path,
        None => source_path,
    };
    let local_source_path = concat(source_root, source_path);
    let local_target_path = concat(target_root, inner);
    Step::Assure(
        mount(Some(local_source_path.as_str()), local_target_path.as_str(), None, flags, None),
    )
}

/// Makes the directories for devices.
pub open spec fn dev_dirs_actions() -> Seq<Action> {
    let dev = new_root() + "/dev"@;
    let pts = dev + "/pts"@;
    let shm = dev + "/shm"@;
    seq![
        Action::CreateDir { path: dev },
        Action::SetMode { path: dev, mode: DEV_MODE },
        Action::CreateDir { path: shm },
        Action::SetMode { path: shm, mode: DEV_MODE },
        Action::CreateDir { path: pts },
        Action::SetMode { path: pts, mode: DEV_MODE },
        Action::Mount(
            mount_args(
                None,
                pts,
                Some("devpts"@),
                seq![MountFlag::NoSuid, MountFlag::NoExec],
                Some("newinstance,ptmxmode=0666,mode=620"@),
            ),
        ),
    ]
}

/// Mounts one device of the host.
pub open spec fn device_action(name: Seq<char>) -> Action {
    assure_action(
        old_root() + "/dev"@,
        new_root() + "/dev"@,
        "/"@ + name,
        None,
        seq![MountFlag::Recursive, MountFlag::Silent],
    )
}

/// Makes the directories for devices and mounts some devices of the host.
pub open spec fn mount_dev_actions() -> Seq<Action> {
    dev_dirs_actions() + device_names().map_values(|name: Seq<char>| device_action(name))
}

pub fn mount_dev() -> (steps: Vec<Step>)
    ensures
        actions(steps@) == mount_dev_actions(),
{
    let target_dev = concat(concat("/", NEW_ROOT_DIR).as_str(), "/dev");
    let source_dev = concat(concat("/", OLD_ROOT_DIR).as_str(), "/dev");
    let target_pts = concat(target_dev.as_str(), "/pts");
    let target_shm = concat(target_dev.as_str(), "/shm");
    let pts_flags = vec![MountFlag::NoSuid, MountFlag::NoExec];
    let dev_flags = vec![MountFlag::Recursive, MountFlag::Silent];
    let mut steps: Vec<Step> = Vec::new();
    steps.push(Step::CreateDir { path: target_dev.clone() });
    steps.push(Step::SetMode { path: target_dev.clone(), mode: DEV_MODE });
    steps.push(Step::CreateDir { path: target_shm.clone() });
    steps.push(Step::SetMode { path: target_shm.clone(), mode: DEV_MODE });
    steps.push(Step::CreateDir { path: target_pts.clone() });
    steps.push(Step::SetMode { path: target_pts.clone(), mode: DEV_MODE });
    steps.push(
        Step::Mount(
            mount(
                None,
                target_pts.as_str(),
                Some("devpts"),
                &pts_flags,
                Some("newinstance,ptmxmode=0666,mode=620"),
            ),
        ),
    );
    let ghost first = actions(steps@);
    // device nodes cannot be made without the right to, so those of the host are mounted
    let list: Vec<&str> = vec!["dri", "null", "zero", "full", "random", "urandom", "tty"];
    proof {
        assert(pts_flags@ =~= seq![MountFlag::NoSuid, MountFlag::NoExec]);
        assert(dev_flags@ =~= seq![MountFlag::Recursive, MountFlag::Silent]);
        assert(slice_texts(list@) =~= device_names());
        assert(first =~= dev_dirs_actions());
    }
    let ghost wanted = device_names().map_values(|name: Seq<char>| device_action(name));
    let mut i: usize = 0;
    while i < list.len()
        invariant
            i <= list@.len(),
            slice_texts(list@) == device_names(),
            dev_flags@ == seq![MountFlag::Recursive, MountFlag::Silent],
            source_dev@ == old_root() + "/dev"@,
            target_dev@ == new_root() + "/dev"@,
            wanted == device_names().map_values(|name: Seq<char>| device_action(name)),
            actions(steps@) == first + wanted.take(i as int),
        decreases list.len() - i,
    {
        let ghost before = steps@;
        let path = concat("/", list[i]);
        let step = assure_root_path5(
            source_dev.as_str(),
            target_dev.as_str(),
            path.as_str(),
            None,
            &dev_flags,
        );
        proof {
            assert(slice_texts(list@)[i as int] == list@[i as int]@);
            assert(step@ == wanted[i as int]);
            assert(wanted.take(i + 1) =~= wanted.take(i as int).push(step@));
        }
        steps.push(step);
        proof {
            assert(actions(steps@) =~= actions(before).push(step@));
            assert(actions(steps@) =~= first + wanted.take(i + 1));
        }
        i = i + 1;
    }
    proof {
        assert(wanted.take(i as int) =~= wanted);
    }
    steps
}

/// Mounts a path of the host into the container.
pub open spec fn mount_host_action(
    host_path: Seq<char>,
    container_path: Option<Seq<char>>,
    readonly: bool,
) -> Action {
    assure_action(old_root(), new_root(), host_path, container_path, host_flags(readonly))
}

pub fn mount_host(host_path: &str, container_path: Option<&str>, readonly: bool) -> (step: Step)
    ensures
        step@ == mount_host_action(host_path@, opt_text(container_path), readonly),
{
    let source_root = concat("/", OLD_ROOT_DIR);
    let target_root = concat("/", NEW_ROOT_DIR);
    let mount_flags = mount_host_flags(readonly);
    assure_root_path5(
        source_root.as_str(),
        target_root.as_str(),
        host_path,
        container_path,
        &mount_flags,
    )
}

/// Gives the old root up and makes the new root the root.
pub open spec fn cleanup_newroot_actions() -> Seq<Action> {
    seq![
        Action::Mount(
            mount_args(
                None,
                old_root(),
                None,
                seq![MountFlag::Silent, MountFlag::Recursive, MountFlag::Private],
                None,
            ),
        ),
        Action::Umount(
            UmountArgs { path: old_root(), flags: umount_bits(seq![UmountFlag::Detach]) },
        ),
        Action::OpenRoot,
        Action::PivotRoot(PivotRootArgs { new_root: new_root(), old_root: new_root() }),
        Action::ReturnToRoot,
        Action::Umount(UmountArgs { path: "."@, flags: umount_bits(seq![UmountFlag::Detach]) }),
        Action::ChangeDir { path: "/"@ },
    ]
}

pub fn cleanup_newroot() -> (steps: Vec<Step>)
    ensures
        actions(steps@) == cleanup_newroot_actions(),
{
    let old_root = concat("/", OLD_ROOT_DIR);
    let new_root = concat("/", NEW_ROOT_DIR);
    cleanup_steps(old_root.as_str(), new_root.as_str())
}

/// The directories and files of the host that a container has.
pub open spec fn shared_paths() -> Seq<Seq<char>> {
    seq![
        "/lib"@,
        "/lib32"@,
        "/lib64"@,
        "/bin"@,
        "/usr"@,
        "/etc/ld.so.conf"@,
        "/etc/ld.so.cache"@,
        "/etc/ld.so.conf.d"@,
        "/etc/bash"@,
        "/etc/bash_completion.d"@,
    ]
}

/// What the child does: it builds the root, goes into it and starts a shell.
pub open spec fn child_actions() -> Seq<Action> {
    newroot_actions() + mount_proc_actions() + mount_dev_actions() + shared_paths().map_values(
        |path: Seq<char>| mount_host_action(path, None, true),
    ) + cleanup_newroot_actions() + seq![Action::Spawn { program: "bash"@ }]
}

pub fn child() -> (steps: Vec<Step>)
    ensures
        actions(steps@) == child_actions(),
{
    let mut steps = newroot();
    append(&mut steps, mount_proc());
    append(&mut steps, mount_dev());
    let ghost first = actions(steps@);
    let list: Vec<&str> = vec![
        "/lib",
        "/lib32",
        "/lib64",
        "/bin",
        "/usr",
        "/etc/ld.so.conf",
        "/etc/ld.so.cache",
        "/etc/ld.so.conf.d",
        "/etc/bash",
        "/etc/bash_completion.d",
    ];
    proof {
        assert(slice_texts(list@) =~= shared_paths());
    }
    let ghost wanted = shared_paths().map_values(
        |path: Seq<char>| mount_host_action(path, None, true),
    );
    let mut i: usize = 0;
    while i < list.len()
        invariant
            i <= list@.len(),
            slice_texts(list@) == shared_paths(),
            wanted == shared_paths().map_values(
                |path: Seq<char>| mount_host_action(path, None, true),
            ),
            actions(steps@) == first + wanted.take(i as int),
        decreases list.len() - i,
    {
        let ghost before = steps@;
        let step = mount_host(list[i], None, true);
        proof {
            assert(slice_texts(list@)[i as int] == list@[i as int]@);
            assert(step@ == wanted[i as int]);
            assert(wanted.take(i + 1) =~= wanted.take(i as int).push(step@));
        }
        steps.push(step);
        proof {
            assert(actions(steps@) =~= actions(before).push(step@));
            assert(actions(steps@) =~= first + wanted.take(i + 1));
        }
        i = i + 1;
    }
    proof {
        assert(wanted.take(i as int) =~= wanted);
    }
    append(&mut steps, cleanup_newroot());
    let ghost before = steps@;
    steps.push(Step::Spawn { program: "bash".to_owned() });
    proof {
        assert(actions(steps@) =~= actions(before) + seq![Action::Spawn { program: "bash"@ }]);
    }
    steps
}

/// What is done for a user and a group: the namespaces of the host are left, the ids mapped, and
/// a child goes on.
pub open spec fn run_actions(uid: u32, gid: u32) -> Seq<Action> {
    seq![Action::Unshare { flags: clone_bits(all_namespaces()) }] + uid_gid_map(
        uid,
        gid,
    ).map_values(|write: ProcText| Action::WriteProc(write)) + seq![Action::Fork, Action::WaitPid]
}

pub fn run(uid: u32, gid: u32) -> (steps: Vec<Step>)
    ensures
        actions(steps@) == run_actions(uid, gid),
{
    let mut steps: Vec<Step> = Vec::new();
    steps.push(Step::Unshare { flags: unshare_all() });
    proof {
        assert(actions(steps@) =~= seq![Action::Unshare { flags: clone_bits(all_namespaces()) }]);
    }
    append_writes(&mut steps, &write_uid_gid_map(uid, gid));
    let ghost before = steps@;
    steps.push(Step::Fork);
    steps.push(Step::WaitPid);
    proof {
        assert(actions(steps@) =~= actions(before) + seq![Action::Fork, Action::WaitPid]);
    }
    steps
}

} // verus!
