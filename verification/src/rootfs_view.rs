//! The root file system of a container.
//!
//! An empty file system is mounted at the initial root.  Below it the new root is made, and the
//! root of the host is moved beside it.  What the container shares with the host is mounted from
//! the old root into the new one; then the old root is given up.
use vstd::prelude::*;

use crate::kernel::{MS_BIND, MS_NODEV, MS_PRIVATE, MS_RDONLY, MS_REC};
use crate::path::{
    components, extended, law_rebased_stays_below, lead, names, pushed, rebased, segments,
    slice_texts, _Path, NEW_ROOT_DIR, OLD_ROOT_DIR, ROOT_INIT_PATH,
};
use crate::plan::{actions, append, Action, Step};
use crate::sys::{
    clone_bits, law_mount_flags, mount, mount_args, pivot_root, proc_texts, uid_gid_map, umount2,
    umount_bits, unshare, write_uid_gid_map, MountFlag, Namespace, PivotRootArgs, ProcText,
    ProcWrite, UmountArgs, UmountFlag, UserInfo,
};
use crate::text::{decimal, decimal_text, opt_text};

verus! {

/// The places at which a container is set up, before and after the root of the host was moved
/// away.
#[derive(Debug)]
pub struct RootPaths {
    pub init_path: _Path,
    pub init_new_path: _Path,
    pub init_old_path: _Path,
    pub new_path: _Path,
    pub old_path: _Path,
}

/// The places at which a container is set up, for those who set it up.
#[derive(Debug)]
pub struct RootFsView<'x> {
    pub init_path: &'x _Path,
    pub init_new_path: &'x _Path,
    pub init_old_path: &'x _Path,
    pub new_path: &'x _Path,
    pub old_path: &'x _Path,
}

impl RootPaths {
    /// The places that are used.
    pub fn new() -> (r: Self)
        ensures
            r.init_path@ == ROOT_INIT_PATH@,
            r.init_new_path@ == ROOT_INIT_PATH@ + "/"@ + NEW_ROOT_DIR@,
            r.init_old_path@ == ROOT_INIT_PATH@ + "/"@ + OLD_ROOT_DIR@,
            r.new_path@ == "/"@ + NEW_ROOT_DIR@,
            r.old_path@ == "/"@ + OLD_ROOT_DIR@,
    {
        let a: Vec<&str> = vec![ROOT_INIT_PATH];
        let b: Vec<&str> = vec![ROOT_INIT_PATH, NEW_ROOT_DIR];
        let c: Vec<&str> = vec![ROOT_INIT_PATH, OLD_ROOT_DIR];
        let d: Vec<&str> = vec!["/", NEW_ROOT_DIR];
        let e: Vec<&str> = vec!["/", OLD_ROOT_DIR];
        proof {
            assert(slice_texts(a@) =~= seq![ROOT_INIT_PATH@]);
            assert(slice_texts(b@) =~= seq![ROOT_INIT_PATH@, NEW_ROOT_DIR@]);
            assert(slice_texts(c@) =~= seq![ROOT_INIT_PATH@, OLD_ROOT_DIR@]);
            assert(slice_texts(d@) =~= seq!["/"@, NEW_ROOT_DIR@]);
            assert(slice_texts(e@) =~= seq!["/"@, OLD_ROOT_DIR@]);
            reveal_strlit("/tmp");
            reveal_strlit("/");
            reveal_strlit("new-root");
            reveal_strlit("old-root");
            lemma_two_parts(ROOT_INIT_PATH@, NEW_ROOT_DIR@);
            lemma_two_parts(ROOT_INIT_PATH@, OLD_ROOT_DIR@);
            lemma_two_parts("/"@, NEW_ROOT_DIR@);
            lemma_two_parts("/"@, OLD_ROOT_DIR@);
            assert(pushed(ROOT_INIT_PATH@, NEW_ROOT_DIR@) =~= ROOT_INIT_PATH@ + "/"@
                + NEW_ROOT_DIR@);
            assert(pushed(ROOT_INIT_PATH@, OLD_ROOT_DIR@) =~= ROOT_INIT_PATH@ + "/"@
                + OLD_ROOT_DIR@);
        }
        RootPaths {
            init_path: _Path::from_iter(&a),
            init_new_path: _Path::from_iter(&b),
            init_old_path: _Path::from_iter(&c),
            new_path: _Path::from_iter(&d),
            old_path: _Path::from_iter(&e),
        }
    }

    /// The same places, borrowed.
    pub fn borrow<'x>(&'x self) -> (r: RootFsView<'x>)
        ensures
            r.init_path@ == self.init_path@,
            r.init_new_path@ == self.init_new_path@,
            r.init_old_path@ == self.init_old_path@,
            r.new_path@ == self.new_path@,
            r.old_path@ == self.old_path@,
    {
        RootFsView {
            init_path: &self.init_path,
            init_new_path: &self.init_new_path,
            init_old_path: &self.init_old_path,
            new_path: &self.new_path,
            old_path: &self.old_path,
        }
    }
}

/// What becomes of a first part, and of a second behind it.
proof fn lemma_two_parts(first: Seq<char>, second: Seq<char>)
    ensures
        extended(seq![], seq![first]) == first,
        extended(seq![], seq![first, second]) == pushed(first, second),
{
    let none = Seq::<char>::empty();
    reveal_with_fuel(extended, 3);
    assert(seq![first, second].drop_last() =~= seq![first]);
    assert(seq![first].drop_last() =~= Seq::<Seq<char>>::empty());
    assert(pushed(none, first) =~= first);
}

/// The devices of the host that a container has.
pub open spec fn device_names() -> Seq<Seq<char>> {
    seq!["dri"@, "null"@, "zero"@, "full"@, "random"@, "urandom"@, "tty"@]
}

/// The directories and files of the host that a container has.
pub open spec fn shared_paths() -> Seq<Seq<char>> {
    seq![
        "/lib"@,
        "/lib32"@,
        "/lib64"@,
        "/bin"@,
        "/usr"@,
        "etc/ld.so.conf"@,
        "etc/ld.so.cache"@,
        "etc/ld.so.conf.d"@,
        "etc/bash"@,
        "etc/bash_completion.d"@,
    ]
}

/// The mode of the directories for devices.
pub const DEV_MODE: u32 = 0o755;

/// How something of the host is mounted into the container.
pub open spec fn host_flags(readonly: bool) -> Seq<MountFlag> {
    let common = seq![MountFlag::Recursive, MountFlag::Silent, MountFlag::NoDev];
    if readonly {
        common.push(MountFlag::Readonly)
    } else {
        common
    }
}

/// The lines of the user database of a container.
pub open spec fn passwd_text(info: UserInfo) -> Seq<char> {
    info.user.name@ + ":x:"@ + decimal(info.user.id as nat) + ":"@ + decimal(info.group.id as nat)
        + ":user:/home:"@ + info.shell@ + "\n"@
        + "nobody:x:65534:65534:nobody:/var/empty:/bin/false\n"@
}

/// The lines of the group database of a container.
pub open spec fn group_text(info: UserInfo) -> Seq<char> {
    info.group.name@ + ":x:"@ + decimal(info.group.id as nat) + ":"@ + info.user.name@ + "\n"@
        + "nobody:x:65534:"@ + info.user.name@ + "\n"@
}

impl<'x> RootFsView<'x> {
    /// Mounts the initial root, makes both roots below it, and moves the root of the host.
    pub open spec fn newroot_actions(&self) -> Seq<Action> {
        seq![
            Action::Mount(
                mount_args(
                    None,
                    self.init_path@,
                    Some("tmpfs"@),
                    seq![MountFlag::NoSuid, MountFlag::NoDev, MountFlag::Recursive],
                    None,
                ),
            ),
            Action::CreateDir { path: self.init_new_path@ },
            Action::CreateDir { path: self.init_old_path@ },
            Action::Mount(
                mount_args(
                    Some(self.init_new_path@),
                    self.init_new_path@,
                    Some("tmpfs"@),
                    seq![],
                    None,
                ),
            ),
            Action::PivotRoot(
                PivotRootArgs { new_root: self.init_path@, old_root: self.init_old_path@ },
            ),
        ]
    }

    pub fn newroot(&self) -> (steps: Vec<Step>)
        ensures
            actions(steps@) == self.newroot_actions(),
    {
        let mut steps: Vec<Step> = Vec::new();
        let flags = vec![MountFlag::NoSuid, MountFlag::NoDev, MountFlag::Recursive];
        let no_flags: Vec<MountFlag> = Vec::new();
        let init_path = self.init_path.as_path();
        let init_new_path = self.init_new_path.as_path();
        let init_old_path = self.init_old_path.as_path();
        steps.push(Step::Mount(mount(None, init_path, Some("tmpfs"), &flags, None)));
        steps.push(Step::CreateDir { path: init_new_path.to_owned() });
        steps.push(Step::CreateDir { path: init_old_path.to_owned() });
        steps.push(
            Step::Mount(
                mount(Some(init_new_path), init_new_path, Some("tmpfs"), &no_flags, None),
            ),
        );
        steps.push(Step::PivotRoot(pivot_root(init_path, init_old_path)));
        proof {
            assert(flags@ =~= seq![MountFlag::NoSuid, MountFlag::NoDev, MountFlag::Recursive]);
            assert(actions(steps@) =~= self.newroot_actions());
        }
        steps
    }

    /// Mounts the file system of processes.
    pub open spec fn mount_proc_actions(&self) -> Seq<Action> {
        let target = pushed(self.new_path@, "proc"@);
        seq![
            Action::CreateDir { path: target },
            Action::Mount(
                mount_args(
                    None,
                    target,
                    Some("proc"@),
                    seq![MountFlag::NoSuid, MountFlag::NoDev, MountFlag::NoExec],
                    None,
                ),
            ),
        ]
    }

    pub fn mount_proc(&self) -> (steps: Vec<Step>)
        ensures
            actions(steps@) == self.mount_proc_actions(),
    {
        let mut steps: Vec<Step> = Vec::new();
        let flags = vec![MountFlag::NoSuid, MountFlag::NoDev, MountFlag::NoExec];
        let target = self.new_path.with("proc");
        steps.push(Step::CreateDir { path: target.as_path().to_owned() });
        steps.push(Step::Mount(mount(None, target.as_path(), Some("proc"), &flags, None)));
        proof {
            assert(flags@ =~= seq![MountFlag::NoSuid, MountFlag::NoDev, MountFlag::NoExec]);
            assert(actions(steps@) =~= self.mount_proc_actions());
        }
        steps
    }

    /// Mounts a path of the old root at a path of the new root, the same one unless another is
    /// given, if there is anything at the first.
    pub open spec fn assure_action(
        &self,
        source_path: Seq<char>,
        target_path: Option<Seq<char>>,
        flags: Seq<MountFlag>,
    ) -> Action {
        let source = rebased(self.old_path@, source_path);
        let target = rebased(
            self.new_path@,
            match target_path {
                Some(path) => path,
                None => source_path,
            },
        );
        Action::Assure(mount_args(Some(source), target, None, flags, None))
    }

    pub fn assure_root_path(
        &self,
        source_path: &str,
        target_path: Option<&str>,
        flags: &Vec<MountFlag>,
    ) -> (step: Step)
        ensures
            step@ == self.assure_action(source_path@, opt_text(target_path), flags@),
    {
        let inner_target = match target_path {
            Some(path) => path,
            None => source_path,
        };
        let source = self.old_path.rebase(source_path);
        let target = self.new_path.rebase(inner_target);
        Step::Assure(mount(Some(source.as_path()), target.as_path(), None, flags, None))
    }

    /// Mounts one device of the host.
    pub open spec fn device_action(&self, name: Seq<char>) -> Action {
        self.assure_action(
            pushed(pushed("/"@, "dev"@), name),
            None,
            seq![MountFlag::Recursive, MountFlag::Silent],
        )
    }

    /// Makes the directories for devices.
    pub open spec fn dev_dirs_actions(&self) -> Seq<Action> {
        let dev = pushed(self.new_path@, "dev"@);
        let pts = pushed(dev, "pts"@);
        let shm = pushed(dev, "shm"@);
        seq![
            Action::CreateDir { path: dev },
            Action::SetMode { path: dev, mode: DEV_MODE },
            Action::CreateDir { path: shm },
            Action::SetMode { path: shm, mode: DEV_MODE },
            Action::CreateDir { path: pts },
            Action::SetMode { path: pts, mode: DEV_MODE },
            Action::Mount(
                mount_args(
                    None,
                    pts,
                    Some("devpts"@),
                    seq![MountFlag::NoSuid, MountFlag::NoExec],
                    Some("newinstance,ptmxmode=0666,mode=620"@),
                ),
            ),
        ]
    }

    /// Makes the directories for devices and mounts some devices of the host into them.
    pub open spec fn mount_dev_actions(&self) -> Seq<Action> {
        self.dev_dirs_actions() + device_names().map_values(
            |name: Seq<char>| self.device_action(name),
        )
    }

    pub fn mount_dev(&self) -> (steps: Vec<Step>)
        ensures
            actions(steps@) == self.mount_dev_actions(),
    {
        let mut steps: Vec<Step> = Vec::new();
        let target_dev = self.new_path.with("dev");
        let target_pts = target_dev.with("pts");
        let target_shm = target_dev.with("shm");
        let pts_flags = vec![MountFlag::NoSuid, MountFlag::NoExec];
        let dev_flags = vec![MountFlag::Recursive, MountFlag::Silent];
        proof {
            assert(actions(steps@) =~= seq![]);
        }
        create_dev_dir(&mut steps, target_dev.as_path());
        create_dev_dir(&mut steps, target_shm.as_path());
        create_dev_dir(&mut steps, target_pts.as_path());
        let ghost dirs = steps@;
        steps.push(
            Step::Mount(
                mount(
                    None,
                    target_pts.as_path(),
                    Some("devpts"),
                    &pts_flags,
                    Some("newinstance,ptmxmode=0666,mode=620"),
                ),
            ),
        );
        let ghost first = actions(steps@);
        // device nodes cannot be made without the right to, so those of the host are mounted
        let list: Vec<&str> = vec!["dri", "null", "zero", "full", "random", "urandom", "tty"];
        proof {
            assert(pts_flags@ =~= seq![MountFlag::NoSuid, MountFlag::NoExec]);
            assert(first =~= actions(dirs).push(steps@.last()@));
            assert(first =~= self.dev_dirs_actions());
            assert(dev_flags@ =~= seq![MountFlag::Recursive, MountFlag::Silent]);
            assert(slice_texts(list@) =~= device_names());
        }
        let ghost wanted = device_names().map_values(|name: Seq<char>| self.device_action(name));
        let mut i: usize = 0;
        while i < list.len()
            invariant
                i <= list@.len(),
                slice_texts(list@) == device_names(),
                dev_flags@ == seq![MountFlag::Recursive, MountFlag::Silent],
                wanted == device_names().map_values(|name: Seq<char>| self.device_action(name)),
                actions(steps@) == first + wanted.take(i as int),
            decreases list.len() - i,
        {
            let ghost before = steps@;
            let path = _Path::from("/").with("dev").with(list[i]);
            let step = self.assure_root_path(path.as_path(), None, &dev_flags);
            proof {
                assert(slice_texts(list@)[i as int] == list@[i as int]@);
                assert(step@ == wanted[i as int]);
                assert(wanted.take(i + 1) =~= wanted.take(i as int).push(step@));
            }
            steps.push(step);
            proof {
                assert(actions(steps@) =~= actions(before).push(step@));
                assert(actions(steps@) =~= first + wanted.take(i + 1));
            }
            i = i + 1;
        }
        proof {
            assert(wanted.take(i as int) =~= wanted);
            assert(actions(steps@) =~= self.mount_dev_actions());
        }
        steps
    }

    /// Mounts a path of the host into the container.
    pub open spec fn mount_host_action(
        &self,
        host_path: Seq<char>,
        container_path: Option<Seq<char>>,
        readonly: bool,
    ) -> Action {
        self.assure_action(host_path, container_path, host_flags(readonly))
    }

    pub fn mount_host(
        &self,
        host_path: &str,
        container_path: Option<&str>,
        readonly: bool,
    ) -> (step: Step)
        ensures
            step@ == self.mount_host_action(
                host_path@,
                opt_text(container_path),
                readonly,
            ),
    {
        let flags = mount_host_flags(readonly);
        self.assure_root_path(host_path, container_path, &flags)
    }

    /// Gives the old root up and makes the new root the root.
    pub open spec fn cleanup_newroot_actions(&self) -> Seq<Action> {
        seq![
            Action::Mount(
                mount_args(
                    None,
                    self.old_path@,
                    None,
                    seq![MountFlag::Silent, MountFlag::Recursive, MountFlag::Private],
                    None,
                ),
            ),
            Action::Umount(
                UmountArgs { path: self.old_path@, flags: umount_bits(seq![UmountFlag::Detach]) },
            ),
            Action::OpenRoot,
            Action::PivotRoot(
                PivotRootArgs { new_root: self.new_path@, old_root: self.new_path@ },
            ),
            Action::ReturnToRoot,
            Action::Umount(
                UmountArgs { path: "."@, flags: umount_bits(seq![UmountFlag::Detach]) },
            ),
            Action::ChangeDir { path: "/"@ },
        ]
    }

    pub fn cleanup_newroot(&self) -> (steps: Vec<Step>)
        ensures
            actions(steps@) == self.cleanup_newroot_actions(),
    {
        let steps = cleanup_steps(self.old_path.as_path(), self.new_path.as_path());
        proof {
            assert(actions(steps@) =~= self.cleanup_newroot_actions());
        }
        steps
    }

    /// Writes the databases of users and groups.
    pub open spec fn write_user_info_actions(&self, info: UserInfo) -> Seq<Action> {
        seq![
            Action::WriteFile {
                path: pushed(pushed(self.new_path@, "etc"@), "passwd"@),
                content: passwd_text(info),
            },
            Action::WriteFile {
                path: pushed(pushed(self.new_path@, "etc"@), "group"@),
                content: group_text(info),
            },
        ]
    }

    pub fn write_user_info(&self, info: &UserInfo) -> (steps: Vec<Step>)
        ensures
            actions(steps@) == self.write_user_info_actions(*info),
    {
        let mut passwd = info.user.name.clone();
        passwd.append(":x:");
        passwd.append(decimal_text(info.user.id).as_str());
        passwd.append(":");
        passwd.append(decimal_text(info.group.id).as_str());
        passwd.append(":user:/home:");
        passwd.append(info.shell.as_str());
        passwd.append("\n");
        passwd.append("nobody:x:65534:65534:nobody:/var/empty:/bin/false\n");
        let mut group = info.group.name.clone();
        group.append(":x:");
        group.append(decimal_text(info.group.id).as_str());
        group.append(":");
        group.append(info.user.name.as_str());
        group.append("\n");
        group.append("nobody:x:65534:");
        group.append(info.user.name.as_str());
        group.append("\n");
        let passwd_path = self.new_path.with("etc").with("passwd");
        let group_path = self.new_path.with("etc").with("group");
        let mut steps: Vec<Step> = Vec::new();
        steps.push(
            Step::WriteFile { path: passwd_path.as_path().to_owned(), content: passwd },
        );
        steps.push(Step::WriteFile { path: group_path.as_path().to_owned(), content: group });
        proof {
            assert(actions(steps@) =~= self.write_user_info_actions(*info));
        }
        steps
    }
}

fn create_dev_dir(steps: &mut Vec<Step>, path: &str)
    ensures
        actions(final(steps)@) == actions(old(steps)@) + seq![
            Action::CreateDir { path: path@ },
            Action::SetMode { path: path@, mode: DEV_MODE },
        ],
{
    steps.push(Step::CreateDir { path: path.to_owned() });
    steps.push(Step::SetMode { path: path.to_owned(), mode: DEV_MODE });
    proof {
        assert(actions(steps@) =~= actions(old(steps)@) + seq![
            Action::CreateDir { path: path@ },
            Action::SetMode { path: path@, mode: DEV_MODE },
        ]);
    }
}

pub(crate) fn mount_host_flags(readonly: bool) -> (flags: Vec<MountFlag>)
    ensures
        flags@ == host_flags(readonly),
{
    let mut flags = vec![MountFlag::Recursive, MountFlag::Silent, MountFlag::NoDev];
    if readonly {
        flags.push(MountFlag::Readonly);
    }
    proof {
        assert(flags@ =~= host_flags(readonly));
    }
    flags
}

/// The steps that give up the old root, which is made private first so that the host does not
/// see it unmounted.
pub(crate) fn cleanup_steps(old_path: &str, new_path: &str) -> (steps: Vec<Step>)
    ensures
        actions(steps@) == seq![
            Action::Mount(
                mount_args(
                    None,
                    old_path@,
                    None,
                    seq![MountFlag::Silent, MountFlag::Recursive, MountFlag::Private],
                    None,
                ),
            ),
            Action::Umount(
                UmountArgs { path: old_path@, flags: umount_bits(seq![UmountFlag::Detach]) },
            ),
            Action::OpenRoot,
            Action::PivotRoot(PivotRootArgs { new_root: new_path@, old_root: new_path@ }),
            Action::ReturnToRoot,
            Action::Umount(
                UmountArgs { path: "."@, flags: umount_bits(seq![UmountFlag::Detach]) },
            ),
            Action::ChangeDir { path: "/"@ },
        ],
{
    let flags = vec![MountFlag::Silent, MountFlag::Recursive, MountFlag::Private];
    let detach = vec![UmountFlag::Detach];
    let mut steps: Vec<Step> = Vec::new();
    proof {
        assert(flags@ =~= seq![MountFlag::Silent, MountFlag::Recursive, MountFlag::Private]);
        assert(detach@ =~= seq![UmountFlag::Detach]);
    }
    steps.push(Step::Mount(mount(None, old_path, None, &flags, None)));
    steps.push(Step::Umount(umount2(old_path, &detach)));
    steps.push(Step::OpenRoot);
    steps.push(Step::PivotRoot(pivot_root(new_path, new_path)));
    steps.push(Step::ReturnToRoot);
    steps.push(Step::Umount(umount2(".", &detach)));
    steps.push(Step::ChangeDir { path: "/".to_owned() });
    steps
}

/// What the child does once the streams of the parent are there: it builds the root, goes into
/// it and starts the shell.
pub open spec fn stage3_actions(rootfs: &RootFsView, info: UserInfo) -> Seq<Action> {
    seq![Action::SetupStdio] + rootfs.newroot_actions() + rootfs.mount_proc_actions()
        + rootfs.mount_dev_actions() + shared_paths().map_values(
        |path: Seq<char>| rootfs.mount_host_action(path, None, true),
    ) + rootfs.write_user_info_actions(info) + rootfs.cleanup_newroot_actions() + seq![
        Action::Spawn { program: info.shell@ },
        Action::RunReactor,
    ]
}

pub fn run_stage3(rootfs: &RootFsView, user_info: &UserInfo) -> (steps: Vec<Step>)
    ensures
        actions(steps@) == stage3_actions(rootfs, *user_info),
{
    let mut steps: Vec<Step> = Vec::new();
    steps.push(Step::SetupStdio);
    proof {
        assert(actions(steps@) =~= seq![Action::SetupStdio]);
    }
    append(&mut steps, rootfs.newroot());
    append(&mut steps, rootfs.mount_proc());
    append(&mut steps, rootfs.mount_dev());
    let ghost first = actions(steps@);
    let list: Vec<&str> = vec![
        "/lib",
        "/lib32",
        "/lib64",
        "/bin",
        "/usr",
        "etc/ld.so.conf",
        "etc/ld.so.cache",
        "etc/ld.so.conf.d",
        "etc/bash",
        "etc/bash_completion.d",
    ];
    proof {
        assert(slice_texts(list@) =~= shared_paths());
    }
    let ghost wanted = shared_paths().map_values(
        |path: Seq<char>| rootfs.mount_host_action(path, None, true),
    );
    let mut i: usize = 0;
    while i < list.len()
        invariant
            i <= list@.len(),
            slice_texts(list@) == shared_paths(),
            wanted == shared_paths().map_values(
                |path: Seq<char>| rootfs.mount_host_action(path, None, true),
            ),
            actions(steps@) == first + wanted.take(i as int),
        decreases list.len() - i,
    {
        let ghost before = steps@;
        let step = rootfs.mount_host(list[i], None, true);
        proof {
            assert(slice_texts(list@)[i as int] == list@[i as int]@);
            assert(step@ == wanted[i as int]);
            assert(wanted.take(i + 1) =~= wanted.take(i as int).push(step@));
        }
        steps.push(step);
        proof {
            assert(actions(steps@) =~= actions(before).push(step@));
            assert(actions(steps@) =~= first + wanted.take(i + 1));
        }
        i = i + 1;
    }
    proof {
        assert(wanted.take(i as int) =~= wanted);
    }
    append(&mut steps, rootfs.write_user_info(user_info));
    append(&mut steps, rootfs.cleanup_newroot());
    let ghost before = steps@;
    steps.push(Step::Spawn { program: user_info.shell.clone() });
    steps.push(Step::RunReactor);
    proof {
        assert(actions(steps@) =~= actions(before) + seq![
            Action::Spawn { program: user_info.shell@ },
            Action::RunReactor,
        ]);
    }
    steps
}

/// The namespaces that a container has for itself.
pub open spec fn all_namespaces() -> Seq<Namespace> {
    seq![
        Namespace::Pid,
        Namespace::Mount,
        Namespace::User,
        Namespace::Network,
        Namespace::Uts,
        Namespace::Ipc,
    ]
}

pub(crate) fn unshare_all() -> (flags: i32)
    ensures
        flags == clone_bits(all_namespaces()),
{
    let list = vec![
        Namespace::Pid,
        Namespace::Mount,
        Namespace::User,
        Namespace::Network,
        Namespace::Uts,
        Namespace::Ipc,
    ];
    proof {
        assert(list@ =~= all_namespaces());
    }
    unshare(&list)
}

/// What is done in the new process: it leaves the namespaces of the host, maps its user and
/// group, and has a child go on.
pub open spec fn stage2_actions(uid: u32, gid: u32) -> Seq<Action> {
    seq![Action::Unshare { flags: clone_bits(all_namespaces()) }] + uid_gid_map(
        uid,
        gid,
    ).map_values(|write: ProcText| Action::WriteProc(write)) + seq![Action::Fork, Action::WaitPid]
}

/// Appends the writes of some files.
pub(crate) fn append_writes(steps: &mut Vec<Step>, writes: &Vec<ProcWrite>)
    ensures
        actions(final(steps)@) == actions(old(steps)@) + proc_texts(writes@).map_values(
            |write: ProcText| Action::WriteProc(write),
        ),
{
    let ghost first = actions(steps@);
    let ghost wanted = proc_texts(writes@).map_values(|write: ProcText| Action::WriteProc(write));
    let mut i: usize = 0;
    while i < writes.len()
        invariant
            i <= writes@.len(),
            wanted == proc_texts(writes@).map_values(|write: ProcText| Action::WriteProc(write)),
            actions(steps@) == first + wanted.take(i as int),
        decreases writes.len() - i,
    {
        let ghost before = steps@;
        let write = &writes[i];
        let step = Step::WriteProc(
            ProcWrite {
                path: write.path.clone(),
                content: write.content.clone(),
                optional: write.optional,
            },
        );
        proof {
            assert(proc_texts(writes@)[i as int] == writes@[i as int]@);
            assert(step@ == wanted[i as int]);
            assert(wanted.take(i + 1) =~= wanted.take(i as int).push(step@));
        }
        steps.push(step);
        proof {
            assert(actions(steps@) =~= actions(before).push(step@));
            assert(actions(steps@) =~= first + wanted.take(i + 1));
        }
        i = i + 1;
    }
    proof {
        assert(wanted.take(i as int) =~= wanted);
    }
}

pub fn run_stage2(info: &UserInfo) -> (steps: Vec<Step>)
    ensures
        actions(steps@) == stage2_actions(info.user.id, info.group.id),
{
    let mut steps: Vec<Step> = Vec::new();
    steps.push(Step::Unshare { flags: unshare_all() });
    proof {
        assert(actions(steps@) =~= seq![Action::Unshare { flags: clone_bits(all_namespaces()) }]);
    }
    append_writes(&mut steps, &write_uid_gid_map(info.user.id, info.group.id));
    let ghost before = steps@;
    steps.push(Step::Fork);
    steps.push(Step::WaitPid);
    proof {
        assert(actions(steps@) =~= actions(before) + seq![Action::Fork, Action::WaitPid]);
    }
    steps
}

/// What the first process does: a child goes on, which closes what belongs to the parent and
/// takes the steps of `run_stage2`; the parent passes the streams on, then waits for the child.
/// The parent keeps its own streams as they are: there is no step before the first that sets
/// them up, and none that could fail.
pub open spec fn run_actions() -> Seq<Action> {
    seq![Action::Fork, Action::CloseOtherSide, Action::RunReactor, Action::WaitPid]
}

pub fn run() -> (steps: Vec<Step>)
    ensures
        actions(steps@) == run_actions(),
{
    let steps = vec![Step::Fork, Step::CloseOtherSide, Step::RunReactor, Step::WaitPid];
    proof {
        assert(actions(steps@) =~= run_actions());
    }
    steps
}

/// The old root is cut off from the host, with all that is mounted below it, right before it is
/// unmounted, so that the host does not see it go.
pub proof fn law_private_before_unmount(rootfs: &RootFsView)
    ensures
        match rootfs.cleanup_newroot_actions()[0] {
            Action::Mount(mount) => {
                &&& mount.target == rootfs.old_path@
                &&& mount.flags & MS_PRIVATE == MS_PRIVATE
                &&& mount.flags & MS_REC == MS_REC
            },
            _ => false,
        },
        rootfs.cleanup_newroot_actions()[1] matches Action::Umount(umount) && umount.path
            == rootfs.old_path@,
{
    let flags = seq![MountFlag::Silent, MountFlag::Recursive, MountFlag::Private];
    assert(flags[1] == MountFlag::Recursive);
    assert(flags[2] == MountFlag::Private);
    law_mount_flags(None, rootfs.old_path@, None, flags, None, MountFlag::Private);
    law_mount_flags(None, rootfs.old_path@, None, flags, None, MountFlag::Recursive);
}

/// What is mounted from the host has a path that opens with the old root, and goes to one that
/// opens with the new root, whatever paths are given.  This leaves out an empty root where the path opens with the
/// current directory.
pub proof fn law_mounts_stay_below(
    rootfs: &RootFsView,
    source_path: Seq<char>,
    target_path: Option<Seq<char>>,
    flags: Seq<MountFlag>,
)
    requires
        rootfs.old_path@.len() > 0 || lead(source_path) != seq![seq!['.']],
        rootfs.new_path@.len() > 0 || lead(
            match target_path {
                Some(path) => path,
                None => source_path,
            },
        ) != seq![seq!['.']],
    ensures
        match rootfs.assure_action(source_path, target_path, flags) {
            Action::Assure(mount) => {
                let inner = match target_path {
                    Some(path) => path,
                    None => source_path,
                };
                &&& components(mount.source) == components(rootfs.old_path@) + names(
                    segments(source_path),
                )
                &&& components(mount.target) == components(rootfs.new_path@) + names(
                    segments(inner),
                )
            },
            _ => false,
        },
{
    let inner = match target_path {
        Some(path) => path,
        None => source_path,
    };
    law_rebased_stays_below(rootfs.old_path@, source_path);
    law_rebased_stays_below(rootfs.new_path@, inner);
}

/// What is mounted from the host is shown as it is there, without access to its device files,
/// and read-only exactly where that was asked for.
pub proof fn law_host_mounts(
    rootfs: &RootFsView,
    host_path: Seq<char>,
    container_path: Option<Seq<char>>,
    readonly: bool,
)
    ensures
        match rootfs.mount_host_action(host_path, container_path, readonly) {
            Action::Assure(mount) => {
                &&& mount.fs is None
                &&& mount.flags & MS_BIND == MS_BIND
                &&& mount.flags & MS_NODEV == MS_NODEV
                &&& mount.flags & MS_RDONLY == MS_RDONLY <==> readonly
            },
            _ => false,
        },
{
    let flags = host_flags(readonly);
    assert(flags[2] == MountFlag::NoDev);
    if readonly {
        assert(flags[3] == MountFlag::Readonly);
    }
    let source = rebased(rootfs.old_path@, host_path);
    let target = rebased(
        rootfs.new_path@,
        match container_path {
            Some(path) => path,
            None => host_path,
        },
    );
    law_mount_flags(Some(source), target, None, flags, None, MountFlag::NoDev);
    law_mount_flags(Some(source), target, None, flags, None, MountFlag::Readonly);
}

} // verus!
