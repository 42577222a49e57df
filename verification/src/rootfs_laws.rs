//! What holds of the steps by which a container is set up.
use vstd::prelude::*;

use crate::address::{all_digits, is_digit, law_decimal_value, value};
use crate::path::{parent, pushed, rebased, NEW_ROOT_DIR, OLD_ROOT_DIR, ROOT_INIT_PATH};
use crate::plan::{assured, Action, SourceKind};
use crate::rootfs;
use crate::rootfs_view::{
    group_text, passwd_text, stage2_actions, stage3_actions, RootFsView,
};
use crate::sys::{
    clone_bits, law_uid_gid_map, law_unmount_and_pivot, maps_to_itself, mount_bits, umount_bits,
    MountArgs, MountFlag, Namespace, UmountFlag, UserInfo,
};
use crate::text::{decimal, law_split_concat, law_split_one, split};

verus! {

proof fn lemma_two_flags(a: MountFlag, b: MountFlag)
    ensures
        mount_bits(seq![a, b]) == (0u64 | a.bit()) | b.bit(),
        mount_bits(Seq::<MountFlag>::empty()) == 0,
{
    reveal_with_fuel(mount_bits, 3);
    assert(seq![a, b].drop_last() =~= seq![a]);
    assert(seq![a].drop_last() =~= Seq::<MountFlag>::empty());
}

proof fn lemma_three_flags(a: MountFlag, b: MountFlag, c: MountFlag)
    ensures
        mount_bits(seq![a, b, c]) == ((0u64 | a.bit()) | b.bit()) | c.bit(),
{
    lemma_two_flags(a, b);
    assert(seq![a, b, c].drop_last() =~= seq![a, b]);
}

/// The numbers of the flags with which things are mounted.
proof fn lemma_flag_numbers()
    ensures
        mount_bits(seq![MountFlag::NoSuid, MountFlag::NoDev, MountFlag::Recursive]) == 0x4006,
        mount_bits(seq![MountFlag::NoSuid, MountFlag::NoDev, MountFlag::NoExec]) == 0xe,
        mount_bits(seq![MountFlag::NoSuid, MountFlag::NoExec]) == 0xa,
        mount_bits(Seq::<MountFlag>::empty()) == 0,
        mount_bits(seq![MountFlag::Recursive, MountFlag::Silent]) | 0x1000u64 == 0xd000u64,
        mount_bits(seq![MountFlag::Silent, MountFlag::Recursive, MountFlag::Private]) | 0x1000u64
            == 0x4d000u64,
        mount_bits(seq![MountFlag::Recursive, MountFlag::Silent, MountFlag::NoDev]) | 0x1000u64
            == 0xd004u64,
        mount_bits(
            seq![
                MountFlag::Recursive,
                MountFlag::Silent,
                MountFlag::NoDev,
                MountFlag::Readonly,
            ],
        ) | 0x1000u64 == 0xd005u64,
        umount_bits(seq![UmountFlag::Detach]) == 2,
{
    lemma_three_flags(MountFlag::NoSuid, MountFlag::NoDev, MountFlag::Recursive);
    lemma_three_flags(MountFlag::NoSuid, MountFlag::NoDev, MountFlag::NoExec);
    lemma_two_flags(MountFlag::NoSuid, MountFlag::NoExec);
    lemma_two_flags(MountFlag::Recursive, MountFlag::Silent);
    lemma_three_flags(MountFlag::Silent, MountFlag::Recursive, MountFlag::Private);
    lemma_three_flags(MountFlag::Recursive, MountFlag::Silent, MountFlag::NoDev);
    let four = seq![
        MountFlag::Recursive,
        MountFlag::Silent,
        MountFlag::NoDev,
        MountFlag::Readonly,
    ];
    assert(four.drop_last() =~= seq![MountFlag::Recursive, MountFlag::Silent, MountFlag::NoDev]);
    law_unmount_and_pivot(seq![], seq![UmountFlag::Detach], seq![], seq![]);
    assert(((0u64 | 2u64) | 4u64) | 0x4000u64 == 0x4006u64 && ((0u64 | 2u64) | 4u64) | 8u64 == 0xeu64
        && (0u64 | 2u64) | 8u64 == 0xau64 && ((0u64 | 0x4000u64) | 0x8000u64) | 0x1000u64
        == 0xd000u64 && (((0u64 | 0x8000u64) | 0x4000u64) | 0x40000u64) | 0x1000u64 == 0x4d000u64
        && (((0u64 | 0x4000u64) | 0x8000u64) | 4u64) | 0x1000u64 == 0xd004u64 && ((((0u64
        | 0x4000u64) | 0x8000u64) | 4u64) | 1u64) | 0x1000u64 == 0xd005u64) by (bit_vector);
}

/// Whether a step goes to a place in the file system by a path that names it.
pub open spec fn names_place(action: Action) -> bool {
    match action {
        Action::Mount(_) => true,
        Action::PivotRoot(_) => true,
        Action::CreateDir { .. } => true,
        Action::CreateDirAll { .. } => true,
        Action::CreateFile { .. } => true,
        Action::SetMode { .. } => true,
        Action::WriteFile { .. } => true,
        Action::Assure(_) => true,
        _ => false,
    }
}

/// A file system in memory is mounted at the initial place; then both roots are made below it, the
/// new one is a file system of its own, and the root of the host moves to the old one.
pub proof fn law_newroot(rootfs: &RootFsView)
    ensures
        ({
            let a = rootfs.newroot_actions();
            let init = rootfs.init_path@;
            &&& a.len() == 5
            &&& a[0] matches Action::Mount(m) && m.source == init && m.target == init && m.fs
                == Some("tmpfs"@) && m.flags == 0x4006 && m.data is None
            &&& a[1] == Action::CreateDir { path: rootfs.init_new_path@ }
            &&& a[2] == Action::CreateDir { path: rootfs.init_old_path@ }
            &&& a[3] matches Action::Mount(m) && m.source == rootfs.init_new_path@ && m.target
                == rootfs.init_new_path@ && m.fs == Some("tmpfs"@) && m.flags == 0 && m.data is None
            &&& a[4] matches Action::PivotRoot(p) && p.new_root == init && p.old_root
                == rootfs.init_old_path@
        }),
{
    lemma_flag_numbers();
    assert(Seq::<MountFlag>::empty() =~= seq![]);
}

/// The file system of processes is mounted at a directory that is made for it first.
pub proof fn law_mount_proc(rootfs: &RootFsView)
    ensures
        ({
            let a = rootfs.mount_proc_actions();
            let target = pushed(rootfs.new_path@, "proc"@);
            &&& a.len() == 2
            &&& a[0] == Action::CreateDir { path: target }
            &&& a[1] matches Action::Mount(m) && m.source == target && m.target == target && m.fs
                == Some("proc"@) && m.flags == 0xe && m.data is None
        }),
{
    lemma_flag_numbers();
}

/// The directories for devices are made, the one that holds the others first, each with its mode;
/// then the terminals are mounted, and each of seven devices of the host at its own place.
pub proof fn law_mount_dev(rootfs: &RootFsView)
    ensures
        ({
            let a = rootfs.mount_dev_actions();
            let dev = pushed(rootfs.new_path@, "dev"@);
            let shm = pushed(dev, "shm"@);
            let pts = pushed(dev, "pts"@);
            let names = seq!["dri"@, "null"@, "zero"@, "full"@, "random"@, "urandom"@, "tty"@];
            &&& a.len() == 14
            &&& a[0] == Action::CreateDir { path: dev }
            &&& a[1] == Action::SetMode { path: dev, mode: 0o755 }
            &&& a[2] == Action::CreateDir { path: shm }
            &&& a[3] == Action::SetMode { path: shm, mode: 0o755 }
            &&& a[4] == Action::CreateDir { path: pts }
            &&& a[5] == Action::SetMode { path: pts, mode: 0o755 }
            &&& a[6] matches Action::Mount(m) && m.source == pts && m.target == pts && m.fs == Some(
                "devpts"@,
            ) && m.flags == 0xa && m.data == Some("newinstance,ptmxmode=0666,mode=620"@)
            &&& forall|i: int|
                0 <= i < 7 ==> {
                    &&& #[trigger] a[7 + i] matches Action::Assure(m)
                    &&& m.source == rebased(rootfs.old_path@, "/dev/"@ + names[i])
                    &&& m.target == rebased(rootfs.new_path@, "/dev/"@ + names[i])
                    &&& m.fs is None
                    &&& m.flags == 0xd000
                    &&& m.data is None
                }
        }),
{
    let a = rootfs.mount_dev_actions();
    let names = seq!["dri"@, "null"@, "zero"@, "full"@, "random"@, "urandom"@, "tty"@];
    lemma_flag_numbers();
    reveal_strlit("/");
    reveal_strlit("dev");
    reveal_strlit("/dev/");
    reveal_strlit("dri");
    reveal_strlit("null");
    reveal_strlit("zero");
    reveal_strlit("full");
    reveal_strlit("random");
    reveal_strlit("urandom");
    reveal_strlit("tty");
    assert forall|i: int| 0 <= i < 7 implies {
        &&& #[trigger] a[7 + i] matches Action::Assure(m)
        &&& m.source == rebased(rootfs.old_path@, "/dev/"@ + names[i])
        &&& m.target == rebased(rootfs.new_path@, "/dev/"@ + names[i])
        &&& m.fs is None
        &&& m.flags == 0xd000
        &&& m.data is None
    } by {
        let name = names[i];
        assert(name.len() > 0 && name[0] != '/');
        assert(a[7 + i] == rootfs.device_action(name));
        assert(pushed(pushed("/"@, "dev"@), name) =~= "/dev/"@ + name);
    }
}

/// A path of the host is mounted from below the old root to below the new one, at the same path
/// unless another is given, with everything mounted below it and without its device files, and
/// read-only exactly where that was asked for.
pub proof fn law_mount_host(
    rootfs: &RootFsView,
    host_path: Seq<char>,
    container_path: Option<Seq<char>>,
    readonly: bool,
)
    ensures
        ({
            &&& rootfs.mount_host_action(host_path, container_path, readonly) matches Action::Assure(
                m,
            )
            &&& m.source == rebased(rootfs.old_path@, host_path)
            &&& container_path is None ==> m.target == rebased(rootfs.new_path@, host_path)
            &&& container_path matches Some(path) ==> m.target == rebased(rootfs.new_path@, path)
            &&& m.fs is None
            &&& m.data is None
            &&& m.flags == if readonly {
                0xd005u64
            } else {
                0xd004u64
            }
        }),
{
    lemma_flag_numbers();
    let common = seq![MountFlag::Recursive, MountFlag::Silent, MountFlag::NoDev];
    assert(common.push(MountFlag::Readonly) =~= seq![
        MountFlag::Recursive,
        MountFlag::Silent,
        MountFlag::NoDev,
        MountFlag::Readonly,
    ]);
}

/// The old root is made private with all below it and then given up; the new root becomes the root,
/// and what was the root is left and given up too.
pub proof fn law_cleanup(rootfs: &RootFsView)
    ensures
        ({
            let a = rootfs.cleanup_newroot_actions();
            let old = rootfs.old_path@;
            let new = rootfs.new_path@;
            &&& a.len() == 7
            &&& a[0] matches Action::Mount(m) && m.source == old && m.target == old && m.fs is None
                && m.flags == 0x4d000 && m.data is None
            &&& a[1] matches Action::Umount(u) && u.path == old && u.flags == 2
            &&& a[2] is OpenRoot
            &&& a[3] matches Action::PivotRoot(p) && p.new_root == new && p.old_root == new
            &&& a[4] is ReturnToRoot
            &&& a[5] matches Action::Umount(u) && u.path == "."@ && u.flags == 2
            &&& a[6] == Action::ChangeDir { path: "/"@ }
        }),
{
    lemma_flag_numbers();
}

/// Both databases are written below the new root.
pub proof fn law_databases_written(rootfs: &RootFsView, info: UserInfo)
    ensures
        rootfs.write_user_info_actions(info).len() == 2,
        rootfs.write_user_info_actions(info)[0] == (Action::WriteFile {
            path: pushed(pushed(rootfs.new_path@, "etc"@), "passwd"@),
            content: passwd_text(info),
        }),
        rootfs.write_user_info_actions(info)[1] == (Action::WriteFile {
            path: pushed(pushed(rootfs.new_path@, "etc"@), "group"@),
            content: group_text(info),
        }),
{
}

/// The child first takes the streams over.  Then the roots are built and the root of the host moves
/// to the old one; whatever is made in the new root comes after that, and before the new root
/// becomes the root.  No path of either root is named afterwards.  The shell of the user is started
/// last of all, once, and then the loop.
pub proof fn law_stage3(rootfs: &RootFsView, info: UserInfo)
    ensures
        ({
            let a = stage3_actions(rootfs, info);
            &&& a.len() == 43
            &&& a[0] is SetupStdio
            &&& a.subrange(1, 6) == rootfs.newroot_actions()
            &&& a[5] matches Action::PivotRoot(p) && p.new_root == rootfs.init_path@ && p.old_root
                == rootfs.init_old_path@
            &&& a.subrange(6, 8) == rootfs.mount_proc_actions()
            &&& a.subrange(8, 22) == rootfs.mount_dev_actions()
            &&& forall|i: int|
                0 <= i < 10 ==> {
                    &&& #[trigger] a[22 + i] matches Action::Assure(m)
                    &&& m.source == rebased(rootfs.old_path@, shared_path(i))
                    &&& m.target == rebased(rootfs.new_path@, shared_path(i))
                    &&& m.fs is None
                    &&& m.flags == 0xd005
                    &&& m.data is None
                }
            // the databases are written while the new root still goes by its path
            &&& a[32] == (Action::WriteFile {
                path: pushed(pushed(rootfs.new_path@, "etc"@), "passwd"@),
                content: passwd_text(info),
            })
            &&& a[33] == (Action::WriteFile {
                path: pushed(pushed(rootfs.new_path@, "etc"@), "group"@),
                content: group_text(info),
            })
            &&& a.subrange(34, 41) == rootfs.cleanup_newroot_actions()
            &&& a[37] matches Action::PivotRoot(p) && p.new_root == rootfs.new_path@ && p.old_root
                == rootfs.new_path@
            &&& forall|i: int| 37 < i < 43 ==> !names_place(#[trigger] a[i])
            &&& forall|i: int| 0 <= i < 43 ==> ((#[trigger] a[i]) is Spawn <==> i == 41)
            &&& forall|i: int| 0 <= i < 43 ==> ((#[trigger] a[i]) is RunReactor <==> i == 42)
            &&& a[41] == Action::Spawn { program: info.shell@ }
        }),
{
    let a = stage3_actions(rootfs, info);
    law_newroot(rootfs);
    law_mount_proc(rootfs);
    law_mount_dev(rootfs);
    law_cleanup(rootfs);
    law_databases_written(rootfs, info);
    assert(a.subrange(1, 6) =~= rootfs.newroot_actions());
    assert(a.subrange(6, 8) =~= rootfs.mount_proc_actions());
    assert(a.subrange(8, 22) =~= rootfs.mount_dev_actions());
    assert(a.subrange(34, 41) =~= rootfs.cleanup_newroot_actions());
    assert forall|i: int| 0 <= i < 10 implies {
        &&& #[trigger] a[22 + i] matches Action::Assure(m)
        &&& m.source == rebased(rootfs.old_path@, shared_path(i))
        &&& m.target == rebased(rootfs.new_path@, shared_path(i))
        &&& m.fs is None
        &&& m.flags == 0xd005
        &&& m.data is None
    } by {
        law_mount_host(rootfs, shared_path(i), None, true);
        assert(a[22 + i] == rootfs.mount_host_action(shared_path(i), None, true));
    }
    let cleanup = rootfs.cleanup_newroot_actions();
    let newroot = rootfs.newroot_actions();
    let proc_steps = rootfs.mount_proc_actions();
    let dev = rootfs.mount_dev_actions();
    assert(a[5] == newroot[4]);
    assert(a[37] == cleanup[3] && a[38] == cleanup[4] && a[39] == cleanup[5] && a[40] == cleanup[6]);
    assert forall|i: int| 0 <= i < 43 && i != 41 && i != 42 implies !((
    #[trigger] a[i]) is Spawn) && !(a[i] is RunReactor) by {
        if 1 <= i < 6 {
            assert(a[i] == newroot[i - 1]);
        } else if 6 <= i < 8 {
            assert(a[i] == proc_steps[i - 6]);
        } else if 8 <= i < 22 {
            assert(a[i] == dev[i - 8]);
            if i >= 15 {
                assert(a[i] == dev[7 + (i - 15)]);
            }
        } else if 22 <= i < 32 {
            assert(a[i] == a[22 + (i - 22)]);
        } else if 34 <= i < 41 {
            assert(a[i] == cleanup[i - 34]);
        }
    }
}

/// One of the paths of the host that are shared.
pub open spec fn shared_path(i: int) -> Seq<char> {
    if i == 0 {
        "/lib"@
    } else if i == 1 {
        "/lib32"@
    } else if i == 2 {
        "/lib64"@
    } else if i == 3 {
        "/bin"@
    } else if i == 4 {
        "/usr"@
    } else if i == 5 {
        "etc/ld.so.conf"@
    } else if i == 6 {
        "etc/ld.so.cache"@
    } else if i == 7 {
        "etc/ld.so.conf.d"@
    } else if i == 8 {
        "etc/bash"@
    } else {
        "etc/bash_completion.d"@
    }
}

proof fn lemma_all_namespaces()
    ensures
        clone_bits(
            seq![
                Namespace::Pid,
                Namespace::Mount,
                Namespace::User,
                Namespace::Network,
                Namespace::Uts,
                Namespace::Ipc,
            ],
        ) == 0x7c020000,
{
    let all = seq![
        Namespace::Pid,
        Namespace::Mount,
        Namespace::User,
        Namespace::Network,
        Namespace::Uts,
        Namespace::Ipc,
    ];
    reveal_with_fuel(clone_bits, 7);
    assert(all.drop_last() =~= all.take(5));
    assert(all.take(5).drop_last() =~= all.take(4));
    assert(all.take(4).drop_last() =~= all.take(3));
    assert(all.take(3).drop_last() =~= all.take(2));
    assert(all.take(2).drop_last() =~= all.take(1));
    assert(all.take(1).drop_last() =~= Seq::<Namespace>::empty());
    assert((((((0i32 | 0x20000000i32) | 0x20000i32) | 0x10000000i32) | 0x40000000i32) | 0x4000000i32)
        | 0x8000000i32 == 0x7c020000i32) by (bit_vector);
}

/// Whether all six namespaces are left first, and at once; then setting groups is denied, and the
/// user and the group are mapped to themselves; only then there is a child, which is waited for.
pub open spec fn leaves_and_maps(a: Seq<Action>, uid: u32, gid: u32) -> bool {
    &&& a.len() == 6
    &&& a[0] == Action::Unshare { flags: 0x7c020000 }
    &&& a[1] matches Action::WriteProc(w) && w.path == "/proc/self/setgroups"@ && w.content
        == "deny\n"@ && w.optional
    &&& a[2] matches Action::WriteProc(w) && w.path == "/proc/self/uid_map"@ && maps_to_itself(
        w.content,
        uid,
    ) && !w.optional
    &&& a[3] matches Action::WriteProc(w) && w.path == "/proc/self/gid_map"@ && maps_to_itself(
        w.content,
        gid,
    ) && !w.optional
    &&& a[4] is Fork
    &&& a[5] is WaitPid
}

/// All six namespaces are left first, and at once; then setting groups is denied, and the user and
/// the group are mapped to themselves; only then there is a child, which is waited for.
pub proof fn law_stage2(uid: u32, gid: u32)
    ensures
        leaves_and_maps(stage2_actions(uid, gid), uid, gid),
        leaves_and_maps(rootfs::run_actions(uid, gid), uid, gid),
{
    lemma_all_namespaces();
    law_uid_gid_map(uid, gid);
}

/// What is found at a source decides what is made: nothing where it is missing, the directory where
/// it is one, and otherwise an empty file in a directory that is made first.  Then it is mounted.
pub proof fn law_assured_fully(kind: SourceKind, mount: MountArgs)
    ensures
        kind is Missing ==> assured(kind, mount).len() == 0,
        kind is Directory ==> {
            &&& assured(kind, mount).len() == 2
            &&& assured(kind, mount)[0] == Action::CreateDirAll { path: mount.target }
            &&& assured(kind, mount)[1] == Action::Mount(mount)
        },
        kind is File ==> {
            &&& assured(kind, mount).len() == 3
            &&& assured(kind, mount)[0] == Action::CreateDirAll { path: parent(mount.target)->0 }
            &&& assured(kind, mount)[1] == Action::CreateFile { path: mount.target }
            &&& assured(kind, mount)[2] == Action::Mount(mount)
        },
{
}

/// What is shared is mounted from the path behind the one root to the path behind the other, the
/// same one unless another is given.
pub proof fn law_plain_assure(
    source_root: Seq<char>,
    target_root: Seq<char>,
    source_path: Seq<char>,
    target_path: Option<Seq<char>>,
    flags: Seq<MountFlag>,
)
    ensures
        ({
            &&& rootfs::assure_action(
                source_root,
                target_root,
                source_path,
                target_path,
                flags,
            ) matches Action::Assure(m)
            &&& m.source == source_root + source_path
            &&& target_path is None ==> m.target == target_root + source_path
            &&& target_path matches Some(path) ==> m.target == target_root + path
            &&& m.fs is None
            &&& m.data is None
            &&& m.flags == mount_bits(flags) | 0x1000
        }),
{
}

/// A path of the host is mounted from the old root to the new one, at the same path unless another
/// is given, without its device files, and read-only exactly where that was asked for.
pub proof fn law_plain_mount_host(
    host_path: Seq<char>,
    container_path: Option<Seq<char>>,
    readonly: bool,
)
    ensures
        ({
            &&& rootfs::mount_host_action(host_path, container_path, readonly) matches Action::Assure(
                m,
            )
            &&& m.source == "/old-root"@ + host_path
            &&& container_path is None ==> m.target == "/new-root"@ + host_path
            &&& container_path matches Some(path) ==> m.target == "/new-root"@ + path
            &&& m.fs is None
            &&& m.data is None
            &&& m.flags == if readonly {
                0xd005u64
            } else {
                0xd004u64
            }
        }),
{
    lemma_flag_numbers();
    lemma_plain_roots();
    let common = seq![MountFlag::Recursive, MountFlag::Silent, MountFlag::NoDev];
    assert(common.push(MountFlag::Readonly) =~= seq![
        MountFlag::Recursive,
        MountFlag::Silent,
        MountFlag::NoDev,
        MountFlag::Readonly,
    ]);
}

proof fn lemma_plain_roots()
    ensures
        rootfs::new_root() == "/new-root"@,
        rootfs::old_root() == "/old-root"@,
        rootfs::init_new_root() == "/tmp/new-root"@,
        rootfs::init_old_root() == "/tmp/old-root"@,
        ROOT_INIT_PATH@ == "/tmp"@,
{
    reveal_strlit("/");
    reveal_strlit("/tmp");
    reveal_strlit("new-root");
    reveal_strlit("old-root");
    reveal_strlit("/new-root");
    reveal_strlit("/old-root");
    reveal_strlit("/tmp/new-root");
    reveal_strlit("/tmp/old-root");
    assert("/"@ + NEW_ROOT_DIR@ =~= "/new-root"@);
    assert("/"@ + OLD_ROOT_DIR@ =~= "/old-root"@);
    assert(ROOT_INIT_PATH@ + "/"@ + NEW_ROOT_DIR@ =~= "/tmp/new-root"@);
    assert(ROOT_INIT_PATH@ + "/"@ + OLD_ROOT_DIR@ =~= "/tmp/old-root"@);
}

/// Where roots and paths are strings, the child does the same at fixed places: the roots are built
/// and the root of the host moves to the old one; whatever is made in the new root comes after that,
/// and before the new root becomes the root.  No path of either root is named afterwards.  The shell
/// is started last of all.
pub proof fn law_plain_child()
    ensures
        ({
            let a = rootfs::child_actions();
            let names = seq!["dri"@, "null"@, "zero"@, "full"@, "random"@, "urandom"@, "tty"@];
            &&& a.len() == 39
            &&& a[0] matches Action::Mount(m) && m.source == "/tmp"@ && m.target == "/tmp"@ && m.fs
                == Some("tmpfs"@) && m.flags == 0x4006
            &&& a[1] == Action::CreateDir { path: "/tmp/new-root"@ }
            &&& a[2] == Action::CreateDir { path: "/tmp/old-root"@ }
            &&& a[3] matches Action::Mount(m) && m.source == "/tmp/new-root"@ && m.target
                == "/tmp/new-root"@ && m.fs == Some("tmpfs"@) && m.flags == 0
            &&& a[4] matches Action::PivotRoot(p) && p.new_root == "/tmp"@ && p.old_root
                == "/tmp/old-root"@
            &&& a[5] == Action::CreateDir { path: "/new-root"@ + "/proc"@ }
            &&& a[6] matches Action::Mount(m) && m.source == m.target && m.target == "/new-root"@
                + "/proc"@ && m.fs == Some("proc"@) && m.flags == 0xe
            &&& a[7] == Action::CreateDir { path: "/new-root"@ + "/dev"@ }
            &&& a[8] == Action::SetMode { path: "/new-root"@ + "/dev"@, mode: 0o755 }
            &&& a[9] == Action::CreateDir { path: "/new-root"@ + "/dev"@ + "/shm"@ }
            &&& a[10] == Action::SetMode { path: "/new-root"@ + "/dev"@ + "/shm"@, mode: 0o755 }
            &&& a[11] == Action::CreateDir { path: "/new-root"@ + "/dev"@ + "/pts"@ }
            &&& a[12] == Action::SetMode { path: "/new-root"@ + "/dev"@ + "/pts"@, mode: 0o755 }
            &&& a[13] matches Action::Mount(m) && m.source == m.target && m.target == "/new-root"@
                + "/dev"@ + "/pts"@ && m.fs == Some("devpts"@) && m.flags == 0xa && m.data == Some(
                "newinstance,ptmxmode=0666,mode=620"@,
            )
            &&& forall|i: int|
                0 <= i < 7 ==> {
                    &&& #[trigger] a[14 + i] matches Action::Assure(m)
                    &&& m.source == "/old-root"@ + "/dev"@ + ("/"@ + names[i])
                    &&& m.target == "/new-root"@ + "/dev"@ + ("/"@ + names[i])
                    &&& m.fs is None
                    &&& m.flags == 0xd000
                }
            &&& forall|i: int|
                0 <= i < 10 ==> {
                    &&& #[trigger] a[21 + i] matches Action::Assure(m)
                    &&& m.source == "/old-root"@ + plain_shared_path(i)
                    &&& m.target == "/new-root"@ + plain_shared_path(i)
                    &&& m.fs is None
                    &&& m.flags == 0xd005
                }
            &&& a[31] matches Action::Mount(m) && m.source == m.target && m.target == "/old-root"@
                && m.fs is None && m.data is None && m.flags == 0x4d000
            &&& a[32] matches Action::Umount(u) && u.path == "/old-root"@ && u.flags == 2
            &&& a[33] is OpenRoot
            &&& a[34] matches Action::PivotRoot(p) && p.new_root == "/new-root"@ && p.old_root
                == "/new-root"@
            &&& a[35] is ReturnToRoot
            &&& a[36] matches Action::Umount(u) && u.path == "."@ && u.flags == 2
            &&& a[37] == Action::ChangeDir { path: "/"@ }
            &&& a[38] == Action::Spawn { program: "bash"@ }
        }),
{
    let a = rootfs::child_actions();
    let names = seq!["dri"@, "null"@, "zero"@, "full"@, "random"@, "urandom"@, "tty"@];
    lemma_flag_numbers();
    lemma_plain_roots();
    assert(Seq::<MountFlag>::empty() =~= seq![]);
    assert forall|i: int| 0 <= i < 7 implies {
        &&& #[trigger] a[14 + i] matches Action::Assure(m)
        &&& m.source == "/old-root"@ + "/dev"@ + ("/"@ + names[i])
        &&& m.target == "/new-root"@ + "/dev"@ + ("/"@ + names[i])
        &&& m.fs is None
        &&& m.flags == 0xd000
    } by {
        assert(a[14 + i] == rootfs::device_action(names[i]));
    }
    assert forall|i: int| 0 <= i < 10 implies {
        &&& #[trigger] a[21 + i] matches Action::Assure(m)
        &&& m.source == "/old-root"@ + plain_shared_path(i)
        &&& m.target == "/new-root"@ + plain_shared_path(i)
        &&& m.fs is None
        &&& m.flags == 0xd005
    } by {
        law_plain_mount_host(plain_shared_path(i), None, true);
        assert(a[21 + i] == rootfs::mount_host_action(plain_shared_path(i), None, true));
    }
}

/// One of the paths of the host that are shared, where paths are strings.
pub open spec fn plain_shared_path(i: int) -> Seq<char> {
    if i == 5 {
        "/etc/ld.so.conf"@
    } else if i == 6 {
        "/etc/ld.so.cache"@
    } else if i == 7 {
        "/etc/ld.so.conf.d"@
    } else if i == 8 {
        "/etc/bash"@
    } else if i == 9 {
        "/etc/bash_completion.d"@
    } else {
        shared_path(i)
    }
}

/// Whether a text holds a number and nothing else, without a needless zero.
pub open spec fn is_number(text: Seq<char>, n: nat) -> bool {
    &&& text.len() > 0
    &&& all_digits(text)
    &&& value(text) == n
    &&& text[0] == '0' ==> text.len() == 1
}

proof fn lemma_number(n: nat)
    ensures
        is_number(decimal(n), n),
        forall|c: char| !is_digit(c) ==> !#[trigger] decimal(n).contains(c),
{
    law_decimal_value(n);
    let d = decimal(n);
    assert forall|c: char| !is_digit(c) implies !#[trigger] d.contains(c) by {
        if d.contains(c) {
            let i = choose|i: int| 0 <= i < d.len() && d[i] == c;
            assert(is_digit(d[i]));
        }
    }
}

/// The user database opens with the name of the user, holds their number and that of their group
/// behind it, and then the shell; the second line is fixed.
pub proof fn law_passwd_text(info: UserInfo)
    ensures
        passwd_text(info) == info.user.name@ + (":x:"@ + decimal(info.user.id as nat) + ":"@
            + decimal(info.group.id as nat) + ":user:/home:"@) + info.shell@ + ("\n"@
            + "nobody:x:65534:65534:nobody:/var/empty:/bin/false\n"@),
        group_text(info) == info.group.name@ + (":x:"@ + decimal(info.group.id as nat) + ":"@)
            + info.user.name@ + ("\n"@ + "nobody:x:65534:"@) + info.user.name@ + "\n"@,
        is_number(decimal(info.user.id as nat), info.user.id as nat),
        is_number(decimal(info.group.id as nat), info.group.id as nat),
{
    lemma_number(info.user.id as nat);
    lemma_number(info.group.id as nat);
    assert(passwd_text(info) =~= info.user.name@ + (":x:"@ + decimal(info.user.id as nat) + ":"@
        + decimal(info.group.id as nat) + ":user:/home:"@) + info.shell@ + ("\n"@
        + "nobody:x:65534:65534:nobody:/var/empty:/bin/false\n"@));
    assert(group_text(info) =~= info.group.name@ + (":x:"@ + decimal(info.group.id as nat) + ":"@)
        + info.user.name@ + ("\n"@ + "nobody:x:65534:"@) + info.user.name@ + "\n"@);
}

/// Whether a name can stand in a field of a database.
pub open spec fn is_field(text: Seq<char>) -> bool {
    !text.contains(':') && !text.contains('\n')
}

/// Read by its lines and its fields, the user database has two users.  The first has the name, the
/// number, the group and the shell of the user.
pub proof fn law_passwd_fields(info: UserInfo)
    requires
        is_field(info.user.name@),
        is_field(info.shell@),
    ensures
        ({
            let lines = split(passwd_text(info), '\n');
            let fields = split(lines[0], ':');
            &&& lines.len() == 3
            &&& lines[1] == "nobody:x:65534:65534:nobody:/var/empty:/bin/false"@
            &&& lines[2].len() == 0
            &&& fields.len() == 7
            &&& fields[0] == info.user.name@
            &&& fields[1] == "x"@
            &&& is_number(fields[2], info.user.id as nat)
            &&& is_number(fields[3], info.group.id as nat)
            &&& fields[4] == "user"@
            &&& fields[5] == "/home"@
            &&& fields[6] == info.shell@
        }),
{
    let name = info.user.name@;
    let uid = decimal(info.user.id as nat);
    let gid = decimal(info.group.id as nat);
    let shell = info.shell@;
    lemma_number(info.user.id as nat);
    lemma_number(info.group.id as nat);
    reveal_strlit(":x:");
    reveal_strlit(":");
    reveal_strlit("x");
    reveal_strlit("user");
    reveal_strlit("/home");
    reveal_strlit(":user:/home:");
    reveal_strlit("\n");
    reveal_strlit("nobody:x:65534:65534:nobody:/var/empty:/bin/false\n");
    reveal_strlit("nobody:x:65534:65534:nobody:/var/empty:/bin/false");
    let second = "nobody:x:65534:65534:nobody:/var/empty:/bin/false"@;
    let none = Seq::<char>::empty();
    let f5 = "/home"@.push(':') + shell;
    let f4 = "user"@.push(':') + f5;
    let f3 = gid.push(':') + f4;
    let f2 = uid.push(':') + f3;
    let f1 = "x"@.push(':') + f2;
    let line = name.push(':') + f1;
    let tail = second.push('\n') + none;
    assert(passwd_text(info) =~= line.push('\n') + tail);
    lemma_no_line_end("/home"@, shell);
    lemma_no_line_end("user"@, f5);
    lemma_no_line_end(gid, f4);
    lemma_no_line_end(uid, f3);
    lemma_no_line_end("x"@, f2);
    lemma_no_line_end(name, f1);
    law_split_one(line, '\n');
    law_split_one(second, '\n');
    law_split_concat(second, '\n', none);
    law_split_concat(line, '\n', tail);
    assert(split(none, '\n') =~= seq![none]);
    assert(split(passwd_text(info), '\n') =~= seq![line, second, none]);
    law_split_one(name, ':');
    law_split_one("x"@, ':');
    law_split_one(uid, ':');
    law_split_one(gid, ':');
    law_split_one("user"@, ':');
    law_split_one("/home"@, ':');
    law_split_one(shell, ':');
    law_split_concat("/home"@, ':', shell);
    law_split_concat("user"@, ':', f5);
    law_split_concat(gid, ':', f4);
    law_split_concat(uid, ':', f3);
    law_split_concat("x"@, ':', f2);
    law_split_concat(name, ':', f1);
    assert(split(line, ':') =~= seq![name, "x"@, uid, gid, "user"@, "/home"@, shell]);
}

/// Two texts without the end of a line have none with a colon between them.
proof fn lemma_no_line_end(a: Seq<char>, b: Seq<char>)
    requires
        !a.contains('\n'),
        !b.contains('\n'),
    ensures
        !(a.push(':') + b).contains('\n'),
{
    let all = a.push(':') + b;
    if all.contains('\n') {
        let i = choose|i: int| 0 <= i < all.len() && all[i] == '\n';
        if i < a.len() {
            assert(a.contains(a[i]));
        } else if i > a.len() {
            assert(b.contains(b[i - a.len() - 1]));
        }
    }
}

/// Read by its lines and its fields, the group database has two groups, and the user is in both.
/// The first has the name and the number of the group of the user.
pub proof fn law_group_fields(info: UserInfo)
    requires
        is_field(info.user.name@),
        is_field(info.group.name@),
    ensures
        ({
            let lines = split(group_text(info), '\n');
            let fields = split(lines[0], ':');
            let second = split(lines[1], ':');
            &&& lines.len() == 3
            &&& lines[2].len() == 0
            &&& fields.len() == 4
            &&& fields[0] == info.group.name@
            &&& fields[1] == "x"@
            &&& is_number(fields[2], info.group.id as nat)
            &&& fields[3] == info.user.name@
            &&& second.len() == 4
            &&& second[0] == "nobody"@
            &&& second[1] == "x"@
            &&& second[2] == "65534"@
            &&& second[3] == info.user.name@
        }),
{
    let name = info.user.name@;
    let group = info.group.name@;
    let gid = decimal(info.group.id as nat);
    lemma_number(info.group.id as nat);
    reveal_strlit(":x:");
    reveal_strlit(":");
    reveal_strlit("x");
    reveal_strlit("\n");
    reveal_strlit("nobody");
    reveal_strlit("65534");
    reveal_strlit("nobody:x:65534:");
    let none = Seq::<char>::empty();
    let f2 = gid.push(':') + name;
    let f1 = "x"@.push(':') + f2;
    let line = group.push(':') + f1;
    let s2 = "65534"@.push(':') + name;
    let s1 = "x"@.push(':') + s2;
    let second = "nobody"@.push(':') + s1;
    let tail = second.push('\n') + none;
    assert(group_text(info) =~= line.push('\n') + tail);
    lemma_no_line_end(gid, name);
    lemma_no_line_end("x"@, f2);
    lemma_no_line_end(group, f1);
    lemma_no_line_end("65534"@, name);
    lemma_no_line_end("x"@, s2);
    lemma_no_line_end("nobody"@, s1);
    law_split_one(line, '\n');
    law_split_one(second, '\n');
    law_split_concat(second, '\n', none);
    law_split_concat(line, '\n', tail);
    assert(split(none, '\n') =~= seq![none]);
    assert(split(group_text(info), '\n') =~= seq![line, second, none]);
    law_split_one(name, ':');
    law_split_one(group, ':');
    law_split_one("x"@, ':');
    law_split_one(gid, ':');
    law_split_one("65534"@, ':');
    law_split_one("nobody"@, ':');
    law_split_concat(gid, ':', name);
    law_split_concat("x"@, ':', f2);
    law_split_concat(group, ':', f1);
    law_split_concat("65534"@, ':', name);
    law_split_concat("x"@, ':', s2);
    law_split_concat("nobody"@, ':', s1);
    assert(split(line, ':') =~= seq![group, "x"@, gid, name]);
    assert(split(second, ':') =~= seq!["nobody"@, "x"@, "65534"@, name]);
}

} // verus!
