use nsbox::sys::{self, GroupEntry, MountFlag, Namespace, PasswdEntry, UmountFlag};
use nsbox::utils::{self, Forked};

const ALL_FLAGS: [(MountFlag, libc::c_ulong); 7] = [
    (MountFlag::Readonly, libc::MS_RDONLY),
    (MountFlag::NoExec, libc::MS_NOEXEC),
    (MountFlag::NoSuid, libc::MS_NOSUID),
    (MountFlag::NoDev, libc::MS_NODEV),
    (MountFlag::Recursive, libc::MS_REC),
    (MountFlag::Silent, libc::MS_SILENT),
    (MountFlag::Private, libc::MS_PRIVATE),
];

const ALL_NAMESPACES: [(Namespace, i32); 6] = [
    (Namespace::Pid, libc::CLONE_NEWPID),
    (Namespace::Mount, libc::CLONE_NEWNS),
    (Namespace::User, libc::CLONE_NEWUSER),
    (Namespace::Network, libc::CLONE_NEWNET),
    (Namespace::Uts, libc::CLONE_NEWUTS),
    (Namespace::Ipc, libc::CLONE_NEWIPC),
];

#[test]
fn each_mount_flag() {
    for (flag, bit) in ALL_FLAGS {
        let call = sys::mount(None, "/t", Some("tmpfs"), &vec![flag], None);
        assert_eq!(call.flags, bit as u64);
        let bind = sys::mount(None, "/t", None, &vec![flag], None);
        assert_eq!(bind.flags, (bit | libc::MS_BIND) as u64);
        assert_eq!(utils::mount(None, "/t", Some("tmpfs"), &vec![flag]).call.flags, bit as u64);
    }
}

#[test]
fn mount_flags_in_any_order() {
    let a = vec![MountFlag::NoSuid, MountFlag::NoDev, MountFlag::Recursive];
    let b = vec![MountFlag::Recursive, MountFlag::NoSuid, MountFlag::NoDev, MountFlag::NoSuid];
    let x = sys::mount(None, "/t", Some("tmpfs"), &a, None);
    let y = sys::mount(None, "/t", Some("tmpfs"), &b, None);
    assert_eq!(x.flags, 0x4006);
    assert_eq!(x.flags, y.flags);
}

#[test]
fn mount_arguments() {
    let call = sys::mount(None, "/t", Some("devpts"), &vec![], Some("mode=620"));
    assert_eq!(call.source, "/t");
    assert_eq!(call.target, "/t");
    assert_eq!(call.fs.as_deref(), Some("devpts"));
    assert_eq!(call.data.as_deref(), Some("mode=620"));
    assert_eq!(call.flags, 0);
    let call = sys::mount(Some("/s"), "/t", None, &vec![], None);
    assert_eq!(call.source, "/s");
    assert_eq!(call.fs, None);
    assert_eq!(call.data, None);
    assert_eq!(call.flags, 0x1000);
}

#[test]
fn names_of_mount_flags() {
    let named = utils::mount(Some("/s"), "/t", None, &vec![MountFlag::Recursive, MountFlag::Silent]);
    assert_eq!(named.names, "Bind, Recursive, Silent");
    assert_eq!(named.call.source, "/s");
    assert_eq!(named.call.flags, 0xd000);
    let named = utils::mount(None, "/t", Some("tmpfs"), &vec![MountFlag::NoSuid]);
    assert_eq!(named.names, "NoSuid");
    assert_eq!(named.call.source, "/t");
    assert_eq!(utils::mount(None, "/t", Some("tmpfs"), &vec![]).names, "");
    assert_eq!(utils::mount(None, "/t", None, &vec![]).names, "Bind");
    let all: Vec<MountFlag> = ALL_FLAGS.iter().map(|(flag, _)| *flag).collect();
    assert_eq!(
        utils::mount(None, "/t", Some("x"), &all).names,
        "Readonly, NoExec, NoSuid, NoDev, Recursive, Silent, Private"
    );
}

#[test]
fn unmounting() {
    assert_eq!(sys::umount2("/t", &vec![]).flags, 0);
    let call = sys::umount2("/t", &vec![UmountFlag::Detach, UmountFlag::Detach]);
    assert_eq!(call.flags, libc::MNT_DETACH);
    assert_eq!(call.path, "/t");
    let call = utils::umount2("/t", &vec![UmountFlag::Detach]);
    assert_eq!(call.flags, 2);
    assert_eq!(call.path, "/t");
}

#[test]
fn changing_the_root() {
    let call = sys::pivot_root("/n", "/o");
    assert_eq!((call.new_root.as_str(), call.old_root.as_str()), ("/n", "/o"));
    let call = utils::pivot_root("/n", "/o");
    assert_eq!((call.new_root.as_str(), call.old_root.as_str()), ("/n", "/o"));
}

#[test]
fn each_namespace() {
    let mut all = 0;
    for (namespace, bit) in ALL_NAMESPACES {
        assert_eq!(sys::unshare(&vec![namespace]), bit);
        assert_eq!(utils::unshare(&vec![namespace]), bit);
        all |= bit;
    }
    let list: Vec<Namespace> = ALL_NAMESPACES.iter().map(|(n, _)| *n).collect();
    assert_eq!(sys::unshare(&list), all);
    assert_eq!(utils::unshare(&list), 0x7c020000);
    assert_eq!(sys::unshare(&vec![]), 0);
}

#[test]
fn id_maps() {
    let writes = sys::write_uid_gid_map(1000, 0);
    let all: Vec<(&str, &str, bool)> =
        writes.iter().map(|w| (w.path.as_str(), w.content.as_str(), w.optional)).collect();
    assert_eq!(
        all,
        vec![
            ("/proc/self/setgroups", "deny\n", true),
            ("/proc/self/uid_map", "1000 1000 1\n", false),
            ("/proc/self/gid_map", "0 0 1\n", false),
        ]
    );
    let writes = utils::write_uid_gid_map(u32::MAX, 10);
    let all: Vec<(&str, &str, bool)> =
        writes.iter().map(|w| (w.path.as_str(), w.content.as_str(), w.optional)).collect();
    assert_eq!(
        all,
        vec![
            ("/proc/self/setgroups", "deny\n", false),
            ("/proc/self/uid_map", "4294967295 4294967295 1\n", false),
            ("/proc/self/gid_map", "10 10 1\n", false),
        ]
    );
}

#[test]
fn decimal_notation() {
    for n in [0, 1, 9, 10, 99, 100, 65534, 1_000_000, u32::MAX] {
        assert_eq!(nsbox::text::decimal_text(n), n.to_string());
    }
}

#[test]
fn user_information() {
    let user = PasswdEntry { name: "ann".to_string(), gid: 20, shell: "/bin/sh".to_string() };
    assert_eq!(sys::group_of(&user), 20);
    let group = GroupEntry { gid: 20, name: "staff".to_string() };
    let info = sys::get_user_info(10, user, group);
    assert_eq!((info.user.id, info.user.name.as_str()), (10, "ann"));
    assert_eq!((info.group.id, info.group.name.as_str()), (20, "staff"));
    assert_eq!(info.shell, "/bin/sh");
}

#[test]
fn sides_of_a_fork() {
    assert_eq!(utils::fork(-1), Forked::Failed);
    assert_eq!(utils::fork(0), Forked::Child);
    assert_eq!(utils::fork(42), Forked::Parent { pid: 42 });
}
