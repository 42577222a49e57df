//! The arguments of the system calls that set up a container, for callers that pass them to C.
//!
//! A string that goes to C ends at its first null character, so none may hold one.
use vstd::prelude::*;

use crate::kernel::{
    libc_clone_newipc, libc_clone_newnet, libc_clone_newns, libc_clone_newpid, libc_clone_newuser,
    libc_clone_newuts, libc_mnt_detach, ms_bind, ms_nodev, ms_noexec, ms_nosuid, ms_private,
    ms_rdonly, ms_rec, ms_silent, MS_BIND,
};
use crate::sys::{
    clone_bits, id_map_line, id_map_text, law_id_map_line, maps_to_itself, mount_args, mount_bits,
    pivot_args, proc_texts, umount_args, umount_bits, MountCall, MountFlag, Namespace,
    PivotRootCall, ProcText, ProcWrite, UmountCall, UmountFlag,
};
use crate::text::{opt_owned, opt_text};

verus! {

/// Whether a string can be passed to C.
pub open spec fn is_c_text(s: Seq<char>) -> bool {
    !s.contains('\0')
}

/// The arguments with which to make `new_root` the root and move the present one to `old_root`.
pub fn pivot_root(new_root: &str, old_root: &str) -> (call: PivotRootCall)
    requires
        is_c_text(new_root@),
        is_c_text(old_root@),
    ensures
        call@ == pivot_args(new_root@, old_root@),
{
    PivotRootCall { new_root: new_root.to_owned(), old_root: old_root.to_owned() }
}

/// The arguments with which to unmount something.
pub fn umount2(path: &str, flags: &Vec<UmountFlag>) -> (call: UmountCall)
    requires
        is_c_text(path@),
    ensures
        call@ == umount_args(path@, flags@),
{
    let mut combined_flags: i32 = 0;
    let mut i: usize = 0;
    while i < flags.len()
        invariant
            i <= flags.len(),
            combined_flags == umount_bits(flags@.take(i as int)),
        decreases flags.len() - i,
    {
        proof {
            assert(flags@.take(i + 1).drop_last() =~= flags@.take(i as int));
        }
        let bit = match flags[i] {
            UmountFlag::Detach => libc_mnt_detach(),
        };
        combined_flags = combined_flags | bit;
        i = i + 1;
    }
    proof {
        assert(flags@.take(i as int) =~= flags@);
    }
    UmountCall { path: path.to_owned(), flags: combined_flags }
}

/// The name of a flag.
pub open spec fn flag_name(flag: MountFlag) -> Seq<char> {
    match flag {
        MountFlag::Readonly => "Readonly"@,
        MountFlag::NoExec => "NoExec"@,
        MountFlag::NoSuid => "NoSuid"@,
        MountFlag::NoDev => "NoDev"@,
        MountFlag::Recursive => "Recursive"@,
        MountFlag::Silent => "Silent"@,
        MountFlag::Private => "Private"@,
    }
}

/// Names with a comma and a space between them.
pub open spec fn listing(names: Seq<Seq<char>>) -> Seq<char>
    decreases names.len(),
{
    if names.len() == 0 {
        seq![]
    } else if names.len() == 1 {
        names[0]
    } else {
        listing(names.drop_last()) + ", "@ + names.last()
    }
}

/// The names of the flags with which something is mounted.
pub open spec fn mount_names(fs: Option<Seq<char>>, flags: Seq<MountFlag>) -> Seq<Seq<char>> {
    (match fs {
        Some(_) => seq![],
        None => seq!["Bind"@],
    }) + flags.map_values(|flag: MountFlag| flag_name(flag))
}

/// A `mount` call, and the names of its flags for the log.
#[derive(Debug)]
pub struct NamedMount {
    pub call: MountCall,
    pub names: String,
}

fn flag_bits_and_name(flag: MountFlag) -> (r: (u64, &'static str))
    ensures
        r.0 == flag.bit(),
        r.1@ == flag_name(flag),
{
    match flag {
        MountFlag::Readonly => (ms_rdonly(), "Readonly"),
        MountFlag::NoExec => (ms_noexec(), "NoExec"),
        MountFlag::NoSuid => (ms_nosuid(), "NoSuid"),
        MountFlag::NoDev => (ms_nodev(), "NoDev"),
        MountFlag::Recursive => (ms_rec(), "Recursive"),
        MountFlag::Silent => (ms_silent(), "Silent"),
        MountFlag::Private => (ms_private(), "Private"),
    }
}

/// The arguments with which to mount something.
pub fn mount(
    source: Option<&str>,
    target: &str,
    fs: Option<&str>,
    flags: &Vec<MountFlag>,
) -> (r: NamedMount)
    requires
        source matches Some(source) ==> is_c_text(source@),
        is_c_text(target@),
        fs matches Some(fs) ==> is_c_text(fs@),
    ensures
        r.call@ == mount_args(opt_text(source), target@, opt_text(fs), flags@, None),
        r.names@ == listing(mount_names(opt_text(fs), flags@)),
{
    let mut combined_flags: u64 = 0;
    let mut combined_names = String::new();
    let mut empty = true;
    let ghost start: u64 = if fs is None {
        MS_BIND
    } else {
        0
    };
    let ghost all = mount_names(opt_text(fs), flags@);
    let ghost lead: int = if fs is None {
        1
    } else {
        0
    };
    if fs.is_none() {
        combined_flags = combined_flags | ms_bind();
        combined_names.append("Bind");
        empty = false;
    }
    proof {
        assert(0u64 | MS_BIND == MS_BIND) by (bit_vector);
        assert(start | 0 == start) by (bit_vector);
        assert(combined_names@ =~= listing(all.take(lead)));
    }
    let mut i: usize = 0;
    while i < flags.len()
        invariant
            i <= flags.len(),
            lead == if fs is None {
                1int
            } else {
                0int
            },
            all == mount_names(opt_text(fs), flags@),
            combined_flags == start | mount_bits(flags@.take(i as int)),
            combined_names@ == listing(all.take(lead + i)),
            empty == (lead + i == 0),
        decreases flags.len() - i,
    {
        let (bits, name) = flag_bits_and_name(flags[i]);
        proof {
            let before = mount_bits(flags@.take(i as int));
            assert(flags@.take(i + 1).drop_last() =~= flags@.take(i as int));
            assert((start | before) | bits == start | (before | bits)) by (bit_vector);
            let more = all.take(lead + i + 1);
            assert(more.drop_last() =~= all.take(lead + i));
            assert(more.last() == name@);
        }
        combined_flags = combined_flags | bits;
        if empty {
            proof {
                assert(combined_names@ + name@ =~= name@);
            }
        } else {
            combined_names.append(", ");
        }
        combined_names.append(name);
        empty = false;
        i = i + 1;
    }
    proof {
        assert(flags@.take(i as int) =~= flags@);
        assert(all.take(lead + i) =~= all);
        let bits = mount_bits(flags@);
        assert(start | bits == bits | start) by (bit_vector);
        assert(bits | 0 == bits) by (bit_vector);
    }
    let local_source = match source {
        Some(source) => source,
        None => target,
    };
    let call = MountCall {
        source: local_source.to_owned(),
        target: target.to_owned(),
        fs: opt_owned(fs),
        flags: combined_flags,
        data: None,
    };
    NamedMount { call, names: combined_names }
}

/// The writes that map a user and a group to themselves in a new user namespace.  None of the
/// files may be missing.
pub fn write_uid_gid_map(uid: u32, gid: u32) -> (writes: Vec<ProcWrite>)
    ensures
        proc_texts(writes@) == uid_gid_map(uid, gid),
{
    let mut writes: Vec<ProcWrite> = Vec::new();
    writes.push(proc_write("setgroups", "deny\n".to_owned()));
    writes.push(proc_write("uid_map", id_map_text(uid)));
    writes.push(proc_write("gid_map", id_map_text(gid)));
    proof {
        assert(proc_texts(writes@) =~= uid_gid_map(uid, gid));
    }
    writes
}

/// A write to a file that describes the process.
pub open spec fn proc_self(name: Seq<char>, content: Seq<char>) -> ProcText {
    ProcText { path: "/proc/self/"@ + name, content, optional: false }
}

fn proc_write(name: &str, content: String) -> (write: ProcWrite)
    ensures
        write@ == proc_self(name@, content@),
{
    let mut path = "/proc/self/".to_owned();
    path.append(name);
    ProcWrite { path, content, optional: false }
}

/// The writes that map a user and a group to themselves in a new user namespace.
pub open spec fn uid_gid_map(uid: u32, gid: u32) -> Seq<ProcText> {
    seq![
        proc_self("setgroups"@, "deny\n"@),
        proc_self("uid_map"@, id_map_line(uid)),
        proc_self("gid_map"@, id_map_line(gid)),
    ]
}

/// The flags with which to leave the given namespaces.
pub fn unshare(namespaces: &Vec<Namespace>) -> (combined_flags: i32)
    ensures
        combined_flags == clone_bits(namespaces@),
{
    let mut combined_flags: i32 = 0;
    let mut i: usize = 0;
    while i < namespaces.len()
        invariant
            i <= namespaces.len(),
            combined_flags == clone_bits(namespaces@.take(i as int)),
        decreases namespaces.len() - i,
    {
        proof {
            assert(namespaces@.take(i + 1).drop_last() =~= namespaces@.take(i as int));
        }
        let bit = match namespaces[i] {
            Namespace::Pid => libc_clone_newpid(),
            Namespace::Mount => libc_clone_newns(),
            Namespace::User => libc_clone_newuser(),
            Namespace::Network => libc_clone_newnet(),
            Namespace::Uts => libc_clone_newuts(),
            Namespace::Ipc => libc_clone_newipc(),
        };
        combined_flags = combined_flags | bit;
        i = i + 1;
    }
    proof {
        assert(namespaces@.take(i as int) =~= namespaces@);
    }
    combined_flags
}

/// On which side of a `fork` one is.
#[derive(Debug, PartialEq, Eq, Structural, Copy, Clone)]
pub enum Forked {
    /// There is no child.
    Failed,
    /// Run the body of the child, then exit.
    Child,
    /// Go on; the child has this number.
    Parent { pid: i32 },
}

/// What the number that `fork` returned means.
pub open spec fn side(ret: i32) -> Forked {
    if ret == -1 {
        Forked::Failed
    } else if ret == 0 {
        Forked::Child
    } else {
        Forked::Parent { pid: ret }
    }
}

/// What the number that `fork` returned means.
pub fn fork(ret: i32) -> (r: Forked)
    ensures
        r == side(ret),
{
    if ret == -1 {
        return Forked::Failed;
    }
    if ret == 0 {
        return Forked::Child;
    }
    Forked::Parent { pid: ret }
}

/// There is no child exactly where the number is -1, one is the child exactly where it is 0, and
/// the number of the child is the number otherwise.
pub proof fn law_fork_sides(ret: i32)
    ensures
        side(ret) is Failed <==> ret == -1,
        side(ret) is Child <==> ret == 0,
        side(ret) matches Forked::Parent { pid } ==> pid == ret,
{
}

/// For every user and group, setting groups is denied first; then the user is mapped to itself, and
/// the group is, each once.  None of the files may be missing.
pub proof fn law_uid_gid_map(uid: u32, gid: u32)
    ensures
        ({
            let writes = uid_gid_map(uid, gid);
            &&& writes.len() == 3
            &&& writes[0].path == "/proc/self/setgroups"@
            &&& writes[0].content == "deny\n"@
            &&& writes[1].path == "/proc/self/uid_map"@
            &&& maps_to_itself(writes[1].content, uid)
            &&& writes[2].path == "/proc/self/gid_map"@
            &&& maps_to_itself(writes[2].content, gid)
            &&& forall|i: int| 0 <= i < 3 ==> !(#[trigger] writes[i]).optional
        }),
{
    law_id_map_line(uid);
    law_id_map_line(gid);
    reveal_strlit("/proc/self/");
    reveal_strlit("setgroups");
    reveal_strlit("uid_map");
    reveal_strlit("gid_map");
    reveal_strlit("/proc/self/setgroups");
    reveal_strlit("/proc/self/uid_map");
    reveal_strlit("/proc/self/gid_map");
    assert("/proc/self/"@ + "setgroups"@ =~= "/proc/self/setgroups"@);
    assert("/proc/self/"@ + "uid_map"@ =~= "/proc/self/uid_map"@);
    assert("/proc/self/"@ + "gid_map"@ =~= "/proc/self/gid_map"@);
}

/// The names for the log are those of the flags in order, behind `Bind` where there is no file
/// system, with a comma and a space between any two.
pub proof fn law_names_listed(fs: Option<Seq<char>>, flags: Seq<MountFlag>, flag: MountFlag)
    ensures
        listing(mount_names(Some("tmpfs"@), seq![])) == Seq::<char>::empty(),
        listing(mount_names(None, seq![])) == "Bind"@,
        listing(mount_names(fs, flags.push(flag))) == if fs is Some && flags.len() == 0 {
            flag_name(flag)
        } else {
            listing(mount_names(fs, flags)) + ", "@ + flag_name(flag)
        },
{
    let more = mount_names(fs, flags.push(flag));
    assert(more.drop_last() =~= mount_names(fs, flags));
    assert(more.last() == flag_name(flag));
    assert(mount_names(Some("tmpfs"@), seq![]) =~= seq![]);
    assert(mount_names(None, seq![]) =~= seq!["Bind"@]);
}

/// No two flags have the same name, and each has the name by which it is written.
pub proof fn law_flag_names(a: MountFlag, b: MountFlag)
    ensures
        flag_name(a) == flag_name(b) ==> a == b,
        a is Readonly ==> flag_name(a) == "Readonly"@,
        a is NoExec ==> flag_name(a) == "NoExec"@,
        a is NoSuid ==> flag_name(a) == "NoSuid"@,
        a is NoDev ==> flag_name(a) == "NoDev"@,
        a is Recursive ==> flag_name(a) == "Recursive"@,
        a is Silent ==> flag_name(a) == "Silent"@,
        a is Private ==> flag_name(a) == "Private"@,
{
    reveal_strlit("Readonly");
    reveal_strlit("NoExec");
    reveal_strlit("NoSuid");
    reveal_strlit("NoDev");
    reveal_strlit("Recursive");
    reveal_strlit("Silent");
    reveal_strlit("Private");
    let (x, y) = (flag_name(a), flag_name(b));
    if x == y {
        assert(x.len() == y.len() && x[0] == y[0] && x[2] == y[2]);
    }
}

} // verus!
