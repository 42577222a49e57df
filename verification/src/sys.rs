//! The arguments of the system calls that set up a container.
use vstd::prelude::*;

use crate::kernel::{
    clone_newipc, clone_newnet, clone_newns, clone_newpid, clone_newuser, clone_newuts,
    mnt_detach, ms_bind, ms_nodev, ms_noexec, ms_nosuid, ms_private, ms_rdonly, ms_rec, ms_silent,
    CLONE_NEWIPC, CLONE_NEWNET, CLONE_NEWNS, CLONE_NEWPID, CLONE_NEWUSER, CLONE_NEWUTS, MNT_DETACH,
    MS_BIND, MS_NODEV, MS_NOEXEC, MS_NOSUID, MS_PRIVATE, MS_RDONLY, MS_REC, MS_SILENT,
};
use crate::address::{all_digits, is_digit, law_decimal_value, value};
use crate::text::{
    decimal, decimal_text, law_split_concat, law_split_one, opt_owned, opt_string_text, opt_text,
    split,
};

verus! {

/// How something is unmounted.
#[derive(Debug, PartialEq, Eq, Structural, Copy, Clone)]
pub enum UmountFlag {
    Detach,
}

/// How something is mounted.
#[derive(Debug, PartialEq, Eq, Structural, Copy, Clone)]
pub enum MountFlag {
    Readonly,
    NoExec,
    NoSuid,
    NoDev,
    Recursive,
    Silent,
    Private,
}

/// What a process can have apart from the others.
#[derive(Debug, PartialEq, Eq, Structural, Copy, Clone)]
pub enum Namespace {
    Pid,
    Mount,
    User,
    Network,
    /// A separate host name.
    Uts,
    Ipc,
}

impl UmountFlag {
    pub open spec fn bit(self) -> i32 {
        match self {
            UmountFlag::Detach => MNT_DETACH,
        }
    }
}

impl MountFlag {
    pub open spec fn bit(self) -> u64 {
        match self {
            MountFlag::Readonly => MS_RDONLY,
            MountFlag::NoExec => MS_NOEXEC,
            MountFlag::NoSuid => MS_NOSUID,
            MountFlag::NoDev => MS_NODEV,
            MountFlag::Recursive => MS_REC,
            MountFlag::Silent => MS_SILENT,
            MountFlag::Private => MS_PRIVATE,
        }
    }
}

impl Namespace {
    pub open spec fn bit(self) -> i32 {
        match self {
            Namespace::Pid => CLONE_NEWPID,
            Namespace::Mount => CLONE_NEWNS,
            Namespace::User => CLONE_NEWUSER,
            Namespace::Network => CLONE_NEWNET,
            Namespace::Uts => CLONE_NEWUTS,
            Namespace::Ipc => CLONE_NEWIPC,
        }
    }
}

/// The union of the bits of some mount flags.
pub open spec fn mount_bits(flags: Seq<MountFlag>) -> u64
    decreases flags.len(),
{
    if flags.len() == 0 {
        0
    } else {
        mount_bits(flags.drop_last()) | flags.last().bit()
    }
}

/// The union of the bits of some unmount flags.
pub open spec fn umount_bits(flags: Seq<UmountFlag>) -> i32
    decreases flags.len(),
{
    if flags.len() == 0 {
        0
    } else {
        umount_bits(flags.drop_last()) | flags.last().bit()
    }
}

/// The union of the bits of some namespaces.
pub open spec fn clone_bits(namespaces: Seq<Namespace>) -> i32
    decreases namespaces.len(),
{
    if namespaces.len() == 0 {
        0
    } else {
        clone_bits(namespaces.drop_last()) | namespaces.last().bit()
    }
}

/// The arguments of a `mount` call.
#[derive(Debug)]
pub struct MountCall {
    pub source: String,
    pub target: String,
    pub fs: Option<String>,
    pub flags: u64,
    pub data: Option<String>,
}

/// What a `MountCall` says.
#[verifier::ext_equal]
pub struct MountArgs {
    pub source: Seq<char>,
    pub target: Seq<char>,
    pub fs: Option<Seq<char>>,
    pub flags: u64,
    pub data: Option<Seq<char>>,
}

impl View for MountCall {
    type V = MountArgs;

    open spec fn view(&self) -> MountArgs {
        MountArgs {
            source: self.source@,
            target: self.target@,
            fs: opt_string_text(self.fs),
            flags: self.flags,
            data: opt_string_text(self.data),
        }
    }
}

/// How something is mounted: what has no file system of its own is shown at another place, and
/// what has no source is mounted from its target.
pub open spec fn mount_args(
    source: Option<Seq<char>>,
    target: Seq<char>,
    fs: Option<Seq<char>>,
    flags: Seq<MountFlag>,
    data: Option<Seq<char>>,
) -> MountArgs {
    MountArgs {
        source: match source {
            Some(source) => source,
            None => target,
        },
        target,
        fs,
        flags: match fs {
            Some(_) => mount_bits(flags),
            None => mount_bits(flags) | MS_BIND,
        },
        data,
    }
}

fn as_mount_flag(flag: MountFlag) -> (bits: u64)
    ensures
        bits == flag.bit(),
{
    match flag {
        MountFlag::Readonly => ms_rdonly(),
        MountFlag::NoExec => ms_noexec(),
        MountFlag::NoSuid => ms_nosuid(),
        MountFlag::NoDev => ms_nodev(),
        MountFlag::Recursive => ms_rec(),
        MountFlag::Silent => ms_silent(),
        MountFlag::Private => ms_private(),
    }
}

/// The arguments with which to mount something.
pub fn mount(
    source: Option<&str>,
    target: &str,
    fs: Option<&str>,
    flags: &Vec<MountFlag>,
    data: Option<&str>,
) -> (call: MountCall)
    ensures
        call@ == mount_args(opt_text(source), target@, opt_text(fs), flags@, opt_text(data)),
{
    let mut combined_flags: u64 = 0;
    let mut i: usize = 0;
    while i < flags.len()
        invariant
            i <= flags.len(),
            combined_flags == mount_bits(flags@.take(i as int)),
        decreases flags.len() - i,
    {
        proof {
            assert(flags@.take(i + 1).drop_last() =~= flags@.take(i as int));
        }
        combined_flags = combined_flags | as_mount_flag(flags[i]);
        i = i + 1;
    }
    proof {
        assert(flags@.take(i as int) =~= flags@);
    }
    if fs.is_none() {
        combined_flags = combined_flags | ms_bind();
    }
    let local_source = match source {
        Some(source) => source,
        None => target,
    };
    MountCall {
        source: local_source.to_owned(),
        target: target.to_owned(),
        fs: opt_owned(fs),
        flags: combined_flags,
        data: opt_owned(data),
    }
}

/// The arguments of an `umount2` call.
#[derive(Debug)]
pub struct UmountCall {
    pub path: String,
    pub flags: i32,
}

/// What an `UmountCall` says.
#[verifier::ext_equal]
pub struct UmountArgs {
    pub path: Seq<char>,
    pub flags: i32,
}

impl View for UmountCall {
    type V = UmountArgs;

    open spec fn view(&self) -> UmountArgs {
        UmountArgs { path: self.path@, flags: self.flags }
    }
}

/// The arguments of a `pivot_root` call.
#[derive(Debug)]
pub struct PivotRootCall {
    pub new_root: String,
    pub old_root: String,
}

/// What a `PivotRootCall` says.
#[verifier::ext_equal]
pub struct PivotRootArgs {
    pub new_root: Seq<char>,
    pub old_root: Seq<char>,
}

impl View for PivotRootCall {
    type V = PivotRootArgs;

    open spec fn view(&self) -> PivotRootArgs {
        PivotRootArgs { new_root: self.new_root@, old_root: self.old_root@ }
    }
}

/// The arguments with which to make `new_root` the root and move the present one to `old_root`.
pub open spec fn pivot_args(new_root: Seq<char>, old_root: Seq<char>) -> PivotRootArgs {
    PivotRootArgs { new_root, old_root }
}

/// The arguments with which to unmount something.
pub open spec fn umount_args(path: Seq<char>, flags: Seq<UmountFlag>) -> UmountArgs {
    UmountArgs { path, flags: umount_bits(flags) }
}

/// The arguments with which to make `new_root` the root and move the present one to `old_root`.
pub fn pivot_root(new_root: &str, old_root: &str) -> (call: PivotRootCall)
    ensures
        call@ == pivot_args(new_root@, old_root@),
{
    PivotRootCall { new_root: new_root.to_owned(), old_root: old_root.to_owned() }
}

/// The arguments with which to unmount something.
pub fn umount2(path: &str, flags: &Vec<UmountFlag>) -> (call: UmountCall)
    ensures
        call@ == umount_args(path@, flags@),
{
    let mut combined_flags: i32 = 0;
    let mut i: usize = 0;
    while i < flags.len()
        invariant
            i <= flags.len(),
            combined_flags == umount_bits(flags@.take(i as int)),
        decreases flags.len() - i,
    {
        proof {
            assert(flags@.take(i + 1).drop_last() =~= flags@.take(i as int));
        }
        let bit = match flags[i] {
            UmountFlag::Detach => mnt_detach(),
        };
        combined_flags = combined_flags | bit;
        i = i + 1;
    }
    proof {
        assert(flags@.take(i as int) =~= flags@);
    }
    UmountCall { path: path.to_owned(), flags: combined_flags }
}

fn as_clone_flag(namespace: Namespace) -> (bits: i32)
    ensures
        bits == namespace.bit(),
{
    match namespace {
        Namespace::Pid => clone_newpid(),
        Namespace::Mount => clone_newns(),
        Namespace::User => clone_newuser(),
        Namespace::Network => clone_newnet(),
        Namespace::Uts => clone_newuts(),
        Namespace::Ipc => clone_newipc(),
    }
}

/// The flags with which to leave the given namespaces.
pub fn unshare(namespaces: &Vec<Namespace>) -> (combined_flags: i32)
    ensures
        combined_flags == clone_bits(namespaces@),
{
    let mut combined_flags: i32 = 0;
    let mut i: usize = 0;
    while i < namespaces.len()
        invariant
            i <= namespaces.len(),
            combined_flags == clone_bits(namespaces@.take(i as int)),
        decreases namespaces.len() - i,
    {
        proof {
            assert(namespaces@.take(i + 1).drop_last() =~= namespaces@.take(i as int));
        }
        combined_flags = combined_flags | as_clone_flag(namespaces[i]);
        i = i + 1;
    }
    proof {
        assert(namespaces@.take(i as int) =~= namespaces@);
    }
    combined_flags
}

/// Something to write to a file that the kernel provides.  Where `optional`, a file that cannot
/// be opened is passed over.
#[derive(Debug)]
pub struct ProcWrite {
    pub path: String,
    pub content: String,
    pub optional: bool,
}

/// What a `ProcWrite` says.
#[verifier::ext_equal]
pub struct ProcText {
    pub path: Seq<char>,
    pub content: Seq<char>,
    pub optional: bool,
}

impl View for ProcWrite {
    type V = ProcText;

    open spec fn view(&self) -> ProcText {
        ProcText { path: self.path@, content: self.content@, optional: self.optional }
    }
}

/// What some writes say.
pub open spec fn proc_texts(writes: Seq<ProcWrite>) -> Seq<ProcText> {
    writes.map_values(|w: ProcWrite| w@)
}

/// The line that maps one id to itself.
pub open spec fn id_map_line(id: u32) -> Seq<char> {
    decimal(id as nat) + " "@ + decimal(id as nat) + " 1\n"@
}

pub(crate) fn id_map_text(id: u32) -> (line: String)
    ensures
        line@ == id_map_line(id),
{
    let mut line = decimal_text(id);
    line.append(" ");
    line.append(decimal_text(id).as_str());
    line.append(" 1\n");
    line
}

/// The writes that map a user and a group to themselves in a new user namespace.
pub open spec fn uid_gid_map(uid: u32, gid: u32) -> Seq<ProcText> {
    seq![
        ProcText { path: "/proc/self/setgroups"@, content: "deny\n"@, optional: true },
        ProcText { path: "/proc/self/uid_map"@, content: id_map_line(uid), optional: false },
        ProcText { path: "/proc/self/gid_map"@, content: id_map_line(gid), optional: false },
    ]
}

/// The writes that map a user and a group to themselves in a new user namespace.
pub fn write_uid_gid_map(uid: u32, gid: u32) -> (writes: Vec<ProcWrite>)
    ensures
        proc_texts(writes@) == uid_gid_map(uid, gid),
{
    let mut writes: Vec<ProcWrite> = Vec::new();
    writes.push(
        ProcWrite {
            path: "/proc/self/setgroups".to_owned(),
            content: "deny\n".to_owned(),
            optional: true,
        },
    );
    writes.push(
        ProcWrite {
            path: "/proc/self/uid_map".to_owned(),
            content: id_map_text(uid),
            optional: false,
        },
    );
    writes.push(
        ProcWrite {
            path: "/proc/self/gid_map".to_owned(),
            content: id_map_text(gid),
            optional: false,
        },
    );
    proof {
        assert(proc_texts(writes@) =~= uid_gid_map(uid, gid));
    }
    writes
}

/// A group, by its number and its name.
#[derive(Debug)]
pub struct Group {
    pub id: u32,
    pub name: String,
}

/// A user, by their number and their name.
#[derive(Debug)]
pub struct User {
    pub id: u32,
    pub name: String,
}

/// A user with their group and the shell that they use.
#[derive(Debug)]
pub struct UserInfo {
    pub user: User,
    pub group: Group,
    pub shell: String,
}

/// What the user database holds of a user.
#[derive(Debug)]
pub struct PasswdEntry {
    pub name: String,
    pub gid: u32,
    pub shell: String,
}

/// What the group database holds of a group.
#[derive(Debug)]
pub struct GroupEntry {
    pub gid: u32,
    pub name: String,
}

/// The group that is looked up for a user.
pub open spec fn group_looked_up(user: PasswdEntry) -> u32 {
    user.gid
}

/// What is known of a user, from what the databases hold of the user and of their group.
pub open spec fn user_info(uid: u32, user: PasswdEntry, group: GroupEntry) -> UserInfo {
    UserInfo {
        user: User { id: uid, name: user.name },
        group: Group { id: group.gid, name: group.name },
        shell: user.shell,
    }
}

/// The group that is looked up for a user: the one that they are in.
pub fn group_of(user: &PasswdEntry) -> (gid: u32)
    ensures
        gid == group_looked_up(*user),
{
    user.gid
}

/// What is known of a user, from what the databases hold of the user and of their group.
pub fn get_user_info(uid: u32, user: PasswdEntry, group: GroupEntry) -> (info: UserInfo)
    ensures
        info == user_info(uid, user, group),
{
    UserInfo {
        shell: user.shell,
        user: User { id: uid, name: user.name },
        group: Group { id: group.gid, name: group.name },
    }
}

/// Whether a number is one of the bits that are used for mounting.
spec fn is_mount_bit(b: u64) -> bool {
    b == 0x1u64 || b == 0x2u64 || b == 0x4u64 || b == 0x8u64 || b == 0x1000u64 || b == 0x4000u64
        || b == 0x8000u64 || b == 0x40000u64
}

proof fn lemma_mount_bit_added(a: u64, b: u64, c: u64)
    by (bit_vector)
    requires
        is_mount_bit(b),
        is_mount_bit(c),
    ensures
        (a | b) & c == c <==> (a & c == c || b == c),
        0u64 & c != c,
{
}

proof fn lemma_mount_bits_tell(flags: Seq<MountFlag>, bit: u64)
    requires
        is_mount_bit(bit),
    ensures
        mount_bits(flags) & bit == bit <==> exists|i: int|
            0 <= i < flags.len() && (#[trigger] flags[i]).bit() == bit,
    decreases flags.len(),
{
    lemma_mount_bit_added(0, bit, bit);
    if flags.len() > 0 {
        lemma_mount_bits_tell(flags.drop_last(), bit);
        lemma_mount_bit_added(mount_bits(flags.drop_last()), flags.last().bit(), bit);
        if exists|i: int|
            0 <= i < flags.drop_last().len() && (#[trigger] flags.drop_last()[i]).bit() == bit {
            let i = choose|i: int|
                0 <= i < flags.drop_last().len() && (#[trigger] flags.drop_last()[i]).bit() == bit;
            assert(flags[i].bit() == bit);
        }
        if exists|i: int| 0 <= i < flags.len() && (#[trigger] flags[i]).bit() == bit {
            let i = choose|i: int| 0 <= i < flags.len() && (#[trigger] flags[i]).bit() == bit;
            if i < flags.len() - 1 {
                assert(flags.drop_last()[i].bit() == bit);
            }
        }
        if flags.last().bit() == bit {
            assert(flags[flags.len() - 1].bit() == bit);
        }
    }
}

/// The flags with which something is mounted are those that were asked for, in whatever order
/// and however often, and the one that shows it at another place where it has no file system of
/// its own.
pub proof fn law_mount_flags(
    source: Option<Seq<char>>,
    target: Seq<char>,
    fs: Option<Seq<char>>,
    flags: Seq<MountFlag>,
    data: Option<Seq<char>>,
    flag: MountFlag,
)
    ensures
        mount_args(source, target, fs, flags, data).flags & flag.bit() == flag.bit()
            <==> flags.contains(flag),
        mount_args(source, target, fs, flags, data).flags & MS_BIND == MS_BIND <==> fs is None,
{
    lemma_mount_bits_tell(flags, flag.bit());
    lemma_mount_bits_tell(flags, MS_BIND);
    lemma_mount_bit_added(mount_bits(flags), MS_BIND, flag.bit());
    lemma_mount_bit_added(mount_bits(flags), MS_BIND, MS_BIND);
    if flags.contains(flag) {
        let i = choose|i: int| 0 <= i < flags.len() && flags[i] == flag;
        assert(flags[i].bit() == flag.bit());
    }
    if exists|i: int| 0 <= i < flags.len() && (#[trigger] flags[i]).bit() == flag.bit() {
        let i = choose|i: int| 0 <= i < flags.len() && (#[trigger] flags[i]).bit() == flag.bit();
        assert(flags[i] == flag);
    }
}

/// Whether a number is one of the bits that stand for a namespace.
spec fn is_clone_bit(b: i32) -> bool {
    b == 0x20000i32 || b == 0x4000000i32 || b == 0x8000000i32 || b == 0x10000000i32 || b
        == 0x20000000i32 || b == 0x40000000i32
}

proof fn lemma_clone_bit_added(a: i32, b: i32, c: i32)
    by (bit_vector)
    requires
        is_clone_bit(b),
        is_clone_bit(c),
    ensures
        (a | b) & c == c <==> (a & c == c || b == c),
        0i32 & c != c,
{
}

/// The flags with which namespaces are left are those of the namespaces that were asked for, in
/// whatever order and however often.
pub proof fn law_unshare_flags(namespaces: Seq<Namespace>, namespace: Namespace)
    ensures
        clone_bits(namespaces) & namespace.bit() == namespace.bit() <==> namespaces.contains(
            namespace,
        ),
    decreases namespaces.len(),
{
    let bit = namespace.bit();
    lemma_clone_bit_added(0, bit, bit);
    if namespaces.len() > 0 {
        let before = namespaces.drop_last();
        law_unshare_flags(before, namespace);
        lemma_clone_bit_added(clone_bits(before), namespaces.last().bit(), bit);
        assert(before.push(namespaces.last()) =~= namespaces);
        if before.contains(namespace) {
            let i = choose|i: int| 0 <= i < before.len() && before[i] == namespace;
            assert(namespaces[i] == namespace);
        }
        if namespaces.last() == namespace {
            assert(namespaces[namespaces.len() - 1] == namespace);
        }
        if namespaces.contains(namespace) && !before.contains(namespace) {
            let i = choose|i: int| 0 <= i < namespaces.len() && namespaces[i] == namespace;
            if i < before.len() {
                assert(before[i] == namespace);
            }
        }
    }
}

/// What is mounted is the source, or the target where there is none; everything else is handed on
/// as it is, and no flag is set that was not asked for.
pub proof fn law_mount_arguments(
    source: Option<Seq<char>>,
    target: Seq<char>,
    fs: Option<Seq<char>>,
    flags: Seq<MountFlag>,
    data: Option<Seq<char>>,
)
    ensures
        ({
            let args = mount_args(source, target, fs, flags, data);
            &&& args.target == target
            &&& args.fs == fs
            &&& args.data == data
            &&& source matches Some(s) ==> args.source == s
            &&& source is None ==> args.source == target
            &&& args.flags & !0x4d00fu64 == 0
            &&& fs is Some ==> args.flags & !0x4c00fu64 == 0
        }),
{
    lemma_mount_bits_within(flags);
    let bits = mount_bits(flags);
    assert(bits & !0x4c00fu64 == 0 ==> bits & !0x4d00fu64 == 0 && (bits | 0x1000u64) & !0x4d00fu64
        == 0) by (bit_vector);
}

proof fn lemma_mount_bits_within(flags: Seq<MountFlag>)
    ensures
        mount_bits(flags) & !0x4c00fu64 == 0,
    decreases flags.len(),
{
    if flags.len() > 0 {
        lemma_mount_bits_within(flags.drop_last());
        let a = mount_bits(flags.drop_last());
        let b = flags.last().bit();
        assert(a & !0x4c00fu64 == 0 && (b == 0x1u64 || b == 0x2u64 || b == 0x4u64 || b == 0x8u64
            || b == 0x4000u64 || b == 0x8000u64 || b == 0x40000u64) ==> (a | b) & !0x4c00fu64 == 0)
            by (bit_vector);
    } else {
        assert(0u64 & !0x4c00fu64 == 0) by (bit_vector);
    }
}

/// No flag is set but those of namespaces.
pub proof fn law_unshare_nothing_else(namespaces: Seq<Namespace>)
    ensures
        clone_bits(namespaces) & !0x7c020000i32 == 0,
    decreases namespaces.len(),
{
    if namespaces.len() > 0 {
        law_unshare_nothing_else(namespaces.drop_last());
        let a = clone_bits(namespaces.drop_last());
        let b = namespaces.last().bit();
        assert(a & !0x7c020000i32 == 0 && is_clone_bit(b) ==> (a | b) & !0x7c020000i32 == 0)
            by (bit_vector);
    } else {
        assert(0i32 & !0x7c020000i32 == 0) by (bit_vector);
    }
}

/// Something is unmounted by its path, and detached exactly where that was asked for; roots are
/// changed in the order given.
pub proof fn law_unmount_and_pivot(
    path: Seq<char>,
    flags: Seq<UmountFlag>,
    new_root: Seq<char>,
    old_root: Seq<char>,
)
    ensures
        umount_args(path, flags).path == path,
        umount_args(path, flags).flags == if flags.len() > 0 {
            2i32
        } else {
            0i32
        },
        pivot_args(new_root, old_root).new_root == new_root,
        pivot_args(new_root, old_root).old_root == old_root,
    decreases flags.len(),
{
    if flags.len() > 0 {
        law_unmount_and_pivot(path, flags.drop_last(), new_root, old_root);
        assert(0i32 | 2i32 == 2i32 && 2i32 | 2i32 == 2i32) by (bit_vector);
    }
}

/// The group of a user is the one in the user's entry.  What is known of them has their number,
/// name and shell, and the number and name of the group that was found.
pub proof fn law_user_info(uid: u32, user: PasswdEntry, group: GroupEntry)
    ensures
        group_looked_up(user) == user.gid,
        user_info(uid, user, group).user.id == uid,
        user_info(uid, user, group).user.name@ == user.name@,
        user_info(uid, user, group).shell@ == user.shell@,
        user_info(uid, user, group).group.id == group.gid,
        user_info(uid, user, group).group.name@ == group.name@,
{
}

/// Whether a text is one line of three numbers: an id, the same again, and one.
pub open spec fn maps_to_itself(content: Seq<char>, id: u32) -> bool {
    let lines = split(content, '\n');
    let fields = split(lines[0], ' ');
    &&& lines.len() == 2
    &&& lines[1].len() == 0
    &&& fields.len() == 3
    &&& fields[0].len() > 0 && all_digits(fields[0]) && value(fields[0]) == id
    &&& fields[0][0] == '0' ==> id == 0 && fields[0].len() == 1
    &&& fields[1] == fields[0]
    &&& fields[2] == seq!['1']
}

/// The line that maps an id reads as that id, the same again, and one.
pub proof fn law_id_map_line(id: u32)
    ensures
        maps_to_itself(id_map_line(id), id),
{
    let d = decimal(id as nat);
    law_decimal_value(id as nat);
    reveal_strlit(" ");
    reveal_strlit(" 1\n");
    assert(!d.contains(' ') && !d.contains('\n')) by {
        if d.contains(' ') {
            let i = choose|i: int| 0 <= i < d.len() && d[i] == ' ';
            assert(is_digit(d[i]));
        }
        if d.contains('\n') {
            let i = choose|i: int| 0 <= i < d.len() && d[i] == '\n';
            assert(is_digit(d[i]));
        }
    }
    let one = seq!['1'];
    let tail = d.push(' ') + one;
    let line = d.push(' ') + tail;
    let none = Seq::<char>::empty();
    assert(id_map_line(id) =~= line.push('\n') + none);
    assert(!line.contains('\n')) by {
        if line.contains('\n') {
            let i = choose|i: int| 0 <= i < line.len() && line[i] == '\n';
            if i < d.len() {
                assert(d.contains(d[i]));
            } else if i > d.len() && i < 2 * d.len() + 1 {
                assert(d.contains(d[i - d.len() - 1]));
            }
        }
    }
    law_split_one(line, '\n');
    law_split_concat(line, '\n', none);
    assert(split(none, '\n') =~= seq![none]);
    assert(split(id_map_line(id), '\n') =~= seq![line, none]);
    law_split_one(d, ' ');
    law_split_one(one, ' ');
    law_split_concat(d, ' ', one);
    law_split_concat(d, ' ', tail);
    assert(split(line, ' ') =~= seq![d, d, one]);
}

/// For every user and group, setting groups is denied first; then the user is mapped to itself, and
/// the group is, each once.  Only the file for setting groups may be missing.
pub proof fn law_uid_gid_map(uid: u32, gid: u32)
    ensures
        ({
            let writes = uid_gid_map(uid, gid);
            &&& writes.len() == 3
            &&& writes[0].path == "/proc/self/setgroups"@
            &&& writes[0].content == "deny\n"@
            &&& writes[1].path == "/proc/self/uid_map"@
            &&& maps_to_itself(writes[1].content, uid)
            &&& writes[2].path == "/proc/self/gid_map"@
            &&& maps_to_itself(writes[2].content, gid)
            &&& forall|i: int| 0 <= i < 3 ==> ((#[trigger] writes[i]).optional <==> i == 0)
        }),
{
    law_id_map_line(uid);
    law_id_map_line(gid);
}

/// A call says its arguments, and nothing else.
pub proof fn law_calls_say(
    mount: MountCall,
    umount: UmountCall,
    pivot: PivotRootCall,
    write: ProcWrite,
)
    ensures
        mount@.source == mount.source@,
        mount@.target == mount.target@,
        mount@.flags == mount.flags,
        mount.fs is None <==> mount@.fs is None,
        mount.fs matches Some(fs) ==> mount@.fs == Some(fs@),
        mount.data is None <==> mount@.data is None,
        mount.data matches Some(data) ==> mount@.data == Some(data@),
        umount@.path == umount.path@,
        umount@.flags == umount.flags,
        pivot@.new_root == pivot.new_root@,
        pivot@.old_root == pivot.old_root@,
        write@.path == write.path@,
        write@.content == write.content@,
        write@.optional == write.optional,
{
}

/// Writes say what each of them says, in order.
pub proof fn law_writes_say(writes: Seq<ProcWrite>)
    ensures
        proc_texts(writes).len() == writes.len(),
        forall|i: int| 0 <= i < writes.len() ==> #[trigger] proc_texts(writes)[i] == writes[i]@,
{
}

} // verus!
