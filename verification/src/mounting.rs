//! Mounting the planned partitions under `/tealinux-mount`: the commands
//! to run, in order.  Their outcomes do not change what runs next.
use vstd::prelude::*;
use crate::blueprint::{Partition, PartitionView, Storage, partition_views};
use crate::text::{str_eq, string_from};
use vstd::string::StringExecFns;

verus! {

/// The plan whose partitions are to be mounted.
#[derive(Debug, Clone)]
pub struct MountPoint {
    data: Storage,
}

pub open spec fn mount_root() -> Seq<char> {
    "/tealinux-mount"@
}

pub open spec fn cmd_umount_all() -> Seq<Seq<char>> {
    seq!["umount"@, "--recursive"@, mount_root()]
}

pub open spec fn cmd_mkdir_parents(dir: Seq<char>) -> Seq<Seq<char>> {
    seq!["mkdir"@, "--parents"@, dir]
}

pub open spec fn cmd_mount(path: Seq<char>, target: Seq<char>) -> Seq<Seq<char>> {
    seq!["mount"@, path, target]
}

pub open spec fn cmd_mount_opt(opt: Seq<char>, path: Seq<char>, target: Seq<char>) -> Seq<Seq<char>> {
    seq!["mount"@, "-o"@, opt, path, target]
}

/// The commands that put a Btrfs root on `path`: create the `@` and
/// `@home` subvolumes, then mount them at the root and at `/home`.
pub open spec fn btrfs_commands(path: Seq<char>) -> Seq<Seq<Seq<char>>> {
    seq![
        cmd_mount(path, mount_root()),
        seq!["btrfs"@, "subvolume"@, "create"@, mount_root() + "/@"@],
        seq!["btrfs"@, "subvolume"@, "create"@, mount_root() + "/@home"@],
        seq!["btrfs"@, "subvolume"@, "list"@, mount_root()],
        seq!["umount"@, mount_root()],
        cmd_mount_opt("subvol=@,"@, path, mount_root()),
        seq!["mkdir"@, mount_root() + "/home"@],
        cmd_mount_opt("subvol=@home,"@, path, mount_root() + "/home"@),
    ]
}

pub open spec fn btrfs_text() -> Seq<char> {
    "btrfs"@
}

pub open spec fn ext4_text() -> Seq<char> {
    "ext4"@
}

/// The commands for one partition: the EFI system partition is mounted at
/// `/boot/efi`, the root partition at the root (as Btrfs subvolumes or as
/// ext4), other partitions are left alone.
pub open spec fn partition_commands(p: PartitionView) -> Seq<Seq<Seq<char>>> {
    match p.mountpoint {
        None => Seq::empty(),
        Some(m) => {
            let efi = if m == "/boot/efi"@ {
                seq![cmd_mkdir_parents(mount_root() + m)] + match p.path {
                    Some(x) => seq![cmd_mount(x, mount_root() + m)],
                    None => Seq::empty(),
                }
            } else {
                Seq::empty()
            };
            let root = if m == "/"@ {
                seq![cmd_mkdir_parents(mount_root() + m)] + (if p.filesystem == Some(btrfs_text()) {
                    match p.path {
                        Some(x) => btrfs_commands(x),
                        None => Seq::empty(),
                    }
                } else {
                    Seq::empty()
                }) + (if p.filesystem == Some(ext4_text()) {
                    match p.path {
                        Some(x) => seq![cmd_mount(x, mount_root())],
                        None => Seq::empty(),
                    }
                } else {
                    Seq::empty()
                })
            } else {
                Seq::empty()
            };
            efi + root
        },
    }
}

/// The commands for all partitions, in order.
pub open spec fn partitions_commands(parts: Seq<PartitionView>) -> Seq<Seq<Seq<char>>>
    decreases parts.len(),
{
    if parts.len() == 0 {
        Seq::empty()
    } else {
        partitions_commands(parts.drop_last()) + partition_commands(parts.last())
    }
}

/// Everything `mount_all` runs: unmount what is under the root, then the
/// commands of every partition.
pub open spec fn mount_all_spec(parts: Option<Seq<PartitionView>>) -> Seq<Seq<Seq<char>>> {
    seq![cmd_umount_all()] + match parts {
        Some(v) => partitions_commands(v),
        None => Seq::empty(),
    }
}

pub open spec fn commands_view(v: Seq<Vec<String>>) -> Seq<Seq<Seq<char>>> {
    v.map_values(|c: Vec<String>| c.deep_view())
}

fn push_word(c: &mut Vec<String>, w: String)
    ensures
        final(c).deep_view() == old(c).deep_view().push(w@),
{
    c.push(w);
    assert(c.deep_view() =~= old(c).deep_view().push(w@));
}

fn root_plus(suffix: &str) -> (r: String)
    ensures
        r@ == mount_root() + suffix@,
{
    let mut r = string_from("/tealinux-mount");
    r.append(suffix);
    r
}

fn push_cmd(cmds: &mut Vec<Vec<String>>, c: Vec<String>)
    ensures
        commands_view(final(cmds)@) == commands_view(old(cmds)@).push(c.deep_view()),
{
    cmds.push(c);
    assert(commands_view(cmds@) =~= commands_view(old(cmds)@).push(c.deep_view()));
}

fn mount_cmd(path: &String, target: &String) -> (r: Vec<String>)
    ensures
        r.deep_view() == cmd_mount(path@, target@),
{
    let mut c = cmd1("mount");
    push_word(&mut c, path.clone());
    push_word(&mut c, target.clone());
    assert(c.deep_view() =~= cmd_mount(path@, target@));
    c
}

fn mount_opt_cmd(opt: &str, path: &String, target: &String) -> (r: Vec<String>)
    ensures
        r.deep_view() == cmd_mount_opt(opt@, path@, target@),
{
    let mut c = cmd3("mount", "-o", opt);
    push_word(&mut c, path.clone());
    push_word(&mut c, target.clone());
    assert(c.deep_view() =~= cmd_mount_opt(opt@, path@, target@));
    c
}

fn mkdir_parents_cmd(dir: String) -> (r: Vec<String>)
    ensures
        r.deep_view() == cmd_mkdir_parents(dir@),
{
    let mut c = cmd2("mkdir", "--parents");
    push_word(&mut c, dir);
    assert(c.deep_view() =~= cmd_mkdir_parents(dir@));
    c
}

fn cmd1(a: &str) -> (r: Vec<String>)
    ensures
        r.deep_view() == seq![a@],
{
    let mut c: Vec<String> = Vec::new();
    push_word(&mut c, string_from(a));
    assert(c.deep_view() =~= seq![a@]);
    c
}

fn cmd2(a: &str, b: &str) -> (r: Vec<String>)
    ensures
        r.deep_view() == seq![a@, b@],
{
    let mut c = cmd1(a);
    push_word(&mut c, string_from(b));
    assert(c.deep_view() =~= seq![a@, b@]);
    c
}

fn cmd3(a: &str, b: &str, d: &str) -> (r: Vec<String>)
    ensures
        r.deep_view() == seq![a@, b@, d@],
{
    let mut c = cmd2(a, b);
    push_word(&mut c, string_from(d));
    assert(c.deep_view() =~= seq![a@, b@, d@]);
    c
}

/// Mounting a plan under `/tealinux-mount`. The commands are computed
/// here; running them is left to the caller.
pub trait Mount: Sized {
    fn new(data: Storage) -> Self;

    fn mount_all_commands(&self) -> Vec<Vec<String>>;
}

impl MountPoint {
    pub closed spec fn partitions_spec(&self) -> Option<Seq<PartitionView>> {
        self.data@.partitions
    }

    fn btrfs_cmds(cmds: &mut Vec<Vec<String>>, path: &String)
        ensures
            commands_view(final(cmds)@) == commands_view(old(cmds)@) + btrfs_commands(path@),
    {
        let root = string_from("/tealinux-mount");
        push_cmd(cmds, mount_cmd(path, &root));
        let mut c = cmd3("btrfs", "subvolume", "create");
        push_word(&mut c, root_plus("/@"));
        assert(c.deep_view() =~= seq!["btrfs"@, "subvolume"@, "create"@, mount_root() + "/@"@]);
        push_cmd(cmds, c);
        let mut c = cmd3("btrfs", "subvolume", "create");
        push_word(&mut c, root_plus("/@home"));
        assert(c.deep_view() =~= seq!["btrfs"@, "subvolume"@, "create"@, mount_root() + "/@home"@]);
        push_cmd(cmds, c);
        let mut c = cmd3("btrfs", "subvolume", "list");
        push_word(&mut c, string_from("/tealinux-mount"));
        assert(c.deep_view() =~= seq!["btrfs"@, "subvolume"@, "list"@, mount_root()]);
        push_cmd(cmds, c);
        let mut c = cmd1("umount");
        push_word(&mut c, string_from("/tealinux-mount"));
        assert(c.deep_view() =~= seq!["umount"@, mount_root()]);
        push_cmd(cmds, c);
        push_cmd(cmds, mount_opt_cmd("subvol=@,", path, &root));
        let mut c = cmd1("mkdir");
        push_word(&mut c, root_plus("/home"));
        assert(c.deep_view() =~= seq!["mkdir"@, mount_root() + "/home"@]);
        push_cmd(cmds, c);
        let home = root_plus("/home");
        push_cmd(cmds, mount_opt_cmd("subvol=@home,", path, &home));
        assert(commands_view(cmds@) =~= commands_view(old(cmds)@) + btrfs_commands(path@));
    }

    /// The commands that put a Btrfs root on the partition `data`, with the
    /// status: 0, or -1 and no command when the partition has no path.
    pub fn _handle_btrfs_mount(data: &Partition) -> (r: (Vec<Vec<String>>, i32))
        ensures
            data.path matches Some(x) ==> commands_view(r.0@) == btrfs_commands(x@) && r.1 == 0,
            data.path is None ==> r.0@.len() == 0 && r.1 == -1,
    {
        let mut cmds: Vec<Vec<String>> = Vec::new();
        match &data.path {
            Some(path) => {
                Self::btrfs_cmds(&mut cmds, path);
                assert(commands_view(cmds@) =~= btrfs_commands(path@));
                (cmds, 0)
            },
            None => (cmds, -1),
        }
    }

    /// The command that mounts the ext4 root partition `data`, with the
    /// status: 0, or -1 and no command when the partition has no path.
    pub fn _handle_ext4_mount(data: &Partition) -> (r: (Vec<Vec<String>>, i32))
        ensures
            data.path matches Some(x) ==> commands_view(r.0@) == seq![cmd_mount(x@, mount_root())]
                && r.1 == 0,
            data.path is None ==> r.0@.len() == 0 && r.1 == -1,
    {
        let mut cmds: Vec<Vec<String>> = Vec::new();
        match &data.path {
            Some(path) => {
                let root = string_from("/tealinux-mount");
                push_cmd(&mut cmds, mount_cmd(path, &root));
                assert(commands_view(cmds@) =~= seq![cmd_mount(path@, mount_root())]);
                (cmds, 0)
            },
            None => (cmds, -1),
        }
    }

    fn partition_cmds(cmds: &mut Vec<Vec<String>>, p: &Partition)
        ensures
            commands_view(final(cmds)@) == commands_view(old(cmds)@) + partition_commands(p@),
    {
        let ghost start = commands_view(cmds@);
        match &p.mountpoint {
            Some(m) => {
                if str_eq(m.as_str(), "/boot/efi") {
                    let mut local_mount = string_from("/tealinux-mount");
                    local_mount.append(m.as_str());
                    push_cmd(cmds, mkdir_parents_cmd(local_mount.clone()));
                    if let Some(path_data) = &p.path {
                        push_cmd(cmds, mount_cmd(path_data, &local_mount));
                    }
                }
                let ghost mid = commands_view(cmds@);
                if str_eq(m.as_str(), "/") {
                    let mut local_mount = string_from("/tealinux-mount");
                    local_mount.append(m.as_str());
                    push_cmd(cmds, mkdir_parents_cmd(local_mount));
                    let ghost after_mkdir = commands_view(cmds@);
                    let is_btrfs = match &p.filesystem {
                        Some(f) => str_eq(f.as_str(), "btrfs"),
                        None => false,
                    };
                    if is_btrfs {
                        let (mut more, _status) = Self::_handle_btrfs_mount(p);
                        let ghost before = cmds@;
                        let ghost added = more@;
                        cmds.append(&mut more);
                        assert(commands_view(cmds@) =~= commands_view(before) + commands_view(added));
                    }
                    let ghost after_btrfs = commands_view(cmds@);
                    let is_ext4 = match &p.filesystem {
                        Some(f) => str_eq(f.as_str(), "ext4"),
                        None => false,
                    };
                    if is_ext4 {
                        let (mut more, _status) = Self::_handle_ext4_mount(p);
                        let ghost before = cmds@;
                        let ghost added = more@;
                        cmds.append(&mut more);
                        assert(commands_view(cmds@) =~= commands_view(before) + commands_view(added));
                    }
                }
                assert(commands_view(cmds@) =~= start + partition_commands(p@));
            },
            None => {
                assert(commands_view(cmds@) =~= start + partition_commands(p@));
            },
        }
    }
}

impl Mount for MountPoint {
    fn new(data: Storage) -> (r: MountPoint)
        ensures
            r.partitions_spec() == data@.partitions,
    {
        MountPoint { data }
    }

    /// The commands that mount every planned partition under
    /// `/tealinux-mount`, in the order they run.
    fn mount_all_commands(&self) -> (r: Vec<Vec<String>>)
        ensures
            commands_view(r@) == mount_all_spec(self.partitions_spec()),
    {
        let mut cmds: Vec<Vec<String>> = Vec::new();
        push_cmd(&mut cmds, cmd3("umount", "--recursive", "/tealinux-mount"));
        assert(commands_view(cmds@) =~= seq![cmd_umount_all()]);
        if let Some(parts) = &self.data.partitions {
            let ghost pv = partition_views(parts@);
            let mut i: usize = 0;
            assert(pv.take(0) == Seq::<PartitionView>::empty());
            while i < parts.len()
                invariant
                    i <= parts.len(),
                    pv == partition_views(parts@),
                    commands_view(cmds@) == seq![cmd_umount_all()] + partitions_commands(
                        pv.take(i as int),
                    ),
                decreases parts.len() - i,
            {
                assert(pv.take(i + 1).drop_last() == pv.take(i as int));
                assert(pv.take(i + 1).last() == parts@[i as int]@);
                Self::partition_cmds(&mut cmds, &parts[i]);
                i = i + 1;
            }
            assert(pv.take(parts.len() as int) == pv);
        }
        cmds
    }
}

}
