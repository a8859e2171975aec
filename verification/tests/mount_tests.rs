use tea_partition_generator::blueprint::{FirmwareKind, MethodKind, Partition, Storage};
use tea_partition_generator::exception::TealinuxAutoPartitionErr;
use tea_partition_generator::mounting::{Mount, MountPoint};

fn part(path: &str, mountpoint: &str, fs: &str) -> Partition {
    Partition {
        number: 0,
        disk_path: Some("/dev/sdb".to_string()),
        path: Some(path.to_string()),
        mountpoint: Some(mountpoint.to_string()),
        filesystem: Some(fs.to_string()),
        label: None,
        format: true,
        start: 0,
        end: 0,
        size: 0,
        flags: None,
    }
}

fn plan(parts: Vec<Partition>) -> Storage {
    Storage {
        original_sector: None,
        disk_path: Some("/dev/sdb".to_string()),
        partition_table: Some("gpt".to_string()),
        new_partition_table: true,
        layout_changed: true,
        autogenerated: true,
        autogenerated_mode: "singleboot".to_string(),
        partitions: Some(parts),
        install_method: MethodKind::SINGLE,
    }
}

fn words(v: &[&str]) -> Vec<String> {
    v.iter().map(|s| s.to_string()).collect()
}

#[test]
fn mount_commands_for_ext4_plan() {
    let m = MountPoint::new(plan(vec![part("/dev/sdb1", "/boot/efi", "fat32"), part("/dev/sdb2", "/", "ext4")]));
    assert_eq!(
        m.mount_all_commands(),
        vec![
            words(&["umount", "--recursive", "/tealinux-mount"]),
            words(&["mkdir", "--parents", "/tealinux-mount/boot/efi"]),
            words(&["mount", "/dev/sdb1", "/tealinux-mount/boot/efi"]),
            words(&["mkdir", "--parents", "/tealinux-mount/"]),
            words(&["mount", "/dev/sdb2", "/tealinux-mount"]),
        ]
    );
}

#[test]
fn mount_commands_for_btrfs_plan() {
    let m = MountPoint::new(plan(vec![part("/dev/sda1", "/", "btrfs")]));
    assert_eq!(
        m.mount_all_commands(),
        vec![
            words(&["umount", "--recursive", "/tealinux-mount"]),
            words(&["mkdir", "--parents", "/tealinux-mount/"]),
            words(&["mount", "/dev/sda1", "/tealinux-mount"]),
            words(&["btrfs", "subvolume", "create", "/tealinux-mount/@"]),
            words(&["btrfs", "subvolume", "create", "/tealinux-mount/@home"]),
            words(&["btrfs", "subvolume", "list", "/tealinux-mount"]),
            words(&["umount", "/tealinux-mount"]),
            words(&["mount", "-o", "subvol=@,", "/dev/sda1", "/tealinux-mount"]),
            words(&["mkdir", "/tealinux-mount/home"]),
            words(&["mount", "-o", "subvol=@home,", "/dev/sda1", "/tealinux-mount/home"]),
        ]
    );
}

#[test]
fn mount_commands_leave_other_partitions() {
    let mut p = part("/dev/sda3", "/data", "ext4");
    let m = MountPoint::new(plan(vec![p.clone()]));
    assert_eq!(m.mount_all_commands(), vec![words(&["umount", "--recursive", "/tealinux-mount"])]);
    p.mountpoint = None;
    let mut s = plan(vec![p]);
    assert_eq!(MountPoint::new(s.clone()).mount_all_commands().len(), 1);
    s.partitions = None;
    assert_eq!(MountPoint::new(s).mount_all_commands().len(), 1);
}

#[test]
fn firmware_names_and_error_messages() {
    assert_eq!(FirmwareKind::UEFI.as_str(), "UEFI");
    assert_eq!(FirmwareKind::BIOS.as_str(), "BIOS");
    assert_eq!(TealinuxAutoPartitionErr::InternalErr("a".to_string()).message(), "a");
}

#[test]
fn root_handlers_report_status() {
    let p = part("/dev/sda2", "/", "btrfs");
    let (cmds, status) = MountPoint::_handle_btrfs_mount(&p);
    assert_eq!(status, 0);
    assert_eq!(cmds.len(), 8);
    assert_eq!(cmds[0], words(&["mount", "/dev/sda2", "/tealinux-mount"]));
    assert_eq!(cmds[7], words(&["mount", "-o", "subvol=@home,", "/dev/sda2", "/tealinux-mount/home"]));
    let (cmds, status) = MountPoint::_handle_ext4_mount(&p);
    assert_eq!(status, 0);
    assert_eq!(cmds, vec![words(&["mount", "/dev/sda2", "/tealinux-mount"])]);
    let mut no_path = p.clone();
    no_path.path = None;
    let (cmds, status) = MountPoint::_handle_btrfs_mount(&no_path);
    assert_eq!((cmds.len(), status), (0, -1));
    let (cmds, status) = MountPoint::_handle_ext4_mount(&no_path);
    assert_eq!((cmds.len(), status), (0, -1));
}
