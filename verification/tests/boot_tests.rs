use tea_partition_generator::blueprint::{FirmwareKind, MethodKind};
use tea_partition_generator::dual_boot_blockdev::{
    Disk, DiskInfo, DiskLayout, DualBootBlockdevice, DualbootBlkstuff,
    Partition as ListedPartition,
};
use tea_partition_generator::exception::TealinuxAutoPartitionErr;
use tea_partition_generator::single_boot_blockdev::{
    BlockDeviceData, Blkstuff, PartitionTable, SingleBootBlockdevice,
};

fn table(sector_size: u64) -> PartitionTable {
    PartitionTable {
        partitiontable: BlockDeviceData {
            label: "gpt".to_string(),
            id: "X".to_string(),
            device: "/dev/sdb".to_string(),
            unit: "sectors".to_string(),
            firstlba: Some(2048),
            lastlba: Some(62914526),
            sectorsize: sector_size,
            partitions: None,
        },
    }
}

const GIB: u64 = 1073741824;

#[test]
fn single_boot_gpt_layout() {
    let ctx = Blkstuff::blockdevice("/dev/sdb".to_string(), "ext4".to_string(), "gpt".to_string(), Ok(table(512)));
    let s = ctx.getresult(Some(30 * GIB), Some(62914560)).unwrap();
    assert_eq!(s.disk_path, Some("/dev/sdb".to_string()));
    assert_eq!(s.partition_table, Some("gpt".to_string()));
    assert!(s.new_partition_table && s.layout_changed && s.autogenerated);
    assert_eq!(s.autogenerated_mode, "singleboot");
    assert_eq!(s.install_method, MethodKind::SINGLE);
    let p = s.partitions.unwrap();
    assert_eq!(p.len(), 2);
    assert_eq!(p[0].path, Some("/dev/sdb1".to_string()));
    assert_eq!(p[0].mountpoint, Some("/boot/efi".to_string()));
    assert_eq!(p[0].filesystem, Some("fat32".to_string()));
    assert_eq!((p[0].number, p[0].start, p[0].end, p[0].size), (0, 2048, 1050624, 1048576));
    assert_eq!(p[1].path, Some("/dev/sdb2".to_string()));
    assert_eq!(p[1].mountpoint, Some("/".to_string()));
    assert_eq!(p[1].filesystem, Some("ext4".to_string()));
    assert_eq!((p[1].number, p[1].start, p[1].end, p[1].size), (1, 1050625, 62912512, 61861888));
    assert!(p[0].end < p[1].start && p[1].end <= 62914560 - 2048);
}

#[test]
fn single_boot_table_name_in_any_case() {
    let ctx = Blkstuff::blockdevice("/dev/sdb".to_string(), "btrfs".to_string(), "GPT".to_string(), Ok(table(4096)));
    let p = ctx.getresult(Some(30 * GIB), Some(7864320)).unwrap().partitions.unwrap();
    assert_eq!(p.len(), 2);
    assert_eq!((p[0].start, p[0].end, p[0].size), (2048, 133120, 131072));
    assert_eq!(p[1].filesystem, Some("btrfs".to_string()));
}

#[test]
fn single_boot_mbr_layout() {
    let ctx = Blkstuff::blockdevice("/dev/sda".to_string(), "ext4".to_string(), "mbr".to_string(), Ok(table(512)));
    let s = ctx.getresult(Some(21 * GIB), Some(44040192)).unwrap();
    let p = s.partitions.unwrap();
    assert_eq!(p.len(), 1);
    assert_eq!(p[0].path, Some("/dev/sda1".to_string()));
    assert_eq!(p[0].mountpoint, Some("/".to_string()));
    assert_eq!((p[0].number, p[0].start, p[0].end, p[0].size), (0, 2048, 44038144, 44038144));
}

#[test]
fn single_boot_errors() {
    let ctx = Blkstuff::blockdevice("/dev/sda".to_string(), "ext4".to_string(), "mbr".to_string(), Ok(table(512)));
    match ctx.getresult(None, Some(100)) {
        Err(TealinuxAutoPartitionErr::InternalErr(m)) => assert_eq!(m, "something error with getblkbytes()"),
        _ => panic!("expected an internal error"),
    }
    match ctx.getresult(Some(20 * GIB), Some(41943040)) {
        Err(e @ TealinuxAutoPartitionErr::InsufficientStorage(_)) => {
            assert_eq!(e.message(), "Selected storage is lower than 20 GB, Aborted!!")
        }
        _ => panic!("expected insufficient storage"),
    }
    assert!(ctx.getresult_checked(Some(21 * GIB), None).is_none());
    assert!(ctx.getresult_checked(Some(21 * GIB), Some(100)).is_none());
    assert!(ctx.getresult_checked(Some(1), None).is_some());
}

#[test]
fn single_boot_without_sfdisk_data() {
    let ctx = Blkstuff::blockdevice("/dev/sda".to_string(), "ext4".to_string(), "gpt".to_string(), Err("sfdisk error".to_string()));
    assert_eq!(ctx.partitiontable.partitiontable.sectorsize, 0);
    assert_eq!(ctx.partitiontable.partitiontable.label, "");
    let p = ctx.getresult(Some(21 * GIB), Some(44040192)).unwrap().partitions.unwrap();
    assert_eq!((p[0].start, p[0].end, p[0].size), (2048, 2048, 0));
    assert_eq!(p[1].start, 2049);
}

fn listed(number: u32) -> ListedPartition {
    ListedPartition {
        number,
        start: "2048s".to_string(),
        end: "4095s".to_string(),
        size: "2048s".to_string(),
        type_field: None,
        type_uuid: None,
        type_id: None,
        uuid: None,
        filesystem: "ntfs".to_string(),
        flags: None,
    }
}

fn info(label: &str, numbers: &[u32]) -> Option<DiskInfo> {
    Some(DiskInfo {
        disk: Disk {
            path: Some("/dev/sdb".to_string()),
            size: None,
            model: None,
            transport: None,
            logical_sector_size: 512,
            physical_sector_size: 512,
            label: Some(label.to_string()),
            uuid: None,
            max_partitions: 128,
            partitions: numbers.iter().map(|n| listed(*n)).collect(),
        },
    })
}

#[test]
fn dual_boot_new_partition_after_highest() {
    let ctx = DualbootBlkstuff::blockdevice("/dev/sdb".to_string(), "ext4".to_string());
    let structure = info("gpt", &[1, 4, 2]);
    let layout = ctx.check_base_disk_layout(true, &structure);
    assert_eq!(layout.mode, Some(FirmwareKind::UEFI));
    assert_eq!(layout.partition_type, Some("gpt".to_string()));
    let s = ctx.getresult(13088768, 50331647, &layout, &structure).unwrap();
    assert_eq!(s.autogenerated_mode, "doubleboot");
    assert_eq!(s.install_method, MethodKind::DUAL);
    assert!(!s.new_partition_table && !s.layout_changed && s.autogenerated);
    assert_eq!(s.partition_table, Some("gpt".to_string()));
    let p = s.partitions.unwrap();
    assert_eq!(p.len(), 1);
    assert_eq!(p[0].number, 5);
    assert_eq!(p[0].path, Some("/dev/sdb5".to_string()));
    assert_eq!((p[0].start, p[0].end, p[0].size), (13088768, 50331647, 37242879));
    assert_eq!(p[0].mountpoint, Some("/".to_string()));
}

#[test]
fn dual_boot_highest_number() {
    let ctx = DualbootBlkstuff::blockdevice("/dev/sdb".to_string(), "ext4".to_string());
    assert_eq!(ctx.get_highest_partition_number(&info("gpt", &[3, 9, 1])), 9);
    assert_eq!(ctx.get_highest_partition_number(&info("gpt", &[])), 1);
    assert_eq!(ctx.get_highest_partition_number(&None), -1);
    let s = ctx._generate_json(100, 200, &info("msdos", &[])).partitions.unwrap();
    assert_eq!(s[0].number, 2);
    assert_eq!(s[0].path, Some("/dev/sdb2".to_string()));
}

#[test]
fn dual_boot_layout_checks() {
    let ctx = DualbootBlkstuff::blockdevice("/dev/sdb".to_string(), "ext4".to_string());
    let ok = |mode, t: &str| DiskLayout { mode: Some(mode), partition_type: Some(t.to_string()) };
    assert_eq!(ctx._check(&ok(FirmwareKind::UEFI, "gpt")), Ok(true));
    assert_eq!(ctx._check(&ok(FirmwareKind::BIOS, "msdos")), Ok(true));
    assert_eq!(
        ctx._check(&ok(FirmwareKind::UEFI, "msdos")),
        Err("your partition (which is MSDOS) and boot mode (which is UEFI) in yout system is mismatch or unusual".to_string())
    );
    assert_eq!(
        ctx._check(&ok(FirmwareKind::BIOS, "gpt")),
        Err("your partition (which is GPT) and boot mode (which is BIOS) in yout system is mismatch or unusual".to_string())
    );
    let layout = ctx.check_base_disk_layout(false, &info("gpt", &[1]));
    assert_eq!(layout.mode, Some(FirmwareKind::BIOS));
    assert_eq!(
        ctx.getresult(1, 2, &layout, &info("gpt", &[1])).err(),
        Some("generation failed: your partition (which is GPT) and boot mode (which is BIOS) in yout system is mismatch or unusual".to_string())
    );
}
