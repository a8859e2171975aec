use tea_partition_generator::generator::{
    PartedJsonDisk, PartedJsonPartition, PartitionGenerator, TeaPartitionGenerator,
};
use tea_partition_generator::os::Os;
use tea_partition_generator::parted_parser::PartedResult;

fn sample() -> PartedResult {
    PartedResult::parse(
        "BYT;
/dev/sdb:50331648s:scsi:512:512:gpt:ATA QEMU HARDDISK:;
1:34s:2047s:2014s:free;
1:2048s:12584959s:12582912s:ext4:randomstr:boot, esp;
1:12584960s:33722367s:21137408s:free;
2:33722368s:50329599s:16607232s:btrfs::;
1:50329600s:50331614s:2015s:free;"
            .to_string(),
    )
}

#[test]
fn free_areas_larger_than_seven_gib() {
    let ctx = TeaPartitionGenerator::new("/dev/sdb".to_string());
    let v = ctx.find_empty_space_sector_areav(&sample());
    assert_eq!(v.len(), 1);
    assert_eq!(v[0].number, 1);
    assert_eq!(v[0].start, 12584960);
    assert_eq!(v[0].end, 33722367);
}

#[test]
fn first_free_area() {
    let ctx = TeaPartitionGenerator::new("/dev/sdb".to_string());
    assert_eq!(ctx.find_empty_space_sector_area(&sample()), (12584960, 33722367));
}

#[test]
fn free_areas_are_numbered_in_order() {
    let ctx = TeaPartitionGenerator::new("/dev/sda".to_string());
    let r = PartedResult::parse(
        "BYT;
/dev/sda:100000000s:scsi:512:512:gpt:Disk:;
1:34s:20000033s:20000000s:free;
1:20000034s:30000000s:9999967s:ext4::;
1:30000001s:50000000s:20000000s:free;
1:50000001s:66000000s:16000000s:free;"
            .to_string(),
    );
    let v = ctx.find_empty_space_sector_areav(&r);
    assert_eq!(v.len(), 3);
    assert_eq!((v[0].number, v[0].start, v[0].end), (1, 34, 20000033));
    assert_eq!((v[1].number, v[1].start, v[1].end), (2, 30000001, 50000000));
    assert_eq!((v[2].number, v[2].start, v[2].end), (3, 50000001, 66000000));
    // the single area is the first of the list, its early start moved to 2049
    assert_eq!(ctx.find_empty_space_sector_area(&r), (2049, 20000033));
}

#[test]
fn no_free_area_gives_zero() {
    let ctx = TeaPartitionGenerator::new("/dev/sda".to_string());
    let r = PartedResult::parse(
        "BYT;\n/dev/sda:100s:scsi:512:512:gpt:Disk:;\n1:34s:99s:66s:free;".to_string(),
    );
    assert_eq!(ctx.find_empty_space_sector_area(&r), (0, 0));
    assert_eq!(ctx.find_empty_space_sector_areav(&r).len(), 0);
}

#[test]
fn exactly_seven_gib_is_not_enough() {
    let ctx = TeaPartitionGenerator::new("/dev/sda".to_string());
    let r = PartedResult::parse(
        "BYT;\n/dev/sda:100000000s:scsi:512:512:gpt:Disk:;\n1:4096s:14684159s:14680064s:free;\n1:14684160s:29364224s:14680065s:free;"
            .to_string(),
    );
    let v = ctx.find_empty_space_sector_areav(&r);
    assert_eq!(v.len(), 1);
    assert_eq!(v[0].start, 14684160);
    assert_eq!(ctx.find_empty_space_sector_area(&r), (14684160, 29364224));
}

fn dev_oses() -> Option<Vec<Os>> {
    Os::get_other_os(tea_partition_generator::os::dev_os_prober_output())
}

#[test]
fn other_os_on_selected_disk() {
    let oses = dev_oses();
    assert!(TeaPartitionGenerator::new("/dev/sdb".to_string()).has_other_os(&oses));
    assert!(TeaPartitionGenerator::new("/dev/sdd".to_string()).has_other_os(&oses));
    assert!(TeaPartitionGenerator::new("/dev/nvme0n1".to_string()).has_other_os(&oses));
    assert!(!TeaPartitionGenerator::new("/dev/sdc".to_string()).has_other_os(&oses));
    assert!(!TeaPartitionGenerator::new("/dev/sdb".to_string()).has_other_os(&None));
}

#[test]
fn disks_of_other_systems() {
    let v = TeaPartitionGenerator::disk_list_other_os(&dev_oses()).unwrap();
    let got: Vec<(String, String)> = v.iter().map(|o| (o.path.clone(), o.name.clone())).collect();
    assert_eq!(
        got,
        vec![
            ("/dev/sdd".to_string(), "Windows Boot Manager".to_string()),
            ("/dev/sdb".to_string(), "Wondows Boot Manager".to_string()),
            ("/dev/nvme0n1".to_string(), "Windows Boot Manager".to_string()),
            ("/dev/sda".to_string(), "Windows 10".to_string()),
        ]
    );
    assert!(TeaPartitionGenerator::disk_list_other_os(&None).is_none());
    let odd = Some(vec![Os { name: "X".to_string(), path: "/dev/mmcblk0p1".to_string() }]);
    assert!(TeaPartitionGenerator::disk_list_other_os(&odd).is_none());
}

#[test]
fn has_other_os_agrees_with_disk_list() {
    let oses = dev_oses();
    let listed = TeaPartitionGenerator::disk_list_other_os(&oses).unwrap();
    for disk in ["/dev/sda", "/dev/sdb", "/dev/sdc", "/dev/sdd", "/dev/nvme0n1", "/dev/nvme1n1"] {
        let has = TeaPartitionGenerator::new(disk.to_string()).has_other_os(&oses);
        assert_eq!(has, listed.iter().any(|o| o.path == disk));
    }
}

fn json_part(number: i64, start: &str, end: &str, fs: Option<&str>) -> PartedJsonPartition {
    PartedJsonPartition {
        number: Some(number),
        start: Some(start.to_string()),
        end: Some(end.to_string()),
        filesystem: fs.map(|s| s.to_string()),
        flags: None,
    }
}

#[test]
fn partition_listing_for_the_user() {
    let disk = PartedJsonDisk {
        path: Some("/dev/sdb".to_string()),
        physical_sector_size: Some(512),
        partitions: Some(vec![
            json_part(0, "34s", "2047s", None),
            json_part(1, "2048s", "12584959s", Some("ext4")),
            json_part(2, "12584960s", "50331614s", Some("ntfs")),
        ]),
    };
    let ctx = TeaPartitionGenerator::new("/dev/sdb".to_string());
    let v = ctx.find_partition_sector_areav(&disk);
    assert_eq!(v.len(), 3);
    assert_eq!(v[0].partition_name, "Unallocated");
    assert_eq!(v[0].fs, Some("UNALLOCATED".to_string()));
    assert_eq!(v[0].size_h, "1M");
    assert_eq!(v[0].index, 0);
    assert_eq!(v[1].partition_name, "sdb1");
    assert_eq!((v[1].start, v[1].end), (2048, 12584959));
    assert_eq!(v[1].size_h, "5G");
    assert_eq!(v[1].fs, Some("ext4".to_string()));
    assert_eq!(v[2].partition_name, "sdb2");
    assert_eq!(v[2].size_h, "17G");
    assert_eq!(v[2].index, 0);
}

#[test]
fn partition_listing_refused_when_unreadable() {
    let ctx = TeaPartitionGenerator::new("/dev/sdb".to_string());
    let mut disk = PartedJsonDisk {
        path: Some("/dev/sdb".to_string()),
        physical_sector_size: Some(512),
        partitions: Some(vec![json_part(1, "x", "20s", None)]),
    };
    assert!(ctx.try_find_partition_sector_areav(&disk).is_none());
    disk.partitions = Some(vec![json_part(1, "30s", "20s", None)]);
    assert!(ctx.try_find_partition_sector_areav(&disk).is_none());
    disk.partitions = Some(vec![json_part(-3, "10s", "20s", None)]);
    let v = ctx.try_find_partition_sector_areav(&disk).unwrap();
    assert_eq!(v[0].partition_name, "sdb-3");
    disk.path = Some("/".to_string());
    assert!(ctx.try_find_partition_sector_areav(&disk).is_none());
    disk.path = None;
    assert!(ctx.try_find_partition_sector_areav(&disk).is_none());
}

#[test]
fn partition_spans_of_listing() {
    let disk = PartedJsonDisk {
        path: Some("/dev/sdb".to_string()),
        physical_sector_size: Some(512),
        partitions: Some(vec![json_part(0, "34s", "2047s", None), json_part(3, "2048s", "4095s", None)]),
    };
    let ctx = TeaPartitionGenerator::new("/dev/sdb".to_string());
    let s = ctx.partition_spans(&disk);
    assert_eq!(s.len(), 2);
    assert_eq!((s[1].partition_num, s[1].start, s[1].end), (3, 2048, 4095));
    assert_eq!(Os::is_initialized_disk(2048, 4095, &s), 3);
    assert_eq!(Os::is_initialized_disk(34, 2047, &s), -1);
    assert_eq!(Os::is_initialized_disk(1, 2, &s), -1);
}
