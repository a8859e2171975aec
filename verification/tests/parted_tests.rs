use tea_partition_generator::parted_parser::PartedResult;

fn sample() -> String {
    "BYT;
/dev/sdb:50331648s:scsi:512:512:gpt:ATA QEMU HARDDISK:;
1:34s:2047s:2014s:free;
1:2048s:12584959s:12582912s:ext4:randomstr:boot, esp;
1:12584960s:33722367s:21137408s:free;
2:33722368s:50329599s:16607232s:btrfs::;
1:50329600s:50331614s:2015s:free;"
        .to_string()
}

#[test]
fn parse_parted_disk_record() {
    let r = PartedResult::parse(sample());
    assert_eq!(r.info.disk, "/dev/sdb");
    assert_eq!(r.info.sector, 50331648);
    assert_eq!(r.info.disk_type, "scsi");
    assert_eq!(r.info.sector_size_logical, 512);
    assert_eq!(r.info.sector_size_physical, 512);
    assert_eq!(r.info.partition_table, "gpt");
    assert_eq!(r.info.model, "ATA QEMU HARDDISK");
    assert_eq!(r.info.disk_flags, "");
}

#[test]
fn parse_parted_partition_records() {
    let r = PartedResult::parse(sample());
    assert_eq!(r.data.len(), 5);
    let d = &r.data[1];
    assert_eq!(d.number, 1);
    assert_eq!(d.start, 2048);
    assert_eq!(d.end, 12584959);
    assert_eq!(d.size, 12582912);
    assert_eq!(d.fs, "ext4");
    assert_eq!(d.partition_name, "randomstr");
    assert_eq!(d.flags, "boot, esp");
    let f = &r.data[0];
    assert_eq!(f.fs, "free");
    assert_eq!(f.partition_name, "");
    assert_eq!(f.flags, "");
    let b = &r.data[3];
    assert_eq!(b.number, 2);
    assert_eq!(b.fs, "btrfs");
}

#[test]
fn parse_without_records() {
    let r = PartedResult::parse("".to_string());
    assert_eq!(r.data.len(), 0);
    assert_eq!(r.info.disk, "");
    assert_eq!(r.info.sector, 0);
    let r = PartedResult::parse("BYT;\n".to_string());
    assert_eq!(r.data.len(), 0);
    assert_eq!(r.info.sector_size_logical, 0);
}

#[test]
fn parse_short_disk_record_keeps_defaults() {
    let r = PartedResult::parse("BYT;\n/dev/sda:100s;\n".to_string());
    assert_eq!(r.info.disk, "/dev/sda");
    assert_eq!(r.info.sector, 100);
    assert_eq!(r.info.disk_type, "");
    assert_eq!(r.info.sector_size_logical, 0);
}

#[test]
fn unreadable_numbers_are_refused() {
    assert!(PartedResult::try_parse("BYT;\n/dev/sda:xs:scsi:512:512:gpt:m:;").is_none());
    assert!(PartedResult::try_parse("BYT;\n/dev/sda:10s:scsi:512:512:gpt:m:;\nx:1s:2s:2s:free;").is_none());
    assert!(PartedResult::try_parse("BYT;\n/dev/sda:10s:scsi:99999999999:512:gpt:m:;").is_none());
    assert!(PartedResult::try_parse(&sample()).is_some());
}

#[test]
fn plus_sign_is_accepted_as_by_str_parse() {
    let r = PartedResult::parse("BYT;\n/dev/sda:+10s:scsi:+512:512:gpt:m:;".to_string());
    assert_eq!(r.info.sector, 10);
    assert_eq!(r.info.sector_size_logical, 512);
}

#[test]
fn disk_record_alone() {
    let d = PartedResult::_gparted_disk_parse("/dev/sdc:2000s:nvme:4096:4096:msdos:Disk:".to_string());
    assert_eq!(d.disk, "/dev/sdc");
    assert_eq!(d.sector, 2000);
    assert_eq!(d.sector_size_logical, 4096);
    assert_eq!(d.partition_table, "msdos");
    let p = PartedResult::_gparted_disk_partition_parse("3:10s:20s:11s:ntfs:Data:msftdata".to_string());
    assert_eq!(p.number, 3);
    assert_eq!(p.start, 10);
    assert_eq!(p.end, 20);
    assert_eq!(p.size, 11);
    assert_eq!(p.fs, "ntfs");
    assert_eq!(p.partition_name, "Data");
    assert_eq!(p.flags, "msftdata");
}
