use tea_partition_generator::disk_helper::{
    bytes2mb, disk_split_no_dev, format_size_human, gb2sector, mb2sector, nvme_split,
    remove_end_s, scsi_split, try_disk_split_no_dev,
};

#[test]
fn nvme_split_separates_disk_and_partition() {
    let r = nvme_split("/dev/nvme0n1p1".to_string());
    assert_eq!(r, Some(("/dev/nvme0n1".to_string(), "p1".to_string())));
    let r = nvme_split("/dev/nvme12n3p45".to_string());
    assert_eq!(r, Some(("/dev/nvme12n3".to_string(), "p45".to_string())));
}

#[test]
fn nvme_split_rejects_other_paths() {
    assert_eq!(nvme_split("/dev/sda1".to_string()), None);
    assert_eq!(nvme_split("/dev/nvme0n1".to_string()), None);
    assert_eq!(nvme_split("/dev/nvme0n1p1x".to_string()), None);
    assert_eq!(nvme_split("x/dev/nvme0n1p1".to_string()), None);
}

#[test]
fn scsi_split_drops_partition_digit() {
    assert_eq!(scsi_split("/dev/sdb3".to_string()), Some("/dev/sdb".to_string()));
    assert_eq!(scsi_split("/dev/sda1".to_string()), Some("/dev/sda".to_string()));
    assert_eq!(scsi_split("/dev/nvme0n1p1".to_string()), None);
    assert_eq!(scsi_split("sdb3".to_string()), None);
}

#[test]
fn sector_conversions() {
    assert_eq!(gb2sector(20, 512), 41943040);
    assert_eq!(gb2sector(20, 4096), 5242880);
    assert_eq!(gb2sector(5, 0), 0);
    assert_eq!(mb2sector(512, 512), 1048576);
    assert_eq!(mb2sector(512, 4096), 131072);
    assert_eq!(mb2sector(512, 0), 0);
    assert_eq!(mb2sector(1, 3000), 349);
}

#[test]
fn bytes_to_whole_mib() {
    assert_eq!(bytes2mb(5 * 1048576 + 7), 5);
    assert_eq!(bytes2mb(1048575), 0);
    assert_eq!(bytes2mb(u64::MAX), 17592186044415);
}

#[test]
fn device_name_without_dev() {
    assert_eq!(disk_split_no_dev("/dev/sdb".to_string()), "sdb");
    assert_eq!(disk_split_no_dev("/dev/nvme0n1".to_string()), "nvme0n1");
    assert_eq!(disk_split_no_dev("sdc".to_string()), "sdc");
    assert_eq!(try_disk_split_no_dev("/".to_string()), None);
    assert_eq!(try_disk_split_no_dev("/dev/..".to_string()), None);
    assert_eq!(try_disk_split_no_dev("/dev/sda".to_string()), Some("sda".to_string()));
}

#[test]
fn sector_unit_suffix_removed() {
    assert_eq!(remove_end_s("2048s".to_string()), "2048");
    assert_eq!(remove_end_s("2048".to_string()), "2048");
    assert_eq!(remove_end_s("".to_string()), "");
    assert_eq!(remove_end_s("ss".to_string()), "s");
}

#[test]
fn size_for_humans() {
    assert_eq!(format_size_human(35000320 * 512), "16G");
    assert_eq!(format_size_human(1000), "1M");
    assert_eq!(format_size_human(1048575), "1M");
    assert_eq!(format_size_human(1048576), "0G");
    assert_eq!(format_size_human(1073741824), "1G");
    assert_eq!(format_size_human(998 * 1073741824 + 5), "998G");
    assert_eq!(format_size_human(999 * 1073741824), "999T");
    assert_eq!(format_size_human(2000 * 1073741824), "2000T");
}

#[test]
fn device_names_of_plain_paths() {
    assert_eq!(try_disk_split_no_dev("/dev/nvme0n1".to_string()), Some("nvme0n1".to_string()));
    assert_eq!(try_disk_split_no_dev("sda".to_string()), Some("sda".to_string()));
    assert_eq!(try_disk_split_no_dev("/".to_string()), None);
}

#[test]
fn device_names_ignore_trailing_slashes() {
    assert_eq!(disk_split_no_dev("/dev/sdb/".to_string()), "sdb");
    assert_eq!(disk_split_no_dev("/dev/nvme0n1//".to_string()), "nvme0n1");
    assert_eq!(try_disk_split_no_dev("///".to_string()), None);
}
