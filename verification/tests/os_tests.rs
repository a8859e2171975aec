use tea_partition_generator::blueprint::{MethodKind, Partition, Storage};
use tea_partition_generator::generator::PartedJsonPartition;
use tea_partition_generator::os::{
    dev_os_prober_output, BlockDevice, DiskPredictor, LsblkModelDevice, LsblkModelOutput,
    LsblkOutput, Os, StateDiskPredictor,
};

#[test]
fn os_prober_lines() {
    let v = Os::get_other_os(dev_os_prober_output()).unwrap();
    let got: Vec<(String, String)> = v.iter().map(|o| (o.path.clone(), o.name.clone())).collect();
    assert_eq!(
        got,
        vec![
            ("/dev/sdd1".to_string(), "Windows Boot Manager".to_string()),
            ("/dev/sdb2".to_string(), "Wondows Boot Manager".to_string()),
            ("/dev/nvme0n1p1".to_string(), "Windows Boot Manager".to_string()),
            ("/dev/sda1".to_string(), "Windows 10".to_string()),
        ]
    );
    assert!(Os::get_other_os("").is_none());
}

#[test]
fn os_prober_line_shapes() {
    let one = |s: &str| Os::get_other_os(s).map(|v| (v[0].path.clone(), v[0].name.clone()));
    assert_eq!(one("/dev/sda2:Debian GNU/Linux:Debian:linux"), Some(("/dev/sda2".to_string(), "Debian GNU/Linux".to_string())));
    assert_eq!(one("/dev/sda2@/efi/x.efi:Win:Windows:efi"), Some(("/dev/sda2".to_string(), "Win".to_string())));
    // a name must be followed by ':'
    assert_eq!(one("/dev/sda2:Debian"), None);
    // white space may not stand in the device
    assert_eq!(one("/dev/sd a2:Debian:x"), None);
    assert_eq!(one("/dev/sda2\t:Debian:x"), None);
    // the boot path may not be empty
    assert_eq!(one("/dev/sda2@:Win:x"), None);
    assert_eq!(one("/dev/:Win:x"), None);
    assert_eq!(one("dev/sda2:Win:x"), None);
    assert_eq!(one(""), None);
    assert!(Os::get_other_os("\n\n").is_none());
}

#[test]
fn ideal_swap_sizes() {
    assert_eq!(Os::__gen_mem_ideal_size(4096), 8192);
    assert_eq!(Os::__gen_mem_ideal_size(8191), 16382);
    assert_eq!(Os::__gen_mem_ideal_size(8192), 12288);
    assert_eq!(Os::__gen_mem_ideal_size(10001), 15001);
    assert_eq!(Os::__gen_mem_ideal_size(16384), 16384);
    assert_eq!(Os::__gen_mem_ideal_size(20000), 20000);
    assert_eq!(Os::__gen_mem_ideal_size(32768), 16384);
    assert_eq!(Os::__gen_mem_ideal_size(64000), 32000);
}

#[test]
fn swap_rule_of_at_most_eight_gib() {
    assert_eq!(Os::decide_swap_size3_for(1024), Some(2048));
    assert_eq!(Os::decide_swap_size3_for(2048), Some(2048));
    assert_eq!(Os::decide_swap_size3_for(4096), Some(4096));
    assert_eq!(Os::decide_swap_size3_for(8192), Some(8192));
    assert_eq!(Os::decide_swap_size3_for(16000), Some(8192));
    assert!(Os::decide_swap_size3().unwrap() <= 8192);
}

#[test]
fn swap_capped_by_disk() {
    // 64000 MB of RAM, a disk of 1000000 MiB: 32 % is 320000, the ideal 32000 stays
    assert_eq!(Os::decide_swap_size2_bytes_for(64000, 1000000 * 1048576), Some(32000));
    // 4096 MB of RAM, a 10 GiB disk: 32 % of 10240 is 3276
    assert_eq!(Os::decide_swap_size2_bytes_for(4096, 10 * 1073741824), Some(3276));
    assert_eq!(Os::decide_swap_size2_bytes_for(4096, 0), Some(0));
    let disk = 50 * 1073741824u64;
    assert!(Os::decide_swap_size2_bytes(disk).unwrap() <= 51200 * 8 / 25);
    let ideal = Os::decide_swap_size();
    assert!(ideal <= 2 * (u64::MAX / 1024000));
}

#[test]
fn align_to_2048() {
    assert_eq!(Os::align_2048(4096), 4096);
    assert_eq!(Os::align_2048(4097), 6144);
    assert_eq!(Os::align_2048(0), 0);
    assert_eq!(Os::align_2048(1), 2048);
    assert_eq!(Os::align_2048(2047), 2048);
    let a = Os::align_2048(123457);
    assert_eq!(Os::align_2048(a), a);
    let top = u64::MAX - 2047;
    assert_eq!(Os::align_2048(top), top);
    assert_eq!(Os::align_2048(Os::align_2048(top)), top);
    assert_eq!(Os::align_2048(top - 1), top);
}

fn part(fs: Option<&str>, path: Option<&str>) -> Partition {
    Partition {
        number: 0,
        disk_path: Some("/dev/sdb".to_string()),
        path: path.map(|s| s.to_string()),
        mountpoint: None,
        filesystem: fs.map(|s| s.to_string()),
        label: None,
        format: true,
        start: 0,
        end: 0,
        size: 0,
        flags: None,
    }
}

fn storage(parts: Option<Vec<Partition>>) -> Storage {
    Storage {
        original_sector: None,
        disk_path: Some("/dev/sdb".to_string()),
        partition_table: Some("gpt".to_string()),
        new_partition_table: true,
        layout_changed: true,
        autogenerated: true,
        autogenerated_mode: "singleboot".to_string(),
        partitions: parts,
        install_method: MethodKind::SINGLE,
    }
}

#[test]
fn fstab_line_for_swap() {
    let s = storage(Some(vec![
        part(Some("ext4"), Some("/dev/sdb2")),
        part(Some("linux-swap"), Some("/dev/sdb3")),
        part(Some("linux-swap"), Some("/dev/sdb4")),
    ]));
    assert_eq!(Os::__append_swap_fstab(&s), Some("/dev/sdb3 none swap sw 0 0".to_string()));
    let s = storage(Some(vec![part(Some("ext4"), Some("/dev/sdb2")), part(None, None)]));
    assert_eq!(Os::__append_swap_fstab(&s), None);
    assert_eq!(Os::__append_swap_fstab(&storage(None)), None);
}

#[test]
fn grub_setting_replaced() {
    let c = "GRUB_TIMEOUT=5\n#GRUB_DISABLE_OS_PROBER=false\nGRUB_DISABLE_OS_PROBER=true\n";
    assert_eq!(
        Os::patch_grub_config_text(c, false),
        "GRUB_TIMEOUT=5\nGRUB_DISABLE_OS_PROBER=false\nGRUB_DISABLE_OS_PROBER=true\n"
    );
    let c = "  \tGRUB_DISABLE_OS_PROBER=true\r\nA=1";
    assert_eq!(Os::patch_grub_config_text(c, false), "GRUB_DISABLE_OS_PROBER=false\nA=1\n");
}

#[test]
fn grub_setting_added() {
    assert_eq!(Os::patch_grub_config_text("A=1\nB=2", true), "A=1\nB=2\nGRUB_DISABLE_OS_PROBER=true\n");
    assert_eq!(Os::patch_grub_config_text("", true), "GRUB_DISABLE_OS_PROBER=true\n");
    assert_eq!(Os::patch_grub_config_text("\n", false), "\nGRUB_DISABLE_OS_PROBER=false\n");
    assert_eq!(Os::patch_grub_config_text("X GRUB_DISABLE_OS_PROBER=1\n", true), "X GRUB_DISABLE_OS_PROBER=1\nGRUB_DISABLE_OS_PROBER=true\n");
}

fn devs() -> LsblkOutput {
    LsblkOutput {
        blockdevices: vec![
            BlockDevice { name: "sda".to_string(), pttype: Some("gpt".to_string()) },
            BlockDevice { name: "sdb".to_string(), pttype: Some("dos".to_string()) },
            BlockDevice { name: "sdc".to_string(), pttype: None },
            BlockDevice { name: "sdc".to_string(), pttype: Some("gpt".to_string()) },
        ],
    }
}

#[test]
fn partition_table_kind() {
    assert_eq!(Os::detect_partition_table_in("/dev/sdb", &devs()), Some("mbr".to_string()));
    assert_eq!(Os::detect_partition_table_in("/dev/sda", &devs()), Some("gpt".to_string()));
    assert_eq!(Os::detect_partition_table_in("sda", &devs()), Some("gpt".to_string()));
    assert_eq!(Os::detect_partition_table_in("/dev/sdc", &devs()), Some("gpt".to_string()));
    assert_eq!(Os::detect_partition_table_in("/dev/sdd", &devs()), None);
}

fn efi_part(number: Option<i64>, fs: &str, flags: &[&str]) -> PartedJsonPartition {
    PartedJsonPartition {
        number,
        start: None,
        end: None,
        filesystem: Some(fs.to_string()),
        flags: Some(flags.iter().map(|s| s.to_string()).collect()),
    }
}

#[test]
fn efi_partition_number() {
    let parts = Some(vec![
        efi_part(Some(1), "fat32", &["boot"]),
        efi_part(Some(2), "ntfs", &["boot", "esp"]),
        efi_part(Some(3), "fat32", &["esp", "boot"]),
        efi_part(Some(4), "fat32", &["boot", "esp"]),
    ]);
    assert_eq!(Os::get_efi_blockdevice_in(&parts), Ok(3));
    let parts = Some(vec![efi_part(Some(1), "fat32", &["boot"])]);
    assert_eq!(Os::get_efi_blockdevice_in(&parts), Err("scan not found".to_string()));
    assert_eq!(Os::get_efi_blockdevice_in(&None), Err("scan not found".to_string()));
}

#[test]
fn predictor_for_gpt_disk() {
    let mut p = StateDiskPredictor::new("/dev/sdb".to_string(), Some("gpt".to_string())).unwrap();
    let used = Ok(vec![1, 2, 3]);
    assert_eq!(p.predict_next_disks_num(&used), Some(4));
    p.mark(4);
    assert_eq!(p.predict_next_disks_num(&used), Some(5));
    p.ignore(2);
    assert_eq!(p.predict_next_disks_num(&used), Some(2));
    p.mark(2);
    assert_eq!(p.predict_next_disk(&used), Some(5));
    assert_eq!(p.predict_next_disks_num(&Err("parted failed".to_string())), None);
}

#[test]
fn predictor_for_mbr_disk() {
    let mut p = StateDiskPredictor::new("/dev/sdb".to_string(), Some("MBR".to_string())).unwrap();
    let used = Ok(vec![1, 3]);
    assert_eq!(p.predict_next_disks_num(&used), Some(2));
    p.mark(2);
    assert_eq!(p.predict_next_disks_num(&used), Some(4));
    p.mark(4);
    assert_eq!(p.predict_next_disks_num(&used), None);
    let e = StateDiskPredictor::new("/dev/sdb".to_string(), None);
    assert_eq!(e.err(), Some("Failed to get mode, disk is not either MBR or GPT".to_string()));
}

#[test]
fn marked_numbers_are_never_predicted_again() {
    let mut p = StateDiskPredictor::new("/dev/sdb".to_string(), Some("gpt".to_string())).unwrap();
    let used = Ok(vec![1, 2, 3, 4, 5, 6, 7, 8]);
    let mut last = 0;
    for _ in 0..5 {
        let n = p.predict_next_disks_num(&used).unwrap();
        assert!(n > last);
        p.mark(n);
        last = n;
    }
    assert_eq!(last, 13);
    let fresh = StateDiskPredictor::new("/dev/sdb".to_string(), Some("gpt".to_string())).unwrap();
    assert_eq!(fresh.predict_next_disks_num(&Ok(vec![])), Some(1));
}

#[test]
fn disk_numbers_from_listing() {
    let v = StateDiskPredictor::get_disk_num_array(&vec![Some(1), None, Some(4294967296 + 3), Some(7)]);
    assert_eq!(v, vec![1, 3, 7]);
}

#[test]
fn grub_patch_twice_is_patch_once() {
    for c in ["A=1\n#GRUB_DISABLE_OS_PROBER=true\nB=2\n", "A=1", "", "GRUB_DISABLE_OS_PROBER=false\r\nX=1\r\n"] {
        for v in [true, false] {
            let once = Os::patch_grub_config_text(c, v);
            assert_eq!(Os::patch_grub_config_text(&once, v), once);
            let lines: Vec<&str> = once.lines().collect();
            assert!(lines.contains(&if v { "GRUB_DISABLE_OS_PROBER=true" } else { "GRUB_DISABLE_OS_PROBER=false" }));
        }
    }
}

#[test]
fn mark_survives_later_mark_and_ignore() {
    let mut p = StateDiskPredictor::new("/dev/sdb".to_string(), Some("mbr".to_string())).unwrap();
    let in_use = Ok(vec![2]);
    p.mark(2);
    p.ignore(2);
    p.mark(3);
    p.ignore(2);
    p.ignore(1);
    assert_ne!(p.predict_next_disks_num(&in_use), Some(2));
    assert_ne!(p.predict_next_disks_num(&Ok(vec![])), Some(2));
    p.mark(1);
    p.mark(4);
    assert_eq!(p.predict_next_disks_num(&in_use), None);
    assert_eq!(p.predict_next_disks_num(&Ok(vec![])), None);
}

#[test]
fn grub_patch_twice_with_carriage_return_on_key_line() {
    for v in [true, false] {
        let c = "GRUB_DISABLE_OS_PROBER=1\r\r\nA=1\n";
        let once = Os::patch_grub_config_text(c, v);
        assert_eq!(Os::patch_grub_config_text(&once, v), once);
    }
    let kept = "A=1\r\r\n";
    let once = Os::patch_grub_config_text(kept, true);
    assert_eq!(once, "A=1\r\nGRUB_DISABLE_OS_PROBER=true\n");
    assert_ne!(Os::patch_grub_config_text(&once, true), once);
}

#[test]
fn memory_in_swap_units() {
    assert_eq!(Os::memory_mb_of(0), 0);
    assert_eq!(Os::memory_mb_of(1023999), 0);
    assert_eq!(Os::memory_mb_of(1024000), 1);
    assert_eq!(Os::memory_mb_of(8 * 1024 * 1024 * 1024), 8388);
    assert!(Os::get_total_memory() <= u64::MAX / 1024000);
}

#[test]
fn disk_model_of_first_device() {
    let dev = |name: &str, model: Option<&str>| LsblkModelDevice {
        name: name.to_string(),
        model: model.map(|m| m.to_string()),
    };
    let listing = LsblkModelOutput {
        blockdevices: vec![dev("sdb", Some("Samsung SSD 870")), dev("sdb1", None)],
    };
    assert_eq!(Os::get_disk_model_in(&listing), Some("Samsung SSD 870".to_string()));
    let listing = LsblkModelOutput { blockdevices: vec![dev("sdb", None), dev("sdc", Some("X"))] };
    assert_eq!(Os::get_disk_model_in(&listing), None);
    assert_eq!(Os::get_disk_model_in(&LsblkModelOutput { blockdevices: vec![] }), None);
}
