//! The plan for installing beside a system that stays on the disk: the new
//! root partition takes a free area chosen by the user.
use vstd::prelude::*;
use crate::blueprint::{FirmwareKind, MethodKind, PartitionView, Storage, StorageView};
use crate::text::{
    decimal_spec, str_eq, string_from, to_uppercase, uppercase, with_decimal,
};

verus! {

/// The output of `parted -j unit s print`.
#[derive(Debug, Clone)]
pub struct DiskInfo {
    pub disk: Disk,
}

#[derive(Debug, Clone)]
pub struct Disk {
    pub path: Option<String>,
    pub size: Option<String>,
    pub model: Option<String>,
    pub transport: Option<String>,
    pub logical_sector_size: u32,
    pub physical_sector_size: u32,
    pub label: Option<String>,
    pub uuid: Option<String>,
    pub max_partitions: u32,
    pub partitions: Vec<Partition>,
}

/// One partition as `parted -j` lists it.
#[derive(Debug, Clone)]
pub struct Partition {
    pub number: u32,
    pub start: String,
    pub end: String,
    pub size: String,
    pub type_field: Option<String>,
    pub type_uuid: Option<String>,
    pub type_id: Option<String>,
    pub uuid: Option<String>,
    pub filesystem: String,
    pub flags: Option<Vec<String>>,
}

/// The disk and file system chosen for a dual boot installation.
#[derive(Debug, Clone)]
pub struct DualbootBlkstuff {
    pub selected_blockdev: String,
    pub selected_fs: String,
}

/// How the machine boots and which partition table the disk has.
#[derive(Debug, Clone)]
pub struct DiskLayout {
    pub mode: Option<FirmwareKind>,
    pub partition_type: Option<String>,
}

/// The highest partition number among `parts`, and at least 1.
pub open spec fn highest_number_spec(parts: Seq<Partition>) -> int
    decreases parts.len(),
{
    if parts.len() == 0 {
        1
    } else {
        let h = highest_number_spec(parts.drop_last());
        if parts.last().number > h {
            parts.last().number as int
        } else {
            h
        }
    }
}

/// Whether every partition number fits in an `i32`.
pub open spec fn numbers_fit_i32(parts: Seq<Partition>) -> bool {
    forall|i: int| 0 <= i < parts.len() ==> (#[trigger] parts[i]).number <= i32::MAX
}

pub open spec fn gpt_label() -> Seq<char> {
    seq!['g', 'p', 't']
}

pub open spec fn msdos_label() -> Seq<char> {
    seq!['m', 's', 'd', 'o', 's']
}

/// Whether the partition table suits the firmware: GPT with UEFI, or an
/// MS-DOS table with BIOS.
pub open spec fn layout_usual(layout: DiskLayout) -> bool {
    layout.mode matches Some(m) && ((layout.partition_type matches Some(t) && t@ == gpt_label()
        && m == FirmwareKind::UEFI) || (layout.partition_type matches Some(t) && t@ == msdos_label()
        && m == FirmwareKind::BIOS))
}

/// The message for a table that does not suit the firmware.
pub open spec fn mismatch_message(table: Seq<char>, mode: FirmwareKind) -> Seq<char> {
    "your partition (which is "@ + uppercase(table) + ") and boot mode (which is "@
        + mode.name_spec() + ") in yout system is mismatch or unusual"@
}

/// The new root partition, numbered after the highest existing one.
pub open spec fn dual_boot_partition(
    dev: Seq<char>,
    fs: Seq<char>,
    highest: int,
    start: u64,
    end: u64,
) -> PartitionView {
    PartitionView {
        number: (highest + 1) as u64,
        disk_path: Some(dev),
        path: Some(dev + decimal_spec((highest + 1) as nat)),
        mountpoint: Some("/"@),
        filesystem: Some(fs),
        label: None,
        format: true,
        start,
        end,
        size: (end - start) as u64,
        flags: None,
    }
}

pub open spec fn dual_boot_storage(dev: Seq<char>, table: Seq<char>, part: PartitionView) -> StorageView {
    StorageView {
        original_sector: None,
        disk_path: Some(dev),
        partition_table: Some(table),
        new_partition_table: false,
        layout_changed: false,
        autogenerated: true,
        autogenerated_mode: "doubleboot"@,
        partitions: Some(seq![part]),
        install_method: MethodKind::DUAL,
    }
}

/// What the plan needs of the disk description: a partition table label,
/// partition numbers that fit in an `i32` and leave room for one more, and
/// a free area that does not end before it starts.
pub open spec fn generate_defined(data: Option<DiskInfo>, start: u64, end: u64) -> bool {
    &&& data matches Some(d)
    &&& d.disk.label is Some
    &&& numbers_fit_i32(d.disk.partitions@)
    &&& highest_number_spec(d.disk.partitions@) < i32::MAX
    &&& start <= end
}

/// The dual boot plan for a disk. What the machine reports (whether the
/// firmware is UEFI, what `parted` lists) is an argument; the
/// implementation states its answers in its own contracts.
pub trait DualBootBlockdevice: Sized {
    fn blockdevice(blkname: String, fs: String) -> Self;

    fn check_base_disk_layout(&self, efi_firmware_dir: bool, structure: &Option<DiskInfo>) -> DiskLayout
        requires
            structure matches Some(d) ==> d.disk.label is Some,
    ;

    fn getresult(
        &self,
        start: u64,
        end: u64,
        layout: &DiskLayout,
        structure: &Option<DiskInfo>,
    ) -> Result<Storage, String>
        requires
            !layout_usual(*layout) ==> layout.partition_type is Some && layout.mode is Some,
            layout_usual(*layout) ==> generate_defined(*structure, start, end),
    ;

    fn _check(&self, data: &DiskLayout) -> Result<bool, String>
        requires
            !layout_usual(*data) ==> data.partition_type is Some && data.mode is Some,
    ;

    fn _generate_json(&self, start: u64, end: u64, check_disk_layout: &Option<DiskInfo>) -> Storage
        requires
            generate_defined(*check_disk_layout, start, end),
    ;

    fn get_highest_partition_number(&self, data: &Option<DiskInfo>) -> i32
        requires
            data matches Some(d) ==> numbers_fit_i32(d.disk.partitions@),
    ;
}

impl DualBootBlockdevice for DualbootBlkstuff {
    fn blockdevice(blkname: String, fs: String) -> (r: DualbootBlkstuff)
        ensures
            r.selected_blockdev@ == blkname@,
            r.selected_fs@ == fs@,
    {
        DualbootBlkstuff { selected_blockdev: blkname, selected_fs: fs }
    }

    /// The firmware (UEFI when `/sys/firmware/efi` is a directory, else
    /// BIOS) and the partition table label that `parted` reported.
    fn check_base_disk_layout(&self, efi_firmware_dir: bool, structure: &Option<DiskInfo>) -> (r:
        DiskLayout)
        ensures
            r.mode == Some(if efi_firmware_dir {
                FirmwareKind::UEFI
            } else {
                FirmwareKind::BIOS
            }),
            r.partition_type == (match structure {
                Some(d) => d.disk.label,
                None => None::<String>,
            }),
    {
        let mode = if efi_firmware_dir {
            FirmwareKind::UEFI
        } else {
            FirmwareKind::BIOS
        };
        let partition_type = match structure {
            Some(d) => d.disk.label.clone(),
            None => None,
        };
        DiskLayout { mode: Some(mode), partition_type }
    }

    /// Accepts GPT with UEFI and an MS-DOS table with BIOS, and explains
    /// any other combination.
    fn _check(&self, data: &DiskLayout) -> (r: Result<bool, String>)
        ensures
            layout_usual(*data) ==> r == Ok::<bool, String>(true),
            !layout_usual(*data) ==> (r matches Err(m) && m@ == mismatch_message(
                data.partition_type->0@,
                data.mode->0,
            )),
    {
        proof {
            reveal_strlit("gpt");
            reveal_strlit("msdos");
            assert("gpt"@ =~= gpt_label());
            assert("msdos"@ =~= msdos_label());
        }
        if let Some(mode_val) = &data.mode {
            if let Some(t) = &data.partition_type {
                if str_eq(t.as_str(), "gpt") && *mode_val == FirmwareKind::UEFI {
                    return Ok(true);
                }
                if str_eq(t.as_str(), "msdos") && *mode_val == FirmwareKind::BIOS {
                    return Ok(true);
                }
            }
        }
        match (&data.partition_type, &data.mode) {
            (Some(t), Some(m)) => {
                let mut buf = string_from("your partition (which is ");
                let upper = to_uppercase(t.as_str());
                buf.append(upper.as_str());
                buf.append(") and boot mode (which is ");
                let mode_name = m.as_str();
                buf.append(mode_name.as_str());
                buf.append(") in yout system is mismatch or unusual");
                Err(buf)
            },
            _ => Err(String::new()),
        }
    }

    /// The highest partition number on the disk (at least 1), or -1
    /// without a disk description.
    fn get_highest_partition_number(&self, data: &Option<DiskInfo>) -> (r: i32)
        ensures
            r == (match data {
                Some(d) => highest_number_spec(d.disk.partitions@),
                None => -1,
            }),
    {
        match data {
            Some(d) => {
                let parts = &d.disk.partitions;
                let mut highest: i32 = 1;
                let mut i: usize = 0;
                while i < parts.len()
                    invariant
                        i <= parts.len(),
                        numbers_fit_i32(parts@),
                        highest == highest_number_spec(parts@.take(i as int)),
                    decreases parts.len() - i,
                {
                    assert(parts@.take(i + 1).drop_last() == parts@.take(i as int));
                    let n = parts[i].number;
                    assert(parts@[i as int].number <= i32::MAX);
                    if (n as i32) > highest {
                        highest = n as i32;
                    }
                    i = i + 1;
                }
                assert(parts@.take(parts.len() as int) == parts@);
                highest
            },
            None => -1,
        }
    }

    /// The dual boot plan for the free area `start..end`: one new root
    /// partition, numbered after the highest existing one.
    fn _generate_json(&self, start: u64, end: u64, check_disk_layout: &Option<DiskInfo>) -> (r:
        Storage)
        ensures
            r@ == dual_boot_storage(
                self.selected_blockdev@,
                check_disk_layout->0.disk.label->0@,
                dual_boot_partition(
                    self.selected_blockdev@,
                    self.selected_fs@,
                    highest_number_spec(check_disk_layout->0.disk.partitions@),
                    start,
                    end,
                ),
            ),
    {
        let highest_disk = self.get_highest_partition_number(check_disk_layout);
        let next = highest_disk + 1;
        let dev = &self.selected_blockdev;
        let part = crate::blueprint::Partition {
            number: next as u64,
            disk_path: Some(dev.clone()),
            path: Some(with_decimal(dev, next as u64)),
            mountpoint: Some(string_from("/")),
            filesystem: Some(self.selected_fs.clone()),
            label: None,
            format: true,
            start,
            end,
            size: end - start,
            flags: None,
        };
        let table = match check_disk_layout {
            Some(d) => match &d.disk.label {
                Some(l) => l.clone(),
                None => String::new(),
            },
            None => String::new(),
        };
        let mut partition_data: Vec<crate::blueprint::Partition> = Vec::new();
        partition_data.push(part);
        let r = Storage {
            original_sector: None,
            disk_path: Some(dev.clone()),
            partition_table: Some(table),
            new_partition_table: false,
            layout_changed: false,
            autogenerated: true,
            autogenerated_mode: string_from("doubleboot"),
            partitions: Some(partition_data),
            install_method: MethodKind::DUAL,
        };
        assert(r@.partitions->0 =~= seq![
            dual_boot_partition(
                self.selected_blockdev@,
                self.selected_fs@,
                highest_number_spec(check_disk_layout->0.disk.partitions@),
                start,
                end,
            ),
        ]);
        r
    }

    /// The dual boot plan when the partition table suits the firmware,
    /// otherwise the reason why not.
    fn getresult(
        &self,
        start: u64,
        end: u64,
        layout: &DiskLayout,
        structure: &Option<DiskInfo>,
    ) -> (r: Result<Storage, String>)
        ensures
            layout_usual(*layout) ==> (r matches Ok(s) && s@ == dual_boot_storage(
                self.selected_blockdev@,
                structure->0.disk.label->0@,
                dual_boot_partition(
                    self.selected_blockdev@,
                    self.selected_fs@,
                    highest_number_spec(structure->0.disk.partitions@),
                    start,
                    end,
                ),
            )),
            !layout_usual(*layout) ==> (r matches Err(m) && m@ == "generation failed: "@
                + mismatch_message(layout.partition_type->0@, layout.mode->0)),
    {
        match self._check(layout) {
            Ok(_) => Ok(self._generate_json(start, end, structure)),
            Err(e) => {
                let mut buf = string_from("generation failed: ");
                buf.append(e.as_str());
                Err(buf)
            },
        }
    }
}

/// The new partition gets a number that no existing partition has: it is
/// larger than every existing number.
pub proof fn law_new_partition_number_is_fresh(parts: Seq<Partition>)
    ensures
        forall|i: int| 0 <= i < parts.len() ==> (#[trigger] parts[i]).number < highest_number_spec(parts) + 1,
        highest_number_spec(parts) >= 1,
    decreases parts.len(),
{
    if parts.len() > 0 {
        law_new_partition_number_is_fresh(parts.drop_last());
        assert forall|i: int| 0 <= i < parts.len() implies (#[trigger] parts[i]).number
            < highest_number_spec(parts) + 1 by {
            if i < parts.len() - 1 {
                assert(parts[i] == parts.drop_last()[i]);
            }
        }
    }
}

/// The highest partition number is the largest listed number, or 1 when
/// no partition is listed with a larger one: no listed number exceeds it,
/// and unless it is 1 it is the number of a listed partition.  The new
/// partition therefore gets the number right after the largest one.
pub proof fn law_highest_number_is_largest_listed(parts: Seq<Partition>)
    ensures
        forall|i: int| 0 <= i < parts.len() ==> (#[trigger] parts[i]).number <= highest_number_spec(parts),
        highest_number_spec(parts) == 1 || exists|i: int|
            0 <= i < parts.len() && (#[trigger] parts[i]).number == highest_number_spec(parts),
    decreases parts.len(),
{
    if parts.len() > 0 {
        let prev = parts.drop_last();
        law_highest_number_is_largest_listed(prev);
        assert forall|i: int| 0 <= i < parts.len() implies (#[trigger] parts[i]).number
            <= highest_number_spec(parts) by {
            if i < parts.len() - 1 {
                assert(parts[i] == prev[i]);
            }
        }
        if highest_number_spec(parts) != 1 {
            if parts.last().number > highest_number_spec(prev) {
                assert(parts[parts.len() - 1].number == highest_number_spec(parts));
            } else {
                let i = choose|i: int|
                    0 <= i < prev.len() && (#[trigger] prev[i]).number == highest_number_spec(prev);
                assert(parts[i] == prev[i]);
            }
        }
    }
}

impl DualbootBlkstuff {
    /// Whether `getresult` can answer for this layout, disk description and
    /// area without failing on a missing value or an overflow.
    pub fn getresult_defined(layout: &DiskLayout, structure: &Option<DiskInfo>, start: u64, end: u64) -> (r: bool)
        ensures
            r == ((!layout_usual(*layout) ==> layout.partition_type is Some && layout.mode is Some)
                && (layout_usual(*layout) ==> generate_defined(*structure, start, end))),
    {
        proof {
            reveal_strlit("gpt");
            reveal_strlit("msdos");
            assert("gpt"@ =~= gpt_label());
            assert("msdos"@ =~= msdos_label());
        }
        let usual = match (&layout.mode, &layout.partition_type) {
            (Some(m), Some(t)) => (str_eq(t.as_str(), "gpt") && *m == FirmwareKind::UEFI) || (str_eq(
                t.as_str(),
                "msdos",
            ) && *m == FirmwareKind::BIOS),
            _ => false,
        };
        if !usual {
            return layout.partition_type.is_some() && layout.mode.is_some();
        }
        if start > end {
            return false;
        }
        match structure {
            Some(d) => {
                if d.disk.label.is_none() {
                    return false;
                }
                let parts = &d.disk.partitions;
                let mut highest: u32 = 1;
                let mut i: usize = 0;
                while i < parts.len()
                    invariant
                        i <= parts.len(),
                        numbers_fit_i32(parts@.take(i as int)),
                        highest == highest_number_spec(parts@.take(i as int)),
                        *structure == Some(*d),
                        parts@ == d.disk.partitions@,
                        layout_usual(*layout),
                    decreases parts.len() - i,
                {
                    assert(parts@.take(i + 1).drop_last() == parts@.take(i as int));
                    if parts[i].number > 2147483647 {
                        assert(!numbers_fit_i32(parts@)) by {
                            assert(parts@[i as int].number > i32::MAX);
                        }
                        return false;
                    }
                    if parts[i].number > highest {
                        highest = parts[i].number;
                    }
                    i = i + 1;
                    assert(numbers_fit_i32(parts@.take(i as int))) by {
                        assert forall|j: int| 0 <= j < i implies (#[trigger] parts@.take(i as int)[j]).number
                            <= i32::MAX by {
                            if j < i - 1 {
                                assert(parts@.take(i as int)[j] == parts@.take(i - 1)[j]);
                            }
                        }
                    }
                }
                assert(parts@.take(parts.len() as int) == parts@);
                highest < 2147483647
            },
            None => false,
        }
    }
}

}
