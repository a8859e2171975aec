//! The plan for erasing a disk and giving it whole to the new system.
use vstd::prelude::*;
use crate::blueprint::{MethodKind, Partition, PartitionView, Storage, StorageView};
use crate::disk_helper::{mb2sector, mib};
use crate::exception::TealinuxAutoPartitionErr;
use crate::text::{lowercase, str_eq, string_from, to_lowercase, with_char};

verus! {

/// One partition as `sfdisk --json` lists it.
#[derive(Debug, Clone)]
pub struct Partitions {
    pub node: String,
    pub start: u64,
    pub size: u64,
    pub _type: String,
    pub bootable: Option<bool>,
    pub uuid: Option<String>,
    pub name: Option<String>,
}

/// The partition table of a disk as `sfdisk --json` lists it.
#[derive(Debug, Clone)]
pub struct BlockDeviceData {
    pub label: String,
    pub id: String,
    pub device: String,
    pub unit: String,
    pub firstlba: Option<u64>,
    pub lastlba: Option<u64>,
    pub sectorsize: u64,
    pub partitions: Option<Vec<Partitions>>,
}

/// The whole `sfdisk --json` output.
#[derive(Debug, Clone)]
pub struct PartitionTable {
    pub partitiontable: BlockDeviceData,
}

/// The disk, file system and partition table chosen for a single boot
/// installation, with what `sfdisk` reported of the disk.
#[derive(Debug, Clone)]
pub struct Blkstuff {
    pub selected_blockdev: String,
    pub selected_fs: String,
    pub selected_partition_table: String,
    pub partitiontable: PartitionTable,
}

/// The table used when `sfdisk` could not describe the disk: no label, no
/// partitions, sector size 0.
pub open spec fn empty_partition_table(t: PartitionTable) -> bool {
    &&& t.partitiontable.label@ == Seq::<char>::empty()
    &&& t.partitiontable.id@ == Seq::<char>::empty()
    &&& t.partitiontable.device@ == Seq::<char>::empty()
    &&& t.partitiontable.unit@ == Seq::<char>::empty()
    &&& t.partitiontable.sectorsize == 0
    &&& t.partitiontable.partitions matches Some(v) && v@.len() == 0
    &&& t.partitiontable.firstlba == Some(0u64)
    &&& t.partitiontable.lastlba == Some(0u64)
}

pub open spec fn twenty_gib() -> nat {
    21474836480
}

/// Sectors of the EFI system partition: 512 MiB.
pub open spec fn efi_sectors(sector_size: u64) -> nat {
    if sector_size == 0 {
        0
    } else {
        (512 * mib()) / (sector_size as nat)
    }
}

pub open spec fn gpt_text() -> Seq<char> {
    seq!['g', 'p', 't']
}

/// Whether the chosen partition table is GPT, whatever its letter case.
pub open spec fn wants_gpt(table: Seq<char>) -> bool {
    lowercase(table) == gpt_text()
}

/// The partitions of a single boot plan.  With GPT: a 512 MiB EFI system
/// partition from sector 2048, then the root partition up to 2048 sectors
/// before the end of the disk.  Otherwise: one root partition from sector
/// 2048 to 2048 sectors before the end of the disk.
pub open spec fn single_boot_partitions(
    dev: Seq<char>,
    fs: Seq<char>,
    gpt: bool,
    sector_size: u64,
    sectors: nat,
) -> Seq<PartitionView> {
    let efi = efi_sectors(sector_size);
    if gpt {
        let last = 2048 + efi;
        seq![
            PartitionView {
                number: 0,
                disk_path: Some(dev),
                path: Some(dev.push('1')),
                mountpoint: Some("/boot/efi"@),
                filesystem: Some("fat32"@),
                label: None,
                format: true,
                start: 2048,
                end: last as u64,
                size: efi as u64,
                flags: None,
            },
            PartitionView {
                number: 1,
                disk_path: Some(dev),
                path: Some(dev.push('2')),
                mountpoint: Some("/"@),
                filesystem: Some(fs),
                label: None,
                format: true,
                start: (last + 1) as u64,
                end: (sectors - 2048) as u64,
                size: (sectors - last - 2048) as u64,
                flags: None,
            },
        ]
    } else {
        seq![
            PartitionView {
                number: 0,
                disk_path: Some(dev),
                path: Some(dev.push('1')),
                mountpoint: Some("/"@),
                filesystem: Some(fs),
                label: None,
                format: true,
                start: 2048,
                end: (sectors - 2048) as u64,
                size: (sectors - 2048) as u64,
                flags: None,
            },
        ]
    }
}

/// The plan for the whole disk `dev`.
pub open spec fn single_boot_storage(
    dev: Seq<char>,
    table: Seq<char>,
    parts: Seq<PartitionView>,
) -> StorageView {
    StorageView {
        original_sector: None,
        disk_path: Some(dev),
        partition_table: Some(table),
        new_partition_table: true,
        layout_changed: true,
        autogenerated: true,
        autogenerated_mode: "singleboot"@,
        partitions: Some(parts),
        install_method: MethodKind::SINGLE,
    }
}

/// Whether the plan can be computed without running below sector 0: the
/// sector count is known and leaves room for the layout.
pub open spec fn single_boot_defined(
    table: Seq<char>,
    sector_size: u64,
    bytes: Option<u64>,
    sectors: Option<u64>,
) -> bool {
    bytes matches Some(b) && b > twenty_gib() ==> (sectors matches Some(s) && (if wants_gpt(table) {
        s >= 2048 + efi_sectors(sector_size) + 2048
    } else {
        s >= 2048
    }))
}

/// The single boot plan for a disk. What the machine reports (what
/// `sfdisk` and `blockdev` say of the disk) is an argument; the
/// implementation states its answers in its own contracts.
pub trait SingleBootBlockdevice: Sized {
    /// Whether `getresult` can answer for these sizes without an overflow.
    spec fn plan_defined(&self, current_size: Option<u64>, current_size_sector: Option<u64>) -> bool;

    fn blockdevice(
        blkname: String,
        fs: String,
        partition_table: String,
        blkinfo: Result<PartitionTable, String>,
    ) -> Self;

    fn getresult(&self, current_size: Option<u64>, current_size_sector: Option<u64>) -> Result<
        Storage,
        TealinuxAutoPartitionErr,
    >
        requires
            self.plan_defined(current_size, current_size_sector),
    ;
}

impl Blkstuff {
    pub open spec fn sector_size(&self) -> u64 {
        self.partitiontable.partitiontable.sectorsize
    }

}

impl SingleBootBlockdevice for Blkstuff {
    open spec fn plan_defined(&self, current_size: Option<u64>, current_size_sector: Option<u64>) -> bool {
        single_boot_defined(
            self.selected_partition_table@,
            self.sector_size(),
            current_size,
            current_size_sector,
        )
    }

    /// The selection for `blkname`; `blkinfo` is what `sfdisk --json`
    /// reported of it, and when that failed the table stays empty.
    fn blockdevice(
        blkname: String,
        fs: String,
        partition_table: String,
        blkinfo: Result<PartitionTable, String>,
    ) -> (r: Blkstuff)
        ensures
            r.selected_blockdev@ == blkname@,
            r.selected_fs@ == fs@,
            r.selected_partition_table@ == partition_table@,
            blkinfo matches Ok(t) ==> r.partitiontable == t,
            blkinfo is Err ==> empty_partition_table(r.partitiontable),
    {
        let table = match blkinfo {
            Ok(t) => t,
            Err(_) => PartitionTable {
                partitiontable: BlockDeviceData {
                    label: String::new(),
                    id: String::new(),
                    device: String::new(),
                    unit: String::new(),
                    sectorsize: 0,
                    partitions: Some(Vec::new()),
                    firstlba: Some(0),
                    lastlba: Some(0),
                },
            },
        };
        Blkstuff {
            selected_blockdev: blkname,
            selected_fs: fs,
            selected_partition_table: partition_table,
            partitiontable: table,
        }
    }

    /// The single boot plan for a disk of `current_size` bytes and
    /// `current_size_sector` sectors (both as `blockdev` reports them).
    /// Fails without the byte count, and for a disk of 20 GiB or less.
    fn getresult(&self, current_size: Option<u64>, current_size_sector: Option<u64>) -> (r:
        Result<Storage, TealinuxAutoPartitionErr>)
        ensures
            current_size is None ==> (r matches Err(TealinuxAutoPartitionErr::InternalErr(m)) && m@
                == "something error with getblkbytes()"@),
            current_size matches Some(b) && b <= twenty_gib() ==> (r matches Err(
                TealinuxAutoPartitionErr::InsufficientStorage(m),
            ) && m@ == "Selected storage is lower than 20 GB, Aborted!!"@),
            current_size matches Some(b) && b > twenty_gib() ==> (r matches Ok(s) && s@
                == single_boot_storage(
                self.selected_blockdev@,
                self.selected_partition_table@,
                single_boot_partitions(
                    self.selected_blockdev@,
                    self.selected_fs@,
                    wants_gpt(self.selected_partition_table@),
                    self.sector_size(),
                    current_size_sector->0 as nat,
                ),
            )),
    {
        let size = match current_size {
            Some(size) => size,
            None => {
                return Err(
                    TealinuxAutoPartitionErr::InternalErr(
                        string_from("something error with getblkbytes()"),
                    ),
                );
            },
        };
        if size <= 20 * 1024 * 1024 * 1024 {
            return Err(
                TealinuxAutoPartitionErr::InsufficientStorage(
                    string_from("Selected storage is lower than 20 GB, Aborted!!"),
                ),
            );
        }
        let sectors = match current_size_sector {
            Some(s) => s,
            None => { return Err(TealinuxAutoPartitionErr::InternalErr(String::new())); },
        };
        let dev = &self.selected_blockdev;
        let sector_size = self.partitiontable.partitiontable.sectorsize;
        let mut disks_export: Vec<Partition> = Vec::new();
        let table_lower = to_lowercase(self.selected_partition_table.as_str());
        let is_gpt = str_eq(table_lower.as_str(), "gpt");
        proof {
            reveal_strlit("gpt");
            assert("gpt"@ =~= gpt_text());
        }
        if is_gpt {
            let efi = mb2sector(512, sector_size);
            let last_sector: u64 = 2048 + efi;
            disks_export.push(
                Partition {
                    number: 0,
                    disk_path: Some(dev.clone()),
                    path: Some(with_char(dev, '1')),
                    mountpoint: Some(string_from("/boot/efi")),
                    filesystem: Some(string_from("fat32")),
                    label: None,
                    format: true,
                    start: 2048,
                    end: 2048 + efi,
                    size: efi,
                    flags: None,
                },
            );
            disks_export.push(
                Partition {
                    number: 1,
                    disk_path: Some(dev.clone()),
                    path: Some(with_char(dev, '2')),
                    mountpoint: Some(string_from("/")),
                    filesystem: Some(self.selected_fs.clone()),
                    label: None,
                    format: true,
                    start: last_sector + 1,
                    end: sectors - 2048,
                    size: sectors - last_sector - 2048,
                    flags: None,
                },
            );
        } else {
            disks_export.push(
                Partition {
                    number: 0,
                    disk_path: Some(dev.clone()),
                    path: Some(with_char(dev, '1')),
                    mountpoint: Some(string_from("/")),
                    filesystem: Some(self.selected_fs.clone()),
                    label: None,
                    format: true,
                    start: 2048,
                    end: sectors - 2048,
                    size: sectors - 2048,
                    flags: None,
                },
            );
        }
        let r = Storage {
            original_sector: None,
            disk_path: Some(dev.clone()),
            partition_table: Some(self.selected_partition_table.clone()),
            new_partition_table: true,
            layout_changed: true,
            autogenerated: true,
            autogenerated_mode: string_from("singleboot"),
            partitions: Some(disks_export),
            install_method: MethodKind::SINGLE,
        };
        assert(r@.partitions->0 =~= single_boot_partitions(
            self.selected_blockdev@,
            self.selected_fs@,
            wants_gpt(self.selected_partition_table@),
            self.sector_size(),
            sectors as nat,
        ));
        Ok(r)
    }
}

impl Blkstuff {
    /// The single boot plan, or `None` where the sector count is missing
    /// or too small for the layout that a disk of more than 20 GiB gets.
    pub fn getresult_checked(&self, current_size: Option<u64>, current_size_sector: Option<u64>) -> (r:
        Option<Result<Storage, TealinuxAutoPartitionErr>>)
        ensures
            r is Some <==> single_boot_defined(
                self.selected_partition_table@,
                self.sector_size(),
                current_size,
                current_size_sector,
            ),
    {
        let table_lower = to_lowercase(self.selected_partition_table.as_str());
        let is_gpt = str_eq(table_lower.as_str(), "gpt");
        proof {
            reveal_strlit("gpt");
            assert("gpt"@ =~= gpt_text());
        }
        let defined = match current_size {
            Some(b) if b > 20 * 1024 * 1024 * 1024 => match current_size_sector {
                Some(s) => {
                    if is_gpt {
                        let efi = mb2sector(512, self.partitiontable.partitiontable.sectorsize);
                        s >= 2048 && s - 2048 >= 2048 + efi
                    } else {
                        s >= 2048
                    }
                },
                None => false,
            },
            _ => true,
        };
        if defined {
            Some(self.getresult(current_size, current_size_sector))
        } else {
            None
        }
    }
}

/// The single boot layout lies within the disk: every partition starts at
/// sector 2048 or later and ends 2048 sectors before the end of the disk
/// or earlier, and with GPT the root partition starts after the EFI system
/// partition ends.
pub proof fn law_single_boot_layout_fits(
    dev: Seq<char>,
    fs: Seq<char>,
    gpt: bool,
    sector_size: u64,
    sectors: u64,
)
    requires
        sectors >= (if gpt {
            2048 + efi_sectors(sector_size) + 2048
        } else {
            2048
        }),
    ensures
        ({
            let parts = single_boot_partitions(dev, fs, gpt, sector_size, sectors as nat);
            &&& forall|i: int|
                0 <= i < parts.len() ==> 2048 <= (#[trigger] parts[i]).start && parts[i].end
                    <= sectors - 2048
            &&& gpt ==> parts.len() == 2 && parts[0].end < parts[1].start
            &&& !gpt ==> parts.len() == 1
        }),
{
    let efi = efi_sectors(sector_size);
    assert(efi <= 512 * mib()) by {
        if sector_size > 0 {
            assert((512 * mib()) / (sector_size as nat) <= 512 * mib()) by (nonlinear_arith)
                requires
                    sector_size as nat >= 1,
            ;
        }
    }
}

}
