//! The installation plan handed to the partitioning and mounting steps.
use vstd::prelude::*;

verus! {

/// The firmware a machine boots with.
#[derive(Debug, Clone, Copy, PartialEq, Eq, Structural)]
pub enum FirmwareKind {
    UEFI,
    BIOS,
}

impl FirmwareKind {
    pub open spec fn name_spec(self) -> Seq<char> {
        match self {
            FirmwareKind::UEFI => seq!['U', 'E', 'F', 'I'],
            FirmwareKind::BIOS => seq!['B', 'I', 'O', 'S'],
        }
    }

    /// The name of the firmware kind.
    pub fn as_str(&self) -> (r: String)
        ensures
            r@ == self.name_spec(),
    {
        let mut s = String::new();
        match self {
            FirmwareKind::UEFI => {
                s.push('U');
                s.push('E');
                s.push('F');
                s.push('I');
            },
            FirmwareKind::BIOS => {
                s.push('B');
                s.push('I');
                s.push('O');
                s.push('S');
            },
        }
        s
    }
}

/// How the system is installed on the disk.
#[derive(Debug, Clone, Copy, PartialEq, Eq, Structural)]
pub enum MethodKind {
    /// The whole disk is erased and given to the new system.
    SINGLE,
    /// The new system is put beside one that stays.
    DUAL,
}

/// One partition of the plan.
#[derive(Debug, Clone)]
pub struct Partition {
    pub number: u64,
    pub disk_path: Option<String>,
    pub path: Option<String>,
    pub mountpoint: Option<String>,
    pub filesystem: Option<String>,
    pub label: Option<String>,
    pub format: bool,
    pub start: u64,
    pub end: u64,
    pub size: u64,
    pub flags: Option<Vec<String>>,
}

/// The sectors that a partition covered before the plan changed it.
#[derive(Debug, Clone)]
pub struct OriginalSector {
    pub start: Option<u64>,
    pub end: Option<u64>,
}

/// The plan for one disk.
#[derive(Debug, Clone)]
pub struct Storage {
    pub original_sector: Option<OriginalSector>,
    pub disk_path: Option<String>,
    pub partition_table: Option<String>,
    pub new_partition_table: bool,
    pub layout_changed: bool,
    pub autogenerated: bool,
    pub autogenerated_mode: String,
    pub partitions: Option<Vec<Partition>>,
    pub install_method: MethodKind,
}

/// Where the boot loader goes.
#[derive(Debug, Clone)]
pub struct Bootloader {
    pub firmware_type: FirmwareKind,
    pub path: Option<String>,
}

pub open spec fn opt_view(o: Option<String>) -> Option<Seq<char>> {
    match o {
        Some(s) => Some(s@),
        None => None,
    }
}

pub struct PartitionView {
    pub number: u64,
    pub disk_path: Option<Seq<char>>,
    pub path: Option<Seq<char>>,
    pub mountpoint: Option<Seq<char>>,
    pub filesystem: Option<Seq<char>>,
    pub label: Option<Seq<char>>,
    pub format: bool,
    pub start: u64,
    pub end: u64,
    pub size: u64,
    pub flags: Option<Seq<Seq<char>>>,
}

impl View for Partition {
    type V = PartitionView;

    open spec fn view(&self) -> PartitionView {
        PartitionView {
            number: self.number,
            disk_path: opt_view(self.disk_path),
            path: opt_view(self.path),
            mountpoint: opt_view(self.mountpoint),
            filesystem: opt_view(self.filesystem),
            label: opt_view(self.label),
            format: self.format,
            start: self.start,
            end: self.end,
            size: self.size,
            flags: match self.flags {
                Some(v) => Some(v.deep_view()),
                None => None,
            },
        }
    }
}

pub struct StorageView {
    pub original_sector: Option<(Option<u64>, Option<u64>)>,
    pub disk_path: Option<Seq<char>>,
    pub partition_table: Option<Seq<char>>,
    pub new_partition_table: bool,
    pub layout_changed: bool,
    pub autogenerated: bool,
    pub autogenerated_mode: Seq<char>,
    pub partitions: Option<Seq<PartitionView>>,
    pub install_method: MethodKind,
}

pub open spec fn partition_views(v: Seq<Partition>) -> Seq<PartitionView> {
    v.map_values(|p: Partition| p@)
}

impl View for Storage {
    type V = StorageView;

    open spec fn view(&self) -> StorageView {
        StorageView {
            original_sector: match self.original_sector {
                Some(o) => Some((o.start, o.end)),
                None => None,
            },
            disk_path: opt_view(self.disk_path),
            partition_table: opt_view(self.partition_table),
            new_partition_table: self.new_partition_table,
            layout_changed: self.layout_changed,
            autogenerated: self.autogenerated,
            autogenerated_mode: self.autogenerated_mode@,
            partitions: match self.partitions {
                Some(v) => Some(partition_views(v@)),
                None => None,
            },
            install_method: self.install_method,
        }
    }
}

}
